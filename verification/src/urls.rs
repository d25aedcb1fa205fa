//! Addresses as texts, and what the `url` crate makes of them.
use vstd::prelude::*;
use vstd::utf8::encode_utf8;

use crate::numbers::hex_text;
use crate::text::to_chars;

verus! {

/// What `url::Url::parse` makes of a text: the text of the address; nothing where it is none.
pub uninterp spec fn parsed_url(text: Seq<char>) -> Option<Seq<char>>;

/// What `url::Url::join` makes of a text that is read relative to an address.
pub uninterp spec fn joined_url(base: Seq<char>, href: Seq<char>) -> Option<Seq<char>>;

/// What appending pairs with `url::Url::query_pairs_mut` makes of an address.
pub uninterp spec fn url_with_pairs(
    url: Seq<char>,
    pairs: Seq<(Seq<char>, Seq<char>)>,
) -> Option<Seq<char>>;

/// A byte in a form: letters, digits and `*-._` are kept, a space is a plus sign, and any other byte
/// is two hexadecimal digits behind a percent sign.
pub open spec fn form_byte(byte: u8) -> Seq<char> {
    if (0x61 <= byte <= 0x7a) || (0x41 <= byte <= 0x5a) || (0x30 <= byte <= 0x39) || byte == 0x2a
        || byte == 0x2d || byte == 0x2e || byte == 0x5f {
        seq![byte as char]
    } else if byte == 0x20 {
        seq!['+']
    } else {
        seq!['%'] + hex_text(byte as nat, 2)
    }
}

/// The bytes of a name or a value in a form.
pub open spec fn form_bytes(bytes: Seq<u8>) -> Seq<char>
    decreases bytes.len(),
{
    if bytes.len() == 0 {
        Seq::empty()
    } else {
        form_bytes(bytes.drop_last()) + form_byte(bytes.last())
    }
}

/// Pairs as a form: each name and its value with an equals sign between them, and an ampersand
/// between two pairs.
pub open spec fn form_encoded(pairs: Seq<(Seq<char>, Seq<char>)>) -> Seq<char>
    decreases pairs.len(),
{
    if pairs.len() == 0 {
        Seq::empty()
    } else {
        form_encoded(pairs.drop_last()) + (if pairs.len() > 1 {
            seq!['&']
        } else {
            Seq::empty()
        }) + form_bytes(encode_utf8(pairs.last().0)) + seq!['='] + form_bytes(
            encode_utf8(pairs.last().1),
        )
    }
}

pub open spec fn optional_view(text: Option<String>) -> Option<Seq<char>> {
    match text {
        Some(text) => Some(text@),
        None => None,
    }
}

pub open spec fn pairs_view(pairs: Seq<(String, String)>) -> Seq<(Seq<char>, Seq<char>)> {
    Seq::new(pairs.len(), |i: int| (pairs[i].0@, pairs[i].1@))
}

/// How many bytes stand in an address before its query, before its fragment, and in all of it, as
/// `url::Position` finds them. A query begins with a question mark, a fragment with a number sign.
pub uninterp spec fn url_ends(url: Seq<char>) -> Option<(usize, usize, usize)>;

/// How many bytes a character takes in a query: one where it is kept or is a space, else three for
/// each byte that encodes it.
pub open spec fn encoded_char_length(c: char) -> nat {
    if ('a' <= c <= 'z') || ('A' <= c <= 'Z') || ('0' <= c <= '9') || c == '*' || c == '-' || c
        == '.' || c == '_' || c == ' ' {
        1
    } else if c <= '\u{7f}' {
        3
    } else if c <= '\u{7ff}' {
        6
    } else if c <= '\u{ffff}' {
        9
    } else {
        12
    }
}

/// How many bytes a text takes in a query.
pub open spec fn encoded_length(text: Seq<char>) -> nat
    decreases text.len(),
{
    if text.len() == 0 {
        0
    } else {
        encoded_length(text.drop_last()) + encoded_char_length(text.last())
    }
}

/// How many bytes pairs take in a query, with what separates them from each other and, where
/// something stands before them, from that.
pub open spec fn pairs_length(pairs: Seq<(Seq<char>, Seq<char>)>, follows: bool) -> nat
    decreases pairs.len(),
{
    if pairs.len() == 0 {
        0
    } else {
        pairs_length(pairs.drop_last(), follows) + encoded_length(pairs.last().0) + 1
            + encoded_length(pairs.last().1) + (if follows || pairs.len() > 1 {
            1nat
        } else {
            0nat
        })
    }
}

/// Where the query of an address ends once pairs have been added to it.
pub open spec fn query_end_with(
    ends: (usize, usize, usize),
    pairs: Seq<(Seq<char>, Seq<char>)>,
) -> int {
    ends.1 + (if ends.0 == ends.1 {
        1nat
    } else {
        0nat
    }) + pairs_length(pairs, ends.1 > ends.0 + 1)
}

/// Whether pairs can be added to an address: a `u32` counts the bytes before its query, and those
/// before its fragment if it has one.
pub open spec fn can_add_pairs(
    ends: (usize, usize, usize),
    pairs: Seq<(Seq<char>, Seq<char>)>,
) -> bool {
    &&& ends.0 == ends.1 ==> ends.1 <= u32::MAX
    &&& ends.1 < ends.2 ==> query_end_with(ends, pairs) <= u32::MAX
}

/// `url::Url::parse`: the text of the address that a text writes. What that is is not said here.
#[verifier::external_body]
pub(crate) fn parse_url(text: &str) -> (r: Option<String>)
    ensures
        optional_view(r) == parsed_url(text@),
{
    url::Url::parse(text).ok().map(|url| String::from(url))
}

/// `url::Url::join`: the text of the address that a text writes relative to another address, which
/// is itself given as text. Nothing where one of them cannot be read.
#[verifier::external_body]
pub(crate) fn join_url(base: &str, href: &str) -> (r: Option<String>)
    ensures
        optional_view(r) == joined_url(base@, href@),
{
    let base = url::Url::parse(base).ok()?;
    base.join(href).ok().map(|url| String::from(url))
}

/// `url::Url::query_pairs_mut` and `extend_pairs` on it: the text of an address with pairs appended
/// to its query. What stands before the query and before the fragment must be as short as `url` can
/// count. Nothing where the address cannot be read.
#[verifier::external_body]
pub(crate) fn append_pairs(url: &str, pairs: &Vec<(String, String)>) -> (r: Option<String>)
    requires
        url_ends(url@) matches Some(ends) ==> can_add_pairs(ends, pairs_view(pairs@)),
    ensures
        optional_view(r) == url_with_pairs(url@, pairs_view(pairs@)),
{
    let mut url = url::Url::parse(url).ok()?;
    url.query_pairs_mut().extend_pairs(pairs);
    Some(String::from(url))
}

/// `url::Url` indexed by `url::Position`: how many bytes of an address, which is given as text, stand
/// before its query, before its fragment, and in all of it. Nothing where it cannot be read.
#[verifier::external_body]
pub(crate) fn measure_url(url: &str) -> (r: Option<(usize, usize, usize)>)
    ensures
        r == url_ends(url@),
{
    let url = url::Url::parse(url).ok()?;
    let before_query = url[..url::Position::AfterPath].len();
    let before_fragment = url[..url::Position::AfterQuery].len();
    Some((before_query, before_fragment, url[..].len()))
}

/// `url::form_urlencoded::Serializer` on an empty string: the pairs as the body of a form.
#[verifier::external_body]
pub(crate) fn encode_pairs(pairs: &Vec<(String, String)>) -> (r: String)
    ensures
        r@ == form_encoded(pairs_view(pairs@)),
{
    let mut serializer = url::form_urlencoded::Serializer::new(String::new());
    serializer.extend_pairs(pairs);
    serializer.finish()
}

/// What `url::Url::path` gives of an address.
pub uninterp spec fn url_path(url: Seq<char>) -> Option<Seq<char>>;

/// What `url::Url::scheme` gives of an address.
pub uninterp spec fn url_scheme(url: Seq<char>) -> Option<Seq<char>>;

/// `url::Url::path`: the path of an address, which is given as text. Nothing where it cannot be read.
#[verifier::external_body]
pub(crate) fn read_path(url: &str) -> (r: Option<String>)
    ensures
        optional_view(r) == url_path(url@),
{
    url::Url::parse(url).ok().map(|url| url.path().to_owned())
}

/// `url::Url::scheme`: the scheme of an address, which is given as text. Nothing where it cannot be
/// read.
#[verifier::external_body]
pub(crate) fn read_scheme(url: &str) -> (r: Option<String>)
    ensures
        optional_view(r) == url_scheme(url@),
{
    url::Url::parse(url).ok().map(|url| url.scheme().to_owned())
}

/// An address from a text: as it is where it is a whole address, else relative to a base. Nothing
/// where it cannot be read, or is relative and no base is given.
pub open spec fn resolved_url(href: Seq<char>, base: Option<Seq<char>>) -> Option<Seq<char>> {
    match parsed_url(href) {
        Some(url) => Some(url),
        None => match base {
            Some(base) => joined_url(base, href),
            None => None,
        },
    }
}

/// An address from a text: as it is where it is a whole address, else relative to a base.
pub fn resolve_url(href: &str, base: Option<&str>) -> (r: Option<String>)
    ensures
        optional_view(r) == resolved_url(
            href@,
            match base {
                Some(base) => Some(base@),
                None => None,
            },
        ),
{
    match parse_url(href) {
        Some(url) => Some(url),
        None => match base {
            Some(base) => join_url(base, href),
            None => None,
        },
    }
}

/// Adds how many bytes a text takes in a query to a number.
fn add_encoded_length(start: u128, text: &str) -> (r: u128)
    requires
        start <= u64::MAX,
    ensures
        r == start + encoded_length(text@),
{
    let chars = to_chars(text);
    let mut total: u128 = start;
    let mut at: usize = 0;
    while at < chars.len()
        invariant
            at <= chars@.len(),
            start <= u64::MAX,
            total == start + encoded_length(chars@.take(at as int)),
            total <= start + 12 * at,
        decreases chars@.len() - at,
    {
        let ghost more = chars@.take(at + 1);
        assert(more.drop_last() =~= chars@.take(at as int));
        let c: char = chars[at];
        let length: u128 = if ('a' <= c && c <= 'z') || ('A' <= c && c <= 'Z') || ('0' <= c && c
            <= '9') || c == '*' || c == '-' || c == '.' || c == '_' || c == ' ' {
            1
        } else if c <= '\u{7f}' {
            3
        } else if c <= '\u{7ff}' {
            6
        } else if c <= '\u{ffff}' {
            9
        } else {
            12
        };
        total = total + length;
        at = at + 1;
    }
    assert(chars@.take(chars@.len() as int) =~= chars@);
    total
}

/// Whether pairs can be added to an address. Its ends are those that [`url_ends`] speaks of.
pub fn pairs_fit(ends: (usize, usize, usize), pairs: &Vec<(String, String)>) -> (r: bool)
    ensures
        r == can_add_pairs(ends, pairs_view(pairs@)),
{
    let (path_end, query_end, all): (usize, usize, usize) = ends;
    if path_end == query_end && query_end > u32::MAX as usize {
        return false;
    }
    if query_end >= all {
        return true;
    }
    let follows: bool = query_end > path_end && query_end - path_end > 1;
    let ghost models = pairs_view(pairs@);
    let ghost start: int = query_end + (if path_end == query_end {
        1int
    } else {
        0int
    });
    let mut total: u128 = query_end as u128 + (if path_end == query_end {
        1
    } else {
        0
    });
    let mut at: usize = 0;
    while at < pairs.len()
        invariant
            at <= pairs@.len(),
            models == pairs_view(pairs@),
            ends == (path_end, query_end, all),
            query_end < all,
            path_end == query_end ==> query_end <= u32::MAX,
            follows == (query_end > path_end + 1),
            start == query_end + (if path_end == query_end {
                1int
            } else {
                0int
            }),
            total == start + pairs_length(models.take(at as int), follows),
        decreases pairs@.len() - at,
    {
        proof {
            lemma_pairs_length_grows(models, at as int, follows);
            assert(models.take(at + 1).drop_last() =~= models.take(at as int));
            assert(models.take(at + 1).last() == models[at as int]);
        }
        if total > u32::MAX as u128 {
            return false;
        }
        if follows || at > 0 {
            total = total + 1;
        }
        total = add_encoded_length(total + 1, pairs[at].0.as_str());
        if total > u32::MAX as u128 {
            proof {
                lemma_pairs_length_grows(models, at + 1, follows);
            }
            return false;
        }
        total = add_encoded_length(total, pairs[at].1.as_str());
        at = at + 1;
    }
    assert(models.take(models.len() as int) =~= models);
    total <= u32::MAX as u128
}

proof fn lemma_pairs_length_grows(pairs: Seq<(Seq<char>, Seq<char>)>, at: int, follows: bool)
    requires
        0 <= at <= pairs.len(),
    ensures
        pairs_length(pairs.take(at), follows) <= pairs_length(pairs, follows),
    decreases pairs.len(),
{
    if at == pairs.len() {
        assert(pairs.take(at) =~= pairs);
    } else {
        assert(pairs.drop_last().take(at) =~= pairs.take(at));
        lemma_pairs_length_grows(pairs.drop_last(), at, follows);
    }
}

} // verus!
