//! Strings as sequences of characters.
use vstd::prelude::*;

verus! {

/// `String::push` of std: the string with one more character at its end.
pub assume_specification[ std::string::String::push ](s: &mut std::string::String, c: char)
    ensures
        final(s)@ == old(s)@.push(c),
;

/// The characters of a string.
pub fn to_chars(s: &str) -> (r: Vec<char>)
    ensures
        r@ == s@,
{
    let mut chars: Vec<char> = Vec::new();
    for c in it: s.chars()
        invariant
            chars@ =~= it.seq().take(it.index()),
            it.seq() == s@,
    {
        chars.push(c);
    }
    chars
}

/// The string of a run of characters.
pub fn from_chars(chars: &Vec<char>) -> (r: String)
    ensures
        r@ == chars@,
{
    let mut s = String::new();
    let mut at: usize = 0;
    while at < chars.len()
        invariant
            at <= chars@.len(),
            s@ =~= chars@.take(at as int),
        decreases chars@.len() - at,
    {
        s.push(chars[at]);
        at = at + 1;
    }
    assert(chars@.take(chars@.len() as int) =~= chars@);
    s
}

/// The string of the characters from `start` up to `end`.
pub fn from_range(chars: &Vec<char>, start: usize, end: usize) -> (r: String)
    requires
        start <= end <= chars@.len(),
    ensures
        r@ == chars@.subrange(start as int, end as int),
{
    let mut s = String::new();
    let mut at: usize = start;
    while at < end
        invariant
            start <= at <= end <= chars@.len(),
            s@ =~= chars@.subrange(start as int, at as int),
        decreases end - at,
    {
        s.push(chars[at]);
        at = at + 1;
    }
    s
}

/// Whether two strings hold the same characters.
pub fn same_text(a: &str, b: &str) -> (r: bool)
    ensures
        r == (a@ == b@),
{
    let a = a.to_owned();
    let b = b.to_owned();
    a == b
}

/// Appends a string.
pub fn push_text(s: &mut String, other: &str)
    ensures
        final(s)@ == old(s)@ + other@,
{
    let ghost start = s@;
    for c in it: other.chars()
        invariant
            it.seq() == other@,
            s@ =~= start + it.seq().take(it.index()),
    {
        s.push(c);
    }
}

/// Whether one of the strings holds the same characters as `text`.
pub open spec fn is_among(texts: Seq<String>, text: Seq<char>) -> bool {
    exists|i: int| 0 <= i < texts.len() && (#[trigger] texts[i])@ == text
}

pub fn contains_text(texts: &Vec<String>, text: &str) -> (r: bool)
    ensures
        r == is_among(texts@, text@),
{
    let mut at: usize = 0;
    while at < texts.len()
        invariant
            at <= texts@.len(),
            forall|i: int| 0 <= i < at ==> (#[trigger] texts@[i])@ != text@,
        decreases texts@.len() - at,
    {
        if same_text(texts[at].as_str(), text) {
            return true;
        }
        at = at + 1;
    }
    false
}

/// Whether a character is white space: a character with the Unicode property White_Space.
pub open spec fn is_space(c: char) -> bool {
    let code = c as u32;
    ||| 0x9 <= code <= 0xd
    ||| code == 0x20
    ||| code == 0x85
    ||| code == 0xa0
    ||| code == 0x1680
    ||| 0x2000 <= code <= 0x200a
    ||| code == 0x2028
    ||| code == 0x2029
    ||| code == 0x202f
    ||| code == 0x205f
    ||| code == 0x3000
}

pub fn is_whitespace(c: char) -> (r: bool)
    ensures
        r == is_space(c),
{
    let code: u32 = c as u32;
    (0x9 <= code && code <= 0xd) || code == 0x20 || code == 0x85 || code == 0xa0 || code == 0x1680
        || (0x2000 <= code && code <= 0x200a) || code == 0x2028 || code == 0x2029 || code == 0x202f
        || code == 0x205f || code == 0x3000
}

/// A text without the white space at its start.
pub open spec fn trimmed_start(s: Seq<char>) -> Seq<char>
    decreases s.len(),
{
    if s.len() > 0 && is_space(s[0]) {
        trimmed_start(s.drop_first())
    } else {
        s
    }
}

/// A text without the white space at its end.
pub open spec fn trimmed_end(s: Seq<char>) -> Seq<char>
    decreases s.len(),
{
    if s.len() > 0 && is_space(s.last()) {
        trimmed_end(s.drop_last())
    } else {
        s
    }
}

/// A text without the white space at its start and its end.
pub open spec fn trimmed(s: Seq<char>) -> Seq<char> {
    trimmed_end(trimmed_start(s))
}

fn trim_bounds(chars: &Vec<char>) -> (r: (usize, usize))
    ensures
        r.0 <= r.1 <= chars@.len(),
        chars@.subrange(r.0 as int, r.1 as int) == trimmed(chars@),
{
    let len: usize = chars.len();
    let mut start: usize = 0;
    assert(chars@.subrange(0, len as int) =~= chars@);
    while start < len && is_whitespace(chars[start])
        invariant
            start <= len,
            len == chars@.len(),
            trimmed_start(chars@) == trimmed_start(chars@.subrange(start as int, len as int)),
        decreases len - start,
    {
        assert(chars@.subrange(start as int, len as int).drop_first() =~= chars@.subrange(
            start + 1,
            len as int,
        ));
        start = start + 1;
    }
    assert(trimmed_start(chars@) == chars@.subrange(start as int, len as int));
    let mut end: usize = len;
    while start < end && is_whitespace(chars[end - 1])
        invariant
            start <= end <= len,
            len == chars@.len(),
            trimmed_start(chars@) == chars@.subrange(start as int, len as int),
            trimmed(chars@) == trimmed_end(chars@.subrange(start as int, end as int)),
        decreases end,
    {
        assert(chars@.subrange(start as int, end as int).drop_last() =~= chars@.subrange(
            start as int,
            end - 1,
        ));
        end = end - 1;
    }
    (start, end)
}

/// A text without the white space at its start and its end.
pub fn trim(s: &str) -> (r: String)
    ensures
        r@ == trimmed(s@),
{
    let chars = to_chars(s);
    let (start, end): (usize, usize) = trim_bounds(&chars);
    from_range(&chars, start, end)
}

/// Whether a text starts with another.
pub open spec fn starts(s: Seq<char>, prefix: Seq<char>) -> bool {
    prefix.len() <= s.len() && s.take(prefix.len() as int) == prefix
}

/// Whether a text ends with another.
pub open spec fn ends(s: Seq<char>, suffix: Seq<char>) -> bool {
    suffix.len() <= s.len() && s.skip(s.len() - suffix.len()) == suffix
}

/// Whether `other` stands in the characters from `at` on.
pub fn matches_at(chars: &Vec<char>, at: usize, other: &Vec<char>) -> (r: bool)
    requires
        at <= chars@.len(),
    ensures
        r == starts(chars@.skip(at as int), other@),
{
    let len: usize = chars.len();
    if other.len() > len - at {
        return false;
    }
    let ghost rest = chars@.skip(at as int);
    let mut i: usize = 0;
    while i < other.len()
        invariant
            i <= other@.len(),
            at + other@.len() <= len,
            len == chars@.len(),
            rest == chars@.skip(at as int),
            forall|k: int| 0 <= k < i ==> rest[k] == other@[k],
        decreases other@.len() - i,
    {
        if chars[at + i] != other[i] {
            assert(rest[i as int] != other@[i as int]);
            assert(rest.take(other@.len() as int)[i as int] != other@[i as int]);
            return false;
        }
        i = i + 1;
    }
    assert(rest.take(other@.len() as int) =~= other@);
    true
}

pub fn starts_with(s: &str, prefix: &str) -> (r: bool)
    ensures
        r == starts(s@, prefix@),
{
    let chars = to_chars(s);
    let other = to_chars(prefix);
    assert(chars@.skip(0) =~= chars@);
    matches_at(&chars, 0, &other)
}

pub fn ends_with(s: &str, suffix: &str) -> (r: bool)
    ensures
        r == ends(s@, suffix@),
{
    let chars = to_chars(s);
    let other = to_chars(suffix);
    if other.len() > chars.len() {
        return false;
    }
    let at: usize = chars.len() - other.len();
    assert(chars@.skip(at as int).take(other@.len() as int) =~= chars@.skip(at as int));
    matches_at(&chars, at, &other)
}

/// What follows a prefix; nothing where the text does not start with it.
pub fn strip_prefix(s: &str, prefix: &str) -> (r: Option<String>)
    ensures
        match r {
            Some(rest) => starts(s@, prefix@) && rest@ == s@.skip(prefix@.len() as int),
            None => !starts(s@, prefix@),
        },
{
    let chars = to_chars(s);
    let other = to_chars(prefix);
    assert(chars@.skip(0) =~= chars@);
    if matches_at(&chars, 0, &other) {
        let rest = from_range(&chars, other.len(), chars.len());
        assert(rest@ =~= s@.skip(prefix@.len() as int));
        Some(rest)
    } else {
        None
    }
}

/// What stands before a suffix; nothing where the text does not end with it.
pub fn strip_suffix(s: &str, suffix: &str) -> (r: Option<String>)
    ensures
        match r {
            Some(rest) => ends(s@, suffix@) && rest@ == s@.take(s@.len() - suffix@.len()),
            None => !ends(s@, suffix@),
        },
{
    if ends_with(s, suffix) {
        let chars = to_chars(s);
        let other = to_chars(suffix);
        let rest = from_range(&chars, 0, chars.len() - other.len());
        assert(rest@ =~= s@.take(s@.len() - suffix@.len()));
        Some(rest)
    } else {
        None
    }
}

/// A text without a prefix, if it has it.
pub open spec fn less_prefix(s: Seq<char>, prefix: Seq<char>) -> Seq<char> {
    if starts(s, prefix) {
        s.skip(prefix.len() as int)
    } else {
        s
    }
}

/// A text without a suffix, if it has it.
pub open spec fn less_suffix(s: Seq<char>, suffix: Seq<char>) -> Seq<char> {
    if ends(s, suffix) {
        s.take(s.len() - suffix.len())
    } else {
        s
    }
}

pub fn without_prefix(s: String, prefix: &str) -> (r: String)
    ensures
        r@ == less_prefix(s@, prefix@),
{
    match strip_prefix(s.as_str(), prefix) {
        Some(rest) => rest,
        None => s,
    }
}

pub fn without_suffix(s: String, suffix: &str) -> (r: String)
    ensures
        r@ == less_suffix(s@, suffix@),
{
    match strip_suffix(s.as_str(), suffix) {
        Some(rest) => rest,
        None => s,
    }
}

/// The first place of a character; the length where it does not occur.
pub open spec fn index_of(s: Seq<char>, c: char) -> int
    decreases s.len(),
{
    if s.len() == 0 || s[0] == c {
        0
    } else {
        1 + index_of(s.drop_first(), c)
    }
}

pub proof fn lemma_index_of(s: Seq<char>, c: char)
    ensures
        0 <= index_of(s, c) <= s.len(),
        index_of(s, c) < s.len() ==> s[index_of(s, c)] == c,
        forall|i: int| 0 <= i < index_of(s, c) ==> s[i] != c,
    decreases s.len(),
{
    if s.len() > 0 && s[0] != c {
        lemma_index_of(s.drop_first(), c);
        assert forall|i: int| 0 <= i < index_of(s, c) implies s[i] != c by {
            if i > 0 {
                assert(s.drop_first()[i - 1] == s[i]);
            }
        }
    }
}

/// The first place of a character from `start` on; the length where there is none.
pub fn find_char(chars: &Vec<char>, start: usize, c: char) -> (r: usize)
    requires
        start <= chars@.len(),
    ensures
        start <= r <= chars@.len(),
        r - start == index_of(chars@.skip(start as int), c),
{
    let len: usize = chars.len();
    let mut at: usize = start;
    while at < len && chars[at] != c
        invariant
            start <= at <= len,
            len == chars@.len(),
            index_of(chars@.skip(start as int), c) == at - start + index_of(
                chars@.skip(at as int),
                c,
            ),
        decreases len - at,
    {
        assert(chars@.skip(at as int).drop_first() =~= chars@.skip(at + 1));
        at = at + 1;
    }
    at
}

/// The pieces of a text between occurrences of a character.
pub open spec fn pieces(s: Seq<char>, c: char) -> Seq<Seq<char>>
    decreases s.len(),
    via pieces_decreases
{
    if index_of(s, c) < s.len() {
        seq![s.take(index_of(s, c))] + pieces(s.skip(index_of(s, c) + 1), c)
    } else {
        seq![s]
    }
}

#[via_fn]
proof fn pieces_decreases(s: Seq<char>, c: char) {
    lemma_index_of(s, c);
}

/// The texts of a list of strings.
pub open spec fn texts_of(list: Seq<String>) -> Seq<Seq<char>> {
    Seq::new(list.len(), |i: int| list[i]@)
}

/// The pieces of a text between occurrences of a character.
pub fn split(s: &str, c: char) -> (r: Vec<String>)
    ensures
        texts_of(r@) == pieces(s@, c),
{
    let chars = to_chars(s);
    let len: usize = chars.len();
    let mut list: Vec<String> = Vec::new();
    let mut start: usize = 0;
    assert(chars@.skip(0) =~= chars@);
    assert(texts_of(list@) + pieces(chars@, c) =~= pieces(chars@, c));
    loop
        invariant_except_break
            texts_of(list@) + pieces(chars@.skip(start as int), c) == pieces(chars@, c),
        invariant
            start <= len,
            len == chars@.len(),
        ensures
            texts_of(list@) == pieces(chars@, c),
        decreases len - start,
    {
        let end: usize = find_char(&chars, start, c);
        let ghost rest = chars@.skip(start as int);
        let ghost before = texts_of(list@);
        let piece = from_range(&chars, start, end);
        proof {
            lemma_index_of(rest, c);
            assert(piece@ =~= rest.take(end - start));
        }
        list.push(piece);
        assert(texts_of(list@) =~= before + seq![piece@]);
        if end == len {
            assert(rest.take(end - start) =~= rest);
            break;
        }
        proof {
            assert(rest.skip(end - start + 1) =~= chars@.skip(end + 1));
            assert(before + (seq![piece@] + pieces(chars@.skip(end + 1), c)) =~= texts_of(list@)
                + pieces(chars@.skip(end + 1), c));
        }
        start = end + 1;
    }
    list
}

/// Whether a text holds a character.
pub fn contains_char(s: &str, c: char) -> (r: bool)
    ensures
        r == s@.contains(c),
{
    let chars = to_chars(s);
    let at: usize = find_char(&chars, 0, c);
    proof {
        assert(chars@.skip(0) =~= chars@);
        lemma_index_of(chars@, c);
        if s@.contains(c) {
            let k = choose|k: int| 0 <= k < s@.len() && s@[k] == c;
            assert(index_of(chars@, c) <= k);
        }
    }
    at < chars.len()
}

/// The words of a text: its pieces between runs of white space, without empty ones.
pub open spec fn words(s: Seq<char>) -> Seq<Seq<char>> {
    let (list, last) = words_so_far(s);
    if last.len() > 0 {
        list.push(last)
    } else {
        list
    }
}

/// The words that white space has ended, and the word that goes on.
pub open spec fn words_so_far(s: Seq<char>) -> (Seq<Seq<char>>, Seq<char>)
    decreases s.len(),
{
    if s.len() == 0 {
        (Seq::empty(), Seq::empty())
    } else {
        let (list, last) = words_so_far(s.drop_last());
        if !is_space(s.last()) {
            (list, last.push(s.last()))
        } else if last.len() > 0 {
            (list.push(last), Seq::empty())
        } else {
            (list, last)
        }
    }
}

/// The words of a text: its pieces between runs of white space, without empty ones.
pub fn split_whitespace(s: &str) -> (r: Vec<String>)
    ensures
        texts_of(r@) == words(s@),
{
    let chars = to_chars(s);
    let mut list: Vec<String> = Vec::new();
    let mut word: Vec<char> = Vec::new();
    let mut at: usize = 0;
    assert(texts_of(list@) =~= Seq::empty());
    assert(word@ =~= Seq::empty());
    while at < chars.len()
        invariant
            at <= chars@.len(),
            (texts_of(list@), word@) == words_so_far(chars@.take(at as int)),
        decreases chars@.len() - at,
    {
        let c: char = chars[at];
        let ghost before = texts_of(list@);
        assert(chars@.take(at + 1).drop_last() =~= chars@.take(at as int));
        if !is_whitespace(c) {
            word.push(c);
        } else if word.len() > 0 {
            list.push(from_chars(&word));
            assert(texts_of(list@) =~= before.push(word@));
            word = Vec::new();
            assert(word@ =~= Seq::empty());
        }
        at = at + 1;
    }
    assert(chars@.take(chars@.len() as int) =~= chars@);
    if word.len() > 0 {
        let ghost before = texts_of(list@);
        list.push(from_chars(&word));
        assert(texts_of(list@) =~= before.push(word@));
    }
    list
}

/// A character with an ASCII capital letter made small.
pub open spec fn lower_char(c: char) -> char {
    if 'A' <= c <= 'Z' {
        ((c as u8) + 32) as char
    } else {
        c
    }
}

/// A text with its ASCII capital letters made small.
pub open spec fn ascii_lower(s: Seq<char>) -> Seq<char> {
    Seq::new(s.len(), |i: int| lower_char(s[i]))
}

pub fn to_ascii_lowercase(s: &str) -> (r: String)
    ensures
        r@ == ascii_lower(s@),
{
    let mut lower = String::new();
    for c in it: s.chars()
        invariant
            it.seq() == s@,
            lower@ =~= ascii_lower(it.seq().take(it.index())),
    {
        let small: char = if 'A' <= c && c <= 'Z' {
            ((c as u8) + 32) as char
        } else {
            c
        };
        lower.push(small);
    }
    lower
}

/// The first place where `other` stands in a text; nothing where it does not.
pub open spec fn index_of_text(s: Seq<char>, other: Seq<char>) -> Option<int>
    decreases s.len(),
{
    if starts(s, other) {
        Some(0)
    } else if s.len() == 0 {
        None
    } else {
        match index_of_text(s.drop_first(), other) {
            Some(at) => Some(at + 1),
            None => None,
        }
    }
}

pub proof fn lemma_index_of_text(s: Seq<char>, other: Seq<char>)
    ensures
        index_of_text(s, other) matches Some(at) ==> {
            &&& 0 <= at <= s.len() - other.len()
            &&& starts(s.skip(at), other)
        },
    decreases s.len(),
{
    if starts(s, other) {
        assert(s.skip(0) =~= s);
    } else if s.len() > 0 {
        lemma_index_of_text(s.drop_first(), other);
        if let Some(at) = index_of_text(s.drop_first(), other) {
            assert(s.drop_first().skip(at) =~= s.skip(at + 1));
        }
    }
}

/// The first place from `start` on where `other` stands; nothing where it does not.
pub fn find_text(chars: &Vec<char>, start: usize, other: &Vec<char>) -> (r: Option<usize>)
    requires
        start <= chars@.len(),
    ensures
        match (r, index_of_text(chars@.skip(start as int), other@)) {
            (Some(at), Some(model)) => at == start + model && start <= at && at + other@.len()
                <= chars@.len(),
            (None, None) => true,
            _ => false,
        },
{
    let len: usize = chars.len();
    let mut at: usize = start;
    proof {
        lemma_index_of_text(chars@.skip(start as int), other@);
    }
    loop
        invariant
            start <= at <= len,
            len == chars@.len(),
            index_of_text(chars@.skip(start as int), other@) == (match index_of_text(
                chars@.skip(at as int),
                other@,
            ) {
                Some(k) => Some(k + at - start),
                None => None,
            }),
        decreases len - at,
    {
        if matches_at(chars, at, other) {
            return Some(at);
        }
        if at == len {
            return None;
        }
        assert(chars@.skip(at as int).drop_first() =~= chars@.skip(at + 1));
        at = at + 1;
    }
}

/// The pieces of a text between occurrences of another, which is not empty.
pub open spec fn pieces_by(s: Seq<char>, other: Seq<char>) -> Seq<Seq<char>>
    decreases s.len(),
    when other.len() > 0
    via pieces_by_decreases
{
    match index_of_text(s, other) {
        Some(at) => seq![s.take(at)] + pieces_by(s.skip(at + other.len()), other),
        None => seq![s],
    }
}

#[via_fn]
proof fn pieces_by_decreases(s: Seq<char>, other: Seq<char>) {
    lemma_index_of_text(s, other);
}

/// The pieces of a text between occurrences of another.
pub fn split_by(s: &str, other: &str) -> (r: Vec<String>)
    requires
        other@.len() > 0,
    ensures
        texts_of(r@) == pieces_by(s@, other@),
{
    let chars = to_chars(s);
    let pattern = to_chars(other);
    let len: usize = chars.len();
    let mut list: Vec<String> = Vec::new();
    let mut start: usize = 0;
    assert(chars@.skip(0) =~= chars@);
    assert(texts_of(list@) + pieces_by(chars@, other@) =~= pieces_by(chars@, other@));
    loop
        invariant_except_break
            texts_of(list@) + pieces_by(chars@.skip(start as int), other@) == pieces_by(
                chars@,
                other@,
            ),
        invariant
            start <= len,
            len == chars@.len(),
            pattern@ == other@,
            other@.len() > 0,
        ensures
            texts_of(list@) == pieces_by(chars@, other@),
        decreases len - start,
    {
        let ghost rest = chars@.skip(start as int);
        let ghost before = texts_of(list@);
        match find_text(&chars, start, &pattern) {
            Some(end) => {
                let piece = from_range(&chars, start, end);
                assert(piece@ =~= rest.take(end - start));
                list.push(piece);
                proof {
                    lemma_index_of_text(rest, other@);
                    assert(texts_of(list@) =~= before + seq![piece@]);
                    assert(rest.skip(end - start + other@.len()) =~= chars@.skip(
                        end + other@.len(),
                    ));
                    assert(before + (seq![piece@] + pieces_by(
                        chars@.skip(end + other@.len()),
                        other@,
                    )) =~= texts_of(list@) + pieces_by(chars@.skip(end + other@.len()), other@));
                }
                start = end + pattern.len();
            },
            None => {
                let piece = from_range(&chars, start, len);
                assert(piece@ =~= rest);
                list.push(piece);
                assert(texts_of(list@) =~= before + seq![piece@]);
                break;
            },
        }
    }
    list
}

/// A text is among others in the one sense and in the other.
pub proof fn lemma_among(list: Seq<String>, text: Seq<char>)
    ensures
        is_among(list, text) == texts_of(list).contains(text),
{
    let models = texts_of(list);
    if is_among(list, text) {
        let k = choose|k: int| 0 <= k < list.len() && (#[trigger] list[k])@ == text;
        assert(models[k] == text);
    }
    if models.contains(text) {
        let k = choose|k: int| 0 <= k < models.len() && models[k] == text;
        assert(list[k]@ == text);
    }
}

} // verus!
