//! What is handed on promises to be read as it was meant: texts in code, classes by their numbers, sizes in
//! attributes, and the conditions of media queries.
use vstd::prelude::*;

use crate::css::PartModel;
use crate::css_laws::in_name;
use crate::css_laws::is_word;
use crate::css_laws::lemma_trimmed_stays;
use crate::dom::lookup;
use crate::dom::node_at;
use crate::dom::AttributesModel;
use crate::dom::NodeModel;
use crate::dom::NodesModel;
use crate::host::json_char;
use crate::host::json_chars;
use crate::host::json_text;
use crate::index::lemma_place_of_text;
use crate::lengths::Shape;
use crate::numbers::decimal;
use crate::numbers::digit_value;
use crate::numbers::digits_value;
use crate::numbers::lemma_decimal_is_read_back;
use crate::rules::numbered_part;
use crate::rules::numbered_parts;
use crate::selectors::PartSpec;
use crate::shapes::canvas_size;
use crate::shapes::shape;
use crate::sizing::Size;
use crate::stylesheet::criteria_around;
use crate::stylesheet::criteria_of_text;
use crate::stylesheet::criteria_value;
use crate::stylesheet::CriteriaModel;
use crate::stylesheet::CriteriaValueModel;
use crate::stylesheet::MediaQueryCriteriaComparison;
use crate::text::ends;
use crate::text::index_of_text;
use crate::text::less_prefix;
use crate::text::less_suffix;
use crate::text::pieces_by;
use crate::text::starts;
use crate::text::trimmed;
use crate::text_laws::all_digits;
use crate::text_laws::lemma_first_place_of_text;
use crate::text_laws::lemma_numbers_are_read;

verus! {

/// The text that the characters inside of a literal stand for.
pub open spec fn unescaped(s: Seq<char>) -> Seq<char>
    decreases s.len(),
{
    if s.len() == 0 {
        Seq::empty()
    } else if s[0] == '\\' && s.len() >= 6 && s[1] == 'u' {
        seq![digits_value(s.subrange(2, 6), 16)->0 as char] + unescaped(s.skip(6))
    } else if s[0] == '\\' && s.len() >= 2 {
        seq![
            match s[1] {
                'b' => '\u{8}',
                't' => '\t',
                'n' => '\n',
                'f' => '\u{c}',
                'r' => '\r',
                c => c,
            },
        ] + unescaped(s.skip(2))
    } else {
        seq![s[0]] + unescaped(s.skip(1))
    }
}

/// A text that is handed to a page as a literal stands in quotes, and is read there as it was.
pub proof fn lemma_literals_are_read_back(text: Seq<char>)
    ensures
        unescaped(json_chars(text)) == text,
        json_text(text)[0] == '"',
        json_text(text).last() == '"',
        json_text(text).subrange(1, json_text(text).len() - 1) == json_chars(text),
{
    lemma_chars_are_read_back(text);
    let whole = json_text(text);
    assert(whole.subrange(1, whole.len() - 1) =~= json_chars(text));
}

proof fn lemma_chars_are_read_back(text: Seq<char>)
    ensures
        unescaped(json_chars(text)) == text,
    decreases text.len(),
{
    if text.len() > 0 {
        let rest = text.drop_first();
        lemma_chars_are_read_back(rest);
        lemma_chars_from_the_front(text);
        lemma_one_char_is_read_back(text[0], json_chars(rest));
        assert(text =~= seq![text[0]] + rest);
    } else {
        assert(unescaped(json_chars(text)) =~= text);
    }
}

proof fn lemma_chars_from_the_front(text: Seq<char>)
    requires
        text.len() > 0,
    ensures
        json_chars(text) == json_char(text[0]) + json_chars(text.drop_first()),
    decreases text.len(),
{
    if text.len() == 1 {
        assert(text.drop_last() =~= Seq::<char>::empty());
        assert(text.drop_first() =~= Seq::<char>::empty());
        assert(json_chars(text) =~= json_char(text[0]) + json_chars(text.drop_first()));
    } else {
        let less = text.drop_last();
        lemma_chars_from_the_front(less);
        assert(less.drop_first() =~= text.drop_first().drop_last());
        assert(json_chars(text) =~= json_char(text[0]) + json_chars(text.drop_first()));
    }
}

proof fn lemma_one_char_is_read_back(c: char, rest: Seq<char>)
    ensures
        unescaped(json_char(c) + rest) == seq![c] + unescaped(rest),
{
    let own = json_char(c);
    let whole = own + rest;
    if own.len() == 1 {
        assert(whole.skip(1) =~= rest);
        assert(whole[0] == c);
    } else if own.len() == 2 {
        assert(whole.skip(2) =~= rest);
        assert(whole[0] == '\\' && whole[1] == own[1]);
    } else {
        reveal_strlit("0123456789abcdef");
        assert(own.len() == 6);
        assert(whole.skip(6) =~= rest);
        assert(whole[0] == '\\' && whole[1] == 'u');
        let high = if c <= '\u{f}' {
            '0'
        } else {
            '1'
        };
        let low = "0123456789abcdef"@[(c as int) % 16];
        let digits = seq!['0', '0', high, low];
        assert(whole.subrange(2, 6) =~= digits);
        assert(digits.drop_last() =~= seq!['0', '0', high]);
        assert(seq!['0', '0', high].drop_last() =~= seq!['0', '0']);
        assert(seq!['0', '0'].drop_last() =~= seq!['0']);
        assert(seq!['0'].drop_last() =~= Seq::<char>::empty());
        assert(digit_value('0', 16) == Some(0int) && digit_value('1', 16) == Some(1int));
        assert(digit_value(low, 16) == Some((c as int) % 16));
        reveal_with_fuel(digits_value, 6);
        assert(digits_value(seq!['0'], 16) == Some(0int));
        assert(digits_value(seq!['0', '0'], 16) == Some(0int));
        assert(digits_value(digits, 16) == Some(c as int));
    }
}

/// A class keeps its name under the number that a selector calls it by, and numbers that were given
/// before stay. Tags and ids stay as they are.
pub proof fn lemma_classes_are_numbered(
    name: Seq<char>,
    names: Seq<Seq<char>>,
    tag: Seq<char>,
    old: int,
)
    requires
        names.len() < usize::MAX,
        0 <= old < names.len(),
    ensures
        numbered_part(PartModel::Class(name), names).0 matches PartSpec::Class(number) && {
            let after = numbered_part(PartModel::Class(name), names).1;
            &&& number < after.len()
            &&& after[number as int] == name
            &&& after[old] == names[old]
            &&& after.len() <= names.len() + 1
        },
        numbered_part(PartModel::Tag(tag), names) == (PartSpec::Tag(tag), names),
        numbered_part(PartModel::Id(tag), names) == (PartSpec::Id(tag), names),
        numbered_part(PartModel::ArrowRight, names) == (PartSpec::ArrowRight, names),
{
    lemma_place_of_text(names, name);
}

/// The steps of a selector keep their order.
pub proof fn lemma_steps_are_numbered_in_turn(
    parts: Seq<PartModel>,
    count: nat,
    names: Seq<Seq<char>>,
)
    requires
        count < parts.len(),
    ensures
        ({
            let (before, between) = numbered_parts(parts, count, names);
            let (all, after) = numbered_parts(parts, count + 1, names);
            &&& all.drop_last() == before
            &&& (all.last(), after) == numbered_part(parts[count as int], between)
        }),
{
    let (before, between) = numbered_parts(parts, count, names);
    let all = numbered_parts(parts, count + 1, names).0;
    assert(all.drop_last() =~= before);
}

/// A canvas is as large as its attributes say, each for its own side.
pub proof fn lemma_canvas_has_its_size(
    nodes: NodesModel,
    idx: usize,
    tag: Seq<char>,
    attributes: AttributesModel,
    parent: Option<usize>,
    width: u32,
    height: u32,
)
    requires
        lookup(attributes, "width"@) == Some(decimal(width as nat)),
        lookup(attributes, "height"@) == Some(decimal(height as nat)),
        node_at(nodes, idx) == Some(NodeModel::Element { tag, attributes, parent }),
    ensures
        canvas_size(NodeModel::Element { tag, attributes, parent }) == Some(Size { width, height }),
        tag == "canvas"@ ==> shape(nodes, idx, None) == (Shape::Canvas { width, height }),
{
    lemma_decimal_is_read_back(width as nat, u32::MAX as int);
    lemma_decimal_is_read_back(height as nat, u32::MAX as int);
    reveal_strlit("canvas");
    reveal_strlit("svg");
    reveal_strlit("video");
    reveal_strlit("img");
    assert("canvas"@.len() == 6 && "svg"@.len() == 3 && "video"@.len() == 5 && "img"@.len() == 3);
}

/// Texts and comments are laid out as such, pictures as pictures, and a break as one.
pub proof fn lemma_shapes(nodes: NodesModel, idx: usize, frame: Option<Size>)
    ensures
        node_at(nodes, idx) is None ==> shape(nodes, idx, frame) is Comment,
        (node_at(nodes, idx) matches Some(NodeModel::Comment { .. })) ==> shape(nodes, idx, frame)
            is Comment,
        (node_at(nodes, idx) matches Some(NodeModel::Text { .. })) ==> shape(nodes, idx, frame) is Text,
        (node_at(nodes, idx) matches Some(node) && node.has_tag("img"@)) ==> shape(nodes, idx, frame)
            is Image,
        (node_at(nodes, idx) matches Some(node) && node.has_tag("br"@)) ==> shape(nodes, idx, frame)
            is Break,
        (node_at(nodes, idx) matches Some(node) && node.has_tag("iframe"@)) ==> shape(
            nodes,
            idx,
            frame,
        ) == Shape::Frame(frame),
        (node_at(nodes, idx) matches Some(node) && node.has_tag("svg"@)) ==> shape(nodes, idx, frame)
            is Drawing,
        (node_at(nodes, idx) matches Some(node) && node.has_tag("div"@)) ==> shape(nodes, idx, frame)
            is Element,
{
    reveal_strlit("svg");
    reveal_strlit("video");
    reveal_strlit("img");
    reveal_strlit("canvas");
    reveal_strlit("iframe");
    reveal_strlit("br");
    reveal_strlit("div");
    assert("svg"@.len() == 3 && "video"@.len() == 5 && "img"@.len() == 3 && "canvas"@.len() == 6);
    assert("iframe"@.len() == 6 && "br"@.len() == 2 && "div"@.len() == 3);
    assert("svg"@[0] == 's' && "img"@[0] == 'i' && "div"@[0] == 'd');
    assert("canvas"@[0] == 'c' && "iframe"@[0] == 'i');
}

proof fn lemma_two_sides(a: Seq<char>, c: char, b: Seq<char>)
    requires
        forall|i: int| 0 <= i < a.len() ==> #[trigger] a[i] != c,
        forall|i: int| 0 <= i < b.len() ==> #[trigger] b[i] != c,
    ensures
        pieces_by(a + seq![c] + b, seq![c]) == seq![a, b],
{
    let s = a + seq![c] + b;
    let sep = seq![c];
    lemma_first_place_of_text(s, sep);
    lemma_first_place_of_text(b, sep);
    let n = a.len() as int;
    assert(s.skip(n).take(1) =~= sep);
    assert(starts(s.skip(n), sep));
    let at = index_of_text(s, sep)->0;
    assert(index_of_text(s, sep) is Some);
    if at < n {
        assert(s.subrange(at, at + 1)[0] == a[at]);
        assert(false);
    }
    if at > n {
        assert(!starts(s.skip(n), sep));
    }
    assert(at == n);
    assert(s.take(n) =~= a);
    assert(s.skip(n + 1) =~= b);
    if let Some(k) = index_of_text(b, sep) {
        assert(b.subrange(k, k + 1)[0] == b[k]);
        assert(false);
    }
    assert(pieces_by(b, sep) =~= seq![b]);
    assert(pieces_by(s, sep) =~= seq![a, b]);
}

/// A condition of a media query is its name and its value around a colon, in parentheses; a value in
/// pixels is its number.
pub proof fn lemma_conditions_are_read(name: Seq<char>, number: Seq<char>)
    requires
        is_word(name),
        all_digits(number),
    ensures
        criteria_of_text(seq!['('] + (name + seq![':'] + (number + seq!['p', 'x'])) + seq![')']) == Some(
            CriteriaModel {
                property: name,
                value: CriteriaValueModel::Px(number),
                comparison: MediaQueryCriteriaComparison::Is,
            },
        ),
{
    let value = number + seq!['p', 'x'];
    lemma_pixels_are_read(number);
    lemma_around_the_colon(name, number);
    lemma_parentheses(name + seq![':'] + value);
}

proof fn lemma_around_the_colon(name: Seq<char>, number: Seq<char>)
    requires
        is_word(name),
        all_digits(number),
    ensures
        ({
            let value = number + seq!['p', 'x'];
            let inner = name + seq![':'] + value;
            &&& trimmed(inner) == inner
            &&& criteria_around(inner, ":"@, MediaQueryCriteriaComparison::Is) == Some(
                CriteriaModel {
                    property: name,
                    value: CriteriaValueModel::Px(number),
                    comparison: MediaQueryCriteriaComparison::Is,
                },
            )
        }),
{
    let value = number + seq!['p', 'x'];
    let inner = name + seq![':'] + value;
    assert(in_name(name[0]));
    assert(in_name(name[name.len() - 1]));
    assert(name.last() == name[name.len() - 1]);
    lemma_trimmed_stays(name);
    assert(inner[0] == name[0] && inner.last() == 'x');
    lemma_trimmed_stays(inner);
    lemma_pixels_are_read(number);
    assert forall|i: int| 0 <= i < name.len() implies #[trigger] name[i] != ':' by {
        assert(in_name(name[i]));
    }
    assert forall|i: int| 0 <= i < value.len() implies #[trigger] value[i] != ':' by {
        if i < number.len() {
            assert(value[i] == number[i]);
        }
    }
    lemma_two_sides(name, ':', value);
    reveal_strlit(":");
    assert(":"@ =~= seq![':']);
}

proof fn lemma_parentheses(inner: Seq<char>)
    ensures
        less_suffix(less_prefix(seq!['('] + inner + seq![')'], "("@), ")"@) == inner,
{
    reveal_strlit("(");
    reveal_strlit(")");
    let whole = seq!['('] + inner + seq![')'];
    assert(whole.take(1) =~= "("@);
    let opened = whole.skip(1);
    assert(opened =~= inner.push(')'));
    assert(opened.skip(opened.len() - 1) =~= ")"@);
    assert(opened.take(opened.len() - 1) =~= inner);
}

proof fn lemma_pixels_are_read(number: Seq<char>)
    requires
        all_digits(number),
    ensures
        trimmed(number + seq!['p', 'x']) == number + seq!['p', 'x'],
        criteria_value(number + seq!['p', 'x']) == CriteriaValueModel::Px(number),
{
    reveal_strlit("px");
    reveal_strlit("rem");
    let value = number + seq!['p', 'x'];
    assert(value[0] == number[0]);
    lemma_trimmed_stays(value);
    assert(value.skip(value.len() - 2) =~= "px"@);
    assert(value.take(value.len() - 2) =~= number);
    lemma_numbers_are_read(number, number);
    if ends(value, "rem"@) {
        assert(value.skip(value.len() - 3).last() == value.last());
    }
}

} // verus!
