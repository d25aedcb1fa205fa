//! What reading HTML promises: what stands between an opening and a closing tag ends up below the
//! element, text is kept to the letter, and attributes have the values that they were written with.
use vstd::prelude::*;

use crate::dom::AttributesModel;
use crate::dom::NodeModel;
use crate::html::char_of;
use crate::html::decoded;
use crate::html::is_raw_tag;
use crate::html::is_void_tag;
use crate::html::raw_end;
use crate::html::with_attribute;
use crate::html::BuildPhase;
use crate::html::ParserModel;
use crate::numbers::unsigned_value;
use crate::text::ends;
use crate::text::index_of;
use crate::text::lemma_index_of;
use crate::text::less_prefix;
use crate::text::less_suffix;
use crate::text::starts;
use crate::text::trimmed;

verus! {

/// Whether a character ends nothing and starts nothing, wherever it stands.
pub open spec fn is_ordinary(c: char) -> bool {
    c != '<' && c != '/' && c != '>' && c != '=' && c != ' ' && c != '\n'
}

/// Whether a text can be the name of an element: of ordinary characters, without white space around
/// it, and not the start of a comment.
pub open spec fn is_name(name: Seq<char>) -> bool {
    &&& name.len() > 0
    &&& name[0] != '!'
    &&& trimmed(name) == name
    &&& forall|i: int| 0 <= i < name.len() ==> is_ordinary(#[trigger] name[i])
}

/// Whether a text is read as such: it starts with an ordinary character and has no character in it
/// that is about tags.
pub open spec fn is_text(text: Seq<char>) -> bool {
    &&& text.len() > 0
    &&& is_ordinary(text[0])
    &&& forall|i: int|
        0 <= i < text.len() ==> (#[trigger] text[i]) != '<' && text[i] != '>' && text[i] != '='
}

/// Whether two states differ at most in what was seen last.
pub open spec fn same_state(a: ParserModel, b: ParserModel) -> bool {
    &&& a.stage == b.stage
    &&& a.tag == b.tag
    &&& a.value == b.value
    &&& a.nodes == b.nodes
    &&& a.node == b.node
}

/// Reading two texts one after the other is reading them as one.
pub proof fn lemma_texts_are_read_in_turn(m: ParserModel, a: Seq<char>, b: Seq<char>)
    ensures
        m.run(a + b) == (if m.run(a).1 {
            m.run(a).0.run(b)
        } else {
            m.run(a)
        }),
    decreases b.len(),
{
    if b.len() == 0 {
        assert(a + b =~= a);
    } else {
        assert((a + b).drop_last() =~= a + b.drop_last());
        lemma_texts_are_read_in_turn(m, a, b.drop_last());
    }
}

proof fn lemma_char(m: ParserModel, c: char)
    ensures
        m.run(seq![c]) == m.step(c),
{
    assert(seq![c].drop_last() =~= Seq::<char>::empty());
    reveal_with_fuel(ParserModel::run, 2);
}

proof fn lemma_then_char(m: ParserModel, a: Seq<char>, c: char)
    ensures
        m.run(a.push(c)) == (if m.run(a).1 {
            m.run(a).0.step(c)
        } else {
            m.run(a)
        }),
{
    assert(a.push(c).drop_last() =~= a);
}

/// Inside of text, characters are collected to the letter.
proof fn lemma_text_is_collected(m: ParserModel, text: Seq<char>)
    requires
        m.stage == BuildPhase::Text,
        forall|i: int|
            0 <= i < text.len() ==> (#[trigger] text[i]) != '<' && text[i] != '>' && text[i] != '=',
    ensures
        m.run(text).1,
        same_state(m.run(text).0, (ParserModel { tag: m.tag + text, ..m })),
    decreases text.len(),
{
    if text.len() > 0 {
        let less = text.drop_last();
        assert forall|i: int| 0 <= i < less.len() implies (#[trigger] less[i]) != '<' && less[i]
            != '>' && less[i] != '=' by {
            assert(less[i] == text[i]);
        }
        lemma_text_is_collected(m, less);
        assert(text.last() == text[text.len() - 1]);
        assert(m.tag + text =~= (m.tag + less).push(text.last()));
    } else {
        assert(m.tag + text =~= m.tag);
    }
}

/// Inside of a name, characters are collected to the letter.
proof fn lemma_name_is_collected(m: ParserModel, name: Seq<char>)
    requires
        m.stage == BuildPhase::Tag,
        m.tag.len() > 0 || (name.len() > 0 ==> name[0] != '!'),
        forall|i: int| 0 <= i < name.len() ==> is_ordinary(#[trigger] name[i]),
    ensures
        m.run(name).1,
        same_state(m.run(name).0, (ParserModel { tag: m.tag + name, ..m })),
    decreases name.len(),
{
    if name.len() > 0 {
        let less = name.drop_last();
        assert forall|i: int| 0 <= i < less.len() implies is_ordinary(#[trigger] less[i]) by {
            assert(less[i] == name[i]);
        }
        lemma_name_is_collected(m, less);
        assert(name.last() == name[name.len() - 1]);
        assert(m.tag + name =~= (m.tag + less).push(name.last()));
        if name.len() > 1 {
            assert((m.tag + less).len() > 0);
        }
    } else {
        assert(m.tag + name =~= m.tag);
    }
}

/// Inside of a closing tag nothing is collected.
proof fn lemma_closing_name_is_skipped(m: ParserModel, name: Seq<char>)
    requires
        m.stage == BuildPhase::TagClosing,
        forall|i: int| 0 <= i < name.len() ==> is_ordinary(#[trigger] name[i]),
    ensures
        m.run(name).1,
        same_state(m.run(name).0, m),
    decreases name.len(),
{
    if name.len() > 0 {
        let less = name.drop_last();
        assert forall|i: int| 0 <= i < less.len() implies is_ordinary(#[trigger] less[i]) by {
            assert(less[i] == name[i]);
        }
        lemma_closing_name_is_skipped(m, less);
        assert(name.last() == name[name.len() - 1]);
    }
}

/// Inside of quotes, all characters but quotes are collected to the letter.
proof fn lemma_value_is_collected(m: ParserModel, value: Seq<char>)
    requires
        m.stage == BuildPhase::AttributeValueInside,
        forall|i: int|
            0 <= i < value.len() ==> (#[trigger] value[i]) != '"' && value[i] != '<' && value[i]
                != '>',
    ensures
        m.run(value).1,
        same_state(m.run(value).0, (ParserModel { value: m.value + value, ..m })),
    decreases value.len(),
{
    if value.len() > 0 {
        let less = value.drop_last();
        assert forall|i: int| 0 <= i < less.len() implies (#[trigger] less[i]) != '"' && less[i]
            != '<' && less[i] != '>' by {
            assert(less[i] == value[i]);
        }
        lemma_value_is_collected(m, less);
        assert(value.last() == value[value.len() - 1]);
        assert(m.value + value =~= (m.value + less).push(value.last()));
    } else {
        assert(m.value + value =~= m.value);
    }
}

/// The name of an attribute is collected to the letter.
proof fn lemma_attribute_name_is_collected(m: ParserModel, name: Seq<char>)
    requires
        m.stage == BuildPhase::TagDone || m.stage == BuildPhase::AttributeName,
        forall|i: int| 0 <= i < name.len() ==> is_ordinary(#[trigger] name[i]),
    ensures
        m.run(name).1,
        name.len() > 0 ==> same_state(
            m.run(name).0,
            (ParserModel { tag: m.tag + name, stage: BuildPhase::AttributeName, ..m }),
        ),
        name.len() == 0 ==> m.run(name).0 == m,
    decreases name.len(),
{
    if name.len() > 0 {
        let less = name.drop_last();
        assert forall|i: int| 0 <= i < less.len() implies is_ordinary(#[trigger] less[i]) by {
            assert(less[i] == name[i]);
        }
        lemma_attribute_name_is_collected(m, less);
        assert(name.last() == name[name.len() - 1]);
        assert(m.tag + name =~= (m.tag + less).push(name.last()));
    }
}

/// What an opening tag leads to: a new element, the last of the nodes, below the one that is open. It
/// is open then, unless it never holds anything.
pub proof fn lemma_opening_tag(m: ParserModel, name: Seq<char>)
    requires
        m.stage == BuildPhase::Start,
        m.tag.len() == 0,
        m.nodes.len() < usize::MAX,
        is_name(name),
    ensures
        m.run(seq!['<'] + name + seq!['>']).1,
        same_state(
            m.run(seq!['<'] + name + seq!['>']).0,
            (ParserModel {
                stage: if is_raw_tag(name) {
                    BuildPhase::ScriptOpen
                } else if is_void_tag(name) && (m.current() matches Some(NodeModel::Element {
                    tag,
                    attributes,
                    parent,
                }) && is_raw_tag(tag)) {
                    BuildPhase::ScriptOpen
                } else {
                    BuildPhase::Start
                },
                tag: Seq::empty(),
                nodes: m.nodes.push(
                    NodeModel::Element {
                        tag: name,
                        attributes: AttributesModel::empty(),
                        parent: m.node,
                    },
                ),
                node: if is_void_tag(name) {
                    m.node
                } else {
                    Some(m.nodes.len() as usize)
                },
                ..m
            }),
        ),
{
    lemma_texts_are_read_in_turn(m, seq!['<'] + name, seq!['>']);
    lemma_texts_are_read_in_turn(m, seq!['<'], name);
    lemma_char(m, '<');
    let opened = m.step('<').0;
    lemma_name_is_collected(opened, name);
    assert(opened.tag + name =~= name);
    let named = opened.run(name).0;
    lemma_char(named, '>');
    lemma_raw_is_not_void(name);
    let seen = named.traced('>');
    let made = seen.created();
    assert(made.nodes == m.nodes.push(
        NodeModel::Element {
            tag: name,
            attributes: AttributesModel::empty(),
            parent: m.node,
        },
    ));
    assert(made.nodes[m.nodes.len() as int] == made.nodes.last());
    if is_void_tag(name) {
        if let Some(idx) = m.node {
            if idx < m.nodes.len() {
                assert(made.nodes[idx as int] == m.nodes[idx as int]);
            } else if idx == m.nodes.len() {
                assert(made.nodes[idx as int] == made.nodes.last());
            }
        }
    }
}

proof fn lemma_raw_is_not_void(name: Seq<char>)
    ensures
        is_raw_tag(name) ==> !is_void_tag(name),
{
    reveal_strlit("br");
    reveal_strlit("input");
    reveal_strlit("meta");
    reveal_strlit("link");
    reveal_strlit("img");
    reveal_strlit("hr");
    reveal_strlit("script");
    reveal_strlit("style");
    assert("script"@.len() == 6 && "style"@.len() == 5 && "input"@.len() == 5);
    assert("br"@.len() == 2 && "meta"@.len() == 4 && "link"@.len() == 4 && "img"@.len() == 3
        && "hr"@.len() == 2);
    assert("style"@[0] != "input"@[0]);
}

/// What a closing tag leads to: whatever it is called, the node around the open one is open.
pub proof fn lemma_closing_tag(m: ParserModel, name: Seq<char>, node: NodeModel)
    requires
        m.stage == BuildPhase::Start,
        m.tag.len() == 0,
        m.current() == Some(node),
        forall|i: int| 0 <= i < name.len() ==> is_ordinary(#[trigger] name[i]),
    ensures
        m.run(seq!['<', '/'] + name + seq!['>']).1,
        same_state(
            m.run(seq!['<', '/'] + name + seq!['>']).0,
            (ParserModel { node: node.parent_idx(), ..m }),
        ),
{
    lemma_texts_are_read_in_turn(m, seq!['<', '/'] + name, seq!['>']);
    lemma_texts_are_read_in_turn(m, seq!['<', '/'], name);
    lemma_then_char(m, seq!['<'], '/');
    assert(seq!['<'].push('/') =~= seq!['<', '/']);
    lemma_char(m, '<');
    let closing = m.run(seq!['<', '/']).0;
    lemma_closing_name_is_skipped(closing, name);
    let skipped = closing.run(name).0;
    lemma_char(skipped, '>');
    assert(skipped.current() == m.current());
    assert(m.tag =~= Seq::<char>::empty());
}

/// Text between tags becomes one node below the open one, and the tag behind it is read as ever. The
/// text is kept to the letter, but for its entities.
pub proof fn lemma_text_between_tags(m: ParserModel, text: Seq<char>)
    requires
        m.stage == BuildPhase::Start,
        m.tag.len() == 0,
        m.nodes.len() < usize::MAX,
        is_text(text),
    ensures
        m.run(text + seq!['<']).1,
        same_state(
            m.run(text + seq!['<']).0,
            (ParserModel {
                stage: BuildPhase::Tag,
                tag: Seq::empty(),
                nodes: m.nodes.push(NodeModel::Text { text: decoded(text), parent: m.node }),
                ..m
            }),
        ),
{
    lemma_texts_are_read_in_turn(m, text, seq!['<']);
    let first = text[0];
    let rest = text.drop_first();
    assert(text =~= seq![first] + rest);
    lemma_texts_are_read_in_turn(m, seq![first], rest);
    lemma_char(m, first);
    let begun = m.step(first).0;
    assert forall|i: int| 0 <= i < rest.len() implies (#[trigger] rest[i]) != '<' && rest[i] != '>'
        && rest[i] != '=' by {
        assert(rest[i] == text[i + 1]);
    }
    lemma_text_is_collected(begun, rest);
    assert(begun.tag + rest =~= text);
    let read = begun.run(rest).0;
    lemma_char(read, '<');
    let made = read.traced('<').created();
    assert(made.nodes[m.nodes.len() as int] == made.nodes.last());
}

/// Text at the end of what is read becomes a node too.
pub proof fn lemma_text_at_the_end(m: ParserModel, text: Seq<char>)
    requires
        m.stage == BuildPhase::Start,
        m.tag.len() == 0,
        m.nodes.len() < usize::MAX,
        is_text(text),
    ensures
        m.parsed(text).1,
        m.parsed(text).0.nodes == m.nodes.push(
            NodeModel::Text { text: decoded(text), parent: m.node },
        ),
{
    let first = text[0];
    let rest = text.drop_first();
    assert(text =~= seq![first] + rest);
    lemma_texts_are_read_in_turn(m, seq![first], rest);
    lemma_char(m, first);
    let begun = m.step(first).0;
    assert forall|i: int| 0 <= i < rest.len() implies (#[trigger] rest[i]) != '<' && rest[i] != '>'
        && rest[i] != '=' by {
        assert(rest[i] == text[i + 1]);
    }
    lemma_text_is_collected(begun, rest);
    assert(begun.tag + rest =~= text);
}

/// An element around a text becomes an element below the open node, with one text below it that is
/// what was written, character by character. What was open before is open afterwards.
pub proof fn lemma_element_with_text(m: ParserModel, name: Seq<char>, text: Seq<char>, end: Seq<char>)
    requires
        m.stage == BuildPhase::Start,
        m.tag.len() == 0,
        m.nodes.len() + 1 < usize::MAX,
        is_name(name),
        !is_void_tag(name),
        !is_raw_tag(name),
        is_text(text),
        !text.contains('&'),
        forall|i: int| 0 <= i < end.len() ==> is_ordinary(#[trigger] end[i]),
    ensures
        ({
            let written = seq!['<'] + name + seq!['>'] + (text + seq!['<']) + (seq!['/'] + end
                + seq!['>']);
            let (after, ok) = m.run(written);
            &&& ok
            &&& same_state(
                after,
                ParserModel {
                    nodes: m.nodes.push(
                        NodeModel::Element {
                            tag: name,
                            attributes: AttributesModel::empty(),
                            parent: m.node,
                        },
                    ).push(NodeModel::Text { text, parent: Some(m.nodes.len() as usize) }),
                    ..m
                },
            )
        }),
{
    let open = seq!['<'] + name + seq!['>'];
    let inside = text + seq!['<'];
    let close = seq!['/'] + end + seq!['>'];
    lemma_texts_are_read_in_turn(m, open + inside, close);
    lemma_texts_are_read_in_turn(m, open, inside);
    lemma_opening_tag(m, name);
    let opened = m.run(open).0;
    lemma_text_between_tags(opened, text);
    lemma_plain_text_is_kept(text);
    let read = opened.run(inside).0;
    lemma_texts_are_read_in_turn(read, seq!['/'] + end, seq!['>']);
    lemma_texts_are_read_in_turn(read, seq!['/'], end);
    lemma_char(read, '/');
    let closing = read.step('/').0;
    lemma_closing_name_is_skipped(closing, end);
    let skipped = closing.run(end).0;
    lemma_char(skipped, '>');
    assert(skipped.nodes[m.nodes.len() as int] == (NodeModel::Element {
        tag: name,
        attributes: AttributesModel::empty(),
        parent: m.node,
    }));
    assert(m.tag =~= Seq::<char>::empty());
}

/// A text without ampersands stays as it is.
pub proof fn lemma_plain_text_is_kept(text: Seq<char>)
    requires
        !text.contains('&'),
    ensures
        decoded(text) == text,
    decreases text.len(),
{
    if text.len() > 0 {
        let rest = text.drop_first();
        assert(text[0] != '&') by {
            assert(text.contains(text[0]));
        }
        assert(!rest.contains('&')) by {
            if rest.contains('&') {
                let k = choose|k: int| 0 <= k < rest.len() && rest[k] == '&';
                assert(text[k + 1] == '&');
            }
        }
        lemma_plain_text_is_kept(rest);
        assert(seq![text[0]] + rest =~= text);
    }
}

/// Characters that are no ampersands stay in front of whatever comes behind them, `&amp;` becomes an
/// ampersand that starts no entity of its own, and a numeric entity becomes the character with its
/// number.
pub proof fn lemma_entities(text: Seq<char>, c: char, digits: Seq<char>, code: int)
    requires
        !digits.contains(';'),
        digits.len() > 0,
        unsigned_value(digits, 10, u32::MAX as int) == Some(code),
        digits[0] != 'x',
        digits[0] != 'X',
    ensures
        c != '&' ==> decoded(seq![c] + text) == seq![c] + decoded(text),
        decoded("&amp;"@ + text) == seq!['&'] + decoded(text),
        decoded("&#"@ + digits + seq![';'] + text) == seq![char_of(code)] + decoded(text),
        0 <= code <= 0xd7ff || 0xe000 <= code <= 0x10ffff ==> char_of(code) as int == code,
{
    reveal_strlit("&amp;");
    reveal_strlit("&#");
    let with_c = seq![c] + text;
    assert(with_c.drop_first() =~= text);
    let with_amp = "&amp;"@ + text;
    assert(with_amp.take(5) =~= "&amp;"@);
    assert(with_amp.skip(5) =~= text);
    assert(with_amp[0] == '&');
    let numeric = "&#"@ + digits + seq![';'] + text;
    assert(numeric[0] == '&');
    assert(numeric[1] == '#');
    assert(numeric.take(2) =~= "&#"@);
    assert(!starts(numeric, "&amp;"@)) by {
        if starts(numeric, "&amp;"@) {
            assert(numeric.take(5)[1] == "&amp;"@[1]);
        }
    }
    let rest = numeric.skip(2);
    assert(rest =~= digits + seq![';'] + text);
    lemma_index_of(rest, ';');
    let end = index_of(rest, ';');
    assert(rest[digits.len() as int] == ';');
    assert(end == digits.len()) by {
        if end < digits.len() {
            assert(digits[end] == rest[end]);
            assert(digits.contains(';'));
        }
    }
    assert(rest.take(end) =~= digits);
    assert(numeric.skip(end + 3) =~= text);
}

/// An attribute with a value in quotes is an attribute of the element whose tag it stands in, with
/// exactly that value, but for its entities.
pub proof fn lemma_attribute_in_quotes(
    m: ParserModel,
    node: NodeModel,
    name: Seq<char>,
    value: Seq<char>,
)
    requires
        m.stage == BuildPhase::TagDone,
        m.tag.len() == 0,
        m.value.len() == 0,
        m.current() == Some(node),
        name.len() > 0,
        forall|i: int| 0 <= i < name.len() ==> is_ordinary(#[trigger] name[i]),
        forall|i: int|
            0 <= i < value.len() ==> (#[trigger] value[i]) != '"' && value[i] != '<' && value[i]
                != '>',
    ensures
        m.run(name + seq!['=', '"'] + value + seq!['"']).1,
        same_state(
            m.run(name + seq!['=', '"'] + value + seq!['"']).0,
            (ParserModel {
                nodes: m.nodes.update(
                    m.node->0 as int,
                    with_attribute(node, name, decoded(value)),
                ),
                ..m
            }),
        ),
{
    lemma_texts_are_read_in_turn(m, name + seq!['=', '"'] + value, seq!['"']);
    lemma_texts_are_read_in_turn(m, name + seq!['=', '"'], value);
    lemma_texts_are_read_in_turn(m, name, seq!['=', '"']);
    lemma_attribute_name_is_collected(m, name);
    assert(m.tag + name =~= name);
    let named = m.run(name).0;
    lemma_char(named, '=');
    lemma_then_char(named, seq!['='], '"');
    assert(seq!['='].push('"') =~= seq!['=', '"']);
    let inside = named.run(seq!['=', '"']).0;
    lemma_value_is_collected(inside, value);
    assert(m.value + value =~= value);
    let read = inside.run(value).0;
    lemma_char(read, '"');
    assert(m.tag =~= Seq::<char>::empty());
    assert(m.value =~= Seq::<char>::empty());
}

/// A tag with a name and a space behind it makes an element whose attributes come next.
pub proof fn lemma_tag_with_attributes(m: ParserModel, name: Seq<char>)
    requires
        m.stage == BuildPhase::Start,
        m.tag.len() == 0,
        m.nodes.len() < usize::MAX,
        is_name(name),
    ensures
        m.run(seq!['<'] + name + seq![' ']).1,
        same_state(
            m.run(seq!['<'] + name + seq![' ']).0,
            (ParserModel {
                stage: BuildPhase::TagDone,
                tag: Seq::empty(),
                nodes: m.nodes.push(
                    NodeModel::Element {
                        tag: name,
                        attributes: AttributesModel::empty(),
                        parent: m.node,
                    },
                ),
                node: Some(m.nodes.len() as usize),
                ..m
            }),
        ),
{
    lemma_texts_are_read_in_turn(m, seq!['<'] + name, seq![' ']);
    lemma_texts_are_read_in_turn(m, seq!['<'], name);
    lemma_char(m, '<');
    let opened = m.step('<').0;
    lemma_name_is_collected(opened, name);
    assert(opened.tag + name =~= name);
    let named = opened.run(name).0;
    lemma_char(named, ' ');
}

/// The end of a tag with attributes leaves the element open, unless it never holds anything; what
/// holds scripts or styles is read up to its own end.
pub proof fn lemma_end_of_tag(
    m: ParserModel,
    tag: Seq<char>,
    attributes: AttributesModel,
    parent: Option<usize>,
)
    requires
        m.stage == BuildPhase::TagDone,
        m.current() == Some(NodeModel::Element { tag, attributes, parent }),
    ensures
        m.run(seq!['>']).1,
        m.run(seq!['>']).0.nodes == m.nodes,
        m.run(seq!['>']).0.tag.len() == 0,
        is_void_tag(tag) ==> m.run(seq!['>']).0.node == parent,
        !is_void_tag(tag) ==> m.run(seq!['>']).0.node == m.node,
        !is_void_tag(tag) ==> m.run(seq!['>']).0.stage == (if is_raw_tag(tag) {
            BuildPhase::ScriptOpen
        } else {
            BuildPhase::Start
        }),
{
    lemma_char(m, '>');
}

/// Which elements never hold anything, and which hold text up to their own end.
pub proof fn lemma_void_and_raw_tags(tag: Seq<char>)
    ensures
        is_void_tag("br"@) && is_void_tag("input"@) && is_void_tag("meta"@) && is_void_tag("link"@)
            && is_void_tag("img"@) && is_void_tag("hr"@),
        is_raw_tag("script"@) && is_raw_tag("style"@),
        is_void_tag(tag) ==> !is_raw_tag(tag),
        is_void_tag(tag) ==> 2 <= tag.len() <= 5,
        is_raw_tag(tag) ==> 5 <= tag.len() <= 6,
{
    lemma_raw_is_not_void(tag);
    reveal_strlit("br");
    reveal_strlit("input");
    reveal_strlit("meta");
    reveal_strlit("link");
    reveal_strlit("img");
    reveal_strlit("hr");
    reveal_strlit("script");
    reveal_strlit("style");
}

/// Whether no closing tag of a script or a style ends anywhere in a text.
pub open spec fn has_no_raw_end(text: Seq<char>) -> bool {
    forall|i: int| 0 <= i <= text.len() ==> raw_end(#[trigger] text.take(i)) is None
}

proof fn lemma_raw_text_is_collected(m: ParserModel, text: Seq<char>)
    requires
        m.stage == BuildPhase::ScriptOpen,
        m.tag.len() == 0,
        has_no_raw_end(text),
    ensures
        m.run(text).1,
        same_state(m.run(text).0, (ParserModel { tag: text, ..m })),
    decreases text.len(),
{
    if text.len() > 0 {
        let less = text.drop_last();
        assert forall|i: int| 0 <= i <= less.len() implies raw_end(#[trigger] less.take(i)) is None by {
            assert(less.take(i) =~= text.take(i));
        }
        lemma_raw_text_is_collected(m, less);
        assert(less.push(text.last()) =~= text);
        assert(text.take(text.len() as int) =~= text);
        assert(raw_end(text) is None);
    } else {
        assert(m.tag =~= text);
    }
}

/// A script ends where its closing tag does. All before it is one text below the script, whatever
/// characters it has, and what was around the script is open again.
pub proof fn lemma_script_is_read_to_its_end(
    m: ParserModel,
    text: Seq<char>,
    before: Seq<char>,
    c: char,
    node: NodeModel,
)
    requires
        m.stage == BuildPhase::ScriptOpen,
        m.tag.len() == 0,
        m.nodes.len() < usize::MAX,
        m.current() == Some(node),
        has_no_raw_end(before),
        before.push(c) == text + "</script>"@,
    ensures
        m.run(text + "</script>"@).1,
        same_state(
            m.run(text + "</script>"@).0,
            (ParserModel {
                stage: BuildPhase::Start,
                tag: Seq::empty(),
                nodes: m.nodes.push(NodeModel::Text { text: decoded(text), parent: m.node }),
                node: node.parent_idx(),
                ..m
            }),
        ),
{
    let whole = text + "</script>"@;
    lemma_then_char(m, before, c);
    lemma_raw_text_is_collected(m, before);
    let read = m.run(before).0;
    let seen = read.traced(c);
    let added = seen.with_tag_char(c);
    assert(added.tag =~= whole);
    reveal_strlit("</script>");
    assert(whole.skip(whole.len() - 9) =~= "</script>"@);
    assert(ends(whole, "</script>"@));
    assert(whole.take(whole.len() - 9) =~= text);
    let made = (ParserModel { tag: text, stage: BuildPhase::Text, ..added }).created();
    assert(made.nodes[m.nodes.len() as int] == made.nodes.last());
    assert(made.nodes[m.node->0 as int] == node);
}

/// What stands between the marks of a comment is a comment below the open node.
pub proof fn lemma_comment(m: ParserModel, text: Seq<char>)
    requires
        m.stage == BuildPhase::Start,
        m.tag.len() == 0,
        forall|i: int| 0 <= i < text.len() ==> is_ordinary(#[trigger] text[i]),
    ensures
        ({
            let written = seq!['<', '!', '-', '-'] + text + seq!['-', '-', '>'];
            &&& m.run(written).1
            &&& same_state(
                m.run(written).0,
                ParserModel {
                    nodes: m.nodes.push(NodeModel::Comment { comment: text, parent: m.node }),
                    ..m
                },
            )
        }),
{
    let inner = seq!['-', '-'] + text + seq!['-', '-'];
    let written = seq!['<', '!', '-', '-'] + text + seq!['-', '-', '>'];
    assert(written =~= seq!['<', '!'] + inner + seq!['>']);
    lemma_texts_are_read_in_turn(m, seq!['<', '!'] + inner, seq!['>']);
    lemma_texts_are_read_in_turn(m, seq!['<', '!'], inner);
    lemma_char(m, '<');
    lemma_then_char(m, seq!['<'], '!');
    assert(seq!['<'].push('!') =~= seq!['<', '!']);
    let begun = m.run(seq!['<', '!']).0;
    assert forall|i: int| 0 <= i < inner.len() implies is_ordinary(#[trigger] inner[i]) by {
        if 2 <= i < text.len() + 2 {
            assert(inner[i] == text[i - 2]);
        }
    }
    lemma_comment_is_collected(begun, inner);
    assert(begun.tag + inner =~= inner);
    let read = begun.run(inner).0;
    lemma_char(read, '>');
    reveal_strlit("--");
    assert(inner.take(2) =~= "--"@);
    let half = less_prefix(inner, "--"@);
    assert(half =~= text + seq!['-', '-']);
    assert(half.skip(text.len() as int) =~= "--"@);
    assert(half.take(text.len() as int) =~= text);
    assert(less_suffix(half, "--"@) =~= text);
    assert(m.tag =~= Seq::<char>::empty());
}

proof fn lemma_comment_is_collected(m: ParserModel, text: Seq<char>)
    requires
        m.stage == BuildPhase::CommentOpen,
        forall|i: int| 0 <= i < text.len() ==> is_ordinary(#[trigger] text[i]),
    ensures
        m.run(text).1,
        same_state(m.run(text).0, (ParserModel { tag: m.tag + text, ..m })),
    decreases text.len(),
{
    if text.len() > 0 {
        let less = text.drop_last();
        assert forall|i: int| 0 <= i < less.len() implies is_ordinary(#[trigger] less[i]) by {
            assert(less[i] == text[i]);
        }
        lemma_comment_is_collected(m, less);
        assert(text.last() == text[text.len() - 1]);
        assert(m.tag + text =~= (m.tag + less).push(text.last()));
    } else {
        assert(m.tag + text =~= m.tag);
    }
}

} // verus!
