//! Reading HTML: a state machine over the characters of a text that builds a list of nodes.
use std::collections::VecDeque;
use vstd::prelude::*;

use crate::document::lemma_ascending_is_acyclic;
use crate::dom::parent_of;
use crate::dom::with_value;
use crate::dom::Attributes;
use crate::dom::AttributesModel;
use crate::dom::CommentElement;
use crate::dom::Element;
use crate::dom::Node;
use crate::dom::NodeModel;
use crate::dom::TextElement;
use crate::numbers::parse_unsigned;
use crate::numbers::unsigned_value;
use crate::text::ends;
use crate::text::ends_with;
use crate::text::find_char;
use crate::text::index_of;
use crate::text::lemma_index_of;
use crate::text::less_prefix;
use crate::text::less_suffix;
use crate::text::matches_at;
use crate::text::same_text;
use crate::text::starts;
use crate::text::to_chars;
use crate::text::trim;
use crate::text::trimmed;
use crate::text::without_prefix;
use crate::text::without_suffix;
use crate::tree::acyclic;

verus! {

/// `char::from_u32` of std: the character with a code; nothing for a surrogate or a code above the
/// last one.
pub assume_specification[ char::from_u32 ](code: u32) -> (r: Option<char>)
    ensures
        r == (if is_scalar(code as int) {
            Some(code as char)
        } else {
            None
        }),
;

/// Whether a number is the code of a character.
pub open spec fn is_scalar(code: int) -> bool {
    0 <= code <= 0xd7ff || 0xe000 <= code <= 0x10ffff
}

/// The character for a code; the replacement character where there is none.
pub open spec fn char_of(code: int) -> char {
    if is_scalar(code) {
        code as char
    } else {
        '\u{FFFD}'
    }
}

/// A numeric entity at the start of a text: its character and its length. `&#` is followed by a
/// decimal number, or by `x` and a hexadecimal one, up to the next semicolon.
pub open spec fn numeric_entity(s: Seq<char>) -> Option<(char, int)> {
    if !starts(s, "&#"@) || index_of(s.skip(2), ';') >= s.skip(2).len() {
        None
    } else {
        let end = index_of(s.skip(2), ';');
        let body = s.skip(2).take(end);
        let number = if body.len() > 0 && (body[0] == 'x' || body[0] == 'X') {
            unsigned_value(body.drop_first(), 16, u32::MAX as int)
        } else {
            unsigned_value(body, 10, u32::MAX as int)
        };
        match number {
            Some(code) => Some((char_of(code), end + 3)),
            None => None,
        }
    }
}

/// A text with its entities replaced: `&amp;` and the numeric ones.
pub open spec fn decoded(s: Seq<char>) -> Seq<char>
    decreases s.len(),
    via decoded_decreases
{
    if s.len() == 0 {
        s
    } else if s[0] == '&' && starts(s, "&amp;"@) {
        seq!['&'] + decoded(s.skip(5))
    } else {
        match (s[0] == '&', numeric_entity(s)) {
            (true, Some((c, length))) => seq![c] + decoded(s.skip(length)),
            _ => seq![s[0]] + decoded(s.drop_first()),
        }
    }
}

#[via_fn]
proof fn decoded_decreases(s: Seq<char>) {
    reveal_strlit("&amp;");
    reveal_strlit("&#");
    if numeric_entity(s) is Some {
        lemma_index_of(s.skip(2), ';');
    }
}

fn decode_numeric_entity(chars: &Vec<char>, at: usize) -> (r: Option<(char, usize)>)
    requires
        at <= chars@.len(),
    ensures
        match (r, numeric_entity(chars@.skip(at as int))) {
            (Some(found), Some(model)) => found.0 == model.0 && found.1 == at + model.1 && at
                < found.1 <= chars@.len(),
            (None, None) => true,
            _ => false,
        },
{
    proof {
        reveal_strlit("&#");
    }
    let len: usize = chars.len();
    let ghost s = chars@.skip(at as int);
    let prefix = to_chars("&#");
    if !matches_at(chars, at, &prefix) {
        return None;
    }
    let start: usize = at + 2;
    let end: usize = find_char(chars, start, ';');
    proof {
        assert(chars@.skip(start as int) =~= s.skip(2));
        lemma_index_of(s.skip(2), ';');
    }
    if end == len {
        return None;
    }
    let ghost body = s.skip(2).take(end - start);
    assert(chars@.subrange(start as int, end as int) =~= body);
    let number: Option<u64> = if start < end && (chars[start] == 'x' || chars[start] == 'X') {
        assert(chars@.subrange(start + 1, end as int) =~= body.drop_first());
        parse_unsigned(chars, start + 1, end, 16, 0xffff_ffff)
    } else {
        parse_unsigned(chars, start, end, 10, 0xffff_ffff)
    };
    match number {
        None => None,
        Some(code) => {
            let c: char = match char::from_u32(code as u32) {
                Some(c) => c,
                None => '\u{FFFD}',
            };
            Some((c, end + 1))
        },
    }
}

/// A text with its entities replaced: `&amp;` and the numeric ones.
pub fn decode_html_entities(input: &str) -> (r: String)
    ensures
        r@ == decoded(input@),
{
    proof {
        reveal_strlit("&amp;");
        reveal_strlit("&#");
    }
    let chars = to_chars(input);
    let ampersand = to_chars("&amp;");
    let len: usize = chars.len();
    let mut out = String::new();
    let mut at: usize = 0;
    assert(chars@.skip(0) =~= chars@);
    assert(out@ + decoded(chars@) =~= decoded(chars@));
    while at < len
        invariant
            at <= len,
            len == chars@.len(),
            ampersand@ == "&amp;"@,
            ampersand@.len() == 5,
            out@ + decoded(chars@.skip(at as int)) == decoded(chars@),
        decreases len - at,
    {
        let ghost rest = chars@.skip(at as int);
        let ghost before = out@;
        let c: char = chars[at];
        if c == '&' && matches_at(&chars, at, &ampersand) {
            out.push('&');
            proof {
                assert(rest.skip(5) =~= chars@.skip(at + 5));
                assert(before + (seq!['&'] + decoded(rest.skip(5))) =~= out@ + decoded(
                    rest.skip(5),
                ));
            }
            at = at + 5;
        } else {
            let entity: Option<(char, usize)> = if c == '&' {
                decode_numeric_entity(&chars, at)
            } else {
                None
            };
            match entity {
                Some((decoded_char, next)) => {
                    out.push(decoded_char);
                    proof {
                        assert(rest.skip(next - at) =~= chars@.skip(next as int));
                        assert(before + (seq![decoded_char] + decoded(rest.skip(next - at))) =~= out@
                            + decoded(rest.skip(next - at)));
                    }
                    at = next;
                },
                None => {
                    out.push(c);
                    proof {
                        assert(rest.drop_first() =~= chars@.skip(at + 1));
                        assert(before + (seq![c] + decoded(rest.drop_first())) =~= out@ + decoded(
                            rest.drop_first(),
                        ));
                    }
                    at = at + 1;
                },
            }
        }
    }
    assert(chars@.skip(len as int) =~= Seq::<char>::empty());
    assert(out@ + Seq::<char>::empty() =~= out@);
    out
}

#[derive(Debug, Clone, Copy, PartialEq, Eq, Structural)]
pub enum BuildPhase {
    Start,
    Tag,
    TagDone,
    AttributeName,
    AttributeValue,
    AttributeValueInside,
    Text,
    TagClosing,
    ScriptOpen,
    CommentOpen,
}

/// What the parser saw: a character, and the state in which it came.
#[derive(Debug)]
pub struct TraceItem {
    pub char: char,
    pub stage: BuildPhase,
    pub tag: String,
}

pub struct TraceModel {
    pub char: char,
    pub stage: BuildPhase,
    pub tag: Seq<char>,
}

impl View for TraceItem {
    type V = TraceModel;

    open spec fn view(&self) -> TraceModel {
        TraceModel { char: self.char, stage: self.stage, tag: self.tag@ }
    }
}

/// How many characters the traces reach back.
pub const TRACE_LIMIT: usize = 200;

/// A tag was closed where no element is open.
#[derive(Debug, Clone, Copy, PartialEq, Eq, Structural)]
pub struct NoOpenElement;

/// Reads a text into nodes. A node that stands inside another names it as its parent.
#[derive(Debug)]
pub struct HtmlParser {
    pub input: String,
    pub stage: BuildPhase,
    pub tag: String,
    pub value: String,
    pub nodes: Vec<Node>,
    pub traces: VecDeque<TraceItem>,
    pub node: Option<usize>,
}

/// The state of an [`HtmlParser`].
#[verifier::ext_equal]
pub struct ParserModel {
    pub stage: BuildPhase,
    pub tag: Seq<char>,
    pub value: Seq<char>,
    pub nodes: Seq<NodeModel>,
    pub traces: Seq<TraceModel>,
    pub node: Option<usize>,
}

impl View for HtmlParser {
    type V = ParserModel;

    open spec fn view(&self) -> ParserModel {
        ParserModel {
            stage: self.stage,
            tag: self.tag@,
            value: self.value@,
            nodes: Seq::new(self.nodes@.len(), |i: int| self.nodes@[i]@),
            traces: Seq::new(self.traces@.len(), |i: int| self.traces@[i]@),
            node: self.node,
        }
    }
}

/// Tags whose elements never hold anything.
pub open spec fn is_void_tag(tag: Seq<char>) -> bool {
    tag == "br"@ || tag == "input"@ || tag == "meta"@ || tag == "link"@ || tag == "img"@ || tag
        == "hr"@
}

/// Tags whose content is text up to the closing tag.
pub open spec fn is_raw_tag(tag: Seq<char>) -> bool {
    tag == "script"@ || tag == "style"@
}

/// The closing tag at the end of raw text.
pub open spec fn raw_end(text: Seq<char>) -> Option<Seq<char>> {
    if ends(text, "</script>"@) {
        Some("</script>"@)
    } else if ends(text, "</style>"@) {
        Some("</style>"@)
    } else {
        None
    }
}

fn is_self_closing(tag: &str) -> (r: bool)
    ensures
        r == is_void_tag(tag@),
{
    same_text(tag, "br") || same_text(tag, "input") || same_text(tag, "meta") || same_text(
        tag,
        "link",
    ) || same_text(tag, "img") || same_text(tag, "hr")
}

fn is_unique(tag: &str) -> (r: bool)
    ensures
        r == is_raw_tag(tag@),
{
    same_text(tag, "script") || same_text(tag, "style")
}

/// A node with an attribute set; a node that is no element stays as it is.
pub open spec fn with_attribute(node: NodeModel, name: Seq<char>, value: Seq<char>) -> NodeModel {
    match node {
        NodeModel::Element { tag, attributes, parent } => NodeModel::Element {
            tag,
            attributes: with_value(attributes, name, value),
            parent,
        },
        _ => node,
    }
}

impl ParserModel {
    /// The node that is open.
    pub open spec fn current(self) -> Option<NodeModel> {
        match self.node {
            Some(idx) => if idx < self.nodes.len() {
                Some(self.nodes[idx as int])
            } else {
                None
            },
            None => None,
        }
    }

    /// The parent of the open node is open. Fails where none is.
    pub open spec fn up(self) -> (ParserModel, bool) {
        match self.current() {
            Some(node) => (ParserModel { node: node.parent_idx(), ..self }, true),
            None => (self, false),
        }
    }

    pub open spec fn to_stage(self, stage: BuildPhase) -> ParserModel {
        ParserModel { stage, ..self }
    }

    pub open spec fn without_tag(self) -> ParserModel {
        ParserModel { tag: Seq::empty(), ..self }
    }

    pub open spec fn with_tag_char(self, c: char) -> ParserModel {
        ParserModel { tag: self.tag.push(c), ..self }
    }

    pub open spec fn with_value_char(self, c: char) -> ParserModel {
        ParserModel { value: self.value.push(c), ..self }
    }

    /// The collected characters become a text or, outside of text, an element, which is then open.
    pub open spec fn created(self) -> ParserModel {
        ParserModel {
            nodes: self.nodes.push(
                if self.stage == BuildPhase::Text {
                    NodeModel::Text { text: decoded(self.tag), parent: self.node }
                } else {
                    NodeModel::Element {
                        tag: trimmed(self.tag),
                        attributes: AttributesModel::empty(),
                        parent: self.node,
                    }
                },
            ),
            node: Some(self.nodes.len() as usize),
            ..self
        }
    }

    /// The collected characters become a comment, without the dashes around it.
    pub open spec fn commented(self) -> ParserModel {
        ParserModel {
            nodes: self.nodes.push(
                NodeModel::Comment {
                    comment: less_suffix(less_prefix(self.tag, "--"@), "--"@),
                    parent: self.node,
                },
            ),
            ..self
        }
    }

    /// An element that never holds anything is closed at once.
    pub open spec fn void_closed(self) -> ParserModel {
        match self.current() {
            Some(NodeModel::Element { tag, attributes, parent }) => if is_void_tag(tag) {
                ParserModel { node: parent, ..self }
            } else {
                self
            },
            _ => self,
        }
    }

    /// Whether the open node holds raw text.
    pub open spec fn in_raw(self) -> bool {
        self.current() matches Some(NodeModel::Element { tag, .. }) && is_raw_tag(tag)
    }

    /// The opening tag is complete.
    pub open spec fn opened(self) -> ParserModel {
        let closed = self.void_closed();
        closed.to_stage(
            if closed.in_raw() {
                BuildPhase::ScriptOpen
            } else {
                BuildPhase::Start
            },
        ).without_tag()
    }

    /// The collected name and value become an attribute of the open node. Fails where none is open.
    pub open spec fn attribute_closed(self) -> (ParserModel, bool) {
        match self.current() {
            Some(node) => (
                ParserModel {
                    nodes: self.nodes.update(
                        self.node->0 as int,
                        with_attribute(node, self.tag, decoded(self.value)),
                    ),
                    tag: Seq::empty(),
                    value: Seq::empty(),
                    ..self
                },
                true,
            ),
            None => (self, false),
        }
    }

    /// A character is added to the traces, newest first.
    pub open spec fn traced(self, c: char) -> ParserModel {
        let kept = if self.traces.len() >= TRACE_LIMIT {
            self.traces.drop_last()
        } else {
            self.traces
        };
        ParserModel {
            traces: seq![TraceModel { char: c, stage: self.stage, tag: self.tag }] + kept,
            ..self
        }
    }

    /// A character of raw text.
    pub open spec fn raw_step(self, c: char) -> (ParserModel, bool) {
        let added = self.with_tag_char(c);
        match raw_end(added.tag) {
            None => (added, true),
            Some(suffix) => {
                let (text_closed, _) = ParserModel {
                    tag: added.tag.take(added.tag.len() - suffix.len()),
                    stage: BuildPhase::Text,
                    ..added
                }.created().up();
                let (closed, ok) = text_closed.up();
                if ok {
                    (closed.without_tag().to_stage(BuildPhase::Start), true)
                } else {
                    (closed, false)
                }
            },
        }
    }

    /// `<`
    pub open spec fn open_step(self) -> (ParserModel, bool) {
        match self.stage {
            BuildPhase::Start => (self.to_stage(BuildPhase::Tag), true),
            BuildPhase::Text => {
                let (closed, _) = self.created().up();
                (closed.to_stage(BuildPhase::Tag).without_tag(), true)
            },
            _ => (self, true),
        }
    }

    /// `/`
    pub open spec fn slash_step(self) -> (ParserModel, bool) {
        match self.stage {
            BuildPhase::Tag => (self.to_stage(BuildPhase::TagClosing), true),
            BuildPhase::AttributeValueInside => (self.with_value_char('/'), true),
            BuildPhase::Text => (self.with_tag_char('/'), true),
            _ => (self, true),
        }
    }

    /// `>`
    pub open spec fn close_step(self) -> (ParserModel, bool) {
        match self.stage {
            BuildPhase::Tag => (self.created().opened(), true),
            BuildPhase::TagDone => (self.opened(), true),
            BuildPhase::TagClosing => {
                let (closed, ok) = self.up();
                if ok {
                    (closed.to_stage(BuildPhase::Start).without_tag(), true)
                } else {
                    (closed, false)
                }
            },
            BuildPhase::AttributeName | BuildPhase::AttributeValue => {
                let (closed, ok) = self.attribute_closed();
                if ok {
                    (closed.opened(), true)
                } else {
                    (closed, false)
                }
            },
            BuildPhase::CommentOpen => (
                self.commented().to_stage(BuildPhase::Start).without_tag(),
                true,
            ),
            _ => (self, true),
        }
    }

    /// `=`
    pub open spec fn equals_step(self) -> (ParserModel, bool) {
        match self.stage {
            BuildPhase::AttributeName => (self.to_stage(BuildPhase::AttributeValue), true),
            BuildPhase::AttributeValueInside => (self.with_value_char('='), true),
            _ => (self, true),
        }
    }

    /// A space or a line break.
    pub open spec fn space_step(self, c: char) -> (ParserModel, bool) {
        match self.stage {
            BuildPhase::Start | BuildPhase::Text => (self.with_tag_char(c), true),
            BuildPhase::Tag => (
                self.created().to_stage(BuildPhase::TagDone).without_tag(),
                true,
            ),
            BuildPhase::AttributeValueInside => (self.with_value_char(c), true),
            BuildPhase::AttributeName => {
                let (closed, ok) = self.attribute_closed();
                if ok {
                    (closed.to_stage(BuildPhase::TagDone), true)
                } else {
                    (closed, false)
                }
            },
            _ => (self, true),
        }
    }

    /// Any other character.
    pub open spec fn other_step(self, c: char) -> (ParserModel, bool) {
        match self.stage {
            BuildPhase::Start => (self.to_stage(BuildPhase::Text).with_tag_char(c), true),
            BuildPhase::Tag => if self.tag.len() == 0 && c == '!' {
                (self.to_stage(BuildPhase::CommentOpen), true)
            } else {
                (self.with_tag_char(c), true)
            },
            BuildPhase::TagDone | BuildPhase::AttributeName => (
                self.to_stage(BuildPhase::AttributeName).with_tag_char(c),
                true,
            ),
            BuildPhase::AttributeValue => if c == '"' {
                (self.to_stage(BuildPhase::AttributeValueInside), true)
            } else {
                (self.with_value_char(c), true)
            },
            BuildPhase::AttributeValueInside => if c == '"' {
                let (closed, ok) = self.attribute_closed();
                if ok {
                    (closed.to_stage(BuildPhase::TagDone), true)
                } else {
                    (closed, false)
                }
            } else {
                (self.with_value_char(c), true)
            },
            BuildPhase::Text | BuildPhase::CommentOpen => (self.with_tag_char(c), true),
            _ => (self, true),
        }
    }

    /// The state after one more character, and whether the character could be taken.
    pub open spec fn step(self, c: char) -> (ParserModel, bool) {
        let seen = self.traced(c);
        if seen.stage == BuildPhase::ScriptOpen {
            seen.raw_step(c)
        } else if c == '<' {
            seen.open_step()
        } else if c == '/' {
            seen.slash_step()
        } else if c == '>' {
            seen.close_step()
        } else if c == '=' {
            seen.equals_step()
        } else if c == ' ' || c == '\n' {
            seen.space_step(c)
        } else {
            seen.other_step(c)
        }
    }

    /// The state after the characters of a text, up to the first that could not be taken.
    pub open spec fn run(self, input: Seq<char>) -> (ParserModel, bool)
        decreases input.len(),
    {
        if input.len() == 0 {
            (self, true)
        } else {
            let (before, ok) = self.run(input.drop_last());
            if ok {
                before.step(input.last())
            } else {
                (before, false)
            }
        }
    }

    /// The state after a text: text that is still open at the end becomes a node.
    pub open spec fn parsed(self, input: Seq<char>) -> (ParserModel, bool) {
        let (end, ok) = self.run(input);
        if ok && end.stage == BuildPhase::Text {
            (end.created(), true)
        } else {
            (end, ok)
        }
    }

    /// Every parent is an earlier node, and so is the open one. Where attributes or raw text are
    /// read, an element is open.
    pub open spec fn wf(self) -> bool {
        &&& forall|i: int|
            0 <= i < self.nodes.len() ==> ((#[trigger] self.nodes[i]).parent_idx() matches Some(
                parent,
            ) ==> parent < i)
        &&& self.node matches Some(idx) ==> idx < self.nodes.len()
        &&& (match self.stage {
            BuildPhase::TagDone
            | BuildPhase::AttributeName
            | BuildPhase::AttributeValue
            | BuildPhase::AttributeValueInside
            | BuildPhase::ScriptOpen => self.node is Some,
            _ => true,
        })
    }
}

/// One character keeps the state in order, and is refused only where it closes a tag while no
/// element is open.
pub proof fn lemma_step(m: ParserModel, c: char)
    requires
        m.wf(),
        m.nodes.len() < usize::MAX,
    ensures
        m.step(c).0.wf(),
        m.step(c).1 == !(m.stage == BuildPhase::TagClosing && c == '>' && m.node is None),
        m.step(c).0.nodes.len() <= m.nodes.len() + 1,
{
    let seen = m.traced(c);
    assert(seen.wf());
    let made = seen.created();
    assert(made.nodes.last().parent_idx() == seen.node);
    if let Some(node) = seen.current() {
        assert(seen.nodes[seen.node->0 as int] == node);
        let changed = seen.attribute_closed().0;
        assert(changed.nodes[seen.node->0 as int].parent_idx() == node.parent_idx());
    }
}

/// Reading a text keeps the state in order.
pub proof fn lemma_run(m: ParserModel, input: Seq<char>)
    requires
        m.wf(),
        m.nodes.len() + input.len() <= usize::MAX,
    ensures
        m.run(input).0.wf(),
        m.run(input).0.nodes.len() <= m.nodes.len() + input.len(),
    decreases input.len(),
{
    if input.len() > 0 {
        lemma_run(m, input.drop_last());
        let (before, ok) = m.run(input.drop_last());
        if ok {
            lemma_step(before, input.last());
        }
    }
}

impl HtmlParser {
    pub fn new(input: String) -> (r: HtmlParser)
        ensures
            r.input@ == input@,
            r@ == (ParserModel {
                stage: BuildPhase::Start,
                tag: Seq::empty(),
                value: Seq::empty(),
                nodes: Seq::empty(),
                traces: Seq::empty(),
                node: None,
            }),
            r@.wf(),
            r@.nested(),
    {
        let r = HtmlParser {
            input,
            tag: String::new(),
            value: String::new(),
            stage: BuildPhase::Start,
            nodes: Vec::new(),
            traces: VecDeque::new(),
            node: None,
        };
        assert(r@ =~= (ParserModel {
            stage: BuildPhase::Start,
            tag: Seq::empty(),
            value: Seq::empty(),
            nodes: Seq::empty(),
            traces: Seq::empty(),
            node: None,
        }));
        r
    }

    fn curr_node(&self) -> (r: Option<&Node>)
        ensures
            match (r, self@.current()) {
                (Some(node), Some(model)) => node@ == model && self.node is Some && self.node->0
                    < self.nodes@.len() && self.nodes@[self.node->0 as int] == *node,
                (None, None) => true,
                _ => false,
            },
    {
        match self.node {
            Some(idx) => if idx < self.nodes.len() {
                Some(&self.nodes[idx])
            } else {
                None
            },
            None => None,
        }
    }

    fn curr_is_script(&self) -> (r: bool)
        ensures
            r == self@.in_raw(),
    {
        match self.curr_node() {
            Some(Node::Element(element)) => is_unique(element.tag.as_str()),
            _ => false,
        }
    }

    fn go_up(&mut self) -> (r: Result<(), NoOpenElement>)
        ensures
            final(self)@ == old(self)@.up().0,
            final(self).input == old(self).input,
            r is Ok == old(self)@.up().1,
    {
        let parent: Option<usize> = match self.curr_node() {
            Some(node) => node.get_parent(),
            None => {
                return Err(NoOpenElement);
            },
        };
        self.node = parent;
        assert(self@ =~= old(self)@.up().0);
        Ok(())
    }

    fn clear_tag(&mut self)
        ensures
            final(self)@ == old(self)@.without_tag(),
            final(self).input == old(self).input,
    {
        self.tag = String::new();
        assert(self@ =~= old(self)@.without_tag());
    }

    fn set_stage(&mut self, stage: BuildPhase)
        ensures
            final(self)@ == old(self)@.to_stage(stage),
            final(self).input == old(self).input,
    {
        self.stage = stage;
        assert(self@ =~= old(self)@.to_stage(stage));
    }

    fn push_tag(&mut self, c: char)
        ensures
            final(self)@ == old(self)@.with_tag_char(c),
            final(self).input == old(self).input,
    {
        self.tag.push(c);
        assert(self@ =~= old(self)@.with_tag_char(c));
    }

    fn push_value(&mut self, c: char)
        ensures
            final(self)@ == old(self)@.with_value_char(c),
            final(self).input == old(self).input,
    {
        self.value.push(c);
        assert(self@ =~= old(self)@.with_value_char(c));
    }

    fn close_attribute(&mut self) -> (r: Result<(), NoOpenElement>)
        ensures
            final(self)@ == old(self)@.attribute_closed().0,
            final(self).input == old(self).input,
            r is Ok == old(self)@.attribute_closed().1,
    {
        let name = self.tag.clone();
        let value = decode_html_entities(self.value.as_str());
        let idx: usize = match self.node {
            Some(idx) => idx,
            None => {
                return Err(NoOpenElement);
            },
        };
        if idx >= self.nodes.len() {
            return Err(NoOpenElement);
        }
        let ghost before = self@;
        let ghost model = self.nodes@[idx as int]@;
        match &mut self.nodes[idx] {
            Node::Element(element) => {
                element.attributes.insert(name, value);
            },
            _ => {},
        }
        assert(self.nodes@[idx as int]@ == with_attribute(model, name@, value@));
        self.tag = String::new();
        self.value = String::new();
        assert(self@ =~= before.attribute_closed().0);
        Ok(())
    }

    fn create_node_from_state(&mut self)
        ensures
            final(self)@ == old(self)@.created(),
            final(self).input == old(self).input,
    {
        let node = match self.stage {
            BuildPhase::Text => Node::Text(
                TextElement { text: decode_html_entities(self.tag.as_str()), parent: self.node },
            ),
            _ => Node::Element(
                Element {
                    tag: trim(self.tag.as_str()),
                    attributes: Attributes::new(),
                    parent: self.node,
                },
            ),
        };
        self.node = Some(self.nodes.len());
        self.nodes.push(node);
        assert(self@ =~= old(self)@.created());
    }

    fn create_comment_from_state(&mut self)
        ensures
            final(self)@ == old(self)@.commented(),
            final(self).input == old(self).input,
    {
        let inner = without_prefix(self.tag.clone(), "--");
        let comment = without_suffix(inner, "--");
        self.nodes.push(Node::Comment(CommentElement { comment, parent: self.node }));
        assert(self@ =~= old(self)@.commented());
    }

    fn self_close_if_appropiate(&mut self)
        ensures
            final(self)@ == old(self)@.void_closed(),
            final(self).input == old(self).input,
    {
        let parent: Option<Option<usize>> = match self.curr_node() {
            Some(Node::Element(element)) => if is_self_closing(element.tag.as_str()) {
                Some(element.parent)
            } else {
                None
            },
            _ => None,
        };
        match parent {
            Some(parent) => {
                self.node = parent;
            },
            None => {},
        }
        assert(self@ =~= old(self)@.void_closed());
    }

    fn finish_opening(&mut self)
        ensures
            final(self)@ == old(self)@.opened(),
            final(self).input == old(self).input,
    {
        self.self_close_if_appropiate();
        if self.curr_is_script() {
            self.set_stage(BuildPhase::ScriptOpen);
        } else {
            self.set_stage(BuildPhase::Start);
        }
        self.clear_tag();
    }

    fn trace(&mut self, c: char)
        ensures
            final(self)@ == old(self)@.traced(c),
            final(self).input == old(self).input,
    {
        let ghost before = self@.traces;
        if self.traces.len() >= TRACE_LIMIT {
            let _oldest = self.traces.pop_back();
        }
        self.traces.push_front(
            TraceItem { char: c, tag: self.tag.clone(), stage: self.stage },
        );
        assert(self@ =~= old(self)@.traced(c));
    }

    fn raw_char(&mut self, c: char) -> (r: Result<(), NoOpenElement>)
        ensures
            final(self)@ == old(self)@.raw_step(c).0,
            final(self).input == old(self).input,
            r is Ok == old(self)@.raw_step(c).1,
    {
        self.push_tag(c);
        let ghost added = self@;
        let suffix = if ends_with(self.tag.as_str(), "</script>") {
            "</script>"
        } else if ends_with(self.tag.as_str(), "</style>") {
            "</style>"
        } else {
            return Ok(());
        };
        let text = without_suffix(self.tag.clone(), suffix);
        self.tag = text;
        self.stage = BuildPhase::Text;
        assert(self@ =~= (ParserModel {
            tag: added.tag.take(added.tag.len() - suffix@.len()),
            stage: BuildPhase::Text,
            ..added
        }));
        self.create_node_from_state();
        let _text_closed = self.go_up();
        match self.go_up() {
            Ok(()) => {},
            Err(error) => {
                return Err(error);
            },
        }
        self.clear_tag();
        self.set_stage(BuildPhase::Start);
        Ok(())
    }

    fn close_char(&mut self) -> (r: Result<(), NoOpenElement>)
        ensures
            final(self)@ == old(self)@.close_step().0,
            final(self).input == old(self).input,
            r is Ok == old(self)@.close_step().1,
    {
        match self.stage {
            BuildPhase::Tag => {
                self.create_node_from_state();
                self.finish_opening();
                Ok(())
            },
            BuildPhase::TagDone => {
                self.finish_opening();
                Ok(())
            },
            BuildPhase::TagClosing => match self.go_up() {
                Ok(()) => {
                    self.set_stage(BuildPhase::Start);
                    self.clear_tag();
                    Ok(())
                },
                Err(error) => Err(error),
            },
            BuildPhase::AttributeName | BuildPhase::AttributeValue => match self.close_attribute() {
                Ok(()) => {
                    self.finish_opening();
                    Ok(())
                },
                Err(error) => Err(error),
            },
            BuildPhase::CommentOpen => {
                self.create_comment_from_state();
                self.set_stage(BuildPhase::Start);
                self.clear_tag();
                Ok(())
            },
            _ => Ok(()),
        }
    }

    fn space_char(&mut self, c: char) -> (r: Result<(), NoOpenElement>)
        ensures
            final(self)@ == old(self)@.space_step(c).0,
            final(self).input == old(self).input,
            r is Ok == old(self)@.space_step(c).1,
    {
        match self.stage {
            BuildPhase::Start | BuildPhase::Text => {
                self.push_tag(c);
                Ok(())
            },
            BuildPhase::Tag => {
                self.create_node_from_state();
                self.set_stage(BuildPhase::TagDone);
                self.clear_tag();
                Ok(())
            },
            BuildPhase::AttributeValueInside => {
                self.push_value(c);
                Ok(())
            },
            BuildPhase::AttributeName => match self.close_attribute() {
                Ok(()) => {
                    self.set_stage(BuildPhase::TagDone);
                    Ok(())
                },
                Err(error) => Err(error),
            },
            _ => Ok(()),
        }
    }

    fn other_char(&mut self, c: char) -> (r: Result<(), NoOpenElement>)
        ensures
            final(self)@ == old(self)@.other_step(c).0,
            final(self).input == old(self).input,
            r is Ok == old(self)@.other_step(c).1,
    {
        match self.stage {
            BuildPhase::Start => {
                self.set_stage(BuildPhase::Text);
                self.push_tag(c);
                Ok(())
            },
            BuildPhase::Tag => {
                let empty = same_text(self.tag.as_str(), "");
                proof {
                    reveal_strlit("");
                    assert(""@ =~= Seq::<char>::empty());
                    assert(empty == (self.tag@.len() == 0)) by {
                        if self.tag@.len() == 0 {
                            assert(self.tag@ =~= Seq::<char>::empty());
                        }
                    }
                }
                if empty && c == '!' {
                    self.set_stage(BuildPhase::CommentOpen);
                } else {
                    self.push_tag(c);
                }
                Ok(())
            },
            BuildPhase::TagDone | BuildPhase::AttributeName => {
                self.set_stage(BuildPhase::AttributeName);
                self.push_tag(c);
                Ok(())
            },
            BuildPhase::AttributeValue => {
                if c == '"' {
                    self.set_stage(BuildPhase::AttributeValueInside);
                } else {
                    self.push_value(c);
                }
                Ok(())
            },
            BuildPhase::AttributeValueInside => if c == '"' {
                match self.close_attribute() {
                    Ok(()) => {
                        self.set_stage(BuildPhase::TagDone);
                        Ok(())
                    },
                    Err(error) => Err(error),
                }
            } else {
                self.push_value(c);
                Ok(())
            },
            BuildPhase::Text | BuildPhase::CommentOpen => {
                self.push_tag(c);
                Ok(())
            },
            _ => Ok(()),
        }
    }

    /// Takes one character.
    fn take_char(&mut self, c: char) -> (r: Result<(), NoOpenElement>)
        ensures
            final(self)@ == old(self)@.step(c).0,
            final(self).input == old(self).input,
            r is Ok == old(self)@.step(c).1,
    {
        self.trace(c);
        if self.stage == BuildPhase::ScriptOpen {
            return self.raw_char(c);
        }
        match c {
            '<' => {
                match self.stage {
                    BuildPhase::Start => {
                        self.set_stage(BuildPhase::Tag);
                    },
                    BuildPhase::Text => {
                        self.create_node_from_state();
                        let _text_closed = self.go_up();
                        self.set_stage(BuildPhase::Tag);
                        self.clear_tag();
                    },
                    _ => {},
                }
                Ok(())
            },
            '/' => {
                match self.stage {
                    BuildPhase::Tag => {
                        self.set_stage(BuildPhase::TagClosing);
                    },
                    BuildPhase::AttributeValueInside => {
                        self.push_value(c);
                    },
                    BuildPhase::Text => {
                        self.push_tag(c);
                    },
                    _ => {},
                }
                Ok(())
            },
            '>' => self.close_char(),
            '=' => {
                match self.stage {
                    BuildPhase::AttributeName => {
                        self.set_stage(BuildPhase::AttributeValue);
                    },
                    BuildPhase::AttributeValueInside => {
                        self.push_value(c);
                    },
                    _ => {},
                }
                Ok(())
            },
            ' ' | '\n' => self.space_char(c),
            _ => self.other_char(c),
        }
    }

    /// Reads the text. Where a tag is closed while no element is open, reading ends there.
    pub fn parse(&mut self) -> (r: Result<(), NoOpenElement>)
        ensures
            final(self)@ == old(self)@.parsed(old(self).input@).0,
            r is Ok == old(self)@.parsed(old(self).input@).1,
            final(self).input == old(self).input,
            old(self)@.wf() && old(self)@.nested() && old(self)@.nodes.len() == 0 ==> {
                &&& parents_hold(final(self)@.nodes)
                &&& final(self)@.traces.len() <= TRACE_LIMIT
            },
    {
        let chars = to_chars(self.input.as_str());
        let ghost before = self@;
        proof {
            if before.wf() && before.nested() && before.nodes.len() == 0 {
                assert(chars.len() <= usize::MAX);
                lemma_parents_can_hold(chars@, before);
            }
        }
        let mut at: usize = 0;
        while at < chars.len()
            invariant
                at <= chars@.len(),
                chars@ == old(self).input@,
                self.input == old(self).input,
                before == old(self)@,
                before.run(chars@.take(at as int)) == (self@, true),
                before.wf() && before.nested() && before.nodes.len() == 0 ==> {
                    &&& parents_hold(before.parsed(chars@).0.nodes)
                    &&& before.parsed(chars@).0.traces.len() <= TRACE_LIMIT
                },
            decreases chars@.len() - at,
        {
            assert(chars@.take(at + 1).drop_last() =~= chars@.take(at as int));
            match self.take_char(chars[at]) {
                Ok(()) => {},
                Err(error) => {
                    proof {
                        lemma_refused_prefix(before, chars@, at + 1);
                    }
                    return Err(error);
                },
            }
            at = at + 1;
        }
        assert(chars@.take(chars@.len() as int) =~= chars@);
        if self.stage == BuildPhase::Text {
            self.create_node_from_state();
        }
        Ok(())
    }
}

proof fn lemma_refused_prefix(m: ParserModel, input: Seq<char>, at: int)
    requires
        0 <= at <= input.len(),
        !m.run(input.take(at)).1,
    ensures
        m.run(input) == m.run(input.take(at)),
    decreases input.len(),
{
    if at == input.len() {
        assert(input.take(at) =~= input);
    } else {
        assert(input.drop_last().take(at) =~= input.take(at));
        lemma_refused_prefix(m, input.drop_last(), at);
    }
}

/// What the parser builds is a tree: no node is its own ancestor.
pub proof fn lemma_parsed_is_acyclic(input: Seq<char>, m: ParserModel)
    requires
        m.wf(),
        m.nodes.len() + input.len() <= usize::MAX,
    ensures
        acyclic(
            Seq::new(m.parsed(input).0.nodes.len(), |i: int| Some(m.parsed(input).0.nodes[i])),
        ),
{
    lemma_run(m, input);
    let end = m.run(input).0;
    let all = m.parsed(input).0.nodes;
    let nodes = Seq::new(all.len(), |i: int| Some(all[i]));
    assert(end.created().nodes.last().parent_idx() == end.node);
    assert forall|idx: usize|
        (#[trigger] parent_of(nodes, idx)) matches Some(parent) ==> parent < idx by {
        if idx < all.len() {
            assert(nodes[idx as int] == Some(all[idx as int]));
            if idx < end.nodes.len() {
                assert(all[idx as int] == end.nodes[idx as int]);
            }
        }
    }
    lemma_ascending_is_acyclic(nodes);
}

/// Whether a node can hold others: it is an element, and none of those that never hold anything.
pub open spec fn can_hold(node: NodeModel) -> bool {
    node matches NodeModel::Element { tag, attributes, parent } && !is_void_tag(tag)
}

/// Every parent is an earlier node, and one that can hold others.
pub open spec fn parents_hold(nodes: Seq<NodeModel>) -> bool {
    forall|i: int|
        0 <= i < nodes.len() ==> ((#[trigger] nodes[i]).parent_idx() matches Some(parent) ==> parent
            < i && can_hold(nodes[parent as int]))
}

impl ParserModel {
    /// Every parent can hold nodes. So can the open one, unless its attributes are still read: it is
    /// an element in any case.
    pub open spec fn nested(self) -> bool {
        &&& parents_hold(self.nodes)
        &&& self.node matches Some(idx) ==> idx < self.nodes.len() && (match self.stage {
            BuildPhase::TagDone
            | BuildPhase::AttributeName
            | BuildPhase::AttributeValue
            | BuildPhase::AttributeValueInside => self.nodes[idx as int] is Element,
            _ => can_hold(self.nodes[idx as int]),
        })
        &&& self.traces.len() <= TRACE_LIMIT
    }
}

proof fn lemma_pushed_is_nested(m: ParserModel, node: NodeModel)
    requires
        m.nested(),
        node.parent_idx() == m.node,
        m.node matches Some(idx) ==> can_hold(m.nodes[idx as int]),
    ensures
        forall|i: int|
            0 <= i < m.nodes.push(node).len() ==> ((#[trigger] m.nodes.push(node)[i]).parent_idx()
                matches Some(parent) ==> parent < i && can_hold(
                m.nodes.push(node)[parent as int],
            )),
{
    assert forall|i: int| 0 <= i < m.nodes.push(node).len() implies ((#[trigger] m.nodes.push(
        node,
    )[i]).parent_idx() matches Some(parent) ==> parent < i && can_hold(
        m.nodes.push(node)[parent as int],
    )) by {
        if i < m.nodes.len() {
            assert(m.nodes.push(node)[i] == m.nodes[i]);
        }
    }
}

proof fn lemma_void_closed_is_nested(m: ParserModel)
    requires
        m.nodes.len() <= usize::MAX,
        m.traces.len() <= TRACE_LIMIT,
        forall|i: int|
            0 <= i < m.nodes.len() ==> ((#[trigger] m.nodes[i]).parent_idx() matches Some(parent)
                ==> parent < i && can_hold(m.nodes[parent as int])),
        m.node matches Some(idx) ==> idx < m.nodes.len() && m.nodes[idx as int] is Element,
    ensures
        m.opened().nested(),
{
    if let Some(idx) = m.node {
        assert(m.current() == Some(m.nodes[idx as int]));
        assert(m.nodes[idx as int].parent_idx() matches Some(parent) ==> can_hold(
            m.nodes[parent as int],
        ));
    }
}

proof fn lemma_step_is_nested(m: ParserModel, c: char)
    requires
        m.wf(),
        m.nested(),
        m.nodes.len() < usize::MAX,
    ensures
        m.step(c).0.nested(),
{
    let seen = m.traced(c);
    assert(seen.nested());
    let made = seen.created();
    let noted = seen.commented();
    if let Some(idx) = seen.node {
        let node = seen.nodes[idx as int];
        assert(seen.current() == Some(node));
        assert(node.parent_idx() matches Some(parent) ==> can_hold(seen.nodes[parent as int]));
        let changed = seen.attribute_closed().0;
        assert(changed.nodes[idx as int].parent_idx() == node.parent_idx());
        assert(can_hold(changed.nodes[idx as int]) == can_hold(node));
        assert(changed.nodes[idx as int] is Element == (node is Element));
        assert forall|i: int| 0 <= i < changed.nodes.len() implies ((
        #[trigger] changed.nodes[i]).parent_idx() matches Some(parent) ==> parent < i && can_hold(
            changed.nodes[parent as int],
        )) by {
            assert(changed.nodes[i].parent_idx() == seen.nodes[i].parent_idx());
        }
        if node is Element {
            lemma_void_closed_is_nested(changed);
            lemma_void_closed_is_nested(seen);
        }
    } else {
        lemma_void_closed_is_nested(seen);
    }
    match seen.stage {
        BuildPhase::TagDone
        | BuildPhase::AttributeName
        | BuildPhase::AttributeValue
        | BuildPhase::AttributeValueInside => {},
        BuildPhase::ScriptOpen => {
            let added = seen.with_tag_char(c);
            if let Some(suffix) = raw_end(added.tag) {
                let ready = ParserModel {
                    tag: added.tag.take(added.tag.len() - suffix.len()),
                    stage: BuildPhase::Text,
                    ..added
                };
                let text = ready.created();
                lemma_pushed_is_nested(ready, text.nodes.last());
                assert(text.nodes =~= ready.nodes.push(text.nodes.last()));
                assert(text.current() == Some(text.nodes.last()));
                assert(text.up().0.node == seen.node);
                if let Some(idx) = seen.node {
                    assert(text.nodes[idx as int] == seen.nodes[idx as int]);
                    assert(text.up().0.current() == Some(seen.nodes[idx as int]));
                    if let Some(parent) = seen.nodes[idx as int].parent_idx() {
                        assert(text.nodes[parent as int] == seen.nodes[parent as int]);
                    }
                }
            }
        },
        _ => {
            lemma_pushed_is_nested(seen, made.nodes.last());
            assert(made.nodes =~= seen.nodes.push(made.nodes.last()));
            assert(made.current() == Some(made.nodes.last()));
            lemma_pushed_is_nested(seen, noted.nodes.last());
            assert(noted.nodes =~= seen.nodes.push(noted.nodes.last()));
            if let Some(idx) = seen.node {
                assert(made.nodes[idx as int] == seen.nodes[idx as int]);
                assert(noted.nodes[idx as int] == seen.nodes[idx as int]);
            }
            if seen.stage != BuildPhase::Text {
                lemma_void_closed_is_nested(made);
            }
        },
    }
}

proof fn lemma_run_is_nested(m: ParserModel, input: Seq<char>)
    requires
        m.wf(),
        m.nested(),
        m.nodes.len() + input.len() <= usize::MAX,
    ensures
        m.run(input).0.nested(),
    decreases input.len(),
{
    if input.len() > 0 {
        lemma_run_is_nested(m, input.drop_last());
        lemma_run(m, input.drop_last());
        let (before, ok) = m.run(input.drop_last());
        if ok {
            lemma_step_is_nested(before, input.last());
        }
    }
}

/// However reading a text ends, every parent stands before its children and is an element that can
/// hold them, and no more traces are kept than the newest ones.
pub proof fn lemma_parents_can_hold(input: Seq<char>, m: ParserModel)
    requires
        m.wf(),
        m.nested(),
        m.nodes.len() + input.len() <= usize::MAX,
    ensures
        parents_hold(m.parsed(input).0.nodes),
        m.parsed(input).0.traces.len() <= TRACE_LIMIT,
{
    lemma_run_is_nested(m, input);
    let (end, ok) = m.run(input);
    if ok && end.stage == BuildPhase::Text {
        let made = end.created();
        lemma_pushed_is_nested(end, made.nodes.last());
        assert(made.nodes =~= end.nodes.push(made.nodes.last()));
    }
}

} // verus!
