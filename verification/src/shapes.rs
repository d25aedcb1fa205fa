//! What the nodes of a document are to layout.
use vstd::prelude::*;

use crate::dom::lookup;
use crate::dom::node_at;
use crate::dom::parent_of;
use crate::dom::Attributes;
use crate::dom::AttributesModel;
use crate::dom::Node;
use crate::dom::NodeModel;
use crate::dom::NodesModel;
use crate::dom::NodesTable;
use crate::images::join_texts;
use crate::images::joined;
use crate::lengths::InputValue;
use crate::lengths::LayoutInput;
use crate::lengths::LayoutNode;
use crate::lengths::LayoutStyle;
use crate::lengths::Shape;
use crate::numbers::parse_text;
use crate::numbers::unsigned_value;
use crate::sizing::Size;
use crate::text::is_space;
use crate::text::same_text;
use crate::text::split_whitespace;
use crate::text::words;
use crate::text::words_so_far;
use crate::tree::children_at;
use crate::tree::ChildrenIndex;
use crate::tree::ChildrenModel;

verus! {

/// A text whose runs of white space are single spaces, without any at its ends; nothing where
/// only white space is left.
pub open spec fn collapsed(text: Seq<char>) -> Option<Seq<char>> {
    if words(text).len() == 0 {
        None
    } else {
        Some(joined(words(text), " "@))
    }
}

pub fn collapse_whitespace(text: &str) -> (r: Option<String>)
    ensures
        match (r, collapsed(text@)) {
            (Some(text), Some(model)) => text@ == model,
            (None, None) => true,
            _ => false,
        },
{
    let pieces = split_whitespace(text);
    if pieces.len() == 0 {
        None
    } else {
        Some(join_texts(&pieces, " "))
    }
}

/// Whether the white space of a text is single spaces between other characters.
pub open spec fn is_collapsed(text: Seq<char>) -> bool {
    forall|i: int|
        0 <= i < text.len() && is_space(#[trigger] text[i]) ==> {
            &&& text[i] == ' '
            &&& 0 < i < text.len() - 1
            &&& !is_space(text[i - 1])
            &&& !is_space(text[i + 1])
        }
}

/// A text has nothing left when it is collapsed exactly where it is all white space. What is left of
/// any other has the same words with single spaces between them and no other white space, and stays
/// as it is when it is collapsed again.
pub proof fn lemma_collapsed_stays(text: Seq<char>)
    ensures
        collapsed(text) is None <==> forall|i: int| 0 <= i < text.len() ==> is_space(#[trigger] text[i]),
        collapsed(text) matches Some(rest) ==> {
            &&& words(rest) == words(text)
            &&& is_collapsed(rest)
            &&& collapsed(rest) == Some(rest)
        },
{
    lemma_words_are_clean(text);
    lemma_no_words(text);
    let list = words(text);
    if list.len() > 0 {
        lemma_joined_words(list);
    }
}

/// Whether a text is a word: it is not empty and holds no white space.
spec fn is_word(text: Seq<char>) -> bool {
    text.len() > 0 && forall|i: int| 0 <= i < text.len() ==> !is_space(#[trigger] text[i])
}

proof fn lemma_words_are_clean(text: Seq<char>)
    ensures
        forall|k: int| 0 <= k < words(text).len() ==> is_word(#[trigger] words(text)[k]),
        forall|k: int|
            0 <= k < words_so_far(text).0.len() ==> is_word(#[trigger] words_so_far(text).0[k]),
        forall|i: int|
            0 <= i < words_so_far(text).1.len() ==> !is_space(#[trigger] words_so_far(text).1[i]),
    decreases text.len(),
{
    let (list, last) = words_so_far(text);
    if text.len() > 0 {
        lemma_words_are_clean(text.drop_last());
        let (before, word) = words_so_far(text.drop_last());
        assert forall|k: int| 0 <= k < list.len() implies is_word(#[trigger] list[k]) by {
            if k < before.len() {
                assert(list[k] == before[k]);
            } else {
                assert(list[k] == word);
            }
        }
        assert forall|i: int| 0 <= i < last.len() implies !is_space(#[trigger] last[i]) by {
            if i < word.len() {
                assert(last[i] == word[i]);
            }
        }
    }
    assert forall|k: int| 0 <= k < words(text).len() implies is_word(#[trigger] words(text)[k]) by {
        if k < list.len() {
            assert(words(text)[k] == list[k]);
        } else {
            assert(words(text)[k] == last);
        }
    }
}

proof fn lemma_no_words(text: Seq<char>)
    ensures
        words(text).len() == 0 <==> forall|i: int|
            0 <= i < text.len() ==> is_space(#[trigger] text[i]),
    decreases text.len(),
{
    if text.len() > 0 {
        let rest = text.drop_last();
        lemma_no_words(rest);
        assert(text.last() == text[text.len() - 1]);
        if forall|i: int| 0 <= i < text.len() ==> is_space(#[trigger] text[i]) {
            assert forall|i: int| 0 <= i < rest.len() implies is_space(#[trigger] rest[i]) by {
                assert(rest[i] == text[i]);
            }
        }
        if words(text).len() == 0 {
            assert forall|i: int| 0 <= i < text.len() implies is_space(#[trigger] text[i]) by {
                if i < rest.len() {
                    assert(rest[i] == text[i]);
                }
            }
        }
    }
}

/// A word behind a text goes on with the word that the text ends in.
proof fn lemma_word_goes_on(text: Seq<char>, word: Seq<char>)
    requires
        forall|i: int| 0 <= i < word.len() ==> !is_space(#[trigger] word[i]),
    ensures
        words_so_far(text + word) == (words_so_far(text).0, words_so_far(text).1 + word),
    decreases word.len(),
{
    if word.len() == 0 {
        assert(text + word =~= text);
        assert(words_so_far(text).1 + word =~= words_so_far(text).1);
    } else {
        lemma_word_goes_on(text, word.drop_last());
        assert((text + word).drop_last() =~= text + word.drop_last());
        assert((text + word).last() == word[word.len() - 1]);
        assert((words_so_far(text).1 + word.drop_last()).push(word.last())
            =~= words_so_far(text).1 + word);
    }
}

proof fn lemma_joined_words(list: Seq<Seq<char>>)
    requires
        list.len() > 0,
        forall|k: int| 0 <= k < list.len() ==> is_word(#[trigger] list[k]),
    ensures
        words_so_far(joined(list, " "@)) == (list.drop_last(), list.last()),
        words(joined(list, " "@)) == list,
        is_collapsed(joined(list, " "@)),
        joined(list, " "@).len() > 0,
    decreases list.len(),
{
    reveal_strlit(" ");
    let all = joined(list, " "@);
    let word = list.last();
    assert(is_word(list[list.len() - 1]));
    if list.len() == 1 {
        lemma_word_goes_on(Seq::empty(), word);
        assert(Seq::<char>::empty() + word =~= word);
        assert(list.drop_last() =~= Seq::empty());
    } else {
        let before = joined(list.drop_last(), " "@);
        assert forall|k: int| 0 <= k < list.drop_last().len() implies is_word(
            #[trigger] list.drop_last()[k],
        ) by {
            assert(list.drop_last()[k] == list[k]);
        }
        lemma_joined_words(list.drop_last());
        let spaced = before + " "@;
        assert(spaced.drop_last() =~= before);
        assert(spaced.last() == ' ');
        assert(is_space(' '));
        assert(is_word(list.drop_last().last())) by {
            assert(list.drop_last()[list.len() - 2] == list.drop_last().last());
        }
        assert(list.drop_last().drop_last().push(list.drop_last().last()) =~= list.drop_last());
        lemma_word_goes_on(spaced, word);
        assert(Seq::<char>::empty() + word =~= word);
        assert(all == spaced + word);
        assert forall|i: int| 0 <= i < all.len() && is_space(#[trigger] all[i]) implies {
            &&& all[i] == ' '
            &&& 0 < i < all.len() - 1
            &&& !is_space(all[i - 1])
            &&& !is_space(all[i + 1])
        } by {
            if i < before.len() {
                assert(all[i] == before[i]);
                assert(all[i - 1] == before[i - 1]);
                assert(all[i + 1] == before[i + 1]);
            } else if i == before.len() {
                assert(all[i - 1] == before[i - 1]);
                assert(all[i + 1] == word[0]);
            } else {
                assert(all[i] == word[i - before.len() - 1]);
            }
        }
    }
    assert(list.drop_last().push(word) =~= list);
}

/// A whole number of pixels that an attribute gives, else 150.
pub open spec fn pixels(attributes: AttributesModel, name: Seq<char>) -> u32 {
    match lookup(attributes, name) {
        Some(value) => match unsigned_value(value, 10, u32::MAX as int) {
            Some(pixels) => pixels as u32,
            None => 150,
        },
        None => 150,
    }
}

fn get_pixels(attributes: &Attributes, name: &str) -> (r: u32)
    ensures
        r == pixels(attributes@, name@),
{
    match attributes.get_str(name) {
        Some(value) => match parse_text(value.as_str(), u32::MAX as u64) {
            Some(pixels) => pixels as u32,
            None => 150,
        },
        None => 150,
    }
}

/// The size of the drawing of a canvas: that of its attributes, each 150 where it gives none. Only
/// an element has one.
pub open spec fn canvas_size(node: NodeModel) -> Option<Size> {
    match node {
        NodeModel::Element { tag: _, attributes, parent: _ } => Some(
            Size { width: pixels(attributes, "width"@), height: pixels(attributes, "height"@) },
        ),
        _ => None,
    }
}

pub fn get_canvas_wh(node: &Node) -> (r: Option<Size>)
    ensures
        r == canvas_size(node@),
{
    match node {
        Node::Element(element) => Some(
            Size {
                width: get_pixels(&element.attributes, "width"),
                height: get_pixels(&element.attributes, "height"),
            },
        ),
        _ => None,
    }
}

/// What the `value` of an element means to layout.
pub open spec fn input_value(attributes: AttributesModel) -> InputValue {
    match lookup(attributes, "value"@) {
        None => InputValue::Absent,
        Some(value) => if value.len() == 0 {
            InputValue::Absent
        } else if collapsed(value) is None {
            InputValue::Blank
        } else {
            InputValue::Given
        },
    }
}

fn get_input_value(attributes: &Attributes) -> (r: InputValue)
    ensures
        r == input_value(attributes@),
{
    match attributes.get_str("value") {
        None => InputValue::Absent,
        Some(value) => if same_text(value.as_str(), "") {
            proof {
                reveal_strlit("");
            }
            InputValue::Absent
        } else {
            proof {
                reveal_strlit("");
                assert(value@.len() == 0 ==> value@ =~= ""@);
            }
            match collapse_whitespace(value.as_str()) {
                None => InputValue::Blank,
                Some(_) => InputValue::Given,
            }
        },
    }
}

/// What a node is to layout. `frame` is the size of an `iframe` that could be opened.
pub open spec fn shape(nodes: NodesModel, idx: usize, frame: Option<Size>) -> Shape {
    match node_at(nodes, idx) {
        None => Shape::Comment,
        Some(NodeModel::Comment { comment: _, parent: _ }) => Shape::Comment,
        Some(NodeModel::Text { text: _, parent: _ }) => Shape::Text,
        Some(NodeModel::Element { tag, attributes, parent: _ }) => if tag == "svg"@ || tag
            == "video"@ {
            Shape::Drawing
        } else if tag == "img"@ {
            Shape::Image
        } else if tag == "canvas"@ {
            Shape::Canvas {
                width: pixels(attributes, "width"@),
                height: pixels(attributes, "height"@),
            }
        } else if tag == "iframe"@ {
            Shape::Frame(frame)
        } else if tag == "br"@ {
            Shape::Break
        } else {
            Shape::Element(input_value(attributes))
        },
    }
}

/// What a node is to layout. `frame` is the size of an `iframe` that could be opened.
pub fn shape_of(nodes: &NodesTable, idx: usize, frame: Option<Size>) -> (r: Shape)
    ensures
        r == shape(nodes@, idx, frame),
{
    let element = match nodes.get(idx) {
        None => {
            return Shape::Comment;
        },
        Some(Node::Comment(_)) => {
            return Shape::Comment;
        },
        Some(Node::Text(_)) => {
            return Shape::Text;
        },
        Some(Node::Element(element)) => element,
    };
    let tag = element.tag.as_str();
    if same_text(tag, "svg") || same_text(tag, "video") {
        Shape::Drawing
    } else if same_text(tag, "img") {
        Shape::Image
    } else if same_text(tag, "canvas") {
        Shape::Canvas {
            width: get_pixels(&element.attributes, "width"),
            height: get_pixels(&element.attributes, "height"),
        }
    } else if same_text(tag, "iframe") {
        Shape::Frame(frame)
    } else if same_text(tag, "br") {
        Shape::Break
    } else {
        Shape::Element(get_input_value(&element.attributes))
    }
}

/// Whether layout reads of a node what the document says of it.
pub open spec fn describes_node(
    node: LayoutNode,
    idx: usize,
    nodes: NodesModel,
    children: ChildrenModel,
    styles: Seq<Option<LayoutStyle>>,
    frames: Seq<Option<Size>>,
) -> bool {
    &&& node.shape == shape(
        nodes,
        idx,
        if idx < frames.len() {
            frames[idx as int]
        } else {
            None
        },
    )
    &&& node.parent == parent_of(nodes, idx)
    &&& node.children@ == (match children_at(children, idx) {
        Some(list) => list,
        None => Seq::empty(),
    })
    &&& node.style == (if idx < styles.len() {
        styles[idx as int]
    } else {
        None
    })
}

/// Whether layout is asked for the nodes of a document, with their parents, children and styles.
pub open spec fn describes(
    input: LayoutInput,
    nodes: NodesModel,
    children: ChildrenModel,
    styles: Seq<Option<LayoutStyle>>,
    frames: Seq<Option<Size>>,
) -> bool {
    &&& input.nodes@.len() == nodes.len()
    &&& forall|idx: usize|
        idx < nodes.len() ==> describes_node(
            #[trigger] input.nodes@[idx as int],
            idx,
            nodes,
            children,
            styles,
            frames,
        )
}

/// What layout is asked for: all nodes of a document with their styles. `frames` holds the sizes of
/// the `iframe` elements that could be opened.
pub fn get_layout_input(
    nodes: &NodesTable,
    children: &ChildrenIndex,
    styles: Vec<Option<LayoutStyle>>,
    frames: &Vec<Option<Size>>,
    root: usize,
    window: Size,
    blank_image: usize,
) -> (r: LayoutInput)
    ensures
        describes(r, nodes@, children@, styles@, frames@),
        r.root == root,
        r.window == window,
        r.blank_image == blank_image,
{
    let ghost all = styles@;
    let mut left = styles;
    let mut list: Vec<LayoutNode> = Vec::new();
    let count: usize = nodes.data.len();
    let mut at: usize = 0;
    while at < count
        invariant
            at <= count,
            count == nodes@.len(),
            count == nodes.data@.len(),
            list@.len() == at,
            left@.len() == all.len(),
            forall|i: int| at <= i < all.len() ==> #[trigger] left@[i] == all[i],
            forall|idx: usize|
                idx < at ==> describes_node(
                    #[trigger] list@[idx as int],
                    idx,
                    nodes@,
                    children@,
                    all,
                    frames@,
                ),
        decreases count - at,
    {
        let frame: Option<Size> = if at < frames.len() {
            frames[at]
        } else {
            None
        };
        let mut style: Option<LayoutStyle> = None;
        if at < left.len() {
            std::mem::swap(&mut style, &mut left[at]);
        }
        let node = LayoutNode {
            shape: shape_of(nodes, at, frame),
            parent: nodes.parent(at),
            children: children.list_or_empty(at),
            style,
        };
        list.push(node);
        at = at + 1;
    }
    LayoutInput { nodes: list, root, window, blank_image }
}

} // verus!
