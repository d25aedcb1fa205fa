//! What lies below a node: its order, its text and its markup.
use vstd::prelude::*;

use crate::dom::node_at;
use crate::dom::AttributesModel;
use crate::dom::Attributes;
use crate::dom::Node;
use crate::dom::NodeModel;
use crate::dom::NodesModel;
use crate::dom::NodesTable;
use crate::text::push_text;
use crate::tree::children_at;
use crate::tree::ChildrenIndex;
use crate::tree::ChildrenModel;

verus! {

/// The child of a node at a place in its list.
pub open spec fn child_of(children: ChildrenModel, idx: usize, k: int) -> Option<usize> {
    match children_at(children, idx) {
        Some(list) => if 0 <= k < list.len() {
            Some(list[k])
        } else {
            None
        },
        None => None,
    }
}

/// Every child has a smaller depth than its parent.
pub open spec fn descends(children: ChildrenModel, depth: spec_fn(usize) -> nat) -> bool {
    forall|idx: usize, k: int|
        (#[trigger] child_of(children, idx, k)) matches Some(child) ==> depth(child) < depth(idx)
}

/// Following children ends: no node lies below itself.
pub open spec fn tree_like(children: ChildrenModel) -> bool {
    exists|depth: spec_fn(usize) -> nat| descends(children, depth)
}

pub open spec fn depth_of(children: ChildrenModel) -> spec_fn(usize) -> nat {
    choose|depth: spec_fn(usize) -> nat| descends(children, depth)
}

pub(crate) proof fn lemma_child_is_lower(children: ChildrenModel, idx: usize, k: int)
    requires
        tree_like(children),
        children_at(children, idx) is Some,
        0 <= k < children_at(children, idx)->0.len(),
    ensures
        depth_of(children)(children_at(children, idx)->0[k]) < depth_of(children)(idx),
{
    assert(descends(children, depth_of(children)));
    assert(child_of(children, idx, k) == Some(children_at(children, idx)->0[k]));
}

/// A node and everything below it, each node before its children.
pub open spec fn preorder(children: ChildrenModel, idx: usize) -> Seq<usize>
    decreases depth_of(children)(idx), 1int, 0nat,
    when tree_like(children)
{
    match children_at(children, idx) {
        Some(list) => seq![idx] + preorder_list(children, idx, list),
        None => seq![idx],
    }
}

/// The nodes of a list and everything below them; the list holds children of `parent`.
pub open spec fn preorder_list(
    children: ChildrenModel,
    parent: usize,
    list: Seq<usize>,
) -> Seq<usize>
    decreases depth_of(children)(parent), 0int, list.len(),
    when tree_like(children)
{
    if list.len() == 0 {
        Seq::empty()
    } else {
        preorder_list(children, parent, list.drop_last()) + (if depth_of(children)(list.last())
            < depth_of(children)(parent) {
            preorder(children, list.last())
        } else {
            Seq::empty()
        })
    }
}

/// Appends a node and everything below it, each node before its children.
pub fn collect_preorder(index: &ChildrenIndex, idx: usize, buffer: &mut Vec<usize>)
    requires
        tree_like(index@),
    ensures
        final(buffer)@ == old(buffer)@ + preorder(index@, idx),
    decreases depth_of(index@)(idx), 1int,
{
    let ghost start = buffer@;
    buffer.push(idx);
    match index.get(idx) {
        Some(list) => {
            collect_preorder_list(index, idx, list, buffer);
            assert(buffer@ =~= start + (seq![idx] + preorder_list(index@, idx, list@)));
        },
        None => {
            assert(buffer@ =~= start + seq![idx]);
        },
    }
}

fn collect_preorder_list(
    index: &ChildrenIndex,
    parent: usize,
    list: &Vec<usize>,
    buffer: &mut Vec<usize>,
)
    requires
        tree_like(index@),
        children_at(index@, parent) == Some(list@),
    ensures
        final(buffer)@ == old(buffer)@ + preorder_list(index@, parent, list@),
    decreases depth_of(index@)(parent), 0int,
{
    let ghost start = buffer@;
    let mut at: usize = 0;
    assert(buffer@ =~= start + Seq::<usize>::empty());
    while at < list.len()
        invariant
            at <= list@.len(),
            tree_like(index@),
            children_at(index@, parent) == Some(list@),
            buffer@ == start + preorder_list(index@, parent, list@.take(at as int)),
        decreases list@.len() - at,
    {
        let ghost taken = list@.take(at + 1);
        let ghost before = preorder_list(index@, parent, list@.take(at as int));
        proof {
            assert(taken.drop_last() =~= list@.take(at as int));
            lemma_child_is_lower(index@, parent, at as int);
        }
        collect_preorder(index, list[at], buffer);
        proof {
            assert(buffer@ =~= start + (before + preorder(index@, list@[at as int])));
        }
        at = at + 1;
    }
    assert(list@.take(list@.len() as int) =~= list@);
}

/// Everything below a node, each node before its children.
pub fn descendants(index: &ChildrenIndex, idx: usize) -> (r: Vec<usize>)
    requires
        tree_like(index@),
    ensures
        r@ == (match children_at(index@, idx) {
            Some(list) => preorder_list(index@, idx, list),
            None => Seq::empty(),
        }),
{
    let mut buffer: Vec<usize> = Vec::new();
    match index.get(idx) {
        Some(list) => {
            collect_preorder_list(index, idx, list, &mut buffer);
            assert(buffer@ =~= preorder_list(index@, idx, list@));
        },
        None => {},
    }
    buffer
}

/// The text of a node: its own, or that of everything below an element, in order.
pub open spec fn text_of(nodes: NodesModel, children: ChildrenModel, idx: usize) -> Seq<char>
    decreases depth_of(children)(idx), 1int, 0nat,
    when tree_like(children)
{
    match node_at(nodes, idx) {
        Some(NodeModel::Text { text, parent }) => text,
        Some(NodeModel::Element { tag, attributes, parent }) => match children_at(children, idx) {
            Some(list) => text_of_list(nodes, children, idx, list),
            None => Seq::empty(),
        },
        _ => Seq::empty(),
    }
}

pub open spec fn text_of_list(
    nodes: NodesModel,
    children: ChildrenModel,
    parent: usize,
    list: Seq<usize>,
) -> Seq<char>
    decreases depth_of(children)(parent), 0int, list.len(),
    when tree_like(children)
{
    if list.len() == 0 {
        Seq::empty()
    } else {
        text_of_list(nodes, children, parent, list.drop_last()) + (if depth_of(children)(
            list.last(),
        ) < depth_of(children)(parent) {
            text_of(nodes, children, list.last())
        } else {
            Seq::empty()
        })
    }
}

/// The text of a node: its own, or that of everything below an element, in order.
pub fn get_text_content(nodes: &NodesTable, index: &ChildrenIndex, idx: usize) -> (r: String)
    requires
        tree_like(index@),
    ensures
        r@ == text_of(nodes@, index@, idx),
    decreases depth_of(index@)(idx), 1int,
{
    match nodes.get(idx) {
        Some(Node::Text(element)) => element.text.clone(),
        Some(Node::Element(_)) => match index.get(idx) {
            Some(list) => text_of_children(nodes, index, idx, list),
            None => String::new(),
        },
        _ => String::new(),
    }
}

fn text_of_children(
    nodes: &NodesTable,
    index: &ChildrenIndex,
    parent: usize,
    list: &Vec<usize>,
) -> (r: String)
    requires
        tree_like(index@),
        children_at(index@, parent) == Some(list@),
    ensures
        r@ == text_of_list(nodes@, index@, parent, list@),
    decreases depth_of(index@)(parent), 0int,
{
    let mut text = String::new();
    let mut at: usize = 0;
    while at < list.len()
        invariant
            at <= list@.len(),
            tree_like(index@),
            children_at(index@, parent) == Some(list@),
            text@ == text_of_list(nodes@, index@, parent, list@.take(at as int)),
        decreases list@.len() - at,
    {
        proof {
            assert(list@.take(at + 1).drop_last() =~= list@.take(at as int));
            lemma_child_is_lower(index@, parent, at as int);
        }
        let own = get_text_content(nodes, index, list[at]);
        push_text(&mut text, own.as_str());
        at = at + 1;
    }
    assert(list@.take(list@.len() as int) =~= list@);
    text
}

/// The text of everything below a node.
pub fn get_element_text_content(nodes: &NodesTable, index: &ChildrenIndex, idx: usize) -> (r: String)
    requires
        tree_like(index@),
    ensures
        r@ == (match children_at(index@, idx) {
            Some(list) => text_of_list(nodes@, index@, idx, list),
            None => Seq::empty(),
        }),
{
    match index.get(idx) {
        Some(list) => text_of_children(nodes, index, idx, list),
        None => String::new(),
    }
}

/// The markup of attributes: a space, the name and the quoted value of each.
pub open spec fn attributes_markup(attributes: AttributesModel) -> Seq<char>
    decreases attributes.len(),
{
    if attributes.len() == 0 {
        Seq::empty()
    } else {
        attributes_markup(attributes.drop_last()) + seq![' '] + attributes.last().0 + seq![
            '=',
            '"',
        ] + attributes.last().1 + seq!['"']
    }
}

/// The markup of a node and everything below it. Text stands as it is.
pub open spec fn markup_of(nodes: NodesModel, children: ChildrenModel, idx: usize) -> Seq<char>
    decreases depth_of(children)(idx), 1int, 0nat,
    when tree_like(children)
{
    match node_at(nodes, idx) {
        Some(NodeModel::Text { text, parent }) => text,
        Some(NodeModel::Comment { comment, parent }) => seq!['<', '!', '-', '-'] + comment + seq![
            '-',
            '-',
            '>',
        ],
        Some(NodeModel::Element { tag, attributes, parent }) => seq!['<'] + tag
            + attributes_markup(attributes) + seq!['>'] + (match children_at(children, idx) {
            Some(list) => markup_of_list(nodes, children, idx, list),
            None => Seq::empty(),
        }) + seq!['<', '/'] + tag + seq!['>'],
        None => Seq::empty(),
    }
}

pub open spec fn markup_of_list(
    nodes: NodesModel,
    children: ChildrenModel,
    parent: usize,
    list: Seq<usize>,
) -> Seq<char>
    decreases depth_of(children)(parent), 0int, list.len(),
    when tree_like(children)
{
    if list.len() == 0 {
        Seq::empty()
    } else {
        markup_of_list(nodes, children, parent, list.drop_last()) + (if depth_of(children)(
            list.last(),
        ) < depth_of(children)(parent) {
            markup_of(nodes, children, list.last())
        } else {
            Seq::empty()
        })
    }
}

fn push_attributes(markup: &mut String, attributes: &Attributes)
    ensures
        final(markup)@ == old(markup)@ + attributes_markup(attributes@),
{
    let ghost start = markup@;
    let mut at: usize = 0;
    assert(markup@ =~= start + Seq::<char>::empty());
    while at < attributes.values.len()
        invariant
            at <= attributes.values@.len(),
            markup@ == start + attributes_markup(attributes@.take(at as int)),
        decreases attributes.values@.len() - at,
    {
        let ghost taken = attributes@.take(at + 1);
        let ghost before = attributes_markup(attributes@.take(at as int));
        proof {
            assert(taken.drop_last() =~= attributes@.take(at as int));
            assert(taken.last() == attributes@[at as int]);
        }
        markup.push(' ');
        push_text(markup, attributes.values[at].0.as_str());
        markup.push('=');
        markup.push('"');
        push_text(markup, attributes.values[at].1.as_str());
        markup.push('"');
        proof {
            assert(markup@ =~= start + (before + seq![' '] + attributes@[at as int].0 + seq![
                '=',
                '"',
            ] + attributes@[at as int].1 + seq!['"']));
        }
        at = at + 1;
    }
    assert(attributes@.take(attributes@.len() as int) =~= attributes@);
}

/// The markup of a node and everything below it.
pub fn get_element_html(nodes: &NodesTable, index: &ChildrenIndex, idx: usize) -> (r: String)
    requires
        tree_like(index@),
    ensures
        r@ == markup_of(nodes@, index@, idx),
    decreases depth_of(index@)(idx), 1int,
{
    let mut markup = String::new();
    match nodes.get(idx) {
        Some(Node::Text(element)) => {
            push_text(&mut markup, element.text.as_str());
            assert(markup@ =~= element.text@);
        },
        Some(Node::Comment(element)) => {
            markup.push('<');
            markup.push('!');
            markup.push('-');
            markup.push('-');
            push_text(&mut markup, element.comment.as_str());
            markup.push('-');
            markup.push('-');
            markup.push('>');
            assert(markup@ =~= seq!['<', '!', '-', '-'] + element.comment@ + seq!['-', '-', '>']);
        },
        Some(Node::Element(element)) => {
            markup.push('<');
            push_text(&mut markup, element.tag.as_str());
            push_attributes(&mut markup, &element.attributes);
            markup.push('>');
            let ghost opened = markup@;
            assert(opened =~= seq!['<'] + element.tag@ + attributes_markup(element.attributes@)
                + seq!['>']);
            let ghost inner: Seq<char> = match children_at(index@, idx) {
                Some(list) => markup_of_list(nodes@, index@, idx, list),
                None => Seq::empty(),
            };
            match index.get(idx) {
                Some(list) => {
                    let below = markup_of_children(nodes, index, idx, list);
                    push_text(&mut markup, below.as_str());
                },
                None => {},
            }
            assert(markup@ =~= opened + inner);
            markup.push('<');
            markup.push('/');
            push_text(&mut markup, element.tag.as_str());
            markup.push('>');
            assert(markup@ =~= opened + inner + seq!['<', '/'] + element.tag@ + seq!['>']);
        },
        None => {},
    }
    markup
}

fn markup_of_children(
    nodes: &NodesTable,
    index: &ChildrenIndex,
    parent: usize,
    list: &Vec<usize>,
) -> (r: String)
    requires
        tree_like(index@),
        children_at(index@, parent) == Some(list@),
    ensures
        r@ == markup_of_list(nodes@, index@, parent, list@),
    decreases depth_of(index@)(parent), 0int,
{
    let mut markup = String::new();
    let mut at: usize = 0;
    while at < list.len()
        invariant
            at <= list@.len(),
            tree_like(index@),
            children_at(index@, parent) == Some(list@),
            markup@ == markup_of_list(nodes@, index@, parent, list@.take(at as int)),
        decreases list@.len() - at,
    {
        proof {
            assert(list@.take(at + 1).drop_last() =~= list@.take(at as int));
            lemma_child_is_lower(index@, parent, at as int);
        }
        let own = get_element_html(nodes, index, list[at]);
        push_text(&mut markup, own.as_str());
        at = at + 1;
    }
    assert(list@.take(list@.len() as int) =~= list@);
    markup
}

/// The markup of everything below a node.
pub fn get_element_inner_html(nodes: &NodesTable, index: &ChildrenIndex, idx: usize) -> (r: String)
    requires
        tree_like(index@),
    ensures
        r@ == (match children_at(index@, idx) {
            Some(list) => markup_of_list(nodes@, index@, idx, list),
            None => Seq::empty(),
        }),
{
    match index.get(idx) {
        Some(list) => markup_of_children(nodes, index, idx, list),
        None => String::new(),
    }
}

} // verus!
