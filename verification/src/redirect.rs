//! Pages that ask to be left for another one.
use vstd::prelude::*;

use crate::dom::lookup;
use crate::dom::node_at;
use crate::dom::AttributesModel;
use crate::dom::Element;
use crate::dom::Node;
use crate::dom::NodeModel;
use crate::dom::NodesModel;
use crate::dom::NodesTable;
use crate::forms::eq_ignore_ascii_case;
use crate::forms::same_ignoring_case;
use crate::numbers::is_float;
use crate::numbers::is_float_text;
use crate::subtree::depth_of;
use crate::subtree::lemma_child_is_lower;
use crate::subtree::tree_like;
use crate::text::find_char;
use crate::text::from_range;
use crate::text::index_of;
use crate::text::lemma_index_of;
use crate::text::same_text;
use crate::text::starts;
use crate::text::strip_prefix;
use crate::text::to_chars;
use crate::tree::children_at;
use crate::tree::ChildrenIndex;
use crate::tree::ChildrenModel;
use crate::urls::join_url;
use crate::urls::joined_url;
use crate::urls::optional_view;

verus! {

/// Where the content of an instruction leads: a delay, a semicolon, and an address relative to the
/// page. The delay must be a number, but nobody waits.
pub open spec fn instruction_target(content: Seq<char>, url: Seq<char>) -> Option<Seq<char>> {
    let at = index_of(content, ';');
    let rest = content.skip(at + 1);
    if at < content.len() && starts(rest, "url="@) && is_float_text(content.take(at)) {
        joined_url(url, rest.skip("url="@.len() as int))
    } else {
        None
    }
}

/// Where an element tells to go.
pub open spec fn element_target(tag: Seq<char>, attributes: AttributesModel, url: Seq<char>) -> Option<
    Seq<char>,
> {
    if tag == "meta"@ {
        match lookup(attributes, "http-equiv"@) {
            Some(kind) => if same_ignoring_case(kind, "refresh"@) {
                match lookup(attributes, "content"@) {
                    Some(content) => instruction_target(content, url),
                    None => None,
                }
            } else {
                None
            },
            None => None,
        }
    } else {
        None
    }
}

/// Where a node or the first node below it that says so tells to go. What is only for pages without
/// scripts does not count.
pub open spec fn redirect_from(
    nodes: NodesModel,
    children: ChildrenModel,
    url: Seq<char>,
    idx: usize,
) -> Option<Seq<char>>
    decreases depth_of(children)(idx), 1int, 0nat,
    when tree_like(children)
{
    match node_at(nodes, idx) {
        None => None,
        Some(node) => {
            let own = match node {
                NodeModel::Element { tag, attributes, parent } => element_target(
                    tag,
                    attributes,
                    url,
                ),
                _ => None,
            };
            match own {
                Some(target) => Some(target),
                None => if node.has_tag("noscript"@) {
                    None
                } else {
                    match children_at(children, idx) {
                        Some(list) => redirect_in(nodes, children, url, idx, list, list.len()),
                        None => None,
                    }
                },
            }
        },
    }
}

/// Where the first of some children that says so tells to go.
pub open spec fn redirect_in(
    nodes: NodesModel,
    children: ChildrenModel,
    url: Seq<char>,
    parent: usize,
    list: Seq<usize>,
    count: nat,
) -> Option<Seq<char>>
    decreases depth_of(children)(parent), 0int, count,
    when tree_like(children)
{
    if count == 0 || count > list.len() {
        None
    } else {
        match redirect_in(nodes, children, url, parent, list, (count - 1) as nat) {
            Some(target) => Some(target),
            None => if depth_of(children)(list[count - 1]) < depth_of(children)(parent) {
                redirect_from(nodes, children, url, list[count - 1])
            } else {
                None
            },
        }
    }
}

proof fn lemma_redirect_found(
    nodes: NodesModel,
    children: ChildrenModel,
    url: Seq<char>,
    parent: usize,
    list: Seq<usize>,
    count: nat,
    more: nat,
)
    requires
        tree_like(children),
        count <= more <= list.len(),
        redirect_in(nodes, children, url, parent, list, count) is Some,
    ensures
        redirect_in(nodes, children, url, parent, list, more) == redirect_in(
            nodes,
            children,
            url,
            parent,
            list,
            count,
        ),
    decreases more,
{
    if count < more {
        lemma_redirect_found(nodes, children, url, parent, list, count, (more - 1) as nat);
    }
}

fn get_instruction_target(content: &str, url: &str) -> (r: Option<String>)
    ensures
        optional_view(r) == instruction_target(content@, url@),
{
    let chars = to_chars(content);
    let at: usize = find_char(&chars, 0, ';');
    proof {
        assert(chars@.skip(0) =~= chars@);
        lemma_index_of(chars@, ';');
    }
    if at >= chars.len() {
        return None;
    }
    let delay = from_range(&chars, 0, at);
    let rest = from_range(&chars, at + 1, chars.len());
    proof {
        assert(delay@ =~= content@.take(at as int));
        assert(rest@ =~= content@.skip(at + 1));
    }
    match strip_prefix(rest.as_str(), "url=") {
        Some(target) => {
            if is_float(delay.as_str()) {
                join_url(url, target.as_str())
            } else {
                None
            }
        },
        None => None,
    }
}

fn get_element_target(element: &Element, url: &str) -> (r: Option<String>)
    ensures
        optional_view(r) == element_target(element.tag@, element.attributes@, url@),
{
    if !same_text(element.tag.as_str(), "meta") {
        return None;
    }
    match element.attributes.get_str("http-equiv") {
        Some(kind) => {
            if !eq_ignore_ascii_case(kind.as_str(), "refresh") {
                return None;
            }
        },
        None => {
            return None;
        },
    }
    match element.attributes.get_str("content") {
        Some(content) => get_instruction_target(content.as_str(), url),
        None => None,
    }
}

fn detect_html_redirect_walk(nodes: &NodesTable, index: &ChildrenIndex, url: &str, idx: usize) -> (r:
    Option<String>)
    requires
        tree_like(index@),
    ensures
        optional_view(r) == redirect_from(nodes@, index@, url@, idx),
    decreases depth_of(index@)(idx),
{
    let node = match nodes.get(idx) {
        Some(node) => node,
        None => {
            return None;
        },
    };
    match node {
        Node::Element(element) => match get_element_target(element, url) {
            Some(target) => {
                return Some(target);
            },
            None => {},
        },
        _ => {},
    }
    if node.is_element("noscript") {
        return None;
    }
    let list = match index.get(idx) {
        Some(list) => list,
        None => {
            return None;
        },
    };
    let mut at: usize = 0;
    while at < list.len()
        invariant
            at <= list@.len(),
            tree_like(index@),
            children_at(index@, idx) == Some(list@),
            redirect_from(nodes@, index@, url@, idx) == redirect_in(
                nodes@,
                index@,
                url@,
                idx,
                list@,
                list@.len(),
            ),
            redirect_in(nodes@, index@, url@, idx, list@, at as nat) is None,
        decreases list@.len() - at,
    {
        proof {
            lemma_child_is_lower(index@, idx, at as int);
        }
        match detect_html_redirect_walk(nodes, index, url, list[at]) {
            Some(target) => {
                proof {
                    lemma_redirect_found(
                        nodes@,
                        index@,
                        url@,
                        idx,
                        list@,
                        (at + 1) as nat,
                        list@.len(),
                    );
                }
                return Some(target);
            },
            None => {},
        }
        at = at + 1;
    }
    None
}

/// Where a page at `url` tells to go; nothing where it does not.
pub fn detect_html_redirect(nodes: &NodesTable, index: &ChildrenIndex, url: &str, root: usize) -> (r:
    Option<String>)
    requires
        tree_like(index@),
    ensures
        optional_view(r) == redirect_from(nodes@, index@, url@, root),
{
    detect_html_redirect_walk(nodes, index, url, root)
}

} // verus!
