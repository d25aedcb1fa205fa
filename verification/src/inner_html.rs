//! Nodes that a script writes as text.
use vstd::prelude::*;

use crate::document::all_reached;
use crate::document::grown_parent;
use crate::document::lemma_outside;
use crate::document::numbered;
use crate::document::outside;
use crate::document::Document;
use crate::document::DocumentModel;
use crate::dom::parent_of;
use crate::dom::NodeModel;
use crate::html::BuildPhase;
use crate::html::HtmlParser;
use crate::html::ParserModel;
use crate::tree::indexes;

verus! {

/// Why a text cannot become nodes.
#[derive(Debug, Clone, Copy, PartialEq, Eq, Structural)]
pub enum FragmentError {
    /// A tag is closed while no element is open.
    NoOpenElement,
    /// There are no numbers left for the nodes.
    TooMany,
}

/// What a text comes to.
pub open spec fn parsed_text(html: Seq<char>) -> (ParserModel, bool) {
    (ParserModel {
        stage: BuildPhase::Start,
        tag: Seq::empty(),
        value: Seq::empty(),
        nodes: Seq::empty(),
        traces: Seq::empty(),
        node: None,
    }).parsed(html)
}

/// The nodes that a text writes, where they can be added to so many.
pub open spec fn fragment(html: Seq<char>, cursor: int) -> Result<Seq<NodeModel>, FragmentError> {
    let (end, complete) = parsed_text(html);
    if !complete {
        Err(FragmentError::NoOpenElement)
    } else if cursor + end.nodes.len() >= usize::MAX {
        Err(FragmentError::TooMany)
    } else {
        Ok(end.nodes)
    }
}

/// Adds the nodes that a text writes: those without a parent below the given one. Nothing changes
/// where the text cannot become nodes.
pub fn create_children_from_html(doc: &mut Document, parent_idx: usize, html: String) -> (r: Result<
    (),
    FragmentError,
>)
    ensures
        match fragment(html@, old(doc)@.cursor as int) {
            Ok(nodes) => r == Ok::<(), FragmentError>(()) && final(doc)@ == old(doc)@.grown(
                parent_idx,
                nodes,
            ),
            Err(error) => r == Err::<(), FragmentError>(error) && final(doc)@ == old(doc)@,
        },
{
    let mut parser = HtmlParser::new(html);
    if parser.parse().is_err() {
        return Err(FragmentError::NoOpenElement);
    }
    let count: usize = parser.nodes.len();
    assert(parser@.nodes.len() == count);
    if doc.nodes.cursor >= usize::MAX - count {
        return Err(FragmentError::TooMany);
    }
    doc.insert_nodes(parent_idx, &parser.nodes);
    assert(Seq::new(parser.nodes@.len(), |i: int| parser.nodes@[i]@) =~= parser@.nodes);
    Ok(())
}

/// A document with nodes in the place of everything below a node; the lists of children are those
/// of before, without what is gone.
pub open spec fn replaced_below(
    doc: DocumentModel,
    parent_idx: usize,
    nodes: Seq<NodeModel>,
) -> DocumentModel {
    doc.children_removed(parent_idx).grown(parent_idx, nodes)
}

proof fn lemma_replaced_is_numbered(doc: DocumentModel, parent_idx: usize, nodes: Seq<NodeModel>)
    requires
        numbered(doc),
        parent_idx < usize::MAX,
        doc.cursor + nodes.len() < usize::MAX,
    ensures
        numbered(replaced_below(doc, parent_idx, nodes)),
{
    let gone = all_reached(doc.children, doc.list_of(parent_idx));
    let rest = doc.children_removed(parent_idx);
    let end = replaced_below(doc, parent_idx, nodes);
    let first = doc.cursor + 1;
    assert forall|i: int| 0 <= i < end.order.len() implies {
        &&& (#[trigger] end.order[i]) < usize::MAX
        &&& parent_of(end.nodes, end.order[i]) matches Some(parent) ==> parent < usize::MAX
    } by {
        let idx = end.order[i];
        if i < rest.order.len() {
            assert(idx == rest.order[i]);
            lemma_outside(doc.order, gone, idx);
            assert(outside(doc.order, gone).contains(idx));
            let j = choose|j: int| 0 <= j < doc.order.len() && doc.order[j] == idx;
            assert(doc.order[j] < usize::MAX);
        } else {
            assert(idx == first + (i - rest.order.len()));
        }
        if first <= idx < first + nodes.len() {
            assert(parent_of(end.nodes, idx) == grown_parent(nodes, first, parent_idx, idx - first));
        }
    }
}

/// Puts the nodes that a text writes in the place of everything below a node, and lists the
/// children of every node anew. Nothing changes where the text cannot become nodes.
pub fn replace_inner_html(doc: &mut Document, parent_idx: usize, html: String) -> (r: Result<
    (),
    FragmentError,
>)
    requires
        parent_idx < usize::MAX,
        numbered(old(doc)@),
    ensures
        match fragment(html@, old(doc)@.cursor as int) {
            Ok(nodes) => {
                let end = replaced_below(old(doc)@, parent_idx, nodes);
                &&& r == Ok::<(), FragmentError>(())
                &&& final(doc)@.nodes == end.nodes
                &&& final(doc)@.order == end.order
                &&& final(doc)@.cursor == end.cursor
                &&& indexes(final(doc)@.children, end.nodes, end.order)
            },
            Err(error) => r == Err::<(), FragmentError>(error) && final(doc)@ == old(doc)@,
        },
{
    let ghost before = doc@;
    let mut parser = HtmlParser::new(html);
    if parser.parse().is_err() {
        return Err(FragmentError::NoOpenElement);
    }
    let count: usize = parser.nodes.len();
    assert(parser@.nodes.len() == count);
    if doc.nodes.cursor >= usize::MAX - count {
        return Err(FragmentError::TooMany);
    }
    doc.remove_children(parent_idx);
    doc.insert_nodes(parent_idx, &parser.nodes);
    assert(Seq::new(parser.nodes@.len(), |i: int| parser.nodes@[i]@) =~= parser@.nodes);
    proof {
        lemma_replaced_is_numbered(before, parent_idx, parser@.nodes);
    }
    doc.rebuild_children();
    Ok(())
}

} // verus!
