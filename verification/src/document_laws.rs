//! What changing a document promises: where a node goes, what stays as it was, and what is read of the
//! nodes afterwards.
use vstd::prelude::*;

use crate::document::all_reached;
use crate::document::cloned;
use crate::document::cloned_list;
use crate::document::lemma_outside;
use crate::document::lemma_place_of;
use crate::document::moved_before;
use crate::document::outside;
use crate::document::place_of;
use crate::document::reached;
use crate::document::DocumentModel;
use crate::dom::lemma_removed_name_is_gone;
use crate::dom::lookup;
use crate::dom::names_distinct;
use crate::dom::node_at;
use crate::dom::parent_of;
use crate::dom::with_node;
use crate::dom::without_node;
use crate::dom::AttributesModel;
use crate::dom::NodeModel;
use crate::dom::NodesModel;
use crate::index::has_name;
use crate::index::holders;
use crate::index::holders_below;
use crate::index::is_root;
use crate::index::lemma_without_member;
use crate::index::root_from;
use crate::index::root_of;
use crate::index::NameKind;
use crate::query::lists;
use crate::subtree::attributes_markup;
use crate::subtree::child_of;
use crate::subtree::depth_of;
use crate::subtree::lemma_child_is_lower;
use crate::subtree::markup_of;
use crate::subtree::markup_of_list;
use crate::subtree::preorder;
use crate::subtree::preorder_list;
use crate::subtree::text_of;
use crate::subtree::text_of_list;
use crate::subtree::tree_like;
use crate::tree::acyclic;
use crate::tree::children_at;
use crate::tree::climbs;
use crate::tree::first_flagged;
use crate::tree::lineage;
use crate::tree::rank_of;
use crate::tree::scroll_at;
use crate::tree::scroll_sum;
use crate::tree::with_list;
use crate::tree::without_list;
use crate::tree::ChildrenModel;
use crate::updates::without_attribute;
use crate::updates::IndexedAttributes;

verus! {

/// A node that is put at a number is found there, and no other number changes; one that is taken away is
/// gone, and the others stay.
pub proof fn lemma_nodes_are_kept(nodes: NodesModel, idx: usize, node: NodeModel, other: usize)
    requires
        nodes.len() <= usize::MAX,
    ensures
        node_at(with_node(nodes, idx, node), idx) == Some(node),
        other != idx ==> node_at(with_node(nodes, idx, node), other) == node_at(nodes, other),
        idx < nodes.len() ==> node_at(without_node(nodes, idx), idx) is None,
        idx < nodes.len() && other != idx ==> node_at(without_node(nodes, idx), other) == node_at(
            nodes,
            other,
        ),
{
}

/// A list of children that is given to a node is found there, and the lists of other nodes stay.
pub proof fn lemma_lists_are_kept(
    children: ChildrenModel,
    idx: usize,
    list: Seq<usize>,
    other: usize,
)
    ensures
        children_at(with_list(children, idx, list), idx) == Some(list),
        other != idx ==> children_at(with_list(children, idx, list), other) == children_at(
            children,
            other,
        ),
        children_at(without_list(children, idx), idx) is None,
        other != idx ==> children_at(without_list(children, idx), other) == children_at(
            children,
            other,
        ),
{
}

/// A node with another parent is otherwise the same node.
pub proof fn lemma_another_parent(node: NodeModel, parent: Option<usize>, name: Seq<char>)
    ensures
        node.with_parent(parent).parent_idx() == parent,
        node.with_parent(parent).with_parent(node.parent_idx()) == node,
        node.with_parent(parent).has_tag(name) == node.has_tag(name),
        node.with_parent(parent).attribute(name) == node.attribute(name),
        (node matches NodeModel::Text { text, .. }) ==> (node.with_parent(parent) matches NodeModel::Text {
            text: kept,
            ..
        } && kept == node->text),
{
}

/// A node that is appended is a child of its new parent, the last one, or the one right in front of the
/// child that was asked for. The other children keep their order, and so do the nodes themselves.
pub proof fn lemma_node_is_appended(
    doc: DocumentModel,
    parent: usize,
    idx: usize,
    before: Option<usize>,
    other: usize,
)
    requires
        doc.nodes.len() <= usize::MAX,
        node_at(doc.nodes, idx) is Some,
        before != Some(idx),
        idx != parent,
        other != idx,
    ensures
        ({
            let after = doc.appended(parent, idx, before);
            let left = doc.unlisted(parent_of(doc.nodes, idx), idx).list_of(parent);
            let list = after.list_of(parent);
            &&& parent_of(after.nodes, idx) == Some(parent)
            &&& node_at(after.nodes, other) == node_at(doc.nodes, other)
            &&& node_at(after.nodes, idx) == Some(
                node_at(doc.nodes, idx)->0.with_parent(Some(parent)),
            )
            &&& before is None ==> list == left.push(idx)
            &&& (before matches Some(place) && left.contains(place)) ==> exists|at: int|
                0 <= at < left.len() && left[at] == before->0 && list == #[trigger] left.insert(
                    at,
                    idx,
                ) && list[at + 1] == before->0
            &&& before is None ==> after.order == doc.order
        }),
{
    let after = doc.appended(parent, idx, before);
    let left = doc.unlisted(parent_of(doc.nodes, idx), idx).list_of(parent);
    let list = after.list_of(parent);
    match before {
        None => {
            assert(left.insert(left.len() as int, idx) =~= left.push(idx));
        },
        Some(place) => {
            if left.contains(place) {
                lemma_place_of(left, place);
                let at = place_of(left, place);
                let i = choose|i: int| 0 <= i < left.len() && left[i] == place;
                assert(left[i] == place);
                assert(list == left.insert(at, idx));
            }
        },
    }
}

/// A node that leaves a list is on it no more, and the others keep their order.
pub proof fn lemma_rest_keeps_its_order(list: Seq<usize>, gone: Set<usize>, x: usize)
    requires
        list.len() > 0,
    ensures
        gone.contains(list.last()) ==> outside(list, gone) == outside(list.drop_last(), gone),
        !gone.contains(list.last()) ==> outside(list, gone) == outside(list.drop_last(), gone).push(
            list.last(),
        ),
        outside(list, gone).contains(x) <==> list.contains(x) && !gone.contains(x),
{
    lemma_outside(list, gone, x);
}

/// A node that is moved in front of another in the order of the document stands right there, and the
/// others keep their order.
pub proof fn lemma_moved_before(order: Seq<usize>, idx: usize, before: usize)
    requires
        order.contains(idx),
        order.contains(before),
        idx != before,
    ensures
        moved_before(order, idx, before).len() == order.len(),
        exists|at: int|
            0 <= at < order.len() - 1 && #[trigger] moved_before(order, idx, before)[at] == idx
                && moved_before(order, idx, before)[at + 1] == before && moved_before(
                order,
                idx,
                before,
            ).remove(at) == order.remove(place_of(order, idx)),
{
    lemma_place_of(order, idx);
    lemma_place_of(order, before);
    let from = place_of(order, idx);
    let to = place_of(order, before);
    let i = choose|i: int| 0 <= i < order.len() && order[i] == idx;
    let j = choose|j: int| 0 <= j < order.len() && order[j] == before;
    assert(order[i] == idx && order[j] == before);
    let rest = order.remove(from);
    let at = if from < to {
        to - 1
    } else {
        to
    };
    let after = moved_before(order, idx, before);
    assert(after == rest.insert(at, idx));
    assert(after[at] == idx);
    assert(after.remove(at) =~= rest);
    assert(after[at + 1] == rest[at]);
    assert(rest[at] == before);
}

/// A node that is detached has no parent, and is otherwise as it was, with everything below it.
pub proof fn lemma_node_is_detached(doc: DocumentModel, idx: usize, other: usize)
    requires
        doc.nodes.len() <= usize::MAX,
        parent_of(doc.nodes, idx) matches Some(parent) && parent != idx,
        other != idx,
    ensures
        ({
            let after = doc.detached(idx);
            &&& parent_of(after.nodes, idx) is None
            &&& node_at(after.nodes, idx) == Some(node_at(doc.nodes, idx)->0.with_parent(None))
            &&& children_at(after.children, idx) == children_at(doc.children, idx)
            &&& node_at(after.nodes, other) == node_at(doc.nodes, other)
            &&& after.order == doc.order
        }),
{
}

/// Removing a node takes away the node and what lies below it, and nothing else.
pub proof fn lemma_removal_takes_what_is_below(doc: DocumentModel, idx: usize, x: usize)
    requires
        doc.nodes.len() <= usize::MAX,
    ensures
        ({
            let after = doc.removed(idx, true);
            &&& reached(doc.children, seq![idx], x) ==> node_at(after.nodes, x) is None
                && !after.order.contains(x)
            &&& !reached(doc.children, seq![idx], x) ==> {
                &&& node_at(after.nodes, x) == node_at(doc.nodes, x)
                &&& after.order.contains(x) == doc.order.contains(x)
            }
        }),
{
    let gone = all_reached(doc.children, seq![idx]);
    let left = doc.unlisted(parent_of(doc.nodes, idx), idx);
    assert(left.nodes == doc.nodes && left.order == doc.order);
    lemma_outside(doc.order, gone, x);
    assert(gone.contains(x) == reached(doc.children, seq![idx], x));
}

/// The text of a text node is replaced where it stands. An element has nothing below it afterwards but
/// one text node with the new text.
pub proof fn lemma_text_is_replaced(doc: DocumentModel, idx: usize, text: Seq<char>)
    requires
        doc.nodes.len() <= usize::MAX,
        doc.children.len() <= usize::MAX,
        idx <= doc.cursor,
        doc.cursor < usize::MAX - 1,
        node_at(doc.nodes, idx) is Some,
    ensures
        ({
            let after = doc.with_text(idx, text);
            let new = (doc.cursor + 1) as usize;
            &&& node_at(doc.nodes, idx)->0 is Text ==> node_at(after.nodes, idx) == Some(
                NodeModel::Text { text, parent: parent_of(doc.nodes, idx) },
            ) && after.children == doc.children
            &&& node_at(doc.nodes, idx)->0 is Element ==> {
                &&& after.list_of(idx) == seq![new]
                &&& node_at(after.nodes, new) == Some(NodeModel::Text { text, parent: Some(idx) })
                &&& after.list_of(new).len() == 0
                &&& after.cursor == new
                &&& after.order.last() == new
            }
        }),
{
}

/// A node that is added gets the next number, and the document ends with it.
pub proof fn lemma_node_is_added(doc: DocumentModel, node: NodeModel, other: usize)
    requires
        doc.cursor < usize::MAX,
        other != doc.cursor + 1,
    ensures
        node_at(doc.pushed(node).nodes, (doc.cursor + 1) as usize) == Some(node),
        node_at(doc.pushed(node).nodes, other) == node_at(doc.nodes, other),
        doc.pushed(node).cursor == doc.cursor + 1,
        doc.pushed(node).order == doc.order.push((doc.cursor + 1) as usize),
{
}

/// Several nodes get the next numbers in their order. Those without a parent become children of the
/// parent that was asked for; the others keep theirs, counted from the first of them.
pub proof fn lemma_nodes_are_added(doc: DocumentModel, parent: usize, added: Seq<NodeModel>, i: int)
    requires
        0 <= i < added.len(),
        doc.cursor + added.len() < usize::MAX,
        added[i].parent_idx() matches Some(own) ==> own < added.len(),
    ensures
        ({
            let after = doc.grown(parent, added);
            let number = (doc.cursor + 1 + i) as usize;
            &&& node_at(after.nodes, number) matches Some(node) && {
                &&& added[i].parent_idx() is None ==> node.parent_idx() == Some(parent)
                &&& added[i].parent_idx() matches Some(own) ==> node.parent_idx() == Some(
                    (doc.cursor + 1 + own) as usize,
                )
                &&& node.with_parent(added[i].parent_idx()) == added[i]
            }
            &&& after.order.len() == doc.order.len() + added.len()
            &&& after.order[doc.order.len() + i] == number
            &&& after.cursor == doc.cursor + added.len()
        }),
{
}

/// Nodes below the first new number stay as they are where several are added.
pub proof fn lemma_added_nodes_leave_others(
    doc: DocumentModel,
    parent: usize,
    added: Seq<NodeModel>,
    other: usize,
)
    requires
        other <= doc.cursor,
        doc.cursor + added.len() < usize::MAX,
    ensures
        node_at(doc.grown(parent, added).nodes, other) == node_at(doc.nodes, other),
{
}

/// A copy of a node is the same node below its own parent, with the next number.
pub proof fn lemma_copy_of_a_node(doc: DocumentModel, idx: usize, parent: Option<usize>)
    requires
        tree_like(doc.children),
        node_at(doc.nodes, idx) is Some,
        doc.cursor < usize::MAX - 1,
    ensures
        cloned(doc, idx, parent, false).1,
        node_at(cloned(doc, idx, parent, false).0.nodes, (doc.cursor + 1) as usize) == Some(
            node_at(doc.nodes, idx)->0.with_parent(parent),
        ),
        cloned(doc, idx, parent, false).0.cursor == doc.cursor + 1,
{
}

/// Whether two nodes are the same but for their parents.
pub open spec fn same_node(a: Option<NodeModel>, b: Option<NodeModel>) -> bool {
    a is Some && b is Some && a->0.with_parent(None) == b->0.with_parent(None)
}

/// Whether the nodes of a list have been copied to the numbers after a cursor, in the order of the list,
/// and everything before is as it was.
pub open spec fn copied(before: DocumentModel, after: DocumentModel, list: Seq<usize>) -> bool {
    &&& after.cursor == before.cursor + list.len()
    &&& forall|i: int|
        0 <= i < list.len() ==> same_node(
            node_at(after.nodes, (before.cursor + 1 + i) as usize),
            node_at(before.nodes, #[trigger] list[i]),
        )
    &&& forall|x: usize|
        x <= before.cursor ==> #[trigger] node_at(after.nodes, x) == node_at(before.nodes, x)
    &&& after.children == before.children
}

/// Whether every listed child has a number up to a bound.
pub open spec fn lists_up_to(children: ChildrenModel, bound: usize) -> bool {
    forall|p: usize, k: int|
        (#[trigger] child_of(children, p, k)) matches Some(child) ==> child <= bound
}

/// A deep copy holds a copy of the node and of everything below it, each node before its children, as in
/// the original. Nothing that was there before changes.
pub proof fn lemma_deep_copy(doc: DocumentModel, idx: usize, parent: Option<usize>)
    requires
        tree_like(doc.children),
        lists_up_to(doc.children, doc.cursor),
        doc.nodes.len() <= doc.cursor + 1,
        cloned(doc, idx, parent, true).1,
    ensures
        copied(doc, cloned(doc, idx, parent, true).0, preorder(doc.children, idx)),
        parent_of(cloned(doc, idx, parent, true).0.nodes, (doc.cursor + 1) as usize) == parent,
{
    lemma_copies_of_one(doc, idx, parent, doc.cursor);
}

proof fn lemma_copies_of_one(doc: DocumentModel, idx: usize, parent: Option<usize>, bound: usize)
    requires
        tree_like(doc.children),
        lists_up_to(doc.children, bound),
        idx <= bound <= doc.cursor,
        doc.nodes.len() <= doc.cursor + 1,
        cloned(doc, idx, parent, true).1,
    ensures
        copied(doc, cloned(doc, idx, parent, true).0, preorder(doc.children, idx)),
        parent_of(cloned(doc, idx, parent, true).0.nodes, (doc.cursor + 1) as usize) == parent,
        cloned(doc, idx, parent, true).0.nodes.len() <= cloned(doc, idx, parent, true).0.cursor + 1,
    decreases depth_of(doc.children)(idx), 1int, 0nat,
{
    let node = node_at(doc.nodes, idx)->0;
    let first = doc.pushed(node.with_parent(parent));
    let list = children_at(doc.children, idx)->0;
    let after = cloned(doc, idx, parent, true).0;
    let below = preorder_list(doc.children, idx, list);
    assert(after == cloned_list(first, idx, list, first.cursor).0);
    assert forall|k: int| 0 <= k < list.len() implies #[trigger] list[k] <= bound && depth_of(
        doc.children,
    )(list[k]) < depth_of(doc.children)(idx) by {
        lemma_child_is_lower(doc.children, idx, k);
        assert(child_of(doc.children, idx, k) == Some(list[k]));
    }
    lemma_copies_of_list(first, idx, list, first.cursor, bound);
    let whole = preorder(doc.children, idx);
    assert(whole =~= seq![idx] + below);
    lemma_lists_are_known(doc.children, idx, list, bound);
    assert forall|i: int| 0 <= i < whole.len() implies same_node(
        node_at(after.nodes, (doc.cursor + 1 + i) as usize),
        node_at(doc.nodes, #[trigger] whole[i]),
    ) by {
        if i == 0 {
            assert(node_at(after.nodes, first.cursor) == node_at(first.nodes, first.cursor));
        } else {
            assert(whole[i] == below[i - 1]);
            assert(below[i - 1] <= bound);
            assert(same_node(
                node_at(after.nodes, (first.cursor + 1 + (i - 1)) as usize),
                node_at(first.nodes, below[i - 1]),
            ));
        }
    }
    assert forall|x: usize| x <= doc.cursor implies #[trigger] node_at(after.nodes, x) == node_at(
        doc.nodes,
        x,
    ) by {
        assert(node_at(after.nodes, x) == node_at(first.nodes, x));
    }
    assert(node_at(after.nodes, first.cursor) == node_at(first.nodes, first.cursor));
}

proof fn lemma_copies_of_list(
    doc: DocumentModel,
    source: usize,
    list: Seq<usize>,
    parent: usize,
    bound: usize,
)
    requires
        tree_like(doc.children),
        lists_up_to(doc.children, bound),
        bound <= doc.cursor,
        doc.nodes.len() <= doc.cursor + 1,
        forall|k: int|
            0 <= k < list.len() ==> #[trigger] list[k] <= bound && depth_of(doc.children)(list[k])
                < depth_of(doc.children)(source),
        cloned_list(doc, source, list, parent).1,
    ensures
        copied(
            doc,
            cloned_list(doc, source, list, parent).0,
            preorder_list(doc.children, source, list),
        ),
        cloned_list(doc, source, list, parent).0.nodes.len() <= cloned_list(
            doc,
            source,
            list,
            parent,
        ).0.cursor + 1,
    decreases depth_of(doc.children)(source), 0int, list.len(),
{
    if list.len() > 0 {
        assert(list[0] <= bound);
        let between = cloned(doc, list[0], Some(parent), true).0;
        let rest = list.drop_first();
        let after = cloned_list(doc, source, list, parent).0;
        lemma_copies_of_one(doc, list[0], Some(parent), bound);
        assert forall|k: int| 0 <= k < rest.len() implies #[trigger] rest[k] <= bound && depth_of(
            doc.children,
        )(rest[k]) < depth_of(doc.children)(source) by {
            assert(rest[k] == list[k + 1]);
        }
        lemma_copies_of_list(between, source, rest, parent, bound);
        let own = preorder(doc.children, list[0]);
        let others = preorder_list(doc.children, source, rest);
        let whole = preorder_list(doc.children, source, list);
        lemma_preorder_from_the_front(doc.children, source, list);
        assert(whole == own + others);
        lemma_lists_are_known(doc.children, source, rest, bound);
        assert forall|i: int| 0 <= i < whole.len() implies same_node(
            node_at(after.nodes, (doc.cursor + 1 + i) as usize),
            node_at(doc.nodes, #[trigger] whole[i]),
        ) by {
            if i < own.len() {
                assert(whole[i] == own[i]);
                let number = (doc.cursor + 1 + i) as usize;
                assert(same_node(node_at(between.nodes, number), node_at(doc.nodes, own[i])));
                assert(node_at(after.nodes, number) == node_at(between.nodes, number));
            } else {
                let k = i - own.len();
                assert(whole[i] == others[k]);
                assert(others[k] <= bound);
                assert(same_node(
                    node_at(after.nodes, (between.cursor + 1 + k) as usize),
                    node_at(between.nodes, others[k]),
                ));
                assert(node_at(between.nodes, others[k]) == node_at(doc.nodes, others[k]));
            }
        }
        assert forall|x: usize| x <= doc.cursor implies #[trigger] node_at(after.nodes, x)
            == node_at(doc.nodes, x) by {
            assert(node_at(after.nodes, x) == node_at(between.nodes, x));
            assert(node_at(between.nodes, x) == node_at(doc.nodes, x));
        }
    }
}

proof fn lemma_preorder_from_the_front(children: ChildrenModel, parent: usize, list: Seq<usize>)
    requires
        tree_like(children),
        list.len() > 0,
        forall|k: int|
            0 <= k < list.len() ==> depth_of(children)(#[trigger] list[k]) < depth_of(children)(
                parent,
            ),
    ensures
        preorder_list(children, parent, list) == preorder(children, list[0]) + preorder_list(
            children,
            parent,
            list.drop_first(),
        ),
    decreases list.len(),
{
    let whole = preorder_list(children, parent, list);
    let own = preorder(children, list[0]);
    assert(list.last() == list[list.len() - 1]);
    if list.len() == 1 {
        assert(list.drop_last() =~= Seq::<usize>::empty());
        assert(list.drop_first() =~= Seq::<usize>::empty());
        assert(whole =~= own + preorder_list(children, parent, list.drop_first()));
    } else {
        let less = list.drop_last();
        assert forall|k: int| 0 <= k < less.len() implies depth_of(children)(#[trigger] less[k])
            < depth_of(children)(parent) by {
            assert(less[k] == list[k]);
        }
        lemma_preorder_from_the_front(children, parent, less);
        assert(less.drop_first() =~= list.drop_first().drop_last());
        assert(list.drop_first().last() == list.last());
        assert(whole =~= own + preorder_list(children, parent, list.drop_first()));
    }
}

proof fn lemma_lists_are_known(
    children: ChildrenModel,
    parent: usize,
    list: Seq<usize>,
    bound: usize,
)
    requires
        tree_like(children),
        lists_up_to(children, bound),
        forall|k: int| 0 <= k < list.len() ==> #[trigger] list[k] <= bound,
    ensures
        forall|i: int|
            0 <= i < preorder_list(children, parent, list).len() ==> #[trigger] preorder_list(
                children,
                parent,
                list,
            )[i] <= bound,
    decreases depth_of(children)(parent), 0int, list.len(),
{
    if list.len() > 0 {
        let less = list.drop_last();
        assert forall|k: int| 0 <= k < less.len() implies #[trigger] less[k] <= bound by {
            assert(less[k] == list[k]);
        }
        lemma_lists_are_known(children, parent, less, bound);
        let own = list.last();
        assert(own == list[list.len() - 1]);
        let before = preorder_list(children, parent, less);
        let whole = preorder_list(children, parent, list);
        if depth_of(children)(own) < depth_of(children)(parent) {
            let inside = preorder(children, own);
            if let Some(below) = children_at(children, own) {
                assert forall|k: int| 0 <= k < below.len() implies #[trigger] below[k] <= bound by {
                    assert(child_of(children, own, k) == Some(below[k]));
                }
                lemma_lists_are_known(children, own, below, bound);
            }
            assert forall|i: int| 0 <= i < whole.len() implies #[trigger] whole[i] <= bound by {
                if i < before.len() {
                    assert(whole[i] == before[i]);
                } else {
                    assert(whole[i] == inside[i - before.len()]);
                    if i > before.len() {
                        let below = children_at(children, own)->0;
                        let rest = preorder_list(children, own, below);
                        assert(inside =~= seq![own] + rest);
                        assert(inside[i - before.len()] == rest[i - before.len() - 1]);
                    }
                }
            }
        } else {
            assert(whole =~= before);
        }
    }
}

/// A node comes before what lies below it, and its children follow in their order, each with what lies
/// below it.
pub proof fn lemma_nodes_come_before_their_children(
    children: ChildrenModel,
    idx: usize,
    first: usize,
    rest: Seq<usize>,
)
    requires
        tree_like(children),
        children_at(children, idx) == Some(seq![first] + rest),
    ensures
        preorder(children, idx) == seq![idx] + preorder(children, first) + preorder_list(
            children,
            idx,
            rest,
        ),
        preorder(children, idx)[0] == idx,
{
    let list = seq![first] + rest;
    assert forall|k: int| 0 <= k < list.len() implies depth_of(children)(#[trigger] list[k])
        < depth_of(children)(idx) by {
        lemma_child_is_lower(children, idx, k);
    }
    lemma_preorder_from_the_front(children, idx, list);
    assert(list.drop_first() =~= rest);
    assert(list[0] == first);
    assert(preorder(children, idx) =~= seq![idx] + preorder(children, first) + preorder_list(
        children,
        idx,
        rest,
    ));
}

/// The text and the markup of an element with one text in it: the text is what was written between the
/// tags, and the markup is what such an element is written as.
pub proof fn lemma_element_with_one_text(
    nodes: NodesModel,
    children: ChildrenModel,
    idx: usize,
    child: usize,
    tag: Seq<char>,
    text: Seq<char>,
)
    requires
        tree_like(children),
        children_at(children, idx) == Some(seq![child]),
        node_at(nodes, idx) matches Some(NodeModel::Element { tag: own, attributes, .. }) && own == tag
            && attributes.len() == 0,
        node_at(nodes, child) matches Some(NodeModel::Text { text: own, .. }) && own == text,
    ensures
        text_of(nodes, children, idx) == text,
        markup_of(nodes, children, idx) == seq!['<'] + tag + seq!['>'] + text + seq!['<', '/'] + tag
            + seq!['>'],
{
    let list = seq![child];
    lemma_child_is_lower(children, idx, 0);
    assert(children_at(children, idx)->0[0] == child);
    assert(list.drop_last() =~= Seq::<usize>::empty());
    assert(list.last() == child);
    reveal_with_fuel(text_of_list, 3);
    reveal_with_fuel(markup_of_list, 3);
    reveal_with_fuel(text_of, 3);
    reveal_with_fuel(markup_of, 3);
    assert(text_of_list(nodes, children, idx, list) =~= text);
    assert(markup_of_list(nodes, children, idx, list) =~= text);
    assert(markup_of(nodes, children, idx) =~= seq!['<'] + tag + seq!['>'] + text + seq!['<', '/']
        + tag + seq!['>']);
}

/// The texts of the children of an element follow each other.
pub proof fn lemma_texts_follow_each_other(
    nodes: NodesModel,
    children: ChildrenModel,
    idx: usize,
    first: usize,
    second: usize,
)
    requires
        tree_like(children),
        children_at(children, idx) == Some(seq![first, second]),
        node_at(nodes, idx) matches Some(NodeModel::Element { .. }),
    ensures
        text_of(nodes, children, idx) == text_of(nodes, children, first) + text_of(
            nodes,
            children,
            second,
        ),
        node_at(nodes, first) matches Some(NodeModel::Comment { .. }) ==> text_of(
            nodes,
            children,
            idx,
        ) == text_of(nodes, children, second),
{
    let list = seq![first, second];
    lemma_child_is_lower(children, idx, 0);
    lemma_child_is_lower(children, idx, 1);
    assert(children_at(children, idx)->0[0] == first && children_at(children, idx)->0[1] == second);
    assert(list.drop_last() =~= seq![first]);
    assert(seq![first].drop_last() =~= Seq::<usize>::empty());
    assert(text_of_list(nodes, children, idx, Seq::empty()) =~= Seq::<char>::empty());
    assert(text_of_list(nodes, children, idx, seq![first]) =~= text_of(nodes, children, first));
    assert(text_of_list(nodes, children, idx, list) =~= text_of(nodes, children, first) + text_of(
        nodes,
        children,
        second,
    ));
    assert(text_of(nodes, children, idx) == text_of_list(nodes, children, idx, list));
    if node_at(nodes, first) matches Some(NodeModel::Comment { .. }) {
        assert(text_of(nodes, children, first) =~= Seq::<char>::empty());
        assert(text_of(nodes, children, idx) =~= text_of(nodes, children, second));
    }
}

/// An attribute is written as its name and its value in quotes, behind a space.
pub proof fn lemma_attribute_is_written(
    attributes: AttributesModel,
    name: Seq<char>,
    value: Seq<char>,
)
    ensures
        attributes_markup(attributes.push((name, value))) == attributes_markup(attributes) + seq![' ']
            + name + seq!['=', '"'] + value + seq!['"'],
{
    assert(attributes.push((name, value)).drop_last() =~= attributes);
}

/// A node comes first in its lineage, and each next node is the parent of the one before, up to one
/// that has no parent.
pub proof fn lemma_lineage_climbs(nodes: NodesModel, idx: usize, i: int)
    requires
        acyclic(nodes),
        0 <= i < lineage(nodes, idx).len(),
    ensures
        lineage(nodes, idx)[0] == idx,
        i + 1 < lineage(nodes, idx).len() ==> parent_of(nodes, lineage(nodes, idx)[i]) == Some(
            lineage(nodes, idx)[i + 1],
        ),
        parent_of(nodes, lineage(nodes, idx).last()) is None,
    decreases rank_of(nodes)(idx),
{
    assert(climbs(nodes, rank_of(nodes)));
    if let Some(parent) = parent_of(nodes, idx) {
        let rest = lineage(nodes, parent);
        let whole = lineage(nodes, idx);
        assert(whole =~= seq![idx] + rest);
        assert(rank_of(nodes)(parent) < rank_of(nodes)(idx));
        assert(rest.len() > 0) by {
            reveal_with_fuel(lineage, 2);
        }
        lemma_lineage_climbs(
            nodes,
            parent,
            if i > 0 {
                i - 1
            } else {
                0
            },
        );
        assert(whole.last() == rest.last());
        assert(whole[1] == rest[0]);
        if i > 0 && i + 1 < whole.len() {
            assert(whole[i] == rest[i - 1] && whole[i + 1] == rest[i]);
        }
    }
}

/// The nearest marked node is marked, and none before it in the list is.
pub proof fn lemma_nearest_marked(list: Seq<usize>, flags: Seq<bool>)
    ensures
        first_flagged(list, flags) matches Some(found) ==> exists|i: int|
            0 <= i < list.len() && #[trigger] list[i] == found && found < flags.len()
                && flags[found as int] && forall|k: int|
                0 <= k < i ==> !((#[trigger] list[k]) < flags.len() && flags[list[k] as int]),
        first_flagged(list, flags) is None ==> forall|k: int|
            0 <= k < list.len() ==> !((#[trigger] list[k]) < flags.len() && flags[list[k] as int]),
    decreases list.len(),
{
    if list.len() > 0 && !(list[0] < flags.len() && flags[list[0] as int]) {
        let rest = list.drop_first();
        lemma_nearest_marked(rest, flags);
        if let Some(found) = first_flagged(list, flags) {
            let i = choose|i: int|
                0 <= i < rest.len() && #[trigger] rest[i] == found && found < flags.len()
                    && flags[found as int] && forall|k: int|
                    0 <= k < i ==> !((#[trigger] rest[k]) < flags.len() && flags[rest[k] as int]);
            assert(list[i + 1] == found);
            assert forall|k: int| 0 <= k < i + 1 implies !((#[trigger] list[k]) < flags.len()
                && flags[list[k] as int]) by {
                if k > 0 {
                    assert(list[k] == rest[k - 1]);
                }
            }
        } else {
            assert forall|k: int| 0 <= k < list.len() implies !((#[trigger] list[k]) < flags.len()
                && flags[list[k] as int]) by {
                if k > 0 {
                    assert(list[k] == rest[k - 1]);
                }
            }
        }
    } else if list.len() > 0 {
        assert(list[0] < flags.len() && flags[list[0] as int]);
    }
}

/// The scroll offsets of nodes, added up.
pub open spec fn offsets_of(list: Seq<usize>, scroll: Seq<i32>) -> int
    decreases list.len(),
{
    if list.len() == 0 {
        0
    } else {
        scroll_at(scroll, list[0]) + offsets_of(list.drop_first(), scroll)
    }
}

/// What is scrolled around a node adds up.
pub proof fn lemma_scrolling_adds_up(list: Seq<usize>, scroll: Seq<i32>, start: int)
    ensures
        scroll_sum(list, scroll, start) matches Some(sum) ==> sum == start + offsets_of(
            list,
            scroll,
        ),
    decreases list.len(),
{
    if list.len() > 0 {
        lemma_scrolling_adds_up(list.drop_first(), scroll, start + scroll_at(scroll, list[0]));
    }
}

/// The root has no parent and is no comment. It is an `html` element where there is one that can be
/// the root, and of several the first.
pub proof fn lemma_root(nodes: NodesModel, other: usize)
    requires
        nodes.len() <= usize::MAX,
    ensures
        root_of(nodes) matches Some(root) ==> (node_at(nodes, root) matches Some(node)
            && node.parent_idx() is None && !(node is Comment)),
        (node_at(nodes, other) matches Some(node) && is_root(node)) ==> {
            &&& root_of(nodes) is Some
            &&& node_at(nodes, other)->0.has_tag("html"@) ==> node_at(
                nodes,
                root_of(nodes)->0,
            )->0.has_tag("html"@) && root_of(nodes)->0 <= other
        },
{
    lemma_root_from(nodes, 0, true, other);
    lemma_root_from(nodes, 0, false, other);
}

proof fn lemma_root_from(nodes: NodesModel, from: int, html: bool, other: usize)
    requires
        0 <= from <= nodes.len() <= usize::MAX,
    ensures
        root_from(nodes, from, html) matches Some(root) ==> {
            &&& from <= root < nodes.len()
            &&& node_at(nodes, root) matches Some(node) && is_root(node) && (html ==> node.has_tag(
                "html"@,
            ))
        },
        (other >= from && (node_at(nodes, other) matches Some(node) && is_root(node) && (html
            ==> node.has_tag("html"@)))) ==> (root_from(nodes, from, html) matches Some(root) && root
            <= other),
    decreases nodes.len() - from,
{
    if from < nodes.len() {
        lemma_root_from(nodes, from + 1, html, other);
    }
}

/// An attribute that is taken away is gone, and no other attribute changes. The node is listed under it no
/// more, nor under the id that it had; other nodes are listed as before.
pub proof fn lemma_attribute_is_removed(
    state: IndexedAttributes,
    idx: usize,
    key: Seq<char>,
    value: Seq<char>,
    other: Seq<char>,
    el: usize,
)
    requires
        names_distinct(state.attributes),
        el != idx,
    ensures
        ({
            let after = without_attribute(state, idx, key, value);
            &&& lookup(after.attributes, key) is None
            &&& other != key ==> lookup(after.attributes, other) == lookup(state.attributes, other)
            &&& !lists(after.names, key, idx)
            &&& other != key ==> lists(after.names, other, idx) == lists(state.names, other, idx)
            &&& lists(after.names, other, el) == lists(state.names, other, el)
            &&& key == "id"@ ==> !lists(after.ids, value, idx)
            &&& key != "id"@ ==> after.ids == state.ids
            &&& lists(after.ids, other, el) == lists(state.ids, other, el)
            &&& key != "class"@ ==> after.classes == state.classes
        }),
{
    lemma_removed_name_is_gone(state.attributes, key, other);
    lemma_without_member(state.names, key, idx, key);
    lemma_without_member(state.names, key, idx, other);
    lemma_without_member(state.ids, value, idx, value);
    lemma_without_member(state.ids, value, idx, other);
}

/// An element is found under its id, its tag and each of its attributes, and under nothing else.
pub proof fn lemma_elements_are_found(
    nodes: NodesModel,
    kind: NameKind,
    name: Seq<char>,
    idx: usize,
)
    ensures
        ({
            let found = holders(nodes, kind, name) matches Some(set) && set.contains(idx);
            let node = node_at(nodes, idx);
            &&& kind is Id ==> (found <==> (node is Some && node->0.attribute("id"@) == Some(name)))
            &&& kind is Tag ==> (found <==> (node is Some && node->0.has_tag(name)))
            &&& kind is Attribute ==> (found <==> (node is Some && node->0.attribute(name) is Some))
        }),
{
    let all = holders_below(nodes, kind, name, nodes.len() as int);
    if let Some(node) = node_at(nodes, idx) {
        assert(all.contains(idx) == has_name(kind, node, name));
    } else {
        assert(!all.contains(idx));
    }
}

} // verus!
