//! Walks over the tree of a document: up along parents and down along lists of children.
use vstd::prelude::*;

use crate::boxes::in_i32;
use crate::dom::node_at;
use crate::dom::parent_of;
use crate::dom::Node;
use crate::dom::NodesModel;
use crate::dom::NodesTable;

verus! {

/// Every parent has a smaller rank than its children.
pub open spec fn climbs(nodes: NodesModel, rank: spec_fn(usize) -> nat) -> bool {
    forall|idx: usize|
        (#[trigger] parent_of(nodes, idx)) matches Some(parent) ==> rank(parent) < rank(idx)
}

/// Following parents ends: no node is its own ancestor.
pub open spec fn acyclic(nodes: NodesModel) -> bool {
    exists|rank: spec_fn(usize) -> nat| climbs(nodes, rank)
}

pub open spec fn rank_of(nodes: NodesModel) -> spec_fn(usize) -> nat {
    choose|rank: spec_fn(usize) -> nat| climbs(nodes, rank)
}

/// A node, its parent, the parent of that and so on.
pub open spec fn lineage(nodes: NodesModel, idx: usize) -> Seq<usize>
    decreases rank_of(nodes)(idx),
    when acyclic(nodes)
{
    match parent_of(nodes, idx) {
        Some(parent) => seq![idx] + lineage(nodes, parent),
        None => seq![idx],
    }
}

/// A node, its parent, the parent of that and so on.
pub fn get_parents(nodes: &NodesTable, idx: usize) -> (r: Vec<usize>)
    requires
        acyclic(nodes@),
    ensures
        r@ == lineage(nodes@, idx),
{
    let mut buffer: Vec<usize> = Vec::new();
    let mut current: usize = idx;
    buffer.push(idx);
    assert(buffer@ =~= seq![idx]);
    loop
        invariant
            acyclic(nodes@),
            buffer@.len() > 0,
            buffer@.last() == current,
            buffer@.drop_last() + lineage(nodes@, current) == lineage(nodes@, idx),
        ensures
            buffer@ == lineage(nodes@, idx),
        decreases rank_of(nodes@)(current),
    {
        match nodes.parent(current) {
            Some(parent) => {
                let ghost before = buffer@;
                proof {
                    assert(climbs(nodes@, rank_of(nodes@)));
                    assert(before.drop_last() + (seq![current] + lineage(nodes@, parent)) =~= before
                        + lineage(nodes@, parent));
                }
                buffer.push(parent);
                assert(buffer@.drop_last() =~= before);
                current = parent;
            },
            None => {
                assert(buffer@.drop_last() + seq![current] =~= buffer@);
                break;
            },
        }
    }
    buffer
}

/// Whether `target` is the node itself or one of its ancestors.
pub fn has_parent(nodes: &NodesTable, node_idx: usize, target: usize) -> (r: bool)
    requires
        acyclic(nodes@),
    ensures
        r == lineage(nodes@, node_idx).contains(target),
{
    let mut current: usize = node_idx;
    loop
        invariant
            acyclic(nodes@),
            lineage(nodes@, node_idx).contains(target) == lineage(nodes@, current).contains(target),
        decreases rank_of(nodes@)(current),
    {
        if current == target {
            proof {
                assert(lineage(nodes@, current)[0] == target);
            }
            return true;
        }
        match nodes.parent(current) {
            Some(parent) => {
                proof {
                    assert(climbs(nodes@, rank_of(nodes@)));
                    lemma_contains_skip(current, lineage(nodes@, parent), target);
                }
                current = parent;
            },
            None => {
                assert(!seq![current].contains(target));
                return false;
            },
        }
    }
}

proof fn lemma_contains_skip(first: usize, rest: Seq<usize>, target: usize)
    requires
        first != target,
    ensures
        (seq![first] + rest).contains(target) == rest.contains(target),
{
    let all = seq![first] + rest;
    if rest.contains(target) {
        let k = choose|k: int| 0 <= k < rest.len() && rest[k] == target;
        assert(all[k + 1] == target);
    }
    if all.contains(target) {
        let k = choose|k: int| 0 <= k < all.len() && all[k] == target;
        assert(rest[k - 1] == target);
    }
}

/// Whether a node hangs below the root of the document.
pub fn node_is_connected(nodes: &NodesTable, idx: usize, root_idx: usize) -> (r: bool)
    requires
        acyclic(nodes@),
    ensures
        r == lineage(nodes@, idx).contains(root_idx),
{
    has_parent(nodes, idx, root_idx)
}

/// The first number of a list for which a flag is set.
pub open spec fn first_flagged(list: Seq<usize>, flags: Seq<bool>) -> Option<usize>
    decreases list.len(),
{
    if list.len() == 0 {
        None
    } else if list[0] < flags.len() && flags[list[0] as int] {
        Some(list[0])
    } else {
        first_flagged(list.drop_first(), flags)
    }
}

/// The nearest of a node and its ancestors for which a flag is set.
pub fn nearest_flagged(nodes: &NodesTable, idx: usize, flags: &Vec<bool>) -> (r: Option<usize>)
    requires
        acyclic(nodes@),
    ensures
        r == first_flagged(lineage(nodes@, idx), flags@),
{
    let mut current: usize = idx;
    loop
        invariant
            acyclic(nodes@),
            first_flagged(lineage(nodes@, idx), flags@) == first_flagged(
                lineage(nodes@, current),
                flags@,
            ),
        decreases rank_of(nodes@)(current),
    {
        assert(lineage(nodes@, current)[0] == current);
        if current < flags.len() && flags[current] {
            return Some(current);
        }
        match nodes.parent(current) {
            Some(parent) => {
                proof {
                    assert(climbs(nodes@, rank_of(nodes@)));
                    assert(lineage(nodes@, current).drop_first() =~= lineage(nodes@, parent));
                }
                current = parent;
            },
            None => {
                assert(lineage(nodes@, current).drop_first() =~= Seq::empty());
                assert(first_flagged(lineage(nodes@, current).drop_first(), flags@) is None);
                return None;
            },
        }
    }
}

/// The nearest of a node and its ancestors that the callback accepts. The walk ends at a number
/// that holds no node.
pub fn walk_node_upwards<F: Fn(&Node) -> bool>(nodes: &NodesTable, idx: usize, callback: F) -> (r:
    Option<usize>)
    requires
        acyclic(nodes@),
        forall|node: &Node| #[trigger] call_requires(callback, (node,)),
    ensures
        match r {
            Some(found) => exists|k: int|
                {
                    &&& 0 <= k < lineage(nodes@, idx).len()
                    &&& lineage(nodes@, idx)[k] == found
                    &&& #[trigger] accepts(nodes, callback, lineage(nodes@, idx)[k], true)
                    &&& forall|j: int|
                        0 <= j < k ==> #[trigger] accepts(
                            nodes,
                            callback,
                            lineage(nodes@, idx)[j],
                            false,
                        )
                },
            None => forall|j: int|
                0 <= j < lineage(nodes@, idx).len() ==> {
                    ||| node_at(nodes@, #[trigger] lineage(nodes@, idx)[j]) is None
                    ||| accepts(nodes, callback, lineage(nodes@, idx)[j], false)
                },
        },
{
    let ghost all = lineage(nodes@, idx);
    let mut current: usize = idx;
    let ghost mut passed: int = 0;
    assert(all.skip(0) =~= all);
    loop
        invariant
            acyclic(nodes@),
            forall|node: &Node| #[trigger] call_requires(callback, (node,)),
            all == lineage(nodes@, idx),
            0 <= passed < all.len(),
            all.skip(passed) == lineage(nodes@, current),
            all[passed] == current,
            forall|j: int|
                0 <= j < passed ==> #[trigger] accepts(nodes, callback, all[j], false),
        decreases rank_of(nodes@)(current),
    {
        match nodes.get(current) {
            None => {
                assert(parent_of(nodes@, current) is None);
                assert(all.skip(passed).len() == 1);
                return None;
            },
            Some(node) => {
                let accepted = callback(node);
                assert(accepts(nodes, callback, all[passed], accepted));
                if accepted {
                    return Some(current);
                }
                match node.get_parent() {
                    Some(parent) => {
                        proof {
                            assert(climbs(nodes@, rank_of(nodes@)));
                            assert(parent_of(nodes@, current) == Some(parent));
                            let tail = lineage(nodes@, parent);
                            assert(all.skip(passed) == seq![current] + tail);
                            assert(all.skip(passed + 1) =~= tail) by {
                                assert forall|i: int| 0 <= i < tail.len() implies all.skip(
                                    passed + 1,
                                )[i] == #[trigger] tail[i] by {
                                    assert(all.skip(passed)[i + 1] == (seq![current] + tail)[i + 1]);
                                }
                            }
                            assert(tail[0] == parent);
                            assert(all.skip(passed)[1] == parent);
                            passed = passed + 1;
                        }
                        current = parent;
                    },
                    None => {
                        assert(all.skip(passed).len() == 1);
                        return None;
                    },
                }
            },
        }
    }
}

/// Whether the callback may answer `answer` for the node at a number.
pub open spec fn accepts<F: Fn(&Node) -> bool>(
    nodes: &NodesTable,
    callback: F,
    idx: usize,
    answer: bool,
) -> bool {
    idx < nodes.data@.len() && nodes.data@[idx as int] is Some && call_ensures(
        callback,
        (&nodes.data@[idx as int]->0,),
        answer,
    )
}

/// The scroll offset of a node; zero where none is set.
pub open spec fn scroll_at(scroll: Seq<i32>, idx: usize) -> int {
    if idx < scroll.len() {
        scroll[idx as int] as int
    } else {
        0
    }
}

/// `start` plus the scroll offsets of the listed nodes, added in order; nothing where a sum leaves
/// the `i32` range.
pub open spec fn scroll_sum(list: Seq<usize>, scroll: Seq<i32>, start: int) -> Option<int>
    decreases list.len(),
{
    if list.len() == 0 {
        Some(start)
    } else if !in_i32(start + scroll_at(scroll, list[0])) {
        None
    } else {
        scroll_sum(list.drop_first(), scroll, start + scroll_at(scroll, list[0]))
    }
}

/// How far a node is moved by the scrolling of itself and its ancestors. Nothing where a sum
/// leaves the `i32` range.
pub fn get_offset_y(nodes: &NodesTable, idx: usize, scroll: &Vec<i32>) -> (r: Option<i32>)
    requires
        acyclic(nodes@),
    ensures
        match (r, scroll_sum(lineage(nodes@, idx), scroll@, 0)) {
            (Some(offset), Some(sum)) => offset == sum,
            (None, None) => true,
            _ => false,
        },
{
    let mut current: usize = idx;
    let mut offset: i32 = 0;
    loop
        invariant
            acyclic(nodes@),
            scroll_sum(lineage(nodes@, idx), scroll@, 0) == scroll_sum(
                lineage(nodes@, current),
                scroll@,
                offset as int,
            ),
        decreases rank_of(nodes@)(current),
    {
        assert(lineage(nodes@, current)[0] == current);
        let own: i32 = if current < scroll.len() {
            scroll[current]
        } else {
            0
        };
        match offset.checked_add(own) {
            None => {
                return None;
            },
            Some(sum) => {
                offset = sum;
            },
        }
        match nodes.parent(current) {
            Some(parent) => {
                proof {
                    assert(climbs(nodes@, rank_of(nodes@)));
                    assert(lineage(nodes@, current).drop_first() =~= lineage(nodes@, parent));
                }
                current = parent;
            },
            None => {
                assert(lineage(nodes@, current).drop_first() =~= Seq::empty());
                assert(scroll_sum(
                    lineage(nodes@, current).drop_first(),
                    scroll@,
                    offset as int,
                ) == Some(offset as int));
                return Some(offset);
            },
        }
    }
}

/// For each node the list of its children. A node without a list is not part of the index.
#[derive(Debug)]
pub struct ChildrenIndex {
    pub lists: Vec<Option<Vec<usize>>>,
}

/// What a [`ChildrenIndex`] holds.
pub type ChildrenModel = Seq<Option<Seq<usize>>>;

impl View for ChildrenIndex {
    type V = ChildrenModel;

    open spec fn view(&self) -> ChildrenModel {
        Seq::new(
            self.lists@.len(),
            |i: int|
                match self.lists@[i] {
                    Some(list) => Some(list@),
                    None => None,
                },
        )
    }
}

pub open spec fn children_at(children: ChildrenModel, idx: usize) -> Option<Seq<usize>> {
    if idx < children.len() {
        children[idx as int]
    } else {
        None
    }
}

/// The index after a node has been given a list.
pub open spec fn with_list(children: ChildrenModel, idx: usize, list: Seq<usize>) -> ChildrenModel {
    Seq::new(
        if idx < children.len() {
            children.len()
        } else {
            (idx + 1) as nat
        },
        |i: int|
            if i == idx {
                Some(list)
            } else if i < children.len() {
                children[i]
            } else {
                None
            },
    )
}

/// The index after a node has been taken out.
pub open spec fn without_list(children: ChildrenModel, idx: usize) -> ChildrenModel {
    if idx < children.len() {
        children.update(idx as int, None)
    } else {
        children
    }
}

impl ChildrenIndex {
    pub fn new() -> (r: ChildrenIndex)
        ensures
            r@ == ChildrenModel::empty(),
    {
        let r = ChildrenIndex { lists: Vec::new() };
        assert(r@ =~= ChildrenModel::empty());
        r
    }

    pub fn get(&self, idx: usize) -> (r: Option<&Vec<usize>>)
        ensures
            match (r, children_at(self@, idx)) {
                (Some(list), Some(model)) => list@ == model,
                (None, None) => true,
                _ => false,
            },
    {
        if idx < self.lists.len() {
            self.lists[idx].as_ref()
        } else {
            None
        }
    }

    /// A copy of the list of a node; an empty one where it has none.
    pub fn list_or_empty(&self, idx: usize) -> (r: Vec<usize>)
        ensures
            r@ == (match children_at(self@, idx) {
                Some(list) => list,
                None => Seq::empty(),
            }),
    {
        match self.get(idx) {
            Some(list) => {
                let copy = list.clone();
                assert(copy@ =~= list@);
                copy
            },
            None => Vec::new(),
        }
    }

    /// Gives a node a list.
    pub fn insert(&mut self, idx: usize, list: Vec<usize>)
        requires
            idx < usize::MAX,
        ensures
            final(self)@ == with_list(old(self)@, idx, list@),
    {
        while self.lists.len() <= idx
            invariant
                idx < usize::MAX,
                old(self).lists@.len() <= self.lists@.len(),
                self.lists@.len() <= idx + 1 || self.lists@.len() == old(self).lists@.len(),
                forall|i: int|
                    0 <= i < old(self).lists@.len() ==> #[trigger] self.lists@[i]
                        == old(self).lists@[i],
                forall|i: int|
                    old(self).lists@.len() <= i < self.lists@.len() ==> (#[trigger] self.lists@[i])
                        is None,
            decreases idx + 1 - self.lists@.len(),
        {
            self.lists.push(None);
        }
        self.lists[idx] = Some(list);
        assert(self@ =~= with_list(old(self)@, idx, list@));
    }

    /// Takes a node out of the index.
    pub fn remove(&mut self, idx: usize)
        ensures
            final(self)@ == without_list(old(self)@, idx),
    {
        if idx < self.lists.len() {
            self.lists[idx] = None;
        }
        assert(self@ =~= without_list(old(self)@, idx));
    }
}

/// The listed nodes whose parent is `parent`, in the order of the list.
pub open spec fn listed_children(nodes: NodesModel, idxs: Seq<usize>, parent: usize) -> Seq<usize>
    decreases idxs.len(),
{
    if idxs.len() == 0 {
        Seq::empty()
    } else if parent_of(nodes, idxs.last()) == Some(parent) {
        listed_children(nodes, idxs.drop_last(), parent).push(idxs.last())
    } else {
        listed_children(nodes, idxs.drop_last(), parent)
    }
}

/// Whether an index lists for every node exactly its children: a listed node has a list, though it
/// may be empty, and so has every parent of one.
pub open spec fn indexes(children: ChildrenModel, nodes: NodesModel, idxs: Seq<usize>) -> bool {
    forall|p: usize|
        #[trigger] children_at(children, p) == (if idxs.contains(p) || listed_children(
            nodes,
            idxs,
            p,
        ).len() > 0 {
            Some(listed_children(nodes, idxs, p))
        } else {
            None
        })
}

/// Lists for every node its children, in the order in which `idxs` lists them.
pub fn build_children_index(nodes: &NodesTable, idxs: &Vec<usize>) -> (r: ChildrenIndex)
    requires
        forall|i: int| 0 <= i < idxs@.len() ==> (#[trigger] idxs@[i]) < usize::MAX,
        forall|i: int|
            0 <= i < idxs@.len() ==> (parent_of(nodes@, #[trigger] idxs@[i]) matches Some(parent)
                ==> parent < usize::MAX),
    ensures
        indexes(r@, nodes@, idxs@),
{
    let mut index = ChildrenIndex::new();
    let mut at: usize = 0;
    while at < idxs.len()
        invariant
            at <= idxs@.len(),
            forall|i: int|
                0 <= i < idxs@.len() ==> (parent_of(nodes@, #[trigger] idxs@[i]) matches Some(
                    parent,
                ) ==> parent < usize::MAX),
            forall|p: usize|
                #[trigger] children_at(index@, p) == (if listed_children(
                    nodes@,
                    idxs@.take(at as int),
                    p,
                ).len() > 0 {
                    Some(listed_children(nodes@, idxs@.take(at as int), p))
                } else {
                    None
                }),
        decreases idxs@.len() - at,
    {
        let ghost taken = idxs@.take(at + 1);
        assert(taken.drop_last() =~= idxs@.take(at as int));
        let idx: usize = idxs[at];
        let ghost before = index@;
        match nodes.parent(idx) {
            Some(parent) => {
                let mut list = index.list_or_empty(parent);
                list.push(idx);
                index.insert(parent, list);
                assert forall|p: usize|
                    #[trigger] children_at(index@, p) == (if listed_children(
                        nodes@,
                        taken,
                        p,
                    ).len() > 0 {
                        Some(listed_children(nodes@, taken, p))
                    } else {
                        None
                    }) by {
                    assert(children_at(before, p) == children_at(before, p));
                    if p == parent {
                        assert(list@ =~= listed_children(nodes@, taken, p));
                    }
                }
            },
            None => {},
        }
        at = at + 1;
    }
    assert(idxs@.take(idxs@.len() as int) =~= idxs@);
    let mut k: usize = 0;
    while k < idxs.len()
        invariant
            k <= idxs@.len(),
            forall|i: int| 0 <= i < idxs@.len() ==> (#[trigger] idxs@[i]) < usize::MAX,
            forall|p: usize|
                #[trigger] children_at(index@, p) == (if idxs@.take(k as int).contains(p)
                    || listed_children(nodes@, idxs@, p).len() > 0 {
                    Some(listed_children(nodes@, idxs@, p))
                } else {
                    None
                }),
        decreases idxs@.len() - k,
    {
        let ghost taken = idxs@.take(k + 1);
        let idx: usize = idxs[k];
        proof {
            assert(taken =~= idxs@.take(k as int).push(idx));
            assert forall|p: usize| taken.contains(p) == (idxs@.take(k as int).contains(p) || p
                == idx) by {
                if taken.contains(p) {
                    let i = choose|i: int| 0 <= i < taken.len() && taken[i] == p;
                    if i < k {
                        assert(idxs@.take(k as int)[i] == p);
                    }
                }
                if idxs@.take(k as int).contains(p) {
                    let i = choose|i: int| 0 <= i < k && idxs@.take(k as int)[i] == p;
                    assert(taken[i] == p);
                }
                assert(taken[k as int] == idx);
            }
        }
        let ghost before = index@;
        assert(children_at(before, idx) == children_at(index@, idx));
        if index.get(idx).is_none() {
            let list: Vec<usize> = Vec::new();
            index.insert(idx, list);
            assert(list@ =~= listed_children(nodes@, idxs@, idx));
        }
        assert forall|p: usize|
            #[trigger] children_at(index@, p) == (if taken.contains(p) || listed_children(
                nodes@,
                idxs@,
                p,
            ).len() > 0 {
                Some(listed_children(nodes@, idxs@, p))
            } else {
                None
            }) by {
            assert(children_at(before, p) == children_at(before, p));
        }
        k = k + 1;
    }
    index
}

} // verus!
