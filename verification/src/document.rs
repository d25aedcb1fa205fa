//! A document that changes: nodes are added, moved, copied and removed, and the lists of children
//! follow.
use std::collections::HashSet;
use vstd::prelude::*;

use crate::dom::node_at;
use crate::dom::parent_of;
use crate::dom::with_node;
use crate::dom::CommentElement;
use crate::dom::Node;
use crate::dom::NodeModel;
use crate::dom::NodesModel;
use crate::dom::NodesTable;
use crate::dom::TextElement;
use crate::subtree::child_of;
use crate::subtree::depth_of;
use crate::subtree::descends;
use crate::subtree::lemma_child_is_lower;
use crate::subtree::tree_like;
use crate::tree::acyclic;
use crate::tree::build_children_index;
use crate::tree::children_at;
use crate::tree::climbs;
use crate::tree::indexes;
use crate::tree::lineage;
use crate::tree::listed_children;
use crate::tree::rank_of;
use crate::tree::with_list;
use crate::tree::ChildrenIndex;
use crate::tree::ChildrenModel;

verus! {

broadcast use vstd::std_specs::hash::group_hash_axioms;

/// The nodes of a document, the order in which they are listed, and their children.
#[derive(Debug)]
pub struct Document {
    pub nodes: NodesTable,
    pub nodes_idxs: Vec<usize>,
    pub children: ChildrenIndex,
}

/// What a [`Document`] holds. The number of the newest node is `cursor`.
#[verifier::ext_equal]
pub struct DocumentModel {
    pub nodes: NodesModel,
    pub cursor: usize,
    pub order: Seq<usize>,
    pub children: ChildrenModel,
}

impl View for Document {
    type V = DocumentModel;

    open spec fn view(&self) -> DocumentModel {
        DocumentModel {
            nodes: self.nodes@,
            cursor: self.nodes.cursor,
            order: self.nodes_idxs@,
            children: self.children@,
        }
    }
}

/// A list without the members of a set.
pub open spec fn outside(list: Seq<usize>, gone: Set<usize>) -> Seq<usize>
    decreases list.len(),
{
    if list.len() == 0 {
        Seq::empty()
    } else if gone.contains(list.last()) {
        outside(list.drop_last(), gone)
    } else {
        outside(list.drop_last(), gone).push(list.last())
    }
}

/// The first place of a number in a list; the length where it does not occur.
pub open spec fn place_of(list: Seq<usize>, idx: usize) -> int
    decreases list.len(),
{
    if list.len() == 0 || list[0] == idx {
        0
    } else {
        1 + place_of(list.drop_first(), idx)
    }
}

/// One after the other from `first` on.
pub open spec fn numbers_from(first: int, count: int) -> Seq<usize> {
    Seq::new(count as nat, |i: int| (first + i) as usize)
}

fn retain_outside(list: &Vec<usize>, gone: &HashSet<usize>) -> (r: Vec<usize>)
    ensures
        r@ == outside(list@, gone@),
{
    let mut kept: Vec<usize> = Vec::new();
    let mut at: usize = 0;
    while at < list.len()
        invariant
            at <= list@.len(),
            kept@ == outside(list@.take(at as int), gone@),
        decreases list@.len() - at,
    {
        assert(list@.take(at + 1).drop_last() =~= list@.take(at as int));
        if !gone.contains(&list[at]) {
            kept.push(list[at]);
        }
        at = at + 1;
    }
    assert(list@.take(list@.len() as int) =~= list@);
    kept
}

/// A list without one number.
pub open spec fn without(list: Seq<usize>, idx: usize) -> Seq<usize> {
    outside(list, set![idx])
}

fn retain_other(list: &Vec<usize>, idx: usize) -> (r: Vec<usize>)
    ensures
        r@ == without(list@, idx),
{
    let mut gone: HashSet<usize> = HashSet::new();
    gone.insert(idx);
    assert(gone@ =~= set![idx]);
    retain_outside(list, &gone)
}

pub(crate) proof fn lemma_place_of(list: Seq<usize>, idx: usize)
    ensures
        0 <= place_of(list, idx) <= list.len(),
        place_of(list, idx) < list.len() ==> list[place_of(list, idx)] == idx,
        list.contains(idx) ==> place_of(list, idx) < list.len(),
        forall|i: int| 0 <= i < place_of(list, idx) ==> list[i] != idx,
    decreases list.len(),
{
    if list.len() > 0 && list[0] != idx {
        let rest = list.drop_first();
        lemma_place_of(rest, idx);
        if list.contains(idx) {
            let k = choose|k: int| 0 <= k < list.len() && list[k] == idx;
            assert(rest[k - 1] == idx);
        }
        assert forall|i: int| 0 <= i < place_of(list, idx) implies list[i] != idx by {
            if i > 0 {
                assert(rest[i - 1] == list[i]);
            }
        }
    } else if list.len() > 0 {
        assert(list[0] == idx);
    }
}

pub(crate) proof fn lemma_place_is(list: Seq<usize>, idx: usize, at: int)
    requires
        0 <= at <= list.len(),
        at < list.len() ==> list[at] == idx,
        forall|i: int| 0 <= i < at ==> list[i] != idx,
    ensures
        place_of(list, idx) == at,
{
    lemma_place_of(list, idx);
    if at < list.len() {
        assert(list.contains(idx));
    }
}

pub(crate) fn find_place(list: &Vec<usize>, idx: usize) -> (r: usize)
    ensures
        r == place_of(list@, idx),
        r <= list@.len(),
{
    let mut at: usize = 0;
    while at < list.len()
        invariant
            at <= list@.len(),
            forall|i: int| 0 <= i < at ==> list@[i] != idx,
        decreases list@.len() - at,
    {
        if list[at] == idx {
            proof {
                lemma_place_is(list@, idx, at as int);
            }
            return at;
        }
        at = at + 1;
    }
    proof {
        lemma_place_is(list@, idx, at as int);
    }
    at
}

/// Whether `child` is listed as a child of `parent`.
pub open spec fn is_child(children: ChildrenModel, parent: usize, child: usize) -> bool {
    children_at(children, parent) matches Some(list) && list.contains(child)
}

pub open spec fn steps_down(children: ChildrenModel, path: Seq<usize>, i: int) -> bool {
    is_child(children, path[i], path[i + 1])
}

/// Whether `path` leads from one of the starting nodes down to `idx`.
pub open spec fn leads_to(
    children: ChildrenModel,
    starts: Seq<usize>,
    path: Seq<usize>,
    idx: usize,
) -> bool {
    &&& path.len() > 0
    &&& starts.contains(path[0])
    &&& path.last() == idx
    &&& forall|i: int| 0 <= i < path.len() - 1 ==> #[trigger] steps_down(children, path, i)
}

/// Whether a node is one of the starting nodes or lies below one.
pub open spec fn reached(children: ChildrenModel, starts: Seq<usize>, idx: usize) -> bool {
    exists|path: Seq<usize>| leads_to(children, starts, path, idx)
}

/// The starting nodes and everything below them.
pub open spec fn all_reached(children: ChildrenModel, starts: Seq<usize>) -> Set<usize> {
    Set::new(|idx: usize| reached(children, starts, idx))
}

proof fn lemma_start_is_reached(children: ChildrenModel, starts: Seq<usize>, idx: usize)
    requires
        starts.contains(idx),
    ensures
        reached(children, starts, idx),
{
    assert(leads_to(children, starts, seq![idx], idx));
}

proof fn lemma_child_is_reached(
    children: ChildrenModel,
    starts: Seq<usize>,
    parent: usize,
    child: usize,
)
    requires
        reached(children, starts, parent),
        is_child(children, parent, child),
    ensures
        reached(children, starts, child),
{
    let path = choose|path: Seq<usize>| leads_to(children, starts, path, parent);
    let longer = path.push(child);
    assert forall|i: int| 0 <= i < longer.len() - 1 implies #[trigger] steps_down(
        children,
        longer,
        i,
    ) by {
        if i < path.len() - 1 {
            assert(steps_down(children, path, i));
        }
    }
    assert(leads_to(children, starts, longer, child));
}

proof fn lemma_closed_holds_path(
    children: ChildrenModel,
    starts: Seq<usize>,
    closed: Set<usize>,
    path: Seq<usize>,
    at: int,
)
    requires
        path.len() > 0,
        starts.contains(path[0]),
        forall|i: int| 0 <= i < path.len() - 1 ==> #[trigger] steps_down(children, path, i),
        forall|x: usize| starts.contains(x) ==> #[trigger] closed.contains(x),
        forall|p: usize, c: usize|
            closed.contains(p) && #[trigger] is_child(children, p, c) ==> closed.contains(c),
        0 <= at < path.len(),
    ensures
        closed.contains(path[at]),
    decreases at,
{
    if at > 0 {
        lemma_closed_holds_path(children, starts, closed, path, at - 1);
        assert(steps_down(children, path, at - 1));
    }
}

proof fn lemma_closed_is_all(children: ChildrenModel, starts: Seq<usize>, closed: Set<usize>)
    requires
        forall|x: usize| starts.contains(x) ==> #[trigger] closed.contains(x),
        forall|p: usize, c: usize|
            closed.contains(p) && #[trigger] is_child(children, p, c) ==> closed.contains(c),
        forall|x: usize| #[trigger] closed.contains(x) ==> reached(children, starts, x),
    ensures
        closed =~= all_reached(children, starts),
{
    assert forall|x: usize| all_reached(children, starts).contains(x) implies closed.contains(
        x,
    ) by {
        let path = choose|path: Seq<usize>| leads_to(children, starts, path, x);
        lemma_closed_holds_path(children, starts, closed, path, path.len() - 1);
    }
}

proof fn lemma_contains_pushed(list: Seq<usize>, idx: usize)
    ensures
        forall|x: usize| #[trigger] list.push(idx).contains(x) <==> list.contains(x) || x == idx,
{
    assert forall|x: usize| #[trigger] list.push(idx).contains(x) <==> list.contains(x) || x
        == idx by {
        let pushed = list.push(idx);
        if list.contains(x) {
            let k = choose|k: int| 0 <= k < list.len() && list[k] == x;
            assert(pushed[k] == x);
        }
        assert(pushed[list.len() as int] == idx);
        if pushed.contains(x) {
            let k = choose|k: int| 0 <= k < pushed.len() && pushed[k] == x;
            if k < list.len() {
                assert(list[k] == x);
            }
        }
    }
}

fn append_all(list: &mut Vec<usize>, other: &Vec<usize>)
    ensures
        forall|x: usize| #[trigger]
            final(list)@.contains(x) <==> old(list)@.contains(x) || other@.contains(x),
{
    let ghost start = list@;
    let mut at: usize = 0;
    while at < other.len()
        invariant
            at <= other@.len(),
            forall|x: usize| #[trigger]
                list@.contains(x) <==> start.contains(x) || other@.take(at as int).contains(x),
        decreases other@.len() - at,
    {
        proof {
            lemma_contains_pushed(list@, other@[at as int]);
            lemma_contains_pushed(other@.take(at as int), other@[at as int]);
            assert(other@.take(at + 1) =~= other@.take(at as int).push(other@[at as int]));
        }
        list.push(other[at]);
        at = at + 1;
    }
    assert(other@.take(other@.len() as int) =~= other@);
}

/// The starting nodes and everything below them, each once.
pub fn collect_reached(index: &ChildrenIndex, starts: &Vec<usize>) -> (r: (
    Vec<usize>,
    HashSet<usize>,
))
    ensures
        r.1@ == all_reached(index@, starts@),
        forall|x: usize| #[trigger] r.0@.contains(x) <==> r.1@.contains(x),
{
    let mut pending: Vec<usize> = Vec::new();
    append_all(&mut pending, starts);
    let mut removed: Vec<usize> = Vec::new();
    let mut seen: HashSet<usize> = HashSet::new();
    proof {
        assert forall|x: usize| #[trigger] pending@.contains(x) implies reached(
            index@,
            starts@,
            x,
        ) by {
            lemma_start_is_reached(index@, starts@, x);
        }
    }
    while pending.len() > 0
        invariant
            removed@.len() <= usize::MAX,
            forall|x: usize| #[trigger] removed@.contains(x) <==> seen@.contains(x),
            forall|x: usize| #[trigger] pending@.contains(x) ==> reached(index@, starts@, x),
            forall|x: usize| #[trigger] seen@.contains(x) ==> reached(index@, starts@, x),
            forall|x: usize| #[trigger] starts@.contains(x) ==> seen@.contains(x)
                || pending@.contains(x),
            forall|p: usize, c: usize|
                seen@.contains(p) && #[trigger] is_child(index@, p, c) ==> seen@.contains(c)
                    || pending@.contains(c),
        decreases usize::MAX - removed@.len(), pending@.len(),
    {
        let ghost before = pending@;
        let ghost seen_before = seen@;
        let popped = pending.pop();
        match popped {
            Some(node_idx) => {
                proof {
                    assert(before =~= pending@.push(node_idx));
                    lemma_contains_pushed(pending@, node_idx);
                    assert(before.contains(node_idx));
                }
                if !seen.contains(&node_idx) {
                    seen.insert(node_idx);
                    proof {
                        lemma_contains_pushed(removed@, node_idx);
                    }
                    removed.push(node_idx);
                    let _count: usize = removed.len();
                    match index.get(node_idx) {
                        Some(list) => {
                            let ghost rest = pending@;
                            append_all(&mut pending, list);
                            assert forall|x: usize| #[trigger] pending@.contains(x) implies reached(
                                index@,
                                starts@,
                                x,
                            ) by {
                                if list@.contains(x) {
                                    assert(is_child(index@, node_idx, x));
                                    lemma_child_is_reached(index@, starts@, node_idx, x);
                                } else {
                                    assert(rest.contains(x));
                                    assert(before.contains(x));
                                }
                            }
                            assert forall|p: usize, c: usize|
                                seen@.contains(p) && #[trigger] is_child(
                                    index@,
                                    p,
                                    c,
                                ) implies seen@.contains(c) || pending@.contains(c) by {
                                if p != node_idx {
                                    assert(seen_before.contains(p));
                                    assert(seen_before.contains(c) || before.contains(c));
                                }
                            }
                            assert forall|x: usize| #[trigger] starts@.contains(
                                x,
                            ) implies seen@.contains(x) || pending@.contains(x) by {
                                assert(seen_before.contains(x) || before.contains(x));
                            }
                        },
                        None => {
                            assert forall|x: usize| #[trigger] pending@.contains(x) implies reached(
                                index@,
                                starts@,
                                x,
                            ) by {
                                assert(before.contains(x));
                            }
                            assert forall|p: usize, c: usize|
                                seen@.contains(p) && #[trigger] is_child(
                                    index@,
                                    p,
                                    c,
                                ) implies seen@.contains(c) || pending@.contains(c) by {
                                assert(seen_before.contains(p));
                                assert(seen_before.contains(c) || before.contains(c));
                            }
                            assert forall|x: usize| #[trigger] starts@.contains(
                                x,
                            ) implies seen@.contains(x) || pending@.contains(x) by {
                                assert(seen_before.contains(x) || before.contains(x));
                            }
                        },
                    }
                } else {
                    assert forall|x: usize| #[trigger] pending@.contains(x) implies reached(
                        index@,
                        starts@,
                        x,
                    ) by {
                        assert(before.contains(x));
                    }
                    assert forall|p: usize, c: usize|
                        seen@.contains(p) && #[trigger] is_child(index@, p, c) implies seen@.contains(
                        c,
                    ) || pending@.contains(c) by {
                        assert(seen_before.contains(c) || before.contains(c));
                    }
                    assert forall|x: usize| #[trigger] starts@.contains(x) implies seen@.contains(x)
                        || pending@.contains(x) by {
                        assert(seen_before.contains(x) || before.contains(x));
                    }
                }
            },
            None => {},
        }
    }
    proof {
        assert forall|x: usize| starts@.contains(x) implies #[trigger] seen@.contains(x) by {
            assert(!pending@.contains(x));
        }
        assert forall|p: usize, c: usize|
            seen@.contains(p) && #[trigger] is_child(index@, p, c) implies seen@.contains(c) by {
            assert(!pending@.contains(c));
        }
        lemma_closed_is_all(index@, starts@, seen@);
    }
    (removed, seen)
}

impl DocumentModel {
    /// The document without the nodes of a set: their numbers are empty, they are not listed and
    /// have no lists of children.
    pub open spec fn without_all(self, gone: Set<usize>) -> DocumentModel {
        DocumentModel {
            nodes: Seq::new(
                self.nodes.len(),
                |i: int|
                    if gone.contains(i as usize) {
                        None
                    } else {
                        self.nodes[i]
                    },
            ),
            cursor: self.cursor,
            order: outside(self.order, gone),
            children: Seq::new(
                self.children.len(),
                |i: int|
                    if gone.contains(i as usize) {
                        None
                    } else {
                        self.children[i]
                    },
            ),
        }
    }

    pub open spec fn list_of(self, idx: usize) -> Seq<usize> {
        match children_at(self.children, idx) {
            Some(list) => list,
            None => Seq::empty(),
        }
    }

    pub open spec fn with_children(self, idx: usize, list: Seq<usize>) -> DocumentModel {
        DocumentModel { children: with_list(self.children, idx, list), ..self }
    }

    /// A node leaves the list of a parent that has one.
    pub open spec fn unlisted(self, parent: Option<usize>, idx: usize) -> DocumentModel {
        match parent {
            Some(parent) => match children_at(self.children, parent) {
                Some(list) => self.with_children(parent, without(list, idx)),
                None => self,
            },
            None => self,
        }
    }

    /// A node gets the next number and is listed last.
    pub open spec fn pushed(self, node: NodeModel) -> DocumentModel {
        DocumentModel {
            nodes: with_node(self.nodes, (self.cursor + 1) as usize, node),
            cursor: (self.cursor + 1) as usize,
            order: self.order.push((self.cursor + 1) as usize),
            children: self.children,
        }
    }

    /// The node and everything below it are removed.
    pub open spec fn removed(self, idx: usize, remove_from_parent: bool) -> DocumentModel {
        let gone = all_reached(self.children, seq![idx]);
        if remove_from_parent {
            self.unlisted(parent_of(self.nodes, idx), idx).without_all(gone)
        } else {
            self.without_all(gone)
        }
    }

    /// Everything below a node is removed; its own list becomes empty.
    pub open spec fn children_removed(self, idx: usize) -> DocumentModel {
        self.without_all(all_reached(self.children, self.list_of(idx))).with_children(
            idx,
            Seq::empty(),
        )
    }

    /// A node leaves its parent and keeps what lies below it.
    pub open spec fn detached(self, idx: usize) -> DocumentModel {
        match parent_of(self.nodes, idx) {
            Some(parent) => DocumentModel {
                nodes: with_node(
                    self.nodes,
                    idx,
                    node_at(self.nodes, idx)->0.with_parent(None),
                ),
                ..self.unlisted(Some(parent), idx)
            },
            None => self,
        }
    }

    /// A node becomes a child of `parent`: before `before` where that is a child, else the last
    /// one. Where a node to stand before is given, the node moves before it in the order of the
    /// document too. Nothing changes where it is to stand before itself.
    pub open spec fn appended(self, parent: usize, idx: usize, before: Option<usize>) -> DocumentModel {
        if before == Some(idx) {
            self
        } else {
            let left = self.unlisted(parent_of(self.nodes, idx), idx);
            let list = left.list_of(parent);
            let place = match before {
                Some(before) => place_of(list, before),
                None => list.len() as int,
            };
            let joined = left.with_children(parent, list.insert(place, idx));
            DocumentModel {
                nodes: with_node(
                    self.nodes,
                    idx,
                    node_at(self.nodes, idx)->0.with_parent(Some(parent)),
                ),
                cursor: self.cursor,
                order: match before {
                    Some(before) => moved_before(self.order, idx, before),
                    None => self.order,
                },
                children: if children_at(joined.children, idx) is Some {
                    joined.children
                } else {
                    with_list(joined.children, idx, Seq::empty())
                },
            }
        }
    }

    /// The text of a node is replaced. An element keeps nothing below it but one new text node.
    pub open spec fn with_text(self, idx: usize, new_text: Seq<char>) -> DocumentModel {
        match node_at(self.nodes, idx) {
            Some(NodeModel::Text { text, parent }) => DocumentModel {
                nodes: with_node(self.nodes, idx, NodeModel::Text { text: new_text, parent }),
                ..self
            },
            Some(NodeModel::Comment { comment, parent }) => DocumentModel {
                nodes: with_node(
                    self.nodes,
                    idx,
                    NodeModel::Comment { comment: new_text, parent },
                ),
                ..self
            },
            Some(NodeModel::Element { tag, attributes, parent }) => {
                let emptied = self.children_removed(idx).pushed(
                    NodeModel::Text { text: new_text, parent: Some(idx) },
                );
                emptied.with_children(idx, seq![emptied.cursor]).with_children(
                    emptied.cursor,
                    Seq::empty(),
                )
            },
            None => self,
        }
    }

    /// Several nodes get the next numbers. A node without a parent becomes a child of `parent`;
    /// the other parents are counted from the first new node.
    pub open spec fn grown(self, parent: usize, added: Seq<NodeModel>) -> DocumentModel {
        let first = self.cursor + 1;
        DocumentModel {
            nodes: nodes_grown(self.nodes, first, parent, added),
            cursor: (self.cursor + added.len()) as usize,
            order: self.order + numbers_from(first, added.len() as int),
            children: self.children,
        }
    }
}

/// `idx` stands right before `before` and keeps all others in order.
pub open spec fn moved_before(order: Seq<usize>, idx: usize, before: usize) -> Seq<usize> {
    let from = place_of(order, idx);
    let to = place_of(order, before);
    order.remove(from).insert(
        if from < to {
            to - 1
        } else {
            to
        },
        idx,
    )
}

/// The parent that an added node gets; nothing where it names a parent that was not added.
pub open spec fn grown_parent(
    added: Seq<NodeModel>,
    first: int,
    parent: usize,
    i: int,
) -> Option<usize> {
    match added[i].parent_idx() {
        None => Some(parent),
        Some(own) => if own < added.len() {
            Some((first + own) as usize)
        } else {
            None
        },
    }
}

pub open spec fn nodes_grown(
    nodes: NodesModel,
    first: int,
    parent: usize,
    added: Seq<NodeModel>,
) -> NodesModel {
    Seq::new(
        if added.len() == 0 || first + added.len() <= nodes.len() {
            nodes.len()
        } else {
            (first + added.len()) as nat
        },
        |i: int|
            if first <= i < first + added.len() {
                Some(added[i - first].with_parent(grown_parent(added, first, parent, i - first)))
            } else if i < nodes.len() {
                nodes[i]
            } else {
                None
            },
    )
}

/// Every listed node, and the parent that it names, has a number that a list can be kept for.
pub open spec fn numbered(doc: DocumentModel) -> bool {
    forall|i: int|
        0 <= i < doc.order.len() ==> {
            &&& (#[trigger] doc.order[i]) < usize::MAX
            &&& parent_of(doc.nodes, doc.order[i]) matches Some(parent) ==> parent < usize::MAX
        }
}

impl Document {
    /// The document of nodes that are numbered from zero.
    pub fn from_nodes(nodes: Vec<Node>) -> (r: Document)
        requires
            nodes@.len() < usize::MAX,
            forall|i: int|
                0 <= i < nodes@.len() ==> ((#[trigger] nodes@[i])@.parent_idx() matches Some(parent)
                    ==> parent < usize::MAX),
        ensures
            r@.nodes == Seq::new(nodes@.len(), |i: int| Some(nodes@[i]@)),
            r@.cursor == nodes@.len(),
            r@.order == numbers_from(0, nodes@.len() as int),
            indexes(r@.children, r@.nodes, r@.order),
    {
        let count: usize = nodes.len();
        let mut nodes_idxs: Vec<usize> = Vec::new();
        let mut at: usize = 0;
        while at < count
            invariant
                at <= count,
                nodes_idxs@ == numbers_from(0, at as int),
            decreases count - at,
        {
            nodes_idxs.push(at);
            assert(nodes_idxs@ =~= numbers_from(0, at + 1));
            at = at + 1;
        }
        let ghost given = nodes@;
        let table = NodesTable::new_from_nodes(nodes);
        assert forall|i: int| 0 <= i < nodes_idxs@.len() implies (parent_of(
            table@,
            #[trigger] nodes_idxs@[i],
        ) matches Some(parent) ==> parent < usize::MAX) by {
            assert(nodes_idxs@[i] == i);
            assert(table@[i] == Some(given[i]@));
        }
        let children = build_children_index(&table, &nodes_idxs);
        Document { nodes: table, nodes_idxs, children }
    }

    fn remove_from_tables(&mut self, removed: &Vec<usize>, gone: &HashSet<usize>)
        requires
            forall|x: usize| #[trigger] removed@.contains(x) <==> gone@.contains(x),
        ensures
            final(self)@ == old(self)@.without_all(gone@),
    {
        let _node_count: usize = self.nodes.data.len();
        let _list_count: usize = self.children.lists.len();
        let kept = retain_outside(&self.nodes_idxs, gone);
        self.nodes_idxs = kept;
        let ghost before = old(self)@;
        let mut at: usize = 0;
        while at < removed.len()
            invariant
                at <= removed@.len(),
                self@.cursor == before.cursor,
                self@.order == outside(before.order, gone@),
                self@.nodes.len() == before.nodes.len(),
                self@.children.len() == before.children.len(),
                before.nodes.len() <= usize::MAX,
                before.children.len() <= usize::MAX,
                forall|i: int|
                    0 <= i < before.nodes.len() ==> #[trigger] self@.nodes[i] == (if removed@.take(
                        at as int,
                    ).contains(i as usize) {
                        None
                    } else {
                        before.nodes[i]
                    }),
                forall|i: int|
                    0 <= i < before.children.len() ==> #[trigger] self@.children[i] == (
                    if removed@.take(at as int).contains(i as usize) {
                        None
                    } else {
                        before.children[i]
                    }),
            decreases removed@.len() - at,
        {
            let node_idx: usize = removed[at];
            proof {
                lemma_contains_pushed(removed@.take(at as int), node_idx);
                assert(removed@.take(at + 1) =~= removed@.take(at as int).push(node_idx));
            }
            if node_idx < self.nodes.data.len() {
                self.nodes.remove(node_idx);
            }
            self.children.remove(node_idx);
            at = at + 1;
        }
        assert(removed@.take(removed@.len() as int) =~= removed@);
        assert(self@ =~= before.without_all(gone@));
    }

    /// Takes a node off the list of a parent that has one.
    fn unlist(&mut self, parent: usize, node_idx: usize)
        ensures
            final(self)@ == old(self)@.unlisted(Some(parent), node_idx),
    {
        let _list_count: usize = self.children.lists.len();
        let list: Option<Vec<usize>> = match self.children.get(parent) {
            Some(list) => Some(retain_other(list, node_idx)),
            None => None,
        };
        match list {
            Some(list) => {
                self.children.insert(parent, list);
            },
            None => {},
        }
        assert(self@ =~= old(self)@.unlisted(Some(parent), node_idx));
    }

    /// Removes a node and everything below it. The numbers of the removed nodes come back.
    pub fn remove_node(&mut self, node_idx: usize, remove_from_parent: bool) -> (r: Vec<usize>)
        requires
            node_at(old(self)@.nodes, node_idx) is Some,
        ensures
            final(self)@ == old(self)@.removed(node_idx, remove_from_parent),
            forall|x: usize| #[trigger]
                r@.contains(x) <==> reached(old(self)@.children, seq![node_idx], x),
    {
        let mut starts: Vec<usize> = Vec::new();
        starts.push(node_idx);
        assert(starts@ =~= seq![node_idx]);
        let (removed, gone) = collect_reached(&self.children, &starts);
        if remove_from_parent {
            match self.nodes.parent(node_idx) {
                Some(parent) => {
                    self.unlist(parent, node_idx);
                },
                None => {},
            }
        }
        self.remove_from_tables(&removed, &gone);
        removed
    }

    /// Removes everything below a node. The numbers of the removed nodes come back.
    pub fn remove_children(&mut self, parent_idx: usize) -> (r: Vec<usize>)
        requires
            parent_idx < usize::MAX,
        ensures
            final(self)@ == old(self)@.children_removed(parent_idx),
            forall|x: usize| #[trigger]
                r@.contains(x) <==> reached(
                    old(self)@.children,
                    old(self)@.list_of(parent_idx),
                    x,
                ),
    {
        let starts = self.children.list_or_empty(parent_idx);
        let (removed, gone) = collect_reached(&self.children, &starts);
        self.remove_from_tables(&removed, &gone);
        self.children.insert(parent_idx, Vec::new());
        assert(self@ =~= old(self)@.children_removed(parent_idx));
        removed
    }

    /// Takes a node from its parent; it keeps what lies below it.
    pub fn detach_node(&mut self, node_idx: usize)
        ensures
            final(self)@ == old(self)@.detached(node_idx),
    {
        match self.nodes.parent(node_idx) {
            None => {},
            Some(parent) => {
                self.unlist(parent, node_idx);
                self.nodes.set_parent(node_idx, None);
                assert(self@ =~= old(self)@.detached(node_idx));
            },
        }
    }

    /// Makes a node a child of another: before the given one where that is a child, else the last.
    pub fn append_child(&mut self, parent_idx: usize, node_idx: usize, before: Option<usize>)
        requires
            node_at(old(self)@.nodes, node_idx) is Some,
            parent_idx < usize::MAX,
            before matches Some(before) ==> old(self)@.order.contains(node_idx)
                && old(self)@.order.contains(before),
        ensures
            final(self)@ == old(self)@.appended(parent_idx, node_idx, before),
    {
        let _node_count: usize = self.nodes.data.len();
        if before.is_some() && before.unwrap() == node_idx {
            return ;
        }
        match self.nodes.parent(node_idx) {
            Some(parent) => {
                self.unlist(parent, node_idx);
            },
            None => {},
        }
        let ghost left = self@;
        self.nodes.set_parent(node_idx, Some(parent_idx));
        let mut list = self.children.list_or_empty(parent_idx);
        let ghost model = list@;
        let place: usize = match before {
            Some(before) => find_place(&list, before),
            None => list.len(),
        };
        list.insert(place, node_idx);
        assert(list@ =~= model.insert(place as int, node_idx));
        self.children.insert(parent_idx, list);
        if self.children.get(node_idx).is_none() {
            self.children.insert(node_idx, Vec::new());
        }
        match before {
            Some(before) => {
                proof {
                    lemma_place_of(self.nodes_idxs@, node_idx);
                    lemma_place_of(self.nodes_idxs@, before);
                }
                let from: usize = find_place(&self.nodes_idxs, node_idx);
                let to: usize = find_place(&self.nodes_idxs, before);
                let idx: usize = self.nodes_idxs.remove(from);
                let place: usize = if from < to {
                    to - 1
                } else {
                    to
                };
                self.nodes_idxs.insert(place, idx);
                assert(self.nodes_idxs@ =~= moved_before(old(self)@.order, node_idx, before));
            },
            None => {},
        }
        assert(self@ =~= old(self)@.appended(parent_idx, node_idx, before));
    }

    /// Gives a node the next number.
    pub fn push_node(&mut self, node: Node) -> (r: usize)
        requires
            old(self)@.cursor < usize::MAX - 1,
        ensures
            final(self)@ == old(self)@.pushed(node@),
            r == final(self)@.cursor,
    {
        let idx: usize = self.nodes.cursor + 1;
        self.nodes.cursor = idx;
        self.nodes_idxs.push(idx);
        self.nodes.insert(idx, node);
        assert(self@ =~= old(self)@.pushed(node@));
        idx
    }

    /// Replaces the text of a node. Whether nodes were removed comes back.
    pub fn set_text_content(&mut self, node_idx: usize, text: String) -> (r: (bool, Vec<usize>))
        requires
            node_at(old(self)@.nodes, node_idx) is Some,
            old(self)@.cursor < usize::MAX - 1,
        ensures
            final(self)@ == old(self)@.with_text(node_idx, text@),
            r.0 == (node_at(old(self)@.nodes, node_idx)->0 is Element && old(self)@.list_of(
                node_idx,
            ).len() > 0),
            forall|x: usize| #[trigger]
                r.1@.contains(x) <==> node_at(old(self)@.nodes, node_idx)->0 is Element && reached(
                    old(self)@.children,
                    old(self)@.list_of(node_idx),
                    x,
                ),
    {
        let _node_count: usize = self.nodes.data.len();
        let ghost before = self@;
        let kind: u8 = match self.nodes.get(node_idx) {
            Some(Node::Text(_)) => 0,
            Some(Node::Comment(_)) => 1,
            _ => 2,
        };
        if kind == 2 {
            let had_children = self.children.list_or_empty(node_idx).len() > 0;
            let removed = self.remove_children(node_idx);
            let text_idx: usize = self.push_node(
                Node::Text(TextElement { text, parent: Some(node_idx) }),
            );
            let mut list: Vec<usize> = Vec::new();
            list.push(text_idx);
            assert(list@ =~= seq![text_idx]);
            self.children.insert(node_idx, list);
            self.children.insert(text_idx, Vec::new());
            assert(self@ =~= before.with_text(node_idx, text@));
            (had_children, removed)
        } else {
            let parent = self.nodes.parent(node_idx);
            if kind == 0 {
                self.nodes.insert(node_idx, Node::Text(TextElement { text, parent }));
            } else {
                self.nodes.insert(
                    node_idx,
                    Node::Comment(CommentElement { comment: text, parent }),
                );
            }
            assert(self@ =~= before.with_text(node_idx, text@));
            (false, Vec::new())
        }
    }

    /// Gives several nodes the next numbers and hangs those without a parent below `parent_idx`.
    /// The other parents are counted from the first of the nodes.
    pub fn insert_nodes(&mut self, parent_idx: usize, added: &Vec<Node>)
        requires
            old(self)@.cursor + added@.len() < usize::MAX,
        ensures
            final(self)@ == old(self)@.grown(
                parent_idx,
                Seq::new(added@.len(), |i: int| added@[i]@),
            ),
    {
        let ghost before = self@;
        let ghost models = Seq::new(added@.len(), |i: int| added@[i]@);
        let count: usize = added.len();
        let first: usize = self.nodes.cursor + 1;
        self.nodes.cursor = self.nodes.cursor + count;
        let mut at: usize = 0;
        assert(self@.order =~= before.order + numbers_from(first as int, 0));
        while at < count
            invariant
                at <= count,
                count == added@.len(),
                first + count <= usize::MAX,
                models == Seq::new(added@.len(), |i: int| added@[i]@),
                self@.order == before.order + numbers_from(first as int, at as int),
                self@.cursor == before.cursor + count,
                self@.children == before.children,
                self@.nodes.len() == (if at == 0 || first + at <= before.nodes.len() {
                    before.nodes.len() as int
                } else {
                    first + at
                }),
                forall|i: int|
                    0 <= i < self@.nodes.len() ==> #[trigger] self@.nodes[i] == (if first <= i
                        < first + at {
                        Some(
                            models[i - first].with_parent(
                                grown_parent(models, first as int, parent_idx, i - first),
                            ),
                        )
                    } else if i < before.nodes.len() {
                        before.nodes[i]
                    } else {
                        None
                    }),
            decreases count - at,
        {
            let mut node = added[at].copy();
            let parent: Option<usize> = match node.get_parent() {
                None => Some(parent_idx),
                Some(own) => if own < count {
                    Some(first + own)
                } else {
                    None
                },
            };
            assert(models[at as int] == added@[at as int]@);
            assert(parent == grown_parent(models, first as int, parent_idx, at as int));
            node.set_parent(parent);
            let ghost order = self@.order;
            self.nodes_idxs.push(first + at);
            assert(self@.order =~= before.order + numbers_from(first as int, at + 1));
            self.nodes.insert(first + at, node);
            at = at + 1;
        }
        assert(self@.nodes =~= nodes_grown(before.nodes, first as int, parent_idx, models));
        assert(self@ =~= before.grown(parent_idx, models));
    }

    /// Lists the children of every node anew from the parents of the nodes.
    pub fn rebuild_children(&mut self)
        requires
            numbered(old(self)@),
        ensures
            indexes(final(self)@.children, old(self)@.nodes, old(self)@.order),
            final(self)@.nodes == old(self)@.nodes,
            final(self)@.order == old(self)@.order,
            final(self)@.cursor == old(self)@.cursor,
    {
        self.children = build_children_index(&self.nodes, &self.nodes_idxs);
    }
}

/// The document after a node has been copied below `parent`, with everything below it where `deep`
/// is set, and whether that succeeded. The copy has the number after the old `cursor`. The copying
/// ends where a node or a list of children is missing, or the numbers end.
pub open spec fn cloned(
    doc: DocumentModel,
    idx: usize,
    parent: Option<usize>,
    deep: bool,
) -> (DocumentModel, bool)
    decreases depth_of(doc.children)(idx), 1int, 0nat,
    when tree_like(doc.children)
{
    match node_at(doc.nodes, idx) {
        None => (doc, false),
        Some(node) => if doc.cursor >= usize::MAX - 1 {
            (doc, false)
        } else {
            let with_copy = doc.pushed(node.with_parent(parent));
            if !deep {
                (with_copy, true)
            } else {
                match children_at(doc.children, idx) {
                    None => (with_copy, false),
                    Some(list) => cloned_list(with_copy, idx, list, with_copy.cursor),
                }
            }
        },
    }
}

/// The document after the listed children of `source` have been copied below `parent`, in order.
pub open spec fn cloned_list(
    doc: DocumentModel,
    source: usize,
    list: Seq<usize>,
    parent: usize,
) -> (DocumentModel, bool)
    decreases depth_of(doc.children)(source), 0int, list.len(),
    when tree_like(doc.children)
{
    if list.len() == 0 {
        (doc, true)
    } else if depth_of(doc.children)(list[0]) < depth_of(doc.children)(source) {
        let (next, ok) = cloned(doc, list[0], Some(parent), true);
        if ok && next.children == doc.children {
            cloned_list(next, source, list.drop_first(), parent)
        } else {
            (next, false)
        }
    } else {
        (doc, false)
    }
}

/// Copying nodes changes no list of children.
pub proof fn lemma_cloning_keeps_lists(
    doc: DocumentModel,
    idx: usize,
    parent: Option<usize>,
    deep: bool,
)
    requires
        tree_like(doc.children),
    ensures
        cloned(doc, idx, parent, deep).0.children == doc.children,
    decreases depth_of(doc.children)(idx), 1int, 0nat,
{
    if node_at(doc.nodes, idx) is Some && doc.cursor < usize::MAX - 1 && deep {
        let with_copy = doc.pushed(node_at(doc.nodes, idx)->0.with_parent(parent));
        match children_at(doc.children, idx) {
            None => {},
            Some(list) => {
                lemma_cloning_list_keeps_lists(with_copy, idx, list, with_copy.cursor);
            },
        }
    }
}

proof fn lemma_cloning_list_keeps_lists(
    doc: DocumentModel,
    source: usize,
    list: Seq<usize>,
    parent: usize,
)
    requires
        tree_like(doc.children),
    ensures
        cloned_list(doc, source, list, parent).0.children == doc.children,
    decreases depth_of(doc.children)(source), 0int, list.len(),
{
    if list.len() > 0 && depth_of(doc.children)(list[0]) < depth_of(doc.children)(source) {
        lemma_cloning_keeps_lists(doc, list[0], Some(parent), true);
        let (next, ok) = cloned(doc, list[0], Some(parent), true);
        if ok {
            lemma_cloning_list_keeps_lists(next, source, list.drop_first(), parent);
        }
    }
}

/// Copies a node below `new_parent`, with everything below it where `deep` is set. The number of
/// the copy comes back; nothing where a node or a list of children is missing.
pub fn clone_node(
    doc: &mut Document,
    node_idx: usize,
    new_parent: Option<usize>,
    deep: bool,
) -> (r: Option<usize>)
    requires
        tree_like(old(doc)@.children),
    ensures
        final(doc)@ == cloned(old(doc)@, node_idx, new_parent, deep).0,
        final(doc)@.children == old(doc)@.children,
        r == (if cloned(old(doc)@, node_idx, new_parent, deep).1 {
            Some((old(doc)@.cursor + 1) as usize)
        } else {
            None
        }),
    decreases depth_of(old(doc)@.children)(node_idx), 1int,
{
    let mut node = match doc.nodes.get(node_idx) {
        Some(node) => node.copy(),
        None => {
            return None;
        },
    };
    if doc.nodes.cursor >= usize::MAX - 1 {
        return None;
    }
    node.set_parent(new_parent);
    let copy: usize = doc.push_node(node);
    if deep {
        match doc.children.get(node_idx) {
            None => {
                return None;
            },
            Some(_) => {},
        }
        let list = doc.children.list_or_empty(node_idx);
        if !clone_list(doc, node_idx, &list, copy) {
            return None;
        }
    }
    Some(copy)
}

fn clone_list(doc: &mut Document, source: usize, list: &Vec<usize>, parent: usize) -> (r: bool)
    requires
        tree_like(old(doc)@.children),
        children_at(old(doc)@.children, source) == Some(list@),
    ensures
        final(doc)@ == cloned_list(old(doc)@, source, list@, parent).0,
        final(doc)@.children == old(doc)@.children,
        r == cloned_list(old(doc)@, source, list@, parent).1,
    decreases depth_of(old(doc)@.children)(source), 0int,
{
    let ghost start = doc@;
    let mut at: usize = 0;
    assert(list@.skip(0) =~= list@);
    while at < list.len()
        invariant
            at <= list@.len(),
            start == old(doc)@,
            tree_like(start.children),
            doc@.children == start.children,
            children_at(start.children, source) == Some(list@),
            cloned_list(start, source, list@, parent) == cloned_list(
                doc@,
                source,
                list@.skip(at as int),
                parent,
            ),
        decreases list@.len() - at,
    {
        proof {
            lemma_child_is_lower(start.children, source, at as int);
            assert(list@.skip(at as int)[0] == list@[at as int]);
            assert(list@.skip(at as int).drop_first() =~= list@.skip(at + 1));
        }
        match clone_node(doc, list[at], Some(parent), true) {
            None => {
                return false;
            },
            Some(_) => {},
        }
        at = at + 1;
    }
    assert(list@.skip(at as int).len() == 0);
    true
}

/// The lists of children agree with the parents of the nodes: a node stands on the list of its
/// parent and on no other.
pub open spec fn linked(doc: DocumentModel) -> bool {
    forall|p: usize, c: usize|
        #[trigger] is_child(doc.children, p, c) <==> parent_of(doc.nodes, c) == Some(p)
}

pub proof fn lemma_outside(list: Seq<usize>, gone: Set<usize>, x: usize)
    ensures
        outside(list, gone).contains(x) <==> list.contains(x) && !gone.contains(x),
    decreases list.len(),
{
    if list.len() > 0 {
        let rest = list.drop_last();
        lemma_outside(rest, gone, x);
        lemma_contains_pushed(rest, list.last());
        lemma_contains_pushed(outside(rest, gone), list.last());
        assert(rest.push(list.last()) =~= list);
    }
}

proof fn lemma_contains_inserted(list: Seq<usize>, place: int, idx: usize, x: usize)
    requires
        0 <= place <= list.len(),
    ensures
        list.insert(place, idx).contains(x) <==> list.contains(x) || x == idx,
{
    let all = list.insert(place, idx);
    assert(all[place] == idx);
    if list.contains(x) {
        let k = choose|k: int| 0 <= k < list.len() && list[k] == x;
        if k < place {
            assert(all[k] == x);
        } else {
            assert(all[k + 1] == x);
        }
    }
    if all.contains(x) {
        let k = choose|k: int| 0 <= k < all.len() && all[k] == x;
        if k < place {
            assert(list[k] == x);
        } else if k > place {
            assert(list[k - 1] == x);
        }
    }
}

proof fn lemma_unlisted(doc: DocumentModel, parent: Option<usize>, idx: usize, p: usize, c: usize)
    ensures
        is_child(doc.unlisted(parent, idx).children, p, c) <==> is_child(doc.children, p, c) && !(
        parent == Some(p) && c == idx),
{
    match parent {
        Some(parent) => match children_at(doc.children, parent) {
            Some(list) => {
                lemma_outside(list, set![idx], c);
            },
            None => {},
        },
        None => {},
    }
}

/// Making a node a child of another keeps the lists in agreement with the parents.
pub proof fn lemma_append_keeps_links(
    doc: DocumentModel,
    parent: usize,
    idx: usize,
    before: Option<usize>,
)
    requires
        linked(doc),
        node_at(doc.nodes, idx) is Some,
    ensures
        linked(doc.appended(parent, idx, before)),
        before != Some(idx) ==> is_child(doc.appended(parent, idx, before).children, parent, idx),
{
    if before != Some(idx) {
        let after = doc.appended(parent, idx, before);
        let left = doc.unlisted(parent_of(doc.nodes, idx), idx);
        let list = left.list_of(parent);
        let place = match before {
            Some(before) => place_of(list, before),
            None => list.len() as int,
        };
        if let Some(before) = before {
            lemma_place_of(list, before);
        }
        assert forall|p: usize, c: usize|
            #[trigger] is_child(after.children, p, c) <==> parent_of(after.nodes, c) == Some(p) by {
            lemma_unlisted(doc, parent_of(doc.nodes, idx), idx, p, c);
            lemma_contains_inserted(list, place, idx, c);
            assert(is_child(doc.children, p, c) <==> parent_of(doc.nodes, c) == Some(p));
            assert(is_child(left.children, p, c) <==> parent_of(doc.nodes, c) == Some(p) && c
                != idx);
            if c != idx {
                assert(node_at(after.nodes, c) == node_at(doc.nodes, c));
            }
            if p == parent {
                assert(children_at(after.children, p) == Some(list.insert(place, idx)));
            } else if p == idx && children_at(left.children, p) is None {
                assert(children_at(after.children, p) == Some(Seq::<usize>::empty()));
            } else {
                assert(children_at(after.children, p) == children_at(left.children, p));
            }
        }
        assert(is_child(after.children, parent, idx) <==> parent_of(after.nodes, idx) == Some(
            parent,
        ));
    }
}

/// Taking a node from its parent keeps the lists in agreement with the parents, and leaves the
/// node on no list.
pub proof fn lemma_detach_keeps_links(doc: DocumentModel, idx: usize, p: usize)
    requires
        linked(doc),
    ensures
        linked(doc.detached(idx)),
        !is_child(doc.detached(idx).children, p, idx),
{
    let after = doc.detached(idx);
    assert forall|p: usize, c: usize|
        #[trigger] is_child(after.children, p, c) <==> parent_of(after.nodes, c) == Some(p) by {
        lemma_unlisted(doc, parent_of(doc.nodes, idx), idx, p, c);
        assert(is_child(doc.children, p, c) <==> parent_of(doc.nodes, c) == Some(p));
        if c != idx {
            assert(node_at(after.nodes, c) == node_at(doc.nodes, c));
        }
    }
    assert(is_child(after.children, p, idx) <==> parent_of(after.nodes, idx) == Some(p));
}

/// Removing a node with everything below it keeps the lists in agreement with the parents: no
/// node and no list names a removed node any more.
pub proof fn lemma_remove_keeps_links(doc: DocumentModel, idx: usize)
    requires
        linked(doc),
        doc.nodes.len() <= usize::MAX,
        doc.children.len() <= usize::MAX,
    ensures
        linked(doc.removed(idx, true)),
        node_at(doc.removed(idx, true).nodes, idx) is None,
        !doc.removed(idx, true).order.contains(idx),
{
    let starts = seq![idx];
    let gone = all_reached(doc.children, starts);
    let left = doc.unlisted(parent_of(doc.nodes, idx), idx);
    let after = doc.removed(idx, true);
    assert(starts[0] == idx);
    lemma_start_is_reached(doc.children, starts, idx);
    lemma_outside(doc.order, gone, idx);
    assert forall|p: usize, c: usize|
        #[trigger] is_child(after.children, p, c) <==> parent_of(after.nodes, c) == Some(p) by {
        lemma_unlisted(doc, parent_of(doc.nodes, idx), idx, p, c);
        assert(is_child(doc.children, p, c) <==> parent_of(doc.nodes, c) == Some(p));
        assert(node_at(after.nodes, c) == (if gone.contains(c) {
            None
        } else {
            node_at(doc.nodes, c)
        }));
        assert(children_at(after.children, p) == (if gone.contains(p) {
            None
        } else {
            children_at(left.children, p)
        }));
        if is_child(doc.children, p, c) {
            if gone.contains(p) {
                lemma_child_is_reached(doc.children, starts, p, c);
            } else if gone.contains(c) && c != idx {
                let path = choose|path: Seq<usize>| leads_to(doc.children, starts, path, c);
                let last = path.len() - 1;
                if path.len() == 1 {
                    assert(path[0] == c);
                    assert(starts.contains(c));
                    assert(false);
                } else {
                    let above = path.take(last);
                    let from = path[last - 1];
                    assert(steps_down(doc.children, path, last - 1));
                    assert forall|i: int| 0 <= i < above.len() - 1 implies #[trigger] steps_down(
                        doc.children,
                        above,
                        i,
                    ) by {
                        assert(steps_down(doc.children, path, i));
                    }
                    assert(leads_to(doc.children, starts, above, from));
                    assert(is_child(doc.children, from, c));
                    assert(gone.contains(from));
                }
            }
        }
    }
}

/// Lists that were built from the parents agree with them where every node is listed.
pub proof fn lemma_index_links(doc: DocumentModel)
    requires
        indexes(doc.children, doc.nodes, doc.order),
        forall|idx: usize| #[trigger] node_at(doc.nodes, idx) is Some ==> doc.order.contains(idx),
    ensures
        linked(doc),
{
    assert forall|p: usize, c: usize|
        #[trigger] is_child(doc.children, p, c) <==> parent_of(doc.nodes, c) == Some(p) by {
        lemma_listed_children(doc.nodes, doc.order, p, c);
        assert(children_at(doc.children, p) == children_at(doc.children, p));
        if parent_of(doc.nodes, c) == Some(p) {
            assert(node_at(doc.nodes, c) is Some);
        }
    }
}

proof fn lemma_listed_children(nodes: NodesModel, order: Seq<usize>, p: usize, c: usize)
    ensures
        listed_children(nodes, order, p).contains(c) <==> order.contains(c) && parent_of(nodes, c)
            == Some(p),
    decreases order.len(),
{
    if order.len() > 0 {
        let rest = order.drop_last();
        lemma_listed_children(nodes, rest, p, c);
        lemma_contains_pushed(rest, order.last());
        lemma_contains_pushed(listed_children(nodes, rest, p), order.last());
        assert(rest.push(order.last()) =~= order);
    }
}

proof fn lemma_ranks_are_bounded(rank: spec_fn(usize) -> nat, count: nat) -> (bound: nat)
    requires
        count <= usize::MAX,
    ensures
        forall|idx: usize| idx < count ==> #[trigger] rank(idx) <= bound,
    decreases count,
{
    if count == 0 {
        0
    } else {
        let before = lemma_ranks_are_bounded(rank, (count - 1) as nat);
        let last = rank((count - 1) as usize);
        let bound = if before < last {
            last
        } else {
            before
        };
        assert forall|idx: usize| idx < count implies #[trigger] rank(idx) <= bound by {
            if idx < count - 1 {
                assert(rank(idx) <= before);
            } else {
                assert(idx == (count - 1) as usize);
            }
        }
        bound
    }
}

/// Where no node is its own ancestor and the lists agree with the parents, following the lists
/// downwards ends too.
pub proof fn lemma_acyclic_is_tree_like(doc: DocumentModel)
    requires
        acyclic(doc.nodes),
        linked(doc),
        doc.nodes.len() <= usize::MAX,
    ensures
        tree_like(doc.children),
{
    let rank = rank_of(doc.nodes);
    assert(climbs(doc.nodes, rank));
    let bound = lemma_ranks_are_bounded(rank, doc.nodes.len());
    let depth = |idx: usize|
        if rank(idx) <= bound {
            (bound - rank(idx)) as nat
        } else {
            0nat
        };
    assert forall|idx: usize, k: int|
        (#[trigger] child_of(doc.children, idx, k)) matches Some(child) ==> depth(child) < depth(
            idx,
        ) by {
        if let Some(child) = child_of(doc.children, idx, k) {
            assert(children_at(doc.children, idx)->0[k] == child);
            assert(is_child(doc.children, idx, child));
            assert(parent_of(doc.nodes, child) == Some(idx));
            assert(rank(child) <= bound);
        }
    }
    assert(descends(doc.children, depth));
}

/// Nodes whose parents all have smaller numbers are not their own ancestors.
pub proof fn lemma_ascending_is_acyclic(nodes: NodesModel)
    requires
        forall|idx: usize|
            (#[trigger] parent_of(nodes, idx)) matches Some(parent) ==> parent < idx,
    ensures
        acyclic(nodes),
{
    let rank = |idx: usize| idx as nat;
    assert(climbs(nodes, rank));
}

proof fn lemma_lineage_parent(nodes: NodesModel, idx: usize, target: usize)
    requires
        acyclic(nodes),
    ensures
        lineage(nodes, idx).contains(target) == (idx == target || (match parent_of(nodes, idx) {
            Some(parent) => lineage(nodes, parent).contains(target),
            None => false,
        })),
{
    assert(climbs(nodes, rank_of(nodes)));
    let all = lineage(nodes, idx);
    assert(all[0] == idx);
    match parent_of(nodes, idx) {
        Some(parent) => {
            let rest = lineage(nodes, parent);
            assert(all == seq![idx] + rest);
            if rest.contains(target) {
                let k = choose|k: int| 0 <= k < rest.len() && rest[k] == target;
                assert(all[k + 1] == target);
            }
            if all.contains(target) && idx != target {
                let k = choose|k: int| 0 <= k < all.len() && all[k] == target;
                assert(rest[k - 1] == target);
            }
        },
        None => {},
    }
}

/// A node that is moved below one that is neither itself nor a descendant does not become its own
/// ancestor, and no other node does.
pub proof fn lemma_append_keeps_acyclic(
    doc: DocumentModel,
    parent: usize,
    idx: usize,
    before: Option<usize>,
)
    requires
        acyclic(doc.nodes),
        node_at(doc.nodes, idx) is Some,
        !lineage(doc.nodes, parent).contains(idx),
    ensures
        acyclic(doc.appended(parent, idx, before).nodes),
{
    if before != Some(idx) {
        let after = doc.appended(parent, idx, before);
        let rank = rank_of(doc.nodes);
        assert(climbs(doc.nodes, rank));
        let raised = |x: usize|
            if lineage(doc.nodes, x).contains(idx) {
                rank(x) + rank(parent) + 1
            } else {
                rank(x)
            };
        assert forall|x: usize|
            (#[trigger] parent_of(after.nodes, x)) matches Some(p) ==> raised(p) < raised(x) by {
            lemma_lineage_parent(doc.nodes, x, idx);
            if x == idx {
                assert(parent_of(after.nodes, x) == Some(parent));
            } else {
                assert(node_at(after.nodes, x) == node_at(doc.nodes, x));
            }
        }
        assert(climbs(after.nodes, raised));
    }
}

/// Removing nodes makes no node its own ancestor.
pub proof fn lemma_remove_keeps_acyclic(doc: DocumentModel, idx: usize)
    requires
        acyclic(doc.nodes),
    ensures
        acyclic(doc.removed(idx, true).nodes),
{
    let rank = rank_of(doc.nodes);
    let after = doc.removed(idx, true);
    assert(climbs(doc.nodes, rank));
    assert forall|x: usize|
        (#[trigger] parent_of(after.nodes, x)) matches Some(p) ==> rank(p) < rank(x) by {
        if parent_of(after.nodes, x) is Some {
            assert(parent_of(doc.nodes, x) == parent_of(after.nodes, x));
        }
    }
    assert(climbs(after.nodes, rank));
}

} // verus!
