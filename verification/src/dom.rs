//! The nodes of a document and the relations between them.
use vstd::prelude::*;

use crate::text::same_text;

verus! {

/// The attributes of an element over sequences: names and values, in the order in which the names
/// were first set.
pub type AttributesModel = Seq<(Seq<char>, Seq<char>)>;

/// The position of a name.
pub open spec fn name_position(attributes: AttributesModel, name: Seq<char>) -> Option<int>
    decreases attributes.len(),
{
    if attributes.len() == 0 {
        None
    } else {
        match name_position(attributes.drop_last(), name) {
            Some(at) => Some(at),
            None => if attributes.last().0 == name {
                Some(attributes.len() - 1)
            } else {
                None
            },
        }
    }
}

/// The value of a name.
pub open spec fn lookup(attributes: AttributesModel, name: Seq<char>) -> Option<Seq<char>> {
    match name_position(attributes, name) {
        Some(at) => Some(attributes[at].1),
        None => None,
    }
}

/// The attributes after a name has been given a value.
pub open spec fn with_value(
    attributes: AttributesModel,
    name: Seq<char>,
    value: Seq<char>,
) -> AttributesModel {
    match name_position(attributes, name) {
        Some(at) => attributes.update(at, (name, value)),
        None => attributes.push((name, value)),
    }
}

/// The attributes after a name has been taken out.
pub open spec fn without_name(attributes: AttributesModel, name: Seq<char>) -> AttributesModel {
    match name_position(attributes, name) {
        Some(at) => attributes.remove(at),
        None => attributes,
    }
}

pub proof fn lemma_name_position(attributes: AttributesModel, name: Seq<char>)
    ensures
        match name_position(attributes, name) {
            Some(at) => {
                &&& 0 <= at < attributes.len()
                &&& attributes[at].0 == name
                &&& forall|i: int| 0 <= i < at ==> (#[trigger] attributes[i]).0 != name
            },
            None => forall|i: int|
                0 <= i < attributes.len() ==> (#[trigger] attributes[i]).0 != name,
        },
    decreases attributes.len(),
{
    if attributes.len() > 0 {
        let rest = attributes.drop_last();
        lemma_name_position(rest, name);
        assert forall|i: int| 0 <= i < rest.len() implies rest[i] == #[trigger] attributes[i] by {}
    }
}

/// No name occurs twice.
pub open spec fn names_distinct(attributes: AttributesModel) -> bool {
    forall|i: int, j: int|
        0 <= i < j < attributes.len() ==> (#[trigger] attributes[i]).0 != (
        #[trigger] attributes[j]).0
}

proof fn lemma_position_is(attributes: AttributesModel, name: Seq<char>, at: int)
    requires
        0 <= at < attributes.len(),
        attributes[at].0 == name,
        forall|i: int| 0 <= i < at ==> (#[trigger] attributes[i]).0 != name,
    ensures
        name_position(attributes, name) == Some(at),
{
    lemma_name_position(attributes, name);
}

/// A value that was set is read back, and setting it changes no other value.
pub proof fn lemma_set_value_is_read_back(
    attributes: AttributesModel,
    name: Seq<char>,
    value: Seq<char>,
    other: Seq<char>,
)
    requires
        names_distinct(attributes),
    ensures
        lookup(with_value(attributes, name, value), name) == Some(value),
        other != name ==> lookup(with_value(attributes, name, value), other) == lookup(
            attributes,
            other,
        ),
        names_distinct(with_value(attributes, name, value)),
{
    let after = with_value(attributes, name, value);
    lemma_name_position(attributes, name);
    lemma_name_position(attributes, other);
    lemma_name_position(after, name);
    lemma_name_position(after, other);
    match name_position(attributes, name) {
        Some(at) => {
            assert forall|i: int| 0 <= i < at implies (#[trigger] after[i]).0 != name by {
                assert(after[i] == attributes[i]);
            }
            lemma_position_is(after, name, at);
            assert forall|i: int, j: int| 0 <= i < j < after.len() implies (#[trigger] after[i]).0
                != (#[trigger] after[j]).0 by {
                assert(attributes[i].0 == after[i].0 && attributes[j].0 == after[j].0);
            }
        },
        None => {
            assert forall|i: int| 0 <= i < attributes.len() implies (#[trigger] after[i]).0
                != name by {
                assert(after[i] == attributes[i]);
            }
            lemma_position_is(after, name, attributes.len() as int);
            assert forall|i: int, j: int| 0 <= i < j < after.len() implies (#[trigger] after[i]).0
                != (#[trigger] after[j]).0 by {
                assert(attributes[i].0 == after[i].0);
                if j < attributes.len() {
                    assert(attributes[j].0 == after[j].0);
                }
            }
        },
    }
    if other != name {
        match name_position(attributes, other) {
            Some(at) => {
                assert(after[at] == attributes[at]);
                assert forall|i: int| 0 <= i < at implies (#[trigger] after[i]).0 != other by {
                    assert(after[i].0 == attributes[i].0);
                }
                lemma_position_is(after, other, at);
            },
            None => {
                assert forall|i: int| 0 <= i < after.len() implies (#[trigger] after[i]).0
                    != other by {
                    if i < attributes.len() {
                        assert(after[i].0 == attributes[i].0);
                    }
                }
                if name_position(after, other) is Some {
                    assert(after[name_position(after, other)->0].0 == other);
                }
            },
        }
    }
}

/// A name that was taken out has no value any more, and no other name loses its value.
pub proof fn lemma_removed_name_is_gone(
    attributes: AttributesModel,
    name: Seq<char>,
    other: Seq<char>,
)
    requires
        names_distinct(attributes),
    ensures
        lookup(without_name(attributes, name), name) is None,
        other != name ==> lookup(without_name(attributes, name), other) == lookup(
            attributes,
            other,
        ),
        names_distinct(without_name(attributes, name)),
{
    let after = without_name(attributes, name);
    lemma_name_position(attributes, name);
    lemma_name_position(attributes, other);
    lemma_name_position(after, name);
    lemma_name_position(after, other);
    if let Some(at) = name_position(attributes, name) {
        assert forall|i: int| 0 <= i < after.len() implies (#[trigger] after[i]) == attributes[if i
            < at {
            i
        } else {
            i + 1
        }] by {}
        assert forall|i: int| 0 <= i < after.len() implies (#[trigger] after[i]).0 != name by {
            let k = if i < at { i } else { i + 1 };
            assert(after[i] == attributes[k]);
            assert(attributes[at].0 == name);
        }
        if name_position(after, name) is Some {
            assert(after[name_position(after, name)->0].0 == name);
        }
        assert forall|i: int, j: int| 0 <= i < j < after.len() implies (#[trigger] after[i]).0 != (
        #[trigger] after[j]).0 by {
            let a = if i < at { i } else { i + 1 };
            let b = if j < at { j } else { j + 1 };
            assert(after[i] == attributes[a] && after[j] == attributes[b]);
        }
        if other != name {
            match name_position(attributes, other) {
                Some(k) => {
                    let place = if k < at { k } else { k - 1 };
                    assert(after[place] == attributes[k]);
                    assert forall|i: int| 0 <= i < place implies (#[trigger] after[i]).0
                        != other by {
                        let a = if i < at { i } else { i + 1 };
                        assert(after[i] == attributes[a]);
                    }
                    lemma_position_is(after, other, place);
                },
                None => {
                    if name_position(after, other) is Some {
                        let i = name_position(after, other)->0;
                        let a = if i < at { i } else { i + 1 };
                        assert(after[i] == attributes[a]);
                    }
                },
            }
        }
    }
}

/// The attributes of an element.
#[derive(Debug, Clone, PartialEq)]
pub struct Attributes {
    pub values: Vec<(String, String)>,
}

impl View for Attributes {
    type V = AttributesModel;

    open spec fn view(&self) -> AttributesModel {
        Seq::new(self.values@.len(), |i: int| (self.values@[i].0@, self.values@[i].1@))
    }
}

impl Attributes {
    pub fn new() -> (r: Attributes)
        ensures
            r@ == AttributesModel::empty(),
    {
        let r = Attributes { values: Vec::new() };
        assert(r@ =~= AttributesModel::empty());
        r
    }

    fn position(&self, name: &str) -> (r: Option<usize>)
        ensures
            match (r, name_position(self@, name@)) {
                (Some(at), Some(model)) => at == model && at < self.values@.len(),
                (None, None) => true,
                _ => false,
            },
    {
        let mut at: usize = 0;
        proof {
            lemma_name_position(self@, name@);
        }
        while at < self.values.len()
            invariant
                at <= self.values@.len(),
                forall|i: int| 0 <= i < at ==> (#[trigger] self@[i]).0 != name@,
            decreases self.values@.len() - at,
        {
            if same_text(self.values[at].0.as_str(), name) {
                proof {
                    assert(self@[at as int].0 == name@);
                    lemma_position_is(self@, name@, at as int);
                }
                return Some(at);
            }
            assert(self@[at as int].0 != name@);
            at = at + 1;
        }
        proof {
            lemma_name_position(self@, name@);
            if name_position(self@, name@) is Some {
                assert(self@[name_position(self@, name@)->0].0 == name@);
            }
        }
        None
    }

    /// The value of an attribute.
    pub fn get_str(&self, name: &str) -> (r: Option<&String>)
        ensures
            match (r, lookup(self@, name@)) {
                (Some(value), Some(model)) => value@ == model,
                (None, None) => true,
                _ => false,
            },
    {
        match self.position(name) {
            Some(at) => Some(&self.values[at].1),
            None => None,
        }
    }

    pub fn contains_key(&self, name: &str) -> (r: bool)
        ensures
            r == (lookup(self@, name@) is Some),
    {
        self.position(name).is_some()
    }

    /// Gives an attribute a value.
    pub fn insert(&mut self, name: String, value: String)
        ensures
            final(self)@ == with_value(old(self)@, name@, value@),
    {
        match self.position(name.as_str()) {
            Some(at) => {
                self.values[at] = (name, value);
                assert(self@ =~= old(self)@.update(at as int, (name@, value@)));
            },
            None => {
                self.values.push((name, value));
                assert(self@ =~= old(self)@.push((name@, value@)));
            },
        }
    }

    /// Takes an attribute out.
    pub fn remove(&mut self, name: &str)
        ensures
            final(self)@ == without_name(old(self)@, name@),
    {
        match self.position(name) {
            Some(at) => {
                let _removed = self.values.remove(at);
                assert(self@ =~= old(self)@.remove(at as int));
            },
            None => {},
        }
    }

    /// A copy that holds the same names and values.
    pub fn copy(&self) -> (r: Attributes)
        ensures
            r@ == self@,
    {
        let mut values: Vec<(String, String)> = Vec::new();
        let mut at: usize = 0;
        while at < self.values.len()
            invariant
                at <= self.values@.len(),
                values@.len() == at,
                forall|i: int|
                    0 <= i < at ==> (#[trigger] values@[i]).0@ == self.values@[i].0@
                        && values@[i].1@ == self.values@[i].1@,
            decreases self.values@.len() - at,
        {
            values.push((self.values[at].0.clone(), self.values[at].1.clone()));
            at = at + 1;
        }
        let r = Attributes { values };
        assert(r@ =~= self@);
        r
    }
}

#[derive(Debug, Clone, PartialEq)]
pub struct Element {
    pub tag: String,
    pub attributes: Attributes,
    pub parent: Option<usize>,
}

#[derive(Debug, Clone, PartialEq)]
pub struct TextElement {
    pub text: String,
    pub parent: Option<usize>,
}

#[derive(Debug, Clone, PartialEq)]
pub struct CommentElement {
    pub comment: String,
    pub parent: Option<usize>,
}

#[derive(Debug, Clone, PartialEq)]
pub enum Node {
    Element(Element),
    Text(TextElement),
    Comment(CommentElement),
}

/// What a [`Node`] holds, over sequences.
pub enum NodeModel {
    Element { tag: Seq<char>, attributes: AttributesModel, parent: Option<usize> },
    Text { text: Seq<char>, parent: Option<usize> },
    Comment { comment: Seq<char>, parent: Option<usize> },
}

impl NodeModel {
    pub open spec fn parent_idx(self) -> Option<usize> {
        match self {
            NodeModel::Element { tag, attributes, parent } => parent,
            NodeModel::Text { text, parent } => parent,
            NodeModel::Comment { comment, parent } => parent,
        }
    }

    pub open spec fn with_parent(self, new_parent: Option<usize>) -> NodeModel {
        match self {
            NodeModel::Element { tag, attributes, parent } => NodeModel::Element {
                tag,
                attributes,
                parent: new_parent,
            },
            NodeModel::Text { text, parent } => NodeModel::Text { text, parent: new_parent },
            NodeModel::Comment { comment, parent } => NodeModel::Comment {
                comment,
                parent: new_parent,
            },
        }
    }

    /// Whether the node is an element with the given tag.
    pub open spec fn has_tag(self, name: Seq<char>) -> bool {
        self matches NodeModel::Element { tag, .. } && tag == name
    }

    /// The value of an attribute; nothing for a node that is no element.
    pub open spec fn attribute(self, name: Seq<char>) -> Option<Seq<char>> {
        match self {
            NodeModel::Element { tag, attributes, parent } => lookup(attributes, name),
            _ => None,
        }
    }
}

impl View for Node {
    type V = NodeModel;

    open spec fn view(&self) -> NodeModel {
        match *self {
            Node::Element(element) => NodeModel::Element {
                tag: element.tag@,
                attributes: element.attributes@,
                parent: element.parent,
            },
            Node::Text(element) => NodeModel::Text { text: element.text@, parent: element.parent },
            Node::Comment(element) => NodeModel::Comment {
                comment: element.comment@,
                parent: element.parent,
            },
        }
    }
}

impl Node {
    pub fn get_parent(&self) -> (r: Option<usize>)
        ensures
            r == self@.parent_idx(),
    {
        match self {
            Node::Element(element) => element.parent,
            Node::Text(element) => element.parent,
            Node::Comment(element) => element.parent,
        }
    }

    pub fn set_parent(&mut self, parent: Option<usize>)
        ensures
            final(self)@ == old(self)@.with_parent(parent),
    {
        match self {
            Node::Element(element) => {
                element.parent = parent;
            },
            Node::Text(element) => {
                element.parent = parent;
            },
            Node::Comment(element) => {
                element.parent = parent;
            },
        }
    }

    /// A copy that holds the same.
    pub fn copy(&self) -> (r: Node)
        ensures
            r@ == self@,
    {
        match self {
            Node::Element(element) => Node::Element(
                Element {
                    tag: element.tag.clone(),
                    attributes: element.attributes.copy(),
                    parent: element.parent,
                },
            ),
            Node::Text(element) => Node::Text(
                TextElement { text: element.text.clone(), parent: element.parent },
            ),
            Node::Comment(element) => Node::Comment(
                CommentElement { comment: element.comment.clone(), parent: element.parent },
            ),
        }
    }

    /// Whether the node is an element with the given tag.
    pub fn is_element(&self, tag: &str) -> (r: bool)
        ensures
            r == self@.has_tag(tag@),
    {
        match self {
            Node::Element(element) => same_text(element.tag.as_str(), tag),
            _ => false,
        }
    }
}

/// All nodes of a document by number. A number whose node was removed stays empty.
#[derive(Debug)]
pub struct NodesTable {
    pub data: Vec<Option<Node>>,
    pub cursor: usize,
}

/// What a [`NodesTable`] holds.
pub type NodesModel = Seq<Option<NodeModel>>;

pub open spec fn node_at(nodes: NodesModel, idx: usize) -> Option<NodeModel> {
    if idx < nodes.len() {
        nodes[idx as int]
    } else {
        None
    }
}

/// The parent of a node; nothing where there is no such node.
pub open spec fn parent_of(nodes: NodesModel, idx: usize) -> Option<usize> {
    match node_at(nodes, idx) {
        Some(node) => node.parent_idx(),
        None => None,
    }
}

impl View for NodesTable {
    type V = NodesModel;

    open spec fn view(&self) -> NodesModel {
        Seq::new(
            self.data@.len(),
            |i: int|
                match self.data@[i] {
                    Some(node) => Some(node@),
                    None => None,
                },
        )
    }
}

/// The table after a node has been put at a number; the numbers up to it exist then.
pub open spec fn with_node(nodes: NodesModel, idx: usize, node: NodeModel) -> NodesModel {
    Seq::new(
        if idx < nodes.len() {
            nodes.len()
        } else {
            (idx + 1) as nat
        },
        |i: int|
            if i == idx {
                Some(node)
            } else if i < nodes.len() {
                nodes[i]
            } else {
                None
            },
    )
}

/// The table after a number has been emptied.
pub open spec fn without_node(nodes: NodesModel, idx: usize) -> NodesModel {
    nodes.update(idx as int, None)
}

/// The numbers that hold a node, in ascending order.
pub open spec fn occupied(nodes: NodesModel) -> Seq<usize>
    decreases nodes.len(),
{
    if nodes.len() == 0 {
        Seq::empty()
    } else if nodes.last() is Some {
        occupied(nodes.drop_last()).push((nodes.len() - 1) as usize)
    } else {
        occupied(nodes.drop_last())
    }
}

impl NodesTable {
    /// A table that numbers the given nodes from zero.
    pub fn new_from_nodes(nodes: Vec<Node>) -> (r: NodesTable)
        ensures
            r@ == Seq::new(nodes@.len(), |i: int| Some(nodes@[i]@)),
            r.cursor == nodes@.len(),
    {
        let cursor: usize = nodes.len();
        let ghost given = nodes@;
        let mut reversed: Vec<Option<Node>> = Vec::new();
        let mut rest = nodes;
        while rest.len() > 0
            invariant
                rest@.len() + reversed@.len() == given.len(),
                forall|i: int| 0 <= i < rest@.len() ==> #[trigger] rest@[i] == given[i],
                forall|i: int|
                    0 <= i < reversed@.len() ==> #[trigger] reversed@[i] == Some(
                        given[given.len() - 1 - i],
                    ),
            decreases rest@.len(),
        {
            let node = rest.pop();
            reversed.push(node);
        }
        let mut data: Vec<Option<Node>> = Vec::new();
        while reversed.len() > 0
            invariant
                data@.len() + reversed@.len() == given.len(),
                forall|i: int|
                    0 <= i < reversed@.len() ==> #[trigger] reversed@[i] == Some(
                        given[given.len() - 1 - i],
                    ),
                forall|i: int| 0 <= i < data@.len() ==> #[trigger] data@[i] == Some(given[i]),
            decreases reversed@.len(),
        {
            match reversed.pop() {
                Some(node) => {
                    data.push(node);
                },
                None => {},
            }
        }
        let r = NodesTable { data, cursor };
        assert(r@ =~= Seq::new(given.len(), |i: int| Some(given[i]@)));
        r
    }

    pub fn get(&self, idx: usize) -> (r: Option<&Node>)
        ensures
            match (r, node_at(self@, idx)) {
                (Some(node), Some(model)) => node@ == model && idx < self.data@.len()
                    && self.data@[idx as int] == Some(*node),
                (None, None) => true,
                _ => false,
            },
    {
        if idx < self.data.len() {
            self.data[idx].as_ref()
        } else {
            None
        }
    }

    pub fn contains_key(&self, idx: usize) -> (r: bool)
        ensures
            r == (node_at(self@, idx) is Some),
    {
        self.get(idx).is_some()
    }

    /// The parent of a node; nothing where there is no such node.
    pub fn parent(&self, idx: usize) -> (r: Option<usize>)
        ensures
            r == parent_of(self@, idx),
    {
        match self.get(idx) {
            Some(node) => node.get_parent(),
            None => None,
        }
    }

    /// Empties a number.
    pub fn remove(&mut self, idx: usize)
        requires
            idx < old(self)@.len(),
        ensures
            final(self)@ == without_node(old(self)@, idx),
            final(self).cursor == old(self).cursor,
    {
        self.data[idx] = None;
        assert(self@ =~= without_node(old(self)@, idx));
    }

    /// Puts a node at a number.
    pub fn insert(&mut self, idx: usize, node: Node)
        requires
            idx < usize::MAX,
        ensures
            final(self)@ == with_node(old(self)@, idx, node@),
            final(self).cursor == old(self).cursor,
    {
        while self.data.len() <= idx
            invariant
                idx < usize::MAX,
                old(self)@.len() <= self.data@.len(),
                self.data@.len() <= idx + 1 || self.data@.len() == old(self).data@.len(),
                forall|i: int|
                    0 <= i < old(self).data@.len() ==> #[trigger] self.data@[i]
                        == old(self).data@[i],
                forall|i: int|
                    old(self).data@.len() <= i < self.data@.len() ==> (#[trigger] self.data@[i])
                        is None,
                self.cursor == old(self).cursor,
            decreases idx + 1 - self.data@.len(),
        {
            self.data.push(None);
        }
        self.data[idx] = Some(node);
        assert(self@ =~= with_node(old(self)@, idx, node@));
    }

    /// The numbers that hold a node, in ascending order.
    pub fn keys(&self) -> (r: Vec<usize>)
        ensures
            r@ == occupied(self@),
    {
        let mut keys: Vec<usize> = Vec::new();
        let mut at: usize = 0;
        while at < self.data.len()
            invariant
                at <= self.data@.len(),
                keys@ == occupied(self@.take(at as int)),
            decreases self.data@.len() - at,
        {
            assert(self@.take(at + 1).drop_last() =~= self@.take(at as int));
            if self.data[at].is_some() {
                keys.push(at);
            }
            at = at + 1;
        }
        assert(self@.take(self@.len() as int) =~= self@);
        keys
    }

    /// Gives a node another parent.
    pub fn set_parent(&mut self, idx: usize, parent: Option<usize>)
        requires
            node_at(old(self)@, idx) is Some,
        ensures
            final(self)@ == with_node(
                old(self)@,
                idx,
                node_at(old(self)@, idx)->0.with_parent(parent),
            ),
            final(self).cursor == old(self).cursor,
    {
        let mut taken: Option<Node> = None;
        let ghost before = self.data@;
        std::mem::swap(&mut taken, &mut self.data[idx]);
        match taken {
            Some(mut node) => {
                node.set_parent(parent);
                self.data[idx] = Some(node);
            },
            None => {},
        }
        assert(self@ =~= with_node(
            old(self)@,
            idx,
            node_at(old(self)@, idx)->0.with_parent(parent),
        ));
    }
}

/// Numbers of nodes that hold a node, in ascending order, without gaps or repetition.
pub proof fn lemma_occupied(nodes: NodesModel)
    requires
        nodes.len() <= usize::MAX,
    ensures
        forall|i: int|
            0 <= i < occupied(nodes).len() ==> node_at(nodes, #[trigger] occupied(nodes)[i]) is Some,
        forall|i: int, j: int|
            0 <= i < j < occupied(nodes).len() ==> occupied(nodes)[i] < occupied(nodes)[j],
        forall|idx: usize| node_at(nodes, idx) is Some ==> #[trigger] occupied(nodes).contains(idx),
    decreases nodes.len(),
{
    if nodes.len() > 0 {
        let rest = nodes.drop_last();
        lemma_occupied(rest);
        let before = occupied(rest);
        let all = occupied(nodes);
        assert forall|i: int| 0 <= i < before.len() implies (#[trigger] before[i]) < rest.len() by {
            assert(node_at(rest, before[i]) is Some);
        }
        assert forall|i: int| 0 <= i < all.len() implies node_at(nodes, #[trigger] all[i]) is Some by {
            if i < before.len() {
                assert(all[i] == before[i]);
                assert(node_at(rest, before[i]) is Some);
            }
        }
        assert forall|i: int, j: int| 0 <= i < j < all.len() implies all[i] < all[j] by {
            assert(all[i] == before[i]);
            if j < before.len() {
                assert(all[j] == before[j]);
            }
        }
        assert forall|idx: usize| node_at(nodes, idx) is Some implies #[trigger] all.contains(
            idx,
        ) by {
            if idx < rest.len() {
                assert(node_at(rest, idx) is Some);
                assert(before.contains(idx));
                let k = choose|k: int| 0 <= k < before.len() && before[k] == idx;
                assert(all[k] == idx);
            } else {
                assert(all[all.len() - 1] == idx);
            }
        }
    }
}

} // verus!
