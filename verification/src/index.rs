//! Indexes over the nodes of a document: which elements have a tag, a class, an id or an attribute.
use fixedbitset::FixedBitSet;
use vstd::prelude::*;

use crate::bits::set_bits;
use crate::dom::lemma_name_position;
use crate::dom::lookup;
use crate::dom::name_position;
use crate::dom::node_at;
use crate::dom::AttributesModel;
use crate::dom::Node;
use crate::dom::NodeModel;
use crate::dom::NodesModel;
use crate::dom::NodesTable;
use crate::text::same_text;
use crate::text::split_whitespace;
use crate::text::texts_of;
use crate::text::words;
use crate::tree::build_children_index;
use crate::tree::indexes;
use crate::tree::ChildrenIndex;

verus! {

/// Names, each with a set of nodes.
pub type NamedSets = Seq<(Seq<char>, Set<usize>)>;

/// The place of a name.
pub open spec fn place_of_name(index: NamedSets, name: Seq<char>) -> Option<int>
    decreases index.len(),
{
    if index.len() == 0 {
        None
    } else {
        match place_of_name(index.drop_last(), name) {
            Some(at) => Some(at),
            None => if index.last().0 == name {
                Some(index.len() - 1)
            } else {
                None
            },
        }
    }
}

/// The nodes of a name; nothing for a name that never had one.
pub open spec fn named(index: NamedSets, name: Seq<char>) -> Option<Set<usize>> {
    match place_of_name(index, name) {
        Some(at) => Some(index[at].1),
        None => None,
    }
}

/// The index after a node has been added to a name.
pub open spec fn with_member(index: NamedSets, name: Seq<char>, idx: usize) -> NamedSets {
    match place_of_name(index, name) {
        Some(at) => index.update(at, (index[at].0, index[at].1.insert(idx))),
        None => index.push((name, set![idx])),
    }
}

/// The index after a node has been taken from a name.
pub open spec fn without_member(index: NamedSets, name: Seq<char>, idx: usize) -> NamedSets {
    match place_of_name(index, name) {
        Some(at) => index.update(at, (index[at].0, index[at].1.remove(idx))),
        None => index,
    }
}

proof fn lemma_place_of_name(index: NamedSets, name: Seq<char>)
    ensures
        match place_of_name(index, name) {
            Some(at) => {
                &&& 0 <= at < index.len()
                &&& index[at].0 == name
                &&& forall|i: int| 0 <= i < at ==> (#[trigger] index[i]).0 != name
            },
            None => forall|i: int| 0 <= i < index.len() ==> (#[trigger] index[i]).0 != name,
        },
    decreases index.len(),
{
    if index.len() > 0 {
        let rest = index.drop_last();
        lemma_place_of_name(rest, name);
        assert forall|i: int| 0 <= i < rest.len() implies rest[i] == #[trigger] index[i] by {}
    }
}

proof fn lemma_place_is(index: NamedSets, name: Seq<char>, at: int)
    requires
        0 <= at < index.len(),
        index[at].0 == name,
        forall|i: int| 0 <= i < at ==> (#[trigger] index[i]).0 != name,
    ensures
        place_of_name(index, name) == Some(at),
{
    lemma_place_of_name(index, name);
}

/// Adding a node to a name adds it there and nowhere else.
pub proof fn lemma_with_member(index: NamedSets, name: Seq<char>, idx: usize, other: Seq<char>)
    ensures
        named(with_member(index, name, idx), name) == Some(
            match named(index, name) {
                Some(set) => set.insert(idx),
                None => set![idx],
            },
        ),
        other != name ==> named(with_member(index, name, idx), other) == named(index, other),
{
    let after = with_member(index, name, idx);
    lemma_place_of_name(index, name);
    lemma_place_of_name(index, other);
    lemma_place_of_name(after, other);
    match place_of_name(index, name) {
        Some(at) => {
            assert forall|i: int| 0 <= i < at implies (#[trigger] after[i]).0 != name by {
                assert(after[i] == index[i]);
            }
            lemma_place_is(after, name, at);
        },
        None => {
            assert forall|i: int| 0 <= i < index.len() implies (#[trigger] after[i]).0 != name by {
                assert(after[i] == index[i]);
            }
            lemma_place_is(after, name, index.len() as int);
        },
    }
    if other != name {
        match place_of_name(index, other) {
            Some(k) => {
                assert(after[k] == index[k]);
                assert forall|i: int| 0 <= i < k implies (#[trigger] after[i]).0 != other by {
                    assert(after[i].0 == index[i].0);
                }
                lemma_place_is(after, other, k);
            },
            None => {
                if place_of_name(after, other) is Some {
                    let k = place_of_name(after, other)->0;
                    if k < index.len() {
                        assert(after[k].0 == index[k].0);
                    }
                }
            },
        }
    }
}

/// Taking a node from a name takes it from there and from nowhere else.
pub proof fn lemma_without_member(index: NamedSets, name: Seq<char>, idx: usize, other: Seq<char>)
    ensures
        named(without_member(index, name, idx), other) == (match named(index, other) {
            Some(set) => Some(
                if other == name {
                    set.remove(idx)
                } else {
                    set
                },
            ),
            None => None,
        }),
{
    let after = without_member(index, name, idx);
    lemma_place_of_name(index, name);
    lemma_place_of_name(index, other);
    assert forall|i: int| 0 <= i < index.len() implies (#[trigger] after[i]).0 == index[i].0 by {}
    match place_of_name(index, other) {
        Some(at) => {
            assert forall|i: int| 0 <= i < at implies (#[trigger] after[i]).0 != other by {
                assert(index[i].0 != other);
            }
            lemma_place_is(after, other, at);
        },
        None => {
            lemma_place_of_name(after, other);
            if let Some(at) = place_of_name(after, other) {
                assert(index[at].0 == other);
            }
        },
    }
}

/// Names, each with a set of nodes.
#[derive(Debug)]
pub struct NameIndex {
    pub entries: Vec<(String, FixedBitSet)>,
}

impl View for NameIndex {
    type V = NamedSets;

    open spec fn view(&self) -> NamedSets {
        Seq::new(self.entries@.len(), |i: int| (self.entries@[i].0@, set_bits(self.entries@[i].1)))
    }
}

impl NameIndex {
    pub fn new() -> (r: NameIndex)
        ensures
            r@ == NamedSets::empty(),
    {
        let r = NameIndex { entries: Vec::new() };
        assert(r@ =~= NamedSets::empty());
        r
    }

    fn position(&self, name: &str) -> (r: Option<usize>)
        ensures
            match (r, place_of_name(self@, name@)) {
                (Some(at), Some(model)) => at == model && at < self.entries@.len(),
                (None, None) => true,
                _ => false,
            },
    {
        let mut at: usize = 0;
        while at < self.entries.len()
            invariant
                at <= self.entries@.len(),
                forall|i: int| 0 <= i < at ==> (#[trigger] self@[i]).0 != name@,
            decreases self.entries@.len() - at,
        {
            if same_text(self.entries[at].0.as_str(), name) {
                proof {
                    assert(self@[at as int].0 == name@);
                    lemma_place_is(self@, name@, at as int);
                }
                return Some(at);
            }
            assert(self@[at as int].0 != name@);
            at = at + 1;
        }
        proof {
            lemma_place_of_name(self@, name@);
            if place_of_name(self@, name@) is Some {
                assert(self@[place_of_name(self@, name@)->0].0 == name@);
            }
        }
        None
    }

    /// The nodes of a name.
    pub fn get(&self, name: &str) -> (r: Option<&FixedBitSet>)
        ensures
            match (r, named(self@, name@)) {
                (Some(bits), Some(set)) => set_bits(*bits) == set,
                (None, None) => true,
                _ => false,
            },
    {
        match self.position(name) {
            Some(at) => Some(&self.entries[at].1),
            None => None,
        }
    }

    /// Adds a node to a name.
    pub fn add_node(&mut self, name: &str, idx: usize)
        requires
            idx < usize::MAX,
        ensures
            final(self)@ == with_member(old(self)@, name@, idx),
    {
        match self.position(name) {
            Some(at) => {
                let mut entry = self.entries.remove(at);
                entry.1.grow_and_insert(idx);
                self.entries.insert(at, entry);
                assert(self@ =~= with_member(old(self)@, name@, idx));
            },
            None => {
                let mut bits = FixedBitSet::with_capacity(0);
                bits.grow_and_insert(idx);
                self.entries.push((name.to_owned(), bits));
                assert(set_bits(bits) =~= set![idx]);
                assert(self@ =~= with_member(old(self)@, name@, idx));
            },
        }
    }

    /// Takes a node from a name.
    pub fn remove_node(&mut self, name: &str, idx: usize)
        ensures
            final(self)@ == without_member(old(self)@, name@, idx),
    {
        match self.position(name) {
            Some(at) => {
                let mut entry = self.entries.remove(at);
                if entry.1.contains(idx) {
                    entry.1.remove(idx);
                }
                self.entries.insert(at, entry);
                assert(set_bits(entry.1) =~= old(self)@[at as int].1.remove(idx));
                assert(self@ =~= without_member(old(self)@, name@, idx));
            },
            None => {},
        }
    }
}

/// What elements are indexed by.
#[derive(Debug, Clone, Copy, PartialEq, Eq, Structural)]
pub enum NameKind {
    Tag,
    Id,
    Attribute,
}

/// Whether an element has a name of a kind.
pub open spec fn has_name(kind: NameKind, node: NodeModel, name: Seq<char>) -> bool {
    match kind {
        NameKind::Tag => node.has_tag(name),
        NameKind::Id => node.attribute("id"@) == Some(name),
        NameKind::Attribute => node.attribute(name) is Some,
    }
}

/// The elements with a name among the nodes below a number.
pub open spec fn holders_below(
    nodes: NodesModel,
    kind: NameKind,
    name: Seq<char>,
    bound: int,
) -> Set<usize> {
    Set::new(
        |idx: usize|
            idx < bound && (node_at(nodes, idx) matches Some(node) && has_name(kind, node, name)),
    )
}

/// The elements with a name; nothing where there is none.
pub open spec fn holders(nodes: NodesModel, kind: NameKind, name: Seq<char>) -> Option<Set<usize>> {
    some_unless_empty(holders_below(nodes, kind, name, nodes.len() as int))
}

pub open spec fn some_unless_empty(set: Set<usize>) -> Option<Set<usize>> {
    if exists|idx: usize| set.contains(idx) {
        Some(set)
    } else {
        None
    }
}

proof fn lemma_set_with_insert(before: Set<usize>, after: Set<usize>, idx: usize)
    requires
        after =~= before.insert(idx),
    ensures
        some_unless_empty(after) == Some(
            match some_unless_empty(before) {
                Some(set) => set.insert(idx),
                None => set![idx],
            },
        ),
{
    assert(after.contains(idx));
    if !(exists|x: usize| before.contains(x)) {
        assert(after =~= set![idx]);
    }
}

/// The attributes of an element up to a place hold a name.
pub open spec fn names_hold(attributes: AttributesModel, count: int, name: Seq<char>) -> bool {
    exists|i: int| 0 <= i < count && (#[trigger] attributes[i]).0 == name
}

proof fn lemma_names_hold_all(attributes: AttributesModel, name: Seq<char>)
    ensures
        names_hold(attributes, attributes.len() as int, name) == (lookup(attributes, name) is Some),
{
    lemma_name_position(attributes, name);
    if let Some(at) = name_position(attributes, name) {
        assert(attributes[at].0 == name);
    }
}

/// Lists for every name of a kind the elements that have it.
pub fn build_name_index(nodes: &NodesTable, kind: NameKind) -> (r: NameIndex)
    requires
        nodes@.len() < usize::MAX,
    ensures
        forall|name: Seq<char>| #[trigger] named(r@, name) == holders(nodes@, kind, name),
{
    let mut index = NameIndex::new();
    let mut at: usize = 0;
    assert forall|name: Seq<char>| #[trigger]
        named(index@, name) == some_unless_empty(holders_below(nodes@, kind, name, 0)) by {
        assert(holders_below(nodes@, kind, name, 0) =~= Set::empty());
    }
    while at < nodes.data.len()
        invariant
            at <= nodes.data@.len(),
            nodes@.len() < usize::MAX,
            forall|name: Seq<char>| #[trigger]
                named(index@, name) == some_unless_empty(
                    holders_below(nodes@, kind, name, at as int),
                ),
        decreases nodes.data@.len() - at,
    {
        let ghost before = index@;
        match nodes.get(at) {
            Some(Node::Element(element)) => {
                let ghost node = node_at(nodes@, at)->0;
                match kind {
                    NameKind::Tag => {
                        index.add_node(element.tag.as_str(), at);
                        proof {
                            lemma_added(before, nodes@, kind, at, element.tag@);
                            assert forall|name: Seq<char>| #[trigger]
                                named(index@, name) == some_unless_empty(
                                    holders_below(nodes@, kind, name, at + 1),
                                ) by {
                                lemma_added_other(before, nodes@, kind, at, element.tag@, name);
                            }
                        }
                    },
                    NameKind::Id => match element.attributes.get_str("id") {
                        Some(id) => {
                            index.add_node(id.as_str(), at);
                            proof {
                                lemma_added(before, nodes@, kind, at, id@);
                                assert forall|name: Seq<char>| #[trigger]
                                    named(index@, name) == some_unless_empty(
                                        holders_below(nodes@, kind, name, at + 1),
                                    ) by {
                                    lemma_added_other(before, nodes@, kind, at, id@, name);
                                }
                            }
                        },
                        None => {
                            proof {
                                lemma_nothing_added(before, nodes@, kind, at);
                            }
                        },
                    },
                    NameKind::Attribute => {
                        let ghost model = element.attributes@;
                        let mut k: usize = 0;
                        assert forall|name: Seq<char>| #[trigger]
                            named(index@, name) == some_unless_empty(
                                with_partial(nodes@, at, model, 0, name),
                            ) by {
                            assert(with_partial(nodes@, at, model, 0, name) =~= holders_below(
                                nodes@,
                                NameKind::Attribute,
                                name,
                                at as int,
                            ));
                        }
                        while k < element.attributes.values.len()
                            invariant
                                k <= element.attributes.values@.len(),
                                model == element.attributes@,
                                at < usize::MAX,
                                forall|name: Seq<char>| #[trigger]
                                    named(index@, name) == some_unless_empty(
                                        with_partial(nodes@, at, model, k as int, name),
                                    ),
                            decreases element.attributes.values@.len() - k,
                        {
                            let ghost earlier = index@;
                            index.add_node(element.attributes.values[k].0.as_str(), at);
                            proof {
                                let added = model[k as int].0;
                                assert forall|name: Seq<char>| #[trigger]
                                    named(index@, name) == some_unless_empty(
                                        with_partial(nodes@, at, model, k + 1, name),
                                    ) by {
                                    lemma_with_member(earlier, added, at, name);
                                    let old_set = with_partial(nodes@, at, model, k as int, name);
                                    let new_set = with_partial(nodes@, at, model, k + 1, name);
                                    assert(names_hold(model, k + 1, name) == (names_hold(
                                        model,
                                        k as int,
                                        name,
                                    ) || added == name)) by {
                                        if names_hold(model, k as int, name) {
                                            let i = choose|i: int|
                                                0 <= i < k && (#[trigger] model[i]).0 == name;
                                            assert(model[i].0 == name);
                                        }
                                        if names_hold(model, k + 1, name) {
                                            let i = choose|i: int|
                                                0 <= i < k + 1 && (#[trigger] model[i]).0 == name;
                                            assert(i < k || i == k);
                                        }
                                    }
                                    assert(named(earlier, name) == some_unless_empty(old_set));
                                    if name == added {
                                        lemma_set_with_insert(old_set, new_set, at);
                                    } else {
                                        assert(new_set =~= old_set);
                                    }
                                }
                            }
                            k = k + 1;
                        }
                        assert forall|name: Seq<char>| #[trigger]
                            named(index@, name) == some_unless_empty(
                                holders_below(nodes@, kind, name, at + 1),
                            ) by {
                            lemma_names_hold_all(model, name);
                            assert(with_partial(nodes@, at, model, model.len() as int, name)
                                =~= holders_below(nodes@, kind, name, at + 1));
                        }
                    },
                }
            },
            _ => {
                proof {
                    lemma_nothing_added(before, nodes@, kind, at);
                }
            },
        }
        at = at + 1;
    }
    index
}

/// The elements with an attribute below a number, and the element at it where its first attributes
/// hold the name.
pub open spec fn with_partial(
    nodes: NodesModel,
    at: usize,
    attributes: AttributesModel,
    count: int,
    name: Seq<char>,
) -> Set<usize> {
    Set::new(
        |idx: usize|
            holders_below(nodes, NameKind::Attribute, name, at as int).contains(idx) || (idx == at
                && names_hold(attributes, count, name)),
    )
}

proof fn lemma_added(before: NamedSets, nodes: NodesModel, kind: NameKind, at: usize, name: Seq<char>)
    requires
        node_at(nodes, at) is Some,
        has_name(kind, node_at(nodes, at)->0, name),
        named(before, name) == some_unless_empty(holders_below(nodes, kind, name, at as int)),
    ensures
        named(with_member(before, name, at), name) == some_unless_empty(
            holders_below(nodes, kind, name, at + 1),
        ),
{
    lemma_with_member(before, name, at, name);
    lemma_set_with_insert(
        holders_below(nodes, kind, name, at as int),
        holders_below(nodes, kind, name, at + 1),
        at,
    );
}

proof fn lemma_added_other(
    before: NamedSets,
    nodes: NodesModel,
    kind: NameKind,
    at: usize,
    name: Seq<char>,
    other: Seq<char>,
)
    requires
        node_at(nodes, at) is Some,
        has_name(kind, node_at(nodes, at)->0, name),
        other != name ==> !has_name(kind, node_at(nodes, at)->0, other),
        named(before, name) == some_unless_empty(holders_below(nodes, kind, name, at as int)),
        named(before, other) == some_unless_empty(holders_below(nodes, kind, other, at as int)),
    ensures
        named(with_member(before, name, at), other) == some_unless_empty(
            holders_below(nodes, kind, other, at + 1),
        ),
{
    lemma_added(before, nodes, kind, at, name);
    if other != name {
        lemma_with_member(before, name, at, other);
        assert(holders_below(nodes, kind, other, at + 1) =~= holders_below(
            nodes,
            kind,
            other,
            at as int,
        ));
    }
}

proof fn lemma_nothing_added(before: NamedSets, nodes: NodesModel, kind: NameKind, at: usize)
    requires
        node_at(nodes, at) is Some ==> forall|name: Seq<char>|
            !#[trigger] has_name(kind, node_at(nodes, at)->0, name),
        forall|name: Seq<char>| #[trigger]
            named(before, name) == some_unless_empty(holders_below(nodes, kind, name, at as int)),
    ensures
        forall|name: Seq<char>| #[trigger]
            named(before, name) == some_unless_empty(holders_below(nodes, kind, name, at + 1)),
{
    assert forall|name: Seq<char>| #[trigger]
        named(before, name) == some_unless_empty(holders_below(nodes, kind, name, at + 1)) by {
        if let Some(node) = node_at(nodes, at) {
            assert(!has_name(kind, node, name));
        }
        assert(holders_below(nodes, kind, name, at + 1) =~= holders_below(
            nodes,
            kind,
            name,
            at as int,
        ));
    }
}

/// The numbers of classes: the place of a name among all names.
#[derive(Debug)]
pub struct ClassIndexes {
    pub names: Vec<String>,
}

/// The place of a text among texts; the length where it does not occur.
pub open spec fn place_of_text(names: Seq<Seq<char>>, name: Seq<char>) -> int
    decreases names.len(),
{
    if names.len() == 0 || names[0] == name {
        0
    } else {
        1 + place_of_text(names.drop_first(), name)
    }
}

pub proof fn lemma_place_of_text(names: Seq<Seq<char>>, name: Seq<char>)
    ensures
        0 <= place_of_text(names, name) <= names.len(),
        place_of_text(names, name) < names.len() ==> names[place_of_text(names, name)] == name,
        forall|i: int| 0 <= i < place_of_text(names, name) ==> names[i] != name,
    decreases names.len(),
{
    if names.len() > 0 && names[0] != name {
        lemma_place_of_text(names.drop_first(), name);
        assert forall|i: int| 0 <= i < place_of_text(names, name) implies names[i] != name by {
            if i > 0 {
                assert(names.drop_first()[i - 1] == names[i]);
            }
        }
    }
}

pub open spec fn texts_distinct(names: Seq<Seq<char>>) -> bool {
    forall|i: int, j: int| 0 <= i < j < names.len() ==> names[i] != names[j]
}

/// The names after one has been given a number.
pub open spec fn with_text(names: Seq<Seq<char>>, name: Seq<char>) -> Seq<Seq<char>> {
    if place_of_text(names, name) < names.len() {
        names
    } else {
        names.push(name)
    }
}

impl View for ClassIndexes {
    type V = Seq<Seq<char>>;

    open spec fn view(&self) -> Seq<Seq<char>> {
        texts_of(self.names@)
    }
}

impl ClassIndexes {
    pub fn new() -> (r: ClassIndexes)
        ensures
            r@ == Seq::<Seq<char>>::empty(),
    {
        let r = ClassIndexes { names: Vec::new() };
        assert(r@ =~= Seq::<Seq<char>>::empty());
        r
    }

    pub fn len(&self) -> (r: usize)
        ensures
            r == self@.len(),
    {
        self.names.len()
    }

    /// The number of a class.
    pub fn get(&self, name: &str) -> (r: Option<usize>)
        ensures
            match r {
                Some(idx) => idx == place_of_text(self@, name@) && idx < self@.len(),
                None => place_of_text(self@, name@) == self@.len(),
            },
    {
        let mut at: usize = 0;
        while at < self.names.len()
            invariant
                at <= self.names@.len(),
                forall|i: int| 0 <= i < at ==> self@[i] != name@,
            decreases self.names@.len() - at,
        {
            if same_text(self.names[at].as_str(), name) {
                proof {
                    lemma_place_of_text(self@, name@);
                    assert(self@[at as int] == name@);
                }
                return Some(at);
            }
            assert(self@[at as int] != name@);
            at = at + 1;
        }
        proof {
            lemma_place_of_text(self@, name@);
        }
        None
    }

    /// The number of a class, which is given one where it has none. Whether it is new comes back
    /// too.
    pub fn upsert_definition(&mut self, name: &str) -> (r: (bool, usize))
        ensures
            final(self)@ == with_text(old(self)@, name@),
            r.0 == (place_of_text(old(self)@, name@) == old(self)@.len()),
            r.1 == place_of_text(old(self)@, name@),
            r.1 < final(self)@.len(),
            final(self)@[r.1 as int] == name@,
            texts_distinct(old(self)@) ==> texts_distinct(final(self)@),
    {
        proof {
            lemma_place_of_text(self@, name@);
        }
        match self.get(name) {
            Some(idx) => (false, idx),
            None => {
                let idx: usize = self.names.len();
                self.names.push(name.to_owned());
                assert(self@ =~= old(self)@.push(name@));
                (true, idx)
            },
        }
    }
}

/// The classes of an element: the words of its attribute `class`.
pub open spec fn class_list(node: NodeModel) -> Seq<Seq<char>> {
    match node.attribute("class"@) {
        Some(value) => words(value),
        None => Seq::empty(),
    }
}

pub fn get_class_list(node: &Node) -> (r: Vec<String>)
    ensures
        texts_of(r@) == class_list(node@),
{
    match node {
        Node::Element(element) => match element.attributes.get_str("class") {
            Some(value) => split_whitespace(value.as_str()),
            None => {
                let none: Vec<String> = Vec::new();
                assert(texts_of(none@) =~= Seq::<Seq<char>>::empty());
                none
            },
        },
        _ => {
            let none: Vec<String> = Vec::new();
            assert(texts_of(none@) =~= Seq::<Seq<char>>::empty());
            none
        },
    }
}

/// The elements with a class among the nodes below a number.
pub open spec fn class_holders_below(nodes: NodesModel, name: Seq<char>, bound: int) -> Set<usize> {
    Set::new(
        |idx: usize|
            idx < bound && (node_at(nodes, idx) matches Some(node) && class_list(node).contains(
                name,
            )),
    )
}

/// The elements with a class.
pub open spec fn class_holders(nodes: NodesModel, name: Seq<char>) -> Set<usize> {
    class_holders_below(nodes, name, nodes.len() as int)
}

pub open spec fn sets_of(list: Seq<FixedBitSet>) -> Seq<Set<usize>> {
    Seq::new(list.len(), |i: int| set_bits(list[i]))
}

/// The elements with a class below a number, and the element at it where its first classes hold the
/// name.
pub open spec fn class_partial(
    nodes: NodesModel,
    at: usize,
    classes: Seq<Seq<char>>,
    count: int,
    name: Seq<char>,
) -> Set<usize> {
    Set::new(
        |idx: usize|
            class_holders_below(nodes, name, at as int).contains(idx) || (idx == at
                && classes.take(count).contains(name)),
    )
}

proof fn lemma_take_contains(classes: Seq<Seq<char>>, count: int, name: Seq<char>)
    requires
        0 <= count < classes.len(),
    ensures
        classes.take(count + 1).contains(name) == (classes.take(count).contains(name)
            || classes[count] == name),
{
    let more = classes.take(count + 1);
    let less = classes.take(count);
    assert(more[count] == classes[count]);
    if less.contains(name) {
        let i = choose|i: int| 0 <= i < less.len() && less[i] == name;
        assert(more[i] == name);
    }
    if more.contains(name) {
        let i = choose|i: int| 0 <= i < more.len() && more[i] == name;
        if i < count {
            assert(less[i] == name);
        }
    }
}

/// Every class of a node below a number has a number.
pub open spec fn all_classes_known(nodes: NodesModel, names: Seq<Seq<char>>, bound: int) -> bool {
    forall|name: Seq<char>, idx: usize|
        #[trigger] class_holders_below(nodes, name, bound).contains(idx) ==> place_of_text(
            names,
            name,
        ) < names.len()
}

/// Lists for every class the elements that have it. Classes without a number get one.
pub fn get_dom_indexes_classes(nodes: &NodesTable, class_indexes: &mut ClassIndexes) -> (r: Vec<
    FixedBitSet,
>)
    requires
        nodes@.len() < usize::MAX,
        texts_distinct(old(class_indexes)@),
    ensures
        texts_distinct(final(class_indexes)@),
        old(class_indexes)@.is_prefix_of(final(class_indexes)@),
        r@.len() == final(class_indexes)@.len(),
        forall|k: int|
            0 <= k < r@.len() ==> set_bits(#[trigger] r@[k]) == class_holders(
                nodes@,
                final(class_indexes)@[k],
            ),
        all_classes_known(nodes@, final(class_indexes)@, nodes@.len() as int),
{
    let ghost start = class_indexes@;
    let mut class_elements: Vec<FixedBitSet> = Vec::new();
    let count: usize = class_indexes.len();
    let mut i: usize = 0;
    while i < count
        invariant
            i <= count,
            class_elements@.len() == i,
            forall|k: int|
                0 <= k < i ==> set_bits(#[trigger] class_elements@[k]) == Set::<usize>::empty(),
        decreases count - i,
    {
        class_elements.push(FixedBitSet::with_capacity(0));
        i = i + 1;
    }
    let mut at: usize = 0;
    assert forall|k: int| 0 <= k < class_elements@.len() implies set_bits(
        #[trigger] class_elements@[k],
    ) == class_holders_below(nodes@, class_indexes@[k], 0) by {
        assert(class_holders_below(nodes@, class_indexes@[k], 0) =~= Set::empty());
    }
    while at < nodes.data.len()
        invariant
            at <= nodes.data@.len(),
            nodes@.len() < usize::MAX,
            texts_distinct(class_indexes@),
            start.is_prefix_of(class_indexes@),
            class_elements@.len() == class_indexes@.len(),
            forall|k: int|
                0 <= k < class_elements@.len() ==> set_bits(#[trigger] class_elements@[k])
                    == class_holders_below(nodes@, class_indexes@[k], at as int),
            all_classes_known(nodes@, class_indexes@, at as int),
        decreases nodes.data@.len() - at,
    {
        match nodes.get(at) {
            Some(node) => {
                let classes = get_class_list(node);
                let ghost model = class_list(node@);
                let mut j: usize = 0;
                assert forall|k: int| 0 <= k < class_elements@.len() implies set_bits(
                    #[trigger] class_elements@[k],
                ) == class_partial(nodes@, at, model, 0, class_indexes@[k]) by {
                    assert(class_partial(nodes@, at, model, 0, class_indexes@[k])
                        =~= class_holders_below(nodes@, class_indexes@[k], at as int));
                }
                while j < classes.len()
                    invariant
                        j <= classes@.len(),
                        texts_of(classes@) == model,
                        at < usize::MAX,
                        texts_distinct(class_indexes@),
                        start.is_prefix_of(class_indexes@),
                        class_elements@.len() == class_indexes@.len(),
                        forall|k: int|
                            0 <= k < class_elements@.len() ==> set_bits(
                                #[trigger] class_elements@[k],
                            ) == class_partial(nodes@, at, model, j as int, class_indexes@[k]),
                        all_classes_known(nodes@, class_indexes@, at as int),
                        forall|i: int|
                            0 <= i < j ==> place_of_text(class_indexes@, #[trigger] model[i])
                                < class_indexes@.len(),
                    decreases classes@.len() - j,
                {
                    let ghost names = class_indexes@;
                    let ghost added = model[j as int];
                    assert(classes@[j as int]@ == added);
                    let (new, class_idx): (bool, usize) = class_indexes.upsert_definition(
                        classes[j].as_str(),
                    );
                    if new {
                        class_elements.push(FixedBitSet::with_capacity(0));
                    }
                    let ghost sets = class_elements@;
                    proof {
                        lemma_place_of_text(names, added);
                        if new {
                            let set = class_partial(nodes@, at, model, j as int, added);
                            assert forall|idx: usize| !set.contains(idx) by {
                                if class_holders_below(nodes@, added, at as int).contains(idx) {
                                    assert(place_of_text(names, added) < names.len());
                                }
                                if model.take(j as int).contains(added) {
                                    let i = choose|i: int|
                                        0 <= i < j && model.take(j as int)[i] == added;
                                    assert(model[i] == added);
                                }
                            }
                            assert(set =~= Set::empty());
                        }
                        assert forall|k: int| 0 <= k < sets.len() implies set_bits(
                            #[trigger] sets[k],
                        ) == class_partial(nodes@, at, model, j as int, class_indexes@[k]) by {
                            if k < names.len() {
                                assert(class_indexes@[k] == names[k]);
                            }
                        }
                    }
                    let mut bits = class_elements.remove(class_idx);
                    bits.grow_and_insert(at);
                    class_elements.insert(class_idx, bits);
                    proof {
                        assert(class_elements@ =~= sets.update(class_idx as int, bits));
                        assert forall|k: int| 0 <= k < class_elements@.len() implies set_bits(
                            #[trigger] class_elements@[k],
                        ) == class_partial(nodes@, at, model, j + 1, class_indexes@[k]) by {
                            lemma_take_contains(model, j as int, class_indexes@[k]);
                            let old_set = class_partial(
                                nodes@,
                                at,
                                model,
                                j as int,
                                class_indexes@[k],
                            );
                            let new_set = class_partial(nodes@, at, model, j + 1, class_indexes@[k]);
                            assert(set_bits(sets[k]) == old_set);
                            if k == class_idx {
                                assert(new_set =~= old_set.insert(at));
                            } else {
                                assert(class_indexes@[k] != class_indexes@[class_idx as int]);
                                assert(new_set =~= old_set);
                            }
                        }
                        assert forall|name: Seq<char>|
                            place_of_text(names, name) < names.len() implies #[trigger]
                        place_of_text(class_indexes@, name) < class_indexes@.len() by {
                            lemma_place_of_text(class_indexes@, name);
                            lemma_place_of_text(names, name);
                            let k = place_of_text(names, name);
                            assert(class_indexes@[k] == names[k]);
                        }
                        assert(all_classes_known(nodes@, class_indexes@, at as int)) by {
                            assert forall|name: Seq<char>, idx: usize|
                                #[trigger] class_holders_below(nodes@, name, at as int).contains(
                                    idx,
                                ) implies place_of_text(class_indexes@, name)
                                < class_indexes@.len() by {
                                assert(place_of_text(names, name) < names.len());
                            }
                        }
                        assert forall|i: int| 0 <= i < j + 1 implies place_of_text(
                            class_indexes@,
                            #[trigger] model[i],
                        ) < class_indexes@.len() by {
                            lemma_place_of_text(class_indexes@, model[i]);
                            if i < j {
                                assert(place_of_text(names, model[i]) < names.len());
                            } else {
                                assert(class_indexes@[class_idx as int] == model[i]);
                            }
                        }
                    }
                    j = j + 1;
                }
                proof {
                    assert(model.take(model.len() as int) =~= model);
                    assert forall|k: int| 0 <= k < class_elements@.len() implies set_bits(
                        #[trigger] class_elements@[k],
                    ) == class_holders_below(nodes@, class_indexes@[k], at + 1) by {
                        assert(class_partial(
                            nodes@,
                            at,
                            model,
                            model.len() as int,
                            class_indexes@[k],
                        ) =~= class_holders_below(nodes@, class_indexes@[k], at + 1));
                    }
                    assert forall|name: Seq<char>, idx: usize|
                        #[trigger] class_holders_below(nodes@, name, at + 1).contains(
                            idx,
                        ) implies place_of_text(class_indexes@, name) < class_indexes@.len() by {
                        if idx < at {
                            assert(class_holders_below(nodes@, name, at as int).contains(idx));
                        } else {
                            let i = choose|i: int| 0 <= i < model.len() && model[i] == name;
                            assert(place_of_text(class_indexes@, model[i]) < class_indexes@.len());
                        }
                    }
                }
            },
            None => {
                proof {
                    assert forall|name: Seq<char>, idx: usize|
                        #[trigger] class_holders_below(nodes@, name, at + 1).contains(
                            idx,
                        ) implies place_of_text(class_indexes@, name) < class_indexes@.len() by {
                        assert(class_holders_below(nodes@, name, at as int).contains(idx));
                    }
                    assert forall|k: int| 0 <= k < class_elements@.len() implies set_bits(
                        #[trigger] class_elements@[k],
                    ) == class_holders_below(nodes@, class_indexes@[k], at + 1) by {
                        assert(class_holders_below(nodes@, class_indexes@[k], at + 1)
                            =~= class_holders_below(nodes@, class_indexes@[k], at as int));
                    }
                }
            },
        }
        at = at + 1;
    }
    class_elements
}

/// Whether a node can be the root: it has no parent and is no comment.
pub open spec fn is_root(node: NodeModel) -> bool {
    node.parent_idx() is None && !(node is Comment)
}

/// The first node from a number on that can be the root; where `html` is set, it must be an `html`
/// element.
pub open spec fn root_from(nodes: NodesModel, from: int, html: bool) -> Option<usize>
    decreases nodes.len() - from,
{
    if from < 0 || from >= nodes.len() {
        None
    } else {
        match nodes[from] {
            Some(node) => if is_root(node) && (html ==> node.has_tag("html"@)) {
                Some(from as usize)
            } else {
                root_from(nodes, from + 1, html)
            },
            None => root_from(nodes, from + 1, html),
        }
    }
}

/// The root of a document: the first `html` element without a parent, else the first node that can
/// be the root.
pub open spec fn root_of(nodes: NodesModel) -> Option<usize> {
    match root_from(nodes, 0, true) {
        Some(root) => Some(root),
        None => root_from(nodes, 0, false),
    }
}

fn find_root(nodes: &NodesTable, html: bool) -> (r: Option<usize>)
    ensures
        r == root_from(nodes@, 0, html),
{
    let mut at: usize = 0;
    while at < nodes.data.len()
        invariant
            at <= nodes.data@.len(),
            root_from(nodes@, 0, html) == root_from(nodes@, at as int, html),
        decreases nodes.data@.len() - at,
    {
        match nodes.get(at) {
            Some(node) => {
                let comment = match node {
                    Node::Comment(_) => true,
                    _ => false,
                };
                if node.get_parent().is_none() && !comment && (!html || node.is_element("html")) {
                    return Some(at);
                }
            },
            None => {},
        }
        at = at + 1;
    }
    None
}

/// The root of a document.
pub fn find_document_root(nodes: &NodesTable) -> (r: Option<usize>)
    ensures
        r == root_of(nodes@),
{
    match find_root(nodes, true) {
        Some(root) => Some(root),
        None => find_root(nodes, false),
    }
}

/// The indexes of a document.
#[derive(Debug)]
pub struct DomIndexes {
    pub class_elements: Vec<FixedBitSet>,
    pub tag_elements: NameIndex,
    pub id_elements: NameIndex,
    pub children_index: ChildrenIndex,
    pub attribute_elements: NameIndex,
    pub root_indice: usize,
}

/// Indexes a document. Nothing where it has no root.
pub fn get_dom_indexes(
    nodes: &NodesTable,
    nodes_idxs: &Vec<usize>,
    class_indexes: &mut ClassIndexes,
) -> (r: Option<DomIndexes>)
    requires
        nodes@.len() < usize::MAX,
        texts_distinct(old(class_indexes)@),
        forall|i: int| 0 <= i < nodes_idxs@.len() ==> (#[trigger] nodes_idxs@[i]) < usize::MAX,
        forall|i: int|
            0 <= i < nodes_idxs@.len() ==> (crate::dom::parent_of(
                nodes@,
                #[trigger] nodes_idxs@[i],
            ) matches Some(parent) ==> parent < usize::MAX),
    ensures
        texts_distinct(final(class_indexes)@),
        old(class_indexes)@.is_prefix_of(final(class_indexes)@),
        match r {
            Some(dom) => {
                &&& root_of(nodes@) == Some(dom.root_indice)
                &&& indexes(dom.children_index@, nodes@, nodes_idxs@)
                &&& dom.class_elements@.len() == final(class_indexes)@.len()
                &&& forall|k: int|
                    0 <= k < dom.class_elements@.len() ==> set_bits(
                        #[trigger] dom.class_elements@[k],
                    ) == class_holders(nodes@, final(class_indexes)@[k])
                &&& all_classes_known(nodes@, final(class_indexes)@, nodes@.len() as int)
                &&& forall|name: Seq<char>| #[trigger]
                    named(dom.tag_elements@, name) == holders(nodes@, NameKind::Tag, name)
                &&& forall|name: Seq<char>| #[trigger]
                    named(dom.id_elements@, name) == holders(nodes@, NameKind::Id, name)
                &&& forall|name: Seq<char>| #[trigger]
                    named(dom.attribute_elements@, name) == holders(
                        nodes@,
                        NameKind::Attribute,
                        name,
                    )
            },
            None => root_of(nodes@) is None,
        },
{
    let class_elements = get_dom_indexes_classes(nodes, class_indexes);
    let root = find_document_root(nodes);
    match root {
        None => None,
        Some(root_indice) => Some(
            DomIndexes {
                class_elements,
                tag_elements: build_name_index(nodes, NameKind::Tag),
                id_elements: build_name_index(nodes, NameKind::Id),
                children_index: build_children_index(nodes, nodes_idxs),
                attribute_elements: build_name_index(nodes, NameKind::Attribute),
                root_indice,
            },
        ),
    }
}

/// Sets of elements by class, and the names of the classes.
pub struct ClassModel {
    pub sets: Seq<Set<usize>>,
    pub names: Seq<Seq<char>>,
}

/// An element joins a class, which is given a number and a set where it has none.
pub open spec fn joined_class(model: ClassModel, name: Seq<char>, idx: usize) -> ClassModel {
    let place = place_of_text(model.names, name);
    let sets = if place == model.names.len() {
        Seq::new(
            model.names.len() + 1,
            |i: int|
                if i < model.sets.len() {
                    model.sets[i]
                } else {
                    Set::empty()
                },
        )
    } else {
        model.sets
    };
    ClassModel {
        sets: if place < sets.len() {
            sets.update(place, sets[place].insert(idx))
        } else {
            sets
        },
        names: with_text(model.names, name),
    }
}

/// An element joins several classes one after the other.
pub open spec fn joined_classes(model: ClassModel, names: Seq<Seq<char>>, idx: usize) -> ClassModel
    decreases names.len(),
{
    if names.len() == 0 {
        model
    } else {
        joined_class(joined_classes(model, names.drop_last(), idx), names.last(), idx)
    }
}

/// An element leaves several classes.
pub open spec fn left_classes(
    sets: Seq<Set<usize>>,
    known: Seq<Seq<char>>,
    names: Seq<Seq<char>>,
    idx: usize,
) -> Seq<Set<usize>>
    decreases names.len(),
{
    if names.len() == 0 {
        sets
    } else {
        let before = left_classes(sets, known, names.drop_last(), idx);
        let place = place_of_text(known, names.last());
        if place < known.len() && place < before.len() {
            before.update(place, before[place].remove(idx))
        } else {
            before
        }
    }
}

impl DomIndexes {
    pub open spec fn class_sets(self) -> Seq<Set<usize>> {
        sets_of(self.class_elements@)
    }

    /// Indexes the classes anew.
    pub fn recompute_class_elements(&mut self, nodes: &NodesTable, class_indexes: &mut ClassIndexes)
        requires
            nodes@.len() < usize::MAX,
            texts_distinct(old(class_indexes)@),
        ensures
            texts_distinct(final(class_indexes)@),
            old(class_indexes)@.is_prefix_of(final(class_indexes)@),
            final(self).class_elements@.len() == final(class_indexes)@.len(),
            forall|k: int|
                0 <= k < final(self).class_elements@.len() ==> set_bits(
                    #[trigger] final(self).class_elements@[k],
                ) == class_holders(nodes@, final(class_indexes)@[k]),
            all_classes_known(nodes@, final(class_indexes)@, nodes@.len() as int),
            final(self).tag_elements == old(self).tag_elements,
            final(self).id_elements == old(self).id_elements,
            final(self).children_index == old(self).children_index,
            final(self).attribute_elements == old(self).attribute_elements,
            final(self).root_indice == old(self).root_indice,
    {
        self.class_elements = get_dom_indexes_classes(nodes, class_indexes);
    }

    pub fn remove_id_node(&mut self, id: &str, node_idx: usize)
        ensures
            final(self).id_elements@ == without_member(old(self).id_elements@, id@, node_idx),
            final(self).class_elements == old(self).class_elements,
            final(self).tag_elements == old(self).tag_elements,
            final(self).children_index == old(self).children_index,
            final(self).attribute_elements == old(self).attribute_elements,
            final(self).root_indice == old(self).root_indice,
    {
        self.id_elements.remove_node(id, node_idx);
    }

    pub fn add_id_node(&mut self, id: &str, node_idx: usize)
        requires
            node_idx < usize::MAX,
        ensures
            final(self).id_elements@ == with_member(old(self).id_elements@, id@, node_idx),
            final(self).class_elements == old(self).class_elements,
            final(self).tag_elements == old(self).tag_elements,
            final(self).children_index == old(self).children_index,
            final(self).attribute_elements == old(self).attribute_elements,
            final(self).root_indice == old(self).root_indice,
    {
        self.id_elements.add_node(id, node_idx);
    }

    pub fn remove_attribute_node(&mut self, attribute: &str, node_idx: usize)
        ensures
            final(self).attribute_elements@ == without_member(
                old(self).attribute_elements@,
                attribute@,
                node_idx,
            ),
            final(self).class_elements == old(self).class_elements,
            final(self).tag_elements == old(self).tag_elements,
            final(self).children_index == old(self).children_index,
            final(self).id_elements == old(self).id_elements,
            final(self).root_indice == old(self).root_indice,
    {
        self.attribute_elements.remove_node(attribute, node_idx);
    }

    pub fn add_attribute_node(&mut self, attribute: &str, node_idx: usize)
        requires
            node_idx < usize::MAX,
        ensures
            final(self).attribute_elements@ == with_member(
                old(self).attribute_elements@,
                attribute@,
                node_idx,
            ),
            final(self).class_elements == old(self).class_elements,
            final(self).tag_elements == old(self).tag_elements,
            final(self).children_index == old(self).children_index,
            final(self).id_elements == old(self).id_elements,
            final(self).root_indice == old(self).root_indice,
    {
        self.attribute_elements.add_node(attribute, node_idx);
    }

    /// An element joins the classes that a text lists.
    pub fn add_class_node(&mut self, class: &str, node_idx: usize, class_indexes: &mut ClassIndexes)
        requires
            node_idx < usize::MAX,
        ensures
            (ClassModel { sets: final(self).class_sets(), names: final(class_indexes)@ })
                == joined_classes(
                ClassModel { sets: old(self).class_sets(), names: old(class_indexes)@ },
                words(class@),
                node_idx,
            ),
            final(self).id_elements == old(self).id_elements,
            final(self).tag_elements == old(self).tag_elements,
            final(self).children_index == old(self).children_index,
            final(self).attribute_elements == old(self).attribute_elements,
            final(self).root_indice == old(self).root_indice,
    {
        let classes = split_whitespace(class);
        let ghost model = words(class@);
        let ghost start = ClassModel { sets: self.class_sets(), names: class_indexes@ };
        let mut at: usize = 0;
        while at < classes.len()
            invariant
                at <= classes@.len(),
                node_idx < usize::MAX,
                texts_of(classes@) == model,
                (ClassModel { sets: self.class_sets(), names: class_indexes@ }) == joined_classes(
                    start,
                    model.take(at as int),
                    node_idx,
                ),
                self.id_elements == old(self).id_elements,
                self.tag_elements == old(self).tag_elements,
                self.children_index == old(self).children_index,
                self.attribute_elements == old(self).attribute_elements,
                self.root_indice == old(self).root_indice,
            decreases classes@.len() - at,
        {
            let ghost before = ClassModel { sets: self.class_sets(), names: class_indexes@ };
            let ghost name = model[at as int];
            proof {
                assert(classes@[at as int]@ == name);
                assert(model.take(at + 1).drop_last() =~= model.take(at as int));
                lemma_place_of_text(class_indexes@, name);
            }
            let (new, class_idx): (bool, usize) = class_indexes.upsert_definition(
                classes[at].as_str(),
            );
            if new {
                let count: usize = class_indexes.len();
                while self.class_elements.len() > count
                    invariant
                        self.class_elements@.len() >= count || self.class_elements@.len()
                            == before.sets.len(),
                        count == before.names.len() + 1,
                        forall|i: int|
                            0 <= i < self.class_elements@.len() ==> set_bits(
                                #[trigger] self.class_elements@[i],
                            ) == before.sets[i],
                        self.class_elements@.len() <= before.sets.len(),
                        self.id_elements == old(self).id_elements,
                        self.tag_elements == old(self).tag_elements,
                        self.children_index == old(self).children_index,
                        self.attribute_elements == old(self).attribute_elements,
                        self.root_indice == old(self).root_indice,
                    decreases self.class_elements@.len(),
                {
                    let _dropped = self.class_elements.pop();
                }
                while self.class_elements.len() < count
                    invariant
                        self.class_elements@.len() <= count,
                        count == before.names.len() + 1,
                        forall|i: int|
                            0 <= i < self.class_elements@.len() ==> set_bits(
                                #[trigger] self.class_elements@[i],
                            ) == (if i < before.sets.len() {
                                before.sets[i]
                            } else {
                                Set::<usize>::empty()
                            }),
                        self.class_elements@.len() < count ==> self.class_elements@.len()
                            >= before.sets.len(),
                        self.id_elements == old(self).id_elements,
                        self.tag_elements == old(self).tag_elements,
                        self.children_index == old(self).children_index,
                        self.attribute_elements == old(self).attribute_elements,
                        self.root_indice == old(self).root_indice,
                    decreases count - self.class_elements@.len(),
                {
                    self.class_elements.push(FixedBitSet::with_capacity(0));
                }
            }
            let ghost sets = self.class_elements@;
            if class_idx < self.class_elements.len() {
                let mut bits = self.class_elements.remove(class_idx);
                bits.grow_and_insert(node_idx);
                self.class_elements.insert(class_idx, bits);
                assert(self.class_elements@ =~= sets.update(class_idx as int, bits));
            }
            proof {
                let after = joined_class(before, name, node_idx);
                assert(self.class_sets() =~= after.sets);
                assert(class_indexes@ == after.names);
            }
            at = at + 1;
        }
        assert(model.take(model.len() as int) =~= model);
    }

    /// An element leaves the classes that a text lists.
    pub fn remove_class_node(&mut self, class: &str, node_idx: usize, class_indexes: &ClassIndexes)
        ensures
            final(self).class_sets() == left_classes(
                old(self).class_sets(),
                class_indexes@,
                words(class@),
                node_idx,
            ),
            final(self).id_elements == old(self).id_elements,
            final(self).tag_elements == old(self).tag_elements,
            final(self).children_index == old(self).children_index,
            final(self).attribute_elements == old(self).attribute_elements,
            final(self).root_indice == old(self).root_indice,
    {
        let classes = split_whitespace(class);
        let ghost model = words(class@);
        let ghost start = self.class_sets();
        let mut at: usize = 0;
        while at < classes.len()
            invariant
                at <= classes@.len(),
                texts_of(classes@) == model,
                self.class_sets() == left_classes(
                    start,
                    class_indexes@,
                    model.take(at as int),
                    node_idx,
                ),
                self.id_elements == old(self).id_elements,
                self.tag_elements == old(self).tag_elements,
                self.children_index == old(self).children_index,
                self.attribute_elements == old(self).attribute_elements,
                self.root_indice == old(self).root_indice,
            decreases classes@.len() - at,
        {
            let ghost before = self.class_sets();
            proof {
                assert(classes@[at as int]@ == model[at as int]);
                assert(model.take(at + 1).drop_last() =~= model.take(at as int));
            }
            match class_indexes.get(classes[at].as_str()) {
                Some(class_idx) => {
                    if class_idx < self.class_elements.len() {
                        let ghost sets = self.class_elements@;
                        let mut bits = self.class_elements.remove(class_idx);
                        if bits.contains(node_idx) {
                            bits.remove(node_idx);
                        }
                        self.class_elements.insert(class_idx, bits);
                        proof {
                            assert(self.class_elements@ =~= sets.update(class_idx as int, bits));
                            assert(set_bits(bits) =~= before[class_idx as int].remove(node_idx));
                            assert(self.class_sets() =~= before.update(
                                class_idx as int,
                                before[class_idx as int].remove(node_idx),
                            ));
                        }
                    }
                },
                None => {},
            }
            at = at + 1;
        }
        assert(model.take(model.len() as int) =~= model);
    }
}

} // verus!
