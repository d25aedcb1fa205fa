//! Giving the attributes of an element new values, with the indexes kept up to date.
use vstd::prelude::*;

use crate::dom::without_name;
use crate::dom::lemma_set_value_is_read_back;
use crate::dom::lookup;
use crate::dom::names_distinct;
use crate::dom::node_at;
use crate::dom::with_node;
use crate::dom::with_value;
use crate::dom::Attributes;
use crate::dom::AttributesModel;
use crate::dom::Element;
use crate::dom::Node;
use crate::dom::NodeModel;
use crate::dom::NodesTable;
use crate::index::joined_class;
use crate::index::joined_classes;
use crate::index::left_classes;
use crate::index::lemma_place_of_text;
use crate::index::lemma_with_member;
use crate::index::lemma_without_member;
use crate::index::place_of_text;
use crate::index::texts_distinct;
use crate::index::with_member;
use crate::index::without_member;
use crate::index::ClassIndexes;
use crate::index::ClassModel;
use crate::index::DomIndexes;
use crate::index::NamedSets;
use crate::query::lists;
use crate::text::same_text;
use crate::text::words;

verus! {

/// The attributes of an element and the indexes that list it by them.
pub struct IndexedAttributes {
    pub attributes: AttributesModel,
    pub ids: NamedSets,
    pub names: NamedSets,
    pub classes: ClassModel,
}

/// The attributes and indexes after an attribute has been given a value that it did not have.
pub open spec fn with_attribute(
    state: IndexedAttributes,
    idx: usize,
    key: Seq<char>,
    value: Seq<char>,
) -> IndexedAttributes {
    IndexedAttributes {
        ids: if key == "id"@ {
            with_member(
                match lookup(state.attributes, "id"@) {
                    Some(id) => without_member(state.ids, id, idx),
                    None => state.ids,
                },
                value,
                idx,
            )
        } else {
            state.ids
        },
        classes: if key == "class"@ {
            joined_classes(
                ClassModel {
                    sets: match lookup(state.attributes, "class"@) {
                        Some(class) => left_classes(
                            state.classes.sets,
                            state.classes.names,
                            words(class),
                            idx,
                        ),
                        None => state.classes.sets,
                    },
                    names: state.classes.names,
                },
                words(value),
                idx,
            )
        } else {
            state.classes
        },
        names: if lookup(state.attributes, key) is None {
            with_member(state.names, key, idx)
        } else {
            state.names
        },
        attributes: with_value(state.attributes, key, value),
    }
}

/// Whether one of the first values differs from what the attribute has when its turn comes.
pub open spec fn some_differ(
    state: IndexedAttributes,
    idx: usize,
    values: AttributesModel,
) -> bool
    decreases values.len(),
{
    values.len() > 0 && (some_differ(state, idx, values.drop_last()) || lookup(
        with_attributes(state, idx, values.drop_last()).attributes,
        values.last().0,
    ) != Some(values.last().1))
}

/// The attributes and indexes after attributes have been given values one after the other. One that
/// has its value already is left alone.
pub open spec fn with_attributes(
    state: IndexedAttributes,
    idx: usize,
    values: AttributesModel,
) -> IndexedAttributes
    decreases values.len(),
{
    if values.len() == 0 {
        state
    } else {
        let before = with_attributes(state, idx, values.drop_last());
        if lookup(before.attributes, values.last().0) == Some(values.last().1) {
            before
        } else {
            with_attribute(before, idx, values.last().0, values.last().1)
        }
    }
}

/// What an element and the indexes hold together.
pub open spec fn indexed_attributes(
    attributes: AttributesModel,
    dom: DomIndexes,
    classes: ClassIndexes,
) -> IndexedAttributes {
    IndexedAttributes {
        attributes,
        ids: dom.id_elements@,
        names: dom.attribute_elements@,
        classes: ClassModel { sets: dom.class_sets(), names: classes@ },
    }
}

impl NodesTable {
    /// Gives an element other attributes.
    pub fn set_attributes(&mut self, idx: usize, attributes: Attributes)
        requires
            node_at(old(self)@, idx) matches Some(node) && node is Element,
        ensures
            final(self)@ == with_node(
                old(self)@,
                idx,
                with_other_attributes(node_at(old(self)@, idx)->0, attributes@),
            ),
            final(self).cursor == old(self).cursor,
    {
        let mut taken: Option<Node> = None;
        std::mem::swap(&mut taken, &mut self.data[idx]);
        let node = match taken {
            Some(Node::Element(element)) => Some(
                Node::Element(Element { tag: element.tag, attributes, parent: element.parent }),
            ),
            other => other,
        };
        self.data[idx] = node;
        assert(self@ =~= with_node(
            old(self)@,
            idx,
            with_other_attributes(node_at(old(self)@, idx)->0, attributes@),
        ));
    }
}

/// A node with other attributes; only an element has any.
pub open spec fn with_other_attributes(node: NodeModel, attributes: AttributesModel) -> NodeModel {
    match node {
        NodeModel::Element { tag, attributes: _, parent } => NodeModel::Element {
            tag,
            attributes,
            parent,
        },
        other => other,
    }
}

/// There is no such node.
#[derive(Debug, Clone, Copy, PartialEq, Eq, Structural)]
pub struct NoSuchNode;

/// Gives attributes of an element new values. Gives whether anything changed.
pub fn update_element_attributes(
    nodes: &mut NodesTable,
    dom: &mut DomIndexes,
    class_indexes: &mut ClassIndexes,
    node_idx: usize,
    attributes: &Attributes,
) -> (r: Result<bool, NoSuchNode>)
    requires
        node_idx < usize::MAX,
    ensures
        match node_at(old(nodes)@, node_idx) {
            None => r is Err && *final(nodes) == *old(nodes) && *final(dom) == *old(dom)
                && *final(class_indexes) == *old(class_indexes),
            Some(NodeModel::Element { tag, attributes: present, parent }) => {
                let start = indexed_attributes(present, *old(dom), *old(class_indexes));
                let end = with_attributes(start, node_idx, attributes@);
                &&& r == Ok::<bool, NoSuchNode>(some_differ(start, node_idx, attributes@))
                &&& indexed_attributes(end.attributes, *final(dom), *final(class_indexes)) == end
                &&& final(nodes)@ == with_node(
                    old(nodes)@,
                    node_idx,
                    NodeModel::Element { tag, attributes: end.attributes, parent },
                )
                &&& final(nodes).cursor == old(nodes).cursor
                &&& final(dom).tag_elements == old(dom).tag_elements
                &&& final(dom).children_index == old(dom).children_index
                &&& final(dom).root_indice == old(dom).root_indice
            },
            Some(_) => r == Ok::<bool, NoSuchNode>(false) && *final(nodes) == *old(nodes)
                && *final(dom) == *old(dom) && *final(class_indexes) == *old(class_indexes),
        },
{
    let mut present = match nodes.get(node_idx) {
        Some(Node::Element(element)) => element.attributes.copy(),
        Some(_) => {
            return Ok(false);
        },
        None => {
            return Err(NoSuchNode);
        },
    };
    let ghost values = attributes@;
    let ghost start = indexed_attributes(present@, *dom, *class_indexes);
    let mut changed = false;
    let mut at: usize = 0;
    while at < attributes.values.len()
        invariant
            at <= attributes.values@.len(),
            node_idx < usize::MAX,
            values == attributes@,
            indexed_attributes(present@, *dom, *class_indexes) == with_attributes(
                start,
                node_idx,
                values.take(at as int),
            ),
            changed == some_differ(start, node_idx, values.take(at as int)),
            dom.tag_elements == old(dom).tag_elements,
            dom.children_index == old(dom).children_index,
            dom.root_indice == old(dom).root_indice,
        decreases attributes.values@.len() - at,
    {
        let key = &attributes.values[at].0;
        let value = &attributes.values[at].1;
        let ghost before = indexed_attributes(present@, *dom, *class_indexes);
        proof {
            assert(values.take(at + 1).drop_last() =~= values.take(at as int));
            assert(values.take(at + 1).last() == (key@, value@));
        }
        let same = match present.get_str(key.as_str()) {
            Some(current) => same_text(current.as_str(), value.as_str()),
            None => false,
        };
        if !same {
            if same_text(key.as_str(), "id") {
                match present.get_str("id") {
                    Some(id) => dom.remove_id_node(id.as_str(), node_idx),
                    None => {},
                }
                dom.add_id_node(value.as_str(), node_idx);
            }
            if same_text(key.as_str(), "class") {
                match present.get_str("class") {
                    Some(class) => dom.remove_class_node(class.as_str(), node_idx, class_indexes),
                    None => {},
                }
                dom.add_class_node(value.as_str(), node_idx, class_indexes);
            }
            if !present.contains_key(key.as_str()) {
                dom.add_attribute_node(key.as_str(), node_idx);
            }
            present.insert(key.clone(), value.clone());
            changed = true;
            proof {
                let after = with_attribute(before, node_idx, key@, value@);
                let got = indexed_attributes(present@, *dom, *class_indexes);
                assert(got.ids == after.ids);
                assert(got.names == after.names);
                assert(got.classes == after.classes);
            }
        }
        at = at + 1;
    }
    assert(values.take(values.len() as int) =~= values);
    nodes.set_attributes(node_idx, present);
    Ok(changed)
}

/// The attributes and indexes after an element has lost an attribute.
pub open spec fn without_attribute(
    state: IndexedAttributes,
    idx: usize,
    key: Seq<char>,
    value: Seq<char>,
) -> IndexedAttributes {
    IndexedAttributes {
        ids: if key == "id"@ {
            without_member(state.ids, value, idx)
        } else {
            state.ids
        },
        classes: if key == "class"@ && key != "id"@ {
            ClassModel {
                sets: left_classes(
                    state.classes.sets,
                    state.classes.names,
                    words(value),
                    idx,
                ),
                names: state.classes.names,
            }
        } else {
            state.classes
        },
        names: without_member(state.names, key, idx),
        attributes: without_name(state.attributes, key),
    }
}

/// Takes an attribute from an element. Gives whether the element had it.
pub fn remove_element_attribute(
    nodes: &mut NodesTable,
    dom: &mut DomIndexes,
    class_indexes: &ClassIndexes,
    node_idx: usize,
    attribute: &str,
) -> (r: Result<bool, NoSuchNode>)
    ensures
        match node_at(old(nodes)@, node_idx) {
            None => r is Err && *final(nodes) == *old(nodes) && *final(dom) == *old(dom),
            Some(NodeModel::Element { tag, attributes: present, parent }) => match lookup(
                present,
                attribute@,
            ) {
                Some(value) => {
                    let start = indexed_attributes(present, *old(dom), *class_indexes);
                    let end = without_attribute(start, node_idx, attribute@, value);
                    &&& r == Ok::<bool, NoSuchNode>(true)
                    &&& indexed_attributes(end.attributes, *final(dom), *class_indexes) == end
                    &&& final(nodes)@ == with_node(
                        old(nodes)@,
                        node_idx,
                        NodeModel::Element { tag, attributes: end.attributes, parent },
                    )
                    &&& final(nodes).cursor == old(nodes).cursor
                    &&& final(dom).tag_elements == old(dom).tag_elements
                    &&& final(dom).children_index == old(dom).children_index
                    &&& final(dom).root_indice == old(dom).root_indice
                },
                None => r == Ok::<bool, NoSuchNode>(false) && *final(nodes) == *old(nodes)
                    && *final(dom) == *old(dom),
            },
            Some(_) => r == Ok::<bool, NoSuchNode>(false) && *final(nodes) == *old(nodes)
                && *final(dom) == *old(dom),
        },
{
    let mut present = match nodes.get(node_idx) {
        Some(Node::Element(element)) => element.attributes.copy(),
        Some(_) => {
            return Ok(false);
        },
        None => {
            return Err(NoSuchNode);
        },
    };
    let value = match present.get_str(attribute) {
        Some(value) => value.clone(),
        None => {
            return Ok(false);
        },
    };
    let ghost start = indexed_attributes(present@, *dom, *class_indexes);
    if same_text(attribute, "id") {
        dom.remove_id_node(value.as_str(), node_idx);
    } else if same_text(attribute, "class") {
        dom.remove_class_node(value.as_str(), node_idx, class_indexes);
    }
    dom.remove_attribute_node(attribute, node_idx);
    present.remove(attribute);
    proof {
        let after = without_attribute(start, node_idx, attribute@, value@);
        let got = indexed_attributes(present@, *dom, *class_indexes);
        assert(got.ids == after.ids);
        assert(got.names == after.names);
        assert(got.classes == after.classes);
        assert(got.attributes == after.attributes);
    }
    nodes.set_attributes(node_idx, present);
    Ok(true)
}

/// Whether a class lists a node.
pub open spec fn class_lists(classes: ClassModel, name: Seq<char>, el: usize) -> bool {
    let place = place_of_text(classes.names, name);
    place < classes.names.len() && place < classes.sets.len() && classes.sets[place].contains(el)
}

/// Whether the indexes list a node under exactly its id, its attributes and its classes.
pub open spec fn listed_right(state: IndexedAttributes, idx: usize) -> bool {
    &&& forall|name: Seq<char>| #[trigger]
        lists(state.ids, name, idx) <==> lookup(state.attributes, "id"@) == Some(name)
    &&& forall|name: Seq<char>| #[trigger]
        lists(state.names, name, idx) <==> lookup(state.attributes, name) is Some
    &&& forall|name: Seq<char>| #[trigger]
        class_lists(state.classes, name, idx) <==> classes_of(state.attributes).contains(name)
}

pub open spec fn classes_of(attributes: AttributesModel) -> Seq<Seq<char>> {
    match lookup(attributes, "class"@) {
        Some(class) => words(class),
        None => Seq::empty(),
    }
}

/// Whether two states list a node alike.
pub open spec fn listed_alike(a: IndexedAttributes, b: IndexedAttributes, el: usize) -> bool {
    &&& forall|name: Seq<char>| #[trigger] lists(a.ids, name, el) <==> lists(b.ids, name, el)
    &&& forall|name: Seq<char>| #[trigger] lists(a.names, name, el) <==> lists(b.names, name, el)
    &&& forall|name: Seq<char>| #[trigger]
        class_lists(a.classes, name, el) <==> class_lists(b.classes, name, el)
}

proof fn lemma_place_is_text(names: Seq<Seq<char>>, name: Seq<char>, at: int)
    requires
        0 <= at < names.len(),
        names[at] == name,
        texts_distinct(names),
    ensures
        place_of_text(names, name) == at,
{
    lemma_place_of_text(names, name);
    let place = place_of_text(names, name);
    if place < at {
        assert(names[place] != names[at]);
    }
}

proof fn lemma_left_classes(classes: ClassModel, names: Seq<Seq<char>>, idx: usize, name: Seq<char>, el: usize)
    requires
        texts_distinct(classes.names),
        classes.sets.len() == classes.names.len(),
    ensures
        ({
            let sets = left_classes(classes.sets, classes.names, names, idx);
            &&& sets.len() == classes.sets.len()
            &&& class_lists(ClassModel { sets, names: classes.names }, name, el) <==> class_lists(
                classes,
                name,
                el,
            ) && !(el == idx && names.contains(name))
        }),
    decreases names.len(),
{
    lemma_place_of_text(classes.names, name);
    if names.len() > 0 {
        lemma_left_classes(classes, names.drop_last(), idx, name, el);
        lemma_place_of_text(classes.names, names.last());
        let rest = names.drop_last();
        assert(names.contains(name) <==> rest.contains(name) || names.last() == name) by {
            if rest.contains(name) {
                let k = choose|k: int| 0 <= k < rest.len() && rest[k] == name;
                assert(names[k] == name);
            }
            if names.contains(name) {
                let k = choose|k: int| 0 <= k < names.len() && names[k] == name;
                if k < rest.len() {
                    assert(rest[k] == name);
                }
            }
            if names.last() == name {
                assert(names[names.len() - 1] == name);
            }
        }
    }
}

proof fn lemma_joined_class(classes: ClassModel, joined: Seq<char>, idx: usize, name: Seq<char>, el: usize)
    requires
        texts_distinct(classes.names),
        classes.sets.len() == classes.names.len(),
    ensures
        ({
            let after = joined_class(classes, joined, idx);
            &&& texts_distinct(after.names)
            &&& after.sets.len() == after.names.len()
            &&& class_lists(after, name, el) <==> class_lists(classes, name, el) || (el == idx
                && name == joined)
        }),
{
    let after = joined_class(classes, joined, idx);
    lemma_place_of_text(classes.names, joined);
    lemma_place_of_text(classes.names, name);
    lemma_place_of_text(after.names, name);
    let place = place_of_text(classes.names, joined);
    if place == classes.names.len() {
        assert(after.names[place] == joined);
        assert forall|i: int, j: int| 0 <= i < j < after.names.len() implies after.names[i]
            != after.names[j] by {
            assert(after.names[i] == classes.names[i]);
            if j < classes.names.len() {
                assert(after.names[j] == classes.names[j]);
            }
        }
        lemma_place_is_text(after.names, joined, place);
        if place_of_text(classes.names, name) < classes.names.len() {
            let at = place_of_text(classes.names, name);
            assert(after.names[at] == name);
            lemma_place_is_text(after.names, name, at);
        } else if name != joined {
            let at = place_of_text(after.names, name);
            if at < after.names.len() {
                if at < classes.names.len() {
                    assert(after.names[at] == classes.names[at]);
                    assert(classes.names[at] != name);
                }
            }
        }
    } else {
        assert(after.names == classes.names);
        if name != joined && place_of_text(classes.names, name) < classes.names.len() {
            assert(place_of_text(classes.names, name) != place);
        }
    }
}

proof fn lemma_joined_classes(classes: ClassModel, names: Seq<Seq<char>>, idx: usize, name: Seq<char>, el: usize)
    requires
        texts_distinct(classes.names),
        classes.sets.len() == classes.names.len(),
    ensures
        ({
            let after = joined_classes(classes, names, idx);
            &&& texts_distinct(after.names)
            &&& after.sets.len() == after.names.len()
            &&& class_lists(after, name, el) <==> class_lists(classes, name, el) || (el == idx
                && names.contains(name))
        }),
    decreases names.len(),
{
    if names.len() > 0 {
        let rest = names.drop_last();
        lemma_joined_classes(classes, rest, idx, name, el);
        lemma_joined_class(joined_classes(classes, rest, idx), names.last(), idx, name, el);
        assert(names.contains(name) <==> rest.contains(name) || names.last() == name) by {
            if rest.contains(name) {
                let k = choose|k: int| 0 <= k < rest.len() && rest[k] == name;
                assert(names[k] == name);
            }
            if names.contains(name) {
                let k = choose|k: int| 0 <= k < names.len() && names[k] == name;
                if k < rest.len() {
                    assert(rest[k] == name);
                }
            }
            if names.last() == name {
                assert(names[names.len() - 1] == name);
            }
        }
    }
}

/// What the laws on updates ask of the indexes: every class with a number has a set, and no name
/// occurs twice.
pub open spec fn well_kept(state: IndexedAttributes) -> bool {
    &&& names_distinct(state.attributes)
    &&& texts_distinct(state.classes.names)
    &&& state.classes.sets.len() == state.classes.names.len()
}

proof fn lemma_lists_with(index: NamedSets, name: Seq<char>, idx: usize, other: Seq<char>, el: usize)
    ensures
        lists(with_member(index, name, idx), other, el) <==> lists(index, other, el) || (el == idx
            && other == name),
{
    lemma_with_member(index, name, idx, other);
}

proof fn lemma_lists_without(
    index: NamedSets,
    name: Seq<char>,
    idx: usize,
    other: Seq<char>,
    el: usize,
)
    ensures
        lists(without_member(index, name, idx), other, el) <==> lists(index, other, el) && !(el
            == idx && other == name),
{
    lemma_without_member(index, name, idx, other);
}

proof fn lemma_with_attribute(
    state: IndexedAttributes,
    idx: usize,
    key: Seq<char>,
    value: Seq<char>,
    el: usize,
)
    requires
        well_kept(state),
        listed_right(state, idx),
    ensures
        well_kept(with_attribute(state, idx, key, value)),
        listed_right(with_attribute(state, idx, key, value), idx),
        el != idx ==> listed_alike(with_attribute(state, idx, key, value), state, el),
{
    let after = with_attribute(state, idx, key, value);
    lemma_set_value_is_read_back(state.attributes, key, value, "id"@);
    lemma_set_value_is_read_back(state.attributes, key, value, "class"@);
    let id = lookup(state.attributes, "id"@);
    let left_ids = match id {
        Some(id) => without_member(state.ids, id, idx),
        None => state.ids,
    };
    let left = ClassModel {
        sets: match lookup(state.attributes, "class"@) {
            Some(class) => left_classes(
                state.classes.sets,
                state.classes.names,
                words(class),
                idx,
            ),
            None => state.classes.sets,
        },
        names: state.classes.names,
    };
    assert forall|name: Seq<char>, x: usize|
        (#[trigger] lists(after.ids, name, x) <==> if x == idx {
            lookup(after.attributes, "id"@) == Some(name)
        } else {
            lists(state.ids, name, x)
        }) by {
        assert(lists(state.ids, name, idx) <==> id == Some(name));
        if key == "id"@ {
            lemma_lists_with(left_ids, value, idx, name, x);
            if id is Some {
                lemma_lists_without(state.ids, id->0, idx, name, x);
            }
        }
    }
    assert forall|name: Seq<char>, x: usize|
        (#[trigger] lists(after.names, name, x) <==> if x == idx {
            lookup(after.attributes, name) is Some
        } else {
            lists(state.names, name, x)
        }) by {
        lemma_set_value_is_read_back(state.attributes, key, value, name);
        assert(lists(state.names, name, idx) <==> lookup(state.attributes, name) is Some);
        if lookup(state.attributes, key) is None {
            lemma_lists_with(state.names, key, idx, name, x);
        }
    }
    assert forall|name: Seq<char>, x: usize|
        (#[trigger] class_lists(after.classes, name, x) <==> if x == idx {
            classes_of(after.attributes).contains(name)
        } else {
            class_lists(state.classes, name, x)
        }) by {
        assert(class_lists(state.classes, name, idx) <==> classes_of(state.attributes).contains(
            name,
        ));
        if key == "class"@ {
            if let Some(class) = lookup(state.attributes, "class"@) {
                lemma_left_classes(state.classes, words(class), idx, name, x);
            }
            lemma_joined_classes(left, words(value), idx, name, x);
        }
    }
    if key == "class"@ {
        if let Some(class) = lookup(state.attributes, "class"@) {
            lemma_left_classes(state.classes, words(class), idx, key, idx);
        }
        lemma_joined_classes(left, words(value), idx, key, idx);
    }
}

/// Giving attributes new values keeps the indexes right: where they listed an element under exactly
/// its id, its attributes and its classes, they do so afterwards, and they list every other element
/// as before.
pub proof fn lemma_updates_keep_indexes(
    state: IndexedAttributes,
    idx: usize,
    values: AttributesModel,
    el: usize,
)
    requires
        well_kept(state),
        listed_right(state, idx),
    ensures
        well_kept(with_attributes(state, idx, values)),
        listed_right(with_attributes(state, idx, values), idx),
        el != idx ==> listed_alike(with_attributes(state, idx, values), state, el),
    decreases values.len(),
{
    if values.len() > 0 {
        let before = with_attributes(state, idx, values.drop_last());
        lemma_updates_keep_indexes(state, idx, values.drop_last(), el);
        lemma_with_attribute(before, idx, values.last().0, values.last().1, el);
        if el != idx {
            let after = with_attributes(state, idx, values);
            assert forall|name: Seq<char>| #[trigger]
                lists(after.ids, name, el) <==> lists(state.ids, name, el) by {
                assert(lists(before.ids, name, el) <==> lists(state.ids, name, el));
            }
            assert forall|name: Seq<char>| #[trigger]
                lists(after.names, name, el) <==> lists(state.names, name, el) by {
                assert(lists(before.names, name, el) <==> lists(state.names, name, el));
            }
            assert forall|name: Seq<char>| #[trigger]
                class_lists(after.classes, name, el) <==> class_lists(
                    state.classes,
                    name,
                    el,
                ) by {
                assert(class_lists(before.classes, name, el) <==> class_lists(
                    state.classes,
                    name,
                    el,
                ));
            }
        }
    }
}

} // verus!
