//! What selectors promise: which elements the steps of a selector are about, and how the steps before
//! the last one narrow them down.
use vstd::prelude::*;

use crate::bits::lemma_members;
use crate::bits::members;
use crate::css::AttributeModel;
use crate::document::lemma_place_of;
use crate::document::place_of;
use crate::dom::node_at;
use crate::dom::parent_of;
use crate::dom::NodesModel;
use crate::index::class_holders;
use crate::index::class_list;
use crate::index::holders;
use crate::index::named;
use crate::index::NameKind;
use crate::index::NamedSets;
use crate::matching::attribute_holds;
use crate::matching::attributes_hold;
use crate::matching::has_pseudo;
use crate::matching::in_some;
use crate::matching::is_selected;
use crate::matching::language_of;
use crate::matching::meets_part;
use crate::matching::meets_parts;
use crate::matching::siblings_of;
use crate::matching::speaks;
use crate::matching::MatchEnv;
use crate::numbers::unsigned_value;
use crate::query::after_candidates;
use crate::query::after_rule;
use crate::query::after_rules;
use crate::query::after_selectors;
use crate::query::all_elements;
use crate::query::attribute_key;
use crate::query::base_choice;
use crate::query::candidates;
use crate::query::filtered;
use crate::query::indexed_candidates;
use crate::query::indexed_list;
use crate::query::indexed_rules;
use crate::query::lemma_nested_are_smaller;
use crate::query::lemma_single_rule_size;
use crate::query::listed_for;
use crate::query::lists;
use crate::query::matched_elements;
use crate::query::meets_others;
use crate::query::nothing_found;
use crate::query::queried;
use crate::query::rest_met;
use crate::query::selected_sets;
use crate::query::single_rule;
use crate::query::with_selected;
use crate::query::FoundSpec;
use crate::search::above_rule;
use crate::search::before_step;
use crate::search::earlier_sibling;
use crate::search::lemma_parents_first;
use crate::search::narrowed;
use crate::search::nearest_match;
use crate::search::previous_element;
use crate::search::selector_at;
use crate::search::step_at;
use crate::search::KindSpec;
use crate::search::RuleSpec;
use crate::selectors::indexed_part;
use crate::selectors::indexed_parts;
use crate::selectors::indexed_selectors;
use crate::selectors::lemma_indexing_extends;
use crate::selectors::lemma_indexing_parts_extends;
use crate::selectors::lemma_selector_place;
use crate::selectors::selector_place;
use crate::selectors::selector_size;
use crate::selectors::specificity_of;
use crate::selectors::with_selector;
use crate::selectors::PartSpec;
use crate::selectors::PseudoSpec;
use crate::selectors::Specificity;
use crate::tree::acyclic;
use crate::tree::children_at;
use crate::tree::climbs;
use crate::tree::lineage;
use crate::tree::rank_of;

verus! {

/// Whether a node is an element.
pub open spec fn is_element(nodes: NodesModel, el: usize) -> bool {
    node_at(nodes, el) matches Some(node) && node is Element
}

/// Whether the indexes that a search asks list each element under exactly its tag, its id and its
/// attributes.
pub open spec fn indexes_right(env: MatchEnv) -> bool {
    &&& forall|name: Seq<char>, el: usize| #[trigger]
        lists(env.tags, name, el) == (node_at(env.nodes, el) matches Some(node) && node.has_tag(
            name,
        ))
    &&& forall|name: Seq<char>, el: usize| #[trigger]
        lists(env.ids, name, el) == (node_at(env.nodes, el) matches Some(node) && node.attribute(
            "id"@,
        ) == Some(name))
    &&& forall|name: Seq<char>, el: usize| #[trigger]
        lists(env.attributes, name, el) == (node_at(env.nodes, el) matches Some(node)
            && node.attribute(name) is Some)
    &&& forall|class: int, el: usize|
        0 <= class < env.classes.len() && (#[trigger] env.classes[class].contains(el)) ==> is_element(
            env.nodes,
            el,
        )
}

/// Whether an element is what a step of a selector says, in a document.
pub open spec fn step_holds(part: PartSpec, el: usize, env: MatchEnv) -> bool
    decreases part,
{
    match part {
        PartSpec::Tag(tag) => if tag == "*"@ {
            is_element(env.nodes, el)
        } else {
            node_at(env.nodes, el) matches Some(node) && node.has_tag(tag)
        },
        PartSpec::Id(id) => node_at(env.nodes, el) matches Some(node) && node.attribute("id"@)
            == Some(id),
        PartSpec::Class(class) => class < env.classes.len() && env.classes[class as int].contains(
            el,
        ),
        PartSpec::Attributes(attributes) => is_element(env.nodes, el) && (node_at(
            env.nodes,
            el,
        ) matches Some(node) && forall|i: int|
            0 <= i < attributes.len() ==> (match #[trigger] attributes[i] {
                AttributeModel::Key(key) => node.attribute(key) is Some,
                AttributeModel::KeyValue(key, value) => node.attribute(key) == Some(value),
            })),
        PartSpec::Pseudo(PseudoSpec::Not(selector)) => !queried(selector, env).contains(el),
        PartSpec::Pseudo(PseudoSpec::Is(list)) => exists|i: int|
            0 <= i < list.len() && queried(#[trigger] list[i], env).contains(el),
        PartSpec::Pseudo(PseudoSpec::Where(list)) => exists|i: int|
            0 <= i < list.len() && queried(#[trigger] list[i], env).contains(el),
        PartSpec::Pseudo(class) => has_pseudo(class, el, env),
        PartSpec::Combined(parts) => forall|i: int|
            0 <= i < parts.len() ==> step_holds(#[trigger] parts[i], el, env),
        _ => true,
    }
}

/// Whether a step comes from a style sheet: its nested selectors are selectors, not places of them.
pub open spec fn is_plain(part: PartSpec) -> bool
    decreases part,
{
    match part {
        PartSpec::Pseudo(PseudoSpec::IndexedNot(_)) => false,
        PartSpec::Pseudo(PseudoSpec::IndexedIs(_)) => false,
        PartSpec::Pseudo(PseudoSpec::IndexedWhere(_)) => false,
        PartSpec::Combined(parts) => forall|i: int|
            0 <= i < parts.len() ==> is_plain(#[trigger] parts[i]),
        _ => true,
    }
}

/// Whether one step is another with its nested selectors replaced by their places in a list.
pub open spec fn stands_for(indexed: PartSpec, part: PartSpec, list: Seq<Seq<PartSpec>>) -> bool
    decreases part,
{
    match part {
        PartSpec::Pseudo(PseudoSpec::Not(selector)) => indexed matches PartSpec::Pseudo(
            PseudoSpec::IndexedNot(place),
        ) && place < list.len() && list[place as int] == selector,
        PartSpec::Pseudo(PseudoSpec::Is(selectors)) => indexed matches PartSpec::Pseudo(
            PseudoSpec::IndexedIs(places),
        ) && places.len() == selectors.len() && forall|i: int|
            0 <= i < places.len() ==> (#[trigger] places[i]) < list.len() && list[places[i] as int]
                == selectors[i],
        PartSpec::Pseudo(PseudoSpec::Where(selectors)) => indexed matches PartSpec::Pseudo(
            PseudoSpec::IndexedWhere(places),
        ) && places.len() == selectors.len() && forall|i: int|
            0 <= i < places.len() ==> (#[trigger] places[i]) < list.len() && list[places[i] as int]
                == selectors[i],
        PartSpec::Combined(parts) => indexed matches PartSpec::Combined(changed) && changed.len()
            == parts.len() && forall|i: int|
            0 <= i < parts.len() ==> stands_for(changed[i], #[trigger] parts[i], list),
        _ => indexed == part,
    }
}

proof fn lemma_placed(list: Seq<Seq<PartSpec>>, selector: Seq<PartSpec>, all: Seq<Seq<PartSpec>>)
    requires
        with_selector(list, selector).is_prefix_of(all),
        all.len() <= usize::MAX,
    ensures
        ({
            let place = selector_place(list, selector) as usize;
            place < all.len() && all[place as int] == selector
        }),
{
    lemma_selector_place(list, selector);
    let placed = with_selector(list, selector);
    let place = selector_place(list, selector);
    assert(placed[place] == selector);
    assert(all[place] == placed[place]);
}

proof fn lemma_prefix_of_prefix(
    a: Seq<Seq<PartSpec>>,
    b: Seq<Seq<PartSpec>>,
    c: Seq<Seq<PartSpec>>,
)
    requires
        a.is_prefix_of(b),
        b.is_prefix_of(c),
    ensures
        a.is_prefix_of(c),
{
    assert(a =~= c.subrange(0, a.len() as int)) by {
        assert forall|i: int| 0 <= i < a.len() implies a[i] == c[i] by {
            assert(a[i] == b[i]);
            assert(b[i] == c[i]);
        }
    }
}

proof fn lemma_indexed_stands_for(
    part: PartSpec,
    list: Seq<Seq<PartSpec>>,
    all: Seq<Seq<PartSpec>>,
)
    requires
        is_plain(part),
        indexed_part(part, list).1.is_prefix_of(all),
        all.len() <= usize::MAX,
    ensures
        stands_for(indexed_part(part, list).0, part, all),
    decreases part, 0nat,
{
    match part {
        PartSpec::Pseudo(PseudoSpec::Not(selector)) => {
            let placed = with_selector(list, selector);
            lemma_indexing_parts_extends(selector, selector.len(), placed);
            lemma_prefix_of_prefix(placed, indexed_part(part, list).1, all);
            lemma_placed(list, selector, all);
        },
        PartSpec::Pseudo(PseudoSpec::Is(selectors)) => {
            lemma_indexed_selectors_stand_for(selectors, selectors.len(), list, all);
        },
        PartSpec::Pseudo(PseudoSpec::Where(selectors)) => {
            lemma_indexed_selectors_stand_for(selectors, selectors.len(), list, all);
        },
        PartSpec::Combined(parts) => {
            lemma_indexed_parts_stand_for(parts, parts.len(), list, all);
        },
        _ => {},
    }
}

proof fn lemma_indexed_parts_stand_for(
    parts: Seq<PartSpec>,
    count: nat,
    list: Seq<Seq<PartSpec>>,
    all: Seq<Seq<PartSpec>>,
)
    requires
        count <= parts.len(),
        forall|i: int| 0 <= i < parts.len() ==> is_plain(#[trigger] parts[i]),
        indexed_parts(parts, count, list).1.is_prefix_of(all),
        all.len() <= usize::MAX,
    ensures
        indexed_parts(parts, count, list).0.len() == count,
        forall|i: int|
            0 <= i < count ==> stands_for(
                indexed_parts(parts, count, list).0[i],
                #[trigger] parts[i],
                all,
            ),
    decreases parts, count,
{
    if count > 0 {
        let (before, between) = indexed_parts(parts, (count - 1) as nat, list);
        let last = parts[count - 1];
        lemma_indexing_extends(last, between);
        lemma_prefix_of_prefix(between, indexed_part(last, between).1, all);
        lemma_indexed_parts_stand_for(parts, (count - 1) as nat, list, all);
        lemma_indexed_stands_for(last, between, all);
        assert forall|i: int| 0 <= i < count implies stands_for(
            indexed_parts(parts, count, list).0[i],
            #[trigger] parts[i],
            all,
        ) by {
            if i < count - 1 {
                assert(indexed_parts(parts, count, list).0[i] == before[i]);
            }
        }
    }
}

proof fn lemma_indexed_selectors_stand_for(
    selectors: Seq<Seq<PartSpec>>,
    count: nat,
    list: Seq<Seq<PartSpec>>,
    all: Seq<Seq<PartSpec>>,
)
    requires
        count <= selectors.len(),
        indexed_selectors(selectors, count, list).1.is_prefix_of(all),
        all.len() <= usize::MAX,
    ensures
        indexed_selectors(selectors, count, list).0.len() == count,
        forall|i: int|
            0 <= i < count ==> {
                let place = #[trigger] indexed_selectors(selectors, count, list).0[i];
                place < all.len() && all[place as int] == selectors[i]
            },
    decreases count,
{
    if count > 0 {
        let (before, between) = indexed_selectors(selectors, (count - 1) as nat, list);
        let selector = selectors[count - 1];
        let placed = with_selector(between, selector);
        lemma_indexing_parts_extends(selector, selector.len(), placed);
        lemma_prefix_of_prefix(placed, indexed_selectors(selectors, count, list).1, all);
        assert(between.is_prefix_of(placed));
        lemma_prefix_of_prefix(between, placed, all);
        lemma_indexed_selectors_stand_for(selectors, (count - 1) as nat, list, all);
        lemma_placed(between, selector, all);
        assert forall|i: int| 0 <= i < count implies ({
            let place = #[trigger] indexed_selectors(selectors, count, list).0[i];
            place < all.len() && all[place as int] == selectors[i]
        }) by {
            if i < count - 1 {
                assert(indexed_selectors(selectors, count, list).0[i] == before[i]);
            }
        }
    }
}

/// The sets that nested selectors select stand at their places.
proof fn lemma_selected_sets(list: Seq<Seq<PartSpec>>, count: nat, env: MatchEnv, bound: nat)
    requires
        count <= list.len(),
        forall|i: int| 0 <= i < list.len() ==> 1 + selector_size(#[trigger] list[i]) < bound,
    ensures
        selected_sets(list, count, env, bound).len() == count,
        forall|i: int|
            0 <= i < count ==> #[trigger] selected_sets(list, count, env, bound)[i] == queried(
                list[i],
                env,
            ),
    decreases count,
{
    if count > 0 {
        lemma_selected_sets(list, (count - 1) as nat, env, bound);
        let before = selected_sets(list, (count - 1) as nat, env, bound);
        assert forall|i: int| 0 <= i < count implies #[trigger] selected_sets(
            list,
            count,
            env,
            bound,
        )[i] == queried(list[i], env) by {
            if i < count - 1 {
                assert(selected_sets(list, count, env, bound)[i] == before[i]);
            }
        }
    }
}

/// Whether an element meets a step that stands for another is whether the other holds for it.
proof fn lemma_met_is_held(
    indexed: PartSpec,
    part: PartSpec,
    list: Seq<Seq<PartSpec>>,
    el: usize,
    env: MatchEnv,
    full: MatchEnv,
    asked: Set<usize>,
)
    requires
        is_plain(part),
        stands_for(indexed, part, list),
        full == with_selected(env, full.selected),
        full.selected.len() == list.len(),
        forall|i: int|
            0 <= i < list.len() ==> #[trigger] full.selected[i] == queried(list[i], env),
    ensures
        meets_part(indexed, el, full, asked).0 == step_holds(part, el, env),
    decreases part, 0nat,
{
    match part {
        PartSpec::Pseudo(PseudoSpec::Not(selector)) => {},
        PartSpec::Pseudo(PseudoSpec::Is(selectors)) => {
            if let PartSpec::Pseudo(PseudoSpec::IndexedIs(places)) = indexed {
                lemma_some_are_selected(places, selectors, list, el, env, full);
            }
        },
        PartSpec::Pseudo(PseudoSpec::Where(selectors)) => {
            if let PartSpec::Pseudo(PseudoSpec::IndexedWhere(places)) = indexed {
                lemma_some_are_selected(places, selectors, list, el, env, full);
            }
        },
        PartSpec::Combined(parts) => {
            if let PartSpec::Combined(changed) = indexed {
                lemma_met_are_held(changed, parts, changed.len(), list, el, env, full, asked);
            }
        },
        PartSpec::Attributes(attributes) => {
            if let Some(node) = node_at(env.nodes, el) {
                assert forall|i: int| 0 <= i < attributes.len() implies attribute_holds(
                    node,
                    #[trigger] attributes[i],
                ) == (match attributes[i] {
                    AttributeModel::Key(key) => node.attribute(key) is Some,
                    AttributeModel::KeyValue(key, value) => node.attribute(key) == Some(value),
                }) by {}
                if step_holds(part, el, env) {
                    assert(attributes_hold(node, attributes));
                }
                if attributes_hold(node, attributes) && node is Element {
                    assert forall|i: int| 0 <= i < attributes.len() implies (match
                        #[trigger] attributes[i] {
                        AttributeModel::Key(key) => node.attribute(key) is Some,
                        AttributeModel::KeyValue(key, value) => node.attribute(key) == Some(value),
                    }) by {
                        assert(attribute_holds(node, attributes[i]));
                    }
                }
            }
        },
        PartSpec::Pseudo(class) => {
            lemma_pseudo_ignores_selected(class, el, env, full);
        },
        _ => {},
    }
}

proof fn lemma_pseudo_ignores_selected(
    class: PseudoSpec,
    el: usize,
    env: MatchEnv,
    full: MatchEnv,
)
    requires
        full == with_selected(env, full.selected),
        !(class is IndexedNot),
        !(class is IndexedIs),
        !(class is IndexedWhere),
    ensures
        has_pseudo(class, el, full) == has_pseudo(class, el, env),
{
}

proof fn lemma_some_are_selected(
    places: Seq<usize>,
    selectors: Seq<Seq<PartSpec>>,
    list: Seq<Seq<PartSpec>>,
    el: usize,
    env: MatchEnv,
    full: MatchEnv,
)
    requires
        places.len() == selectors.len(),
        forall|i: int|
            0 <= i < places.len() ==> (#[trigger] places[i]) < list.len() && list[places[i] as int]
                == selectors[i],
        full.selected.len() == list.len(),
        forall|i: int|
            0 <= i < list.len() ==> #[trigger] full.selected[i] == queried(list[i], env),
    ensures
        in_some(full.selected, places, el) == (exists|i: int|
            0 <= i < selectors.len() && queried(#[trigger] selectors[i], env).contains(el)),
{
    assert forall|i: int| 0 <= i < places.len() implies is_selected(
        full.selected,
        #[trigger] places[i],
        el,
    ) == queried(selectors[i], env).contains(el) by {
        assert(full.selected[places[i] as int] == queried(list[places[i] as int], env));
    }
    if in_some(full.selected, places, el) {
        let i = choose|i: int|
            0 <= i < places.len() && is_selected(full.selected, #[trigger] places[i], el);
        assert(queried(selectors[i], env).contains(el));
    }
    if exists|i: int| 0 <= i < selectors.len() && queried(#[trigger] selectors[i], env).contains(
        el,
    ) {
        let i = choose|i: int|
            0 <= i < selectors.len() && queried(#[trigger] selectors[i], env).contains(el);
        assert(is_selected(full.selected, places[i], el));
    }
}

proof fn lemma_met_are_held(
    changed: Seq<PartSpec>,
    parts: Seq<PartSpec>,
    count: nat,
    list: Seq<Seq<PartSpec>>,
    el: usize,
    env: MatchEnv,
    full: MatchEnv,
    asked: Set<usize>,
)
    requires
        count <= parts.len(),
        changed.len() == parts.len(),
        forall|i: int| 0 <= i < parts.len() ==> is_plain(#[trigger] parts[i]),
        forall|i: int|
            0 <= i < parts.len() ==> stands_for(changed[i], #[trigger] parts[i], list),
        full == with_selected(env, full.selected),
        full.selected.len() == list.len(),
        forall|i: int|
            0 <= i < list.len() ==> #[trigger] full.selected[i] == queried(list[i], env),
    ensures
        meets_parts(changed, count, el, full, asked).0 == (forall|i: int|
            0 <= i < count ==> step_holds(#[trigger] parts[i], el, env)),
    decreases parts, count,
{
    if count > 0 {
        lemma_met_are_held(changed, parts, (count - 1) as nat, list, el, env, full, asked);
        let (met, before) = meets_parts(changed, (count - 1) as nat, el, full, asked);
        lemma_met_is_held(
            changed[count - 1],
            parts[count - 1],
            list,
            el,
            env,
            full,
            before,
        );
        if meets_parts(changed, count, el, full, asked).0 {
            assert forall|i: int| 0 <= i < count implies step_holds(#[trigger] parts[i], el, env) by {
            }
        }
        if forall|i: int| 0 <= i < count ==> step_holds(#[trigger] parts[i], el, env) {
            assert(step_holds(parts[count - 1], el, env));
            assert forall|i: int| 0 <= i < count - 1 implies step_holds(
                #[trigger] parts[i],
                el,
                env,
            ) by {}
        }
    }
}

/// `:not` and `:is` of one selector never both hold for an element, and one of them always does;
/// `:is` and `:where` hold for the same elements.
pub proof fn lemma_not_is_the_opposite(place: usize, el: usize, env: MatchEnv)
    ensures
        has_pseudo(PseudoSpec::IndexedNot(place), el, env) != has_pseudo(
            PseudoSpec::IndexedIs(seq![place]),
            el,
            env,
        ),
        has_pseudo(PseudoSpec::IndexedWhere(seq![place]), el, env) == has_pseudo(
            PseudoSpec::IndexedIs(seq![place]),
            el,
            env,
        ),
        place < env.selected.len() ==> has_pseudo(PseudoSpec::IndexedNot(place), el, env)
            != env.selected[place as int].contains(el),
{
    let places = seq![place];
    assert(places[0] == place);
    if is_selected(env.selected, place, el) {
        assert(is_selected(env.selected, places[0], el));
    }
}

/// Whether a step can be the last one of a selector that is answered: one that an index knows, the
/// universal one, a negation, or several in one.
pub open spec fn can_be_last(part: PartSpec) -> bool {
    match part {
        PartSpec::Tag(_) | PartSpec::Id(_) | PartSpec::Class(_) => true,
        PartSpec::Attributes(attributes) => attributes.len() > 0,
        PartSpec::Pseudo(class) => class is Not || class is IndexedNot,
        PartSpec::Combined(parts) => forall|i: int|
            0 <= i < parts.len() ==> ((#[trigger] parts[i]) matches PartSpec::Attributes(attributes)
                ==> attributes.len() > 0),
        _ => false,
    }
}

/// Whether an element meets a step does not depend on which elements were asked about before.
proof fn lemma_met_ignores_asked(
    part: PartSpec,
    el: usize,
    env: MatchEnv,
    asked: Set<usize>,
    other: Set<usize>,
)
    ensures
        meets_part(part, el, env, asked).0 == meets_part(part, el, env, other).0,
    decreases part, 0nat,
{
    if let PartSpec::Combined(parts) = part {
        lemma_all_met_ignore_asked(parts, parts.len(), el, env, asked, other);
    }
}

proof fn lemma_all_met_ignore_asked(
    parts: Seq<PartSpec>,
    count: nat,
    el: usize,
    env: MatchEnv,
    asked: Set<usize>,
    other: Set<usize>,
)
    ensures
        meets_parts(parts, count, el, env, asked).0 == meets_parts(parts, count, el, env, other).0,
    decreases parts, count,
{
    if count > 0 && count <= parts.len() {
        lemma_all_met_ignore_asked(parts, (count - 1) as nat, el, env, asked, other);
        lemma_met_ignores_asked(
            parts[count - 1],
            el,
            env,
            meets_parts(parts, (count - 1) as nat, el, env, asked).1,
            meets_parts(parts, (count - 1) as nat, el, env, other).1,
        );
    }
}

/// What an index gives for a step is the elements that meet it.
proof fn lemma_indexed_are_met(part: PartSpec, el: usize, env: MatchEnv, asked: Set<usize>)
    requires
        indexes_right(env),
        part matches PartSpec::Attributes(attributes) ==> attributes.len() > 0,
    ensures
        indexed_candidates(part, env) matches Some(set) ==> set.contains(el) == (is_element(
            env.nodes,
            el,
        ) && meets_part(part, el, env, asked).0),
        (part is Class || part is Id || (part matches PartSpec::Tag(tag) && tag != "*"@))
            && indexed_candidates(part, env) is None ==> !meets_part(part, el, env, asked).0,
{
    match part {
        PartSpec::Tag(tag) => {
            assert(lists(env.tags, tag, el) == (node_at(env.nodes, el) matches Some(node)
                && node.has_tag(tag)));
        },
        PartSpec::Id(id) => {
            assert(lists(env.ids, id, el) == (node_at(env.nodes, el) matches Some(node)
                && node.attribute("id"@) == Some(id)));
        },
        PartSpec::Class(class) => {
            if class < env.classes.len() {
                assert(env.classes[class as int].contains(el) ==> is_element(env.nodes, el));
            }
        },
        PartSpec::Attributes(attributes) => {
            if let Some(node) = node_at(env.nodes, el) {
                if node is Element && attributes_hold(node, attributes) {
                    assert forall|i: int| 0 <= i < attributes.len() implies lists(
                        env.attributes,
                        attribute_key(#[trigger] attributes[i]),
                        el,
                    ) by {
                        assert(attribute_holds(node, attributes[i]));
                    }
                    assert(listed_for(
                        attributes,
                        attributes.len() as int,
                        env.attributes,
                    ).contains(el));
                }
            }
        },
        _ => {},
    }
}

proof fn lemma_choice_is_indexed(parts: Seq<PartSpec>, count: nat, env: MatchEnv)
    ensures
        base_choice(parts, count, env).best matches Some((place, set)) ==> place < count && place
            < parts.len() && indexed_candidates(parts[place as int], env) == Some(set),
    decreases count,
{
    if count > 0 && count <= parts.len() {
        lemma_choice_is_indexed(parts, (count - 1) as nat, env);
    }
}

/// An element meets several steps where it meets each of them, whatever is skipped that it meets.
proof fn lemma_others_are_met(
    parts: Seq<PartSpec>,
    count: nat,
    skipped: int,
    el: usize,
    env: MatchEnv,
    asked: Set<usize>,
)
    requires
        count <= parts.len(),
    ensures
        meets_others(parts, count, skipped, el, env, asked).0 == (forall|i: int|
            0 <= i < count && i != skipped ==> meets_part(
                #[trigger] parts[i],
                el,
                env,
                Set::empty(),
            ).0),
    decreases count,
{
    if count > 0 {
        lemma_others_are_met(parts, (count - 1) as nat, skipped, el, env, asked);
        let (met, before) = meets_others(parts, (count - 1) as nat, skipped, el, env, asked);
        lemma_met_ignores_asked(parts[count - 1], el, env, before, Set::empty());
        if forall|i: int|
            0 <= i < count && i != skipped ==> meets_part(#[trigger] parts[i], el, env, Set::empty()).0 {
            assert(count - 1 != skipped ==> meets_part(
                parts[count - 1],
                el,
                env,
                Set::empty(),
            ).0);
            assert forall|i: int| 0 <= i < count - 1 && i != skipped implies meets_part(
                #[trigger] parts[i],
                el,
                env,
                Set::empty(),
            ).0 by {}
        }
        if meets_others(parts, count, skipped, el, env, asked).0 {
            assert forall|i: int| 0 <= i < count && i != skipped implies meets_part(
                #[trigger] parts[i],
                el,
                env,
                Set::empty(),
            ).0 by {}
        }
    }
}

proof fn lemma_all_are_met(
    parts: Seq<PartSpec>,
    count: nat,
    el: usize,
    env: MatchEnv,
    asked: Set<usize>,
)
    requires
        count <= parts.len(),
    ensures
        meets_parts(parts, count, el, env, asked).0 == (forall|i: int|
            0 <= i < count ==> meets_part(#[trigger] parts[i], el, env, Set::empty()).0),
    decreases count,
{
    if count > 0 {
        lemma_all_are_met(parts, (count - 1) as nat, el, env, asked);
        let (met, before) = meets_parts(parts, (count - 1) as nat, el, env, asked);
        lemma_met_ignores_asked(parts[count - 1], el, env, before, Set::empty());
        if forall|i: int| 0 <= i < count ==> meets_part(#[trigger] parts[i], el, env, Set::empty()).0 {
            assert(meets_part(parts[count - 1], el, env, Set::empty()).0);
            assert forall|i: int| 0 <= i < count - 1 implies meets_part(
                #[trigger] parts[i],
                el,
                env,
                Set::empty(),
            ).0 by {}
        }
        if meets_parts(parts, count, el, env, asked).0 {
            assert forall|i: int| 0 <= i < count implies meets_part(
                #[trigger] parts[i],
                el,
                env,
                Set::empty(),
            ).0 by {}
        }
    }
}

proof fn lemma_filtered(
    list: Seq<usize>,
    count: nat,
    parts: Seq<PartSpec>,
    skipped: int,
    env: MatchEnv,
    asked: Set<usize>,
    el: usize,
)
    requires
        count <= list.len(),
    ensures
        filtered(list, count, parts, skipped, env, asked).0.contains(el) == (list.take(
            count as int,
        ).contains(el) && meets_others(parts, parts.len(), skipped, el, env, Set::empty()).0),
    decreases count,
{
    let taken = list.take(count as int);
    if count > 0 {
        lemma_filtered(list, (count - 1) as nat, parts, skipped, env, asked, el);
        let less = list.take(count - 1);
        let (kept, before) = filtered(list, (count - 1) as nat, parts, skipped, env, asked);
        lemma_others_are_met(parts, parts.len(), skipped, list[count - 1], env, before);
        lemma_others_are_met(parts, parts.len(), skipped, el, env, Set::empty());
        lemma_others_are_met(parts, parts.len(), skipped, list[count - 1], env, Set::empty());
        assert(taken.contains(el) == (less.contains(el) || el == list[count - 1])) by {
            assert(taken[count - 1] == list[count - 1]);
            if less.contains(el) {
                let k = choose|k: int| 0 <= k < less.len() && less[k] == el;
                assert(taken[k] == el);
            }
            if taken.contains(el) {
                let k = choose|k: int| 0 <= k < taken.len() && taken[k] == el;
                if k < count - 1 {
                    assert(less[k] == el);
                }
            }
        }
    }
}

/// The candidates for the last step of a selector are the elements that meet it.
proof fn lemma_candidates_are_met(part: PartSpec, env: MatchEnv, asked: Set<usize>, el: usize)
    requires
        indexes_right(env),
        can_be_last(part),
        !(part is Pseudo) || (part matches PartSpec::Pseudo(class) && class is IndexedNot),
    ensures
        (candidates(part, env, asked).0 matches Some(set) && set.contains(el)) == (is_element(
            env.nodes,
            el,
        ) && meets_part(part, el, env, Set::empty()).0),
{
    match part {
        PartSpec::Combined(parts) => {
            lemma_choice_is_indexed(parts, parts.len(), env);
            let choice = base_choice(parts, parts.len(), env);
            let (skipped, base) = match choice.best {
                Some((place, set)) => (place as int, set),
                None => (-1, all_elements(env.nodes)),
            };
            lemma_members(base);
            let list = members(base);
            lemma_filtered(list, list.len(), parts, skipped, env, asked, el);
            assert(list.take(list.len() as int) =~= list);
            lemma_others_are_met(parts, parts.len(), skipped, el, env, Set::empty());
            lemma_all_are_met(parts, parts.len(), el, env, Set::empty());
            assert(list.contains(el) == base.contains(el));
            if choice.best is Some {
                lemma_indexed_are_met(parts[skipped], el, env, Set::empty());
                assert(meets_part(parts[skipped], el, env, Set::empty()).0 || !base.contains(el));
            }
            let all = forall|i: int|
                0 <= i < parts.len() ==> meets_part(#[trigger] parts[i], el, env, Set::empty()).0;
            let others = forall|i: int|
                0 <= i < parts.len() && i != skipped ==> meets_part(
                    #[trigger] parts[i],
                    el,
                    env,
                    Set::empty(),
                ).0;
            if base.contains(el) && others {
                assert forall|i: int| 0 <= i < parts.len() implies meets_part(
                    #[trigger] parts[i],
                    el,
                    env,
                    Set::empty(),
                ).0 by {
                    if i == skipped {
                        assert(meets_part(parts[skipped], el, env, Set::empty()).0);
                    }
                }
            }
            if is_element(env.nodes, el) && all {
                if choice.best is Some {
                    assert(meets_part(parts[skipped], el, env, Set::empty()).0);
                    assert(base.contains(el));
                }
            }
        },
        PartSpec::Pseudo(_) => {},
        _ => {
            lemma_indexed_are_met(part, el, env, Set::empty());
        },
    }
}

/// What a selector of one rule finds: the candidates for its last step for which the rest holds.
proof fn lemma_matches(
    list: Seq<usize>,
    count: nat,
    rules: Seq<RuleSpec>,
    weight: Option<Specificity>,
    env: MatchEnv,
    found: FoundSpec,
    rest: spec_fn(usize) -> bool,
    el: usize,
)
    requires
        count <= list.len(),
        forall|x: usize, asked: Set<usize>| #[trigger]
            rest_met(x, rules, 0, 0, env, asked).0 == rest(x),
    ensures
        matched_elements(
            after_candidates(list, count, rules, 0, 0, weight, env, found).matches,
        ).contains(el) == (matched_elements(found.matches).contains(el) || (list.take(
            count as int,
        ).contains(el) && rest(el))),
    decreases count,
{
    let taken = list.take(count as int);
    if count > 0 {
        lemma_matches(list, (count - 1) as nat, rules, weight, env, found, rest, el);
        let before = after_candidates(list, (count - 1) as nat, rules, 0, 0, weight, env, found);
        let after = after_candidates(list, count, rules, 0, 0, weight, env, found);
        let less = list.take(count - 1);
        let x = list[count - 1];
        assert(rest_met(x, rules, 0, 0, env, before.asked).0 == rest(x));
        assert(taken.contains(el) == (less.contains(el) || el == x)) by {
            assert(taken[count - 1] == x);
            if less.contains(el) {
                let k = choose|k: int| 0 <= k < less.len() && less[k] == el;
                assert(taken[k] == el);
            }
            if taken.contains(el) {
                let k = choose|k: int| 0 <= k < taken.len() && taken[k] == el;
                if k < count - 1 {
                    assert(less[k] == el);
                }
            }
        }
        assert(matched_elements(after.matches).contains(el) == (matched_elements(
            before.matches,
        ).contains(el) || (el == x && rest(x))));
    }
}

/// The steps of a selector with their nested selectors replaced by places, and the nested selectors.
pub open spec fn indexed_selector(selector: Seq<PartSpec>) -> (Seq<PartSpec>, Seq<Seq<PartSpec>>) {
    indexed_parts(selector, selector.len(), Seq::empty())
}

/// What a selector is searched for in: the document with what its nested selectors select.
pub open spec fn searched_in(selector: Seq<PartSpec>, env: MatchEnv) -> MatchEnv {
    let list = indexed_selector(selector).1;
    with_selected(env, selected_sets(list, list.len(), env, 1 + selector_size(selector)))
}

proof fn lemma_query(
    selector: Seq<PartSpec>,
    env: MatchEnv,
    rest: spec_fn(usize) -> bool,
    el: usize,
)
    requires
        selector.len() > 0,
        ({
            let indexed = indexed_selector(selector).0;
            let rules = single_rule(indexed);
            let full = searched_in(selector, env);
            forall|x: usize, asked: Set<usize>| #[trigger]
                rest_met(x, rules, 0, 0, full, asked).0 == rest(x)
        }),
    ensures
        indexed_selector(selector).0.len() == selector.len(),
        queried(selector, env).contains(el) == (candidates(
            indexed_selector(selector).0.last(),
            searched_in(selector, env),
            Set::empty(),
        ).0 matches Some(set) && set.contains(el) && rest(el)),
{
    let rules = single_rule(selector);
    lemma_single_rule_size(selector);
    reveal_with_fuel(indexed_rules, 2);
    reveal_with_fuel(indexed_list, 2);
    let (indexed, list) = indexed_selector(selector);
    lemma_indexed_len(selector, selector.len(), Seq::empty());
    let (changed, after) = indexed_rules(rules, 1);
    assert(rules[0].kind == KindSpec::ClassName(seq![selector]));
    assert(seq![selector][0] == selector);
    let (own, found_list) = indexed_list(seq![selector], 1, Seq::empty());
    assert(own =~= seq![indexed]);
    assert(changed =~= single_rule(indexed));
    assert(after == list);
    let full = searched_in(selector, env);
    let start = nothing_found(1);
    reveal_with_fuel(after_rules, 2);
    reveal_with_fuel(after_selectors, 2);
    let found = after_rules(seq![0usize], 1, changed, full, start);
    assert(found == after_rule(changed, 0, full, start));
    assert(selector_at(changed, 0, 0) == indexed);
    let (set, asked) = candidates(indexed.last(), full, start.asked);
    let looked = FoundSpec { asked, ..start };
    assert(matched_elements(start.matches) =~= Set::empty());
    match set {
        Some(set) => {
            let all = members(set);
            lemma_members(set);
            lemma_matches(
                all,
                all.len(),
                changed,
                Some(specificity_of(indexed, indexed.len())),
                full,
                looked,
                rest,
                el,
            );
            assert(all.take(all.len() as int) =~= all);
            assert(all.contains(el) == set.contains(el));
        },
        None => {},
    }
}

proof fn lemma_indexed_len(parts: Seq<PartSpec>, count: nat, list: Seq<Seq<PartSpec>>)
    requires
        count <= parts.len(),
    ensures
        indexed_parts(parts, count, list).0.len() == count,
    decreases count,
{
    if count > 0 {
        lemma_indexed_len(parts, (count - 1) as nat, list);
    }
}

/// What is known of a selector that is searched for: its steps stand for those that it was written
/// with, and its nested selectors select what they select for themselves.
proof fn lemma_searched_in(selector: Seq<PartSpec>, env: MatchEnv)
    requires
        forall|i: int| 0 <= i < selector.len() ==> is_plain(#[trigger] selector[i]),
        indexed_selector(selector).1.len() <= usize::MAX,
    ensures
        ({
            let (indexed, list) = indexed_selector(selector);
            let full = searched_in(selector, env);
            &&& indexed.len() == selector.len()
            &&& forall|i: int|
                0 <= i < selector.len() ==> stands_for(indexed[i], #[trigger] selector[i], list)
            &&& full == with_selected(env, full.selected)
            &&& full.selected.len() == list.len()
            &&& forall|i: int|
                0 <= i < list.len() ==> #[trigger] full.selected[i] == queried(list[i], env)
        }),
{
    let (indexed, list) = indexed_selector(selector);
    lemma_indexed_parts_stand_for(selector, selector.len(), Seq::empty(), list);
    let rules = single_rule(selector);
    lemma_single_rule_size(selector);
    reveal_with_fuel(indexed_rules, 2);
    reveal_with_fuel(indexed_list, 2);
    assert(rules[0].kind == KindSpec::ClassName(seq![selector]));
    assert(seq![selector][0] == selector);
    let bound = 1 + selector_size(selector);
    lemma_nested_are_smaller(rules, 1, bound);
    assert(indexed_rules(rules, 1).1 == list);
    lemma_selected_sets(list, list.len(), env, bound);
}

/// A selector of one step selects exactly the elements for which the step holds: those with the tag,
/// the class, the id or the attributes, and of several in one those for which all hold. What `:not`
/// names is not selected, and of what `:is` and `:where` name at least one selects the element.
pub proof fn lemma_step_selects(part: PartSpec, el: usize, env: MatchEnv)
    requires
        indexes_right(env),
        is_plain(part),
        can_be_last(part),
        indexed_selector(seq![part]).1.len() <= usize::MAX,
    ensures
        queried(seq![part], env).contains(el) == (is_element(env.nodes, el) && step_holds(
            part,
            el,
            env,
        )),
{
    let selector = seq![part];
    assert(selector[0] == part);
    lemma_searched_in(selector, env);
    let (indexed, list) = indexed_selector(selector);
    let full = searched_in(selector, env);
    let rules = single_rule(indexed);
    lemma_parents_first(rules);
    let rest = |x: usize| true;
    assert forall|x: usize, asked: Set<usize>| #[trigger]
        rest_met(x, rules, 0, 0, full, asked).0 == rest(x) by {
        assert(selector_at(rules, 0, 0) == indexed);
    }
    lemma_query(selector, env, rest, el);
    let last = indexed.last();
    assert(stands_for(indexed[0], selector[0], list));
    assert(last == indexed[0]);
    lemma_last_stays_last(last, part, list);
    assert(indexes_right(full));
    lemma_candidates_are_met(last, full, Set::empty(), el);
    lemma_met_is_held(last, part, list, el, env, full, Set::empty());
}

proof fn lemma_last_stays_last(indexed: PartSpec, part: PartSpec, list: Seq<Seq<PartSpec>>)
    requires
        stands_for(indexed, part, list),
        is_plain(part),
        can_be_last(part),
    ensures
        can_be_last(indexed),
        !(indexed is Pseudo) || (indexed matches PartSpec::Pseudo(class) && class is IndexedNot),
{
    if let PartSpec::Combined(parts) = part {
        if let PartSpec::Combined(changed) = indexed {
            assert forall|i: int| 0 <= i < changed.len() implies ((#[trigger] changed[i]) matches PartSpec::Attributes(
                attributes,
            ) ==> attributes.len() > 0) by {
                assert(stands_for(changed[i], parts[i], list));
            }
        }
    }
}

/// A tag with a negation selects the elements that have the tag and that the negated selector does not
/// select.
pub proof fn lemma_tag_without(tag: Seq<char>, selector: Seq<PartSpec>, el: usize, env: MatchEnv)
    requires
        indexes_right(env),
        tag != "*"@,
        indexed_selector(
            seq![
                PartSpec::Combined(
                    seq![PartSpec::Tag(tag), PartSpec::Pseudo(PseudoSpec::Not(selector))],
                ),
            ],
        ).1.len() <= usize::MAX,
    ensures
        queried(
            seq![
                PartSpec::Combined(
                    seq![PartSpec::Tag(tag), PartSpec::Pseudo(PseudoSpec::Not(selector))],
                ),
            ],
            env,
        ).contains(el) == ((node_at(env.nodes, el) matches Some(node) && node.has_tag(tag))
            && !queried(selector, env).contains(el)),
{
    let parts = seq![PartSpec::Tag(tag), PartSpec::Pseudo(PseudoSpec::Not(selector))];
    let part = PartSpec::Combined(parts);
    assert(is_plain(part)) by {
        assert forall|i: int| 0 <= i < parts.len() implies is_plain(#[trigger] parts[i]) by {
            assert(i == 0 || i == 1);
        }
    }
    lemma_step_selects(part, el, env);
    assert(parts[0] == PartSpec::Tag(tag));
    assert(parts[1] == PartSpec::Pseudo(PseudoSpec::Not(selector)));
    if step_holds(part, el, env) {
        assert(step_holds(parts[0], el, env));
        assert(step_holds(parts[1], el, env));
    }
    if step_holds(parts[0], el, env) && step_holds(parts[1], el, env) {
        assert forall|i: int| 0 <= i < parts.len() implies step_holds(#[trigger] parts[i], el, env) by {
            assert(i == 0 || i == 1);
        }
    }
}

/// Whether a step holds for a node or one of its ancestors.
pub open spec fn holds_from(part: PartSpec, from: usize, env: MatchEnv) -> bool {
    exists|i: int|
        0 <= i < lineage(env.nodes, from).len() && step_holds(
            part,
            #[trigger] lineage(env.nodes, from)[i],
            env,
        )
}

/// Whether a step is about an element, not about how two of them stand to each other.
pub open spec fn is_about_element(part: PartSpec) -> bool {
    part !is ArrowRight && part !is Ampersand && part !is Tilde && part !is AdjacentSibling
}

/// Looking upwards for an element that meets a step finds one exactly where the node itself or an
/// ancestor does; looking no further than the node finds it exactly where the node does.
proof fn lemma_nearest(
    indexed: PartSpec,
    part: PartSpec,
    list: Seq<Seq<PartSpec>>,
    from: usize,
    env: MatchEnv,
    full: MatchEnv,
    asked: Set<usize>,
)
    requires
        acyclic(env.nodes),
        is_plain(part),
        stands_for(indexed, part, list),
        full == with_selected(env, full.selected),
        full.selected.len() == list.len(),
        forall|i: int|
            0 <= i < list.len() ==> #[trigger] full.selected[i] == queried(list[i], env),
    ensures
        nearest_match(indexed, from, full, None, asked).0 is Some == holds_from(part, from, env),
        nearest_match(indexed, from, full, Some(1nat), asked).0 == (if step_holds(
            part,
            from,
            env,
        ) {
            Some(from)
        } else {
            None
        }),
    decreases rank_of(env.nodes)(from),
{
    assert(climbs(env.nodes, rank_of(env.nodes)));
    lemma_met_is_held(indexed, part, list, from, env, full, asked);
    let line = lineage(env.nodes, from);
    assert(line[0] == from);
    reveal_with_fuel(nearest_match, 2);
    let after = meets_part(indexed, from, full, asked).1;
    if step_holds(part, from, env) {
        assert(step_holds(part, line[0], env));
    } else {
        match parent_of(env.nodes, from) {
            Some(parent) => {
                lemma_nearest(indexed, part, list, parent, env, full, after);
                let above = lineage(env.nodes, parent);
                assert(line =~= seq![from] + above);
                if holds_from(part, parent, env) {
                    let i = choose|i: int|
                        0 <= i < above.len() && step_holds(part, #[trigger] above[i], env);
                    assert(line[i + 1] == above[i]);
                }
                if holds_from(part, from, env) {
                    let i = choose|i: int|
                        0 <= i < line.len() && step_holds(part, #[trigger] line[i], env);
                    assert(i > 0);
                    assert(above[i - 1] == line[i]);
                }
            },
            None => {
                assert(line =~= seq![from]);
            },
        }
    }
}

/// The first step of a selector is met from a node on exactly where looking upwards finds an element
/// that meets it.
proof fn lemma_first_step(
    indexed: Seq<PartSpec>,
    from: usize,
    immediate: bool,
    env: MatchEnv,
    asked: Set<usize>,
)
    requires
        indexed.len() > 0,
        is_about_element(indexed[0]),
    ensures
        narrowed(
            from,
            single_rule(indexed),
            0,
            0,
            indexed.len() - 1,
            immediate,
            env,
            asked,
        ).0 == nearest_match(
            indexed[0],
            from,
            env,
            if immediate {
                Some(1nat)
            } else {
                None
            },
            asked,
        ).0 is Some,
{
    let rules = single_rule(indexed);
    lemma_parents_first(rules);
    assert(rules[0].kind == KindSpec::ClassName(seq![indexed]));
    assert(seq![indexed][0] == indexed);
    assert(selector_at(rules, 0, 0) == indexed);
    assert(step_at(indexed, indexed.len() - 1) == indexed[0]);
    let (found, after) = nearest_match(
        indexed[0],
        from,
        env,
        if immediate {
            Some(1nat)
        } else {
            None
        },
        asked,
    );
    if let Some(matched) = found {
        let up = !(indexed[0] is Ampersand) && !(indexed[0] is ArrowRight);
        let next = indexed[0] is ArrowRight || (indexed[0] is Ampersand && immediate);
        assert(above_rule(matched, rules, 0, next, up, env, after) == (true, after));
        assert(before_step(
            matched,
            rules,
            0,
            0,
            indexed.len() - 1,
            up,
            next,
            env,
            after,
        ) == (true, after));
    }
}

/// Two steps in a row select the elements for which the second holds and that stand below one for
/// which the first holds, however far below.
pub proof fn lemma_descendants(a: PartSpec, b: PartSpec, el: usize, env: MatchEnv)
    requires
        acyclic(env.nodes),
        indexes_right(env),
        is_plain(a),
        is_plain(b),
        is_about_element(a),
        can_be_last(b),
        indexed_selector(seq![a, b]).1.len() <= usize::MAX,
    ensures
        queried(seq![a, b], env).contains(el) == {
            &&& is_element(env.nodes, el)
            &&& step_holds(b, el, env)
            &&& parent_of(env.nodes, el) matches Some(parent) && holds_from(a, parent, env)
        },
{
    let selector = seq![a, b];
    assert(selector[0] == a && selector[1] == b);
    lemma_searched_in(selector, env);
    let (indexed, list) = indexed_selector(selector);
    let full = searched_in(selector, env);
    let rules = single_rule(indexed);
    lemma_parents_first(rules);
    assert(stands_for(indexed[0], selector[0], list));
    assert(stands_for(indexed[1], selector[1], list));
    let rest = |x: usize|
        parent_of(env.nodes, x) matches Some(parent) && holds_from(a, parent, env);
    assert forall|x: usize, asked: Set<usize>| #[trigger]
        rest_met(x, rules, 0, 0, full, asked).0 == rest(x) by {
        assert(selector_at(rules, 0, 0) == indexed);
        if let Some(parent) = parent_of(env.nodes, x) {
            lemma_first_step(indexed, parent, false, full, asked);
            lemma_nearest(indexed[0], a, list, parent, env, full, asked);
        }
    }
    lemma_query(selector, env, rest, el);
    let last = indexed.last();
    assert(last == indexed[1]);
    lemma_last_stays_last(last, b, list);
    assert(indexes_right(full));
    lemma_candidates_are_met(last, full, Set::empty(), el);
    lemma_met_is_held(last, b, list, el, env, full, Set::empty());
}

/// Two steps with `>` between them select the elements for which the second holds and whose parent is
/// one for which the first holds: no other ancestor counts.
pub proof fn lemma_children(a: PartSpec, b: PartSpec, el: usize, env: MatchEnv)
    requires
        acyclic(env.nodes),
        indexes_right(env),
        is_plain(a),
        is_plain(b),
        is_about_element(a),
        can_be_last(b),
        indexed_selector(seq![a, PartSpec::ArrowRight, b]).1.len() <= usize::MAX,
    ensures
        queried(seq![a, PartSpec::ArrowRight, b], env).contains(el) == {
            &&& is_element(env.nodes, el)
            &&& step_holds(b, el, env)
            &&& parent_of(env.nodes, el) matches Some(parent) && step_holds(a, parent, env)
        },
{
    let selector = seq![a, PartSpec::ArrowRight, b];
    assert(selector[0] == a && selector[1] == PartSpec::ArrowRight && selector[2] == b);
    assert(is_plain(PartSpec::ArrowRight));
    lemma_searched_in(selector, env);
    let (indexed, list) = indexed_selector(selector);
    let full = searched_in(selector, env);
    let rules = single_rule(indexed);
    lemma_parents_first(rules);
    assert(stands_for(indexed[0], selector[0], list));
    assert(stands_for(indexed[1], selector[1], list));
    assert(stands_for(indexed[2], selector[2], list));
    let rest = |x: usize|
        parent_of(env.nodes, x) matches Some(parent) && step_holds(a, parent, env);
    reveal_with_fuel(narrowed, 3);
    reveal_with_fuel(before_step, 3);
    assert forall|x: usize, asked: Set<usize>| #[trigger]
        rest_met(x, rules, 0, 0, full, asked).0 == rest(x) by {
        assert(selector_at(rules, 0, 0) == indexed);
        assert(step_at(indexed, 1) == indexed[1]);
        assert(step_at(indexed, 2) == indexed[0]);
        if let Some(parent) = parent_of(env.nodes, x) {
            assert(rules[0].kind == KindSpec::ClassName(seq![indexed]));
            assert(indexed[1] == PartSpec::ArrowRight);
            assert(nearest_match(PartSpec::ArrowRight, parent, full, None, asked) == (
                Some(parent),
                asked,
            ));
            lemma_first_step(indexed, parent, true, full, asked);
            assert(before_step(parent, rules, 0, 0, 1, false, true, full, asked) == narrowed(
                parent,
                rules,
                0,
                0,
                2,
                true,
                full,
                asked,
            ));
            assert(narrowed(parent, rules, 0, 0, 1, false, full, asked) == before_step(
                parent,
                rules,
                0,
                0,
                1,
                false,
                true,
                full,
                asked,
            ));
            lemma_nearest(indexed[0], a, list, parent, env, full, asked);
        }
    }
    lemma_query(selector, env, rest, el);
    let last = indexed.last();
    assert(last == indexed[2]);
    lemma_last_stays_last(last, b, list);
    assert(indexes_right(full));
    lemma_candidates_are_met(last, full, Set::empty(), el);
    lemma_met_is_held(last, b, list, el, env, full, Set::empty());
}

/// Two steps with `+` between them select the elements for which the second holds and that follow an
/// element of the same parent, where the first holds for that element or for one around it.
pub proof fn lemma_next_siblings(a: PartSpec, b: PartSpec, el: usize, env: MatchEnv)
    requires
        acyclic(env.nodes),
        indexes_right(env),
        is_plain(a),
        is_plain(b),
        is_about_element(a),
        can_be_last(b),
        indexed_selector(seq![a, PartSpec::AdjacentSibling, b]).1.len() <= usize::MAX,
    ensures
        queried(seq![a, PartSpec::AdjacentSibling, b], env).contains(el) == {
            &&& is_element(env.nodes, el)
            &&& step_holds(b, el, env)
            &&& previous_element(env, el) matches Some(previous) && holds_from(a, previous, env)
        },
{
    let selector = seq![a, PartSpec::AdjacentSibling, b];
    assert(selector[0] == a && selector[1] == PartSpec::AdjacentSibling && selector[2] == b);
    assert(is_plain(PartSpec::AdjacentSibling));
    lemma_searched_in(selector, env);
    let (indexed, list) = indexed_selector(selector);
    let full = searched_in(selector, env);
    let rules = single_rule(indexed);
    lemma_parents_first(rules);
    assert(stands_for(indexed[0], selector[0], list));
    assert(stands_for(indexed[1], selector[1], list));
    assert(stands_for(indexed[2], selector[2], list));
    let rest = |x: usize|
        previous_element(env, x) matches Some(previous) && holds_from(a, previous, env);
    reveal_with_fuel(narrowed, 3);
    reveal_with_fuel(before_step, 3);
    assert forall|x: usize, asked: Set<usize>| #[trigger]
        rest_met(x, rules, 0, 0, full, asked).0 == rest(x) by {
        assert(selector_at(rules, 0, 0) == indexed);
        assert(step_at(indexed, 1) == indexed[1]);
        assert(step_at(indexed, 2) == indexed[0]);
        assert(previous_element(full, x) == previous_element(env, x));
        assert(rules[0].kind == KindSpec::ClassName(seq![indexed]));
        assert(indexed[1] == PartSpec::AdjacentSibling);
        if let Some(previous) = previous_element(env, x) {
            lemma_first_step(indexed, previous, false, full, asked);
            assert(before_step(previous, rules, 0, 0, 1, false, false, full, asked) == narrowed(
                previous,
                rules,
                0,
                0,
                2,
                false,
                full,
                asked,
            ));
            assert(narrowed(x, rules, 0, 0, 1, false, full, asked) == before_step(
                previous,
                rules,
                0,
                0,
                1,
                false,
                false,
                full,
                asked,
            ));
            lemma_nearest(indexed[0], a, list, previous, env, full, asked);
        }
    }
    lemma_query(selector, env, rest, el);
    let last = indexed.last();
    assert(last == indexed[2]);
    lemma_last_stays_last(last, b, list);
    assert(indexes_right(full));
    lemma_candidates_are_met(last, full, Set::empty(), el);
    lemma_met_is_held(last, b, list, el, env, full, Set::empty());
}

/// Whether a sibling in front of an element meets a step, itself or with what is around it.
pub open spec fn some_before(a: PartSpec, el: usize, env: MatchEnv) -> bool {
    siblings_of(env.nodes, env.children, el) matches Some(list) && place_of(list, el) < list.len()
        && exists|k: int|
        0 <= k < place_of(list, el) && node_at(env.nodes, #[trigger] list[k]) is Some && holds_from(
            a,
            list[k],
            env,
        )
}

/// Two steps with `~` between them select the elements for which the second holds and that stand behind a
/// node of the same parent, where the first holds for that node or for one around it.
pub proof fn lemma_later_siblings(a: PartSpec, b: PartSpec, el: usize, env: MatchEnv)
    requires
        acyclic(env.nodes),
        indexes_right(env),
        is_plain(a),
        is_plain(b),
        is_about_element(a),
        can_be_last(b),
        indexed_selector(seq![a, PartSpec::Tilde, b]).1.len() <= usize::MAX,
    ensures
        queried(seq![a, PartSpec::Tilde, b], env).contains(el) == {
            &&& is_element(env.nodes, el)
            &&& step_holds(b, el, env)
            &&& some_before(a, el, env)
        },
{
    let selector = seq![a, PartSpec::Tilde, b];
    assert(selector[0] == a && selector[1] == PartSpec::Tilde && selector[2] == b);
    assert(is_plain(PartSpec::Tilde));
    lemma_searched_in(selector, env);
    let (indexed, list) = indexed_selector(selector);
    let full = searched_in(selector, env);
    let rules = single_rule(indexed);
    lemma_parents_first(rules);
    assert(stands_for(indexed[0], selector[0], list));
    assert(stands_for(indexed[1], selector[1], list));
    assert(stands_for(indexed[2], selector[2], list));
    let rest = |x: usize| some_before(a, x, env);
    assert forall|x: usize, asked: Set<usize>| #[trigger]
        rest_met(x, rules, 0, 0, full, asked).0 == rest(x) by {
        assert(selector_at(rules, 0, 0) == indexed);
        assert(step_at(indexed, 1) == indexed[1]);
        assert(rules[0].kind == KindSpec::ClassName(seq![indexed]));
        assert(indexed[1] == PartSpec::Tilde);
        reveal_with_fuel(before_step, 2);
        reveal_with_fuel(narrowed, 2);
        if let Some(siblings) = siblings_of(env.nodes, env.children, x) {
            let place = place_of(siblings, x);
            lemma_place_of(siblings, x);
            if place < siblings.len() {
                lemma_earlier_sibling(
                    indexed,
                    a,
                    list,
                    x,
                    siblings,
                    place as nat,
                    env,
                    full,
                    asked,
                );
                assert(narrowed(x, rules, 0, 0, 1, false, full, asked) == earlier_sibling(
                    x,
                    siblings,
                    place as nat,
                    rules,
                    0,
                    0,
                    1,
                    full,
                    asked,
                ));
            }
        }
    }
    lemma_query(selector, env, rest, el);
    let last = indexed.last();
    assert(last == indexed[2]);
    lemma_last_stays_last(last, b, list);
    assert(indexes_right(full));
    lemma_candidates_are_met(last, full, Set::empty(), el);
    lemma_met_is_held(last, b, list, el, env, full, Set::empty());
}

proof fn lemma_earlier_sibling(
    indexed: Seq<PartSpec>,
    a: PartSpec,
    list: Seq<Seq<PartSpec>>,
    el: usize,
    siblings: Seq<usize>,
    count: nat,
    env: MatchEnv,
    full: MatchEnv,
    asked: Set<usize>,
)
    requires
        acyclic(env.nodes),
        is_plain(a),
        is_about_element(a),
        indexed.len() == 3,
        indexed[1] == PartSpec::Tilde,
        stands_for(indexed[0], a, list),
        is_about_element(indexed[0]),
        full == with_selected(env, full.selected),
        full.selected.len() == list.len(),
        forall|i: int|
            0 <= i < list.len() ==> #[trigger] full.selected[i] == queried(list[i], env),
        count <= siblings.len(),
        forall|k: int| 0 <= k < count ==> #[trigger] siblings[k] != el,
    ensures
        earlier_sibling(el, siblings, count, single_rule(indexed), 0, 0, 1, full, asked).0 == exists|k: int|
            0 <= k < count && node_at(env.nodes, #[trigger] siblings[k]) is Some && holds_from(
                a,
                siblings[k],
                env,
            ),
    decreases count,
{
    if count > 0 {
        let rules = single_rule(indexed);
        let less = (count - 1) as nat;
        lemma_earlier_sibling(indexed, a, list, el, siblings, less, env, full, asked);
        let (met, before) = earlier_sibling(el, siblings, less, rules, 0, 0, 1, full, asked);
        let sibling = siblings[count - 1];
        lemma_first_step(indexed, sibling, false, full, before);
        lemma_nearest(indexed[0], a, list, sibling, env, full, before);
        assert(selector_at(rules, 0, 0) == indexed);
        assert(step_at(indexed, 2) == indexed[0]);
        assert(rules[0].kind == KindSpec::ClassName(seq![indexed]));
        reveal_with_fuel(before_step, 2);
        assert(before_step(sibling, rules, 0, 0, 1, false, false, full, before) == narrowed(
            sibling,
            rules,
            0,
            0,
            2,
            false,
            full,
            before,
        ));
        if met {
            let k = choose|k: int|
                0 <= k < less && node_at(env.nodes, #[trigger] siblings[k]) is Some && holds_from(
                    a,
                    siblings[k],
                    env,
                );
            assert(siblings[k] != el);
        }
    }
}

/// The element before another on the list of their parent: an element that stands before it with no
/// element between the two.
pub proof fn lemma_previous_element(env: MatchEnv, el: usize)
    ensures
        previous_element(env, el) matches Some(previous) ==> {
            &&& is_element(env.nodes, previous)
            &&& siblings_of(env.nodes, env.children, el) matches Some(list) && exists|i: int, j: int|
                0 <= i < j < list.len() && #[trigger] list[i] == previous && #[trigger] list[j] == el
                    && forall|k: int|
                    i < k < j ==> !is_element(env.nodes, #[trigger] list[k])
        },
        previous_element(env, el) is None ==> (siblings_of(env.nodes, env.children, el) matches Some(
            list,
        ) ==> forall|i: int|
            0 <= i < crate::document::place_of(list, el) && crate::document::place_of(list, el)
                < list.len() ==> !is_element(env.nodes, #[trigger] list[i])),
{
    if let Some(list) = siblings_of(env.nodes, env.children, el) {
        let place = crate::document::place_of(list, el);
        crate::document::lemma_place_of(list, el);
        if place < list.len() {
            lemma_element_before(env.nodes, list, place);
            if let Some(previous) = previous_element(env, el) {
                let i = choose|i: int|
                    0 <= i < place && #[trigger] list[i] == previous && forall|k: int|
                        i < k < place ==> !is_element(env.nodes, #[trigger] list[k]);
                assert(list[i] == previous && list[place] == el);
            }
        }
    }
}

proof fn lemma_element_before(nodes: NodesModel, list: Seq<usize>, place: int)
    requires
        0 <= place <= list.len(),
    ensures
        match crate::search::element_before(nodes, list, place) {
            Some(found) => is_element(nodes, found) && exists|i: int|
                0 <= i < place && #[trigger] list[i] == found && forall|k: int|
                    i < k < place ==> !is_element(nodes, #[trigger] list[k]),
            None => forall|i: int| 0 <= i < place ==> !is_element(nodes, #[trigger] list[i]),
        },
    decreases place,
{
    if place > 0 {
        if is_element(nodes, list[place - 1]) {
            assert(list[place - 1] == crate::search::element_before(nodes, list, place)->0);
        } else {
            lemma_element_before(nodes, list, place - 1);
            if let Some(found) = crate::search::element_before(nodes, list, place) {
                let i = choose|i: int|
                    0 <= i < place - 1 && #[trigger] list[i] == found && forall|k: int|
                        i < k < place - 1 ==> !is_element(nodes, #[trigger] list[k]);
                assert forall|k: int| i < k < place implies !is_element(
                    nodes,
                    #[trigger] list[k],
                ) by {}
                assert(list[i] == found);
            }
        }
    }
}

/// The first and the last child, and the only one: a child is the only one exactly where it is the
/// first and the last, the first where it is the one in the first place, and the last where it is the
/// one in the first place from the end.
pub proof fn lemma_places_among_children(el: usize, env: MatchEnv, list: Seq<usize>)
    requires
        siblings_of(env.nodes, env.children, el) == Some(list),
        list.no_duplicates(),
    ensures
        has_pseudo(PseudoSpec::FirstChild, el, env) == (list.len() > 0 && list[0] == el),
        has_pseudo(PseudoSpec::LastChild, el, env) == (list.len() > 0 && list[list.len() - 1] == el),
        has_pseudo(PseudoSpec::OnlyChild, el, env) == (has_pseudo(PseudoSpec::FirstChild, el, env)
            && has_pseudo(PseudoSpec::LastChild, el, env)),
        forall|n: Seq<char>| #[trigger]
            has_pseudo(PseudoSpec::NthChild(n), el, env) == (unsigned_value(
                n,
                10,
                usize::MAX as int,
            ) matches Some(place) && 0 < place <= list.len() && list[place - 1] == el),
        forall|n: Seq<char>| #[trigger]
            has_pseudo(PseudoSpec::NthLastChild(n), el, env) == (unsigned_value(
                n,
                10,
                usize::MAX as int,
            ) matches Some(place) && 0 < place <= list.len() && list[list.len() - place] == el),
{
    crate::document::lemma_place_of(list, el);
    crate::document::lemma_place_of(list.reverse(), el);
    let at = crate::document::place_of(list, el);
    let back = list.reverse();
    let from_end = crate::document::place_of(back, el);
    assert forall|n: Seq<char>| #[trigger]
        has_pseudo(PseudoSpec::NthChild(n), el, env) == (unsigned_value(
            n,
            10,
            usize::MAX as int,
        ) matches Some(place) && 0 < place <= list.len() && list[place - 1] == el) by {
        if let Some(place) = unsigned_value(n, 10, usize::MAX as int) {
            if 0 < place <= list.len() && list[place - 1] == el {
                if at < list.len() && at != place - 1 {
                    assert(list[at] == list[place - 1]);
                }
            }
        }
    }
    assert forall|n: Seq<char>| #[trigger]
        has_pseudo(PseudoSpec::NthLastChild(n), el, env) == (unsigned_value(
            n,
            10,
            usize::MAX as int,
        ) matches Some(place) && 0 < place <= list.len() && list[list.len() - place] == el) by {
        if let Some(place) = unsigned_value(n, 10, usize::MAX as int) {
            if 0 < place <= list.len() && list[list.len() - place] == el {
                assert(back[place - 1] == el);
                if from_end < back.len() && from_end != place - 1 {
                    assert(list[list.len() - 1 - from_end] == el);
                }
            }
            if from_end < back.len() {
                assert(back[from_end] == list[list.len() - 1 - from_end]);
            }
        }
    }
    if list.len() > 0 && list[0] == el && list[list.len() - 1] == el {
        assert(list.len() == 1);
    }
}

/// What is asked of an element itself: whether it is under the pointer, holds nothing, leads somewhere,
/// is switched off or ticked, and which language it is in.
pub proof fn lemma_states_of_elements(el: usize, env: MatchEnv, target: Seq<char>)
    requires
        acyclic(env.nodes),
    ensures
        has_pseudo(PseudoSpec::Hover, el, env) == env.hovering.contains(el),
        has_pseudo(PseudoSpec::Empty, el, env) == (children_at(env.children, el) matches Some(list)
            ==> list.len() == 0),
        node_at(env.nodes, el) matches Some(node) ==> {
            &&& has_pseudo(PseudoSpec::Link, el, env) == (node.has_tag("a"@) && node.attribute(
                "href"@,
            ) is Some)
            &&& has_pseudo(PseudoSpec::Disabled, el, env) == (node.attribute("disabled"@) is Some)
            &&& has_pseudo(PseudoSpec::Checked, el, env) == (node.attribute("checked"@) is Some)
            &&& node.attribute("lang"@) == Some(target) ==> has_pseudo(
                PseudoSpec::Lang(target),
                el,
                env,
            )
            &&& node.attribute("lang"@) is None ==> (parent_of(env.nodes, el) matches Some(parent)
                ==> language_of(env.nodes, el) == language_of(env.nodes, parent))
            &&& node.attribute("lang"@) is Some ==> language_of(env.nodes, el) == node.attribute(
                "lang"@,
            )
        },
        !has_pseudo(PseudoSpec::Visited, el, env),
        !has_pseudo(PseudoSpec::Other, el, env),
        speaks(target, target),
        speaks(target + "-"@, target),
        forall|lang: Seq<char>| #[trigger]
            speaks(lang, target) ==> lang.len() == target.len() || (lang.len() > target.len()
                && lang[target.len() as int] == '-'),
{
    reveal_strlit("-");
    let longer = target + "-"@;
    assert(longer.take(target.len() as int) =~= target);
    assert(longer.skip(target.len() as int) =~= "-"@);
    assert("-"@.take(1) =~= "-"@);
    assert forall|lang: Seq<char>| #[trigger] speaks(lang, target) implies lang.len()
        == target.len() || (lang.len() > target.len() && lang[target.len() as int] == '-') by {
        if crate::text::ascii_lower(lang) == crate::text::ascii_lower(target) {
            assert(crate::text::ascii_lower(lang).len() == lang.len());
            assert(crate::text::ascii_lower(target).len() == target.len());
        } else {
            let rest = lang.skip(target.len() as int);
            assert(rest.len() > 0);
            assert(rest.take(1)[0] == "-"@[0]);
            assert(rest[0] == lang[target.len() as int]);
        }
    }
}

/// A node is the first of its sort exactly where it has its own tag and no node with that tag stands
/// before it.
pub proof fn lemma_first_of_its_sort(el: usize, env: MatchEnv, list: Seq<usize>)
    requires
        siblings_of(env.nodes, env.children, el) == Some(list),
        list.no_duplicates(),
    ensures
        has_pseudo(PseudoSpec::FirstOfType, el, env) == (exists|i: int|
            0 <= i < list.len() && #[trigger] list[i] == el && is_element(env.nodes, el)
                && forall|k: int|
                0 <= k < i ==> !crate::matching::same_tag(env.nodes, el, #[trigger] list[k])),
{
    lemma_of_type(env.nodes, list, el);
    let sort = crate::matching::of_type(env.nodes, list, el);
    if has_pseudo(PseudoSpec::FirstOfType, el, env) {
        let i = choose|i: int|
            0 <= i < list.len() && #[trigger] list[i] == sort[0] && crate::matching::same_tag(
                env.nodes,
                el,
                list[i],
            ) && forall|k: int|
                0 <= k < i ==> !crate::matching::same_tag(env.nodes, el, #[trigger] list[k]);
        assert(list[i] == el);
    }
    if exists|i: int|
        0 <= i < list.len() && #[trigger] list[i] == el && is_element(env.nodes, el) && forall|
            k: int,
        |
            0 <= k < i ==> !crate::matching::same_tag(env.nodes, el, #[trigger] list[k]) {
        let i = choose|i: int|
            0 <= i < list.len() && #[trigger] list[i] == el && is_element(env.nodes, el)
                && forall|k: int|
                0 <= k < i ==> !crate::matching::same_tag(env.nodes, el, #[trigger] list[k]);
        assert(crate::matching::same_tag(env.nodes, el, list[i]));
        let j = choose|j: int|
            0 <= j < list.len() && #[trigger] list[j] == sort[0] && crate::matching::same_tag(
                env.nodes,
                el,
                list[j],
            ) && forall|k: int|
                0 <= k < j ==> !crate::matching::same_tag(env.nodes, el, #[trigger] list[k]);
        assert(i == j) by {
            if i < j {
                assert(!crate::matching::same_tag(env.nodes, el, list[i]));
            }
            if j < i {
                assert(!crate::matching::same_tag(env.nodes, el, list[j]));
            }
        }
    }
}

/// Two nodes have the same tag where both are elements and their tags are the same.
pub proof fn lemma_same_tag(nodes: NodesModel, a: usize, b: usize, tag: Seq<char>)
    ensures
        node_at(nodes, a) matches Some(node) && node.has_tag(tag) ==> crate::matching::same_tag(
            nodes,
            a,
            b,
        ) == (node_at(nodes, b) matches Some(other) && other.has_tag(tag)),
        crate::matching::same_tag(nodes, a, b) == crate::matching::same_tag(nodes, b, a),
{
}

proof fn lemma_of_type(nodes: NodesModel, list: Seq<usize>, el: usize)
    ensures
        ({
            let sort = crate::matching::of_type(nodes, list, el);
            if sort.len() > 0 {
                exists|i: int|
                    0 <= i < list.len() && #[trigger] list[i] == sort[0]
                        && crate::matching::same_tag(nodes, el, list[i]) && forall|k: int|
                        0 <= k < i ==> !crate::matching::same_tag(nodes, el, #[trigger] list[k])
            } else {
                forall|k: int|
                    0 <= k < list.len() ==> !crate::matching::same_tag(
                        nodes,
                        el,
                        #[trigger] list[k],
                    )
            }
        }),
    decreases list.len(),
{
    if list.len() > 0 {
        let less = list.drop_last();
        lemma_of_type(nodes, less, el);
        let before = crate::matching::of_type(nodes, less, el);
        let sort = crate::matching::of_type(nodes, list, el);
        if before.len() > 0 {
            let i = choose|i: int|
                0 <= i < less.len() && #[trigger] less[i] == before[0] && crate::matching::same_tag(
                    nodes,
                    el,
                    less[i],
                ) && forall|k: int|
                    0 <= k < i ==> !crate::matching::same_tag(nodes, el, #[trigger] less[k]);
            assert(sort[0] == before[0]);
            assert(list[i] == less[i]);
            assert forall|k: int| 0 <= k < i implies !crate::matching::same_tag(
                nodes,
                el,
                #[trigger] list[k],
            ) by {
                assert(less[k] == list[k]);
            }
        } else {
            assert forall|k: int| 0 <= k < less.len() implies !crate::matching::same_tag(
                nodes,
                el,
                #[trigger] list[k],
            ) by {
                assert(less[k] == list[k]);
            }
            if sort.len() > 0 {
                assert(list[list.len() - 1] == sort[0]);
            }
        }
    }
}

/// Indexes that were made from a document list each element under exactly its tag, its id, its
/// attributes and its classes.
pub proof fn lemma_indexes_are_right(
    nodes: NodesModel,
    tags: NamedSets,
    ids: NamedSets,
    attributes: NamedSets,
    name: Seq<char>,
    el: usize,
)
    requires
        named(tags, name) == holders(nodes, NameKind::Tag, name),
        named(ids, name) == holders(nodes, NameKind::Id, name),
        named(attributes, name) == holders(nodes, NameKind::Attribute, name),
    ensures
        lists(tags, name, el) == (node_at(nodes, el) matches Some(node) && node.has_tag(name)),
        lists(ids, name, el) == (node_at(nodes, el) matches Some(node) && node.attribute("id"@)
            == Some(name)),
        lists(attributes, name, el) == (node_at(nodes, el) matches Some(node) && node.attribute(
            name,
        ) is Some),
        class_holders(nodes, name).contains(el) == (node_at(nodes, el) matches Some(node)
            && (node.attribute("class"@) matches Some(value) && crate::text::words(value).contains(
            name,
        ))),
{
    if let Some(node) = node_at(nodes, el) {
        if node.attribute("class"@) is None {
            assert(!class_list(node).contains(name));
        }
        let tagged = crate::index::holders_below(nodes, NameKind::Tag, name, nodes.len() as int);
        let identified = crate::index::holders_below(nodes, NameKind::Id, name, nodes.len() as int);
        let marked = crate::index::holders_below(
            nodes,
            NameKind::Attribute,
            name,
            nodes.len() as int,
        );
        assert(tagged.contains(el) == node.has_tag(name));
        assert(identified.contains(el) == (node.attribute("id"@) == Some(name)));
        assert(marked.contains(el) == (node.attribute(name) is Some));
    }
}

} // verus!
