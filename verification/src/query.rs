//! Selecting elements: the candidates for the last step of a selector, and the search for all rules
//! of a style sheet.
use fixedbitset::FixedBitSet;
use std::collections::HashSet;
use vstd::prelude::*;

use crate::bits::copy_bits;
use crate::bits::count_ones;
use crate::bits::lemma_members;
use crate::bits::lemma_members_below_bound;
use crate::bits::members;
use crate::bits::members_below;
use crate::bits::ones;
use crate::bits::set_bits;
use crate::css::attribute_model;
use crate::css::attribute_models;
use crate::css::AttributeModel;
use crate::css::ClassNamePartAttribute;
use crate::dom::node_at;
use crate::dom::parent_of;
use crate::dom::Node;
use crate::dom::NodesModel;
use crate::dom::NodesTable;
use crate::index::named;
use crate::index::sets_of;
use crate::index::DomIndexes;
use crate::index::NamedSets;
use crate::matching::attributes_hold;
use crate::matching::element_matched_attributes;
use crate::matching::is_selected;
use crate::matching::meets_part;
use crate::matching::MatchContext;
use crate::matching::MatchEnv;
use crate::search::above_rule;
use crate::search::goes_up;
use crate::search::lemma_parents_first;
use crate::search::narrowed;
use crate::search::rooted;
use crate::search::rule_parents;
use crate::search::rule_spec;
use crate::search::rules_of;
use crate::search::selector_at;
use crate::search::walk_into_part;
use crate::search::KindSpec;
use crate::search::RuleKind;
use crate::search::RuleSpec;
use crate::search::StyleRule;
use crate::selectors::copy_parts;
use crate::selectors::get_specificity_tuple;
use crate::selectors::indexed_parts;
use crate::selectors::lemma_collected_from_parts;
use crate::selectors::lemma_indexing_parts_extends;
use crate::selectors::lemma_part_specs;
use crate::selectors::lemma_selector_specs;
use crate::selectors::lemma_selector_specs_push;
use crate::selectors::new_are_smaller;
use crate::selectors::part_spec;
use crate::selectors::parts_of;
use crate::selectors::selector_size;
use crate::selectors::selectors_of;
use crate::selectors::selectors_size;
use crate::selectors::specificity_of;
use crate::selectors::walk_parts;
use crate::selectors::PartSpec;
use crate::selectors::PseudoSpec;
use crate::selectors::SelectorPart;
use crate::selectors::SelectorPseudo;
use crate::selectors::Specificity;
use crate::text::same_text;
use crate::tree::acyclic;
use crate::tree::children_at;
use crate::tree::has_parent;
use crate::tree::lineage;
use crate::tree::with_list;
use crate::tree::ChildrenIndex;
use crate::tree::ChildrenModel;

verus! {

broadcast use vstd::std_specs::hash::group_hash_axioms;

/// The elements of a document.
pub open spec fn all_elements(nodes: NodesModel) -> Set<usize> {
    Set::new(|el: usize| node_at(nodes, el) matches Some(node) && node is Element)
}

/// The name of the attribute that a condition is about.
pub open spec fn attribute_key(attribute: AttributeModel) -> Seq<char> {
    match attribute {
        AttributeModel::KeyValue(key, _) => key,
        AttributeModel::Key(key) => key,
    }
}

/// Whether an index lists a node under a name.
pub open spec fn lists(index: NamedSets, name: Seq<char>, el: usize) -> bool {
    named(index, name) matches Some(set) && set.contains(el)
}

/// The nodes that the index lists under the names of the first conditions.
pub open spec fn listed_for(attributes: Seq<AttributeModel>, count: int, index: NamedSets) -> Set<
    usize,
> {
    Set::new(
        |el: usize|
            count > 0 && forall|i: int|
                0 <= i < count ==> lists(index, attribute_key(#[trigger] attributes[i]), el),
    )
}

/// The elements that meet conditions on attributes, of which there is at least one.
pub open spec fn by_attributes(attributes: Seq<AttributeModel>, env: MatchEnv) -> Set<usize> {
    Set::new(
        |el: usize|
            listed_for(attributes, attributes.len() as int, env.attributes).contains(el) && (
            node_at(env.nodes, el) matches Some(node) && node is Element && attributes_hold(
                node,
                attributes,
            )),
    )
}

fn key_of(attribute: &ClassNamePartAttribute) -> (r: &str)
    ensures
        r@ == attribute_key(attribute_model(*attribute)),
{
    match attribute {
        ClassNamePartAttribute::KeyValue((key, _)) => key.as_str(),
        ClassNamePartAttribute::Key(key) => key.as_str(),
    }
}

fn collect_elements(nodes: &NodesTable) -> (r: Vec<usize>)
    ensures
        forall|el: usize| #[trigger] r@.contains(el) <==> all_elements(nodes@).contains(el),
        forall|i: int| 0 <= i < r@.len() ==> (#[trigger] r@[i]) < nodes@.len(),
{
    let mut list: Vec<usize> = Vec::new();
    let mut at: usize = 0;
    while at < nodes.data.len()
        invariant
            at <= nodes.data@.len(),
            forall|el: usize| #[trigger]
                list@.contains(el) <==> el < at && all_elements(nodes@).contains(el),
            forall|i: int| 0 <= i < list@.len() ==> (#[trigger] list@[i]) < nodes@.len(),
        decreases nodes.data@.len() - at,
    {
        let ghost before = list@;
        match nodes.get(at) {
            Some(Node::Element(_)) => {
                list.push(at);
                assert forall|el: usize| #[trigger] list@.contains(el) <==> el < at + 1
                    && all_elements(nodes@).contains(el) by {
                    assert(list@[before.len() as int] == at);
                    if before.contains(el) {
                        let k = choose|k: int| 0 <= k < before.len() && before[k] == el;
                        assert(list@[k] == el);
                    }
                    if list@.contains(el) {
                        let k = choose|k: int| 0 <= k < list@.len() && list@[k] == el;
                        if k < before.len() {
                            assert(before[k] == el);
                            assert(before.contains(el));
                        }
                    }
                }
            },
            _ => {},
        }
        at = at + 1;
    }
    list
}

fn bits_of(list: &Vec<usize>) -> (r: FixedBitSet)
    requires
        forall|i: int| 0 <= i < list@.len() ==> (#[trigger] list@[i]) < usize::MAX,
    ensures
        forall|el: usize| #[trigger] set_bits(r).contains(el) <==> list@.contains(el),
{
    let mut bits = FixedBitSet::with_capacity(0);
    let mut at: usize = 0;
    while at < list.len()
        invariant
            at <= list@.len(),
            forall|i: int| 0 <= i < list@.len() ==> (#[trigger] list@[i]) < usize::MAX,
            forall|el: usize| #[trigger]
                set_bits(bits).contains(el) <==> list@.take(at as int).contains(el),
        decreases list@.len() - at,
    {
        let ghost before = list@.take(at as int);
        let ghost after = list@.take(at + 1);
        bits.grow_and_insert(list[at]);
        assert forall|el: usize| #[trigger] set_bits(bits).contains(el) <==> after.contains(el) by {
            assert(after[at as int] == list@[at as int]);
            if before.contains(el) {
                let k = choose|k: int| 0 <= k < before.len() && before[k] == el;
                assert(after[k] == el);
            }
            if after.contains(el) {
                let k = choose|k: int| 0 <= k < after.len() && after[k] == el;
                if k < at {
                    assert(before[k] == el);
                }
            }
        }
        at = at + 1;
    }
    assert(list@.take(list@.len() as int) =~= list@);
    bits
}

/// The elements of a document as bits.
fn element_bits(nodes: &NodesTable) -> (r: FixedBitSet)
    ensures
        set_bits(r) == all_elements(nodes@),
{
    let _count: usize = nodes.data.len();
    let list = collect_elements(nodes);
    let bits = bits_of(&list);
    assert(set_bits(bits) =~= all_elements(nodes@));
    bits
}

impl<'a> MatchContext<'a> {
    /// The elements that meet conditions on attributes, of which there is at least one.
    pub fn get_base_elements_by_attributes(&self, attributes: &Vec<ClassNamePartAttribute>) -> (r:
        FixedBitSet)
        ensures
            set_bits(r) == by_attributes(attribute_models(attributes@), self@),
    {
        let ghost models = attribute_models(attributes@);
        let ghost index = self@.attributes;
        let mut base = FixedBitSet::with_capacity(0);
        let mut at: usize = 0;
        assert(set_bits(base) =~= listed_for(models, 0, index));
        while at < attributes.len()
            invariant
                at <= attributes@.len(),
                models == attribute_models(attributes@),
                index == self@.attributes,
                set_bits(base) == listed_for(models, at as int, index),
            decreases attributes@.len() - at,
        {
            let ghost before = set_bits(base);
            assert(models[at as int] == attribute_model(attributes@[at as int]));
            match self.dom.attribute_elements.get(key_of(&attributes[at])) {
                Some(matched) => {
                    if at == 0 {
                        base = copy_bits(matched);
                    } else {
                        base.intersect_with(matched);
                    }
                },
                None => {
                    base.clear();
                },
            }
            proof {
                let key = attribute_key(models[at as int]);
                assert forall|el: usize| set_bits(base).contains(el) == listed_for(
                    models,
                    at + 1,
                    index,
                ).contains(el) by {
                    if listed_for(models, at + 1, index).contains(el) {
                        assert(lists(index, attribute_key(models[at as int]), el));
                        if at > 0 {
                            assert(listed_for(models, at as int, index).contains(el));
                        }
                    }
                    if set_bits(base).contains(el) {
                        assert forall|i: int| 0 <= i < at + 1 implies lists(
                            index,
                            attribute_key(#[trigger] models[i]),
                            el,
                        ) by {
                            if i < at {
                                assert(before.contains(el));
                            }
                        }
                    }
                }
                assert(set_bits(base) =~= listed_for(models, at + 1, index));
            }
            at = at + 1;
        }
        let listed = ones(&base);
        let mut kept: Vec<usize> = Vec::new();
        let mut k: usize = 0;
        while k < listed.len()
            invariant
                k <= listed@.len(),
                models == attribute_models(attributes@),
                forall|i: int| 0 <= i < listed@.len() ==> (#[trigger] listed@[i]) < usize::MAX,
                forall|i: int| 0 <= i < kept@.len() ==> (#[trigger] kept@[i]) < usize::MAX,
                forall|el: usize| #[trigger]
                    kept@.contains(el) <==> listed@.take(k as int).contains(el) && (node_at(
                        self@.nodes,
                        el,
                    ) matches Some(node) && node is Element && attributes_hold(node, models)),
            decreases listed@.len() - k,
        {
            let el: usize = listed[k];
            let ghost before = kept@;
            let ghost taken = listed@.take(k as int);
            let ghost more = listed@.take(k + 1);
            let holds = match self.nodes.get(el) {
                Some(node) => element_matched_attributes(node, attributes),
                None => false,
            };
            if holds {
                kept.push(el);
            }
            assert forall|x: usize| #[trigger] kept@.contains(x) <==> more.contains(x) && (node_at(
                self@.nodes,
                x,
            ) matches Some(node) && node is Element && attributes_hold(node, models)) by {
                assert(more[k as int] == el);
                if taken.contains(x) {
                    let j = choose|j: int| 0 <= j < taken.len() && taken[j] == x;
                    assert(more[j] == x);
                }
                if more.contains(x) {
                    let j = choose|j: int| 0 <= j < more.len() && more[j] == x;
                    if j < k {
                        assert(taken[j] == x);
                    }
                }
                if before.contains(x) {
                    let j = choose|j: int| 0 <= j < before.len() && before[j] == x;
                    assert(kept@[j] == x);
                }
                if holds {
                    assert(kept@[before.len() as int] == el);
                }
                if kept@.contains(x) {
                    let j = choose|j: int| 0 <= j < kept@.len() && kept@[j] == x;
                    if j < before.len() {
                        assert(before[j] == x);
                        assert(before.contains(x));
                    }
                }
            }
            k = k + 1;
        }
        let r = bits_of(&kept);
        proof {
            assert(listed@.take(listed@.len() as int) =~= listed@);
            lemma_members(set_bits(base));
            assert forall|el: usize| set_bits(r).contains(el) == by_attributes(
                models,
                self@,
            ).contains(el) by {
                assert(members(set_bits(base)).contains(el) == set_bits(base).contains(el));
                assert(kept@.contains(el) == set_bits(r).contains(el));
            }
            assert(set_bits(r) =~= by_attributes(models, self@));
        }
        r
    }
}

/// The elements that an index gives for one step; nothing where no index is asked.
pub open spec fn indexed_candidates(part: PartSpec, env: MatchEnv) -> Option<Set<usize>> {
    match part {
        PartSpec::Tag(tag) => if tag == "*"@ {
            None
        } else {
            named(env.tags, tag)
        },
        PartSpec::Class(class) => if class < env.classes.len() {
            Some(env.classes[class as int])
        } else {
            None
        },
        PartSpec::Id(id) => named(env.ids, id),
        PartSpec::Attributes(attributes) => Some(by_attributes(attributes, env)),
        _ => None,
    }
}

/// The smallest set that an index gives for one of the first steps, with the place of the step. The
/// first empty set ends the comparison.
pub struct BaseChoice {
    pub best: Option<(nat, Set<usize>)>,
    pub stopped: bool,
}

pub open spec fn base_choice(parts: Seq<PartSpec>, count: nat, env: MatchEnv) -> BaseChoice
    decreases count,
{
    if count == 0 || count > parts.len() {
        BaseChoice { best: None, stopped: false }
    } else {
        let before = base_choice(parts, (count - 1) as nat, env);
        if before.stopped {
            before
        } else {
            match indexed_candidates(parts[count - 1], env) {
                None => before,
                Some(set) => BaseChoice {
                    best: match before.best {
                        Some((place, best)) => if members(set).len() < members(best).len() {
                            Some(((count - 1) as nat, set))
                        } else {
                            before.best
                        },
                        None => Some(((count - 1) as nat, set)),
                    },
                    stopped: members(set).len() == 0,
                },
            }
        }
    }
}

/// Whether an element meets the first steps but one, asked up to the first that it does not meet.
pub open spec fn meets_others(
    parts: Seq<PartSpec>,
    count: nat,
    skipped: int,
    el: usize,
    env: MatchEnv,
    asked: Set<usize>,
) -> (bool, Set<usize>)
    decreases count,
{
    if count == 0 || count > parts.len() {
        (true, asked)
    } else {
        let (met, before) = meets_others(parts, (count - 1) as nat, skipped, el, env, asked);
        if !met {
            (false, before)
        } else if count - 1 == skipped {
            (true, before)
        } else {
            meets_part(parts[count - 1], el, env, before)
        }
    }
}

/// The first elements of a list that meet all steps but one.
pub open spec fn filtered(
    list: Seq<usize>,
    count: nat,
    parts: Seq<PartSpec>,
    skipped: int,
    env: MatchEnv,
    asked: Set<usize>,
) -> (Set<usize>, Set<usize>)
    decreases count,
{
    if count == 0 || count > list.len() {
        (Set::empty(), asked)
    } else {
        let (kept, before) = filtered(list, (count - 1) as nat, parts, skipped, env, asked);
        let (met, after) = meets_others(
            parts,
            parts.len(),
            skipped,
            list[count - 1],
            env,
            before,
        );
        (
            if met {
                kept.insert(list[count - 1])
            } else {
                kept
            },
            after,
        )
    }
}

/// The elements that meet the last step of a selector; nothing where none can.
pub open spec fn candidates(part: PartSpec, env: MatchEnv, asked: Set<usize>) -> (
    Option<Set<usize>>,
    Set<usize>,
) {
    match part {
        PartSpec::Class(class) => (indexed_candidates(part, env), asked),
        PartSpec::Id(id) => (indexed_candidates(part, env), asked),
        PartSpec::Attributes(attributes) => (indexed_candidates(part, env), asked),
        PartSpec::Tag(tag) => if tag == "*"@ {
            (Some(all_elements(env.nodes)), asked)
        } else {
            (indexed_candidates(part, env), asked)
        },
        PartSpec::Pseudo(PseudoSpec::Root) => (
            Some(
                Set::new(
                    |el: usize|
                        all_elements(env.nodes).contains(el) && parent_of(env.nodes, el) is None,
                ),
            ),
            asked,
        ),
        PartSpec::Pseudo(PseudoSpec::IndexedNot(place)) => (
            Some(
                Set::new(
                    |el: usize|
                        all_elements(env.nodes).contains(el) && !is_selected(
                            env.selected,
                            place,
                            el,
                        ),
                ),
            ),
            asked,
        ),
        PartSpec::Combined(parts) => {
            let choice = base_choice(parts, parts.len(), env);
            let (skipped, base) = match choice.best {
                Some((place, set)) => (place as int, set),
                None => (-1, all_elements(env.nodes)),
            };
            let (kept, after) = filtered(
                members(base),
                members(base).len(),
                parts,
                skipped,
                env,
                asked,
            );
            (Some(kept), after)
        },
        _ => (None, asked),
    }
}

proof fn lemma_others_not_met(
    parts: Seq<PartSpec>,
    count: nat,
    more: nat,
    skipped: int,
    el: usize,
    env: MatchEnv,
    asked: Set<usize>,
)
    requires
        count <= more <= parts.len(),
        !meets_others(parts, count, skipped, el, env, asked).0,
    ensures
        meets_others(parts, more, skipped, el, env, asked) == meets_others(
            parts,
            count,
            skipped,
            el,
            env,
            asked,
        ),
    decreases more,
{
    if count < more {
        lemma_others_not_met(parts, count, (more - 1) as nat, skipped, el, env, asked);
    }
}

proof fn lemma_choice_stopped(parts: Seq<PartSpec>, count: nat, more: nat, env: MatchEnv)
    requires
        count <= more <= parts.len(),
        base_choice(parts, count, env).stopped,
    ensures
        base_choice(parts, more, env) == base_choice(parts, count, env),
    decreases more,
{
    if count < more {
        lemma_choice_stopped(parts, count, (more - 1) as nat, env);
    }
}

impl<'a> MatchContext<'a> {
    fn get_indexed_candidates(&self, part: &SelectorPart) -> (r: Option<FixedBitSet>)
        ensures
            match (r, indexed_candidates(part_spec(*part), self@)) {
                (Some(bits), Some(set)) => set_bits(bits) == set,
                (None, None) => true,
                _ => false,
            },
    {
        match part {
            SelectorPart::Tag(tag) => if same_text(tag.as_str(), "*") {
                None
            } else {
                match self.dom.tag_elements.get(tag.as_str()) {
                    Some(bits) => Some(copy_bits(bits)),
                    None => None,
                }
            },
            SelectorPart::Class(class) => if *class < self.dom.class_elements.len() {
                Some(copy_bits(&self.dom.class_elements[*class]))
            } else {
                None
            },
            SelectorPart::Id(id) => match self.dom.id_elements.get(id.as_str()) {
                Some(bits) => Some(copy_bits(bits)),
                None => None,
            },
            SelectorPart::Attributes(attributes) => Some(
                self.get_base_elements_by_attributes(attributes),
            ),
            _ => None,
        }
    }

    fn choose_base(&self, parts: &Vec<SelectorPart>) -> (r: Option<(usize, FixedBitSet)>)
        ensures
            match (r, base_choice(parts_of(parts@), parts_of(parts@).len(), self@).best) {
                (Some((place, bits)), Some((model, set))) => place == model && set_bits(bits)
                    == set && place < parts@.len(),
                (None, None) => true,
                _ => false,
            },
    {
        let ghost specs = parts_of(parts@);
        proof {
            lemma_part_specs(parts@, parts@.len());
        }
        let mut best: Option<(usize, FixedBitSet)> = None;
        let mut at: usize = 0;
        while at < parts.len()
            invariant
                at <= parts@.len(),
                specs == parts_of(parts@),
                specs.len() == parts@.len(),
                forall|i: int|
                    0 <= i < parts@.len() ==> #[trigger] specs[i] == part_spec(parts@[i]),
                !base_choice(specs, at as nat, self@).stopped,
                match (best, base_choice(specs, at as nat, self@).best) {
                    (Some((place, bits)), Some((model, set))) => place == model && set_bits(bits)
                        == set && place < parts@.len(),
                    (None, None) => true,
                    _ => false,
                },
            decreases parts@.len() - at,
        {
            assert(specs[at as int] == part_spec(parts@[at as int]));
            match self.get_indexed_candidates(&parts[at]) {
                None => {},
                Some(candidate) => {
                    let count: usize = count_ones(&candidate);
                    let smaller = match &best {
                        Some((_, bits)) => count < count_ones(bits),
                        None => true,
                    };
                    if smaller {
                        best = Some((at, candidate));
                    }
                    if count == 0 {
                        proof {
                            lemma_choice_stopped(specs, (at + 1) as nat, specs.len(), self@);
                        }
                        return best;
                    }
                },
            }
            at = at + 1;
        }
        best
    }

    fn matches_others(
        &self,
        parts: &Vec<SelectorPart>,
        skipped: Option<usize>,
        el: usize,
        hovering_has_impact: &mut HashSet<usize>,
    ) -> (r: bool)
        requires
            acyclic(self@.nodes),
        ensures
            (r, final(hovering_has_impact)@) == meets_others(
                parts_of(parts@),
                parts_of(parts@).len(),
                match skipped {
                    Some(place) => place as int,
                    None => -1,
                },
                el,
                self@,
                old(hovering_has_impact)@,
            ),
    {
        let ghost specs = parts_of(parts@);
        let ghost start = hovering_has_impact@;
        let ghost left_out = match skipped {
            Some(place) => place as int,
            None => -1,
        };
        proof {
            lemma_part_specs(parts@, parts@.len());
        }
        let mut at: usize = 0;
        while at < parts.len()
            invariant
                at <= parts@.len(),
                acyclic(self@.nodes),
                start == old(hovering_has_impact)@,
                specs == parts_of(parts@),
                specs.len() == parts@.len(),
                left_out == (match skipped {
                    Some(place) => place as int,
                    None => -1,
                }),
                forall|i: int|
                    0 <= i < parts@.len() ==> #[trigger] specs[i] == part_spec(parts@[i]),
                (true, hovering_has_impact@) == meets_others(
                    specs,
                    at as nat,
                    left_out,
                    el,
                    self@,
                    start,
                ),
            decreases parts@.len() - at,
        {
            assert(specs[at as int] == part_spec(parts@[at as int]));
            let left = match skipped {
                Some(place) => place == at,
                None => false,
            };
            if !left && !self.element_matches_class_part(&parts[at], el, hovering_has_impact) {
                proof {
                    lemma_others_not_met(
                        specs,
                        (at + 1) as nat,
                        specs.len(),
                        left_out,
                        el,
                        self@,
                        start,
                    );
                }
                return false;
            }
            at = at + 1;
        }
        true
    }

    fn get_combined_candidates(
        &self,
        parts: &Vec<SelectorPart>,
        hovering_has_impact: &mut HashSet<usize>,
    ) -> (r: FixedBitSet)
        requires
            acyclic(self@.nodes),
        ensures
            (Some(set_bits(r)), final(hovering_has_impact)@) == candidates(
                PartSpec::Combined(parts_of(parts@)),
                self@,
                old(hovering_has_impact)@,
            ),
    {
        let ghost specs = parts_of(parts@);
        let ghost start = hovering_has_impact@;
        let (skipped, base): (Option<usize>, FixedBitSet) = match self.choose_base(parts) {
            Some((place, bits)) => (Some(place), bits),
            None => (None, element_bits(self.nodes)),
        };
        let ghost left_out = match skipped {
            Some(place) => place as int,
            None => -1,
        };
        let list = ones(&base);
        let mut kept = FixedBitSet::with_capacity(0);
        let mut at: usize = 0;
        while at < list.len()
            invariant
                at <= list@.len(),
                acyclic(self@.nodes),
                specs == parts_of(parts@),
                left_out == (match skipped {
                    Some(place) => place as int,
                    None => -1,
                }),
                forall|i: int| 0 <= i < list@.len() ==> (#[trigger] list@[i]) < usize::MAX,
                (set_bits(kept), hovering_has_impact@) == filtered(
                    list@,
                    at as nat,
                    specs,
                    left_out,
                    self@,
                    start,
                ),
            decreases list@.len() - at,
        {
            let el: usize = list[at];
            if self.matches_others(parts, skipped, el, hovering_has_impact) {
                kept.grow_and_insert(el);
            }
            at = at + 1;
        }
        kept
    }

    /// The elements that meet the last step of a selector; nothing where none can.
    pub fn get_candidates(
        &self,
        part: &SelectorPart,
        hovering_has_impact: &mut HashSet<usize>,
    ) -> (r: Option<FixedBitSet>)
        requires
            acyclic(self@.nodes),
        ensures
            match (
                r,
                candidates(part_spec(*part), self@, old(hovering_has_impact)@),
            ) {
                (Some(bits), (Some(set), after)) => set_bits(bits) == set && final(
                    hovering_has_impact
                )@ == after,
                (None, (None, after)) => final(hovering_has_impact)@ == after,
                _ => false,
            },
    {
        match part {
            SelectorPart::Class(_) | SelectorPart::Id(_) | SelectorPart::Attributes(_) => {
                self.get_indexed_candidates(part)
            },
            SelectorPart::Tag(tag) => if same_text(tag.as_str(), "*") {
                Some(element_bits(self.nodes))
            } else {
                self.get_indexed_candidates(part)
            },
            SelectorPart::Pseudo(SelectorPseudo::Root) => Some(self.select_elements(None)),
            SelectorPart::Pseudo(SelectorPseudo::IndexedNot(place)) => Some(
                self.select_elements(Some(*place)),
            ),
            SelectorPart::Combined(parts) => Some(
                self.get_combined_candidates(parts, hovering_has_impact),
            ),
            _ => None,
        }
    }

    /// The elements that a nested selector does not select, or those without a parent where none is
    /// given.
    fn select_elements(&self, place: Option<usize>) -> (r: FixedBitSet)
        ensures
            set_bits(r) == Set::new(
                |el: usize|
                    all_elements(self@.nodes).contains(el) && (match place {
                        Some(place) => !is_selected(self@.selected, place, el),
                        None => parent_of(self@.nodes, el) is None,
                    }),
            ),
    {
        let _count: usize = self.nodes.data.len();
        let list = collect_elements(self.nodes);
        let mut bits = FixedBitSet::with_capacity(0);
        let mut at: usize = 0;
        while at < list.len()
            invariant
                at <= list@.len(),
                self@.nodes.len() <= usize::MAX,
                forall|i: int| 0 <= i < list@.len() ==> (#[trigger] list@[i]) < self@.nodes.len(),
                forall|el: usize| #[trigger]
                    set_bits(bits).contains(el) <==> list@.take(at as int).contains(el) && (
                    match place {
                        Some(place) => !is_selected(self@.selected, place, el),
                        None => parent_of(self@.nodes, el) is None,
                    }),
            decreases list@.len() - at,
        {
            let el: usize = list[at];
            let ghost taken = list@.take(at as int);
            let ghost more = list@.take(at + 1);
            let ghost before = set_bits(bits);
            let wanted = match place {
                Some(place) => {
                    proof {
                        if place < self.selected@.len() {
                            assert(self@.selected[place as int] == set_bits(
                                self.selected@[place as int],
                            ));
                        }
                    }
                    !(place < self.selected.len() && self.selected[place].contains(el))
                },
                None => self.nodes.parent(el).is_none(),
            };
            if wanted {
                bits.grow_and_insert(el);
            }
            assert forall|x: usize| #[trigger] set_bits(bits).contains(x) <==> more.contains(x) && (
            match place {
                Some(place) => !is_selected(self@.selected, place, x),
                None => parent_of(self@.nodes, x) is None,
            }) by {
                assert(more[at as int] == el);
                assert(before.contains(x) == (taken.contains(x) && (match place {
                    Some(place) => !is_selected(self@.selected, place, x),
                    None => parent_of(self@.nodes, x) is None,
                })));
                if taken.contains(x) {
                    let j = choose|j: int| 0 <= j < taken.len() && taken[j] == x;
                    assert(more[j] == x);
                }
                if more.contains(x) {
                    let j = choose|j: int| 0 <= j < more.len() && more[j] == x;
                    if j < at {
                        assert(taken[j] == x);
                    }
                }
            }
            at = at + 1;
        }
        assert(list@.take(list@.len() as int) =~= list@);
        assert(set_bits(bits) =~= Set::new(
            |el: usize|
                all_elements(self@.nodes).contains(el) && (match place {
                    Some(place) => !is_selected(self@.selected, place, el),
                    None => parent_of(self@.nodes, el) is None,
                }),
        )) by {
            assert forall|el: usize| set_bits(bits).contains(el) == (all_elements(
                self@.nodes,
            ).contains(el) && (match place {
                Some(place) => !is_selected(self@.selected, place, el),
                None => parent_of(self@.nodes, el) is None,
            })) by {
                assert(list@.contains(el) == all_elements(self@.nodes).contains(el));
            }
        }
        bits
    }
}

/// What a search has found: for every element the nodes of the style sheet that select it, for
/// every rule the weight of its selector, and the elements for which it was asked whether they are
/// under the pointer.
#[verifier::ext_equal]
pub struct FoundSpec {
    pub matches: ChildrenModel,
    pub weights: Seq<Option<Specificity>>,
    pub asked: Set<usize>,
}

/// What a search has found.
#[derive(Debug)]
pub struct Found {
    pub matches: ChildrenIndex,
    pub weights: Vec<Option<Specificity>>,
    pub hovering_has_impact: HashSet<usize>,
}

impl View for Found {
    type V = FoundSpec;

    open spec fn view(&self) -> FoundSpec {
        FoundSpec {
            matches: self.matches@,
            weights: self.weights@,
            asked: self.hovering_has_impact@,
        }
    }
}

impl FoundSpec {
    /// A node of the style sheet selects an element.
    pub open spec fn with_match(self, el: usize, css: usize, weight: Option<Specificity>) -> FoundSpec {
        let list = match children_at(self.matches, el) {
            Some(list) => list,
            None => Seq::empty(),
        };
        FoundSpec {
            matches: with_list(self.matches, el, list.push(css)),
            weights: if weight is Some && css < self.weights.len() {
                self.weights.update(css as int, weight)
            } else {
                self.weights
            },
            asked: self.asked,
        }
    }
}

/// Whether what stands before the last step of a selector is met from an element on.
pub open spec fn rest_met(
    el: usize,
    rules: Seq<RuleSpec>,
    css: int,
    name: int,
    env: MatchEnv,
    asked: Set<usize>,
) -> (bool, Set<usize>) {
    let parts = selector_at(rules, css, name);
    if parts.len() <= 1 {
        above_rule(el, rules, css, false, true, env, asked)
    } else {
        let from = if goes_up(parts[parts.len() - 2]) {
            parent_of(env.nodes, el)
        } else {
            Some(el)
        };
        match from {
            Some(from) => narrowed(from, rules, css, name, 1, false, env, asked),
            None => (false, asked),
        }
    }
}

/// The state after the first candidates of a selector have been looked at.
pub open spec fn after_candidates(
    list: Seq<usize>,
    count: nat,
    rules: Seq<RuleSpec>,
    css: usize,
    name: int,
    weight: Option<Specificity>,
    env: MatchEnv,
    found: FoundSpec,
) -> FoundSpec
    decreases count,
{
    if count == 0 || count > list.len() {
        found
    } else {
        let before = after_candidates(
            list,
            (count - 1) as nat,
            rules,
            css,
            name,
            weight,
            env,
            found,
        );
        let el = list[count - 1];
        let (met, asked) = rest_met(el, rules, css as int, name, env, before.asked);
        let looked = FoundSpec { asked, ..before };
        if met {
            looked.with_match(el, css, weight)
        } else {
            looked
        }
    }
}

/// The state after the first selectors of a rule have been searched for.
pub open spec fn after_selectors(
    count: nat,
    rules: Seq<RuleSpec>,
    css: usize,
    env: MatchEnv,
    found: FoundSpec,
) -> FoundSpec
    decreases count,
{
    if count == 0 {
        found
    } else {
        let before = after_selectors((count - 1) as nat, rules, css, env, found);
        let parts = selector_at(rules, css as int, count - 1);
        if parts.len() == 0 {
            before
        } else {
            let (set, asked) = candidates(parts.last(), env, before.asked);
            let looked = FoundSpec { asked, ..before };
            match set {
                None => looked,
                Some(set) => after_candidates(
                    members(set),
                    members(set).len(),
                    rules,
                    css,
                    count - 1,
                    Some(specificity_of(parts, parts.len())),
                    env,
                    looked,
                ),
            }
        }
    }
}

/// The state after a node of the style sheet has been searched for. Media queries that hold, layers
/// and conditions on support select every element that what stands around them lets through.
pub open spec fn after_rule(rules: Seq<RuleSpec>, css: usize, env: MatchEnv, found: FoundSpec) -> FoundSpec {
    if css >= rules.len() {
        found
    } else {
        let all = members(all_elements(env.nodes));
        match rules[css as int].kind {
            KindSpec::ClassName(list) => after_selectors(list.len(), rules, css, env, found),
            KindSpec::MediaQuery(holds) => if holds {
                after_candidates(all, all.len(), rules, css, 0, None, env, found)
            } else {
                found
            },
            KindSpec::Layer | KindSpec::Supports => after_candidates(
                all,
                all.len(),
                rules,
                css,
                0,
                None,
                env,
                found,
            ),
            _ => found,
        }
    }
}

/// The state after the first nodes of a list have been searched for.
pub open spec fn after_rules(
    to_resolve: Seq<usize>,
    count: nat,
    rules: Seq<RuleSpec>,
    env: MatchEnv,
    found: FoundSpec,
) -> FoundSpec
    decreases count,
{
    if count == 0 || count > to_resolve.len() {
        found
    } else {
        after_rule(
            rules,
            to_resolve[count - 1],
            env,
            after_rules(to_resolve, (count - 1) as nat, rules, env, found),
        )
    }
}

/// The size of the selectors of the first nodes of a style sheet.
pub open spec fn rules_size(rules: Seq<RuleSpec>, count: nat) -> nat
    decreases count,
{
    if count == 0 || count > rules.len() {
        0
    } else {
        rules_size(rules, (count - 1) as nat) + (match rules[count - 1].kind {
            KindSpec::ClassName(list) => selectors_size(list, list.len()),
            _ => 0,
        })
    }
}

/// The first selectors of a rule with their nested selectors replaced by places in a list.
pub open spec fn indexed_list(selectors: Seq<Seq<PartSpec>>, count: nat, list: Seq<Seq<PartSpec>>) -> (
    Seq<Seq<PartSpec>>,
    Seq<Seq<PartSpec>>,
)
    decreases count,
{
    if count == 0 || count > selectors.len() {
        (Seq::empty(), list)
    } else {
        let (before, between) = indexed_list(selectors, (count - 1) as nat, list);
        let (parts, after) = indexed_parts(
            selectors[count - 1],
            selectors[count - 1].len(),
            between,
        );
        (before.push(parts), after)
    }
}

/// The first nodes of a style sheet with nested selectors replaced by places in a list.
pub open spec fn indexed_rules(rules: Seq<RuleSpec>, count: nat) -> (
    Seq<RuleSpec>,
    Seq<Seq<PartSpec>>,
)
    decreases count,
{
    if count == 0 || count > rules.len() {
        (Seq::empty(), Seq::empty())
    } else {
        let (before, between) = indexed_rules(rules, (count - 1) as nat);
        match rules[count - 1].kind {
            KindSpec::ClassName(selectors) => {
                let (changed, after) = indexed_list(selectors, selectors.len(), between);
                (
                    before.push(
                        RuleSpec {
                            kind: KindSpec::ClassName(changed),
                            parent: rules[count - 1].parent,
                        },
                    ),
                    after,
                )
            },
            _ => (before.push(rules[count - 1]), between),
        }
    }
}

/// Nothing found yet.
pub open spec fn nothing_found(count: nat) -> FoundSpec {
    FoundSpec {
        matches: Seq::empty(),
        weights: Seq::new(count, |i: int| None),
        asked: Set::empty(),
    }
}

pub open spec fn with_selected(env: MatchEnv, selected: Seq<Set<usize>>) -> MatchEnv {
    MatchEnv { selected, ..env }
}

/// What a search for nodes of a style sheet finds. The selectors that are nested in others are
/// searched for first.
pub open spec fn searched(
    rules: Seq<RuleSpec>,
    to_resolve: Seq<usize>,
    env: MatchEnv,
) -> FoundSpec
    decreases rules_size(rules, rules.len()), 1nat, 0nat,
{
    let (indexed, list) = indexed_rules(rules, rules.len());
    let selected = selected_sets(list, list.len(), env, rules_size(rules, rules.len()));
    after_rules(
        to_resolve,
        to_resolve.len(),
        indexed,
        with_selected(env, selected),
        nothing_found(rules.len()),
    )
}

/// The elements that the first selectors of a list select.
pub open spec fn selected_sets(
    list: Seq<Seq<PartSpec>>,
    count: nat,
    env: MatchEnv,
    bound: nat,
) -> Seq<Set<usize>>
    decreases bound, 0nat, count,
{
    if count == 0 || count > list.len() {
        Seq::empty()
    } else {
        selected_sets(list, (count - 1) as nat, env, bound).push(
            if 1 + selector_size(list[count - 1]) < bound {
                queried(list[count - 1], env)
            } else {
                Set::empty()
            },
        )
    }
}

/// A style sheet of one rule.
pub open spec fn single_rule(selector: Seq<PartSpec>) -> Seq<RuleSpec> {
    seq![RuleSpec { kind: KindSpec::ClassName(seq![selector]), parent: None }]
}

/// The elements that a selector selects.
pub open spec fn queried(selector: Seq<PartSpec>, env: MatchEnv) -> Set<usize>
    decreases 1 + selector_size(selector), 2nat, 0nat,
    via queried_decreases
{
    matched_elements(searched(single_rule(selector), seq![0usize], env).matches)
}

#[via_fn]
proof fn queried_decreases(selector: Seq<PartSpec>, env: MatchEnv) {
    lemma_single_rule_size(selector);
}

/// A style sheet of one rule is larger by one than the selector of the rule.
pub proof fn lemma_single_rule_size(selector: Seq<PartSpec>)
    ensures
        rules_size(single_rule(selector), 1) == 1 + selector_size(selector),
{
    let rules = single_rule(selector);
    reveal_with_fuel(rules_size, 2);
    reveal_with_fuel(selectors_size, 2);
    assert(rules[0].kind == KindSpec::ClassName(seq![selector]));
    assert(seq![selector][0] == selector);
}

/// The elements that something selects.
pub open spec fn matched_elements(matches: ChildrenModel) -> Set<usize> {
    Set::new(|el: usize| children_at(matches, el) is Some)
}

fn index_selectors(list: &mut Vec<Vec<SelectorPart>>, selectors: &Vec<Vec<SelectorPart>>) -> (r: Vec<
    Vec<SelectorPart>,
>)
    ensures
        (selectors_of(r@), selectors_of(final(list)@)) == indexed_list(
            selectors_of(selectors@),
            selectors_of(selectors@).len(),
            selectors_of(old(list)@),
        ),
{
    let ghost specs = selectors_of(selectors@);
    let ghost start = selectors_of(list@);
    proof {
        lemma_selector_specs(selectors@, selectors@.len());
    }
    let mut changed: Vec<Vec<SelectorPart>> = Vec::new();
    let mut at: usize = 0;
    while at < selectors.len()
        invariant
            at <= selectors@.len(),
            specs == selectors_of(selectors@),
            specs.len() == selectors@.len(),
            forall|i: int|
                0 <= i < selectors@.len() ==> #[trigger] specs[i] == parts_of(selectors@[i]@),
            (selectors_of(changed@), selectors_of(list@)) == indexed_list(
                specs,
                at as nat,
                start,
            ),
        decreases selectors@.len() - at,
    {
        assert(specs[at as int] == parts_of(selectors@[at as int]@));
        let parts = walk_parts(list, &selectors[at]);
        proof {
            lemma_selector_specs_push(changed@, parts);
        }
        changed.push(parts);
        at = at + 1;
    }
    changed
}

/// The nodes of a style sheet with nested selectors replaced by places in a list, and the list.
fn index_rules(rules: &Vec<StyleRule>) -> (r: (Vec<StyleRule>, Vec<Vec<SelectorPart>>))
    ensures
        (rules_of(r.0@), selectors_of(r.1@)) == indexed_rules(
            rules_of(rules@),
            rules_of(rules@).len(),
        ),
{
    let ghost specs = rules_of(rules@);
    let mut changed: Vec<StyleRule> = Vec::new();
    let mut list: Vec<Vec<SelectorPart>> = Vec::new();
    let mut at: usize = 0;
    assert(rules_of(changed@) =~= Seq::empty());
    assert(selectors_of(list@) =~= Seq::empty());
    while at < rules.len()
        invariant
            at <= rules@.len(),
            specs == rules_of(rules@),
            (rules_of(changed@), selectors_of(list@)) == indexed_rules(specs, at as nat),
        decreases rules@.len() - at,
    {
        assert(specs[at as int] == rule_spec(rules@[at as int]));
        let ghost before = changed@;
        let kind = match &rules[at].kind {
            RuleKind::ClassName(selectors) => RuleKind::ClassName(
                index_selectors(&mut list, selectors),
            ),
            RuleKind::MediaQuery(holds) => RuleKind::MediaQuery(*holds),
            RuleKind::Layer => RuleKind::Layer,
            RuleKind::Supports => RuleKind::Supports,
            RuleKind::Property => RuleKind::Property,
            RuleKind::Variable => RuleKind::Variable,
            RuleKind::PropertyDefinition => RuleKind::PropertyDefinition,
        };
        let rule = StyleRule { kind, parent: rules[at].parent };
        changed.push(rule);
        assert(rules_of(changed@) =~= rules_of(before).push(rule_spec(rule)));
        at = at + 1;
    }
    (changed, list)
}

proof fn lemma_indexed_list_is_smaller(
    selectors: Seq<Seq<PartSpec>>,
    count: nat,
    list: Seq<Seq<PartSpec>>,
    bound: nat,
)
    requires
        count <= selectors.len(),
        selectors_size(selectors, count) <= bound,
    ensures
        new_are_smaller(list, indexed_list(selectors, count, list).1, bound),
        list.is_prefix_of(indexed_list(selectors, count, list).1),
    decreases count,
{
    if count > 0 {
        lemma_indexed_list_is_smaller(selectors, (count - 1) as nat, list, bound);
        let between = indexed_list(selectors, (count - 1) as nat, list).1;
        let selector = selectors[count - 1];
        lemma_collected_from_parts(selector, selector.len(), between, bound);
        lemma_indexing_parts_extends(selector, selector.len(), between);
        let after = indexed_list(selectors, count, list).1;
        assert forall|i: int| list.len() <= i < after.len() implies 1 + selector_size(
            #[trigger] after[i],
        ) < bound by {
            if i < between.len() {
                assert(after[i] == between[i]);
            }
        }
    }
}

/// Every selector that is nested in a style sheet is smaller than the style sheet.
/// Selectors that are nested in rules are smaller than the rules.
pub proof fn lemma_nested_are_smaller(rules: Seq<RuleSpec>, count: nat, bound: nat)
    requires
        count <= rules.len(),
        rules_size(rules, count) <= bound,
    ensures
        forall|i: int|
            0 <= i < indexed_rules(rules, count).1.len() ==> 1 + selector_size(
                #[trigger] indexed_rules(rules, count).1[i],
            ) < bound,
    decreases count,
{
    if count > 0 {
        lemma_nested_are_smaller(rules, (count - 1) as nat, bound);
        let between = indexed_rules(rules, (count - 1) as nat).1;
        match rules[count - 1].kind {
            KindSpec::ClassName(selectors) => {
                lemma_indexed_list_is_smaller(selectors, selectors.len(), between, bound);
                let after = indexed_rules(rules, count).1;
                assert forall|i: int| 0 <= i < after.len() implies 1 + selector_size(
                    #[trigger] after[i],
                ) < bound by {
                    if i < between.len() {
                        assert(after[i] == between[i]);
                    }
                }
            },
            _ => {},
        }
    }
}

/// Making the nested selectors of rules into numbers leaves their parents as they are.
proof fn lemma_indexed_rules(rules: Seq<RuleSpec>, count: nat)
    requires
        count <= rules.len(),
    ensures
        indexed_rules(rules, count).0.len() == count,
        rule_parents(indexed_rules(rules, count).0) == rule_parents(rules).take(count as int),
    decreases count,
{
    if count > 0 {
        lemma_indexed_rules(rules, (count - 1) as nat);
        let before = rule_parents(indexed_rules(rules, (count - 1) as nat).0);
        assert forall|i: int| 0 <= i < count implies rule_parents(indexed_rules(rules, count).0)[i]
            == rule_parents(rules)[i] by {
            if i < count - 1 {
                assert(before[i] == rule_parents(rules).take(count - 1)[i]);
            }
        }
    }
    assert(rule_parents(indexed_rules(rules, count).0) =~= rule_parents(rules).take(count as int));
}

impl<'a> MatchContext<'a> {
    fn rest_matches(
        &self,
        el: usize,
        rules: &Vec<StyleRule>,
        css: usize,
        name: usize,
        hovering_has_impact: &mut HashSet<usize>,
    ) -> (r: bool)
        requires
            acyclic(self@.nodes),
            rooted(rules_of(rules@)),
        ensures
            (r, final(hovering_has_impact)@) == rest_met(
                el,
                rules_of(rules@),
                css as int,
                name as int,
                self@,
                old(hovering_has_impact)@,
            ),
    {
        if css < rules.len() {
            assert(rules_of(rules@)[css as int] == rule_spec(rules@[css as int]));
            match &rules[css].kind {
                RuleKind::ClassName(list) => {
                    proof {
                        lemma_selector_specs(list@, list@.len());
                    }
                    if name < list.len() {
                        let parts = &list[name];
                        proof {
                            lemma_part_specs(parts@, parts@.len());
                            assert(selectors_of(list@)[name as int] == parts_of(parts@));
                        }
                        if parts.len() > 1 {
                            let part = &parts[parts.len() - 2];
                            assert(parts_of(parts@)[parts@.len() - 2] == part_spec(*part));
                            let from: Option<usize> = if walk_into_part(part) {
                                self.nodes.parent(el)
                            } else {
                                Some(el)
                            };
                            return match from {
                                Some(from) => self.narrow_elements_by_ancestors(
                                    from,
                                    rules,
                                    css,
                                    name,
                                    1,
                                    false,
                                    hovering_has_impact,
                                ),
                                None => false,
                            };
                        }
                    }
                },
                _ => {},
            }
        }
        self.move_up_ancestor_chain(el, rules, css, false, true, hovering_has_impact)
    }

    fn look_at_candidates(
        &self,
        list: &Vec<usize>,
        rules: &Vec<StyleRule>,
        css: usize,
        name: usize,
        weight: Option<Specificity>,
        found: &mut Found,
    )
        requires
            acyclic(self@.nodes),
            rooted(rules_of(rules@)),
            forall|i: int| 0 <= i < list@.len() ==> (#[trigger] list@[i]) < usize::MAX,
        ensures
            final(found)@ == after_candidates(
                list@,
                list@.len(),
                rules_of(rules@),
                css,
                name as int,
                weight,
                self@,
                old(found)@,
            ),
    {
        let ghost start = found@;
        let mut at: usize = 0;
        while at < list.len()
            invariant
                at <= list@.len(),
                acyclic(self@.nodes),
                rooted(rules_of(rules@)),
                forall|i: int| 0 <= i < list@.len() ==> (#[trigger] list@[i]) < usize::MAX,
                found@ == after_candidates(
                    list@,
                    at as nat,
                    rules_of(rules@),
                    css,
                    name as int,
                    weight,
                    self@,
                    start,
                ),
            decreases list@.len() - at,
        {
            let el: usize = list[at];
            let ghost before = found@;
            let met = self.rest_matches(el, rules, css, name, &mut found.hovering_has_impact);
            let ghost looked = FoundSpec { asked: found@.asked, ..before };
            if met {
                let mut own = found.matches.list_or_empty(el);
                own.push(css);
                found.matches.insert(el, own);
                if weight.is_some() && css < found.weights.len() {
                    found.weights[css] = weight;
                }
                assert(found@ =~= looked.with_match(el, css, weight));
            } else {
                assert(found@ =~= looked);
            }
            at = at + 1;
        }
    }

    fn search_rule(&self, rules: &Vec<StyleRule>, css: usize, found: &mut Found)
        requires
            acyclic(self@.nodes),
            rooted(rules_of(rules@)),
        ensures
            final(found)@ == after_rule(rules_of(rules@), css, self@, old(found)@),
    {
        if css >= rules.len() {
            return ;
        }
        assert(rules_of(rules@)[css as int] == rule_spec(rules@[css as int]));
        let all = match &rules[css].kind {
            RuleKind::ClassName(_) => false,
            RuleKind::MediaQuery(holds) => *holds,
            RuleKind::Layer | RuleKind::Supports => true,
            _ => false,
        };
        if all {
            let bits = element_bits(self.nodes);
            let list = ones(&bits);
            self.look_at_candidates(&list, rules, css, 0, None, found);
            return ;
        }
        match &rules[css].kind {
            RuleKind::ClassName(selectors) => {
                proof {
                    lemma_selector_specs(selectors@, selectors@.len());
                }
                let ghost start = found@;
                let ghost specs = selectors_of(selectors@);
                let mut at: usize = 0;
                while at < selectors.len()
                    invariant
                        at <= selectors@.len(),
                        acyclic(self@.nodes),
                        rooted(rules_of(rules@)),
                        css < rules@.len(),
                        rules@[css as int].kind == RuleKind::ClassName(*selectors),
                        specs == selectors_of(selectors@),
                        specs.len() == selectors@.len(),
                        forall|i: int|
                            0 <= i < selectors@.len() ==> #[trigger] specs[i] == parts_of(
                                selectors@[i]@,
                            ),
                        found@ == after_selectors(
                            at as nat,
                            rules_of(rules@),
                            css,
                            self@,
                            start,
                        ),
                    decreases selectors@.len() - at,
                {
                    let parts = &selectors[at];
                    proof {
                        assert(rules_of(rules@)[css as int] == rule_spec(rules@[css as int]));
                        assert(specs[at as int] == parts_of(parts@));
                        assert(selector_at(rules_of(rules@), css as int, at as int) == parts_of(
                            parts@,
                        ));
                        lemma_part_specs(parts@, parts@.len());
                    }
                    if parts.len() > 0 {
                        let part = &parts[parts.len() - 1];
                        assert(parts_of(parts@).last() == part_spec(*part));
                        let weight = get_specificity_tuple(parts);
                        let ghost before = found@;
                        let set = self.get_candidates(part, &mut found.hovering_has_impact);
                        assert(found@ =~= (FoundSpec { asked: found@.asked, ..before }));
                        match set {
                            None => {},
                            Some(bits) => {
                                let list = ones(&bits);
                                self.look_at_candidates(&list, rules, css, at, Some(weight), found);
                            },
                        }
                    }
                    at = at + 1;
                }
            },
            _ => {},
        }
    }
}

/// What elements are matched in, before nested selectors have been searched for.
pub open spec fn base_env(nodes: NodesTable, dom: DomIndexes, hovering: Seq<usize>) -> MatchEnv {
    MatchEnv {
        nodes: nodes@,
        children: dom.children_index@,
        classes: dom.class_sets(),
        tags: dom.tag_elements@,
        ids: dom.id_elements@,
        attributes: dom.attribute_elements@,
        hovering,
        selected: Seq::empty(),
    }
}

/// Finds for every element the nodes of a style sheet that select it. Only the given nodes are
/// searched for.
pub fn search_elements_for_css_nodes(
    to_resolve: &Vec<usize>,
    rules: &Vec<StyleRule>,
    nodes: &NodesTable,
    dom: &DomIndexes,
    hovering: &Vec<usize>,
) -> (r: Found)
    requires
        acyclic(nodes@),
        rooted(rules_of(rules@)),
    ensures
        r@ == searched(rules_of(rules@), to_resolve@, base_env(*nodes, *dom, hovering@)),
    decreases rules_size(rules_of(rules@), rules_of(rules@).len()), 1nat,
{
    let ghost specs = rules_of(rules@);
    let ghost env = base_env(*nodes, *dom, hovering@);
    let ghost bound = rules_size(specs, specs.len());
    let (indexed, list) = index_rules(rules);
    let ghost nested = selectors_of(list@);
    proof {
        lemma_nested_are_smaller(specs, specs.len(), bound);
        assert forall|i: int| 0 <= i < nested.len() implies 1 + selector_size(#[trigger] nested[i])
            < bound by {
            assert(nested[i] == indexed_rules(specs, specs.len()).1[i]);
        }
        lemma_indexed_rules(specs, specs.len());
        assert(rule_parents(rules_of(indexed@)) =~= rule_parents(specs));
        lemma_selector_specs(list@, list@.len());
    }
    let mut selected: Vec<FixedBitSet> = Vec::new();
    let mut at: usize = 0;
    assert(sets_of(selected@) =~= Seq::empty());
    while at < list.len()
        invariant
            at <= list@.len(),
            acyclic(nodes@),
            specs == rules_of(rules@),
            env == base_env(*nodes, *dom, hovering@),
            bound == rules_size(specs, specs.len()),
            nested == selectors_of(list@),
            nested.len() == list@.len(),
            forall|i: int| 0 <= i < list@.len() ==> #[trigger] nested[i] == parts_of(list@[i]@),
            forall|i: int| 0 <= i < nested.len() ==> 1 + selector_size(#[trigger] nested[i]) < bound,
            sets_of(selected@) == selected_sets(nested, at as nat, env, bound),
        decreases list@.len() - at,
    {
        assert(nested[at as int] == parts_of(list@[at as int]@));
        let results = query_selector_all(nodes, &list[at], dom, hovering, None);
        let ghost set = queried(nested[at as int], env);
        proof {
            lemma_members(set);
            assert(filtered_below(set, nodes@, None) =~= set);
        }
        let bits = bits_of(&results);
        let ghost before = sets_of(selected@);
        selected.push(bits);
        proof {
            assert forall|el: usize| set_bits(bits).contains(el) == set.contains(el) by {
                assert(results@.contains(el) == set_bits(bits).contains(el));
                assert(members(set).contains(el) == set.contains(el));
            }
            assert(set_bits(bits) =~= set);
            assert(sets_of(selected@) =~= before.push(set));
        }
        at = at + 1;
    }
    let context = MatchContext { nodes, dom, hovering, selected: &selected };
    let ghost full = with_selected(env, sets_of(selected@));
    assert(context@ == full);
    let mut weights: Vec<Option<Specificity>> = Vec::new();
    let count: usize = rules.len();
    let mut k: usize = 0;
    while k < count
        invariant
            k <= count,
            weights@.len() == k,
            forall|i: int| 0 <= i < k ==> (#[trigger] weights@[i]) is None,
        decreases count - k,
    {
        weights.push(None);
        k = k + 1;
    }
    let mut found = Found {
        matches: ChildrenIndex::new(),
        weights,
        hovering_has_impact: HashSet::new(),
    };
    assert(found@ =~= nothing_found(specs.len()));
    let mut j: usize = 0;
    while j < to_resolve.len()
        invariant
            j <= to_resolve@.len(),
            acyclic(nodes@),
            rooted(rules_of(indexed@)),
            context@ == full,
            context@.nodes == nodes@,
            found@ == after_rules(
                to_resolve@,
                j as nat,
                rules_of(indexed@),
                full,
                nothing_found(specs.len()),
            ),
        decreases to_resolve@.len() - j,
    {
        context.search_rule(&indexed, to_resolve[j], &mut found);
        j = j + 1;
    }
    found
}

/// The members of a set that are a node or lie below it, where one is given.
pub open spec fn filtered_below(set: Set<usize>, nodes: NodesModel, required: Option<usize>) -> Set<
    usize,
> {
    Set::new(
        |el: usize|
            set.contains(el) && (required matches Some(parent) ==> lineage(nodes, el).contains(
                parent,
            )),
    )
}

/// The elements that a selector selects, in ascending order; only those that are a node or lie below
/// it, where one is given.
pub fn query_selector_all(
    nodes: &NodesTable,
    selector: &Vec<SelectorPart>,
    dom: &DomIndexes,
    hovering: &Vec<usize>,
    required_parent: Option<usize>,
) -> (r: Vec<usize>)
    requires
        acyclic(nodes@),
    ensures
        r@ == members(
            filtered_below(
                queried(parts_of(selector@), base_env(*nodes, *dom, hovering@)),
                nodes@,
                required_parent,
            ),
        ),
        forall|i: int| 0 <= i < r@.len() ==> (#[trigger] r@[i]) < usize::MAX,
    decreases 1 + selector_size(parts_of(selector@)), 2nat,
{
    let ghost spec = parts_of(selector@);
    let ghost env = base_env(*nodes, *dom, hovering@);
    let mut selectors: Vec<Vec<SelectorPart>> = Vec::new();
    let copy = copy_parts(selector);
    proof {
        lemma_selector_specs_push(selectors@, copy);
        assert(selectors_of(selectors@) =~= Seq::empty());
    }
    selectors.push(copy);
    assert(selectors_of(selectors@) =~= seq![spec]);
    let mut rules: Vec<StyleRule> = Vec::new();
    rules.push(StyleRule { kind: RuleKind::ClassName(selectors), parent: None });
    let mut to_resolve: Vec<usize> = Vec::new();
    to_resolve.push(0);
    proof {
        assert(rules_of(rules@) =~= single_rule(spec));
        assert(to_resolve@ =~= seq![0usize]);
        lemma_single_rule_size(spec);
        lemma_parents_first(single_rule(spec));
    }
    let found = search_elements_for_css_nodes(&to_resolve, &rules, nodes, dom, hovering);
    let ghost all = queried(spec, env);
    let ghost wanted = filtered_below(all, nodes@, required_parent);
    assert(all == matched_elements(found.matches@));
    let mut result: Vec<usize> = Vec::new();
    let mut at: usize = 0;
    while at < found.matches.lists.len()
        invariant
            at <= found.matches.lists@.len(),
            acyclic(nodes@),
            all == matched_elements(found.matches@),
            wanted == filtered_below(all, nodes@, required_parent),
            result@ == members_below(wanted, at as nat),
            forall|i: int| 0 <= i < result@.len() ==> (#[trigger] result@[i]) < usize::MAX,
        decreases found.matches.lists@.len() - at,
    {
        let below = match required_parent {
            Some(parent) => has_parent(nodes, at, parent),
            None => true,
        };
        if found.matches.get(at).is_some() && below {
            result.push(at);
        }
        at = at + 1;
    }
    proof {
        assert forall|el: usize| #[trigger] wanted.contains(el) implies el
            < found.matches.lists@.len() by {
            assert(children_at(found.matches@, el) is Some);
        }
        lemma_members_below_bound(
            wanted,
            found.matches.lists@.len(),
            (usize::MAX + 1) as nat,
        );
    }
    result
}

/// Where nothing stands before a step and nothing around its rule, all candidates are selected.
proof fn lemma_all_candidates_match(
    list: Seq<usize>,
    count: nat,
    rules: Seq<RuleSpec>,
    weight: Option<Specificity>,
    env: MatchEnv,
    found: FoundSpec,
)
    requires
        count <= list.len(),
        rules.len() == 1,
        rules[0].parent is None,
        rooted(rules),
        selector_at(rules, 0, 0).len() == 1,
    ensures
        matched_elements(
            after_candidates(list, count, rules, 0, 0, weight, env, found).matches,
        ) =~= matched_elements(found.matches).union(list.take(count as int).to_set()),
    decreases count,
{
    if count == 0 {
        assert(list.take(0).to_set() =~= Set::<usize>::empty());
    } else {
        lemma_all_candidates_match(list, (count - 1) as nat, rules, weight, env, found);
        let before = after_candidates(list, (count - 1) as nat, rules, 0, 0, weight, env, found);
        let after = after_candidates(list, count, rules, 0, 0, weight, env, found);
        let el = list[count - 1];
        let less = list.take(count - 1);
        let more = list.take(count as int);
        assert(rest_met(el, rules, 0, 0, env, before.asked) == (true, before.asked));
        assert forall|x: usize| matched_elements(after.matches).contains(x) == (matched_elements(
            before.matches,
        ).contains(x) || x == el) by {}
        assert forall|x: usize| more.to_set().contains(x) == (less.to_set().contains(x) || x
            == el) by {
            assert(more[count - 1] == el);
            if less.contains(x) {
                let k = choose|k: int| 0 <= k < less.len() && less[k] == x;
                assert(more[k] == x);
            }
            if more.contains(x) {
                let k = choose|k: int| 0 <= k < more.len() && more[k] == x;
                if k < count - 1 {
                    assert(less[k] == x);
                }
            }
        }
    }
}

/// A selector of one step that an index answers selects exactly the elements that the index gives.
pub proof fn lemma_simple_selector(part: PartSpec, env: MatchEnv)
    requires
        part is Class || part is Id || part is Attributes || (part matches PartSpec::Tag(tag) && tag
            != "*"@),
    ensures
        queried(seq![part], env) == (match indexed_candidates(part, env) {
            Some(set) => set,
            None => Set::empty(),
        }),
{
    let selector = seq![part];
    let rules = single_rule(selector);
    lemma_single_rule_size(selector);
    lemma_parents_first(rules);
    reveal_with_fuel(indexed_rules, 2);
    reveal_with_fuel(indexed_list, 2);
    reveal_with_fuel(indexed_parts, 2);
    let (indexed, list) = indexed_rules(rules, 1);
    assert(rules[0].kind == KindSpec::ClassName(seq![selector]));
    let (changed, after) = indexed_list(seq![selector], 1, Seq::empty());
    assert(seq![selector][0] == selector);
    assert(indexed_parts(selector, 1, Seq::empty()).0 =~= selector);
    assert(changed =~= seq![selector]);
    assert(indexed =~= rules);
    assert(list =~= Seq::empty());
    let selected = selected_sets(list, 0, env, rules_size(rules, 1));
    let full = with_selected(env, selected);
    let start = nothing_found(1);
    reveal_with_fuel(after_rules, 2);
    reveal_with_fuel(after_selectors, 2);
    let found = after_rules(seq![0usize], 1, indexed, full, start);
    assert(found == after_rule(indexed, 0, full, start));
    assert(selector_at(indexed, 0, 0) == selector);
    assert(selector.last() == part);
    assert(indexed_candidates(part, full) == indexed_candidates(part, env));
    match indexed_candidates(part, env) {
        Some(set) => {
            let all = members(set);
            lemma_members(set);
            let looked = FoundSpec { asked: start.asked, ..start };
            assert(looked == start);
            lemma_all_candidates_match(
                all,
                all.len(),
                indexed,
                Some(specificity_of(selector, 1)),
                full,
                start,
            );
            assert(all.take(all.len() as int) =~= all);
            assert(all.to_set() =~= set) by {
                assert forall|x: usize| all.to_set().contains(x) == set.contains(x) by {
                    assert(all.contains(x) == set.contains(x));
                }
            }
            assert(matched_elements(start.matches) =~= Set::empty());
            assert(matched_elements(found.matches) =~= set);
        },
        None => {
            assert(matched_elements(found.matches) =~= Set::empty());
        },
    }
}

} // verus!
