//! Which elements the rules of a style sheet select.
use fixedbitset::FixedBitSet;
use std::collections::HashSet;
use vstd::prelude::*;

use crate::document::find_place;
use crate::document::place_of;
use crate::dom::node_at;
use crate::dom::parent_of;
use crate::dom::Node;
use crate::dom::NodesModel;
use crate::matching::meets_part;
use crate::matching::siblings_of;
use crate::matching::MatchContext;
use crate::matching::MatchEnv;
use crate::selectors::lemma_part_specs;
use crate::selectors::lemma_selector_specs;
use crate::selectors::part_spec;
use crate::selectors::parts_of;
use crate::selectors::selectors_of;
use crate::selectors::PartSpec;
use crate::selectors::SelectorPart;
use crate::tree::acyclic;
use crate::tree::climbs;
use crate::tree::rank_of;

verus! {

broadcast use vstd::std_specs::hash::group_hash_axioms;

/// What a node of a style sheet is, as far as matching looks at it. A media query tells whether it
/// holds.
#[derive(Debug)]
pub enum RuleKind {
    ClassName(Vec<Vec<SelectorPart>>),
    MediaQuery(bool),
    Layer,
    Supports,
    Property,
    Variable,
    PropertyDefinition,
}

/// A node of a style sheet.
#[derive(Debug)]
pub struct StyleRule {
    pub kind: RuleKind,
    pub parent: Option<usize>,
}

/// What a [`RuleKind`] holds.
pub enum KindSpec {
    ClassName(Seq<Seq<PartSpec>>),
    MediaQuery(bool),
    Layer,
    Supports,
    Property,
    Variable,
    PropertyDefinition,
}

/// What a [`StyleRule`] holds.
pub struct RuleSpec {
    pub kind: KindSpec,
    pub parent: Option<usize>,
}

pub open spec fn kind_spec(kind: RuleKind) -> KindSpec {
    match kind {
        RuleKind::ClassName(list) => KindSpec::ClassName(selectors_of(list@)),
        RuleKind::MediaQuery(holds) => KindSpec::MediaQuery(holds),
        RuleKind::Layer => KindSpec::Layer,
        RuleKind::Supports => KindSpec::Supports,
        RuleKind::Property => KindSpec::Property,
        RuleKind::Variable => KindSpec::Variable,
        RuleKind::PropertyDefinition => KindSpec::PropertyDefinition,
    }
}

pub open spec fn rule_spec(rule: StyleRule) -> RuleSpec {
    RuleSpec { kind: kind_spec(rule.kind), parent: rule.parent }
}

pub open spec fn rules_of(list: Seq<StyleRule>) -> Seq<RuleSpec> {
    Seq::new(list.len(), |i: int| rule_spec(list[i]))
}

/// The parent of each node of a style sheet.
pub open spec fn rule_parents(rules: Seq<RuleSpec>) -> Seq<Option<usize>> {
    Seq::new(rules.len(), |i: int| rules[i].parent)
}

/// Every parent is a node, and has a smaller rank than its children.
pub open spec fn rises(parents: Seq<Option<usize>>, rank: spec_fn(int) -> nat) -> bool {
    forall|i: int|
        0 <= i < parents.len() ==> ((#[trigger] parents[i]) matches Some(parent) ==> parent
            < parents.len() && rank(parent as int) < rank(i))
}

/// Every parent is a node of the style sheet, and following parents ends.
pub open spec fn rooted(rules: Seq<RuleSpec>) -> bool {
    exists|rank: spec_fn(int) -> nat| rises(rule_parents(rules), rank)
}

pub open spec fn rule_rank(rules: Seq<RuleSpec>, css: int) -> nat {
    (choose|rank: spec_fn(int) -> nat| rises(rule_parents(rules), rank))(css)
}

/// Every parent is an earlier node.
pub open spec fn parents_first(rules: Seq<RuleSpec>) -> bool {
    forall|i: int|
        0 <= i < rules.len() ==> ((#[trigger] rules[i]).parent matches Some(parent) ==> parent < i)
}

/// Where every parent is an earlier node, following parents ends.
pub proof fn lemma_parents_first(rules: Seq<RuleSpec>)
    requires
        parents_first(rules),
    ensures
        rooted(rules),
{
    assert(rises(rule_parents(rules), |i: int| i as nat));
}

/// The parent of a node is a node, and has a smaller rank.
pub proof fn lemma_rank(rules: Seq<RuleSpec>, css: int)
    requires
        rooted(rules),
        0 <= css < rules.len(),
    ensures
        rules[css].parent matches Some(parent) ==> parent < rules.len() && rule_rank(
            rules,
            parent as int,
        ) < rule_rank(rules, css),
{
    assert(rule_parents(rules)[css] == rules[css].parent);
}

/// Whether the step before this one is about an ancestor.
pub open spec fn goes_up(part: PartSpec) -> bool {
    !(part is Tilde) && !(part is AdjacentSibling)
}

/// The nearest of an element and its ancestors that meets a step; at most `limit` of them are
/// asked.
pub open spec fn nearest_match(
    part: PartSpec,
    el: usize,
    env: MatchEnv,
    limit: Option<nat>,
    asked: Set<usize>,
) -> (Option<usize>, Set<usize>)
    decreases rank_of(env.nodes)(el),
    when acyclic(env.nodes)
{
    if limit == Some(0nat) {
        (None, asked)
    } else {
        let (met, after) = meets_part(part, el, env, asked);
        if met {
            (Some(el), after)
        } else {
            match parent_of(env.nodes, el) {
                Some(parent) => nearest_match(
                    part,
                    parent,
                    env,
                    match limit {
                        Some(rest) => Some((rest - 1) as nat),
                        None => None,
                    },
                    after,
                ),
                None => (None, after),
            }
        }
    }
}

/// The last element of a list before a place.
pub open spec fn element_before(nodes: NodesModel, list: Seq<usize>, place: int) -> Option<usize>
    decreases place,
{
    if place <= 0 || place > list.len() {
        None
    } else if node_at(nodes, list[place - 1]) matches Some(node) && node is Element {
        Some(list[place - 1])
    } else {
        element_before(nodes, list, place - 1)
    }
}

/// The element before another on the list of their parent.
pub open spec fn previous_element(env: MatchEnv, el: usize) -> Option<usize> {
    match siblings_of(env.nodes, env.children, el) {
        Some(list) => if place_of(list, el) < list.len() {
            element_before(env.nodes, list, place_of(list, el))
        } else {
            None
        },
        None => None,
    }
}

/// One of the selectors of a rule.
pub open spec fn selector_at(rules: Seq<RuleSpec>, css: int, name: int) -> Seq<PartSpec> {
    if 0 <= css < rules.len() {
        match rules[css].kind {
            KindSpec::ClassName(list) => if 0 <= name < list.len() {
                list[name]
            } else {
                Seq::empty()
            },
            _ => Seq::empty(),
        }
    } else {
        Seq::empty()
    }
}

/// The step of a selector that is the given number of steps from its end.
pub open spec fn step_at(parts: Seq<PartSpec>, nested: int) -> PartSpec {
    parts[parts.len() - 1 - nested]
}

/// How far a selector still is from its start.
pub open spec fn steps_left(parts: Seq<PartSpec>, nested: int) -> nat {
    if nested < parts.len() {
        (parts.len() - nested) as nat
    } else {
        0
    }
}

/// Whether an element or one of its ancestors meets a step of a rule, and what stands before that
/// step is met too. The elements that were asked whether they are under the pointer come back.
pub open spec fn narrowed(
    el: usize,
    rules: Seq<RuleSpec>,
    css: int,
    name: int,
    nested: int,
    immediate: bool,
    env: MatchEnv,
    asked: Set<usize>,
) -> (bool, Set<usize>)
    decreases rule_rank(rules, css), 4 * steps_left(selector_at(rules, css, name), nested) + 3, 0nat,
{
    if css < 0 || css >= rules.len() {
        (false, asked)
    } else {
        match rules[css].kind {
            KindSpec::ClassName(_) => {
                let parts = selector_at(rules, css, name);
                if nested < 0 || nested >= parts.len() {
                    (false, asked)
                } else {
                    let part = step_at(parts, nested);
                    if part is AdjacentSibling {
                        match previous_element(env, el) {
                            None => (false, asked),
                            Some(previous) => before_step(
                                previous,
                                rules,
                                css,
                                name,
                                nested,
                                false,
                                false,
                                env,
                                asked,
                            ),
                        }
                    } else if part is Tilde {
                        match siblings_of(env.nodes, env.children, el) {
                            None => (false, asked),
                            Some(list) => if place_of(list, el) < list.len() {
                                earlier_sibling(
                                    el,
                                    list,
                                    place_of(list, el) as nat,
                                    rules,
                                    css,
                                    name,
                                    nested,
                                    env,
                                    asked,
                                )
                            } else {
                                (false, asked)
                            },
                        }
                    } else {
                        let (found, after) = nearest_match(
                            part,
                            el,
                            env,
                            if immediate {
                                Some(1nat)
                            } else {
                                None
                            },
                            asked,
                        );
                        match found {
                            None => (false, after),
                            Some(matched) => before_step(
                                matched,
                                rules,
                                css,
                                name,
                                nested,
                                !(part is Ampersand) && !(part is ArrowRight),
                                part is ArrowRight || (part is Ampersand && immediate),
                                env,
                                after,
                            ),
                        }
                    }
                }
            },
            KindSpec::MediaQuery(holds) => if holds {
                above_rule(el, rules, css, false, true, env, asked)
            } else {
                (false, asked)
            },
            KindSpec::Layer | KindSpec::Supports => above_rule(
                el,
                rules,
                css,
                false,
                true,
                env,
                asked,
            ),
            _ => (false, asked),
        }
    }
}

/// Whether one of the first siblings on a list, other than the element itself, meets what stands
/// before a step.
pub open spec fn earlier_sibling(
    el: usize,
    list: Seq<usize>,
    count: nat,
    rules: Seq<RuleSpec>,
    css: int,
    name: int,
    nested: int,
    env: MatchEnv,
    asked: Set<usize>,
) -> (bool, Set<usize>)
    decreases rule_rank(rules, css), 4 * steps_left(selector_at(rules, css, name), nested) + 2, count,
{
    if count == 0 || count > list.len() {
        (false, asked)
    } else {
        let (met, before) = earlier_sibling(
            el,
            list,
            (count - 1) as nat,
            rules,
            css,
            name,
            nested,
            env,
            asked,
        );
        let sibling = list[count - 1];
        if met {
            (true, before)
        } else if sibling != el && node_at(env.nodes, sibling) is Some {
            before_step(sibling, rules, css, name, nested, false, false, env, before)
        } else {
            (false, before)
        }
    }
}

/// Whether what stands before a step of a rule is met from an element on: the steps before it and,
/// where there are none, what stands around the rule.
pub open spec fn before_step(
    el: usize,
    rules: Seq<RuleSpec>,
    css: int,
    name: int,
    nested: int,
    up: bool,
    immediate: bool,
    env: MatchEnv,
    asked: Set<usize>,
) -> (bool, Set<usize>)
    decreases rule_rank(rules, css), 4 * steps_left(selector_at(rules, css, name), nested) + 1, 0nat,
{
    let parts = selector_at(rules, css, name);
    if nested + 1 >= parts.len() {
        above_rule(el, rules, css, immediate, up, env, asked)
    } else {
        let from = if up && goes_up(step_at(parts, nested + 1)) {
            parent_of(env.nodes, el)
        } else {
            Some(el)
        };
        match from {
            Some(from) => narrowed(from, rules, css, name, nested + 1, immediate, env, asked),
            None => (false, asked),
        }
    }
}

/// Whether what stands around a rule is met from an element on.
pub open spec fn above_rule(
    el: usize,
    rules: Seq<RuleSpec>,
    css: int,
    immediate: bool,
    up: bool,
    env: MatchEnv,
    asked: Set<usize>,
) -> (bool, Set<usize>)
    decreases rule_rank(rules, css), 0nat, 0nat,
    when rooted(rules)
{
    if css < 0 || css >= rules.len() {
        (false, asked)
    } else {
        match rules[css].parent {
            None => (true, asked),
            Some(parent) => {
                proof {
                    lemma_rank(rules, css);
                }
                match rules[parent as int].kind {
                    KindSpec::ClassName(list) => any_selector(
                        el,
                        rules,
                        parent as int,
                        list.len(),
                        immediate,
                        up,
                        env,
                        asked,
                    ),
                    _ => narrowed(el, rules, parent as int, 0, 0, immediate, env, asked),
                }
            },
        }
    }
}

/// Whether one of the first selectors of a rule is met from an element on. All of them are asked.
pub open spec fn any_selector(
    el: usize,
    rules: Seq<RuleSpec>,
    css: int,
    count: nat,
    immediate: bool,
    up: bool,
    env: MatchEnv,
    asked: Set<usize>,
) -> (bool, Set<usize>)
    decreases rule_rank(rules, css), 4 * most_steps(rules, css, count) + 4, count,
{
    if count == 0 {
        (false, asked)
    } else {
        let (met, before) = any_selector(
            el,
            rules,
            css,
            (count - 1) as nat,
            immediate,
            up,
            env,
            asked,
        );
        let parts = selector_at(rules, css, count - 1);
        if parts.len() == 0 {
            (met, before)
        } else {
            let from = if up && goes_up(parts.last()) {
                parent_of(env.nodes, el)
            } else {
                Some(el)
            };
            match from {
                Some(from) => {
                    let (own, after) = narrowed(
                        from,
                        rules,
                        css,
                        count - 1,
                        0,
                        immediate,
                        env,
                        before,
                    );
                    (met || own, after)
                },
                None => (met, before),
            }
        }
    }
}

/// The length of the longest of the first selectors of a rule.
pub open spec fn most_steps(rules: Seq<RuleSpec>, css: int, count: nat) -> nat
    decreases count,
{
    if count == 0 {
        0
    } else {
        let before = most_steps(rules, css, (count - 1) as nat);
        let own = selector_at(rules, css, count - 1).len();
        if before < own {
            own
        } else {
            before
        }
    }
}

fn is_sibling_step(part: &SelectorPart) -> (r: bool)
    ensures
        r == !goes_up(part_spec(*part)),
{
    match part {
        SelectorPart::Tilde | SelectorPart::AdjacentSibling => true,
        _ => false,
    }
}

/// Whether the step before this one is about an ancestor.
pub fn walk_into_part(part: &SelectorPart) -> (r: bool)
    ensures
        r == goes_up(part_spec(*part)),
{
    !is_sibling_step(part)
}

proof fn lemma_rule(rules: Seq<StyleRule>, css: int, name: int)
    requires
        0 <= css < rules.len(),
    ensures
        rules_of(rules)[css] == rule_spec(rules[css]),
        rules[css].kind matches RuleKind::ClassName(list) ==> {
            &&& rules_of(rules)[css].kind == KindSpec::ClassName(selectors_of(list@))
            &&& selectors_of(list@).len() == list@.len()
            &&& 0 <= name < list@.len() ==> {
                &&& selector_at(rules_of(rules), css, name) == parts_of(list@[name]@)
                &&& parts_of(list@[name]@).len() == list@[name]@.len()
                &&& forall|i: int|
                    0 <= i < list@[name]@.len() ==> #[trigger] parts_of(list@[name]@)[i]
                        == part_spec(list@[name]@[i])
            }
        },
{
    match rules[css].kind {
        RuleKind::ClassName(list) => {
            lemma_selector_specs(list@, list@.len());
            if 0 <= name < list@.len() {
                lemma_part_specs(list@[name]@, list@[name]@.len());
                assert(selectors_of(list@)[name] == parts_of(list@[name]@));
            }
        },
        _ => {},
    }
}

impl<'a> MatchContext<'a> {
    /// The nearest of an element and its ancestors that meets a step; only the element itself where
    /// `only_first` is set.
    pub fn walk_for_html_match(
        &self,
        part: &SelectorPart,
        el: usize,
        only_first: bool,
        hovering_has_impact: &mut HashSet<usize>,
    ) -> (r: Option<usize>)
        requires
            acyclic(self@.nodes),
        ensures
            (r, final(hovering_has_impact)@) == nearest_match(
                part_spec(*part),
                el,
                self@,
                if only_first {
                    Some(1nat)
                } else {
                    None
                },
                old(hovering_has_impact)@,
            ),
    {
        let mut current: usize = el;
        let ghost spec = part_spec(*part);
        let ghost goal = nearest_match(
            spec,
            el,
            self@,
            if only_first {
                Some(1nat)
            } else {
                None
            },
            hovering_has_impact@,
        );
        loop
            invariant
                acyclic(self@.nodes),
                spec == part_spec(*part),
                goal == nearest_match(
                    spec,
                    current,
                    self@,
                    if only_first {
                        Some(1nat)
                    } else {
                        None
                    },
                    hovering_has_impact@,
                ),
                goal == nearest_match(
                    spec,
                    el,
                    self@,
                    if only_first {
                        Some(1nat)
                    } else {
                        None
                    },
                    old(hovering_has_impact)@,
                ),
            decreases rank_of(self@.nodes)(current),
        {
            if self.element_matches_class_part(part, current, hovering_has_impact) {
                return Some(current);
            }
            match self.nodes.parent(current) {
                Some(parent) => {
                    proof {
                        assert(climbs(self@.nodes, rank_of(self@.nodes)));
                    }
                    if only_first {
                        assert(nearest_match(
                            spec,
                            parent,
                            self@,
                            Some(0nat),
                            hovering_has_impact@,
                        ) == (None::<usize>, hovering_has_impact@));
                        return None;
                    }
                    current = parent;
                },
                None => {
                    return None;
                },
            }
        }
    }

    fn find_previous_element(&self, el: usize) -> (r: Option<usize>)
        ensures
            r == previous_element(self@, el),
    {
        let parent: usize = match self.nodes.parent(el) {
            Some(parent) => parent,
            None => {
                return None;
            },
        };
        let list = match self.dom.children_index.get(parent) {
            Some(list) => list,
            None => {
                return None;
            },
        };
        let mut place: usize = find_place(list, el);
        if place >= list.len() {
            return None;
        }
        while place > 0
            invariant
                place < list@.len(),
                previous_element(self@, el) == element_before(self@.nodes, list@, place as int),
            decreases place,
        {
            match self.nodes.get(list[place - 1]) {
                Some(Node::Element(_)) => {
                    return Some(list[place - 1]);
                },
                _ => {},
            }
            place = place - 1;
        }
        None
    }

    /// Whether an element or one of its ancestors meets a step of a rule, and what stands before
    /// that step is met too.
    pub fn narrow_elements_by_ancestors(
        &self,
        el: usize,
        rules: &Vec<StyleRule>,
        css: usize,
        name: usize,
        nested: usize,
        require_immediate_match: bool,
        hovering_has_impact: &mut HashSet<usize>,
    ) -> (r: bool)
        requires
            acyclic(self@.nodes),
            rooted(rules_of(rules@)),
        ensures
            (r, final(hovering_has_impact)@) == narrowed(
                el,
                rules_of(rules@),
                css as int,
                name as int,
                nested as int,
                require_immediate_match,
                self@,
                old(hovering_has_impact)@,
            ),
        decreases
            rule_rank(rules_of(rules@), css as int),
            4 * steps_left(
                selector_at(rules_of(rules@), css as int, name as int),
                nested as int,
            ) + 3,
            0nat,
    {
        if css >= rules.len() {
            return false;
        }
        proof {
            lemma_rule(rules@, css as int, name as int);
        }
        match &rules[css].kind {
            RuleKind::ClassName(list) => {
                if name >= list.len() {
                    return false;
                }
                let parts = &list[name];
                if nested >= parts.len() {
                    return false;
                }
                let part = &parts[parts.len() - 1 - nested];
                assert(step_at(parts_of(parts@), nested as int) == part_spec(*part));
                match part {
                    SelectorPart::AdjacentSibling => match self.find_previous_element(el) {
                        None => false,
                        Some(previous) => self.move_up_class_part(
                            previous,
                            rules,
                            css,
                            name,
                            nested,
                            false,
                            false,
                            hovering_has_impact,
                        ),
                    },
                    SelectorPart::Tilde => {
                        let parent: usize = match self.nodes.parent(el) {
                            Some(parent) => parent,
                            None => {
                                return false;
                            },
                        };
                        let siblings = match self.dom.children_index.get(parent) {
                            Some(siblings) => siblings,
                            None => {
                                return false;
                            },
                        };
                        let place: usize = find_place(siblings, el);
                        if place >= siblings.len() {
                            return false;
                        }
                        self.match_earlier_sibling(
                            el,
                            siblings,
                            place,
                            rules,
                            css,
                            name,
                            nested,
                            hovering_has_impact,
                        )
                    },
                    _ => {
                        let (up, immediate): (bool, bool) = match part {
                            SelectorPart::Ampersand => (false, require_immediate_match),
                            SelectorPart::ArrowRight => (false, true),
                            _ => (true, false),
                        };
                        match self.walk_for_html_match(
                            part,
                            el,
                            require_immediate_match,
                            hovering_has_impact,
                        ) {
                            None => false,
                            Some(matched) => self.move_up_class_part(
                                matched,
                                rules,
                                css,
                                name,
                                nested,
                                up,
                                immediate,
                                hovering_has_impact,
                            ),
                        }
                    },
                }
            },
            RuleKind::MediaQuery(holds) => if *holds {
                self.move_up_ancestor_chain(el, rules, css, false, true, hovering_has_impact)
            } else {
                false
            },
            RuleKind::Layer | RuleKind::Supports => self.move_up_ancestor_chain(
                el,
                rules,
                css,
                false,
                true,
                hovering_has_impact,
            ),
            _ => false,
        }
    }

    fn match_earlier_sibling(
        &self,
        el: usize,
        siblings: &Vec<usize>,
        count: usize,
        rules: &Vec<StyleRule>,
        css: usize,
        name: usize,
        nested: usize,
        hovering_has_impact: &mut HashSet<usize>,
    ) -> (r: bool)
        requires
            acyclic(self@.nodes),
            rooted(rules_of(rules@)),
            count <= siblings@.len(),
        ensures
            (r, final(hovering_has_impact)@) == earlier_sibling(
                el,
                siblings@,
                count as nat,
                rules_of(rules@),
                css as int,
                name as int,
                nested as int,
                self@,
                old(hovering_has_impact)@,
            ),
        decreases
            rule_rank(rules_of(rules@), css as int),
            4 * steps_left(
                selector_at(rules_of(rules@), css as int, name as int),
                nested as int,
            ) + 2,
            count,
    {
        if count == 0 {
            return false;
        }
        if self.match_earlier_sibling(
            el,
            siblings,
            count - 1,
            rules,
            css,
            name,
            nested,
            hovering_has_impact,
        ) {
            return true;
        }
        let sibling: usize = siblings[count - 1];
        if sibling != el && self.nodes.contains_key(sibling) {
            self.move_up_class_part(
                sibling,
                rules,
                css,
                name,
                nested,
                false,
                false,
                hovering_has_impact,
            )
        } else {
            false
        }
    }

    pub fn move_up_class_part(
        &self,
        el: usize,
        rules: &Vec<StyleRule>,
        css: usize,
        name: usize,
        nested: usize,
        walk_up_parent: bool,
        require_immediate_match: bool,
        hovering_has_impact: &mut HashSet<usize>,
    ) -> (r: bool)
        requires
            acyclic(self@.nodes),
            rooted(rules_of(rules@)),
        ensures
            (r, final(hovering_has_impact)@) == before_step(
                el,
                rules_of(rules@),
                css as int,
                name as int,
                nested as int,
                walk_up_parent,
                require_immediate_match,
                self@,
                old(hovering_has_impact)@,
            ),
        decreases
            rule_rank(rules_of(rules@), css as int),
            4 * steps_left(
                selector_at(rules_of(rules@), css as int, name as int),
                nested as int,
            ) + 1,
            0nat,
    {
        if css < rules.len() {
            proof {
                lemma_rule(rules@, css as int, name as int);
            }
            match &rules[css].kind {
                RuleKind::ClassName(list) => {
                    if name < list.len() {
                        let parts = &list[name];
                        if nested < parts.len() && nested + 1 < parts.len() {
                            let part = &parts[parts.len() - 1 - (nested + 1)];
                            assert(step_at(parts_of(parts@), nested + 1) == part_spec(*part));
                            let from: Option<usize> = if walk_up_parent && walk_into_part(part) {
                                self.nodes.parent(el)
                            } else {
                                Some(el)
                            };
                            return match from {
                                Some(from) => self.narrow_elements_by_ancestors(
                                    from,
                                    rules,
                                    css,
                                    name,
                                    nested + 1,
                                    require_immediate_match,
                                    hovering_has_impact,
                                ),
                                None => false,
                            };
                        }
                    }
                },
                _ => {},
            }
        }
        self.move_up_ancestor_chain(
            el,
            rules,
            css,
            require_immediate_match,
            walk_up_parent,
            hovering_has_impact,
        )
    }

    /// Whether what stands around a rule is met from an element on.
    pub fn move_up_ancestor_chain(
        &self,
        el: usize,
        rules: &Vec<StyleRule>,
        css: usize,
        require_immediate_match: bool,
        walk_up_parent: bool,
        hovering_has_impact: &mut HashSet<usize>,
    ) -> (r: bool)
        requires
            acyclic(self@.nodes),
            rooted(rules_of(rules@)),
        ensures
            (r, final(hovering_has_impact)@) == above_rule(
                el,
                rules_of(rules@),
                css as int,
                require_immediate_match,
                walk_up_parent,
                self@,
                old(hovering_has_impact)@,
            ),
        decreases rule_rank(rules_of(rules@), css as int), 0nat, 0nat,
    {
        if css >= rules.len() {
            return false;
        }
        assert(rules_of(rules@)[css as int] == rule_spec(rules@[css as int]));
        match rules[css].parent {
            None => true,
            Some(parent) => {
                proof {
                    lemma_rank(rules_of(rules@), css as int);
                    lemma_rule(rules@, parent as int, 0);
                }
                match &rules[parent].kind {
                    RuleKind::ClassName(list) => self.match_any_selector(
                        el,
                        rules,
                        parent,
                        list.len(),
                        require_immediate_match,
                        walk_up_parent,
                        hovering_has_impact,
                    ),
                    _ => self.narrow_elements_by_ancestors(
                        el,
                        rules,
                        parent,
                        0,
                        0,
                        require_immediate_match,
                        hovering_has_impact,
                    ),
                }
            },
        }
    }

    fn match_any_selector(
        &self,
        el: usize,
        rules: &Vec<StyleRule>,
        css: usize,
        count: usize,
        require_immediate_match: bool,
        walk_up_parent: bool,
        hovering_has_impact: &mut HashSet<usize>,
    ) -> (r: bool)
        requires
            acyclic(self@.nodes),
            rooted(rules_of(rules@)),
            css < rules@.len(),
            rules@[css as int].kind matches RuleKind::ClassName(list) && count <= list@.len(),
        ensures
            (r, final(hovering_has_impact)@) == any_selector(
                el,
                rules_of(rules@),
                css as int,
                count as nat,
                require_immediate_match,
                walk_up_parent,
                self@,
                old(hovering_has_impact)@,
            ),
        decreases rule_rank(rules_of(rules@), css as int), 4 * most_steps(rules_of(rules@), css as int, count as nat) + 4, count,
    {
        if count == 0 {
            return false;
        }
        let met = self.match_any_selector(
            el,
            rules,
            css,
            count - 1,
            require_immediate_match,
            walk_up_parent,
            hovering_has_impact,
        );
        proof {
            lemma_rule(rules@, css as int, count - 1);
        }
        match &rules[css].kind {
            RuleKind::ClassName(list) => {
                let parts = &list[count - 1];
                if parts.len() == 0 {
                    return met;
                }
                let part = &parts[parts.len() - 1];
                assert(parts_of(parts@).last() == part_spec(*part));
                let from: Option<usize> = if walk_up_parent && walk_into_part(part) {
                    self.nodes.parent(el)
                } else {
                    Some(el)
                };
                match from {
                    Some(from) => {
                        let own = self.narrow_elements_by_ancestors(
                            from,
                            rules,
                            css,
                            count - 1,
                            0,
                            require_immediate_match,
                            hovering_has_impact,
                        );
                        met || own
                    },
                    None => met,
                }
            },
            _ => met,
        }
    }
}

} // verus!
