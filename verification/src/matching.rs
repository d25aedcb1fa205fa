//! Whether an element meets a step of a selector.
use fixedbitset::FixedBitSet;
use std::collections::HashSet;
use vstd::prelude::*;

use crate::bits::set_bits;
use crate::css::attribute_model;
use crate::css::attribute_models;
use crate::css::AttributeModel;
use crate::css::ClassNamePartAttribute;
use crate::document::find_place;
use crate::document::lemma_place_of;
use crate::document::place_of;
use crate::dom::node_at;
use crate::dom::parent_of;
use crate::dom::Node;
use crate::dom::NodeModel;
use crate::dom::NodesModel;
use crate::dom::NodesTable;
use crate::index::sets_of;
use crate::index::DomIndexes;
use crate::index::NamedSets;
use crate::numbers::parse_text;
use crate::numbers::unsigned_value;
use crate::selectors::lemma_part_specs;
use crate::selectors::part_spec;
use crate::selectors::parts_of;
use crate::selectors::pseudo_spec;
use crate::selectors::PartSpec;
use crate::selectors::PseudoSpec;
use crate::selectors::SelectorPart;
use crate::selectors::SelectorPseudo;
use crate::text::ascii_lower;
use crate::text::same_text;
use crate::text::starts;
use crate::text::starts_with;
use crate::text::strip_prefix;
use crate::text::to_ascii_lowercase;
use crate::tree::acyclic;
use crate::tree::children_at;
use crate::tree::climbs;
use crate::tree::rank_of;
use crate::tree::ChildrenModel;

verus! {

broadcast use vstd::std_specs::hash::group_hash_axioms;

/// What elements are matched in: the document, its indexes, the nodes under the pointer, and the
/// elements that nested selectors select.
pub struct MatchContext<'a> {
    pub nodes: &'a NodesTable,
    pub dom: &'a DomIndexes,
    pub hovering: &'a Vec<usize>,
    pub selected: &'a Vec<FixedBitSet>,
}

/// What a [`MatchContext`] holds.
pub struct MatchEnv {
    pub nodes: NodesModel,
    pub children: ChildrenModel,
    pub classes: Seq<Set<usize>>,
    pub tags: NamedSets,
    pub ids: NamedSets,
    pub attributes: NamedSets,
    pub hovering: Seq<usize>,
    pub selected: Seq<Set<usize>>,
}

impl<'a> View for MatchContext<'a> {
    type V = MatchEnv;

    open spec fn view(&self) -> MatchEnv {
        MatchEnv {
            nodes: self.nodes@,
            children: self.dom.children_index@,
            classes: self.dom.class_sets(),
            tags: self.dom.tag_elements@,
            ids: self.dom.id_elements@,
            attributes: self.dom.attribute_elements@,
            hovering: self.hovering@,
            selected: sets_of(self.selected@),
        }
    }
}

/// Whether an element meets a condition on an attribute.
pub open spec fn attribute_holds(node: NodeModel, attribute: AttributeModel) -> bool {
    match attribute {
        AttributeModel::KeyValue(key, value) => node.attribute(key) == Some(value),
        AttributeModel::Key(key) => node.attribute(key) is Some,
    }
}

/// Whether an element meets all conditions on attributes.
pub open spec fn attributes_hold(node: NodeModel, attributes: Seq<AttributeModel>) -> bool {
    forall|i: int| 0 <= i < attributes.len() ==> attribute_holds(node, #[trigger] attributes[i])
}

pub fn element_matched_attributes(node: &Node, attributes: &Vec<ClassNamePartAttribute>) -> (r: bool)
    ensures
        r == (node@ is Element && attributes_hold(node@, attribute_models(attributes@))),
{
    let element = match node {
        Node::Element(element) => element,
        _ => {
            return false;
        },
    };
    let ghost models = attribute_models(attributes@);
    let mut at: usize = 0;
    while at < attributes.len()
        invariant
            at <= attributes@.len(),
            models == attribute_models(attributes@),
            *node == Node::Element(*element),
            forall|i: int| 0 <= i < at ==> attribute_holds(node@, #[trigger] models[i]),
        decreases attributes@.len() - at,
    {
        assert(models[at as int] == attribute_model(attributes@[at as int]));
        let holds = match &attributes[at] {
            ClassNamePartAttribute::KeyValue((key, value)) => match element.attributes.get_str(
                key.as_str(),
            ) {
                Some(own) => same_text(own.as_str(), value.as_str()),
                None => false,
            },
            ClassNamePartAttribute::Key(key) => element.attributes.contains_key(key.as_str()),
        };
        if !holds {
            assert(!attribute_holds(node@, models[at as int]));
            return false;
        }
        at = at + 1;
    }
    true
}

/// The list on which a node stands: the children of its parent.
pub open spec fn siblings_of(nodes: NodesModel, children: ChildrenModel, el: usize) -> Option<
    Seq<usize>,
> {
    match parent_of(nodes, el) {
        Some(parent) => children_at(children, parent),
        None => None,
    }
}

/// Whether a node is an element with the same tag as another.
pub open spec fn same_tag(nodes: NodesModel, el: usize, other: usize) -> bool {
    match (node_at(nodes, el), node_at(nodes, other)) {
        (
            Some(NodeModel::Element { tag, attributes, parent }),
            Some(NodeModel::Element { tag: other_tag, attributes: _, parent: _ }),
        ) => tag == other_tag,
        _ => false,
    }
}

/// The nodes of a list that are elements with the tag of `el`.
pub open spec fn of_type(nodes: NodesModel, list: Seq<usize>, el: usize) -> Seq<usize>
    decreases list.len(),
{
    if list.len() == 0 {
        Seq::empty()
    } else if same_tag(nodes, el, list.last()) {
        of_type(nodes, list.drop_last(), el).push(list.last())
    } else {
        of_type(nodes, list.drop_last(), el)
    }
}

/// Whether a node stands at the place of a list that a text names, counted from one.
pub open spec fn stands_at(list: Seq<usize>, el: usize, n: Seq<char>) -> bool {
    match unsigned_value(n, 10, usize::MAX as int) {
        Some(target) => place_of(list, el) < list.len() && place_of(list, el) + 1 == target,
        None => false,
    }
}

/// The value of the attribute `lang` of the nearest of a node and its ancestors that has one.
pub open spec fn language_of(nodes: NodesModel, el: usize) -> Option<Seq<char>>
    decreases rank_of(nodes)(el),
    when acyclic(nodes)
{
    match node_at(nodes, el) {
        None => None,
        Some(node) => match node.attribute("lang"@) {
            Some(lang) => Some(lang),
            None => match parent_of(nodes, el) {
                Some(parent) => language_of(nodes, parent),
                None => None,
            },
        },
    }
}

/// Whether a language is the wanted one, in any case, or a variety of it.
pub open spec fn speaks(lang: Seq<char>, target: Seq<char>) -> bool {
    ascii_lower(lang) == ascii_lower(target) || (starts(lang, target) && starts(
        lang.skip(target.len() as int),
        "-"@,
    ))
}

pub open spec fn is_selected(selected: Seq<Set<usize>>, place: usize, el: usize) -> bool {
    place < selected.len() && selected[place as int].contains(el)
}

pub open spec fn in_some(selected: Seq<Set<usize>>, places: Seq<usize>, el: usize) -> bool {
    exists|i: int| 0 <= i < places.len() && is_selected(selected, #[trigger] places[i], el)
}

/// Whether an element has a pseudo class.
pub open spec fn has_pseudo(class: PseudoSpec, el: usize, env: MatchEnv) -> bool {
    match class {
        PseudoSpec::Root => true,
        PseudoSpec::IndexedNot(place) => !is_selected(env.selected, place, el),
        PseudoSpec::IndexedIs(places) => in_some(env.selected, places, el),
        PseudoSpec::IndexedWhere(places) => in_some(env.selected, places, el),
        PseudoSpec::Hover => env.hovering.contains(el),
        PseudoSpec::FirstChild => siblings_of(env.nodes, env.children, el) matches Some(list)
            && list.len() > 0 && list[0] == el,
        PseudoSpec::LastChild => siblings_of(env.nodes, env.children, el) matches Some(list)
            && list.len() > 0 && list.last() == el,
        PseudoSpec::OnlyChild => siblings_of(env.nodes, env.children, el) matches Some(list)
            && list.len() == 1 && list[0] == el,
        PseudoSpec::NthChild(n) => siblings_of(env.nodes, env.children, el) matches Some(list)
            && stands_at(list, el, n),
        PseudoSpec::NthLastChild(n) => siblings_of(env.nodes, env.children, el) matches Some(list)
            && stands_at(list.reverse(), el, n),
        PseudoSpec::FirstOfType => siblings_of(env.nodes, env.children, el) matches Some(list)
            && of_type(env.nodes, list, el).len() > 0 && of_type(env.nodes, list, el)[0] == el,
        PseudoSpec::NthOfType(n) => siblings_of(env.nodes, env.children, el) matches Some(list)
            && stands_at(of_type(env.nodes, list, el), el, n),
        PseudoSpec::Empty => match children_at(env.children, el) {
            Some(list) => list.len() == 0,
            None => true,
        },
        PseudoSpec::Link => node_at(env.nodes, el) matches Some(node) && node.has_tag("a"@)
            && node.attribute("href"@) is Some,
        PseudoSpec::Disabled => node_at(env.nodes, el) matches Some(node) && node.attribute(
            "disabled"@,
        ) is Some,
        PseudoSpec::Checked => node_at(env.nodes, el) matches Some(node) && node.attribute(
            "checked"@,
        ) is Some,
        PseudoSpec::Lang(target) => language_of(env.nodes, el) matches Some(lang) && speaks(
            lang,
            target,
        ),
        _ => false,
    }
}

/// Whether an element meets a step of a selector, and the elements for which it was asked so far
/// whether they are under the pointer.
pub open spec fn meets_part(part: PartSpec, el: usize, env: MatchEnv, asked: Set<usize>) -> (
    bool,
    Set<usize>,
)
    decreases part, 0nat,
{
    match part {
        PartSpec::Class(class) => (is_selected(env.classes, class, el), asked),
        PartSpec::Id(id) => (
            node_at(env.nodes, el) matches Some(node) && node.attribute("id"@) == Some(id),
            asked,
        ),
        PartSpec::ArrowRight
        | PartSpec::Ampersand
        | PartSpec::Tilde
        | PartSpec::AdjacentSibling => (true, asked),
        PartSpec::Pseudo(class) => (
            has_pseudo(class, el, env),
            if class is Hover {
                asked.insert(el)
            } else {
                asked
            },
        ),
        PartSpec::Tag(tag) => (
            node_at(env.nodes, el) matches Some(node) && (if tag == "*"@ {
                node is Element
            } else {
                node.has_tag(tag)
            }),
            asked,
        ),
        PartSpec::Attributes(attributes) => (
            node_at(env.nodes, el) matches Some(node) && node is Element && attributes_hold(
                node,
                attributes,
            ),
            asked,
        ),
        PartSpec::Combined(parts) => meets_parts(parts, parts.len(), el, env, asked),
    }
}

/// Whether an element meets the first of several steps, asked one after the other up to the first
/// that it does not meet.
pub open spec fn meets_parts(
    parts: Seq<PartSpec>,
    count: nat,
    el: usize,
    env: MatchEnv,
    asked: Set<usize>,
) -> (bool, Set<usize>)
    decreases parts, count,
{
    if count == 0 || count > parts.len() {
        (true, asked)
    } else {
        let (met, before) = meets_parts(parts, (count - 1) as nat, el, env, asked);
        if met {
            meets_part(parts[count - 1], el, env, before)
        } else {
            (false, before)
        }
    }
}

proof fn lemma_not_met(
    parts: Seq<PartSpec>,
    count: nat,
    more: nat,
    el: usize,
    env: MatchEnv,
    asked: Set<usize>,
)
    requires
        count <= more <= parts.len(),
        !meets_parts(parts, count, el, env, asked).0,
    ensures
        meets_parts(parts, more, el, env, asked) == meets_parts(parts, count, el, env, asked),
    decreases more,
{
    if count < more {
        lemma_not_met(parts, count, (more - 1) as nat, el, env, asked);
    }
}

fn contains_number(list: &Vec<usize>, x: usize) -> (r: bool)
    ensures
        r == list@.contains(x),
{
    let at: usize = find_place(list, x);
    proof {
        lemma_place_of(list@, x);
        if at < list@.len() {
            assert(list@[at as int] == x);
        }
    }
    at < list.len()
}

fn in_selected(selected: &Vec<FixedBitSet>, place: usize, el: usize) -> (r: bool)
    ensures
        r == is_selected(sets_of(selected@), place, el),
{
    if place < selected.len() {
        assert(sets_of(selected@)[place as int] == set_bits(selected@[place as int]));
        selected[place].contains(el)
    } else {
        false
    }
}

fn in_any_selected(selected: &Vec<FixedBitSet>, places: &Vec<usize>, el: usize) -> (r: bool)
    ensures
        r == in_some(sets_of(selected@), places@, el),
{
    let mut at: usize = 0;
    while at < places.len()
        invariant
            at <= places@.len(),
            forall|i: int|
                0 <= i < at ==> !is_selected(sets_of(selected@), #[trigger] places@[i], el),
        decreases places@.len() - at,
    {
        if in_selected(selected, places[at], el) {
            return true;
        }
        at = at + 1;
    }
    false
}

fn check_place(list: &Vec<usize>, el: usize, n: &str) -> (r: bool)
    ensures
        r == stands_at(list@, el, n@),
{
    match parse_text(n, usize::MAX as u64) {
        Some(target) => {
            let place: usize = find_place(list, el);
            place < list.len() && (place as u64) < target && place as u64 == target - 1
        },
        None => false,
    }
}

fn reversed(list: &Vec<usize>) -> (r: Vec<usize>)
    ensures
        r@ == list@.reverse(),
{
    let mut result: Vec<usize> = Vec::new();
    let mut at: usize = list.len();
    while at > 0
        invariant
            at <= list@.len(),
            result@.len() == list@.len() - at,
            forall|i: int|
                0 <= i < result@.len() ==> #[trigger] result@[i] == list@[list@.len() - 1 - i],
        decreases at,
    {
        at = at - 1;
        result.push(list[at]);
    }
    assert(result@ =~= list@.reverse());
    result
}

fn has_same_tag(nodes: &NodesTable, el: usize, other: usize) -> (r: bool)
    ensures
        r == same_tag(nodes@, el, other),
{
    match (nodes.get(el), nodes.get(other)) {
        (Some(Node::Element(element)), Some(Node::Element(sibling))) => same_text(
            element.tag.as_str(),
            sibling.tag.as_str(),
        ),
        _ => false,
    }
}

fn select_type(nodes: &NodesTable, list: &Vec<usize>, el: usize) -> (r: Vec<usize>)
    ensures
        r@ == of_type(nodes@, list@, el),
{
    let mut result: Vec<usize> = Vec::new();
    let mut at: usize = 0;
    while at < list.len()
        invariant
            at <= list@.len(),
            result@ == of_type(nodes@, list@.take(at as int), el),
        decreases list@.len() - at,
    {
        assert(list@.take(at + 1).drop_last() =~= list@.take(at as int));
        if has_same_tag(nodes, el, list[at]) {
            result.push(list[at]);
        }
        at = at + 1;
    }
    assert(list@.take(list@.len() as int) =~= list@);
    result
}

fn find_language(nodes: &NodesTable, el: usize) -> (r: Option<String>)
    requires
        acyclic(nodes@),
    ensures
        match (r, language_of(nodes@, el)) {
            (Some(lang), Some(model)) => lang@ == model,
            (None, None) => true,
            _ => false,
        },
{
    let mut current: usize = el;
    loop
        invariant
            acyclic(nodes@),
            language_of(nodes@, el) == language_of(nodes@, current),
        decreases rank_of(nodes@)(current),
    {
        match nodes.get(current) {
            None => {
                return None;
            },
            Some(node) => {
                match node {
                    Node::Element(element) => match element.attributes.get_str("lang") {
                        Some(lang) => {
                            return Some(lang.clone());
                        },
                        None => {},
                    },
                    _ => {},
                }
                match node.get_parent() {
                    Some(parent) => {
                        proof {
                            assert(climbs(nodes@, rank_of(nodes@)));
                            assert(parent_of(nodes@, current) == Some(parent));
                        }
                        current = parent;
                    },
                    None => {
                        return None;
                    },
                }
            },
        }
    }
}

fn check_language(lang: &str, target: &str) -> (r: bool)
    ensures
        r == speaks(lang@, target@),
{
    let lower = to_ascii_lowercase(lang);
    let wanted = to_ascii_lowercase(target);
    if same_text(lower.as_str(), wanted.as_str()) {
        return true;
    }
    match strip_prefix(lang, target) {
        Some(rest) => starts_with(rest.as_str(), "-"),
        None => false,
    }
}

fn has_attribute(nodes: &NodesTable, el: usize, name: &str) -> (r: bool)
    ensures
        r == (node_at(nodes@, el) matches Some(node) && node.attribute(name@) is Some),
{
    match nodes.get(el) {
        Some(Node::Element(element)) => element.attributes.contains_key(name),
        _ => false,
    }
}

impl<'a> MatchContext<'a> {
    fn siblings(&self, el: usize) -> (r: Option<&Vec<usize>>)
        ensures
            match (r, siblings_of(self@.nodes, self@.children, el)) {
                (Some(list), Some(model)) => list@ == model,
                (None, None) => true,
                _ => false,
            },
    {
        match self.nodes.parent(el) {
            Some(parent) => self.dom.children_index.get(parent),
            None => None,
        }
    }

    fn matches_pseudo(&self, class: &SelectorPseudo, el: usize) -> (r: bool)
        requires
            acyclic(self@.nodes),
        ensures
            r == has_pseudo(pseudo_spec(*class), el, self@),
    {
        match class {
            SelectorPseudo::Root => true,
            SelectorPseudo::IndexedNot(place) => !in_selected(self.selected, *place, el),
            SelectorPseudo::IndexedIs(places) => in_any_selected(self.selected, places, el),
            SelectorPseudo::IndexedWhere(places) => in_any_selected(self.selected, places, el),
            SelectorPseudo::Hover => contains_number(self.hovering, el),
            SelectorPseudo::FirstChild => match self.siblings(el) {
                Some(list) => list.len() > 0 && list[0] == el,
                None => false,
            },
            SelectorPseudo::LastChild => match self.siblings(el) {
                Some(list) => list.len() > 0 && list[list.len() - 1] == el,
                None => false,
            },
            SelectorPseudo::OnlyChild => match self.siblings(el) {
                Some(list) => list.len() == 1 && list[0] == el,
                None => false,
            },
            SelectorPseudo::NthChild(n) => match self.siblings(el) {
                Some(list) => check_place(list, el, n.as_str()),
                None => false,
            },
            SelectorPseudo::NthLastChild(n) => match self.siblings(el) {
                Some(list) => {
                    let list = reversed(list);
                    check_place(&list, el, n.as_str())
                },
                None => false,
            },
            SelectorPseudo::FirstOfType => match self.siblings(el) {
                Some(list) => {
                    let list = select_type(self.nodes, list, el);
                    list.len() > 0 && list[0] == el
                },
                None => false,
            },
            SelectorPseudo::NthOfType(n) => match self.siblings(el) {
                Some(list) => {
                    let list = select_type(self.nodes, list, el);
                    check_place(&list, el, n.as_str())
                },
                None => false,
            },
            SelectorPseudo::Empty => match self.dom.children_index.get(el) {
                Some(list) => list.len() == 0,
                None => true,
            },
            SelectorPseudo::Link => match self.nodes.get(el) {
                Some(node) => node.is_element("a") && has_attribute(self.nodes, el, "href"),
                None => false,
            },
            SelectorPseudo::Disabled => has_attribute(self.nodes, el, "disabled"),
            SelectorPseudo::Checked => has_attribute(self.nodes, el, "checked"),
            SelectorPseudo::Lang(target) => match find_language(self.nodes, el) {
                Some(lang) => check_language(lang.as_str(), target.as_str()),
                None => false,
            },
            SelectorPseudo::Visited
            | SelectorPseudo::Not(_)
            | SelectorPseudo::Is(_)
            | SelectorPseudo::Where(_)
            | SelectorPseudo::Other => false,
        }
    }

    /// Whether an element meets a step of a selector. The elements for which it is asked whether
    /// they are under the pointer are collected.
    pub fn element_matches_class_part(
        &self,
        part: &SelectorPart,
        el: usize,
        hovering_has_impact: &mut HashSet<usize>,
    ) -> (r: bool)
        requires
            acyclic(self@.nodes),
        ensures
            (r, final(hovering_has_impact)@) == meets_part(
                part_spec(*part),
                el,
                self@,
                old(hovering_has_impact)@,
            ),
        decreases *part, 0nat,
    {
        match part {
            SelectorPart::Class(class) => in_selected(&self.dom.class_elements, *class, el),
            SelectorPart::Id(id) => match self.nodes.get(el) {
                Some(Node::Element(element)) => match element.attributes.get_str("id") {
                    Some(own) => same_text(own.as_str(), id.as_str()),
                    None => false,
                },
                _ => false,
            },
            SelectorPart::ArrowRight
            | SelectorPart::Ampersand
            | SelectorPart::Tilde
            | SelectorPart::AdjacentSibling => true,
            SelectorPart::Pseudo(class) => {
                let hovers = match class {
                    SelectorPseudo::Hover => true,
                    _ => false,
                };
                if hovers {
                    hovering_has_impact.insert(el);
                }
                self.matches_pseudo(class, el)
            },
            SelectorPart::Tag(tag) => match self.nodes.get(el) {
                Some(Node::Element(element)) => same_text(tag.as_str(), "*") || same_text(
                    element.tag.as_str(),
                    tag.as_str(),
                ),
                _ => false,
            },
            SelectorPart::Attributes(attributes) => match self.nodes.get(el) {
                Some(node) => element_matched_attributes(node, attributes),
                None => false,
            },
            SelectorPart::Combined(parts) => self.matches_parts(parts, el, hovering_has_impact),
        }
    }

    fn matches_parts(
        &self,
        parts: &Vec<SelectorPart>,
        el: usize,
        hovering_has_impact: &mut HashSet<usize>,
    ) -> (r: bool)
        requires
            acyclic(self@.nodes),
        ensures
            (r, final(hovering_has_impact)@) == meets_parts(
                parts_of(parts@),
                parts_of(parts@).len(),
                el,
                self@,
                old(hovering_has_impact)@,
            ),
        decreases parts@, 1nat,
    {
        let ghost specs = parts_of(parts@);
        let ghost start = hovering_has_impact@;
        proof {
            lemma_part_specs(parts@, parts@.len());
        }
        let mut at: usize = 0;
        while at < parts.len()
            invariant
                at <= parts@.len(),
                acyclic(self@.nodes),
                start == old(hovering_has_impact)@,
                specs == parts_of(parts@),
                specs.len() == parts@.len(),
                forall|i: int|
                    0 <= i < parts@.len() ==> #[trigger] specs[i] == part_spec(parts@[i]),
                (true, hovering_has_impact@) == meets_parts(specs, at as nat, el, self@, start),
            decreases parts@.len() - at,
        {
            assert(specs[at as int] == part_spec(parts@[at as int]));
            if !self.element_matches_class_part(&parts[at], el, hovering_has_impact) {
                proof {
                    lemma_not_met(specs, (at + 1) as nat, specs.len(), el, self@, start);
                }
                return false;
            }
            at = at + 1;
        }
        true
    }
}

} // verus!
