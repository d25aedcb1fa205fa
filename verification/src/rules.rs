//! Style sheets in the form in which elements are matched against them.
use vstd::prelude::*;

use crate::cascade::css_models;
use crate::cascade::holds_declarations;
use crate::cascade::nodes_to_resolve;
use crate::css::attribute_model;
use crate::css::attribute_models;
use crate::css::part_model;
use crate::css::part_models;
use crate::css::ClassNamePart;
use crate::css::ClassNamePartAttribute;
use crate::css::PartModel;
use crate::css::PseudoClass;
use crate::css::PseudoModel;
use crate::index::place_of_text;
use crate::index::with_text;
use crate::dom::NodesTable;
use crate::index::ClassIndexes;
use crate::index::DomIndexes;
use crate::query::base_env;
use crate::query::search_elements_for_css_nodes;
use crate::query::searched;
use crate::query::Found;
use crate::search::lemma_parents_first;
use crate::search::parents_first;
use crate::search::rooted;
use crate::search::rule_spec;
use crate::search::rules_of;
use crate::search::KindSpec;
use crate::search::RuleKind;
use crate::search::RuleSpec;
use crate::search::StyleRule;
use crate::selectors::lemma_part_specs_push;
use crate::selectors::lemma_selector_specs_push;
use crate::selectors::part_spec;
use crate::selectors::parts_of;
use crate::selectors::selectors_of;
use crate::selectors::PartSpec;
use crate::selectors::PseudoSpec;
use crate::selectors::SelectorPart;
use crate::selectors::SelectorPseudo;
use crate::stylesheet::in_order;
use crate::stylesheet::parts_view;
use crate::stylesheet::CssNodeModel;
use crate::stylesheet::Node;
use crate::tree::acyclic;

verus! {

/// A step of a selector with its classes named by number; classes without a number get one.
pub open spec fn numbered_part(part: PartModel, names: Seq<Seq<char>>) -> (
    PartSpec,
    Seq<Seq<char>>,
)
    decreases part, 0nat,
{
    match part {
        PartModel::Class(name) => (
            PartSpec::Class(place_of_text(names, name) as usize),
            with_text(names, name),
        ),
        PartModel::Id(id) => (PartSpec::Id(id), names),
        PartModel::Pseudo(class) => match class {
            PseudoModel::Root => (PartSpec::Pseudo(PseudoSpec::Root), names),
            PseudoModel::Hover => (PartSpec::Pseudo(PseudoSpec::Hover), names),
            PseudoModel::Not(parts) => {
                let (selector, after) = numbered_parts(parts, parts.len(), names);
                (PartSpec::Pseudo(PseudoSpec::Not(selector)), after)
            },
            _ => (PartSpec::Pseudo(PseudoSpec::Other), names),
        },
        PartModel::Attributes(attributes) => (PartSpec::Attributes(attributes), names),
        PartModel::Tag(tag) => (PartSpec::Tag(tag), names),
        PartModel::Combined(parts) => {
            let (combined, after) = numbered_parts(parts, parts.len(), names);
            (PartSpec::Combined(combined), after)
        },
        PartModel::ArrowRight => (PartSpec::ArrowRight, names),
        PartModel::Ampersand => (PartSpec::Ampersand, names),
    }
}

/// The first steps of a selector with classes named by number.
pub open spec fn numbered_parts(parts: Seq<PartModel>, count: nat, names: Seq<Seq<char>>) -> (
    Seq<PartSpec>,
    Seq<Seq<char>>,
)
    decreases parts, count,
{
    if count == 0 || count > parts.len() {
        (Seq::empty(), names)
    } else {
        let (before, between) = numbered_parts(parts, (count - 1) as nat, names);
        let (part, after) = numbered_part(parts[count - 1], between);
        (before.push(part), after)
    }
}

/// The first selectors of a rule with classes named by number.
pub open spec fn numbered_selectors(
    list: Seq<Seq<PartModel>>,
    count: nat,
    names: Seq<Seq<char>>,
) -> (Seq<Seq<PartSpec>>, Seq<Seq<char>>)
    decreases count,
{
    if count == 0 || count > list.len() {
        (Seq::empty(), names)
    } else {
        let (before, between) = numbered_selectors(list, (count - 1) as nat, names);
        let (selector, after) = numbered_parts(list[count - 1], list[count - 1].len(), between);
        (before.push(selector), after)
    }
}

/// The first nodes of a style sheet as rules. Whether a media query holds is given for each node.
pub open spec fn numbered_rules(
    nodes: Seq<CssNodeModel>,
    count: nat,
    holds: Seq<bool>,
    names: Seq<Seq<char>>,
) -> (Seq<RuleSpec>, Seq<Seq<char>>)
    decreases count,
{
    if count == 0 || count > nodes.len() {
        (Seq::empty(), names)
    } else {
        let (before, between) = numbered_rules(nodes, (count - 1) as nat, holds, names);
        let (kind, after) = match nodes[count - 1] {
            CssNodeModel::ClassName { names: _, parts, parent } => {
                let (selectors, after) = numbered_selectors(parts, parts.len(), between);
                (KindSpec::ClassName(selectors), after)
            },
            CssNodeModel::MediaQuery { criterias, parent } => (
                KindSpec::MediaQuery(count - 1 < holds.len() && holds[count - 1]),
                between,
            ),
            CssNodeModel::Layer { name, parent } => (KindSpec::Layer, between),
            CssNodeModel::Variable { name, value, parent } => (KindSpec::Variable, between),
            CssNodeModel::Property { name, value, important, parent } => (
                KindSpec::Property,
                between,
            ),
            CssNodeModel::PropertyDefinition { name, parent } => (
                KindSpec::PropertyDefinition,
                between,
            ),
        };
        (before.push(RuleSpec { kind, parent: nodes[count - 1].parent_idx() }), after)
    }
}

/// The rules have the parents that the nodes of the style sheet have.
proof fn lemma_numbered_rules(
    nodes: Seq<CssNodeModel>,
    count: nat,
    holds: Seq<bool>,
    names: Seq<Seq<char>>,
)
    requires
        count <= nodes.len(),
    ensures
        numbered_rules(nodes, count, holds, names).0.len() == count,
        forall|i: int|
            0 <= i < count ==> (#[trigger] numbered_rules(nodes, count, holds, names).0[i]).parent
                == nodes[i].parent_idx(),
    decreases count,
{
    if count > 0 {
        lemma_numbered_rules(nodes, (count - 1) as nat, holds, names);
        let before = numbered_rules(nodes, (count - 1) as nat, holds, names).0;
        let after = numbered_rules(nodes, count, holds, names).0;
        assert forall|i: int| 0 <= i < count implies (#[trigger] after[i]).parent
            == nodes[i].parent_idx() by {
            if i < count - 1 {
                assert(after[i] == before[i]);
            }
        }
    }
}

/// Where every parent is an earlier node of the style sheet, the rules can be searched for.
pub proof fn lemma_rules_in_order(
    nodes: Seq<CssNodeModel>,
    holds: Seq<bool>,
    names: Seq<Seq<char>>,
)
    requires
        in_order(nodes),
    ensures
        rooted(numbered_rules(nodes, nodes.len(), holds, names).0),
{
    let rules = numbered_rules(nodes, nodes.len(), holds, names).0;
    lemma_numbered_rules(nodes, nodes.len(), holds, names);
    assert(parents_first(rules));
    lemma_parents_first(rules);
}

fn copy_attributes(list: &Vec<ClassNamePartAttribute>) -> (r: Vec<ClassNamePartAttribute>)
    ensures
        attribute_models(r@) == attribute_models(list@),
{
    let mut copy: Vec<ClassNamePartAttribute> = Vec::new();
    let mut at: usize = 0;
    while at < list.len()
        invariant
            at <= list@.len(),
            copy@.len() == at,
            forall|i: int|
                0 <= i < at ==> attribute_model(#[trigger] copy@[i]) == attribute_model(list@[i]),
        decreases list@.len() - at,
    {
        let attribute = match &list[at] {
            ClassNamePartAttribute::KeyValue((key, value)) => ClassNamePartAttribute::KeyValue(
                (key.clone(), value.clone()),
            ),
            ClassNamePartAttribute::Key(key) => ClassNamePartAttribute::Key(key.clone()),
        };
        copy.push(attribute);
        at = at + 1;
    }
    assert(attribute_models(copy@) =~= attribute_models(list@));
    copy
}

fn number_part(part: &ClassNamePart, classes: &mut ClassIndexes) -> (r: SelectorPart)
    ensures
        (part_spec(r), final(classes)@) == numbered_part(part_model(*part), old(classes)@),
    decreases *part, 0nat,
{
    match part {
        ClassNamePart::Class(name) => {
            let (_, idx): (bool, usize) = classes.upsert_definition(name.as_str());
            SelectorPart::Class(idx)
        },
        ClassNamePart::Id(id) => SelectorPart::Id(id.clone()),
        ClassNamePart::PseudoClass(class) => match class {
            PseudoClass::Root => SelectorPart::Pseudo(SelectorPseudo::Root),
            PseudoClass::Hover => SelectorPart::Pseudo(SelectorPseudo::Hover),
            PseudoClass::Not(parts) => {
                proof {
                    lemma_part_models_len(parts@, parts@.len());
                }
                SelectorPart::Pseudo(SelectorPseudo::Not(number_parts(parts, classes)))
            },
            _ => SelectorPart::Pseudo(SelectorPseudo::Other),
        },
        ClassNamePart::Attributes(list) => SelectorPart::Attributes(copy_attributes(list)),
        ClassNamePart::Tag(tag) => SelectorPart::Tag(tag.clone()),
        ClassNamePart::Combined(parts) => {
            proof {
                lemma_part_models_len(parts@, parts@.len());
            }
            SelectorPart::Combined(number_parts(parts, classes))
        },
        ClassNamePart::ArrowRight => SelectorPart::ArrowRight,
        ClassNamePart::Ampersand => SelectorPart::Ampersand,
    }
}

proof fn lemma_part_models_len(list: Seq<ClassNamePart>, count: nat)
    requires
        count <= list.len(),
    ensures
        part_models(list, count).len() == count,
        forall|i: int|
            0 <= i < count ==> #[trigger] part_models(list, count)[i] == part_model(list[i]),
    decreases count,
{
    if count > 0 {
        lemma_part_models_len(list, (count - 1) as nat);
    }
}

/// The steps of a selector with their classes named by number.
pub fn number_parts(parts: &Vec<ClassNamePart>, classes: &mut ClassIndexes) -> (r: Vec<SelectorPart>)
    ensures
        (parts_of(r@), final(classes)@) == numbered_parts(
            part_models(parts@, parts@.len()),
            parts@.len(),
            old(classes)@,
        ),
    decreases parts@, 1nat,
{
    let ghost models = part_models(parts@, parts@.len());
    let ghost start = classes@;
    proof {
        lemma_part_models_len(parts@, parts@.len());
    }
    let mut list: Vec<SelectorPart> = Vec::new();
    let mut at: usize = 0;
    while at < parts.len()
        invariant
            at <= parts@.len(),
            models == part_models(parts@, parts@.len()),
            models.len() == parts@.len(),
            forall|i: int| 0 <= i < parts@.len() ==> #[trigger] models[i] == part_model(parts@[i]),
            (parts_of(list@), classes@) == numbered_parts(models, at as nat, start),
        decreases parts@.len() - at,
    {
        assert(models[at as int] == part_model(parts@[at as int]));
        let part = number_part(&parts[at], classes);
        proof {
            lemma_part_specs_push(list@, part);
        }
        list.push(part);
        at = at + 1;
    }
    list
}

fn number_selectors(selectors: &Vec<Vec<ClassNamePart>>, classes: &mut ClassIndexes) -> (r: Vec<
    Vec<SelectorPart>,
>)
    ensures
        (selectors_of(r@), final(classes)@) == numbered_selectors(
            parts_view(selectors@),
            selectors@.len(),
            old(classes)@,
        ),
{
    let ghost models = parts_view(selectors@);
    let ghost start = classes@;
    let mut list: Vec<Vec<SelectorPart>> = Vec::new();
    let mut at: usize = 0;
    while at < selectors.len()
        invariant
            at <= selectors@.len(),
            models == parts_view(selectors@),
            (selectors_of(list@), classes@) == numbered_selectors(models, at as nat, start),
        decreases selectors@.len() - at,
    {
        proof {
            lemma_part_models_len(selectors@[at as int]@, selectors@[at as int]@.len());
            assert(models[at as int] == part_models(
                selectors@[at as int]@,
                selectors@[at as int]@.len(),
            ));
        }
        let selector = number_parts(&selectors[at], classes);
        proof {
            lemma_selector_specs_push(list@, selector);
        }
        list.push(selector);
        at = at + 1;
    }
    list
}

/// The nodes of a style sheet as rules. Whether a media query holds is given for each node.
pub fn number_rules(nodes: &Vec<Node>, holds: &Vec<bool>, classes: &mut ClassIndexes) -> (r: Vec<
    StyleRule,
>)
    ensures
        (rules_of(r@), final(classes)@) == numbered_rules(
            css_models(nodes@),
            nodes@.len(),
            holds@,
            old(classes)@,
        ),
{
    let ghost models = css_models(nodes@);
    let ghost start = classes@;
    let mut list: Vec<StyleRule> = Vec::new();
    let mut at: usize = 0;
    assert(rules_of(list@) =~= Seq::empty());
    while at < nodes.len()
        invariant
            at <= nodes@.len(),
            models == css_models(nodes@),
            (rules_of(list@), classes@) == numbered_rules(models, at as nat, holds@, start),
        decreases nodes@.len() - at,
    {
        let ghost before = rules_of(list@);
        assert(models[at as int] == nodes@[at as int]@);
        let kind = match &nodes[at] {
            Node::ClassName(node) => RuleKind::ClassName(
                number_selectors(&node.name_parts, classes),
            ),
            Node::MediaQuery(_) => RuleKind::MediaQuery(at < holds.len() && holds[at]),
            Node::Layer(_) => RuleKind::Layer,
            Node::Variable(_) => RuleKind::Variable,
            Node::Property(_) => RuleKind::Property,
            Node::PropertyDefinition(_) => RuleKind::PropertyDefinition,
        };
        let rule = StyleRule { kind, parent: nodes[at].get_parent() };
        list.push(rule);
        assert(rules_of(list@) =~= before.push(rule_spec(rule)));
        at = at + 1;
    }
    list
}

/// Whether numbers are those of the nodes of a style sheet that hold declarations, in ascending
/// order.
pub open spec fn lists_declaring(nodes: Seq<CssNodeModel>, list: Seq<usize>) -> bool {
    &&& forall|i: int|
        0 <= i < list.len() ==> holds_declarations(nodes, #[trigger] list[i]) && list[i] < nodes.len()
    &&& forall|i: int, j: int| 0 <= i < j < list.len() ==> list[i] < list[j]
    &&& forall|idx: usize|
        idx < nodes.len() && holds_declarations(nodes, idx) ==> #[trigger] list.contains(idx)
}

/// Finds for every element the nodes of a style sheet with declarations for it, and how specific
/// each of them is. `rules` is the sheet as [`number_rules`] gives it.
pub fn collect_class_nodes_for_elements(
    css_nodes: &Vec<Node>,
    rules: &Vec<StyleRule>,
    nodes: &NodesTable,
    dom: &DomIndexes,
    hovering: &Vec<usize>,
) -> (r: Found)
    requires
        acyclic(nodes@),
        rooted(rules_of(rules@)),
    ensures
        exists|list: Seq<usize>| #[trigger]
            lists_declaring(css_models(css_nodes@), list) && r@ == searched(
                rules_of(rules@),
                list,
                base_env(*nodes, *dom, hovering@),
            ),
{
    let to_resolve = nodes_to_resolve(css_nodes);
    assert(lists_declaring(css_models(css_nodes@), to_resolve@));
    search_elements_for_css_nodes(&to_resolve, rules, nodes, dom, hovering)
}

} // verus!
