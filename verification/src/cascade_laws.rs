//! What the cascade promises: how much a selector weighs, and which of two declarations counts.
use vstd::prelude::*;

use crate::cascade::css_children;
use crate::cascade::declared_before;
use crate::cascade::declared_text;
use crate::cascade::in_cascade_order;
use crate::cascade::is_declaration;
use crate::cascade::layer_around;
use crate::cascade::lemma_ranks_keep_order;
use crate::cascade::lighter;
use crate::cascade::linked_sheet;
use crate::cascade::listed_below;
use crate::cascade::rank_among;
use crate::cascade::rank_keys;
use crate::cascade::sources_below;
use crate::cascade::sources_of_list;
use crate::cascade::variable_number;
use crate::cascade::with_variables;
use crate::cascade::DefinitionModel;
use crate::cascade::ExpandableModel;
use crate::dom::node_at;
use crate::dom::NodeModel;
use crate::dom::NodesModel;
use crate::order::lemma_stable_positions;
use crate::order::precedes;
use crate::order::stable_positions;
use crate::query::FoundSpec;
use crate::selectors::specificity_of;
use crate::selectors::PartSpec;
use crate::selectors::Specificity;
use crate::stylesheet::in_order;
use crate::stylesheet::CssNodeModel;
use crate::subtree::tree_like;
use crate::text::pieces;
use crate::tree::children_at;
use crate::tree::ChildrenModel;

verus! {

/// How many steps of a selector, and of the steps that are combined in one, are of a sort.
pub open spec fn steps_of(parts: Seq<PartSpec>, sort: spec_fn(PartSpec) -> bool) -> nat
    decreases parts,
{
    if parts.len() == 0 {
        0
    } else {
        let last = parts.last();
        steps_of(parts.drop_last(), sort) + (if let PartSpec::Combined(inner) = last {
            steps_of(inner, sort)
        } else if sort(last) {
            1nat
        } else {
            0nat
        })
    }
}

/// A selector weighs what it says: its id steps, its class, attribute and pseudo class steps, and its
/// tag steps other than the universal one, each counted for itself.
pub proof fn lemma_selector_weighs_its_steps(parts: Seq<PartSpec>)
    ensures
        ({
            let weight = specificity_of(parts, parts.len());
            let ids = steps_of(parts, |part: PartSpec| part is Id);
            let classes = steps_of(
                parts,
                |part: PartSpec| part is Class || part is Attributes || part is Pseudo,
            );
            let tags = steps_of(
                parts,
                |part: PartSpec| part matches PartSpec::Tag(tag) && tag != "*"@,
            );
            &&& weight.ids == (if ids <= i32::MAX {
                ids as int
            } else {
                i32::MAX as int
            })
            &&& weight.classes == (if classes <= i32::MAX {
                classes as int
            } else {
                i32::MAX as int
            })
            &&& weight.tags == (if tags <= i32::MAX {
                tags as int
            } else {
                i32::MAX as int
            })
        }),
    decreases parts,
{
    lemma_first_steps_weigh(parts, parts.len());
    assert(parts.take(parts.len() as int) =~= parts);
}

proof fn lemma_first_steps_weigh(parts: Seq<PartSpec>, count: nat)
    requires
        count <= parts.len(),
    ensures
        ({
            let weight = specificity_of(parts, count);
            let first = parts.take(count as int);
            let ids = steps_of(first, |part: PartSpec| part is Id);
            let classes = steps_of(
                first,
                |part: PartSpec| part is Class || part is Attributes || part is Pseudo,
            );
            let tags = steps_of(
                first,
                |part: PartSpec| part matches PartSpec::Tag(tag) && tag != "*"@,
            );
            &&& weight.ids == (if ids <= i32::MAX {
                ids as int
            } else {
                i32::MAX as int
            })
            &&& weight.classes == (if classes <= i32::MAX {
                classes as int
            } else {
                i32::MAX as int
            })
            &&& weight.tags == (if tags <= i32::MAX {
                tags as int
            } else {
                i32::MAX as int
            })
        }),
    decreases parts, count,
{
    if count > 0 {
        lemma_first_steps_weigh(parts, (count - 1) as nat);
        let first = parts.take(count as int);
        assert(first.drop_last() =~= parts.take(count - 1));
        assert(first.last() == parts[count - 1]);
        if let PartSpec::Combined(inner) = parts[count - 1] {
            lemma_first_steps_weigh(inner, inner.len());
            assert(inner.take(inner.len() as int) =~= inner);
        }
    }
}

/// A lone class, attribute or pseudo class weighs more than any lone tag, a lone id more than any of
/// these, and the universal selector weighs nothing.
pub proof fn lemma_lone_steps_weigh(id: PartSpec, class: PartSpec, tag: PartSpec)
    requires
        id is Id,
        class is Class || class is Attributes || class is Pseudo,
        tag matches PartSpec::Tag(name) && name != "*"@,
    ensures
        lighter(specificity_of(seq![tag], 1), specificity_of(seq![class], 1)),
        lighter(specificity_of(seq![class], 1), specificity_of(seq![id], 1)),
        lighter(specificity_of(seq![PartSpec::Tag("*"@)], 1), specificity_of(seq![tag], 1)),
        specificity_of(seq![class], 1) == (Specificity { ids: 0, classes: 1, tags: 0 }),
        specificity_of(seq![tag], 1) == (Specificity { ids: 0, classes: 0, tags: 1 }),
        specificity_of(seq![id], 1) == (Specificity { ids: 1, classes: 0, tags: 0 }),
{
    reveal_with_fuel(specificity_of, 2);
    assert(seq![tag][0] == tag);
    assert(seq![class][0] == class);
    assert(seq![id][0] == id);
    assert(seq![PartSpec::Tag("*"@)][0] == PartSpec::Tag("*"@));
}

/// More ids weigh more, whatever else a selector has; with as many ids, more classes do; with as many
/// of both, more tags.
pub proof fn lemma_weights_are_compared_from_the_left(a: Specificity, b: Specificity)
    ensures
        a.ids < b.ids ==> lighter(a, b) && !lighter(b, a),
        a.ids == b.ids && a.classes < b.classes ==> lighter(a, b) && !lighter(b, a),
        a.ids == b.ids && a.classes == b.classes ==> lighter(a, b) == (a.tags < b.tags),
{
}

/// An important declaration counts more than any that is not, whatever layers and selectors they have.
pub proof fn lemma_important_declarations_count_most(
    nodes: Seq<CssNodeModel>,
    weights: Seq<Option<Specificity>>,
    a: int,
    b: int,
)
    requires
        nodes[a] matches CssNodeModel::Property { name, value, important, parent } && important,
        !(nodes[b] matches CssNodeModel::Property { name, value, important, parent } && important),
    ensures
        declared_before(nodes, weights, b, a),
        !declared_before(nodes, weights, a, b),
{
}

/// The node that is a number of parents above another.
pub open spec fn parent_above(nodes: Seq<CssNodeModel>, idx: int, steps: nat) -> Option<int>
    decreases steps,
{
    if steps == 0 {
        Some(idx)
    } else {
        match parent_above(nodes, idx, (steps - 1) as nat) {
            Some(at) => if 0 <= at < nodes.len() {
                match nodes[at].parent_idx() {
                    Some(parent) => Some(parent as int),
                    None => None,
                }
            } else {
                None
            },
            None => None,
        }
    }
}

/// Whether a node is the nearest layer above another, or whether there is none.
pub open spec fn nearest_layer(nodes: Seq<CssNodeModel>, idx: int, layer: Option<usize>) -> bool {
    match layer {
        Some(layer) => exists|steps: nat|
            {
                &&& steps > 0
                &&& #[trigger] parent_above(nodes, idx, steps) == Some(layer as int)
                &&& nodes[layer as int] is Layer
                &&& forall|k: nat|
                    0 < k < steps ==> ((#[trigger] parent_above(nodes, idx, k)) matches Some(at)
                        ==> !(nodes[at] is Layer))
            },
        None => forall|k: nat|
            k > 0 ==> ((#[trigger] parent_above(nodes, idx, k)) matches Some(at) ==> !(
            nodes[at] is Layer)),
    }
}

proof fn lemma_parent_above_parent(nodes: Seq<CssNodeModel>, idx: int, parent: int, steps: nat)
    requires
        0 <= idx < nodes.len(),
        nodes[idx].parent_idx() == Some(parent as usize),
        0 <= parent <= usize::MAX,
    ensures
        parent_above(nodes, idx, steps + 1) == parent_above(nodes, parent, steps),
    decreases steps,
{
    if steps > 0 {
        lemma_parent_above_parent(nodes, idx, parent, (steps - 1) as nat);
    } else {
        reveal_with_fuel(parent_above, 2);
    }
}

/// The layer that a declaration belongs to is the nearest one around it.
pub proof fn lemma_layer_is_the_nearest(nodes: Seq<CssNodeModel>, idx: int)
    requires
        in_order(nodes),
        0 <= idx < nodes.len(),
    ensures
        nearest_layer(nodes, idx, layer_around(nodes, idx)),
    decreases idx,
{
    match nodes[idx].parent_idx() {
        None => {
            assert forall|k: nat| k > 0 implies ((#[trigger] parent_above(nodes, idx, k)) matches Some(
                at,
            ) ==> !(nodes[at] is Layer)) by {
                lemma_nothing_above(nodes, idx, k);
            }
        },
        Some(parent) => {
            let up = parent as int;
            assert(parent < idx);
            reveal_with_fuel(parent_above, 2);
            if nodes[up] is Layer {
                assert(parent_above(nodes, idx, 1) == Some(up));
            } else {
                lemma_layer_is_the_nearest(nodes, up);
                match layer_around(nodes, up) {
                    Some(layer) => {
                        let steps = choose|steps: nat|
                            {
                                &&& steps > 0
                                &&& #[trigger] parent_above(nodes, up, steps) == Some(layer as int)
                                &&& nodes[layer as int] is Layer
                                &&& forall|k: nat|
                                    0 < k < steps ==> ((#[trigger] parent_above(nodes, up, k)) matches Some(
                                        at,
                                    ) ==> !(nodes[at] is Layer))
                            };
                        lemma_parent_above_parent(nodes, idx, up, steps);
                        let more = steps + 1;
                        assert(parent_above(nodes, idx, more) == Some(layer as int));
                        assert forall|k: nat| 0 < k < more implies ((#[trigger] parent_above(
                            nodes,
                            idx,
                            k,
                        )) matches Some(at) ==> !(nodes[at] is Layer)) by {
                            lemma_parent_above_parent(nodes, idx, up, (k - 1) as nat);
                            if k > 1 {
                                assert(parent_above(nodes, up, (k - 1) as nat) == parent_above(
                                    nodes,
                                    idx,
                                    k,
                                ));
                            }
                        }
                    },
                    None => {
                        assert forall|k: nat| k > 0 implies ((#[trigger] parent_above(
                            nodes,
                            idx,
                            k,
                        )) matches Some(at) ==> !(nodes[at] is Layer)) by {
                            lemma_parent_above_parent(nodes, idx, up, (k - 1) as nat);
                            if k > 1 {
                                assert(parent_above(nodes, up, (k - 1) as nat) == parent_above(
                                    nodes,
                                    idx,
                                    k,
                                ));
                            }
                        }
                    },
                }
            }
        },
    }
}

proof fn lemma_nothing_above(nodes: Seq<CssNodeModel>, idx: int, steps: nat)
    requires
        0 <= idx < nodes.len(),
        nodes[idx].parent_idx() is None,
        steps > 0,
    ensures
        parent_above(nodes, idx, steps) is None,
    decreases steps,
{
    if steps > 1 {
        lemma_nothing_above(nodes, idx, (steps - 1) as nat);
    } else {
        reveal_with_fuel(parent_above, 2);
    }
}

/// Of two declarations that are both important or both not, one outside all layers counts more than
/// one inside a layer, and one in a later layer more than one in an earlier one, whatever their
/// selectors weigh.
pub proof fn lemma_later_layers_count_more(
    nodes: Seq<CssNodeModel>,
    weights: Seq<Option<Specificity>>,
    a: int,
    b: int,
)
    requires
        (nodes[a] matches CssNodeModel::Property { name, value, important, parent } && important)
            == (nodes[b] matches CssNodeModel::Property { name, value, important, parent }
            && important),
        match (layer_around(nodes, a), layer_around(nodes, b)) {
            (Some(first), Some(second)) => first < second,
            (Some(_), None) => true,
            _ => false,
        },
    ensures
        declared_before(nodes, weights, a, b),
        !declared_before(nodes, weights, b, a),
{
}

/// Of two declarations in the same layer that are both important or both not, the one whose selector
/// weighs more counts more. Where both weigh the same, the later one does.
pub proof fn lemma_heavier_selectors_count_more(
    nodes: Seq<CssNodeModel>,
    weights: Seq<Option<Specificity>>,
    a: int,
    b: int,
    rule_a: usize,
    rule_b: usize,
    weight_a: Specificity,
    weight_b: Specificity,
)
    requires
        (nodes[a] matches CssNodeModel::Property { name, value, important, parent } && important)
            == (nodes[b] matches CssNodeModel::Property { name, value, important, parent }
            && important),
        layer_around(nodes, a) == layer_around(nodes, b),
        nodes[a].parent_idx() == Some(rule_a),
        nodes[b].parent_idx() == Some(rule_b),
        rule_a < weights.len(),
        rule_b < weights.len(),
        weights[rule_a as int] == Some(weight_a),
        weights[rule_b as int] == Some(weight_b),
    ensures
        weight_a.ids < weight_b.ids ==> declared_before(nodes, weights, a, b),
        weight_a.ids == weight_b.ids && weight_a.classes < weight_b.classes ==> declared_before(
            nodes,
            weights,
            a,
            b,
        ),
        weight_a.ids == weight_b.ids && weight_a.classes == weight_b.classes && weight_a.tags
            < weight_b.tags ==> declared_before(nodes, weights, a, b),
        weight_a == weight_b ==> declared_before(nodes, weights, a, b) == (a < b),
{
}

/// A declaration under a lone class selector counts more than one under a lone tag selector, whatever
/// their order in the sheet.
pub proof fn lemma_classes_beat_tags(
    nodes: Seq<CssNodeModel>,
    weights: Seq<Option<Specificity>>,
    a: int,
    b: int,
    class: PartSpec,
    tag: PartSpec,
)
    requires
        class is Class || class is Attributes || class is Pseudo,
        tag matches PartSpec::Tag(name) && name != "*"@,
        0 <= a < nodes.len(),
        0 <= b < nodes.len(),
        is_declaration(nodes[a]),
        is_declaration(nodes[b]),
        (nodes[a] matches CssNodeModel::Property { name, value, important, parent } && important)
            == (nodes[b] matches CssNodeModel::Property { name, value, important, parent }
            && important),
        layer_around(nodes, a) == layer_around(nodes, b),
        nodes[a].parent_idx() matches Some(rule) && rule < weights.len() && weights[rule as int]
            == Some(specificity_of(seq![class], 1)),
        nodes[b].parent_idx() matches Some(rule) && rule < weights.len() && weights[rule as int]
            == Some(specificity_of(seq![tag], 1)),
    ensures
        rank_among(nodes, weights, b, nodes.len()) < rank_among(nodes, weights, a, nodes.len()),
{
    lemma_lone_steps_weigh(PartSpec::Id(Seq::empty()), class, tag);
    lemma_ranks_keep_order(nodes, weights, b, a);
}

/// Whether a list holds the same as another, each as often, in the order of given places.
pub open spec fn rearranges(before: Seq<usize>, after: Seq<usize>, places: Seq<int>) -> bool {
    &&& places.len() == after.len() && after.len() == before.len()
    &&& forall|i: int|
        0 <= i < places.len() ==> 0 <= (#[trigger] places[i]) < before.len() && after[i]
            == before[places[i]]
    &&& forall|p: int| 0 <= p < before.len() ==> #[trigger] places.contains(p)
    &&& forall|i: int, j: int| 0 <= i < j < places.len() ==> places[i] != places[j]
}

/// Cascade order loses no declaration and adds none. Declarations stand in it by ascending rank, so
/// that the one that counts most comes last.
pub proof fn lemma_cascade_order_ranks(
    children: ChildrenModel,
    rules: Seq<usize>,
    ranking: Seq<usize>,
)
    requires
        listed_below(children, rules).len() <= usize::MAX,
        forall|k: int|
            0 <= k < listed_below(children, rules).len() ==> (#[trigger] listed_below(
                children,
                rules,
            )[k]) < ranking.len(),
    ensures
        ({
            let all = in_cascade_order(children, rules, ranking);
            &&& exists|places: Seq<int>| #[trigger]
                rearranges(listed_below(children, rules), all, places)
            &&& forall|i: int, j: int|
                0 <= i < j < all.len() ==> ranking[(#[trigger] all[i]) as int]
                    <= ranking[(#[trigger] all[j]) as int]
        }),
{
    let list = listed_below(children, rules);
    let keys = rank_keys(list, ranking);
    lemma_stable_positions(keys);
    let sorted = stable_positions(keys);
    let all = in_cascade_order(children, rules, ranking);
    let places = Seq::new(sorted.len(), |i: int| sorted[i] as int);
    assert forall|p: int| 0 <= p < list.len() implies #[trigger] places.contains(p) by {
        assert(sorted.contains(p as usize));
        let i = choose|i: int| 0 <= i < sorted.len() && sorted[i] == p as usize;
        assert(places[i] == p);
    }
    assert forall|i: int, j: int| 0 <= i < j < places.len() implies places[i] != places[j] by {
        assert(precedes(keys, sorted[i], sorted[j]));
    }
    assert(rearranges(list, all, places));
    assert forall|i: int, j: int| 0 <= i < j < all.len() implies ranking[(#[trigger] all[i]) as int]
        <= ranking[(#[trigger] all[j]) as int] by {
        assert(precedes(keys, sorted[i], sorted[j]));
        assert(list[sorted[i] as int] == all[i]);
        assert(list[sorted[j] as int] == all[j]);
    }
}

/// What rules declare is what stands in them: the declarations of the first rules, then those of the
/// others.
pub proof fn lemma_declarations_of_rules(
    children: ChildrenModel,
    first: Seq<usize>,
    second: Seq<usize>,
)
    ensures
        listed_below(children, first + second) == listed_below(children, first) + listed_below(
            children,
            second,
        ),
    decreases second.len(),
{
    if second.len() == 0 {
        assert(first + second =~= first);
        assert(listed_below(children, first) + Seq::<usize>::empty() =~= listed_below(
            children,
            first,
        ));
    } else {
        assert((first + second).drop_last() =~= first + second.drop_last());
        lemma_declarations_of_rules(children, first, second.drop_last());
        assert(listed_below(children, first + second) =~= listed_below(children, first)
            + listed_below(children, second));
    }
}

/// What stands in a rule is exactly the nodes that name it as their parent, in the order of the sheet.
pub proof fn lemma_nodes_stand_in_their_parent(nodes: Seq<CssNodeModel>, count: nat, parent: usize)
    requires
        count <= nodes.len(),
        nodes.len() <= usize::MAX,
    ensures
        ({
            let list = css_children(nodes, count, parent);
            &&& forall|i: int|
                0 <= i < list.len() ==> (#[trigger] list[i]) < count
                    && nodes[list[i] as int].parent_idx() == Some(parent)
            &&& forall|i: int, j: int| 0 <= i < j < list.len() ==> list[i] < list[j]
            &&& forall|idx: usize|
                idx < count && nodes[idx as int].parent_idx() == Some(parent)
                    ==> #[trigger] list.contains(idx)
        }),
    decreases count,
{
    if count > 0 {
        lemma_nodes_stand_in_their_parent(nodes, (count - 1) as nat, parent);
        let before = css_children(nodes, (count - 1) as nat, parent);
        let list = css_children(nodes, count, parent);
        assert forall|idx: usize| idx < count && nodes[idx as int].parent_idx() == Some(
            parent,
        ) implies #[trigger] list.contains(idx) by {
            if idx < count - 1 {
                assert(before.contains(idx));
                let k = choose|k: int| 0 <= k < before.len() && before[k] == idx;
                assert(list[k] == idx);
            } else {
                assert(list[list.len() - 1] == idx);
            }
        }
    }
}

/// Of several declarations of a property the last one that has a value counts.
pub proof fn lemma_last_declared_text_counts(
    nodes: Seq<CssNodeModel>,
    list: Seq<usize>,
    property: Seq<char>,
    idx: usize,
)
    requires
        idx < nodes.len(),
    ensures
        ({
            let before = declared_text(nodes, list, list.len(), property);
            let after = declared_text(nodes, list.push(idx), list.len() + 1, property);
            match nodes[idx as int] {
                CssNodeModel::Property { name, value, important, parent } => if name == property
                    && value is Some {
                    after == value
                } else {
                    after == before
                },
                _ => after == before,
            }
        }),
{
    lemma_declared_text_of_first(nodes, list, list.push(idx), property, list.len());
}

proof fn lemma_declared_text_of_first(
    nodes: Seq<CssNodeModel>,
    list: Seq<usize>,
    more: Seq<usize>,
    property: Seq<char>,
    count: nat,
)
    requires
        count <= list.len(),
        list.len() <= more.len(),
        forall|i: int| 0 <= i < list.len() ==> list[i] == more[i],
    ensures
        declared_text(nodes, list, count, property) == declared_text(nodes, more, count, property),
    decreases count,
{
    if count > 0 {
        lemma_declared_text_of_first(nodes, list, more, property, (count - 1) as nat);
    }
}

/// A number of a name is a place where it stands, and the last one; a name without a number stands
/// nowhere.
pub proof fn lemma_variable_number(data: Seq<DefinitionModel>, name: Seq<char>)
    requires
        data.len() <= usize::MAX,
    ensures
        match variable_number(data, name) {
            Some(at) => {
                &&& at < data.len()
                &&& data[at as int].property == name
                &&& forall|i: int| at < i < data.len() ==> (#[trigger] data[i]).property != name
            },
            None => forall|i: int| 0 <= i < data.len() ==> (#[trigger] data[i]).property != name,
        },
    decreases data.len(),
{
    if data.len() > 0 && data.last().property != name {
        lemma_variable_number(data.drop_last(), name);
        assert forall|i: int| 0 <= i < data.len() - 1 implies data.drop_last()[i] == data[i] by {}
    }
}

/// Every variable that a sheet sets has a number in the end, and no number changes on the way.
pub proof fn lemma_variables_are_numbered(
    data: Seq<DefinitionModel>,
    nodes: Seq<CssNodeModel>,
    count: nat,
    idx: int,
)
    requires
        count <= nodes.len(),
        0 <= idx < count,
        nodes[idx] is Variable,
    ensures
        ({
            let all = with_variables(data, nodes, count);
            &&& data.len() <= all.len()
            &&& all.take(data.len() as int) == data
            &&& nodes[idx] matches CssNodeModel::Variable { name, value, parent } ==> exists|i: int|
                0 <= i < all.len() && (#[trigger] all[i]).property == name
        }),
    decreases count,
{
    lemma_variables_extend(data, nodes, count);
    lemma_variable_is_there(data, nodes, count, idx);
}

proof fn lemma_variables_extend(data: Seq<DefinitionModel>, nodes: Seq<CssNodeModel>, count: nat)
    ensures
        data.len() <= with_variables(data, nodes, count).len(),
        with_variables(data, nodes, count).take(data.len() as int) == data,
    decreases count,
{
    if count > 0 && count <= nodes.len() {
        lemma_variables_extend(data, nodes, (count - 1) as nat);
        let before = with_variables(data, nodes, (count - 1) as nat);
        let after = with_variables(data, nodes, count);
        assert(after.take(data.len() as int) =~= before.take(data.len() as int));
    } else {
        assert(data.take(data.len() as int) =~= data);
    }
}

proof fn lemma_variable_is_there(
    data: Seq<DefinitionModel>,
    nodes: Seq<CssNodeModel>,
    count: nat,
    idx: int,
)
    requires
        count <= nodes.len(),
        0 <= idx < count,
        nodes[idx] is Variable,
    ensures
        nodes[idx] matches CssNodeModel::Variable { name, value, parent } ==> exists|i: int|
            0 <= i < with_variables(data, nodes, count).len() && (#[trigger] with_variables(
                data,
                nodes,
                count,
            )[i]).property == name,
    decreases count,
{
    let before = with_variables(data, nodes, (count - 1) as nat);
    let after = with_variables(data, nodes, count);
    if let CssNodeModel::Variable { name, value, parent } = nodes[idx] {
        if idx < count - 1 {
            lemma_variable_is_there(data, nodes, (count - 1) as nat, idx);
            let i = choose|i: int| 0 <= i < before.len() && (#[trigger] before[i]).property == name;
            assert(after[i].property == name);
        } else if variable_number(before, name) is None {
            assert(after[before.len() as int].property == name);
        } else {
            lemma_numbered_name_stands(before, name);
        }
    }
}

proof fn lemma_numbered_name_stands(data: Seq<DefinitionModel>, name: Seq<char>)
    requires
        variable_number(data, name) is Some,
    ensures
        exists|i: int| 0 <= i < data.len() && (#[trigger] data[i]).property == name,
    decreases data.len(),
{
    if data.last().property == name {
        assert(data[data.len() - 1].property == name);
    } else {
        lemma_numbered_name_stands(data.drop_last(), name);
        let less = data.drop_last();
        let i = choose|i: int| 0 <= i < less.len() && (#[trigger] less[i]).property == name;
        assert(data[i].property == name);
    }
}

/// A rule that selects an element is listed for it behind the rules before, with its weight, and the
/// lists of all other elements stay as they are.
pub proof fn lemma_match_is_noted(
    found: FoundSpec,
    el: usize,
    css: usize,
    weight: Specificity,
    other: usize,
)
    requires
        css < found.weights.len(),
        el < usize::MAX,
    ensures
        ({
            let after = found.with_match(el, css, Some(weight));
            &&& children_at(after.matches, el) matches Some(list) && list.len() > 0 && list.last()
                == css && (match children_at(found.matches, el) {
                Some(before) => list.drop_last() == before,
                None => list.len() == 1,
            })
            &&& other != el ==> children_at(after.matches, other) == children_at(
                found.matches,
                other,
            )
            &&& after.weights.len() == found.weights.len()
            &&& after.weights[css as int] == Some(weight)
            &&& forall|i: int|
                0 <= i < found.weights.len() && i != css ==> after.weights[i] == found.weights[i]
        }),
{
    let after = found.with_match(el, css, Some(weight));
    let list = children_at(after.matches, el)->0;
    if let Some(before) = children_at(found.matches, el) {
        assert(list.drop_last() =~= before);
    }
}

/// Only a link whose kinds name a style sheet leads to one, and it leads where its address says. A
/// `style` element with a single text is a style sheet of its own, and nothing inside `noscript` is.
pub proof fn lemma_sources_of_styles(nodes: NodesModel, children: ChildrenModel, idx: usize)
    requires
        tree_like(children),
    ensures
        node_at(nodes, idx) matches Some(node) ==> {
            &&& node.has_tag("noscript"@) ==> sources_below(nodes, children, idx).len() == 0
            &&& !(node is Element) ==> sources_below(nodes, children, idx).len() == 0
            &&& linked_sheet(node) matches Some(href) ==> {
                &&& node.has_tag("link"@)
                &&& node.attribute("href"@) == Some(href)
                &&& node.attribute("rel"@) matches Some(rel) && pieces(rel, ' ').contains(
                    "stylesheet"@,
                )
                &&& sources_below(nodes, children, idx) == seq![ExpandableModel::Link(href)]
            }
            &&& node.has_tag("link"@) && (node.attribute("rel"@) matches Some(rel) && pieces(
                rel,
                ' ',
            ).contains("stylesheet"@)) ==> (node.attribute("href"@) matches Some(href) ==> linked_sheet(
                node,
            ) == Some(href))
            &&& node.has_tag("style"@) ==> (children_at(children, idx) matches Some(list) ==> (
            list.len() == 1 ==> (node_at(nodes, list[0]) matches Some(NodeModel::Text {
                text,
                parent,
            }) ==> sources_below(nodes, children, idx) == seq![ExpandableModel::Inline(text)])))
        },
{
    reveal_strlit("link");
    reveal_strlit("style");
    reveal_strlit("noscript");
    assert("link"@.len() != "style"@.len());
    assert("link"@.len() != "noscript"@.len());
    assert("style"@.len() != "noscript"@.len());
}

/// The sources of styles stand in the order of the document.
pub proof fn lemma_sources_stand_in_order(
    nodes: NodesModel,
    children: ChildrenModel,
    parent: usize,
    first: Seq<usize>,
    second: Seq<usize>,
)
    requires
        tree_like(children),
    ensures
        sources_of_list(nodes, children, parent, first + second) == sources_of_list(
            nodes,
            children,
            parent,
            first,
        ) + sources_of_list(nodes, children, parent, second),
    decreases second.len(),
{
    let one = sources_of_list(nodes, children, parent, first);
    if second.len() == 0 {
        assert(first + second =~= first);
        assert(one + Seq::<ExpandableModel>::empty() =~= one);
    } else {
        assert((first + second).drop_last() =~= first + second.drop_last());
        lemma_sources_stand_in_order(nodes, children, parent, first, second.drop_last());
        assert(sources_of_list(nodes, children, parent, first + second) =~= one + sources_of_list(
            nodes,
            children,
            parent,
            second,
        ));
    }
}

} // verus!
