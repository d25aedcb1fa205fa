//! What a query finds: elements only, in ascending order, and below a node a part of the whole.
use vstd::prelude::*;

use crate::bits::lemma_members;
use crate::bits::members;
use crate::bits::members_below;
use crate::bits::set_bits;
use crate::dom::NodesModel;
use crate::dom::NodesTable;
use crate::index::class_holders;
use crate::index::holders;
use crate::index::named;
use crate::index::DomIndexes;
use crate::index::NameKind;
use crate::matching::MatchEnv;
use crate::query::after_candidates;
use crate::query::after_rule;
use crate::query::after_rules;
use crate::query::after_selectors;
use crate::query::all_elements;
use crate::query::base_choice;
use crate::query::base_env;
use crate::query::candidates;
use crate::query::filtered;
use crate::query::filtered_below;
use crate::query::indexed_candidates;
use crate::query::indexed_rules;
use crate::query::matched_elements;
use crate::query::nothing_found;
use crate::query::queried;
use crate::query::rules_size;
use crate::query::searched;
use crate::query::selected_sets;
use crate::query::single_rule;
use crate::query::with_selected;
use crate::query::FoundSpec;
use crate::search::selector_at;
use crate::search::KindSpec;
use crate::search::RuleSpec;
use crate::selectors::specificity_of;
use crate::selectors::PartSpec;
use crate::selectors::Specificity;
use crate::tree::lineage;

verus! {

/// The indexes that a search asks list elements only.
pub open spec fn lists_elements(env: MatchEnv) -> bool {
    &&& forall|name: Seq<char>| #[trigger]
        named(env.tags, name) matches Some(set) ==> set.subset_of(all_elements(env.nodes))
    &&& forall|name: Seq<char>| #[trigger]
        named(env.ids, name) matches Some(set) ==> set.subset_of(all_elements(env.nodes))
    &&& forall|class: int|
        0 <= class < env.classes.len() ==> (#[trigger] env.classes[class]).subset_of(
            all_elements(env.nodes),
        )
}

/// Indexes that were made from a document list elements only.
pub proof fn lemma_indexes_list_elements(
    nodes: NodesTable,
    dom: DomIndexes,
    classes: Seq<Seq<char>>,
    hovering: Seq<usize>,
)
    requires
        dom.class_elements@.len() == classes.len(),
        forall|k: int|
            0 <= k < dom.class_elements@.len() ==> set_bits(#[trigger] dom.class_elements@[k])
                == class_holders(nodes@, classes[k]),
        forall|name: Seq<char>| #[trigger]
            named(dom.tag_elements@, name) == holders(nodes@, NameKind::Tag, name),
        forall|name: Seq<char>| #[trigger]
            named(dom.id_elements@, name) == holders(nodes@, NameKind::Id, name),
    ensures
        lists_elements(base_env(nodes, dom, hovering)),
{
    let env = base_env(nodes, dom, hovering);
    assert forall|class: int| 0 <= class < env.classes.len() implies (
    #[trigger] env.classes[class]).subset_of(all_elements(env.nodes)) by {
        assert(env.classes[class] == set_bits(dom.class_elements@[class]));
    }
}

proof fn lemma_indexed_are_elements(part: PartSpec, env: MatchEnv)
    requires
        lists_elements(env),
    ensures
        indexed_candidates(part, env) matches Some(set) ==> set.subset_of(all_elements(env.nodes)),
{
}

proof fn lemma_base_are_elements(parts: Seq<PartSpec>, count: nat, env: MatchEnv)
    requires
        lists_elements(env),
    ensures
        base_choice(parts, count, env).best matches Some((_, set)) ==> set.subset_of(
            all_elements(env.nodes),
        ),
    decreases count,
{
    if count > 0 && count <= parts.len() {
        lemma_base_are_elements(parts, (count - 1) as nat, env);
        lemma_indexed_are_elements(parts[count - 1], env);
    }
}

proof fn lemma_filtered_are_listed(
    list: Seq<usize>,
    count: nat,
    parts: Seq<PartSpec>,
    skipped: int,
    env: MatchEnv,
    asked: Set<usize>,
)
    ensures
        forall|el: usize| #[trigger]
            filtered(list, count, parts, skipped, env, asked).0.contains(el) ==> list.contains(el),
    decreases count,
{
    if count > 0 && count <= list.len() {
        lemma_filtered_are_listed(list, (count - 1) as nat, parts, skipped, env, asked);
        let before = filtered(list, (count - 1) as nat, parts, skipped, env, asked).0;
        let after = filtered(list, count, parts, skipped, env, asked).0;
        assert forall|el: usize| #[trigger] after.contains(el) implies list.contains(el) by {
            if el == list[count - 1] {
                assert(list.contains(el));
            } else {
                assert(before.contains(el));
            }
        }
    }
}

proof fn lemma_candidates_are_elements(part: PartSpec, env: MatchEnv, asked: Set<usize>)
    requires
        lists_elements(env),
    ensures
        candidates(part, env, asked).0 matches Some(set) ==> set.subset_of(
            all_elements(env.nodes),
        ),
{
    lemma_indexed_are_elements(part, env);
    if let PartSpec::Combined(parts) = part {
        lemma_base_are_elements(parts, parts.len(), env);
        let (skipped, base) = match base_choice(parts, parts.len(), env).best {
            Some((place, set)) => (place as int, set),
            None => (-1, all_elements(env.nodes)),
        };
        lemma_members(base);
        lemma_filtered_are_listed(
            members(base),
            members(base).len(),
            parts,
            skipped,
            env,
            asked,
        );
        let kept = filtered(members(base), members(base).len(), parts, skipped, env, asked).0;
        assert forall|el: usize| kept.contains(el) implies all_elements(env.nodes).contains(el) by {
            assert(members(base).contains(el));
        }
    }
}

proof fn lemma_matches_are_listed(
    list: Seq<usize>,
    count: nat,
    rules: Seq<RuleSpec>,
    css: usize,
    name: int,
    weight: Option<Specificity>,
    env: MatchEnv,
    found: FoundSpec,
)
    ensures
        forall|el: usize| #[trigger]
            matched_elements(
                after_candidates(list, count, rules, css, name, weight, env, found).matches,
            ).contains(el) ==> matched_elements(found.matches).contains(el) || list.contains(el),
    decreases count,
{
    if count > 0 && count <= list.len() {
        lemma_matches_are_listed(
            list,
            (count - 1) as nat,
            rules,
            css,
            name,
            weight,
            env,
            found,
        );
        let before = after_candidates(
            list,
            (count - 1) as nat,
            rules,
            css,
            name,
            weight,
            env,
            found,
        );
        let after = after_candidates(list, count, rules, css, name, weight, env, found);
        assert forall|el: usize| #[trigger]
            matched_elements(after.matches).contains(el) implies matched_elements(
            found.matches,
        ).contains(el) || list.contains(el) by {
            if el == list[count - 1] {
                assert(list.contains(el));
            } else {
                assert(matched_elements(before.matches).contains(el));
            }
        }
    }
}

proof fn lemma_selectors_find_elements(
    count: nat,
    rules: Seq<RuleSpec>,
    css: usize,
    env: MatchEnv,
    found: FoundSpec,
)
    requires
        lists_elements(env),
        matched_elements(found.matches).subset_of(all_elements(env.nodes)),
    ensures
        matched_elements(after_selectors(count, rules, css, env, found).matches).subset_of(
            all_elements(env.nodes),
        ),
    decreases count,
{
    if count > 0 {
        lemma_selectors_find_elements((count - 1) as nat, rules, css, env, found);
        let before = after_selectors((count - 1) as nat, rules, css, env, found);
        let parts = selector_at(rules, css as int, count - 1);
        if parts.len() > 0 {
            let (set, asked) = candidates(parts.last(), env, before.asked);
            lemma_candidates_are_elements(parts.last(), env, before.asked);
            if let Some(set) = set {
                lemma_listed_are_elements(
                    set,
                    rules,
                    css,
                    count - 1,
                    env,
                    FoundSpec { asked, ..before },
                    Some(specificity_of(parts, parts.len())),
                );
            }
        }
    }
}

proof fn lemma_listed_are_elements(
    set: Set<usize>,
    rules: Seq<RuleSpec>,
    css: usize,
    name: int,
    env: MatchEnv,
    found: FoundSpec,
    weight: Option<Specificity>,
)
    requires
        set.subset_of(all_elements(env.nodes)),
        matched_elements(found.matches).subset_of(all_elements(env.nodes)),
    ensures
        matched_elements(
            after_candidates(
                members(set),
                members(set).len(),
                rules,
                css,
                name,
                weight,
                env,
                found,
            ).matches,
        ).subset_of(all_elements(env.nodes)),
{
    lemma_members(set);
    let list = members(set);
    lemma_matches_are_listed(list, list.len(), rules, css, name, weight, env, found);
    let after = after_candidates(list, list.len(), rules, css, name, weight, env, found);
    assert forall|el: usize| matched_elements(after.matches).contains(el) implies all_elements(
        env.nodes,
    ).contains(el) by {
        if list.contains(el) {
            assert(set.contains(el));
        }
    }
}

proof fn lemma_rules_find_elements(
    to_resolve: Seq<usize>,
    count: nat,
    rules: Seq<RuleSpec>,
    env: MatchEnv,
    found: FoundSpec,
)
    requires
        lists_elements(env),
        matched_elements(found.matches).subset_of(all_elements(env.nodes)),
    ensures
        matched_elements(after_rules(to_resolve, count, rules, env, found).matches).subset_of(
            all_elements(env.nodes),
        ),
    decreases count,
{
    if count > 0 && count <= to_resolve.len() {
        lemma_rules_find_elements(to_resolve, (count - 1) as nat, rules, env, found);
        let before = after_rules(to_resolve, (count - 1) as nat, rules, env, found);
        let css = to_resolve[count - 1];
        if css < rules.len() {
            lemma_listed_are_elements(
                all_elements(env.nodes),
                rules,
                css,
                0,
                env,
                before,
                None,
            );
            if let KindSpec::ClassName(list) = rules[css as int].kind {
                lemma_selectors_find_elements(list.len(), rules, css, env, before);
            }
        }
        assert(after_rules(to_resolve, count, rules, env, found) == after_rule(
            rules,
            css,
            env,
            before,
        ));
    }
}

/// Whatever is searched for, only elements are found.
pub proof fn lemma_search_finds_elements(
    rules: Seq<RuleSpec>,
    to_resolve: Seq<usize>,
    env: MatchEnv,
)
    requires
        lists_elements(env),
    ensures
        matched_elements(searched(rules, to_resolve, env).matches).subset_of(
            all_elements(env.nodes),
        ),
{
    let (indexed, list) = indexed_rules(rules, rules.len());
    let selected = selected_sets(list, list.len(), env, rules_size(rules, rules.len()));
    let full = with_selected(env, selected);
    assert(lists_elements(full));
    lemma_rules_find_elements(
        to_resolve,
        to_resolve.len(),
        indexed,
        full,
        nothing_found(rules.len()),
    );
}

proof fn lemma_part_of_members(set: Set<usize>, nodes: NodesModel, parent: usize, bound: nat)
    requires
        bound <= usize::MAX + 1,
    ensures
        members_below(filtered_below(set, nodes, Some(parent)), bound) == members_below(
            set,
            bound,
        ).filter(|el: usize| lineage(nodes, el).contains(parent)),
    decreases bound,
{
    reveal(Seq::filter);
    let below = |el: usize| lineage(nodes, el).contains(parent);
    if bound > 0 {
        lemma_part_of_members(set, nodes, parent, (bound - 1) as nat);
        let before = members_below(set, (bound - 1) as nat);
        let last = (bound - 1) as usize;
        if set.contains(last) {
            assert(before.push(last).drop_last() =~= before);
        }
    }
}

/// A query finds elements only, in ascending order and each once. Below a node it finds, in the same
/// order, those of them whose line of ancestors, with themselves, holds that node.
pub proof fn lemma_query_below_is_part(selector: Seq<PartSpec>, env: MatchEnv, parent: usize)
    requires
        lists_elements(env),
    ensures
        ({
            let all = members(filtered_below(queried(selector, env), env.nodes, None));
            &&& forall|i: int, j: int| 0 <= i < j < all.len() ==> all[i] < all[j]
            &&& forall|i: int|
                0 <= i < all.len() ==> all_elements(env.nodes).contains(#[trigger] all[i])
            &&& members(filtered_below(queried(selector, env), env.nodes, Some(parent)))
                == all.filter(|el: usize| lineage(env.nodes, el).contains(parent))
        }),
{
    let set = queried(selector, env);
    assert(filtered_below(set, env.nodes, None) =~= set);
    lemma_members(set);
    lemma_search_finds_elements(single_rule(selector), seq![0usize], env);
    let all = members(set);
    assert forall|i: int| 0 <= i < all.len() implies all_elements(env.nodes).contains(
        #[trigger] all[i],
    ) by {
        assert(all.contains(all[i]));
    }
    lemma_part_of_members(set, env.nodes, parent, (usize::MAX + 1) as nat);
}

} // verus!
