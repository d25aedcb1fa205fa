//! Finding elements of a document: by tag, name, class or selector; and what clicks and loading mean
//! for them.
use fixedbitset::FixedBitSet;
use vstd::prelude::*;

use crate::bits::copy_bits;
use crate::bits::members;
use crate::bits::ones;
use crate::bits::set_bits;
use crate::calc::split_ignoring_parentheses;
use crate::calc::split_outside;
use crate::css::part_models;
use crate::css::parts_of_text;
use crate::css::selector_to_parts;
use crate::dom::node_at;
use crate::dom::parent_of;
use crate::dom::Node;
use crate::dom::NodesModel;
use crate::dom::NodesTable;
use crate::index::named;
use crate::index::place_of_text;
use crate::index::ClassIndexes;
use crate::index::DomIndexes;
use crate::index::NamedSets;
use crate::matching::MatchEnv;
use crate::query::base_env;
use crate::query::filtered_below;
use crate::query::queried;
use crate::query::query_selector_all;
use crate::rules::number_parts;
use crate::rules::numbered_parts;
use crate::text::ascii_lower;
use crate::text::same_text;
use crate::text::split_whitespace;
use crate::text::texts_of;
use crate::text::to_ascii_lowercase;
use crate::text::trim;
use crate::text::trimmed;
use crate::text::words;
use crate::tree::get_parents;
use crate::tree::acyclic;
use crate::tree::has_parent;
use crate::tree::lineage;

verus! {

/// The members of a list that meet a condition, in the order of the list.
pub open spec fn kept(list: Seq<usize>, wanted: spec_fn(usize) -> bool) -> Seq<usize>
    decreases list.len(),
{
    if list.len() == 0 {
        Seq::empty()
    } else if wanted(list.last()) {
        kept(list.drop_last(), wanted).push(list.last())
    } else {
        kept(list.drop_last(), wanted)
    }
}

/// Whether a node is the given one or lies below it, where one is given.
pub open spec fn is_below(nodes: NodesModel, idx: usize, required: Option<usize>) -> bool {
    required matches Some(parent) ==> lineage(nodes, idx).contains(parent)
}

/// Whether a node belongs to the document: it has a parent or is the root.
pub open spec fn has_place(nodes: NodesModel, root: usize, idx: usize) -> bool {
    node_at(nodes, idx) is Some && (parent_of(nodes, idx) is Some || idx == root)
}

fn is_at_or_below(nodes: &NodesTable, idx: usize, required: Option<usize>) -> (r: bool)
    requires
        acyclic(nodes@),
    ensures
        r == is_below(nodes@, idx, required),
{
    match required {
        Some(parent) => has_parent(nodes, idx, parent),
        None => true,
    }
}

/// The elements in the list that have a place and lie below the given node.
pub open spec fn placed_elements(
    nodes: NodesModel,
    root: usize,
    list: Seq<usize>,
    required: Option<usize>,
) -> Seq<usize> {
    kept(
        list,
        |idx: usize|
            (node_at(nodes, idx) matches Some(node) && node is Element) && has_place(
                nodes,
                root,
                idx,
            ) && is_below(nodes, idx, required),
    )
}

fn keep_placed(nodes: &NodesTable, root: usize, list: &Vec<usize>, required: Option<usize>) -> (r:
    Vec<usize>)
    requires
        acyclic(nodes@),
    ensures
        r@ == placed_elements(nodes@, root, list@, required),
{
    let mut result: Vec<usize> = Vec::new();
    let mut at: usize = 0;
    while at < list.len()
        invariant
            at <= list@.len(),
            acyclic(nodes@),
            result@ == placed_elements(nodes@, root, list@.take(at as int), required),
        decreases list@.len() - at,
    {
        let idx: usize = list[at];
        assert(list@.take(at + 1).drop_last() =~= list@.take(at as int));
        match nodes.get(idx) {
            Some(Node::Element(element)) => {
                if (element.parent.is_some() || idx == root) && is_at_or_below(
                    nodes,
                    idx,
                    required,
                ) {
                    result.push(idx);
                }
            },
            _ => {},
        }
        at = at + 1;
    }
    assert(list@.take(list@.len() as int) =~= list@);
    result
}

/// The elements with a tag, by ascending number; `*` stands for all, in the order in which the nodes
/// are listed. The case of the tag does not matter.
pub open spec fn elements_with_tag(
    nodes: NodesModel,
    listed: Seq<usize>,
    tags: NamedSets,
    root: usize,
    tag: Seq<char>,
    required: Option<usize>,
) -> Seq<usize> {
    if ascii_lower(tag) == "*"@ {
        placed_elements(nodes, root, listed, required)
    } else {
        match named(tags, ascii_lower(tag)) {
            Some(set) => placed_elements(nodes, root, members(set), required),
            None => Seq::empty(),
        }
    }
}

/// The elements with a tag.
pub fn get_elements_by_tag_name(
    nodes: &NodesTable,
    listed: &Vec<usize>,
    dom: &DomIndexes,
    tag: &str,
    required_parent: Option<usize>,
) -> (r: Vec<usize>)
    requires
        acyclic(nodes@),
    ensures
        r@ == elements_with_tag(
            nodes@,
            listed@,
            dom.tag_elements@,
            dom.root_indice,
            tag@,
            required_parent,
        ),
{
    let tag = to_ascii_lowercase(tag);
    if same_text(tag.as_str(), "*") {
        return keep_placed(nodes, dom.root_indice, listed, required_parent);
    }
    match dom.tag_elements.get(tag.as_str()) {
        Some(bits) => keep_placed(nodes, dom.root_indice, &ones(bits), required_parent),
        None => Vec::new(),
    }
}

/// The elements whose attribute `name` has a value, by ascending number.
pub open spec fn elements_with_name(
    nodes: NodesModel,
    attributes: NamedSets,
    root: usize,
    name: Seq<char>,
    required: Option<usize>,
) -> Seq<usize> {
    match named(attributes, "name"@) {
        Some(set) => kept(
            members(set),
            |idx: usize|
                (node_at(nodes, idx) matches Some(node) && node.attribute("name"@) == Some(name))
                    && has_place(nodes, root, idx) && is_below(nodes, idx, required),
        ),
        None => Seq::empty(),
    }
}

/// The elements whose attribute `name` has a value.
pub fn get_elements_by_name(
    nodes: &NodesTable,
    dom: &DomIndexes,
    name: &str,
    required_parent: Option<usize>,
) -> (r: Vec<usize>)
    requires
        acyclic(nodes@),
    ensures
        r@ == elements_with_name(
            nodes@,
            dom.attribute_elements@,
            dom.root_indice,
            name@,
            required_parent,
        ),
{
    let root: usize = dom.root_indice;
    let list = match dom.attribute_elements.get("name") {
        Some(bits) => ones(bits),
        None => {
            return Vec::new();
        },
    };
    let ghost wanted = |idx: usize|
        (node_at(nodes@, idx) matches Some(node) && node.attribute("name"@) == Some(name@))
            && has_place(nodes@, root, idx) && is_below(nodes@, idx, required_parent);
    let mut result: Vec<usize> = Vec::new();
    let mut at: usize = 0;
    while at < list.len()
        invariant
            at <= list@.len(),
            acyclic(nodes@),
            wanted == (|idx: usize|
                (node_at(nodes@, idx) matches Some(node) && node.attribute("name"@) == Some(name@))
                    && has_place(nodes@, root, idx) && is_below(nodes@, idx, required_parent)),
            result@ == kept(list@.take(at as int), wanted),
        decreases list@.len() - at,
    {
        let idx: usize = list[at];
        assert(list@.take(at + 1).drop_last() =~= list@.take(at as int));
        match nodes.get(idx) {
            Some(Node::Element(element)) => match element.attributes.get_str("name") {
                Some(value) => {
                    if same_text(value.as_str(), name) && (element.parent.is_some() || idx == root)
                        && is_at_or_below(nodes, idx, required_parent) {
                        result.push(idx);
                    }
                },
                None => {},
            },
            _ => {},
        }
        at = at + 1;
    }
    assert(list@.take(list@.len() as int) =~= list@);
    result
}

/// The nodes that are listed under all of the first classes, of which each has a number and a set;
/// nothing where one has not.
pub open spec fn in_all_classes(
    names: Seq<Seq<char>>,
    sets: Seq<Set<usize>>,
    classes: Seq<Seq<char>>,
) -> Option<Set<usize>>
    decreases classes.len(),
{
    if classes.len() == 0 {
        None
    } else {
        let place = place_of_text(names, classes.last());
        if place >= names.len() || place >= sets.len() {
            None
        } else if classes.len() == 1 {
            Some(sets[place])
        } else {
            match in_all_classes(names, sets, classes.drop_last()) {
                Some(before) => Some(before.intersect(sets[place])),
                None => None,
            }
        }
    }
}

/// The elements that have all of the classes that a text lists, at or below a node; the root where
/// none is given.
pub open spec fn elements_with_classes(
    nodes: NodesModel,
    names: Seq<Seq<char>>,
    sets: Seq<Set<usize>>,
    root: usize,
    class_names: Seq<char>,
    required: Option<usize>,
) -> Seq<usize> {
    match in_all_classes(names, sets, words(class_names)) {
        Some(set) => {
            let parent = match required {
                Some(parent) => parent,
                None => root,
            };
            kept(
                members(set),
                |idx: usize|
                    node_at(nodes, idx) is Some && lineage(nodes, idx).contains(parent),
            )
        },
        None => Seq::empty(),
    }
}

proof fn lemma_unknown_class(
    names: Seq<Seq<char>>,
    sets: Seq<Set<usize>>,
    classes: Seq<Seq<char>>,
    at: int,
)
    requires
        0 <= at < classes.len(),
        place_of_text(names, classes[at]) >= names.len() || place_of_text(names, classes[at])
            >= sets.len(),
    ensures
        in_all_classes(names, sets, classes) is None,
    decreases classes.len(),
{
    if at < classes.len() - 1 {
        lemma_unknown_class(names, sets, classes.drop_last(), at);
    }
}

/// The elements that have all of the classes that a text lists.
pub fn get_elements_by_class_name(
    nodes: &NodesTable,
    dom: &DomIndexes,
    class_indexes: &ClassIndexes,
    class_names: &str,
    required_parent: Option<usize>,
) -> (r: Vec<usize>)
    requires
        acyclic(nodes@),
    ensures
        r@ == elements_with_classes(
            nodes@,
            class_indexes@,
            dom.class_sets(),
            dom.root_indice,
            class_names@,
            required_parent,
        ),
{
    let classes = split_whitespace(class_names);
    let ghost models = words(class_names@);
    let ghost names = class_indexes@;
    let ghost sets = dom.class_sets();
    let mut all: Option<FixedBitSet> = None;
    let mut at: usize = 0;
    while at < classes.len()
        invariant
            at <= classes@.len(),
            models == texts_of(classes@),
            models == words(class_names@),
            names == class_indexes@,
            sets == dom.class_sets(),
            all is Some <==> at > 0,
            all matches Some(bits) ==> in_all_classes(names, sets, models.take(at as int)) == Some(
                set_bits(bits),
            ),
        decreases classes@.len() - at,
    {
        let ghost first = models.take(at + 1);
        proof {
            assert(first.drop_last() =~= models.take(at as int));
            assert(first.last() == classes@[at as int]@);
        }
        let place: usize = match class_indexes.get(classes[at].as_str()) {
            Some(place) => place,
            None => {
                proof {
                    lemma_unknown_class(names, sets, models, at as int);
                }
                return Vec::new();
            },
        };
        if place >= dom.class_elements.len() {
            proof {
                lemma_unknown_class(names, sets, models, at as int);
            }
            return Vec::new();
        }
        let bits = match all {
            Some(mut bits) => {
                bits.intersect_with(&dom.class_elements[place]);
                bits
            },
            None => copy_bits(&dom.class_elements[place]),
        };
        all = Some(bits);
        at = at + 1;
    }
    assert(models.take(models.len() as int) =~= models);
    let list = match &all {
        Some(bits) => ones(bits),
        None => {
            return Vec::new();
        },
    };
    let parent: usize = match required_parent {
        Some(parent) => parent,
        None => dom.root_indice,
    };
    let ghost wanted = |idx: usize|
        node_at(nodes@, idx) is Some && lineage(nodes@, idx).contains(parent);
    let mut result: Vec<usize> = Vec::new();
    let mut next: usize = 0;
    while next < list.len()
        invariant
            next <= list@.len(),
            acyclic(nodes@),
            wanted == (|idx: usize|
                node_at(nodes@, idx) is Some && lineage(nodes@, idx).contains(parent)),
            result@ == kept(list@.take(next as int), wanted),
        decreases list@.len() - next,
    {
        let idx: usize = list[next];
        assert(list@.take(next + 1).drop_last() =~= list@.take(next as int));
        if nodes.contains_key(idx) && has_parent(nodes, idx, parent) {
            result.push(idx);
        }
        next = next + 1;
    }
    assert(list@.take(list@.len() as int) =~= list@);
    result
}

/// The elements that the first selectors of a list select, and the names of the classes afterwards:
/// a class that a selector names gets a number where it has none.
pub open spec fn selected_by(
    selectors: Seq<Seq<char>>,
    names: Seq<Seq<char>>,
    env: MatchEnv,
    required: Option<usize>,
) -> (Set<usize>, Seq<Seq<char>>)
    decreases selectors.len(),
{
    if selectors.len() == 0 {
        (Set::empty(), names)
    } else {
        let (before, between) = selected_by(selectors.drop_last(), names, env, required);
        let parts = parts_of_text(trimmed(selectors.last()));
        let (selector, after) = numbered_parts(parts, parts.len(), between);
        (before.union(filtered_below(queried(selector, env), env.nodes, required)), after)
    }
}

/// The elements that a list of selectors separated by commas selects, each once and by ascending
/// number.
pub fn query_selectors(
    nodes: &NodesTable,
    selector: &str,
    dom: &DomIndexes,
    hovering: &Vec<usize>,
    required_parent: Option<usize>,
    class_indexes: &mut ClassIndexes,
) -> (r: Vec<usize>)
    requires
        acyclic(nodes@),
    ensures
        (r@, final(class_indexes)@) == ({
            let (set, names) = selected_by(
                split_outside(selector@, ',', Seq::empty()),
                old(class_indexes)@,
                base_env(*nodes, *dom, hovering@),
                required_parent,
            );
            (members(set), names)
        }),
{
    let keep: [char; 0] = [];
    assert(keep@ =~= Seq::empty());
    let selectors = split_ignoring_parentheses(selector, ',', &keep);
    let ghost models = split_outside(selector@, ',', Seq::empty());
    let ghost start = class_indexes@;
    let ghost env = base_env(*nodes, *dom, hovering@);
    let mut found = FixedBitSet::with_capacity(0);
    let mut at: usize = 0;
    while at < selectors.len()
        invariant
            at <= selectors@.len(),
            acyclic(nodes@),
            models == texts_of(selectors@),
            env == base_env(*nodes, *dom, hovering@),
            (set_bits(found), class_indexes@) == selected_by(
                models.take(at as int),
                start,
                env,
                required_parent,
            ),
        decreases selectors@.len() - at,
    {
        let ghost first = models.take(at + 1);
        proof {
            assert(first.drop_last() =~= models.take(at as int));
            assert(first.last() == selectors@[at as int]@);
        }
        let text = trim(selectors[at].as_str());
        let parts = selector_to_parts(text.as_str());
        proof {
            lemma_parts_len(parts@, parts@.len());
        }
        let numbered = number_parts(&parts, class_indexes);
        let list = query_selector_all(nodes, &numbered, dom, hovering, required_parent);
        let ghost before = set_bits(found);
        let ghost more = filtered_below(
            queried(crate::selectors::parts_of(numbered@), env),
            nodes@,
            required_parent,
        );
        proof {
            crate::bits::lemma_members(more);
        }
        add_all(&mut found, &list);
        proof {
            assert(set_bits(found) =~= before.union(more)) by {
                assert forall|x: usize| #[trigger] set_bits(found).contains(x) == before.union(
                    more,
                ).contains(x) by {
                    assert(members(more).contains(x) <==> more.contains(x));
                }
            }
        }
        at = at + 1;
    }
    assert(models.take(models.len() as int) =~= models);
    ones(&found)
}

/// The first node of a list that is in a set, from a place on.
pub open spec fn first_in(list: Seq<usize>, set: Set<usize>, from: int) -> Option<usize>
    decreases list.len() - from,
{
    if from < 0 || from >= list.len() {
        None
    } else if set.contains(list[from]) {
        Some(list[from])
    } else {
        first_in(list, set, from + 1)
    }
}

/// The nearest of a node and its ancestors that a selector selects.
pub fn get_closest(
    nodes: &NodesTable,
    selector: &str,
    dom: &DomIndexes,
    hovering: &Vec<usize>,
    node_idx: usize,
    class_indexes: &mut ClassIndexes,
) -> (r: Option<usize>)
    requires
        acyclic(nodes@),
    ensures
        (r, final(class_indexes)@) == ({
            let parts = parts_of_text(selector@);
            let (numbered, names) = numbered_parts(parts, parts.len(), old(class_indexes)@);
            let all = queried(numbered, base_env(*nodes, *dom, hovering@));
            (first_in(lineage(nodes@, node_idx), all, 0), names)
        }),
{
    let parts = selector_to_parts(selector);
    proof {
        lemma_parts_len(parts@, parts@.len());
    }
    let numbered = number_parts(&parts, class_indexes);
    let matched = query_selector_all(nodes, &numbered, dom, hovering, None);
    let ghost all = queried(
        crate::selectors::parts_of(numbered@),
        base_env(*nodes, *dom, hovering@),
    );
    proof {
        assert(filtered_below(all, nodes@, None) =~= all);
        crate::bits::lemma_members(all);
    }
    let line = get_parents(nodes, node_idx);
    assert(matched@.to_set() =~= all) by {
        assert forall|x: usize| #[trigger] matched@.to_set().contains(x) == all.contains(x) by {
            assert(members(all).contains(x) <==> all.contains(x));
        }
    }
    first_listed(&line, &matched)
}

/// The first node of a line that a list holds.
fn first_listed(line: &Vec<usize>, list: &Vec<usize>) -> (r: Option<usize>)
    ensures
        r == first_in(line@, list@.to_set(), 0),
{
    let mut at: usize = 0;
    while at < line.len()
        invariant
            at <= line@.len(),
            first_in(line@, list@.to_set(), 0) == first_in(line@, list@.to_set(), at as int),
        decreases line@.len() - at,
    {
        if is_listed(list, line[at]) {
            return Some(line[at]);
        }
        at = at + 1;
    }
    None
}

/// The closest match is the node itself or one of its ancestors, and nothing nearer matches.
pub proof fn lemma_closest_is_nearest(list: Seq<usize>, set: Set<usize>, from: int)
    requires
        0 <= from <= list.len(),
    ensures
        match first_in(list, set, from) {
            None => forall|i: int| from <= i < list.len() ==> !set.contains(#[trigger] list[i]),
            Some(found) => exists|k: int|
                from <= k < list.len() && list[k] == found && set.contains(found) && forall|i: int|
                    from <= i < k ==> !set.contains(#[trigger] list[i]),
        },
    decreases list.len() - from,
{
    if from < list.len() && !set.contains(list[from]) {
        lemma_closest_is_nearest(list, set, from + 1);
        if let Some(found) = first_in(list, set, from + 1) {
            let k = choose|k: int|
                from + 1 <= k < list.len() && list[k] == found && set.contains(found) && forall|
                    i: int,
                |
                    from + 1 <= i < k ==> !set.contains(#[trigger] list[i]);
            assert(from <= k < list.len() && list[k] == found);
        }
    }
}

proof fn lemma_parts_len(list: Seq<crate::css::ClassNamePart>, count: nat)
    requires
        count <= list.len(),
    ensures
        part_models(list, count).len() == count,
    decreases count,
{
    if count > 0 {
        lemma_parts_len(list, (count - 1) as nat);
    }
}

fn add_all(bits: &mut FixedBitSet, list: &Vec<usize>)
    requires
        forall|i: int| 0 <= i < list@.len() ==> (#[trigger] list@[i]) < usize::MAX,
    ensures
        forall|x: usize| #[trigger]
            set_bits(*final(bits)).contains(x) <==> set_bits(*old(bits)).contains(x)
                || list@.contains(x),
{
    let ghost start = set_bits(*bits);
    let mut at: usize = 0;
    while at < list.len()
        invariant
            at <= list@.len(),
            forall|i: int| 0 <= i < list@.len() ==> (#[trigger] list@[i]) < usize::MAX,
            forall|x: usize| #[trigger]
                set_bits(*bits).contains(x) <==> start.contains(x) || list@.take(at as int).contains(
                    x,
                ),
        decreases list@.len() - at,
    {
        let ghost before = list@.take(at as int);
        let ghost after = list@.take(at + 1);
        bits.grow_and_insert(list[at]);
        proof {
            assert(after =~= before.push(list@[at as int]));
            assert forall|x: usize| after.contains(x) <==> before.contains(x) || x
                == list@[at as int] by {
                if before.contains(x) {
                    let k = choose|k: int| 0 <= k < before.len() && before[k] == x;
                    assert(after[k] == x);
                }
                if x == list@[at as int] {
                    assert(after[at as int] == x);
                }
            }
        }
        at = at + 1;
    }
    assert(list@.take(list@.len() as int) =~= list@);
}

/// What has been done when elements are looked at for loading.
#[derive(Debug, Clone, Copy, PartialEq, Eq, Structural)]
pub enum LoadPhase {
    /// The scripts of the page have run.
    JsDone,
    /// A frame inside the page has loaded.
    IframeDone,
}

/// Whether a node has loaded in a phase. An image has where it is among those that were decoded.
pub open spec fn has_loaded(
    nodes: NodesModel,
    images: Seq<usize>,
    idx: usize,
    phase: LoadPhase,
) -> bool {
    match node_at(nodes, idx) {
        None => false,
        Some(node) => if node.has_tag("iframe"@) {
            phase == LoadPhase::IframeDone
        } else if node.has_tag("img"@) {
            images.contains(idx)
        } else {
            phase == LoadPhase::JsDone
        },
    }
}

pub(crate) fn is_listed(list: &Vec<usize>, idx: usize) -> (r: bool)
    ensures
        r == list@.contains(idx),
{
    let mut at: usize = 0;
    while at < list.len()
        invariant
            at <= list@.len(),
            forall|i: int| 0 <= i < at ==> list@[i] != idx,
        decreases list@.len() - at,
    {
        if list[at] == idx {
            return true;
        }
        at = at + 1;
    }
    false
}

/// Whether a node has loaded in a phase.
pub fn element_has_loaded(
    nodes: &NodesTable,
    images_loaded: &Vec<usize>,
    node_idx: usize,
    phase: LoadPhase,
) -> (r: bool)
    ensures
        r == has_loaded(nodes@, images_loaded@, node_idx, phase),
{
    match nodes.get(node_idx) {
        None => false,
        Some(node) => {
            if node.is_element("iframe") {
                phase == LoadPhase::IframeDone
            } else if node.is_element("img") {
                is_listed(images_loaded, node_idx)
            } else {
                phase == LoadPhase::JsDone
            }
        },
    }
}

/// The nodes that are told that they have loaded: the listed ones that have loaded, were not told
/// before and are asked for, where some are.
pub open spec fn newly_loaded(
    nodes: NodesModel,
    listed: Seq<usize>,
    images: Seq<usize>,
    told: Seq<usize>,
    phase: LoadPhase,
    asked: Option<Seq<usize>>,
) -> Seq<usize> {
    kept(
        listed,
        |idx: usize|
            (asked matches Some(asked) ==> asked.contains(idx)) && !told.contains(idx) && has_loaded(
                nodes,
                images,
                idx,
                phase,
            ),
    )
}

/// The nodes that are told that they have loaded. They count as told afterwards.
pub fn fire_load_phase(
    nodes: &NodesTable,
    listed: &Vec<usize>,
    images_loaded: &Vec<usize>,
    told: &mut Vec<usize>,
    phase: LoadPhase,
    asked: Option<&Vec<usize>>,
) -> (r: Vec<usize>)
    ensures
        r@ == newly_loaded(
            nodes@,
            listed@,
            images_loaded@,
            old(told)@,
            phase,
            match asked {
                Some(asked) => Some(asked@),
                None => None,
            },
        ),
        final(told)@ == old(told)@ + r@,
{
    let ghost start = told@;
    let ghost asked_model = match asked {
        Some(asked) => Some(asked@),
        None => None,
    };
    let mut fired: Vec<usize> = Vec::new();
    let mut at: usize = 0;
    while at < listed.len()
        invariant
            at <= listed@.len(),
            told@ == start,
            asked_model == (match asked {
                Some(asked) => Some(asked@),
                None => None,
            }),
            fired@ == newly_loaded(
                nodes@,
                listed@.take(at as int),
                images_loaded@,
                start,
                phase,
                asked_model,
            ),
        decreases listed@.len() - at,
    {
        let idx: usize = listed[at];
        assert(listed@.take(at + 1).drop_last() =~= listed@.take(at as int));
        let wanted = match asked {
            Some(asked) => is_listed(asked, idx),
            None => true,
        };
        if wanted && !is_listed(told, idx) && element_has_loaded(nodes, images_loaded, idx, phase) {
            fired.push(idx);
        }
        at = at + 1;
    }
    assert(listed@.take(listed@.len() as int) =~= listed@);
    let mut next: usize = 0;
    assert(told@ =~= start + fired@.take(0));
    while next < fired.len()
        invariant
            next <= fired@.len(),
            told@ == start + fired@.take(next as int),
        decreases fired@.len() - next,
    {
        told.push(fired[next]);
        assert(told@ =~= start + fired@.take(next + 1));
        next = next + 1;
    }
    assert(fired@.take(fired@.len() as int) =~= fired@);
    fired
}

proof fn lemma_kept_contains(list: Seq<usize>, wanted: spec_fn(usize) -> bool, x: usize)
    ensures
        kept(list, wanted).contains(x) ==> wanted(x),
    decreases list.len(),
{
    if list.len() > 0 {
        lemma_kept_contains(list.drop_last(), wanted, x);
        let before = kept(list.drop_last(), wanted);
        if kept(list, wanted).contains(x) && !before.contains(x) {
            let k = choose|k: int|
                0 <= k < kept(list, wanted).len() && kept(list, wanted)[k] == x;
            if k < before.len() {
                assert(before[k] == x);
            }
        }
    }
}

/// A node that was told that it has loaded is not told again.
pub proof fn lemma_loading_is_told_once(
    nodes: NodesModel,
    listed: Seq<usize>,
    images: Seq<usize>,
    told: Seq<usize>,
    phase: LoadPhase,
    asked: Option<Seq<usize>>,
    idx: usize,
)
    requires
        told.contains(idx),
    ensures
        !newly_loaded(nodes, listed, images, told, phase, asked).contains(idx),
{
    let wanted = |idx: usize|
        (asked matches Some(asked) ==> asked.contains(idx)) && !told.contains(idx) && has_loaded(
            nodes,
            images,
            idx,
            phase,
        );
    lemma_kept_contains(listed, wanted, idx);
}

/// An event that a page hears of.
#[derive(Debug, Clone, Copy, PartialEq, Eq, Structural)]
pub enum HtmlEvent {
    Click,
    Change,
}

/// The nodes that change when a node is clicked: the radio buttons that a label is for.
pub open spec fn implied_changes(nodes: NodesModel, ids: NamedSets, idx: usize) -> Seq<usize> {
    match node_at(nodes, idx) {
        Some(node) => if node.has_tag("label"@) {
            match node.attribute("for"@) {
                Some(id) => match named(ids, id) {
                    Some(set) => kept(
                        members(set),
                        |el: usize|
                            (node_at(nodes, el) matches Some(node) && node.has_tag("input"@)
                                && node.attribute("type"@) == Some("radio"@)),
                    ),
                    None => Seq::empty(),
                },
                None => Seq::empty(),
            }
        } else {
            Seq::empty()
        },
        None => Seq::empty(),
    }
}

/// The events that a click on a node implies.
pub fn get_implicit_click_events(nodes: &NodesTable, dom: &DomIndexes, node_idx: usize) -> (r: Vec<
    (usize, HtmlEvent),
>)
    ensures
        r@ == implied_changes(nodes@, dom.id_elements@, node_idx).map_values(
            |el: usize| (el, HtmlEvent::Change),
        ),
{
    let mut events: Vec<(usize, HtmlEvent)> = Vec::new();
    let ghost changes = implied_changes(nodes@, dom.id_elements@, node_idx);
    let element = match nodes.get(node_idx) {
        Some(Node::Element(element)) => element,
        _ => {
            assert(events@ =~= changes.map_values(|el: usize| (el, HtmlEvent::Change)));
            return events;
        },
    };
    if !same_text(element.tag.as_str(), "label") {
        assert(events@ =~= changes.map_values(|el: usize| (el, HtmlEvent::Change)));
        return events;
    }
    let id = match element.attributes.get_str("for") {
        Some(id) => id,
        None => {
            assert(events@ =~= changes.map_values(|el: usize| (el, HtmlEvent::Change)));
            return events;
        },
    };
    let list = match dom.id_elements.get(id.as_str()) {
        Some(bits) => ones(bits),
        None => {
            assert(events@ =~= changes.map_values(|el: usize| (el, HtmlEvent::Change)));
            return events;
        },
    };
    let ghost wanted = |el: usize|
        (node_at(nodes@, el) matches Some(node) && node.has_tag("input"@) && node.attribute(
            "type"@,
        ) == Some("radio"@));
    let mut at: usize = 0;
    assert(events@ =~= Seq::empty());
    while at < list.len()
        invariant
            at <= list@.len(),
            wanted == (|el: usize|
                (node_at(nodes@, el) matches Some(node) && node.has_tag("input"@)
                    && node.attribute("type"@) == Some("radio"@))),
            events@ =~= kept(list@.take(at as int), wanted).map_values(
                |el: usize| (el, HtmlEvent::Change),
            ),
        decreases list@.len() - at,
    {
        let el: usize = list[at];
        assert(list@.take(at + 1).drop_last() =~= list@.take(at as int));
        match nodes.get(el) {
            Some(Node::Element(element)) => match element.attributes.get_str("type") {
                Some(kind) => {
                    if same_text(element.tag.as_str(), "input") && same_text(
                        kind.as_str(),
                        "radio",
                    ) {
                        events.push((el, HtmlEvent::Change));
                    }
                },
                None => {},
            },
            _ => {},
        }
        at = at + 1;
    }
    assert(list@.take(list@.len() as int) =~= list@);
    events
}

} // verus!
