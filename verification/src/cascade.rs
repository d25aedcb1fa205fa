//! From style sheets to an order of declarations: joining style sheets, variables, and which
//! declaration comes before which.
use vstd::prelude::*;

use crate::dom::node_at;
use crate::dom::Node as HtmlNode;
use crate::dom::NodeModel;
use crate::dom::NodesModel;
use crate::dom::NodesTable;
use crate::order::arranged;
use crate::order::lemma_stable_positions;
use crate::order::precedes;
use crate::order::stable_order;
use crate::order::stable_positions;
use crate::selectors::Specificity;
use crate::stylesheet::in_order;
use crate::stylesheet::CssNodeModel;
use crate::stylesheet::Node;
use crate::stylesheet::PropertyValue;
use crate::subtree::depth_of;
use crate::subtree::lemma_child_is_lower;
use crate::subtree::tree_like;
use crate::text::pieces;
use crate::text::same_text;
use crate::text::split;
use crate::text::texts_of;
use crate::tree::children_at;
use crate::tree::ChildrenIndex;
use crate::tree::ChildrenModel;

verus! {

/// A source of style rules in a document.
#[derive(Debug, PartialEq)]
pub enum ExpandableCssNode {
    Link(String),
    Inline(String),
}

/// What an [`ExpandableCssNode`] holds.
pub enum ExpandableModel {
    Link(Seq<char>),
    Inline(Seq<char>),
}

impl View for ExpandableCssNode {
    type V = ExpandableModel;

    open spec fn view(&self) -> ExpandableModel {
        match *self {
            ExpandableCssNode::Link(link) => ExpandableModel::Link(link@),
            ExpandableCssNode::Inline(text) => ExpandableModel::Inline(text@),
        }
    }
}

pub open spec fn expandables(list: Seq<ExpandableCssNode>) -> Seq<ExpandableModel> {
    Seq::new(list.len(), |i: int| list[i]@)
}

/// The style sheet that a link names, if it is a link to one.
pub open spec fn linked_sheet(node: NodeModel) -> Option<Seq<char>> {
    match (node.has_tag("link"@), node.attribute("href"@), node.attribute("rel"@)) {
        (true, Some(href), Some(rel)) => if pieces(rel, ' ').contains("stylesheet"@) {
            Some(href)
        } else {
            None
        },
        _ => None,
    }
}

/// The text of a node that is the only one on a list.
pub open spec fn only_text(nodes: NodesModel, list: Seq<usize>) -> Option<Seq<char>> {
    if list.len() == 1 {
        match node_at(nodes, list[0]) {
            Some(NodeModel::Text { text, parent }) => Some(text),
            _ => None,
        }
    } else {
        None
    }
}

/// The sources of style rules from a node down, in document order. What stands inside `noscript`
/// does not count.
pub open spec fn sources_below(nodes: NodesModel, children: ChildrenModel, idx: usize) -> Seq<
    ExpandableModel,
>
    decreases depth_of(children)(idx), 1int, 0nat,
    when tree_like(children)
{
    match node_at(nodes, idx) {
        Some(node) => if !(node is Element) {
            Seq::empty()
        } else if node.has_tag("style"@) {
            match children_at(children, idx) {
                Some(list) => match only_text(nodes, list) {
                    Some(text) => seq![ExpandableModel::Inline(text)],
                    None => Seq::empty(),
                },
                None => Seq::empty(),
            }
        } else if let Some(href) = linked_sheet(node) {
            seq![ExpandableModel::Link(href)]
        } else if node.has_tag("noscript"@) {
            Seq::empty()
        } else {
            match children_at(children, idx) {
                Some(list) => sources_of_list(nodes, children, idx, list),
                None => Seq::empty(),
            }
        },
        None => Seq::empty(),
    }
}

pub open spec fn sources_of_list(
    nodes: NodesModel,
    children: ChildrenModel,
    parent: usize,
    list: Seq<usize>,
) -> Seq<ExpandableModel>
    decreases depth_of(children)(parent), 0int, list.len(),
    when tree_like(children)
{
    if list.len() == 0 {
        Seq::empty()
    } else {
        sources_of_list(nodes, children, parent, list.drop_last()) + (if depth_of(children)(
            list.last(),
        ) < depth_of(children)(parent) {
            sources_below(nodes, children, list.last())
        } else {
            Seq::empty()
        })
    }
}

fn find_linked_sheet(node: &HtmlNode) -> (r: Option<String>)
    ensures
        match (r, linked_sheet(node@)) {
            (Some(href), Some(model)) => href@ == model,
            (None, None) => true,
            _ => false,
        },
{
    let element = match node {
        HtmlNode::Element(element) => element,
        _ => {
            return None;
        },
    };
    if !same_text(element.tag.as_str(), "link") {
        return None;
    }
    let href = match element.attributes.get_str("href") {
        Some(href) => href,
        None => {
            return None;
        },
    };
    let rel = match element.attributes.get_str("rel") {
        Some(rel) => rel,
        None => {
            return None;
        },
    };
    let words = split(rel.as_str(), ' ');
    let ghost models = pieces(rel@, ' ');
    let mut at: usize = 0;
    while at < words.len()
        invariant
            at <= words@.len(),
            models == texts_of(words@),
            models == pieces(rel@, ' '),
            forall|i: int| 0 <= i < at ==> models[i] != "stylesheet"@,
            linked_sheet(node@) == (if models.contains("stylesheet"@) {
                Some(href@)
            } else {
                None
            }),
        decreases words@.len() - at,
    {
        assert(models[at as int] == words@[at as int]@);
        if same_text(words[at].as_str(), "stylesheet") {
            return Some(href.clone());
        }
        at = at + 1;
    }
    None
}

fn get_expandable_css_nodes_walk(
    expandable: &mut Vec<ExpandableCssNode>,
    nodes: &NodesTable,
    index: &ChildrenIndex,
    idx: usize,
)
    requires
        tree_like(index@),
    ensures
        expandables(final(expandable)@) == expandables(old(expandable)@) + sources_below(
            nodes@,
            index@,
            idx,
        ),
    decreases depth_of(index@)(idx), 1int,
{
    let ghost start = expandables(expandable@);
    assert(start + Seq::<ExpandableModel>::empty() =~= start);
    let node = match nodes.get(idx) {
        Some(node) => node,
        None => {
            return ;
        },
    };
    match node {
        HtmlNode::Element(_) => {},
        _ => {
            return ;
        },
    }
    if node.is_element("style") {
        match index.get(idx) {
            Some(list) => {
                if list.len() == 1 {
                    match nodes.get(list[0]) {
                        Some(HtmlNode::Text(text)) => {
                            let source = ExpandableCssNode::Inline(text.text.clone());
                            expandable.push(source);
                            assert(expandables(expandable@) =~= start + seq![source@]);
                        },
                        _ => {},
                    }
                }
            },
            None => {},
        }
        return ;
    }
    match find_linked_sheet(node) {
        Some(href) => {
            let source = ExpandableCssNode::Link(href);
            expandable.push(source);
            assert(expandables(expandable@) =~= start + seq![source@]);
            return ;
        },
        None => {},
    }
    if node.is_element("noscript") {
        return ;
    }
    match index.get(idx) {
        Some(list) => {
            let mut at: usize = 0;
            while at < list.len()
                invariant
                    at <= list@.len(),
                    tree_like(index@),
                    children_at(index@, idx) == Some(list@),
                    expandables(expandable@) == start + sources_of_list(
                        nodes@,
                        index@,
                        idx,
                        list@.take(at as int),
                    ),
                decreases list@.len() - at,
            {
                let ghost before = sources_of_list(nodes@, index@, idx, list@.take(at as int));
                proof {
                    assert(list@.take(at + 1).drop_last() =~= list@.take(at as int));
                    lemma_child_is_lower(index@, idx, at as int);
                }
                get_expandable_css_nodes_walk(expandable, nodes, index, list[at]);
                assert(expandables(expandable@) =~= start + (before + sources_below(
                    nodes@,
                    index@,
                    list@[at as int],
                )));
                at = at + 1;
            }
            assert(list@.take(list@.len() as int) =~= list@);
        },
        None => {},
    }
}

/// The sources of style rules in a document, in document order.
pub fn get_expandable_css_nodes(nodes: &NodesTable, root: usize, index: &ChildrenIndex) -> (r: Vec<
    ExpandableCssNode,
>)
    requires
        tree_like(index@),
    ensures
        expandables(r@) == sources_below(nodes@, index@, root),
{
    let mut expandable: Vec<ExpandableCssNode> = Vec::new();
    get_expandable_css_nodes_walk(&mut expandable, nodes, index, root);
    assert(expandables(expandable@) =~= sources_below(nodes@, index@, root));
    expandable
}

pub open spec fn css_models(list: Seq<Node>) -> Seq<CssNodeModel> {
    Seq::new(list.len(), |i: int| list[i]@)
}

/// Nodes whose parents are counted from another place.
pub open spec fn shifted_nodes(nodes: Seq<CssNodeModel>, offset: nat) -> Seq<CssNodeModel> {
    Seq::new(
        nodes.len(),
        |i: int|
            match nodes[i].parent_idx() {
                Some(parent) => nodes[i].with_parent(Some((parent + offset) as usize)),
                None => nodes[i],
            },
    )
}

/// The nodes of several style sheets in one list.
pub open spec fn joined(sheets: Seq<Seq<CssNodeModel>>) -> Seq<CssNodeModel>
    decreases sheets.len(),
{
    if sheets.len() == 0 {
        Seq::empty()
    } else {
        let before = joined(sheets.drop_last());
        before + shifted_nodes(sheets.last(), before.len())
    }
}

/// The style sheets by the numbers that they carry.
pub open spec fn sheets_in_order(chunks: Seq<(usize, Vec<Node>)>) -> Seq<Seq<CssNodeModel>> {
    arranged(
        Seq::new(chunks.len(), |i: int| css_models(chunks[i].1@)),
        stable_positions(Seq::new(chunks.len(), |i: int| chunks[i].0 as i128)),
    )
}

/// Style sheets by the numbers that they carry, each with its number.
pub open spec fn chunks_in_order(chunks: Seq<(usize, Vec<Node>)>) -> Seq<(usize, Vec<Node>)> {
    arranged(chunks, stable_positions(Seq::new(chunks.len(), |i: int| chunks[i].0 as i128)))
}

/// The nodes of several style sheets in one list, each with its parent counted from the start of the
/// list and nothing else changed.
pub open spec fn flattened(chunks: Seq<(usize, Vec<Node>)>) -> Seq<Node>
    decreases chunks.len(),
{
    if chunks.len() == 0 {
        Seq::empty()
    } else {
        let before = flattened(chunks.drop_last());
        before + Seq::new(
            chunks.last().1@.len(),
            |i: int| chunks.last().1@[i].shifted(before.len()),
        )
    }
}

/// Every parent stands in the same style sheet, and all of them together have numbers enough.
pub open spec fn sheets_fit(sheets: Seq<Seq<CssNodeModel>>) -> bool {
    &&& joined(sheets).len() <= usize::MAX
    &&& forall|i: int, k: int|
        0 <= i < sheets.len() && 0 <= k < sheets[i].len() ==> ((#[trigger] sheets[i][k]).parent_idx()
            matches Some(parent) ==> parent < sheets[i].len())
}

proof fn lemma_joined_grows(sheets: Seq<Seq<CssNodeModel>>, at: int)
    requires
        0 <= at <= sheets.len(),
    ensures
        joined(sheets.take(at)).len() <= joined(sheets).len(),
    decreases sheets.len(),
{
    if at == sheets.len() {
        assert(sheets.take(at) =~= sheets);
    } else {
        assert(sheets.drop_last().take(at) =~= sheets.take(at));
        lemma_joined_grows(sheets.drop_last(), at);
    }
}

/// Where in each style sheet every parent is an earlier node, it is one in all of them together.
pub proof fn lemma_joined_in_order(sheets: Seq<Seq<CssNodeModel>>)
    requires
        joined(sheets).len() <= usize::MAX,
        forall|i: int| 0 <= i < sheets.len() ==> in_order(#[trigger] sheets[i]),
    ensures
        in_order(joined(sheets)),
    decreases sheets.len(),
{
    if sheets.len() > 0 {
        let before = joined(sheets.drop_last());
        let sheet = sheets.last();
        assert(sheet == sheets[sheets.len() - 1]);
        assert forall|i: int| 0 <= i < sheets.drop_last().len() implies in_order(
            #[trigger] sheets.drop_last()[i],
        ) by {
            assert(sheets.drop_last()[i] == sheets[i]);
        }
        lemma_joined_in_order(sheets.drop_last());
        assert forall|i: int| 0 <= i < joined(sheets).len() implies ((#[trigger] joined(
            sheets,
        )[i]).parent_idx() matches Some(parent) ==> parent < i) by {
            if i < before.len() {
                assert(joined(sheets)[i] == before[i]);
            } else {
                let own = sheet[i - before.len()];
                assert(joined(sheets)[i] == shifted_nodes(sheet, before.len())[i - before.len()]);
            }
        }
    }
}

/// Joins style sheets into one list of nodes, by the numbers that they carry.
pub fn flatten_css_chunks(chunks: Vec<(usize, Vec<Node>)>) -> (r: Vec<Node>)
    requires
        sheets_fit(sheets_in_order(chunks@)),
    ensures
        r@ == flattened(chunks_in_order(chunks@)),
        css_models(r@) == joined(sheets_in_order(chunks@)),
{
    let ghost given = chunks@;
    let ghost models = Seq::new(given.len(), |i: int| css_models(given[i].1@));
    let mut keys: Vec<i128> = Vec::new();
    let mut at: usize = 0;
    while at < chunks.len()
        invariant
            at <= chunks@.len(),
            keys@ =~= Seq::new(at as nat, |i: int| chunks@[i].0 as i128),
        decreases chunks@.len() - at,
    {
        keys.push(chunks[at].0 as i128);
        at = at + 1;
    }
    let order = stable_order(&keys);
    let ghost sheets = sheets_in_order(given);
    let ghost sorted = chunks_in_order(given);
    proof {
        lemma_stable_positions(keys@);
        assert(sheets =~= arranged(models, order@));
        assert(sorted =~= arranged(given, order@));
    }
    let mut rest = chunks;
    let mut result: Vec<Node> = Vec::new();
    let mut k: usize = 0;
    assert(css_models(result@) =~= joined(sheets.take(0)));
    assert(result@ =~= flattened(sorted.take(0)));
    while k < order.len()
        invariant
            k <= order@.len(),
            sorted == arranged(given, order@),
            result@ == flattened(sorted.take(k as int)),
            order@.len() == given.len(),
            rest@.len() == given.len(),
            models == Seq::new(given.len(), |i: int| css_models(given[i].1@)),
            sheets == arranged(models, order@),
            sheets_fit(sheets),
            forall|i: int| 0 <= i < order@.len() ==> (#[trigger] order@[i]) < given.len(),
            forall|i: int, j: int|
                0 <= i < j < order@.len() ==> #[trigger] order@[i] != #[trigger] order@[j],
            forall|i: int|
                k <= i < order@.len() ==> rest@[#[trigger] order@[i] as int].1
                    == given[order@[i] as int].1,
            css_models(result@) == joined(sheets.take(k as int)),
        decreases order@.len() - k,
    {
        let ghost earlier = result@;
        let ghost before = css_models(result@);
        let ghost sheet = sheets[k as int];
        let place: usize = order[k];
        let mut nodes: Vec<Node> = Vec::new();
        std::mem::swap(&mut nodes, &mut rest[place].1);
        let ghost taken = nodes@;
        proof {
            assert(css_models(taken) == sheet);
            assert(taken == sorted[k as int].1@);
            assert(sorted.take(k + 1).drop_last() =~= sorted.take(k as int));
            assert(sheets.take(k + 1).drop_last() =~= sheets.take(k as int));
            lemma_joined_grows(sheets, k + 1);
            assert(joined(sheets.take(k + 1)).len() == before.len() + sheet.len());
        }
        let offset: usize = result.len();
        let mut reversed: Vec<Node> = Vec::new();
        while nodes.len() > 0
            invariant
                nodes@.len() + reversed@.len() == taken.len(),
                forall|i: int| 0 <= i < nodes@.len() ==> #[trigger] nodes@[i] == taken[i],
                forall|i: int|
                    0 <= i < reversed@.len() ==> #[trigger] reversed@[i] == taken[taken.len() - 1
                        - i],
            decreases nodes@.len(),
        {
            match nodes.pop() {
                Some(node) => {
                    reversed.push(node);
                },
                None => {},
            }
        }
        while reversed.len() > 0
            invariant
                reversed@.len() <= taken.len(),
                result@.len() + reversed@.len() == before.len() + taken.len(),
                offset == before.len(),
                before.len() + sheet.len() <= usize::MAX,
                css_models(taken) == sheet,
                0 <= k < sheets.len(),
                sheet == sheets[k as int],
                sheets_fit(sheets),
                forall|i: int|
                    0 <= i < reversed@.len() ==> #[trigger] reversed@[i] == taken[taken.len() - 1
                        - i],
                before.len() == earlier.len(),
                forall|i: int| 0 <= i < earlier.len() ==> #[trigger] result@[i] == earlier[i],
                forall|i: int|
                    earlier.len() <= i < result@.len() ==> #[trigger] result@[i] == taken[i
                        - earlier.len()].shifted(earlier.len()),
                forall|i: int| 0 <= i < before.len() ==> (#[trigger] result@[i])@ == before[i],
                forall|i: int|
                    before.len() <= i < result@.len() ==> (#[trigger] result@[i])@
                        == shifted_nodes(sheet, before.len())[i - before.len()],
            decreases reversed@.len(),
        {
            let ghost position = taken.len() - reversed@.len();
            match reversed.pop() {
                Some(mut node) => {
                    proof {
                        assert(node == taken[position]);
                        assert(sheet[position] == taken[position]@);
                        assert(sheets[k as int][position].parent_idx() matches Some(parent) ==> parent
                            < sheet.len());
                    }
                    node.offset_parent(offset);
                    assert(node@ == shifted_nodes(sheet, before.len())[position]);
                    result.push(node);
                },
                None => {},
            }
        }
        proof {
            assert(css_models(result@) =~= before + shifted_nodes(sheet, before.len()));
            assert(result@ =~= earlier + Seq::new(
                taken.len(),
                |i: int| taken[i].shifted(earlier.len()),
            ));
        }
        k = k + 1;
    }
    assert(sheets.take(sheets.len() as int) =~= sheets);
    assert(sorted.take(sorted.len() as int) =~= sorted);
    result
}

/// Style sheets whose numbers differ come to the same list in whatever order they are handed over.
pub proof fn lemma_chunks_in_any_order(
    a: Seq<(usize, Vec<Node>)>,
    b: Seq<(usize, Vec<Node>)>,
)
    requires
        a.len() <= usize::MAX,
        a.len() == b.len(),
        forall|i: int, j: int|
            0 <= i < j < a.len() ==> (#[trigger] a[i]).0 != (#[trigger] a[j]).0,
        forall|i: int, j: int|
            0 <= i < j < b.len() ==> (#[trigger] b[i]).0 != (#[trigger] b[j]).0,
        forall|chunk: (usize, Vec<Node>)| #[trigger] a.contains(chunk) <==> b.contains(chunk),
    ensures
        chunks_in_order(a) == chunks_in_order(b),
        flattened(chunks_in_order(a)) == flattened(chunks_in_order(b)),
{
    lemma_chunks_ascend(a);
    lemma_chunks_ascend(b);
    assert forall|i: int| 0 <= i < a.len() implies #[trigger] chunks_in_order(a)[i]
        == chunks_in_order(b)[i] by {
        lemma_same_chunk(a, b, i);
    }
    assert(chunks_in_order(a) =~= chunks_in_order(b));
}

proof fn lemma_same_chunk(a: Seq<(usize, Vec<Node>)>, b: Seq<(usize, Vec<Node>)>, i: int)
    requires
        a.len() <= usize::MAX,
        a.len() == b.len(),
        0 <= i < a.len(),
        forall|i: int, j: int|
            0 <= i < j < a.len() ==> (#[trigger] a[i]).0 != (#[trigger] a[j]).0,
        forall|i: int, j: int|
            0 <= i < j < b.len() ==> (#[trigger] b[i]).0 != (#[trigger] b[j]).0,
        forall|chunk: (usize, Vec<Node>)| #[trigger] a.contains(chunk) <==> b.contains(chunk),
    ensures
        chunks_in_order(a)[i] == chunks_in_order(b)[i],
    decreases i,
{
    let x = chunks_in_order(a);
    let y = chunks_in_order(b);
    lemma_chunks_ascend(a);
    lemma_chunks_ascend(b);
    assert forall|k: int| 0 <= k < i implies #[trigger] x[k] == y[k] by {
        lemma_same_chunk(a, b, k);
    }
    assert(x.contains(x[i]) && y.contains(y[i]));
    assert(a.contains(x[i]) && b.contains(y[i]));
    assert(y.contains(x[i]) && x.contains(y[i]));
    let j = choose|j: int| 0 <= j < y.len() && y[j] == x[i];
    let k = choose|k: int| 0 <= k < x.len() && x[k] == y[i];
    if j < i {
        assert(x[j] == y[j]);
    }
    if k < i {
        assert(x[k] == y[k]);
    }
}

/// In order, the numbers of style sheets that differ ascend, and no sheet is lost.
proof fn lemma_chunks_ascend(chunks: Seq<(usize, Vec<Node>)>)
    requires
        chunks.len() <= usize::MAX,
        forall|i: int, j: int|
            0 <= i < j < chunks.len() ==> (#[trigger] chunks[i]).0 != (#[trigger] chunks[j]).0,
    ensures
        chunks_in_order(chunks).len() == chunks.len(),
        forall|i: int, j: int|
            0 <= i < j < chunks.len() ==> (#[trigger] chunks_in_order(chunks)[i]).0 < (
            #[trigger] chunks_in_order(chunks)[j]).0,
        forall|chunk: (usize, Vec<Node>)| #[trigger]
            chunks_in_order(chunks).contains(chunk) <==> chunks.contains(chunk),
{
    let keys = Seq::new(chunks.len(), |i: int| chunks[i].0 as i128);
    lemma_stable_positions(keys);
    let order = stable_positions(keys);
    let sorted = chunks_in_order(chunks);
    assert forall|i: int, j: int| 0 <= i < j < chunks.len() implies (#[trigger] sorted[i]).0 < (
    #[trigger] sorted[j]).0 by {
        assert(precedes(keys, order[i], order[j]));
        let (p, q) = (order[i] as int, order[j] as int);
        if p < q {
            assert(chunks[p].0 != chunks[q].0);
        } else if q < p {
            assert(chunks[q].0 != chunks[p].0);
        }
    }
    assert forall|chunk: (usize, Vec<Node>)| #[trigger]
        sorted.contains(chunk) <==> chunks.contains(chunk) by {
        if sorted.contains(chunk) {
            let i = choose|i: int| 0 <= i < sorted.len() && sorted[i] == chunk;
            assert(chunks[order[i] as int] == chunk);
        }
        if chunks.contains(chunk) {
            let p = choose|p: int| 0 <= p < chunks.len() && chunks[p] == chunk;
            assert(order.contains(p as usize));
            let i = choose|i: int| 0 <= i < order.len() && order[i] == p as usize;
            assert(sorted[i] == chunk);
        }
    }
}

/// Every node of a style sheet stands in the list behind all sheets before its own, and its parent is
/// counted from there: it is still the same node.
pub proof fn lemma_flattened_keeps_links(chunks: Seq<(usize, Vec<Node>)>, i: int, k: int)
    requires
        0 <= i < chunks.len(),
        0 <= k < chunks[i].1@.len(),
        flattened(chunks).len() <= usize::MAX,
        chunks[i].1@[k]@.parent_idx() matches Some(parent) ==> parent < chunks[i].1@.len(),
    ensures
        ({
            let start = flattened(chunks.take(i)).len();
            let all = flattened(chunks);
            &&& start + chunks[i].1@.len() <= all.len()
            &&& all[start + k] == chunks[i].1@[k].shifted(start)
            &&& match chunks[i].1@[k]@.parent_idx() {
                Some(parent) => {
                    &&& all[start + k]@.parent_idx() == Some((start + parent) as usize)
                    &&& all[start + parent] == chunks[i].1@[parent as int].shifted(start)
                },
                None => all[start + k]@.parent_idx() is None,
            }
        }),
    decreases chunks.len(),
{
    let before = flattened(chunks.drop_last());
    assert(chunks.drop_last() =~= chunks.take(chunks.len() - 1));
    if i < chunks.len() - 1 {
        assert(chunks.drop_last().take(i) =~= chunks.take(i));
        assert(chunks.drop_last()[i] == chunks[i]);
        lemma_flattened_keeps_links(chunks.drop_last(), i, k);
    }
}

/// The nodes among the first ones whose parent is `parent`, in order.
pub open spec fn css_children(nodes: Seq<CssNodeModel>, count: nat, parent: usize) -> Seq<usize>
    decreases count,
{
    if count == 0 || count > nodes.len() {
        Seq::empty()
    } else if nodes[count - 1].parent_idx() == Some(parent) {
        css_children(nodes, (count - 1) as nat, parent).push((count - 1) as usize)
    } else {
        css_children(nodes, (count - 1) as nat, parent)
    }
}

/// Lists for every node of a style sheet its children; a node without any has no list.
pub fn build_css_children_index(nodes: &Vec<Node>) -> (r: ChildrenIndex)
    requires
        forall|i: int|
            0 <= i < nodes@.len() ==> ((#[trigger] nodes@[i])@.parent_idx() matches Some(parent)
                ==> parent < usize::MAX),
    ensures
        forall|p: usize| #[trigger]
            children_at(r@, p) == (if css_children(css_models(nodes@), nodes@.len(), p).len() > 0 {
                Some(css_children(css_models(nodes@), nodes@.len(), p))
            } else {
                None
            }),
{
    let ghost models = css_models(nodes@);
    let mut index = ChildrenIndex::new();
    let mut at: usize = 0;
    while at < nodes.len()
        invariant
            at <= nodes@.len(),
            models == css_models(nodes@),
            forall|i: int|
                0 <= i < nodes@.len() ==> ((#[trigger] nodes@[i])@.parent_idx() matches Some(parent)
                    ==> parent < usize::MAX),
            forall|p: usize| #[trigger]
                children_at(index@, p) == (if css_children(models, at as nat, p).len() > 0 {
                    Some(css_children(models, at as nat, p))
                } else {
                    None
                }),
        decreases nodes@.len() - at,
    {
        let ghost before = index@;
        assert(models[at as int] == nodes@[at as int]@);
        match nodes[at].get_parent() {
            Some(parent) => {
                let mut list = index.list_or_empty(parent);
                list.push(at);
                index.insert(parent, list);
                assert forall|p: usize| #[trigger]
                    children_at(index@, p) == (if css_children(models, (at + 1) as nat, p).len()
                        > 0 {
                        Some(css_children(models, (at + 1) as nat, p))
                    } else {
                        None
                    }) by {
                    assert(children_at(before, p) == children_at(before, p));
                    if p == parent {
                        assert(list@ =~= css_children(models, (at + 1) as nat, p));
                    }
                }
            },
            None => {},
        }
        at = at + 1;
    }
    index
}

/// What is declared of a property of its own.
#[derive(Debug)]
pub struct ParsedPropertyDefinition {
    pub property: String,
    pub syntax: Option<String>,
    pub initial_value: Option<String>,
}

/// What a [`ParsedPropertyDefinition`] holds.
pub struct DefinitionModel {
    pub property: Seq<char>,
    pub syntax: Option<Seq<char>>,
    pub initial_value: Option<Seq<char>>,
}

pub open spec fn optional_text(text: Option<String>) -> Option<Seq<char>> {
    match text {
        Some(text) => Some(text@),
        None => None,
    }
}

impl View for ParsedPropertyDefinition {
    type V = DefinitionModel;

    open spec fn view(&self) -> DefinitionModel {
        DefinitionModel {
            property: self.property@,
            syntax: optional_text(self.syntax),
            initial_value: optional_text(self.initial_value),
        }
    }
}

pub open spec fn definition_models(list: Seq<ParsedPropertyDefinition>) -> Seq<DefinitionModel> {
    Seq::new(list.len(), |i: int| list[i]@)
}

/// The text that the last of the first declarations of a property on a list gives it.
pub open spec fn declared_text(
    nodes: Seq<CssNodeModel>,
    list: Seq<usize>,
    count: nat,
    property: Seq<char>,
) -> Option<Seq<char>>
    decreases count,
{
    if count == 0 || count > list.len() {
        None
    } else {
        let before = declared_text(nodes, list, (count - 1) as nat, property);
        if list[count - 1] >= nodes.len() {
            before
        } else {
            match nodes[list[count - 1] as int] {
                CssNodeModel::Property { name, value, important, parent } => if name == property
                    && value is Some {
                    value
                } else {
                    before
                },
                _ => before,
            }
        }
    }
}

/// The definitions of properties among the first nodes. One that holds nothing does not count.
pub open spec fn definitions_in(nodes: Seq<CssNodeModel>, count: nat) -> Seq<DefinitionModel>
    decreases count,
{
    if count == 0 || count > nodes.len() {
        Seq::empty()
    } else {
        let before = definitions_in(nodes, (count - 1) as nat);
        let list = css_children(nodes, nodes.len(), (count - 1) as usize);
        match nodes[count - 1] {
            CssNodeModel::PropertyDefinition { name, parent } => if list.len() > 0 {
                before.push(
                    DefinitionModel {
                        property: name,
                        syntax: declared_text(nodes, list, list.len(), "syntax"@),
                        initial_value: declared_text(nodes, list, list.len(), "initial-value"@),
                    },
                )
            } else {
                before
            },
            _ => before,
        }
    }
}

fn find_declared_text(nodes: &Vec<Node>, list: &Vec<usize>, property: &str) -> (r: Option<String>)
    ensures
        optional_text(r) == declared_text(
            css_models(nodes@),
            list@,
            list@.len(),
            property@,
        ),
{
    let ghost models = css_models(nodes@);
    let mut text: Option<String> = None;
    let mut at: usize = 0;
    while at < list.len()
        invariant
            at <= list@.len(),
            models == css_models(nodes@),
            optional_text(text) == declared_text(models, list@, at as nat, property@),
        decreases list@.len() - at,
    {
        let idx: usize = list[at];
        if idx < nodes.len() {
            assert(models[idx as int] == nodes@[idx as int]@);
            match &nodes[idx] {
                Node::Property(node) => {
                    if same_text(node.property.as_str(), property) {
                        match &node.value {
                            PropertyValue::Raw(value) => {
                                text = Some(value.clone());
                            },
                            _ => {},
                        }
                    }
                },
                _ => {},
            }
        }
        at = at + 1;
    }
    text
}

/// The definitions of properties in a style sheet.
pub fn get_parsed_property_definitions(nodes: &Vec<Node>, index: &ChildrenIndex) -> (r: Vec<
    ParsedPropertyDefinition,
>)
    requires
        forall|p: usize| #[trigger]
            children_at(index@, p) == (if css_children(css_models(nodes@), nodes@.len(), p).len()
                > 0 {
                Some(css_children(css_models(nodes@), nodes@.len(), p))
            } else {
                None
            }),
    ensures
        definition_models(r@) == definitions_in(css_models(nodes@), nodes@.len()),
{
    let ghost models = css_models(nodes@);
    let mut definitions: Vec<ParsedPropertyDefinition> = Vec::new();
    let mut at: usize = 0;
    assert(definition_models(definitions@) =~= Seq::empty());
    while at < nodes.len()
        invariant
            at <= nodes@.len(),
            models == css_models(nodes@),
            forall|p: usize| #[trigger]
                children_at(index@, p) == (if css_children(models, nodes@.len(), p).len() > 0 {
                    Some(css_children(models, nodes@.len(), p))
                } else {
                    None
                }),
            definition_models(definitions@) == definitions_in(models, at as nat),
        decreases nodes@.len() - at,
    {
        let ghost before = definition_models(definitions@);
        assert(models[at as int] == nodes@[at as int]@);
        assert(children_at(index@, at) == children_at(index@, at));
        match &nodes[at] {
            Node::PropertyDefinition(node) => match index.get(at) {
                Some(list) => {
                    let definition = ParsedPropertyDefinition {
                        property: node.name.clone(),
                        syntax: find_declared_text(nodes, list, "syntax"),
                        initial_value: find_declared_text(nodes, list, "initial-value"),
                    };
                    definitions.push(definition);
                    assert(definition_models(definitions@) =~= before.push(definition@));
                },
                None => {},
            },
            _ => {},
        }
        at = at + 1;
    }
    definitions
}

/// The variables of a style sheet by number. A name that is defined again gets a new number.
#[derive(Debug)]
pub struct VariableDefinitions {
    pub data: Vec<ParsedPropertyDefinition>,
}

/// The last number of a name.
pub open spec fn variable_number(data: Seq<DefinitionModel>, name: Seq<char>) -> Option<usize>
    decreases data.len(),
{
    if data.len() == 0 {
        None
    } else if data.last().property == name {
        Some((data.len() - 1) as usize)
    } else {
        variable_number(data.drop_last(), name)
    }
}

impl View for VariableDefinitions {
    type V = Seq<DefinitionModel>;

    open spec fn view(&self) -> Seq<DefinitionModel> {
        definition_models(self.data@)
    }
}

impl VariableDefinitions {
    pub fn new() -> (r: VariableDefinitions)
        ensures
            r@ == Seq::<DefinitionModel>::empty(),
    {
        let r = VariableDefinitions { data: Vec::new() };
        assert(r@ =~= Seq::<DefinitionModel>::empty());
        r
    }

    /// Gives a definition the next number.
    pub fn insert_definition(&mut self, def: ParsedPropertyDefinition)
        ensures
            final(self)@ == old(self)@.push(def@),
    {
        self.data.push(def);
        assert(self@ =~= old(self)@.push(def@));
    }

    /// The last number of a name.
    pub fn variable_to_idx(&self, name: &str) -> (r: Option<usize>)
        ensures
            r == variable_number(self@, name@),
    {
        let mut at: usize = self.data.len();
        assert(self@.take(at as int) =~= self@);
        while at > 0
            invariant
                at <= self.data@.len(),
                variable_number(self@, name@) == variable_number(self@.take(at as int), name@),
            decreases at,
        {
            assert(self@.take(at as int).drop_last() =~= self@.take(at - 1));
            assert(self@.take(at as int).last() == self.data@[at - 1]@);
            if same_text(self.data[at - 1].property.as_str(), name) {
                return Some((at - 1) as usize);
            }
            at = at - 1;
        }
        None
    }
}

/// A definition is found under its name, with the next number, and changes no other name.
pub proof fn lemma_definition_is_found(
    data: Seq<DefinitionModel>,
    definition: DefinitionModel,
    other: Seq<char>,
)
    requires
        data.len() < usize::MAX,
    ensures
        variable_number(data.push(definition), definition.property) == Some(data.len() as usize),
        other != definition.property ==> variable_number(data.push(definition), other)
            == variable_number(data, other),
{
    assert(data.push(definition).drop_last() =~= data);
}

/// The definitions with the variables of the first nodes that have none.
pub open spec fn with_variables(
    data: Seq<DefinitionModel>,
    nodes: Seq<CssNodeModel>,
    count: nat,
) -> Seq<DefinitionModel>
    decreases count,
{
    if count == 0 || count > nodes.len() {
        data
    } else {
        let before = with_variables(data, nodes, (count - 1) as nat);
        match nodes[count - 1] {
            CssNodeModel::Variable { name, value, parent } => if variable_number(before, name)
                is None {
                before.push(DefinitionModel { property: name, syntax: None, initial_value: None })
            } else {
                before
            },
            _ => before,
        }
    }
}

/// Numbers the defined properties, then the variables that are set without a definition.
pub fn build_definitions_map(
    parsed_definitions: Vec<ParsedPropertyDefinition>,
    nodes: &Vec<Node>,
) -> (r: VariableDefinitions)
    ensures
        r@ == with_variables(
            definition_models(parsed_definitions@),
            css_models(nodes@),
            nodes@.len(),
        ),
{
    let ghost given = definition_models(parsed_definitions@);
    let ghost models = css_models(nodes@);
    let mut definitions = VariableDefinitions { data: parsed_definitions };
    let mut at: usize = 0;
    while at < nodes.len()
        invariant
            at <= nodes@.len(),
            models == css_models(nodes@),
            definitions@ == with_variables(given, models, at as nat),
        decreases nodes@.len() - at,
    {
        assert(models[at as int] == nodes@[at as int]@);
        match &nodes[at] {
            Node::Variable(node) => {
                if definitions.variable_to_idx(node.variable.as_str()).is_none() {
                    definitions.insert_definition(
                        ParsedPropertyDefinition {
                            property: node.variable.clone(),
                            syntax: None,
                            initial_value: None,
                        },
                    );
                }
            },
            _ => {},
        }
        at = at + 1;
    }
    definitions
}

/// Whether a node is a declaration.
pub open spec fn is_declaration(node: CssNodeModel) -> bool {
    node is Property || node is Variable
}

pub open spec fn is_important(node: CssNodeModel) -> bool {
    match node {
        CssNodeModel::Property { name, value, important, parent } => important,
        _ => false,
    }
}

/// The nearest layer around a node.
pub open spec fn layer_around(nodes: Seq<CssNodeModel>, idx: int) -> Option<usize>
    decreases idx,
{
    if idx < 0 || idx >= nodes.len() {
        None
    } else {
        match nodes[idx].parent_idx() {
            None => None,
            Some(parent) => if parent >= idx {
                None
            } else if nodes[parent as int] is Layer {
                Some(parent)
            } else {
                layer_around(nodes, parent as int)
            },
        }
    }
}

/// The weight of the selector of the rule around a declaration.
pub open spec fn weight_of(
    nodes: Seq<CssNodeModel>,
    weights: Seq<Option<Specificity>>,
    idx: int,
) -> Specificity {
    match nodes[idx].parent_idx() {
        Some(parent) => if parent < weights.len() && weights[parent as int] is Some {
            weights[parent as int]->0
        } else {
            Specificity { ids: 0, classes: 0, tags: 0 }
        },
        None => Specificity { ids: 0, classes: 0, tags: 0 },
    }
}

pub open spec fn lighter(a: Specificity, b: Specificity) -> bool {
    a.ids < b.ids || (a.ids == b.ids && (a.classes < b.classes || (a.classes == b.classes && a.tags
        < b.tags)))
}

/// Whether a layer comes before another. What stands in no layer comes last.
pub open spec fn layer_before(a: Option<usize>, b: Option<usize>) -> bool {
    match (a, b) {
        (Some(a), Some(b)) => a < b,
        (Some(_), None) => true,
        (None, _) => false,
    }
}

/// Whether a declaration comes before another: important ones last, then by layer, by the weight of
/// the selector and by place.
pub open spec fn declared_before(
    nodes: Seq<CssNodeModel>,
    weights: Seq<Option<Specificity>>,
    a: int,
    b: int,
) -> bool {
    let layer_a = layer_around(nodes, a);
    let layer_b = layer_around(nodes, b);
    let weight_a = weight_of(nodes, weights, a);
    let weight_b = weight_of(nodes, weights, b);
    if is_important(nodes[a]) != is_important(nodes[b]) {
        is_important(nodes[b])
    } else if layer_a != layer_b {
        layer_before(layer_a, layer_b)
    } else if weight_a != weight_b {
        lighter(weight_a, weight_b)
    } else {
        a < b
    }
}

/// How many of the first declarations come before a declaration.
pub open spec fn rank_among(
    nodes: Seq<CssNodeModel>,
    weights: Seq<Option<Specificity>>,
    idx: int,
    count: nat,
) -> nat
    decreases count,
{
    if count == 0 || count > nodes.len() {
        0
    } else {
        rank_among(nodes, weights, idx, (count - 1) as nat) + (if is_declaration(nodes[count - 1])
            && declared_before(nodes, weights, count - 1, idx) {
            1nat
        } else {
            0nat
        })
    }
}

/// The declarations have one order: of two different ones, exactly one comes before the other.
pub proof fn lemma_declarations_are_ordered(
    nodes: Seq<CssNodeModel>,
    weights: Seq<Option<Specificity>>,
    a: int,
    b: int,
)
    requires
        a != b,
    ensures
        declared_before(nodes, weights, a, b) != declared_before(nodes, weights, b, a),
{
}

/// The order of declarations does not run in circles.
pub proof fn lemma_declaration_order_is_transitive(
    nodes: Seq<CssNodeModel>,
    weights: Seq<Option<Specificity>>,
    a: int,
    b: int,
    c: int,
)
    requires
        declared_before(nodes, weights, a, b),
        declared_before(nodes, weights, b, c),
    ensures
        declared_before(nodes, weights, a, c),
{
}

proof fn lemma_rank_grows(
    nodes: Seq<CssNodeModel>,
    weights: Seq<Option<Specificity>>,
    a: int,
    b: int,
    count: nat,
)
    requires
        count <= nodes.len(),
        0 <= a < nodes.len(),
        is_declaration(nodes[a]),
        declared_before(nodes, weights, a, b),
    ensures
        rank_among(nodes, weights, a, count) + (if a < count {
            1nat
        } else {
            0nat
        }) <= rank_among(nodes, weights, b, count),
    decreases count,
{
    if count > 0 {
        lemma_rank_grows(nodes, weights, a, b, (count - 1) as nat);
        let last = count - 1;
        if is_declaration(nodes[last]) && declared_before(nodes, weights, last, a) {
            lemma_declaration_order_is_transitive(nodes, weights, last, a, b);
        }
        if last == a {
            assert(!declared_before(nodes, weights, a, a));
        }
    }
}

/// The ranks keep the order: a declaration that comes before another has the smaller rank.
pub proof fn lemma_ranks_keep_order(
    nodes: Seq<CssNodeModel>,
    weights: Seq<Option<Specificity>>,
    a: int,
    b: int,
)
    requires
        0 <= a < nodes.len(),
        is_declaration(nodes[a]),
        declared_before(nodes, weights, a, b),
    ensures
        rank_among(nodes, weights, a, nodes.len()) < rank_among(nodes, weights, b, nodes.len()),
{
    lemma_rank_grows(nodes, weights, a, b, nodes.len());
}

fn find_layer(nodes: &Vec<Node>, idx: usize) -> (r: Option<usize>)
    ensures
        r == layer_around(css_models(nodes@), idx as int),
{
    let ghost models = css_models(nodes@);
    let mut current: usize = idx;
    loop
        invariant
            models == css_models(nodes@),
            layer_around(models, idx as int) == layer_around(models, current as int),
        decreases current,
    {
        if current >= nodes.len() {
            return None;
        }
        assert(models[current as int] == nodes@[current as int]@);
        match nodes[current].get_parent() {
            None => {
                return None;
            },
            Some(parent) => {
                if parent >= current {
                    return None;
                }
                assert(models[parent as int] == nodes@[parent as int]@);
                match &nodes[parent] {
                    Node::Layer(_) => {
                        return Some(parent);
                    },
                    _ => {},
                }
                current = parent;
            },
        }
    }
}

fn find_weight(nodes: &Vec<Node>, weights: &Vec<Option<Specificity>>, idx: usize) -> (r: Specificity)
    requires
        idx < nodes@.len(),
    ensures
        r == weight_of(css_models(nodes@), weights@, idx as int),
{
    let none = Specificity { ids: 0, classes: 0, tags: 0 };
    match nodes[idx].get_parent() {
        Some(parent) => if parent < weights.len() {
            match weights[parent] {
                Some(weight) => weight,
                None => none,
            }
        } else {
            none
        },
        None => none,
    }
}

/// What the order of declarations looks at.
struct RankKey {
    important: bool,
    layer: Option<usize>,
    weight: Specificity,
}

spec fn key_matches(
    key: RankKey,
    nodes: Seq<CssNodeModel>,
    weights: Seq<Option<Specificity>>,
    idx: int,
) -> bool {
    &&& key.important == is_important(nodes[idx])
    &&& key.layer == layer_around(nodes, idx)
    &&& key.weight == weight_of(nodes, weights, idx)
}

fn comes_before(a: &RankKey, a_idx: usize, b: &RankKey, b_idx: usize) -> (r: bool)
    ensures
        forall|nodes: Seq<CssNodeModel>, weights: Seq<Option<Specificity>>|
            key_matches(*a, nodes, weights, a_idx as int) && key_matches(
                *b,
                nodes,
                weights,
                b_idx as int,
            ) ==> r == #[trigger] declared_before(nodes, weights, a_idx as int, b_idx as int),
{
    if a.important != b.important {
        return b.important;
    }
    match (a.layer, b.layer) {
        (Some(own), Some(other)) => {
            if own != other {
                return own < other;
            }
        },
        (Some(_), None) => {
            return true;
        },
        (None, Some(_)) => {
            return false;
        },
        (None, None) => {},
    }
    if a.weight.ids != b.weight.ids {
        return a.weight.ids < b.weight.ids;
    }
    if a.weight.classes != b.weight.classes {
        return a.weight.classes < b.weight.classes;
    }
    if a.weight.tags != b.weight.tags {
        return a.weight.tags < b.weight.tags;
    }
    a_idx < b_idx
}

/// The rank of every declaration: how many others come before it. Other nodes have rank zero.
pub fn compute_css_node_ranking(nodes: &Vec<Node>, weights: &Vec<Option<Specificity>>) -> (r: Vec<
    usize,
>)
    ensures
        r@.len() == nodes@.len(),
        forall|i: int|
            0 <= i < nodes@.len() ==> (#[trigger] r@[i]) == (if is_declaration(
                css_models(nodes@)[i],
            ) {
                rank_among(css_models(nodes@), weights@, i, nodes@.len())
            } else {
                0nat
            }),
{
    let ghost models = css_models(nodes@);
    let mut keys: Vec<RankKey> = Vec::new();
    let mut declares: Vec<bool> = Vec::new();
    let mut at: usize = 0;
    while at < nodes.len()
        invariant
            at <= nodes@.len(),
            models == css_models(nodes@),
            keys@.len() == at,
            declares@.len() == at,
            forall|i: int|
                0 <= i < at ==> key_matches(#[trigger] keys@[i], models, weights@, i),
            forall|i: int| 0 <= i < at ==> (#[trigger] declares@[i]) == is_declaration(models[i]),
        decreases nodes@.len() - at,
    {
        assert(models[at as int] == nodes@[at as int]@);
        let (declaration, important): (bool, bool) = match &nodes[at] {
            Node::Property(node) => (true, node.important),
            Node::Variable(_) => (true, false),
            _ => (false, false),
        };
        keys.push(
            RankKey {
                important,
                layer: find_layer(nodes, at),
                weight: find_weight(nodes, weights, at),
            },
        );
        declares.push(declaration);
        at = at + 1;
    }
    let mut rankings: Vec<usize> = Vec::new();
    let mut idx: usize = 0;
    while idx < nodes.len()
        invariant
            idx <= nodes@.len(),
            models == css_models(nodes@),
            keys@.len() == nodes@.len(),
            declares@.len() == nodes@.len(),
            forall|i: int|
                0 <= i < nodes@.len() ==> key_matches(#[trigger] keys@[i], models, weights@, i),
            forall|i: int|
                0 <= i < nodes@.len() ==> (#[trigger] declares@[i]) == is_declaration(models[i]),
            rankings@.len() == idx,
            forall|i: int|
                0 <= i < idx ==> (#[trigger] rankings@[i]) == (if is_declaration(models[i]) {
                    rank_among(models, weights@, i, nodes@.len())
                } else {
                    0nat
                }),
        decreases nodes@.len() - idx,
    {
        let mut rank: usize = 0;
        if declares[idx] {
            let mut other: usize = 0;
            while other < nodes.len()
                invariant
                    other <= nodes@.len(),
                    idx < nodes@.len(),
                    models == css_models(nodes@),
                    keys@.len() == nodes@.len(),
                    declares@.len() == nodes@.len(),
                    forall|i: int|
                        0 <= i < nodes@.len() ==> key_matches(
                            #[trigger] keys@[i],
                            models,
                            weights@,
                            i,
                        ),
                    forall|i: int|
                        0 <= i < nodes@.len() ==> (#[trigger] declares@[i]) == is_declaration(
                            models[i],
                        ),
                    rank == rank_among(models, weights@, idx as int, other as nat),
                    rank <= other,
                decreases nodes@.len() - other,
            {
                let before = comes_before(&keys[other], other, &keys[idx], idx);
                assert(before == declared_before(models, weights@, other as int, idx as int));
                if declares[other] && before {
                    rank = rank + 1;
                }
                other = other + 1;
            }
        }
        rankings.push(rank);
        idx = idx + 1;
    }
    rankings
}

/// The nodes of a style sheet that hold declarations: the parents of those, in ascending order.
pub open spec fn holds_declarations(nodes: Seq<CssNodeModel>, idx: usize) -> bool {
    exists|i: int|
        0 <= i < nodes.len() && is_declaration(#[trigger] nodes[i]) && nodes[i].parent_idx()
            == Some(idx)
}

/// The nodes of a style sheet that have to be searched for: those that hold declarations, in
/// ascending order.
pub fn nodes_to_resolve(nodes: &Vec<Node>) -> (r: Vec<usize>)
    ensures
        forall|i: int|
            0 <= i < r@.len() ==> holds_declarations(css_models(nodes@), #[trigger] r@[i]) && r@[i]
                < nodes@.len(),
        forall|i: int, j: int| 0 <= i < j < r@.len() ==> r@[i] < r@[j],
        forall|idx: usize|
            idx < nodes@.len() && holds_declarations(css_models(nodes@), idx)
                ==> #[trigger] r@.contains(idx),
{
    let ghost models = css_models(nodes@);
    let mut flags: Vec<bool> = Vec::new();
    let mut k: usize = 0;
    while k < nodes.len()
        invariant
            k <= nodes@.len(),
            flags@.len() == k,
            forall|i: int| 0 <= i < k ==> !#[trigger] flags@[i],
        decreases nodes@.len() - k,
    {
        flags.push(false);
        k = k + 1;
    }
    let mut at: usize = 0;
    while at < nodes.len()
        invariant
            at <= nodes@.len(),
            models == css_models(nodes@),
            flags@.len() == nodes@.len(),
            forall|idx: int|
                0 <= idx < flags@.len() ==> (#[trigger] flags@[idx]) == holds_declarations(
                    models.take(at as int),
                    idx as usize,
                ),
        decreases nodes@.len() - at,
    {
        let ghost before = flags@;
        let ghost taken = models.take(at as int);
        let ghost more = models.take(at + 1);
        assert(models[at as int] == nodes@[at as int]@);
        let declaration = match &nodes[at] {
            Node::Property(_) | Node::Variable(_) => true,
            _ => false,
        };
        let parent = nodes[at].get_parent();
        if declaration {
            match parent {
                Some(parent) => {
                    if parent < flags.len() {
                        flags[parent] = true;
                    }
                },
                None => {},
            }
        }
        assert forall|idx: int| 0 <= idx < flags@.len() implies (#[trigger] flags@[idx])
            == holds_declarations(more, idx as usize) by {
            assert(more[at as int] == models[at as int]);
            assert(before[idx] == holds_declarations(taken, idx as usize));
            if holds_declarations(taken, idx as usize) {
                let i = choose|i: int|
                    0 <= i < taken.len() && is_declaration(#[trigger] taken[i])
                        && taken[i].parent_idx() == Some(idx as usize);
                assert(more[i] == taken[i]);
            }
            if holds_declarations(more, idx as usize) {
                let i = choose|i: int|
                    0 <= i < more.len() && is_declaration(#[trigger] more[i])
                        && more[i].parent_idx() == Some(idx as usize);
                if i < at {
                    assert(taken[i] == more[i]);
                }
            }
        }
        at = at + 1;
    }
    assert(models.take(models.len() as int) =~= models);
    let mut list: Vec<usize> = Vec::new();
    let mut j: usize = 0;
    while j < flags.len()
        invariant
            j <= flags@.len(),
            flags@.len() == nodes@.len(),
            forall|idx: int|
                0 <= idx < flags@.len() ==> (#[trigger] flags@[idx]) == holds_declarations(
                    models,
                    idx as usize,
                ),
            forall|i: int|
                0 <= i < list@.len() ==> holds_declarations(models, #[trigger] list@[i]) && list@[i]
                    < j,
            forall|a: int, b: int| 0 <= a < b < list@.len() ==> list@[a] < list@[b],
            forall|idx: usize|
                idx < j && holds_declarations(models, idx) ==> #[trigger] list@.contains(idx),
        decreases flags@.len() - j,
    {
        let ghost before = list@;
        assert(flags@[j as int] == holds_declarations(models, j));
        if flags[j] {
            list.push(j);
        }
        assert forall|idx: usize| idx < j + 1 && holds_declarations(models, idx) implies #[trigger]
        list@.contains(idx) by {
            if idx < j {
                assert(before.contains(idx));
                let i = choose|i: int| 0 <= i < before.len() && before[i] == idx;
                assert(list@[i] == idx);
            } else {
                assert(list@[before.len() as int] == idx);
            }
        }
        j = j + 1;
    }
    list
}

/// Everything in the lists of several nodes, list after list.
pub open spec fn listed_below(children: ChildrenModel, parents: Seq<usize>) -> Seq<usize>
    decreases parents.len(),
{
    if parents.len() == 0 {
        Seq::empty()
    } else {
        listed_below(children, parents.drop_last()) + (match children_at(children, parents.last()) {
            Some(list) => list,
            None => Seq::empty(),
        })
    }
}

/// The rank of each listed node; zero where it has none.
pub open spec fn rank_keys(list: Seq<usize>, ranking: Seq<usize>) -> Seq<i128> {
    Seq::new(
        list.len(),
        |i: int|
            if list[i] < ranking.len() {
                ranking[list[i] as int] as i128
            } else {
                0
            },
    )
}

/// What the rules declare that hold for an element, in the order in which the declarations override
/// each other: by rank, the last counts most.
pub open spec fn in_cascade_order(
    children: ChildrenModel,
    rules: Seq<usize>,
    ranking: Seq<usize>,
) -> Seq<usize> {
    let list = listed_below(children, rules);
    arranged(list, stable_positions(rank_keys(list, ranking)))
}

/// What the rules declare that hold for an element, each declaration after those that it overrides.
pub fn get_cascade_order(children: &ChildrenIndex, rules: &Vec<usize>, ranking: &Vec<usize>) -> (r: Vec<
    usize,
>)
    ensures
        r@ == in_cascade_order(children@, rules@, ranking@),
{
    let mut list: Vec<usize> = Vec::new();
    let mut keys: Vec<i128> = Vec::new();
    let mut at: usize = 0;
    assert(list@ =~= listed_below(children@, rules@.take(0)));
    assert(keys@ =~= rank_keys(list@, ranking@));
    while at < rules.len()
        invariant
            at <= rules@.len(),
            list@ == listed_below(children@, rules@.take(at as int)),
            keys@ == rank_keys(list@, ranking@),
        decreases rules@.len() - at,
    {
        assert(rules@.take(at + 1).drop_last() =~= rules@.take(at as int));
        let own = children.list_or_empty(rules[at]);
        let ghost before = list@;
        let mut next: usize = 0;
        assert(list@ =~= before + own@.take(0));
        while next < own.len()
            invariant
                next <= own@.len(),
                list@ == before + own@.take(next as int),
                keys@ == rank_keys(list@, ranking@),
            decreases own@.len() - next,
        {
            let idx: usize = own[next];
            let key: i128 = if idx < ranking.len() {
                ranking[idx] as i128
            } else {
                0
            };
            list.push(idx);
            keys.push(key);
            assert(keys@ =~= rank_keys(list@, ranking@));
            next = next + 1;
            assert(list@ =~= before + own@.take(next as int));
        }
        assert(own@.take(own@.len() as int) =~= own@);
        at = at + 1;
    }
    assert(rules@.take(rules@.len() as int) =~= rules@);
    let order = stable_order(&keys);
    let mut sorted: Vec<usize> = Vec::new();
    let mut place: usize = 0;
    while place < order.len()
        invariant
            place <= order@.len(),
            forall|i: int| 0 <= i < order@.len() ==> (#[trigger] order@[i]) < list@.len(),
            sorted@ =~= arranged(list@, order@).take(place as int),
        decreases order@.len() - place,
    {
        sorted.push(list[order[place]]);
        place = place + 1;
    }
    assert(sorted@ =~= arranged(list@, order@));
    sorted
}

/// In cascade order no declaration stands behind one that it comes before.
pub proof fn lemma_cascade_order(
    nodes: Seq<CssNodeModel>,
    weights: Seq<Option<Specificity>>,
    children: ChildrenModel,
    rules: Seq<usize>,
    ranking: Seq<usize>,
    i: int,
    j: int,
)
    requires
        listed_below(children, rules).len() <= usize::MAX,
        forall|k: int|
            0 <= k < listed_below(children, rules).len() ==> {
                let idx = #[trigger] listed_below(children, rules)[k];
                &&& idx < nodes.len()
                &&& idx < ranking.len()
                &&& is_declaration(nodes[idx as int])
                &&& ranking[idx as int] == rank_among(nodes, weights, idx as int, nodes.len())
            },
        0 <= i < j < in_cascade_order(children, rules, ranking).len(),
    ensures
        !declared_before(
            nodes,
            weights,
            in_cascade_order(children, rules, ranking)[j] as int,
            in_cascade_order(children, rules, ranking)[i] as int,
        ),
{
    let list = listed_below(children, rules);
    let keys = rank_keys(list, ranking);
    lemma_stable_positions(keys);
    let order = stable_positions(keys);
    let a = list[order[i] as int];
    let b = list[order[j] as int];
    assert(precedes(keys, order[i], order[j]));
    if declared_before(nodes, weights, b as int, a as int) {
        lemma_ranks_keep_order(nodes, weights, b as int, a as int);
    }
}

} // verus!
