//! What is printed of a node to whoever looks for what went wrong on a page.
use vstd::prelude::*;

use crate::boxes::Rect;
use crate::dom::node_at;
use crate::dom::Attributes;
use crate::dom::AttributesModel;
use crate::dom::Element;
use crate::dom::Node;
use crate::dom::NodeModel;
use crate::dom::NodesTable;
use crate::numbers::decimal;
use crate::numbers::to_decimal;
use crate::shapes::collapse_whitespace;
use crate::shapes::collapsed;
use crate::text::push_text;
use crate::text::to_chars;

verus! {

/// Whether a text comes before another, by the first character in which they differ.
pub open spec fn text_before(a: Seq<char>, b: Seq<char>) -> bool
    decreases a.len(),
{
    if b.len() == 0 {
        false
    } else if a.len() == 0 {
        true
    } else if a[0] != b[0] {
        a[0] < b[0]
    } else {
        text_before(a.skip(1), b.skip(1))
    }
}

fn comes_before(a: &str, b: &str) -> (r: bool)
    ensures
        r == text_before(a@, b@),
{
    let own = to_chars(a);
    let other = to_chars(b);
    let mut at: usize = 0;
    assert(a@.skip(0) =~= a@ && b@.skip(0) =~= b@);
    while at < own.len() && at < other.len()
        invariant
            own@ == a@,
            other@ == b@,
            at <= a@.len(),
            at <= b@.len(),
            text_before(a@, b@) == text_before(a@.skip(at as int), b@.skip(at as int)),
        decreases a@.len() - at,
    {
        assert(a@.skip(at as int)[0] == a@[at as int]);
        assert(b@.skip(at as int)[0] == b@[at as int]);
        if own[at] != other[at] {
            return own[at] < other[at];
        }
        assert(a@.skip(at as int).skip(1) =~= a@.skip(at + 1));
        assert(b@.skip(at as int).skip(1) =~= b@.skip(at + 1));
        at = at + 1;
    }
    at < other.len()
}

/// A sorted list with one more pair, behind all whose names do not come after its own.
pub open spec fn with_pair(
    list: AttributesModel,
    pair: (Seq<char>, Seq<char>),
) -> AttributesModel
    decreases list.len(),
{
    if list.len() > 0 && text_before(pair.0, list.last().0) {
        with_pair(list.drop_last(), pair).push(list.last())
    } else {
        list.push(pair)
    }
}

/// Attributes in the order of their names.
pub open spec fn by_name(attributes: AttributesModel) -> AttributesModel
    decreases attributes.len(),
{
    if attributes.len() == 0 {
        Seq::empty()
    } else {
        with_pair(by_name(attributes.drop_last()), attributes.last())
    }
}

/// Where a pair goes in a sorted list.
proof fn lemma_with_pair(list: AttributesModel, pair: (Seq<char>, Seq<char>), at: int)
    requires
        0 <= at <= list.len(),
        at > 0 ==> !text_before(pair.0, list[at - 1].0),
        forall|i: int| at <= i < list.len() ==> text_before(pair.0, (#[trigger] list[i]).0),
    ensures
        with_pair(list, pair) == list.insert(at, pair),
    decreases list.len(),
{
    if at < list.len() {
        assert(text_before(pair.0, list.last().0));
        let rest = list.drop_last();
        assert forall|i: int| at <= i < rest.len() implies text_before(
            pair.0,
            (#[trigger] rest[i]).0,
        ) by {
            assert(rest[i] == list[i]);
        }
        lemma_with_pair(rest, pair, at);
        assert(rest.insert(at, pair).push(list.last()) =~= list.insert(at, pair));
    } else {
        assert(list.insert(at, pair) =~= list.push(pair));
    }
}

/// The positions of attributes in the order of their names.
fn order_by_name(attributes: &Attributes) -> (r: Vec<usize>)
    ensures
        r@.len() == attributes@.len(),
        forall|i: int| 0 <= i < r@.len() ==> (#[trigger] r@[i]) < attributes@.len(),
        Seq::new(r@.len(), |i: int| attributes@[r@[i] as int]) == by_name(attributes@),
{
    let ghost all = attributes@;
    let mut order: Vec<usize> = Vec::new();
    let mut next: usize = 0;
    assert(Seq::new(order@.len(), |i: int| all[order@[i] as int]) =~= by_name(all.take(0)));
    while next < attributes.values.len()
        invariant
            next <= attributes.values@.len(),
            all == attributes@,
            all.len() == attributes.values@.len(),
            order@.len() == next,
            forall|i: int| 0 <= i < order@.len() ==> (#[trigger] order@[i]) < next,
            Seq::new(order@.len(), |i: int| all[order@[i] as int]) == by_name(
                all.take(next as int),
            ),
        decreases attributes.values@.len() - next,
    {
        let ghost before = Seq::new(order@.len(), |i: int| all[order@[i] as int]);
        let mut at: usize = order.len();
        while at > 0 && comes_before(
            attributes.values[next].0.as_str(),
            attributes.values[order[at - 1]].0.as_str(),
        )
            invariant
                at <= order@.len(),
                next < attributes.values@.len(),
                all == attributes@,
                all.len() == attributes.values@.len(),
                before == Seq::new(order@.len(), |i: int| all[order@[i] as int]),
                forall|i: int| 0 <= i < order@.len() ==> (#[trigger] order@[i]) < next,
                forall|i: int|
                    at <= i < before.len() ==> text_before(
                        all[next as int].0,
                        (#[trigger] before[i]).0,
                    ),
            ensures
                at > 0 ==> !text_before(all[next as int].0, before[at - 1].0),
            decreases at,
        {
            assert(before[at - 1] == all[order@[at - 1] as int]);
            at = at - 1;
        }
        let ghost listed = order@;
        order.insert(at, next);
        proof {
            lemma_with_pair(before, all[next as int], at as int);
            assert(all.take(next + 1).drop_last() =~= all.take(next as int));
            assert(Seq::new(order@.len(), |i: int| all[order@[i] as int]) =~= before.insert(
                at as int,
                all[next as int],
            ));
        }
        next = next + 1;
    }
    assert(all.take(all.len() as int) =~= all);
    order
}

/// Attributes as they are printed.
pub open spec fn attributes_label(attributes: AttributesModel) -> Seq<char>
    decreases attributes.len(),
{
    if attributes.len() == 0 {
        Seq::empty()
    } else {
        attributes_label(attributes.drop_last()) + " "@ + attributes.last().0 + "=\""@
            + attributes.last().1 + "\""@
    }
}

/// An element as it is printed: its tag, and its attributes in the order of their names.
pub open spec fn element_label(tag: Seq<char>, attributes: AttributesModel) -> Seq<char> {
    "Node::Element: "@ + tag + attributes_label(by_name(attributes))
}

pub fn format_element_tree_label(element: &Element) -> (r: String)
    ensures
        r@ == element_label(element.tag@, element.attributes@),
{
    let order = order_by_name(&element.attributes);
    let ghost sorted = by_name(element.attributes@);
    let mut label = String::new();
    push_text(&mut label, "Node::Element: ");
    push_text(&mut label, element.tag.as_str());
    let ghost start = label@;
    assert(start =~= "Node::Element: "@ + element.tag@);
    let mut at: usize = 0;
    assert(label@ =~= start + attributes_label(sorted.take(0)));
    while at < order.len()
        invariant
            at <= order@.len(),
            order@.len() == sorted.len(),
            forall|i: int|
                0 <= i < order@.len() ==> (#[trigger] order@[i]) < element.attributes@.len(),
            Seq::new(order@.len(), |i: int| element.attributes@[order@[i] as int]) == sorted,
            label@ == start + attributes_label(sorted.take(at as int)),
        decreases order@.len() - at,
    {
        let ghost shown = attributes_label(sorted.take(at as int));
        let pair = &element.attributes.values[order[at]];
        assert(sorted[at as int] == element.attributes@[order@[at as int] as int]);
        push_text(&mut label, " ");
        push_text(&mut label, pair.0.as_str());
        push_text(&mut label, "=\"");
        push_text(&mut label, pair.1.as_str());
        push_text(&mut label, "\"");
        assert(sorted.take(at + 1).drop_last() =~= sorted.take(at as int));
        assert(label@ =~= start + (shown + " "@ + pair.0@ + "=\""@ + pair.1@ + "\""@));
        at = at + 1;
    }
    assert(sorted.take(sorted.len() as int) =~= sorted);
    label
}

/// A whole number as it is printed.
pub open spec fn whole_number(n: int) -> Seq<char> {
    if n < 0 {
        "-"@ + decimal((-n) as nat)
    } else {
        decimal(n as nat)
    }
}

fn push_number(label: &mut String, n: i32)
    ensures
        final(label)@ == old(label)@ + whole_number(n as int),
{
    if n < 0 {
        push_text(label, "-");
    }
    let size: usize = if n < 0 {
        (-(n as i64)) as usize
    } else {
        n as usize
    };
    let digits = to_decimal(size);
    push_text(label, digits.as_str());
    assert(label@ =~= old(label)@ + whole_number(n as int));
}

/// A node as it is printed, without where it is and how it looks.
pub open spec fn node_label(node: NodeModel) -> Seq<char> {
    match node {
        NodeModel::Element { tag, attributes, parent: _ } => element_label(tag, attributes),
        NodeModel::Text { text, parent: _ } => match collapsed(text) {
            Some(text) => "Node::Text \""@ + text + "\""@,
            None => "Node::Text EMPTY"@,
        },
        NodeModel::Comment { comment, parent: _ } => "Node::Comment \""@ + comment + "\""@,
    }
}

fn get_node_label(node: &Node) -> (r: String)
    ensures
        r@ == node_label(node@),
{
    let mut label = String::new();
    match node {
        Node::Element(element) => {
            return format_element_tree_label(element);
        },
        Node::Text(text) => match collapse_whitespace(text.text.as_str()) {
            Some(text) => {
                push_text(&mut label, "Node::Text \"");
                push_text(&mut label, text.as_str());
                push_text(&mut label, "\"");
            },
            None => push_text(&mut label, "Node::Text EMPTY"),
        },
        Node::Comment(comment) => {
            push_text(&mut label, "Node::Comment \"");
            push_text(&mut label, comment.comment.as_str());
            push_text(&mut label, "\"");
        },
    }
    assert(label@ =~= node_label(node@));
    label
}

/// Where a node is as it is printed: the number of its box, what kind that is, and its place.
pub open spec fn layout_label(layout: Option<(usize, Seq<char>, int, int, nat, nat)>) -> Seq<char> {
    match layout {
        None => " [layout=none]"@,
        Some((id, kind, x, y, width, height)) => " [layout_idx="@ + decimal(id as nat)
            + " layout="@ + kind + " x="@ + whole_number(x) + " y="@ + whole_number(y) + " width="@
            + decimal(width) + " height="@ + decimal(height) + "]"@,
    }
}

fn push_layout_label(label: &mut String, layout: Option<(usize, &str, &Rect)>)
    ensures
        final(label)@ == old(label)@ + layout_label(
            match layout {
                Some((id, kind, rect)) => Some(
                    (id, kind@, rect.x as int, rect.y as int, rect.width as nat, rect.height as nat),
                ),
                None => None,
            },
        ),
{
    match layout {
        None => push_text(label, " [layout=none]"),
        Some((id, kind, rect)) => {
            let id_digits = to_decimal(id);
            let width = to_decimal(rect.width as usize);
            let height = to_decimal(rect.height as usize);
            push_text(label, " [layout_idx=");
            push_text(label, id_digits.as_str());
            push_text(label, " layout=");
            push_text(label, kind);
            push_text(label, " x=");
            push_number(label, rect.x);
            push_text(label, " y=");
            push_number(label, rect.y);
            push_text(label, " width=");
            push_text(label, width.as_str());
            push_text(label, " height=");
            push_text(label, height.as_str());
            push_text(label, "]");
            assert(label@ =~= old(label)@ + (" [layout_idx="@ + decimal(id as nat) + " layout="@
                + kind@ + " x="@ + whole_number(rect.x as int) + " y="@ + whole_number(
                rect.y as int,
            ) + " width="@ + decimal(rect.width as nat) + " height="@ + decimal(
                rect.height as nat,
            ) + "]"@));
        },
    }
}

/// A node as it is printed. The kind of its box and its style are given as texts.
pub fn get_node_text_representation(
    nodes: &NodesTable,
    node_idx: usize,
    layout: Option<(usize, &str, &Rect)>,
    style: &str,
) -> (r: String)
    requires
        node_at(nodes@, node_idx) is Some,
    ensures
        r@ == node_label(node_at(nodes@, node_idx)->0) + " [idx="@ + decimal(node_idx as nat) + "]"@
            + layout_label(
            match layout {
                Some((id, kind, rect)) => Some(
                    (id, kind@, rect.x as int, rect.y as int, rect.width as nat, rect.height as nat),
                ),
                None => None,
            },
        ) + " [style="@ + style@ + "]"@,
{
    let mut label = match nodes.get(node_idx) {
        Some(node) => get_node_label(node),
        None => String::new(),
    };
    let idx = to_decimal(node_idx);
    push_text(&mut label, " [idx=");
    push_text(&mut label, idx.as_str());
    push_text(&mut label, "]");
    push_layout_label(&mut label, layout);
    push_text(&mut label, " [style=");
    push_text(&mut label, style);
    push_text(&mut label, "]");
    label
}

/// Printed attributes stand in the order of their names, and none is lost.
pub proof fn lemma_attributes_are_sorted(attributes: AttributesModel)
    ensures
        by_name(attributes).to_multiset() == attributes.to_multiset(),
        forall|i: int, j: int|
            0 <= i < j < by_name(attributes).len() ==> !text_before(
                (#[trigger] by_name(attributes)[j]).0,
                (#[trigger] by_name(attributes)[i]).0,
            ),
    decreases attributes.len(),
{
    if attributes.len() > 0 {
        lemma_attributes_are_sorted(attributes.drop_last());
        lemma_pair_is_sorted(by_name(attributes.drop_last()), attributes.last());
        attributes.drop_last().to_multiset_ensures();
        assert(attributes.drop_last().push(attributes.last()) =~= attributes);
    } else {
        assert(by_name(attributes) =~= attributes);
    }
}

proof fn lemma_pair_is_sorted(list: AttributesModel, pair: (Seq<char>, Seq<char>))
    requires
        forall|i: int, j: int|
            0 <= i < j < list.len() ==> !text_before(
                (#[trigger] list[j]).0,
                (#[trigger] list[i]).0,
            ),
    ensures
        with_pair(list, pair).to_multiset() == list.to_multiset().insert(pair),
        with_pair(list, pair).len() == list.len() + 1,
        forall|i: int|
            0 <= i < with_pair(list, pair).len() ==> (#[trigger] with_pair(list, pair)[i]) == pair
                || list.contains(with_pair(list, pair)[i]),
        forall|i: int, j: int|
            0 <= i < j < with_pair(list, pair).len() ==> !text_before(
                (#[trigger] with_pair(list, pair)[j]).0,
                (#[trigger] with_pair(list, pair)[i]).0,
            ),
    decreases list.len(),
{
    list.to_multiset_ensures();
    if list.len() > 0 && text_before(pair.0, list.last().0) {
        let rest = list.drop_last();
        let last = list.last();
        lemma_pair_is_sorted(rest, pair);
        rest.to_multiset_ensures();
        with_pair(rest, pair).to_multiset_ensures();
        assert(rest.push(last) =~= list);
        let end = with_pair(list, pair);
        assert(end == with_pair(rest, pair).push(last));
        assert(end.to_multiset() =~= list.to_multiset().insert(pair));
        assert forall|i: int| 0 <= i < end.len() implies (#[trigger] end[i]) == pair
            || list.contains(end[i]) by {
            if i < end.len() - 1 {
                assert(end[i] == with_pair(rest, pair)[i]);
                if end[i] != pair {
                    let k = choose|k: int| 0 <= k < rest.len() && rest[k] == end[i];
                    assert(list[k] == end[i]);
                }
            } else {
                assert(list[list.len() - 1] == end[i]);
            }
        }
        assert forall|i: int, j: int| 0 <= i < j < end.len() implies !text_before(
            (#[trigger] end[j]).0,
            (#[trigger] end[i]).0,
        ) by {
            if j == end.len() - 1 {
                assert(end[i] == with_pair(rest, pair)[i]);
                if end[i] == pair {
                    lemma_text_order(pair.0, last.0);
                } else {
                    let k = choose|k: int| 0 <= k < rest.len() && rest[k] == end[i];
                    assert(list[k] == end[i]);
                }
            } else {
                assert(end[j] == with_pair(rest, pair)[j]);
                assert(end[i] == with_pair(rest, pair)[i]);
            }
        }
    } else {
        let end = list.push(pair);
        assert forall|i: int, j: int| 0 <= i < j < end.len() implies !text_before(
            (#[trigger] end[j]).0,
            (#[trigger] end[i]).0,
        ) by {
            if j == end.len() - 1 {
                let last = list.last();
                if text_before(pair.0, list[i].0) && i < list.len() - 1 {
                    assert(!text_before(last.0, list[i].0));
                    lemma_text_order_is_negatively_transitive(pair.0, last.0, list[i].0);
                }
            }
        }
        assert forall|i: int| 0 <= i < end.len() implies (#[trigger] end[i]) == pair
            || list.contains(end[i]) by {
            if i < list.len() {
                assert(list[i] == end[i]);
            }
        }
    }
}

/// Of two texts at most one comes before the other.
proof fn lemma_text_order(a: Seq<char>, b: Seq<char>)
    requires
        text_before(a, b),
    ensures
        !text_before(b, a),
    decreases a.len(),
{
    if a.len() > 0 && a[0] == b[0] {
        lemma_text_order(a.skip(1), b.skip(1));
    }
}

proof fn lemma_text_order_is_negatively_transitive(a: Seq<char>, b: Seq<char>, c: Seq<char>)
    requires
        !text_before(a, b),
        !text_before(b, c),
    ensures
        !text_before(a, c),
    decreases a.len(),
{
    if a.len() > 0 && b.len() > 0 && c.len() > 0 && a[0] == c[0] {
        if a[0] == b[0] {
            lemma_text_order_is_negatively_transitive(a.skip(1), b.skip(1), c.skip(1));
        }
    }
}

} // verus!
