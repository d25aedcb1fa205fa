//! What flex layout promises: how free space is handed out, in which order items stand, and how one
//! item stands beside the next.
use vstd::prelude::*;

use crate::calc::lemma_small_numbers_are_exact;
use crate::flex::aligned;
use crate::flex::basis_source;
use crate::flex::cross_free;
use crate::flex::cross_offset;
use crate::flex::gap_total;
use crate::flex::items_in_order;
use crate::flex::justified;
use crate::flex::line_begun;
use crate::flex::line_content_height;
use crate::flex::line_content_width;
use crate::flex::main_free;
use crate::flex::nodes_where;
use crate::flex::orders_where;
use crate::flex::stretched;
use crate::flex::total;
use crate::flex::ChildFact;
use crate::flex::FlexPlaced;
use crate::flex::LineModel;
use crate::flex::StyleFlexDirection;
use crate::flex::StyleJustifyContent;
use crate::flex_sizes::cross_from;
use crate::flex_sizes::cross_size;
use crate::flex_sizes::flex_plan;
use crate::flex_sizes::grow_from;
use crate::flex_sizes::kept_size;
use crate::flex_sizes::outer_from;
use crate::flex_sizes::scaled_from;
use crate::flex_sizes::targets_from;
use crate::flex_sizes::FlexBase;
use crate::flex_sizes::FlexPlan;
use crate::layout_model::flex_sized;
use crate::layout_model::main_available;
use crate::layout_model::main_margin;
use crate::layout_model::outer_sizes;
use crate::lengths::length_or_zero;
use crate::lengths::LayoutInput;
use crate::lengths::LayoutStyle;
use crate::needs::Answers;
use crate::order::lemma_stable_positions;
use crate::order::precedes;
use crate::order::stable_positions;
use crate::sizing::ContainerSizes;
use crate::sizing::Edges;
use crate::sizing::Position;

verus! {

/// Whether free space is spread as a keyword asks: `start` in front of the first of `count` items,
/// and `between` between two of them. What is left stands behind the last item.
pub open spec fn is_spread(
    justify: StyleJustifyContent,
    free: int,
    count: int,
    start: int,
    between: int,
) -> bool {
    let behind = free - start - between * (count - 1);
    &&& start >= 0 && between >= 0 && behind >= 0
    &&& match justify {
        // All of it stands behind the items.
        StyleJustifyContent::Auto
        | StyleJustifyContent::FlexStart
        | StyleJustifyContent::Stretch => behind == free && between == 0,
        // Nothing is left behind the items.
        StyleJustifyContent::FlexEnd => behind == 0 && between == 0,
        // As much stands in front as behind, but for one pixel that cannot be shared.
        StyleJustifyContent::Center => between == 0 && start <= behind <= start + 1,
        // The outer items stand at the edges, but for pixels that cannot be shared.
        StyleJustifyContent::SpaceBetween => start == 0 && (count > 1 ==> behind < count - 1) && (
        count <= 1 ==> between == 0),
        // The outer spaces are half of the inner ones, but for pixels that cannot be shared.
        StyleJustifyContent::SpaceAround => {
            &&& 2 * start <= between <= 2 * start + 1
            &&& start <= behind <= start + count
        },
        // All spaces are the same, but for pixels that cannot be shared.
        StyleJustifyContent::SpaceEvenly => start == between && between <= behind <= between + count,
    }
}

/// Free space is spread over the items as the keyword asks: nothing of it is handed out twice, and
/// each keyword puts it where its name says.
pub proof fn lemma_space_is_spread(justify: StyleJustifyContent, free: u32, count: nat)
    requires
        count > 0,
    ensures
        is_spread(
            justify,
            free as int,
            count as int,
            justified(justify, free, count).0,
            justified(justify, free, count).1,
        ),
{
    let n = count as int;
    let whole = free as int;
    let (start, between) = justified(justify, free, count);
    match justify {
        StyleJustifyContent::SpaceBetween => {
            if n > 1 {
                lemma_shares(whole, n - 1);
            } else {
                assert(between * (n - 1) == 0) by (nonlinear_arith)
                    requires
                        between == 0,
                ;
            }
        },
        StyleJustifyContent::SpaceAround => {
            lemma_shares(whole, n);
            assert(between * (n - 1) == between * n - between) by (nonlinear_arith);
        },
        StyleJustifyContent::SpaceEvenly => {
            lemma_shares(whole, n + 1);
            assert(between * (n - 1) == between * (n + 1) - 2 * between) by (nonlinear_arith);
        },
        _ => {
            assert(between * (n - 1) == 0) by (nonlinear_arith)
                requires
                    between == 0,
            ;
        },
    }
}

proof fn lemma_shares(whole: int, parts: int)
    requires
        whole >= 0,
        parts > 0,
    ensures
        whole / parts >= 0,
        0 <= whole - (whole / parts) * parts < parts,
{
    vstd::arithmetic::div_mod::lemma_fundamental_div_mod(whole, parts);
    vstd::arithmetic::mul::lemma_mul_is_commutative(parts, whole / parts);
    assert(whole / parts >= 0) by (nonlinear_arith)
        requires
            whole >= 0,
            parts > 0,
    ;
}

/// Across the main axis an item stands at the start, in the middle or at the end of the space that it
/// leaves free. Its own alignment counts before that of the container.
pub proof fn lemma_item_is_aligned(
    own: StyleJustifyContent,
    container: StyleJustifyContent,
    free: u32,
)
    ensures
        ({
            let align = aligned(own, container);
            let before = cross_offset(align, free) as int;
            let behind = free - before;
            &&& own is Auto ==> align == container
            &&& !(own is Auto) ==> align == own
            &&& 0 <= before && 0 <= behind
            &&& align is FlexEnd ==> behind == 0
            &&& align is Center ==> before <= behind <= before + 1
            &&& !(align is FlexEnd) && !(align is Center) ==> before == 0
        }),
{
}

/// The space beside an item and the item fill the container across the main axis, where the item is no
/// larger and the container is known to be that large.
pub proof fn lemma_cross_space_is_filled(
    direction: StyleFlexDirection,
    used: u32,
    definite: bool,
    allow_fill: bool,
    sizes: ContainerSizes,
)
    ensures
        ({
            let free = cross_free(direction, used, definite, allow_fill, sizes);
            &&& direction is Row && definite && used <= sizes.inner_height ==> free + used
                == sizes.inner_height
            &&& direction is Column && allow_fill && used <= sizes.inner_width ==> free + used
                == sizes.inner_width
            &&& direction is Row && !definite ==> free == 0
            &&& direction is Column && !allow_fill ==> free == 0
            &&& direction is Row && used >= sizes.inner_height ==> free == 0
            &&& direction is Column && used >= sizes.inner_width ==> free == 0
        }),
{
}

/// Whether places are those of the children that are, or are not, out of the flow, each once and in
/// the order of the document.
pub open spec fn lists_places(children: Seq<ChildFact>, free: bool, places: Seq<int>) -> bool {
    &&& forall|i: int|
        0 <= i < places.len() ==> 0 <= (#[trigger] places[i]) < children.len()
            && children[places[i]].free == free
    &&& forall|i: int, j: int| 0 <= i < j < places.len() ==> places[i] < places[j]
    &&& forall|p: int|
        0 <= p < children.len() && (#[trigger] children[p]).free == free ==> places.contains(p)
}

/// The places of the children that are, or are not, out of the flow.
pub open spec fn places_where(children: Seq<ChildFact>, free: bool) -> Seq<int>
    decreases children.len(),
{
    if children.len() == 0 {
        Seq::empty()
    } else if children.last().free == free {
        places_where(children.drop_last(), free).push(children.len() - 1)
    } else {
        places_where(children.drop_last(), free)
    }
}

proof fn lemma_places(children: Seq<ChildFact>, free: bool)
    ensures
        lists_places(children, free, places_where(children, free)),
        places_where(children, free).len() <= children.len(),
        nodes_where(children, free).len() == places_where(children, free).len(),
        orders_where(children, free).len() == places_where(children, free).len(),
        forall|i: int|
            0 <= i < places_where(children, free).len() ==> {
                let p = #[trigger] places_where(children, free)[i];
                &&& nodes_where(children, free)[i] == children[p].node_idx
                &&& orders_where(children, free)[i] == children[p].order
            },
    decreases children.len(),
{
    if children.len() > 0 {
        let less = children.drop_last();
        lemma_places(less, free);
        let before = places_where(less, free);
        let after = places_where(children, free);
        assert forall|p: int|
            0 <= p < children.len() && (#[trigger] children[p]).free == free implies after.contains(
            p,
        ) by {
            if p < children.len() - 1 {
                assert(less[p] == children[p]);
                assert(before.contains(p));
                let k = choose|k: int| 0 <= k < before.len() && before[k] == p;
                assert(after[k] == p);
            } else {
                assert(after[after.len() - 1] == p);
            }
        }
        assert forall|i: int| 0 <= i < after.len() implies 0 <= (#[trigger] after[i])
            < children.len() && children[after[i]].free == free && nodes_where(children, free)[i]
            == children[after[i]].node_idx && orders_where(children, free)[i]
            == children[after[i]].order by {
            if i < before.len() {
                assert(after[i] == before[i]);
                assert(less[before[i]] == children[before[i]]);
            }
        }
    }
}

/// The children that are, or are not, out of the flow are listed each once, in the order of the
/// document, and no other child is.
pub proof fn lemma_children_are_parted(children: Seq<ChildFact>, free: bool)
    ensures
        exists|places: Seq<int>| #[trigger]
            lists_places(children, free, places) && nodes_where(children, free) =~= Seq::new(
                places.len(),
                |i: int| children[places[i]].node_idx,
            ),
{
    lemma_places(children, free);
    let places = places_where(children, free);
    assert(lists_places(children, free, places) && nodes_where(children, free) =~= Seq::new(
        places.len(),
        |i: int| children[places[i]].node_idx,
    ));
}

/// Whether places are those of the children in the flow, each once: by ascending flex order, and in
/// the order of the document where that is the same.
pub open spec fn lists_in_order(children: Seq<ChildFact>, places: Seq<int>) -> bool {
    &&& forall|i: int|
        0 <= i < places.len() ==> 0 <= (#[trigger] places[i]) < children.len()
            && !children[places[i]].free
    &&& forall|i: int, j: int|
        0 <= i < j < places.len() ==> {
            let a = children[#[trigger] places[i]].order;
            let b = children[#[trigger] places[j]].order;
            a < b || (a == b && places[i] < places[j])
        }
    &&& forall|p: int|
        0 <= p < children.len() && !(#[trigger] children[p]).free ==> places.contains(p)
}

/// Flex items stand by ascending flex order; where that is the same, in the order of the document.
/// Every child in the flow is one of them, once.
pub proof fn lemma_items_stand_in_order(children: Seq<ChildFact>)
    requires
        children.len() <= usize::MAX,
    ensures
        exists|places: Seq<int>| #[trigger]
            lists_in_order(children, places) && items_in_order(children) =~= Seq::new(
                places.len(),
                |i: int| children[places[i]].node_idx,
            ),
{
    lemma_places(children, false);
    let rough = places_where(children, false);
    let keys = orders_where(children, false);
    lemma_stable_positions(keys);
    let sorted = stable_positions(keys);
    let places = Seq::new(sorted.len(), |i: int| rough[sorted[i] as int]);
    assert forall|p: int| 0 <= p < children.len() && !(#[trigger] children[p]).free implies
        places.contains(p) by {
        assert(rough.contains(p));
        let k = choose|k: int| 0 <= k < rough.len() && rough[k] == p;
        assert(sorted.contains(k as usize));
        let i = choose|i: int| 0 <= i < sorted.len() && sorted[i] == k as usize;
        assert(places[i] == p);
    }
    assert forall|i: int, j: int| 0 <= i < j < places.len() implies ({
        let a = children[#[trigger] places[i]].order;
        let b = children[#[trigger] places[j]].order;
        a < b || (a == b && places[i] < places[j])
    }) by {
        let p = sorted[i];
        let q = sorted[j];
        assert(precedes(keys, p, q));
        assert(keys[p as int] == children[rough[p as int]].order);
        assert(keys[q as int] == children[rough[q as int]].order);
    }
    assert(lists_in_order(children, places)) by {
        assert forall|i: int| 0 <= i < places.len() implies 0 <= (#[trigger] places[i])
            < children.len() && !children[places[i]].free by {
            let p = sorted[i] as int;
            assert(rough[p] == places[i]);
        }
    }
    assert(items_in_order(children) =~= Seq::new(
        places.len(),
        |i: int| children[places[i]].node_idx,
    )) by {
        assert forall|i: int| 0 <= i < places.len() implies items_in_order(children)[i]
            == children[places[i]].node_idx by {
            let p = sorted[i] as int;
            assert(nodes_where(children, false)[p] == children[rough[p]].node_idx);
        }
    }
}

/// What sizes come to together.
pub open spec fn sum_of(sizes: Seq<u32>) -> int
    decreases sizes.len(),
{
    if sizes.len() == 0 {
        0
    } else {
        sum_of(sizes.drop_last()) + sizes.last()
    }
}

proof fn lemma_total(sizes: Seq<u32>)
    ensures
        sum_of(sizes) >= 0,
        total(sizes) == (if sum_of(sizes) <= u32::MAX {
            Some(sum_of(sizes))
        } else {
            None
        }),
    decreases sizes.len(),
{
    if sizes.len() > 0 {
        lemma_total(sizes.drop_last());
    }
}

/// The items, the gaps between them and the free space fill the container along the main axis, where
/// they fit in it; where they do not, or where free space is not handed out, there is none.
pub proof fn lemma_main_space_is_filled(
    direction: StyleFlexDirection,
    outer: Seq<u32>,
    gap: i32,
    sizes: ContainerSizes,
    distributes: bool,
)
    requires
        gap >= 0,
        0 < outer.len() <= i32::MAX,
        gap * (outer.len() - 1) <= i32::MAX,
    ensures
        ({
            let inner = if direction is Row {
                sizes.inner_width as int
            } else {
                sizes.inner_height as int
            };
            let used = sum_of(outer) + gap * (outer.len() - 1);
            &&& main_free(direction, outer, gap, sizes, distributes) is Some == (used <= u32::MAX)
            &&& main_free(direction, outer, gap, sizes, distributes) matches Some(free) ==> {
                &&& distributes && used <= inner ==> free + used == inner
                &&& used >= inner || !distributes ==> free == 0
            }
        }),
{
    lemma_total(outer);
    let between = (outer.len() - 1) as usize as i32;
    assert(between == outer.len() - 1);
    assert(gap * between >= 0) by (nonlinear_arith)
        requires
            gap >= 0,
            between >= 0,
    ;
    assert(gap_total(gap, outer.len()) == gap * (outer.len() - 1));
}

/// The first item of a row stands behind the padding and the space in front of the items, by its own
/// margin; that of a column stands below them.
pub proof fn lemma_first_item(
    direction: StyleFlexDirection,
    cursor: Position,
    padding: Edges,
    start: u32,
    gap: u32,
    margins: Edges,
)
    requires
        start <= i32::MAX,
    ensures
        line_begun(direction, cursor, padding, start, gap) matches Some(line) ==> {
            &&& direction is Row ==> line.item_x(margins) == cursor.x + padding.left + start
                + margins.left && line.item_y(margins) == cursor.y + padding.top + margins.top
            &&& direction is Column ==> line.item_x(margins) == cursor.x + padding.left
                + margins.left && line.item_y(margins) == cursor.y + padding.top + start
                + margins.top
            &&& line.children.len() == 0
            &&& line.main_gap == gap
        },
{
}

/// The next item of a row stands to the right of the one before it, and that of a column below it:
/// behind its size, both margins and the gap. Across the main axis every item starts from the same
/// line.
pub proof fn lemma_next_item(
    line: LineModel,
    before: Edges,
    item: FlexPlaced,
    offset: u32,
    margins: Edges,
)
    requires
        item.margins == before,
        item.width <= i32::MAX,
        item.height <= i32::MAX,
        line.main_gap <= i32::MAX,
        !item.last,
    ensures
        ({
            let at = (line.item_x(before), line.item_y(before));
            let after = line.at_item(before).after_item(item, offset);
            let next = (after.item_x(margins), after.item_y(margins));
            &&& line.direction is Row ==> next.0 == at.0 + item.width + before.right + line.main_gap
                + margins.left && next.1 - margins.top == at.1 - before.top
            &&& line.direction is Column ==> next.1 == at.1 + item.height + before.bottom
                + line.main_gap + margins.top && next.0 - margins.left == at.0 - before.left
            &&& after.children == line.children.push(item.id)
            &&& after.direction == line.direction
            &&& after.main_gap == line.main_gap
        }),
{
}

/// A container that ends with an item reaches to the end of its margin, and no gap comes behind it.
/// Across the main axis it is as large as its largest item.
pub proof fn lemma_last_item(line: LineModel, item: FlexPlaced, offset: u32)
    requires
        item.width <= i32::MAX,
        item.height <= i32::MAX,
        item.last,
    ensures
        ({
            let at = line.at_item(item.margins);
            let after = at.after_item(item, offset);
            let end_x = at.x + item.width + item.margins.right;
            let end_y = at.y + item.height + item.margins.bottom;
            &&& line.direction is Row && end_x >= line.origin_x ==> line_content_width(after)
                == end_x - line.origin_x
            &&& line.direction is Column && end_y >= line.origin_y ==> line_content_height(after)
                == end_y - line.origin_y
            &&& line.direction is Row ==> line_content_height(after) >= item.height
                && line_content_height(after) >= line_content_height(line) && (
            line_content_height(after) == item.height || line_content_height(after)
                == line_content_height(line))
            &&& line.direction is Column ==> line_content_width(after) >= item.width
                && line_content_width(after) >= line_content_width(line) && (
            line_content_width(after) == item.width || line_content_width(after)
                == line_content_width(line))
        }),
{
}

/// Only an item that has no size of its own across the main axis is stretched, and only where it is to
/// be: its own alignment can refuse it.
pub proof fn lemma_stretching(
    direction: StyleFlexDirection,
    align_items: StyleJustifyContent,
    align_self: StyleJustifyContent,
    width_auto: bool,
    height_auto: bool,
    allow_fill: bool,
)
    ensures
        ({
            let stretches = stretched(
                direction,
                align_items,
                align_self,
                width_auto,
                height_auto,
                allow_fill,
            );
            &&& stretches ==> align_items is Stretch && allow_fill
            &&& stretches ==> align_self is Auto || align_self is Stretch
            &&& stretches && direction is Row ==> height_auto
            &&& stretches && direction is Column ==> width_auto
            &&& align_items is Stretch && align_self is Auto && allow_fill && width_auto
                && height_auto ==> stretches
        }),
{
}

/// The basis of an item is what `flex-basis` says. Where that is `auto`, it is the size along the main
/// axis, never the one across it.
pub proof fn lemma_basis_is_along_the_main_axis(
    direction: StyleFlexDirection,
    basis_auto: bool,
    width_auto: bool,
    height_auto: bool,
)
    ensures
        ({
            let source = basis_source(direction, basis_auto, width_auto, height_auto);
            &&& source is FlexBasis <==> !basis_auto
            &&& source is Width ==> direction is Row && !width_auto
            &&& source is Height ==> direction is Column && !height_auto
            &&& source is Indefinite <==> basis_auto && (direction is Row ==> width_auto) && (
            direction is Column ==> height_auto)
        }),
{
}

/// Margins count along the main axis: to the left and to the right in a row, above and below in a
/// column.
pub proof fn lemma_margins_along_the_main_axis(a: Edges, b: Edges)
    ensures
        a.left + a.right == b.left + b.right ==> main_margin(StyleFlexDirection::Row, a)
            == main_margin(StyleFlexDirection::Row, b),
        a.top + a.bottom == b.top + b.bottom ==> main_margin(StyleFlexDirection::Column, a)
            == main_margin(StyleFlexDirection::Column, b),
        main_margin(StyleFlexDirection::Row, a) - a.left == a.right,
        main_margin(StyleFlexDirection::Column, a) - a.top == a.bottom,
{
}

/// What grow factors come to together.
pub open spec fn grow_sum(items: Seq<FlexBase>) -> int
    decreases items.len(),
{
    if items.len() == 0 {
        0
    } else {
        items[0].grow + grow_sum(items.skip(1))
    }
}

proof fn lemma_grow(items: Seq<FlexBase>, at: int, sum: int)
    requires
        0 <= at <= items.len(),
        sum >= 0,
    ensures
        grow_sum(items.skip(at)) >= 0,
        grow_from(items, at, sum) == (if sum + grow_sum(items.skip(at)) <= u32::MAX || at
            == items.len() {
            Some(sum + grow_sum(items.skip(at)))
        } else {
            None
        }),
    decreases items.len() - at,
{
    if at < items.len() {
        lemma_grow(items, at + 1, sum + items[at].grow);
        assert(items.skip(at).skip(1) =~= items.skip(at + 1));
        assert(items.skip(at)[0] == items[at]);
    }
}

/// Items that are too large together give up exactly what is too much, items that leave space take
/// exactly what is left, and items that fit stay as they are. Nothing is taken where no item grows or
/// where space is not handed out. All of this is exact while the sizes are small.
pub proof fn lemma_plan(items: Seq<FlexBase>, total: int, available: u32, distributes: bool)
    requires
        0 <= total < 0x100_0000,
        available < 0x100_0000,
    ensures
        match flex_plan(items, total, available, distributes) {
            Some(FlexPlan::Shrink { overflow, scaled }) => total > available && overflow == total
                - available && scaled_from(items, 0, 0)->0 > 0,
            Some(FlexPlan::Grow { left, grow }) => total < available && distributes && left
                == available - total && grow > 0 && grow == grow_sum(items),
            Some(FlexPlan::Keep) => total == available || (total > available && scaled_from(
                items,
                0,
                0,
            )->0 <= 0) || (total < available && (!distributes || grow_sum(items) == 0)),
            None => total != available,
        },
{
    lemma_small_numbers_are_exact(available as int);
    lemma_small_numbers_are_exact(total - available);
    lemma_grow(items, 0, 0);
    assert(items.skip(0) =~= items);
}

/// An item that keeps its size has the size that it wants, and with its margins as much more as they
/// are; exact while the sizes are small.
pub proof fn lemma_kept_size(item: FlexBase)
    requires
        0 <= item.base < 0x80_0000,
        0 <= item.margin < 0x80_0000,
    ensures
        kept_size(item).size == item.base,
        kept_size(item).outer == item.base + item.margin,
{
    lemma_small_numbers_are_exact(item.margin as int);
    lemma_small_numbers_are_exact(item.base + item.margin);
}

/// What items want together with their margins.
pub open spec fn wanted_sum(items: Seq<FlexBase>) -> int
    decreases items.len(),
{
    if items.len() == 0 {
        0
    } else {
        items[0].base + items[0].margin + wanted_sum(items.skip(1))
    }
}

proof fn lemma_wanted_is_positive(items: Seq<FlexBase>)
    requires
        forall|i: int|
            0 <= i < items.len() ==> (#[trigger] items[i]).base >= 0 && items[i].margin >= 0,
    ensures
        wanted_sum(items) >= 0,
    decreases items.len(),
{
    if items.len() > 0 {
        let rest = items.skip(1);
        assert forall|i: int| 0 <= i < rest.len() implies (#[trigger] rest[i]).base >= 0
            && rest[i].margin >= 0 by {
            assert(rest[i] == items[i + 1]);
        }
        lemma_wanted_is_positive(rest);
    }
}

proof fn lemma_outer_from(items: Seq<FlexBase>, at: int, sum: int)
    requires
        0 <= at <= items.len(),
        forall|i: int|
            0 <= i < items.len() ==> (#[trigger] items[i]).base >= 0 && items[i].margin >= 0,
        0 <= sum,
        sum + wanted_sum(items.skip(at)) <= 0x80_0000,
    ensures
        outer_from(items, at, sum) == Some(sum + wanted_sum(items.skip(at))),
    decreases items.len() - at,
{
    if at < items.len() {
        let rest = items.skip(at);
        assert(rest.skip(1) =~= items.skip(at + 1));
        assert(rest[0] == items[at]);
        let tail = items.skip(at + 1);
        assert forall|i: int| 0 <= i < tail.len() implies (#[trigger] tail[i]).base >= 0
            && tail[i].margin >= 0 by {
            assert(tail[i] == items[at + 1 + i]);
        }
        lemma_wanted_is_positive(tail);
        lemma_small_numbers_are_exact(items[at].margin as int);
        lemma_small_numbers_are_exact(items[at].base + items[at].margin);
        lemma_small_numbers_are_exact(sum + items[at].base + items[at].margin);
        lemma_outer_from(items, at + 1, sum + items[at].base + items[at].margin);
    }
}

/// What items take together is what they want with their margins; exact while the sizes are small.
pub proof fn lemma_items_add_up(items: Seq<FlexBase>)
    requires
        forall|i: int|
            0 <= i < items.len() ==> (#[trigger] items[i]).base >= 0 && items[i].margin >= 0,
        wanted_sum(items) <= 0x80_0000,
    ensures
        outer_from(items, 0, 0) == Some(wanted_sum(items)),
{
    assert(items.skip(0) =~= items);
    lemma_outer_from(items, 0, 0);
}

/// The row of a container is as large across the main axis as its largest item.
pub proof fn lemma_row_is_as_large_as_its_largest(items: Seq<FlexBase>, at: int, least: int)
    requires
        0 <= at <= items.len(),
    ensures
        cross_from(items, at, least) >= least,
        forall|i: int|
            at <= i < items.len() ==> cross_from(items, at, least) >= (#[trigger] items[i]).cross,
        cross_from(items, at, least) == least || exists|i: int|
            at <= i < items.len() && cross_from(items, at, least) == (#[trigger] items[i]).cross,
    decreases items.len() - at,
{
    if at < items.len() {
        let next = if least >= items[at].cross {
            least
        } else {
            items[at].cross as int
        };
        lemma_row_is_as_large_as_its_largest(items, at + 1, next);
    }
}

/// An item that is not stretched keeps its size across the main axis. One that is takes all that the
/// container or the row has, but never more than it may.
pub proof fn lemma_cross_size(
    item: FlexBase,
    direction: StyleFlexDirection,
    definite: bool,
    available: u32,
    row_cross: int,
)
    requires
        available < 0x100_0000,
        0 <= item.cross <= u32::MAX,
        0 <= item.max_cross <= u32::MAX,
        0 <= row_cross <= u32::MAX,
    ensures
        ({
            let size = cross_size(item, direction, definite, available, row_cross);
            let all = if direction is Column || definite {
                available as int
            } else {
                row_cross
            };
            &&& !item.stretch ==> size == item.cross
            &&& item.stretch ==> size <= item.max_cross && size <= all
            &&& item.stretch && all <= item.max_cross ==> size == all
            &&& item.stretch && all >= item.max_cross ==> size == item.max_cross
        }),
{
    lemma_small_numbers_are_exact(available as int);
}

/// The items of a container stand as it asks: as many as there are get a size, and the space that they
/// and the gaps leave is spread by its keyword.
pub proof fn lemma_container_spreads_its_items(
    input: LayoutInput,
    answers: Answers,
    style: LayoutStyle,
    sizes: ContainerSizes,
    allow_fill: bool,
    definite: bool,
    bases: Seq<FlexBase>,
    gap: i32,
)
    requires
        0 < bases.len() <= i32::MAX,
        gap >= 0,
        gap * (bases.len() - 1) <= i32::MAX,
        outer_from(bases, 0, 0) matches Some(total) && length_or_zero(
            style.gap,
            style.font_size,
            Some(main_available(style.flex_direction, sizes, definite, total)),
            input.window,
        ) == Ok::<i32, crate::lengths::Stop>(gap),
    ensures
        flex_sized(input, answers, style, sizes, allow_fill, definite, bases) matches Ok(planned)
            ==> {
            let inner = if style.flex_direction is Row {
                sizes.inner_width as int
            } else {
                sizes.inner_height as int
            };
            let used = sum_of(outer_sizes(planned.targets)) + gap * (bases.len() - 1);
            let row_fills = style.flex_direction is Row && !(style.display is InlineFlex)
                && allow_fill;
            let free = if row_fills && used <= inner {
                inner - used
            } else {
                0
            };
            &&& planned.targets.len() == bases.len()
            &&& planned.gap >= gap
            &&& row_fills ==> is_spread(
                style.justify_content,
                free,
                bases.len() as int,
                planned.start as int,
                planned.gap - gap,
            )
        },
{
    if let Ok(planned) = flex_sized(input, answers, style, sizes, allow_fill, definite, bases) {
        let total = outer_from(bases, 0, 0)->0;
        let distributes = crate::flex::distributes(
            style.flex_direction,
            sizes,
            allow_fill,
            definite,
            style.display is InlineFlex,
        );
        let available = main_available(style.flex_direction, sizes, definite, total);
        let plan = flex_plan(bases, total, available, distributes)->0;
        lemma_targets_len(answers, plan, bases, 0, Seq::empty());
        let outer = outer_sizes(planned.targets);
        lemma_main_space_is_filled(style.flex_direction, outer, gap, sizes, distributes);
        let free = main_free(style.flex_direction, outer, gap, sizes, distributes)->0;
        lemma_space_is_spread(style.justify_content, free, bases.len());
        let (start, between) = justified(style.justify_content, free, bases.len());
        lemma_spread_is_bounded(style.justify_content, free as int, bases.len() as int, start, between);
    }
}

proof fn lemma_spread_is_bounded(
    justify: StyleJustifyContent,
    free: int,
    count: int,
    start: int,
    between: int,
)
    requires
        is_spread(justify, free, count, start, between),
        count > 0,
    ensures
        start <= free,
{
    assert(between * (count - 1) >= 0) by (nonlinear_arith)
        requires
            between >= 0,
            count > 0,
    ;
}

proof fn lemma_targets_len(
    answers: Answers,
    plan: FlexPlan,
    items: Seq<FlexBase>,
    at: int,
    known: Seq<crate::needs::FlexTarget>,
)
    requires
        0 <= at <= items.len(),
    ensures
        targets_from(answers, plan, items, at, known) matches Ok(targets) ==> targets.len()
            == known.len() + items.len() - at,
    decreases items.len() - at,
{
    if at < items.len() {
        match crate::flex_sizes::target(answers, plan, items[at]) {
            Ok(target) => lemma_targets_len(answers, plan, items, at + 1, known.push(target)),
            Err(_) => {},
        }
    }
}

} // verus!
