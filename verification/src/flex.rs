//! Flex layout: which children take part and in which order, how free space is distributed, and
//! where each item goes.
use vstd::prelude::*;

use crate::boxes::in_i32;
use crate::flow::with_last_row;
use crate::flow::with_new_row;
use crate::flow::MarginRows;
use crate::order::arranged;
use crate::order::stable_order;
use crate::order::stable_positions;
use crate::raster::max2;
use crate::raster::min2;
use crate::sizing::bounded;
use crate::sizing::hold_between;
use crate::sizing::less;
use crate::sizing::ContainerSizes;
use crate::sizing::Edges;
use crate::sizing::Position;

verus! {

#[derive(Debug, Clone, Copy, PartialEq, Eq, Structural)]
pub enum StyleFlexDirection {
    Row,
    Column,
}

#[derive(Debug, Clone, Copy, PartialEq, Eq, Structural)]
pub enum StyleJustifyContent {
    Auto,
    FlexStart,
    FlexEnd,
    Center,
    SpaceBetween,
    SpaceAround,
    SpaceEvenly,
    Stretch,
}

/// A child of a container: its node, whether it is out of the flow, and its flex order.
#[derive(Debug, Clone, Copy, PartialEq, Eq, Structural)]
pub struct ChildFact {
    pub node_idx: usize,
    pub free: bool,
    pub order: i32,
}

/// The nodes of the children whose being out of the flow is `free`, in document order.
pub open spec fn nodes_where(children: Seq<ChildFact>, free: bool) -> Seq<usize>
    decreases children.len(),
{
    if children.len() == 0 {
        Seq::empty()
    } else if children.last().free == free {
        nodes_where(children.drop_last(), free).push(children.last().node_idx)
    } else {
        nodes_where(children.drop_last(), free)
    }
}

pub open spec fn orders_where(children: Seq<ChildFact>, free: bool) -> Seq<i128>
    decreases children.len(),
{
    if children.len() == 0 {
        Seq::empty()
    } else if children.last().free == free {
        orders_where(children.drop_last(), free).push(children.last().order as i128)
    } else {
        orders_where(children.drop_last(), free)
    }
}

/// The nodes of the children in the flow by ascending flex order; equal ones keep document order.
pub open spec fn items_in_order(children: Seq<ChildFact>) -> Seq<usize> {
    arranged(nodes_where(children, false), stable_positions(orders_where(children, false)))
}

/// The children whose being out of the flow is `free`, in document order.
pub fn children_where(children: &Vec<ChildFact>, free: bool) -> (r: Vec<usize>)
    ensures
        r@ == nodes_where(children@, free),
{
    let mut nodes: Vec<usize> = Vec::new();
    let mut at: usize = 0;
    while at < children.len()
        invariant
            at <= children@.len(),
            nodes@ == nodes_where(children@.take(at as int), free),
        decreases children@.len() - at,
    {
        assert(children@.take(at + 1).drop_last() =~= children@.take(at as int));
        if children[at].free == free {
            nodes.push(children[at].node_idx);
        }
        at = at + 1;
    }
    assert(children@.take(children@.len() as int) =~= children@);
    nodes
}

/// The children in the flow by ascending flex order; equal ones keep document order.
pub fn flex_items(children: &Vec<ChildFact>) -> (r: Vec<usize>)
    ensures
        r@ == items_in_order(children@),
{
    let nodes = children_where(children, false);
    let mut keys: Vec<i128> = Vec::new();
    let mut at: usize = 0;
    while at < children.len()
        invariant
            at <= children@.len(),
            keys@ == orders_where(children@.take(at as int), false),
            keys@.len() == nodes_where(children@.take(at as int), false).len(),
        decreases children@.len() - at,
    {
        assert(children@.take(at + 1).drop_last() =~= children@.take(at as int));
        if !children[at].free {
            keys.push(children[at].order as i128);
        }
        at = at + 1;
    }
    assert(children@.take(children@.len() as int) =~= children@);
    let order = stable_order(&keys);
    let mut items: Vec<usize> = Vec::new();
    let mut k: usize = 0;
    while k < order.len()
        invariant
            k <= order@.len(),
            order@ == stable_positions(orders_where(children@, false)),
            nodes@ == nodes_where(children@, false),
            forall|i: int| 0 <= i < order@.len() ==> (#[trigger] order@[i]) < nodes@.len(),
            items@ =~= items_in_order(children@).take(k as int),
        decreases order@.len() - k,
    {
        items.push(nodes[order[k]]);
        k = k + 1;
    }
    items
}

/// How a flex basis is found.
#[derive(Debug, Clone, Copy, PartialEq, Eq, Structural)]
pub enum BasisSource {
    /// The item has no definite basis.
    Indefinite,
    FlexBasis,
    Width,
    Height,
}

/// Which of an item's sizes is its flex basis: `flex-basis` unless that is `auto`, else the size
/// along the main axis unless that is `auto`.
pub open spec fn basis_source(
    direction: StyleFlexDirection,
    basis_auto: bool,
    width_auto: bool,
    height_auto: bool,
) -> BasisSource {
    if !basis_auto {
        BasisSource::FlexBasis
    } else if direction is Row && !width_auto {
        BasisSource::Width
    } else if direction is Column && !height_auto {
        BasisSource::Height
    } else {
        BasisSource::Indefinite
    }
}

pub fn flex_basis_source(
    direction: StyleFlexDirection,
    basis_auto: bool,
    width_auto: bool,
    height_auto: bool,
) -> (r: BasisSource)
    ensures
        r == basis_source(direction, basis_auto, width_auto, height_auto),
{
    if !basis_auto {
        return BasisSource::FlexBasis;
    }
    match direction {
        StyleFlexDirection::Row => if width_auto {
            BasisSource::Indefinite
        } else {
            BasisSource::Width
        },
        StyleFlexDirection::Column => if height_auto {
            BasisSource::Indefinite
        } else {
            BasisSource::Height
        },
    }
}

/// The size that percentages of a flex basis refer to: none along a column of unknown height.
pub open spec fn basis_available(
    direction: StyleFlexDirection,
    sizes: ContainerSizes,
    has_definite_height: bool,
) -> Option<u32> {
    match direction {
        StyleFlexDirection::Row => Some(sizes.inner_width),
        StyleFlexDirection::Column => if has_definite_height {
            Some(sizes.inner_height)
        } else {
            None
        },
    }
}

pub fn basis_available_size(
    direction: StyleFlexDirection,
    sizes: &ContainerSizes,
    has_definite_height: bool,
) -> (r: Option<u32>)
    ensures
        r == basis_available(direction, *sizes, has_definite_height),
{
    match direction {
        StyleFlexDirection::Row => Some(sizes.inner_width),
        StyleFlexDirection::Column => if has_definite_height {
            Some(sizes.inner_height)
        } else {
            None
        },
    }
}

/// A resolved flex basis; a negative one counts for nothing.
pub fn usable_basis(resolved: Option<i32>) -> (r: Option<u32>)
    ensures
        match (resolved, r) {
            (Some(value), Some(basis)) => value >= 0 && basis == value,
            (Some(value), None) => value < 0,
            (None, r) => r is None,
        },
{
    match resolved {
        Some(value) => if value >= 0 {
            Some(value as u32)
        } else {
            None
        },
        None => None,
    }
}

/// Whether a container hands its free main space to its items.
pub open spec fn distributes(
    direction: StyleFlexDirection,
    sizes: ContainerSizes,
    allow_fill: bool,
    has_definite_height: bool,
    inline: bool,
) -> bool {
    match direction {
        StyleFlexDirection::Row => sizes.container_width_non_filling is Some || (allow_fill
            && !inline),
        StyleFlexDirection::Column => sizes.container_height_non_filling is Some || (
        has_definite_height && !inline),
    }
}

/// Whether a container hands its free main space to its items: it has a main size of its own, or
/// fills its surroundings along the main axis.
pub fn distributes_main_space(
    direction: StyleFlexDirection,
    sizes: &ContainerSizes,
    allow_fill: bool,
    has_definite_height: bool,
    inline: bool,
) -> (r: bool)
    ensures
        r == distributes(direction, *sizes, allow_fill, has_definite_height, inline),
{
    match direction {
        StyleFlexDirection::Row => sizes.container_width_non_filling.is_some() || (allow_fill
            && !inline),
        StyleFlexDirection::Column => sizes.container_height_non_filling.is_some() || (
        has_definite_height && !inline),
    }
}

/// The alignment of an item across the main axis: its own, unless that is `auto`.
pub open spec fn aligned(own: StyleJustifyContent, container: StyleJustifyContent) -> StyleJustifyContent {
    if own is Auto {
        container
    } else {
        own
    }
}

/// Whether an item is stretched across the main axis.
pub open spec fn stretched(
    direction: StyleFlexDirection,
    align_items: StyleJustifyContent,
    align_self: StyleJustifyContent,
    width_auto: bool,
    height_auto: bool,
    allow_fill: bool,
) -> bool {
    &&& align_items is Stretch
    &&& allow_fill
    &&& aligned(align_self, align_items) is Stretch
    &&& match direction {
        StyleFlexDirection::Column => width_auto,
        StyleFlexDirection::Row => height_auto,
    }
}

pub fn stretches(
    direction: StyleFlexDirection,
    align_items: StyleJustifyContent,
    align_self: StyleJustifyContent,
    width_auto: bool,
    height_auto: bool,
    allow_fill: bool,
) -> (r: bool)
    ensures
        r == stretched(direction, align_items, align_self, width_auto, height_auto, allow_fill),
{
    if align_items != StyleJustifyContent::Stretch || !allow_fill {
        return false;
    }
    let align = if align_self == StyleJustifyContent::Auto {
        align_items
    } else {
        align_self
    };
    if align != StyleJustifyContent::Stretch {
        return false;
    }
    match direction {
        StyleFlexDirection::Column => width_auto,
        StyleFlexDirection::Row => height_auto,
    }
}

/// The space across the main axis that is left beside an item.
pub open spec fn cross_free(
    direction: StyleFlexDirection,
    used_cross: u32,
    has_definite_height: bool,
    allow_fill: bool,
    sizes: ContainerSizes,
) -> u32 {
    match direction {
        StyleFlexDirection::Column => if allow_fill {
            less(sizes.inner_width, used_cross)
        } else {
            0
        },
        StyleFlexDirection::Row => if has_definite_height {
            less(sizes.inner_height, used_cross)
        } else {
            0
        },
    }
}

/// How far an item goes from the start of the cross axis.
pub open spec fn cross_offset(align: StyleJustifyContent, free: u32) -> u32 {
    match align {
        StyleJustifyContent::FlexEnd => free,
        StyleJustifyContent::Center => free / 2,
        _ => 0,
    }
}

pub fn calculate_cross_offset(
    direction: StyleFlexDirection,
    align_self: StyleJustifyContent,
    align_items: StyleJustifyContent,
    used_cross: u32,
    has_definite_height: bool,
    allow_fill: bool,
    sizes: &ContainerSizes,
) -> (r: u32)
    ensures
        r == cross_offset(
            aligned(align_self, align_items),
            cross_free(direction, used_cross, has_definite_height, allow_fill, *sizes),
        ),
{
    let align = if align_self == StyleJustifyContent::Auto {
        align_items
    } else {
        align_self
    };
    let free: u32 = match direction {
        StyleFlexDirection::Column => if allow_fill {
            sizes.inner_width.saturating_sub(used_cross)
        } else {
            0
        },
        StyleFlexDirection::Row => if has_definite_height {
            sizes.inner_height.saturating_sub(used_cross)
        } else {
            0
        },
    };
    match align {
        StyleJustifyContent::FlexEnd => free,
        StyleJustifyContent::Center => free / 2,
        _ => 0,
    }
}

/// The space before the first of `count` items, and the space that is added between two of them.
pub open spec fn justified(justify: StyleJustifyContent, free: u32, count: nat) -> (int, int) {
    match justify {
        StyleJustifyContent::Auto => (0, 0),
        StyleJustifyContent::FlexStart => (0, 0),
        StyleJustifyContent::Stretch => (0, 0),
        StyleJustifyContent::FlexEnd => (free as int, 0),
        StyleJustifyContent::Center => ((free / 2) as int, 0),
        StyleJustifyContent::SpaceBetween => if count > 1 {
            (0, free as int / (count - 1))
        } else {
            (0, 0)
        },
        StyleJustifyContent::SpaceAround => if count > 0 {
            ((free as int / count as int) / 2, free as int / count as int)
        } else {
            (0, 0)
        },
        StyleJustifyContent::SpaceEvenly => if count > 0 {
            (free as int / (count as int + 1), free as int / (count as int + 1))
        } else {
            (0, 0)
        },
    }
}

proof fn lemma_quotient(free: int, count: int)
    requires
        0 <= free,
        count > 0,
    ensures
        0 <= free / count <= free,
        (free / count) * count <= free,
{
    assert(0 <= free / count <= free) by (nonlinear_arith)
        requires
            0 <= free,
            count > 0,
    ;
    vstd::arithmetic::div_mod::lemma_fundamental_div_mod(free, count);
    vstd::arithmetic::mul::lemma_mul_is_commutative(count, free / count);
}

/// Distributes the free main space over `count` items: the space before the first one, and the
/// space that is added between two of them.
pub fn justify_content(justify: StyleJustifyContent, free_space: u32, count: usize) -> (r: (
    u32,
    u32,
))
    requires
        count < u32::MAX,
    ensures
        r.0 == justified(justify, free_space, count as nat).0,
        r.1 == justified(justify, free_space, count as nat).1,
{
    proof {
        if count > 1 {
            lemma_quotient(free_space as int, count - 1);
        }
        if count > 0 {
            lemma_quotient(free_space as int, count as int);
            lemma_quotient(free_space as int, count + 1);
        }
    }
    match justify {
        StyleJustifyContent::Auto | StyleJustifyContent::FlexStart
        | StyleJustifyContent::Stretch => (0, 0),
        StyleJustifyContent::FlexEnd => (free_space, 0),
        StyleJustifyContent::Center => (free_space / 2, 0),
        StyleJustifyContent::SpaceBetween => if count > 1 {
            (0, free_space / (count as u32 - 1))
        } else {
            (0, 0)
        },
        StyleJustifyContent::SpaceAround => if count > 0 {
            let slot: u32 = free_space / count as u32;
            (slot / 2, slot)
        } else {
            (0, 0)
        },
        StyleJustifyContent::SpaceEvenly => if count > 0 {
            let slot: u32 = free_space / (count as u32 + 1);
            (slot, slot)
        } else {
            (0, 0)
        },
    }
}

/// Distributing free space never hands out more than there is: the space before the first item
/// and the spaces between the items fit in it.
pub proof fn lemma_justify_fits(justify: StyleJustifyContent, free: u32, count: nat)
    requires
        count > 0,
    ensures
        justified(justify, free, count).0 >= 0,
        justified(justify, free, count).1 >= 0,
        justified(justify, free, count).0 + justified(justify, free, count).1 * (count - 1) <= free,
{
    let n = count as int;
    let (start, gap) = justified(justify, free, count);
    if gap == 0 {
        assert(gap * (n - 1) == 0) by (nonlinear_arith)
            requires
                gap == 0,
        ;
    }
    match justify {
        StyleJustifyContent::SpaceBetween => {
            if n > 1 {
                lemma_quotient(free as int, n - 1);
            }
        },
        StyleJustifyContent::SpaceAround => {
            lemma_quotient(free as int, n);
            assert(gap * (n - 1) == gap * n - gap) by (nonlinear_arith);
        },
        StyleJustifyContent::SpaceEvenly => {
            lemma_quotient(free as int, n + 1);
            assert(gap * (n - 1) == gap * (n + 1) - 2 * gap) by (nonlinear_arith);
        },
        _ => {},
    }
}

/// The outer main sizes of the items, added up; nothing where the sum leaves the `u32` range.
pub open spec fn total(sizes: Seq<u32>) -> Option<int>
    decreases sizes.len(),
{
    if sizes.len() == 0 {
        Some(0)
    } else {
        match total(sizes.drop_last()) {
            None => None,
            Some(sum) => if sum + sizes.last() <= u32::MAX {
                Some(sum + sizes.last())
            } else {
                None
            },
        }
    }
}

/// `gap * (count - 1)`, held in the `i32` range.
pub open spec fn gap_total(gap: i32, count: nat) -> int {
    let between = if count == 0 {
        0
    } else {
        ((count - 1) as usize as i32) as int
    };
    max2(min2(gap * between, i32::MAX as int), i32::MIN as int)
}

fn saturating_product(gap: i32, between: i32) -> (r: i32)
    ensures
        r == max2(min2(gap * between, i32::MAX as int), i32::MIN as int),
{
    assert(-0x4000_0000_0000_0000 <= gap * between <= 0x4000_0000_0000_0000) by (nonlinear_arith)
        requires
            -0x8000_0000 <= gap <= 0x7FFF_FFFF,
            -0x8000_0000 <= between <= 0x7FFF_FFFF,
    ;
    let product: i64 = gap as i64 * between as i64;
    if product > i32::MAX as i64 {
        i32::MAX
    } else if product < i32::MIN as i64 {
        i32::MIN
    } else {
        product as i32
    }
}

/// The main space that the items and the gaps between them leave.
pub open spec fn main_free(
    direction: StyleFlexDirection,
    outer_sizes: Seq<u32>,
    gap: i32,
    sizes: ContainerSizes,
    distributes: bool,
) -> Option<u32> {
    match total(outer_sizes) {
        None => None,
        Some(sum) => {
            let used = sum + (gap_total(gap, outer_sizes.len()) as i32 as u32);
            if used > u32::MAX {
                None
            } else if !distributes {
                Some(0)
            } else {
                Some(
                    less(
                        match direction {
                            StyleFlexDirection::Row => sizes.inner_width,
                            StyleFlexDirection::Column => sizes.inner_height,
                        },
                        used as u32,
                    ),
                )
            }
        },
    }
}

/// The main space that the items and the gaps between them leave to be distributed. Nothing where
/// the sizes do not add up within the `u32` range.
pub fn main_free_space(
    direction: StyleFlexDirection,
    outer_sizes: &Vec<u32>,
    gap: i32,
    sizes: &ContainerSizes,
    distributes: bool,
) -> (r: Option<u32>)
    ensures
        r == main_free(direction, outer_sizes@, gap, *sizes, distributes),
{
    let mut used: u32 = 0;
    let mut at: usize = 0;
    while at < outer_sizes.len()
        invariant
            at <= outer_sizes@.len(),
            total(outer_sizes@.take(at as int)) == Some(used as int),
        decreases outer_sizes@.len() - at,
    {
        let ghost taken = outer_sizes@.take(at + 1);
        assert(taken.drop_last() =~= outer_sizes@.take(at as int));
        match used.checked_add(outer_sizes[at]) {
            None => {
                proof {
                    lemma_total_prefix(outer_sizes@, at + 1);
                }
                return None;
            },
            Some(sum) => {
                used = sum;
            },
        }
        at = at + 1;
    }
    assert(outer_sizes@.take(outer_sizes@.len() as int) =~= outer_sizes@);
    let count: usize = outer_sizes.len();
    let between: i32 = if count == 0 {
        0
    } else {
        (count - 1) as i32
    };
    let gaps: i32 = saturating_product(gap, between);
    match used.checked_add(gaps as u32) {
        None => None,
        Some(all) => if !distributes {
            Some(0)
        } else {
            match direction {
                StyleFlexDirection::Row => Some(sizes.inner_width.saturating_sub(all)),
                StyleFlexDirection::Column => Some(sizes.inner_height.saturating_sub(all)),
            }
        },
    }
}

proof fn lemma_total_prefix(sizes: Seq<u32>, count: int)
    requires
        0 <= count <= sizes.len(),
        total(sizes.take(count)) is None,
    ensures
        total(sizes) is None,
    decreases sizes.len(),
{
    if count == sizes.len() {
        assert(sizes.take(count) =~= sizes);
    } else {
        assert(sizes.drop_last().take(count) =~= sizes.take(count));
        lemma_total_prefix(sizes.drop_last(), count);
    }
}

/// The state of a flex container while its items are placed.
pub struct FlexLine {
    pub direction: StyleFlexDirection,
    /// Where the content starts.
    pub origin: Position,
    /// Where the next item goes.
    pub cursor: Position,
    /// The space between two items.
    pub main_gap: u32,
    /// The largest size of an item across the main axis.
    pub max_cross: u32,
    pub rows: MarginRows,
    pub children: Vec<usize>,
}

/// What a [`FlexLine`] holds, in mathematical integers.
pub struct LineModel {
    pub direction: StyleFlexDirection,
    pub origin_x: int,
    pub origin_y: int,
    pub x: int,
    pub y: int,
    pub main_gap: u32,
    pub max_cross: int,
    pub lines: Seq<Seq<usize>>,
    pub children: Seq<usize>,
}

/// An item that has been laid out, with what decides its place.
#[derive(Debug, Clone, Copy)]
pub struct FlexPlaced {
    /// The number of the item's box.
    pub id: usize,
    pub width: u32,
    pub height: u32,
    pub margins: Edges,
    /// Whether no item comes after this one.
    pub last: bool,
}

impl LineModel {
    /// Where the next item goes: behind its leading margin on the main axis, and at its leading
    /// margin from the start of the cross axis.
    pub open spec fn item_x(self, margins: Edges) -> int {
        match self.direction {
            StyleFlexDirection::Row => self.x + margins.left,
            StyleFlexDirection::Column => self.origin_x + margins.left,
        }
    }

    pub open spec fn item_y(self, margins: Edges) -> int {
        match self.direction {
            StyleFlexDirection::Row => self.origin_y + margins.top,
            StyleFlexDirection::Column => self.y + margins.top,
        }
    }

    /// The line once the next item is to be laid out.
    pub open spec fn at_item(self, margins: Edges) -> LineModel {
        LineModel { x: self.item_x(margins), y: self.item_y(margins), ..self }
    }

    /// The space that an item takes across the main axis.
    pub open spec fn outer_cross(self, item: FlexPlaced) -> int {
        (match self.direction {
            StyleFlexDirection::Row => item.height as int,
            StyleFlexDirection::Column => item.width as int,
        }) + max2(item.margins.top as int, 0) + max2(item.margins.bottom as int, 0)
    }

    /// How far the cursor moves along the main axis past an item.
    pub open spec fn advance(self, item: FlexPlaced) -> int {
        (match self.direction {
            StyleFlexDirection::Row => (item.width as i32) + item.margins.right,
            StyleFlexDirection::Column => (item.height as i32) + item.margins.bottom,
        }) + if item.last {
            0
        } else {
            (self.main_gap as i32) as int
        }
    }

    /// The line after an item that stands `offset` from the start of the cross axis.
    pub open spec fn after_item(self, item: FlexPlaced, offset: u32) -> LineModel {
        match self.direction {
            StyleFlexDirection::Row => LineModel {
                x: self.x + self.advance(item),
                y: self.y + (offset as i32),
                max_cross: max2(self.max_cross, item.height as int),
                lines: with_last_row(self.lines, item.id),
                children: self.children.push(item.id),
                ..self
            },
            StyleFlexDirection::Column => LineModel {
                x: self.x + (offset as i32),
                y: self.y + self.advance(item),
                max_cross: max2(self.max_cross, item.width as int),
                lines: with_new_row(self.lines, item.id),
                children: self.children.push(item.id),
                ..self
            },
        }
    }

    /// Whether moving past an item keeps every coordinate in the `i32` range.
    pub open spec fn item_in_range(self, item: FlexPlaced, offset: u32) -> bool {
        let plain = self.advance(FlexPlaced { last: true, ..item });
        let after = self.after_item(item, offset);
        let start = match self.direction {
            StyleFlexDirection::Row => self.x,
            StyleFlexDirection::Column => self.y,
        };
        &&& in_i32(plain)
        &&& in_i32(start + plain)
        &&& in_i32(after.x)
        &&& in_i32(after.y)
    }

    /// How far the items reach along the main axis.
    pub open spec fn main_length(self) -> int {
        match self.direction {
            StyleFlexDirection::Row => max2(self.x - self.origin_x, 0),
            StyleFlexDirection::Column => max2(self.y - self.origin_y, 0),
        }
    }
}

/// A container with no item yet; nothing where a coordinate leaves the `i32` range.
pub open spec fn line_begun(
    direction: StyleFlexDirection,
    cursor: Position,
    padding: Edges,
    start_offset: u32,
    main_gap: u32,
) -> Option<LineModel> {
    let origin_x = cursor.x + padding.left;
    let origin_y = cursor.y + padding.top;
    let start = (start_offset as i32) as int;
    let x = if direction is Row {
        origin_x + start
    } else {
        origin_x
    };
    let y = if direction is Column {
        origin_y + start
    } else {
        origin_y
    };
    if in_i32(origin_x) && in_i32(origin_y) && in_i32(x) && in_i32(y) {
        Some(
            LineModel {
                direction,
                origin_x,
                origin_y,
                x,
                y,
                main_gap,
                max_cross: 0,
                lines: Seq::empty(),
                children: Seq::empty(),
            },
        )
    } else {
        None
    }
}

fn wide_in_range(value: i64) -> (r: bool)
    ensures
        r == in_i32(value as int),
{
    i32::MIN as i64 <= value && value <= i32::MAX as i64
}

impl FlexLine {
    pub open spec fn model(self) -> LineModel {
        LineModel {
            direction: self.direction,
            origin_x: self.origin.x as int,
            origin_y: self.origin.y as int,
            x: self.cursor.x as int,
            y: self.cursor.y as int,
            main_gap: self.main_gap,
            max_cross: self.max_cross as int,
            lines: self.rows.lines(),
            children: self.children@,
        }
    }

    pub open spec fn wf(self) -> bool {
        self.rows.wf() && self.rows.no_empty_row() && self.rows.unmoved()
    }

    /// A container with no item yet, whose first item goes `start_offset` behind the start of the
    /// content. Nothing where a coordinate leaves the `i32` range.
    pub fn new(
        direction: StyleFlexDirection,
        cursor: Position,
        padding: &Edges,
        start_offset: u32,
        main_gap: u32,
    ) -> (r: Option<FlexLine>)
        ensures
            match (r, line_begun(direction, cursor, *padding, start_offset, main_gap)) {
                (Some(line), Some(model)) => line.wf() && line.model() == model,
                (None, None) => true,
                _ => false,
            },
    {
        let origin_x: i64 = cursor.x as i64 + padding.left as i64;
        let origin_y: i64 = cursor.y as i64 + padding.top as i64;
        let start: i64 = (start_offset as i32) as i64;
        let (x, y): (i64, i64) = match direction {
            StyleFlexDirection::Row => (origin_x + start, origin_y),
            StyleFlexDirection::Column => (origin_x, origin_y + start),
        };
        if !wide_in_range(origin_x) || !wide_in_range(origin_y) || !wide_in_range(x)
            || !wide_in_range(y) {
            return None;
        }
        let line = FlexLine {
            direction,
            origin: Position { x: origin_x as i32, y: origin_y as i32 },
            cursor: Position { x: x as i32, y: y as i32 },
            main_gap,
            max_cross: 0,
            rows: MarginRows::new(),
            children: Vec::new(),
        };
        assert(line.model().lines =~= Seq::empty());
        Some(line)
    }

    /// Moves to the next item and returns where it goes. Nothing where a coordinate leaves the
    /// `i32` range.
    pub fn place(&mut self, margins: &Edges) -> (r: Option<Position>)
        requires
            old(self).wf(),
        ensures
            final(self).wf(),
            match r {
                None => {
                    &&& !in_i32(old(self).model().item_x(*margins)) || !in_i32(
                        old(self).model().item_y(*margins),
                    )
                    &&& *final(self) == *old(self)
                },
                Some(position) => {
                    &&& position.x == old(self).model().item_x(*margins)
                    &&& position.y == old(self).model().item_y(*margins)
                    &&& final(self).model() == old(self).model().at_item(*margins)
                },
            },
    {
        let (x, y): (i64, i64) = match self.direction {
            StyleFlexDirection::Row => (
                self.cursor.x as i64 + margins.left as i64,
                self.origin.y as i64 + margins.top as i64,
            ),
            StyleFlexDirection::Column => (
                self.origin.x as i64 + margins.left as i64,
                self.cursor.y as i64 + margins.top as i64,
            ),
        };
        if !wide_in_range(x) || !wide_in_range(y) {
            return None;
        }
        self.cursor = Position { x: x as i32, y: y as i32 };
        Some(self.cursor)
    }

    /// The space that an item takes across the main axis; nothing where it leaves the `u32` range.
    pub fn used_cross(&self, item: &FlexPlaced) -> (r: Option<u32>)
        ensures
            match r {
                None => self.model().outer_cross(*item) > u32::MAX,
                Some(used) => used == self.model().outer_cross(*item),
            },
    {
        let own: u32 = match self.direction {
            StyleFlexDirection::Row => item.height,
            StyleFlexDirection::Column => item.width,
        };
        let sum: u64 = own as u64 + item.margins.top.max(0) as u64 + item.margins.bottom.max(
            0,
        ) as u64;
        if sum > u32::MAX as u64 {
            None
        } else {
            Some(sum as u32)
        }
    }

    /// Takes in an item that was laid out where [`FlexLine::place`] said, and returns how far its
    /// box has to be moved across the main axis. Nothing where a coordinate leaves the `i32` range.
    pub fn add_item(&mut self, item: &FlexPlaced, offset: u32) -> (r: Option<(i32, i32)>)
        requires
            old(self).wf(),
        ensures
            final(self).wf(),
            r is Some <==> old(self).model().item_in_range(*item, offset),
            r matches Some(movement) ==> {
                &&& movement == (match old(self).direction {
                    StyleFlexDirection::Row => (0i32, offset as i32),
                    StyleFlexDirection::Column => (offset as i32, 0i32),
                })
                &&& final(self).model() == old(self).model().after_item(*item, offset)
            },
            r is None ==> *final(self) == *old(self),
    {
        let ghost before = self.model();
        let across: i64 = (offset as i32) as i64;
        let gap: i64 = if item.last {
            0
        } else {
            (self.main_gap as i32) as i64
        };
        match self.direction {
            StyleFlexDirection::Row => {
                let plain: i64 = (item.width as i32) as i64 + item.margins.right as i64;
                let x: i64 = self.cursor.x as i64 + plain;
                let y: i64 = self.cursor.y as i64 + across;
                if !wide_in_range(plain) || !wide_in_range(x) || !wide_in_range(x + gap)
                    || !wide_in_range(y) {
                    return None;
                }
                self.cursor = Position { x: (x + gap) as i32, y: y as i32 };
                self.max_cross = self.max_cross.max(item.height);
                self.rows.last_row(item.id, 0);
                self.children.push(item.id);
                assert(self.model() == before.after_item(*item, offset));
                Some((0, offset as i32))
            },
            StyleFlexDirection::Column => {
                let plain: i64 = (item.height as i32) as i64 + item.margins.bottom as i64;
                let y: i64 = self.cursor.y as i64 + plain;
                let x: i64 = self.cursor.x as i64 + across;
                if !wide_in_range(plain) || !wide_in_range(y) || !wide_in_range(y + gap)
                    || !wide_in_range(x) {
                    return None;
                }
                self.cursor = Position { x: x as i32, y: (y + gap) as i32 };
                self.max_cross = self.max_cross.max(item.width);
                self.rows.new_row(item.id, 0);
                self.children.push(item.id);
                assert(self.model() == before.after_item(*item, offset));
                Some((offset as i32, 0))
            },
        }
    }
}

/// What a finished flex container takes.
#[derive(Debug, Clone, Copy, PartialEq, Eq, Structural)]
pub struct FlexSize {
    pub width: u32,
    pub height: u32,
    pub content_height: u32,
}

/// How high the content of a finished container is.
pub open spec fn line_content_height(line: LineModel) -> int {
    match line.direction {
        StyleFlexDirection::Row => line.max_cross,
        StyleFlexDirection::Column => line.main_length(),
    }
}

/// How wide the content of a finished container is.
pub open spec fn line_content_width(line: LineModel) -> int {
    match line.direction {
        StyleFlexDirection::Row => line.main_length(),
        StyleFlexDirection::Column => line.max_cross,
    }
}

/// The height of a finished container before the limits: the specified one, else the padding and,
/// where there is a child, the content.
pub open spec fn line_height(
    line: LineModel,
    specified_height: Option<u32>,
    padding: Edges,
) -> int {
    match specified_height {
        Some(height) => height as int,
        None => {
            let vertical = padding.top + padding.bottom;
            if line.children.len() == 0 {
                (vertical as i32 as u32) as int
            } else {
                match line.direction {
                    StyleFlexDirection::Row => line_content_height(line) + (vertical as i32 as u32),
                    StyleFlexDirection::Column => ((line_content_height(line) + padding.top
                        + padding.bottom) as i32 as u32) as int,
                }
            }
        },
    }
}

/// Whether every sum that the size of a finished container needs fits its type.
pub open spec fn line_size_in_range(
    line: LineModel,
    specified_height: Option<u32>,
    sizes: ContainerSizes,
    padding: Edges,
    fills: bool,
) -> bool {
    &&& line.direction is Row ==> !fills ==> in_i32(line.x - line.origin_x)
    &&& line.direction is Column ==> in_i32(line.y - line.origin_y)
    &&& specified_height is None ==> {
        &&& line.children.len() == 0 || line.direction is Row ==> in_i32(
            padding.top + padding.bottom,
        )
        &&& line.children.len() > 0 && line.direction is Row ==> line_height(
            line,
            specified_height,
            padding,
        ) <= u32::MAX
        &&& line.children.len() > 0 && line.direction is Column ==> in_i32(
            line_content_height(line) + padding.top,
        ) && in_i32(line_content_height(line) + padding.top + padding.bottom)
    }
    &&& !fills ==> sizes.width_within(line_content_width(line) as u32) + sizes.padding_x
        <= u32::MAX
}

/// The size of a finished container.
pub open spec fn line_size(
    line: LineModel,
    specified_height: Option<u32>,
    sizes: ContainerSizes,
    padding: Edges,
    fills: bool,
) -> FlexSize {
    FlexSize {
        width: if fills {
            sizes.container_width
        } else {
            sizes.actual_width(line_content_width(line) as u32) as u32
        },
        height: bounded(
            line_height(line, specified_height, padding) as u32,
            sizes.min_height,
            sizes.max_height,
        ),
        content_height: line_content_height(line) as u32,
    }
}

impl FlexLine {
    /// The size of the container, once all items are placed. Nothing where a sum does not fit its
    /// type.
    pub fn finish(
        &self,
        specified_height: Option<u32>,
        sizes: &ContainerSizes,
        padding: &Edges,
        fills: bool,
    ) -> (r: Option<FlexSize>)
        ensures
            match r {
                None => !line_size_in_range(
                    self.model(),
                    specified_height,
                    *sizes,
                    *padding,
                    fills,
                ),
                Some(size) => {
                    &&& line_size_in_range(
                        self.model(),
                        specified_height,
                        *sizes,
                        *padding,
                        fills,
                    )
                    &&& size == line_size(
                        self.model(),
                        specified_height,
                        *sizes,
                        *padding,
                        fills,
                    )
                },
            },
    {
        let empty = self.children.len() == 0;
        let row = self.direction == StyleFlexDirection::Row;
        let length: i64 = if row {
            self.cursor.x as i64 - self.origin.x as i64
        } else {
            self.cursor.y as i64 - self.origin.y as i64
        };
        if !wide_in_range(length) && (!row || !fills) {
            return None;
        }
        let main_length: i64 = if length < 0 {
            0
        } else {
            length
        };
        let content_height: i64 = if row {
            self.max_cross as i64
        } else {
            main_length
        };
        let vertical: i64 = padding.top as i64 + padding.bottom as i64;
        let height: u32 = match specified_height {
            Some(height) => height,
            None => {
                if empty || row {
                    if !wide_in_range(vertical) {
                        return None;
                    }
                    let padded: u32 = vertical as i32 as u32;
                    if empty {
                        padded
                    } else {
                        match self.max_cross.checked_add(padded) {
                            None => {
                                return None;
                            },
                            Some(height) => height,
                        }
                    }
                } else {
                    let upper: i64 = content_height + padding.top as i64;
                    if !wide_in_range(upper) || !wide_in_range(upper + padding.bottom as i64) {
                        return None;
                    }
                    (upper + padding.bottom as i64) as i32 as u32
                }
            },
        };
        let width: u32 = if fills {
            sizes.container_width
        } else {
            let used: u32 = if row {
                main_length as u32
            } else {
                self.max_cross
            };
            if sizes.clamp_width(used) as u64 + sizes.padding_x as u64 > u32::MAX as u64 {
                return None;
            }
            sizes.compute_actual_container_width(used)
        };
        Some(
            FlexSize {
                width,
                height: hold_between(height, sizes.min_height, sizes.max_height),
                content_height: content_height as u32,
            },
        )
    }
}

/// An offset of a box out of the flow that depends on its own height: half of the space that it
/// leaves, or all of it.
#[derive(Debug, Clone, Copy, PartialEq, Eq, Structural)]
pub enum SizeDependentStaticOffset {
    CenterY(u32),
    EndY(u32),
}

/// Where a box out of the flow would have stood in it, from its containing node.
#[derive(Debug, Clone, Copy, PartialEq, Eq, Structural)]
pub struct StaticPositionOffset {
    pub offset: Position,
    pub size_dependent_offset: Option<SizeDependentStaticOffset>,
}

/// Where a child out of the flow would have stood in a flex container; nothing where a coordinate
/// leaves the `i32` range.
pub open spec fn static_place(
    direction: StyleFlexDirection,
    justify: StyleJustifyContent,
    origin: Position,
    containing_cursor: Position,
    height: u32,
    padding: Edges,
) -> Option<StaticPositionOffset> {
    let x = origin.x - containing_cursor.x;
    let y = origin.y - containing_cursor.y;
    let vertical = padding.top + padding.bottom;
    let available = less(height, max2(vertical, 0) as u32);
    if in_i32(x) && in_i32(y) && in_i32(vertical) {
        Some(
            StaticPositionOffset {
                offset: Position { x: x as i32, y: y as i32 },
                size_dependent_offset: match (direction, justify) {
                    (StyleFlexDirection::Column, StyleJustifyContent::Center) => Some(
                        SizeDependentStaticOffset::CenterY(available),
                    ),
                    (StyleFlexDirection::Column, StyleJustifyContent::FlexEnd) => Some(
                        SizeDependentStaticOffset::EndY(available),
                    ),
                    _ => None,
                },
            },
        )
    } else {
        None
    }
}

/// Where a child out of the flow would have stood in a flex container, for a child whose position
/// is absolute. Nothing where a coordinate leaves the `i32` range.
pub fn static_position_offset(
    direction: StyleFlexDirection,
    justify: StyleJustifyContent,
    origin: Position,
    containing_cursor: Position,
    height: u32,
    padding: &Edges,
) -> (r: Option<StaticPositionOffset>)
    ensures
        r == static_place(direction, justify, origin, containing_cursor, height, *padding),
{
    let x: i64 = origin.x as i64 - containing_cursor.x as i64;
    let y: i64 = origin.y as i64 - containing_cursor.y as i64;
    let vertical: i64 = padding.top as i64 + padding.bottom as i64;
    if !wide_in_range(x) || !wide_in_range(y) || !wide_in_range(vertical) {
        return None;
    }
    let available: u32 = height.saturating_sub((vertical as i32).max(0) as u32);
    let size_dependent_offset = match direction {
        StyleFlexDirection::Column => match justify {
            StyleJustifyContent::Center => Some(SizeDependentStaticOffset::CenterY(available)),
            StyleJustifyContent::FlexEnd => Some(SizeDependentStaticOffset::EndY(available)),
            _ => None,
        },
        StyleFlexDirection::Row => None,
    };
    Some(
        StaticPositionOffset {
            offset: Position { x: x as i32, y: y as i32 },
            size_dependent_offset,
        },
    )
}

} // verus!
