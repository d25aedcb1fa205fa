//! Boxes out of the flow: where they are laid out once their containing node has its size, and
//! how far they are moved then.
use vstd::prelude::*;

use crate::boxes::children_first;
use crate::boxes::in_i32;
use crate::boxes::is_box;
use crate::boxes::same_but_places;
use crate::boxes::shifted;
use crate::boxes::BoxModel;
use crate::boxes::LayoutTable;
use crate::flex::SizeDependentStaticOffset;
use crate::flex::StaticPositionOffset;
use crate::paint::StylePosition;
use crate::raster::max2;
use crate::raster::min2;
use crate::sizing::less;
use crate::sizing::OptionalSize;
use crate::sizing::Position;
use crate::sizing::Size;

verus! {

/// A node that waits for its containing node.
#[derive(Debug, Clone, Copy)]
pub struct ResumableNode {
    pub node_idx: usize,
    pub static_position_offset: Option<StaticPositionOffset>,
}

/// A node that boxes out of the flow are placed in, and the nodes that wait for it.
#[derive(Debug)]
pub struct ContainingNode {
    pub node_idx: usize,
    pub cursor: Position,
    pub waiters: Vec<ResumableNode>,
}

/// What a [`ContainingNode`] holds.
#[verifier::ext_equal]
pub struct ContainingModel {
    pub node_idx: usize,
    pub cursor: Position,
    pub waiters: Seq<ResumableNode>,
}

impl View for ContainingNode {
    type V = ContainingModel;

    open spec fn view(&self) -> ContainingModel {
        ContainingModel {
            node_idx: self.node_idx,
            cursor: self.cursor,
            waiters: self.waiters@,
        }
    }
}

/// The containing node that a child out of the flow waits for: the root for a fixed child.
pub fn containing_node_for(
    position: StylePosition,
    containing_node_idx: usize,
    root_idx: usize,
) -> (r: usize)
    ensures
        r == (if position is Fixed {
            root_idx
        } else {
            containing_node_idx
        }),
{
    if position == StylePosition::Fixed {
        root_idx
    } else {
        containing_node_idx
    }
}

impl ContainingNode {
    /// A containing node that nothing waits for.
    pub fn new(node_idx: usize, cursor: Position) -> (r: ContainingNode)
        ensures
            r.node_idx == node_idx,
            r.cursor == cursor,
            r.waiters@.len() == 0,
    {
        ContainingNode { node_idx, cursor, waiters: Vec::new() }
    }

    /// Lets a child wait for this node.
    pub fn queue(&mut self, node_idx: usize, static_position_offset: Option<StaticPositionOffset>)
        ensures
            final(self).waiters@ == old(self).waiters@.push(
                ResumableNode { node_idx, static_position_offset },
            ),
            final(self).node_idx == old(self).node_idx,
            final(self).cursor == old(self).cursor,
    {
        self.waiters.push(ResumableNode { node_idx, static_position_offset });
    }
}

/// What the placing of a waiting node reads of its style, with lengths resolved to pixels.
#[derive(Debug, Clone, Copy)]
pub struct WaiterStyle {
    pub position: StylePosition,
    pub width_auto: bool,
    pub height_auto: bool,
    pub top: Option<i32>,
    pub right: Option<i32>,
    pub bottom: Option<i32>,
    pub left: Option<i32>,
    pub margin_left: Option<i32>,
    pub margin_right: Option<i32>,
    pub margin_left_auto: bool,
    pub margin_right_auto: bool,
    pub margin_top: i32,
    pub margin_bottom: i32,
}

/// The size that a waiting node is placed in: the window for a fixed one, else the containing
/// node's.
pub open spec fn frame_size(position: StylePosition, container: Size, window: Size) -> Size {
    if position is Fixed {
        window
    } else {
        container
    }
}

pub fn positioning_size(position: StylePosition, container: &Size, window: &Size) -> (r: Size)
    ensures
        r == frame_size(position, *container, *window),
{
    if position == StylePosition::Fixed {
        *window
    } else {
        *container
    }
}

/// Where a waiting node is laid out and what is forced on it.
#[derive(Debug, Clone, Copy, PartialEq, Eq, Structural)]
pub struct WaiterPlacement {
    pub cursor: Position,
    pub forced_size: OptionalSize,
}

impl WaiterStyle {
    pub open spec fn auto_left(self) -> bool {
        self.left is None && self.right is None
    }

    pub open spec fn auto_top(self) -> bool {
        self.top is None && self.bottom is None
    }

    /// The offset to the place that an absolute node would have had in the flow.
    pub open spec fn static_offset(self, waiter: ResumableNode) -> Option<StaticPositionOffset> {
        if self.position is Absolute {
            waiter.static_position_offset
        } else {
            None
        }
    }

    /// Whether the node's width, or height, follows from two opposite offsets.
    pub open spec fn spans_width(self) -> bool {
        self.position.leaves_flow() && self.width_auto && self.left is Some && self.right is Some
    }

    pub open spec fn spans_height(self) -> bool {
        self.position.leaves_flow() && self.height_auto && self.top is Some && self.bottom is Some
    }
}

/// Where a waiting node is laid out, in mathematical integers.
pub open spec fn waiter_x(style: WaiterStyle, waiter: ResumableNode, cursor: Position) -> int {
    if style.position is Fixed {
        0
    } else {
        match style.static_offset(waiter) {
            Some(found) if style.auto_left() => cursor.x + found.offset.x,
            _ => cursor.x as int,
        }
    }
}

pub open spec fn waiter_y(style: WaiterStyle, waiter: ResumableNode, cursor: Position) -> int {
    if style.position is Fixed {
        0
    } else {
        match style.static_offset(waiter) {
            Some(found) if style.auto_top() => cursor.y + found.offset.y,
            _ => cursor.y as int,
        }
    }
}

/// Whether `length - a - b`, from the left, stays in the `i32` range.
pub open spec fn span_in_range(length: u32, a: i32, b: i32) -> bool {
    in_i32((length as i32) - a) && in_i32((length as i32) - a - b)
}

/// Whether a waiting node can be placed with every coordinate in the `i32` range.
pub open spec fn placement_in_range(
    style: WaiterStyle,
    waiter: ResumableNode,
    cursor: Position,
    frame: Size,
) -> bool {
    &&& in_i32(waiter_x(style, waiter, cursor))
    &&& in_i32(waiter_y(style, waiter, cursor))
    &&& style.spans_width() ==> span_in_range(frame.width, style.left->0, style.right->0)
    &&& style.spans_height() ==> span_in_range(frame.height, style.top->0, style.bottom->0)
}

/// Where a waiting node is laid out and what is forced on it: a size that two opposite offsets
/// leave between them.
pub open spec fn waiter_placement(
    style: WaiterStyle,
    waiter: ResumableNode,
    cursor: Position,
    frame: Size,
) -> WaiterPlacement {
    WaiterPlacement {
        cursor: Position {
            x: waiter_x(style, waiter, cursor) as i32,
            y: waiter_y(style, waiter, cursor) as i32,
        },
        forced_size: OptionalSize {
            width: if style.spans_width() {
                Some(((frame.width as i32) - style.left->0 - style.right->0) as i32 as u32)
            } else {
                None
            },
            height: if style.spans_height() {
                Some(((frame.height as i32) - style.top->0 - style.bottom->0) as i32 as u32)
            } else {
                None
            },
        },
    }
}

fn wide_in_range(value: i64) -> (r: bool)
    ensures
        r == in_i32(value as int),
{
    i32::MIN as i64 <= value && value <= i32::MAX as i64
}

fn span_between(length: u32, a: i32, b: i32) -> (r: Option<u32>)
    ensures
        match r {
            None => !span_in_range(length, a, b),
            Some(span) => span_in_range(length, a, b) && span == ((length as i32) - a
                - b) as i32 as u32,
        },
{
    let once: i64 = (length as i32) as i64 - a as i64;
    let twice: i64 = once - b as i64;
    if !wide_in_range(once) || !wide_in_range(twice) {
        None
    } else {
        Some(twice as i32 as u32)
    }
}

/// Where a waiting node is laid out and what is forced on it. Nothing where a coordinate leaves
/// the `i32` range.
pub fn place_waiter(
    style: &WaiterStyle,
    waiter: &ResumableNode,
    cursor: Position,
    frame: &Size,
) -> (r: Option<WaiterPlacement>)
    ensures
        match r {
            None => !placement_in_range(*style, *waiter, cursor, *frame),
            Some(placement) => {
                &&& placement_in_range(*style, *waiter, cursor, *frame)
                &&& placement == waiter_placement(*style, *waiter, cursor, *frame)
            },
        },
{
    let mut x: i64 = cursor.x as i64;
    let mut y: i64 = cursor.y as i64;
    if style.position == StylePosition::Fixed {
        x = 0;
        y = 0;
    } else if style.position == StylePosition::Absolute {
        if let Some(found) = waiter.static_position_offset {
            if style.left.is_none() && style.right.is_none() {
                x = x + found.offset.x as i64;
            }
            if style.top.is_none() && style.bottom.is_none() {
                y = y + found.offset.y as i64;
            }
        }
    }
    if !wide_in_range(x) || !wide_in_range(y) {
        return None;
    }
    let mut forced_size = OptionalSize { width: None, height: None };
    if style.position.is_free() && style.width_auto {
        match (style.left, style.right) {
            (Some(left), Some(right)) => match span_between(frame.width, left, right) {
                None => {
                    return None;
                },
                Some(span) => {
                    forced_size = OptionalSize { width: Some(span), height: None };
                },
            },
            _ => {},
        }
    }
    if style.position.is_free() && style.height_auto {
        match (style.top, style.bottom) {
            (Some(top), Some(bottom)) => match span_between(frame.height, top, bottom) {
                None => {
                    return None;
                },
                Some(span) => {
                    forced_size = OptionalSize { width: forced_size.width, height: Some(span) };
                },
            },
            _ => {},
        }
    }
    Some(WaiterPlacement { cursor: Position { x: x as i32, y: y as i32 }, forced_size })
}

pub open spec fn given(length: Option<i32>) -> int {
    match length {
        Some(length) => length as int,
        None => 0,
    }
}

/// How far a laid out waiting node is moved across, if at all; the flag says whether every step of
/// the calculation stays in the `i32` range.
pub open spec fn move_across(style: WaiterStyle, frame: Size, width: u32) -> (Option<int>, bool) {
    if style.spans_width() {
        (Some(style.left->0 as int), true)
    } else if style.right is Some {
        let beside = (frame.width as i32) - (width as i32);
        let inside = beside - style.right->0;
        let move_by = inside - given(style.margin_right);
        (Some(move_by), in_i32(beside) && in_i32(inside) && in_i32(move_by))
    } else if style.left is Some {
        let move_by = style.left->0 - given(style.margin_left);
        (Some(move_by), in_i32(move_by))
    } else if style.margin_left_auto && style.margin_right_auto {
        (Some(((less(frame.width, width) / 2) as i32) as int), true)
    } else {
        (None, true)
    }
}

/// How far a waiting node is moved down to its place in the flow, where that depends on its
/// height.
pub open spec fn move_static(style: WaiterStyle, waiter: ResumableNode, height: u32) -> (
    Option<int>,
    bool,
) {
    match style.static_offset(waiter) {
        Some(found) if style.auto_top() && found.size_dependent_offset is Some => {
            let margins = style.margin_top + style.margin_bottom;
            let used = min2(height + max2(margins, 0), u32::MAX as int) as u32;
            let offset = match found.size_dependent_offset->0 {
                SizeDependentStaticOffset::CenterY(available) => less(available, used) / 2,
                SizeDependentStaticOffset::EndY(available) => less(available, used),
            };
            let move_by = (offset as i32) + max2(style.margin_top as int, 0);
            (Some(move_by), in_i32(margins) && in_i32(move_by))
        },
        _ => (None, true),
    }
}

/// How far a waiting node is moved down by its offsets.
pub open spec fn move_down(style: WaiterStyle, frame: Size, height: u32) -> (Option<int>, bool) {
    if style.top is Some {
        (Some(style.top->0 as int), true)
    } else if style.bottom is Some {
        let above = (frame.height as i32) - (height as i32);
        let move_by = above - style.bottom->0;
        (Some(move_by), in_i32(above) && in_i32(move_by))
    } else {
        (None, true)
    }
}

/// The moves of a laid out waiting node, in order: across, down to its place in the flow, down by
/// its offsets.
pub open spec fn waiter_moves(
    style: WaiterStyle,
    waiter: ResumableNode,
    frame: Size,
    width: u32,
    height: u32,
) -> Seq<(int, int)> {
    if !style.position.leaves_flow() {
        Seq::empty()
    } else {
        let across = match move_across(style, frame, width).0 {
            Some(dx) => seq![(dx, 0int)],
            None => Seq::empty(),
        };
        let inline = match move_static(style, waiter, height).0 {
            Some(dy) => seq![(0int, dy)],
            None => Seq::empty(),
        };
        let down = match move_down(style, frame, height).0 {
            Some(dy) => seq![(0int, dy)],
            None => Seq::empty(),
        };
        across + inline + down
    }
}

pub open spec fn moves_in_range(
    style: WaiterStyle,
    waiter: ResumableNode,
    frame: Size,
    width: u32,
    height: u32,
) -> bool {
    style.position.leaves_flow() ==> move_across(style, frame, width).1 && move_static(
        style,
        waiter,
        height,
    ).1 && move_down(style, frame, height).1
}

pub open spec fn widened_moves(moves: Seq<(i32, i32)>) -> Seq<(int, int)> {
    Seq::new(moves.len(), |i: int| (moves[i].0 as int, moves[i].1 as int))
}

fn across(style: &WaiterStyle, frame: &Size, width: u32) -> (r: Option<Option<i32>>)
    requires
        style.position.leaves_flow(),
    ensures
        match (r, move_across(*style, *frame, width)) {
            (None, found) => !found.1,
            (Some(None), found) => found.1 && found.0 is None,
            (Some(Some(dx)), found) => found.1 && found.0 == Some(dx as int),
        },
{
    if let (Some(left), Some(_)) = (style.left, style.right) {
        if style.width_auto {
            return Some(Some(left));
        }
    }
    match style.right {
        Some(right) => {
            let beside: i64 = (frame.width as i32) as i64 - (width as i32) as i64;
            let inside: i64 = beside - right as i64;
            let move_by: i64 = inside - (match style.margin_right {
                Some(margin) => margin as i64,
                None => 0,
            });
            if !wide_in_range(beside) || !wide_in_range(inside) || !wide_in_range(move_by) {
                return None;
            }
            Some(Some(move_by as i32))
        },
        None => match style.left {
            Some(left) => {
                let move_by: i64 = left as i64 - (match style.margin_left {
                    Some(margin) => margin as i64,
                    None => 0,
                });
                if !wide_in_range(move_by) {
                    return None;
                }
                Some(Some(move_by as i32))
            },
            None => if style.margin_left_auto && style.margin_right_auto {
                Some(Some((frame.width.saturating_sub(width) / 2) as i32))
            } else {
                Some(None)
            },
        },
    }
}

fn to_static_place(style: &WaiterStyle, waiter: &ResumableNode, height: u32) -> (r: Option<
    Option<i32>,
>)
    ensures
        match (r, move_static(*style, *waiter, height)) {
            (None, found) => !found.1,
            (Some(None), found) => found.1 && found.0 is None,
            (Some(Some(dy)), found) => found.1 && found.0 == Some(dy as int),
        },
{
    if style.position != StylePosition::Absolute || style.top.is_some() || style.bottom.is_some() {
        return Some(None);
    }
    match waiter.static_position_offset {
        None => Some(None),
        Some(found) => match found.size_dependent_offset {
            None => Some(None),
            Some(dependent) => {
                let margins: i64 = style.margin_top as i64 + style.margin_bottom as i64;
                if !wide_in_range(margins) {
                    return None;
                }
                let used: u32 = height.saturating_add((margins as i32).max(0) as u32);
                let offset: u32 = match dependent {
                    SizeDependentStaticOffset::CenterY(available) => available.saturating_sub(used)
                        / 2,
                    SizeDependentStaticOffset::EndY(available) => available.saturating_sub(used),
                };
                let move_by: i64 = (offset as i32) as i64 + style.margin_top.max(0) as i64;
                if !wide_in_range(move_by) {
                    return None;
                }
                Some(Some(move_by as i32))
            },
        },
    }
}

fn down(style: &WaiterStyle, frame: &Size, height: u32) -> (r: Option<Option<i32>>)
    ensures
        match (r, move_down(*style, *frame, height)) {
            (None, found) => !found.1,
            (Some(None), found) => found.1 && found.0 is None,
            (Some(Some(dy)), found) => found.1 && found.0 == Some(dy as int),
        },
{
    match style.top {
        Some(top) => Some(Some(top)),
        None => match style.bottom {
            Some(bottom) => {
                let above: i64 = (frame.height as i32) as i64 - (height as i32) as i64;
                let move_by: i64 = above - bottom as i64;
                if !wide_in_range(above) || !wide_in_range(move_by) {
                    return None;
                }
                Some(Some(move_by as i32))
            },
            None => Some(None),
        },
    }
}

/// The moves of a laid out waiting node, in order. Nothing where a calculation leaves the `i32`
/// range.
pub fn plan_waiter_moves(
    style: &WaiterStyle,
    waiter: &ResumableNode,
    frame: &Size,
    width: u32,
    height: u32,
) -> (r: Option<Vec<(i32, i32)>>)
    ensures
        match r {
            None => !moves_in_range(*style, *waiter, *frame, width, height),
            Some(moves) => {
                &&& moves_in_range(*style, *waiter, *frame, width, height)
                &&& widened_moves(moves@) == waiter_moves(*style, *waiter, *frame, width, height)
            },
        },
{
    let mut moves: Vec<(i32, i32)> = Vec::new();
    if !style.position.is_free() {
        assert(widened_moves(moves@) =~= Seq::empty());
        return Some(moves);
    }
    match across(style, frame, width) {
        None => {
            return None;
        },
        Some(Some(dx)) => {
            moves.push((dx, 0));
        },
        Some(None) => {},
    }
    match to_static_place(style, waiter, height) {
        None => {
            return None;
        },
        Some(Some(dy)) => {
            moves.push((0, dy));
        },
        Some(None) => {},
    }
    match down(style, frame, height) {
        None => {
            return None;
        },
        Some(Some(dy)) => {
            moves.push((0, dy));
        },
        Some(None) => {},
    }
    assert(widened_moves(moves@) =~= waiter_moves(*style, *waiter, *frame, width, height));
    Some(moves)
}

/// The boxes after box `id` has made a series of moves.
pub open spec fn moved_by(boxes: Seq<BoxModel>, id: int, moves: Seq<(int, int)>) -> Option<
    Seq<BoxModel>,
>
    decreases moves.len(),
{
    if moves.len() == 0 {
        Some(boxes)
    } else {
        match moved_by(boxes, id, moves.drop_last()) {
            None => None,
            Some(before) => shifted(before, id, moves.last().0, moves.last().1),
        }
    }
}

proof fn lemma_moves_prefix(boxes: Seq<BoxModel>, id: int, moves: Seq<(int, int)>, count: int)
    requires
        0 <= count <= moves.len(),
        moved_by(boxes, id, moves.take(count)) is None,
    ensures
        moved_by(boxes, id, moves) is None,
    decreases moves.len(),
{
    if count == moves.len() {
        assert(moves.take(count) =~= moves);
    } else {
        assert(moves.drop_last().take(count) =~= moves.take(count));
        lemma_moves_prefix(boxes, id, moves.drop_last(), count);
    }
}

/// Moves a laid out waiting node to its place. The result is `false` where a coordinate leaves
/// the `i32` range.
pub fn settle_waiter(
    table: &mut LayoutTable,
    id: usize,
    style: &WaiterStyle,
    waiter: &ResumableNode,
    frame: &Size,
) -> (ok: bool)
    requires
        children_first(old(table).models()),
        is_box(old(table).models(), id as int),
    ensures
        ({
            let rect = old(table).models()[id - 1].rect;
            let after = moved_by(
                old(table).models(),
                id as int,
                waiter_moves(*style, *waiter, *frame, rect.width, rect.height),
            );
            if moves_in_range(*style, *waiter, *frame, rect.width, rect.height) && after is Some {
                ok && final(table).models() == after->0
            } else {
                !ok
            }
        }),
        children_first(final(table).models()),
        same_but_places(old(table).models(), final(table).models()),
        final(table).node_layout == old(table).node_layout,
{
    let rect = table.boxes[id - 1].rect;
    let moves = match plan_waiter_moves(style, waiter, frame, rect.width, rect.height) {
        None => {
            return false;
        },
        Some(moves) => moves,
    };
    let ghost planned = waiter_moves(*style, *waiter, *frame, rect.width, rect.height);
    let ghost before = table.models();
    let mut at: usize = 0;
    while at < moves.len()
        invariant
            at <= moves@.len(),
            before == old(table).models(),
            rect == before[id - 1].rect,
            planned == waiter_moves(*style, *waiter, *frame, rect.width, rect.height),
            widened_moves(moves@) == planned,
            children_first(table.models()),
            same_but_places(before, table.models()),
            table.node_layout == old(table).node_layout,
            moved_by(before, id as int, planned.take(at as int)) == Some(table.models()),
        decreases moves@.len() - at,
    {
        let ghost taken = planned.take(at + 1);
        proof {
            assert(taken.drop_last() =~= planned.take(at as int));
            assert(taken.last() == (moves@[at as int].0 as int, moves@[at as int].1 as int));
            if moved_by(before, id as int, taken) is None {
                lemma_moves_prefix(before, id as int, planned, at + 1);
            }
        }
        let (dx, dy) = moves[at];
        if !table.move_entire_box(id, dx, dy) {
            return false;
        }
        at = at + 1;
    }
    assert(planned.take(planned.len() as int) =~= planned);
    true
}

/// A node between two opposite offsets ends up between them: laid out with the forced width and
/// moved by its left offset, it leaves exactly the right offset free at the other side.
pub proof fn lemma_opposite_offsets_span(
    style: WaiterStyle,
    waiter: ResumableNode,
    cursor: Position,
    frame: Size,
)
    requires
        style.spans_width(),
        style.left->0 >= 0,
        style.right->0 >= 0,
        frame.width <= i32::MAX,
        style.left->0 + style.right->0 <= frame.width,
    ensures
        waiter_placement(style, waiter, cursor, frame).forced_size.width is Some,
        style.left->0 + waiter_placement(style, waiter, cursor, frame).forced_size.width->0
            + style.right->0 == frame.width,
        forall|width: u32| #[trigger] move_across(style, frame, width).0 == Some(
            style.left->0 as int,
        ),
{
}

} // verus!
