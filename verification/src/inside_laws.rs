//! What laying out the inside of a node promises: where each child ends up, whatever is in it, and where
//! nodes out of the flow go.
use vstd::prelude::*;

use crate::boxes::in_i32;
use crate::boxes::is_box;
use crate::boxes::BoxModel;
use crate::boxes::LayoutKind;
use crate::boxes::StyleBackground;
use crate::calc::SizeTerm;
use crate::flex::cross_free;
use crate::flex::cross_offset;
use crate::flex::line_content_width;
use crate::flex::line_size;
use crate::flex::static_place;
use crate::flex::LineModel;
use crate::flex::StyleFlexDirection;
use crate::flex::StyleJustifyContent;
use crate::flex_sizes::FlexBase;
use crate::flow::FlowModel;
use crate::flow::PlacedChild;
use crate::grid::cell_forced_size;
use crate::grid::GridBaseItem;
use crate::grid::GridModel;
use crate::layout_boxes::drawn;
use crate::layout_boxes::drawn_border;
use crate::layout_boxes::kept_place;
use crate::layout_boxes::no_size;
use crate::layout_boxes::picture_box;
use crate::layout_boxes::radii;
use crate::layout_boxes::replaced_box;
use crate::layout_boxes::text_box;
use crate::layout_boxes::waiter_style;
use crate::layout_boxes::Call;
use crate::layout_model::block_child;
use crate::layout_model::block_child_placed;
use crate::layout_model::call_inside;
use crate::layout_model::cell_style;
use crate::layout_model::containing_inside;
use crate::layout_model::flex_basis;
use crate::layout_model::flex_item_placed;
use crate::layout_model::flex_place;
use crate::layout_model::grid_place;
use crate::layout_model::item_sizes;
use crate::layout_model::node_laid_out;
use crate::layout_model::waiter_laid_out;
use crate::layout_model::waiters_from;
use crate::layout_model::FlexSizes;
use crate::layout_model::Run;
use crate::layout_state::LayoutModel;
use crate::lengths::margins;
use crate::lengths::LayoutInput;
use crate::lengths::LayoutStyle;
use crate::lengths::Shape;
use crate::lengths::Stop;
use crate::needs::Answers;
use crate::needs::Drawn;
use crate::needs::FlexTarget;
use crate::needs::Need;
use crate::place_laws::lemma_blocks_stand_below_each_other;
use crate::place_laws::lemma_box_stands_where_asked;
use crate::place_laws::lemma_inline_children_stand_on_lines;
use crate::place_laws::lemma_line_break;
use crate::place_laws::lemma_shifted_box;
use crate::sizing::content_box;
use crate::sizing::entry;
use crate::sizing::ContainerSizes;
use crate::sizing::Edges;
use crate::sizing::Position;
use crate::sizing::Size;
use crate::sizing::SizesModel;
use crate::waiters::move_across;
use crate::waiters::move_down;
use crate::waiters::move_static;
use crate::waiters::moved_by;
use crate::waiters::waiter_moves;
use crate::waiters::ResumableNode;
use crate::waiters::WaiterStyle;

verus! {

/// A child of a block that stands on no line stands at the left edge and below what came before, behind
/// its own margins. The next child comes below it, and it is the last of the children so far.
pub proof fn lemma_block_child_takes_its_place(
    input: LayoutInput,
    answers: Answers,
    state: LayoutModel,
    flow: FlowModel,
    run: Run,
    items: Seq<usize>,
    at: int,
    fuel: nat,
    style: LayoutStyle,
    edges: Edges,
)
    requires
        input.style(items[at]) == Some(style),
        !style.display.on_line(),
        !(input.nodes@[items[at] as int].shape is Break),
        margins(style, run.call.available, input.window) == Ok::<Edges, Stop>(edges),
    ensures
        (block_child(input, answers, state, flow, run, items, at, fuel) matches Ok((after, next))
            && next.children.len() > flow.children.len()) ==> {
            let (after, next) = block_child(
                input,
                answers,
                state,
                flow,
                run,
                items,
                at,
                fuel,
            )->Ok_0;
            let id = next.children.last();
            let rect = after.boxes[id - 1].rect;
            &&& next.children == flow.children.push(id)
            &&& after.boxes[id - 1].node_idx == items[at]
            &&& rect.x == flow.x + edges.left
            &&& rect.y == flow.y + edges.top
            &&& next.x == flow.origin_x
            &&& rect.height <= i32::MAX ==> next.y == rect.y + rect.height + edges.bottom
        },
{
    let x = flow.x + edges.left;
    let y = flow.y + edges.top;
    if in_i32(x) && in_i32(y) {
        let cursor = Position { x: x as i32, y: y as i32 };
        let call = call_inside(run, items[at], cursor, run.inner, no_size());
        let placed = FlowModel { x, ..flow };
        lemma_box_stands_where_asked(input, answers, state, call, fuel);
        let outcome = node_laid_out(input, answers, state, call, fuel);
        lemma_block_child_unfolds(input, answers, state, flow, run, items, at, fuel, style, edges);
        if let Ok((after, Some(id))) = outcome {
            lemma_block_placed(after, placed, id, edges, run.inner.width);
        }
    } else {
        lemma_block_child_unfolds(input, answers, state, flow, run, items, at, fuel, style, edges);
    }
}

proof fn lemma_block_child_unfolds(
    input: LayoutInput,
    answers: Answers,
    state: LayoutModel,
    flow: FlowModel,
    run: Run,
    items: Seq<usize>,
    at: int,
    fuel: nat,
    style: LayoutStyle,
    edges: Edges,
)
    requires
        input.style(items[at]) == Some(style),
        !style.display.on_line(),
        !(input.nodes@[items[at] as int].shape is Break),
        margins(style, run.call.available, input.window) == Ok::<Edges, Stop>(edges),
    ensures
        ({
            let x = flow.x + edges.left;
            let y = flow.y + edges.top;
            let cursor = Position { x: x as i32, y: y as i32 };
            let call = call_inside(run, items[at], cursor, run.inner, no_size());
            let outcome = block_child(input, answers, state, flow, run, items, at, fuel);
            let placed = FlowModel { x, ..flow };
            &&& !in_i32(x) || !in_i32(y) ==> outcome is Err
            &&& in_i32(x) && in_i32(y) ==> outcome == (match node_laid_out(
                input,
                answers,
                state,
                call,
                fuel,
            ) {
                Err(stop) => Err(stop),
                Ok((after, None)) => Ok((after, placed)),
                Ok((after, Some(id))) => block_child_placed(
                    after,
                    placed,
                    id,
                    edges,
                    false,
                    run.inner.width,
                ),
            })
        }),
{
}

proof fn lemma_block_placed(
    state: LayoutModel,
    flow: FlowModel,
    id: usize,
    edges: Edges,
    inner_width: u32,
)
    ensures
        block_child_placed(state, flow, id, edges, false, inner_width) matches Ok((after, next)) ==> {
            let rect = state.boxes[id - 1].rect;
            &&& after == state
            &&& next.children == flow.children.push(id)
            &&& next.x == flow.origin_x
            &&& rect.height <= i32::MAX ==> next.y == flow.y + edges.top + rect.height + edges.bottom
        },
{
    let rect = state.boxes[id - 1].rect;
    let child = PlacedChild {
        id,
        width: rect.width,
        height: rect.height,
        margins: edges,
        inline_run: false,
    };
    if child.height <= i32::MAX {
        lemma_blocks_stand_below_each_other(flow, child, inner_width);
    }
}

/// A line break changes no box, and goes down at least a line of text.
pub proof fn lemma_breaks_change_no_box(
    input: LayoutInput,
    answers: Answers,
    state: LayoutModel,
    flow: FlowModel,
    run: Run,
    items: Seq<usize>,
    at: int,
    fuel: nat,
    style: LayoutStyle,
)
    requires
        input.style(items[at]) == Some(style),
        !(style.display is Absent),
        input.nodes@[items[at] as int].shape is Break,
        run.font_size <= i32::MAX,
        0 <= flow.row_height <= i32::MAX,
    ensures
        block_child(input, answers, state, flow, run, items, at, fuel) matches Ok((after, next)) ==> {
            &&& after == state
            &&& next.children == flow.children
            &&& next.x == flow.origin_x
            &&& next.y >= flow.y + run.font_size
        },
{
    lemma_line_break(flow, run.font_size);
}

/// An inline child that does not fit on its line is moved to the start of the next one, below the highest
/// box of the line; one that fits stays where it was put.
pub proof fn lemma_inline_child_wraps(
    state: LayoutModel,
    flow: FlowModel,
    id: usize,
    edges: Edges,
    inner_width: u32,
)
    requires
        is_box(state.boxes, id as int),
        state.boxes[id - 1].rect.width <= i32::MAX,
        inner_width <= i32::MAX,
        0 <= flow.row_height <= i32::MAX,
    ensures
        block_child_placed(state, flow, id, edges, true, inner_width) matches Ok((after, next)) ==> {
            let before = state.boxes[id - 1].rect;
            let rect = after.boxes[id - 1].rect;
            let outer = before.width + edges.right;
            let fits = flow.line_width <= 0 || flow.line_width + outer <= inner_width;
            &&& next.children == flow.children.push(id)
            &&& fits ==> rect == before && next.x == flow.x + outer
            &&& !fits ==> {
                &&& rect.x - before.x == flow.origin_x - flow.x
                &&& rect.y == before.y + flow.row_height
                &&& rect.width == before.width && rect.height == before.height
                &&& next.x == flow.origin_x + outer
                &&& next.y == flow.y + flow.row_height
            }
        },
{
    let rect = state.boxes[id - 1].rect;
    let child = PlacedChild {
        id,
        width: rect.width,
        height: rect.height,
        margins: edges,
        inline_run: true,
    };
    lemma_inline_children_stand_on_lines(flow, child, inner_width);
    let (dx, dy) = flow.correction(child, inner_width);
    lemma_shifted_box(state.boxes, id as int, dx, dy);
}

/// An item of a row stands where the line has come to, behind its left margin, and so far from the upper
/// edge as its alignment says; an item of a column likewise from the left edge.
pub proof fn lemma_flex_item_takes_its_place(
    state: LayoutModel,
    line: LineModel,
    run: Run,
    style: LayoutStyle,
    child: LayoutStyle,
    sizes: ContainerSizes,
    definite: bool,
    id: usize,
    edges: Edges,
    last: bool,
)
    requires
        is_box(state.boxes, id as int),
        child.align_self is FlexStart,
    ensures
        flex_item_placed(state, line, run, style, child, sizes, definite, id, edges, last) matches Ok(
            (after, next),
        ) ==> {
            let before = state.boxes[id - 1].rect;
            let rect = after.boxes[id - 1].rect;
            &&& rect.x == before.x && rect.y == before.y
            &&& rect.width == before.width && rect.height == before.height
            &&& next.children == line.children.push(id)
            &&& line.direction is Row && before.width <= i32::MAX && last ==> next.x == line.x
                + before.width + edges.right
            &&& line.direction is Column && before.height <= i32::MAX && last ==> next.y == line.y
                + before.height + edges.bottom
        },
{
    lemma_shifted_box(state.boxes, id as int, 0, 0);
}

/// An item that is aligned at the end of the cross axis is moved by all that is free there, and only across.
pub proof fn lemma_flex_item_at_the_end(
    state: LayoutModel,
    line: LineModel,
    run: Run,
    style: LayoutStyle,
    child: LayoutStyle,
    sizes: ContainerSizes,
    id: usize,
    edges: Edges,
    last: bool,
)
    requires
        is_box(state.boxes, id as int),
        child.align_self is FlexEnd,
        line.direction is Row,
        style.flex_direction is Row,
        sizes.inner_height <= i32::MAX,
        edges.top == 0,
        edges.bottom == 0,
    ensures
        flex_item_placed(state, line, run, style, child, sizes, true, id, edges, last) matches Ok(
            (after, next),
        ) ==> {
            let before = state.boxes[id - 1].rect;
            let rect = after.boxes[id - 1].rect;
            &&& rect.x == before.x
            &&& before.height <= sizes.inner_height ==> rect.y - before.y + before.height
                == sizes.inner_height
            &&& before.height >= sizes.inner_height ==> rect.y == before.y
        },
{
    let rect = state.boxes[id - 1].rect;
    let outer = rect.height as int;
    let offset = cross_offset(
        StyleJustifyContent::FlexEnd,
        cross_free(style.flex_direction, outer as u32, true, run.call.allow_fill, sizes),
    );
    lemma_shifted_box(state.boxes, id as int, 0, (offset as i32) as int);
}

/// The box of a flex item is that of its node, and stands at the place of the line that its margins leave.
pub proof fn lemma_flex_item_is_laid_out(
    input: LayoutInput,
    answers: Answers,
    state: LayoutModel,
    line: LineModel,
    run: Run,
    style: LayoutStyle,
    sizes: ContainerSizes,
    definite: bool,
    bases: Seq<FlexBase>,
    planned: FlexSizes,
    at: int,
    fuel: nat,
    child: LayoutStyle,
    edges: Edges,
)
    requires
        input.style(bases[at].node_idx) == Some(child),
        margins(child, run.call.available, input.window) == Ok::<Edges, Stop>(edges),
        child.align_self is FlexStart,
    ensures
        (flex_place(
            input,
            answers,
            state,
            line,
            run,
            style,
            sizes,
            definite,
            bases,
            planned,
            at,
            fuel,
        ) matches Ok((after, next)) && next.children.len() > line.children.len()) ==> {
            let (after, next) = flex_place(
                input,
                answers,
                state,
                line,
                run,
                style,
                sizes,
                definite,
                bases,
                planned,
                at,
                fuel,
            )->Ok_0;
            let id = next.children.last();
            let rect = after.boxes[id - 1].rect;
            &&& next.children == line.children.push(id)
            &&& line.direction is Row ==> rect.x == line.x + edges.left && rect.y == line.origin_y
                + edges.top
            &&& line.direction is Column ==> rect.x == line.origin_x + edges.left && rect.y == line.y
                + edges.top
        },
{
    let (available, forced) = item_sizes(
        style,
        sizes,
        definite,
        bases[at],
        planned.targets[at],
        planned,
    );
    let cursor = Position { x: line.item_x(edges) as i32, y: line.item_y(edges) as i32 };
    let call = call_inside(run, bases[at].node_idx, cursor, available, forced);
    lemma_box_stands_where_asked(input, answers, state, call, fuel);
    let outcome = node_laid_out(input, answers, state, call, fuel);
    if let Ok((after, Some(id))) = outcome {
        lemma_flex_item_takes_its_place(
            after,
            line.at_item(edges),
            run,
            style,
            child,
            sizes,
            definite,
            id,
            edges,
            at == bases.len() - 1,
        );
    }
}

/// An item gets the size along the main axis that was planned for it: its width in a row, its height in a
/// column with a height.
pub proof fn lemma_planned_size_is_forced(
    style: LayoutStyle,
    sizes: ContainerSizes,
    definite: bool,
    base: FlexBase,
    target: FlexTarget,
    planned: FlexSizes,
)
    ensures
        ({
            let (available, forced) = item_sizes(style, sizes, definite, base, target, planned);
            &&& style.flex_direction is Row ==> forced.width == Some(target.size) && available.width
                == target.size && available.height == sizes.inner_height
            &&& style.flex_direction is Column ==> available.height == target.size && available.width
                == sizes.inner_width
            &&& style.flex_direction is Column && definite ==> forced.height == Some(target.size)
            &&& style.flex_direction is Column && !definite ==> forced.height is None
        }),
{
}

/// A definite basis is what an item starts from; without one, its width in a row and its height in a
/// column.
pub proof fn lemma_items_start_from(
    style: LayoutStyle,
    sizes: ContainerSizes,
    definite: bool,
    window: Size,
    basis: i32,
    width: i32,
    height: i32,
)
    requires
        basis >= 0,
        width >= 0,
        height >= 0,
        style.width == SizeTerm::Px(width),
        style.height == SizeTerm::Px(height),
    ensures
        style.flex_basis == SizeTerm::Px(basis) ==> flex_basis(
            style,
            StyleFlexDirection::Row,
            sizes,
            definite,
            window,
        ) == Ok::<Option<u32>, Stop>(Some(basis as u32)),
        style.flex_basis is Auto ==> flex_basis(
            style,
            StyleFlexDirection::Row,
            sizes,
            definite,
            window,
        ) == Ok::<Option<u32>, Stop>(Some(width as u32)),
        style.flex_basis is Auto ==> flex_basis(
            style,
            StyleFlexDirection::Column,
            sizes,
            definite,
            window,
        ) == Ok::<Option<u32>, Stop>(Some(height as u32)),
{
}

/// A flex container is as high as it is asked to be, and as wide as what is available where it fills that,
/// else as its items.
pub proof fn lemma_flex_container_has_its_size(
    line: LineModel,
    specified_height: Option<u32>,
    sizes: ContainerSizes,
    padding: Edges,
    fills: bool,
)
    requires
        sizes.min_height is None,
        sizes.max_height is None,
        sizes.min_width is None,
        sizes.max_width is None,
        line_content_width(line) + sizes.padding_x <= u32::MAX,
        line_content_width(line) >= 0,
    ensures
        fills ==> line_size(line, specified_height, sizes, padding, fills).width
            == sizes.container_width,
        !fills && sizes.container_width_non_filling is None ==> line_size(
            line,
            specified_height,
            sizes,
            padding,
            fills,
        ).width == line_content_width(line) + sizes.padding_x,
        !fills ==> (sizes.container_width_non_filling matches Some(width) ==> line_size(
            line,
            specified_height,
            sizes,
            padding,
            fills,
        ).width == width),
        specified_height matches Some(height) ==> line_size(
            line,
            specified_height,
            sizes,
            padding,
            fills,
        ).height == height,
{
}

/// The place that a node out of the flow would have had is as far from its containing node as the inside
/// of the container is.
pub proof fn lemma_static_place(
    direction: StyleFlexDirection,
    justify: StyleJustifyContent,
    origin: Position,
    containing: Position,
    height: u32,
    padding: Edges,
)
    ensures
        static_place(direction, justify, origin, containing, height, padding) matches Some(place) ==> {
            &&& containing.x + place.offset.x == origin.x
            &&& containing.y + place.offset.y == origin.y
            &&& direction is Row ==> place.size_dependent_offset is None
            &&& justify is FlexStart ==> place.size_dependent_offset is None
        },
{
}

/// The box of a grid item is that of its node, in the cell of the item.
pub proof fn lemma_grid_item_is_laid_out(
    input: LayoutInput,
    answers: Answers,
    state: LayoutModel,
    grid: GridModel,
    run: Run,
    style: LayoutStyle,
    item: GridBaseItem,
    fuel: nat,
    child: LayoutStyle,
)
    requires
        input.style(item.node_idx) == Some(child),
    ensures
        (grid_place(input, answers, state, grid, run, style, item, fuel) matches Ok((after, next))
            && next.children.len() > grid.children.len()) ==> {
            let (after, next) = grid_place(input, answers, state, grid, run, style, item, fuel)->Ok_0;
            let id = next.children.last();
            let rect = after.boxes[id - 1].rect;
            &&& next.children == grid.children.push(id)
            &&& after.boxes[id - 1].node_idx == item.node_idx
            &&& grid.placed(item, cell_style(style, child)) matches Some((cell, x, y)) && rect.x == x
                && rect.y == y
        },
{
    if let Some((cell, x, y)) = grid.placed(item, cell_style(style, child)) {
        let call = call_inside(
            run,
            item.node_idx,
            Position { x: x as i32, y: y as i32 },
            Size { width: item.target_width, height: item.target_height },
            cell_forced_size(item, cell_style(style, child)),
        );
        lemma_box_stands_where_asked(input, answers, state, call, fuel);
    }
}

/// The moves of a box add up, and leave its size as it is.
pub open spec fn sum_across(moves: Seq<(int, int)>) -> int
    decreases moves.len(),
{
    if moves.len() == 0 {
        0
    } else {
        sum_across(moves.drop_last()) + moves.last().0
    }
}

/// The distances down, added up.
pub open spec fn sum_down(moves: Seq<(int, int)>) -> int
    decreases moves.len(),
{
    if moves.len() == 0 {
        0
    } else {
        sum_down(moves.drop_last()) + moves.last().1
    }
}

/// A box that makes several moves ends up where all of them lead together.
pub proof fn lemma_moves_add_up(boxes: Seq<BoxModel>, id: int, moves: Seq<(int, int)>)
    requires
        is_box(boxes, id),
    ensures
        moved_by(boxes, id, moves) matches Some(after) ==> {
            &&& after.len() == boxes.len()
            &&& after[id - 1].rect.x == boxes[id - 1].rect.x + sum_across(moves)
            &&& after[id - 1].rect.y == boxes[id - 1].rect.y + sum_down(moves)
            &&& after[id - 1].rect.width == boxes[id - 1].rect.width
            &&& after[id - 1].rect.height == boxes[id - 1].rect.height
        },
    decreases moves.len(),
{
    if moves.len() > 0 {
        lemma_moves_add_up(boxes, id, moves.drop_last());
        if let Some(before) = moved_by(boxes, id, moves.drop_last()) {
            lemma_shifted_box(before, id, moves.last().0, moves.last().1);
        }
    }
}

/// A laid out node with offsets to the left and to the top stands that far from the corner it started from;
/// one with offsets to the right and the bottom leaves exactly those free in its frame.
pub proof fn lemma_waiting_node_is_settled(
    state: LayoutModel,
    id: usize,
    style: WaiterStyle,
    waiter: ResumableNode,
    frame: Size,
)
    requires
        is_box(state.boxes, id as int),
        style.position is Absolute || style.position is Fixed,
        !style.width_auto,
        !style.height_auto,
        style.margin_left == Some(0i32),
        style.margin_right == Some(0i32),
        frame.width <= i32::MAX,
        frame.height <= i32::MAX,
        state.boxes[id - 1].rect.width <= i32::MAX,
        state.boxes[id - 1].rect.height <= i32::MAX,
    ensures
        state.settled(id, style, waiter, frame) matches Ok(after) ==> {
            let before = state.boxes[id - 1].rect;
            let rect = after.boxes[id - 1].rect;
            &&& rect.width == before.width && rect.height == before.height
            &&& style.right is None ==> (style.left matches Some(left) ==> rect.x == before.x + left)
            &&& style.right matches Some(right) ==> rect.x - before.x + rect.width + right
                == frame.width
            &&& style.top matches Some(top) ==> rect.y == before.y + top
            &&& style.top is None ==> (style.bottom matches Some(bottom) ==> rect.y - before.y
                + rect.height + bottom == frame.height)
        },
{
    let rect = state.boxes[id - 1].rect;
    let moves = waiter_moves(style, waiter, frame, rect.width, rect.height);
    lemma_moves_add_up(state.boxes, id as int, moves);
    let across = move_across(style, frame, rect.width).0;
    let down = move_down(style, frame, rect.height).0;
    if style.top is Some || style.bottom is Some {
        assert(move_static(style, waiter, rect.height).0 is None);
        let dy = down->0;
        if let Some(dx) = across {
            assert(moves =~= seq![(dx, 0int), (0int, dy)]);
            assert(moves.drop_last() =~= seq![(dx, 0int)]);
            assert(seq![(dx, 0int)].drop_last() =~= Seq::<(int, int)>::empty());
            reveal_with_fuel(sum_across, 3);
            reveal_with_fuel(sum_down, 3);
            assert(sum_across(moves) == dx && sum_down(moves) == dy);
        } else {
            assert(moves =~= seq![(0int, dy)]);
            assert(moves.drop_last() =~= Seq::<(int, int)>::empty());
            reveal_with_fuel(sum_across, 2);
            reveal_with_fuel(sum_down, 2);
        }
    } else if let Some(dx) = across {
        if let Some(dy) = move_static(style, waiter, rect.height).0 {
            assert(moves =~= seq![(dx, 0int), (0int, dy)]);
            assert(moves.drop_last() =~= seq![(dx, 0int)]);
            assert(seq![(dx, 0int)].drop_last() =~= Seq::<(int, int)>::empty());
            reveal_with_fuel(sum_across, 3);
        } else {
            assert(moves =~= seq![(dx, 0int)]);
            assert(moves.drop_last() =~= Seq::<(int, int)>::empty());
            reveal_with_fuel(sum_across, 2);
        }
    }
}

/// The offsets of a node out of the flow are those that are written for it, each for its own side.
pub proof fn lemma_offsets_are_read(
    style: LayoutStyle,
    frame: Size,
    window: Size,
    top: i32,
    right: i32,
    bottom: i32,
    left: i32,
)
    requires
        style.inset.top == SizeTerm::Px(top),
        style.inset.right == SizeTerm::Px(right),
        style.inset.bottom == SizeTerm::Px(bottom),
        style.inset.left == SizeTerm::Px(left),
    ensures
        waiter_style(style, frame, window) matches Ok(read) ==> {
            &&& read.top == Some(top) && read.right == Some(right) && read.bottom == Some(bottom)
                && read.left == Some(left)
            &&& read.position == style.position
            &&& read.width_auto == style.width is Auto && read.height_auto == style.height is Auto
            &&& read.margin_left_auto == style.margin.left is Auto && read.margin_right_auto
                == style.margin.right is Auto
        },
{
}

/// A node that is not static contains what is out of the flow inside of it; a static one leaves it to the
/// node that contains itself.
pub proof fn lemma_containing_nodes(call: Call, style: LayoutStyle)
    ensures
        style.position is Static ==> containing_inside(call, style) == call.containing,
        style.position is Relative || style.position is Absolute || style.position is Fixed
            ==> containing_inside(call, style) == call.node_idx,
{
}

/// Nodes out of the flow come behind the other children of their containing node.
pub proof fn lemma_waiting_nodes_come_last(
    input: LayoutInput,
    answers: Answers,
    state: LayoutModel,
    containing: usize,
    cursor: Position,
    waiters: Seq<ResumableNode>,
    size: Size,
    children: Seq<usize>,
    at: int,
    fuel: nat,
)
    ensures
        waiters_from(
            input,
            answers,
            state,
            containing,
            cursor,
            waiters,
            size,
            children,
            at,
            fuel,
        ) matches Ok((after, all)) ==> {
            &&& children.is_prefix_of(all)
            &&& all.len() <= children.len() + waiters.len() - at || at < 0 || at >= waiters.len()
        },
    decreases waiters.len() - at,
{
    if 0 <= at < waiters.len() {
        let one = waiter_laid_out(
            input,
            answers,
            state,
            containing,
            cursor,
            waiters[at],
            size,
            fuel,
        );
        if let Ok((after, id)) = one {
            let next = match id {
                Some(id) => children.push(id),
                None => children,
            };
            lemma_waiting_nodes_come_last(
                input,
                answers,
                after,
                containing,
                cursor,
                waiters,
                size,
                next,
                at + 1,
                fuel,
            );
            if let Ok((end, all)) = waiters_from(
                input,
                answers,
                after,
                containing,
                cursor,
                waiters,
                size,
                next,
                at + 1,
                fuel,
            ) {
                assert(next.is_prefix_of(all));
                assert forall|i: int| 0 <= i < children.len() implies children[i] == all[i] by {
                    assert(next[i] == children[i]);
                }
            }
        }
    }
}

/// Each side of a border is drawn with its own length and its own colour.
pub proof fn lemma_border_is_drawn_side_by_side(
    style: LayoutStyle,
    available: Size,
    window: Size,
    lengths: (i32, i32, i32, i32),
    colors: (u32, u32, u32, u32),
)
    requires
        lengths.0 >= 0 && lengths.1 >= 0 && lengths.2 >= 0 && lengths.3 >= 0,
        style.border.left.style is Solid && style.border.right.style is Solid,
        style.border.top.style is Solid && style.border.bottom.style is Solid,
        style.border.left.size == SizeTerm::Px(lengths.0),
        style.border.right.size == SizeTerm::Px(lengths.1),
        style.border.top.size == SizeTerm::Px(lengths.2),
        style.border.bottom.size == SizeTerm::Px(lengths.3),
        style.border.left.color == StyleBackground::Hex(colors.0),
        style.border.right.color == StyleBackground::Hex(colors.1),
        style.border.top.color == StyleBackground::Hex(colors.2),
        style.border.bottom.color == StyleBackground::Hex(colors.3),
    ensures
        drawn_border(style, available, window) matches Ok(border) && {
            &&& border.left matches Some(side) && side.size == lengths.0 && side.color == colors.0
            &&& border.right matches Some(side) && side.size == lengths.1 && side.color == colors.1
            &&& border.top matches Some(side) && side.size == lengths.2 && side.color == colors.2
            &&& border.bottom matches Some(side) && side.size == lengths.3 && side.color == colors.3
        },
{
}

/// Each corner has its own radius.
pub proof fn lemma_corners_have_their_radii(
    style: LayoutStyle,
    available: Size,
    window: Size,
    top_left: i32,
    top_right: i32,
    bottom_right: i32,
    bottom_left: i32,
)
    requires
        top_left >= 0 && top_right >= 0 && bottom_right >= 0 && bottom_left >= 0,
        style.border_radius.top_left == SizeTerm::Px(top_left),
        style.border_radius.top_right == SizeTerm::Px(top_right),
        style.border_radius.bottom_right == SizeTerm::Px(bottom_right),
        style.border_radius.bottom_left == SizeTerm::Px(bottom_left),
    ensures
        radii(style, available, window) matches Ok(corners) && corners.top_left == top_left
            && corners.top_right == top_right && corners.bottom_right == bottom_right
            && corners.bottom_left == bottom_left,
{
}

/// A text has the size of its picture, and stands where it was asked to.
pub proof fn lemma_text_has_its_size(
    answers: Answers,
    state: LayoutModel,
    call: Call,
    style: LayoutStyle,
    text: Drawn,
)
    requires
        drawn(
            answers,
            Need::Text { node_idx: call.node_idx, line_width: Some(call.available.width) },
        ) == Ok::<Option<Drawn>, Stop>(Some(text)),
    ensures
        text_box(answers, state, call, style) matches Ok((after, Some(id))) ==> {
            let own = after.boxes[id - 1];
            &&& own.rect.width == text.width && own.rect.height == text.height
            &&& own.kind == (LayoutKind::Text { image: text.image })
            &&& own.children.len() == 0
        },
        style.color is Hex && state.boxes.len() + 2 < usize::MAX ==> (text_box(
            answers,
            state,
            call,
            style,
        ) matches Ok((after, Some(id)))),
{
}

/// A frame has the size of what it shows, a drawing area that of its box, and a picture its own; what is
/// not displayed has no box.
pub proof fn lemma_pictures_have_their_sizes(
    input: LayoutInput,
    answers: Answers,
    state: LayoutModel,
    call: Call,
    style: LayoutStyle,
    sizes: ContainerSizes,
    max_height: u32,
    max_width: u32,
)
    ensures
        style.display is Absent ==> replaced_box(input, answers, state, call, style) == Ok::<
            (LayoutModel, Option<usize>),
            Stop,
        >((state, None)),
        (input.nodes@[call.node_idx as int].shape matches Shape::Frame(Some(size))) ==> (replaced_box(
            input,
            answers,
            state,
            call,
            style,
        ) matches Ok((after, Some(id))) ==> after.boxes[id - 1].rect.width == (
        input.nodes@[call.node_idx as int].shape->Frame_0)->0.width && after.boxes[id
            - 1].rect.height == (input.nodes@[call.node_idx as int].shape->Frame_0)->0.height),
        input.nodes@[call.node_idx as int].shape is Canvas ==> (picture_box(
            input,
            answers,
            state,
            call,
            style,
            sizes,
            max_height,
            max_width,
        ) matches Ok((after, Some(id))) ==> after.boxes[id - 1].rect.width == sizes.container_width
            && after.boxes[id - 1].rect.height == sizes.container_height),
        kept_place(sizes, max_width, max_height).0 <= max_height,
        kept_place(sizes, max_width, max_height).1 <= max_width,
        sizes.min_width is None && sizes.placeholder().1 <= max_width ==> kept_place(
            sizes,
            max_width,
            max_height,
        ).1 == sizes.placeholder().1,
        sizes.min_height is None && sizes.placeholder().0 <= max_height ==> kept_place(
            sizes,
            max_width,
            max_height,
        ).0 == sizes.placeholder().0,
{
}

/// A picture is asked for in the size that its style says, held to its limits, and gets the size of what
/// came back.
pub proof fn lemma_picture_has_the_size_of_its_answer(
    input: LayoutInput,
    answers: Answers,
    state: LayoutModel,
    call: Call,
    style: LayoutStyle,
    sizes: ContainerSizes,
    max_height: u32,
    max_width: u32,
    picture: Drawn,
)
    requires
        input.nodes@[call.node_idx as int].shape is Image,
        drawn(
            answers,
            Need::Picture {
                node_idx: call.node_idx,
                wanted_width: sizes.container_width_non_filling,
                wanted_height: sizes.container_height_non_filling,
                max_width,
                max_height,
                complete: call.complete,
            },
        ) == Ok::<Option<Drawn>, Stop>(Some(picture)),
    ensures
        picture_box(input, answers, state, call, style, sizes, max_height, max_width) matches Ok(
            (after, Some(id)),
        ) ==> {
            let own = after.boxes[id - 1];
            &&& own.rect.width == picture.width && own.rect.height == picture.height
            &&& own.kind == (LayoutKind::PixMap { image: picture.image, opaque: picture.opaque })
        },
{
}

/// What is noted of the size of a node is found again, and nothing that is noted of another node changes.
pub proof fn lemma_sizes_are_noted(
    sizes: SizesModel,
    idx: int,
    other: int,
    height: Option<u32>,
    width: Option<u32>,
    container: ContainerSizes,
)
    requires
        0 <= idx < sizes.heights.len(),
        sizes.widths.len() == sizes.heights.len(),
        sizes.content.len() == sizes.heights.len(),
        other != idx,
    ensures
        entry(sizes.with_resolved(idx, height, width).heights, idx) == height,
        entry(sizes.with_resolved(idx, height, width).widths, idx) == width,
        entry(sizes.with_resolved(idx, height, width).heights, other) == entry(sizes.heights, other),
        entry(sizes.with_resolved(idx, height, width).widths, other) == entry(sizes.widths, other),
        entry(sizes.with_content(idx, content_box(container)).content, idx) matches Some(inside)
            && inside.width == Some(container.inner_width) && (container.has_specified_height
            ==> inside.height == Some(container.inner_height)) && (!container.has_specified_height
            ==> inside.height is None),
{
}

} // verus!
