//! What layout comes to: the boxes of a node and of everything below it.
//!
//! The size of a text or a picture comes from outside. A layout that needs one that it has not
//! been told stops there and says which.
use vstd::prelude::*;

use crate::boxes::in_i32;
use crate::flex::aligned;
use crate::flex::basis_available;
use crate::flex::basis_available_size;
use crate::flex::basis_source;
use crate::flex::cross_free;
use crate::flex::cross_offset;
use crate::flex::distributes;
use crate::flex::flex_basis_source;
use crate::flex::items_in_order;
use crate::flex::justified;
use crate::flex::justify_content;
use crate::flex::line_begun;
use crate::flex::line_size;
use crate::flex::line_size_in_range;
use crate::flex::main_free;
use crate::flex::nodes_where;
use crate::flex::static_place;
use crate::flex::static_position_offset;
use crate::flex::stretched;
use crate::flex::stretches;
use crate::flex::usable_basis;
use crate::flex::BasisSource;
use crate::flex::FlexPlaced;
use crate::flex::LineModel;
use crate::flex::StyleFlexDirection;
use crate::flex_sizes::any_stretch;
use crate::flex_sizes::clamp_u32;
use crate::flex_sizes::cross_from;
use crate::flex_sizes::cross_size;
use crate::flex_sizes::flex_plan;
use crate::flex_sizes::held;
use crate::flex_sizes::outer_from;
use crate::flex_sizes::targets_from;
use crate::flex_sizes::FlexBase;
use crate::flow::block_size;
use crate::flow::block_size_in_range;
use crate::flow::flow_begun;
use crate::flow::FlowModel;
use crate::flow::PlacedChild;
use crate::grid::cell_forced_size;
use crate::grid::grid_begun;
use crate::grid::grid_size;
use crate::grid::largest;
use crate::grid::CellStyle;
use crate::grid::GridBaseItem;
use crate::grid::GridModel;
use crate::grid::PlacerModel;
use crate::grid_axis::axis_begun;
use crate::grid_axis::cells_from;
use crate::grid_axis::some_without_size;
use crate::grid_axis::AxisModel;
use crate::layout_boxes::child_facts;
use crate::layout_boxes::element_box;
use crate::layout_boxes::input_text_box;
use crate::layout_boxes::no_size;
use crate::layout_boxes::replaced_box;
use crate::layout_boxes::text_box;
use crate::layout_boxes::waiter_style;
use crate::layout_boxes::BodyModel;
use crate::layout_boxes::Call;
use crate::layout_state::LayoutModel;
use crate::layout_state::LayoutState;
use crate::lengths::block_of;
use crate::lengths::container;
use crate::lengths::get_length;
use crate::lengths::is_auto;
use crate::lengths::length;
use crate::lengths::length_or_zero;
use crate::lengths::margins;
use crate::lengths::paddings;
use crate::lengths::specified;
use crate::lengths::InputValue;
use crate::lengths::LayoutInput;
use crate::lengths::LayoutStyle;
use crate::lengths::Shape;
use crate::lengths::Stop;
use crate::needs::Answers;
use crate::needs::FlexTarget;
use crate::paint::StylePosition;
use crate::raster::max2;
use crate::sizing::content_box;
use crate::sizing::entry;
use crate::sizing::ContainerSizes;
use crate::sizing::Edges;
use crate::sizing::OptionalSize;
use crate::sizing::Position;
use crate::sizing::Size;
use crate::stylesheet::StyleDisplay;
use crate::waiters::frame_size;
use crate::waiters::placement_in_range;
use crate::waiters::waiter_placement;
use crate::waiters::ResumableNode;

verus! {

/// How the inside of a block is laid out.
#[derive(Debug, Clone, Copy)]
pub struct Run {
    pub call: Call,
    /// The containing node of what is inside.
    pub containing: usize,
    pub inner: Size,
    /// Whether children may fill the space that they are given.
    pub fill: bool,
    pub font_size: u32,
}

/// A node of the inside at a place.
pub open spec fn call_inside(
    run: Run,
    node_idx: usize,
    cursor: Position,
    available: Size,
    forced: OptionalSize,
) -> Call {
    Call {
        node_idx,
        cursor,
        available,
        forced,
        containing: run.containing,
        allow_fill: run.fill,
        save: run.call.save,
        complete: run.call.complete,
    }
}

/// A node of the inside that is laid out only to learn its size.
pub open spec fn call_to_measure(
    run: Run,
    node_idx: usize,
    cursor: Position,
    forced: OptionalSize,
) -> Call {
    Call {
        node_idx,
        cursor,
        available: run.inner,
        forced,
        containing: run.containing,
        allow_fill: false,
        save: false,
        complete: false,
    }
}

/// A node that becomes a containing node where it is positioned.
pub open spec fn positioned(state: LayoutModel, call: Call, style: LayoutStyle) -> LayoutModel {
    if style.position is Static {
        state
    } else {
        state.opened(call.node_idx, call.cursor)
    }
}

pub open spec fn containing_inside(call: Call, style: LayoutStyle) -> usize {
    if style.position is Static {
        call.containing
    } else {
        call.node_idx
    }
}

pub fn open_if_positioned(state: &mut LayoutState, call: &Call, style: &LayoutStyle) -> (r: usize)
    requires
        old(state).wf(),
    ensures
        final(state).wf(),
        final(state)@ == positioned(old(state)@, *call, *style),
        final(state)@.boxes == old(state)@.boxes,
        r == containing_inside(*call, *style),
{
    if style.position == StylePosition::Static {
        call.containing
    } else {
        state.open_containing(call.node_idx, call.cursor);
        call.node_idx
    }
}

/// The state once it is known what size a node is asked to have and how large its inside is.
pub open spec fn sized(
    state: LayoutModel,
    node_idx: usize,
    wanted: (Option<u32>, Option<u32>),
    sizes: ContainerSizes,
) -> LayoutModel {
    LayoutModel {
        sizes: state.sizes.with_specified(node_idx as int, wanted.0, wanted.1).with_content(
            node_idx as int,
            content_box(sizes),
        ),
        ..state
    }
}

/// The state once the size of a node is known.
pub open spec fn resolved(state: LayoutModel, node_idx: usize, height: u32, width: u32) -> LayoutModel {
    LayoutModel {
        sizes: state.sizes.with_resolved(node_idx as int, Some(height), Some(width)),
        ..state
    }
}

/// The width that lines can use, and the height that they leave; nothing where one leaves the
/// `i32` range.
pub open spec fn free_room(
    width: u32,
    padding: Edges,
    inner_height: u32,
    content_height: u32,
) -> Option<(i32, u32)> {
    let once = (width as i32) - padding.left;
    let twice = once - padding.right;
    let down = (inner_height as i32) - (content_height as i32);
    if in_i32(once) && in_i32(twice) && in_i32(down) {
        Some((twice as i32, max2(down, 0) as u32))
    } else {
        None
    }
}

pub fn get_free_room(width: u32, padding: &Edges, inner_height: u32, content_height: u32) -> (r: Option<
    (i32, u32),
>)
    ensures
        r == free_room(width, *padding, inner_height, content_height),
{
    match (width as i32).checked_sub(padding.left) {
        None => None,
        Some(once) => match once.checked_sub(padding.right) {
            None => None,
            Some(twice) => match (inner_height as i32).checked_sub(content_height as i32) {
                None => None,
                Some(down) => Some((twice, down.max(0) as u32)),
            },
        },
    }
}

/// The node and everything below it is laid out. The result is the number of its box, where it
/// has one.
pub open spec fn node_laid_out(
    input: LayoutInput,
    answers: Answers,
    state: LayoutModel,
    call: Call,
    fuel: nat,
) -> Result<(LayoutModel, Option<usize>), Stop>
    decreases fuel, 0int, 0nat,
{
    if fuel == 0 {
        Err(Stop::Depth)
    } else {
        match input.style(call.node_idx) {
            None => Err(Stop::NoStyle),
            Some(style) => {
                let started = if call.complete {
                    LayoutModel {
                        sizes: state.sizes.with_resolved(call.node_idx as int, None, None),
                        ..state
                    }
                } else {
                    state
                };
                match input.nodes@[call.node_idx as int].shape {
                    Shape::Comment => Ok((started, None)),
                    Shape::Text => text_box(answers, started, call, style),
                    Shape::Break | Shape::Element(_) => {
                        let inside = (fuel - 1) as nat;
                        match style.display {
                            StyleDisplay::Absent => Ok((started, None)),
                            StyleDisplay::Block | StyleDisplay::InlineBlock
                            | StyleDisplay::Inline => finished(
                                input,
                                answers,
                                call,
                                style,
                                block_laid_out(input, answers, started, call, style, inside),
                            ),
                            StyleDisplay::Flex | StyleDisplay::InlineFlex => finished(
                                input,
                                answers,
                                call,
                                style,
                                flex_laid_out(input, answers, started, call, style, inside),
                            ),
                            StyleDisplay::Grid => finished(
                                input,
                                answers,
                                call,
                                style,
                                grid_laid_out(input, answers, started, call, style, inside),
                            ),
                        }
                    },
                    _ => replaced_box(input, answers, started, call, style),
                }
            },
        }
    }
}

/// An element whose inside has been laid out gets its box.
pub open spec fn finished(
    input: LayoutInput,
    answers: Answers,
    call: Call,
    style: LayoutStyle,
    inside: Result<(LayoutModel, BodyModel), Stop>,
) -> Result<(LayoutModel, Option<usize>), Stop> {
    match inside {
        Err(stop) => Err(stop),
        Ok((state, body)) => element_box(input, answers, state, call, style, body),
    }
}

/// Nodes from a place on wait for their containing nodes.
pub open spec fn queued_from(
    input: LayoutInput,
    state: LayoutModel,
    containing: usize,
    waiting: Seq<ResumableNode>,
    at: int,
) -> Result<LayoutModel, Stop>
    decreases waiting.len() - at,
{
    if at < 0 || at >= waiting.len() {
        Ok(state)
    } else {
        match input.style(waiting[at].node_idx) {
            None => Err(Stop::NoStyle),
            Some(style) => {
                let target = if style.position is Fixed {
                    input.root
                } else {
                    containing
                };
                match state.queued(target, waiting[at]) {
                    Err(stop) => Err(stop),
                    Ok(after) => queued_from(input, after, containing, waiting, at + 1),
                }
            },
        }
    }
}

/// What is out of the flow is left to wait, and, where the node is their containing node, all that
/// wait for it are laid out behind its other children.
pub open spec fn closed(
    input: LayoutInput,
    answers: Answers,
    state: LayoutModel,
    run: Run,
    waiting: Seq<ResumableNode>,
    size: Size,
    children: Seq<usize>,
    fuel: nat,
) -> Result<(LayoutModel, Seq<usize>), Stop>
    decreases fuel, 6int, 0nat,
{
    let node_idx = run.call.node_idx;
    if !run.call.complete {
        Ok((state, children))
    } else {
        match queued_from(input, state, run.containing, waiting, 0) {
            Err(stop) => Err(stop),
            Ok(after) => if run.containing != node_idx {
                Ok((after, children))
            } else {
                match entry(after.containing, node_idx as int) {
                    None => Err(Stop::NoContainingNode),
                    Some(node) => match waiters_from(
                        input,
                        answers,
                        after,
                        node_idx,
                        node.cursor,
                        node.waiters,
                        size,
                        children,
                        0,
                        fuel,
                    ) {
                        Err(stop) => Err(stop),
                        Ok((end, all)) => Ok((end.opened(node_idx, node.cursor), all)),
                    },
                }
            },
        }
    }
}

/// The nodes from a place on that wait for a containing node are laid out in it.
pub open spec fn waiters_from(
    input: LayoutInput,
    answers: Answers,
    state: LayoutModel,
    containing: usize,
    cursor: Position,
    waiters: Seq<ResumableNode>,
    size: Size,
    children: Seq<usize>,
    at: int,
    fuel: nat,
) -> Result<(LayoutModel, Seq<usize>), Stop>
    decreases fuel, 5int, waiters.len() - at,
{
    if at < 0 || at >= waiters.len() {
        Ok((state, children))
    } else {
        match waiter_laid_out(
            input,
            answers,
            state,
            containing,
            cursor,
            waiters[at],
            size,
            fuel,
        ) {
            Err(stop) => Err(stop),
            Ok((after, id)) => waiters_from(
                input,
                answers,
                after,
                containing,
                cursor,
                waiters,
                size,
                match id {
                    Some(id) => children.push(id),
                    None => children,
                },
                at + 1,
                fuel,
            ),
        }
    }
}

/// A node that waited for a containing node is laid out and moved to its place.
pub open spec fn waiter_laid_out(
    input: LayoutInput,
    answers: Answers,
    state: LayoutModel,
    containing: usize,
    cursor: Position,
    waiter: ResumableNode,
    size: Size,
    fuel: nat,
) -> Result<(LayoutModel, Option<usize>), Stop>
    decreases fuel, 4int, 0nat,
{
    match input.style(waiter.node_idx) {
        None => Err(Stop::NoStyle),
        Some(style) => {
            let frame = frame_size(style.position, size, input.window);
            match waiter_style(style, frame, input.window) {
                Err(stop) => Err(stop),
                Ok(lengths) => if !placement_in_range(lengths, waiter, cursor, frame) {
                    Err(Stop::Range)
                } else {
                    let placement = waiter_placement(lengths, waiter, cursor, frame);
                    let call = Call {
                        node_idx: waiter.node_idx,
                        cursor: placement.cursor,
                        available: frame,
                        forced: placement.forced_size,
                        containing,
                        allow_fill: true,
                        save: true,
                        complete: true,
                    };
                    match node_laid_out(input, answers, state, call, fuel) {
                        Err(stop) => Err(stop),
                        Ok((after, None)) => Ok((after, None)),
                        Ok((after, Some(id))) => match after.settled(id, lengths, waiter, frame) {
                            Err(stop) => Err(stop),
                            Ok(end) => Ok((end, Some(id))),
                        },
                    }
                },
            }
        },
    }
}

/// Whether the box at a place stands on a line, or there is none.
pub open spec fn inline_at(input: LayoutInput, items: Seq<usize>, at: int) -> bool {
    if at < 0 || at >= items.len() {
        true
    } else {
        match input.style(items[at]) {
            Some(style) => style.display.on_line(),
            None => true,
        }
    }
}

/// The inside of a block after the children from a place on.
pub open spec fn block_children(
    input: LayoutInput,
    answers: Answers,
    state: LayoutModel,
    flow: FlowModel,
    run: Run,
    items: Seq<usize>,
    at: int,
    fuel: nat,
) -> Result<(LayoutModel, FlowModel), Stop>
    decreases fuel, 5int, items.len() - at,
{
    if at < 0 || at >= items.len() {
        Ok((state, flow))
    } else {
        match block_child(input, answers, state, flow, run, items, at, fuel) {
            Err(stop) => Err(stop),
            Ok((after, next)) => block_children(
                input,
                answers,
                after,
                next,
                run,
                items,
                at + 1,
                fuel,
            ),
        }
    }
}

/// A child that was laid out takes its place in the block.
pub open spec fn block_child_placed(
    state: LayoutModel,
    flow: FlowModel,
    id: usize,
    edges: Edges,
    inline_run: bool,
    inner_width: u32,
) -> Result<(LayoutModel, FlowModel), Stop> {
    let rect = state.boxes[id - 1].rect;
    let child = PlacedChild {
        id,
        width: rect.width,
        height: rect.height,
        margins: edges,
        inline_run,
    };
    if !flow.child_in_range(child, inner_width) {
        Err(Stop::Range)
    } else {
        let (dx, dy) = flow.correction(child, inner_width);
        let next = flow.after_child(child, inner_width);
        if dx == 0 && dy == 0 {
            Ok((state, next))
        } else {
            match state.moved(id, dx, dy) {
                Err(stop) => Err(stop),
                Ok(moved) => Ok((moved, next)),
            }
        }
    }
}

/// The inside of a block after one child.
pub open spec fn block_child(
    input: LayoutInput,
    answers: Answers,
    state: LayoutModel,
    flow: FlowModel,
    run: Run,
    items: Seq<usize>,
    at: int,
    fuel: nat,
) -> Result<(LayoutModel, FlowModel), Stop>
    decreases fuel, 4int, 0nat,
{
    match input.style(items[at]) {
        None => Err(Stop::NoStyle),
        Some(style) => if input.nodes@[items[at] as int].shape is Break && !(style.display
            is Absent) {
            let next = flow.after_break(run.font_size);
            if in_i32(next.y) && in_i32(next.y - flow.origin_y) {
                Ok((state, next))
            } else {
                Err(Stop::Range)
            }
        } else {
            match margins(style, run.call.available, input.window) {
                Err(stop) => Err(stop),
                Ok(edges) => {
                    let x = flow.x + edges.left;
                    let y = flow.y + edges.top;
                    if !in_i32(x) || !in_i32(y) {
                        Err(Stop::Range)
                    } else {
                        let cursor = Position { x: x as i32, y: y as i32 };
                        let call = call_inside(run, items[at], cursor, run.inner, no_size());
                        let placed = FlowModel { x, ..flow };
                        match node_laid_out(input, answers, state, call, fuel) {
                            Err(stop) => Err(stop),
                            Ok((after, None)) => Ok((after, placed)),
                            Ok((after, Some(id))) => block_child_placed(
                                after,
                                placed,
                                id,
                                edges,
                                style.display.on_line() && inline_at(input, items, at - 1)
                                    && inline_at(input, items, at + 1),
                                run.inner.width,
                            ),
                        }
                    }
                },
            }
        },
    }
}

/// The text of a form control, where it has one and no other child.
pub open spec fn block_text(
    input: LayoutInput,
    answers: Answers,
    state: LayoutModel,
    flow: FlowModel,
    call: Call,
    style: LayoutStyle,
    childless: bool,
) -> Result<(LayoutModel, FlowModel), Stop> {
    match input.nodes@[call.node_idx as int].shape {
        Shape::Element(InputValue::Blank) if childless => Err(Stop::InputText),
        Shape::Element(InputValue::Given) if childless => match input_text_box(
            answers,
            state,
            call,
            style,
            Position { x: flow.x as i32, y: flow.y as i32 },
        ) {
            Err(stop) => Err(stop),
            Ok((_, None)) => Err(Stop::InputText),
            Ok((after, Some(id))) => Ok(
                (
                    after,
                    FlowModel {
                        max_child_width: after.boxes[id - 1].rect.width as int,
                        children: flow.children.push(id),
                        ..flow
                    },
                ),
            ),
        },
        _ => Ok((state, flow)),
    }
}

/// Children out of the flow, which wait without a place of their own.
pub open spec fn waiting(free: Seq<usize>) -> Seq<ResumableNode> {
    Seq::new(free.len(), |i: int| ResumableNode { node_idx: free[i], static_position_offset: None })
}

/// A block whose children are placed gets its size, gives its free space to automatic margins and
/// takes in what is out of the flow.
pub open spec fn block_finished(
    input: LayoutInput,
    answers: Answers,
    state: LayoutModel,
    flow: FlowModel,
    run: Run,
    style: LayoutStyle,
    sizes: ContainerSizes,
    padding: Edges,
    specified_height: Option<u32>,
    free: Seq<usize>,
    fuel: nat,
) -> Result<(LayoutModel, BodyModel), Stop>
    decreases fuel, 7int, 0nat,
{
    let fills = run.call.allow_fill && !(style.display is InlineBlock) && !(style.display is Inline)
        && !(style.width is Content);
    if !block_size_in_range(flow, specified_height, sizes, padding, fills) {
        Err(Stop::Range)
    } else {
        let size = block_size(flow, specified_height, sizes, padding, fills);
        let known = resolved(state, run.call.node_idx, size.height, size.width);
        match free_room(size.width, padding, sizes.inner_height, size.content_height) {
            None => Err(Stop::Range),
            Some((room, free_y)) => match known.divided(flow.lines, room, free_y) {
                Err(stop) => Err(stop),
                Ok(divided) => match closed(
                    input,
                    answers,
                    divided,
                    run,
                    waiting(free),
                    Size { width: size.width, height: size.height },
                    flow.children,
                    fuel,
                ) {
                    Err(stop) => Err(stop),
                    Ok((end, children)) => Ok(
                        (
                            end,
                            BodyModel {
                                width: size.width,
                                height: size.height,
                                content_height: size.content_height,
                                children,
                            },
                        ),
                    ),
                },
            },
        }
    }
}

/// The inside of a block.
pub open spec fn block_laid_out(
    input: LayoutInput,
    answers: Answers,
    state: LayoutModel,
    call: Call,
    style: LayoutStyle,
    fuel: nat,
) -> Result<(LayoutModel, BodyModel), Stop>
    decreases fuel, 9int, 0nat,
{
    let node_idx = call.node_idx;
    let block = block_of(input, state.sizes, node_idx, style, call.containing);
    match (
        paddings(style, block.1, input.window),
        specified(input, style, call.forced, block),
    ) {
        (Err(stop), _) => Err(stop),
        (_, Err(stop)) => Err(stop),
        (Ok(padding), Ok(wanted)) => match flow_begun(call.cursor, padding) {
            None => Err(Stop::Range),
            Some(flow) => {
                let noted = state.sizes.with_specified(node_idx as int, wanted.0, wanted.1);
                let block = block_of(input, noted, node_idx, style, call.containing);
                match container(input, style, call.forced, call.available, block) {
                    Err(stop) => Err(stop),
                    Ok(sizes) => {
                        let known = sized(state, node_idx, wanted, sizes);
                        if !call.complete && settled_size(wanted) {
                            Ok((known, fixed_body(wanted)))
                        } else {
                            block_inside(
                                input,
                                answers,
                                positioned(known, call, style),
                                flow,
                                call,
                                style,
                                sizes,
                                padding,
                                wanted.0,
                                fuel,
                            )
                        }
                    },
                }
            },
        },
    }
}

/// Whether a height and width are asked for that leave room for something.
pub open spec fn settled_size(wanted: (Option<u32>, Option<u32>)) -> bool {
    wanted.0 matches Some(height) && wanted.1 matches Some(width) && height > 0 && width > 0
}

/// The inside of a node whose size is asked for, before its children are looked at.
pub open spec fn fixed_body(wanted: (Option<u32>, Option<u32>)) -> BodyModel {
    BodyModel {
        width: wanted.1->0,
        height: wanted.0->0,
        content_height: wanted.0->0,
        children: Seq::empty(),
    }
}

/// The children of a block, and what comes behind them.
pub open spec fn block_inside(
    input: LayoutInput,
    answers: Answers,
    state: LayoutModel,
    flow: FlowModel,
    call: Call,
    style: LayoutStyle,
    sizes: ContainerSizes,
    padding: Edges,
    specified_height: Option<u32>,
    fuel: nat,
) -> Result<(LayoutModel, BodyModel), Stop>
    decreases fuel, 8int, 0nat,
{
    let run = Run {
        call,
        containing: containing_inside(call, style),
        inner: Size { width: sizes.inner_width, height: sizes.inner_height },
        fill: call.allow_fill && !(style.display is InlineBlock) && !(style.display is Inline),
        font_size: style.font_size,
    };
    let facts = child_facts(input, input.nodes@[call.node_idx as int].children@);
    let items = nodes_where(facts, false);
    match block_children(input, answers, state, flow, run, items, 0, fuel) {
        Err(stop) => Err(stop),
        Ok((placed, end)) => match block_text(
            input,
            answers,
            placed,
            end,
            call,
            style,
            items.len() == 0,
        ) {
            Err(stop) => Err(stop),
            Ok((written, all)) => block_finished(
                input,
                answers,
                written,
                all,
                run,
                style,
                sizes,
                padding,
                specified_height,
                nodes_where(facts, true),
                fuel,
            ),
        },
    }
}

/// What a flex item starts from along the main axis, where that is definite.
pub open spec fn flex_basis(
    style: LayoutStyle,
    direction: StyleFlexDirection,
    sizes: ContainerSizes,
    definite: bool,
    window: Size,
) -> Result<Option<u32>, Stop> {
    let available = basis_available(direction, sizes, definite);
    let resolved = match basis_source(
        direction,
        style.flex_basis is Auto,
        style.width is Auto,
        style.height is Auto,
    ) {
        BasisSource::Indefinite => Ok(None),
        BasisSource::FlexBasis => length(style.flex_basis, style.font_size, available, window),
        BasisSource::Width => length(style.width, style.font_size, available, window),
        BasisSource::Height => length(style.height, style.font_size, available, window),
    };
    match resolved {
        Err(stop) => Err(stop),
        Ok(Some(basis)) if basis >= 0 => Ok(Some(basis as u32)),
        Ok(_) => Ok(None),
    }
}

/// What a flex item starts from along the main axis, where that is definite: a negative basis
/// counts for nothing.
pub fn resolve_flex_basis(
    style: &LayoutStyle,
    direction: StyleFlexDirection,
    sizes: &ContainerSizes,
    definite: bool,
    window: &Size,
) -> (r: Result<Option<u32>, Stop>)
    ensures
        r == flex_basis(*style, direction, *sizes, definite, *window),
{
    let available = basis_available_size(direction, sizes, definite);
    let source = flex_basis_source(
        direction,
        is_auto(&style.flex_basis),
        is_auto(&style.width),
        is_auto(&style.height),
    );
    let resolved = match source {
        BasisSource::Indefinite => Ok(None),
        BasisSource::FlexBasis => get_length(
            &style.flex_basis,
            style.font_size,
            available,
            window,
        ),
        BasisSource::Width => get_length(&style.width, style.font_size, available, window),
        BasisSource::Height => get_length(&style.height, style.font_size, available, window),
    };
    match resolved {
        Err(stop) => Err(stop),
        Ok(basis) => Ok(usable_basis(basis)),
    }
}

/// The largest size that a style allows, where it allows only some.
pub open spec fn upper_limit(
    size: crate::calc::SizeTerm,
    font_size: u32,
    available: u32,
    window: Size,
) -> Result<i32, Stop> {
    match length(size, font_size, Some(available), window) {
        Err(stop) => Err(stop),
        Ok(Some(limit)) => Ok(limit),
        Ok(None) => Ok(i32::MAX),
    }
}

fn get_upper_limit(
    size: &crate::calc::SizeTerm,
    font_size: u32,
    available: u32,
    window: &Size,
) -> (r: Result<i32, Stop>)
    ensures
        r == upper_limit(*size, font_size, available, *window),
{
    match get_length(size, font_size, Some(available), window) {
        Err(stop) => Err(stop),
        Ok(Some(limit)) => Ok(limit),
        Ok(None) => Ok(i32::MAX),
    }
}

/// The margins of an item along the main axis.
pub open spec fn main_margin(direction: StyleFlexDirection, edges: Edges) -> int {
    match direction {
        StyleFlexDirection::Row => edges.left + edges.right,
        StyleFlexDirection::Column => edges.top + edges.bottom,
    }
}

/// A flex item that was laid out to learn its size.
pub open spec fn measured_item(
    style: LayoutStyle,
    child: LayoutStyle,
    node_idx: usize,
    allow_fill: bool,
    sizes: ContainerSizes,
    window: Size,
    margin: i32,
    width: u32,
    height: u32,
) -> Result<FlexBase, Stop> {
    match (
        upper_limit(child.max_width, style.font_size, sizes.inner_width, window),
        upper_limit(child.max_height, style.font_size, sizes.inner_height, window),
    ) {
        (Err(stop), _) => Err(stop),
        (_, Err(stop)) => Err(stop),
        (Ok(max_width), Ok(max_height)) => {
            let row = style.flex_direction is Row;
            let main = if row {
                (width, max_width)
            } else {
                (height, max_height)
            };
            let cross = if row {
                (height, max_height)
            } else {
                (width, max_width)
            };
            Ok(
                FlexBase {
                    node_idx,
                    base: held(main.0, main.1) as i64,
                    max: crate::calc::to_single(main.1 as int) as i64,
                    margin,
                    cross: held(cross.0, cross.1) as i64,
                    max_cross: crate::calc::to_single(cross.1 as int) as i64,
                    stretch: stretched(
                        style.flex_direction,
                        style.align_items,
                        child.align_self,
                        child.width is Auto,
                        child.height is Auto,
                        allow_fill,
                    ),
                    shrink: child.flex_shrink,
                    grow: child.flex_grow,
                },
            )
        },
    }
}

pub fn measure_item(
    style: &LayoutStyle,
    child: &LayoutStyle,
    node_idx: usize,
    allow_fill: bool,
    sizes: &ContainerSizes,
    window: &Size,
    margin: i32,
    width: u32,
    height: u32,
) -> (r: Result<FlexBase, Stop>)
    ensures
        r == measured_item(
            *style,
            *child,
            node_idx,
            allow_fill,
            *sizes,
            *window,
            margin,
            width,
            height,
        ),
        r matches Ok(item) ==> item.wf(),
{
    let max_width: i32 = match get_upper_limit(
        &child.max_width,
        style.font_size,
        sizes.inner_width,
        window,
    ) {
        Err(stop) => {
            return Err(stop);
        },
        Ok(limit) => limit,
    };
    let max_height: i32 = match get_upper_limit(
        &child.max_height,
        style.font_size,
        sizes.inner_height,
        window,
    ) {
        Err(stop) => {
            return Err(stop);
        },
        Ok(limit) => limit,
    };
    let stretch = stretches(
        style.flex_direction,
        style.align_items,
        child.align_self,
        is_auto(&child.width),
        is_auto(&child.height),
        allow_fill,
    );
    Ok(
        match style.flex_direction {
            StyleFlexDirection::Row => FlexBase::new(
                node_idx,
                width,
                max_width,
                margin,
                height,
                max_height,
                stretch,
                child.flex_shrink,
                child.flex_grow,
            ),
            StyleFlexDirection::Column => FlexBase::new(
                node_idx,
                height,
                max_height,
                margin,
                width,
                max_width,
                stretch,
                child.flex_shrink,
                child.flex_grow,
            ),
        },
    )
}

/// What is forced on an item that is laid out to learn its size.
pub open spec fn basis_forced(direction: StyleFlexDirection, basis: Option<u32>) -> OptionalSize {
    match direction {
        StyleFlexDirection::Row => OptionalSize { width: basis, height: None },
        StyleFlexDirection::Column => OptionalSize { width: None, height: basis },
    }
}

/// The items of a flex container after those from a place on have been laid out to learn their
/// sizes.
pub open spec fn flex_bases(
    input: LayoutInput,
    answers: Answers,
    state: LayoutModel,
    bases: Seq<FlexBase>,
    run: Run,
    style: LayoutStyle,
    sizes: ContainerSizes,
    definite: bool,
    items: Seq<usize>,
    at: int,
    fuel: nat,
) -> Result<(LayoutModel, Seq<FlexBase>), Stop>
    decreases fuel, 5int, items.len() - at,
{
    if at < 0 || at >= items.len() {
        Ok((state, bases))
    } else {
        match flex_base(
            input,
            answers,
            state,
            bases,
            run,
            style,
            sizes,
            definite,
            items[at],
            fuel,
        ) {
            Err(stop) => Err(stop),
            Ok((after, next)) => flex_bases(
                input,
                answers,
                after,
                next,
                run,
                style,
                sizes,
                definite,
                items,
                at + 1,
                fuel,
            ),
        }
    }
}

/// The items of a flex container after one has been laid out to learn its size.
pub open spec fn flex_base(
    input: LayoutInput,
    answers: Answers,
    state: LayoutModel,
    bases: Seq<FlexBase>,
    run: Run,
    style: LayoutStyle,
    sizes: ContainerSizes,
    definite: bool,
    item: usize,
    fuel: nat,
) -> Result<(LayoutModel, Seq<FlexBase>), Stop>
    decreases fuel, 4int, 0nat,
{
    match input.style(item) {
        None => Err(Stop::NoStyle),
        Some(child) => match (
            margins(child, run.inner, input.window),
            flex_basis(child, style.flex_direction, sizes, definite, input.window),
        ) {
            (Err(stop), _) => Err(stop),
            (_, Err(stop)) => Err(stop),
            (Ok(edges), Ok(basis)) => {
                let margin = main_margin(style.flex_direction, edges);
                let forced = basis_forced(style.flex_direction, basis);
                let call = call_to_measure(run, item, Position { x: 0, y: 0 }, forced);
                if !in_i32(margin) {
                    Err(Stop::Range)
                } else {
                    match node_laid_out(input, answers, state, call, fuel) {
                        Err(stop) => Err(stop),
                        Ok((after, None)) => Ok((after, bases)),
                        Ok((after, Some(id))) => match measured_item(
                            style,
                            child,
                            item,
                            run.call.allow_fill,
                            sizes,
                            input.window,
                            margin as i32,
                            after.boxes[id - 1].rect.width,
                            after.boxes[id - 1].rect.height,
                        ) {
                            Err(stop) => Err(stop),
                            Ok(base) => Ok((after, bases.push(base))),
                        },
                    }
                }
            },
        },
    }
}

/// The sizes that the items of a flex container get, and how its main axis is used.
pub struct FlexSizes {
    pub targets: Seq<FlexTarget>,
    /// The space before the first item.
    pub start: u32,
    /// The space between two items.
    pub gap: u32,
    /// Whether some item is stretched across the main axis.
    pub definite_cross: bool,
    /// The largest size of an item across the main axis.
    pub row_cross: int,
}

/// The space along the main axis.
pub open spec fn main_available(
    direction: StyleFlexDirection,
    sizes: ContainerSizes,
    definite: bool,
    total: int,
) -> u32 {
    match direction {
        StyleFlexDirection::Row => sizes.inner_width,
        StyleFlexDirection::Column => if definite {
            sizes.inner_height
        } else {
            clamp_u32(total)
        },
    }
}

pub open spec fn outer_sizes(targets: Seq<FlexTarget>) -> Seq<u32> {
    Seq::new(targets.len(), |i: int| targets[i].outer)
}

/// The sizes that the items of a flex container get.
pub open spec fn flex_sized(
    input: LayoutInput,
    answers: Answers,
    style: LayoutStyle,
    sizes: ContainerSizes,
    allow_fill: bool,
    definite: bool,
    bases: Seq<FlexBase>,
) -> Result<FlexSizes, Stop> {
    let direction = style.flex_direction;
    let distributes = distributes(
        direction,
        sizes,
        allow_fill,
        definite,
        style.display is InlineFlex,
    );
    match outer_from(bases, 0, 0) {
        None => Err(Stop::Range),
        Some(total) => {
            let available = main_available(direction, sizes, definite, total);
            match flex_plan(bases, total, available, distributes) {
                None => Err(Stop::Range),
                Some(plan) => match (
                    targets_from(answers, plan, bases, 0, Seq::empty()),
                    length_or_zero(style.gap, style.font_size, Some(available), input.window),
                ) {
                    (Err(stop), _) => Err(stop),
                    (_, Err(stop)) => Err(stop),
                    (Ok(targets), Ok(gap)) => match main_free(
                        direction,
                        outer_sizes(targets),
                        gap,
                        sizes,
                        distributes,
                    ) {
                        None => Err(Stop::Range),
                        Some(free) => {
                            let (start, between) = justified(
                                style.justify_content,
                                free,
                                bases.len(),
                            );
                            if bases.len() >= u32::MAX || between + (gap as u32) > u32::MAX {
                                Err(Stop::Range)
                            } else {
                                Ok(
                                    FlexSizes {
                                        targets,
                                        start: start as u32,
                                        gap: (between + (gap as u32)) as u32,
                                        definite_cross: any_stretch(bases),
                                        row_cross: cross_from(bases, 0, 0),
                                    },
                                )
                            }
                        },
                    },
                },
            }
        },
    }
}

/// What is available to an item, and what is forced on it.
pub open spec fn item_sizes(
    style: LayoutStyle,
    sizes: ContainerSizes,
    definite: bool,
    base: FlexBase,
    target: FlexTarget,
    planned: FlexSizes,
) -> (Size, OptionalSize) {
    let across = match style.flex_direction {
        StyleFlexDirection::Row => sizes.inner_height,
        StyleFlexDirection::Column => sizes.inner_width,
    };
    let cross = if planned.definite_cross {
        Some(cross_size(base, style.flex_direction, definite, across, planned.row_cross))
    } else {
        None
    };
    match style.flex_direction {
        StyleFlexDirection::Row => (
            Size { width: target.size, height: sizes.inner_height },
            OptionalSize { width: Some(target.size), height: cross },
        ),
        StyleFlexDirection::Column => (
            Size { width: sizes.inner_width, height: target.size },
            OptionalSize {
                width: cross,
                height: if definite {
                    Some(target.size)
                } else {
                    None
                },
            },
        ),
    }
}

/// An item that was laid out takes its place in the line.
pub open spec fn flex_item_placed(
    state: LayoutModel,
    line: LineModel,
    run: Run,
    style: LayoutStyle,
    child: LayoutStyle,
    sizes: ContainerSizes,
    definite: bool,
    id: usize,
    edges: Edges,
    last: bool,
) -> Result<(LayoutModel, LineModel), Stop> {
    let rect = state.boxes[id - 1].rect;
    let item = FlexPlaced {
        id,
        width: rect.width,
        height: rect.height,
        margins: edges,
        last,
    };
    let outer = line.outer_cross(item);
    let offset = cross_offset(
        aligned(child.align_self, style.align_items),
        cross_free(style.flex_direction, outer as u32, definite, run.call.allow_fill, sizes),
    );
    if outer > u32::MAX || !line.item_in_range(item, offset) {
        Err(Stop::Range)
    } else {
        let across = (offset as i32) as int;
        match state.moved(
            id,
            if line.direction is Row {
                0
            } else {
                across
            },
            if line.direction is Row {
                across
            } else {
                0
            },
        ) {
            Err(stop) => Err(stop),
            Ok(moved) => Ok((moved, line.after_item(item, offset))),
        }
    }
}

/// The line of a flex container after one item.
pub open spec fn flex_place(
    input: LayoutInput,
    answers: Answers,
    state: LayoutModel,
    line: LineModel,
    run: Run,
    style: LayoutStyle,
    sizes: ContainerSizes,
    definite: bool,
    bases: Seq<FlexBase>,
    planned: FlexSizes,
    at: int,
    fuel: nat,
) -> Result<(LayoutModel, LineModel), Stop>
    decreases fuel, 4int, 0nat,
{
    match input.style(bases[at].node_idx) {
        None => Err(Stop::NoStyle),
        Some(child) => match margins(child, run.call.available, input.window) {
            Err(stop) => Err(stop),
            Ok(edges) => if !in_i32(line.item_x(edges)) || !in_i32(line.item_y(edges)) {
                Err(Stop::Range)
            } else {
                let (available, forced) = item_sizes(
                    style,
                    sizes,
                    definite,
                    bases[at],
                    planned.targets[at],
                    planned,
                );
                let cursor = Position {
                    x: line.item_x(edges) as i32,
                    y: line.item_y(edges) as i32,
                };
                let call = call_inside(run, bases[at].node_idx, cursor, available, forced);
                match node_laid_out(input, answers, state, call, fuel) {
                    Err(stop) => Err(stop),
                    Ok((after, None)) => Ok((after, line.at_item(edges))),
                    Ok((after, Some(id))) => flex_item_placed(
                        after,
                        line.at_item(edges),
                        run,
                        style,
                        child,
                        sizes,
                        definite,
                        id,
                        edges,
                        at == bases.len() - 1,
                    ),
                }
            },
        },
    }
}

/// The line of a flex container after the items from a place on.
pub open spec fn flex_places(
    input: LayoutInput,
    answers: Answers,
    state: LayoutModel,
    line: LineModel,
    run: Run,
    style: LayoutStyle,
    sizes: ContainerSizes,
    definite: bool,
    bases: Seq<FlexBase>,
    planned: FlexSizes,
    at: int,
    fuel: nat,
) -> Result<(LayoutModel, LineModel), Stop>
    decreases fuel, 5int, bases.len() - at,
{
    if at < 0 || at >= bases.len() {
        Ok((state, line))
    } else {
        match flex_place(
            input,
            answers,
            state,
            line,
            run,
            style,
            sizes,
            definite,
            bases,
            planned,
            at,
            fuel,
        ) {
            Err(stop) => Err(stop),
            Ok((after, next)) => flex_places(
                input,
                answers,
                after,
                next,
                run,
                style,
                sizes,
                definite,
                bases,
                planned,
                at + 1,
                fuel,
            ),
        }
    }
}

/// The children of a flex container out of the flow from a place on, with the places that they
/// would have had in it.
pub open spec fn flex_waiting(
    input: LayoutInput,
    state: LayoutModel,
    run: Run,
    style: LayoutStyle,
    padding: Edges,
    height: u32,
    free: Seq<usize>,
    at: int,
    known: Seq<ResumableNode>,
) -> Result<Seq<ResumableNode>, Stop>
    decreases free.len() - at,
{
    if at < 0 || at >= free.len() {
        Ok(known)
    } else {
        match flex_waiter(input, state, run, style, padding, height, free[at]) {
            Err(stop) => Err(stop),
            Ok(waiter) => flex_waiting(
                input,
                state,
                run,
                style,
                padding,
                height,
                free,
                at + 1,
                known.push(waiter),
            ),
        }
    }
}

/// A child of a flex container out of the flow, with the place that it would have had in it.
pub open spec fn flex_waiter(
    input: LayoutInput,
    state: LayoutModel,
    run: Run,
    style: LayoutStyle,
    padding: Edges,
    height: u32,
    node_idx: usize,
) -> Result<ResumableNode, Stop> {
    match (input.style(node_idx), entry(state.containing, run.containing as int)) {
        (None, _) => Err(Stop::NoStyle),
        (Some(child), Some(node)) if child.position is Absolute => match static_place(
            style.flex_direction,
            style.justify_content,
            Position {
                x: (run.call.cursor.x + padding.left) as i32,
                y: (run.call.cursor.y + padding.top) as i32,
            },
            node.cursor,
            height,
            padding,
        ) {
            None => Err(Stop::Range),
            Some(place) => Ok(ResumableNode { node_idx, static_position_offset: Some(place) }),
        },
        _ => Ok(ResumableNode { node_idx, static_position_offset: None }),
    }
}

/// A flex container whose items are placed gets its size, gives its free space to automatic
/// margins and takes in what is out of the flow.
pub open spec fn flex_finished(
    input: LayoutInput,
    answers: Answers,
    state: LayoutModel,
    line: LineModel,
    run: Run,
    style: LayoutStyle,
    sizes: ContainerSizes,
    padding: Edges,
    specified_height: Option<u32>,
    free: Seq<usize>,
    fuel: nat,
) -> Result<(LayoutModel, BodyModel), Stop>
    decreases fuel, 7int, 0nat,
{
    let fills = run.call.allow_fill && !(style.display is InlineFlex);
    if !line_size_in_range(line, specified_height, sizes, padding, fills) {
        Err(Stop::Range)
    } else {
        let size = line_size(line, specified_height, sizes, padding, fills);
        match free_room(size.width, padding, sizes.inner_height, size.content_height) {
            None => Err(Stop::Range),
            Some((room, free_y)) => match state.divided(line.lines, room, free_y) {
                Err(stop) => Err(stop),
                Ok(divided) => {
                    let known = resolved(divided, run.call.node_idx, size.height, size.width);
                    match flex_waiting(
                        input,
                        known,
                        run,
                        style,
                        padding,
                        size.height,
                        free,
                        0,
                        Seq::empty(),
                    ) {
                        Err(stop) => Err(stop),
                        Ok(waiting) => match closed(
                            input,
                            answers,
                            known,
                            run,
                            waiting,
                            Size { width: size.width, height: size.height },
                            line.children,
                            fuel,
                        ) {
                            Err(stop) => Err(stop),
                            Ok((end, children)) => Ok(
                                (
                                    end,
                                    BodyModel {
                                        width: size.width,
                                        height: size.height,
                                        content_height: size.content_height,
                                        children,
                                    },
                                ),
                            ),
                        },
                    }
                },
            },
        }
    }
}

/// Whether all children of a node have a style.
pub open spec fn all_styled(input: LayoutInput, children: Seq<usize>) -> bool {
    forall|i: int| 0 <= i < children.len() ==> input.style(#[trigger] children[i]) is Some
}

/// The text of a form control in a flex container without items.
pub open spec fn flex_text(
    input: LayoutInput,
    answers: Answers,
    state: LayoutModel,
    call: Call,
    style: LayoutStyle,
    padding: Edges,
    childless: bool,
) -> Result<(LayoutModel, Seq<usize>), Stop> {
    match input.nodes@[call.node_idx as int].shape {
        Shape::Element(InputValue::Blank) if childless => Err(Stop::InputText),
        Shape::Element(InputValue::Given) if childless => match input_text_box(
            answers,
            state,
            call,
            style,
            Position {
                x: (call.cursor.x + padding.left) as i32,
                y: (call.cursor.y + padding.top) as i32,
            },
        ) {
            Err(stop) => Err(stop),
            Ok((after, None)) => Ok((after, Seq::empty())),
            Ok((after, Some(id))) => Ok((after, seq![id])),
        },
        _ => Ok((state, Seq::empty())),
    }
}

/// The items of a flex container, and what comes behind them.
pub open spec fn flex_inside(
    input: LayoutInput,
    answers: Answers,
    state: LayoutModel,
    call: Call,
    style: LayoutStyle,
    sizes: ContainerSizes,
    padding: Edges,
    specified_height: Option<u32>,
    fuel: nat,
) -> Result<(LayoutModel, BodyModel), Stop>
    decreases fuel, 8int, 0nat,
{
    let run = Run {
        call,
        containing: containing_inside(call, style),
        inner: Size { width: sizes.inner_width, height: sizes.inner_height },
        fill: call.allow_fill,
        font_size: style.font_size,
    };
    let definite = specified_height is Some;
    let nodes = input.nodes@[call.node_idx as int].children@;
    let facts = child_facts(input, nodes);
    let items = items_in_order(facts);
    if !all_styled(input, nodes) {
        Err(Stop::NoStyle)
    } else {
        match flex_text(input, answers, state, call, style, padding, items.len() == 0) {
            Err(stop) => Err(stop),
            Ok((written, texts)) => match flex_bases(
                input,
                answers,
                written,
                Seq::empty(),
                run,
                style,
                sizes,
                definite,
                items,
                0,
                fuel,
            ) {
                Err(stop) => Err(stop),
                Ok((measured, bases)) => match flex_sized(
                    input,
                    answers,
                    style,
                    sizes,
                    call.allow_fill,
                    definite,
                    bases,
                ) {
                    Err(stop) => Err(stop),
                    Ok(planned) => match line_begun(
                        style.flex_direction,
                        call.cursor,
                        padding,
                        planned.start,
                        planned.gap,
                    ) {
                        None => Err(Stop::Range),
                        Some(line) => match flex_places(
                            input,
                            answers,
                            measured,
                            LineModel { children: texts, ..line },
                            run,
                            style,
                            sizes,
                            definite,
                            bases,
                            planned,
                            0,
                            fuel,
                        ) {
                            Err(stop) => Err(stop),
                            Ok((placed, end)) => flex_finished(
                                input,
                                answers,
                                placed,
                                end,
                                run,
                                style,
                                sizes,
                                padding,
                                specified_height,
                                nodes_where(facts, true),
                                fuel,
                            ),
                        },
                    },
                },
            },
        }
    }
}

/// The inside of a flex container.
pub open spec fn flex_laid_out(
    input: LayoutInput,
    answers: Answers,
    state: LayoutModel,
    call: Call,
    style: LayoutStyle,
    fuel: nat,
) -> Result<(LayoutModel, BodyModel), Stop>
    decreases fuel, 9int, 0nat,
{
    let node_idx = call.node_idx;
    let block = block_of(input, state.sizes, node_idx, style, call.containing);
    match (
        paddings(style, block.1, input.window),
        container(input, style, call.forced, call.available, block),
        specified(input, style, call.forced, block),
    ) {
        (Err(stop), _, _) => Err(stop),
        (_, Err(stop), _) => Err(stop),
        (_, _, Err(stop)) => Err(stop),
        (Ok(padding), Ok(sizes), Ok(wanted)) => if !in_i32(call.cursor.x + padding.left) || !in_i32(
            call.cursor.y + padding.top,
        ) {
            Err(Stop::Range)
        } else {
            let known = sized(state, node_idx, wanted, sizes);
            if !call.complete && wanted.0 is Some && wanted.1 is Some {
                Ok((known, fixed_body(wanted)))
            } else {
                flex_inside(
                    input,
                    answers,
                    positioned(known, call, style),
                    call,
                    style,
                    sizes,
                    padding,
                    wanted.0,
                    fuel,
                )
            }
        },
    }
}

/// The cells of a grid after the items from a place on have been laid out to learn their sizes.
pub open spec fn grid_bases(
    input: LayoutInput,
    answers: Answers,
    state: LayoutModel,
    placer: PlacerModel,
    run: Run,
    origin: Position,
    items: Seq<usize>,
    at: int,
    fuel: nat,
) -> Result<(LayoutModel, PlacerModel), Stop>
    decreases fuel, 5int, items.len() - at,
{
    if at < 0 || at >= items.len() {
        Ok((state, placer))
    } else {
        match grid_base(input, answers, state, placer, run, origin, items[at], fuel) {
            Err(stop) => Err(stop),
            Ok((after, next)) => grid_bases(
                input,
                answers,
                after,
                next,
                run,
                origin,
                items,
                at + 1,
                fuel,
            ),
        }
    }
}

/// The cells of a grid after one item has been laid out to learn its size.
pub open spec fn grid_base(
    input: LayoutInput,
    answers: Answers,
    state: LayoutModel,
    placer: PlacerModel,
    run: Run,
    origin: Position,
    item: usize,
    fuel: nat,
) -> Result<(LayoutModel, PlacerModel), Stop>
    decreases fuel, 4int, 0nat,
{
    match input.style(item) {
        None => Err(Stop::NoStyle),
        Some(style) => {
            let span = max2(style.grid_column_span as int, 1);
            let cell = placer.at_item(span);
            if (placer.template_columns is Some && !in_i32(placer.column + span)) || cell.row_count
                > i32::MAX {
                Err(Stop::Range)
            } else {
                let call = call_to_measure(run, item, origin, no_size());
                match node_laid_out(input, answers, state, call, fuel) {
                    Err(stop) => Err(stop),
                    Ok((after, None)) => Ok((after, cell)),
                    Ok((after, Some(id))) => if !in_i32(cell.column + span) {
                        Err(Stop::Range)
                    } else {
                        let rect = after.boxes[id - 1].rect;
                        Ok((after, cell.after_item(item, span as i32, rect.width, rect.height)))
                    },
                }
            }
        },
    }
}

/// How an item sits in its cell.
pub open spec fn cell_style(style: LayoutStyle, child: LayoutStyle) -> CellStyle {
    CellStyle {
        justify_items: style.justify_items,
        align_items: style.align_items,
        has_row_template: style.grid_template_rows is Some,
        width_auto: child.width is Auto,
        height_auto: child.height is Auto,
    }
}

/// The grid after one item has been put in its cell.
pub open spec fn grid_place(
    input: LayoutInput,
    answers: Answers,
    state: LayoutModel,
    grid: GridModel,
    run: Run,
    style: LayoutStyle,
    item: GridBaseItem,
    fuel: nat,
) -> Result<(LayoutModel, GridModel), Stop>
    decreases fuel, 4int, 0nat,
{
    match input.style(item.node_idx) {
        None => Err(Stop::NoStyle),
        Some(child) => match grid.placed(item, cell_style(style, child)) {
            None => Err(Stop::Range),
            Some((cell, x, y)) => {
                let call = call_inside(
                    run,
                    item.node_idx,
                    Position { x: x as i32, y: y as i32 },
                    Size { width: item.target_width, height: item.target_height },
                    cell_forced_size(item, cell_style(style, child)),
                );
                match node_laid_out(input, answers, state, call, fuel) {
                    Err(stop) => Err(stop),
                    Ok((after, None)) => Ok((after, cell)),
                    Ok((after, Some(id))) => if !cell.item_in_range(item) {
                        Err(Stop::Range)
                    } else {
                        Ok((after, cell.after_item(item, id, after.boxes[id - 1].rect.height)))
                    },
                }
            },
        },
    }
}

/// The grid after the items from a place on have been put in their cells.
pub open spec fn grid_places(
    input: LayoutInput,
    answers: Answers,
    state: LayoutModel,
    grid: GridModel,
    run: Run,
    style: LayoutStyle,
    items: Seq<GridBaseItem>,
    at: int,
    fuel: nat,
) -> Result<(LayoutModel, GridModel), Stop>
    decreases fuel, 5int, items.len() - at,
{
    if at < 0 || at >= items.len() {
        Ok((state, grid))
    } else {
        match grid_place(input, answers, state, grid, run, style, items[at], fuel) {
            Err(stop) => Err(stop),
            Ok((after, next)) => grid_places(
                input,
                answers,
                after,
                next,
                run,
                style,
                items,
                at + 1,
                fuel,
            ),
        }
    }
}

/// The largest item of each line of a grid.
pub open spec fn line_sizes(placer: PlacerModel, across: bool) -> Seq<u32> {
    Seq::new(
        (if across {
            placer.column_count
        } else {
            placer.row_count
        }) as nat,
        |line: int| largest(placer.items, line, across) as u32,
    )
}

/// The items of a grid with the sizes of their cells.
pub open spec fn grid_cells(
    answers: Answers,
    placer: PlacerModel,
    columns: AxisModel,
    rows: AxisModel,
) -> Result<Seq<GridBaseItem>, Stop> {
    match (
        columns.measured(answers, line_sizes(placer, true)),
        rows.measured(answers, line_sizes(placer, false)),
    ) {
        (Err(stop), _) => Err(stop),
        (_, Err(stop)) => Err(stop),
        (Ok(columns), Ok(rows)) => match cells_from(
            placer.items,
            columns,
            rows,
            0,
            Seq::empty(),
        ) {
            None => if some_without_size(columns.tracks) || some_without_size(rows.tracks) {
                Err(Stop::Template)
            } else {
                Err(Stop::Range)
            },
            Some(cells) => Ok(cells),
        },
    }
}

/// A grid whose items are placed gets its size and takes in what is out of the flow.
pub open spec fn grid_finished(
    input: LayoutInput,
    answers: Answers,
    state: LayoutModel,
    grid: GridModel,
    run: Run,
    sizes: ContainerSizes,
    specified_height: Option<u32>,
    free: Seq<usize>,
    fuel: nat,
) -> Result<(LayoutModel, BodyModel), Stop>
    decreases fuel, 7int, 0nat,
{
    match grid_size(grid, specified_height, sizes, run.call.allow_fill) {
        None => Err(Stop::Range),
        Some((width, height, content_height)) => match closed(
            input,
            answers,
            resolved(state, run.call.node_idx, height, width),
            run,
            waiting(free),
            Size { width, height },
            grid.children,
            fuel,
        ) {
            Err(stop) => Err(stop),
            Ok((end, children)) => Ok(
                (end, BodyModel { width, height, content_height, children }),
            ),
        },
    }
}

/// The items of a grid, and what comes behind them.
pub open spec fn grid_inside(
    input: LayoutInput,
    answers: Answers,
    state: LayoutModel,
    call: Call,
    style: LayoutStyle,
    sizes: ContainerSizes,
    padding: Edges,
    specified_height: Option<u32>,
    fuel: nat,
) -> Result<(LayoutModel, BodyModel), Stop>
    decreases fuel, 8int, 0nat,
{
    let run = Run {
        call,
        containing: containing_inside(call, style),
        inner: Size { width: sizes.inner_width, height: sizes.inner_height },
        fill: call.allow_fill && style.justify_items is Stretch,
        font_size: style.font_size,
    };
    let facts = child_facts(input, input.nodes@[call.node_idx as int].children@);
    match (
        grid_begun(call.cursor, padding),
        axis_begun(style.grid_template_columns, sizes.inner_width),
        axis_begun(style.grid_template_rows, sizes.inner_height),
    ) {
        (None, _, _) => Err(Stop::Range),
        (_, Err(stop), _) => Err(stop),
        (_, _, Err(stop)) => Err(stop),
        (Some(grid), Ok(columns), Ok(rows)) => {
            let placer = PlacerModel {
                template_columns: if columns.has_template {
                    Some(columns.tracks.len() as usize)
                } else {
                    None
                },
                column: 0,
                row: 0,
                column_count: 1,
                row_count: 1,
                items: Seq::empty(),
            };
            let origin = Position { x: grid.origin_x as i32, y: grid.origin_y as i32 };
            match grid_bases(
                input,
                answers,
                state,
                placer,
                run,
                origin,
                nodes_where(facts, false),
                0,
                fuel,
            ) {
                Err(stop) => Err(stop),
                Ok((measured, filled)) => match grid_cells(answers, filled, columns, rows) {
                    Err(stop) => Err(stop),
                    Ok(cells) => match grid_places(
                        input,
                        answers,
                        measured,
                        grid,
                        run,
                        style,
                        cells,
                        0,
                        fuel,
                    ) {
                        Err(stop) => Err(stop),
                        Ok((placed, end)) => grid_finished(
                            input,
                            answers,
                            placed,
                            end,
                            run,
                            sizes,
                            specified_height,
                            nodes_where(facts, true),
                            fuel,
                        ),
                    },
                },
            }
        },
    }
}

/// The inside of a grid.
pub open spec fn grid_laid_out(
    input: LayoutInput,
    answers: Answers,
    state: LayoutModel,
    call: Call,
    style: LayoutStyle,
    fuel: nat,
) -> Result<(LayoutModel, BodyModel), Stop>
    decreases fuel, 9int, 0nat,
{
    let node_idx = call.node_idx;
    let block = block_of(input, state.sizes, node_idx, style, call.containing);
    match container(input, style, call.forced, call.available, block) {
        Err(stop) => Err(stop),
        Ok(sizes) => {
            let opened = positioned(state, call, style);
            let own = block_of(
                input,
                opened.sizes,
                node_idx,
                style,
                containing_inside(call, style),
            );
            match (
                paddings(style, own.1, input.window),
                specified(input, style, call.forced, own),
            ) {
                (Err(stop), _) => Err(stop),
                (_, Err(stop)) => Err(stop),
                (Ok(padding), Ok(wanted)) => grid_inside(
                    input,
                    answers,
                    sized(opened, node_idx, wanted, sizes),
                    call,
                    style,
                    sizes,
                    padding,
                    wanted.0,
                    fuel,
                ),
            }
        },
    }
}

/// The whole layout: the root is laid out in the given space, and is the containing node of all
/// that has no other.
pub open spec fn layout_of(input: LayoutInput, answers: Answers, size: Size) -> Result<
    (LayoutModel, Option<usize>),
    Stop,
> {
    let origin = Position { x: 0, y: 0 };
    let call = Call {
        node_idx: input.root,
        cursor: origin,
        available: size,
        forced: no_size(),
        containing: input.root,
        allow_fill: true,
        save: true,
        complete: true,
    };
    node_laid_out(
        input,
        answers,
        LayoutModel::initial(input.nodes@.len()).opened(input.root, origin),
        call,
        input.nodes@.len(),
    )
}

} // verus!
