//! Layout: from nodes with styles to boxes with places and sizes.
//!
//! The size of a text or a picture comes from outside. A layout that needs one that it has not
//! been told stops there and says which.
use vstd::prelude::*;

use crate::boxes::in_i32;
use crate::flex::calculate_cross_offset;
use crate::flex::children_where;
use crate::flex::distributes_main_space;
use crate::flex::flex_items;
use crate::flex::justify_content;
use crate::flex::main_free_space;
use crate::flex::static_position_offset;
use crate::flex::FlexLine;
use crate::flex::FlexPlaced;
use crate::flex::StyleFlexDirection;
use crate::flex::StyleJustifyContent;
use crate::flex_sizes::get_cross_size;
use crate::flex_sizes::get_targets;
use crate::flex_sizes::largest_cross;
use crate::flex_sizes::plan_main_sizes;
use crate::flex_sizes::stretches_any;
use crate::flex_sizes::to_u32;
use crate::flex_sizes::total_outer;
use crate::flex_sizes::FlexBase;
use crate::flow::with_last_row;
use crate::flow::with_new_row;
use crate::flow::BlockFlow;
use crate::flow::PlacedChild;
use crate::grid::largest_sizes;
use crate::grid::CellStyle;
use crate::grid::GridBaseItem;
use crate::grid::GridFlow;
use crate::grid::GridPlacer;
use crate::grid_axis::size_cells;
use crate::grid_axis::GridAxis;
use crate::layout_boxes::create_input_text_box;
use crate::layout_boxes::finish_element;
use crate::layout_boxes::get_child_facts;
use crate::layout_boxes::get_waiter_style;
use crate::layout_boxes::grown;
use crate::layout_boxes::layout_replaced;
use crate::layout_boxes::layout_text;
use crate::layout_boxes::same_outcome;
use crate::layout_boxes::Body;
use crate::layout_boxes::BodyModel;
use crate::layout_boxes::Call;
use crate::layout_model::all_styled;
use crate::layout_model::flex_base;
use crate::layout_model::flex_bases;
use crate::layout_model::flex_finished;
use crate::layout_model::flex_inside;
use crate::layout_model::flex_item_placed;
use crate::layout_model::flex_laid_out;
use crate::layout_model::flex_place;
use crate::layout_model::flex_places;
use crate::layout_model::flex_sized;
use crate::layout_model::flex_text;
use crate::layout_model::flex_waiter;
use crate::layout_model::flex_waiting;
use crate::layout_model::grid_base;
use crate::layout_model::grid_bases;
use crate::layout_model::grid_cells;
use crate::layout_model::grid_finished;
use crate::layout_model::grid_inside;
use crate::layout_model::grid_laid_out;
use crate::layout_model::grid_place;
use crate::layout_model::grid_places;
use crate::layout_model::item_sizes;
use crate::layout_model::line_sizes;
use crate::layout_model::measure_item;
use crate::layout_model::outer_sizes;
use crate::layout_model::resolve_flex_basis;
use crate::layout_model::FlexSizes;
use crate::layout_model::block_child;
use crate::layout_model::block_child_placed;
use crate::layout_model::block_children;
use crate::layout_model::block_finished;
use crate::layout_model::block_inside;
use crate::layout_model::block_laid_out;
use crate::layout_model::block_text;
use crate::layout_model::closed;
use crate::layout_model::fixed_body;
use crate::layout_model::get_free_room;
use crate::layout_model::inline_at;
use crate::layout_model::layout_of;
use crate::layout_model::node_laid_out;
use crate::layout_model::open_if_positioned;
use crate::layout_model::queued_from;
use crate::layout_model::sized;
use crate::layout_model::waiter_laid_out;
use crate::layout_model::waiters_from;
use crate::layout_model::waiting;
use crate::layout_model::Run;
use crate::layout_state::all_boxes;
use crate::layout_state::lines_all_boxes;
use crate::layout_state::LayoutModel;
use crate::layout_state::LayoutState;
use crate::lengths::get_block;
use crate::lengths::get_container;
use crate::lengths::get_length_or_zero;
use crate::lengths::get_margins;
use crate::lengths::get_paddings;
use crate::lengths::get_specified;
use crate::lengths::is_auto;
use crate::lengths::InputValue;
use crate::lengths::LayoutInput;
use crate::lengths::LayoutStyle;
use crate::lengths::Shape;
use crate::lengths::Stop;
use crate::needs::Answers;
use crate::needs::FlexTarget;
use crate::paint::StylePosition;
use crate::sizing::content_size;
use crate::sizing::ContainerSizes;
use crate::sizing::Edges;
use crate::sizing::OptionalSize;
use crate::sizing::Position;
use crate::sizing::Size;
use crate::stylesheet::StyleDisplay;
use crate::waiters::containing_node_for;
use crate::waiters::place_waiter;
use crate::waiters::positioning_size;
use crate::waiters::ResumableNode;

verus! {

proof fn lemma_new_row_of_boxes(lines: Seq<Seq<usize>>, id: usize, count: nat)
    requires
        lines_all_boxes(lines, count),
        1 <= id <= count,
    ensures
        lines_all_boxes(with_new_row(lines, id), count),
{
    let after = with_new_row(lines, id);
    assert forall|i: int| 0 <= i < after.len() implies all_boxes(#[trigger] after[i], count) by {
        if i < lines.len() {
            assert(after[i] == lines[i]);
        } else {
            assert(after[i] == seq![id]);
        }
    }
}

proof fn lemma_last_row_of_boxes(lines: Seq<Seq<usize>>, id: usize, count: nat)
    requires
        lines_all_boxes(lines, count),
        1 <= id <= count,
    ensures
        lines_all_boxes(with_last_row(lines, id), count),
{
    let after = with_last_row(lines, id);
    assert forall|i: int| 0 <= i < after.len() implies all_boxes(#[trigger] after[i], count) by {
        if lines.len() == 0 {
            assert(after[i] == seq![id]);
        } else if i < lines.len() - 1 {
            assert(after[i] == lines[i]);
        } else {
            assert(all_boxes(lines[i], count));
            assert(after[i] == lines[i].push(id));
        }
    }
}

proof fn lemma_more_boxes(lines: Seq<Seq<usize>>, ids: Seq<usize>, before: nat, after: nat)
    requires
        lines_all_boxes(lines, before),
        all_boxes(ids, before),
        before <= after,
    ensures
        lines_all_boxes(lines, after),
        all_boxes(ids, after),
{
    assert forall|i: int| 0 <= i < lines.len() implies all_boxes(#[trigger] lines[i], after) by {
        assert(all_boxes(lines[i], before));
    }
}

/// Lets nodes wait for their containing nodes.
fn queue_waiting(
    state: &mut LayoutState,
    input: &LayoutInput,
    containing: usize,
    waiting: &Vec<ResumableNode>,
) -> (r: Result<(), Stop>)
    requires
        old(state).wf(),
    ensures
        final(state).wf(),
        r is Ok ==> old(state)@.boxes.len() <= final(state)@.boxes.len(),
        r is Ok ==> final(state)@.boxes == old(state)@.boxes,
        match (r, queued_from(*input, old(state)@, containing, waiting@, 0)) {
            (Ok(_), Ok(after)) => final(state)@ == after,
            (Err(stop), Err(reason)) => stop == reason,
            _ => false,
        },
{
    let ghost before = state@;
    let mut at: usize = 0;
    while at < waiting.len()
        invariant
            at <= waiting@.len(),
            state.wf(),
            state@.boxes == before.boxes,
            before == old(state)@,
            before.boxes.len() <= state@.boxes.len(),
            queued_from(*input, before, containing, waiting@, 0) == queued_from(
                *input,
                state@,
                containing,
                waiting@,
                at as int,
            ),
        decreases waiting@.len() - at,
    {
        let waiter = waiting[at];
        let target: usize = match input.style_of(waiter.node_idx) {
            None => {
                return Err(Stop::NoStyle);
            },
            Some(style) => containing_node_for(style.position, containing, input.root),
        };
        match state.queue(target, waiter) {
            Err(stop) => {
                return Err(stop);
            },
            Ok(_) => {},
        }
        at = at + 1;
    }
    Ok(())
}

/// Lays out a node that waited for a containing node, and moves it to its place.
fn layout_waiter(
    state: &mut LayoutState,
    input: &LayoutInput,
    answers: &Answers,
    containing: usize,
    cursor: Position,
    waiter: &ResumableNode,
    size: &Size,
    fuel: usize,
) -> (r: Result<Option<usize>, Stop>)
    requires
        old(state).wf(),
    ensures
        final(state).wf(),
        r is Ok ==> old(state)@.boxes.len() <= final(state)@.boxes.len(),
        grown(r, old(state)@, final(state)@),
        same_outcome(
            r,
            final(state)@,
            waiter_laid_out(
                *input,
                *answers,
                old(state)@,
                containing,
                cursor,
                *waiter,
                *size,
                fuel as nat,
            ),
        ),
    decreases fuel, 4int,
{
    let style = match input.style_of(waiter.node_idx) {
        None => {
            return Err(Stop::NoStyle);
        },
        Some(style) => style,
    };
    let frame = positioning_size(style.position, size, &input.window);
    let lengths = match get_waiter_style(style, &frame, &input.window) {
        Err(stop) => {
            return Err(stop);
        },
        Ok(lengths) => lengths,
    };
    let placement = match place_waiter(&lengths, waiter, cursor, &frame) {
        None => {
            return Err(Stop::Range);
        },
        Some(placement) => placement,
    };
    let call = Call {
        node_idx: waiter.node_idx,
        cursor: placement.cursor,
        available: frame,
        forced: placement.forced_size,
        containing,
        allow_fill: true,
        save: true,
        complete: true,
    };
    match layout_node(state, input, answers, &call, fuel) {
        Err(stop) => Err(stop),
        Ok(None) => Ok(None),
        Ok(Some(id)) => match state.settle(id, &lengths, waiter, &frame) {
            Err(stop) => Err(stop),
            Ok(_) => Ok(Some(id)),
        },
    }
}

/// Lays out what waits for a containing node, behind its other children.
fn layout_waiters(
    state: &mut LayoutState,
    input: &LayoutInput,
    answers: &Answers,
    containing: usize,
    cursor: Position,
    waiters: &Vec<ResumableNode>,
    size: &Size,
    children: &mut Vec<usize>,
    fuel: usize,
) -> (r: Result<(), Stop>)
    requires
        old(state).wf(),
        all_boxes(old(children)@, old(state)@.boxes.len()),
    ensures
        final(state).wf(),
        r is Ok ==> old(state)@.boxes.len() <= final(state)@.boxes.len(),
        r is Ok ==> all_boxes(final(children)@, final(state)@.boxes.len()),
        match (
            r,
            waiters_from(
                *input,
                *answers,
                old(state)@,
                containing,
                cursor,
                waiters@,
                *size,
                old(children)@,
                0,
                fuel as nat,
            ),
        ) {
            (Ok(_), Ok(after)) => final(state)@ == after.0 && final(children)@ == after.1,
            (Err(stop), Err(reason)) => stop == reason,
            _ => false,
        },
    decreases fuel, 5int,
{
    let ghost before = state@;
    let ghost first = children@;
    let mut at: usize = 0;
    while at < waiters.len()
        invariant
            at <= waiters@.len(),
            state.wf(),
            all_boxes(children@, state@.boxes.len()),
            before == old(state)@,
            before.boxes.len() <= state@.boxes.len(),
            first == old(children)@,
            waiters_from(
                *input,
                *answers,
                before,
                containing,
                cursor,
                waiters@,
                *size,
                first,
                0,
                fuel as nat,
            ) == waiters_from(
                *input,
                *answers,
                state@,
                containing,
                cursor,
                waiters@,
                *size,
                children@,
                at as int,
                fuel as nat,
            ),
        decreases waiters@.len() - at,
    {
        match layout_waiter(
            state,
            input,
            answers,
            containing,
            cursor,
            &waiters[at],
            size,
            fuel,
        ) {
            Err(stop) => {
                return Err(stop);
            },
            Ok(None) => {},
            Ok(Some(id)) => {
                children.push(id);
            },
        }
        at = at + 1;
    }
    Ok(())
}

/// Takes in what is out of the flow at the end of a node.
fn close_node(
    state: &mut LayoutState,
    input: &LayoutInput,
    answers: &Answers,
    run: &Run,
    waiting: &Vec<ResumableNode>,
    size: &Size,
    children: &mut Vec<usize>,
    fuel: usize,
) -> (r: Result<(), Stop>)
    requires
        old(state).wf(),
        all_boxes(old(children)@, old(state)@.boxes.len()),
    ensures
        final(state).wf(),
        r is Ok ==> old(state)@.boxes.len() <= final(state)@.boxes.len(),
        r is Ok ==> all_boxes(final(children)@, final(state)@.boxes.len()),
        match (
            r,
            closed(
                *input,
                *answers,
                old(state)@,
                *run,
                waiting@,
                *size,
                old(children)@,
                fuel as nat,
            ),
        ) {
            (Ok(_), Ok(after)) => final(state)@ == after.0 && final(children)@ == after.1,
            (Err(stop), Err(reason)) => stop == reason,
            _ => false,
        },
    decreases fuel, 6int,
{
    if !run.call.complete {
        return Ok(());
    }
    match queue_waiting(state, input, run.containing, waiting) {
        Err(stop) => {
            return Err(stop);
        },
        Ok(_) => {},
    }
    let node_idx: usize = run.call.node_idx;
    if run.containing != node_idx {
        return Ok(());
    }
    let (cursor, waiters) = match state.containing_of(node_idx) {
        None => {
            return Err(Stop::NoContainingNode);
        },
        Some(found) => found,
    };
    match layout_waiters(
        state,
        input,
        answers,
        node_idx,
        cursor,
        &waiters,
        size,
        children,
        fuel,
    ) {
        Err(stop) => {
            return Err(stop);
        },
        Ok(_) => {},
    }
    state.open_containing(node_idx, cursor);
    Ok(())
}

fn is_inline_at(input: &LayoutInput, items: &Vec<usize>, at: usize) -> (r: bool)
    requires
        at < items@.len(),
    ensures
        r == inline_at(*input, items@, at as int),
{
    match input.style_of(items[at]) {
        Some(style) => style.display.is_inline(),
        None => true,
    }
}

/// Whether a child and its neighbours all stand on a line.
fn in_inline_run(input: &LayoutInput, items: &Vec<usize>, at: usize, display: StyleDisplay) -> (r:
    bool)
    requires
        at < items@.len(),
    ensures
        r == (display.on_line() && inline_at(*input, items@, at - 1) && inline_at(
            *input,
            items@,
            at + 1,
        )),
{
    let before = if at == 0 {
        true
    } else {
        is_inline_at(input, items, at - 1)
    };
    let count: usize = items.len();
    let behind = if at == count - 1 {
        true
    } else {
        is_inline_at(input, items, at + 1)
    };
    display.is_inline() && before && behind
}

/// Puts a child that was laid out in its place in a block.
fn place_in_block(
    state: &mut LayoutState,
    flow: &mut BlockFlow,
    id: usize,
    edges: Edges,
    inline_run: bool,
    inner_width: u32,
) -> (r: Result<(), Stop>)
    requires
        old(state).wf(),
        old(flow).wf(),
        1 <= id <= old(state)@.boxes.len(),
        lines_all_boxes(old(flow).model().lines, old(state)@.boxes.len()),
        all_boxes(old(flow).model().children, old(state)@.boxes.len()),
    ensures
        final(state).wf(),
        r is Ok ==> old(state)@.boxes.len() <= final(state)@.boxes.len(),
        final(flow).wf(),
        final(state)@.boxes.len() == old(state)@.boxes.len(),
        r is Ok ==> lines_all_boxes(final(flow).model().lines, final(state)@.boxes.len()),
        r is Ok ==> all_boxes(final(flow).model().children, final(state)@.boxes.len()),
        match (
            r,
            block_child_placed(
                old(state)@,
                old(flow).model(),
                id,
                edges,
                inline_run,
                inner_width,
            ),
        ) {
            (Ok(_), Ok(after)) => final(state)@ == after.0 && final(flow).model() == after.1,
            (Err(stop), Err(reason)) => stop == reason,
            _ => false,
        },
{
    let rect = state.rect_of(id);
    let child = PlacedChild {
        id,
        width: rect.width,
        height: rect.height,
        margins: edges,
        inline_run,
    };
    proof {
        lemma_new_row_of_boxes(flow.model().lines, id, state@.boxes.len());
        lemma_last_row_of_boxes(flow.model().lines, id, state@.boxes.len());
    }
    let (dx, dy) = match flow.add_child(&child, inner_width) {
        None => {
            return Err(Stop::Range);
        },
        Some(movement) => movement,
    };
    if dx != 0 || dy != 0 {
        match state.move_box(id, dx, dy) {
            Err(stop) => {
                return Err(stop);
            },
            Ok(_) => {},
        }
    }
    Ok(())
}

/// Lays out one child of a block.
fn layout_block_child(
    state: &mut LayoutState,
    flow: &mut BlockFlow,
    input: &LayoutInput,
    answers: &Answers,
    run: &Run,
    items: &Vec<usize>,
    at: usize,
    fuel: usize,
) -> (r: Result<(), Stop>)
    requires
        old(state).wf(),
        old(flow).wf(),
        at < items@.len(),
        lines_all_boxes(old(flow).model().lines, old(state)@.boxes.len()),
        all_boxes(old(flow).model().children, old(state)@.boxes.len()),
    ensures
        final(state).wf(),
        r is Ok ==> old(state)@.boxes.len() <= final(state)@.boxes.len(),
        final(flow).wf(),
        r is Ok ==> lines_all_boxes(final(flow).model().lines, final(state)@.boxes.len()),
        r is Ok ==> all_boxes(final(flow).model().children, final(state)@.boxes.len()),
        match (
            r,
            block_child(
                *input,
                *answers,
                old(state)@,
                old(flow).model(),
                *run,
                items@,
                at as int,
                fuel as nat,
            ),
        ) {
            (Ok(_), Ok(after)) => final(state)@ == after.0 && final(flow).model() == after.1,
            (Err(stop), Err(reason)) => stop == reason,
            _ => false,
        },
    decreases fuel, 4int,
{
    let style = match input.style_of(items[at]) {
        None => {
            return Err(Stop::NoStyle);
        },
        Some(style) => style,
    };
    let is_break = match input.nodes[items[at]].shape {
        Shape::Break => true,
        _ => false,
    };
    if is_break && style.display != StyleDisplay::Absent {
        if flow.line_break(run.font_size) {
            return Ok(());
        }
        return Err(Stop::Range);
    }
    let edges = match get_margins(style, &run.call.available, &input.window) {
        Err(stop) => {
            return Err(stop);
        },
        Ok(edges) => edges,
    };
    let cursor = match flow.place(&edges) {
        None => {
            return Err(Stop::Range);
        },
        Some(cursor) => cursor,
    };
    let call = Call {
        node_idx: items[at],
        cursor,
        available: run.inner,
        forced: OptionalSize { width: None, height: None },
        containing: run.containing,
        allow_fill: run.fill,
        save: run.call.save,
        complete: run.call.complete,
    };
    let ghost before = state@.boxes.len();
    match layout_node(state, input, answers, &call, fuel) {
        Err(stop) => Err(stop),
        Ok(None) => {
            proof {
                lemma_more_boxes(
                    flow.model().lines,
                    flow.model().children,
                    before,
                    state@.boxes.len(),
                );
            }
            Ok(())
        },
        Ok(Some(id)) => {
            proof {
                lemma_more_boxes(
                    flow.model().lines,
                    flow.model().children,
                    before,
                    state@.boxes.len(),
                );
            }
            let inline_run = in_inline_run(input, items, at, style.display);
            place_in_block(state, flow, id, edges, inline_run, run.inner.width)
        },
    }
}

/// Lays out the children of a block.
fn layout_block_children(
    state: &mut LayoutState,
    flow: &mut BlockFlow,
    input: &LayoutInput,
    answers: &Answers,
    run: &Run,
    items: &Vec<usize>,
    fuel: usize,
) -> (r: Result<(), Stop>)
    requires
        old(state).wf(),
        old(flow).wf(),
        lines_all_boxes(old(flow).model().lines, old(state)@.boxes.len()),
        all_boxes(old(flow).model().children, old(state)@.boxes.len()),
    ensures
        final(state).wf(),
        r is Ok ==> old(state)@.boxes.len() <= final(state)@.boxes.len(),
        final(flow).wf(),
        r is Ok ==> lines_all_boxes(final(flow).model().lines, final(state)@.boxes.len()),
        r is Ok ==> all_boxes(final(flow).model().children, final(state)@.boxes.len()),
        match (
            r,
            block_children(
                *input,
                *answers,
                old(state)@,
                old(flow).model(),
                *run,
                items@,
                0,
                fuel as nat,
            ),
        ) {
            (Ok(_), Ok(after)) => final(state)@ == after.0 && final(flow).model() == after.1,
            (Err(stop), Err(reason)) => stop == reason,
            _ => false,
        },
    decreases fuel, 5int,
{
    let ghost before = state@;
    let ghost begun = flow.model();
    let mut at: usize = 0;
    while at < items.len()
        invariant
            at <= items@.len(),
            state.wf(),
            flow.wf(),
            lines_all_boxes(flow.model().lines, state@.boxes.len()),
            all_boxes(flow.model().children, state@.boxes.len()),
            before == old(state)@,
            before.boxes.len() <= state@.boxes.len(),
            begun == old(flow).model(),
            block_children(
                *input,
                *answers,
                before,
                begun,
                *run,
                items@,
                0,
                fuel as nat,
            ) == block_children(
                *input,
                *answers,
                state@,
                flow.model(),
                *run,
                items@,
                at as int,
                fuel as nat,
            ),
        decreases items@.len() - at,
    {
        match layout_block_child(state, flow, input, answers, run, items, at, fuel) {
            Err(stop) => {
                return Err(stop);
            },
            Ok(_) => {},
        }
        at = at + 1;
    }
    Ok(())
}

/// Puts the text of a form control in a block that has no other child.
fn add_block_text(
    state: &mut LayoutState,
    flow: &mut BlockFlow,
    input: &LayoutInput,
    answers: &Answers,
    call: &Call,
    style: &LayoutStyle,
    childless: bool,
) -> (r: Result<(), Stop>)
    requires
        old(state).wf(),
        old(flow).wf(),
        call.node_idx < input.nodes@.len(),
        lines_all_boxes(old(flow).model().lines, old(state)@.boxes.len()),
        all_boxes(old(flow).model().children, old(state)@.boxes.len()),
    ensures
        final(state).wf(),
        r is Ok ==> old(state)@.boxes.len() <= final(state)@.boxes.len(),
        final(flow).wf(),
        r is Ok ==> lines_all_boxes(final(flow).model().lines, final(state)@.boxes.len()),
        r is Ok ==> all_boxes(final(flow).model().children, final(state)@.boxes.len()),
        match (
            r,
            block_text(
                *input,
                *answers,
                old(state)@,
                old(flow).model(),
                *call,
                *style,
                childless,
            ),
        ) {
            (Ok(_), Ok(after)) => final(state)@ == after.0 && final(flow).model() == after.1,
            (Err(stop), Err(reason)) => stop == reason,
            _ => false,
        },
{
    if !childless {
        return Ok(());
    }
    match input.nodes[call.node_idx].shape {
        Shape::Element(InputValue::Blank) => {
            return Err(Stop::InputText);
        },
        Shape::Element(InputValue::Given) => {},
        _ => {
            return Ok(());
        },
    }
    let ghost before = state@.boxes.len();
    match create_input_text_box(state, answers, call, style, flow.cursor) {
        Err(stop) => Err(stop),
        Ok(None) => Err(Stop::InputText),
        Ok(Some(id)) => {
            let rect = state.rect_of(id);
            proof {
                lemma_more_boxes(
                    flow.model().lines,
                    flow.model().children,
                    before,
                    state@.boxes.len(),
                );
            }
            flow.add_input_text(id, rect.width);
            Ok(())
        },
    }
}

fn list_waiting(free: &Vec<usize>) -> (r: Vec<ResumableNode>)
    ensures
        r@ == waiting(free@),
{
    let mut list: Vec<ResumableNode> = Vec::new();
    let mut at: usize = 0;
    while at < free.len()
        invariant
            at <= free@.len(),
            list@ =~= waiting(free@).take(at as int),
        decreases free@.len() - at,
    {
        list.push(ResumableNode { node_idx: free[at], static_position_offset: None });
        at = at + 1;
    }
    assert(list@ =~= waiting(free@));
    list
}

/// Whether the inside of a node is the one of its model.
pub open spec fn same_inside(
    r: Result<Body, Stop>,
    state: LayoutModel,
    model: Result<(LayoutModel, BodyModel), Stop>,
) -> bool {
    match (r, model) {
        (Ok(body), Ok(after)) => body@ == after.1 && state == after.0 && all_boxes(
            body.children@,
            state.boxes.len(),
        ),
        (Err(stop), Err(reason)) => stop == reason,
        _ => false,
    }
}

/// Finishes a block whose children are placed.
fn finish_block(
    state: &mut LayoutState,
    flow: BlockFlow,
    input: &LayoutInput,
    answers: &Answers,
    run: &Run,
    style: &LayoutStyle,
    sizes: &ContainerSizes,
    padding: &Edges,
    specified_height: Option<u32>,
    free: &Vec<usize>,
    fuel: usize,
) -> (r: Result<Body, Stop>)
    requires
        old(state).wf(),
        flow.wf(),
        lines_all_boxes(flow.model().lines, old(state)@.boxes.len()),
        all_boxes(flow.model().children, old(state)@.boxes.len()),
    ensures
        final(state).wf(),
        r is Ok ==> old(state)@.boxes.len() <= final(state)@.boxes.len(),
        same_inside(
            r,
            final(state)@,
            block_finished(
                *input,
                *answers,
                old(state)@,
                flow.model(),
                *run,
                *style,
                *sizes,
                *padding,
                specified_height,
                free@,
                fuel as nat,
            ),
        ),
    decreases fuel, 7int,
{
    let by_content = match style.width {
        crate::calc::SizeTerm::Content => true,
        _ => false,
    };
    let fills = run.call.allow_fill && style.display != StyleDisplay::InlineBlock && style.display
        != StyleDisplay::Inline && !by_content;
    let size = match flow.finish(specified_height, sizes, padding, fills) {
        None => {
            return Err(Stop::Range);
        },
        Some(size) => size,
    };
    state.sizes.set_resolved(run.call.node_idx, Some(size.height), Some(size.width));
    let (room, free_y) = match get_free_room(
        size.width,
        padding,
        sizes.inner_height,
        size.content_height,
    ) {
        None => {
            return Err(Stop::Range);
        },
        Some(found) => found,
    };
    match state.divide(&flow.rows, room, free_y) {
        Err(stop) => {
            return Err(stop);
        },
        Ok(_) => {},
    }
    let mut children = flow.children;
    let outer = Size { width: size.width, height: size.height };
    let list = list_waiting(free);
    match close_node(state, input, answers, run, &list, &outer, &mut children, fuel) {
        Err(stop) => {
            return Err(stop);
        },
        Ok(_) => {},
    }
    Ok(
        Body {
            width: size.width,
            height: size.height,
            content_height: size.content_height,
            children,
        },
    )
}

/// Lays out the children of a block and what comes behind them.
fn layout_block_inside(
    state: &mut LayoutState,
    flow: BlockFlow,
    input: &LayoutInput,
    answers: &Answers,
    run: &Run,
    style: &LayoutStyle,
    sizes: &ContainerSizes,
    padding: &Edges,
    specified_height: Option<u32>,
    fuel: usize,
) -> (r: Result<Body, Stop>)
    requires
        old(state).wf(),
        flow.wf(),
        flow.model().lines.len() == 0,
        flow.model().children.len() == 0,
        run.call.node_idx < input.nodes@.len(),
        run.containing == crate::layout_model::containing_inside(run.call, *style),
        run.inner == (Size { width: sizes.inner_width, height: sizes.inner_height }),
        run.fill == (run.call.allow_fill && !(style.display is InlineBlock) && !(style.display
            is Inline)),
        run.font_size == style.font_size,
    ensures
        final(state).wf(),
        r is Ok ==> old(state)@.boxes.len() <= final(state)@.boxes.len(),
        same_inside(
            r,
            final(state)@,
            block_inside(
                *input,
                *answers,
                old(state)@,
                flow.model(),
                run.call,
                *style,
                *sizes,
                *padding,
                specified_height,
                fuel as nat,
            ),
        ),
    decreases fuel, 8int,
{
    let mut flow = flow;
    let facts = get_child_facts(input, &input.nodes[run.call.node_idx].children);
    let items = children_where(&facts, false);
    let free = children_where(&facts, true);
    match layout_block_children(state, &mut flow, input, answers, run, &items, fuel) {
        Err(stop) => {
            return Err(stop);
        },
        Ok(_) => {},
    }
    match add_block_text(
        state,
        &mut flow,
        input,
        answers,
        &run.call,
        style,
        items.len() == 0,
    ) {
        Err(stop) => {
            return Err(stop);
        },
        Ok(_) => {},
    }
    finish_block(
        state,
        flow,
        input,
        answers,
        run,
        style,
        sizes,
        padding,
        specified_height,
        &free,
        fuel,
    )
}

/// Lays out the inside of a block.
pub fn layout_block(
    state: &mut LayoutState,
    input: &LayoutInput,
    answers: &Answers,
    call: &Call,
    style: &LayoutStyle,
    fuel: usize,
) -> (r: Result<Body, Stop>)
    requires
        old(state).wf(),
        call.node_idx < input.nodes@.len(),
    ensures
        final(state).wf(),
        r is Ok ==> old(state)@.boxes.len() <= final(state)@.boxes.len(),
        same_inside(
            r,
            final(state)@,
            block_laid_out(*input, *answers, old(state)@, *call, *style, fuel as nat),
        ),
    decreases fuel, 9int,
{
    let node_idx: usize = call.node_idx;
    let block = get_block(input, &state.sizes, node_idx, style, call.containing);
    let padding = match get_paddings(style, block.1, &input.window) {
        Err(stop) => {
            return Err(stop);
        },
        Ok(padding) => padding,
    };
    let wanted = match get_specified(input, style, &call.forced, block) {
        Err(stop) => {
            return Err(stop);
        },
        Ok(wanted) => wanted,
    };
    let flow = match BlockFlow::new(call.cursor, &padding) {
        None => {
            return Err(Stop::Range);
        },
        Some(flow) => flow,
    };
    state.sizes.set_specified(node_idx, wanted.0, wanted.1);
    let block = get_block(input, &state.sizes, node_idx, style, call.containing);
    let sizes = match get_container(input, style, &call.forced, &call.available, block) {
        Err(stop) => {
            return Err(stop);
        },
        Ok(sizes) => sizes,
    };
    state.sizes.set_content(node_idx, content_size(&sizes));
    assert(state@ =~= sized(old(state)@, node_idx, wanted, sizes));
    if !call.complete {
        match (wanted.0, wanted.1) {
            (Some(height), Some(width)) => {
                if height > 0 && width > 0 {
                    let body = Body { width, height, content_height: height, children: Vec::new() };
                    assert(body@ =~= fixed_body(wanted));
                    return Ok(body);
                }
            },
            _ => {},
        }
    }
    let containing: usize = open_if_positioned(state, call, style);
    let run = Run {
        call: *call,
        containing,
        inner: Size { width: sizes.inner_width, height: sizes.inner_height },
        fill: call.allow_fill && style.display != StyleDisplay::InlineBlock && style.display
            != StyleDisplay::Inline,
        font_size: style.font_size,
    };
    layout_block_inside(
        state,
        flow,
        input,
        answers,
        &run,
        style,
        &sizes,
        &padding,
        wanted.0,
        fuel,
    )
}

/// Lays out a flex item to learn its size.
fn measure_flex_item(
    state: &mut LayoutState,
    bases: &mut Vec<FlexBase>,
    input: &LayoutInput,
    answers: &Answers,
    run: &Run,
    style: &LayoutStyle,
    sizes: &ContainerSizes,
    definite: bool,
    item: usize,
    fuel: usize,
) -> (r: Result<(), Stop>)
    requires
        old(state).wf(),
        forall|i: int| 0 <= i < old(bases)@.len() ==> (#[trigger] old(bases)@[i]).wf(),
    ensures
        final(state).wf(),
        r is Ok ==> old(state)@.boxes.len() <= final(state)@.boxes.len(),
        r is Ok ==> forall|i: int|
            0 <= i < final(bases)@.len() ==> (#[trigger] final(bases)@[i]).wf(),
        match (
            r,
            flex_base(
                *input,
                *answers,
                old(state)@,
                old(bases)@,
                *run,
                *style,
                *sizes,
                definite,
                item,
                fuel as nat,
            ),
        ) {
            (Ok(_), Ok(after)) => final(state)@ == after.0 && final(bases)@ == after.1,
            (Err(stop), Err(reason)) => stop == reason,
            _ => false,
        },
    decreases fuel, 4int,
{
    let child = match input.style_of(item) {
        None => {
            return Err(Stop::NoStyle);
        },
        Some(child) => child,
    };
    let edges = match get_margins(child, &run.inner, &input.window) {
        Err(stop) => {
            return Err(stop);
        },
        Ok(edges) => edges,
    };
    let basis = match resolve_flex_basis(
        child,
        style.flex_direction,
        sizes,
        definite,
        &input.window,
    ) {
        Err(stop) => {
            return Err(stop);
        },
        Ok(basis) => basis,
    };
    let (sum, forced): (Option<i32>, OptionalSize) = match style.flex_direction {
        StyleFlexDirection::Row => (
            edges.left.checked_add(edges.right),
            OptionalSize { width: basis, height: None },
        ),
        StyleFlexDirection::Column => (
            edges.top.checked_add(edges.bottom),
            OptionalSize { width: None, height: basis },
        ),
    };
    let margin: i32 = match sum {
        None => {
            return Err(Stop::Range);
        },
        Some(margin) => margin,
    };
    let call = Call {
        node_idx: item,
        cursor: Position { x: 0, y: 0 },
        available: run.inner,
        forced,
        containing: run.containing,
        allow_fill: false,
        save: false,
        complete: false,
    };
    match layout_node(state, input, answers, &call, fuel) {
        Err(stop) => Err(stop),
        Ok(None) => Ok(()),
        Ok(Some(id)) => {
            let rect = state.rect_of(id);
            match measure_item(
                style,
                child,
                item,
                run.call.allow_fill,
                sizes,
                &input.window,
                margin,
                rect.width,
                rect.height,
            ) {
                Err(stop) => Err(stop),
                Ok(base) => {
                    bases.push(base);
                    Ok(())
                },
            }
        },
    }
}

/// Lays out the items of a flex container to learn their sizes.
fn measure_flex_items(
    state: &mut LayoutState,
    input: &LayoutInput,
    answers: &Answers,
    run: &Run,
    style: &LayoutStyle,
    sizes: &ContainerSizes,
    definite: bool,
    items: &Vec<usize>,
    fuel: usize,
) -> (r: Result<Vec<FlexBase>, Stop>)
    requires
        old(state).wf(),
    ensures
        final(state).wf(),
        r is Ok ==> old(state)@.boxes.len() <= final(state)@.boxes.len(),
        r matches Ok(bases) ==> forall|i: int|
            0 <= i < bases@.len() ==> (#[trigger] bases@[i]).wf(),
        match (
            r,
            flex_bases(
                *input,
                *answers,
                old(state)@,
                Seq::empty(),
                *run,
                *style,
                *sizes,
                definite,
                items@,
                0,
                fuel as nat,
            ),
        ) {
            (Ok(bases), Ok(after)) => final(state)@ == after.0 && bases@ == after.1,
            (Err(stop), Err(reason)) => stop == reason,
            _ => false,
        },
    decreases fuel, 5int,
{
    let ghost before = state@;
    let mut bases: Vec<FlexBase> = Vec::new();
    assert(bases@ =~= Seq::empty());
    let mut at: usize = 0;
    while at < items.len()
        invariant
            at <= items@.len(),
            state.wf(),
            forall|i: int| 0 <= i < bases@.len() ==> (#[trigger] bases@[i]).wf(),
            before == old(state)@,
            before.boxes.len() <= state@.boxes.len(),
            flex_bases(
                *input,
                *answers,
                before,
                Seq::empty(),
                *run,
                *style,
                *sizes,
                definite,
                items@,
                0,
                fuel as nat,
            ) == flex_bases(
                *input,
                *answers,
                state@,
                bases@,
                *run,
                *style,
                *sizes,
                definite,
                items@,
                at as int,
                fuel as nat,
            ),
        decreases items@.len() - at,
    {
        match measure_flex_item(
            state,
            &mut bases,
            input,
            answers,
            run,
            style,
            sizes,
            definite,
            items[at],
            fuel,
        ) {
            Err(stop) => {
                return Err(stop);
            },
            Ok(_) => {},
        }
        at = at + 1;
    }
    Ok(bases)
}

/// The sizes that the items of a flex container get, and how its main axis is used.
struct FlexPlanned {
    targets: Vec<FlexTarget>,
    start: u32,
    gap: u32,
    definite_cross: bool,
    row_cross: i64,
}

impl FlexPlanned {
    spec fn model(self) -> FlexSizes {
        FlexSizes {
            targets: self.targets@,
            start: self.start,
            gap: self.gap,
            definite_cross: self.definite_cross,
            row_cross: self.row_cross as int,
        }
    }
}

fn get_outer_sizes(targets: &Vec<FlexTarget>) -> (r: Vec<u32>)
    ensures
        r@ == outer_sizes(targets@),
{
    let mut sizes: Vec<u32> = Vec::new();
    let mut at: usize = 0;
    while at < targets.len()
        invariant
            at <= targets@.len(),
            sizes@ =~= outer_sizes(targets@).take(at as int),
        decreases targets@.len() - at,
    {
        sizes.push(targets[at].outer);
        at = at + 1;
    }
    assert(sizes@ =~= outer_sizes(targets@));
    sizes
}

/// Works out the sizes of the items of a flex container.
fn plan_flex_items(
    input: &LayoutInput,
    answers: &Answers,
    style: &LayoutStyle,
    sizes: &ContainerSizes,
    allow_fill: bool,
    definite: bool,
    bases: &Vec<FlexBase>,
) -> (r: Result<FlexPlanned, Stop>)
    requires
        forall|i: int| 0 <= i < bases@.len() ==> (#[trigger] bases@[i]).wf(),
    ensures
        match (r, flex_sized(*input, *answers, *style, *sizes, allow_fill, definite, bases@)) {
            (Ok(planned), Ok(model)) => planned.model() == model && planned.targets@.len()
                == bases@.len(),
            (Err(stop), Err(reason)) => stop == reason,
            _ => false,
        },
{
    let direction = style.flex_direction;
    let distributes = distributes_main_space(
        direction,
        sizes,
        allow_fill,
        definite,
        style.display == StyleDisplay::InlineFlex,
    );
    let total: i64 = match total_outer(bases) {
        None => {
            return Err(Stop::Range);
        },
        Some(total) => total,
    };
    let available: u32 = match direction {
        StyleFlexDirection::Row => sizes.inner_width,
        StyleFlexDirection::Column => if definite {
            sizes.inner_height
        } else {
            to_u32(total)
        },
    };
    let plan = match plan_main_sizes(bases, total, available, distributes) {
        None => {
            return Err(Stop::Range);
        },
        Some(plan) => plan,
    };
    let targets = match get_targets(answers, plan, bases) {
        Err(stop) => {
            return Err(stop);
        },
        Ok(targets) => targets,
    };
    let gap: i32 = match get_length_or_zero(
        &style.gap,
        style.font_size,
        Some(available),
        &input.window,
    ) {
        Err(stop) => {
            return Err(stop);
        },
        Ok(gap) => gap,
    };
    let outers = get_outer_sizes(&targets);
    let free: u32 = match main_free_space(direction, &outers, gap, sizes, distributes) {
        None => {
            return Err(Stop::Range);
        },
        Some(free) => free,
    };
    let count: usize = bases.len();
    if count >= u32::MAX as usize {
        return Err(Stop::Range);
    }
    let (start, between) = justify_content(style.justify_content, free, count);
    match between.checked_add(gap as u32) {
        None => Err(Stop::Range),
        Some(gap) => Ok(
            FlexPlanned {
                targets,
                start,
                gap,
                definite_cross: stretches_any(bases),
                row_cross: largest_cross(bases),
            },
        ),
    }
}

/// Puts an item that was laid out in its place in the line.
fn place_in_line(
    state: &mut LayoutState,
    line: &mut FlexLine,
    run: &Run,
    style: &LayoutStyle,
    child: &LayoutStyle,
    sizes: &ContainerSizes,
    definite: bool,
    id: usize,
    edges: Edges,
    last: bool,
) -> (r: Result<(), Stop>)
    requires
        old(state).wf(),
        old(line).wf(),
        1 <= id <= old(state)@.boxes.len(),
        old(line).model().direction == style.flex_direction,
        lines_all_boxes(old(line).model().lines, old(state)@.boxes.len()),
        all_boxes(old(line).model().children, old(state)@.boxes.len()),
    ensures
        final(state).wf(),
        r is Ok ==> old(state)@.boxes.len() <= final(state)@.boxes.len(),
        final(line).wf(),
        r is Ok ==> final(line).model().direction == style.flex_direction,
        final(state)@.boxes.len() == old(state)@.boxes.len(),
        r is Ok ==> lines_all_boxes(final(line).model().lines, final(state)@.boxes.len()),
        r is Ok ==> all_boxes(final(line).model().children, final(state)@.boxes.len()),
        match (
            r,
            flex_item_placed(
                old(state)@,
                old(line).model(),
                *run,
                *style,
                *child,
                *sizes,
                definite,
                id,
                edges,
                last,
            ),
        ) {
            (Ok(_), Ok(after)) => final(state)@ == after.0 && final(line).model() == after.1,
            (Err(stop), Err(reason)) => stop == reason,
            _ => false,
        },
{
    let rect = state.rect_of(id);
    let item = FlexPlaced {
        id,
        width: rect.width,
        height: rect.height,
        margins: edges,
        last,
    };
    proof {
        lemma_new_row_of_boxes(line.model().lines, id, state@.boxes.len());
        lemma_last_row_of_boxes(line.model().lines, id, state@.boxes.len());
    }
    let used: u32 = match line.used_cross(&item) {
        None => {
            return Err(Stop::Range);
        },
        Some(used) => used,
    };
    let offset: u32 = calculate_cross_offset(
        style.flex_direction,
        child.align_self,
        style.align_items,
        used,
        definite,
        run.call.allow_fill,
        sizes,
    );
    let (dx, dy) = match line.add_item(&item, offset) {
        None => {
            return Err(Stop::Range);
        },
        Some(movement) => movement,
    };
    state.move_box(id, dx, dy)
}

/// Lays out one item of a flex container for good.
fn layout_flex_item(
    state: &mut LayoutState,
    line: &mut FlexLine,
    input: &LayoutInput,
    answers: &Answers,
    run: &Run,
    style: &LayoutStyle,
    sizes: &ContainerSizes,
    definite: bool,
    bases: &Vec<FlexBase>,
    planned: &FlexPlanned,
    at: usize,
    fuel: usize,
) -> (r: Result<(), Stop>)
    requires
        old(state).wf(),
        old(line).wf(),
        at < bases@.len(),
        planned.targets@.len() == bases@.len(),
        old(line).model().direction == style.flex_direction,
        lines_all_boxes(old(line).model().lines, old(state)@.boxes.len()),
        all_boxes(old(line).model().children, old(state)@.boxes.len()),
    ensures
        final(state).wf(),
        r is Ok ==> old(state)@.boxes.len() <= final(state)@.boxes.len(),
        final(line).wf(),
        r is Ok ==> final(line).model().direction == style.flex_direction,
        r is Ok ==> lines_all_boxes(final(line).model().lines, final(state)@.boxes.len()),
        r is Ok ==> all_boxes(final(line).model().children, final(state)@.boxes.len()),
        match (
            r,
            flex_place(
                *input,
                *answers,
                old(state)@,
                old(line).model(),
                *run,
                *style,
                *sizes,
                definite,
                bases@,
                planned.model(),
                at as int,
                fuel as nat,
            ),
        ) {
            (Ok(_), Ok(after)) => final(state)@ == after.0 && final(line).model() == after.1,
            (Err(stop), Err(reason)) => stop == reason,
            _ => false,
        },
    decreases fuel, 4int,
{
    let base = bases[at];
    let child = match input.style_of(base.node_idx) {
        None => {
            return Err(Stop::NoStyle);
        },
        Some(child) => child,
    };
    let edges = match get_margins(child, &run.call.available, &input.window) {
        Err(stop) => {
            return Err(stop);
        },
        Ok(edges) => edges,
    };
    let cursor = match line.place(&edges) {
        None => {
            return Err(Stop::Range);
        },
        Some(cursor) => cursor,
    };
    let (available, forced) = get_item_sizes(
        style,
        sizes,
        definite,
        &base,
        planned.targets[at],
        planned,
    );
    let call = Call {
        node_idx: base.node_idx,
        cursor,
        available,
        forced,
        containing: run.containing,
        allow_fill: run.fill,
        save: run.call.save,
        complete: run.call.complete,
    };
    let ghost before = state@.boxes.len();
    match layout_node(state, input, answers, &call, fuel) {
        Err(stop) => Err(stop),
        Ok(None) => {
            proof {
                lemma_more_boxes(
                    line.model().lines,
                    line.model().children,
                    before,
                    state@.boxes.len(),
                );
            }
            Ok(())
        },
        Ok(Some(id)) => {
            proof {
                lemma_more_boxes(
                    line.model().lines,
                    line.model().children,
                    before,
                    state@.boxes.len(),
                );
            }
            let last = at == bases.len() - 1;
            place_in_line(state, line, run, style, child, sizes, definite, id, edges, last)
        },
    }
}

fn get_item_sizes(
    style: &LayoutStyle,
    sizes: &ContainerSizes,
    definite: bool,
    base: &FlexBase,
    target: FlexTarget,
    planned: &FlexPlanned,
) -> (r: (Size, OptionalSize))
    ensures
        r == item_sizes(*style, *sizes, definite, *base, target, planned.model()),
{
    let across: u32 = match style.flex_direction {
        StyleFlexDirection::Row => sizes.inner_height,
        StyleFlexDirection::Column => sizes.inner_width,
    };
    let cross = if planned.definite_cross {
        Some(get_cross_size(base, style.flex_direction, definite, across, planned.row_cross))
    } else {
        None
    };
    match style.flex_direction {
        StyleFlexDirection::Row => (
            Size { width: target.size, height: sizes.inner_height },
            OptionalSize { width: Some(target.size), height: cross },
        ),
        StyleFlexDirection::Column => (
            Size { width: sizes.inner_width, height: target.size },
            OptionalSize {
                width: cross,
                height: if definite {
                    Some(target.size)
                } else {
                    None
                },
            },
        ),
    }
}

/// Lays out the items of a flex container for good.
fn layout_flex_items(
    state: &mut LayoutState,
    line: &mut FlexLine,
    input: &LayoutInput,
    answers: &Answers,
    run: &Run,
    style: &LayoutStyle,
    sizes: &ContainerSizes,
    definite: bool,
    bases: &Vec<FlexBase>,
    planned: &FlexPlanned,
    fuel: usize,
) -> (r: Result<(), Stop>)
    requires
        old(state).wf(),
        old(line).wf(),
        planned.targets@.len() == bases@.len(),
        old(line).model().direction == style.flex_direction,
        lines_all_boxes(old(line).model().lines, old(state)@.boxes.len()),
        all_boxes(old(line).model().children, old(state)@.boxes.len()),
    ensures
        final(state).wf(),
        r is Ok ==> old(state)@.boxes.len() <= final(state)@.boxes.len(),
        final(line).wf(),
        r is Ok ==> lines_all_boxes(final(line).model().lines, final(state)@.boxes.len()),
        r is Ok ==> all_boxes(final(line).model().children, final(state)@.boxes.len()),
        match (
            r,
            flex_places(
                *input,
                *answers,
                old(state)@,
                old(line).model(),
                *run,
                *style,
                *sizes,
                definite,
                bases@,
                planned.model(),
                0,
                fuel as nat,
            ),
        ) {
            (Ok(_), Ok(after)) => final(state)@ == after.0 && final(line).model() == after.1,
            (Err(stop), Err(reason)) => stop == reason,
            _ => false,
        },
    decreases fuel, 5int,
{
    let ghost before = state@;
    let ghost begun = line.model();
    let mut at: usize = 0;
    while at < bases.len()
        invariant
            at <= bases@.len(),
            state.wf(),
            line.wf(),
            planned.targets@.len() == bases@.len(),
            line.model().direction == style.flex_direction,
            lines_all_boxes(line.model().lines, state@.boxes.len()),
            all_boxes(line.model().children, state@.boxes.len()),
            before == old(state)@,
            before.boxes.len() <= state@.boxes.len(),
            begun == old(line).model(),
            flex_places(
                *input,
                *answers,
                before,
                begun,
                *run,
                *style,
                *sizes,
                definite,
                bases@,
                planned.model(),
                0,
                fuel as nat,
            ) == flex_places(
                *input,
                *answers,
                state@,
                line.model(),
                *run,
                *style,
                *sizes,
                definite,
                bases@,
                planned.model(),
                at as int,
                fuel as nat,
            ),
        decreases bases@.len() - at,
    {
        match layout_flex_item(
            state,
            line,
            input,
            answers,
            run,
            style,
            sizes,
            definite,
            bases,
            planned,
            at,
            fuel,
        ) {
            Err(stop) => {
                return Err(stop);
            },
            Ok(_) => {},
        }
        at = at + 1;
    }
    Ok(())
}

/// A child of a flex container out of the flow, with the place that it would have had in it.
fn get_flex_waiter(
    state: &LayoutState,
    input: &LayoutInput,
    run: &Run,
    style: &LayoutStyle,
    padding: &Edges,
    height: u32,
    node_idx: usize,
) -> (r: Result<ResumableNode, Stop>)
    requires
        in_i32(run.call.cursor.x + padding.left),
        in_i32(run.call.cursor.y + padding.top),
    ensures
        r == flex_waiter(*input, state@, *run, *style, *padding, height, node_idx),
{
    let child = match input.style_of(node_idx) {
        None => {
            return Err(Stop::NoStyle);
        },
        Some(child) => child,
    };
    if child.position != StylePosition::Absolute {
        return Ok(ResumableNode { node_idx, static_position_offset: None });
    }
    match state.containing_of(run.containing) {
        None => Ok(ResumableNode { node_idx, static_position_offset: None }),
        Some((cursor, _)) => {
            let origin = Position {
                x: run.call.cursor.x + padding.left,
                y: run.call.cursor.y + padding.top,
            };
            match static_position_offset(
                style.flex_direction,
                style.justify_content,
                origin,
                cursor,
                height,
                padding,
            ) {
                None => Err(Stop::Range),
                Some(place) => Ok(
                    ResumableNode { node_idx, static_position_offset: Some(place) },
                ),
            }
        },
    }
}

/// The children of a flex container out of the flow.
fn list_flex_waiting(
    state: &LayoutState,
    input: &LayoutInput,
    run: &Run,
    style: &LayoutStyle,
    padding: &Edges,
    height: u32,
    free: &Vec<usize>,
) -> (r: Result<Vec<ResumableNode>, Stop>)
    requires
        in_i32(run.call.cursor.x + padding.left),
        in_i32(run.call.cursor.y + padding.top),
    ensures
        match (
            r,
            flex_waiting(
                *input,
                state@,
                *run,
                *style,
                *padding,
                height,
                free@,
                0,
                Seq::empty(),
            ),
        ) {
            (Ok(list), Ok(model)) => list@ == model,
            (Err(stop), Err(reason)) => stop == reason,
            _ => false,
        },
{
    let mut list: Vec<ResumableNode> = Vec::new();
    assert(list@ =~= Seq::empty());
    let mut at: usize = 0;
    while at < free.len()
        invariant
            at <= free@.len(),
            in_i32(run.call.cursor.x + padding.left),
            in_i32(run.call.cursor.y + padding.top),
            flex_waiting(
                *input,
                state@,
                *run,
                *style,
                *padding,
                height,
                free@,
                0,
                Seq::empty(),
            ) == flex_waiting(
                *input,
                state@,
                *run,
                *style,
                *padding,
                height,
                free@,
                at as int,
                list@,
            ),
        decreases free@.len() - at,
    {
        match get_flex_waiter(state, input, run, style, padding, height, free[at]) {
            Err(stop) => {
                return Err(stop);
            },
            Ok(waiter) => {
                list.push(waiter);
            },
        }
        at = at + 1;
    }
    Ok(list)
}

/// Finishes a flex container whose items are placed.
fn finish_flex(
    state: &mut LayoutState,
    line: FlexLine,
    input: &LayoutInput,
    answers: &Answers,
    run: &Run,
    style: &LayoutStyle,
    sizes: &ContainerSizes,
    padding: &Edges,
    specified_height: Option<u32>,
    free: &Vec<usize>,
    fuel: usize,
) -> (r: Result<Body, Stop>)
    requires
        old(state).wf(),
        line.wf(),
        in_i32(run.call.cursor.x + padding.left),
        in_i32(run.call.cursor.y + padding.top),
        lines_all_boxes(line.model().lines, old(state)@.boxes.len()),
        all_boxes(line.model().children, old(state)@.boxes.len()),
    ensures
        final(state).wf(),
        r is Ok ==> old(state)@.boxes.len() <= final(state)@.boxes.len(),
        same_inside(
            r,
            final(state)@,
            flex_finished(
                *input,
                *answers,
                old(state)@,
                line.model(),
                *run,
                *style,
                *sizes,
                *padding,
                specified_height,
                free@,
                fuel as nat,
            ),
        ),
    decreases fuel, 7int,
{
    let fills = run.call.allow_fill && style.display != StyleDisplay::InlineFlex;
    let size = match line.finish(specified_height, sizes, padding, fills) {
        None => {
            return Err(Stop::Range);
        },
        Some(size) => size,
    };
    let (room, free_y) = match get_free_room(
        size.width,
        padding,
        sizes.inner_height,
        size.content_height,
    ) {
        None => {
            return Err(Stop::Range);
        },
        Some(found) => found,
    };
    match state.divide(&line.rows, room, free_y) {
        Err(stop) => {
            return Err(stop);
        },
        Ok(_) => {},
    }
    state.sizes.set_resolved(run.call.node_idx, Some(size.height), Some(size.width));
    let list = match list_flex_waiting(state, input, run, style, padding, size.height, free) {
        Err(stop) => {
            return Err(stop);
        },
        Ok(list) => list,
    };
    let mut children = line.children;
    let outer = Size { width: size.width, height: size.height };
    match close_node(state, input, answers, run, &list, &outer, &mut children, fuel) {
        Err(stop) => {
            return Err(stop);
        },
        Ok(_) => {},
    }
    Ok(
        Body {
            width: size.width,
            height: size.height,
            content_height: size.content_height,
            children,
        },
    )
}

fn are_styled(input: &LayoutInput, children: &Vec<usize>) -> (r: bool)
    ensures
        r == all_styled(*input, children@),
{
    let mut at: usize = 0;
    while at < children.len()
        invariant
            at <= children@.len(),
            forall|i: int| 0 <= i < at ==> input.style(#[trigger] children@[i]) is Some,
        decreases children@.len() - at,
    {
        match input.style_of(children[at]) {
            None => {
                assert(input.style(children@[at as int]) is None);
                return false;
            },
            Some(_) => {},
        }
        at = at + 1;
    }
    true
}

/// Puts the text of a form control in a flex container without items.
fn add_flex_text(
    state: &mut LayoutState,
    input: &LayoutInput,
    answers: &Answers,
    call: &Call,
    style: &LayoutStyle,
    padding: &Edges,
    childless: bool,
) -> (r: Result<Vec<usize>, Stop>)
    requires
        old(state).wf(),
        call.node_idx < input.nodes@.len(),
        in_i32(call.cursor.x + padding.left),
        in_i32(call.cursor.y + padding.top),
    ensures
        final(state).wf(),
        r is Ok ==> old(state)@.boxes.len() <= final(state)@.boxes.len(),
        match (
            r,
            flex_text(*input, *answers, old(state)@, *call, *style, *padding, childless),
        ) {
            (Ok(texts), Ok(after)) => final(state)@ == after.0 && texts@ == after.1 && all_boxes(
                texts@,
                final(state)@.boxes.len(),
            ),
            (Err(stop), Err(reason)) => stop == reason,
            _ => false,
        },
{
    let mut texts: Vec<usize> = Vec::new();
    assert(texts@ =~= Seq::empty());
    if !childless {
        return Ok(texts);
    }
    match input.nodes[call.node_idx].shape {
        Shape::Element(InputValue::Blank) => {
            return Err(Stop::InputText);
        },
        Shape::Element(InputValue::Given) => {},
        _ => {
            return Ok(texts);
        },
    }
    let origin = Position {
        x: call.cursor.x + padding.left,
        y: call.cursor.y + padding.top,
    };
    match create_input_text_box(state, answers, call, style, origin) {
        Err(stop) => Err(stop),
        Ok(None) => Ok(texts),
        Ok(Some(id)) => {
            texts.push(id);
            assert(texts@ =~= seq![id]);
            Ok(texts)
        },
    }
}

/// Lays out the items of a flex container and what comes behind them.
fn layout_flex_inside(
    state: &mut LayoutState,
    input: &LayoutInput,
    answers: &Answers,
    run: &Run,
    style: &LayoutStyle,
    sizes: &ContainerSizes,
    padding: &Edges,
    specified_height: Option<u32>,
    fuel: usize,
) -> (r: Result<Body, Stop>)
    requires
        old(state).wf(),
        run.call.node_idx < input.nodes@.len(),
        in_i32(run.call.cursor.x + padding.left),
        in_i32(run.call.cursor.y + padding.top),
        run.containing == crate::layout_model::containing_inside(run.call, *style),
        run.inner == (Size { width: sizes.inner_width, height: sizes.inner_height }),
        run.fill == run.call.allow_fill,
        run.font_size == style.font_size,
    ensures
        final(state).wf(),
        r is Ok ==> old(state)@.boxes.len() <= final(state)@.boxes.len(),
        same_inside(
            r,
            final(state)@,
            flex_inside(
                *input,
                *answers,
                old(state)@,
                run.call,
                *style,
                *sizes,
                *padding,
                specified_height,
                fuel as nat,
            ),
        ),
    decreases fuel, 8int,
{
    let definite = specified_height.is_some();
    let nodes = &input.nodes[run.call.node_idx].children;
    if !are_styled(input, nodes) {
        return Err(Stop::NoStyle);
    }
    let facts = get_child_facts(input, nodes);
    let items = flex_items(&facts);
    let free = children_where(&facts, true);
    let texts = match add_flex_text(
        state,
        input,
        answers,
        &run.call,
        style,
        padding,
        items.len() == 0,
    ) {
        Err(stop) => {
            return Err(stop);
        },
        Ok(texts) => texts,
    };
    let ghost written = state@.boxes.len();
    let bases = match measure_flex_items(
        state,
        input,
        answers,
        run,
        style,
        sizes,
        definite,
        &items,
        fuel,
    ) {
        Err(stop) => {
            return Err(stop);
        },
        Ok(bases) => bases,
    };
    let planned = match plan_flex_items(
        input,
        answers,
        style,
        sizes,
        run.call.allow_fill,
        definite,
        &bases,
    ) {
        Err(stop) => {
            return Err(stop);
        },
        Ok(planned) => planned,
    };
    let mut line = match FlexLine::new(
        style.flex_direction,
        run.call.cursor,
        padding,
        planned.start,
        planned.gap,
    ) {
        None => {
            return Err(Stop::Range);
        },
        Some(line) => line,
    };
    proof {
        lemma_more_boxes(line.model().lines, texts@, written, state@.boxes.len());
    }
    line.children = texts;
    match layout_flex_items(
        state,
        &mut line,
        input,
        answers,
        run,
        style,
        sizes,
        definite,
        &bases,
        &planned,
        fuel,
    ) {
        Err(stop) => {
            return Err(stop);
        },
        Ok(_) => {},
    }
    finish_flex(
        state,
        line,
        input,
        answers,
        run,
        style,
        sizes,
        padding,
        specified_height,
        &free,
        fuel,
    )
}

/// Lays out the inside of a flex container.
pub fn layout_flex(
    state: &mut LayoutState,
    input: &LayoutInput,
    answers: &Answers,
    call: &Call,
    style: &LayoutStyle,
    fuel: usize,
) -> (r: Result<Body, Stop>)
    requires
        old(state).wf(),
        call.node_idx < input.nodes@.len(),
    ensures
        final(state).wf(),
        r is Ok ==> old(state)@.boxes.len() <= final(state)@.boxes.len(),
        same_inside(
            r,
            final(state)@,
            flex_laid_out(*input, *answers, old(state)@, *call, *style, fuel as nat),
        ),
    decreases fuel, 9int,
{
    let node_idx: usize = call.node_idx;
    let block = get_block(input, &state.sizes, node_idx, style, call.containing);
    let padding = match get_paddings(style, block.1, &input.window) {
        Err(stop) => {
            return Err(stop);
        },
        Ok(padding) => padding,
    };
    let sizes = match get_container(input, style, &call.forced, &call.available, block) {
        Err(stop) => {
            return Err(stop);
        },
        Ok(sizes) => sizes,
    };
    let wanted = match get_specified(input, style, &call.forced, block) {
        Err(stop) => {
            return Err(stop);
        },
        Ok(wanted) => wanted,
    };
    match (call.cursor.x.checked_add(padding.left), call.cursor.y.checked_add(padding.top)) {
        (Some(_), Some(_)) => {},
        _ => {
            return Err(Stop::Range);
        },
    }
    state.sizes.set_specified(node_idx, wanted.0, wanted.1);
    state.sizes.set_content(node_idx, content_size(&sizes));
    assert(state@ =~= sized(old(state)@, node_idx, wanted, sizes));
    if !call.complete {
        match (wanted.0, wanted.1) {
            (Some(height), Some(width)) => {
                let body = Body { width, height, content_height: height, children: Vec::new() };
                assert(body@ =~= fixed_body(wanted));
                return Ok(body);
            },
            _ => {},
        }
    }
    let containing: usize = open_if_positioned(state, call, style);
    let run = Run {
        call: *call,
        containing,
        inner: Size { width: sizes.inner_width, height: sizes.inner_height },
        fill: call.allow_fill,
        font_size: style.font_size,
    };
    layout_flex_inside(state, input, answers, &run, style, &sizes, &padding, wanted.0, fuel)
}

/// Lays out a grid item to learn its size, and gives it a cell.
fn measure_grid_item(
    state: &mut LayoutState,
    placer: &mut GridPlacer,
    input: &LayoutInput,
    answers: &Answers,
    run: &Run,
    origin: Position,
    item: usize,
    fuel: usize,
) -> (r: Result<(), Stop>)
    requires
        old(state).wf(),
        old(placer).wf(),
    ensures
        final(state).wf(),
        r is Ok ==> old(state)@.boxes.len() <= final(state)@.boxes.len(),
        final(placer).wf(),
        match (
            r,
            grid_base(
                *input,
                *answers,
                old(state)@,
                old(placer).model(),
                *run,
                origin,
                item,
                fuel as nat,
            ),
        ) {
            (Ok(_), Ok(after)) => final(state)@ == after.0 && final(placer).model() == after.1,
            (Err(stop), Err(reason)) => stop == reason,
            _ => false,
        },
    decreases fuel, 4int,
{
    let style = match input.style_of(item) {
        None => {
            return Err(Stop::NoStyle);
        },
        Some(style) => style,
    };
    let span: i32 = style.grid_column_span.max(1);
    if !placer.next_cell(span) {
        return Err(Stop::Range);
    }
    let call = Call {
        node_idx: item,
        cursor: origin,
        available: run.inner,
        forced: OptionalSize { width: None, height: None },
        containing: run.containing,
        allow_fill: false,
        save: false,
        complete: false,
    };
    match layout_node(state, input, answers, &call, fuel) {
        Err(stop) => Err(stop),
        Ok(None) => Ok(()),
        Ok(Some(id)) => {
            let rect = state.rect_of(id);
            if placer.add_item(item, span, rect.width, rect.height) {
                Ok(())
            } else {
                Err(Stop::Range)
            }
        },
    }
}

/// Lays out the items of a grid to learn their sizes, and gives them cells.
fn measure_grid_items(
    state: &mut LayoutState,
    placer: &mut GridPlacer,
    input: &LayoutInput,
    answers: &Answers,
    run: &Run,
    origin: Position,
    items: &Vec<usize>,
    fuel: usize,
) -> (r: Result<(), Stop>)
    requires
        old(state).wf(),
        old(placer).wf(),
    ensures
        final(state).wf(),
        r is Ok ==> old(state)@.boxes.len() <= final(state)@.boxes.len(),
        final(placer).wf(),
        match (
            r,
            grid_bases(
                *input,
                *answers,
                old(state)@,
                old(placer).model(),
                *run,
                origin,
                items@,
                0,
                fuel as nat,
            ),
        ) {
            (Ok(_), Ok(after)) => final(state)@ == after.0 && final(placer).model() == after.1,
            (Err(stop), Err(reason)) => stop == reason,
            _ => false,
        },
    decreases fuel, 5int,
{
    let ghost before = state@;
    let ghost begun = placer.model();
    let mut at: usize = 0;
    while at < items.len()
        invariant
            at <= items@.len(),
            state.wf(),
            placer.wf(),
            before == old(state)@,
            before.boxes.len() <= state@.boxes.len(),
            begun == old(placer).model(),
            grid_bases(
                *input,
                *answers,
                before,
                begun,
                *run,
                origin,
                items@,
                0,
                fuel as nat,
            ) == grid_bases(
                *input,
                *answers,
                state@,
                placer.model(),
                *run,
                origin,
                items@,
                at as int,
                fuel as nat,
            ),
        decreases items@.len() - at,
    {
        match measure_grid_item(state, placer, input, answers, run, origin, items[at], fuel) {
            Err(stop) => {
                return Err(stop);
            },
            Ok(_) => {},
        }
        at = at + 1;
    }
    Ok(())
}

/// Works out the sizes of the cells of a grid.
fn size_grid_cells(answers: &Answers, placer: &GridPlacer, columns: GridAxis, rows: GridAxis) -> (r:
    Result<Vec<GridBaseItem>, Stop>)
    requires
        placer.wf(),
        columns.wf(),
        rows.wf(),
    ensures
        match (r, grid_cells(*answers, placer.model(), columns@, rows@)) {
            (Ok(cells), Ok(model)) => cells@ == model,
            (Err(stop), Err(reason)) => stop == reason,
            _ => false,
        },
{
    proof {
        assert forall|i: int| 0 <= i < placer.items@.len() implies 0 <= (
        #[trigger] placer.items@[i]).column < placer.column_count || false by {
            assert(placer.model().items[i] == placer.items@[i]);
        }
        assert forall|i: int| 0 <= i < placer.items@.len() implies 0 <= (
        #[trigger] placer.items@[i]).row < placer.row_count || false by {
            assert(placer.model().items[i] == placer.items@[i]);
        }
    }
    let widths = largest_sizes(&placer.items, placer.column_count, true);
    let heights = largest_sizes(&placer.items, placer.row_count, false);
    assert(widths@ =~= line_sizes(placer.model(), true));
    assert(heights@ =~= line_sizes(placer.model(), false));
    let columns = match columns.measure(answers, widths) {
        Err(stop) => {
            return Err(stop);
        },
        Ok(columns) => columns,
    };
    let rows = match rows.measure(answers, heights) {
        Err(stop) => {
            return Err(stop);
        },
        Ok(rows) => rows,
    };
    proof {
        assert(columns@.largest.len() == placer.column_count);
        assert(rows@.largest.len() == placer.row_count);
        assert forall|i: int| 0 <= i < placer.items@.len() implies {
            &&& 0 <= (#[trigger] placer.items@[i]).column
            &&& 1 <= placer.items@[i].column_span
            &&& placer.items@[i].column + placer.items@[i].column_span <= columns.largest@.len()
            &&& 0 <= placer.items@[i].row < rows.largest@.len()
        } by {
            assert(placer.model().items[i] == placer.items@[i]);
        }
    }
    match size_cells(&placer.items, &columns, &rows) {
        None => if columns.lacks_size() || rows.lacks_size() {
            Err(Stop::Template)
        } else {
            Err(Stop::Range)
        },
        Some(cells) => Ok(cells),
    }
}

/// Lays out one item of a grid in its cell.
fn layout_grid_item(
    state: &mut LayoutState,
    grid: &mut GridFlow,
    input: &LayoutInput,
    answers: &Answers,
    run: &Run,
    style: &LayoutStyle,
    item: &GridBaseItem,
    fuel: usize,
) -> (r: Result<(), Stop>)
    requires
        old(state).wf(),
        all_boxes(old(grid).model().children, old(state)@.boxes.len()),
    ensures
        final(state).wf(),
        r is Ok ==> old(state)@.boxes.len() <= final(state)@.boxes.len(),
        r is Ok ==> all_boxes(final(grid).model().children, final(state)@.boxes.len()),
        match (
            r,
            grid_place(
                *input,
                *answers,
                old(state)@,
                old(grid).model(),
                *run,
                *style,
                *item,
                fuel as nat,
            ),
        ) {
            (Ok(_), Ok(after)) => final(state)@ == after.0 && final(grid).model() == after.1,
            (Err(stop), Err(reason)) => stop == reason,
            _ => false,
        },
    decreases fuel, 4int,
{
    let child = match input.style_of(item.node_idx) {
        None => {
            return Err(Stop::NoStyle);
        },
        Some(child) => child,
    };
    let cell = CellStyle {
        justify_items: style.justify_items,
        align_items: style.align_items,
        has_row_template: style.grid_template_rows.is_some(),
        width_auto: is_auto(&child.width),
        height_auto: is_auto(&child.height),
    };
    let placement = match grid.place(item, &cell) {
        None => {
            return Err(Stop::Range);
        },
        Some(placement) => placement,
    };
    let call = Call {
        node_idx: item.node_idx,
        cursor: placement.position,
        available: Size { width: item.target_width, height: item.target_height },
        forced: placement.forced_size,
        containing: run.containing,
        allow_fill: run.fill,
        save: run.call.save,
        complete: run.call.complete,
    };
    match layout_node(state, input, answers, &call, fuel) {
        Err(stop) => Err(stop),
        Ok(None) => Ok(()),
        Ok(Some(id)) => {
            let rect = state.rect_of(id);
            if grid.add_item(item, id, rect.height) {
                Ok(())
            } else {
                Err(Stop::Range)
            }
        },
    }
}

/// Lays out the items of a grid in their cells.
fn layout_grid_items(
    state: &mut LayoutState,
    grid: &mut GridFlow,
    input: &LayoutInput,
    answers: &Answers,
    run: &Run,
    style: &LayoutStyle,
    items: &Vec<GridBaseItem>,
    fuel: usize,
) -> (r: Result<(), Stop>)
    requires
        old(state).wf(),
        all_boxes(old(grid).model().children, old(state)@.boxes.len()),
    ensures
        final(state).wf(),
        r is Ok ==> old(state)@.boxes.len() <= final(state)@.boxes.len(),
        r is Ok ==> all_boxes(final(grid).model().children, final(state)@.boxes.len()),
        match (
            r,
            grid_places(
                *input,
                *answers,
                old(state)@,
                old(grid).model(),
                *run,
                *style,
                items@,
                0,
                fuel as nat,
            ),
        ) {
            (Ok(_), Ok(after)) => final(state)@ == after.0 && final(grid).model() == after.1,
            (Err(stop), Err(reason)) => stop == reason,
            _ => false,
        },
    decreases fuel, 5int,
{
    let ghost before = state@;
    let ghost begun = grid.model();
    let mut at: usize = 0;
    while at < items.len()
        invariant
            at <= items@.len(),
            state.wf(),
            all_boxes(grid.model().children, state@.boxes.len()),
            before == old(state)@,
            before.boxes.len() <= state@.boxes.len(),
            begun == old(grid).model(),
            grid_places(
                *input,
                *answers,
                before,
                begun,
                *run,
                *style,
                items@,
                0,
                fuel as nat,
            ) == grid_places(
                *input,
                *answers,
                state@,
                grid.model(),
                *run,
                *style,
                items@,
                at as int,
                fuel as nat,
            ),
        decreases items@.len() - at,
    {
        match layout_grid_item(state, grid, input, answers, run, style, &items[at], fuel) {
            Err(stop) => {
                return Err(stop);
            },
            Ok(_) => {},
        }
        at = at + 1;
    }
    Ok(())
}

/// Finishes a grid whose items are in their cells.
fn finish_grid(
    state: &mut LayoutState,
    grid: GridFlow,
    input: &LayoutInput,
    answers: &Answers,
    run: &Run,
    sizes: &ContainerSizes,
    specified_height: Option<u32>,
    free: &Vec<usize>,
    fuel: usize,
) -> (r: Result<Body, Stop>)
    requires
        old(state).wf(),
        all_boxes(grid.model().children, old(state)@.boxes.len()),
    ensures
        final(state).wf(),
        r is Ok ==> old(state)@.boxes.len() <= final(state)@.boxes.len(),
        same_inside(
            r,
            final(state)@,
            grid_finished(
                *input,
                *answers,
                old(state)@,
                grid.model(),
                *run,
                *sizes,
                specified_height,
                free@,
                fuel as nat,
            ),
        ),
    decreases fuel, 7int,
{
    let (width, height, content_height) = match grid.finish(
        specified_height,
        sizes,
        run.call.allow_fill,
    ) {
        None => {
            return Err(Stop::Range);
        },
        Some(size) => size,
    };
    state.sizes.set_resolved(run.call.node_idx, Some(height), Some(width));
    let list = list_waiting(free);
    let mut children = grid.children;
    let outer = Size { width, height };
    match close_node(state, input, answers, run, &list, &outer, &mut children, fuel) {
        Err(stop) => {
            return Err(stop);
        },
        Ok(_) => {},
    }
    Ok(Body { width, height, content_height, children })
}

/// Lays out the items of a grid and what comes behind them.
fn layout_grid_inside(
    state: &mut LayoutState,
    input: &LayoutInput,
    answers: &Answers,
    run: &Run,
    style: &LayoutStyle,
    sizes: &ContainerSizes,
    padding: &Edges,
    specified_height: Option<u32>,
    fuel: usize,
) -> (r: Result<Body, Stop>)
    requires
        old(state).wf(),
        run.call.node_idx < input.nodes@.len(),
        run.containing == crate::layout_model::containing_inside(run.call, *style),
        run.inner == (Size { width: sizes.inner_width, height: sizes.inner_height }),
        run.fill == (run.call.allow_fill && style.justify_items is Stretch),
        run.font_size == style.font_size,
    ensures
        final(state).wf(),
        r is Ok ==> old(state)@.boxes.len() <= final(state)@.boxes.len(),
        same_inside(
            r,
            final(state)@,
            grid_inside(
                *input,
                *answers,
                old(state)@,
                run.call,
                *style,
                *sizes,
                *padding,
                specified_height,
                fuel as nat,
            ),
        ),
    decreases fuel, 8int,
{
    let mut grid = match GridFlow::new(run.call.cursor, padding) {
        None => {
            return Err(Stop::Range);
        },
        Some(grid) => grid,
    };
    let columns = match GridAxis::begin(&style.grid_template_columns, sizes.inner_width) {
        Err(stop) => {
            return Err(stop);
        },
        Ok(columns) => columns,
    };
    let rows = match GridAxis::begin(&style.grid_template_rows, sizes.inner_height) {
        Err(stop) => {
            return Err(stop);
        },
        Ok(rows) => rows,
    };
    let facts = get_child_facts(input, &input.nodes[run.call.node_idx].children);
    let items = children_where(&facts, false);
    let free = children_where(&facts, true);
    let template = if columns.has_template {
        Some(columns.tracks.len())
    } else {
        None
    };
    let mut placer = GridPlacer::new(template);
    let origin = grid.origin;
    match measure_grid_items(state, &mut placer, input, answers, run, origin, &items, fuel) {
        Err(stop) => {
            return Err(stop);
        },
        Ok(_) => {},
    }
    let cells = match size_grid_cells(answers, &placer, columns, rows) {
        Err(stop) => {
            return Err(stop);
        },
        Ok(cells) => cells,
    };
    match layout_grid_items(state, &mut grid, input, answers, run, style, &cells, fuel) {
        Err(stop) => {
            return Err(stop);
        },
        Ok(_) => {},
    }
    finish_grid(state, grid, input, answers, run, sizes, specified_height, &free, fuel)
}

/// Lays out the inside of a grid.
pub fn layout_grid(
    state: &mut LayoutState,
    input: &LayoutInput,
    answers: &Answers,
    call: &Call,
    style: &LayoutStyle,
    fuel: usize,
) -> (r: Result<Body, Stop>)
    requires
        old(state).wf(),
        call.node_idx < input.nodes@.len(),
    ensures
        final(state).wf(),
        r is Ok ==> old(state)@.boxes.len() <= final(state)@.boxes.len(),
        same_inside(
            r,
            final(state)@,
            grid_laid_out(*input, *answers, old(state)@, *call, *style, fuel as nat),
        ),
    decreases fuel, 9int,
{
    let node_idx: usize = call.node_idx;
    let block = get_block(input, &state.sizes, node_idx, style, call.containing);
    let sizes = match get_container(input, style, &call.forced, &call.available, block) {
        Err(stop) => {
            return Err(stop);
        },
        Ok(sizes) => sizes,
    };
    let containing: usize = open_if_positioned(state, call, style);
    let own = get_block(input, &state.sizes, node_idx, style, containing);
    let padding = match get_paddings(style, own.1, &input.window) {
        Err(stop) => {
            return Err(stop);
        },
        Ok(padding) => padding,
    };
    let wanted = match get_specified(input, style, &call.forced, own) {
        Err(stop) => {
            return Err(stop);
        },
        Ok(wanted) => wanted,
    };
    let ghost opened = state@;
    state.sizes.set_specified(node_idx, wanted.0, wanted.1);
    state.sizes.set_content(node_idx, content_size(&sizes));
    assert(state@ =~= sized(opened, node_idx, wanted, sizes));
    let run = Run {
        call: *call,
        containing,
        inner: Size { width: sizes.inner_width, height: sizes.inner_height },
        fill: call.allow_fill && style.justify_items == StyleJustifyContent::Stretch,
        font_size: style.font_size,
    };
    layout_grid_inside(state, input, answers, &run, style, &sizes, &padding, wanted.0, fuel)
}

/// Lays out a node and everything below it. The result is the number of its box, where it has one.
pub fn layout_node(
    state: &mut LayoutState,
    input: &LayoutInput,
    answers: &Answers,
    call: &Call,
    fuel: usize,
) -> (r: Result<Option<usize>, Stop>)
    requires
        old(state).wf(),
    ensures
        final(state).wf(),
        r is Ok ==> old(state)@.boxes.len() <= final(state)@.boxes.len(),
        grown(r, old(state)@, final(state)@),
        same_outcome(
            r,
            final(state)@,
            node_laid_out(*input, *answers, old(state)@, *call, fuel as nat),
        ),
    decreases fuel, 0int,
{
    if fuel == 0 {
        return Err(Stop::Depth);
    }
    let style = match input.style_of(call.node_idx) {
        None => {
            return Err(Stop::NoStyle);
        },
        Some(style) => style,
    };
    if call.complete {
        state.sizes.set_resolved(call.node_idx, None, None);
    }
    match input.nodes[call.node_idx].shape {
        Shape::Comment => {
            return Ok(None);
        },
        Shape::Text => {
            return layout_text(state, answers, call, style);
        },
        Shape::Break | Shape::Element(_) => {},
        _ => {
            return layout_replaced(state, input, answers, call, style);
        },
    }
    let inside = match style.display {
        StyleDisplay::Absent => {
            return Ok(None);
        },
        StyleDisplay::Block | StyleDisplay::InlineBlock | StyleDisplay::Inline => layout_block(
            state,
            input,
            answers,
            call,
            style,
            fuel - 1,
        ),
        StyleDisplay::Flex | StyleDisplay::InlineFlex => layout_flex(
            state,
            input,
            answers,
            call,
            style,
            fuel - 1,
        ),
        StyleDisplay::Grid => layout_grid(state, input, answers, call, style, fuel - 1),
    };
    match inside {
        Err(stop) => Err(stop),
        Ok(body) => finish_element(state, input, answers, call, style, body),
    }
}

/// Lays out the whole document in the given space. The result is the state that layout ends in,
/// and the number of the box of the root, where it has one.
pub fn build_layout(input: &LayoutInput, answers: &Answers, width: u32, height: u32) -> (r: Result<
    (LayoutState, Option<usize>),
    Stop,
>)
    ensures
        match (r, layout_of(*input, *answers, Size { width, height })) {
            (Ok(found), Ok(after)) => {
                &&& found.0.wf()
                &&& found.0@ == after.0
                &&& found.1 == after.1
                &&& found.1 matches Some(id) ==> 1 <= id <= found.0@.boxes.len()
            },
            (Err(stop), Err(reason)) => stop == reason,
            _ => false,
        },
{
    let count: usize = input.nodes.len();
    let origin = Position { x: 0, y: 0 };
    let mut state = LayoutState::new(count);
    state.open_containing(input.root, origin);
    let call = Call {
        node_idx: input.root,
        cursor: origin,
        available: Size { width, height },
        forced: OptionalSize { width: None, height: None },
        containing: input.root,
        allow_fill: true,
        save: true,
        complete: true,
    };
    match layout_node(&mut state, input, answers, &call, count) {
        Err(stop) => Err(stop),
        Ok(id) => Ok((state, id)),
    }
}

} // verus!
