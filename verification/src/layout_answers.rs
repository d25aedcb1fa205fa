//! What layout is told never changes what it has found. It asks only for what it has not been told,
//! and once it comes to an end, telling it more makes no difference.
use vstd::prelude::*;

use crate::flex::items_in_order;
use crate::flex::line_begun;
use crate::flex::line_size;
use crate::flex::nodes_where;
use crate::flex::LineModel;
use crate::flex_sizes::target;
use crate::flex_sizes::target_need;
use crate::flex_sizes::targets_from;
use crate::flex_sizes::FlexBase;
use crate::flex_sizes::FlexPlan;
use crate::flow::block_size;
use crate::flow::flow_begun;
use crate::flow::FlowModel;
use crate::grid::cell_forced_size;
use crate::grid::grid_begun;
use crate::grid::grid_size;
use crate::grid::GridBaseItem;
use crate::grid::GridModel;
use crate::grid::PlacerModel;
use crate::grid_axis::axis_begun;
use crate::grid_axis::fraction_of;
use crate::grid_axis::share_in;
use crate::grid_axis::shares_from;
use crate::grid_axis::AxisModel;
use crate::grid::GridTrack;
use crate::layout_boxes::child_facts;
use crate::layout_boxes::drawn;
use crate::layout_boxes::no_size;
use crate::layout_boxes::replaced_box;
use crate::layout_boxes::text_box;
use crate::layout_boxes::waiter_style;
use crate::layout_boxes::BodyModel;
use crate::layout_boxes::Call;
use crate::layout_model::all_styled;
use crate::layout_model::basis_forced;
use crate::layout_model::block_child;
use crate::layout_model::block_children;
use crate::layout_model::block_finished;
use crate::layout_model::block_inside;
use crate::layout_model::block_laid_out;
use crate::layout_model::block_text;
use crate::layout_model::call_inside;
use crate::layout_model::call_to_measure;
use crate::layout_model::cell_style;
use crate::layout_model::closed;
use crate::layout_model::containing_inside;
use crate::layout_model::finished;
use crate::layout_model::flex_base;
use crate::layout_model::flex_bases;
use crate::layout_model::flex_basis;
use crate::layout_model::flex_finished;
use crate::layout_model::flex_inside;
use crate::layout_model::flex_item_placed;
use crate::layout_model::flex_laid_out;
use crate::layout_model::flex_place;
use crate::layout_model::flex_places;
use crate::layout_model::flex_sized;
use crate::layout_model::flex_text;
use crate::layout_model::flex_waiter;
use crate::layout_model::flex_waiting;
use crate::layout_model::free_room;
use crate::layout_model::grid_base;
use crate::layout_model::grid_bases;
use crate::layout_model::grid_cells;
use crate::layout_model::grid_finished;
use crate::layout_model::grid_inside;
use crate::layout_model::grid_laid_out;
use crate::layout_model::grid_place;
use crate::layout_model::grid_places;
use crate::layout_model::item_sizes;
use crate::layout_model::layout_of;
use crate::layout_model::line_sizes;
use crate::layout_model::node_laid_out;
use crate::layout_model::positioned;
use crate::layout_model::queued_from;
use crate::layout_model::resolved;
use crate::layout_model::sized;
use crate::layout_model::waiter_laid_out;
use crate::layout_model::waiters_from;
use crate::layout_model::waiting;
use crate::layout_model::FlexSizes;
use crate::layout_model::Run;
use crate::layout_state::LayoutModel;
use crate::lengths::block_of;
use crate::lengths::container;
use crate::lengths::margins;
use crate::lengths::paddings;
use crate::lengths::specified;
use crate::lengths::LayoutInput;
use crate::lengths::LayoutStyle;
use crate::lengths::Stop;
use crate::needs::Answer;
use crate::needs::Answers;
use crate::needs::FlexTarget;
use crate::needs::Need;
use crate::sizing::entry;
use crate::sizing::ContainerSizes;
use crate::sizing::Edges;
use crate::sizing::Position;
use crate::sizing::Size;
use crate::waiters::frame_size;
use crate::waiters::waiter_placement;
use crate::waiters::ResumableNode;

verus! {

/// Whether an answer is one to a need.
pub open spec fn fits(need: Need, answer: Answer) -> bool {
    match need {
        Need::Text { .. } | Need::Picture { .. } | Need::Background { .. } => answer is Drawn,
        Need::Fraction { .. } => answer is Number,
        Need::Shrink { .. } | Need::Grow { .. } => answer is Target,
    }
}

/// Whether a need has been answered.
pub open spec fn answered(answers: Answers, need: Need) -> bool {
    answers.answer(need) matches Some(answer) && fits(need, answer)
}

/// All that was answered before is answered in the same way.
pub open spec fn extends(answers: Answers, more: Answers) -> bool {
    forall|need: Need| #[trigger]
        answered(answers, need) ==> more.answer(need) == answers.answer(need)
}

/// Two outcomes agree: the first asks for something that it has not been told, or they are the
/// same.
pub open spec fn agrees<T>(answers: Answers, first: Result<T, Stop>, second: Result<T, Stop>) -> bool {
    match first {
        Err(Stop::Need(need)) => !answered(answers, need),
        _ => first == second,
    }
}

/// An outcome that asks for nothing.
pub open spec fn asks_nothing<T>(r: Result<T, Stop>) -> bool {
    r matches Err(stop) ==> !(stop is Need)
}

proof fn lemma_queued(
    input: LayoutInput,
    state: LayoutModel,
    containing: usize,
    waiting: Seq<ResumableNode>,
    at: int,
)
    ensures
        asks_nothing(queued_from(input, state, containing, waiting, at)),
    decreases waiting.len() - at,
{
    if 0 <= at < waiting.len() {
        if let Some(style) = input.style(waiting[at].node_idx) {
            let target = if style.position is Fixed {
                input.root
            } else {
                containing
            };
            if let Ok(after) = state.queued(target, waiting[at]) {
                lemma_queued(input, after, containing, waiting, at + 1);
            }
        }
    }
}

proof fn lemma_flex_waiting(
    input: LayoutInput,
    state: LayoutModel,
    run: Run,
    style: LayoutStyle,
    padding: Edges,
    height: u32,
    free: Seq<usize>,
    at: int,
    known: Seq<ResumableNode>,
)
    ensures
        asks_nothing(flex_waiting(input, state, run, style, padding, height, free, at, known)),
    decreases free.len() - at,
{
    if 0 <= at < free.len() {
        if let Ok(waiter) = flex_waiter(input, state, run, style, padding, height, free[at]) {
            lemma_flex_waiting(
                input,
                state,
                run,
                style,
                padding,
                height,
                free,
                at + 1,
                known.push(waiter),
            );
        }
    }
}

proof fn lemma_margins(style: LayoutStyle, available: Size, window: Size)
    ensures
        asks_nothing(margins(style, available, window)),
{
}

proof fn lemma_targets(
    answers: Answers,
    more: Answers,
    plan: FlexPlan,
    items: Seq<FlexBase>,
    at: int,
    known: Seq<FlexTarget>,
)
    requires
        extends(answers, more),
    ensures
        agrees(
            answers,
            targets_from(answers, plan, items, at, known),
            targets_from(more, plan, items, at, known),
        ),
    decreases items.len() - at,
{
    if 0 <= at < items.len() {
        if let Some(need) = target_need(plan, items[at]) {
            assert(answered(answers, need) ==> more.answer(need) == answers.answer(need));
        }
        match target(answers, plan, items[at]) {
            Err(_) => {},
            Ok(found) => {
                lemma_targets(answers, more, plan, items, at + 1, known.push(found));
            },
        }
    }
}

proof fn lemma_shares(
    answers: Answers,
    more: Answers,
    tracks: Seq<GridTrack>,
    space: u32,
    total: i32,
    at: int,
    known: Seq<i32>,
)
    requires
        extends(answers, more),
    ensures
        agrees(
            answers,
            shares_from(answers, tracks, space, total, at, known),
            shares_from(more, tracks, space, total, at, known),
        ),
    decreases tracks.len() - at,
{
    if 0 <= at < tracks.len() {
        if let Some(fraction) = fraction_of(tracks[at]) {
            let need = Need::Fraction { space, fraction, total };
            assert(answered(answers, need) ==> more.answer(need) == answers.answer(need));
        }
        match share_in(answers, tracks[at], space, total) {
            Err(_) => {},
            Ok(share) => {
                lemma_shares(answers, more, tracks, space, total, at + 1, known.push(share));
            },
        }
    }
}

proof fn lemma_axis_measured(answers: Answers, more: Answers, axis: AxisModel, largest: Seq<u32>)
    requires
        extends(answers, more),
    ensures
        agrees(answers, axis.measured(answers, largest), axis.measured(more, largest)),
{
    let space = if axis.totals.fractions > 0 {
        crate::grid::after_autos(axis.tracks, largest, largest.len() as int, axis.space)
    } else {
        axis.space
    };
    lemma_shares(answers, more, axis.tracks, space, axis.totals.fractions, 0, Seq::empty());
}

proof fn lemma_grid_cells(
    answers: Answers,
    more: Answers,
    placer: PlacerModel,
    columns: AxisModel,
    rows: AxisModel,
)
    requires
        extends(answers, more),
    ensures
        agrees(
            answers,
            grid_cells(answers, placer, columns, rows),
            grid_cells(more, placer, columns, rows),
        ),
{
    lemma_axis_measured(answers, more, columns, line_sizes(placer, true));
    lemma_axis_measured(answers, more, rows, line_sizes(placer, false));
}

proof fn lemma_drawn(answers: Answers, more: Answers)
    requires
        extends(answers, more),
    ensures
        forall|need: Need|
            (need is Text || need is Picture || need is Background) ==> agrees(
                answers,
                #[trigger] drawn(answers, need),
                drawn(more, need),
            ),
{
    assert forall|need: Need|
        (need is Text || need is Picture || need is Background) implies agrees(
        answers,
        #[trigger] drawn(answers, need),
        drawn(more, need),
    ) by {
        assert(answered(answers, need) ==> more.answer(need) == answers.answer(need));
    }
}

proof fn lemma_node(
    input: LayoutInput,
    answers: Answers,
    more: Answers,
    state: LayoutModel,
    call: Call,
    fuel: nat,
)
    requires
        extends(answers, more),
    ensures
        agrees(
            answers,
            node_laid_out(input, answers, state, call, fuel),
            node_laid_out(input, more, state, call, fuel),
        ),
    decreases fuel, 0int, 0nat,
{
    if fuel == 0 {
        return ;
    }
    match input.style(call.node_idx) {
        None => {},
        Some(style) => {
            let started = if call.complete {
                LayoutModel {
                    sizes: state.sizes.with_resolved(call.node_idx as int, None, None),
                    ..state
                }
            } else {
                state
            };
            let inside = (fuel - 1) as nat;
            lemma_block(input, answers, more, started, call, style, inside);
            lemma_flex(input, answers, more, started, call, style, inside);
            lemma_grid(input, answers, more, started, call, style, inside);
            lemma_boxes(input, answers, more, started, call, style);
            lemma_finished(
                input,
                answers,
                more,
                call,
                style,
                block_laid_out(input, answers, started, call, style, inside),
                block_laid_out(input, more, started, call, style, inside),
            );
            lemma_finished(
                input,
                answers,
                more,
                call,
                style,
                flex_laid_out(input, answers, started, call, style, inside),
                flex_laid_out(input, more, started, call, style, inside),
            );
            lemma_finished(
                input,
                answers,
                more,
                call,
                style,
                grid_laid_out(input, answers, started, call, style, inside),
                grid_laid_out(input, more, started, call, style, inside),
            );
        },
    }
}

proof fn lemma_boxes(
    input: LayoutInput,
    answers: Answers,
    more: Answers,
    state: LayoutModel,
    call: Call,
    style: LayoutStyle,
)
    requires
        extends(answers, more),
    ensures
        agrees(
            answers,
            text_box(answers, state, call, style),
            text_box(more, state, call, style),
        ),
        agrees(
            answers,
            replaced_box(input, answers, state, call, style),
            replaced_box(input, more, state, call, style),
        ),
{
    lemma_drawn(answers, more);
}

proof fn lemma_finished(
    input: LayoutInput,
    answers: Answers,
    more: Answers,
    call: Call,
    style: LayoutStyle,
    inside: Result<(LayoutModel, BodyModel), Stop>,
    other: Result<(LayoutModel, BodyModel), Stop>,
)
    requires
        extends(answers, more),
        agrees(answers, inside, other),
    ensures
        agrees(
            answers,
            finished(input, answers, call, style, inside),
            finished(input, more, call, style, other),
        ),
{
    lemma_drawn(answers, more);
}

proof fn lemma_closed(
    input: LayoutInput,
    answers: Answers,
    more: Answers,
    state: LayoutModel,
    run: Run,
    waiting: Seq<ResumableNode>,
    size: Size,
    children: Seq<usize>,
    fuel: nat,
)
    requires
        extends(answers, more),
    ensures
        agrees(
            answers,
            closed(input, answers, state, run, waiting, size, children, fuel),
            closed(input, more, state, run, waiting, size, children, fuel),
        ),
    decreases fuel, 6int, 0nat,
{
    let node_idx = run.call.node_idx;
    lemma_queued(input, state, run.containing, waiting, 0);
    if let Ok(after) = queued_from(input, state, run.containing, waiting, 0) {
        if let Some(node) = entry(after.containing, node_idx as int) {
            lemma_waiters(
                input,
                answers,
                more,
                after,
                node_idx,
                node.cursor,
                node.waiters,
                size,
                children,
                0,
                fuel,
            );
        }
    }
}

proof fn lemma_waiters(
    input: LayoutInput,
    answers: Answers,
    more: Answers,
    state: LayoutModel,
    containing: usize,
    cursor: Position,
    waiters: Seq<ResumableNode>,
    size: Size,
    children: Seq<usize>,
    at: int,
    fuel: nat,
)
    requires
        extends(answers, more),
    ensures
        agrees(
            answers,
            waiters_from(
                input,
                answers,
                state,
                containing,
                cursor,
                waiters,
                size,
                children,
                at,
                fuel,
            ),
            waiters_from(
                input,
                more,
                state,
                containing,
                cursor,
                waiters,
                size,
                children,
                at,
                fuel,
            ),
        ),
    decreases fuel, 5int, waiters.len() - at,
{
    if 0 <= at < waiters.len() {
        lemma_waiter(input, answers, more, state, containing, cursor, waiters[at], size, fuel);
        match waiter_laid_out(
            input,
            answers,
            state,
            containing,
            cursor,
            waiters[at],
            size,
            fuel,
        ) {
            Err(_) => {},
            Ok((after, id)) => {
                let next = match id {
                    Some(id) => children.push(id),
                    None => children,
                };
                lemma_waiters(
                    input,
                    answers,
                    more,
                    after,
                    containing,
                    cursor,
                    waiters,
                    size,
                    next,
                    at + 1,
                    fuel,
                );
            },
        }
    }
}

proof fn lemma_waiter(
    input: LayoutInput,
    answers: Answers,
    more: Answers,
    state: LayoutModel,
    containing: usize,
    cursor: Position,
    waiter: ResumableNode,
    size: Size,
    fuel: nat,
)
    requires
        extends(answers, more),
    ensures
        agrees(
            answers,
            waiter_laid_out(input, answers, state, containing, cursor, waiter, size, fuel),
            waiter_laid_out(input, more, state, containing, cursor, waiter, size, fuel),
        ),
    decreases fuel, 4int, 0nat,
{
    match input.style(waiter.node_idx) {
        None => {},
        Some(style) => {
            let frame = frame_size(style.position, size, input.window);
            match waiter_style(style, frame, input.window) {
                Err(_) => {},
                Ok(lengths) => {
                    let placement = waiter_placement(lengths, waiter, cursor, frame);
                    let call = Call {
                        node_idx: waiter.node_idx,
                        cursor: placement.cursor,
                        available: frame,
                        forced: placement.forced_size,
                        containing,
                        allow_fill: true,
                        save: true,
                        complete: true,
                    };
                    lemma_node(input, answers, more, state, call, fuel);
                },
            }
        },
    }
}

proof fn lemma_block_children(
    input: LayoutInput,
    answers: Answers,
    more: Answers,
    state: LayoutModel,
    flow: FlowModel,
    run: Run,
    items: Seq<usize>,
    at: int,
    fuel: nat,
)
    requires
        extends(answers, more),
    ensures
        agrees(
            answers,
            block_children(input, answers, state, flow, run, items, at, fuel),
            block_children(input, more, state, flow, run, items, at, fuel),
        ),
    decreases fuel, 5int, items.len() - at,
{
    if 0 <= at < items.len() {
        lemma_block_child(input, answers, more, state, flow, run, items, at, fuel);
        match block_child(input, answers, state, flow, run, items, at, fuel) {
            Err(_) => {},
            Ok((after, next)) => {
                lemma_block_children(
                    input,
                    answers,
                    more,
                    after,
                    next,
                    run,
                    items,
                    at + 1,
                    fuel,
                );
            },
        }
    }
}

proof fn lemma_block_child(
    input: LayoutInput,
    answers: Answers,
    more: Answers,
    state: LayoutModel,
    flow: FlowModel,
    run: Run,
    items: Seq<usize>,
    at: int,
    fuel: nat,
)
    requires
        extends(answers, more),
        0 <= at < items.len(),
    ensures
        agrees(
            answers,
            block_child(input, answers, state, flow, run, items, at, fuel),
            block_child(input, more, state, flow, run, items, at, fuel),
        ),
    decreases fuel, 4int, 0nat,
{
    match input.style(items[at]) {
        None => {},
        Some(style) => {
            match margins(style, run.call.available, input.window) {
                Err(_) => {},
                Ok(edges) => {
                    let cursor = Position {
                        x: (flow.x + edges.left) as i32,
                        y: (flow.y + edges.top) as i32,
                    };
                    let call = call_inside(run, items[at], cursor, run.inner, no_size());
                    lemma_node(input, answers, more, state, call, fuel);
                },
            }
        },
    }
}

proof fn lemma_block_finished(
    input: LayoutInput,
    answers: Answers,
    more: Answers,
    state: LayoutModel,
    flow: FlowModel,
    run: Run,
    style: LayoutStyle,
    sizes: ContainerSizes,
    padding: Edges,
    specified_height: Option<u32>,
    free: Seq<usize>,
    fuel: nat,
)
    requires
        extends(answers, more),
    ensures
        agrees(
            answers,
            block_finished(
                input,
                answers,
                state,
                flow,
                run,
                style,
                sizes,
                padding,
                specified_height,
                free,
                fuel,
            ),
            block_finished(
                input,
                more,
                state,
                flow,
                run,
                style,
                sizes,
                padding,
                specified_height,
                free,
                fuel,
            ),
        ),
    decreases fuel, 7int, 0nat,
{
    let fills = run.call.allow_fill && !(style.display is InlineBlock) && !(style.display is Inline)
        && !(style.width is Content);
    let size = block_size(flow, specified_height, sizes, padding, fills);
    let known = resolved(state, run.call.node_idx, size.height, size.width);
    match free_room(size.width, padding, sizes.inner_height, size.content_height) {
        None => {},
        Some((room, free_y)) => match known.divided(flow.lines, room, free_y) {
            Err(_) => {},
            Ok(divided) => {
                lemma_closed(
                    input,
                    answers,
                    more,
                    divided,
                    run,
                    waiting(free),
                    Size { width: size.width, height: size.height },
                    flow.children,
                    fuel,
                );
            },
        },
    }
}

proof fn lemma_block(
    input: LayoutInput,
    answers: Answers,
    more: Answers,
    state: LayoutModel,
    call: Call,
    style: LayoutStyle,
    fuel: nat,
)
    requires
        extends(answers, more),
    ensures
        agrees(
            answers,
            block_laid_out(input, answers, state, call, style, fuel),
            block_laid_out(input, more, state, call, style, fuel),
        ),
    decreases fuel, 9int, 0nat,
{
    let node_idx = call.node_idx;
    let block = block_of(input, state.sizes, node_idx, style, call.containing);
    match (
        paddings(style, block.1, input.window),
        specified(input, style, call.forced, block),
    ) {
        (Ok(padding), Ok(wanted)) => match flow_begun(call.cursor, padding) {
            None => {},
            Some(flow) => {
                let noted = state.sizes.with_specified(node_idx as int, wanted.0, wanted.1);
                let block = block_of(input, noted, node_idx, style, call.containing);
                match container(input, style, call.forced, call.available, block) {
                    Err(_) => {},
                    Ok(sizes) => {
                        let known = sized(state, node_idx, wanted, sizes);
                        let inside = positioned(known, call, style);
                        lemma_block_inside(
                            input,
                            answers,
                            more,
                            inside,
                            flow,
                            call,
                            style,
                            sizes,
                            padding,
                            wanted.0,
                            fuel,
                        );
                    },
                }
            },
        },
        _ => {},
    }
}

proof fn lemma_block_inside(
    input: LayoutInput,
    answers: Answers,
    more: Answers,
    state: LayoutModel,
    flow: FlowModel,
    call: Call,
    style: LayoutStyle,
    sizes: ContainerSizes,
    padding: Edges,
    specified_height: Option<u32>,
    fuel: nat,
)
    requires
        extends(answers, more),
    ensures
        agrees(
            answers,
            block_inside(
                input,
                answers,
                state,
                flow,
                call,
                style,
                sizes,
                padding,
                specified_height,
                fuel,
            ),
            block_inside(
                input,
                more,
                state,
                flow,
                call,
                style,
                sizes,
                padding,
                specified_height,
                fuel,
            ),
        ),
    decreases fuel, 8int, 0nat,
{
    lemma_drawn(answers, more);
    let run = Run {
        call,
        containing: containing_inside(call, style),
        inner: Size { width: sizes.inner_width, height: sizes.inner_height },
        fill: call.allow_fill && !(style.display is InlineBlock) && !(style.display is Inline),
        font_size: style.font_size,
    };
    let facts = child_facts(input, input.nodes@[call.node_idx as int].children@);
    let items = nodes_where(facts, false);
    lemma_block_children(input, answers, more, state, flow, run, items, 0, fuel);
    match block_children(input, answers, state, flow, run, items, 0, fuel) {
        Err(_) => {},
        Ok((placed, end)) => match block_text(
            input,
            answers,
            placed,
            end,
            call,
            style,
            items.len() == 0,
        ) {
            Err(_) => {},
            Ok((written, all)) => {
                lemma_block_finished(
                    input,
                    answers,
                    more,
                    written,
                    all,
                    run,
                    style,
                    sizes,
                    padding,
                    specified_height,
                    nodes_where(facts, true),
                    fuel,
                );
            },
        },
    }
}

proof fn lemma_flex_bases(
    input: LayoutInput,
    answers: Answers,
    more: Answers,
    state: LayoutModel,
    bases: Seq<FlexBase>,
    run: Run,
    style: LayoutStyle,
    sizes: ContainerSizes,
    definite: bool,
    items: Seq<usize>,
    at: int,
    fuel: nat,
)
    requires
        extends(answers, more),
    ensures
        agrees(
            answers,
            flex_bases(
                input,
                answers,
                state,
                bases,
                run,
                style,
                sizes,
                definite,
                items,
                at,
                fuel,
            ),
            flex_bases(
                input,
                more,
                state,
                bases,
                run,
                style,
                sizes,
                definite,
                items,
                at,
                fuel,
            ),
        ),
    decreases fuel, 5int, items.len() - at,
{
    if 0 <= at < items.len() {
        lemma_flex_base(
            input,
            answers,
            more,
            state,
            bases,
            run,
            style,
            sizes,
            definite,
            items[at],
            fuel,
        );
        match flex_base(
            input,
            answers,
            state,
            bases,
            run,
            style,
            sizes,
            definite,
            items[at],
            fuel,
        ) {
            Err(_) => {},
            Ok((after, next)) => {
                lemma_flex_bases(
                    input,
                    answers,
                    more,
                    after,
                    next,
                    run,
                    style,
                    sizes,
                    definite,
                    items,
                    at + 1,
                    fuel,
                );
            },
        }
    }
}

proof fn lemma_flex_base(
    input: LayoutInput,
    answers: Answers,
    more: Answers,
    state: LayoutModel,
    bases: Seq<FlexBase>,
    run: Run,
    style: LayoutStyle,
    sizes: ContainerSizes,
    definite: bool,
    item: usize,
    fuel: nat,
)
    requires
        extends(answers, more),
    ensures
        agrees(
            answers,
            flex_base(
                input,
                answers,
                state,
                bases,
                run,
                style,
                sizes,
                definite,
                item,
                fuel,
            ),
            flex_base(
                input,
                more,
                state,
                bases,
                run,
                style,
                sizes,
                definite,
                item,
                fuel,
            ),
        ),
    decreases fuel, 4int, 0nat,
{
    match input.style(item) {
        None => {},
        Some(child) => match flex_basis(
            child,
            style.flex_direction,
            sizes,
            definite,
            input.window,
        ) {
            Err(_) => {},
            Ok(basis) => {
                let forced = basis_forced(style.flex_direction, basis);
                let call = call_to_measure(run, item, Position { x: 0, y: 0 }, forced);
                lemma_node(input, answers, more, state, call, fuel);
            },
        },
    }
}

proof fn lemma_flex_sized(
    input: LayoutInput,
    answers: Answers,
    more: Answers,
    style: LayoutStyle,
    sizes: ContainerSizes,
    allow_fill: bool,
    definite: bool,
    bases: Seq<FlexBase>,
)
    requires
        extends(answers, more),
    ensures
        agrees(
            answers,
            flex_sized(input, answers, style, sizes, allow_fill, definite, bases),
            flex_sized(input, more, style, sizes, allow_fill, definite, bases),
        ),
{
    assert forall|plan: FlexPlan| agrees(
        answers,
        #[trigger] targets_from(answers, plan, bases, 0, Seq::empty()),
        targets_from(more, plan, bases, 0, Seq::empty()),
    ) by {
        lemma_targets(answers, more, plan, bases, 0, Seq::empty());
    }
}

proof fn lemma_flex_places(
    input: LayoutInput,
    answers: Answers,
    more: Answers,
    state: LayoutModel,
    line: LineModel,
    run: Run,
    style: LayoutStyle,
    sizes: ContainerSizes,
    definite: bool,
    bases: Seq<FlexBase>,
    planned: FlexSizes,
    at: int,
    fuel: nat,
)
    requires
        extends(answers, more),
    ensures
        agrees(
            answers,
            flex_places(
                input,
                answers,
                state,
                line,
                run,
                style,
                sizes,
                definite,
                bases,
                planned,
                at,
                fuel,
            ),
            flex_places(
                input,
                more,
                state,
                line,
                run,
                style,
                sizes,
                definite,
                bases,
                planned,
                at,
                fuel,
            ),
        ),
    decreases fuel, 5int, bases.len() - at,
{
    if 0 <= at < bases.len() {
        lemma_flex_place(
            input,
            answers,
            more,
            state,
            line,
            run,
            style,
            sizes,
            definite,
            bases,
            planned,
            at,
            fuel,
        );
        match flex_place(
            input,
            answers,
            state,
            line,
            run,
            style,
            sizes,
            definite,
            bases,
            planned,
            at,
            fuel,
        ) {
            Err(_) => {},
            Ok((after, next)) => {
                lemma_flex_places(
                    input,
                    answers,
                    more,
                    after,
                    next,
                    run,
                    style,
                    sizes,
                    definite,
                    bases,
                    planned,
                    at + 1,
                    fuel,
                );
            },
        }
    }
}

proof fn lemma_item_placed(
    state: LayoutModel,
    line: LineModel,
    run: Run,
    style: LayoutStyle,
    child: LayoutStyle,
    sizes: ContainerSizes,
    definite: bool,
    id: usize,
    edges: Edges,
    last: bool,
)
    ensures
        asks_nothing(
            flex_item_placed(state, line, run, style, child, sizes, definite, id, edges, last),
        ),
{
}

proof fn lemma_flex_place(
    input: LayoutInput,
    answers: Answers,
    more: Answers,
    state: LayoutModel,
    line: LineModel,
    run: Run,
    style: LayoutStyle,
    sizes: ContainerSizes,
    definite: bool,
    bases: Seq<FlexBase>,
    planned: FlexSizes,
    at: int,
    fuel: nat,
)
    requires
        extends(answers, more),
        0 <= at < bases.len(),
    ensures
        agrees(
            answers,
            flex_place(
                input,
                answers,
                state,
                line,
                run,
                style,
                sizes,
                definite,
                bases,
                planned,
                at,
                fuel,
            ),
            flex_place(
                input,
                more,
                state,
                line,
                run,
                style,
                sizes,
                definite,
                bases,
                planned,
                at,
                fuel,
            ),
        ),
    decreases fuel, 4int, 0nat,
{
    let node_idx = bases[at].node_idx;
    if let Some(child) = input.style(node_idx) {
        lemma_margins(child, run.call.available, input.window);
        if let Ok(edges) = margins(child, run.call.available, input.window) {
            let (available, forced) = item_sizes(
                style,
                sizes,
                definite,
                bases[at],
                planned.targets[at],
                planned,
            );
            let cursor = Position {
                x: line.item_x(edges) as i32,
                y: line.item_y(edges) as i32,
            };
            let call = call_inside(run, node_idx, cursor, available, forced);
            lemma_node(input, answers, more, state, call, fuel);
            if let Ok((after, Some(id))) = node_laid_out(input, answers, state, call, fuel) {
                lemma_item_placed(
                    after,
                    line.at_item(edges),
                    run,
                    style,
                    child,
                    sizes,
                    definite,
                    id,
                    edges,
                    at == bases.len() - 1,
                );
            }
        }
    }
}

proof fn lemma_flex_finished(
    input: LayoutInput,
    answers: Answers,
    more: Answers,
    state: LayoutModel,
    line: LineModel,
    run: Run,
    style: LayoutStyle,
    sizes: ContainerSizes,
    padding: Edges,
    specified_height: Option<u32>,
    free: Seq<usize>,
    fuel: nat,
)
    requires
        extends(answers, more),
    ensures
        agrees(
            answers,
            flex_finished(
                input,
                answers,
                state,
                line,
                run,
                style,
                sizes,
                padding,
                specified_height,
                free,
                fuel,
            ),
            flex_finished(
                input,
                more,
                state,
                line,
                run,
                style,
                sizes,
                padding,
                specified_height,
                free,
                fuel,
            ),
        ),
    decreases fuel, 7int, 0nat,
{
    let fills = run.call.allow_fill && !(style.display is InlineFlex);
    let size = line_size(line, specified_height, sizes, padding, fills);
    match free_room(size.width, padding, sizes.inner_height, size.content_height) {
        None => {},
        Some((room, free_y)) => match state.divided(line.lines, room, free_y) {
            Err(_) => {},
            Ok(divided) => {
                let known = resolved(divided, run.call.node_idx, size.height, size.width);
                lemma_flex_waiting(
                    input,
                    known,
                    run,
                    style,
                    padding,
                    size.height,
                    free,
                    0,
                    Seq::empty(),
                );
                match flex_waiting(
                    input,
                    known,
                    run,
                    style,
                    padding,
                    size.height,
                    free,
                    0,
                    Seq::empty(),
                ) {
                    Err(_) => {},
                    Ok(waiting) => {
                        lemma_closed(
                            input,
                            answers,
                            more,
                            known,
                            run,
                            waiting,
                            Size { width: size.width, height: size.height },
                            line.children,
                            fuel,
                        );
                    },
                }
            },
        },
    }
}

/// The inside of a flex container: its text, its items and its line.
#[verifier::opaque]
spec fn flex_parts(
    input: LayoutInput,
    answers: Answers,
    state: LayoutModel,
    call: Call,
    style: LayoutStyle,
    sizes: ContainerSizes,
    padding: Edges,
    specified_height: Option<u32>,
    fuel: nat,
) -> Result<(LayoutModel, BodyModel), Stop> {
    flex_inside(input, answers, state, call, style, sizes, padding, specified_height, fuel)
}

proof fn lemma_flex_parts(
    input: LayoutInput,
    answers: Answers,
    state: LayoutModel,
    call: Call,
    style: LayoutStyle,
    sizes: ContainerSizes,
    padding: Edges,
    specified_height: Option<u32>,
    fuel: nat,
)
    ensures
        flex_parts(
            input,
            answers,
            state,
            call,
            style,
            sizes,
            padding,
            specified_height,
            fuel,
        ) == ({
            let run = Run {
                call,
                containing: containing_inside(call, style),
                inner: Size { width: sizes.inner_width, height: sizes.inner_height },
                fill: call.allow_fill,
                font_size: style.font_size,
            };
            let definite = specified_height is Some;
            let nodes = input.nodes@[call.node_idx as int].children@;
            let facts = child_facts(input, nodes);
            let items = items_in_order(facts);
            if !all_styled(input, nodes) {
                Err(Stop::NoStyle)
            } else {
                match flex_text(input, answers, state, call, style, padding, items.len() == 0) {
                    Err(stop) => Err(stop),
                    Ok((written, texts)) => match flex_bases(
                        input,
                        answers,
                        written,
                        Seq::empty(),
                        run,
                        style,
                        sizes,
                        definite,
                        items,
                        0,
                        fuel,
                    ) {
                        Err(stop) => Err(stop),
                        Ok((measured, bases)) => flex_line(
                            input,
                            answers,
                            measured,
                            run,
                            style,
                            sizes,
                            padding,
                            specified_height,
                            bases,
                            texts,
                            nodes_where(facts, true),
                            fuel,
                        ),
                    },
                }
            }
        }),
{
    reveal(flex_parts);
    reveal(flex_line);
}

proof fn lemma_flex_inside(
    input: LayoutInput,
    answers: Answers,
    more: Answers,
    state: LayoutModel,
    call: Call,
    style: LayoutStyle,
    sizes: ContainerSizes,
    padding: Edges,
    specified_height: Option<u32>,
    fuel: nat,
)
    requires
        extends(answers, more),
    ensures
        agrees(
            answers,
            flex_parts(
                input,
                answers,
                state,
                call,
                style,
                sizes,
                padding,
                specified_height,
                fuel,
            ),
            flex_parts(
                input,
                more,
                state,
                call,
                style,
                sizes,
                padding,
                specified_height,
                fuel,
            ),
        ),
    decreases fuel, 8int, 0nat,
{
    lemma_drawn(answers, more);
    let run = Run {
        call,
        containing: containing_inside(call, style),
        inner: Size { width: sizes.inner_width, height: sizes.inner_height },
        fill: call.allow_fill,
        font_size: style.font_size,
    };
    lemma_flex_parts(
        input,
        answers,
        state,
        call,
        style,
        sizes,
        padding,
        specified_height,
        fuel,
    );
    lemma_flex_parts(input, more, state, call, style, sizes, padding, specified_height, fuel);
    let definite = specified_height is Some;
    let facts = child_facts(input, input.nodes@[call.node_idx as int].children@);
    let items = items_in_order(facts);
    match flex_text(input, answers, state, call, style, padding, items.len() == 0) {
        Err(_) => {},
        Ok((written, texts)) => {
            lemma_flex_bases(
                input,
                answers,
                more,
                written,
                Seq::empty(),
                run,
                style,
                sizes,
                definite,
                items,
                0,
                fuel,
            );
            match flex_bases(
                input,
                answers,
                written,
                Seq::empty(),
                run,
                style,
                sizes,
                definite,
                items,
                0,
                fuel,
            ) {
                Err(_) => {},
                Ok((measured, bases)) => {
                    lemma_flex_line(
                        input,
                        answers,
                        more,
                        measured,
                        run,
                        style,
                        sizes,
                        padding,
                        specified_height,
                        bases,
                        texts,
                        nodes_where(facts, true),
                        fuel,
                    );
                },
            }
        },
    }
}

/// The line of a flex container whose items have been measured.
#[verifier::opaque]
spec fn flex_line(
    input: LayoutInput,
    answers: Answers,
    state: LayoutModel,
    run: Run,
    style: LayoutStyle,
    sizes: ContainerSizes,
    padding: Edges,
    specified_height: Option<u32>,
    bases: Seq<FlexBase>,
    texts: Seq<usize>,
    free: Seq<usize>,
    fuel: nat,
) -> Result<(LayoutModel, BodyModel), Stop> {
    let definite = specified_height is Some;
    match flex_sized(input, answers, style, sizes, run.call.allow_fill, definite, bases) {
        Err(stop) => Err(stop),
        Ok(planned) => match line_begun(
            style.flex_direction,
            run.call.cursor,
            padding,
            planned.start,
            planned.gap,
        ) {
            None => Err(Stop::Range),
            Some(line) => match flex_places(
                input,
                answers,
                state,
                LineModel { children: texts, ..line },
                run,
                style,
                sizes,
                definite,
                bases,
                planned,
                0,
                fuel,
            ) {
                Err(stop) => Err(stop),
                Ok((placed, end)) => flex_finished(
                    input,
                    answers,
                    placed,
                    end,
                    run,
                    style,
                    sizes,
                    padding,
                    specified_height,
                    free,
                    fuel,
                ),
            },
        },
    }
}

proof fn lemma_flex_line(
    input: LayoutInput,
    answers: Answers,
    more: Answers,
    state: LayoutModel,
    run: Run,
    style: LayoutStyle,
    sizes: ContainerSizes,
    padding: Edges,
    specified_height: Option<u32>,
    bases: Seq<FlexBase>,
    texts: Seq<usize>,
    free: Seq<usize>,
    fuel: nat,
)
    requires
        extends(answers, more),
    ensures
        agrees(
            answers,
            flex_line(
                input,
                answers,
                state,
                run,
                style,
                sizes,
                padding,
                specified_height,
                bases,
                texts,
                free,
                fuel,
            ),
            flex_line(
                input,
                more,
                state,
                run,
                style,
                sizes,
                padding,
                specified_height,
                bases,
                texts,
                free,
                fuel,
            ),
        ),
    decreases fuel, 7int, 1nat,
{
    reveal(flex_line);
    let definite = specified_height is Some;
    lemma_flex_sized(input, answers, more, style, sizes, run.call.allow_fill, definite, bases);
    match flex_sized(input, answers, style, sizes, run.call.allow_fill, definite, bases) {
        Err(_) => {},
        Ok(planned) => match line_begun(
            style.flex_direction,
            run.call.cursor,
            padding,
            planned.start,
            planned.gap,
        ) {
            None => {},
            Some(line) => {
                let begun = LineModel { children: texts, ..line };
                lemma_flex_places(
                    input,
                    answers,
                    more,
                    state,
                    begun,
                    run,
                    style,
                    sizes,
                    definite,
                    bases,
                    planned,
                    0,
                    fuel,
                );
                match flex_places(
                    input,
                    answers,
                    state,
                    begun,
                    run,
                    style,
                    sizes,
                    definite,
                    bases,
                    planned,
                    0,
                    fuel,
                ) {
                    Err(_) => {},
                    Ok((placed, end)) => {
                        lemma_flex_finished(
                            input,
                            answers,
                            more,
                            placed,
                            end,
                            run,
                            style,
                            sizes,
                            padding,
                            specified_height,
                            free,
                            fuel,
                        );
                    },
                }
            },
        },
    }
}

proof fn lemma_flex(
    input: LayoutInput,
    answers: Answers,
    more: Answers,
    state: LayoutModel,
    call: Call,
    style: LayoutStyle,
    fuel: nat,
)
    requires
        extends(answers, more),
    ensures
        agrees(
            answers,
            flex_laid_out(input, answers, state, call, style, fuel),
            flex_laid_out(input, more, state, call, style, fuel),
        ),
    decreases fuel, 9int, 0nat,
{
    reveal(flex_parts);
    let node_idx = call.node_idx;
    let block = block_of(input, state.sizes, node_idx, style, call.containing);
    match (
        paddings(style, block.1, input.window),
        container(input, style, call.forced, call.available, block),
        specified(input, style, call.forced, block),
    ) {
        (Ok(padding), Ok(sizes), Ok(wanted)) => {
            let known = sized(state, node_idx, wanted, sizes);
            let inside = positioned(known, call, style);
            lemma_flex_inside(
                input,
                answers,
                more,
                inside,
                call,
                style,
                sizes,
                padding,
                wanted.0,
                fuel,
            );
        },
        _ => {},
    }
}

proof fn lemma_grid_bases(
    input: LayoutInput,
    answers: Answers,
    more: Answers,
    state: LayoutModel,
    placer: PlacerModel,
    run: Run,
    origin: Position,
    items: Seq<usize>,
    at: int,
    fuel: nat,
)
    requires
        extends(answers, more),
    ensures
        agrees(
            answers,
            grid_bases(input, answers, state, placer, run, origin, items, at, fuel),
            grid_bases(input, more, state, placer, run, origin, items, at, fuel),
        ),
    decreases fuel, 5int, items.len() - at,
{
    if 0 <= at < items.len() {
        lemma_grid_base(input, answers, more, state, placer, run, origin, items[at], fuel);
        match grid_base(input, answers, state, placer, run, origin, items[at], fuel) {
            Err(_) => {},
            Ok((after, next)) => {
                lemma_grid_bases(
                    input,
                    answers,
                    more,
                    after,
                    next,
                    run,
                    origin,
                    items,
                    at + 1,
                    fuel,
                );
            },
        }
    }
}

proof fn lemma_grid_base(
    input: LayoutInput,
    answers: Answers,
    more: Answers,
    state: LayoutModel,
    placer: PlacerModel,
    run: Run,
    origin: Position,
    item: usize,
    fuel: nat,
)
    requires
        extends(answers, more),
    ensures
        agrees(
            answers,
            grid_base(input, answers, state, placer, run, origin, item, fuel),
            grid_base(input, more, state, placer, run, origin, item, fuel),
        ),
    decreases fuel, 4int, 0nat,
{
    let call = call_to_measure(run, item, origin, no_size());
    lemma_node(input, answers, more, state, call, fuel);
}

proof fn lemma_grid_places(
    input: LayoutInput,
    answers: Answers,
    more: Answers,
    state: LayoutModel,
    grid: GridModel,
    run: Run,
    style: LayoutStyle,
    items: Seq<GridBaseItem>,
    at: int,
    fuel: nat,
)
    requires
        extends(answers, more),
    ensures
        agrees(
            answers,
            grid_places(input, answers, state, grid, run, style, items, at, fuel),
            grid_places(input, more, state, grid, run, style, items, at, fuel),
        ),
    decreases fuel, 5int, items.len() - at,
{
    if 0 <= at < items.len() {
        lemma_grid_place(input, answers, more, state, grid, run, style, items[at], fuel);
        match grid_place(input, answers, state, grid, run, style, items[at], fuel) {
            Err(_) => {},
            Ok((after, next)) => {
                lemma_grid_places(
                    input,
                    answers,
                    more,
                    after,
                    next,
                    run,
                    style,
                    items,
                    at + 1,
                    fuel,
                );
            },
        }
    }
}

proof fn lemma_grid_place(
    input: LayoutInput,
    answers: Answers,
    more: Answers,
    state: LayoutModel,
    grid: GridModel,
    run: Run,
    style: LayoutStyle,
    item: GridBaseItem,
    fuel: nat,
)
    requires
        extends(answers, more),
    ensures
        agrees(
            answers,
            grid_place(input, answers, state, grid, run, style, item, fuel),
            grid_place(input, more, state, grid, run, style, item, fuel),
        ),
    decreases fuel, 4int, 0nat,
{
    match input.style(item.node_idx) {
        None => {},
        Some(child) => match grid.placed(item, cell_style(style, child)) {
            None => {},
            Some((cell, x, y)) => {
                let call = call_inside(
                    run,
                    item.node_idx,
                    Position { x: x as i32, y: y as i32 },
                    Size { width: item.target_width, height: item.target_height },
                    cell_forced_size(item, cell_style(style, child)),
                );
                lemma_node(input, answers, more, state, call, fuel);
            },
        },
    }
}

proof fn lemma_grid_finished(
    input: LayoutInput,
    answers: Answers,
    more: Answers,
    state: LayoutModel,
    grid: GridModel,
    run: Run,
    sizes: ContainerSizes,
    specified_height: Option<u32>,
    free: Seq<usize>,
    fuel: nat,
)
    requires
        extends(answers, more),
    ensures
        agrees(
            answers,
            grid_finished(
                input,
                answers,
                state,
                grid,
                run,
                sizes,
                specified_height,
                free,
                fuel,
            ),
            grid_finished(
                input,
                more,
                state,
                grid,
                run,
                sizes,
                specified_height,
                free,
                fuel,
            ),
        ),
    decreases fuel, 7int, 0nat,
{
    match grid_size(grid, specified_height, sizes, run.call.allow_fill) {
        None => {},
        Some((width, height, content_height)) => {
            let known = resolved(state, run.call.node_idx, height, width);
            lemma_closed(
                input,
                answers,
                more,
                known,
                run,
                waiting(free),
                Size { width, height },
                grid.children,
                fuel,
            );
        },
    }
}

proof fn lemma_grid_inside(
    input: LayoutInput,
    answers: Answers,
    more: Answers,
    state: LayoutModel,
    call: Call,
    style: LayoutStyle,
    sizes: ContainerSizes,
    padding: Edges,
    specified_height: Option<u32>,
    fuel: nat,
)
    requires
        extends(answers, more),
    ensures
        agrees(
            answers,
            grid_inside(
                input,
                answers,
                state,
                call,
                style,
                sizes,
                padding,
                specified_height,
                fuel,
            ),
            grid_inside(
                input,
                more,
                state,
                call,
                style,
                sizes,
                padding,
                specified_height,
                fuel,
            ),
        ),
    decreases fuel, 8int, 0nat,
{
    let run = Run {
        call,
        containing: containing_inside(call, style),
        inner: Size { width: sizes.inner_width, height: sizes.inner_height },
        fill: call.allow_fill && style.justify_items is Stretch,
        font_size: style.font_size,
    };
    let facts = child_facts(input, input.nodes@[call.node_idx as int].children@);
    match (
        grid_begun(call.cursor, padding),
        axis_begun(style.grid_template_columns, sizes.inner_width),
        axis_begun(style.grid_template_rows, sizes.inner_height),
    ) {
        (Some(grid), Ok(columns), Ok(rows)) => {
            let placer = PlacerModel {
                template_columns: if columns.has_template {
                    Some(columns.tracks.len() as usize)
                } else {
                    None
                },
                column: 0,
                row: 0,
                column_count: 1,
                row_count: 1,
                items: Seq::empty(),
            };
            let origin = Position { x: grid.origin_x as i32, y: grid.origin_y as i32 };
            let items = nodes_where(facts, false);
            lemma_grid_bases(input, answers, more, state, placer, run, origin, items, 0, fuel);
            match grid_bases(input, answers, state, placer, run, origin, items, 0, fuel) {
                Err(_) => {},
                Ok((measured, filled)) => {
                    lemma_grid_cells(answers, more, filled, columns, rows);
                    match grid_cells(answers, filled, columns, rows) {
                        Err(_) => {},
                        Ok(cells) => {
                            lemma_grid_places(
                                input,
                                answers,
                                more,
                                measured,
                                grid,
                                run,
                                style,
                                cells,
                                0,
                                fuel,
                            );
                            match grid_places(
                                input,
                                answers,
                                measured,
                                grid,
                                run,
                                style,
                                cells,
                                0,
                                fuel,
                            ) {
                                Err(_) => {},
                                Ok((placed, end)) => {
                                    lemma_grid_finished(
                                        input,
                                        answers,
                                        more,
                                        placed,
                                        end,
                                        run,
                                        sizes,
                                        specified_height,
                                        nodes_where(facts, true),
                                        fuel,
                                    );
                                },
                            }
                        },
                    }
                },
            }
        },
        _ => {},
    }
}

proof fn lemma_grid(
    input: LayoutInput,
    answers: Answers,
    more: Answers,
    state: LayoutModel,
    call: Call,
    style: LayoutStyle,
    fuel: nat,
)
    requires
        extends(answers, more),
    ensures
        agrees(
            answers,
            grid_laid_out(input, answers, state, call, style, fuel),
            grid_laid_out(input, more, state, call, style, fuel),
        ),
    decreases fuel, 9int, 0nat,
{
    let node_idx = call.node_idx;
    let block = block_of(input, state.sizes, node_idx, style, call.containing);
    match container(input, style, call.forced, call.available, block) {
        Err(_) => {},
        Ok(sizes) => {
            let opened = positioned(state, call, style);
            let own = block_of(
                input,
                opened.sizes,
                node_idx,
                style,
                containing_inside(call, style),
            );
            match (
                paddings(style, own.1, input.window),
                specified(input, style, call.forced, own),
            ) {
                (Ok(padding), Ok(wanted)) => {
                    let inside = sized(opened, node_idx, wanted, sizes);
                    lemma_grid_inside(
                        input,
                        answers,
                        more,
                        inside,
                        call,
                        style,
                        sizes,
                        padding,
                        wanted.0,
                        fuel,
                    );
                },
                _ => {},
            }
        },
    }
}

/// A layout that has come to an end, with boxes or with a reason in the document, stays as it is
/// when it is told more. One that has not asks for something that it has not been told.
pub proof fn lemma_told_layout_stays(
    input: LayoutInput,
    answers: Answers,
    more: Answers,
    size: Size,
)
    requires
        extends(answers, more),
    ensures
        match layout_of(input, answers, size) {
            Err(Stop::Need(need)) => !answered(answers, need),
            end => layout_of(input, more, size) == end,
        },
{
    let origin = Position { x: 0, y: 0 };
    let call = Call {
        node_idx: input.root,
        cursor: origin,
        available: size,
        forced: no_size(),
        containing: input.root,
        allow_fill: true,
        save: true,
        complete: true,
    };
    lemma_node(
        input,
        answers,
        more,
        LayoutModel::initial(input.nodes@.len()).opened(input.root, origin),
        call,
        input.nodes@.len(),
    );
}

} // verus!
