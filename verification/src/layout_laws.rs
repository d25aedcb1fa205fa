//! What layout never stops for. In a document without cycles it is never too deep, and what waits
//! for a containing node always finds it.
use vstd::prelude::*;

use crate::dom::NodesModel;
use crate::flex::items_in_order;
use crate::flex::line_begun;
use crate::flex::line_size;
use crate::flex::nodes_where;
use crate::flex::orders_where;
use crate::flex::ChildFact;
use crate::flex::LineModel;
use crate::flex_sizes::target;
use crate::flex_sizes::targets_from;
use crate::flex_sizes::FlexBase;
use crate::flex_sizes::FlexPlan;
use crate::flow::block_size;
use crate::flow::flow_begun;
use crate::flow::FlowModel;
use crate::grid::cell_forced_size;
use crate::grid::grid_begun;
use crate::grid::grid_size;
use crate::grid::GridBaseItem;
use crate::grid::GridModel;
use crate::grid::GridTrack;
use crate::grid::PlacerModel;
use crate::grid_axis::axis_begun;
use crate::grid_axis::cells_from;
use crate::grid_axis::in_cell;
use crate::grid_axis::share_in;
use crate::grid_axis::shares_from;
use crate::grid_axis::AxisModel;
use crate::layout_boxes::child_facts;
use crate::layout_boxes::no_size;
use crate::layout_boxes::replaced_box;
use crate::layout_boxes::text_box;
use crate::layout_boxes::waiter_style;
use crate::layout_boxes::BodyModel;
use crate::layout_boxes::Call;
use crate::layout_model::basis_forced;
use crate::layout_model::block_child;
use crate::layout_model::block_children;
use crate::layout_model::block_finished;
use crate::layout_model::block_inside;
use crate::layout_model::block_laid_out;
use crate::layout_model::block_text;
use crate::layout_model::call_inside;
use crate::layout_model::call_to_measure;
use crate::layout_model::cell_style;
use crate::layout_model::closed;
use crate::layout_model::containing_inside;
use crate::layout_model::finished;
use crate::layout_model::flex_base;
use crate::layout_model::flex_bases;
use crate::layout_model::flex_basis;
use crate::layout_model::flex_finished;
use crate::layout_model::flex_inside;
use crate::layout_model::flex_laid_out;
use crate::layout_model::flex_place;
use crate::layout_model::flex_places;
use crate::layout_model::flex_sized;
use crate::layout_model::flex_text;
use crate::layout_model::flex_waiter;
use crate::layout_model::flex_waiting;
use crate::layout_model::free_room;
use crate::layout_model::grid_base;
use crate::layout_model::grid_bases;
use crate::layout_model::grid_cells;
use crate::layout_model::grid_finished;
use crate::layout_model::grid_inside;
use crate::layout_model::grid_laid_out;
use crate::layout_model::grid_place;
use crate::layout_model::grid_places;
use crate::layout_model::item_sizes;
use crate::layout_model::layout_of;
use crate::layout_model::node_laid_out;
use crate::layout_model::positioned;
use crate::layout_model::queued_from;
use crate::layout_model::resolved;
use crate::layout_model::sized;
use crate::layout_model::waiter_laid_out;
use crate::layout_model::waiters_from;
use crate::layout_model::waiting;
use crate::layout_model::FlexSizes;
use crate::layout_model::Run;
use crate::layout_state::LayoutModel;
use crate::lengths::block_of;
use crate::lengths::container;
use crate::lengths::margins;
use crate::lengths::paddings;
use crate::lengths::specified;
use crate::lengths::LayoutInput;
use crate::lengths::LayoutStyle;
use crate::lengths::Stop;
use crate::needs::Answers;
use crate::needs::FlexTarget;
use crate::order::lemma_stable_positions;
use crate::order::stable_positions;
use crate::shapes::describes;
use crate::shapes::describes_node;
use crate::sizing::entry;
use crate::sizing::ContainerSizes;
use crate::sizing::Edges;
use crate::sizing::Position;
use crate::sizing::Size;
use crate::subtree::depth_of;
use crate::subtree::lemma_child_is_lower;
use crate::subtree::tree_like;
use crate::tree::ChildrenModel;
use crate::waiters::frame_size;
use crate::waiters::waiter_placement;
use crate::waiters::ResumableNode;

verus! {

/// Every child stands below its parent, by a rank that falls from parent to child.
pub open spec fn ranked(input: LayoutInput, rank: spec_fn(usize) -> nat) -> bool {
    forall|i: usize, k: int|
        i < input.nodes@.len() && 0 <= k < input.nodes@[i as int].children@.len()
            && input.nodes@[i as int].children@[k] < input.nodes@.len() ==> rank(
            #[trigger] input.nodes@[i as int].children@[k],
        ) < rank(i)
}

/// Whether a layout stopped, if it did, for a reason that lies in the document.
pub open spec fn founded<T>(r: Result<T, Stop>) -> bool {
    r matches Err(stop) ==> !(stop is Depth) && !(stop is NoContainingNode)
}

/// Whatever waits for a node stands below it.
pub open spec fn waits_below(state: LayoutModel, rank: spec_fn(usize) -> nat) -> bool {
    forall|i: usize, k: int|
        i < state.containing.len() && state.containing[i as int] is Some && 0 <= k
            < state.containing[i as int]->0.waiters.len() ==> rank(
            (#[trigger] state.containing[i as int]->0.waiters[k]).node_idx,
        ) < rank(i)
}

/// A node is a containing node.
pub open spec fn is_open(state: LayoutModel, node_idx: usize) -> bool {
    entry(state.containing, node_idx as int) is Some
}

/// Containing nodes stay containing nodes.
pub open spec fn stay_open(before: LayoutModel, after: LayoutModel) -> bool {
    &&& before.containing.len() == after.containing.len()
    &&& forall|i: int|
        0 <= i < before.containing.len() && before.containing[i] is Some
            ==> #[trigger] after.containing[i] is Some
}

/// A layout that goes on has kept its order; one that stops has a reason in the document.
pub open spec fn goes_on<T>(
    before: LayoutModel,
    rank: spec_fn(usize) -> nat,
    r: Result<(LayoutModel, T), Stop>,
) -> bool {
    match r {
        Err(_) => founded(r),
        Ok((after, _)) => waits_below(after, rank) && stay_open(before, after),
    }
}

/// A node can be laid out so that it goes on.
pub open spec fn can_start(
    input: LayoutInput,
    rank: spec_fn(usize) -> nat,
    state: LayoutModel,
    call: Call,
    fuel: nat,
) -> bool {
    &&& ranked(input, rank)
    &&& state.containing.len() == input.nodes@.len()
    &&& waits_below(state, rank)
    &&& is_open(state, input.root)
    &&& is_open(state, call.containing)
    &&& rank(call.node_idx) < fuel
    &&& rank(call.node_idx) <= rank(input.root)
    &&& rank(call.node_idx) <= rank(call.containing)
}

/// The inside of a node can be laid out so that it goes on.
pub open spec fn can_run(
    input: LayoutInput,
    rank: spec_fn(usize) -> nat,
    state: LayoutModel,
    run: Run,
    fuel: nat,
) -> bool {
    &&& ranked(input, rank)
    &&& state.containing.len() == input.nodes@.len()
    &&& waits_below(state, rank)
    &&& is_open(state, input.root)
    &&& is_open(state, run.containing)
    &&& run.call.node_idx < input.nodes@.len()
    &&& rank(run.call.node_idx) <= fuel
    &&& rank(run.call.node_idx) <= rank(input.root)
    &&& rank(run.call.node_idx) <= rank(run.containing)
}

/// All nodes stand below a node.
pub open spec fn all_below(items: Seq<usize>, node_idx: usize, rank: spec_fn(usize) -> nat) -> bool {
    forall|i: int| 0 <= i < items.len() ==> rank(#[trigger] items[i]) < rank(node_idx)
}

pub open spec fn waiting_below(
    items: Seq<ResumableNode>,
    node_idx: usize,
    rank: spec_fn(usize) -> nat,
) -> bool {
    forall|i: int| 0 <= i < items.len() ==> rank((#[trigger] items[i]).node_idx) < rank(node_idx)
}

pub open spec fn bases_below(
    items: Seq<FlexBase>,
    node_idx: usize,
    rank: spec_fn(usize) -> nat,
) -> bool {
    forall|i: int| 0 <= i < items.len() ==> rank((#[trigger] items[i]).node_idx) < rank(node_idx)
}

pub open spec fn cells_below(
    items: Seq<GridBaseItem>,
    node_idx: usize,
    rank: spec_fn(usize) -> nat,
) -> bool {
    forall|i: int| 0 <= i < items.len() ==> rank((#[trigger] items[i]).node_idx) < rank(node_idx)
}

/// The children that are nodes stand below a node.
pub open spec fn nodes_below(
    input: LayoutInput,
    children: Seq<usize>,
    node_idx: usize,
    rank: spec_fn(usize) -> nat,
) -> bool {
    forall|i: int|
        0 <= i < children.len() && children[i] < input.nodes@.len() ==> rank(
            #[trigger] children[i],
        ) < rank(node_idx)
}

proof fn lemma_facts_below(
    input: LayoutInput,
    children: Seq<usize>,
    node_idx: usize,
    rank: spec_fn(usize) -> nat,
)
    requires
        nodes_below(input, children, node_idx, rank),
    ensures
        forall|i: int|
            0 <= i < child_facts(input, children).len() ==> rank(
                (#[trigger] child_facts(input, children)[i]).node_idx,
            ) < rank(node_idx),
        child_facts(input, children).len() <= children.len(),
    decreases children.len(),
{
    if children.len() > 0 {
        let rest = children.drop_last();
        assert forall|i: int| 0 <= i < rest.len() && rest[i] < input.nodes@.len() implies rank(
            #[trigger] rest[i],
        ) < rank(node_idx) by {
            assert(children[i] == rest[i]);
        }
        lemma_facts_below(input, rest, node_idx, rank);
        assert(children.last() == children[children.len() - 1]);
    }
}

proof fn lemma_nodes_below(
    facts: Seq<ChildFact>,
    free: bool,
    node_idx: usize,
    rank: spec_fn(usize) -> nat,
)
    requires
        forall|i: int| 0 <= i < facts.len() ==> rank((#[trigger] facts[i]).node_idx) < rank(node_idx),
    ensures
        all_below(nodes_where(facts, free), node_idx, rank),
        nodes_where(facts, free).len() == orders_where(facts, free).len(),
        nodes_where(facts, free).len() <= facts.len(),
    decreases facts.len(),
{
    if facts.len() > 0 {
        let rest = facts.drop_last();
        assert forall|i: int| 0 <= i < rest.len() implies rank((#[trigger] rest[i]).node_idx) < rank(
            node_idx,
        ) by {
            assert(facts[i] == rest[i]);
        }
        lemma_nodes_below(rest, free, node_idx, rank);
        assert(facts.last() == facts[facts.len() - 1]);
    }
}

/// The children of a node, in and out of the flow, stand below it.
proof fn lemma_children_below(input: LayoutInput, node_idx: usize, rank: spec_fn(usize) -> nat)
    requires
        ranked(input, rank),
        node_idx < input.nodes@.len(),
    ensures
        ({
            let facts = child_facts(input, input.nodes@[node_idx as int].children@);
            &&& all_below(nodes_where(facts, false), node_idx, rank)
            &&& all_below(nodes_where(facts, true), node_idx, rank)
            &&& all_below(items_in_order(facts), node_idx, rank)
        }),
{
    let children = input.nodes@[node_idx as int].children@;
    let facts = child_facts(input, children);
    assert(nodes_below(input, children, node_idx, rank));
    lemma_facts_below(input, children, node_idx, rank);
    lemma_nodes_below(facts, false, node_idx, rank);
    lemma_nodes_below(facts, true, node_idx, rank);
    let nodes = nodes_where(facts, false);
    let orders = orders_where(facts, false);
    assert(children.len() == input.nodes@[node_idx as int].children.len());
    lemma_stable_positions(orders);
    assert forall|i: int| 0 <= i < items_in_order(facts).len() implies rank(
        #[trigger] items_in_order(facts)[i],
    ) < rank(node_idx) by {
        let place = stable_positions(orders)[i];
        assert(place < orders.len());
        assert(items_in_order(facts)[i] == nodes[place as int]);
    }
}

proof fn lemma_targets_founded(
    answers: Answers,
    plan: FlexPlan,
    items: Seq<FlexBase>,
    at: int,
    known: Seq<FlexTarget>,
)
    ensures
        founded(targets_from(answers, plan, items, at, known)),
    decreases items.len() - at,
{
    if 0 <= at < items.len() {
        match target(answers, plan, items[at]) {
            Err(_) => {},
            Ok(found) => {
                lemma_targets_founded(answers, plan, items, at + 1, known.push(found));
            },
        }
    }
}

proof fn lemma_shares_founded(
    answers: Answers,
    tracks: Seq<GridTrack>,
    space: u32,
    total: i32,
    at: int,
    known: Seq<i32>,
)
    ensures
        founded(shares_from(answers, tracks, space, total, at, known)),
    decreases tracks.len() - at,
{
    if 0 <= at < tracks.len() {
        match share_in(answers, tracks[at], space, total) {
            Err(_) => {},
            Ok(share) => {
                lemma_shares_founded(answers, tracks, space, total, at + 1, known.push(share));
            },
        }
    }
}

proof fn lemma_cells_below(
    items: Seq<GridBaseItem>,
    columns: AxisModel,
    rows: AxisModel,
    at: int,
    known: Seq<GridBaseItem>,
    node_idx: usize,
    rank: spec_fn(usize) -> nat,
)
    requires
        cells_below(items, node_idx, rank),
        cells_below(known, node_idx, rank),
    ensures
        cells_from(items, columns, rows, at, known) matches Some(cells) ==> cells_below(
            cells,
            node_idx,
            rank,
        ),
    decreases items.len() - at,
{
    if 0 <= at < items.len() {
        match in_cell(items[at], columns, rows) {
            None => {},
            Some(item) => {
                assert(item.node_idx == items[at].node_idx);
                lemma_cells_below(items, columns, rows, at + 1, known.push(item), node_idx, rank);
            },
        }
    }
}

proof fn lemma_grid_cells(
    answers: Answers,
    placer: PlacerModel,
    columns: AxisModel,
    rows: AxisModel,
    node_idx: usize,
    rank: spec_fn(usize) -> nat,
)
    requires
        cells_below(placer.items, node_idx, rank),
    ensures
        founded(grid_cells(answers, placer, columns, rows)),
        grid_cells(answers, placer, columns, rows) matches Ok(cells) ==> cells_below(
            cells,
            node_idx,
            rank,
        ),
{
    lemma_axis_measured(answers, columns, crate::layout_model::line_sizes(placer, true));
    lemma_axis_measured(answers, rows, crate::layout_model::line_sizes(placer, false));
    match (
        columns.measured(answers, crate::layout_model::line_sizes(placer, true)),
        rows.measured(answers, crate::layout_model::line_sizes(placer, false)),
    ) {
        (Ok(columns), Ok(rows)) => {
            lemma_cells_below(placer.items, columns, rows, 0, Seq::empty(), node_idx, rank);
        },
        _ => {},
    }
}

proof fn lemma_axis_measured(answers: Answers, axis: AxisModel, largest: Seq<u32>)
    ensures
        founded(axis.measured(answers, largest)),
{
    let space = if axis.totals.fractions > 0 {
        crate::grid::after_autos(axis.tracks, largest, largest.len() as int, axis.space)
    } else {
        axis.space
    };
    lemma_shares_founded(answers, axis.tracks, space, axis.totals.fractions, 0, Seq::empty());
}

proof fn lemma_queued(
    input: LayoutInput,
    rank: spec_fn(usize) -> nat,
    state: LayoutModel,
    containing: usize,
    waiting: Seq<ResumableNode>,
    node_idx: usize,
    at: int,
)
    requires
        state.containing.len() == input.nodes@.len(),
        waits_below(state, rank),
        is_open(state, input.root),
        is_open(state, containing),
        rank(node_idx) <= rank(input.root),
        rank(node_idx) <= rank(containing),
        waiting_below(waiting, node_idx, rank),
    ensures
        match queued_from(input, state, containing, waiting, at) {
            Err(stop) => !(stop is Depth) && !(stop is NoContainingNode),
            Ok(after) => waits_below(after, rank) && stay_open(state, after),
        },
    decreases waiting.len() - at,
{
    if 0 <= at < waiting.len() {
        match input.style(waiting[at].node_idx) {
            None => {},
            Some(style) => {
                let target = if style.position is Fixed {
                    input.root
                } else {
                    containing
                };
                match state.queued(target, waiting[at]) {
                    Err(_) => {},
                    Ok(after) => {
                        assert(rank(waiting[at].node_idx) < rank(target));
                        assert forall|i: usize, k: int|
                            i < after.containing.len() && after.containing[i as int] is Some && 0
                                <= k < after.containing[i as int]->0.waiters.len() implies rank(
                            (#[trigger] after.containing[i as int]->0.waiters[k]).node_idx,
                        ) < rank(i) by {
                            if i == target {
                                let before = state.containing[i as int]->0.waiters;
                                if k < before.len() {
                                    assert(before[k] == after.containing[i as int]->0.waiters[k]);
                                    assert(state.containing[i as int]->0.waiters[k]
                                        == after.containing[i as int]->0.waiters[k]);
                                }
                            } else {
                                assert(state.containing[i as int]->0.waiters[k]
                                    == after.containing[i as int]->0.waiters[k]);
                            }
                        }
                        lemma_queued(
                            input,
                            rank,
                            after,
                            containing,
                            waiting,
                            node_idx,
                            at + 1,
                        );
                    },
                }
            },
        }
    }
}

proof fn lemma_opened(state: LayoutModel, rank: spec_fn(usize) -> nat, node_idx: usize, cursor: Position)
    requires
        waits_below(state, rank),
    ensures
        waits_below(state.opened(node_idx, cursor), rank),
        stay_open(state, state.opened(node_idx, cursor)),
        node_idx < state.containing.len() ==> is_open(state.opened(node_idx, cursor), node_idx),
{
    let after = state.opened(node_idx, cursor);
    assert forall|i: usize, k: int|
        i < after.containing.len() && after.containing[i as int] is Some && 0 <= k
            < after.containing[i as int]->0.waiters.len() implies rank(
        (#[trigger] after.containing[i as int]->0.waiters[k]).node_idx,
    ) < rank(i) by {
        assert(state.containing[i as int]->0.waiters[k]
            == after.containing[i as int]->0.waiters[k]);
    }
}

proof fn lemma_node(
    input: LayoutInput,
    answers: Answers,
    rank: spec_fn(usize) -> nat,
    state: LayoutModel,
    call: Call,
    fuel: nat,
)
    requires
        can_start(input, rank, state, call, fuel),
    ensures
        goes_on(state, rank, node_laid_out(input, answers, state, call, fuel)),
    decreases fuel, 0int, 0nat,
{
    match input.style(call.node_idx) {
        None => {},
        Some(style) => {
            let started = if call.complete {
                LayoutModel {
                    sizes: state.sizes.with_resolved(call.node_idx as int, None, None),
                    ..state
                }
            } else {
                state
            };
            let inside = (fuel - 1) as nat;
            assert(waits_below(started, rank));
            assert(stay_open(state, started));
            lemma_block(input, answers, rank, started, call, style, inside);
            lemma_flex(input, answers, rank, started, call, style, inside);
            lemma_grid(input, answers, rank, started, call, style, inside);
            lemma_boxes(input, answers, rank, started, call, style);
            lemma_finished(
                input,
                answers,
                rank,
                started,
                call,
                style,
                block_laid_out(input, answers, started, call, style, inside),
            );
            lemma_finished(
                input,
                answers,
                rank,
                started,
                call,
                style,
                flex_laid_out(input, answers, started, call, style, inside),
            );
            lemma_finished(
                input,
                answers,
                rank,
                started,
                call,
                style,
                grid_laid_out(input, answers, started, call, style, inside),
            );
        },
    }
}

proof fn lemma_boxes(
    input: LayoutInput,
    answers: Answers,
    rank: spec_fn(usize) -> nat,
    state: LayoutModel,
    call: Call,
    style: LayoutStyle,
)
    requires
        waits_below(state, rank),
    ensures
        goes_on(state, rank, text_box(answers, state, call, style)),
        goes_on(state, rank, replaced_box(input, answers, state, call, style)),
{
}

proof fn lemma_finished(
    input: LayoutInput,
    answers: Answers,
    rank: spec_fn(usize) -> nat,
    state: LayoutModel,
    call: Call,
    style: LayoutStyle,
    inside: Result<(LayoutModel, BodyModel), Stop>,
)
    requires
        goes_on(state, rank, inside),
    ensures
        goes_on(state, rank, finished(input, answers, call, style, inside)),
{
}

proof fn lemma_closed(
    input: LayoutInput,
    answers: Answers,
    rank: spec_fn(usize) -> nat,
    state: LayoutModel,
    run: Run,
    waiting: Seq<ResumableNode>,
    size: Size,
    children: Seq<usize>,
    fuel: nat,
)
    requires
        can_run(input, rank, state, run, fuel),
        waiting_below(waiting, run.call.node_idx, rank),
    ensures
        goes_on(state, rank, closed(input, answers, state, run, waiting, size, children, fuel)),
    decreases fuel, 6int, 0nat,
{
    let node_idx = run.call.node_idx;
    lemma_queued(input, rank, state, run.containing, waiting, node_idx, 0);
    match queued_from(input, state, run.containing, waiting, 0) {
        Err(_) => {},
        Ok(after) => if run.call.complete && run.containing == node_idx {
            match entry(after.containing, node_idx as int) {
                None => {
                    assert(after.containing[node_idx as int] is Some);
                },
                Some(node) => {
                    assert forall|k: int| 0 <= k < node.waiters.len() implies rank(
                        (#[trigger] node.waiters[k]).node_idx,
                    ) < rank(node_idx) by {
                        assert(after.containing[node_idx as int]->0.waiters[k] == node.waiters[k]);
                    }
                    assert(after.containing[input.root as int] is Some);
                    lemma_waiters(
                        input,
                        answers,
                        rank,
                        after,
                        node_idx,
                        node.cursor,
                        node.waiters,
                        size,
                        children,
                        0,
                        fuel,
                    );
                    match waiters_from(
                        input,
                        answers,
                        after,
                        node_idx,
                        node.cursor,
                        node.waiters,
                        size,
                        children,
                        0,
                        fuel,
                    ) {
                        Err(_) => {},
                        Ok((end, _)) => {
                            lemma_opened(end, rank, node_idx, node.cursor);
                            lemma_stay_open(state, after, end);
                            lemma_stay_open(state, end, end.opened(node_idx, node.cursor));
                        },
                    }
                },
            }
        },
    }
}

proof fn lemma_stay_open(before: LayoutModel, between: LayoutModel, after: LayoutModel)
    requires
        stay_open(before, between),
        stay_open(between, after),
    ensures
        stay_open(before, after),
{
    assert forall|i: int|
        0 <= i < before.containing.len() && before.containing[i] is Some implies (
    #[trigger] after.containing[i]) is Some by {
        assert(between.containing[i] is Some);
    }
}

/// What goes on goes on from further back.
proof fn lemma_goes_on<T>(
    before: LayoutModel,
    between: LayoutModel,
    rank: spec_fn(usize) -> nat,
    r: Result<(LayoutModel, T), Stop>,
)
    requires
        stay_open(before, between),
        goes_on(between, rank, r),
    ensures
        goes_on(before, rank, r),
{
    if let Ok((after, _)) = r {
        lemma_stay_open(before, between, after);
    }
}

proof fn lemma_run_on(
    input: LayoutInput,
    rank: spec_fn(usize) -> nat,
    before: LayoutModel,
    after: LayoutModel,
    run: Run,
    fuel: nat,
)
    requires
        can_run(input, rank, before, run, fuel),
        waits_below(after, rank),
        stay_open(before, after),
    ensures
        can_run(input, rank, after, run, fuel),
{
    assert(after.containing[input.root as int] is Some);
    assert(after.containing[run.containing as int] is Some);
}

proof fn lemma_waiters(
    input: LayoutInput,
    answers: Answers,
    rank: spec_fn(usize) -> nat,
    state: LayoutModel,
    containing: usize,
    cursor: Position,
    waiters: Seq<ResumableNode>,
    size: Size,
    children: Seq<usize>,
    at: int,
    fuel: nat,
)
    requires
        ranked(input, rank),
        state.containing.len() == input.nodes@.len(),
        waits_below(state, rank),
        is_open(state, input.root),
        is_open(state, containing),
        rank(containing) <= fuel,
        rank(containing) <= rank(input.root),
        waiting_below(waiters, containing, rank),
    ensures
        goes_on(
            state,
            rank,
            waiters_from(
                input,
                answers,
                state,
                containing,
                cursor,
                waiters,
                size,
                children,
                at,
                fuel,
            ),
        ),
    decreases fuel, 5int, waiters.len() - at,
{
    if 0 <= at < waiters.len() {
        lemma_waiter(input, answers, rank, state, containing, cursor, waiters[at], size, fuel);
        match waiter_laid_out(
            input,
            answers,
            state,
            containing,
            cursor,
            waiters[at],
            size,
            fuel,
        ) {
            Err(_) => {},
            Ok((after, id)) => {
                let next = match id {
                    Some(id) => children.push(id),
                    None => children,
                };
                assert(after.containing[input.root as int] is Some);
                assert(after.containing[containing as int] is Some);
                lemma_waiters(
                    input,
                    answers,
                    rank,
                    after,
                    containing,
                    cursor,
                    waiters,
                    size,
                    next,
                    at + 1,
                    fuel,
                );
                lemma_goes_on(
                    state,
                    after,
                    rank,
                    waiters_from(
                        input,
                        answers,
                        after,
                        containing,
                        cursor,
                        waiters,
                        size,
                        next,
                        at + 1,
                        fuel,
                    ),
                );
            },
        }
    }
}

proof fn lemma_waiter(
    input: LayoutInput,
    answers: Answers,
    rank: spec_fn(usize) -> nat,
    state: LayoutModel,
    containing: usize,
    cursor: Position,
    waiter: ResumableNode,
    size: Size,
    fuel: nat,
)
    requires
        ranked(input, rank),
        state.containing.len() == input.nodes@.len(),
        waits_below(state, rank),
        is_open(state, input.root),
        is_open(state, containing),
        rank(containing) <= fuel,
        rank(containing) <= rank(input.root),
        rank(waiter.node_idx) < rank(containing),
    ensures
        goes_on(
            state,
            rank,
            waiter_laid_out(input, answers, state, containing, cursor, waiter, size, fuel),
        ),
    decreases fuel, 4int, 0nat,
{
    match input.style(waiter.node_idx) {
        None => {},
        Some(style) => {
            let frame = frame_size(style.position, size, input.window);
            match waiter_style(style, frame, input.window) {
                Err(_) => {},
                Ok(lengths) => {
                    let placement = waiter_placement(lengths, waiter, cursor, frame);
                    let call = Call {
                        node_idx: waiter.node_idx,
                        cursor: placement.cursor,
                        available: frame,
                        forced: placement.forced_size,
                        containing,
                        allow_fill: true,
                        save: true,
                        complete: true,
                    };
                    lemma_node(input, answers, rank, state, call, fuel);
                },
            }
        },
    }
}

proof fn lemma_block_children(
    input: LayoutInput,
    answers: Answers,
    rank: spec_fn(usize) -> nat,
    state: LayoutModel,
    flow: FlowModel,
    run: Run,
    items: Seq<usize>,
    at: int,
    fuel: nat,
)
    requires
        can_run(input, rank, state, run, fuel),
        all_below(items, run.call.node_idx, rank),
    ensures
        goes_on(
            state,
            rank,
            block_children(input, answers, state, flow, run, items, at, fuel),
        ),
    decreases fuel, 5int, items.len() - at,
{
    if 0 <= at < items.len() {
        lemma_block_child(input, answers, rank, state, flow, run, items, at, fuel);
        match block_child(input, answers, state, flow, run, items, at, fuel) {
            Err(_) => {},
            Ok((after, next)) => {
                lemma_run_on(input, rank, state, after, run, fuel);
                lemma_block_children(
                    input,
                    answers,
                    rank,
                    after,
                    next,
                    run,
                    items,
                    at + 1,
                    fuel,
                );
                lemma_goes_on(
                    state,
                    after,
                    rank,
                    block_children(input, answers, after, next, run, items, at + 1, fuel),
                );
            },
        }
    }
}

proof fn lemma_block_child(
    input: LayoutInput,
    answers: Answers,
    rank: spec_fn(usize) -> nat,
    state: LayoutModel,
    flow: FlowModel,
    run: Run,
    items: Seq<usize>,
    at: int,
    fuel: nat,
)
    requires
        can_run(input, rank, state, run, fuel),
        all_below(items, run.call.node_idx, rank),
        0 <= at < items.len(),
    ensures
        goes_on(state, rank, block_child(input, answers, state, flow, run, items, at, fuel)),
    decreases fuel, 4int, 0nat,
{
    match input.style(items[at]) {
        None => {},
        Some(style) => {
            match margins(style, run.call.available, input.window) {
                Err(_) => {},
                Ok(edges) => {
                    let cursor = Position {
                        x: (flow.x + edges.left) as i32,
                        y: (flow.y + edges.top) as i32,
                    };
                    let call = call_inside(run, items[at], cursor, run.inner, no_size());
                    lemma_node(input, answers, rank, state, call, fuel);
                },
            }
        },
    }
}

proof fn lemma_waiting_below(free: Seq<usize>, node_idx: usize, rank: spec_fn(usize) -> nat)
    requires
        all_below(free, node_idx, rank),
    ensures
        waiting_below(waiting(free), node_idx, rank),
{
    assert forall|i: int| 0 <= i < waiting(free).len() implies rank(
        (#[trigger] waiting(free)[i]).node_idx,
    ) < rank(node_idx) by {
        assert(rank(free[i]) < rank(node_idx));
    }
}

proof fn lemma_block_finished(
    input: LayoutInput,
    answers: Answers,
    rank: spec_fn(usize) -> nat,
    state: LayoutModel,
    flow: FlowModel,
    run: Run,
    style: LayoutStyle,
    sizes: ContainerSizes,
    padding: Edges,
    specified_height: Option<u32>,
    free: Seq<usize>,
    fuel: nat,
)
    requires
        can_run(input, rank, state, run, fuel),
        all_below(free, run.call.node_idx, rank),
    ensures
        goes_on(
            state,
            rank,
            block_finished(
                input,
                answers,
                state,
                flow,
                run,
                style,
                sizes,
                padding,
                specified_height,
                free,
                fuel,
            ),
        ),
    decreases fuel, 7int, 0nat,
{
    let fills = run.call.allow_fill && !(style.display is InlineBlock) && !(style.display is Inline)
        && !(style.width is Content);
    let size = block_size(flow, specified_height, sizes, padding, fills);
    let known = resolved(state, run.call.node_idx, size.height, size.width);
    lemma_waiting_below(free, run.call.node_idx, rank);
    match free_room(size.width, padding, sizes.inner_height, size.content_height) {
        None => {},
        Some((room, free_y)) => match known.divided(flow.lines, room, free_y) {
            Err(_) => {},
            Ok(divided) => {
                assert(divided.containing == state.containing);
                assert(stay_open(state, divided));
                assert(waits_below(divided, rank));
                lemma_closed(
                    input,
                    answers,
                    rank,
                    divided,
                    run,
                    waiting(free),
                    Size { width: size.width, height: size.height },
                    flow.children,
                    fuel,
                );
            },
        },
    }
}

proof fn lemma_block(
    input: LayoutInput,
    answers: Answers,
    rank: spec_fn(usize) -> nat,
    state: LayoutModel,
    call: Call,
    style: LayoutStyle,
    fuel: nat,
)
    requires
        can_start(input, rank, state, call, fuel + 1),
        call.node_idx < input.nodes@.len(),
    ensures
        goes_on(state, rank, block_laid_out(input, answers, state, call, style, fuel)),
    decreases fuel, 9int, 0nat,
{
    let node_idx = call.node_idx;
    let block = block_of(input, state.sizes, node_idx, style, call.containing);
    match (
        paddings(style, block.1, input.window),
        specified(input, style, call.forced, block),
    ) {
        (Ok(padding), Ok(wanted)) => match flow_begun(call.cursor, padding) {
            None => {},
            Some(flow) => {
                let noted = state.sizes.with_specified(node_idx as int, wanted.0, wanted.1);
                let block = block_of(input, noted, node_idx, style, call.containing);
                match container(input, style, call.forced, call.available, block) {
                    Err(_) => {},
                    Ok(sizes) => {
                        let known = sized(state, node_idx, wanted, sizes);
                        assert(waits_below(known, rank));
                        lemma_opened(known, rank, node_idx, call.cursor);
                        let inside = positioned(known, call, style);
                        assert(stay_open(state, inside));
                        assert(inside.containing[input.root as int] is Some);
                        assert(inside.containing[call.containing as int] is Some);
                        lemma_block_inside(
                            input,
                            answers,
                            rank,
                            inside,
                            flow,
                            call,
                            style,
                            sizes,
                            padding,
                            wanted.0,
                            fuel,
                        );
                        lemma_goes_on(
                            state,
                            inside,
                            rank,
                            block_inside(
                                input,
                                answers,
                                inside,
                                flow,
                                call,
                                style,
                                sizes,
                                padding,
                                wanted.0,
                                fuel,
                            ),
                        );
                    },
                }
            },
        },
        _ => {},
    }
}

/// The inside of a node can be laid out, where the node is its own containing node or has one.
pub open spec fn can_enter(
    input: LayoutInput,
    rank: spec_fn(usize) -> nat,
    state: LayoutModel,
    call: Call,
    style: LayoutStyle,
    fuel: nat,
) -> bool {
    &&& can_start(input, rank, state, call, fuel + 1)
    &&& call.node_idx < input.nodes@.len()
    &&& is_open(state, containing_inside(call, style))
}

proof fn lemma_block_inside(
    input: LayoutInput,
    answers: Answers,
    rank: spec_fn(usize) -> nat,
    state: LayoutModel,
    flow: FlowModel,
    call: Call,
    style: LayoutStyle,
    sizes: ContainerSizes,
    padding: Edges,
    specified_height: Option<u32>,
    fuel: nat,
)
    requires
        can_enter(input, rank, state, call, style, fuel),
    ensures
        goes_on(
            state,
            rank,
            block_inside(
                input,
                answers,
                state,
                flow,
                call,
                style,
                sizes,
                padding,
                specified_height,
                fuel,
            ),
        ),
    decreases fuel, 8int, 0nat,
{
    let run = Run {
        call,
        containing: containing_inside(call, style),
        inner: Size { width: sizes.inner_width, height: sizes.inner_height },
        fill: call.allow_fill && !(style.display is InlineBlock) && !(style.display is Inline),
        font_size: style.font_size,
    };
    let facts = child_facts(input, input.nodes@[call.node_idx as int].children@);
    let items = nodes_where(facts, false);
    lemma_children_below(input, call.node_idx, rank);
    lemma_block_children(input, answers, rank, state, flow, run, items, 0, fuel);
    match block_children(input, answers, state, flow, run, items, 0, fuel) {
        Err(_) => {},
        Ok((placed, end)) => match block_text(
            input,
            answers,
            placed,
            end,
            call,
            style,
            items.len() == 0,
        ) {
            Err(_) => {},
            Ok((written, all)) => {
                assert(written.containing == placed.containing);
                assert(waits_below(written, rank));
                assert(stay_open(state, written));
                lemma_run_on(input, rank, state, written, run, fuel);
                lemma_block_finished(
                    input,
                    answers,
                    rank,
                    written,
                    all,
                    run,
                    style,
                    sizes,
                    padding,
                    specified_height,
                    nodes_where(facts, true),
                    fuel,
                );
                lemma_goes_on(
                    state,
                    written,
                    rank,
                    block_finished(
                        input,
                        answers,
                        written,
                        all,
                        run,
                        style,
                        sizes,
                        padding,
                        specified_height,
                        nodes_where(facts, true),
                        fuel,
                    ),
                );
            },
        },
    }
}

proof fn lemma_flex_bases(
    input: LayoutInput,
    answers: Answers,
    rank: spec_fn(usize) -> nat,
    state: LayoutModel,
    bases: Seq<FlexBase>,
    run: Run,
    style: LayoutStyle,
    sizes: ContainerSizes,
    definite: bool,
    items: Seq<usize>,
    at: int,
    fuel: nat,
)
    requires
        can_run(input, rank, state, run, fuel),
        all_below(items, run.call.node_idx, rank),
        bases_below(bases, run.call.node_idx, rank),
    ensures
        ({
            let r = flex_bases(
                input,
                answers,
                state,
                bases,
                run,
                style,
                sizes,
                definite,
                items,
                at,
                fuel,
            );
            &&& goes_on(state, rank, r)
            &&& r matches Ok((_, all)) ==> bases_below(all, run.call.node_idx, rank)
        }),
    decreases fuel, 5int, items.len() - at,
{
    if 0 <= at < items.len() {
        lemma_flex_base(
            input,
            answers,
            rank,
            state,
            bases,
            run,
            style,
            sizes,
            definite,
            items[at],
            fuel,
        );
        match flex_base(
            input,
            answers,
            state,
            bases,
            run,
            style,
            sizes,
            definite,
            items[at],
            fuel,
        ) {
            Err(_) => {},
            Ok((after, next)) => {
                lemma_run_on(input, rank, state, after, run, fuel);
                lemma_flex_bases(
                    input,
                    answers,
                    rank,
                    after,
                    next,
                    run,
                    style,
                    sizes,
                    definite,
                    items,
                    at + 1,
                    fuel,
                );
                lemma_goes_on(
                    state,
                    after,
                    rank,
                    flex_bases(
                        input,
                        answers,
                        after,
                        next,
                        run,
                        style,
                        sizes,
                        definite,
                        items,
                        at + 1,
                        fuel,
                    ),
                );
            },
        }
    }
}

proof fn lemma_flex_base(
    input: LayoutInput,
    answers: Answers,
    rank: spec_fn(usize) -> nat,
    state: LayoutModel,
    bases: Seq<FlexBase>,
    run: Run,
    style: LayoutStyle,
    sizes: ContainerSizes,
    definite: bool,
    item: usize,
    fuel: nat,
)
    requires
        can_run(input, rank, state, run, fuel),
        rank(item) < rank(run.call.node_idx),
        bases_below(bases, run.call.node_idx, rank),
    ensures
        ({
            let r = flex_base(
                input,
                answers,
                state,
                bases,
                run,
                style,
                sizes,
                definite,
                item,
                fuel,
            );
            &&& goes_on(state, rank, r)
            &&& r matches Ok((_, all)) ==> bases_below(all, run.call.node_idx, rank)
        }),
    decreases fuel, 4int, 0nat,
{
    match input.style(item) {
        None => {},
        Some(child) => match flex_basis(
            child,
            style.flex_direction,
            sizes,
            definite,
            input.window,
        ) {
            Err(_) => {},
            Ok(basis) => {
                let forced = basis_forced(style.flex_direction, basis);
                let call = call_to_measure(run, item, Position { x: 0, y: 0 }, forced);
                lemma_node(input, answers, rank, state, call, fuel);
            },
        },
    }
}

proof fn lemma_flex_sized(
    input: LayoutInput,
    answers: Answers,
    style: LayoutStyle,
    sizes: ContainerSizes,
    allow_fill: bool,
    definite: bool,
    bases: Seq<FlexBase>,
)
    ensures
        founded(flex_sized(input, answers, style, sizes, allow_fill, definite, bases)),
{
    assert forall|plan: FlexPlan| founded(
        #[trigger] targets_from(answers, plan, bases, 0, Seq::empty()),
    ) by {
        lemma_targets_founded(answers, plan, bases, 0, Seq::empty());
    }
}

proof fn lemma_flex_places(
    input: LayoutInput,
    answers: Answers,
    rank: spec_fn(usize) -> nat,
    state: LayoutModel,
    line: LineModel,
    run: Run,
    style: LayoutStyle,
    sizes: ContainerSizes,
    definite: bool,
    bases: Seq<FlexBase>,
    planned: FlexSizes,
    at: int,
    fuel: nat,
)
    requires
        can_run(input, rank, state, run, fuel),
        bases_below(bases, run.call.node_idx, rank),
    ensures
        goes_on(
            state,
            rank,
            flex_places(
                input,
                answers,
                state,
                line,
                run,
                style,
                sizes,
                definite,
                bases,
                planned,
                at,
                fuel,
            ),
        ),
    decreases fuel, 5int, bases.len() - at,
{
    if 0 <= at < bases.len() {
        lemma_flex_place(
            input,
            answers,
            rank,
            state,
            line,
            run,
            style,
            sizes,
            definite,
            bases,
            planned,
            at,
            fuel,
        );
        match flex_place(
            input,
            answers,
            state,
            line,
            run,
            style,
            sizes,
            definite,
            bases,
            planned,
            at,
            fuel,
        ) {
            Err(_) => {},
            Ok((after, next)) => {
                lemma_run_on(input, rank, state, after, run, fuel);
                lemma_flex_places(
                    input,
                    answers,
                    rank,
                    after,
                    next,
                    run,
                    style,
                    sizes,
                    definite,
                    bases,
                    planned,
                    at + 1,
                    fuel,
                );
                lemma_goes_on(
                    state,
                    after,
                    rank,
                    flex_places(
                        input,
                        answers,
                        after,
                        next,
                        run,
                        style,
                        sizes,
                        definite,
                        bases,
                        planned,
                        at + 1,
                        fuel,
                    ),
                );
            },
        }
    }
}

proof fn lemma_flex_place(
    input: LayoutInput,
    answers: Answers,
    rank: spec_fn(usize) -> nat,
    state: LayoutModel,
    line: LineModel,
    run: Run,
    style: LayoutStyle,
    sizes: ContainerSizes,
    definite: bool,
    bases: Seq<FlexBase>,
    planned: FlexSizes,
    at: int,
    fuel: nat,
)
    requires
        can_run(input, rank, state, run, fuel),
        bases_below(bases, run.call.node_idx, rank),
        0 <= at < bases.len(),
    ensures
        goes_on(
            state,
            rank,
            flex_place(
                input,
                answers,
                state,
                line,
                run,
                style,
                sizes,
                definite,
                bases,
                planned,
                at,
                fuel,
            ),
        ),
    decreases fuel, 4int, 0nat,
{
    match input.style(bases[at].node_idx) {
        None => {},
        Some(child) => match margins(child, run.call.available, input.window) {
            Err(_) => {},
            Ok(edges) => {
                let (available, forced) = item_sizes(
                    style,
                    sizes,
                    definite,
                    bases[at],
                    planned.targets[at],
                    planned,
                );
                let cursor = Position {
                    x: line.item_x(edges) as i32,
                    y: line.item_y(edges) as i32,
                };
                let call = call_inside(run, bases[at].node_idx, cursor, available, forced);
                lemma_node(input, answers, rank, state, call, fuel);
            },
        },
    }
}

proof fn lemma_flex_waiting(
    input: LayoutInput,
    rank: spec_fn(usize) -> nat,
    state: LayoutModel,
    run: Run,
    style: LayoutStyle,
    padding: Edges,
    height: u32,
    free: Seq<usize>,
    at: int,
    known: Seq<ResumableNode>,
)
    requires
        all_below(free, run.call.node_idx, rank),
        waiting_below(known, run.call.node_idx, rank),
    ensures
        ({
            let r = flex_waiting(input, state, run, style, padding, height, free, at, known);
            &&& founded(r)
            &&& r matches Ok(all) ==> waiting_below(all, run.call.node_idx, rank)
        }),
    decreases free.len() - at,
{
    if 0 <= at < free.len() {
        match flex_waiter(input, state, run, style, padding, height, free[at]) {
            Err(_) => {},
            Ok(waiter) => {
                assert(waiter.node_idx == free[at]);
                lemma_flex_waiting(
                    input,
                    rank,
                    state,
                    run,
                    style,
                    padding,
                    height,
                    free,
                    at + 1,
                    known.push(waiter),
                );
            },
        }
    }
}

proof fn lemma_flex_finished(
    input: LayoutInput,
    answers: Answers,
    rank: spec_fn(usize) -> nat,
    state: LayoutModel,
    line: LineModel,
    run: Run,
    style: LayoutStyle,
    sizes: ContainerSizes,
    padding: Edges,
    specified_height: Option<u32>,
    free: Seq<usize>,
    fuel: nat,
)
    requires
        can_run(input, rank, state, run, fuel),
        all_below(free, run.call.node_idx, rank),
    ensures
        goes_on(
            state,
            rank,
            flex_finished(
                input,
                answers,
                state,
                line,
                run,
                style,
                sizes,
                padding,
                specified_height,
                free,
                fuel,
            ),
        ),
    decreases fuel, 7int, 0nat,
{
    let fills = run.call.allow_fill && !(style.display is InlineFlex);
    let size = line_size(line, specified_height, sizes, padding, fills);
    match free_room(size.width, padding, sizes.inner_height, size.content_height) {
        None => {},
        Some((room, free_y)) => match state.divided(line.lines, room, free_y) {
            Err(_) => {},
            Ok(divided) => {
                let known = resolved(divided, run.call.node_idx, size.height, size.width);
                assert(known.containing == state.containing);
                assert(stay_open(state, known));
                assert(waits_below(known, rank));
                lemma_flex_waiting(
                    input,
                    rank,
                    known,
                    run,
                    style,
                    padding,
                    size.height,
                    free,
                    0,
                    Seq::empty(),
                );
                match flex_waiting(
                    input,
                    known,
                    run,
                    style,
                    padding,
                    size.height,
                    free,
                    0,
                    Seq::empty(),
                ) {
                    Err(_) => {},
                    Ok(waiting) => {
                        lemma_closed(
                            input,
                            answers,
                            rank,
                            known,
                            run,
                            waiting,
                            Size { width: size.width, height: size.height },
                            line.children,
                            fuel,
                        );
                    },
                }
            },
        },
    }
}

proof fn lemma_flex_inside(
    input: LayoutInput,
    answers: Answers,
    rank: spec_fn(usize) -> nat,
    state: LayoutModel,
    call: Call,
    style: LayoutStyle,
    sizes: ContainerSizes,
    padding: Edges,
    specified_height: Option<u32>,
    fuel: nat,
)
    requires
        can_enter(input, rank, state, call, style, fuel),
    ensures
        goes_on(
            state,
            rank,
            flex_inside(
                input,
                answers,
                state,
                call,
                style,
                sizes,
                padding,
                specified_height,
                fuel,
            ),
        ),
    decreases fuel, 8int, 0nat,
{
    let run = Run {
        call,
        containing: containing_inside(call, style),
        inner: Size { width: sizes.inner_width, height: sizes.inner_height },
        fill: call.allow_fill,
        font_size: style.font_size,
    };
    let definite = specified_height is Some;
    let facts = child_facts(input, input.nodes@[call.node_idx as int].children@);
    let items = items_in_order(facts);
    lemma_children_below(input, call.node_idx, rank);
    match flex_text(input, answers, state, call, style, padding, items.len() == 0) {
        Err(_) => {},
        Ok((written, texts)) => {
            assert(written.containing == state.containing);
            assert(waits_below(written, rank));
            lemma_run_on(input, rank, state, written, run, fuel);
            lemma_flex_bases(
                input,
                answers,
                rank,
                written,
                Seq::empty(),
                run,
                style,
                sizes,
                definite,
                items,
                0,
                fuel,
            );
            match flex_bases(
                input,
                answers,
                written,
                Seq::empty(),
                run,
                style,
                sizes,
                definite,
                items,
                0,
                fuel,
            ) {
                Err(_) => {},
                Ok((measured, bases)) => {
                    lemma_stay_open(state, written, measured);
                    lemma_run_on(input, rank, state, measured, run, fuel);
                    lemma_flex_sized(
                        input,
                        answers,
                        style,
                        sizes,
                        call.allow_fill,
                        definite,
                        bases,
                    );
                    lemma_flex_line(
                        input,
                        answers,
                        rank,
                        measured,
                        run,
                        style,
                        sizes,
                        padding,
                        specified_height,
                        bases,
                        texts,
                        nodes_where(facts, true),
                        fuel,
                    );
                    lemma_goes_on(
                        state,
                        measured,
                        rank,
                        flex_line(
                            input,
                            answers,
                            measured,
                            run,
                            style,
                            sizes,
                            padding,
                            specified_height,
                            bases,
                            texts,
                            nodes_where(facts, true),
                            fuel,
                        ),
                    );
                },
            }
        },
    }
}

/// The line of a flex container whose items have been measured.
spec fn flex_line(
    input: LayoutInput,
    answers: Answers,
    state: LayoutModel,
    run: Run,
    style: LayoutStyle,
    sizes: ContainerSizes,
    padding: Edges,
    specified_height: Option<u32>,
    bases: Seq<FlexBase>,
    texts: Seq<usize>,
    free: Seq<usize>,
    fuel: nat,
) -> Result<(LayoutModel, BodyModel), Stop> {
    let definite = specified_height is Some;
    match flex_sized(input, answers, style, sizes, run.call.allow_fill, definite, bases) {
        Err(stop) => Err(stop),
        Ok(planned) => match line_begun(
            style.flex_direction,
            run.call.cursor,
            padding,
            planned.start,
            planned.gap,
        ) {
            None => Err(Stop::Range),
            Some(line) => match flex_places(
                input,
                answers,
                state,
                LineModel { children: texts, ..line },
                run,
                style,
                sizes,
                definite,
                bases,
                planned,
                0,
                fuel,
            ) {
                Err(stop) => Err(stop),
                Ok((placed, end)) => flex_finished(
                    input,
                    answers,
                    placed,
                    end,
                    run,
                    style,
                    sizes,
                    padding,
                    specified_height,
                    free,
                    fuel,
                ),
            },
        },
    }
}

proof fn lemma_flex_line(
    input: LayoutInput,
    answers: Answers,
    rank: spec_fn(usize) -> nat,
    state: LayoutModel,
    run: Run,
    style: LayoutStyle,
    sizes: ContainerSizes,
    padding: Edges,
    specified_height: Option<u32>,
    bases: Seq<FlexBase>,
    texts: Seq<usize>,
    free: Seq<usize>,
    fuel: nat,
)
    requires
        can_run(input, rank, state, run, fuel),
        bases_below(bases, run.call.node_idx, rank),
        all_below(free, run.call.node_idx, rank),
    ensures
        goes_on(
            state,
            rank,
            flex_line(
                input,
                answers,
                state,
                run,
                style,
                sizes,
                padding,
                specified_height,
                bases,
                texts,
                free,
                fuel,
            ),
        ),
    decreases fuel, 7int, 1nat,
{
    let definite = specified_height is Some;
    lemma_flex_sized(input, answers, style, sizes, run.call.allow_fill, definite, bases);
    match flex_sized(input, answers, style, sizes, run.call.allow_fill, definite, bases) {
        Err(_) => {},
        Ok(planned) => match line_begun(
            style.flex_direction,
            run.call.cursor,
            padding,
            planned.start,
            planned.gap,
        ) {
            None => {},
            Some(line) => {
                let begun = LineModel { children: texts, ..line };
                lemma_flex_places(
                    input,
                    answers,
                    rank,
                    state,
                    begun,
                    run,
                    style,
                    sizes,
                    definite,
                    bases,
                    planned,
                    0,
                    fuel,
                );
                match flex_places(
                    input,
                    answers,
                    state,
                    begun,
                    run,
                    style,
                    sizes,
                    definite,
                    bases,
                    planned,
                    0,
                    fuel,
                ) {
                    Err(_) => {},
                    Ok((placed, end)) => {
                        lemma_run_on(input, rank, state, placed, run, fuel);
                        lemma_flex_finished(
                            input,
                            answers,
                            rank,
                            placed,
                            end,
                            run,
                            style,
                            sizes,
                            padding,
                            specified_height,
                            free,
                            fuel,
                        );
                        lemma_goes_on(
                            state,
                            placed,
                            rank,
                            flex_finished(
                                input,
                                answers,
                                placed,
                                end,
                                run,
                                style,
                                sizes,
                                padding,
                                specified_height,
                                free,
                                fuel,
                            ),
                        );
                    },
                }
            },
        },
    }
}

proof fn lemma_flex(
    input: LayoutInput,
    answers: Answers,
    rank: spec_fn(usize) -> nat,
    state: LayoutModel,
    call: Call,
    style: LayoutStyle,
    fuel: nat,
)
    requires
        can_start(input, rank, state, call, fuel + 1),
        call.node_idx < input.nodes@.len(),
    ensures
        goes_on(state, rank, flex_laid_out(input, answers, state, call, style, fuel)),
    decreases fuel, 9int, 0nat,
{
    let node_idx = call.node_idx;
    let block = block_of(input, state.sizes, node_idx, style, call.containing);
    match (
        paddings(style, block.1, input.window),
        container(input, style, call.forced, call.available, block),
        specified(input, style, call.forced, block),
    ) {
        (Ok(padding), Ok(sizes), Ok(wanted)) => {
            let known = sized(state, node_idx, wanted, sizes);
            assert(waits_below(known, rank));
            lemma_opened(known, rank, node_idx, call.cursor);
            let inside = positioned(known, call, style);
            assert(stay_open(state, inside));
            assert(inside.containing[input.root as int] is Some);
            assert(inside.containing[call.containing as int] is Some);
            lemma_flex_inside(
                input,
                answers,
                rank,
                inside,
                call,
                style,
                sizes,
                padding,
                wanted.0,
                fuel,
            );
            lemma_goes_on(
                state,
                inside,
                rank,
                flex_inside(
                    input,
                    answers,
                    inside,
                    call,
                    style,
                    sizes,
                    padding,
                    wanted.0,
                    fuel,
                ),
            );
        },
        _ => {},
    }
}

proof fn lemma_grid_bases(
    input: LayoutInput,
    answers: Answers,
    rank: spec_fn(usize) -> nat,
    state: LayoutModel,
    placer: PlacerModel,
    run: Run,
    origin: Position,
    items: Seq<usize>,
    at: int,
    fuel: nat,
)
    requires
        can_run(input, rank, state, run, fuel),
        all_below(items, run.call.node_idx, rank),
        cells_below(placer.items, run.call.node_idx, rank),
    ensures
        ({
            let r = grid_bases(input, answers, state, placer, run, origin, items, at, fuel);
            &&& goes_on(state, rank, r)
            &&& r matches Ok((_, all)) ==> cells_below(all.items, run.call.node_idx, rank)
        }),
    decreases fuel, 5int, items.len() - at,
{
    if 0 <= at < items.len() {
        lemma_grid_base(input, answers, rank, state, placer, run, origin, items[at], fuel);
        match grid_base(input, answers, state, placer, run, origin, items[at], fuel) {
            Err(_) => {},
            Ok((after, next)) => {
                lemma_run_on(input, rank, state, after, run, fuel);
                lemma_grid_bases(
                    input,
                    answers,
                    rank,
                    after,
                    next,
                    run,
                    origin,
                    items,
                    at + 1,
                    fuel,
                );
                lemma_goes_on(
                    state,
                    after,
                    rank,
                    grid_bases(input, answers, after, next, run, origin, items, at + 1, fuel),
                );
            },
        }
    }
}

proof fn lemma_grid_base(
    input: LayoutInput,
    answers: Answers,
    rank: spec_fn(usize) -> nat,
    state: LayoutModel,
    placer: PlacerModel,
    run: Run,
    origin: Position,
    item: usize,
    fuel: nat,
)
    requires
        can_run(input, rank, state, run, fuel),
        rank(item) < rank(run.call.node_idx),
        cells_below(placer.items, run.call.node_idx, rank),
    ensures
        ({
            let r = grid_base(input, answers, state, placer, run, origin, item, fuel);
            &&& goes_on(state, rank, r)
            &&& r matches Ok((_, all)) ==> cells_below(all.items, run.call.node_idx, rank)
        }),
    decreases fuel, 4int, 0nat,
{
    let call = call_to_measure(run, item, origin, no_size());
    lemma_node(input, answers, rank, state, call, fuel);
}

proof fn lemma_grid_places(
    input: LayoutInput,
    answers: Answers,
    rank: spec_fn(usize) -> nat,
    state: LayoutModel,
    grid: GridModel,
    run: Run,
    style: LayoutStyle,
    items: Seq<GridBaseItem>,
    at: int,
    fuel: nat,
)
    requires
        can_run(input, rank, state, run, fuel),
        cells_below(items, run.call.node_idx, rank),
    ensures
        goes_on(
            state,
            rank,
            grid_places(input, answers, state, grid, run, style, items, at, fuel),
        ),
    decreases fuel, 5int, items.len() - at,
{
    if 0 <= at < items.len() {
        lemma_grid_place(input, answers, rank, state, grid, run, style, items[at], fuel);
        match grid_place(input, answers, state, grid, run, style, items[at], fuel) {
            Err(_) => {},
            Ok((after, next)) => {
                lemma_run_on(input, rank, state, after, run, fuel);
                lemma_grid_places(
                    input,
                    answers,
                    rank,
                    after,
                    next,
                    run,
                    style,
                    items,
                    at + 1,
                    fuel,
                );
                lemma_goes_on(
                    state,
                    after,
                    rank,
                    grid_places(input, answers, after, next, run, style, items, at + 1, fuel),
                );
            },
        }
    }
}

proof fn lemma_grid_place(
    input: LayoutInput,
    answers: Answers,
    rank: spec_fn(usize) -> nat,
    state: LayoutModel,
    grid: GridModel,
    run: Run,
    style: LayoutStyle,
    item: GridBaseItem,
    fuel: nat,
)
    requires
        can_run(input, rank, state, run, fuel),
        rank(item.node_idx) < rank(run.call.node_idx),
    ensures
        goes_on(state, rank, grid_place(input, answers, state, grid, run, style, item, fuel)),
    decreases fuel, 4int, 0nat,
{
    match input.style(item.node_idx) {
        None => {},
        Some(child) => match grid.placed(item, cell_style(style, child)) {
            None => {},
            Some((cell, x, y)) => {
                let call = call_inside(
                    run,
                    item.node_idx,
                    Position { x: x as i32, y: y as i32 },
                    Size { width: item.target_width, height: item.target_height },
                    cell_forced_size(item, cell_style(style, child)),
                );
                lemma_node(input, answers, rank, state, call, fuel);
            },
        },
    }
}

proof fn lemma_grid_finished(
    input: LayoutInput,
    answers: Answers,
    rank: spec_fn(usize) -> nat,
    state: LayoutModel,
    grid: GridModel,
    run: Run,
    sizes: ContainerSizes,
    specified_height: Option<u32>,
    free: Seq<usize>,
    fuel: nat,
)
    requires
        can_run(input, rank, state, run, fuel),
        all_below(free, run.call.node_idx, rank),
    ensures
        goes_on(
            state,
            rank,
            grid_finished(
                input,
                answers,
                state,
                grid,
                run,
                sizes,
                specified_height,
                free,
                fuel,
            ),
        ),
    decreases fuel, 7int, 0nat,
{
    lemma_waiting_below(free, run.call.node_idx, rank);
    match grid_size(grid, specified_height, sizes, run.call.allow_fill) {
        None => {},
        Some((width, height, content_height)) => {
            let known = resolved(state, run.call.node_idx, height, width);
            assert(known.containing == state.containing);
            assert(stay_open(state, known));
            assert(waits_below(known, rank));
            lemma_closed(
                input,
                answers,
                rank,
                known,
                run,
                waiting(free),
                Size { width, height },
                grid.children,
                fuel,
            );
        },
    }
}

proof fn lemma_grid_inside(
    input: LayoutInput,
    answers: Answers,
    rank: spec_fn(usize) -> nat,
    state: LayoutModel,
    call: Call,
    style: LayoutStyle,
    sizes: ContainerSizes,
    padding: Edges,
    specified_height: Option<u32>,
    fuel: nat,
)
    requires
        can_enter(input, rank, state, call, style, fuel),
    ensures
        goes_on(
            state,
            rank,
            grid_inside(
                input,
                answers,
                state,
                call,
                style,
                sizes,
                padding,
                specified_height,
                fuel,
            ),
        ),
    decreases fuel, 8int, 0nat,
{
    let run = Run {
        call,
        containing: containing_inside(call, style),
        inner: Size { width: sizes.inner_width, height: sizes.inner_height },
        fill: call.allow_fill && style.justify_items is Stretch,
        font_size: style.font_size,
    };
    let facts = child_facts(input, input.nodes@[call.node_idx as int].children@);
    lemma_children_below(input, call.node_idx, rank);
    match (
        grid_begun(call.cursor, padding),
        axis_begun(style.grid_template_columns, sizes.inner_width),
        axis_begun(style.grid_template_rows, sizes.inner_height),
    ) {
        (Some(grid), Ok(columns), Ok(rows)) => {
            let placer = PlacerModel {
                template_columns: if columns.has_template {
                    Some(columns.tracks.len() as usize)
                } else {
                    None
                },
                column: 0,
                row: 0,
                column_count: 1,
                row_count: 1,
                items: Seq::empty(),
            };
            let origin = Position { x: grid.origin_x as i32, y: grid.origin_y as i32 };
            let items = nodes_where(facts, false);
            lemma_grid_bases(input, answers, rank, state, placer, run, origin, items, 0, fuel);
            match grid_bases(input, answers, state, placer, run, origin, items, 0, fuel) {
                Err(_) => {},
                Ok((measured, filled)) => {
                    lemma_run_on(input, rank, state, measured, run, fuel);
                    lemma_grid_cells(answers, filled, columns, rows, call.node_idx, rank);
                    match grid_cells(answers, filled, columns, rows) {
                        Err(_) => {},
                        Ok(cells) => {
                            lemma_grid_places(
                                input,
                                answers,
                                rank,
                                measured,
                                grid,
                                run,
                                style,
                                cells,
                                0,
                                fuel,
                            );
                            match grid_places(
                                input,
                                answers,
                                measured,
                                grid,
                                run,
                                style,
                                cells,
                                0,
                                fuel,
                            ) {
                                Err(_) => {},
                                Ok((placed, end)) => {
                                    lemma_stay_open(state, measured, placed);
                                    lemma_run_on(input, rank, state, placed, run, fuel);
                                    lemma_grid_finished(
                                        input,
                                        answers,
                                        rank,
                                        placed,
                                        end,
                                        run,
                                        sizes,
                                        specified_height,
                                        nodes_where(facts, true),
                                        fuel,
                                    );
                                    lemma_goes_on(
                                        state,
                                        placed,
                                        rank,
                                        grid_finished(
                                            input,
                                            answers,
                                            placed,
                                            end,
                                            run,
                                            sizes,
                                            specified_height,
                                            nodes_where(facts, true),
                                            fuel,
                                        ),
                                    );
                                },
                            }
                        },
                    }
                },
            }
        },
        _ => {},
    }
}

proof fn lemma_grid(
    input: LayoutInput,
    answers: Answers,
    rank: spec_fn(usize) -> nat,
    state: LayoutModel,
    call: Call,
    style: LayoutStyle,
    fuel: nat,
)
    requires
        can_start(input, rank, state, call, fuel + 1),
        call.node_idx < input.nodes@.len(),
    ensures
        goes_on(state, rank, grid_laid_out(input, answers, state, call, style, fuel)),
    decreases fuel, 9int, 0nat,
{
    let node_idx = call.node_idx;
    let block = block_of(input, state.sizes, node_idx, style, call.containing);
    match container(input, style, call.forced, call.available, block) {
        Err(_) => {},
        Ok(sizes) => {
            lemma_opened(state, rank, node_idx, call.cursor);
            let opened = positioned(state, call, style);
            let own = block_of(
                input,
                opened.sizes,
                node_idx,
                style,
                containing_inside(call, style),
            );
            match (
                paddings(style, own.1, input.window),
                specified(input, style, call.forced, own),
            ) {
                (Ok(padding), Ok(wanted)) => {
                    let inside = sized(opened, node_idx, wanted, sizes);
                    assert(inside.containing == opened.containing);
                    assert(waits_below(inside, rank));
                    assert(stay_open(state, inside));
                    assert(inside.containing[input.root as int] is Some);
                    assert(inside.containing[call.containing as int] is Some);
                    lemma_grid_inside(
                        input,
                        answers,
                        rank,
                        inside,
                        call,
                        style,
                        sizes,
                        padding,
                        wanted.0,
                        fuel,
                    );
                    lemma_goes_on(
                        state,
                        inside,
                        rank,
                        grid_inside(
                            input,
                            answers,
                            inside,
                            call,
                            style,
                            sizes,
                            padding,
                            wanted.0,
                            fuel,
                        ),
                    );
                },
                _ => {},
            }
        },
    }
}

/// The nodes of a document that stand below a node by a rank.
spec fn lower(input: LayoutInput, rank: spec_fn(usize) -> nat, node_idx: usize) -> Set<int> {
    vstd::set_lib::set_int_range(0, input.nodes@.len() as int).filter(
        |j: int| rank(j as usize) < rank(node_idx),
    )
}

proof fn lemma_lower(input: LayoutInput, rank: spec_fn(usize) -> nat, low: usize, high: usize)
    requires
        low < input.nodes@.len(),
        rank(low) < rank(high),
    ensures
        lower(input, rank, low).len() < lower(input, rank, high).len(),
{
    let range = vstd::set_lib::set_int_range(0, input.nodes@.len() as int);
    vstd::set_lib::lemma_int_range(0, input.nodes@.len() as int);
    let below = lower(input, rank, low);
    let all = lower(input, rank, high);
    vstd::set_lib::lemma_len_subset(all, range);
    assert(below.insert(low as int).subset_of(all));
    vstd::set_lib::lemma_len_subset(below.insert(low as int), all);
}

proof fn lemma_lower_bound(input: LayoutInput, rank: spec_fn(usize) -> nat, node_idx: usize)
    requires
        node_idx < input.nodes@.len(),
    ensures
        lower(input, rank, node_idx).len() < input.nodes@.len(),
{
    let range = vstd::set_lib::set_int_range(0, input.nodes@.len() as int);
    vstd::set_lib::lemma_int_range(0, input.nodes@.len() as int);
    let below = lower(input, rank, node_idx);
    vstd::set_lib::lemma_len_subset(below, range);
    assert(below.insert(node_idx as int).subset_of(range));
    vstd::set_lib::lemma_len_subset(below.insert(node_idx as int), range);
}

/// Where no node stands below itself, a layout of the document never stops for its depth, and
/// whatever waits for a containing node finds it.
pub proof fn lemma_layout_reaches_every_depth(
    input: LayoutInput,
    answers: Answers,
    size: Size,
    rank: spec_fn(usize) -> nat,
)
    requires
        input.root < input.nodes@.len(),
        ranked(input, rank),
    ensures
        founded(layout_of(input, answers, size)),
{
    let count = |node_idx: usize| lower(input, rank, node_idx).len();
    assert forall|i: usize, k: int|
        i < input.nodes@.len() && 0 <= k < input.nodes@[i as int].children@.len()
            && input.nodes@[i as int].children@[k] < input.nodes@.len() implies count(
        #[trigger] input.nodes@[i as int].children@[k],
    ) < count(i) by {
        lemma_lower(input, rank, input.nodes@[i as int].children@[k], i);
    }
    lemma_lower_bound(input, rank, input.root);
    let origin = Position { x: 0, y: 0 };
    let initial = LayoutModel::initial(input.nodes@.len());
    lemma_opened(initial, count, input.root, origin);
    let call = Call {
        node_idx: input.root,
        cursor: origin,
        available: size,
        forced: no_size(),
        containing: input.root,
        allow_fill: true,
        save: true,
        complete: true,
    };
    lemma_node(
        input,
        answers,
        count,
        initial.opened(input.root, origin),
        call,
        input.nodes@.len(),
    );
}

/// A document whose nodes form a tree is laid out to every depth: what layout is asked for it never
/// stops for its depth, and whatever waits for a containing node finds it.
pub proof fn lemma_tree_is_laid_out(
    input: LayoutInput,
    nodes: NodesModel,
    children: ChildrenModel,
    styles: Seq<Option<LayoutStyle>>,
    frames: Seq<Option<Size>>,
    answers: Answers,
    size: Size,
)
    requires
        tree_like(children),
        describes(input, nodes, children, styles, frames),
        input.root < nodes.len(),
    ensures
        founded(layout_of(input, answers, size)),
{
    let rank = depth_of(children);
    assert forall|i: usize, k: int|
        i < input.nodes@.len() && 0 <= k < input.nodes@[i as int].children@.len()
            && input.nodes@[i as int].children@[k] < input.nodes@.len() implies rank(
        #[trigger] input.nodes@[i as int].children@[k],
    ) < rank(i) by {
        assert(describes_node(input.nodes@[i as int], i, nodes, children, styles, frames));
        lemma_child_is_lower(children, i, k);
    }
    lemma_layout_reaches_every_depth(input, answers, size, rank);
}

} // verus!
