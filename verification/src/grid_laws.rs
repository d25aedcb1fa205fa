//! What a grid promises: which cell an item takes, how large a cell is, and where the item stands in it.
use vstd::prelude::*;

use crate::flex::StyleJustifyContent;
use crate::grid::after_autos;
use crate::grid::cell_forced_size;
use crate::grid::cell_free;
use crate::grid::cell_offset;
use crate::grid::grid_begun;
use crate::grid::grid_size;
use crate::grid::largest;
use crate::grid::span_size;
use crate::grid::track_size;
use crate::grid::track_totals;
use crate::grid::CellStyle;
use crate::grid::GridBaseItem;
use crate::grid::GridModel;
use crate::grid::GridTrack;
use crate::grid::PlacerModel;
use crate::grid::TrackMax;
use crate::grid::TrackTotals;
use crate::grid_axis::axis_begun;
use crate::grid_axis::in_cell;
use crate::grid_axis::share_in;
use crate::grid_axis::shares_from;
use crate::grid_axis::tracks_of;
use crate::grid_axis::AxisModel;
use crate::lengths::TrackLength;
use crate::lengths::TrackStyle;
use crate::needs::Answer;
use crate::needs::Answers;
use crate::needs::Need;
use crate::sizing::ContainerSizes;
use crate::sizing::Edges;
use crate::sizing::Position;

verus! {

/// An item takes the columns behind those that are taken where it fits there, and else starts the next
/// row. Without a template each item has a row of its own.
pub proof fn lemma_items_fill_rows(
    placer: PlacerModel,
    columns: usize,
    node_idx: usize,
    span: i32,
    width: u32,
    height: u32,
)
    requires
        placer.template_columns == Some(columns),
        columns <= i32::MAX,
        0 <= placer.column <= i32::MAX,
        0 <= placer.row < i32::MAX,
        1 <= span,
    ensures
        ({
            let cell = placer.at_item(span as int);
            let after = cell.after_item(node_idx, span, width, height);
            let item = after.items.last();
            &&& placer.column + span <= columns ==> item.column == placer.column && item.row
                == placer.row
            &&& placer.column + span > columns ==> item.column == 0 && item.row == placer.row + 1
            &&& item.column_span == span
            &&& item.node_idx == node_idx
            &&& item.base_width == width && item.base_height == height
            &&& after.column == item.column + span
            &&& after.row == item.row
            &&& after.items.drop_last() == placer.items
            &&& after.column_count >= after.column && after.column_count >= placer.column_count
            &&& placer.row < placer.row_count ==> after.row < after.row_count
        }),
{
    let cell = placer.at_item(span as int);
    let after = cell.after_item(node_idx, span, width, height);
    assert(after.items.drop_last() =~= placer.items);
}

/// Without a template each item stands in the first column, one below the other.
pub proof fn lemma_single_column(
    placer: PlacerModel,
    node_idx: usize,
    span: i32,
    width: u32,
    height: u32,
)
    requires
        placer.template_columns is None,
        0 <= placer.row < i32::MAX,
        0 <= placer.column,
        1 <= span,
    ensures
        ({
            let cell = placer.at_item(span as int);
            let item = cell.after_item(node_idx, span, width, height).items.last();
            &&& item.column == 0
            &&& placer.column > 0 ==> item.row == placer.row + 1
            &&& placer.column == 0 ==> item.row == placer.row
        }),
{
}

/// How many tracks are `auto`.
pub open spec fn autos_of(tracks: Seq<GridTrack>) -> int
    decreases tracks.len(),
{
    if tracks.len() == 0 {
        0
    } else {
        autos_of(tracks.drop_last()) + if tracks.last() is Auto {
            1int
        } else {
            0int
        }
    }
}

/// The pixels of the fixed tracks.
pub open spec fn fixed_sum(tracks: Seq<GridTrack>) -> int
    decreases tracks.len(),
{
    if tracks.len() == 0 {
        0
    } else {
        fixed_sum(tracks.drop_last()) + match tracks.last() {
            GridTrack::Fixed(px) => px as int,
            _ => 0,
        }
    }
}

/// The fractions of the fractional tracks, and of those whose upper end is fractional.
pub open spec fn fraction_sum(tracks: Seq<GridTrack>) -> int
    decreases tracks.len(),
{
    if tracks.len() == 0 {
        0
    } else {
        fraction_sum(tracks.drop_last()) + match tracks.last() {
            GridTrack::Fraction(fraction) => fraction as int,
            GridTrack::MinMax { min: _, max: TrackMax::Fraction(fraction) } => fraction as int,
            _ => 0,
        }
    }
}

/// A list of tracks takes the pixels of its fixed tracks, shares by its fractions and holds its `auto`
/// tracks; the rest of the space is to be given.
pub proof fn lemma_tracks_add_up(tracks: Seq<GridTrack>)
    ensures
        track_totals(tracks) matches Some(totals) ==> {
            &&& totals.used == fixed_sum(tracks)
            &&& totals.fractions == fraction_sum(tracks)
            &&& totals.autos == autos_of(tracks)
        },
    decreases tracks.len(),
{
    if tracks.len() > 0 {
        lemma_tracks_add_up(tracks.drop_last());
    }
}

/// Tracks have the sizes of their template, in its order; what the fixed ones leave is to be given.
pub proof fn lemma_axis_follows_its_template(styles: Vec<TrackStyle>, inner: u32)
    ensures
        axis_begun(Some(styles), inner) matches Ok(axis) ==> {
            &&& axis.tracks.len() == styles@.len()
            &&& axis.has_template
            &&& fixed_sum(axis.tracks) >= 0 ==> axis.space + fixed_sum(axis.tracks) == inner
            &&& axis.totals.autos == autos_of(axis.tracks)
            &&& axis.totals.fractions == fraction_sum(axis.tracks)
            &&& forall|i: int|
                0 <= i < styles@.len() ==> {
                    &&& (#[trigger] styles@[i] matches TrackStyle::Size(TrackLength::Px(px)))
                        ==> axis.tracks[i] == GridTrack::Fixed(styles@[i]->Size_0->Px_0)
                    &&& styles@[i] == TrackStyle::Size(TrackLength::Auto) ==> axis.tracks[i]
                        == GridTrack::Auto
                    &&& (styles@[i] matches TrackStyle::Size(TrackLength::Fraction(part)))
                        ==> axis.tracks[i] == GridTrack::Fraction(
                        styles@[i]->Size_0->Fraction_0,
                    )
                }
        },
{
    let tracks = tracks_of(styles@, inner);
    lemma_tracks_add_up(tracks);
    if let Some(model) = track_totals(tracks) {
        lemma_totals_in_range(tracks);
        if model.used >= 0 {
            assert(model.used as i32 as u32 == model.used);
        }
    }
}

proof fn lemma_totals_in_range(tracks: Seq<GridTrack>)
    ensures
        track_totals(tracks) matches Some(totals) ==> {
            &&& i32::MIN <= totals.used <= i32::MAX
            &&& i32::MIN <= totals.fractions <= i32::MAX
            &&& i32::MIN <= totals.autos <= i32::MAX
        },
    decreases tracks.len(),
{
    if tracks.len() > 0 {
        lemma_totals_in_range(tracks.drop_last());
    }
}

/// The largest item of a line is as large as every item of it, and as one of them; items of other
/// lines do not count.
pub proof fn lemma_largest(items: Seq<GridBaseItem>, line: int, across: bool)
    ensures
        largest(items, line, across) >= 0,
        across ==> forall|i: int|
            0 <= i < items.len() && (#[trigger] items[i]).column == line ==> items[i].base_width
                <= largest(items, line, across),
        !across ==> forall|i: int|
            0 <= i < items.len() && (#[trigger] items[i]).row == line ==> items[i].base_height
                <= largest(items, line, across),
        largest(items, line, across) > 0 ==> exists|i: int|
            0 <= i < items.len() && if across {
                (#[trigger] items[i]).column == line && items[i].base_width == largest(
                    items,
                    line,
                    across,
                )
            } else {
                items[i].row == line && items[i].base_height == largest(items, line, across)
            },
    decreases items.len(),
{
    if items.len() > 0 {
        let less = items.drop_last();
        lemma_largest(less, line, across);
        let before = largest(less, line, across);
        let now = largest(items, line, across);
        let last = items.len() - 1;
        assert forall|i: int| 0 <= i < items.len() && across && (#[trigger] items[i]).column
            == line implies items[i].base_width <= now by {
            if i < last {
                assert(less[i] == items[i]);
            }
        }
        assert forall|i: int| 0 <= i < items.len() && !across && (#[trigger] items[i]).row
            == line implies items[i].base_height <= now by {
            if i < last {
                assert(less[i] == items[i]);
            }
        }
        if now > 0 {
            if now == before {
                let i = choose|i: int|
                    0 <= i < less.len() && if across {
                        (#[trigger] less[i]).column == line && less[i].base_width == before
                    } else {
                        less[i].row == line && less[i].base_height == before
                    };
                assert(less[i] == items[i]);
            } else {
                assert(items[last] == items.last());
            }
        }
    }
}

/// A fixed track has its pixels, a fractional one its share, an `auto` one its largest item where there
/// are fractions and else an even part of the space. One with a lower and an upper end is never
/// smaller than either.
pub proof fn lemma_tracks_have_sizes(
    tracks: Seq<GridTrack>,
    at: int,
    shares: Seq<i32>,
    space: u32,
    totals: TrackTotals,
    largest: Seq<u32>,
)
    requires
        0 <= at < tracks.len(),
        space <= i32::MAX,
    ensures
        ({
            let size = track_size(tracks, at, shares, space, totals, largest);
            &&& tracks[at] matches GridTrack::Fixed(px) ==> size == px
            &&& tracks[at] is Fraction ==> size == shares[at]
            &&& tracks[at] is Auto && totals.fractions != 0 && largest[at] <= i32::MAX ==> size
                == largest[at]
            &&& tracks[at] is Auto && totals.fractions == 0 && totals.autos > 0 ==> size
                * totals.autos <= space < (size + 1) * totals.autos
            &&& tracks[at] matches GridTrack::MinMax { min: Some(low), max } ==> {
                &&& size >= low
                &&& max matches TrackMax::Fixed(high) ==> size >= high && (size == high || size
                    == low)
                &&& max is Fraction ==> size >= shares[at] && (size == shares[at] || size == low)
                &&& max is Auto ==> size == low || size == 0
            }
        }),
{
    if tracks[at] is Auto && totals.fractions == 0 && totals.autos > 0 {
        let a = space as int;
        let b = totals.autos as int;
        vstd::arithmetic::div_mod::lemma_fundamental_div_mod(a, b);
        vstd::arithmetic::mul::lemma_mul_is_commutative(b, a / b);
        assert((a / b + 1) * b == (a / b) * b + b) by (nonlinear_arith);
    }
}

/// What the `auto` tracks leave: nothing is taken by other tracks, and never more is left than there
/// was.
pub proof fn lemma_auto_tracks_take_their_largest(
    tracks: Seq<GridTrack>,
    sizes: Seq<u32>,
    count: int,
    space: u32,
)
    requires
        0 <= count < sizes.len(),
    ensures
        ({
            let before = after_autos(tracks, sizes, count, space);
            let after = after_autos(tracks, sizes, count + 1, space);
            &&& after_autos(tracks, sizes, 0, space) == space
            &&& count < tracks.len() && tracks[count] is Auto && sizes[count] <= before ==> after
                + sizes[count] == before
            &&& count < tracks.len() && tracks[count] is Auto && sizes[count] > before ==> after
                == 0
            &&& count >= tracks.len() || !(tracks[count] is Auto) ==> after == before
        }),
{
}

/// An item that spans several columns is as wide as all of them: a cell of one track has the size of
/// the track, and one more track makes a cell larger by its size.
pub proof fn lemma_spans_add_up(
    tracks: Seq<GridTrack>,
    start: int,
    span: int,
    shares: Seq<i32>,
    space: u32,
    totals: TrackTotals,
    largest: Seq<u32>,
)
    requires
        span >= 0,
    ensures
        span_size(tracks, start, 0, shares, space, totals, largest) == Some(0int),
        span_size(tracks, start, span + 1, shares, space, totals, largest) matches Some(more) ==> {
            &&& span_size(tracks, start, span, shares, space, totals, largest) matches Some(less)
                && more == less + track_size(
                tracks,
                start + span,
                shares,
                space,
                totals,
                largest,
            )
        },
        span_size(tracks, start, 1, shares, space, totals, largest) matches Some(one) ==> one
            == track_size(tracks, start, shares, space, totals, largest),
{
    reveal_with_fuel(span_size, 3);
}

/// Each share is the answer to what its track asks for, and tracks without a fraction ask for nothing.
pub proof fn lemma_shares_are_answers(
    answers: Answers,
    tracks: Seq<GridTrack>,
    space: u32,
    total: i32,
    at: int,
    known: Seq<i32>,
)
    requires
        0 <= at <= tracks.len(),
        known.len() == at,
    ensures
        shares_from(answers, tracks, space, total, at, known) matches Ok(shares) ==> {
            &&& shares.len() == tracks.len()
            &&& shares.subrange(0, at) == known
            &&& forall|i: int|
                at <= i < tracks.len() ==> {
                    &&& (#[trigger] tracks[i] matches GridTrack::Fraction(fraction))
                        ==> answers.answer(
                        Need::Fraction { space, fraction: tracks[i]->Fraction_0, total },
                    ) == Some(Answer::Number(shares[i]))
                    &&& tracks[i] is Fixed || tracks[i] is Auto ==> shares[i] == 0
                }
        },
    decreases tracks.len() - at,
{
    if at < tracks.len() {
        if let Ok(share) = share_in(answers, tracks[at], space, total) {
            let next = known.push(share);
            lemma_shares_are_answers(answers, tracks, space, total, at + 1, next);
            if let Ok(shares) = shares_from(answers, tracks, space, total, at, known) {
                assert(shares.subrange(0, at + 1) == next);
                assert(shares[at] == shares.subrange(0, at + 1)[at]);
                assert(shares.subrange(0, at) =~= known) by {
                    assert forall|i: int| 0 <= i < at implies shares[i] == known[i] by {
                        assert(shares[i] == shares.subrange(0, at + 1)[i]);
                    }
                }
            }
        }
    } else {
        assert(known.subrange(0, at) =~= known);
    }
}

/// The cell of an item is as wide as its columns and as high as its row. Without a template a column is
/// as wide as the grid and a row as high as the item.
pub proof fn lemma_cells_have_sizes(item: GridBaseItem, columns: AxisModel, rows: AxisModel)
    ensures
        in_cell(item, columns, rows) matches Some(cell) ==> {
            &&& cell.node_idx == item.node_idx
            &&& cell.base_width == item.base_width && cell.base_height == item.base_height
            &&& cell.column == item.column && cell.row == item.row
            &&& !columns.has_template ==> cell.target_width == columns.inner
            &&& !rows.has_template ==> cell.target_height == item.base_height
            &&& columns.has_template ==> (span_size(
                columns.tracks,
                item.column as int,
                item.column_span as int,
                columns.shares,
                columns.space,
                columns.totals,
                columns.largest,
            ) matches Some(width) && (width >= 0 ==> cell.target_width == width))
            &&& rows.has_template && item.row < rows.tracks.len() && item.row >= 0 ==> {
                let height = track_size(
                    rows.tracks,
                    item.row as int,
                    rows.shares,
                    rows.space,
                    rows.totals,
                    rows.largest,
                );
                height >= 0 ==> cell.target_height == height
            }
        },
{
    reveal_with_fuel(span_size, 3);
    lemma_span_in_range(
        columns.tracks,
        item.column as int,
        item.column_span as int,
        columns.shares,
        columns.space,
        columns.totals,
        columns.largest,
    );
    lemma_span_in_range(
        rows.tracks,
        item.row as int,
        1,
        rows.shares,
        rows.space,
        rows.totals,
        rows.largest,
    );
}

proof fn lemma_span_in_range(
    tracks: Seq<GridTrack>,
    start: int,
    span: int,
    shares: Seq<i32>,
    space: u32,
    totals: TrackTotals,
    largest: Seq<u32>,
)
    ensures
        span_size(tracks, start, span, shares, space, totals, largest) matches Some(sum)
            ==> i32::MIN <= sum <= i32::MAX,
    decreases span,
{
    if span > 0 {
        lemma_span_in_range(tracks, start, span - 1, shares, space, totals, largest);
    }
}

/// An item stands at the start of its cell, in its middle, or at its end. A larger one than its cell
/// stands at the start.
pub proof fn lemma_items_are_aligned(align: StyleJustifyContent, target: u32, base: u32)
    requires
        target <= i32::MAX,
        base <= i32::MAX,
    ensures
        ({
            let front = cell_offset(align, cell_free(target, base));
            let behind = target - base - front;
            &&& base > target ==> front == 0
            &&& align is Center && base <= target ==> front <= behind <= front + 1
            &&& align is FlexEnd && base <= target ==> behind == 0
            &&& align is FlexStart || align is Stretch ==> front == 0
        }),
{
}

/// The first item stands where the padding ends. An item in a column behind that of the item before
/// stands in the same row, where the cell before ends; any other starts a row below the highest item
/// of the row before.
pub proof fn lemma_cells_stand_in_rows(grid: GridModel, item: GridBaseItem, style: CellStyle)
    requires
        item.target_width <= i32::MAX && item.base_width <= i32::MAX,
        item.target_height <= i32::MAX && item.base_height <= i32::MAX,
        style.justify_items is Stretch,
        style.align_items is Stretch,
    ensures
        grid.placed(item, style) matches Some((cell, x, y)) ==> {
            &&& item.column > grid.last_column ==> x == grid.x && y == grid.y
            &&& item.column <= grid.last_column ==> x == grid.origin_x && y == grid.y
                + grid.max_child_height
            &&& cell.x == x && cell.y == y
            &&& cell.last_column == item.column
            &&& cell.children == grid.children
        },
{
}

/// After an item the next cell starts where its cell ends; the row is as high as its highest item, and
/// the grid as wide as its widest row.
pub proof fn lemma_next_cell(cell: GridModel, item: GridBaseItem, id: usize, height: u32)
    requires
        item.target_width <= i32::MAX,
        height <= i32::MAX,
    ensures
        ({
            let after = cell.after_item(item, id, height);
            &&& after.x == cell.x + item.target_width
            &&& after.y == cell.y
            &&& after.max_child_height >= height && after.max_child_height >= cell.max_child_height
            &&& after.max_child_height == height || after.max_child_height == cell.max_child_height
            &&& after.longest_row_width >= after.x - after.origin_x
            &&& after.longest_row_width == after.x - after.origin_x || after.longest_row_width
                == cell.longest_row_width
            &&& after.longest_row_width >= cell.longest_row_width
            &&& after.children == cell.children.push(id)
        }),
{
}

/// A grid starts where its padding ends.
pub proof fn lemma_first_cell(cursor: Position, padding: Edges)
    ensures
        grid_begun(cursor, padding) matches Some(grid) ==> {
            &&& grid.x == cursor.x + padding.left && grid.y == cursor.y + padding.top
            &&& grid.children.len() == 0
            &&& grid.longest_row_width == 0 && grid.max_child_height == 0
        },
{
}

/// What is forced on an item: the size of its cell where it stretches, and its own size elsewhere.
pub proof fn lemma_items_stretch(item: GridBaseItem, style: CellStyle)
    ensures
        style.width_auto && style.justify_items is Stretch ==> cell_forced_size(item, style).width
            == Some(item.target_width),
        !style.width_auto || !(style.justify_items is Stretch) ==> cell_forced_size(
            item,
            style,
        ).width == Some(item.base_width),
        !style.height_auto ==> cell_forced_size(item, style).height == Some(item.base_height),
        style.height_auto && style.align_items is Stretch && style.has_row_template
            ==> cell_forced_size(item, style).height == Some(item.target_height),
        style.height_auto && !(style.align_items is Stretch) ==> cell_forced_size(
            item,
            style,
        ).height is None,
{
}

/// A grid is as high as it is asked to be, else as its rows; it is as wide as what is available where it
/// fills that, else as its widest row and its padding.
pub proof fn lemma_grid_has_its_size(
    grid: GridModel,
    specified_height: Option<u32>,
    sizes: ContainerSizes,
    fills: bool,
)
    requires
        sizes.min_height is None,
        sizes.max_height is None,
        sizes.min_width is None,
        sizes.max_width is None,
        grid.y >= grid.origin_y,
        0 <= grid.max_child_height,
        0 <= grid.longest_row_width <= i32::MAX,
    ensures
        grid_size(grid, specified_height, sizes, fills) matches Some((width, height, content)) ==> {
            &&& content == grid.y - grid.origin_y + grid.max_child_height
            &&& specified_height matches Some(asked) ==> height == asked
            &&& specified_height is None ==> height == content
            &&& fills ==> width == sizes.container_width
            &&& !fills && sizes.container_width_non_filling is None ==> width
                == grid.longest_row_width + sizes.padding_x
            &&& !fills ==> (sizes.container_width_non_filling matches Some(asked) ==> width
                == asked)
        },
{
}

} // verus!
