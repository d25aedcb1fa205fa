//! Grid layout: reading the track lists, placing items in cells, sizing the cells and placing the
//! items in them.
use vstd::prelude::*;

use crate::boxes::in_i32;
use crate::flex::StyleJustifyContent;
use crate::raster::max2;
use crate::sizing::bounded;
use crate::sizing::hold_between;
use crate::sizing::ContainerSizes;
use crate::sizing::Edges;
use crate::sizing::OptionalSize;
use crate::sizing::Position;

verus! {

/// The upper end of a `minmax()` track. Lengths are resolved to pixels.
#[derive(Debug, Clone, Copy, PartialEq, Eq, Structural)]
pub enum TrackMax {
    Fixed(i32),
    Fraction(i32),
    Auto,
}

/// One column or row of a track list. Lengths are resolved to pixels; an `auto` lower end counts
/// as zero, and a fractional one is none.
#[derive(Debug, Clone, Copy, PartialEq, Eq, Structural)]
pub enum GridTrack {
    Fixed(i32),
    Fraction(i32),
    Auto,
    MinMax { min: Option<i32>, max: TrackMax },
}

/// What a track list adds up to: the pixels that its fixed tracks take, its fractions, and how
/// many of its tracks are `auto`.
#[derive(Debug, Clone, Copy, PartialEq, Eq, Structural)]
pub struct TrackTotals {
    pub used: i32,
    pub fractions: i32,
    pub autos: i32,
}

pub struct TotalsModel {
    pub used: int,
    pub fractions: int,
    pub autos: int,
}

/// What one track adds to the totals.
pub open spec fn with_track(totals: TotalsModel, track: GridTrack) -> TotalsModel {
    match track {
        GridTrack::Fixed(px) => TotalsModel { used: totals.used + px, ..totals },
        GridTrack::Fraction(fraction) => TotalsModel {
            fractions: totals.fractions + fraction,
            ..totals
        },
        GridTrack::Auto => TotalsModel { autos: totals.autos + 1, ..totals },
        GridTrack::MinMax { min, max } => match max {
            TrackMax::Fraction(fraction) => TotalsModel {
                fractions: totals.fractions + fraction,
                ..totals
            },
            _ => totals,
        },
    }
}

/// What a track list adds up to; nothing where a sum leaves the `i32` range on the way.
pub open spec fn track_totals(tracks: Seq<GridTrack>) -> Option<TotalsModel>
    decreases tracks.len(),
{
    if tracks.len() == 0 {
        Some(TotalsModel { used: 0, fractions: 0, autos: 0 })
    } else {
        match track_totals(tracks.drop_last()) {
            None => None,
            Some(before) => {
                let after = with_track(before, tracks.last());
                if in_i32(after.used) && in_i32(after.fractions) && in_i32(after.autos) {
                    Some(after)
                } else {
                    None
                }
            },
        }
    }
}

impl TrackTotals {
    pub open spec fn model(self) -> TotalsModel {
        TotalsModel {
            used: self.used as int,
            fractions: self.fractions as int,
            autos: self.autos as int,
        }
    }
}

proof fn lemma_totals_prefix(tracks: Seq<GridTrack>, count: int)
    requires
        0 <= count <= tracks.len(),
        track_totals(tracks.take(count)) is None,
    ensures
        track_totals(tracks) is None,
    decreases tracks.len(),
{
    if count == tracks.len() {
        assert(tracks.take(count) =~= tracks);
    } else {
        assert(tracks.drop_last().take(count) =~= tracks.take(count));
        lemma_totals_prefix(tracks.drop_last(), count);
    }
}

/// A track list with an `auto` track counts at least one of them.
pub proof fn lemma_auto_is_counted(tracks: Seq<GridTrack>, at: int)
    requires
        0 <= at < tracks.len(),
        tracks[at] is Auto,
        track_totals(tracks) is Some,
    ensures
        (track_totals(tracks)->0).autos > 0,
    decreases tracks.len(),
{
    lemma_autos_not_negative(tracks.drop_last());
    if at < tracks.len() - 1 {
        assert(tracks.drop_last()[at] == tracks[at]);
        lemma_auto_is_counted(tracks.drop_last(), at);
    }
}

proof fn lemma_autos_not_negative(tracks: Seq<GridTrack>)
    ensures
        track_totals(tracks) matches Some(totals) ==> totals.autos >= 0,
    decreases tracks.len(),
{
    if tracks.len() > 0 {
        lemma_autos_not_negative(tracks.drop_last());
    }
}

/// Adds up a track list. Nothing where a sum leaves the `i32` range.
pub fn scan_tracks(tracks: &Vec<GridTrack>) -> (r: Option<TrackTotals>)
    ensures
        match (r, track_totals(tracks@)) {
            (Some(totals), Some(model)) => totals.model() == model,
            (None, None) => true,
            _ => false,
        },
{
    let mut totals = TrackTotals { used: 0, fractions: 0, autos: 0 };
    let mut at: usize = 0;
    while at < tracks.len()
        invariant
            at <= tracks@.len(),
            track_totals(tracks@.take(at as int)) == Some(totals.model()),
        decreases tracks@.len() - at,
    {
        let ghost taken = tracks@.take(at + 1);
        proof {
            assert(taken.drop_last() =~= tracks@.take(at as int));
            assert(taken.last() == tracks@[at as int]);
            if track_totals(taken) is None {
                lemma_totals_prefix(tracks@, at + 1);
            }
        }
        match &tracks[at] {
            GridTrack::Fixed(px) => match totals.used.checked_add(*px) {
                None => {
                    return None;
                },
                Some(used) => {
                    totals = TrackTotals { used, ..totals };
                },
            },
            GridTrack::Fraction(fraction) => match totals.fractions.checked_add(*fraction) {
                None => {
                    return None;
                },
                Some(fractions) => {
                    totals = TrackTotals { fractions, ..totals };
                },
            },
            GridTrack::Auto => match totals.autos.checked_add(1) {
                None => {
                    return None;
                },
                Some(autos) => {
                    totals = TrackTotals { autos, ..totals };
                },
            },
            GridTrack::MinMax { min: _, max } => match max {
                TrackMax::Fraction(fraction) => match totals.fractions.checked_add(*fraction) {
                    None => {
                        return None;
                    },
                    Some(fractions) => {
                        totals = TrackTotals { fractions, ..totals };
                    },
                },
                _ => {},
            },
        }
        at = at + 1;
    }
    assert(tracks@.take(tracks@.len() as int) =~= tracks@);
    Some(totals)
}

/// The pixels that are left for `auto` and fractional tracks; nothing where the fixed tracks take
/// more than there is.
pub fn space_to_give(to_distribute: u32, totals: &TrackTotals) -> (r: Option<u32>)
    ensures
        match r {
            None => (totals.used as u32) > to_distribute,
            Some(space) => space == to_distribute - (totals.used as u32),
        },
{
    to_distribute.checked_sub(totals.used as u32)
}

/// An item of a grid: its cell, the size that it wants and the size of its cell.
#[derive(Debug, Clone, Copy, PartialEq, Eq, Structural)]
pub struct GridBaseItem {
    pub node_idx: usize,
    pub base_width: u32,
    pub base_height: u32,
    pub target_width: u32,
    pub target_height: u32,
    pub column: i32,
    pub column_span: i32,
    pub row: i32,
}

/// The state of a grid while its items are assigned to cells.
pub struct GridPlacer {
    /// How many columns the template has; none without a template.
    pub template_columns: Option<usize>,
    pub column: i32,
    pub row: usize,
    pub column_count: usize,
    pub row_count: usize,
    pub items: Vec<GridBaseItem>,
}

/// What a [`GridPlacer`] holds.
pub struct PlacerModel {
    pub template_columns: Option<usize>,
    pub column: int,
    pub row: int,
    pub column_count: int,
    pub row_count: int,
    pub items: Seq<GridBaseItem>,
}

impl PlacerModel {
    /// Whether an item of the given span starts a new row: it does not fit behind the items of
    /// this one, or there is only one column.
    pub open spec fn wraps(self, span: int) -> bool {
        match self.template_columns {
            Some(columns) => self.column + span > (columns as i32),
            None => self.column >= 1,
        }
    }

    /// The grid once an item of the given span is to be laid out.
    pub open spec fn at_item(self, span: int) -> PlacerModel {
        if self.wraps(span) {
            PlacerModel {
                column: 0,
                row: self.row + 1,
                row_count: max2(self.row_count, self.row + 2),
                ..self
            }
        } else {
            self
        }
    }

    /// The grid after an item has taken its cell.
    pub open spec fn after_item(
        self,
        node_idx: usize,
        span: i32,
        width: u32,
        height: u32,
    ) -> PlacerModel {
        PlacerModel {
            column: self.column + span,
            column_count: max2(self.column_count, self.column + span),
            items: self.items.push(
                GridBaseItem {
                    node_idx,
                    base_width: width,
                    base_height: height,
                    target_width: width,
                    target_height: height,
                    column: self.column as i32,
                    column_span: span,
                    row: self.row as usize as i32,
                },
            ),
            ..self
        }
    }

    /// Every item lies in the columns and rows that have been counted.
    pub open spec fn items_counted(self) -> bool {
        forall|i: int|
            0 <= i < self.items.len() ==> {
                &&& 0 <= (#[trigger] self.items[i]).column
                &&& 1 <= self.items[i].column_span
                &&& self.items[i].column + self.items[i].column_span <= self.column_count
                &&& 0 <= self.items[i].row < self.row_count
            }
    }
}

impl GridPlacer {
    pub open spec fn model(self) -> PlacerModel {
        PlacerModel {
            template_columns: self.template_columns,
            column: self.column as int,
            row: self.row as int,
            column_count: self.column_count as int,
            row_count: self.row_count as int,
            items: self.items@,
        }
    }

    pub open spec fn wf(self) -> bool {
        &&& 0 <= self.column <= self.column_count
        &&& 1 <= self.column_count
        &&& self.row < self.row_count <= i32::MAX
        &&& self.model().items_counted()
    }

    /// A grid without items, which counts as one row and one column.
    pub fn new(template_columns: Option<usize>) -> (r: GridPlacer)
        ensures
            r.wf(),
            r.model() == (PlacerModel {
                template_columns,
                column: 0,
                row: 0,
                column_count: 1,
                row_count: 1,
                items: Seq::empty(),
            }),
    {
        GridPlacer {
            template_columns,
            column: 0,
            row: 0,
            column_count: 1,
            row_count: 1,
            items: Vec::new(),
        }
    }

    /// Moves to the cell of the next item, which may start a row. The result is `false` where the
    /// columns or rows leave the `i32` range.
    pub fn next_cell(&mut self, column_span: i32) -> (ok: bool)
        requires
            old(self).wf(),
            1 <= column_span,
        ensures
            final(self).wf(),
            ok == ((old(self).template_columns is Some ==> in_i32(
                old(self).column + column_span,
            )) && old(self).model().at_item(column_span as int).row_count <= i32::MAX),
            ok ==> final(self).model() == old(self).model().at_item(column_span as int),
            !ok ==> *final(self) == *old(self),
    {
        let wraps = match self.template_columns {
            Some(columns) => {
                let end: i64 = self.column as i64 + column_span as i64;
                if end > i32::MAX as i64 {
                    return false;
                }
                end > (columns as i32) as i64
            },
            None => self.column >= 1,
        };
        if wraps {
            if self.row as u64 + 2 > i32::MAX as u64 {
                return false;
            }
            self.column = 0;
            self.row = self.row + 1;
            self.row_count = self.row_count.max(self.row + 1);
        }
        true
    }

    /// Gives the current cell to an item. The result is `false` where the columns leave the `i32`
    /// range.
    pub fn add_item(&mut self, node_idx: usize, column_span: i32, width: u32, height: u32) -> (ok:
        bool)
        requires
            old(self).wf(),
            1 <= column_span,
        ensures
            final(self).wf(),
            ok == in_i32(old(self).column + column_span),
            ok ==> final(self).model() == old(self).model().after_item(
                node_idx,
                column_span,
                width,
                height,
            ),
            !ok ==> *final(self) == *old(self),
    {
        let end: i32 = match self.column.checked_add(column_span) {
            None => {
                return false;
            },
            Some(end) => end,
        };
        let ghost before = self.model();
        self.items.push(
            GridBaseItem {
                node_idx,
                base_width: width,
                base_height: height,
                target_width: width,
                target_height: height,
                column: self.column,
                column_span,
                row: self.row as i32,
            },
        );
        self.column = end;
        self.column_count = self.column_count.max(end as usize);
        proof {
            assert(self.model() == before.after_item(node_idx, column_span, width, height));
            assert forall|i: int| 0 <= i < self.items@.len() implies {
                &&& 0 <= (#[trigger] self.items@[i]).column
                &&& 1 <= self.items@[i].column_span
                &&& self.items@[i].column + self.items@[i].column_span <= self.column_count
                &&& 0 <= self.items@[i].row < self.row_count
            } by {
                if i < before.items.len() {
                    assert(self.items@[i] == before.items[i]);
                }
            }
        }
        true
    }
}

/// The largest base size among the items that start in a column, or lie in a row.
pub open spec fn largest(items: Seq<GridBaseItem>, line: int, across: bool) -> int
    decreases items.len(),
{
    if items.len() == 0 {
        0
    } else {
        let before = largest(items.drop_last(), line, across);
        let item = items.last();
        if across && item.column == line {
            max2(before, item.base_width as int)
        } else if !across && item.row == line {
            max2(before, item.base_height as int)
        } else {
            before
        }
    }
}

/// The largest base width of each column, or the largest base height of each row.
pub fn largest_sizes(items: &Vec<GridBaseItem>, count: usize, across: bool) -> (r: Vec<u32>)
    requires
        forall|i: int|
            0 <= i < items@.len() ==> 0 <= (#[trigger] items@[i]).column < count || !across,
        forall|i: int| 0 <= i < items@.len() ==> 0 <= (#[trigger] items@[i]).row < count || across,
    ensures
        r@.len() == count,
        forall|line: int|
            0 <= line < count ==> #[trigger] r@[line] == largest(items@, line, across),
{
    let mut sizes: Vec<u32> = vec![0u32; count];
    let mut at: usize = 0;
    while at < items.len()
        invariant
            at <= items@.len(),
            sizes@.len() == count,
            forall|i: int|
                0 <= i < items@.len() ==> 0 <= (#[trigger] items@[i]).column < count || !across,
            forall|i: int|
                0 <= i < items@.len() ==> 0 <= (#[trigger] items@[i]).row < count || across,
            forall|line: int|
                0 <= line < count ==> #[trigger] sizes@[line] == largest(
                    items@.take(at as int),
                    line,
                    across,
                ),
        decreases items@.len() - at,
    {
        let ghost before = sizes@;
        let ghost taken = items@.take(at + 1);
        assert(taken.drop_last() =~= items@.take(at as int));
        assert(taken.last() == items@[at as int]);
        let item = items[at];
        let line: usize = if across {
            item.column as usize
        } else {
            item.row as usize
        };
        let size: u32 = if across {
            item.base_width
        } else {
            item.base_height
        };
        let known: u32 = sizes[line];
        sizes[line] = known.max(size);
        proof {
            assert forall|l: int| 0 <= l < count implies #[trigger] sizes@[l] == largest(
                taken,
                l,
                across,
            ) by {
                assert(before[l] == largest(items@.take(at as int), l, across));
            }
        }
        at = at + 1;
    }
    assert(items@.take(items@.len() as int) =~= items@);
    sizes
}

/// What is left to give once the `auto` tracks among the first `count` have taken their largest
/// items.
pub open spec fn after_autos(tracks: Seq<GridTrack>, largest: Seq<u32>, count: int, space: u32) -> u32
    decreases count,
{
    if count <= 0 {
        space
    } else {
        let before = after_autos(tracks, largest, count - 1, space);
        if count - 1 < tracks.len() && tracks[count - 1] is Auto {
            if largest[count - 1] <= before {
                (before - largest[count - 1]) as u32
            } else {
                0
            }
        } else {
            before
        }
    }
}

/// Takes what the `auto` tracks use from the space, where fractional tracks share it.
pub fn deduct_autos(tracks: &Vec<GridTrack>, largest: &Vec<u32>, fractions: i32, space: u32) -> (r:
    u32)
    ensures
        r == (if fractions > 0 {
            after_autos(tracks@, largest@, largest@.len() as int, space)
        } else {
            space
        }),
{
    if fractions <= 0 {
        return space;
    }
    let mut left: u32 = space;
    let mut at: usize = 0;
    while at < largest.len()
        invariant
            at <= largest@.len(),
            left == after_autos(tracks@, largest@, at as int, space),
        decreases largest@.len() - at,
    {
        if at < tracks.len() {
            if let GridTrack::Auto = tracks[at] {
                left = left.saturating_sub(largest[at]);
            }
        }
        at = at + 1;
    }
    left
}

/// `a / b`, rounded towards zero.
pub open spec fn quotient(a: int, b: int) -> int {
    if a >= 0 {
        a / b
    } else {
        -((-a) / b)
    }
}

fn divide(a: i32, b: i32) -> (r: i32)
    requires
        b > 0,
    ensures
        r == quotient(a as int, b as int),
{
    let wide: i64 = a as i64;
    if wide >= 0 {
        let q: u64 = wide as u64 / b as u64;
        proof {
            assert(0 <= wide as int / b as int <= wide) by (nonlinear_arith)
                requires
                    wide >= 0,
                    b > 0,
            ;
        }
        q as i32
    } else {
        let magnitude: u64 = (-wide) as u64;
        let q: u64 = magnitude / b as u64;
        proof {
            assert(0 <= magnitude as int / b as int <= magnitude) by (nonlinear_arith)
                requires
                    magnitude >= 0,
                    b > 0,
            ;
        }
        (-(q as i64)) as i32
    }
}

/// Whether a track has a size: a `minmax()` track without a lower end has none.
pub open spec fn has_size(tracks: Seq<GridTrack>, at: int) -> bool {
    0 <= at < tracks.len() ==> !(tracks[at] matches GridTrack::MinMax { min, max } && min is None)
}

pub fn check_size(tracks: &Vec<GridTrack>, at: usize) -> (r: bool)
    ensures
        r == has_size(tracks@, at as int),
{
    if at < tracks.len() {
        match tracks[at] {
            GridTrack::MinMax { min, max: _ } => min.is_some(),
            _ => true,
        }
    } else {
        true
    }
}

/// The size of one track. `shares` holds for each fractional track its part of the space.
pub open spec fn track_size(
    tracks: Seq<GridTrack>,
    at: int,
    shares: Seq<i32>,
    space: u32,
    totals: TrackTotals,
    largest: Seq<u32>,
) -> int {
    if at >= tracks.len() {
        0
    } else {
        match tracks[at] {
            GridTrack::Fixed(px) => px as int,
            GridTrack::Fraction(_) => shares[at] as int,
            GridTrack::Auto => if totals.fractions == 0 {
                quotient((space as i32) as int, totals.autos as int)
            } else {
                (largest[at] as i32) as int
            },
            GridTrack::MinMax { min, max } => max2(
                match max {
                    TrackMax::Fixed(px) => px as int,
                    TrackMax::Fraction(_) => shares[at] as int,
                    TrackMax::Auto => 0,
                },
                match min {
                    Some(min) => min as int,
                    None => 0,
                },
            ),
        }
    }
}

/// The size of one track. `shares` holds for each fractional track its part of the space; an
/// `auto` track takes an equal part of the space where nothing is fractional, else its largest
/// item. A track outside the template takes nothing.
pub fn calculate_grid_item_size(
    tracks: &Vec<GridTrack>,
    at: usize,
    shares: &Vec<i32>,
    space: u32,
    totals: &TrackTotals,
    largest: &Vec<u32>,
) -> (r: i32)
    requires
        shares@.len() == tracks@.len(),
        at < tracks@.len() && tracks@[at as int] is Auto ==> totals.autos > 0,
        at < largest@.len(),
        has_size(tracks@, at as int),
    ensures
        r == track_size(tracks@, at as int, shares@, space, *totals, largest@),
{
    if at >= tracks.len() {
        return 0;
    }
    match tracks[at] {
        GridTrack::Fixed(px) => px,
        GridTrack::Fraction(_) => shares[at],
        GridTrack::Auto => if totals.fractions == 0 {
            divide(space as i32, totals.autos)
        } else {
            largest[at] as i32
        },
        GridTrack::MinMax { min, max } => {
            let upper: i32 = match max {
                TrackMax::Fixed(px) => px,
                TrackMax::Fraction(_) => shares[at],
                TrackMax::Auto => 0,
            };
            match min {
                Some(min) => upper.max(min),
                None => upper.max(0),
            }
        },
    }
}

/// The sizes of `span` tracks from `start`, added up; nothing where a track has no size or a sum
/// leaves the `i32` range.
pub open spec fn span_size(
    tracks: Seq<GridTrack>,
    start: int,
    span: int,
    shares: Seq<i32>,
    space: u32,
    totals: TrackTotals,
    largest: Seq<u32>,
) -> Option<int>
    decreases span,
{
    if span <= 0 {
        Some(0)
    } else {
        match span_size(tracks, start, span - 1, shares, space, totals, largest) {
            None => None,
            Some(before) => {
                let sum = before + track_size(
                    tracks,
                    start + span - 1,
                    shares,
                    space,
                    totals,
                    largest,
                );
                if has_size(tracks, start + span - 1) && in_i32(sum) {
                    Some(sum)
                } else {
                    None
                }
            },
        }
    }
}

proof fn lemma_span_prefix(
    tracks: Seq<GridTrack>,
    start: int,
    span: int,
    shares: Seq<i32>,
    space: u32,
    totals: TrackTotals,
    largest: Seq<u32>,
    count: int,
)
    requires
        0 <= count <= span,
        span_size(tracks, start, count, shares, space, totals, largest) is None,
    ensures
        span_size(tracks, start, span, shares, space, totals, largest) is None,
    decreases span,
{
    if count < span {
        lemma_span_prefix(tracks, start, span - 1, shares, space, totals, largest, count);
    }
}

/// The width of the cell of an item that spans several columns. Nothing where a column has no size
/// or the sizes leave the `i32` range.
pub fn cell_width(
    tracks: &Vec<GridTrack>,
    start: usize,
    span: usize,
    shares: &Vec<i32>,
    space: u32,
    totals: &TrackTotals,
    largest: &Vec<u32>,
) -> (r: Option<u32>)
    requires
        shares@.len() == tracks@.len(),
        forall|i: int| 0 <= i < tracks@.len() && (#[trigger] tracks@[i]) is Auto ==> totals.autos > 0,
        start + span <= largest@.len(),
    ensures
        match (r, span_size(
            tracks@,
            start as int,
            span as int,
            shares@,
            space,
            *totals,
            largest@,
        )) {
            (Some(width), Some(sum)) => width == sum as i32 as u32,
            (None, None) => true,
            _ => false,
        },
{
    let mut sum: i32 = 0;
    let mut at: usize = 0;
    let lines: usize = largest.len();
    while at < span
        invariant
            at <= span,
            lines == largest@.len(),
            shares@.len() == tracks@.len(),
            forall|i: int|
                0 <= i < tracks@.len() && (#[trigger] tracks@[i]) is Auto ==> totals.autos > 0,
            start + span <= largest@.len(),
            span_size(tracks@, start as int, at as int, shares@, space, *totals, largest@) == Some(
                sum as int,
            ),
        decreases span - at,
    {
        if !check_size(tracks, start + at) {
            proof {
                lemma_span_prefix(
                    tracks@,
                    start as int,
                    span as int,
                    shares@,
                    space,
                    *totals,
                    largest@,
                    at + 1,
                );
            }
            return None;
        }
        let size: i32 = calculate_grid_item_size(
            tracks,
            start + at,
            shares,
            space,
            totals,
            largest,
        );
        match sum.checked_add(size) {
            None => {
                proof {
                    lemma_span_prefix(
                        tracks@,
                        start as int,
                        span as int,
                        shares@,
                        space,
                        *totals,
                        largest@,
                        at + 1,
                    );
                }
                return None;
            },
            Some(extended) => {
                sum = extended;
            },
        }
        at = at + 1;
    }
    Some(sum as u32)
}

/// The state of a grid while its items are put in their cells.
pub struct GridFlow {
    pub origin: Position,
    pub cursor: Position,
    pub last_column: i32,
    pub max_child_height: i32,
    pub longest_row_width: i32,
    pub children: Vec<usize>,
}

/// What a [`GridFlow`] holds, in mathematical integers.
pub struct GridModel {
    pub origin_x: int,
    pub origin_y: int,
    pub x: int,
    pub y: int,
    pub last_column: int,
    pub max_child_height: int,
    pub longest_row_width: int,
    pub children: Seq<usize>,
}

/// How far an item goes into the free part of its cell.
pub open spec fn cell_offset(align: StyleJustifyContent, free: int) -> int {
    match align {
        StyleJustifyContent::Center => free / 2,
        StyleJustifyContent::FlexEnd => free,
        _ => 0,
    }
}

/// The free part of a cell along one axis.
pub open spec fn cell_free(target: u32, base: u32) -> int {
    max2((target as i32) - (base as i32), 0)
}

impl GridModel {
    /// The grid at the cell of an item: a column that does not lie behind the last one starts a
    /// row.
    pub open spec fn at_item(self, item: GridBaseItem) -> GridModel {
        if item.column <= self.last_column {
            GridModel {
                x: self.origin_x,
                y: self.y + self.max_child_height,
                max_child_height: 0,
                last_column: item.column as int,
                ..self
            }
        } else {
            GridModel { last_column: item.column as int, ..self }
        }
    }

    /// The grid after an item has been laid out.
    pub open spec fn after_item(self, item: GridBaseItem, id: usize, height: u32) -> GridModel {
        let x = self.x + (item.target_width as i32);
        GridModel {
            x,
            longest_row_width: max2(self.longest_row_width, x - self.origin_x),
            max_child_height: max2(self.max_child_height, (height as i32) as int),
            children: self.children.push(id),
            ..self
        }
    }
}

/// Where an item goes and what is forced on it.
#[derive(Debug, Clone, Copy, PartialEq, Eq, Structural)]
pub struct CellPlacement {
    pub position: Position,
    pub forced_size: OptionalSize,
}

/// What decides how an item sits in its cell.
#[derive(Debug, Clone, Copy, PartialEq, Eq, Structural)]
pub struct CellStyle {
    pub justify_items: StyleJustifyContent,
    pub align_items: StyleJustifyContent,
    pub has_row_template: bool,
    pub width_auto: bool,
    pub height_auto: bool,
}

/// The size that is forced on an item: that of its cell where it stretches, else its own.
pub open spec fn cell_forced_size(item: GridBaseItem, style: CellStyle) -> OptionalSize {
    OptionalSize {
        width: Some(
            if style.width_auto && style.justify_items is Stretch {
                item.target_width
            } else {
                item.base_width
            },
        ),
        height: if !style.height_auto {
            Some(item.base_height)
        } else if style.has_row_template && style.align_items is Stretch {
            Some(item.target_height)
        } else {
            None
        },
    }
}

fn wide_in_range(value: i64) -> (r: bool)
    ensures
        r == in_i32(value as int),
{
    i32::MIN as i64 <= value && value <= i32::MAX as i64
}

fn free_in_cell(target: u32, base: u32) -> (r: Option<i32>)
    ensures
        match r {
            None => !in_i32((target as i32) - (base as i32)),
            Some(free) => in_i32((target as i32) - (base as i32)) && free == cell_free(
                target,
                base,
            ),
        },
{
    match (target as i32).checked_sub(base as i32) {
        None => None,
        Some(free) => Some(free.max(0)),
    }
}

fn offset_in_cell(align: StyleJustifyContent, free: i32) -> (r: i32)
    requires
        free >= 0,
    ensures
        r == cell_offset(align, free as int),
        0 <= r <= free,
{
    match align {
        StyleJustifyContent::Center => (free as u32 / 2) as i32,
        StyleJustifyContent::FlexEnd => free,
        _ => 0,
    }
}

/// A grid with nothing in its cells; nothing where its start leaves the `i32` range.
pub open spec fn grid_begun(cursor: Position, padding: Edges) -> Option<GridModel> {
    let x = cursor.x + padding.left;
    let y = cursor.y + padding.top;
    if in_i32(x) && in_i32(y) {
        Some(
            GridModel {
                origin_x: x,
                origin_y: y,
                x,
                y,
                last_column: 0,
                max_child_height: 0,
                longest_row_width: 0,
                children: Seq::empty(),
            },
        )
    } else {
        None
    }
}

impl GridModel {
    /// The grid at the cell of an item, and where the item goes in it. Nothing where a coordinate
    /// leaves the `i32` range.
    pub open spec fn placed(self, item: GridBaseItem, style: CellStyle) -> Option<
        (GridModel, int, int),
    > {
        let cell = self.at_item(item);
        let x = cell.x + cell_offset(
            style.justify_items,
            cell_free(item.target_width, item.base_width),
        );
        let y = cell.y + cell_offset(
            style.align_items,
            cell_free(item.target_height, item.base_height),
        );
        if in_i32(cell.y) && in_i32(x) && in_i32(y) && in_i32(
            (item.target_width as i32) - (item.base_width as i32),
        ) && in_i32((item.target_height as i32) - (item.base_height as i32)) {
            Some((cell, x, y))
        } else {
            None
        }
    }

    /// Whether taking in an item keeps every coordinate in the `i32` range.
    pub open spec fn item_in_range(self, item: GridBaseItem) -> bool {
        in_i32(self.x + (item.target_width as i32)) && in_i32(
            self.x + (item.target_width as i32) - self.origin_x,
        )
    }
}

/// The width, height and content height of a finished grid; nothing where a sum does not fit its
/// type.
pub open spec fn grid_size(
    grid: GridModel,
    specified_height: Option<u32>,
    sizes: ContainerSizes,
    fills: bool,
) -> Option<(u32, u32, u32)> {
    let bottom = grid.y + grid.max_child_height;
    let content = bottom - grid.origin_y;
    let longest = grid.longest_row_width as i32 as u32;
    if in_i32(bottom) && in_i32(content) && (!fills ==> sizes.width_within(longest)
        + sizes.padding_x <= u32::MAX) {
        Some(
            (
                if fills {
                    sizes.container_width
                } else {
                    sizes.actual_width(longest) as u32
                },
                bounded(
                    match specified_height {
                        Some(height) => height,
                        None => content as i32 as u32,
                    },
                    sizes.min_height,
                    sizes.max_height,
                ),
                content as i32 as u32,
            ),
        )
    } else {
        None
    }
}

impl GridFlow {
    pub open spec fn model(self) -> GridModel {
        GridModel {
            origin_x: self.origin.x as int,
            origin_y: self.origin.y as int,
            x: self.cursor.x as int,
            y: self.cursor.y as int,
            last_column: self.last_column as int,
            max_child_height: self.max_child_height as int,
            longest_row_width: self.longest_row_width as int,
            children: self.children@,
        }
    }

    /// A grid with nothing in its cells. Nothing where its start leaves the `i32` range.
    pub fn new(cursor: Position, padding: &Edges) -> (r: Option<GridFlow>)
        ensures
            match (r, grid_begun(cursor, *padding)) {
                (Some(flow), Some(model)) => flow.model() == model,
                (None, None) => true,
                _ => false,
            },
    {
        let x: i64 = cursor.x as i64 + padding.left as i64;
        let y: i64 = cursor.y as i64 + padding.top as i64;
        if !wide_in_range(x) || !wide_in_range(y) {
            return None;
        }
        let origin = Position { x: x as i32, y: y as i32 };
        Some(
            GridFlow {
                origin,
                cursor: origin,
                last_column: 0,
                max_child_height: 0,
                longest_row_width: 0,
                children: Vec::new(),
            },
        )
    }

    /// Moves to the cell of an item and returns where the item goes in it. Nothing where a
    /// coordinate leaves the `i32` range.
    pub fn place(&mut self, item: &GridBaseItem, style: &CellStyle) -> (r: Option<CellPlacement>)
        ensures
            match (r, old(self).model().placed(*item, *style)) {
                (Some(placement), Some((model, x, y))) => {
                    &&& placement.position.x == x
                    &&& placement.position.y == y
                    &&& placement.forced_size == cell_forced_size(*item, *style)
                    &&& final(self).model() == model
                },
                (None, None) => *final(self) == *old(self),
                _ => false,
            },
    {
        let wraps = item.column <= self.last_column;
        let cell_x: i32 = if wraps {
            self.origin.x
        } else {
            self.cursor.x
        };
        let cell_y: i64 = if wraps {
            self.cursor.y as i64 + self.max_child_height as i64
        } else {
            self.cursor.y as i64
        };
        let (free_x, free_y): (i32, i32) = match (
            free_in_cell(item.target_width, item.base_width),
            free_in_cell(item.target_height, item.base_height),
        ) {
            (Some(free_x), Some(free_y)) => (free_x, free_y),
            _ => {
                return None;
            },
        };
        let x: i64 = cell_x as i64 + offset_in_cell(style.justify_items, free_x) as i64;
        let y: i64 = cell_y + offset_in_cell(style.align_items, free_y) as i64;
        if !wide_in_range(cell_y) || !wide_in_range(x) || !wide_in_range(y) {
            return None;
        }
        self.last_column = item.column;
        if wraps {
            self.cursor = Position { x: cell_x, y: cell_y as i32 };
            self.max_child_height = 0;
        }
        let width = if style.width_auto && style.justify_items == StyleJustifyContent::Stretch {
            item.target_width
        } else {
            item.base_width
        };
        let height = if !style.height_auto {
            Some(item.base_height)
        } else if style.has_row_template && style.align_items == StyleJustifyContent::Stretch {
            Some(item.target_height)
        } else {
            None
        };
        Some(
            CellPlacement {
                position: Position { x: x as i32, y: y as i32 },
                forced_size: OptionalSize { width: Some(width), height },
            },
        )
    }

    /// Takes in an item that was laid out in its cell. The result is `false` where a coordinate
    /// leaves the `i32` range.
    pub fn add_item(&mut self, item: &GridBaseItem, id: usize, height: u32) -> (ok: bool)
        ensures
            ok == old(self).model().item_in_range(*item),
            ok ==> final(self).model() == old(self).model().after_item(*item, id, height),
            !ok ==> *final(self) == *old(self),
    {
        let x: i64 = self.cursor.x as i64 + (item.target_width as i32) as i64;
        let length: i64 = x - self.origin.x as i64;
        if !wide_in_range(x) || !wide_in_range(length) {
            return false;
        }
        self.cursor = Position { x: x as i32, y: self.cursor.y };
        self.longest_row_width = self.longest_row_width.max(length as i32);
        self.max_child_height = self.max_child_height.max(height as i32);
        self.children.push(id);
        true
    }

    /// The width, height and content height of the grid, once all items are in their cells.
    /// Nothing where a sum does not fit its type.
    pub fn finish(
        &self,
        specified_height: Option<u32>,
        sizes: &ContainerSizes,
        fills: bool,
    ) -> (r: Option<(u32, u32, u32)>)
        ensures
            r == grid_size(self.model(), specified_height, *sizes, fills),
    {
        let bottom: i64 = self.cursor.y as i64 + self.max_child_height as i64;
        let content: i64 = bottom - self.origin.y as i64;
        if !wide_in_range(bottom) || !wide_in_range(content) {
            return None;
        }
        let content_height: u32 = content as i32 as u32;
        let height: u32 = match specified_height {
            Some(height) => height,
            None => content_height,
        };
        let longest: u32 = self.longest_row_width as u32;
        let width: u32 = if fills {
            sizes.container_width
        } else {
            if sizes.clamp_width(longest) as u64 + sizes.padding_x as u64 > u32::MAX as u64 {
                return None;
            }
            sizes.compute_actual_container_width(longest)
        };
        Some((width, hold_between(height, sizes.min_height, sizes.max_height), content_height))
    }
}

/// An item that fits beside the others of its row stays within the columns of the template.
pub proof fn lemma_items_stay_in_template(
    placer: PlacerModel,
    node_idx: usize,
    span: i32,
    width: u32,
    height: u32,
)
    requires
        placer.template_columns is Some,
        placer.template_columns->0 <= i32::MAX,
        0 <= placer.column,
        1 <= span <= placer.template_columns->0,
    ensures
        placer.at_item(span as int).after_item(node_idx, span, width, height).column
            <= placer.template_columns->0,
{
}

} // verus!
