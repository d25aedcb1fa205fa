//! The columns or the rows of a grid: what their template comes to in pixels.
use vstd::prelude::*;

use crate::calc::share_of;
use crate::calc::share_value;
use crate::grid::after_autos;
use crate::grid::cell_width;
use crate::grid::check_size;
use crate::grid::has_size;
use crate::grid::deduct_autos;
use crate::grid::lemma_auto_is_counted;
use crate::grid::scan_tracks;
use crate::grid::space_to_give;
use crate::grid::span_size;
use crate::grid::track_totals;
use crate::grid::GridBaseItem;
use crate::grid::GridTrack;
use crate::grid::TrackMax;
use crate::grid::TrackTotals;
use crate::lengths::Stop;
use crate::lengths::TrackLength;
use crate::lengths::TrackStyle;
use crate::needs::Answer;
use crate::needs::Answers;
use crate::needs::Need;

verus! {

/// The lower end of a `minmax()` track in pixels; a fraction is none.
pub open spec fn track_min(length: TrackLength, inner: u32) -> Option<i32> {
    match length {
        TrackLength::Px(px) => Some(px),
        TrackLength::Share(share) => Some(share_value(inner, share) as i32),
        TrackLength::Auto => Some(0),
        TrackLength::Fraction(_) => None,
    }
}

/// A track whose shares of `inner` are pixels.
pub open spec fn track_of(style: TrackStyle, inner: u32) -> GridTrack {
    match style {
        TrackStyle::Size(length) => match length {
            TrackLength::Px(px) => GridTrack::Fixed(px),
            TrackLength::Share(share) => GridTrack::Fixed(share_value(inner, share) as i32),
            TrackLength::Fraction(fraction) => GridTrack::Fraction(fraction),
            TrackLength::Auto => GridTrack::Auto,
        },
        TrackStyle::MinMax(min, max) => GridTrack::MinMax {
            min: track_min(min, inner),
            max: match max {
                TrackLength::Px(px) => TrackMax::Fixed(px),
                TrackLength::Share(share) => TrackMax::Fixed(share_value(inner, share) as i32),
                TrackLength::Fraction(fraction) => TrackMax::Fraction(fraction),
                TrackLength::Auto => TrackMax::Auto,
            },
        },
    }
}

fn resolve_track(style: &TrackStyle, inner: u32) -> (r: GridTrack)
    ensures
        r == track_of(*style, inner),
{
    match style {
        TrackStyle::Size(length) => match length {
            TrackLength::Px(px) => GridTrack::Fixed(*px),
            TrackLength::Share(share) => GridTrack::Fixed(share_of(inner, *share)),
            TrackLength::Fraction(fraction) => GridTrack::Fraction(*fraction),
            TrackLength::Auto => GridTrack::Auto,
        },
        TrackStyle::MinMax(min, max) => {
            let min: Option<i32> = match min {
                TrackLength::Px(px) => Some(*px),
                TrackLength::Share(share) => Some(share_of(inner, *share)),
                TrackLength::Auto => Some(0),
                TrackLength::Fraction(_) => None,
            };
            let max = match max {
                TrackLength::Px(px) => TrackMax::Fixed(*px),
                TrackLength::Share(share) => TrackMax::Fixed(share_of(inner, *share)),
                TrackLength::Fraction(fraction) => TrackMax::Fraction(*fraction),
                TrackLength::Auto => TrackMax::Auto,
            };
            GridTrack::MinMax { min, max }
        },
    }
}

/// The tracks of a template.
pub open spec fn tracks_of(styles: Seq<TrackStyle>, inner: u32) -> Seq<GridTrack> {
    Seq::new(styles.len(), |i: int| track_of(styles[i], inner))
}

fn resolve_tracks(styles: &Vec<TrackStyle>, inner: u32) -> (r: Vec<GridTrack>)
    ensures
        r@ == tracks_of(styles@, inner),
{
    let mut tracks: Vec<GridTrack> = Vec::new();
    let mut at: usize = 0;
    while at < styles.len()
        invariant
            at <= styles@.len(),
            tracks@ =~= tracks_of(styles@, inner).take(at as int),
        decreases styles@.len() - at,
    {
        tracks.push(resolve_track(&styles[at], inner));
        at = at + 1;
    }
    assert(tracks@ =~= tracks_of(styles@, inner));
    tracks
}

/// Whether some track has no size.
pub open spec fn some_without_size(tracks: Seq<GridTrack>) -> bool {
    exists|i: int| 0 <= i < tracks.len() && !(#[trigger] has_size(tracks, i))
}

/// The fraction that a track takes of what is to be given.
pub open spec fn fraction_of(track: GridTrack) -> Option<i32> {
    match track {
        GridTrack::Fraction(fraction) => Some(fraction),
        GridTrack::MinMax { min: _, max: TrackMax::Fraction(fraction) } => Some(fraction),
        _ => None,
    }
}

/// What a track takes of a space that all fractions share.
pub open spec fn share_in(answers: Answers, track: GridTrack, space: u32, total: i32) -> Result<
    i32,
    Stop,
> {
    match fraction_of(track) {
        None => Ok(0),
        Some(fraction) => {
            let need = Need::Fraction { space, fraction, total };
            match answers.answer(need) {
                Some(Answer::Number(share)) => Ok(share),
                _ => Err(Stop::Need(need)),
            }
        },
    }
}

fn get_share(answers: &Answers, track: &GridTrack, space: u32, total: i32) -> (r: Result<i32, Stop>)
    ensures
        r == share_in(*answers, *track, space, total),
{
    let fraction: i32 = match track {
        GridTrack::Fraction(fraction) => *fraction,
        GridTrack::MinMax { min: _, max } => match max {
            TrackMax::Fraction(fraction) => *fraction,
            _ => {
                return Ok(0);
            },
        },
        _ => {
            return Ok(0);
        },
    };
    let need = Need::Fraction { space, fraction, total };
    match answers.find(need) {
        Some(Answer::Number(share)) => Ok(share),
        _ => Err(Stop::Need(need)),
    }
}

/// The shares of the tracks from a place on, behind those that are known.
pub open spec fn shares_from(
    answers: Answers,
    tracks: Seq<GridTrack>,
    space: u32,
    total: i32,
    at: int,
    known: Seq<i32>,
) -> Result<Seq<i32>, Stop>
    decreases tracks.len() - at,
{
    if at < 0 || at >= tracks.len() {
        Ok(known)
    } else {
        match share_in(answers, tracks[at], space, total) {
            Err(stop) => Err(stop),
            Ok(share) => shares_from(answers, tracks, space, total, at + 1, known.push(share)),
        }
    }
}

fn get_shares(answers: &Answers, tracks: &Vec<GridTrack>, space: u32, total: i32) -> (r: Result<
    Vec<i32>,
    Stop,
>)
    ensures
        match (r, shares_from(*answers, tracks@, space, total, 0, Seq::empty())) {
            (Ok(found), Ok(shares)) => found@ == shares && found@.len() == tracks@.len(),
            (Err(stop), Err(reason)) => stop == reason,
            _ => false,
        },
{
    let mut shares: Vec<i32> = Vec::new();
    let mut at: usize = 0;
    assert(shares@ =~= Seq::empty());
    while at < tracks.len()
        invariant
            at <= tracks@.len(),
            at == shares@.len(),
            shares_from(*answers, tracks@, space, total, 0, Seq::empty()) == shares_from(
                *answers,
                tracks@,
                space,
                total,
                at as int,
                shares@,
            ),
        decreases tracks@.len() - at,
    {
        match get_share(answers, &tracks[at], space, total) {
            Err(stop) => {
                return Err(stop);
            },
            Ok(share) => {
                shares.push(share);
            },
        }
        at = at + 1;
    }
    Ok(shares)
}

/// The columns or the rows of a grid.
pub struct GridAxis {
    /// The space along the axis.
    pub inner: u32,
    pub has_template: bool,
    pub tracks: Vec<GridTrack>,
    pub totals: TrackTotals,
    /// What is left for tracks that are not fixed.
    pub space: u32,
    /// What each fractional track takes.
    pub shares: Vec<i32>,
    /// The largest item of each line.
    pub largest: Vec<u32>,
}

/// What a [`GridAxis`] holds.
#[verifier::ext_equal]
pub struct AxisModel {
    pub inner: u32,
    pub has_template: bool,
    pub tracks: Seq<GridTrack>,
    pub totals: TrackTotals,
    pub space: u32,
    pub shares: Seq<i32>,
    pub largest: Seq<u32>,
}

impl View for GridAxis {
    type V = AxisModel;

    open spec fn view(&self) -> AxisModel {
        AxisModel {
            inner: self.inner,
            has_template: self.has_template,
            tracks: self.tracks@,
            totals: self.totals,
            space: self.space,
            shares: self.shares@,
            largest: self.largest@,
        }
    }
}

/// An axis whose items are not known yet.
pub open spec fn axis_begun(template: Option<Vec<TrackStyle>>, inner: u32) -> Result<
    AxisModel,
    Stop,
> {
    match template {
        None => Ok(
            AxisModel {
                inner,
                has_template: false,
                tracks: Seq::empty(),
                totals: TrackTotals { used: 0, fractions: 0, autos: 0 },
                space: inner,
                shares: Seq::empty(),
                largest: Seq::empty(),
            },
        ),
        Some(styles) => {
            let tracks = tracks_of(styles@, inner);
            match track_totals(tracks) {
                None => Err(Stop::Range),
                Some(model) => {
                    let used = model.used as i32 as u32;
                    if used > inner {
                        Err(Stop::Range)
                    } else {
                        Ok(
                            AxisModel {
                                inner,
                                has_template: true,
                                tracks,
                                totals: TrackTotals {
                                    used: model.used as i32,
                                    fractions: model.fractions as i32,
                                    autos: model.autos as i32,
                                },
                                space: (inner - used) as u32,
                                shares: Seq::empty(),
                                largest: Seq::empty(),
                            },
                        )
                    }
                },
            }
        },
    }
}

impl AxisModel {
    /// The axis once the largest item of each line is known.
    pub open spec fn measured(self, answers: Answers, largest: Seq<u32>) -> Result<AxisModel, Stop> {
        let space = if self.totals.fractions > 0 {
            after_autos(self.tracks, largest, largest.len() as int, self.space)
        } else {
            self.space
        };
        match shares_from(answers, self.tracks, space, self.totals.fractions, 0, Seq::empty()) {
            Err(stop) => Err(stop),
            Ok(shares) => Ok(AxisModel { space, shares, largest, ..self }),
        }
    }

    /// The size of the cell of an item along the axis; without a template that is `fallback`.
    pub open spec fn cell(self, start: int, span: int, fallback: u32) -> Option<u32> {
        if !self.has_template {
            Some(fallback)
        } else {
            match span_size(
                self.tracks,
                start,
                span,
                self.shares,
                self.space,
                self.totals,
                self.largest,
            ) {
                None => None,
                Some(sum) => Some(sum as i32 as u32),
            }
        }
    }
}

impl GridAxis {
    /// Every `auto` track has been counted.
    pub open spec fn wf(self) -> bool {
        forall|i: int|
            0 <= i < self.tracks@.len() && (#[trigger] self.tracks@[i]) is Auto
                ==> self.totals.autos > 0
    }

    /// An axis whose items are not known yet.
    pub fn begin(template: &Option<Vec<TrackStyle>>, inner: u32) -> (r: Result<GridAxis, Stop>)
        ensures
            match (r, axis_begun(*template, inner)) {
                (Ok(axis), Ok(model)) => axis@ == model && axis.wf(),
                (Err(stop), Err(reason)) => stop == reason,
                _ => false,
            },
    {
        let styles = match template {
            None => {
                let axis = GridAxis {
                    inner,
                    has_template: false,
                    tracks: Vec::new(),
                    totals: TrackTotals { used: 0, fractions: 0, autos: 0 },
                    space: inner,
                    shares: Vec::new(),
                    largest: Vec::new(),
                };
                assert(axis@ =~= axis_begun(*template, inner)->Ok_0);
                return Ok(axis);
            },
            Some(styles) => styles,
        };
        let tracks = resolve_tracks(styles, inner);
        let totals = match scan_tracks(&tracks) {
            None => {
                return Err(Stop::Range);
            },
            Some(totals) => totals,
        };
        let space: u32 = match space_to_give(inner, &totals) {
            None => {
                return Err(Stop::Range);
            },
            Some(space) => space,
        };
        proof {
            assert forall|i: int|
                0 <= i < tracks@.len() && (#[trigger] tracks@[i]) is Auto implies totals.autos
                > 0 by {
                lemma_auto_is_counted(tracks@, i);
            }
        }
        let axis = GridAxis {
            inner,
            has_template: true,
            tracks,
            totals,
            space,
            shares: Vec::new(),
            largest: Vec::new(),
        };
        assert(axis@ =~= axis_begun(*template, inner)->Ok_0);
        Ok(axis)
    }

    /// Whether some track has no size.
    pub fn lacks_size(&self) -> (r: bool)
        ensures
            r == some_without_size(self.tracks@),
    {
        let mut at: usize = 0;
        while at < self.tracks.len()
            invariant
                at <= self.tracks@.len(),
                forall|i: int| 0 <= i < at ==> #[trigger] has_size(self.tracks@, i),
            decreases self.tracks@.len() - at,
        {
            if !check_size(&self.tracks, at) {
                return true;
            }
            at = at + 1;
        }
        false
    }

    /// Takes in the largest item of each line, and works out what the fractional tracks take.
    pub fn measure(self, answers: &Answers, largest: Vec<u32>) -> (r: Result<GridAxis, Stop>)
        requires
            self.wf(),
        ensures
            match (r, self@.measured(*answers, largest@)) {
                (Ok(axis), Ok(model)) => axis@ == model && axis.wf() && axis.shares@.len()
                    == axis.tracks@.len(),
                (Err(stop), Err(reason)) => stop == reason,
                _ => false,
            },
    {
        let space: u32 = deduct_autos(&self.tracks, &largest, self.totals.fractions, self.space);
        let shares = match get_shares(answers, &self.tracks, space, self.totals.fractions) {
            Err(stop) => {
                return Err(stop);
            },
            Ok(shares) => shares,
        };
        Ok(GridAxis { space, shares, largest, ..self })
    }

    /// The size of the cell of an item along the axis. Nothing where a sum leaves the `i32` range.
    pub fn cell_size(&self, start: usize, span: usize, fallback: u32) -> (r: Option<u32>)
        requires
            self.wf(),
            self.shares@.len() == self.tracks@.len(),
            start + span <= self.largest@.len(),
        ensures
            r == self@.cell(start as int, span as int, fallback),
    {
        if !self.has_template {
            return Some(fallback);
        }
        cell_width(
            &self.tracks,
            start,
            span,
            &self.shares,
            self.space,
            &self.totals,
            &self.largest,
        )
    }
}

/// An item with the size of its cell.
pub open spec fn in_cell(item: GridBaseItem, columns: AxisModel, rows: AxisModel) -> Option<
    GridBaseItem,
> {
    match (
        columns.cell(item.column as int, item.column_span as int, columns.inner),
        rows.cell(item.row as int, 1, item.base_height),
    ) {
        (Some(target_width), Some(target_height)) => Some(
            GridBaseItem { target_width, target_height, ..item },
        ),
        _ => None,
    }
}

/// The items from a place on with the sizes of their cells, behind those that are known.
pub open spec fn cells_from(
    items: Seq<GridBaseItem>,
    columns: AxisModel,
    rows: AxisModel,
    at: int,
    known: Seq<GridBaseItem>,
) -> Option<Seq<GridBaseItem>>
    decreases items.len() - at,
{
    if at < 0 || at >= items.len() {
        Some(known)
    } else {
        match in_cell(items[at], columns, rows) {
            None => None,
            Some(item) => cells_from(items, columns, rows, at + 1, known.push(item)),
        }
    }
}

/// The items with the sizes of their cells. Nothing where a sum leaves the `i32` range.
pub fn size_cells(items: &Vec<GridBaseItem>, columns: &GridAxis, rows: &GridAxis) -> (r: Option<
    Vec<GridBaseItem>,
>)
    requires
        columns.wf(),
        rows.wf(),
        columns.shares@.len() == columns.tracks@.len(),
        rows.shares@.len() == rows.tracks@.len(),
        forall|i: int|
            0 <= i < items@.len() ==> {
                &&& 0 <= (#[trigger] items@[i]).column
                &&& 1 <= items@[i].column_span
                &&& items@[i].column + items@[i].column_span <= columns.largest@.len()
                &&& 0 <= items@[i].row < rows.largest@.len()
            },
    ensures
        match (r, cells_from(items@, columns@, rows@, 0, Seq::empty())) {
            (Some(found), Some(cells)) => found@ == cells,
            (None, None) => true,
            _ => false,
        },
{
    let mut cells: Vec<GridBaseItem> = Vec::new();
    let mut at: usize = 0;
    assert(cells@ =~= Seq::empty());
    while at < items.len()
        invariant
            at <= items@.len(),
            columns.wf(),
            rows.wf(),
            columns.shares@.len() == columns.tracks@.len(),
            rows.shares@.len() == rows.tracks@.len(),
            forall|i: int|
                0 <= i < items@.len() ==> {
                    &&& 0 <= (#[trigger] items@[i]).column
                    &&& 1 <= items@[i].column_span
                    &&& items@[i].column + items@[i].column_span <= columns.largest@.len()
                    &&& 0 <= items@[i].row < rows.largest@.len()
                },
            cells_from(items@, columns@, rows@, 0, Seq::empty()) == cells_from(
                items@,
                columns@,
                rows@,
                at as int,
                cells@,
            ),
        decreases items@.len() - at,
    {
        let item = items[at];
        assert(0 <= items@[at as int].column);
        let _lines: usize = columns.largest.len();
        let width = columns.cell_size(
            item.column as usize,
            item.column_span as usize,
            columns.inner,
        );
        let height = rows.cell_size(item.row as usize, 1, item.base_height);
        match (width, height) {
            (Some(target_width), Some(target_height)) => {
                cells.push(GridBaseItem { target_width, target_height, ..item });
            },
            _ => {
                return None;
            },
        }
        at = at + 1;
    }
    Some(cells)
}

} // verus!
