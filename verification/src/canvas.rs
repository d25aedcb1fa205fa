//! The drawing surface of a `<canvas>` element and its command queue.
//!
//! Commands that only need integers are carried out here. A command that fills, strokes, clips or
//! draws along transformed coordinates is handed out as a [`CanvasAction`]; whoever evaluates the
//! coordinates hands the resulting edges, points or samples back.
use std::rc::Rc;
use vstd::prelude::*;

use crate::dom::node_at;
use crate::dom::NodesModel;
use crate::dom::NodesTable;
use crate::order::ascending;
use crate::order::sort_ascending;
use crate::pixel::blend_rgba_with_rgba;
use crate::pixel::channel;
use crate::pixel::channel_at;
use crate::pixel::multiply_coverage;
use crate::pixel::over_rgba;
use crate::pixel::pack_rgba;
use crate::pixel::premultiplied;
use crate::pixel::rgba_to_premul_tuple;
use crate::pixel::scaled;
use crate::raster::lemma_painted_end;
use crate::raster::lemma_painted_nothing;
use crate::raster::lemma_painted_skip_row_end;
use crate::raster::lemma_painted_start;
use crate::raster::lemma_painted_step;
use crate::raster::lemma_pixel_in_bounds;
use crate::raster::min2;
use crate::raster::painted;
use crate::raster::painted_prefix;
use crate::raster::Area;
use crate::shapes::canvas_size;
use crate::shapes::get_canvas_wh;
use crate::sizing::Size;

verus! {

/// The colour that `FillRect` and `StrokeRect` use: opaque black.
pub const RECT_COLOR: u32 = 0x0000_00FF;

/// The coverage that a clip mask leaves at a pixel.
pub open spec fn covered(clip_mask: Option<Seq<u8>>, pixel_idx: int, coverage: u8) -> u8 {
    match clip_mask {
        Some(mask) => scaled(coverage as int, mask[pixel_idx] as int) as u8,
        None => coverage,
    }
}

/// A colour with every channel scaled by a coverage.
pub open spec fn scaled_color(source: (u8, u8, u8, u8), coverage: u8) -> (u8, u8, u8, u8) {
    if coverage == 255 {
        source
    } else {
        (
            scaled(source.0 as int, coverage as int) as u8,
            scaled(source.1 as int, coverage as int) as u8,
            scaled(source.2 as int, coverage as int) as u8,
            scaled(source.3 as int, coverage as int) as u8,
        )
    }
}

/// A canvas pixel after a colour has been drawn on it with the given coverage.
pub open spec fn drawn(pixel: u32, source: (u8, u8, u8, u8), coverage: u8) -> u32 {
    if coverage == 0 {
        pixel
    } else {
        over_rgba(pixel, scaled_color(source, coverage))
    }
}

/// A canvas pixel after it has been erased with the given coverage.
pub open spec fn erased(pixel: u32, coverage: u8) -> u32 {
    if coverage == 0 {
        pixel
    } else if coverage == 255 {
        0
    } else {
        pack_rgba(
            scaled(channel_at(pixel, 24) as int, 255 - coverage) as u32,
            scaled(channel_at(pixel, 16) as int, 255 - coverage) as u32,
            scaled(channel_at(pixel, 8) as int, 255 - coverage) as u32,
            scaled(channel_at(pixel, 0) as int, 255 - coverage) as u32,
        )
    }
}

pub open spec fn mask_view(clip_mask: Option<&[u8]>) -> Option<Seq<u8>> {
    match clip_mask {
        Some(mask) => Some(mask@),
        None => None,
    }
}

/// The coverage that a clip mask leaves at a pixel.
pub fn clipped_coverage(clip_mask: Option<&[u8]>, pixel_idx: usize, coverage: u8) -> (r: u8)
    requires
        clip_mask matches Some(mask) ==> pixel_idx < mask@.len(),
    ensures
        r == covered(mask_view(clip_mask), pixel_idx as int, coverage),
{
    match clip_mask {
        Some(mask) => multiply_coverage(coverage, mask[pixel_idx]),
        None => coverage,
    }
}

/// Draws a colour on one pixel, as far as the clip mask lets it.
pub fn blend_canvas_pixel(
    buffer: &mut [u32],
    clip_mask: Option<&[u8]>,
    pixel_idx: usize,
    source: (u8, u8, u8, u8),
    coverage: u8,
)
    requires
        pixel_idx < old(buffer)@.len(),
        clip_mask matches Some(mask) ==> pixel_idx < mask@.len(),
    ensures
        final(buffer)@ == old(buffer)@.update(
            pixel_idx as int,
            drawn(
                old(buffer)@[pixel_idx as int],
                source,
                covered(mask_view(clip_mask), pixel_idx as int, coverage),
            ),
        ),
{
    let coverage: u8 = clipped_coverage(clip_mask, pixel_idx, coverage);
    if coverage == 0 {
        assert(buffer@ =~= old(buffer)@.update(
            pixel_idx as int,
            old(buffer)@[pixel_idx as int],
        ));
        return;
    }
    let source = if coverage == u8::MAX {
        source
    } else {
        (
            multiply_coverage(source.0, coverage),
            multiply_coverage(source.1, coverage),
            multiply_coverage(source.2, coverage),
            multiply_coverage(source.3, coverage),
        )
    };
    let pixel: u32 = buffer[pixel_idx];
    buffer[pixel_idx] = blend_rgba_with_rgba(pixel, source);
}

/// Erases one pixel, as far as the clip mask lets it.
pub fn clear_canvas_pixel(
    buffer: &mut [u32],
    clip_mask: Option<&[u8]>,
    pixel_idx: usize,
    coverage: u8,
)
    requires
        pixel_idx < old(buffer)@.len(),
        clip_mask matches Some(mask) ==> pixel_idx < mask@.len(),
    ensures
        final(buffer)@ == old(buffer)@.update(
            pixel_idx as int,
            erased(
                old(buffer)@[pixel_idx as int],
                covered(mask_view(clip_mask), pixel_idx as int, coverage),
            ),
        ),
{
    let coverage: u8 = clipped_coverage(clip_mask, pixel_idx, coverage);
    if coverage == 0 {
        assert(buffer@ =~= old(buffer)@.update(
            pixel_idx as int,
            old(buffer)@[pixel_idx as int],
        ));
        return;
    }
    if coverage == u8::MAX {
        buffer[pixel_idx] = 0;
        return;
    }
    let remaining: u8 = u8::MAX - coverage;
    let pixel: u32 = buffer[pixel_idx];
    let red: u32 = multiply_coverage(channel(pixel, 24) as u8, remaining) as u32;
    let green: u32 = multiply_coverage(channel(pixel, 16) as u8, remaining) as u32;
    let blue: u32 = multiply_coverage(channel(pixel, 8) as u8, remaining) as u32;
    let alpha: u32 = multiply_coverage(channel(pixel, 0) as u8, remaining) as u32;
    buffer[pixel_idx] = (red << 24) | (green << 16) | (blue << 8) | alpha;
}

/// Which of the overlapping parts of a path count as inside.
#[derive(Debug, Clone, Copy, PartialEq, Eq, Structural)]
pub enum CanvasFillRule {
    NonZero,
    EvenOdd,
}

/// A run of pixels of one row, from `start_x` up to but not including `end_x`.
#[derive(Debug, Clone, Copy, PartialEq, Eq, Structural)]
pub struct CanvasSpan {
    pub y: usize,
    pub start_x: usize,
    pub end_x: usize,
}

/// A queued canvas command. A path element, a transformation matrix, a line width and an image
/// are known here by number only.
pub enum CanvasPathCommand {
    PathElement { element: usize },
    Fill { color: u32, fill_rule: CanvasFillRule },
    Stroke { line_width: usize, color: u32 },
    StrokePath { path: Vec<usize>, line_width: usize, color: u32 },
    FillPath { path: Vec<usize>, color: u32, fill_rule: CanvasFillRule },
    Clip { fill_rule: CanvasFillRule },
    ClipPath { path: Vec<usize>, fill_rule: CanvasFillRule },
    FillRect { x: i32, y: i32, width: u32, height: u32 },
    StrokeRect { x: i32, y: i32, width: u32, height: u32, edge: u32 },
    Transform { matrix: usize },
    ResetTransform,
    Save,
    Restore,
    BeginPath,
    ClearRect { x: i32, y: i32, width: u32, height: u32 },
    DrawImage { image: usize, x: i32, y: i32 },
}

/// Work on transformed coordinates that a command asks for. `transform` lists the matrices to
/// multiply, from the left; an empty list stands for no transformation.
pub enum CanvasAction {
    Fill { path: Vec<usize>, transform: Vec<usize>, color: u32, fill_rule: CanvasFillRule },
    Clip { path: Vec<usize>, transform: Vec<usize>, fill_rule: CanvasFillRule },
    Stroke { path: Vec<usize>, transform: Vec<usize>, line_width: usize, color: u32 },
    DrawImage { image: usize, transform: Vec<usize>, x: i32, y: i32 },
}

/// What a [`CanvasAction`] says, over sequences.
pub enum ActionModel {
    Fill { path: Seq<usize>, transform: Seq<usize>, color: u32, fill_rule: CanvasFillRule },
    Clip { path: Seq<usize>, transform: Seq<usize>, fill_rule: CanvasFillRule },
    Stroke { path: Seq<usize>, transform: Seq<usize>, line_width: usize, color: u32 },
    DrawImage { image: usize, transform: Seq<usize>, x: i32, y: i32 },
}

impl View for CanvasAction {
    type V = ActionModel;

    open spec fn view(&self) -> ActionModel {
        match *self {
            CanvasAction::Fill { path, transform, color, fill_rule } => ActionModel::Fill {
                path: path@,
                transform: transform@,
                color,
                fill_rule,
            },
            CanvasAction::Clip { path, transform, fill_rule } => ActionModel::Clip {
                path: path@,
                transform: transform@,
                fill_rule,
            },
            CanvasAction::Stroke { path, transform, line_width, color } => ActionModel::Stroke {
                path: path@,
                transform: transform@,
                line_width,
                color,
            },
            CanvasAction::DrawImage { image, transform, x, y } => ActionModel::DrawImage {
                image,
                transform: transform@,
                x,
                y,
            },
        }
    }
}

pub open spec fn action_view(action: Option<CanvasAction>) -> Option<ActionModel> {
    match action {
        Some(action) => Some(action@),
        None => None,
    }
}

/// The part of the canvas that `Save` and `Restore` keep.
pub struct CanvasState {
    pub transform: Vec<usize>,
    pub clip_mask: Option<Rc<Vec<u8>>>,
}

/// What a [`CanvasState`] holds, over sequences.
pub struct StateModel {
    pub transform: Seq<usize>,
    pub clip_mask: Option<Seq<u8>>,
}

impl View for CanvasState {
    type V = StateModel;

    open spec fn view(&self) -> StateModel {
        StateModel {
            transform: self.transform@,
            clip_mask: match self.clip_mask {
                Some(mask) => Some(mask@),
                None => None,
            },
        }
    }
}

impl StateModel {
    pub open spec fn fits(self, len: int) -> bool {
        self.clip_mask matches Some(mask) ==> mask.len() == len
    }
}

/// What a canvas holds: its pixels, its path, its state and the states that were saved.
pub struct CanvasModel {
    pub pixels: Seq<u32>,
    pub width: u32,
    pub height: u32,
    pub path: Seq<usize>,
    pub state: StateModel,
    pub saved: Seq<StateModel>,
}

impl CanvasModel {
    pub open spec fn wf(self) -> bool {
        &&& self.pixels.len() == self.width * self.height
        &&& self.state.fits(self.pixels.len() as int)
        &&& forall|i: int|
            0 <= i < self.saved.len() ==> (#[trigger] self.saved[i]).fits(self.pixels.len() as int)
    }

    /// The pixels of a rectangle that lie on the canvas.
    pub open spec fn rect_area(self, x: i32, y: i32, width: u32, height: u32) -> Area {
        Area {
            start_x: within(x as int, self.width as int),
            start_y: within(y as int, self.height as int),
            end_x: within(x + width, self.width as int),
            end_y: within(y + height, self.height as int),
        }
    }

    /// What drawing with a colour does to the pixel at `(px, py)`.
    pub open spec fn draw_paint(self, source: (u8, u8, u8, u8)) -> spec_fn(int, int, u32) -> u32 {
        |px: int, py: int, pixel: u32|
            drawn(pixel, source, covered(self.state.clip_mask, py * self.width + px, 255))
    }

    /// What erasing does to the pixel at `(px, py)`.
    pub open spec fn erase_paint(self) -> spec_fn(int, int, u32) -> u32 {
        |px: int, py: int, pixel: u32|
            erased(pixel, covered(self.state.clip_mask, py * self.width + px, 255))
    }

    pub open spec fn rect_drawn(
        self,
        x: i32,
        y: i32,
        width: u32,
        height: u32,
        color: u32,
    ) -> CanvasModel {
        CanvasModel {
            pixels: painted(
                self.pixels,
                self.width as int,
                self.rect_area(x, y, width, height),
                self.draw_paint(premultiplied(color)),
            ),
            ..self
        }
    }

    pub open spec fn rect_erased(self, x: i32, y: i32, width: u32, height: u32) -> CanvasModel {
        CanvasModel {
            pixels: painted(
                self.pixels,
                self.width as int,
                self.rect_area(x, y, width, height),
                self.erase_paint(),
            ),
            ..self
        }
    }

    /// The canvas after the outline of a rectangle has been drawn: its left, top, right and
    /// bottom edge, in this order.
    pub open spec fn rect_stroked(
        self,
        x: i32,
        y: i32,
        width: u32,
        height: u32,
        line_width: u32,
    ) -> CanvasModel {
        self.rect_drawn(x, y, line_width, height, RECT_COLOR).rect_drawn(
            x,
            y,
            width,
            line_width,
            RECT_COLOR,
        ).rect_drawn(
            (x + as_signed(width) - as_signed(line_width)) as i32,
            y,
            line_width,
            height,
            RECT_COLOR,
        ).rect_drawn(
            x,
            (y + as_signed(height) - as_signed(line_width)) as i32,
            width,
            line_width,
            RECT_COLOR,
        )
    }

    pub open spec fn pixel_drawn(
        self,
        x: i32,
        y: i32,
        source: (u8, u8, u8, u8),
        coverage: u8,
    ) -> CanvasModel {
        let idx = y * self.width + x;
        if 0 <= x < self.width && 0 <= y < self.height {
            CanvasModel {
                pixels: self.pixels.update(
                    idx,
                    drawn(
                        self.pixels[idx],
                        source,
                        covered(self.state.clip_mask, idx, coverage),
                    ),
                ),
                ..self
            }
        } else {
            self
        }
    }

    pub open spec fn points_drawn(
        self,
        points: Seq<(i32, i32)>,
        source: (u8, u8, u8, u8),
    ) -> CanvasModel
        decreases points.len(),
    {
        if points.len() == 0 {
            self
        } else {
            self.points_drawn(points.drop_last(), source).pixel_drawn(
                points.last().0,
                points.last().1,
                source,
                255,
            )
        }
    }

    pub open spec fn samples_drawn(
        self,
        samples: Seq<(i32, i32, (u8, u8, u8, u8))>,
    ) -> CanvasModel
        decreases samples.len(),
    {
        if samples.len() == 0 {
            self
        } else {
            self.samples_drawn(samples.drop_last()).pixel_drawn(
                samples.last().0,
                samples.last().1,
                samples.last().2,
                255,
            )
        }
    }

    pub open spec fn span_drawn(self, span: CanvasSpan, source: (u8, u8, u8, u8)) -> CanvasModel {
        CanvasModel {
            pixels: painted(
                self.pixels,
                self.width as int,
                Area {
                    start_x: span.start_x as int,
                    start_y: span.y as int,
                    end_x: span.end_x as int,
                    end_y: span.y + 1,
                },
                self.draw_paint(source),
            ),
            ..self
        }
    }

    pub open spec fn spans_drawn(
        self,
        spans: Seq<CanvasSpan>,
        source: (u8, u8, u8, u8),
    ) -> CanvasModel
        decreases spans.len(),
    {
        if spans.len() == 0 {
            self
        } else {
            self.spans_drawn(spans.drop_last(), source).span_drawn(spans.last(), source)
        }
    }

    /// What the clip mask holds at a pixel once drawing is limited to `spans`.
    pub open spec fn clip_coverage(self, spans: Seq<CanvasSpan>, pixel_idx: int) -> u8 {
        let inside: u8 = if spans_cover(
            spans,
            pixel_idx % (self.width as int),
            pixel_idx / (self.width as int),
        ) {
            255
        } else {
            0
        };
        match self.state.clip_mask {
            Some(mask) => scaled(inside as int, mask[pixel_idx] as int) as u8,
            None => inside,
        }
    }

    pub open spec fn clipped_to(self, spans: Seq<CanvasSpan>) -> CanvasModel {
        CanvasModel {
            state: StateModel {
                clip_mask: Some(
                    Seq::new(self.pixels.len(), |i: int| self.clip_coverage(spans, i)),
                ),
                ..self.state
            },
            ..self
        }
    }

    /// The canvas after one command, apart from the work that the command hands out.
    pub open spec fn after(self, command: CanvasPathCommand) -> CanvasModel {
        match command {
            CanvasPathCommand::Transform { matrix } => CanvasModel {
                state: StateModel {
                    transform: self.state.transform.push(matrix),
                    ..self.state
                },
                ..self
            },
            CanvasPathCommand::ResetTransform => CanvasModel {
                state: StateModel { transform: Seq::empty(), ..self.state },
                ..self
            },
            CanvasPathCommand::Save => CanvasModel { saved: self.saved.push(self.state), ..self },
            CanvasPathCommand::Restore => if self.saved.len() > 0 {
                CanvasModel { state: self.saved.last(), saved: self.saved.drop_last(), ..self }
            } else {
                self
            },
            CanvasPathCommand::BeginPath => CanvasModel { path: Seq::empty(), ..self },
            CanvasPathCommand::PathElement { element } => CanvasModel {
                path: self.path.push(element),
                ..self
            },
            CanvasPathCommand::FillRect { x, y, width, height } => self.rect_drawn(
                x,
                y,
                width,
                height,
                RECT_COLOR,
            ),
            CanvasPathCommand::StrokeRect { x, y, width, height, edge } => self.rect_stroked(
                x,
                y,
                width,
                height,
                edge,
            ),
            CanvasPathCommand::ClearRect { x, y, width, height } => self.rect_erased(
                x,
                y,
                width,
                height,
            ),
            _ => self,
        }
    }

    /// The work that one command hands out, if any.
    pub open spec fn asks(self, command: CanvasPathCommand) -> Option<ActionModel> {
        let transform = self.state.transform;
        match command {
            CanvasPathCommand::Fill { color, fill_rule } => Some(
                ActionModel::Fill { path: self.path, transform, color, fill_rule },
            ),
            CanvasPathCommand::FillPath { path, color, fill_rule } => Some(
                ActionModel::Fill { path: path@, transform, color, fill_rule },
            ),
            CanvasPathCommand::Clip { fill_rule } => Some(
                ActionModel::Clip { path: self.path, transform, fill_rule },
            ),
            CanvasPathCommand::ClipPath { path, fill_rule } => Some(
                ActionModel::Clip { path: path@, transform, fill_rule },
            ),
            CanvasPathCommand::Stroke { line_width, color } => Some(
                ActionModel::Stroke { path: self.path, transform, line_width, color },
            ),
            CanvasPathCommand::StrokePath { path, line_width, color } => Some(
                ActionModel::Stroke { path: path@, transform, line_width, color },
            ),
            CanvasPathCommand::DrawImage { image, x, y } => Some(
                ActionModel::DrawImage { image, transform, x, y },
            ),
            _ => None,
        }
    }

    /// The canvas, the remaining commands and the work handed out after running `pending` up to
    /// and including the first command that hands out work.
    pub open spec fn run(self, pending: Seq<CanvasPathCommand>) -> (
        CanvasModel,
        Seq<CanvasPathCommand>,
        Option<ActionModel>,
    )
        decreases pending.len(),
    {
        if pending.len() == 0 {
            (self, pending, None)
        } else if self.asks(pending[0]) is Some {
            (self.after(pending[0]), pending.drop_first(), self.asks(pending[0]))
        } else {
            self.after(pending[0]).run(pending.drop_first())
        }
    }
}

/// The canvas after several commands.
pub open spec fn after_all(canvas: CanvasModel, commands: Seq<CanvasPathCommand>) -> CanvasModel
    decreases commands.len(),
{
    if commands.len() == 0 {
        canvas
    } else {
        after_all(canvas, commands.drop_last()).after(commands.last())
    }
}

proof fn lemma_commands_keep_saved(canvas: CanvasModel, commands: Seq<CanvasPathCommand>)
    requires
        forall|i: int|
            0 <= i < commands.len() ==> !((#[trigger] commands[i]) is Save) && !(commands[i]
                is Restore),
    ensures
        after_all(canvas, commands).saved == canvas.saved,
    decreases commands.len(),
{
    if commands.len() > 0 {
        let rest = commands.drop_last();
        assert forall|i: int| 0 <= i < rest.len() implies !((#[trigger] rest[i]) is Save) && !(
        rest[i] is Restore) by {
            assert(rest[i] == commands[i]);
        }
        lemma_commands_keep_saved(canvas, rest);
        assert(!(commands[commands.len() - 1] is Save));
    }
}

/// Restoring brings back what the last saving kept, whatever came between the two.
pub proof fn lemma_restore_undoes_save(canvas: CanvasModel, between: Seq<CanvasPathCommand>)
    requires
        forall|i: int|
            0 <= i < between.len() ==> !((#[trigger] between[i]) is Save) && !(between[i]
                is Restore),
    ensures
        ({
            let end = after_all(canvas.after(CanvasPathCommand::Save), between).after(
                CanvasPathCommand::Restore,
            );
            end.state == canvas.state && end.saved == canvas.saved
        }),
{
    lemma_commands_keep_saved(canvas.after(CanvasPathCommand::Save), between);
    assert(canvas.saved.push(canvas.state).drop_last() =~= canvas.saved);
}

/// Whether one of the spans holds the pixel at `(x, y)`.
pub open spec fn spans_cover(spans: Seq<CanvasSpan>, x: int, y: int) -> bool {
    exists|k: int|
        0 <= k < spans.len() && (#[trigger] spans[k]).y == y && spans[k].start_x <= x
            < spans[k].end_x
}

pub open spec fn spans_fit(spans: Seq<CanvasSpan>, width: int, height: int) -> bool {
    forall|k: int|
        0 <= k < spans.len() ==> (#[trigger] spans[k]).y < height && spans[k].end_x < width
}

fn covers_pixel(spans: &Vec<CanvasSpan>, x: usize, y: usize) -> (r: bool)
    ensures
        r == spans_cover(spans@, x as int, y as int),
{
    let mut idx: usize = 0;
    while idx < spans.len()
        invariant
            idx <= spans@.len(),
            forall|k: int|
                0 <= k < idx ==> !((#[trigger] spans@[k]).y == y && spans@[k].start_x <= x
                    < spans@[k].end_x),
        decreases spans@.len() - idx,
    {
        let span = spans[idx];
        if span.y == y && span.start_x <= x && x < span.end_x {
            assert(spans@[idx as int].y == y);
            return true;
        }
        idx = idx + 1;
    }
    false
}

/// The span between two edge columns, which are held on the canvas; none where it is empty.
pub open spec fn span_between(y: int, start: usize, end: usize, width: int) -> Seq<CanvasSpan> {
    let start_x = min2(start as int, width - 1);
    let end_x = min2(end as int, width - 1);
    if start_x < end_x {
        seq![CanvasSpan { y: y as usize, start_x: start_x as usize, end_x: end_x as usize }]
    } else {
        Seq::empty()
    }
}

/// The spans between the first and second, the third and fourth edge and so on; an odd edge at
/// the end is left out.
pub open spec fn paired_spans(y: int, edges: Seq<usize>, width: int) -> Seq<CanvasSpan>
    decreases edges.len(),
{
    if edges.len() < 2 {
        Seq::empty()
    } else {
        span_between(y, edges[0], edges[1], width) + paired_spans(y, edges.skip(2), width)
    }
}

/// The spans of one row, from its edge columns in ascending order.
pub open spec fn row_spans(
    y: int,
    edges: Seq<usize>,
    fill_rule: CanvasFillRule,
    width: int,
) -> Seq<CanvasSpan> {
    match fill_rule {
        CanvasFillRule::NonZero => if edges.len() == 0 {
            Seq::empty()
        } else {
            span_between(y, edges.first(), edges.last(), width)
        },
        CanvasFillRule::EvenOdd => paired_spans(y, edges, width),
    }
}

/// The spans of all rows, from top to bottom.
pub open spec fn edge_spans(
    rows: Seq<Vec<usize>>,
    fill_rule: CanvasFillRule,
    width: int,
) -> Seq<CanvasSpan>
    decreases rows.len(),
{
    if rows.len() == 0 || width == 0 {
        Seq::empty()
    } else {
        edge_spans(rows.drop_last(), fill_rule, width) + row_spans(
            rows.len() - 1,
            ascending(rows.last()@),
            fill_rule,
            width,
        )
    }
}

fn push_span(spans: &mut Vec<CanvasSpan>, y: usize, start: usize, end: usize, width: u32)
    requires
        width > 0,
    ensures
        final(spans)@ == old(spans)@ + span_between(y as int, start, end, width as int),
{
    let last: usize = width as usize - 1;
    let start_x: usize = start.min(last);
    let end_x: usize = end.min(last);
    if start_x < end_x {
        spans.push(CanvasSpan { y, start_x, end_x });
        assert(spans@ =~= old(spans)@ + span_between(y as int, start, end, width as int));
    } else {
        assert(spans@ =~= old(spans)@ + span_between(y as int, start, end, width as int));
    }
}

proof fn lemma_row_spans_fit(y: int, edges: Seq<usize>, fill_rule: CanvasFillRule, width: int)
    requires
        0 < width <= u32::MAX,
        0 <= y <= u32::MAX,
    ensures
        forall|k: int|
            0 <= k < row_spans(y, edges, fill_rule, width).len() ==> (#[trigger] row_spans(
                y,
                edges,
                fill_rule,
                width,
            )[k]).y == y && row_spans(y, edges, fill_rule, width)[k].end_x < width,
    decreases edges.len(),
{
    if fill_rule == CanvasFillRule::EvenOdd && edges.len() >= 2 {
        lemma_row_spans_fit(y, edges.skip(2), fill_rule, width);
        let first = span_between(y, edges[0], edges[1], width);
        let rest = row_spans(y, edges.skip(2), fill_rule, width);
        let all = row_spans(y, edges, fill_rule, width);
        assert(all == first + rest);
        assert forall|k: int| 0 <= k < all.len() implies (#[trigger] all[k]).y == y && all[k].end_x
            < width by {
            if k >= first.len() {
                assert(all[k] == rest[k - first.len()]);
            }
        }
    }
}

/// The spans inside a path, from the columns at which its edges cross each row.
pub fn rasterize_edge_spans(
    rows: &Vec<Vec<usize>>,
    fill_rule: CanvasFillRule,
    width: u32,
) -> (spans: Vec<CanvasSpan>)
    requires
        rows@.len() <= u32::MAX,
    ensures
        spans@ == edge_spans(rows@, fill_rule, width as int),
        spans_fit(spans@, width as int, rows@.len() as int),
{
    let mut spans: Vec<CanvasSpan> = Vec::new();
    if width == 0 {
        return spans;
    }
    let mut y: usize = 0;
    while y < rows.len()
        invariant
            y <= rows@.len(),
            rows@.len() <= u32::MAX,
            width > 0,
            spans@ == edge_spans(rows@.take(y as int), fill_rule, width as int),
            spans_fit(spans@, width as int, y as int),
        decreases rows@.len() - y,
    {
        let edges = sort_ascending(&rows[y]);
        let ghost before = spans@;
        let ghost row = row_spans(y as int, edges@, fill_rule, width as int);
        proof {
            assert(rows@.take(y + 1).drop_last() =~= rows@.take(y as int));
            lemma_row_spans_fit(y as int, edges@, fill_rule, width as int);
        }
        match fill_rule {
            CanvasFillRule::NonZero => {
                if edges.len() > 0 {
                    push_span(&mut spans, y, edges[0], edges[edges.len() - 1], width);
                }
            },
            CanvasFillRule::EvenOdd => {
                let mut at: usize = 0;
                assert(edges@.skip(0) =~= edges@);
                while edges.len() - at >= 2
                    invariant
                        at <= edges@.len(),
                        width > 0,
                        row == paired_spans(y as int, edges@, width as int),
                        spans@ + paired_spans(y as int, edges@.skip(at as int), width as int)
                            == before + row,
                    decreases edges@.len() - at,
                {
                    let ghost rest = edges@.skip(at as int);
                    proof {
                        assert(rest.skip(2) =~= edges@.skip(at + 2));
                        assert(rest[0] == edges@[at as int] && rest[1] == edges@[at + 1]);
                    }
                    let ghost spans_before = spans@;
                    push_span(&mut spans, y, edges[at], edges[at + 1], width);
                    assert(spans@ + paired_spans(y as int, edges@.skip(at + 2), width as int)
                        =~= spans_before + paired_spans(y as int, rest, width as int));
                    at = at + 2;
                }
                assert(spans@ + Seq::<CanvasSpan>::empty() =~= spans@);
            },
        }
        proof {
            assert(spans@ =~= before + row);
            assert forall|k: int| 0 <= k < spans@.len() implies (#[trigger] spans@[k]).y < y + 1
                && spans@[k].end_x < width by {
                if k >= before.len() {
                    assert(spans@[k] == row[k - before.len()]);
                } else {
                    assert(spans@[k] == before[k]);
                }
            }
        }
        y = y + 1;
    }
    assert(rows@.take(rows@.len() as int) =~= rows@);
    spans
}

/// `value`, held between 0 and `limit`.
pub open spec fn within(value: int, limit: int) -> int {
    if value < 0 {
        0
    } else if value > limit {
        limit
    } else {
        value
    }
}

/// The signed number that has the same bits.
pub open spec fn as_signed(n: u32) -> int {
    if n <= i32::MAX {
        n as int
    } else {
        n - 0x1_0000_0000
    }
}

fn to_signed(n: u32) -> (r: i32)
    ensures
        r == as_signed(n),
{
    if n <= i32::MAX as u32 {
        n as i32
    } else {
        (n as i64 - 0x1_0000_0000) as i32
    }
}

/// A rectangle outline whose far edges can be placed in `i32` coordinates. A width, height or line
/// width that is no `i32` counts as the negative number with the same bits.
pub open spec fn stroke_rect_in_range(x: i32, y: i32, width: u32, height: u32, line_width: u32) -> bool {
    &&& i32::MIN <= x + as_signed(width) <= i32::MAX
    &&& i32::MIN <= y + as_signed(height) <= i32::MAX
    &&& i32::MIN <= x + as_signed(width) - as_signed(line_width) <= i32::MAX
    &&& i32::MIN <= y + as_signed(height) - as_signed(line_width) <= i32::MAX
}

pub open spec fn command_in_range(command: CanvasPathCommand) -> bool {
    command matches CanvasPathCommand::StrokeRect { x, y, width, height, edge }
        ==> stroke_rect_in_range(x, y, width, height, edge)
}

/// A canvas and the commands that wait to be carried out on it.
pub struct CanvasBuffer {
    pub buffer: Vec<u32>,
    pub width: u32,
    pub height: u32,
    pub commands: Vec<CanvasPathCommand>,
    /// How many of `commands` have been carried out.
    pub done: usize,
    pub current_path: Vec<usize>,
    pub state: CanvasState,
    pub state_stack: Vec<CanvasState>,
    pub dirty: bool,
}

impl CanvasBuffer {
    pub open spec fn model(self) -> CanvasModel {
        CanvasModel {
            pixels: self.buffer@,
            width: self.width,
            height: self.height,
            path: self.current_path@,
            state: self.state@,
            saved: Seq::new(self.state_stack@.len(), |i: int| self.state_stack@[i]@),
        }
    }

    pub open spec fn pending(self) -> Seq<CanvasPathCommand> {
        self.commands@.skip(self.done as int)
    }

    pub open spec fn wf(self) -> bool {
        &&& self.model().wf()
        &&& self.done <= self.commands@.len()
        &&& forall|i: int|
            0 <= i < self.pending().len() ==> command_in_range(#[trigger] self.pending()[i])
    }

    /// Transparent pixels, no path and nothing saved.
    pub open spec fn is_clear(self, width: u32, height: u32) -> bool {
        &&& self.width == width
        &&& self.height == height
        &&& self.model().pixels == Seq::new((width * height) as nat, |i: int| 0u32)
        &&& self.model().path.len() == 0
        &&& self.model().state == (StateModel { transform: Seq::empty(), clip_mask: None })
        &&& self.model().saved.len() == 0
    }

    /// What [`CanvasBuffer::new`] and a resize leave: transparent pixels and nothing else.
    pub open spec fn is_blank(self, width: u32, height: u32) -> bool {
        &&& self.is_clear(width, height)
        &&& self.pending().len() == 0
    }

    /// What queueing a command leaves on a canvas that is to have a size.
    pub open spec fn recorded(self, before: CanvasBuffer, size: Size, command: CanvasPathCommand) -> bool {
        if before.width == size.width && before.height == size.height {
            &&& self.model() == before.model()
            &&& self.pending() == before.pending().push(command)
            &&& self.dirty == before.dirty
        } else {
            &&& self.is_clear(size.width, size.height)
            &&& self.pending() == seq![command]
            &&& self.dirty
        }
    }

    /// A transparent canvas with nothing queued.
    pub fn new(width: u32, height: u32) -> (r: CanvasBuffer)
        requires
            width * height <= usize::MAX,
        ensures
            r.wf(),
            r.is_blank(width, height),
            !r.dirty,
    {
        assert(0 <= width * height) by (nonlinear_arith);
        let r = CanvasBuffer {
            buffer: vec![0u32; width as usize * height as usize],
            width,
            height,
            commands: Vec::new(),
            done: 0,
            current_path: Vec::new(),
            state: CanvasState { transform: Vec::new(), clip_mask: None },
            state_stack: Vec::new(),
            dirty: false,
        };
        assert(r.pending() =~= Seq::empty());
        assert(r.model().pixels =~= Seq::new((width * height) as nat, |i: int| 0u32));
        r
    }

    /// Gives the canvas a new size, which wipes it; a canvas that has the size already is left
    /// alone.
    pub fn resize_if_needed(&mut self, width: u32, height: u32)
        requires
            old(self).wf(),
            width * height <= usize::MAX,
        ensures
            final(self).wf(),
            old(self).width == width && old(self).height == height ==> *final(self) == *old(self),
            old(self).width != width || old(self).height != height ==> final(self).is_blank(
                width,
                height,
            ) && final(self).dirty,
    {
        assert(0 <= width * height) by (nonlinear_arith);
        if self.width == width && self.height == height {
            return;
        }
        *self = CanvasBuffer::new(width, height);
        self.dirty = true;
        assert(self.pending() =~= Seq::empty());
    }

    fn rect_bounds(&self, x: i32, y: i32, width: u32, height: u32) -> (r: (
        usize,
        usize,
        usize,
        usize,
    ))
        ensures
            r.0 == self.model().rect_area(x, y, width, height).start_x,
            r.1 == self.model().rect_area(x, y, width, height).start_y,
            r.2 == self.model().rect_area(x, y, width, height).end_x,
            r.3 == self.model().rect_area(x, y, width, height).end_y,
    {
        let start_x: usize = hold_within(x as i64, self.width);
        let start_y: usize = hold_within(y as i64, self.height);
        let end_x: usize = hold_within(x as i64 + width as i64, self.width);
        let end_y: usize = hold_within(y as i64 + height as i64, self.height);
        (start_x, start_y, end_x, end_y)
    }

    /// Draws a colour on the pixels of an area of the canvas, or erases them.
    fn paint_area(
        &mut self,
        start_x: usize,
        start_y: usize,
        end_x: usize,
        end_y: usize,
        erase: bool,
        source: (u8, u8, u8, u8),
    )
        requires
            old(self).model().wf(),
            start_x < end_x ==> end_x <= old(self).width,
            start_y < end_y ==> end_y <= old(self).height,
        ensures
            final(self).same_but_buffer(*old(self)),
            final(self).model().wf(),
            final(self).buffer@ == painted(
                old(self).buffer@,
                old(self).width as int,
                Area {
                    start_x: start_x as int,
                    start_y: start_y as int,
                    end_x: end_x as int,
                    end_y: end_y as int,
                },
                if erase {
                    old(self).model().erase_paint()
                } else {
                    old(self).model().draw_paint(source)
                },
            ),
    {
        let ghost model = self.model();
        let ghost area = Area {
            start_x: start_x as int,
            start_y: start_y as int,
            end_x: end_x as int,
            end_y: end_y as int,
        };
        let ghost paint = if erase {
            model.erase_paint()
        } else {
            model.draw_paint(source)
        };
        if start_x >= end_x || start_y >= end_y {
            proof {
                lemma_painted_nothing(self.buffer@, self.width as int, area, paint);
            }
            return;
        }
        let stride: usize = self.width as usize;
        let ghost before = self.buffer@;
        let ghost untouched = *self;
        proof {
            lemma_rect_fits(area, self.width as int, self.height as int);
            lemma_painted_start(before, self.width as int, area, paint);
        }
        let mut py: usize = start_y;
        while py < end_y
            invariant
                model == untouched.model(),
                model.wf(),
                self.same_but_buffer(untouched),
                self.buffer@.len() == before.len(),
                before == model.pixels,
                stride == model.width,
                area.start_x == start_x,
                area.start_y == start_y,
                area.end_x == end_x,
                area.end_y == end_y,
                0 <= start_x < end_x <= stride,
                start_y <= py <= end_y,
                area.fits(stride as int, before.len() as int),
                paint == if erase {
                    model.erase_paint()
                } else {
                    model.draw_paint(source)
                },
                self.buffer@ == painted_prefix(
                    before,
                    stride as int,
                    area,
                    paint,
                    py * stride + start_x,
                ),
            decreases end_y - py,
        {
            let mut px: usize = start_x;
            while px < end_x
                invariant
                    model == untouched.model(),
                    model.wf(),
                    self.same_but_buffer(untouched),
                    self.buffer@.len() == before.len(),
                    before == model.pixels,
                    stride == model.width,
                    area.start_x == start_x,
                    area.start_y == start_y,
                    area.end_x == end_x,
                    area.end_y == end_y,
                    0 <= start_x <= px <= end_x <= stride,
                    start_y <= py < end_y,
                    area.fits(stride as int, before.len() as int),
                    paint == if erase {
                        model.erase_paint()
                    } else {
                        model.draw_paint(source)
                    },
                    self.buffer@ == painted_prefix(
                        before,
                        stride as int,
                        area,
                        paint,
                        py * stride + px,
                    ),
                decreases end_x - px,
            {
                proof {
                    lemma_pixel_in_bounds(
                        area,
                        stride as int,
                        before.len() as int,
                        px as int,
                        py as int,
                    );
                    lemma_painted_step(before, stride as int, area, paint, px as int, py as int);
                }
                let len: usize = self.buffer.len();
                let pixel_idx: usize = py * stride + px;
                let mask = match &self.state.clip_mask {
                    Some(mask) => Some(mask.as_slice()),
                    None => None,
                };
                if erase {
                    clear_canvas_pixel(self.buffer.as_mut_slice(), mask, pixel_idx, u8::MAX);
                } else {
                    blend_canvas_pixel(
                        self.buffer.as_mut_slice(),
                        mask,
                        pixel_idx,
                        source,
                        u8::MAX,
                    );
                }
                px = px + 1;
            }
            proof {
                lemma_painted_skip_row_end(before, stride as int, area, paint, py as int);
            }
            py = py + 1;
        }
        proof {
            lemma_painted_end(before, stride as int, area, paint);
            assert(self.model().saved =~= model.saved);
        }
    }

    /// Draws a filled rectangle, as far as it lies on the canvas and the clip mask lets it.
    pub fn fill_rect(&mut self, x: i32, y: i32, width: u32, height: u32, color: u32)
        requires
            old(self).model().wf(),
        ensures
            final(self).model() == old(self).model().rect_drawn(x, y, width, height, color),
            final(self).model().wf(),
            final(self).same_but_buffer(*old(self)),
    {
        let (start_x, start_y, end_x, end_y) = self.rect_bounds(x, y, width, height);
        let source = rgba_to_premul_tuple(color);
        self.paint_area(start_x, start_y, end_x, end_y, false, source);
        assert(self.model() == old(self).model().rect_drawn(x, y, width, height, color));
    }

    /// Erases a rectangle, as far as it lies on the canvas and the clip mask lets it.
    pub fn clear_rect(&mut self, x: i32, y: i32, width: u32, height: u32)
        requires
            old(self).model().wf(),
        ensures
            final(self).model() == old(self).model().rect_erased(x, y, width, height),
            final(self).model().wf(),
            final(self).same_but_buffer(*old(self)),
    {
        let (start_x, start_y, end_x, end_y) = self.rect_bounds(x, y, width, height);
        self.paint_area(start_x, start_y, end_x, end_y, true, (0, 0, 0, 0));
        assert(self.model() == old(self).model().rect_erased(x, y, width, height));
    }

    /// Draws the outline of a rectangle: its left, top, right and bottom edge, in this order.
    pub fn stroke_rect(&mut self, x: i32, y: i32, width: u32, height: u32, line_width: u32)
        requires
            old(self).model().wf(),
            stroke_rect_in_range(x, y, width, height, line_width),
        ensures
            final(self).model() == old(self).model().rect_stroked(x, y, width, height, line_width),
            final(self).model().wf(),
            final(self).same_but_buffer(*old(self)),
    {
        let edge: i32 = to_signed(line_width);
        let right: i32 = x + to_signed(width) - edge;
        let bottom: i32 = y + to_signed(height) - edge;
        self.fill_rect(x, y, line_width, height, RECT_COLOR);
        self.fill_rect(x, y, width, line_width, RECT_COLOR);
        self.fill_rect(right, y, line_width, height, RECT_COLOR);
        self.fill_rect(x, bottom, width, line_width, RECT_COLOR);
    }

    /// Draws a colour on the pixel at `(x, y)`; a pixel outside the canvas is passed over.
    pub fn blend_pixel(&mut self, x: i32, y: i32, source: (u8, u8, u8, u8), coverage: u8)
        requires
            old(self).model().wf(),
        ensures
            final(self).model() == old(self).model().pixel_drawn(x, y, source, coverage),
            final(self).model().wf(),
            final(self).same_but_buffer(*old(self)),
    {
        if x < 0 || y < 0 || x as u32 >= self.width || y as u32 >= self.height {
            return;
        }
        let ghost area = Area {
            start_x: x as int,
            start_y: y as int,
            end_x: x + 1,
            end_y: y + 1,
        };
        proof {
            lemma_rect_fits(area, self.width as int, self.height as int);
            lemma_pixel_in_bounds(
                area,
                self.width as int,
                self.buffer@.len() as int,
                x as int,
                y as int,
            );
        }
        let len: usize = self.buffer.len();
        let pixel_idx: usize = y as usize * self.width as usize + x as usize;
        let mask = match &self.state.clip_mask {
            Some(mask) => Some(mask.as_slice()),
            None => None,
        };
        blend_canvas_pixel(self.buffer.as_mut_slice(), mask, pixel_idx, source, coverage);
    }

    /// Draws a colour on each of the points of a stroke, in order. A point that occurs twice is
    /// drawn twice.
    pub fn draw_stroke(&mut self, points: &Vec<(i32, i32)>, color: u32)
        requires
            old(self).model().wf(),
        ensures
            final(self).model() == old(self).model().points_drawn(points@, premultiplied(color)),
            final(self).model().wf(),
            final(self).same_but_buffer(*old(self)),
    {
        let source = rgba_to_premul_tuple(color);
        let mut idx: usize = 0;
        while idx < points.len()
            invariant
                idx <= points@.len(),
                source == premultiplied(color),
                self.model().wf(),
                self.same_but_buffer(*old(self)),
                self.model() == old(self).model().points_drawn(points@.take(idx as int), source),
            decreases points@.len() - idx,
        {
            proof {
                assert(points@.take(idx + 1).drop_last() =~= points@.take(idx as int));
            }
            let (x, y) = points[idx];
            self.blend_pixel(x, y, source, u8::MAX);
            idx = idx + 1;
        }
        assert(points@.take(points@.len() as int) =~= points@);
    }

    /// Draws the samples of an image: each entry is a canvas point and the premultiplied colour
    /// that lands on it.
    pub fn draw_samples(&mut self, samples: &Vec<(i32, i32, (u8, u8, u8, u8))>)
        requires
            old(self).model().wf(),
        ensures
            final(self).model() == old(self).model().samples_drawn(samples@),
            final(self).model().wf(),
            final(self).same_but_buffer(*old(self)),
    {
        let mut idx: usize = 0;
        while idx < samples.len()
            invariant
                idx <= samples@.len(),
                self.model().wf(),
                self.same_but_buffer(*old(self)),
                self.model() == old(self).model().samples_drawn(samples@.take(idx as int)),
            decreases samples@.len() - idx,
        {
            proof {
                assert(samples@.take(idx + 1).drop_last() =~= samples@.take(idx as int));
            }
            let (x, y, source) = samples[idx];
            self.blend_pixel(x, y, source, u8::MAX);
            idx = idx + 1;
        }
        assert(samples@.take(samples@.len() as int) =~= samples@);
    }

    /// Fills the inside of a path, which is given by the columns at which its edges cross each
    /// row of the canvas.
    pub fn fill_edges(&mut self, rows: &Vec<Vec<usize>>, color: u32, fill_rule: CanvasFillRule)
        requires
            old(self).model().wf(),
            rows@.len() == old(self).height,
        ensures
            final(self).model() == old(self).model().spans_drawn(
                edge_spans(rows@, fill_rule, old(self).width as int),
                premultiplied(color),
            ),
            final(self).model().wf(),
            final(self).same_but_buffer(*old(self)),
    {
        let spans = rasterize_edge_spans(rows, fill_rule, self.width);
        let source = rgba_to_premul_tuple(color);
        let mut idx: usize = 0;
        while idx < spans.len()
            invariant
                idx <= spans@.len(),
                source == premultiplied(color),
                self.model().wf(),
                self.same_but_buffer(*old(self)),
                spans_fit(spans@, self.width as int, self.height as int),
                self.model() == old(self).model().spans_drawn(spans@.take(idx as int), source),
            decreases spans@.len() - idx,
        {
            proof {
                assert(spans@.take(idx + 1).drop_last() =~= spans@.take(idx as int));
            }
            let span = spans[idx];
            let ghost before = self.model();
            self.paint_area(span.start_x, span.y, span.end_x, span.y + 1, false, source);
            assert(self.model() == before.span_drawn(span, source));
            idx = idx + 1;
        }
        assert(spans@.take(spans@.len() as int) =~= spans@);
    }

    /// Limits drawing to the inside of a path, on top of the limits there are already.
    pub fn clip_edges(&mut self, rows: &Vec<Vec<usize>>, fill_rule: CanvasFillRule)
        requires
            old(self).model().wf(),
            rows@.len() == old(self).height,
        ensures
            final(self).model() == old(self).model().clipped_to(
                edge_spans(rows@, fill_rule, old(self).width as int),
            ),
            final(self).model().wf(),
            final(self).commands == old(self).commands,
            final(self).done == old(self).done,
            final(self).dirty == old(self).dirty,
    {
        let spans = rasterize_edge_spans(rows, fill_rule, self.width);
        let len: usize = self.buffer.len();
        let ghost width = self.width as int;
        let ghost model = self.model();
        let mut mask: Vec<u8> = Vec::new();
        let stride: usize = self.width as usize;
        let mut pixel_idx: usize = 0;
        while pixel_idx < len
            invariant
                pixel_idx <= len,
                len == model.pixels.len(),
                model == self.model(),
                *self == *old(self),
                model.wf(),
                width == model.width,
                stride == model.width,
                mask@.len() == pixel_idx,
                forall|i: int|
                    0 <= i < pixel_idx ==> #[trigger] mask@[i] == model.clip_coverage(spans@, i),
            decreases len - pixel_idx,
        {
            proof {
                assert(stride > 0) by (nonlinear_arith)
                    requires
                        pixel_idx < stride * model.height,
                        0 <= pixel_idx,
                ;
            }
            let inside = covers_pixel(&spans, pixel_idx % stride, pixel_idx / stride);
            let mut coverage: u8 = if inside {
                u8::MAX
            } else {
                0
            };
            match &self.state.clip_mask {
                Some(current) => {
                    coverage = multiply_coverage(coverage, current[pixel_idx]);
                },
                None => {},
            }
            mask.push(coverage);
            pixel_idx = pixel_idx + 1;
        }
        self.state.clip_mask = Some(Rc::new(mask));
        proof {
            assert(mask@ =~= Seq::new(model.pixels.len(), |i: int| model.clip_coverage(spans@, i)));
            assert(self.model() == model.clipped_to(spans@));
        }
    }

    /// Carries out one command; the work that it hands out, if any, is returned.
    fn execute(&mut self, command: &CanvasPathCommand) -> (r: Option<CanvasAction>)
        requires
            old(self).model().wf(),
            command_in_range(*command),
        ensures
            final(self).model() == old(self).model().after(*command),
            final(self).model().wf(),
            action_view(r) == old(self).model().asks(*command),
            final(self).commands == old(self).commands,
            final(self).done == old(self).done,
            final(self).dirty == old(self).dirty,
    {
        let ghost model = self.model();
        let transform = self.state.transform.clone();
        let path = self.current_path.clone();
        assert(transform@ =~= model.state.transform);
        assert(path@ =~= model.path);
        match command {
            CanvasPathCommand::Transform { matrix } => {
                self.state.transform.push(*matrix);
                None
            },
            CanvasPathCommand::ResetTransform => {
                self.state.transform.clear();
                None
            },
            CanvasPathCommand::Save => {
                let mask = match &self.state.clip_mask {
                    Some(mask) => Some(Rc::clone(mask)),
                    None => None,
                };
                self.state_stack.push(CanvasState { transform, clip_mask: mask });
                assert(self.model().saved =~= model.saved.push(model.state));
                None
            },
            CanvasPathCommand::Restore => {
                match self.state_stack.pop() {
                    Some(saved) => {
                        proof {
                            assert(model.saved.last() == saved@);
                        }
                        self.state = saved;
                        assert(self.model().saved =~= model.saved.drop_last());
                    },
                    None => {},
                }
                None
            },
            CanvasPathCommand::BeginPath => {
                self.current_path.clear();
                None
            },
            CanvasPathCommand::PathElement { element } => {
                self.current_path.push(*element);
                None
            },
            CanvasPathCommand::FillRect { x, y, width, height } => {
                self.fill_rect(*x, *y, *width, *height, RECT_COLOR);
                None
            },
            CanvasPathCommand::StrokeRect { x, y, width, height, edge } => {
                self.stroke_rect(*x, *y, *width, *height, *edge);
                None
            },
            CanvasPathCommand::ClearRect { x, y, width, height } => {
                self.clear_rect(*x, *y, *width, *height);
                None
            },
            CanvasPathCommand::Fill { color, fill_rule } => Some(
                CanvasAction::Fill { path, transform, color: *color, fill_rule: *fill_rule },
            ),
            CanvasPathCommand::FillPath { path, color, fill_rule } => {
                let own = path.clone();
                assert(own@ =~= path@);
                Some(
                    CanvasAction::Fill {
                        path: own,
                        transform,
                        color: *color,
                        fill_rule: *fill_rule,
                    },
                )
            },
            CanvasPathCommand::Clip { fill_rule } => Some(
                CanvasAction::Clip { path, transform, fill_rule: *fill_rule },
            ),
            CanvasPathCommand::ClipPath { path, fill_rule } => {
                let own = path.clone();
                assert(own@ =~= path@);
                Some(CanvasAction::Clip { path: own, transform, fill_rule: *fill_rule })
            },
            CanvasPathCommand::Stroke { line_width, color } => Some(
                CanvasAction::Stroke { path, transform, line_width: *line_width, color: *color },
            ),
            CanvasPathCommand::StrokePath { path, line_width, color } => {
                let own = path.clone();
                assert(own@ =~= path@);
                Some(
                    CanvasAction::Stroke {
                        path: own,
                        transform,
                        line_width: *line_width,
                        color: *color,
                    },
                )
            },
            CanvasPathCommand::DrawImage { image, x, y } => Some(
                CanvasAction::DrawImage { image: *image, transform, x: *x, y: *y },
            ),
        }
    }

    /// Carries out the waiting commands up to and including the first one that hands out work.
    /// Nothing is returned once no command waits any more.
    pub fn update_buffer(&mut self) -> (r: Option<CanvasAction>)
        requires
            old(self).wf(),
        ensures
            final(self).wf(),
            final(self).dirty == old(self).dirty,
            final(self).model() == old(self).model().run(old(self).pending()).0,
            final(self).pending() == old(self).model().run(old(self).pending()).1,
            action_view(r) == old(self).model().run(old(self).pending()).2,
            r is None ==> final(self).pending().len() == 0,
    {
        let ghost whole = self.model().run(self.pending());
        while self.done < self.commands.len()
            invariant
                self.wf(),
                self.dirty == old(self).dirty,
                whole == old(self).model().run(old(self).pending()),
                self.model().run(self.pending()) == whole,
            decreases self.commands@.len() - self.done,
        {
            let mut commands: Vec<CanvasPathCommand> = Vec::new();
            let ghost before = *self;
            std::mem::swap(&mut commands, &mut self.commands);
            let at: usize = self.done;
            assert(before.pending()[0] == commands@[at as int]);
            assert(command_in_range(before.pending()[0]));
            let action = self.execute(&commands[at]);
            self.done = at + 1;
            self.commands = commands;
            proof {
                assert(self.pending() =~= before.pending().drop_first());
                assert forall|i: int| 0 <= i < self.pending().len() implies command_in_range(
                    #[trigger] self.pending()[i],
                ) by {
                    assert(self.pending()[i] == before.pending()[i + 1]);
                }
            }
            if action.is_some() {
                return action;
            }
        }
        assert(self.pending() =~= Seq::empty());
        None
    }

    /// Carries out the waiting commands, as [`CanvasBuffer::update_buffer`] does, where something
    /// has changed since the last time.
    pub fn update_if_needed(&mut self) -> (r: Option<CanvasAction>)
        requires
            old(self).wf(),
        ensures
            final(self).wf(),
            !old(self).dirty ==> r is None && *final(self) == *old(self),
            old(self).dirty ==> {
                &&& final(self).model() == old(self).model().run(old(self).pending()).0
                &&& final(self).pending() == old(self).model().run(old(self).pending()).1
                &&& action_view(r) == old(self).model().run(old(self).pending()).2
                &&& final(self).dirty == (r is Some)
            },
    {
        if !self.dirty {
            return None;
        }
        let action = self.update_buffer();
        if action.is_none() {
            self.dirty = false;
        }
        action
    }

    /// Queues a command.
    pub fn record(&mut self, command: CanvasPathCommand)
        requires
            old(self).wf(),
            command_in_range(command),
        ensures
            final(self).wf(),
            final(self).model() == old(self).model(),
            final(self).pending() == old(self).pending().push(command),
            final(self).dirty == old(self).dirty,
    {
        self.commands.push(command);
        proof {
            assert(self.pending() =~= old(self).pending().push(command));
            assert forall|i: int| 0 <= i < self.pending().len() implies command_in_range(
                #[trigger] self.pending()[i],
            ) by {
                if i < old(self).pending().len() {
                    assert(self.pending()[i] == old(self).pending()[i]);
                }
            }
        }
    }

    /// The images that waiting commands draw, each once, in the order in which they are first drawn.
    pub fn get_pending_images(&self) -> (r: Vec<usize>)
        requires
            self.wf(),
        ensures
            r@ == images_drawn(self.pending(), self.pending().len()),
    {
        let ghost pending = self.pending();
        let mut images: Vec<usize> = Vec::new();
        let mut at: usize = self.done;
        assert(images@ =~= images_drawn(pending, 0));
        while at < self.commands.len()
            invariant
                self.done <= at <= self.commands@.len(),
                pending == self.pending(),
                pending.len() == self.commands@.len() - self.done,
                images@ == images_drawn(pending, (at - self.done) as nat),
            decreases self.commands@.len() - at,
        {
            assert(pending[at - self.done] == self.commands@[at as int]);
            match &self.commands[at] {
                CanvasPathCommand::DrawImage { image, .. } => {
                    if !contains_number(&images, *image) {
                        images.push(*image);
                    }
                },
                _ => {},
            }
            at = at + 1;
        }
        images
    }

    pub open spec fn same_but_buffer(self, other: CanvasBuffer) -> bool {
        self == (CanvasBuffer { buffer: self.buffer, ..other })
    }
}

/// The size of the drawing of a node, where it has one.
pub open spec fn drawing_size(nodes: NodesModel, node_idx: usize) -> Option<Size> {
    match node_at(nodes, node_idx) {
        Some(node) => canvas_size(node),
        None => None,
    }
}

/// Queues a command for the canvas of a node, which first gets the size that the node gives it.
/// Says whether the node has a canvas.
pub fn record_command(
    nodes: &NodesTable,
    node_idx: usize,
    canvas: &mut CanvasBuffer,
    command: CanvasPathCommand,
) -> (r: bool)
    requires
        old(canvas).wf(),
        command_in_range(command),
        drawing_size(nodes@, node_idx) matches Some(size) ==> size.width * size.height
            <= usize::MAX,
    ensures
        final(canvas).wf(),
        r == (drawing_size(nodes@, node_idx) is Some),
        match drawing_size(nodes@, node_idx) {
            Some(size) => final(canvas).recorded(*old(canvas), size, command),
            None => *final(canvas) == *old(canvas),
        },
{
    let size: Size = match nodes.get(node_idx) {
        Some(node) => match get_canvas_wh(node) {
            Some(size) => size,
            None => {
                return false;
            },
        },
        None => {
            return false;
        },
    };
    canvas.resize_if_needed(size.width, size.height);
    let ghost ready = *canvas;
    canvas.record(command);
    assert(ready.pending().len() == 0 ==> canvas.pending() =~= seq![command]);
    true
}

/// Queues an image for the canvas of a node. `image` stands for the picture of the node
/// `image_node_idx` in the size in which it is drawn; the width and the height of that must be given
/// both or not at all. Says whether the image will be drawn.
pub fn draw_image(
    nodes: &NodesTable,
    node_idx: usize,
    canvas: &mut CanvasBuffer,
    image_node_idx: usize,
    image: usize,
    place: (i32, i32),
    wanted: (Option<u32>, Option<u32>),
) -> (r: bool)
    requires
        old(canvas).wf(),
        drawing_size(nodes@, node_idx) matches Some(size) ==> size.width * size.height
            <= usize::MAX,
    ensures
        final(canvas).wf(),
        r == (drawing_size(nodes@, node_idx) is Some && node_at(nodes@, image_node_idx) is Some
            && (wanted.0 is Some <==> wanted.1 is Some)),
        r ==> final(canvas).recorded(
            *old(canvas),
            drawing_size(nodes@, node_idx)->0,
            (CanvasPathCommand::DrawImage { image, x: place.0, y: place.1 }),
        ),
        !r ==> *final(canvas) == *old(canvas),
{
    if wanted.0.is_some() != wanted.1.is_some() {
        return false;
    }
    if nodes.get(image_node_idx).is_none() {
        return false;
    }
    record_command(
        nodes,
        node_idx,
        canvas,
        CanvasPathCommand::DrawImage { image, x: place.0, y: place.1 },
    )
}

/// The images that the first commands draw, each once, in the order in which they are first drawn.
pub open spec fn images_drawn(commands: Seq<CanvasPathCommand>, count: nat) -> Seq<usize>
    decreases count,
{
    if count == 0 {
        Seq::empty()
    } else {
        let before = images_drawn(commands, (count - 1) as nat);
        match commands[count - 1] {
            CanvasPathCommand::DrawImage { image, .. } if !before.contains(image) => before.push(
                image,
            ),
            _ => before,
        }
    }
}

fn contains_number(list: &Vec<usize>, number: usize) -> (r: bool)
    ensures
        r == list@.contains(number),
{
    let mut at: usize = 0;
    while at < list.len()
        invariant
            at <= list@.len(),
            forall|i: int| 0 <= i < at ==> list@[i] != number,
        decreases list@.len() - at,
    {
        if list[at] == number {
            return true;
        }
        at = at + 1;
    }
    false
}

fn hold_within(value: i64, limit: u32) -> (r: usize)
    ensures
        r == within(value as int, limit as int),
{
    if value < 0 {
        0
    } else if value > limit as i64 {
        limit as usize
    } else {
        value as usize
    }
}

proof fn lemma_rect_fits(area: Area, width: int, height: int)
    requires
        0 <= area.start_x < area.end_x <= width,
        0 <= area.start_y < area.end_y <= height,
    ensures
        area.fits(width, width * height),
{
    assert((area.end_y - 1) * width + area.end_x <= width * height) by (nonlinear_arith)
        requires
            area.end_y <= height,
            area.end_x <= width,
            0 <= width,
    ;
}

} // verus!
