//! Clipped drawing of rectangles and images on row-major pixel buffers.
use vstd::arithmetic::div_mod::lemma_fundamental_div_mod_converse;
use vstd::prelude::*;

use crate::pixel::blend_rgb_with_rgba;
use crate::pixel::blend_rgba_with_rgba;
use crate::pixel::rgba_to_premul_tuple;

verus! {

/// A half-open rectangle of pixel coordinates.
pub struct Area {
    pub start_x: int,
    pub start_y: int,
    pub end_x: int,
    pub end_y: int,
}

impl Area {
    pub open spec fn contains(self, x: int, y: int) -> bool {
        self.start_x <= x < self.end_x && self.start_y <= y < self.end_y
    }

    pub open spec fn is_empty(self) -> bool {
        self.start_x >= self.end_x || self.start_y >= self.end_y
    }

    /// Whether every pixel of the area lies in a buffer of `len` pixels with rows of `width`.
    pub open spec fn fits(self, width: int, len: int) -> bool {
        !self.is_empty() ==> {
            &&& 0 <= self.start_x
            &&& 0 <= self.start_y
            &&& self.end_x <= width
            &&& (self.end_y - 1) * width + self.end_x <= len
        }
    }
}

/// Whether the pixel at index `i` of a buffer with rows of `width` lies in `area`.
pub open spec fn index_in(area: Area, width: int, i: int) -> bool {
    area.contains(i % width, i / width)
}

/// `before` with `paint(x, y, pixel)` applied to the pixels of `area` among the first `count`.
pub open spec fn painted_prefix(
    before: Seq<u32>,
    width: int,
    area: Area,
    paint: spec_fn(int, int, u32) -> u32,
    count: int,
) -> Seq<u32> {
    Seq::new(
        before.len(),
        |i: int|
            if i < count && index_in(area, width, i) {
                paint(i % width, i / width, before[i])
            } else {
                before[i]
            },
    )
}

/// `before` with `paint(x, y, pixel)` applied to every pixel of `area` and nothing else changed.
pub open spec fn painted(
    before: Seq<u32>,
    width: int,
    area: Area,
    paint: spec_fn(int, int, u32) -> u32,
) -> Seq<u32> {
    painted_prefix(before, width, area, paint, before.len() as int)
}

pub(crate) proof fn lemma_painted_step(
    before: Seq<u32>,
    width: int,
    area: Area,
    paint: spec_fn(int, int, u32) -> u32,
    x: int,
    y: int,
)
    requires
        0 <= x < width,
        area.contains(x, y),
        0 <= y * width + x < before.len(),
    ensures
        painted_prefix(before, width, area, paint, y * width + x)[y * width + x] == before[y * width
            + x],
        painted_prefix(before, width, area, paint, y * width + x + 1) =~= painted_prefix(
            before,
            width,
            area,
            paint,
            y * width + x,
        ).update(y * width + x, paint(x, y, before[y * width + x])),
{
    lemma_fundamental_div_mod_converse(y * width + x, width, y, x);
}

pub(crate) proof fn lemma_painted_skip_row_end(
    before: Seq<u32>,
    width: int,
    area: Area,
    paint: spec_fn(int, int, u32) -> u32,
    y: int,
)
    requires
        0 <= area.start_x < area.end_x <= width,
        0 <= y,
    ensures
        painted_prefix(before, width, area, paint, y * width + area.end_x) =~= painted_prefix(
            before,
            width,
            area,
            paint,
            (y + 1) * width + area.start_x,
        ),
{
    assert((y + 1) * width == y * width + width) by (nonlinear_arith);
    assert forall|i: int|
        y * width + area.end_x <= i < (y + 1) * width + area.start_x implies !index_in(
        area,
        width,
        i,
    ) by {
        if i < (y + 1) * width {
            lemma_fundamental_div_mod_converse(i, width, y, i - y * width);
        } else {
            lemma_fundamental_div_mod_converse(i, width, y + 1, i - (y + 1) * width);
        }
    }
}

pub(crate) proof fn lemma_painted_start(
    before: Seq<u32>,
    width: int,
    area: Area,
    paint: spec_fn(int, int, u32) -> u32,
)
    requires
        0 <= area.start_x < width,
        0 <= area.start_y,
    ensures
        painted_prefix(before, width, area, paint, area.start_y * width + area.start_x) =~= before,
{
    assert forall|i: int|
        0 <= i < area.start_y * width + area.start_x implies !index_in(
        area,
        width,
        i,
    ) by {
        if i < area.start_y * width {
            assert(i / width < area.start_y) by (nonlinear_arith)
                requires
                    0 <= i < area.start_y * width,
                    width > 0,
            ;
        } else {
            lemma_fundamental_div_mod_converse(
                i,
                width,
                area.start_y,
                i - area.start_y * width,
            );
        }
    }
}

pub(crate) proof fn lemma_painted_end(
    before: Seq<u32>,
    width: int,
    area: Area,
    paint: spec_fn(int, int, u32) -> u32,
)
    requires
        0 < width,
        0 <= area.start_x,
    ensures
        painted_prefix(before, width, area, paint, area.end_y * width + area.start_x) =~= painted(
            before,
            width,
            area,
            paint,
        ),
{
    assert forall|i: int| area.end_y * width <= i implies !index_in(area, width, i) by {
        assert(i / width >= area.end_y) by (nonlinear_arith)
            requires
                area.end_y * width <= i,
                width > 0,
        ;
    }
}

pub(crate) proof fn lemma_painted_nothing(
    before: Seq<u32>,
    width: int,
    area: Area,
    paint: spec_fn(int, int, u32) -> u32,
)
    requires
        area.is_empty(),
    ensures
        painted(before, width, area, paint) =~= before,
{
}

pub(crate) proof fn lemma_pixel_in_bounds(area: Area, width: int, len: int, x: int, y: int)
    requires
        area.fits(width, len),
        area.contains(x, y),
    ensures
        0 <= y * width,
        y * width + x < len,
        y * width + width == (y + 1) * width,
{
    assert(0 <= y * width) by (nonlinear_arith)
        requires
            0 <= y,
            0 <= width,
    ;
    assert(y * width <= (area.end_y - 1) * width) by (nonlinear_arith)
        requires
            y <= area.end_y - 1,
            0 <= width,
    ;
    assert((y + 1) * width == y * width + width) by (nonlinear_arith);
}

/// The part of the window that painting may touch.
#[derive(Debug, Clone, Copy)]
pub struct PaintClip {
    pub start_x: i32,
    pub start_y: i32,
    pub end_x: i32,
    pub end_y: i32,
}

pub open spec fn min2(a: int, b: int) -> int {
    if a <= b {
        a
    } else {
        b
    }
}

pub open spec fn max2(a: int, b: int) -> int {
    if a >= b {
        a
    } else {
        b
    }
}

/// The common pixels of a `w` by `h` rectangle at `(x, y)`, a `width` by `height` buffer and the
/// clip.
pub open spec fn clipped_area(
    width: u32,
    height: u32,
    x: i32,
    y: i32,
    w: u32,
    h: u32,
    clip: PaintClip,
) -> Area {
    Area {
        start_x: max2(max2(x as int, 0), clip.start_x as int),
        start_y: max2(max2(y as int, 0), clip.start_y as int),
        end_x: min2(min2(x + w, width as int), clip.end_x as int),
        end_y: min2(min2(y + h, height as int), clip.end_y as int),
    }
}

/// `value`, or the largest `i32` where it does not fit.
pub fn saturating_i32(value: u32) -> (r: i32)
    ensures
        r == min2(value as int, i32::MAX as int),
{
    if value <= i32::MAX as u32 {
        value as i32
    } else {
        i32::MAX
    }
}

/// `base + offset`, or the largest `i32` where that does not fit.
pub fn saturating_add_unsigned(base: i32, offset: u32) -> (r: i32)
    ensures
        r == min2(base + offset, i32::MAX as int),
{
    let sum: i64 = base as i64 + offset as i64;
    if sum <= i32::MAX as i64 {
        sum as i32
    } else {
        i32::MAX
    }
}

/// `base - offset`, held inside the `i32` range.
pub fn saturating_sub(base: i32, offset: i32) -> (r: i32)
    ensures
        r == max2(min2(base - offset, i32::MAX as int), i32::MIN as int),
{
    let difference: i64 = base as i64 - offset as i64;
    if difference > i32::MAX as i64 {
        i32::MAX
    } else if difference < i32::MIN as i64 {
        i32::MIN
    } else {
        difference as i32
    }
}

impl PaintClip {
    /// The whole of a `width` by `height` window.
    pub fn viewport(width: u32, height: u32) -> (r: PaintClip)
        ensures
            r.start_x == 0,
            r.start_y == 0,
            r.end_x == min2(width as int, i32::MAX as int),
            r.end_y == min2(height as int, i32::MAX as int),
    {
        PaintClip {
            start_x: 0,
            start_y: 0,
            end_x: saturating_i32(width),
            end_y: saturating_i32(height),
        }
    }

    pub open spec fn narrowed_x(self, start_x: i32, end_x: i32) -> PaintClip {
        PaintClip {
            start_x: max2(self.start_x as int, start_x as int) as i32,
            end_x: min2(self.end_x as int, end_x as int) as i32,
            ..self
        }
    }

    pub open spec fn narrowed_y(self, start_y: i32, end_y: i32) -> PaintClip {
        PaintClip {
            start_y: max2(self.start_y as int, start_y as int) as i32,
            end_y: min2(self.end_y as int, end_y as int) as i32,
            ..self
        }
    }

    /// Whether the clip lets nothing through.
    pub open spec fn lets_nothing(self) -> bool {
        self.start_x >= self.end_x || self.start_y >= self.end_y
    }

    /// Whether the clip lets the pixel at `(x, y)` through.
    pub open spec fn allows(self, x: int, y: int) -> bool {
        self.start_x <= x < self.end_x && self.start_y <= y < self.end_y
    }

    /// Keeps the columns from `start_x` up to `end_x`.
    pub fn intersect_x(self, start_x: i32, end_x: i32) -> (r: PaintClip)
        ensures
            r == self.narrowed_x(start_x, end_x),
    {
        PaintClip { start_x: self.start_x.max(start_x), end_x: self.end_x.min(end_x), ..self }
    }

    /// Keeps the rows from `start_y` up to `end_y`.
    pub fn intersect_y(self, start_y: i32, end_y: i32) -> (r: PaintClip)
        ensures
            r == self.narrowed_y(start_y, end_y),
    {
        PaintClip { start_y: self.start_y.max(start_y), end_y: self.end_y.min(end_y), ..self }
    }

    pub fn is_empty(self) -> (r: bool)
        ensures
            r == self.lets_nothing(),
    {
        self.start_x >= self.end_x || self.start_y >= self.end_y
    }
}

/// Narrowing a clip lets exactly the pixels through that the clip and the new bounds share; in
/// particular it never widens the clip.
pub proof fn lemma_narrowing_intersects(
    clip: PaintClip,
    start_x: i32,
    end_x: i32,
    start_y: i32,
    end_y: i32,
    x: int,
    y: int,
)
    ensures
        clip.narrowed_x(start_x, end_x).allows(x, y) <==> clip.allows(x, y) && start_x <= x < end_x,
        clip.narrowed_y(start_y, end_y).allows(x, y) <==> clip.allows(x, y) && start_y <= y < end_y,
{
}

/// Rounded corners of a rectangle, in pixels.
#[derive(Debug, Clone, Copy, PartialEq, Eq, Structural)]
pub struct BorderRadius {
    pub top_left: u32,
    pub top_right: u32,
    pub bottom_right: u32,
    pub bottom_left: u32,
}

impl BorderRadius {
    pub open spec fn is_square(self) -> bool {
        self.top_left == 0 && self.top_right == 0 && self.bottom_right == 0 && self.bottom_left
            == 0
    }

    pub fn new_empty() -> (r: BorderRadius)
        ensures
            r.is_square(),
    {
        BorderRadius { top_left: 0, top_right: 0, bottom_right: 0, bottom_left: 0 }
    }
}

/// A corner's radius can be no more than half of either side.
pub open spec fn effective_radius(radius: u32, w: u32, h: u32) -> int {
    min2(min2(radius as int, (w / 2) as int), (h / 2) as int)
}

/// Whether a point at distance `(dx, dy)` from a corner's centre lies outside its circle.
pub open spec fn outside_circle(dx: int, dy: int, radius: int) -> bool {
    dx * dx + dy * dy > radius * radius
}

/// Whether the pixel at `(column, row)` of a `w` by `h` rectangle survives its rounded corners.
pub open spec fn inside_corners(
    column: int,
    row: int,
    w: u32,
    h: u32,
    corners: BorderRadius,
) -> bool {
    let top_left = effective_radius(corners.top_left, w, h);
    let top_right = effective_radius(corners.top_right, w, h);
    let bottom_left = effective_radius(corners.bottom_left, w, h);
    let bottom_right = effective_radius(corners.bottom_right, w, h);
    &&& !(column < top_left && row < top_left && outside_circle(
        top_left - column,
        top_left - row,
        top_left,
    ))
    &&& !(column >= w - top_right && row < top_right && outside_circle(
        column - (w - top_right),
        top_right - row,
        top_right,
    ))
    &&& !(column < bottom_left && row >= h - bottom_left && outside_circle(
        bottom_left - column,
        row - (h - bottom_left),
        bottom_left,
    ))
    &&& !(column >= w - bottom_right && row >= h - bottom_right && outside_circle(
        column - (w - bottom_right),
        row - (h - bottom_right),
        bottom_right,
    ))
}

fn is_outside_circle(dx: u32, dy: u32, radius: u32) -> (r: bool)
    requires
        dx <= radius,
        dy <= radius,
    ensures
        r == outside_circle(dx as int, dy as int, radius as int),
{
    let (x, y, limit): (u64, u64, u64) = (dx as u64, dy as u64, radius as u64);
    assert(limit * limit <= 0xFFFF_FFFFu64 * 0xFFFF_FFFFu64 && x * x <= limit * limit && y * y
        <= limit * limit && 0 <= x * x && 0 <= y * y) by (nonlinear_arith)
        requires
            x <= limit,
            y <= limit,
            limit <= 0xFFFF_FFFF,
    ;
    x as u128 * x as u128 + y as u128 * y as u128 > limit as u128 * limit as u128
}

fn clamp_radius(radius: u32, w: u32, h: u32) -> (r: u32)
    ensures
        r == effective_radius(radius, w, h),
{
    radius.min(w / 2).min(h / 2)
}

/// Whether the pixel at `(column, row)` of a `w` by `h` rectangle survives its rounded corners.
pub fn is_inside_corners(column: u32, row: u32, w: u32, h: u32, corners: &BorderRadius) -> (r: bool)
    requires
        column < w,
        row < h,
    ensures
        r == inside_corners(column as int, row as int, w, h, *corners),
{
    let top_left: u32 = clamp_radius(corners.top_left, w, h);
    let top_right: u32 = clamp_radius(corners.top_right, w, h);
    let bottom_left: u32 = clamp_radius(corners.bottom_left, w, h);
    let bottom_right: u32 = clamp_radius(corners.bottom_right, w, h);
    if column < top_left && row < top_left && is_outside_circle(
        top_left - column,
        top_left - row,
        top_left,
    ) {
        return false;
    }
    if column >= w - top_right && row < top_right && is_outside_circle(
        column - (w - top_right),
        top_right - row,
        top_right,
    ) {
        return false;
    }
    if column < bottom_left && row >= h - bottom_left && is_outside_circle(
        bottom_left - column,
        row - (h - bottom_left),
        bottom_left,
    ) {
        return false;
    }
    !(column >= w - bottom_right && row >= h - bottom_right && is_outside_circle(
        column - (w - bottom_right),
        row - (h - bottom_right),
        bottom_right,
    ))
}

/// The pixel that a colour leaves behind on a buffer of the given layout.
pub open spec fn over(buffer_rgba: bool, destination: u32, color: u32) -> u32 {
    if buffer_rgba {
        crate::pixel::over_rgba(destination, crate::pixel::premultiplied(color))
    } else {
        crate::pixel::over_rgb(destination, crate::pixel::premultiplied(color))
    }
}

/// What a filled rectangle does to the pixel at `(px, py)`.
pub open spec fn rect_paint(
    buffer_rgba: bool,
    x: i32,
    y: i32,
    w: u32,
    h: u32,
    color: u32,
    corners: BorderRadius,
) -> spec_fn(int, int, u32) -> u32 {
    |px: int, py: int, pixel: u32|
        if inside_corners(px - x, py - y, w, h, corners) {
            over(buffer_rgba, pixel, color)
        } else {
            pixel
        }
}

/// The buffer after a rectangle has been filled on it.
pub open spec fn rect_filled(
    before: Seq<u32>,
    buffer_rgba: bool,
    width: u32,
    height: u32,
    x: i32,
    y: i32,
    w: u32,
    h: u32,
    color: u32,
    corners: BorderRadius,
    clip: PaintClip,
) -> Seq<u32> {
    painted(
        before,
        width as int,
        clipped_area(width, height, x, y, w, h, clip),
        rect_paint(buffer_rgba, x, y, w, h, color, corners),
    )
}

/// Fills a rectangle, as far as it lies in the buffer and in the clip.
pub fn draw_rect_filled_clipped(
    buffer: &mut [u32],
    buffer_rgba: bool,
    width: u32,
    height: u32,
    x: i32,
    y: i32,
    w: u32,
    h: u32,
    color: u32,
    border_radius: &BorderRadius,
    clip: PaintClip,
)
    requires
        clipped_area(width, height, x, y, w, h, clip).fits(width as int, old(buffer)@.len() as int),
    ensures
        final(buffer)@ == rect_filled(
            old(buffer)@,
            buffer_rgba,
            width,
            height,
            x,
            y,
            w,
            h,
            color,
            *border_radius,
            clip,
        ),
{
    let ghost before = buffer@;
    let ghost area = clipped_area(width, height, x, y, w, h, clip);
    let ghost paint = rect_paint(buffer_rgba, x, y, w, h, color, *border_radius);
    let start_x: i32 = x.max(0).max(clip.start_x);
    let start_y: i32 = y.max(0).max(clip.start_y);
    let end_x: i32 = saturating_add_unsigned(x, w).min(saturating_i32(width)).min(clip.end_x);
    let end_y: i32 = saturating_add_unsigned(y, h).min(saturating_i32(height)).min(clip.end_y);
    if start_x >= end_x || start_y >= end_y {
        proof {
            lemma_painted_nothing(before, width as int, area, paint);
        }
        return;
    }
    let stride: usize = width as usize;
    let len: usize = buffer.len();
    let color_tuple = rgba_to_premul_tuple(color);
    proof {
        lemma_painted_start(before, width as int, area, paint);
    }
    let mut py: i32 = start_y;
    while py < end_y
        invariant
            area == clipped_area(width, height, x, y, w, h, clip),
            area.start_x == start_x,
            area.start_y == start_y,
            area.end_x == end_x,
            area.end_y == end_y,
            0 <= start_x < end_x <= width,
            0 <= start_y <= py <= end_y,
            area.fits(width as int, before.len() as int),
            stride == width,
            buffer@.len() == before.len(),
            len == before.len(),
            paint == rect_paint(buffer_rgba, x, y, w, h, color, *border_radius),
            color_tuple == crate::pixel::premultiplied(color),
            buffer@ == painted_prefix(before, width as int, area, paint, py * width + start_x),
        decreases end_y - py,
    {
        let mut px: i32 = start_x;
        while px < end_x
            invariant
                area == clipped_area(width, height, x, y, w, h, clip),
                area.start_x == start_x,
                area.start_y == start_y,
                area.end_x == end_x,
                area.end_y == end_y,
                0 <= start_x <= px <= end_x <= width,
                0 <= start_y <= py < end_y,
                area.fits(width as int, before.len() as int),
                stride == width,
                buffer@.len() == before.len(),
                len == before.len(),
                paint == rect_paint(buffer_rgba, x, y, w, h, color, *border_radius),
                color_tuple == crate::pixel::premultiplied(color),
                buffer@ == painted_prefix(before, width as int, area, paint, py * width + px),
            decreases end_x - px,
        {
            proof {
                lemma_pixel_in_bounds(
                    area,
                    width as int,
                    before.len() as int,
                    px as int,
                    py as int,
                );
                lemma_painted_step(before, width as int, area, paint, px as int, py as int);
            }
            let idx: usize = py as usize * stride + px as usize;
            let column: u32 = (px as i64 - x as i64) as u32;
            let row: u32 = (py as i64 - y as i64) as u32;
            if is_inside_corners(column, row, w, h, border_radius) {
                let pixel: u32 = buffer[idx];
                if buffer_rgba {
                    buffer[idx] = blend_rgba_with_rgba(pixel, color_tuple);
                } else {
                    buffer[idx] = blend_rgb_with_rgba(pixel, color_tuple);
                }
            }
            px = px + 1;
        }
        proof {
            lemma_painted_skip_row_end(before, width as int, area, paint, py as int);
        }
        py = py + 1;
    }
    proof {
        lemma_painted_end(before, width as int, area, paint);
    }
}

/// Fills a rectangle, as far as it lies in the buffer.
pub fn draw_rect_filled(
    buffer: &mut [u32],
    buffer_rgba: bool,
    width: u32,
    height: u32,
    x: i32,
    y: i32,
    w: u32,
    h: u32,
    color: u32,
    border_radius: &BorderRadius,
)
    requires
        clipped_area(
            width,
            height,
            x,
            y,
            w,
            h,
            PaintClip {
                start_x: 0,
                start_y: 0,
                end_x: min2(width as int, i32::MAX as int) as i32,
                end_y: min2(height as int, i32::MAX as int) as i32,
            },
        ).fits(width as int, old(buffer)@.len() as int),
    ensures
        final(buffer)@ == rect_filled(
            old(buffer)@,
            buffer_rgba,
            width,
            height,
            x,
            y,
            w,
            h,
            color,
            *border_radius,
            (PaintClip {
                start_x: 0,
                start_y: 0,
                end_x: min2(width as int, i32::MAX as int) as i32,
                end_y: min2(height as int, i32::MAX as int) as i32,
            }),
        ),
{
    let clip = PaintClip::viewport(width, height);
    draw_rect_filled_clipped(
        buffer,
        buffer_rgba,
        width,
        height,
        x,
        y,
        w,
        h,
        color,
        border_radius,
        clip,
    );
}

/// Sets every pixel of the buffer.
pub fn clear_buffer(buffer: &mut [u32], color: u32)
    ensures
        final(buffer)@ == Seq::new(old(buffer)@.len(), |i: int| color),
{
    let len: usize = buffer.len();
    let mut idx: usize = 0;
    while idx < len
        invariant
            idx <= len,
            len == buffer@.len(),
            len == old(buffer)@.len(),
            forall|i: int| 0 <= i < idx ==> buffer@[i] == color,
        decreases len - idx,
    {
        buffer[idx] = color;
        idx = idx + 1;
    }
}

} // verus!
