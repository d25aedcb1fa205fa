//! Copying and blending images onto a window surface.
use vstd::prelude::*;

use crate::pixel::blend_rgb_with_rgba;
use crate::pixel::channel;
use crate::pixel::channel_at;
use crate::pixel::over_rgb;
use crate::pixel::pack_rgb;
use crate::pixel::rgba_bytes;
use crate::pixel::rgba_to_bytes;
use crate::raster::clipped_area;
use crate::raster::lemma_painted_end;
use crate::raster::lemma_painted_nothing;
use crate::raster::lemma_painted_skip_row_end;
use crate::raster::lemma_painted_start;
use crate::raster::lemma_painted_step;
use crate::raster::lemma_pixel_in_bounds;
use crate::raster::min2;
use crate::raster::painted;
use crate::raster::painted_prefix;
use crate::raster::saturating_add_unsigned;
use crate::raster::saturating_i32;
use crate::raster::Area;
use crate::raster::PaintClip;

verus! {

/// The part of a source image that lands on the destination, and where.
#[derive(Debug, Clone, Copy)]
pub struct ClippedBlit {
    pub src_x: u32,
    pub src_y: u32,
    pub dst_x: u32,
    pub dst_y: u32,
    pub width: u32,
    pub height: u32,
}

impl ClippedBlit {
    /// Whether the blit covers exactly `area` for an image placed at `(dst_x, dst_y)`.
    pub open spec fn covers(self, area: Area, dst_x: int, dst_y: int) -> bool {
        &&& self.dst_x == area.start_x
        &&& self.dst_y == area.start_y
        &&& self.width == area.end_x - area.start_x
        &&& self.height == area.end_y - area.start_y
        &&& self.src_x == area.start_x - dst_x
        &&& self.src_y == area.start_y - dst_y
    }
}

/// Clips an image placed at `(dst_x, dst_y)` to the destination and the clip. Nothing is left
/// exactly where the three have no pixel in common.
pub fn clipped_blit(
    dst_width: u32,
    dst_height: u32,
    src_width: u32,
    src_height: u32,
    dst_x: i32,
    dst_y: i32,
    clip: PaintClip,
) -> (r: Option<ClippedBlit>)
    ensures
        ({
            let area = clipped_area(
                dst_width,
                dst_height,
                dst_x,
                dst_y,
                src_width,
                src_height,
                clip,
            );
            match r {
                None => area.is_empty(),
                Some(blit) => !area.is_empty() && blit.covers(area, dst_x as int, dst_y as int),
            }
        }),
{
    let start_x: i32 = dst_x.max(0).max(clip.start_x);
    let start_y: i32 = dst_y.max(0).max(clip.start_y);
    let end_x: i32 = saturating_add_unsigned(dst_x, src_width).min(saturating_i32(dst_width)).min(
        clip.end_x,
    );
    let end_y: i32 = saturating_add_unsigned(dst_y, src_height).min(
        saturating_i32(dst_height),
    ).min(clip.end_y);
    if start_x >= end_x || start_y >= end_y {
        return None;
    }
    Some(
        ClippedBlit {
            src_x: (start_x as i64 - dst_x as i64) as u32,
            src_y: (start_y as i64 - dst_y as i64) as u32,
            dst_x: start_x as u32,
            dst_y: start_y as u32,
            width: (end_x - start_x) as u32,
            height: (end_y - start_y) as u32,
        },
    )
}

/// An image: premultiplied RGBA pixels in rows of `width`.
pub struct Pixmap {
    pub width: u32,
    pub height: u32,
    pub pixels: Vec<u32>,
}

impl Pixmap {
    pub open spec fn wf(self) -> bool {
        self.pixels@.len() == self.width * self.height
    }

    /// The pixel at `(x, y)`.
    pub open spec fn at(self, x: int, y: int) -> u32 {
        self.pixels@[y * self.width + x]
    }
}

/// How an image's pixel replaces a surface pixel.
pub open spec fn composed(destination: u32, source: u32, opaque: bool) -> u32 {
    if opaque {
        pack_rgb(channel_at(source, 24), channel_at(source, 16), channel_at(source, 8))
    } else {
        over_rgb(destination, rgba_bytes(source))
    }
}

fn compose(destination: u32, source: u32, opaque: bool) -> (r: u32)
    ensures
        r == composed(destination, source, opaque),
{
    if opaque {
        (channel(source, 24) << 16) | (channel(source, 16) << 8) | channel(source, 8)
    } else {
        blend_rgb_with_rgba(destination, rgba_to_bytes(source))
    }
}

/// The area that an image takes in a box of `box_width` by `box_height` at `(x, y)`: never more
/// than the image or the box.
pub open spec fn pixmap_area(
    box_width: u32,
    box_height: u32,
    width: u32,
    height: u32,
    x: i32,
    y: i32,
    pixmap: Pixmap,
    clip: PaintClip,
) -> Area {
    clipped_area(
        width,
        height,
        x,
        y,
        min2(box_width as int, pixmap.width as int) as u32,
        min2(box_height as int, pixmap.height as int) as u32,
        clip,
    )
}

/// What an image at `(x, y)` does to the surface pixel at `(px, py)`.
pub open spec fn pixmap_paint(pixmap: Pixmap, x: i32, y: i32, opaque: bool) -> spec_fn(
    int,
    int,
    u32,
) -> u32 {
    |px: int, py: int, pixel: u32| composed(pixel, pixmap.at(px - x, py - y), opaque)
}

/// The surface after an image has been drawn into a box.
pub open spec fn pixmap_applied(
    before: Seq<u32>,
    box_width: u32,
    box_height: u32,
    width: u32,
    height: u32,
    x: i32,
    y: i32,
    pixmap: Pixmap,
    opaque: bool,
    clip: PaintClip,
) -> Seq<u32> {
    painted(
        before,
        width as int,
        pixmap_area(box_width, box_height, width, height, x, y, pixmap, clip),
        pixmap_paint(pixmap, x, y, opaque),
    )
}

proof fn lemma_source_in_bounds(x: int, y: int, width: int, height: int)
    requires
        0 <= x < width,
        0 <= y < height,
    ensures
        0 <= y * width,
        y * width + x < width * height,
{
    assert(0 <= y * width) by (nonlinear_arith)
        requires
            0 <= y,
            0 <= width,
    ;
    assert(y * width + width <= width * height) by (nonlinear_arith)
        requires
            y + 1 <= height,
            0 <= width,
    ;
}

/// Draws an image with its corner at `(container_start_x, container_start_y)`, clipped to the box,
/// the surface and the clip. An opaque image replaces pixels; any other is blended over them.
pub fn apply_pixmap_on_buffer(
    box_width: u32,
    box_height: u32,
    buffer: &mut [u32],
    width: u32,
    height: u32,
    container_start_x: i32,
    container_start_y: i32,
    pixmap: &Pixmap,
    opaque: bool,
    clip: PaintClip,
)
    requires
        pixmap.wf(),
        pixmap_area(
            box_width,
            box_height,
            width,
            height,
            container_start_x,
            container_start_y,
            *pixmap,
            clip,
        ).fits(width as int, old(buffer)@.len() as int),
    ensures
        final(buffer)@ == pixmap_applied(
            old(buffer)@,
            box_width,
            box_height,
            width,
            height,
            container_start_x,
            container_start_y,
            *pixmap,
            opaque,
            clip,
        ),
{
    let ghost before = buffer@;
    let ghost area = pixmap_area(
        box_width,
        box_height,
        width,
        height,
        container_start_x,
        container_start_y,
        *pixmap,
        clip,
    );
    let ghost paint = pixmap_paint(*pixmap, container_start_x, container_start_y, opaque);
    let blit = match clipped_blit(
        width,
        height,
        box_width.min(pixmap.width),
        box_height.min(pixmap.height),
        container_start_x,
        container_start_y,
        clip,
    ) {
        None => {
            proof {
                lemma_painted_nothing(before, width as int, area, paint);
            }
            return;
        },
        Some(blit) => blit,
    };
    proof {
        lemma_painted_start(before, width as int, area, paint);
    }
    let len: usize = buffer.len();
    let source_len: usize = pixmap.pixels.len();
    let mut row: u32 = 0;
    while row < blit.height
        invariant
            blit.covers(area, container_start_x as int, container_start_y as int),
            !area.is_empty(),
            area == pixmap_area(
                box_width,
                box_height,
                width,
                height,
                container_start_x,
                container_start_y,
                *pixmap,
                clip,
            ),
            area.fits(width as int, len as int),
            len == before.len(),
            len == buffer@.len(),
            pixmap.wf(),
            source_len == pixmap.pixels@.len(),
            paint == pixmap_paint(*pixmap, container_start_x, container_start_y, opaque),
            row <= blit.height,
            buffer@ == painted_prefix(
                before,
                width as int,
                area,
                paint,
                (blit.dst_y + row) * width + blit.dst_x,
            ),
        decreases blit.height - row,
    {
        let ghost y = blit.dst_y + row;
        let mut column: u32 = 0;
        while column < blit.width
            invariant
                blit.covers(area, container_start_x as int, container_start_y as int),
                !area.is_empty(),
                area == pixmap_area(
                    box_width,
                    box_height,
                    width,
                    height,
                    container_start_x,
                    container_start_y,
                    *pixmap,
                    clip,
                ),
                area.fits(width as int, len as int),
                len == before.len(),
                len == buffer@.len(),
                pixmap.wf(),
                source_len == pixmap.pixels@.len(),
                paint == pixmap_paint(*pixmap, container_start_x, container_start_y, opaque),
                row < blit.height,
                column <= blit.width,
                y == blit.dst_y + row,
                buffer@ == painted_prefix(
                    before,
                    width as int,
                    area,
                    paint,
                    y * width + blit.dst_x + column,
                ),
            decreases blit.width - column,
        {
            let ghost x = blit.dst_x + column;
            proof {
                lemma_pixel_in_bounds(area, width as int, len as int, x, y);
                lemma_painted_step(before, width as int, area, paint, x, y);
                lemma_source_in_bounds(
                    x - container_start_x,
                    y - container_start_y,
                    pixmap.width as int,
                    pixmap.height as int,
                );
            }
            let source_idx: usize = (blit.src_y + row) as usize * pixmap.width as usize + (
            blit.src_x + column) as usize;
            let idx: usize = (blit.dst_y + row) as usize * width as usize + (blit.dst_x
                + column) as usize;
            let pixel: u32 = buffer[idx];
            buffer[idx] = compose(pixel, pixmap.pixels[source_idx], opaque);
            column = column + 1;
        }
        proof {
            lemma_painted_skip_row_end(before, width as int, area, paint, y);
        }
        row = row + 1;
    }
    proof {
        lemma_painted_end(before, width as int, area, paint);
    }
}

/// Whether the source rows that a blit reads all lie in a source of `len` pixels.
pub open spec fn source_fits(area: Area, dst_x: int, dst_y: int, src_width: int, len: int) -> bool {
    !area.is_empty() ==> (area.end_y - 1 - dst_y) * src_width + area.end_x - dst_x <= len
}

/// What copying a surface to `(dst_x, dst_y)` does to the pixel at `(px, py)`.
pub open spec fn copy_paint(src: Seq<u32>, src_width: u32, dst_x: i32, dst_y: i32) -> spec_fn(
    int,
    int,
    u32,
) -> u32 {
    |px: int, py: int, pixel: u32| src[(py - dst_y) * src_width + (px - dst_x)]
}

/// Copies one surface onto another, as far as it lies in the destination and in the clip.
pub fn blit_rgb_buffer(
    dst: &mut [u32],
    dst_width: u32,
    dst_height: u32,
    src: &[u32],
    src_width: u32,
    src_height: u32,
    dst_x: i32,
    dst_y: i32,
    clip: PaintClip,
)
    requires
        clipped_area(dst_width, dst_height, dst_x, dst_y, src_width, src_height, clip).fits(
            dst_width as int,
            old(dst)@.len() as int,
        ),
        source_fits(
            clipped_area(dst_width, dst_height, dst_x, dst_y, src_width, src_height, clip),
            dst_x as int,
            dst_y as int,
            src_width as int,
            src@.len() as int,
        ),
    ensures
        final(dst)@ == painted(
            old(dst)@,
            dst_width as int,
            clipped_area(dst_width, dst_height, dst_x, dst_y, src_width, src_height, clip),
            copy_paint(src@, src_width, dst_x, dst_y),
        ),
{
    let ghost before = dst@;
    let ghost area = clipped_area(
        dst_width,
        dst_height,
        dst_x,
        dst_y,
        src_width,
        src_height,
        clip,
    );
    let ghost paint = copy_paint(src@, src_width, dst_x, dst_y);
    let blit = match clipped_blit(
        dst_width,
        dst_height,
        src_width,
        src_height,
        dst_x,
        dst_y,
        clip,
    ) {
        None => {
            proof {
                lemma_painted_nothing(before, dst_width as int, area, paint);
            }
            return;
        },
        Some(blit) => blit,
    };
    proof {
        lemma_painted_start(before, dst_width as int, area, paint);
    }
    let len: usize = dst.len();
    let source_len: usize = src.len();
    let mut row: u32 = 0;
    while row < blit.height
        invariant
            blit.covers(area, dst_x as int, dst_y as int),
            !area.is_empty(),
            area == clipped_area(dst_width, dst_height, dst_x, dst_y, src_width, src_height, clip),
            area.fits(dst_width as int, len as int),
            source_fits(area, dst_x as int, dst_y as int, src_width as int, source_len as int),
            len == before.len(),
            len == dst@.len(),
            source_len == src@.len(),
            paint == copy_paint(src@, src_width, dst_x, dst_y),
            row <= blit.height,
            dst@ == painted_prefix(
                before,
                dst_width as int,
                area,
                paint,
                (blit.dst_y + row) * dst_width + blit.dst_x,
            ),
        decreases blit.height - row,
    {
        let ghost y = blit.dst_y + row;
        let mut column: u32 = 0;
        while column < blit.width
            invariant
                blit.covers(area, dst_x as int, dst_y as int),
                !area.is_empty(),
                area == clipped_area(
                    dst_width,
                    dst_height,
                    dst_x,
                    dst_y,
                    src_width,
                    src_height,
                    clip,
                ),
                area.fits(dst_width as int, len as int),
                source_fits(area, dst_x as int, dst_y as int, src_width as int, source_len as int),
                len == before.len(),
                len == dst@.len(),
                source_len == src@.len(),
                paint == copy_paint(src@, src_width, dst_x, dst_y),
                row < blit.height,
                column <= blit.width,
                y == blit.dst_y + row,
                dst@ == painted_prefix(
                    before,
                    dst_width as int,
                    area,
                    paint,
                    y * dst_width + blit.dst_x + column,
                ),
            decreases blit.width - column,
        {
            let ghost x = blit.dst_x + column;
            proof {
                lemma_pixel_in_bounds(area, dst_width as int, len as int, x, y);
                lemma_painted_step(before, dst_width as int, area, paint, x, y);
                assert((y - dst_y) * src_width <= (area.end_y - 1 - dst_y) * src_width && 0 <= (y
                    - dst_y) * src_width) by (nonlinear_arith)
                    requires
                        0 <= y - dst_y <= area.end_y - 1 - dst_y,
                        0 <= src_width,
                ;
            }
            let source_idx: usize = (blit.src_y + row) as usize * src_width as usize + (blit.src_x
                + column) as usize;
            let idx: usize = (blit.dst_y + row) as usize * dst_width as usize + (blit.dst_x
                + column) as usize;
            dst[idx] = src[source_idx];
            column = column + 1;
        }
        proof {
            lemma_painted_skip_row_end(before, dst_width as int, area, paint, y);
        }
        row = row + 1;
    }
    proof {
        lemma_painted_end(before, dst_width as int, area, paint);
    }
}

} // verus!
