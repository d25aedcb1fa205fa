//! Packed 32-bit pixels: channels, premultiplied colours and source-over blending.
//!
//! Two layouts are used. An RGBA pixel holds red, green, blue and alpha from the highest byte to
//! the lowest. An RGB pixel, as a window surface takes it, holds red, green and blue in the three
//! lower bytes.
use vstd::prelude::*;

verus! {

/// The byte of `pixel` that starts at bit `shift`.
pub open spec fn channel_at(pixel: u32, shift: u32) -> u32 {
    (pixel >> shift) & 0xFF
}

/// Four channel values placed in the bytes of one RGBA pixel.
pub open spec fn pack_rgba(red: u32, green: u32, blue: u32, alpha: u32) -> u32 {
    (red << 24) | (green << 16) | (blue << 8) | alpha
}

/// Three channel values placed in the lower bytes of one RGB pixel.
pub open spec fn pack_rgb(red: u32, green: u32, blue: u32) -> u32 {
    (red << 16) | (green << 8) | blue
}

/// `first * second / 255`, rounded to the nearest integer.
pub open spec fn scaled(first: int, second: int) -> int {
    (first * second + 127) / 255
}

/// One channel of the source-over operator: the premultiplied source channel plus what the
/// source's alpha lets through of the destination channel.
pub open spec fn over_channel(source: u8, destination: u32, source_alpha: u8) -> u32 {
    (source + scaled(destination as int, 255 - source_alpha)) as u32
}

/// Source-over on an RGBA destination.
pub open spec fn over_rgba(destination: u32, source: (u8, u8, u8, u8)) -> u32 {
    if source.3 == 0 {
        destination
    } else if source.3 == 255 {
        pack_rgba(source.0 as u32, source.1 as u32, source.2 as u32, source.3 as u32)
    } else {
        pack_rgba(
            over_channel(source.0, channel_at(destination, 24), source.3),
            over_channel(source.1, channel_at(destination, 16), source.3),
            over_channel(source.2, channel_at(destination, 8), source.3),
            over_channel(source.3, channel_at(destination, 0), source.3),
        )
    }
}

/// Source-over on an opaque RGB destination.
pub open spec fn over_rgb(destination: u32, source: (u8, u8, u8, u8)) -> u32 {
    if source.3 == 0 {
        destination
    } else if source.3 == 255 {
        pack_rgb(source.0 as u32, source.1 as u32, source.2 as u32)
    } else {
        pack_rgb(
            over_channel(source.0, channel_at(destination, 16), source.3),
            over_channel(source.1, channel_at(destination, 8), source.3),
            over_channel(source.2, channel_at(destination, 0), source.3),
        )
    }
}

/// Whether no colour channel exceeds alpha, as in every premultiplied colour.
pub open spec fn is_premultiplied(color: (u8, u8, u8, u8)) -> bool {
    color.0 <= color.3 && color.1 <= color.3 && color.2 <= color.3
}

/// A straight-alpha RGBA pixel as a premultiplied tuple; products are rounded down.
pub open spec fn premultiplied(pixel: u32) -> (u8, u8, u8, u8) {
    let alpha = channel_at(pixel, 0);
    (
        ((channel_at(pixel, 24) * alpha) / 255) as u8,
        ((channel_at(pixel, 16) * alpha) / 255) as u8,
        ((channel_at(pixel, 8) * alpha) / 255) as u8,
        alpha as u8,
    )
}

/// The channels of an RGB pixel as an opaque tuple.
pub open spec fn opaque(pixel: u32) -> (u8, u8, u8, u8) {
    (
        channel_at(pixel, 16) as u8,
        channel_at(pixel, 8) as u8,
        channel_at(pixel, 0) as u8,
        255,
    )
}

/// The four bytes of an RGBA pixel from the highest to the lowest, unchanged.
pub open spec fn rgba_bytes(pixel: u32) -> (u8, u8, u8, u8) {
    (
        channel_at(pixel, 24) as u8,
        channel_at(pixel, 16) as u8,
        channel_at(pixel, 8) as u8,
        channel_at(pixel, 0) as u8,
    )
}

/// Byte `offset` (0 to 3) of a tuple.
pub open spec fn tuple_byte(color: (u8, u8, u8, u8), offset: int) -> u8 {
    if offset == 0 {
        color.0
    } else if offset == 1 {
        color.1
    } else if offset == 2 {
        color.2
    } else {
        color.3
    }
}

/// The bytes of a whole buffer: each pixel gives four, in order.
pub open spec fn buffer_bytes(
    buffer: Seq<u32>,
    convert: spec_fn(u32) -> (u8, u8, u8, u8),
) -> Seq<u8> {
    Seq::new(buffer.len() * 4, |i: int| tuple_byte(convert(buffer[i / 4]), i % 4))
}

/// The byte of `pixel` that starts at bit `shift`.
pub fn channel(pixel: u32, shift: u32) -> (r: u32)
    requires
        shift < 32,
    ensures
        r == channel_at(pixel, shift),
        r <= 255,
{
    assert((pixel >> shift) & 0xFF <= 255) by (bit_vector);
    (pixel >> shift) & 0xFF
}

proof fn lemma_scaled_bounds(first: int, second: int)
    requires
        0 <= first <= 255,
        0 <= second <= 255,
    ensures
        0 <= first * second <= 255 * 255,
        0 <= scaled(first, second) <= first,
        scaled(first, second) <= second,
        scaled(first, 255) == first,
        scaled(255, second) == second,
{
    assert(0 <= first * second) by (nonlinear_arith)
        requires
            0 <= first,
            0 <= second,
    ;
    assert(first * second <= first * 255) by (nonlinear_arith)
        requires
            0 <= first,
            second <= 255,
    ;
    assert(first * second <= 255 * second) by (nonlinear_arith)
        requires
            first <= 255,
            0 <= second,
    ;
}

/// Multiplies two coverage values, where 255 is full coverage.
pub fn multiply_coverage(first: u8, second: u8) -> (r: u8)
    ensures
        r == scaled(first as int, second as int),
{
    proof {
        lemma_scaled_bounds(first as int, second as int);
    }
    ((first as u16 * second as u16 + 127) / 255) as u8
}

fn over_one(source: u8, destination: u32, source_alpha: u8) -> (r: u32)
    requires
        destination <= 255,
    ensures
        r == over_channel(source, destination, source_alpha),
{
    let inverse: u32 = 255 - source_alpha as u32;
    proof {
        lemma_scaled_bounds(destination as int, inverse as int);
    }
    source as u32 + (destination * inverse + 127) / 255
}

/// Draws a premultiplied colour over a pixel that has an alpha channel of its own.
pub fn blend_rgba_with_rgba(dst: u32, src: (u8, u8, u8, u8)) -> (r: u32)
    ensures
        r == over_rgba(dst, src),
{
    if src.3 == 0 {
        return dst;
    }
    if src.3 == 255 {
        return ((src.0 as u32) << 24) | ((src.1 as u32) << 16) | ((src.2 as u32) << 8) | (
        src.3 as u32);
    }
    let red: u32 = over_one(src.0, channel(dst, 24), src.3);
    let green: u32 = over_one(src.1, channel(dst, 16), src.3);
    let blue: u32 = over_one(src.2, channel(dst, 8), src.3);
    let alpha: u32 = over_one(src.3, channel(dst, 0), src.3);
    (red << 24) | (green << 16) | (blue << 8) | alpha
}

/// Draws a premultiplied colour over an opaque surface pixel.
pub fn blend_rgb_with_rgba(dst: u32, src: (u8, u8, u8, u8)) -> (r: u32)
    ensures
        r == over_rgb(dst, src),
{
    if src.3 == 0 {
        return dst;
    }
    if src.3 == 255 {
        return ((src.0 as u32) << 16) | ((src.1 as u32) << 8) | (src.2 as u32);
    }
    let red: u32 = over_one(src.0, channel(dst, 16), src.3);
    let green: u32 = over_one(src.1, channel(dst, 8), src.3);
    let blue: u32 = over_one(src.2, channel(dst, 0), src.3);
    (red << 16) | (green << 8) | blue
}

/// Converts a straight-alpha RGBA pixel to a premultiplied colour.
pub fn rgba_to_premul_tuple(src: u32) -> (r: (u8, u8, u8, u8))
    ensures
        r == premultiplied(src),
        is_premultiplied(r),
{
    let red: u32 = channel(src, 24);
    let green: u32 = channel(src, 16);
    let blue: u32 = channel(src, 8);
    let alpha: u32 = channel(src, 0);
    proof {
        lemma_scaled_bounds(red as int, alpha as int);
        lemma_scaled_bounds(green as int, alpha as int);
        lemma_scaled_bounds(blue as int, alpha as int);
    }
    (
        (red * alpha / 255) as u8,
        (green * alpha / 255) as u8,
        (blue * alpha / 255) as u8,
        alpha as u8,
    )
}

/// Converts a surface pixel to an opaque colour.
pub fn rgb_to_premul_tuple(src: u32) -> (r: (u8, u8, u8, u8))
    ensures
        r == opaque(src),
{
    (channel(src, 16) as u8, channel(src, 8) as u8, channel(src, 0) as u8, 255)
}

/// Splits an RGBA pixel into its bytes, the highest first.
pub fn rgba_to_bytes(src: u32) -> (r: (u8, u8, u8, u8))
    ensures
        r == rgba_bytes(src),
{
    (channel(src, 24) as u8, channel(src, 16) as u8, channel(src, 8) as u8, channel(src, 0) as u8)
}

fn push_tuple(bytes: &mut Vec<u8>, color: (u8, u8, u8, u8))
    ensures
        final(bytes)@ == old(bytes)@.push(color.0).push(color.1).push(color.2).push(color.3),
{
    bytes.push(color.0);
    bytes.push(color.1);
    bytes.push(color.2);
    bytes.push(color.3);
}

proof fn lemma_buffer_bytes_push(
    buffer: Seq<u32>,
    count: int,
    convert: spec_fn(u32) -> (u8, u8, u8, u8),
)
    requires
        0 <= count < buffer.len(),
    ensures
        buffer_bytes(buffer.take(count + 1), convert) =~= buffer_bytes(buffer.take(count), convert)
            .push(convert(buffer[count]).0).push(convert(buffer[count]).1).push(
            convert(buffer[count]).2,
        ).push(convert(buffer[count]).3),
{
    let after = buffer.take(count + 1);
    let before = buffer.take(count);
    assert forall|i: int| 0 <= i < count * 4 implies buffer_bytes(after, convert)[i]
        == buffer_bytes(before, convert)[i] by {
        assert(after[i / 4] == before[i / 4]);
    }
}

/// The bytes of a premultiplied RGBA buffer, pixel by pixel.
pub fn premul_rgba_buffer_to_bytes(buffer: &[u32]) -> (bytes: Vec<u8>)
    ensures
        bytes@ == buffer_bytes(buffer@, |pixel: u32| rgba_bytes(pixel)),
{
    let mut bytes: Vec<u8> = Vec::new();
    let mut idx: usize = 0;
    let ghost convert = |pixel: u32| rgba_bytes(pixel);
    while idx < buffer.len()
        invariant
            idx <= buffer@.len(),
            convert == (|pixel: u32| rgba_bytes(pixel)),
            bytes@ == buffer_bytes(buffer@.take(idx as int), convert),
        decreases buffer@.len() - idx,
    {
        proof {
            lemma_buffer_bytes_push(buffer@, idx as int, convert);
        }
        push_tuple(&mut bytes, rgba_to_bytes(buffer[idx]));
        idx = idx + 1;
    }
    assert(buffer@.take(buffer@.len() as int) =~= buffer@);
    bytes
}

/// The premultiplied bytes of a straight-alpha RGBA buffer, pixel by pixel.
pub fn rgba_buffer_to_premul_bytes(buffer: &[u32]) -> (bytes: Vec<u8>)
    ensures
        bytes@ == buffer_bytes(buffer@, |pixel: u32| premultiplied(pixel)),
{
    let mut bytes: Vec<u8> = Vec::new();
    let mut idx: usize = 0;
    let ghost convert = |pixel: u32| premultiplied(pixel);
    while idx < buffer.len()
        invariant
            idx <= buffer@.len(),
            convert == (|pixel: u32| premultiplied(pixel)),
            bytes@ == buffer_bytes(buffer@.take(idx as int), convert),
        decreases buffer@.len() - idx,
    {
        proof {
            lemma_buffer_bytes_push(buffer@, idx as int, convert);
        }
        push_tuple(&mut bytes, rgba_to_premul_tuple(buffer[idx]));
        idx = idx + 1;
    }
    assert(buffer@.take(buffer@.len() as int) =~= buffer@);
    bytes
}

/// The opaque premultiplied bytes of an RGB buffer, pixel by pixel.
pub fn rgb_buffer_to_premul_bytes(buffer: &[u32]) -> (bytes: Vec<u8>)
    ensures
        bytes@ == buffer_bytes(buffer@, |pixel: u32| opaque(pixel)),
{
    let mut bytes: Vec<u8> = Vec::new();
    let mut idx: usize = 0;
    let ghost convert = |pixel: u32| opaque(pixel);
    while idx < buffer.len()
        invariant
            idx <= buffer@.len(),
            convert == (|pixel: u32| opaque(pixel)),
            bytes@ == buffer_bytes(buffer@.take(idx as int), convert),
        decreases buffer@.len() - idx,
    {
        proof {
            lemma_buffer_bytes_push(buffer@, idx as int, convert);
        }
        push_tuple(&mut bytes, rgb_to_premul_tuple(buffer[idx]));
        idx = idx + 1;
    }
    assert(buffer@.take(buffer@.len() as int) =~= buffer@);
    bytes
}

/// Reading the channels of packed bytes gives the bytes back.
pub proof fn lemma_pack_rgba_channels(red: u32, green: u32, blue: u32, alpha: u32)
    requires
        red <= 255,
        green <= 255,
        blue <= 255,
        alpha <= 255,
    ensures
        channel_at(pack_rgba(red, green, blue, alpha), 24) == red,
        channel_at(pack_rgba(red, green, blue, alpha), 16) == green,
        channel_at(pack_rgba(red, green, blue, alpha), 8) == blue,
        channel_at(pack_rgba(red, green, blue, alpha), 0) == alpha,
{
    let pixel = (red << 24) | (green << 16) | (blue << 8) | alpha;
    assert((((pixel >> 24u32) & 0xFF) == red) && (((pixel >> 16u32) & 0xFF) == green) && (((pixel
        >> 8u32) & 0xFF) == blue) && (((pixel >> 0u32) & 0xFF) == alpha)) by (bit_vector)
        requires
            red <= 255,
            green <= 255,
            blue <= 255,
            alpha <= 255,
            pixel == (red << 24) | (green << 16) | (blue << 8) | alpha,
    ;
}

/// Blending a premultiplied colour over any RGBA pixel never carries from one channel into the
/// next: each channel of the result is its own source-over value, and that fits a byte.
pub proof fn lemma_over_rgba_keeps_channels_apart(destination: u32, source: (u8, u8, u8, u8))
    requires
        is_premultiplied(source),
        0 < source.3 < 255,
    ensures
        over_channel(source.0, channel_at(destination, 24), source.3) <= 255,
        channel_at(over_rgba(destination, source), 24) == over_channel(
            source.0,
            channel_at(destination, 24),
            source.3,
        ),
        channel_at(over_rgba(destination, source), 16) == over_channel(
            source.1,
            channel_at(destination, 16),
            source.3,
        ),
        channel_at(over_rgba(destination, source), 8) == over_channel(
            source.2,
            channel_at(destination, 8),
            source.3,
        ),
        channel_at(over_rgba(destination, source), 0) == over_channel(
            source.3,
            channel_at(destination, 0),
            source.3,
        ),
{
    assert forall|shift: u32| shift < 32 implies #[trigger] channel_at(destination, shift)
        <= 255 by {
        assert((destination >> shift) & 0xFF <= 255) by (bit_vector);
    }
    lemma_scaled_bounds(channel_at(destination, 24) as int, 255 - source.3);
    lemma_scaled_bounds(channel_at(destination, 16) as int, 255 - source.3);
    lemma_scaled_bounds(channel_at(destination, 8) as int, 255 - source.3);
    lemma_scaled_bounds(channel_at(destination, 0) as int, 255 - source.3);
    lemma_pack_rgba_channels(
        over_channel(source.0, channel_at(destination, 24), source.3),
        over_channel(source.1, channel_at(destination, 16), source.3),
        over_channel(source.2, channel_at(destination, 8), source.3),
        over_channel(source.3, channel_at(destination, 0), source.3),
    );
}

/// Scaling a premultiplied colour by a coverage keeps it premultiplied.
pub proof fn lemma_scaling_keeps_premultiplied(source: (u8, u8, u8, u8), coverage: u8)
    requires
        is_premultiplied(source),
    ensures
        is_premultiplied(
            (
                scaled(source.0 as int, coverage as int) as u8,
                scaled(source.1 as int, coverage as int) as u8,
                scaled(source.2 as int, coverage as int) as u8,
                scaled(source.3 as int, coverage as int) as u8,
            ),
        ),
{
    lemma_scaled_bounds(source.0 as int, coverage as int);
    lemma_scaled_bounds(source.1 as int, coverage as int);
    lemma_scaled_bounds(source.2 as int, coverage as int);
    lemma_scaled_bounds(source.3 as int, coverage as int);
    let (red, green, blue, alpha, c) = (
        source.0 as int,
        source.1 as int,
        source.2 as int,
        source.3 as int,
        coverage as int,
    );
    assert(red * c <= alpha * c && green * c <= alpha * c && blue * c <= alpha * c)
        by (nonlinear_arith)
        requires
            0 <= c,
            red <= alpha,
            green <= alpha,
            blue <= alpha,
    ;
}

} // verus!
