//! What drawings and pictures promise: which pixels a command changes and how, what saving keeps, and how
//! pictures are told apart, fetched and read.
use vstd::prelude::*;

use crate::canvas::covered;
use crate::canvas::drawn;
use crate::canvas::erased;
use crate::canvas::images_drawn;
use crate::canvas::paired_spans;
use crate::canvas::row_spans;
use crate::canvas::span_between;
use crate::canvas::spans_cover;
use crate::canvas::ActionModel;
use crate::canvas::CanvasFillRule;
use crate::canvas::CanvasModel;
use crate::canvas::CanvasPathCommand;
use crate::canvas::CanvasSpan;
use crate::dom::lookup;
use crate::dom::AttributesModel;
use crate::dom::NodesModel;
use crate::images;
use crate::images::data_of_type;
use crate::images::detached_images;
use crate::images::fitted;
use crate::images::has_bytes;
use crate::images::images_to_fetch;
use crate::images::is_detached_image;
use crate::images::is_opaque;
use crate::images::joined;
use crate::images::kind_by_ending;
use crate::images::percent_decoded;
use crate::images::rasterized;
use crate::images::replaced;
use crate::images::shown_source;
use crate::images::sniffed;
use crate::images::source_of;
use crate::images::times_alpha;
use crate::images::wanted_image;
use crate::images::with_variables;
use crate::images::CacheModel;
use crate::images::ImageData;
use crate::images::PngModel;
use crate::images::SniffedModel;
use crate::images::SourceModel;
use crate::numbers::digit_value;
use crate::pixel::buffer_bytes;
use crate::pixel::channel_at;
use crate::pixel::lemma_pack_rgba_channels;
use crate::pixel::pack_rgba;
use crate::pixel::premultiplied;
use crate::pixel::rgba_bytes;
use crate::pixel::scaled;
use crate::raster::painted;
use crate::raster::Area;
use crate::text::ends;
use crate::text::index_of_text;
use crate::text::lemma_index_of_text;
use crate::text::pieces_by;
use crate::text::starts;

verus! {

/// A colour is taken apart into the channels that it was put together of. Full alpha leaves them as they
/// are, none leaves nothing, and half of it leaves about half.
pub proof fn lemma_colors_are_multiplied(red: u32, green: u32, blue: u32, alpha: u32)
    requires
        red <= 255,
        green <= 255,
        blue <= 255,
        alpha <= 255,
    ensures
        ({
            let pixel = pack_rgba(red, green, blue, alpha);
            let color = premultiplied(pixel);
            &&& rgba_bytes(pixel) == (red as u8, green as u8, blue as u8, alpha as u8)
            &&& color.3 == alpha
            &&& alpha == 255 ==> color == (red as u8, green as u8, blue as u8, 255u8)
            &&& alpha == 0 ==> color == (0u8, 0u8, 0u8, 0u8)
            &&& color.0 * 255 <= red * alpha < (color.0 + 1) * 255
            &&& color.1 * 255 <= green * alpha < (color.1 + 1) * 255
            &&& color.2 * 255 <= blue * alpha < (color.2 + 1) * 255
        }),
{
    lemma_pack_rgba_channels(red, green, blue, alpha);
    lemma_product_fits(red, alpha);
    lemma_product_fits(green, alpha);
    lemma_product_fits(blue, alpha);
}

proof fn lemma_product_fits(value: u32, alpha: u32)
    requires
        value <= 255,
        alpha <= 255,
    ensures
        0 <= value * alpha <= 255 * 255,
        alpha == 0 ==> value * alpha == 0,
        alpha == 255 ==> (value * alpha) / 255 == value,
{
    assert(0 <= value * alpha <= 255 * 255) by (nonlinear_arith)
        requires
            value <= 255,
            alpha <= 255,
    ;
}

/// The bytes of a buffer are the channels of its pixels, pixel by pixel: red, green, blue and alpha.
pub proof fn lemma_bytes_of_pixels(buffer: Seq<u32>, i: int)
    requires
        0 <= i < buffer.len(),
    ensures
        ({
            let bytes = buffer_bytes(buffer, |pixel: u32| rgba_bytes(pixel));
            &&& bytes.len() == 4 * buffer.len()
            &&& bytes[4 * i] == channel_at(buffer[i], 24) as u8
            &&& bytes[4 * i + 1] == channel_at(buffer[i], 16) as u8
            &&& bytes[4 * i + 2] == channel_at(buffer[i], 8) as u8
            &&& bytes[4 * i + 3] == channel_at(buffer[i], 0) as u8
        }),
{
}

/// A mask with full coverage changes nothing, and one without any hides all.
pub proof fn lemma_masks(mask: Seq<u8>, at: int, coverage: u8)
    requires
        0 <= at < mask.len(),
    ensures
        covered(None, at, coverage) == coverage,
        mask[at] == 255 ==> covered(Some(mask), at, coverage) == coverage,
        mask[at] == 0 ==> covered(Some(mask), at, coverage) == 0,
        covered(Some(mask), at, coverage) <= coverage,
{
    assert(coverage * mask[at] <= coverage * 255) by (nonlinear_arith)
        requires
            mask[at] <= 255,
    ;
    assert(0 <= coverage * mask[at]) by (nonlinear_arith);
    if mask[at] == 0 {
        assert(coverage * mask[at] == 0);
    }
    assert(scaled(coverage as int, mask[at] as int) <= coverage);
}

/// Drawing without coverage changes nothing, and an opaque colour with full coverage takes the place of
/// what was there. Erasing with full coverage leaves nothing, and without coverage all.
pub proof fn lemma_drawing_one_pixel(pixel: u32, source: (u8, u8, u8, u8), coverage: u8)
    ensures
        drawn(pixel, source, 0) == pixel,
        source.3 == 255 ==> drawn(pixel, source, 255) == pack_rgba(
            source.0 as u32,
            source.1 as u32,
            source.2 as u32,
            255,
        ),
        source.3 == 0 ==> drawn(pixel, source, 255) == pixel,
        erased(pixel, 0) == pixel,
        erased(pixel, 255) == 0,
{
}

/// Erasing makes no channel larger.
pub proof fn lemma_erasing_fades(red: u32, green: u32, blue: u32, alpha: u32, coverage: u8)
    requires
        red <= 255,
        green <= 255,
        blue <= 255,
        alpha <= 255,
        0 < coverage < 255,
    ensures
        ({
            let after = erased(pack_rgba(red, green, blue, alpha), coverage);
            &&& channel_at(after, 24) <= red
            &&& channel_at(after, 16) <= green
            &&& channel_at(after, 8) <= blue
            &&& channel_at(after, 0) <= alpha
        }),
{
    lemma_pack_rgba_channels(red, green, blue, alpha);
    let rest = 255 - coverage;
    lemma_scaling_fades(red as int, rest);
    lemma_scaling_fades(green as int, rest);
    lemma_scaling_fades(blue as int, rest);
    lemma_scaling_fades(alpha as int, rest);
    lemma_pack_rgba_channels(
        scaled(red as int, rest) as u32,
        scaled(green as int, rest) as u32,
        scaled(blue as int, rest) as u32,
        scaled(alpha as int, rest) as u32,
    );
}

proof fn lemma_scaling_fades(value: int, rest: int)
    requires
        0 <= value <= 255,
        0 <= rest <= 255,
    ensures
        0 <= scaled(value, rest) <= value,
{
    assert(0 <= value * rest <= value * 255) by (nonlinear_arith)
        requires
            0 <= value,
            0 <= rest <= 255,
    ;
}

/// A rectangle on a canvas is the pixels of the rectangle that the canvas has.
pub proof fn lemma_rectangle_on_canvas(
    canvas: CanvasModel,
    x: i32,
    y: i32,
    width: u32,
    height: u32,
    px: int,
    py: int,
)
    requires
        0 <= px < canvas.width,
        0 <= py < canvas.height,
    ensures
        canvas.rect_area(x, y, width, height).contains(px, py) <==> x <= px < x + width && y <= py < y
            + height,
{
}

/// The pixel of a canvas at a place.
pub open spec fn canvas_pixel(canvas: CanvasModel, px: int, py: int) -> u32 {
    canvas.pixels[py * canvas.width + px]
}

proof fn lemma_painted_on_canvas(
    canvas: CanvasModel,
    area: Area,
    paint: spec_fn(int, int, u32) -> u32,
    px: int,
    py: int,
)
    requires
        canvas.pixels.len() == canvas.width * canvas.height,
        0 <= px < canvas.width,
        0 <= py < canvas.height,
    ensures
        0 <= py * canvas.width + px < canvas.pixels.len(),
        painted(canvas.pixels, canvas.width as int, area, paint)[py * canvas.width + px] == (
        if area.contains(px, py) {
            paint(px, py, canvas_pixel(canvas, px, py))
        } else {
            canvas_pixel(canvas, px, py)
        }),
{
    let width = canvas.width as int;
    let i = py * width + px;
    assert(0 <= py * width) by (nonlinear_arith)
        requires
            0 <= py,
            0 <= width,
    ;
    assert(py * width + width <= width * canvas.height) by (nonlinear_arith)
        requires
            py + 1 <= canvas.height,
            0 <= width,
    ;
    vstd::arithmetic::div_mod::lemma_fundamental_div_mod_converse(i, width, py, px);
}

/// Filling a rectangle with an opaque colour gives its pixels that colour, and erasing it leaves them
/// empty, where nothing is clipped. All other pixels stay, and so does everything else.
pub proof fn lemma_rectangle_is_filled(
    canvas: CanvasModel,
    x: i32,
    y: i32,
    width: u32,
    height: u32,
    red: u32,
    green: u32,
    blue: u32,
    px: int,
    py: int,
)
    requires
        canvas.pixels.len() == canvas.width * canvas.height,
        canvas.state.clip_mask is None,
        0 <= px < canvas.width,
        0 <= py < canvas.height,
        red <= 255,
        green <= 255,
        blue <= 255,
    ensures
        ({
            let inside = x <= px < x + width && y <= py < y + height;
            let color = pack_rgba(red, green, blue, 255);
            let filled = canvas.rect_drawn(x, y, width, height, color);
            let cleared = canvas.rect_erased(x, y, width, height);
            &&& inside ==> canvas_pixel(filled, px, py) == color
            &&& !inside ==> canvas_pixel(filled, px, py) == canvas_pixel(canvas, px, py)
            &&& inside ==> canvas_pixel(cleared, px, py) == 0
            &&& !inside ==> canvas_pixel(cleared, px, py) == canvas_pixel(canvas, px, py)
            &&& filled.state == canvas.state && filled.path == canvas.path
            &&& filled.pixels.len() == canvas.pixels.len()
        }),
{
    let color = pack_rgba(red, green, blue, 255);
    let area = canvas.rect_area(x, y, width, height);
    lemma_rectangle_on_canvas(canvas, x, y, width, height, px, py);
    lemma_painted_on_canvas(canvas, area, canvas.draw_paint(premultiplied(color)), px, py);
    lemma_painted_on_canvas(canvas, area, canvas.erase_paint(), px, py);
    lemma_colors_are_multiplied(red, green, blue, 255);
}

/// Where the clip hides a pixel, drawing a rectangle does not change it.
pub proof fn lemma_clip_hides(
    canvas: CanvasModel,
    x: i32,
    y: i32,
    width: u32,
    height: u32,
    color: u32,
    px: int,
    py: int,
)
    requires
        canvas.pixels.len() == canvas.width * canvas.height,
        canvas.state.clip_mask matches Some(mask) && mask.len() == canvas.pixels.len() && mask[py
            * canvas.width + px] == 0,
        0 <= px < canvas.width,
        0 <= py < canvas.height,
    ensures
        canvas_pixel(canvas.rect_drawn(x, y, width, height, color), px, py) == canvas_pixel(
            canvas,
            px,
            py,
        ),
        canvas_pixel(canvas.rect_erased(x, y, width, height), px, py) == canvas_pixel(
            canvas,
            px,
            py,
        ),
{
    let area = canvas.rect_area(x, y, width, height);
    lemma_painted_on_canvas(canvas, area, canvas.draw_paint(premultiplied(color)), px, py);
    lemma_painted_on_canvas(canvas, area, canvas.erase_paint(), px, py);
    lemma_masks(canvas.state.clip_mask->0, py * canvas.width + px, 255);
}

/// Once drawing is limited, the clip lets nothing through outside of the limits, and inside what it let
/// through before.
pub proof fn lemma_clip_is_narrowed(canvas: CanvasModel, spans: Seq<CanvasSpan>, px: int, py: int)
    requires
        canvas.pixels.len() == canvas.width * canvas.height,
        canvas.state.fits(canvas.pixels.len() as int),
        0 <= px < canvas.width,
        0 <= py < canvas.height,
    ensures
        ({
            let at = py * canvas.width + px;
            let after = canvas.clipped_to(spans);
            &&& after.state.clip_mask matches Some(mask) && {
                &&& !spans_cover(spans, px, py) ==> mask[at] == 0
                &&& spans_cover(spans, px, py) && canvas.state.clip_mask is None ==> mask[at] == 255
                &&& spans_cover(spans, px, py) ==> (canvas.state.clip_mask matches Some(old) ==> mask[at]
                    == old[at])
            }
            &&& after.pixels == canvas.pixels
            &&& after.state.transform == canvas.state.transform
        }),
{
    let width = canvas.width as int;
    let i = py * width + px;
    assert(0 <= py * width) by (nonlinear_arith)
        requires
            0 <= py,
            0 <= width,
    ;
    assert(py * width + width <= width * canvas.height) by (nonlinear_arith)
        requires
            py + 1 <= canvas.height,
            0 <= width,
    ;
    vstd::arithmetic::div_mod::lemma_fundamental_div_mod_converse(i, width, py, px);
    if let Some(mask) = canvas.state.clip_mask {
        assert(255 * mask[i] == mask[i] * 255);
        assert(scaled(255, mask[i] as int) == mask[i]);
        assert(scaled(0, mask[i] as int) == 0) by {
            assert(0 * mask[i] == 0);
        }
    }
}

/// A pixel is drawn where it is asked for and nowhere else; one outside of the canvas changes nothing.
pub proof fn lemma_pixel_is_drawn(
    canvas: CanvasModel,
    x: i32,
    y: i32,
    source: (u8, u8, u8, u8),
    px: int,
    py: int,
)
    requires
        canvas.pixels.len() == canvas.width * canvas.height,
        canvas.state.clip_mask is None,
        source.3 == 255,
        0 <= px < canvas.width,
        0 <= py < canvas.height,
    ensures
        ({
            let after = canvas.pixel_drawn(x, y, source, 255);
            &&& px == x && py == y ==> canvas_pixel(after, px, py) == pack_rgba(
                source.0 as u32,
                source.1 as u32,
                source.2 as u32,
                255,
            )
            &&& px != x || py != y ==> canvas_pixel(after, px, py) == canvas_pixel(canvas, px, py)
        }),
{
    let width = canvas.width as int;
    lemma_painted_on_canvas(
        canvas,
        Area { start_x: 0, start_y: 0, end_x: 0, end_y: 0 },
        canvas.erase_paint(),
        px,
        py,
    );
    if 0 <= x < canvas.width && 0 <= y < canvas.height {
        lemma_painted_on_canvas(
            canvas,
            Area { start_x: 0, start_y: 0, end_x: 0, end_y: 0 },
            canvas.erase_paint(),
            x as int,
            y as int,
        );
        if py * width + px == y * width + x {
            vstd::arithmetic::div_mod::lemma_fundamental_div_mod_converse(
                py * width + px,
                width,
                py,
                px,
            );
            vstd::arithmetic::div_mod::lemma_fundamental_div_mod_converse(
                y * width + x,
                width,
                y as int,
                x as int,
            );
        }
    }
}

/// Commands change what they are about: a new path is empty, an element is added behind the others, a
/// transformation joins those before it until they are reset, and a restored state is the saved one.
pub proof fn lemma_commands(canvas: CanvasModel)
    ensures
        canvas.after(CanvasPathCommand::BeginPath).path.len() == 0,
        canvas.after(CanvasPathCommand::BeginPath).pixels == canvas.pixels,
        canvas.after(CanvasPathCommand::ResetTransform).state.transform.len() == 0,
        canvas.after(CanvasPathCommand::Save).after(CanvasPathCommand::Restore) == canvas,
        canvas.after(CanvasPathCommand::Save).state == canvas.state,
        canvas.saved.len() == 0 ==> canvas.after(CanvasPathCommand::Restore) == canvas,
{
    assert(canvas.saved.push(canvas.state).drop_last() =~= canvas.saved);
}

/// Commands run one after the other, up to the first that hands out work.
pub proof fn lemma_commands_run_in_turn(
    canvas: CanvasModel,
    first: CanvasPathCommand,
    rest: Seq<CanvasPathCommand>,
)
    ensures
        canvas.asks(first) is None ==> canvas.run(seq![first] + rest) == canvas.after(first).run(rest),
        canvas.asks(first) is Some ==> canvas.run(seq![first] + rest) == (
            canvas.after(first),
            rest,
            canvas.asks(first),
        ),
        canvas.run(Seq::empty()) == (
            canvas,
            Seq::<CanvasPathCommand>::empty(),
            None::<ActionModel>,
        ),
{
    let all = seq![first] + rest;
    assert(all[0] == first);
    assert(all.drop_first() =~= rest);
}

/// A span is the pixels from one edge up to the other, on its row, as far as the canvas goes.
pub proof fn lemma_span(y: int, start: usize, end: usize, width: int, x: int)
    requires
        0 <= y <= usize::MAX,
        0 < width <= usize::MAX,
        0 <= x < width - 1,
    ensures
        spans_cover(span_between(y, start, end, width), x, y) <==> start <= x < end,
{
    let spans = span_between(y, start, end, width);
    if spans.len() > 0 {
        assert(spans[0].y == y);
    }
}

/// By the even-odd rule the pixels between the first and the second edge are inside, those between the
/// second and the third are not, and so on; by the other rule all between the first and the last are.
pub proof fn lemma_fill_rules(y: int, a: usize, b: usize, c: usize, d: usize, width: int, x: int)
    requires
        0 <= y <= usize::MAX,
        0 < width <= usize::MAX,
        0 <= x < width - 1,
        a <= b <= c <= d,
    ensures
        spans_cover(row_spans(y, seq![a, b, c, d], CanvasFillRule::EvenOdd, width), x, y) <==> a <= x
            < b || c <= x < d,
        spans_cover(row_spans(y, seq![a, b, c, d], CanvasFillRule::NonZero, width), x, y) <==> a <= x
            < d,
{
    let edges = seq![a, b, c, d];
    assert(edges.first() == a && edges.last() == d);
    lemma_span(y, a, d, width, x);
    lemma_span(y, a, b, width, x);
    lemma_span(y, c, d, width, x);
    let rest = edges.skip(2);
    assert(rest =~= seq![c, d]);
    assert(rest.skip(2) =~= Seq::<usize>::empty());
    reveal_with_fuel(paired_spans, 4);
    let one = span_between(y, a, b, width);
    let two = span_between(y, c, d, width);
    let both = paired_spans(y, edges, width);
    assert(both =~= one + two);
    if spans_cover(one, x, y) {
        let k = choose|k: int|
            0 <= k < one.len() && (#[trigger] one[k]).y == y && one[k].start_x <= x < one[k].end_x;
        assert(both[k] == one[k]);
    }
    if spans_cover(two, x, y) {
        let k = choose|k: int|
            0 <= k < two.len() && (#[trigger] two[k]).y == y && two[k].start_x <= x < two[k].end_x;
        assert(both[one.len() + k] == two[k]);
    }
    if spans_cover(both, x, y) {
        let k = choose|k: int|
            0 <= k < both.len() && (#[trigger] both[k]).y == y && both[k].start_x <= x
                < both[k].end_x;
        if k < one.len() {
            assert(both[k] == one[k]);
        } else {
            assert(both[k] == two[k - one.len()]);
        }
    }
}

/// Each image that commands draw is listed once.
pub proof fn lemma_images_are_listed_once(
    commands: Seq<CanvasPathCommand>,
    count: nat,
    image: usize,
)
    requires
        count <= commands.len(),
    ensures
        images_drawn(commands, count).contains(image) <==> exists|i: int|
            0 <= i < count && (#[trigger] commands[i] matches CanvasPathCommand::DrawImage {
                image: own,
                ..
            } && own == image),
        images_drawn(commands, count).no_duplicates(),
    decreases count,
{
    if count > 0 {
        let less = (count - 1) as nat;
        lemma_images_are_listed_once(commands, less, image);
        let before = images_drawn(commands, less);
        let now = images_drawn(commands, count);
        if let CanvasPathCommand::DrawImage { image: own, .. } = commands[count - 1] {
            if !before.contains(own) {
                assert(now =~= before.push(own));
                assert(now[now.len() - 1] == own);
                if before.contains(image) {
                    let k = choose|k: int| 0 <= k < before.len() && before[k] == image;
                    assert(now[k] == image);
                }
                if now.contains(image) && image != own {
                    let k = choose|k: int| 0 <= k < now.len() && now[k] == image;
                    assert(before[k] == image);
                }
            }
        }
    }
}

/// The first place of a text is replaced, and then what follows; a text without it stays as it is.
pub proof fn lemma_text_is_replaced_everywhere(s: Seq<char>, other: Seq<char>, by: Seq<char>)
    requires
        other.len() > 0,
    ensures
        index_of_text(s, other) is None ==> replaced(s, other, by) == s,
        index_of_text(s, other) matches Some(at) ==> replaced(s, other, by) == s.take(at) + by + replaced(
            s.skip(at + other.len()),
            other,
            by,
        ),
{
    lemma_index_of_text(s, other);
    match index_of_text(s, other) {
        None => {
            assert(pieces_by(s, other) =~= seq![s]);
        },
        Some(at) => {
            let rest = pieces_by(s.skip(at + other.len()), other);
            let all = pieces_by(s, other);
            assert(all =~= seq![s.take(at)] + rest);
            assert(rest.len() > 0);
            lemma_joined_from_the_front(s.take(at), rest, by);
        },
    }
}

proof fn lemma_joined_from_the_front(first: Seq<char>, rest: Seq<Seq<char>>, between: Seq<char>)
    requires
        rest.len() > 0,
    ensures
        joined(seq![first] + rest, between) == first + between + joined(rest, between),
    decreases rest.len(),
{
    let all = seq![first] + rest;
    if rest.len() == 1 {
        assert(all.drop_last() =~= seq![first]);
        assert(joined(seq![first], between) == first);
        assert(all.last() == rest[0]);
        assert(joined(all, between) =~= first + between + joined(rest, between));
    } else {
        lemma_joined_from_the_front(first, rest.drop_last(), between);
        assert(all.drop_last() =~= seq![first] + rest.drop_last());
        assert(all.last() == rest.last());
        assert(joined(all, between) =~= first + between + joined(rest, between));
    }
}

/// A text without a reference to a variable stays as it is.
pub proof fn lemma_texts_without_variables(s: Seq<char>, variables: Seq<(Seq<char>, Seq<char>)>)
    requires
        index_of_text(s, "var("@) is None,
    ensures
        with_variables(s, variables) == s,
{
}

/// The colours of a picture are multiplied by the alpha of their own pixel, rounded to the nearest;
/// alphas stay.
pub proof fn lemma_pictures_are_multiplied(pixels: Seq<u8>, i: int, channel: int)
    requires
        0 <= i < pixels.len() / 4,
        0 <= channel < 3,
    ensures
        ({
            let after = images::premultiplied(pixels);
            let alpha = pixels[4 * i + 3];
            &&& after.len() == pixels.len()
            &&& after[4 * i + 3] == alpha
            &&& alpha == 255 ==> after[4 * i + channel] == pixels[4 * i + channel]
            &&& alpha == 0 ==> after[4 * i + channel] == 0
            &&& 255 * after[4 * i + channel] <= pixels[4 * i + channel] * alpha + 127 < 255 * (after[4
                * i + channel] + 1)
        }),
{
    let value = pixels[4 * i + channel];
    let alpha = pixels[4 * i + 3];
    assert(0 <= value * alpha <= 255 * 255) by (nonlinear_arith)
        requires
            value <= 255,
            alpha <= 255,
    ;
    assert((4 * i + channel) % 4 == channel && (4 * i + 3) % 4 == 3);
    assert(4 * i + channel - channel + 3 < pixels.len());
    assert(images::premultiplied(pixels)[4 * i + channel] == times_alpha(value, alpha));
    if alpha == 0 {
        assert(value * alpha == 0) by (nonlinear_arith)
            requires
                alpha == 0,
        ;
    }
    if alpha == 255 {
        assert(value * alpha == 255 * value) by (nonlinear_arith)
            requires
                alpha == 255,
        ;
    }
}

/// A picture that is wanted in its own size is kept whole, and any other is to be scaled. Pictures of the
/// other kinds never vanish.
pub proof fn lemma_pictures_have_sizes(
    width: u32,
    height: u32,
    pixels: Seq<u8>,
    wanted_width: Option<u32>,
    wanted_height: Option<u32>,
    kind: ImageData,
)
    ensures
        fitted((width, height, pixels), wanted_width, wanted_height) is Whole <==> wanted_width
            == Some(width) && wanted_height == Some(height),
        fitted((width, height, pixels), wanted_width, wanted_height) matches PngModel::Whole(raster)
            ==> raster.width == width && raster.height == height && raster.pixels == Some(pixels)
            && raster.opaque == is_opaque(pixels),
        kind is Jpeg || kind is Gif || kind is WebP ==> rasterized(kind, width, height, None).width > 0
            && rasterized(kind, width, height, None).height > 0,
        width > 0 && height > 0 ==> rasterized(kind, width, height, None).width == width
            && rasterized(kind, width, height, None).height == height,
        kind is Jpeg || kind is Gif ==> rasterized(kind, width, height, Some(pixels)).pixels == Some(
            pixels,
        ),
{
}

/// Pictures are told apart by what they start with, whatever follows.
pub proof fn lemma_pictures_are_told_apart(rest: Seq<u8>)
    ensures
        sniffed(seq![0x89u8, 0x50, 0x4e, 0x47, 0x0d, 0x0a, 0x1a, 0x0a] + rest) == Some(
            SniffedModel::Png,
        ),
        sniffed(seq![0xffu8, 0xd8, 0xff] + rest) == Some(SniffedModel::Jpeg),
        sniffed(seq![0x47u8, 0x49, 0x46, 0x38, 0x39, 0x61] + rest) == Some(SniffedModel::Gif),
        sniffed(seq![0x47u8, 0x49, 0x46, 0x38, 0x37, 0x61] + rest) == Some(SniffedModel::Gif),
{
    let png = seq![0x89u8, 0x50, 0x4e, 0x47, 0x0d, 0x0a, 0x1a, 0x0a];
    let riff = seq![0x52u8, 0x49, 0x46, 0x46];
    let jpeg = seq![0xffu8, 0xd8, 0xff];
    let a = seq![0xffu8, 0xd8, 0xff] + rest;
    let b = seq![0x47u8, 0x49, 0x46, 0x38, 0x39, 0x61] + rest;
    let c = seq![0x47u8, 0x49, 0x46, 0x38, 0x37, 0x61] + rest;
    let d = png + rest;
    assert(png[0] == 0x89 && riff[0] == 0x52 && jpeg[0] == 0xff);
    assert(a[0] == 0xff && b[0] == 0x47 && c[0] == 0x47);
    lemma_other_start(a, png);
    lemma_other_start(a, riff);
    lemma_other_start(b, png);
    lemma_other_start(b, riff);
    lemma_other_start(b, jpeg);
    lemma_other_start(c, png);
    lemma_other_start(c, riff);
    lemma_other_start(c, jpeg);
    assert(has_bytes(d, 0, png));
    assert(has_bytes(a, 0, jpeg));
    assert(has_bytes(b, 0, seq![0x47u8, 0x49, 0x46, 0x38, 0x39, 0x61]));
    assert(has_bytes(c, 0, seq![0x47u8, 0x49, 0x46, 0x38, 0x37, 0x61]));
}

proof fn lemma_other_start(bytes: Seq<u8>, other: Seq<u8>)
    requires
        bytes.len() > 0,
        other.len() > 0,
        bytes[0] != other[0],
    ensures
        !has_bytes(bytes, 0, other),
{
    if has_bytes(bytes, 0, other) {
        assert(other[0] == bytes[0]);
    }
}

/// An address that ends like a picture of a kind is read as one of that kind.
pub proof fn lemma_endings(name: Seq<char>)
    ensures
        kind_by_ending(name + ".png"@) matches Some(kind) && data_of_type(kind) == ImageData::Png,
        kind_by_ending(name + ".svg"@) matches Some(kind) && data_of_type(kind) == ImageData::Svg,
        kind_by_ending(name + ".jpg"@) matches Some(kind) && data_of_type(kind) == ImageData::Jpeg,
        kind_by_ending(name + ".jpeg"@) matches Some(kind) && data_of_type(kind) == ImageData::Jpeg,
        kind_by_ending(name + ".gif"@) matches Some(kind) && data_of_type(kind) == ImageData::Gif,
        kind_by_ending(name + ".webp"@) matches Some(kind) && data_of_type(kind) == ImageData::WebP,
{
    reveal_strlit(".png");
    reveal_strlit(".svg");
    reveal_strlit(".jpg");
    reveal_strlit(".jpeg");
    reveal_strlit(".gif");
    reveal_strlit(".webp");
    reveal_strlit("image/png");
    reveal_strlit("image/svg+xml");
    reveal_strlit("image/jpeg");
    reveal_strlit("image/gif");
    reveal_strlit("image/webp");
    lemma_ending(name, ".png"@);
    lemma_ending(name, ".svg"@);
    lemma_ending(name, ".jpg"@);
    lemma_ending(name, ".jpeg"@);
    lemma_ending(name, ".gif"@);
    lemma_ending(name, ".webp"@);
    lemma_not_ending(name + ".svg"@, ".png"@, 2, 'v');
    lemma_not_ending(name + ".jpg"@, ".png"@, 2, 'p');
    lemma_not_ending(name + ".jpg"@, ".svg"@, 2, 'p');
    lemma_not_ending(name + ".jpeg"@, ".png"@, 2, 'e');
    lemma_not_ending(name + ".jpeg"@, ".svg"@, 2, 'e');
    lemma_not_ending(name + ".gif"@, ".png"@, 1, 'f');
    lemma_not_ending(name + ".gif"@, ".svg"@, 1, 'f');
    lemma_not_ending(name + ".gif"@, ".jpg"@, 1, 'f');
    lemma_not_ending(name + ".gif"@, ".jpeg"@, 1, 'f');
    lemma_not_ending(name + ".webp"@, ".png"@, 1, 'p');
    lemma_not_ending(name + ".webp"@, ".svg"@, 1, 'p');
    lemma_not_ending(name + ".webp"@, ".jpg"@, 1, 'p');
    lemma_not_ending(name + ".webp"@, ".jpeg"@, 1, 'p');
    lemma_not_ending(name + ".webp"@, ".gif"@, 1, 'p');
    assert("image/png"@.len() == 9 && "image/svg+xml"@.len() == 13);
    assert("image/jpeg"@.len() == 10 && "image/gif"@.len() == 9 && "image/webp"@.len() == 10);
    assert("image/gif"@[6] != "image/png"@[6]);
    assert("image/webp"@[6] != "image/jpeg"@[6]);
}

proof fn lemma_ending(name: Seq<char>, ending: Seq<char>)
    ensures
        ends(name + ending, ending),
{
    assert((name + ending).skip(name.len() as int) =~= ending);
}

proof fn lemma_not_ending(s: Seq<char>, other: Seq<char>, from_end: int, c: char)
    requires
        0 < from_end <= other.len(),
        from_end <= s.len(),
        s[s.len() - from_end] == c,
        other[other.len() - from_end] != c,
    ensures
        !ends(s, other),
{
    if ends(s, other) {
        let tail = s.skip(s.len() - other.len());
        assert(tail[other.len() - from_end] == s[s.len() - from_end]);
    }
}

/// A byte behind a percent sign is read back, and everything else stays.
pub proof fn lemma_percent_signs(byte: u8, rest: Seq<u8>, high: u8, low: u8)
    requires
        digit_value(high as char, 16) == Some((byte / 16) as int),
        digit_value(low as char, 16) == Some((byte % 16) as int),
    ensures
        percent_decoded(seq![0x25u8, high, low] + rest) == seq![byte] + percent_decoded(rest),
        byte != 0x25 ==> percent_decoded(seq![byte] + rest) == seq![byte] + percent_decoded(rest),
        percent_decoded(Seq::empty()) == Seq::<u8>::empty(),
{
    let coded = seq![0x25u8, high, low] + rest;
    assert(coded.skip(3) =~= rest);
    assert(coded[0] == 0x25 && coded[1] == high && coded[2] == low);
    assert(16 * (byte / 16) + byte % 16 == byte);
    let plain = seq![byte] + rest;
    assert(plain.drop_first() =~= rest);
    assert(plain[0] == byte);
}

/// A picture of an element comes from its source, that of a video from its poster. What is written out in
/// other ways than as a drawing is not taken.
pub proof fn lemma_picture_sources(
    tag: Seq<char>,
    attributes: AttributesModel,
    variables: Seq<(Seq<char>, Seq<char>)>,
)
    ensures
        tag == "video"@ && lookup(attributes, "poster"@) is None ==> source_of(
            tag,
            attributes,
            variables,
        ) is None,
        tag != "video"@ && lookup(attributes, "src"@) is None ==> source_of(
            tag,
            attributes,
            variables,
        ) is None,
        (tag != "video"@ && (lookup(attributes, "src"@) matches Some(src) && !starts(src, "data:"@)
            && !starts(src, "blob"@))) ==> source_of(tag, attributes, variables) == Some(
            SourceModel::Fetched(lookup(attributes, "src"@)->0),
        ),
        (tag == "video"@ && (lookup(attributes, "poster"@) matches Some(src) && !starts(
            src,
            "data:"@,
        ) && !starts(src, "blob"@))) ==> source_of(tag, attributes, variables) == Some(
            SourceModel::Fetched(lookup(attributes, "poster"@)->0),
        ),
{
}

/// No image is fetched twice: what is asked for is asked for once, and was neither there nor on its way.
/// Afterwards it is on its way.
pub proof fn lemma_images_are_fetched_once(
    nodes: NodesModel,
    shown: Seq<bool>,
    base: Seq<char>,
    cache: CacheModel,
    count: nat,
)
    ensures
        ({
            let (list, after) = images_to_fetch(nodes, shown, base, cache, count);
            &&& forall|i: int|
                0 <= i < list.len() ==> !cache.urls.contains((#[trigger] list[i]).0)
                    && !cache.pending.contains(list[i].0) && after.pending.contains(list[i].0)
            &&& forall|i: int, j: int|
                0 <= i < j < list.len() ==> (#[trigger] list[i]).0 != (#[trigger] list[j]).0
            &&& forall|url: Seq<char>|
                cache.pending.contains(url) ==> #[trigger] after.pending.contains(url)
            &&& after.urls == cache.urls
        }),
    decreases count,
{
    if count > 0 {
        let less = (count - 1) as nat;
        lemma_images_are_fetched_once(nodes, shown, base, cache, less);
        let (before, between) = images_to_fetch(nodes, shown, base, cache, less);
        let (list, after) = images_to_fetch(nodes, shown, base, cache, count);
        if let Some(src) = shown_source(nodes, shown, (count - 1) as usize) {
            if let Some((url, kind)) = wanted_image(between, base, src) {
                assert(after.pending =~= between.pending.push(url));
                assert(after.pending[between.pending.len() as int] == url);
                assert forall|other: Seq<char>| between.pending.contains(other) implies
                    #[trigger] after.pending.contains(other) by {
                    let k = choose|k: int|
                        0 <= k < between.pending.len() && between.pending[k] == other;
                    assert(after.pending[k] == other);
                }
                assert forall|i: int| 0 <= i < list.len() implies !cache.urls.contains(
                    (#[trigger] list[i]).0,
                ) && !cache.pending.contains(list[i].0) && after.pending.contains(list[i].0) by {
                    if i < before.len() {
                        assert(list[i] == before[i]);
                    } else {
                        if cache.pending.contains(url) {
                            assert(between.pending.contains(url));
                        }
                    }
                }
                assert forall|i: int, j: int| 0 <= i < j < list.len() implies (#[trigger] list[i]).0
                    != (#[trigger] list[j]).0 by {
                    assert(list[i] == before[i]);
                    if j < before.len() {
                        assert(list[j] == before[j]);
                    } else {
                        assert(between.pending.contains(before[i].0));
                    }
                }
            }
        }
    }
}

/// The images that stand in no document are listed, and nothing else is.
pub proof fn lemma_images_in_no_document(nodes: NodesModel, count: nat, idx: usize)
    requires
        count <= usize::MAX,
    ensures
        detached_images(nodes, count).contains(idx) <==> idx < count && is_detached_image(nodes, idx),
    decreases count,
{
    if count > 0 {
        let less = (count - 1) as nat;
        lemma_images_in_no_document(nodes, less, idx);
        let before = detached_images(nodes, less);
        let now = detached_images(nodes, count);
        let last = (count - 1) as usize;
        if is_detached_image(nodes, last) {
            assert(now =~= before.push(last));
            assert(now[before.len() as int] == last);
            if before.contains(idx) {
                let k = choose|k: int| 0 <= k < before.len() && before[k] == idx;
                assert(now[k] == idx);
            }
            if now.contains(idx) && idx != last {
                let k = choose|k: int| 0 <= k < now.len() && now[k] == idx;
                assert(before[k] == idx);
            }
        }
    }
}

} // verus!
