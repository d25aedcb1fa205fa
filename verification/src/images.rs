//! Images: what data holds one, which are fetched, and what becomes of their pixels.
use vstd::prelude::*;
use vstd::utf8::decode_utf8;
use vstd::utf8::encode_utf8;
use vstd::utf8::valid_utf8;

use crate::calc::lemma_single_unit;
use crate::calc::round_to_single;
use crate::calc::single_unit;
use crate::calc::to_single;
use crate::dom::lookup;
use crate::dom::node_at;
use crate::dom::AttributesModel;
use crate::dom::Element;
use crate::dom::Node;
use crate::dom::NodeModel;
use crate::dom::NodesModel;
use crate::dom::NodesTable;
use crate::numbers::digit_value;
use crate::numbers::hex_text;
use crate::numbers::push_hex;
use crate::text::ends;
use crate::text::ends_with;
use crate::text::from_chars;
use crate::text::index_of_text;
use crate::text::pieces_by;
use crate::text::push_text;
use crate::text::same_text;
use crate::text::split_by;
use crate::text::starts;
use crate::text::starts_with;
use crate::text::strip_prefix;
use crate::text::texts_of;
use crate::text::to_chars;
use crate::text::trimmed_start;
use crate::urls::optional_view;
use crate::urls::parse_url;
use crate::urls::parsed_url;
use crate::urls::resolve_url;
use crate::urls::resolved_url;

verus! {

/// `String::from_utf8` of std: the text that bytes encode; nothing where they encode none.
#[verifier::external_body]
pub(crate) fn read_utf8(bytes: Vec<u8>) -> (r: Option<String>)
    ensures
        match r {
            Some(text) => valid_utf8(bytes@) && text@ == decode_utf8(bytes@),
            None => !valid_utf8(bytes@),
        },
{
    String::from_utf8(bytes).ok()
}

/// Bytes with each percent sign that two hexadecimal digits follow replaced by the byte that they
/// write.
pub open spec fn percent_decoded(bytes: Seq<u8>) -> Seq<u8>
    decreases bytes.len(),
{
    if bytes.len() == 0 {
        Seq::empty()
    } else if bytes[0] == 0x25 && bytes.len() >= 3 && digit_value(bytes[1] as char, 16) is Some
        && digit_value(bytes[2] as char, 16) is Some {
        seq![
            (16 * digit_value(bytes[1] as char, 16)->0 + digit_value(
                bytes[2] as char,
                16,
            )->0) as u8,
        ] + percent_decoded(bytes.skip(3))
    } else {
        seq![bytes[0]] + percent_decoded(bytes.drop_first())
    }
}

/// `percent_encoding::percent_decode_str` and `decode_utf8` on it: the text that a text encodes with
/// percent signs; nothing where the bytes that it comes to encode no text.
#[verifier::external_body]
pub(crate) fn decode_percents(text: &str) -> (r: Option<String>)
    ensures
        match r {
            Some(decoded) => valid_utf8(percent_decoded(encode_utf8(text@))) && decoded@
                == decode_utf8(percent_decoded(encode_utf8(text@))),
            None => !valid_utf8(percent_decoded(encode_utf8(text@))),
        },
{
    let decoded = percent_encoding::percent_decode_str(text).decode_utf8();
    decoded.ok().map(|text| text.into_owned())
}

/// The width and the height of the picture that the `image` crate reads from bytes of a kind;
/// nothing where it reads none, be it that the bytes are no picture.
pub uninterp spec fn decoded_size(bytes: Seq<u8>, kind: Seq<char>) -> Option<(u32, u32)>;

/// `image::ImageReader::decode` for the format that `image::ImageFormat::from_mime_type` names: the
/// size of the picture. That the decoders do not panic on bytes that are no picture is assumed.
#[verifier::external_body]
pub(crate) fn read_size(bytes: &Vec<u8>, kind: &str) -> (r: Option<(u32, u32)>)
    ensures
        r == decoded_size(bytes@, kind@),
{
    let format = image::ImageFormat::from_mime_type(kind)?;
    let mut reader = image::ImageReader::new(std::io::Cursor::new(bytes.as_slice()));
    reader.set_format(format);
    let picture = reader.decode().ok()?;
    Some((picture.width(), picture.height()))
}

/// The longest side of a picture: a canvas of WebP counts its sides with 24 bits, and the other kinds
/// with fewer.
pub const MAX_SIDE: u32 = 0x100_0000;

/// How long a side is beside what it becomes, in single precision and in parts of 2 to the power of
/// minus 59.
pub open spec fn side_ratio(from: u32, to: u32) -> int {
    let whole = to_single(from as int) * 0x400_0000_0000_0000;
    let odd = if whole % to_single(to as int) != 0 {
        1int
    } else {
        0int
    };
    to_single(2 * (whole / to_single(to as int)) + odd)
}

/// Whether a side can be scaled: the middle of the last sample, which rounding may put behind the last
/// pixel, is still within reach of that pixel. All numbers are in single precision and in parts of 2
/// to the power of minus 60.
pub open spec fn side_scales(from: u32, to: u32) -> bool {
    let ratio = side_ratio(from, to);
    let reach = if 2 * ratio < 0x1000_0000_0000_0000 {
        0x1000_0000_0000_0000
    } else {
        2 * ratio
    };
    let middle = to_single(to_single(2 * to_single(to - 1) + 1) * ratio);
    let behind = to_single(middle - 0x800_0000_0000_0000) - (from - 1) * 0x1000_0000_0000_0000;
    from <= MAX_SIDE && to_single(behind) < reach
}

/// Whether a side can be scaled.
pub fn can_scale_side(from: u32, to: u32) -> (r: bool)
    requires
        from > 0,
        to > 0,
    ensures
        r == side_scales(from, to),
{
    if from > MAX_SIDE {
        return false;
    }
    let a: i128 = round_to_single(from as i128);
    let b: i128 = round_to_single(to as i128);
    proof {
        lemma_rounded_stays_positive(to as int);
    }
    let whole: i128 = a * 0x400_0000_0000_0000;
    let part: i128 = whole / b;
    proof {
        assert(0 <= whole / b <= whole) by (nonlinear_arith)
            requires
                whole >= 0,
                b >= 1,
        ;
    }
    let odd: i128 = if whole % b != 0 {
        1
    } else {
        0
    };
    let ratio: i128 = round_to_single(2 * part + odd);
    let reach: i128 = if 2 * ratio < 0x1000_0000_0000_0000 {
        0x1000_0000_0000_0000
    } else {
        2 * ratio
    };
    let last: i128 = round_to_single(2 * round_to_single(to as i128 - 1) + 1);
    proof {
        assert(0 <= last * ratio <= 0x10_0000_0000 * 0x40_0000_0000_0000_0000_0000) by (
        nonlinear_arith)
            requires
                0 <= last <= 0x10_0000_0000,
                0 <= ratio <= 0x40_0000_0000_0000_0000_0000,
        ;
    }
    let middle: i128 = round_to_single(last * ratio);
    let behind: i128 = round_to_single(middle - 0x800_0000_0000_0000) - (from as i128 - 1)
        * 0x1000_0000_0000_0000;
    round_to_single(behind) < reach
}

proof fn lemma_rounded_stays_positive(value: int)
    requires
        value > 0,
    ensures
        to_single(value) > 0,
{
    let unit = single_unit(value);
    lemma_single_unit(value);
    assert((value / unit) * unit >= 1) by (nonlinear_arith)
        requires
            1 <= unit <= value,
    ;
    assert((value / unit + 1) * unit >= (value / unit) * unit) by (nonlinear_arith)
        requires
            unit >= 1,
    ;
}

/// Whether a picture of a size can be scaled to another: the result, with four bytes for a pixel, and
/// the picture that is stretched one way only, with sixteen, are no larger than memory can be, and
/// both sides can be scaled. A picture that has the size already is copied, and one without pixels is
/// not looked at.
pub open spec fn can_scale(from: (u32, u32), width: u32, height: u32) -> bool {
    &&& width * height * 4 <= isize::MAX
    &&& from != (width, height) && from.0 > 0 && from.1 > 0 ==> {
        &&& side_scales(from.0, width)
        &&& side_scales(from.1, height)
        &&& from.0 * height * 16 <= isize::MAX
    }
}

/// The bytes of the pixels, each as red, green, blue and alpha, of the picture that the `image` crate
/// reads from bytes of GIF or WebP and scales to a width and a height.
pub uninterp spec fn scaled_pixels(bytes: Seq<u8>, kind: Seq<char>, width: u32, height: u32) -> Seq<u8>;

/// `image::DynamicImage::resize_exact` with the triangle filter, on what
/// `image::ImageReader::decode` reads as JPEG, GIF or WebP. It panics where a picture that it makes
/// on the way is larger than memory can be, and where rounding puts a sample so far behind the picture
/// that no pixel has any weight in it. There is a result where there is a picture, with four bytes for
/// each pixel. Which bytes is only said of GIF and WebP: the decoder of JPEG picks its arithmetic by
/// the processor. That the decoders do not panic on bytes that are no picture is assumed.
#[verifier::external_body]
pub(crate) fn read_scaled(bytes: &Vec<u8>, kind: &str, width: u32, height: u32) -> (r: Option<Vec<u8>>)
    requires
        kind@ == "image/jpeg"@ || kind@ == "image/gif"@ || kind@ == "image/webp"@,
        decoded_size(bytes@, kind@) matches Some(from) ==> can_scale(from, width, height),
    ensures
        r is Some == decoded_size(bytes@, kind@) is Some,
        r matches Some(pixels) ==> pixels@.len() == width * height * 4,
        r matches Some(pixels) ==> (kind@ == "image/gif"@ || kind@ == "image/webp"@ ==> pixels@
            == scaled_pixels(bytes@, kind@, width, height)),
{
    let format = image::ImageFormat::from_mime_type(kind)?;
    let mut reader = image::ImageReader::new(std::io::Cursor::new(bytes.as_slice()));
    reader.set_format(format);
    let picture = reader.decode().ok()?;
    let scaled = picture.resize_exact(width, height, image::imageops::FilterType::Triangle);
    Some(scaled.to_rgba8().into_raw())
}

/// The width, the height and the bytes of the pixels, each as red, green and blue times alpha and
/// alpha, that `tiny_skia` reads from bytes; nothing where it reads none.
pub uninterp spec fn decoded_png(bytes: Seq<u8>) -> Option<(u32, u32, Seq<u8>)>;

/// `resvg::tiny_skia::Pixmap::decode_png`: the picture that it reads. That it does not panic on bytes
/// that are no picture is assumed.
#[verifier::external_body]
pub(crate) fn decode_png(bytes: &Vec<u8>) -> (r: Option<Picture>)
    ensures
        match (r, decoded_png(bytes@)) {
            (Some(picture), Some(model)) => (picture.width, picture.height, picture.pixels@)
                == model,
            (None, None) => true,
            _ => false,
        },
{
    let pixmap = resvg::tiny_skia::Pixmap::decode_png(bytes.as_slice()).ok()?;
    Some(Picture { width: pixmap.width(), height: pixmap.height(), pixels: pixmap.take() })
}

/// What bytes hold.
#[derive(Debug, PartialEq)]
pub enum SniffedImage {
    Png,
    WebP,
    Jpeg,
    Gif,
    Svg(String),
}

/// What a [`SniffedImage`] holds.
pub enum SniffedModel {
    Png,
    WebP,
    Jpeg,
    Gif,
    Svg(Seq<char>),
}

impl View for SniffedImage {
    type V = SniffedModel;

    open spec fn view(&self) -> SniffedModel {
        match *self {
            SniffedImage::Png => SniffedModel::Png,
            SniffedImage::WebP => SniffedModel::WebP,
            SniffedImage::Jpeg => SniffedModel::Jpeg,
            SniffedImage::Gif => SniffedModel::Gif,
            SniffedImage::Svg(text) => SniffedModel::Svg(text@),
        }
    }
}

/// Whether the bytes from a place on are the given ones.
pub open spec fn has_bytes(bytes: Seq<u8>, at: int, other: Seq<u8>) -> bool {
    at + other.len() <= bytes.len() && forall|i: int|
        0 <= i < other.len() ==> bytes[at + i] == #[trigger] other[i]
}

/// What bytes hold, by the bytes that they start with; a text counts as a picture where it starts
/// like one, after white space.
pub open spec fn sniffed(bytes: Seq<u8>) -> Option<SniffedModel> {
    if has_bytes(bytes, 0, seq![0x89u8, 0x50, 0x4e, 0x47, 0x0d, 0x0a, 0x1a, 0x0a]) {
        Some(SniffedModel::Png)
    } else if has_bytes(bytes, 0, seq![0x52u8, 0x49, 0x46, 0x46]) && has_bytes(
        bytes,
        8,
        seq![0x57u8, 0x45, 0x42, 0x50],
    ) {
        Some(SniffedModel::WebP)
    } else if has_bytes(bytes, 0, seq![0xffu8, 0xd8, 0xff]) {
        Some(SniffedModel::Jpeg)
    } else if has_bytes(bytes, 0, seq![0x47u8, 0x49, 0x46, 0x38, 0x37, 0x61]) || has_bytes(
        bytes,
        0,
        seq![0x47u8, 0x49, 0x46, 0x38, 0x39, 0x61],
    ) {
        Some(SniffedModel::Gif)
    } else if valid_utf8(bytes) && (starts(trimmed_start(decode_utf8(bytes)), "<svg"@) || starts(
        trimmed_start(decode_utf8(bytes)),
        "<?xml"@,
    )) {
        Some(SniffedModel::Svg(decode_utf8(bytes)))
    } else {
        None
    }
}

fn bytes_at(bytes: &Vec<u8>, at: usize, other: &[u8]) -> (r: bool)
    requires
        at <= 8,
        other@.len() <= 8,
    ensures
        r == has_bytes(bytes@, at as int, other@),
{
    if bytes.len() < at + other.len() {
        return false;
    }
    let mut i: usize = 0;
    while i < other.len()
        invariant
            at <= 8,
            other@.len() <= 8,
            i <= other@.len(),
            at + other@.len() <= bytes@.len(),
            forall|k: int| 0 <= k < i ==> bytes@[at + k] == #[trigger] other@[k],
        decreases other@.len() - i,
    {
        if bytes[at + i] != other[i] {
            return false;
        }
        i = i + 1;
    }
    true
}

fn trim_start(s: &str) -> (r: String)
    ensures
        r@ == trimmed_start(s@),
{
    let chars = to_chars(s);
    let len: usize = chars.len();
    let mut start: usize = 0;
    assert(chars@.subrange(0, len as int) =~= chars@);
    while start < len && crate::text::is_whitespace(chars[start])
        invariant
            start <= len,
            len == chars@.len(),
            trimmed_start(chars@) == trimmed_start(chars@.subrange(start as int, len as int)),
        decreases len - start,
    {
        assert(chars@.subrange(start as int, len as int).drop_first() =~= chars@.subrange(
            start + 1,
            len as int,
        ));
        start = start + 1;
    }
    crate::text::from_range(&chars, start, len)
}

/// What bytes hold.
pub fn sniff_image_data(bytes: Vec<u8>) -> (r: Option<SniffedImage>)
    ensures
        match (r, sniffed(bytes@)) {
            (Some(found), Some(model)) => found@ == model,
            (None, None) => true,
            _ => false,
        },
{
    let png: [u8; 8] = [0x89, 0x50, 0x4e, 0x47, 0x0d, 0x0a, 0x1a, 0x0a];
    let riff: [u8; 4] = [0x52, 0x49, 0x46, 0x46];
    let webp: [u8; 4] = [0x57, 0x45, 0x42, 0x50];
    let jpeg: [u8; 3] = [0xff, 0xd8, 0xff];
    let gif_87: [u8; 6] = [0x47, 0x49, 0x46, 0x38, 0x37, 0x61];
    let gif_89: [u8; 6] = [0x47, 0x49, 0x46, 0x38, 0x39, 0x61];
    proof {
        assert(png@ =~= seq![0x89u8, 0x50, 0x4e, 0x47, 0x0d, 0x0a, 0x1a, 0x0a]);
        assert(riff@ =~= seq![0x52u8, 0x49, 0x46, 0x46]);
        assert(webp@ =~= seq![0x57u8, 0x45, 0x42, 0x50]);
        assert(jpeg@ =~= seq![0xffu8, 0xd8, 0xff]);
        assert(gif_87@ =~= seq![0x47u8, 0x49, 0x46, 0x38, 0x37, 0x61]);
        assert(gif_89@ =~= seq![0x47u8, 0x49, 0x46, 0x38, 0x39, 0x61]);
    }
    if bytes_at(&bytes, 0, &png) {
        return Some(SniffedImage::Png);
    }
    if bytes_at(&bytes, 0, &riff) && bytes_at(&bytes, 8, &webp) {
        return Some(SniffedImage::WebP);
    }
    if bytes_at(&bytes, 0, &jpeg) {
        return Some(SniffedImage::Jpeg);
    }
    if bytes_at(&bytes, 0, &gif_87) || bytes_at(&bytes, 0, &gif_89) {
        return Some(SniffedImage::Gif);
    }
    match read_utf8(bytes) {
        Some(text) => {
            let start = trim_start(text.as_str());
            if starts_with(start.as_str(), "<svg") || starts_with(start.as_str(), "<?xml") {
                Some(SniffedImage::Svg(text))
            } else {
                None
            }
        },
        None => None,
    }
}

/// The kind of picture that the end of an address names.
pub open spec fn kind_by_ending(src: Seq<char>) -> Option<Seq<char>> {
    if ends(src, ".png"@) {
        Some("image/png"@)
    } else if ends(src, ".svg"@) {
        Some("image/svg+xml"@)
    } else if ends(src, ".jpg"@) || ends(src, ".jpeg"@) {
        Some("image/jpeg"@)
    } else if ends(src, ".gif"@) {
        Some("image/gif"@)
    } else if ends(src, ".webp"@) {
        Some("image/webp"@)
    } else {
        None
    }
}

/// The kind of picture that the end of an address names.
pub fn img_src_extension(src: &str) -> (r: Option<&'static str>)
    ensures
        match (r, kind_by_ending(src@)) {
            (Some(kind), Some(model)) => kind@ == model,
            (None, None) => true,
            _ => false,
        },
{
    if ends_with(src, ".png") {
        Some("image/png")
    } else if ends_with(src, ".svg") {
        Some("image/svg+xml")
    } else if ends_with(src, ".jpg") || ends_with(src, ".jpeg") {
        Some("image/jpeg")
    } else if ends_with(src, ".gif") {
        Some("image/gif")
    } else if ends_with(src, ".webp") {
        Some("image/webp")
    } else {
        None
    }
}

/// How fetched data is read.
#[derive(Debug, Clone, Copy, PartialEq, Eq, Structural)]
pub enum ImageData {
    Png,
    Svg,
    Jpeg,
    Gif,
    WebP,
    Unsupported,
}

/// How data of a content type is read.
pub open spec fn data_of_type(content_type: Seq<char>) -> ImageData {
    if content_type == "image/png"@ {
        ImageData::Png
    } else if content_type == "image/svg+xml"@ {
        ImageData::Svg
    } else if content_type == "image/jpeg"@ {
        ImageData::Jpeg
    } else if content_type == "image/gif"@ {
        ImageData::Gif
    } else if content_type == "image/webp"@ {
        ImageData::WebP
    } else {
        ImageData::Unsupported
    }
}

/// How data of a content type is read. Where none was sent, the kind that the address named counts.
pub fn image_data_kind(content_type: Option<&str>, named: &str) -> (r: ImageData)
    ensures
        r == data_of_type(
            match content_type {
                Some(content_type) => content_type@,
                None => named@,
            },
        ),
{
    let kind: &str = match content_type {
        Some(content_type) => content_type,
        None => named,
    };
    if same_text(kind, "image/png") {
        ImageData::Png
    } else if same_text(kind, "image/svg+xml") {
        ImageData::Svg
    } else if same_text(kind, "image/jpeg") {
        ImageData::Jpeg
    } else if same_text(kind, "image/gif") {
        ImageData::Gif
    } else if same_text(kind, "image/webp") {
        ImageData::WebP
    } else {
        ImageData::Unsupported
    }
}

/// The images that have been fetched, by their address, and those that are being fetched.
#[derive(Debug)]
pub struct ImageCache {
    pub pending: Vec<String>,
    pub urls: Vec<String>,
    pub kinds: Vec<ImageData>,
}

/// What an [`ImageCache`] holds.
#[verifier::ext_equal]
pub struct CacheModel {
    pub pending: Seq<Seq<char>>,
    pub urls: Seq<Seq<char>>,
    pub kinds: Seq<ImageData>,
}

impl View for ImageCache {
    type V = CacheModel;

    open spec fn view(&self) -> CacheModel {
        CacheModel {
            pending: texts_of(self.pending@),
            urls: texts_of(self.urls@),
            kinds: self.kinds@,
        }
    }
}

impl CacheModel {
    /// Every address has a kind.
    pub open spec fn wf(self) -> bool {
        self.urls.len() == self.kinds.len()
    }
}

/// The place of a text among texts; the length where it is not among them.
pub open spec fn place_among(texts: Seq<Seq<char>>, text: Seq<char>) -> int
    decreases texts.len(),
{
    if texts.len() == 0 || texts[0] == text {
        0
    } else {
        1 + place_among(texts.drop_first(), text)
    }
}

proof fn lemma_place_among(texts: Seq<Seq<char>>, text: Seq<char>)
    ensures
        0 <= place_among(texts, text) <= texts.len(),
        texts.contains(text) <==> place_among(texts, text) < texts.len(),
        place_among(texts, text) < texts.len() ==> texts[place_among(texts, text)] == text,
        forall|i: int| 0 <= i < place_among(texts, text) ==> texts[i] != text,
    decreases texts.len(),
{
    if texts.len() > 0 {
        let rest = texts.drop_first();
        lemma_place_among(rest, text);
        if texts[0] == text {
            assert(texts.contains(text));
        } else {
            if rest.contains(text) {
                let k = choose|k: int| 0 <= k < rest.len() && rest[k] == text;
                assert(texts[k + 1] == text);
            }
            if texts.contains(text) {
                let k = choose|k: int| 0 <= k < texts.len() && texts[k] == text;
                assert(rest[k - 1] == text);
            }
            assert forall|i: int| 0 <= i < place_among(texts, text) implies texts[i] != text by {
                if i > 0 {
                    assert(rest[i - 1] == texts[i]);
                }
            }
        }
    }
}

fn find_among(texts: &Vec<String>, text: &str) -> (r: usize)
    ensures
        r == place_among(texts_of(texts@), text@),
        r <= texts@.len(),
{
    let ghost models = texts_of(texts@);
    let mut at: usize = 0;
    assert(models.skip(0) =~= models);
    while at < texts.len()
        invariant
            at <= texts@.len(),
            models == texts_of(texts@),
            place_among(models, text@) == at + place_among(models.skip(at as int), text@),
        decreases texts@.len() - at,
    {
        assert(models.skip(at as int)[0] == texts@[at as int]@);
        if same_text(texts[at].as_str(), text) {
            return at;
        }
        assert(models.skip(at as int).drop_first() =~= models.skip(at + 1));
        at = at + 1;
    }
    at
}

/// The image that is fetched for an element: one whose address is no data, names a kind, can be
/// resolved, and is neither fetched nor being fetched.
pub open spec fn wanted_image(cache: CacheModel, base: Seq<char>, src: Seq<char>) -> Option<
    (Seq<char>, Seq<char>),
> {
    if starts(src, "data:"@) {
        None
    } else {
        match (kind_by_ending(src), resolved_url(src, Some(base))) {
            (Some(kind), Some(url)) => if cache.urls.contains(url) || cache.pending.contains(url) {
                None
            } else {
                Some((url, kind))
            },
            _ => None,
        }
    }
}

/// The source of an image element that is shown.
pub open spec fn shown_source(nodes: NodesModel, shown: Seq<bool>, idx: usize) -> Option<Seq<char>> {
    match node_at(nodes, idx) {
        Some(node) => if node.has_tag("img"@) && idx < shown.len() && shown[idx as int] {
            node.attribute("src"@)
        } else {
            None
        },
        None => None,
    }
}

/// The images that are to be fetched for the first nodes, each with its kind, and the cache
/// afterwards, in which they are being fetched.
pub open spec fn images_to_fetch(
    nodes: NodesModel,
    shown: Seq<bool>,
    base: Seq<char>,
    cache: CacheModel,
    count: nat,
) -> (Seq<(Seq<char>, Seq<char>)>, CacheModel)
    decreases count,
{
    if count == 0 {
        (Seq::empty(), cache)
    } else {
        let (before, after) = images_to_fetch(nodes, shown, base, cache, (count - 1) as nat);
        match shown_source(nodes, shown, (count - 1) as usize) {
            Some(src) => match wanted_image(after, base, src) {
                Some((url, kind)) => (
                    before.push((url, kind)),
                    CacheModel { pending: after.pending.push(url), ..after },
                ),
                None => (before, after),
            },
            None => (before, after),
        }
    }
}

pub open spec fn requests_view(requests: Seq<(String, &'static str)>) -> Seq<(Seq<char>, Seq<char>)> {
    Seq::new(requests.len(), |i: int| (requests[i].0@, requests[i].1@))
}

impl ImageCache {
    pub fn new() -> (r: ImageCache)
        ensures
            r@ == (CacheModel { pending: Seq::empty(), urls: Seq::empty(), kinds: Seq::empty() }),
    {
        let r = ImageCache { pending: Vec::new(), urls: Vec::new(), kinds: Vec::new() };
        assert(r@ =~= (CacheModel {
            pending: Seq::empty(),
            urls: Seq::empty(),
            kinds: Seq::empty(),
        }));
        r
    }

    fn want(&self, base: &str, src: &str) -> (r: Option<(String, &'static str)>)
        ensures
            match (r, wanted_image(self@, base@, src@)) {
                (Some((url, kind)), Some(model)) => (url@, kind@) == model,
                (None, None) => true,
                _ => false,
            },
    {
        if starts_with(src, "data:") {
            return None;
        }
        let kind = match img_src_extension(src) {
            Some(kind) => kind,
            None => {
                return None;
            },
        };
        let url = match resolve_url(src, Some(base)) {
            Some(url) => url,
            None => {
                return None;
            },
        };
        let fetched: usize = find_among(&self.urls, url.as_str());
        let pending: usize = find_among(&self.pending, url.as_str());
        proof {
            lemma_place_among(self@.urls, url@);
            lemma_place_among(self@.pending, url@);
        }
        if fetched < self.urls.len() || pending < self.pending.len() {
            None
        } else {
            Some((url, kind))
        }
    }

    /// The images of a page at `base` that are to be fetched, each with its kind. Nothing where the
    /// address of the page cannot be read. `shown` says of every node whether it is shown.
    pub fn prefetch_images(&mut self, nodes: &NodesTable, shown: &Vec<bool>, base: &str) -> (r: Vec<
        (String, &'static str),
    >)
        ensures
            match parsed_url(base@) {
                Some(base) => (requests_view(r@), final(self)@) == images_to_fetch(
                    nodes@,
                    shown@,
                    base,
                    old(self)@,
                    nodes@.len(),
                ),
                None => r@.len() == 0 && *final(self) == *old(self),
            },
    {
        let mut requests: Vec<(String, &'static str)> = Vec::new();
        let base = match parse_url(base) {
            Some(base) => base,
            None => {
                return requests;
            },
        };
        let ghost start = self@;
        let mut at: usize = 0;
        assert(requests_view(requests@) =~= Seq::empty());
        while at < nodes.data.len()
            invariant
                at <= nodes.data@.len(),
                (requests_view(requests@), self@) == images_to_fetch(
                    nodes@,
                    shown@,
                    base@,
                    start,
                    at as nat,
                ),
            decreases nodes.data@.len() - at,
        {
            let ghost before = requests_view(requests@);
            let ghost cache = self@;
            match nodes.get(at) {
                Some(Node::Element(element)) => match element.attributes.get_str("src") {
                    Some(src) => {
                        if same_text(element.tag.as_str(), "img") && at < shown.len() && shown[at] {
                            match self.want(base.as_str(), src.as_str()) {
                                Some((url, kind)) => {
                                    self.pending.push(url.clone());
                                    requests.push((url, kind));
                                    proof {
                                        assert(requests_view(requests@) =~= before.push(
                                            (url@, kind@),
                                        ));
                                        assert(self@ =~= (CacheModel {
                                            pending: cache.pending.push(url@),
                                            ..cache
                                        }));
                                    }
                                },
                                None => {},
                            }
                        }
                    },
                    None => {},
                },
                _ => {},
            }
            at = at + 1;
        }
        requests
    }

    /// An image was fetched. It is not being fetched any more, and what was kept under its address
    /// is replaced.
    pub fn finish_image(&mut self, url: String, kind: ImageData)
        requires
            old(self)@.wf(),
        ensures
            final(self)@.wf(),
            final(self)@ == with_fetched(old(self)@, url@, kind),
    {
        let ghost start = self@;
        let pending: usize = find_among(&self.pending, url.as_str());
        proof {
            lemma_place_among(start.pending, url@);
            lemma_place_among(start.urls, url@);
        }
        if pending < self.pending.len() {
            let _fetched = self.pending.remove(pending);
            assert(texts_of(self.pending@) =~= start.pending.remove(pending as int));
        }
        let at: usize = find_among(&self.urls, url.as_str());
        if at < self.urls.len() {
            self.kinds.set(at, kind);
        } else {
            self.urls.push(url);
            self.kinds.push(kind);
            assert(texts_of(self.urls@) =~= start.urls.push(url@));
        }
        assert(self@ =~= with_fetched(start, url@, kind));
    }

    /// The image that was fetched for a source; nothing where there is none or it cannot be shown.
    pub fn get_img_src_data(&self, base: &str, src: &str) -> (r: Option<(String, ImageData)>)
        requires
            self@.wf(),
        ensures
            match (r, fetched_for(self@, base@, src@)) {
                (Some((url, kind)), Some(model)) => (url@, kind) == model,
                (None, None) => true,
                _ => false,
            },
    {
        let base = match parse_url(base) {
            Some(base) => base,
            None => {
                return None;
            },
        };
        let url = match resolve_url(src, Some(base.as_str())) {
            Some(url) => url,
            None => {
                return None;
            },
        };
        let at: usize = find_among(&self.urls, url.as_str());
        if at < self.urls.len() && self.kinds[at] != ImageData::Unsupported {
            Some((url, self.kinds[at]))
        } else {
            None
        }
    }
}

/// The cache after an image was fetched.
pub open spec fn with_fetched(cache: CacheModel, url: Seq<char>, kind: ImageData) -> CacheModel {
    let pending = place_among(cache.pending, url);
    let at = place_among(cache.urls, url);
    CacheModel {
        pending: if pending < cache.pending.len() {
            cache.pending.remove(pending)
        } else {
            cache.pending
        },
        urls: if at < cache.urls.len() {
            cache.urls
        } else {
            cache.urls.push(url)
        },
        kinds: if at < cache.urls.len() {
            cache.kinds.update(at, kind)
        } else {
            cache.kinds.push(kind)
        },
    }
}

/// The image that was fetched for a source on a page.
pub open spec fn fetched_for(cache: CacheModel, base: Seq<char>, src: Seq<char>) -> Option<
    (Seq<char>, ImageData),
> {
    match parsed_url(base) {
        Some(base) => match resolved_url(src, Some(base)) {
            Some(url) => {
                let at = place_among(cache.urls, url);
                if at < cache.urls.len() && cache.kinds[at] != ImageData::Unsupported {
                    Some((url, cache.kinds[at]))
                } else {
                    None
                }
            },
            None => None,
        },
        None => None,
    }
}

/// An image that was fetched is found for every source that leads to its address.
pub proof fn lemma_fetched_image_is_found(
    cache: CacheModel,
    base: Seq<char>,
    src: Seq<char>,
    url: Seq<char>,
    kind: ImageData,
)
    requires
        cache.wf(),
        kind != ImageData::Unsupported,
        parsed_url(base) matches Some(base) && resolved_url(src, Some(base)) == Some(url),
    ensures
        fetched_for(with_fetched(cache, url, kind), base, src) == Some((url, kind)),
{
    let after = with_fetched(cache, url, kind);
    lemma_place_among(cache.urls, url);
    lemma_place_among(after.urls, url);
    let at = place_among(cache.urls, url);
    if at == cache.urls.len() {
        assert(after.urls[at] == url);
        let place = place_among(after.urls, url);
        if place < at {
            assert(after.urls[place] == cache.urls[place]);
        }
    }
}

/// Where the picture of an element comes from.
#[derive(Debug, PartialEq)]
pub enum ImageSource {
    /// A picture that is written out in the source.
    InlineSvg(String),
    Blob(String),
    Fetched(String),
}

/// What an [`ImageSource`] holds.
pub enum SourceModel {
    InlineSvg(Seq<char>),
    Blob(Seq<char>),
    Fetched(Seq<char>),
}

impl View for ImageSource {
    type V = SourceModel;

    open spec fn view(&self) -> SourceModel {
        match *self {
            ImageSource::InlineSvg(text) => SourceModel::InlineSvg(text@),
            ImageSource::Blob(src) => SourceModel::Blob(src@),
            ImageSource::Fetched(src) => SourceModel::Fetched(src@),
        }
    }
}

/// Where the picture of an element comes from: for a video, from its poster. Of data only a picture
/// that is written out is taken.
pub open spec fn source_of(
    tag: Seq<char>,
    attributes: AttributesModel,
    variables: Seq<(Seq<char>, Seq<char>)>,
) -> Option<SourceModel> {
    let src = if tag == "video"@ {
        lookup(attributes, "poster"@)
    } else {
        lookup(attributes, "src"@)
    };
    match src {
        None => None,
        Some(src) => if starts(src, "data:"@) {
            let prefix = "data:image/svg+xml,"@;
            let decoded = percent_decoded(encode_utf8(src.skip(prefix.len() as int)));
            if starts(src, prefix) && valid_utf8(decoded) {
                Some(SourceModel::InlineSvg(with_variables(decode_utf8(decoded), variables)))
            } else {
                None
            }
        } else if starts(src, "blob"@) {
            Some(SourceModel::Blob(src))
        } else {
            Some(SourceModel::Fetched(src))
        },
    }
}

/// A text with every occurrence of another replaced.
pub open spec fn replaced(s: Seq<char>, other: Seq<char>, by: Seq<char>) -> Seq<char> {
    joined(pieces_by(s, other), by)
}

/// Texts one after the other, with a text between two of them.
pub open spec fn joined(texts: Seq<Seq<char>>, between: Seq<char>) -> Seq<char>
    decreases texts.len(),
{
    if texts.len() == 0 {
        Seq::empty()
    } else if texts.len() == 1 {
        texts[0]
    } else {
        joined(texts.drop_last(), between) + between + texts.last()
    }
}

/// Texts one after the other, with a text between two of them.
pub fn join_texts(texts: &Vec<String>, between: &str) -> (r: String)
    ensures
        r@ == joined(texts_of(texts@), between@),
{
    let ghost models = texts_of(texts@);
    let mut text = String::new();
    let mut at: usize = 0;
    assert(text@ =~= Seq::empty());
    while at < texts.len()
        invariant
            at <= texts@.len(),
            models == texts_of(texts@),
            text@ == joined(models.take(at as int), between@),
        decreases texts@.len() - at,
    {
        let ghost first = models.take(at + 1);
        proof {
            assert(first.drop_last() =~= models.take(at as int));
            assert(first.last() == texts@[at as int]@);
        }
        if at > 0 {
            push_text(&mut text, between);
        }
        let ghost before = text@;
        push_text(&mut text, texts[at].as_str());
        proof {
            assert(at == 0 ==> before =~= Seq::empty());
            assert(Seq::<char>::empty() + texts@[at as int]@ =~= texts@[at as int]@);
        }
        at = at + 1;
    }
    assert(models.take(models.len() as int) =~= models);
    text
}

/// A text with every occurrence of another, which is not empty, replaced.
pub fn replace(s: &str, other: &str, by: &str) -> (r: String)
    requires
        other@.len() > 0,
    ensures
        r@ == replaced(s@, other@, by@),
{
    let list = split_by(s, other);
    join_texts(&list, by)
}

/// How a text refers to a variable.
pub open spec fn reference_to(name: Seq<char>) -> Seq<char> {
    "var("@ + name + ")"@
}

/// A text with references to variables replaced by their values, variable by variable.
pub open spec fn with_variables(s: Seq<char>, variables: Seq<(Seq<char>, Seq<char>)>) -> Seq<char> {
    if index_of_text(s, "var("@) is None {
        s
    } else {
        with_values(s, variables)
    }
}

pub open spec fn with_values(s: Seq<char>, variables: Seq<(Seq<char>, Seq<char>)>) -> Seq<char>
    decreases variables.len(),
{
    if variables.len() == 0 {
        s
    } else {
        replaced(
            with_values(s, variables.drop_last()),
            reference_to(variables.last().0),
            variables.last().1,
        )
    }
}

/// A text with references to variables replaced by their values. The variables are given by name.
pub fn inject_css_variables_into_str(s: &str, variables: &Vec<(String, String)>) -> (r: String)
    ensures
        r@ == with_variables(s@, crate::urls::pairs_view(variables@)),
{
    let chars = to_chars(s);
    let pattern = to_chars("var(");
    assert(chars@.skip(0) =~= chars@);
    let mut text = from_chars(&chars);
    if crate::text::find_text(&chars, 0, &pattern).is_none() {
        return text;
    }
    let ghost models = crate::urls::pairs_view(variables@);
    let mut at: usize = 0;
    while at < variables.len()
        invariant
            at <= variables@.len(),
            models == crate::urls::pairs_view(variables@),
            text@ == with_values(s@, models.take(at as int)),
        decreases variables@.len() - at,
    {
        proof {
            assert(models.take(at + 1).drop_last() =~= models.take(at as int));
            assert(models[at as int] == (variables@[at as int].0@, variables@[at as int].1@));
            reveal_strlit("var(");
        }
        let mut reference = String::new();
        push_text(&mut reference, "var(");
        push_text(&mut reference, variables[at].0.as_str());
        push_text(&mut reference, ")");
        assert(reference@ =~= reference_to(variables@[at as int].0@));
        text = replace(text.as_str(), reference.as_str(), variables[at].1.as_str());
        at = at + 1;
    }
    assert(models.take(models.len() as int) =~= models);
    text
}

/// Where the picture of an element comes from.
pub fn image_source(element: &Element, variables: &Vec<(String, String)>) -> (r: Option<ImageSource>)
    ensures
        match (
            r,
            source_of(
                element.tag@,
                element.attributes@,
                crate::urls::pairs_view(variables@),
            ),
        ) {
            (Some(source), Some(model)) => source@ == model,
            (None, None) => true,
            _ => false,
        },
{
    let src = if same_text(element.tag.as_str(), "video") {
        element.attributes.get_str("poster")
    } else {
        element.attributes.get_str("src")
    };
    let src = match src {
        Some(src) => src,
        None => {
            return None;
        },
    };
    if starts_with(src.as_str(), "data:") {
        let data = match strip_prefix(src.as_str(), "data:image/svg+xml,") {
            Some(data) => data,
            None => {
                return None;
            },
        };
        match decode_percents(data.as_str()) {
            Some(text) => Some(
                ImageSource::InlineSvg(inject_css_variables_into_str(text.as_str(), variables)),
            ),
            None => None,
        }
    } else if starts_with(src.as_str(), "blob") {
        Some(ImageSource::Blob(src.clone()))
    } else {
        Some(ImageSource::Fetched(src.clone()))
    }
}

/// The picture that a background writes out; nothing where its data cannot be read. Only pictures of
/// one kind are read.
pub fn resolve_background_data_url(format: &str, data: &str, variables: &Vec<(String, String)>) -> (r:
    Option<String>)
    ensures
        optional_view(r) == ({
            let decoded = percent_decoded(encode_utf8(data@));
            if format@ == "image/svg+xml"@ && valid_utf8(decoded) {
                Some(with_variables(decode_utf8(decoded), crate::urls::pairs_view(variables@)))
            } else {
                None
            }
        }),
{
    if !same_text(format, "image/svg+xml") {
        return None;
    }
    match decode_percents(data) {
        Some(text) => Some(inject_css_variables_into_str(text.as_str(), variables)),
        None => None,
    }
}

/// A picture that is written out, with the name of one attribute spelt as readers expect it.
pub fn normalize_svg(svg: &str) -> (r: String)
    ensures
        r@ == replaced(svg@, "viewbox="@, "viewBox="@),
{
    proof {
        reveal_strlit("viewbox=");
    }
    replace(svg, "viewbox=", "viewBox=")
}

/// A colour channel times its alpha, rounded to the nearest.
pub open spec fn times_alpha(value: u8, alpha: u8) -> u8 {
    ((value * alpha + 127) / 255) as u8
}

/// Pixels with their colours multiplied by their alpha.
pub open spec fn premultiplied(pixels: Seq<u8>) -> Seq<u8> {
    Seq::new(
        pixels.len(),
        |i: int|
            if i % 4 == 3 || i - i % 4 + 3 >= pixels.len() {
                pixels[i]
            } else {
                times_alpha(pixels[i], pixels[i - i % 4 + 3])
            },
    )
}

fn channel(value: u8, alpha: u8) -> (r: u8)
    ensures
        r == times_alpha(value, alpha),
{
    proof {
        assert(value * alpha <= 255 * 255) by (nonlinear_arith)
            requires
                value <= 255,
                alpha <= 255,
        ;
        assert(0 <= value * alpha) by (nonlinear_arith)
            requires
                value >= 0,
                alpha >= 0,
        ;
    }
    ((value as u32 * alpha as u32 + 127) / 255) as u8
}

/// Multiplies the colours of pixels by their alpha. A rest of fewer than four bytes is left alone.
pub fn premultiply(pixels: &mut Vec<u8>)
    ensures
        final(pixels)@ == premultiplied(old(pixels)@),
{
    let ghost start = pixels@;
    let len: usize = pixels.len();
    let mut at: usize = 0;
    while at < len && len - at >= 4
        invariant
            len == pixels@.len(),
            len == start.len(),
            at <= len,
            at % 4 == 0,
            forall|i: int| 0 <= i < at ==> #[trigger] pixels@[i] == premultiplied(start)[i],
            forall|i: int| at <= i < len ==> #[trigger] pixels@[i] == start[i],
        decreases len - at,
    {
        let alpha: u8 = pixels[at + 3];
        let red: u8 = channel(pixels[at], alpha);
        let green: u8 = channel(pixels[at + 1], alpha);
        let blue: u8 = channel(pixels[at + 2], alpha);
        pixels.set(at, red);
        pixels.set(at + 1, green);
        pixels.set(at + 2, blue);
        proof {
            assert((at + 1) % 4 == 1 && (at + 2) % 4 == 2 && (at + 3) % 4 == 3);
            assert forall|i: int| 0 <= i < at + 4 implies #[trigger] pixels@[i] == premultiplied(
                start,
            )[i] by {
                if i >= at {
                    assert(i == at || i == at + 1 || i == at + 2 || i == at + 3);
                }
            }
        }
        at = at + 4;
    }
    assert(pixels@ =~= premultiplied(start)) by {
        assert forall|i: int| at <= i < len implies #[trigger] pixels@[i] == premultiplied(
            start,
        )[i] by {
            assert(i - i % 4 + 3 >= len);
        }
    }
}

/// Whether the alpha of every pixel is full.
pub open spec fn is_opaque(pixels: Seq<u8>) -> bool {
    forall|i: int| 0 <= i < pixels.len() / 4 ==> #[trigger] pixels[4 * i + 3] == 255
}

/// Whether the alpha of every pixel is full.
pub fn pixmap_is_opaque(pixels: &Vec<u8>) -> (r: bool)
    ensures
        r == is_opaque(pixels@),
{
    let len: usize = pixels.len();
    let count: usize = len / 4;
    let mut at: usize = 0;
    while at < count
        invariant
            at <= count,
            len == pixels@.len(),
            count == len / 4,
            forall|i: int| 0 <= i < at ==> #[trigger] pixels@[4 * i + 3] == 255,
        decreases count - at,
    {
        if pixels[4 * at + 3] != 255 {
            assert(pixels@[4 * at + 3] != 255);
            return false;
        }
        at = at + 1;
    }
    true
}

/// A picture: its size and its pixels, each as red, green, blue and alpha.
#[derive(Debug, Clone, PartialEq)]
pub struct Picture {
    pub width: u32,
    pub height: u32,
    pub pixels: Vec<u8>,
}

#[verifier::ext_equal]
pub ghost struct PictureModel {
    pub width: u32,
    pub height: u32,
    pub pixels: Seq<u8>,
}

impl View for Picture {
    type V = PictureModel;

    open spec fn view(&self) -> PictureModel {
        PictureModel { width: self.width, height: self.height, pixels: self.pixels@ }
    }
}

/// Whether bytes are the same as far as both have any.
pub open spec fn bytes_agree(a: Seq<u8>, b: Seq<u8>) -> bool {
    forall|i: int| 0 <= i < a.len() && i < b.len() ==> #[trigger] a[i] == b[i]
}

/// Whether two pictures are the same: of the same size, and with the same bytes as far as both have
/// any.
pub fn pixmaps_are_equal(first: &Picture, second: &Picture) -> (r: bool)
    ensures
        r == (first.width == second.width && first.height == second.height && bytes_agree(
            first.pixels@,
            second.pixels@,
        )),
{
    if first.width != second.width || first.height != second.height {
        return false;
    }
    let mut at: usize = 0;
    while at < first.pixels.len() && at < second.pixels.len()
        invariant
            at <= first.pixels@.len(),
            at <= second.pixels@.len(),
            forall|i: int| 0 <= i < at ==> #[trigger] first.pixels@[i] == second.pixels@[i],
        decreases first.pixels@.len() - at,
    {
        if first.pixels[at] != second.pixels[at] {
            return false;
        }
        at = at + 1;
    }
    true
}

/// What of a picture a layout is given: its size, its pixels where they are wanted, and whether they
/// are opaque.
#[derive(Debug, PartialEq)]
pub struct RasterizedImage {
    pub width: u32,
    pub height: u32,
    pub pixels: Option<Vec<u8>>,
    pub opaque: bool,
}

/// What a [`RasterizedImage`] holds.
pub struct RasterModel {
    pub width: u32,
    pub height: u32,
    pub pixels: Option<Seq<u8>>,
    pub opaque: bool,
}

impl View for RasterizedImage {
    type V = RasterModel;

    open spec fn view(&self) -> RasterModel {
        RasterModel {
            width: self.width,
            height: self.height,
            pixels: match self.pixels {
                Some(pixels) => Some(pixels@),
                None => None,
            },
            opaque: self.opaque,
        }
    }
}

pub open spec fn at_least_one(value: u32) -> u32 {
    if value > 0 {
        value
    } else {
        1
    }
}

/// What of a picture a layout is given. Pictures of some kinds are never seen through and never
/// vanish; the colours of one kind are still to be multiplied by their alpha.
pub open spec fn rasterized(kind: ImageData, width: u32, height: u32, pixels: Option<Seq<u8>>) -> RasterModel {
    match kind {
        ImageData::Png | ImageData::Svg => RasterModel {
            width,
            height,
            pixels,
            opaque: pixels matches Some(pixels) && is_opaque(pixels),
        },
        ImageData::WebP => {
            let pixels = match pixels {
                Some(pixels) => Some(premultiplied(pixels)),
                None => None,
            };
            RasterModel {
                width: at_least_one(width),
                height: at_least_one(height),
                pixels,
                opaque: pixels matches Some(pixels) && is_opaque(pixels),
            }
        },
        _ => RasterModel {
            width: at_least_one(width),
            height: at_least_one(height),
            pixels,
            opaque: true,
        },
    }
}

fn positive(value: u32) -> (r: u32)
    ensures
        r == at_least_one(value),
{
    if value > 0 {
        value
    } else {
        1
    }
}

/// What of a picture a layout is given. Its pixels are wanted where the layout is the final one.
pub fn finish_raster(kind: ImageData, width: u32, height: u32, pixels: Option<Vec<u8>>) -> (r:
    RasterizedImage)
    ensures
        r@ == rasterized(
            kind,
            width,
            height,
            match pixels {
                Some(pixels) => Some(pixels@),
                None => None,
            },
        ),
{
    match kind {
        ImageData::Png | ImageData::Svg => {
            let opaque = match &pixels {
                Some(pixels) => pixmap_is_opaque(pixels),
                None => false,
            };
            RasterizedImage { width, height, pixels, opaque }
        },
        ImageData::WebP => match pixels {
            Some(pixels) => {
                let mut pixels = pixels;
                premultiply(&mut pixels);
                let opaque = pixmap_is_opaque(&pixels);
                RasterizedImage {
                    width: positive(width),
                    height: positive(height),
                    pixels: Some(pixels),
                    opaque,
                }
            },
            None => RasterizedImage {
                width: positive(width),
                height: positive(height),
                pixels: None,
                opaque: false,
            },
        },
        _ => RasterizedImage {
            width: positive(width),
            height: positive(height),
            pixels,
            opaque: true,
        },
    }
}

/// What becomes of a picture that is read as it is painted.
#[derive(Debug, PartialEq)]
pub enum PngRaster {
    /// It is painted as it is.
    Whole(RasterizedImage),
    /// It has still to be scaled.
    Scale(Picture),
}

/// What a [`PngRaster`] holds.
#[verifier::ext_equal]
pub enum PngModel {
    Whole(RasterModel),
    Scale(u32, u32, Seq<u8>),
}

impl View for PngRaster {
    type V = PngModel;

    open spec fn view(&self) -> PngModel {
        match *self {
            PngRaster::Whole(raster) => PngModel::Whole(raster@),
            PngRaster::Scale(picture) => PngModel::Scale(
                picture.width,
                picture.height,
                picture.pixels@,
            ),
        }
    }
}

/// A picture is painted as it is where both its width and its height are wanted.
pub open spec fn fitted(
    picture: (u32, u32, Seq<u8>),
    wanted_width: Option<u32>,
    wanted_height: Option<u32>,
) -> PngModel {
    let (width, height, pixels) = picture;
    if wanted_width == Some(width) && wanted_height == Some(height) {
        PngModel::Whole(rasterized(ImageData::Png, width, height, Some(pixels)))
    } else {
        PngModel::Scale(width, height, pixels)
    }
}

/// What becomes of a picture of which a width and a height are wanted.
pub fn fit_png(picture: Picture, wanted_width: Option<u32>, wanted_height: Option<u32>) -> (r:
    PngRaster)
    ensures
        r@ == fitted(
            (picture.width, picture.height, picture.pixels@),
            wanted_width,
            wanted_height,
        ),
{
    match (wanted_width, wanted_height) {
        (Some(width), Some(height)) => if width == picture.width && height == picture.height {
            PngRaster::Whole(finish_raster(ImageData::Png, width, height, Some(picture.pixels)))
        } else {
            PngRaster::Scale(picture)
        },
        _ => PngRaster::Scale(picture),
    }
}

/// What becomes of a picture of which a width and a height are wanted; nothing where it cannot be
/// read.
pub fn rasterize_png(bytes: &Vec<u8>, wanted_width: Option<u32>, wanted_height: Option<u32>) -> (r:
    Option<PngRaster>)
    ensures
        match (r, decoded_png(bytes@)) {
            (Some(raster), Some(picture)) => raster@ == fitted(
                picture,
                wanted_width,
                wanted_height,
            ),
            (None, None) => true,
            _ => false,
        },
{
    match decode_png(bytes) {
        Some(picture) => Some(fit_png(picture, wanted_width, wanted_height)),
        None => None,
    }
}

/// The kind of data by the name that readers know it by; nothing for data that is read otherwise.
pub open spec fn reader_name(kind: ImageData) -> Option<Seq<char>> {
    match kind {
        ImageData::Jpeg => Some("image/jpeg"@),
        ImageData::Gif => Some("image/gif"@),
        ImageData::WebP => Some("image/webp"@),
        _ => None,
    }
}

fn get_reader_name(kind: ImageData) -> (r: Option<&'static str>)
    ensures
        match (r, reader_name(kind)) {
            (Some(name), Some(model)) => name@ == model,
            (None, None) => true,
            _ => false,
        },
{
    match kind {
        ImageData::Jpeg => Some("image/jpeg"),
        ImageData::Gif => Some("image/gif"),
        ImageData::WebP => Some("image/webp"),
        _ => None,
    }
}

/// The width and the height of a picture; nothing where it cannot be read.
pub fn picture_size(bytes: &Vec<u8>, kind: ImageData) -> (r: Option<(u32, u32)>)
    ensures
        r == (match reader_name(kind) {
            Some(name) => decoded_size(bytes@, name),
            None => None,
        }),
{
    match get_reader_name(kind) {
        Some(name) => read_size(bytes, name),
        None => None,
    }
}

/// Whether a picture can be read and, where `complete` is set, scaled to a size. An `i32` must count
/// the bytes of a row then.
pub open spec fn can_rasterize(
    bytes: Seq<u8>,
    kind: ImageData,
    width: u32,
    height: u32,
    complete: bool,
) -> bool {
    reader_name(kind) matches Some(name) && decoded_size(bytes, name) matches Some(from) && (complete
        ==> can_scale(from, width, height) && width * 4 <= i32::MAX)
}

/// What is handed to the reader of a picture: the name of its kind, and the width and the height that
/// the picture is scaled to.
#[derive(Debug, Clone, Copy, PartialEq)]
pub struct ScaleRequest {
    pub name: &'static str,
    pub width: u32,
    pub height: u32,
}

/// What is handed to the reader of a picture, which is scaled to at least one pixel each way; nothing
/// where there is no reader.
pub open spec fn scale_request(kind: ImageData, width: u32, height: u32) -> Option<
    (Seq<char>, u32, u32),
> {
    match reader_name(kind) {
        Some(name) => Some((name, at_least_one(width), at_least_one(height))),
        None => None,
    }
}

/// What is handed to the reader of a picture.
pub fn get_scale_request(kind: ImageData, width: u32, height: u32) -> (r: Option<ScaleRequest>)
    ensures
        match (r, scale_request(kind, width, height)) {
            (Some(request), Some(model)) => (request.name@, request.width, request.height) == model,
            (None, None) => true,
            _ => false,
        },
{
    match get_reader_name(kind) {
        Some(name) => Some(
            ScaleRequest { name, width: positive(width), height: positive(height) },
        ),
        None => None,
    }
}

/// Whether something is what the bytes of a picture come to in a size: with its scaled pixels where
/// `complete` is set, else without any. Pixels that were read as JPEG may be any of their number.
pub open spec fn is_raster(
    raster: RasterModel,
    bytes: Seq<u8>,
    kind: ImageData,
    width: u32,
    height: u32,
    complete: bool,
) -> bool {
    if complete {
        exists|pixels: Seq<u8>|
            pixels.len() == width * height * 4 && (kind is Gif || kind is WebP ==> pixels
                == scaled_pixels(bytes, reader_name(kind)->0, width, height)) && raster
                == #[trigger] rasterized(kind, width, height, Some(pixels))
    } else {
        raster == rasterized(kind, width, height, None)
    }
}

/// A picture scaled to a size, which is at least one pixel each way. [`finish_raster`] says what comes
/// of the pixels that the scaling gives.
pub fn rasterize_picture(bytes: &Vec<u8>, kind: ImageData, width: u32, height: u32, complete: bool) -> (r:
    Option<RasterizedImage>)
    ensures
        r is Some == can_rasterize(
            bytes@,
            kind,
            at_least_one(width),
            at_least_one(height),
            complete,
        ),
        r matches Some(raster) ==> is_raster(
            raster@,
            bytes@,
            kind,
            at_least_one(width),
            at_least_one(height),
            complete,
        ),
{
    let request = match get_scale_request(kind, width, height) {
        Some(request) => request,
        None => {
            return None;
        },
    };
    let name: &'static str = request.name;
    let w: u32 = request.width;
    let h: u32 = request.height;
    let (from_width, from_height): (u32, u32) = match read_size(bytes, name) {
        Some(size) => size,
        None => {
            return None;
        },
    };
    if !complete {
        return Some(finish_raster(kind, w, h, None));
    }
    proof {
        lemma_products(w, h);
        lemma_products(from_width, h);
    }
    let target: u128 = w as u128 * h as u128 * 4;
    let between: u128 = from_width as u128 * h as u128 * 16;
    let most: u128 = isize::MAX as u128;
    let same: bool = from_width == w && from_height == h;
    if target > most || w > i32::MAX as u32 / 4 {
        return None;
    }
    if !same && from_width > 0 && from_height > 0 && (between > most || !can_scale_side(from_width, w)
        || !can_scale_side(from_height, h)) {
        return None;
    }
    match read_scaled(bytes, name, w, h) {
        Some(pixels) => Some(finish_raster(kind, w, h, Some(pixels))),
        None => None,
    }
}

pub proof fn lemma_products(a: u32, b: u32)
    ensures
        0 <= a * b <= u32::MAX * u32::MAX,
        (a as u128) * (b as u128) == a * b,
{
    assert(0 <= a * b <= u32::MAX * u32::MAX) by (nonlinear_arith)
        requires
            0 <= a <= u32::MAX,
            0 <= b <= u32::MAX,
    ;
}

/// The style sheet that drawings are read with: what has the colour of the text around it is drawn
/// in that.
pub open spec fn svg_style_sheet(color: u32) -> Seq<char> {
    "svg { color: #"@ + hex_text(color as nat, 8) + " !important; fill: currentColor }"@
}

pub fn get_svg_style_sheet(color: u32) -> (r: String)
    ensures
        r@ == svg_style_sheet(color),
{
    let mut sheet = String::new();
    push_text(&mut sheet, "svg { color: #");
    push_hex(&mut sheet, color, 8);
    push_text(&mut sheet, " !important; fill: currentColor }");
    assert(sheet@ =~= svg_style_sheet(color));
    sheet
}

/// Whether a node is an image that stands in no document.
pub open spec fn is_detached_image(nodes: NodesModel, idx: usize) -> bool {
    node_at(nodes, idx) matches Some(NodeModel::Element { tag, attributes: _, parent }) && tag
        == "img"@ && parent is None
}

/// The numbers below `count` of images that stand in no document, in ascending order.
pub open spec fn detached_images(nodes: NodesModel, count: nat) -> Seq<usize>
    decreases count,
{
    if count == 0 {
        Seq::empty()
    } else {
        let before = detached_images(nodes, (count - 1) as nat);
        if is_detached_image(nodes, (count - 1) as usize) {
            before.push((count - 1) as usize)
        } else {
            before
        }
    }
}

/// The images that stand in no document: a page may wait for these too.
pub fn get_detached_images(nodes: &NodesTable) -> (r: Vec<usize>)
    ensures
        r@ == detached_images(nodes@, nodes@.len()),
{
    let mut list: Vec<usize> = Vec::new();
    let count: usize = nodes.data.len();
    let mut at: usize = 0;
    while at < count
        invariant
            at <= count,
            list@ == detached_images(nodes@, at as nat),
        decreases count - at,
    {
        match nodes.get(at) {
            Some(Node::Element(element)) => {
                if same_text(element.tag.as_str(), "img") && element.parent.is_none() {
                    list.push(at);
                }
            },
            _ => {},
        }
        at = at + 1;
    }
    list
}

} // verus!
