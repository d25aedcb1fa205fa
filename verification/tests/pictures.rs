//! Pictures: what they hold, where they come from, how they are read.
use browser::dom::{Attributes, Element, Node, NodesTable};
use browser::images::{
    can_scale_side, finish_raster, get_detached_images, get_scale_request, get_svg_style_sheet,
    image_data_kind, image_source, img_src_extension,
    inject_css_variables_into_str, normalize_svg, picture_size, pixmap_is_opaque,
    pixmaps_are_equal, premultiply, rasterize_picture, rasterize_png, resolve_background_data_url,
    sniff_image_data, ImageCache, ImageData, ImageSource, Picture, PngRaster, ScaleRequest,
    SniffedImage,
};
use browser::snapshots::{ensure_snapshot_matches, get_snapshot_path, SnapshotOutcome};

/// A red pixel, and a green one that is half transparent.
fn png() -> Vec<u8> {
    vec![
        137, 80, 78, 71, 13, 10, 26, 10, 0, 0, 0, 13, 73, 72, 68, 82, 0, 0, 0, 2, 0, 0, 0, 1, 8,
        6, 0, 0, 0, 244, 34, 127, 138, 0, 0, 0, 15, 73, 68, 65, 84, 120, 156, 99, 248, 207, 192,
        240, 31, 8, 27, 0, 16, 121, 3, 126, 125, 99, 206, 215, 0, 0, 0, 0, 73, 69, 78, 68, 174, 66,
        96, 130,
    ]
}

/// A red pixel.
fn gif() -> Vec<u8> {
    vec![
        71, 73, 70, 56, 57, 97, 1, 0, 1, 0, 128, 0, 0, 255, 0, 0, 0, 0, 0, 44, 0, 0, 0, 0, 1, 0, 1,
        0, 0, 2, 2, 68, 1, 0, 59,
    ]
}

fn element(tag: &str, name: &str, value: &str) -> Element {
    let mut attributes = Attributes::new();
    attributes.insert(name.to_string(), value.to_string());
    Element { tag: tag.to_string(), attributes, parent: None }
}

#[test]
fn data_is_told_by_its_start() {
    assert_eq!(sniff_image_data(png()), Some(SniffedImage::Png));
    assert_eq!(sniff_image_data(b"RIFF....WEBPVP8 ".to_vec()), Some(SniffedImage::WebP));
    assert_eq!(sniff_image_data(vec![0xff, 0xd8, 0xff, 0]), Some(SniffedImage::Jpeg));
    assert_eq!(sniff_image_data(b"GIF89a".to_vec()), Some(SniffedImage::Gif));
    assert_eq!(
        sniff_image_data(b" <svg/>".to_vec()),
        Some(SniffedImage::Svg(" <svg/>".to_string()))
    );
    assert_eq!(sniff_image_data(b"text".to_vec()), None);
    assert_eq!(sniff_image_data(vec![0xc3, 0x28]), None);
}

#[test]
fn data_is_told_by_its_type() {
    assert_eq!(image_data_kind(Some("image/png"), "jpeg"), ImageData::Png);
    assert_eq!(image_data_kind(Some("text/html"), "png"), ImageData::Unsupported);
    let named = img_src_extension("a/b.png").unwrap();
    assert_eq!(image_data_kind(None, named), ImageData::Png);
    assert_eq!(img_src_extension("a/b.txt"), None);
}

#[test]
fn pictures_are_decoded_and_scaled() {
    let bytes = gif();
    assert_eq!(picture_size(&bytes, ImageData::Gif), Some((1, 1)));
    assert_eq!(picture_size(&bytes, ImageData::Jpeg), None);
    let same = rasterize_picture(&bytes, ImageData::Gif, 1, 1, true).unwrap();
    assert_eq!((same.width, same.height, same.opaque), (1, 1, true));
    assert_eq!(same.pixels, Some(vec![255, 0, 0, 255]));
    let sketch = rasterize_picture(&bytes, ImageData::Gif, 4, 0, false).unwrap();
    assert_eq!((sketch.width, sketch.height, sketch.pixels), (4, 1, None));
    let larger = rasterize_picture(&bytes, ImageData::Gif, 2, 1, true).unwrap();
    assert_eq!(larger.pixels, Some(vec![255, 0, 0, 255, 255, 0, 0, 255]));
    assert_eq!(rasterize_picture(&vec![1, 2, 3], ImageData::Gif, 2, 1, true), None);
    assert_eq!(rasterize_picture(&bytes, ImageData::Unsupported, 2, 1, true), None);
}

#[test]
fn pictures_of_the_wanted_size_are_painted_as_they_are() {
    let bytes = png();
    match rasterize_png(&bytes, Some(2), Some(1)) {
        Some(PngRaster::Whole(raster)) => {
            assert_eq!((raster.width, raster.height, raster.opaque), (2, 1, false));
            assert_eq!(raster.pixels, Some(vec![255, 0, 0, 255, 0, 128, 0, 128]));
        }
        other => panic!("{other:?}"),
    }
    assert!(matches!(
        rasterize_png(&bytes, Some(2), None),
        Some(PngRaster::Scale(Picture { width: 2, height: 1, .. }))
    ));
    assert!(rasterize_png(&gif(), Some(1), Some(1)).is_none());
    let drawn = finish_raster(ImageData::Png, 0, 5, Some(vec![1, 2, 3, 255]));
    assert_eq!((drawn.width, drawn.height, drawn.opaque), (0, 5, true));
    assert!(!finish_raster(ImageData::Svg, 1, 1, None).opaque);
}

#[test]
fn colours_are_multiplied_by_their_alpha() {
    let mut pixels = vec![255, 100, 0, 128, 9];
    premultiply(&mut pixels);
    assert_eq!(pixels, [128, 50, 0, 128, 9]);
    assert!(!pixmap_is_opaque(&pixels));
    assert!(pixmap_is_opaque(&vec![1, 2, 3, 255]));
    let raster = finish_raster(ImageData::WebP, 0, 1, Some(vec![255, 100, 0, 128]));
    assert_eq!((raster.width, raster.height, raster.opaque), (1, 1, false));
    assert_eq!(raster.pixels, Some(vec![128, 50, 0, 128]));
    let one = Picture { width: 1, height: 1, pixels: vec![1, 2, 3, 4] };
    let other = Picture { width: 1, height: 1, pixels: vec![1, 2, 3, 5] };
    assert!(pixmaps_are_equal(&one, &one.clone()));
    assert!(!pixmaps_are_equal(&one, &other));
}

#[test]
fn written_out_pictures_are_decoded() {
    let variables = vec![("--c".to_string(), "red".to_string())];
    assert_eq!(
        resolve_background_data_url("image/svg+xml", "%3Csvg fill='var(--c)'/%3E", &variables),
        Some("<svg fill='red'/>".to_string())
    );
    assert_eq!(resolve_background_data_url("image/svg+xml", "%ff", &variables), None);
    assert_eq!(resolve_background_data_url("image/png", "a", &variables), None);
    assert_eq!(inject_css_variables_into_str("var(--d)", &variables), "var(--d)");
    assert_eq!(normalize_svg("<svg viewbox='0'>"), "<svg viewBox='0'>");
    assert_eq!(
        image_source(&element("img", "src", "data:image/svg+xml,%3Csvg/%3E"), &variables),
        Some(ImageSource::InlineSvg("<svg/>".to_string()))
    );
    assert_eq!(image_source(&element("img", "src", "data:image/png,a"), &variables), None);
    assert_eq!(
        image_source(&element("video", "poster", "p.png"), &variables),
        Some(ImageSource::Fetched("p.png".to_string()))
    );
    assert_eq!(
        image_source(&element("img", "src", "blob:x"), &variables),
        Some(ImageSource::Blob("blob:x".to_string()))
    );
    assert_eq!(image_source(&element("img", "alt", "x"), &variables), None);
}

#[test]
fn images_are_fetched_once() {
    let mut parser = browser::html::HtmlParser::new(
        "<html><body><img src=\"a.png\"><img src=\"a.png\"><img src=\"b.txt\"></body></html>".to_string(),
    );
    assert_eq!(parser.parse(), Ok(()));
    let nodes = browser::dom::NodesTable::new_from_nodes(parser.nodes);
    let shown = vec![true; nodes.data.len()];
    let mut cache = ImageCache::new();
    let wanted = cache.prefetch_images(&nodes, &shown, "https://a.test/x/");
    assert_eq!(wanted.len(), 1);
    assert_eq!(wanted[0].0, "https://a.test/x/a.png");
    assert!(cache.prefetch_images(&nodes, &shown, "https://a.test/x/").is_empty());
    assert_eq!(cache.get_img_src_data("https://a.test/x/", "a.png"), None);
    cache.finish_image("https://a.test/x/a.png".to_string(), ImageData::Png);
    assert_eq!(
        cache.get_img_src_data("https://a.test/x/", "a.png"),
        Some(("https://a.test/x/a.png".to_string(), ImageData::Png))
    );
    assert!(cache.prefetch_images(&nodes, &shown, "https://a.test/x/").is_empty());
}

#[test]
fn images_without_a_parent_are_detached() {
    let mut attached = element("img", "src", "a");
    attached.parent = Some(2);
    let nodes = NodesTable::new_from_nodes(vec![
        Node::Element(element("img", "src", "b")),
        Node::Element(attached),
        Node::Element(element("p", "id", "c")),
        Node::Element(element("img", "src", "d")),
    ]);
    assert_eq!(get_detached_images(&nodes), [0, 3]);
}

#[test]
fn a_page_is_compared_with_its_picture() {
    let page = vec![0xff0000, 0x0000ff];
    let stored = Picture { width: 2, height: 1, pixels: vec![255, 0, 0, 255, 0, 0, 255, 255] };
    let other = Picture { width: 2, height: 1, pixels: vec![255, 0, 0, 255, 0, 0, 254, 255] };
    let turned = Picture { width: 1, height: 2, pixels: stored.pixels.clone() };
    let compare = |page: &Vec<u32>, width: u32, height: u32, stored: Option<&Picture>| {
        let (outcome, written) = ensure_snapshot_matches(page, "a", width, height, stored);
        (outcome, written.map(|snapshot| snapshot.path))
    };
    let invalid = Some("snapshots/a.invalid.png".to_string());
    assert_eq!(compare(&page, 2, 1, Some(&stored)), (SnapshotOutcome::Matches, None));
    assert_eq!(compare(&page, 2, 1, Some(&other)), (SnapshotOutcome::Invalid, invalid.clone()));
    assert_eq!(compare(&page, 2, 1, Some(&turned)), (SnapshotOutcome::Invalid, invalid));
    assert_eq!(compare(&page, 3, 1, None), (SnapshotOutcome::NoPicture, None));
    assert_eq!(compare(&Vec::new(), 0, 1, None), (SnapshotOutcome::NoPicture, None));
}

#[test]
fn a_page_without_a_picture_becomes_it() {
    let page = vec![0xff0000, 0x0000ff];
    let (outcome, written) = ensure_snapshot_matches(&page, "a", 2, 1, None);
    let written = written.unwrap();
    assert_eq!(outcome, SnapshotOutcome::Created);
    assert_eq!(written.path, get_snapshot_path("a"));
    assert_eq!(written.path, "snapshots/a.png");
    assert_eq!(written.picture.pixels, [255, 0, 0, 255, 0, 0, 255, 255]);
    let again = ensure_snapshot_matches(&page, "a", 2, 1, Some(&written.picture));
    assert_eq!(again, (SnapshotOutcome::Matches, None));
}

#[test]
fn samples_that_no_pixel_reaches_are_not_scaled() {
    assert!(can_scale_side(5_000_000, 4_000_000));
    assert!(can_scale_side(65_535, 0x1fff_ffff));
    assert!(can_scale_side(1, 300));
    assert!(can_scale_side(0x100_0000, 1));
    assert!(!can_scale_side(8_388_578, 10_000_000));
    assert!(!can_scale_side(8_388_610, 0x1fff_ffff));
    assert!(!can_scale_side(0x100_0001, 1));
}

#[test]
fn pictures_are_read_by_the_name_of_their_kind() {
    assert_eq!(
        get_scale_request(ImageData::Gif, 3, 0),
        Some(ScaleRequest { name: "image/gif", width: 3, height: 1 })
    );
    assert_eq!(
        get_scale_request(ImageData::WebP, 0, 7),
        Some(ScaleRequest { name: "image/webp", width: 1, height: 7 })
    );
    assert_eq!(
        get_scale_request(ImageData::Jpeg, 3, 2),
        Some(ScaleRequest { name: "image/jpeg", width: 3, height: 2 })
    );
    assert_eq!(get_scale_request(ImageData::Unsupported, 3, 2), None);
}

#[test]
fn scaling_mixes_pixels() {
    // A red pixel and a blue one.
    let bytes: Vec<u8> = vec![
        71, 73, 70, 56, 57, 97, 2, 0, 1, 0, 128, 0, 0, 255, 0, 0, 0, 0, 255, 44, 0, 0, 0, 0, 2, 0,
        1, 0, 0, 2, 2, 68, 10, 0, 59,
    ];
    let same = rasterize_picture(&bytes, ImageData::Gif, 2, 1, true).unwrap();
    assert_eq!(same.pixels, Some(vec![255, 0, 0, 255, 0, 0, 255, 255]));
    let smaller = rasterize_picture(&bytes, ImageData::Gif, 1, 1, true).unwrap();
    assert_eq!(smaller.pixels, Some(vec![128, 0, 128, 255]));
}

#[test]
fn drawings_take_the_colour_of_the_text() {
    assert_eq!(
        get_svg_style_sheet(0x0a1b_2cff),
        "svg { color: #0A1B2CFF !important; fill: currentColor }"
    );
}

#[test]
fn the_bytes_of_a_row_are_counted() {
    let size = |raster: Option<browser::images::RasterizedImage>| {
        raster.map(|raster| (raster.width, raster.height))
    };
    assert_eq!(size(rasterize_picture(&gif(), ImageData::Gif, 300, 200, true)), Some((300, 200)));
    let width = 0x2000_0000;
    assert_eq!(size(rasterize_picture(&gif(), ImageData::Gif, width, 1, true)), None);
    let unread = rasterize_picture(&gif(), ImageData::Gif, width, 1, false);
    assert_eq!(size(unread), Some((width, 1)));
}
