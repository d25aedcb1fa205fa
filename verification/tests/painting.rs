//! Colours, rectangles, pictures and canvases.
use browser::blit::{apply_pixmap_on_buffer, blit_rgb_buffer, clipped_blit, Pixmap};
use browser::boxes::{
    LayoutBox, LayoutKind, LayoutTable, Rect, RectBorder, RectBorderSide, StyleBackground,
    StyleBorderStyle,
};
use browser::canvas::{
    draw_image, rasterize_edge_spans, record_command, CanvasAction, CanvasBuffer, CanvasFillRule, CanvasPathCommand,
};
use browser::paint::{render_into, BoxFacts, PaintStyle, RenderOutcome, StylePosition};
use browser::pixel::{
    blend_rgb_with_rgba, multiply_coverage, rgb_to_premul_tuple, rgba_to_bytes,
    rgba_to_premul_tuple,
};
use browser::raster::{draw_rect_filled, BorderRadius, PaintClip};
use browser::stylesheet::{StylePointerEvents, StyleVisibility};
use browser::viewport::{
    compute_hovering, compute_intersections, get_hover_chain, get_scrollable_dimensions, PointerStyle,
};
use std::collections::HashSet;

fn square() -> BorderRadius {
    BorderRadius::new_empty()
}

fn layout_box(x: i32, y: i32, width: u32, height: u32, color: u32) -> LayoutBox {
    LayoutBox {
        rect: Rect {
            x,
            y,
            width,
            height,
            background: StyleBackground::Hex(color),
            border: RectBorder::new_empty(),
            border_radius: square(),
        },
        kind: LayoutKind::Element,
        children: Vec::new(),
        node_idx: 0,
        content_height: height,
        z_index: 0,
    }
}

fn plain() -> PaintStyle {
    PaintStyle {
        position: StylePosition::Static,
        has_z_index: false,
        translucent: false,
        transparent: false,
        has_transform: false,
        transform_x: 0,
        transform_y: 0,
        visible: true,
        clips_x: false,
        clips_y: false,
        accepts_pointer: true,
    }
}

#[test]
fn colours_are_taken_apart_and_blended() {
    assert_eq!(rgba_to_bytes(0x1122_3344), (0x11, 0x22, 0x33, 0x44));
    assert_eq!(rgb_to_premul_tuple(0x0011_2233), (0x11, 0x22, 0x33, 255));
    assert_eq!(rgba_to_premul_tuple(0xff00_0000 | 0x80), (128, 0, 0, 0x80));
    assert_eq!(multiply_coverage(255, 128), 128);
    assert_eq!(blend_rgb_with_rgba(0x00ff_ffff, (0, 0, 0, 255)), 0);
    assert_eq!(blend_rgb_with_rgba(0x0012_3456, (0, 0, 0, 0)), 0x0012_3456);
}

#[test]
fn rectangles_are_filled_inside_the_picture() {
    let mut buffer = vec![0u32; 16];
    draw_rect_filled(&mut buffer, false, 4, 4, -1, 1, 3, 2, 0x00ff_00ff, &square());
    let painted: Vec<usize> = (0..16).filter(|idx| buffer[*idx] != 0).collect();
    assert_eq!(painted, [4, 5, 8, 9]);
    assert_eq!(buffer[4], 0x0000_ff00);
    let clip = PaintClip::viewport(4, 4).intersect_x(1, 2);
    assert!(!clip.is_empty());
    assert!(clip.intersect_y(3, 3).is_empty());
}

#[test]
fn pictures_are_copied_inside_the_clip() {
    let clip = PaintClip::viewport(4, 4);
    let part = clipped_blit(4, 4, 3, 3, -1, 2, clip).unwrap();
    assert_eq!((part.src_x, part.src_y, part.dst_x, part.dst_y), (1, 0, 0, 2));
    assert_eq!((part.width, part.height), (2, 2));
    assert!(clipped_blit(4, 4, 3, 3, 4, 0, clip).is_none());
    let mut buffer = vec![0u32; 16];
    blit_rgb_buffer(&mut buffer, 4, 4, &[1, 2, 3, 4], 2, 2, 3, 3, clip);
    assert_eq!(buffer[15], 1);
    assert_eq!(buffer.iter().filter(|pixel| **pixel != 0).count(), 1);
    let pixmap = Pixmap { width: 1, height: 1, pixels: vec![0xff00_00ff] };
    apply_pixmap_on_buffer(1, 1, &mut buffer, 4, 4, 0, 0, &pixmap, true, clip);
    assert_ne!(buffer[0], 0);
}

#[test]
fn boxes_are_painted_in_their_order() {
    let mut buffer = vec![0u32; 16];
    let mut root = layout_box(0, 0, 4, 4, 0x1111_11ff);
    root.children = vec![1];
    let boxes = vec![layout_box(1, 1, 2, 2, 0x2222_22ff), root];
    let facts = vec![
        BoxFacts { style: Some(plain()), scroll_y: 0 },
        BoxFacts { style: Some(plain()), scroll_y: 0 },
    ];
    let outcome = render_into(
        &mut buffer,
        4,
        4,
        &boxes,
        &facts,
        &vec![2],
        &Vec::new(),
        &Vec::new(),
    );
    assert!(matches!(outcome, RenderOutcome::Rendered(nodes) if nodes.len() == 2));
    assert_eq!(buffer[0], 0x0011_1111);
    assert_eq!(buffer[5], 0x0022_2222);
}

#[test]
fn borders_come_from_styles() {
    let hex = StyleBackground::Hex(7);
    let side = RectBorderSide::parse_from_style(StyleBorderStyle::Solid, Some(2), hex, hex);
    assert_eq!(side, Some(RectBorderSide { size: 2, color: 7 }));
    let none = RectBorderSide::parse_from_style(StyleBorderStyle::Absent, Some(2), hex, hex);
    assert_eq!(none, None);
    let inherited = RectBorderSide::parse_from_style(
        StyleBorderStyle::Solid,
        Some(1),
        StyleBackground::CurrentColor,
        hex,
    );
    assert_eq!(inherited, Some(RectBorderSide { size: 1, color: 7 }));
}

#[test]
fn moving_a_box_moves_what_is_below_it() {
    let mut table = LayoutTable::new();
    let child = table.register_layout_box(layout_box(1, 1, 2, 2, 0), true);
    let mut parent = layout_box(0, 0, 4, 4, 0);
    parent.children = vec![child];
    parent.node_idx = 1;
    let id = table.register_layout_box(parent, true);
    assert!(table.move_entire_box(id, 10, -1));
    assert_eq!((table.boxes[0].rect.x, table.boxes[0].rect.y), (11, 0));
    assert_eq!((table.boxes[1].rect.x, table.boxes[1].rect.y), (10, -1));
    assert_eq!(table.layout_of_node(1), Some(id));
    assert!(!table.move_entire_box(id, i32::MAX, 0));
}

#[test]
fn canvases_carry_out_their_commands() {
    let mut canvas = CanvasBuffer::new(4, 4);
    canvas.record(CanvasPathCommand::FillRect { x: 0, y: 0, width: 2, height: 1 });
    canvas.record(CanvasPathCommand::BeginPath);
    canvas.record(CanvasPathCommand::PathElement { element: 8 });
    canvas.record(CanvasPathCommand::Fill { color: 9, fill_rule: CanvasFillRule::EvenOdd });
    canvas.record(CanvasPathCommand::ClearRect { x: 0, y: 0, width: 1, height: 1 });
    canvas.dirty = true;
    match canvas.update_if_needed() {
        Some(CanvasAction::Fill { path, transform, color, .. }) => {
            assert_eq!((path, transform, color), (vec![8], Vec::new(), 9));
        }
        _ => panic!("filling is handed out"),
    }
    assert_ne!(canvas.buffer[0], 0);
    assert!(canvas.dirty);
    assert!(canvas.update_if_needed().is_none());
    assert!(!canvas.dirty);
    assert_eq!(canvas.buffer[0], 0);
    assert_ne!(canvas.buffer[1], 0);
    canvas.resize_if_needed(2, 2);
    assert_eq!(canvas.buffer.len(), 4);
}

#[test]
fn images_are_wanted_once() {
    let mut canvas = CanvasBuffer::new(2, 2);
    canvas.record(CanvasPathCommand::DrawImage { image: 3, x: 0, y: 0 });
    canvas.record(CanvasPathCommand::Save);
    canvas.record(CanvasPathCommand::DrawImage { image: 1, x: 0, y: 0 });
    canvas.record(CanvasPathCommand::DrawImage { image: 3, x: 1, y: 0 });
    assert_eq!(canvas.get_pending_images(), [3, 1]);
}

#[test]
fn restoring_undoes_saving() {
    let mut canvas = CanvasBuffer::new(2, 2);
    canvas.record(CanvasPathCommand::Transform { matrix: 1 });
    canvas.record(CanvasPathCommand::Save);
    canvas.record(CanvasPathCommand::Transform { matrix: 2 });
    canvas.record(CanvasPathCommand::Restore);
    assert!(canvas.update_buffer().is_none());
    assert_eq!(canvas.state.transform, [1]);
    assert!(canvas.state_stack.is_empty());
}

#[test]
fn edges_become_spans() {
    let spans = rasterize_edge_spans(&vec![vec![], vec![1, 3]], CanvasFillRule::EvenOdd, 8);
    assert!(spans.iter().all(|span| span.y == 1));
    let mut canvas = CanvasBuffer::new(4, 2);
    canvas.blend_pixel(0, 0, (255, 0, 0, 255), 255);
    assert_ne!(canvas.buffer[0], 0);
    canvas.clear_rect(0, 0, 4, 2);
    assert!(canvas.buffer.iter().all(|pixel| *pixel == 0));
    canvas.draw_stroke(&vec![(1, 1)], 0x00ff_00ff);
    assert_ne!(canvas.buffer[5], 0);
}

#[test]
fn the_topmost_box_is_under_the_pointer() {
    let mut buffer = vec![0u32; 100];
    let mut root = layout_box(0, 0, 10, 10, 0x1111_11ff);
    root.children = vec![1];
    root.node_idx = 1;
    let mut table = LayoutTable::new();
    let child = table.register_layout_box(layout_box(2, 2, 3, 3, 0x2222_22ff), true);
    let id = table.register_layout_box(root, true);
    let facts = vec![
        BoxFacts { style: Some(plain()), scroll_y: 0 },
        BoxFacts { style: Some(plain()), scroll_y: 0 },
    ];
    let rendered = match render_into(
        &mut buffer,
        10,
        10,
        &table.boxes,
        &facts,
        &vec![id],
        &Vec::new(),
        &Vec::new(),
    ) {
        RenderOutcome::Rendered(rendered) => rendered,
        _ => panic!("everything is in range"),
    };
    let shown = PointerStyle {
        pointer_events: StylePointerEvents::Auto,
        visibility: StyleVisibility::Visible,
    };
    let styles = vec![Some(shown), Some(shown)];
    assert_eq!(compute_hovering(&rendered, &table, &styles, 3, 3), Some(child));
    assert_eq!(compute_hovering(&rendered, &table, &styles, 8, 8), Some(id));
    assert_eq!(compute_hovering(&rendered, &table, &styles, 11, 3), None);
    let mut seen = HashSet::new();
    let (entered, left) = compute_intersections(&table, &rendered, 10, 10, &vec![0, 1], &mut seen);
    assert_eq!((entered, left), (vec![0, 1], Vec::new()));
    let (entered, left) = compute_intersections(&table, &rendered, 10, 10, &vec![0, 1], &mut seen);
    assert!(entered.is_empty() && left.is_empty());
}

#[test]
fn the_page_scrolls_where_nothing_else_does() {
    let mut table = LayoutTable::new();
    let mut root = layout_box(0, 0, 10, 10, 0);
    root.content_height = 50;
    let id = table.register_layout_box(root, true);
    let nodes = browser::dom::NodesTable::new_from_nodes(Vec::new());
    let found = get_scrollable_dimensions(&nodes, &table, &vec![false], None, &vec![id], 20).unwrap();
    assert_eq!((found.node_idx, found.content_height, found.shown_height), (0, 50, 20));
    assert!(get_scrollable_dimensions(&nodes, &table, &vec![false], None, &Vec::new(), 20).is_none());
}

#[test]
fn what_is_hovered_reaches_up() {
    let mut parser = browser::html::HtmlParser::new("<div><p></p></div>".to_string());
    assert_eq!(parser.parse(), Ok(()));
    let nodes = browser::dom::NodesTable::new_from_nodes(parser.nodes);
    let mut table = LayoutTable::new();
    let mut inner = layout_box(0, 0, 4, 4, 0);
    inner.node_idx = (0..nodes.data.len()).find(|idx| nodes.parent(*idx).is_some()).unwrap();
    let place = inner.node_idx;
    let id = table.register_layout_box(inner, true);
    let chain = get_hover_chain(&nodes, &table, Some(id));
    assert_eq!(chain[0], place);
    assert_eq!(chain[1], nodes.parent(place).unwrap());
    assert_eq!(get_hover_chain(&nodes, &table, None), Vec::<usize>::new());
}

#[test]
fn a_canvas_takes_the_size_of_its_node() {
    let mut parser = browser::html::HtmlParser::new(
        "<div><canvas width=\"3\" height=\"2\">t</canvas><img></div>".to_string(),
    );
    assert_eq!(parser.parse(), Ok(()));
    let nodes = browser::dom::NodesTable::new_from_nodes(parser.nodes);
    let place = |tag: &str| {
        (0..nodes.data.len())
            .find(|idx| {
                matches!(nodes.get(*idx), Some(browser::dom::Node::Element(element)) if element.tag == tag)
            })
            .unwrap()
    };
    let (element, image) = (place("canvas"), place("img"));
    let text = (0..nodes.data.len())
        .find(|idx| matches!(nodes.get(*idx), Some(browser::dom::Node::Text(_))))
        .unwrap();
    let mut canvas = CanvasBuffer::new(1, 1);
    assert!(!record_command(&nodes, text, &mut canvas, CanvasPathCommand::Save));
    assert_eq!((canvas.width, canvas.commands.len()), (1, 0));
    assert!(record_command(&nodes, element, &mut canvas, CanvasPathCommand::Save));
    assert_eq!((canvas.width, canvas.height, canvas.commands.len()), (3, 2, 1));
    let none = (None, None);
    assert!(draw_image(&nodes, element, &mut canvas, image, 5, (1, 1), none));
    assert!(!draw_image(&nodes, element, &mut canvas, 99, 5, (1, 1), none));
    assert!(!draw_image(&nodes, element, &mut canvas, image, 5, (1, 1), (Some(2), None)));
    assert_eq!(canvas.commands.len(), 2);
    assert_eq!(canvas.get_pending_images(), [5]);
}

#[test]
fn an_outline_may_have_a_width_that_counts_as_negative() {
    let mut canvas = CanvasBuffer::new(2, 1);
    // The right edge stands at `0 - 1 - 1`.
    canvas.stroke_rect(0, 0, u32::MAX, 1, 1);
    assert_ne!(canvas.buffer[0], 0);
    assert_ne!(canvas.buffer[1], 0);
}
