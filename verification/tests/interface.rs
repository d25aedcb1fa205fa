//! The bar above the page.
use browser::header::{build_header, page_size, HEADER_HEIGHT};
use browser::blit::Pixmap;
use browser::ui::{JustifyContent, Typeable, UiBuilder, UiError};
use browser::ui_layout::{TextSize, UiBoxKind};
use browser::ui_runtime::{Key, UiRuntime};

fn text_size(width: u32) -> Option<TextSize> {
    Some(TextSize { width, height: 10, image: 0 })
}

#[test]
fn elements_are_built_inside_each_other() {
    let mut builder = UiBuilder::new(100, 50);
    assert_eq!(builder.bg(0), Err(UiError::NoElement));
    builder.start_element();
    assert_eq!(builder.justify(JustifyContent::Center), Err(UiError::NotHorizontal));
    assert_eq!(builder.hor(), Ok(()));
    assert_eq!(builder.justify(JustifyContent::Center), Ok(()));
    assert_eq!(builder.width(100), Ok(()));
    assert_eq!(builder.height(50), Ok(()));
    builder.start_element();
    assert_eq!(builder.width(20), Ok(()));
    assert_eq!(builder.height(10), Ok(()));
    assert_eq!(builder.finish_element(), Ok(()));
    assert_eq!(builder.finish_element(), Ok(()));
    assert_eq!(builder.finish_element(), Err(UiError::NoElement));
    let boxes = builder.layout(&vec![None, None]).unwrap();
    assert_eq!(boxes.len(), 2);
    assert_eq!((boxes[0].x, boxes[0].width), (0, 100));
    assert_eq!((boxes[1].x, boxes[1].width), (40, 20));
    assert!(matches!(boxes[0].kind, UiBoxKind::Element));
}

#[test]
fn a_text_needs_its_size() {
    let mut builder = UiBuilder::new(100, 50);
    builder.start_element();
    assert_eq!(builder.text("hi".to_string()), Ok(()));
    assert_eq!(builder.finish_element(), Ok(()));
    assert_eq!(builder.layout(&vec![None, None]), Err(UiError::NoText));
    let boxes = builder.layout(&vec![None, text_size(12)]).unwrap();
    assert!(boxes.iter().any(|ui_box| ui_box.width == 12 && ui_box.height == 10));
    let empty = UiBuilder::new(1, 1);
    assert_eq!(empty.layout(&Vec::new()), Err(UiError::Empty));
}

#[test]
fn typing_and_taking_back() {
    let mut runtime = UiRuntime::new_empty(40, 20);
    runtime.builder.start_element();
    assert_eq!(runtime.builder.width(40), Ok(()));
    assert_eq!(runtime.builder.height(20), Ok(()));
    let typeable = Typeable {
        text: "a".to_string(),
        color: 0,
        on_input: Some(1),
        on_enter: Some(2),
    };
    assert_eq!(runtime.builder.typeable(typeable), Ok(()));
    assert_eq!(runtime.builder.on_click(5), Ok(()));
    assert_eq!(runtime.builder.finish_element(), Ok(()));
    assert_eq!(runtime.rerender(&vec![text_size(4)], &Vec::new()), Ok(()));
    assert_eq!(runtime.buffer.len(), 800);
    runtime.apply_hovering(3, 3);
    assert_eq!(runtime.on_click(), [5]);
    let typed = runtime.on_keyup(Key::Other, Some("b")).unwrap();
    assert_eq!(typed.on_input, Some(1));
    let back = runtime.on_keyup(Key::Backspace, Some("")).unwrap();
    assert_eq!(back.on_input, Some(1));
    let enter = runtime.on_keyup(Key::Enter, Some("")).unwrap();
    assert_eq!(enter.on_enter, Some(2));
    match &runtime.builder.nodes[0] {
        browser::ui::Node::Element(element) => {
            assert_eq!(element.typeable.as_ref().unwrap().text, "a");
        }
        _ => panic!("an element was built"),
    }
}

#[test]
fn the_page_lies_below_the_header() {
    assert_eq!(page_size(800, 600), (800, 600 - HEADER_HEIGHT));
    let mut builder = UiBuilder::new(800, HEADER_HEIGHT);
    build_header(&mut builder, 2, None, "https://a.test/");
    assert!(!builder.nodes.is_empty());
}

#[test]
fn renders() {
    let mut runtime = UiRuntime::new_empty(1920, 1080);
    let builder = &mut runtime.builder;
    builder.start_element();
    assert_eq!(builder.bg(0x00_FF_00_FF), Ok(()));
    assert_eq!(builder.width(1920), Ok(()));
    assert_eq!(builder.height(1080), Ok(()));

    builder.start_element();
    assert_eq!(builder.bg(0xFF_00_00_FF), Ok(()));
    assert_eq!(builder.padding(50), Ok(()));
    assert_eq!(builder.height(200), Ok(()));
    assert_eq!(builder.width(200), Ok(()));
    assert_eq!(builder.text("Hi there".to_string()), Ok(()));
    assert_eq!(builder.finish_element(), Ok(()));

    assert_eq!(builder.finish_element(), Ok(()));

    let blank = Pixmap { width: 60, height: 10, pixels: vec![0; 600] };
    assert_eq!(runtime.rerender(&vec![None, None, text_size(60)], &vec![blank]), Ok(()));
    assert_eq!(runtime.buffer.len(), 1920 * 1080);
    let pixel = |x: usize, y: usize| runtime.buffer[y * 1920 + x];
    assert_eq!(pixel(0, 0), 0x00_FF_00_00);
    assert_eq!(pixel(199, 199), 0x00_FF_00_00);
    assert_eq!(pixel(1919, 1079), 0x00_00_FF_00);
    assert_eq!(pixel(400, 0), 0x00_00_FF_00);
    assert_eq!(pixel(0, 400), 0x00_00_FF_00);
}
