//! Layout from nodes with styles to boxes.
use browser::boxes::{LayoutKind, StyleBackground, StyleBorderStyle};
use browser::calc::{CalcError, Share, SizeTerm};
use browser::flex::{StyleFlexDirection, StyleJustifyContent};
use browser::layout::build_layout;
use browser::layout_state::LayoutState;
use browser::lengths::{
    Borders, Corners, InputValue, LayoutInput, LayoutNode, LayoutStyle, Shape, Sides, Stop,
    StyleBorder, TrackLength, TrackStyle,
};
use browser::margins::StyleAlign;
use browser::needs::{Answer, Answers, Drawn, FlexTarget, Need};
use browser::paint::StylePosition;
use browser::shapes::{collapse_whitespace, get_canvas_wh, get_layout_input, shape_of};
use browser::sizing::Size;
use browser::stylesheet::{StyleDisplay, StyleZIndex};

fn zero_sides() -> Sides {
    Sides {
        left: SizeTerm::Px(0),
        right: SizeTerm::Px(0),
        top: SizeTerm::Px(0),
        bottom: SizeTerm::Px(0),
    }
}

fn auto_sides() -> Sides {
    Sides {
        left: SizeTerm::Auto,
        right: SizeTerm::Auto,
        top: SizeTerm::Auto,
        bottom: SizeTerm::Auto,
    }
}

fn border() -> StyleBorder {
    StyleBorder {
        style: StyleBorderStyle::Absent,
        size: SizeTerm::Px(0),
        color: StyleBackground::CurrentColor,
    }
}

fn style(display: StyleDisplay) -> LayoutStyle {
    LayoutStyle {
        font_size: 16,
        display,
        position: StylePosition::Static,
        width: SizeTerm::Auto,
        height: SizeTerm::Auto,
        min_width: SizeTerm::Auto,
        max_width: SizeTerm::Auto,
        min_height: SizeTerm::Auto,
        max_height: SizeTerm::Auto,
        padding: zero_sides(),
        margin: zero_sides(),
        border: Borders { left: border(), right: border(), top: border(), bottom: border() },
        border_radius: Corners {
            top_left: SizeTerm::Px(0),
            top_right: SizeTerm::Px(0),
            bottom_right: SizeTerm::Px(0),
            bottom_left: SizeTerm::Px(0),
        },
        inset: auto_sides(),
        gap: SizeTerm::Px(0),
        flex_basis: SizeTerm::Auto,
        flex_direction: StyleFlexDirection::Row,
        justify_content: StyleJustifyContent::FlexStart,
        justify_items: StyleJustifyContent::Stretch,
        align_items: StyleJustifyContent::Stretch,
        align_self: StyleJustifyContent::Auto,
        order: 0,
        flex_shrink: 1,
        flex_grow: 0,
        grid_template_columns: None,
        grid_template_rows: None,
        grid_column_span: 1,
        z_index: StyleZIndex::Auto,
        text_align: StyleAlign::Left,
        background: StyleBackground::Transparent,
        color: StyleBackground::Hex(0x0000_00ff),
    }
}

fn sized(display: StyleDisplay, width: i32, height: i32) -> LayoutStyle {
    LayoutStyle { width: SizeTerm::Px(width), height: SizeTerm::Px(height), ..style(display) }
}

fn element(parent: Option<usize>, children: &[usize], style: LayoutStyle) -> LayoutNode {
    LayoutNode {
        shape: Shape::Element(InputValue::Absent),
        parent,
        children: children.to_vec(),
        style: Some(style),
    }
}

fn input(nodes: Vec<LayoutNode>) -> LayoutInput {
    LayoutInput {
        nodes,
        root: 0,
        window: Size { width: 200, height: 100 },
        blank_image: 99,
    }
}

/// Lays out a document, and answers what layout needs: a text is 30 wide and 10 high, a picture
/// 20 wide and 8 high.
fn lay_out(input: &LayoutInput) -> Result<(LayoutState, Option<usize>), Stop> {
    let mut answers = Answers::new();
    loop {
        match build_layout(input, &answers, 200, 100) {
            Err(Stop::Need(need)) => {
                assert_eq!(answers.find(need), None);
                let answer = match need {
                    Need::Text { .. } => Answer::Drawn(Some(Drawn {
                        image: 1,
                        opaque: false,
                        width: 30,
                        height: 10,
                    })),
                    Need::Picture { node_idx: 1, .. } => Answer::Drawn(None),
                    Need::Picture { .. } | Need::Background { .. } => {
                        Answer::Drawn(Some(Drawn {
                            image: 2,
                            opaque: true,
                            width: 20,
                            height: 8,
                        }))
                    }
                    Need::Fraction { space, fraction, total } => Answer::Number(
                        (space as f32 * (fraction as f32 / total as f32)) as i32,
                    ),
                    Need::Shrink { base, overflow, scaled, scaled_total, max, margin } => {
                        let reduction = overflow as f32 * scaled as f32 / scaled_total as f32;
                        target((base as f32 - reduction).max(0.).min(max as f32), margin)
                    }
                    Need::Grow { base, left, grow, grow_total, max, margin } => target(
                        (base as f32 + left as f32 * (grow as f32 / grow_total as f32))
                            .min(max as f32),
                        margin,
                    ),
                };
                answers.tell(need, answer);
            }
            other => return other,
        }
    }
}

fn target(size: f32, margin: i32) -> Answer {
    Answer::Target(FlexTarget {
        size: size as u32,
        outer: (size + margin as f32).max(0.).round() as u32,
    })
}

/// The place and size of the box of a node.
fn place(state: &LayoutState, node_idx: usize) -> (i32, i32, u32, u32) {
    let id = state.table.layout_of_node(node_idx).unwrap();
    let rect = state.rect_of(id);
    (rect.x, rect.y, rect.width, rect.height)
}

#[test]
fn blocks_stand_below_each_other() {
    let input = input(vec![
        element(None, &[1, 2], style(StyleDisplay::Block)),
        element(Some(0), &[], sized(StyleDisplay::Block, 50, 20)),
        element(
            Some(0),
            &[],
            LayoutStyle {
                margin: Sides { top: SizeTerm::Px(5), ..zero_sides() },
                ..sized(StyleDisplay::Block, 50, 10)
            },
        ),
    ]);
    let (state, root) = lay_out(&input).unwrap_or_else(|stop| panic!("{stop:?}"));
    assert_eq!(root, Some(3));
    assert_eq!(place(&state, 0), (0, 0, 200, 35));
    assert_eq!(place(&state, 1), (0, 0, 50, 20));
    assert_eq!(place(&state, 2), (0, 25, 50, 10));
}

#[test]
fn inline_boxes_wrap() {
    let nodes = vec![
        element(None, &[1, 2, 3], style(StyleDisplay::Block)),
        element(Some(0), &[], sized(StyleDisplay::InlineBlock, 90, 20)),
        element(Some(0), &[], sized(StyleDisplay::InlineBlock, 90, 30)),
        element(Some(0), &[], sized(StyleDisplay::InlineBlock, 90, 10)),
    ];
    let (state, _) = lay_out(&input(nodes)).unwrap_or_else(|stop| panic!("{stop:?}"));
    assert_eq!(place(&state, 1), (0, 0, 90, 20));
    assert_eq!(place(&state, 2), (90, 0, 90, 30));
    assert_eq!(place(&state, 3), (0, 30, 90, 10));
}

#[test]
fn automatic_margins_centre() {
    let nodes = vec![
        element(None, &[1], style(StyleDisplay::Block)),
        element(
            Some(0),
            &[],
            LayoutStyle {
                margin: Sides {
                    left: SizeTerm::Auto,
                    right: SizeTerm::Auto,
                    ..zero_sides()
                },
                ..sized(StyleDisplay::InlineBlock, 60, 10)
            },
        ),
    ];
    let (state, _) = lay_out(&input(nodes)).unwrap_or_else(|stop| panic!("{stop:?}"));
    assert_eq!(place(&state, 1), (70, 0, 60, 10));
}

#[test]
fn padding_and_percentages_refer_to_the_block_around() {
    let half = Share { numerator: 1, halvings: 1 };
    let nodes = vec![
        element(
            None,
            &[1],
            LayoutStyle {
                padding: Sides {
                    left: SizeTerm::Px(10),
                    right: SizeTerm::Px(10),
                    top: SizeTerm::Px(3),
                    bottom: SizeTerm::Px(4),
                },
                ..style(StyleDisplay::Block)
            },
        ),
        element(
            Some(0),
            &[],
            LayoutStyle {
                width: SizeTerm::Share(half),
                height: SizeTerm::Px(7),
                ..style(StyleDisplay::InlineBlock)
            },
        ),
    ];
    let (state, _) = lay_out(&input(nodes)).unwrap_or_else(|stop| panic!("{stop:?}"));
    assert_eq!(place(&state, 0), (0, 0, 200, 14));
    assert_eq!(place(&state, 1), (10, 3, 90, 7));
}

#[test]
fn texts_and_pictures_are_asked_for() {
    let picture = |shape: Shape| LayoutNode {
        shape,
        parent: Some(0),
        children: Vec::new(),
        style: Some(style(StyleDisplay::Inline)),
    };
    let nodes = vec![
        element(None, &[1, 2, 3, 4], style(StyleDisplay::Block)),
        picture(Shape::Image),
        picture(Shape::Text),
        picture(Shape::Drawing),
        picture(Shape::Canvas { width: 5, height: 6 }),
    ];
    let input = input(nodes);
    assert!(matches!(
        build_layout(&input, &Answers::new(), 200, 100),
        Err(Stop::Need(Need::Picture { node_idx: 1, .. }))
    ));
    let (state, _) = lay_out(&input).unwrap_or_else(|stop| panic!("{stop:?}"));
    // The image cannot be drawn and keeps its place.
    let kept = state.table.layout_of_node(1).unwrap();
    assert_eq!(
        state.table.boxes[kept - 1].kind,
        LayoutKind::PixMap { image: 99, opaque: false }
    );
    let text = state.table.layout_of_node(2).unwrap();
    assert_eq!(state.table.boxes[text - 1].kind, LayoutKind::Text { image: 1 });
    let (_, _, width, height) = place(&state, 3);
    assert_eq!((width, height), (20, 8));
    assert_eq!(state.canvases, [(4, Size { width: 5, height: 6 })]);
}

#[test]
fn flex_items_share_the_row() {
    let grow = |grow: u32| LayoutStyle {
        flex_grow: grow,
        ..sized(StyleDisplay::Block, 20, 10)
    };
    let nodes = vec![
        element(None, &[1, 2], style(StyleDisplay::Flex)),
        element(Some(0), &[], grow(1)),
        element(Some(0), &[], grow(3)),
    ];
    let (state, _) = lay_out(&input(nodes)).unwrap_or_else(|stop| panic!("{stop:?}"));
    assert_eq!(place(&state, 1), (0, 0, 60, 10));
    assert_eq!(place(&state, 2), (60, 0, 140, 10));
}

#[test]
fn flex_items_shrink_and_keep_their_order() {
    let nodes = vec![
        element(None, &[1, 2], style(StyleDisplay::Flex)),
        element(
            Some(0),
            &[],
            LayoutStyle { order: 2, ..sized(StyleDisplay::Block, 300, 10) },
        ),
        element(
            Some(0),
            &[],
            LayoutStyle { order: 1, ..sized(StyleDisplay::Block, 100, 10) },
        ),
    ];
    let (state, _) = lay_out(&input(nodes)).unwrap_or_else(|stop| panic!("{stop:?}"));
    assert_eq!(place(&state, 2), (0, 0, 50, 10));
    assert_eq!(place(&state, 1), (50, 0, 150, 10));
}

#[test]
fn flex_columns_justify_and_align() {
    let nodes = vec![
        element(
            None,
            &[1, 2],
            LayoutStyle {
                flex_direction: StyleFlexDirection::Column,
                justify_content: StyleJustifyContent::SpaceBetween,
                align_items: StyleJustifyContent::Center,
                ..sized(StyleDisplay::Flex, 200, 100)
            },
        ),
        element(Some(0), &[], sized(StyleDisplay::Block, 40, 10)),
        element(Some(0), &[], sized(StyleDisplay::Block, 40, 20)),
    ];
    let (state, _) = lay_out(&input(nodes)).unwrap_or_else(|stop| panic!("{stop:?}"));
    let (_, y, _, height) = place(&state, 1);
    assert_eq!((y, height), (0, 10));
    let (_, y, _, height) = place(&state, 2);
    assert_eq!((y, height), (80, 20));
}

#[test]
fn grids_give_fractions_to_their_columns() {
    let nodes = vec![
        element(
            None,
            &[1, 2, 3],
            LayoutStyle {
                grid_template_columns: Some(vec![
                    TrackStyle::Size(TrackLength::Px(50)),
                    TrackStyle::Size(TrackLength::Fraction(1)),
                    TrackStyle::MinMax(TrackLength::Px(10), TrackLength::Fraction(2)),
                ]),
                ..style(StyleDisplay::Grid)
            },
        ),
        element(Some(0), &[], LayoutStyle { height: SizeTerm::Px(9), ..style(StyleDisplay::Block) }),
        element(Some(0), &[], LayoutStyle { height: SizeTerm::Px(7), ..style(StyleDisplay::Block) }),
        element(Some(0), &[], LayoutStyle { height: SizeTerm::Px(5), ..style(StyleDisplay::Block) }),
    ];
    let (state, _) = lay_out(&input(nodes)).unwrap_or_else(|stop| panic!("{stop:?}"));
    assert_eq!(place(&state, 1), (0, 0, 50, 9));
    assert_eq!(place(&state, 2), (50, 0, 50, 7));
    assert_eq!(place(&state, 3), (100, 0, 100, 5));
}

#[test]
fn a_fraction_cannot_be_a_lower_end() {
    let grid = |children: &[usize]| {
        element(
            None,
            children,
            LayoutStyle {
                grid_template_columns: Some(vec![
                    TrackStyle::Size(TrackLength::Px(20)),
                    TrackStyle::MinMax(TrackLength::Fraction(1), TrackLength::Auto),
                ]),
                ..style(StyleDisplay::Grid)
            },
        )
    };
    let item = || element(Some(0), &[], sized(StyleDisplay::Block, 10, 10));
    // It does no harm where nothing stands.
    let (state, _) =
        lay_out(&input(vec![grid(&[1]), item()])).unwrap_or_else(|stop| panic!("{stop:?}"));
    assert_eq!(place(&state, 1), (0, 0, 10, 10));
    assert!(matches!(
        lay_out(&input(vec![grid(&[1, 2]), item(), item()])),
        Err(Stop::Template)
    ));
}

#[test]
fn boxes_out_of_the_flow_stand_in_their_containing_node() {
    let nodes = vec![
        element(None, &[1], style(StyleDisplay::Block)),
        element(
            Some(0),
            &[2, 3],
            LayoutStyle {
                position: StylePosition::Relative,
                margin: Sides { left: SizeTerm::Px(20), ..zero_sides() },
                ..sized(StyleDisplay::InlineBlock, 100, 50)
            },
        ),
        element(
            Some(1),
            &[],
            LayoutStyle {
                position: StylePosition::Absolute,
                inset: Sides {
                    right: SizeTerm::Px(10),
                    bottom: SizeTerm::Px(5),
                    ..auto_sides()
                },
                ..sized(StyleDisplay::Block, 30, 10)
            },
        ),
        element(
            Some(1),
            &[],
            LayoutStyle {
                position: StylePosition::Fixed,
                inset: Sides {
                    left: SizeTerm::Px(5),
                    right: SizeTerm::Px(15),
                    top: SizeTerm::Px(1),
                    ..auto_sides()
                },
                height: SizeTerm::Px(4),
                ..style(StyleDisplay::Block)
            },
        ),
    ];
    let (state, _) = lay_out(&input(nodes)).unwrap_or_else(|stop| panic!("{stop:?}"));
    assert_eq!(place(&state, 1), (20, 0, 100, 50));
    assert_eq!(place(&state, 2), (80, 35, 30, 10));
    assert_eq!(place(&state, 3), (5, 1, 180, 4));
}

#[test]
fn layout_says_why_it_stops() {
    let missing = LayoutNode {
        shape: Shape::Element(InputValue::Absent),
        parent: None,
        children: Vec::new(),
        style: None,
    };
    assert!(matches!(lay_out(&input(vec![missing])), Err(Stop::NoStyle)));
    let blank = LayoutNode {
        shape: Shape::Element(InputValue::Blank),
        parent: None,
        children: Vec::new(),
        style: Some(style(StyleDisplay::Block)),
    };
    assert!(matches!(lay_out(&input(vec![blank])), Err(Stop::InputText)));
    let cyclic = element(None, &[0], style(StyleDisplay::Block));
    assert!(matches!(lay_out(&input(vec![cyclic])), Err(Stop::Depth)));
    let wide = element(
        None,
        &[],
        LayoutStyle { width: SizeTerm::ViewportWidth(i32::MAX), ..style(StyleDisplay::Block) },
    );
    assert!(matches!(
        lay_out(&input(vec![wide])),
        Err(Stop::Length(CalcError::Overflow))
    ));
    let far = element(
        None,
        &[1],
        LayoutStyle {
            padding: Sides { left: SizeTerm::Px(i32::MAX), ..zero_sides() },
            ..style(StyleDisplay::Block)
        },
    );
    let pushed = element(
        Some(0),
        &[],
        LayoutStyle {
            margin: Sides { left: SizeTerm::Px(1), ..zero_sides() },
            ..style(StyleDisplay::Block)
        },
    );
    assert!(matches!(lay_out(&input(vec![far, pushed])), Err(Stop::Range)));
}

#[test]
fn a_finished_layout_stays_when_more_is_told() {
    let nodes = || {
        vec![
            element(None, &[1], style(StyleDisplay::Block)),
            LayoutNode {
                shape: Shape::Text,
                parent: Some(0),
                children: Vec::new(),
                style: Some(style(StyleDisplay::Inline)),
            },
        ]
    };
    let need = Need::Text { node_idx: 1, line_width: Some(200) };
    let text = Answer::Drawn(Some(Drawn { image: 1, opaque: false, width: 30, height: 10 }));
    let mut answers = Answers::new();
    assert!(matches!(
        build_layout(&input(nodes()), &answers, 200, 100),
        Err(Stop::Need(asked)) if asked == need
    ));
    answers.tell(need, text);
    let (before, _) = build_layout(&input(nodes()), &answers, 200, 100)
        .unwrap_or_else(|stop| panic!("{stop:?}"));
    answers.tell(Need::Fraction { space: 1, fraction: 1, total: 1 }, Answer::Number(1));
    answers.tell(need, Answer::Drawn(None));
    let (after, _) = build_layout(&input(nodes()), &answers, 200, 100)
        .unwrap_or_else(|stop| panic!("{stop:?}"));
    assert_eq!(place(&before, 1), (0, 0, 30, 10));
    assert_eq!(place(&after, 1), place(&before, 1));
}

#[test]
fn a_deep_document_is_laid_out() {
    let depth = 40;
    let nodes = (0..depth)
        .map(|idx: usize| {
            let below: Vec<usize> = if idx + 1 < depth { vec![idx + 1] } else { Vec::new() };
            element(idx.checked_sub(1), &below, sized(StyleDisplay::Block, 10, 10))
        })
        .collect();
    let (state, _) = lay_out(&input(nodes)).unwrap_or_else(|stop| panic!("{stop:?}"));
    assert_eq!(state.table.boxes.len(), depth);
}

#[test]
fn boxes_are_stacked() {
    let raised = |number: i32| LayoutStyle {
        z_index: StyleZIndex::Number(number),
        ..sized(StyleDisplay::Block, 10, 10)
    };
    let nodes = vec![
        element(None, &[1, 2, 3], style(StyleDisplay::Block)),
        element(Some(0), &[], raised(2)),
        element(Some(0), &[], raised(0)),
        element(Some(0), &[], raised(1)),
    ];
    let (state, root) = lay_out(&input(nodes)).unwrap_or_else(|stop| panic!("{stop:?}"));
    let order: Vec<usize> = state.table.boxes[root.unwrap() - 1]
        .children
        .iter()
        .map(|id| state.table.layout_to_node_idx(*id))
        .collect();
    assert_eq!(order, [2, 3, 1]);
}

#[test]
fn a_form_control_shows_its_value() {
    let control = LayoutNode {
        shape: Shape::Element(InputValue::Given),
        parent: None,
        children: Vec::new(),
        style: Some(style(StyleDisplay::InlineBlock)),
    };
    let (state, root) = lay_out(&input(vec![control])).unwrap_or_else(|stop| panic!("{stop:?}"));
    assert_eq!(state.rect_of(root.unwrap()).width, 30);
    assert_eq!(state.table.boxes[0].kind, LayoutKind::Text { image: 1 });
}

#[test]
fn nodes_have_shapes() {
    let mut parser = browser::html::HtmlParser::new(
        "<html><body><canvas width=\"7\" height=\"x\"></canvas><br><img><input value=\"  \"><p>t</p></body></html>"
            .to_string(),
    );
    assert_eq!(parser.parse(), Ok(()));
    let nodes = browser::dom::NodesTable::new_from_nodes(parser.nodes);
    let shapes: Vec<Shape> =
        (0..nodes.data.len()).map(|idx| shape_of(&nodes, idx, None)).collect();
    assert!(shapes.contains(&Shape::Canvas { width: 7, height: 150 }));
    assert!(shapes.contains(&Shape::Break));
    assert!(shapes.contains(&Shape::Image));
    assert!(shapes.contains(&Shape::Element(InputValue::Blank)));
    assert!(shapes.contains(&Shape::Text));
    assert_eq!(collapse_whitespace("  a \n b "), Some("a b".to_string()));
    assert_eq!(collapse_whitespace(" \t"), None);
    assert_eq!(collapse_whitespace("a b"), Some("a b".to_string()));
    let canvas = shapes.iter().position(|shape| matches!(shape, Shape::Canvas { .. })).unwrap();
    assert_eq!(
        get_canvas_wh(nodes.get(canvas).unwrap()),
        Some(Size { width: 7, height: 150 })
    );
}

#[test]
fn a_document_is_laid_out_with_its_styles() {
    let mut parser = browser::html::HtmlParser::new("<div><p></p><p></p></div>".to_string());
    assert_eq!(parser.parse(), Ok(()));
    let document = browser::document::Document::from_nodes(parser.nodes);
    let tags: Vec<String> = document
        .nodes
        .data
        .iter()
        .map(|node| match node {
            Some(browser::dom::Node::Element(element)) => element.tag.clone(),
            _ => String::new(),
        })
        .collect();
    let root = tags.iter().position(|tag| tag == "div").unwrap();
    let styles: Vec<Option<LayoutStyle>> = tags
        .iter()
        .map(|tag| match tag.as_str() {
            "div" => Some(style(StyleDisplay::Block)),
            "p" => Some(sized(StyleDisplay::Block, 40, 10)),
            _ => None,
        })
        .collect();
    let asked = get_layout_input(
        &document.nodes,
        &document.children,
        styles,
        &Vec::new(),
        root,
        Size { width: 200, height: 100 },
        99,
    );
    assert_eq!(asked.nodes.len(), document.nodes.data.len());
    assert_eq!(asked.nodes[root].children, document.children.list_or_empty(root));
    assert_eq!(asked.nodes[asked.nodes[root].children[1]].parent, Some(root));
    let (state, id) = lay_out(&asked).unwrap_or_else(|stop| panic!("{stop:?}"));
    let rect = state.rect_of(id.unwrap());
    assert_eq!((rect.width, rect.height), (200, 20));
}
