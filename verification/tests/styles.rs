//! Style sheets: reading them, ordering their declarations, finding the elements they are for.
use browser::cascade::{
    build_css_children_index, build_definitions_map, compute_css_node_ranking, flatten_css_chunks,
    get_cascade_order, get_expandable_css_nodes, get_parsed_property_definitions, nodes_to_resolve,
    ExpandableCssNode, ParsedPropertyDefinition, VariableDefinitions,
};
use browser::calc::SizeTerm;
use browser::computed::{
    computed_style_properties, BorderTexts, SideTexts, StyleTexts, StyleWalk,
};
use browser::css::{
    selector_to_parts, unquote, ClassNamePart, ClassNamePartAttribute, PseudoClass,
};
use browser::document::Document;
use browser::elements::{get_elements_by_class_name, get_elements_by_tag_name};
use browser::html::HtmlParser;
use browser::keywords::{
    get_default_display, parse_align, parse_display, parse_hex_color, parse_justify, parse_position,
};
use browser::index::{get_dom_indexes, ClassIndexes};
use browser::query::search_elements_for_css_nodes;
use browser::search::StyleRule;
use browser::rules::{number_parts, number_rules};
use browser::sheets::{SheetCache, SheetStep};
use browser::sizing::Size;
use browser::selectors::{get_specificity_tuple, Specificity};
use browser::stylesheet::{
    parse_media_query_parts, CssParser, InvalidDeclaration, MediaQueryCriteriaComparison,
    MediaQueryCriteriaValue, Node, Overflow, PropertyValue,
};

fn sheet(text: &str) -> Vec<Node> {
    let mut parser = CssParser::new(text);
    assert_eq!(parser.parse(), Ok(()));
    parser.nodes
}

fn values(nodes: &[Node]) -> Vec<(&str, &PropertyValue)> {
    nodes
        .iter()
        .filter_map(|node| match node {
            Node::Property(property) => Some((property.property.as_str(), &property.value)),
            _ => None,
        })
        .collect()
}

fn raw(value: &str) -> PropertyValue {
    PropertyValue::Raw(value.to_string())
}

#[test]
fn selectors_are_taken_apart() {
    assert_eq!(
        selector_to_parts("div.x > #a"),
        vec![
            ClassNamePart::Combined(vec![
                ClassNamePart::Tag("div".to_string()),
                ClassNamePart::Class("x".to_string()),
            ]),
            ClassNamePart::ArrowRight,
            ClassNamePart::Id("a".to_string()),
        ]
    );
    assert_eq!(
        selector_to_parts("a:hover"),
        vec![ClassNamePart::Combined(vec![
            ClassNamePart::Tag("a".to_string()),
            ClassNamePart::PseudoClass(PseudoClass::Hover),
        ])]
    );
    assert_eq!(
        selector_to_parts("[name=\"n\"]"),
        vec![ClassNamePart::Attributes(vec![ClassNamePartAttribute::KeyValue((
            "name".to_string(),
            "n".to_string(),
        ))])]
    );
    assert_eq!(unquote("\"a\""), "a");
    assert_eq!(unquote("a"), "a");
}

#[test]
fn declarations_have_values() {
    let nodes = sheet("p { display: flex; width: 20px; color: #f00 } .x { overflow: hidden; }");
    assert_eq!(
        values(&nodes),
        [
            ("display", &raw("flex")),
            ("width", &raw("20px")),
            ("color", &raw("#f00")),
            ("overflow", &raw("hidden")),
        ]
    );
    assert!(!Overflow::Hidden.visible());
    assert!(Overflow::Visible.visible());
}

#[test]
fn inline_styles_need_no_selector() {
    let mut parser = CssParser::new_inline("display: none; z-index: 3");
    assert_eq!(parser.parse(), Ok(()));
    assert_eq!(parser.nodes.len(), 2);
    let mut broken = CssParser::new_inline("color;");
    assert_eq!(broken.parse(), Err(InvalidDeclaration));
}

#[test]
fn conditions_have_parts() {
    let named = parse_media_query_parts("(min-width: 40em)");
    assert_eq!(named[0].property, "min-width");
    assert_eq!(named[0].comparison, MediaQueryCriteriaComparison::Is);
    assert_eq!(named[0].value, MediaQueryCriteriaValue::String("40em".to_string()));
    assert!(parse_media_query_parts("print").is_empty());
    let parts = parse_media_query_parts("(width >= 40rem)and(width <= 800px)");
    assert_eq!(parts.len(), 2);
    assert_eq!(parts[0].comparison, MediaQueryCriteriaComparison::MoreOrEqual);
    assert_eq!(parts[0].value, MediaQueryCriteriaValue::Rem("40".to_string()));
    assert_eq!(parts[1].comparison, MediaQueryCriteriaComparison::LessOrEqual);
    assert_eq!(parts[1].value, MediaQueryCriteriaValue::Px("800".to_string()));
}

#[test]
fn joined_sheets_count_on() {
    let first = sheet("a { width: 1px }");
    let second = sheet("b { width: 2px }");
    let length = first.len();
    let all = flatten_css_chunks(vec![(0, first), (length, second)]);
    assert_eq!(all.len(), 4);
    assert_eq!(all[1].get_parent(), Some(0));
    assert_eq!(all[3].get_parent(), Some(2));
    let index = build_css_children_index(&all);
    assert_eq!(index.get(2), Some(&vec![3]));
}

#[test]
fn important_and_specific_declarations_come_later() {
    let nodes = sheet("#a { width: 1px } p { width: 2px } p { width: 3px !important }");
    let weights: Vec<Option<Specificity>> = nodes
        .iter()
        .map(|node| match node {
            Node::ClassName(class) => {
                let mut classes = ClassIndexes::new();
                let parts = number_parts(&class.name_parts[0], &mut classes);
                Some(get_specificity_tuple(&parts))
            }
            _ => None,
        })
        .collect();
    assert_eq!(weights[0], Some(Specificity { ids: 1, classes: 0, tags: 0 }));
    assert_eq!(weights[2], Some(Specificity { ids: 0, classes: 0, tags: 1 }));
    let ranking = compute_css_node_ranking(&nodes, &weights);
    assert_eq!(ranking, [0, 1, 0, 0, 0, 2]);
    let index = build_css_children_index(&nodes);
    assert_eq!(get_cascade_order(&index, &vec![0, 2, 4], &ranking), [3, 1, 5]);
    assert_eq!(get_cascade_order(&index, &vec![0, 4], &ranking), [1, 5]);
}

#[test]
fn variables_have_definitions() {
    let nodes = sheet(
        "@property --a { syntax: \"<color>\"; initial-value: red } p { --b: 1px; width: var(--b) }",
    );
    let index = build_css_children_index(&nodes);
    let parsed = get_parsed_property_definitions(&nodes, &index);
    assert_eq!(parsed.len(), 1);
    assert_eq!(parsed[0].property, "--a");
    let definitions = build_definitions_map(parsed, &nodes);
    assert_eq!(definitions.variable_to_idx("--a"), Some(0));
    assert_eq!(definitions.variable_to_idx("--b"), Some(1));
    assert_eq!(definitions.variable_to_idx("--c"), None);
}

#[test]
fn rules_find_their_elements() {
    let mut parser = HtmlParser::new(
        "<html><head><style>.x { width: 1px }</style><link rel=\"stylesheet\" href=\"a.css\"></head><body><div class=\"x\"><p></p></div><p></p></body></html>"
            .to_string(),
    );
    assert_eq!(parser.parse(), Ok(()));
    let document = Document::from_nodes(parser.nodes);
    let mut classes = ClassIndexes::new();
    let dom = get_dom_indexes(&document.nodes, &document.nodes_idxs, &mut classes).unwrap();
    assert_eq!(
        get_expandable_css_nodes(&document.nodes, dom.root_indice, &document.children),
        vec![
            ExpandableCssNode::Inline(".x { width: 1px }".to_string()),
            ExpandableCssNode::Link("a.css".to_string()),
        ]
    );
    let nodes = sheet(".x { width: 1px } .x > p { width: 2px } @media print { p { width: 3px } }");
    let holds = vec![false; nodes.len()];
    let rules = number_rules(&nodes, &holds, &mut classes);
    let to_resolve = nodes_to_resolve(&nodes);
    let dom = get_dom_indexes(&document.nodes, &document.nodes_idxs, &mut classes).unwrap();
    let found =
        search_elements_for_css_nodes(&to_resolve, &rules, &document.nodes, &dom, &Vec::new());
    let selecting = |idx: usize| -> Vec<usize> {
        found.matches.get(idx).map(|list| list.to_vec()).unwrap_or_default()
    };
    let none: Vec<usize> = Vec::new();
    let div = get_elements_by_class_name(&document.nodes, &dom, &classes, "x", None)[0];
    let paragraphs =
        get_elements_by_tag_name(&document.nodes, &document.nodes_idxs, &dom, "p", None);
    assert_eq!(selecting(div), [to_resolve[0]]);
    assert_eq!(selecting(paragraphs[0]), [to_resolve[1]]);
    assert_eq!(selecting(paragraphs[1]), none);
}

#[test]
fn the_rule_around_another_may_stand_behind_it() {
    let mut parser = HtmlParser::new(
        "<html><body><div class=\"x\"><p></p></div><p></p></body></html>".to_string(),
    );
    assert_eq!(parser.parse(), Ok(()));
    let document = Document::from_nodes(parser.nodes);
    let mut classes = ClassIndexes::new();
    let nodes = sheet(".x { p { width: 1px } }");
    let mut rules = number_rules(&nodes, &vec![false; nodes.len()], &mut classes);
    let dom = get_dom_indexes(&document.nodes, &document.nodes_idxs, &mut classes).unwrap();
    let paragraphs =
        get_elements_by_tag_name(&document.nodes, &document.nodes_idxs, &dom, "p", None);
    let selecting = |rules: &Vec<StyleRule>, css: usize| -> Vec<bool> {
        let found = search_elements_for_css_nodes(
            &vec![css],
            rules,
            &document.nodes,
            &dom,
            &Vec::new(),
        );
        paragraphs.iter().map(|el| found.matches.get(*el).is_some()).collect()
    };
    assert_eq!((rules[0].parent, rules[1].parent), (None, Some(0)));
    assert_eq!(selecting(&rules, 1), [true, false]);
    rules.swap(0, 1);
    rules[0].parent = Some(1);
    assert_eq!(selecting(&rules, 0), [true, false]);
}

#[test]
fn styles_are_worked_out_from_the_root_down() {
    let mut walk = StyleWalk::new(0);
    let window = Size { width: 100, height: 100 };
    let known = vec![false, false, true, true];
    let root = walk.next(&known).unwrap();
    assert_eq!((root.node_idx, root.parent, root.parent_font_size), (0, None, None));
    assert_eq!(walk.finish(root, &SizeTerm::Px(20), true, &vec![1, 3], &window), Ok(20));
    let first = walk.next(&known).unwrap();
    assert_eq!((first.node_idx, first.parent_font_size), (1, Some(20)));
    // What is below something hidden keeps the style that it has.
    assert_eq!(walk.finish(first, &SizeTerm::Px(9), false, &vec![2], &window), Ok(9));
    let second = walk.next(&known).unwrap();
    assert_eq!((second.node_idx, second.parent, second.hidden), (3, Some(0), false));
    assert_eq!(walk.next(&known), None);
}

#[test]
fn scripts_read_styles() {
    let text = |value: &str| value.to_string();
    let sides = || SideTexts {
        left: text("1px"),
        right: text("2px"),
        top: text("3px"),
        bottom: text("4px"),
    };
    let border = || BorderTexts { width: text("5px"), color: text("red"), style: text("solid") };
    let style = StyleTexts {
        width: text("10px"),
        height: text("auto"),
        min_width: text("auto"),
        max_width: text("auto"),
        min_height: text("auto"),
        max_height: text("auto"),
        background_color: text("blue"),
        background_image: text("none"),
        color: text("black"),
        opacity: text("1"),
        visibility: text("visible"),
        transform: text("none"),
        pointer_events: text("auto"),
        overflow_x: text("visible"),
        overflow_y: text("visible"),
        z_index: text("auto"),
        display: text("block"),
        flex_grow: text("0"),
        flex_shrink: text("1"),
        flex_basis: text("auto"),
        order: text("0"),
        justify_content: text("flex-start"),
        justify_items: text("stretch"),
        align_items: text("stretch"),
        align_self: text("auto"),
        flex_direction: text("row"),
        gap: text("0px"),
        position: text("static"),
        radius_top_left: text("0px"),
        radius_top_right: text("0px"),
        radius_bottom_right: text("0px"),
        radius_bottom_left: text("0px"),
        text_align: text("left"),
        font_size: text("16px"),
        line_height: None,
        margin: sides(),
        padding: sides(),
        inset: sides(),
        border_left: border(),
        border_top: border(),
        border_right: border(),
        border_bottom: border(),
    };
    let mut definitions = VariableDefinitions::new();
    definitions.insert_definition(ParsedPropertyDefinition {
        property: text("--a"),
        syntax: None,
        initial_value: None,
    });
    let variables = vec![(0, text("v")), (7, text("w"))];
    let values = computed_style_properties(&Some(style), &variables, &definitions);
    let read = |name: &str| values.get_str(name).map(|value| value.as_str());
    assert_eq!(read("width"), Some("10px"));
    assert_eq!(read("line-height"), Some("normal"));
    assert_eq!(read("padding-bottom"), Some("4px"));
    assert_eq!(read("right"), Some("2px"));
    assert_eq!(read("border-top-color"), Some("red"));
    assert_eq!(read("--a"), Some("v"));
    assert_eq!(read("--b"), None);
    let none = computed_style_properties(&None, &variables, &definitions);
    assert!(none.values.is_empty());
}

#[test]
fn sheets_are_read_once() {
    let inline = || ExpandableCssNode::Inline("a{}".to_string());
    let link = || ExpandableCssNode::Link("a.css".to_string());
    let list = vec![inline(), link(), inline()];
    let mut cache = SheetCache::new();
    assert!(!cache.is_current("https://a.test/", &list));
    assert_eq!(
        cache.plan_css_nodes(&list),
        [SheetStep::Parse(0), SheetStep::Fetch, SheetStep::Known(0)]
    );
    assert_eq!(cache.note_fetched(&link()), (1, true));
    assert_eq!(cache.note_fetched(&link()), (1, false));
    assert_eq!(
        cache.plan_css_nodes(&list),
        [SheetStep::Known(0), SheetStep::Known(1), SheetStep::Known(0)]
    );
    cache.note_joined("https://a.test/".to_string(), vec![inline(), link(), inline()]);
    assert!(cache.is_current("https://a.test/", &list));
    assert!(!cache.is_current("https://b.test/", &list));
}

#[test]
fn words_have_meanings() {
    assert_eq!(parse_display("none"), Some(browser::stylesheet::StyleDisplay::Absent));
    assert_eq!(parse_display("table"), None);
    assert_eq!(get_default_display("span"), browser::stylesheet::StyleDisplay::Inline);
    assert_eq!(get_default_display("p"), browser::stylesheet::StyleDisplay::Block);
    assert_eq!(parse_justify("end"), browser::flex::StyleJustifyContent::FlexEnd);
    assert_eq!(parse_justify("x"), browser::flex::StyleJustifyContent::Auto);
    assert_eq!(parse_position("sticky"), browser::paint::StylePosition::Sticky);
    assert_eq!(parse_align("right"), browser::margins::StyleAlign::Right);
    assert_eq!(parse_hex_color("#0a0B0c"), Some(0x0a0b_0cff));
    assert_eq!(parse_hex_color("#0a0b0c0d"), Some(0x0a0b_0c0d));
    assert_eq!(parse_hex_color("#+a0b0c"), None);
    assert_eq!(parse_hex_color("#abc"), None);
}

#[test]
fn sheets_come_to_the_same_list_in_any_order() {
    let chunks = |order: &[usize]| {
        let texts = ["p { width: 1px }", "a { --b: 2px } i { height: 3px }"];
        order.iter().map(|at| (*at, sheet(texts[*at]))).collect::<Vec<_>>()
    };
    let one = flatten_css_chunks(chunks(&[0, 1]));
    let other = flatten_css_chunks(chunks(&[1, 0]));
    assert_eq!(format!("{one:?}"), format!("{other:?}"));
    let parents: Vec<Option<usize>> = one.iter().map(|node| node.get_parent()).collect();
    assert_eq!(parents, [None, Some(0), None, Some(2), None, Some(4)]);
    let mut node = Node::Property(browser::stylesheet::Property {
        property: "order".to_string(),
        value: browser::stylesheet::PropertyValue::Int(7),
        important: true,
        parent: Some(1),
    });
    node.offset_parent(4);
    let Node::Property(property) = node else {
        panic!("no property");
    };
    assert_eq!(property.value, browser::stylesheet::PropertyValue::Int(7));
    assert_eq!(property.parent, Some(5));
}
