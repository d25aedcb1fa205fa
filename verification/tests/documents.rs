//! Reading, changing and searching documents.
use browser::dom::{Attributes, Element, Node, NodesTable, TextElement};
use browser::document::{clone_node, Document};
use browser::elements::{
    fire_load_phase, get_closest, get_elements_by_class_name, get_elements_by_name,
    get_elements_by_tag_name, get_implicit_click_events, query_selectors, HtmlEvent, LoadPhase,
};
use browser::html::{decode_html_entities, HtmlParser, NoOpenElement};
use browser::index::{get_dom_indexes, ClassIndexes, DomIndexes};
use browser::inner_html::{create_children_from_html, replace_inner_html, FragmentError};
use browser::labels::{format_element_tree_label, get_node_text_representation};
use browser::redirect::detect_html_redirect;
use browser::scripts::{
    get_scripts, parse_script_type_attr, script_on_insert, scripts_to_run, ExecutedScripts,
    ScriptContent, ScriptType,
};
use browser::subtree::{get_element_html, get_element_inner_html, get_text_content};
use browser::tree::{get_offset_y, get_parents, has_parent, node_is_connected};
use browser::updates::{remove_element_attribute, update_element_attributes, NoSuchNode};

fn parse(html: &str) -> Vec<Node> {
    let mut parser = HtmlParser::new(html.to_string());
    assert_eq!(parser.parse(), Ok(()));
    parser.nodes
}

struct Page {
    document: Document,
    classes: ClassIndexes,
    dom: DomIndexes,
}

fn page(html: &str) -> Page {
    let document = Document::from_nodes(parse(html));
    let mut classes = ClassIndexes::new();
    let dom = get_dom_indexes(&document.nodes, &document.nodes_idxs, &mut classes).unwrap();
    Page { document, classes, dom }
}

fn tag(nodes: &NodesTable, idx: usize) -> String {
    match nodes.get(idx) {
        Some(Node::Element(element)) => element.tag.clone(),
        _ => String::new(),
    }
}

fn attributes(pairs: &[(&str, &str)]) -> Attributes {
    let mut attributes = Attributes::new();
    for (name, value) in pairs {
        attributes.insert(name.to_string(), value.to_string());
    }
    attributes
}

#[test]
fn entities_are_decoded() {
    assert_eq!(decode_html_entities("a &amp; b &lt; &#65;&#x42;"), "a & b &lt; AB");
    assert_eq!(decode_html_entities("&unknown; & &#xD800;"), "&unknown; & \u{FFFD}");
}

#[test]
fn elements_nest_as_their_tags_do() {
    let page = page("<html><body><p id=\"a\">one <b>two</b></p></body></html>");
    let nodes = &page.document.nodes;
    let b = (0..nodes.data.len()).find(|idx| tag(nodes, *idx) == "b").unwrap();
    let line: Vec<String> = get_parents(nodes, b).iter().map(|idx| tag(nodes, *idx)).collect();
    assert_eq!(line, ["b", "p", "body", "html"]);
    let p = nodes.parent(b).unwrap();
    assert_eq!(
        get_element_html(nodes, &page.document.children, p),
        "<p id=\"a\">one <b>two</b></p>"
    );
    assert_eq!(
        get_element_inner_html(nodes, &page.document.children, p),
        "one <b>two</b>"
    );
    assert_eq!(get_text_content(nodes, &page.document.children, p), "one two");
    assert!(has_parent(nodes, b, p));
    assert!(node_is_connected(nodes, b, page.dom.root_indice));
}

#[test]
fn a_closing_tag_without_an_open_element_is_an_error() {
    let mut parser = HtmlParser::new("</p>".to_string());
    assert_eq!(parser.parse(), Err(NoOpenElement));
}

#[test]
fn children_can_be_moved_and_removed() {
    let Page { mut document, .. } = page("<html><body><p></p><ul><li></li></ul></body></html>");
    let find = |document: &Document, name: &str| {
        (0..document.nodes.data.len()).find(|idx| tag(&document.nodes, *idx) == name)
    };
    let (p, ul, li) = (
        find(&document, "p").unwrap(),
        find(&document, "ul").unwrap(),
        find(&document, "li").unwrap(),
    );
    document.append_child(p, li, None);
    assert_eq!(document.nodes.parent(li), Some(p));
    assert_eq!(document.children.list_or_empty(p), [li]);
    assert_eq!(document.children.list_or_empty(ul), Vec::<usize>::new());
    let removed = document.remove_node(p, true);
    assert!(removed.contains(&p) && removed.contains(&li));
    assert!(!document.nodes.contains_key(li));
    let text = document.push_node(Node::Text(TextElement { text: "x".to_string(), parent: None }));
    document.append_child(ul, text, None);
    let copy = clone_node(&mut document, ul, None, true).unwrap();
    document.rebuild_children();
    assert_eq!(get_text_content(&document.nodes, &document.children, copy), "x");
    document.set_text_content(ul, "new".to_string());
    assert_eq!(get_text_content(&document.nodes, &document.children, ul), "new");
    document.detach_node(copy);
    assert_eq!(document.nodes.parent(copy), None);
}

#[test]
fn offsets_add_up_along_the_ancestors() {
    let page = page("<html><body><p></p></body></html>");
    let nodes = &page.document.nodes;
    let p = (0..nodes.data.len()).find(|idx| tag(nodes, *idx) == "p").unwrap();
    let mut scroll = vec![0; nodes.data.len()];
    scroll[p] = 5;
    scroll[nodes.parent(p).unwrap()] = -20;
    assert_eq!(get_offset_y(nodes, p, &scroll), Some(-15));
}

#[test]
fn selectors_find_elements() {
    let Page { document, mut classes, dom } = page(
        "<html><body><div id=\"a\" class=\"x y\"><p class=\"y\"></p></div><p name=\"n\"></p></body></html>",
    );
    let nodes = &document.nodes;
    let names = |list: Vec<usize>| -> Vec<String> {
        list.iter().map(|idx| tag(nodes, *idx)).collect()
    };
    let none = Vec::new();
    assert_eq!(
        names(query_selectors(nodes, "div.x, [name]", &dom, &none, None, &mut classes)),
        ["div", "p"]
    );
    assert_eq!(
        names(query_selectors(nodes, "#a > p", &dom, &none, None, &mut classes)),
        ["p"]
    );
    assert_eq!(query_selectors(nodes, "div > div", &dom, &none, None, &mut classes), none);
    let inner = query_selectors(nodes, "#a > p", &dom, &none, None, &mut classes)[0];
    let div = nodes.parent(inner).unwrap();
    assert_eq!(get_closest(nodes, ".x", &dom, &none, inner, &mut classes), Some(div));
    assert_eq!(get_closest(nodes, ".y", &dom, &none, inner, &mut classes), Some(inner));
    assert_eq!(get_closest(nodes, ".z", &dom, &none, inner, &mut classes), None);
    assert_eq!(
        names(get_elements_by_tag_name(nodes, &document.nodes_idxs, &dom, "p", None)).len(),
        2
    );
    assert_eq!(names(get_elements_by_name(nodes, &dom, "n", None)), ["p"]);
    assert_eq!(names(get_elements_by_class_name(nodes, &dom, &classes, "y", None)), ["div", "p"]);
}

#[test]
fn attributes_and_indexes_change_together() {
    let Page { mut document, mut classes, mut dom } =
        page("<html><body><p id=\"a\" class=\"x\"></p></body></html>");
    let none = Vec::new();
    let p = query_selectors(&document.nodes, "#a", &dom, &none, None, &mut classes)[0];
    let same = attributes(&[("id", "a")]);
    assert_eq!(
        update_element_attributes(&mut document.nodes, &mut dom, &mut classes, p, &same),
        Ok(false)
    );
    let other = attributes(&[("id", "b"), ("class", "y")]);
    assert_eq!(
        update_element_attributes(&mut document.nodes, &mut dom, &mut classes, p, &other),
        Ok(true)
    );
    assert_eq!(query_selectors(&document.nodes, "#a", &dom, &none, None, &mut classes), none);
    assert_eq!(query_selectors(&document.nodes, "#b.y", &dom, &none, None, &mut classes), [p]);
    assert_eq!(
        update_element_attributes(&mut document.nodes, &mut dom, &mut classes, 9999, &other),
        Err(NoSuchNode)
    );
    assert_eq!(
        remove_element_attribute(&mut document.nodes, &mut dom, &classes, p, "id"),
        Ok(true)
    );
    assert_eq!(
        remove_element_attribute(&mut document.nodes, &mut dom, &classes, p, "id"),
        Ok(false)
    );
    assert_eq!(query_selectors(&document.nodes, "#b", &dom, &none, None, &mut classes), none);
    assert_eq!(query_selectors(&document.nodes, "[id]", &dom, &none, None, &mut classes), none);
    assert_eq!(query_selectors(&document.nodes, ".y", &dom, &none, None, &mut classes), [p]);
}

#[test]
fn scripts_run_once_and_in_their_order() {
    let Page { document, dom, .. } = page(
        "<html><head><script src=\"a.js\" defer></script><script>one()</script></head><body></body></html>",
    );
    let Document { nodes, nodes_idxs, children } = &document;
    let all = get_scripts(nodes, nodes_idxs, children, dom.root_indice);
    assert_eq!(all.len(), 2);
    assert_eq!(all[0].content, ScriptContent::Code("one()".to_string()));
    assert_eq!(all[1].content, ScriptContent::Link("a.js".to_string()));
    assert!(all[1].defer);
    let mut executed = ExecutedScripts::new();
    let first = scripts_to_run(nodes, nodes_idxs, children, dom.root_indice, &mut executed);
    assert_eq!(first.len(), 2);
    let again = scripts_to_run(nodes, nodes_idxs, children, dom.root_indice, &mut executed);
    assert!(again.is_empty());
    let own = all[0].node_idx.unwrap();
    assert_eq!(script_on_insert(nodes, children, dom.root_indice, own, &mut executed), None);
    assert_eq!(parse_script_type_attr(Some("module")), Some(ScriptType::Module));
    assert_eq!(parse_script_type_attr(None), Some(ScriptType::Classic));
    assert_eq!(parse_script_type_attr(Some("application/json")), None);
}

#[test]
fn loading_is_told_once() {
    let Page { document, .. } = page("<html><body><script>x</script></body></html>");
    let mut told = Vec::new();
    let images = Vec::new();
    let first = fire_load_phase(
        &document.nodes,
        &document.nodes_idxs,
        &images,
        &mut told,
        LoadPhase::JsDone,
        None,
    );
    let again = fire_load_phase(
        &document.nodes,
        &document.nodes_idxs,
        &images,
        &mut told,
        LoadPhase::JsDone,
        None,
    );
    assert!(again.is_empty());
    assert_eq!(told, first);
}

#[test]
fn a_label_clicks_its_control() {
    let Page { document, mut classes, dom } = page(
        "<html><body><label for=\"c\"></label><input id=\"c\" type=\"radio\"></body></html>",
    );
    let none = Vec::new();
    let label = query_selectors(&document.nodes, "label", &dom, &none, None, &mut classes)[0];
    let input = query_selectors(&document.nodes, "#c", &dom, &none, None, &mut classes)[0];
    let events = get_implicit_click_events(&document.nodes, &dom, label);
    assert!(events.contains(&(input, HtmlEvent::Change)));
}

#[test]
fn pages_can_send_the_reader_elsewhere() {
    let nodes = parse(
        "<html><head><meta http-equiv=\"refresh\" content=\"0;url=/next\"></head></html>",
    );
    let document = Document::from_nodes(nodes);
    let mut classes = ClassIndexes::new();
    let dom = get_dom_indexes(&document.nodes, &document.nodes_idxs, &mut classes).unwrap();
    let found = detect_html_redirect(
        &document.nodes,
        &document.children,
        "http://a.test/here",
        dom.root_indice,
    );
    assert_eq!(found, Some("http://a.test/next".to_string()));
}

#[test]
fn an_element_keeps_its_parts() {
    let element = Element {
        tag: "p".to_string(),
        attributes: attributes(&[("a", "1"), ("b", "2")]),
        parent: Some(3),
    };
    let mut node = Node::Element(element);
    assert!(node.is_element("p"));
    assert_eq!(node.get_parent(), Some(3));
    node.set_parent(None);
    assert_eq!(node.copy().get_parent(), None);
    if let Node::Element(element) = &mut node {
        element.attributes.remove("a");
        assert!(!element.attributes.contains_key("a"));
        assert_eq!(element.attributes.get_str("b").map(String::as_str), Some("2"));
    }
}

#[test]
fn a_text_becomes_children() {
    let mut document = Document::from_nodes(parse("<div><p>a</p></div>"));
    let div = (0..document.nodes.data.len()).find(|idx| tag(&document.nodes, *idx) == "div").unwrap();
    assert_eq!(create_children_from_html(&mut document, div, "<b>c</b>".to_string()), Ok(()));
    document.rebuild_children();
    assert_eq!(
        get_element_inner_html(&document.nodes, &document.children, div),
        "<p>a</p><b>c</b>"
    );
    assert_eq!(replace_inner_html(&mut document, div, "x<i>y</i>".to_string()), Ok(()));
    assert_eq!(get_element_inner_html(&document.nodes, &document.children, div), "x<i>y</i>");
    let before = document.nodes.data.len();
    assert_eq!(
        replace_inner_html(&mut document, div, "</i>".to_string()),
        Err(FragmentError::NoOpenElement)
    );
    assert_eq!(document.nodes.data.len(), before);
    assert_eq!(get_element_inner_html(&document.nodes, &document.children, div), "x<i>y</i>");
}

#[test]
fn nodes_are_printed() {
    let document = Document::from_nodes(parse("<div id=\"a\" class=\"b\"> x  y <!--c--></div>"));
    let nodes = &document.nodes;
    let div = (0..nodes.data.len()).find(|idx| tag(nodes, *idx) == "div").unwrap();
    let Some(Node::Element(element)) = nodes.get(div) else {
        panic!("no element");
    };
    assert_eq!(format_element_tree_label(element), "Node::Element: div class=\"b\" id=\"a\"");
    let rect = browser::boxes::Rect {
        x: -3,
        y: 4,
        width: 5,
        height: 0,
        background: browser::boxes::StyleBackground::Transparent,
        border: browser::boxes::RectBorder::new_empty(),
        border_radius: browser::raster::BorderRadius::new_empty(),
    };
    let text = (0..nodes.data.len())
        .find(|idx| matches!(nodes.get(*idx), Some(Node::Text(_))))
        .unwrap();
    assert_eq!(
        get_node_text_representation(nodes, text, Some((9, "Text", &rect)), "S"),
        format!(
            "Node::Text \"x y\" [idx={text}] [layout_idx=9 layout=Text x=-3 y=4 width=5 height=0] [style=S]"
        )
    );
    assert_eq!(
        get_node_text_representation(nodes, div, None, ""),
        format!("Node::Element: div class=\"b\" id=\"a\" [idx={div}] [layout=none] [style=]")
    );
}

#[test]
fn only_elements_that_can_hold_nodes_have_children() {
    for text in ["<p>a<br>b<img src=\"c\">d", "<input><i>e</i></input>", "<!--f--><hr>g", "</a>"] {
        let mut parser = HtmlParser::new(text.repeat(40));
        let _ = parser.parse();
        assert!(parser.traces.len() <= 200);
        for (at, node) in parser.nodes.iter().enumerate() {
            if let Some(parent) = node.get_parent() {
                assert!(parent < at);
                let Node::Element(element) = &parser.nodes[parent] else {
                    panic!("{parent} is no element");
                };
                assert!(!["br", "input", "meta", "link", "img", "hr"]
                    .contains(&element.tag.as_str()));
            }
        }
    }
}

#[test]
fn a_query_below_a_node_gives_part_of_the_whole() {
    let page = page("<html><div><p>a</p><i></i></div><p>b<p>c</p></p></html>");
    let div = (0..page.document.nodes.data.len())
        .find(|idx| tag(&page.document.nodes, *idx) == "div")
        .unwrap();
    let Page { document, mut classes, dom } = page;
    let mut query =
        |required| query_selectors(&document.nodes, "p", &dom, &Vec::new(), required, &mut classes);
    let (all, below) = (query(None), query(Some(div)));
    assert!(all.windows(2).all(|pair| pair[0] < pair[1]));
    assert!(all.iter().all(|idx| tag(&document.nodes, *idx) == "p"));
    let wanted: Vec<usize> = all
        .iter()
        .copied()
        .filter(|idx| has_parent(&document.nodes, *idx, div))
        .collect();
    assert_eq!(below, wanted);
    assert_eq!((all.len(), below.len()), (3, 1));
}
