//! Forms, addresses, modules, tabs and the other things around a page.
use browser::clicks::{find_nearest, on_click, ClickAction, ClickState, Sought};
use browser::custom_elements::{
    element_for_construction, is_valid_construction, upgrade_candidates, valid_name,
    ConstructionTarget, DefineError, Registry, ShadowError, ShadowRoots,
};
use browser::document::Document;
use browser::dom::Node;
use browser::forms::{
    build_form_navigation, collect_data_for_form, collect_inputs_in_form, eq_ignore_ascii_case, parse_form_method,
    serialize_form_entries, submit_form, FormError, FormMethod, FormNavigation,
};
use browser::frame::{
    handle_frame_command, handle_keyup, handle_main_event, FrameCommand, FrameFlags, FrameStep,
    UserNavigateUrl,
};
use browser::host::{
    get_change_code, get_click_code, get_message_code, get_newly_loaded, js_string_literal,
};
use browser::html::HtmlParser;
use browser::index::{get_dom_indexes, ClassIndexes, DomIndexes};
use browser::loader::{
    can_fetch, infer_module_type, may_load, ModuleType, RequestedModuleType,
};
use browser::navigation::{get_html_for_navigation, PageSource};
use browser::observers::{ObserveError, Observers, Options};
use browser::script_runs::{
    execute_js_script, get_code_after_script, run_script_from, ScriptRun,
};
use browser::scripts::{Script, ScriptContent, ScriptType};
use browser::tabs::{new_tab_url, BrowserAction, HeaderOutcome, Tabs};
use browser::timing::{
    animation_frame_delay, command_wait_timeout, event_loop_wait, get_max_scroll,
    run_animation_frame_if_due, scroll_to, tick_animations, FpsCounter,
};
use browser::urls::{pairs_fit, resolve_url};

fn page(html: &str) -> (Document, DomIndexes) {
    let mut parser = HtmlParser::new(html.to_string());
    assert_eq!(parser.parse(), Ok(()));
    let document = Document::from_nodes(parser.nodes);
    let mut classes = ClassIndexes::new();
    let dom = get_dom_indexes(&document.nodes, &document.nodes_idxs, &mut classes).unwrap();
    (document, dom)
}

fn find(document: &Document, tag: &str) -> usize {
    (0..document.nodes.data.len())
        .find(|idx| {
            matches!(document.nodes.get(*idx), Some(Node::Element(element)) if element.tag == tag)
        })
        .unwrap()
}

fn pairs(list: &[(&str, &str)]) -> Vec<(String, String)> {
    list.iter().map(|(a, b)| (a.to_string(), b.to_string())).collect()
}

#[test]
fn addresses_are_resolved() {
    assert_eq!(
        resolve_url("/b?c", Some("https://a.test/x/y")),
        Some("https://a.test/b?c".to_string())
    );
    assert_eq!(resolve_url("/b", None), None);
    assert_eq!(resolve_url("https://a.test", None), Some("https://a.test/".to_string()));
    let most = u32::MAX as usize;
    let entries = pairs(&[("a", "b"), ("c d", "\u{e9}&")]);
    assert!(pairs_fit((15, 15, 15), &entries));
    assert!(pairs_fit((most, most, most), &entries));
    assert!(!pairs_fit((most + 1, most + 1, most + 1), &entries));
    assert!(pairs_fit((15, most + 1, most + 1), &entries));
    // `?a=b&c+d=%C3%A9%26` is followed by the fragment.
    assert!(pairs_fit((most - 18, most - 18, most), &entries));
    assert!(!pairs_fit((most - 17, most - 17, most), &entries));
    assert!(pairs_fit((most - 18, most - 17, most), &entries));
    assert!(!pairs_fit((most - 18, most - 16, most - 15), &entries));
    assert!(!pairs_fit((15, most - 17, most), &entries));
    assert!(pairs_fit((15, most - 18, most), &entries));
}

#[test]
fn form_entries_are_encoded() {
    assert_eq!(
        serialize_form_entries(&pairs(&[("a b", "c&d"), ("e", "\u{e9}")])),
        "a+b=c%26d&e=%C3%A9"
    );
    assert_eq!(serialize_form_entries(&pairs(&[("*-._", "~+\n"), ("", "")])), "*-._=%7E%2B%0A&=");
    assert_eq!(serialize_form_entries(&Vec::new()), "");
}

#[test]
fn forms_lead_somewhere() {
    assert_eq!(parse_form_method(Some("POST")), FormMethod::Post);
    assert_eq!(parse_form_method(Some("dialog")), FormMethod::Get);
    assert!(eq_ignore_ascii_case("PoSt", "pOsT"));
    let get = build_form_navigation(
        "https://a.test/x",
        Some("/y"),
        None,
        &pairs(&[("q", "1 2")]),
    )
    .unwrap();
    assert_eq!(get.url, "https://a.test/y?q=1+2");
    assert_eq!(get.body, None);
    let post = build_form_navigation(
        "https://a.test/x",
        None,
        Some("post"),
        &pairs(&[("q", "1")]),
    )
    .unwrap();
    assert_eq!(post.url, "https://a.test/x");
    assert_eq!(post.body, Some("q=1".to_string()));
    assert_eq!(
        build_form_navigation("nonsense", None, None, &Vec::new()),
        Err(FormError::InvalidBase)
    );
    assert_eq!(
        build_form_navigation("https://a.test", Some("https://"), None, &Vec::new()),
        Err(FormError::InvalidAction)
    );
}

#[test]
fn a_form_sends_its_controls() {
    let (document, _) = page(
        "<html><body><form action=\"/go\"><input name=\"a\" value=\"1\"><input type=\"submit\" name=\"s\" value=\"x\"></form></body></html>",
    );
    let form = find(&document, "form");
    let inputs = collect_inputs_in_form(&document.nodes, &document.children, form, None);
    assert_eq!(inputs.len(), 1);
    let sent = submit_form(&document.nodes, &document.children, "http://a.test/", form, None);
    assert_eq!(sent.unwrap().url, "http://a.test/go?a=1");
    assert!(matches!(
        submit_form(&document.nodes, &document.children, "http://a.test/", 9999, None),
        Err(FormError::NoForm)
    ));
}

#[test]
fn a_click_on_a_link_opens_it_unless_it_is_prevented() {
    let (document, dom) = page("<html><body><a href=\"/next\">go</a></body></html>");
    let a = find(&document, "a");
    assert_eq!(find_nearest(&document.nodes, a, Sought::Link), Some(a));
    for prevented in [false, true] {
        let mut state = ClickState::Pressed(Some(a));
        let mut opened = Vec::new();
        for _ in 0..20 {
            let (next, action) =
                on_click(state, prevented, &document.nodes, &dom, "http://a.test/");
            state = next;
            match action {
                ClickAction::OpenLink(url) => opened.push(url),
                ClickAction::Stop => break,
                _ => {}
            }
        }
        assert!(matches!(state, ClickState::Finished));
        if prevented {
            assert!(opened.is_empty());
        } else {
            assert_eq!(opened, ["http://a.test/next"]);
        }
    }
}

#[test]
fn host_code_quotes_what_it_is_given() {
    assert_eq!(js_string_literal("a\"b\n"), "\"a\\\"b\\n\"");
    assert_eq!(
        js_string_literal("\u{8}\t\u{c}\r\\/\u{1}\u{1f}\u{7f}\u{e9}"),
        "\"\\b\\t\\f\\r\\\\/\\u0001\\u001f\u{7f}\u{e9}\""
    );
    assert!(get_message_code("a\"b").contains("\"a\\\"b\""));
    assert!(get_click_code(3, &vec![3, 1]).contains("[3, 1]"));
    assert!(get_change_code(7).contains('7'));
}

#[test]
fn modules_have_kinds() {
    let any = RequestedModuleType::Unspecified;
    assert_eq!(
        infer_module_type("https://a.test/x.json", None, &any),
        Some(ModuleType::Json)
    );
    assert_eq!(
        infer_module_type("https://a.test/x", Some("application/wasm"), &any),
        Some(ModuleType::Wasm)
    );
    assert_eq!(
        infer_module_type("https://a.test/x.js", None, &any),
        Some(ModuleType::JavaScript)
    );
    assert_eq!(infer_module_type("no address", None, &any), None);
    assert!(can_fetch("https://a.test/x.js"));
    assert!(!can_fetch("ftp://a.test/x.js"));
    assert!(may_load(&ModuleType::Json, &RequestedModuleType::Json));
    assert!(!may_load(&ModuleType::Json, &any));
}

#[test]
fn the_header_shows_the_current_tab() {
    let mut tabs = Tabs::new("https://a.test/".to_string());
    assert_eq!(tabs.header_url, "https://a.test/");
    assert!(matches!(
        tabs.poll_header_events(BrowserAction::OpenTab("https://b.test/".to_string())),
        HeaderOutcome::Rerender
    ));
    assert_eq!(tabs.urls.len(), 2);
    assert_eq!(tabs.header_url, tabs.urls[tabs.current]);
    assert!(tabs.tab_url_updated(tabs.current, "https://c.test/".to_string()));
    assert_eq!(tabs.header_url, "https://c.test/");
    tabs.poll_header_events(BrowserAction::SelectTab(0));
    assert_eq!(tabs.header_url, "https://a.test/");
    assert!(!new_tab_url().is_empty());
}

#[test]
fn commands_become_steps() {
    let mut flags = FrameFlags::new(100, 50);
    let steps = handle_main_event(
        &mut flags,
        "https://a.test/",
        FrameCommand::Resized { width: 10, height: 20 },
    );
    assert!(matches!(steps[..], [FrameStep::RenderLoop]));
    let inner = handle_frame_command(&mut flags, FrameCommand::CanvasUpdated);
    assert!(matches!(
        inner[..],
        [
            FrameStep::ProcessDomUpdates,
            FrameStep::Paint { rebuild_layout: false },
            FrameStep::AnnounceFrame
        ]
    ));
    assert_eq!((flags.width, flags.height), (10, 20));
    let steps = handle_main_event(
        &mut flags,
        "https://a.test/",
        FrameCommand::Navigate {
            url: UserNavigateUrl::Raw("https://".to_string()),
            reload: true,
        },
    );
    assert!(steps.iter().any(|step| matches!(step, FrameStep::InvalidUrl)));
    assert!(flags.dispatch_load_once());
    assert!(!flags.dispatch_load_once());
    assert!(flags.schedule_dom_update(true));
    assert!(!flags.schedule_dom_update(true));
    assert!(flags.begin_dom_update());
    assert!(!flags.begin_dom_update());
}

#[test]
fn typing_changes_the_focused_control() {
    let (mut document, _) = page("<html><body><input value=\"ab\"></body></html>");
    let input = find(&document, "input");
    let code = handle_keyup(&mut document.nodes, Some(input), Some("c"));
    assert!(code.is_some());
    assert_eq!(handle_keyup(&mut document.nodes, None, Some("c")), None);
}

#[test]
fn scrolling_comes_to_its_end() {
    assert_eq!(get_max_scroll(500, 200), 300);
    assert_eq!(get_max_scroll(100, 200), 0);
    let mut animations = Vec::new();
    assert!(scroll_to(&mut animations, 0, 0, -100, 1000));
    let mut scroll = vec![0];
    let start = animations.len();
    assert_eq!(start, 1);
    let running = tick_animations(&mut animations, &mut scroll, &vec![-40], 1001);
    assert!(running);
    assert_eq!(scroll, [-40]);
    tick_animations(&mut animations, &mut scroll, &vec![-100], 1_000_000_000_000_000);
    assert_eq!(scroll, [-100]);
    assert!(animations.is_empty());
}

#[test]
fn frames_come_at_a_steady_pace() {
    assert_eq!(animation_frame_delay(false, 0, 10), None);
    let due = animation_frame_delay(true, 0, 0).unwrap();
    assert!(due > 0);
    let mut requested = true;
    let mut last = 0;
    assert!(!run_animation_frame_if_due(&mut requested, &mut last, due - 1));
    assert!(run_animation_frame_if_due(&mut requested, &mut last, due));
    assert!(!requested);
    assert_eq!(last, due);
    assert_eq!(command_wait_timeout(false, None), None);
    assert_eq!(command_wait_timeout(false, Some(3)), Some(3));
    assert!(event_loop_wait(None) > 0);
    let mut counter = FpsCounter::new(0);
    assert_eq!(counter.record_present(1, 60), None);
    assert_eq!(counter.frames, 1);
}

#[test]
fn observers_hear_what_they_ask_for() {
    let (document, dom) = page("<html><body><p></p></body></html>");
    let p = find(&document, "p");
    let options = Options {
        child_list: false,
        attributes: Some(true),
        character_data: None,
        subtree: true,
        attribute_old_value: Some(true),
        character_data_old_value: None,
        attribute_filter: None,
    };
    let mut observers = Observers::new();
    assert!(observers.is_empty());
    let id = observers.create();
    let body = find(&document, "body");
    assert_eq!(observers.observe(id, Some(body), options.clone()), Ok(()));
    observers.record_mutation(
        &document.nodes,
        dom.root_indice,
        p,
        Some("class".to_string()),
        Some("old".to_string()),
    );
    let mut queued = false;
    assert!(observers.schedule(&mut queued));
    assert!(!observers.schedule(&mut queued));
    assert_eq!(observers.deliver(&mut queued), [id]);
    assert!(!observers.schedule(&mut queued));
    let records = observers.take_records(id);
    assert_eq!(records.len(), 1);
    assert_eq!(records[0].target, p);
    assert_eq!(records[0].kind.name(), "attributes");
    assert_eq!(records[0].old_value, Some("old".to_string()));
    assert!(observers.take_records(id).is_empty());
    observers.disconnect(id);
    observers.record_mutation(&document.nodes, dom.root_indice, p, Some("id".to_string()), None);
    assert!(observers.take_records(id).is_empty());
    let nothing = Options {
        attributes: None,
        attribute_old_value: None,
        ..options.clone()
    };
    assert_eq!(
        observers.observe(id, Some(body), nothing),
        Err(ObserveError::NoMutations)
    );
    let unwanted = Options { attributes: Some(false), child_list: true, ..options.clone() };
    assert_eq!(
        observers.observe(id, Some(body), unwanted),
        Err(ObserveError::AttributesRequired)
    );
    let unread = Options {
        character_data: Some(false),
        character_data_old_value: Some(true),
        ..options.clone()
    };
    assert_eq!(
        observers.observe(id, Some(body), unread),
        Err(ObserveError::CharacterDataRequired)
    );
    assert_eq!(
        observers.observe(99, Some(body), options),
        Err(ObserveError::UnknownObserver)
    );
}

#[test]
fn custom_elements_are_defined_once() {
    assert!(valid_name("my-thing"));
    assert!(!valid_name("thing"));
    assert!(!valid_name("font-face"));
    let mut registry = Registry::new();
    assert_eq!(registry.define("thing".to_string(), false), Err(DefineError::InvalidName));
    assert_eq!(registry.define("my-thing".to_string(), false), Ok(()));
    assert_eq!(
        registry.define("my-thing".to_string(), false),
        Err(DefineError::AlreadyDefined)
    );
    let (document, _) = page("<html><body><my-thing></my-thing></body></html>");
    let own = find(&document, "my-thing");
    let body = find(&document, "body");
    assert_eq!(
        upgrade_candidates(&document.nodes, &document.children, body, Some("my-thing")),
        [own]
    );
    assert!(registry.upgrade_element(&document.nodes, own));
    assert!(!registry.upgrade_element(&document.nodes, own));
    assert!(!is_valid_construction(&document.nodes, &document.children, own, "your-thing"));
    let mut stack = vec![Some(own)];
    assert_eq!(element_for_construction(&mut stack), ConstructionTarget::Existing(own));
    assert_eq!(
        element_for_construction(&mut stack),
        ConstructionTarget::AlreadyConstructed
    );
    assert_eq!(element_for_construction(&mut Vec::new()), ConstructionTarget::Fresh);
}

#[test]
fn a_host_has_one_shadow_root() {
    let (document, _) = page("<html><body><div></div><p>x</p></body></html>");
    let div = find(&document, "div");
    let p = find(&document, "p");
    let mut roots = ShadowRoots::new();
    assert_eq!(
        roots.attach(&document.nodes, div, "sideways", p),
        Err(ShadowError::UnknownMode)
    );
    assert_eq!(
        roots.attach(&document.nodes, 9999, "open", p),
        Err(ShadowError::NoElement)
    );
    assert_eq!(roots.attach(&document.nodes, div, "open", p), Ok(()));
    assert_eq!(
        roots.attach(&document.nodes, div, "open", p),
        Err(ShadowError::NotSupported)
    );
    assert_eq!(roots.get_shadow_root(div), Some(p));
    let text = document.children.list_or_empty(p)[0];
    assert_eq!(roots.layout_parent(&document.nodes, text), Some(div));
    assert_eq!(roots.layout_parent(&document.nodes, p), document.nodes.parent(p));
    let mut orphan = Document::from_nodes(vec![Node::Text(browser::dom::TextElement {
        text: String::new(),
        parent: Some(7),
    })]);
    orphan.nodes.cursor = 1;
    assert_eq!(roots.layout_parent(&orphan.nodes, 0), None);
}

#[test]
fn pages_come_from_somewhere() {
    let request = |url: &str, method, body: Option<&str>| FormNavigation {
        url: url.to_string(),
        method,
        body: body.map(|body| body.to_string()),
    };
    assert_eq!(
        get_html_for_navigation(request("about:blank", FormMethod::Post, None)),
        PageSource::Text("<html>\n  <head></head>\n  <body></body>\n</html>".to_string())
    );
    assert_eq!(
        get_html_for_navigation(request("file:///a/b.html", FormMethod::Get, None)),
        PageSource::File("/a/b.html".to_string())
    );
    assert_eq!(
        get_html_for_navigation(request("https://a.test/", FormMethod::Get, None)),
        PageSource::Get("https://a.test/".to_string())
    );
    assert_eq!(
        get_html_for_navigation(request("file:///a", FormMethod::Post, Some("b=c"))),
        PageSource::Post { url: "file:///a".to_string(), body: "b=c".to_string() }
    );
}

#[test]
fn the_last_control_of_a_name_counts() {
    let (document, _) = page(
        "<html><form><input name=\"a\" value=\"1\"><input name=\"b\" value=\"2\"><input name=\"a\" value=\"3\"><input value=\"4\"></form></html>",
    );
    let data = collect_data_for_form(&document.nodes, &document.children, find(&document, "form"));
    assert_eq!(data.get_str("a").map(|value| value.as_str()), Some("3"));
    assert_eq!(data.get_str("b").map(|value| value.as_str()), Some("2"));
    assert_eq!(data.values.len(), 2);
}

#[test]
fn scripts_run_under_names() {
    let script = |content, script_type, node_idx| Script {
        content,
        script_type,
        node_idx,
        defer: false,
        is_async: false,
    };
    let code = "0123456789012345678901234567890123456789X".to_string();
    let own = script(ScriptContent::Code(code.clone()), ScriptType::Classic, Some(7));
    let run = execute_js_script(&own, "nowhere", 0);
    assert_eq!(
        run,
        ScriptRun::Code {
            name: "injected code (0123456789012345678901234567890123456789)".to_string(),
            code,
        }
    );
    assert_eq!(
        get_code_after_script(&own, &run),
        Some("runEventListeners(`${7}:load`, new Event('load'))".to_string())
    );
    let link = |script_type| script(ScriptContent::Link("/m.js".to_string()), script_type, None);
    let url = "https://a.test/m.js".to_string();
    let page_url = "https://a.test/x";
    assert_eq!(
        execute_js_script(&link(ScriptType::Classic), page_url, 3),
        ScriptRun::Fetch { url: url.clone() }
    );
    let module = link(ScriptType::Module);
    assert_eq!(execute_js_script(&module, page_url, 0), ScriptRun::Module { url: url.clone() });
    let later = ScriptRun::FetchModule {
        url: url.clone(),
        module_url: "https://a.test/m.js?__frame_document=3".to_string(),
    };
    assert_eq!(execute_js_script(&module, page_url, 3), later);
    assert_eq!(run_script_from(ScriptType::Module, url, 3), later);
    assert_eq!(get_code_after_script(&module, &later), None);
    assert_eq!(
        run_script_from(ScriptType::Module, "nowhere".to_string(), 3),
        ScriptRun::NoAddress
    );
    assert_eq!(execute_js_script(&module, "nowhere", 0), ScriptRun::Nothing);
    assert_eq!(get_code_after_script(&own, &ScriptRun::Nothing), None);
}

#[test]
fn images_are_told_once_that_they_loaded() {
    let known = std::collections::HashSet::from([4]);
    assert_eq!(get_newly_loaded(&vec![(3, 1, 2), (4, 5, 6)], &known), [(3, 1, 2)]);
}
