//! The code that the script host is asked to run when something happens to a page.
use std::collections::HashSet;
use vstd::prelude::*;

use crate::numbers::decimal;
use crate::numbers::decimals;
use crate::numbers::join_decimals;
use crate::numbers::to_decimal;
use crate::text::contains_char;
use crate::text::push_text;

verus! {

/// A character inside a literal: after a backslash where it is a quote, a backslash or one of the
/// control characters that have a letter, as four hexadecimal digits where it is another control
/// character, else as it is.
pub open spec fn json_char(c: char) -> Seq<char> {
    if c == '"' || c == '\\' {
        seq!['\\', c]
    } else if c == '\u{8}' {
        seq!['\\', 'b']
    } else if c == '\t' {
        seq!['\\', 't']
    } else if c == '\n' {
        seq!['\\', 'n']
    } else if c == '\u{c}' {
        seq!['\\', 'f']
    } else if c == '\r' {
        seq!['\\', 'r']
    } else if c <= '\u{1f}' {
        let high = if c <= '\u{f}' {
            '0'
        } else {
            '1'
        };
        seq!['\\', 'u', '0', '0', high, "0123456789abcdef"@[(c as int) % 16]]
    } else {
        seq![c]
    }
}

/// The characters of a text inside a literal.
pub open spec fn json_chars(text: Seq<char>) -> Seq<char>
    decreases text.len(),
{
    if text.len() == 0 {
        Seq::empty()
    } else {
        json_chars(text.drop_last()) + json_char(text.last())
    }
}

/// A text as a literal in quotes.
pub open spec fn json_text(text: Seq<char>) -> Seq<char> {
    seq!['"'] + json_chars(text) + seq!['"']
}

/// `serde_json::to_string` on a text, which never fails: the text as a literal in quotes, with quotes,
/// backslashes and control characters escaped.
#[verifier::external_body]
pub(crate) fn quote(text: &str) -> (r: String)
    ensures
        r@ == json_text(text@),
{
    serde_json::to_string(text).unwrap()
}

/// A text as a literal of the script language.
pub fn js_string_literal(value: &str) -> (r: String)
    ensures
        r@ == json_text(value@),
{
    quote(value)
}

fn wrapped(before: &str, middle: &str, after: &str) -> (r: String)
    ensures
        r@ == before@ + middle@ + after@,
{
    let mut code = String::new();
    push_text(&mut code, before);
    push_text(&mut code, middle);
    push_text(&mut code, after);
    assert(code@ =~= before@ + middle@ + after@);
    code
}

/// Tells a node and those around it of a click.
pub open spec fn click_code(target: usize, parents: Seq<usize>) -> Seq<char> {
    "__dispatchClickFromNodeIdx("@ + decimal(target as nat) + ", ["@ + decimals(parents, ", "@)
        + "])"@
}

pub fn get_click_code(target: usize, parents: &Vec<usize>) -> (r: String)
    ensures
        r@ == click_code(target, parents@),
{
    let target = to_decimal(target);
    let parents = join_decimals(parents, ", ");
    let mut code = wrapped("__dispatchClickFromNodeIdx(", target.as_str(), ", [");
    push_text(&mut code, parents.as_str());
    push_text(&mut code, "])");
    code
}

/// Tells a node that it has changed.
pub open spec fn change_code(idx: usize) -> Seq<char> {
    "(() => { const event = new Event(\"change\"); const idx = "@ + decimal(idx as nat)
        + "; event.target = __elementFromNodeIdx(idx); event.target.__node_idx = idx; runEventListeners(`${idx}:change`, event); return event.defaultPrevented })()"@
}

pub fn get_change_code(idx: usize) -> (r: String)
    ensures
        r@ == change_code(idx),
{
    let idx = to_decimal(idx);
    wrapped(
        "(() => { const event = new Event(\"change\"); const idx = ",
        idx.as_str(),
        "; event.target = __elementFromNodeIdx(idx); event.target.__node_idx = idx; runEventListeners(`${idx}:change`, event); return event.defaultPrevented })()",
    )
}

/// Tells a form that it is about to be sent.
pub open spec fn submit_code(form: usize) -> Seq<char> {
    "(() => { const event = new Event(\"submit\", { bubbles: false }); __elementFromNodeIdx("@
        + decimal(form as nat) + ").dispatchEvent(event); return event.defaultPrevented })()"@
}

pub fn get_submit_code(form: usize) -> (r: String)
    ensures
        r@ == submit_code(form),
{
    let form = to_decimal(form);
    wrapped(
        "(() => { const event = new Event(\"submit\", { bubbles: false }); __elementFromNodeIdx(",
        form.as_str(),
        ").dispatchEvent(event); return event.defaultPrevented })()",
    )
}

/// Tells nodes that they have loaded.
pub open spec fn load_code(idxs: Seq<usize>) -> Seq<char> {
    "(() => { const idxs = ["@ + decimals(idxs, ","@)
        + "]; for (let idx of idxs) { runEventListeners(`${idx}:load`, new Event(\"load\", { bubbles: false, cancelable: false })) } })()"@
}

pub fn get_load_code(idxs: &Vec<usize>) -> (r: String)
    ensures
        r@ == load_code(idxs@),
{
    let idxs = join_decimals(idxs, ",");
    wrapped(
        "(() => { const idxs = [",
        idxs.as_str(),
        "]; for (let idx of idxs) { runEventListeners(`${idx}:load`, new Event(\"load\", { bubbles: false, cancelable: false })) } })()",
    )
}

/// Tells the page that a node was scrolled.
pub open spec fn scroll_code(idx: usize) -> Seq<char> {
    "(() => { const event = new MouseEvent(\"scroll\"); event.target = __elementFromNodeIdx("@
        + decimal(idx as nat) + "); runEventListeners('window:scroll', event) })()"@
}

pub fn get_scroll_code(idx: usize) -> (r: String)
    ensures
        r@ == scroll_code(idx),
{
    let idx = to_decimal(idx);
    wrapped(
        "(() => { const event = new MouseEvent(\"scroll\"); event.target = __elementFromNodeIdx(",
        idx.as_str(),
        "); runEventListeners('window:scroll', event) })()",
    )
}

/// Says which script element runs; none of them where no node is given.
pub open spec fn current_script_code(node_idx: Option<usize>) -> Seq<char> {
    match node_idx {
        Some(idx) => "__set_current_script_node_idx("@ + decimal(idx as nat) + ")"@,
        None => "__set_current_script_node_idx(null)"@,
    }
}

pub fn get_current_script_code(node_idx: Option<usize>) -> (r: String)
    ensures
        r@ == current_script_code(node_idx),
{
    match node_idx {
        Some(idx) => {
            let idx = to_decimal(idx);
            wrapped("__set_current_script_node_idx(", idx.as_str(), ")")
        },
        None => "__set_current_script_node_idx(null)".to_owned(),
    }
}

/// Tells the element of a script that it has loaded.
pub open spec fn script_loaded_code(idx: usize) -> Seq<char> {
    "runEventListeners(`${"@ + decimal(idx as nat) + "}:load`, new Event('load'))"@
}

pub fn get_script_loaded_code(idx: usize) -> (r: String)
    ensures
        r@ == script_loaded_code(idx),
{
    let idx = to_decimal(idx);
    wrapped("runEventListeners(`${", idx.as_str(), "}:load`, new Event('load'))")
}

/// Hands the page a message, given as a literal.
pub open spec fn message_code(data: Seq<char>) -> Seq<char> {
    "(() => { const event = new MessageEvent(\"message\", { data: "@ + data
        + " }); window.dispatchEvent(event) })()"@
}

/// Hands the page a message.
pub fn get_message_code(message: &str) -> (r: String)
    ensures
        r@ == message_code(json_text(message@)),
{
    let data = js_string_literal(message);
    wrapped(
        "(() => { const event = new MessageEvent(\"message\", { data: ",
        data.as_str(),
        " }); window.dispatchEvent(event) })()",
    )
}

/// Tells nodes which of them have come into view and which have left it.
pub open spec fn intersections_code(entered: Seq<usize>, left: Seq<usize>) -> Seq<char> {
    "__runIntersectionObservers(["@ + decimals(entered, ","@) + "], ["@ + decimals(left, ","@)
        + "])"@
}

pub fn get_intersections_code(entered: &Vec<usize>, left: &Vec<usize>) -> (r: String)
    ensures
        r@ == intersections_code(entered@, left@),
{
    let entered = join_decimals(entered, ",");
    let left = join_decimals(left, ",");
    let mut code = wrapped("__runIntersectionObservers([", entered.as_str(), "], [");
    push_text(&mut code, left.as_str());
    push_text(&mut code, "])");
    code
}

/// How a typed text is put in: as a line break where it holds one.
pub open spec fn input_type(text: Seq<char>) -> Seq<char> {
    if text.contains('\n') || text.contains('\r') {
        "insertLineBreak"@
    } else {
        "insertText"@
    }
}

/// Tells a node that a text was typed; the text and how it is put in are given as literals.
pub open spec fn input_code(data: Seq<char>, kind: Seq<char>, idx: usize) -> Seq<char> {
    "(() => { const event = new InputEvent(\"input\", { bubbles: true, cancelable: false, data: "@
        + data + ", inputType: "@ + kind + " }); __elementFromNodeIdx("@ + decimal(idx as nat)
        + ").dispatchEvent(event); return event.defaultPrevented })()"@
}

/// Tells a node that a text was typed.
pub fn get_input_code(text: &str, idx: usize) -> (r: String)
    ensures
        r@ == input_code(json_text(text@), json_text(input_type(text@)), idx),
{
    let data = js_string_literal(text);
    let kind = if contains_char(text, '\n') || contains_char(text, '\r') {
        js_string_literal("insertLineBreak")
    } else {
        js_string_literal("insertText")
    };
    let idx = to_decimal(idx);
    let mut code = wrapped(
        "(() => { const event = new InputEvent(\"input\", { bubbles: true, cancelable: false, data: ",
        data.as_str(),
        ", inputType: ",
    );
    push_text(&mut code, kind.as_str());
    push_text(&mut code, " }); __elementFromNodeIdx(");
    push_text(&mut code, idx.as_str());
    push_text(&mut code, ").dispatchEvent(event); return event.defaultPrevented })()");
    code
}

/// An image that has loaded: its node, its height and its width.
pub type LoadedImage = (usize, u32, u32);

pub open spec fn image_entry(image: LoadedImage) -> Seq<char> {
    "["@ + decimal(image.0 as nat) + ", "@ + decimal(image.1 as nat) + ", "@ + decimal(
        image.2 as nat,
    ) + "]"@
}

pub open spec fn image_entries(images: Seq<LoadedImage>) -> Seq<char>
    decreases images.len(),
{
    if images.len() == 0 {
        Seq::empty()
    } else if images.len() == 1 {
        image_entry(images[0])
    } else {
        image_entries(images.drop_last()) + ","@ + image_entry(images.last())
    }
}

/// The images of a list whose nodes were not known before.
pub open spec fn newly_loaded(images: Seq<LoadedImage>, known: Set<usize>) -> Seq<LoadedImage>
    decreases images.len(),
{
    if images.len() == 0 {
        Seq::empty()
    } else if known.contains(images.last().0) {
        newly_loaded(images.drop_last(), known)
    } else {
        newly_loaded(images.drop_last(), known).push(images.last())
    }
}

pub fn get_newly_loaded(images: &Vec<LoadedImage>, known: &HashSet<usize>) -> (r: Vec<LoadedImage>)
    ensures
        r@ == newly_loaded(images@, known@),
{
    let mut new: Vec<LoadedImage> = Vec::new();
    let mut at: usize = 0;
    while at < images.len()
        invariant
            at <= images@.len(),
            new@ == newly_loaded(images@.take(at as int), known@),
        decreases images@.len() - at,
    {
        assert(images@.take(at + 1).drop_last() =~= images@.take(at as int));
        let image: LoadedImage = images[at];
        if !known.contains(&image.0) {
            new.push(image);
        }
        at = at + 1;
    }
    assert(images@.take(images@.len() as int) =~= images@);
    new
}

/// Tells the nodes of images how large they are.
pub open spec fn images_code(images: Seq<LoadedImage>) -> Seq<char> {
    "for (const [idx, height, width] of ["@ + image_entries(images)
        + "]) { const node = __elementFromNodeIdx(idx); if (!node) continue; node.naturalHeight = height; node.naturalWidth = width }"@
}

pub fn get_images_code(images: &Vec<LoadedImage>) -> (r: String)
    ensures
        r@ == images_code(images@),
{
    let mut entries = String::new();
    let mut at: usize = 0;
    assert(entries@ =~= Seq::empty());
    while at < images.len()
        invariant
            at <= images@.len(),
            entries@ == image_entries(images@.take(at as int)),
        decreases images@.len() - at,
    {
        let ghost first = images@.take(at + 1);
        assert(first.drop_last() =~= images@.take(at as int));
        if at > 0 {
            push_text(&mut entries, ",");
        }
        let ghost before = entries@;
        let (idx, height, width): LoadedImage = images[at];
        let idx = to_decimal(idx);
        let height = to_decimal(height as usize);
        let width = to_decimal(width as usize);
        let mut entry = wrapped("[", idx.as_str(), ", ");
        push_text(&mut entry, height.as_str());
        push_text(&mut entry, ", ");
        push_text(&mut entry, width.as_str());
        push_text(&mut entry, "]");
        push_text(&mut entries, entry.as_str());
        proof {
            assert(entry@ == image_entry(images@[at as int]));
            assert(at == 0 ==> before =~= Seq::empty());
            assert(Seq::<char>::empty() + entry@ =~= entry@);
        }
        at = at + 1;
    }
    assert(images@.take(images@.len() as int) =~= images@);
    wrapped(
        "for (const [idx, height, width] of [",
        entries.as_str(),
        "]) { const node = __elementFromNodeIdx(idx); if (!node) continue; node.naturalHeight = height; node.naturalWidth = width }",
    )
}

/// Sets the page up: what the browser calls itself and where the page is.
pub open spec fn setup_code(agent: Seq<char>, url: Seq<char>) -> Seq<char> {
    "navigator.userAgent = \""@ + agent + "\"; window.__init_location(\""@ + url + "\");"@
}

pub fn get_setup_code(agent: &str, url: &str) -> (r: String)
    ensures
        r@ == setup_code(agent@, url@),
{
    let mut code = wrapped("navigator.userAgent = \"", agent, "\"; window.__init_location(\"");
    push_text(&mut code, url);
    push_text(&mut code, "\");");
    code
}

} // verus!
