//! Running a script: what is fetched first, under which name it runs, and whom it tells.
use vstd::prelude::*;

use crate::host::get_script_loaded_code;
use crate::host::script_loaded_code;
use crate::numbers::decimal;
use crate::numbers::to_decimal;
use crate::scripts::ContentModel;
use crate::scripts::Script;
use crate::scripts::ScriptContent;
use crate::scripts::ScriptModel;
use crate::scripts::ScriptType;
use crate::text::from_range;
use crate::text::push_text;
use crate::text::to_chars;
use crate::urls::append_pairs;
use crate::urls::can_add_pairs;
use crate::urls::measure_url;
use crate::urls::optional_view;
use crate::urls::pairs_fit;
use crate::urls::pairs_view;
use crate::urls::parse_url;
use crate::urls::parsed_url;
use crate::urls::resolve_url;
use crate::urls::resolved_url;
use crate::urls::url_ends;
use crate::urls::url_with_pairs;

verus! {

/// How many characters of its code the name of a script shows.
pub const SHOWN_CODE: usize = 40;

/// How a script is run.
#[derive(Debug, PartialEq)]
pub enum ScriptRun {
    /// Not at all: its address, or that of the page, cannot be read.
    Nothing,
    /// As it stands, under a name.
    Code { name: String, code: String },
    /// What is fetched from an address runs under that address.
    Fetch { url: String },
    /// The module at an address is loaded.
    Module { url: String },
    /// What is fetched from an address becomes the module of another address.
    FetchModule { url: String, module_url: String },
    /// The module cannot have an address of its own: that of the script cannot be read, or is so long
    /// that its parts cannot be counted.
    NoAddress,
}

/// What a [`ScriptRun`] says.
pub enum RunModel {
    Nothing,
    Code { name: Seq<char>, code: Seq<char> },
    Fetch { url: Seq<char> },
    Module { url: Seq<char> },
    FetchModule { url: Seq<char>, module_url: Seq<char> },
    NoAddress,
}

impl View for ScriptRun {
    type V = RunModel;

    open spec fn view(&self) -> RunModel {
        match self {
            ScriptRun::Nothing => RunModel::Nothing,
            ScriptRun::Code { name, code } => RunModel::Code { name: name@, code: code@ },
            ScriptRun::Fetch { url } => RunModel::Fetch { url: url@ },
            ScriptRun::Module { url } => RunModel::Module { url: url@ },
            ScriptRun::FetchModule { url, module_url } => RunModel::FetchModule {
                url: url@,
                module_url: module_url@,
            },
            ScriptRun::NoAddress => RunModel::NoAddress,
        }
    }
}

/// The name of a script that the page holds itself.
pub open spec fn code_name(code: Seq<char>) -> Seq<char> {
    "injected code ("@ + (if code.len() <= SHOWN_CODE {
        code
    } else {
        code.take(SHOWN_CODE as int)
    }) + ")"@
}

fn get_code_name(code: &str) -> (r: String)
    ensures
        r@ == code_name(code@),
{
    let chars = to_chars(code);
    let end: usize = if chars.len() <= SHOWN_CODE {
        chars.len()
    } else {
        SHOWN_CODE
    };
    let shown = from_range(&chars, 0, end);
    assert(shown@ =~= code@.take(end as int));
    assert(code@.take(code@.len() as int) =~= code@);
    let mut name = String::new();
    push_text(&mut name, "injected code (");
    push_text(&mut name, shown.as_str());
    push_text(&mut name, ")");
    assert(name@ =~= code_name(code@));
    name
}

/// What is added to the address of a module so that a later document of a frame loads it anew.
pub open spec fn document_pairs(document_id: usize) -> Seq<(Seq<char>, Seq<char>)> {
    seq![("__frame_document"@, decimal(document_id as nat))]
}

/// How the script at an address is run. A module of a frame's first document is loaded from its
/// address; one of a later document has an address of its own, since a module is loaded only once
/// from each address.
pub open spec fn run_from(script_type: ScriptType, url: Seq<char>, document_id: usize) -> RunModel {
    match script_type {
        ScriptType::Classic => RunModel::Fetch { url },
        ScriptType::Module => if document_id == 0 {
            RunModel::Module { url }
        } else {
            match url_ends(url) {
                None => RunModel::NoAddress,
                Some(ends) => if !can_add_pairs(ends, document_pairs(document_id)) {
                    RunModel::NoAddress
                } else {
                    match url_with_pairs(url, document_pairs(document_id)) {
                        Some(module_url) => RunModel::FetchModule { url, module_url },
                        None => RunModel::NoAddress,
                    }
                },
            }
        },
    }
}

/// How a script is run.
pub open spec fn script_run(js: ScriptModel, page_url: Seq<char>, document_id: usize) -> RunModel {
    match js.content {
        ContentModel::Code(code) => RunModel::Code { name: code_name(code), code },
        ContentModel::Link(link) => match parsed_url(page_url) {
            None => RunModel::Nothing,
            Some(base) => match resolved_url(link, Some(base)) {
                None => RunModel::Nothing,
                Some(url) => run_from(js.script_type, url, document_id),
            },
        },
    }
}

/// How the script at an address is run.
pub fn run_script_from(script_type: ScriptType, url: String, document_id: usize) -> (r: ScriptRun)
    ensures
        r@ == run_from(script_type, url@, document_id),
{
    match script_type {
        ScriptType::Classic => ScriptRun::Fetch { url },
        ScriptType::Module => {
            if document_id == 0 {
                return ScriptRun::Module { url };
            }
            let mut pairs: Vec<(String, String)> = Vec::new();
            pairs.push(("__frame_document".to_owned(), to_decimal(document_id)));
            assert(pairs_view(pairs@) =~= document_pairs(document_id));
            let ends = match measure_url(url.as_str()) {
                Some(ends) => ends,
                None => {
                    return ScriptRun::NoAddress;
                },
            };
            if !pairs_fit(ends, &pairs) {
                return ScriptRun::NoAddress;
            }
            match append_pairs(url.as_str(), &pairs) {
                Some(module_url) => ScriptRun::FetchModule { url, module_url },
                None => ScriptRun::NoAddress,
            }
        },
    }
}

/// How a script of a page is run.
pub fn execute_js_script(js: &Script, page_url: &str, document_id: usize) -> (r: ScriptRun)
    ensures
        r@ == script_run(js@, page_url@, document_id),
{
    match &js.content {
        ScriptContent::Code(code) => ScriptRun::Code {
            name: get_code_name(code.as_str()),
            code: code.clone(),
        },
        ScriptContent::Link(link) => {
            let base = match parse_url(page_url) {
                Some(base) => base,
                None => {
                    return ScriptRun::Nothing;
                },
            };
            match resolve_url(link.as_str(), Some(base.as_str())) {
                Some(url) => run_script_from(js.script_type, url, document_id),
                None => ScriptRun::Nothing,
            }
        },
    }
}

/// What is run once a script is done, whether it failed or not: its element, if it has one, is told
/// that it has loaded.
pub open spec fn told_after(js: ScriptModel, run: RunModel) -> Option<Seq<char>> {
    match (run, js.node_idx) {
        (RunModel::Nothing, _) => None,
        (RunModel::NoAddress, _) => None,
        (_, Some(idx)) => Some(script_loaded_code(idx)),
        (_, None) => None,
    }
}

pub fn get_code_after_script(js: &Script, run: &ScriptRun) -> (r: Option<String>)
    ensures
        optional_view(r) == told_after(js@, run@),
{
    match run {
        ScriptRun::Nothing => None,
        ScriptRun::NoAddress => None,
        _ => match js.node_idx {
            Some(idx) => Some(get_script_loaded_code(idx)),
            None => None,
        },
    }
}

} // verus!
