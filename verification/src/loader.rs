//! Modules that scripts load: from where, and how they are read.
use vstd::prelude::*;

use crate::text::ascii_lower;
use crate::text::ends;
use crate::text::ends_with;
use crate::text::find_char;
use crate::text::from_range;
use crate::text::index_of;
use crate::text::lemma_index_of;
use crate::text::same_text;
use crate::text::to_ascii_lowercase;
use crate::text::to_chars;
use crate::text::trim;
use crate::text::trimmed;
use crate::urls::read_path;
use crate::urls::read_scheme;
use crate::urls::url_path;
use crate::urls::url_scheme;

verus! {

/// What a script asks a module to be.
#[derive(Debug, PartialEq)]
pub enum RequestedModuleType {
    Unspecified,
    Json,
    Text,
    Bytes,
    Other(String),
}

/// How a module is read.
#[derive(Debug, PartialEq)]
pub enum ModuleType {
    JavaScript,
    Wasm,
    Json,
    Text,
    Bytes,
    Other(String),
}

/// What a [`ModuleType`] holds.
pub enum ModuleModel {
    JavaScript,
    Wasm,
    Json,
    Text,
    Bytes,
    Other(Seq<char>),
}

impl View for ModuleType {
    type V = ModuleModel;

    open spec fn view(&self) -> ModuleModel {
        match *self {
            ModuleType::JavaScript => ModuleModel::JavaScript,
            ModuleType::Wasm => ModuleModel::Wasm,
            ModuleType::Json => ModuleModel::Json,
            ModuleType::Text => ModuleModel::Text,
            ModuleType::Bytes => ModuleModel::Bytes,
            ModuleType::Other(kind) => ModuleModel::Other(kind@),
        }
    }
}

/// A content type without its parameters, in small letters.
pub open spec fn plain_type(content_type: Seq<char>) -> Seq<char> {
    ascii_lower(trimmed(content_type.take(index_of(content_type, ';'))))
}

/// How a module is read: by the end of its path and its content type, else as it was asked for.
pub open spec fn module_of(
    path: Seq<char>,
    content_type: Option<Seq<char>>,
    requested: RequestedModuleType,
) -> ModuleModel {
    let path = ascii_lower(path);
    let named = |name: Seq<char>| content_type matches Some(kind) && plain_type(kind) == name;
    if ends(path, ".json"@) || named("application/json"@) {
        ModuleModel::Json
    } else if ends(path, ".wasm"@) || named("application/wasm"@) {
        ModuleModel::Wasm
    } else {
        match requested {
            RequestedModuleType::Text => ModuleModel::Text,
            RequestedModuleType::Bytes => ModuleModel::Bytes,
            RequestedModuleType::Other(kind) => ModuleModel::Other(kind@),
            _ => ModuleModel::JavaScript,
        }
    }
}

fn get_plain_type(content_type: &str) -> (r: String)
    ensures
        r@ == plain_type(content_type@),
{
    let chars = to_chars(content_type);
    let at: usize = find_char(&chars, 0, ';');
    proof {
        assert(chars@.skip(0) =~= chars@);
        lemma_index_of(chars@, ';');
    }
    let kind = from_range(&chars, 0, at);
    assert(kind@ =~= content_type@.take(at as int));
    let kind = trim(kind.as_str());
    to_ascii_lowercase(kind.as_str())
}

/// How a module with a path is read.
pub fn module_type_of(path: &str, content_type: Option<&str>, requested: &RequestedModuleType) -> (r:
    ModuleType)
    ensures
        r@ == module_of(
            path@,
            match content_type {
                Some(kind) => Some(kind@),
                None => None,
            },
            *requested,
        ),
{
    let path = to_ascii_lowercase(path);
    let (json, wasm): (bool, bool) = match content_type {
        Some(kind) => {
            let kind = get_plain_type(kind);
            (
                same_text(kind.as_str(), "application/json"),
                same_text(kind.as_str(), "application/wasm"),
            )
        },
        None => (false, false),
    };
    if ends_with(path.as_str(), ".json") || json {
        ModuleType::Json
    } else if ends_with(path.as_str(), ".wasm") || wasm {
        ModuleType::Wasm
    } else {
        match requested {
            RequestedModuleType::Text => ModuleType::Text,
            RequestedModuleType::Bytes => ModuleType::Bytes,
            RequestedModuleType::Other(kind) => ModuleType::Other(kind.clone()),
            _ => ModuleType::JavaScript,
        }
    }
}

/// How the module at an address is read; nothing where the address cannot be read.
pub fn infer_module_type(
    specifier: &str,
    content_type: Option<&str>,
    requested: &RequestedModuleType,
) -> (r: Option<ModuleType>)
    ensures
        match (r, url_path(specifier@)) {
            (Some(module), Some(path)) => module@ == module_of(
                path,
                match content_type {
                    Some(kind) => Some(kind@),
                    None => None,
                },
                *requested,
            ),
            (None, None) => true,
            _ => false,
        },
{
    match read_path(specifier) {
        Some(path) => Some(module_type_of(path.as_str(), content_type, requested)),
        None => None,
    }
}

/// Whether modules of a scheme can be fetched.
pub open spec fn is_network(scheme: Seq<char>) -> bool {
    scheme == "http"@ || scheme == "https"@
}

pub fn is_network_scheme(scheme: &str) -> (r: bool)
    ensures
        r == is_network(scheme@),
{
    same_text(scheme, "http") || same_text(scheme, "https")
}

/// Whether the module at an address can be fetched.
pub fn can_fetch(specifier: &str) -> (r: bool)
    ensures
        r == (url_scheme(specifier@) matches Some(scheme) && is_network(scheme)),
{
    match read_scheme(specifier) {
        Some(scheme) => is_network_scheme(scheme.as_str()),
        None => false,
    }
}

/// Whether a module may be loaded as it was asked for: data has to be asked for as data.
pub fn may_load(module: &ModuleType, requested: &RequestedModuleType) -> (r: bool)
    ensures
        r == (module@ is Json ==> *requested is Json),
{
    match module {
        ModuleType::Json => match requested {
            RequestedModuleType::Json => true,
            _ => false,
        },
        _ => true,
    }
}

} // verus!
