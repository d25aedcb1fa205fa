//! Where the text of a page comes from.
use vstd::prelude::*;

use crate::forms::FormMethod;
use crate::forms::FormNavigation;
use crate::forms::NavigationModel;
use crate::text::same_text;
use crate::text::starts;
use crate::text::strip_prefix;

verus! {

/// Where the text of a page comes from.
#[derive(Debug, PartialEq)]
pub enum PageSource {
    /// It is known.
    Text(String),
    /// It is read from a file.
    File(String),
    /// It is asked for.
    Get(String),
    /// It is the answer to a form.
    Post { url: String, body: String },
}

/// What a [`PageSource`] says.
pub enum SourceModel {
    Text(Seq<char>),
    File(Seq<char>),
    Get(Seq<char>),
    Post { url: Seq<char>, body: Seq<char> },
}

impl View for PageSource {
    type V = SourceModel;

    open spec fn view(&self) -> SourceModel {
        match self {
            PageSource::Text(text) => SourceModel::Text(text@),
            PageSource::File(path) => SourceModel::File(path@),
            PageSource::Get(url) => SourceModel::Get(url@),
            PageSource::Post { url, body } => SourceModel::Post { url: url@, body: body@ },
        }
    }
}

/// The page that shows nothing.
pub open spec fn blank_page() -> Seq<char> {
    "<html>\n  <head></head>\n  <body></body>\n</html>"@
}

/// Where the text of a page comes from. The page `about:blank` is empty, and an address that begins
/// with `file://` names a file, unless a form is sent to it.
pub open spec fn source_of(request: NavigationModel) -> SourceModel {
    if request.url == "about:blank"@ {
        SourceModel::Text(blank_page())
    } else {
        match request.method {
            FormMethod::Get => if starts(request.url, "file://"@) {
                SourceModel::File(request.url.skip("file://"@.len() as int))
            } else {
                SourceModel::Get(request.url)
            },
            FormMethod::Post => SourceModel::Post {
                url: request.url,
                body: match request.body {
                    Some(body) => body,
                    None => Seq::empty(),
                },
            },
        }
    }
}

/// Where the text of a page comes from.
pub fn get_html_for_navigation(request: FormNavigation) -> (r: PageSource)
    ensures
        r@ == source_of(request@),
{
    if same_text(request.url.as_str(), "about:blank") {
        return PageSource::Text("<html>\n  <head></head>\n  <body></body>\n</html>".to_owned());
    }
    match request.method {
        FormMethod::Get => match strip_prefix(request.url.as_str(), "file://") {
            Some(path) => PageSource::File(path),
            None => PageSource::Get(request.url),
        },
        FormMethod::Post => {
            let body = match request.body {
                Some(body) => body,
                None => {
                    let empty = String::new();
                    assert(empty@ =~= Seq::empty());
                    empty
                },
            };
            PageSource::Post { url: request.url, body }
        },
    }
}

} // verus!
