//! Serving the embedded web UI: which file answers a path, and as what type.

use vstd::prelude::*;

use crate::text::{strip_leading, trim_start_char};

verus! {

/// The page every unknown path falls back to, so client-side routes resolve.
pub const INDEX_HTML: &'static str = "index.html";

/// The content type of the fallback page.
pub const HTML_TYPE: &'static str = "text/html";

/// The asset a request path asks for: the path without leading slashes, or the
/// index page for the root.
pub open spec fn asset_path_spec(uri_path: Seq<char>) -> Seq<char> {
    if strip_leading(uri_path, '/').len() == 0 {
        INDEX_HTML@
    } else {
        strip_leading(uri_path, '/')
    }
}

/// See `asset_path_spec`.
pub fn asset_path(uri_path: &str) -> (p: String)
    ensures
        p@ == asset_path_spec(uri_path@),
{
    let p = trim_start_char(uri_path, '/');
    if p.as_str().is_empty() {
        INDEX_HTML.to_owned()
    } else {
        p
    }
}

/// The content type mime_guess gives a path (the first guess, else
/// `application/octet-stream`).
pub uninterp spec fn guessed_mime(path: Seq<char>) -> Seq<char>;

/// Calls `mime_guess::from_path(..).first_or_octet_stream()`. Claims: the
/// result is `guessed_mime` of the path.
#[verifier::external_body]
fn mime_for_path(path: &str) -> (m: String)
    ensures
        m@ == guessed_mime(path@),
{
    mime_guess::from_path(path).first_or_octet_stream().as_ref().to_string()
}

/// How a request for the UI is answered.
#[derive(Clone, Debug, PartialEq, Eq)]
pub enum AssetAnswer {
    /// the embedded file at this path, with this content type
    File { path: String, content_type: String },
    /// the embedded index page, as HTML
    IndexPage,
    NotFound,
}

/// The answer to a request for `path`, given whether the file and the index
/// page are embedded: the file itself, else the index page, else not found.
pub fn static_answer(path: &str, file_found: bool, index_found: bool) -> (a: AssetAnswer)
    ensures
        file_found ==> (a matches AssetAnswer::File { path: p, content_type: t } && p@ == path@
            && t@ == guessed_mime(path@)),
        !file_found && index_found ==> a is IndexPage,
        !file_found && !index_found ==> a is NotFound,
{
    if file_found {
        AssetAnswer::File { path: path.to_owned(), content_type: mime_for_path(path) }
    } else if index_found {
        AssetAnswer::IndexPage
    } else {
        AssetAnswer::NotFound
    }
}

} // verus!
