//! URLs, parsed and resolved with the `url` crate.

use crate::text;
use url::Url;
use vstd::prelude::*;

verus! {

/// `url::Url`, a parsed URL.
#[verifier::external_type_specification]
#[verifier::external_body]
pub struct ExUrl(Url);

/// The serialization that a parsed URL holds (`Url::as_str`).
pub uninterp spec fn url_text(url: Url) -> Seq<char>;

/// What `Url::parse` gives for a text: the serialization of the URL, or the
/// text of the error.
pub uninterp spec fn parsed(text: Seq<char>) -> Result<Seq<char>, Seq<char>>;

/// What `Url::join` gives for the serialization of a base URL and a reference:
/// the serialization of the resolved URL, or the text of the error.
pub uninterp spec fn joined(base: Seq<char>, reference: Seq<char>) -> Result<Seq<char>, Seq<char>>;

/// What `Url::path` gives for the URL with a serialization.
pub uninterp spec fn path_of(url: Seq<char>) -> Seq<char>;

/// What `Url::host_str` gives for the URL with a serialization.
pub uninterp spec fn host_of(url: Seq<char>) -> Option<Seq<char>>;

/// Calls `url::Url::parse`; an error is handed out as its text.
#[verifier::external_body]
pub(crate) fn parse_url(text: &str) -> (out: Result<Url, String>)
    ensures
        match out {
            Ok(url) => parsed(text@) == Ok::<Seq<char>, Seq<char>>(url_text(url)),
            Err(message) => parsed(text@) == Err::<Seq<char>, Seq<char>>(message@),
        },
{
    Url::parse(text).map_err(|e| e.to_string())
}

/// Calls `url::Url::join`; an error is handed out as its text. The result
/// depends on the serialization of the base and on the reference alone.
#[verifier::external_body]
pub(crate) fn join_url(base: &Url, reference: &str) -> (out: Result<Url, String>)
    ensures
        match out {
            Ok(url) => joined(url_text(*base), reference@) == Ok::<Seq<char>, Seq<char>>(url_text(url)),
            Err(message) => joined(url_text(*base), reference@) == Err::<Seq<char>, Seq<char>>(
                message@,
            ),
        },
{
    base.join(reference).map_err(|e| e.to_string())
}

/// Calls `url::Url::as_str`, which gives the serialization.
#[verifier::external_body]
pub(crate) fn url_string(url: &Url) -> (out: String)
    ensures
        out@ == url_text(*url),
{
    url.as_str().to_string()
}

/// Calls `url::Url::path`; the path depends on the serialization alone.
#[verifier::external_body]
pub(crate) fn url_path(url: &Url) -> (out: String)
    ensures
        out@ == path_of(url_text(*url)),
{
    url.path().to_string()
}

/// Calls `url::Url::host_str`; the host depends on the serialization alone.
#[verifier::external_body]
pub(crate) fn url_host(url: &Url) -> (out: Option<String>)
    ensures
        match out {
            Some(host) => host_of(url_text(*url)) == Some(host@),
            None => host_of(url_text(*url)) is None,
        },
{
    url.host_str().map(|h| h.to_string())
}

/// Whether `Url::origin` is the same for the URLs with two serializations.
pub uninterp spec fn one_origin(a: Seq<char>, b: Seq<char>) -> bool;

/// Calls `url::Url::origin` on both URLs and compares what it gives; that
/// depends on their serializations alone. The origin of a `blob` URL is that of
/// the URL inside it, which is read by recursion, so that `blob` URLs inside one
/// another are left out.
#[verifier::external_body]
pub(crate) fn same_origin(a: &Url, b: &Url) -> (out: bool)
    requires
        !is_nested_blob(url_text(*a)),
        !is_nested_blob(url_text(*b)),
    ensures
        out == one_origin(url_text(*a), url_text(*b)),
{
    a.origin() == b.origin()
}

/// The scheme of the URL with a serialization: what stands before the first
/// colon.
pub open spec fn scheme_of(url: Seq<char>) -> Seq<char> {
    text::until_any(url, seq![':'])
}

/// Calls `url::Url::scheme`, which gives the serialization up to its first
/// colon.
#[verifier::external_body]
pub(crate) fn url_scheme(url: &Url) -> (out: String)
    ensures
        out@ == scheme_of(url_text(*url)),
{
    url.scheme().to_string()
}

/// Whether a URL is a `blob` URL with another one inside it.
pub open spec fn is_nested_blob(url: Seq<char>) -> bool {
    scheme_of(url) == "blob"@ && (parsed(path_of(url)) matches Ok(inner) && scheme_of(inner)
        == "blob"@)
}

/// Whether a URL is a `blob` URL with another one inside it.
pub fn nests_blobs(url: &Url) -> (out: bool)
    ensures
        out == is_nested_blob(url_text(*url)),
{
    if !text::same(url_scheme(url).as_str(), "blob") {
        return false;
    }
    match parse_url(url_path(url).as_str()) {
        Ok(inner) => text::same(url_scheme(&inner).as_str(), "blob"),
        Err(_) => false,
    }
}

} // verus!
