//! Addresses: where the window navigates, and what a download is called.
use vstd::prelude::*;

use crate::scripts::location_replace_script;
use crate::scripts::replace_script;

verus! {

/// The error with which the `url` crate refuses a text.
#[verifier::external_type_specification]
#[verifier::external_body]
pub struct ExParseError(url::ParseError);

/// What `Url::parse` makes of `text`, serialized again; `None` where it
/// refuses the text.
pub uninterp spec fn parsed_url(text: Seq<char>) -> Option<Seq<char>>;

/// The segments that `Url::path_segments` gives for the address `text`; `None`
/// where the address has none, or the text is no address.
pub uninterp spec fn url_path_segments(text: Seq<char>) -> Option<Seq<Seq<char>>>;

/// `Url::parse` of the `url` crate, with the parsed address serialized. Whether
/// the text is accepted, and what it is serialized to, depends on the text
/// alone. Which error comes with a refusal is not stated.
#[verifier::external_body]
fn parse_url(text: &str) -> (r: Result<String, url::ParseError>)
    ensures
        match r {
            Ok(s) => parsed_url(text@) == Some(s@),
            Err(_) => parsed_url(text@) is None,
        },
{
    url::Url::parse(text).map(String::from)
}

/// `Url::path_segments` of the `url` crate, on the address that `text` is the
/// serialization of, with the segments collected. They depend on the text
/// alone, and where there are any there is at least one.
#[verifier::external_body]
fn path_segments(text: &str) -> (r: Option<Vec<String>>)
    ensures
        r.deep_view() == url_path_segments(text@),
        r matches Some(v) ==> v@.len() >= 1,
{
    let url = url::Url::parse(text).ok()?;
    url.path_segments().map(|s| s.map(|p| p.to_string()).collect())
}

/// How the window gets to an address.
pub enum Navigation {
    /// Navigate to `url`. If the window refuses, run `fallback` in the page.
    Navigate { url: String, fallback: String },
    /// The address was refused with `error`: run `script` in the page.
    Replace { error: url::ParseError, script: String },
}

/// Decides how to get to `url`, given what parsing it returned: an accepted
/// address is navigated to, a refused one is handed to the page as it is.
pub fn plan_navigation(url: &str, parsed: Result<String, url::ParseError>) -> (r: Navigation)
    ensures
        match parsed {
            Ok(accepted) => r matches Navigation::Navigate { url: u, fallback } && u@ == accepted@
                && fallback@ == replace_script(url@),
            Err(e) => r matches Navigation::Replace { error, script } && error == e && script@
                == replace_script(url@),
        },
        match r {
            Navigation::Navigate { fallback, .. } => fallback@,
            Navigation::Replace { script, .. } => script@,
        } == "window.location.replace('"@ + url@ + "')"@,
{
    let script = location_replace_script(url);
    match parsed {
        Ok(accepted) => Navigation::Navigate { url: accepted, fallback: script },
        Err(error) => Navigation::Replace { error, script },
    }
}

/// Parses `url` and decides how the window gets there.
pub fn navigation_to(url: &str) -> (r: Navigation)
    ensures
        match parsed_url(url@) {
            Some(accepted) => r matches Navigation::Navigate { url: u, fallback } && u@ == accepted
                && fallback@ == replace_script(url@),
            None => r matches Navigation::Replace { error, script } && script@ == replace_script(
                url@,
            ),
        },
        match r {
            Navigation::Navigate { fallback, .. } => fallback@,
            Navigation::Replace { script, .. } => script@,
        } == "window.location.replace('"@ + url@ + "')"@,
{
    plan_navigation(url, parse_url(url))
}

/// The last of the given path segments.
pub fn last_segment(segments: Option<Vec<String>>) -> (r: Option<String>)
    ensures
        match segments {
            Some(v) => if v@.len() > 0 {
                r matches Some(s) && s@ == v@.last()@
            } else {
                r is None
            },
            None => r is None,
        },
{
    match segments {
        Some(v) => if v.len() > 0 {
            Some(v[v.len() - 1].clone())
        } else {
            None
        },
        None => None,
    }
}

/// The last path segment of the address `url`, still percent-encoded. There is
/// none where the address has no path of segments, as with `data:`.
pub fn last_path_segment(url: &str) -> (r: Option<String>)
    ensures
        match url_path_segments(url@) {
            Some(segments) => segments.len() > 0 && (r matches Some(s) && s@ == segments.last()),
            None => r is None,
        },
{
    let segments = path_segments(url);
    last_segment(segments)
}

} // verus!
