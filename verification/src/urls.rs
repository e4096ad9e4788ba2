//! URLs, which the `url` crate parses.

use vstd::prelude::*;

verus! {

#[verifier::external_type_specification]
#[verifier::external_body]
pub struct ExParseError(url::ParseError);

/// Whether `Url::parse` accepts `text` as an absolute URL.
pub uninterp spec fn url_parses(text: Seq<char>) -> bool;

/// The host of the URL that `text` parses to, as `Url::host_str` gives it;
/// none where the URL has no host.
pub uninterp spec fn url_host_of(text: Seq<char>) -> Option<Seq<char>>;

/// The value of a host.
pub open spec fn host_view(host: Option<String>) -> Option<Seq<char>> {
    match host {
        Some(h) => Some(h@),
        None => None,
    }
}

/// Parses `text` with `Url::parse` and reads the host of the URL with
/// `Url::host_str`. The result is `Ok` exactly where the crate accepts
/// `text`, and then holds the host that the crate finds in it.
#[verifier::external_body]
pub(crate) fn parse_host(text: &str) -> (r: Result<Option<String>, url::ParseError>)
    ensures
        r is Ok <==> url_parses(text@),
        r matches Ok(host) ==> host_view(host) == url_host_of(text@),
{
    url::Url::parse(text).map(|parsed| parsed.host_str().map(String::from))
}

} // verus!
