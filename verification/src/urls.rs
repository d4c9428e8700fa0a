use vstd::prelude::*;

use crate::text::{join, join_strings, views};

verus! {

/// The error of the `url` crate when a URL does not parse.
#[verifier::external_type_specification]
#[verifier::external_body]
pub struct ExUrlParseError(url::ParseError);

/// The serialization of the URL that `input` denotes relative to the absolute URL `base`
/// (`url::Url::parse(base)` then `Url::join(input)`), or `None` where either step fails.
pub uninterp spec fn joined_url(base: Seq<char>, input: Seq<char>) -> Option<Seq<char>>;

/// The host of the absolute URL `url` as `url::Url::host_str` gives it, or `None` where
/// `url` does not parse or has no host.
pub uninterp spec fn url_host_of(url: Seq<char>) -> Option<Seq<char>>;

/// The views of an optional string.
pub open spec fn opt_view(s: Option<String>) -> Option<Seq<char>> {
    match s {
        Some(t) => Some(t@),
        None => None,
    }
}

/// Calls `url::Url::parse` on `base` and `url::Url::join` with `input`, and hands back the
/// serialization of the joined URL. Claims that the outcome is `joined_url` of the two
/// arguments; which `ParseError` comes back is left unsaid.
#[verifier::external_body]
pub(crate) fn url_join(base: &str, input: &str) -> (r: Result<String, url::ParseError>)
    ensures
        match r {
            Ok(s) => joined_url(base@, input@) == Some(s@),
            Err(_) => joined_url(base@, input@) is None,
        },
{
    url::Url::parse(base)?.join(input).map(String::from)
}

/// Calls `url::Url::parse` on `url` and `url::Url::host_str` on the result. Claims that
/// the outcome is `url_host_of(url)`.
#[verifier::external_body]
pub(crate) fn url_host(url: &str) -> (r: Option<String>)
    ensures
        opt_view(r) == url_host_of(url@),
{
    url::Url::parse(url).ok()?.host_str().map(String::from)
}

/// The base of the OSRM driving-route service.
pub const ROUTE_BASE: &'static str = "http://router.project-osrm.org/route/v1/driving/";

/// The view of `ROUTE_BASE`.
pub open spec fn route_base() -> Seq<char> {
    "http://router.project-osrm.org/route/v1/driving/"@
}

/// The view of the separator between the coordinates of a route.
pub open spec fn coordinate_separator() -> Seq<char> {
    ";"@
}

/// The URL of the OSRM driving route through `coordinates`, each written `lon,lat`: the
/// coordinates joined by `;`, resolved against `ROUTE_BASE`.
pub fn route_url(coordinates: &Vec<String>) -> (r: Result<String, url::ParseError>)
    ensures
        match r {
            Ok(s) => joined_url(route_base(), join(views(coordinates@), coordinate_separator()))
                == Some(s@),
            Err(_) => joined_url(route_base(), join(views(coordinates@), coordinate_separator()))
                is None,
        },
{
    let path = join_strings(coordinates, ";");
    url_join(ROUTE_BASE, path.as_str())
}

/// The host that a request to `url` is counted under: the URL's host, or the empty string
/// where it has none.
pub open spec fn request_host(url: Seq<char>) -> Seq<char> {
    match url_host_of(url) {
        Some(h) => h,
        None => Seq::empty(),
    }
}

/// The host that a request to `url` is counted under.
pub fn host_of(url: &str) -> (r: String)
    ensures
        r@ == request_host(url@),
{
    match url_host(url) {
        Some(h) => h,
        None => String::new(),
    }
}

} // verus!
