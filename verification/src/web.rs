//! The calls into the HTTP and URL crates that the request logic makes.
use vstd::prelude::*;

verus! {

/// A byte that `HeaderValue::to_str` accepts: visible ASCII or a tab.
pub open spec fn is_visible_header_byte(b: u8) -> bool {
    (32 <= b && b < 127) || b == 9
}

/// The text of a header value, when every byte is visible ASCII or a tab.
pub open spec fn header_text(bytes: Seq<u8>) -> Option<Seq<char>> {
    if forall|i: int| 0 <= i < bytes.len() ==> is_visible_header_byte(#[trigger] bytes[i]) {
        Some(bytes.map_values(|b: u8| b as char))
    } else {
        None
    }
}

/// The text of a header value.
///
/// Trusted: builds an `actix_web::http::header::HeaderValue` from the bytes with
/// `HeaderValue::from_bytes` and reads it back with `HeaderValue::to_str`. In
/// http 0.2 `from_bytes` refuses a byte below 32 other than a tab and the byte
/// 127; `to_str` yields the bytes as a `&str` exactly when each one is in
/// 32..127 or a tab, and fails otherwise. The contract states the composition.
#[verifier::external_body]
pub fn header_value_str(bytes: &[u8]) -> (r: Option<String>)
    ensures
        r matches Some(s) ==> header_text(bytes@) == Some(s@),
        r is None ==> header_text(bytes@) is None,
{
    match actix_web::http::header::HeaderValue::from_bytes(bytes) {
        Ok(value) => match value.to_str() {
            Ok(text) => Some(text.to_string()),
            Err(_) => None,
        },
        Err(_) => None,
    }
}

/// The host that `url::Url::parse` followed by `Url::host_str` finds in a text:
/// `None` when the text does not parse, `Some(None)` when the URL has no host.
pub uninterp spec fn url_host(input: Seq<char>) -> Option<Option<Seq<char>>>;

/// Parse a URL and read its host.
///
/// Trusted: calls `url::Url::parse` and, on success, `Url::host_str`. The
/// WHATWG parsing that decides the host is not restated; the result is tied to
/// the input by the name [`url_host`], a function of the text alone.
#[verifier::external_body]
pub fn parse_url_host(input: &str) -> (r: Option<Option<String>>)
    ensures
        match r {
            None => url_host(input@) is None,
            Some(None) => url_host(input@) == Some(None::<Seq<char>>),
            Some(Some(h)) => url_host(input@) == Some(Some(h@)),
        },
{
    match url::Url::parse(input) {
        Ok(url) => Some(url.host_str().map(|h| h.to_string())),
        Err(_) => None,
    }
}

} // verus!
