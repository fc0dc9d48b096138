//! The errors of the library.
use vstd::prelude::*;

verus! {

/// Why a request, a header or a stored record was refused.
#[derive(Debug, Clone, Copy, PartialEq, Eq, Structural)]
pub enum CentraleError {
    /// No database connection could be had.
    NoDb,
    /// The credentials do not identify a user, or have expired.
    Unauthorized,
    /// The host has no subdomain.
    MissingSubdomain,
    /// The host has a subdomain of the wrong shape.
    InvalidSubdomain,
    /// The URL has no host.
    MissingHost,
    /// The header holding the URL is not visible ASCII text.
    UnableToParseUrl,
    /// The URL parser refused the text.
    UrlParse,
    /// A header value is not visible ASCII text.
    HeaderNotText,
    /// Neither a `Host` nor a `Referer` header is present.
    NoHostNoReferer,
    /// Neither a bearer token nor a cookie is present.
    NoTokenOrCookiePresent,
    /// The HTTP method cannot be forwarded.
    InvalidMethod,
    /// A subdomain with this name exists already.
    SuchSubdomainExists,
    /// A user with this name exists already.
    SuchUserExists,
    /// The password hasher refused its input.
    UnableToHash,
    /// The password is longer than 200 bytes.
    PasswordIsTooLong,
    /// The authenticated user is not the user named in the URL.
    WrongUser,
    /// A configuration value is not a decimal integer of the expected width.
    InvalidInteger,
    /// A configuration value is neither `true` nor `false`.
    InvalidBool,
    /// Random token bytes are not UTF-8.
    InvalidUtf8,
}

/// The view of a text result.
pub open spec fn text_result(r: Result<String, CentraleError>) -> Result<Seq<char>, CentraleError> {
    match r {
        Ok(s) => Ok(s@),
        Err(e) => Err(e),
    }
}

/// The view of an optional text.
pub open spec fn opt_text(o: Option<String>) -> Option<Seq<char>> {
    match o {
        Some(s) => Some(s@),
        None => None,
    }
}

/// The view of an optional optional text.
pub open spec fn opt_opt_text(o: Option<Option<String>>) -> Option<Option<Seq<char>>> {
    match o {
        Some(i) => Some(opt_text(i)),
        None => None,
    }
}

} // verus!
