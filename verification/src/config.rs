//! Fixed settings, and the settings read as text from the environment.
use vstd::prelude::*;
use crate::error::CentraleError;

verus! {

/// Fixed settings of the server.
pub struct CentraleConfig;

impl CentraleConfig {
    pub const SERVER_ADDRESS: &'static str = "127.0.0.1:8080";
    pub const DB_FOLDER: &'static str = "centrale";
    pub const DB_FILE: &'static str = "centrale.db";
    pub const DOMAIN: &'static str = "localhost";
    /// One day, in seconds.
    pub const COOKIE_TIMEOUT: i64 = 86400;
    pub const COOKIE_SECURE: bool = false;
    pub const COOKIE_HTTP_ONLY: bool = false;
}

/// Whether `c` is an ASCII decimal digit.
pub open spec fn is_ascii_digit(c: char) -> bool {
    '0' <= c && c <= '9'
}

/// A nonempty run of ASCII decimal digits.
pub open spec fn all_digits(ds: Seq<char>) -> bool {
    ds.len() > 0 && forall|i: int| 0 <= i < ds.len() ==> is_ascii_digit(#[trigger] ds[i])
}

/// The value of a run of decimal digits.
pub open spec fn digits_value(ds: Seq<char>) -> int
    decreases ds.len(),
{
    if ds.len() == 0 {
        0
    } else {
        10 * digits_value(ds.drop_last()) + (ds.last() as int - 48)
    }
}

/// The integer a text spells: an optional `+` or `-` then only digits.
pub open spec fn spec_decimal(s: Seq<char>) -> Option<int> {
    if s.len() > 0 && s[0] == '-' {
        if all_digits(s.drop_first()) {
            Some(-digits_value(s.drop_first()))
        } else {
            None
        }
    } else if s.len() > 0 && s[0] == '+' {
        if all_digits(s.drop_first()) {
            Some(digits_value(s.drop_first()))
        } else {
            None
        }
    } else if all_digits(s) {
        Some(digits_value(s))
    } else {
        None
    }
}

/// `s.parse::<i64>()`: the integer spelled, when it fits.
pub open spec fn spec_parse_i64(s: Seq<char>) -> Option<i64> {
    match spec_decimal(s) {
        Some(v) => if i64::MIN <= v <= i64::MAX {
            Some(v as i64)
        } else {
            None
        },
        None => None,
    }
}

/// `s.parse::<bool>()`.
pub open spec fn spec_parse_bool(s: Seq<char>) -> Option<bool> {
    if s == "true"@ {
        Some(true)
    } else if s == "false"@ {
        Some(false)
    } else {
        None
    }
}

/// Parse a signed 64-bit integer.
///
/// Trusted: calls `str::parse::<i64>`, which std documents as accepting an
/// optional `+` or `-` followed by one or more ASCII digits and nothing else,
/// and failing when the value does not fit in an `i64`.
#[verifier::external_body]
fn parse_i64(s: &str) -> (r: Option<i64>)
    ensures
        r == spec_parse_i64(s@),
{
    s.parse::<i64>().ok()
}

/// Parse a boolean.
///
/// Trusted: calls `str::parse::<bool>`, which std documents as accepting
/// exactly `true` and `false`.
#[verifier::external_body]
fn parse_bool(s: &str) -> (r: Option<bool>)
    ensures
        r == spec_parse_bool(s@),
{
    s.parse::<bool>().ok()
}

/// A cookie lifetime in seconds, from its configured text.
pub fn parse_timeout(timeout: &str) -> (r: Result<i64, CentraleError>)
    ensures
        match spec_parse_i64(timeout@) {
            Some(t) => r == Ok::<i64, CentraleError>(t),
            None => r == Err::<i64, CentraleError>(CentraleError::InvalidInteger),
        },
{
    match parse_i64(timeout) {
        Some(t) => Ok(t),
        None => Err(CentraleError::InvalidInteger),
    }
}

/// The attributes of the session cookie.
pub struct CookieSettings {
    /// Lifetime in seconds.
    pub max_age: i64,
    /// Sent over HTTPS only.
    pub secure: bool,
    /// Hidden from scripts.
    pub http_only: bool,
}

/// The session cookie's attributes from their configured texts; the lifetime
/// is read first, then `secure`, then `http_only`.
pub fn cookie_settings(timeout: &str, secure: &str, http_only: &str) -> (r: Result<CookieSettings, CentraleError>)
    ensures
        match (spec_parse_i64(timeout@), spec_parse_bool(secure@), spec_parse_bool(http_only@)) {
            (None, _, _) => r == Err::<CookieSettings, CentraleError>(CentraleError::InvalidInteger),
            (Some(_), None, _) => r == Err::<CookieSettings, CentraleError>(CentraleError::InvalidBool),
            (Some(_), Some(_), None) => r == Err::<CookieSettings, CentraleError>(CentraleError::InvalidBool),
            (Some(t), Some(s), Some(h)) => r == Ok::<CookieSettings, CentraleError>(
                CookieSettings { max_age: t, secure: s, http_only: h },
            ),
        },
{
    let max_age = match parse_i64(timeout) {
        Some(t) => t,
        None => {
            return Err(CentraleError::InvalidInteger);
        },
    };
    let secure = match parse_bool(secure) {
        Some(b) => b,
        None => {
            return Err(CentraleError::InvalidBool);
        },
    };
    let http_only = match parse_bool(http_only) {
        Some(b) => b,
        None => {
            return Err(CentraleError::InvalidBool);
        },
    };
    Ok(CookieSettings { max_age, secure, http_only })
}

} // verus!
