//! Password hashing: a fresh salt per password, Argon2 in PHC string form.
use vstd::prelude::*;
use vstd::utf8::encode_utf8;
use crate::error::CentraleError;
use argon2::password_hash::SaltString;
use argon2::{Argon2, PasswordHasher};

verus! {

/// A character of the standard Base64 alphabet.
pub open spec fn is_b64_char(c: char) -> bool {
    ('a' <= c && c <= 'z') || ('A' <= c && c <= 'Z') || ('0' <= c && c <= '9') || c == '+' || c == '/'
}

/// The shape of a generated salt: 22 Base64 characters (16 random bytes).
pub open spec fn is_generated_salt(s: Seq<char>) -> bool {
    s.len() == 22 && forall|i: int| 0 <= i < s.len() ==> is_b64_char(#[trigger] s[i])
}

/// The PHC string that `Argon2::default()` makes of a password and a B64 salt,
/// or `None` when the salt or the password is refused.
pub uninterp spec fn argon2_phc(password: Seq<u8>, salt: Seq<char>) -> Option<Seq<char>>;

/// A fresh random salt.
///
/// Trusted: calls `SaltString::generate` with `rand::rngs::OsRng` and reads it
/// with `SaltString::as_str`. In password-hash 0.5 `generate` fills 16 bytes
/// from the generator (which panics when the operating system cannot supply
/// randomness) and encodes them as unpadded standard Base64, 22 characters.
#[verifier::external_body]
pub(crate) fn generate_salt() -> (r: String)
    ensures
        is_generated_salt(r@),
{
    SaltString::generate(&mut rand::rngs::OsRng).as_str().to_string()
}

/// Argon2 hash of a password with a salt.
///
/// Trusted: reads the salt with `SaltString::from_b64`, hashes with
/// `PasswordHasher::hash_password` on `Argon2::default()` and writes the PHC
/// string with `to_string`; any refusal gives `None`. The algorithm is not
/// restated: the result is the name [`argon2_phc`] of the password bytes and
/// the salt, on which it alone depends (default parameters, no secret).
#[verifier::external_body]
fn argon2_hash(password: &[u8], salt: &str) -> (r: Option<String>)
    ensures
        match r {
            Some(h) => argon2_phc(password@, salt@) == Some(h@),
            None => argon2_phc(password@, salt@) is None,
        },
{
    let salt = match SaltString::from_b64(salt) {
        Ok(s) => s,
        Err(_) => return None,
    };
    match Argon2::default().hash_password(password, &salt) {
        Ok(hash) => Some(hash.to_string()),
        Err(_) => None,
    }
}

/// The hash of a password with a given salt.
pub open spec fn spec_hash_password(password: Seq<char>, salt: Seq<char>) -> Result<Seq<char>, CentraleError> {
    match argon2_phc(encode_utf8(password), salt) {
        Some(h) => Ok(h),
        None => Err(CentraleError::UnableToHash),
    }
}

/// Hash a password with a salt; a refusal of the hasher is `UnableToHash`.
pub fn hash_password(password: &str, salt: &str) -> (r: Result<String, CentraleError>)
    ensures
        crate::error::text_result(r) == spec_hash_password(password@, salt@),
{
    match argon2_hash(password.as_bytes(), salt) {
        Some(hash) => Ok(hash),
        None => Err(CentraleError::UnableToHash),
    }
}

/// The longest password accepted, in bytes.
pub open spec fn max_password_bytes() -> nat {
    200
}

/// Hash a password with the given salt, keeping the salt beside the hash;
/// passwords longer than 200 bytes are refused.
pub fn hash_with_salt(password: &str, salt: String) -> (r: Result<(String, String), CentraleError>)
    ensures
        encode_utf8(password@).len() > max_password_bytes() ==> r == Err::<(String, String), CentraleError>(
            CentraleError::PasswordIsTooLong,
        ),
        encode_utf8(password@).len() <= max_password_bytes() ==> match spec_hash_password(password@, salt@) {
            Ok(h) => r matches Ok(pair) && pair.0@ == h && pair.1@ == salt@,
            Err(e) => r == Err::<(String, String), CentraleError>(e),
        },
{
    if password.as_bytes().len() > 200 {
        return Err(CentraleError::PasswordIsTooLong);
    }
    match hash_password(password, salt.as_str()) {
        Ok(hash) => Ok((hash, salt)),
        Err(e) => Err(e),
    }
}

/// The outcome of hashing a password of allowed length with a fresh salt:
/// the hash and the generated salt it was made with, or `UnableToHash` when
/// the hasher refused that salt.
pub open spec fn hashed_with_fresh_salt(password: Seq<char>, r: Result<(String, String), CentraleError>) -> bool {
    match r {
        Ok(pair) => is_generated_salt(pair.1@) && spec_hash_password(password, pair.1@) == Ok::<
            Seq<char>,
            CentraleError,
        >(pair.0@),
        Err(e) => e == CentraleError::UnableToHash && exists|salt: Seq<char>|
            is_generated_salt(salt) && #[trigger] spec_hash_password(password, salt) == Err::<
                Seq<char>,
                CentraleError,
            >(CentraleError::UnableToHash),
    }
}

/// Create salt, hash password: the pair of the PHC hash and the fresh salt
/// it was made with; passwords longer than 200 bytes are refused first.
pub fn hash_and_salt(password: &String) -> (r: Result<(String, String), CentraleError>)
    ensures
        encode_utf8(password@).len() > max_password_bytes() ==> r == Err::<(String, String), CentraleError>(
            CentraleError::PasswordIsTooLong,
        ),
        encode_utf8(password@).len() <= max_password_bytes() ==> hashed_with_fresh_salt(password@, r),
{
    if password.as_str().as_bytes().len() > 200 {
        return Err(CentraleError::PasswordIsTooLong);
    }
    let salt = generate_salt();
    let ghost s = salt@;
    let r = hash_with_salt(password.as_str(), salt);
    assert(r matches Ok(pair) ==> pair.1@ == s);
    assert(r is Err ==> spec_hash_password(password@, s) == Err::<Seq<char>, CentraleError>(
        CentraleError::UnableToHash,
    ));
    r
}

/// The credentials of a new user: refused when a user of that name exists
/// (`existing` counts them), else the hash and salt of the password.
pub fn new_user_credentials(existing: i64, password: &String) -> (r: Result<(String, String), CentraleError>)
    ensures
        existing > 0 ==> r == Err::<(String, String), CentraleError>(CentraleError::SuchUserExists),
        existing <= 0 && encode_utf8(password@).len() > max_password_bytes() ==> r == Err::<
            (String, String),
            CentraleError,
        >(CentraleError::PasswordIsTooLong),
        existing <= 0 && encode_utf8(password@).len() <= max_password_bytes() ==> hashed_with_fresh_salt(
            password@,
            r,
        ),
{
    if existing > 0 {
        return Err(CentraleError::SuchUserExists);
    }
    hash_and_salt(password)
}

/// The password of a new subdomain: refused when the subdomain exists
/// (`existing` counts it), else a fresh random salt string.
pub fn new_subdomain_password(existing: i64) -> (r: Result<String, CentraleError>)
    ensures
        existing > 0 ==> r == Err::<String, CentraleError>(CentraleError::SuchSubdomainExists),
        existing <= 0 ==> (r matches Ok(p) && is_generated_salt(p@)),
{
    if existing > 0 {
        return Err(CentraleError::SuchSubdomainExists);
    }
    Ok(generate_salt())
}

} // verus!
