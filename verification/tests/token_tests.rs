use centrale::error::CentraleError;
use centrale::token::{cookie_owner_if_current, first_current_cookie_owner, get_centrale_cookie, CentraleBearer, CentraleCookie};

const SHA256_ABC: &str = "ba7816bf8f01cfea414140de5dae2223b00361a396177a9cb410ff61f20015ad";

#[test]
fn hash_token_bytes_is_lowercase_hex() {
    assert_eq!(CentraleCookie::hash_token_bytes(&[0x00, 0xab, 0xff, 0x10]), "00abff10");
    assert_eq!(CentraleCookie::hash_token_bytes(&[]), "");
}

#[test]
fn hash_token_is_hex_sha256() {
    assert_eq!(CentraleCookie::hash_token("abc"), SHA256_ABC);
    assert_eq!(CentraleBearer::hash_token("abc"), SHA256_ABC);
    assert_eq!(
        CentraleCookie::hash_token(""),
        "e3b0c44298fc1c149afbf4c8996fb92427ae41e4649b934ca495991b7852b855"
    );
}

#[test]
fn cookie_from_random_is_hex_and_hashed() {
    let c = CentraleCookie::client_cookie_from_random(&[1, 2, 0xfe], 100, 50);
    assert_eq!(c.cookie, "0102fe");
    assert_eq!(c.hash, CentraleCookie::hash_token("0102fe"));
    assert_eq!(c.expires, 150);
}

#[test]
fn issued_cookie_validates_by_its_hash() {
    let c = CentraleCookie::issue_client_cookie(1_700_000_000, 86400);
    assert_eq!(c.cookie.len(), 64);
    assert!(c.cookie.chars().all(|ch| ch.is_ascii_hexdigit() && !ch.is_ascii_uppercase()));
    assert_eq!(c.hash, CentraleCookie::hash_token(&c.cookie));
    assert_eq!(c.hash.len(), 64);
    assert_eq!(c.expires, 1_700_086_400);
    let d = CentraleCookie::issue_client_cookie(1_700_000_000, 86400);
    assert_ne!(c.cookie, d.cookie);
}

#[test]
fn bearer_from_random_bytes() {
    let b = CentraleBearer::bearer_from_random(b"4711".to_vec()).unwrap();
    assert_eq!(b.token, "4711");
    assert_eq!(b.hash, CentraleBearer::hash_token("4711"));
    assert!(matches!(
        CentraleBearer::bearer_from_random(vec![0xff, 0x00]),
        Err(CentraleError::InvalidUtf8)
    ));
}

#[test]
fn get_centrale_cookie_reads_value() {
    assert_eq!(
        get_centrale_cookie("centrale=abc123; Domain=localhost; Max-Age=86400"),
        Ok("abc123".to_string())
    );
    assert_eq!(get_centrale_cookie("a=b=c; x=y"), Ok("b".to_string()));
    assert_eq!(get_centrale_cookie("centrale="), Ok("".to_string()));
}

#[test]
fn cookie_owner_until_expiry() {
    assert_eq!(cookie_owner_if_current(7, 100, 50), Ok(7));
    assert_eq!(cookie_owner_if_current(7, 100, 100), Ok(7));
    assert_eq!(cookie_owner_if_current(7, 50, 100), Err(CentraleError::Unauthorized));
}

#[test]
fn hex_encoding_keeps_bytes_apart() {
    let a = CentraleCookie::hash_token_bytes(&[0x01, 0x23]);
    let b = CentraleCookie::hash_token_bytes(&[0x12, 0x03]);
    assert_eq!(a, "0123");
    assert_eq!(b, "1203");
    assert_ne!(a, b);
    assert_eq!(CentraleCookie::hash_token_bytes(&[0u8; 32]).len(), 64);
}

#[test]
fn cookie_counts_only_before_expiry() {
    assert_eq!(first_current_cookie_owner(&vec![(7, 101)], 100), Some(7));
    assert_eq!(first_current_cookie_owner(&vec![(7, 100)], 100), None);
    assert_eq!(first_current_cookie_owner(&vec![(7, 99)], 100), None);
    assert_eq!(first_current_cookie_owner(&vec![], 100), None);
}

#[test]
fn cookie_owner_is_first_unexpired_row() {
    assert_eq!(first_current_cookie_owner(&vec![(1, 50), (2, 150), (3, 200)], 100), Some(2));
}

#[test]
fn issued_cookie_round_trip() {
    let issued = CentraleCookie::client_cookie_from_random(&[7u8; 32], 1000, 60);
    assert_eq!(issued.hash, CentraleCookie::hash_token(&issued.cookie));
    assert_ne!(issued.hash, issued.cookie);
    let stored = vec![(42, issued.expires)];
    assert_eq!(first_current_cookie_owner(&stored, 1000), Some(42));
    assert_eq!(first_current_cookie_owner(&stored, 1059), Some(42));
    assert_eq!(first_current_cookie_owner(&stored, 1060), None);
    assert_eq!(first_current_cookie_owner(&stored, 2000), None);
    let unknown: Vec<(i64, i64)> = vec![];
    assert_eq!(first_current_cookie_owner(&unknown, 1000), None);
}
