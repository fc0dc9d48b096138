use centrale::error::CentraleError;
use centrale::password::{hash_and_salt, hash_password, hash_with_salt};

#[test]
fn password_cannot_be_over_200_chars() {
    let aaa = hash_and_salt(&"012345678901234567890123456789012345678901234567890123456789012345678901234567890123456789012345678910123456789012345678901234567890123456789012345678901234567890123456789012345678901234567890123456789".to_string());
    assert!(aaa.is_err());
}

#[test]
fn hash_and_salt_pairs_hash_with_its_salt() {
    let (hash, salt) = hash_and_salt(&"testpassword".to_string()).unwrap();
    assert_eq!(salt.len(), 22);
    assert!(salt.chars().all(|c| c.is_ascii_alphanumeric() || c == '+' || c == '/'));
    assert!(hash.starts_with("$argon2id$"));
    assert!(hash.contains(&salt));
    assert_eq!(hash_password("testpassword", &salt), Ok(hash));
}

#[test]
fn hash_and_salt_uses_fresh_salts() {
    let (_, s1) = hash_and_salt(&"pw".to_string()).unwrap();
    let (_, s2) = hash_and_salt(&"pw".to_string()).unwrap();
    assert_ne!(s1, s2);
}

#[test]
fn hash_password_refuses_short_salt() {
    assert_eq!(hash_password("pw", "abc"), Err(CentraleError::UnableToHash));
    assert_eq!(hash_password("pw", "bad salt!"), Err(CentraleError::UnableToHash));
}

#[test]
fn hash_password_is_deterministic() {
    let a = hash_password("pw", "c2FsdHNhbHRzYWx0").unwrap();
    let b = hash_password("pw", "c2FsdHNhbHRzYWx0").unwrap();
    assert_eq!(a, b);
    assert_ne!(a, hash_password("pw2", "c2FsdHNhbHRzYWx0").unwrap());
}

#[test]
fn hash_with_salt_length_limit_in_bytes() {
    let exactly = "x".repeat(200);
    assert!(hash_with_salt(&exactly, "c2FsdHNhbHRzYWx0".to_string()).is_ok());
    let over = "x".repeat(201);
    assert_eq!(
        hash_with_salt(&over, "c2FsdHNhbHRzYWx0".to_string()),
        Err(CentraleError::PasswordIsTooLong)
    );
    let wide = "ä".repeat(101);
    assert_eq!(
        hash_with_salt(&wide, "c2FsdHNhbHRzYWx0".to_string()),
        Err(CentraleError::PasswordIsTooLong)
    );
}
