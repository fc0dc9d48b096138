use centrale::config::{cookie_settings, parse_timeout, CentraleConfig};
use centrale::error::CentraleError;

#[test]
fn fixed_settings() {
    assert_eq!(CentraleConfig::SERVER_ADDRESS, "127.0.0.1:8080");
    assert_eq!(CentraleConfig::DOMAIN, "localhost");
    assert_eq!(CentraleConfig::COOKIE_TIMEOUT, 86400);
    assert!(!CentraleConfig::COOKIE_SECURE);
    assert!(!CentraleConfig::COOKIE_HTTP_ONLY);
    assert_eq!(CentraleConfig::DB_FILE, "centrale.db");
    assert_eq!(CentraleConfig::DB_FOLDER, "centrale");
}

#[test]
fn parse_timeout_values() {
    assert_eq!(parse_timeout("86400"), Ok(86400));
    assert_eq!(parse_timeout("+5"), Ok(5));
    assert_eq!(parse_timeout("-7"), Ok(-7));
    assert_eq!(parse_timeout(" 5"), Err(CentraleError::InvalidInteger));
    assert_eq!(parse_timeout(""), Err(CentraleError::InvalidInteger));
    assert_eq!(parse_timeout("-"), Err(CentraleError::InvalidInteger));
    assert_eq!(parse_timeout("99999999999999999999"), Err(CentraleError::InvalidInteger));
    assert_eq!(parse_timeout("-9223372036854775808"), Ok(i64::MIN));
}

#[test]
fn cookie_settings_values() {
    let s = cookie_settings("86400", "false", "true").unwrap();
    assert_eq!(s.max_age, 86400);
    assert!(!s.secure);
    assert!(s.http_only);
}

#[test]
fn cookie_settings_errors() {
    assert!(matches!(cookie_settings("x", "yes", "true"), Err(CentraleError::InvalidInteger)));
    assert!(matches!(cookie_settings("1", "yes", "true"), Err(CentraleError::InvalidBool)));
    assert!(matches!(cookie_settings("1", "true", "True"), Err(CentraleError::InvalidBool)));
}
