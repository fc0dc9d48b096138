use centrale::auth::CentraleUser;
use centrale::error::CentraleError;
use centrale::path::resolve_safe_path;
use centrale::proxy::{
    choose_credential, get_host, is_front, upstream_request, upstream_request_with_payload,
    wildcard_action, Credential, WildcardAction,
};
use centrale::server::origin_is_allowed;

fn user() -> CentraleUser {
    CentraleUser {
        user_id: 7,
        subdomain: "hello".to_string(),
        role: "admin".to_string(),
        pass: "secret".to_string(),
        url: "dest.example/api".to_string(),
        destination_bearer: "xyz".to_string(),
    }
}

#[test]
fn get_host_prefers_host() {
    let host: &[u8] = b"https://hello.hello.ee";
    let referer: &[u8] = b"http://subdomain.localhost.com";
    assert_eq!(get_host(Some(host), Some(referer)), Ok(host));
    assert_eq!(get_host(None, Some(referer)), Ok(referer));
    assert_eq!(get_host(None, None), Err(CentraleError::NoHostNoReferer));
}

#[test]
fn credential_prefers_token() {
    let c = choose_credential(Some(&b"Bearer token"[..]), Some("centrale=abc".to_string()));
    assert!(matches!(c, Ok(Credential::BearerToken(ref t)) if t == "Bearer token"));
    let c = choose_credential(None, Some("centrale=abc".to_string()));
    assert!(matches!(c, Ok(Credential::Cookie(ref k)) if k == "centrale=abc"));
}

#[test]
fn credential_errors() {
    assert!(matches!(choose_credential(None, None), Err(CentraleError::NoTokenOrCookiePresent)));
    assert!(matches!(
        choose_credential(Some(&[0x7fu8][..]), Some("c".to_string())),
        Err(CentraleError::HeaderNotText)
    ));
}

#[test]
fn is_front_examples() {
    assert!(is_front("dest.example/", "dest.example"));
    assert!(!is_front("dest.example", "dest.example"));
    assert!(is_front("/src/main.rs", "d"));
    assert!(is_front("/web/index", "d"));
    assert!(is_front("x/app.js", "d"));
    assert!(is_front("x/font.woff2", "d"));
    assert!(is_front("/favicon-32.png", "d"));
    assert!(is_front("/favicon-abc", "d"));
    assert!(is_front("/favicon.ico", "d"));
    assert!(!is_front("/favicon.icox", "d"));
    assert!(is_front("/OpenSans-Regular.x", "d"));
    assert!(!is_front("/api/data", "d"));
    assert!(!is_front("", "d"));
}

#[test]
fn upstream_request_headers() {
    let r = upstream_request(&user());
    assert_eq!(r.url, "https://dest.example/api");
    assert_eq!(
        r.headers,
        vec![
            ("authorization".to_string(), "Bearer xyz".to_string()),
            ("centrale_subdomain".to_string(), "hello".to_string()),
            ("centrale_password".to_string(), "secret".to_string()),
            ("centrale_role".to_string(), "admin".to_string()),
        ]
    );
    assert!(r.body.is_none());
}

#[test]
fn upstream_request_with_payload_forwards_content_type_and_body() {
    let r = upstream_request_with_payload(&user(), Some(&b"multipart/form-data; boundary=x"[..]), b"abc");
    assert_eq!(r.headers.len(), 5);
    assert_eq!(
        r.headers[4],
        ("content-type".to_string(), "multipart/form-data; boundary=x".to_string())
    );
    assert_eq!(r.body, Some(b"abc".to_vec()));
    let r = upstream_request_with_payload(&user(), Some(&[0x80u8][..]), b"");
    assert_eq!(r.headers.len(), 4);
    assert!(r.body.is_none());
    let r = upstream_request_with_payload(&user(), None, b"x");
    assert_eq!(r.headers.len(), 4);
    assert_eq!(r.url, "https://dest.example/api");
}

#[test]
fn wildcard_action_order() {
    assert!(matches!(wildcard_action(true, &user(), "dest.example"), WildcardAction::Stream));
    let mut u = user();
    u.url = "dest.example/".to_string();
    assert!(matches!(wildcard_action(false, &u, "dest.example"), WildcardAction::ServeFront));
    match wildcard_action(false, &user(), "dest.example") {
        WildcardAction::Forward(r) => assert_eq!(r.url, "https://dest.example/api"),
        _ => panic!("expected a forward"),
    }
}

#[test]
fn resolve_safe_path_examples() {
    assert_eq!(resolve_safe_path("/srv/front", "/"), Some("/srv/front/index.html".to_string()));
    assert_eq!(resolve_safe_path("/srv/front", ""), Some("/srv/front/index.html".to_string()));
    assert_eq!(resolve_safe_path("/srv/front", "/a/b.js"), Some("/srv/front/a/b.js".to_string()));
    assert_eq!(resolve_safe_path("/srv/", "//a"), Some("/srv/a".to_string()));
    assert_eq!(resolve_safe_path("", "x/y"), Some("x/y".to_string()));
    assert_eq!(resolve_safe_path("r", "a/./b//c/"), Some("r/a/b/c".to_string()));
}

#[test]
fn resolve_safe_path_rejects_traversal() {
    assert_eq!(resolve_safe_path("/srv", "/../etc/passwd"), None);
    assert_eq!(resolve_safe_path("/srv", "/a/../../b"), None);
    assert_eq!(resolve_safe_path("/srv", "/./x"), None);
    assert_eq!(resolve_safe_path("/srv", "/."), None);
    assert_eq!(resolve_safe_path("/srv", "/a/.."), None);
}

#[test]
fn resolve_safe_path_matches_std_path() {
    let resolved = resolve_safe_path("/srv/front", "/a//b/./c.css").unwrap();
    let mut expected = std::path::PathBuf::from("/srv/front");
    for c in std::path::Path::new("a//b/./c.css").components() {
        expected.push(c);
    }
    assert_eq!(std::path::PathBuf::from(resolved), expected);
}

#[test]
fn origin_allowed_examples() {
    assert!(origin_is_allowed("https://example.com", "example.com"));
    assert!(origin_is_allowed("http://example.com:3000/path", "example.com"));
    assert!(origin_is_allowed("https://app.example.com", "example.com"));
    assert!(!origin_is_allowed("https://evilexample.com", "example.com"));
    assert!(!origin_is_allowed("ftp://example.com", "example.com"));
    assert!(!origin_is_allowed("https://example.com.evil.com", "example.com"));
    assert!(!origin_is_allowed("example.com", "example.com"));
}
