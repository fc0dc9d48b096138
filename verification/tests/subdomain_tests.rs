use centrale::error::CentraleError;
use centrale::proxy;
use centrale::subdomain::{extract_subdomain, get_subdomain, subdomain_from_host, subdomain_from_url_host};

#[test]
fn extract_subdomain_drops_domain_and_tld() {
    assert_eq!(extract_subdomain(vec!["hello", "hello", "ee"]), Some("hello".to_string()));
    assert_eq!(extract_subdomain(vec!["x", "y", "z", "w"]), Some("x.y".to_string()));
    assert_eq!(extract_subdomain(vec!["", "b", "c"]), Some("".to_string()));
}

#[test]
fn extract_subdomain_needs_three_parts() {
    assert_eq!(extract_subdomain(vec!["hello", "ee"]), None);
    assert_eq!(extract_subdomain(vec!["ee"]), None);
    assert_eq!(extract_subdomain(vec![]), None);
}

#[test]
fn get_subdomain_normal_url() {
    assert_eq!(get_subdomain(b"https://hello.hello.ee"), Ok("hello".to_string()));
    assert_eq!(get_subdomain(b"https://a.b.c.d/path"), Ok("a.b".to_string()));
    assert_eq!(get_subdomain(b"http://App.Example.com:8080"), Ok("app".to_string()));
}

#[test]
fn get_subdomain_errors() {
    assert_eq!(get_subdomain(b"https://hello.ee"), Err(CentraleError::MissingSubdomain));
    assert_eq!(get_subdomain(b""), Err(CentraleError::UrlParse));
    assert_eq!(get_subdomain(b"Some"), Err(CentraleError::UrlParse));
    assert_eq!(get_subdomain(b"mailto:someone"), Err(CentraleError::MissingHost));
    assert_eq!(get_subdomain(&[0x68, 0xff]), Err(CentraleError::InvalidSubdomain));
    assert_eq!(get_subdomain(&[0x01]), Err(CentraleError::InvalidSubdomain));
}

#[test]
fn subdomain_from_url_host_outcomes() {
    assert_eq!(subdomain_from_url_host(None), Err(CentraleError::UrlParse));
    assert_eq!(subdomain_from_url_host(Some(None)), Err(CentraleError::MissingHost));
    assert_eq!(
        subdomain_from_url_host(Some(Some("a.b.c".to_string()))),
        Ok("a".to_string())
    );
    assert_eq!(
        subdomain_from_url_host(Some(Some(".b.c".to_string()))),
        Err(CentraleError::MissingSubdomain)
    );
}

#[test]
fn subdomain_from_host_rebuilds_host() {
    let host = "one.two.example.org";
    let sub = subdomain_from_host(host).unwrap();
    assert_eq!(format!("{}.example.org", sub), host);
}

#[test]
fn proxy_subdomain_three_labels() {
    assert_eq!(proxy::get_subdomain(b"https://hello.hello.ee"), Ok("hello".to_string()));
    assert_eq!(
        proxy::subdomain_from_url_host(Some(Some("x.y.z".to_string()))),
        Ok("x".to_string())
    );
}

#[test]
fn proxy_subdomain_two_subdomains_fail() {
    assert_eq!(
        proxy::get_subdomain(b"https://hello.hello.hello.ee"),
        Err(CentraleError::InvalidSubdomain)
    );
}

#[test]
fn proxy_subdomain_just_domain_fails() {
    assert_eq!(proxy::get_subdomain(b"https://hello.ee"), Err(CentraleError::InvalidSubdomain));
}

#[test]
fn proxy_subdomain_other_errors() {
    assert_eq!(proxy::get_subdomain(b""), Err(CentraleError::UrlParse));
    assert_eq!(proxy::get_subdomain(b"Some"), Err(CentraleError::UrlParse));
    assert_eq!(proxy::get_subdomain(b"mailto:x"), Err(CentraleError::MissingHost));
    assert_eq!(proxy::get_subdomain(&[0xc3, 0xa4]), Err(CentraleError::UnableToParseUrl));
    assert_eq!(proxy::subdomain_from_url_host(None), Err(CentraleError::UrlParse));
    assert_eq!(proxy::subdomain_from_url_host(Some(None)), Err(CentraleError::MissingHost));
}
