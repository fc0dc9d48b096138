use centrale::host::{
    host_from_referrer, host_only, normalize_hostname, public_suffix_labels, subdomain_of_hostname,
    subdomain_unless_address,
};

#[test]
fn host_only_strips_port() {
    assert_eq!(host_only("example.com:8080"), "example.com");
    assert_eq!(host_only("  example.com  "), "example.com");
    assert_eq!(host_only("example.com"), "example.com");
}

#[test]
fn host_only_strips_ipv6_brackets() {
    assert_eq!(host_only("[::1]:8080"), "::1");
    assert_eq!(host_only(" [fe80::1] "), "fe80::1");
    assert_eq!(host_only("[::1"), "::1");
}

#[test]
fn host_only_empty() {
    assert_eq!(host_only(""), "");
    assert_eq!(host_only("   "), "");
    assert_eq!(host_only(":80"), "");
}

#[test]
fn host_from_referrer_full_url() {
    assert_eq!(
        host_from_referrer("https://user@example.com:8080/path?x=1"),
        Some("example.com".to_string())
    );
    assert_eq!(host_from_referrer("http://a.b/c#d"), Some("a.b".to_string()));
    assert_eq!(host_from_referrer("https://app.example.com?q"), Some("app.example.com".to_string()));
}

#[test]
fn host_from_referrer_without_scheme() {
    assert_eq!(host_from_referrer("example.com/path"), Some("example.com".to_string()));
    assert_eq!(host_from_referrer("a@b@host.io"), Some("host.io".to_string()));
}

#[test]
fn host_from_referrer_ipv6() {
    assert_eq!(host_from_referrer("https://[::1]:8080/"), Some("::1".to_string()));
}

#[test]
fn host_from_referrer_empty() {
    assert_eq!(host_from_referrer(""), None);
    assert_eq!(host_from_referrer("https://"), None);
    assert_eq!(host_from_referrer("https:///path"), None);
    assert_eq!(host_from_referrer("https://user@:80/"), None);
}

#[test]
fn host_from_referrer_second_scheme_separator_ends_authority() {
    assert_eq!(host_from_referrer("a://b://c"), Some("b".to_string()));
}

#[test]
fn public_suffix_two_labels() {
    assert_eq!(public_suffix_labels(&["a", "co", "uk"]), 2);
    assert_eq!(public_suffix_labels(&["com", "tr"]), 2);
    assert_eq!(public_suffix_labels(&["shop", "com", "au"]), 2);
}

#[test]
fn public_suffix_one_label() {
    assert_eq!(public_suffix_labels(&["a", "example", "com"]), 1);
    assert_eq!(public_suffix_labels(&["uk"]), 1);
    assert_eq!(public_suffix_labels(&[]), 1);
    assert_eq!(public_suffix_labels(&["co.uk"]), 1);
    assert_eq!(public_suffix_labels(&["co", "u"]), 1);
}

#[test]
fn normalize_hostname_trims_and_lowercases() {
    assert_eq!(normalize_hostname(" App.Example.COM. "), "app.example.com");
    assert_eq!(normalize_hostname("host..."), "host");
    assert_eq!(normalize_hostname("..."), "");
    assert_eq!(normalize_hostname("ÄB.c"), "Äb.c");
}

#[test]
fn subdomain_of_hostname_examples() {
    assert_eq!(subdomain_of_hostname("app.example.com"), Some("app".to_string()));
    assert_eq!(subdomain_of_hostname("example.com"), None);
    assert_eq!(subdomain_of_hostname("a.b.example.co.uk"), Some("a.b".to_string()));
    assert_eq!(subdomain_of_hostname("co.uk"), None);
    assert_eq!(subdomain_of_hostname("example.co.uk"), None);
    assert_eq!(subdomain_of_hostname(""), None);
}

#[test]
fn subdomain_of_hostname_skips_empty_labels() {
    assert_eq!(subdomain_of_hostname("a..b.example.com"), Some("a.b".to_string()));
    assert_eq!(subdomain_of_hostname(".x.example.com."), Some("x".to_string()));
}

#[test]
fn subdomain_and_registrable_domain_spell_host() {
    let host = "a.b.example.co.uk";
    let sub = subdomain_of_hostname(host).unwrap();
    assert_eq!(format!("{}.example.co.uk", sub), host);
}

#[test]
fn referrer_path_and_userinfo_keep_host() {
    let bare = host_from_referrer("https://app.example.com:8443");
    assert_eq!(bare, Some("app.example.com".to_string()));
    assert_eq!(host_from_referrer("https://app.example.com:8443/a/b?c=d#e"), bare);
    assert_eq!(host_from_referrer("https://u:pw@app.example.com:8443"), bare);
    assert_eq!(host_from_referrer("https://u@app.example.com:8443/x"), bare);
}

#[test]
fn referrer_law_fails_on_trailing_colon_and_slash() {
    assert_eq!(host_from_referrer("https://[ab://x"), Some("ab".to_string()));
    assert_eq!(host_from_referrer("https://[ab:"), Some("ab:".to_string()));
}

#[test]
fn subdomain_ignores_case_and_padding() {
    let h = "App.Example.co.uk";
    let plain = subdomain_of_hostname(&normalize_hostname(h));
    assert_eq!(plain, Some("app".to_string()));
    assert_eq!(subdomain_of_hostname(&normalize_hostname(&h.to_ascii_uppercase())), plain);
    assert_eq!(subdomain_of_hostname(&normalize_hostname(&format!(" {}.. ", h))), plain);
}

#[test]
fn normalized_subdomain_is_lowercase_nonempty_labels() {
    let s = subdomain_of_hostname(&normalize_hostname(" A..B.Example.COM. ")).unwrap();
    assert_eq!(s, "a.b");
    assert!(!s.is_empty());
    assert!(s.split('.').all(|l| !l.is_empty() && l == l.to_ascii_lowercase()));
}

#[test]
fn referrer_colon_then_slash_keeps_plain_and_bracketed_hosts() {
    assert_eq!(host_from_referrer("https://host://x"), host_from_referrer("https://host:"));
    assert_eq!(host_from_referrer("https://host://x"), Some("host".to_string()));
    assert_eq!(host_from_referrer("https://[::1]:/"), Some("::1".to_string()));
    assert_eq!(host_from_referrer("https://[::1]://x"), host_from_referrer("https://[::1]:"));
    assert_eq!(host_from_referrer("https://[a://b"), Some("a".to_string()));
    assert_eq!(host_from_referrer("https://[a:"), Some("a:".to_string()));
}

#[test]
fn subdomain_unless_address_examples() {
    assert_eq!(subdomain_unless_address("app.example.com", false), Some("app".to_string()));
    assert_eq!(subdomain_unless_address("app.example.com", true), None);
    assert_eq!(subdomain_unless_address("", false), None);
    assert_eq!(subdomain_unless_address("example.com", false), None);
    let h = " App.Example.COM.. ";
    assert_eq!(subdomain_unless_address(&normalize_hostname(h), false), Some("app".to_string()));
    assert_eq!(
        subdomain_unless_address(&normalize_hostname(&h.to_ascii_uppercase()), false),
        Some("app".to_string())
    );
}
