use centrale::auth::{
    access_grant, app_subdomain_data, app_subdomain_role, check_bearer_owner, may_administer,
    may_list_subdomain_users, rename_outcome, resolve_role, user_from_grant, CentraleUser, RenameOutcome,
    SubdomainData,
};
use centrale::error::CentraleError;

fn user(subdomain: &str, role: &str) -> CentraleUser {
    CentraleUser {
        user_id: 3,
        subdomain: subdomain.to_string(),
        role: role.to_string(),
        pass: "p".to_string(),
        url: "u".to_string(),
        destination_bearer: "b".to_string(),
    }
}

#[test]
fn app_subdomain_is_open_to_all() {
    let d = app_subdomain_data("app").unwrap();
    assert_eq!(d.password, "pass");
    assert_eq!(d.address, "app");
    assert_eq!(d.destination_bearer, "bearer");
    assert_eq!(d.name, "app");
    assert!(!d.serve_front);
    assert_eq!(app_subdomain_role("app"), Some("user".to_string()));
}

#[test]
fn other_subdomains_need_lookup() {
    assert!(app_subdomain_data("apps").is_none());
    assert!(app_subdomain_data("").is_none());
    assert_eq!(app_subdomain_role("hello"), None);
}

#[test]
fn access_grant_builds_forwarding_url() {
    let data = SubdomainData {
        password: "pw".to_string(),
        address: "dest.example".to_string(),
        destination_bearer: "tok".to_string(),
        name: "Hello".to_string(),
        serve_front: true,
    };
    let g = access_grant(5, "hello".to_string(), "admin".to_string(), data, "/api/x");
    assert_eq!(g.0, 5);
    assert_eq!(g.4, "dest.example/api/x");
    assert_eq!(g.6, "Hello");
    assert!(g.7);
    let u = user_from_grant(g);
    assert_eq!(u.user_id, 5);
    assert_eq!(u.subdomain, "hello");
    assert_eq!(u.role, "admin");
    assert_eq!(u.pass, "pw");
    assert_eq!(u.url, "dest.example/api/x");
    assert_eq!(u.destination_bearer, "tok");
}

#[test]
fn only_admins_of_the_subdomain_administer_it() {
    assert!(may_administer(&user("hello", "admin"), "hello"));
    assert!(!may_administer(&user("hello", "admin"), "other"));
    assert!(!may_administer(&user("hello", "user"), "hello"));
    assert!(may_list_subdomain_users(&user("x", "admin")));
    assert!(!may_list_subdomain_users(&user("x", "Admin")));
}

#[test]
fn bearer_tokens_for_oneself_only() {
    assert_eq!(check_bearer_owner(&user("x", "user"), 3), Ok(()));
    assert_eq!(check_bearer_owner(&user("x", "user"), 4), Err(CentraleError::WrongUser));
}

#[test]
fn resolve_role_app_needs_no_stored_role() {
    assert_eq!(resolve_role("app", None), Ok("user".to_string()));
    assert_eq!(resolve_role("app", Some("admin".to_string())), Ok("user".to_string()));
}

#[test]
fn resolve_role_other_subdomain_needs_stored_role() {
    assert_eq!(resolve_role("shop", Some("admin".to_string())), Ok("admin".to_string()));
    assert_eq!(resolve_role("shop", None), Err(CentraleError::Unauthorized));
}

#[test]
fn rename_of_missing_subdomain_is_not_found() {
    assert_eq!(rename_outcome(0), RenameOutcome::NotFound);
    assert_eq!(rename_outcome(1), RenameOutcome::Renamed);
    assert_eq!(rename_outcome(3), RenameOutcome::Renamed);
}
