//! Who the authenticated user is, what a subdomain forwards to, and who may
//! change a subdomain.
use vstd::prelude::*;
use crate::error::CentraleError;
use crate::text::str_eq;

verus! {

/// The user that the authentication middleware attaches to a request.
#[derive(Clone, Debug)]
pub struct CentraleUser {
    pub user_id: i64,
    pub subdomain: String,
    pub role: String,
    pub pass: String,
    pub url: String,
    pub destination_bearer: String,
}

/// Where a subdomain's requests are forwarded, and with which secrets.
pub struct SubdomainData {
    pub password: String,
    pub address: String,
    pub destination_bearer: String,
    pub name: String,
    pub serve_front: bool,
}

/// The subdomain that every authenticated user may visit.
pub open spec fn is_app(subdomain: Seq<char>) -> bool {
    subdomain == "app"@
}

/// The role of an administrator of a subdomain.
pub open spec fn admin_role() -> Seq<char> {
    "admin"@
}

/// The forwarding data of the `app` subdomain, which needs no lookup:
/// `Some` exactly for `app`.
pub fn app_subdomain_data(subdomain: &str) -> (r: Option<SubdomainData>)
    ensures
        is_app(subdomain@) ==> (r matches Some(d) && d.password@ == "pass"@ && d.address@ == "app"@
            && d.destination_bearer@ == "bearer"@ && d.name@ == "app"@ && !d.serve_front),
        !is_app(subdomain@) ==> r is None,
{
    if str_eq(subdomain, "app") {
        Some(
            SubdomainData {
                password: "pass".to_owned(),
                address: "app".to_owned(),
                destination_bearer: "bearer".to_owned(),
                name: "app".to_owned(),
                serve_front: false,
            },
        )
    } else {
        None
    }
}

/// The role on the `app` subdomain, which every authenticated user has:
/// `Some("user")` exactly for `app`.
pub fn app_subdomain_role(subdomain: &str) -> (r: Option<String>)
    ensures
        is_app(subdomain@) ==> (r matches Some(role) && role@ == "user"@),
        !is_app(subdomain@) ==> r is None,
{
    if str_eq(subdomain, "app") {
        Some("user".to_owned())
    } else {
        None
    }
}

/// What authentication and authorisation hand on: the user, the subdomain,
/// the role, the subdomain's password, the URL to forward to (address then
/// request path), its bearer, its name and whether it serves a front end.
pub fn access_grant(
    user_id: i64,
    subdomain: String,
    role: String,
    data: SubdomainData,
    path: &str,
) -> (r: (i64, String, String, String, String, String, String, bool))
    ensures
        r.0 == user_id,
        r.1@ == subdomain@,
        r.2@ == role@,
        r.3@ == data.password@,
        r.4@ == data.address@ + path@,
        r.5@ == data.destination_bearer@,
        r.6@ == data.name@,
        r.7 == data.serve_front,
{
    let mut url = data.address;
    url.append(path);
    (user_id, subdomain, role, data.password, url, data.destination_bearer, data.name, data.serve_front)
}

/// The user the middleware attaches, from a grant.
pub fn user_from_grant(grant: (i64, String, String, String, String, String, String, bool)) -> (r: CentraleUser)
    ensures
        r.user_id == grant.0,
        r.subdomain == grant.1,
        r.role == grant.2,
        r.pass == grant.3,
        r.url == grant.4,
        r.destination_bearer == grant.5,
{
    let (user_id, subdomain, role, pass, url, destination_bearer, _name, _serve_front) = grant;
    CentraleUser { user_id, subdomain, role, pass, url, destination_bearer }
}

/// Whether the user is an administrator of exactly this subdomain, the
/// condition for renaming it and for setting its users' roles.
pub fn may_administer(user: &CentraleUser, subdomain: &str) -> (r: bool)
    ensures
        r == (user.subdomain@ == subdomain@ && user.role@ == admin_role()),
{
    str_eq(user.subdomain.as_str(), subdomain) && str_eq(user.role.as_str(), "admin")
}

/// Whether the user may list the users of their subdomain: administrators only.
pub fn may_list_subdomain_users(user: &CentraleUser) -> (r: bool)
    ensures
        r == (user.role@ == admin_role()),
{
    str_eq(user.role.as_str(), "admin")
}

/// A user may generate bearer tokens for themselves only.
pub fn check_bearer_owner(user: &CentraleUser, user_id_url: i64) -> (r: Result<(), CentraleError>)
    ensures
        r is Ok <==> user.user_id == user_id_url,
        r is Err ==> r == Err::<(), CentraleError>(CentraleError::WrongUser),
{
    if user.user_id != user_id_url {
        Err(CentraleError::WrongUser)
    } else {
        Ok(())
    }
}

/// The role that admits a user to a subdomain, from the role stored for the
/// user there (`None` when no role is stored). Every authenticated user is a
/// `user` of `app`; on any other subdomain a user without a stored role is
/// refused, so no grant is made without a role.
pub fn resolve_role(subdomain: &str, stored: Option<String>) -> (r: Result<String, CentraleError>)
    ensures
        is_app(subdomain@) ==> (r matches Ok(role) && role@ == "user"@),
        !is_app(subdomain@) ==> match stored {
            Some(s) => r matches Ok(role) && role@ == s@,
            None => r == Err::<String, CentraleError>(CentraleError::Unauthorized),
        },
        r is Ok ==> is_app(subdomain@) || stored is Some,
{
    match app_subdomain_role(subdomain) {
        Some(role) => Ok(role),
        None => match stored {
            Some(role) => Ok(role),
            None => Err(CentraleError::Unauthorized),
        },
    }
}

/// What a request to rename a subdomain is answered.
#[derive(Debug, Clone, Copy, PartialEq, Eq, Structural)]
pub enum RenameOutcome {
    /// No subdomain has that identifier.
    NotFound,
    /// The subdomain's name was changed.
    Renamed,
}

/// A rename whose update changed no row names no subdomain: `NotFound`
/// exactly when no row was changed.
pub fn rename_outcome(rows_changed: usize) -> (r: RenameOutcome)
    ensures
        r == (if rows_changed == 0 { RenameOutcome::NotFound } else { RenameOutcome::Renamed }),
{
    if rows_changed == 0 {
        RenameOutcome::NotFound
    } else {
        RenameOutcome::Renamed
    }
}

} // verus!
