//! The records that the API reads and answers with.
use vstd::prelude::*;

verus! {

/// A subdomain the user belongs to, with its display name and the user's role.
pub struct SubdomainNameAndRole {
    pub subdomain: String,
    pub name: Option<String>,
    pub role: String,
    pub user_id: i64,
}

/// A subdomain and its new display name.
pub struct SubdomainAndName {
    pub subdomain: String,
    pub name: String,
}

/// A user of a subdomain, as listed to its administrators.
pub struct GetSubdomainUsers {
    pub subdomain: String,
    pub subdomain_name: Option<String>,
    pub role: String,
    pub user_id: i64,
    pub username: String,
}

/// A user's role on a subdomain, as set by its administrator.
pub struct SubdomainUserAndRole {
    pub subdomain: String,
    pub user_id: i64,
    pub role: String,
}

/// A user's profile.
pub struct GetUser {
    pub id: i64,
    pub username: String,
    pub name: Option<String>,
    pub first_name: Option<String>,
    pub last_name: Option<String>,
    pub personal_code: Option<String>,
    pub email: Option<String>,
}

/// A registration request.
pub struct RegisterUser {
    pub username: String,
    pub password: String,
}

} // verus!
