//! Host, subdomain, credential, path and password logic of the Centrale
//! authenticating proxy, with the contracts that Verus proves of it.
pub mod auth;
pub mod config;
pub mod error;
pub mod host;
pub mod password;
pub mod path;
pub mod proxy;
pub mod records;
pub mod server;
pub mod subdomain;
pub mod text;
pub mod token;
pub mod web;
