//! The deployment settings the surrounding application reads at start-up.
//! Gathering them (from the environment) is I/O and lives with the
//! application; the shape lives here.

use vstd::prelude::*;

verus! {

/// Where the server listens, how tokens are signed, and how mail goes out.
#[derive(Debug, Clone, PartialEq, Eq)]
pub struct Config {
    pub database_url: String,
    pub jwt_secret: String,
    pub jwt_expiration: i64,
    pub host: String,
    pub port: u16,
    pub smtp_host: String,
    pub smtp_port: u16,
    pub smtp_user: String,
    pub smtp_pass: String,
    pub smtp_from: String,
}

} // verus!
