//! Service-wide configuration handed in by the process wrapper: the
//! optional shared secret that gates writes, and the storage location.

use vstd::prelude::*;

verus! {

/// Configuration consumed by the request handlers.
#[derive(Clone, Debug)]
pub struct Config {
    /// Optional shared secret; when present, `create` requires the exact
    /// matching password.
    pub secret: Option<String>,
    /// Connection string or path of the backing store; only the process
    /// wrapper reads it.
    pub database_url: String,
}

impl Config {
    pub fn new(secret: Option<String>, database_url: String) -> (c: Config)
        ensures
            c.secret == secret,
            c.database_url == database_url,
    {
        Config { secret, database_url }
    }
}

} // verus!
