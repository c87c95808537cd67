//! Plain configuration records used by the surrounding tooling.

use vstd::prelude::*;

use vstd::string::StringExecFns;

verus! {

/// Connection settings of a database pool, as plain values.
#[derive(Debug)]
pub struct DatabaseConfig {
    pub url: String,
    pub max_connections: u32,
    pub connection_timeout: u64,
    pub idle_timeout: u64,
}

impl Default for DatabaseConfig {
    /// The default pool: an in-memory database with a small pool.
    fn default() -> (c: DatabaseConfig)
        ensures
            c.url@ == "sqlite:memory:"@,
            c.max_connections == 10,
            c.connection_timeout == 30,
            c.idle_timeout == 600,
    {
        DatabaseConfig {
            url: "sqlite:memory:".to_owned(),
            max_connections: 10,
            connection_timeout: 30,
            idle_timeout: 600,
        }
    }
}

/// Presentation preferences of one user.
#[derive(Debug)]
pub struct UserPreferences {
    pub theme: String,
    pub language: String,
    pub notifications: bool,
}

/// What the surrounding command-line tooling has been asked to do.
#[derive(Debug, Clone, Copy, PartialEq, Eq, Structural)]
pub enum Operation {
    Serialize,
    Deserialize,
    Http,
    Cli,
    Errors,
    Tracing,
}

} // verus!
