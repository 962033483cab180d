//! Server configuration values.
//!
//! Reading the environment stays with the caller; the library only holds
//! the values and their defaults.

use vstd::prelude::*;
use vstd::string::*;

verus! {

/// The values the server starts with.
#[derive(Clone, Debug)]
pub struct Config {
    pub host: String,
    pub port: u16,
    pub jwt_secret: String,
    pub jwt_expiration_hours: u64,
}

impl Config {
    /// Assemble a configuration from explicit values.
    pub fn new(host: String, port: u16, jwt_secret: String, jwt_expiration_hours: u64) -> (r:
        Config)
        ensures
            r.host == host,
            r.port == port,
            r.jwt_secret == jwt_secret,
            r.jwt_expiration_hours == jwt_expiration_hours,
    {
        Config { host, port, jwt_secret, jwt_expiration_hours }
    }

    /// The defaults used when the environment provides nothing: local
    /// loopback on port 3000, a token lifetime of one day, and a secret
    /// that must be replaced in production.
    pub fn default_values() -> (r: Config)
        ensures
            r.host@ == "127.0.0.1"@,
            r.port == 3000,
            r.jwt_expiration_hours == 24,
    {
        Config {
            host: String::from_str("127.0.0.1"),
            port: 3000,
            jwt_secret: String::from_str(
                "your-super-secure-jwt-secret-key-here-min-256-bits-change-in-production",
            ),
            jwt_expiration_hours: 24,
        }
    }
}

} // verus!
