use vstd::prelude::*;
use vstd::string::StringExecFns;

verus! {

/// Settings of the server.
#[derive(Clone, Debug)]
pub struct Config {
    /// Address with port, e.g. "localhost:8088".
    pub address: String,
    pub auth_salt: String,
    pub jwt_expiration: i64,
    pub jwt_key: String,
}

impl Config {
    /// The settings written out when no configuration file exists yet.
    pub fn new() -> (r: Config)
        ensures
            r.address@ == "localhost:8088"@,
            r.jwt_expiration == 48,
            r.jwt_key@ == "secret_key_change_me"@,
            r.auth_salt@ == "hashing_salt_change_me"@,
    {
        Config {
            address: String::from_str("localhost:8088"),
            jwt_expiration: 48,
            jwt_key: String::from_str("secret_key_change_me"),
            auth_salt: String::from_str("hashing_salt_change_me"),
        }
    }
}

} // verus!
