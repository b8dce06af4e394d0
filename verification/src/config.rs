use vstd::prelude::*;
use vstd::string::StringExecFns;

verus! {

/// Stored credentials: the channel they belong to and its bearer token.
#[derive(Debug, Clone, PartialEq)]
pub struct AuthConfig {
    pub channel_id: i64,
    pub channel_name: String,
    pub jwt_token: String,
}

impl AuthConfig {
    /// Where the credentials live by default.
    pub fn default_auth_path() -> (r: String)
        ensures
            r@ == "./auth.json"@,
    {
        String::from_str("./auth.json")
    }

    /// Credentials are usable only with a channel id, a name, and a token.
    pub fn validate(&self) -> (r: Result<(), String>)
        ensures
            r is Ok <==> (self.channel_id != 0 && self.channel_name@.len() > 0
                && self.jwt_token@.len() > 0),
            self.channel_id == 0 ==> (r matches Err(e) && e@ == "Channel ID is not set"@),
            self.channel_id != 0 && self.channel_name@.len() == 0 ==> (r matches Err(e) && e@
                == "Channel name is empty"@),
            self.channel_id != 0 && self.channel_name@.len() > 0 && self.jwt_token@.len() == 0
                ==> (r matches Err(e) && e@ == "JWT token is empty"@),
    {
        if self.channel_id == 0 {
            return Err(String::from_str("Channel ID is not set"));
        }
        if self.channel_name.as_str().is_empty() {
            return Err(String::from_str("Channel name is empty"));
        }
        if self.jwt_token.as_str().is_empty() {
            return Err(String::from_str("JWT token is empty"));
        }
        Ok(())
    }
}

/// The client's own settings: which server to talk to, and the servers it
/// has seen.
#[derive(Debug, Clone, PartialEq)]
pub struct TamaConfig {
    pub server_url: String,
    pub servers: Vec<String>,
    pub server_override: bool,
}

impl TamaConfig {
    /// Where the settings live by default.
    pub fn default_config_path() -> (r: String)
        ensures
            r@ == "./config.json"@,
    {
        String::from_str("./config.json")
    }

    /// Where key material lives by default.
    pub fn default_keys_dir() -> (r: String)
        ensures
            r@ == "."@,
    {
        String::from_str(".")
    }

    /// Settings are usable only with a server address.
    pub fn validate(&self) -> (r: Result<(), String>)
        ensures
            r is Ok <==> self.server_url@.len() > 0,
            self.server_url@.len() == 0 ==> (r matches Err(e) && e@ == "Server URL is empty"@),
    {
        if self.server_url.as_str().is_empty() {
            return Err(String::from_str("Server URL is empty"));
        }
        Ok(())
    }
}

} // verus!
