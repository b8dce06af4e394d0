use vstd::prelude::*;

verus! {

/// The HTTP header that carries the bearer token.
pub const HEADER_AUTH: &'static str = "authorization";

/// A request to create a channel account.
#[derive(Debug, Clone, PartialEq)]
pub struct RegisterRequest {
    pub channel_name: String,
    pub password: String,
}

/// A request to authenticate against an existing channel.
#[derive(Debug, Clone, PartialEq)]
pub struct LoginRequest {
    pub channel_name: String,
    pub password: String,
}

/// A channel, as the server names it.
#[derive(Debug, Clone, PartialEq)]
pub struct ChannelInfo {
    pub id: i64,
    pub name: String,
}

/// What a successful authentication returns.
#[derive(Debug, Clone, PartialEq)]
pub struct AuthResponse {
    pub token: String,
    pub expires_at: i64,
    pub channel: ChannelInfo,
}

/// What a successful content upload returns.
#[derive(Debug, Clone, PartialEq)]
pub struct CreateContentResponse {
    pub id: i64,
    pub channel_id: i64,
    pub message: String,
}

} // verus!
