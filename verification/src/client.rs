use vstd::prelude::*;

verus! {

/// A channel, as the feed names it.
#[derive(Debug, Clone, PartialEq)]
pub struct ChannelInfo {
    pub id: i64,
    pub name: String,
}

/// A handle on one server: its address, and the session token once the
/// client has authenticated. The calls themselves are the caller's I/O.
#[derive(Debug, PartialEq)]
pub struct ApiClient {
    pub base_url: String,
    pub session_token: Option<String>,
}

impl ApiClient {
    /// A client for a server, not yet authenticated.
    pub fn new(base_url: String) -> (r: ApiClient)
        ensures
            r.base_url == base_url,
            r.session_token is None,
    {
        ApiClient { base_url, session_token: None }
    }

    /// A client that already holds a session token.
    pub fn with_session_token(base_url: String, token: String) -> (r: ApiClient)
        ensures
            r.base_url == base_url,
            r.session_token matches Some(t) && t == token,
    {
        ApiClient { base_url, session_token: Some(token) }
    }

    /// Replaces the session token after an authentication.
    pub fn set_session_token(&mut self, token: String)
        ensures
            final(self).base_url == old(self).base_url,
            final(self).session_token matches Some(t) && t == token,
    {
        self.session_token = Some(token);
    }
}

/// The art and music one channel shows.
#[derive(Debug, Clone, PartialEq)]
pub struct ChannelContent {
    pub art: String,
    pub midi_composition: String,
}

impl ChannelContent {
    pub fn new(art: String, midi_composition: String) -> (r: ChannelContent)
        ensures
            r.art == art,
            r.midi_composition == midi_composition,
    {
        ChannelContent { art, midi_composition }
    }
}

} // verus!
