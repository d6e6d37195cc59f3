//! Values exchanged with the activity service's OAuth endpoint.
use vstd::prelude::*;

verus! {

/// How a token is requested: with an authorization code, or by refreshing.
#[derive(Clone, Copy, Debug, PartialEq, Eq, Structural)]
pub enum GrantType {
    Auth,
    Refresh,
}

impl GrantType {
    /// The value of the `grant_type` parameter of a token request.
    pub fn as_param(&self) -> (r: &'static str)
        ensures
            r@ == match *self {
                GrantType::Auth => "authorization_code"@,
                GrantType::Refresh => "refresh_token"@,
            },
    {
        match self {
            GrantType::Auth => "authorization_code",
            GrantType::Refresh => "refresh_token",
        }
    }
}

/// The athlete that a token belongs to.
#[derive(Clone, Copy, Debug, PartialEq, Eq, Structural)]
pub struct Athlete {
    pub id: i32,
}

/// The answer of a token request.
#[derive(Debug, PartialEq)]
pub struct TokenResponse {
    pub athlete: Athlete,
    pub refresh_token: String,
    pub access_token: String,
    /// Expiry, in seconds since the Unix epoch.
    pub expires_at: i32,
}

} // verus!
