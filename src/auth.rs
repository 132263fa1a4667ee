//! The device flow of signing in: the decision taken on each answer of the token endpoint. The
//! requests and the waits between them are made outside.
use vstd::prelude::*;

verus! {

/// The device code the platform hands out, with how to use it.
#[derive(Debug, Clone, PartialEq, Eq)]
pub struct CodeResponse {
    pub device_code: String,
    pub user_code: String,
    pub verification_uri: String,
    pub expires_in: u32,
    /// Seconds to wait between two polls of the token endpoint.
    pub interval: u32,
}

#[derive(Debug, Clone, PartialEq, Eq)]
pub struct AccessToken {
    pub access_token: String,
    pub scope: String,
    pub token_type: String,
}

/// The token endpoint's answer while the user has not yet authorized the device.
#[derive(Debug, Clone, PartialEq, Eq)]
pub struct Error {
    pub error: String,
    pub error_description: String,
    pub error_uri: String,
}

#[derive(Debug, Clone, PartialEq, Eq)]
pub enum AccessTokenResponse {
    AuthorizationPending(Error),
    AccessToken(AccessToken),
}

/// What to do after an answer of the token endpoint.
#[derive(Debug, Clone, PartialEq, Eq)]
pub enum AuthorizationStep {
    /// Poll again after this many seconds.
    Wait { seconds: u64 },
    /// Signing in is done.
    Authorized(AccessToken),
}

/// A pending answer means waiting the code's interval and polling again; a token ends the
/// flow.
pub fn next_authorization_step(response: AccessTokenResponse, code: &CodeResponse) -> (r:
    AuthorizationStep)
    ensures
        match response {
            AccessTokenResponse::AuthorizationPending(_) => r == AuthorizationStep::Wait {
                seconds: code.interval as u64,
            },
            AccessTokenResponse::AccessToken(t) => r == AuthorizationStep::Authorized(t),
        },
{
    match response {
        AccessTokenResponse::AuthorizationPending(_) => AuthorizationStep::Wait {
            seconds: code.interval as u64,
        },
        AccessTokenResponse::AccessToken(t) => AuthorizationStep::Authorized(t),
    }
}

pub open spec fn pending_code() -> Seq<char> {
    seq![
        'a', 'u', 't', 'h', 'o', 'r', 'i', 'z', 'a', 't', 'i', 'o', 'n', '_', 'p', 'e', 'n', 'd',
        'i', 'n', 'g',
    ]
}

impl AccessTokenResponse {
    /// The token endpoint answered with an error: the user has not authorized the device yet
    /// when its code is `authorization_pending`; any other code ends the flow with that error.
    pub fn from_error(error: Error) -> (r: Result<AccessTokenResponse, Error>)
        ensures
            error.error@ == pending_code() ==> r == Ok::<AccessTokenResponse, Error>(
                AccessTokenResponse::AuthorizationPending(error),
            ),
            error.error@ != pending_code() ==> r == Err::<AccessTokenResponse, Error>(error),
    {
        let pending = "authorization_pending".to_owned();
        proof {
            reveal_strlit("authorization_pending");
            assert(pending@ =~= pending_code());
        }
        if error.error == pending {
            Ok(AccessTokenResponse::AuthorizationPending(error))
        } else {
            Err(error)
        }
    }
}

} // verus!
