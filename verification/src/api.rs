//! What the HTTP layer decides: who may call, and how a failure is told.

use vstd::prelude::*;
use vstd::string::StrSliceExecFns;
use crate::config::Config;
use crate::error::SyncError;
use crate::text::{opt_chars, opt_text, same_text};

verus! {

/// A failure as the API tells it: a message, under the status 500.
#[derive(Debug)]
pub struct ApiError(pub String);

impl SyncError {
    /// The failure in words.
    pub fn message(&self) -> (r: String)
        ensures
            r@ == match self {
                SyncError::MalformedRecord(_) => "a record holds a timestamp that is not RFC 3339"@,
                SyncError::MalformedWatermark => "the watermark is not RFC 3339"@,
            },
    {
        match self {
            SyncError::MalformedRecord(_) => {
                "a record holds a timestamp that is not RFC 3339".to_owned()
            },
            SyncError::MalformedWatermark => "the watermark is not RFC 3339".to_owned(),
        }
    }
}

impl ApiError {
    /// The failure of a sync, as the API tells it.
    pub fn from_sync_error(error: SyncError) -> (r: Self)
        ensures
            r.0@ == match error {
                SyncError::MalformedRecord(_) => "a record holds a timestamp that is not RFC 3339"@,
                SyncError::MalformedWatermark => "the watermark is not RFC 3339"@,
            },
    {
        ApiError(error.message())
    }

    /// The HTTP status under which the failure is told.
    pub fn status(&self) -> (r: u16)
        ensures
            r == 500,
    {
        500
    }
}

/// What the server makes of a request's credentials.
#[derive(Debug, Clone, Copy, PartialEq, Eq, Structural)]
pub enum Access {
    /// The request may pass.
    Granted,
    /// There is no `Authorization` header, or it is no bearer token.
    MissingCredentials,
    /// The configuration admits no such token.
    InvalidToken,
}

/// The token of an `Authorization` header: what follows `"Bearer "`.
pub open spec fn bearer(header: Seq<char>) -> Option<Seq<char>> {
    if header.len() >= 7 && header.subrange(0, 7) == "Bearer "@ {
        Some(header.subrange(7, header.len() as int))
    } else {
        None
    }
}

/// What the server makes of a request: the health check needs no credentials; any other path
/// needs a bearer token that the configuration admits.
pub open spec fn access(config: &Config, path: Seq<char>, authorization: Option<Seq<char>>)
    -> Access {
    if path == "/health"@ {
        Access::Granted
    } else {
        match authorization {
            Some(header) => match bearer(header) {
                Some(token) => if config.admits_token(token) {
                    Access::Granted
                } else {
                    Access::InvalidToken
                },
                None => Access::MissingCredentials,
            },
            None => Access::MissingCredentials,
        }
    }
}

/// The token of an `Authorization` header, if it is a bearer token.
pub fn bearer_token(header: &str) -> (r: Option<String>)
    ensures
        opt_chars(r) == bearer(header@),
{
    let n = header.unicode_len();
    let prefix = "Bearer ";
    proof {
        reveal_strlit("Bearer ");
    }
    if n < 7 {
        return None;
    }
    let mut i: usize = 0;
    while i < 7
        invariant
            i <= 7,
            n == header@.len(),
            n >= 7,
            prefix@.len() == 7,
            prefix@ == "Bearer "@,
            forall|k: int| 0 <= k < i ==> header@[k] == prefix@[k],
        decreases 7 - i,
    {
        if header.get_char(i) != prefix.get_char(i) {
            assert(header@.subrange(0, 7)[i as int] == header@[i as int]);
            assert(header@.subrange(0, 7) != prefix@);
            return None;
        }
        i += 1;
    }
    assert(header@.subrange(0, 7) =~= prefix@);
    Some(header.substring_char(7, n).to_owned())
}

impl Access {
    /// Whether the request may pass.
    pub fn is_granted(&self) -> (r: bool)
        ensures
            r == (*self == Access::Granted),
    {
        match self {
            Access::Granted => true,
            _ => false,
        }
    }

    /// What the server tells a caller that may not pass; nothing where it may.
    pub fn message(&self) -> (r: Option<String>)
        ensures
            opt_chars(r) == match self {
                Access::Granted => None,
                Access::MissingCredentials => Some("Missing or invalid Authorization header"@),
                Access::InvalidToken => Some("Invalid API token"@),
            },
    {
        match self {
            Access::Granted => None,
            Access::MissingCredentials => {
                Some("Missing or invalid Authorization header".to_owned())
            },
            Access::InvalidToken => Some("Invalid API token".to_owned()),
        }
    }
}

/// Decides whether a request may pass, from its path and its `Authorization` header.
pub fn authorize(config: &Config, path: &str, authorization: Option<&str>) -> (r: Access)
    ensures
        r == access(config, path@, opt_text(authorization)),
{
    if same_text(path, "/health") {
        return Access::Granted;
    }
    match authorization {
        Some(header) => match bearer_token(header) {
            Some(token) => if config.validate_token(token.as_str()) {
                Access::Granted
            } else {
                Access::InvalidToken
            },
            None => Access::MissingCredentials,
        },
        None => Access::MissingCredentials,
    }
}

} // verus!
