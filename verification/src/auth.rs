//! The shared-secret guard in front of every mutating endpoint.  Its
//! decision runs before any board logic: the server must have a key
//! configured and the request must present exactly that key.

use vstd::prelude::*;

verus! {

/// A caller-visible error message of the key guard.
#[derive(Debug)]
pub struct ErrorResponse {
    pub error: String,
}

/// The key guard's verdict on one request.
#[derive(Clone, Copy, Debug, PartialEq, Eq, Structural)]
pub enum AuthDecision {
    /// The server itself has no key configured; nothing can be authorized.
    MissingServerKey,
    /// The request carried no key, or a key other than the server's.
    InvalidKey,
    /// The request carried exactly the server's key.
    Authorized,
}

/// Decides one request: authorized exactly when the server holds a key and
/// the request presents the same characters.
pub fn check_api_key(expected: &Option<String>, provided: &Option<String>) -> (r: AuthDecision)
    ensures
        (*expected) is None ==> r == AuthDecision::MissingServerKey,
        (*expected) is Some && ((*provided) is None || ((*provided)->0)@ != ((*expected)->0)@)
            ==> r == AuthDecision::InvalidKey,
        (*expected) is Some && (*provided) is Some && ((*provided)->0)@ == ((*expected)->0)@ ==> r
            == AuthDecision::Authorized,
{
    match expected {
        None => AuthDecision::MissingServerKey,
        Some(e) => match provided {
            None => AuthDecision::InvalidKey,
            Some(p) => {
                if *p == *e {
                    AuthDecision::Authorized
                } else {
                    AuthDecision::InvalidKey
                }
            },
        },
    }
}

} // verus!
