//! Why a request fails, inside the service and as the client sees it.

use vstd::prelude::*;

verus! {

/// The reason a token or user operation fails.
#[derive(Clone, Copy, Debug, PartialEq, Eq, Structural)]
pub enum AuthError {
    /// The token or the user is unknown.
    NotFound,
    /// The policy window of the token is over.
    Expired,
    /// Another request replaced the token first.
    Conflict,
    /// The user is soft-deleted.
    Deleted,
    /// The pool, the store, the identity provider or billing failed.
    Unavailable,
}

/// What a client is told: one of two signals, nothing finer.
#[derive(Clone, Copy, Debug, PartialEq, Eq, Structural)]
pub enum Signal {
    /// The credential was not accepted.
    Unauthenticated,
    /// The service could not answer; the credential may well be valid.
    Internal,
}

impl AuthError {
    /// The signal that stands for this failure at the client boundary.
    pub open spec fn signal_spec(self) -> Signal {
        if self is Unavailable {
            Signal::Internal
        } else {
            Signal::Unauthenticated
        }
    }

    /// Collapses the failure to the signal a client may see.
    #[verifier::when_used_as_spec(signal_spec)]
    pub fn signal(self) -> (s: Signal)
        ensures
            s == self.signal_spec(),
    {
        match self {
            AuthError::Unavailable => Signal::Internal,
            AuthError::NotFound => Signal::Unauthenticated,
            AuthError::Expired => Signal::Unauthenticated,
            AuthError::Conflict => Signal::Unauthenticated,
            AuthError::Deleted => Signal::Unauthenticated,
        }
    }
}

} // verus!
