//! The two expiry policies and the check that accepts a token.

use vstd::prelude::*;
use crate::clock::{has_lapsed, lapsed, Timestamp, PREAUTH_WINDOW_NANOS, SESSION_WINDOW_NANOS};
use crate::error::AuthError;
use crate::token::{Token, TokenId};
use crate::token_store::{TokenStore, TokenTable};

verus! {

/// The policy under which a token is checked.
#[derive(Clone, Copy, Debug, PartialEq, Eq, Structural)]
pub enum Policy {
    /// For a token that proves that a request comes from the browser
    /// session that has just been through the identity provider: ten
    /// minutes from creation, never refreshed.
    PreAuth,
    /// For a session in use: seven days from the last use, refreshed by
    /// every successful validation.
    Session,
}

impl Policy {
    /// The length of the window, in nanoseconds.
    pub open spec fn window(self) -> int {
        match self {
            Policy::PreAuth => PREAUTH_WINDOW_NANOS as int,
            Policy::Session => SESSION_WINDOW_NANOS as int,
        }
    }

    /// The instant from which the window is counted.
    pub open spec fn anchor(self, row: Token) -> Timestamp {
        match self {
            Policy::PreAuth => row.created,
            Policy::Session => row.updated,
        }
    }

    /// The policy rejects a row at `now` when the anchor plus the window
    /// lies strictly before `now`.
    pub open spec fn rejects(self, row: Token, now: Timestamp) -> bool {
        lapsed(self.anchor(row), self.window(), now)
    }

    /// Decides whether the policy rejects `row` at `now`.
    pub fn expired(self, row: &Token, now: Timestamp) -> (r: bool)
        ensures
            r == self.rejects(*row, now),
    {
        match self {
            Policy::PreAuth => has_lapsed(row.created, PREAUTH_WINDOW_NANOS, now),
            Policy::Session => has_lapsed(row.updated, SESSION_WINDOW_NANOS, now),
        }
    }
}

/// What looking a token up and checking it under `policy` at `now` gives:
/// the row, `NotFound` for a handle that is not live, `Expired` for a row
/// that the policy rejects.
pub open spec fn accept_spec(table: TokenTable, id: TokenId, policy: Policy, now: Timestamp)
    -> Result<Token, AuthError> {
    if !table.live.contains_key(id) {
        Err(AuthError::NotFound)
    } else if policy.rejects(table.live[id], now) {
        Err(AuthError::Expired)
    } else {
        Ok(table.live[id])
    }
}

/// Looks `id` up and checks the row under `policy` at `now`. The store is
/// only read: expiry is found out here, not by deleting rows.
pub fn accept(store: &TokenStore, id: TokenId, policy: Policy, now: Timestamp) -> (r: Result<
    Token,
    AuthError,
>)
    requires
        store.wf(),
    ensures
        r == accept_spec(store@, id, policy, now),
{
    match store.lookup(id) {
        Err(_) => Err(AuthError::NotFound),
        Ok(row) => {
            if policy.expired(&row, now) {
                Err(AuthError::Expired)
            } else {
                Ok(row)
            }
        },
    }
}

} // verus!
