//! Token and user identifiers, and the token row.

use vstd::prelude::*;
use crate::clock::Timestamp;

verus! {

/// The handle of a session token.
///
/// `serial` is the position of the handle in the order of issue, and is never
/// used twice by one store. `secret` is entropy that the issuer supplies, so
/// that a handle cannot be guessed from its position.
#[derive(Clone, Copy, Debug, PartialEq, Eq, Hash, Structural)]
pub struct TokenId {
    pub serial: u64,
    pub secret: u64,
}

/// The identifier of a user record.
#[derive(Clone, Copy, Debug, PartialEq, Eq, Hash, Structural)]
pub struct UserId {
    pub value: u64,
}

/// One row of the token table.
#[derive(Clone, Copy, Debug, PartialEq, Eq)]
pub struct Token {
    /// The handle under which the row is found.
    pub id: TokenId,
    /// The user the session belongs to; `None` until the token is bound.
    pub user_id: Option<UserId>,
    /// When the session started. A rotation keeps it.
    pub created: Timestamp,
    /// When the session was last used. A rotation sets it.
    pub updated: Timestamp,
}

} // verus!
