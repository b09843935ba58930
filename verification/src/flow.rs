//! The decisions of the two request flows, one step at a time.
//!
//! A flow alternates between work that only its surroundings can do (taking
//! a connection, reading and writing rows, asking billing) and decisions.
//! The decisions are `step`: from what the flow is waiting for and what
//! came back, to what it waits for next and what is to be done. Whoever
//! runs a flow performs each action and hands the event back, until the
//! action is `Finish`.

use vstd::prelude::*;
use crate::clock::Timestamp;
use crate::error::AuthError;
use crate::session::Policy;
use crate::token::{Token, TokenId, UserId};

verus! {

/// Which request a flow serves.
#[derive(Clone, Copy, Debug, PartialEq, Eq, Structural)]
pub enum Entry {
    /// Binding identity claims to the presented token.
    CreateUser,
    /// Validating the presented token as a session.
    Auth,
}

impl Entry {
    /// The policy under which the flow checks the presented token.
    pub open spec fn policy(self) -> Policy {
        match self {
            Entry::CreateUser => Policy::PreAuth,
            Entry::Auth => Policy::Session,
        }
    }
}

/// What a flow is waiting for.
#[derive(Clone, Copy, Debug, PartialEq, Eq)]
pub enum Pending {
    /// A connection from the pool.
    Connection { entry: Entry, presented: TokenId },
    /// The row of the presented token.
    TokenRow { entry: Entry, presented: TokenId },
    /// The user record made from the claims.
    SavedUser { presented: TokenId },
    /// The handle that replaces the presented one.
    Rotation { entry: Entry, user: UserId },
    /// The record of the user that the session belongs to.
    UserRow { fresh: TokenId },
    /// The answer of billing.
    Subscription { fresh: TokenId },
    /// Nothing: the flow is over.
    Nothing,
}

/// What came back from the last action.
#[derive(Clone, Copy, Debug, PartialEq, Eq)]
pub enum Event {
    /// The pool gave a connection.
    Connected,
    /// The token row that was asked for.
    TokenFound(Token),
    /// No row is stored under the handle.
    TokenMissing,
    /// The claims are recorded under this user.
    UserSaved(UserId),
    /// The old handle was replaced by this one.
    Rotated(TokenId),
    /// The old handle was no longer there to replace.
    RotationLost,
    /// The user record that was asked for, as far as the flow reads it.
    UserFound { deleted: Timestamp },
    /// No record is stored under the identifier.
    UserMissing,
    /// Billing answered.
    Subscription(bool),
    /// The pool, the store or billing failed.
    Failed,
}

/// How a flow ends.
#[derive(Clone, Copy, Debug, PartialEq, Eq)]
pub enum Reply {
    /// The claims are bound; this is the new handle.
    SessionId(TokenId),
    /// The session is valid; this is the new handle and the billing answer.
    Profile { token: TokenId, subscription_active: bool },
    /// The request is refused.
    Denied(AuthError),
}

/// What is to be done next.
#[derive(Clone, Copy, Debug, PartialEq, Eq)]
pub enum Action {
    /// Take a connection from the pool.
    Connect,
    /// Read the token row under this handle.
    FindToken(TokenId),
    /// Record the claims of the request.
    SaveUser,
    /// Replace `old_id` by a fresh handle bound to `user`.
    Rotate { old_id: TokenId, user: UserId },
    /// Read the user record under this identifier.
    FindUser(UserId),
    /// Ask billing about the user that was read.
    CheckSubscription,
    /// Answer the request. With `reclaim`, start deleting stale token rows
    /// afterwards, without waiting for it and without caring how it ends.
    Finish { reply: Reply, reclaim: bool },
}

/// The end of a flow that is refused.
pub open spec fn refuse(error: AuthError) -> (Pending, Action) {
    (Pending::Nothing, Action::Finish { reply: Reply::Denied(error), reclaim: false })
}

/// The first step of a flow: ask for a connection.
pub open spec fn begin_spec(entry: Entry, presented: TokenId) -> (Pending, Action) {
    (Pending::Connection { entry, presented }, Action::Connect)
}

/// What follows once the row of the presented token is there.
pub open spec fn on_token(entry: Entry, presented: TokenId, row: Token, now: Timestamp) -> (
    Pending,
    Action,
) {
    if row.id != presented {
        refuse(AuthError::Unavailable)
    } else if entry.policy().rejects(row, now) {
        refuse(AuthError::Expired)
    } else {
        match entry {
            Entry::CreateUser => (Pending::SavedUser { presented }, Action::SaveUser),
            Entry::Auth => match row.user_id {
                None => refuse(AuthError::NotFound),
                Some(user) => (
                    Pending::Rotation { entry, user },
                    Action::Rotate { old_id: presented, user },
                ),
            },
        }
    }
}

/// The transition table. An event that the flow was not waiting for ends
/// it with `Unavailable`, as a failed collaborator does.
pub open spec fn step_spec(pending: Pending, event: Event, now: Timestamp) -> (Pending, Action) {
    match (pending, event) {
        (Pending::Connection { entry, presented }, Event::Connected) => (
            Pending::TokenRow { entry, presented },
            Action::FindToken(presented),
        ),
        (Pending::TokenRow { entry, presented }, Event::TokenFound(row)) => on_token(
            entry,
            presented,
            row,
            now,
        ),
        (Pending::TokenRow { .. }, Event::TokenMissing) => refuse(AuthError::NotFound),
        (Pending::SavedUser { presented }, Event::UserSaved(user)) => (
            Pending::Rotation { entry: Entry::CreateUser, user },
            Action::Rotate { old_id: presented, user },
        ),
        (Pending::Rotation { entry, user }, Event::Rotated(fresh)) => match entry {
            Entry::CreateUser => (
                Pending::Nothing,
                Action::Finish { reply: Reply::SessionId(fresh), reclaim: true },
            ),
            Entry::Auth => (Pending::UserRow { fresh }, Action::FindUser(user)),
        },
        (Pending::Rotation { .. }, Event::RotationLost) => refuse(AuthError::Conflict),
        (Pending::UserRow { fresh }, Event::UserFound { deleted }) => if deleted
            != Timestamp::never() {
            refuse(AuthError::Deleted)
        } else {
            (Pending::Subscription { fresh }, Action::CheckSubscription)
        },
        (Pending::UserRow { .. }, Event::UserMissing) => refuse(AuthError::NotFound),
        (Pending::Subscription { fresh }, Event::Subscription(active)) => (
            Pending::Nothing,
            Action::Finish {
                reply: Reply::Profile { token: fresh, subscription_active: active },
                reclaim: false,
            },
        ),
        _ => refuse(AuthError::Unavailable),
    }
}

/// How many more actions a flow can ask for, at most.
pub open spec fn steps_left(pending: Pending) -> nat {
    match pending {
        Pending::Connection { .. } => 6,
        Pending::TokenRow { .. } => 5,
        Pending::SavedUser { .. } => 4,
        Pending::Rotation { .. } => 3,
        Pending::UserRow { .. } => 2,
        Pending::Subscription { .. } => 1,
        Pending::Nothing => 0,
    }
}

fn deny(error: AuthError) -> (r: (Pending, Action))
    ensures
        r == refuse(error),
{
    (Pending::Nothing, Action::Finish { reply: Reply::Denied(error), reclaim: false })
}

/// Starts a flow for the token that the request presents.
pub fn begin(entry: Entry, presented: TokenId) -> (r: (Pending, Action))
    ensures
        r == begin_spec(entry, presented),
{
    (Pending::Connection { entry, presented }, Action::Connect)
}

/// Decides what follows `event` for a flow that waits for `pending`.
/// `now` is the reading of the clock at this step; it is looked at only
/// when the token row arrives.
pub fn step(pending: Pending, event: Event, now: Timestamp) -> (r: (Pending, Action))
    ensures
        r == step_spec(pending, event, now),
        r.1 is Finish <==> r.0 is Nothing,
        steps_left(r.0) < steps_left(pending) || pending is Nothing,
{
    match pending {
        Pending::Connection { entry, presented } => match event {
            Event::Connected => (
                Pending::TokenRow { entry, presented },
                Action::FindToken(presented),
            ),
            _ => deny(AuthError::Unavailable),
        },
        Pending::TokenRow { entry, presented } => match event {
            Event::TokenFound(row) => {
                if row.id != presented {
                    deny(AuthError::Unavailable)
                } else {
                    match entry {
                        Entry::CreateUser => {
                            if Policy::PreAuth.expired(&row, now) {
                                deny(AuthError::Expired)
                            } else {
                                (Pending::SavedUser { presented }, Action::SaveUser)
                            }
                        },
                        Entry::Auth => {
                            if Policy::Session.expired(&row, now) {
                                deny(AuthError::Expired)
                            } else {
                                match row.user_id {
                                    None => deny(AuthError::NotFound),
                                    Some(user) => (
                                        Pending::Rotation { entry, user },
                                        Action::Rotate { old_id: presented, user },
                                    ),
                                }
                            }
                        },
                    }
                }
            },
            Event::TokenMissing => deny(AuthError::NotFound),
            _ => deny(AuthError::Unavailable),
        },
        Pending::SavedUser { presented } => match event {
            Event::UserSaved(user) => (
                Pending::Rotation { entry: Entry::CreateUser, user },
                Action::Rotate { old_id: presented, user },
            ),
            _ => deny(AuthError::Unavailable),
        },
        Pending::Rotation { entry, user } => match event {
            Event::Rotated(fresh) => match entry {
                Entry::CreateUser => (
                    Pending::Nothing,
                    Action::Finish { reply: Reply::SessionId(fresh), reclaim: true },
                ),
                Entry::Auth => (Pending::UserRow { fresh }, Action::FindUser(user)),
            },
            Event::RotationLost => deny(AuthError::Conflict),
            _ => deny(AuthError::Unavailable),
        },
        Pending::UserRow { fresh } => match event {
            Event::UserFound { deleted } => {
                if !deleted.is_never() {
                    deny(AuthError::Deleted)
                } else {
                    (Pending::Subscription { fresh }, Action::CheckSubscription)
                }
            },
            Event::UserMissing => deny(AuthError::NotFound),
            _ => deny(AuthError::Unavailable),
        },
        Pending::Subscription { fresh } => match event {
            Event::Subscription(active) => (
                Pending::Nothing,
                Action::Finish {
                    reply: Reply::Profile { token: fresh, subscription_active: active },
                    reclaim: false,
                },
            ),
            _ => deny(AuthError::Unavailable),
        },
        Pending::Nothing => deny(AuthError::Unavailable),
    }
}

} // verus!
