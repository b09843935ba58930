//! The two calls as a client sees them: the token travels as text, the
//! clock is the wall clock, and a refusal is one of two signals.

use vstd::prelude::*;
use crate::clock::{now, Timestamp};
use crate::error::Signal;
use crate::service::{auth_at, auth_spec, create_user_at, create_user_spec, Core, CoreState};
use crate::token::TokenId;
use crate::user::{Claims, ClaimsView, User, UserView};
use crate::wire::{parse_spec, parse_token, text_spec, token_text};

verus! {

/// What a validated session is answered with, at the boundary.
#[derive(Debug, PartialEq, Eq)]
pub struct AuthReply {
    /// The user, with the subscription flag as billing reported it.
    pub user: User,
    /// The text of the handle that replaces the one that was presented.
    pub token: String,
}

/// An `AuthReply` as a mathematical value.
pub struct AuthReplyView {
    pub user: UserView,
    pub token: Seq<char>,
}

impl View for AuthReply {
    type V = AuthReplyView;

    open spec fn view(&self) -> AuthReplyView {
        AuthReplyView { user: self.user@, token: self.token@ }
    }
}

/// The handle that a request presents: none where the request carries no
/// token, and none where what it carries is not the text of a handle.
pub open spec fn presented_spec(token: Option<Seq<char>>) -> Option<TokenId> {
    match token {
        None => None,
        Some(text) => parse_spec(text),
    }
}

/// What a request to bind claims is answered with at `now`: the text of
/// the new handle, or the signal that stands for the failure. A request
/// without a readable token is refused as unauthenticated and changes
/// nothing.
pub open spec fn create_user_reply_spec(
    core: CoreState,
    token: Option<Seq<char>>,
    claims: ClaimsView,
    secret: u64,
    now: Timestamp,
) -> (CoreState, Result<Seq<char>, Signal>) {
    match presented_spec(token) {
        None => (core, Err(Signal::Unauthenticated)),
        Some(presented) => {
            let done = create_user_spec(core, presented, claims, secret, now);
            (
                done.0,
                match done.1 {
                    Ok(fresh) => Ok(text_spec(fresh)),
                    Err(e) => Err(e.signal_spec()),
                },
            )
        },
    }
}

/// What a request to validate a session is answered with at `now`: the
/// user and the text of the new handle, or the signal that stands for the
/// failure. A request without a readable token is refused as
/// unauthenticated and changes nothing.
pub open spec fn auth_reply_spec(
    core: CoreState,
    token: Option<Seq<char>>,
    billing: Option<bool>,
    secret: u64,
    now: Timestamp,
) -> (CoreState, Result<AuthReplyView, Signal>) {
    match presented_spec(token) {
        None => (core, Err(Signal::Unauthenticated)),
        Some(presented) => {
            let done = auth_spec(core, presented, billing, secret, now);
            (
                done.0,
                match done.1 {
                    Ok(response) => Ok(
                        AuthReplyView { user: response.user, token: text_spec(response.token) },
                    ),
                    Err(e) => Err(e.signal_spec()),
                },
            )
        },
    }
}

/// The text that a request carries, as a mathematical value.
pub open spec fn carried(token: Option<&str>) -> Option<Seq<char>> {
    match token {
        Some(text) => Some(text@),
        None => None,
    }
}

/// `after` and `r` are what a request to bind claims leads to at `now`.
pub open spec fn create_user_holds(
    before: CoreState,
    after: CoreState,
    r: Result<String, Signal>,
    token: Option<Seq<char>>,
    claims: ClaimsView,
    secret: u64,
    now: Timestamp,
) -> bool {
    let reply = create_user_reply_spec(before, token, claims, secret, now);
    &&& after == reply.0
    &&& match r {
        Ok(text) => reply.1 == Ok::<Seq<char>, Signal>(text@),
        Err(signal) => reply.1 == Err::<Seq<char>, Signal>(signal),
    }
}

/// `after` and `r` are what a request to validate a session leads to at
/// `now`.
pub open spec fn auth_holds(
    before: CoreState,
    after: CoreState,
    r: Result<AuthReply, Signal>,
    token: Option<Seq<char>>,
    billing: Option<bool>,
    secret: u64,
    now: Timestamp,
) -> bool {
    let reply = auth_reply_spec(before, token, billing, secret, now);
    &&& after == reply.0
    &&& match r {
        Ok(answer) => reply.1 == Ok::<AuthReplyView, Signal>(answer@),
        Err(signal) => reply.1 == Err::<AuthReplyView, Signal>(signal),
    }
}

fn presented(token: Option<&str>) -> (r: Option<TokenId>)
    ensures
        r == presented_spec(carried(token)),
{
    match token {
        None => None,
        Some(text) => parse_token(text),
    }
}

/// Answers a request to bind claims to the token it carries, at `now`.
pub fn create_user_reply(
    core: &mut Core,
    token: Option<&str>,
    claims: &Claims,
    secret: u64,
    now: Timestamp,
) -> (r: Result<String, Signal>)
    requires
        old(core).wf(),
    ensures
        final(core).wf(),
        create_user_holds(old(core)@, final(core)@, r, carried(token), claims@, secret, now),
{
    match presented(token) {
        None => Err(Signal::Unauthenticated),
        Some(id) => match create_user_at(core, id, claims, secret, now) {
            Ok(fresh) => Ok(token_text(fresh)),
            Err(e) => Err(e.signal()),
        },
    }
}

/// Answers a request to validate the token it carries as a session, at
/// `now`.
pub fn auth_reply(
    core: &mut Core,
    token: Option<&str>,
    billing: Option<bool>,
    secret: u64,
    now: Timestamp,
) -> (r: Result<AuthReply, Signal>)
    requires
        old(core).wf(),
    ensures
        final(core).wf(),
        auth_holds(old(core)@, final(core)@, r, carried(token), billing, secret, now),
{
    match presented(token) {
        None => Err(Signal::Unauthenticated),
        Some(id) => match auth_at(core, id, billing, secret, now) {
            Ok(response) => Ok(AuthReply { user: response.user, token: token_text(response.token) }),
            Err(e) => Err(e.signal()),
        },
    }
}

/// Answers a request to bind claims to the token it carries, at the
/// instant that the wall clock shows when the call is made.
///
/// Which instant that is cannot be known beforehand. Whatever it is, the
/// answer is the one that `create_user_reply` gives for it.
pub fn create_user(core: &mut Core, token: Option<&str>, claims: &Claims, secret: u64) -> (r:
    Result<String, Signal>)
    requires
        old(core).wf(),
    ensures
        final(core).wf(),
        exists|at: Timestamp|
            at.is_instant() && #[trigger] create_user_holds(
                old(core)@,
                final(core)@,
                r,
                carried(token),
                claims@,
                secret,
                at,
            ),
{
    let at = now();
    create_user_reply(core, token, claims, secret, at)
}

/// Answers a request to validate the token it carries as a session, at
/// the instant that the wall clock shows when the call is made.
///
/// Which instant that is cannot be known beforehand. Whatever it is, the
/// answer is the one that `auth_reply` gives for it.
pub fn auth(core: &mut Core, token: Option<&str>, billing: Option<bool>, secret: u64) -> (r: Result<
    AuthReply,
    Signal,
>)
    requires
        old(core).wf(),
    ensures
        final(core).wf(),
        exists|at: Timestamp|
            at.is_instant() && #[trigger] auth_holds(
                old(core)@,
                final(core)@,
                r,
                carried(token),
                billing,
                secret,
                at,
            ),
{
    let at = now();
    auth_reply(core, token, billing, secret, at)
}

} // verus!
