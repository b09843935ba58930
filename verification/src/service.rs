//! The request flows, run against the token store and the user directory.

use vstd::prelude::*;
use crate::clock::Timestamp;
use crate::directory::{UserDirectory, UserTable};
use crate::error::AuthError;
use crate::flow::{begin, step, steps_left, Action, Entry, Event, Pending, Reply};
use crate::session::{accept_spec, Policy};
use crate::token::TokenId;
use crate::token_store::{TokenStore, TokenTable};
use crate::user::{Claims, ClaimsView, User, UserView};

verus! {

/// Everything the flows work on: built once and handed to every request.
pub struct Core {
    pub tokens: TokenStore,
    pub users: UserDirectory,
}

/// The state of a `Core` as a mathematical value.
pub struct CoreState {
    pub tokens: TokenTable,
    pub users: UserTable,
}

impl View for Core {
    type V = CoreState;

    open spec fn view(&self) -> CoreState {
        CoreState { tokens: self.tokens@, users: self.users@ }
    }
}

/// What a validated session is answered with.
#[derive(Debug, PartialEq, Eq)]
pub struct AuthResponse {
    /// The user, with the subscription flag as billing reported it.
    pub user: User,
    /// The handle that replaces the one that was presented.
    pub token: TokenId,
}

/// An `AuthResponse` as a mathematical value.
pub struct AuthResponseView {
    pub user: UserView,
    pub token: TokenId,
}

impl View for AuthResponse {
    type V = AuthResponseView;

    open spec fn view(&self) -> AuthResponseView {
        AuthResponseView { user: self.user@, token: self.token }
    }
}

/// Where to send the browser, and the token that ties the round trip
/// through the identity provider to this browser session.
#[derive(Debug, PartialEq, Eq)]
pub struct LoginRedirect {
    pub url: String,
    pub token: TokenId,
}

/// Binding identity claims to the presented token at `now`.
///
/// The token must be live and within the pre-authentication window.
/// Only then are the claims recorded, and the token is replaced by a fresh
/// one bound to the user that holds them. After a successful rotation the
/// stale rows are reclaimed. A refusal before the claims are recorded
/// changes nothing; if no fresh handle can be issued, the claims stay
/// recorded and the presented token stays live.
pub open spec fn create_user_spec(
    core: CoreState,
    presented: TokenId,
    claims: ClaimsView,
    secret: u64,
    now: Timestamp,
) -> (CoreState, Result<TokenId, AuthError>) {
    match accept_spec(core.tokens, presented, Policy::PreAuth, now) {
        Err(e) => (core, Err(e)),
        Ok(_) => {
            let saved = core.users.upsert(claims);
            match saved.1 {
                Err(e) => (core, Err(e)),
                Ok(user) => {
                    let rotated = core.tokens.rotate(presented, user.id, secret, now);
                    match rotated.1 {
                        Err(e) => (CoreState { tokens: core.tokens, users: saved.0 }, Err(e)),
                        Ok(fresh) => (
                            CoreState { tokens: rotated.0.reclaim(now), users: saved.0 },
                            Ok(fresh),
                        ),
                    }
                },
            }
        },
    }
}

/// Validating the presented token as a session at `now`.
///
/// The token must be live, within the sliding window and bound to a user;
/// it is then replaced by a fresh one with the window reset. Only after
/// that is the user looked at: a user that is missing or deleted, or a
/// billing failure (`billing` is `None`), refuses the request with the
/// presented token already spent.
pub open spec fn auth_spec(
    core: CoreState,
    presented: TokenId,
    billing: Option<bool>,
    secret: u64,
    now: Timestamp,
) -> (CoreState, Result<AuthResponseView, AuthError>) {
    match accept_spec(core.tokens, presented, Policy::Session, now) {
        Err(e) => (core, Err(e)),
        Ok(row) => match row.user_id {
            None => (core, Err(AuthError::NotFound)),
            Some(owner) => {
                let rotated = core.tokens.rotate(presented, owner, secret, now);
                match rotated.1 {
                    Err(e) => (core, Err(e)),
                    Ok(fresh) => {
                        let spent = CoreState { tokens: rotated.0, users: core.users };
                        match core.users.find_by_id(owner) {
                            Err(e) => (spent, Err(e)),
                            Ok(user) => if user.is_deleted() {
                                (spent, Err(AuthError::Deleted))
                            } else {
                                match billing {
                                    None => (spent, Err(AuthError::Unavailable)),
                                    Some(active) => (
                                        spent,
                                        Ok(
                                            AuthResponseView {
                                                user: user.with_subscription(active),
                                                token: fresh,
                                            },
                                        ),
                                    ),
                                }
                            },
                        }
                    },
                }
            },
        },
    }
}

/// Starting a login at `now`: with a redirect target from the identity
/// provider's client, an unbound token is minted; without one nothing
/// happens and the failure is the provider's.
pub open spec fn login_spec(core: CoreState, has_target: bool, secret: u64, now: Timestamp) -> (
    CoreState,
    Result<TokenId, AuthError>,
) {
    if has_target {
        let minted = core.tokens.mint(secret, now);
        (CoreState { tokens: minted.0, users: core.users }, minted.1)
    } else {
        (core, Err(AuthError::Unavailable))
    }
}

/// Completing a login at `now`: with claims from the identity provider the
/// flow is that of `create_user_spec`; without them nothing happens and the
/// failure is the provider's.
pub open spec fn callback_spec(
    core: CoreState,
    presented: TokenId,
    claims: Option<ClaimsView>,
    secret: u64,
    now: Timestamp,
) -> (CoreState, Result<TokenId, AuthError>) {
    match claims {
        None => (core, Err(AuthError::Unavailable)),
        Some(claims) => create_user_spec(core, presented, claims, secret, now),
    }
}

spec fn after_finish(core: CoreState, reclaim: bool, now: Timestamp) -> CoreState {
    if reclaim {
        CoreState { tokens: core.tokens.reclaim(now), users: core.users }
    } else {
        core
    }
}

spec fn session_of(reply: Reply) -> Result<TokenId, AuthError> {
    match reply {
        Reply::SessionId(id) => Ok(id),
        Reply::Denied(e) => Err(e),
        Reply::Profile { .. } => Err(AuthError::Unavailable),
    }
}

/// Where a run of the flow that binds claims stands, before each action.
spec fn create_user_inv(
    start: CoreState,
    core: CoreState,
    pending: Pending,
    action: Action,
    presented: TokenId,
    claims: ClaimsView,
    secret: u64,
    now: Timestamp,
) -> bool {
    let accepted = accept_spec(start.tokens, presented, Policy::PreAuth, now) is Ok;
    match action {
        Action::Connect => core == start && pending == (Pending::Connection {
            entry: Entry::CreateUser,
            presented,
        }),
        Action::FindToken(id) => core == start && id == presented && pending == (Pending::TokenRow {
            entry: Entry::CreateUser,
            presented,
        }),
        Action::SaveUser => core == start && accepted && pending == (Pending::SavedUser {
            presented,
        }),
        Action::Rotate { old_id, user } => {
            &&& accepted
            &&& old_id == presented
            &&& pending == (Pending::Rotation { entry: Entry::CreateUser, user })
            &&& core.tokens == start.tokens
            &&& core.users == start.users.upsert(claims).0
            &&& start.users.upsert(claims).1 matches Ok(saved) && saved.id == user
        },
        Action::Finish { reply, reclaim } => pending is Nothing && (
            after_finish(core, reclaim, now),
            session_of(reply),
        ) == create_user_spec(start, presented, claims, secret, now),
        _ => false,
    }
}

spec fn profile_of(reply: Reply, held: Option<UserView>) -> Result<AuthResponseView, AuthError> {
    match reply {
        Reply::Profile { token, subscription_active } => match held {
            Some(user) => Ok(
                AuthResponseView { user: user.with_subscription(subscription_active), token },
            ),
            None => Err(AuthError::Unavailable),
        },
        Reply::Denied(e) => Err(e),
        Reply::SessionId(_) => Err(AuthError::Unavailable),
    }
}

/// Where a run of the flow that validates a session stands, before each
/// action. `held` is the user record that the run has read.
spec fn auth_inv(
    start: CoreState,
    core: CoreState,
    pending: Pending,
    action: Action,
    held: Option<UserView>,
    presented: TokenId,
    billing: Option<bool>,
    secret: u64,
    now: Timestamp,
) -> bool {
    let accepted = accept_spec(start.tokens, presented, Policy::Session, now);
    let goal = auth_spec(start, presented, billing, secret, now);
    match action {
        Action::Connect => core == start && pending == (Pending::Connection {
            entry: Entry::Auth,
            presented,
        }),
        Action::FindToken(id) => core == start && id == presented && pending == (Pending::TokenRow {
            entry: Entry::Auth,
            presented,
        }),
        Action::Rotate { old_id, user } => {
            &&& core == start
            &&& old_id == presented
            &&& pending == (Pending::Rotation { entry: Entry::Auth, user })
            &&& accepted matches Ok(row) && row.user_id == Some(user)
        },
        Action::FindUser(id) => {
            &&& accepted matches Ok(row) && row.user_id == Some(id)
            &&& start.tokens.rotate(presented, id, secret, now).1 matches Ok(fresh) && pending == (
            Pending::UserRow { fresh })
            &&& core == (CoreState {
                tokens: start.tokens.rotate(presented, id, secret, now).0,
                users: start.users,
            })
        },
        Action::CheckSubscription => {
            &&& accepted matches Ok(row)
            &&& row.user_id matches Some(id)
            &&& start.tokens.rotate(presented, id, secret, now).1 matches Ok(fresh)
            &&& pending == (Pending::Subscription { fresh })
            &&& core == (CoreState {
                tokens: start.tokens.rotate(presented, id, secret, now).0,
                users: start.users,
            })
            &&& start.users.find_by_id(id) matches Ok(user)
            &&& held == Some(user)
            &&& !user.is_deleted()
        },
        Action::Finish { reply, reclaim } => pending is Nothing && !reclaim && (
            core,
            profile_of(reply, held),
        ) == goal,
        _ => false,
    }
}

impl Core {
    /// Both parts are well formed.
    pub open spec fn wf(&self) -> bool {
        self.tokens.wf() && self.users.wf()
    }

    /// A core with no token and no user.
    pub fn new() -> (core: Core)
        ensures
            core.wf(),
            core@ == (CoreState { tokens: TokenTable::empty(), users: UserTable::empty() }),
    {
        Core { tokens: TokenStore::new(), users: UserDirectory::new() }
    }
}

/// Binds identity claims to the presented token, at `now`. `secret` is the
/// entropy for the handle that is issued.
///
/// Fails with `NotFound` for a handle that is not live, with `Expired` for
/// a token older than ten minutes, and with `Unavailable` when no
/// identifier or handle is left to issue.
pub fn create_user_at(
    core: &mut Core,
    presented: TokenId,
    claims: &Claims,
    secret: u64,
    now: Timestamp,
) -> (r: Result<TokenId, AuthError>)
    requires
        old(core).wf(),
    ensures
        final(core).wf(),
        (final(core)@, r) == create_user_spec(old(core)@, presented, claims@, secret, now),
{
    let first = begin(Entry::CreateUser, presented);
    let mut pending = first.0;
    let mut action = first.1;
    loop
        invariant
            core.wf(),
            create_user_inv(old(core)@, core@, pending, action, presented, claims@, secret, now),
        decreases steps_left(pending),
    {
        proof {
            core.tokens.lemma_view_wf();
        }
        let event = match action {
            Action::Connect => Event::Connected,
            Action::FindToken(id) => match core.tokens.lookup(id) {
                Ok(row) => Event::TokenFound(row),
                Err(_) => Event::TokenMissing,
            },
            Action::SaveUser => match core.users.upsert(claims) {
                Ok(user) => Event::UserSaved(user.id),
                Err(_) => Event::Failed,
            },
            Action::Rotate { old_id, user } => match core.tokens.rotate(old_id, user, secret, now) {
                Ok(fresh) => Event::Rotated(fresh),
                Err(AuthError::Conflict) => Event::RotationLost,
                Err(_) => Event::Failed,
            },
            Action::FindUser(_) => Event::Failed,
            Action::CheckSubscription => Event::Failed,
            Action::Finish { reply, reclaim } => {
                if reclaim {
                    let _ = core.tokens.reclaim_stale(now);
                }
                return match reply {
                    Reply::SessionId(id) => Ok(id),
                    Reply::Denied(e) => Err(e),
                    Reply::Profile { .. } => Err(AuthError::Unavailable),
                };
            },
        };
        let next = step(pending, event, now);
        pending = next.0;
        action = next.1;
    }
}

/// Validates the presented token as a session, at `now`. `billing` is what
/// billing answers when it is asked about the user, `None` when it fails;
/// `secret` is the entropy for the handle that is issued.
///
/// Fails with `NotFound` for a handle that is not live, for a token bound
/// to no user and for a user that is not on record; with `Expired` for a
/// session unused for more than seven days; with `Deleted` for a user that
/// is soft-deleted; with `Unavailable` when no handle is left to issue or
/// billing fails.
pub fn auth_at(
    core: &mut Core,
    presented: TokenId,
    billing: Option<bool>,
    secret: u64,
    now: Timestamp,
) -> (r: Result<AuthResponse, AuthError>)
    requires
        old(core).wf(),
    ensures
        final(core).wf(),
        final(core)@ == auth_spec(old(core)@, presented, billing, secret, now).0,
        match r {
            Ok(response) => auth_spec(old(core)@, presented, billing, secret, now).1 == Ok::<
                AuthResponseView,
                AuthError,
            >(response@),
            Err(e) => auth_spec(old(core)@, presented, billing, secret, now).1 == Err::<
                AuthResponseView,
                AuthError,
            >(e),
        },
{
    let first = begin(Entry::Auth, presented);
    let mut pending = first.0;
    let mut action = first.1;
    let mut held: Option<User> = None;
    loop
        invariant
            core.wf(),
            auth_inv(
                old(core)@,
                core@,
                pending,
                action,
                match held {
                    Some(user) => Some(user@),
                    None => None,
                },
                presented,
                billing,
                secret,
                now,
            ),
        decreases steps_left(pending),
    {
        proof {
            core.tokens.lemma_view_wf();
        }
        let event = match action {
            Action::Connect => Event::Connected,
            Action::FindToken(id) => match core.tokens.lookup(id) {
                Ok(row) => Event::TokenFound(row),
                Err(_) => Event::TokenMissing,
            },
            Action::SaveUser => Event::Failed,
            Action::Rotate { old_id, user } => match core.tokens.rotate(old_id, user, secret, now) {
                Ok(fresh) => Event::Rotated(fresh),
                Err(AuthError::Conflict) => Event::RotationLost,
                Err(_) => Event::Failed,
            },
            Action::FindUser(id) => match core.users.find_by_id(id) {
                Ok(user) => {
                    let deleted = user.deleted;
                    held = Some(user);
                    Event::UserFound { deleted }
                },
                Err(_) => Event::UserMissing,
            },
            Action::CheckSubscription => match billing {
                Some(active) => Event::Subscription(active),
                None => Event::Failed,
            },
            Action::Finish { reply, reclaim } => {
                if reclaim {
                    let _ = core.tokens.reclaim_stale(now);
                }
                return match reply {
                    Reply::Profile { token, subscription_active } => match held {
                        Some(user) => Ok(
                            AuthResponse {
                                user: User {
                                    id: user.id,
                                    email: user.email,
                                    sub: user.sub,
                                    avatar: user.avatar,
                                    deleted: user.deleted,
                                    subscription_active,
                                },
                                token,
                            },
                        ),
                        None => Err(AuthError::Unavailable),
                    },
                    Reply::Denied(e) => Err(e),
                    Reply::SessionId(_) => Err(AuthError::Unavailable),
                };
            },
        };
        let next = step(pending, event, now);
        pending = next.0;
        action = next.1;
    }
}

/// Starts a login at `now`. `target` is the redirect address that the
/// identity provider's client built, `None` when it could not; `secret` is
/// the entropy for the handle that is issued.
pub fn login_at(core: &mut Core, target: Option<String>, secret: u64, now: Timestamp) -> (r: Result<
    LoginRedirect,
    AuthError,
>)
    requires
        old(core).wf(),
    ensures
        final(core).wf(),
        final(core)@ == login_spec(old(core)@, target is Some, secret, now).0,
        match r {
            Ok(redirect) => login_spec(old(core)@, target is Some, secret, now).1 == Ok::<
                TokenId,
                AuthError,
            >(redirect.token) && Some(redirect.url) == target,
            Err(e) => login_spec(old(core)@, target is Some, secret, now).1 == Err::<
                TokenId,
                AuthError,
            >(e),
        },
{
    match target {
        None => Err(AuthError::Unavailable),
        Some(url) => match core.tokens.mint(secret, now) {
            Ok(token) => Ok(LoginRedirect { url, token }),
            Err(e) => Err(e),
        },
    }
}

/// Completes a login at `now`. `claims` is what the identity provider
/// returned for the authorization code, `None` when the exchange failed.
pub fn callback_at(
    core: &mut Core,
    presented: TokenId,
    claims: Option<Claims>,
    secret: u64,
    now: Timestamp,
) -> (r: Result<TokenId, AuthError>)
    requires
        old(core).wf(),
    ensures
        final(core).wf(),
        (final(core)@, r) == callback_spec(
            old(core)@,
            presented,
            match claims {
                Some(c) => Some(c@),
                None => None,
            },
            secret,
            now,
        ),
{
    match claims {
        None => Err(AuthError::Unavailable),
        Some(claims) => create_user_at(core, presented, &claims, secret, now),
    }
}

} // verus!
