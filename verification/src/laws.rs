//! What holds of the token table, the user directory and the flows,
//! whatever is done with them and in whatever order.

use vstd::prelude::*;
use crate::clock::{lapsed, Timestamp};
use crate::directory::UserTable;
use crate::error::AuthError;
use crate::service::{auth_spec, callback_spec, create_user_spec, login_spec, CoreState};
use crate::session::{accept_spec, Policy};
use crate::token::{TokenId, UserId};
use crate::token_store::{is_stale, Standing, TokenTable};
use crate::user::ClaimsView;

verus! {

/// One operation on the state, by whoever performs it. A history of
/// requests that are served side by side is a sequence of these in the
/// order in which the store carried them out.
pub enum Op {
    /// `TokenTable::mint`.
    Mint { secret: u64, now: Timestamp },
    /// `TokenTable::rotate`.
    Rotate { old_id: TokenId, user: UserId, secret: u64, now: Timestamp },
    /// `TokenTable::reclaim`.
    Reclaim { now: Timestamp },
    /// `UserTable::upsert`.
    Upsert { claims: ClaimsView },
    /// `UserTable::soft_delete`.
    SoftDelete { id: UserId, at: Timestamp },
    /// `login_spec`.
    Login { has_target: bool, secret: u64, now: Timestamp },
    /// `callback_spec`.
    Callback { presented: TokenId, exchanged: Option<ClaimsView>, secret: u64, now: Timestamp },
    /// `create_user_spec`.
    CreateUser { presented: TokenId, claims: ClaimsView, secret: u64, now: Timestamp },
    /// `auth_spec`.
    Auth { presented: TokenId, billing: Option<bool>, secret: u64, now: Timestamp },
}

/// The state after one operation.
pub open spec fn apply(core: CoreState, op: Op) -> CoreState {
    match op {
        Op::Mint { secret, now } => CoreState {
            tokens: core.tokens.mint(secret, now).0,
            users: core.users,
        },
        Op::Rotate { old_id, user, secret, now } => CoreState {
            tokens: core.tokens.rotate(old_id, user, secret, now).0,
            users: core.users,
        },
        Op::Reclaim { now } => CoreState { tokens: core.tokens.reclaim(now), users: core.users },
        Op::Upsert { claims } => CoreState { tokens: core.tokens, users: core.users.upsert(claims).0 },
        Op::SoftDelete { id, at } => CoreState {
            tokens: core.tokens,
            users: core.users.soft_delete(id, at).0,
        },
        Op::Login { has_target, secret, now } => login_spec(core, has_target, secret, now).0,
        Op::Callback { presented, exchanged, secret, now } => callback_spec(
            core,
            presented,
            exchanged,
            secret,
            now,
        ).0,
        Op::CreateUser { presented, claims, secret, now } => create_user_spec(
            core,
            presented,
            claims,
            secret,
            now,
        ).0,
        Op::Auth { presented, billing, secret, now } => auth_spec(
            core,
            presented,
            billing,
            secret,
            now,
        ).0,
    }
}

/// The state after a sequence of operations, first to last.
pub open spec fn run(core: CoreState, ops: Seq<Op>) -> CoreState
    decreases ops.len(),
{
    if ops.len() == 0 {
        core
    } else {
        apply(run(core, ops.drop_last()), ops.last())
    }
}

/// `after` is a later state of `before`: no serial was taken back, and
/// every handle that `before` had issued is, where it is still live, the
/// handle of the very same row.
pub open spec fn succeeds(before: TokenTable, after: TokenTable) -> bool {
    &&& before.issued <= after.issued
    &&& forall|id: TokenId|
        id.serial < before.issued && #[trigger] after.live.contains_key(id)
            ==> before.live.contains_key(id) && before.live[id] == after.live[id]
}

/// Minting keeps the table well formed and leaves every row as it was.
pub proof fn lemma_mint(table: TokenTable, secret: u64, now: Timestamp)
    requires
        table.wf(),
    ensures
        table.mint(secret, now).0.wf(),
        succeeds(table, table.mint(secret, now).0),
        table.mint(secret, now).1 matches Ok(id) ==> !table.live.contains_key(id)
            && table.mint(secret, now).0.live.len() == table.live.len() + 1,
{
    let after = table.mint(secret, now).0;
    if !table.exhausted() {
        let id = table.fresh_id(secret);
        assert(!table.live.contains_key(id));
        assert(after.live.dom() =~= table.live.dom().insert(id));
        assert forall|a: TokenId, b: TokenId|
            after.live.contains_key(a) && after.live.contains_key(b) && a.serial
                == b.serial implies a == b by {
            if a != id && b != id {
                assert(table.live.contains_key(a) && table.live.contains_key(b));
            }
        }
    }
}

/// Rotation succeeds exactly on a live handle while a serial is left. It
/// keeps the table well formed, changes no row but the one it replaces,
/// leaves the number of rows as it was, and kills the handle it replaces.
pub proof fn lemma_rotate(
    table: TokenTable,
    old_id: TokenId,
    user: UserId,
    secret: u64,
    now: Timestamp,
)
    requires
        table.wf(),
    ensures
        table.rotate(old_id, user, secret, now).0.wf(),
        succeeds(table, table.rotate(old_id, user, secret, now).0),
        table.rotate(old_id, user, secret, now).0.live.len() == table.live.len(),
        table.rotate(old_id, user, secret, now).1 is Ok <==> table.live.contains_key(old_id)
            && !table.exhausted(),
        table.rotate(old_id, user, secret, now).1 is Ok ==> table.rotate(
            old_id,
            user,
            secret,
            now,
        ).0.is_dead(old_id),
{
    let after = table.rotate(old_id, user, secret, now).0;
    if table.live.contains_key(old_id) && !table.exhausted() {
        let id = table.fresh_id(secret);
        assert(!table.live.contains_key(id));
        assert(after.live.dom() =~= table.live.dom().remove(old_id).insert(id));
        assert forall|a: TokenId, b: TokenId|
            after.live.contains_key(a) && after.live.contains_key(b) && a.serial
                == b.serial implies a == b by {
            if a != id && b != id {
                assert(table.live.contains_key(a) && table.live.contains_key(b));
            }
        }
    }
}

/// Reclaiming keeps the table well formed and leaves the rows it keeps as
/// they were.
pub proof fn lemma_reclaim(table: TokenTable, now: Timestamp)
    requires
        table.wf(),
    ensures
        table.reclaim(now).wf(),
        succeeds(table, table.reclaim(now)),
{
    let after = table.reclaim(now);
    assert(after.live.dom().subset_of(table.live.dom()));
    vstd::set_lib::lemma_len_subset(after.live.dom(), table.live.dom());
    assert forall|a: TokenId, b: TokenId|
        after.live.contains_key(a) && after.live.contains_key(b) && a.serial
            == b.serial implies a == b by {
        assert(table.live.contains_key(a) && table.live.contains_key(b));
    }
}

/// Being a later state is transitive.
pub proof fn lemma_succeeds_chain(a: TokenTable, b: TokenTable, c: TokenTable)
    requires
        succeeds(a, b),
        succeeds(b, c),
    ensures
        succeeds(a, c),
{
}

/// Whatever one operation does, the token table stays well formed and the
/// state after it is a later state of the one before.
pub proof fn lemma_apply(core: CoreState, op: Op)
    requires
        core.tokens.wf(),
    ensures
        apply(core, op).tokens.wf(),
        succeeds(core.tokens, apply(core, op).tokens),
{
    match op {
        Op::Mint { secret, now } => {
            lemma_mint(core.tokens, secret, now);
        },
        Op::Rotate { old_id, user, secret, now } => {
            lemma_rotate(core.tokens, old_id, user, secret, now);
        },
        Op::Reclaim { now } => {
            lemma_reclaim(core.tokens, now);
        },
        Op::Upsert { claims } => {},
        Op::SoftDelete { id, at } => {},
        Op::Login { has_target, secret, now } => {
            lemma_mint(core.tokens, secret, now);
        },
        Op::Callback { presented, exchanged, secret, now } => {
            if let Some(claims) = exchanged {
                lemma_create_user(core, presented, claims, secret, now);
            }
        },
        Op::CreateUser { presented, claims, secret, now } => {
            lemma_create_user(core, presented, claims, secret, now);
        },
        Op::Auth { presented, billing, secret, now } => {
            let accepted = accept_spec(core.tokens, presented, Policy::Session, now);
            if let Ok(row) = accepted {
                if let Some(owner) = row.user_id {
                    lemma_rotate(core.tokens, presented, owner, secret, now);
                }
            }
        },
    }
}

proof fn lemma_create_user(
    core: CoreState,
    presented: TokenId,
    claims: ClaimsView,
    secret: u64,
    now: Timestamp,
)
    requires
        core.tokens.wf(),
    ensures
        create_user_spec(core, presented, claims, secret, now).0.tokens.wf(),
        succeeds(core.tokens, create_user_spec(core, presented, claims, secret, now).0.tokens),
{
    if accept_spec(core.tokens, presented, Policy::PreAuth, now) is Ok {
        if let Ok(user) = core.users.upsert(claims).1 {
            let rotated = core.tokens.rotate(presented, user.id, secret, now);
            lemma_rotate(core.tokens, presented, user.id, secret, now);
            lemma_reclaim(rotated.0, now);
            lemma_succeeds_chain(core.tokens, rotated.0, rotated.0.reclaim(now));
        }
    }
}

/// Whatever a sequence of operations does, the token table stays well
/// formed and the state after it is a later state of the one before.
pub proof fn lemma_run(core: CoreState, ops: Seq<Op>)
    requires
        core.tokens.wf(),
    ensures
        run(core, ops).tokens.wf(),
        succeeds(core.tokens, run(core, ops).tokens),
    decreases ops.len(),
{
    if ops.len() > 0 {
        let mid = run(core, ops.drop_last());
        lemma_run(core, ops.drop_last());
        lemma_apply(mid, ops.last());
        lemma_succeeds_chain(core.tokens, mid.tokens, run(core, ops).tokens);
    }
}

/// The life of a handle runs one way: through every sequence of operations
/// a minted handle stays minted or dies, a bound handle stays bound or
/// dies, and a dead handle stays dead.
pub proof fn lemma_standing_only_advances(core: CoreState, ops: Seq<Op>, id: TokenId)
    requires
        core.tokens.wf(),
    ensures
        match core.tokens.standing(id) {
            Standing::Unissued => true,
            Standing::Minted => run(core, ops).tokens.standing(id) is Minted || run(
                core,
                ops,
            ).tokens.standing(id) is Dead,
            Standing::Bound => run(core, ops).tokens.standing(id) is Bound || run(
                core,
                ops,
            ).tokens.standing(id) is Dead,
            Standing::Dead => run(core, ops).tokens.standing(id) is Dead,
        },
{
    lemma_run(core, ops);
}

/// No resurrection, for a handle that is gone: a handle that is dead stays
/// dead through every sequence of operations. It is then not found, cannot
/// be rotated, and is accepted under no policy at no time.
pub proof fn lemma_dead_stays_dead(core: CoreState, ops: Seq<Op>, id: TokenId)
    requires
        core.tokens.wf(),
        core.tokens.is_dead(id),
    ensures
        run(core, ops).tokens.is_dead(id),
        run(core, ops).tokens.lookup(id) == Err::<crate::token::Token, AuthError>(
            AuthError::NotFound,
        ),
        forall|policy: Policy, at: Timestamp| #[trigger]
            accept_spec(run(core, ops).tokens, id, policy, at) == Err::<
                crate::token::Token,
                AuthError,
            >(AuthError::NotFound),
        forall|user: UserId, secret: u64, at: Timestamp| #[trigger]
            run(core, ops).tokens.rotate(id, user, secret, at) == (
                run(core, ops).tokens,
                Err::<TokenId, AuthError>(AuthError::Conflict),
            ),
{
    lemma_run(core, ops);
}

/// No resurrection, for a token that has expired: once a policy rejects a
/// live token at `now`, the handle is accepted under that policy at no
/// instant from `now` on, through every sequence of operations.
pub proof fn lemma_expired_stays_expired(
    core: CoreState,
    ops: Seq<Op>,
    id: TokenId,
    policy: Policy,
    now: Timestamp,
    later: Timestamp,
)
    requires
        core.tokens.wf(),
        accept_spec(core.tokens, id, policy, now) == Err::<crate::token::Token, AuthError>(
            AuthError::Expired,
        ),
        now.nanos <= later.nanos,
    ensures
        accept_spec(run(core, ops).tokens, id, policy, later) is Err,
{
    lemma_run(core, ops);
}

/// A rejected token cannot be used: both flows refuse it and change nothing.
pub proof fn lemma_rejected_is_refused(
    core: CoreState,
    id: TokenId,
    claims: ClaimsView,
    billing: Option<bool>,
    secret: u64,
    now: Timestamp,
)
    ensures
        accept_spec(core.tokens, id, Policy::PreAuth, now) matches Err(e) ==> create_user_spec(
            core,
            id,
            claims,
            secret,
            now,
        ) == (core, Err::<TokenId, AuthError>(e)),
        accept_spec(core.tokens, id, Policy::Session, now) matches Err(e) ==> auth_spec(
            core,
            id,
            billing,
            secret,
            now,
        ) == (core, Err::<crate::service::AuthResponseView, AuthError>(e)),
{
}

/// Rotation on use: when either flow succeeds, the presented handle is dead
/// and the handle that is returned is live, bound to the user, and last
/// used at `now`, so that it is accepted as a session at every instant up
/// to seven days after `now`.
pub proof fn lemma_success_rotates(
    core: CoreState,
    presented: TokenId,
    claims: ClaimsView,
    billing: Option<bool>,
    secret: u64,
    now: Timestamp,
    later: Timestamp,
)
    requires
        core.tokens.wf(),
        core.users.wf(),
        !lapsed(now, Policy::Session.window(), later),
    ensures
        create_user_spec(core, presented, claims, secret, now) matches (after, Ok(fresh)) ==> {
            &&& after.tokens.is_dead(presented)
            &&& accept_spec(after.tokens, fresh, Policy::Session, later) matches Ok(row)
            &&& row.updated == now
            &&& row.created == core.tokens.live[presented].created
            &&& core.users.upsert(claims).1 matches Ok(user)
            &&& row.user_id == Some(user.id)
        },
        auth_spec(core, presented, billing, secret, now) matches (after, Ok(response)) ==> {
            &&& after.tokens.is_dead(presented)
            &&& accept_spec(after.tokens, response.token, Policy::Session, later) matches Ok(row)
            &&& row.updated == now
            &&& row.created == core.tokens.live[presented].created
            &&& row.user_id == Some(response.user.id)
            &&& row.user_id == core.tokens.live[presented].user_id
        },
{
    if let (after, Ok(fresh)) = create_user_spec(core, presented, claims, secret, now) {
        let user = core.users.upsert(claims).1->Ok_0;
        lemma_rotate(core.tokens, presented, user.id, secret, now);
    }
    if let (after, Ok(response)) = auth_spec(core, presented, billing, secret, now) {
        let owner = core.tokens.live[presented].user_id->Some_0;
        lemma_rotate(core.tokens, presented, owner, secret, now);
    }
}

/// Rotation is exclusive: of any number of attempts to rotate one handle,
/// in whatever order the store carries them out and whatever else happens
/// in between, only the first that finds it live succeeds. Every later one
/// gets `Conflict` and changes nothing.
pub proof fn lemma_rotation_is_exclusive(
    core: CoreState,
    old_id: TokenId,
    first: (UserId, u64, Timestamp),
    between: Seq<Op>,
    second: (UserId, u64, Timestamp),
)
    requires
        core.tokens.wf(),
        core.tokens.rotate(old_id, first.0, first.1, first.2).1 is Ok,
    ensures
        ({
            let won = CoreState {
                tokens: core.tokens.rotate(old_id, first.0, first.1, first.2).0,
                users: core.users,
            };
            let met = run(won, between).tokens;
            met.rotate(old_id, second.0, second.1, second.2) == (
                met,
                Err::<TokenId, AuthError>(AuthError::Conflict),
            )
        }),
{
    lemma_rotate(core.tokens, old_id, first.0, first.1, first.2);
    let won = CoreState {
        tokens: core.tokens.rotate(old_id, first.0, first.1, first.2).0,
        users: core.users,
    };
    lemma_dead_stays_dead(won, between, old_id);
}

/// A deleted user is refused: where the token is a valid session of a user
/// whose `deleted` is anything but the sentinel, validation fails with
/// `Deleted`, and the presented token is spent all the same.
pub proof fn lemma_deleted_user_is_refused(
    core: CoreState,
    presented: TokenId,
    billing: Option<bool>,
    secret: u64,
    now: Timestamp,
)
    requires
        core.tokens.wf(),
        !core.tokens.exhausted(),
        accept_spec(core.tokens, presented, Policy::Session, now) matches Ok(row)
            && row.user_id matches Some(owner) && core.users.find_by_id(owner) matches Ok(user)
            && user.is_deleted(),
    ensures
        auth_spec(core, presented, billing, secret, now).1 == Err::<
            crate::service::AuthResponseView,
            AuthError,
        >(AuthError::Deleted),
        auth_spec(core, presented, billing, secret, now).0.tokens.is_dead(presented),
{
    let owner = core.tokens.live[presented].user_id->Some_0;
    lemma_rotate(core.tokens, presented, owner, secret, now);
}

/// Reclaiming removes exactly the stale rows: a row is live afterwards if
/// and only if it was live and not stale at `now`, and it is unchanged.
pub proof fn lemma_reclaim_is_exact(table: TokenTable, now: Timestamp, id: TokenId)
    ensures
        table.reclaim(now).live.contains_key(id) <==> table.live.contains_key(id) && !is_stale(
            table.live[id],
            now,
        ),
        table.reclaim(now).live.contains_key(id) ==> table.reclaim(now).live[id] == table.live[id],
        table.reclaim(now).issued == table.issued,
{
}

/// The table after one reclamation run at each of `times`, first to last.
pub open spec fn reclaim_all(table: TokenTable, times: Seq<Timestamp>) -> TokenTable
    decreases times.len(),
{
    if times.len() == 0 {
        table
    } else {
        reclaim_all(table, times.drop_last()).reclaim(times.last())
    }
}

/// However often reclamation runs, and when: a row is live afterwards if
/// and only if it was live and stale at none of the runs, and it is
/// unchanged.
pub proof fn lemma_reclaim_runs(table: TokenTable, times: Seq<Timestamp>, id: TokenId)
    ensures
        reclaim_all(table, times).live.contains_key(id) <==> table.live.contains_key(id) && forall|
            i: int,
        |
            0 <= i < times.len() ==> !is_stale(table.live[id], #[trigger] times[i]),
        reclaim_all(table, times).live.contains_key(id) ==> reclaim_all(table, times).live[id]
            == table.live[id],
    decreases times.len(),
{
    if times.len() > 0 {
        let earlier = times.drop_last();
        lemma_reclaim_runs(table, earlier, id);
        let mid = reclaim_all(table, earlier);
        lemma_reclaim_is_exact(mid, times.last(), id);
        if reclaim_all(table, times).live.contains_key(id) {
            assert forall|i: int| 0 <= i < times.len() implies !is_stale(
                table.live[id],
                #[trigger] times[i],
            ) by {
                if i < earlier.len() {
                    assert(earlier[i] == times[i]);
                }
            }
        }
        if table.live.contains_key(id) && forall|i: int|
            0 <= i < times.len() ==> !is_stale(table.live[id], #[trigger] times[i]) {
            assert forall|i: int| 0 <= i < earlier.len() implies !is_stale(
                table.live[id],
                #[trigger] earlier[i],
            ) by {
                assert(earlier[i] == times[i]);
            }
            assert(!is_stale(table.live[id], times[times.len() - 1]));
        }
    }
}

/// Reclaiming a second time at the same instant changes nothing.
pub proof fn lemma_reclaim_twice(table: TokenTable, now: Timestamp)
    ensures
        table.reclaim(now).reclaim(now) == table.reclaim(now),
{
    assert(table.reclaim(now).reclaim(now).live =~= table.reclaim(now).live);
}

/// Reclaiming is housekeeping only: a token that is accepted as a session
/// at `later` is accepted all the same after a run at any `now` up to
/// `later`. The same holds under the pre-authentication policy for a row
/// whose last use is not before its creation.
pub proof fn lemma_reclaim_spares_valid(
    table: TokenTable,
    id: TokenId,
    policy: Policy,
    now: Timestamp,
    later: Timestamp,
)
    requires
        now.nanos <= later.nanos,
        accept_spec(table, id, policy, later) matches Ok(row) && (policy is Session
            || row.created.nanos <= row.updated.nanos),
    ensures
        accept_spec(table.reclaim(now), id, policy, later) == accept_spec(table, id, policy, later),
{
}

/// Recording the same claims twice is recording them once: the second
/// call returns the same user and leaves the directory as the first left
/// it, with exactly one record that carries the subject and the address.
pub proof fn lemma_upsert_is_idempotent(dir: UserTable, claims: ClaimsView)
    requires
        dir.wf(),
        dir.upsert(claims).1 is Ok,
    ensures
        dir.upsert(claims).0.wf(),
        dir.upsert(claims).0.upsert(claims) == dir.upsert(claims),
        forall|id: UserId| #[trigger]
            dir.upsert(claims).0.matches(id, claims.sub, claims.email) <==> id == dir.upsert(
                claims,
            ).1->Ok_0.id,
        dir.upsert(claims).0.users.len() == dir.users.len() + (if dir.holder(
            claims.sub,
            claims.email,
        ) is None {
            1nat
        } else {
            0nat
        }),
{
    let once = dir.upsert(claims);
    let user = once.1->Ok_0;
    lemma_upsert(dir, claims);
    assert(once.0.matches(user.id, claims.sub, claims.email));
    let again = choose|id: UserId| once.0.matches(id, claims.sub, claims.email);
    assert(once.0.users.contains_key(again) && once.0.users.contains_key(user.id));
    assert(once.0.holder(claims.sub, claims.email) == Some(user.id));
    assert(once.0.users.insert(user.id, user) =~= once.0.users);
    assert forall|id: UserId| #[trigger]
        once.0.matches(id, claims.sub, claims.email) implies id == user.id by {
        assert(once.0.users.contains_key(id) && once.0.users.contains_key(user.id));
    }
}

/// Recording claims keeps the directory well formed, changes no other
/// record, and never changes who a record is or whether it is deleted.
pub proof fn lemma_upsert(dir: UserTable, claims: ClaimsView)
    requires
        dir.wf(),
    ensures
        dir.upsert(claims).0.wf(),
        dir.upsert(claims).1 matches Ok(user) ==> {
            &&& dir.upsert(claims).0.users.contains_key(user.id)
            &&& dir.upsert(claims).0.users[user.id] == user
            &&& user.sub == claims.sub
            &&& user.email == claims.email
            &&& user.avatar == claims.avatar
            &&& forall|other: UserId|
                other != user.id ==> (#[trigger] dir.upsert(claims).0.users.contains_key(other)
                    <==> dir.users.contains_key(other)) && (dir.users.contains_key(other)
                    ==> dir.upsert(claims).0.users[other] == dir.users[other])
            &&& dir.users.contains_key(user.id) ==> user.deleted == dir.users[user.id].deleted
            &&& dir.users.len() + (if dir.holder(claims.sub, claims.email) is None {
                1nat
            } else {
                0nat
            }) == dir.upsert(claims).0.users.len()
        },
        dir.upsert(claims).1 is Err ==> dir.upsert(claims).0 == dir,
{
    let after = dir.upsert(claims).0;
    match dir.holder(claims.sub, claims.email) {
        Some(id) => {
            assert(dir.matches(id, claims.sub, claims.email));
            let user = dir.upsert(claims).1->Ok_0;
            assert(after.users.dom() =~= dir.users.dom());
            assert forall|a: UserId, b: UserId|
                after.users.contains_key(a) && after.users.contains_key(b) && after.users[a].sub
                    == after.users[b].sub && after.users[a].email
                    == after.users[b].email implies a == b by {
                assert(dir.users.contains_key(a) && dir.users.contains_key(b));
            }
        },
        None => {
            if !dir.exhausted() {
                let id = UserId { value: dir.issued as u64 };
                assert(!dir.users.contains_key(id));
                assert(after.users.dom() =~= dir.users.dom().insert(id));
                assert forall|a: UserId, b: UserId|
                    after.users.contains_key(a) && after.users.contains_key(b)
                        && after.users[a].sub == after.users[b].sub && after.users[a].email
                        == after.users[b].email implies a == b by {
                    if a != id && b != id {
                        assert(dir.users.contains_key(a) && dir.users.contains_key(b));
                    } else if a != id {
                        assert(dir.matches(a, claims.sub, claims.email));
                    } else if b != id {
                        assert(dir.matches(b, claims.sub, claims.email));
                    }
                }
            }
        },
    }
}

} // verus!
