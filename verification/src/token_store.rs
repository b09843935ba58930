//! The token table: its mathematical model and a store that implements it.

use vstd::prelude::*;
use crate::clock::{has_lapsed, lapsed, Timestamp, RETENTION_NANOS};
use crate::error::AuthError;
use crate::token::{Token, TokenId, UserId};

verus! {

/// The token table as a mathematical value: the rows that are live, by
/// handle, and the number of handles issued so far.
pub struct TokenTable {
    pub live: Map<TokenId, Token>,
    pub issued: nat,
}

/// Where a handle stands in its life. A handle only ever moves down this
/// list, and never between `Minted` and `Bound`.
pub enum Standing {
    /// Not issued yet.
    Unissued,
    /// Live and bound to no user.
    Minted,
    /// Live and bound to a user.
    Bound,
    /// Issued and gone: rotated away or reclaimed.
    Dead,
}

/// Whether a row has gone unused for longer than the retention horizon.
pub open spec fn is_stale(row: Token, now: Timestamp) -> bool {
    lapsed(row.updated, RETENTION_NANOS as int, now)
}

impl TokenTable {
    /// The table before anything was issued.
    pub open spec fn empty() -> TokenTable {
        TokenTable { live: Map::empty(), issued: 0 }
    }

    /// Every live row is stored under its own handle, every live handle was
    /// issued, no two live handles share a serial, and a row that is not
    /// bound to a user has never been rotated.
    pub open spec fn wf(self) -> bool {
        &&& self.live.dom().finite()
        &&& self.issued <= u64::MAX
        &&& forall|id: TokenId| #[trigger]
            self.live.contains_key(id) ==> self.live[id].id == id && id.serial < self.issued
        &&& forall|a: TokenId, b: TokenId|
            #![trigger self.live.contains_key(a), self.live.contains_key(b)]
            self.live.contains_key(a) && self.live.contains_key(b) && a.serial == b.serial ==> a
                == b
        &&& forall|id: TokenId| #[trigger]
            self.live.contains_key(id) && self.live[id].user_id is None ==> self.live[id].created
                == self.live[id].updated
    }

    /// A handle is dead when its serial was issued and no live row carries it.
    pub open spec fn is_dead(self, id: TokenId) -> bool {
        id.serial < self.issued && !self.live.contains_key(id)
    }

    /// Where `id` stands.
    pub open spec fn standing(self, id: TokenId) -> Standing {
        if self.live.contains_key(id) {
            if self.live[id].user_id is None {
                Standing::Minted
            } else {
                Standing::Bound
            }
        } else if id.serial < self.issued {
            Standing::Dead
        } else {
            Standing::Unissued
        }
    }

    /// No serial is left to issue.
    pub open spec fn exhausted(self) -> bool {
        self.issued >= u64::MAX
    }

    /// The handle that the next issue gives out.
    pub open spec fn fresh_id(self, secret: u64) -> TokenId {
        TokenId { serial: self.issued as u64, secret }
    }

    /// Point lookup.
    pub open spec fn lookup(self, id: TokenId) -> Result<Token, AuthError> {
        if self.live.contains_key(id) {
            Ok(self.live[id])
        } else {
            Err(AuthError::NotFound)
        }
    }

    /// Issues an unbound token at `now`.
    pub open spec fn mint(self, secret: u64, now: Timestamp) -> (TokenTable, Result<
        TokenId,
        AuthError,
    >) {
        if self.exhausted() {
            (self, Err(AuthError::Unavailable))
        } else {
            let id = self.fresh_id(secret);
            let row = Token { id, user_id: None, created: now, updated: now };
            (TokenTable { live: self.live.insert(id, row), issued: self.issued + 1 }, Ok(id))
        }
    }

    /// Replaces the row under `old_id` by one under a fresh handle, bound to
    /// `user` and last used at `now`.
    pub open spec fn rotate(self, old_id: TokenId, user: UserId, secret: u64, now: Timestamp) -> (
        TokenTable,
        Result<TokenId, AuthError>,
    ) {
        if !self.live.contains_key(old_id) {
            (self, Err(AuthError::Conflict))
        } else if self.exhausted() {
            (self, Err(AuthError::Unavailable))
        } else {
            let id = self.fresh_id(secret);
            let row = Token {
                id,
                user_id: Some(user),
                created: self.live[old_id].created,
                updated: now,
            };
            (
                TokenTable {
                    live: self.live.remove(old_id).insert(id, row),
                    issued: self.issued + 1,
                },
                Ok(id),
            )
        }
    }

    /// The handles of the rows that are stale at `now`.
    pub open spec fn stale(self, now: Timestamp) -> Set<TokenId> {
        Set::new(|id: TokenId| self.live.contains_key(id) && is_stale(self.live[id], now))
    }

    /// Drops the rows that are stale at `now`.
    pub open spec fn reclaim(self, now: Timestamp) -> TokenTable {
        TokenTable { live: self.live.remove_keys(self.stale(now)), issued: self.issued }
    }
}

/// The rows hold distinct serials, all below `next`, and unbound rows carry
/// equal timestamps.
spec fn rows_wf(rows: Seq<Token>, next: u64) -> bool {
    &&& forall|i: int| 0 <= i < rows.len() ==> (#[trigger] rows[i]).id.serial < next
    &&& forall|i: int, j: int|
        0 <= i < j < rows.len() ==> (#[trigger] rows[i]).id.serial != (#[trigger] rows[j]).id.serial
    &&& forall|i: int|
        0 <= i < rows.len() && (#[trigger] rows[i]).user_id is None ==> rows[i].created
            == rows[i].updated
}

spec fn index_of(rows: Seq<Token>, id: TokenId) -> int {
    choose|i: int| 0 <= i < rows.len() && (#[trigger] rows[i]).id == id
}

/// The map that a sequence of rows stands for.
spec fn table_of(rows: Seq<Token>) -> Map<TokenId, Token> {
    Map::new(
        |id: TokenId| exists|i: int| 0 <= i < rows.len() && (#[trigger] rows[i]).id == id,
        |id: TokenId| rows[index_of(rows, id)],
    )
}

/// What `table_of` holds, row by row.
proof fn lemma_table_of(rows: Seq<Token>, next: u64)
    requires
        rows_wf(rows, next),
    ensures
        forall|i: int|
            0 <= i < rows.len() ==> table_of(rows).contains_key((#[trigger] rows[i]).id)
                && table_of(rows)[rows[i].id] == rows[i],
        forall|id: TokenId| #[trigger]
            table_of(rows).contains_key(id) ==> 0 <= index_of(rows, id) < rows.len()
                && rows[index_of(rows, id)].id == id,
        table_of(rows).dom().finite(),
        table_of(rows).dom().len() == rows.len(),
{
    assert forall|i: int| 0 <= i < rows.len() implies table_of(rows).contains_key(
        (#[trigger] rows[i]).id,
    ) && table_of(rows)[rows[i].id] == rows[i] by {
        let k = index_of(rows, rows[i].id);
        assert(rows[k].id == rows[i].id);
        if k < i {
            assert(rows[k].id.serial != rows[i].id.serial);
        }
        if i < k {
            assert(rows[i].id.serial != rows[k].id.serial);
        }
    }
    let ids = rows.map_values(|row: Token| row.id);
    assert forall|i: int, j: int| 0 <= i < ids.len() && 0 <= j < ids.len() && i != j implies ids[i]
        != ids[j] by {
        if i < j {
            assert(rows[i].id.serial != rows[j].id.serial);
        } else {
            assert(rows[j].id.serial != rows[i].id.serial);
        }
    }
    assert(table_of(rows).dom() =~= ids.to_set()) by {
        assert forall|id: TokenId| ids.to_set().contains(id) implies table_of(rows).dom().contains(
            id,
        ) by {
            let i = choose|i: int| 0 <= i < ids.len() && ids[i] == id;
            assert(rows[i].id == id);
        }
        assert forall|id: TokenId| table_of(rows).dom().contains(id) implies ids.to_set().contains(
            id,
        ) by {
            let i = index_of(rows, id);
            assert(ids[i] == id);
        }
    }
    vstd::seq_lib::seq_to_set_is_finite(ids);
    ids.unique_seq_to_set();
}

/// A map that agrees with the rows one by one is the map of the rows.
proof fn lemma_table_is(rows: Seq<Token>, next: u64, m: Map<TokenId, Token>)
    requires
        rows_wf(rows, next),
        forall|i: int|
            0 <= i < rows.len() ==> m.contains_key((#[trigger] rows[i]).id) && m[rows[i].id]
                == rows[i],
        forall|id: TokenId| #[trigger]
            m.contains_key(id) ==> exists|i: int|
                0 <= i < rows.len() && (#[trigger] rows[i]).id == id,
    ensures
        table_of(rows) == m,
{
    lemma_table_of(rows, next);
    assert forall|id: TokenId| m.contains_key(id) implies table_of(rows).contains_key(id)
        && table_of(rows)[id] == m[id] by {
        let i = choose|i: int| 0 <= i < rows.len() && (#[trigger] rows[i]).id == id;
        assert(table_of(rows).contains_key(rows[i].id));
    }
    assert forall|id: TokenId| table_of(rows).contains_key(id) implies m.contains_key(id) by {
        let i = index_of(rows, id);
        assert(m.contains_key(rows[i].id));
    }
    assert(table_of(rows) =~= m);
}

/// A store of session tokens, held in memory.
pub struct TokenStore {
    rows: Vec<Token>,
    next_serial: u64,
}

impl View for TokenStore {
    type V = TokenTable;

    closed spec fn view(&self) -> TokenTable {
        TokenTable { live: table_of(self.rows@), issued: self.next_serial as nat }
    }
}

impl TokenStore {
    /// The representation invariant of the store.
    pub closed spec fn wf(&self) -> bool {
        rows_wf(self.rows@, self.next_serial)
    }

    /// A well-formed store stands for a well-formed table.
    pub proof fn lemma_view_wf(&self)
        requires
            self.wf(),
        ensures
            self@.wf(),
    {
        let rows = self.rows@;
        lemma_table_of(rows, self.next_serial);
        assert forall|a: TokenId, b: TokenId|
            self@.live.contains_key(a) && self@.live.contains_key(b) && a.serial
                == b.serial implies a == b by {
            let i = index_of(rows, a);
            let j = index_of(rows, b);
            if i < j {
                assert(rows[i].id.serial != rows[j].id.serial);
            }
            if j < i {
                assert(rows[j].id.serial != rows[i].id.serial);
            }
        }
        assert forall|id: TokenId| #[trigger] self@.live.contains_key(id) implies self@.live[id].id
            == id && id.serial < self@.issued && (self@.live[id].user_id is None
            ==> self@.live[id].created == self@.live[id].updated) by {
            let i = index_of(rows, id);
            assert(self@.live[rows[i].id] == rows[i]);
        }
    }

    /// An empty store.
    pub fn new() -> (store: TokenStore)
        ensures
            store.wf(),
            store@ == TokenTable::empty(),
    {
        let store = TokenStore { rows: Vec::new(), next_serial: 0 };
        proof {
            lemma_table_is(store.rows@, 0, Map::empty());
        }
        store
    }

    /// The number of live rows.
    pub fn len(&self) -> (n: usize)
        requires
            self.wf(),
        ensures
            n == self@.live.len(),
    {
        proof {
            lemma_table_of(self.rows@, self.next_serial);
        }
        self.rows.len()
    }

    fn position(&self, id: TokenId) -> (at: Option<usize>)
        requires
            self.wf(),
        ensures
            match at {
                Some(i) => i < self.rows@.len() && self.rows@[i as int].id == id,
                None => !self@.live.contains_key(id),
            },
    {
        let mut i: usize = 0;
        while i < self.rows.len()
            invariant
                i <= self.rows@.len(),
                forall|k: int| 0 <= k < i ==> (#[trigger] self.rows@[k]).id != id,
            decreases self.rows@.len() - i,
        {
            if self.rows[i].id == id {
                return Some(i);
            }
            i = i + 1;
        }
        None
    }

    /// Creates a row that is bound to no user, with `created` and `updated`
    /// both `now`, and returns its handle.
    ///
    /// Fails with `Unavailable`, and changes nothing, when every serial has
    /// been issued.
    pub fn mint(&mut self, secret: u64, now: Timestamp) -> (r: Result<TokenId, AuthError>)
        requires
            old(self).wf(),
        ensures
            final(self).wf(),
            (final(self)@, r) == old(self)@.mint(secret, now),
    {
        if self.next_serial == u64::MAX {
            return Err(AuthError::Unavailable);
        }
        let id = TokenId { serial: self.next_serial, secret };
        let row = Token { id, user_id: None, created: now, updated: now };
        self.rows.push(row);
        self.next_serial = self.next_serial + 1;
        proof {
            let before = old(self).rows@;
            lemma_table_of(before, old(self).next_serial);
            let want = old(self)@.mint(secret, now).0.live;
            assert forall|k: int| 0 <= k < self.rows@.len() implies want.contains_key(
                (#[trigger] self.rows@[k]).id,
            ) && want[self.rows@[k].id] == self.rows@[k] by {
                if k < before.len() {
                    assert(self.rows@[k] == before[k]);
                }
            }
            assert forall|t: TokenId| #[trigger] want.contains_key(t) implies exists|k: int|
                0 <= k < self.rows@.len() && (#[trigger] self.rows@[k]).id == t by {
                if t == id {
                    assert(self.rows@[before.len() as int].id == t);
                } else {
                    let k = index_of(before, t);
                    assert(self.rows@[k] == before[k]);
                }
            }
            lemma_table_is(self.rows@, self.next_serial, want);
        }
        Ok(id)
    }

    /// Finds the row under `id`.
    ///
    /// Fails with `NotFound` for a handle that was never issued and for one
    /// that was rotated away or reclaimed alike.
    pub fn lookup(&self, id: TokenId) -> (r: Result<Token, AuthError>)
        requires
            self.wf(),
        ensures
            r == self@.lookup(id),
    {
        match self.position(id) {
            Some(i) => {
                proof {
                    lemma_table_of(self.rows@, self.next_serial);
                }
                Ok(self.rows[i])
            },
            None => Err(AuthError::NotFound),
        }
    }

    /// Replaces the row under `old_id` by a row under a fresh handle, bound
    /// to `user`, with `created` kept and `updated` set to `now`.
    ///
    /// Fails with `Conflict` when `old_id` is not live, and with
    /// `Unavailable` when every serial has been issued; either way nothing
    /// changes.
    pub fn rotate(&mut self, old_id: TokenId, user: UserId, secret: u64, now: Timestamp) -> (r:
        Result<TokenId, AuthError>)
        requires
            old(self).wf(),
        ensures
            final(self).wf(),
            (final(self)@, r) == old(self)@.rotate(old_id, user, secret, now),
    {
        match self.position(old_id) {
            None => Err(AuthError::Conflict),
            Some(i) => {
                if self.next_serial == u64::MAX {
                    return Err(AuthError::Unavailable);
                }
                let prior = self.rows[i];
                let id = TokenId { serial: self.next_serial, secret };
                let row = Token { id, user_id: Some(user), created: prior.created, updated: now };
                self.rows.set(i, row);
                self.next_serial = self.next_serial + 1;
                proof {
                    let before = old(self).rows@;
                    lemma_table_of(before, old(self).next_serial);
                    let want = old(self)@.rotate(old_id, user, secret, now).0.live;
                    assert forall|k: int| 0 <= k < self.rows@.len() implies want.contains_key(
                        (#[trigger] self.rows@[k]).id,
                    ) && want[self.rows@[k].id] == self.rows@[k] by {
                        if k != i {
                            assert(self.rows@[k] == before[k]);
                            if k < i {
                                assert(before[k].id.serial != before[i as int].id.serial);
                            } else {
                                assert(before[i as int].id.serial != before[k].id.serial);
                            }
                        }
                    }
                    assert forall|t: TokenId| #[trigger] want.contains_key(t) implies exists|
                        k: int,
                    |
                        0 <= k < self.rows@.len() && (#[trigger] self.rows@[k]).id == t by {
                        if t == id {
                            assert(self.rows@[i as int].id == t);
                        } else {
                            let k = index_of(before, t);
                            assert(self.rows@[k] == before[k]);
                        }
                    }
                    lemma_table_is(self.rows@, self.next_serial, want);
                }
                Ok(id)
            },
        }
    }

    /// Deletes every row that is stale at `now` and returns how many there
    /// were. Rows that are not stale are left as they are.
    pub fn reclaim_stale(&mut self, now: Timestamp) -> (count: usize)
        requires
            old(self).wf(),
        ensures
            final(self).wf(),
            final(self)@ == old(self)@.reclaim(now),
            count == old(self)@.stale(now).len(),
    {
        let mut kept: Vec<Token> = Vec::new();
        let ghost mut from: Seq<int> = Seq::empty();
        let mut i: usize = 0;
        while i < self.rows.len()
            invariant
                self == old(self),
                self.wf(),
                i <= self.rows@.len(),
                from.len() == kept@.len(),
                kept@.len() <= i,
                forall|j: int|
                    0 <= j < from.len() ==> 0 <= #[trigger] from[j] < i && kept@[j]
                        == self.rows@[from[j]] && !is_stale(kept@[j], now),
                forall|j: int, k: int| 0 <= j < k < from.len() ==> from[j] < from[k],
                forall|k: int|
                    0 <= k < i && !is_stale(#[trigger] self.rows@[k], now) ==> exists|j: int|
                        0 <= j < from.len() && #[trigger] from[j] == k,
            decreases self.rows@.len() - i,
        {
            let row = self.rows[i];
            if !has_lapsed(row.updated, RETENTION_NANOS, now) {
                kept.push(row);
                proof {
                    let ghost earlier = from;
                    from = from.push(i as int);
                    assert forall|k: int|
                        0 <= k < i + 1 && !is_stale(
                            #[trigger] self.rows@[k],
                            now,
                        ) implies exists|j: int| 0 <= j < from.len() && #[trigger] from[j] == k by {
                        if k < i {
                            let j = choose|j: int|
                                0 <= j < earlier.len() && #[trigger] earlier[j] == k;
                            assert(from[j] == k);
                        } else {
                            assert(from[from.len() - 1] == k);
                        }
                    }
                }
            }
            i = i + 1;
        }
        let removed: usize = self.rows.len() - kept.len();
        proof {
            let before = self.rows@;
            let want = old(self)@.reclaim(now).live;
            lemma_table_of(before, self.next_serial);
            assert(rows_wf(kept@, self.next_serial)) by {
                assert forall|a: int| 0 <= a < kept@.len() implies (#[trigger] kept@[a]).id.serial
                    < self.next_serial && (kept@[a].user_id is None ==> kept@[a].created
                    == kept@[a].updated) by {
                    assert(kept@[a] == before[from[a]]);
                }
                assert forall|a: int, b: int| 0 <= a < b < kept@.len() implies (
                #[trigger] kept@[a]).id.serial != (#[trigger] kept@[b]).id.serial by {
                    assert(from[a] < from[b]);
                    assert(before[from[a]].id.serial != before[from[b]].id.serial);
                }
            }
            assert forall|j: int| 0 <= j < kept@.len() implies want.contains_key(
                (#[trigger] kept@[j]).id,
            ) && want[kept@[j].id] == kept@[j] by {
                assert(kept@[j] == before[from[j]]);
                assert(table_of(before).contains_key(before[from[j]].id));
            }
            assert forall|t: TokenId| #[trigger] want.contains_key(t) implies exists|j: int|
                0 <= j < kept@.len() && (#[trigger] kept@[j]).id == t by {
                let k = index_of(before, t);
                assert(!is_stale(before[k], now));
                let j = choose|j: int| 0 <= j < from.len() && #[trigger] from[j] == k;
                assert(kept@[j].id == t);
            }
            lemma_table_is(kept@, self.next_serial, want);
            lemma_table_of(kept@, self.next_serial);
            let all = old(self)@.live.dom();
            let gone = old(self)@.stale(now);
            assert(gone.subset_of(all));
            vstd::set_lib::lemma_len_subset(gone, all);
            vstd::set_lib::lemma_set_difference_len(all, gone);
            assert(all.intersect(gone) =~= gone);
            assert(all.difference(gone) =~= want.dom());
        }
        self.rows = kept;
        removed
    }
}

} // verus!
