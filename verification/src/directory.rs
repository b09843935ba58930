//! The user directory: its mathematical model and a store that implements it.

use vstd::prelude::*;
use crate::clock::Timestamp;
use crate::error::AuthError;
use crate::token::UserId;
use crate::user::{Claims, ClaimsView, User, UserView};

verus! {

/// The user directory as a mathematical value: the records by identifier,
/// and the number of identifiers issued so far.
pub struct UserTable {
    pub users: Map<UserId, UserView>,
    pub issued: nat,
}

impl UserTable {
    /// The directory before anyone was recorded.
    pub open spec fn empty() -> UserTable {
        UserTable { users: Map::empty(), issued: 0 }
    }

    /// Whether the record under `id` carries this subject and this address.
    pub open spec fn matches(self, id: UserId, sub: Seq<char>, email: Seq<char>) -> bool {
        self.users.contains_key(id) && self.users[id].sub == sub && self.users[id].email == email
    }

    /// Every record is stored under its own identifier, every identifier was
    /// issued, no stored record carries a subscription flag, and no two
    /// records carry the same subject and address.
    pub open spec fn wf(self) -> bool {
        &&& self.users.dom().finite()
        &&& self.issued <= u64::MAX
        &&& forall|id: UserId| #[trigger]
            self.users.contains_key(id) ==> self.users[id].id == id && id.value < self.issued
                && !self.users[id].subscription_active
        &&& forall|a: UserId, b: UserId|
            #![trigger self.users.contains_key(a), self.users.contains_key(b)]
            self.users.contains_key(a) && self.users.contains_key(b) && self.users[a].sub
                == self.users[b].sub && self.users[a].email == self.users[b].email ==> a == b
    }

    /// No identifier is left to issue.
    pub open spec fn exhausted(self) -> bool {
        self.issued >= u64::MAX
    }

    /// The identifier of the record with this subject and address, if any.
    pub open spec fn holder(self, sub: Seq<char>, email: Seq<char>) -> Option<UserId> {
        if exists|id: UserId| self.matches(id, sub, email) {
            Some(choose|id: UserId| self.matches(id, sub, email))
        } else {
            None
        }
    }

    /// Point lookup.
    pub open spec fn find_by_id(self, id: UserId) -> Result<UserView, AuthError> {
        if self.users.contains_key(id) {
            Ok(self.users[id])
        } else {
            Err(AuthError::NotFound)
        }
    }

    /// Records the claims: the record with the same subject and address gets
    /// the new avatar; if there is none, a record is created.
    pub open spec fn upsert(self, claims: ClaimsView) -> (UserTable, Result<UserView, AuthError>) {
        match self.holder(claims.sub, claims.email) {
            Some(id) => {
                let user = UserView { avatar: claims.avatar, ..self.users[id] };
                (UserTable { users: self.users.insert(id, user), issued: self.issued }, Ok(user))
            },
            None => {
                if self.exhausted() {
                    (self, Err(AuthError::Unavailable))
                } else {
                    let id = UserId { value: self.issued as u64 };
                    let user = UserView {
                        id,
                        email: claims.email,
                        sub: claims.sub,
                        avatar: claims.avatar,
                        deleted: Timestamp::never(),
                        subscription_active: false,
                    };
                    (
                        UserTable { users: self.users.insert(id, user), issued: self.issued + 1 },
                        Ok(user),
                    )
                }
            },
        }
    }

    /// Marks the record under `id` as deleted at `at`.
    pub open spec fn soft_delete(self, id: UserId, at: Timestamp) -> (UserTable, Result<
        (),
        AuthError,
    >) {
        if self.users.contains_key(id) {
            let user = UserView { deleted: at, ..self.users[id] };
            (UserTable { users: self.users.insert(id, user), issued: self.issued }, Ok(()))
        } else {
            (self, Err(AuthError::NotFound))
        }
    }
}

spec fn rows_wf(rows: Seq<User>, next: u64) -> bool {
    &&& forall|i: int|
        0 <= i < rows.len() ==> (#[trigger] rows[i]).id.value < next
            && !rows[i].subscription_active
    &&& forall|i: int, j: int|
        0 <= i < j < rows.len() ==> (#[trigger] rows[i]).id != (#[trigger] rows[j]).id
    &&& forall|i: int, j: int|
        0 <= i < j < rows.len() ==> !((#[trigger] rows[i]).sub@ == (#[trigger] rows[j]).sub@
            && rows[i].email@ == rows[j].email@)
}

spec fn index_of(rows: Seq<User>, id: UserId) -> int {
    choose|i: int| 0 <= i < rows.len() && (#[trigger] rows[i]).id == id
}

/// The map that a sequence of records stands for.
spec fn users_of(rows: Seq<User>) -> Map<UserId, UserView> {
    Map::new(
        |id: UserId| exists|i: int| 0 <= i < rows.len() && (#[trigger] rows[i]).id == id,
        |id: UserId| rows[index_of(rows, id)]@,
    )
}

/// What `users_of` holds, record by record.
proof fn lemma_users_of(rows: Seq<User>, next: u64)
    requires
        rows_wf(rows, next),
    ensures
        forall|i: int|
            0 <= i < rows.len() ==> users_of(rows).contains_key((#[trigger] rows[i]).id)
                && users_of(rows)[rows[i].id] == rows[i]@,
        forall|id: UserId| #[trigger]
            users_of(rows).contains_key(id) ==> 0 <= index_of(rows, id) < rows.len()
                && rows[index_of(rows, id)].id == id,
        users_of(rows).dom().finite(),
        users_of(rows).dom().len() == rows.len(),
{
    assert forall|i: int| 0 <= i < rows.len() implies users_of(rows).contains_key(
        (#[trigger] rows[i]).id,
    ) && users_of(rows)[rows[i].id] == rows[i]@ by {
        let k = index_of(rows, rows[i].id);
        assert(rows[k].id == rows[i].id);
        if k < i {
            assert(rows[k].id != rows[i].id);
        }
        if i < k {
            assert(rows[i].id != rows[k].id);
        }
    }
    let ids = rows.map_values(|row: User| row.id);
    assert forall|i: int, j: int| 0 <= i < ids.len() && 0 <= j < ids.len() && i != j implies ids[i]
        != ids[j] by {
        if i < j {
            assert(rows[i].id != rows[j].id);
        } else {
            assert(rows[j].id != rows[i].id);
        }
    }
    assert(users_of(rows).dom() =~= ids.to_set()) by {
        assert forall|id: UserId| ids.to_set().contains(id) implies users_of(rows).dom().contains(
            id,
        ) by {
            let i = choose|i: int| 0 <= i < ids.len() && ids[i] == id;
            assert(rows[i].id == id);
        }
        assert forall|id: UserId| users_of(rows).dom().contains(id) implies ids.to_set().contains(
            id,
        ) by {
            let i = index_of(rows, id);
            assert(ids[i] == id);
        }
    }
    vstd::seq_lib::seq_to_set_is_finite(ids);
    ids.unique_seq_to_set();
}

/// A map that agrees with the records one by one is the map of the records.
proof fn lemma_users_is(rows: Seq<User>, next: u64, m: Map<UserId, UserView>)
    requires
        rows_wf(rows, next),
        forall|i: int|
            0 <= i < rows.len() ==> m.contains_key((#[trigger] rows[i]).id) && m[rows[i].id]
                == rows[i]@,
        forall|id: UserId| #[trigger]
            m.contains_key(id) ==> exists|i: int|
                0 <= i < rows.len() && (#[trigger] rows[i]).id == id,
    ensures
        users_of(rows) == m,
{
    lemma_users_of(rows, next);
    assert forall|id: UserId| m.contains_key(id) implies users_of(rows).contains_key(id)
        && users_of(rows)[id] == m[id] by {
        let i = choose|i: int| 0 <= i < rows.len() && (#[trigger] rows[i]).id == id;
        assert(users_of(rows).contains_key(rows[i].id));
    }
    assert forall|id: UserId| users_of(rows).contains_key(id) implies m.contains_key(id) by {
        let i = index_of(rows, id);
        assert(m.contains_key(rows[i].id));
    }
    assert(users_of(rows) =~= m);
}

/// A directory of users, held in memory.
pub struct UserDirectory {
    rows: Vec<User>,
    next_id: u64,
}

impl View for UserDirectory {
    type V = UserTable;

    closed spec fn view(&self) -> UserTable {
        UserTable { users: users_of(self.rows@), issued: self.next_id as nat }
    }
}

impl UserDirectory {
    /// The representation invariant of the directory.
    pub closed spec fn wf(&self) -> bool {
        rows_wf(self.rows@, self.next_id)
    }

    /// A well-formed directory stands for a well-formed table.
    pub proof fn lemma_view_wf(&self)
        requires
            self.wf(),
        ensures
            self@.wf(),
    {
        let rows = self.rows@;
        lemma_users_of(rows, self.next_id);
        assert forall|a: UserId, b: UserId|
            self@.users.contains_key(a) && self@.users.contains_key(b) && self@.users[a].sub
                == self@.users[b].sub && self@.users[a].email
                == self@.users[b].email implies a == b by {
            let i = index_of(rows, a);
            let j = index_of(rows, b);
            assert(self@.users[rows[i].id] == rows[i]@);
            assert(self@.users[rows[j].id] == rows[j]@);
            if i < j {
                assert(!(rows[i].sub@ == rows[j].sub@ && rows[i].email@ == rows[j].email@));
            }
            if j < i {
                assert(!(rows[j].sub@ == rows[i].sub@ && rows[j].email@ == rows[i].email@));
            }
        }
        assert forall|id: UserId| #[trigger] self@.users.contains_key(id) implies self@.users[id].id
            == id && id.value < self@.issued && !self@.users[id].subscription_active by {
            let i = index_of(rows, id);
            assert(self@.users[rows[i].id] == rows[i]@);
        }
    }

    /// An empty directory.
    pub fn new() -> (dir: UserDirectory)
        ensures
            dir.wf(),
            dir@ == UserTable::empty(),
    {
        let dir = UserDirectory { rows: Vec::new(), next_id: 0 };
        proof {
            lemma_users_is(dir.rows@, 0, Map::empty());
        }
        dir
    }

    /// The number of records.
    pub fn len(&self) -> (n: usize)
        requires
            self.wf(),
        ensures
            n == self@.users.len(),
    {
        proof {
            lemma_users_of(self.rows@, self.next_id);
        }
        self.rows.len()
    }

    fn position(&self, id: UserId) -> (at: Option<usize>)
        requires
            self.wf(),
        ensures
            match at {
                Some(i) => i < self.rows@.len() && self.rows@[i as int].id == id,
                None => !self@.users.contains_key(id),
            },
    {
        let mut i: usize = 0;
        while i < self.rows.len()
            invariant
                i <= self.rows@.len(),
                forall|k: int| 0 <= k < i ==> (#[trigger] self.rows@[k]).id != id,
            decreases self.rows@.len() - i,
        {
            if self.rows[i].id == id {
                return Some(i);
            }
            i = i + 1;
        }
        None
    }

    fn position_of_identity(&self, sub: &String, email: &String) -> (at: Option<usize>)
        requires
            self.wf(),
        ensures
            match at {
                Some(i) => i < self.rows@.len() && self@.holder(sub@, email@) == Some(
                    self.rows@[i as int].id,
                ),
                None => self@.holder(sub@, email@) is None,
            },
    {
        proof {
            self.lemma_view_wf();
            lemma_users_of(self.rows@, self.next_id);
        }
        let mut i: usize = 0;
        while i < self.rows.len()
            invariant
                i <= self.rows@.len(),
                forall|k: int|
                    0 <= k < i ==> !((#[trigger] self.rows@[k]).sub@ == sub@ && self.rows@[k].email@
                        == email@),
                self@.wf(),
                forall|k: int|
                    0 <= k < self.rows@.len() ==> self@.users.contains_key(
                        (#[trigger] self.rows@[k]).id,
                    ) && self@.users[self.rows@[k].id] == self.rows@[k]@,
            decreases self.rows@.len() - i,
        {
            if self.rows[i].sub == *sub && self.rows[i].email == *email {
                proof {
                    let found = self.rows@[i as int].id;
                    assert(self@.matches(found, sub@, email@));
                    let chosen = choose|id: UserId| self@.matches(id, sub@, email@);
                    assert(self@.users.contains_key(chosen) && self@.users.contains_key(found));
                }
                return Some(i);
            }
            i = i + 1;
        }
        proof {
            assert forall|id: UserId| !self@.matches(id, sub@, email@) by {
                if self@.users.contains_key(id) {
                    let k = index_of(self.rows@, id);
                    assert(self@.users[self.rows@[k].id] == self.rows@[k]@);
                }
            }
        }
        None
    }

    /// Finds the record under `id`, or fails with `NotFound`.
    pub fn find_by_id(&self, id: UserId) -> (r: Result<User, AuthError>)
        requires
            self.wf(),
        ensures
            match r {
                Ok(user) => self@.find_by_id(id) == Ok::<UserView, AuthError>(user@),
                Err(e) => self@.find_by_id(id) == Err::<UserView, AuthError>(e),
            },
    {
        match self.position(id) {
            Some(i) => {
                proof {
                    lemma_users_of(self.rows@, self.next_id);
                }
                Ok(self.rows[i].duplicate())
            },
            None => Err(AuthError::NotFound),
        }
    }

    /// Records identity claims and returns the record that now holds them.
    ///
    /// Where a record with the same subject and address exists, its avatar
    /// is replaced and nothing else changes. Otherwise a record is created
    /// under a fresh identifier, not deleted. Fails with `Unavailable`, and
    /// changes nothing, when a record is needed and every identifier has
    /// been issued.
    pub fn upsert(&mut self, claims: &Claims) -> (r: Result<User, AuthError>)
        requires
            old(self).wf(),
        ensures
            final(self).wf(),
            final(self)@ == old(self)@.upsert(claims@).0,
            match r {
                Ok(user) => old(self)@.upsert(claims@).1 == Ok::<UserView, AuthError>(user@),
                Err(e) => old(self)@.upsert(claims@).1 == Err::<UserView, AuthError>(e),
            },
    {
        let ghost before = self.rows@;
        let ghost want = old(self)@.upsert(claims@).0.users;
        proof {
            lemma_users_of(before, self.next_id);
        }
        match self.position_of_identity(&claims.sub, &claims.email) {
            Some(i) => {
                let user = User {
                    id: self.rows[i].id,
                    email: self.rows[i].email.clone(),
                    sub: self.rows[i].sub.clone(),
                    avatar: claims.avatar.clone(),
                    deleted: self.rows[i].deleted,
                    subscription_active: false,
                };
                let copy = user.duplicate();
                self.rows.set(i, user);
                proof {
                    assert(copy@ == (UserView { avatar: claims@.avatar, ..before[i as int]@ }));
                    assert forall|a: int, b: int| 0 <= a < b < self.rows@.len() implies (
                    #[trigger] self.rows@[a]).id != (#[trigger] self.rows@[b]).id && !(
                    self.rows@[a].sub@ == self.rows@[b].sub@ && self.rows@[a].email@
                        == self.rows@[b].email@) by {
                        assert(before[a].id != before[b].id);
                        assert(!(before[a].sub@ == before[b].sub@ && before[a].email@
                            == before[b].email@));
                    }
                    assert forall|k: int| 0 <= k < self.rows@.len() implies (
                    #[trigger] self.rows@[k]).id.value < self.next_id
                        && !self.rows@[k].subscription_active by {
                        assert(before[k].id.value < self.next_id);
                    }
                    assert forall|k: int| 0 <= k < self.rows@.len() implies want.contains_key(
                        (#[trigger] self.rows@[k]).id,
                    ) && want[self.rows@[k].id] == self.rows@[k]@ by {
                        if k != i {
                            assert(self.rows@[k] == before[k]);
                            if k < i {
                                assert(before[k].id != before[i as int].id);
                            } else {
                                assert(before[i as int].id != before[k].id);
                            }
                        }
                    }
                    assert forall|t: UserId| #[trigger] want.contains_key(t) implies exists|k: int|
                        0 <= k < self.rows@.len() && (#[trigger] self.rows@[k]).id == t by {
                        if t == before[i as int].id {
                            assert(self.rows@[i as int].id == t);
                        } else {
                            let k = index_of(before, t);
                            assert(self.rows@[k] == before[k]);
                        }
                    }
                    lemma_users_is(self.rows@, self.next_id, want);
                }
                Ok(copy)
            },
            None => {
                if self.next_id == u64::MAX {
                    return Err(AuthError::Unavailable);
                }
                let user = User {
                    id: UserId { value: self.next_id },
                    email: claims.email.clone(),
                    sub: claims.sub.clone(),
                    avatar: claims.avatar.clone(),
                    deleted: Timestamp::sentinel(),
                    subscription_active: false,
                };
                let copy = user.duplicate();
                self.rows.push(user);
                self.next_id = self.next_id + 1;
                proof {
                    let fresh = UserId { value: old(self).next_id };
                    assert forall|k: int| 0 <= k < before.len() implies !((
                    #[trigger] before[k]).sub@ == claims@.sub && before[k].email@
                        == claims@.email) by {
                        if before[k].sub@ == claims@.sub && before[k].email@ == claims@.email {
                            assert(old(self)@.matches(before[k].id, claims@.sub, claims@.email));
                        }
                    }
                    assert forall|a: int, b: int| 0 <= a < b < self.rows@.len() implies (
                    #[trigger] self.rows@[a]).id != (#[trigger] self.rows@[b]).id && !(
                    self.rows@[a].sub@ == self.rows@[b].sub@ && self.rows@[a].email@
                        == self.rows@[b].email@) by {
                        assert(self.rows@[a] == before[a]);
                        if b < before.len() {
                            assert(self.rows@[b] == before[b]);
                            assert(before[a].id != before[b].id);
                        }
                    }
                    assert forall|k: int| 0 <= k < self.rows@.len() implies (
                    #[trigger] self.rows@[k]).id.value < self.next_id
                        && !self.rows@[k].subscription_active by {
                        if k < before.len() {
                            assert(self.rows@[k] == before[k]);
                        }
                    }
                    assert forall|k: int| 0 <= k < self.rows@.len() implies want.contains_key(
                        (#[trigger] self.rows@[k]).id,
                    ) && want[self.rows@[k].id] == self.rows@[k]@ by {
                        if k < before.len() {
                            assert(self.rows@[k] == before[k]);
                        }
                    }
                    assert forall|t: UserId| #[trigger] want.contains_key(t) implies exists|k: int|
                        0 <= k < self.rows@.len() && (#[trigger] self.rows@[k]).id == t by {
                        if t == fresh {
                            assert(self.rows@[before.len() as int].id == t);
                        } else {
                            let k = index_of(before, t);
                            assert(self.rows@[k] == before[k]);
                        }
                    }
                    lemma_users_is(self.rows@, self.next_id, want);
                }
                Ok(copy)
            },
        }
    }

    /// Marks the record under `id` as deleted at `at`, or fails with
    /// `NotFound` and changes nothing.
    pub fn soft_delete(&mut self, id: UserId, at: Timestamp) -> (r: Result<(), AuthError>)
        requires
            old(self).wf(),
        ensures
            final(self).wf(),
            (final(self)@, r) == old(self)@.soft_delete(id, at),
    {
        let ghost before = self.rows@;
        let ghost want = old(self)@.soft_delete(id, at).0.users;
        proof {
            lemma_users_of(before, self.next_id);
        }
        match self.position(id) {
            None => Err(AuthError::NotFound),
            Some(i) => {
                let user = User {
                    id: self.rows[i].id,
                    email: self.rows[i].email.clone(),
                    sub: self.rows[i].sub.clone(),
                    avatar: self.rows[i].avatar.clone(),
                    deleted: at,
                    subscription_active: false,
                };
                self.rows.set(i, user);
                proof {
                    assert forall|a: int, b: int| 0 <= a < b < self.rows@.len() implies (
                    #[trigger] self.rows@[a]).id != (#[trigger] self.rows@[b]).id && !(
                    self.rows@[a].sub@ == self.rows@[b].sub@ && self.rows@[a].email@
                        == self.rows@[b].email@) by {
                        assert(before[a].id != before[b].id);
                        assert(!(before[a].sub@ == before[b].sub@ && before[a].email@
                            == before[b].email@));
                    }
                    assert forall|k: int| 0 <= k < self.rows@.len() implies (
                    #[trigger] self.rows@[k]).id.value < self.next_id
                        && !self.rows@[k].subscription_active by {
                        assert(before[k].id.value < self.next_id);
                    }
                    assert forall|k: int| 0 <= k < self.rows@.len() implies want.contains_key(
                        (#[trigger] self.rows@[k]).id,
                    ) && want[self.rows@[k].id] == self.rows@[k]@ by {
                        if k != i {
                            assert(self.rows@[k] == before[k]);
                            if k < i {
                                assert(before[k].id != before[i as int].id);
                            } else {
                                assert(before[i as int].id != before[k].id);
                            }
                        }
                    }
                    assert forall|t: UserId| #[trigger] want.contains_key(t) implies exists|k: int|
                        0 <= k < self.rows@.len() && (#[trigger] self.rows@[k]).id == t by {
                        if t == id {
                            assert(self.rows@[i as int].id == t);
                        } else {
                            let k = index_of(before, t);
                            assert(self.rows@[k] == before[k]);
                        }
                    }
                    lemma_users_is(self.rows@, self.next_id, want);
                }
                Ok(())
            },
        }
    }
}

} // verus!
