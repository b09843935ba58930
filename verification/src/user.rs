//! User records and the identity claims they are made from.

use vstd::prelude::*;
use crate::clock::Timestamp;
use crate::token::UserId;

verus! {

/// A user record.
#[derive(Debug, PartialEq, Eq)]
pub struct User {
    pub id: UserId,
    pub email: String,
    /// The subject under which the identity provider knows the user.
    pub sub: String,
    pub avatar: String,
    /// When the user was deleted; the sentinel instant while the user is not.
    pub deleted: Timestamp,
    /// Whether billing reports an active subscription. It is worked out for
    /// one response and never stored.
    pub subscription_active: bool,
}

/// A user record as a mathematical value.
pub struct UserView {
    pub id: UserId,
    pub email: Seq<char>,
    pub sub: Seq<char>,
    pub avatar: Seq<char>,
    pub deleted: Timestamp,
    pub subscription_active: bool,
}

impl View for User {
    type V = UserView;

    open spec fn view(&self) -> UserView {
        UserView {
            id: self.id,
            email: self.email@,
            sub: self.sub@,
            avatar: self.avatar@,
            deleted: self.deleted,
            subscription_active: self.subscription_active,
        }
    }
}

impl UserView {
    /// A user counts as deleted as soon as `deleted` is anything but the
    /// sentinel, whether that instant has come or not.
    pub open spec fn is_deleted(self) -> bool {
        self.deleted != Timestamp::never()
    }

    /// The same record with the subscription flag set to `active`.
    pub open spec fn with_subscription(self, active: bool) -> UserView {
        UserView { subscription_active: active, ..self }
    }
}

impl User {
    /// Whether the user is soft-deleted.
    pub fn is_deleted(&self) -> (r: bool)
        ensures
            r == self@.is_deleted(),
    {
        !self.deleted.is_never()
    }

    /// A copy of the record.
    pub fn duplicate(&self) -> (copy: User)
        ensures
            copy@ == self@,
    {
        User {
            id: self.id,
            email: self.email.clone(),
            sub: self.sub.clone(),
            avatar: self.avatar.clone(),
            deleted: self.deleted,
            subscription_active: self.subscription_active,
        }
    }
}

/// The identity attributes that an identity provider vouches for.
#[derive(Debug, PartialEq, Eq)]
pub struct Claims {
    pub email: String,
    pub sub: String,
    pub avatar: String,
}

/// Identity claims as a mathematical value.
pub struct ClaimsView {
    pub email: Seq<char>,
    pub sub: Seq<char>,
    pub avatar: Seq<char>,
}

impl View for Claims {
    type V = ClaimsView;

    open spec fn view(&self) -> ClaimsView {
        ClaimsView { email: self.email@, sub: self.sub@, avatar: self.avatar@ }
    }
}

} // verus!
