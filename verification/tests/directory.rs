use session_core::clock::Timestamp;
use session_core::directory::UserDirectory;
use session_core::error::AuthError;
use session_core::token::UserId;
use session_core::user::{Claims, User};

fn claims(email: &str, sub: &str, avatar: &str) -> Claims {
    Claims { email: email.to_string(), sub: sub.to_string(), avatar: avatar.to_string() }
}

#[test]
fn upsert_creates_a_user_that_is_not_deleted() {
    let mut dir = UserDirectory::new();
    let user = dir.upsert(&claims("a@example.org", "sub-a", "a.png")).unwrap();
    assert_eq!(
        user,
        User {
            id: UserId { value: 0 },
            email: "a@example.org".to_string(),
            sub: "sub-a".to_string(),
            avatar: "a.png".to_string(),
            deleted: Timestamp::sentinel(),
            subscription_active: false,
        }
    );
    assert!(!user.is_deleted());
    assert_eq!(dir.len(), 1);
    assert_eq!(dir.find_by_id(user.id), Ok(user));
}

#[test]
fn upsert_twice_with_the_same_claims_is_one_row() {
    let mut dir = UserDirectory::new();
    let c = claims("a@example.org", "sub-a", "a.png");
    let first = dir.upsert(&c).unwrap();
    let second = dir.upsert(&c).unwrap();
    assert_eq!(first, second);
    assert_eq!(dir.len(), 1);
    let third = dir.upsert(&c).unwrap();
    assert_eq!(first, third);
    assert_eq!(dir.len(), 1);
}

#[test]
fn upsert_replaces_the_avatar_of_the_same_identity() {
    let mut dir = UserDirectory::new();
    let first = dir.upsert(&claims("a@example.org", "sub-a", "old.png")).unwrap();
    let second = dir.upsert(&claims("a@example.org", "sub-a", "new.png")).unwrap();
    assert_eq!(second.id, first.id);
    assert_eq!(second.avatar, "new.png");
    assert_eq!(second.email, "a@example.org");
    assert_eq!(second.sub, "sub-a");
    assert_eq!(dir.len(), 1);
    assert_eq!(dir.find_by_id(first.id).unwrap().avatar, "new.png");
}

#[test]
fn upsert_of_another_identity_is_another_row() {
    let mut dir = UserDirectory::new();
    let a = dir.upsert(&claims("a@example.org", "sub-a", "a.png")).unwrap();
    let b = dir.upsert(&claims("b@example.org", "sub-a", "a.png")).unwrap();
    let c = dir.upsert(&claims("a@example.org", "sub-c", "a.png")).unwrap();
    assert_eq!((a.id.value, b.id.value, c.id.value), (0, 1, 2));
    assert_eq!(dir.len(), 3);
    assert_eq!(dir.find_by_id(a.id).unwrap().avatar, "a.png");
}

#[test]
fn find_by_id_of_unknown_user_is_not_found() {
    let mut dir = UserDirectory::new();
    let _ = dir.upsert(&claims("a@example.org", "sub-a", "a.png")).unwrap();
    assert_eq!(dir.find_by_id(UserId { value: 1 }), Err(AuthError::NotFound));
}

#[test]
fn soft_delete_sets_the_instant_and_keeps_the_row() {
    let mut dir = UserDirectory::new();
    let user = dir.upsert(&claims("a@example.org", "sub-a", "a.png")).unwrap();
    assert_eq!(dir.soft_delete(user.id, Timestamp::from_unix_nanos(77)), Ok(()));
    let found = dir.find_by_id(user.id).unwrap();
    assert_eq!(found.deleted, Timestamp::from_unix_nanos(77));
    assert!(found.is_deleted());
    assert_eq!(found.email, "a@example.org");
    assert_eq!(dir.len(), 1);
}

#[test]
fn soft_delete_of_unknown_user_is_not_found() {
    let mut dir = UserDirectory::new();
    assert_eq!(
        dir.soft_delete(UserId { value: 0 }, Timestamp::from_unix_nanos(1)),
        Err(AuthError::NotFound)
    );
    assert_eq!(dir.len(), 0);
}

#[test]
fn upsert_keeps_a_deleted_user_deleted() {
    let mut dir = UserDirectory::new();
    let c = claims("a@example.org", "sub-a", "a.png");
    let user = dir.upsert(&c).unwrap();
    dir.soft_delete(user.id, Timestamp::from_unix_nanos(5)).unwrap();
    let again = dir.upsert(&c).unwrap();
    assert_eq!(again.id, user.id);
    assert!(again.is_deleted());
}

#[test]
fn a_deletion_in_the_future_already_counts() {
    let mut dir = UserDirectory::new();
    let user = dir.upsert(&claims("a@example.org", "sub-a", "a.png")).unwrap();
    dir.soft_delete(user.id, Timestamp::from_unix_nanos(i128::MAX - 1)).unwrap();
    assert!(dir.find_by_id(user.id).unwrap().is_deleted());
}

#[test]
fn duplicate_is_equal_to_the_record() {
    let mut dir = UserDirectory::new();
    let user = dir.upsert(&claims("a@example.org", "sub-a", "a.png")).unwrap();
    assert_eq!(user.duplicate(), user);
}
