use session_core::clock::{
    has_lapsed, Timestamp, NEVER_NANOS, PREAUTH_WINDOW_NANOS, SESSION_WINDOW_NANOS,
};
use session_core::error::{AuthError, Signal};
use session_core::session::{accept, Policy};
use session_core::token::{Token, TokenId, UserId};
use session_core::token_store::TokenStore;

const SECOND: i128 = 1_000_000_000;
const MINUTE: i128 = 60 * SECOND;
const HOUR: i128 = 60 * MINUTE;
const DAY: i128 = 24 * HOUR;

fn at(nanos: i128) -> Timestamp {
    Timestamp::from_unix_nanos(nanos)
}

#[test]
fn windows_have_their_lengths() {
    assert_eq!(PREAUTH_WINDOW_NANOS, 10 * MINUTE);
    assert_eq!(SESSION_WINDOW_NANOS, 7 * DAY);
}

#[test]
fn lapsed_is_strict() {
    assert!(!has_lapsed(at(100), 50, at(149)));
    assert!(!has_lapsed(at(100), 50, at(150)));
    assert!(has_lapsed(at(100), 50, at(151)));
}

#[test]
fn lapsed_does_not_overflow() {
    assert!(!has_lapsed(at(i128::MAX - 1), PREAUTH_WINDOW_NANOS, at(i128::MAX)));
    assert!(!has_lapsed(at(i128::MAX), 1, at(i128::MAX)));
    assert!(has_lapsed(at(i128::MIN), -1, at(i128::MIN)));
    assert!(has_lapsed(at(i128::MIN), 0, at(i128::MIN + 1)));
}

#[test]
fn sentinel_is_the_greatest_instant() {
    assert_eq!(Timestamp::sentinel(), at(i128::MAX));
    assert_eq!(NEVER_NANOS, i128::MAX);
    assert!(Timestamp::sentinel().is_never());
    assert!(!at(0).is_never());
    assert!(!at(i128::MAX - 1).is_never());
}

#[test]
fn preauth_token_is_valid_for_ten_minutes_from_creation() {
    let t0 = 1_700_000_000 * SECOND;
    let mut store = TokenStore::new();
    let id = store.mint(1, at(t0)).unwrap();
    assert!(accept(&store, id, Policy::PreAuth, at(t0 + 9 * MINUTE + 59 * SECOND)).is_ok());
    assert!(accept(&store, id, Policy::PreAuth, at(t0 + 10 * MINUTE)).is_ok());
    assert_eq!(
        accept(&store, id, Policy::PreAuth, at(t0 + 10 * MINUTE + 1)),
        Err(AuthError::Expired)
    );
    assert_eq!(
        accept(&store, id, Policy::PreAuth, at(t0 + 10 * MINUTE + SECOND)),
        Err(AuthError::Expired)
    );
}

#[test]
fn session_token_is_valid_for_seven_days_from_last_use() {
    let t0 = 1_700_000_000 * SECOND;
    let mut store = TokenStore::new();
    let minted = store.mint(1, at(t0 - 30 * DAY)).unwrap();
    let id = store.rotate(minted, UserId { value: 1 }, 2, at(t0)).unwrap();
    assert!(accept(&store, id, Policy::Session, at(t0 + 6 * DAY + 23 * HOUR)).is_ok());
    assert!(accept(&store, id, Policy::Session, at(t0 + 7 * DAY)).is_ok());
    assert_eq!(
        accept(&store, id, Policy::Session, at(t0 + 7 * DAY + 1)),
        Err(AuthError::Expired)
    );
    assert_eq!(
        accept(&store, id, Policy::Session, at(t0 + 7 * DAY + HOUR)),
        Err(AuthError::Expired)
    );
}

#[test]
fn the_two_policies_count_from_different_instants() {
    let row = Token {
        id: TokenId { serial: 0, secret: 0 },
        user_id: Some(UserId { value: 1 }),
        created: at(0),
        updated: at(DAY),
    };
    assert!(Policy::PreAuth.expired(&row, at(DAY)));
    assert!(!Policy::Session.expired(&row, at(DAY)));
    assert!(!Policy::Session.expired(&row, at(8 * DAY)));
    assert!(Policy::Session.expired(&row, at(8 * DAY + 1)));
}

#[test]
fn accept_of_unknown_handle_is_not_found() {
    let store = TokenStore::new();
    let id = TokenId { serial: 0, secret: 0 };
    assert_eq!(accept(&store, id, Policy::PreAuth, at(0)), Err(AuthError::NotFound));
    assert_eq!(accept(&store, id, Policy::Session, at(0)), Err(AuthError::NotFound));
}

#[test]
fn accept_returns_the_row_and_changes_nothing() {
    let mut store = TokenStore::new();
    let id = store.mint(1, at(10)).unwrap();
    let row = accept(&store, id, Policy::PreAuth, at(11)).unwrap();
    assert_eq!(row, store.lookup(id).unwrap());
    assert_eq!(store.len(), 1);
}

#[test]
fn only_unavailable_is_an_internal_error() {
    assert_eq!(AuthError::NotFound.signal(), Signal::Unauthenticated);
    assert_eq!(AuthError::Expired.signal(), Signal::Unauthenticated);
    assert_eq!(AuthError::Conflict.signal(), Signal::Unauthenticated);
    assert_eq!(AuthError::Deleted.signal(), Signal::Unauthenticated);
    assert_eq!(AuthError::Unavailable.signal(), Signal::Internal);
}

#[test]
fn the_clock_shows_the_present() {
    let before = time::OffsetDateTime::now_utc().unix_timestamp_nanos();
    let shown = session_core::clock::now();
    let after = time::OffsetDateTime::now_utc().unix_timestamp_nanos();
    assert!(before <= shown.nanos && shown.nanos <= after);
    assert!(shown.nanos > 1_600_000_000 * SECOND);
    assert!(!shown.is_never());
}
