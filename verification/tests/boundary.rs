use session_core::boundary::{auth, auth_reply, create_user, create_user_reply};
use session_core::clock::Timestamp;
use session_core::error::Signal;
use session_core::service::Core;
use session_core::token::TokenId;
use session_core::user::Claims;
use session_core::wire::{parse_token, token_text};

const SECOND: i128 = 1_000_000_000;
const MINUTE: i128 = 60 * SECOND;
const DAY: i128 = 86_400 * SECOND;
const T0: i128 = 1_700_000_000 * SECOND;

fn at(nanos: i128) -> Timestamp {
    Timestamp::from_unix_nanos(nanos)
}

fn claims() -> Claims {
    Claims {
        email: "a@example.org".to_string(),
        sub: "sub".to_string(),
        avatar: "a.png".to_string(),
    }
}

fn wall_clock_nanos() -> i128 {
    time::OffsetDateTime::now_utc().unix_timestamp_nanos()
}

#[test]
fn a_request_without_a_token_is_unauthenticated() {
    let mut core = Core::new();
    let _ = core.tokens.mint(1, at(T0)).unwrap();
    assert_eq!(create_user_reply(&mut core, None, &claims(), 2, at(T0)), Err(Signal::Unauthenticated));
    assert_eq!(auth_reply(&mut core, None, Some(true), 2, at(T0)), Err(Signal::Unauthenticated));
    assert_eq!(core.users.len(), 0);
    assert_eq!(core.tokens.len(), 1);
}

#[test]
fn a_token_that_cannot_be_read_is_unauthenticated() {
    let mut core = Core::new();
    let _ = core.tokens.mint(1, at(T0)).unwrap();
    for text in ["", "bearer", "0000000000000000000000000000000G"] {
        assert_eq!(
            create_user_reply(&mut core, Some(text), &claims(), 2, at(T0)),
            Err(Signal::Unauthenticated)
        );
        assert_eq!(
            auth_reply(&mut core, Some(text), Some(true), 2, at(T0)),
            Err(Signal::Unauthenticated)
        );
    }
    assert_eq!(core.users.len(), 0);
}

#[test]
fn replies_carry_the_new_handle_as_text() {
    let mut core = Core::new();
    let minted = core.tokens.mint(1, at(T0)).unwrap();
    let text = token_text(minted);
    assert_eq!(text, "00000000000000000000000000000001");
    let bound = create_user_reply(&mut core, Some(&text), &claims(), 0xab, at(T0 + MINUTE)).unwrap();
    assert_eq!(bound, "000000000000000100000000000000ab");
    let answer = auth_reply(&mut core, Some(&bound), Some(true), 0xcd, at(T0 + DAY)).unwrap();
    assert_eq!(answer.token, "000000000000000200000000000000cd");
    assert_eq!(answer.user.email, "a@example.org");
    assert!(answer.user.subscription_active);
    assert_eq!(
        auth_reply(&mut core, Some(&bound), Some(true), 0xcd, at(T0 + DAY)),
        Err(Signal::Unauthenticated)
    );
}

#[test]
fn unknown_and_expired_tokens_give_the_same_signal() {
    let mut core = Core::new();
    let minted = core.tokens.mint(1, at(T0)).unwrap();
    let unknown = token_text(TokenId { serial: 7, secret: 7 });
    let expired = create_user_reply(
        &mut core,
        Some(&token_text(minted)),
        &claims(),
        2,
        at(T0 + 10 * MINUTE + 1),
    );
    let missing = create_user_reply(&mut core, Some(&unknown), &claims(), 2, at(T0));
    assert_eq!(expired, Err(Signal::Unauthenticated));
    assert_eq!(missing, Err(Signal::Unauthenticated));
}

#[test]
fn a_billing_outage_is_an_internal_error() {
    let mut core = Core::new();
    let minted = core.tokens.mint(1, at(T0)).unwrap();
    let bound = create_user_reply(&mut core, Some(&token_text(minted)), &claims(), 2, at(T0)).unwrap();
    assert_eq!(auth_reply(&mut core, Some(&bound), None, 3, at(T0)), Err(Signal::Internal));
}

#[test]
fn create_user_reads_the_wall_clock() {
    let mut core = Core::new();
    let long_ago = core.tokens.mint(1, at(0)).unwrap();
    let just_now = core.tokens.mint(2, at(wall_clock_nanos())).unwrap();
    let nine_minutes_ago = core.tokens.mint(3, at(wall_clock_nanos() - 9 * MINUTE)).unwrap();
    let eleven_minutes_ago = core.tokens.mint(4, at(wall_clock_nanos() - 11 * MINUTE)).unwrap();
    assert_eq!(
        create_user(&mut core, Some(&token_text(long_ago)), &claims(), 5),
        Err(Signal::Unauthenticated)
    );
    assert_eq!(
        create_user(&mut core, Some(&token_text(eleven_minutes_ago)), &claims(), 5),
        Err(Signal::Unauthenticated)
    );
    let before = wall_clock_nanos();
    let text = create_user(&mut core, Some(&token_text(just_now)), &claims(), 5).unwrap();
    let after = wall_clock_nanos();
    let row = core.tokens.lookup(parse_token(&text).unwrap()).unwrap();
    assert!(before <= row.updated.nanos && row.updated.nanos <= after);
    assert!(create_user(&mut core, Some(&token_text(nine_minutes_ago)), &claims(), 6).is_ok());
}

#[test]
fn auth_reads_the_wall_clock() {
    let mut core = Core::new();
    let now = wall_clock_nanos();
    let old = core.tokens.mint(1, at(now - 8 * DAY)).unwrap();
    let old = create_user_reply(&mut core, Some(&token_text(old)), &claims(), 2, at(now - 8 * DAY))
        .unwrap();
    let recent = core.tokens.mint(3, at(now - 6 * DAY)).unwrap();
    let recent =
        create_user_reply(&mut core, Some(&token_text(recent)), &claims(), 4, at(now - 6 * DAY))
            .unwrap();
    assert_eq!(auth(&mut core, Some(&old), Some(true), 5), Err(Signal::Unauthenticated));
    let before = wall_clock_nanos();
    let answer = auth(&mut core, Some(&recent), Some(true), 6).unwrap();
    let after = wall_clock_nanos();
    let row = core.tokens.lookup(parse_token(&answer.token).unwrap()).unwrap();
    assert!(before <= row.updated.nanos && row.updated.nanos <= after);
    assert_eq!(row.created, at(now - 6 * DAY));
    assert_eq!(auth(&mut core, Some(&recent), Some(true), 7), Err(Signal::Unauthenticated));
}

#[test]
fn a_call_without_a_token_never_reaches_the_store() {
    let mut core = Core::new();
    assert_eq!(create_user(&mut core, None, &claims(), 1), Err(Signal::Unauthenticated));
    assert_eq!(auth(&mut core, None, Some(true), 1), Err(Signal::Unauthenticated));
    assert_eq!(core.tokens.len(), 0);
    assert_eq!(core.users.len(), 0);
}
