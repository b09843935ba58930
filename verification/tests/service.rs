use session_core::clock::Timestamp;
use session_core::error::AuthError;
use session_core::service::{auth_at, callback_at, create_user_at, login_at, Core};
use session_core::token::TokenId;
use session_core::user::Claims;

const SECOND: i128 = 1_000_000_000;
const MINUTE: i128 = 60 * SECOND;
const HOUR: i128 = 60 * MINUTE;
const DAY: i128 = 24 * HOUR;
const T0: i128 = 1_700_000_000 * SECOND;

fn at(nanos: i128) -> Timestamp {
    Timestamp::from_unix_nanos(nanos)
}

fn claims(email: &str) -> Claims {
    Claims { email: email.to_string(), sub: "sub".to_string(), avatar: "me.png".to_string() }
}

fn bound_session(core: &mut Core, when: i128) -> TokenId {
    let minted = core.tokens.mint(1, at(when)).unwrap();
    create_user_at(core, minted, &claims("a@example.org"), 2, at(when)).unwrap()
}

#[test]
fn login_callback_auth_and_replay() {
    let mut core = Core::new();
    let redirect =
        login_at(&mut core, Some("https://accounts.example/authorize".to_string()), 10, at(T0))
            .unwrap();
    assert_eq!(redirect.url, "https://accounts.example/authorize");
    let t0 = redirect.token;
    let row = core.tokens.lookup(t0).unwrap();
    assert_eq!(row.user_id, None);
    assert_eq!((row.created, row.updated), (at(T0), at(T0)));

    let t1 = callback_at(&mut core, t0, Some(claims("u@example.org")), 11, at(T0 + MINUTE))
        .unwrap();
    assert_ne!(t1, t0);
    assert_eq!(core.tokens.lookup(t0), Err(AuthError::NotFound));
    assert_eq!(core.users.len(), 1);
    let row = core.tokens.lookup(t1).unwrap();
    let user = core.users.find_by_id(row.user_id.unwrap()).unwrap();
    assert_eq!(user.email, "u@example.org");
    assert_eq!(row.created, at(T0));
    assert_eq!(row.updated, at(T0 + MINUTE));

    let answer = auth_at(&mut core, t1, Some(true), 12, at(T0 + 3 * DAY)).unwrap();
    let t2 = answer.token;
    assert_ne!(t2, t1);
    assert_eq!(answer.user.id, user.id);
    assert_eq!(answer.user.email, "u@example.org");
    assert_eq!(answer.user.sub, "sub");
    assert_eq!(answer.user.avatar, "me.png");
    assert!(answer.user.subscription_active);
    assert!(core.tokens.lookup(t2).is_ok());

    assert_eq!(
        auth_at(&mut core, t1, Some(true), 13, at(T0 + 3 * DAY)),
        Err(AuthError::NotFound)
    );
    assert_eq!(
        callback_at(&mut core, t0, Some(claims("u@example.org")), 14, at(T0 + MINUTE)),
        Err(AuthError::NotFound)
    );
    assert_eq!(core.tokens.len(), 1);
    assert_eq!(core.users.len(), 1);
}

#[test]
fn preauth_token_validates_at_9m59s_and_fails_at_10m01s() {
    let mut core = Core::new();
    let a = core.tokens.mint(1, at(T0)).unwrap();
    let b = core.tokens.mint(2, at(T0)).unwrap();
    assert_eq!(
        create_user_at(&mut core, a, &claims("a@example.org"), 3, at(T0 + 10 * MINUTE + SECOND)),
        Err(AuthError::Expired)
    );
    assert!(create_user_at(
        &mut core,
        b,
        &claims("a@example.org"),
        3,
        at(T0 + 9 * MINUTE + 59 * SECOND)
    )
    .is_ok());
}

#[test]
fn authenticated_token_validates_at_6d23h_and_fails_at_7d01h() {
    let mut core = Core::new();
    let a = bound_session(&mut core, T0);
    let b = bound_session(&mut core, T0);
    assert_eq!(
        auth_at(&mut core, a, Some(false), 3, at(T0 + 7 * DAY + HOUR)),
        Err(AuthError::Expired)
    );
    assert!(auth_at(&mut core, b, Some(false), 3, at(T0 + 6 * DAY + 23 * HOUR)).is_ok());
}

#[test]
fn each_validation_resets_the_sliding_window() {
    let mut core = Core::new();
    let mut token = bound_session(&mut core, T0);
    let mut now = T0;
    for _ in 0..5 {
        now += 6 * DAY + 23 * HOUR;
        let answer = auth_at(&mut core, token, Some(false), 4, at(now)).unwrap();
        token = answer.token;
        assert_eq!(core.tokens.lookup(token).unwrap().updated, at(now));
        assert_eq!(core.tokens.lookup(token).unwrap().created, at(T0));
    }
    assert_eq!(
        auth_at(&mut core, token, Some(false), 4, at(now + 7 * DAY + 1)),
        Err(AuthError::Expired)
    );
}

#[test]
fn an_expired_preauth_token_changes_nothing() {
    let mut core = Core::new();
    let id = core.tokens.mint(1, at(T0)).unwrap();
    let before = core.tokens.lookup(id).unwrap();
    assert_eq!(
        create_user_at(&mut core, id, &claims("a@example.org"), 2, at(T0 + 11 * MINUTE)),
        Err(AuthError::Expired)
    );
    assert_eq!(core.users.len(), 0);
    assert_eq!(core.tokens.lookup(id), Ok(before));
}

#[test]
fn an_unknown_token_creates_no_user() {
    let mut core = Core::new();
    let id = TokenId { serial: 0, secret: 0 };
    assert_eq!(
        create_user_at(&mut core, id, &claims("a@example.org"), 2, at(T0)),
        Err(AuthError::NotFound)
    );
    assert_eq!(core.users.len(), 0);
    assert_eq!(core.tokens.len(), 0);
}

#[test]
fn a_deleted_user_fails_validation_and_the_token_is_spent() {
    let mut core = Core::new();
    let token = bound_session(&mut core, T0);
    let owner = core.tokens.lookup(token).unwrap().user_id.unwrap();
    core.users.soft_delete(owner, at(T0 + HOUR)).unwrap();
    assert_eq!(
        auth_at(&mut core, token, Some(true), 5, at(T0 + 2 * HOUR)),
        Err(AuthError::Deleted)
    );
    assert_eq!(core.tokens.lookup(token), Err(AuthError::NotFound));
    assert_eq!(core.tokens.len(), 1);
    assert_eq!(
        auth_at(&mut core, token, Some(true), 6, at(T0 + 2 * HOUR)),
        Err(AuthError::NotFound)
    );
}

#[test]
fn a_billing_failure_is_unavailable_and_the_token_is_spent() {
    let mut core = Core::new();
    let token = bound_session(&mut core, T0);
    assert_eq!(auth_at(&mut core, token, None, 5, at(T0 + HOUR)), Err(AuthError::Unavailable));
    assert_eq!(core.tokens.lookup(token), Err(AuthError::NotFound));
    assert_eq!(core.tokens.len(), 1);
}

#[test]
fn an_unbound_token_is_no_session_and_stays_usable() {
    let mut core = Core::new();
    let id = core.tokens.mint(1, at(T0)).unwrap();
    assert_eq!(auth_at(&mut core, id, Some(true), 2, at(T0 + 1)), Err(AuthError::NotFound));
    assert!(core.tokens.lookup(id).is_ok());
    assert!(create_user_at(&mut core, id, &claims("a@example.org"), 3, at(T0 + 2)).is_ok());
}

#[test]
fn billing_answer_is_attached_to_the_response_only() {
    let mut core = Core::new();
    let token = bound_session(&mut core, T0);
    let answer = auth_at(&mut core, token, Some(true), 5, at(T0 + HOUR)).unwrap();
    assert!(answer.user.subscription_active);
    assert!(!core.users.find_by_id(answer.user.id).unwrap().subscription_active);
    let answer = auth_at(&mut core, answer.token, Some(false), 6, at(T0 + HOUR)).unwrap();
    assert!(!answer.user.subscription_active);
}

#[test]
fn create_user_twice_with_the_same_claims_is_one_user() {
    let mut core = Core::new();
    let a = core.tokens.mint(1, at(T0)).unwrap();
    let b = core.tokens.mint(2, at(T0)).unwrap();
    let ta = create_user_at(&mut core, a, &claims("a@example.org"), 3, at(T0)).unwrap();
    let tb = create_user_at(&mut core, b, &claims("a@example.org"), 4, at(T0)).unwrap();
    assert_eq!(core.users.len(), 1);
    assert_eq!(
        core.tokens.lookup(ta).unwrap().user_id,
        core.tokens.lookup(tb).unwrap().user_id
    );
}

#[test]
fn create_user_reclaims_stale_rows() {
    let mut core = Core::new();
    let stale = core.tokens.mint(1, at(T0 - 8 * DAY)).unwrap();
    let kept = core.tokens.mint(2, at(T0 - 6 * DAY)).unwrap();
    let id = core.tokens.mint(3, at(T0)).unwrap();
    let fresh = create_user_at(&mut core, id, &claims("a@example.org"), 4, at(T0)).unwrap();
    assert_eq!(core.tokens.lookup(stale), Err(AuthError::NotFound));
    assert!(core.tokens.lookup(kept).is_ok());
    assert!(core.tokens.lookup(fresh).is_ok());
    assert_eq!(core.tokens.len(), 2);
}

#[test]
fn auth_reclaims_nothing() {
    let mut core = Core::new();
    let stale = core.tokens.mint(1, at(T0 - 8 * DAY)).unwrap();
    let token = bound_session(&mut core, T0);
    let stale_again = core.tokens.mint(1, at(T0 - 8 * DAY)).unwrap();
    assert_eq!(core.tokens.lookup(stale), Err(AuthError::NotFound));
    assert!(auth_at(&mut core, token, Some(true), 5, at(T0 + HOUR)).is_ok());
    assert!(core.tokens.lookup(stale_again).is_ok());
}

#[test]
fn login_without_a_redirect_target_mints_nothing() {
    let mut core = Core::new();
    assert_eq!(login_at(&mut core, None, 1, at(T0)), Err(AuthError::Unavailable));
    assert_eq!(core.tokens.len(), 0);
}

#[test]
fn callback_without_claims_is_unavailable_and_keeps_the_token() {
    let mut core = Core::new();
    let id = core.tokens.mint(1, at(T0)).unwrap();
    assert_eq!(callback_at(&mut core, id, None, 2, at(T0 + 1)), Err(AuthError::Unavailable));
    assert!(core.tokens.lookup(id).is_ok());
    assert_eq!(core.users.len(), 0);
    assert!(callback_at(&mut core, id, Some(claims("a@example.org")), 2, at(T0 + 1)).is_ok());
}

#[test]
fn the_secret_goes_into_the_new_handle() {
    let mut core = Core::new();
    let id = core.tokens.mint(0xaaaa, at(T0)).unwrap();
    assert_eq!(id, TokenId { serial: 0, secret: 0xaaaa });
    let next = create_user_at(&mut core, id, &claims("a@example.org"), 0xbbbb, at(T0)).unwrap();
    assert_eq!(next, TokenId { serial: 1, secret: 0xbbbb });
    let answer = auth_at(&mut core, next, Some(true), 0xcccc, at(T0)).unwrap();
    assert_eq!(answer.token, TokenId { serial: 2, secret: 0xcccc });
}

#[test]
fn a_new_core_is_empty() {
    let core = Core::new();
    assert_eq!(core.tokens.len(), 0);
    assert_eq!(core.users.len(), 0);
    assert_eq!(
        core.tokens.lookup(TokenId { serial: 0, secret: 0 }),
        Err(AuthError::NotFound)
    );
}
