use session_core::token::TokenId;
use session_core::wire::{parse_token, token_text};

#[test]
fn text_is_thirty_two_lower_case_digits() {
    assert_eq!(
        token_text(TokenId { serial: 1, secret: 255 }),
        "000000000000000100000000000000ff"
    );
    assert_eq!(token_text(TokenId { serial: 0, secret: 0 }), "0".repeat(32));
    assert_eq!(token_text(TokenId { serial: u64::MAX, secret: u64::MAX }), "f".repeat(32));
    assert_eq!(
        token_text(TokenId { serial: 0x0123_4567_89ab_cdef, secret: 0xfedc_ba98_7654_3210 }),
        "0123456789abcdeffedcba9876543210"
    );
}

#[test]
fn parse_reads_serial_then_secret() {
    assert_eq!(
        parse_token("000000000000000100000000000000ff"),
        Some(TokenId { serial: 1, secret: 255 })
    );
    assert_eq!(
        parse_token("0123456789abcdeffedcba9876543210"),
        Some(TokenId { serial: 0x0123_4567_89ab_cdef, secret: 0xfedc_ba98_7654_3210 })
    );
    assert_eq!(
        parse_token(&"f".repeat(32)),
        Some(TokenId { serial: u64::MAX, secret: u64::MAX })
    );
}

#[test]
fn parse_rejects_what_is_no_handle() {
    assert_eq!(parse_token(""), None);
    assert_eq!(parse_token("ff"), None);
    assert_eq!(parse_token(&"0".repeat(31)), None);
    assert_eq!(parse_token(&"0".repeat(33)), None);
    assert_eq!(parse_token("0123456789ABCDEFfedcba9876543210"), None);
    assert_eq!(parse_token("0123456789abcdeffedcba987654321g"), None);
    assert_eq!(parse_token("g123456789abcdeffedcba9876543210"), None);
    assert_eq!(parse_token("0123456789abcdef fedcba987654321"), None);
    assert_eq!(parse_token("0123456789abcdef-edcba9876543210"), None);
    assert_eq!(parse_token("0123456789abcdeffedcba987654321\u{e9}"), None);
    assert_eq!(parse_token(&"\u{1f600}".repeat(32)), None);
}

#[test]
fn text_and_parse_undo_each_other() {
    let ids = [
        TokenId { serial: 0, secret: 0 },
        TokenId { serial: 1, secret: 0 },
        TokenId { serial: 0, secret: 1 },
        TokenId { serial: 16, secret: 15 },
        TokenId { serial: 0x8000_0000_0000_0000, secret: 0x7fff_ffff_ffff_ffff },
        TokenId { serial: u64::MAX, secret: 0 },
    ];
    for id in ids {
        let text = token_text(id);
        assert_eq!(text.chars().count(), 32);
        assert_eq!(parse_token(&text), Some(id));
    }
}
