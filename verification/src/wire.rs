//! Token handles as text: thirty-two lower-case hexadecimal digits, the
//! serial in the first sixteen and the secret in the last sixteen.

use vstd::prelude::*;
use vstd::string::*;
use crate::token::TokenId;

verus! {

/// The number of digits of each half of a handle.
pub const GROUP_DIGITS: usize = 16;

/// The number of digits of a handle.
pub const HANDLE_DIGITS: usize = 32;

/// The value of a hexadecimal digit; `None` for any other character,
/// upper-case letters included.
pub open spec fn digit_of(c: char) -> Option<u8> {
    if c == '0' {
        Some(0u8)
    } else if c == '1' {
        Some(1u8)
    } else if c == '2' {
        Some(2u8)
    } else if c == '3' {
        Some(3u8)
    } else if c == '4' {
        Some(4u8)
    } else if c == '5' {
        Some(5u8)
    } else if c == '6' {
        Some(6u8)
    } else if c == '7' {
        Some(7u8)
    } else if c == '8' {
        Some(8u8)
    } else if c == '9' {
        Some(9u8)
    } else if c == 'a' {
        Some(10u8)
    } else if c == 'b' {
        Some(11u8)
    } else if c == 'c' {
        Some(12u8)
    } else if c == 'd' {
        Some(13u8)
    } else if c == 'e' {
        Some(14u8)
    } else if c == 'f' {
        Some(15u8)
    } else {
        None
    }
}

/// The digit that stands for `d`, for `d` below sixteen.
pub open spec fn char_of(d: nat) -> char {
    if d == 0 {
        '0'
    } else if d == 1 {
        '1'
    } else if d == 2 {
        '2'
    } else if d == 3 {
        '3'
    } else if d == 4 {
        '4'
    } else if d == 5 {
        '5'
    } else if d == 6 {
        '6'
    } else if d == 7 {
        '7'
    } else if d == 8 {
        '8'
    } else if d == 9 {
        '9'
    } else if d == 10 {
        'a'
    } else if d == 11 {
        'b'
    } else if d == 12 {
        'c'
    } else if d == 13 {
        'd'
    } else if d == 14 {
        'e'
    } else {
        'f'
    }
}

/// Whether every character is a hexadecimal digit.
pub open spec fn is_hex(s: Seq<char>) -> bool {
    forall|i: int| 0 <= i < s.len() ==> digit_of(#[trigger] s[i]) is Some
}

/// The number that a run of digits stands for, most significant first.
pub open spec fn hex_value(s: Seq<char>) -> nat
    decreases s.len(),
{
    if s.len() == 0 {
        0
    } else {
        16 * hex_value(s.drop_last()) + match digit_of(s.last()) {
            Some(d) => d as nat,
            None => 0,
        }
    }
}

/// The last `width` digits of `v`, most significant first.
pub open spec fn hex_text(v: nat, width: nat) -> Seq<char>
    decreases width,
{
    if width == 0 {
        Seq::empty()
    } else {
        hex_text(v / 16, (width - 1) as nat).push(char_of(v % 16))
    }
}

/// Sixteen to the power `n`.
pub open spec fn cap(n: nat) -> nat
    decreases n,
{
    if n == 0 {
        1
    } else {
        16 * cap((n - 1) as nat)
    }
}

/// The handle that a text stands for, if it is one.
pub open spec fn parse_spec(s: Seq<char>) -> Option<TokenId> {
    if s.len() == HANDLE_DIGITS && is_hex(s) {
        Some(
            TokenId {
                serial: hex_value(s.subrange(0, GROUP_DIGITS as int)) as u64,
                secret: hex_value(s.subrange(GROUP_DIGITS as int, HANDLE_DIGITS as int)) as u64,
            },
        )
    } else {
        None
    }
}

/// The text of a handle.
pub open spec fn text_spec(id: TokenId) -> Seq<char> {
    hex_text(id.serial as nat, GROUP_DIGITS as nat) + hex_text(
        id.secret as nat,
        GROUP_DIGITS as nat,
    )
}

/// A digit and its value determine each other.
pub proof fn lemma_digits(c: char, d: nat)
    ensures
        d < 16 ==> digit_of(char_of(d)) == Some(d as u8),
        digit_of(c) matches Some(v) ==> v < 16 && char_of(v as nat) == c,
{
}

/// Sixteen digits count up to two to the power sixty-four, and fewer
/// digits count less far.
pub proof fn lemma_cap(n: nat)
    requires
        n <= 16,
    ensures
        1 <= cap(n) <= 0x1_0000_0000_0000_0000,
        n < 16 ==> 16 * cap(n) <= 0x1_0000_0000_0000_0000,
        n == 16 ==> cap(n) == 0x1_0000_0000_0000_0000,
    decreases 16 - n,
{
    if n == 16 {
        reveal_with_fuel(cap, 17);
    } else {
        lemma_cap(n + 1);
        assert(cap(n + 1) == 16 * cap(n));
        lemma_cap_positive(n);
    }
}

proof fn lemma_cap_positive(n: nat)
    ensures
        1 <= cap(n),
    decreases n,
{
    if n > 0 {
        lemma_cap_positive((n - 1) as nat);
    }
}

/// A run of `n` digits stands for a number below sixteen to the `n`.
pub proof fn lemma_hex_value_bound(s: Seq<char>)
    ensures
        hex_value(s) < cap(s.len()),
    decreases s.len(),
{
    if s.len() > 0 {
        lemma_hex_value_bound(s.drop_last());
        if let Some(d) = digit_of(s.last()) {
            lemma_digits(s.last(), 0);
        }
    }
}

/// Writing a number in `width` digits gives `width` digits.
pub proof fn lemma_hex_text_shape(v: nat, width: nat)
    ensures
        hex_text(v, width).len() == width,
        is_hex(hex_text(v, width)),
    decreases width,
{
    if width > 0 {
        lemma_hex_text_shape(v / 16, (width - 1) as nat);
        lemma_digits('0', v % 16);
        let text = hex_text(v, width);
        let init = hex_text(v / 16, (width - 1) as nat);
        assert forall|i: int| 0 <= i < text.len() implies digit_of(#[trigger] text[i]) is Some by {
            if i < init.len() {
                assert(text[i] == init[i]);
            }
        }
    }
}

/// Reading back what was written gives the number, if it fits the width.
pub proof fn lemma_value_of_text(v: nat, width: nat)
    requires
        v < cap(width),
    ensures
        hex_value(hex_text(v, width)) == v,
    decreases width,
{
    if width > 0 {
        let init = hex_text(v / 16, (width - 1) as nat);
        lemma_value_of_text(v / 16, (width - 1) as nat);
        lemma_digits('0', v % 16);
        assert(hex_text(v, width).drop_last() =~= init);
    }
}

/// Writing what was read gives the digits back.
pub proof fn lemma_text_of_value(s: Seq<char>)
    requires
        is_hex(s),
    ensures
        hex_text(hex_value(s), s.len()) == s,
    decreases s.len(),
{
    if s.len() > 0 {
        let init = s.drop_last();
        assert forall|i: int| 0 <= i < init.len() implies digit_of(#[trigger] init[i]) is Some by {
            assert(init[i] == s[i]);
        }
        lemma_text_of_value(init);
        assert(digit_of(s[s.len() - 1]) is Some);
        lemma_digits(s.last(), 0);
        assert(hex_text(hex_value(s), s.len()) =~= s);
    } else {
        assert(hex_text(hex_value(s), s.len()) =~= s);
    }
}

/// Every handle is read back from its own text.
pub proof fn lemma_parse_text(id: TokenId)
    ensures
        parse_spec(text_spec(id)) == Some(id),
{
    let serial = hex_text(id.serial as nat, GROUP_DIGITS as nat);
    let secret = hex_text(id.secret as nat, GROUP_DIGITS as nat);
    let text = text_spec(id);
    lemma_hex_text_shape(id.serial as nat, GROUP_DIGITS as nat);
    lemma_hex_text_shape(id.secret as nat, GROUP_DIGITS as nat);
    lemma_cap(16);
    lemma_value_of_text(id.serial as nat, GROUP_DIGITS as nat);
    lemma_value_of_text(id.secret as nat, GROUP_DIGITS as nat);
    assert(text.subrange(0, GROUP_DIGITS as int) =~= serial);
    assert(text.subrange(GROUP_DIGITS as int, HANDLE_DIGITS as int) =~= secret);
    assert forall|i: int| 0 <= i < text.len() implies digit_of(#[trigger] text[i]) is Some by {
        if i < 16 {
            assert(text[i] == serial[i]);
        } else {
            assert(text[i] == secret[i - 16]);
        }
    }
}

/// Only its own text is read as a handle: two texts that are read as the
/// same handle are the same text.
pub proof fn lemma_text_parse(s: Seq<char>)
    ensures
        parse_spec(s) matches Some(id) ==> text_spec(id) == s,
{
    if let Some(id) = parse_spec(s) {
        let serial = s.subrange(0, GROUP_DIGITS as int);
        let secret = s.subrange(GROUP_DIGITS as int, HANDLE_DIGITS as int);
        assert forall|i: int| 0 <= i < serial.len() implies digit_of(#[trigger] serial[i])
            is Some by {
            assert(serial[i] == s[i]);
        }
        assert forall|i: int| 0 <= i < secret.len() implies digit_of(#[trigger] secret[i])
            is Some by {
            assert(secret[i] == s[i + 16]);
        }
        lemma_text_of_value(serial);
        lemma_text_of_value(secret);
        lemma_hex_value_bound(serial);
        lemma_hex_value_bound(secret);
        lemma_cap(16);
        assert(text_spec(id) =~= s);
    }
}

fn digit(c: char) -> (r: Option<u8>)
    ensures
        r == digit_of(c),
{
    if c == '0' {
        Some(0u8)
    } else if c == '1' {
        Some(1u8)
    } else if c == '2' {
        Some(2u8)
    } else if c == '3' {
        Some(3u8)
    } else if c == '4' {
        Some(4u8)
    } else if c == '5' {
        Some(5u8)
    } else if c == '6' {
        Some(6u8)
    } else if c == '7' {
        Some(7u8)
    } else if c == '8' {
        Some(8u8)
    } else if c == '9' {
        Some(9u8)
    } else if c == 'a' {
        Some(10u8)
    } else if c == 'b' {
        Some(11u8)
    } else if c == 'c' {
        Some(12u8)
    } else if c == 'd' {
        Some(13u8)
    } else if c == 'e' {
        Some(14u8)
    } else if c == 'f' {
        Some(15u8)
    } else {
        None
    }
}

fn digit_str(d: u8) -> (r: &'static str)
    requires
        d < 16,
    ensures
        r@ == seq![char_of(d as nat)],
{
    if d == 0 {
        let s = "0";
        proof {
            reveal_strlit("0");
            assert(s@ =~= seq!['0']);
        }
        s
    } else if d == 1 {
        let s = "1";
        proof {
            reveal_strlit("1");
            assert(s@ =~= seq!['1']);
        }
        s
    } else if d == 2 {
        let s = "2";
        proof {
            reveal_strlit("2");
            assert(s@ =~= seq!['2']);
        }
        s
    } else if d == 3 {
        let s = "3";
        proof {
            reveal_strlit("3");
            assert(s@ =~= seq!['3']);
        }
        s
    } else if d == 4 {
        let s = "4";
        proof {
            reveal_strlit("4");
            assert(s@ =~= seq!['4']);
        }
        s
    } else if d == 5 {
        let s = "5";
        proof {
            reveal_strlit("5");
            assert(s@ =~= seq!['5']);
        }
        s
    } else if d == 6 {
        let s = "6";
        proof {
            reveal_strlit("6");
            assert(s@ =~= seq!['6']);
        }
        s
    } else if d == 7 {
        let s = "7";
        proof {
            reveal_strlit("7");
            assert(s@ =~= seq!['7']);
        }
        s
    } else if d == 8 {
        let s = "8";
        proof {
            reveal_strlit("8");
            assert(s@ =~= seq!['8']);
        }
        s
    } else if d == 9 {
        let s = "9";
        proof {
            reveal_strlit("9");
            assert(s@ =~= seq!['9']);
        }
        s
    } else if d == 10 {
        let s = "a";
        proof {
            reveal_strlit("a");
            assert(s@ =~= seq!['a']);
        }
        s
    } else if d == 11 {
        let s = "b";
        proof {
            reveal_strlit("b");
            assert(s@ =~= seq!['b']);
        }
        s
    } else if d == 12 {
        let s = "c";
        proof {
            reveal_strlit("c");
            assert(s@ =~= seq!['c']);
        }
        s
    } else if d == 13 {
        let s = "d";
        proof {
            reveal_strlit("d");
            assert(s@ =~= seq!['d']);
        }
        s
    } else if d == 14 {
        let s = "e";
        proof {
            reveal_strlit("e");
            assert(s@ =~= seq!['e']);
        }
        s
    } else {
        let s = "f";
        proof {
            reveal_strlit("f");
            assert(s@ =~= seq!['f']);
        }
        s
    }
}

/// Reads sixteen digits of `text`, starting at `from`.
fn parse_group(text: &str, from: usize) -> (r: Option<u64>)
    requires
        from + GROUP_DIGITS <= text@.len(),
        from <= HANDLE_DIGITS,
    ensures
        match r {
            Some(v) => is_hex(text@.subrange(from as int, from + GROUP_DIGITS))
                && v == hex_value(text@.subrange(from as int, from + GROUP_DIGITS)),
            None => !is_hex(text@.subrange(from as int, from + GROUP_DIGITS)),
        },
{
    let ghost group = text@.subrange(from as int, from + GROUP_DIGITS);
    let mut value: u64 = 0;
    let mut i: usize = 0;
    while i < GROUP_DIGITS
        invariant
            i <= GROUP_DIGITS,
            from + GROUP_DIGITS <= text@.len(),
            from <= HANDLE_DIGITS,
            group == text@.subrange(from as int, from + GROUP_DIGITS),
            is_hex(group.take(i as int)),
            value == hex_value(group.take(i as int)),
        decreases GROUP_DIGITS - i,
    {
        let c = text.get_char(from + i);
        assert(c == group[i as int]);
        match digit(c) {
            None => {
                return None;
            },
            Some(d) => {
                proof {
                    let done = group.take(i as int);
                    let more = group.take(i + 1);
                    assert(more.drop_last() =~= done);
                    assert(more.last() == c);
                    lemma_hex_value_bound(done);
                    lemma_cap(i as nat);
                    lemma_digits(c, 0);
                    assert forall|k: int| 0 <= k < more.len() implies digit_of(#[trigger] more[k])
                        is Some by {
                        if k < done.len() {
                            assert(more[k] == done[k]);
                        }
                    }
                }
                value = value * 16 + d as u64;
            },
        }
        i = i + 1;
    }
    proof {
        assert(group.take(GROUP_DIGITS as int) =~= group);
    }
    Some(value)
}

/// Reads a handle from its text. Anything but thirty-two lower-case
/// hexadecimal digits is no handle.
pub fn parse_token(text: &str) -> (r: Option<TokenId>)
    ensures
        r == parse_spec(text@),
{
    if text.unicode_len() != HANDLE_DIGITS {
        return None;
    }
    let ghost head = text@.subrange(0, GROUP_DIGITS as int);
    let ghost tail = text@.subrange(GROUP_DIGITS as int, HANDLE_DIGITS as int);
    let serial = match parse_group(text, 0) {
        Some(v) => v,
        None => {
            proof {
                if is_hex(text@) {
                    assert forall|i: int| 0 <= i < head.len() implies digit_of(#[trigger] head[i])
                        is Some by {
                        assert(head[i] == text@[i]);
                    }
                }
            }
            return None;
        },
    };
    let secret = match parse_group(text, GROUP_DIGITS) {
        Some(v) => v,
        None => {
            proof {
                if is_hex(text@) {
                    assert forall|i: int| 0 <= i < tail.len() implies digit_of(#[trigger] tail[i])
                        is Some by {
                        assert(tail[i] == text@[i + 16]);
                    }
                }
            }
            return None;
        },
    };
    proof {
        assert forall|i: int| 0 <= i < text@.len() implies digit_of(#[trigger] text@[i])
            is Some by {
            if i < 16 {
                assert(text@[i] == head[i]);
            } else {
                assert(text@[i] == tail[i - 16]);
            }
        }
    }
    Some(TokenId { serial, secret })
}

/// Writes sixteen digits for `v`.
fn group_text(v: u64) -> (s: String)
    ensures
        s@ == hex_text(v as nat, GROUP_DIGITS as nat),
{
    let mut out = String::from_str("");
    let mut rest: u64 = v;
    let mut done: usize = 0;
    proof {
        reveal_strlit("");
        assert(hex_text(v as nat, GROUP_DIGITS as nat) =~= hex_text(
            rest as nat,
            GROUP_DIGITS as nat,
        ) + out@);
    }
    while done < GROUP_DIGITS
        invariant
            done <= GROUP_DIGITS,
            hex_text(v as nat, GROUP_DIGITS as nat) == hex_text(
                rest as nat,
                (GROUP_DIGITS - done) as nat,
            ) + out@,
        decreases GROUP_DIGITS - done,
    {
        let d = (rest % 16) as u8;
        let ghost tail = out@;
        out = String::from_str(digit_str(d)).concat(out.as_str());
        proof {
            let width = (GROUP_DIGITS - done) as nat;
            let init = hex_text(rest as nat / 16, (width - 1) as nat);
            assert(hex_text(rest as nat, width) == init.push(char_of(rest as nat % 16)));
            assert(init.push(char_of(rest as nat % 16)) + tail =~= init + (seq![
                char_of(d as nat),
            ] + tail));
        }
        rest = rest / 16;
        done = done + 1;
    }
    proof {
        assert(hex_text(rest as nat, 0) + out@ =~= out@);
    }
    out
}

/// Writes a handle as text.
pub fn token_text(id: TokenId) -> (s: String)
    ensures
        s@ == text_spec(id),
{
    let tail = group_text(id.secret);
    group_text(id.serial).concat(tail.as_str())
}

} // verus!
