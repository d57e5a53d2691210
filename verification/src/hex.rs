//! Lowercase hexadecimal rendering of 64-bit numbers, and its inverse.
//!
//! Every number in the snapshot format, and every half of an identity,
//! is written as exactly sixteen lowercase hex digits, so parsing never
//! needs a terminator.

use vstd::prelude::*;

verus! {

/// The lowercase hex digit for a nibble value.
#[verifier::opaque]
pub open spec fn hex_digit_char(d: u64) -> char
    recommends
        d < 16,
{
    if d == 0 {
        '0'
    } else if d == 1 {
        '1'
    } else if d == 2 {
        '2'
    } else if d == 3 {
        '3'
    } else if d == 4 {
        '4'
    } else if d == 5 {
        '5'
    } else if d == 6 {
        '6'
    } else if d == 7 {
        '7'
    } else if d == 8 {
        '8'
    } else if d == 9 {
        '9'
    } else if d == 10 {
        'a'
    } else if d == 11 {
        'b'
    } else if d == 12 {
        'c'
    } else if d == 13 {
        'd'
    } else if d == 14 {
        'e'
    } else {
        'f'
    }
}

/// Whether a character is a lowercase hex digit.
pub open spec fn is_hex_char(c: char) -> bool {
    c == '0' || c == '1' || c == '2' || c == '3' || c == '4' || c == '5' || c == '6' || c == '7'
        || c == '8' || c == '9' || c == 'a' || c == 'b' || c == 'c' || c == 'd' || c == 'e' || c
        == 'f'
}

/// The nibble value of a lowercase hex digit (zero on anything else).
#[verifier::opaque]
pub open spec fn hex_char_val(c: char) -> u64
    recommends
        is_hex_char(c),
{
    if c == '0' {
        0
    } else if c == '1' {
        1
    } else if c == '2' {
        2
    } else if c == '3' {
        3
    } else if c == '4' {
        4
    } else if c == '5' {
        5
    } else if c == '6' {
        6
    } else if c == '7' {
        7
    } else if c == '8' {
        8
    } else if c == '9' {
        9
    } else if c == 'a' {
        10
    } else if c == 'b' {
        11
    } else if c == 'c' {
        12
    } else if c == 'd' {
        13
    } else if c == 'e' {
        14
    } else if c == 'f' {
        15
    } else {
        0
    }
}

/// The sixteen lowercase hex digits of a 64-bit number, most significant first.
pub open spec fn hex16_chars(n: u64) -> Seq<char> {
    seq![
        hex_digit_char((n >> 60) & 0xf),
        hex_digit_char((n >> 56) & 0xf),
        hex_digit_char((n >> 52) & 0xf),
        hex_digit_char((n >> 48) & 0xf),
        hex_digit_char((n >> 44) & 0xf),
        hex_digit_char((n >> 40) & 0xf),
        hex_digit_char((n >> 36) & 0xf),
        hex_digit_char((n >> 32) & 0xf),
        hex_digit_char((n >> 28) & 0xf),
        hex_digit_char((n >> 24) & 0xf),
        hex_digit_char((n >> 20) & 0xf),
        hex_digit_char((n >> 16) & 0xf),
        hex_digit_char((n >> 12) & 0xf),
        hex_digit_char((n >> 8) & 0xf),
        hex_digit_char((n >> 4) & 0xf),
        hex_digit_char(n & 0xf),
    ]
}

/// The number whose hex digits a sixteen-character sequence spells.
pub open spec fn unhex16(s: Seq<char>) -> u64
    recommends
        s.len() == 16,
{
    (hex_char_val(s[0]) << 60) | (hex_char_val(s[1]) << 56) | (hex_char_val(s[2]) << 52) | (
    hex_char_val(s[3]) << 48) | (hex_char_val(s[4]) << 44) | (hex_char_val(s[5]) << 40) | (
    hex_char_val(s[6]) << 36) | (hex_char_val(s[7]) << 32) | (hex_char_val(s[8]) << 28) | (
    hex_char_val(s[9]) << 24) | (hex_char_val(s[10]) << 20) | (hex_char_val(s[11]) << 16) | (
    hex_char_val(s[12]) << 12) | (hex_char_val(s[13]) << 8) | (hex_char_val(s[14]) << 4)
        | hex_char_val(s[15])
}

pub proof fn lemma_nibble_lt(x: u64)
    ensures
        x & 0xf < 16,
{
    assert(x & 0xf < 16) by (bit_vector);
}

pub proof fn lemma_digit_roundtrip(d: u64)
    requires
        d < 16,
    ensures
        is_hex_char(hex_digit_char(d)),
        hex_char_val(hex_digit_char(d)) == d,
{
    reveal(hex_digit_char);
    reveal(hex_char_val);
}

proof fn lemma_nibble_digit(x: u64)
    ensures
        is_hex_char(hex_digit_char(x & 0xf)),
        hex_char_val(hex_digit_char(x & 0xf)) == x & 0xf,
{
    lemma_nibble_lt(x);
    lemma_digit_roundtrip(x & 0xf);
}

/// Reading back the sixteen hex digits of a number yields that number.
#[verifier::rlimit(100)]
pub proof fn lemma_hex16_roundtrip(n: u64)
    ensures
        hex16_chars(n).len() == 16,
        forall|i: int| 0 <= i < 16 ==> is_hex_char(#[trigger] hex16_chars(n)[i]),
        unhex16(hex16_chars(n)) == n,
{
    let s = hex16_chars(n);
    lemma_nibble_digit(n >> 60);
    lemma_nibble_digit(n >> 56);
    lemma_nibble_digit(n >> 52);
    lemma_nibble_digit(n >> 48);
    lemma_nibble_digit(n >> 44);
    lemma_nibble_digit(n >> 40);
    lemma_nibble_digit(n >> 36);
    lemma_nibble_digit(n >> 32);
    lemma_nibble_digit(n >> 28);
    lemma_nibble_digit(n >> 24);
    lemma_nibble_digit(n >> 20);
    lemma_nibble_digit(n >> 16);
    lemma_nibble_digit(n >> 12);
    lemma_nibble_digit(n >> 8);
    lemma_nibble_digit(n >> 4);
    lemma_nibble_digit(n);
    assert(hex_char_val(s[0]) == (n >> 60) & 0xf);
    assert(hex_char_val(s[1]) == (n >> 56) & 0xf);
    assert(hex_char_val(s[2]) == (n >> 52) & 0xf);
    assert(hex_char_val(s[3]) == (n >> 48) & 0xf);
    assert(hex_char_val(s[4]) == (n >> 44) & 0xf);
    assert(hex_char_val(s[5]) == (n >> 40) & 0xf);
    assert(hex_char_val(s[6]) == (n >> 36) & 0xf);
    assert(hex_char_val(s[7]) == (n >> 32) & 0xf);
    assert(hex_char_val(s[8]) == (n >> 28) & 0xf);
    assert(hex_char_val(s[9]) == (n >> 24) & 0xf);
    assert(hex_char_val(s[10]) == (n >> 20) & 0xf);
    assert(hex_char_val(s[11]) == (n >> 16) & 0xf);
    assert(hex_char_val(s[12]) == (n >> 12) & 0xf);
    assert(hex_char_val(s[13]) == (n >> 8) & 0xf);
    assert(hex_char_val(s[14]) == (n >> 4) & 0xf);
    assert(hex_char_val(s[15]) == n & 0xf);
    assert((((n >> 60) & 0xf) << 60) | (((n >> 56) & 0xf) << 56) | (((n >> 52) & 0xf) << 52) | (((n
        >> 48) & 0xf) << 48) | (((n >> 44) & 0xf) << 44) | (((n >> 40) & 0xf) << 40) | (((n >> 36)
        & 0xf) << 36) | (((n >> 32) & 0xf) << 32) | (((n >> 28) & 0xf) << 28) | (((n >> 24) & 0xf)
        << 24) | (((n >> 20) & 0xf) << 20) | (((n >> 16) & 0xf) << 16) | (((n >> 12) & 0xf) << 12)
        | (((n >> 8) & 0xf) << 8) | (((n >> 4) & 0xf) << 4) | (n & 0xf) == n) by (bit_vector);
}

/// Two numbers with the same hex digits are the same number.
pub proof fn lemma_hex16_injective(a: u64, b: u64)
    requires
        hex16_chars(a) == hex16_chars(b),
    ensures
        a == b,
{
    lemma_hex16_roundtrip(a);
    lemma_hex16_roundtrip(b);
}

fn hex_digit_str(d: u64) -> (r: &'static str)
    requires
        d < 16,
    ensures
        r@ == seq![hex_digit_char(d)],
{
    proof {
        reveal(hex_digit_char);
        reveal_strlit("0");
        reveal_strlit("1");
        reveal_strlit("2");
        reveal_strlit("3");
        reveal_strlit("4");
        reveal_strlit("5");
        reveal_strlit("6");
        reveal_strlit("7");
        reveal_strlit("8");
        reveal_strlit("9");
        reveal_strlit("a");
        reveal_strlit("b");
        reveal_strlit("c");
        reveal_strlit("d");
        reveal_strlit("e");
        reveal_strlit("f");
    }
    match d {
        0 => "0",
        1 => "1",
        2 => "2",
        3 => "3",
        4 => "4",
        5 => "5",
        6 => "6",
        7 => "7",
        8 => "8",
        9 => "9",
        10 => "a",
        11 => "b",
        12 => "c",
        13 => "d",
        14 => "e",
        _ => "f",
    }
}

#[verifier::rlimit(100)]
fn push_hex_high(out: &mut String, n: u64)
    ensures
        final(out)@ == old(out)@ + hex16_chars(n).take(8),
{
    proof {
        lemma_nibble_lt(n >> 60);
        lemma_nibble_lt(n >> 56);
        lemma_nibble_lt(n >> 52);
        lemma_nibble_lt(n >> 48);
        lemma_nibble_lt(n >> 44);
        lemma_nibble_lt(n >> 40);
        lemma_nibble_lt(n >> 36);
        lemma_nibble_lt(n >> 32);
    }
    out.append(hex_digit_str((n >> 60) & 0xf));
    out.append(hex_digit_str((n >> 56) & 0xf));
    out.append(hex_digit_str((n >> 52) & 0xf));
    out.append(hex_digit_str((n >> 48) & 0xf));
    out.append(hex_digit_str((n >> 44) & 0xf));
    out.append(hex_digit_str((n >> 40) & 0xf));
    out.append(hex_digit_str((n >> 36) & 0xf));
    out.append(hex_digit_str((n >> 32) & 0xf));
    assert(out@ =~= old(out)@ + hex16_chars(n).take(8));
}

#[verifier::rlimit(100)]
fn push_hex_low(out: &mut String, n: u64)
    ensures
        final(out)@ == old(out)@ + hex16_chars(n).skip(8),
{
    proof {
        lemma_nibble_lt(n >> 28);
        lemma_nibble_lt(n >> 24);
        lemma_nibble_lt(n >> 20);
        lemma_nibble_lt(n >> 16);
        lemma_nibble_lt(n >> 12);
        lemma_nibble_lt(n >> 8);
        lemma_nibble_lt(n >> 4);
        lemma_nibble_lt(n);
    }
    out.append(hex_digit_str((n >> 28) & 0xf));
    out.append(hex_digit_str((n >> 24) & 0xf));
    out.append(hex_digit_str((n >> 20) & 0xf));
    out.append(hex_digit_str((n >> 16) & 0xf));
    out.append(hex_digit_str((n >> 12) & 0xf));
    out.append(hex_digit_str((n >> 8) & 0xf));
    out.append(hex_digit_str((n >> 4) & 0xf));
    out.append(hex_digit_str(n & 0xf));
    assert(out@ =~= old(out)@ + hex16_chars(n).skip(8));
}

/// Appends the sixteen lowercase hex digits of `n` to `out`.
pub fn push_hex16(out: &mut String, n: u64)
    ensures
        final(out)@ == old(out)@ + hex16_chars(n),
{
    push_hex_high(out, n);
    push_hex_low(out, n);
    assert(out@ =~= old(out)@ + hex16_chars(n));
}

/// The sixteen lowercase hex digits of `n` as a fresh string.
pub fn hex16_string(n: u64) -> (r: String)
    ensures
        r@ == hex16_chars(n),
{
    let mut out = String::new();
    push_hex16(&mut out, n);
    assert(out@ =~= hex16_chars(n));
    out
}

fn hex_val_exec(c: char) -> (r: Option<u64>)
    ensures
        r is Some <==> is_hex_char(c),
        r matches Some(v) ==> v == hex_char_val(c) && v < 16,
{
    proof {
        reveal(hex_char_val);
    }
    match c {
        '0' => Some(0),
        '1' => Some(1),
        '2' => Some(2),
        '3' => Some(3),
        '4' => Some(4),
        '5' => Some(5),
        '6' => Some(6),
        '7' => Some(7),
        '8' => Some(8),
        '9' => Some(9),
        'a' => Some(10),
        'b' => Some(11),
        'c' => Some(12),
        'd' => Some(13),
        'e' => Some(14),
        'f' => Some(15),
        _ => None,
    }
}

/// The nibble value of a hex digit, as a total function.
fn hex_val16(c: char) -> (r: u64)
    ensures
        r == hex_char_val(c),
        r < 16,
{
    proof {
        reveal(hex_char_val);
    }
    match c {
        '0' => 0,
        '1' => 1,
        '2' => 2,
        '3' => 3,
        '4' => 4,
        '5' => 5,
        '6' => 6,
        '7' => 7,
        '8' => 8,
        '9' => 9,
        'a' => 10,
        'b' => 11,
        'c' => 12,
        'd' => 13,
        'e' => 14,
        'f' => 15,
        _ => 0,
    }
}

/// Reads sixteen hex digits at `pos`; on a region spelling a number, the
/// result is exactly that number.
#[verifier::rlimit(100)]
pub fn parse_hex16(s: &str, len: usize, pos: usize) -> (r: Option<(u64, usize)>)
    requires
        len == s@.len(),
    ensures
        r matches Some(vp) ==> vp.1 == pos + 16 && pos + 16 <= s@.len(),
        forall|n: u64|
            (pos + 16 <= s@.len() && s@.subrange(pos as int, pos as int + 16) == hex16_chars(n))
                ==> (r matches Some(vp) && vp.0 == n && vp.1 == pos + 16),
{
    if len < 16 || pos > len - 16 {
        return None;
    }
    let mut i: usize = 0;
    while i < 16
        invariant
            pos + 16 <= len,
            len == s@.len(),
            i <= 16,
        decreases 16 - i,
    {
        if hex_val_exec(s.get_char(pos + i)).is_none() {
            proof {
                let bad = s@[pos + i];
                assert forall|n: u64|
                    !(pos + 16 <= s@.len() && s@.subrange(pos as int, pos as int + 16)
                        == hex16_chars(n)) by {
                    if pos + 16 <= s@.len() && s@.subrange(pos as int, pos as int + 16)
                        == hex16_chars(n) {
                        lemma_hex16_roundtrip(n);
                        assert(s@.subrange(pos as int, pos as int + 16)[i as int] == bad);
                        assert(is_hex_char(bad));
                    }
                }
            }
            return None;
        }
        i = i + 1;
    }
    let v0 = hex_val16(s.get_char(pos));
    let v1 = hex_val16(s.get_char(pos + 1));
    let v2 = hex_val16(s.get_char(pos + 2));
    let v3 = hex_val16(s.get_char(pos + 3));
    let v4 = hex_val16(s.get_char(pos + 4));
    let v5 = hex_val16(s.get_char(pos + 5));
    let v6 = hex_val16(s.get_char(pos + 6));
    let v7 = hex_val16(s.get_char(pos + 7));
    let v8 = hex_val16(s.get_char(pos + 8));
    let v9 = hex_val16(s.get_char(pos + 9));
    let v10 = hex_val16(s.get_char(pos + 10));
    let v11 = hex_val16(s.get_char(pos + 11));
    let v12 = hex_val16(s.get_char(pos + 12));
    let v13 = hex_val16(s.get_char(pos + 13));
    let v14 = hex_val16(s.get_char(pos + 14));
    let v15 = hex_val16(s.get_char(pos + 15));
    let value: u64 = (v0 << 60) | (v1 << 56) | (v2 << 52) | (v3 << 48) | (v4 << 44) | (v5 << 40) | (
    v6 << 36) | (v7 << 32) | (v8 << 28) | (v9 << 24) | (v10 << 20) | (v11 << 16) | (v12 << 12) | (
    v13 << 8) | (v14 << 4) | v15;
    proof {
        assert forall|n: u64|
            (pos + 16 <= s@.len() && s@.subrange(pos as int, pos as int + 16) == hex16_chars(
                n,
            )) implies value == n by {
            lemma_hex16_roundtrip(n);
            assert forall|j: int| 0 <= j < 16 implies s@[pos + j] == hex16_chars(n)[j] by {
                assert(s@.subrange(pos as int, pos as int + 16)[j] == s@[pos + j]);
            }
            assert(value == unhex16(hex16_chars(n)));
        }
    }
    Some((value, pos + 16))
}

} // verus!
