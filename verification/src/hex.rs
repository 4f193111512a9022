//! ASCII hexadecimal digits, and the 4-digit length prefix of a pkt-line
//! frame: specification functions, executable parsing and printing, and the
//! round-trip lemma connecting them.

use vstd::prelude::*;

verus! {

/// True of the ASCII bytes that count as hexadecimal digits
/// (`0`-`9`, `a`-`f`, `A`-`F`).
pub open spec fn is_hex_digit(b: u8) -> bool {
    (48 <= b && b <= 57) || (97 <= b && b <= 102) || (65 <= b && b <= 70)
}

/// Numeric value of one hexadecimal digit byte.
pub open spec fn hex_digit_value(b: u8) -> nat {
    if 48 <= b && b <= 57 {
        (b - 48) as nat
    } else if 97 <= b && b <= 102 {
        (b - 87) as nat
    } else if 65 <= b && b <= 70 {
        (b - 55) as nat
    } else {
        0
    }
}

/// The lowercase digit byte for a value below 16.
pub open spec fn hex_digit_of(v: nat) -> u8 {
    if v < 10 {
        (48 + v) as u8
    } else {
        (87 + v) as u8
    }
}

/// True of a sequence of exactly four hexadecimal digit bytes.
pub open spec fn is_hex4(s: Seq<u8>) -> bool {
    &&& s.len() == 4
    &&& is_hex_digit(s[0])
    &&& is_hex_digit(s[1])
    &&& is_hex_digit(s[2])
    &&& is_hex_digit(s[3])
}

/// The number written by four hexadecimal digit bytes, most significant first.
pub open spec fn hex4_value(s: Seq<u8>) -> nat
    recommends
        is_hex4(s),
{
    ((hex_digit_value(s[0]) * 16 + hex_digit_value(s[1])) * 16 + hex_digit_value(s[2])) * 16
        + hex_digit_value(s[3])
}

/// The four lowercase hexadecimal digit bytes of a number below 0x10000,
/// most significant first.
pub open spec fn hex4_of(n: nat) -> Seq<u8>
    recommends
        n <= 0xFFFF,
{
    seq![
        hex_digit_of(n / 4096 % 16),
        hex_digit_of(n / 256 % 16),
        hex_digit_of(n / 16 % 16),
        hex_digit_of(n % 16),
    ]
}

/// A single digit survives printing and re-reading.
pub proof fn lemma_hex_digit_round_trip(v: nat)
    requires
        v < 16,
    ensures
        is_hex_digit(hex_digit_of(v)),
        hex_digit_value(hex_digit_of(v)) == v,
{
}

/// Printing a 16-bit number as four hexadecimal digits and reading them back
/// yields the number again.
pub proof fn lemma_hex4_round_trip(n: nat)
    requires
        n <= 0xFFFF,
    ensures
        is_hex4(hex4_of(n)),
        hex4_value(hex4_of(n)) == n,
{
    let a = n / 4096 % 16;
    let b = n / 256 % 16;
    let c = n / 16 % 16;
    let d = n % 16;
    lemma_hex_digit_round_trip(a);
    lemma_hex_digit_round_trip(b);
    lemma_hex_digit_round_trip(c);
    lemma_hex_digit_round_trip(d);
    assert(((a * 16 + b) * 16 + c) * 16 + d == n) by (nonlinear_arith)
        requires
            n <= 0xFFFF,
            a == n / 4096 % 16,
            b == n / 256 % 16,
            c == n / 16 % 16,
            d == n % 16,
    ;
}

/// Four digits can never write a number beyond 16 bits (and on non-digit
/// bytes the digit values read as zero).
pub proof fn lemma_hex4_value_bound(s: Seq<u8>)
    ensures
        hex4_value(s) <= 0xFFFF,
{
}

/// Parses one hexadecimal digit byte; `None` exactly on non-digit bytes.
pub fn parse_hex_digit(b: u8) -> (r: Option<u8>)
    ensures
        match r {
            Some(v) => is_hex_digit(b) && v == hex_digit_value(b) && v < 16,
            None => !is_hex_digit(b),
        },
{
    if 48 <= b && b <= 57 {
        Some(b - 48)
    } else if 97 <= b && b <= 102 {
        Some(b - 87)
    } else if 65 <= b && b <= 70 {
        Some(b - 55)
    } else {
        None
    }
}

/// Prints a value below 16 as its lowercase hexadecimal digit byte.
pub fn hex_digit_byte(v: u8) -> (r: u8)
    requires
        v < 16,
    ensures
        r == hex_digit_of(v as nat),
{
    if v < 10 {
        48 + v
    } else {
        87 + v
    }
}

/// Reads the first four bytes of `s` as a hexadecimal number;
/// `None` exactly when one of them is not a digit.
pub fn parse_hex4(s: &[u8]) -> (r: Option<u16>)
    requires
        s@.len() >= 4,
    ensures
        match r {
            Some(n) => is_hex4(s@.take(4)) && n as nat == hex4_value(s@.take(4)) && n <= 0xFFFF,
            None => !is_hex4(s@.take(4)),
        },
{
    let d0 = parse_hex_digit(s[0]);
    let d1 = parse_hex_digit(s[1]);
    let d2 = parse_hex_digit(s[2]);
    let d3 = parse_hex_digit(s[3]);
    match (d0, d1, d2, d3) {
        (Some(v0), Some(v1), Some(v2), Some(v3)) => {
            let n: u16 = ((v0 as u16 * 16 + v1 as u16) * 16 + v2 as u16) * 16 + v3 as u16;
            assert(s@.take(4)[0] == s@[0] && s@.take(4)[1] == s@[1] && s@.take(4)[2] == s@[2]
                && s@.take(4)[3] == s@[3]);
            Some(n)
        },
        _ => None,
    }
}

/// Appends the four lowercase hexadecimal digit bytes of `n` to `buf`.
pub fn push_hex4(buf: &mut Vec<u8>, n: u16)
    ensures
        final(buf)@ == old(buf)@ + hex4_of(n as nat),
{
    let v0 = (n / 4096 % 16) as u8;
    let v1 = (n / 256 % 16) as u8;
    let v2 = (n / 16 % 16) as u8;
    let v3 = (n % 16) as u8;
    buf.push(hex_digit_byte(v0));
    buf.push(hex_digit_byte(v1));
    buf.push(hex_digit_byte(v2));
    buf.push(hex_digit_byte(v3));
    assert(buf@ =~= old(buf)@ + hex4_of(n as nat));
}

} // verus!
