//! Decimal and hexadecimal rendering of unsigned integers as strings.
//!
//! These renderers back every textual number the crate emits: placeholder
//! strings for out-of-range table indices, percent strings for query
//! responses, timestamps, and percent-encoded bytes.

use vstd::prelude::*;
use vstd::string::StringExecFns;

verus! {

/// The decimal digit character for a value below ten.
pub open spec fn dec_digit(d: int) -> char {
    if d == 0 {
        '0'
    } else if d == 1 {
        '1'
    } else if d == 2 {
        '2'
    } else if d == 3 {
        '3'
    } else if d == 4 {
        '4'
    } else if d == 5 {
        '5'
    } else if d == 6 {
        '6'
    } else if d == 7 {
        '7'
    } else if d == 8 {
        '8'
    } else {
        '9'
    }
}

/// The usual decimal rendering of a nonnegative integer: no leading zeros,
/// and zero itself renders as "0".
pub open spec fn dec_str(n: int) -> Seq<char>
    decreases n,
{
    if n < 10 {
        seq![dec_digit(n)]
    } else {
        dec_str(n / 10).push(dec_digit(n % 10))
    }
}

/// One-character string slice for a decimal digit.
fn dec_digit_str(d: u64) -> (s: &'static str)
    requires
        d < 10,
    ensures
        s@ == seq![dec_digit(d as int)],
{
    proof {
        reveal_strlit("0");
        reveal_strlit("1");
        reveal_strlit("2");
        reveal_strlit("3");
        reveal_strlit("4");
        reveal_strlit("5");
        reveal_strlit("6");
        reveal_strlit("7");
        reveal_strlit("8");
        reveal_strlit("9");
    }
    if d == 0 {
        "0"
    } else if d == 1 {
        "1"
    } else if d == 2 {
        "2"
    } else if d == 3 {
        "3"
    } else if d == 4 {
        "4"
    } else if d == 5 {
        "5"
    } else if d == 6 {
        "6"
    } else if d == 7 {
        "7"
    } else if d == 8 {
        "8"
    } else {
        "9"
    }
}

/// Renders `n` in decimal, matching `dec_str`.
pub fn dec_u64(n: u64) -> (s: String)
    ensures
        s@ == dec_str(n as int),
    decreases n,
{
    if n < 10 {
        String::from_str(dec_digit_str(n))
    } else {
        let mut s = dec_u64(n / 10);
        s.append(dec_digit_str(n % 10));
        proof {
            assert(s@ =~= dec_str(n as int));
        }
        s
    }
}

/// Two-digit zero-padded decimal rendering of a value below one hundred.
pub open spec fn pad2_str(n: int) -> Seq<char> {
    seq![dec_digit(n / 10), dec_digit(n % 10)]
}

/// Renders `n` as exactly two zero-padded decimal digits.
pub fn pad2_u64(n: u64) -> (s: String)
    requires
        n < 100,
    ensures
        s@ == pad2_str(n as int),
{
    let mut s = String::from_str(dec_digit_str(n / 10));
    s.append(dec_digit_str(n % 10));
    proof {
        assert(s@ =~= pad2_str(n as int));
    }
    s
}

/// Four-digit zero-padded decimal rendering of a value below ten thousand.
pub open spec fn pad4_str(n: int) -> Seq<char> {
    seq![
        dec_digit(n / 1000),
        dec_digit((n / 100) % 10),
        dec_digit((n / 10) % 10),
        dec_digit(n % 10),
    ]
}

/// Renders `n` as exactly four zero-padded decimal digits.
pub fn pad4_u64(n: u64) -> (s: String)
    requires
        n < 10000,
    ensures
        s@ == pad4_str(n as int),
{
    let mut s = String::from_str(dec_digit_str(n / 1000));
    s.append(dec_digit_str((n / 100) % 10));
    s.append(dec_digit_str((n / 10) % 10));
    s.append(dec_digit_str(n % 10));
    proof {
        assert(s@ =~= pad4_str(n as int));
    }
    s
}

/// The uppercase hexadecimal digit character for a value below sixteen.
pub open spec fn hex_digit_upper(d: int) -> char {
    if d < 10 {
        dec_digit(d)
    } else if d == 10 {
        'A'
    } else if d == 11 {
        'B'
    } else if d == 12 {
        'C'
    } else if d == 13 {
        'D'
    } else if d == 14 {
        'E'
    } else {
        'F'
    }
}

/// One-character string slice for an uppercase hexadecimal digit.
fn hex_digit_upper_str(d: u64) -> (s: &'static str)
    requires
        d < 16,
    ensures
        s@ == seq![hex_digit_upper(d as int)],
{
    if d < 10 {
        dec_digit_str(d)
    } else {
        proof {
            reveal_strlit("A");
            reveal_strlit("B");
            reveal_strlit("C");
            reveal_strlit("D");
            reveal_strlit("E");
            reveal_strlit("F");
        }
        if d == 10 {
            "A"
        } else if d == 11 {
            "B"
        } else if d == 12 {
            "C"
        } else if d == 13 {
            "D"
        } else if d == 14 {
            "E"
        } else {
            "F"
        }
    }
}

/// Two uppercase hexadecimal digits of a byte.
pub open spec fn byte_hex_upper_str(b: int) -> Seq<char> {
    seq![hex_digit_upper(b / 16), hex_digit_upper(b % 16)]
}

/// Renders a byte as exactly two uppercase hexadecimal digits.
pub fn byte_hex_upper(b: u8) -> (s: String)
    ensures
        s@ == byte_hex_upper_str(b as int),
{
    let mut s = String::from_str(hex_digit_upper_str((b / 16) as u64));
    s.append(hex_digit_upper_str((b % 16) as u64));
    proof {
        assert(s@ =~= byte_hex_upper_str(b as int));
    }
    s
}

} // verus!
