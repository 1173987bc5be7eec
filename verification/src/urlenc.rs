//! Percent-encoding of query parameters.
//!
//! Unreserved characters pass through; every other character is written as
//! the uppercase-hex percent-encoding of its UTF-8 bytes.

use vstd::prelude::*;
use vstd::string::StringExecFns;
use vstd::string::StrSliceExecFns;
use vstd::utf8::{char_is_scalar, encode_scalar};
use crate::numfmt::{byte_hex_upper, byte_hex_upper_str};

verus! {

/// A character that passes through unencoded.
pub open spec fn is_unreserved(c: char) -> bool {
    ('a' <= c && c <= 'z') || ('A' <= c && c <= 'Z') || ('0' <= c && c <= '9') || c == '-' || c
        == '_' || c == '.' || c == '~'
}

/// Percent-encoding of a byte string: '%' and two uppercase hex digits per
/// byte.
pub open spec fn pct_bytes(bs: Seq<u8>) -> Seq<char>
    decreases bs.len(),
{
    if bs.len() == 0 {
        seq![]
    } else {
        pct_bytes(bs.drop_last()) + seq!['%'] + byte_hex_upper_str(bs.last() as int)
    }
}

/// Encoding of one character: itself when unreserved, else the
/// percent-encoding of its UTF-8 bytes.
pub open spec fn pct_char(c: char) -> Seq<char> {
    if is_unreserved(c) {
        seq![c]
    } else {
        pct_bytes(encode_scalar(c as u32))
    }
}

/// Percent-encoding of a string, character by character.
pub open spec fn pct_encoded(s: Seq<char>) -> Seq<char>
    decreases s.len(),
{
    if s.len() == 0 {
        seq![]
    } else {
        pct_encoded(s.drop_last()) + pct_char(s.last())
    }
}

/// The UTF-8 bytes of one character.
fn utf8_bytes_of(c: char) -> (v: Vec<u8>)
    ensures
        v@ == encode_scalar(c as u32),
        1 <= v@.len() <= 4,
{
    proof {
        broadcast use char_is_scalar;

    }
    let cp = c as u32;
    let mut v: Vec<u8> = Vec::new();
    if cp <= 0x7F {
        v.push((cp & 0x7F) as u8);
    } else if cp <= 0x7FF {
        v.push(0xC0 | ((cp >> 6) & 0x1F) as u8);
        v.push(0x80 | (cp & 0x3F) as u8);
    } else if cp <= 0xFFFF {
        v.push(0xE0 | ((cp >> 12) & 0x0F) as u8);
        v.push(0x80 | ((cp >> 6) & 0x3F) as u8);
        v.push(0x80 | (cp & 0x3F) as u8);
    } else {
        v.push(0xF0 | ((cp >> 18) & 0x7) as u8);
        v.push(0x80 | ((cp >> 12) & 0x3F) as u8);
        v.push(0x80 | ((cp >> 6) & 0x3F) as u8);
        v.push(0x80 | (cp & 0x3F) as u8);
    }
    proof {
        assert(v@ =~= encode_scalar(c as u32));
    }
    v
}

/// Test for characters that pass through unencoded.
fn is_unreserved_exec(c: char) -> (r: bool)
    ensures
        r == is_unreserved(c),
{
    ('a' <= c && c <= 'z') || ('A' <= c && c <= 'Z') || ('0' <= c && c <= '9') || c == '-' || c
        == '_' || c == '.' || c == '~'
}

/// Percent-encodes a query parameter: unreserved characters pass through,
/// everything else becomes the uppercase-hex encoding of its UTF-8 bytes.
pub fn encode(s: &str) -> (r: String)
    ensures
        r@ == pct_encoded(s@),
{
    let n = s.unicode_len();
    let mut out = String::new();
    let mut i: usize = 0;
    while i < n
        invariant
            0 <= i <= n,
            n == s@.len(),
            out@ == pct_encoded(s@.subrange(0, i as int)),
        decreases n - i,
    {
        let ghost pre = s@.subrange(0, i as int);
        let c = s.get_char(i);
        if is_unreserved_exec(c) {
            let piece = s.substring_char(i, i + 1);
            out.append(piece);
            proof {
                assert(piece@ =~= seq![c]);
            }
        } else {
            let bytes = utf8_bytes_of(c);
            let mut j: usize = 0;
            while j < bytes.len()
                invariant
                    0 <= j <= bytes@.len(),
                    bytes@ == encode_scalar(c as u32),
                    !is_unreserved(c),
                    out@ == pct_encoded(pre) + pct_bytes(bytes@.subrange(0, j as int)),
                    pre == s@.subrange(0, i as int),
                    0 <= i < s@.len(),
                    c == s@[i as int],
                decreases bytes@.len() - j,
            {
                let ghost bpre = bytes@.subrange(0, j as int);
                out.append("%");
                let hx = byte_hex_upper(bytes[j]);
                out.append(hx.as_str());
                proof {
                    reveal_strlit("%");
                    assert("%"@ =~= seq!['%']);
                    assert(bytes@.subrange(0, j as int + 1).drop_last() =~= bpre);
                    assert(bytes@.subrange(0, j as int + 1).last() == bytes@[j as int]);
                    assert(out@ =~= pct_encoded(pre) + pct_bytes(
                        bytes@.subrange(0, j as int + 1),
                    ));
                }
                j = j + 1;
            }
            proof {
                assert(bytes@.subrange(0, bytes@.len() as int) =~= bytes@);
            }
        }
        i = i + 1;
        proof {
            assert(s@.subrange(0, i as int).drop_last() =~= pre);
            assert(s@.subrange(0, i as int).last() == c);
            assert(out@ =~= pct_encoded(s@.subrange(0, i as int)));
        }
    }
    proof {
        assert(s@.subrange(0, n as int) =~= s@);
    }
    out
}

} // verus!
