//! Server-side decisions: port selection, the secret URL token, and
//! transparent decompression of the profile bytes.

use vstd::prelude::*;
use vstd::string::StringExecFns;
use vstd::string::StrSliceExecFns;
use rand::RngCore;
use crate::model::AnalysisError;
use crate::session::{digit_val, is_digit_char};

verus! {

/// Which port(s) the server should try to bind.
pub enum PortSelection {
    /// Exactly this port.
    OnePort(u16),
    /// Each port of `[start, end)` in turn.
    TryMultiple(u16, u16),
}

/// The text with every trailing '+' removed.
pub open spec fn strip_plus(s: Seq<char>) -> Seq<char>
    decreases s.len(),
{
    if s.len() > 0 && s.last() == '+' {
        strip_plus(s.drop_last())
    } else {
        s
    }
}

/// A valid port spelling: one or more digits with a value within `u16`.
pub open spec fn port_digits(s: Seq<char>) -> bool {
    s.len() >= 1 && (forall|i: int| 0 <= i < s.len() ==> is_digit_char(#[trigger] s[i]))
        && 0 <= digit_val(s) <= 65535
}

impl PortSelection {
    /// Parses a port argument: a plain port number selects one port; a
    /// trailing '+' asks for the hundred ports from that number (capped at
    /// the largest port).
    pub fn try_from_str(s: &str) -> (r: Result<PortSelection, String>)
        ensures
            ({
                let has_plus = s@.len() > 0 && s@.last() == '+';
                if has_plus {
                    match r {
                        Ok(p) => p matches PortSelection::TryMultiple(a, b) && port_digits(
                            strip_plus(s@),
                        ) && a == digit_val(strip_plus(s@)) && b == (
                        if digit_val(strip_plus(s@)) + 100 <= 65535 {
                            digit_val(strip_plus(s@)) + 100
                        } else {
                            65535int
                        }),
                        Err(_) => !port_digits(strip_plus(s@)),
                    }
                } else {
                    match r {
                        Ok(p) => p matches PortSelection::OnePort(a) && port_digits(s@) && a
                            == digit_val(s@),
                        Err(_) => !port_digits(s@),
                    }
                }
            }),
    {
        let n = s.unicode_len();
        let has_plus = n > 0 && s.get_char(n - 1) == '+';
        if has_plus {
            // Strip all trailing '+' characters.
            proof {
                assert(s@.subrange(0, n as int) =~= s@);
            }
            let mut e: usize = n;
            while e > 0 && s.get_char(e - 1) == '+'
                invariant
                    0 <= e <= n,
                    n == s@.len(),
                    strip_plus(s@) == strip_plus(s@.subrange(0, e as int)),
                decreases e,
            {
                proof {
                    assert(s@.subrange(0, e as int).drop_last() =~= s@.subrange(0, e as int - 1));
                }
                e = e - 1;
            }
            proof {
                if e > 0 {
                    assert(s@.subrange(0, e as int).last() == s@[e as int - 1]);
                }
                assert(strip_plus(s@.subrange(0, e as int)) == s@.subrange(0, e as int));
            }
            match parse_port(s, e) {
                Some(start) => {
                    let end: u16 = if start <= 65435 {
                        start + 100
                    } else {
                        65535
                    };
                    Ok(PortSelection::TryMultiple(start, end))
                },
                None => Err(String::from_str("invalid port number")),
            }
        } else {
            proof {
                assert(strip_plus(s@) == s@);
                assert(s@.subrange(0, n as int) =~= s@);
            }
            match parse_port(s, n) {
                Some(p) => Ok(PortSelection::OnePort(p)),
                None => Err(String::from_str("invalid port number")),
            }
        }
    }
}

/// Parses `s[0 .. e]` as a port number; succeeds exactly on one or more
/// digits with a value within `u16`.
fn parse_port(s: &str, e: usize) -> (r: Option<u16>)
    requires
        e <= s@.len(),
    ensures
        match r {
            Some(v) => port_digits(s@.subrange(0, e as int)) && v == digit_val(
                s@.subrange(0, e as int),
            ),
            None => !port_digits(s@.subrange(0, e as int)),
        },
{
    if e == 0 {
        return None;
    }
    let mut v: u32 = 0;
    let mut i: usize = 0;
    while i < e
        invariant
            0 <= i <= e <= s@.len(),
            forall|k: int| 0 <= k < i ==> is_digit_char(#[trigger] s@[k]),
            v == digit_val(s@.subrange(0, i as int)),
            v <= 65535,
        decreases e - i,
    {
        let c = s.get_char(i);
        if !('0' <= c && c <= '9') {
            proof {
                assert(s@.subrange(0, e as int)[i as int] == s@[i as int]);
            }
            return None;
        }
        let d = (c as u32) - ('0' as u32);
        proof {
            assert(s@.subrange(0, i as int + 1).drop_last() =~= s@.subrange(0, i as int));
            assert(s@.subrange(0, i as int + 1).last() == s@[i as int]);
            assert(d <= 9);
        }
        let nv = v * 10 + d;
        if nv > 65535 {
            proof {
                // Were the whole run a valid port, its value would bound
                // this prefix; contradiction.
                if port_digits(s@.subrange(0, e as int)) {
                    lemma_digit_prefix_le(s@.subrange(0, e as int), i as int + 1);
                    assert(s@.subrange(0, e as int).subrange(0, i as int + 1) =~= s@.subrange(
                        0,
                        i as int + 1,
                    ));
                    assert(false);
                }
            }
            return None;
        }
        v = nv;
        i = i + 1;
    }
    proof {
        assert(s@.subrange(0, e as int) =~= s@.subrange(0, i as int));
    }
    Some(v as u16)
}

/// A digit string's value is at least the value of any prefix.
proof fn lemma_digit_prefix_le(s: Seq<char>, k: int)
    requires
        0 <= k <= s.len(),
        forall|i: int| 0 <= i < s.len() ==> is_digit_char(#[trigger] s[i]),
    ensures
        digit_val(s.subrange(0, k)) <= digit_val(s),
        digit_val(s) >= 0,
    decreases s.len() - k,
{
    if k == s.len() {
        assert(s.subrange(0, k) =~= s);
        lemma_digit_nonneg(s);
    } else {
        lemma_digit_prefix_le(s, k + 1);
        let p1 = s.subrange(0, k + 1);
        let p0 = s.subrange(0, k);
        assert(p1.drop_last() =~= p0);
        assert(p1.last() == s[k]);
        lemma_digit_nonneg(p0);
        assert(digit_val(p1) == digit_val(p0) * 10 + digit_of(s[k]));
        assert(digit_val(p0) * 10 >= digit_val(p0)) by (nonlinear_arith)
            requires
                digit_val(p0) >= 0,
        ;
        assert(digit_of(s[k]) >= 0);
    }
}

/// A digit string's value is nonnegative.
proof fn lemma_digit_nonneg(s: Seq<char>)
    requires
        forall|i: int| 0 <= i < s.len() ==> is_digit_char(#[trigger] s[i]),
    ensures
        digit_val(s) >= 0,
    decreases s.len(),
{
    if s.len() > 0 {
        lemma_digit_nonneg(s.drop_last());
        assert(digit_val(s.drop_last()) * 10 >= 0) by (nonlinear_arith)
            requires
                digit_val(s.drop_last()) >= 0,
        ;
    }
}

/// Numeric value of a digit character (mirror of the session module's form,
/// for local proofs).
pub open spec fn digit_of(c: char) -> int {
    c as int - '0' as int
}

/// Relies on rand's thread-local generator to fill a 24-byte buffer; the
/// bytes are arbitrary.
#[verifier::external_body]
fn random_bytes_24() -> (r: Vec<u8>)
    ensures
        r@.len() == 24,
{
    let mut bytes = [0u8; 24];
    rand::rng().fill_bytes(&mut bytes);
    bytes.to_vec()
}

/// The nix-flavoured base32 text of a byte string; a function of the bytes
/// alone.
pub uninterp spec fn nix_base32_of(bytes: Seq<u8>) -> Seq<char>;

/// A character of the nix base32 alphabet: the decimal digits and the
/// lowercase letters without e, o, u and t.
pub open spec fn is_nix_base32_char(c: char) -> bool {
    ||| ('0' <= c && c <= '9')
    ||| ('a' <= c && c <= 'z' && c != 'e' && c != 'o' && c != 'u' && c != 't')
}

/// Relies on nix_base32::to_nix_base32: a deterministic base32 rendering
/// whose length is one character per five bits, rounded up, drawn from the
/// crate's 32-letter alphabet.
#[verifier::external_body]
fn bytes_to_nix_base32(bytes: &Vec<u8>) -> (r: String)
    requires
        bytes@.len() >= 1,
    ensures
        r@ == nix_base32_of(bytes@),
        r@.len() == (bytes@.len() * 8 - 1) / 5 + 1,
        forall|i: int| 0 <= i < r@.len() ==> is_nix_base32_char(#[trigger] r@[i]),
{
    String::from(nix_base32::to_nix_base32(bytes.as_slice()))
}

/// Generates the secret URL token: the base32 text of 24 random bytes, 39
/// characters long.
pub fn generate_token() -> (r: String)
    ensures
        r@.len() == 39,
        forall|i: int| 0 <= i < r@.len() ==> is_nix_base32_char(#[trigger] r@[i]),
        exists|bytes: Seq<u8>| bytes.len() == 24 && r@ == #[trigger] nix_base32_of(bytes),
{
    let b = random_bytes_24();
    let t = bytes_to_nix_base32(&b);
    proof {
        assert((24int * 8 - 1) / 5 + 1 == 39);
        assert(b@.len() == 24 && t@ == nix_base32_of(b@));
    }
    t
}

/// What gunzip yields on a byte string: the decompressed bytes, or nothing
/// for a malformed stream; a function of the bytes alone.
pub uninterp spec fn gunzip_of(bytes: Seq<u8>) -> Option<Seq<u8>>;

/// Relies on flate2's GzDecoder over a byte slice: streams the gzip
/// decompression of the input; a malformed stream fails.
#[verifier::external_body]
fn gunzip(bytes: &Vec<u8>) -> (r: Option<Vec<u8>>)
    ensures
        match r {
            Some(v) => gunzip_of(bytes@) == Some(v@),
            None => gunzip_of(bytes@) is None,
        },
{
    let mut out: Vec<u8> = Vec::new();
    let mut dec = flate2::read::GzDecoder::new(&bytes[..]);
    match std::io::Read::read_to_end(&mut dec, &mut out) {
        Ok(_) => Some(out),
        Err(_) => None,
    }
}

/// The file name ends in ".gz".
pub open spec fn ends_in_gz(name: Seq<char>) -> bool {
    name.len() >= 3 && name.subrange(name.len() - 3, name.len() as int) == ".gz"@
}

/// Suffix test for gzip-named files.
fn has_gz_suffix(name: &str) -> (r: bool)
    ensures
        r == ends_in_gz(name@),
{
    let n = name.unicode_len();
    if n < 3 {
        return false;
    }
    proof {
        reveal_strlit(".gz");
    }
    let ok = name.get_char(n - 3) == '.' && name.get_char(n - 2) == 'g' && name.get_char(n - 1)
        == 'z';
    proof {
        if ok {
            assert(name@.subrange(n - 3, n as int) =~= ".gz"@);
        } else {
            if name@.subrange(n - 3, n as int) == ".gz"@ {
                assert(name@[n - 3] == ".gz"@[0]);
                assert(name@[n - 2] == ".gz"@[1]);
                assert(name@[n - 1] == ".gz"@[2]);
            }
        }
    }
    ok
}

/// Decompresses the raw profile bytes when the file name asks for it: a
/// ".gz" name is gunzipped (a malformed stream is an error), any other name
/// passes its bytes through.
pub fn decompress_profile_bytes(name: &str, bytes: Vec<u8>) -> (r: Result<Vec<u8>, AnalysisError>)
    ensures
        ({
            if ends_in_gz(name@) {
                match gunzip_of(bytes@) {
                    Some(v) => r matches Ok(o) && o@ == v,
                    None => r matches Err(e) && e is IoError,
                }
            } else {
                r matches Ok(o) && o@ == bytes@
            }
        }),
{
    if has_gz_suffix(name) {
        match gunzip(&bytes) {
            Some(v) => Ok(v),
            None => Err(AnalysisError::IoError(String::from_str("invalid gzip stream"))),
        }
    } else {
        Ok(bytes)
    }
}

} // verus!
