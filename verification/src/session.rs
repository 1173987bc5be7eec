//! The analysis server's session record and its on-disk JSON form.
//!
//! A session file lets an out-of-process client locate a running analysis
//! server.  The record renders to one canonical JSON object; the parser
//! accepts exactly that canonical form, so a written session read back
//! yields the same fields.

use vstd::prelude::*;
use vstd::string::StringExecFns;
use vstd::string::StrSliceExecFns;
use crate::numfmt::{dec_digit, dec_str, dec_u64, pad2_str, pad2_u64};

verus! {

/// Session information for server discovery.
pub struct Session {
    /// Server URL including the token prefix.
    pub server_url: String,
    /// Path of the profile file being served.
    pub profile_path: String,
    /// Process id of the server.
    pub pid: u32,
    /// ISO 8601 timestamp of session creation.
    pub started_at: String,
}

/// Whether a year has 366 days.
pub open spec fn is_leap_spec(year: int) -> bool {
    (year % 4 == 0 && year % 100 != 0) || year % 400 == 0
}

/// Gregorian leap-year rule.
pub fn is_leap_year(year: i64) -> (r: bool)
    ensures
        r == is_leap_spec(year as int),
{
    (year % 4 == 0 && year % 100 != 0) || (year % 400 == 0)
}

/// Days of a year.
pub open spec fn days_in_year(year: int) -> int {
    if is_leap_spec(year) {
        366
    } else {
        365
    }
}

/// Days of a month (0-based month index).
pub open spec fn month_len(year: int, m: int) -> int {
    if m == 1 {
        if is_leap_spec(year) {
            29
        } else {
            28
        }
    } else if m == 3 || m == 5 || m == 8 || m == 10 {
        30
    } else {
        31
    }
}

/// Resolves a day count since the epoch into a year and the remaining days.
pub open spec fn year_and_rem(days: int, year: int) -> (int, int)
    decreases days,
{
    if days < 0 || days < days_in_year(year) {
        (year, days)
    } else {
        year_and_rem(days - days_in_year(year), year + 1)
    }
}

/// Days of the first `m` months of a year.
pub open spec fn month_prefix_sum(year: int, m: int) -> int
    decreases m,
{
    if m <= 0 {
        0
    } else {
        month_prefix_sum(year, m - 1) + month_len(year, m - 1)
    }
}

/// The twelve months cover the whole year.
proof fn lemma_months_total(year: int)
    ensures
        month_prefix_sum(year, 12) == days_in_year(year),
{
    reveal_with_fuel(month_prefix_sum, 13);
}

/// Resolves remaining days of a year into a 1-based month and day.
pub open spec fn month_and_day(rem: int, year: int, m: int) -> (int, int)
    decreases 12 - m,
{
    if m >= 12 || rem < month_len(year, m) {
        (m + 1, rem + 1)
    } else {
        month_and_day(rem - month_len(year, m), year, m + 1)
    }
}

/// ISO 8601 rendering of a count of seconds since the Unix epoch, assuming
/// UTC.
pub open spec fn timestamp_str(secs: int) -> Seq<char> {
    let days = secs / 86400;
    let tod = secs % 86400;
    let yr = year_and_rem(days, 1970);
    let md = month_and_day(yr.1, yr.0, 0);
    dec_str(yr.0) + seq!['-'] + pad2_str(md.0) + seq!['-'] + pad2_str(md.1) + seq!['T'] + pad2_str(
        tod / 3600,
    ) + seq![':'] + pad2_str((tod % 3600) / 60) + seq![':'] + pad2_str(tod % 60) + seq!['Z']
}

/// Renders a timestamp from seconds since the Unix epoch.
pub fn format_timestamp(secs: u64) -> (s: String)
    ensures
        s@ == timestamp_str(secs as int),
{
    let days: u64 = secs / 86400;
    let tod: u64 = secs % 86400;
    let mut year: u64 = 1970;
    let mut rem: u64 = days;
    let mut dy: u64 = if is_leap_year(1970) {
        366
    } else {
        365
    };
    while rem >= dy
        invariant
            dy == days_in_year(year as int),
            1970 <= year,
            year - 1970 <= days - rem,
            rem <= days,
            days <= 0xFFFF_FFFF_FFFF_FFFFu64 / 86400,
            year_and_rem(days as int, 1970) == year_and_rem(rem as int, year as int),
        decreases rem,
    {
        rem = rem - dy;
        year = year + 1;
        proof {
            assert((year as i64) as int == year as int);
        }
        dy = if is_leap_year(year as i64) {
            366
        } else {
            365
        };
    }
    proof {
        assert(year_and_rem(rem as int, year as int) == (year as int, rem as int));
    }
    let ghost yearv = year as int;
    let mut month: u64 = 0;
    let mut mrem: u64 = rem;
    let mut ml: u64 = month_len_exec(year, 0);
    while month < 12 && mrem >= ml
        invariant
            yearv == year as int,
            year <= 0x7FFF_FFFF_FFFF_FFFFu64,
            month < 12 ==> ml == month_len(year as int, month as int),
            0 <= month <= 12,
            mrem <= rem,
            rem < days_in_year(year as int),
            mrem == rem - month_prefix_sum(year as int, month as int),
            month_and_day(rem as int, year as int, 0) == month_and_day(
                mrem as int,
                year as int,
                month as int,
            ),
        decreases 12 - month,
    {
        mrem = mrem - ml;
        month = month + 1;
        if month < 12 {
            ml = month_len_exec(year, month);
        }
    }
    proof {
        if month == 12 {
            lemma_months_total(year as int);
            assert(false);
        }
        assert(mrem < 100);
        assert(month_and_day(mrem as int, year as int, month as int) == (
            month as int + 1,
            mrem as int + 1,
        ));
    }
    let mut s = dec_u64(year);
    s.append("-");
    s.append(pad2_u64(month + 1).as_str());
    s.append("-");
    s.append(pad2_u64(mrem + 1).as_str());
    s.append("T");
    s.append(pad2_u64(tod / 3600).as_str());
    s.append(":");
    s.append(pad2_u64((tod % 3600) / 60).as_str());
    s.append(":");
    s.append(pad2_u64(tod % 60).as_str());
    s.append("Z");
    proof {
        reveal_strlit("-");
        reveal_strlit("T");
        reveal_strlit(":");
        reveal_strlit("Z");
        assert("-"@ =~= seq!['-']);
        assert("T"@ =~= seq!['T']);
        assert(":"@ =~= seq![':']);
        assert("Z"@ =~= seq!['Z']);
        assert(s@ =~= timestamp_str(secs as int));
    }
    s
}

/// Days of a month (0-based index), executable form.
fn month_len_exec(year: u64, m: u64) -> (r: u64)
    requires
        m < 12,
        year <= 0x7FFF_FFFF_FFFF_FFFFu64,
    ensures
        r == month_len(year as int, m as int),
        28 <= r <= 31,
{
    proof {
        assert((year as i64) as int == year as int);
    }
    if m == 1 {
        if is_leap_year(year as i64) {
            29
        } else {
            28
        }
    } else if m == 3 || m == 5 || m == 8 || m == 10 {
        30
    } else {
        31
    }
}

/// Relies on std's `SystemTime::now`: seconds elapsed since the Unix epoch
/// on this machine's clock.  Nothing is promised of the value: the clock may
/// read anything.
#[verifier::external_body]
fn now_unix_secs() -> u64 {
    std::time::SystemTime::now().duration_since(std::time::UNIX_EPOCH).unwrap_or_default().as_secs()
}

/// A year-and-remainder resolution never goes below its starting year, and
/// ends with the remaining days inside the found year.
proof fn lemma_year_and_rem_props(days: int, y: int)
    requires
        0 <= days,
    ensures
        y <= year_and_rem(days, y).0,
        0 <= year_and_rem(days, y).1 < days_in_year(year_and_rem(days, y).0),
    decreases days,
{
    if days >= days_in_year(y) {
        lemma_year_and_rem_props(days - days_in_year(y), y + 1);
    }
}

/// A number at least the (k-1)-th power of ten renders in at least k
/// digits.
proof fn lemma_dec_len_min(n: int, k: int)
    requires
        k >= 1,
        n >= pow10(k - 1),
    ensures
        dec_str(n).len() >= k,
    decreases k,
{
    lemma_pow10_pos(k - 1);
    if k >= 2 {
        assert(pow10(k - 1) == 10 * pow10(k - 2));
        lemma_pow10_pos(k - 2);
        assert(n >= 10) by (nonlinear_arith)
            requires
                n >= 10 * pow10(k - 2),
                pow10(k - 2) >= 1,
        ;
        assert(n / 10 >= pow10(k - 2)) by (nonlinear_arith)
            requires
                n >= 10 * pow10(k - 2),
                pow10(k - 2) >= 1,
        ;
        lemma_dec_len_min(n / 10, k - 1);
    }
}

/// TIMESTAMP SHAPE: a rendered timestamp is at least twenty characters, and
/// exactly twenty with the ISO 8601 separators in place whenever the civil
/// year stays within four digits.
pub proof fn lemma_timestamp_shape(secs: int)
    requires
        0 <= secs,
    ensures
        timestamp_str(secs).len() >= 20,
        year_and_rem(secs / 86400, 1970).0 <= 9999 ==> timestamp_str(secs).len() == 20
            && timestamp_str(secs)[4] == '-' && timestamp_str(secs)[7] == '-' && timestamp_str(
            secs,
        )[10] == 'T' && timestamp_str(secs)[13] == ':' && timestamp_str(secs)[16] == ':'
            && timestamp_str(secs)[19] == 'Z',
{
    let days = secs / 86400;
    vstd::arithmetic::div_mod::lemma_div_is_ordered(0, secs, 86400);
    lemma_year_and_rem_props(days, 1970);
    let yr = year_and_rem(days, 1970);
    let s = timestamp_str(secs);
    assert(pow10(3) == 1000 && pow10(4) == 10000) by {
        reveal_with_fuel(pow10, 5);
    }
    lemma_dec_len_min(yr.0, 4);
    let d = dec_str(yr.0);
    assert(s.len() == d.len() + 16);
    if yr.0 <= 9999 {
        lemma_dec_len(yr.0, 4);
        assert(d.len() == 4);
        assert(s[4] == '-') by {
            assert(s[4] == (d + seq!['-'])[4]);
        }
        assert(s[7] == '-');
        assert(s[10] == 'T');
        assert(s[13] == ':');
        assert(s[16] == ':');
        assert(s[19] == 'Z');
    }
}

/// The current moment as an ISO 8601 timestamp (UTC), rendered by
/// `format_timestamp`.
pub fn chrono_lite_now() -> (s: String)
    ensures
        s@.len() >= 20,
        exists|secs: int| 0 <= secs && s@ == #[trigger] timestamp_str(secs),
{
    let secs = now_unix_secs();
    let s = format_timestamp(secs);
    proof {
        assert(s@ == timestamp_str(secs as int));
        lemma_timestamp_shape(secs as int);
    }
    s
}

impl Session {
    /// Creates a session stamped with the current time.
    pub fn new(server_url: String, profile_path: String, pid: u32) -> (r: Session)
        ensures
            r.server_url == server_url,
            r.profile_path == profile_path,
            r.pid == pid,
            exists|secs: int| 0 <= secs && r.started_at@ == #[trigger] timestamp_str(secs),
    {
        let started_at = chrono_lite_now();
        Session { server_url, profile_path, pid, started_at }
    }

    /// Liveness assumption in the absence of a process probe: a session is
    /// taken to be live while its file exists.  Platform code that can probe
    /// the process does so before trusting the session.
    pub fn is_server_alive(&self) -> (r: bool)
        ensures
            r == true,
    {
        true
    }
}

/// A character that may stand unescaped inside a JSON string.
pub open spec fn json_safe_char(c: char) -> bool {
    c != '"' && c as u32 != 92 && c as u32 >= 32
}

/// A string whose characters all may stand unescaped in JSON.
pub open spec fn json_safe_str(s: Seq<char>) -> bool {
    forall|i: int| 0 <= i < s.len() ==> json_safe_char(#[trigger] s[i])
}

/// All three string fields are JSON-safe.
pub open spec fn json_safe_session(s: Session) -> bool {
    json_safe_str(s.server_url@) && json_safe_str(s.profile_path@) && json_safe_str(s.started_at@)
}

/// The canonical JSON rendering of a session.
pub open spec fn session_json(s: Session) -> Seq<char> {
    "{\"server_url\":\""@ + s.server_url@ + "\",\"profile_path\":\""@ + s.profile_path@
        + "\",\"pid\":"@ + dec_str(s.pid as int) + ",\"started_at\":\""@ + s.started_at@ + "\"}"@
}

/// A decimal digit character.
pub open spec fn is_digit_char(c: char) -> bool {
    '0' <= c && c <= '9'
}

/// Numeric value of a digit character.
pub open spec fn digit_of(c: char) -> int {
    c as int - '0' as int
}

/// Numeric value of a digit string.
pub open spec fn digit_val(s: Seq<char>) -> int
    decreases s.len(),
{
    if s.len() == 0 {
        0
    } else {
        digit_val(s.drop_last()) * 10 + digit_of(s.last())
    }
}

/// A digit character round-trips through its value.
proof fn lemma_digit_roundtrip(c: char)
    requires
        is_digit_char(c),
    ensures
        0 <= digit_of(c) <= 9,
        dec_digit(digit_of(c)) == c,
{
}

/// Shape of a decimal rendering: nonempty, all digits, no leading zero
/// (except for zero itself), and its value is the number.
proof fn lemma_dec_props(n: int)
    requires
        n >= 0,
    ensures
        dec_str(n).len() >= 1,
        forall|i: int| 0 <= i < dec_str(n).len() ==> is_digit_char(#[trigger] dec_str(n)[i]),
        digit_val(dec_str(n)) == n,
        n >= 1 ==> dec_str(n)[0] != '0',
    decreases n,
{
    if n < 10 {
        assert(dec_str(n) =~= seq![dec_digit(n)]);
        assert(dec_str(n).drop_last() =~= Seq::<char>::empty());
        assert(dec_str(n).last() == dec_digit(n));
        assert(digit_val(Seq::<char>::empty()) == 0);
        assert(digit_val(dec_str(n)) == digit_of(dec_digit(n)));
    } else {
        lemma_dec_props(n / 10);
        let d = dec_str(n / 10);
        assert(dec_str(n) == d.push(dec_digit(n % 10)));
        assert(dec_str(n).drop_last() =~= d);
        assert(dec_str(n).last() == dec_digit(n % 10));
        assert(digit_val(dec_str(n)) == (n / 10) * 10 + digit_of(dec_digit(n % 10)));
        assert(digit_of(dec_digit(n % 10)) == n % 10);
        assert((n / 10) * 10 + n % 10 == n) by (nonlinear_arith);
        assert(dec_str(n)[0] == d[0]);
    }
}

/// A canonical digit string is the decimal rendering of its value.
proof fn lemma_dec_canonical(s: Seq<char>)
    requires
        s.len() >= 1,
        forall|i: int| 0 <= i < s.len() ==> is_digit_char(#[trigger] s[i]),
        s.len() > 1 ==> s[0] != '0',
    ensures
        digit_val(s) >= 0,
        s.len() > 1 ==> digit_val(s) >= 10,
        dec_str(digit_val(s)) == s,
    decreases s.len(),
{
    if s.len() == 1 {
        lemma_digit_roundtrip(s[0]);
        assert(s.drop_last() =~= Seq::<char>::empty());
        assert(s.last() == s[0]);
        assert(digit_val(Seq::<char>::empty()) == 0);
        assert(digit_val(s) == digit_of(s[0]));
        assert(0 <= digit_of(s[0]) <= 9);
        assert(dec_str(digit_val(s)) =~= seq![dec_digit(digit_of(s[0]))]);
        assert(dec_str(digit_val(s)) =~= s);
    } else {
        let d = s.drop_last();
        lemma_dec_canonical(d);
        lemma_digit_roundtrip(s.last());
        let v = digit_val(s);
        let vd = digit_val(d);
        assert(v == vd * 10 + digit_of(s.last()));
        assert(d.len() > 1 ==> vd >= 10);
        assert(vd >= 1) by {
            if d.len() == 1 {
                lemma_digit_roundtrip(d[0]);
                assert(d[0] != '0');
                assert(digit_of(d[0]) >= 1);
            }
        }
        assert(v >= 10) by (nonlinear_arith)
            requires
                v == vd * 10 + digit_of(s.last()),
                vd >= 1,
                digit_of(s.last()) >= 0,
        ;
        assert(v / 10 == vd && v % 10 == digit_of(s.last())) by (nonlinear_arith)
            requires
                v == vd * 10 + digit_of(s.last()),
                0 <= digit_of(s.last()) <= 9,
                vd >= 0,
        ;
        assert(dec_str(v) == dec_str(vd).push(dec_digit(digit_of(s.last()))));
        assert(dec_str(v) =~= s);
    }
}

/// Powers of ten.
pub open spec fn pow10(k: int) -> int
    decreases k,
{
    if k <= 0 {
        1
    } else {
        10 * pow10(k - 1)
    }
}

/// A number below the k-th power of ten renders in at most k digits.
proof fn lemma_dec_len(n: int, k: int)
    requires
        0 <= n < pow10(k),
        k >= 1,
    ensures
        dec_str(n).len() <= k,
    decreases k,
{
    if n < 10 {
    } else {
        assert(k >= 2) by {
            if k == 1 {
                assert(pow10(1) == 10);
            }
        }
        assert(n / 10 < pow10(k - 1)) by (nonlinear_arith)
            requires
                n < pow10(k),
                pow10(k) == 10 * pow10(k - 1),
                n >= 10,
        ;
        lemma_dec_len(n / 10, k - 1);
    }
}

/// A delimiter-free prefix before a delimiter splits a concatenation
/// uniquely.
proof fn lemma_split_at_delim(a: Seq<char>, b: Seq<char>, x: Seq<char>, y: Seq<char>, d: char)
    requires
        forall|i: int| 0 <= i < a.len() ==> #[trigger] a[i] != d,
        forall|i: int| 0 <= i < b.len() ==> #[trigger] b[i] != d,
        a + seq![d] + x == b + seq![d] + y,
    ensures
        a == b,
        x == y,
{
    let s1 = a + seq![d] + x;
    let s2 = b + seq![d] + y;
    if a.len() < b.len() {
        assert(s1[a.len() as int] == d);
        assert(s2[a.len() as int] == b[a.len() as int]);
        assert(false);
    }
    if b.len() < a.len() {
        assert(s2[b.len() as int] == d);
        assert(s1[b.len() as int] == a[b.len() as int]);
        assert(false);
    }
    assert(a =~= b) by {
        assert forall|i: int| 0 <= i < a.len() implies a[i] == b[i] by {
            assert(s1[i] == (a + seq![d])[i]);
            assert((a + seq![d])[i] == a[i]);
            assert(s2[i] == (b + seq![d])[i]);
            assert((b + seq![d])[i] == b[i]);
        }
    }
    assert(s1.len() == s2.len());
    assert(s1.len() == a.len() + 1 + x.len());
    assert(s2.len() == b.len() + 1 + y.len());
    assert(x.len() == y.len());
    assert(x =~= y) by {
        assert forall|i: int| 0 <= i < x.len() implies x[i] == y[i] by {
            assert(s1[a.len() + 1 + i] == x[i]);
            assert(s2[b.len() + 1 + i] == y[i]);
        }
    }
}

/// Expects a literal at a position; succeeds exactly when the text carries
/// that literal there.
fn expect_lit(s: &str, pos: usize, lit: &str) -> (r: Option<usize>)
    requires
        pos <= s@.len(),
    ensures
        match r {
            Some(p) => p == pos + lit@.len() && p <= s@.len() && s@.subrange(
                pos as int,
                p as int,
            ) == lit@,
            None => !(pos + lit@.len() <= s@.len() && s@.subrange(
                pos as int,
                pos + lit@.len(),
            ) == lit@),
        },
{
    let h = s.unicode_len();
    let n = lit.unicode_len();
    if n > h - pos {
        return None;
    }
    let mut j: usize = 0;
    while j < n
        invariant
            0 <= j <= n,
            n == lit@.len(),
            h == s@.len(),
            pos + n <= h,
            forall|k: int| 0 <= k < j ==> s@[pos + k] == lit@[k],
        decreases n - j,
    {
        if s.get_char(pos + j) != lit.get_char(j) {
            proof {
                assert(s@.subrange(pos as int, pos + lit@.len())[j as int] == s@[pos + j]);
            }
            return None;
        }
        j = j + 1;
    }
    proof {
        assert(s@.subrange(pos as int, pos + lit@.len()) =~= lit@);
    }
    Some(pos + n)
}

/// Scans a JSON string body from `pos` to the next quote; succeeds exactly
/// when a quote is reachable over safe characters, returning the body and
/// the quote's position.
fn scan_string(s: &str, pos: usize) -> (r: Option<(String, usize)>)
    requires
        pos <= s@.len(),
    ensures
        match r {
            Some(f) => {
                &&& pos <= f.1 < s@.len()
                &&& s@[f.1 as int] == '"'
                &&& f.0@ == s@.subrange(pos as int, f.1 as int)
                &&& json_safe_str(f.0@)
            },
            None => forall|q: int|
                pos <= q < s@.len() && s@[q] == '"' ==> exists|i: int|
                    pos <= i < q && !json_safe_char(#[trigger] s@[i]),
        },
{
    let h = s.unicode_len();
    let mut t: usize = pos;
    while t < h
        invariant
            pos <= t <= h,
            h == s@.len(),
            forall|i: int| pos <= i < t ==> json_safe_char(#[trigger] s@[i]) && s@[i] != '"',
        decreases h - t,
    {
        let c = s.get_char(t);
        if c == '"' {
            let body = s.substring_char(pos, t);
            let f = String::from_str(body);
            return Some((f, t));
        }
        if (c as u32) == 92 || (c as u32) < 32 {
            proof {
                assert forall|q: int|
                    pos <= q < s@.len() && s@[q] == '"' implies exists|i: int|
                        pos <= i < q && !json_safe_char(#[trigger] s@[i]) by {
                    if q <= t {
                        assert(false);
                    } else {
                        assert(pos <= t < q && !json_safe_char(s@[t as int]));
                    }
                }
            }
            return None;
        }
        t = t + 1;
    }
    proof {
        assert forall|q: int|
            pos <= q < s@.len() && s@[q] == '"' implies exists|i: int|
                pos <= i < q && !json_safe_char(#[trigger] s@[i]) by {
            assert(s@[q] != '"');
        }
    }
    None
}

/// Parses the maximal decimal digit run at `pos` as a `u32`; succeeds
/// exactly when a canonical rendering of some `u32` stands there, followed
/// by a non-digit or the end.
fn parse_u32(s: &str, pos: usize) -> (r: Option<(u32, usize)>)
    requires
        pos <= s@.len(),
    ensures
        match r {
            Some(f) => {
                &&& pos < f.1 <= s@.len()
                &&& s@.subrange(pos as int, f.1 as int) == dec_str(f.0 as int)
                &&& (f.1 == s@.len() || !is_digit_char(s@[f.1 as int]))
            },
            None => forall|v: u32, q: int|
                pos <= q <= s@.len() && s@.subrange(pos as int, q) == dec_str(v as int) ==> !(q
                    == s@.len() || !is_digit_char(s@[q])),
        },
{
    let h = s.unicode_len();
    if pos == h {
        proof {
            lemma_none_cover_digits(s@, pos as int);
        }
        return None;
    }
    let c0 = s.get_char(pos);
    if !('0' <= c0 && c0 <= '9') {
        proof {
            lemma_none_cover_digits(s@, pos as int);
        }
        return None;
    }
    // Find the end of the digit run.
    let mut e: usize = pos + 1;
    while e < h && is_digit_at(s, e)
        invariant
            pos < e <= h,
            h == s@.len(),
            forall|i: int| pos <= i < e ==> is_digit_char(#[trigger] s@[i]),
        decreases h - e,
    {
        e = e + 1;
    }
    let ghost run = s@.subrange(pos as int, e as int);
    proof {
        assert(e == s@.len() || !is_digit_char(s@[e as int]));
        assert(run.len() >= 1);
        assert(forall|i: int| 0 <= i < run.len() ==> is_digit_char(#[trigger] run[i]));
    }
    if c0 == '0' && e > pos + 1 {
        // A leading zero is not canonical.
        proof {
            assert forall|v: u32, q: int|
                pos <= q <= s@.len() && s@.subrange(pos as int, q) == dec_str(v as int) implies !(q
                    == s@.len() || !is_digit_char(s@[q])) by {
                lemma_dec_props(v as int);
                assert(s@.subrange(pos as int, q)[0] == s@[pos as int]);
                if v >= 1 {
                    assert(dec_str(v as int)[0] != '0');
                    assert(false);
                } else {
                    assert(dec_str(0)[0] == '0');
                    assert(dec_str(0).len() == 1);
                    assert(q == pos + 1);
                    assert(is_digit_char(s@[q]));
                }
            }
        }
        return None;
    }
    if e - pos > 10 {
        // Too many digits for a `u32`.
        proof {
            assert forall|v: u32, q: int|
                pos <= q <= s@.len() && s@.subrange(pos as int, q) == dec_str(v as int) implies !(q
                    == s@.len() || !is_digit_char(s@[q])) by {
                lemma_dec_props(v as int);
                assert(v < 0x1_0000_0000);
                assert(pow10(10) == 10000000000) by {
                    reveal_with_fuel(pow10, 11);
                }
                lemma_dec_len(v as int, 10);
                assert(q <= pos + 10);
                assert(q < e <= s@.len());
                assert(is_digit_char(s@[q]));
            }
        }
        return None;
    }
    // Accumulate the value (at most 10 digits, so it fits in a u64).
    let mut v: u64 = 0;
    let mut i: usize = pos;
    while i < e
        invariant
            pos <= i <= e <= s@.len(),
            h == s@.len(),
            e - pos <= 10,
            forall|k: int| pos <= k < e ==> is_digit_char(#[trigger] s@[k]),
            v == digit_val(s@.subrange(pos as int, i as int)),
            v < 0x1_0000_0000_0000,
        decreases e - i,
    {
        let ghost pre = s@.subrange(pos as int, i as int);
        let c = s.get_char(i);
        let d = (c as u32) - ('0' as u32);
        proof {
            assert(is_digit_char(s@[i as int]));
            assert(d <= 9);
            assert(s@.subrange(pos as int, i as int + 1).drop_last() =~= pre);
            assert(s@.subrange(pos as int, i as int + 1).last() == s@[i as int]);
            lemma_digit_val_bound(s@.subrange(pos as int, i as int + 1), 10);
            assert(pow10(10) == 10000000000) by {
                reveal_with_fuel(pow10, 11);
            }
            assert(digit_of(s@[i as int]) == d as int);
        }
        v = v * 10 + (d as u64);
        i = i + 1;
    }
    proof {
        lemma_dec_canonical(run);
    }
    if v > 0xFFFF_FFFF {
        proof {
            assert forall|v2: u32, q: int|
                pos <= q <= s@.len() && s@.subrange(pos as int, q) == dec_str(v2 as int) implies !(
            q == s@.len() || !is_digit_char(s@[q])) by {
                lemma_dec_props(v2 as int);
                if q == s@.len() || !is_digit_char(s@[q]) {
                    // The canonical run must be the whole digit run.
                    assert(q == e) by {
                        if q < e {
                            assert(is_digit_char(s@[q]));
                            assert(false);
                        }
                        if q > e {
                            assert(dec_str(v2 as int)[e - pos] == s@[e as int]);
                            assert(e < s@.len());
                            assert(is_digit_char(s@[e as int]));
                            assert(false);
                        }
                    }
                    assert(s@.subrange(pos as int, q) =~= run);
                    assert(digit_val(run) == v2 as int);
                    assert(false);
                }
            }
        }
        return None;
    }
    proof {
        assert(run =~= s@.subrange(pos as int, e as int));
        assert(dec_str(v as int) == run);
    }
    Some((v as u32, e))
}

/// The value of a digit string is bounded by the power of ten of its
/// length.
proof fn lemma_digit_val_bound(s: Seq<char>, k: int)
    requires
        forall|i: int| 0 <= i < s.len() ==> is_digit_char(#[trigger] s[i]),
        s.len() <= k,
        k >= 0,
    ensures
        0 <= digit_val(s) < pow10(s.len() as int),
        pow10(s.len() as int) <= pow10(k),
    decreases s.len(),
{
    lemma_pow10_mono(s.len() as int, k);
    if s.len() == 0 {
    } else {
        lemma_digit_val_bound(s.drop_last(), k - 1);
        lemma_digit_roundtrip(s.last());
        let vd = digit_val(s.drop_last());
        assert(digit_val(s) == vd * 10 + digit_of(s.last()));
        assert(0 <= vd * 10 + digit_of(s.last()) && vd * 10 + digit_of(s.last()) < 10 * pow10(
            s.len() - 1,
        )) by (nonlinear_arith)
            requires
                0 <= vd < pow10(s.len() - 1),
                0 <= digit_of(s.last()) <= 9,
        ;
    }
}

/// Powers of ten are positive.
proof fn lemma_pow10_pos(k: int)
    ensures
        pow10(k) >= 1,
    decreases k,
{
    if k > 0 {
        lemma_pow10_pos(k - 1);
        assert(10 * pow10(k - 1) >= 1) by (nonlinear_arith)
            requires
                pow10(k - 1) >= 1,
        ;
    }
}

/// Powers of ten are monotone.
proof fn lemma_pow10_mono(a: int, b: int)
    requires
        a <= b,
    ensures
        pow10(a) <= pow10(b),
        pow10(a) >= 1,
    decreases b - a,
{
    lemma_pow10_pos(a);
    if a < b && b > 0 {
        lemma_pow10_mono(a, b - 1);
        lemma_pow10_pos(b - 1);
        assert(pow10(b) == 10 * pow10(b - 1));
        assert(10 * pow10(b - 1) >= pow10(b - 1)) by (nonlinear_arith)
            requires
                pow10(b - 1) >= 1,
        ;
    }
}

/// Digit test at a position.
fn is_digit_at(s: &str, i: usize) -> (r: bool)
    requires
        i < s@.len(),
    ensures
        r == is_digit_char(s@[i as int]),
{
    let c = s.get_char(i);
    '0' <= c && c <= '9'
}

/// Coverage for a position where no digit stands: no canonical rendering
/// can start there.
proof fn lemma_none_cover_digits(s: Seq<char>, pos: int)
    requires
        0 <= pos <= s.len(),
        pos == s.len() || !is_digit_char(s[pos]),
    ensures
        forall|v: u32, q: int|
            pos <= q <= s.len() && s.subrange(pos, q) == dec_str(v as int) ==> !(q == s.len()
                || !is_digit_char(s[q])),
{
    assert forall|v: u32, q: int|
        pos <= q <= s.len() && s.subrange(pos, q) == dec_str(v as int) implies !(q == s.len()
            || !is_digit_char(s[q])) by {
        lemma_dec_props(v as int);
        assert(q - pos >= 1);
        assert(s.subrange(pos, q)[0] == s[pos]);
        assert(is_digit_char(s[pos]));
        assert(false);
    }
}

/// Executable JSON-safety test for one string.
fn is_json_safe(s: &str) -> (r: bool)
    ensures
        r == json_safe_str(s@),
{
    let n = s.unicode_len();
    let mut i: usize = 0;
    while i < n
        invariant
            0 <= i <= n,
            n == s@.len(),
            forall|k: int| 0 <= k < i ==> json_safe_char(#[trigger] s@[k]),
        decreases n - i,
    {
        let c = s.get_char(i);
        if c == '"' || (c as u32) == 92 || (c as u32) < 32 {
            return false;
        }
        i = i + 1;
    }
    true
}

/// The layout of a canonical session rendering: the positions of all nine
/// segments.
proof fn lemma_canonical_layout(s: Seq<char>, p: Session)
    requires
        s == session_json(p),
    ensures
        ({
            let u = p.server_url@;
            let pp = p.profile_path@;
            let d = dec_str(p.pid as int);
            let a = p.started_at@;
            let o1 = 15int;
            let o2 = o1 + u.len();
            let o3 = o2 + 18;
            let o4 = o3 + pp.len();
            let o5 = o4 + 8;
            let o6 = o5 + d.len();
            let o7 = o6 + 15;
            let o8 = o7 + a.len();
            &&& s.len() == o8 + 2
            &&& s.subrange(0, o1) == "{\"server_url\":\""@
            &&& s.subrange(o1, o2) == u
            &&& s.subrange(o2, o3) == "\",\"profile_path\":\""@
            &&& s.subrange(o3, o4) == pp
            &&& s.subrange(o4, o5) == "\",\"pid\":"@
            &&& s.subrange(o5, o6) == d
            &&& s.subrange(o6, o7) == ",\"started_at\":\""@
            &&& s.subrange(o7, o8) == a
            &&& s.subrange(o8, o8 + 2) == "\"}"@
        }),
{
    reveal_strlit("{\"server_url\":\"");
    reveal_strlit("\",\"profile_path\":\"");
    reveal_strlit("\",\"pid\":");
    reveal_strlit(",\"started_at\":\"");
    reveal_strlit("\"}");
    let l1 = "{\"server_url\":\""@;
    let l2 = "\",\"profile_path\":\""@;
    let l3 = "\",\"pid\":"@;
    let l4 = ",\"started_at\":\""@;
    let l5 = "\"}"@;
    assert(l1.len() == 15);
    assert(l2.len() == 18);
    assert(l3.len() == 8);
    assert(l4.len() == 15);
    assert(l5.len() == 2);
    let u = p.server_url@;
    let pp = p.profile_path@;
    let d = dec_str(p.pid as int);
    let a = p.started_at@;
    let o1 = 15int;
    let o2 = o1 + u.len();
    let o3 = o2 + 18;
    let o4 = o3 + pp.len();
    let o5 = o4 + 8;
    let o6 = o5 + d.len();
    let o7 = o6 + 15;
    let o8 = o7 + a.len();
    assert(s.subrange(0, o1) =~= l1);
    assert(s.subrange(o1, o2) =~= u);
    assert(s.subrange(o2, o3) =~= l2);
    assert(s.subrange(o3, o4) =~= pp);
    assert(s.subrange(o4, o5) =~= l3);
    assert(s.subrange(o5, o6) =~= d);
    assert(s.subrange(o6, o7) =~= l4);
    assert(s.subrange(o7, o8) =~= a);
    assert(s.subrange(o8, o8 + 2) =~= l5);
}

/// ROUND TRIP: the canonical JSON of a safe session determines every field,
/// so a session file written and read back yields the same fields.
pub proof fn lemma_session_json_injective(p1: Session, p2: Session)
    requires
        json_safe_session(p1),
        json_safe_session(p2),
        session_json(p1) == session_json(p2),
    ensures
        p1.server_url@ == p2.server_url@,
        p1.profile_path@ == p2.profile_path@,
        p1.pid == p2.pid,
        p1.started_at@ == p2.started_at@,
{
    let s = session_json(p1);
    lemma_canonical_layout(s, p1);
    lemma_canonical_layout(s, p2);
    lemma_dec_props(p1.pid as int);
    lemma_dec_props(p2.pid as int);
    reveal_strlit("\",\"profile_path\":\"");
    // The two layouts place the url between offset 15 and the first quote;
    // the url is quote-free, so the quote position is the same.
    let u1 = p1.server_url@;
    let u2 = p2.server_url@;
    let q1: int = 15 + u1.len() as int;
    let q2: int = 15 + u2.len() as int;
    assert(s[q1] == '"') by {
        assert(s.subrange(q1 as int, q1 + 18)[0] == '"');
    }
    assert(s[q2] == '"') by {
        assert(s.subrange(q2 as int, q2 + 18)[0] == '"');
    }
    lemma_quote_pos_unique(s, 15, q1 as int, q2 as int, u1, u2);
    assert(u1 =~= u2);
    let o3: int = q1 + 18;
    let pp1 = p1.profile_path@;
    let pp2 = p2.profile_path@;
    let r1: int = o3 + pp1.len() as int;
    let r2: int = o3 + pp2.len() as int;
    reveal_strlit("\",\"pid\":");
    assert(s[r1] == '"') by {
        assert(s.subrange(r1 as int, r1 + 8)[0] == '"');
    }
    assert(s[r2] == '"') by {
        assert(s.subrange(r2 as int, r2 + 8)[0] == '"');
    }
    lemma_quote_pos_unique(s, o3 as int, r1 as int, r2 as int, pp1, pp2);
    assert(pp1 =~= pp2);
    // The pid digits run to the first comma.
    let o5: int = r1 + 8;
    let d1 = dec_str(p1.pid as int);
    let d2 = dec_str(p2.pid as int);
    let c1: int = o5 + d1.len() as int;
    let c2: int = o5 + d2.len() as int;
    reveal_strlit(",\"started_at\":\"");
    assert(s[c1] == ',') by {
        assert(s.subrange(c1 as int, c1 + 15)[0] == ',');
    }
    assert(s[c2] == ',') by {
        assert(s.subrange(c2 as int, c2 + 15)[0] == ',');
    }
    lemma_comma_pos_unique(s, o5 as int, c1 as int, c2 as int, d1, d2);
    assert(d1 =~= d2);
    assert(digit_val(d1) == digit_val(d2));
    assert(p1.pid == p2.pid);
    let o7: int = c1 + 15;
    let a1 = p1.started_at@;
    let a2 = p2.started_at@;
    assert(s.len() == o7 + a1.len() + 2);
    assert(s.len() == o7 + a2.len() + 2);
    assert(a1.len() == a2.len());
    assert(a1 =~= a2) by {
        assert forall|i: int| 0 <= i < a1.len() implies a1[i] == a2[i] by {
            assert(s.subrange(o7 as int, o7 + a1.len())[i] == a1[i]);
            assert(s.subrange(o7 as int, o7 + a2.len())[i] == a2[i]);
        }
    }
}

/// Two quote-free segments starting at one position and ending at a quote
/// end at the same position.
proof fn lemma_quote_pos_unique(s: Seq<char>, start: int, q1: int, q2: int, u1: Seq<char>, u2: Seq<char>)
    requires
        0 <= start,
        q1 == start + u1.len(),
        q2 == start + u2.len(),
        q1 < s.len(),
        q2 < s.len(),
        s[q1] == '"',
        s[q2] == '"',
        s.subrange(start, q1) == u1,
        s.subrange(start, q2) == u2,
        json_safe_str(u1),
        json_safe_str(u2),
    ensures
        q1 == q2,
{
    if q1 < q2 {
        assert(u2[q1 - start] == s[q1]);
        assert(json_safe_char(u2[q1 - start]));
        assert(false);
    }
    if q2 < q1 {
        assert(u1[q2 - start] == s[q2]);
        assert(json_safe_char(u1[q2 - start]));
        assert(false);
    }
}

/// Two digit runs starting at one position and ending at a comma end at the
/// same position.
proof fn lemma_comma_pos_unique(s: Seq<char>, start: int, c1: int, c2: int, d1: Seq<char>, d2: Seq<char>)
    requires
        0 <= start,
        c1 == start + d1.len(),
        c2 == start + d2.len(),
        c1 < s.len(),
        c2 < s.len(),
        s[c1] == ',',
        s[c2] == ',',
        s.subrange(start, c1) == d1,
        s.subrange(start, c2) == d2,
        forall|i: int| 0 <= i < d1.len() ==> is_digit_char(#[trigger] d1[i]),
        forall|i: int| 0 <= i < d2.len() ==> is_digit_char(#[trigger] d2[i]),
    ensures
        c1 == c2,
{
    if c1 < c2 {
        assert(d2[c1 - start] == s[c1]);
        assert(is_digit_char(d2[c1 - start]));
        assert(false);
    }
    if c2 < c1 {
        assert(d1[c2 - start] == s[c2]);
        assert(is_digit_char(d1[c2 - start]));
        assert(false);
    }
}

impl Session {
    /// Renders the session to its canonical JSON; fails exactly when some
    /// string field holds a character that would need escaping.
    pub fn to_json(&self) -> (r: Option<String>)
        ensures
            (r is Some) <==> json_safe_session(*self),
            r matches Some(j) ==> j@ == session_json(*self),
    {
        if !is_json_safe(self.server_url.as_str()) || !is_json_safe(self.profile_path.as_str())
            || !is_json_safe(self.started_at.as_str()) {
            return None;
        }
        let mut j = String::from_str("{\"server_url\":\"");
        j.append(self.server_url.as_str());
        j.append("\",\"profile_path\":\"");
        j.append(self.profile_path.as_str());
        j.append("\",\"pid\":");
        let pid_str = dec_u64(self.pid as u64);
        j.append(pid_str.as_str());
        j.append(",\"started_at\":\"");
        j.append(self.started_at.as_str());
        j.append("\"}");
        proof {
            assert(j@ =~= session_json(*self));
        }
        Some(j)
    }

    /// Parses the canonical session JSON; succeeds exactly on a safe
    /// session's rendering and returns that session's fields.
    #[verifier::rlimit(100)]
    #[verifier::spinoff_prover]
    pub fn from_json(s: &str) -> (r: Option<Session>)
        ensures
            match r {
                Some(p) => json_safe_session(p) && s@ == session_json(p),
                None => forall|p: Session|
                    json_safe_session(p) ==> s@ != #[trigger] session_json(p),
            },
    {
        let p1 = match expect_lit(s, 0, "{\"server_url\":\"") {
            Some(x) => x,
            None => {
                proof {
                    assert forall|p: Session| json_safe_session(p) implies s@ != #[trigger] session_json(
                        p,
                        ) by {
                        if s@ == session_json(p) {
                            lemma_canonical_layout(s@, p);
                        }
                    }
                }
                return None;
            },
        };
        proof {
            reveal_strlit("{\"server_url\":\"");
            assert(p1 == 15);
        }
        let (url, q1) = match scan_string(s, p1) {
            Some(x) => x,
            None => {
                proof {
                    assert forall|p: Session| json_safe_session(p) implies s@ != #[trigger] session_json(
                        p,
                        ) by {
                        if s@ == session_json(p) {
                            lemma_canonical_layout(s@, p);
                            let q: int = 15 + p.server_url@.len() as int;
                            assert(s@[q] == '"') by {
                                reveal_strlit("\",\"profile_path\":\"");
                                assert(s@.subrange(q, q + 18)[0] == '"');
                            }
                            assert forall|i: int| 15 <= i < q implies json_safe_char(
                                #[trigger] s@[i],
                            ) by {
                                assert(s@.subrange(15, q)[i - 15] == s@[i]);
                            }
                            let i0 = choose|i: int| 15 <= i < q && !json_safe_char(#[trigger] s@[i]);
                            assert(false);
                        }
                    }
                }
                return None;
            },
        };
        let p2 = match expect_lit(s, q1, "\",\"profile_path\":\"") {
            Some(x) => x,
            None => {
                proof {
                    assert forall|p: Session| json_safe_session(p) implies s@ != #[trigger] session_json(
                        p,
                        ) by {
                        if s@ == session_json(p) {
                            lemma_stage_url(s@, p, q1 as int, url@);
                            lemma_canonical_layout(s@, p);
                            lemma_dec_props(p.pid as int);
                            let o2: int = 15 + p.server_url@.len() as int;
                            assert(s@.subrange(o2, o2 + 18) == "\",\"profile_path\":\""@);
                            assert(false);
                        }
                    }
                }
                return None;
            },
        };
        proof {
            reveal_strlit("\",\"profile_path\":\"");
            assert(p2 == q1 + 18);
        }
        let (path, q2) = match scan_string(s, p2) {
            Some(x) => x,
            None => {
                proof {
                    assert forall|p: Session| json_safe_session(p) implies s@ != #[trigger] session_json(
                        p,
                        ) by {
                        if s@ == session_json(p) {
                            lemma_stage_url(s@, p, q1 as int, url@);
                            lemma_canonical_layout(s@, p);
                            lemma_dec_props(p.pid as int);
                            let o3: int = 15 + p.server_url@.len() as int + 18;
                            assert(p2 as int == o3);
                            let q: int = o3 + p.profile_path@.len() as int;
                            assert(s@[q] == '"') by {
                                reveal_strlit("\",\"pid\":");
                                assert(s@.subrange(q, q + 8)[0] == '"');
                            }
                            let i0 = choose|i: int|
                                p2 <= i < q && !json_safe_char(#[trigger] s@[i]);
                            assert(s@.subrange(o3, q)[i0 - o3] == s@[i0]);
                            assert(json_safe_char(p.profile_path@[i0 - o3]));
                            assert(false);
                        }
                    }
                }
                return None;
            },
        };
        let p3 = match expect_lit(s, q2, "\",\"pid\":") {
            Some(x) => x,
            None => {
                proof {
                    assert forall|p: Session| json_safe_session(p) implies s@ != #[trigger] session_json(
                        p,
                        ) by {
                        if s@ == session_json(p) {
                            lemma_stage_url(s@, p, q1 as int, url@);
                            lemma_stage_path(s@, p, q2 as int, path@);
                            lemma_canonical_layout(s@, p);
                            lemma_dec_props(p.pid as int);
                            let o4: int = 15 + p.server_url@.len() as int + 18 + p.profile_path@.len() as int;
                            assert(s@.subrange(o4, o4 + 8) == "\",\"pid\":"@);
                            assert(false);
                        }
                    }
                }
                return None;
            },
        };
        proof {
            reveal_strlit("\",\"pid\":");
            assert(p3 == q2 + 8);
        }
        let (pid, p4) = match parse_u32(s, p3) {
            Some(x) => x,
            None => {
                proof {
                    assert forall|p: Session| json_safe_session(p) implies s@ != #[trigger] session_json(
                        p,
                        ) by {
                        if s@ == session_json(p) {
                            lemma_stage_url(s@, p, q1 as int, url@);
                            lemma_stage_path(s@, p, q2 as int, path@);
                            lemma_canonical_layout(s@, p);
                            lemma_dec_props(p.pid as int);
                            let o5: int = 15 + p.server_url@.len() as int + 18 + p.profile_path@.len() as int + 8;
                            assert(p3 as int == o5);
                            let c: int = o5 + dec_str(p.pid as int).len() as int;
                            assert(s@.subrange(o5, c) == dec_str(p.pid as int));
                            assert(s@[c] == ',') by {
                                reveal_strlit(",\"started_at\":\"");
                                assert(s@.subrange(c, c + 15)[0] == ',');
                            }
                            assert(!is_digit_char(s@[c]));
                            assert(false);
                        }
                    }
                }
                return None;
            },
        };
        let p5 = match expect_lit(s, p4, ",\"started_at\":\"") {
            Some(x) => x,
            None => {
                proof {
                    assert forall|p: Session| json_safe_session(p) implies s@ != #[trigger] session_json(
                        p,
                        ) by {
                        if s@ == session_json(p) {
                            lemma_stage_url(s@, p, q1 as int, url@);
                            lemma_stage_path(s@, p, q2 as int, path@);
                            lemma_stage_pid(s@, p, p4 as int, pid);
                            lemma_canonical_layout(s@, p);
                            let o6: int = 15 + p.server_url@.len() as int + 18
                                + p.profile_path@.len() as int + 8 + dec_str(
                                p.pid as int,
                            ).len() as int;
                            assert(s@.subrange(o6, o6 + 15) == ",\"started_at\":\""@);
                            assert(false);
                        }
                    }
                }
                return None;
            },
        };
        proof {
            reveal_strlit(",\"started_at\":\"");
            assert(p5 == p4 + 15);
        }
        let (started, q3) = match scan_string(s, p5) {
            Some(x) => x,
            None => {
                proof {
                    assert forall|p: Session| json_safe_session(p) implies s@ != #[trigger] session_json(
                        p,
                        ) by {
                        if s@ == session_json(p) {
                            lemma_stage_url(s@, p, q1 as int, url@);
                            lemma_stage_path(s@, p, q2 as int, path@);
                            lemma_stage_pid(s@, p, p4 as int, pid);
                            lemma_canonical_layout(s@, p);
                            let o7: int = 15 + p.server_url@.len() as int + 18
                                + p.profile_path@.len() as int + 8 + dec_str(
                                p.pid as int,
                            ).len() as int + 15;
                            assert(p5 as int == o7);
                            let q: int = o7 + p.started_at@.len() as int;
                            assert(s@[q] == '"') by {
                                reveal_strlit("\"}");
                                assert(s@.subrange(q, q + 2)[0] == '"');
                            }
                            let i0 = choose|i: int|
                                p5 <= i < q && !json_safe_char(#[trigger] s@[i]);
                            assert(s@.subrange(o7, q)[i0 - o7] == s@[i0]);
                            assert(json_safe_char(p.started_at@[i0 - o7]));
                            assert(false);
                        }
                    }
                }
                return None;
            },
        };
        let p6 = match expect_lit(s, q3, "\"}") {
            Some(x) => x,
            None => {
                proof {
                    assert forall|p: Session| json_safe_session(p) implies s@ != #[trigger] session_json(
                        p,
                        ) by {
                        if s@ == session_json(p) {
                            lemma_stage_url(s@, p, q1 as int, url@);
                            lemma_stage_path(s@, p, q2 as int, path@);
                            lemma_stage_pid(s@, p, p4 as int, pid);
                            lemma_stage_started(s@, p, q3 as int, started@);
                            lemma_canonical_layout(s@, p);
                            let o8: int = 15 + p.server_url@.len() as int + 18
                                + p.profile_path@.len() as int + 8 + dec_str(
                                p.pid as int,
                            ).len() as int + 15 + p.started_at@.len() as int;
                            assert(s@.subrange(o8, o8 + 2) == "\"}"@);
                            assert(false);
                        }
                    }
                }
                return None;
            },
        };
        proof {
            reveal_strlit("\"}");
            assert(p6 == q3 + 2);
        }
        let h = s.unicode_len();
        if p6 != h {
            proof {
                assert forall|p: Session| json_safe_session(p) implies s@ != #[trigger] session_json(
                    p,
                    ) by {
                    if s@ == session_json(p) {
                        lemma_stage_url(s@, p, q1 as int, url@);
                        lemma_stage_path(s@, p, q2 as int, path@);
                        lemma_stage_pid(s@, p, p4 as int, pid);
                        lemma_stage_started(s@, p, q3 as int, started@);
                        lemma_canonical_layout(s@, p);
                        assert(p6 as int == s@.len());
                        assert(false);
                    }
                }
            }
            return None;
        }
        let sess = Session { server_url: url, profile_path: path, pid, started_at: started };
        proof {
            let l1 = "{\"server_url\":\""@;
            let l2 = "\",\"profile_path\":\""@;
            let l3 = "\",\"pid\":"@;
            let l4 = ",\"started_at\":\""@;
            let l5 = "\"}"@;
            let a1 = l1 + sess.server_url@;
            let a2 = a1 + l2;
            let a3 = a2 + sess.profile_path@;
            let a4 = a3 + l3;
            let a5 = a4 + dec_str(sess.pid as int);
            let a6 = a5 + l4;
            let a7 = a6 + sess.started_at@;
            let a8 = a7 + l5;
            assert(session_json(sess) == a8);
            assert(a1.len() == q1 as int);
            assert(a2.len() == p2 as int);
            assert(a3.len() == q2 as int);
            assert(a4.len() == p3 as int);
            assert(a5.len() == p4 as int);
            assert(a6.len() == p5 as int);
            assert(a7.len() == q3 as int);
            assert(a8.len() == p6 as int);
            assert(s@ =~= a8) by {
                assert forall|i: int| 0 <= i < s@.len() implies a8[i] == s@[i] by {
                    if i < p1 {
                        assert(s@.subrange(0, p1 as int)[i] == s@[i]);
                        assert(a8[i] == l1[i]);
                    } else if i < q1 {
                        assert(s@.subrange(p1 as int, q1 as int)[i - p1] == s@[i]);
                        assert(a8[i] == a1[i]);
                        assert(a1[i] == sess.server_url@[i - p1]);
                    } else if i < p2 {
                        assert(s@.subrange(q1 as int, q1 + l2.len())[i - q1] == s@[i]);
                        assert(a8[i] == a2[i]);
                        assert(a2[i] == l2[i - q1]);
                    } else if i < q2 {
                        assert(s@.subrange(p2 as int, q2 as int)[i - p2] == s@[i]);
                        assert(a8[i] == a3[i]);
                        assert(a3[i] == sess.profile_path@[i - p2]);
                    } else if i < p3 {
                        assert(s@.subrange(q2 as int, q2 + l3.len())[i - q2] == s@[i]);
                        assert(a8[i] == a4[i]);
                        assert(a4[i] == l3[i - q2]);
                    } else if i < p4 {
                        assert(s@.subrange(p3 as int, p4 as int)[i - p3] == s@[i]);
                        assert(a8[i] == a5[i]);
                        assert(a5[i] == dec_str(sess.pid as int)[i - p3]);
                    } else if i < p5 {
                        assert(s@.subrange(p4 as int, p4 + l4.len())[i - p4] == s@[i]);
                        assert(a8[i] == a6[i]);
                        assert(a6[i] == l4[i - p4]);
                    } else if i < q3 {
                        assert(s@.subrange(p5 as int, q3 as int)[i - p5] == s@[i]);
                        assert(a8[i] == a7[i]);
                        assert(a7[i] == sess.started_at@[i - p5]);
                    } else {
                        assert(s@.subrange(q3 as int, q3 + l5.len())[i - q3] == s@[i]);
                        assert(a8[i] == l5[i - q3]);
                    }
                }
            }
        }
        Some(sess)
    }
}

/// Under the canonical layout, a scan that started at offset 15 stopped
/// exactly at the url's closing quote.
proof fn lemma_stage_url(s: Seq<char>, p: Session, q1: int, u: Seq<char>)
    requires
        s == session_json(p),
        json_safe_session(p),
        15 <= q1 < s.len(),
        s[q1] == '"',
        u == s.subrange(15, q1),
        json_safe_str(u),
    ensures
        q1 == 15 + p.server_url@.len(),
        u == p.server_url@,
{
    lemma_canonical_layout(s, p);
    let qp: int = 15 + p.server_url@.len() as int;
    assert(s[qp] == '"') by {
        reveal_strlit("\",\"profile_path\":\"");
        assert(s.subrange(qp, qp + 18)[0] == '"');
    }
    lemma_quote_pos_unique(s, 15, q1, qp, u, p.server_url@);
    assert(u =~= p.server_url@);
}

/// Under the canonical layout, a scan that started after the second literal
/// stopped exactly at the path's closing quote.
proof fn lemma_stage_path(s: Seq<char>, p: Session, q2: int, pp: Seq<char>)
    requires
        s == session_json(p),
        json_safe_session(p),
        ({
            let o3: int = 15 + p.server_url@.len() as int + 18;
            &&& o3 <= q2 < s.len()
            &&& s[q2] == '"'
            &&& pp == s.subrange(o3, q2)
            &&& json_safe_str(pp)
        }),
    ensures
        q2 == 15 + p.server_url@.len() + 18 + p.profile_path@.len(),
        pp == p.profile_path@,
{
    lemma_canonical_layout(s, p);
    let o3: int = 15 + p.server_url@.len() as int + 18;
    let qp: int = o3 + p.profile_path@.len() as int;
    assert(s[qp] == '"') by {
        reveal_strlit("\",\"pid\":");
        assert(s.subrange(qp, qp + 8)[0] == '"');
    }
    lemma_quote_pos_unique(s, o3, q2, qp, pp, p.profile_path@);
    assert(pp =~= p.profile_path@);
}

/// Under the canonical layout, the maximal digit run after the third
/// literal is exactly the pid's rendering.
proof fn lemma_stage_pid(s: Seq<char>, p: Session, p4: int, v: u32)
    requires
        s == session_json(p),
        json_safe_session(p),
        ({
            let o5: int = 15 + p.server_url@.len() as int + 18 + p.profile_path@.len() as int + 8;
            &&& o5 < p4 <= s.len()
            &&& s.subrange(o5, p4) == dec_str(v as int)
            &&& (p4 == s.len() || !is_digit_char(s[p4]))
        }),
    ensures
        p4 == 15 + p.server_url@.len() + 18 + p.profile_path@.len() + 8 + dec_str(
            p.pid as int,
        ).len(),
        v == p.pid,
{
    lemma_canonical_layout(s, p);
    lemma_dec_props(p.pid as int);
    lemma_dec_props(v as int);
    let o5: int = 15 + p.server_url@.len() as int + 18 + p.profile_path@.len() as int + 8;
    let c: int = o5 + dec_str(p.pid as int).len() as int;
    assert(s[c] == ',') by {
        reveal_strlit(",\"started_at\":\"");
        assert(s.subrange(c, c + 15)[0] == ',');
    }
    if p4 < c {
        assert(s[p4] == s.subrange(o5, c)[p4 - o5]);
        assert(is_digit_char(s[p4]));
        assert(false);
    }
    if p4 > c {
        assert(s[c] == s.subrange(o5, p4)[c - o5]);
        assert(is_digit_char(dec_str(v as int)[c - o5]));
        assert(false);
    }
    assert(s.subrange(o5, p4) =~= s.subrange(o5, c));
    assert(dec_str(v as int) == dec_str(p.pid as int));
    assert(digit_val(dec_str(v as int)) == digit_val(dec_str(p.pid as int)));
}

/// Under the canonical layout, a scan that started after the fourth literal
/// stopped exactly at the timestamp's closing quote.
proof fn lemma_stage_started(s: Seq<char>, p: Session, q3: int, a: Seq<char>)
    requires
        s == session_json(p),
        json_safe_session(p),
        ({
            let o7: int = 15 + p.server_url@.len() as int + 18 + p.profile_path@.len() as int + 8
                + dec_str(p.pid as int).len() as int + 15;
            &&& o7 <= q3 < s.len()
            &&& s[q3] == '"'
            &&& a == s.subrange(o7, q3)
            &&& json_safe_str(a)
        }),
    ensures
        q3 == 15 + p.server_url@.len() + 18 + p.profile_path@.len() + 8 + dec_str(
            p.pid as int,
        ).len() + 15 + p.started_at@.len(),
        a == p.started_at@,
{
    lemma_canonical_layout(s, p);
    let o7: int = 15 + p.server_url@.len() as int + 18 + p.profile_path@.len() as int + 8
        + dec_str(p.pid as int).len() as int + 15;
    let qp: int = o7 + p.started_at@.len() as int;
    assert(s[qp] == '"') by {
        reveal_strlit("\"}");
        assert(s.subrange(qp, qp + 2)[0] == '"');
    }
    lemma_quote_pos_unique(s, o7, q3, qp, a, p.started_at@);
    assert(a =~= p.started_at@);
}

} // verus!
