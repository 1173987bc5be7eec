//! Key substitution in page templates.
//!
//! Each key is replaced by its value, left to right, one key after another,
//! exactly as a chain of whole-string replacements.

use vstd::prelude::*;
use vstd::string::StringExecFns;
use vstd::string::StrSliceExecFns;
use crate::strutil::check_match_at;

verus! {

/// Replacement of every non-overlapping occurrence of `from` in `s` by
/// `to`, scanning left to right.  An empty `from` leaves the text unchanged.
pub open spec fn replace_spec(s: Seq<char>, from: Seq<char>, to: Seq<char>) -> Seq<char>
    decreases s.len(),
{
    if from.len() == 0 || s.len() < from.len() {
        s
    } else if s.subrange(0, from.len() as int) == from {
        to + replace_spec(s.skip(from.len() as int), from, to)
    } else {
        seq![s[0]] + replace_spec(s.skip(1), from, to)
    }
}

/// The template after substituting the first `k` key/value pairs.
pub open spec fn subst_spec(t: Seq<char>, vs: Seq<(String, String)>, k: int) -> Seq<char>
    decreases k,
{
    if k <= 0 {
        t
    } else {
        replace_spec(subst_spec(t, vs, k - 1), vs[k - 1].0@, vs[k - 1].1@)
    }
}

/// Replaces every occurrence of `from` in `s` by `to`.
pub fn replace_all(s: &str, from: &str, to: &str) -> (r: String)
    ensures
        r@ == replace_spec(s@, from@, to@),
{
    let n = s.unicode_len();
    let flen = from.unicode_len();
    let mut out = String::new();
    if flen == 0 {
        let whole = s.substring_char(0, n);
        out.append(whole);
        proof {
            assert(out@ =~= replace_spec(s@, from@, to@));
        }
        return out;
    }
    proof {
        assert(s@.skip(0) =~= s@);
        assert(out@ + replace_spec(s@, from@, to@) =~= replace_spec(s@, from@, to@));
    }
    let mut i: usize = 0;
    while i < n
        invariant
            0 <= i <= n,
            n == s@.len(),
            flen == from@.len(),
            flen >= 1,
            replace_spec(s@, from@, to@) == out@ + replace_spec(s@.skip(i as int), from@, to@),
        decreases n - i,
    {
        let ghost rest = s@.skip(i as int);
        if flen <= n - i && check_match_at(s, from, i) {
            out.append(to);
            proof {
                assert(rest.subrange(0, flen as int) =~= s@.subrange(i as int, i + flen));
                assert(rest.skip(flen as int) =~= s@.skip(i + flen));
                assert(replace_spec(rest, from@, to@) == to@ + replace_spec(
                    s@.skip(i + flen),
                    from@,
                    to@,
                ));
            }
            i = i + flen;
        } else {
            let piece = s.substring_char(i, i + 1);
            out.append(piece);
            proof {
                if rest.len() >= flen && rest.subrange(0, flen as int) == from@ {
                    assert(rest.subrange(0, flen as int) =~= s@.subrange(i as int, i + flen));
                    assert(false);
                }
                assert(rest.skip(1) =~= s@.skip(i as int + 1));
                assert(piece@ =~= seq![rest[0]]);
                assert(replace_spec(rest, from@, to@) == seq![rest[0]] + replace_spec(
                    s@.skip(i as int + 1),
                    from@,
                    to@,
                ));
            }
            i = i + 1;
        }
    }
    proof {
        assert(s@.skip(n as int) =~= Seq::<char>::empty());
        assert(replace_spec(Seq::<char>::empty(), from@, to@) =~= Seq::<char>::empty());
        assert(out@ =~= replace_spec(s@, from@, to@));
    }
    out
}

/// Substitutes every key of the value list by its value, in list order.
pub fn substitute_template(template: &str, values: &Vec<(String, String)>) -> (r: String)
    ensures
        r@ == subst_spec(template@, values@, values@.len() as int),
{
    let n = template.unicode_len();
    let whole = template.substring_char(0, n);
    let mut s = String::from_str(whole);
    let mut k: usize = 0;
    while k < values.len()
        invariant
            0 <= k <= values@.len(),
            s@ == subst_spec(template@, values@, k as int),
        decreases values@.len() - k,
    {
        let pair = &values[k];
        s = replace_all(s.as_str(), pair.0.as_str(), pair.1.as_str());
        k = k + 1;
    }
    s
}

} // verus!
