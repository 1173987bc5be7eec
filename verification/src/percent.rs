//! Percentages as integer hundredths of a percent.
//!
//! Every percentage the crate reports is a value in `0 ..= 10000`, meaning
//! `0.00%` to `100.00%`.  Integer arithmetic keeps the bounds exact: a
//! percentage of a nonnegative part within its whole always lands in range,
//! and percentages of sibling parts of one whole sum to at most `10000`.

use vstd::prelude::*;
use vstd::arithmetic::div_mod::{
    lemma_div_is_ordered, lemma_fundamental_div_mod, lemma_fundamental_div_mod_converse,
};
use crate::aggregate::sum_i64;

verus! {

/// The scale: `10000` hundredths of a percent are `100%`.
pub const PERCENT_SCALE: u32 = 10000;

/// Percentage of `part` within `whole`, in hundredths of a percent, clamped
/// into `0 ..= 10000`.  A nonpositive whole or part yields `0`.
pub open spec fn pct_spec(part: int, whole: int) -> int {
    if whole <= 0 || part <= 0 {
        0
    } else if part >= whole {
        10000
    } else {
        10000 * part / whole
    }
}

/// The percentage always lands in `0 ..= 10000`.
pub proof fn lemma_pct_range(part: int, whole: int)
    ensures
        0 <= pct_spec(part, whole) <= 10000,
{
    if whole > 0 && part > 0 && part < whole {
        assert(10000 * part >= 0) by (nonlinear_arith)
            requires
                part > 0,
        ;
        assert(10000 * part / whole >= 0) by {
            lemma_div_is_ordered(0, 10000 * part, whole);
        }
        assert(10000 * part <= 10000 * whole) by (nonlinear_arith)
            requires
                part <= whole,
        ;
        assert(10000 * whole / whole == 10000) by (nonlinear_arith)
            requires
                whole > 0,
        ;
        lemma_div_is_ordered(10000 * part, 10000 * whole, whole);
    }
}

/// For a part within its whole the clamped form equals the plain quotient.
pub proof fn lemma_pct_unclamped(part: int, whole: int)
    requires
        0 <= part <= whole,
        whole > 0,
    ensures
        pct_spec(part, whole) == 10000 * part / whole,
{
    if part == whole {
        assert(10000 * whole / whole == 10000) by (nonlinear_arith)
            requires
                whole > 0,
        ;
    }
    if part == 0 {
        assert(10000 * 0int / whole == 0) by {
            assert(10000 * 0int == 0);
        }
    }
}

/// Computes the percentage of `part` within `whole` in hundredths of a
/// percent.
pub fn pct_hundredths(part: i64, whole: i64) -> (r: u32)
    ensures
        r as int == pct_spec(part as int, whole as int),
        r <= 10000,
{
    proof {
        lemma_pct_range(part as int, whole as int);
    }
    if whole <= 0 || part <= 0 {
        0
    } else if part >= whole {
        10000
    } else {
        let v: i128 = (10000 as i128) * (part as i128) / (whole as i128);
        proof {
            assert((10000 as i128) * (part as i128) == 10000 * (part as int)) by (nonlinear_arith)
                requires
                    part > 0,
            ;
        }
        v as u32
    }
}

/// Sum of the percentages of each count within `whole`.
pub open spec fn sum_pct(c: Seq<i64>, whole: int) -> int
    decreases c.len(),
{
    if c.len() == 0 {
        0
    } else {
        sum_pct(c.drop_last(), whole) + pct_spec(c.last() as int, whole)
    }
}

/// Division by a positive number is superadditive over nonnegative
/// numerators.
proof fn lemma_div_superadd(a: int, b: int, d: int)
    requires
        a >= 0,
        b >= 0,
        d > 0,
    ensures
        a / d + b / d <= (a + b) / d,
{
    lemma_fundamental_div_mod(a, d);
    lemma_fundamental_div_mod(b, d);
    let q = a / d + b / d;
    let r = a % d + b % d;
    if r < d {
        assert(a + b == d * q + r) by (nonlinear_arith)
            requires
                a == d * (a / d) + a % d,
                b == d * (b / d) + b % d,
                q == a / d + b / d,
                r == a % d + b % d,
        ;
        lemma_fundamental_div_mod_converse(a + b, d, q, r);
    } else {
        assert(a + b == d * (q + 1) + (r - d)) by (nonlinear_arith)
            requires
                a == d * (a / d) + a % d,
                b == d * (b / d) + b % d,
                q == a / d + b / d,
                r == a % d + b % d,
        ;
        lemma_fundamental_div_mod_converse(a + b, d, q + 1, r - d);
    }
}

/// Percentages of sibling counts within one whole sum to at most `100%`:
/// for nonnegative counts whose sum is within `whole`, the hundredths of a
/// percent reported for them add up to at most `10000`.
pub proof fn lemma_sibling_percents_bounded(c: Seq<i64>, whole: int)
    requires
        forall|i: int| 0 <= i < c.len() ==> #[trigger] c[i] >= 0,
        sum_i64(c) <= whole,
    ensures
        0 <= sum_pct(c, whole) <= 10000,
    decreases c.len(),
{
    if whole <= 0 {
        lemma_sum_pct_zero_whole(c, whole);
    } else {
        lemma_sum_pct_le_quotient(c, whole);
        lemma_sum_nonneg(c);
        if sum_i64(c) > 0 {
            assert(10000 * sum_i64(c) <= 10000 * whole) by (nonlinear_arith)
                requires
                    sum_i64(c) <= whole,
            ;
            assert(10000 * whole / whole == 10000) by (nonlinear_arith)
                requires
                    whole > 0,
            ;
            lemma_div_is_ordered(10000 * sum_i64(c), 10000 * whole, whole);
        } else {
            assert(10000 * sum_i64(c) == 0) by (nonlinear_arith)
                requires
                    sum_i64(c) == 0,
            ;
        }
    }
}

/// With a nonpositive whole every percentage is zero.
proof fn lemma_sum_pct_zero_whole(c: Seq<i64>, whole: int)
    requires
        whole <= 0,
    ensures
        sum_pct(c, whole) == 0,
    decreases c.len(),
{
    if c.len() > 0 {
        lemma_sum_pct_zero_whole(c.drop_last(), whole);
    }
}

/// A sum of nonnegative counts is nonnegative.
proof fn lemma_sum_nonneg(c: Seq<i64>)
    requires
        forall|i: int| 0 <= i < c.len() ==> #[trigger] c[i] >= 0,
    ensures
        sum_i64(c) >= 0,
    decreases c.len(),
{
    if c.len() > 0 {
        lemma_sum_nonneg(c.drop_last());
    }
}

/// The percentage sum is within the percentage of the counts' sum.
proof fn lemma_sum_pct_le_quotient(c: Seq<i64>, whole: int)
    requires
        whole > 0,
        forall|i: int| 0 <= i < c.len() ==> #[trigger] c[i] >= 0,
    ensures
        0 <= sum_pct(c, whole),
        sum_i64(c) <= whole ==> sum_pct(c, whole) <= 10000 * sum_i64(c) / whole,
    decreases c.len(),
{
    if c.len() == 0 {
        assert(10000 * sum_i64(c) == 0) by (nonlinear_arith)
            requires
                sum_i64(c) == 0,
        ;
    } else {
        let d = c.drop_last();
        lemma_sum_pct_le_quotient(d, whole);
        lemma_pct_range(c.last() as int, whole);
        if sum_i64(c) <= whole {
            lemma_sum_nonneg(d);
            assert(c.last() >= 0) by {
                assert(c[c.len() - 1] >= 0);
            }
            assert(sum_i64(d) <= whole);
            lemma_pct_unclamped(c.last() as int, whole);
            assert(10000 * sum_i64(d) >= 0) by (nonlinear_arith)
                requires
                    sum_i64(d) >= 0,
            ;
            assert(10000 * (c.last() as int) >= 0) by (nonlinear_arith)
                requires
                    c.last() >= 0,
            ;
            lemma_div_superadd(10000 * sum_i64(d), 10000 * (c.last() as int), whole);
            assert(10000 * sum_i64(d) + 10000 * (c.last() as int) == 10000 * sum_i64(c))
                by (nonlinear_arith)
                requires
                    sum_i64(c) == sum_i64(d) + c.last(),
            ;
        }
    }
}

} // verus!
