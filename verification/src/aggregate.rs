//! Single-pass aggregation of sample weights per function name.
//!
//! Function identity is name-keyed: the resolved name string fuses duplicates
//! of the same function across threads.  One pass over all samples of the
//! selected threads attributes each sample's weight once to the leaf's
//! function (self time) and once to every distinct function in the stack
//! (total time).

use vstd::prelude::*;
use crate::model::{az_weight_sum, t_weight_sum, ProfileAnalyzer, ThreadData, MAX_TOTAL_WEIGHT};
use crate::strutil::{contains_seq, contains_substr};

verus! {

/// View of an optional thread-name filter.
pub open spec fn view_filter(f: Option<&str>) -> Option<Seq<char>> {
    match f {
        Some(s) => Some(s@),
        None => None,
    }
}

/// A thread passes the filter when its display name contains the filter
/// text; an absent filter passes everything.
pub open spec fn t_pass(t: ThreadData, filt: Option<Seq<char>>) -> bool {
    match filt {
        None => true,
        Some(p) => contains_seq(t.name@, p),
    }
}

/// Resolved function name of one walk element.
pub open spec fn pair_fname(t: ThreadData, gs: Seq<String>, p: (usize, usize)) -> Seq<char> {
    t.func_name_at(gs, p.0)
}

/// Stack index of sample `i`.
pub open spec fn sample_stack(t: ThreadData, i: int) -> Option<usize> {
    t.samples@[i].0
}

/// Weight of sample `i`.
pub open spec fn sample_weight(t: ThreadData, i: int) -> int {
    t.samples@[i].1 as int
}

/// The leaf-first walk of sample `i` (meaningful when the sample has a
/// stack).
pub open spec fn walk_at(t: ThreadData, i: int) -> Seq<(usize, usize)> {
    t.walk_spec(sample_stack(t, i).unwrap(), t.fuel())
}

/// Some element among the first `p` of the walk resolves to `name`.
pub open spec fn walk_prefix_has(
    t: ThreadData,
    gs: Seq<String>,
    w: Seq<(usize, usize)>,
    p: int,
    name: Seq<char>,
) -> bool {
    exists|q: int| 0 <= q < p && pair_fname(t, gs, #[trigger] w[q]) == name
}

/// Weight of the first `n` samples that carry a stack.
pub open spec fn t_sampled_upto(t: ThreadData, n: int) -> int
    decreases n,
{
    if n <= 0 {
        0
    } else {
        t_sampled_upto(t, n - 1) + if sample_stack(t, n - 1) is Some {
            sample_weight(t, n - 1)
        } else {
            0
        }
    }
}

/// Self time of `name` over the first `n` samples: weight of those samples
/// whose leaf resolves to `name`.
pub open spec fn t_self_upto(t: ThreadData, gs: Seq<String>, name: Seq<char>, n: int) -> int
    decreases n,
{
    if n <= 0 {
        0
    } else {
        t_self_upto(t, gs, name, n - 1) + if sample_stack(t, n - 1) is Some && pair_fname(
            t,
            gs,
            walk_at(t, n - 1)[0],
        ) == name {
            sample_weight(t, n - 1)
        } else {
            0
        }
    }
}

/// Total time of `name` over the first `n` samples: weight of those samples
/// whose stack mentions `name` anywhere (counted once per sample).
pub open spec fn t_total_upto(t: ThreadData, gs: Seq<String>, name: Seq<char>, n: int) -> int
    decreases n,
{
    if n <= 0 {
        0
    } else {
        t_total_upto(t, gs, name, n - 1) + if sample_stack(t, n - 1) is Some && walk_prefix_has(
            t,
            gs,
            walk_at(t, n - 1),
            walk_at(t, n - 1).len() as int,
            name,
        ) {
            sample_weight(t, n - 1)
        } else {
            0
        }
    }
}

/// Weight of all samples over the first `k` selected threads.
pub open spec fn az_grand_upto(az: ProfileAnalyzer, filt: Option<Seq<char>>, k: int) -> int
    decreases k,
{
    if k <= 0 {
        0
    } else {
        az_grand_upto(az, filt, k - 1) + if t_pass(az.threads@[k - 1], filt) {
            t_weight_sum(az.threads@[k - 1], az.threads@[k - 1].samples@.len() as int)
        } else {
            0
        }
    }
}

/// Weight of stack-bearing samples over the first `k` selected threads.
pub open spec fn az_sampled_upto(az: ProfileAnalyzer, filt: Option<Seq<char>>, k: int) -> int
    decreases k,
{
    if k <= 0 {
        0
    } else {
        az_sampled_upto(az, filt, k - 1) + if t_pass(az.threads@[k - 1], filt) {
            t_sampled_upto(az.threads@[k - 1], az.threads@[k - 1].samples@.len() as int)
        } else {
            0
        }
    }
}

/// Self time of `name` over the first `k` selected threads.
pub open spec fn az_self_upto(
    az: ProfileAnalyzer,
    filt: Option<Seq<char>>,
    name: Seq<char>,
    k: int,
) -> int
    decreases k,
{
    if k <= 0 {
        0
    } else {
        az_self_upto(az, filt, name, k - 1) + if t_pass(az.threads@[k - 1], filt) {
            t_self_upto(
                az.threads@[k - 1],
                az.global_strings@,
                name,
                az.threads@[k - 1].samples@.len() as int,
            )
        } else {
            0
        }
    }
}

/// Total time of `name` over the first `k` selected threads.
pub open spec fn az_total_upto(
    az: ProfileAnalyzer,
    filt: Option<Seq<char>>,
    name: Seq<char>,
    k: int,
) -> int
    decreases k,
{
    if k <= 0 {
        0
    } else {
        az_total_upto(az, filt, name, k - 1) + if t_pass(az.threads@[k - 1], filt) {
            t_total_upto(
                az.threads@[k - 1],
                az.global_strings@,
                name,
                az.threads@[k - 1].samples@.len() as int,
            )
        } else {
            0
        }
    }
}

/// Self time of `name` across the whole profile, unfiltered.
pub open spec fn self_weight_of(az: ProfileAnalyzer, name: Seq<char>) -> int {
    az_self_upto(az, None, name, az.threads@.len() as int)
}

/// Total time of `name` across the whole profile, unfiltered.
pub open spec fn total_weight_of(az: ProfileAnalyzer, name: Seq<char>) -> int {
    az_total_upto(az, None, name, az.threads@.len() as int)
}

/// Sum of a sequence of accumulated weights.
pub open spec fn sum_i64(s: Seq<i64>) -> int
    decreases s.len(),
{
    if s.len() == 0 {
        0
    } else {
        sum_i64(s.drop_last()) + s.last()
    }
}

/// Appending a zero cell leaves the sum unchanged.
pub proof fn lemma_sum_push(s: Seq<i64>, v: i64)
    ensures
        sum_i64(s.push(v)) == sum_i64(s) + v,
{
    assert(s.push(v).drop_last() =~= s);
    assert(s.push(v).last() == v);
}

/// Updating one cell shifts the sum by the difference.
pub proof fn lemma_sum_update(s: Seq<i64>, i: int, v: i64)
    requires
        0 <= i < s.len(),
    ensures
        sum_i64(s.update(i, v)) == sum_i64(s) - s[i] + v,
    decreases s.len(),
{
    if s.len() > 0 {
        if i == s.len() - 1 {
            assert(s.update(i, v).drop_last() =~= s.drop_last());
        } else {
            lemma_sum_update(s.drop_last(), i, v);
            assert(s.update(i, v).drop_last() =~= s.drop_last().update(i, v));
            assert(s.update(i, v).last() == s.last());
        }
    }
}

/// Pointwise ordering of the per-thread sums: self time is within total
/// time, total within the stack-bearing weight, and that within the thread's
/// whole weight; all are nonnegative.
pub proof fn lemma_t_chain(t: ThreadData, gs: Seq<String>, name: Seq<char>, n: int)
    requires
        t.wf(),
        0 <= n <= t.samples@.len(),
    ensures
        0 <= t_self_upto(t, gs, name, n),
        t_self_upto(t, gs, name, n) <= t_total_upto(t, gs, name, n),
        t_total_upto(t, gs, name, n) <= t_sampled_upto(t, n),
        t_sampled_upto(t, n) <= t_weight_sum(t, n),
    decreases n,
{
    if n > 0 {
        lemma_t_chain(t, gs, name, n - 1);
        if sample_stack(t, n - 1) is Some {
            let w = walk_at(t, n - 1);
            assert(w.len() >= 1);
            if pair_fname(t, gs, w[0]) == name {
                assert(walk_prefix_has(t, gs, w, w.len() as int, name));
            }
        }
    }
}

/// The per-thread sums grow with the sample prefix.
pub proof fn lemma_t_mono(t: ThreadData, gs: Seq<String>, name: Seq<char>, i: int, n: int)
    requires
        t.wf(),
        0 <= i <= n <= t.samples@.len(),
    ensures
        t_self_upto(t, gs, name, i) <= t_self_upto(t, gs, name, n),
        t_total_upto(t, gs, name, i) <= t_total_upto(t, gs, name, n),
        t_sampled_upto(t, i) <= t_sampled_upto(t, n),
        t_weight_sum(t, i) <= t_weight_sum(t, n),
    decreases n - i,
{
    if i < n {
        lemma_t_mono(t, gs, name, i, n - 1);
    }
}

/// Pointwise ordering of the profile-level sums, and their bound by the
/// profile's whole weight.
pub proof fn lemma_az_chain(az: ProfileAnalyzer, filt: Option<Seq<char>>, name: Seq<char>, k: int)
    requires
        az.wf(),
        0 <= k <= az.threads@.len(),
    ensures
        0 <= az_self_upto(az, filt, name, k),
        az_self_upto(az, filt, name, k) <= az_total_upto(az, filt, name, k),
        az_total_upto(az, filt, name, k) <= az_sampled_upto(az, filt, k),
        az_sampled_upto(az, filt, k) <= az_grand_upto(az, filt, k),
        az_grand_upto(az, filt, k) <= az_weight_sum(az.threads@, k),
    decreases k,
{
    if k > 0 {
        lemma_az_chain(az, filt, name, k - 1);
        let t = az.threads@[k - 1];
        lemma_t_chain(t, az.global_strings@, name, t.samples@.len() as int);
    }
}

/// The profile-level sums grow with the thread prefix.
pub proof fn lemma_az_mono(az: ProfileAnalyzer, filt: Option<Seq<char>>, name: Seq<char>, j: int, k: int)
    requires
        az.wf(),
        0 <= j <= k <= az.threads@.len(),
    ensures
        az_self_upto(az, filt, name, j) <= az_self_upto(az, filt, name, k),
        az_total_upto(az, filt, name, j) <= az_total_upto(az, filt, name, k),
        az_sampled_upto(az, filt, j) <= az_sampled_upto(az, filt, k),
        az_grand_upto(az, filt, j) <= az_grand_upto(az, filt, k),
    decreases k - j,
{
    if j < k {
        lemma_az_mono(az, filt, name, j, k - 1);
        let t = az.threads@[k - 1];
        lemma_t_chain(t, az.global_strings@, name, t.samples@.len() as int);
    }
}

/// A prefix of the whole profile's weight is within the supported bound.
pub proof fn lemma_az_weight_prefix(threads: Seq<ThreadData>, j: int, k: int)
    requires
        0 <= j <= k <= threads.len(),
        forall|m: int| 0 <= m < threads.len() ==> (#[trigger] threads[m]).wf(),
    ensures
        az_weight_sum(threads, j) <= az_weight_sum(threads, k),
    decreases k - j,
{
    if j < k {
        lemma_az_weight_prefix(threads, j, k - 1);
        let t = threads[k - 1];
        lemma_t_chain(t, Seq::<String>::empty(), Seq::<char>::empty(), t.samples@.len() as int);
    }
}

/// Pairwise-distinct name pool.
pub open spec fn distinct_names(names: Seq<String>) -> bool {
    forall|j1: int, j2: int|
        0 <= j1 < names.len() && 0 <= j2 < names.len() && j1 != j2 ==> (#[trigger] names[j1])@ != (
        #[trigger] names[j2])@
}

/// Looks a name up in the pool.
pub fn find_name(names: &Vec<String>, name: &String) -> (r: Option<usize>)
    ensures
        match r {
            Some(j) => j < names@.len() && names@[j as int]@ == name@,
            None => forall|j: int| 0 <= j < names@.len() ==> (#[trigger] names@[j])@ != name@,
        },
{
    let mut j: usize = 0;
    while j < names.len()
        invariant
            0 <= j <= names@.len(),
            forall|m: int| 0 <= m < j ==> (#[trigger] names@[m])@ != name@,
        decreases names@.len() - j,
    {
        if names[j] == *name {
            return Some(j);
        }
        j = j + 1;
    }
    None
}

/// Aggregated per-function statistics for one query pass.
pub struct FuncStats {
    /// Distinct resolved function names, in first-observation order.
    pub names: Vec<String>,
    /// Self time per name (same index as `names`).
    pub self_w: Vec<i64>,
    /// Total time per name (same index as `names`).
    pub total_w: Vec<i64>,
    /// Weight of every sample of the selected threads.
    pub total_weight: i64,
    /// Weight of the stack-bearing samples of the selected threads.
    pub sampled_weight: i64,
}

impl FuncStats {
    /// The statistics are exactly the spec-level sums of the profile under
    /// the given filter, cover every name with nonzero weight, and obey
    /// self time within total time within the whole weight.
    pub open spec fn ok_for(self, az: ProfileAnalyzer, filt: Option<Seq<char>>) -> bool {
        let kk = az.threads@.len() as int;
        &&& distinct_names(self.names@)
        &&& self.self_w@.len() == self.names@.len()
        &&& self.total_w@.len() == self.names@.len()
        &&& self.total_weight == az_grand_upto(az, filt, kk)
        &&& self.sampled_weight == az_sampled_upto(az, filt, kk)
        &&& forall|j: int|
            0 <= j < self.names@.len() ==> #[trigger] self.self_w@[j] == az_self_upto(
                az,
                filt,
                self.names@[j]@,
                kk,
            )
        &&& forall|j: int|
            0 <= j < self.names@.len() ==> #[trigger] self.total_w@[j] == az_total_upto(
                az,
                filt,
                self.names@[j]@,
                kk,
            )
        &&& forall|name: Seq<char>|
            not_in_names(self.names@, name) ==> #[trigger] az_self_upto(az, filt, name, kk) == 0
                && az_total_upto(az, filt, name, kk) == 0
        &&& sum_i64(self.self_w@) == self.sampled_weight
        &&& 0 <= self.sampled_weight <= self.total_weight <= MAX_TOTAL_WEIGHT
        &&& forall|j: int|
            0 <= j < self.names@.len() ==> 0 <= #[trigger] self.self_w@[j]
                && self.self_w@[j] <= self.total_w@[j] && self.total_w@[j] <= self.sampled_weight
    }
}

/// WEIGHT CONSERVATION: the self times of all functions sum to exactly the
/// weight of the stack-bearing samples, and the pass's whole weight is the
/// sum of every sample's weight.
pub proof fn lemma_weight_conservation(r: FuncStats, az: ProfileAnalyzer, filt: Option<Seq<char>>)
    requires
        r.ok_for(az, filt),
    ensures
        sum_i64(r.self_w@) == az_sampled_upto(az, filt, az.threads@.len() as int),
        r.total_weight == az_grand_upto(az, filt, az.threads@.len() as int),
{
}

/// TOTAL DOMINATES SELF: every function's total time is at least its self
/// time, and both are within the pass's whole weight.
pub proof fn lemma_total_dominates_self(
    r: FuncStats,
    az: ProfileAnalyzer,
    filt: Option<Seq<char>>,
    j: int,
)
    requires
        r.ok_for(az, filt),
        0 <= j < r.names@.len(),
    ensures
        0 <= r.self_w@[j] <= r.total_w@[j] <= r.sampled_weight <= r.total_weight,
{
}

/// The prefix sum over a whole column is its element sum.
pub proof fn lemma_prefix_sum_is_sum(s: Seq<i64>)
    ensures
        crate::model::raw_weight_sum(s, s.len() as int) == sum_i64(s),
    decreases s.len(),
{
    if s.len() > 0 {
        lemma_prefix_sum_is_sum(s.drop_last());
        lemma_prefix_sum_frame(s, s.drop_last(), s.len() - 1);
    }
}

/// A prefix sum depends only on the prefix.
proof fn lemma_prefix_sum_frame(s1: Seq<i64>, s2: Seq<i64>, k: int)
    requires
        0 <= k <= s1.len(),
        k <= s2.len(),
        forall|i: int| 0 <= i < k ==> s1[i] == s2[i],
    ensures
        crate::model::raw_weight_sum(s1, k) == crate::model::raw_weight_sum(s2, k),
    decreases k,
{
    if k > 0 {
        lemma_prefix_sum_frame(s1, s2, k - 1);
    }
}

/// When every sample carries a stack, the stack-bearing weight is the whole
/// weight.
pub proof fn lemma_sampled_is_grand(az: ProfileAnalyzer, filt: Option<Seq<char>>, k: int)
    requires
        0 <= k <= az.threads@.len(),
        forall|ti: int, si: int|
            0 <= ti < az.threads@.len() && 0 <= si < az.threads@[ti].samples@.len()
                ==> #[trigger] sample_stack(az.threads@[ti], si) is Some,
    ensures
        az_sampled_upto(az, filt, k) == az_grand_upto(az, filt, k),
    decreases k,
{
    if k > 0 {
        lemma_sampled_is_grand(az, filt, k - 1);
        lemma_t_sampled_is_weight(az, k - 1, az.threads@[k - 1].samples@.len() as int);
    }
}

/// Per-thread form of the stack-bearing identity.
proof fn lemma_t_sampled_is_weight(az: ProfileAnalyzer, ti: int, n: int)
    requires
        0 <= ti < az.threads@.len(),
        0 <= n <= az.threads@[ti].samples@.len(),
        forall|ti2: int, si: int|
            0 <= ti2 < az.threads@.len() && 0 <= si < az.threads@[ti2].samples@.len()
                ==> #[trigger] sample_stack(az.threads@[ti2], si) is Some,
    ensures
        t_sampled_upto(az.threads@[ti], n) == t_weight_sum(az.threads@[ti], n),
    decreases n,
{
    if n > 0 {
        lemma_t_sampled_is_weight(az, ti, n - 1);
        assert(sample_stack(az.threads@[ti], n - 1) is Some);
    }
}

/// No pool entry resolves to `name`.
pub open spec fn not_in_names(names: Seq<String>, name: Seq<char>) -> bool {
    forall|j: int| 0 <= j < names.len() ==> (#[trigger] names[j])@ != name
}

/// Some pool entry resolves to `name`.
pub open spec fn in_names(names: Seq<String>, name: Seq<char>) -> bool {
    exists|j: int| 0 <= j < names.len() && (#[trigger] names[j])@ == name
}

/// Bundle for the completeness invariant at a `(thread, sample)` boundary:
/// a name never observed so far has zero accumulated weight everywhere.
pub open spec fn absent_zero(
    az: ProfileAnalyzer,
    filt: Option<Seq<char>>,
    ti: int,
    si: int,
    name: Seq<char>,
) -> bool {
    &&& az_self_upto(az, filt, name, ti) == 0
    &&& az_total_upto(az, filt, name, ti) == 0
    &&& (0 <= ti < az.threads@.len() ==> t_self_upto(az.threads@[ti], az.global_strings@, name, si)
        == 0 && t_total_upto(az.threads@[ti], az.global_strings@, name, si) == 0)
}

/// Membership test on the per-sample seen list.
fn contains_id(v: &Vec<usize>, x: usize) -> (r: bool)
    ensures
        r == v@.contains(x),
{
    let mut j: usize = 0;
    while j < v.len()
        invariant
            0 <= j <= v@.len(),
            forall|m: int| 0 <= m < j ==> v@[m] != x,
        decreases v@.len() - j,
    {
        if v[j] == x {
            return true;
        }
        j = j + 1;
    }
    false
}


/// Interns a name in the pool, growing the parallel weight columns with
/// zero cells for a new name.
fn intern_name(
    names: &mut Vec<String>,
    self_w: &mut Vec<i64>,
    total_w: &mut Vec<i64>,
    name: String,
) -> (id: usize)
    requires
        distinct_names(old(names)@),
        old(self_w)@.len() == old(names)@.len(),
        old(total_w)@.len() == old(names)@.len(),
    ensures
        distinct_names(final(names)@),
        final(self_w)@.len() == final(names)@.len(),
        final(total_w)@.len() == final(names)@.len(),
        id < final(names)@.len(),
        final(names)@[id as int]@ == name@,
        old(names)@.len() <= final(names)@.len(),
        forall|j: int| 0 <= j < old(names)@.len() ==> final(names)@[j] == old(names)@[j],
        in_names(old(names)@, name@) ==> final(names)@ == old(names)@ && final(self_w)@ == old(
            self_w,
        )@ && final(total_w)@ == old(total_w)@,
        !in_names(old(names)@, name@) ==> final(names)@ == old(names)@.push(name)
            && final(self_w)@ == old(self_w)@.push(0) && final(total_w)@ == old(total_w)@.push(0)
            && id == old(names)@.len() && not_in_names(old(names)@, name@),
{
    match find_name(names, &name) {
        Some(j) => {
            proof {
                assert(in_names(names@, name@));
            }
            j
        },
        None => {
            proof {
                assert(not_in_names(names@, name@));
                assert(!in_names(names@, name@));
            }
            let ghost names0 = names@;
            names.push(name);
            self_w.push(0);
            total_w.push(0);
            proof {
                assert forall|j1: int, j2: int|
                    0 <= j1 < names@.len() && 0 <= j2 < names@.len() && j1 != j2 implies (
                #[trigger] names@[j1])@ != (#[trigger] names@[j2])@ by {
                    if j1 < names0.len() && j2 < names0.len() {
                        assert(names0[j1]@ != names0[j2]@);
                    }
                }
            }
            names.len() - 1
        },
    }
}

/// A name absent from a grown pool was absent from the original pool.
proof fn lemma_not_in_prefix(grown: Seq<String>, orig: Seq<String>, name: Seq<char>)
    requires
        orig.len() <= grown.len(),
        forall|j: int| 0 <= j < orig.len() ==> #[trigger] grown[j] == orig[j],
        not_in_names(grown, name),
    ensures
        not_in_names(orig, name),
{
    assert forall|j: int| 0 <= j < orig.len() implies (#[trigger] orig[j])@ != name by {
        assert(grown[j] == orig[j]);
        assert(grown[j]@ != name);
    }
}

impl ProfileAnalyzer {
    /// One pass over the selected threads' samples, producing self and total
    /// time per distinct function name.
    ///
    /// Every sample's weight counts once toward `total_weight`; a sample with
    /// a stack attributes its weight once to the leaf's name as self time and
    /// once to every distinct name in its walk as total time.
    #[verifier::rlimit(60)]
    pub fn aggregate_stats(&self, thread_filter: Option<&str>) -> (r: FuncStats)
        requires
            self.wf(),
        ensures
            r.ok_for(*self, view_filter(thread_filter)),
    {
        let ghost filt = view_filter(thread_filter);
        let ghost kk = self.threads@.len() as int;
        let ghost gs = self.global_strings@;
        let mut names: Vec<String> = Vec::new();
        let mut self_w: Vec<i64> = Vec::new();
        let mut total_w: Vec<i64> = Vec::new();
        let mut total_weight: i64 = 0;
        let mut sampled_weight: i64 = 0;
        let mut ti: usize = 0;
        while ti < self.threads.len()
            invariant
                self.wf(),
                filt == view_filter(thread_filter),
                gs == self.global_strings@,
                0 <= ti <= self.threads@.len(),
                distinct_names(names@),
                self_w@.len() == names@.len(),
                total_w@.len() == names@.len(),
                total_weight == az_grand_upto(*self, filt, ti as int),
                sampled_weight == az_sampled_upto(*self, filt, ti as int),
                forall|j: int|
                    0 <= j < names@.len() ==> #[trigger] self_w@[j] == az_self_upto(
                        *self,
                        filt,
                        names@[j]@,
                        ti as int,
                    ),
                forall|j: int|
                    0 <= j < names@.len() ==> #[trigger] total_w@[j] == az_total_upto(
                        *self,
                        filt,
                        names@[j]@,
                        ti as int,
                    ),
                forall|name: Seq<char>|
                    not_in_names(names@, name) ==> #[trigger] absent_zero(
                        *self,
                        filt,
                        ti as int,
                        0,
                        name,
                    ),
                sum_i64(self_w@) == sampled_weight,
            decreases self.threads@.len() - ti,
        {
            let ghost tii = ti as int;
            let t = &self.threads[ti];
            let pass = match thread_filter {
                None => true,
                Some(f) => contains_substr(t.name.as_str(), f),
            };
            proof {
                assert(pass == t_pass(self.threads@[tii], filt));
                assert forall|name: Seq<char>| not_in_names(names@, name) implies #[trigger]
                absent_zero(*self, filt, tii, 0, name) && t_self_upto(*t, gs, name, 0) == 0
                    && t_total_upto(*t, gs, name, 0) == 0 by {
                    assert(absent_zero(*self, filt, tii, 0, name));
                }
            }
            if pass {
                let mut si: usize = 0;
                while si < t.samples.len()
                    invariant
                        self.wf(),
                        filt == view_filter(thread_filter),
                        gs == self.global_strings@,
                        0 <= ti < self.threads@.len(),
                        t == &self.threads@[ti as int],
                        t_pass(*t, filt),
                        0 <= si <= t.samples@.len(),
                        distinct_names(names@),
                        self_w@.len() == names@.len(),
                        total_w@.len() == names@.len(),
                        total_weight == az_grand_upto(*self, filt, ti as int) + t_weight_sum(
                            *t,
                            si as int,
                        ),
                        sampled_weight == az_sampled_upto(*self, filt, ti as int) + t_sampled_upto(
                            *t,
                            si as int,
                        ),
                        forall|j: int|
                            0 <= j < names@.len() ==> #[trigger] self_w@[j] == az_self_upto(
                                *self,
                                filt,
                                names@[j]@,
                                ti as int,
                            ) + t_self_upto(*t, gs, names@[j]@, si as int),
                        forall|j: int|
                            0 <= j < names@.len() ==> #[trigger] total_w@[j] == az_total_upto(
                                *self,
                                filt,
                                names@[j]@,
                                ti as int,
                            ) + t_total_upto(*t, gs, names@[j]@, si as int),
                        forall|name: Seq<char>|
                            not_in_names(names@, name) ==> #[trigger] absent_zero(
                                *self,
                                filt,
                                ti as int,
                                si as int,
                                name,
                            ),
                        sum_i64(self_w@) == sampled_weight,
                    decreases t.samples@.len() - si,
                {
                    let ghost sii = si as int;
                    let ghost tii = ti as int;
                    let (stack_opt, w) = t.samples[si];
                    proof {
                        assert(w >= 0);
                        lemma_t_mono(*t, gs, Seq::<char>::empty(), sii + 1, t.samples@.len() as int);
                        lemma_t_chain(*t, gs, Seq::<char>::empty(), sii);
                        lemma_az_mono(
                            *self,
                            filt,
                            Seq::<char>::empty(),
                            tii + 1,
                            self.threads@.len() as int,
                        );
                        lemma_az_chain(*self, filt, Seq::<char>::empty(), tii);
                        lemma_az_chain(
                            *self,
                            filt,
                            Seq::<char>::empty(),
                            self.threads@.len() as int,
                        );
                    }
                    total_weight = total_weight + w;
                    if let Some(stack_idx) = stack_opt {
                        sampled_weight = sampled_weight + w;
                        let walk = t.walk_stack(stack_idx);
                        proof {
                            assert(walk@ == walk_at(*t, sii));
                        }
                        let leaf = walk[0];
                        let leaf_name = t.get_func_name(leaf.0, &self.global_strings);
                        proof {
                            assert(leaf_name@ == pair_fname(*t, gs, walk_at(*t, sii)[0]));
                        }
                        let ghost names0 = names@;
                        let ghost self_w0 = self_w@;
                        let ghost leafn = leaf_name@;
                        let id = intern_name(&mut names, &mut self_w, &mut total_w, leaf_name);
                        proof {
                            if !in_names(names0, leafn) {
                                assert(absent_zero(*self, filt, tii, sii, leafn));
                                lemma_sum_push(self_w0, 0);
                            }
                            // Uniform pre-update characterization of the cells.
                            assert forall|j: int| 0 <= j < names@.len() implies #[trigger]
                            self_w@[j] == az_self_upto(*self, filt, names@[j]@, tii)
                                + t_self_upto(*t, gs, names@[j]@, sii) && total_w@[j]
                                == az_total_upto(*self, filt, names@[j]@, tii) + t_total_upto(
                                *t,
                                gs,
                                names@[j]@,
                                sii,
                            ) by {
                                if j >= names0.len() {
                                    assert(absent_zero(*self, filt, tii, sii, names@[j]@));
                                }
                            }
                            assert(sum_i64(self_w@) == az_sampled_upto(*self, filt, tii)
                                + t_sampled_upto(*t, sii));
                            // Weight-bound for the self update.
                            assert(names@[id as int]@ == leafn);
                            lemma_t_mono(*t, gs, leafn, sii + 1, t.samples@.len() as int);
                            lemma_t_chain(*t, gs, leafn, sii);
                            lemma_az_mono(*self, filt, leafn, tii + 1, self.threads@.len() as int);
                            lemma_az_chain(*self, filt, leafn, tii);
                            lemma_az_chain(*self, filt, leafn, self.threads@.len() as int);
                            assert(t_self_upto(*t, gs, leafn, sii + 1) == t_self_upto(
                                *t,
                                gs,
                                leafn,
                                sii,
                            ) + w);
                        }
                        let ghost self_w1 = self_w@;
                        let cur = self_w[id];
                        proof {
                            lemma_sum_update(self_w1, id as int, (cur + w) as i64);
                        }
                        self_w[id] = cur + w;
                        proof {
                            // Cells now reflect the sample prefix `si + 1` for
                            // self time.
                            assert forall|j: int| 0 <= j < names@.len() implies #[trigger]
                            self_w@[j] == az_self_upto(*self, filt, names@[j]@, tii)
                                + t_self_upto(*t, gs, names@[j]@, sii + 1) by {
                                if j == id {
                                } else {
                                    assert(names@[j]@ != leafn);
                                    assert(t_self_upto(*t, gs, names@[j]@, sii + 1)
                                        == t_self_upto(*t, gs, names@[j]@, sii));
                                }
                            }
                            assert(t_sampled_upto(*t, sii + 1) == t_sampled_upto(*t, sii) + w);
                            assert(sum_i64(self_w@) == az_sampled_upto(*self, filt, tii)
                                + t_sampled_upto(*t, sii + 1));
                            assert forall|name: Seq<char>| not_in_names(names@, name) implies
                            #[trigger] absent_zero(*self, filt, tii, sii, name)
                                && !walk_prefix_has(*t, gs, walk@, 0, name) by {
                                assert(not_in_names(names0, name));
                                assert(absent_zero(*self, filt, tii, sii, name));
                            }
                            assert(in_names(names@, pair_fname(*t, gs, walk@[0])));
                        }
                        let mut seen: Vec<usize> = Vec::new();
                        let mut p: usize = 0;
                        while p < walk.len()
                            invariant
                                self.wf(),
                                gs == self.global_strings@,
                                0 <= ti < self.threads@.len(),
                                t == &self.threads@[ti as int],
                                t_pass(*t, filt),
                                0 <= si < t.samples@.len(),
                                sample_stack(*t, si as int) is Some,
                                walk@ == walk_at(*t, si as int),
                                0 <= p <= walk@.len(),
                                w == t.samples@[si as int].1,
                                distinct_names(names@),
                                self_w@.len() == names@.len(),
                                total_w@.len() == names@.len(),
                                walk@.len() >= 1,
                                in_names(names@, pair_fname(*t, gs, walk@[0])),
                                forall|j: int|
                                    0 <= j < names@.len() ==> #[trigger] self_w@[j]
                                        == az_self_upto(*self, filt, names@[j]@, ti as int)
                                        + t_self_upto(*t, gs, names@[j]@, si as int + 1),
                                forall|j: int|
                                    0 <= j < names@.len() ==> #[trigger] total_w@[j]
                                        == az_total_upto(*self, filt, names@[j]@, ti as int)
                                        + t_total_upto(*t, gs, names@[j]@, si as int) + (
                                    if walk_prefix_has(*t, gs, walk@, p as int, names@[j]@) {
                                        w as int
                                    } else {
                                        0
                                    }),
                                forall|x: usize| #[trigger] seen@.contains(x) ==> x < names@.len(),
                                forall|j: int|
                                    0 <= j < names@.len() ==> (seen@.contains(j as usize)
                                        <==> walk_prefix_has(*t, gs, walk@, p as int, names@[j]@)),
                                forall|name: Seq<char>|
                                    not_in_names(names@, name) ==> #[trigger] absent_zero(
                                        *self,
                                        filt,
                                        ti as int,
                                        si as int,
                                        name,
                                    ) && !walk_prefix_has(*t, gs, walk@, p as int, name),
                                sum_i64(self_w@) == az_sampled_upto(*self, filt, ti as int)
                                    + t_sampled_upto(*t, si as int + 1),
                            decreases walk@.len() - p,
                        {
                            let fname = t.get_func_name(walk[p].0, &self.global_strings);
                            proof {
                                assert(fname@ == pair_fname(*t, gs, walk@[p as int]));
                            }
                            let ghost names1 = names@;
                            let ghost self_w2 = self_w@;
                            let ghost fnamev = fname@;
                            let idp = intern_name(&mut names, &mut self_w, &mut total_w, fname);
                            proof {
                                if !in_names(names1, fnamev) {
                                    assert(absent_zero(*self, filt, ti as int, si as int, fnamev));
                                    assert(fnamev != pair_fname(*t, gs, walk@[0]));
                                    assert(t_self_upto(*t, gs, fnamev, si as int + 1) == t_self_upto(
                                        *t,
                                        gs,
                                        fnamev,
                                        si as int,
                                    ));
                                    lemma_sum_push(self_w2, 0);
                                }
                                assert forall|j: int| 0 <= j < names@.len() implies #[trigger]
                                self_w@[j] == az_self_upto(*self, filt, names@[j]@, ti as int)
                                    + t_self_upto(*t, gs, names@[j]@, si as int + 1) && total_w@[j]
                                    == az_total_upto(*self, filt, names@[j]@, ti as int)
                                    + t_total_upto(*t, gs, names@[j]@, si as int) + (
                                if walk_prefix_has(*t, gs, walk@, p as int, names@[j]@) {
                                    w as int
                                } else {
                                    0
                                }) by {
                                    if j >= names1.len() {
                                        assert(names@[j]@ == fnamev);
                                        assert(absent_zero(
                                            *self,
                                            filt,
                                            ti as int,
                                            si as int,
                                            names@[j]@,
                                        ));
                                        assert(t_self_upto(*t, gs, names@[j]@, si as int + 1)
                                            == t_self_upto(*t, gs, names@[j]@, si as int));
                                        assert(!walk_prefix_has(*t, gs, walk@, p as int, names@[j]@));
                                    }
                                }
                                assert forall|j: int| 0 <= j < names@.len() implies (seen@.contains(
                                    j as usize,
                                ) <==> walk_prefix_has(*t, gs, walk@, p as int, names@[j]@)) by {
                                    if j < names1.len() {
                                        assert(names@[j] == names1[j]);
                                    } else {
                                        assert(!walk_prefix_has(*t, gs, walk@, p as int, names@[j]@));
                                        if seen@.contains(j as usize) {
                                            assert((j as usize) < names1.len());
                                        }
                                    }
                                }
                                assert forall|name: Seq<char>| not_in_names(names@, name) implies
                                #[trigger] absent_zero(*self, filt, ti as int, si as int, name)
                                    && !walk_prefix_has(*t, gs, walk@, p as int, name) by {
                                    lemma_not_in_prefix(names@, names1, name);
                                    assert(absent_zero(*self, filt, ti as int, si as int, name));
                                }
                            }
                            let ghost seen_pre = seen@;
                            let ghost total_w_pre = total_w@;
                            let inserted = !contains_id(&seen, idp);
                            if inserted {
                                proof {
                                    assert(!walk_prefix_has(
                                        *t,
                                        gs,
                                        walk@,
                                        p as int,
                                        names@[idp as int]@,
                                    ));
                                    lemma_t_mono(
                                        *t,
                                        gs,
                                        names@[idp as int]@,
                                        si as int + 1,
                                        t.samples@.len() as int,
                                    );
                                    lemma_t_chain(*t, gs, names@[idp as int]@, si as int);
                                    lemma_az_mono(
                                        *self,
                                        filt,
                                        names@[idp as int]@,
                                        ti as int + 1,
                                        self.threads@.len() as int,
                                    );
                                    lemma_az_chain(*self, filt, names@[idp as int]@, ti as int);
                                    lemma_az_chain(
                                        *self,
                                        filt,
                                        names@[idp as int]@,
                                        self.threads@.len() as int,
                                    );
                                    assert(walk_prefix_has(
                                        *t,
                                        gs,
                                        walk@,
                                        walk@.len() as int,
                                        names@[idp as int]@,
                                    ));
                                    assert(t_total_upto(*t, gs, names@[idp as int]@, si as int + 1)
                                        == t_total_upto(*t, gs, names@[idp as int]@, si as int)
                                        + w);
                                }
                                seen.push(idp);
                                let cur2 = total_w[idp];
                                total_w[idp] = cur2 + w;
                            }
                            let ghost pold = p as int;
                            p = p + 1;
                            proof {
                                broadcast use vstd::seq_lib::lemma_seq_contains_after_push;
                                broadcast use vstd::std_specs::vec::axiom_spec_len;

                                assert(vstd::std_specs::vec::spec_vec_len(&names) == names@.len());
                                assert(pair_fname(*t, gs, walk@[pold]) == names@[idp as int]@);
                                assert forall|j: int| 0 <= j < names@.len() implies #[trigger]
                                total_w@[j] == az_total_upto(*self, filt, names@[j]@, ti as int)
                                    + t_total_upto(*t, gs, names@[j]@, si as int) + (
                                if walk_prefix_has(*t, gs, walk@, p as int, names@[j]@) {
                                    w as int
                                } else {
                                    0
                                }) by {
                                    if j != idp as int {
                                        assert(names@[j]@ != names@[idp as int]@);
                                        assert(total_w@[j] == total_w_pre[j]);
                                        if walk_prefix_has(*t, gs, walk@, p as int, names@[j]@)
                                            && !walk_prefix_has(*t, gs, walk@, pold, names@[j]@) {
                                            assert(pair_fname(*t, gs, walk@[pold]) == names@[j]@);
                                            assert(false);
                                        }
                                        if walk_prefix_has(*t, gs, walk@, pold, names@[j]@) {
                                            assert(walk_prefix_has(
                                                *t,
                                                gs,
                                                walk@,
                                                p as int,
                                                names@[j]@,
                                            ));
                                        }
                                    } else {
                                        assert(walk_prefix_has(*t, gs, walk@, p as int, names@[j]@));
                                        if !inserted {
                                            assert(seen_pre.contains(idp));
                                            assert(walk_prefix_has(*t, gs, walk@, pold, names@[j]@));
                                        }
                                    }
                                }
                                assert forall|j: int| 0 <= j < names@.len() implies (seen@.contains(
                                    j as usize,
                                ) <==> walk_prefix_has(*t, gs, walk@, p as int, names@[j]@)) by {
                                    if inserted {
                                        assert(seen@ == seen_pre.push(idp));
                                        assert(seen@.contains(j as usize) <==> (j as usize == idp
                                            || seen_pre.contains(j as usize)));
                                    }
                                    if j == idp as int {
                                        assert(seen@.contains(j as usize));
                                        assert(walk_prefix_has(*t, gs, walk@, p as int, names@[j]@));
                                    } else {
                                        assert(names@[j]@ != names@[idp as int]@);
                                        assert(seen@.contains(j as usize) <==> seen_pre.contains(
                                            j as usize,
                                        ));
                                        if walk_prefix_has(*t, gs, walk@, p as int, names@[j]@)
                                            && !walk_prefix_has(*t, gs, walk@, pold, names@[j]@) {
                                            assert(pair_fname(*t, gs, walk@[pold]) == names@[j]@);
                                            assert(false);
                                        }
                                        if walk_prefix_has(*t, gs, walk@, pold, names@[j]@) {
                                            assert(walk_prefix_has(
                                                *t,
                                                gs,
                                                walk@,
                                                p as int,
                                                names@[j]@,
                                            ));
                                        }
                                    }
                                }
                                assert forall|name: Seq<char>| not_in_names(names@, name) implies
                                #[trigger] absent_zero(*self, filt, ti as int, si as int, name)
                                    && !walk_prefix_has(*t, gs, walk@, p as int, name) by {
                                    assert(absent_zero(*self, filt, ti as int, si as int, name));
                                    assert(!walk_prefix_has(*t, gs, walk@, pold, name));
                                    assert(name != names@[idp as int]@);
                                    if walk_prefix_has(*t, gs, walk@, p as int, name) {
                                        assert(pair_fname(*t, gs, walk@[pold]) == name);
                                        assert(false);
                                    }
                                }
                            }
                        }
                        proof {
                            // The sample is fully attributed: step to prefix
                            // `si + 1` for total time and the absent bundle.
                            assert forall|j: int| 0 <= j < names@.len() implies #[trigger]
                            total_w@[j] == az_total_upto(*self, filt, names@[j]@, tii)
                                + t_total_upto(*t, gs, names@[j]@, sii + 1) by {
                                assert(total_w@[j] == az_total_upto(*self, filt, names@[j]@, tii)
                                    + t_total_upto(*t, gs, names@[j]@, sii) + (
                                if walk_prefix_has(
                                    *t,
                                    gs,
                                    walk@,
                                    walk@.len() as int,
                                    names@[j]@,
                                ) {
                                    w as int
                                } else {
                                    0
                                }));
                            }
                            assert forall|name: Seq<char>| not_in_names(names@, name) implies
                            #[trigger] absent_zero(*self, filt, tii, sii + 1, name) by {
                                assert(absent_zero(*self, filt, tii, sii, name));
                                assert(!walk_prefix_has(*t, gs, walk@, walk@.len() as int, name));
                                assert(name != pair_fname(*t, gs, walk@[0]));
                            }
                            assert(total_weight == az_grand_upto(*self, filt, tii) + t_weight_sum(
                                *t,
                                sii + 1,
                            ));
                            assert(sampled_weight == az_sampled_upto(*self, filt, tii)
                                + t_sampled_upto(*t, sii + 1));
                        }
                        si = si + 1;
                    } else {
                        proof {
                            assert(t_sampled_upto(*t, sii + 1) == t_sampled_upto(*t, sii));
                            assert forall|j: int| 0 <= j < names@.len() implies #[trigger]
                            self_w@[j] == az_self_upto(*self, filt, names@[j]@, tii) + t_self_upto(
                                *t,
                                gs,
                                names@[j]@,
                                sii + 1,
                            ) && total_w@[j] == az_total_upto(*self, filt, names@[j]@, tii)
                                + t_total_upto(*t, gs, names@[j]@, sii + 1) by {
                                assert(t_self_upto(*t, gs, names@[j]@, sii + 1) == t_self_upto(
                                    *t,
                                    gs,
                                    names@[j]@,
                                    sii,
                                ));
                                assert(t_total_upto(*t, gs, names@[j]@, sii + 1) == t_total_upto(
                                    *t,
                                    gs,
                                    names@[j]@,
                                    sii,
                                ));
                            }
                            assert forall|name: Seq<char>| not_in_names(names@, name) implies
                            #[trigger] absent_zero(*self, filt, tii, sii + 1, name) by {
                                assert(absent_zero(*self, filt, tii, sii, name));
                            }
                        }
                        si = si + 1;
                    }
                }
                proof {
                    // Thread fully processed: fold its sums into the next
                    // thread prefix.
                    assert forall|j: int| 0 <= j < names@.len() implies #[trigger] self_w@[j]
                        == az_self_upto(*self, filt, names@[j]@, tii + 1) && total_w@[j]
                        == az_total_upto(*self, filt, names@[j]@, tii + 1) by {
                        assert(self_w@[j] == az_self_upto(*self, filt, names@[j]@, tii)
                            + t_self_upto(*t, gs, names@[j]@, t.samples@.len() as int));
                    }
                    assert forall|name: Seq<char>| not_in_names(names@, name) implies #[trigger]
                    absent_zero(*self, filt, tii + 1, 0, name) by {
                        assert(absent_zero(*self, filt, tii, t.samples@.len() as int, name));
                    }
                }
            } else {
                proof {
                    assert forall|j: int| 0 <= j < names@.len() implies #[trigger] self_w@[j]
                        == az_self_upto(*self, filt, names@[j]@, tii + 1) && total_w@[j]
                        == az_total_upto(*self, filt, names@[j]@, tii + 1) by {
                        assert(self_w@[j] == az_self_upto(*self, filt, names@[j]@, tii));
                    }
                    assert forall|name: Seq<char>| not_in_names(names@, name) implies #[trigger]
                    absent_zero(*self, filt, tii + 1, 0, name) by {
                        assert(absent_zero(*self, filt, tii, 0, name));
                    }
                }
            }
            ti = ti + 1;
        }
        proof {
            assert forall|j: int| 0 <= j < names@.len() implies 0 <= #[trigger] self_w@[j]
                && self_w@[j] <= total_w@[j] && total_w@[j] <= sampled_weight by {
                lemma_az_chain(*self, filt, names@[j]@, kk);
                assert(az_total_upto(*self, filt, names@[j]@, kk) <= az_sampled_upto(
                    *self,
                    filt,
                    kk,
                ));
            }
            lemma_az_chain(*self, filt, Seq::<char>::empty(), kk);
            assert forall|name: Seq<char>| not_in_names(names@, name) implies #[trigger]
            az_self_upto(*self, filt, name, self.threads@.len() as int) == 0 && az_total_upto(
                *self,
                filt,
                name,
                self.threads@.len() as int,
            ) == 0 by {
                assert(absent_zero(*self, filt, self.threads@.len() as int, 0, name));
            }
        }
        FuncStats { names, self_w, total_w, total_weight, sampled_weight }
    }
}

} // verus!
