//! Caller/callee edge weights and their aggregation.
//!
//! Within one leaf-first walk, each adjacent pair `(element j, element j+1)`
//! is one observed call: element `j` is the callee, element `j + 1` the
//! caller.  The weight of an edge is the sample weight counted once per
//! occurrence of the pair.

use vstd::prelude::*;
use crate::aggregate::{
    pair_fname, sample_stack, sample_weight, walk_at, absent_zero, az_self_upto, az_total_upto,
    distinct_names, find_name, in_names, not_in_names, sum_i64, lemma_sum_push, lemma_sum_update,
    view_filter,
};
use crate::model::{az_weight_sum, t_weight_sum, ProfileAnalyzer, ThreadData, MAX_STACK_TABLE,
    MAX_TOTAL_WEIGHT};

verus! {

/// Number of adjacent pairs of a walk.
pub open spec fn pairs_of(w: Seq<(usize, usize)>) -> int {
    if w.len() == 0 {
        0
    } else {
        w.len() - 1
    }
}

/// Pair `j` of the walk relates `target` and `other` in the requested
/// direction: toward the root it is a call of `target` by `other` (a
/// caller); toward the leaf it is a call of `other` by `target` (a callee).
pub open spec fn adj_step(
    t: ThreadData,
    gs: Seq<String>,
    w: Seq<(usize, usize)>,
    target: Seq<char>,
    other: Seq<char>,
    toward_root: bool,
    j: int,
) -> bool {
    if toward_root {
        pair_fname(t, gs, w[j]) == target && pair_fname(t, gs, w[j + 1]) == other
    } else {
        pair_fname(t, gs, w[j + 1]) == target && pair_fname(t, gs, w[j]) == other
    }
}

/// Pair `j` has `target` on its near side, whatever the far name is.
pub open spec fn adj_any_step(
    t: ThreadData,
    gs: Seq<String>,
    w: Seq<(usize, usize)>,
    target: Seq<char>,
    toward_root: bool,
    j: int,
) -> bool {
    if toward_root {
        pair_fname(t, gs, w[j]) == target
    } else {
        pair_fname(t, gs, w[j + 1]) == target
    }
}

/// Number of `(target, other)` pairs among the first `p` pairs of the walk.
pub open spec fn adj_count_upto(
    t: ThreadData,
    gs: Seq<String>,
    w: Seq<(usize, usize)>,
    target: Seq<char>,
    other: Seq<char>,
    toward_root: bool,
    p: int,
) -> int
    decreases p,
{
    if p <= 0 {
        0
    } else {
        adj_count_upto(t, gs, w, target, other, toward_root, p - 1) + if adj_step(
            t,
            gs,
            w,
            target,
            other,
            toward_root,
            p - 1,
        ) {
            1int
        } else {
            0int
        }
    }
}

/// Number of pairs with `target` on the near side among the first `p`.
pub open spec fn adj_any_upto(
    t: ThreadData,
    gs: Seq<String>,
    w: Seq<(usize, usize)>,
    target: Seq<char>,
    toward_root: bool,
    p: int,
) -> int
    decreases p,
{
    if p <= 0 {
        0
    } else {
        adj_any_upto(t, gs, w, target, toward_root, p - 1) + if adj_any_step(
            t,
            gs,
            w,
            target,
            toward_root,
            p - 1,
        ) {
            1int
        } else {
            0int
        }
    }
}

/// Edge weight accumulated over the first `n` samples of a thread.
pub open spec fn t_adj_upto(
    t: ThreadData,
    gs: Seq<String>,
    target: Seq<char>,
    other: Seq<char>,
    toward_root: bool,
    n: int,
) -> int
    decreases n,
{
    if n <= 0 {
        0
    } else {
        t_adj_upto(t, gs, target, other, toward_root, n - 1) + if sample_stack(t, n - 1) is Some {
            sample_weight(t, n - 1) * adj_count_upto(
                t,
                gs,
                walk_at(t, n - 1),
                target,
                other,
                toward_root,
                pairs_of(walk_at(t, n - 1)),
            )
        } else {
            0
        }
    }
}

/// Near-side weight accumulated over the first `n` samples of a thread.
pub open spec fn t_adj_any_upto(
    t: ThreadData,
    gs: Seq<String>,
    target: Seq<char>,
    toward_root: bool,
    n: int,
) -> int
    decreases n,
{
    if n <= 0 {
        0
    } else {
        t_adj_any_upto(t, gs, target, toward_root, n - 1) + if sample_stack(t, n - 1) is Some {
            sample_weight(t, n - 1) * adj_any_upto(
                t,
                gs,
                walk_at(t, n - 1),
                target,
                toward_root,
                pairs_of(walk_at(t, n - 1)),
            )
        } else {
            0
        }
    }
}

/// Edge weight over the first `k` threads.
pub open spec fn az_adj_upto(
    az: ProfileAnalyzer,
    target: Seq<char>,
    other: Seq<char>,
    toward_root: bool,
    k: int,
) -> int
    decreases k,
{
    if k <= 0 {
        0
    } else {
        az_adj_upto(az, target, other, toward_root, k - 1) + t_adj_upto(
            az.threads@[k - 1],
            az.global_strings@,
            target,
            other,
            toward_root,
            az.threads@[k - 1].samples@.len() as int,
        )
    }
}

/// Near-side weight over the first `k` threads.
pub open spec fn az_adj_any_upto(
    az: ProfileAnalyzer,
    target: Seq<char>,
    toward_root: bool,
    k: int,
) -> int
    decreases k,
{
    if k <= 0 {
        0
    } else {
        az_adj_any_upto(az, target, toward_root, k - 1) + t_adj_any_upto(
            az.threads@[k - 1],
            az.global_strings@,
            target,
            toward_root,
            az.threads@[k - 1].samples@.len() as int,
        )
    }
}

/// Weight of the edge "callee `callee` was called by caller `caller`" over
/// the whole profile.
pub open spec fn caller_weight_of(az: ProfileAnalyzer, callee: Seq<char>, caller: Seq<char>) -> int {
    az_adj_upto(az, callee, caller, true, az.threads@.len() as int)
}

/// Weight of the edge "caller `caller` called callee `callee`" over the
/// whole profile.
pub open spec fn callee_weight_of(az: ProfileAnalyzer, caller: Seq<char>, callee: Seq<char>) -> int {
    az_adj_upto(az, caller, callee, false, az.threads@.len() as int)
}

/// The pair counts are bounded by the number of pairs examined, and the
/// directed count by the near-side count.
proof fn lemma_adj_counts(
    t: ThreadData,
    gs: Seq<String>,
    w: Seq<(usize, usize)>,
    target: Seq<char>,
    other: Seq<char>,
    toward_root: bool,
    p: int,
)
    ensures
        0 <= adj_count_upto(t, gs, w, target, other, toward_root, p),
        adj_count_upto(t, gs, w, target, other, toward_root, p) <= adj_any_upto(
            t,
            gs,
            w,
            target,
            toward_root,
            p,
        ),
        adj_any_upto(t, gs, w, target, toward_root, p) <= if p >= 0 {
            p
        } else {
            0
        },
    decreases p,
{
    if p > 0 {
        lemma_adj_counts(t, gs, w, target, other, toward_root, p - 1);
    }
}

/// A walk is never longer than its fuel.
pub proof fn lemma_walk_len(t: ThreadData, idx: usize, fuel: nat)
    ensures
        t.walk_spec(idx, fuel).len() <= fuel,
    decreases fuel,
{
    if fuel > 0 {
        match t.stack_prefix_at(idx) {
            Some(p) => {
                lemma_walk_len(t, p, (fuel - 1) as nat);
            },
            None => {},
        }
    }
}

/// Ordering and bound of the per-thread adjacency sums: the directed sum is
/// within the near-side sum, which is within the walk-length bound times the
/// thread's weight.
proof fn lemma_t_adj_chain(
    t: ThreadData,
    gs: Seq<String>,
    target: Seq<char>,
    other: Seq<char>,
    toward_root: bool,
    n: int,
)
    requires
        t.wf(),
        0 <= n <= t.samples@.len(),
    ensures
        0 <= t_adj_upto(t, gs, target, other, toward_root, n),
        t_adj_upto(t, gs, target, other, toward_root, n) <= t_adj_any_upto(
            t,
            gs,
            target,
            toward_root,
            n,
        ),
        t_adj_any_upto(t, gs, target, toward_root, n) <= MAX_STACK_TABLE * t_weight_sum(t, n),
    decreases n,
{
    if n > 0 {
        lemma_t_adj_chain(t, gs, target, other, toward_root, n - 1);
        let w = sample_weight(t, n - 1);
        assert(w >= 0);
        if sample_stack(t, n - 1) is Some {
            let wk = walk_at(t, n - 1);
            let p = pairs_of(wk);
            lemma_adj_counts(t, gs, wk, target, other, toward_root, p);
            lemma_walk_len(t, sample_stack(t, n - 1).unwrap(), t.fuel());
            assert(p <= MAX_STACK_TABLE);
            let c = adj_count_upto(t, gs, wk, target, other, toward_root, p);
            let a = adj_any_upto(t, gs, wk, target, toward_root, p);
            assert(w * c >= 0) by (nonlinear_arith)
                requires
                    w >= 0,
                    c >= 0,
            ;
            assert(w * c <= w * a) by (nonlinear_arith)
                requires
                    w >= 0,
                    c <= a,
            ;
            assert(w * a <= w * MAX_STACK_TABLE) by (nonlinear_arith)
                requires
                    w >= 0,
                    a <= MAX_STACK_TABLE,
            ;
            assert(MAX_STACK_TABLE * t_weight_sum(t, n) == MAX_STACK_TABLE * t_weight_sum(t, n - 1)
                + MAX_STACK_TABLE * w) by (nonlinear_arith)
                requires
                    t_weight_sum(t, n) == t_weight_sum(t, n - 1) + w,
            ;
            assert(w * MAX_STACK_TABLE == MAX_STACK_TABLE * w) by (nonlinear_arith);
        } else {
            assert(MAX_STACK_TABLE * t_weight_sum(t, n) >= MAX_STACK_TABLE * t_weight_sum(t, n - 1))
                by (nonlinear_arith)
                requires
                    t_weight_sum(t, n) == t_weight_sum(t, n - 1) + w,
                    w >= 0,
            ;
        }
    }
}

/// Monotonicity of the per-thread adjacency sums in the sample prefix.
proof fn lemma_t_adj_mono(
    t: ThreadData,
    gs: Seq<String>,
    target: Seq<char>,
    other: Seq<char>,
    toward_root: bool,
    i: int,
    n: int,
)
    requires
        t.wf(),
        0 <= i <= n <= t.samples@.len(),
    ensures
        t_adj_upto(t, gs, target, other, toward_root, i) <= t_adj_upto(
            t,
            gs,
            target,
            other,
            toward_root,
            n,
        ),
        t_adj_any_upto(t, gs, target, toward_root, i) <= t_adj_any_upto(
            t,
            gs,
            target,
            toward_root,
            n,
        ),
    decreases n - i,
{
    if i < n {
        lemma_t_adj_mono(t, gs, target, other, toward_root, i, n - 1);
        let w = sample_weight(t, n - 1);
        if sample_stack(t, n - 1) is Some {
            let wk = walk_at(t, n - 1);
            let p = pairs_of(wk);
            lemma_adj_counts(t, gs, wk, target, other, toward_root, p);
            let c = adj_count_upto(t, gs, wk, target, other, toward_root, p);
            let a = adj_any_upto(t, gs, wk, target, toward_root, p);
            assert(w * c >= 0) by (nonlinear_arith)
                requires
                    w >= 0,
                    c >= 0,
            ;
            assert(w * a >= 0) by (nonlinear_arith)
                requires
                    w >= 0,
                    a >= 0,
            ;
        }
    }
}

/// Ordering and bound of the profile-level adjacency sums.
proof fn lemma_az_adj_chain(
    az: ProfileAnalyzer,
    target: Seq<char>,
    other: Seq<char>,
    toward_root: bool,
    k: int,
)
    requires
        az.wf(),
        0 <= k <= az.threads@.len(),
    ensures
        0 <= az_adj_upto(az, target, other, toward_root, k),
        az_adj_upto(az, target, other, toward_root, k) <= az_adj_any_upto(
            az,
            target,
            toward_root,
            k,
        ),
        az_adj_any_upto(az, target, toward_root, k) <= MAX_STACK_TABLE * az_weight_sum(
            az.threads@,
            k,
        ),
    decreases k,
{
    if k > 0 {
        lemma_az_adj_chain(az, target, other, toward_root, k - 1);
        let t = az.threads@[k - 1];
        lemma_t_adj_chain(t, az.global_strings@, target, other, toward_root, t.samples@.len() as int);
        assert(MAX_STACK_TABLE * az_weight_sum(az.threads@, k) == MAX_STACK_TABLE * az_weight_sum(
            az.threads@,
            k - 1,
        ) + MAX_STACK_TABLE * t_weight_sum(t, t.samples@.len() as int)) by (nonlinear_arith)
            requires
                az_weight_sum(az.threads@, k) == az_weight_sum(az.threads@, k - 1) + t_weight_sum(
                    t,
                    t.samples@.len() as int,
                ),
        ;
    }
}

/// Monotonicity of the profile-level adjacency sums in the thread prefix.
proof fn lemma_az_adj_mono(
    az: ProfileAnalyzer,
    target: Seq<char>,
    other: Seq<char>,
    toward_root: bool,
    j: int,
    k: int,
)
    requires
        az.wf(),
        0 <= j <= k <= az.threads@.len(),
    ensures
        az_adj_upto(az, target, other, toward_root, j) <= az_adj_upto(
            az,
            target,
            other,
            toward_root,
            k,
        ),
        az_adj_any_upto(az, target, toward_root, j) <= az_adj_any_upto(az, target, toward_root, k),
    decreases k - j,
{
    if j < k {
        lemma_az_adj_mono(az, target, other, toward_root, j, k - 1);
        let t = az.threads@[k - 1];
        lemma_t_adj_chain(
            t,
            az.global_strings@,
            target,
            other,
            toward_root,
            t.samples@.len() as int,
        );
    }
}

/// The weight bound on the adjacency sums, in closed form: they fit well
/// within `i64`.
proof fn lemma_az_adj_bound(az: ProfileAnalyzer, target: Seq<char>, other: Seq<char>, toward_root: bool)
    requires
        az.wf(),
    ensures
        0 <= az_adj_upto(az, target, other, toward_root, az.threads@.len() as int)
            <= az_adj_any_upto(az, target, toward_root, az.threads@.len() as int),
        az_adj_any_upto(az, target, toward_root, az.threads@.len() as int) <= MAX_STACK_TABLE
            * MAX_TOTAL_WEIGHT,
{
    let kk = az.threads@.len() as int;
    lemma_az_adj_chain(az, target, other, toward_root, kk);
    assert(MAX_STACK_TABLE * az_weight_sum(az.threads@, kk) <= MAX_STACK_TABLE * MAX_TOTAL_WEIGHT)
        by (nonlinear_arith)
        requires
            az_weight_sum(az.threads@, kk) <= MAX_TOTAL_WEIGHT,
    ;
}

/// One collected adjacency row: for a fixed target, every neighbor name
/// with its edge weight, plus the target's whole near-side weight.
pub struct AdjRow {
    pub names: Vec<String>,
    pub weights: Vec<i64>,
    pub total: i64,
}

/// The row states exactly the profile's edge weights around `target`.
pub open spec fn row_ok(r: AdjRow, az: ProfileAnalyzer, target: Seq<char>, toward_root: bool) -> bool {
    let kk = az.threads@.len() as int;
    &&& distinct_names(r.names@)
    &&& r.weights@.len() == r.names@.len()
    &&& forall|j: int|
        0 <= j < r.names@.len() ==> #[trigger] r.weights@[j] == az_adj_upto(
            az,
            target,
            r.names@[j]@,
            toward_root,
            kk,
        ) && r.weights@[j] >= 0
    &&& forall|name: Seq<char>|
        not_in_names(r.names@, name) ==> #[trigger] az_adj_upto(az, target, name, toward_root, kk)
            == 0
    &&& r.total == az_adj_any_upto(az, target, toward_root, kk)
    &&& sum_i64(r.weights@) == r.total
    &&& 0 <= r.total <= MAX_STACK_TABLE * MAX_TOTAL_WEIGHT
}

/// Interns a neighbor name, growing the weight column with a zero cell.
fn intern2(names: &mut Vec<String>, weights: &mut Vec<i64>, name: String) -> (id: usize)
    requires
        distinct_names(old(names)@),
        old(weights)@.len() == old(names)@.len(),
    ensures
        distinct_names(final(names)@),
        final(weights)@.len() == final(names)@.len(),
        id < final(names)@.len(),
        final(names)@[id as int]@ == name@,
        old(names)@.len() <= final(names)@.len(),
        forall|j: int| 0 <= j < old(names)@.len() ==> final(names)@[j] == old(names)@[j],
        in_names(old(names)@, name@) ==> final(names)@ == old(names)@ && final(weights)@ == old(
            weights,
        )@,
        !in_names(old(names)@, name@) ==> final(names)@ == old(names)@.push(name)
            && final(weights)@ == old(weights)@.push(0) && id == old(names)@.len()
            && not_in_names(old(names)@, name@),
{
    match find_name(names, &name) {
        Some(j) => {
            proof {
                assert(in_names(names@, name@));
            }
            j
        },
        None => {
            proof {
                assert(not_in_names(names@, name@));
                assert(!in_names(names@, name@));
            }
            let ghost names0 = names@;
            names.push(name);
            weights.push(0);
            proof {
                assert forall|j1: int, j2: int|
                    0 <= j1 < names@.len() && 0 <= j2 < names@.len() && j1 != j2 implies (
                #[trigger] names@[j1])@ != (#[trigger] names@[j2])@ by {
                    if j1 < names0.len() && j2 < names0.len() {
                        assert(names0[j1]@ != names0[j2]@);
                    }
                }
            }
            names.len() - 1
        },
    }
}

/// Completeness bundle at a `(thread, sample)` boundary: a neighbor name
/// never seen beside `target` has zero accumulated edge weight.
pub open spec fn absent_adj(
    az: ProfileAnalyzer,
    target: Seq<char>,
    toward_root: bool,
    ti: int,
    si: int,
    name: Seq<char>,
) -> bool {
    &&& az_adj_upto(az, target, name, toward_root, ti) == 0
    &&& (0 <= ti < az.threads@.len() ==> t_adj_upto(
        az.threads@[ti],
        az.global_strings@,
        target,
        name,
        toward_root,
        si,
    ) == 0)
}

/// The directed pair count grows with the pair prefix.
proof fn lemma_adj_count_mono(
    t: ThreadData,
    gs: Seq<String>,
    w: Seq<(usize, usize)>,
    target: Seq<char>,
    other: Seq<char>,
    toward_root: bool,
    p1: int,
    p2: int,
)
    requires
        p1 <= p2,
    ensures
        adj_count_upto(t, gs, w, target, other, toward_root, p1) <= adj_count_upto(
            t,
            gs,
            w,
            target,
            other,
            toward_root,
            p2,
        ),
        adj_any_upto(t, gs, w, target, toward_root, p1) <= adj_any_upto(
            t,
            gs,
            w,
            target,
            toward_root,
            p2,
        ),
    decreases p2 - p1,
{
    if p1 < p2 {
        lemma_adj_count_mono(t, gs, w, target, other, toward_root, p1, p2 - 1);
    }
}

impl ProfileAnalyzer {
    /// Collects, for one function name, every neighbor on the requested
    /// side (its callers toward the root, or its callees toward the leaf)
    /// with the exact edge weight, in one pass over all samples.
    #[verifier::rlimit(80)]
    pub fn collect_adjacent(&self, target: &String, toward_root: bool) -> (r: AdjRow)
        requires
            self.wf(),
        ensures
            row_ok(r, *self, target@, toward_root),
    {
        let ghost tgt = target@;
        let ghost gs = self.global_strings@;
        let mut names: Vec<String> = Vec::new();
        let mut weights: Vec<i64> = Vec::new();
        let mut total: i64 = 0;
        let mut ti: usize = 0;
        while ti < self.threads.len()
            invariant
                self.wf(),
                gs == self.global_strings@,
                tgt == target@,
                0 <= ti <= self.threads@.len(),
                distinct_names(names@),
                weights@.len() == names@.len(),
                total == az_adj_any_upto(*self, tgt, toward_root, ti as int),
                forall|j: int|
                    0 <= j < names@.len() ==> #[trigger] weights@[j] == az_adj_upto(
                        *self,
                        tgt,
                        names@[j]@,
                        toward_root,
                        ti as int,
                    ),
                forall|name: Seq<char>|
                    not_in_names(names@, name) ==> #[trigger] absent_adj(
                        *self,
                        tgt,
                        toward_root,
                        ti as int,
                        0,
                        name,
                    ),
                sum_i64(weights@) == total,
            decreases self.threads@.len() - ti,
        {
            let ghost tii = ti as int;
            let t = &self.threads[ti];
            let mut si: usize = 0;
            while si < t.samples.len()
                invariant
                    self.wf(),
                    gs == self.global_strings@,
                    tgt == target@,
                    0 <= ti < self.threads@.len(),
                    t == &self.threads@[ti as int],
                    0 <= si <= t.samples@.len(),
                    distinct_names(names@),
                    weights@.len() == names@.len(),
                    total == az_adj_any_upto(*self, tgt, toward_root, ti as int) + t_adj_any_upto(
                        *t,
                        gs,
                        tgt,
                        toward_root,
                        si as int,
                    ),
                    forall|j: int|
                        0 <= j < names@.len() ==> #[trigger] weights@[j] == az_adj_upto(
                            *self,
                            tgt,
                            names@[j]@,
                            toward_root,
                            ti as int,
                        ) + t_adj_upto(*t, gs, tgt, names@[j]@, toward_root, si as int),
                    forall|name: Seq<char>|
                        not_in_names(names@, name) ==> #[trigger] absent_adj(
                            *self,
                            tgt,
                            toward_root,
                            ti as int,
                            si as int,
                            name,
                        ),
                    sum_i64(weights@) == total,
                decreases t.samples@.len() - si,
            {
                let ghost sii = si as int;
                let (stack_opt, w) = t.samples[si];
                if let Some(stack_idx) = stack_opt {
                    let walk = t.walk_stack(stack_idx);
                    proof {
                        assert(walk@ == walk_at(*t, sii));
                        lemma_walk_len(*t, stack_idx, t.fuel());
                    }
                    let mut p: usize = 0;
                    while p + 1 < walk.len()
                        invariant
                            self.wf(),
                            gs == self.global_strings@,
                            tgt == target@,
                            0 <= ti < self.threads@.len(),
                            t == &self.threads@[ti as int],
                            0 <= si < t.samples@.len(),
                            sample_stack(*t, si as int) is Some,
                            walk@ == walk_at(*t, si as int),
                            walk@.len() >= 1,
                            walk@.len() <= MAX_STACK_TABLE + 1,
                            0 <= p <= pairs_of(walk@),
                            w == t.samples@[si as int].1,
                            w >= 0,
                            distinct_names(names@),
                            weights@.len() == names@.len(),
                            total == az_adj_any_upto(*self, tgt, toward_root, ti as int)
                                + t_adj_any_upto(*t, gs, tgt, toward_root, si as int) + w
                                * adj_any_upto(*t, gs, walk@, tgt, toward_root, p as int),
                            forall|j: int|
                                0 <= j < names@.len() ==> #[trigger] weights@[j] == az_adj_upto(
                                    *self,
                                    tgt,
                                    names@[j]@,
                                    toward_root,
                                    ti as int,
                                ) + t_adj_upto(*t, gs, tgt, names@[j]@, toward_root, si as int) + w
                                    * adj_count_upto(
                                    *t,
                                    gs,
                                    walk@,
                                    tgt,
                                    names@[j]@,
                                    toward_root,
                                    p as int,
                                ),
                            forall|name: Seq<char>|
                                not_in_names(names@, name) ==> #[trigger] absent_adj(
                                    *self,
                                    tgt,
                                    toward_root,
                                    ti as int,
                                    si as int,
                                    name,
                                ),
                            forall|name: Seq<char>|
                                not_in_names(names@, name) ==> #[trigger] adj_count_upto(
                                    *t,
                                    gs,
                                    walk@,
                                    tgt,
                                    name,
                                    toward_root,
                                    p as int,
                                ) == 0,
                            sum_i64(weights@) == total,
                        decreases walk@.len() - p,
                    {
                        let (near, far) = if toward_root {
                            (walk[p], walk[p + 1])
                        } else {
                            (walk[p + 1], walk[p])
                        };
                        let near_name = t.get_func_name(near.0, &self.global_strings);
                        let ghost pp = p as int;
                        if crate::strutil::str_eq(near_name.as_str(), target.as_str()) {
                            proof {
                                assert(adj_any_step(*t, gs, walk@, tgt, toward_root, pp));
                            }
                            let far_name = t.get_func_name(far.0, &self.global_strings);
                            proof {
                                assert(adj_step(*t, gs, walk@, tgt, far_name@, toward_root, pp));
                            }
                            let ghost names1 = names@;
                            let ghost weights1 = weights@;
                            let ghost farv = far_name@;
                            let idp = intern2(&mut names, &mut weights, far_name);
                            proof {
                                if !in_names(names1, farv) {
                                    assert(absent_adj(*self, tgt, toward_root, ti as int, si as int, farv));
                                    lemma_sum_push(weights1, 0);
                                }
                                assert forall|j: int| 0 <= j < names@.len() implies #[trigger]
                                weights@[j] == az_adj_upto(*self, tgt, names@[j]@, toward_root, ti as int)
                                    + t_adj_upto(*t, gs, tgt, names@[j]@, toward_root, si as int) + w
                                    * adj_count_upto(*t, gs, walk@, tgt, names@[j]@, toward_root, pp) by {
                                    if j >= names1.len() {
                                        assert(absent_adj(
                                            *self,
                                            tgt,
                                            toward_root,
                                            ti as int,
                                            si as int,
                                            names@[j]@,
                                        ));
                                        assert(adj_count_upto(
                                            *t,
                                            gs,
                                            walk@,
                                            tgt,
                                            names@[j]@,
                                            toward_root,
                                            pp,
                                        ) == 0);
                                        assert(w * 0int == 0) by (nonlinear_arith);
                                    }
                                }
                                // Bound for the two additions.
                                let cj = adj_count_upto(*t, gs, walk@, tgt, names@[idp as int]@, toward_root, pp);
                                let cfull = adj_count_upto(
                                    *t,
                                    gs,
                                    walk@,
                                    tgt,
                                    names@[idp as int]@,
                                    toward_root,
                                    pairs_of(walk@),
                                );
                                lemma_adj_count_mono(
                                    *t,
                                    gs,
                                    walk@,
                                    tgt,
                                    names@[idp as int]@,
                                    toward_root,
                                    pp + 1,
                                    pairs_of(walk@),
                                );
                                assert(w * (cj + 1) == w * cj + w) by (nonlinear_arith);
                                assert(w * (cj + 1) <= w * cfull) by (nonlinear_arith)
                                    requires
                                        w >= 0,
                                        cj + 1 <= cfull,
                                ;
                                assert(t_adj_upto(*t, gs, tgt, names@[idp as int]@, toward_root, si as int + 1)
                                    == t_adj_upto(*t, gs, tgt, names@[idp as int]@, toward_root, si as int) + w
                                    * cfull);
                                lemma_t_adj_mono(
                                    *t,
                                    gs,
                                    tgt,
                                    names@[idp as int]@,
                                    toward_root,
                                    si as int + 1,
                                    t.samples@.len() as int,
                                );
                                lemma_t_adj_chain(*t, gs, tgt, names@[idp as int]@, toward_root, si as int);
                                lemma_az_adj_mono(
                                    *self,
                                    tgt,
                                    names@[idp as int]@,
                                    toward_root,
                                    ti as int + 1,
                                    self.threads@.len() as int,
                                );
                                lemma_az_adj_bound(*self, tgt, names@[idp as int]@, toward_root);
                                // Same bound for the near-side total.
                                let aj = adj_any_upto(*t, gs, walk@, tgt, toward_root, pp);
                                let afull = adj_any_upto(*t, gs, walk@, tgt, toward_root, pairs_of(walk@));
                                assert(w * (aj + 1) == w * aj + w) by (nonlinear_arith);
                                assert(w * (aj + 1) <= w * afull) by (nonlinear_arith)
                                    requires
                                        w >= 0,
                                        aj + 1 <= afull,
                                ;
                                assert(t_adj_any_upto(*t, gs, tgt, toward_root, si as int + 1)
                                    == t_adj_any_upto(*t, gs, tgt, toward_root, si as int) + w * afull);
                                lemma_sum_update(weights@, idp as int, (weights@[idp as int] + w) as i64);
                            }
                            let cur = weights[idp];
                            weights[idp] = cur + w;
                            total = total + w;
                            proof {
                                assert forall|j: int| 0 <= j < names@.len() implies #[trigger]
                                weights@[j] == az_adj_upto(*self, tgt, names@[j]@, toward_root, ti as int)
                                    + t_adj_upto(*t, gs, tgt, names@[j]@, toward_root, si as int) + w
                                    * adj_count_upto(*t, gs, walk@, tgt, names@[j]@, toward_root, pp + 1) by {
                                    let cjj = adj_count_upto(*t, gs, walk@, tgt, names@[j]@, toward_root, pp);
                                    if j == idp as int {
                                        assert(adj_count_upto(*t, gs, walk@, tgt, names@[j]@, toward_root, pp + 1)
                                            == cjj + 1);
                                        assert(w * (cjj + 1) == w * cjj + w) by (nonlinear_arith);
                                    } else {
                                        assert(names@[j]@ != names@[idp as int]@);
                                        assert(!adj_step(*t, gs, walk@, tgt, names@[j]@, toward_root, pp));
                                        assert(adj_count_upto(*t, gs, walk@, tgt, names@[j]@, toward_root, pp + 1)
                                            == cjj);
                                    }
                                }
                                assert(w * (adj_any_upto(*t, gs, walk@, tgt, toward_root, pp) + 1) == w
                                    * adj_any_upto(*t, gs, walk@, tgt, toward_root, pp) + w) by (nonlinear_arith);
                                assert forall|name: Seq<char>| not_in_names(names@, name) implies #[trigger]
                                absent_adj(*self, tgt, toward_root, ti as int, si as int, name) by {
                                    lemma_not_in_prefix2(names@, names1, name);
                                    assert(absent_adj(*self, tgt, toward_root, ti as int, si as int, name));
                                }
                                assert forall|name: Seq<char>| not_in_names(names@, name) implies #[trigger]
                                adj_count_upto(*t, gs, walk@, tgt, name, toward_root, pp + 1) == 0 by {
                                    lemma_not_in_prefix2(names@, names1, name);
                                    assert(adj_count_upto(*t, gs, walk@, tgt, name, toward_root, pp) == 0);
                                    assert(name != names@[idp as int]@);
                                    assert(!adj_step(*t, gs, walk@, tgt, name, toward_root, pp));
                                }
                            }
                        } else {
                            proof {
                                assert(near_name@ == (if toward_root {
                                    pair_fname(*t, gs, walk@[pp])
                                } else {
                                    pair_fname(*t, gs, walk@[pp + 1])
                                }));
                                assert(!adj_any_step(*t, gs, walk@, tgt, toward_root, pp));
                                assert forall|j: int| 0 <= j < names@.len() implies #[trigger]
                                weights@[j] == az_adj_upto(*self, tgt, names@[j]@, toward_root, ti as int)
                                    + t_adj_upto(*t, gs, tgt, names@[j]@, toward_root, si as int) + w
                                    * adj_count_upto(*t, gs, walk@, tgt, names@[j]@, toward_root, pp + 1) by {
                                    assert(!adj_step(*t, gs, walk@, tgt, names@[j]@, toward_root, pp));
                                }
                                assert forall|name: Seq<char>| not_in_names(names@, name) implies #[trigger]
                                adj_count_upto(*t, gs, walk@, tgt, name, toward_root, pp + 1) == 0 by {
                                    assert(adj_count_upto(*t, gs, walk@, tgt, name, toward_root, pp) == 0);
                                    assert(!adj_step(*t, gs, walk@, tgt, name, toward_root, pp));
                                }
                            }
                        }
                        p = p + 1;
                    }
                    proof {
                        // All pairs of the sample are attributed.
                        assert(p as int == pairs_of(walk@));
                        assert forall|j: int| 0 <= j < names@.len() implies #[trigger] weights@[j]
                            == az_adj_upto(*self, tgt, names@[j]@, toward_root, ti as int)
                            + t_adj_upto(*t, gs, tgt, names@[j]@, toward_root, sii + 1) by {
                            assert(weights@[j] == az_adj_upto(
                                *self,
                                tgt,
                                names@[j]@,
                                toward_root,
                                ti as int,
                            ) + t_adj_upto(*t, gs, tgt, names@[j]@, toward_root, sii) + w
                                * adj_count_upto(
                                *t,
                                gs,
                                walk@,
                                tgt,
                                names@[j]@,
                                toward_root,
                                pairs_of(walk@),
                            ));
                        }
                        assert(total == az_adj_any_upto(*self, tgt, toward_root, ti as int)
                            + t_adj_any_upto(*t, gs, tgt, toward_root, sii + 1));
                        assert forall|name: Seq<char>| not_in_names(names@, name) implies #[trigger]
                        absent_adj(*self, tgt, toward_root, ti as int, sii + 1, name) by {
                            assert(absent_adj(*self, tgt, toward_root, ti as int, sii, name));
                            assert(adj_count_upto(*t, gs, walk@, tgt, name, toward_root, p as int)
                                == 0);
                            assert(w * 0int == 0) by (nonlinear_arith);
                        }
                    }
                    si = si + 1;
                } else {
                    proof {
                        assert forall|name: Seq<char>| not_in_names(names@, name) implies #[trigger]
                        absent_adj(*self, tgt, toward_root, ti as int, sii + 1, name) by {
                            assert(absent_adj(*self, tgt, toward_root, ti as int, sii, name));
                        }
                    }
                    si = si + 1;
                }
            }
            proof {
                assert forall|j: int| 0 <= j < names@.len() implies #[trigger] weights@[j]
                    == az_adj_upto(*self, tgt, names@[j]@, toward_root, tii + 1) by {
                    assert(weights@[j] == az_adj_upto(*self, tgt, names@[j]@, toward_root, tii)
                        + t_adj_upto(*t, gs, tgt, names@[j]@, toward_root, t.samples@.len() as int));
                }
                assert forall|name: Seq<char>| not_in_names(names@, name) implies #[trigger]
                absent_adj(*self, tgt, toward_root, tii + 1, 0, name) by {
                    assert(absent_adj(*self, tgt, toward_root, tii, t.samples@.len() as int, name));
                }
            }
            ti = ti + 1;
        }
        proof {
            let kk = self.threads@.len() as int;
            assert forall|j: int| 0 <= j < names@.len() implies #[trigger] weights@[j]
                == az_adj_upto(*self, tgt, names@[j]@, toward_root, kk) && weights@[j] >= 0 by {
                lemma_az_adj_chain(*self, tgt, names@[j]@, toward_root, kk);
            }
            assert forall|name: Seq<char>| not_in_names(names@, name) implies #[trigger]
            az_adj_upto(*self, tgt, name, toward_root, kk) == 0 by {
                assert(absent_adj(*self, tgt, toward_root, kk, 0, name));
            }
            lemma_az_adj_bound(*self, tgt, tgt, toward_root);
        }
        AdjRow { names, weights, total }
    }
}

/// SIBLING PERCENTS: the percentages assigned to the full set of siblings
/// around one function sum to at most 100%.  Every displayed subset of them
/// then also stays within 100%, since each percentage is nonnegative.
pub proof fn lemma_sibling_percent_sum(r: AdjRow, az: ProfileAnalyzer, target: Seq<char>, toward_root: bool)
    requires
        row_ok(r, az, target, toward_root),
    ensures
        0 <= crate::percent::sum_pct(r.weights@, r.total as int) <= 10000,
{
    crate::percent::lemma_sibling_percents_bounded(r.weights@, r.total as int);
}

/// A name absent from a grown pool was absent from the original pool.
proof fn lemma_not_in_prefix2(grown: Seq<String>, orig: Seq<String>, name: Seq<char>)
    requires
        orig.len() <= grown.len(),
        forall|j: int| 0 <= j < orig.len() ==> #[trigger] grown[j] == orig[j],
        not_in_names(grown, name),
    ensures
        not_in_names(orig, name),
{
    assert forall|j: int| 0 <= j < orig.len() implies (#[trigger] orig[j])@ != name by {
        assert(grown[j] == orig[j]);
        assert(grown[j]@ != name);
    }
}

/// Views of a string sequence.
pub open spec fn views_of(v: Seq<String>) -> Seq<Seq<char>> {
    v.map_values(|s: String| s@)
}

/// Membership of a name among views.
pub open spec fn in_views(vs: Seq<Seq<char>>, name: Seq<char>) -> bool {
    exists|j: int| 0 <= j < vs.len() && vs[j] == name
}

/// One caller of a function, with the callers of that caller in turn.
pub struct CallerEntry {
    pub name: String,
    pub call_count: i64,
    /// Hundredths of a percent of the sum over all sibling callers.
    pub percent: u32,
    pub callers: Vec<CallerEntry>,
}

/// One callee of a function, with the callees of that callee in turn.
pub struct CalleeEntry {
    pub name: String,
    pub call_count: i64,
    /// Hundredths of a percent of the sum over all sibling callees.
    pub percent: u32,
    pub callees: Vec<CalleeEntry>,
}

/// Sum of the displayed caller percentages of one level.
pub open spec fn caller_pct_sum(es: Seq<CallerEntry>) -> int
    decreases es.len(),
{
    if es.len() == 0 {
        0
    } else {
        caller_pct_sum(es.drop_last()) + es.last().percent
    }
}

/// Sum of the displayed callee percentages of one level.
pub open spec fn callee_pct_sum(es: Seq<CalleeEntry>) -> int
    decreases es.len(),
{
    if es.len() == 0 {
        0
    } else {
        callee_pct_sum(es.drop_last()) + es.last().percent
    }
}

/// Correctness of one expanded caller level: exact edge weights, percents
/// over the sibling sum, descending order, the per-level limit, and child
/// levels correct in turn.  A target already on the path, or exhausted
/// depth, expands to nothing.
pub open spec fn caller_entries_ok(
    az: ProfileAnalyzer,
    target: Seq<char>,
    depth: int,
    limit: int,
    visited: Seq<Seq<char>>,
    es: Seq<CallerEntry>,
) -> bool
    decreases depth,
{
    if depth <= 0 || in_views(visited, target) {
        es.len() == 0
    } else {
        let kk = az.threads@.len() as int;
        let row_total = az_adj_any_upto(az, target, true, kk);
        &&& es.len() <= limit
        &&& forall|k1: int, k2: int|
            0 <= k1 < k2 < es.len() ==> (#[trigger] es[k1]).call_count >= (
            #[trigger] es[k2]).call_count
        &&& forall|k1: int, k2: int|
            0 <= k1 < es.len() && 0 <= k2 < es.len() && k1 != k2 ==> (#[trigger] es[k1]).name@ != (
            #[trigger] es[k2]).name@
        &&& forall|k: int|
            0 <= k < es.len() ==> {
                let e = #[trigger] es[k];
                &&& e.call_count == az_adj_upto(az, target, e.name@, true, kk)
                &&& e.call_count > 0
                &&& e.percent == crate::percent::pct_spec(e.call_count as int, row_total)
                &&& caller_entries_ok(az, e.name@, depth - 1, limit, visited.push(target), e.callers@)
            }
        &&& forall|other: Seq<char>|
            #[trigger] az_adj_upto(az, target, other, true, kk) > 0 && (forall|k: int|
                0 <= k < es.len() ==> (#[trigger] es[k]).name@ != other) ==> es.len() == limit && (
            forall|k: int|
                0 <= k < es.len() ==> (#[trigger] es[k]).call_count >= az_adj_upto(
                    az,
                    target,
                    other,
                    true,
                    kk,
                ))
        &&& 0 <= caller_pct_sum(es) <= 10000
    }
}

/// Correctness of one expanded callee level; the mirror of
/// `caller_entries_ok` toward the leaves.
pub open spec fn callee_entries_ok(
    az: ProfileAnalyzer,
    target: Seq<char>,
    depth: int,
    limit: int,
    visited: Seq<Seq<char>>,
    es: Seq<CalleeEntry>,
) -> bool
    decreases depth,
{
    if depth <= 0 || in_views(visited, target) {
        es.len() == 0
    } else {
        let kk = az.threads@.len() as int;
        let row_total = az_adj_any_upto(az, target, false, kk);
        &&& es.len() <= limit
        &&& forall|k1: int, k2: int|
            0 <= k1 < k2 < es.len() ==> (#[trigger] es[k1]).call_count >= (
            #[trigger] es[k2]).call_count
        &&& forall|k1: int, k2: int|
            0 <= k1 < es.len() && 0 <= k2 < es.len() && k1 != k2 ==> (#[trigger] es[k1]).name@ != (
            #[trigger] es[k2]).name@
        &&& forall|k: int|
            0 <= k < es.len() ==> {
                let e = #[trigger] es[k];
                &&& e.call_count == az_adj_upto(az, target, e.name@, false, kk)
                &&& e.call_count > 0
                &&& e.percent == crate::percent::pct_spec(e.call_count as int, row_total)
                &&& callee_entries_ok(az, e.name@, depth - 1, limit, visited.push(target), e.callees@)
            }
        &&& forall|other: Seq<char>|
            #[trigger] az_adj_upto(az, target, other, false, kk) > 0 && (forall|k: int|
                0 <= k < es.len() ==> (#[trigger] es[k]).name@ != other) ==> es.len() == limit && (
            forall|k: int|
                0 <= k < es.len() ==> (#[trigger] es[k]).call_count >= az_adj_upto(
                    az,
                    target,
                    other,
                    false,
                    kk,
                ))
        &&& 0 <= callee_pct_sum(es) <= 10000
    }
}

/// Decorates the positive-weight cells of a row as `(weight, index)` pairs
/// and sorts them descending; indices are distinct and stay valid.
pub fn sorted_positive_pairs(row_names: &Vec<String>, row_weights: &Vec<i64>) -> (pairs: Vec<
    (i64, usize),
>)
    requires
        crate::aggregate::distinct_names(row_names@),
        row_weights@.len() == row_names@.len(),
        forall|i: int| 0 <= i < row_weights@.len() ==> #[trigger] row_weights@[i] >= 0,
    ensures
        crate::sort::sorted_desc(pairs@),
        crate::sort::sum_keys(pairs@) == sum_i64(row_weights@),
        forall|m: int|
            0 <= m < pairs@.len() ==> {
                let pr = #[trigger] pairs@[m];
                &&& (pr.1 as int) < row_names@.len()
                &&& pr.0 == row_weights@[pr.1 as int]
                &&& pr.0 > 0
            },
        forall|m1: int, m2: int|
            0 <= m1 < pairs@.len() && 0 <= m2 < pairs@.len() && m1 != m2 ==> (
            #[trigger] pairs@[m1]).1 != (#[trigger] pairs@[m2]).1,
        forall|jj: int|
            0 <= jj < row_weights@.len() && row_weights@[jj] > 0 ==> exists|m: int|
                0 <= m < pairs@.len() && (#[trigger] pairs@[m]) == (row_weights@[jj], jj as usize),
{
    let mut pairs: Vec<(i64, usize)> = Vec::new();
    let mut j: usize = 0;
    while j < row_names.len()
        invariant
            row_weights@.len() == row_names@.len(),
            0 <= j <= row_names@.len(),
            forall|i: int| 0 <= i < row_weights@.len() ==> #[trigger] row_weights@[i] >= 0,
            crate::sort::sum_keys(pairs@) == crate::model::raw_weight_sum(row_weights@, j as int),
            forall|m: int|
                0 <= m < pairs@.len() ==> {
                    let pr = #[trigger] pairs@[m];
                    &&& (pr.1 as int) < j
                    &&& pr.0 == row_weights@[pr.1 as int]
                    &&& pr.0 > 0
                },
            forall|m1: int, m2: int|
                0 <= m1 < m2 < pairs@.len() ==> (#[trigger] pairs@[m1]).1 != (
                #[trigger] pairs@[m2]).1,
            forall|jj: int|
                0 <= jj < j && row_weights@[jj] > 0 ==> exists|m: int|
                    0 <= m < pairs@.len() && (#[trigger] pairs@[m]) == (
                    row_weights@[jj],
                    jj as usize,
                    ),
        decreases row_names@.len() - j,
    {
        let w = row_weights[j];
        if w > 0 {
            let ghost pairs0 = pairs@;
            pairs.push((w, j));
            proof {
                assert(pairs@[pairs0.len() as int] == (row_weights@[j as int], j));
                assert(pairs@.drop_last() =~= pairs0);
                assert(pairs@.last() == (row_weights@[j as int], j));
                assert forall|jj: int| 0 <= jj < j + 1 && row_weights@[jj] > 0 implies exists|m: int|
                    0 <= m < pairs@.len() && (#[trigger] pairs@[m]) == (
                    row_weights@[jj],
                    jj as usize,
                    ) by {
                    if jj < j {
                        let m0 = choose|m: int|
                            0 <= m < pairs0.len() && (#[trigger] pairs0[m]) == (
                            row_weights@[jj],
                            jj as usize,
                            );
                        assert(pairs@[m0] == (row_weights@[jj], jj as usize));
                    } else {
                        assert(pairs@[pairs0.len() as int] == (row_weights@[jj], jj as usize));
                    }
                }
            }
        }
        j = j + 1;
    }
    let ghost unsorted = pairs@;
    crate::sort::sort_pairs_desc(&mut pairs);
    proof {
        broadcast use vstd::seq_lib::group_to_multiset_ensures;

        assert forall|m: int| 0 <= m < pairs@.len() implies {
            let pr = #[trigger] pairs@[m];
            &&& (pr.1 as int) < row_names@.len()
            &&& pr.0 == row_weights@[pr.1 as int]
            &&& pr.0 > 0
        } by {
            assert(pairs@.contains(pairs@[m]));
            assert(pairs@.to_multiset().count(pairs@[m]) > 0);
            assert(unsorted.contains(pairs@[m]));
            let m0 = choose|m0: int| 0 <= m0 < unsorted.len() && unsorted[m0] == pairs@[m];
            assert(unsorted[m0] == pairs@[m]);
        }
        assert(unsorted.no_duplicates()) by {
            assert forall|m1: int, m2: int|
                0 <= m1 < unsorted.len() && 0 <= m2 < unsorted.len() && m1 != m2 implies
            unsorted[m1] != unsorted[m2] by {
                assert(unsorted[m1].1 != unsorted[m2].1);
            }
        }
        unsorted.lemma_multiset_has_no_duplicates();
        pairs@.lemma_multiset_has_no_duplicates_conv();
        assert forall|m1: int, m2: int|
            0 <= m1 < pairs@.len() && 0 <= m2 < pairs@.len() && m1 != m2 implies (
        #[trigger] pairs@[m1]).1 != (#[trigger] pairs@[m2]).1 by {
            if pairs@[m1] == pairs@[m2] {
                assert(pairs@.no_duplicates());
                assert(false);
            } else {
                assert(pairs@[m1].0 == row_weights@[pairs@[m1].1 as int]);
                assert(pairs@[m2].0 == row_weights@[pairs@[m2].1 as int]);
            }
        }
        assert forall|jj: int|
            0 <= jj < row_weights@.len() && row_weights@[jj] > 0 implies exists|m: int|
                0 <= m < pairs@.len() && (#[trigger] pairs@[m]) == (row_weights@[jj], jj as usize)
        by {
            let m0 = choose|m0: int|
                0 <= m0 < unsorted.len() && (#[trigger] unsorted[m0]) == (
                row_weights@[jj],
                jj as usize,
                );
            assert(unsorted.contains((row_weights@[jj], jj as usize)));
            assert(unsorted.to_multiset().count((row_weights@[jj], jj as usize)) > 0);
            assert(pairs@.to_multiset().count((row_weights@[jj], jj as usize)) > 0);
            assert(pairs@.contains((row_weights@[jj], jj as usize)));
            let m1 = choose|m1: int|
                0 <= m1 < pairs@.len() && pairs@[m1] == (row_weights@[jj], jj as usize);
            assert(pairs@[m1] == (row_weights@[jj], jj as usize));
        }
        crate::aggregate::lemma_prefix_sum_is_sum(row_weights@);
    }
    pairs
}

/// Expands the callers of `target`, depth levels deep, keeping at most
/// `limit` callers per level, with a path-local visited set for cycle
/// breaking.
pub fn build_caller_tree(
    az: &ProfileAnalyzer,
    target: &String,
    depth: usize,
    limit: usize,
    visited: &mut Vec<String>,
) -> (r: Vec<CallerEntry>)
    requires
        az.wf(),
    ensures
        final(visited)@ == old(visited)@,
        caller_entries_ok(
            *az,
            target@,
            depth as int,
            limit as int,
            views_of(old(visited)@),
            r@,
        ),
    decreases depth,
{
    if depth == 0 {
        return Vec::new();
    }
    match find_name(visited, target) {
        Some(j) => {
            proof {
                assert(views_of(visited@)[j as int] == visited@[j as int]@);
                assert(in_views(views_of(visited@), target@));
            }
            return Vec::new();
        },
        None => {
            proof {
                assert forall|j2: int| 0 <= j2 < views_of(visited@).len() implies views_of(
                    visited@,
                )[j2] != target@ by {
                    assert(views_of(visited@)[j2] == visited@[j2]@);
                }
                assert(!in_views(views_of(visited@), target@));
            }
        },
    }
    let ghost visited0 = visited@;
    let row = az.collect_adjacent(target, true);
    let pairs = sorted_positive_pairs(&row.names, &row.weights);
    visited.push(target.clone());
    let ghost vpushed = visited@;
    proof {
        assert(views_of(vpushed) =~= views_of(visited0).push(target@));
    }
    let mut out: Vec<CallerEntry> = Vec::new();
    let ghost mut cweights: Seq<i64> = Seq::empty();
    let mut k: usize = 0;
    while k < pairs.len() && k < limit
        invariant
            az.wf(),
            row_ok(row, *az, target@, true),
            cweights.len() == k,
            forall|m: int| 0 <= m < k ==> #[trigger] cweights[m] == pairs@[m].0,
            caller_pct_sum(out@) == crate::percent::sum_pct(cweights, row.total as int),
            sum_i64(cweights) == crate::sort::sum_keys(pairs@.take(k as int)),
            crate::sort::sorted_desc(pairs@),
            forall|m: int|
                0 <= m < pairs@.len() ==> {
                    let pr = #[trigger] pairs@[m];
                    &&& (pr.1 as int) < row.names@.len()
                    &&& pr.0 == row.weights@[pr.1 as int]
                    &&& pr.0 > 0
                },
            forall|m1: int, m2: int|
                0 <= m1 < pairs@.len() && 0 <= m2 < pairs@.len() && m1 != m2 ==> (
                #[trigger] pairs@[m1]).1 != (#[trigger] pairs@[m2]).1,
            visited@ == vpushed,
            views_of(vpushed) == views_of(visited0).push(target@),
            0 <= k <= pairs@.len(),
            k <= limit,
            out@.len() == k,
            depth >= 1,
            forall|m: int|
                0 <= m < k ==> {
                    let e = #[trigger] out@[m];
                    &&& e.name@ == row.names@[pairs@[m].1 as int]@
                    &&& e.call_count == pairs@[m].0
                    &&& e.call_count == az_adj_upto(
                        *az,
                        target@,
                        e.name@,
                        true,
                        az.threads@.len() as int,
                    )
                    &&& e.call_count > 0
                    &&& e.percent == crate::percent::pct_spec(
                        e.call_count as int,
                        az_adj_any_upto(*az, target@, true, az.threads@.len() as int),
                    )
                    &&& caller_entries_ok(
                        *az,
                        e.name@,
                        depth - 1,
                        limit as int,
                        views_of(visited0).push(target@),
                        e.callers@,
                    )
                },
        decreases pairs@.len() - k,
    {
        let (w, id) = pairs[k];
        let nm = row.names[id].clone();
        let pct = crate::percent::pct_hundredths(w, row.total);
        let sub = build_caller_tree(az, &nm, depth - 1, limit, visited);
        let ghost out0 = out@;
        let ghost cw0 = cweights;
        out.push(CallerEntry { name: nm, call_count: w, percent: pct, callers: sub });
        proof {
            cweights = cweights.push(w);
            assert(out@.drop_last() =~= out0);
            assert(cweights.drop_last() =~= cw0);
            assert(cweights.last() == w);
            assert(pairs@.take(k as int + 1).drop_last() =~= pairs@.take(k as int));
            assert(pairs@.take(k as int + 1).last() == pairs@[k as int]);
            crate::aggregate::lemma_sum_push(cw0, w);
        }
        k = k + 1;
    }
    proof {
        // Displayed sibling percentages stay within 100%: the taken weights
        // are part of the full row, whose sum is the percent normalizer.
        assert forall|i: int| 0 <= i < pairs@.len() implies (#[trigger] pairs@[i]).0 >= 0 by {}
        crate::sort::lemma_sum_keys_take(pairs@, k as int);
        assert(sum_i64(cweights) <= row.total);
        assert forall|i: int| 0 <= i < cweights.len() implies #[trigger] cweights[i] >= 0 by {
            assert(cweights[i] == pairs@[i].0);
        }
        crate::percent::lemma_sibling_percents_bounded(cweights, row.total as int);
    }
    let _popped = visited.pop();
    proof {
        assert(visited@ =~= visited0);
        broadcast use vstd::seq_lib::group_to_multiset_ensures;

        // Distinct entry names follow from distinct indices.
        assert forall|k1: int, k2: int|
            0 <= k1 < out@.len() && 0 <= k2 < out@.len() && k1 != k2 implies (
        #[trigger] out@[k1]).name@ != (#[trigger] out@[k2]).name@ by {
            assert(pairs@[k1].1 != pairs@[k2].1);
        }
        // Top-of-level completeness.
        assert forall|other: Seq<char>|
            #[trigger] az_adj_upto(*az, target@, other, true, az.threads@.len() as int) > 0 && (
        forall|k2: int| 0 <= k2 < out@.len() ==> (#[trigger] out@[k2]).name@ != other) implies
        out@.len() == limit && (forall|k2: int|
            0 <= k2 < out@.len() ==> (#[trigger] out@[k2]).call_count >= az_adj_upto(
                *az,
                target@,
                other,
                true,
                az.threads@.len() as int,
            )) by {
            if not_in_names(row.names@, other) {
                assert(false);
            }
            let jj = choose|jj: int|
                0 <= jj < row.names@.len() && (#[trigger] row.names@[jj])@ == other;
            assert(row.weights@[jj] == az_adj_upto(
                *az,
                target@,
                other,
                true,
                az.threads@.len() as int,
            ));
            assert(exists|m: int|
                0 <= m < pairs@.len() && (#[trigger] pairs@[m]) == (
                row.weights@[jj],
                jj as usize,
                ));
            let pos = choose|pos: int|
                0 <= pos < pairs@.len() && pairs@[pos] == (row.weights@[jj], jj as usize);
            if pos < out@.len() {
                assert(out@[pos].name@ == row.names@[pairs@[pos].1 as int]@);
                assert(false);
            }
            assert(out@.len() == limit);
            assert forall|k2: int| 0 <= k2 < out@.len() implies (#[trigger] out@[k2]).call_count
                >= az_adj_upto(*az, target@, other, true, az.threads@.len() as int) by {
                assert(out@[k2].call_count == pairs@[k2].0);
                assert(pairs@[k2].0 >= pairs@[pos].0);
            }
        }
        assert(!in_views(views_of(visited0), target@));
    }
    out
}

/// Expands the callees of `target`; the mirror of `build_caller_tree`.
pub fn build_callee_tree(
    az: &ProfileAnalyzer,
    target: &String,
    depth: usize,
    limit: usize,
    visited: &mut Vec<String>,
) -> (r: Vec<CalleeEntry>)
    requires
        az.wf(),
    ensures
        final(visited)@ == old(visited)@,
        callee_entries_ok(
            *az,
            target@,
            depth as int,
            limit as int,
            views_of(old(visited)@),
            r@,
        ),
    decreases depth,
{
    if depth == 0 {
        return Vec::new();
    }
    match find_name(visited, target) {
        Some(j) => {
            proof {
                assert(views_of(visited@)[j as int] == visited@[j as int]@);
                assert(in_views(views_of(visited@), target@));
            }
            return Vec::new();
        },
        None => {
            proof {
                assert forall|j2: int| 0 <= j2 < views_of(visited@).len() implies views_of(
                    visited@,
                )[j2] != target@ by {
                    assert(views_of(visited@)[j2] == visited@[j2]@);
                }
                assert(!in_views(views_of(visited@), target@));
            }
        },
    }
    let ghost visited0 = visited@;
    let row = az.collect_adjacent(target, false);
    let pairs = sorted_positive_pairs(&row.names, &row.weights);
    visited.push(target.clone());
    let ghost vpushed = visited@;
    proof {
        assert(views_of(vpushed) =~= views_of(visited0).push(target@));
    }
    let mut out: Vec<CalleeEntry> = Vec::new();
    let ghost mut cweights: Seq<i64> = Seq::empty();
    let mut k: usize = 0;
    while k < pairs.len() && k < limit
        invariant
            az.wf(),
            row_ok(row, *az, target@, false),
            cweights.len() == k,
            forall|m: int| 0 <= m < k ==> #[trigger] cweights[m] == pairs@[m].0,
            callee_pct_sum(out@) == crate::percent::sum_pct(cweights, row.total as int),
            sum_i64(cweights) == crate::sort::sum_keys(pairs@.take(k as int)),
            crate::sort::sorted_desc(pairs@),
            forall|m: int|
                0 <= m < pairs@.len() ==> {
                    let pr = #[trigger] pairs@[m];
                    &&& (pr.1 as int) < row.names@.len()
                    &&& pr.0 == row.weights@[pr.1 as int]
                    &&& pr.0 > 0
                },
            forall|m1: int, m2: int|
                0 <= m1 < pairs@.len() && 0 <= m2 < pairs@.len() && m1 != m2 ==> (
                #[trigger] pairs@[m1]).1 != (#[trigger] pairs@[m2]).1,
            visited@ == vpushed,
            views_of(vpushed) == views_of(visited0).push(target@),
            0 <= k <= pairs@.len(),
            k <= limit,
            out@.len() == k,
            depth >= 1,
            forall|m: int|
                0 <= m < k ==> {
                    let e = #[trigger] out@[m];
                    &&& e.name@ == row.names@[pairs@[m].1 as int]@
                    &&& e.call_count == pairs@[m].0
                    &&& e.call_count == az_adj_upto(
                        *az,
                        target@,
                        e.name@,
                        false,
                        az.threads@.len() as int,
                    )
                    &&& e.call_count > 0
                    &&& e.percent == crate::percent::pct_spec(
                        e.call_count as int,
                        az_adj_any_upto(*az, target@, false, az.threads@.len() as int),
                    )
                    &&& callee_entries_ok(
                        *az,
                        e.name@,
                        depth - 1,
                        limit as int,
                        views_of(visited0).push(target@),
                        e.callees@,
                    )
                },
        decreases pairs@.len() - k,
    {
        let (w, id) = pairs[k];
        let nm = row.names[id].clone();
        let pct = crate::percent::pct_hundredths(w, row.total);
        let sub = build_callee_tree(az, &nm, depth - 1, limit, visited);
        let ghost out0 = out@;
        let ghost cw0 = cweights;
        out.push(CalleeEntry { name: nm, call_count: w, percent: pct, callees: sub });
        proof {
            cweights = cweights.push(w);
            assert(out@.drop_last() =~= out0);
            assert(cweights.drop_last() =~= cw0);
            assert(cweights.last() == w);
            assert(pairs@.take(k as int + 1).drop_last() =~= pairs@.take(k as int));
            assert(pairs@.take(k as int + 1).last() == pairs@[k as int]);
            crate::aggregate::lemma_sum_push(cw0, w);
        }
        k = k + 1;
    }
    proof {
        // Displayed sibling percentages stay within 100%: the taken weights
        // are part of the full row, whose sum is the percent normalizer.
        assert forall|i: int| 0 <= i < pairs@.len() implies (#[trigger] pairs@[i]).0 >= 0 by {}
        crate::sort::lemma_sum_keys_take(pairs@, k as int);
        assert(sum_i64(cweights) <= row.total);
        assert forall|i: int| 0 <= i < cweights.len() implies #[trigger] cweights[i] >= 0 by {
            assert(cweights[i] == pairs@[i].0);
        }
        crate::percent::lemma_sibling_percents_bounded(cweights, row.total as int);
    }
    let _popped = visited.pop();
    proof {
        assert(visited@ =~= visited0);
        broadcast use vstd::seq_lib::group_to_multiset_ensures;

        assert forall|k1: int, k2: int|
            0 <= k1 < out@.len() && 0 <= k2 < out@.len() && k1 != k2 implies (
        #[trigger] out@[k1]).name@ != (#[trigger] out@[k2]).name@ by {
            assert(pairs@[k1].1 != pairs@[k2].1);
        }
        assert forall|other: Seq<char>|
            #[trigger] az_adj_upto(*az, target@, other, false, az.threads@.len() as int) > 0 && (
        forall|k2: int| 0 <= k2 < out@.len() ==> (#[trigger] out@[k2]).name@ != other) implies
        out@.len() == limit && (forall|k2: int|
            0 <= k2 < out@.len() ==> (#[trigger] out@[k2]).call_count >= az_adj_upto(
                *az,
                target@,
                other,
                false,
                az.threads@.len() as int,
            )) by {
            if not_in_names(row.names@, other) {
                assert(false);
            }
            let jj = choose|jj: int|
                0 <= jj < row.names@.len() && (#[trigger] row.names@[jj])@ == other;
            assert(row.weights@[jj] == az_adj_upto(
                *az,
                target@,
                other,
                false,
                az.threads@.len() as int,
            ));
            assert(exists|m: int|
                0 <= m < pairs@.len() && (#[trigger] pairs@[m]) == (
                row.weights@[jj],
                jj as usize,
                ));
            let pos = choose|pos: int|
                0 <= pos < pairs@.len() && pairs@[pos] == (row.weights@[jj], jj as usize);
            if pos < out@.len() {
                assert(out@[pos].name@ == row.names@[pairs@[pos].1 as int]@);
                assert(false);
            }
            assert(out@.len() == limit);
            assert forall|k2: int| 0 <= k2 < out@.len() implies (#[trigger] out@[k2]).call_count
                >= az_adj_upto(*az, target@, other, false, az.threads@.len() as int) by {
                assert(out@[k2].call_count == pairs@[k2].0);
                assert(pairs@[k2].0 >= pairs@[pos].0);
            }
        }
        assert(!in_views(views_of(visited0), target@));
    }
    out
}

/// Callers of a resolved function, as a tree.
pub struct CallersResponse {
    pub function: String,
    pub callers: Vec<CallerEntry>,
}

/// Callees of a resolved function, as a tree.
pub struct CalleesResponse {
    pub function: String,
    pub callees: Vec<CalleeEntry>,
}

impl ProfileAnalyzer {
    /// Resolves the pattern and expands the callers of the resolved
    /// function, `depth` levels deep with at most `limit` callers per level.
    pub fn find_callers(&self, function_pattern: &str, depth: usize, limit: usize) -> (r:
        CallersResponse)
        requires
            self.wf(),
        ensures
            crate::query::resolves_pattern(*self, function_pattern@, r.function@),
            caller_entries_ok(
                *self,
                r.function@,
                depth as int,
                limit as int,
                Seq::<Seq<char>>::empty(),
                r.callers@,
            ),
    {
        let target = self.find_matching_function(function_pattern);
        let mut visited: Vec<String> = Vec::new();
        let callers = build_caller_tree(self, &target, depth, limit, &mut visited);
        proof {
            assert(views_of(Seq::<String>::empty()) =~= Seq::<Seq<char>>::empty());
        }
        CallersResponse { function: target, callers }
    }

    /// Resolves the pattern and expands the callees of the resolved
    /// function, `depth` levels deep with at most `limit` callees per level.
    pub fn find_callees(&self, function_pattern: &str, depth: usize, limit: usize) -> (r:
        CalleesResponse)
        requires
            self.wf(),
        ensures
            crate::query::resolves_pattern(*self, function_pattern@, r.function@),
            callee_entries_ok(
                *self,
                r.function@,
                depth as int,
                limit as int,
                Seq::<Seq<char>>::empty(),
                r.callees@,
            ),
    {
        let target = self.find_matching_function(function_pattern);
        let mut visited: Vec<String> = Vec::new();
        let callees = build_callee_tree(self, &target, depth, limit, &mut visited);
        proof {
            assert(views_of(Seq::<String>::empty()) =~= Seq::<Seq<char>>::empty());
        }
        CalleesResponse { function: target, callees }
    }
}

} // verus!
