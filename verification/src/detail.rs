//! Per-line and per-address sample maps for one function.
//!
//! A sample's weight lands on the leaf frame's source line and sampled
//! address, keyed by the leaf's resolved function name.  These rows back the
//! hot-line and hot-address annotations of hotspot and drilldown responses;
//! each row entry carries its share of the function's own self time, in
//! hundredths of a percent.

use vstd::prelude::*;
use crate::aggregate::{
    az_self_upto, lemma_az_chain, lemma_az_mono, lemma_t_chain, lemma_t_mono, pair_fname,
    sample_stack, sample_weight, t_pass, t_self_upto, view_filter, walk_at,
};
use crate::model::{ProfileAnalyzer, ThreadData, MAX_TOTAL_WEIGHT};
use crate::percent::{pct_hundredths, pct_spec};
use crate::sort::{sort_pairs_desc, sorted_desc};
use crate::strutil::contains_substr;

verus! {

/// Line-keyed weight of `name`'s leaf samples over the first `n` samples:
/// those whose leaf resolves to `name` and whose leaf frame records `line`.
pub open spec fn t_line_upto(
    t: ThreadData,
    gs: Seq<String>,
    name: Seq<char>,
    line: u32,
    n: int,
) -> int
    decreases n,
{
    if n <= 0 {
        0
    } else {
        t_line_upto(t, gs, name, line, n - 1) + if sample_stack(t, n - 1) is Some && pair_fname(
            t,
            gs,
            walk_at(t, n - 1)[0],
        ) == name && t.frame_line_at(walk_at(t, n - 1)[0].1) == Some(line) {
            sample_weight(t, n - 1)
        } else {
            0
        }
    }
}

/// Line-keyed weight over the first `k` selected threads.
pub open spec fn az_line_upto(
    az: ProfileAnalyzer,
    filt: Option<Seq<char>>,
    name: Seq<char>,
    line: u32,
    k: int,
) -> int
    decreases k,
{
    if k <= 0 {
        0
    } else {
        az_line_upto(az, filt, name, line, k - 1) + if t_pass(az.threads@[k - 1], filt) {
            t_line_upto(
                az.threads@[k - 1],
                az.global_strings@,
                name,
                line,
                az.threads@[k - 1].samples@.len() as int,
            )
        } else {
            0
        }
    }
}

/// The line-keyed weight is within the name's self time.
proof fn lemma_t_line_chain(t: ThreadData, gs: Seq<String>, name: Seq<char>, line: u32, n: int)
    requires
        t.wf(),
        0 <= n <= t.samples@.len(),
    ensures
        0 <= t_line_upto(t, gs, name, line, n) <= t_self_upto(t, gs, name, n),
    decreases n,
{
    if n > 0 {
        lemma_t_line_chain(t, gs, name, line, n - 1);
    }
}

/// Monotonicity of the per-thread line-keyed weight in the sample prefix.
proof fn lemma_t_line_mono(
    t: ThreadData,
    gs: Seq<String>,
    name: Seq<char>,
    line: u32,
    i: int,
    n: int,
)
    requires
        t.wf(),
        0 <= i <= n <= t.samples@.len(),
    ensures
        t_line_upto(t, gs, name, line, i) <= t_line_upto(t, gs, name, line, n),
    decreases n - i,
{
    if i < n {
        lemma_t_line_mono(t, gs, name, line, i, n - 1);
    }
}

/// The profile-level line-keyed weight is within the name's self time and
/// the supported bound.
proof fn lemma_az_line_chain(
    az: ProfileAnalyzer,
    filt: Option<Seq<char>>,
    name: Seq<char>,
    line: u32,
    k: int,
)
    requires
        az.wf(),
        0 <= k <= az.threads@.len(),
    ensures
        0 <= az_line_upto(az, filt, name, line, k) <= az_self_upto(az, filt, name, k),
        az_self_upto(az, filt, name, k) <= MAX_TOTAL_WEIGHT,
    decreases k,
{
    lemma_az_chain(az, filt, name, k);
    crate::aggregate::lemma_az_weight_prefix(az.threads@, k, az.threads@.len() as int);
    if k > 0 {
        lemma_az_line_chain(az, filt, name, line, k - 1);
        let t = az.threads@[k - 1];
        lemma_t_line_chain(t, az.global_strings@, name, line, t.samples@.len() as int);
        lemma_t_chain(t, az.global_strings@, name, t.samples@.len() as int);
    }
}

/// One hot source line of a function.
pub struct HotLine {
    pub line: u32,
    pub samples: i64,
    /// Hundredths of a percent of the function's own self time under the
    /// same thread filter.
    pub percent: u32,
}

/// Looks a line key up.
fn find_u32(keys: &Vec<u32>, x: u32) -> (r: Option<usize>)
    ensures
        match r {
            Some(j) => j < keys@.len() && keys@[j as int] == x,
            None => forall|j: int| 0 <= j < keys@.len() ==> keys@[j] != x,
        },
{
    let mut j: usize = 0;
    while j < keys.len()
        invariant
            0 <= j <= keys@.len(),
            forall|m: int| 0 <= m < j ==> keys@[m] != x,
        decreases keys@.len() - j,
    {
        if keys[j] == x {
            return Some(j);
        }
        j = j + 1;
    }
    None
}

impl ProfileAnalyzer {
    /// Collects the per-source-line weights of one function's leaf samples
    /// under the thread filter, sorted by weight descending; every line with
    /// positive weight is listed, each exactly once, with its share of the
    /// function's self time.
    pub fn hot_lines_for(&self, name: &String, thread_filter: Option<&str>) -> (r: Vec<HotLine>)
        requires
            self.wf(),
        ensures
            forall|m: int|
                0 <= m < r@.len() ==> (#[trigger] r@[m]).samples == az_line_upto(
                    *self,
                    view_filter(thread_filter),
                    name@,
                    r@[m].line,
                    self.threads@.len() as int,
                ) && r@[m].samples > 0 && r@[m].percent == pct_spec(
                    r@[m].samples as int,
                    az_self_upto(
                        *self,
                        view_filter(thread_filter),
                        name@,
                        self.threads@.len() as int,
                    ),
                ),
            forall|m1: int, m2: int|
                0 <= m1 < m2 < r@.len() ==> (#[trigger] r@[m1]).samples >= (
                #[trigger] r@[m2]).samples,
            forall|m1: int, m2: int|
                0 <= m1 < r@.len() && 0 <= m2 < r@.len() && m1 != m2 ==> (#[trigger] r@[m1]).line
                    != (#[trigger] r@[m2]).line,
            forall|line: u32|
                #[trigger] az_line_upto(
                    *self,
                    view_filter(thread_filter),
                    name@,
                    line,
                    self.threads@.len() as int,
                ) > 0 ==> exists|m: int| 0 <= m < r@.len() && (#[trigger] r@[m]).line == line,
    {
        let ghost nm = name@;
        let ghost gs = self.global_strings@;
        let ghost filt = view_filter(thread_filter);
        // The function's own self time under the same filter, for the
        // percentage normalization.
        let stats = self.aggregate_stats(thread_filter);
        let selfw: i64 = match crate::aggregate::find_name(&stats.names, name) {
            Some(j) => stats.self_w[j],
            None => {
                proof {
                    assert(az_self_upto(*self, filt, nm, self.threads@.len() as int) == 0);
                }
                0
            },
        };
        proof {
            assert(selfw == az_self_upto(*self, filt, nm, self.threads@.len() as int));
        }
        let mut keys: Vec<u32> = Vec::new();
        let mut weights: Vec<i64> = Vec::new();
        let mut ti: usize = 0;
        while ti < self.threads.len()
            invariant
                self.wf(),
                gs == self.global_strings@,
                nm == name@,
                filt == view_filter(thread_filter),
                0 <= ti <= self.threads@.len(),
                weights@.len() == keys@.len(),
                forall|j1: int, j2: int|
                    0 <= j1 < keys@.len() && 0 <= j2 < keys@.len() && j1 != j2 ==> keys@[j1]
                        != keys@[j2],
                forall|j: int|
                    0 <= j < keys@.len() ==> #[trigger] weights@[j] == az_line_upto(
                        *self,
                        filt,
                        nm,
                        keys@[j],
                        ti as int,
                    ),
                forall|line: u32| (forall|j: int| 0 <= j < keys@.len() ==> keys@[j] != line)
                    ==> #[trigger] az_line_upto(*self, filt, nm, line, ti as int) == 0,
            decreases self.threads@.len() - ti,
        {
            let t = &self.threads[ti];
            let pass = match thread_filter {
                None => true,
                Some(f) => contains_substr(t.name.as_str(), f),
            };
            proof {
                assert(pass == t_pass(self.threads@[ti as int], filt));
            }
            if pass {
                proof {
                    assert forall|line: u32| (forall|j: int|
                        0 <= j < keys@.len() ==> keys@[j] != line) implies #[trigger] t_line_upto(
                        *t,
                        gs,
                        nm,
                        line,
                        0,
                    ) == 0 by {
                    }
                }
                let mut si: usize = 0;
                while si < t.samples.len()
                    invariant
                        self.wf(),
                        gs == self.global_strings@,
                        nm == name@,
                        filt == view_filter(thread_filter),
                        0 <= ti < self.threads@.len(),
                        t == &self.threads@[ti as int],
                        t_pass(*t, filt),
                        0 <= si <= t.samples@.len(),
                        weights@.len() == keys@.len(),
                        forall|j1: int, j2: int|
                            0 <= j1 < keys@.len() && 0 <= j2 < keys@.len() && j1 != j2
                                ==> keys@[j1] != keys@[j2],
                        forall|j: int|
                            0 <= j < keys@.len() ==> #[trigger] weights@[j] == az_line_upto(
                                *self,
                                filt,
                                nm,
                                keys@[j],
                                ti as int,
                            ) + t_line_upto(*t, gs, nm, keys@[j], si as int),
                        forall|line: u32| (forall|j: int| 0 <= j < keys@.len() ==> keys@[j] != line)
                            ==> #[trigger] az_line_upto(*self, filt, nm, line, ti as int) == 0,
                        forall|line: u32| (forall|j: int| 0 <= j < keys@.len() ==> keys@[j] != line)
                            ==> #[trigger] t_line_upto(*t, gs, nm, line, si as int) == 0,
                    decreases t.samples@.len() - si,
                {
                    let ghost sii = si as int;
                    let (stack_opt, w) = t.samples[si];
                    if let Some(stack_idx) = stack_opt {
                        let walk = t.walk_stack(stack_idx);
                        proof {
                            assert(walk@ == walk_at(*t, sii));
                        }
                        let leaf = walk[0];
                        let leaf_name = t.get_func_name(leaf.0, &self.global_strings);
                        proof {
                            assert(leaf_name@ == pair_fname(*t, gs, walk_at(*t, sii)[0]));
                        }
                        if crate::strutil::str_eq(leaf_name.as_str(), name.as_str()) {
                            if let Some(line) = t.get_frame_line(leaf.1) {
                                let ghost keys0 = keys@;
                                let id = match find_u32(&keys, line) {
                                    Some(j) => j,
                                    None => {
                                        proof {
                                            assert(az_line_upto(*self, filt, nm, line, ti as int)
                                                == 0);
                                            assert(t_line_upto(*t, gs, nm, line, sii) == 0);
                                        }
                                        keys.push(line);
                                        weights.push(0);
                                        keys.len() - 1
                                    },
                                };
                                proof {
                                    assert(keys@[id as int] == line);
                                    assert(keys0.len() <= keys@.len());
                                    assert(forall|j: int|
                                        0 <= j < keys0.len() ==> keys@[j] == keys0[j]);
                                    assert(weights@.len() == keys@.len());
                                    assert forall|j1: int, j2: int|
                                        0 <= j1 < keys@.len() && 0 <= j2 < keys@.len() && j1 != j2
                                        implies keys@[j1] != keys@[j2] by {
                                        if j1 < keys0.len() && j2 < keys0.len() {
                                            assert(keys0[j1] != keys0[j2]);
                                        }
                                    }
                                    assert forall|j: int| 0 <= j < keys@.len() implies #[trigger]
                                    weights@[j] == az_line_upto(*self, filt, nm, keys@[j], ti as int)
                                        + t_line_upto(*t, gs, nm, keys@[j], sii) by {
                                        if j >= keys0.len() {
                                            assert(az_line_upto(*self, filt, nm, keys@[j], ti as int)
                                                == 0);
                                            assert(t_line_upto(*t, gs, nm, keys@[j], sii) == 0);
                                        }
                                    }
                                    lemma_t_line_mono(*t, gs, nm, line, sii + 1, t.samples@.len() as int);
                                    lemma_t_line_chain(*t, gs, nm, line, sii);
                                    lemma_az_line_chain(*self, filt, nm, line, ti as int);
                                    lemma_az_line_chain(*self, filt, nm, line, ti as int + 1);
                                    lemma_az_chain(*self, filt, nm, ti as int);
                                    lemma_az_chain(*self, filt, nm, self.threads@.len() as int);
                                    lemma_az_mono(
                                        *self,
                                        filt,
                                        nm,
                                        ti as int + 1,
                                        self.threads@.len() as int,
                                    );
                                    lemma_t_chain(*t, gs, nm, sii);
                                    lemma_t_mono(*t, gs, nm, sii + 1, t.samples@.len() as int);
                                    assert(az_line_upto(*self, filt, nm, line, ti as int + 1)
                                        <= az_self_upto(*self, filt, nm, ti as int + 1));
                                    assert(t_line_upto(*t, gs, nm, line, sii + 1) == t_line_upto(
                                        *t,
                                        gs,
                                        nm,
                                        line,
                                        sii,
                                    ) + w);
                                }
                                let cur = weights[id];
                                weights[id] = cur + w;
                                proof {
                                    assert forall|j: int| 0 <= j < keys@.len() implies #[trigger]
                                    weights@[j] == az_line_upto(*self, filt, nm, keys@[j], ti as int)
                                        + t_line_upto(*t, gs, nm, keys@[j], sii + 1) by {
                                        if j != id {
                                            assert(keys@[j] != line);
                                            assert(t_line_upto(*t, gs, nm, keys@[j], sii + 1)
                                                == t_line_upto(*t, gs, nm, keys@[j], sii));
                                        }
                                    }
                                    assert forall|line2: u32| (forall|j: int|
                                        0 <= j < keys@.len() ==> keys@[j] != line2) implies
                                    #[trigger] az_line_upto(*self, filt, nm, line2, ti as int)
                                        == 0 by {
                                        assert forall|j: int|
                                            0 <= j < keys0.len() implies keys0[j] != line2 by {
                                            assert(keys@[j] == keys0[j]);
                                            assert(keys@[j] != line2);
                                        }
                                    }
                                    assert forall|line2: u32| (forall|j: int|
                                        0 <= j < keys@.len() ==> keys@[j] != line2) implies
                                    #[trigger] t_line_upto(*t, gs, nm, line2, sii + 1) == 0 by {
                                        assert forall|j: int|
                                            0 <= j < keys0.len() implies keys0[j] != line2 by {
                                            assert(keys@[j] == keys0[j]);
                                            assert(keys@[j] != line2);
                                        }
                                        assert(t_line_upto(*t, gs, nm, line2, sii) == 0);
                                        assert(keys@[id as int] != line2);
                                        assert(line2 != line);
                                    }
                                }
                            } else {
                                proof {
                                    lemma_line_step_nothing(*self, *t, gs, nm, keys@, weights@, filt, ti as int, sii);
                                }
                            }
                        } else {
                            proof {
                                lemma_line_step_nothing(*self, *t, gs, nm, keys@, weights@, filt, ti as int, sii);
                            }
                        }
                    } else {
                        proof {
                            lemma_line_step_nothing(*self, *t, gs, nm, keys@, weights@, filt, ti as int, sii);
                        }
                    }
                    si = si + 1;
                }
                proof {
                    assert forall|j: int| 0 <= j < keys@.len() implies #[trigger] weights@[j]
                        == az_line_upto(*self, filt, nm, keys@[j], ti as int + 1) by {
                        assert(weights@[j] == az_line_upto(*self, filt, nm, keys@[j], ti as int)
                            + t_line_upto(*t, gs, nm, keys@[j], t.samples@.len() as int));
                    }
                    assert forall|line: u32| (forall|j: int|
                        0 <= j < keys@.len() ==> keys@[j] != line) implies #[trigger] az_line_upto(
                        *self,
                        filt,
                        nm,
                        line,
                        ti as int + 1,
                    ) == 0 by {
                        assert(az_line_upto(*self, filt, nm, line, ti as int) == 0);
                        assert(t_line_upto(*t, gs, nm, line, t.samples@.len() as int) == 0);
                        assert(az_line_upto(*self, filt, nm, line, ti as int + 1) == az_line_upto(
                            *self,
                            filt,
                            nm,
                            line,
                            ti as int,
                        ) + t_line_upto(*t, gs, nm, line, t.samples@.len() as int));
                    }
                }
            } else {
                proof {
                    assert forall|j: int| 0 <= j < keys@.len() implies #[trigger] weights@[j]
                        == az_line_upto(*self, filt, nm, keys@[j], ti as int + 1) by {
                        assert(weights@[j] == az_line_upto(*self, filt, nm, keys@[j], ti as int));
                    }
                    assert forall|line: u32| (forall|j: int|
                        0 <= j < keys@.len() ==> keys@[j] != line) implies #[trigger] az_line_upto(
                        *self,
                        filt,
                        nm,
                        line,
                        ti as int + 1,
                    ) == 0 by {
                        assert(az_line_upto(*self, filt, nm, line, ti as int) == 0);
                    }
                }
            }
            ti = ti + 1;
        }
        // Decorate, sort and rebuild with the self-time shares.
        let mut pairs: Vec<(i64, usize)> = Vec::new();
        let mut j: usize = 0;
        while j < keys.len()
            invariant
                weights@.len() == keys@.len(),
                0 <= j <= keys@.len(),
                forall|m: int|
                    0 <= m < pairs@.len() ==> {
                        let pr = #[trigger] pairs@[m];
                        &&& (pr.1 as int) < j
                        &&& pr.0 == weights@[pr.1 as int]
                        &&& pr.0 > 0
                    },
                forall|m1: int, m2: int|
                    0 <= m1 < m2 < pairs@.len() ==> (#[trigger] pairs@[m1]).1 != (
                    #[trigger] pairs@[m2]).1,
                forall|jj: int|
                    0 <= jj < j && weights@[jj] > 0 ==> exists|m: int|
                        0 <= m < pairs@.len() && (#[trigger] pairs@[m]) == (
                        weights@[jj],
                        jj as usize,
                        ),
            decreases keys@.len() - j,
        {
            let w = weights[j];
            if w > 0 {
                let ghost pairs0 = pairs@;
                pairs.push((w, j));
                proof {
                    assert(pairs@[pairs0.len() as int] == (weights@[j as int], j));
                    assert forall|jj: int| 0 <= jj < j + 1 && weights@[jj] > 0 implies exists|m: int|
                        0 <= m < pairs@.len() && (#[trigger] pairs@[m]) == (
                        weights@[jj],
                        jj as usize,
                        ) by {
                        if jj < j {
                            let m0 = choose|m: int|
                                0 <= m < pairs0.len() && (#[trigger] pairs0[m]) == (
                                weights@[jj],
                                jj as usize,
                                );
                            assert(pairs@[m0] == (weights@[jj], jj as usize));
                        } else {
                            assert(pairs@[pairs0.len() as int] == (weights@[jj], jj as usize));
                        }
                    }
                }
            }
            j = j + 1;
        }
        let ghost unsorted = pairs@;
        sort_pairs_desc(&mut pairs);
        proof {
            broadcast use vstd::seq_lib::group_to_multiset_ensures;

            assert forall|m: int| 0 <= m < pairs@.len() implies {
                let pr = #[trigger] pairs@[m];
                &&& (pr.1 as int) < keys@.len()
                &&& pr.0 == weights@[pr.1 as int]
                &&& pr.0 > 0
            } by {
                assert(pairs@.contains(pairs@[m]));
                assert(pairs@.to_multiset().count(pairs@[m]) > 0);
                assert(unsorted.contains(pairs@[m]));
                let m0 = choose|m0: int| 0 <= m0 < unsorted.len() && unsorted[m0] == pairs@[m];
                assert(unsorted[m0] == pairs@[m]);
            }
            assert(unsorted.no_duplicates()) by {
                assert forall|m1: int, m2: int|
                    0 <= m1 < unsorted.len() && 0 <= m2 < unsorted.len() && m1 != m2 implies
                unsorted[m1] != unsorted[m2] by {
                    assert(unsorted[m1].1 != unsorted[m2].1);
                }
            }
            unsorted.lemma_multiset_has_no_duplicates();
            pairs@.lemma_multiset_has_no_duplicates_conv();
            assert forall|m1: int, m2: int|
                0 <= m1 < pairs@.len() && 0 <= m2 < pairs@.len() && m1 != m2 implies (
            #[trigger] pairs@[m1]).1 != (#[trigger] pairs@[m2]).1 by {
                if pairs@[m1] == pairs@[m2] {
                    assert(pairs@.no_duplicates());
                    assert(false);
                } else {
                    assert(pairs@[m1].0 == weights@[pairs@[m1].1 as int]);
                    assert(pairs@[m2].0 == weights@[pairs@[m2].1 as int]);
                }
            }
        }
        let mut out: Vec<HotLine> = Vec::new();
        let mut m: usize = 0;
        while m < pairs.len()
            invariant
                self.wf(),
                nm == name@,
                filt == view_filter(thread_filter),
                selfw == az_self_upto(*self, filt, nm, self.threads@.len() as int),
                weights@.len() == keys@.len(),
                sorted_desc(pairs@),
                forall|m2: int|
                    0 <= m2 < pairs@.len() ==> {
                        let pr = #[trigger] pairs@[m2];
                        &&& (pr.1 as int) < keys@.len()
                        &&& pr.0 == weights@[pr.1 as int]
                        &&& pr.0 > 0
                    },
                forall|m1: int, m2: int|
                    0 <= m1 < pairs@.len() && 0 <= m2 < pairs@.len() && m1 != m2 ==> (
                    #[trigger] pairs@[m1]).1 != (#[trigger] pairs@[m2]).1,
                forall|j1: int, j2: int|
                    0 <= j1 < keys@.len() && 0 <= j2 < keys@.len() && j1 != j2 ==> keys@[j1]
                        != keys@[j2],
                forall|j: int|
                    0 <= j < keys@.len() ==> #[trigger] weights@[j] == az_line_upto(
                        *self,
                        filt,
                        nm,
                        keys@[j],
                        self.threads@.len() as int,
                    ),
                0 <= m <= pairs@.len(),
                out@.len() == m,
                forall|m2: int|
                    0 <= m2 < m ==> {
                        let e = #[trigger] out@[m2];
                        &&& e.line == keys@[pairs@[m2].1 as int]
                        &&& e.samples == pairs@[m2].0
                        &&& e.percent == pct_spec(
                            e.samples as int,
                            az_self_upto(*self, filt, nm, self.threads@.len() as int),
                        )
                    },
            decreases pairs@.len() - m,
        {
            let (w, id) = pairs[m];
            let pc = pct_hundredths(w, selfw);
            out.push(HotLine { line: keys[id], samples: w, percent: pc });
            m = m + 1;
        }
        proof {
            assert forall|m1: int, m2: int|
                0 <= m1 < out@.len() && 0 <= m2 < out@.len() && m1 != m2 implies (
            #[trigger] out@[m1]).line != (#[trigger] out@[m2]).line by {
                assert(pairs@[m1].1 != pairs@[m2].1);
            }
            broadcast use vstd::seq_lib::group_to_multiset_ensures;

            assert forall|line: u32|
                #[trigger] az_line_upto(*self, filt, nm, line, self.threads@.len() as int) > 0
                implies exists|m2: int| 0 <= m2 < out@.len() && (#[trigger] out@[m2]).line == line
            by {
                if forall|j2: int| 0 <= j2 < keys@.len() ==> keys@[j2] != line {
                    assert(false);
                }
                let jj = choose|jj: int| 0 <= jj < keys@.len() && keys@[jj] == line;
                assert(weights@[jj] == az_line_upto(
                    *self,
                    filt,
                    nm,
                    line,
                    self.threads@.len() as int,
                ));
                assert(exists|m0: int|
                    0 <= m0 < unsorted.len() && (#[trigger] unsorted[m0]) == (
                    weights@[jj],
                    jj as usize,
                    ));
                assert(unsorted.contains((weights@[jj], jj as usize)));
                assert(unsorted.to_multiset().count((weights@[jj], jj as usize)) > 0);
                assert(pairs@.to_multiset().count((weights@[jj], jj as usize)) > 0);
                assert(pairs@.contains((weights@[jj], jj as usize)));
                let pos = choose|pos: int|
                    0 <= pos < pairs@.len() && pairs@[pos] == (weights@[jj], jj as usize);
                assert(out@[pos].line == line);
            }
        }
        out
    }
}

/// The per-sample step adds nothing when the sample misses the name or
/// carries no line.
proof fn lemma_line_step_nothing(
    az: ProfileAnalyzer,
    t: ThreadData,
    gs: Seq<String>,
    nm: Seq<char>,
    keys: Seq<u32>,
    weights: Seq<i64>,
    filt: Option<Seq<char>>,
    ti: int,
    sii: int,
)
    requires
        0 <= sii < t.samples@.len(),
        sample_stack(t, sii) is None || pair_fname(t, gs, walk_at(t, sii)[0]) != nm || (
        sample_stack(t, sii) is Some && t.frame_line_at(walk_at(t, sii)[0].1) is None),
        weights.len() == keys.len(),
        forall|j: int|
            0 <= j < keys.len() ==> #[trigger] weights[j] == az_line_upto(az, filt, nm, keys[j], ti)
                + t_line_upto(t, gs, nm, keys[j], sii),
        forall|line: u32| (forall|j: int| 0 <= j < keys.len() ==> keys[j] != line)
            ==> #[trigger] t_line_upto(t, gs, nm, line, sii) == 0,
    ensures
        forall|j: int|
            0 <= j < keys.len() ==> #[trigger] weights[j] == az_line_upto(az, filt, nm, keys[j], ti)
                + t_line_upto(t, gs, nm, keys[j], sii + 1),
        forall|line: u32| (forall|j: int| 0 <= j < keys.len() ==> keys[j] != line)
            ==> #[trigger] t_line_upto(t, gs, nm, line, sii + 1) == 0,
{
    assert forall|line: u32| #[trigger] t_line_upto(t, gs, nm, line, sii + 1) == t_line_upto(
        t,
        gs,
        nm,
        line,
        sii,
    ) by {
    }
}

/// Address-keyed weight of `name`'s leaf samples over the first `n` samples:
/// those whose leaf resolves to `name` and whose leaf frame records `addr`.
pub open spec fn t_addr_upto(
    t: ThreadData,
    gs: Seq<String>,
    name: Seq<char>,
    addr: u64,
    n: int,
) -> int
    decreases n,
{
    if n <= 0 {
        0
    } else {
        t_addr_upto(t, gs, name, addr, n - 1) + if sample_stack(t, n - 1) is Some && pair_fname(
            t,
            gs,
            walk_at(t, n - 1)[0],
        ) == name && t.frame_address_at(walk_at(t, n - 1)[0].1) == Some(addr) {
            sample_weight(t, n - 1)
        } else {
            0
        }
    }
}

/// Address-keyed weight over the first `k` selected threads.
pub open spec fn az_addr_upto(
    az: ProfileAnalyzer,
    filt: Option<Seq<char>>,
    name: Seq<char>,
    addr: u64,
    k: int,
) -> int
    decreases k,
{
    if k <= 0 {
        0
    } else {
        az_addr_upto(az, filt, name, addr, k - 1) + if t_pass(az.threads@[k - 1], filt) {
            t_addr_upto(
                az.threads@[k - 1],
                az.global_strings@,
                name,
                addr,
                az.threads@[k - 1].samples@.len() as int,
            )
        } else {
            0
        }
    }
}

/// The address-keyed weight is within the name's self time.
proof fn lemma_t_addr_chain(t: ThreadData, gs: Seq<String>, name: Seq<char>, addr: u64, n: int)
    requires
        t.wf(),
        0 <= n <= t.samples@.len(),
    ensures
        0 <= t_addr_upto(t, gs, name, addr, n) <= t_self_upto(t, gs, name, n),
    decreases n,
{
    if n > 0 {
        lemma_t_addr_chain(t, gs, name, addr, n - 1);
    }
}

/// Monotonicity of the per-thread address-keyed weight in the sample prefix.
proof fn lemma_t_addr_mono(
    t: ThreadData,
    gs: Seq<String>,
    name: Seq<char>,
    addr: u64,
    i: int,
    n: int,
)
    requires
        t.wf(),
        0 <= i <= n <= t.samples@.len(),
    ensures
        t_addr_upto(t, gs, name, addr, i) <= t_addr_upto(t, gs, name, addr, n),
    decreases n - i,
{
    if i < n {
        lemma_t_addr_mono(t, gs, name, addr, i, n - 1);
    }
}

/// The profile-level address-keyed weight is within the name's self time and
/// the supported bound.
proof fn lemma_az_addr_chain(
    az: ProfileAnalyzer,
    filt: Option<Seq<char>>,
    name: Seq<char>,
    addr: u64,
    k: int,
)
    requires
        az.wf(),
        0 <= k <= az.threads@.len(),
    ensures
        0 <= az_addr_upto(az, filt, name, addr, k) <= az_self_upto(az, filt, name, k),
        az_self_upto(az, filt, name, k) <= MAX_TOTAL_WEIGHT,
    decreases k,
{
    lemma_az_chain(az, filt, name, k);
    crate::aggregate::lemma_az_weight_prefix(az.threads@, k, az.threads@.len() as int);
    if k > 0 {
        lemma_az_addr_chain(az, filt, name, addr, k - 1);
        let t = az.threads@[k - 1];
        lemma_t_addr_chain(t, az.global_strings@, name, addr, t.samples@.len() as int);
        lemma_t_chain(t, az.global_strings@, name, t.samples@.len() as int);
    }
}

/// One hot sampled address of a function.
pub struct HotAddress {
    pub address: u64,
    pub samples: i64,
    /// Hundredths of a percent of the function's own self time under the
    /// same thread filter.
    pub percent: u32,
}

/// Looks an address key up.
fn find_u64(keys: &Vec<u64>, x: u64) -> (r: Option<usize>)
    ensures
        match r {
            Some(j) => j < keys@.len() && keys@[j as int] == x,
            None => forall|j: int| 0 <= j < keys@.len() ==> keys@[j] != x,
        },
{
    let mut j: usize = 0;
    while j < keys.len()
        invariant
            0 <= j <= keys@.len(),
            forall|m: int| 0 <= m < j ==> keys@[m] != x,
        decreases keys@.len() - j,
    {
        if keys[j] == x {
            return Some(j);
        }
        j = j + 1;
    }
    None
}

impl ProfileAnalyzer {
    /// Collects the per-address weights of one function's leaf samples
    /// under the thread filter, sorted by weight descending; every address with
    /// positive weight is listed, each exactly once, with its share of the
    /// function's self time.
    pub fn hot_addresses_for(&self, name: &String, thread_filter: Option<&str>) -> (r: Vec<HotAddress>)
        requires
            self.wf(),
        ensures
            forall|m: int|
                0 <= m < r@.len() ==> (#[trigger] r@[m]).samples == az_addr_upto(
                    *self,
                    view_filter(thread_filter),
                    name@,
                    r@[m].address,
                    self.threads@.len() as int,
                ) && r@[m].samples > 0 && r@[m].percent == pct_spec(
                    r@[m].samples as int,
                    az_self_upto(
                        *self,
                        view_filter(thread_filter),
                        name@,
                        self.threads@.len() as int,
                    ),
                ),
            forall|m1: int, m2: int|
                0 <= m1 < m2 < r@.len() ==> (#[trigger] r@[m1]).samples >= (
                #[trigger] r@[m2]).samples,
            forall|m1: int, m2: int|
                0 <= m1 < r@.len() && 0 <= m2 < r@.len() && m1 != m2 ==> (#[trigger] r@[m1]).address
                    != (#[trigger] r@[m2]).address,
            forall|addr: u64|
                #[trigger] az_addr_upto(
                    *self,
                    view_filter(thread_filter),
                    name@,
                    addr,
                    self.threads@.len() as int,
                ) > 0 ==> exists|m: int| 0 <= m < r@.len() && (#[trigger] r@[m]).address == addr,
    {
        let ghost nm = name@;
        let ghost gs = self.global_strings@;
        let ghost filt = view_filter(thread_filter);
        // The function's own self time under the same filter, for the
        // percentage normalization.
        let stats = self.aggregate_stats(thread_filter);
        let selfw: i64 = match crate::aggregate::find_name(&stats.names, name) {
            Some(j) => stats.self_w[j],
            None => {
                proof {
                    assert(az_self_upto(*self, filt, nm, self.threads@.len() as int) == 0);
                }
                0
            },
        };
        proof {
            assert(selfw == az_self_upto(*self, filt, nm, self.threads@.len() as int));
        }
        let mut keys: Vec<u64> = Vec::new();
        let mut weights: Vec<i64> = Vec::new();
        let mut ti: usize = 0;
        while ti < self.threads.len()
            invariant
                self.wf(),
                gs == self.global_strings@,
                nm == name@,
                filt == view_filter(thread_filter),
                0 <= ti <= self.threads@.len(),
                weights@.len() == keys@.len(),
                forall|j1: int, j2: int|
                    0 <= j1 < keys@.len() && 0 <= j2 < keys@.len() && j1 != j2 ==> keys@[j1]
                        != keys@[j2],
                forall|j: int|
                    0 <= j < keys@.len() ==> #[trigger] weights@[j] == az_addr_upto(
                        *self,
                        filt,
                        nm,
                        keys@[j],
                        ti as int,
                    ),
                forall|addr: u64| (forall|j: int| 0 <= j < keys@.len() ==> keys@[j] != addr)
                    ==> #[trigger] az_addr_upto(*self, filt, nm, addr, ti as int) == 0,
            decreases self.threads@.len() - ti,
        {
            let t = &self.threads[ti];
            let pass = match thread_filter {
                None => true,
                Some(f) => contains_substr(t.name.as_str(), f),
            };
            proof {
                assert(pass == t_pass(self.threads@[ti as int], filt));
            }
            if pass {
                proof {
                    assert forall|addr: u64| (forall|j: int|
                        0 <= j < keys@.len() ==> keys@[j] != addr) implies #[trigger] t_addr_upto(
                        *t,
                        gs,
                        nm,
                        addr,
                        0,
                    ) == 0 by {
                    }
                }
                let mut si: usize = 0;
                while si < t.samples.len()
                    invariant
                        self.wf(),
                        gs == self.global_strings@,
                        nm == name@,
                        filt == view_filter(thread_filter),
                        0 <= ti < self.threads@.len(),
                        t == &self.threads@[ti as int],
                        t_pass(*t, filt),
                        0 <= si <= t.samples@.len(),
                        weights@.len() == keys@.len(),
                        forall|j1: int, j2: int|
                            0 <= j1 < keys@.len() && 0 <= j2 < keys@.len() && j1 != j2
                                ==> keys@[j1] != keys@[j2],
                        forall|j: int|
                            0 <= j < keys@.len() ==> #[trigger] weights@[j] == az_addr_upto(
                                *self,
                                filt,
                                nm,
                                keys@[j],
                                ti as int,
                            ) + t_addr_upto(*t, gs, nm, keys@[j], si as int),
                        forall|addr: u64| (forall|j: int| 0 <= j < keys@.len() ==> keys@[j] != addr)
                            ==> #[trigger] az_addr_upto(*self, filt, nm, addr, ti as int) == 0,
                        forall|addr: u64| (forall|j: int| 0 <= j < keys@.len() ==> keys@[j] != addr)
                            ==> #[trigger] t_addr_upto(*t, gs, nm, addr, si as int) == 0,
                    decreases t.samples@.len() - si,
                {
                    let ghost sii = si as int;
                    let (stack_opt, w) = t.samples[si];
                    if let Some(stack_idx) = stack_opt {
                        let walk = t.walk_stack(stack_idx);
                        proof {
                            assert(walk@ == walk_at(*t, sii));
                        }
                        let leaf = walk[0];
                        let leaf_name = t.get_func_name(leaf.0, &self.global_strings);
                        proof {
                            assert(leaf_name@ == pair_fname(*t, gs, walk_at(*t, sii)[0]));
                        }
                        if crate::strutil::str_eq(leaf_name.as_str(), name.as_str()) {
                            if let Some(addr) = t.get_frame_address(leaf.1) {
                                let ghost keys0 = keys@;
                                let id = match find_u64(&keys, addr) {
                                    Some(j) => j,
                                    None => {
                                        proof {
                                            assert(az_addr_upto(*self, filt, nm, addr, ti as int)
                                                == 0);
                                            assert(t_addr_upto(*t, gs, nm, addr, sii) == 0);
                                        }
                                        keys.push(addr);
                                        weights.push(0);
                                        keys.len() - 1
                                    },
                                };
                                proof {
                                    assert(keys@[id as int] == addr);
                                    assert(keys0.len() <= keys@.len());
                                    assert(forall|j: int|
                                        0 <= j < keys0.len() ==> keys@[j] == keys0[j]);
                                    assert(weights@.len() == keys@.len());
                                    assert forall|j1: int, j2: int|
                                        0 <= j1 < keys@.len() && 0 <= j2 < keys@.len() && j1 != j2
                                        implies keys@[j1] != keys@[j2] by {
                                        if j1 < keys0.len() && j2 < keys0.len() {
                                            assert(keys0[j1] != keys0[j2]);
                                        }
                                    }
                                    assert forall|j: int| 0 <= j < keys@.len() implies #[trigger]
                                    weights@[j] == az_addr_upto(*self, filt, nm, keys@[j], ti as int)
                                        + t_addr_upto(*t, gs, nm, keys@[j], sii) by {
                                        if j >= keys0.len() {
                                            assert(az_addr_upto(*self, filt, nm, keys@[j], ti as int)
                                                == 0);
                                            assert(t_addr_upto(*t, gs, nm, keys@[j], sii) == 0);
                                        }
                                    }
                                    lemma_t_addr_mono(*t, gs, nm, addr, sii + 1, t.samples@.len() as int);
                                    lemma_t_addr_chain(*t, gs, nm, addr, sii);
                                    lemma_az_addr_chain(*self, filt, nm, addr, ti as int);
                                    lemma_az_addr_chain(*self, filt, nm, addr, ti as int + 1);
                                    lemma_az_chain(*self, filt, nm, ti as int);
                                    lemma_az_chain(*self, filt, nm, self.threads@.len() as int);
                                    lemma_az_mono(
                                        *self,
                                        filt,
                                        nm,
                                        ti as int + 1,
                                        self.threads@.len() as int,
                                    );
                                    lemma_t_chain(*t, gs, nm, sii);
                                    lemma_t_mono(*t, gs, nm, sii + 1, t.samples@.len() as int);
                                    assert(az_addr_upto(*self, filt, nm, addr, ti as int + 1)
                                        <= az_self_upto(*self, filt, nm, ti as int + 1));
                                    assert(t_addr_upto(*t, gs, nm, addr, sii + 1) == t_addr_upto(
                                        *t,
                                        gs,
                                        nm,
                                        addr,
                                        sii,
                                    ) + w);
                                }
                                let cur = weights[id];
                                weights[id] = cur + w;
                                proof {
                                    assert forall|j: int| 0 <= j < keys@.len() implies #[trigger]
                                    weights@[j] == az_addr_upto(*self, filt, nm, keys@[j], ti as int)
                                        + t_addr_upto(*t, gs, nm, keys@[j], sii + 1) by {
                                        if j != id {
                                            assert(keys@[j] != addr);
                                            assert(t_addr_upto(*t, gs, nm, keys@[j], sii + 1)
                                                == t_addr_upto(*t, gs, nm, keys@[j], sii));
                                        }
                                    }
                                    assert forall|addr2: u64| (forall|j: int|
                                        0 <= j < keys@.len() ==> keys@[j] != addr2) implies
                                    #[trigger] az_addr_upto(*self, filt, nm, addr2, ti as int)
                                        == 0 by {
                                        assert forall|j: int|
                                            0 <= j < keys0.len() implies keys0[j] != addr2 by {
                                            assert(keys@[j] == keys0[j]);
                                            assert(keys@[j] != addr2);
                                        }
                                    }
                                    assert forall|addr2: u64| (forall|j: int|
                                        0 <= j < keys@.len() ==> keys@[j] != addr2) implies
                                    #[trigger] t_addr_upto(*t, gs, nm, addr2, sii + 1) == 0 by {
                                        assert forall|j: int|
                                            0 <= j < keys0.len() implies keys0[j] != addr2 by {
                                            assert(keys@[j] == keys0[j]);
                                            assert(keys@[j] != addr2);
                                        }
                                        assert(t_addr_upto(*t, gs, nm, addr2, sii) == 0);
                                        assert(keys@[id as int] != addr2);
                                        assert(addr2 != addr);
                                    }
                                }
                            } else {
                                proof {
                                    lemma_addr_step_nothing(*self, *t, gs, nm, keys@, weights@, filt, ti as int, sii);
                                }
                            }
                        } else {
                            proof {
                                lemma_addr_step_nothing(*self, *t, gs, nm, keys@, weights@, filt, ti as int, sii);
                            }
                        }
                    } else {
                        proof {
                            lemma_addr_step_nothing(*self, *t, gs, nm, keys@, weights@, filt, ti as int, sii);
                        }
                    }
                    si = si + 1;
                }
                proof {
                    assert forall|j: int| 0 <= j < keys@.len() implies #[trigger] weights@[j]
                        == az_addr_upto(*self, filt, nm, keys@[j], ti as int + 1) by {
                        assert(weights@[j] == az_addr_upto(*self, filt, nm, keys@[j], ti as int)
                            + t_addr_upto(*t, gs, nm, keys@[j], t.samples@.len() as int));
                    }
                    assert forall|addr: u64| (forall|j: int|
                        0 <= j < keys@.len() ==> keys@[j] != addr) implies #[trigger] az_addr_upto(
                        *self,
                        filt,
                        nm,
                        addr,
                        ti as int + 1,
                    ) == 0 by {
                        assert(az_addr_upto(*self, filt, nm, addr, ti as int) == 0);
                        assert(t_addr_upto(*t, gs, nm, addr, t.samples@.len() as int) == 0);
                        assert(az_addr_upto(*self, filt, nm, addr, ti as int + 1) == az_addr_upto(
                            *self,
                            filt,
                            nm,
                            addr,
                            ti as int,
                        ) + t_addr_upto(*t, gs, nm, addr, t.samples@.len() as int));
                    }
                }
            } else {
                proof {
                    assert forall|j: int| 0 <= j < keys@.len() implies #[trigger] weights@[j]
                        == az_addr_upto(*self, filt, nm, keys@[j], ti as int + 1) by {
                        assert(weights@[j] == az_addr_upto(*self, filt, nm, keys@[j], ti as int));
                    }
                    assert forall|addr: u64| (forall|j: int|
                        0 <= j < keys@.len() ==> keys@[j] != addr) implies #[trigger] az_addr_upto(
                        *self,
                        filt,
                        nm,
                        addr,
                        ti as int + 1,
                    ) == 0 by {
                        assert(az_addr_upto(*self, filt, nm, addr, ti as int) == 0);
                    }
                }
            }
            ti = ti + 1;
        }
        // Decorate, sort and rebuild with the self-time shares.
        let mut pairs: Vec<(i64, usize)> = Vec::new();
        let mut j: usize = 0;
        while j < keys.len()
            invariant
                weights@.len() == keys@.len(),
                0 <= j <= keys@.len(),
                forall|m: int|
                    0 <= m < pairs@.len() ==> {
                        let pr = #[trigger] pairs@[m];
                        &&& (pr.1 as int) < j
                        &&& pr.0 == weights@[pr.1 as int]
                        &&& pr.0 > 0
                    },
                forall|m1: int, m2: int|
                    0 <= m1 < m2 < pairs@.len() ==> (#[trigger] pairs@[m1]).1 != (
                    #[trigger] pairs@[m2]).1,
                forall|jj: int|
                    0 <= jj < j && weights@[jj] > 0 ==> exists|m: int|
                        0 <= m < pairs@.len() && (#[trigger] pairs@[m]) == (
                        weights@[jj],
                        jj as usize,
                        ),
            decreases keys@.len() - j,
        {
            let w = weights[j];
            if w > 0 {
                let ghost pairs0 = pairs@;
                pairs.push((w, j));
                proof {
                    assert(pairs@[pairs0.len() as int] == (weights@[j as int], j));
                    assert forall|jj: int| 0 <= jj < j + 1 && weights@[jj] > 0 implies exists|m: int|
                        0 <= m < pairs@.len() && (#[trigger] pairs@[m]) == (
                        weights@[jj],
                        jj as usize,
                        ) by {
                        if jj < j {
                            let m0 = choose|m: int|
                                0 <= m < pairs0.len() && (#[trigger] pairs0[m]) == (
                                weights@[jj],
                                jj as usize,
                                );
                            assert(pairs@[m0] == (weights@[jj], jj as usize));
                        } else {
                            assert(pairs@[pairs0.len() as int] == (weights@[jj], jj as usize));
                        }
                    }
                }
            }
            j = j + 1;
        }
        let ghost unsorted = pairs@;
        sort_pairs_desc(&mut pairs);
        proof {
            broadcast use vstd::seq_lib::group_to_multiset_ensures;

            assert forall|m: int| 0 <= m < pairs@.len() implies {
                let pr = #[trigger] pairs@[m];
                &&& (pr.1 as int) < keys@.len()
                &&& pr.0 == weights@[pr.1 as int]
                &&& pr.0 > 0
            } by {
                assert(pairs@.contains(pairs@[m]));
                assert(pairs@.to_multiset().count(pairs@[m]) > 0);
                assert(unsorted.contains(pairs@[m]));
                let m0 = choose|m0: int| 0 <= m0 < unsorted.len() && unsorted[m0] == pairs@[m];
                assert(unsorted[m0] == pairs@[m]);
            }
            assert(unsorted.no_duplicates()) by {
                assert forall|m1: int, m2: int|
                    0 <= m1 < unsorted.len() && 0 <= m2 < unsorted.len() && m1 != m2 implies
                unsorted[m1] != unsorted[m2] by {
                    assert(unsorted[m1].1 != unsorted[m2].1);
                }
            }
            unsorted.lemma_multiset_has_no_duplicates();
            pairs@.lemma_multiset_has_no_duplicates_conv();
            assert forall|m1: int, m2: int|
                0 <= m1 < pairs@.len() && 0 <= m2 < pairs@.len() && m1 != m2 implies (
            #[trigger] pairs@[m1]).1 != (#[trigger] pairs@[m2]).1 by {
                if pairs@[m1] == pairs@[m2] {
                    assert(pairs@.no_duplicates());
                    assert(false);
                } else {
                    assert(pairs@[m1].0 == weights@[pairs@[m1].1 as int]);
                    assert(pairs@[m2].0 == weights@[pairs@[m2].1 as int]);
                }
            }
        }
        let mut out: Vec<HotAddress> = Vec::new();
        let mut m: usize = 0;
        while m < pairs.len()
            invariant
                self.wf(),
                nm == name@,
                filt == view_filter(thread_filter),
                selfw == az_self_upto(*self, filt, nm, self.threads@.len() as int),
                weights@.len() == keys@.len(),
                sorted_desc(pairs@),
                forall|m2: int|
                    0 <= m2 < pairs@.len() ==> {
                        let pr = #[trigger] pairs@[m2];
                        &&& (pr.1 as int) < keys@.len()
                        &&& pr.0 == weights@[pr.1 as int]
                        &&& pr.0 > 0
                    },
                forall|m1: int, m2: int|
                    0 <= m1 < pairs@.len() && 0 <= m2 < pairs@.len() && m1 != m2 ==> (
                    #[trigger] pairs@[m1]).1 != (#[trigger] pairs@[m2]).1,
                forall|j1: int, j2: int|
                    0 <= j1 < keys@.len() && 0 <= j2 < keys@.len() && j1 != j2 ==> keys@[j1]
                        != keys@[j2],
                forall|j: int|
                    0 <= j < keys@.len() ==> #[trigger] weights@[j] == az_addr_upto(
                        *self,
                        filt,
                        nm,
                        keys@[j],
                        self.threads@.len() as int,
                    ),
                0 <= m <= pairs@.len(),
                out@.len() == m,
                forall|m2: int|
                    0 <= m2 < m ==> {
                        let e = #[trigger] out@[m2];
                        &&& e.address == keys@[pairs@[m2].1 as int]
                        &&& e.samples == pairs@[m2].0
                        &&& e.percent == pct_spec(
                            e.samples as int,
                            az_self_upto(*self, filt, nm, self.threads@.len() as int),
                        )
                    },
            decreases pairs@.len() - m,
        {
            let (w, id) = pairs[m];
            let pc = pct_hundredths(w, selfw);
            out.push(HotAddress { address: keys[id], samples: w, percent: pc });
            m = m + 1;
        }
        proof {
            assert forall|m1: int, m2: int|
                0 <= m1 < out@.len() && 0 <= m2 < out@.len() && m1 != m2 implies (
            #[trigger] out@[m1]).address != (#[trigger] out@[m2]).address by {
                assert(pairs@[m1].1 != pairs@[m2].1);
            }
            broadcast use vstd::seq_lib::group_to_multiset_ensures;

            assert forall|addr: u64|
                #[trigger] az_addr_upto(*self, filt, nm, addr, self.threads@.len() as int) > 0
                implies exists|m2: int| 0 <= m2 < out@.len() && (#[trigger] out@[m2]).address == addr
            by {
                if forall|j2: int| 0 <= j2 < keys@.len() ==> keys@[j2] != addr {
                    assert(false);
                }
                let jj = choose|jj: int| 0 <= jj < keys@.len() && keys@[jj] == addr;
                assert(weights@[jj] == az_addr_upto(
                    *self,
                    filt,
                    nm,
                    addr,
                    self.threads@.len() as int,
                ));
                assert(exists|m0: int|
                    0 <= m0 < unsorted.len() && (#[trigger] unsorted[m0]) == (
                    weights@[jj],
                    jj as usize,
                    ));
                assert(unsorted.contains((weights@[jj], jj as usize)));
                assert(unsorted.to_multiset().count((weights@[jj], jj as usize)) > 0);
                assert(pairs@.to_multiset().count((weights@[jj], jj as usize)) > 0);
                assert(pairs@.contains((weights@[jj], jj as usize)));
                let pos = choose|pos: int|
                    0 <= pos < pairs@.len() && pairs@[pos] == (weights@[jj], jj as usize);
                assert(out@[pos].address == addr);
            }
        }
        out
    }
}

/// The per-sample step adds nothing when the sample misses the name or
/// carries no address.
proof fn lemma_addr_step_nothing(
    az: ProfileAnalyzer,
    t: ThreadData,
    gs: Seq<String>,
    nm: Seq<char>,
    keys: Seq<u64>,
    weights: Seq<i64>,
    filt: Option<Seq<char>>,
    ti: int,
    sii: int,
)
    requires
        0 <= sii < t.samples@.len(),
        sample_stack(t, sii) is None || pair_fname(t, gs, walk_at(t, sii)[0]) != nm || (
        sample_stack(t, sii) is Some && t.frame_address_at(walk_at(t, sii)[0].1) is None),
        weights.len() == keys.len(),
        forall|j: int|
            0 <= j < keys.len() ==> #[trigger] weights[j] == az_addr_upto(az, filt, nm, keys[j], ti)
                + t_addr_upto(t, gs, nm, keys[j], sii),
        forall|addr: u64| (forall|j: int| 0 <= j < keys.len() ==> keys[j] != addr)
            ==> #[trigger] t_addr_upto(t, gs, nm, addr, sii) == 0,
    ensures
        forall|j: int|
            0 <= j < keys.len() ==> #[trigger] weights[j] == az_addr_upto(az, filt, nm, keys[j], ti)
                + t_addr_upto(t, gs, nm, keys[j], sii + 1),
        forall|addr: u64| (forall|j: int| 0 <= j < keys.len() ==> keys[j] != addr)
            ==> #[trigger] t_addr_upto(t, gs, nm, addr, sii + 1) == 0,
{
    assert forall|addr: u64| #[trigger] t_addr_upto(t, gs, nm, addr, sii + 1) == t_addr_upto(
        t,
        gs,
        nm,
        addr,
        sii,
    ) by {
    }
}

} // verus!
