//! Hotspot listing: the functions with the most self time.
//!
//! Entries are ranked by self time descending; percentages are normalized by
//! the whole selected weight, in hundredths of a percent.

use vstd::prelude::*;
use vstd::seq_lib::group_to_multiset_ensures;
use crate::aggregate::{az_sampled_upto, az_self_upto, az_total_upto, az_grand_upto, view_filter};
use crate::model::ProfileAnalyzer;
use crate::percent::{pct_hundredths, pct_spec};
use crate::sort::{sort_pairs_desc, sorted_desc};

verus! {

/// Identity and source location of a function, as far as the profile
/// records it.
pub struct FunctionInfo {
    pub name: String,
    pub file_path: Option<String>,
    pub line_number: Option<u32>,
}

/// One ranked hotspot.
pub struct HotspotEntry {
    /// 1-based position in the listing.
    pub rank: usize,
    pub function: FunctionInfo,
    pub self_samples: i64,
    pub total_samples: i64,
    /// Hundredths of a percent of the whole selected weight.
    pub self_percent: u32,
    pub total_percent: u32,
}

/// The source metadata agrees with some function of the profile carrying
/// this name; when no function bears the name, the fields are empty.
pub open spec fn info_ok(az: ProfileAnalyzer, info: FunctionInfo) -> bool {
    ||| exists|ti: int, fi: usize|
        0 <= ti < az.threads@.len() && fi < az.threads@[ti].func_name_idx@.len() && (
        #[trigger] az.threads@[ti].func_name_at(az.global_strings@, fi)) == info.name@ && (
        match info.file_path {
            Some(f) => az.threads@[ti].func_file_at(az.global_strings@, fi) == Some(f@),
            None => az.threads@[ti].func_file_at(az.global_strings@, fi) is None,
        }) && info.line_number == az.threads@[ti].func_line_at(fi)
    ||| (info.file_path is None && info.line_number is None && (forall|ti: int, fi: usize|
        0 <= ti < az.threads@.len() && fi < az.threads@[ti].func_name_idx@.len() ==> (
        #[trigger] az.threads@[ti].func_name_at(az.global_strings@, fi)) != info.name@))
}

/// Sum of the listed self times.
pub open spec fn entries_self_sum(es: Seq<HotspotEntry>) -> int
    decreases es.len(),
{
    if es.len() == 0 {
        0
    } else {
        entries_self_sum(es.drop_last()) + es.last().self_samples
    }
}

/// Correctness of a hotspot listing for profile `az` under filter `filt`.
pub open spec fn hotspots_ok(
    az: ProfileAnalyzer,
    filt: Option<Seq<char>>,
    limit: int,
    es: Seq<HotspotEntry>,
) -> bool {
    let kk = az.threads@.len() as int;
    let grand = az_grand_upto(az, filt, kk);
    &&& es.len() <= limit
    &&& forall|k: int|
        0 <= k < es.len() ==> {
            let e = #[trigger] es[k];
            &&& e.rank == k + 1
            &&& e.self_samples == az_self_upto(az, filt, e.function.name@, kk)
            &&& e.total_samples == az_total_upto(az, filt, e.function.name@, kk)
            &&& e.self_percent == pct_spec(e.self_samples as int, grand)
            &&& e.total_percent == pct_spec(e.total_samples as int, grand)
            &&& e.self_samples > 0
        }
    &&& forall|k1: int, k2: int|
        0 <= k1 < k2 < es.len() ==> (#[trigger] es[k1]).self_samples >= (
        #[trigger] es[k2]).self_samples
    &&& forall|k1: int, k2: int|
        0 <= k1 < es.len() && 0 <= k2 < es.len() && k1 != k2 ==> (
        #[trigger] es[k1]).function.name@ != (#[trigger] es[k2]).function.name@
    &&& forall|name: Seq<char>|
        #[trigger] az_self_upto(az, filt, name, kk) > 0 && (forall|k: int|
            0 <= k < es.len() ==> (#[trigger] es[k]).function.name@ != name) ==> es.len() == limit
            && (forall|k: int|
            0 <= k < es.len() ==> (#[trigger] es[k]).self_samples >= az_self_upto(
                az,
                filt,
                name,
                kk,
            ))
    &&& forall|name: Seq<char>|
        #[trigger] az_self_upto(az, filt, name, kk) > 0 && (exists|k: int|
            0 <= k < es.len() && (#[trigger] es[k]).self_samples < az_self_upto(az, filt, name, kk))
            ==> exists|k: int| 0 <= k < es.len() && (#[trigger] es[k]).function.name@ == name
    &&& (es.len() < limit ==> entries_self_sum(es) == az_sampled_upto(az, filt, kk))
}

/// WEIGHT CONSERVATION over the listing: an untruncated hotspot listing of
/// a profile whose samples all carry stacks sums its self times to the
/// whole selected weight — the normalizer of its percentages.
pub proof fn lemma_hotspot_weight_conservation(
    az: ProfileAnalyzer,
    filt: Option<Seq<char>>,
    limit: int,
    es: Seq<HotspotEntry>,
)
    requires
        hotspots_ok(az, filt, limit, es),
        es.len() < limit,
        forall|ti: int, si: int|
            0 <= ti < az.threads@.len() && 0 <= si < az.threads@[ti].samples@.len()
                ==> #[trigger] crate::aggregate::sample_stack(az.threads@[ti], si) is Some,
    ensures
        entries_self_sum(es) == az_grand_upto(az, filt, az.threads@.len() as int),
{
    crate::aggregate::lemma_sampled_is_grand(az, filt, az.threads@.len() as int);
}

impl ProfileAnalyzer {
    /// Finds the source metadata of some function with the given resolved
    /// name, scanning threads in order.
    pub(crate) fn lookup_func_info(&self, name: &String) -> (r: (Option<String>, Option<u32>))
        ensures
            ({
                ||| exists|ti: int, fi: usize|
                    0 <= ti < self.threads@.len() && fi
                        < self.threads@[ti].func_name_idx@.len() && (
                    #[trigger] self.threads@[ti].func_name_at(self.global_strings@, fi)) == name@
                        && (match r.0 {
                        Some(f) => self.threads@[ti].func_file_at(self.global_strings@, fi)
                            == Some(f@),
                        None => self.threads@[ti].func_file_at(self.global_strings@, fi) is None,
                    }) && r.1 == self.threads@[ti].func_line_at(fi)
                ||| (r.0 is None && r.1 is None && (forall|ti: int, fi: usize|
                    0 <= ti < self.threads@.len() && fi
                        < self.threads@[ti].func_name_idx@.len() ==> (
                    #[trigger] self.threads@[ti].func_name_at(self.global_strings@, fi))
                        != name@))
            }),
    {
        let mut ti: usize = 0;
        while ti < self.threads.len()
            invariant
                0 <= ti <= self.threads@.len(),
                forall|t2: int, f2: usize|
                    0 <= t2 < ti && f2 < self.threads@[t2].func_name_idx@.len() ==> (
                    #[trigger] self.threads@[t2].func_name_at(self.global_strings@, f2)) != name@,
            decreases self.threads@.len() - ti,
        {
            let t = &self.threads[ti];
            let mut fi: usize = 0;
            while fi < t.func_name_idx.len()
                invariant
                    0 <= fi <= t.func_name_idx@.len(),
                    0 <= ti < self.threads@.len(),
                    t == &self.threads@[ti as int],
                    forall|t2: int, f2: usize|
                        0 <= t2 < ti && f2 < self.threads@[t2].func_name_idx@.len() ==> (
                        #[trigger] self.threads@[t2].func_name_at(self.global_strings@, f2))
                            != name@,
                    forall|f2: usize|
                        f2 < fi ==> (#[trigger] t.func_name_at(self.global_strings@, f2)) != name@,
                decreases t.func_name_idx@.len() - fi,
            {
                let fname = t.get_func_name(fi, &self.global_strings);
                if fname == *name {
                    let file = t.get_func_file(fi, &self.global_strings);
                    let line = t.get_func_line(fi);
                    proof {
                        assert(self.threads@[ti as int].func_name_at(self.global_strings@, fi)
                            == name@);
                    }
                    return (file, line);
                }
                fi = fi + 1;
            }
            proof {
                assert forall|f2: usize| f2 < self.threads@[ti as int].func_name_idx@.len()
                    implies (#[trigger] self.threads@[ti as int].func_name_at(
                    self.global_strings@,
                    f2,
                )) != name@ by {
                    assert(t.func_name_at(self.global_strings@, f2) != name@);
                }
            }
            ti = ti + 1;
        }
        (None, None)
    }

    /// Computes the ranked hotspot listing: up to `limit` distinct function
    /// names with positive self time, ordered by self time descending, with
    /// percentages of the whole selected weight.  A name with positive self
    /// time is only absent when the listing is full of at-least-as-hot
    /// entries.
    pub fn compute_hotspots(&self, limit: usize, thread_filter: Option<&str>) -> (r: Vec<
        HotspotEntry,
    >)
        requires
            self.wf(),
        ensures
            hotspots_ok(*self, view_filter(thread_filter), limit as int, r@),
            forall|k: int| 0 <= k < r@.len() ==> info_ok(*self, (#[trigger] r@[k]).function),
    {
        let ghost filt = view_filter(thread_filter);
        let ghost kk = self.threads@.len() as int;
        let stats = self.aggregate_stats(thread_filter);
        let ghost names = stats.names@;
        let ghost self_w = stats.self_w@;
        proof {
            assert forall|i: int| 0 <= i < stats.self_w@.len() implies #[trigger] stats.self_w@[i]
                >= 0 by {
            }
        }
        let pairs = crate::calltree::sorted_positive_pairs(&stats.names, &stats.self_w);
        // Take the top `limit` pairs and build the listing.
        let mut out: Vec<HotspotEntry> = Vec::new();
        let mut k: usize = 0;
        while k < pairs.len() && k < limit
            invariant
                stats.ok_for(*self, filt),
                names == stats.names@,
                self_w == stats.self_w@,
                0 <= k <= pairs@.len(),
                k <= limit,
                out@.len() == k,
                sorted_desc(pairs@),
                forall|m: int|
                    0 <= m < pairs@.len() ==> {
                        let pr = #[trigger] pairs@[m];
                        &&& (pr.1 as int) < names.len()
                        &&& pr.0 == self_w[pr.1 as int]
                        &&& pr.0 > 0
                    },
                forall|m1: int, m2: int|
                    0 <= m1 < pairs@.len() && 0 <= m2 < pairs@.len() && m1 != m2 ==> (
                    #[trigger] pairs@[m1]).1 != (#[trigger] pairs@[m2]).1,
                entries_self_sum(out@) == crate::sort::sum_keys(pairs@.take(k as int)),
                forall|m: int|
                    0 <= m < k ==> {
                        let e = #[trigger] out@[m];
                        &&& e.rank == m + 1
                        &&& e.function.name@ == names[pairs@[m].1 as int]@
                        &&& e.self_samples == pairs@[m].0
                        &&& e.self_samples == az_self_upto(
                            *self,
                            filt,
                            e.function.name@,
                            self.threads@.len() as int,
                        )
                        &&& e.total_samples == az_total_upto(
                            *self,
                            filt,
                            e.function.name@,
                            self.threads@.len() as int,
                        )
                        &&& e.self_percent == pct_spec(
                            e.self_samples as int,
                            az_grand_upto(*self, filt, self.threads@.len() as int),
                        )
                        &&& e.total_percent == pct_spec(
                            e.total_samples as int,
                            az_grand_upto(*self, filt, self.threads@.len() as int),
                        )
                        &&& e.self_samples > 0
                        &&& info_ok(*self, e.function)
                    },
            decreases pairs@.len() - k,
        {
            let (w, id) = pairs[k];
            let name = stats.names[id].clone();
            proof {
                assert(name@ == names[id as int]@);
            }
            let (file_path, line_number) = self.lookup_func_info(&name);
            let total = stats.total_w[id];
            let self_percent = pct_hundredths(w, stats.total_weight);
            let total_percent = pct_hundredths(total, stats.total_weight);
            let entry = HotspotEntry {
                rank: k + 1,
                function: FunctionInfo { name, file_path, line_number },
                self_samples: w,
                total_samples: total,
                self_percent,
                total_percent,
            };
            let ghost out0 = out@;
            out.push(entry);
            k = k + 1;
            proof {
                assert(out@.drop_last() =~= out0);
                assert(pairs@.take(k as int).drop_last() =~= pairs@.take(k as int - 1));
                assert(pairs@.take(k as int).last() == pairs@[k as int - 1]);
            }
        }
        proof {
            broadcast use group_to_multiset_ensures;

            // Name distinctness follows from index distinctness.
            assert forall|k1: int, k2: int|
                0 <= k1 < out@.len() && 0 <= k2 < out@.len() && k1 != k2 implies (
            #[trigger] out@[k1]).function.name@ != (#[trigger] out@[k2]).function.name@ by {
                assert(pairs@[k1].1 != pairs@[k2].1);
            }
            // An untruncated listing keeps the whole stack-bearing weight.
            if out@.len() < limit {
                assert(k == pairs@.len());
                assert(pairs@.take(k as int) =~= pairs@);
                assert(entries_self_sum(out@) == az_sampled_upto(*self, filt, kk));
            }
            // Top-N completeness: a positive-weight name missing from the
            // listing means the listing is full of at-least-as-hot entries.
            assert forall|name: Seq<char>|
                #[trigger] az_self_upto(*self, filt, name, kk) > 0 && (forall|k2: int|
                    0 <= k2 < out@.len() ==> (#[trigger] out@[k2]).function.name@ != name) implies
            out@.len() == limit && (forall|k2: int|
                0 <= k2 < out@.len() ==> (#[trigger] out@[k2]).self_samples >= az_self_upto(
                    *self,
                    filt,
                    name,
                    kk,
                )) by {
                // The name is interned with its weight.
                if crate::aggregate::not_in_names(names, name) {
                    assert(az_self_upto(*self, filt, name, self.threads@.len() as int) == 0);
                    assert(false);
                }
                let jj = choose|jj: int| 0 <= jj < names.len() && (#[trigger] names[jj])@ == name;
                assert(self_w[jj] == az_self_upto(*self, filt, name, kk));
                assert(exists|m: int|
                    0 <= m < pairs@.len() && (#[trigger] pairs@[m]) == (self_w[jj], jj as usize));
                let pos = choose|pos: int|
                    0 <= pos < pairs@.len() && pairs@[pos] == (self_w[jj], jj as usize);
                // Were the pair among the taken prefix, its name would be
                // listed.
                if pos < out@.len() {
                    assert(out@[pos].function.name@ == names[pairs@[pos].1 as int]@);
                    assert(false);
                }
                assert(out@.len() == limit);
                assert forall|k2: int| 0 <= k2 < out@.len() implies (
                #[trigger] out@[k2]).self_samples >= az_self_upto(*self, filt, name, kk) by {
                    assert(out@[k2].self_samples == pairs@[k2].0);
                    assert(pairs@[k2].0 >= pairs@[pos].0);
                }
            }
            // Membership up to tie groups: a positive name hotter than some
            // listed entry is itself listed.
            assert forall|name: Seq<char>|
                #[trigger] az_self_upto(*self, filt, name, kk) > 0 && (exists|k2: int|
                    0 <= k2 < out@.len() && (#[trigger] out@[k2]).self_samples < az_self_upto(
                        *self,
                        filt,
                        name,
                        kk,
                    )) implies exists|k2: int|
                0 <= k2 < out@.len() && (#[trigger] out@[k2]).function.name@ == name by {
                if forall|k2: int| 0 <= k2 < out@.len() ==> (#[trigger] out@[k2]).function.name@
                    != name {
                    assert(forall|k2: int|
                        0 <= k2 < out@.len() ==> (#[trigger] out@[k2]).self_samples
                            >= az_self_upto(*self, filt, name, kk));
                    assert(false);
                }
            }
        }
        out
    }
}

} // verus!
