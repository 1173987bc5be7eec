//! Profile summary: identity of the profile and its threads, the whole
//! sampled weight, and a symbolication heuristic.

use vstd::prelude::*;
use crate::aggregate::{az_grand_upto, t_pass, view_filter};
use crate::hotspots::{hotspots_ok, HotspotEntry};
use crate::model::{az_weight_sum, t_weight_sum, ProfileAnalyzer};
use crate::strutil::{is_hex_addr_name, is_hex_addr_str};

verus! {

/// Identity and sample count of one thread.
pub struct ThreadSummary {
    pub name: String,
    pub pid: String,
    pub tid: String,
    pub is_main: bool,
    pub sample_count: usize,
}

/// Whole-profile summary.
pub struct ProfileSummary {
    pub product_name: String,
    pub total_samples: i64,
    /// Sampling interval in microseconds.
    pub sampling_interval_us: u64,
    pub thread_count: usize,
    pub threads: Vec<ThreadSummary>,
    /// False when the hottest functions look like bare hexadecimal
    /// addresses.
    pub is_symbolicated: bool,
}

/// Number of entries whose function name is a bare hexadecimal address.
pub open spec fn hex_name_count(es: Seq<HotspotEntry>) -> int
    decreases es.len(),
{
    if es.len() == 0 {
        0
    } else {
        hex_name_count(es.drop_last()) + if is_hex_addr_name(es.last().function.name@) {
            1int
        } else {
            0int
        }
    }
}

/// An unfiltered pass sums the same weight as the plain thread totals.
pub proof fn lemma_grand_unfiltered(az: ProfileAnalyzer, k: int)
    requires
        0 <= k <= az.threads@.len(),
    ensures
        az_grand_upto(az, None, k) == az_weight_sum(az.threads@, k),
    decreases k,
{
    if k > 0 {
        lemma_grand_unfiltered(az, k - 1);
        assert(t_pass(az.threads@[k - 1], None));
    }
}

impl ProfileAnalyzer {
    /// The symbolication heuristic: take the top twenty hotspots; when more
    /// than 80% of their names are bare hexadecimal addresses, the profile
    /// is likely unsymbolicated.
    pub fn is_likely_unsymbolicated(&self) -> (r: bool)
        requires
            self.wf(),
        ensures
            exists|es: Seq<HotspotEntry>|
                #[trigger] hotspots_ok(*self, None, 20, es) && r == (5 * hex_name_count(es) > 4
                    * es.len()),
    {
        let top = self.compute_hotspots(20, None);
        let mut hex: usize = 0;
        let mut k: usize = 0;
        while k < top.len()
            invariant
                0 <= k <= top@.len(),
                hex <= k,
                hex == hex_name_count(top@.subrange(0, k as int)),
            decreases top@.len() - k,
        {
            let ghost pre = top@.subrange(0, k as int);
            if is_hex_addr_str(top[k].function.name.as_str()) {
                hex = hex + 1;
            }
            k = k + 1;
            proof {
                assert(top@.subrange(0, k as int).drop_last() =~= pre);
                assert(top@.subrange(0, k as int).last() == top@[k - 1]);
            }
        }
        proof {
            assert(top@.subrange(0, top@.len() as int) =~= top@);
            assert(view_filter(None::<&str>) == None::<Seq<char>>);
            assert(hotspots_ok(*self, None, 20, top@));
        }
        5 * hex > 4 * top.len()
    }

    /// The profile summary: product, interval, thread identities with their
    /// sample counts, the whole sampled weight, and the symbolication
    /// heuristic.
    pub fn get_summary(&self) -> (r: ProfileSummary)
        requires
            self.wf(),
        ensures
            r.product_name == self.product_name,
            r.sampling_interval_us == self.sampling_interval_us,
            r.thread_count == self.threads@.len(),
            r.threads@.len() == self.threads@.len(),
            forall|k: int|
                0 <= k < self.threads@.len() ==> {
                    let ts = #[trigger] r.threads@[k];
                    &&& ts.name == self.threads@[k].name
                    &&& ts.pid == self.threads@[k].pid
                    &&& ts.tid == self.threads@[k].tid
                    &&& ts.is_main == self.threads@[k].is_main_thread
                    &&& ts.sample_count == self.threads@[k].samples@.len()
                },
            r.total_samples == az_weight_sum(self.threads@, self.threads@.len() as int),
            exists|es: Seq<HotspotEntry>|
                #[trigger] hotspots_ok(*self, None, 20, es) && r.is_symbolicated == !(5
                    * hex_name_count(es) > 4 * es.len()),
    {
        let stats = self.aggregate_stats(None);
        proof {
            assert(view_filter(None::<&str>) == None::<Seq<char>>);
            lemma_grand_unfiltered(*self, self.threads@.len() as int);
        }
        let unsym = self.is_likely_unsymbolicated();
        let mut threads: Vec<ThreadSummary> = Vec::new();
        let mut k: usize = 0;
        while k < self.threads.len()
            invariant
                0 <= k <= self.threads@.len(),
                threads@.len() == k,
                forall|m: int|
                    0 <= m < k ==> {
                        let ts = #[trigger] threads@[m];
                        &&& ts.name == self.threads@[m].name
                        &&& ts.pid == self.threads@[m].pid
                        &&& ts.tid == self.threads@[m].tid
                        &&& ts.is_main == self.threads@[m].is_main_thread
                        &&& ts.sample_count == self.threads@[m].samples@.len()
                    },
            decreases self.threads@.len() - k,
        {
            let t = &self.threads[k];
            threads.push(
                ThreadSummary {
                    name: t.name.clone(),
                    pid: t.pid.clone(),
                    tid: t.tid.clone(),
                    is_main: t.is_main_thread,
                    sample_count: t.sample_count(),
                },
            );
            k = k + 1;
        }
        let thread_count = threads.len();
        ProfileSummary {
            product_name: self.product_name.clone(),
            total_samples: stats.total_weight,
            sampling_interval_us: self.sampling_interval_us,
            thread_count,
            threads,
            is_symbolicated: !unsym,
        }
    }
}

} // verus!
