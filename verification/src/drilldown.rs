//! Drilldown: iterative descent along the hottest callees.
//!
//! Starting from a resolved root function, the query repeatedly steps into
//! the hottest callee of the current function until a function's own self
//! time is over the threshold (the bottleneck), the depth budget is spent,
//! a leaf is reached, or a cycle cannot be escaped.  A global visited set
//! guarantees that no function appears twice on the path.

use vstd::prelude::*;
use vstd::string::StringExecFns;
use crate::aggregate::{
    az_grand_upto, distinct_names, find_name, not_in_names, self_weight_of, total_weight_of,
    view_filter,
};
use crate::calltree::{az_adj_any_upto, callee_weight_of, sorted_positive_pairs};
use crate::hotspots::{info_ok, FunctionInfo};
use crate::model::ProfileAnalyzer;
use crate::numfmt::{dec_digit, dec_str, dec_u64};
use crate::percent::{pct_hundredths, pct_spec};
use crate::query::resolves_pattern;

verus! {

/// One callee shown under a drilldown node.
pub struct DrilldownCallee {
    pub name: String,
    /// Hundredths of a percent of the sum over all sibling callees.
    pub percent: u32,
    /// Set on the first (hottest) callee only.
    pub is_hottest: bool,
}

/// One step of the drilldown path.
pub struct DrilldownNode {
    pub function: String,
    pub file_path: Option<String>,
    pub line_number: Option<u32>,
    pub self_samples: i64,
    pub total_samples: i64,
    /// Hundredths of a percent of the whole profile weight.
    pub self_percent: u32,
    pub total_percent: u32,
    pub is_bottleneck: bool,
    pub callees: Vec<DrilldownCallee>,
}

/// The found bottleneck, with a human-readable reason.
pub struct BottleneckInfo {
    pub function: String,
    pub reason: String,
}

/// Result of a drilldown query.
pub struct DrilldownResponse {
    pub root: String,
    pub total_samples: i64,
    pub path: Vec<DrilldownNode>,
    pub bottleneck: Option<BottleneckInfo>,
    pub error: Option<String>,
    pub suggestions: Option<Vec<String>>,
}

/// Percentage in hundredths rendered with one decimal: "X.X".
pub open spec fn pct_tenths_str(p: int) -> Seq<char> {
    dec_str(p / 100) + seq!['.'] + seq![dec_digit((p % 100) / 10)]
}

/// The reason attached to a bottleneck.
pub open spec fn bottleneck_reason_str(p: int) -> Seq<char> {
    "High self-time ("@ + pct_tenths_str(p)
        + "%) indicates this function's own code is the bottleneck"@
}

/// A suggestion line: the function's name with its total percentage.
pub open spec fn suggestion_str(name: Seq<char>, p: int) -> Seq<char> {
    name + " ("@ + pct_tenths_str(p) + "%)"@
}

/// The suggestion lines render the functions hottest by total weight: the
/// witness names carry positive totals, render to the shown strings with
/// their percentages of the whole profile weight, are pairwise distinct and
/// ordered by total weight descending, and any positive-total name missing
/// from them implies the list is full of at-least-as-hot names.
/// Some witness name sequence shows the suggestion lines correct.
pub open spec fn suggestions_justified(az: ProfileAnalyzer, v: Seq<String>) -> bool {
    exists|sn: Seq<Seq<char>>| #[trigger] suggestions_ok(az, v, sn)
}

pub open spec fn suggestions_ok(az: ProfileAnalyzer, v: Seq<String>, sn: Seq<Seq<char>>) -> bool {
    let kk = az.threads@.len() as int;
    let grand = az_grand_upto(az, None, kk);
    &&& sn.len() == v.len()
    &&& forall|m: int| 0 <= m < v.len() ==> total_weight_of(az, #[trigger] sn[m]) > 0
    &&& forall|m: int|
        0 <= m < v.len() ==> (#[trigger] v[m])@ == suggestion_str(
            sn[m],
            pct_spec(total_weight_of(az, sn[m]), grand),
        )
    &&& forall|m1: int, m2: int|
        0 <= m1 < m2 < sn.len() ==> total_weight_of(az, #[trigger] sn[m1]) >= total_weight_of(
            az,
            #[trigger] sn[m2],
        )
    &&& forall|m1: int, m2: int|
        0 <= m1 < sn.len() && 0 <= m2 < sn.len() && m1 != m2 ==> #[trigger] sn[m1] != #[trigger] sn[m2]
    &&& forall|name: Seq<char>|
        #[trigger] total_weight_of(az, name) > 0 && (forall|m: int|
            0 <= m < sn.len() ==> sn[m] != name) ==> sn.len() == 5 && (forall|m: int|
            0 <= m < sn.len() ==> total_weight_of(az, #[trigger] sn[m]) >= total_weight_of(
                az,
                name,
            ))
}

/// Renders a percentage in hundredths with one decimal.
fn render_pct_tenths(p: u32) -> (s: String)
    ensures
        s@ == pct_tenths_str(p as int),
{
    let mut s = dec_u64((p / 100) as u64);
    s.append(".");
    let d = dec_u64(((p % 100) / 10) as u64);
    s.append(d.as_str());
    proof {
        reveal_strlit(".");
        assert("."@ =~= seq!['.']);
        assert(dec_str((((p % 100) / 10)) as int) =~= seq![dec_digit(((p % 100) / 10) as int)]);
        assert(s@ =~= pct_tenths_str(p as int));
    }
    s
}

/// Sum of a drilldown node's displayed callee percentages.
pub open spec fn dd_callee_pct_sum(cs: Seq<DrilldownCallee>) -> int
    decreases cs.len(),
{
    if cs.len() == 0 {
        0
    } else {
        dd_callee_pct_sum(cs.drop_last()) + cs.last().percent
    }
}

/// A drilldown node states the exact self and total weight of its function,
/// percentages of the whole profile weight, and lists every callee with
/// positive edge weight, ordered by edge weight descending with exact
/// sibling percentages; the first callee is the hottest.
pub open spec fn dd_node_ok(az: ProfileAnalyzer, node: DrilldownNode) -> bool {
    let kk = az.threads@.len() as int;
    let grand = az_grand_upto(az, None, kk);
    let row_total = az_adj_any_upto(az, node.function@, false, kk);
    &&& node.self_samples == self_weight_of(az, node.function@)
    &&& node.total_samples == total_weight_of(az, node.function@)
    &&& node.self_percent == pct_spec(node.self_samples as int, grand)
    &&& node.total_percent == pct_spec(node.total_samples as int, grand)
    &&& info_ok(
        az,
        FunctionInfo {
            name: node.function,
            file_path: node.file_path,
            line_number: node.line_number,
        },
    )
    &&& forall|k: int|
        0 <= k < node.callees@.len() ==> {
            let c = #[trigger] node.callees@[k];
            &&& callee_weight_of(az, node.function@, c.name@) > 0
            &&& c.percent == pct_spec(callee_weight_of(az, node.function@, c.name@), row_total)
            &&& c.is_hottest == (k == 0)
        }
    &&& forall|k1: int, k2: int|
        0 <= k1 < k2 < node.callees@.len() ==> callee_weight_of(
            az,
            node.function@,
            (#[trigger] node.callees@[k1]).name@,
        ) >= callee_weight_of(az, node.function@, (#[trigger] node.callees@[k2]).name@)
    &&& forall|k1: int, k2: int|
        0 <= k1 < node.callees@.len() && 0 <= k2 < node.callees@.len() && k1 != k2 ==> (
        #[trigger] node.callees@[k1]).name@ != (#[trigger] node.callees@[k2]).name@
    &&& forall|other: Seq<char>|
        #[trigger] callee_weight_of(az, node.function@, other) > 0 ==> exists|k: int|
            0 <= k < node.callees@.len() && (#[trigger] node.callees@[k]).name@ == other
    &&& 0 <= dd_callee_pct_sum(node.callees@) <= 10000
}

/// `name` stands among the first `upto` path nodes.
pub open spec fn on_path(path: Seq<DrilldownNode>, upto: int, name: Seq<char>) -> bool {
    exists|i: int| 0 <= i < upto && (#[trigger] path[i]).function@ == name
}

/// `name` is the first callee of the last path node that is not already on
/// the path: the hottest callee, or the cycle-escape pick when every hotter
/// callee already appeared.
pub open spec fn dd_pick_ok(path: Seq<DrilldownNode>, name: Seq<char>) -> bool {
    exists|k: int|
        {
            &&& 0 <= k < path.last().callees@.len()
            &&& (#[trigger] path.last().callees@[k]).name@ == name
            &&& forall|k2: int|
                0 <= k2 < k ==> on_path(path, path.len() as int, path.last().callees@[k2].name@)
        }
}

/// The descent rule between consecutive path nodes: node `m + 1` is the
/// first callee of node `m` not already on the path up to node `m`.
pub open spec fn dd_step_ok(path: Seq<DrilldownNode>, m: int) -> bool {
    exists|k: int|
        {
            &&& 0 <= k < path[m].callees@.len()
            &&& (#[trigger] path[m].callees@[k]).name@ == path[m + 1].function@
            &&& forall|k2: int| 0 <= k2 < k ==> on_path(path, m + 1, path[m].callees@[k2].name@)
        }
}

/// Membership among a fixed prefix is unchanged when the path grows.
proof fn lemma_on_path_frame(p1: Seq<DrilldownNode>, p2: Seq<DrilldownNode>, upto: int, name: Seq<char>)
    requires
        0 <= upto <= p1.len(),
        upto <= p2.len(),
        forall|i: int| 0 <= i < upto ==> #[trigger] p1[i] == p2[i],
    ensures
        on_path(p1, upto, name) == on_path(p2, upto, name),
{
    if on_path(p1, upto, name) {
        let i = choose|i: int| 0 <= i < upto && (#[trigger] p1[i]).function@ == name;
        assert(p2[i].function@ == name);
    }
    if on_path(p2, upto, name) {
        let i = choose|i: int| 0 <= i < upto && (#[trigger] p2[i]).function@ == name;
        assert(p1[i].function@ == name);
    }
}

/// Drilldown path correctness apart from the per-node statements: bounded
/// length, the descent rule between nodes, no repeated function, every
/// non-final node under the threshold, the bottleneck exactly when the final
/// node is over it, and a reason whenever the walk stopped early.
pub open spec fn dd_path_ok(
    az: ProfileAnalyzer,
    r: DrilldownResponse,
    depth: int,
    threshold: u32,
) -> bool {
    &&& r.path@.len() <= depth
    &&& (depth >= 1 ==> r.path@.len() >= 1 && r.path@[0].function@ == r.root@)
    &&& forall|m: int| 0 <= m < r.path@.len() ==> dd_node_ok(az, #[trigger] r.path@[m])
    &&& forall|m1: int, m2: int|
        0 <= m1 < r.path@.len() && 0 <= m2 < r.path@.len() && m1 != m2 ==> (
        #[trigger] r.path@[m1]).function@ != (#[trigger] r.path@[m2]).function@
    &&& forall|m: int|
        0 <= m < r.path@.len() - 1 ==> (#[trigger] r.path@[m]).self_percent <= threshold
            && !r.path@[m].is_bottleneck
    &&& (r.bottleneck is Some) <==> (r.path@.len() >= 1 && r.path@.last().self_percent > threshold)
    &&& (r.bottleneck matches Some(b) ==> b.function@ == r.path@.last().function@
        && r.path@.last().is_bottleneck && b.reason@ == bottleneck_reason_str(
        r.path@.last().self_percent as int,
    ))
    &&& (r.path@.len() >= 1 && r.path@.last().self_percent <= threshold
        ==> !r.path@.last().is_bottleneck)
    &&& forall|m: int| 0 <= m < r.path@.len() - 1 ==> #[trigger] dd_step_ok(r.path@, m)
    &&& (r.bottleneck is None ==> {
        ||| 2 * r.path@.len() >= depth
        ||| (r.path@.len() >= 1 && r.path@.last().callees@.len() == 0)
        ||| (r.path@.len() >= 1 && (forall|k: int|
            0 <= k < r.path@.last().callees@.len() ==> on_path(
                r.path@,
                r.path@.len() as int,
                (#[trigger] r.path@.last().callees@[k]).name@,
            )))
    })
}

impl ProfileAnalyzer {
    /// Runs the drilldown from the resolved pattern, at most `depth` steps,
    /// with the bottleneck threshold in hundredths of a percent.
    ///
    /// A root without any observed samples yields an error with up to five
    /// suggestions: hot functions by total weight, each rendered with its
    /// percentage of the whole profile weight.
    #[verifier::rlimit(100)]
    pub fn drilldown(&self, function_pattern: &str, depth: usize, threshold_hundredths: u32) -> (r:
        DrilldownResponse)
        requires
            self.wf(),
        ensures
            resolves_pattern(*self, function_pattern@, r.root@),
            r.total_samples == total_weight_of(*self, r.root@),
            (r.error is Some) <==> total_weight_of(*self, r.root@) == 0,
            r.error is Some ==> r.path@.len() == 0 && r.bottleneck is None && r.suggestions is Some,
            r.error is None ==> r.suggestions is None && dd_path_ok(
                *self,
                r,
                depth as int,
                threshold_hundredths,
            ),
            r.suggestions matches Some(v) ==> v@.len() <= 5 && suggestions_justified(*self, v@),
    {
        let ghost kk = self.threads@.len() as int;
        let stats = self.aggregate_stats(None);
        proof {
            assert(view_filter(None::<&str>) == None::<Seq<char>>);
        }
        let root = self.find_matching_function(function_pattern);
        let root_total = match find_name(&stats.names, &root) {
            Some(j) => {
                let tw = stats.total_w[j];
                proof {
                    assert(tw == total_weight_of(*self, root@));
                }
                tw
            },
            None => {
                proof {
                    assert(crate::aggregate::az_self_upto(*self, None, root@, kk) == 0);
                    assert(total_weight_of(*self, root@) == 0);
                }
                0
            },
        };
        if root_total == 0 {
            // No samples: error with the hottest functions by total weight
            // as suggestions.
            proof {
                assert forall|i: int| 0 <= i < stats.total_w@.len() implies #[trigger]
                stats.total_w@[i] >= 0 by {
                    assert(stats.self_w@[i] >= 0 && stats.self_w@[i] <= stats.total_w@[i]);
                }
            }
            let spairs = sorted_positive_pairs(&stats.names, &stats.total_w);
            let mut suggestions: Vec<String> = Vec::new();
            let ghost mut snames: Seq<Seq<char>> = Seq::empty();
            let mut m: usize = 0;
            while m < spairs.len() && m < 5
                invariant
                    stats.ok_for(*self, None),
                    self.wf(),
                    0 <= m <= spairs@.len(),
                    m <= 5,
                    suggestions@.len() == m,
                    snames.len() == m,
                    crate::sort::sorted_desc(spairs@),
                    forall|m2: int|
                        0 <= m2 < spairs@.len() ==> {
                            let pr = #[trigger] spairs@[m2];
                            &&& (pr.1 as int) < stats.names@.len()
                            &&& pr.0 == stats.total_w@[pr.1 as int]
                            &&& pr.0 > 0
                        },
                    forall|m1: int, m2: int|
                        0 <= m1 < spairs@.len() && 0 <= m2 < spairs@.len() && m1 != m2 ==> (
                        #[trigger] spairs@[m1]).1 != (#[trigger] spairs@[m2]).1,
                    forall|m2: int|
                        0 <= m2 < m ==> #[trigger] snames[m2] == stats.names@[spairs@[m2].1 as int]@,
                    forall|m2: int|
                        0 <= m2 < m ==> total_weight_of(*self, #[trigger] snames[m2])
                            == spairs@[m2].0,
                    forall|m2: int|
                        0 <= m2 < m ==> (#[trigger] suggestions@[m2])@ == suggestion_str(
                            snames[m2],
                            pct_spec(
                                total_weight_of(*self, snames[m2]),
                                az_grand_upto(*self, None, self.threads@.len() as int),
                            ),
                        ),
                decreases spairs@.len() - m,
            {
                let (w, id) = spairs[m];
                let nm = stats.names[id].clone();
                let p = pct_hundredths(w, stats.total_weight);
                let mut s = nm;
                s.append(" (");
                let ps = render_pct_tenths(p);
                s.append(ps.as_str());
                s.append("%)");
                proof {
                    assert(total_weight_of(*self, stats.names@[id as int]@) == w as int);
                    assert(s@ =~= suggestion_str(
                        stats.names@[id as int]@,
                        pct_spec(
                            total_weight_of(*self, stats.names@[id as int]@),
                            az_grand_upto(*self, None, self.threads@.len() as int),
                        ),
                    ));
                    snames = snames.push(stats.names@[id as int]@);
                }
                suggestions.push(s);
                m = m + 1;
            }
            proof {
                broadcast use vstd::seq_lib::group_to_multiset_ensures;

                let kk2 = self.threads@.len() as int;
                // Distinct witness names from distinct pool indices.
                assert forall|m1: int, m2: int|
                    0 <= m1 < snames.len() && 0 <= m2 < snames.len() && m1 != m2 implies #[trigger]
                snames[m1] != #[trigger] snames[m2] by {
                    assert(spairs@[m1].1 != spairs@[m2].1);
                    assert(stats.names@[spairs@[m1].1 as int]@ != stats.names@[spairs@[m2].1 as int]@);
                }
                // Top-five completeness: a missing positive-total name means
                // five suggestions, all at least as hot.
                assert forall|name: Seq<char>|
                    #[trigger] total_weight_of(*self, name) > 0 && (forall|m2: int|
                        0 <= m2 < snames.len() ==> snames[m2] != name) implies snames.len() == 5
                    && (forall|m2: int|
                    0 <= m2 < snames.len() ==> total_weight_of(*self, #[trigger] snames[m2])
                        >= total_weight_of(*self, name)) by {
                    if crate::aggregate::not_in_names(stats.names@, name) {
                        assert(crate::aggregate::az_self_upto(*self, None, name, kk2) == 0);
                        assert(false);
                    }
                    let jj = choose|jj: int|
                        0 <= jj < stats.names@.len() && (#[trigger] stats.names@[jj])@ == name;
                    assert(stats.total_w@[jj] == total_weight_of(*self, name));
                    assert(exists|m0: int|
                        0 <= m0 < spairs@.len() && (#[trigger] spairs@[m0]) == (
                        stats.total_w@[jj],
                        jj as usize,
                        ));
                    let pos = choose|pos: int|
                        0 <= pos < spairs@.len() && spairs@[pos] == (stats.total_w@[jj], jj as usize);
                    if pos < snames.len() {
                        assert(snames[pos] == stats.names@[spairs@[pos].1 as int]@);
                        assert(false);
                    }
                    assert(snames.len() == 5);
                    assert forall|m2: int| 0 <= m2 < snames.len() implies total_weight_of(
                        *self,
                        #[trigger] snames[m2],
                    ) >= total_weight_of(*self, name) by {
                        assert(total_weight_of(*self, snames[m2]) == spairs@[m2].0);
                        assert(spairs@[m2].0 >= spairs@[pos].0);
                    }
                }
                assert(suggestions_ok(*self, suggestions@, snames));
                assert(suggestions_justified(*self, suggestions@));
            }
            return DrilldownResponse {
                root,
                total_samples: root_total,
                path: Vec::new(),
                bottleneck: None,
                error: Some(String::from_str(
                    "Function has no recorded samples; try one of the suggestions",
                )),
                suggestions: Some(suggestions),
            };
        }
        // Walk down the hottest callees.
        let ghost rootv = root@;
        let mut current: String = root.clone();
        let mut visited: Vec<String> = Vec::new();
        let mut path: Vec<DrilldownNode> = Vec::new();
        let ghost mut escapes: int = 0;
        let mut step: usize = 0;
        while step < depth
            invariant
                self.wf(),
                stats.ok_for(*self, None),
                rootv == root@,
                resolves_pattern(*self, function_pattern@, rootv),
                root_total == total_weight_of(*self, rootv),
                root_total != 0,
                0 <= step <= depth,
                path@.len() <= step,
                step > 0 ==> path@.len() >= 1,
                step as int == path@.len() + escapes,
                0 <= escapes <= path@.len(),
                escapes == path@.len() ==> !on_path(path@, path@.len() as int, current@),
                visited@.len() == path@.len(),
                distinct_names(visited@),
                forall|m: int|
                    0 <= m < path@.len() ==> (#[trigger] visited@[m])@ == path@[m].function@,
                (path@.len() == 0 ==> current@ == rootv),
                (path@.len() > 0 ==> path@[0].function@ == rootv),
                forall|m: int| 0 <= m < path@.len() ==> dd_node_ok(*self, #[trigger] path@[m]),
                forall|m1: int, m2: int|
                    0 <= m1 < path@.len() && 0 <= m2 < path@.len() && m1 != m2 ==> (
                    #[trigger] path@[m1]).function@ != (#[trigger] path@[m2]).function@,
                forall|m: int|
                    0 <= m < path@.len() ==> (#[trigger] path@[m]).self_percent
                        <= threshold_hundredths && !path@[m].is_bottleneck,
                forall|m: int| 0 <= m < path@.len() - 1 ==> #[trigger] dd_step_ok(path@, m),
                path@.len() > 0 && !on_path(path@, path@.len() as int, current@) ==> dd_pick_ok(
                    path@,
                    current@,
                ),
            decreases depth - step,
        {
            let in_vis = find_name(&visited, &current);
            if in_vis.is_some() {
                // Cycle: try the previous node's first unvisited callee.
                proof {
                    assert(visited@.len() > 0);
                    assert(path@.len() > 0);
                    // The current name is on the path, so the escape budget
                    // is still within the path length.
                    let j = in_vis.unwrap() as int;
                    assert(path@[j].function@ == current@);
                    assert(on_path(path@, path@.len() as int, current@));
                    assert(escapes < path@.len());
                }
                let prev = &path[path.len() - 1];
                let mut e: usize = 0;
                let mut found: Option<String> = None;
                while e < prev.callees.len() && found.is_none()
                    invariant
                        0 <= e <= prev.callees@.len(),
                        path@.len() > 0,
                        prev == &path@[path@.len() - 1],
                        visited@.len() == path@.len(),
                        forall|m: int|
                            0 <= m < path@.len() ==> (#[trigger] visited@[m])@
                                == path@[m].function@,
                        forall|e2: int|
                            0 <= e2 < e ==> on_path(
                                path@,
                                path@.len() as int,
                                (#[trigger] prev.callees@[e2]).name@,
                            ),
                        found matches Some(nm) ==> e < prev.callees@.len() && nm@
                            == prev.callees@[e as int].name@ && !on_path(
                            path@,
                            path@.len() as int,
                            nm@,
                        ),
                    decreases prev.callees@.len() - e + (if found is None {
                        1int
                    } else {
                        0int
                    }),
                {
                    match find_name(&visited, &prev.callees[e].name) {
                        Some(j) => {
                            proof {
                                assert(visited@[j as int]@ == prev.callees@[e as int].name@);
                                assert(path@[j as int].function@ == prev.callees@[e as int].name@);
                                assert(on_path(
                                    path@,
                                    path@.len() as int,
                                    prev.callees@[e as int].name@,
                                ));
                            }
                            e = e + 1;
                        },
                        None => {
                            proof {
                                // Absent from the visited names means absent
                                // from the path.
                                if on_path(path@, path@.len() as int, prev.callees@[e as int].name@) {
                                    let i = choose|i: int|
                                        0 <= i < path@.len() && (#[trigger] path@[i]).function@
                                            == prev.callees@[e as int].name@;
                                    assert(visited@[i]@ == prev.callees@[e as int].name@);
                                    assert(false);
                                }
                            }
                            found = Some(prev.callees[e].name.clone());
                        },
                    }
                }
                match found {
                    Some(nm) => {
                        proof {
                            // The pick is the first callee not on the path.
                            assert(dd_pick_ok(path@, nm@)) by {
                                assert(path@.last().callees@[e as int].name@ == nm@);
                            }
                            escapes = escapes + 1;
                        }
                        current = nm;
                    },
                    None => {
                        // No escape: every callee of the last node is already
                        // on the path; finish without a bottleneck.
                        proof {
                            assert(e as int == path@.last().callees@.len());
                            assert forall|k: int|
                                0 <= k < path@.last().callees@.len() implies on_path(
                                path@,
                                path@.len() as int,
                                (#[trigger] path@.last().callees@[k]).name@,
                            ) by {
                                assert(on_path(
                                    path@,
                                    path@.len() as int,
                                    prev.callees@[k].name@,
                                ));
                            }
                        }
                        return DrilldownResponse {
                            root,
                            total_samples: root_total,
                            path,
                            bottleneck: None,
                            error: None,
                            suggestions: None,
                        };
                    },
                }
            } else {
                // Expand the current function into a path node.
                let (sw, tw) = match find_name(&stats.names, &current) {
                    Some(j) => (stats.self_w[j], stats.total_w[j]),
                    None => {
                        proof {
                            assert(crate::aggregate::az_self_upto(
                                *self,
                                None,
                                current@,
                                self.threads@.len() as int,
                            ) == 0);
                        }
                        (0, 0)
                    },
                };
                proof {
                    assert(sw == self_weight_of(*self, current@));
                    assert(tw == total_weight_of(*self, current@));
                }
                let sp = pct_hundredths(sw, stats.total_weight);
                let tp = pct_hundredths(tw, stats.total_weight);
                let row = self.collect_adjacent(&current, false);
                let cpairs = sorted_positive_pairs(&row.names, &row.weights);
                let mut callees: Vec<DrilldownCallee> = Vec::new();
                let ghost mut cweights: Seq<i64> = Seq::empty();
                let mut c: usize = 0;
                while c < cpairs.len()
                    invariant
                        self.wf(),
                        crate::calltree::row_ok(row, *self, current@, false),
                        0 <= c <= cpairs@.len(),
                        callees@.len() == c,
                        cweights.len() == c,
                        forall|m2: int| 0 <= m2 < c ==> #[trigger] cweights[m2] == cpairs@[m2].0,
                        dd_callee_pct_sum(callees@) == crate::percent::sum_pct(
                            cweights,
                            row.total as int,
                        ),
                        crate::aggregate::sum_i64(cweights) == crate::sort::sum_keys(
                            cpairs@.take(c as int),
                        ),
                        crate::sort::sorted_desc(cpairs@),
                        forall|m2: int|
                            0 <= m2 < cpairs@.len() ==> {
                                let pr = #[trigger] cpairs@[m2];
                                &&& (pr.1 as int) < row.names@.len()
                                &&& pr.0 == row.weights@[pr.1 as int]
                                &&& pr.0 > 0
                            },
                        forall|m1: int, m2: int|
                            0 <= m1 < cpairs@.len() && 0 <= m2 < cpairs@.len() && m1 != m2 ==> (
                            #[trigger] cpairs@[m1]).1 != (#[trigger] cpairs@[m2]).1,
                        forall|m2: int|
                            0 <= m2 < c ==> {
                                let ce = #[trigger] callees@[m2];
                                &&& ce.name@ == row.names@[cpairs@[m2].1 as int]@
                                &&& callee_weight_of(*self, current@, ce.name@) == cpairs@[m2].0
                                &&& callee_weight_of(*self, current@, ce.name@) > 0
                                &&& ce.percent == pct_spec(
                                    callee_weight_of(*self, current@, ce.name@),
                                    az_adj_any_upto(
                                        *self,
                                        current@,
                                        false,
                                        self.threads@.len() as int,
                                    ),
                                )
                                &&& ce.is_hottest == (m2 == 0)
                            },
                    decreases cpairs@.len() - c,
                {
                    let (w, id) = cpairs[c];
                    let nm = row.names[id].clone();
                    let pc = pct_hundredths(w, row.total);
                    let ghost callees0 = callees@;
                    let ghost cw0 = cweights;
                    callees.push(DrilldownCallee { name: nm, percent: pc, is_hottest: c == 0 });
                    proof {
                        cweights = cweights.push(w);
                        assert(callees@.drop_last() =~= callees0);
                        assert(cweights.drop_last() =~= cw0);
                        assert(cweights.last() == w);
                        assert(cpairs@.take(c as int + 1).drop_last() =~= cpairs@.take(c as int));
                        assert(cpairs@.take(c as int + 1).last() == cpairs@[c as int]);
                        crate::aggregate::lemma_sum_push(cw0, w);
                    }
                    c = c + 1;
                }
                proof {
                    // The callee percentages, a full sibling group, stay
                    // within 100%.
                    assert forall|i: int| 0 <= i < cpairs@.len() implies (#[trigger] cpairs@[i]).0
                        >= 0 by {}
                    crate::sort::lemma_sum_keys_take(cpairs@, c as int);
                    assert(crate::aggregate::sum_i64(cweights) <= row.total);
                    assert forall|i: int| 0 <= i < cweights.len() implies #[trigger] cweights[i]
                        >= 0 by {
                        assert(cweights[i] == cpairs@[i].0);
                    }
                    crate::percent::lemma_sibling_percents_bounded(cweights, row.total as int);
                }
                let next = if callees.len() > 0 {
                    Some(callees[0].name.clone())
                } else {
                    None
                };
                let (file_path, line_number) = self.lookup_func_info(&current);
                let bott = sp > threshold_hundredths;
                proof {
                    // The current name is new on the path.
                    assert forall|m: int| 0 <= m < path@.len() implies (
                    #[trigger] path@[m]).function@ != current@ by {
                        assert(visited@[m]@ == path@[m].function@);
                    }
                    assert(!on_path(path@, path@.len() as int, current@));
                }
                visited.push(current.clone());
                let node = DrilldownNode {
                    function: current.clone(),
                    file_path,
                    line_number,
                    self_samples: sw,
                    total_samples: tw,
                    self_percent: sp,
                    total_percent: tp,
                    is_bottleneck: bott,
                    callees,
                };
                proof {
                    assert(dd_node_ok(*self, node)) by {
                        assert forall|other: Seq<char>|
                            #[trigger] callee_weight_of(*self, node.function@, other) > 0 implies
                        exists|k2: int|
                            0 <= k2 < node.callees@.len() && (#[trigger] node.callees@[k2]).name@
                                == other by {
                            if not_in_names(row.names@, other) {
                                assert(false);
                            }
                            let jj = choose|jj: int|
                                0 <= jj < row.names@.len() && (#[trigger] row.names@[jj])@
                                    == other;
                            assert(row.weights@[jj] == callee_weight_of(
                                *self,
                                node.function@,
                                other,
                            ));
                            assert(exists|m2: int|
                                0 <= m2 < cpairs@.len() && (#[trigger] cpairs@[m2]) == (
                                row.weights@[jj],
                                jj as usize,
                                ));
                            let pos = choose|pos: int|
                                0 <= pos < cpairs@.len() && cpairs@[pos] == (
                                row.weights@[jj],
                                jj as usize,
                                );
                            assert(node.callees@[pos].name@ == other);
                        }
                    }
                }
                let ghost path0 = path@;
                path.push(node);
                proof {
                    // The descent rule holds for the new pair, and the old
                    // pairs carry over.
                    assert forall|m: int| 0 <= m < path@.len() - 1 implies #[trigger] dd_step_ok(
                        path@,
                        m,
                    ) by {
                        if m < path0.len() - 1 {
                            assert(dd_step_ok(path0, m));
                            let k = choose|k: int|
                                {
                                    &&& 0 <= k < path0[m].callees@.len()
                                    &&& (#[trigger] path0[m].callees@[k]).name@ == path0[m
                                        + 1].function@
                                    &&& forall|k2: int|
                                        0 <= k2 < k ==> on_path(
                                            path0,
                                            m + 1,
                                            path0[m].callees@[k2].name@,
                                        )
                                };
                            assert(path@[m] == path0[m]);
                            assert(path@[m + 1] == path0[m + 1]);
                            assert forall|k2: int| 0 <= k2 < k implies on_path(
                                path@,
                                m + 1,
                                path@[m].callees@[k2].name@,
                            ) by {
                                lemma_on_path_frame(
                                    path0,
                                    path@,
                                    m + 1,
                                    path0[m].callees@[k2].name@,
                                );
                            }
                            assert(path@[m].callees@[k].name@ == path@[m + 1].function@);
                        } else {
                            // The pair into the pushed node follows the
                            // pending pick.
                            if path0.len() > 0 {
                                assert(dd_pick_ok(path0, current@));
                                let k = choose|k: int|
                                    {
                                        &&& 0 <= k < path0.last().callees@.len()
                                        &&& (#[trigger] path0.last().callees@[k]).name@ == current@
                                        &&& forall|k2: int|
                                            0 <= k2 < k ==> on_path(
                                                path0,
                                                path0.len() as int,
                                                path0.last().callees@[k2].name@,
                                            )
                                    };
                                assert(path@[m] == path0.last());
                                assert(path@[m + 1].function@ == current@);
                                assert forall|k2: int| 0 <= k2 < k implies on_path(
                                    path@,
                                    m + 1,
                                    path@[m].callees@[k2].name@,
                                ) by {
                                    lemma_on_path_frame(
                                        path0,
                                        path@,
                                        m + 1,
                                        path0.last().callees@[k2].name@,
                                    );
                                }
                                assert(path@[m].callees@[k].name@ == path@[m + 1].function@);
                            }
                        }
                    }
                }
                if bott {
                    let mut reason = String::from_str("High self-time (");
                    let ps = render_pct_tenths(sp);
                    reason.append(ps.as_str());
                    reason.append("%) indicates this function's own code is the bottleneck");
                    proof {
                        assert(reason@ =~= bottleneck_reason_str(sp as int));
                    }
                    return DrilldownResponse {
                        root,
                        total_samples: root_total,
                        path,
                        bottleneck: Some(BottleneckInfo { function: current, reason }),
                        error: None,
                        suggestions: None,
                    };
                }
                match next {
                    Some(n) => {
                        current = n;
                        proof {
                            // The hottest callee is the pending pick for the
                            // next step.
                            if !on_path(path@, path@.len() as int, current@) {
                                assert(path@.last().callees@[0].name@ == current@);
                                assert(dd_pick_ok(path@, current@));
                            }
                        }
                    },
                    None => {
                        proof {
                            assert(path@.last().callees@.len() == 0);
                        }
                        return DrilldownResponse {
                            root,
                            total_samples: root_total,
                            path,
                            bottleneck: None,
                            error: None,
                            suggestions: None,
                        };
                    },
                }
            }
            step = step + 1;
        }
        proof {
            // The step budget is spent; each step was a push or one escape
            // per push, so the path covers at least half the budget.
            assert(step == depth);
            assert(2 * path@.len() >= depth as int);
        }
        DrilldownResponse {
            root,
            total_samples: root_total,
            path,
            bottleneck: None,
            error: None,
            suggestions: None,
        }
    }
}

} // verus!
