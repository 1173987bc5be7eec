//! Region grouping for annotated disassembly.
//!
//! Around every hot (sampled) instruction a context window of five
//! instructions on each side is shown; overlapping or touching windows merge
//! into one region.  The disassembly itself is outside the library; this is
//! the index arithmetic that decides which instruction ranges are shown.

use vstd::prelude::*;
use crate::strutil::str_eq;

verus! {

/// Disassembler mode chosen from a library's architecture tag.
pub enum ArchMode {
    Arm64,
    X86_64,
    X86,
}

/// Selects the disassembler mode for an architecture tag: `aarch64`/`arm64`
/// mean ARM64; the empty tag, `x86_64` and `x86-64` mean x86-64;
/// `x86`/`i386` mean x86; anything else is unsupported.
pub fn arch_mode_for_tag(tag: &str) -> (r: Option<ArchMode>)
    ensures
        r == (if tag@ == "aarch64"@ || tag@ == "arm64"@ {
            Some(ArchMode::Arm64)
        } else if tag@ == ""@ || tag@ == "x86_64"@ || tag@ == "x86-64"@ {
            Some(ArchMode::X86_64)
        } else if tag@ == "x86"@ || tag@ == "i386"@ {
            Some(ArchMode::X86)
        } else {
            None::<ArchMode>
        }),
{
    if str_eq(tag, "aarch64") || str_eq(tag, "arm64") {
        Some(ArchMode::Arm64)
    } else if str_eq(tag, "") || str_eq(tag, "x86_64") || str_eq(tag, "x86-64") {
        Some(ArchMode::X86_64)
    } else if str_eq(tag, "x86") || str_eq(tag, "i386") {
        Some(ArchMode::X86)
    } else {
        None
    }
}

/// Position `p` lies in some hot instruction's context window.
pub open spec fn covered(hot: Seq<usize>, n: usize, p: int) -> bool {
    exists|m: int|
        0 <= m < hot.len() && 0 <= p < n && (#[trigger] hot[m]) - 5 <= p <= hot[m] + 5
}

/// Position `p` lies in one of the ranges.
pub open spec fn in_ranges(rs: Seq<(usize, usize)>, p: int) -> bool {
    exists|k: int| 0 <= k < rs.len() && (#[trigger] rs[k]).0 <= p < rs[k].1
}

/// Merges the context windows of the hot instructions (given in ascending
/// order, all within the instruction count) into disjoint, ordered ranges
/// that cover exactly the windowed positions.
pub fn group_hot_regions(n: usize, hot: &Vec<usize>) -> (r: Vec<(usize, usize)>)
    requires
        forall|i: int, j: int| 0 <= i < j < hot@.len() ==> (#[trigger] hot@[i]) <= (
        #[trigger] hot@[j]),
        forall|i: int| 0 <= i < hot@.len() ==> (#[trigger] hot@[i]) < n,
    ensures
        forall|k: int| 0 <= k < r@.len() ==> (#[trigger] r@[k]).0 < r@[k].1 <= n,
        forall|k: int| 0 <= k < r@.len() - 1 ==> (#[trigger] r@[k]).1 < r@[k + 1].0,
        forall|p: int| in_ranges(r@, p) <==> covered(hot@, n, p),
{
    let mut out: Vec<(usize, usize)> = Vec::new();
    let mut m: usize = 0;
    while m < hot.len()
        invariant
            0 <= m <= hot@.len(),
            forall|i: int, j: int| 0 <= i < j < hot@.len() ==> (#[trigger] hot@[i]) <= (
            #[trigger] hot@[j]),
            forall|i: int| 0 <= i < hot@.len() ==> (#[trigger] hot@[i]) < n,
            forall|k: int| 0 <= k < out@.len() ==> (#[trigger] out@[k]).0 < out@[k].1 <= n,
            forall|k: int| 0 <= k < out@.len() - 1 ==> (#[trigger] out@[k]).1 < out@[k + 1].0,
            forall|p: int| in_ranges(out@, p) <==> covered(hot@.subrange(0, m as int), n, p),
            out@.len() > 0 && m > 0 ==> (out@.last().0 <= hot@[m as int - 1] - 5
                || out@.last().0 == 0) && hot@[m as int - 1] < out@.last().1,
            m > 0 ==> out@.len() > 0,
            m == 0 ==> out@.len() == 0,
        decreases hot@.len() - m,
    {
        let h = hot[m];
        let start: usize = if h >= 5 {
            h - 5
        } else {
            0
        };
        let end: usize = if n - h > 6 {
            h + 6
        } else {
            n
        };
        let ghost out0 = out@;
        let ghost hpre = hot@.subrange(0, m as int);
        let mut extended = false;
        if out.len() > 0 {
            let lastidx = out.len() - 1;
            let last = out[lastidx];
            if start <= last.1 {
                // Overlapping or touching window: extend the last range.
                let newend: usize = if end > last.1 {
                    end
                } else {
                    last.1
                };
                out[lastidx] = (last.0, newend);
                extended = true;
                proof {
                    assert forall|p: int| in_ranges(out@, p) implies covered(
                        hot@.subrange(0, m as int + 1),
                        n,
                        p,
                    ) by {
                        let k = choose|k: int| 0 <= k < out@.len() && (#[trigger] out@[k]).0 <= p
                            < out@[k].1;
                        if k < out@.len() - 1 {
                            assert(out0[k] == out@[k]);
                            assert(in_ranges(out0, p));
                            assert(covered(hpre, n, p));
                            let m0 = choose|m0: int|
                                0 <= m0 < hpre.len() && 0 <= p < n && (#[trigger] hpre[m0]) - 5
                                    <= p <= hpre[m0] + 5;
                            assert(hot@.subrange(0, m as int + 1)[m0] == hpre[m0]);
                        } else {
                            if p < out0[k].1 {
                                assert(in_ranges(out0, p));
                                assert(covered(hpre, n, p));
                                let m0 = choose|m0: int|
                                    0 <= m0 < hpre.len() && 0 <= p < n && (#[trigger] hpre[m0]) - 5
                                        <= p <= hpre[m0] + 5;
                                assert(hot@.subrange(0, m as int + 1)[m0] == hpre[m0]);
                            } else {
                                // Newly covered by this window.
                                assert(hot@.subrange(0, m as int + 1)[m as int] == h);
                                assert(h - 5 <= p <= h + 5);
                            }
                        }
                    }
                    assert forall|p: int| covered(hot@.subrange(0, m as int + 1), n, p) implies
                    in_ranges(out@, p) by {
                        let m0 = choose|m0: int|
                            0 <= m0 < m + 1 && 0 <= p < n && (#[trigger] hot@.subrange(
                                0,
                                m as int + 1,
                            )[m0]) - 5 <= p <= hot@.subrange(0, m as int + 1)[m0] + 5;
                        if m0 < m {
                            assert(hpre[m0] == hot@.subrange(0, m as int + 1)[m0]);
                            assert(covered(hpre, n, p));
                            assert(covered(hot@.subrange(0, m as int), n, p));
                            assert(in_ranges(out0, p));
                            let k = choose|k: int|
                                0 <= k < out0.len() && (#[trigger] out0[k]).0 <= p < out0[k].1;
                            if k < out0.len() - 1 {
                                assert(out@[k] == out0[k]);
                            } else {
                                assert(out@[k].0 == out0[k].0 && out@[k].1 >= out0[k].1);
                            }
                            assert(in_ranges(out@, p)) by {
                                assert(out@[k].0 <= p < out@[k].1);
                            }
                        } else {
                            // Window of the new hot index.
                            let k = out@.len() - 1;
                            assert(hot@.subrange(0, m as int + 1)[m0] == h);
                            assert(in_ranges(out@, p)) by {
                                assert(out@[k].0 <= p < out@[k].1);
                            }
                        }
                    }
                }
            }
        }
        if !extended {
            proof {
                // A fresh range: the window starts past the last range's end.
                if out0.len() > 0 && m > 0 {
                    assert(hot@[m as int - 1] <= h);
                }
            }
            out.push((start, end));
            proof {
                assert forall|p: int| in_ranges(out@, p) implies covered(
                    hot@.subrange(0, m as int + 1),
                    n,
                    p,
                ) by {
                    let k = choose|k: int| 0 <= k < out@.len() && (#[trigger] out@[k]).0 <= p
                        < out@[k].1;
                    if k < out@.len() - 1 {
                        assert(out0[k] == out@[k]);
                        assert(in_ranges(out0, p));
                        assert(covered(hpre, n, p));
                        let m0 = choose|m0: int|
                            0 <= m0 < hpre.len() && 0 <= p < n && (#[trigger] hpre[m0]) - 5 <= p
                                <= hpre[m0] + 5;
                        assert(hot@.subrange(0, m as int + 1)[m0] == hpre[m0]);
                    } else {
                        assert(hot@.subrange(0, m as int + 1)[m as int] == h);
                        assert(h - 5 <= p <= h + 5);
                    }
                }
                assert forall|p: int| covered(hot@.subrange(0, m as int + 1), n, p) implies
                in_ranges(out@, p) by {
                    let m0 = choose|m0: int|
                        0 <= m0 < m + 1 && 0 <= p < n && (#[trigger] hot@.subrange(
                            0,
                            m as int + 1,
                        )[m0]) - 5 <= p <= hot@.subrange(0, m as int + 1)[m0] + 5;
                    if m0 < m {
                        assert(hpre[m0] == hot@.subrange(0, m as int + 1)[m0]);
                        assert(covered(hpre, n, p));
                        assert(covered(hot@.subrange(0, m as int), n, p));
                        assert(in_ranges(out0, p));
                        let k = choose|k: int|
                            0 <= k < out0.len() && (#[trigger] out0[k]).0 <= p < out0[k].1;
                        assert(out@[k] == out0[k]);
                        assert(in_ranges(out@, p)) by {
                            assert(out@[k].0 <= p < out@[k].1);
                        }
                    } else {
                        let k = out@.len() - 1;
                        assert(hot@.subrange(0, m as int + 1)[m0] == h);
                        assert(in_ranges(out@, p)) by {
                            assert(out@[k].0 <= p < out@[k].1);
                        }
                    }
                }
            }
        }
        m = m + 1;
    }
    proof {
        assert(hot@.subrange(0, hot@.len() as int) =~= hot@);
    }
    out
}

} // verus!
