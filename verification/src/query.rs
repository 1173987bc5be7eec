//! Resolution of a query's function pattern to a concrete function name.
//!
//! An exact match across all threads' function names wins; a substring match
//! is second; otherwise the pattern itself is returned and downstream
//! queries observe zero samples for it.

use vstd::prelude::*;
use vstd::string::StringExecFns;
use crate::model::ProfileAnalyzer;
use crate::strutil::{contains_seq, contains_substr, str_eq};

verus! {

/// `s` is the resolved name of some function of some thread.
pub open spec fn is_profile_name(az: ProfileAnalyzer, s: Seq<char>) -> bool {
    exists|ti: int, fi: int|
        0 <= ti < az.threads@.len() && 0 <= fi < az.threads@[ti].func_name_idx@.len()
            && az.threads@[ti].string_at(
            az.global_strings@,
            #[trigger] az.threads@[ti].func_name_idx@[fi],
        ) == s
}

/// Some function name contains `pat` as a substring.
pub open spec fn some_name_contains(az: ProfileAnalyzer, pat: Seq<char>) -> bool {
    exists|ti: int, fi: int|
        0 <= ti < az.threads@.len() && 0 <= fi < az.threads@[ti].func_name_idx@.len()
            && contains_seq(
            az.threads@[ti].string_at(
                az.global_strings@,
                #[trigger] az.threads@[ti].func_name_idx@[fi],
            ),
            pat,
        )
}

/// How a pattern resolves to a name: an exact match returns the pattern
/// itself, else a substring match returns some containing profile name, else
/// the pattern comes back verbatim.
pub open spec fn resolves_pattern(az: ProfileAnalyzer, pat: Seq<char>, r: Seq<char>) -> bool {
    &&& is_profile_name(az, pat) ==> r == pat
    &&& !is_profile_name(az, pat) && some_name_contains(az, pat) ==> is_profile_name(az, r)
        && contains_seq(r, pat)
    &&& !is_profile_name(az, pat) && !some_name_contains(az, pat) ==> r == pat
}

impl ProfileAnalyzer {
    /// Resolves a pattern to a function name: the pattern itself when it
    /// names a function exactly, else some function name containing it, else
    /// the pattern verbatim.
    pub fn find_matching_function(&self, pattern: &str) -> (r: String)
        ensures
            resolves_pattern(*self, pattern@, r@),
    {
        // Exact match first.
        let mut ti: usize = 0;
        while ti < self.threads.len()
            invariant
                0 <= ti <= self.threads@.len(),
                forall|t2: int, f2: int|
                    0 <= t2 < ti && 0 <= f2 < self.threads@[t2].func_name_idx@.len()
                        ==> self.threads@[t2].string_at(
                        self.global_strings@,
                        #[trigger] self.threads@[t2].func_name_idx@[f2],
                    ) != pattern@,
            decreases self.threads@.len() - ti,
        {
            let t = &self.threads[ti];
            let mut fi: usize = 0;
            while fi < t.func_name_idx.len()
                invariant
                    0 <= fi <= t.func_name_idx@.len(),
                    0 <= ti < self.threads@.len(),
                    t == &self.threads@[ti as int],
                    forall|f2: int|
                        0 <= f2 < fi ==> t.string_at(
                            self.global_strings@,
                            #[trigger] t.func_name_idx@[f2],
                        ) != pattern@,
                decreases t.func_name_idx@.len() - fi,
            {
                let name = t.get_string(t.func_name_idx[fi], &self.global_strings);
                if str_eq(name.as_str(), pattern) {
                    proof {
                        assert(self.threads@[ti as int].string_at(
                            self.global_strings@,
                            self.threads@[ti as int].func_name_idx@[fi as int],
                        ) == pattern@);
                        assert(is_profile_name(*self, pattern@));
                    }
                    return name;
                }
                fi = fi + 1;
            }
            ti = ti + 1;
        }
        // Substring match second.
        let mut ti2: usize = 0;
        while ti2 < self.threads.len()
            invariant
                0 <= ti2 <= self.threads@.len(),
                !is_profile_name(*self, pattern@),
                forall|t2: int, f2: int|
                    0 <= t2 < ti2 && 0 <= f2 < self.threads@[t2].func_name_idx@.len()
                        ==> !contains_seq(
                        self.threads@[t2].string_at(
                            self.global_strings@,
                            #[trigger] self.threads@[t2].func_name_idx@[f2],
                        ),
                        pattern@,
                    ),
            decreases self.threads@.len() - ti2,
        {
            let t = &self.threads[ti2];
            let mut fi: usize = 0;
            while fi < t.func_name_idx.len()
                invariant
                    0 <= fi <= t.func_name_idx@.len(),
                    0 <= ti2 < self.threads@.len(),
                    !is_profile_name(*self, pattern@),
                    t == &self.threads@[ti2 as int],
                    forall|f2: int|
                        0 <= f2 < fi ==> !contains_seq(
                            t.string_at(self.global_strings@, #[trigger] t.func_name_idx@[f2]),
                            pattern@,
                        ),
                decreases t.func_name_idx@.len() - fi,
            {
                let name = t.get_string(t.func_name_idx[fi], &self.global_strings);
                if contains_substr(name.as_str(), pattern) {
                    proof {
                        assert(self.threads@[ti2 as int].string_at(
                            self.global_strings@,
                            self.threads@[ti2 as int].func_name_idx@[fi as int],
                        ) == name@);
                        assert(is_profile_name(*self, name@));
                    }
                    return name;
                }
                fi = fi + 1;
            }
            ti2 = ti2 + 1;
        }
        String::from_str(pattern)
    }
}

} // verus!
