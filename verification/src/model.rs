//! The decoded profile model: per-thread columnar tables, bounds-checked
//! accessors, and the leaf-first stack walker.
//!
//! A profile is a set of threads; each thread holds parallel columns for
//! samples, stack nodes, frames and functions, plus a thread-local string
//! pool that overlays the profile-wide pool.  All accessors return sentinel
//! values for out-of-range indices rather than fault, and the stack walker
//! bounds its walk by the stack-table size so that a malformed (cyclic)
//! prefix chain cannot loop forever.

use vstd::prelude::*;
use vstd::string::StringExecFns;
use crate::numfmt::{dec_str, dec_u64};

verus! {

/// Largest accepted stack-table length.  Keeps every walk, and with it every
/// per-edge accumulation, small enough that weight sums provably fit in an
/// `i64` (the product of the two caps stays below 2^62).
pub const MAX_STACK_TABLE: usize = 0x4000_0000;

/// Largest accepted sum of all sample weights across all threads.
pub const MAX_TOTAL_WEIGHT: i64 = 0x1_0000_0000;

/// Failure surfaced by profile decoding.
#[derive(Debug)]
pub enum AnalysisError {
    /// The profile file could not be read.
    IoError(String),
    /// The profile file is not well-formed JSON.
    JsonError(String),
    /// The profile JSON misses a required table or a column length disagrees
    /// with its table's length.
    InvalidProfile(String),
}

impl AnalysisError {
    /// Human-readable description, prefixed by the error kind.
    pub fn message(&self) -> (r: String)
        ensures
            r@ == self.message_spec(),
    {
        match self {
            AnalysisError::IoError(e) => {
                let mut s = String::from_str("IO error: ");
                s.append(e.as_str());
                s
            },
            AnalysisError::JsonError(e) => {
                let mut s = String::from_str("JSON parse error: ");
                s.append(e.as_str());
                s
            },
            AnalysisError::InvalidProfile(e) => {
                let mut s = String::from_str("Invalid profile: ");
                s.append(e.as_str());
                s
            },
        }
    }

    /// The message text, by error kind.
    pub open spec fn message_spec(&self) -> Seq<char> {
        match self {
            AnalysisError::IoError(e) => "IO error: "@ + e@,
            AnalysisError::JsonError(e) => "JSON parse error: "@ + e@,
            AnalysisError::InvalidProfile(e) => "Invalid profile: "@ + e@,
        }
    }
}

/// Raw columns of one thread, exactly as decoded from the profile JSON.
///
/// Address entries are still signed here: the on-disk format stores absent
/// addresses as negative sentinels (notably -1).
pub struct RawThreadTables {
    pub name: String,
    pub pid: String,
    pub tid: String,
    pub is_main_thread: bool,
    pub samples_stack: Vec<Option<usize>>,
    pub samples_weight: Vec<i64>,
    pub samples_length: usize,
    pub stack_prefix: Vec<Option<usize>>,
    pub stack_frame: Vec<usize>,
    pub stack_length: usize,
    pub frame_func: Vec<usize>,
    pub frame_line: Vec<Option<u32>>,
    pub frame_address: Vec<i64>,
    pub frame_length: usize,
    pub func_name: Vec<usize>,
    pub func_file: Vec<Option<usize>>,
    pub func_line: Vec<Option<u32>>,
    pub func_length: usize,
    pub string_table: Vec<String>,
}

/// A whole raw profile in plain values.
pub struct RawProfileData {
    pub product_name: String,
    /// Sampling interval in microseconds (the on-disk format stores
    /// fractional milliseconds).
    pub sampling_interval_us: u64,
    pub threads: Vec<RawThreadTables>,
    pub global_strings: Vec<String>,
}

/// One decoded thread: validated columns plus identity.
pub struct ThreadData {
    pub name: String,
    pub pid: String,
    pub tid: String,
    pub is_main_thread: bool,
    /// `(stack index or none, weight)` per sample; weights are nonnegative.
    pub samples: Vec<(Option<usize>, i64)>,
    pub stack_prefix: Vec<Option<usize>>,
    pub stack_frame: Vec<usize>,
    pub frame_func: Vec<usize>,
    pub frame_line: Vec<Option<u32>>,
    pub frame_address: Vec<Option<u64>>,
    pub func_name_idx: Vec<usize>,
    pub func_file_idx: Vec<Option<usize>>,
    pub func_line: Vec<Option<u32>>,
    pub string_table: Vec<String>,
}

impl ThreadData {
    /// Validity established by decoding: the stack table is consistent and
    /// small enough, and all weights are nonnegative.
    pub open spec fn wf(&self) -> bool {
        &&& self.stack_prefix@.len() == self.stack_frame@.len()
        &&& self.stack_prefix@.len() <= MAX_STACK_TABLE
        &&& forall|i: int|
            0 <= i < self.samples@.len() ==> (#[trigger] self.samples@[i]).1 >= 0
    }

    /// Walk fuel: the stack-table length (an acyclic chain visits each node
    /// at most once, so this never cuts a well-formed walk short), with a
    /// floor of one so that the sentinel leaf survives an empty table.
    pub open spec fn fuel(&self) -> nat {
        if self.stack_prefix@.len() == 0 {
            1nat
        } else {
            self.stack_prefix@.len() as nat
        }
    }

    /// Stack node's frame, with sentinel 0 out of range.
    pub open spec fn stack_frame_at(&self, i: usize) -> usize {
        if i < self.stack_frame@.len() {
            self.stack_frame@[i as int]
        } else {
            0
        }
    }

    /// Stack node's prefix, with sentinel none out of range.
    pub open spec fn stack_prefix_at(&self, i: usize) -> Option<usize> {
        if i < self.stack_prefix@.len() {
            self.stack_prefix@[i as int]
        } else {
            None
        }
    }

    /// Frame's function, with sentinel 0 out of range.
    pub open spec fn frame_func_at(&self, i: usize) -> usize {
        if i < self.frame_func@.len() {
            self.frame_func@[i as int]
        } else {
            0
        }
    }

    /// Frame's source line, if recorded.
    pub open spec fn frame_line_at(&self, i: usize) -> Option<u32> {
        if i < self.frame_line@.len() {
            self.frame_line@[i as int]
        } else {
            None
        }
    }

    /// Frame's sampled address, if recorded.
    pub open spec fn frame_address_at(&self, i: usize) -> Option<u64> {
        if i < self.frame_address@.len() {
            self.frame_address@[i as int]
        } else {
            None
        }
    }

    /// String resolution: thread-local pool first, then the profile-wide
    /// pool, then a synthetic placeholder.
    pub open spec fn string_at(&self, gs: Seq<String>, idx: usize) -> Seq<char> {
        if idx < self.string_table@.len() {
            self.string_table@[idx as int]@
        } else if idx < gs.len() {
            gs[idx as int]@
        } else {
            "<string "@ + dec_str(idx as int) + ">"@
        }
    }

    /// Resolved function name, with a placeholder for an out-of-range
    /// function index.
    pub open spec fn func_name_at(&self, gs: Seq<String>, fi: usize) -> Seq<char> {
        if fi < self.func_name_idx@.len() {
            self.string_at(gs, self.func_name_idx@[fi as int])
        } else {
            "<func "@ + dec_str(fi as int) + ">"@
        }
    }

    /// Function's source file, if recorded.
    pub open spec fn func_file_at(&self, gs: Seq<String>, fi: usize) -> Option<Seq<char>> {
        if fi < self.func_file_idx@.len() {
            match self.func_file_idx@[fi as int] {
                Some(idx) => Some(self.string_at(gs, idx)),
                None => None,
            }
        } else {
            None
        }
    }

    /// Function's declared line, if recorded.
    pub open spec fn func_line_at(&self, fi: usize) -> Option<u32> {
        if fi < self.func_line@.len() {
            self.func_line@[fi as int]
        } else {
            None
        }
    }

    /// Resolves a string index against the local pool, then the profile-wide
    /// pool, then a placeholder.
    pub fn get_string(&self, idx: usize, global_strings: &Vec<String>) -> (r: String)
        ensures
            r@ == self.string_at(global_strings@, idx),
    {
        if idx < self.string_table.len() {
            self.string_table[idx].clone()
        } else if idx < global_strings.len() {
            global_strings[idx].clone()
        } else {
            let mut s = String::from_str("<string ");
            s.append(dec_u64(idx as u64).as_str());
            s.append(">");
            s
        }
    }

    /// Resolved name of a function, with a placeholder out of range.
    pub fn get_func_name(&self, func_idx: usize, global_strings: &Vec<String>) -> (r: String)
        ensures
            r@ == self.func_name_at(global_strings@, func_idx),
    {
        if func_idx < self.func_name_idx.len() {
            let name_idx = self.func_name_idx[func_idx];
            self.get_string(name_idx, global_strings)
        } else {
            let mut s = String::from_str("<func ");
            s.append(dec_u64(func_idx as u64).as_str());
            s.append(">");
            s
        }
    }

    /// Source file of a function, if recorded.
    pub fn get_func_file(&self, func_idx: usize, global_strings: &Vec<String>) -> (r: Option<
        String,
    >)
        ensures
            match r {
                Some(s) => self.func_file_at(global_strings@, func_idx) == Some(s@),
                None => self.func_file_at(global_strings@, func_idx) is None,
            },
    {
        if func_idx < self.func_file_idx.len() {
            match self.func_file_idx[func_idx] {
                Some(idx) => Some(self.get_string(idx, global_strings)),
                None => None,
            }
        } else {
            None
        }
    }

    /// Declared line of a function, if recorded.
    pub fn get_func_line(&self, func_idx: usize) -> (r: Option<u32>)
        ensures
            r == self.func_line_at(func_idx),
    {
        if func_idx < self.func_line.len() {
            self.func_line[func_idx]
        } else {
            None
        }
    }

    /// Frame's function index, with sentinel 0 out of range.
    pub fn get_frame_func(&self, frame_idx: usize) -> (r: usize)
        ensures
            r == self.frame_func_at(frame_idx),
    {
        if frame_idx < self.frame_func.len() {
            self.frame_func[frame_idx]
        } else {
            0
        }
    }

    /// Frame's source line, if recorded.
    pub fn get_frame_line(&self, frame_idx: usize) -> (r: Option<u32>)
        ensures
            r == self.frame_line_at(frame_idx),
    {
        if frame_idx < self.frame_line.len() {
            self.frame_line[frame_idx]
        } else {
            None
        }
    }

    /// Frame's sampled address, if recorded.
    pub fn get_frame_address(&self, frame_idx: usize) -> (r: Option<u64>)
        ensures
            r == self.frame_address_at(frame_idx),
    {
        if frame_idx < self.frame_address.len() {
            self.frame_address[frame_idx]
        } else {
            None
        }
    }

    /// Stack node's frame index, with sentinel 0 out of range.
    pub fn get_stack_frame(&self, stack_idx: usize) -> (r: usize)
        ensures
            r == self.stack_frame_at(stack_idx),
    {
        if stack_idx < self.stack_frame.len() {
            self.stack_frame[stack_idx]
        } else {
            0
        }
    }

    /// Stack node's prefix, with sentinel none out of range.
    pub fn get_stack_prefix(&self, stack_idx: usize) -> (r: Option<usize>)
        ensures
            r == self.stack_prefix_at(stack_idx),
    {
        if stack_idx < self.stack_prefix.len() {
            self.stack_prefix[stack_idx]
        } else {
            None
        }
    }

    /// The leaf-first walk from a stack node, cut off after `fuel` steps.
    ///
    /// Each element is a `(function index, frame index)` pair; element 0 is
    /// the leaf.  The source format guarantees acyclic prefix chains, so the
    /// cutoff never truncates a well-formed profile's walk.
    pub open spec fn walk_spec(&self, idx: usize, fuel: nat) -> Seq<(usize, usize)>
        decreases fuel,
    {
        if fuel == 0 {
            seq![]
        } else {
            let frame = self.stack_frame_at(idx);
            let head = seq![(self.frame_func_at(frame), frame)];
            match self.stack_prefix_at(idx) {
                Some(p) => head + self.walk_spec(p, (fuel - 1) as nat),
                None => head,
            }
        }
    }

    /// Walks a stack from the leaf toward the root, collecting
    /// `(function index, frame index)` pairs; the walk length is bounded by
    /// the stack-table size.
    pub fn walk_stack(&self, stack_idx: usize) -> (r: Vec<(usize, usize)>)
        requires
            self.wf(),
        ensures
            r@ == self.walk_spec(stack_idx, self.fuel()),
            r@.len() >= 1,
    {
        let ghost fuel = self.fuel();
        let mut out: Vec<(usize, usize)> = Vec::new();
        let mut current: Option<usize> = Some(stack_idx);
        let mut steps: usize = 0;
        let max_steps: usize = if self.stack_prefix.len() == 0 {
            1
        } else {
            self.stack_prefix.len()
        };
        while steps < max_steps && current.is_some()
            invariant
                steps <= max_steps,
                max_steps == fuel,
                fuel == self.fuel(),
                out@.len() == steps,
                self.walk_spec(stack_idx, fuel) == out@ + (match current {
                    Some(c) => self.walk_spec(c, (fuel - steps) as nat),
                    None => Seq::<(usize, usize)>::empty(),
                }),
            decreases max_steps - steps,
        {
            let idx = current.unwrap();
            let frame = self.get_stack_frame(idx);
            let func = self.get_frame_func(frame);
            out.push((func, frame));
            current = self.get_stack_prefix(idx);
            steps = steps + 1;
            proof {
                assert(self.walk_spec(stack_idx, fuel) == out@ + (match current {
                    Some(c) => self.walk_spec(c, (fuel - steps) as nat),
                    None => Seq::<(usize, usize)>::empty(),
                }));
            }
        }
        proof {
            if current is Some {
                assert(self.walk_spec(stack_idx, fuel) == out@ + self.walk_spec(
                    current.unwrap(),
                    0,
                ));
            }
            assert(self.walk_spec(stack_idx, fuel) =~= out@);
            assert(self.walk_spec(stack_idx, fuel).len() >= 1);
        }
        out
    }

    /// Number of samples captured for this thread.
    pub fn sample_count(&self) -> (r: usize)
        ensures
            r == self.samples@.len(),
    {
        self.samples.len()
    }
}

/// The decoded, immutable profile: all threads plus the profile-wide
/// string pool.
pub struct ProfileAnalyzer {
    pub product_name: String,
    /// Sampling interval in microseconds.
    pub sampling_interval_us: u64,
    pub threads: Vec<ThreadData>,
    pub global_strings: Vec<String>,
}

/// Shape validity of one raw thread: every present column agrees with its
/// table's declared length, the stack table is small enough, and sample
/// weights are nonnegative.
pub open spec fn tables_ok(r: RawThreadTables) -> bool {
    &&& r.samples_stack@.len() == r.samples_length
    &&& r.samples_weight@.len() == r.samples_length
    &&& r.stack_prefix@.len() == r.stack_length
    &&& r.stack_frame@.len() == r.stack_length
    &&& r.stack_length <= MAX_STACK_TABLE
    &&& r.frame_func@.len() == r.frame_length
    &&& (r.frame_line@.len() == r.frame_length || r.frame_line@.len() == 0)
    &&& (r.frame_address@.len() == r.frame_length || r.frame_address@.len() == 0)
    &&& r.func_name@.len() == r.func_length
    &&& (r.func_file@.len() == r.func_length || r.func_file@.len() == 0)
    &&& (r.func_line@.len() == r.func_length || r.func_line@.len() == 0)
    &&& forall|i: int|
        0 <= i < r.samples_weight@.len() ==> #[trigger] r.samples_weight@[i] >= 0
}

/// Full validity of a raw profile: every thread's tables are well shaped and
/// the total sampled weight stays within the supported bound.
pub open spec fn raw_ok(raw: RawProfileData) -> bool {
    &&& forall|k: int| 0 <= k < raw.threads@.len() ==> tables_ok(#[trigger] raw.threads@[k])
    &&& raw_total_weight(raw.threads@, raw.threads@.len() as int) <= MAX_TOTAL_WEIGHT
}

/// The decoded thread carries exactly the raw thread's data, with samples
/// zipped into pairs and the address column decoded.
pub open spec fn td_matches(td: ThreadData, r: RawThreadTables) -> bool {
    &&& td.name == r.name
    &&& td.pid == r.pid
    &&& td.tid == r.tid
    &&& td.is_main_thread == r.is_main_thread
    &&& td.samples@.len() == r.samples_stack@.len()
    &&& forall|i: int|
        0 <= i < td.samples@.len() ==> #[trigger] td.samples@[i] == (
        r.samples_stack@[i],
        r.samples_weight@[i],
        )
    &&& td.stack_prefix == r.stack_prefix
    &&& td.stack_frame == r.stack_frame
    &&& td.frame_func == r.frame_func
    &&& td.frame_line == r.frame_line
    &&& td.frame_address@.len() == r.frame_address@.len()
    &&& forall|i: int|
        0 <= i < td.frame_address@.len() ==> #[trigger] td.frame_address@[i] == (
        if r.frame_address@[i] >= 0 {
            Some(r.frame_address@[i] as u64)
        } else {
            None::<u64>
        })
    &&& td.func_name_idx == r.func_name
    &&& td.func_file_idx == r.func_file
    &&& td.func_line == r.func_line
    &&& td.string_table == r.string_table
}

/// Sum of the first `n` sample weights of a thread.
pub open spec fn t_weight_sum(t: ThreadData, n: int) -> int
    decreases n,
{
    if n <= 0 {
        0
    } else {
        t_weight_sum(t, n - 1) + t.samples@[n - 1].1
    }
}

/// Sum of all sample weights over the first `k` threads.
pub open spec fn az_weight_sum(threads: Seq<ThreadData>, k: int) -> int
    decreases k,
{
    if k <= 0 {
        0
    } else {
        az_weight_sum(threads, k - 1) + t_weight_sum(
            threads[k - 1],
            threads[k - 1].samples@.len() as int,
        )
    }
}

/// Sum of the first `n` entries of a raw weight column.
pub open spec fn raw_weight_sum(w: Seq<i64>, n: int) -> int
    decreases n,
{
    if n <= 0 {
        0
    } else {
        raw_weight_sum(w, n - 1) + w[n - 1]
    }
}

/// Sum of all raw weights over the first `k` raw threads.
pub open spec fn raw_total_weight(ts: Seq<RawThreadTables>, k: int) -> int
    decreases k,
{
    if k <= 0 {
        0
    } else {
        raw_total_weight(ts, k - 1) + raw_weight_sum(
            ts[k - 1].samples_weight@,
            ts[k - 1].samples_weight@.len() as int,
        )
    }
}

/// Decodes a raw address column: nonnegative entries are addresses, negative
/// entries (notably -1) mean "unset".
pub fn decode_address_column(raw: &Vec<i64>) -> (r: Vec<Option<u64>>)
    ensures
        r@.len() == raw@.len(),
        forall|i: int|
            0 <= i < raw@.len() ==> #[trigger] r@[i] == (if raw@[i] >= 0 {
                Some(raw@[i] as u64)
            } else {
                None::<u64>
            }),
{
    let mut out: Vec<Option<u64>> = Vec::new();
    let mut i: usize = 0;
    while i < raw.len()
        invariant
            0 <= i <= raw@.len(),
            out@.len() == i,
            forall|j: int|
                0 <= j < i ==> #[trigger] out@[j] == (if raw@[j] >= 0 {
                    Some(raw@[j] as u64)
                } else {
                    None::<u64>
                }),
        decreases raw@.len() - i,
    {
        let v = raw[i];
        if v >= 0 {
            out.push(Some(v as u64));
        } else {
            out.push(None);
        }
        i = i + 1;
    }
    out
}

/// A prefix sum of a nonnegative weight column is nonnegative.
proof fn lemma_raw_weight_nonneg(w: Seq<i64>, i: int)
    requires
        0 <= i <= w.len(),
        forall|j: int| 0 <= j < w.len() ==> #[trigger] w[j] >= 0,
    ensures
        raw_weight_sum(w, i) >= 0,
    decreases i,
{
    if i > 0 {
        lemma_raw_weight_nonneg(w, i - 1);
    }
}

/// Prefix sums of a nonnegative weight column are monotone.
proof fn lemma_raw_weight_prefix(w: Seq<i64>, i: int, n: int)
    requires
        0 <= i <= n <= w.len(),
        forall|j: int| 0 <= j < w.len() ==> #[trigger] w[j] >= 0,
    ensures
        raw_weight_sum(w, i) <= raw_weight_sum(w, n),
    decreases n - i,
{
    if i < n {
        lemma_raw_weight_prefix(w, i, n - 1);
    }
}

/// Prefix totals over threads with nonnegative weights are monotone.
proof fn lemma_raw_total_prefix(ts: Seq<RawThreadTables>, k: int, n: int)
    requires
        0 <= k <= n <= ts.len(),
        forall|m: int| 0 <= m < ts.len() ==> tables_ok(#[trigger] ts[m]),
    ensures
        raw_total_weight(ts, k) <= raw_total_weight(ts, n),
    decreases n - k,
{
    if k < n {
        lemma_raw_total_prefix(ts, k, n - 1);
        lemma_raw_weight_nonneg(
            ts[n - 1].samples_weight@,
            ts[n - 1].samples_weight@.len() as int,
        );
    }
}

/// `az_weight_sum` over a prefix depends only on that prefix.
proof fn lemma_az_weight_sum_frame(s1: Seq<ThreadData>, s2: Seq<ThreadData>, k: int)
    requires
        0 <= k <= s1.len(),
        k <= s2.len(),
        forall|m: int| 0 <= m < k ==> s1[m] == s2[m],
    ensures
        az_weight_sum(s1, k) == az_weight_sum(s2, k),
    decreases k,
{
    if k > 0 {
        lemma_az_weight_sum_frame(s1, s2, k - 1);
    }
}

/// A decoded thread's weight sum equals the raw column's.
proof fn lemma_t_weight_matches(td: ThreadData, r: RawThreadTables, n: int)
    requires
        td_matches(td, r),
        0 <= n <= td.samples@.len(),
    ensures
        t_weight_sum(td, n) == raw_weight_sum(r.samples_weight@, n),
    decreases n,
{
    if n > 0 {
        lemma_t_weight_matches(td, r, n - 1);
    }
}

impl ProfileAnalyzer {
    /// Validity established by decoding: every thread is well formed and the
    /// total sampled weight fits the supported bound.
    pub open spec fn wf(&self) -> bool {
        &&& forall|k: int| 0 <= k < self.threads@.len() ==> (#[trigger] self.threads@[k]).wf()
        &&& 0 <= az_weight_sum(self.threads@, self.threads@.len() as int) <= MAX_TOTAL_WEIGHT
    }

    /// Builds the analyzer from raw decoded tables, validating them.
    ///
    /// Fails exactly when some thread's columns disagree with their table's
    /// declared length, a stack table is over the supported size, a sample
    /// weight is negative, or the total weight is over the supported bound.
    pub fn from_raw_profile(raw: RawProfileData) -> (r: Result<ProfileAnalyzer, AnalysisError>)
        ensures
            match r {
                Ok(az) => {
                    &&& raw_ok(raw)
                    &&& az.wf()
                    &&& az.product_name == raw.product_name
                    &&& az.sampling_interval_us == raw.sampling_interval_us
                    &&& az.global_strings == raw.global_strings
                    &&& az.threads@.len() == raw.threads@.len()
                    &&& forall|k: int|
                        0 <= k < az.threads@.len() ==> td_matches(
                            #[trigger] az.threads@[k],
                            raw.threads@[k],
                        )
                },
                Err(e) => !raw_ok(raw) && e is InvalidProfile,
            },
    {
        let ghost orig = raw.threads@;
        let RawProfileData { product_name, sampling_interval_us, threads: mut rest, global_strings } =
            raw;
        let mut threads: Vec<ThreadData> = Vec::new();
        let mut running: i64 = 0;
        while rest.len() > 0
            invariant
                orig == raw.threads@,
                threads@.len() + rest@.len() == orig.len(),
                rest@ == orig.subrange(threads@.len() as int, orig.len() as int),
                forall|k: int|
                    0 <= k < threads@.len() ==> tables_ok(#[trigger] orig[k]) && td_matches(
                        threads@[k],
                        orig[k],
                    ) && threads@[k].wf(),
                running == raw_total_weight(orig, threads@.len() as int),
                running == az_weight_sum(threads@, threads@.len() as int),
                0 <= running <= MAX_TOTAL_WEIGHT,
            decreases rest@.len(),
        {
            let ghost k = threads@.len() as int;
            let t = rest.remove(0);
            proof {
                assert(t == orig[k]);
                assert(rest@ =~= orig.subrange(k + 1, orig.len() as int));
            }
            let shape_ok = t.samples_stack.len() == t.samples_length
                && t.samples_weight.len() == t.samples_length
                && t.stack_prefix.len() == t.stack_length && t.stack_frame.len() == t.stack_length
                && t.stack_length <= MAX_STACK_TABLE && t.frame_func.len() == t.frame_length && (
            t.frame_line.len() == t.frame_length || t.frame_line.len() == 0) && (
            t.frame_address.len() == t.frame_length || t.frame_address.len() == 0)
                && t.func_name.len() == t.func_length && (t.func_file.len() == t.func_length
                || t.func_file.len() == 0) && (t.func_line.len() == t.func_length
                || t.func_line.len() == 0);
            if !shape_ok {
                return Err(AnalysisError::InvalidProfile(String::from_str(
                    "table column length disagrees with table length",
                )));
            }
            // Accumulate this thread's weights, rejecting negatives and a
            // total over the supported bound.
            let mut i: usize = 0;
            while i < t.samples_weight.len()
                invariant
                    orig == raw.threads@,
                    0 <= i <= t.samples_weight@.len(),
                    forall|j: int| 0 <= j < i ==> #[trigger] t.samples_weight@[j] >= 0,
                    running == raw_total_weight(orig, k) + raw_weight_sum(
                        t.samples_weight@,
                        i as int,
                    ),
                    raw_total_weight(orig, k) >= 0,
                    0 <= running <= MAX_TOTAL_WEIGHT,
                    t == orig[k],
                    0 <= k < orig.len(),
                    forall|m: int| 0 <= m < k ==> tables_ok(#[trigger] orig[m]),
                decreases t.samples_weight@.len() - i,
            {
                let w = t.samples_weight[i];
                if w < 0 {
                    return Err(AnalysisError::InvalidProfile(String::from_str(
                        "negative sample weight",
                    )));
                }
                if w > MAX_TOTAL_WEIGHT - running {
                    proof {
                        // Were the whole profile valid, the full total would
                        // bound this prefix; contradiction.
                        if (forall|m: int| 0 <= m < orig.len() ==> tables_ok(#[trigger] orig[m]))
                            && raw_total_weight(orig, orig.len() as int) <= MAX_TOTAL_WEIGHT {
                            assert(tables_ok(orig[k]));
                            lemma_raw_weight_prefix(
                                t.samples_weight@,
                                i + 1,
                                t.samples_weight@.len() as int,
                            );
                            assert(raw_total_weight(orig, k + 1) == raw_total_weight(orig, k)
                                + raw_weight_sum(
                                orig[k].samples_weight@,
                                orig[k].samples_weight@.len() as int,
                            ));
                            lemma_raw_total_prefix(orig, k + 1, orig.len() as int);
                            assert(false);
                        }
                    }
                    return Err(AnalysisError::InvalidProfile(String::from_str(
                        "total sample weight over the supported bound",
                    )));
                }
                running = running + w;
                i = i + 1;
            }
            // Build the decoded thread.
            let mut samples: Vec<(Option<usize>, i64)> = Vec::new();
            let mut j: usize = 0;
            while j < t.samples_stack.len()
                invariant
                    0 <= j <= t.samples_stack@.len(),
                    t.samples_weight@.len() == t.samples_stack@.len(),
                    samples@.len() == j,
                    forall|m: int|
                        0 <= m < j ==> #[trigger] samples@[m] == (
                        t.samples_stack@[m],
                        t.samples_weight@[m],
                        ),
                decreases t.samples_stack@.len() - j,
            {
                samples.push((t.samples_stack[j], t.samples_weight[j]));
                j = j + 1;
            }
            let frame_address = decode_address_column(&t.frame_address);
            let td = ThreadData {
                name: t.name,
                pid: t.pid,
                tid: t.tid,
                is_main_thread: t.is_main_thread,
                samples,
                stack_prefix: t.stack_prefix,
                stack_frame: t.stack_frame,
                frame_func: t.frame_func,
                frame_line: t.frame_line,
                frame_address,
                func_name_idx: t.func_name,
                func_file_idx: t.func_file,
                func_line: t.func_line,
                string_table: t.string_table,
            };
            proof {
                assert(td_matches(td, orig[k]));
                assert(tables_ok(orig[k]));
                lemma_t_weight_matches(td, orig[k], td.samples@.len() as int);
                lemma_az_weight_sum_frame(threads@, threads@.push(td), k);
                assert(az_weight_sum(threads@.push(td), k + 1) == az_weight_sum(
                    threads@.push(td),
                    k,
                ) + t_weight_sum(td, td.samples@.len() as int));
                assert(raw_total_weight(orig, k + 1) == raw_total_weight(orig, k)
                    + raw_weight_sum(
                    orig[k].samples_weight@,
                    orig[k].samples_weight@.len() as int,
                ));
            }
            threads.push(td);
        }
        proof {
            assert(orig.subrange(orig.len() as int, orig.len() as int) =~= Seq::<
                RawThreadTables,
            >::empty());
            assert forall|k: int| 0 <= k < threads@.len() implies (#[trigger] threads@[k]).wf() by {
                assert(tables_ok(orig[k]));
            }
        }
        let az = ProfileAnalyzer { product_name, sampling_interval_us, threads, global_strings };
        Ok(az)
    }
}

} // verus!
