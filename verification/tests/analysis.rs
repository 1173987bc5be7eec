//! End-to-end tests of the analysis core on small synthetic profiles.

use samply_analysis::model::{decode_address_column, ProfileAnalyzer, RawProfileData, RawThreadTables};

fn thread_tables(
    names: &[&str],
    stacks: &[(Option<usize>, usize)],
    samples: &[(Option<usize>, i64)],
) -> RawThreadTables {
    // One function per name; one frame per function.
    let n = names.len();
    RawThreadTables {
        name: "main thread".to_string(),
        pid: "100".to_string(),
        tid: "200".to_string(),
        is_main_thread: true,
        samples_stack: samples.iter().map(|s| s.0).collect(),
        samples_weight: samples.iter().map(|s| s.1).collect(),
        samples_length: samples.len(),
        stack_prefix: stacks.iter().map(|s| s.0).collect(),
        stack_frame: stacks.iter().map(|s| s.1).collect(),
        stack_length: stacks.len(),
        frame_func: (0..n).collect(),
        frame_line: vec![],
        frame_address: vec![],
        frame_length: n,
        func_name: (0..n).collect(),
        func_file: vec![],
        func_line: vec![],
        func_length: n,
        string_table: names.iter().map(|s| s.to_string()).collect(),
    }
}

fn profile_of(threads: Vec<RawThreadTables>) -> ProfileAnalyzer {
    let raw = RawProfileData {
        product_name: "testprofile".to_string(),
        sampling_interval_us: 1000,
        threads,
        global_strings: vec![],
    };
    match ProfileAnalyzer::from_raw_profile(raw) {
        Ok(az) => az,
        Err(e) => panic!("{}", e.message()),
    }
}

/// Stacks `[main -> compute -> hash]` and `[main -> compute -> compare]`,
/// one sample of weight 1 each.
fn two_sample_profile() -> ProfileAnalyzer {
    let names = ["main", "compute", "hash", "compare"];
    // Stack nodes: 0 main (root), 1 compute (prefix 0), 2 hash (prefix 1),
    // 3 compare (prefix 1).  Samples address the leaves.
    let stacks = [(None, 0), (Some(0), 1), (Some(1), 2), (Some(1), 3)];
    let samples = [(Some(2), 1), (Some(3), 1)];
    profile_of(vec![thread_tables(&names, &stacks, &samples)])
}

#[test]
fn two_sample_self_vs_total() {
    let az = two_sample_profile();
    let hs = az.compute_hotspots(20, None);
    // Only leaves carry self time.
    assert_eq!(hs.len(), 2);
    assert_eq!(hs[0].rank, 1);
    assert_eq!(hs[1].rank, 2);
    for e in &hs {
        assert!(e.function.name == "hash" || e.function.name == "compare");
        assert_eq!(e.self_samples, 1);
        assert_eq!(e.total_samples, 1);
        assert_eq!(e.self_percent, 5000);
        assert_eq!(e.total_percent, 5000);
    }
    assert!(hs[0].function.name != hs[1].function.name);
}

#[test]
fn caller_tree_of_compute() {
    let az = two_sample_profile();
    let r = az.find_callers("compute", 2, 20);
    assert_eq!(r.function, "compute");
    assert_eq!(r.callers.len(), 1);
    assert_eq!(r.callers[0].name, "main");
    assert_eq!(r.callers[0].call_count, 2);
    assert_eq!(r.callers[0].percent, 10000);
    assert_eq!(r.callers[0].callers.len(), 0);
}

#[test]
fn callee_tree_of_compute() {
    let az = two_sample_profile();
    let r = az.find_callees("compute", 2, 20);
    assert_eq!(r.function, "compute");
    assert_eq!(r.callees.len(), 2);
    let mut total = 0;
    for c in &r.callees {
        assert!(c.name == "hash" || c.name == "compare");
        assert_eq!(c.call_count, 1);
        assert_eq!(c.percent, 5000);
        total += c.percent;
    }
    // Sibling percentages stay within 100%.
    assert!(total <= 10000);
}

#[test]
fn per_level_limit_truncates() {
    let az = two_sample_profile();
    let r = az.find_callees("compute", 2, 1);
    assert_eq!(r.callees.len(), 1);
}

#[test]
fn pattern_resolution() {
    let az = two_sample_profile();
    // Exact name wins.
    assert_eq!(az.find_matching_function("compute"), "compute");
    // Substring resolves to some containing name.
    let sub = az.find_matching_function("omput");
    assert!(sub.contains("omput"));
    assert_eq!(sub, "compute");
    // A missing pattern comes back verbatim.
    assert_eq!(az.find_matching_function("no_such_function"), "no_such_function");
}

#[test]
fn weight_conservation_and_total_vs_self() {
    // Weight conservation: the hotspot self times of all functions sum to
    // the sampled weight; totals dominate selves.
    let az = two_sample_profile();
    let s = az.get_summary();
    assert_eq!(s.total_samples, 2);
    let hs = az.compute_hotspots(100, None);
    let sum_self: i64 = hs.iter().map(|e| e.self_samples).sum();
    assert_eq!(sum_self, 2);
    for e in &hs {
        assert!(e.total_samples >= e.self_samples);
        assert!(e.self_percent <= 10000);
        assert!(e.total_percent <= 10000);
    }
}

#[test]
fn summary_threads() {
    let az = two_sample_profile();
    let s = az.get_summary();
    assert_eq!(s.product_name, "testprofile");
    assert_eq!(s.thread_count, 1);
    assert_eq!(s.threads[0].name, "main thread");
    assert_eq!(s.threads[0].pid, "100");
    assert_eq!(s.threads[0].tid, "200");
    assert!(s.threads[0].is_main);
    assert_eq!(s.threads[0].sample_count, 2);
    assert!(s.is_symbolicated);
}

#[test]
fn thread_filter_excludes() {
    let az = two_sample_profile();
    let none = az.compute_hotspots(20, Some("no such thread"));
    assert_eq!(none.len(), 0);
    let all = az.compute_hotspots(20, Some("main"));
    assert_eq!(all.len(), 2);
}

#[test]
fn drilldown_bottleneck() {
    // One chain root -> mid -> hot, 100 samples of weight 1 on the leaf.
    let names = ["root", "mid", "hot"];
    let stacks = [(None, 0), (Some(0), 1), (Some(1), 2)];
    let samples: Vec<(Option<usize>, i64)> = (0..100).map(|_| (Some(2), 1)).collect();
    let az = profile_of(vec![thread_tables(&names, &stacks, &samples)]);
    let r = az.drilldown("root", 10, 500);
    assert!(r.error.is_none());
    assert_eq!(r.root, "root");
    assert_eq!(r.total_samples, 100);
    assert_eq!(r.path.len(), 3);
    assert_eq!(r.path[0].function, "root");
    assert_eq!(r.path[1].function, "mid");
    assert_eq!(r.path[2].function, "hot");
    assert_eq!(r.path[2].self_percent, 10000);
    assert!(r.path[2].is_bottleneck);
    let b = r.bottleneck.expect("bottleneck");
    assert_eq!(b.function, "hot");
    assert!(b.reason.contains("100.0%"));
}

#[test]
fn drilldown_cycle_makes_progress() {
    // Stacks [A -> B -> A -> C] and [A -> B -> A] with equal weights.
    let names = ["A", "B", "C"];
    let stacks = [(None, 0), (Some(0), 1), (Some(1), 0), (Some(2), 2)];
    let samples = [(Some(3), 1), (Some(2), 1)];
    let az = profile_of(vec![thread_tables(&names, &stacks, &samples)]);
    let r = az.drilldown("A", 10, 9900);
    assert!(r.error.is_none());
    assert!(r.path.len() <= 10);
    // No function appears twice on the path.
    for i in 0..r.path.len() {
        for j in 0..r.path.len() {
            if i != j {
                assert!(r.path[i].function != r.path[j].function);
            }
        }
    }
    // The walk descends into the hottest callee (B carries two call pairs
    // from A, C one) and stops when B's only callee is already on the path.
    assert_eq!(r.path.len(), 2);
    assert_eq!(r.path[0].function, "A");
    assert_eq!(r.path[1].function, "B");
}

#[test]
fn drilldown_unknown_root_suggests() {
    let az = two_sample_profile();
    let r = az.drilldown("zzz_missing", 10, 500);
    assert!(r.error.is_some());
    assert_eq!(r.path.len(), 0);
    assert!(r.bottleneck.is_none());
    let sugg = r.suggestions.expect("suggestions");
    assert_eq!(sugg.len(), 4);
    // The hottest suggestions come first: main and compute carry the whole
    // weight, hash and compare half of it.
    assert!(sugg[0].contains("(100.0%)"));
    assert!(sugg[1].contains("(100.0%)"));
    assert!(sugg[2].contains("(50.0%)"));
    assert!(sugg[3].contains("(50.0%)"));
}

#[test]
fn symbolication_heuristic() {
    // Twenty functions named like raw addresses: unsymbolicated.
    let names: Vec<String> = (0..20).map(|i| format!("0x{:x}", 0x100 + i)).collect();
    let name_refs: Vec<&str> = names.iter().map(|s| s.as_str()).collect();
    let stacks: Vec<(Option<usize>, usize)> = (0..20).map(|i| (None, i)).collect();
    let samples: Vec<(Option<usize>, i64)> = (0..20).map(|i| (Some(i), 1)).collect();
    let az = profile_of(vec![thread_tables(&name_refs, &stacks, &samples)]);
    assert!(az.is_likely_unsymbolicated());
    assert!(!az.get_summary().is_symbolicated);
    // The same shape under human names is symbolicated.
    let names2: Vec<String> = (0..20).map(|i| format!("work_item_{}", i)).collect();
    let name_refs2: Vec<&str> = names2.iter().map(|s| s.as_str()).collect();
    let az2 = profile_of(vec![thread_tables(&name_refs2, &stacks, &samples)]);
    assert!(!az2.is_likely_unsymbolicated());
    assert!(az2.get_summary().is_symbolicated);
}

#[test]
fn address_column_decoding() {
    let r = decode_address_column(&vec![5, -1, 10]);
    assert_eq!(r, vec![Some(5u64), None, Some(10u64)]);
}

#[test]
fn invalid_profile_rejected() {
    // A weight column shorter than the declared table length fails decode.
    let mut t = thread_tables(&["f"], &[(None, 0)], &[(Some(0), 1)]);
    t.samples_weight = vec![];
    let raw = RawProfileData {
        product_name: String::new(),
        sampling_interval_us: 0,
        threads: vec![t],
        global_strings: vec![],
    };
    assert!(ProfileAnalyzer::from_raw_profile(raw).is_err());
    // A negative weight fails decode.
    let t2 = thread_tables(&["f"], &[(None, 0)], &[(Some(0), -1)]);
    let raw2 = RawProfileData {
        product_name: String::new(),
        sampling_interval_us: 0,
        threads: vec![t2],
        global_strings: vec![],
    };
    assert!(ProfileAnalyzer::from_raw_profile(raw2).is_err());
}

#[test]
fn string_pool_overlay() {
    // A thread with an empty local pool resolves through the global pool;
    // an index beyond both yields a placeholder.
    let mut t = thread_tables(&[], &[(None, 0)], &[(Some(0), 1)]);
    t.frame_func = vec![0];
    t.frame_length = 1;
    t.func_name = vec![0];
    t.func_length = 1;
    let raw = RawProfileData {
        product_name: String::new(),
        sampling_interval_us: 0,
        threads: vec![t],
        global_strings: vec!["global_fn".to_string()],
    };
    let az = ProfileAnalyzer::from_raw_profile(raw).unwrap();
    let hs = az.compute_hotspots(10, None);
    assert_eq!(hs.len(), 1);
    assert_eq!(hs[0].function.name, "global_fn");
    // Placeholder for an out-of-range string index.
    let t2 = az.threads.get(0).unwrap();
    assert_eq!(t2.get_string(7, &az.global_strings), "<string 7>");
    assert_eq!(t2.get_func_name(9, &az.global_strings), "<func 9>");
}

#[test]
fn test_analysis_error_display() {
    let err = samply_analysis::model::AnalysisError::InvalidProfile("test".to_string());
    assert!(err.message().contains("test"));
}

#[test]
fn hot_lines_and_addresses() {
    // One function whose frames carry source lines and addresses; three
    // frames so distinct leaves attribute to distinct lines.
    let mut t = thread_tables(&["work"], &[(None, 0), (None, 1), (None, 2)], &[]);
    t.frame_func = vec![0, 0, 0];
    t.frame_line = vec![Some(7), Some(9), Some(7)];
    t.frame_address = vec![16, -1, 32];
    t.frame_length = 3;
    t.samples_stack = vec![Some(0), Some(1), Some(2), Some(2)];
    t.samples_weight = vec![1, 1, 1, 1];
    t.samples_length = 4;
    let az = profile_of(vec![t]);
    let name = "work".to_string();
    let lines = az.hot_lines_for(&name, None);
    // Line 7 holds three samples (frames 0 and 2), line 9 one; the
    // percentages are shares of the function's four self samples.
    assert_eq!(lines.len(), 2);
    assert_eq!(lines[0].line, 7);
    assert_eq!(lines[0].samples, 3);
    assert_eq!(lines[0].percent, 7500);
    assert_eq!(lines[1].line, 9);
    assert_eq!(lines[1].samples, 1);
    assert_eq!(lines[1].percent, 2500);
    let addrs = az.hot_addresses_for(&name, None);
    // Address 32 holds two samples, address 16 one; frame 1 has none.
    assert_eq!(addrs.len(), 2);
    assert_eq!(addrs[0].address, 32);
    assert_eq!(addrs[0].samples, 2);
    assert_eq!(addrs[0].percent, 5000);
    assert_eq!(addrs[1].address, 16);
    assert_eq!(addrs[1].samples, 1);
    assert_eq!(addrs[1].percent, 2500);
}
