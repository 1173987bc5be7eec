//! Tests of the session record, timestamps, ports, percentages and the
//! trusted byte-level helpers.

use samply_analysis::model::MAX_TOTAL_WEIGHT;
use samply_analysis::percent::pct_hundredths;
use samply_analysis::server_logic::{
    decompress_profile_bytes, generate_token, PortSelection,
};
use samply_analysis::session::{chrono_lite_now, format_timestamp, is_leap_year, Session};
use std::io::Write;
use samply_analysis::regions::group_hot_regions;
use samply_analysis::urlenc::encode;
use samply_analysis::client::{extract_http_body, QueryClient};
use samply_analysis::template::{replace_all, substitute_template};
use samply_analysis::regions::{arch_mode_for_tag, ArchMode};

#[test]
fn test_chrono_lite_now() {
    let timestamp = chrono_lite_now();
    // Should be in ISO 8601 format
    assert!(timestamp.contains("T"));
    assert!(timestamp.ends_with("Z"));
    assert_eq!(timestamp.len(), 20);
}

#[test]
fn test_session_roundtrip() {
    let session = Session::new(
        "http://127.0.0.1:3000/abc123".to_string(),
        "/path/to/profile.json".to_string(),
        4242,
    );

    let json = session.to_json().expect("fields are JSON-safe");
    let parsed = Session::from_json(&json).expect("canonical JSON parses");

    assert_eq!(session.server_url, parsed.server_url);
    assert_eq!(session.profile_path, parsed.profile_path);
    assert_eq!(session.pid, parsed.pid);
    assert_eq!(session.started_at, parsed.started_at);
}

#[test]
fn session_json_shape() {
    let s = Session {
        server_url: "http://h/t".to_string(),
        profile_path: "/p".to_string(),
        pid: 7,
        started_at: "2026-01-02T03:04:05Z".to_string(),
    };
    let j = s.to_json().unwrap();
    assert_eq!(
        j,
        "{\"server_url\":\"http://h/t\",\"profile_path\":\"/p\",\"pid\":7,\"started_at\":\"2026-01-02T03:04:05Z\"}"
    );
}

#[test]
fn session_json_rejects_garbage() {
    assert!(Session::from_json("").is_none());
    assert!(Session::from_json("{}").is_none());
    assert!(Session::from_json("{\"server_url\":\"x\"").is_none());
    // A non-canonical pid spelling is refused.
    assert!(
        Session::from_json("{\"server_url\":\"u\",\"profile_path\":\"p\",\"pid\":007,\"started_at\":\"t\"}")
            .is_none()
    );
    // Trailing garbage is refused.
    assert!(
        Session::from_json("{\"server_url\":\"u\",\"profile_path\":\"p\",\"pid\":7,\"started_at\":\"t\"}x")
            .is_none()
    );
}

#[test]
fn session_unsafe_field_refused() {
    let s = Session {
        server_url: "has\"quote".to_string(),
        profile_path: "/p".to_string(),
        pid: 1,
        started_at: "t".to_string(),
    };
    assert!(s.to_json().is_none());
}

#[test]
fn timestamps() {
    assert_eq!(format_timestamp(0), "1970-01-01T00:00:00Z");
    assert_eq!(format_timestamp(86399), "1970-01-01T23:59:59Z");
    assert_eq!(format_timestamp(86400), "1970-01-02T00:00:00Z");
    // 789 days after the epoch is the leap day of 1972.
    assert_eq!(format_timestamp(789 * 86400), "1972-02-29T00:00:00Z");
    assert!(is_leap_year(2000));
    assert!(!is_leap_year(1900));
    assert!(is_leap_year(1972));
    assert!(!is_leap_year(1970));
}

#[test]
fn port_selection() {
    match PortSelection::try_from_str("3000") {
        Ok(PortSelection::OnePort(p)) => assert_eq!(p, 3000),
        _ => panic!("expected one port"),
    }
    match PortSelection::try_from_str("3000+") {
        Ok(PortSelection::TryMultiple(a, b)) => {
            assert_eq!(a, 3000);
            assert_eq!(b, 3100);
        },
        _ => panic!("expected a port range"),
    }
    assert!(PortSelection::try_from_str("").is_err());
    assert!(PortSelection::try_from_str("abc").is_err());
    assert!(PortSelection::try_from_str("70000").is_err());
}

#[test]
fn percent_hundredths_values() {
    assert_eq!(pct_hundredths(1, 2), 5000);
    assert_eq!(pct_hundredths(1, 3), 3333);
    assert_eq!(pct_hundredths(0, 5), 0);
    assert_eq!(pct_hundredths(5, 5), 10000);
    assert_eq!(pct_hundredths(7, 0), 0);
    assert_eq!(pct_hundredths(MAX_TOTAL_WEIGHT, MAX_TOTAL_WEIGHT), 10000);
}

#[test]
fn token_generation() {
    let t1 = generate_token();
    let t2 = generate_token();
    assert_eq!(t1.len(), 39);
    assert_eq!(t2.len(), 39);
    // 24 random bytes collide with negligible probability.
    assert!(t1 != t2);
}

#[test]
fn gzip_decompression() {
    let payload = b"{\"meta\":{},\"threads\":[]}".to_vec();
    let mut enc = flate2::write::GzEncoder::new(Vec::new(), flate2::Compression::default());
    enc.write_all(&payload).unwrap();
    let gz = enc.finish().unwrap();
    let out = decompress_profile_bytes("profile.json.gz", gz).expect("valid gzip");
    assert_eq!(out, payload);
    // A non-gz name passes bytes through untouched.
    let out2 = decompress_profile_bytes("profile.json", payload.clone()).expect("plain");
    assert_eq!(out2, payload);
    // A gz name with garbage bytes is an error.
    assert!(decompress_profile_bytes("x.gz", vec![1, 2, 3]).is_err());
}

#[test]
fn client_from_session() {
    let s = Session {
        server_url: "http://127.0.0.1:1/t".to_string(),
        profile_path: "/p".to_string(),
        pid: 1,
        started_at: "t".to_string(),
    };
    assert!(s.is_server_alive());
    let c = samply_analysis::client::QueryClient::from_session(s, true).unwrap();
    assert_eq!(c.server_url, "http://127.0.0.1:1/t");
    let s2 = Session {
        server_url: "u".to_string(),
        profile_path: "p".to_string(),
        pid: 1,
        started_at: "t".to_string(),
    };
    let e = samply_analysis::client::QueryClient::from_session(s2, false).unwrap_err();
    assert!(e.message().contains("Connection failed"));
}

#[test]
fn region_grouping() {
    // Fifty instructions, hot at 10, 11 and 30: two merged context ranges.
    let r = group_hot_regions(50, &vec![10, 11, 30]);
    assert_eq!(r, vec![(5, 17), (25, 36)]);
    // Windows clip at both ends.
    assert_eq!(group_hot_regions(10, &vec![2, 9]), vec![(0, 10)]);
    assert_eq!(group_hot_regions(50, &vec![0]), vec![(0, 6)]);
    // No hot instructions: no regions.
    assert_eq!(group_hot_regions(50, &vec![]), Vec::<(usize, usize)>::new());
}

#[test]
fn percent_encoding() {
    assert_eq!(encode("abcXYZ019-._~"), "abcXYZ019-._~");
    assert_eq!(encode("a b"), "a%20b");
    assert_eq!(encode("a/b?c=d"), "a%2Fb%3Fc%3Dd");
    assert_eq!(encode("\u{e4}"), "%C3%A4");
    assert_eq!(encode("\u{20ac}"), "%E2%82%AC");
    assert_eq!(encode(""), "");
}

#[test]
fn http_body_extraction() {
    let ok = extract_http_body("HTTP/1.1 200 OK\r\nContent-Type: a\r\n\r\n{\"x\":1}");
    assert_eq!(ok.unwrap(), "{\"x\":1}");
    let no_delim = extract_http_body("HTTP/1.1 200 OK");
    assert!(no_delim.is_err());
    let not_ok = extract_http_body("HTTP/1.1 404 Not Found\r\n\r\nbody");
    assert!(not_ok.is_err());
}

#[test]
fn query_paths() {
    let c = QueryClient { server_url: "http://h:1/tok".to_string() };
    assert_eq!(c.query_hotspots_path(20, None), "http://h:1/tok/query/hotspots?limit=20");
    assert_eq!(
        c.query_hotspots_path(5, Some("GC thread")),
        "http://h:1/tok/query/hotspots?limit=5&thread=GC%20thread"
    );
    assert_eq!(
        c.query_callers_path("a b", 5, 20),
        "http://h:1/tok/query/callers?function=a%20b&depth=5&limit=20"
    );
    assert_eq!(
        c.query_callees_path("f", 3, 7),
        "http://h:1/tok/query/callees?function=f&depth=3&limit=7"
    );
    assert_eq!(c.query_summary_path(), "http://h:1/tok/query/summary");
}

#[test]
fn template_substitution() {
    let vals = vec![
        ("HOST".to_string(), "example".to_string()),
        ("PORT".to_string(), "80".to_string()),
    ];
    assert_eq!(
        substitute_template("http://HOST:PORT/ at HOST", &vals),
        "http://example:80/ at example"
    );
    assert_eq!(substitute_template("nothing to do", &vals), "nothing to do");
    assert_eq!(replace_all("aaa", "aa", "b"), "ba");
    assert_eq!(replace_all("xyx", "y", "yy"), "xyyx");
    assert_eq!(replace_all("abc", "", "z"), "abc");
}

#[test]
fn arch_tag_mapping() {
    assert!(matches!(arch_mode_for_tag("aarch64"), Some(ArchMode::Arm64)));
    assert!(matches!(arch_mode_for_tag("arm64"), Some(ArchMode::Arm64)));
    assert!(matches!(arch_mode_for_tag(""), Some(ArchMode::X86_64)));
    assert!(matches!(arch_mode_for_tag("x86_64"), Some(ArchMode::X86_64)));
    assert!(matches!(arch_mode_for_tag("x86-64"), Some(ArchMode::X86_64)));
    assert!(matches!(arch_mode_for_tag("x86"), Some(ArchMode::X86)));
    assert!(matches!(arch_mode_for_tag("i386"), Some(ArchMode::X86)));
    assert!(arch_mode_for_tag("riscv64").is_none());
}
