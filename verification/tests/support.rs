//! Tests of the digest, learning, metrics and orchestration helpers.

use hyper_processor::config::Settings;
use hyper_processor::digest::{digest_matches, hex_string, sha256_hex};
use hyper_processor::learning::{learning_line, record_library, record_observed, LearningLog};
use hyper_processor::metrics::{record_authorized_library, record_unauthorized_library, Metrics};
use hyper_processor::preload_check::scan_process_maps;
use hyper_processor::util::{collect_whitelist, is_system_library, parse_duration};

#[test]
fn test_hex_string() {
    assert_eq!(hex_string(&[]), "");
    assert_eq!(hex_string(&[0x00, 0xab, 0xff, 0x1c]), "00abff1c");
}

#[test]
fn test_sha256_hex_known_value() {
    let content = b"Hello, world! This is a test library.";
    assert_eq!(
        sha256_hex(content),
        "3d0de72ebc5f80e6461956a6c2767aabd95b6ce5398e9a8e581c825996066c11"
    );
    assert_eq!(
        sha256_hex(b""),
        "e3b0c44298fc1c149afbf4c8996fb92427ae41e4649b934ca495991b7852b855"
    );
}

#[test]
fn test_digest_matches() {
    let content = b"Hello, world! This is a test library.";
    assert!(digest_matches(
        content,
        "3d0de72ebc5f80e6461956a6c2767aabd95b6ce5398e9a8e581c825996066c11"
    ));
    assert!(!digest_matches(content, "deadbeef"));
}

#[test]
fn test_parse_duration() {
    assert_eq!(parse_duration("30s"), Some(30));
    assert_eq!(parse_duration("5m"), Some(300));
    assert_eq!(parse_duration("1h"), Some(3600));
    assert_eq!(parse_duration("0s"), Some(0));
    assert_eq!(parse_duration("10"), None);
    assert_eq!(parse_duration("s"), None);
    assert_eq!(parse_duration(""), None);
    assert_eq!(parse_duration("5d"), None);
    assert_eq!(parse_duration("12x34s"), None);
}

#[test]
fn test_is_system_library() {
    assert!(is_system_library("libc.so.6"));
    assert!(is_system_library("ld-linux-x86-64.so.2"));
    assert!(is_system_library("libgcc_s.so.1"));
    assert!(!is_system_library("libevil.so.1"));
    assert!(!is_system_library("libcrypto.so.3"));
}

#[test]
fn test_collect_whitelist() {
    let names: Vec<String> = vec!["libfoo.so", "libc.so.6", "libfoo.so", "libbar.so.2"]
        .into_iter()
        .map(String::from)
        .collect();
    let kept = collect_whitelist(&names, false);
    assert_eq!(kept, vec!["libfoo.so", "libbar.so.2"]);
    let with_system = collect_whitelist(&names, true);
    assert_eq!(with_system, vec!["libfoo.so", "libc.so.6", "libbar.so.2"]);
}

#[test]
fn test_record_library() {
    let mut log = LearningLog::new();
    record_library(&mut log, "liba.so");
    record_library(&mut log, "libb.so.1");
    assert_eq!(log.entries, vec!["liba.so", "libb.so.1"]);
}

#[test]
fn test_record_observed_follows_learning_mode() {
    let maps = "\
1-2 r-xp 0 fd:01 1 /usr/lib64/libc.so.6
3-4 r-xp 0 fd:01 2 /usr/lib64/libevil.so.1
";
    let learning = Settings {
        whitelisted_filenames: Vec::new(),
        audit_mode: true,
        learning_mode: true,
        learning_output: Some(String::from("/tmp/learned")),
    };
    let (events, _) = scan_process_maps(&learning, maps);
    let mut log = LearningLog::new();
    record_observed(&mut log, &learning, &events);
    assert_eq!(log.entries, vec!["libc.so.6", "libevil.so.1"]);

    let passive = Settings::default();
    let mut quiet = LearningLog::new();
    record_observed(&mut quiet, &passive, &events);
    assert!(quiet.entries.is_empty());
}

#[test]
fn test_learning_line() {
    assert_eq!(learning_line("libfoo.so"), "{\"library\": \"libfoo.so\"}");
}

#[test]
fn test_metrics_counters() {
    let mut metrics = Metrics::new();
    record_authorized_library(&mut metrics, "libc.so.6");
    record_unauthorized_library(&mut metrics, "libevil.so.1", true);
    record_unauthorized_library(&mut metrics, "libevil.so.1", false);
    record_unauthorized_library(&mut metrics, "libother.so", false);
    assert_eq!(metrics.authorized_loads_total, 1);
    assert_eq!(metrics.audits_total, 1);
    assert_eq!(metrics.blocks_total, 2);
    assert_eq!(metrics.unauthorized_loads_total, 3);
}
