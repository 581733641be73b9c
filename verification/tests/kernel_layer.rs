//! Tests of the kernel interception hook, its tables, and the monitor
//! operations.

use hyper_processor::ebpf::{
    check_exec, check_file_open, is_shared_library, make_whitelist_key, DetectionTable,
    UnauthorizedInfo, WhitelistTable, EACCES_NEG,
};
use hyper_processor::monitor::{
    clear_attempts, get_unauthorized_attempts, version_supported,
};

fn padded_256(name: &[u8]) -> [u8; 256] {
    let mut buf = [0u8; 256];
    buf[..name.len()].copy_from_slice(name);
    buf
}

#[test]
fn test_hook_allows_whitelisted() {
    let mut whitelist = WhitelistTable::new();
    whitelist.insert_name(b"libevil.so.1");
    let mut detections = DetectionTable::new();
    let verdict = check_file_open(&whitelist, &mut detections, 0o755, b"libevil.so.1", 42, 1000);
    assert_eq!(verdict, 0);
    assert_eq!(detections.entries.len(), 0);
}

#[test]
fn test_hook_denies_and_records_miss() {
    let whitelist = WhitelistTable::new();
    let mut detections = DetectionTable::new();
    let verdict = check_file_open(&whitelist, &mut detections, 0o755, b"libevil.so.1", 42, 1000);
    assert_eq!(verdict, EACCES_NEG);
    assert_eq!(detections.entries.len(), 1);
    assert_eq!(detections.entries[0].0, 42);
    assert_eq!(detections.entries[0].1.timestamp, 1000);
    assert_eq!(detections.entries[0].1.path_str(), "libevil.so.1");
}

#[test]
fn test_hook_allows_non_executable_and_non_candidates() {
    let whitelist = WhitelistTable::new();
    let mut detections = DetectionTable::new();
    // Not executable: allowed whatever the name.
    assert_eq!(check_file_open(&whitelist, &mut detections, 0o644, b"libevil.so.1", 1, 1), 0);
    // Executable but no name read: fail open.
    assert_eq!(check_file_open(&whitelist, &mut detections, 0o755, b"", 1, 2), 0);
    // Executable but not a shared-library candidate.
    assert_eq!(check_file_open(&whitelist, &mut detections, 0o755, b"python3", 1, 3), 0);
    assert_eq!(detections.entries.len(), 0);
}

#[test]
fn test_hook_overwrites_record_per_process() {
    let whitelist = WhitelistTable::new();
    let mut detections = DetectionTable::new();
    check_file_open(&whitelist, &mut detections, 0o755, b"libone.so", 42, 1000);
    check_file_open(&whitelist, &mut detections, 0o755, b"libtwo.so", 42, 2000);
    assert_eq!(detections.entries.len(), 1);
    assert_eq!(detections.entries[0].1.timestamp, 2000);
    assert_eq!(detections.entries[0].1.path_str(), "libtwo.so");
    check_file_open(&whitelist, &mut detections, 0o755, b"libtwo.so", 7, 3000);
    assert_eq!(detections.entries.len(), 2);
}

#[test]
fn test_hook_timestamps_non_decreasing() {
    let whitelist = WhitelistTable::new();
    let mut detections = DetectionTable::new();
    check_file_open(&whitelist, &mut detections, 0o755, b"libone.so", 1, 100);
    check_file_open(&whitelist, &mut detections, 0o755, b"libtwo.so", 2, 250);
    check_file_open(&whitelist, &mut detections, 0o755, b"libthree.so", 3, 250);
    let attempts = get_unauthorized_attempts(&detections);
    let mut stamps: Vec<u64> = attempts.iter().map(|a| a.timestamp).collect();
    let sorted = {
        let mut s = stamps.clone();
        s.sort();
        s
    };
    assert_eq!(stamps, sorted);
    stamps.dedup();
    assert!(stamps.len() >= 2);
}

#[test]
fn test_clear_then_list_is_empty() {
    let whitelist = WhitelistTable::new();
    let mut detections = DetectionTable::new();
    check_file_open(&whitelist, &mut detections, 0o755, b"libevil.so.1", 42, 1000);
    assert_eq!(get_unauthorized_attempts(&detections).len(), 1);
    clear_attempts(&mut detections);
    assert!(get_unauthorized_attempts(&detections).is_empty());
}

#[test]
fn test_list_reports_rows() {
    let whitelist = WhitelistTable::new();
    let mut detections = DetectionTable::new();
    check_file_open(&whitelist, &mut detections, 0o755, b"libevil.so.1", 42, 1000);
    let attempts = get_unauthorized_attempts(&detections);
    assert_eq!(attempts.len(), 1);
    assert_eq!(attempts[0].pid, 42);
    assert_eq!(attempts[0].library_path, "libevil.so.1");
    assert_eq!(attempts[0].timestamp, 1000);
}

#[test]
fn test_check_exec_allows() {
    assert_eq!(check_exec(), 0);
}

#[test]
fn test_is_shared_library_heuristic() {
    assert!(is_shared_library(b"libc.so.6", 9));
    assert!(is_shared_library(b"libfoo.so", 9));
    assert!(is_shared_library(b"libplugin.so.1.2", 16));
    assert!(!is_shared_library(b"python3", 7));
    assert!(!is_shared_library(b"so", 2));
    // Only the first `len` bytes count.
    assert!(!is_shared_library(b"ab.so", 2));
}

#[test]
fn test_whitelist_key_truncation() {
    let long_name = [b'a'; 80];
    let key = make_whitelist_key(&long_name);
    assert_eq!(key, [b'a'; 64]);
    let key2 = make_whitelist_key(b"lib.so");
    assert_eq!(&key2[..6], b"lib.so");
    assert!(key2[6..].iter().all(|&b| b == 0));
}

#[test]
fn test_path_str_stops_at_nul() {
    let info = UnauthorizedInfo { path: padded_256(b"libevil.so.1"), timestamp: 5 };
    assert_eq!(info.path_str(), "libevil.so.1");
    let full = UnauthorizedInfo { path: [b'x'; 256], timestamp: 5 };
    assert_eq!(full.path_str().len(), 256);
}

#[test]
fn test_path_str_decodes_lossily() {
    // An invalid UTF-8 byte decodes to the replacement character, not to
    // itself.
    let mut bytes = b"lib\xffevil.so".to_vec();
    bytes.resize(256, 0);
    let mut path = [0u8; 256];
    path.copy_from_slice(&bytes);
    let info = UnauthorizedInfo { path, timestamp: 1 };
    assert_eq!(info.path_str(), "lib\u{fffd}evil.so");
}

#[test]
fn test_version_supported() {
    assert!(version_supported("Linux version 6.14.8-300.fc42.x86_64 (mockbuild@host) #1 SMP"));
    assert!(version_supported("Linux version 5.7.0"));
    assert!(!version_supported("Linux version 5.6.19"));
    assert!(!version_supported("Linux version 4.19.0-25-amd64"));
    // No third field, or no dotted pair: the capability probe decides later.
    assert!(version_supported("Linux"));
    assert!(version_supported("Linux version noversion"));
    // Unreadable numbers read as zero and reject.
    assert!(!version_supported("Linux version abc.def"));
}
