//! Tests of the process-map auditor.

use hyper_processor::config::Settings;
use hyper_processor::preload_check::{perform_check, scan_process_maps};

fn create_settings(audit_mode: bool, user_whitelist: Vec<&str>) -> Settings {
    Settings {
        audit_mode,
        whitelisted_filenames: user_whitelist.into_iter().map(String::from).collect(),
        learning_mode: false,
        learning_output: None,
    }
}

const MAPS_LEGIT_ONLY: &str = r#"
7f0000000000-7f1000000000 r-xp 00000000 fd:01 1234 /usr/lib64/ld-linux-x86-64.so.2
7f2000000000-7f3000000000 r-xp 00000000 fd:01 5678 /home/user/hyper_processor/target/release/libhyper_processor.so
7f4000000000-7f5000000000 r-xp 00000000 fd:01 9012 /usr/lib64/libc.so.6
7f6000000000-7f7000000000 r--p 001b1000 fd:01 9012 /usr/lib64/libc.so.6
7f8000000000-7f9000000000 r-xp 00000000 fd:01 3456 /usr/lib64/libpthread.so.0
7fa000000000-7fb000000000 ---p 00000000 00:00 0 
7fc000000000-7fd000000000 r-xp 00000000 fd:01 7890 /usr/lib64/libdl.so.2
    "#;

const MAPS_WITH_UNAUTHORIZED: &str = r#"
7f0000000000-7f1000000000 r-xp 00000000 fd:01 1234 /usr/lib64/ld-linux-x86-64.so.2
7f2000000000-7f3000000000 r-xp 00000000 fd:01 5678 /home/user/hyper_processor/target/release/libhyper_processor.so
7f4000000000-7f5000000000 r-xp 00000000 fd:01 9012 /usr/lib64/libc.so.6
7f6000000000-7f7000000000 r-xp 00000000 fd:01 1122 /usr/lib64/libevil.so.1
7f8000000000-7f9000000000 r-xp 00000000 fd:01 3456 /usr/lib64/libpthread.so.0
    "#;

const MAPS_WITH_NON_EXEC: &str = r#"
7f0000000000-7f1000000000 r--p 00000000 fd:01 1234 /usr/lib64/libnotexec.so.1
7f2000000000-7f3000000000 rw-p 00000000 fd:01 5678 /usr/lib64/libdataonly.so
7f4000000000-7f5000000000 r-xp 00000000 fd:01 9012 /usr/lib64/libc.so.6
    "#;

const MAPS_MALFORMED: &str = r#"
7f0000000000-7f1000000000 r-xp path/missing
just some garbage line
7f4000000000-7f5000000000 r-xp 00000000 fd:01 9012 /usr/lib64/libc.so.6
    "#;

#[test]
fn test_all_whitelisted() {
    let settings = create_settings(false, vec![]);
    let result = perform_check(&settings, MAPS_LEGIT_ONLY);
    assert_eq!(result, (false, false));
}

#[test]
fn test_unauthorized_block() {
    let settings = create_settings(false, vec![]);
    let result = perform_check(&settings, MAPS_WITH_UNAUTHORIZED);
    assert_eq!(result, (true, false));
}

#[test]
fn test_unauthorized_audit() {
    let settings = create_settings(true, vec![]);
    let result = perform_check(&settings, MAPS_WITH_UNAUTHORIZED);
    assert_eq!(result, (true, true));
}

#[test]
fn test_user_whitelisted() {
    let settings = create_settings(false, vec!["libevil.so.1"]);
    let result = perform_check(&settings, MAPS_WITH_UNAUTHORIZED);
    assert_eq!(result, (false, false));
}

#[test]
fn test_non_executable_ignored() {
    let settings = create_settings(false, vec![]);
    let result = perform_check(&settings, MAPS_WITH_NON_EXEC);
    assert_eq!(result, (false, false));
}

#[test]
fn test_malformed_line_ignored() {
    let settings = create_settings(false, vec![]);
    let result = perform_check(&settings, MAPS_MALFORMED);
    assert_eq!(result, (false, false));
}

#[test]
fn test_empty_maps() {
    let settings = create_settings(false, vec![]);
    let result = perform_check(&settings, "");
    assert_eq!(result, (false, false));
}

#[test]
fn test_maps_with_extra_whitespace() {
    let settings = create_settings(false, vec![]);
    let maps_content = "7f0000000000-7f1000000000  r-xp  00000000  fd:01  1234  /usr/lib64/libc.so.6\n";
    let result = perform_check(&settings, maps_content);
    assert_eq!(result, (false, false));
}

#[test]
fn test_maps_with_comment_after_path() {
    let settings = create_settings(false, vec![]);
    let maps_content =
        "7f0000000000-7f1000000000 r-xp 00000000 fd:01 1234 /usr/lib64/libevil.so.1  # comment\n";
    let result = perform_check(&settings, maps_content);
    assert_eq!(result, (true, false));
}

#[test]
fn test_whitelist_with_version_specific_libs() {
    let settings = create_settings(false, vec!["libcustom-1.2.3.so"]);
    let maps_content = r#"
7f0000000000-7f1000000000 r-xp 00000000 fd:01 1234 /usr/lib64/libcustom-1.2.3.so
7f2000000000-7f3000000000 r-xp 00000000 fd:01 5678 /usr/lib64/libc.so.6
"#;
    let result = perform_check(&settings, maps_content);
    assert_eq!(result, (false, false));
}

#[test]
fn test_scan_reports_every_candidate() {
    let settings = create_settings(false, vec![]);
    let (events, found) = scan_process_maps(&settings, MAPS_WITH_UNAUTHORIZED);
    assert!(found);
    assert_eq!(events.len(), 5);
    assert_eq!(events[0].filename, "ld-linux-x86-64.so.2");
    assert_eq!(events[0].path, "/usr/lib64/ld-linux-x86-64.so.2");
    assert!(events[0].allowed);
    assert_eq!(events[1].filename, "libhyper_processor.so");
    assert!(events[1].allowed);
    assert_eq!(events[3].filename, "libevil.so.1");
    assert_eq!(events[3].path, "/usr/lib64/libevil.so.1");
    assert!(!events[3].allowed);
    assert!(events[4].allowed);
}

#[test]
fn test_verdict_stable_across_runs() {
    let settings = create_settings(true, vec!["libcustom.so"]);
    let first = perform_check(&settings, MAPS_WITH_UNAUTHORIZED);
    let second = perform_check(&settings, MAPS_WITH_UNAUTHORIZED);
    assert_eq!(first, second);
}

#[test]
fn test_so_substring_heuristic() {
    let settings = create_settings(false, vec![]);
    // A name with `.so` in the middle is a candidate; one without is not.
    let with_version = "1-2 r-xp 0 fd:01 1 /opt/libplugin.so.1.2\n";
    assert_eq!(perform_check(&settings, with_version), (true, false));
    let not_a_library = "1-2 r-xp 0 fd:01 1 /opt/executable\n";
    assert_eq!(perform_check(&settings, not_a_library), (false, false));
}

#[test]
fn test_relative_path_ignored() {
    let settings = create_settings(false, vec![]);
    let maps_content = "1-2 r-xp 0 fd:01 1 relative/libevil.so.1\n";
    assert_eq!(perform_check(&settings, maps_content), (false, false));
}
