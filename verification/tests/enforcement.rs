//! Tests of the guard decision, the end-to-end audit examples, and the
//! policy helpers.

use hyper_processor::config::{
    insecure_config_mode, parse_audit_override, parse_whitelist_items, Settings,
};
use hyper_processor::guard::{guard_check, guard_decision, GuardAction};
use hyper_processor::preload_check::perform_check;

fn create_settings(audit_mode: bool, user_whitelist: Vec<&str>) -> Settings {
    Settings {
        audit_mode,
        whitelisted_filenames: user_whitelist.into_iter().map(String::from).collect(),
        learning_mode: false,
        learning_output: None,
    }
}

#[test]
fn test_default_settings() {
    let settings = Settings::default();
    assert_eq!(settings.audit_mode, false);
    assert_eq!(settings.whitelisted_filenames.len(), 0);
}

#[test]
fn test_learning_forces_audit() {
    let mut settings = Settings {
        whitelisted_filenames: Vec::new(),
        audit_mode: false,
        learning_mode: true,
        learning_output: Some(String::from("/tmp/learned")),
    };
    settings.normalize();
    assert!(settings.audit_mode);
    assert!(settings.learning_mode);

    let mut plain = create_settings(false, vec![]);
    plain.normalize();
    assert!(!plain.audit_mode);
}

#[test]
fn test_guard_decision_table() {
    assert_eq!(guard_decision(false, false), GuardAction::Continue);
    assert_eq!(guard_decision(false, true), GuardAction::Continue);
    assert_eq!(guard_decision(true, true), GuardAction::Continue);
    assert_eq!(guard_decision(true, false), GuardAction::Terminate);
}

#[test]
fn test_guard_check_blocks_unauthorized() {
    let maps = "1-2 r-xp 0 fd:01 1 /usr/lib64/libevil.so.1\n";
    let blocking = create_settings(false, vec![]);
    assert_eq!(guard_check(&blocking, maps), GuardAction::Terminate);
    let auditing = create_settings(true, vec![]);
    assert_eq!(guard_check(&auditing, maps), GuardAction::Continue);
    let clean = "1-2 r-xp 0 fd:01 1 /usr/lib64/libc.so.6\n";
    assert_eq!(guard_check(&blocking, clean), GuardAction::Continue);
}

#[test]
fn test_example_clean_baseline() {
    // Blocking policy with an empty whitelist over the core runtime set and
    // the protection artifact itself: clean.
    let settings = create_settings(false, vec![]);
    let maps = "\
1-2 r-xp 0 fd:01 1 /usr/lib64/libc.so.6
3-4 r-xp 0 fd:01 2 /usr/lib64/ld-linux-x86-64.so.2
5-6 r-xp 0 fd:01 3 /usr/lib64/libpthread.so.0
7-8 r-xp 0 fd:01 4 /usr/local/lib/libhyper_processor.so
";
    assert_eq!(perform_check(&settings, maps), (false, false));
}

#[test]
fn test_example_unknown_library_detected() {
    // The same policy with one foreign executable mapping: detected.
    let settings = create_settings(false, vec![]);
    let maps = "\
1-2 r-xp 0 fd:01 1 /usr/lib64/libc.so.6
3-4 r-xp 0 fd:01 2 /usr/lib64/ld-linux-x86-64.so.2
5-6 r-xp 0 fd:01 3 /usr/lib64/libpthread.so.0
7-8 r-xp 0 fd:01 4 /usr/local/lib/libhyper_processor.so
9-a r-xp 0 fd:01 5 /usr/lib64/libevil.so.1
";
    assert_eq!(perform_check(&settings, maps), (true, false));
    let (events, _) =
        hyper_processor::preload_check::scan_process_maps(&settings, maps);
    let flagged: Vec<_> = events.iter().filter(|e| !e.allowed).collect();
    assert_eq!(flagged.len(), 1);
    assert_eq!(flagged[0].filename, "libevil.so.1");
}

#[test]
fn test_example_whitelisted_in_audit_mode() {
    // An audit-mode policy that whitelists the name: clean again.
    let settings = create_settings(true, vec!["libevil.so.1"]);
    let maps = "9-a r-xp 0 fd:01 5 /usr/lib64/libevil.so.1\n";
    assert_eq!(perform_check(&settings, maps), (false, true));
}

#[test]
fn test_parse_whitelist_items() {
    let items = parse_whitelist_items(" lib1.so , lib2.so,  ,lib3.so ");
    assert_eq!(items, vec!["lib1.so", "lib2.so", "lib3.so"]);
    assert_eq!(parse_whitelist_items("").len(), 0);
    assert_eq!(parse_whitelist_items(" , ,").len(), 0);
    assert_eq!(parse_whitelist_items("one.so"), vec!["one.so"]);
}

#[test]
fn test_parse_audit_override() {
    assert_eq!(parse_audit_override("true"), Some(true));
    assert_eq!(parse_audit_override("TRUE"), Some(true));
    assert_eq!(parse_audit_override("1"), Some(true));
    assert_eq!(parse_audit_override("Yes"), Some(true));
    assert_eq!(parse_audit_override("false"), Some(false));
    assert_eq!(parse_audit_override("0"), Some(false));
    assert_eq!(parse_audit_override("No"), Some(false));
    assert_eq!(parse_audit_override("banana"), None);
    assert_eq!(parse_audit_override(""), None);
}

#[test]
fn test_insecure_config_mode() {
    assert!(insecure_config_mode(0o666));
    assert!(insecure_config_mode(0o622));
    assert!(!insecure_config_mode(0o644));
    assert!(!insecure_config_mode(0o600));
}
