use scat::json::Value;
use scat::runtime::{
    audit_exit_code, database_path, effective_log_spec, first_executable, resolve_bookmark,
    vc_candidates, vc_report, verbosity_directive, AuditSummary, FileMode, VcOutput,
    NO_DATABASE_HINT,
};
use scat::sorted_map::SortedMap;

#[test]
fn verbosity_directive_maps_expected_levels() {
    assert_eq!(verbosity_directive(0), "warn");
    assert_eq!(verbosity_directive(1), "debug");
    assert_eq!(verbosity_directive(2), "trace");
    assert_eq!(verbosity_directive(3), "trace");
}

#[test]
fn rust_log_overrides_verbose_flag() {
    assert_eq!(
        effective_log_spec(2, Some("info,scat_core::core::db=trace")),
        "info,scat_core::core::db=trace"
    );
    assert_eq!(effective_log_spec(1, None), "debug");
}

#[test]
fn audit_exit_code_prefers_errors() {
    let summary = AuditSummary {
        error: 1,
        warn: 10,
        info: 10,
    };
    assert_eq!(audit_exit_code(&summary, false), 2);
    assert_eq!(audit_exit_code(&summary, true), 2);
}

#[test]
fn audit_exit_code_warns_only_with_strict() {
    let summary = AuditSummary {
        error: 0,
        warn: 1,
        info: 5,
    };
    assert_eq!(audit_exit_code(&summary, false), 0);
    assert_eq!(audit_exit_code(&summary, true), 1);
}

#[test]
fn find_vc_on_path_finds_vc_py_candidate() {
    let candidates = vc_candidates(&vec!["/opt/bin".to_string()]);
    assert!(candidates.contains(&"/opt/bin/vc.py".to_string()));
    let modes = candidates
        .iter()
        .map(|p| {
            if p == "/opt/bin/vc.py" {
                Some(FileMode { is_file: true, mode: 0o100755 })
            } else {
                None
            }
        })
        .collect();
    assert_eq!(
        first_executable(&candidates, &modes),
        Some("/opt/bin/vc.py".to_string())
    );
}

#[test]
fn find_vc_on_path_ignores_a_non_executable_candidate() {
    let candidates = vc_candidates(&vec!["/opt/bin".to_string()]);
    let modes = candidates
        .iter()
        .map(|_| Some(FileMode { is_file: true, mode: 0o100644 }))
        .collect();
    assert_eq!(first_executable(&candidates, &modes), None);
    let directories = candidates
        .iter()
        .map(|_| Some(FileMode { is_file: false, mode: 0o40755 }))
        .collect();
    assert_eq!(first_executable(&candidates, &directories), None);
}

#[test]
fn the_output_of_the_tool_is_passed_through() {
    let report = vc_report(Some(VcOutput {
        code: Some(3),
        stdout: "out".to_string(),
        stderr: "err".to_string(),
    }));
    assert_eq!(report.stdout, "out");
    assert_eq!(report.stderr, "err");
    assert_eq!(report.exit_code, 3);
    assert!(matches!(report.json.get("available"), Some(Value::Bool(true))));
    assert!(matches!(report.json.get("returncode"), Some(Value::Int(3))));
    let absent = vc_report(None);
    assert!(matches!(absent.json.get("available"), Some(Value::Bool(false))));
    assert!(matches!(absent.json.get("returncode"), Some(Value::Int(1))));
    assert_eq!(absent.exit_code, 0);
    assert_eq!(absent.stdout, "vc is unavailable; scat remains in read-only catalog mode.\n");
}

#[test]
fn a_database_must_be_named() {
    assert_eq!(
        database_path(Some("/a".to_string()), Some("/b".to_string())),
        Ok("/a".to_string())
    );
    assert_eq!(database_path(None, Some("/b".to_string())), Ok("/b".to_string()));
    assert_eq!(database_path(None, None), Err(NO_DATABASE_HINT));
}

#[test]
fn bookmarks_stand_for_their_queries() {
    let mut bookmarks = SortedMap::new();
    bookmarks.insert("mine", "owner:alice".to_string());
    assert_eq!(resolve_bookmark("@mine", &bookmarks), "owner:alice");
    assert_eq!(resolve_bookmark("@other", &bookmarks), "other");
    assert_eq!(resolve_bookmark("mine", &bookmarks), "mine");
}
