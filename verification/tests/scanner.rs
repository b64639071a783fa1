use scat::scanner::{
    detect_language, effective_checkout_dirs, enters_directory, get_external_ignore_paths,
    is_within_roots, make_logical_path, max_mtime, needs_head, os_flavor_of, process_candidate,
    scan_step, shebang_language, sibling_to_probe, take_mtime, CandidateOutcome, FileFacts,
    MtimeEntry, ScanAction, ScanError, ScanRoot, ScanStage, ScanState, WalkEntry,
    MAX_INDEXABLE_FILE_SIZE_BYTES, REVISION_TYPE_WORKING, SCAN_PROCESS_BATCH_SIZE,
};
use scat::vc::parse_checkout_filename;

#[test]
fn scanner_detects_python_from_extension() {
    assert_eq!(detect_language("foo.py"), "python");
    assert_eq!(detect_language("FOO.PY"), "python");
}

#[test]
fn scanner_detects_shell_from_extension() {
    assert_eq!(detect_language("foo.sh"), "shell");
    assert_eq!(detect_language("foo.bash"), "shell");
    assert_eq!(detect_language("foo.ksh"), "shell");
}

#[test]
fn scanner_unknown_for_unsupported() {
    assert_eq!(detect_language("foo.rb"), "unknown");
    assert_eq!(detect_language("foo"), "unknown");
}

#[test]
fn scanner_shebang_direct_bash() {
    assert_eq!(shebang_language("#!/bin/bash"), Some("shell"));
}

#[test]
fn scanner_shebang_direct_sh() {
    // How the extensionless shell tools vc manages are detected at all:
    // with no extension to go on, the shebang is the only language signal.
    assert_eq!(shebang_language("#!/bin/sh"), Some("shell"));
    assert_eq!(shebang_language("#! /bin/sh"), Some("shell"));
    assert_eq!(shebang_language("#!/usr/bin/env sh"), Some("shell"));
}

#[test]
fn scanner_shebang_env_python3() {
    assert_eq!(shebang_language("#!/usr/bin/env python3"), Some("python"));
}

#[test]
fn scanner_shebang_unknown() {
    assert_eq!(shebang_language("#!/usr/bin/env ruby"), None);
    assert_eq!(shebang_language("not a shebang"), None);
}

#[test]
fn language_detects_python_from_extension() {
    assert_eq!(detect_language("foo.py"), "python");
    assert_eq!(detect_language("FOO.PY"), "python");
}

#[test]
fn language_detects_shell_from_extension() {
    assert_eq!(detect_language("foo.sh"), "shell");
    assert_eq!(detect_language("foo.bash"), "shell");
    assert_eq!(detect_language("foo.ksh"), "shell");
}

#[test]
fn language_unknown_for_unsupported() {
    assert_eq!(detect_language("foo.rb"), "unknown");
    assert_eq!(detect_language("foo"), "unknown");
}

#[test]
fn language_shebang_direct_bash() {
    assert_eq!(shebang_language("#!/bin/bash"), Some("shell"));
}

#[test]
fn language_shebang_direct_sh() {
    // How the extensionless shell tools vc manages are detected at all:
    // with no extension to go on, the shebang is the only language signal.
    assert_eq!(shebang_language("#!/bin/sh"), Some("shell"));
    assert_eq!(shebang_language("#! /bin/sh"), Some("shell"));
    assert_eq!(shebang_language("#!/usr/bin/env sh"), Some("shell"));
}

#[test]
fn language_shebang_env_python3() {
    assert_eq!(shebang_language("#!/usr/bin/env python3"), Some("python"));
}

#[test]
fn language_shebang_unknown() {
    assert_eq!(shebang_language("#!/usr/bin/env ruby"), None);
    assert_eq!(shebang_language("not a shebang"), None);
}

#[test]
fn logical_path_joins_scan_relative_segments() {
    assert_eq!(
        make_logical_path(
            "/net/scripts/tools/foo.py",
            "/net/scripts",
            "/catalog/scripts",
        ),
        "/catalog/scripts/tools/foo.py"
    );
}

#[test]
fn logical_path_keeps_a_literal_backslash_in_a_filename() {
    // `\` is an ordinary character in a Linux filename, not a separator.
    // Rewriting it (as the Windows-era code did) invented a directory
    // level that doesn't exist, and the logical path then matched nothing
    // on disk.
    assert_eq!(
        make_logical_path(
            r"/net/scripts/od\d.py",
            "/net/scripts",
            "/catalog/scripts",
        ),
        r"/catalog/scripts/od\d.py"
    );
}

#[test]
fn scanner_max_mtime_returns_none_for_empty_roots() {
    // Empty directory — no files at all.
    let result = max_mtime(&Vec::new());
    assert!(result.is_none());
}

#[test]
fn mtime_max_mtime_returns_none_for_empty_roots() {
    // Empty directory — no files at all.
    let result = max_mtime(&vec![MtimeEntry::Other]);
    assert!(result.is_none());
}

#[test]
fn newest_file_wins() {
    let entries = vec![
        MtimeEntry::File(10),
        MtimeEntry::Other,
        MtimeEntry::File(30),
        MtimeEntry::File(20),
    ];
    assert_eq!(max_mtime(&entries), Some(30));
    assert_eq!(take_mtime(Some(30), MtimeEntry::File(40), false), Ok(Some(40)));
    assert_eq!(take_mtime(Some(30), MtimeEntry::File(40), true), Err(ScanError::Interrupted));
}

struct Fake {
    name: &'static str,
    text: &'static str,
    size: u64,
    link: Option<&'static str>,
}

fn file(name: &'static str, text: &'static str) -> Fake {
    Fake { name, text, size: text.len() as u64, link: None }
}

fn scan(root: &str, files: &[Fake]) -> ScanState {
    let scan_root = ScanRoot {
        root: root.to_string(),
        logical_prefix: String::new(),
        os_flavor: os_flavor_of(root),
        now_nanos: 5_000,
    };
    let mut state = ScanState::new();
    for f in files {
        let entry = WalkEntry::File(format!("{root}/{}", f.name), f.link.is_some());
        state.take_entry(entry);
    }
    let mut outcomes = Vec::new();
    for c in &state.candidates {
        let f = files.iter().find(|f| c.path == format!("{root}/{}", f.name)).unwrap();
        let sibling_exists = match sibling_to_probe(&c.path) {
            Some(s) => files.iter().any(|f| s == format!("{root}/{}", f.name)),
            None => false,
        };
        let first_line = if needs_head(&c.path) {
            f.text.lines().next().map(|l| l.to_string())
        } else {
            None
        };
        let facts = FileFacts {
            sibling_exists,
            first_line,
            stat: Some((f.size, Some(2_000))),
            symlink_target: f.link.map(|l| format!("{root}/{l}")),
        };
        outcomes.push(process_candidate(&c.path, c.is_symlink, &scan_root, &facts));
    }
    state.take_batch(outcomes);
    state
}

fn logical_paths(state: &ScanState) -> Vec<&str> {
    state.result.scripts.iter().map(|s| s.logical_path.as_str()).collect()
}

#[test]
fn version_copies_are_revisions() {
    let state = scan(
        "/net/linux/scripts",
        &[
            file("bar.py", "# python"),
            file("bar.py_20260720_090000", "# python"),
            file("bar.py_20260610_151550", "# python"),
        ],
    );
    assert_eq!(logical_paths(&state), vec!["/net/linux/scripts/bar.py"]);
    assert_eq!(state.result.revisions.len(), 2);
    for revision in &state.result.revisions {
        assert_eq!(revision.logical_path, "/net/linux/scripts/bar.py");
        assert_eq!(revision.revision_type, REVISION_TYPE_WORKING);
        assert_eq!(revision.user, "");
        assert_eq!(revision.os_flavor, "linux");
        assert_eq!(revision.age_nanos, Some(3_000));
    }
    assert_eq!(state.result.revisions[0].timestamp, "20260720_090000");
    assert_eq!(state.result.revisions[1].timestamp, "20260610_151550");
}

#[test]
fn version_copies_of_extensionless_scripts_are_revisions() {
    let state = scan(
        "/net/linux/scripts",
        &[
            file("prepare_release", "#!/bin/sh\n"),
            file("prepare_release_20260729_140513", "#!/bin/sh\n"),
            file("prepare_release_20260701_105550", "#!/bin/sh\n"),
        ],
    );
    assert_eq!(logical_paths(&state), vec!["/net/linux/scripts/prepare_release"]);
    assert_eq!(state.result.revisions.len(), 2);
}

#[test]
fn an_active_symlink_keeps_its_target() {
    let mut active = file("prepare_release", "#!/bin/sh\n");
    active.link = Some("prepare_release_20260729_140513");
    let state = scan(
        "/net/linux/scripts",
        &[
            active,
            file("prepare_release_20260729_140513", "#!/bin/sh\n"),
            file("prepare_release_20260701_105550", "#!/bin/sh\n"),
        ],
    );
    assert_eq!(state.result.scripts.len(), 1);
    assert_eq!(
        state.result.scripts[0].symlink_target.as_deref(),
        Some("/net/linux/scripts/prepare_release_20260729_140513")
    );
    assert_eq!(state.result.revisions.len(), 2);
}

#[test]
fn editor_backups_are_skipped() {
    let state = scan(
        "/net",
        &[
            file("prepare_release", "#!/bin/sh\n"),
            file("prepare_release~", "#!/bin/sh\n"),
            file("release_backup.sh", "#!/bin/bash\n"),
            file("release_backup.sh~", "#!/bin/bash\n"),
        ],
    );
    assert_eq!(logical_paths(&state), vec!["/net/prepare_release", "/net/release_backup.sh"]);
    assert_eq!(state.skipped, 2);
}

#[test]
fn a_name_with_two_timestamps_is_no_revision() {
    let state = scan(
        "/net",
        &[file("bar.py_20240101_090000_20250101_090000", "#!/usr/bin/env python3\n")],
    );
    assert!(state.result.revisions.is_empty());
}

#[test]
fn a_date_suffix_alone_is_no_version() {
    let state = scan("/net", &[file("backup_20240101", "#!/bin/bash\n")]);
    assert_eq!(state.result.scripts.len(), 1);
    assert!(state.result.revisions.is_empty());
}

#[test]
fn other_files_are_skipped() {
    let mut huge = file("huge.py", "");
    huge.size = MAX_INDEXABLE_FILE_SIZE_BYTES + 1;
    let mut full = file("full.py", "");
    full.size = MAX_INDEXABLE_FILE_SIZE_BYTES;
    let state = scan(
        "/net",
        &[
            file("a.py", "# python"),
            file("b.sh", "#!/bin/bash"),
            file("c.txt", "ignored"),
            file("notes", "no shebang"),
            huge,
            full,
        ],
    );
    assert_eq!(logical_paths(&state), vec!["/net/a.py", "/net/b.sh", "/net/full.py"]);
    assert_eq!(state.result.scripts[0].language, "python");
    assert_eq!(state.result.scripts[1].language, "shell");
    assert_eq!(state.skipped, 3);
}

#[test]
fn a_scan_walks_and_decides_root_by_root() {
    let walk = ScanStage::Walk { root: 0 };
    assert_eq!(scan_step(walk, 1, true, 0, false), (ScanAction::TakeEntry, walk));
    assert_eq!(
        scan_step(walk, 1, false, 0, true),
        (ScanAction::EndWalk, ScanStage::Decide { root: 0, from: 0 })
    );
    let total = SCAN_PROCESS_BATCH_SIZE * 2 + 50;
    let mut stage = ScanStage::Decide { root: 0, from: 0 };
    let mut decided = 0;
    loop {
        let (action, next) = scan_step(stage, 1, false, total, false);
        stage = next;
        match action {
            ScanAction::DecideBatch { from, to } => {
                assert_eq!(from, decided);
                decided = to;
            }
            other => {
                assert_eq!(other, ScanAction::NextRoot);
                break;
            }
        }
    }
    assert_eq!(decided, total);
    assert_eq!(stage, ScanStage::Walk { root: 1 });
    assert_eq!(scan_step(stage, 1, false, 0, false), (ScanAction::Finish, ScanStage::Done));
}

#[test]
fn a_scan_can_be_interrupted_at_every_entry_and_batch() {
    let interrupted = (ScanAction::Abort, ScanStage::Interrupted);
    assert_eq!(scan_step(ScanStage::Walk { root: 0 }, 1, true, 0, true), interrupted);
    assert_eq!(scan_step(ScanStage::Decide { root: 0, from: 0 }, 1, false, 5, true), interrupted);
    assert_eq!(scan_step(ScanStage::Interrupted, 1, true, 5, false), interrupted);
}

#[test]
fn the_next_root_starts_with_no_candidates() {
    let mut state = ScanState::new();
    state.take_entry(WalkEntry::File("/net/a.py".to_string(), false));
    let candidates = state.take_candidates();
    assert_eq!(candidates.len(), 1);
    assert_eq!(candidates[0].path, "/net/a.py");
    assert!(state.candidates.is_empty());
    state.take_outcome(CandidateOutcome::Skip);
    assert_eq!(state.skipped, 1);
}

#[test]
fn directories_are_walked_and_the_rest_is_counted() {
    let mut state = ScanState::new();
    state.take_entry(WalkEntry::Directory);
    state.take_entry(WalkEntry::Unreadable);
    state.take_entry(WalkEntry::Other);
    assert_eq!(state.skipped, 2);
    assert!(state.candidates.is_empty());
}

#[test]
fn checkout_directories_and_outside_links_are_not_entered() {
    let dirs = effective_checkout_dirs(Vec::new());
    assert_eq!(dirs, vec!["DEVELOP", "ARCHIVE"]);
    assert!(!enters_directory("DEVELOP", false, true, &dirs));
    assert!(!enters_directory("ARCHIVE", false, true, &dirs));
    assert!(enters_directory("WORKING", false, true, &dirs));
    let custom = effective_checkout_dirs(vec!["WORKING".to_string()]);
    assert!(!enters_directory("WORKING", false, true, &custom));
    assert!(enters_directory("DEVELOP", false, true, &custom));
    assert!(!enters_directory("escape", true, false, &dirs));
    assert!(enters_directory("alt", true, true, &dirs));
    let roots = vec!["/net/scripts".to_string()];
    assert!(is_within_roots("/net/scripts/linux", &roots));
    assert!(is_within_roots("/net/scripts", &roots));
    assert!(!is_within_roots("/net/scripts2", &roots));
    assert!(!is_within_roots("/outside", &roots));
}

#[test]
fn ignore_files_must_exist() {
    let named = vec!["/a/.ignore".to_string(), "/b/.ignore".to_string()];
    let global = Some("/home/u/.catignore".to_string());
    assert_eq!(
        get_external_ignore_paths(&global, &named, &vec![true, true]),
        Ok(vec![
            "/home/u/.catignore".to_string(),
            "/a/.ignore".to_string(),
            "/b/.ignore".to_string(),
        ])
    );
    assert_eq!(
        get_external_ignore_paths(&None, &named, &vec![true, false]),
        Err("ignore file does not exist: /b/.ignore".to_string())
    );
}

#[test]
fn version_names_are_taken_apart() {
    let c = parse_checkout_filename("tool_20240315_1430_jdoe").unwrap();
    assert_eq!(c.script_name, "tool");
    assert_eq!(c.timestamp, "20240315_1430");
    assert_eq!(c.user, "jdoe");
    let c = parse_checkout_filename("bar.py_20260720_090000").unwrap();
    assert_eq!(c.script_name, "bar.py");
    assert_eq!(c.user, "");
    assert!(parse_checkout_filename("backup_20240101").is_none());
    assert!(parse_checkout_filename("plain.py").is_none());
}

#[test]
fn logical_path_without_a_prefix_is_the_path() {
    assert_eq!(make_logical_path("/net/a.py", "/net", ""), "/net/a.py");
    assert_eq!(make_logical_path("/other/a.py", "/net", "/cat"), "/other/a.py");
    assert_eq!(make_logical_path("/net/a.py", "/net", "/cat//"), "/cat/a.py");
}

#[test]
fn what_is_below_the_root_is_kept_as_it_stands() {
    assert_eq!(make_logical_path("/r/a//b", "/r", "/c"), "/c/a//b");
    assert_eq!(make_logical_path("/r//a/./b/", "/r/", "/c/"), "/c/a/./b");
    assert_eq!(make_logical_path("/r", "/r", "/c"), "/c/");
    assert_eq!(make_logical_path("/rr/a", "/r", "/c"), "/rr/a");
    assert_eq!(make_logical_path("./a/b", ".", "/c"), "/c/a/b");
    assert_eq!(make_logical_path("/a//b", "", "/c"), "/c//a//b");
    assert_eq!(
        sibling_to_probe("/net//tools/run_20260701_105550").as_deref(),
        Some("/net//tools/run")
    );
}

#[test]
fn shebang_forms_agree() {
    for name in ["sh", "bash", "ksh", "ksh93", "python", "python2", "python3", "perl", "env", ".."] {
        let through_env = shebang_language(&format!("#!/usr/bin/env {name}"));
        assert_eq!(through_env, shebang_language(&format!("#! /bin/{name}")));
        assert_eq!(through_env, shebang_language(&format!("#!/bin/{name} -u")));
    }
    assert_eq!(shebang_language("#!\u{a0}/bin/bash"), Some("shell"));
    assert_eq!(shebang_language("#! "), None);
    assert_eq!(shebang_language(" #!/bin/sh"), None);
}
