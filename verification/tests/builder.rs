use scat::build_steps::{
    finish_steps, plan_build, populate_step, Action, BuildPlan, BuildSource, Closing, FinishStep,
    Leftovers, Progress,
};
use scat::builder::{
    batch_end, check_build, combine_references, effective_head_lines, extract_for_insert,
    finish_build, group_by_path, incremental_seed, needs_rebuild, row_of_parse, seed_from_existing_database,
    validate,
    BuildError, BuildOptions, ExistingScript, Finish, IndexRun, PathKind, PreviousBuild, Reuse,
    EXTRACT_BATCH_SIZE,
};
use scat::extractor::extract;
use scat::scanner::ScriptRecord;
use scat::sidecar::Sidecar;
use scat::sorted_map::SortedMap;
use scat::treesitter_deps::TreeSitterExtractor;

fn record(path: &str, language: &str, size: u64, mtime_nanos: u64) -> ScriptRecord {
    ScriptRecord {
        logical_path: format!("/cat/{path}"),
        physical_path: format!("/net/{path}"),
        language: language.to_string(),
        size,
        mtime_nanos,
        symlink_target: None,
    }
}

fn existing(path: &str, size: u64, mtime_nanos: u64, hash: &str) -> ExistingScript {
    ExistingScript {
        logical_path: format!("/cat/{path}"),
        size,
        mtime_nanos,
        content_hash: hash.to_string(),
    }
}

fn options() -> BuildOptions {
    BuildOptions {
        logical_prefix: "/catalog/scripts".to_string(),
        head_lines: 0,
        ignore_files: Vec::new(),
        keep_copies: 0,
        dry_run: false,
        quiet: true,
        no_resume: false,
        no_incremental: false,
        threads: None,
    }
}

const NOTHING_LEFT: Leftovers =
    Leftovers { wip_exists: false, checkpoint_read: false, wip_is_valid: false };

const SOUND: Leftovers = Leftovers { wip_exists: true, checkpoint_read: true, wip_is_valid: true };

#[test]
fn a_build_needs_a_file_and_a_thread() {
    assert_eq!(check_build(PathKind::Missing, None), Ok(()));
    assert_eq!(check_build(PathKind::File, Some(4)), Ok(()));
    assert_eq!(check_build(PathKind::Directory, None), Err(BuildError::IsDirectory));
    assert_eq!(check_build(PathKind::Other, Some(0)), Err(BuildError::IsNotAFile));
    assert_eq!(check_build(PathKind::File, Some(0)), Err(BuildError::NoThreads));
    assert_eq!(
        BuildError::IsDirectory.message("/x"),
        "database path must be a file, found directory: /x"
    );
    assert_eq!(
        BuildError::IsNotAFile.message("/x"),
        "database path must be a file, found non-file: /x"
    );
    assert_eq!(BuildError::NoThreads.message("/x"), "threads must be greater than zero");
}

#[test]
fn head_lines_default_to_ten() {
    assert_eq!(effective_head_lines(0), 10);
    assert_eq!(effective_head_lines(3), 3);
}

#[test]
fn the_previous_build_seeds_only_one_with_its_schema() {
    assert!(incremental_seed(false, false, false, Some(7), 7));
    assert!(!incremental_seed(false, false, false, Some(-1), 7));
    assert!(!incremental_seed(false, false, false, None, 7));
    assert!(!incremental_seed(false, false, true, Some(7), 7));
    assert!(!incremental_seed(false, true, false, Some(7), 7));
    assert!(!incremental_seed(true, false, false, Some(7), 7));
}

#[test]
fn a_sound_database_has_metadata() {
    assert_eq!(validate("ok", true), Ok(()));
    assert_eq!(validate("ok", false), Err("index_metadata row missing".to_string()));
    assert_eq!(validate("bad page", true), Err("integrity_check failed: bad page".to_string()));
}

#[test]
fn plans_follow_the_options() {
    assert_eq!(
        plan_build(PathKind::File, &options(), SOUND, Some(7), 7),
        Ok(BuildPlan {
            discard_leftovers: false,
            source: BuildSource::Leftovers,
            head_lines: 10,
        })
    );
    assert_eq!(
        plan_build(PathKind::File, &options(), NOTHING_LEFT, Some(7), 7),
        Ok(BuildPlan { discard_leftovers: false, source: BuildSource::Previous, head_lines: 10 })
    );
    let mut fresh = options();
    fresh.no_resume = true;
    fresh.no_incremental = true;
    fresh.head_lines = 3;
    assert_eq!(
        plan_build(PathKind::Missing, &fresh, SOUND, Some(7), 7),
        Ok(BuildPlan { discard_leftovers: true, source: BuildSource::Empty, head_lines: 3 })
    );
    let mut none = options();
    none.threads = Some(0);
    assert_eq!(
        plan_build(PathKind::Missing, &none, NOTHING_LEFT, None, 7),
        Err(BuildError::NoThreads)
    );
    assert_eq!(
        plan_build(PathKind::Directory, &none, NOTHING_LEFT, None, 7),
        Err(BuildError::IsDirectory)
    );
}

fn run(total: usize, stop_at: Option<usize>) -> Vec<Action> {
    let mut progress = Progress::Batch { from: 0 };
    let mut done = Vec::new();
    loop {
        let shutdown = stop_at == Some(done.len());
        let (action, next) = populate_step(progress, total, shutdown);
        if action == Action::Stop {
            return done;
        }
        done.push(action);
        progress = next;
    }
}

#[test]
fn a_run_writes_every_script_and_then_closes_the_index() {
    let total = EXTRACT_BATCH_SIZE + 1;
    let done = run(total, None);
    assert_eq!(done[0], Action::Extract { from: 0, to: EXTRACT_BATCH_SIZE });
    assert_eq!(done[1], Action::Insert(0));
    assert_eq!(
        done[EXTRACT_BATCH_SIZE + 1],
        Action::Extract { from: EXTRACT_BATCH_SIZE, to: total }
    );
    let written: Vec<usize> = done
        .iter()
        .filter_map(|a| match a {
            Action::Insert(i) => Some(*i),
            _ => None,
        })
        .collect();
    assert_eq!(written, (0..total).collect::<Vec<usize>>());
    let closing: Vec<Action> = done[done.len() - 10..].to_vec();
    assert_eq!(closing[0], Action::Close(Closing::Checkouts));
    assert_eq!(closing[4], Action::Close(Closing::Imports));
    assert_eq!(closing[9], Action::Close(Closing::Commit));
}

#[test]
fn an_interrupted_run_is_suspended_and_not_closed() {
    assert_eq!(
        run(2, Some(2)),
        vec![Action::Extract { from: 0, to: 2 }, Action::Insert(0), Action::Suspend]
    );
    assert_eq!(run(2, Some(0)), vec![Action::Suspend]);
    assert_eq!(run(0, Some(0)), vec![Action::Suspend]);
    assert_eq!(run(0, Some(1)), run(0, None));
}

#[test]
fn a_build_ends_in_one_of_four_ways() {
    assert_eq!(finish_build(false, false, false, true, 3), Finish::Failed { delete: true });
    assert_eq!(finish_build(false, true, false, true, 3), Finish::Failed { delete: false });
    assert_eq!(finish_build(true, true, false, true, 3), Finish::Interrupted);
    assert_eq!(finish_build(true, false, true, true, 3), Finish::DryRun);
    assert_eq!(finish_build(true, false, false, true, 3), Finish::Publish { rotate: true });
    assert_eq!(finish_build(true, false, false, true, 0), Finish::Publish { rotate: false });
    assert_eq!(finish_build(true, false, false, false, 3), Finish::Publish { rotate: false });
}

#[test]
fn only_a_checked_database_is_swapped_in() {
    assert_eq!(
        finish_steps(Finish::Publish { rotate: true }, BuildSource::Previous),
        vec![
            FinishStep::DeleteLeftovers,
            FinishStep::FinalizeJournal,
            FinishStep::Validate,
            FinishStep::Rotate,
            FinishStep::Swap,
        ]
    );
    assert_eq!(
        finish_steps(Finish::DryRun, BuildSource::Empty),
        vec![FinishStep::DeleteLeftovers, FinishStep::FinalizeJournal, FinishStep::Validate]
    );
    assert_eq!(
        finish_steps(Finish::Failed { delete: true }, BuildSource::Empty),
        vec![FinishStep::Remove]
    );
    assert!(finish_steps(Finish::Interrupted, BuildSource::Empty).is_empty());
}

#[test]
fn a_resumed_database_outlives_its_checkpoint() {
    assert_eq!(
        finish_steps(Finish::Publish { rotate: false }, BuildSource::Leftovers),
        vec![
            FinishStep::DeleteCheckpoint,
            FinishStep::FinalizeJournal,
            FinishStep::Validate,
            FinishStep::Swap,
        ]
    );
}

#[test]
fn unchanged_and_touched_scripts_are_reused() {
    let previous = PreviousBuild::new(vec![
        existing("a.py", 10, 1, "aa"),
        existing("b.py", 20, 2, "bb"),
        existing("c.py", 30, 3, "cc"),
        existing("gone.py", 40, 4, "dd"),
    ]);
    let records = vec![
        record("a.py", "python", 10, 1),
        record("b.py", "python", 20, 9),
        record("c.py", "python", 31, 3),
        record("new.py", "python", 5, 5),
    ];
    assert!(!previous.needs_hash(&records[0]));
    assert!(previous.needs_hash(&records[1]));
    assert!(!previous.needs_hash(&records[3]));
    let hashes = vec![None, Some("bb".to_string()), Some("xx".to_string()), None];
    assert_eq!(previous.reuse(&records[0], &hashes[0]), Reuse::Same);
    assert_eq!(previous.reuse(&records[1], &hashes[1]), Reuse::Touched);
    assert_eq!(previous.reuse(&records[2], &hashes[2]), Reuse::Changed);
    assert_eq!(previous.reuse(&records[3], &hashes[3]), Reuse::Changed);
    let plan = seed_from_existing_database(&previous, &records, &hashes);
    assert_eq!(plan.removed, vec!["/cat/gone.py"]);
    assert_eq!(plan.touched, vec![1]);
    assert_eq!(plan.reused.len(), 2);
    assert!(plan.reused.contains_key("/net/a.py"));
    assert!(plan.reused.contains_key("/net/b.py"));
}

#[test]
fn a_missing_digest_matches_nothing() {
    let previous = PreviousBuild::new(vec![existing("a.py", 10, 1, "")]);
    let changed = record("a.py", "python", 10, 2);
    assert_eq!(previous.reuse(&changed, &Some(String::new())), Reuse::Changed);
    assert_eq!(previous.reuse(&changed, &None), Reuse::Changed);
}

#[test]
fn a_resumed_run_goes_on_where_it_stopped() {
    let records = vec![
        record("a.py", "python", 1, 1),
        record("b.sh", "shell", 1, 1),
        record("c.py", "python", 1, 1),
    ];
    let mut first = IndexRun::new("/tmp/x".to_string(), false, SortedMap::new(), 0, 0);
    assert_eq!(first.pending(&records), vec![0, 1, 2]);
    first.take_row(&records[0], Ok(2));
    first.take_row(&records[1], Err("unreadable".to_string()));
    assert_eq!(first.result.scripts_indexed, 1);
    assert_eq!(first.result.dependencies_indexed, 2);
    assert_eq!(
        first.result.errors,
        vec![("/net/b.sh".to_string(), "unreadable".to_string())]
    );
    assert_eq!(first.python_count, 1);
    assert_eq!(first.shell_count, 0);
    let checkpoint = first.into_checkpoint();
    let second = IndexRun::new("/tmp/x".to_string(), false, checkpoint.indexed, 1, 0);
    assert_eq!(second.pending(&records), vec![1, 2]);
    assert_eq!(second.result.scripts_indexed, 1);
    assert_eq!(second.result.scripts_reused, 1);
}

#[test]
fn batches_end_at_the_total() {
    assert_eq!(batch_end(0, 450, 200), 200);
    assert_eq!(batch_end(400, 450, 200), 450);
    assert_eq!(batch_end(450, 450, 200), 450);
}

fn texts(list: &[&str]) -> Vec<String> {
    list.iter().map(|s| s.to_string()).collect()
}

#[test]
fn references_are_listed_once_without_the_script_itself() {
    assert_eq!(
        combine_references(
            "/cat/a.sh",
            &texts(&["/cat/b.sh", "/cat/a.sh"]),
            &texts(&["/cat/b.sh", "/cat/c.yml"]),
            &texts(&["/cat/d.sh"]),
        ),
        texts(&["/cat/b.sh", "/cat/c.yml", "/cat/d.sh"])
    );
}

#[test]
fn extraction_of_a_python_script() {
    let ts = TreeSitterExtractor::new().unwrap();
    let row = extract_for_insert(
        &record("pkg/main.py", "python", 1, 1),
        b"# @author ann\nimport os\nfrom .util import go\ngo()\nopen('/cat/lib/x.sh')\n",
        None,
        &ts,
    );
    assert_eq!(row.meta.owner, "ann");
    assert!(row.deps.contains(&"os".to_string()));
    assert!(row.deps.contains(&".util".to_string()));
    assert_eq!(row.references, vec!["/cat/lib/x.sh"]);
    let ast = row.ast.unwrap();
    assert_eq!(ast.imports, row.deps);
    assert_eq!(
        ast.calls[0].resolved_target.as_deref(),
        Some("cat.pkg.util.go")
    );
}

#[test]
fn extraction_of_other_scripts() {
    let ts = TreeSitterExtractor::new().unwrap();
    let row = extract_for_insert(
        &record("run.sh", "shell", 1, 1),
        b"# @childfile /cat/job.sh\nsource profile\n/cat/run.sh again\n",
        None,
        &ts,
    );
    assert!(row.ast.is_none());
    assert_eq!(row.deps, vec!["profile"]);
    assert_eq!(row.references, vec!["/cat/job.sh"]);
    let row = extract_for_insert(
        &record("site.yml", "yaml", 1, 1),
        b"- include_role:\n    name: roles/web\n",
        None,
        &ts,
    );
    assert_eq!(row.references, vec!["roles/web"]);
}

#[test]
fn a_sidecar_takes_precedence() {
    let ts = TreeSitterExtractor::new().unwrap();
    let beside = Some(Sidecar {
        owner: Some("owner@example.com".to_string()),
        purpose: None,
        tags: None,
        entry_points: None,
        related: Some(vec!["/cat/common/logging.py".to_string()]),
    });
    let row = extract_for_insert(
        &record("run.sh", "shell", 1, 1),
        b"# @author ann\n# @brief Runs it\n",
        beside,
        &ts,
    );
    assert_eq!(row.meta.owner, "owner@example.com");
    assert_eq!(row.meta.purpose, "Runs it");
    assert_eq!(row.references, vec!["/cat/common/logging.py"]);
}

#[test]
fn warnings_are_grouped_by_path() {
    let groups = group_by_path(&texts(&["/b", "/a", "/b"]));
    assert_eq!(groups.len(), 2);
    assert_eq!(groups.get("/b"), Some(&vec![0, 2]));
    assert_eq!(groups.get("/a"), Some(&vec![1]));
}

#[test]
fn a_script_that_is_not_parsed_in_time_keeps_what_the_patterns_find() {
    let record = record("a.py", "python", 20, 1);
    let meta = extract("python", b"import os\ndef f():\n    pass\n");
    let row = row_of_parse(&record, meta, None, &None);
    assert_eq!(row.deps, vec!["os"]);
    let ast = row.ast.expect("a Python script has a payload");
    assert!(ast.imports.is_empty() && ast.definitions.is_empty() && ast.calls.is_empty());
}

#[test]
fn only_a_newer_file_asks_for_a_rebuild() {
    assert!(!needs_rebuild(Some(5), Some(5), false));
    assert!(needs_rebuild(Some(6), Some(5), false));
    assert!(needs_rebuild(Some(1), None, false));
    assert!(needs_rebuild(None, Some(5), false));
    assert!(needs_rebuild(Some(1), Some(5), true));
}

#[test]
fn an_unchanged_tree_is_reused_as_a_whole() {
    let records = vec![record("a.py", "python", 10, 1), record("b.sh", "shell", 20, 2)];
    let previous =
        PreviousBuild::new(vec![existing("b.sh", 20, 2, "bb"), existing("a.py", 10, 1, "aa")]);
    let plan = seed_from_existing_database(&previous, &records, &vec![None, None]);
    assert!(plan.removed.is_empty() && plan.touched.is_empty());
    let run = IndexRun::new("/tmp/db".to_string(), false, plan.reused, 1, 1);
    assert_eq!(run.result.scripts_indexed, 2);
    assert_eq!(run.result.scripts_reused, 2);
    assert!(run.pending(&records).is_empty());
}
