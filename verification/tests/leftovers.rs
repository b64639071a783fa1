use scat::atomic::{rotate_copies, RotationStep};
use scat::checkpoint::{ckpt_path, resume_decision, wip_path, Checkpoint, ResumeDecision};
use scat::sorted_map::SortedMap;

#[test]
fn wip_path_and_ckpt_path_are_siblings_of_db() {
    let db_path = "/some/dir/catalog.db";
    let wip = wip_path(db_path);
    let ckpt = ckpt_path(db_path);
    assert_eq!(wip, "/some/dir/catalog.db.wip");
    assert_eq!(ckpt, "/some/dir/catalog.db.wip.ckpt");
}

#[test]
fn leftovers_of_a_bare_file_name() {
    assert_eq!(wip_path("catalog.db"), "catalog.db.wip");
    assert_eq!(ckpt_path("catalog.db"), "catalog.db.wip.ckpt");
}

#[test]
fn checkpoint_holds_the_paths_it_was_given() {
    let mut indexed = SortedMap::new();
    for path in ["/catalog/scripts/a.py", "/catalog/scripts/b.sh", "/catalog/scripts/c.py"] {
        indexed.insert(path, ());
    }
    let ckpt = Checkpoint { indexed };
    assert_eq!(ckpt.indexed.len(), 3);
    assert!(ckpt.indexed.contains_key("/catalog/scripts/b.sh"));
    assert!(!ckpt.indexed.contains_key("/catalog/scripts/d.py"));
}

#[test]
fn only_sound_leftovers_are_resumed() {
    assert_eq!(resume_decision(false, false, true, true, true), ResumeDecision::Resume);
    assert_eq!(resume_decision(true, false, true, true, true), ResumeDecision::Discard);
    assert_eq!(resume_decision(false, true, true, true, true), ResumeDecision::Discard);
    assert_eq!(resume_decision(false, false, true, false, true), ResumeDecision::Discard);
    assert_eq!(resume_decision(false, false, true, true, false), ResumeDecision::Discard);
    assert_eq!(resume_decision(false, false, false, false, false), ResumeDecision::Fresh);
}

fn told(step: &RotationStep) -> String {
    match step {
        RotationStep::Remove(p) => format!("remove {p}"),
        RotationStep::Rename(p, q) => format!("rename {p} {q}"),
        RotationStep::Copy(p, q) => format!("copy {p} {q}"),
    }
}

#[test]
fn rotation_shifts_the_copies_up() {
    let steps: Vec<String> = rotate_copies("s.db", 3).iter().map(told).collect();
    assert_eq!(
        steps,
        vec!["remove s.db.3", "rename s.db.2 s.db.3", "rename s.db.1 s.db.2", "copy s.db s.db.1"]
    );
}

#[test]
fn nothing_is_rotated_where_no_copies_are_kept() {
    assert!(rotate_copies("s.db", 0).is_empty());
    let one: Vec<String> = rotate_copies("s.db", 1).iter().map(told).collect();
    assert_eq!(one, vec!["remove s.db.1", "copy s.db s.db.1"]);
}

#[test]
fn leftovers_of_a_path_from_here() {
    assert_eq!(wip_path("./data/catalog.db"), "./data/catalog.db.wip");
    assert_eq!(ckpt_path("./catalog.db"), "./catalog.db.wip.ckpt");
}
