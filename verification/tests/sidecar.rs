use scat::extractor::extract;
use scat::sidecar::{apply_sidecar, sidecar_path, Sidecar};

fn nothing() -> Sidecar {
    Sidecar { owner: None, purpose: None, tags: None, entry_points: None, related: None }
}

#[test]
fn a_sidecar_stands_beside_its_script() {
    assert_eq!(sidecar_path("/net/myscript.py"), "/net/myscript.py.meta.yml");
}

#[test]
fn what_a_sidecar_does_not_give_is_left_alone() {
    let mut meta = extract("python", b"# @author ann\n# @brief From the header\n");
    let s = Sidecar {
        purpose: Some("From the sidecar".to_string()),
        tags: Some(vec!["a".to_string(), "b".to_string()]),
        ..nothing()
    };
    apply_sidecar(&mut meta, s);
    assert_eq!(meta.owner, "ann");
    assert_eq!(meta.purpose, "From the sidecar");
    assert_eq!(meta.tags, vec!["a", "b"]);
    assert!(meta.entry_points.is_empty());
}

#[test]
fn a_full_sidecar_takes_the_place_of_the_header() {
    let mut meta = extract("python", b"# @author ann\n# @brief From the header\n");
    let s = Sidecar {
        owner: Some("owner@example.com".to_string()),
        purpose: Some("Verify patch freeze consistency".to_string()),
        tags: Some(vec!["patching".to_string(), "validation".to_string()]),
        entry_points: Some(vec!["main".to_string()]),
        related: Some(vec!["/catalog/scripts/common/logging.py".to_string()]),
    };
    apply_sidecar(&mut meta, s);
    assert_eq!(meta.owner, "owner@example.com");
    assert_eq!(meta.purpose, "Verify patch freeze consistency");
    assert_eq!(meta.tags, vec!["patching", "validation"]);
    assert_eq!(meta.entry_points, vec!["main"]);
    assert_eq!(meta.related, vec!["/catalog/scripts/common/logging.py"]);
}

#[test]
fn an_empty_sidecar_changes_nothing() {
    let mut meta = extract("python", b"# @author ann\n# @brief From the header\n");
    apply_sidecar(&mut meta, nothing());
    assert_eq!(meta.owner, "ann");
    assert_eq!(meta.purpose, "From the header");
}
