use scat::scan_tree::{
    first_visible, level_message, sibling_line, tree_rows, MAX_SIBLINGS_PER_LEVEL,
    MAX_VISIBLE_LEVELS,
};

#[test]
fn tree_rows_empty_when_entry_is_root() {
    let root = "/scan";
    assert!(tree_rows(root, root).is_empty());
}

#[test]
fn tree_rows_empty_when_entry_outside_root() {
    let root = "/scan";
    assert!(tree_rows(root, "/other/file.py").is_empty());
}

#[test]
fn tree_rows_one_row_per_ancestor_level() {
    let root = "/scan";
    let entry = "/scan/a/b/file.py";
    let rows = tree_rows(root, entry);
    // depth 0: /scan (active "a"), depth 1: /scan/a (active "b"),
    // depth 2: /scan/a/b (active "file.py").
    assert_eq!(rows.len(), 3);
    assert_eq!(rows[0].depth, 0);
    assert_eq!(rows[1].depth, 1);
    assert_eq!(rows[2].depth, 2);
}

#[test]
fn tree_rows_top_level_file_is_one_row() {
    let root = "/scan";
    let entry = "/scan/file.py";
    let rows = tree_rows(root, entry);
    assert_eq!(rows.len(), 1);
    assert_eq!(rows[0].depth, 0);
}

#[test]
fn sibling_line_brackets_the_active_entry() {
    let mut names: Vec<String> = Vec::new();
    names.push("a.py".to_string());
    names.push("b.py".to_string());
    names.push("c.py".to_string());

    let line = sibling_line(&names, "b.py");
    assert_eq!(line, "a.py  [b.py]  c.py");
}

#[test]
fn sibling_line_windows_around_active_entry_when_too_many_siblings() {
    let mut names: Vec<String> = Vec::new();
    for i in 0..20 {
        names.push(format!("f{i:02}.py"));
    }

    let line = sibling_line(&names, "f19.py");
    assert!(line.contains("[f19.py]"), "line: {line}");
    // Windowed to MAX_SIBLINGS_PER_LEVEL entries, not all 20.
    assert_eq!(line.split("  ").count(), MAX_SIBLINGS_PER_LEVEL);
}

#[test]
fn sibling_line_names_active_entry_when_missing_from_listing() {
    let mut names: Vec<String> = Vec::new();
    names.push("a.py".to_string());

    let line = sibling_line(&names, "ghost.py");
    assert!(line.starts_with("[ghost.py]"), "line: {line}");
}

#[test]
fn rows_name_the_directory_and_its_active_entry() {
    let rows = tree_rows("/scan", "/scan/a/file.py");
    assert_eq!(rows[0].dir, "/scan");
    assert_eq!(rows[0].active, "a");
    assert_eq!(rows[1].dir, "/scan/a");
    assert_eq!(rows[1].active, "file.py");
}

#[test]
fn siblings_are_sorted_and_windowed() {
    let names: Vec<String> = ["c", "a", "b"].iter().map(|s| s.to_string()).collect();
    assert_eq!(sibling_line(&names, "a"), "[a]  b  c");
    let many: Vec<String> = (0..20).map(|i| format!("f{i:02}")).collect();
    assert!(sibling_line(&many, "f10").contains("[f10]"));
    assert_eq!(sibling_line(&many, "f10").split("  ").count(), MAX_SIBLINGS_PER_LEVEL);
}

#[test]
fn only_the_last_levels_are_shown() {
    assert_eq!(first_visible(3), 0);
    assert_eq!(first_visible(MAX_VISIBLE_LEVELS + 2), 2);
    assert_eq!(level_message(2, "[x]"), "    [x]");
}
