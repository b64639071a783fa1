use scat::mapping::{to_native, PathMapping};
use scat::search::parse_query;
use scat::tui::viewer::viewer_commands;

fn texts(list: &[&str]) -> Vec<String> {
    list.iter().map(|s| s.to_string()).collect()
}

fn mapping(prefix: &str, native: &str) -> PathMapping {
    PathMapping { prefix: prefix.to_string(), native: native.to_string() }
}

#[test]
fn the_first_mapping_that_fits_is_applied() {
    let mappings =
        vec![mapping("/catalog/scripts", "/net/scripts"), mapping("/catalog", "/mnt")];
    assert_eq!(
        to_native("/catalog/scripts/tools/foo.py", &mappings),
        "/net/scripts/tools/foo.py"
    );
    assert_eq!(to_native("/catalog/other.py", &mappings), "/mnt/other.py");
    assert_eq!(to_native("/catalog/scripts", &mappings), "/net/scripts");
    assert_eq!(to_native("/elsewhere/x.py", &mappings), "/elsewhere/x.py");
}

#[test]
fn a_prefix_ends_at_a_separator() {
    let mappings =
        vec![PathMapping { prefix: "/cat".to_string(), native: "/net".to_string() }];
    assert_eq!(to_native("/catalog/x.py", &mappings), "/catalog/x.py");
    assert_eq!(to_native("/cat/x.py", &mappings), "/net/x.py");
}

#[test]
fn filters_are_taken_out_of_a_query() {
    let q = parse_query("backup lang:python owner:alice");
    assert_eq!(q.text, "backup");
    assert_eq!(q.lang.as_deref(), Some("python"));
    assert_eq!(q.owner.as_deref(), Some("alice"));
    assert_eq!(q.tag, None);
    let q = parse_query("  patch   freeze tag:ops tag:nightly lang: ");
    assert_eq!(q.text, "patch freeze lang:");
    assert_eq!(q.tag.as_deref(), Some("nightly"));
    assert_eq!(q.lang, None);
}

#[test]
fn the_first_setting_names_the_viewer() {
    assert_eq!(
        viewer_commands(&texts(&["", "/usr/bin/vim -u none", "nano"])),
        vec![texts(&["/usr/bin/vim", "-u", "none", "-R"])]
    );
    assert_eq!(viewer_commands(&texts(&["nano"])), vec![texts(&["nano"])]);
    assert_eq!(viewer_commands(&texts(&["vi -R"])), vec![texts(&["vi", "-R"])]);
    assert_eq!(
        viewer_commands(&Vec::new()),
        vec![texts(&["view"]), texts(&["vim", "-R"]), texts(&["vi", "-R"]), texts(&["less"])]
    );
}
