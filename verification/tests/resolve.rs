use scat::resolve::{
    build_module_map, module_candidates_from_logical_path, module_name_from_logical_path, path_map,
    resolve_dependency, resolve_dependency_targets, resolve_function_targets, resolve_reference,
    resolve_reference_targets, resolve_relative_dep, CallRow, ImportRow, ReferenceRow,
};

#[test]
fn resolve_relative_dep_regular_module_one_dot() {
    // from . import utils  in pkg/mod.py (module pkg.mod, not a package)
    // → pkg.utils, NOT pkg.mod.utils
    assert_eq!(
        resolve_relative_dep(".utils", "pkg.mod", false),
        Some("pkg.utils".to_string())
    );
}

#[test]
fn resolve_relative_dep_package_one_dot() {
    // from . import utils  in pkg/__init__.py (module pkg, is a package)
    // → pkg.utils
    assert_eq!(
        resolve_relative_dep(".utils", "pkg", true),
        Some("pkg.utils".to_string())
    );
}

#[test]
fn resolve_relative_dep_two_dots_goes_to_parent() {
    // from .. import utils  in pkg/sub/mod.py → pkg.utils
    assert_eq!(
        resolve_relative_dep("..utils", "pkg.sub.mod", false),
        Some("pkg.utils".to_string())
    );
}

#[test]
fn resolve_relative_dep_above_root_returns_none() {
    // from .. import utils  in top-level mod.py — can't go above root
    assert_eq!(resolve_relative_dep("..utils", "mod", false), None);
}

#[test]
fn resolve_relative_dep_bare_dot_returns_package() {
    // from . import *  with empty suffix in pkg/mod.py → pkg
    assert_eq!(
        resolve_relative_dep(".", "pkg.mod", false),
        Some("pkg".to_string())
    );
}

fn scripts(paths: &[&str]) -> Vec<(i64, String)> {
    paths
        .iter()
        .enumerate()
        .map(|(i, p)| (i as i64 + 1, p.to_string()))
        .collect()
}

#[test]
fn module_names_follow_the_logical_path() {
    assert_eq!(module_name_from_logical_path("/catalog/pkg/mod.py"), "catalog.pkg.mod");
    assert_eq!(module_name_from_logical_path("/catalog/pkg/__init__.py"), "catalog.pkg");
    assert_eq!(
        module_candidates_from_logical_path("/catalog/pkg/mod.py"),
        vec!["catalog.pkg.mod", "pkg.mod", "mod"]
    );
}

#[test]
fn first_script_keeps_a_shared_module_name() {
    let map = build_module_map(&scripts(&["/a/helper.py", "/b/helper.py"]));
    assert_eq!(map.get("helper"), Some(&1));
    assert_eq!(map.get("a.helper"), Some(&1));
    assert_eq!(map.get("b.helper"), Some(&2));
    assert_eq!(map.get("c.helper"), None);
}

#[test]
fn imports_resolve_to_the_longest_known_suffix() {
    let map = build_module_map(&scripts(&["/cat/helper.py", "/cat/pkg/mod.py", "/cat/pkg/util.py"]));
    assert_eq!(resolve_dependency("helper", "/cat/main.py", &map), Some(1));
    assert_eq!(resolve_dependency("pkg.mod", "/cat/main.py", &map), Some(2));
    assert_eq!(resolve_dependency(".util", "/cat/pkg/mod.py", &map), Some(3));
    assert_eq!(resolve_dependency("os", "/cat/main.py", &map), None);
}

#[test]
fn every_import_is_resolved_anew() {
    let map = build_module_map(&scripts(&["/cat/caller.py", "/cat/helper.py"]));
    let rows = vec![
        ImportRow {
            id: 7,
            depends_on_path: "helper".to_string(),
            caller_path: "/cat/caller.py".to_string(),
        },
        ImportRow {
            id: 8,
            depends_on_path: "gone".to_string(),
            caller_path: "/cat/caller.py".to_string(),
        },
    ];
    assert_eq!(resolve_dependency_targets(&rows, &map), vec![(7, Some(2)), (8, None)]);
}

#[test]
fn references_resolve_by_path_or_from_the_referring_script() {
    let known = path_map(&scripts(&["/cat/lib/a.sh", "/cat/bin/b.sh"]));
    assert_eq!(resolve_reference(&known, "/cat/bin/b.sh", "/cat/lib/a.sh"), Some(1));
    assert_eq!(resolve_reference(&known, "/cat/bin/b.sh", "../lib/a.sh"), Some(1));
    assert_eq!(resolve_reference(&known, "/cat/bin/b.sh", "../../../a.sh"), None);
    assert_eq!(resolve_reference(&known, "/cat/bin/b.sh", "/cat/bin/b.sh"), None);
    assert_eq!(resolve_reference(&known, "/cat/bin/b.sh", "./b.sh"), None);
    let rows = vec![
        ReferenceRow {
            id: 1,
            path: "/cat/lib/a.sh".to_string(),
            from: "/cat/bin/b.sh".to_string(),
        },
        ReferenceRow {
            id: 2,
            path: "/etc/passwd.sh".to_string(),
            from: "/cat/bin/b.sh".to_string(),
        },
    ];
    assert_eq!(resolve_reference_targets(&rows, &known), vec![(1, Some(1)), (2, None)]);
}

#[test]
fn calls_resolve_to_their_own_script_or_to_a_module() {
    let map = build_module_map(&scripts(&["/cat/main.py", "/cat/helper.py"]));
    let call = |id: i64, callee: &str, target: Option<&str>, resolved: Option<i64>| CallRow {
        id,
        callee: callee.to_string(),
        target_name: target.map(|t| t.to_string()),
        resolved,
    };
    let calls = vec![
        call(1, "local", None, None),
        call(2, "other", None, None),
        call(3, "h.run", Some("helper.run"), None),
        call(4, "x", Some("nowhere.x"), None),
        call(5, "y", None, Some(9)),
    ];
    let names = vec!["local".to_string()];
    assert_eq!(
        resolve_function_targets(1, &names, &calls, &map),
        vec![(1, Some(1)), (2, None), (3, Some(2)), (4, None), (5, Some(9))]
    );
}
