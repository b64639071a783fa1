use scat::ast_deps::{extract_python_deps, extract_python_deps_with_module};

#[test]
fn extracts_simple_import() {
    let deps = extract_python_deps("import os\nimport sys");
    assert!(deps.imports.contains(&"os".to_string()));
    assert!(deps.imports.contains(&"sys".to_string()));
}

#[test]
fn extracts_from_import() {
    let deps = extract_python_deps("from pathlib import Path");
    assert!(deps.imports.contains(&"pathlib".to_string()));
}

#[test]
fn extracts_class_and_definition_metadata() {
    let src = "@dataclass\nclass User:\n    \"\"\"doc\"\"\"\n    pass\n";
    let deps = extract_python_deps(src);
    assert_eq!(deps.definitions.len(), 1);
    assert_eq!(deps.definitions[0].name, "User");
    assert_eq!(deps.definitions[0].kind, "class");
    assert_eq!(deps.definitions[0].docstring, "doc");
    assert_eq!(deps.definitions[0].decorators, vec!["dataclass"]);
}

#[test]
fn extracts_and_resolves_local_call() {
    let src = "def helper():\n    pass\n\ndef outer():\n    helper()\n";
    let deps = extract_python_deps_with_module(src, Some("pkg.main"));
    assert_eq!(deps.calls.len(), 1);
    assert_eq!(deps.calls[0].caller, "outer");
    assert_eq!(deps.calls[0].callee, "helper");
    assert_eq!(
        deps.calls[0].resolved_target.as_deref(),
        Some("pkg.main.helper")
    );
}

#[test]
fn resolves_from_import_alias_call() {
    let src = "from .helpers import run as start\nstart()\n";
    let deps = extract_python_deps_with_module(src, Some("pkg.main"));
    assert_eq!(deps.calls.len(), 1);
    assert_eq!(
        deps.calls[0].resolved_target.as_deref(),
        Some("pkg.helpers.run")
    );
}

#[test]
fn extracts_dotted_module() {
    let deps = extract_python_deps("from os.path import join");
    assert!(deps.imports.contains(&"os.path".to_string()));
}

#[test]
fn extracts_relative_import() {
    let deps = extract_python_deps("from . import utils");
    assert!(deps.imports.contains(&".utils".to_string()));
}

#[test]
fn deduplicates_imports() {
    let deps = extract_python_deps("import os\nimport os");
    assert_eq!(
        deps.imports.iter().filter(|s| s.as_str() == "os").count(),
        1
    );
}

#[test]
fn handles_invalid_python_gracefully() {
    // Should not panic; tree-sitter returns a partial/error tree
    let deps = extract_python_deps("this is not python @@@");
    let _ = deps;
}

#[test]
fn extracts_top_level_function_defs() {
    let deps = extract_python_deps("def main():\n    pass\ndef helper():\n    pass\n");
    assert!(deps.function_defs.contains(&"main".to_string()));
    assert!(deps.function_defs.contains(&"helper".to_string()));
}

#[test]
fn decorated_function_in_class_body() {
    let src = "class Worker:\n    @staticmethod\n    def run():\n        pass\n";
    let deps = extract_python_deps(src);
    // Class and method both indexed
    assert_eq!(deps.definitions.len(), 2);
    let method = deps
        .definitions
        .iter()
        .find(|d| d.name == "Worker.run")
        .unwrap();
    assert_eq!(method.kind, "function");
    assert_eq!(method.decorators, vec!["staticmethod"]);
    // function_defs carries bare name for legacy resolution
    assert!(deps.function_defs.contains(&"run".to_string()));
}

#[test]
fn wildcard_import_no_individual_binding() {
    // `from os import *` — module is recorded as a dependency but individual
    // names are not bound, so unqualified calls are not resolved.
    let src = "from os import *\ngetenv('HOME')\n";
    let deps = extract_python_deps_with_module(src, Some("pkg.main"));
    assert!(deps.imports.contains(&"os".to_string()));
    // getenv is not in import_bindings (wildcard), so resolved_target is None
    let call = deps.calls.iter().find(|c| c.callee == "getenv").unwrap();
    assert!(call.resolved_target.is_none());
}

#[test]
fn nested_function_scope_attribution() {
    let src = "def outer():\n    def inner():\n        pass\n    inner()\n";
    let deps = extract_python_deps_with_module(src, Some("pkg.main"));
    // The call to inner() is made from outer's scope
    let call = deps.calls.iter().find(|c| c.callee == "inner").unwrap();
    assert_eq!(call.caller, "outer");
}
