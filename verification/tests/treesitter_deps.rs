use scat::ast_deps::python_deps_of_parse;
use scat::syntax::{parse, tree_of, Grammar};
use scat::treesitter_deps::{
    deps_of_parse, extract_deps_fallback, extract_reference_paths, grammar_of, normalise_lang,
    yaml_deps_of_parse, TreeSitterExtractor,
};

#[test]
fn extracts_bare_name_source_command() {
    let ext = TreeSitterExtractor::new().unwrap();
    let deps = ext.extract_deps("source lib.sh\necho hello", "shell");
    assert!(deps.contains(&"lib.sh".to_string()));
    assert!(!deps.contains(&"hello".to_string()));
}

#[test]
fn path_like_source_is_not_an_import_edge() {
    // Path-like sources are handled by the reference extractor, not as
    // import edges, so the module resolver never sees them.
    let ext = TreeSitterExtractor::new().unwrap();
    assert!(
        ext.extract_deps("source /path/to/lib.sh", "shell")
            .is_empty()
    );
    assert!(ext.extract_deps(". ./common.sh", "shell").is_empty());
}

#[test]
fn ignores_other_commands() {
    let ext = TreeSitterExtractor::new().unwrap();
    let deps = ext.extract_deps("echo hello\nls -la", "shell");
    assert!(deps.is_empty());
}

#[test]
fn fallback_python_matches_imports() {
    let deps = extract_deps_fallback("import os\nfrom pathlib import Path", "python");
    assert!(deps.contains(&"os".to_string()));
    assert!(deps.contains(&"pathlib".to_string()));
}

#[test]
fn fallback_bash_matches_bare_source_only() {
    // Bare names become import edges; path-like sources are left to the
    // reference extractor, matching the tree-sitter extractor.
    let deps = extract_deps_fallback("source profile\n. ./lib.sh", "shell");
    assert!(deps.contains(&"profile".to_string()));
    assert!(!deps.contains(&"./lib.sh".to_string()));
}

#[test]
fn reference_paths_from_ssh_and_scp() {
    let content = "scp /catalog/scripts/lib/deploy.py host:/tmp/\n\
                   ssh host python3 /catalog/scripts/jobs/nightly.py";
    let refs = extract_reference_paths(content);
    assert!(refs.contains(&"/catalog/scripts/lib/deploy.py".to_string()));
    assert!(refs.contains(&"/catalog/scripts/jobs/nightly.py".to_string()));
}

#[test]
fn reference_paths_from_paramiko_and_json() {
    let python = "client.exec_command('/catalog/scripts/run.sh --flag')";
    let refs = extract_reference_paths(python);
    assert_eq!(refs, vec!["/catalog/scripts/run.sh".to_string()]);

    let manifest = r#"{"steps": ["/catalog/scripts/a.py", "/catalog/scripts/b.sh"]}"#;
    let refs = extract_reference_paths(manifest);
    assert!(refs.contains(&"/catalog/scripts/a.py".to_string()));
    assert!(refs.contains(&"/catalog/scripts/b.sh".to_string()));
}

#[test]
fn reference_paths_ignore_bare_basenames_and_dedupe() {
    // No separator → cannot match a full logical path, so it is dropped.
    assert!(extract_reference_paths("run foo.py now").is_empty());
    // Repeated path collapses to a single candidate.
    let refs = extract_reference_paths("a/x.py then a/x.py again");
    assert_eq!(refs, vec!["a/x.py".to_string()]);
}

#[test]
fn reference_paths_normalise_windows_backslashes() {
    // A pure-backslash reference is captured and normalised to `/` so it
    // resolves the same as a forward-slash path.
    let refs = extract_reference_paths("call ..\\lib\\common.py now");
    assert_eq!(refs, vec!["../lib/common.py".to_string()]);
    // Mixed separators also normalise, and dedupe against the `/` form.
    let refs = extract_reference_paths("a\\b\\c.sh and a/b/c.sh");
    assert_eq!(refs, vec!["a/b/c.sh".to_string()]);
}

#[test]
fn reference_paths_skip_unrelated_and_similar_extensions() {
    // .bashrc / .shell must not be captured as .bash / .sh.
    let refs = extract_reference_paths("source ~/.bashrc\nedit /etc/foo.shell");
    assert!(refs.is_empty(), "unexpected: {refs:?}");
}

#[test]
fn normalise_lang_is_case_insensitive_with_unknown_fallback() {
    assert_eq!(normalise_lang("Shell"), "bash");
    assert_eq!(normalise_lang("PYTHON"), "python");
    assert_eq!(normalise_lang("JSON"), "json");
    assert_eq!(normalise_lang("YAML"), "yaml");
    assert_eq!(normalise_lang("perl"), "unknown");
    assert_eq!(normalise_lang(""), "unknown");
}

#[test]
fn extract_deps_unknown_language_returns_empty() {
    let ext = TreeSitterExtractor::new().unwrap();
    assert!(ext.extract_deps("import os", "ruby").is_empty());
}

#[test]
fn extract_python_ast_returns_full_dependency_payload() {
    let ext = TreeSitterExtractor::new().unwrap();
    let deps = ext.extract_python_ast("import os\ndef f():\n    pass\nf()\n", Some("pkg.m"));
    assert!(deps.imports.contains(&"os".to_string()));
    assert_eq!(deps.definitions.len(), 1);
    assert_eq!(deps.calls.len(), 1);
}

#[test]
fn reference_paths_do_not_match_uppercase_extension() {
    // The regex is case-sensitive: `.PY` must not be treated as `.py`.
    let refs = extract_reference_paths("run a/b/SCRIPT.PY now");
    assert!(refs.is_empty(), "unexpected: {refs:?}");
}

#[test]
fn reference_paths_stop_at_trailing_punctuation() {
    let refs = extract_reference_paths("see /catalog/scripts/run.py, then done.");
    assert_eq!(refs, vec!["/catalog/scripts/run.py".to_string()]);
}

#[test]
fn fallback_extract_deps_unknown_language_returns_empty() {
    assert!(extract_deps_fallback("import os", "ruby").is_empty());
}

#[test]
fn empty_source_does_not_panic_either_extractor() {
    let ext = TreeSitterExtractor::new().unwrap();
    assert!(ext.extract_deps("", "python").is_empty());
    assert!(ext.extract_deps("", "shell").is_empty());
    assert!(extract_reference_paths("").is_empty());
}

#[test]
fn extract_deps_handles_deeply_nested_script_without_stack_overflow() {
    // The command walk used to be recursive, tracking AST nesting depth
    // 1:1 with native stack depth. A deeply nested script would overflow
    // the stack; the iterative walk must handle this without crashing.
    let mut source = String::new();
    for _ in 0..20_000 {
        source.push_str("if true; then ");
    }
    source.push_str("source lib.sh");
    for _ in 0..20_000 {
        source.push_str("; fi");
    }

    let ext = TreeSitterExtractor::new().unwrap();
    let deps = ext.extract_deps(&source, "shell");
    assert!(deps.contains(&"lib.sh".to_string()));
}

#[test]
fn yaml_extracts_import_playbook() {
    let ext = TreeSitterExtractor::new().unwrap();
    let refs = ext.extract_yaml_deps("- import_playbook: playbooks/site.yml\n");
    assert_eq!(refs, vec!["playbooks/site.yml".to_string()]);
}

#[test]
fn yaml_extracts_include_and_import_tasks() {
    let ext = TreeSitterExtractor::new().unwrap();
    let refs = ext.extract_yaml_deps(
        "- include_tasks: tasks/setup.yml\n- import_tasks: tasks/teardown.yml\n",
    );
    assert!(refs.contains(&"tasks/setup.yml".to_string()));
    assert!(refs.contains(&"tasks/teardown.yml".to_string()));
}

#[test]
fn yaml_extracts_fqcn_qualified_keys() {
    let ext = TreeSitterExtractor::new().unwrap();
    let refs = ext.extract_yaml_deps("- ansible.builtin.include_tasks: tasks/setup.yml\n");
    assert_eq!(refs, vec!["tasks/setup.yml".to_string()]);
}

#[test]
fn yaml_extracts_vars_files_and_include_vars_lists() {
    let ext = TreeSitterExtractor::new().unwrap();
    let refs = ext.extract_yaml_deps(
        "vars_files:\n  - vars/main.yml\n  - vars/prod.yml\ninclude_vars: vars/extra.yml\n",
    );
    assert!(refs.contains(&"vars/main.yml".to_string()));
    assert!(refs.contains(&"vars/prod.yml".to_string()));
    assert!(refs.contains(&"vars/extra.yml".to_string()));
}

#[test]
fn yaml_include_tasks_mapping_form_resolves_file_key() {
    let ext = TreeSitterExtractor::new().unwrap();
    let refs = ext.extract_yaml_deps(
        "- include_tasks:\n    file: tasks/setup.yml\n    apply:\n      tags: setup\n",
    );
    assert!(refs.contains(&"tasks/setup.yml".to_string()));
}

#[test]
fn yaml_include_tasks_ignores_option_fields_even_when_path_shaped() {
    // A sibling option (`apply.tags` here) is not a reference field, so
    // it must never become a candidate — even when its value happens to
    // look like a path to an indexed script.
    let ext = TreeSitterExtractor::new().unwrap();
    let refs = ext.extract_yaml_deps(
        "- include_tasks:\n    file: tasks/setup.yml\n    apply:\n      tags: lib/unrelated.yml\n",
    );
    assert_eq!(refs, vec!["tasks/setup.yml".to_string()]);
}

#[test]
fn yaml_roles_mapping_form_ignores_sibling_vars() {
    // `roles: [{role: ..., vars: {...}}]` — only the `role` field is a
    // reference; a `vars` sub-mapping alongside it is not, even if one
    // of its values looks path-shaped.
    let ext = TreeSitterExtractor::new().unwrap();
    let refs = ext.extract_yaml_deps(
        "roles:\n  - role: roles/custom/nginx\n    vars:\n      config_file: lib/unrelated.yml\n",
    );
    assert_eq!(refs, vec!["roles/custom/nginx".to_string()]);
}

#[test]
fn yaml_roles_keeps_path_style_entries_and_drops_galaxy_names() {
    let ext = TreeSitterExtractor::new().unwrap();
    let refs = ext.extract_yaml_deps("roles:\n  - common\n  - roles/custom/nginx\n");
    assert!(refs.contains(&"roles/custom/nginx".to_string()));
    assert!(!refs.contains(&"common".to_string()));
}

#[test]
fn yaml_include_role_keeps_path_style_name_and_drops_galaxy_name() {
    let ext = TreeSitterExtractor::new().unwrap();
    let path_refs = ext.extract_yaml_deps("- include_role:\n    name: roles/custom/nginx\n");
    assert_eq!(path_refs, vec!["roles/custom/nginx".to_string()]);

    let galaxy_refs = ext.extract_yaml_deps("- include_role:\n    name: nginx\n");
    assert!(galaxy_refs.is_empty(), "unexpected: {galaxy_refs:?}");
}

#[test]
fn yaml_ignores_unrelated_keys() {
    let ext = TreeSitterExtractor::new().unwrap();
    let refs = ext.extract_yaml_deps(
        "name: Deploy app\nhosts: all\ntasks:\n  - name: run it\n    command: /bin/true\n",
    );
    assert!(refs.is_empty(), "unexpected: {refs:?}");
}

#[test]
fn yaml_malformed_content_does_not_panic() {
    let ext = TreeSitterExtractor::new().unwrap();
    // Unterminated flow mapping / mismatched braces — must not panic,
    // an empty result (however partial the parse) is acceptable.
    let _ = ext.extract_yaml_deps("include_tasks: [foo.yml\nfoo: {bar: ");
}

#[test]
fn yaml_empty_source_does_not_panic() {
    let ext = TreeSitterExtractor::new().unwrap();
    assert!(ext.extract_yaml_deps("").is_empty());
}

#[test]
fn reference_path_regex_now_matches_yaml_extensions() {
    let refs = extract_reference_paths(
        "ansible-playbook /catalog/playbooks/site.yml and /catalog/vars/main.yaml",
    );
    assert!(refs.contains(&"/catalog/playbooks/site.yml".to_string()));
    assert!(refs.contains(&"/catalog/vars/main.yaml".to_string()));
}

#[test]
fn reference_paths_reject_compound_extensions() {
    // A char right after the matched extension that could continue the
    // same filename (a Jinja-templated YAML file, a shell backup, a
    // dash-suffixed copy) means the real extension is something else —
    // `templates/site.yml` must not be extracted from
    // `templates/site.yml.j2`.
    let refs = extract_reference_paths(
        "see templates/site.yml.j2 and lib/run.sh~ and old/script.py-bak",
    );
    assert!(refs.is_empty(), "unexpected: {refs:?}");
}

#[test]
fn yaml_deep_nesting_does_not_stack_overflow() {
    // The value walk under a recognized key used to be recursive,
    // tracking YAML nesting depth 1:1 with native stack depth. A
    // pathologically (but validly) deep flow sequence must not crash —
    // same concern as `extract_deps_handles_deeply_nested_script_without_stack_overflow`.
    let mut source = String::from("vars_files: ");
    for _ in 0..20_000 {
        source.push('[');
    }
    source.push_str("x/y.yml");
    for _ in 0..20_000 {
        source.push(']');
    }

    let ext = TreeSitterExtractor::new().unwrap();
    let refs = ext.extract_yaml_deps(&source);
    assert!(refs.contains(&"x/y.yml".to_string()));
}

#[test]
fn a_parse_that_did_not_end_leaves_the_patterns() {
    let source = "import os\nfrom sys import path\n";
    assert_eq!(deps_of_parse(&None, source, "python"), vec!["os", "sys"]);
    assert_eq!(deps_of_parse(&None, "source lib.sh\n", "shell"), vec!["lib.sh"]);
    assert!(python_deps_of_parse(&None, Some("pkg.m")).imports.is_empty());
    assert!(yaml_deps_of_parse(&None).is_empty());
}

#[test]
fn a_parse_that_ended_is_read() {
    let source = "if true; then\n  source lib.sh\nfi\n";
    let parsed = parse(Grammar::Bash, source);
    assert!(parsed.is_some());
    assert_eq!(deps_of_parse(&parsed, source, "SHELL"), vec!["lib.sh"]);
    let parsed = parse(Grammar::Python, "from . import utils\n");
    assert_eq!(
        python_deps_of_parse(&parsed, Some("pkg.main")).imports,
        deps_of_parse(&parsed, "", "python")
    );
}

#[test]
fn a_script_is_read_through_the_grammar_of_its_language() {
    assert_eq!(grammar_of("python"), Some(Grammar::Python));
    assert_eq!(grammar_of("Shell"), Some(Grammar::Bash));
    assert_eq!(grammar_of("yaml"), Some(Grammar::Yaml));
    assert_eq!(grammar_of("csv"), None);
    let ext = TreeSitterExtractor::new().unwrap();
    assert!(ext.parse_script("a,b\n", "csv").is_none());
    assert_eq!(ext.parse_script("a: b\n", "yaml").unwrap().source, "a: b\n");
}

#[test]
fn a_tree_has_one_row_for_every_node() {
    let source = "[1, true]";
    let mut parser = tree_sitter::Parser::new();
    parser.set_language(&tree_sitter_json::LANGUAGE.into()).unwrap();
    let parsed = parser.parse(source, None);
    let nodes = parsed.as_ref().unwrap().root_node().descendant_count();
    let tree = tree_of(source, parsed).unwrap();
    assert_eq!(tree.source, source);
    assert_eq!(tree.rows.len(), nodes);
    let kinds: Vec<&str> = tree.rows.iter().map(|r| r.kind.as_str()).collect();
    assert_eq!(kinds, vec!["document", "array", "[", "number", ",", "true", "]"]);
    assert!(tree_of(source, None).is_none());
}

#[test]
fn a_repeated_text_mentions_nothing_new() {
    let content = "run /opt/b.sh\nthen ./lib/a.py and /opt/b.sh~ and /opt/b.sh";
    let once = extract_reference_paths(content);
    assert_eq!(once, vec!["/opt/b.sh", "./lib/a.py"]);
    assert_eq!(extract_reference_paths(&format!("{content}\n{content}")), once);
}
