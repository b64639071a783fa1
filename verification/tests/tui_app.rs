use scat::json::{Row, Value};
use scat::script_view::{logical_base_name, logical_parent_dir, string_list};
use scat::sorted_map::SortedMap;
use scat::tui::app::{sort_checkouts, TuiApp, ViewTarget, Worker};
use scat::tui::detail::{native_path_for_row, warning_summary, DetailClick};
use scat::tui::detail_worker::{
    load_detail, DependencyGraph, DetailAnswers, DetailPayload, DetailResponse,
};
use scat::tui::mouse::{
    hit_test, inner_rect, ClickRegion, MouseAction, RegionKind, TerminalEvent,
};
use scat::tui::workers::{
    diff_unavailable, revision_to_compare, DiffResponse, FileCheckResponse, FolderListing, FolderResponse, Request,
    SearchResponse, StatsResponse,
};
use scat::tui::{
    apply_scroll_key, move_selection, next_focus, previous_focus, scroll_by, scroll_command,
    search_title, Area, Focus, Key, KeyCode, Modifiers, ScrollCommand, ViewMode, DEBOUNCE_MS,
    PREVIEW_LINES,
};

fn text(s: &str) -> Value {
    Value::Text(s.to_string())
}

fn row(columns: &[(&str, Value)]) -> Row {
    let mut row = Row::new();
    for (key, value) in columns {
        row.insert(key, value.copy());
    }
    row
}

fn text_at<'a>(row: &'a Row, key: &str) -> &'a str {
    match row.get(key) {
        Some(Value::Text(s)) => s.as_str(),
        _ => "",
    }
}

fn detail_row(logical_path: &str) -> Row {
    row(&[("logical_path", text(logical_path))])
}

fn key(code: KeyCode) -> Key {
    Key { code, modifiers: Modifiers::Plain }
}

fn typed(c: char) -> Key {
    key(KeyCode::Char(c))
}

/// A catalog that answers what the browser asks for.
#[derive(Default)]
struct Catalog {
    scripts: Vec<(String, String)>,
    uses: Vec<(String, String)>,
    functions: Vec<Row>,
    callers: Vec<Row>,
    checkouts: Vec<(String, String)>,
    files: Vec<String>,
}

impl Catalog {
    fn with(paths: &[&str]) -> Catalog {
        let scripts = paths.iter().map(|p| (p.to_string(), "print(1)\n".to_string())).collect();
        Catalog { scripts, ..Catalog::default() }
    }

    fn script(&self, path: &str) -> Option<Row> {
        self.scripts.iter().find(|s| s.0 == path).map(|s| {
            row(&[
                ("logical_path", text(&s.0)),
                ("language", text("python")),
                ("content", text(&s.1)),
                ("owner", text("alice")),
            ])
        })
    }

    fn in_dir(&self, dir: &str, except: &str) -> Vec<Row> {
        self.scripts
            .iter()
            .filter(|s| logical_parent_dir(&s.0) == dir && s.0 != except)
            .map(|s| detail_row(&s.0))
            .collect()
    }

    fn detail(&self, path: &str) -> DetailPayload {
        let copy = |rows: &Vec<Row>| -> Vec<Row> {
            rows.iter()
                .map(|r| {
                    let mut out = Row::new();
                    for i in 0..r.len() {
                        let k = r.key_at(i).clone();
                        out.insert(&k, r.get(&k).unwrap().copy());
                    }
                    out
                })
                .collect()
        };
        load_detail(
            self.script(path),
            DetailAnswers {
                graph: Ok(DependencyGraph {
                    uses: self.uses.iter().filter(|u| u.0 == path).map(|u| u.1.clone()).collect(),
                    used_by: Vec::new(),
                }),
                revisions: Ok(Vec::new()),
                functions: Ok(copy(&self.functions)),
                callers: Ok(copy(&self.callers)),
                siblings: self.in_dir(&logical_parent_dir(path), path),
                sibling_dirs: Vec::new(),
                native_path: None,
            },
        )
    }

    fn serve(&self, app: &mut TuiApp) {
        while !app.outbox.is_empty() {
            match app.outbox.remove(0) {
                Request::Search(r) => app.apply_results(SearchResponse {
                    id: r.id,
                    result: Ok(self.scripts.iter().map(|s| detail_row(&s.0)).collect()),
                }),
                Request::Detail(r) => app.apply_detail_response(DetailResponse {
                    id: r.id,
                    payload: self.detail(&r.path),
                }),
                Request::Diff(r) => {
                    let output = match self.checkouts.iter().find(|c| c.0 == r.path) {
                        Some(c) => format!("--- catalog:{}\n+++ {}\n", r.path, c.1),
                        None => diff_unavailable(&r.path, "No vc checkouts found."),
                    };
                    app.apply_diff_response(DiffResponse { id: r.id, output });
                }
                Request::FileCheck(r) => {
                    let exists = self.files.contains(&r.native_path);
                    app.apply_file_check_response(FileCheckResponse {
                        id: r.id,
                        logical_path: r.logical_path,
                        native_path: r.native_path,
                        mapped: r.mapped,
                        exists,
                    });
                }
                Request::Folder(r) => {
                    let scripts = self.in_dir(&r.dir, "");
                    app.apply_folder_response(FolderResponse {
                        id: r.id,
                        dir: r.dir,
                        result: Ok(FolderListing { dirs: Vec::new(), scripts }),
                    });
                }
                Request::Stats(r) => app.apply_stats_response(StatsResponse {
                    id: r.id,
                    result: Ok(Row::new()),
                }),
                Request::Copy(path) => app.apply_copy_result(&path, None),
            }
        }
    }
}

fn make_app() -> TuiApp {
    let mut app = TuiApp::new();
    app.outbox.clear();
    app
}

fn showing(catalog: &Catalog, path: &str) -> TuiApp {
    let mut app = make_app();
    app.results = vec![detail_row(path)];
    app.selected = 0;
    app.load_selected();
    catalog.serve(&mut app);
    app
}

fn empty_payload(detail: Option<Row>, checkouts: Vec<Row>, preview: &str) -> DetailPayload {
    DetailPayload {
        detail,
        contributors: vec![],
        deps: vec![],
        functions: vec![],
        function_call_sites: SortedMap::new(),
        checkouts,
        siblings: vec![],
        sibling_dirs: vec![],
        native_path: None,
        cached_preview: preview.to_string(),
        preview_total_lines: 0,
        error: None,
    }
}

#[test]
fn focus_cycles_forward_and_backward() {
    assert_eq!(next_focus(Focus::Search), Focus::Results);
    assert_eq!(next_focus(Focus::Results), Focus::Preview);
    assert_eq!(next_focus(Focus::Preview), Focus::Deps);
    assert_eq!(next_focus(Focus::Deps), Focus::Functions);
    assert_eq!(next_focus(Focus::Functions), Focus::Revisions);
    assert_eq!(next_focus(Focus::Revisions), Focus::Search);

    assert_eq!(previous_focus(Focus::Search), Focus::Revisions);
    assert_eq!(previous_focus(Focus::Revisions), Focus::Functions);
    assert_eq!(previous_focus(Focus::Functions), Focus::Deps);
    assert_eq!(previous_focus(Focus::Deps), Focus::Preview);
    assert_eq!(previous_focus(Focus::Preview), Focus::Results);
    assert_eq!(previous_focus(Focus::Results), Focus::Search);
}

#[test]
fn selection_movement_stays_in_bounds() {
    assert_eq!(move_selection(0, 0, 1), 0);
    assert_eq!(move_selection(0, 3, -1), 0);
    assert_eq!(move_selection(0, 3, 1), 1);
    assert_eq!(move_selection(2, 3, 1), 2);
    assert_eq!(move_selection(2, 3, -2), 0);
}

#[test]
fn scroll_movement_saturates_at_zero() {
    assert_eq!(scroll_by(0, -1), 0);
    assert_eq!(scroll_by(5, -2), 3);
    assert_eq!(scroll_by(5, 10), 15);
}

#[test]
fn native_path_uses_mapping_when_available() {
    let row = detail_row("/catalog/scripts/tools/foo.py");
    let expected = "/net/scripts/tools/foo.py".to_string();
    assert_eq!(native_path_for_row(&row, &Some(expected.clone())), Some(expected));
}

#[test]
fn native_path_omits_identity_mapping() {
    let row = detail_row("/catalog/scripts/tools/foo.py");
    assert_eq!(
        native_path_for_row(&row, &Some("/catalog/scripts/tools/foo.py".to_string())),
        None
    );
    assert_eq!(native_path_for_row(&row, &None), None);
}

#[test]
fn live_source_view_resolves_mapped_path() {
    let catalog = Catalog { files: vec!["/net/scripts/foo.py".to_string()], ..Catalog::default() };
    let mut app = make_app();
    app.native_path = Some("/net/scripts/foo.py".to_string());
    app.detail = Some(detail_row("/catalog/scripts/foo.py"));
    app.detail_loading = false;

    app.queue_live_source_view();
    catalog.serve(&mut app);

    let target = app.pending_view.take().expect("live source queued");
    match target {
        ViewTarget::LiveSource { logical_path, native_path } => {
            assert_eq!(logical_path, "/catalog/scripts/foo.py");
            assert_eq!(native_path, "/net/scripts/foo.py");
        }
        other => panic!("expected live source target, got {other:?}"),
    }
    assert!(app.error.is_none());
}

#[test]
fn live_source_view_opens_logical_path_without_mapping_when_file_exists() {
    // No mapping configured, but the logical path is itself a real file on
    // disk (the catalog-build-host scenario): it should open directly.
    let logical = "/tmp/scripts/foo.py";
    let catalog = Catalog { files: vec![logical.to_string()], ..Catalog::default() };
    let mut app = make_app();
    app.detail = Some(detail_row(logical));
    app.detail_loading = false;

    app.queue_live_source_view();
    catalog.serve(&mut app);

    let target = app.pending_view.take().expect("existing file opens without mapping");
    match target {
        ViewTarget::LiveSource { logical_path, native_path } => {
            assert_eq!(logical_path, logical);
            assert_eq!(native_path, logical);
        }
        other => panic!("expected live source target, got {other:?}"),
    }
}

#[test]
fn live_source_view_errors_without_mapping() {
    let mut app = make_app();
    app.detail = Some(detail_row("/catalog/scripts/foo.py"));
    app.detail_loading = false;

    app.queue_live_source_view();
    Catalog::default().serve(&mut app);

    assert!(app.pending_view.is_none());
    let err = app.error.as_deref().expect("error set");
    assert!(
        err.contains("No filesystem mapping"),
        "unexpected error: {err}"
    );
}

#[test]
fn live_source_view_errors_when_file_missing() {
    let mut app = make_app();
    app.native_path = Some("/net/scripts/missing.py".to_string());
    app.detail = Some(detail_row("/catalog/scripts/missing.py"));
    app.detail_loading = false;

    app.queue_live_source_view();
    Catalog::default().serve(&mut app);

    assert!(app.pending_view.is_none());
    let err = app.error.as_deref().expect("error set");
    assert!(
        err.contains("Live source not found"),
        "unexpected error: {err}"
    );
}

#[test]
fn search_title_prioritizes_error_then_searching() {
    assert_eq!(search_title(false, false), "Search");
    assert_eq!(search_title(false, true), "Search (searching…)");
    assert_eq!(search_title(true, true), "Search (invalid query)");
}

#[test]
fn stale_detail_response_is_ignored() {
    let mut app = make_app();
    app.inflight_detail_id = Some(99);
    app.detail_loading = true;
    app.detail = None;

    app.apply_detail_response(DetailResponse {
        id: 98,
        payload: empty_payload(Some(Row::new()), vec![], "x"),
    });

    assert_eq!(app.inflight_detail_id, Some(99));
    assert!(app.detail_loading);
    assert!(app.detail.is_none());
    assert!(app.deps.is_empty());
    assert!(app.functions.is_empty());
    assert!(app.cached_preview.is_empty());
}

fn checkout_row(os: &str, user: &str, timestamp: &str) -> Row {
    row(&[("os_flavor", text(os)), ("user", text(user)), ("timestamp", text(timestamp))])
}

#[test]
fn detail_response_sorts_checkouts_once_on_load() {
    let mut app = make_app();
    app.inflight_detail_id = Some(1);
    app.detail_loading = true;

    app.apply_detail_response(DetailResponse {
        id: 1,
        payload: empty_payload(
            Some(Row::new()),
            vec![
                checkout_row("ZOS", "alice", "20240101_1000"),
                checkout_row("LINUX", "bob", "20240101_0900"),
                checkout_row("LINUX", "jdoe", "20240102_0900"),
            ],
            "",
        ),
    });

    let ordered_users = app.checkouts.iter().map(|row| text_at(row, "user")).collect::<Vec<_>>();
    assert_eq!(ordered_users, vec!["jdoe", "bob", "alice"]);
}

#[test]
fn detail_diff_key_shows_no_checkout_message_without_crashing() {
    let mut app = make_app();
    app.mode = ViewMode::Detail;
    app.detail = Some(detail_row("/catalog/scripts/a.py"));

    app.handle_detail_key(typed('d'));

    assert_eq!(app.mode, ViewMode::DetailDiff);
    Catalog::with(&["/catalog/scripts/a.py"]).serve(&mut app);
    assert!(!app.detail_diff_loading);
    assert!(app.detail_diff_output.contains("No vc checkouts found"));
}

#[test]
fn detail_diff_key_renders_diff_output_when_checkout_exists() {
    let mut catalog = Catalog::with(&["/catalog/scripts/a.py"]);
    catalog.checkouts.push(("/catalog/scripts/a.py".to_string(), "/dev/a.py".to_string()));
    let mut app = make_app();
    app.mode = ViewMode::Detail;
    app.detail = Some(detail_row("/catalog/scripts/a.py"));

    app.handle_detail_key(typed('d'));

    assert_eq!(app.mode, ViewMode::DetailDiff);
    catalog.serve(&mut app);
    assert!(
        app.detail_diff_output
            .contains("--- catalog:/catalog/scripts/a.py")
    );
    assert!(app.detail_diff_output.contains("+++"));
}

#[test]
fn diff_view_escape_returns_to_detail_view() {
    let mut app = make_app();
    app.mode = ViewMode::DetailDiff;

    app.handle_detail_diff_key(key(KeyCode::Esc));

    assert_eq!(app.mode, ViewMode::Detail);
}

#[test]
fn revisions_pane_scrolls_independently() {
    let mut app = make_app();
    app.focus = Focus::Revisions;

    app.handle_key(typed('j'), 0);
    assert_eq!(app.revisions_scroll, 1);

    app.handle_key(typed('j'), 0);
    assert_eq!(app.revisions_scroll, 2);

    app.handle_key(typed('g'), 0);
    assert_eq!(app.revisions_scroll, 0);
}

#[test]
fn revisions_pane_tab_navigation() {
    let mut app = make_app();

    app.focus = Focus::Deps;
    app.handle_key(key(KeyCode::Tab), 0);
    assert_eq!(app.focus, Focus::Functions);

    app.handle_key(key(KeyCode::Tab), 0);
    assert_eq!(app.focus, Focus::Revisions);

    app.handle_key(key(KeyCode::Tab), 0);
    assert_eq!(app.focus, Focus::Search);

    app.handle_key(key(KeyCode::BackTab), 0);
    assert_eq!(app.focus, Focus::Revisions);

    app.handle_key(key(KeyCode::BackTab), 0);
    assert_eq!(app.focus, Focus::Functions);

    app.handle_key(key(KeyCode::BackTab), 0);
    assert_eq!(app.focus, Focus::Deps);
}

#[test]
fn deps_enter_navigates_and_backspace_returns() {
    let mut catalog = Catalog::with(&["/catalog/scripts/a.py", "/catalog/scripts/b.py"]);
    catalog.uses.push(("/catalog/scripts/a.py".to_string(), "/catalog/scripts/b.py".to_string()));
    let mut app = showing(&catalog, "/catalog/scripts/a.py");
    assert!(!app.detail_loading);

    app.focus = Focus::Deps;
    app.handle_key(key(KeyCode::Enter), 0);
    catalog.serve(&mut app);
    assert_eq!(
        app.selected_logical_path().as_deref(),
        Some("/catalog/scripts/b.py")
    );

    app.handle_key(key(KeyCode::Backspace), 0);
    catalog.serve(&mut app);
    assert_eq!(app.focus, Focus::Deps);
    assert_eq!(
        app.selected_logical_path().as_deref(),
        Some("/catalog/scripts/a.py")
    );
}

#[test]
fn folder_tab_toggles_browse_focus() {
    let catalog = Catalog::with(&["/catalog/scripts/a.py"]);
    let mut app = showing(&catalog, "/catalog/scripts/a.py");

    app.mode = ViewMode::Detail;
    assert!(!app.folder_focused);

    app.handle_key(key(KeyCode::Tab), 0);
    assert!(app.folder_focused);

    app.handle_key(key(KeyCode::Esc), 0);
    assert!(!app.folder_focused);
    // Esc while folder-focused only exits browse mode, not the detail view.
    assert_eq!(app.mode, ViewMode::Detail);
}

#[test]
fn folder_enter_jumps_to_selected_sibling_and_backspace_returns() {
    let catalog = Catalog::with(&["/catalog/scripts/a.py", "/catalog/scripts/b.py"]);
    let mut app = showing(&catalog, "/catalog/scripts/a.py");
    assert_eq!(app.siblings.len(), 1);

    app.mode = ViewMode::Detail;
    app.handle_key(key(KeyCode::Tab), 0);
    assert!(app.folder_focused);

    app.handle_key(key(KeyCode::Enter), 0);
    catalog.serve(&mut app);
    assert_eq!(
        app.selected_logical_path().as_deref(),
        Some("/catalog/scripts/b.py")
    );
    assert!(!app.folder_focused);
    assert_eq!(
        app.folder_backstack.last().map(String::as_str),
        Some("/catalog/scripts/a.py")
    );

    app.mode = ViewMode::Detail;
    app.handle_key(key(KeyCode::Tab), 0);
    app.handle_key(key(KeyCode::Backspace), 0);
    catalog.serve(&mut app);
    assert_eq!(
        app.selected_logical_path().as_deref(),
        Some("/catalog/scripts/a.py")
    );
    assert!(app.folder_backstack.is_empty());
}

#[test]
fn folder_up_browses_parent_directory() {
    let catalog =
        Catalog::with(&["/catalog/scripts/jobs/deep.py", "/catalog/scripts/other.py"]);
    let mut app = showing(&catalog, "/catalog/scripts/jobs/deep.py");
    assert!(app.siblings.is_empty());
    assert_eq!(app.folder_display_dir(), "/catalog/scripts/jobs");

    app.mode = ViewMode::Detail;
    app.handle_key(key(KeyCode::Tab), 0);
    app.handle_key(typed('['), 0);
    catalog.serve(&mut app);

    assert_eq!(app.folder_dir.as_deref(), Some("/catalog/scripts"));
    let paths: Vec<String> =
        app.siblings.iter().map(|row| text_at(row, "logical_path").to_string()).collect();
    assert_eq!(paths, vec!["/catalog/scripts/other.py".to_string()]);

    // "/catalog/scripts" -> "/catalog".
    app.handle_key(typed('['), 0);
    catalog.serve(&mut app);
    assert_eq!(app.folder_dir.as_deref(), Some("/catalog"));

    // "/catalog" -> "/" (root).
    app.handle_key(typed('['), 0);
    catalog.serve(&mut app);
    assert_eq!(app.folder_dir.as_deref(), Some("/"));

    // "[" at the root has nowhere to go, so it must not dispatch another request.
    let next_id_before = app.next_folder_id;
    app.handle_key(typed('['), 0);
    assert_eq!(app.next_folder_id, next_id_before);
    assert_eq!(app.folder_dir.as_deref(), Some("/"));
}

#[test]
fn functions_enter_jumps_preview_and_enables_xref() {
    let mut catalog = Catalog::with(&["/catalog/scripts/a.py", "/catalog/scripts/b.py"]);
    catalog.functions.push(row(&[
        ("name", text("run")),
        ("kind", text("function")),
        ("line", Value::Int(3)),
        ("docstring", text("Runs something.\nMore details.")),
    ]));
    catalog.callers.push(row(&[
        ("caller_path", text("/catalog/scripts/b.py")),
        ("caller", text("b")),
        ("callee", text("run")),
        ("line", Value::Int(2)),
        ("resolved_target_name", text("run")),
    ]));
    let mut app = showing(&catalog, "/catalog/scripts/a.py");

    app.focus = Focus::Functions;
    app.handle_key(key(KeyCode::Enter), 0);

    assert_eq!(app.preview_scroll, 2);
    assert_eq!(app.function_xref.as_deref(), Some("run"));
    assert_eq!(app.focus, Focus::Preview);
}

#[test]
fn v_key_queues_full_catalog_content_for_viewer() {
    let full_content = (0..=PREVIEW_LINES)
        .map(|line| format!("line {line}"))
        .collect::<Vec<_>>()
        .join("\n");
    let catalog = Catalog {
        scripts: vec![("/catalog/scripts/a.py".to_string(), full_content.clone())],
        ..Catalog::default()
    };
    let mut app = showing(&catalog, "/catalog/scripts/a.py");

    app.focus = Focus::Preview;
    app.handle_key(typed('v'), 0);

    let target = app.pending_view.take().expect("viewer request queued");
    let ViewTarget::Catalog { logical_path, content } = target else {
        panic!("expected catalog view target");
    };
    assert_eq!(logical_path, "/catalog/scripts/a.py");
    assert_eq!(content, full_content);
    assert!(content.contains(&format!("line {}", PREVIEW_LINES)));
    assert!(!app.cached_preview.contains(&format!("line {}", PREVIEW_LINES)));
}

#[test]
fn v_key_in_search_updates_query_instead_of_opening_viewer() {
    let mut app = make_app();
    app.focus = Focus::Search;

    app.handle_key(typed('v'), 0);

    assert_eq!(app.query, "v");
    assert!(app.pending_view.is_none());
}

#[test]
fn f_key_toggles_fullscreen_when_not_in_search() {
    let mut app = make_app();
    app.focus = Focus::Results;

    assert!(!app.fullscreen);
    app.handle_key(typed('f'), 0);
    assert!(app.fullscreen, "f should enable fullscreen");

    app.handle_key(typed('f'), 0);
    assert!(!app.fullscreen, "f again should disable fullscreen");
}

#[test]
fn f_key_does_not_toggle_fullscreen_in_search() {
    let mut app = make_app();
    app.focus = Focus::Search;

    app.handle_key(typed('f'), 0);
    // f in search pane types into the query, not toggling fullscreen
    assert!(!app.fullscreen);
    assert_eq!(app.query, "f");
}

#[test]
fn esc_exits_fullscreen_before_quitting() {
    let mut app = make_app();
    app.focus = Focus::Results;
    app.fullscreen = true;

    let should_quit = app.handle_key(key(KeyCode::Esc), 0);
    assert!(!should_quit, "Esc should exit fullscreen, not quit");
    assert!(!app.fullscreen);

    let should_quit = app.handle_key(key(KeyCode::Esc), 0);
    assert!(should_quit, "second Esc should quit");
}

#[test]
fn parses_string_arrays_for_detail_view() {
    let row = row(&[("tags", text(r#"["one","two"]"#))]);
    assert_eq!(string_list(&row, "tags"), vec!["one", "two"]);
}

#[test]
fn parses_warning_messages_for_detail_view() {
    let row = row(&[("vc_warnings", text(r#"[{"message":"stale checkout"}]"#))]);
    assert_eq!(warning_summary(&row), "stale checkout");
}

#[test]
fn detail_request_returns_payload() {
    let payload = Catalog::with(&["/catalog/scripts/a.py"]).detail("/catalog/scripts/a.py");
    assert!(payload.detail.is_some());
    assert_eq!(payload.error, None);
}

#[test]
fn detail_request_precomputes_contributors() {
    let script = row(&[
        ("logical_path", text("/catalog/scripts/a.py")),
        (
            "metadata_json",
            text(r#"{"history_entries":[{"author":"bob"},{"author":"alice"}]}"#),
        ),
    ]);
    let payload = load_detail(
        Some(script),
        DetailAnswers {
            graph: Ok(DependencyGraph { uses: vec![], used_by: vec![] }),
            revisions: Ok(vec![]),
            functions: Ok(vec![]),
            callers: Ok(vec![]),
            siblings: vec![],
            sibling_dirs: vec![],
            native_path: None,
        },
    );
    assert_eq!(payload.contributors, vec!["alice", "bob"]);
}

#[test]
fn missing_script_returns_empty_detail() {
    let payload = Catalog::default().detail("/catalog/scripts/missing.py");
    assert!(payload.detail.is_none());
    assert!(payload.error.is_none());
}

#[test]
fn diff_worker_returns_error_text_for_missing_script() {
    let output = diff_unavailable("/catalog/scripts/missing.py", "script not found");
    assert!(
        output.contains("Diff unavailable"),
        "expected error text, got: {}",
        output
    );
    assert_eq!(
        output,
        "Diff unavailable for '/catalog/scripts/missing.py'.\n\nscript not found"
    );
}

#[test]
fn failed_answers_are_reported() {
    let answers = || DetailAnswers {
        graph: Ok(DependencyGraph { uses: vec![], used_by: vec![] }),
        revisions: Ok(vec![]),
        functions: Ok(vec![]),
        callers: Ok(vec![]),
        siblings: vec![],
        sibling_dirs: vec![],
        native_path: None,
    };
    let mut broken = answers();
    broken.graph = Err("no graph".to_string());
    let payload = load_detail(Some(detail_row("/a.py")), broken);
    assert!(payload.error.unwrap().contains("no graph"));
    assert!(payload.deps.is_empty());
}

#[test]
fn dependencies_are_listed_once() {
    let mut catalog = Catalog::with(&["/a.py"]);
    for _ in 0..2 {
        catalog.uses.push(("/a.py".to_string(), "/b.py".to_string()));
    }
    let payload = catalog.detail("/a.py");
    assert_eq!(payload.deps.len(), 1);
    assert_eq!(payload.deps[0].logical_path, "/b.py");
}

#[test]
fn a_query_is_sent_once_it_rests() {
    let mut app = make_app();
    app.focus = Focus::Search;
    app.handle_key(typed('a'), 1_000);
    app.handle_key(typed('b'), 1_010);
    app.send_rested_query(1_010 + DEBOUNCE_MS - 1);
    assert!(app.outbox.is_empty());
    app.send_rested_query(1_010 + DEBOUNCE_MS);
    assert_eq!(app.outbox.len(), 1);
    let Request::Search(r) = &app.outbox[0] else {
        panic!("expected a search request");
    };
    assert_eq!(r.query, "ab");
    app.handle_key(key(KeyCode::Backspace), 2_000);
    assert_eq!(app.query, "a");
}

#[test]
fn a_superseded_answer_is_ignored() {
    let mut app = make_app();
    app.query = "x".to_string();
    app.dispatch_query();
    let first = app.inflight_query_id.unwrap();
    app.dispatch_query();
    assert_ne!(app.inflight_query_id, Some(first));
    app.apply_results(SearchResponse { id: first, result: Ok(vec![detail_row("/a.py")]) });
    assert!(app.results.is_empty());
    let second = app.inflight_query_id.unwrap();
    app.apply_results(SearchResponse { id: second, result: Err("bad query".to_string()) });
    assert_eq!(app.error.as_deref(), Some("bad query"));
    assert!(!app.search_in_flight);
}

#[test]
fn a_lost_worker_leaves_nothing_in_flight() {
    let mut app = make_app();
    app.results = vec![detail_row("/a.py")];
    app.load_selected();
    assert!(app.detail_loading);
    app.lose_worker(Worker::Detail);
    assert!(!app.detail_loading);
    assert_eq!(app.inflight_detail_id, None);
}

#[test]
fn keys_scroll_by_lines_and_pages() {
    assert_eq!(scroll_command(typed('k')), Some(ScrollCommand::Delta(-1)));
    assert_eq!(scroll_command(key(KeyCode::PageDown)), Some(ScrollCommand::Delta(40)));
    assert_eq!(scroll_command(typed('x')), None);
    assert_eq!(
        scroll_command(Key { code: KeyCode::Char('d'), modifiers: Modifiers::Control }),
        Some(ScrollCommand::Delta(20))
    );
    assert_eq!(apply_scroll_key(10, typed('j')), 11);
    assert_eq!(apply_scroll_key(10, typed('g')), 0);
    assert_eq!(apply_scroll_key(10, typed('x')), 10);
    assert_eq!(scroll_by(u16::MAX, 1), u16::MAX);
}

fn area(x: u16, y: u16, width: u16, height: u16) -> Area {
    Area { x, y, width, height }
}

#[test]
fn clicks_hit_the_pane_under_the_mouse() {
    assert_eq!(inner_rect(area(0, 0, 20, 10)), area(1, 1, 18, 8));
    let regions = vec![
        ClickRegion { area: area(1, 1, 18, 8), kind: RegionKind::Results, scroll: 3 },
        ClickRegion { area: area(21, 1, 18, 8), kind: RegionKind::Preview, scroll: 0 },
    ];
    assert_eq!(hit_test(&regions, 5, 3), Some((RegionKind::Results, 5)));
    assert_eq!(hit_test(&regions, 25, 1), Some((RegionKind::Preview, 0)));
    assert_eq!(hit_test(&regions, 20, 1), None);
}

#[test]
fn a_click_selects_a_result() {
    let catalog = Catalog::with(&["/a.py", "/b.py"]);
    let mut app = make_app();
    app.results = vec![detail_row("/a.py"), detail_row("/b.py")];
    app.record_region(area(0, 0, 20, 10), RegionKind::Results, 0);
    assert!(app.handle_mouse(MouseAction::LeftClick, 5, 2, 0));
    assert_eq!(app.selected, 1);
    assert_eq!(app.focus, Focus::Results);
    catalog.serve(&mut app);
    assert_eq!(app.selected_logical_path().as_deref(), Some("/b.py"));
    assert!(!app.handle_mouse(MouseAction::Other, 5, 2, 0));
}

#[test]
fn a_double_click_opens_the_detail_view() {
    let mut app = make_app();
    app.results = vec![detail_row("/a.py")];
    app.record_region(area(0, 0, 20, 10), RegionKind::Results, 0);
    app.handle_mouse(MouseAction::LeftClick, 5, 1, 1_000);
    assert_eq!(app.mode, ViewMode::Browse);
    app.handle_mouse(MouseAction::LeftClick, 5, 1, 1_200);
    assert_eq!(app.mode, ViewMode::Detail);
}

#[test]
fn events_repaint_the_screen() {
    let mut app = make_app();
    app.needs_redraw = false;
    app.force_full_redraw = false;
    app.flash = Some("copied".to_string());
    assert!(!app.handle_event(TerminalEvent::Resize, 0));
    let (_, paint) = app.take_paint();
    assert!(paint);
    app.focus = Focus::Results;
    assert!(app.handle_event(TerminalEvent::KeyPress(typed('q')), 0));
}

#[test]
fn a_copied_path_is_confirmed() {
    let mut app = make_app();
    app.detail = Some(detail_row("/catalog/scripts/a.py"));
    app.results = vec![detail_row("/catalog/scripts/a.py")];
    app.copy_selected_path();
    let Some(Request::Copy(path)) = app.outbox.pop() else {
        panic!("expected a copy request");
    };
    assert_eq!(path, "/catalog/scripts/a.py");
    app.apply_copy_result(&path, None);
    assert!(app.flash.as_deref().unwrap().contains("/catalog/scripts/a.py"));
    app.apply_copy_result(&path, Some("no terminal".to_string()));
    assert!(app.error.as_deref().unwrap().contains("no terminal"));
}

#[test]
fn a_click_on_the_path_copies_it() {
    let catalog = Catalog::with(&["/catalog/scripts/a.py"]);
    let app = showing(&catalog, "/catalog/scripts/a.py");
    let lines = app.detail_lines();
    let at = lines
        .iter()
        .position(|l| l.iter().any(|s| s.text.contains("/catalog/scripts/a.py")))
        .unwrap();
    assert_eq!(app.detail_click_at(at), DetailClick::CopyPath);
    assert_eq!(app.detail_click_at(lines.len() + 5), DetailClick::Nothing);
}

#[test]
fn paths_go_up_and_end_in_a_name() {
    assert_eq!(logical_parent_dir("/a/b.py"), "/a");
    assert_eq!(logical_parent_dir("/b.py"), "/");
    assert_eq!(logical_base_name("/a/b.py"), "b.py");
}

#[test]
fn revisions_are_ordered_by_system_and_newest_first() {
    let sorted = sort_checkouts(vec![
        checkout_row("B", "u1", "1"),
        checkout_row("A", "u2", "1"),
        checkout_row("A", "u3", "2"),
    ]);
    let users: Vec<&str> = sorted.iter().map(|r| text_at(r, "user")).collect();
    assert_eq!(users, vec!["u3", "u2", "u1"]);
}

#[test]
fn a_turn_sends_a_rested_query_and_takes_the_view() {
    let mut app = TuiApp::new();
    app.outbox.clear();
    app.query = "backup".to_string();
    app.schedule_query(1_000);
    app.pending_view = Some(ViewTarget::LiveSource {
        logical_path: "/catalog/a.py".to_string(),
        native_path: "/srv/a.py".to_string(),
    });
    let target = app.begin_turn(1_000 + DEBOUNCE_MS - 1);
    assert!(matches!(
        target,
        Some(ViewTarget::LiveSource { native_path, .. }) if native_path == "/srv/a.py"
    ));
    assert!(app.outbox.is_empty());
    assert!(app.begin_turn(1_000 + DEBOUNCE_MS).is_none());
    assert!(matches!(&app.outbox[0], Request::Search(q) if q.query == "backup"));
    assert_eq!(app.outbox.len(), 1);
}

#[test]
fn a_turn_reports_a_viewer_that_failed_and_paints_once() {
    let mut app = TuiApp::new();
    app.search_in_flight = false;
    app.needs_redraw = true;
    let paint = app.end_turn(Some("no viewer found".to_string()));
    assert_eq!(paint, (false, true));
    assert_eq!(app.error.as_deref(), Some("Failed to open viewer: no viewer found"));
    assert_eq!(app.end_turn(None), (false, false));
    app.force_full_redraw = true;
    assert_eq!(app.end_turn(None), (true, true));
    assert!(!app.force_full_redraw);
}

#[test]
fn a_script_is_compared_with_its_most_recent_checkout() {
    let revision = |kind: &str, timestamp: &str, path: &str| {
        row(&[
            ("revision_type", text(kind)),
            ("timestamp", text(timestamp)),
            ("physical_path", text(path)),
        ])
    };
    let revisions = vec![
        revision("ARCHIVE", "20260801_0900", "/a"),
        revision("DEVELOP", "20260701_0900", "/d1"),
        revision("DEVELOP", "20260720_0900", "/d2"),
        revision("DEVELOP", "20260720_0900", "/d3"),
    ];
    assert_eq!(revision_to_compare(&None, &revisions).as_deref(), Some("/d2"));
    let asked = Some("/w".to_string());
    assert_eq!(revision_to_compare(&asked, &revisions).as_deref(), Some("/w"));
    let archived = vec![revision("ARCHIVE", "20260801_0900", "/a")];
    assert_eq!(revision_to_compare(&None, &archived), None);
}

#[test]
fn the_selected_revision_can_be_compared() {
    let mut app = TuiApp::new();
    app.outbox.clear();
    app.detail = Some(row(&[("logical_path", text("/catalog/a.py"))]));
    app.results = vec![row(&[("logical_path", text("/catalog/a.py"))])];
    app.marked = Some(0);
    app.checkouts = vec![
        row(&[("physical_path", text("/net/a.py_1"))]),
        row(&[("physical_path", text("/net/a.py_2"))]),
    ];
    app.revisions_selected = 1;
    app.dispatch_diff_against_selected_revision();
    assert!(matches!(
        &app.outbox[0],
        Request::Diff(q) if q.revision_physical_path.as_deref() == Some("/net/a.py_2")
    ));
    assert!(app.detail_diff_loading);
}
