//! What holds of the browser as a whole.

use vstd::prelude::*;

use crate::json;
use crate::tui;
use crate::tui::app;
use crate::tui::app::App;
use crate::tui::detail;
use crate::tui::detail_worker;
use crate::tui::handlers;
use crate::tui::mouse;
use crate::tui::render;
use crate::tui::styled;
use crate::tui::{Focus, Key, KeyCode, Modifiers, ViewMode};

verus! {

/// Whether `i` is one of `n` items, or the first where there are none.
pub open spec fn is_selectable(i: int, n: int) -> bool {
    0 <= i < n || (n == 0 && i == 0)
}

/// Whether the selections in the results, in the Deps pane and in the Functions
/// pane lie within what these show.
pub open spec fn in_bounds(a: App) -> bool {
    &&& is_selectable(a.selected as int, a.results.len() as int)
    &&& is_selectable(a.deps_selected as int, app::target_count(a) as int)
    &&& is_selectable(a.functions_selected as int, a.functions.len() as int)
}

/// An answer to another request than the last one of its kind changes nothing.
pub proof fn law_stale_answers_change_nothing(
    a: App,
    id: u64,
    rows: Result<Seq<json::Columns>, Seq<char>>,
    shown: detail_worker::DetailPayload,
    output: Seq<char>,
    dir: Seq<char>,
    listing: Result<(Seq<Seq<char>>, Seq<json::Columns>), Seq<char>>,
    mapped: bool,
    found: bool,
    stats: Result<json::Columns, Seq<char>>,
)
    ensures
        a.inflight_query_id != Some(id) ==> app::answered(a, id, rows) == a,
        a.inflight_detail_id != Some(id) ==> app::showing(a, id, shown) == a,
        a.inflight_diff_id != Some(id) ==> app::diffed(a, id, output) == a,
        a.inflight_folder_id != Some(id) ==> app::listed(a, id, dir, listing) == a,
        a.inflight_filecheck_id != Some(id) ==> app::checked_file(
            a,
            id,
            dir,
            output,
            mapped,
            found,
        ) == a,
        a.inflight_stats_id != Some(id) ==> app::with_stats(a, id, stats) == a,
{
    reveal(app::answered);
    reveal(app::showing);
    reveal(app::diffed);
    reveal(app::listed);
    reveal(app::checked_file);
    reveal(app::with_stats);
}

/// Once another script was asked for, the answer on the one before comes too
/// late.
pub proof fn law_superseded_answer_is_ignored(
    a: App,
    before: u64,
    shown: detail_worker::DetailPayload,
)
    requires
        a.inflight_detail_id == Some(before),
        before < a.next_detail_id,
    ensures
        app::showing(app::loading(a), before, shown) == app::loading(a),
{
    reveal(app::loading);
    reveal(app::without_script);
    reveal(app::showing);
}

// ---------------------------------------------------------------------------
// Selections
// ---------------------------------------------------------------------------

/// Asking for the selected result keeps its selection and sets the others to
/// the first item.
proof fn lemma_loading(a: App)
    ensures
        app::loading(a).selected == a.selected,
        app::loading(a).results == a.results,
        app::loading(a).deps_selected == 0,
        app::loading(a).functions_selected == 0,
        app::loading(a).dep_backstack == a.dep_backstack,
        app::loading(a).folder_backstack == a.folder_backstack,
{
    reveal(app::loading);
    reveal(app::without_script);
}

/// Where the first result with a path is.
proof fn lemma_result_index(results: Seq<json::Columns>, path: Seq<char>)
    ensures
        0 <= app::result_index(results, path) <= results.len(),
        app::result_index(results, path) < results.len() ==> app::path_at(
            results,
            app::result_index(results, path),
        ) == Some(path),
    decreases results.len(),
{
    if results.len() > 0 && app::path_at(results, 0) != Some(path) {
        let rest = results.drop_first();
        lemma_result_index(rest, path);
        let i = app::result_index(rest, path);
        if i < rest.len() {
            assert(rest[i] == results[i + 1]);
        }
    }
}

/// Going to a script selects a result with its path.
proof fn lemma_going_to(a: App, path: Seq<char>)
    requires
        a.results.len() < usize::MAX,
    ensures
        ({
            let b = app::going_to(a, path);
            &&& b.selected < b.results.len()
            &&& app::path_at(b.results, b.selected as int) == Some(path)
            &&& b.deps_selected == 0
            &&& b.functions_selected == 0
            &&& b.dep_backstack == a.dep_backstack
            &&& b.folder_backstack == a.folder_backstack
        }),
{
    reveal(app::going_to);
    lemma_result_index(a.results, path);
    let i = app::result_index(a.results, path);
    if i < a.results.len() {
        lemma_loading(App { selected: i as usize, ..a });
    } else {
        let n = a.results.len() as usize;
        let results = a.results.push(app::path_row(path));
        lemma_loading(App { selected: n, results, ..a });
        assert(results[n as int] == app::path_row(path));
    }
}

/// Going to a script keeps the selections within what is shown.
proof fn lemma_going_to_in_bounds(a: App, path: Seq<char>)
    requires
        a.results.len() < usize::MAX,
    ensures
        in_bounds(app::going_to(a, path)),
{
    lemma_going_to(a, path);
}

/// Selecting a result keeps the selections within what is shown.
proof fn lemma_selecting_in_bounds(a: App, i: usize)
    requires
        is_selectable(i as int, a.results.len() as int),
    ensures
        in_bounds(app::selecting(a, i)),
{
    lemma_loading(App { selected: i, ..a });
}

/// Opening what is selected keeps the selections within what is shown.
proof fn lemma_opening_in_bounds(a: App)
    requires
        a.results.len() < usize::MAX,
        in_bounds(a),
    ensures
        in_bounds(app::opening_dependency(a)),
        in_bounds(app::going_back(a)),
        in_bounds(app::at_function(a)),
        in_bounds(app::folder_back(a)),
        in_bounds(app::opening_entry(a)),
        in_bounds(app::going_up(a)),
{
    reveal(app::xref_sites);
    reveal(app::opening_dependency);
    reveal(app::going_back);
    reveal(app::at_function);
    reveal(app::folder_back);
    reveal(app::opening_entry);
    reveal(app::going_up);
    reveal(app::asking_folder);
    reveal(app::leaving_folder);
    match (app::dependency_target(a), app::current_path(a)) {
        (Some(target), Some(path)) => {
            lemma_going_to_in_bounds(
                App { dep_backstack: a.dep_backstack.push(path), ..a },
                target,
            );
        },
        _ => {},
    }
    if a.dep_backstack.len() > 0 {
        lemma_going_to_in_bounds(
            App { dep_backstack: a.dep_backstack.drop_last(), ..a },
            a.dep_backstack.last(),
        );
    }
    if a.folder_backstack.len() > 0 {
        lemma_going_to_in_bounds(
            App { folder_backstack: a.folder_backstack.drop_last(), ..a },
            a.folder_backstack.last(),
        );
    }
    match app::sibling_target(a) {
        Some(target) => lemma_going_to_in_bounds(app::leaving_folder(a), target),
        None => {},
    }
}

/// Asking for views, differences or copies leaves the selections alone.
proof fn lemma_asking_in_bounds(a: App)
    requires
        in_bounds(a),
    ensures
        in_bounds(app::viewing_catalog(a)),
        in_bounds(app::checking_file(a)),
        in_bounds(app::diffing(a, None)),
        in_bounds(app::copying(a)),
{
    reveal(app::xref_sites);
    reveal(app::viewing_catalog);
    reveal(app::checking_file);
    reveal(app::diffing);
    reveal(app::copying);
}

/// Whether the counts of what is shown fit.
spec fn counts_fit(a: App) -> bool {
    &&& a.results.len() < usize::MAX
    &&& a.functions.len() <= usize::MAX
    &&& app::target_count(a) <= usize::MAX
}

/// States that differ in nothing that the selections rest on.
spec fn same_lists(a: App, b: App) -> bool {
    &&& a.results == b.results
    &&& a.selected == b.selected
    &&& a.deps == b.deps
    &&& a.deps_selected == b.deps_selected
    &&& a.functions == b.functions
    &&& a.functions_selected == b.functions_selected
    &&& a.call_sites == b.call_sites
    &&& a.function_xref == b.function_xref
}

/// What the selections rest on decides whether they are within it.
proof fn lemma_same_lists(a: App, b: App)
    requires
        same_lists(a, b),
    ensures
        in_bounds(a) == in_bounds(b),
        counts_fit(a) == counts_fit(b),
{
    reveal(app::xref_sites);
}

/// Moving the selection in the results.
proof fn lemma_result_moved(a: App, delta: int)
    requires
        in_bounds(a),
        counts_fit(a),
    ensures
        in_bounds(handlers::result_moved(a, delta)),
{
    let n = a.results.len() as int;
    lemma_selecting_in_bounds(a, tui::moved(a.selected as int, n, delta) as usize);
}

/// Keys in the results.
proof fn lemma_results_key(a: App, k: Key)
    requires
        in_bounds(a),
        counts_fit(a),
    ensures
        in_bounds(handlers::results_key(a, k)),
{
    lemma_result_moved(a, -1);
    lemma_result_moved(a, 1);
    lemma_selecting_in_bounds(a, 0);
    if a.results.len() > 0 {
        lemma_selecting_in_bounds(a, (a.results.len() - 1) as usize);
    }
    lemma_same_lists(a, App { mode: ViewMode::Detail, ..a });
}

/// Moving the selection in the Deps pane.
proof fn lemma_deps_moved(a: App, delta: int)
    requires
        in_bounds(a),
        counts_fit(a),
    ensures
        in_bounds(
            App {
                deps_selected: tui::moved(
                    a.deps_selected as int,
                    app::target_count(a) as int,
                    delta,
                ) as usize,
                ..a
            },
        ),
{
    reveal(app::xref_sites);
}

/// Moving the selection in the Functions pane.
proof fn lemma_functions_moved(a: App, delta: int)
    requires
        in_bounds(a),
        counts_fit(a),
    ensures
        in_bounds(
            App {
                functions_selected: tui::moved(
                    a.functions_selected as int,
                    a.functions.len() as int,
                    delta,
                ) as usize,
                ..a
            },
        ),
{
    reveal(app::xref_sites);
}

/// Keys in a pane other than the search box.
proof fn lemma_pane_key(a: App, k: Key)
    requires
        in_bounds(a),
        counts_fit(a),
    ensures
        in_bounds(handlers::pane_key(a, k)),
{
    lemma_opening_in_bounds(a);
    lemma_asking_in_bounds(a);
    lemma_results_key(a, k);
    lemma_deps_moved(a, -1);
    lemma_deps_moved(a, 1);
    lemma_functions_moved(a, -1);
    lemma_functions_moved(a, 1);
    lemma_same_lists(a, App { focus: Focus::Search, ..a });
    lemma_same_lists(a, App { fullscreen: !a.fullscreen, ..a });
    lemma_same_lists(
        a,
        App { preview_scroll: tui::scrolled_by_key(a.preview_scroll, k), ..a },
    );
    lemma_same_lists(
        a,
        App { revisions_scroll: tui::scrolled_by_key(a.revisions_scroll, k), ..a },
    );
}

/// Keys in the search box.
proof fn lemma_search_key(a: App, k: Key, now: u64)
    requires
        in_bounds(a),
    ensures
        in_bounds(handlers::search_key(a, k, now)),
{
    reveal(app::scheduling);
    lemma_same_lists(a, handlers::search_key(a, k, now));
}

/// Keys with all panes on the screen.
proof fn lemma_browse_key(a: App, k: Key, now: u64)
    requires
        in_bounds(a),
        counts_fit(a),
    ensures
        in_bounds(handlers::browse_key(a, k, now)),
{
    lemma_pane_key(a, k);
    lemma_search_key(a, k, now);
    lemma_same_lists(a, App { fullscreen: false, ..a });
    lemma_same_lists(a, App { focus: Focus::Results, ..a });
    lemma_same_lists(a, App { focus: tui::focus_after(a.focus), ..a });
    lemma_same_lists(a, App { focus: tui::focus_before(a.focus), ..a });
}

/// Keys in the Folder section.
proof fn lemma_folder_key(a: App, k: Key)
    requires
        in_bounds(a),
        counts_fit(a),
    ensures
        in_bounds(handlers::folder_key(a, k)),
{
    lemma_opening_in_bounds(a);
    let n = app::entry_count(a) as int;
    let i = a.siblings_selected as int;
    lemma_same_lists(a, App { folder_focused: false, ..a });
    lemma_same_lists(a, App { siblings_selected: tui::moved(i, n, -1) as usize, ..a });
    lemma_same_lists(a, App { siblings_selected: tui::moved(i, n, 1) as usize, ..a });
}

/// Keys in the detail view.
proof fn lemma_detail_key(a: App, k: Key)
    requires
        in_bounds(a),
        counts_fit(a),
    ensures
        in_bounds(handlers::detail_key(a, k)),
{
    lemma_folder_key(a, k);
    lemma_asking_in_bounds(a);
    let d = app::diffing(a, None);
    lemma_same_lists(d, App { mode: ViewMode::DetailDiff, ..d });
    lemma_same_lists(a, App { mode: ViewMode::Browse, focus: Focus::Results, ..a });
    lemma_same_lists(a, App { folder_focused: true, siblings_selected: 0, ..a });
    lemma_same_lists(a, App { detail_scroll: tui::scrolled_by_key(a.detail_scroll, k), ..a });
}

/// A key keeps the selections within what is shown.
pub proof fn law_keys_keep_selections_in_bounds(a: App, k: Key, now: u64)
    requires
        in_bounds(a),
        a.results.len() < usize::MAX,
        a.functions.len() <= usize::MAX,
        app::target_count(a) <= usize::MAX,
    ensures
        in_bounds(handlers::after_key(a, k, now)),
{
    lemma_browse_key(a, k, now);
    lemma_detail_key(a, k);
    lemma_same_lists(a, handlers::diff_key(a, k));
}

/// A click on a result.
proof fn lemma_result_clicked(b: App, i: usize, double: bool)
    requires
        in_bounds(b),
        i < b.results.len(),
    ensures
        in_bounds(mouse::result_clicked(b, i, double)),
{
    let c = App { focus: Focus::Results, ..b };
    lemma_same_lists(b, c);
    lemma_selecting_in_bounds(c, i);
    let s = app::selecting(c, i);
    lemma_same_lists(s, App { mode: ViewMode::Detail, ..s });
    lemma_same_lists(c, App { mode: ViewMode::Detail, ..c });
}

/// A click on an entry of the Deps pane.
proof fn lemma_dependency_clicked(b: App, i: usize, double: bool)
    requires
        in_bounds(b),
        counts_fit(b),
    ensures
        in_bounds(mouse::dependency_clicked(b, i, double)),
{
    let d = App { focus: Focus::Deps, ..b };
    lemma_same_lists(b, d);
    if i < app::target_count(d) {
        let c = App { deps_selected: i, ..d };
        lemma_chosen(d, c);
        lemma_opening_in_bounds(c);
    }
}

/// A click on an entry of the Functions pane.
proof fn lemma_function_clicked(b: App, i: usize, double: bool)
    requires
        in_bounds(b),
        counts_fit(b),
    ensures
        in_bounds(mouse::function_clicked(b, i, double)),
{
    let f = App { focus: Focus::Functions, ..b };
    lemma_same_lists(b, f);
    if i < b.functions.len() {
        let c = App { functions_selected: i, ..f };
        lemma_chosen(f, c);
        lemma_opening_in_bounds(c);
    }
}

/// A click on a line of the detail view.
proof fn lemma_detail_clicked(b: App, i: usize)
    requires
        in_bounds(b),
        counts_fit(b),
    ensures
        in_bounds(mouse::detail_clicked(b, i).0),
{
    lemma_asking_in_bounds(b);
    let g = App { folder_focused: true, ..b };
    lemma_same_lists(b, g);
    lemma_opening_in_bounds(g);
    match detail::click_at(b, i as int) {
        detail::DetailClick::FolderEntry(k) => {
            lemma_same_lists(g, App { siblings_selected: k, ..g });
        },
        _ => {},
    }
}

/// A click on a pane.
proof fn lemma_pane_clicked(b: App, kind: mouse::RegionKind, i: usize, double: bool)
    requires
        in_bounds(b),
        counts_fit(b),
    ensures
        in_bounds(mouse::pane_clicked(b, kind, i, double).0),
{
    match kind {
        mouse::RegionKind::Results => if i < b.results.len() {
            lemma_result_clicked(b, i, double);
        },
        mouse::RegionKind::Deps => lemma_dependency_clicked(b, i, double),
        mouse::RegionKind::Functions => lemma_function_clicked(b, i, double),
        mouse::RegionKind::DetailBody => lemma_detail_clicked(b, i),
        mouse::RegionKind::Header | mouse::RegionKind::Metadata => lemma_asking_in_bounds(b),
        _ => lemma_same_lists(b, mouse::pane_clicked(b, kind, i, double).0),
    }
}

/// Another item of the same lists.
proof fn lemma_chosen(a: App, b: App)
    requires
        in_bounds(a),
        a.results == b.results,
        a.selected == b.selected,
        a.deps == b.deps,
        a.functions == b.functions,
        a.call_sites == b.call_sites,
        a.function_xref == b.function_xref,
        is_selectable(b.deps_selected as int, app::target_count(a) as int),
        is_selectable(b.functions_selected as int, a.functions.len() as int),
    ensures
        in_bounds(b),
{
    reveal(app::xref_sites);
}

/// The mouse keeps the selections within what is shown.
pub proof fn law_mouse_keeps_selections_in_bounds(
    a: App,
    action: mouse::MouseAction,
    col: u16,
    row: u16,
    now: u64,
)
    requires
        in_bounds(a),
        a.results.len() < usize::MAX,
        a.functions.len() <= usize::MAX,
        app::target_count(a) <= usize::MAX,
    ensures
        in_bounds(mouse::after_mouse(a, action, col, row, now).0),
{
    let quiet = App { flash: None, ..a };
    let b = mouse::remembering(quiet, col, row, now);
    lemma_same_lists(a, b);
    match mouse::hit(a.click_regions, col as int, row as int) {
        Some((kind, i)) => {
            lemma_pane_clicked(b, kind, i, mouse::is_double(quiet, col, row, now));
        },
        None => {},
    }
    lemma_same_lists(a, quiet);
    lemma_wheeled(quiet, col, row, 1);
    lemma_wheeled(quiet, col, row, (-1) as i16);
}

/// The wheel over a pane.
proof fn lemma_wheeled(a: App, col: u16, row: u16, delta: i16)
    requires
        in_bounds(a),
        counts_fit(a),
    ensures
        in_bounds(mouse::wheeled(a, col, row, delta).0),
{
    lemma_result_moved(a, delta as int);
    lemma_deps_moved(a, delta as int);
    lemma_functions_moved(a, delta as int);
    lemma_same_lists(
        a,
        App { preview_scroll: tui::scrolled(a.preview_scroll, delta) as u16, ..a },
    );
    lemma_same_lists(
        a,
        App { revisions_scroll: tui::scrolled(a.revisions_scroll, delta) as u16, ..a },
    );
    lemma_same_lists(
        a,
        App { detail_scroll: tui::scrolled(a.detail_scroll, delta) as u16, ..a },
    );
    lemma_same_lists(
        a,
        App { detail_diff_scroll: tui::scrolled(a.detail_diff_scroll, delta) as u16, ..a },
    );
}

/// Answers keep the selections within what is shown.
pub proof fn law_answers_keep_selections_in_bounds(
    a: App,
    id: u64,
    rows: Result<Seq<json::Columns>, Seq<char>>,
    shown: detail_worker::DetailPayload,
    dir: Seq<char>,
    listing: Result<(Seq<Seq<char>>, Seq<json::Columns>), Seq<char>>,
)
    requires
        in_bounds(a),
        rows matches Ok(r) ==> r.len() <= usize::MAX,
    ensures
        in_bounds(app::answered(a, id, rows)),
        in_bounds(app::showing(a, id, shown)),
        in_bounds(app::listed(a, id, dir, listing)),
{
    reveal(app::xref_sites);
    reveal(app::answered);
    reveal(app::showing);
    reveal(app::listed);
    reveal(app::with_results);
    reveal(app::without_script);
    match rows {
        Ok(r) => if r.len() > 0 {
            let b = App {
                search_in_flight: false,
                inflight_query_id: None,
                error: None,
                results: r,
                marked: None,
                ..a
            };
            let i = if a.selected >= r.len() {
                (r.len() - 1) as usize
            } else {
                a.selected
            };
            lemma_loading(App { selected: i, ..b });
        },
        Err(_) => {},
    }
}

// ---------------------------------------------------------------------------
// Going back
// ---------------------------------------------------------------------------

/// Going back from a dependency leads to the script that it was opened from,
/// and leaves the way back from there as it was.
pub proof fn law_going_back_undoes_opening(a: App)
    requires
        app::dependency_target(a) is Some,
        app::current_path(a) is Some,
        a.results.len() < usize::MAX - 1,
    ensures
        ({
            let b = app::going_back(app::opening_dependency(a));
            &&& app::path_at(b.results, b.selected as int) == app::current_path(a)
            &&& b.dep_backstack == a.dep_backstack
        }),
{
    reveal(app::opening_dependency);
    reveal(app::going_back);
    let path = app::current_path(a).unwrap();
    let target = app::dependency_target(a).unwrap();
    let pushed = App { dep_backstack: a.dep_backstack.push(path), ..a };
    lemma_going_to(pushed, target);
    let there = app::opening_dependency(a);
    assert(there.dep_backstack == a.dep_backstack.push(path));
    lemma_results_grow_by_one(pushed, target);
    let popped = App { dep_backstack: there.dep_backstack.drop_last(), ..there };
    assert(there.dep_backstack.drop_last() =~= a.dep_backstack);
    lemma_going_to(popped, path);
}

/// Going to a script adds at most one result.
proof fn lemma_results_grow_by_one(a: App, path: Seq<char>)
    requires
        a.results.len() < usize::MAX,
    ensures
        app::going_to(a, path).results.len() <= a.results.len() + 1,
{
    reveal(app::going_to);
    let i = app::result_index(a.results, path);
    if 0 <= i < a.results.len() {
        lemma_loading(App { selected: i as usize, ..a });
    } else {
        lemma_loading(
            App {
                selected: a.results.len() as usize,
                results: a.results.push(app::path_row(path)),
                ..a
            },
        );
    }
}

/// Going back from a script that was opened in the Folder section leads to the
/// script that it was opened from, and leaves the way back from there as it
/// was.
pub proof fn law_folder_back_undoes_opening(a: App)
    requires
        a.siblings_selected >= a.sibling_dirs.len(),
        app::sibling_target(a) is Some,
        app::current_path(a) is Some,
        a.results.len() < usize::MAX - 1,
    ensures
        ({
            let b = app::folder_back(app::opening_entry(a));
            &&& app::path_at(b.results, b.selected as int) == app::current_path(a)
            &&& b.folder_backstack == a.folder_backstack
        }),
{
    reveal(app::opening_entry);
    reveal(app::folder_back);
    reveal(app::leaving_folder);
    let path = app::current_path(a).unwrap();
    let target = app::sibling_target(a).unwrap();
    let left = app::leaving_folder(a);
    lemma_going_to(left, target);
    lemma_results_grow_by_one(left, target);
    let there = app::opening_entry(a);
    assert(there.folder_backstack == a.folder_backstack.push(path));
    let popped = App { folder_backstack: there.folder_backstack.drop_last(), ..there };
    assert(there.folder_backstack.drop_last() =~= a.folder_backstack);
    lemma_going_to(popped, path);
}

// ---------------------------------------------------------------------------
// Leaving and typing
// ---------------------------------------------------------------------------

/// The escape key leaves one thing at a time: the diff view for the detail
/// view, the Folder section, the detail view for the browser, the full screen,
/// and at last the browser itself.
pub proof fn law_escape_leaves_one_thing_at_a_time(a: App, k: Key, now: u64)
    requires
        k.code == KeyCode::Esc,
    ensures
        handlers::quits(a, k) <==> a.mode == ViewMode::Browse && !a.fullscreen,
        a.mode == ViewMode::DetailDiff ==> handlers::after_key(a, k, now) == (App {
            mode: ViewMode::Detail,
            ..a
        }),
        a.mode == ViewMode::Detail && a.folder_focused ==> handlers::after_key(a, k, now)
            == (App { folder_focused: false, ..a }),
        a.mode == ViewMode::Detail && !a.folder_focused ==> handlers::after_key(a, k, now)
            == (App { mode: ViewMode::Browse, focus: Focus::Results, ..a }),
        a.mode == ViewMode::Browse && a.fullscreen ==> handlers::after_key(a, k, now) == (App {
            fullscreen: false,
            ..a
        }),
{
}

/// What is typed into the search box is put at the end of the query, and the
/// backspace key takes it away again; `q` without modifiers ends the browser
/// instead.
pub proof fn law_backspace_undoes_typing(a: App, c: char, shift: bool, now: u64, later: u64)
    requires
        a.mode == ViewMode::Browse,
        a.focus == Focus::Search,
        c != 'q' || shift,
    ensures
        ({
            let typed = Key {
                code: KeyCode::Char(c),
                modifiers: if shift {
                    Modifiers::Shift
                } else {
                    Modifiers::Plain
                },
            };
            let back = Key { code: KeyCode::Backspace, modifiers: Modifiers::Plain };
            let b = handlers::after_key(a, typed, now);
            &&& b.query == a.query.push(c)
            &&& b.pending_query == Some(a.query.push(c))
            &&& handlers::after_key(b, back, later).query == a.query
        }),
{
    reveal(app::scheduling);
    assert(a.query.push(c).drop_last() =~= a.query);
}

/// A script that is asked to be viewed is shown with the content that the
/// catalog holds, whole; where that cannot be, the reason is reported and
/// nothing is opened.
pub proof fn law_catalog_view_shows_all_content(a: App)
    ensures
        ({
            let b = app::viewing_catalog(a);
            match app::no_view_reason(a) {
                Some(reason) => b.error == Some(reason) && b.pending_view == a.pending_view,
                None => b.error is None && b.pending_view == Some(
                    app::TargetView::Catalog {
                        logical_path: json::text_or_empty(a.detail.unwrap(), "logical_path"@),
                        content: json::text_or_empty(a.detail.unwrap(), "content"@),
                    },
                ),
            }
        }),
{
    reveal(app::viewing_catalog);
}

// ---------------------------------------------------------------------------
// The passing message
// ---------------------------------------------------------------------------

/// Whether an event is something that the user did and the browser acts on: a
/// key, a click or a turn of the wheel.
pub open spec fn is_input(e: mouse::TerminalEvent) -> bool {
    match e {
        mouse::TerminalEvent::KeyPress(_) => true,
        mouse::TerminalEvent::Mouse(action, _, _) => action !is Other,
        _ => false,
    }
}

/// A key leaves the passing message as it is.
proof fn lemma_keys_keep_the_message(a: App, k: Key, now: u64)
    ensures
        handlers::after_key(a, k, now).flash == a.flash,
{
    reveal(app::querying);
    reveal(app::scheduling);
    reveal(app::without_script);
    reveal(app::loading);
    reveal(app::with_results);
    reveal(app::going_to);
    reveal(app::opening_dependency);
    reveal(app::going_back);
    reveal(app::at_function);
    reveal(app::asking_folder);
    reveal(app::going_up);
    reveal(app::opening_entry);
    reveal(app::leaving_folder);
    reveal(app::folder_back);
    reveal(app::diffing);
    reveal(app::viewing_catalog);
    reveal(app::checking_file);
}

/// Clicks and the wheel over a pane leave the passing message as it is.
proof fn lemma_panes_keep_the_message(a: App, col: u16, row: u16, now: u64, delta: i16)
    ensures
        mouse::clicked(a, col, row, now).0.flash == a.flash,
        mouse::wheeled(a, col, row, delta).0.flash == a.flash,
{
    reveal(app::querying);
    reveal(app::scheduling);
    reveal(app::without_script);
    reveal(app::loading);
    reveal(app::with_results);
    reveal(app::going_to);
    reveal(app::opening_dependency);
    reveal(app::going_back);
    reveal(app::at_function);
    reveal(app::asking_folder);
    reveal(app::going_up);
    reveal(app::opening_entry);
    reveal(app::leaving_folder);
    reveal(app::folder_back);
    reveal(app::diffing);
    reveal(app::viewing_catalog);
    reveal(app::checking_file);
    reveal(app::copying);
}

/// What was copied is told at the bottom of the screen, whatever view fills it.
pub proof fn law_a_copy_is_told(a: App, path: Seq<char>)
    ensures
        render::footer(app::copied(a, path, None)) == styled::plain("Copied "@ + path),
{
    reveal(app::copied);
}

/// The passing message is shown until the next input: that one brings the keys
/// of the view back, and the screen is painted again for it unless it ends the
/// browser. Other events leave the message where it is.
pub proof fn law_the_message_lasts_until_the_next_input(
    a: App,
    e: mouse::TerminalEvent,
    now: u64,
)
    ensures
        ({
            let b = mouse::after_event(a, e, now);
            if is_input(e) {
                &&& render::footer(b) == render::hints(render::keys_shown(b))
                &&& a.flash is Some ==> b.needs_redraw || (e matches mouse::TerminalEvent::KeyPress(
                    k,
                ) && handlers::quits(a, k))
            } else {
                b.flash == a.flash
            }
        }),
{
    let quiet = App { flash: None, ..a };
    match e {
        mouse::TerminalEvent::KeyPress(k) => {
            lemma_keys_keep_the_message(quiet, k, now);
        },
        mouse::TerminalEvent::Mouse(_, col, row) => {
            lemma_panes_keep_the_message(quiet, col, row, now, 1);
            lemma_panes_keep_the_message(quiet, col, row, now, (-1) as i16);
        },
        _ => {},
    }
}

/// Answers leave the passing message as it is.
pub proof fn law_answers_keep_the_message(
    a: App,
    id: u64,
    rows: Result<Seq<json::Columns>, Seq<char>>,
    shown: detail_worker::DetailPayload,
    output: Seq<char>,
    dir: Seq<char>,
    listing: Result<(Seq<Seq<char>>, Seq<json::Columns>), Seq<char>>,
    mapped: bool,
    found: bool,
    stats: Result<json::Columns, Seq<char>>,
)
    ensures
        app::answered(a, id, rows).flash == a.flash,
        app::showing(a, id, shown).flash == a.flash,
        app::diffed(a, id, output).flash == a.flash,
        app::listed(a, id, dir, listing).flash == a.flash,
        app::checked_file(a, id, dir, output, mapped, found).flash == a.flash,
        app::with_stats(a, id, stats).flash == a.flash,
{
    reveal(app::answered);
    reveal(app::showing);
    reveal(app::diffed);
    reveal(app::listed);
    reveal(app::checked_file);
    reveal(app::with_stats);
    reveal(app::with_results);
    reveal(app::without_script);
    reveal(app::loading);
}

// ---------------------------------------------------------------------------
// What keys and clicks are for
// ---------------------------------------------------------------------------

/// A key without modifiers.
pub open spec fn plain_key(code: KeyCode) -> Key {
    Key { code, modifiers: Modifiers::Plain }
}

/// In the panes, `/` leads to the search box and `f` to the full screen and
/// back; the tab key goes through the panes, and the enter key in the results
/// opens the selected one.
pub proof fn law_keys_lead_through_the_panes(a: App, now: u64)
    requires
        a.mode == ViewMode::Browse,
        a.focus != Focus::Search,
    ensures
        handlers::after_key(a, plain_key(KeyCode::Char('/')), now) == (App {
            focus: Focus::Search,
            ..a
        }),
        handlers::after_key(a, plain_key(KeyCode::Char('f')), now) == (App {
            fullscreen: !a.fullscreen,
            ..a
        }),
        handlers::after_key(a, plain_key(KeyCode::Tab), now).focus == tui::focus_after(a.focus),
        handlers::after_key(a, plain_key(KeyCode::BackTab), now).focus == tui::focus_before(a.focus),
        a.focus == Focus::Results ==> handlers::after_key(a, plain_key(KeyCode::Enter), now)
            == (App { mode: ViewMode::Detail, ..a }),
        a.focus == Focus::Preview ==> handlers::after_key(a, plain_key(KeyCode::Down), now)
            .preview_scroll == tui::scrolled_by_key(a.preview_scroll, plain_key(KeyCode::Down)),
        a.focus == Focus::Revisions ==> handlers::after_key(a, plain_key(KeyCode::Down), now)
            .revisions_scroll == tui::scrolled_by_key(a.revisions_scroll, plain_key(KeyCode::Down)),
        handlers::quits(a, plain_key(KeyCode::Char('q'))),
        handlers::quits(a, Key { code: KeyCode::Char('c'), modifiers: Modifiers::Control }),
{
}

/// In the results, the arrows go to the neighbouring results, and `g` and `G`
/// to the first and the last one; the script that is gone to is asked for.
pub proof fn law_keys_go_through_the_results(a: App, now: u64)
    requires
        a.mode == ViewMode::Browse,
        a.focus == Focus::Results,
        a.selected < a.results.len(),
        a.results.len() < usize::MAX,
    ensures
        ({
            let down = handlers::after_key(a, plain_key(KeyCode::Down), now);
            let up = handlers::after_key(a, plain_key(KeyCode::Up), now);
            let first = handlers::after_key(a, plain_key(KeyCode::Char('g')), now);
            let last = handlers::after_key(a, plain_key(KeyCode::Char('G')), now);
            &&& a.selected + 1 < a.results.len() ==> down == app::selecting(
                a,
                (a.selected + 1) as usize,
            )
            &&& a.selected + 1 == a.results.len() ==> down == a
            &&& a.selected > 0 ==> up == app::selecting(a, (a.selected - 1) as usize)
            &&& a.selected == 0 ==> up == a
            &&& first == app::selecting(a, 0)
            &&& last == app::selecting(a, (a.results.len() - 1) as usize)
        }),
{
}

/// A script that is selected is asked for under a new number, and until its
/// answer comes it is the one that is awaited.
pub proof fn law_a_selected_script_is_asked_for(a: App, i: usize, path: Seq<char>)
    requires
        app::path_at(a.results, i as int) == Some(path),
        a.next_detail_id < u64::MAX,
    ensures
        ({
            let b = app::selecting(a, i);
            &&& b.selected == i
            &&& b.outbox == a.outbox.push(
                tui::workers::RequestView::Detail { id: a.next_detail_id, path },
            )
            &&& b.inflight_detail_id == Some(a.next_detail_id)
            &&& b.next_detail_id == a.next_detail_id + 1
            &&& b.detail_loading
            &&& b.results == a.results
        }),
{
    reveal(app::loading);
}

/// A query that is sent asks for what was typed, under a new number, and
/// answers to earlier ones no longer count.
pub proof fn law_a_query_asks_for_what_was_typed(a: App)
    requires
        a.next_query_id < u64::MAX,
    ensures
        ({
            let b = app::querying(a);
            &&& b.outbox == a.outbox.push(
                tui::workers::RequestView::Search { id: a.next_query_id, query: a.query, limit: 2000 },
            )
            &&& b.inflight_query_id == Some(a.next_query_id)
            &&& b.next_query_id == a.next_query_id + 1
            &&& b.search_in_flight
            &&& b.pending_query is None
            &&& b.error is None
        }),
{
    reveal(app::querying);
}

/// A query is sent once nothing was typed for 150 milliseconds, and not before.
pub proof fn law_queries_rest_before_they_are_sent(a: App, typed: u64, now: u64)
    requires
        a.last_keystroke_at == Some(typed),
        a.pending_query is Some,
    ensures
        now - typed < 150 ==> mouse::after_rest(a, now) == a,
        now - typed >= 150 ==> mouse::after_rest(a, now).outbox.len() == a.outbox.len() + 1
            && mouse::after_rest(a, now).pending_query is None && mouse::after_rest(
            a,
            now,
        ).last_keystroke_at is None,
{
    reveal(app::querying);
}

/// The results of a query are shown as they came, the first one selected where
/// the one before is no more there; an error leaves the results and is shown.
pub proof fn law_answers_are_shown(a: App, id: u64, rows: Seq<json::Columns>, error: Seq<char>)
    requires
        a.inflight_query_id == Some(id),
        rows.len() <= usize::MAX,
    ensures
        ({
            let b = app::answered(a, id, Ok(rows));
            let c = app::answered(a, id, Err(error));
            &&& b.results == rows
            &&& !b.search_in_flight && b.inflight_query_id is None
            &&& a.selected < rows.len() ==> b.selected == a.selected
            &&& rows.len() > 0 && a.selected >= rows.len() ==> b.selected == rows.len() - 1
            &&& rows.len() == 0 ==> b.selected == 0 && b.detail is None
            &&& c.error == Some(error)
            &&& c.results == a.results
            &&& !c.search_in_flight
        }),
{
    reveal(app::answered);
    reveal(app::with_results);
    reveal(app::without_script);
    reveal(app::loading);
}

/// What comes of a script is shown: its own row, its dependencies, functions
/// and siblings, and its revisions in their order.
pub proof fn law_a_script_is_shown_with_all_that_came(
    a: App,
    id: u64,
    shown: detail_worker::DetailPayload,
)
    requires
        a.inflight_detail_id == Some(id),
    ensures
        ({
            let b = app::showing(a, id, shown);
            &&& b.detail == app::opt_row(shown.detail)
            &&& b.deps == detail_worker::dependency_views(shown.deps@)
            &&& b.functions == detail_worker::function_views(shown.functions@)
            &&& b.siblings == json::row_columns(shown.siblings@)
            &&& b.checkouts == app::sort_revisions(json::row_columns(shown.checkouts@))
            &&& !b.detail_loading
            &&& b.inflight_detail_id is None
            &&& b.deps_selected == 0 && b.functions_selected == 0
        }),
{
    reveal(app::showing);
}

/// In the detail view, `d` asks for the differences of the script that is
/// shown and shows them; the escape and the backspace key lead back.
pub proof fn law_differences_are_of_the_shown_script(a: App, path: Seq<char>, now: u64)
    requires
        a.mode == ViewMode::Detail,
        !a.folder_focused,
        app::current_path(a) == Some(path),
    ensures
        ({
            let b = handlers::after_key(a, plain_key(KeyCode::Char('d')), now);
            &&& b.mode == ViewMode::DetailDiff
            &&& b.outbox == a.outbox.push(
                tui::workers::RequestView::Diff { id: a.next_diff_id, path, revision: None },
            )
            &&& b.inflight_diff_id == Some(a.next_diff_id)
            &&& b.detail_diff_loading
            &&& handlers::after_key(b, plain_key(KeyCode::Backspace), now).mode == ViewMode::Detail
        }),
        handlers::after_key(a, plain_key(KeyCode::Backspace), now).mode == ViewMode::Browse,
{
    reveal(app::diffing);
}

/// The script at hand is the one that is shown, and else the selected result.
pub proof fn law_the_shown_script_is_the_one_at_hand(a: App, row: json::Columns, path: Seq<char>)
    requires
        path.len() > 0,
        row.contains_key("logical_path"@),
        row["logical_path"@] == json::ValueView::Text(path),
    ensures
        a.detail == Some(row) ==> app::current_path(a) == Some(path),
        a.detail is None && a.selected < a.results.len() && a.results[a.selected as int] == row
            ==> app::current_path(a) == Some(path),
{
    reveal(app::current_path);
}

/// The file of a script is looked for where its path is mapped to, and else at
/// its own path; where it is found it is opened, and where not that is told.
pub proof fn law_the_live_file_is_looked_for(
    a: App,
    row: json::Columns,
    path: Seq<char>,
    native: Seq<char>,
    id: u64,
    mapped: bool,
)
    requires
        !a.detail_loading,
        a.detail == Some(row),
        path.len() > 0,
        row.contains_key("logical_path"@),
        row["logical_path"@] == json::ValueView::Text(path),
        a.native_path is None || a.native_path == Some(native),
    ensures
        app::checking_file(a).outbox == a.outbox.push(
            tui::workers::RequestView::FileCheck {
                id: a.next_filecheck_id,
                logical_path: path,
                native_path: if a.native_path is None {
                    path
                } else {
                    native
                },
                mapped: a.native_path is Some && native != path,
            },
        ),
        a.inflight_filecheck_id == Some(id) ==> app::checked_file(
            a,
            id,
            path,
            native,
            mapped,
            true,
        ).pending_view == Some(app::TargetView::LiveSource { logical_path: path, native_path: native }),
        a.inflight_filecheck_id == Some(id) ==> app::checked_file(
            a,
            id,
            path,
            native,
            mapped,
            false,
        ).pending_view == a.pending_view && app::checked_file(
            a,
            id,
            path,
            native,
            mapped,
            false,
        ).error is Some,
{
    reveal(app::checking_file);
    reveal(app::checked_file);
}

/// A jump to a function shows its line at the top of the preview.
pub proof fn law_a_jump_shows_the_function(a: App)
    requires
        a.functions_selected < a.functions.len(),
        0 < a.functions[a.functions_selected as int].line <= 65535,
    ensures
        ({
            let f = a.functions[a.functions_selected as int];
            let b = app::at_function(a);
            &&& b.preview_scroll == f.line - 1
            &&& b.focus == Focus::Preview
            &&& b.function_xref == Some(f.name)
        }),
{
    reveal(app::at_function);
}

/// A click hits the first pane that holds its cell, at the line that the cell
/// shows; a cell in no pane hits nothing.
pub proof fn law_clicks_hit_the_pane_they_are_in(
    regions: Seq<mouse::ClickRegion>,
    k: int,
    col: u16,
    row: u16,
)
    requires
        0 <= k <= regions.len(),
        col < u16::MAX,
        row < u16::MAX,
        forall|i: int|
            0 <= i < k ==> !({
                let area = (#[trigger] regions[i]).area;
                area.x <= col < area.x + area.width && area.y <= row < area.y + area.height
            }),
        k < regions.len() ==> {
            let area = regions[k].area;
            area.x <= col < area.x + area.width && area.y <= row < area.y + area.height
        },
    ensures
        match mouse::hit(regions, col as int, row as int) {
            Some((kind, line)) => k < regions.len() && kind == regions[k].kind && (regions[k].scroll
                + (row - regions[k].area.y) <= usize::MAX ==> line == regions[k].scroll + (row
                - regions[k].area.y)),
            None => k == regions.len(),
        },
    decreases regions.len(),
{
    if regions.len() > 0 && k > 0 {
        let rest = regions.drop_first();
        assert forall|i: int| 0 <= i < k - 1 implies !({
            let area = (#[trigger] rest[i]).area;
            area.x <= col < area.x + area.width && area.y <= row < area.y + area.height
        }) by {
            assert(rest[i] == regions[i + 1]);
        }
        if k < regions.len() {
            assert(rest[k - 1] == regions[k]);
        }
        let area = regions[0].area;
        assert(!(area.x <= col < area.x + area.width && area.y <= row < area.y + area.height));
        law_clicks_hit_the_pane_they_are_in(rest, k - 1, col, row);
    }
}

/// Two clicks on one cell make a double click where the second comes soon, and
/// a third one starts anew.
pub proof fn law_two_clicks_make_a_double_click(a: App, col: u16, row: u16, first: u64, now: u64)
    requires
        a.last_click is None,
        first <= now,
    ensures
        ({
            let b = mouse::remembering(a, col, row, first);
            &&& !mouse::is_double(a, col, row, first)
            &&& mouse::is_double(b, col, row, now) <==> now - first <= tui::DOUBLE_CLICK_MS
            &&& mouse::is_double(b, col, row, now) ==> mouse::remembering(
                b,
                col,
                row,
                now,
            ).last_click is None
            &&& forall|c: u16, r: u16|
                (c != col || r != row) ==> !#[trigger] mouse::is_double(b, c, r, now)
        }),
{
}

/// What is typed in the search box joins the query at its end, and the query
/// waits from that time on.
pub proof fn law_typing_changes_the_query(a: App, c: char, now: u64)
    requires
        a.mode == ViewMode::Browse,
        a.focus == Focus::Search,
    ensures
        ({
            let b = handlers::after_key(a, plain_key(KeyCode::Char(c)), now);
            handlers::quits(a, plain_key(KeyCode::Char(c))) || (b.query == a.query.push(c)
                && b.pending_query == Some(b.query) && b.last_keystroke_at == Some(now) && b.outbox
                == a.outbox && b.focus == Focus::Search)
        }),
        handlers::after_key(a, plain_key(KeyCode::Enter), now).focus == Focus::Results,
{
    reveal(app::scheduling);
}

/// The browser goes to a script by selecting it: the first result with its
/// path, or one more result where none has it.
pub proof fn law_the_browser_goes_to_the_script(a: App, path: Seq<char>)
    requires
        a.results.len() < usize::MAX,
    ensures
        ({
            let b = app::going_to(a, path);
            &&& b.selected < b.results.len()
            &&& app::path_at(b.results, b.selected as int) == Some(path)
            &&& forall|i: int|
                0 <= i < b.selected ==> #[trigger] app::path_at(b.results, i) != Some(path)
            &&& (exists|i: int|
                0 <= i < a.results.len() && #[trigger] app::path_at(a.results, i) == Some(path))
                ==> b.results == a.results
            &&& b.results != a.results ==> b.results.len() == a.results.len() + 1
                && b.results.drop_last() == a.results
        }),
{
    reveal(app::going_to);
    reveal(app::loading);
    lemma_first_result(a.results, path);
    let n = app::result_index(a.results, path);
    if n >= a.results.len() {
        let more = a.results.push(app::path_row(path));
        assert(more.drop_last() =~= a.results);
        assert(app::path_at(more, a.results.len() as int) == Some(path));
        assert forall|i: int| 0 <= i < a.results.len() implies #[trigger] app::path_at(more, i)
            != Some(path) by {
            assert(app::path_at(a.results, i) != Some(path));
        }
    }
}

/// The first result with a path.
proof fn lemma_first_result(results: Seq<json::Columns>, path: Seq<char>)
    ensures
        ({
            let n = app::result_index(results, path);
            &&& 0 <= n <= results.len()
            &&& n < results.len() ==> app::path_at(results, n) == Some(path)
            &&& forall|i: int| 0 <= i < n ==> #[trigger] app::path_at(results, i) != Some(path)
        }),
    decreases results.len(),
{
    if results.len() > 0 && app::path_at(results, 0) != Some(path) {
        let rest = results.drop_first();
        lemma_first_result(rest, path);
        let n = app::result_index(results, path);
        assert forall|i: int| 0 <= i < n implies #[trigger] app::path_at(results, i) != Some(
            path,
        ) by {
            if i > 0 {
                assert(rest[i - 1] == results[i]);
                assert(app::path_at(rest, i - 1) != Some(path));
            }
        }
        if n < results.len() {
            assert(rest[n - 1] == results[n]);
        }
    }
}

/// The selected dependency is opened with the way back kept; where the call
/// sites of a function stand in place of the dependencies, the script with the
/// selected one is.
pub proof fn law_a_dependency_leads_to_its_script(
    a: App,
    path: Seq<char>,
    name: Seq<char>,
    now: u64,
)
    requires
        a.mode == ViewMode::Browse,
        a.focus == Focus::Deps,
        app::current_path(a) == Some(path),
    ensures
        ({
            let b = App { dep_backstack: a.dep_backstack.push(path), ..a };
            let opened = handlers::after_key(a, plain_key(KeyCode::Enter), now);
            &&& a.function_xref is None && a.deps_selected < a.deps.len() ==> opened
                == app::going_to(b, a.deps[a.deps_selected as int].path)
            &&& a.function_xref == Some(name) && a.call_sites.contains_key(name)
                && a.deps_selected < a.call_sites[name].len() ==> opened == app::going_to(
                b,
                a.call_sites[name][a.deps_selected as int].caller_path,
            )
        }),
        a.dep_backstack.len() > 0 ==> handlers::after_key(
            a,
            plain_key(KeyCode::Char('[')),
            now,
        ) == app::going_to(
            App { dep_backstack: a.dep_backstack.drop_last(), ..a },
            a.dep_backstack.last(),
        ),
{
    reveal(app::opening_dependency);
    reveal(app::going_back);
    reveal(app::xref_sites);
}

/// The arrows move the selection of the pane that has the focus, by one entry
/// and within its entries.
pub proof fn law_arrows_move_in_the_focused_pane(a: App, now: u64)
    requires
        a.deps_selected < app::target_count(a) <= usize::MAX,
        a.functions_selected < a.functions.len() <= usize::MAX,
        a.siblings_selected < a.sibling_dirs.len() + a.siblings.len() <= usize::MAX,
    ensures
        ({
            let down = handlers::after_key(a, plain_key(KeyCode::Down), now);
            let up = handlers::after_key(a, plain_key(KeyCode::Up), now);
            &&& a.mode == ViewMode::Browse && a.focus == Focus::Deps ==> down.deps_selected == (
            if a.deps_selected + 1 < app::target_count(a) {
                a.deps_selected + 1
            } else {
                a.deps_selected as int
            }) && up.deps_selected == (if a.deps_selected > 0 {
                a.deps_selected - 1
            } else {
                0
            })
            &&& a.mode == ViewMode::Browse && a.focus == Focus::Functions
                ==> down.functions_selected == (if a.functions_selected + 1 < a.functions.len() {
                a.functions_selected + 1
            } else {
                a.functions_selected as int
            }) && up.functions_selected == (if a.functions_selected > 0 {
                a.functions_selected - 1
            } else {
                0
            })
            &&& a.mode == ViewMode::Detail && a.folder_focused ==> down.siblings_selected == (
            if a.siblings_selected + 1 < a.sibling_dirs.len() + a.siblings.len() {
                a.siblings_selected + 1
            } else {
                a.siblings_selected as int
            }) && up.siblings_selected == (if a.siblings_selected > 0 {
                a.siblings_selected - 1
            } else {
                0
            })
        }),
{
}

/// In the Folder section the enter key asks for the selected directory below
/// the one that is shown, and goes to the selected script; `[` asks for the
/// directory above.
pub proof fn law_the_folder_can_be_walked(
    a: App,
    dir: Seq<char>,
    name: Seq<char>,
    path: Seq<char>,
    now: u64,
)
    requires
        a.mode == ViewMode::Detail,
        a.folder_focused,
        a.folder_dir == Some(dir),
        dir.len() > 0,
        dir != "/"@,
        path.len() > 0,
    ensures
        ({
            let opened = handlers::after_key(a, plain_key(KeyCode::Enter), now);
            let i = a.siblings_selected - a.sibling_dirs.len();
            &&& a.siblings_selected < a.sibling_dirs.len()
                && a.sibling_dirs[a.siblings_selected as int] == name ==> opened.outbox
                == a.outbox.push(
                tui::workers::RequestView::Folder {
                    id: a.next_folder_id,
                    dir: dir + "/"@ + name,
                },
            )
            &&& 0 <= i < a.siblings.len() && json::text_or_empty(
                a.siblings[i],
                "logical_path"@,
            ) == path && a.results.len() < usize::MAX ==> !opened.folder_focused
                && opened.selected < opened.results.len() && app::path_at(
                opened.results,
                opened.selected as int,
            ) == Some(path)
        }),
        handlers::after_key(a, plain_key(KeyCode::Char('[')), now).outbox == a.outbox.push(
            tui::workers::RequestView::Folder {
                id: a.next_folder_id,
                dir: crate::script_view::parent_path(dir),
            },
        ),
{
    reveal(app::opening_entry);
    reveal(app::asking_folder);
    reveal(app::leaving_folder);
    reveal(app::going_up);
    reveal(app::shown_dir);
    reveal(app::going_to);
    reveal(app::loading);
    reveal(app::without_script);
    if a.results.len() < usize::MAX {
        law_the_browser_goes_to_the_script(app::leaving_folder(a), path);
    }
}

/// A directory that was listed is shown from its first entry on.
pub proof fn law_a_listed_folder_is_shown(
    a: App,
    id: u64,
    dir: Seq<char>,
    dirs: Seq<Seq<char>>,
    scripts: Seq<json::Columns>,
)
    requires
        a.inflight_folder_id == Some(id),
    ensures
        ({
            let b = app::listed(a, id, dir, Ok((dirs, scripts)));
            &&& app::shown_dir(b) == dir
            &&& b.sibling_dirs == dirs
            &&& b.siblings == scripts
            &&& b.siblings_selected == 0
            &&& b.inflight_folder_id is None
            &&& b.error is None
        }),
{
    reveal(app::listed);
    reveal(app::shown_dir);
}

/// A click leads to the pane that it hits and to the entry there; a double
/// click on a result opens it, and a second click on a selected dependency or
/// function follows it. A click on the path copies it.
pub proof fn law_clicks_select_and_follow(
    a: App,
    col: u16,
    row: u16,
    now: u64,
    i: usize,
    path: Seq<char>,
)
    requires
        a.last_click is None,
    ensures
        ({
            let b = mouse::clicked(a, col, row, now).0;
            let at = mouse::hit(a.click_regions, col as int, row as int);
            &&& at == Some((mouse::RegionKind::Search, i)) ==> b.focus == Focus::Search
            &&& at == Some((mouse::RegionKind::Preview, i)) ==> b.focus == Focus::Preview
            &&& at == Some((mouse::RegionKind::Revisions, i)) ==> b.focus == Focus::Revisions
            &&& at == Some((mouse::RegionKind::Results, i)) && i < a.results.len() ==> b.focus
                == Focus::Results && b.selected == i && b.mode == a.mode
            &&& at == Some((mouse::RegionKind::Deps, i)) && i < app::target_count(a) && i
                != a.deps_selected ==> b.focus == Focus::Deps && b.deps_selected == i
            &&& at == Some((mouse::RegionKind::Functions, i)) && i < a.functions.len() && i
                != a.functions_selected ==> b.focus == Focus::Functions && b.functions_selected
                == i
            &&& at == Some((mouse::RegionKind::Functions, i)) && i < a.functions.len() && i
                == a.functions_selected ==> b.function_xref == Some(a.functions[i as int].name)
            &&& at == Some((mouse::RegionKind::Header, i)) && app::current_path(a) == Some(path)
                ==> b.outbox == a.outbox.push(tui::workers::RequestView::Copy { text: path })
        }),
        a.results.len() > i ==> mouse::result_clicked(a, i, true).mode == ViewMode::Detail,
{
    reveal(app::copying);
    reveal(app::loading);
    reveal(app::without_script);
    reveal(app::at_function);
    reveal(app::xref_sites);
    reveal(app::current_path);
}

/// The wheel scrolls the pane that it is turned over, and moves the selection
/// where that is a list.
pub proof fn law_the_wheel_turns_what_is_below_it(
    a: App,
    col: u16,
    row: u16,
    delta: i16,
    i: usize,
)
    requires
        -3 <= delta <= 3,
        3 <= a.preview_scroll <= 60000,
        3 <= a.revisions_scroll <= 60000,
        3 <= a.detail_scroll <= 60000,
        3 <= a.detail_diff_scroll <= 60000,
    ensures
        ({
            let b = mouse::wheeled(a, col, row, delta).0;
            let at = mouse::hit(a.click_regions, col as int, row as int);
            &&& at == Some((mouse::RegionKind::Preview, i)) ==> b.preview_scroll
                == a.preview_scroll + delta
            &&& at == Some((mouse::RegionKind::Revisions, i)) ==> b.revisions_scroll
                == a.revisions_scroll + delta
            &&& at == Some((mouse::RegionKind::DetailBody, i)) ==> b.detail_scroll
                == a.detail_scroll + delta
            &&& at == Some((mouse::RegionKind::DetailDiffBody, i)) ==> b.detail_diff_scroll
                == a.detail_diff_scroll + delta
            &&& at == Some((mouse::RegionKind::Deps, i)) && 0 <= a.deps_selected + delta
                < app::target_count(a) && a.deps_selected < app::target_count(a)
                && app::target_count(a) <= usize::MAX ==> b.deps_selected == a.deps_selected + delta
            &&& at == Some((mouse::RegionKind::Functions, i)) && 0 <= a.functions_selected + delta
                < a.functions.len() <= usize::MAX && a.functions_selected < a.functions.len()
                ==> b.functions_selected == a.functions_selected + delta
            &&& at is None ==> b == a
        }),
{
}

/// A pane is one cell smaller on each side than its border.
pub proof fn law_a_border_takes_one_cell_on_each_side(outer: tui::Area)
    requires
        outer.width >= 2,
        outer.height >= 2,
        outer.x + outer.width <= u16::MAX,
        outer.y + outer.height <= u16::MAX,
    ensures
        ({
            let inner = mouse::inside_border(outer);
            &&& inner.x == outer.x + 1
            &&& inner.y == outer.y + 1
            &&& inner.x + inner.width + 1 == outer.x + outer.width
            &&& inner.y + inner.height + 1 == outer.y + outer.height
        }),
{
}

/// A worker that is lost is no longer waited for, and the loss is told where
/// its answer would have been.
pub proof fn law_a_lost_worker_is_told(a: App)
    ensures
        ({
            let b = app::without_worker(a, app::Worker::Detail);
            b.inflight_detail_id is None && !b.detail_loading && b.error is Some
        }),
        ({
            let b = app::without_worker(a, app::Worker::Diff);
            b.inflight_diff_id is None && !b.detail_diff_loading && b.error == a.error
        }),
        ({
            let b = app::without_worker(a, app::Worker::Folder);
            b.inflight_folder_id is None && b.error is Some
        }),
        ({
            let b = app::without_worker(a, app::Worker::FileCheck);
            b.inflight_filecheck_id is None && b.error is Some
        }),
        ({
            let b = app::without_worker(a, app::Worker::Stats);
            b.inflight_stats_id is None && !b.stats_loading && b.stats_error is Some && b.error
                == a.error
        }),
{
    reveal(app::without_worker);
}

/// Revisions are listed system by system, and those of one system from the
/// newest to the oldest.
pub proof fn law_newer_revisions_come_first(a: json::Columns, b: json::Columns)
    ensures
        json::text_or_empty(a, "os_flavor"@) == json::text_or_empty(b, "os_flavor"@) ==> (
        app::revision_before(a, b) <==> crate::text::text_lt(
            json::text_or_empty(b, "timestamp"@),
            json::text_or_empty(a, "timestamp"@),
        )),
        crate::text::text_lt(
            json::text_or_empty(a, "os_flavor"@),
            json::text_or_empty(b, "os_flavor"@),
        ) ==> app::revision_before(a, b) && !app::revision_before(b, a),
{
    let x = json::text_or_empty(a, "os_flavor"@);
    let y = json::text_or_empty(b, "os_flavor"@);
    crate::text::lemma_text_lt_irreflexive(x);
    if crate::text::text_lt(x, y) && crate::text::text_lt(y, x) {
        crate::text::lemma_text_lt_transitive(x, y, x);
    }
}

/// The figures of the catalog are shown once they came, and an error in their
/// place where that came; meanwhile they are awaited.
pub proof fn law_figures_are_shown_when_they_come(
    a: App,
    id: u64,
    stats: json::Columns,
    error: Seq<char>,
)
    requires
        a.inflight_stats_id == Some(id),
    ensures
        ({
            let b = app::with_stats(a, id, Ok(stats));
            b.stats == Some(stats) && b.stats_error is None && !b.stats_loading
        }),
        ({
            let b = app::with_stats(a, id, Err(error));
            b.stats == a.stats && b.stats_error == Some(error) && !b.stats_loading
        }),
        ({
            let b = app::asking_stats(a);
            &&& b.stats_loading
            &&& b.inflight_stats_id == Some(a.next_stats_id)
            &&& b.outbox == a.outbox.push(tui::workers::RequestView::Stats { id: a.next_stats_id })
        }),
{
    reveal(app::with_stats);
    reveal(app::asking_stats);
}

/// Differences that came are shown as they are, and are no longer awaited. The
/// selected revision is compared by its file.
pub proof fn law_differences_are_shown_when_they_come(
    a: App,
    id: u64,
    output: Seq<char>,
    file: Seq<char>,
)
    requires
        a.inflight_diff_id == Some(id),
        file.len() > 0,
    ensures
        ({
            let b = app::diffed(a, id, output);
            b.detail_diff_output == output && !b.detail_diff_loading && b.inflight_diff_id is None
        }),
        a.revisions_selected < a.checkouts.len() && json::text_or_empty(
            a.checkouts[a.revisions_selected as int],
            "physical_path"@,
        ) == file ==> app::selected_revision(a) == Some(file),
        a.revisions_selected >= a.checkouts.len() ==> app::selected_revision(a) is None,
{
    reveal(app::diffed);
}

} // verus!
