//! The state of the browser and what requests and answers do to it.

use vstd::prelude::*;

use crate::json;
use crate::json::{row_string, text_in, Row, Value};
use crate::script_view;
use crate::script_view::logical_parent_dir;
use crate::sorted_map::SortedMap;
use crate::sorting;
use crate::text;
use crate::text::{concat, concat3, same_text, text_before};
use crate::tui::detail_worker;
use crate::tui::detail_worker::{
    CallSites, DependencyItem, DetailRequest, DetailResponse, FunctionCallSite, FunctionItem,
};
use crate::tui::mouse::ClickRegion;
use crate::tui::workers::{
    DiffRequest, DiffResponse, FileCheckRequest, FileCheckResponse, FolderRequest, FolderResponse,
    Request, RequestView, SearchRequest, SearchResponse, StatsRequest, StatsResponse,
};
use crate::tui::{Focus, ViewMode, RESULT_LIMIT};

verus! {

/// What is to be opened in a viewer.
#[derive(Debug)]
pub enum ViewTarget {
    /// The content that the catalog holds.
    Catalog { logical_path: String, content: String },
    /// The file behind the script.
    LiveSource { logical_path: String, native_path: String },
}

/// The value of a view target.
pub enum TargetView {
    Catalog { logical_path: Seq<char>, content: Seq<char> },
    LiveSource { logical_path: Seq<char>, native_path: Seq<char> },
}

impl View for ViewTarget {
    type V = TargetView;

    open spec fn view(&self) -> TargetView {
        match self {
            ViewTarget::Catalog { logical_path, content } => TargetView::Catalog {
                logical_path: logical_path@,
                content: content@,
            },
            ViewTarget::LiveSource { logical_path, native_path } => TargetView::LiveSource {
                logical_path: logical_path@,
                native_path: native_path@,
            },
        }
    }
}

/// The state of the browser.
#[derive(Debug)]
pub struct TuiApp {
    pub query: String,
    pub results: Vec<Row>,
    pub selected: usize,
    /// The result that the list marks.
    pub marked: Option<usize>,
    pub focus: Focus,
    pub mode: ViewMode,
    pub fullscreen: bool,
    pub detail: Option<Row>,
    /// Where the selected script lies on this machine, if a mapping says so.
    pub native_path: Option<String>,
    pub contributors: Vec<String>,
    pub deps: Vec<DependencyItem>,
    pub deps_selected: usize,
    pub functions: Vec<FunctionItem>,
    pub functions_selected: usize,
    pub function_call_sites: CallSites,
    /// The function whose call sites stand in place of the dependencies.
    pub function_xref: Option<String>,
    pub dep_backstack: Vec<String>,
    pub checkouts: Vec<Row>,
    pub revisions_selected: usize,
    pub siblings: Vec<Row>,
    pub sibling_dirs: Vec<String>,
    /// The directory that is browsed, where it is not that of the script.
    pub folder_dir: Option<String>,
    pub folder_focused: bool,
    pub siblings_selected: usize,
    pub folder_backstack: Vec<String>,
    pub error: Option<String>,
    pub flash: Option<String>,
    pub preview_scroll: u16,
    pub revisions_scroll: u16,
    pub detail_scroll: u16,
    pub detail_diff_scroll: u16,
    pub detail_diff_output: String,
    pub detail_diff_loading: bool,
    pub detail_loading: bool,
    pub search_in_flight: bool,
    pub cached_preview: String,
    pub preview_total_lines: usize,
    pub pending_query: Option<String>,
    /// When the query was last changed, in milliseconds.
    pub last_keystroke_at: Option<u64>,
    pub pending_view: Option<ViewTarget>,
    pub stats: Option<Row>,
    pub stats_error: Option<String>,
    pub stats_loading: bool,
    pub inflight_query_id: Option<u64>,
    pub next_query_id: u64,
    pub inflight_detail_id: Option<u64>,
    pub next_detail_id: u64,
    pub inflight_diff_id: Option<u64>,
    pub next_diff_id: u64,
    pub inflight_folder_id: Option<u64>,
    pub next_folder_id: u64,
    pub inflight_filecheck_id: Option<u64>,
    pub next_filecheck_id: u64,
    pub inflight_stats_id: Option<u64>,
    pub next_stats_id: u64,
    pub tick: u64,
    pub needs_redraw: bool,
    pub force_full_redraw: bool,
    /// The panes of the last frame.
    pub click_regions: Vec<ClickRegion>,
    /// The cell and the time of the last left click.
    pub last_click: Option<(u16, u16, u64)>,
    /// What is to be sent to the workers.
    pub outbox: Vec<Request>,
}

/// The value of the state.
pub struct App {
    pub query: Seq<char>,
    pub results: Seq<json::Columns>,
    pub selected: usize,
    pub marked: Option<usize>,
    pub focus: Focus,
    pub mode: ViewMode,
    pub fullscreen: bool,
    pub detail: Option<json::Columns>,
    pub native_path: Option<Seq<char>>,
    pub contributors: Seq<Seq<char>>,
    pub deps: Seq<detail_worker::DependencyView>,
    pub deps_selected: usize,
    pub functions: Seq<detail_worker::FunctionView>,
    pub functions_selected: usize,
    pub call_sites: Map<Seq<char>, Seq<detail_worker::CallSiteView>>,
    pub function_xref: Option<Seq<char>>,
    pub dep_backstack: Seq<Seq<char>>,
    pub checkouts: Seq<json::Columns>,
    pub revisions_selected: usize,
    pub siblings: Seq<json::Columns>,
    pub sibling_dirs: Seq<Seq<char>>,
    pub folder_dir: Option<Seq<char>>,
    pub folder_focused: bool,
    pub siblings_selected: usize,
    pub folder_backstack: Seq<Seq<char>>,
    pub error: Option<Seq<char>>,
    pub flash: Option<Seq<char>>,
    pub preview_scroll: u16,
    pub revisions_scroll: u16,
    pub detail_scroll: u16,
    pub detail_diff_scroll: u16,
    pub detail_diff_output: Seq<char>,
    pub detail_diff_loading: bool,
    pub detail_loading: bool,
    pub search_in_flight: bool,
    pub cached_preview: Seq<char>,
    pub preview_total_lines: usize,
    pub pending_query: Option<Seq<char>>,
    pub last_keystroke_at: Option<u64>,
    pub pending_view: Option<TargetView>,
    pub stats: Option<json::Columns>,
    pub stats_error: Option<Seq<char>>,
    pub stats_loading: bool,
    pub inflight_query_id: Option<u64>,
    pub next_query_id: u64,
    pub inflight_detail_id: Option<u64>,
    pub next_detail_id: u64,
    pub inflight_diff_id: Option<u64>,
    pub next_diff_id: u64,
    pub inflight_folder_id: Option<u64>,
    pub next_folder_id: u64,
    pub inflight_filecheck_id: Option<u64>,
    pub next_filecheck_id: u64,
    pub inflight_stats_id: Option<u64>,
    pub next_stats_id: u64,
    pub tick: u64,
    pub needs_redraw: bool,
    pub force_full_redraw: bool,
    pub click_regions: Seq<ClickRegion>,
    pub last_click: Option<(u16, u16, u64)>,
    pub outbox: Seq<RequestView>,
}

/// The view of an optional text.
pub open spec fn opt_text(s: Option<String>) -> Option<Seq<char>> {
    match s {
        Some(s) => Some(s@),
        None => None,
    }
}

/// The columns of an optional row.
pub open spec fn opt_row(r: Option<Row>) -> Option<json::Columns> {
    match r {
        Some(r) => Some(r@),
        None => None,
    }
}

/// The call sites by function.
pub open spec fn sites_view(m: Map<Seq<char>, Vec<FunctionCallSite>>) -> Map<
    Seq<char>,
    Seq<detail_worker::CallSiteView>,
> {
    m.map_values(|v: Vec<FunctionCallSite>| detail_worker::site_views(v@))
}

/// The values of requests.
pub open spec fn request_views(v: Seq<Request>) -> Seq<RequestView> {
    v.map_values(|r: Request| r@)
}

impl View for TuiApp {
    type V = App;

    open spec fn view(&self) -> App {
        App {
            query: self.query@,
            results: json::row_columns(self.results@),
            selected: self.selected,
            marked: self.marked,
            focus: self.focus,
            mode: self.mode,
            fullscreen: self.fullscreen,
            detail: opt_row(self.detail),
            native_path: opt_text(self.native_path),
            contributors: text::views(self.contributors@),
            deps: detail_worker::dependency_views(self.deps@),
            deps_selected: self.deps_selected,
            functions: detail_worker::function_views(self.functions@),
            functions_selected: self.functions_selected,
            call_sites: sites_view(self.function_call_sites@),
            function_xref: opt_text(self.function_xref),
            dep_backstack: text::views(self.dep_backstack@),
            checkouts: json::row_columns(self.checkouts@),
            revisions_selected: self.revisions_selected,
            siblings: json::row_columns(self.siblings@),
            sibling_dirs: text::views(self.sibling_dirs@),
            folder_dir: opt_text(self.folder_dir),
            folder_focused: self.folder_focused,
            siblings_selected: self.siblings_selected,
            folder_backstack: text::views(self.folder_backstack@),
            error: opt_text(self.error),
            flash: opt_text(self.flash),
            preview_scroll: self.preview_scroll,
            revisions_scroll: self.revisions_scroll,
            detail_scroll: self.detail_scroll,
            detail_diff_scroll: self.detail_diff_scroll,
            detail_diff_output: self.detail_diff_output@,
            detail_diff_loading: self.detail_diff_loading,
            detail_loading: self.detail_loading,
            search_in_flight: self.search_in_flight,
            cached_preview: self.cached_preview@,
            preview_total_lines: self.preview_total_lines,
            pending_query: opt_text(self.pending_query),
            last_keystroke_at: self.last_keystroke_at,
            pending_view: match self.pending_view {
                Some(v) => Some(v@),
                None => None,
            },
            stats: opt_row(self.stats),
            stats_error: opt_text(self.stats_error),
            stats_loading: self.stats_loading,
            inflight_query_id: self.inflight_query_id,
            next_query_id: self.next_query_id,
            inflight_detail_id: self.inflight_detail_id,
            next_detail_id: self.next_detail_id,
            inflight_diff_id: self.inflight_diff_id,
            next_diff_id: self.next_diff_id,
            inflight_folder_id: self.inflight_folder_id,
            next_folder_id: self.next_folder_id,
            inflight_filecheck_id: self.inflight_filecheck_id,
            next_filecheck_id: self.next_filecheck_id,
            inflight_stats_id: self.inflight_stats_id,
            next_stats_id: self.next_stats_id,
            tick: self.tick,
            needs_redraw: self.needs_redraw,
            force_full_redraw: self.force_full_redraw,
            click_regions: self.click_regions@,
            last_click: self.last_click,
            outbox: request_views(self.outbox@),
        }
    }
}

impl TuiApp {
    /// Whether every row and map is in order.
    pub open spec fn wf(&self) -> bool {
        &&& json::rows_wf(self.results@)
        &&& self.detail matches Some(row) ==> row.wf()
        &&& self.function_call_sites.wf()
        &&& json::rows_wf(self.checkouts@)
        &&& json::rows_wf(self.siblings@)
        &&& self.stats matches Some(row) ==> row.wf()
    }
}

// ---------------------------------------------------------------------------
// What the state says
// ---------------------------------------------------------------------------

/// The number behind `id`; the last number has none.
pub open spec fn id_after(id: u64) -> u64 {
    if id < u64::MAX {
        (id + 1) as u64
    } else {
        id
    }
}

/// The path of a result; `None` where there is no such result or it has none.
pub open spec fn path_at(results: Seq<json::Columns>, i: int) -> Option<Seq<char>> {
    if 0 <= i < results.len() {
        json::column_text(results[i], "logical_path"@)
    } else {
        None
    }
}

/// A path that is not empty.
pub open spec fn not_empty(path: Option<Seq<char>>) -> Option<Seq<char>> {
    match path {
        Some(p) => if p.len() > 0 {
            Some(p)
        } else {
            None
        },
        None => None,
    }
}

/// The path of the script that is shown, or else of the selected result.
#[verifier::opaque]
pub open spec fn current_path(a: App) -> Option<Seq<char>> {
    let shown = match a.detail {
        Some(row) => not_empty(json::column_text(row, "logical_path"@)),
        None => None,
    };
    if shown is Some {
        shown
    } else {
        not_empty(path_at(a.results, a.selected as int))
    }
}

/// The call sites that stand in place of the dependencies.
#[verifier::opaque]
pub open spec fn xref_sites(a: App) -> Option<Seq<detail_worker::CallSiteView>> {
    match a.function_xref {
        Some(name) => if a.call_sites.contains_key(name) && a.call_sites[name].len() > 0 {
            Some(a.call_sites[name])
        } else {
            None
        },
        None => None,
    }
}

/// How many entries the Deps pane has.
pub open spec fn target_count(a: App) -> nat {
    match xref_sites(a) {
        Some(sites) => sites.len(),
        None => a.deps.len(),
    }
}

/// The script that the selected entry of the Deps pane leads to.
pub open spec fn dependency_target(a: App) -> Option<Seq<char>> {
    match xref_sites(a) {
        Some(sites) => if a.deps_selected < sites.len() {
            Some(sites[a.deps_selected as int].caller_path)
        } else {
            None
        },
        None => if a.deps_selected < a.deps.len() {
            Some(a.deps[a.deps_selected as int].path)
        } else {
            None
        },
    }
}

/// The directory that the Folder section shows.
#[verifier::opaque]
pub open spec fn shown_dir(a: App) -> Seq<char> {
    match a.folder_dir {
        Some(dir) => dir,
        None => match a.detail {
            Some(row) => script_view::parent_path(json::text_or_empty(row, "logical_path"@)),
            None => seq![],
        },
    }
}

/// How many entries the Folder section has; as many as a count can hold.
pub open spec fn entry_count(a: App) -> nat {
    let n = a.sibling_dirs.len() + a.siblings.len();
    if n <= usize::MAX {
        n
    } else {
        usize::MAX as nat
    }
}

// ---------------------------------------------------------------------------
// What happens to the state
// ---------------------------------------------------------------------------

/// The state with one more request to send.
pub open spec fn asking(a: App, r: RequestView) -> App {
    App { outbox: a.outbox.push(r), ..a }
}

/// The state after the query was sent.
#[verifier::opaque]
pub open spec fn querying(a: App) -> App {
    let b = App {
        error: None,
        next_query_id: id_after(a.next_query_id),
        pending_query: None,
        inflight_query_id: Some(a.next_query_id),
        search_in_flight: true,
        ..a
    };
    asking(b, RequestView::Search { id: a.next_query_id, query: a.query, limit: RESULT_LIMIT })
}

/// The state after the query was changed at the time `now`.
#[verifier::opaque]
pub open spec fn scheduling(a: App, now: u64) -> App {
    App { pending_query: Some(a.query), last_keystroke_at: Some(now), ..a }
}

/// The state without a script to show.
#[verifier::opaque]
pub open spec fn without_script(a: App) -> App {
    App {
        inflight_detail_id: None,
        detail_loading: false,
        detail: None,
        native_path: None,
        contributors: seq![],
        deps: seq![],
        deps_selected: 0,
        functions: seq![],
        functions_selected: 0,
        call_sites: Map::empty(),
        function_xref: None,
        checkouts: seq![],
        revisions_selected: 0,
        siblings: seq![],
        sibling_dirs: seq![],
        folder_dir: None,
        folder_focused: false,
        siblings_selected: 0,
        inflight_folder_id: None,
        ..a
    }
}

/// The state after the selected result was asked for: what is shown stays until
/// the answer comes, but every pane starts at its top.
#[verifier::opaque]
pub open spec fn loading(a: App) -> App {
    let b = App {
        marked: if a.results.len() == 0 {
            None
        } else {
            Some(a.selected)
        },
        ..a
    };
    match path_at(a.results, a.selected as int) {
        None => App { cached_preview: seq![], preview_total_lines: 0, ..without_script(b) },
        Some(path) => asking(
            App {
                next_detail_id: id_after(a.next_detail_id),
                inflight_detail_id: Some(a.next_detail_id),
                detail_loading: true,
                error: None,
                preview_scroll: 0,
                revisions_scroll: 0,
                detail_scroll: 0,
                deps_selected: 0,
                functions_selected: 0,
                function_xref: None,
                revisions_selected: 0,
                folder_dir: None,
                folder_focused: false,
                siblings_selected: 0,
                inflight_folder_id: None,
                ..b
            },
            RequestView::Detail { id: a.next_detail_id, path },
        ),
    }
}

/// The state with new results: the selection stays where it can.
#[verifier::opaque]
pub open spec fn with_results(a: App, results: Seq<json::Columns>) -> App {
    let b = App { error: None, results, marked: None, ..a };
    if results.len() == 0 {
        App {
            selected: 0,
            dep_backstack: seq![],
            folder_backstack: seq![],
            ..without_script(b)
        }
    } else {
        loading(
            App {
                selected: if a.selected >= results.len() {
                    (results.len() - 1) as usize
                } else {
                    a.selected
                },
                ..b
            },
        )
    }
}

/// The state after the answer to a query; an answer to another query than the
/// last one is ignored.
#[verifier::opaque]
pub open spec fn answered(
    a: App,
    id: u64,
    results: Result<Seq<json::Columns>, Seq<char>>,
) -> App {
    if a.inflight_query_id != Some(id) {
        a
    } else {
        let b = App { search_in_flight: false, inflight_query_id: None, ..a };
        match results {
            Ok(rows) => with_results(b, rows),
            Err(e) => App { error: Some(e), ..b },
        }
    }
}

/// The state with the result `i` selected.
pub open spec fn selecting(a: App, i: usize) -> App {
    loading(App { selected: i, ..a })
}

/// The index of the first result with the path `path`.
pub open spec fn result_index(results: Seq<json::Columns>, path: Seq<char>) -> int
    decreases results.len(),
{
    if results.len() == 0 || path_at(results, 0) == Some(path) {
        0
    } else {
        1 + result_index(results.drop_first(), path)
    }
}

/// A row with a path alone.
pub open spec fn path_row(path: Seq<char>) -> json::Columns {
    Map::empty().insert("logical_path"@, json::ValueView::Text(path))
}

/// The state after going to the script `path`: its result is selected, which
/// is added to the results where it is not among them.
#[verifier::opaque]
pub open spec fn going_to(a: App, path: Seq<char>) -> App {
    let i = result_index(a.results, path);
    if 0 <= i < a.results.len() {
        selecting(a, i as usize)
    } else {
        selecting(
            App { results: a.results.push(path_row(path)), ..a },
            a.results.len() as usize,
        )
    }
}

/// The state after the selected dependency was opened.
#[verifier::opaque]
pub open spec fn opening_dependency(a: App) -> App {
    match (dependency_target(a), current_path(a)) {
        (Some(target), Some(path)) => going_to(
            App { dep_backstack: a.dep_backstack.push(path), ..a },
            target,
        ),
        _ => a,
    }
}

/// The state after going back to the script that a dependency was opened from.
#[verifier::opaque]
pub open spec fn going_back(a: App) -> App {
    if a.dep_backstack.len() > 0 {
        going_to(
            App { dep_backstack: a.dep_backstack.drop_last(), ..a },
            a.dep_backstack.last(),
        )
    } else {
        a
    }
}

/// The state after a jump to the selected function: the preview starts at its
/// line and its call sites are listed.
#[verifier::opaque]
pub open spec fn at_function(a: App) -> App {
    if a.functions_selected < a.functions.len() {
        let f = a.functions[a.functions_selected as int];
        App {
            preview_scroll: if f.line == 0 {
                0
            } else {
                (f.line - 1) as u16
            },
            function_xref: Some(f.name),
            deps_selected: 0,
            focus: Focus::Preview,
            ..a
        }
    } else {
        a
    }
}

/// The state after a directory was asked for.
#[verifier::opaque]
pub open spec fn asking_folder(a: App, dir: Seq<char>) -> App {
    asking(
        App {
            next_folder_id: id_after(a.next_folder_id),
            inflight_folder_id: Some(a.next_folder_id),
            ..a
        },
        RequestView::Folder { id: a.next_folder_id, dir },
    )
}

/// The state after going up from the directory that is shown; there is no way
/// up from the root.
#[verifier::opaque]
pub open spec fn going_up(a: App) -> App {
    let dir = shown_dir(a);
    if dir.len() == 0 || dir == "/"@ {
        a
    } else {
        asking_folder(a, script_view::parent_path(dir))
    }
}

/// The directory `name` in `dir`.
pub open spec fn child_dir(dir: Seq<char>, name: Seq<char>) -> Seq<char> {
    if dir == "/"@ {
        "/"@ + name
    } else {
        dir + "/"@ + name
    }
}

/// The script that the selected entry of the Folder section is.
pub open spec fn sibling_target(a: App) -> Option<Seq<char>> {
    let i = a.siblings_selected - a.sibling_dirs.len();
    if 0 <= i < a.siblings.len() {
        not_empty(Some(json::text_or_empty(a.siblings[i], "logical_path"@)))
    } else {
        None
    }
}

/// The state after the selected entry of the Folder section was opened: a
/// directory is asked for, to a script the browser goes.
#[verifier::opaque]
pub open spec fn opening_entry(a: App) -> App {
    if a.siblings_selected < a.sibling_dirs.len() {
        asking_folder(a, child_dir(shown_dir(a), a.sibling_dirs[a.siblings_selected as int]))
    } else {
        match sibling_target(a) {
            Some(target) => going_to(leaving_folder(a), target),
            None => a,
        }
    }
}

/// The state after the Folder section was left for a script, with the way back.
#[verifier::opaque]
pub open spec fn leaving_folder(a: App) -> App {
    App {
        folder_backstack: match current_path(a) {
            Some(path) => a.folder_backstack.push(path),
            None => a.folder_backstack,
        },
        folder_focused: false,
        ..a
    }
}

/// The state after going back from a script that was opened in the Folder
/// section; without one, the section is left.
#[verifier::opaque]
pub open spec fn folder_back(a: App) -> App {
    if a.folder_backstack.len() > 0 {
        going_to(
            App { folder_backstack: a.folder_backstack.drop_last(), ..a },
            a.folder_backstack.last(),
        )
    } else {
        App { folder_focused: false, ..a }
    }
}

/// The state after a directory was listed; an answer to another request than
/// the last one is ignored.
#[verifier::opaque]
pub open spec fn listed(
    a: App,
    id: u64,
    dir: Seq<char>,
    result: Result<(Seq<Seq<char>>, Seq<json::Columns>), Seq<char>>,
) -> App {
    if a.inflight_folder_id != Some(id) {
        a
    } else {
        match result {
            Ok((dirs, scripts)) => App {
                inflight_folder_id: None,
                error: None,
                folder_dir: Some(dir),
                sibling_dirs: dirs,
                siblings: scripts,
                siblings_selected: 0,
                ..a
            },
            Err(e) => App { inflight_folder_id: None, error: Some(e), ..a },
        }
    }
}

/// The state after the differences to a revision were asked for.
#[verifier::opaque]
pub open spec fn diffing(a: App, revision: Option<Seq<char>>) -> App {
    match current_path(a) {
        None => App {
            detail_diff_scroll: 0,
            detail_diff_output: "No script selected."@,
            detail_diff_loading: false,
            ..a
        },
        Some(path) => asking(
            App {
                detail_diff_scroll: 0,
                next_diff_id: id_after(a.next_diff_id),
                detail_diff_loading: true,
                detail_diff_output: seq![],
                inflight_diff_id: Some(a.next_diff_id),
                ..a
            },
            RequestView::Diff { id: a.next_diff_id, path, revision },
        ),
    }
}

/// The file of the selected revision.
pub open spec fn selected_revision(a: App) -> Option<Seq<char>> {
    if a.revisions_selected < a.checkouts.len() {
        not_empty(
            Some(json::text_or_empty(a.checkouts[a.revisions_selected as int], "physical_path"@)),
        )
    } else {
        None
    }
}

/// The state after the differences came; an answer to another request than the
/// last one is ignored.
#[verifier::opaque]
pub open spec fn diffed(a: App, id: u64, output: Seq<char>) -> App {
    if a.inflight_diff_id != Some(id) {
        a
    } else {
        App {
            inflight_diff_id: None,
            detail_diff_loading: false,
            detail_diff_output: output,
            ..a
        }
    }
}

/// Why the selected script cannot be opened in a viewer.
pub open spec fn no_view_reason(a: App) -> Option<Seq<char>> {
    if a.detail_loading {
        Some("Script is still loading."@)
    } else {
        match a.detail {
            None => Some("No script selected."@),
            Some(row) => if json::text_or_empty(row, "logical_path"@).len() == 0 {
                Some("Selected script has no logical path."@)
            } else {
                None
            },
        }
    }
}

/// The state after the content of the catalog was asked to be viewed.
#[verifier::opaque]
pub open spec fn viewing_catalog(a: App) -> App {
    match no_view_reason(a) {
        Some(reason) => App { error: Some(reason), ..a },
        None => {
            let row = a.detail.unwrap();
            App {
                error: None,
                pending_view: Some(
                    TargetView::Catalog {
                        logical_path: json::text_or_empty(row, "logical_path"@),
                        content: json::text_or_empty(row, "content"@),
                    },
                ),
                ..a
            }
        },
    }
}

/// The state after the file behind the script was asked to be viewed: first the
/// file is looked for.
#[verifier::opaque]
pub open spec fn checking_file(a: App) -> App {
    match no_view_reason(a) {
        Some(reason) => App { error: Some(reason), ..a },
        None => {
            let path = json::text_or_empty(a.detail.unwrap(), "logical_path"@);
            let native = match a.native_path {
                Some(p) => p,
                None => path,
            };
            asking(
                App {
                    error: None,
                    next_filecheck_id: id_after(a.next_filecheck_id),
                    inflight_filecheck_id: Some(a.next_filecheck_id),
                    ..a
                },
                RequestView::FileCheck {
                    id: a.next_filecheck_id,
                    logical_path: path,
                    native_path: native,
                    mapped: native != path,
                },
            )
        },
    }
}

/// The state after the file was looked for; an answer to another request than
/// the last one is ignored.
#[verifier::opaque]
pub open spec fn checked_file(
    a: App,
    id: u64,
    logical_path: Seq<char>,
    native_path: Seq<char>,
    mapped: bool,
    exists_now: bool,
) -> App {
    if a.inflight_filecheck_id != Some(id) {
        a
    } else if exists_now {
        App {
            inflight_filecheck_id: None,
            error: None,
            pending_view: Some(TargetView::LiveSource { logical_path, native_path }),
            ..a
        }
    } else if mapped {
        App {
            inflight_filecheck_id: None,
            error: Some("Live source not found at "@ + native_path),
            ..a
        }
    } else {
        App {
            inflight_filecheck_id: None,
            error: Some(
                "No filesystem mapping for "@ + logical_path
                    + ", and no file exists at that path; configure a path mapping to open the live source."@,
            ),
            ..a
        }
    }
}

/// The state after the figures of the catalog were asked for.
#[verifier::opaque]
pub open spec fn asking_stats(a: App) -> App {
    asking(
        App {
            next_stats_id: id_after(a.next_stats_id),
            stats_loading: true,
            stats_error: None,
            inflight_stats_id: Some(a.next_stats_id),
            ..a
        },
        RequestView::Stats { id: a.next_stats_id },
    )
}

/// The state after the figures came; an answer to another request than the last
/// one is ignored.
#[verifier::opaque]
pub open spec fn with_stats(
    a: App,
    id: u64,
    result: Result<json::Columns, Seq<char>>,
) -> App {
    if a.inflight_stats_id != Some(id) {
        a
    } else {
        match result {
            Ok(stats) => App {
                inflight_stats_id: None,
                stats_loading: false,
                stats: Some(stats),
                stats_error: None,
                ..a
            },
            Err(e) => App {
                inflight_stats_id: None,
                stats_loading: false,
                stats_error: Some(e),
                ..a
            },
        }
    }
}

/// The state after the selected path was asked to be copied.
#[verifier::opaque]
pub open spec fn copying(a: App) -> App {
    match current_path(a) {
        Some(path) => asking(a, RequestView::Copy { text: path }),
        None => a,
    }
}

/// The state after the attempt to copy a path.
#[verifier::opaque]
pub open spec fn copied(a: App, path: Seq<char>, failure: Option<Seq<char>>) -> App {
    match failure {
        None => App { flash: Some("Copied "@ + path), force_full_redraw: true, ..a },
        Some(e) => App { error: Some("Copy failed: "@ + e), ..a },
    }
}

/// The order of revisions: by system, and of one system the newest first.
pub open spec fn revision_order() -> spec_fn(json::Columns, json::Columns) -> bool {
    |a: json::Columns, b: json::Columns| revision_before(a, b)
}

/// Whether the revision `a` stands before `b`.
pub open spec fn revision_before(a: json::Columns, b: json::Columns) -> bool {
    let os_a = json::text_or_empty(a, "os_flavor"@);
    let os_b = json::text_or_empty(b, "os_flavor"@);
    text::text_lt(os_a, os_b) || (os_a == os_b && text::text_lt(
        json::text_or_empty(b, "timestamp"@),
        json::text_or_empty(a, "timestamp"@),
    ))
}

/// Revisions in their order.
pub open spec fn sort_revisions(rows: Seq<json::Columns>) -> Seq<json::Columns> {
    sorting::sort_by(rows, revision_order())
}

/// The state with what is shown of the selected script; an answer to another
/// request than the last one is ignored.
#[verifier::opaque]
pub open spec fn showing(a: App, id: u64, p: detail_worker::DetailPayload) -> App {
    if a.inflight_detail_id != Some(id) {
        a
    } else {
        App {
            inflight_detail_id: None,
            detail_loading: false,
            detail: opt_row(p.detail),
            native_path: opt_text(p.native_path),
            contributors: text::views(p.contributors@),
            deps: detail_worker::dependency_views(p.deps@),
            functions: detail_worker::function_views(p.functions@),
            call_sites: sites_view(p.function_call_sites@),
            deps_selected: 0,
            functions_selected: 0,
            function_xref: None,
            checkouts: sort_revisions(json::row_columns(p.checkouts@)),
            revisions_selected: 0,
            siblings: json::row_columns(p.siblings@),
            sibling_dirs: text::views(p.sibling_dirs@),
            cached_preview: p.cached_preview@,
            preview_total_lines: p.preview_total_lines,
            error: if p.error is Some {
                opt_text(p.error)
            } else {
                a.error
            },
            ..a
        }
    }
}

/// A worker of the browser.
#[derive(Debug, Clone, Copy, PartialEq, Eq, Structural)]
pub enum Worker {
    Detail,
    Diff,
    Folder,
    FileCheck,
    Stats,
}

/// The state after a worker was lost: what it was to answer is no longer
/// awaited.
#[verifier::opaque]
pub open spec fn without_worker(a: App, w: Worker) -> App {
    match w {
        Worker::Detail => App {
            inflight_detail_id: None,
            detail_loading: false,
            error: Some("Detail worker disconnected unexpectedly"@),
            needs_redraw: true,
            ..a
        },
        Worker::Diff => App {
            inflight_diff_id: None,
            detail_diff_loading: false,
            detail_diff_output: "Diff worker disconnected unexpectedly."@,
            needs_redraw: true,
            ..a
        },
        Worker::Folder => App {
            inflight_folder_id: None,
            error: Some("Folder worker disconnected unexpectedly"@),
            needs_redraw: true,
            ..a
        },
        Worker::FileCheck => App {
            inflight_filecheck_id: None,
            error: Some("File-check worker disconnected unexpectedly."@),
            needs_redraw: true,
            ..a
        },
        Worker::Stats => App {
            inflight_stats_id: None,
            stats_loading: false,
            stats_error: Some("Stats worker disconnected unexpectedly"@),
            needs_redraw: true,
            ..a
        },
    }
}

/// The state before anything happened.
pub open spec fn at_start() -> App {
    App {
        query: seq![],
        results: seq![],
        selected: 0,
        marked: None,
        focus: Focus::Search,
        mode: ViewMode::Browse,
        fullscreen: false,
        detail: None,
        native_path: None,
        contributors: seq![],
        deps: seq![],
        deps_selected: 0,
        functions: seq![],
        functions_selected: 0,
        call_sites: Map::empty(),
        function_xref: None,
        dep_backstack: seq![],
        checkouts: seq![],
        revisions_selected: 0,
        siblings: seq![],
        sibling_dirs: seq![],
        folder_dir: None,
        folder_focused: false,
        siblings_selected: 0,
        folder_backstack: seq![],
        error: None,
        flash: None,
        preview_scroll: 0,
        revisions_scroll: 0,
        detail_scroll: 0,
        detail_diff_scroll: 0,
        detail_diff_output: seq![],
        detail_diff_loading: false,
        detail_loading: false,
        search_in_flight: false,
        cached_preview: seq![],
        preview_total_lines: 0,
        pending_query: None,
        last_keystroke_at: None,
        pending_view: None,
        stats: None,
        stats_error: None,
        stats_loading: false,
        inflight_query_id: None,
        next_query_id: 0,
        inflight_detail_id: None,
        next_detail_id: 0,
        inflight_diff_id: None,
        next_diff_id: 0,
        inflight_folder_id: None,
        next_folder_id: 0,
        inflight_filecheck_id: None,
        next_filecheck_id: 0,
        inflight_stats_id: None,
        next_stats_id: 0,
        tick: 0,
        needs_redraw: true,
        force_full_redraw: false,
        click_regions: seq![],
        last_click: None,
        outbox: seq![],
    }
}

// ---------------------------------------------------------------------------
// The executable side
// ---------------------------------------------------------------------------

/// The number behind `id`.
fn next_id(id: u64) -> (next: u64)
    ensures
        next == id_after(id),
{
    if id < u64::MAX {
        id + 1
    } else {
        id
    }
}

/// The path of a result.
fn path_of_result(results: &Vec<Row>, i: usize) -> (path: Option<String>)
    requires
        json::rows_wf(results@),
    ensures
        opt_text(path) == path_at(json::row_columns(results@), i as int),
{
    if i < results.len() {
        match text_in(&results[i], "logical_path") {
            Some(p) => Some(p.clone()),
            None => None,
        }
    } else {
        None
    }
}

/// Inserts a revision into revisions in order.
fn insert_revision(list: &mut Vec<Row>, row: Row)
    requires
        json::rows_wf(old(list)@),
        row.wf(),
    ensures
        json::rows_wf(final(list)@),
        json::row_columns(final(list)@) == sorting::insert_by(
            json::row_columns(old(list)@),
            row@,
            revision_order(),
        ),
{
    let ghost all = json::row_columns(list@);
    let os: String = row_string(&row, "os_flavor");
    let stamp: String = row_string(&row, "timestamp");
    let mut i: usize = list.len();
    let mut found: bool = false;
    while i > 0 && !found
        invariant
            i <= list@.len(),
            list@ == old(list)@,
            json::rows_wf(list@),
            all == json::row_columns(list@),
            os@ == json::text_or_empty(row@, "os_flavor"@),
            stamp@ == json::text_or_empty(row@, "timestamp"@),
            forall|j: int| i <= j < all.len() ==> (revision_order())(row@, #[trigger] all[j]),
            found ==> i > 0 && !(revision_order())(row@, all[i - 1]),
        decreases i, if found { 0int } else { 1int },
    {
        assert(all[i - 1] == list@[i - 1]@);
        let other: &Row = &list[i - 1];
        let other_os: String = row_string(other, "os_flavor");
        let other_stamp: String = row_string(other, "timestamp");
        if text_before(os.as_str(), other_os.as_str()) || (same_text(
            os.as_str(),
            other_os.as_str(),
        ) && text_before(other_stamp.as_str(), stamp.as_str())) {
            i = i - 1;
        } else {
            found = true;
        }
    }
    proof {
        sorting::lemma_insert_by_at(all, row@, revision_order(), i as int);
    }
    list.insert(i, row);
    assert(json::row_columns(list@) =~= all.insert(i as int, row@));
}

/// Revisions in their order.
pub fn sort_checkouts(checkouts: Vec<Row>) -> (sorted: Vec<Row>)
    requires
        json::rows_wf(checkouts@),
    ensures
        json::rows_wf(sorted@),
        json::row_columns(sorted@) == sort_revisions(json::row_columns(checkouts@)),
{
    let ghost all = json::row_columns(checkouts@);
    let ghost n = checkouts@.len() as int;
    let mut rest: Vec<Row> = Vec::new();
    let mut from: Vec<Row> = checkouts;
    while from.len() > 0
        invariant
            json::rows_wf(from@),
            json::rows_wf(rest@),
            from@.len() + rest@.len() == n,
            n == all.len(),
            forall|j: int| 0 <= j < from@.len() ==> (#[trigger] from@[j])@ == all[j],
            forall|j: int| 0 <= j < rest@.len() ==> (#[trigger] rest@[j])@ == all[n - 1 - j],
        decreases from@.len(),
    {
        let ghost before = from@;
        match from.pop() {
            Some(row) => {
                assert(row == before.last());
                rest.push(row);
            },
            None => {},
        }
        assert(from@ =~= before.drop_last());
    }
    let mut sorted: Vec<Row> = Vec::new();
    assert(all.take(0) =~= seq![]);
    assert(json::row_columns(sorted@) =~= sort_revisions(all.take(0)));
    let ghost mut done: int = 0;
    while rest.len() > 0
        invariant
            json::rows_wf(rest@),
            json::rows_wf(sorted@),
            0 <= done <= n,
            rest@.len() == n - done,
            n == all.len(),
            forall|j: int| 0 <= j < rest@.len() ==> (#[trigger] rest@[j])@ == all[n - 1 - j],
            json::row_columns(sorted@) == sort_revisions(all.take(done)),
        decreases rest@.len(),
    {
        let ghost before = rest@;
        match rest.pop() {
            Some(row) => {
                assert(row == before.last());
                assert(row@ == all[done]);
                insert_revision(&mut sorted, row);
                proof {
                    assert(all.take(done + 1).drop_last() =~= all.take(done));
                    assert(all.take(done + 1).last() == all[done]);
                    done = done + 1;
                }
            },
            None => {},
        }
        assert(rest@ =~= before.drop_last());
    }
    assert(all.take(n) =~= all);
    sorted
}

/// The revisions are shown by system and of one system from the newest to the
/// oldest, none is lost and none is shown twice.
pub proof fn law_revisions_are_in_order(rows: Seq<json::Columns>)
    ensures
        sort_revisions(rows).to_multiset() == rows.to_multiset(),
        sorting::in_order(sort_revisions(rows), revision_order()),
{
    assert forall|a: json::Columns, b: json::Columns| #[trigger] (revision_order())(a, b) implies !(
    revision_order())(b, a) by {
        lemma_revision_order(a, b, a);
    }
    assert forall|a: json::Columns, b: json::Columns, c: json::Columns|
        !#[trigger] (revision_order())(a, b) && !#[trigger] (revision_order())(b, c) implies !(
    revision_order())(a, c) by {
        lemma_revision_order(a, b, c);
    }
    sorting::law_sorting_orders_the_same_items(rows, revision_order());
}

/// Of two revisions at most one stands before the other, and standing at or
/// behind passes on.
proof fn lemma_revision_order(a: json::Columns, b: json::Columns, c: json::Columns)
    ensures
        revision_before(a, b) ==> !revision_before(b, a),
        !revision_before(a, b) && !revision_before(b, c) ==> !revision_before(a, c),
{
    let (oa, ob, oc) = (
        json::text_or_empty(a, "os_flavor"@),
        json::text_or_empty(b, "os_flavor"@),
        json::text_or_empty(c, "os_flavor"@),
    );
    let (ta, tb, tc) = (
        json::text_or_empty(a, "timestamp"@),
        json::text_or_empty(b, "timestamp"@),
        json::text_or_empty(c, "timestamp"@),
    );
    sorting::lemma_text_order();
    let lt = sorting::text_order();
    assert(lt(oa, ob) == text::text_lt(oa, ob) && lt(ob, oa) == text::text_lt(ob, oa));
    assert(lt(ob, oc) == text::text_lt(ob, oc) && lt(oc, ob) == text::text_lt(oc, ob));
    assert(lt(oa, oc) == text::text_lt(oa, oc) && lt(oc, oa) == text::text_lt(oc, oa));
    assert(lt(ta, tb) == text::text_lt(ta, tb) && lt(tb, ta) == text::text_lt(tb, ta));
    assert(lt(tb, tc) == text::text_lt(tb, tc) && lt(tc, tb) == text::text_lt(tc, tb));
    assert(lt(ta, tc) == text::text_lt(ta, tc) && lt(tc, ta) == text::text_lt(tc, ta));
    text::lemma_text_lt_total(oa, ob);
    text::lemma_text_lt_total(ob, oc);
    text::lemma_text_lt_total(oa, oc);
    text::lemma_text_lt_irreflexive(oa);
    text::lemma_text_lt_irreflexive(ob);
}

/// What is put at the end of the outbox.
proof fn lemma_outbox(v: Seq<Request>, r: Request)
    ensures
        request_views(v.push(r)) == request_views(v).push(r@),
{
    assert(request_views(v.push(r)) =~= request_views(v).push(r@));
}

/// What is put at the end of texts, and what is taken from there.
proof fn lemma_stack(v: Seq<String>, s: String)
    ensures
        text::views(v.push(s)) == text::views(v).push(s@),
        v.len() > 0 ==> text::views(v.drop_last()) == text::views(v).drop_last(),
        v.len() > 0 ==> text::views(v).last() == v.last()@,
{
    assert(text::views(v.push(s)) =~= text::views(v).push(s@));
    if v.len() > 0 {
        assert(text::views(v.drop_last()) =~= text::views(v).drop_last());
    }
}

/// The values of nothing.
proof fn lemma_nothing()
    ensures
        text::views(seq![]) == Seq::<Seq<char>>::empty(),
        json::row_columns(seq![]) == Seq::<json::Columns>::empty(),
        detail_worker::dependency_views(seq![]) == Seq::<detail_worker::DependencyView>::empty(),
        detail_worker::function_views(seq![]) == Seq::<detail_worker::FunctionView>::empty(),
        request_views(seq![]) == Seq::<RequestView>::empty(),
        sites_view(Map::empty()) == Map::<Seq<char>, Seq<detail_worker::CallSiteView>>::empty(),
{
    assert(text::views(seq![]) =~= seq![]);
    assert(json::row_columns(seq![]) =~= seq![]);
    assert(detail_worker::dependency_views(seq![]) =~= seq![]);
    assert(detail_worker::function_views(seq![]) =~= seq![]);
    assert(request_views(seq![]) =~= seq![]);
    assert(sites_view(Map::empty()) =~= Map::empty());
}

impl TuiApp {
    /// The state of the browser when it starts: the empty query is sent.
    pub fn new() -> (app: TuiApp)
        ensures
            app.wf(),
            app@ == querying(at_start()),
    {
        proof {
            lemma_nothing();
        }
        let mut app = TuiApp {
            query: String::new(),
            results: Vec::new(),
            selected: 0,
            marked: None,
            focus: Focus::Search,
            mode: ViewMode::Browse,
            fullscreen: false,
            detail: None,
            native_path: None,
            contributors: Vec::new(),
            deps: Vec::new(),
            deps_selected: 0,
            functions: Vec::new(),
            functions_selected: 0,
            function_call_sites: SortedMap::new(),
            function_xref: None,
            dep_backstack: Vec::new(),
            checkouts: Vec::new(),
            revisions_selected: 0,
            siblings: Vec::new(),
            sibling_dirs: Vec::new(),
            folder_dir: None,
            folder_focused: false,
            siblings_selected: 0,
            folder_backstack: Vec::new(),
            error: None,
            flash: None,
            preview_scroll: 0,
            revisions_scroll: 0,
            detail_scroll: 0,
            detail_diff_scroll: 0,
            detail_diff_output: String::new(),
            detail_diff_loading: false,
            detail_loading: false,
            search_in_flight: false,
            cached_preview: String::new(),
            preview_total_lines: 0,
            pending_query: None,
            last_keystroke_at: None,
            pending_view: None,
            stats: None,
            stats_error: None,
            stats_loading: false,
            inflight_query_id: None,
            next_query_id: 0,
            inflight_detail_id: None,
            next_detail_id: 0,
            inflight_diff_id: None,
            next_diff_id: 0,
            inflight_folder_id: None,
            next_folder_id: 0,
            inflight_filecheck_id: None,
            next_filecheck_id: 0,
            inflight_stats_id: None,
            next_stats_id: 0,
            tick: 0,
            needs_redraw: true,
            force_full_redraw: false,
            click_regions: Vec::new(),
            last_click: None,
            outbox: Vec::new(),
        };
        assert(app@ =~= at_start());
        app.dispatch_query();
        app
    }

    /// Sends the query.
    pub fn dispatch_query(&mut self)
        requires
            old(self).wf(),
        ensures
            final(self).wf(),
            final(self)@ == querying(old(self)@),
    {
        reveal(querying);
        let id: u64 = self.next_query_id;
        self.error = None;
        self.next_query_id = next_id(id);
        self.pending_query = None;
        self.inflight_query_id = Some(id);
        self.search_in_flight = true;
        let query: String = self.query.clone();
        let request = Request::Search(SearchRequest { id, query, limit: RESULT_LIMIT });
        proof {
            lemma_outbox(self.outbox@, request);
        }
        self.outbox.push(request);
        assert(self@ =~= querying(old(self)@));
    }

    /// Remembers that the query was changed at the time `now`.
    pub fn schedule_query(&mut self, now: u64)
        requires
            old(self).wf(),
        ensures
            final(self).wf(),
            final(self)@ == scheduling(old(self)@, now),
    {
        reveal(scheduling);
        self.pending_query = Some(self.query.clone());
        self.last_keystroke_at = Some(now);
        assert(self@ =~= scheduling(old(self)@, now));
    }

    /// Forgets the script that is shown.
    fn clear_script(&mut self)
        requires
            old(self).wf(),
        ensures
            final(self).wf(),
            final(self)@ == without_script(old(self)@),
    {
        reveal(without_script);
        proof {
            lemma_nothing();
        }
        self.inflight_detail_id = None;
        self.detail_loading = false;
        self.detail = None;
        self.native_path = None;
        self.contributors = Vec::new();
        self.deps = Vec::new();
        self.deps_selected = 0;
        self.functions = Vec::new();
        self.functions_selected = 0;
        self.function_call_sites = SortedMap::new();
        self.function_xref = None;
        self.checkouts = Vec::new();
        self.revisions_selected = 0;
        self.siblings = Vec::new();
        self.sibling_dirs = Vec::new();
        self.folder_dir = None;
        self.folder_focused = false;
        self.siblings_selected = 0;
        self.inflight_folder_id = None;
        assert(self@ =~= without_script(old(self)@));
    }

    /// Asks for what is shown of the selected result.
    pub fn load_selected(&mut self)
        requires
            old(self).wf(),
        ensures
            final(self).wf(),
            final(self)@ == loading(old(self)@),
    {
        reveal(without_script);
        reveal(loading);
        self.marked = if self.results.len() == 0 {
            None
        } else {
            Some(self.selected)
        };
        match path_of_result(&self.results, self.selected) {
            None => {
                self.clear_script();
                self.cached_preview = String::new();
                self.preview_total_lines = 0;
                assert(self@ =~= loading(old(self)@));
            },
            Some(path) => {
                let id: u64 = self.next_detail_id;
                self.next_detail_id = next_id(id);
                self.detail_loading = true;
                self.error = None;
                self.preview_scroll = 0;
                self.revisions_scroll = 0;
                self.detail_scroll = 0;
                self.deps_selected = 0;
                self.functions_selected = 0;
                self.function_xref = None;
                self.revisions_selected = 0;
                self.folder_dir = None;
                self.folder_focused = false;
                self.siblings_selected = 0;
                self.inflight_folder_id = None;
                self.inflight_detail_id = Some(id);
                let request = Request::Detail(DetailRequest { id, path });
                proof {
                    lemma_outbox(self.outbox@, request);
                }
                self.outbox.push(request);
                assert(self@ =~= loading(old(self)@));
            },
        }
    }

    /// Takes new results.
    pub fn apply_search_results(&mut self, results: Vec<Row>)
        requires
            old(self).wf(),
            json::rows_wf(results@),
        ensures
            final(self).wf(),
            final(self)@ == with_results(old(self)@, json::row_columns(results@)),
    {
        reveal(with_results);
        reveal(without_script);
        let ghost rows = json::row_columns(results@);
        proof {
            lemma_nothing();
        }
        self.error = None;
        self.results = results;
        self.marked = None;
        if self.results.len() == 0 {
            self.selected = 0;
            self.dep_backstack = Vec::new();
            self.folder_backstack = Vec::new();
            self.clear_script();
            assert(self@ =~= with_results(old(self)@, rows));
        } else {
            if self.selected >= self.results.len() {
                self.selected = self.results.len() - 1;
            }
            assert(self@ =~= (App {
                error: None,
                results: rows,
                marked: None,
                selected: self.selected,
                ..old(self)@
            }));
            self.load_selected();
        }
    }

    /// Takes the answer to a query.
    pub fn apply_results(&mut self, response: SearchResponse)
        requires
            old(self).wf(),
            response.result matches Ok(rows) ==> json::rows_wf(rows@),
        ensures
            final(self).wf(),
            final(self)@ == answered(
                old(self)@,
                response.id,
                match response.result {
                    Ok(rows) => Ok(json::row_columns(rows@)),
                    Err(e) => Err(e@),
                },
            ),
    {
        reveal(answered);
        match self.inflight_query_id {
            Some(id) => if id != response.id {
                return ;
            },
            None => {
                return ;
            },
        }
        self.search_in_flight = false;
        self.inflight_query_id = None;
        match response.result {
            Ok(rows) => self.apply_search_results(rows),
            Err(e) => {
                self.error = Some(e);
                assert(self@ =~= answered(old(self)@, response.id, Err(e@)));
            },
        }
    }

    /// Takes what is shown of the selected script.
    pub fn apply_detail_response(&mut self, response: DetailResponse)
        requires
            old(self).wf(),
            response.payload.wf(),
        ensures
            final(self).wf(),
            final(self)@ == showing(old(self)@, response.id, response.payload),
    {
        reveal(showing);
        match self.inflight_detail_id {
            Some(id) => if id != response.id {
                return ;
            },
            None => {
                return ;
            },
        }
        let ghost given = response.payload;
        let payload = response.payload;
        self.inflight_detail_id = None;
        self.detail_loading = false;
        self.detail = payload.detail;
        self.native_path = payload.native_path;
        self.contributors = payload.contributors;
        self.deps = payload.deps;
        self.functions = payload.functions;
        self.function_call_sites = payload.function_call_sites;
        self.deps_selected = 0;
        self.functions_selected = 0;
        self.function_xref = None;
        self.checkouts = sort_checkouts(payload.checkouts);
        self.revisions_selected = 0;
        self.siblings = payload.siblings;
        self.sibling_dirs = payload.sibling_dirs;
        self.cached_preview = payload.cached_preview;
        self.preview_total_lines = payload.preview_total_lines;
        if payload.error.is_some() {
            self.error = payload.error;
        }
        assert(self@ =~= showing(old(self)@, response.id, given));
    }

    /// Forgets what a lost worker was to answer.
    pub fn lose_worker(&mut self, worker: Worker)
        requires
            old(self).wf(),
        ensures
            final(self).wf(),
            final(self)@ == without_worker(old(self)@, worker),
    {
        reveal(without_worker);
        match worker {
            Worker::Detail => {
                self.inflight_detail_id = None;
                self.detail_loading = false;
                self.error = Some("Detail worker disconnected unexpectedly".to_owned());
            },
            Worker::Diff => {
                self.inflight_diff_id = None;
                self.detail_diff_loading = false;
                self.detail_diff_output = "Diff worker disconnected unexpectedly.".to_owned();
            },
            Worker::Folder => {
                self.inflight_folder_id = None;
                self.error = Some("Folder worker disconnected unexpectedly".to_owned());
            },
            Worker::FileCheck => {
                self.inflight_filecheck_id = None;
                self.error = Some("File-check worker disconnected unexpectedly.".to_owned());
            },
            Worker::Stats => {
                self.inflight_stats_id = None;
                self.stats_loading = false;
                self.stats_error = Some("Stats worker disconnected unexpectedly".to_owned());
            },
        }
        self.needs_redraw = true;
        assert(self@ =~= without_worker(old(self)@, worker));
    }

    /// Asks for the figures of the catalog.
    pub fn dispatch_stats(&mut self)
        requires
            old(self).wf(),
        ensures
            final(self).wf(),
            final(self)@ == asking_stats(old(self)@),
    {
        reveal(asking_stats);
        let id: u64 = self.next_stats_id;
        self.next_stats_id = next_id(id);
        self.stats_loading = true;
        self.stats_error = None;
        self.inflight_stats_id = Some(id);
        let request = Request::Stats(StatsRequest { id });
        proof {
            lemma_outbox(self.outbox@, request);
        }
        self.outbox.push(request);
        assert(self@ =~= asking_stats(old(self)@));
    }

    /// Takes the figures of the catalog.
    pub fn apply_stats_response(&mut self, response: StatsResponse)
        requires
            old(self).wf(),
            response.result matches Ok(row) ==> row.wf(),
        ensures
            final(self).wf(),
            final(self)@ == with_stats(
                old(self)@,
                response.id,
                match response.result {
                    Ok(row) => Ok(row@),
                    Err(e) => Err(e@),
                },
            ),
    {
        reveal(with_stats);
        match self.inflight_stats_id {
            Some(id) => if id != response.id {
                return ;
            },
            None => {
                return ;
            },
        }
        self.inflight_stats_id = None;
        self.stats_loading = false;
        match response.result {
            Ok(row) => {
                self.stats = Some(row);
                self.stats_error = None;
                assert(self@ =~= with_stats(old(self)@, response.id, Ok(row@)));
            },
            Err(e) => {
                self.stats_error = Some(e);
                assert(self@ =~= with_stats(old(self)@, response.id, Err(e@)));
            },
        }
    }

    /// The path of the script that is shown, or else of the selected result.
    pub fn selected_logical_path(&self) -> (path: Option<String>)
        requires
            self.wf(),
        ensures
            opt_text(path) == current_path(self@),
    {
        reveal(current_path);
        match &self.detail {
            Some(row) => match text_in(row, "logical_path") {
                Some(p) => if !p.as_str().is_empty() {
                    return Some(p.clone());
                },
                None => {},
            },
            None => {},
        }
        match path_of_result(&self.results, self.selected) {
            Some(p) => if p.as_str().is_empty() {
                None
            } else {
                Some(p)
            },
            None => None,
        }
    }

    /// The call sites that stand in place of the dependencies.
    pub fn xref_call_sites(&self) -> (sites: Option<&Vec<FunctionCallSite>>)
        requires
            self.wf(),
        ensures
            match xref_sites(self@) {
                Some(s) => sites is Some && detail_worker::site_views(sites.unwrap()@) == s,
                None => sites is None,
            },
    {
        reveal(xref_sites);
        match &self.function_xref {
            Some(name) => match self.function_call_sites.get(name.as_str()) {
                Some(sites) => {
                    assert(self@.call_sites[name@] == detail_worker::site_views(sites@));
                    if sites.len() > 0 {
                        Some(sites)
                    } else {
                        None
                    }
                },
                None => None,
            },
            None => None,
        }
    }

    /// How many entries the Deps pane has.
    pub fn dependency_target_count(&self) -> (n: usize)
        requires
            self.wf(),
        ensures
            n == target_count(self@),
    {
        match self.xref_call_sites() {
            Some(sites) => sites.len(),
            None => self.deps.len(),
        }
    }

    /// Goes to the script `logical_path`.
    pub fn navigate_to_path(&mut self, logical_path: &str)
        requires
            old(self).wf(),
        ensures
            final(self).wf(),
            final(self)@ == going_to(old(self)@, logical_path@),
    {
        reveal(going_to);
        let ghost all = json::row_columns(self.results@);
        let mut i: usize = 0;
        let mut found: bool = false;
        assert(all.skip(0) =~= all);
        while i < self.results.len() && !found
            invariant
                *self == *old(self),
                self.wf(),
                all == json::row_columns(self.results@),
                i <= all.len(),
                result_index(all, logical_path@) == i + result_index(
                    all.skip(i as int),
                    logical_path@,
                ),
                found ==> i < all.len() && path_at(all, i as int) == Some(logical_path@),
            decreases all.len() - i, if found { 0int } else { 1int },
        {
            proof {
                let rest = all.skip(i as int);
                assert(path_at(rest, 0) == path_at(all, i as int));
                assert(rest.drop_first() =~= all.skip(i + 1));
            }
            match path_of_result(&self.results, i) {
                Some(p) => {
                    if same_text(p.as_str(), logical_path) {
                        found = true;
                    } else {
                        i = i + 1;
                    }
                },
                None => {
                    i = i + 1;
                },
            }
        }
        if found {
            assert(path_at(all.skip(i as int), 0) == path_at(all, i as int));
            self.selected = i;
            assert(self@ =~= (App { selected: i, ..old(self)@ }));
        } else {
            assert(result_index(all.skip(i as int), logical_path@) == 0);
            let mut row: Row = Row::new();
            row.insert("logical_path", Value::Text(logical_path.to_owned()));
            assert(row@ == path_row(logical_path@));
            let n: usize = self.results.len();
            self.results.push(row);
            self.selected = n;
            assert(self@.results =~= all.push(path_row(logical_path@)));
            assert(self@ =~= (App {
                selected: n,
                results: all.push(path_row(logical_path@)),
                ..old(self)@
            }));
        }
        self.load_selected();
    }

    /// Opens the selected dependency.
    pub fn open_selected_dependency(&mut self)
        requires
            old(self).wf(),
        ensures
            final(self).wf(),
            final(self)@ == opening_dependency(old(self)@),
    {
        reveal(opening_dependency);
        let target: Option<String> = match self.xref_call_sites() {
            Some(sites) => if self.deps_selected < sites.len() {
                assert(detail_worker::site_views(sites@)[self.deps_selected as int]
                    == sites@[self.deps_selected as int]@);
                Some(sites[self.deps_selected].caller_path.clone())
            } else {
                None
            },
            None => if self.deps_selected < self.deps.len() {
                Some(self.deps[self.deps_selected].logical_path.clone())
            } else {
                None
            },
        };
        assert(opt_text(target) == dependency_target(self@));
        match target {
            Some(target) => match self.selected_logical_path() {
                Some(path) => {
                    proof {
                        lemma_stack(self.dep_backstack@, path);
                    }
                    self.dep_backstack.push(path);
                    assert(self@ =~= (App {
                        dep_backstack: old(self)@.dep_backstack.push(path@),
                        ..old(self)@
                    }));
                    self.navigate_to_path(target.as_str());
                },
                None => {},
            },
            None => {},
        }
    }

    /// Goes back to the script that a dependency was opened from.
    pub fn go_back(&mut self)
        requires
            old(self).wf(),
        ensures
            final(self).wf(),
            final(self)@ == going_back(old(self)@),
    {
        reveal(going_back);
        let ghost stack = self.dep_backstack@;
        match self.dep_backstack.pop() {
            Some(path) => {
                proof {
                    lemma_stack(stack, path);
                    assert(self.dep_backstack@ == stack.drop_last());
                }
                assert(self@ =~= (App {
                    dep_backstack: old(self)@.dep_backstack.drop_last(),
                    ..old(self)@
                }));
                assert(old(self)@.dep_backstack.last() == path@);
                self.navigate_to_path(path.as_str());
            },
            None => {
                assert(self@ =~= old(self)@);
            },
        }
    }

    /// Jumps to the selected function.
    pub fn jump_to_selected_function(&mut self)
        requires
            old(self).wf(),
        ensures
            final(self).wf(),
            final(self)@ == at_function(old(self)@),
    {
        reveal(at_function);
        if self.functions_selected < self.functions.len() {
            let line: u16 = self.functions[self.functions_selected].line;
            let name: String = self.functions[self.functions_selected].name.clone();
            self.preview_scroll = if line == 0 {
                0
            } else {
                line - 1
            };
            self.function_xref = Some(name);
            self.deps_selected = 0;
            self.focus = Focus::Preview;
            assert(self@ =~= at_function(old(self)@));
        }
    }

    /// The directory that the Folder section shows.
    pub fn folder_display_dir(&self) -> (dir: String)
        requires
            self.wf(),
        ensures
            dir@ == shown_dir(self@),
    {
        reveal(shown_dir);
        match &self.folder_dir {
            Some(dir) => dir.clone(),
            None => match &self.detail {
                Some(row) => {
                    let path: String = row_string(row, "logical_path");
                    logical_parent_dir(path.as_str())
                },
                None => {
                    let empty: String = String::new();
                    assert(empty@ =~= seq![]);
                    empty
                },
            },
        }
    }

    /// Whether the Folder section has anything to browse.
    pub fn can_focus_folder(&self) -> (b: bool)
        requires
            self.wf(),
        ensures
            b == (shown_dir(self@).len() > 0),
    {
        !self.folder_display_dir().as_str().is_empty()
    }

    /// Asks for a directory.
    pub fn dispatch_folder_request(&mut self, dir: String)
        requires
            old(self).wf(),
        ensures
            final(self).wf(),
            final(self)@ == asking_folder(old(self)@, dir@),
    {
        reveal(asking_folder);
        let id: u64 = self.next_folder_id;
        self.next_folder_id = next_id(id);
        self.inflight_folder_id = Some(id);
        let request = Request::Folder(FolderRequest { id, dir });
        proof {
            lemma_outbox(self.outbox@, request);
        }
        self.outbox.push(request);
        assert(self@ =~= asking_folder(old(self)@, dir@));
    }

    /// Goes up from the directory that is shown.
    pub fn folder_go_up(&mut self)
        requires
            old(self).wf(),
        ensures
            final(self).wf(),
            final(self)@ == going_up(old(self)@),
    {
        reveal(going_up);
        let dir: String = self.folder_display_dir();
        if dir.as_str().is_empty() || same_text(dir.as_str(), "/") {
            return ;
        }
        self.dispatch_folder_request(logical_parent_dir(dir.as_str()));
    }

    /// How many entries the Folder section has.
    pub fn folder_entry_count(&self) -> (n: usize)
        ensures
            n == entry_count(self@),
    {
        let dirs: usize = self.sibling_dirs.len();
        let scripts: usize = self.siblings.len();
        if scripts <= usize::MAX - dirs {
            dirs + scripts
        } else {
            usize::MAX
        }
    }

    /// Goes to a script of the Folder section.
    fn open_sibling(&mut self, target: &str)
        requires
            old(self).wf(),
        ensures
            final(self).wf(),
            final(self)@ == going_to(leaving_folder(old(self)@), target@),
    {
        reveal(leaving_folder);
        let path: Option<String> = self.selected_logical_path();
        self.folder_focused = false;
        match path {
            Some(path) => {
                proof {
                    lemma_stack(self.folder_backstack@, path);
                }
                self.folder_backstack.push(path);
            },
            None => {},
        }
        assert(self@ == leaving_folder(old(self)@));
        self.navigate_to_path(target);
    }

    /// Opens the selected entry of the Folder section.
    pub fn open_selected_folder_entry(&mut self)
        requires
            old(self).wf(),
        ensures
            final(self).wf(),
            final(self)@ == opening_entry(old(self)@),
    {
        reveal(opening_entry);
        let i: usize = self.siblings_selected;
        if i < self.sibling_dirs.len() {
            let dir: String = self.folder_display_dir();
            let child: String = if same_text(dir.as_str(), "/") {
                concat("/", self.sibling_dirs[i].as_str())
            } else {
                concat3(dir.as_str(), "/", self.sibling_dirs[i].as_str())
            };
            self.dispatch_folder_request(child);
            return ;
        }
        let k: usize = i - self.sibling_dirs.len();
        if k >= self.siblings.len() {
            return ;
        }
        let target: String = row_string(&self.siblings[k], "logical_path");
        if target.as_str().is_empty() {
            return ;
        }
        self.open_sibling(target.as_str());
    }

    /// Goes back from a script that was opened in the Folder section.
    pub fn folder_go_back(&mut self)
        requires
            old(self).wf(),
        ensures
            final(self).wf(),
            final(self)@ == folder_back(old(self)@),
    {
        reveal(folder_back);
        let ghost stack = self.folder_backstack@;
        match self.folder_backstack.pop() {
            Some(path) => {
                proof {
                    lemma_stack(stack, path);
                    assert(self.folder_backstack@ == stack.drop_last());
                }
                assert(self@ =~= (App {
                    folder_backstack: old(self)@.folder_backstack.drop_last(),
                    ..old(self)@
                }));
                assert(old(self)@.folder_backstack.last() == path@);
                self.navigate_to_path(path.as_str());
            },
            None => {
                self.folder_focused = false;
                assert(self@ =~= folder_back(old(self)@));
            },
        }
    }

    /// Takes what a directory holds.
    pub fn apply_folder_response(&mut self, response: FolderResponse)
        requires
            old(self).wf(),
            response.result matches Ok(l) ==> json::rows_wf(l.scripts@),
        ensures
            final(self).wf(),
            final(self)@ == listed(
                old(self)@,
                response.id,
                response.dir@,
                match response.result {
                    Ok(l) => Ok((text::views(l.dirs@), json::row_columns(l.scripts@))),
                    Err(e) => Err(e@),
                },
            ),
    {
        reveal(listed);
        match self.inflight_folder_id {
            Some(id) => if id != response.id {
                return ;
            },
            None => {
                return ;
            },
        }
        self.inflight_folder_id = None;
        match response.result {
            Ok(listing) => {
                self.error = None;
                self.folder_dir = Some(response.dir);
                self.sibling_dirs = listing.dirs;
                self.siblings = listing.scripts;
                self.siblings_selected = 0;
                assert(self@ =~= listed(
                    old(self)@,
                    response.id,
                    response.dir@,
                    Ok((text::views(listing.dirs@), json::row_columns(listing.scripts@))),
                ));
            },
            Err(e) => {
                self.error = Some(e);
                assert(self@ =~= listed(old(self)@, response.id, response.dir@, Err(e@)));
            },
        }
    }

    /// Asks for the differences to a revision, or to the latest checkout.
    fn dispatch_diff_impl(&mut self, revision_physical_path: Option<String>)
        requires
            old(self).wf(),
        ensures
            final(self).wf(),
            final(self)@ == diffing(old(self)@, opt_text(revision_physical_path)),
    {
        reveal(diffing);
        let path: Option<String> = self.selected_logical_path();
        self.detail_diff_scroll = 0;
        match path {
            None => {
                self.detail_diff_output = "No script selected.".to_owned();
                self.detail_diff_loading = false;
                assert(self@ =~= diffing(old(self)@, opt_text(revision_physical_path)));
            },
            Some(path) => {
                let id: u64 = self.next_diff_id;
                self.next_diff_id = next_id(id);
                self.detail_diff_loading = true;
                self.detail_diff_output = String::new();
                self.inflight_diff_id = Some(id);
                let request = Request::Diff(DiffRequest { id, path, revision_physical_path });
                proof {
                    lemma_outbox(self.outbox@, request);
                }
                self.outbox.push(request);
                assert(self@ =~= diffing(old(self)@, opt_text(revision_physical_path)));
            },
        }
    }

    /// Asks for the differences to the latest checkout.
    pub fn dispatch_diff(&mut self)
        requires
            old(self).wf(),
        ensures
            final(self).wf(),
            final(self)@ == diffing(old(self)@, None),
    {
        reveal(diffing);
        self.dispatch_diff_impl(None);
    }

    /// Asks for the differences to the selected revision.
    pub fn dispatch_diff_against_selected_revision(&mut self)
        requires
            old(self).wf(),
        ensures
            final(self).wf(),
            final(self)@ == diffing(old(self)@, selected_revision(old(self)@)),
    {
        reveal(diffing);
        let mut revision: Option<String> = None;
        if self.revisions_selected < self.checkouts.len() {
            let path: String = row_string(
                &self.checkouts[self.revisions_selected],
                "physical_path",
            );
            if !path.as_str().is_empty() {
                revision = Some(path);
            }
        }
        self.dispatch_diff_impl(revision);
    }

    /// Takes the differences.
    pub fn apply_diff_response(&mut self, response: DiffResponse)
        requires
            old(self).wf(),
        ensures
            final(self).wf(),
            final(self)@ == diffed(old(self)@, response.id, response.output@),
    {
        reveal(diffed);
        match self.inflight_diff_id {
            Some(id) => if id != response.id {
                return ;
            },
            None => {
                return ;
            },
        }
        self.inflight_diff_id = None;
        self.detail_diff_loading = false;
        self.detail_diff_output = response.output;
        assert(self@ =~= diffed(old(self)@, response.id, response.output@));
    }

    /// The script that can be opened in a viewer, or why there is none.
    fn viewable(&self) -> (r: Result<&Row, &'static str>)
        requires
            self.wf(),
        ensures
            match no_view_reason(self@) {
                Some(reason) => r is Err && r->Err_0@ == reason,
                None => r is Ok && self.detail is Some && *r->Ok_0 == self.detail.unwrap(),
            },
    {
        if self.detail_loading {
            return Err("Script is still loading.");
        }
        match &self.detail {
            None => Err("No script selected."),
            Some(row) => if row_string(row, "logical_path").as_str().is_empty() {
                Err("Selected script has no logical path.")
            } else {
                Ok(row)
            },
        }
    }

    /// Has the content of the catalog viewed.
    pub fn queue_catalog_view(&mut self)
        requires
            old(self).wf(),
        ensures
            final(self).wf(),
            final(self)@ == viewing_catalog(old(self)@),
    {
        reveal(viewing_catalog);
        match self.viewable() {
            Ok(row) => {
                let target = ViewTarget::Catalog {
                    logical_path: row_string(row, "logical_path"),
                    content: row_string(row, "content"),
                };
                self.error = None;
                self.pending_view = Some(target);
                assert(self@ =~= viewing_catalog(old(self)@));
            },
            Err(reason) => {
                self.error = Some(reason.to_owned());
                assert(self@ =~= viewing_catalog(old(self)@));
            },
        }
    }

    /// Has the file behind the script viewed, if it exists.
    pub fn queue_live_source_view(&mut self)
        requires
            old(self).wf(),
        ensures
            final(self).wf(),
            final(self)@ == checking_file(old(self)@),
    {
        reveal(checking_file);
        match self.viewable() {
            Ok(row) => {
                let logical_path: String = row_string(row, "logical_path");
                let native_path: String = match &self.native_path {
                    Some(p) => p.clone(),
                    None => logical_path.clone(),
                };
                let mapped: bool = !same_text(native_path.as_str(), logical_path.as_str());
                let id: u64 = self.next_filecheck_id;
                self.next_filecheck_id = next_id(id);
                self.inflight_filecheck_id = Some(id);
                self.error = None;
                let request = Request::FileCheck( FileCheckRequest { id, logical_path, native_path, mapped }, );
                proof {
                    lemma_outbox(self.outbox@, request);
                }
                self.outbox.push(request);
                assert(self@ =~= checking_file(old(self)@));
            },
            Err(reason) => {
                self.error = Some(reason.to_owned());
                assert(self@ =~= checking_file(old(self)@));
            },
        }
    }

    /// Takes whether the file behind a script exists.
    pub fn apply_file_check_response(&mut self, response: FileCheckResponse)
        requires
            old(self).wf(),
        ensures
            final(self).wf(),
            final(self)@ == checked_file(
                old(self)@,
                response.id,
                response.logical_path@,
                response.native_path@,
                response.mapped,
                response.exists,
            ),
    {
        reveal(checked_file);
        let ghost given = response;
        match self.inflight_filecheck_id {
            Some(id) => if id != response.id {
                return ;
            },
            None => {
                return ;
            },
        }
        self.inflight_filecheck_id = None;
        if response.exists {
            self.error = None;
            self.pending_view = Some(
                ViewTarget::LiveSource {
                    logical_path: response.logical_path,
                    native_path: response.native_path,
                },
            );
        } else if response.mapped {
            self.error = Some(concat("Live source not found at ", response.native_path.as_str()));
        } else {
            self.error = Some(
                concat3(
                    "No filesystem mapping for ",
                    response.logical_path.as_str(),
                    ", and no file exists at that path; configure a path mapping to open the live source.",
                ),
            );
        }
        assert(self@ =~= checked_file(
            old(self)@,
            given.id,
            given.logical_path@,
            given.native_path@,
            given.mapped,
            given.exists,
        ));
    }

    /// Has the selected path copied.
    pub fn copy_selected_path(&mut self)
        requires
            old(self).wf(),
        ensures
            final(self).wf(),
            final(self)@ == copying(old(self)@),
    {
        reveal(copying);
        match self.selected_logical_path() {
            Some(path) => {
                let request = Request::Copy(path);
                proof {
                    lemma_outbox(self.outbox@, request);
                }
                self.outbox.push(request);
                assert(self@ =~= copying(old(self)@));
            },
            None => {},
        }
    }

    /// Takes how the attempt to copy `path` went.
    pub fn apply_copy_result(&mut self, path: &str, failure: Option<String>)
        requires
            old(self).wf(),
        ensures
            final(self).wf(),
            final(self)@ == copied(old(self)@, path@, opt_text(failure)),
    {
        reveal(copied);
        match failure {
            None => {
                self.flash = Some(concat("Copied ", path));
                self.force_full_redraw = true;
            },
            Some(e) => {
                self.error = Some(concat("Copy failed: ", e.as_str()));
            },
        }
        assert(self@ =~= copied(old(self)@, path@, opt_text(failure)));
    }
}

} // verus!
