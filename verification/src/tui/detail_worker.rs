//! What the browser shows of the selected script, put together from the
//! answers of the catalog.

use vstd::prelude::*;

use crate::json;
use crate::json::{int_in, row_string, Row};
use crate::output;
use crate::output::contributors_from_script;
use crate::sorted_map::SortedMap;
use crate::text;
use crate::text::{join_texts, same_text, split_lines, trimmed};
use crate::tui::PREVIEW_LINES;

verus! {

/// Asks for what is shown of a script.
#[derive(Debug)]
pub struct DetailRequest {
    pub id: u64,
    pub path: String,
}

/// A script that the selected one uses, or that uses it.
#[derive(Debug)]
pub struct DependencyItem {
    pub kind: String,
    pub logical_path: String,
}

/// A function that the selected script defines.
#[derive(Debug)]
pub struct FunctionItem {
    pub name: String,
    pub kind: String,
    pub line: u16,
    pub docstring: String,
}

/// A place where a function of the selected script is called.
#[derive(Debug)]
pub struct FunctionCallSite {
    pub caller_path: String,
    pub line: u16,
    pub caller: String,
    pub callee: String,
}

/// The value of a dependency.
pub struct DependencyView {
    pub kind: Seq<char>,
    pub path: Seq<char>,
}

impl View for DependencyItem {
    type V = DependencyView;

    open spec fn view(&self) -> DependencyView {
        DependencyView { kind: self.kind@, path: self.logical_path@ }
    }
}

/// The value of a function.
pub struct FunctionView {
    pub name: Seq<char>,
    pub kind: Seq<char>,
    pub line: u16,
    pub docstring: Seq<char>,
}

impl View for FunctionItem {
    type V = FunctionView;

    open spec fn view(&self) -> FunctionView {
        FunctionView {
            name: self.name@,
            kind: self.kind@,
            line: self.line,
            docstring: self.docstring@,
        }
    }
}

/// The value of a call site.
pub struct CallSiteView {
    pub caller_path: Seq<char>,
    pub line: u16,
    pub caller: Seq<char>,
    pub callee: Seq<char>,
}

impl View for FunctionCallSite {
    type V = CallSiteView;

    open spec fn view(&self) -> CallSiteView {
        CallSiteView {
            caller_path: self.caller_path@,
            line: self.line,
            caller: self.caller@,
            callee: self.callee@,
        }
    }
}

/// The values of dependencies.
pub open spec fn dependency_views(v: Seq<DependencyItem>) -> Seq<DependencyView> {
    v.map_values(|d: DependencyItem| d@)
}

/// The values of functions.
pub open spec fn function_views(v: Seq<FunctionItem>) -> Seq<FunctionView> {
    v.map_values(|f: FunctionItem| f@)
}

/// The values of call sites.
pub open spec fn site_views(v: Seq<FunctionCallSite>) -> Seq<CallSiteView> {
    v.map_values(|s: FunctionCallSite| s@)
}

/// The call sites of functions by the names of the functions.
pub type CallSites = SortedMap<Vec<FunctionCallSite>>;

/// The scripts that a script uses and the rows of those that use it.
#[derive(Debug)]
pub struct DependencyGraph {
    pub uses: Vec<String>,
    pub used_by: Vec<Row>,
}

/// The answers of the catalog on a script that it was able to look up.
#[derive(Debug)]
pub struct DetailAnswers {
    pub graph: Result<DependencyGraph, String>,
    pub revisions: Result<Vec<Row>, String>,
    pub functions: Result<Vec<Row>, String>,
    pub callers: Result<Vec<Row>, String>,
    pub siblings: Vec<Row>,
    pub sibling_dirs: Vec<String>,
    /// The path of the script on this machine, where a mapping gives one.
    pub native_path: Option<String>,
}

/// What is shown of a script.
#[derive(Debug)]
pub struct DetailPayload {
    pub detail: Option<Row>,
    pub contributors: Vec<String>,
    pub deps: Vec<DependencyItem>,
    pub functions: Vec<FunctionItem>,
    pub function_call_sites: CallSites,
    pub checkouts: Vec<Row>,
    pub siblings: Vec<Row>,
    pub sibling_dirs: Vec<String>,
    pub native_path: Option<String>,
    pub cached_preview: String,
    pub preview_total_lines: usize,
    pub error: Option<String>,
}

/// What is shown of a script, for the request of the same number.
#[derive(Debug)]
pub struct DetailResponse {
    pub id: u64,
    pub payload: DetailPayload,
}

impl DetailPayload {
    /// Whether every row and map is in order.
    pub open spec fn wf(self) -> bool {
        &&& self.detail matches Some(row) ==> row.wf()
        &&& self.function_call_sites.wf()
        &&& json::rows_wf(self.checkouts@)
        &&& json::rows_wf(self.siblings@)
    }
}

// ---------------------------------------------------------------------------
// Dependencies
// ---------------------------------------------------------------------------

/// `list` with `d` at its end, unless it holds `d` already.
pub open spec fn with_dependency(list: Seq<DependencyView>, d: DependencyView) -> Seq<
    DependencyView,
> {
    if list.contains(d) {
        list
    } else {
        list.push(d)
    }
}

/// The dependencies on the scripts that are used.
pub open spec fn used_scripts(uses: Seq<Seq<char>>) -> Seq<DependencyView>
    decreases uses.len(),
{
    if uses.len() == 0 {
        seq![]
    } else {
        with_dependency(
            used_scripts(uses.drop_last()),
            DependencyView { kind: "uses"@, path: uses.last() },
        )
    }
}

/// `list` with the scripts of `rows`, which use the selected one; rows without
/// a path are left out.
pub open spec fn with_users(list: Seq<DependencyView>, rows: Seq<json::Columns>) -> Seq<
    DependencyView,
>
    decreases rows.len(),
{
    if rows.len() == 0 {
        list
    } else {
        let before = with_users(list, rows.drop_last());
        let path = json::text_or_empty(rows.last(), "logical_path"@);
        if path.len() == 0 {
            before
        } else {
            with_dependency(before, DependencyView { kind: "used by"@, path })
        }
    }
}

/// The dependencies of a script: those it uses, then those that use it, each
/// once.
pub open spec fn dependencies_of(g: DependencyGraph) -> Seq<DependencyView> {
    with_users(used_scripts(text::views(g.uses@)), json::row_columns(g.used_by@))
}

/// No dependency is listed twice.
pub open spec fn all_different(list: Seq<DependencyView>) -> bool {
    forall|i: int, j: int| 0 <= i < j < list.len() ==> #[trigger] list[i] != #[trigger] list[j]
}

/// Scripts that are used are listed once.
proof fn lemma_used_once(uses: Seq<Seq<char>>)
    ensures
        all_different(used_scripts(uses)),
    decreases uses.len(),
{
    if uses.len() > 0 {
        lemma_used_once(uses.drop_last());
    }
}

/// Scripts that use the selected one are listed once.
proof fn lemma_users_once(list: Seq<DependencyView>, rows: Seq<json::Columns>)
    requires
        all_different(list),
    ensures
        all_different(with_users(list, rows)),
    decreases rows.len(),
{
    if rows.len() > 0 {
        lemma_users_once(list, rows.drop_last());
    }
}

/// No script is listed twice as used, nor twice as a user.
pub proof fn law_dependencies_are_listed_once(g: DependencyGraph)
    ensures
        all_different(dependencies_of(g)),
{
    lemma_used_once(text::views(g.uses@));
    lemma_users_once(used_scripts(text::views(g.uses@)), json::row_columns(g.used_by@));
}

/// Adds a dependency unless it is listed already.
fn push_dependency(deps: &mut Vec<DependencyItem>, kind: &str, path: &str)
    ensures
        dependency_views(final(deps)@) == with_dependency(
            dependency_views(old(deps)@),
            DependencyView { kind: kind@, path: path@ },
        ),
{
    let ghost before = dependency_views(deps@);
    let ghost item = DependencyView { kind: kind@, path: path@ };
    let mut i: usize = 0;
    while i < deps.len()
        invariant
            i <= deps@.len(),
            deps@ == old(deps)@,
            before == dependency_views(deps@),
            item == (DependencyView { kind: kind@, path: path@ }),
            forall|j: int| 0 <= j < i ==> before[j] != item,
        decreases deps@.len() - i,
    {
        assert(before[i as int] == deps@[i as int]@);
        if same_text(deps[i].kind.as_str(), kind) && same_text(
            deps[i].logical_path.as_str(),
            path,
        ) {
            assert(before.contains(item));
            return ;
        }
        i = i + 1;
    }
    assert(!before.contains(item));
    deps.push(DependencyItem { kind: kind.to_owned(), logical_path: path.to_owned() });
    assert(dependency_views(deps@) =~= before.push(item));
}

/// The dependencies of a script.
pub fn dependency_items(graph: &DependencyGraph) -> (deps: Vec<DependencyItem>)
    requires
        json::rows_wf(graph.used_by@),
    ensures
        dependency_views(deps@) == dependencies_of(*graph),
{
    let ghost uses = text::views(graph.uses@);
    let ghost rows = json::row_columns(graph.used_by@);
    let mut deps: Vec<DependencyItem> = Vec::new();
    let mut i: usize = 0;
    assert(uses.take(0) =~= seq![]);
    assert(dependency_views(deps@) =~= used_scripts(uses.take(0)));
    while i < graph.uses.len()
        invariant
            i <= graph.uses@.len(),
            uses == text::views(graph.uses@),
            dependency_views(deps@) == used_scripts(uses.take(i as int)),
        decreases graph.uses@.len() - i,
    {
        proof {
            assert(uses.take(i + 1).drop_last() =~= uses.take(i as int));
            assert(uses.take(i + 1).last() == graph.uses@[i as int]@);
        }
        push_dependency(&mut deps, "uses", graph.uses[i].as_str());
        i = i + 1;
    }
    assert(uses.take(uses.len() as int) =~= uses);
    let ghost used = used_scripts(uses);
    let mut k: usize = 0;
    assert(rows.take(0) =~= seq![]);
    while k < graph.used_by.len()
        invariant
            k <= graph.used_by@.len(),
            json::rows_wf(graph.used_by@),
            rows == json::row_columns(graph.used_by@),
            dependency_views(deps@) == with_users(used, rows.take(k as int)),
        decreases graph.used_by@.len() - k,
    {
        proof {
            assert(rows.take(k + 1).drop_last() =~= rows.take(k as int));
            assert(rows.take(k + 1).last() == graph.used_by@[k as int]@);
        }
        let path: String = row_string(&graph.used_by[k], "logical_path");
        if !path.as_str().is_empty() {
            push_dependency(&mut deps, "used by", path.as_str());
        }
        k = k + 1;
    }
    assert(rows.take(rows.len() as int) =~= rows);
    deps
}

// ---------------------------------------------------------------------------
// Functions and their call sites
// ---------------------------------------------------------------------------

/// The line that a row speaks of, as a scroll position counts lines.
pub open spec fn line_in(row: json::Columns) -> u16 {
    match json::column_int(row, "line"@) {
        Some(n) => if n < 1 {
            1
        } else if n > u16::MAX {
            u16::MAX
        } else {
            n as u16
        },
        None => 1,
    }
}

/// The line that a row speaks of.
fn line_of(row: &Row) -> (line: u16)
    requires
        row.wf(),
    ensures
        line == line_in(row@),
{
    match int_in(row, "line") {
        Some(n) => if n < 1 {
            1
        } else if n > u16::MAX as i64 {
            u16::MAX
        } else {
            n as u16
        },
        None => 1,
    }
}

/// The first line of a text without the white space around it.
pub open spec fn headline(s: Seq<char>) -> Seq<char> {
    if text::lines(s).len() > 0 {
        text::trim(text::lines(s)[0])
    } else {
        seq![]
    }
}

/// The first line of a text without the white space around it.
fn headline_of(s: &str) -> (line: String)
    ensures
        line@ == headline(s@),
{
    let lines: Vec<String> = split_lines(s);
    assert(text::views(lines@).len() == lines@.len());
    if lines.len() > 0 {
        assert(text::views(lines@)[0] == lines@[0]@);
        trimmed(lines[0].as_str())
    } else {
        let empty: String = String::new();
        assert(empty@ =~= seq![]);
        empty
    }
}

/// The function that a row speaks of.
pub open spec fn function_in(row: json::Columns) -> FunctionView {
    FunctionView {
        name: json::text_or_empty(row, "name"@),
        kind: json::text_or_empty(row, "kind"@),
        line: line_in(row),
        docstring: headline(json::text_or_empty(row, "docstring"@)),
    }
}

/// The functions that rows speak of.
pub open spec fn functions_in(rows: Seq<json::Columns>) -> Seq<FunctionView> {
    rows.map_values(|r: json::Columns| function_in(r))
}

/// The functions that rows speak of.
pub fn function_items(rows: &Vec<Row>) -> (functions: Vec<FunctionItem>)
    requires
        json::rows_wf(rows@),
    ensures
        function_views(functions@) == functions_in(json::row_columns(rows@)),
{
    let mut functions: Vec<FunctionItem> = Vec::new();
    let mut i: usize = 0;
    while i < rows.len()
        invariant
            i <= rows@.len(),
            functions@.len() == i,
            json::rows_wf(rows@),
            forall|j: int| 0 <= j < i ==> (#[trigger] functions@[j])@ == function_in(rows@[j]@),
        decreases rows@.len() - i,
    {
        let row: &Row = &rows[i];
        let doc: String = row_string(row, "docstring");
        functions.push(
            FunctionItem {
                name: row_string(row, "name"),
                kind: row_string(row, "kind"),
                line: line_of(row),
                docstring: headline_of(doc.as_str()),
            },
        );
        i = i + 1;
    }
    assert(function_views(functions@) =~= functions_in(json::row_columns(rows@)));
    functions
}

/// The function that a row with a call speaks of.
pub open spec fn target_in(row: json::Columns) -> Seq<char> {
    json::text_or_empty(row, "target_function"@)
}

/// The call that a row speaks of.
pub open spec fn site_in(row: json::Columns) -> CallSiteView {
    CallSiteView {
        caller_path: json::text_or_empty(row, "logical_path"@),
        line: line_in(row),
        caller: json::text_or_empty(row, "caller"@),
        callee: json::text_or_empty(row, "callee"@),
    }
}

/// The calls of the function `name`, in the order of the rows.
pub open spec fn sites_of(rows: Seq<json::Columns>, name: Seq<char>) -> Seq<CallSiteView>
    decreases rows.len(),
{
    if rows.len() == 0 {
        seq![]
    } else {
        let before = sites_of(rows.drop_last(), name);
        if target_in(rows.last()) == name {
            before.push(site_in(rows.last()))
        } else {
            before
        }
    }
}

/// Whether a function is listed with its call sites: it is defined, or a row
/// speaks of a call of it.
pub open spec fn has_sites(
    functions: Seq<FunctionView>,
    rows: Seq<json::Columns>,
    name: Seq<char>,
) -> bool {
    ||| exists|i: int| 0 <= i < functions.len() && (#[trigger] functions[i]).name == name
    ||| name.len() > 0 && exists|i: int|
        0 <= i < rows.len() && target_in(#[trigger] rows[i]) == name
}

/// Whether `m` lists the calls of every function that is listed with its call
/// sites: those of a row whose target has no name are left out.
pub open spec fn lists_sites(
    m: Map<Seq<char>, Vec<FunctionCallSite>>,
    functions: Seq<FunctionView>,
    rows: Seq<json::Columns>,
) -> bool {
    &&& forall|name: Seq<char>| #[trigger]
        m.contains_key(name) <==> has_sites(functions, rows, name)
    &&& forall|name: Seq<char>| #[trigger]
        m.contains_key(name) ==> site_views(m[name]@) == if name.len() == 0 {
            seq![]
        } else {
            sites_of(rows, name)
        }
}

/// The calls of the function `name`.
fn collect_sites(rows: &Vec<Row>, name: &str) -> (sites: Vec<FunctionCallSite>)
    requires
        json::rows_wf(rows@),
    ensures
        site_views(sites@) == if name@.len() == 0 {
            seq![]
        } else {
            sites_of(json::row_columns(rows@), name@)
        },
{
    let ghost all = json::row_columns(rows@);
    let mut sites: Vec<FunctionCallSite> = Vec::new();
    assert(site_views(sites@) =~= seq![]);
    if name.is_empty() {
        return sites;
    }
    let mut i: usize = 0;
    assert(all.take(0) =~= seq![]);
    while i < rows.len()
        invariant
            i <= rows@.len(),
            json::rows_wf(rows@),
            all == json::row_columns(rows@),
            site_views(sites@) == sites_of(all.take(i as int), name@),
        decreases rows@.len() - i,
    {
        let row: &Row = &rows[i];
        proof {
            assert(all.take(i + 1).drop_last() =~= all.take(i as int));
            assert(all.take(i + 1).last() == row@);
        }
        let target: String = row_string(row, "target_function");
        if same_text(target.as_str(), name) {
            let ghost before = site_views(sites@);
            let site = FunctionCallSite {
                caller_path: row_string(row, "logical_path"),
                line: line_of(row),
                caller: row_string(row, "caller"),
                callee: row_string(row, "callee"),
            };
            let ghost value = site@;
            sites.push(site);
            assert(site_views(sites@) =~= before.push(value));
        }
        i = i + 1;
    }
    assert(all.take(all.len() as int) =~= all);
    sites
}

/// The call sites of the functions that a script defines and of those that
/// rows speak of.
pub fn call_sites(functions: &Vec<FunctionItem>, rows: &Vec<Row>) -> (sites: CallSites)
    requires
        json::rows_wf(rows@),
    ensures
        sites.wf(),
        lists_sites(sites@, function_views(functions@), json::row_columns(rows@)),
{
    let ghost fs = function_views(functions@);
    let ghost all = json::row_columns(rows@);
    let mut sites: CallSites = SortedMap::new();
    let mut i: usize = 0;
    while i < functions.len()
        invariant
            sites.wf(),
            i <= functions@.len(),
            json::rows_wf(rows@),
            fs == function_views(functions@),
            all == json::row_columns(rows@),
            forall|name: Seq<char>| #[trigger]
                sites@.contains_key(name) ==> has_sites(fs, all, name) && site_views(
                    sites@[name]@,
                ) == if name.len() == 0 {
                    seq![]
                } else {
                    sites_of(all, name)
                },
            forall|j: int| 0 <= j < i ==> sites@.contains_key((#[trigger] fs[j]).name),
        decreases functions@.len() - i,
    {
        let name: &str = functions[i].name.as_str();
        assert(fs[i as int].name == name@);
        if !sites.contains_key(name) {
            sites.insert(name, collect_sites(rows, name));
        }
        i = i + 1;
    }
    let mut k: usize = 0;
    while k < rows.len()
        invariant
            sites.wf(),
            k <= rows@.len(),
            json::rows_wf(rows@),
            fs == function_views(functions@),
            all == json::row_columns(rows@),
            forall|name: Seq<char>| #[trigger]
                sites@.contains_key(name) ==> has_sites(fs, all, name) && site_views(
                    sites@[name]@,
                ) == if name.len() == 0 {
                    seq![]
                } else {
                    sites_of(all, name)
                },
            forall|j: int| 0 <= j < fs.len() ==> sites@.contains_key((#[trigger] fs[j]).name),
            forall|j: int|
                0 <= j < k && target_in(#[trigger] all[j]).len() > 0 ==> sites@.contains_key(
                    target_in(all[j]),
                ),
        decreases rows@.len() - k,
    {
        assert(all[k as int] == rows@[k as int]@);
        let target: String = row_string(&rows[k], "target_function");
        if !target.as_str().is_empty() && !sites.contains_key(target.as_str()) {
            assert(has_sites(fs, all, target@));
            sites.insert(target.as_str(), collect_sites(rows, target.as_str()));
        }
        k = k + 1;
    }
    sites
}

// ---------------------------------------------------------------------------
// Preview
// ---------------------------------------------------------------------------

/// The first lines of a script for the preview.
pub open spec fn preview_of(content: Seq<char>) -> Seq<char> {
    if content.len() == 0 {
        "No content indexed."@
    } else if text::lines(content).len() > PREVIEW_LINES {
        text::join(text::lines(content).take(PREVIEW_LINES as int), "\n"@)
    } else {
        text::join(text::lines(content), "\n"@)
    }
}

/// The first lines of a script for the preview, and how many lines it has.
pub fn preview_text(content: &str) -> (p: (String, usize))
    ensures
        p.0@ == preview_of(content@),
        p.1 == text::lines(content@).len(),
{
    let mut lines: Vec<String> = split_lines(content);
    let n: usize = lines.len();
    assert(text::views(lines@).len() == n);
    if content.is_empty() {
        return ("No content indexed.".to_owned(), n);
    }
    if n > PREVIEW_LINES {
        let ghost all = lines@;
        lines.truncate(PREVIEW_LINES);
        assert(text::views(lines@) =~= text::lines(content@).take(PREVIEW_LINES as int));
    }
    (join_texts(&lines, "\n"), n)
}

// ---------------------------------------------------------------------------
// Putting it together
// ---------------------------------------------------------------------------

/// The view of an optional text.
pub open spec fn error_view(e: Option<String>) -> Option<Seq<char>> {
    match e {
        Some(s) => Some(s@),
        None => None,
    }
}

/// The text of an error, if there is one.
pub open spec fn failure<T>(r: Result<T, String>) -> Option<Seq<char>> {
    match r {
        Ok(_) => None,
        Err(e) => Some(e@),
    }
}

/// `first`, or `second` where there is no first one.
pub open spec fn or_else(first: Option<Seq<char>>, second: Option<Seq<char>>) -> Option<
    Seq<char>,
> {
    if first is Some {
        first
    } else {
        second
    }
}

/// The first of the errors in the answers.
pub open spec fn first_error(a: DetailAnswers) -> Option<Seq<char>> {
    or_else(
        failure(a.graph),
        or_else(failure(a.revisions), or_else(failure(a.functions), failure(a.callers))),
    )
}

impl DetailAnswers {
    /// Whether every row is in order.
    pub open spec fn wf(self) -> bool {
        &&& self.graph matches Ok(g) ==> json::rows_wf(g.used_by@)
        &&& self.revisions matches Ok(rows) ==> json::rows_wf(rows@)
        &&& self.functions matches Ok(rows) ==> json::rows_wf(rows@)
        &&& self.callers matches Ok(rows) ==> json::rows_wf(rows@)
        &&& json::rows_wf(self.siblings@)
    }
}

/// The rows of an answer; none where there is an error.
pub open spec fn rows_of(r: Result<Vec<Row>, String>) -> Seq<json::Columns> {
    match r {
        Ok(rows) => json::row_columns(rows@),
        Err(_) => seq![],
    }
}

/// The content of a script.
pub open spec fn content_of(script: Option<Row>) -> Seq<char> {
    match script {
        Some(row) => json::text_or_empty(row@, "content"@),
        None => seq![],
    }
}

/// Whether `names` are the contributors of a script.
pub open spec fn are_contributors(script: Option<Row>, names: Seq<Seq<char>>) -> bool {
    match script {
        Some(row) => {
            &&& forall|i: int, j: int|
                0 <= i < j < names.len() ==> text::text_lt(
                    #[trigger] names[i],
                    #[trigger] names[j],
                )
            &&& forall|name: Seq<char>| #[trigger]
                names.contains(name) <==> output::contributes(row@, name)
        },
        None => names.len() == 0,
    }
}

/// Nothing to show but an error.
pub fn failed_detail(error: String) -> (p: DetailPayload)
    ensures
        p.wf(),
        p.detail is None,
        p.contributors@.len() == 0,
        p.deps@.len() == 0,
        p.functions@.len() == 0,
        p.function_call_sites@ == Map::<Seq<char>, Vec<FunctionCallSite>>::empty(),
        p.checkouts@.len() == 0,
        p.siblings@.len() == 0,
        p.sibling_dirs@.len() == 0,
        p.native_path is None,
        p.cached_preview@.len() == 0,
        p.preview_total_lines == 0,
        p.error == Some(error),
{
    DetailPayload {
        detail: None,
        contributors: Vec::new(),
        deps: Vec::new(),
        functions: Vec::new(),
        function_call_sites: SortedMap::new(),
        checkouts: Vec::new(),
        siblings: Vec::new(),
        sibling_dirs: Vec::new(),
        native_path: None,
        cached_preview: String::new(),
        preview_total_lines: 0,
        error: Some(error),
    }
}

/// What is shown of a script, from what the catalog answers: an answer that
/// failed leaves its part empty, and the first failure is reported.
pub fn load_detail(script: Option<Row>, answers: DetailAnswers) -> (p: DetailPayload)
    requires
        script matches Some(row) ==> row.wf(),
        answers.wf(),
    ensures
        p.wf(),
        p.detail == script,
        are_contributors(script, text::views(p.contributors@)),
        dependency_views(p.deps@) == match answers.graph {
            Ok(g) => dependencies_of(g),
            Err(_) => seq![],
        },
        function_views(p.functions@) == functions_in(rows_of(answers.functions)),
        lists_sites(
            p.function_call_sites@,
            functions_in(rows_of(answers.functions)),
            rows_of(answers.callers),
        ),
        json::row_columns(p.checkouts@) == rows_of(answers.revisions),
        p.siblings == answers.siblings,
        p.sibling_dirs == answers.sibling_dirs,
        p.native_path == answers.native_path,
        p.cached_preview@ == preview_of(content_of(script)),
        p.preview_total_lines == text::lines(content_of(script)).len(),
        error_view(p.error) == first_error(answers),
{
    let ghost given = answers;
    let ghost given_script = script;
    let contributors: Vec<String> = match &script {
        Some(row) => contributors_from_script(row),
        None => Vec::new(),
    };
    let content: String = match &script {
        Some(row) => row_string(row, "content"),
        None => String::new(),
    };
    assert(content@ =~= content_of(script));
    let preview = preview_text(content.as_str());
    let mut error: Option<String> = None;
    let deps: Vec<DependencyItem> = match answers.graph {
        Ok(graph) => dependency_items(&graph),
        Err(e) => {
            error = Some(e);
            Vec::new()
        },
    };
    assert(given.graph is Err ==> dependency_views(deps@) =~= seq![]);
    let checkouts: Vec<Row> = match answers.revisions {
        Ok(rows) => rows,
        Err(e) => {
            if error.is_none() {
                error = Some(e);
            }
            Vec::new()
        },
    };
    assert(json::row_columns(checkouts@) =~= rows_of(given.revisions));
    let functions: Vec<FunctionItem> = match answers.functions {
        Ok(rows) => function_items(&rows),
        Err(e) => {
            if error.is_none() {
                error = Some(e);
            }
            Vec::new()
        },
    };
    assert(function_views(functions@) =~= functions_in(rows_of(given.functions)));
    let callers: Vec<Row> = match answers.callers {
        Ok(rows) => rows,
        Err(e) => {
            if error.is_none() {
                error = Some(e);
            }
            Vec::new()
        },
    };
    assert(json::row_columns(callers@) =~= rows_of(given.callers));
    let sites: CallSites = call_sites(&functions, &callers);
    DetailPayload {
        detail: script,
        contributors,
        deps,
        functions,
        function_call_sites: sites,
        checkouts,
        siblings: answers.siblings,
        sibling_dirs: answers.sibling_dirs,
        native_path: answers.native_path,
        cached_preview: preview.0,
        preview_total_lines: preview.1,
        error,
    }
}

/// A script depends on what it uses and on what uses it: nothing of either is
/// left out, and nothing else is listed.
pub proof fn law_dependencies_lead_both_ways(g: DependencyGraph, path: Seq<char>)
    ensures
        dependencies_of(g).contains(DependencyView { kind: "uses"@, path }) <==> exists|i: int|
            0 <= i < g.uses@.len() && #[trigger] g.uses@[i]@ == path,
        path.len() > 0 ==> (dependencies_of(g).contains(DependencyView { kind: "used by"@, path })
            <==> exists|i: int|
            0 <= i < g.used_by@.len() && json::text_or_empty(
                #[trigger] g.used_by@[i]@,
                "logical_path"@,
            ) == path),
{
    reveal_strlit("uses");
    reveal_strlit("used by");
    assert("uses"@.len() == 4 && "used by"@.len() == 7);
    let uses = text::views(g.uses@);
    let rows = json::row_columns(g.used_by@);
    let used = used_scripts(uses);
    let d = DependencyView { kind: "uses"@, path };
    let u = DependencyView { kind: "used by"@, path };
    lemma_used(uses, d);
    lemma_used(uses, u);
    lemma_users(used, rows, d);
    lemma_users(used, rows, u);
    assert(uses.len() == g.uses@.len());
    assert(rows.len() == g.used_by@.len());
    if uses.contains(path) {
        let i = choose|i: int| 0 <= i < uses.len() && uses[i] == path;
        assert(g.uses@[i]@ == path);
    }
    if exists|i: int| 0 <= i < g.uses@.len() && #[trigger] g.uses@[i]@ == path {
        let i = choose|i: int| 0 <= i < g.uses@.len() && #[trigger] g.uses@[i]@ == path;
        assert(uses[i] == path);
    }
    if exists|i: int|
        0 <= i < rows.len() && json::text_or_empty(#[trigger] rows[i], "logical_path"@) == path {
        let i = choose|i: int|
            0 <= i < rows.len() && json::text_or_empty(#[trigger] rows[i], "logical_path"@) == path;
        assert(json::text_or_empty(g.used_by@[i]@, "logical_path"@) == path);
    }
    if exists|i: int|
        0 <= i < g.used_by@.len() && json::text_or_empty(
            #[trigger] g.used_by@[i]@,
            "logical_path"@,
        ) == path {
        let i = choose|i: int|
            0 <= i < g.used_by@.len() && json::text_or_empty(
                #[trigger] g.used_by@[i]@,
                "logical_path"@,
            ) == path;
        assert(json::text_or_empty(rows[i], "logical_path"@) == path);
    }
}

/// What the dependencies on used scripts hold.
proof fn lemma_used(uses: Seq<Seq<char>>, d: DependencyView)
    ensures
        used_scripts(uses).contains(d) <==> d.kind == "uses"@ && uses.contains(d.path),
    decreases uses.len(),
{
    if uses.len() > 0 {
        let rest = uses.drop_last();
        lemma_used(rest, d);
        text::lemma_push_contains(
            used_scripts(rest),
            DependencyView { kind: "uses"@, path: uses.last() },
            d,
        );
        text::lemma_push_contains(rest, uses.last(), d.path);
        assert(rest.push(uses.last()) =~= uses);
    }
}

/// What the scripts that use another one add.
proof fn lemma_users(list: Seq<DependencyView>, rows: Seq<json::Columns>, d: DependencyView)
    ensures
        with_users(list, rows).contains(d) <==> list.contains(d) || (d.kind == "used by"@
            && d.path.len() > 0 && exists|i: int|
            0 <= i < rows.len() && json::text_or_empty(#[trigger] rows[i], "logical_path"@)
                == d.path),
    decreases rows.len(),
{
    if rows.len() > 0 {
        let rest = rows.drop_last();
        lemma_users(list, rest, d);
        let path = json::text_or_empty(rows.last(), "logical_path"@);
        text::lemma_push_contains(
            with_users(list, rest),
            DependencyView { kind: "used by"@, path },
            d,
        );
        if exists|i: int|
            0 <= i < rest.len() && json::text_or_empty(#[trigger] rest[i], "logical_path"@)
                == d.path {
            let i = choose|i: int|
                0 <= i < rest.len() && json::text_or_empty(#[trigger] rest[i], "logical_path"@)
                    == d.path;
            assert(rows[i] == rest[i]);
        }
        if exists|i: int|
            0 <= i < rows.len() && json::text_or_empty(#[trigger] rows[i], "logical_path"@)
                == d.path {
            let i = choose|i: int|
                0 <= i < rows.len() && json::text_or_empty(#[trigger] rows[i], "logical_path"@)
                    == d.path;
            if i < rest.len() {
                assert(rest[i] == rows[i]);
            }
        }
        if path == d.path {
            assert(rows[rows.len() - 1] == rows.last());
        }
    }
}

/// The calls of a function are those of the rows that name it, in order.
pub proof fn law_calls_are_listed_with_their_function(
    rows: Seq<json::Columns>,
    row: json::Columns,
    name: Seq<char>,
)
    ensures
        ({
            let before = sites_of(rows, name);
            let after = sites_of(rows.push(row), name);
            if json::text_or_empty(row, "target_function"@) == name {
                &&& after.len() == before.len() + 1
                &&& after.drop_last() == before
                &&& after.last().caller_path == json::text_or_empty(row, "logical_path"@)
                &&& after.last().caller == json::text_or_empty(row, "caller"@)
                &&& after.last().callee == json::text_or_empty(row, "callee"@)
            } else {
                after == before
            }
        }),
{
    assert(rows.push(row).drop_last() =~= rows);
    let before = sites_of(rows, name);
    assert(before.push(site_in(row)).drop_last() =~= before);
}

/// A line is counted from one, as far as a scroll position goes; what names no
/// line stands for the first one.
pub proof fn law_lines_are_counted_from_one(row: json::Columns, n: i64)
    ensures
        1 <= line_in(row),
        row.contains_key("line"@) && row["line"@] == json::ValueView::Int(n) && 1 <= n <= 65535
            ==> line_in(row) == n,
        !row.contains_key("line"@) ==> line_in(row) == 1,
{
}

/// Of a description its first line is shown, and of a script its first five
/// hundred.
pub proof fn law_previews_start_at_the_first_line(line: Seq<char>, rest: Seq<char>)
    requires
        !line.contains('\n'),
        line.len() > 0,
        line.last() != '\r',
    ensures
        headline(line + "\n"@ + rest) == text::trim(line),
        headline(line) == text::trim(line),
        ({
            let content = line + "\n"@ + rest;
            let all = text::lines(content);
            all.len() <= 500 ==> preview_of(content) == text::join(all, "\n"@)
        }),
        ({
            let content = line + "\n"@ + rest;
            let all = text::lines(content);
            all.len() > 500 ==> preview_of(content) == text::join(all.take(500), "\n"@)
        }),
{
    reveal_strlit("\n");
    assert("\n"@ =~= seq!['\n']);
    text::law_lines_end_at_line_ends(line, rest);
}

/// Where several answers failed, the first failure is told.
pub proof fn law_a_failure_is_told(a: DetailAnswers)
    ensures
        first_error(a) is None <==> a.graph is Ok && a.revisions is Ok && a.functions is Ok
            && a.callers is Ok,
        a.graph matches Err(e) ==> first_error(a) == Some(e@),
        a.graph is Ok ==> (a.revisions matches Err(e) ==> first_error(a) == Some(e@)),
        a.graph is Ok && a.revisions is Ok ==> (a.functions matches Err(e) ==> first_error(a)
            == Some(e@)),
        a.graph is Ok && a.revisions is Ok && a.functions is Ok ==> (a.callers matches Err(e)
            ==> first_error(a) == Some(e@)),
{
}

} // verus!
