//! What the browser asks its workers for, and what they answer.

use vstd::prelude::*;

use crate::json;
use crate::json::{row_string, Row};
use crate::text;
use crate::text::{concat, concat3, same_text, text_before};
use crate::tui::detail_worker::DetailRequest;

verus! {

/// Asks for the scripts that match a query.
#[derive(Debug)]
pub struct SearchRequest {
    pub id: u64,
    pub query: String,
    pub limit: usize,
}

/// The scripts that match a query, or why there are none.
#[derive(Debug)]
pub struct SearchResponse {
    pub id: u64,
    pub result: Result<Vec<Row>, String>,
}

/// Asks for the differences between a script and one of its revisions, or its
/// latest checkout.
#[derive(Debug)]
pub struct DiffRequest {
    pub id: u64,
    pub path: String,
    pub revision_physical_path: Option<String>,
}

/// The differences as text.
#[derive(Debug)]
pub struct DiffResponse {
    pub id: u64,
    pub output: String,
}

/// Asks whether the file behind a script exists.
#[derive(Debug)]
pub struct FileCheckRequest {
    pub id: u64,
    pub logical_path: String,
    pub native_path: String,
    /// Whether a path mapping was applied.
    pub mapped: bool,
}

/// Whether the file behind a script exists.
#[derive(Debug)]
pub struct FileCheckResponse {
    pub id: u64,
    pub logical_path: String,
    pub native_path: String,
    pub mapped: bool,
    pub exists: bool,
}

/// Asks for what a directory of the catalog holds.
#[derive(Debug)]
pub struct FolderRequest {
    pub id: u64,
    pub dir: String,
}

/// What a directory of the catalog holds.
#[derive(Debug)]
pub struct FolderListing {
    pub dirs: Vec<String>,
    pub scripts: Vec<Row>,
}

/// What a directory of the catalog holds, or why that is unknown.
#[derive(Debug)]
pub struct FolderResponse {
    pub id: u64,
    pub dir: String,
    pub result: Result<FolderListing, String>,
}

/// Asks for the figures of the catalog.
#[derive(Debug)]
pub struct StatsRequest {
    pub id: u64,
}

/// The figures of the catalog, or why they are unknown.
#[derive(Debug)]
pub struct StatsResponse {
    pub id: u64,
    pub result: Result<Row, String>,
}

/// Work that the browser wants done.
#[derive(Debug)]
pub enum Request {
    Search(SearchRequest),
    Detail(DetailRequest),
    Diff(DiffRequest),
    FileCheck(FileCheckRequest),
    Folder(FolderRequest),
    Stats(StatsRequest),
    /// Put a text into the clipboard.
    Copy(String),
}

/// The value of a request.
pub enum RequestView {
    Search { id: u64, query: Seq<char>, limit: usize },
    Detail { id: u64, path: Seq<char> },
    Diff { id: u64, path: Seq<char>, revision: Option<Seq<char>> },
    FileCheck { id: u64, logical_path: Seq<char>, native_path: Seq<char>, mapped: bool },
    Folder { id: u64, dir: Seq<char> },
    Stats { id: u64 },
    Copy { text: Seq<char> },
}

impl View for Request {
    type V = RequestView;

    open spec fn view(&self) -> RequestView {
        match self {
            Request::Search(r) => RequestView::Search {
                id: r.id,
                query: r.query@,
                limit: r.limit,
            },
            Request::Detail(r) => RequestView::Detail { id: r.id, path: r.path@ },
            Request::Diff(r) => RequestView::Diff {
                id: r.id,
                path: r.path@,
                revision: match r.revision_physical_path {
                    Some(p) => Some(p@),
                    None => None,
                },
            },
            Request::FileCheck(r) => RequestView::FileCheck {
                id: r.id,
                logical_path: r.logical_path@,
                native_path: r.native_path@,
                mapped: r.mapped,
            },
            Request::Folder(r) => RequestView::Folder { id: r.id, dir: r.dir@ },
            Request::Stats(r) => RequestView::Stats { id: r.id },
            Request::Copy(text) => RequestView::Copy { text: text@ },
        }
    }
}

/// The most recent checkout in development among the first `n` revisions, by
/// its place; of several with one timestamp the first.
pub open spec fn newest_develop(revisions: Seq<json::Columns>, n: int) -> Option<int>
    decreases n,
{
    if n <= 0 {
        None
    } else {
        let before = newest_develop(revisions, n - 1);
        let row = revisions[n - 1];
        if json::text_or_empty(row, "revision_type"@) == "DEVELOP"@ && (before is None
            || text::text_lt(
            json::text_or_empty(revisions[before.unwrap()], "timestamp"@),
            json::text_or_empty(row, "timestamp"@),
        )) {
            Some(n - 1)
        } else {
            before
        }
    }
}

/// The file that a script is compared with: the revision that is asked for, or
/// else the most recent checkout in development; `None` where there is none.
pub fn revision_to_compare(asked: &Option<String>, revisions: &Vec<Row>) -> (path: Option<String>)
    requires
        json::rows_wf(revisions@),
    ensures
        match *asked {
            Some(p) => path matches Some(r) && r@ == p@,
            None => {
                let rows = json::row_columns(revisions@);
                match newest_develop(rows, rows.len() as int) {
                    Some(i) => path matches Some(r) && r@ == json::text_or_empty(
                        rows[i],
                        "physical_path"@,
                    ),
                    None => path is None,
                }
            },
        },
{
    if let Some(p) = asked {
        return Some(p.clone());
    }
    let ghost rows = json::row_columns(revisions@);
    let mut newest: Option<usize> = None;
    let mut i: usize = 0;
    while i < revisions.len()
        invariant
            i <= revisions@.len(),
            json::rows_wf(revisions@),
            rows == json::row_columns(revisions@),
            match newest {
                Some(k) => k < i && newest_develop(rows, i as int) == Some(k as int),
                None => newest_develop(rows, i as int) is None,
            },
        decreases revisions@.len() - i,
    {
        assert(rows[i as int] == revisions@[i as int]@);
        let kind: String = row_string(&revisions[i], "revision_type");
        if same_text(kind.as_str(), "DEVELOP") {
            let newer: bool = match newest {
                Some(k) => {
                    assert(rows[k as int] == revisions@[k as int]@);
                    let known: String = row_string(&revisions[k], "timestamp");
                    let own: String = row_string(&revisions[i], "timestamp");
                    text_before(known.as_str(), own.as_str())
                },
                None => true,
            };
            if newer {
                newest = Some(i);
            }
        }
        i = i + 1;
    }
    match newest {
        Some(k) => {
            assert(rows[k as int] == revisions@[k as int]@);
            Some(row_string(&revisions[k], "physical_path"))
        },
        None => None,
    }
}

/// What the diff view shows where there are no differences to show.
pub fn diff_unavailable(logical_path: &str, reason: &str) -> (text: String)
    ensures
        text@ == "Diff unavailable for '"@ + logical_path@ + "'.\n\n"@ + reason@,
{
    let head: String = concat3("Diff unavailable for '", logical_path, "'.\n\n");
    concat(head.as_str(), reason)
}

/// A script is compared with a checkout in development that no other is newer
/// than, where there is one.
pub proof fn law_the_newest_checkout_is_compared(revisions: Seq<json::Columns>, n: int)
    requires
        0 <= n <= revisions.len(),
    ensures
        match newest_develop(revisions, n) {
            Some(k) => {
                &&& 0 <= k < n
                &&& json::text_or_empty(revisions[k], "revision_type"@) == "DEVELOP"@
                &&& forall|i: int|
                    0 <= i < n && json::text_or_empty(#[trigger] revisions[i], "revision_type"@)
                        == "DEVELOP"@ ==> !text::text_lt(
                        json::text_or_empty(revisions[k], "timestamp"@),
                        json::text_or_empty(revisions[i], "timestamp"@),
                    )
            },
            None => forall|i: int|
                0 <= i < n ==> json::text_or_empty(#[trigger] revisions[i], "revision_type"@)
                    != "DEVELOP"@,
        },
    decreases n,
{
    if n > 0 {
        law_the_newest_checkout_is_compared(revisions, n - 1);
        let last = json::text_or_empty(revisions[n - 1], "timestamp"@);
        text::lemma_text_lt_irreflexive(last);
        match (newest_develop(revisions, n - 1), newest_develop(revisions, n)) {
            (Some(k), Some(m)) => if m == n - 1 && m != k {
                let known = json::text_or_empty(revisions[k], "timestamp"@);
                assert forall|i: int|
                    0 <= i < n && json::text_or_empty(#[trigger] revisions[i], "revision_type"@)
                        == "DEVELOP"@ implies !text::text_lt(
                    last,
                    json::text_or_empty(revisions[i], "timestamp"@),
                ) by {
                    let own = json::text_or_empty(revisions[i], "timestamp"@);
                    if i < n - 1 && text::text_lt(last, own) {
                        text::lemma_text_lt_transitive(known, last, own);
                    }
                }
            },
            _ => {},
        }
    }
}

} // verus!
