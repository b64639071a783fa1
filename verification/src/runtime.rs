//! What the command line decides: logging, exit codes, which catalog is
//! opened, and the pass-through to the version control tool.

use vstd::prelude::*;

use crate::json;
use crate::json::{Row, Value};
use crate::sorted_map::SortedMap;
use crate::text;
use crate::text::{chars_of, concat, concat3, slice_text};

verus! {

/// The log filter of a number of verbosity flags.
pub open spec fn directive_of(verbose: u8) -> Seq<char> {
    if verbose == 0 {
        "warn"@
    } else if verbose == 1 {
        "debug"@
    } else {
        "trace"@
    }
}

/// The log filter of a number of verbosity flags.
pub fn verbosity_directive(verbose: u8) -> (directive: &'static str)
    ensures
        directive@ == directive_of(verbose),
{
    match verbose {
        0 => "warn",
        1 => "debug",
        _ => "trace",
    }
}

/// The log filter: that of the environment where it is set, else that of the
/// verbosity flags.
pub fn effective_log_spec(verbose: u8, rust_log: Option<&str>) -> (filter: String)
    ensures
        filter@ == match rust_log {
            Some(value) => value@,
            None => directive_of(verbose),
        },
{
    match rust_log {
        Some(value) => value.to_owned(),
        None => verbosity_directive(verbose).to_owned(),
    }
}

/// The findings of an audit.
#[derive(Debug, Clone, Copy, PartialEq, Eq, Structural)]
pub struct AuditSummary {
    pub error: usize,
    pub warn: usize,
    pub info: usize,
}

/// The exit code of an audit: errors count always, warnings where the audit is
/// strict.
pub fn audit_exit_code(summary: &AuditSummary, strict: bool) -> (code: i32)
    ensures
        code == if summary.error > 0 {
            2i32
        } else if strict && summary.warn > 0 {
            1i32
        } else {
            0i32
        },
{
    if summary.error > 0 {
        2
    } else if strict && summary.warn > 0 {
        1
    } else {
        0
    }
}

// ---------------------------------------------------------------------------
// The version control tool
// ---------------------------------------------------------------------------

/// `name` in the directory `dir`.
pub open spec fn in_dir(dir: Seq<char>, name: Seq<char>) -> Seq<char> {
    if dir.len() == 0 {
        name
    } else if dir.last() == '/' {
        dir + name
    } else {
        dir + "/"@ + name
    }
}

/// Where the tool may lie, in the order in which it is looked for: in each
/// directory first `vc`, then `vc.py`.
pub open spec fn candidates(dirs: Seq<Seq<char>>) -> Seq<Seq<char>>
    decreases dirs.len(),
{
    if dirs.len() == 0 {
        seq![]
    } else {
        candidates(dirs.drop_last()).push(in_dir(dirs.last(), "vc"@)).push(
            in_dir(dirs.last(), "vc.py"@),
        )
    }
}

/// `name` in the directory `dir`.
fn join_dir(dir: &str, name: &str) -> (path: String)
    ensures
        path@ == in_dir(dir@, name@),
{
    let v: Vec<char> = chars_of(dir);
    if v.len() == 0 {
        name.to_owned()
    } else if v[v.len() - 1] == '/' {
        concat(dir, name)
    } else {
        concat3(dir, "/", name)
    }
}

/// Where the tool may lie, in the order in which it is looked for.
pub fn vc_candidates(dirs: &Vec<String>) -> (paths: Vec<String>)
    ensures
        text::views(paths@) == candidates(text::views(dirs@)),
{
    let ghost all = text::views(dirs@);
    let mut paths: Vec<String> = Vec::new();
    let mut i: usize = 0;
    assert(all.take(0) =~= seq![]);
    assert(text::views(paths@) =~= candidates(all.take(0)));
    while i < dirs.len()
        invariant
            i <= dirs@.len(),
            all == text::views(dirs@),
            text::views(paths@) == candidates(all.take(i as int)),
        decreases dirs@.len() - i,
    {
        proof {
            assert(all.take(i + 1).drop_last() =~= all.take(i as int));
            assert(all.take(i + 1).last() == dirs@[i as int]@);
        }
        paths.push(join_dir(dirs[i].as_str(), "vc"));
        paths.push(join_dir(dirs[i].as_str(), "vc.py"));
        assert(text::views(paths@) =~= candidates(all.take(i + 1)));
        i = i + 1;
    }
    assert(all.take(all.len() as int) =~= all);
    paths
}

/// What is known of a file.
#[derive(Debug, Clone, Copy, PartialEq, Eq, Structural)]
pub struct FileMode {
    pub is_file: bool,
    /// The permission bits.
    pub mode: u32,
}

/// Whether a file can be run: it is one, and somebody may execute it.
pub open spec fn can_run(m: Option<FileMode>) -> bool {
    m matches Some(f) && f.is_file && f.mode & 0o111 != 0
}

/// The first of `paths` that can be run, of what is known of each.
pub fn first_executable(paths: &Vec<String>, modes: &Vec<Option<FileMode>>) -> (found: Option<
    String,
>)
    requires
        paths@.len() == modes@.len(),
    ensures
        match found {
            Some(path) => exists|i: int|
                0 <= i < paths@.len() && path@ == paths@[i]@ && can_run(#[trigger] modes@[i])
                    && forall|j: int| 0 <= j < i ==> !can_run(#[trigger] modes@[j]),
            None => forall|i: int| 0 <= i < modes@.len() ==> !can_run(#[trigger] modes@[i]),
        },
{
    let mut i: usize = 0;
    while i < paths.len()
        invariant
            i <= paths@.len() == modes@.len(),
            forall|j: int| 0 <= j < i ==> !can_run(#[trigger] modes@[j]),
        decreases paths@.len() - i,
    {
        match modes[i] {
            Some(f) => {
                if f.is_file && f.mode & 0o111 != 0 {
                    assert(can_run(modes@[i as int]));
                    return Some(paths[i].clone());
                }
            },
            None => {},
        }
        i = i + 1;
    }
    None
}

/// What came of a call of the tool.
#[derive(Debug)]
pub struct VcOutput {
    /// The exit code; `None` where the tool was killed.
    pub code: Option<i32>,
    pub stdout: String,
    pub stderr: String,
}

/// What the pass-through prints and how it ends.
#[derive(Debug)]
pub struct VcReport {
    /// The object that is printed where JSON is asked for.
    pub json: Row,
    /// What is printed to each stream otherwise.
    pub stdout: String,
    pub stderr: String,
    pub exit_code: i32,
}

/// The exit code of a call of the tool; one that was killed counts as failed.
pub open spec fn vc_code(output: Option<VcOutput>) -> i32 {
    match output {
        Some(o) => match o.code {
            Some(c) => c,
            None => 1,
        },
        None => 1,
    }
}

/// What the pass-through prints and how it ends; without the tool it says so
/// and ends well.
pub fn vc_report(output: Option<VcOutput>) -> (report: VcReport)
    ensures
        report.json.wf(),
        report.json@.dom() == set!["available"@, "returncode"@, "stdout"@, "stderr"@],
        report.json@["available"@] == json::ValueView::Bool(output is Some),
        report.json@["returncode"@] == json::ValueView::Int(vc_code(output) as i64),
        report.json@["stdout"@] == json::ValueView::Text(
            match output {
                Some(o) => o.stdout@,
                None => ""@,
            },
        ),
        report.json@["stderr"@] == json::ValueView::Text(
            match output {
                Some(o) => o.stderr@,
                None => "vc not found on PATH"@,
            },
        ),
        report.stdout@ == match output {
            Some(o) => o.stdout@,
            None => "vc is unavailable; scat remains in read-only catalog mode.\n"@,
        },
        report.stderr@ == match output {
            Some(o) => o.stderr@,
            None => ""@,
        },
        report.exit_code == match output {
            Some(o) => vc_code(output),
            None => 0i32,
        },
{
    proof {
        reveal_strlit("available");
        reveal_strlit("returncode");
        reveal_strlit("stdout");
        reveal_strlit("stderr");
        assert("available"@.len() == 9 && "returncode"@.len() == 10);
        assert("stdout"@.len() == 6 && "stderr"@.len() == 6 && "stdout"@[3] != "stderr"@[3]);
    }
    let mut object: Row = Row::new();
    match output {
        Some(o) => {
            let code: i32 = match o.code {
                Some(c) => c,
                None => 1,
            };
            object.insert("available", Value::Bool(true));
            object.insert("returncode", Value::Int(code as i64));
            object.insert("stdout", Value::Text(o.stdout.clone()));
            object.insert("stderr", Value::Text(o.stderr.clone()));
            assert(object@.dom() =~= set!["available"@, "returncode"@, "stdout"@, "stderr"@]);
            VcReport { json: object, stdout: o.stdout, stderr: o.stderr, exit_code: code }
        },
        None => {
            object.insert("available", Value::Bool(false));
            object.insert("returncode", Value::Int(1));
            object.insert("stdout", Value::Text("".to_owned()));
            object.insert("stderr", Value::Text("vc not found on PATH".to_owned()));
            assert(object@.dom() =~= set!["available"@, "returncode"@, "stdout"@, "stderr"@]);
            VcReport {
                json: object,
                stdout: "vc is unavailable; scat remains in read-only catalog mode.\n".to_owned(),
                stderr: "".to_owned(),
                exit_code: 0,
            }
        },
    }
}

// ---------------------------------------------------------------------------
// The command line
// ---------------------------------------------------------------------------

/// What is said where no catalog is named.
pub const NO_DATABASE_HINT: &'static str =
    "No database specified. Use --db <path>, set SCAT_DB, or add db_path to the config file.";

/// The catalog to open: that of the command line or the environment, else that
/// of the configuration.
pub fn database_path(given: Option<String>, configured: Option<String>) -> (path: Result<
    String,
    &'static str,
>)
    ensures
        match (given, configured) {
            (Some(p), _) => path == Ok::<String, &'static str>(p),
            (None, Some(p)) => path == Ok::<String, &'static str>(p),
            (None, None) => path is Err && path->Err_0@ == NO_DATABASE_HINT@,
        },
{
    match given {
        Some(p) => Ok(p),
        None => match configured {
            Some(p) => Ok(p),
            None => Err(NO_DATABASE_HINT),
        },
    }
}

/// The query that a search text stands for: a text that starts with `@` names
/// a bookmark, and where there is no such bookmark the name itself is looked
/// for.
pub open spec fn query_of(query: Seq<char>, bookmarks: Map<Seq<char>, String>) -> Seq<char> {
    if query.len() > 0 && query[0] == '@' {
        let alias = query.skip(1);
        if bookmarks.contains_key(alias) {
            bookmarks[alias]@
        } else {
            alias
        }
    } else {
        query
    }
}

/// The query that a search text stands for.
pub fn resolve_bookmark(query: &str, bookmarks: &SortedMap<String>) -> (resolved: String)
    requires
        bookmarks.wf(),
    ensures
        resolved@ == query_of(query@, bookmarks@),
{
    let v: Vec<char> = chars_of(query);
    if v.len() == 0 || v[0] != '@' {
        return query.to_owned();
    }
    let alias: String = slice_text(&v, 1, v.len());
    assert(alias@ =~= query@.skip(1));
    match bookmarks.get(alias.as_str()) {
        Some(expanded) => expanded.clone(),
        None => alias,
    }
}

// ---------------------------------------------------------------------------
// What the command line stands for
// ---------------------------------------------------------------------------

/// A text that starts with `@` stands for the bookmark of that name, or for
/// the name itself where there is no such bookmark; any other text stands for
/// itself.
pub proof fn law_bookmarks_stand_for_their_query(
    alias: Seq<char>,
    bookmarks: Map<Seq<char>, String>,
    query: Seq<char>,
)
    ensures
        query_of("@"@ + alias, bookmarks) == if bookmarks.contains_key(alias) {
            bookmarks[alias]@
        } else {
            alias
        },
        query.len() == 0 || query[0] != '@' ==> query_of(query, bookmarks) == query,
{
    reveal_strlit("@");
    assert(("@"@ + alias).skip(1) =~= alias);
}

/// The tool is looked for in each directory in turn, in each as `vc` and then
/// as `vc.py`.
pub proof fn law_the_tool_is_looked_for_in_each_directory(dirs: Seq<Seq<char>>, i: int)
    requires
        0 <= i < dirs.len(),
        dirs[i].len() > 0,
        dirs[i].last() != '/',
    ensures
        candidates(dirs).len() == 2 * dirs.len(),
        candidates(dirs)[2 * i] == dirs[i] + "/vc"@,
        candidates(dirs)[2 * i + 1] == dirs[i] + "/vc.py"@,
    decreases dirs.len(),
{
    reveal_strlit("/");
    reveal_strlit("vc");
    reveal_strlit("vc.py");
    reveal_strlit("/vc");
    reveal_strlit("/vc.py");
    lemma_candidates(dirs.drop_last());
    if i < dirs.len() - 1 {
        assert(dirs.drop_last()[i] == dirs[i]);
        law_the_tool_is_looked_for_in_each_directory(dirs.drop_last(), i);
    } else {
        assert(dirs[i] + "/"@ + "vc"@ =~= dirs[i] + "/vc"@);
        assert(dirs[i] + "/"@ + "vc.py"@ =~= dirs[i] + "/vc.py"@);
    }
}

/// There are two places for each directory.
proof fn lemma_candidates(dirs: Seq<Seq<char>>)
    ensures
        candidates(dirs).len() == 2 * dirs.len(),
    decreases dirs.len(),
{
    if dirs.len() > 0 {
        lemma_candidates(dirs.drop_last());
    }
}

/// More verbosity flags never log less: warnings at first, and with one flag
/// and with more of them what is below.
pub proof fn law_verbosity_goes_from_warnings_to_traces(verbose: u8)
    ensures
        directive_of(0) == "warn"@,
        directive_of(1) == "debug"@,
        verbose >= 2 ==> directive_of(verbose) == "trace"@,
{
}

/// A file can be run where its owner, its group or all others may execute it.
pub proof fn law_executable_files_can_be_run(f: FileMode)
    ensures
        can_run(Some(f)) <==> f.is_file && (f.mode & 0o100 != 0 || f.mode & 0o010 != 0 || f.mode
            & 0o001 != 0),
        !can_run(None),
{
    let mode = f.mode;
    assert(mode & 0o111 != 0 <==> (mode & 0o100 != 0 || mode & 0o010 != 0 || mode & 0o001 != 0))
        by (bit_vector);
}

/// A name is looked for in a directory whether that is written with a slash at
/// its end or without, and in no directory it stands for itself.
pub proof fn law_a_slash_behind_a_directory_changes_nothing(dir: Seq<char>, name: Seq<char>)
    requires
        dir.len() > 0,
        dir.last() != '/',
    ensures
        in_dir(dir, name) == dir + "/"@ + name,
        in_dir(dir + "/"@, name) == in_dir(dir, name),
        in_dir(seq![], name) == name,
{
    reveal_strlit("/");
    assert("/"@ =~= seq!['/']);
}

/// What the tool ends with is passed on; where it did not end by itself, or
/// could not be run, that is a failure.
pub proof fn law_the_code_of_the_tool_is_passed_on(o: VcOutput, code: i32)
    ensures
        o.code == Some(code) ==> vc_code(Some(o)) == code,
        o.code is None ==> vc_code(Some(o)) != 0,
        vc_code(None) != 0,
{
}

} // verus!
