//! The decisions of an index build: what is reused, what is extracted, what is
//! counted, and what becomes of the finished database.

use vstd::prelude::*;
use vstd::string::StringExecFns;

use crate::ast_deps;
use crate::ast_deps::{python_deps_of_parse, AstDependencies};
use crate::checkpoint::Checkpoint;
use crate::extractor;
use crate::extractor::{copy_texts, extract, ExtractedMetadata};
use crate::patterns;
use crate::resolve;
use crate::resolve::module_name_from_logical_path;
use crate::scanner::ScriptRecord;
use crate::sidecar;
use crate::sidecar::{apply_sidecar, Sidecar};
use crate::sorted_map::SortedMap;
use crate::syntax::SyntaxTree;
use crate::text;
use crate::text::{push_all, same_text};
use crate::treesitter_deps;
use crate::treesitter_deps::{
    deps_by_pattern, deps_of_parse, extract_reference_paths, yaml_deps_of_parse,
    TreeSitterExtractor,
};

verus! {

// ---------------------------------------------------------------------------
// Options and result
// ---------------------------------------------------------------------------

/// Summary of one indexing run.
#[derive(Debug)]
pub struct IndexResult {
    /// Number of scripts that the index holds.
    pub scripts_indexed: usize,
    /// Of `scripts_indexed`, how many were not extracted again because they
    /// were already there and unchanged.
    pub scripts_reused: usize,
    /// Number of dependency edges recorded.
    pub dependencies_indexed: usize,
    /// Output database path (temporary path for a dry run).
    pub db_path: String,
    /// Whether indexing was a dry run.
    pub dry_run: bool,
    /// Paths that could not be processed, with what went wrong.
    pub errors: Vec<(String, String)>,
}

/// Options controlling index build behavior.
#[derive(Debug)]
pub struct BuildOptions {
    /// Prefix prepended to logical paths.
    pub logical_prefix: String,
    /// Number of head lines to read for shebang detection; zero stands for the
    /// default.
    pub head_lines: usize,
    /// Additional ignore files applied during scanning.
    pub ignore_files: Vec<String>,
    /// Number of rotated historical copies to retain.
    pub keep_copies: u64,
    /// Build into a temporary database without replacing the live one.
    pub dry_run: bool,
    /// Show no progress.
    pub quiet: bool,
    /// Ignore any existing checkpoint and start fresh.
    pub no_resume: bool,
    /// Always do a full rebuild.
    pub no_incremental: bool,
    /// Worker threads; `None` leaves their number open.
    pub threads: Option<usize>,
}

/// What is at a path.
#[derive(Debug, Clone, Copy, PartialEq, Eq, Structural)]
pub enum PathKind {
    Missing,
    File,
    Directory,
    Other,
}

/// Why a build cannot start.
#[derive(Debug, Clone, Copy, PartialEq, Eq, Structural)]
pub enum BuildError {
    /// The database path is a directory.
    IsDirectory,
    /// The database path is neither a file nor a directory.
    IsNotAFile,
    /// No worker threads are allowed.
    NoThreads,
}

/// What a build error says of the given path.
pub open spec fn error_message(e: BuildError, path: Seq<char>) -> Seq<char> {
    match e {
        BuildError::IsDirectory => "database path must be a file, found directory: "@ + path,
        BuildError::IsNotAFile => "database path must be a file, found non-file: "@ + path,
        BuildError::NoThreads => "threads must be greater than zero"@,
    }
}

impl BuildError {
    /// What the error says of the given path.
    pub fn message(&self, path: &str) -> (s: String)
        ensures
            s@ == error_message(*self, path@),
    {
        match self {
            BuildError::IsDirectory => {
                let mut s: String = "database path must be a file, found directory: ".to_owned();
                s.append(path);
                s
            },
            BuildError::IsNotAFile => {
                let mut s: String = "database path must be a file, found non-file: ".to_owned();
                s.append(path);
                s
            },
            BuildError::NoThreads => "threads must be greater than zero".to_owned(),
        }
    }
}

/// Whether a build can start: the database path is free or a file, and at
/// least one thread is allowed.
pub fn check_build(db: PathKind, threads: Option<usize>) -> (r: Result<(), BuildError>)
    ensures
        r is Ok <==> (db == PathKind::Missing || db == PathKind::File) && threads != Some(0usize),
        r == Err::<(), BuildError>(BuildError::IsDirectory) <==> db == PathKind::Directory,
        r == Err::<(), BuildError>(BuildError::IsNotAFile) <==> db == PathKind::Other,
{
    match db {
        PathKind::Directory => Err(BuildError::IsDirectory),
        PathKind::Other => Err(BuildError::IsNotAFile),
        _ => match threads {
            Some(n) => if n == 0 {
                Err(BuildError::NoThreads)
            } else {
                Ok(())
            },
            None => Ok(()),
        },
    }
}

/// Whether a catalog that was built at `built`, if there is one, is to be
/// built again: always where that is forced or there is no catalog, else where
/// a scanned file is newer, or no file was found to tell. Times are in
/// nanoseconds since the UNIX epoch.
pub fn needs_rebuild(newest: Option<u64>, built: Option<u64>, force: bool) -> (b: bool)
    ensures
        b == (force || match (newest, built) {
            (Some(n), Some(t)) => n > t,
            _ => true,
        }),
{
    if force {
        return true;
    }
    match (newest, built) {
        (Some(n), Some(t)) => n > t,
        _ => true,
    }
}

/// Number of head lines where none is given.
pub const DEFAULT_HEAD_LINES: usize = 10;

/// The number of head lines to read.
pub fn effective_head_lines(head_lines: usize) -> (n: usize)
    ensures
        n == if head_lines == 0 {
            DEFAULT_HEAD_LINES
        } else {
            head_lines
        },
{
    if head_lines == 0 {
        DEFAULT_HEAD_LINES
    } else {
        head_lines
    }
}

/// Whether a build starts from a copy of the previous one: on a fresh attempt
/// that is not a dry run, where that is wanted, and where the previous build
/// has exactly the current schema.
pub fn incremental_seed(
    resuming: bool,
    dry_run: bool,
    no_incremental: bool,
    previous_schema: Option<i64>,
    schema: i64,
) -> (b: bool)
    ensures
        b == (!resuming && !dry_run && !no_incremental && previous_schema == Some(schema)),
{
    !resuming && !dry_run && !no_incremental && (match previous_schema {
        Some(v) => v == schema,
        None => false,
    })
}

/// Whether a finished database is sound: its integrity check said `ok` and it
/// has its metadata row. What is wrong with it otherwise.
pub fn validate(check: &str, has_metadata: bool) -> (r: Result<(), String>)
    ensures
        r is Ok <==> check@ == "ok"@ && has_metadata,
        r matches Err(e) ==> e@ == if check@ != "ok"@ {
            "integrity_check failed: "@ + check@
        } else {
            "index_metadata row missing"@
        },
{
    if !same_text(check, "ok") {
        let mut e: String = "integrity_check failed: ".to_owned();
        e.append(check);
        return Err(e);
    }
    if !has_metadata {
        return Err("index_metadata row missing".to_owned());
    }
    Ok(())
}

/// What becomes of a build.
#[derive(Debug, Clone, Copy, PartialEq, Eq, Structural)]
pub enum Finish {
    /// The build failed; whether its database is to be deleted.
    Failed { delete: bool },
    /// The build was interrupted; what there is can be resumed.
    Interrupted,
    /// The temporary database is the result.
    DryRun,
    /// The database is to be published; whether copies are rotated before.
    Publish { rotate: bool },
}

/// What becomes of a build that succeeded or failed. A failed build leaves
/// nothing behind, unless it was told to stop: then it can be resumed.
pub fn finish_build(
    succeeded: bool,
    shutdown: bool,
    dry_run: bool,
    db_exists: bool,
    keep_copies: u64,
) -> (f: Finish)
    ensures
        f == if !succeeded {
            Finish::Failed { delete: !shutdown }
        } else if shutdown {
            Finish::Interrupted
        } else if dry_run {
            Finish::DryRun
        } else {
            Finish::Publish { rotate: db_exists && keep_copies > 0 }
        },
{
    if !succeeded {
        Finish::Failed { delete: !shutdown }
    } else if shutdown {
        Finish::Interrupted
    } else if dry_run {
        Finish::DryRun
    } else {
        Finish::Publish { rotate: db_exists && keep_copies > 0 }
    }
}

// ---------------------------------------------------------------------------
// Incremental seeding
// ---------------------------------------------------------------------------

/// A script that the previous build holds.
#[derive(Debug)]
pub struct ExistingScript {
    pub logical_path: String,
    pub size: u64,
    pub mtime_nanos: u64,
    pub content_hash: String,
}

/// Whether a scanned script is the one that the previous build holds.
#[derive(Debug, Clone, Copy, PartialEq, Eq, Structural)]
pub enum Reuse {
    /// Size and mtime are the same.
    Same,
    /// Size or mtime differ, but the content is the same: the stored ones are
    /// to be refreshed.
    Touched,
    /// It is new or changed.
    Changed,
}

/// The row of a script in the previous build, by its logical path.
pub open spec fn existing_at(existing: Seq<ExistingScript>, path: Seq<char>, n: int) -> Option<int>
    decreases n,
{
    if n <= 0 {
        None
    } else if existing[n - 1].logical_path@ == path {
        Some(n - 1)
    } else {
        existing_at(existing, path, n - 1)
    }
}

/// Whether a scanned script can be reused: the same size and mtime, or else
/// the same digest of its content.
pub open spec fn reuse_of(
    existing: Seq<ExistingScript>,
    record: ScriptRecord,
    hash: Option<Seq<char>>,
) -> Reuse {
    match existing_at(existing, record.logical_path@, existing.len() as int) {
        Some(i) => {
            let e = existing[i];
            if e.size == record.size && e.mtime_nanos == record.mtime_nanos {
                Reuse::Same
            } else if hash is Some && hash.unwrap().len() > 0 && hash.unwrap() == e.content_hash@ {
                Reuse::Touched
            } else {
                Reuse::Changed
            }
        },
        None => Reuse::Changed,
    }
}

/// The index of the previous build by logical path.
#[derive(Debug)]
pub struct PreviousBuild {
    pub scripts: Vec<ExistingScript>,
    pub by_path: SortedMap<usize>,
}

impl PreviousBuild {
    /// Whether the index finds exactly the rows.
    pub open spec fn wf(&self) -> bool {
        &&& self.by_path.wf()
        &&& forall|p: Seq<char>| #[trigger]
            self.by_path@.contains_key(p) ==> self.by_path@[p] < self.scripts@.len()
        &&& forall|p: Seq<char>| #[trigger]
            existing_at(self.scripts@, p, self.scripts@.len() as int) == if self.by_path@.contains_key(
                p,
            ) {
                Some(self.by_path@[p] as int)
            } else {
                None
            }
    }

    /// Indexes the rows of a previous build.
    pub fn new(scripts: Vec<ExistingScript>) -> (b: PreviousBuild)
        ensures
            b.wf(),
            b.scripts@ == scripts@,
    {
        let mut by_path: SortedMap<usize> = SortedMap::new();
        let mut i: usize = 0;
        while i < scripts.len()
            invariant
                i <= scripts@.len(),
                by_path.wf(),
                forall|p: Seq<char>| #[trigger] by_path@.contains_key(p) ==> by_path@[p] < i,
                forall|p: Seq<char>| #[trigger]
                    existing_at(scripts@, p, i as int) == if by_path@.contains_key(p) {
                        Some(by_path@[p] as int)
                    } else {
                        None
                    },
            decreases scripts@.len() - i,
        {
            let ghost before = by_path@;
            by_path.insert(scripts[i].logical_path.as_str(), i);
            assert forall|p: Seq<char>| #[trigger] existing_at(scripts@, p, i + 1) == if by_path@
                .contains_key(p) {
                Some(by_path@[p] as int)
            } else {
                None
            } by {
                assert(existing_at(scripts@, p, i as int) == if before.contains_key(p) {
                    Some(before[p] as int)
                } else {
                    None
                });
            }
            i = i + 1;
        }
        PreviousBuild { scripts, by_path }
    }

    /// Whether the digest of a script's content is needed to tell whether it
    /// changed: where it is known but its size or mtime differ.
    pub fn needs_hash(&self, record: &ScriptRecord) -> (b: bool)
        requires
            self.wf(),
        ensures
            b == match existing_at(
                self.scripts@,
                record.logical_path@,
                self.scripts@.len() as int,
            ) {
                Some(i) => self.scripts@[i].size != record.size || self.scripts@[i].mtime_nanos
                    != record.mtime_nanos,
                None => false,
            },
    {
        match self.by_path.get(record.logical_path.as_str()) {
            Some(i) => self.scripts[*i].size != record.size || self.scripts[*i].mtime_nanos
                != record.mtime_nanos,
            None => false,
        }
    }

    /// Whether a scanned script can be reused. `hash` is the digest of its
    /// content, where it was needed and could be had.
    pub fn reuse(&self, record: &ScriptRecord, hash: &Option<String>) -> (r: Reuse)
        requires
            self.wf(),
        ensures
            r == reuse_of(self.scripts@, *record, ast_deps::option_view(*hash)),
    {
        match self.by_path.get(record.logical_path.as_str()) {
            Some(i) => {
                let e: &ExistingScript = &self.scripts[*i];
                if e.size == record.size && e.mtime_nanos == record.mtime_nanos {
                    return Reuse::Same;
                }
                if let Some(h) = hash {
                    if !h.as_str().is_empty() && same_text(h.as_str(), e.content_hash.as_str()) {
                        return Reuse::Touched;
                    }
                }
                Reuse::Changed
            },
            None => Reuse::Changed,
        }
    }
}

/// The logical paths of scripts.
pub open spec fn logical_paths(records: Seq<ScriptRecord>) -> Seq<Seq<char>> {
    records.map_values(|r: ScriptRecord| r.logical_path@)
}

/// The paths of the first `n` scripts of the previous build that were not
/// scanned.
pub open spec fn removed_in(existing: Seq<ExistingScript>, records: Seq<ScriptRecord>, n: int) -> Seq<
    Seq<char>,
>
    decreases n,
{
    if n <= 0 {
        seq![]
    } else if logical_paths(records).contains(existing[n - 1].logical_path@) {
        removed_in(existing, records, n - 1)
    } else {
        removed_in(existing, records, n - 1).push(existing[n - 1].logical_path@)
    }
}

/// The physical paths of the first `n` scanned scripts that are reused.
pub open spec fn reused_in(
    existing: Seq<ExistingScript>,
    records: Seq<ScriptRecord>,
    hashes: Seq<Option<String>>,
    n: int,
) -> Set<Seq<char>>
    decreases n,
{
    if n <= 0 {
        Set::empty()
    } else if reuse_of(existing, records[n - 1], ast_deps::option_view(hashes[n - 1]))
        == Reuse::Changed {
        reused_in(existing, records, hashes, n - 1)
    } else {
        reused_in(existing, records, hashes, n - 1).insert(records[n - 1].physical_path@)
    }
}

/// The indices of the first `n` scanned scripts whose stored size and mtime are
/// to be refreshed.
pub open spec fn touched_in(
    existing: Seq<ExistingScript>,
    records: Seq<ScriptRecord>,
    hashes: Seq<Option<String>>,
    n: int,
) -> Seq<usize>
    decreases n,
{
    if n <= 0 {
        seq![]
    } else if reuse_of(existing, records[n - 1], ast_deps::option_view(hashes[n - 1]))
        == Reuse::Touched {
        touched_in(existing, records, hashes, n - 1).push((n - 1) as usize)
    } else {
        touched_in(existing, records, hashes, n - 1)
    }
}

/// What is to be done with the previous build.
#[derive(Debug)]
pub struct SeedPlan {
    /// Logical paths of scripts that are gone: their rows are deleted.
    pub removed: Vec<String>,
    /// Physical paths of scripts that need not be extracted again.
    pub reused: SortedMap<()>,
    /// Indices of scanned scripts whose stored size and mtime are refreshed.
    pub touched: Vec<usize>,
}

/// What of the previous build remains, what is deleted, and what is only
/// refreshed. `hashes` holds, for each scanned script, the digest of its
/// content where [`PreviousBuild::needs_hash`] asks for it and it can be had.
pub fn seed_from_existing_database(
    previous: &PreviousBuild,
    records: &Vec<ScriptRecord>,
    hashes: &Vec<Option<String>>,
) -> (plan: SeedPlan)
    requires
        previous.wf(),
        hashes@.len() == records@.len(),
    ensures
        text::views(plan.removed@) == removed_in(
            previous.scripts@,
            records@,
            previous.scripts@.len() as int,
        ),
        plan.reused.wf(),
        plan.reused@.dom() == reused_in(
            previous.scripts@,
            records@,
            hashes@,
            records@.len() as int,
        ),
        plan.touched@ == touched_in(previous.scripts@, records@, hashes@, records@.len() as int),
{
    let ghost existing = previous.scripts@;
    let mut current: SortedMap<()> = SortedMap::new();
    let mut reused: SortedMap<()> = SortedMap::new();
    let mut touched: Vec<usize> = Vec::new();
    let mut i: usize = 0;
    assert(reused@.dom() =~= Set::empty());
    while i < records.len()
        invariant
            i <= records@.len(),
            hashes@.len() == records@.len(),
            previous.wf(),
            existing == previous.scripts@,
            current.wf(),
            reused.wf(),
            forall|p: Seq<char>| #[trigger]
                current@.contains_key(p) <==> logical_paths(records@.take(i as int)).contains(p),
            reused@.dom() == reused_in(existing, records@, hashes@, i as int),
            touched@ == touched_in(existing, records@, hashes@, i as int),
        decreases records@.len() - i,
    {
        let ghost before = current@;
        let record: &ScriptRecord = &records[i];
        current.insert(record.logical_path.as_str(), ());
        proof {
            let a = logical_paths(records@.take(i as int));
            let b = logical_paths(records@.take(i + 1));
            assert(b =~= a.push(record.logical_path@));
            assert forall|p: Seq<char>| #[trigger] current@.contains_key(p) <==> b.contains(p) by {
                text::lemma_push_contains(a, record.logical_path@, p);
                assert(before.contains_key(p) <==> a.contains(p));
            }
        }
        match previous.reuse(record, &hashes[i]) {
            Reuse::Same => {
                let ghost dom = reused@.dom();
                reused.insert(record.physical_path.as_str(), ());
                assert(reused@.dom() =~= dom.insert(record.physical_path@));
            },
            Reuse::Touched => {
                let ghost dom = reused@.dom();
                reused.insert(record.physical_path.as_str(), ());
                assert(reused@.dom() =~= dom.insert(record.physical_path@));
                touched.push(i);
            },
            Reuse::Changed => {},
        }
        i = i + 1;
    }
    assert(records@.take(i as int) =~= records@);
    let mut removed: Vec<String> = Vec::new();
    let mut k: usize = 0;
    assert(text::views(removed@) =~= seq![]);
    while k < previous.scripts.len()
        invariant
            k <= previous.scripts@.len(),
            existing == previous.scripts@,
            current.wf(),
            forall|p: Seq<char>| #[trigger]
                current@.contains_key(p) <==> logical_paths(records@).contains(p),
            text::views(removed@) == removed_in(existing, records@, k as int),
        decreases previous.scripts@.len() - k,
    {
        let path: &String = &previous.scripts[k].logical_path;
        let ghost before = text::views(removed@);
        if !current.contains_key(path.as_str()) {
            removed.push(path.clone());
            assert(text::views(removed@) =~= before.push(path@));
        }
        k = k + 1;
    }
    SeedPlan { removed, reused, touched }
}

/// A touched script is not extracted again: one whose content has the digest
/// that the previous build holds is reused, whatever its size and mtime.
pub proof fn law_same_content_is_reused(
    existing: Seq<ExistingScript>,
    records: Seq<ScriptRecord>,
    hashes: Seq<Option<String>>,
    i: int,
)
    requires
        0 <= i < records.len(),
        hashes.len() == records.len(),
        existing_at(existing, records[i].logical_path@, existing.len() as int) is Some,
        ast_deps::option_view(hashes[i]) == Some(
            existing[existing_at(
                existing,
                records[i].logical_path@,
                existing.len() as int,
            ).unwrap()].content_hash@,
        ),
        ast_deps::option_view(hashes[i]).unwrap().len() > 0,
    ensures
        reused_in(existing, records, hashes, records.len() as int).contains(
            records[i].physical_path@,
        ),
{
    lemma_reused(existing, records, hashes, i, records.len() as int);
}

/// A script that is reused is among the reused ones.
proof fn lemma_reused(
    existing: Seq<ExistingScript>,
    records: Seq<ScriptRecord>,
    hashes: Seq<Option<String>>,
    i: int,
    n: int,
)
    requires
        0 <= i < n <= records.len(),
        reuse_of(existing, records[i], ast_deps::option_view(hashes[i])) != Reuse::Changed,
    ensures
        reused_in(existing, records, hashes, n).contains(records[i].physical_path@),
    decreases n,
{
    if i < n - 1 {
        lemma_reused(existing, records, hashes, i, n - 1);
    }
}

// ---------------------------------------------------------------------------
// Extraction
// ---------------------------------------------------------------------------

/// What is known of one script before it is written.
#[derive(Debug)]
pub struct ExtractedRow {
    pub meta: ExtractedMetadata,
    /// Imports, definitions and calls of a Python script.
    pub ast: Option<AstDependencies>,
    /// Import edges.
    pub deps: Vec<String>,
    /// Candidates for reference edges.
    pub references: Vec<String>,
}

/// `list` without `own`, as far as the first `n` go.
pub open spec fn others(list: Seq<Seq<char>>, own: Seq<char>, n: int) -> Seq<Seq<char>>
    decreases n,
{
    if n <= 0 {
        seq![]
    } else if list[n - 1] == own {
        others(list, own, n - 1)
    } else {
        others(list, own, n - 1).push(list[n - 1])
    }
}

/// The candidates for reference edges of the script at `own`: the paths that
/// its text mentions, those of its Ansible keys and those that its header
/// declares, each once, without its own path.
pub open spec fn combined_references(
    own: Seq<char>,
    found: Seq<Seq<char>>,
    yaml: Seq<Seq<char>>,
    related: Seq<Seq<char>>,
) -> Seq<Seq<char>> {
    let all = text::unique_texts(found + yaml + related);
    others(all, own, all.len() as int)
}

/// The candidates for reference edges of the script at `own`.
pub fn combine_references(
    own: &str,
    found: &Vec<String>,
    yaml: &Vec<String>,
    related: &Vec<String>,
) -> (r: Vec<String>)
    ensures
        text::views(r@) == combined_references(
            own@,
            text::views(found@),
            text::views(yaml@),
            text::views(related@),
        ),
{
    let mut all: Vec<String> = Vec::new();
    assert(text::views(all@) =~= seq![]);
    push_all(&mut all, found);
    push_all(&mut all, yaml);
    push_all(&mut all, related);
    proof {
        let f = text::views(found@);
        let y = text::views(yaml@);
        text::lemma_with_texts_add(seq![], f, y);
        text::lemma_with_texts_add(seq![], f + y, text::views(related@));
    }
    let ghost whole = text::views(all@);
    let mut r: Vec<String> = Vec::new();
    let mut i: usize = 0;
    assert(text::views(r@) =~= seq![]);
    while i < all.len()
        invariant
            i <= all@.len(),
            whole == text::views(all@),
            text::views(r@) == others(whole, own@, i as int),
        decreases all@.len() - i,
    {
        let ghost before = text::views(r@);
        assert(whole[i as int] == all@[i as int]@);
        if !same_text(all[i].as_str(), own) {
            r.push(all[i].clone());
            assert(text::views(r@) =~= before.push(whole[i as int]));
        }
        i = i + 1;
    }
    r
}

/// What a script of the given language says of itself.
pub open spec fn own_meta(language: Seq<char>, content: Seq<char>) -> sidecar::FullMeta {
    sidecar::FullMeta {
        meta: extractor::script_meta(language, content),
        tags: seq![],
        entry_points: seq![],
    }
}

/// Whether `row` is what is known of a script that says `own` of itself, beside
/// which the sidecar `beside` stands, and whose parse gave `parsed`.
pub open spec fn is_row_of(
    row: ExtractedRow,
    record: ScriptRecord,
    own: sidecar::FullMeta,
    content: Seq<char>,
    beside: Option<Sidecar>,
    parsed: Option<SyntaxTree>,
) -> bool {
    let key = treesitter_deps::lang_key(patterns::unicode_lower(record.language@));
    let module = resolve::module_name(record.logical_path@);
    &&& row.meta.wf()
    &&& sidecar::full_meta(row.meta) == sidecar::with_optional_sidecar(own, beside)
    &&& row.meta.content@ == content
    &&& if record.language@ == "python"@ {
        row.ast matches Some(ast) && ast.reads_parse(parsed, Some(module)) && text::views(row.deps@)
            == (match parsed {
            Some(_) => text::views(ast.imports@),
            None => treesitter_deps::fallback_deps(content, "python"@),
        })
    } else {
        row.ast is None && text::views(row.deps@) == treesitter_deps::deps_given(
            parsed,
            content,
            key,
        )
    }
    &&& text::views(row.references@) == combined_references(
        record.logical_path@,
        treesitter_deps::mentioned_paths(content),
        if record.language@ == "yaml"@ {
            treesitter_deps::yaml_given(parsed)
        } else {
            seq![]
        },
        row.meta.meta().related,
    )
}

/// What is known of a script whose own metadata are `meta`, with the sidecar
/// that stands beside it, if one does, and what its parse gave.
pub fn row_of_parse(
    record: &ScriptRecord,
    meta: ExtractedMetadata,
    beside: Option<Sidecar>,
    parsed: &Option<SyntaxTree>,
) -> (row: ExtractedRow)
    requires
        meta.wf(),
    ensures
        is_row_of(row, *record, sidecar::full_meta(meta), meta.content@, beside, *parsed),
        row.meta.content_hash == meta.content_hash,
{
    let mut meta = meta;
    if let Some(s) = beside {
        apply_sidecar(&mut meta, s);
    }
    let found: Vec<String> = extract_reference_paths(meta.content.as_str());
    let yaml: Vec<String> = if same_text(record.language.as_str(), "yaml") {
        yaml_deps_of_parse(parsed)
    } else {
        let none: Vec<String> = Vec::new();
        assert(text::views(none@) =~= seq![]);
        none
    };
    let references: Vec<String> = combine_references(
        record.logical_path.as_str(),
        &found,
        &yaml,
        &meta.related,
    );
    if same_text(record.language.as_str(), "python") {
        let module: String = module_name_from_logical_path(record.logical_path.as_str());
        let ast: AstDependencies = python_deps_of_parse(parsed, Some(module.as_str()));
        let deps: Vec<String> = match parsed {
            Some(_) => copy_texts(&ast.imports),
            None => deps_by_pattern(meta.content.as_str(), "python"),
        };
        ExtractedRow { meta, ast: Some(ast), deps, references }
    } else {
        let deps: Vec<String> = deps_of_parse(
            parsed,
            meta.content.as_str(),
            record.language.as_str(),
        );
        ExtractedRow { meta, ast: None, deps, references }
    }
}

/// Parsing and extraction for one script whose raw bytes are `bytes`, with the
/// sidecar that stands beside it, if one does.
pub fn extract_for_insert(
    record: &ScriptRecord,
    bytes: &[u8],
    beside: Option<Sidecar>,
    ts: &TreeSitterExtractor,
) -> (row: ExtractedRow)
    ensures
        ({
            let content = extractor::lossy_text(bytes@);
            exists|parsed: Option<SyntaxTree>|
                treesitter_deps::may_parse(
                    parsed,
                    treesitter_deps::grammar_for(record.language@),
                    content,
                ) && #[trigger] is_row_of(
                    row,
                    *record,
                    own_meta(record.language@, content),
                    content,
                    beside,
                    parsed,
                )
        }),
        row.meta.content_hash@ == extractor::hex_text(extractor::sha256(bytes@)),
{
    let meta: ExtractedMetadata = extract(record.language.as_str(), bytes);
    proof {
        assert(text::views(meta.tags@) =~= seq![]);
        assert(text::views(meta.entry_points@) =~= seq![]);
        assert(sidecar::full_meta(meta) == own_meta(
            record.language@,
            extractor::lossy_text(bytes@),
        ));
    }
    let parsed: Option<SyntaxTree> = ts.parse_script(
        meta.content.as_str(),
        record.language.as_str(),
    );
    row_of_parse(record, meta, beside, &parsed)
}

// ---------------------------------------------------------------------------
// Indexing
// ---------------------------------------------------------------------------

/// Number of scripts extracted before an interruption is looked for again.
pub const EXTRACT_BATCH_SIZE: usize = 200;

/// The end of the batch that starts at `from`.
pub fn batch_end(from: usize, total: usize, size: usize) -> (to: usize)
    requires
        from <= total,
        size > 0,
    ensures
        to == if from + size < total {
            from + size
        } else {
            total as int
        },
        from < total ==> from < to,
{
    if size < total - from {
        from + size
    } else {
        total
    }
}

/// `n`, or the largest count.
pub open spec fn capped(n: int) -> int {
    if n < usize::MAX {
        n
    } else {
        usize::MAX as int
    }
}

/// An indexing run under way.
#[derive(Debug)]
pub struct IndexRun {
    pub result: IndexResult,
    /// Physical paths of the scripts that the database holds.
    pub indexed: SortedMap<()>,
    pub python_count: usize,
    pub shell_count: usize,
}

/// The indices of the first `n` scripts that are not indexed yet.
pub open spec fn pending_in(records: Seq<ScriptRecord>, indexed: Set<Seq<char>>, n: int) -> Seq<
    usize,
>
    decreases n,
{
    if n <= 0 {
        seq![]
    } else if indexed.contains(records[n - 1].physical_path@) {
        pending_in(records, indexed, n - 1)
    } else {
        pending_in(records, indexed, n - 1).push((n - 1) as usize)
    }
}

/// The views of recorded errors.
pub open spec fn error_views(v: Seq<(String, String)>) -> Seq<(Seq<char>, Seq<char>)> {
    v.map_values(|e: (String, String)| (e.0@, e.1@))
}

impl IndexRun {
    /// A run that starts from what is already indexed: the scripts of an
    /// interrupted run that is resumed, or those of the previous build that are
    /// unchanged. They count as indexed and as reused.
    pub fn new(
        db_path: String,
        dry_run: bool,
        indexed: SortedMap<()>,
        python_count: usize,
        shell_count: usize,
    ) -> (run: IndexRun)
        requires
            indexed.wf(),
        ensures
            run.indexed == indexed,
            run.python_count == python_count,
            run.shell_count == shell_count,
            run.result.scripts_indexed == indexed@.dom().len(),
            run.result.scripts_reused == indexed@.dom().len(),
            indexed@.dom().finite(),
            run.result.dependencies_indexed == 0,
            run.result.db_path@ == db_path@,
            run.result.dry_run == dry_run,
            run.result.errors@.len() == 0,
    {
        let n: usize = indexed.len();
        proof {
            indexed.lemma_len();
        }
        IndexRun {
            result: IndexResult {
                scripts_indexed: n,
                scripts_reused: n,
                dependencies_indexed: 0,
                db_path,
                dry_run,
                errors: Vec::new(),
            },
            indexed,
            python_count,
            shell_count,
        }
    }

    /// The indices of the scripts that are not indexed yet, in order.
    pub fn pending(&self, records: &Vec<ScriptRecord>) -> (todo: Vec<usize>)
        requires
            self.indexed.wf(),
        ensures
            todo@ == pending_in(records@, self.indexed@.dom(), records@.len() as int),
    {
        let mut todo: Vec<usize> = Vec::new();
        let mut i: usize = 0;
        while i < records.len()
            invariant
                i <= records@.len(),
                self.indexed.wf(),
                todo@ == pending_in(records@, self.indexed@.dom(), i as int),
            decreases records@.len() - i,
        {
            if !self.indexed.contains_key(records[i].physical_path.as_str()) {
                todo.push(i);
            }
            i = i + 1;
        }
        todo
    }

    /// Takes in what became of one script: it was written with so many
    /// dependency edges, or something went wrong. A script that went wrong is
    /// not indexed, and the run goes on.
    pub fn take_row(&mut self, record: &ScriptRecord, outcome: Result<usize, String>)
        requires
            old(self).indexed.wf(),
        ensures
            final(self).indexed.wf(),
            final(self).result.scripts_reused == old(self).result.scripts_reused,
            final(self).result.db_path == old(self).result.db_path,
            final(self).result.dry_run == old(self).result.dry_run,
            match outcome {
                Ok(edges) => {
                    &&& final(self).indexed@.dom() == old(self).indexed@.dom().insert(
                        record.physical_path@,
                    )
                    &&& final(self).result.scripts_indexed == capped(
                        old(self).result.scripts_indexed + 1,
                    )
                    &&& final(self).result.dependencies_indexed == capped(
                        old(self).result.dependencies_indexed + edges,
                    )
                    &&& final(self).result.errors == old(self).result.errors
                    &&& final(self).python_count == if record.language@ == "python"@ {
                        capped(old(self).python_count + 1)
                    } else {
                        old(self).python_count as int
                    }
                    &&& final(self).shell_count == if record.language@ == "shell"@ {
                        capped(old(self).shell_count + 1)
                    } else {
                        old(self).shell_count as int
                    }
                },
                Err(e) => {
                    &&& final(self).indexed == old(self).indexed
                    &&& final(self).result.scripts_indexed == old(self).result.scripts_indexed
                    &&& final(self).result.dependencies_indexed == old(
                        self,
                    ).result.dependencies_indexed
                    &&& error_views(final(self).result.errors@) == error_views(
                        old(self).result.errors@,
                    ).push((record.physical_path@, e@))
                    &&& final(self).python_count == old(self).python_count
                    &&& final(self).shell_count == old(self).shell_count
                },
            },
    {
        match outcome {
            Ok(edges) => {
                let ghost dom = self.indexed@.dom();
                self.result.scripts_indexed = self.result.scripts_indexed.saturating_add(1);
                self.result.dependencies_indexed =
                self.result.dependencies_indexed.saturating_add(edges);
                self.indexed.insert(record.physical_path.as_str(), ());
                assert(self.indexed@.dom() =~= dom.insert(record.physical_path@));
                proof {
                    reveal_strlit("python");
                    reveal_strlit("shell");
                    assert("python"@.len() != "shell"@.len());
                }
                if same_text(record.language.as_str(), "python") {
                    self.python_count = self.python_count.saturating_add(1);
                } else if same_text(record.language.as_str(), "shell") {
                    self.shell_count = self.shell_count.saturating_add(1);
                }
            },
            Err(e) => {
                let ghost before = error_views(self.result.errors@);
                self.result.errors.push((record.physical_path.clone(), e));
                assert(error_views(self.result.errors@) =~= before.push(
                    (record.physical_path@, e@),
                ));
            },
        }
    }

    /// What a later run needs to go on from here.
    pub fn into_checkpoint(self) -> (c: Checkpoint)
        ensures
            c.indexed == self.indexed,
    {
        Checkpoint { indexed: self.indexed }
    }
}

/// The paths of the scripts at the first `k` of the given indices.
pub open spec fn paths_at(records: Seq<ScriptRecord>, todo: Seq<usize>, k: int) -> Set<Seq<char>>
    decreases k,
{
    if k <= 0 {
        Set::empty()
    } else {
        paths_at(records, todo, k - 1).insert(records[todo[k - 1] as int].physical_path@)
    }
}

/// A path is among those at the first `k` indices exactly where one of them
/// has it.
proof fn lemma_paths_at(records: Seq<ScriptRecord>, todo: Seq<usize>, k: int, p: Seq<char>)
    requires
        0 <= k <= todo.len(),
    ensures
        paths_at(records, todo, k).contains(p) <==> exists|j: int|
            0 <= j < k && records[#[trigger] todo[j] as int].physical_path@ == p,
    decreases k,
{
    if k > 0 {
        lemma_paths_at(records, todo, k - 1, p);
        if records[todo[k - 1] as int].physical_path@ == p {
            assert(0 <= k - 1 < k && records[todo[k - 1] as int].physical_path@ == p);
        }
    }
}

/// The pending scripts are found in order: those of a shorter list come first.
proof fn lemma_pending_prefix(records: Seq<ScriptRecord>, indexed: Set<Seq<char>>, n: int, m: int)
    requires
        0 <= n <= m <= records.len(),
        records.len() <= usize::MAX,
    ensures
        pending_in(records, indexed, n).is_prefix_of(pending_in(records, indexed, m)),
        forall|j: int|
            0 <= j < pending_in(records, indexed, n).len() ==> #[trigger] pending_in(
                records,
                indexed,
                n,
            )[j] < n,
    decreases m,
{
    if n < m {
        lemma_pending_prefix(records, indexed, n, m - 1);
        let a = pending_in(records, indexed, n);
        let b = pending_in(records, indexed, m - 1);
        let c = pending_in(records, indexed, m);
        assert(c.subrange(0, a.len() as int) =~= b.subrange(0, a.len() as int));
    } else if n > 0 {
        lemma_pending_prefix(records, indexed, n - 1, n - 1);
        assert(pending_in(records, indexed, n).subrange(
            0,
            pending_in(records, indexed, n).len() as int,
        ) =~= pending_in(records, indexed, n));
    } else {
        assert(pending_in(records, indexed, 0).subrange(0, 0) =~= pending_in(records, indexed, 0));
    }
}

/// What is pending among the first `n` scripts once the first `k` pending ones
/// are done.
proof fn lemma_resume(
    records: Seq<ScriptRecord>,
    indexed: Set<Seq<char>>,
    k: int,
    n: int,
)
    requires
        records.len() <= usize::MAX,
        forall|i: int, j: int|
            0 <= i < j < records.len() ==> (#[trigger] records[i]).physical_path@ != (
            #[trigger] records[j]).physical_path@,
        0 <= n <= records.len(),
        0 <= k <= pending_in(records, indexed, records.len() as int).len(),
    ensures
        ({
            let todo = pending_in(records, indexed, records.len() as int);
            let done = indexed.union(paths_at(records, todo, k));
            let here = pending_in(records, indexed, n);
            let cut = if k < here.len() {
                k
            } else {
                here.len() as int
            };
            pending_in(records, done, n) == here.skip(cut)
        }),
    decreases n,
{
    let todo = pending_in(records, indexed, records.len() as int);
    let done = indexed.union(paths_at(records, todo, k));
    let here = pending_in(records, indexed, n);
    if n == 0 {
        assert(here.skip(0) =~= seq![]);
    } else {
        lemma_resume(records, indexed, k, n - 1);
        let before = pending_in(records, indexed, n - 1);
        let r = records[n - 1];
        let p = r.physical_path@;
        lemma_pending_prefix(records, indexed, n, records.len() as int);
        lemma_pending_prefix(records, indexed, n - 1, records.len() as int);
        lemma_paths_at(records, todo, k, p);
        if indexed.contains(p) {
            assert(done.contains(p));
        } else {
            assert(here == before.push((n - 1) as usize));
            assert(todo.subrange(0, here.len() as int)[before.len() as int] == here[before.len() as int]);
            assert(todo[before.len() as int] == (n - 1) as usize);
            if before.len() < k {
                assert(records[todo[before.len() as int] as int].physical_path@ == p);
                assert(done.contains(p));
                assert(before.skip(before.len() as int) =~= seq![]);
                assert(here.skip(here.len() as int) =~= seq![]);
            } else {
                assert(!paths_at(records, todo, k).contains(p)) by {
                    if paths_at(records, todo, k).contains(p) {
                        let j = choose|j: int|
                            0 <= j < k && records[#[trigger] todo[j] as int].physical_path@ == p;
                        assert(todo.subrange(0, before.len() as int)[j] == before[j]);
                        assert(todo[j] == before[j]);
                        assert(before[j] < n - 1);
                        assert(records[todo[j] as int].physical_path@ != records[n - 1].physical_path@);
                    }
                }
                assert(!done.contains(p));
                assert(here.skip(k) =~= before.skip(k).push((n - 1) as usize));
            }
        }
    }
}

/// A resumed run goes on where the interrupted one stopped: after the first
/// `k` pending scripts were indexed, what is pending is the rest of what was.
pub proof fn law_resume_continues(records: Seq<ScriptRecord>, indexed: Set<Seq<char>>, k: int)
    requires
        records.len() <= usize::MAX,
        forall|i: int, j: int|
            0 <= i < j < records.len() ==> (#[trigger] records[i]).physical_path@ != (
            #[trigger] records[j]).physical_path@,
        0 <= k <= pending_in(records, indexed, records.len() as int).len(),
    ensures
        ({
            let todo = pending_in(records, indexed, records.len() as int);
            let done = indexed.union(paths_at(records, todo, k));
            pending_in(records, done, records.len() as int) == todo.skip(k)
        }),
{
    lemma_resume(records, indexed, k, records.len() as int);
}

/// Nothing that is indexed is extracted again, and everything else is.
pub proof fn law_pending_is_what_is_not_indexed(
    records: Seq<ScriptRecord>,
    indexed: Set<Seq<char>>,
    i: int,
    n: int,
)
    requires
        0 <= i < n <= records.len(),
        records.len() <= usize::MAX,
    ensures
        pending_in(records, indexed, n).contains(i as usize) <==> !indexed.contains(
            records[i].physical_path@,
        ),
    decreases n,
{
    let before = pending_in(records, indexed, n - 1);
    text::lemma_push_contains(before, (n - 1) as usize, i as usize);
    if i < n - 1 {
        law_pending_is_what_is_not_indexed(records, indexed, i, n - 1);
    } else {
        lemma_pending_prefix(records, indexed, n - 1, n - 1);
    }
}

/// The number of scripts that a run counts as indexed: those that it starts
/// with, and of the ones that it takes in those that were written. `written`
/// tells that of each, in order.
pub open spec fn scripts_counted(start: int, written: Seq<bool>) -> int
    decreases written.len(),
{
    if written.len() == 0 {
        start
    } else if written.last() {
        capped(scripts_counted(start, written.drop_last()) + 1)
    } else {
        scripts_counted(start, written.drop_last())
    }
}

/// Whether the previous build holds a scanned script with its size and mtime.
pub open spec fn is_unchanged(existing: Seq<ExistingScript>, record: ScriptRecord) -> bool {
    existing_at(existing, record.logical_path@, existing.len() as int) matches Some(i)
        && existing[i].size == record.size && existing[i].mtime_nanos == record.mtime_nanos
}

/// Whether no two scanned scripts are the same file.
pub open spec fn are_distinct(records: Seq<ScriptRecord>) -> bool {
    forall|i: int, j: int|
        0 <= i < j < records.len() ==> (#[trigger] records[i]).physical_path@ != (
        #[trigger] records[j]).physical_path@
}

/// The paths among `paths` that the first `n` scripts have.
spec fn covered(records: Seq<ScriptRecord>, paths: Set<Seq<char>>, n: int) -> Set<Seq<char>>
    decreases n,
{
    if n <= 0 {
        Set::empty()
    } else if paths.contains(records[n - 1].physical_path@) {
        covered(records, paths, n - 1).insert(records[n - 1].physical_path@)
    } else {
        covered(records, paths, n - 1)
    }
}

/// A script is either among the paths or pending.
proof fn lemma_covered(records: Seq<ScriptRecord>, paths: Set<Seq<char>>, n: int)
    requires
        0 <= n <= records.len(),
        are_distinct(records),
    ensures
        covered(records, paths, n).finite(),
        covered(records, paths, n).len() + pending_in(records, paths, n).len() == n,
        forall|p: Seq<char>| #[trigger]
            covered(records, paths, n).contains(p) <==> paths.contains(p) && exists|i: int|
                0 <= i < n && (#[trigger] records[i]).physical_path@ == p,
    decreases n,
{
    if n > 0 {
        lemma_covered(records, paths, n - 1);
        let before = covered(records, paths, n - 1);
        let own = records[n - 1].physical_path@;
        assert(!before.contains(own)) by {
            if before.contains(own) {
                let i = choose|i: int|
                    0 <= i < n - 1 && (#[trigger] records[i]).physical_path@ == own;
                assert(records[i].physical_path@ != records[n - 1].physical_path@);
            }
        }
        assert forall|p: Seq<char>| #[trigger]
            covered(records, paths, n).contains(p) <==> paths.contains(p) && exists|i: int|
                0 <= i < n && (#[trigger] records[i]).physical_path@ == p by {
            if p == own {
                assert(records[n - 1].physical_path@ == p);
            }
            if paths.contains(p) && exists|i: int|
                0 <= i < n && (#[trigger] records[i]).physical_path@ == p {
                let i = choose|i: int| 0 <= i < n && (#[trigger] records[i]).physical_path@ == p;
                if i < n - 1 {
                    assert(before.contains(p));
                }
            }
            if before.contains(p) {
                let i = choose|i: int|
                    0 <= i < n - 1 && (#[trigger] records[i]).physical_path@ == p;
                assert(0 <= i < n && records[i].physical_path@ == p);
            }
        }
    }
}

/// Scripts that are all written are all counted.
proof fn lemma_all_counted(start: int, written: Seq<bool>)
    requires
        start >= 0,
        start + written.len() <= usize::MAX,
        forall|i: int| 0 <= i < written.len() ==> #[trigger] written[i],
    ensures
        scripts_counted(start, written) == start + written.len(),
    decreases written.len(),
{
    if written.len() > 0 {
        let rest = written.drop_last();
        assert forall|i: int| 0 <= i < rest.len() implies #[trigger] rest[i] by {
            assert(written[i]);
        }
        lemma_all_counted(start, rest);
        assert(written[written.len() - 1]);
    }
}

/// A build that starts with some of the scanned scripts and writes all that
/// are pending counts every script once.
pub proof fn law_every_script_is_counted_once(
    records: Seq<ScriptRecord>,
    start: Set<Seq<char>>,
    written: Seq<bool>,
)
    requires
        records.len() <= usize::MAX,
        are_distinct(records),
        forall|p: Seq<char>| #[trigger]
            start.contains(p) ==> exists|i: int|
                0 <= i < records.len() && (#[trigger] records[i]).physical_path@ == p,
        written.len() == pending_in(records, start, records.len() as int).len(),
        forall|i: int| 0 <= i < written.len() ==> #[trigger] written[i],
    ensures
        start.finite(),
        scripts_counted(start.len() as int, written) == records.len(),
{
    let n = records.len() as int;
    lemma_covered(records, start, n);
    assert(covered(records, start, n) =~= start);
    lemma_all_counted(start.len() as int, written);
}

/// Where nothing changed, every script of the previous build is reused: none is
/// pending, none is refreshed, and as many are reused as were scanned.
pub proof fn law_an_unchanged_tree_is_reused(
    existing: Seq<ExistingScript>,
    records: Seq<ScriptRecord>,
    hashes: Seq<Option<String>>,
)
    requires
        records.len() <= usize::MAX,
        hashes.len() == records.len(),
        are_distinct(records),
        forall|i: int| 0 <= i < records.len() ==> is_unchanged(existing, #[trigger] records[i]),
    ensures
        ({
            let n = records.len() as int;
            let reused = reused_in(existing, records, hashes, n);
            &&& forall|p: Seq<char>| #[trigger]
                reused.contains(p) <==> exists|i: int|
                    0 <= i < n && (#[trigger] records[i]).physical_path@ == p
            &&& reused.finite()
            &&& reused.len() == n
            &&& pending_in(records, reused, n).len() == 0
            &&& touched_in(existing, records, hashes, n).len() == 0
        }),
{
    let n = records.len() as int;
    let reused = reused_in(existing, records, hashes, n);
    lemma_unchanged(existing, records, hashes, n);
    lemma_none_pending(records, reused, n);
    lemma_covered(records, reused, n);
    assert(covered(records, reused, n) =~= reused);
}

/// Unchanged scripts are reused, and not refreshed.
proof fn lemma_unchanged(
    existing: Seq<ExistingScript>,
    records: Seq<ScriptRecord>,
    hashes: Seq<Option<String>>,
    n: int,
)
    requires
        0 <= n <= records.len(),
        forall|i: int| 0 <= i < records.len() ==> is_unchanged(existing, #[trigger] records[i]),
    ensures
        touched_in(existing, records, hashes, n).len() == 0,
        forall|p: Seq<char>| #[trigger]
            reused_in(existing, records, hashes, n).contains(p) <==> exists|i: int|
                0 <= i < n && (#[trigger] records[i]).physical_path@ == p,
    decreases n,
{
    if n > 0 {
        lemma_unchanged(existing, records, hashes, n - 1);
        assert(is_unchanged(existing, records[n - 1]));
        let before = reused_in(existing, records, hashes, n - 1);
        let own = records[n - 1].physical_path@;
        assert forall|p: Seq<char>| #[trigger]
            reused_in(existing, records, hashes, n).contains(p) <==> exists|i: int|
                0 <= i < n && (#[trigger] records[i]).physical_path@ == p by {
            if p == own {
                assert(records[n - 1].physical_path@ == p);
            } else if before.contains(p) {
                let i = choose|i: int|
                    0 <= i < n - 1 && (#[trigger] records[i]).physical_path@ == p;
                assert(0 <= i < n && records[i].physical_path@ == p);
            }
            if exists|i: int| 0 <= i < n && (#[trigger] records[i]).physical_path@ == p {
                let i = choose|i: int| 0 <= i < n && (#[trigger] records[i]).physical_path@ == p;
                if i < n - 1 {
                    assert(before.contains(p));
                }
            }
        }
    }
}

/// Nothing is pending of scripts that are all indexed.
proof fn lemma_none_pending(records: Seq<ScriptRecord>, indexed: Set<Seq<char>>, n: int)
    requires
        0 <= n <= records.len(),
        forall|i: int|
            0 <= i < n ==> indexed.contains((#[trigger] records[i]).physical_path@),
    ensures
        pending_in(records, indexed, n).len() == 0,
    decreases n,
{
    if n > 0 {
        assert(indexed.contains(records[n - 1].physical_path@));
        lemma_none_pending(records, indexed, n - 1);
    }
}

// ---------------------------------------------------------------------------
// Warnings
// ---------------------------------------------------------------------------

/// The indices of the first `n` paths that are `path`.
pub open spec fn positions(paths: Seq<Seq<char>>, path: Seq<char>, n: int) -> Seq<usize>
    decreases n,
{
    if n <= 0 {
        seq![]
    } else if paths[n - 1] == path {
        positions(paths, path, n - 1).push((n - 1) as usize)
    } else {
        positions(paths, path, n - 1)
    }
}

/// Groups warnings by the path they are about: for each path the indices of
/// its warnings, in order.
pub fn group_by_path(paths: &Vec<String>) -> (groups: SortedMap<Vec<usize>>)
    ensures
        groups.wf(),
        forall|p: Seq<char>| #[trigger]
            groups@.contains_key(p) <==> text::views(paths@).contains(p),
        forall|p: Seq<char>| #[trigger]
            groups@.contains_key(p) ==> groups@[p]@ == positions(
                text::views(paths@),
                p,
                paths@.len() as int,
            ),
{
    let ghost all = text::views(paths@);
    let mut groups: SortedMap<Vec<usize>> = SortedMap::new();
    let mut i: usize = 0;
    while i < paths.len()
        invariant
            i <= paths@.len(),
            all == text::views(paths@),
            groups.wf(),
            forall|p: Seq<char>| #[trigger]
                groups@.contains_key(p) <==> positions(all, p, i as int).len() > 0,
            forall|p: Seq<char>| #[trigger]
                groups@.contains_key(p) ==> groups@[p]@ == positions(all, p, i as int),
        decreases paths@.len() - i,
    {
        let ghost before = groups@;
        let ghost path = all[i as int];
        assert(path == paths@[i as int]@);
        let mut group: Vec<usize> = match groups.get(paths[i].as_str()) {
            Some(v) => copy_indices(v),
            None => Vec::new(),
        };
        assert(group@ =~= positions(all, path, i as int)) by {
            if !before.contains_key(path) {
                assert(positions(all, path, i as int).len() == 0);
            }
        }
        group.push(i);
        groups.insert(paths[i].as_str(), group);
        proof {
            assert forall|p: Seq<char>| #[trigger] groups@.contains_key(p) <==> positions(
                all,
                p,
                i + 1,
            ).len() > 0 by {
                assert(before.contains_key(p) <==> positions(all, p, i as int).len() > 0);
            }
            assert forall|p: Seq<char>| #[trigger] groups@.contains_key(p) implies groups@[p]@
                == positions(all, p, i + 1) by {
                if p != path {
                    assert(before.contains_key(p));
                }
            }
        }
        i = i + 1;
    }
    proof {
        assert forall|p: Seq<char>| #[trigger] groups@.contains_key(p) <==> all.contains(p) by {
            lemma_positions(all, p, all.len() as int);
        }
    }
    groups
}

/// A path has positions exactly where it occurs.
proof fn lemma_positions(paths: Seq<Seq<char>>, path: Seq<char>, n: int)
    requires
        0 <= n <= paths.len(),
    ensures
        positions(paths, path, n).len() > 0 <==> paths.take(n).contains(path),
        paths.take(paths.len() as int) == paths,
    decreases n,
{
    assert(paths.take(paths.len() as int) =~= paths);
    if n > 0 {
        lemma_positions(paths, path, n - 1);
        assert(paths.take(n) =~= paths.take(n - 1).push(paths[n - 1]));
        text::lemma_push_contains(paths.take(n - 1), paths[n - 1], path);
    }
}

/// A copy of a list of indices.
fn copy_indices(v: &Vec<usize>) -> (r: Vec<usize>)
    ensures
        r@ == v@,
{
    let mut r: Vec<usize> = Vec::new();
    let mut i: usize = 0;
    while i < v.len()
        invariant
            i <= v@.len(),
            r@ == v@.take(i as int),
        decreases v@.len() - i,
    {
        r.push(v[i]);
        i = i + 1;
        assert(r@ =~= v@.take(i as int));
    }
    assert(v@.take(i as int) =~= v@);
    r
}

// ---------------------------------------------------------------------------
// What is reused, what is gone and what is referred to
// ---------------------------------------------------------------------------

/// Whether no two rows of a previous build are those of one script.
pub open spec fn one_row_each(existing: Seq<ExistingScript>) -> bool {
    forall|i: int, j: int|
        0 <= i < j < existing.len() ==> (#[trigger] existing[i]).logical_path@ != (
        #[trigger] existing[j]).logical_path@
}

/// The row of a script that has one.
proof fn lemma_existing_at(existing: Seq<ExistingScript>, path: Seq<char>, n: int, k: int)
    requires
        one_row_each(existing),
        0 <= k < n <= existing.len(),
        existing[k].logical_path@ == path,
    ensures
        existing_at(existing, path, n) == Some(k),
    decreases n,
{
    if k < n - 1 {
        assert(existing[k].logical_path@ != existing[n - 1].logical_path@);
        lemma_existing_at(existing, path, n - 1, k);
    }
}

/// A script without a row has none.
proof fn lemma_not_existing(existing: Seq<ExistingScript>, path: Seq<char>, n: int)
    requires
        0 <= n <= existing.len(),
        forall|k: int| 0 <= k < n ==> (#[trigger] existing[k]).logical_path@ != path,
    ensures
        existing_at(existing, path, n) is None,
    decreases n,
{
    if n > 0 {
        assert(existing[n - 1].logical_path@ != path);
        lemma_not_existing(existing, path, n - 1);
    }
}

/// A scanned script that the previous build holds is the same where its size
/// and its mtime are, is only refreshed where its content still has the same
/// digest, and else has changed; one that it does not hold is new.
pub proof fn law_only_the_same_script_is_reused(
    existing: Seq<ExistingScript>,
    record: ScriptRecord,
    hash: Option<Seq<char>>,
    k: int,
)
    requires
        one_row_each(existing),
        0 <= k < existing.len(),
    ensures
        existing[k].logical_path@ == record.logical_path@ ==> {
            let known = existing[k];
            let same_file = known.size == record.size && known.mtime_nanos == record.mtime_nanos;
            let same_content = hash == Some(known.content_hash@) && known.content_hash@.len() > 0;
            &&& reuse_of(existing, record, hash) == Reuse::Same <==> same_file
            &&& reuse_of(existing, record, hash) == Reuse::Touched <==> !same_file && same_content
            &&& reuse_of(existing, record, hash) == Reuse::Changed <==> !same_file && !same_content
        },
        (forall|j: int|
            0 <= j < existing.len() ==> (#[trigger] existing[j]).logical_path@
                != record.logical_path@) ==> reuse_of(existing, record, hash) == Reuse::Changed,
{
    if existing[k].logical_path@ == record.logical_path@ {
        lemma_existing_at(existing, record.logical_path@, existing.len() as int, k);
    }
    if forall|j: int|
        0 <= j < existing.len() ==> (#[trigger] existing[j]).logical_path@ != record.logical_path@ {
        lemma_not_existing(existing, record.logical_path@, existing.len() as int);
    }
}

/// The scripts that are reused are exactly those that have not changed, and
/// those that are refreshed exactly the ones of which only the size or the
/// mtime has.
pub proof fn law_changed_scripts_are_extracted_again(
    existing: Seq<ExistingScript>,
    records: Seq<ScriptRecord>,
    hashes: Seq<Option<String>>,
    n: int,
    i: int,
)
    requires
        0 <= i < n <= records.len(),
        n <= usize::MAX,
        hashes.len() == records.len(),
        are_distinct(records),
    ensures
        ({
            let found = reuse_of(existing, records[i], ast_deps::option_view(hashes[i]));
            &&& reused_in(existing, records, hashes, n).contains(records[i].physical_path@)
                <==> found != Reuse::Changed
            &&& touched_in(existing, records, hashes, n).contains(i as usize) <==> found
                == Reuse::Touched
        }),
    decreases n,
{
    let own = records[i].physical_path@;
    let before = touched_in(existing, records, hashes, n - 1);
    text::lemma_push_contains(before, (n - 1) as usize, i as usize);
    if i < n - 1 {
        law_changed_scripts_are_extracted_again(existing, records, hashes, n - 1, i);
        assert(records[i].physical_path@ != records[n - 1].physical_path@);
    } else {
        lemma_not_reused_before(existing, records, hashes, n - 1, i);
    }
}

/// A script is neither reused nor refreshed before its turn.
proof fn lemma_not_reused_before(
    existing: Seq<ExistingScript>,
    records: Seq<ScriptRecord>,
    hashes: Seq<Option<String>>,
    n: int,
    i: int,
)
    requires
        0 <= n <= i < records.len(),
        i < usize::MAX,
        are_distinct(records),
    ensures
        !reused_in(existing, records, hashes, n).contains(records[i].physical_path@),
        !touched_in(existing, records, hashes, n).contains(i as usize),
    decreases n,
{
    if n > 0 {
        lemma_not_reused_before(existing, records, hashes, n - 1, i);
        assert(records[n - 1].physical_path@ != records[i].physical_path@);
        text::lemma_push_contains(
            touched_in(existing, records, hashes, n - 1),
            (n - 1) as usize,
            i as usize,
        );
    }
}

/// The rows that are deleted are exactly those of scripts that were not
/// scanned again.
pub proof fn law_what_was_not_scanned_is_removed(
    existing: Seq<ExistingScript>,
    records: Seq<ScriptRecord>,
    n: int,
    path: Seq<char>,
)
    requires
        0 <= n <= existing.len(),
    ensures
        removed_in(existing, records, n).contains(path) <==> (exists|k: int|
            0 <= k < n && (#[trigger] existing[k]).logical_path@ == path) && !(exists|i: int|
            0 <= i < records.len() && (#[trigger] records[i]).logical_path@ == path),
    decreases n,
{
    let scanned = logical_paths(records);
    if scanned.contains(path) {
        let i = choose|i: int| 0 <= i < scanned.len() && scanned[i] == path;
        assert(records[i].logical_path@ == path);
    }
    if exists|i: int| 0 <= i < records.len() && (#[trigger] records[i]).logical_path@ == path {
        let i = choose|i: int| 0 <= i < records.len() && (#[trigger] records[i]).logical_path@ == path;
        assert(scanned[i] == path);
    }
    if n > 0 {
        law_what_was_not_scanned_is_removed(existing, records, n - 1, path);
        text::lemma_push_contains(
            removed_in(existing, records, n - 1),
            existing[n - 1].logical_path@,
            path,
        );
        if existing[n - 1].logical_path@ == path {
            assert(0 <= n - 1 < n && existing[n - 1].logical_path@ == path);
        }
    }
}

/// What is left of a list without one of its texts.
proof fn lemma_others(list: Seq<Seq<char>>, own: Seq<char>, n: int, path: Seq<char>)
    requires
        0 <= n <= list.len(),
        list.no_duplicates(),
    ensures
        others(list, own, n).contains(path) <==> path != own && list.take(n).contains(path),
        others(list, own, n).no_duplicates(),
        forall|p: Seq<char>| #[trigger] others(list, own, n).contains(p) ==> list.take(n).contains(p),
    decreases n,
{
    if n > 0 {
        lemma_others(list, own, n - 1, path);
        let before = others(list, own, n - 1);
        let last = list[n - 1];
        assert(list.take(n) =~= list.take(n - 1).push(last));
        text::lemma_push_contains(list.take(n - 1), last, path);
        text::lemma_push_contains(before, last, path);
        assert(!before.contains(last)) by {
            if before.contains(last) {
                assert(list.take(n - 1).contains(last));
                let earlier = list.take(n - 1);
                let k = choose|k: int| 0 <= k < earlier.len() && earlier[k] == last;
                assert(list[k] == list[n - 1]);
            }
        }
        assert forall|p: Seq<char>| #[trigger] others(list, own, n).contains(p) implies list.take(
            n,
        ).contains(p) by {
            text::lemma_push_contains(list.take(n - 1), last, p);
            text::lemma_push_contains(before, last, p);
        }
    }
}

/// A script may refer to every path that its text mentions, that its Ansible
/// keys name and that its header declares, and to no other: each is listed
/// once, and its own path never.
pub proof fn law_every_mentioned_path_may_be_referred_to(
    own: Seq<char>,
    found: Seq<Seq<char>>,
    yaml: Seq<Seq<char>>,
    related: Seq<Seq<char>>,
    path: Seq<char>,
)
    ensures
        combined_references(own, found, yaml, related).contains(path) <==> path != own && (
        found.contains(path) || yaml.contains(path) || related.contains(path)),
        combined_references(own, found, yaml, related).no_duplicates(),
{
    let all = text::unique_texts(found + yaml + related);
    text::lemma_unique_texts(found + yaml + related);
    ast_deps::lemma_in_either(found, yaml, path);
    ast_deps::lemma_in_either(found + yaml, related, path);
    lemma_others(all, own, all.len() as int, path);
    assert(all.take(all.len() as int) =~= all);
}

/// What is written of a script: of a Python script its imports, and what its
/// tree says of it seen from its module; of a shell script what it sources. It
/// may refer to what its text mentions and what its metadata declare, a YAML
/// file also to what its Ansible keys name.
pub proof fn law_rows_hold_what_the_script_says(
    row: ExtractedRow,
    record: ScriptRecord,
    own: sidecar::FullMeta,
    content: Seq<char>,
    beside: Option<Sidecar>,
    t: SyntaxTree,
    path: Seq<char>,
)
    requires
        is_row_of(row, record, own, content, beside, Some(t)),
    ensures
        record.language@ == "python"@ ==> text::views(row.deps@) == ast_deps::source_imports(t) && (
        row.ast matches Some(ast) && ast.reads(t, Some(resolve::module_name(record.logical_path@)))),
        record.language@ != "python"@ ==> row.ast is None,
        patterns::unicode_lower(record.language@) == "shell"@ && record.language@ != "python"@
            ==> text::views(row.deps@) == treesitter_deps::sourced_in(t, t.rows@.len() as int),
        text::views(row.references@).contains(path) <==> path != record.logical_path@ && (
        treesitter_deps::mentioned_paths(content).contains(path) || row.meta.meta().related.contains(
            path,
        ) || record.language@ == "yaml"@ && treesitter_deps::yaml_references(t).contains(path)),
        beside is None ==> sidecar::full_meta(row.meta) == own,
{
    treesitter_deps::law_dependencies_are_read_by_language(t, content, "shell"@);
    let yaml = if record.language@ == "yaml"@ {
        treesitter_deps::yaml_given(Some(t))
    } else {
        seq![]
    };
    law_every_mentioned_path_may_be_referred_to(
        record.logical_path@,
        treesitter_deps::mentioned_paths(content),
        yaml,
        row.meta.meta().related,
        path,
    );
}

/// The warnings of a path are exactly those about it.
pub proof fn law_warnings_are_grouped_by_their_path(
    paths: Seq<Seq<char>>,
    path: Seq<char>,
    n: int,
    i: int,
)
    requires
        0 <= i < n <= paths.len(),
        n <= usize::MAX,
    ensures
        positions(paths, path, n).contains(i as usize) <==> paths[i] == path,
    decreases n,
{
    let before = positions(paths, path, n - 1);
    text::lemma_push_contains(before, (n - 1) as usize, i as usize);
    if i < n - 1 {
        law_warnings_are_grouped_by_their_path(paths, path, n - 1, i);
    } else {
        lemma_positions_below(paths, path, n - 1);
    }
}

/// Positions among the first paths are below their number, and in order.
proof fn lemma_positions_below(paths: Seq<Seq<char>>, path: Seq<char>, n: int)
    requires
        0 <= n <= paths.len(),
        n <= usize::MAX,
    ensures
        forall|k: int|
            0 <= k < positions(paths, path, n).len() ==> #[trigger] positions(paths, path, n)[k]
                < n,
    decreases n,
{
    if n > 0 {
        lemma_positions_below(paths, path, n - 1);
        let before = positions(paths, path, n - 1);
        let all = positions(paths, path, n);
        assert forall|k: int| 0 <= k < all.len() implies #[trigger] all[k] < n by {
            if k < before.len() {
                assert(all[k] == before[k]);
            }
        }
    }
}

} // verus!
