//! The course of an index build: from what it starts, in what order its
//! database is filled, where it can be interrupted, and how it ends.

use vstd::prelude::*;

use crate::builder;
use crate::builder::{
    batch_end, check_build, effective_head_lines, incremental_seed, BuildError, BuildOptions,
    ExistingScript, Finish, PathKind, EXTRACT_BATCH_SIZE,
};
use crate::checkpoint::{resume_decision, ResumeDecision};
use crate::scanner::ScriptRecord;

verus! {

// ---------------------------------------------------------------------------
// The start
// ---------------------------------------------------------------------------

/// What is known of the leftovers of an interrupted run.
#[derive(Debug, Clone, Copy, PartialEq, Eq, Structural)]
pub struct Leftovers {
    /// Whether the partial database is there.
    pub wip_exists: bool,
    /// Whether a checkpoint is there and could be read.
    pub checkpoint_read: bool,
    /// Whether the partial database passed its check.
    pub wip_is_valid: bool,
}

/// What a build starts from.
#[derive(Debug, Clone, Copy, PartialEq, Eq, Structural)]
pub enum BuildSource {
    /// The partial database of an interrupted run.
    Leftovers,
    /// A copy of the previous build.
    Previous,
    /// An empty database.
    Empty,
}

/// How a build starts.
#[derive(Debug, Clone, Copy, PartialEq, Eq, Structural)]
pub struct BuildPlan {
    /// Whether the leftovers of an interrupted run are deleted first.
    pub discard_leftovers: bool,
    pub source: BuildSource,
    /// Number of head lines to read for shebang detection.
    pub head_lines: usize,
}

/// Whether a run goes on from an interrupted one.
pub open spec fn resumes(opts: BuildOptions, leftovers: Leftovers) -> bool {
    !opts.no_resume && !opts.dry_run && leftovers.wip_exists && leftovers.checkpoint_read
        && leftovers.wip_is_valid
}

/// How a build with these options starts. `previous_schema` is the schema
/// version of the previous build, where there is one.
pub open spec fn planned(
    opts: BuildOptions,
    leftovers: Leftovers,
    previous_schema: Option<i64>,
    schema: i64,
) -> BuildPlan {
    BuildPlan {
        discard_leftovers: !resumes(opts, leftovers) && (opts.no_resume || opts.dry_run
            || leftovers.wip_exists),
        source: if resumes(opts, leftovers) {
            BuildSource::Leftovers
        } else if !opts.dry_run && !opts.no_incremental && previous_schema == Some(schema) {
            BuildSource::Previous
        } else {
            BuildSource::Empty
        },
        head_lines: if opts.head_lines == 0 {
            builder::DEFAULT_HEAD_LINES
        } else {
            opts.head_lines
        },
    }
}

/// How a build starts, or why it cannot.
pub fn plan_build(
    db: PathKind,
    opts: &BuildOptions,
    leftovers: Leftovers,
    previous_schema: Option<i64>,
    schema: i64,
) -> (r: Result<BuildPlan, BuildError>)
    ensures
        r == if db == PathKind::Directory {
            Err::<BuildPlan, BuildError>(BuildError::IsDirectory)
        } else if db == PathKind::Other {
            Err::<BuildPlan, BuildError>(BuildError::IsNotAFile)
        } else if opts.threads == Some(0usize) {
            Err::<BuildPlan, BuildError>(BuildError::NoThreads)
        } else {
            Ok::<BuildPlan, BuildError>(planned(*opts, leftovers, previous_schema, schema))
        },
{
    match check_build(db, opts.threads) {
        Err(e) => Err(e),
        Ok(()) => {
            let decision: ResumeDecision = resume_decision(
                opts.no_resume,
                opts.dry_run,
                leftovers.wip_exists,
                leftovers.checkpoint_read,
                leftovers.wip_is_valid,
            );
            let resuming: bool = match decision {
                ResumeDecision::Resume => true,
                _ => false,
            };
            let discard_leftovers: bool = match decision {
                ResumeDecision::Discard => true,
                _ => false,
            };
            let seeded: bool = incremental_seed(
                resuming,
                opts.dry_run,
                opts.no_incremental,
                previous_schema,
                schema,
            );
            let source: BuildSource = if resuming {
                BuildSource::Leftovers
            } else if seeded {
                BuildSource::Previous
            } else {
                BuildSource::Empty
            };
            Ok(
                BuildPlan {
                    discard_leftovers,
                    source,
                    head_lines: effective_head_lines(opts.head_lines),
                },
            )
        },
    }
}

// ---------------------------------------------------------------------------
// Filling the database
// ---------------------------------------------------------------------------

/// What is left to do once all scripts are written, in this order.
#[derive(Debug, Clone, Copy, PartialEq, Eq, Structural)]
pub enum Closing {
    /// Record the checkouts anew.
    Checkouts,
    /// Forget what was derived from earlier checkouts and warnings.
    Reset,
    /// Sum up the checkouts of each script.
    Summaries,
    /// Infer and record the warnings.
    Warnings,
    /// Resolve imports.
    Imports,
    /// Resolve references.
    References,
    /// Resolve function calls.
    Functions,
    /// Rebuild the search index.
    Search,
    /// Record when the index was built.
    Metadata,
    /// Commit everything.
    Commit,
}

/// Where a run that fills a database stands, of so many pending scripts.
#[derive(Debug, Clone, Copy, PartialEq, Eq, Structural)]
pub enum Progress {
    /// The scripts before `from` are written; a batch is to be extracted.
    Batch { from: usize },
    /// The scripts before `at` are written, and those before `end` extracted.
    Row { at: usize, end: usize },
    /// All scripts are written.
    Closing(Closing),
    /// The run was interrupted.
    Suspended,
    /// Everything is done.
    Done,
}

/// What is to be done next.
#[derive(Debug, Clone, Copy, PartialEq, Eq, Structural)]
pub enum Action {
    /// Extract the pending scripts `from..to`, in any order.
    Extract { from: usize, to: usize },
    /// Write the extracted script with this place among the pending ones.
    Insert(usize),
    /// Do this closing step.
    Close(Closing),
    /// Commit what is written, leave a checkpoint, and stop.
    Suspend,
    /// Nothing more.
    Stop,
}

impl Progress {
    /// Whether a run over `total` pending scripts can stand here.
    pub open spec fn wf(self, total: int) -> bool {
        match self {
            Progress::Batch { from } => from <= total,
            Progress::Row { at, end } => at < end <= total,
            _ => true,
        }
    }
}

/// Where a run stands after a closing step.
pub open spec fn after_closing(c: Closing) -> Progress {
    match c {
        Closing::Checkouts => Progress::Closing(Closing::Reset),
        Closing::Reset => Progress::Closing(Closing::Summaries),
        Closing::Summaries => Progress::Closing(Closing::Warnings),
        Closing::Warnings => Progress::Closing(Closing::Imports),
        Closing::Imports => Progress::Closing(Closing::References),
        Closing::References => Progress::Closing(Closing::Functions),
        Closing::Functions => Progress::Closing(Closing::Search),
        Closing::Search => Progress::Closing(Closing::Metadata),
        Closing::Metadata => Progress::Closing(Closing::Commit),
        Closing::Commit => Progress::Done,
    }
}

/// The end of the batch that starts at `from`.
pub open spec fn batch_to(from: usize, total: usize) -> usize {
    if from + EXTRACT_BATCH_SIZE < total {
        (from + EXTRACT_BATCH_SIZE) as usize
    } else {
        total
    }
}

/// What is done next, and where the run stands then. A run can be interrupted
/// before each batch, before each script, and once all scripts are written,
/// but not while it is being closed.
pub open spec fn step(p: Progress, total: usize, shutdown: bool) -> (Action, Progress) {
    match p {
        Progress::Batch { from } => if shutdown {
            (Action::Suspend, Progress::Suspended)
        } else if from < total {
            (
                Action::Extract { from, to: batch_to(from, total) },
                Progress::Row { at: from, end: batch_to(from, total) },
            )
        } else {
            (Action::Close(Closing::Checkouts), after_closing(Closing::Checkouts))
        },
        Progress::Row { at, end } => if shutdown {
            (Action::Suspend, Progress::Suspended)
        } else if at + 1 < end {
            (Action::Insert(at), Progress::Row { at: (at + 1) as usize, end })
        } else {
            (Action::Insert(at), Progress::Batch { from: end })
        },
        Progress::Closing(c) => (Action::Close(c), after_closing(c)),
        Progress::Suspended => (Action::Stop, Progress::Suspended),
        Progress::Done => (Action::Stop, Progress::Done),
    }
}

/// What is to be done next in filling a database with `total` pending
/// scripts, and where the run stands then. `shutdown` tells whether the run
/// was told to stop.
pub fn populate_step(p: Progress, total: usize, shutdown: bool) -> (r: (Action, Progress))
    requires
        p.wf(total as int),
    ensures
        r == step(p, total, shutdown),
        r.1.wf(total as int),
{
    match p {
        Progress::Batch { from } => {
            if shutdown {
                (Action::Suspend, Progress::Suspended)
            } else if from < total {
                let to: usize = batch_end(from, total, EXTRACT_BATCH_SIZE);
                (Action::Extract { from, to }, Progress::Row { at: from, end: to })
            } else {
                (Action::Close(Closing::Checkouts), Progress::Closing(Closing::Reset))
            }
        },
        Progress::Row { at, end } => {
            if shutdown {
                (Action::Suspend, Progress::Suspended)
            } else if at + 1 < end {
                (Action::Insert(at), Progress::Row { at: at + 1, end })
            } else {
                (Action::Insert(at), Progress::Batch { from: end })
            }
        },
        Progress::Closing(c) => {
            let next: Progress = match c {
                Closing::Checkouts => Progress::Closing(Closing::Reset),
                Closing::Reset => Progress::Closing(Closing::Summaries),
                Closing::Summaries => Progress::Closing(Closing::Warnings),
                Closing::Warnings => Progress::Closing(Closing::Imports),
                Closing::Imports => Progress::Closing(Closing::References),
                Closing::References => Progress::Closing(Closing::Functions),
                Closing::Functions => Progress::Closing(Closing::Search),
                Closing::Search => Progress::Closing(Closing::Metadata),
                Closing::Metadata => Progress::Closing(Closing::Commit),
                Closing::Commit => Progress::Done,
            };
            (Action::Close(c), next)
        },
        Progress::Suspended => (Action::Stop, Progress::Suspended),
        Progress::Done => (Action::Stop, Progress::Done),
    }
}

/// What a run does from `p` on, one action for each of `flags`, which tell
/// whether it was told to stop by then.
pub open spec fn actions(p: Progress, total: usize, flags: Seq<bool>) -> Seq<Action>
    decreases flags.len(),
{
    if flags.len() == 0 {
        seq![]
    } else {
        let (action, next) = step(p, total, flags[0]);
        seq![action] + actions(next, total, flags.drop_first())
    }
}

/// The places of the scripts that the actions write, in order.
pub open spec fn written(done: Seq<Action>) -> Seq<int>
    decreases done.len(),
{
    if done.len() == 0 {
        seq![]
    } else {
        match done[0] {
            Action::Insert(i) => seq![i as int] + written(done.drop_first()),
            _ => written(done.drop_first()),
        }
    }
}

/// The closing steps among the actions, in order.
pub open spec fn closed(done: Seq<Action>) -> Seq<Closing>
    decreases done.len(),
{
    if done.len() == 0 {
        seq![]
    } else {
        match done[0] {
            Action::Close(c) => seq![c] + closed(done.drop_first()),
            _ => closed(done.drop_first()),
        }
    }
}

/// All closing steps in their order.
pub open spec fn closing_order() -> Seq<Closing> {
    seq![
        Closing::Checkouts,
        Closing::Reset,
        Closing::Summaries,
        Closing::Warnings,
        Closing::Imports,
        Closing::References,
        Closing::Functions,
        Closing::Search,
        Closing::Metadata,
        Closing::Commit,
    ]
}

/// The number of scripts written, or all of them where the run got past that.
pub open spec fn written_at(p: Progress, total: int) -> int {
    match p {
        Progress::Batch { from } => from as int,
        Progress::Row { at, .. } => at as int,
        _ => total,
    }
}

/// The number of closing steps done.
pub open spec fn closed_at(p: Progress) -> int {
    match p {
        Progress::Closing(c) => closing_rank(c),
        Progress::Done => 10,
        _ => 0,
    }
}

/// The place of a closing step in the order.
pub open spec fn closing_rank(c: Closing) -> int {
    match c {
        Closing::Checkouts => 0,
        Closing::Reset => 1,
        Closing::Summaries => 2,
        Closing::Warnings => 3,
        Closing::Imports => 4,
        Closing::References => 5,
        Closing::Functions => 6,
        Closing::Search => 7,
        Closing::Metadata => 8,
        Closing::Commit => 9,
    }
}

/// The first action and the rest, in the three ways they are looked at.
proof fn lemma_first(action: Action, rest: Seq<Action>)
    ensures
        ({
            let all = seq![action] + rest;
            &&& written(all) == match action {
                Action::Insert(i) => seq![i as int] + written(rest),
                _ => written(rest),
            }
            &&& closed(all) == match action {
                Action::Close(c) => seq![c] + closed(rest),
                _ => closed(rest),
            }
            &&& all.contains(Action::Suspend) <==> action == Action::Suspend || rest.contains(
                Action::Suspend,
            )
        }),
{
    let all = seq![action] + rest;
    assert(all.drop_first() =~= rest);
    assert(all[0] == action);
    if rest.contains(Action::Suspend) {
        let k = choose|k: int| 0 <= k < rest.len() && rest[k] == Action::Suspend;
        assert(all[k + 1] == Action::Suspend);
    }
    if all.contains(Action::Suspend) {
        let k = choose|k: int| 0 <= k < all.len() && all[k] == Action::Suspend;
        if k > 0 {
            assert(rest[k - 1] == Action::Suspend);
        }
    }
}

/// What a run does from a given place on.
proof fn lemma_run(p: Progress, total: usize, flags: Seq<bool>)
    requires
        p.wf(total as int),
    ensures
        ({
            let done = actions(p, total, flags);
            let from = written_at(p, total as int);
            let begun = closed_at(p);
            let w = written(done);
            let c = closed(done);
            &&& w.len() <= total - from
            &&& forall|i: int| 0 <= i < w.len() ==> #[trigger] w[i] == from + i
            &&& c.len() <= 10 - begun
            &&& forall|i: int| 0 <= i < c.len() ==> #[trigger] c[i] == closing_order()[begun + i]
            &&& c.len() > 0 ==> w.len() == total - from && !done.contains(Action::Suspend)
            &&& p is Suspended ==> c.len() == 0
            &&& p is Closing || p is Done || p is Suspended ==> !done.contains(Action::Suspend)
        }),
    decreases flags.len(),
{
    if flags.len() > 0 {
        let (action, next) = step(p, total, flags[0]);
        let rest = actions(next, total, flags.drop_first());
        assert(next.wf(total as int));
        lemma_run(next, total, flags.drop_first());
        lemma_first(action, rest);
        let w = written(actions(p, total, flags));
        let c = closed(actions(p, total, flags));
        let from = written_at(p, total as int);
        let begun = closed_at(p);
        assert forall|i: int| 0 <= i < w.len() implies #[trigger] w[i] == from + i by {
            match action {
                Action::Insert(_) => {
                    if i > 0 {
                        assert(w[i] == written(rest)[i - 1]);
                    }
                },
                _ => {
                    assert(w[i] == written(rest)[i]);
                },
            }
        }
        assert forall|i: int| 0 <= i < c.len() implies #[trigger] c[i] == closing_order()[begun
            + i] by {
            match action {
                Action::Close(_) => {
                    if i > 0 {
                        assert(c[i] == closed(rest)[i - 1]);
                    }
                },
                _ => {
                    assert(c[i] == closed(rest)[i]);
                },
            }
        }
    }
}

/// Whenever a run is told to stop, it writes the pending scripts in order and
/// each at most once; it does the closing steps in their order, and only after
/// every pending script was written; and a run that was interrupted does none
/// of them.
pub proof fn law_scripts_are_written_before_the_index_is_closed(total: usize, flags: Seq<bool>)
    ensures
        ({
            let done = actions(Progress::Batch { from: 0 }, total, flags);
            let w = written(done);
            let c = closed(done);
            &&& w.len() <= total
            &&& forall|i: int| 0 <= i < w.len() ==> #[trigger] w[i] == i
            &&& c.is_prefix_of(closing_order())
            &&& c.len() > 0 ==> w.len() == total
            &&& done.contains(Action::Suspend) ==> c.len() == 0
        }),
{
    let p = Progress::Batch { from: 0 };
    lemma_run(p, total, flags);
    let c = closed(actions(p, total, flags));
    assert(c =~= closing_order().subrange(0, c.len() as int));
}

/// How many steps a run takes from `p` on, at most.
pub open spec fn steps_left(p: Progress, total: int) -> int {
    match p {
        Progress::Batch { from } => 2 * (total - from) + 11,
        Progress::Row { at, .. } => 2 * (total - at) + 10,
        Progress::Closing(c) => 10 - closing_rank(c),
        _ => 0,
    }
}

/// A run comes to an end: each step but the last brings it closer to it.
pub proof fn law_a_run_ends(p: Progress, total: usize, shutdown: bool)
    requires
        p.wf(total as int),
    ensures
        ({
            let (action, next) = step(p, total, shutdown);
            &&& steps_left(p, total as int) >= 0
            &&& action == Action::Stop <==> steps_left(p, total as int) == 0
            &&& action != Action::Stop ==> steps_left(next, total as int) < steps_left(
                p,
                total as int,
            )
        }),
{
}

// ---------------------------------------------------------------------------
// The end
// ---------------------------------------------------------------------------

/// One step of what becomes of a build. A step that fails ends the build with
/// its error.
#[derive(Debug, Clone, Copy, PartialEq, Eq, Structural)]
pub enum FinishStep {
    /// Delete the database that was being built.
    Remove,
    /// Delete the leftovers of an interrupted run: its partial database and
    /// its checkpoint.
    DeleteLeftovers,
    /// Delete the checkpoint of an interrupted run.
    DeleteCheckpoint,
    /// Turn the database into a single file.
    FinalizeJournal,
    /// Check that the database is sound.
    Validate,
    /// Rotate the historical copies.
    Rotate,
    /// Put the database in the place of the live one.
    Swap,
}

/// How the leftovers of an interrupted run are cleared away: where a build went
/// on with the partial database, that is no leftover any more.
pub open spec fn clearing(source: BuildSource) -> FinishStep {
    if source == BuildSource::Leftovers {
        FinishStep::DeleteCheckpoint
    } else {
        FinishStep::DeleteLeftovers
    }
}

/// What is done about a build that started from `source` and ended like this.
pub open spec fn finishing(f: Finish, source: BuildSource) -> Seq<FinishStep> {
    match f {
        Finish::Failed { delete } => if delete {
            seq![FinishStep::Remove]
        } else {
            seq![]
        },
        Finish::Interrupted => seq![],
        Finish::DryRun => seq![
            clearing(source),
            FinishStep::FinalizeJournal,
            FinishStep::Validate,
        ],
        Finish::Publish { rotate } => if rotate {
            seq![
                clearing(source),
                FinishStep::FinalizeJournal,
                FinishStep::Validate,
                FinishStep::Rotate,
                FinishStep::Swap,
            ]
        } else {
            seq![
                clearing(source),
                FinishStep::FinalizeJournal,
                FinishStep::Validate,
                FinishStep::Swap,
            ]
        },
    }
}

/// What is to be done about a build that started from `source` and ended like
/// this, in order.
pub fn finish_steps(f: Finish, source: BuildSource) -> (steps: Vec<FinishStep>)
    ensures
        steps@ == finishing(f, source),
{
    let mut steps: Vec<FinishStep> = Vec::new();
    let clear: FinishStep = match source {
        BuildSource::Leftovers => FinishStep::DeleteCheckpoint,
        _ => FinishStep::DeleteLeftovers,
    };
    match f {
        Finish::Failed { delete } => {
            if delete {
                steps.push(FinishStep::Remove);
            }
        },
        Finish::Interrupted => {},
        Finish::DryRun => {
            steps.push(clear);
            steps.push(FinishStep::FinalizeJournal);
            steps.push(FinishStep::Validate);
        },
        Finish::Publish { rotate } => {
            steps.push(clear);
            steps.push(FinishStep::FinalizeJournal);
            steps.push(FinishStep::Validate);
            if rotate {
                steps.push(FinishStep::Rotate);
            }
            steps.push(FinishStep::Swap);
        },
    }
    assert(steps@ =~= finishing(f, source));
    steps
}

/// Only a build that succeeded and was not a dry run replaces the live
/// database, and only after its own database was turned into a single file
/// and found to be sound, and the copies rotated where that is wanted.
pub proof fn law_only_a_checked_database_is_published(f: Finish, source: BuildSource, i: int)
    requires
        0 <= i < finishing(f, source).len(),
        finishing(f, source)[i] == FinishStep::Swap,
    ensures
        f is Publish,
        i == finishing(f, source).len() - 1,
        exists|j: int, k: int|
            0 <= j < k < i && #[trigger] finishing(f, source)[j] == FinishStep::FinalizeJournal
                && #[trigger] finishing(f, source)[k] == FinishStep::Validate,
        f->rotate ==> finishing(f, source)[i - 1] == FinishStep::Rotate,
{
    assert(f is Publish);
    assert(finishing(f, source)[1] == FinishStep::FinalizeJournal);
    assert(finishing(f, source)[2] == FinishStep::Validate);
}

/// A build that does not fail keeps the database that it filled, also where
/// that is the partial one of the run that it resumed; and it leaves no
/// checkpoint behind, unless it was interrupted itself.
pub proof fn law_a_finished_database_is_kept(f: Finish, source: BuildSource)
    requires
        !(f is Failed),
    ensures
        !finishing(f, source).contains(FinishStep::Remove),
        source == BuildSource::Leftovers ==> !finishing(f, source).contains(
            FinishStep::DeleteLeftovers,
        ),
        !(f is Interrupted) ==> finishing(f, source)[0] == FinishStep::DeleteLeftovers
            || finishing(f, source)[0] == FinishStep::DeleteCheckpoint,
{
}

/// The scripts that a build which does not resume starts with: those of the
/// previous build that remain, or none.
pub open spec fn started_with(
    source: BuildSource,
    existing: Seq<ExistingScript>,
    records: Seq<ScriptRecord>,
    hashes: Seq<Option<String>>,
) -> Set<Seq<char>> {
    if source == BuildSource::Previous {
        builder::reused_in(existing, records, hashes, records.len() as int)
    } else {
        Set::empty()
    }
}

/// A build of an unchanged tree, after one that wrote every script, counts as
/// many scripts as that one, and reuses all of them, or none where it is told
/// to build in full. `first` tells which scripts the earlier build started
/// with; `written` and `rewritten` tell that what was pending was written.
pub proof fn law_a_second_build_reuses_everything(
    opts: BuildOptions,
    leftovers: Leftovers,
    schema: i64,
    existing: Seq<ExistingScript>,
    records: Seq<ScriptRecord>,
    hashes: Seq<Option<String>>,
    first: Set<Seq<char>>,
    written: Seq<bool>,
    rewritten: Seq<bool>,
)
    requires
        !opts.dry_run,
        !resumes(opts, leftovers),
        records.len() <= usize::MAX,
        hashes.len() == records.len(),
        builder::are_distinct(records),
        forall|i: int|
            0 <= i < records.len() ==> builder::is_unchanged(existing, #[trigger] records[i]),
        forall|p: Seq<char>| #[trigger]
            first.contains(p) ==> exists|i: int|
                0 <= i < records.len() && (#[trigger] records[i]).physical_path@ == p,
        written.len() == builder::pending_in(records, first, records.len() as int).len(),
        forall|i: int| 0 <= i < written.len() ==> #[trigger] written[i],
        rewritten.len() == builder::pending_in(
            records,
            started_with(
                planned(opts, leftovers, Some(schema), schema).source,
                existing,
                records,
                hashes,
            ),
            records.len() as int,
        ).len(),
        forall|i: int| 0 <= i < rewritten.len() ==> #[trigger] rewritten[i],
    ensures
        ({
            let source = planned(opts, leftovers, Some(schema), schema).source;
            let second = started_with(source, existing, records, hashes);
            &&& builder::scripts_counted(second.len() as int, rewritten)
                == builder::scripts_counted(first.len() as int, written)
            &&& builder::scripts_counted(second.len() as int, rewritten) == records.len()
            &&& second.len() == if opts.no_incremental {
                0
            } else {
                records.len()
            }
        }),
{
    let source = planned(opts, leftovers, Some(schema), schema).source;
    let second = started_with(source, existing, records, hashes);
    builder::law_an_unchanged_tree_is_reused(existing, records, hashes);
    builder::law_every_script_is_counted_once(records, first, written);
    builder::law_every_script_is_counted_once(records, second, rewritten);
}

/// A build goes on from the leftovers of an interrupted one only where it may
/// and they are sound, and deletes leftovers that it does not go on from. It
/// starts from the previous build only where that is wanted, has the current
/// schema, and nothing is resumed; a dry run starts from nothing.
pub proof fn law_a_build_starts_from_what_it_may_use(
    opts: BuildOptions,
    leftovers: Leftovers,
    previous_schema: Option<i64>,
    schema: i64,
)
    ensures
        ({
            let plan = planned(opts, leftovers, previous_schema, schema);
            let sound = leftovers.wip_exists && leftovers.checkpoint_read && leftovers.wip_is_valid;
            &&& opts.no_resume || opts.dry_run ==> plan.source != BuildSource::Leftovers
                && plan.discard_leftovers
            &&& !opts.no_resume && !opts.dry_run && sound ==> plan.source == BuildSource::Leftovers
                && !plan.discard_leftovers
            &&& leftovers.wip_exists && !sound ==> plan.discard_leftovers && plan.source
                != BuildSource::Leftovers
            &&& opts.dry_run || opts.no_incremental || previous_schema != Some(schema)
                ==> plan.source != BuildSource::Previous
            &&& !opts.dry_run && !opts.no_incremental && previous_schema == Some(schema) && (
            opts.no_resume || !sound) ==> plan.source == BuildSource::Previous
            &&& !leftovers.wip_exists && !opts.no_resume && !opts.dry_run ==> !plan.discard_leftovers
            &&& opts.head_lines > 0 ==> plan.head_lines == opts.head_lines
            &&& opts.head_lines == 0 ==> plan.head_lines == 10
        }),
{
}

/// A failed build leaves nothing behind unless it was told to stop, and an
/// interrupted one leaves everything as it is.
pub proof fn law_failed_builds_are_cleared_away(source: BuildSource)
    ensures
        finishing(Finish::Failed { delete: true }, source) == seq![FinishStep::Remove],
        finishing(Finish::Failed { delete: false }, source).len() == 0,
        finishing(Finish::Interrupted, source).len() == 0,
        !finishing(Finish::DryRun, source).contains(FinishStep::Swap),
        finishing(Finish::DryRun, source).contains(FinishStep::Validate),
        finishing(Finish::Publish { rotate: true }, source).contains(FinishStep::Swap),
        finishing(Finish::Publish { rotate: true }, source).contains(FinishStep::Rotate),
        finishing(Finish::Publish { rotate: false }, source).contains(FinishStep::Swap),
        !finishing(Finish::Publish { rotate: false }, source).contains(FinishStep::Rotate),
{
    let dry = finishing(Finish::DryRun, source);
    assert(dry[2] == FinishStep::Validate);
    let rotated = finishing(Finish::Publish { rotate: true }, source);
    assert(rotated[3] == FinishStep::Rotate);
    assert(rotated[4] == FinishStep::Swap);
    let plain = finishing(Finish::Publish { rotate: false }, source);
    assert(plain[3] == FinishStep::Swap);
}

} // verus!
