//! Historical copies of a database.

use vstd::prelude::*;
use vstd::string::StringExecFns;

use crate::text;
use crate::text::decimal_text;

verus! {

/// One step of a rotation. A step whose source is not there does nothing.
#[derive(Debug)]
pub enum RotationStep {
    /// Delete a file.
    Remove(String),
    /// Rename a file.
    Rename(String, String),
    /// Make the second path a copy of the first.
    Copy(String, String),
}

/// A step as texts.
pub enum StepView {
    Remove(Seq<char>),
    Rename(Seq<char>, Seq<char>),
    Copy(Seq<char>, Seq<char>),
}

impl View for RotationStep {
    type V = StepView;

    open spec fn view(&self) -> StepView {
        match self {
            RotationStep::Remove(p) => StepView::Remove(p@),
            RotationStep::Rename(p, q) => StepView::Rename(p@, q@),
            RotationStep::Copy(p, q) => StepView::Copy(p@, q@),
        }
    }
}

/// The views of steps.
pub open spec fn step_views(v: Seq<RotationStep>) -> Seq<StepView> {
    v.map_values(|s: RotationStep| s@)
}

/// The path of the `i`th copy.
pub open spec fn copy_path(db: Seq<char>, i: nat) -> Seq<char> {
    db + "."@ + text::decimal(i)
}

/// The renames that shift the copies `1..=n` up by one, the oldest first.
pub open spec fn shift_steps(db: Seq<char>, n: nat) -> Seq<StepView>
    decreases n,
{
    if n == 0 {
        seq![]
    } else {
        seq![StepView::Rename(copy_path(db, n), copy_path(db, n + 1))] + shift_steps(
            db,
            (n - 1) as nat,
        )
    }
}

/// The steps that make room for a new first copy and make it.
pub open spec fn rotation(db: Seq<char>, keep: nat) -> Seq<StepView> {
    if keep == 0 {
        seq![]
    } else {
        seq![StepView::Remove(copy_path(db, keep))] + shift_steps(db, (keep - 1) as nat)
            + seq![StepView::Copy(db, copy_path(db, 1))]
    }
}

/// The path of the `i`th copy.
fn copy_name(db_path: &str, i: u64) -> (p: String)
    ensures
        p@ == copy_path(db_path@, i as nat),
{
    let mut p: String = db_path.to_owned();
    p.append(".");
    let n: String = decimal_text(i);
    p.append(n.as_str());
    p
}

/// The steps that rotate the historical copies of `db_path`.
///
/// Copies are named `<db_path>.1`, `<db_path>.2`, up to `<db_path>.N`. The
/// oldest one that would exceed `keep_copies` is deleted first, the others are
/// shifted up, and the live database becomes `<db_path>.1`.
pub fn rotate_copies(db_path: &str, keep_copies: u64) -> (steps: Vec<RotationStep>)
    ensures
        step_views(steps@) == rotation(db_path@, keep_copies as nat),
{
    let mut steps: Vec<RotationStep> = Vec::new();
    assert(step_views(steps@) =~= seq![]);
    if keep_copies == 0 {
        return steps;
    }
    let ghost whole = rotation(db_path@, keep_copies as nat);
    let ghost last = seq![StepView::Copy(db_path@, copy_path(db_path@, 1))];
    steps.push(RotationStep::Remove(copy_name(db_path, keep_copies)));
    let mut i: u64 = keep_copies - 1;
    assert(step_views(steps@) =~= seq![StepView::Remove(
        copy_path(db_path@, keep_copies as nat),
    )]);
    while i > 0
        invariant
            i < keep_copies,
            step_views(steps@) + shift_steps(db_path@, i as nat) + last == whole,
        decreases i,
    {
        let ghost before = step_views(steps@);
        steps.push(RotationStep::Rename(copy_name(db_path, i), copy_name(db_path, i + 1)));
        proof {
            let step = StepView::Rename(
                copy_path(db_path@, i as nat),
                copy_path(db_path@, (i + 1) as nat),
            );
            assert(step_views(steps@) =~= before.push(step));
            assert(before + shift_steps(db_path@, i as nat) + last =~= before.push(step)
                + shift_steps(db_path@, (i - 1) as nat) + last);
        }
        i = i - 1;
    }
    let ghost before = step_views(steps@);
    steps.push(RotationStep::Copy(db_path.to_owned(), copy_name(db_path, 1)));
    assert(step_views(steps@) =~= before + last);
    assert(before + shift_steps(db_path@, 0) + last =~= before + last);
    steps
}

// ---------------------------------------------------------------------------
// What a rotation does to a directory
// ---------------------------------------------------------------------------

/// A directory: the contents of the files that are there.
pub type Files = Map<Seq<char>, Seq<u8>>;

/// The directory after one step.
pub open spec fn after_step(files: Files, step: StepView) -> Files {
    match step {
        StepView::Remove(p) => files.remove(p),
        StepView::Rename(p, q) => if files.contains_key(p) {
            files.remove(p).insert(q, files[p])
        } else {
            files
        },
        StepView::Copy(p, q) => if files.contains_key(p) {
            files.insert(q, files[p])
        } else {
            files
        },
    }
}

/// The directory after the given steps.
pub open spec fn after_steps(files: Files, steps: Seq<StepView>) -> Files
    decreases steps.len(),
{
    if steps.len() == 0 {
        files
    } else {
        after_steps(after_step(files, steps[0]), steps.drop_first())
    }
}

/// A number is one digit or has the decimal notation of its tenth part before
/// its last digit, so two numbers with one notation are the same.
proof fn lemma_decimal_injective(a: nat, b: nat)
    requires
        text::decimal(a) == text::decimal(b),
    ensures
        a == b,
    decreases a,
{
    lemma_decimal_len(a);
    lemma_decimal_len(b);
    if a >= 10 && b >= 10 {
        let x = text::decimal(a);
        let y = text::decimal(b);
        assert(x.drop_last() =~= text::decimal(a / 10));
        assert(y.drop_last() =~= text::decimal(b / 10));
        assert(x.last() == text::digit_char(a % 10));
        assert(y.last() == text::digit_char(b % 10));
        lemma_decimal_injective(a / 10, b / 10);
        assert(text::digit_char(a % 10) as int == 48 + a % 10);
        assert(text::digit_char(b % 10) as int == 48 + b % 10);
    } else if a < 10 && b < 10 {
        assert(text::decimal(a)[0] == text::digit_char(a));
        assert(text::decimal(b)[0] == text::digit_char(b));
        assert(text::digit_char(a) as int == 48 + a);
        assert(text::digit_char(b) as int == 48 + b);
    }
}

/// A decimal notation has at least one digit, and more than one from ten on.
proof fn lemma_decimal_len(n: nat)
    ensures
        text::decimal(n).len() >= 1,
        n < 10 ==> text::decimal(n).len() == 1,
        n >= 10 ==> text::decimal(n).len() >= 2,
    decreases n,
{
    if n >= 10 {
        lemma_decimal_len(n / 10);
    }
}

/// Different copies have different paths, and none has that of the database.
proof fn lemma_copy_paths(db: Seq<char>, a: nat, b: nat)
    ensures
        copy_path(db, a) != db,
        copy_path(db, a) == copy_path(db, b) ==> a == b,
{
    reveal_strlit(".");
    assert(copy_path(db, a).len() > db.len());
    if copy_path(db, a) == copy_path(db, b) {
        let n = db.len() + 1;
        assert(copy_path(db, a).skip(n as int) =~= text::decimal(a));
        assert(copy_path(db, b).skip(n as int) =~= text::decimal(b));
        lemma_decimal_injective(a, b);
    }
}

/// Shifting the copies `1..=n` up by one, where there is no copy `n + 1`:
/// each of them is one place up, there is no first copy, and all else is kept.
proof fn lemma_shift(files: Files, db: Seq<char>, n: nat)
    requires
        !files.contains_key(copy_path(db, n + 1)),
    ensures
        ({
            let after = after_steps(files, shift_steps(db, n));
            &&& !after.contains_key(copy_path(db, 1))
            &&& forall|k: nat|
                1 <= k <= n ==> (after.contains_key(#[trigger] copy_path(db, k + 1))
                    <==> files.contains_key(copy_path(db, k)))
            &&& forall|k: nat|
                1 <= k <= n && files.contains_key(copy_path(db, k))
                    ==> after[#[trigger] copy_path(db, k + 1)] == files[copy_path(db, k)]
            &&& forall|p: Seq<char>|
                (forall|k: nat| 1 <= k <= n + 1 ==> p != #[trigger] copy_path(db, k)) ==> (
                #[trigger] after.contains_key(p) <==> files.contains_key(p))
            &&& forall|p: Seq<char>|
                (forall|k: nat| 1 <= k <= n + 1 ==> p != #[trigger] copy_path(db, k))
                    && files.contains_key(p) ==> #[trigger] after[p] == files[p]
        }),
    decreases n,
{
    if n == 0 {
        assert(shift_steps(db, 0) =~= seq![]);
    } else {
        let m = (n - 1) as nat;
        let step = StepView::Rename(copy_path(db, n), copy_path(db, n + 1));
        let mid = after_step(files, step);
        let steps = shift_steps(db, n);
        assert(steps.drop_first() =~= shift_steps(db, m));
        assert(steps[0] == step);
        lemma_copy_paths(db, n, n + 1);
        assert(!mid.contains_key(copy_path(db, m + 1)));
        lemma_shift(mid, db, m);
        let after = after_steps(files, steps);
        assert(after == after_steps(mid, shift_steps(db, m)));
        let top = copy_path(db, n + 1);
        assert forall|k: nat| 1 <= k <= m + 1 implies top != #[trigger] copy_path(db, k) by {
            lemma_copy_paths(db, n + 1, k);
        }
        assert forall|k: nat| 1 <= k <= n implies (after.contains_key(
            #[trigger] copy_path(db, k + 1),
        ) <==> files.contains_key(copy_path(db, k))) && (files.contains_key(copy_path(db, k))
            ==> after[copy_path(db, k + 1)] == files[copy_path(db, k)]) by {
            if k <= m {
                lemma_copy_paths(db, k, n);
                lemma_copy_paths(db, k, n + 1);
            }
        }
        assert forall|p: Seq<char>|
            (forall|k: nat| 1 <= k <= n + 1 ==> p != #[trigger] copy_path(db, k)) implies (
        #[trigger] after.contains_key(p) <==> files.contains_key(p)) && (files.contains_key(p)
            ==> after[p] == files[p]) by {
            assert(p != copy_path(db, n));
            assert(p != copy_path(db, n + 1));
            assert(mid.contains_key(p) <==> files.contains_key(p));
        }
    }
}

/// A rotation keeps the newest copies: the live database is the first copy,
/// each earlier copy is one place further, the one that was last is gone, and
/// no other file changes.
pub proof fn law_rotation_shifts_copies(files: Files, db: Seq<char>, keep: nat)
    requires
        keep > 0,
        files.contains_key(db),
    ensures
        ({
            let after = after_steps(files, rotation(db, keep));
            &&& after.contains_key(copy_path(db, 1)) && after[copy_path(db, 1)] == files[db]
            &&& forall|k: nat|
                1 <= k < keep ==> (after.contains_key(#[trigger] copy_path(db, k + 1))
                    <==> files.contains_key(copy_path(db, k)))
            &&& forall|k: nat|
                1 <= k < keep && files.contains_key(copy_path(db, k))
                    ==> after[#[trigger] copy_path(db, k + 1)] == files[copy_path(db, k)]
            &&& forall|p: Seq<char>|
                (forall|k: nat| 1 <= k <= keep ==> p != #[trigger] copy_path(db, k)) ==> (
                #[trigger] after.contains_key(p) <==> files.contains_key(p))
            &&& forall|p: Seq<char>|
                (forall|k: nat| 1 <= k <= keep ==> p != #[trigger] copy_path(db, k))
                    && files.contains_key(p) ==> #[trigger] after[p] == files[p]
            &&& after.contains_key(db) && after[db] == files[db]
        }),
{
    let m = (keep - 1) as nat;
    let first = StepView::Remove(copy_path(db, keep));
    let last = StepView::Copy(db, copy_path(db, 1));
    let shifts = shift_steps(db, m);
    let steps = rotation(db, keep);
    let cut = after_step(files, first);
    assert(steps[0] == first);
    assert(steps.drop_first() =~= shifts + seq![last]);
    lemma_after_steps_push(cut, shifts, last);
    assert(copy_path(db, m + 1) == copy_path(db, keep));
    lemma_shift(cut, db, m);
    let mid = after_steps(cut, shifts);
    let after = after_steps(files, steps);
    assert(after == after_step(mid, last));
    assert forall|k: nat| 1 <= k <= m + 1 implies db != #[trigger] copy_path(db, k) by {
        lemma_copy_paths(db, k, k);
    }
    assert(mid.contains_key(db) <==> cut.contains_key(db));
    lemma_copy_paths(db, keep, keep);
    lemma_copy_paths(db, 1, 1);
    assert(mid[db] == files[db]);
    assert forall|k: nat| 1 <= k < keep implies (after.contains_key(#[trigger] copy_path(db, k + 1))
        <==> files.contains_key(copy_path(db, k))) && (files.contains_key(copy_path(db, k))
        ==> after[copy_path(db, k + 1)] == files[copy_path(db, k)]) by {
        lemma_copy_paths(db, k + 1, 1);
        lemma_copy_paths(db, k, keep);
    }
    assert forall|p: Seq<char>|
        (forall|k: nat| 1 <= k <= keep ==> p != #[trigger] copy_path(db, k)) implies (
    #[trigger] after.contains_key(p) <==> files.contains_key(p)) && (files.contains_key(p)
        ==> after[p] == files[p]) by {
        assert(p != copy_path(db, keep));
        assert(p != copy_path(db, 1));
        assert(mid.contains_key(p) <==> cut.contains_key(p));
    }
}

/// One more step at the end.
proof fn lemma_after_steps_push(files: Files, steps: Seq<StepView>, step: StepView)
    ensures
        after_steps(files, steps + seq![step]) == after_step(after_steps(files, steps), step),
    decreases steps.len(),
{
    let all = steps + seq![step];
    if steps.len() == 0 {
        assert(all =~= seq![step]);
        assert(all.drop_first() =~= seq![]);
        assert(after_steps(after_step(files, step), seq![]) == after_step(files, step));
    } else {
        assert(all.drop_first() =~= steps.drop_first() + seq![step]);
        lemma_after_steps_push(after_step(files, steps[0]), steps.drop_first(), step);
    }
}

} // verus!
