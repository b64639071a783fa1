//! What an interrupted indexing run leaves behind.
//!
//! Two files stand beside the database while it is built:
//!
//! ```text
//! catalog.db.wip          partial database
//! catalog.db.wip.ckpt     the paths that it holds already
//! ```
//!
//! A later run that finds both skips those paths and goes on from there.

use vstd::prelude::*;
use vstd::string::StringExecFns;

use crate::paths;
use crate::paths::{file_name_of, replace_file_name};
use crate::sorted_map::SortedMap;
use crate::text;

verus! {

/// Persisted state between interrupted indexing runs.
#[derive(Debug)]
pub struct Checkpoint {
    /// Physical paths that have already been written to the partial database.
    pub indexed: SortedMap<()>,
}

/// `path` with `suffix` behind its file name.
pub open spec fn with_suffix(path: Seq<char>, suffix: Seq<char>) -> Seq<char> {
    let name = match paths::file_name(path) {
        Some(name) => name,
        None => seq![],
    };
    paths::with_file_name(path, name + suffix)
}

/// `path` with `suffix` behind its file name.
fn add_suffix(path: &str, suffix: &str) -> (r: String)
    ensures
        r@ == with_suffix(path@, suffix@),
{
    let mut name: String = match file_name_of(path) {
        Some(name) => name,
        None => String::new(),
    };
    name.append(suffix);
    replace_file_name(path, name.as_str())
}

/// Path of the partial database beside `db_path`.
pub fn wip_path(db_path: &str) -> (r: String)
    ensures
        r@ == with_suffix(db_path@, ".wip"@),
{
    add_suffix(db_path, ".wip")
}

/// Path of the checkpoint file beside `db_path`.
pub fn ckpt_path(db_path: &str) -> (r: String)
    ensures
        r@ == with_suffix(with_suffix(db_path@, ".wip"@), ".ckpt"@),
{
    let wip: String = wip_path(db_path);
    add_suffix(wip.as_str(), ".ckpt")
}

/// What is to be done about the leftovers of an interrupted run.
#[derive(Debug, Clone, Copy, PartialEq, Eq, Structural)]
pub enum ResumeDecision {
    /// Go on from the checkpoint.
    Resume,
    /// Delete the leftovers and start anew.
    Discard,
    /// There is nothing to go on from.
    Fresh,
}

/// Whether a run goes on from an interrupted one: only where it may, and where
/// the partial database is there and sound and its checkpoint could be read.
/// `checkpoint_read` tells whether a checkpoint was there and readable,
/// `wip_is_valid` whether the partial database passed its check; neither
/// matters where the partial database is not there.
pub fn resume_decision(
    no_resume: bool,
    dry_run: bool,
    wip_exists: bool,
    checkpoint_read: bool,
    wip_is_valid: bool,
) -> (d: ResumeDecision)
    ensures
        d == ResumeDecision::Resume <==> !no_resume && !dry_run && wip_exists && checkpoint_read
            && wip_is_valid,
        d == ResumeDecision::Fresh <==> !no_resume && !dry_run && !wip_exists,
{
    if no_resume || dry_run {
        ResumeDecision::Discard
    } else if !wip_exists {
        ResumeDecision::Fresh
    } else if checkpoint_read && wip_is_valid {
        ResumeDecision::Resume
    } else {
        ResumeDecision::Discard
    }
}

/// A suffix behind the name of a file leaves it in its directory: only the
/// last part of its path changes.
proof fn lemma_suffix(path: Seq<char>, suffix: Seq<char>)
    requires
        paths::file_name(path) is Some,
        suffix.len() > 1,
        !suffix.contains('/'),
        suffix.last() != '.',
    ensures
        ({
            let parts = paths::path_parts(path);
            let name = paths::file_name(path).unwrap() + suffix;
            &&& paths::path_parts(with_suffix(path, suffix)) == parts.drop_last().push(name)
            &&& paths::file_name(with_suffix(path, suffix)) == Some(name)
        }),
{
    let parts = paths::path_parts(path);
    let own = parts.last();
    let name = own + suffix;
    paths::lemma_parts_are_plain(path, text::split_char(path, '/').len() as int);
    reveal_strlit(".");
    reveal_strlit("..");
    assert(parts[parts.len() - 1] == own);
    assert(name.last() == suffix.last());
    assert(name.len() > 1);
    if name.contains('/') {
        let k = choose|k: int| 0 <= k < name.len() && name[k] == '/';
        if k < own.len() {
            assert(own[k] == '/');
            assert(own.contains('/'));
        } else {
            assert(suffix[k - own.len()] == '/');
            assert(suffix.contains('/'));
        }
    }
    paths::lemma_with_file_name(path, name);
    assert(name != ".."@);
    assert(name != "."@);
}

/// The partial database and its checkpoint stand beside the database: their
/// paths differ from its path in the file name alone, which is that of the
/// database with `.wip` and `.wip.ckpt` behind it.
pub proof fn law_leftovers_are_siblings(db_path: Seq<char>)
    requires
        paths::file_name(db_path) is Some,
    ensures
        ({
            let parts = paths::path_parts(db_path);
            let name = paths::file_name(db_path).unwrap();
            let wip = with_suffix(db_path, ".wip"@);
            let ckpt = with_suffix(wip, ".ckpt"@);
            &&& paths::path_parts(wip) == parts.drop_last().push(name + ".wip"@)
            &&& paths::path_parts(ckpt) == parts.drop_last().push(name + ".wip"@ + ".ckpt"@)
        }),
{
    reveal_strlit(".wip");
    reveal_strlit(".ckpt");
    let parts = paths::path_parts(db_path);
    let wip = with_suffix(db_path, ".wip"@);
    lemma_suffix(db_path, ".wip"@);
    lemma_suffix(wip, ".ckpt"@);
    assert(paths::path_parts(wip).drop_last() =~= parts.drop_last());
}

/// The partial database of the database `name` in a directory is the file
/// `name.wip` there, and its checkpoint `name.wip.ckpt`.
pub proof fn law_leftovers_stand_beside_the_database(dir: Seq<char>, name: Seq<char>)
    requires
        paths::ends_in_part(dir),
        paths::is_plain_part(name),
        name != ".."@,
    ensures
        with_suffix(dir + "/"@ + name, ".wip"@) == dir + "/"@ + (name + ".wip"@),
        with_suffix(with_suffix(dir + "/"@ + name, ".wip"@), ".ckpt"@) == dir + "/"@ + (name
            + ".wip"@ + ".ckpt"@),
{
    reveal_strlit(".wip");
    reveal_strlit(".ckpt");
    reveal_strlit(".");
    reveal_strlit("..");
    let wip = name + ".wip"@;
    paths::law_an_entry_is_named_last(dir, name, seq![], seq![]);
    paths::law_a_sibling_stands_in_the_same_directory(dir, name, wip);
    assert(!wip.contains('/')) by {
        assert forall|i: int| 0 <= i < wip.len() implies wip[i] != '/' by {
            if i < name.len() {
                assert(name.contains(name[i]));
            } else {
                let k = i - name.len();
                assert(k == 0 || k == 1 || k == 2 || k == 3);
            }
        }
    }
    assert(wip.len() > 4);
    paths::law_an_entry_is_named_last(dir, wip, seq![], seq![]);
    paths::law_a_sibling_stands_in_the_same_directory(dir, wip, wip + ".ckpt"@);
}

} // verus!
