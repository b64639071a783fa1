//! Which files of a tree are scripts, which are versions of scripts, and which
//! are neither.

use vstd::prelude::*;
use vstd::string::StringExecFns;

use crate::ast_deps;
use crate::paths;
use crate::paths::{
    extension_of, file_name_of, is_below, parent_name_of, relative_to, replace_file_name,
};
use crate::patterns;
use crate::patterns::{captures_of, lowercase, Groups};
use crate::text;
use crate::text::{chars_of, concat, contains_string, has_suffix, same_text, slice_text};
use crate::vc;
use crate::vc::{parse_checkout_filename, CheckoutName};

verus! {

// ---------------------------------------------------------------------------
// Languages
// ---------------------------------------------------------------------------

/// The language of a file extension in lower case.
pub open spec fn extension_language(ext: Seq<char>) -> Seq<char> {
    if ext == "py"@ {
        "python"@
    } else if ext == "sh"@ || ext == "bash"@ || ext == "ksh"@ {
        "shell"@
    } else if ext == "yml"@ || ext == "yaml"@ {
        "yaml"@
    } else if ext == "csv"@ {
        "csv"@
    } else if ext == "json"@ {
        "json"@
    } else {
        "unknown"@
    }
}

/// The language of a file extension in lower case.
pub fn language_of_extension(ext: &str) -> (language: &'static str)
    ensures
        language@ == extension_language(ext@),
{
    if same_text(ext, "py") {
        "python"
    } else if same_text(ext, "sh") || same_text(ext, "bash") || same_text(ext, "ksh") {
        "shell"
    } else if same_text(ext, "yml") || same_text(ext, "yaml") {
        "yaml"
    } else if same_text(ext, "csv") {
        "csv"
    } else if same_text(ext, "json") {
        "json"
    } else {
        "unknown"
    }
}

/// The language of a path by its extension, in any case.
pub open spec fn path_language(path: Seq<char>) -> Seq<char> {
    match paths::extension(path) {
        Some(ext) => extension_language(patterns::unicode_lower(ext)),
        None => "unknown"@,
    }
}

/// Detect language from a file extension.
pub fn detect_language(path: &str) -> (language: &'static str)
    ensures
        language@ == path_language(path@),
        paths::extension(path@) matches Some(ext) ==> vstd::utf8::is_ascii_chars(ext)
            ==> language@ == extension_language(text::ascii_lower(ext)),
{
    match extension_of(path) {
        Some(ext) => {
            let lower: String = lowercase(ext.as_str());
            language_of_extension(lower.as_str())
        },
        None => "unknown",
    }
}

pub const SHEBANG_PATTERN: &'static str = r"^#!\s*(\S+)(?:\s+(\S+))?";

/// The language of an interpreter.
pub open spec fn interpreter_language(name: Seq<char>) -> Option<Seq<char>> {
    if name == "sh"@ || name == "bash"@ || name == "ksh"@ || name == "ksh93"@ {
        Some("shell"@)
    } else if name == "python"@ || name == "python2"@ || name == "python3"@ {
        Some("python"@)
    } else {
        None
    }
}

/// The `i`th group of a match, if it took part.
pub open spec fn group(groups: Seq<Option<Seq<char>>>, i: int) -> Option<Seq<char>> {
    if 0 <= i < groups.len() {
        groups[i]
    } else {
        None
    }
}

/// The name of the program that a group of a match calls.
pub open spec fn program_in(groups: Seq<Option<Seq<char>>>, i: int) -> Option<Seq<char>> {
    match group(groups, i) {
        Some(path) => paths::file_name(path),
        None => None,
    }
}

/// The language that a shebang asks for: that of its program, or, where that
/// is `env`, of the program that `env` is to run.
pub open spec fn shebang_view(found: Option<Seq<Option<Seq<char>>>>) -> Option<Seq<char>> {
    match found {
        Some(groups) => match program_in(groups, 1) {
            Some(command) => if command == "env"@ {
                match program_in(groups, 2) {
                    Some(name) => interpreter_language(name),
                    None => None,
                }
            } else {
                interpreter_language(command)
            },
            None => None,
        },
        None => None,
    }
}

/// The words behind the `#!` that a line starts with.
pub open spec fn shebang_words(line: Seq<char>) -> Seq<Seq<char>> {
    if "#!"@.is_prefix_of(line) {
        text::words(line.skip(2))
    } else {
        seq![]
    }
}

/// The language that the shebang of a line asks for: that of its first word's
/// program, or, where that is `env`, of the second word's.
pub open spec fn shebang_of(line: Seq<char>) -> Option<Seq<char>> {
    let words = shebang_words(line);
    let program = if words.len() > 0 {
        paths::file_name(words[0])
    } else {
        None
    };
    let name = if program == Some("env"@) {
        if words.len() > 1 {
            paths::file_name(words[1])
        } else {
            None
        }
    } else {
        program
    };
    match name {
        Some(n) => interpreter_language(n),
        None => None,
    }
}

/// The language of an interpreter.
fn language_of_interpreter(name: &str) -> (language: Option<&'static str>)
    ensures
        ast_deps::str_option(language) == interpreter_language(name@),
{
    if same_text(name, "sh") || same_text(name, "bash") || same_text(name, "ksh") || same_text(
        name,
        "ksh93",
    ) {
        Some("shell")
    } else if same_text(name, "python") || same_text(name, "python2") || same_text(
        name,
        "python3",
    ) {
        Some("python")
    } else {
        None
    }
}

/// The name of the program that a group of a match calls.
fn program_of_group(groups: &Groups, i: usize) -> (name: Option<String>)
    ensures
        ast_deps::option_view(name) == program_in(patterns::group_views(groups@), i as int),
{
    let ghost views = patterns::group_views(groups@);
    if i < groups.len() {
        assert(views[i as int] == match groups@[i as int] {
            Some(s) => Some(s@),
            None => None,
        });
        if let Some(path) = &groups[i] {
            return file_name_of(path.as_str());
        }
    }
    None
}

/// The language that a matched shebang asks for.
pub fn shebang_of_match(found: &Option<Groups>) -> (language: Option<&'static str>)
    ensures
        ast_deps::str_option(language) == shebang_view(patterns::match_view(*found)),
{
    let Some(groups) = found else {
        return None;
    };
    let Some(command) = program_of_group(groups, 1) else {
        return None;
    };
    if same_text(command.as_str(), "env") {
        match program_of_group(groups, 2) {
            Some(name) => language_of_interpreter(name.as_str()),
            None => None,
        }
    } else {
        language_of_interpreter(command.as_str())
    }
}

/// Infer language from a shebang line.
pub fn shebang_language(first_line: &str) -> (language: Option<&'static str>)
    ensures
        ast_deps::str_option(language) == shebang_of(first_line@),
{
    let found: Option<Groups> = captures_of(SHEBANG_PATTERN, first_line);
    shebang_of_match(&found)
}

/// The last part of a path below the directory of the given names.
proof fn lemma_last_name(dirs: Seq<Seq<char>>, name: Seq<char>)
    requires
        dirs.len() > 0,
        name.len() > 0,
        !name.contains('/'),
        name != "."@,
        forall|i: int| 0 <= i < dirs.len() ==> !(#[trigger] dirs[i]).contains('/'),
    ensures
        paths::file_name(text::join(dirs.push(name), seq!['/'])) == if name == ".."@ {
            None
        } else {
            Some(name)
        },
{
    let all = dirs.push(name);
    text::lemma_split_join(all, '/');
    assert(paths::is_part(all, all.len() - 1));
}

/// A shebang that calls an interpreter through `env` and one that calls it
/// directly, behind white space or not, ask for the language of that
/// interpreter; and a line that does not start with `#!` asks for none.
pub proof fn law_shebang_forms_agree(name: Seq<char>, line: Seq<char>)
    requires
        name.len() > 0,
        !name.contains('/'),
        forall|i: int| 0 <= i < name.len() ==> !text::is_white(#[trigger] name[i]),
    ensures
        shebang_of("#!/usr/bin/env "@ + name) == interpreter_language(name),
        shebang_of("#! /bin/"@ + name) == interpreter_language(name),
        shebang_of("#!/bin/"@ + name) == interpreter_language(name),
        !"#!"@.is_prefix_of(line) ==> shebang_of(line) is None,
{
    reveal_strlit("#!");
    reveal_strlit("#!/usr/bin/env ");
    reveal_strlit("#! /bin/");
    reveal_strlit("#!/bin/");
    reveal_strlit("env");
    reveal_strlit(".");
    reveal_strlit("..");
    reveal_strlit("bin");
    lemma_no_language();
    let env = "#!/usr/bin/env "@ + name;
    let spaced = "#! /bin/"@ + name;
    let direct = "#!/bin/"@ + name;
    let none = Seq::<char>::empty();
    let usr = seq!['u', 's', 'r'];
    let bin = seq!['b', 'i', 'n'];
    let program = seq!['/', 'u', 's', 'r', '/', 'b', 'i', 'n', '/', 'e', 'n', 'v'];
    let path = seq!['/', 'b', 'i', 'n', '/'] + name;
    // The words.
    assert forall|i: int| 0 <= i < program.len() implies !text::is_white(#[trigger] program[i]) by {
        assert(i == 0 || i == 1 || i == 2 || i == 3 || i == 4 || i == 5 || i == 6 || i == 7 || i
            == 8 || i == 9 || i == 10 || i == 11);
    }
    assert forall|i: int| 0 <= i < path.len() implies !text::is_white(#[trigger] path[i]) by {
        if i >= 5 {
            assert(path[i] == name[i - 5]);
        } else {
            assert(i == 0 || i == 1 || i == 2 || i == 3 || i == 4);
        }
    }
    assert(env.skip(2) =~= program + seq![' '] + name);
    text::lemma_words_of_word(name);
    text::lemma_words_first(program, name);
    assert(text::words(env.skip(2)) =~= seq![program, name]);
    assert(spaced.skip(2) =~= seq![' '] + path);
    assert(direct.skip(2) =~= path);
    text::lemma_words_of_word(path);
    text::lemma_words_after_space(path);
    assert("#!"@.is_prefix_of(env));
    assert("#!"@.is_prefix_of(spaced));
    assert("#!"@.is_prefix_of(direct));
    // The programs.
    let dirs = seq![none, usr, bin];
    assert(text::join(dirs.push("env"@), seq!['/']) =~= program) by {
        reveal_with_fuel(text::join, 5);
        let all = dirs.push("env"@);
        assert(all.drop_last() =~= dirs);
        assert(dirs.drop_last() =~= seq![none, usr]);
        assert(dirs.drop_last().drop_last() =~= seq![none]);
    }
    lemma_last_name(dirs, "env"@);
    assert(paths::file_name(program) == Some("env"@));
    let own = seq![none, bin];
    assert(text::join(own.push(name), seq!['/']) =~= path) by {
        reveal_with_fuel(text::join, 4);
        let all = own.push(name);
        assert(all.drop_last() =~= own);
        assert(own.drop_last() =~= seq![none]);
    }
    text::lemma_split_join(seq![name], '/');
    assert(text::join(seq![name], seq!['/']) == name);
    let single = seq![name];
    assert(paths::is_part(single, 0));
    assert(paths::parts_in(single, 0) =~= seq![]);
    assert(paths::path_parts(name) =~= seq![name]);
    if name == "."@ {
        let all = own.push(name);
        text::lemma_split_join(all, '/');
        assert(!paths::is_part(all, 0));
        assert(paths::is_part(all, 1));
        assert(!paths::is_part(all, 2));
        assert(paths::parts_in(all, 0) =~= seq![]);
        assert(paths::parts_in(all, 1) =~= seq![]);
        assert(paths::parts_in(all, 2) =~= seq![bin]);
        assert(paths::parts_in(all, 3) =~= seq![bin]);
        assert(bin =~= "bin"@);
    } else {
        lemma_last_name(own, name);
    }
}

/// No interpreter has one of these names.
proof fn lemma_no_language()
    ensures
        interpreter_language("."@) is None,
        interpreter_language(".."@) is None,
        interpreter_language("bin"@) is None,
        interpreter_language("env"@) is None,
        "bin"@ != "env"@,
        "."@ != "env"@,
{
    reveal_strlit(".");
    reveal_strlit("..");
    reveal_strlit("bin");
    reveal_strlit("env");
    reveal_strlit("sh");
    reveal_strlit("bash");
    reveal_strlit("ksh");
    reveal_strlit("ksh93");
    reveal_strlit("python");
    reveal_strlit("python2");
    reveal_strlit("python3");
    assert("bin"@[0] == 'b' && "ksh"@[0] == 'k' && "env"@[0] == 'e');
    assert("."@[0] == '.' && ".."@[0] == '.' && "sh"@[0] == 's');
    assert("bin"@ != "ksh"@ && "env"@ != "ksh"@ && ".."@ != "sh"@);
    assert("bin"@.len() == 3 && "env"@.len() == 3 && "sh"@.len() == 2 && "bash"@.len() == 4);
    assert("ksh93"@.len() == 5 && "python"@.len() == 6);
    assert("python2"@.len() == 7 && "python3"@.len() == 7);
}

/// Whether a dotted extension is one of a script.
pub open spec fn is_script_extension(ext: Seq<char>) -> bool {
    ext == ".py"@ || ext == ".sh"@ || ext == ".bash"@ || ext == ".ksh"@ || ext == ".yml"@ || ext
        == ".yaml"@ || ext == ".csv"@ || ext == ".json"@
}

/// The extension of a path with its dot, in lower case; nothing where it has
/// none.
pub open spec fn dotted_extension(path: Seq<char>) -> Seq<char> {
    match paths::extension(path) {
        Some(ext) => "."@ + patterns::unicode_lower(ext),
        None => seq![],
    }
}

/// Whether a dotted extension is one of a script.
pub fn script_extension(ext: &str) -> (b: bool)
    ensures
        b == is_script_extension(ext@),
{
    same_text(ext, ".py") || same_text(ext, ".sh") || same_text(ext, ".bash") || same_text(
        ext,
        ".ksh",
    ) || same_text(ext, ".yml") || same_text(ext, ".yaml") || same_text(ext, ".csv") || same_text(
        ext,
        ".json",
    )
}

/// The extension of a path with its dot, in lower case.
fn dotted_extension_of(path: &str) -> (ext: String)
    ensures
        ext@ == dotted_extension(path@),
        paths::extension(path@) matches Some(e) ==> vstd::utf8::is_ascii_chars(e) ==> ext@ == "."@
            + text::ascii_lower(e),
{
    match extension_of(path) {
        Some(ext) => {
            let lower: String = lowercase(ext.as_str());
            let mut dotted: String = ".".to_owned();
            dotted.append(lower.as_str());
            dotted
        },
        None => String::new(),
    }
}

// ---------------------------------------------------------------------------
// Candidates
// ---------------------------------------------------------------------------

/// Files larger than this are skipped: a huge data file that shares a script
/// extension is not a script.
pub const MAX_INDEXABLE_FILE_SIZE_BYTES: u64 = 8388608;

/// The revision type of a version that stands beside its script.
pub const REVISION_TYPE_WORKING: &'static str = "WORKING";

/// Script discovered by scanning a tree.
#[derive(Debug)]
pub struct ScriptRecord {
    /// Logical catalog path for the script.
    pub logical_path: String,
    /// Absolute or scanned file path on disk.
    pub physical_path: String,
    /// Detected language key (`python`, `shell`, etc.).
    pub language: String,
    /// File size in bytes.
    pub size: u64,
    /// File mtime in nanoseconds since the UNIX epoch.
    pub mtime_nanos: u64,
    /// Logical path of the file that a symlink leads to.
    pub symlink_target: Option<String>,
}

/// A version of a script that version control keeps.
#[derive(Debug)]
pub struct CheckoutRecord {
    pub logical_path: String,
    pub physical_path: String,
    pub revision_type: String,
    pub os_flavor: String,
    pub user: String,
    pub timestamp: String,
    /// Age in nanoseconds, where the file's mtime is known.
    pub age_nanos: Option<u64>,
}

/// What the file system says of a candidate.
#[derive(Debug)]
pub struct FileFacts {
    /// Whether an entry named like the script part of a version's name stands
    /// beside it and is not a directory.
    pub sibling_exists: bool,
    /// Its first line.
    pub first_line: Option<String>,
    /// Its size and, where known, its mtime; `None` where it cannot be read.
    pub stat: Option<(u64, Option<u64>)>,
    /// Where it leads to, if it is a symlink that resolves.
    pub symlink_target: Option<String>,
}

/// What was decided about a candidate.
#[derive(Debug)]
pub enum CandidateOutcome {
    Record(ScriptRecord),
    Revision(CheckoutRecord),
    Skip,
}

/// `prefix` without its trailing separators.
pub open spec fn trim_slashes(prefix: Seq<char>) -> Seq<char> {
    text::strip_trailing(prefix, |c: char| c == '/')
}

/// A script's path in the catalog: below the root the prefix takes the place
/// of the root; without a prefix, and outside the root, it is the path itself.
pub open spec fn logical_path(path: Seq<char>, root: Seq<char>, prefix: Seq<char>) -> Seq<char> {
    match paths::text_below(path, root) {
        Some(rest) => if prefix.len() == 0 {
            path
        } else {
            trim_slashes(prefix) + "/"@ + rest
        },
        None => path,
    }
}

/// Build a script's logical catalog path from where it was scanned. A literal
/// backslash in a name is kept.
pub fn make_logical_path(path: &str, root: &str, logical_prefix: &str) -> (r: String)
    ensures
        r@ == logical_path(path@, root@, logical_prefix@),
{
    match relative_to(path, root) {
        Some(relative) => {
            if logical_prefix.is_empty() {
                path.to_owned()
            } else {
                let v: Vec<char> = chars_of(logical_prefix);
                let ghost slash = |c: char| c == '/';
                let mut n: usize = v.len();
                assert(v@.subrange(0, v@.len() as int) =~= v@);
                while n > 0 && v[n - 1] == '/'
                    invariant
                        n <= v@.len(),
                        slash == |c: char| c == '/',
                        text::strip_trailing(v@.subrange(0, n as int), slash)
                            == text::strip_trailing(v@, slash),
                    decreases n,
                {
                    assert(v@.subrange(0, n as int).drop_last() =~= v@.subrange(0, n - 1));
                    n = n - 1;
                }
                let mut r: String = slice_text(&v, 0, n);
                r.append("/");
                r.append(relative.as_str());
                r
            }
        },
        None => path.to_owned(),
    }
}

/// Whether a file whose name parses as `<script>_<timestamp>` is one of the
/// versions kept beside a script, not a script whose name happens to end in
/// digits: the script part has a script extension, or an entry with exactly
/// that name stands beside it.
pub fn is_working_dir_revision(script_ext: &str, sibling_exists: bool) -> (b: bool)
    ensures
        b == (is_script_extension(script_ext@) || sibling_exists),
{
    script_extension(script_ext) || sibling_exists
}

/// The parts of the name of a version that a file may be. A version carries
/// exactly one timestamp: a name whose script part is itself the name of a
/// version is not one.
pub open spec fn version_name(path: Seq<char>) -> Option<vc::CheckoutView> {
    match paths::file_name(path) {
        Some(name) => match vc::checkout_view(name) {
            Some(c) => if vc::checkout_view(c.script_name) is None {
                Some(c)
            } else {
                None
            },
            None => None,
        },
        None => None,
    }
}

/// The parts of the name of a version that a file may be.
pub fn version_name_of(path: &str) -> (name: Option<CheckoutName>)
    ensures
        vc::name_view(name) == version_name(path@),
{
    let Some(name) = file_name_of(path) else {
        return None;
    };
    let Some(parts) = parse_checkout_filename(name.as_str()) else {
        return None;
    };
    if parse_checkout_filename(parts.script_name.as_str()).is_none() {
        Some(parts)
    } else {
        None
    }
}

/// Whether the candidate is a version of a script.
pub open spec fn is_revision(path: Seq<char>, facts: FileFacts) -> bool {
    match version_name(path) {
        Some(c) => is_script_extension(dotted_extension(c.script_name)) || facts.sibling_exists,
        None => false,
    }
}

/// The language of a candidate that is no version; `None` where it is no
/// script. A file without an extension is asked for its shebang.
pub open spec fn candidate_language(path: Seq<char>, facts: FileFacts) -> Option<Seq<char>> {
    let ext = dotted_extension(path);
    if is_script_extension(ext) {
        Some(path_language(path))
    } else if ext.len() == 0 && facts.first_line is Some {
        shebang_of(facts.first_line.unwrap()@)
    } else {
        None
    }
}

/// The age of a file at `now`; none for a file from the future.
pub open spec fn age_at(now: int, mtime: int) -> int {
    if now > mtime {
        now - mtime
    } else {
        0
    }
}

/// Where a scan looks and how it names what it finds.
#[derive(Debug)]
pub struct ScanRoot {
    /// The directory that is scanned.
    pub root: String,
    /// What stands for it in logical paths.
    pub logical_prefix: String,
    /// The operating system that its scripts are for.
    pub os_flavor: String,
    /// The time of the scan, in nanoseconds since the UNIX epoch.
    pub now_nanos: u64,
}

/// Whether `outcome` is what the facts say of the file at `path`.
pub open spec fn is_outcome(
    outcome: CandidateOutcome,
    path: Seq<char>,
    is_symlink: bool,
    scan: ScanRoot,
    facts: FileFacts,
) -> bool {
    if is_revision(path, facts) {
        let c = version_name(path).unwrap();
        outcome matches CandidateOutcome::Revision(r) && {
            &&& r.logical_path@ == logical_path(
                paths::with_file_name(path, c.script_name),
                scan.root@,
                scan.logical_prefix@,
            )
            &&& r.physical_path@ == path
            &&& r.revision_type@ == REVISION_TYPE_WORKING@
            &&& r.os_flavor@ == scan.os_flavor@
            &&& r.user@ == c.user
            &&& r.timestamp@ == c.timestamp
            &&& match (facts.stat, r.age_nanos) {
                (Some((_, Some(mtime))), Some(age)) => age == age_at(
                    scan.now_nanos as int,
                    mtime as int,
                ),
                (Some((_, Some(mtime))), None) => false,
                (_, age) => age is None,
            }
        }
    } else if candidate_language(path, facts) is Some && facts.stat is Some
        && facts.stat.unwrap().0 <= MAX_INDEXABLE_FILE_SIZE_BYTES {
        outcome matches CandidateOutcome::Record(r) && {
            &&& r.logical_path@ == logical_path(path, scan.root@, scan.logical_prefix@)
            &&& r.physical_path@ == path
            &&& r.language@ == candidate_language(path, facts).unwrap()
            &&& r.size == facts.stat.unwrap().0
            &&& r.mtime_nanos == match facts.stat.unwrap().1 {
                Some(mtime) => mtime,
                None => 0,
            }
            &&& ast_deps::option_view(r.symlink_target) == if is_symlink
                && facts.symlink_target is Some {
                Some(
                    logical_path(
                        facts.symlink_target.unwrap()@,
                        scan.root@,
                        scan.logical_prefix@,
                    ),
                )
            } else {
                None
            }
        }
    } else {
        outcome is Skip
    }
}

/// The path of the sibling that must be looked for: where the name of a file
/// is that of a version whose script part has no script extension.
pub open spec fn sibling_path(path: Seq<char>) -> Option<Seq<char>> {
    match version_name(path) {
        Some(c) => if is_script_extension(dotted_extension(c.script_name)) {
            None
        } else {
            Some(paths::with_file_name(path, c.script_name))
        },
        None => None,
    }
}

/// The path of the sibling that must be looked for.
pub fn sibling_to_probe(path: &str) -> (sibling: Option<String>)
    ensures
        ast_deps::option_view(sibling) == sibling_path(path@),
{
    let Some(c) = version_name_of(path) else {
        return None;
    };
    let ext: String = dotted_extension_of(c.script_name.as_str());
    if script_extension(ext.as_str()) {
        None
    } else {
        Some(replace_file_name(path, c.script_name.as_str()))
    }
}

/// Whether the first line of a candidate must be read: only where it has no
/// extension.
pub fn needs_head(path: &str) -> (b: bool)
    ensures
        b == (dotted_extension(path@).len() == 0),
{
    let ext: String = dotted_extension_of(path);
    ext.as_str().is_empty()
}

/// Classify one file from what the file system says of it: a version of a
/// script, a script, or neither.
pub fn process_candidate(path: &str, is_symlink: bool, scan: &ScanRoot, facts: &FileFacts) -> (
    outcome: CandidateOutcome)
    ensures
        is_outcome(outcome, path@, is_symlink, *scan, *facts),
        paths::extension(path@) matches Some(ext) ==> vstd::utf8::is_ascii_chars(ext)
            && !is_revision(path@, *facts) ==> {
            &&& extension_language(text::ascii_lower(ext)) == "unknown"@ ==> outcome is Skip
            &&& extension_language(text::ascii_lower(ext)) != "unknown"@ && (
            facts.stat matches Some(stat) && stat.0 <= MAX_INDEXABLE_FILE_SIZE_BYTES) ==> (
            outcome matches CandidateOutcome::Record(r) && r.language@ == extension_language(
                text::ascii_lower(ext),
            ))
        },
{
    proof {
        match paths::extension(path@) {
            Some(ext) => {
                law_each_extension_has_its_language(text::ascii_lower(ext));
                reveal_strlit(".");
                assert(("."@ + text::ascii_lower(ext)).len() > 0);
            },
            None => {},
        }
    }
    if let Some(checkout) = version_name_of(path) {
        let script_ext: String = dotted_extension_of(checkout.script_name.as_str());
        if is_working_dir_revision(script_ext.as_str(), facts.sibling_exists) {
            let active: String = replace_file_name(path, checkout.script_name.as_str());
            let logical_path: String = make_logical_path(
                active.as_str(),
                scan.root.as_str(),
                scan.logical_prefix.as_str(),
            );
            let age_nanos: Option<u64> = match facts.stat {
                Some((_, Some(mtime))) => Some(scan.now_nanos.saturating_sub(mtime)),
                _ => None,
            };
            return CandidateOutcome::Revision(
                CheckoutRecord {
                    logical_path,
                    physical_path: path.to_owned(),
                    revision_type: REVISION_TYPE_WORKING.to_owned(),
                    os_flavor: scan.os_flavor.clone(),
                    user: checkout.user.clone(),
                    timestamp: checkout.timestamp.clone(),
                    age_nanos,
                },
            );
        }
    }
    let ext: String = dotted_extension_of(path);
    let language: &'static str = if script_extension(ext.as_str()) {
        detect_language(path)
    } else if ext.as_str().is_empty() {
        let Some(line) = &facts.first_line else {
            return CandidateOutcome::Skip;
        };
        match shebang_language(line.as_str()) {
            Some(language) => language,
            None => return CandidateOutcome::Skip,
        }
    } else {
        return CandidateOutcome::Skip;
    };
    let Some((size, mtime)) = facts.stat else {
        return CandidateOutcome::Skip;
    };
    if size > MAX_INDEXABLE_FILE_SIZE_BYTES {
        return CandidateOutcome::Skip;
    }
    let logical_path: String = make_logical_path(
        path,
        scan.root.as_str(),
        scan.logical_prefix.as_str(),
    );
    let mut symlink_target: Option<String> = None;
    if is_symlink {
        if let Some(target) = &facts.symlink_target {
            symlink_target = Some(
                make_logical_path(
                    target.as_str(),
                    scan.root.as_str(),
                    scan.logical_prefix.as_str(),
                ),
            );
        }
    }
    CandidateOutcome::Record(
        ScriptRecord {
            logical_path,
            physical_path: path.to_owned(),
            language: language.to_owned(),
            size,
            mtime_nanos: mtime.unwrap_or(0),
            symlink_target,
        },
    )
}

/// What is not asked for does not matter: the outcome does not depend on a
/// sibling that need not be looked for, nor on a first line that need not be
/// read.
pub proof fn law_outcome_needs_only_what_is_asked(
    outcome: CandidateOutcome,
    path: Seq<char>,
    is_symlink: bool,
    scan: ScanRoot,
    facts: FileFacts,
    other: FileFacts,
)
    requires
        sibling_path(path) is Some ==> other.sibling_exists == facts.sibling_exists,
        dotted_extension(path).len() == 0 ==> other.first_line == facts.first_line,
        other.stat == facts.stat,
        other.symlink_target == facts.symlink_target,
    ensures
        is_outcome(outcome, path, is_symlink, scan, facts) <==> is_outcome(
            outcome,
            path,
            is_symlink,
            scan,
            other,
        ),
{
}

/// A version is never indexed as a script of its own: it is recorded as a
/// revision, under the logical path that the script beside it has or would
/// have.
pub proof fn law_versions_are_revisions_of_their_script(
    version: CandidateOutcome,
    script: CandidateOutcome,
    path: Seq<char>,
    is_symlink: bool,
    script_is_symlink: bool,
    scan: ScanRoot,
    facts: FileFacts,
    script_facts: FileFacts,
)
    requires
        is_revision(path, facts),
        is_outcome(version, path, is_symlink, scan, facts),
        is_outcome(
            script,
            paths::with_file_name(path, version_name(path).unwrap().script_name),
            script_is_symlink,
            scan,
            script_facts,
        ),
    ensures
        version is Revision,
        script matches CandidateOutcome::Record(r) ==> r.logical_path@
            == version->Revision_0.logical_path@,
{
}

// ---------------------------------------------------------------------------
// Walking a tree
// ---------------------------------------------------------------------------

/// Number of candidates that are classified before an interruption is looked
/// for again.
pub const SCAN_PROCESS_BATCH_SIZE: usize = 500;

/// The directories in which version control keeps checkouts, where no others
/// are named.
pub open spec fn default_checkout_dirs() -> Seq<Seq<char>> {
    seq!["DEVELOP"@, "ARCHIVE"@]
}

/// The checkout directories that count: those named, or else the default ones.
pub open spec fn checkout_dirs_of(named: Seq<Seq<char>>) -> Seq<Seq<char>> {
    if named.len() == 0 {
        default_checkout_dirs()
    } else {
        named
    }
}

/// The checkout directories that count.
pub fn effective_checkout_dirs(named: Vec<String>) -> (dirs: Vec<String>)
    ensures
        text::views(dirs@) == checkout_dirs_of(text::views(named@)),
{
    if named.len() == 0 {
        let mut dirs: Vec<String> = Vec::new();
        dirs.push("DEVELOP".to_owned());
        dirs.push("ARCHIVE".to_owned());
        assert(text::views(dirs@) =~= default_checkout_dirs());
        dirs
    } else {
        named
    }
}

/// The ignore files that apply besides those in the scanned directories: the
/// global one, where there is one, and those named. `is_file` tells for each
/// named one whether it is a file; the first that is not is an error.
pub fn get_external_ignore_paths(
    global: &Option<String>,
    ignore_files: &Vec<String>,
    is_file: &Vec<bool>,
) -> (r: Result<Vec<String>, String>)
    requires
        is_file@.len() == ignore_files@.len(),
    ensures
        r is Ok <==> forall|i: int| 0 <= i < is_file@.len() ==> #[trigger] is_file@[i],
        r matches Ok(paths) ==> text::views(paths@) == (match *global {
            Some(path) => seq![path@],
            None => seq![],
        }) + text::views(ignore_files@),
        r matches Err(e) ==> exists|i: int|
            0 <= i < is_file@.len() && !(#[trigger] is_file@[i]) && (forall|j: int|
                0 <= j < i ==> #[trigger] is_file@[j]) && e@ == "ignore file does not exist: "@
                + ignore_files@[i]@,
{
    let ghost first: Seq<Seq<char>> = match global {
        Some(path) => seq![path@],
        None => seq![],
    };
    let ghost named = text::views(ignore_files@);
    let mut paths: Vec<String> = Vec::new();
    if let Some(path) = global {
        paths.push(path.clone());
    }
    let mut i: usize = 0;
    assert(text::views(paths@) =~= first + named.take(0));
    while i < ignore_files.len()
        invariant
            i <= ignore_files@.len(),
            is_file@.len() == ignore_files@.len(),
            named == text::views(ignore_files@),
            forall|j: int| 0 <= j < i ==> #[trigger] is_file@[j],
            text::views(paths@) == first + named.take(i as int),
        decreases ignore_files@.len() - i,
    {
        if !is_file[i] {
            return Err(concat("ignore file does not exist: ", ignore_files[i].as_str()));
        }
        let ghost before = text::views(paths@);
        paths.push(ignore_files[i].clone());
        assert(text::views(paths@) =~= before.push(named[i as int]));
        assert(first + named.take(i + 1) =~= (first + named.take(i as int)).push(named[i as int]));
        i = i + 1;
    }
    assert(named.take(i as int) =~= named);
    Ok(paths)
}

/// The operating system that the scripts below a root are for: the name of
/// the directory that holds the root.
pub fn os_flavor_of(root: &str) -> (flavor: String)
    ensures
        flavor@ == match paths::parent_name(root@) {
            Some(name) => name,
            None => seq![],
        },
{
    match parent_name_of(root) {
        Some(name) => name,
        None => String::new(),
    }
}

/// Whether a walk goes into a directory: not into one that holds checkouts,
/// and not through a symlink that leads outside all roots.
pub fn enters_directory(
    name: &str,
    is_symlink: bool,
    within_roots: bool,
    checkout_dirs: &Vec<String>,
) -> (b: bool)
    ensures
        b == (!text::views(checkout_dirs@).contains(name@) && (is_symlink ==> within_roots)),
{
    !contains_string(checkout_dirs, name) && (!is_symlink || within_roots)
}

/// Whether a resolved path lies at or below one of the resolved roots.
pub fn is_within_roots(canonical: &str, canonical_roots: &Vec<String>) -> (b: bool)
    ensures
        b == exists|i: int|
            0 <= i < canonical_roots@.len() && paths::below(
                canonical@,
                (#[trigger] canonical_roots@[i])@,
            ) is Some,
{
    let mut i: usize = 0;
    while i < canonical_roots.len()
        invariant
            i <= canonical_roots@.len(),
            forall|j: int|
                0 <= j < i ==> paths::below(canonical@, (#[trigger] canonical_roots@[j])@) is None,
        decreases canonical_roots@.len() - i,
    {
        if is_below(canonical, canonical_roots[i].as_str()) {
            return true;
        }
        i = i + 1;
    }
    false
}

/// What a walk meets.
#[derive(Debug)]
pub enum WalkEntry {
    /// Something that could not be read, or whose type is not known.
    Unreadable,
    /// A directory.
    Directory,
    /// Neither a directory nor a regular file.
    Other,
    /// A regular file, perhaps through a symlink.
    File(String, bool),
}

/// A file that is worth a closer look.
#[derive(Debug)]
pub struct ScanCandidate {
    pub path: String,
    pub is_symlink: bool,
}

/// Whether a path is that of an editor's backup.
pub open spec fn is_backup(path: Seq<char>) -> bool {
    match paths::file_name(path) {
        Some(name) => "~"@.is_suffix_of(name),
        None => false,
    }
}

/// Whether an entry is worth a closer look: a regular file that is no editor's
/// backup.
pub open spec fn is_candidate(entry: WalkEntry) -> bool {
    match entry {
        WalkEntry::File(path, _) => !is_backup(path@),
        _ => false,
    }
}

/// Whether an entry is counted as skipped: directories are walked, not
/// skipped.
pub open spec fn is_skipped(entry: WalkEntry) -> bool {
    !is_candidate(entry) && !(entry is Directory)
}

/// The candidates among the first `n` entries.
pub open spec fn candidates_in(entries: Seq<WalkEntry>, n: int) -> Seq<(Seq<char>, bool)>
    decreases n,
{
    if n <= 0 {
        seq![]
    } else {
        match entries[n - 1] {
            WalkEntry::File(path, link) => if is_backup(path@) {
                candidates_in(entries, n - 1)
            } else {
                candidates_in(entries, n - 1).push((path@, link))
            },
            _ => candidates_in(entries, n - 1),
        }
    }
}

/// The number of skipped entries among the first `n`.
pub open spec fn skipped_in(entries: Seq<WalkEntry>, n: int) -> nat
    decreases n,
{
    if n <= 0 {
        0
    } else if is_skipped(entries[n - 1]) {
        skipped_in(entries, n - 1) + 1
    } else {
        skipped_in(entries, n - 1)
    }
}

/// The views of candidates.
pub open spec fn candidate_views(v: Seq<ScanCandidate>) -> Seq<(Seq<char>, bool)> {
    v.map_values(|c: ScanCandidate| (c.path@, c.is_symlink))
}

/// `n`, or the largest count.
pub open spec fn counted(n: int) -> int {
    if n < u64::MAX {
        n
    } else {
        u64::MAX as int
    }
}

/// The scripts among the first `n` outcomes.
pub open spec fn scripts_in(outcomes: Seq<CandidateOutcome>, n: int) -> Seq<ScriptRecord>
    decreases n,
{
    if n <= 0 {
        seq![]
    } else {
        match outcomes[n - 1] {
            CandidateOutcome::Record(r) => scripts_in(outcomes, n - 1).push(r),
            _ => scripts_in(outcomes, n - 1),
        }
    }
}

/// The versions among the first `n` outcomes.
pub open spec fn revisions_in(outcomes: Seq<CandidateOutcome>, n: int) -> Seq<CheckoutRecord>
    decreases n,
{
    if n <= 0 {
        seq![]
    } else {
        match outcomes[n - 1] {
            CandidateOutcome::Revision(r) => revisions_in(outcomes, n - 1).push(r),
            _ => revisions_in(outcomes, n - 1),
        }
    }
}

/// The number of the first `n` outcomes that are neither.
pub open spec fn rejected_in(outcomes: Seq<CandidateOutcome>, n: int) -> nat
    decreases n,
{
    if n <= 0 {
        0
    } else if outcomes[n - 1] is Skip {
        rejected_in(outcomes, n - 1) + 1
    } else {
        rejected_in(outcomes, n - 1)
    }
}

/// The number of directories among the first `n` entries.
pub open spec fn directories_in(entries: Seq<WalkEntry>, n: int) -> nat
    decreases n,
{
    if n <= 0 {
        0
    } else if entries[n - 1] is Directory {
        directories_in(entries, n - 1) + 1
    } else {
        directories_in(entries, n - 1)
    }
}

/// Nothing that a walk meets is lost: each entry is a directory, a candidate,
/// or counted as skipped.
pub proof fn law_every_entry_is_accounted_for(entries: Seq<WalkEntry>, n: int)
    requires
        0 <= n <= entries.len(),
    ensures
        directories_in(entries, n) + candidates_in(entries, n).len() + skipped_in(entries, n) == n,
    decreases n,
{
    if n > 0 {
        law_every_entry_is_accounted_for(entries, n - 1);
    }
}

/// Nothing that is decided is lost: each candidate becomes a script, a
/// version, or is counted as skipped.
pub proof fn law_every_candidate_is_accounted_for(outcomes: Seq<CandidateOutcome>, n: int)
    requires
        0 <= n <= outcomes.len(),
    ensures
        scripts_in(outcomes, n).len() + revisions_in(outcomes, n).len() + rejected_in(outcomes, n)
            == n,
    decreases n,
{
    if n > 0 {
        law_every_candidate_is_accounted_for(outcomes, n - 1);
    }
}

/// Why a scan ended early.
#[derive(Debug, Clone, Copy, PartialEq, Eq, Structural)]
pub enum ScanError {
    /// The scan was told to stop.
    Interrupted,
}

/// What was found so far.
#[derive(Debug)]
pub struct ScanResult {
    /// Active scripts to index.
    pub scripts: Vec<ScriptRecord>,
    /// Versions found beside their scripts.
    pub revisions: Vec<CheckoutRecord>,
}

/// A scan under way.
#[derive(Debug)]
pub struct ScanState {
    pub result: ScanResult,
    /// What of the current root is worth a closer look.
    pub candidates: Vec<ScanCandidate>,
    /// How many entries were skipped.
    pub skipped: u64,
}

impl ScanState {
    /// A scan that has found nothing yet.
    pub fn new() -> (s: ScanState)
        ensures
            s.result.scripts@.len() == 0,
            s.result.revisions@.len() == 0,
            s.candidates@.len() == 0,
            s.skipped == 0,
    {
        ScanState {
            result: ScanResult { scripts: Vec::new(), revisions: Vec::new() },
            candidates: Vec::new(),
            skipped: 0,
        }
    }

    /// Takes in one entry of a walk.
    pub fn take_entry(&mut self, entry: WalkEntry)
        ensures
            final(self).result == old(self).result,
            candidate_views(final(self).candidates@) == candidate_views(old(self).candidates@)
                + candidates_in(seq![entry], 1),
            final(self).skipped == counted(old(self).skipped + skipped_in(seq![entry], 1)),
    {
        let ghost before = candidate_views(self.candidates@);
        let ghost one = seq![entry];
        assert(candidates_in(one, 0) =~= seq![]);
        assert(skipped_in(one, 0) == 0);
        assert(before + seq![] =~= before);
        match entry {
            WalkEntry::Directory => {},
            WalkEntry::File(path, is_symlink) => {
                let backup: bool = match file_name_of(path.as_str()) {
                    Some(name) => has_suffix(name.as_str(), "~"),
                    None => false,
                };
                if backup {
                    self.skipped = self.skipped.saturating_add(1);
                } else {
                    self.candidates.push(ScanCandidate { path, is_symlink });
                    assert(candidate_views(self.candidates@) =~= before + candidates_in(one, 1));
                }
            },
            _ => {
                self.skipped = self.skipped.saturating_add(1);
            },
        }
    }

    /// Takes in what was decided about one candidate.
    pub fn take_outcome(&mut self, outcome: CandidateOutcome)
        ensures
            final(self).candidates == old(self).candidates,
            match outcome {
                CandidateOutcome::Record(r) => final(self).result.scripts@ == old(
                    self,
                ).result.scripts@.push(r) && final(self).result.revisions == old(
                    self,
                ).result.revisions && final(self).skipped == old(self).skipped,
                CandidateOutcome::Revision(r) => final(self).result.revisions@ == old(
                    self,
                ).result.revisions@.push(r) && final(self).result.scripts == old(
                    self,
                ).result.scripts && final(self).skipped == old(self).skipped,
                CandidateOutcome::Skip => final(self).result == old(self).result
                    && final(self).skipped == counted(old(self).skipped + 1),
            },
    {
        match outcome {
            CandidateOutcome::Record(record) => {
                self.result.scripts.push(record);
            },
            CandidateOutcome::Revision(revision) => {
                self.result.revisions.push(revision);
            },
            CandidateOutcome::Skip => {
                self.skipped = self.skipped.saturating_add(1);
            },
        }
    }

    /// Takes in what was decided about a batch of candidates.
    pub fn take_batch(&mut self, outcomes: Vec<CandidateOutcome>)
        ensures
            final(self).candidates == old(self).candidates,
            final(self).result.scripts@ == old(self).result.scripts@ + scripts_in(
                outcomes@,
                outcomes@.len() as int,
            ),
            final(self).result.revisions@ == old(self).result.revisions@ + revisions_in(
                outcomes@,
                outcomes@.len() as int,
            ),
            final(self).skipped == counted(
                old(self).skipped + rejected_in(outcomes@, outcomes@.len() as int),
            ),
    {
        let ghost all = outcomes@;
        let ghost s0 = self.result.scripts@;
        let ghost r0 = self.result.revisions@;
        let ghost k0 = self.skipped;
        let ghost c0 = self.candidates;
        assert(s0 + scripts_in(all, 0) =~= s0);
        assert(r0 + revisions_in(all, 0) =~= r0);
        for outcome in it: outcomes
            invariant
                it.seq() == all,
                self.candidates == c0,
                self.result.scripts@ == s0 + scripts_in(all, it.index()),
                self.result.revisions@ == r0 + revisions_in(all, it.index()),
                self.skipped == counted(k0 + rejected_in(all, it.index())),
        {
            let ghost k = it.index();
            self.take_outcome(outcome);
            proof {
                assert(outcome == all[k]);
                assert(self.result.scripts@ =~= s0 + scripts_in(all, k + 1));
                assert(self.result.revisions@ =~= r0 + revisions_in(all, k + 1));
            }
        }
    }

    /// Hands out what of the current root is worth a closer look, so that the
    /// next root starts with nothing.
    pub fn take_candidates(&mut self) -> (candidates: Vec<ScanCandidate>)
        ensures
            candidates == old(self).candidates,
            final(self).candidates@.len() == 0,
            final(self).result == old(self).result,
            final(self).skipped == old(self).skipped,
    {
        let mut candidates: Vec<ScanCandidate> = Vec::new();
        std::mem::swap(&mut candidates, &mut self.candidates);
        candidates
    }
}

/// Deciding about candidates in batches is the same as deciding about all of
/// them at once: every outcome is counted once, and in order.
pub proof fn law_batches_make_no_difference(a: Seq<CandidateOutcome>, b: Seq<CandidateOutcome>)
    ensures
        ({
            let all = a + b;
            let n = all.len() as int;
            &&& scripts_in(all, n) == scripts_in(a, a.len() as int) + scripts_in(b, b.len() as int)
            &&& revisions_in(all, n) == revisions_in(a, a.len() as int) + revisions_in(
                b,
                b.len() as int,
            )
            &&& rejected_in(all, n) == rejected_in(a, a.len() as int) + rejected_in(
                b,
                b.len() as int,
            )
        }),
{
    lemma_first_outcomes(a, b, a.len() as int);
    lemma_last_outcomes(a, b, b.len() as int);
}

/// The first outcomes of two lists are those of the first list.
proof fn lemma_first_outcomes(a: Seq<CandidateOutcome>, b: Seq<CandidateOutcome>, n: int)
    requires
        0 <= n <= a.len(),
    ensures
        scripts_in(a + b, n) == scripts_in(a, n),
        revisions_in(a + b, n) == revisions_in(a, n),
        rejected_in(a + b, n) == rejected_in(a, n),
    decreases n,
{
    if n > 0 {
        lemma_first_outcomes(a, b, n - 1);
        assert((a + b)[n - 1] == a[n - 1]);
    }
}

/// Behind them stand those of the second list.
proof fn lemma_last_outcomes(a: Seq<CandidateOutcome>, b: Seq<CandidateOutcome>, n: int)
    requires
        0 <= n <= b.len(),
        scripts_in(a + b, a.len() as int) == scripts_in(a, a.len() as int),
        revisions_in(a + b, a.len() as int) == revisions_in(a, a.len() as int),
        rejected_in(a + b, a.len() as int) == rejected_in(a, a.len() as int),
    ensures
        scripts_in(a + b, a.len() + n) == scripts_in(a, a.len() as int) + scripts_in(b, n),
        revisions_in(a + b, a.len() + n) == revisions_in(a, a.len() as int) + revisions_in(b, n),
        rejected_in(a + b, a.len() + n) == rejected_in(a, a.len() as int) + rejected_in(b, n),
    decreases n,
{
    let s = scripts_in(a, a.len() as int);
    let r = revisions_in(a, a.len() as int);
    if n > 0 {
        lemma_last_outcomes(a, b, n - 1);
        assert((a + b)[a.len() + n - 1] == b[n - 1]);
        assert(s + scripts_in(b, n) =~= match b[n - 1] {
            CandidateOutcome::Record(x) => (s + scripts_in(b, n - 1)).push(x),
            _ => s + scripts_in(b, n - 1),
        });
        assert(r + revisions_in(b, n) =~= match b[n - 1] {
            CandidateOutcome::Revision(x) => (r + revisions_in(b, n - 1)).push(x),
            _ => r + revisions_in(b, n - 1),
        });
    } else {
        assert(s + scripts_in(b, 0) =~= s);
        assert(r + revisions_in(b, 0) =~= r);
    }
}

/// Where a scan of several roots stands.
#[derive(Debug, Clone, Copy, PartialEq, Eq, Structural)]
pub enum ScanStage {
    /// The root with this number is walked.
    Walk { root: usize },
    /// The candidates of the root before `from` are decided about.
    Decide { root: usize, from: usize },
    /// The scan was told to stop.
    Interrupted,
    /// All roots are scanned.
    Done,
}

/// What a scan does next.
#[derive(Debug, Clone, Copy, PartialEq, Eq, Structural)]
pub enum ScanAction {
    /// Take in the entry at hand and go on to the next of the walk.
    TakeEntry,
    /// The walk is over; see to its candidates.
    EndWalk,
    /// Decide about the candidates `from..to`, in any order.
    DecideBatch { from: usize, to: usize },
    /// Start the walk of the next root, if there is one.
    NextRoot,
    /// End the scan as interrupted.
    Abort,
    /// End the scan.
    Finish,
}

/// The end of the batch of candidates that starts at `from`.
pub open spec fn decided_to(from: usize, candidates: usize) -> usize {
    if from + SCAN_PROCESS_BATCH_SIZE < candidates {
        (from + SCAN_PROCESS_BATCH_SIZE) as usize
    } else {
        candidates
    }
}

/// What a scan of `roots` roots does next. `entry` tells whether the walk has
/// an entry at hand, `candidates` how many the current root has. A scan can be
/// interrupted at every entry and before every batch.
pub open spec fn scanned_next(
    stage: ScanStage,
    roots: usize,
    entry: bool,
    candidates: usize,
    shutdown: bool,
) -> (ScanAction, ScanStage) {
    match stage {
        ScanStage::Walk { root } => if root >= roots {
            (ScanAction::Finish, ScanStage::Done)
        } else if !entry {
            (ScanAction::EndWalk, ScanStage::Decide { root, from: 0 })
        } else if shutdown {
            (ScanAction::Abort, ScanStage::Interrupted)
        } else {
            (ScanAction::TakeEntry, stage)
        },
        ScanStage::Decide { root, from } => if from >= candidates {
            (ScanAction::NextRoot, ScanStage::Walk { root: (root + 1) as usize })
        } else if shutdown {
            (ScanAction::Abort, ScanStage::Interrupted)
        } else {
            (
                ScanAction::DecideBatch { from, to: decided_to(from, candidates) },
                ScanStage::Decide { root, from: decided_to(from, candidates) },
            )
        },
        ScanStage::Interrupted => (ScanAction::Abort, stage),
        ScanStage::Done => (ScanAction::Finish, stage),
    }
}

/// What a scan does next, and where it stands then.
pub fn scan_step(
    stage: ScanStage,
    roots: usize,
    entry: bool,
    candidates: usize,
    shutdown: bool,
) -> (r: (ScanAction, ScanStage))
    requires
        stage matches ScanStage::Decide { root, .. } ==> root < roots,
    ensures
        r == scanned_next(stage, roots, entry, candidates, shutdown),
        r.1 matches ScanStage::Decide { root, .. } ==> root < roots,
{
    match stage {
        ScanStage::Walk { root } => if root >= roots {
            (ScanAction::Finish, ScanStage::Done)
        } else if !entry {
            (ScanAction::EndWalk, ScanStage::Decide { root, from: 0 })
        } else if shutdown {
            (ScanAction::Abort, ScanStage::Interrupted)
        } else {
            (ScanAction::TakeEntry, stage)
        },
        ScanStage::Decide { root, from } => if from >= candidates {
            (ScanAction::NextRoot, ScanStage::Walk { root: root + 1 })
        } else if shutdown {
            (ScanAction::Abort, ScanStage::Interrupted)
        } else {
            let to: usize = if candidates - from > SCAN_PROCESS_BATCH_SIZE {
                from + SCAN_PROCESS_BATCH_SIZE
            } else {
                candidates
            };
            (ScanAction::DecideBatch { from, to }, ScanStage::Decide { root, from: to })
        },
        ScanStage::Interrupted => (ScanAction::Abort, stage),
        ScanStage::Done => (ScanAction::Finish, stage),
    }
}

// ---------------------------------------------------------------------------
// Change detection
// ---------------------------------------------------------------------------

/// What a walk for the newest file meets: a file with its mtime, in
/// nanoseconds since the UNIX epoch, or anything else.
#[derive(Debug, Clone, Copy, PartialEq, Eq, Structural)]
pub enum MtimeEntry {
    File(u64),
    Other,
}

/// The newest mtime among the first `n` entries.
pub open spec fn newest(entries: Seq<MtimeEntry>, n: int) -> Option<u64>
    decreases n,
{
    if n <= 0 {
        None
    } else {
        newer(newest(entries, n - 1), entries[n - 1])
    }
}

/// The newest mtime after one more entry.
pub open spec fn newer(known: Option<u64>, entry: MtimeEntry) -> Option<u64> {
    match (known, entry) {
        (known, MtimeEntry::Other) => known,
        (Some(k), MtimeEntry::File(m)) => if k < m {
            Some(m)
        } else {
            Some(k)
        },
        (None, MtimeEntry::File(m)) => Some(m),
    }
}

/// The newest mtime after one more entry, unless the walk is told to stop.
pub fn take_mtime(known: Option<u64>, entry: MtimeEntry, shutdown: bool) -> (r: Result<
    Option<u64>,
    ScanError,
>)
    ensures
        shutdown ==> r == Err::<Option<u64>, ScanError>(ScanError::Interrupted),
        !shutdown ==> r == Ok::<Option<u64>, ScanError>(newer(known, entry)),
{
    if shutdown {
        return Err(ScanError::Interrupted);
    }
    match entry {
        MtimeEntry::Other => Ok(known),
        MtimeEntry::File(m) => match known {
            Some(k) => Ok(
                Some(
                    if k < m {
                        m
                    } else {
                        k
                    },
                ),
            ),
            None => Ok(Some(m)),
        },
    }
}

/// The newest file mtime among what was walked, or `None` if there is no file.
pub fn max_mtime(entries: &Vec<MtimeEntry>) -> (r: Option<u64>)
    ensures
        r == newest(entries@, entries@.len() as int),
{
    let mut known: Option<u64> = None;
    let mut i: usize = 0;
    while i < entries.len()
        invariant
            i <= entries@.len(),
            known == newest(entries@, i as int),
        decreases entries@.len() - i,
    {
        if let Ok(m) = take_mtime(known, entries[i], false) {
            known = m;
        }
        i = i + 1;
    }
    known
}

/// The newest mtime is that of a file, and no file is newer; there is none
/// exactly where there is no file.
pub proof fn law_newest_is_the_maximum(entries: Seq<MtimeEntry>, n: int)
    requires
        0 <= n <= entries.len(),
    ensures
        match newest(entries, n) {
            Some(m) => {
                &&& exists|i: int| 0 <= i < n && #[trigger] entries[i] == MtimeEntry::File(m)
                &&& forall|i: int|
                    0 <= i < n ==> (#[trigger] entries[i] matches MtimeEntry::File(k) ==> k <= m)
            },
            None => forall|i: int| 0 <= i < n ==> #[trigger] entries[i] is Other,
        },
    decreases n,
{
    if n > 0 {
        law_newest_is_the_maximum(entries, n - 1);
        assert(entries[n - 1] is File || entries[n - 1] is Other);
    }
}

// ---------------------------------------------------------------------------
// Which file is what
// ---------------------------------------------------------------------------

/// The names of languages are different ones.
proof fn lemma_languages()
    ensures
        "python"@ != "shell"@,
        "python"@ != "yaml"@,
        "python"@ != "csv"@,
        "python"@ != "json"@,
        "python"@ != "unknown"@,
        "shell"@ != "yaml"@,
        "shell"@ != "csv"@,
        "shell"@ != "json"@,
        "shell"@ != "unknown"@,
        "yaml"@ != "csv"@,
        "yaml"@ != "json"@,
        "yaml"@ != "unknown"@,
        "csv"@ != "json"@,
        "csv"@ != "unknown"@,
        "json"@ != "unknown"@,
{
    reveal_strlit("python");
    reveal_strlit("shell");
    reveal_strlit("yaml");
    reveal_strlit("csv");
    reveal_strlit("json");
    reveal_strlit("unknown");
    assert("python"@.len() == 6);
    assert("shell"@.len() == 5);
    assert("yaml"@.len() == 4 && "yaml"@[0] == 'y');
    assert("csv"@.len() == 3);
    assert("json"@.len() == 4 && "json"@[0] == 'j');
    assert("unknown"@.len() == 7);
}

/// The names of the interpreters of the two languages are different ones.
proof fn lemma_interpreters(name: Seq<char>)
    ensures
        !((name == "sh"@ || name == "bash"@ || name == "ksh"@ || name == "ksh93"@) && (name
            == "python"@ || name == "python2"@ || name == "python3"@)),
{
    reveal_strlit("sh");
    reveal_strlit("bash");
    reveal_strlit("ksh");
    reveal_strlit("ksh93");
    reveal_strlit("python");
    reveal_strlit("python2");
    reveal_strlit("python3");
    assert("sh"@.len() == 2);
    assert("bash"@.len() == 4);
    assert("ksh"@.len() == 3);
    assert("ksh93"@.len() == 5);
    assert("python"@.len() == 6);
    assert("python2"@.len() == 7);
    assert("python3"@.len() == 7);
}

/// A file is a Python script whose shebang calls `python`, `python2` or
/// `python3`, and a shell script whose shebang calls `sh`, `bash`, `ksh` or
/// `ksh93`: directly or through `env`. No other interpreter makes a script.
pub proof fn law_each_interpreter_has_its_language(name: Seq<char>, line: Seq<char>)
    requires
        name.len() > 0,
        !name.contains('/'),
        forall|i: int| 0 <= i < name.len() ==> !text::is_white(#[trigger] name[i]),
        line == "#!/bin/"@ + name || line == "#! /bin/"@ + name || line == "#!/usr/bin/env "@
            + name,
    ensures
        shebang_of(line) == Some("python"@) <==> name == "python"@ || name == "python2"@ || name
            == "python3"@,
        shebang_of(line) == Some("shell"@) <==> name == "sh"@ || name == "bash"@ || name == "ksh"@
            || name == "ksh93"@,
        shebang_of(line) matches Some(language) ==> language == "python"@ || language == "shell"@,
{
    law_shebang_forms_agree(name, line);
    lemma_languages();
    lemma_interpreters(name);
}

/// The extensions of scripts are different ones.
proof fn lemma_extensions()
    ensures
        "py"@ != "sh"@,
        "py"@ != "bash"@,
        "py"@ != "ksh"@,
        "py"@ != "yml"@,
        "py"@ != "yaml"@,
        "py"@ != "csv"@,
        "py"@ != "json"@,
        "sh"@ != "yml"@,
        "sh"@ != "yaml"@,
        "sh"@ != "csv"@,
        "sh"@ != "json"@,
        "bash"@ != "yml"@,
        "bash"@ != "yaml"@,
        "bash"@ != "csv"@,
        "bash"@ != "json"@,
        "ksh"@ != "yml"@,
        "ksh"@ != "yaml"@,
        "ksh"@ != "csv"@,
        "ksh"@ != "json"@,
        "yml"@ != "csv"@,
        "yml"@ != "json"@,
        "yaml"@ != "csv"@,
        "yaml"@ != "json"@,
        "csv"@ != "json"@,
{
    reveal_strlit("py");
    reveal_strlit("sh");
    reveal_strlit("bash");
    reveal_strlit("ksh");
    reveal_strlit("yml");
    reveal_strlit("yaml");
    reveal_strlit("csv");
    reveal_strlit("json");
    assert("py"@.len() == 2 && "py"@[0] == 'p');
    assert("sh"@.len() == 2 && "sh"@[0] == 's');
    assert("bash"@.len() == 4 && "bash"@[0] == 'b');
    assert("ksh"@.len() == 3 && "ksh"@[0] == 'k');
    assert("yml"@.len() == 3 && "yml"@[0] == 'y');
    assert("yaml"@.len() == 4 && "yaml"@[0] == 'y');
    assert("csv"@.len() == 3 && "csv"@[0] == 'c');
    assert("json"@.len() == 4 && "json"@[0] == 'j');
}

/// An extension with its dot, letter by letter.
proof fn lemma_dotted(ext: Seq<char>, plain: Seq<char>, dotted: Seq<char>)
    requires
        dotted == "."@ + plain,
    ensures
        "."@ + ext == dotted <==> ext == plain,
{
    reveal_strlit(".");
    assert(("."@ + ext).skip(1) =~= ext);
    assert(("."@ + plain).skip(1) =~= plain);
}

/// Which language an extension stands for, and that exactly the extensions of
/// a known language are those of scripts.
pub proof fn law_each_extension_has_its_language(ext: Seq<char>)
    ensures
        extension_language(ext) == "python"@ <==> ext == "py"@,
        extension_language(ext) == "shell"@ <==> ext == "sh"@ || ext == "bash"@ || ext == "ksh"@,
        extension_language(ext) == "yaml"@ <==> ext == "yml"@ || ext == "yaml"@,
        extension_language(ext) == "csv"@ <==> ext == "csv"@,
        extension_language(ext) == "json"@ <==> ext == "json"@,
        is_script_extension("."@ + ext) <==> extension_language(ext) != "unknown"@,
{
    lemma_languages();
    lemma_extensions();
    reveal_strlit(".");
    reveal_strlit("py");
    reveal_strlit("sh");
    reveal_strlit("bash");
    reveal_strlit("ksh");
    reveal_strlit("yml");
    reveal_strlit("yaml");
    reveal_strlit("csv");
    reveal_strlit("json");
    reveal_strlit(".py");
    reveal_strlit(".sh");
    reveal_strlit(".bash");
    reveal_strlit(".ksh");
    reveal_strlit(".yml");
    reveal_strlit(".yaml");
    reveal_strlit(".csv");
    reveal_strlit(".json");
    assert(".py"@ =~= "."@ + "py"@);
    assert(".sh"@ =~= "."@ + "sh"@);
    assert(".bash"@ =~= "."@ + "bash"@);
    assert(".ksh"@ =~= "."@ + "ksh"@);
    assert(".yml"@ =~= "."@ + "yml"@);
    assert(".yaml"@ =~= "."@ + "yaml"@);
    assert(".csv"@ =~= "."@ + "csv"@);
    assert(".json"@ =~= "."@ + "json"@);
    lemma_dotted(ext, "py"@, ".py"@);
    lemma_dotted(ext, "sh"@, ".sh"@);
    lemma_dotted(ext, "bash"@, ".bash"@);
    lemma_dotted(ext, "ksh"@, ".ksh"@);
    lemma_dotted(ext, "yml"@, ".yml"@);
    lemma_dotted(ext, "yaml"@, ".yaml"@);
    lemma_dotted(ext, "csv"@, ".csv"@);
    lemma_dotted(ext, "json"@, ".json"@);
}

/// The logical path of a file below a root is the prefix, without the
/// separators at its end, and the path below the root. Without a prefix, and
/// outside the root, it is the path itself.
pub proof fn law_the_prefix_takes_the_place_of_the_root(
    root: Seq<char>,
    names: Seq<Seq<char>>,
    prefix: Seq<char>,
    path: Seq<char>,
)
    requires
        paths::ends_in_part(root),
        names.len() > 0,
        forall|i: int| 0 <= i < names.len() ==> paths::is_plain_part(#[trigger] names[i]),
        prefix.len() > 0,
    ensures
        ({
            let rest = text::join(names, "/"@);
            &&& prefix.last() != '/' ==> logical_path(root + "/"@ + rest, root, prefix) == prefix
                + "/"@ + rest
            &&& logical_path(root + "/"@ + rest, root, prefix + "/"@) == logical_path(
                root + "/"@ + rest,
                root,
                prefix,
            )
            &&& logical_path(root + "/"@ + rest, root, seq![]) == root + "/"@ + rest
            &&& paths::below(path, root) is None ==> logical_path(path, root, prefix) == path
        }),
{
    reveal_strlit("/");
    paths::law_what_follows_a_root_is_below_it(root, names);
    let longer = prefix + "/"@;
    assert(longer.drop_last() =~= prefix);
    let slash = |c: char| c == '/';
    assert(slash(longer.last()));
    assert(text::strip_trailing(longer, slash) == text::strip_trailing(prefix, slash));
}

/// A file with the extension of a script that is no version, that can be read
/// and is not larger than eight mebibytes, is a script, and a larger one is
/// not. A file with another extension is not one either.
pub proof fn law_scripts_are_known_by_their_extension(
    outcome: CandidateOutcome,
    path: Seq<char>,
    is_symlink: bool,
    scan: ScanRoot,
    facts: FileFacts,
    ext: Seq<char>,
)
    requires
        is_outcome(outcome, path, is_symlink, scan, facts),
        paths::extension(path) == Some(ext),
        version_name(path) is None,
    ensures
        ({
            let language = extension_language(patterns::unicode_lower(ext));
            &&& language == "unknown"@ ==> outcome is Skip
            &&& facts.stat is None ==> outcome is Skip
            &&& facts.stat matches Some(stat) ==> stat.0 > 8 * 1024 * 1024 ==> outcome is Skip
            &&& facts.stat matches Some(stat) ==> language != "unknown"@ && stat.0 <= 8 * 1024 * 1024
                ==> (outcome matches CandidateOutcome::Record(r) && r.language@ == language
                && r.physical_path@ == path && r.size == stat.0 && r.logical_path@ == logical_path(
                path,
                scan.root@,
                scan.logical_prefix@,
            ))
        }),
{
    law_each_extension_has_its_language(patterns::unicode_lower(ext));
    reveal_strlit(".");
    assert(("."@ + patterns::unicode_lower(ext)).len() > 0);
}

/// A file without an extension that is no version is a script exactly where
/// its shebang asks for a known language, and it can be read and is not larger
/// than eight mebibytes.
pub proof fn law_scripts_without_extension_are_known_by_their_shebang(
    outcome: CandidateOutcome,
    path: Seq<char>,
    is_symlink: bool,
    scan: ScanRoot,
    facts: FileFacts,
)
    requires
        is_outcome(outcome, path, is_symlink, scan, facts),
        paths::extension(path) is None,
        version_name(path) is None,
    ensures
        ({
            let language = match facts.first_line {
                Some(line) => shebang_of(line@),
                None => None,
            };
            &&& language is None || facts.stat is None ==> outcome is Skip
            &&& facts.stat matches Some(stat) ==> stat.0 > 8 * 1024 * 1024 ==> outcome is Skip
            &&& facts.stat matches Some(stat) ==> language is Some && stat.0 <= 8 * 1024 * 1024 ==> (
            outcome matches CandidateOutcome::Record(r) && r.language@ == language.unwrap()
                && r.physical_path@ == path)
        }),
{
    reveal_strlit(".py");
    reveal_strlit(".sh");
    reveal_strlit(".bash");
    reveal_strlit(".ksh");
    reveal_strlit(".yml");
    reveal_strlit(".yaml");
    reveal_strlit(".csv");
    reveal_strlit(".json");
    assert(!is_script_extension(seq![])) by {
        assert(".py"@.len() > 0 && ".sh"@.len() > 0 && ".bash"@.len() > 0 && ".ksh"@.len() > 0);
        assert(".yml"@.len() > 0 && ".yaml"@.len() > 0 && ".csv"@.len() > 0 && ".json"@.len() > 0);
    }
}

/// A file beside a script whose name is that script's and a timestamp is a
/// version of it, recorded under its logical path with the user and the
/// timestamp in the name.
pub proof fn law_dated_files_are_versions(
    outcome: CandidateOutcome,
    dir: Seq<char>,
    stem: Seq<char>,
    ext: Seq<char>,
    date: Seq<char>,
    time: Seq<char>,
    is_symlink: bool,
    scan: ScanRoot,
    facts: FileFacts,
)
    requires
        paths::ends_in_part(dir),
        stem.len() > 0,
        ext.len() > 0,
        !stem.contains('_'),
        !stem.contains('/'),
        !ext.contains('_'),
        !ext.contains('/'),
        !ext.contains('.'),
        date.len() == 8,
        time.len() == 4 || time.len() == 6,
        forall|i: int| 0 <= i < date.len() ==> '0' <= #[trigger] date[i] <= '9',
        forall|i: int| 0 <= i < time.len() ==> '0' <= #[trigger] time[i] <= '9',
        is_outcome(
            outcome,
            dir + "/"@ + (stem + "."@ + ext + "_"@ + date + "_"@ + time),
            is_symlink,
            scan,
            facts,
        ),
        extension_language(patterns::unicode_lower(ext)) != "unknown"@ || facts.sibling_exists,
    ensures
        outcome matches CandidateOutcome::Revision(r) && {
            &&& r.logical_path@ == logical_path(
                dir + "/"@ + (stem + "."@ + ext),
                scan.root@,
                scan.logical_prefix@,
            )
            &&& r.timestamp@ == date + "_"@ + time
            &&& r.user@.len() == 0
            &&& r.revision_type@ == "WORKING"@
            &&& r.os_flavor@ == scan.os_flavor@
        },
{
    reveal_strlit("_");
    reveal_strlit(".");
    reveal_strlit("..");
    reveal_strlit("/");
    let script = stem + "."@ + ext;
    let name = script + "_"@ + date + "_"@ + time;
    let path = dir + "/"@ + name;
    vc::law_versions_are_named_after_their_script(script, date, time, seq!['x']);
    assert(!script.contains('_')) by {
        assert forall|i: int| 0 <= i < script.len() implies script[i] != '_' by {
            if i < stem.len() {
                assert(stem.contains(stem[i]));
            } else if i > stem.len() {
                assert(ext.contains(ext[i - stem.len() - 1]));
            }
        }
    }
    assert(!script.contains('/')) by {
        assert forall|i: int| 0 <= i < script.len() implies script[i] != '/' by {
            if i < stem.len() {
                assert(stem.contains(stem[i]));
            } else if i > stem.len() {
                assert(ext.contains(ext[i - stem.len() - 1]));
            }
        }
    }
    assert(!name.contains('/')) by {
        assert forall|i: int| 0 <= i < name.len() implies name[i] != '/' by {
            let m = script.len() as int;
            if i < m {
                assert(script.contains(script[i]));
            } else if m < i < m + 9 {
                assert(name[i] == date[i - m - 1]);
            } else if i > m + 9 {
                assert(name[i] == time[i - m - 10]);
            }
        }
    }
    assert(name.len() > 2);
    paths::law_an_entry_is_named_last(dir, name, seq![], seq![]);
    paths::law_a_sibling_stands_in_the_same_directory(dir, name, script);
    // The name of the script is not that of a version.
    text::lemma_split_join(seq![script], '_');
    assert(text::join(seq![script], seq!['_']) == script);
    assert(vc::checkout_view(script) is None);
    // Its extension is that of a script.
    assert(!script.contains('/'));
    lemma_extension_of_name(stem, ext);
    law_each_extension_has_its_language(patterns::unicode_lower(ext));
    assert(vc::checkout_view(name).unwrap().script_name == script);
    assert(version_name(path) == vc::checkout_view(name));
    assert(dotted_extension(script) == "."@ + patterns::unicode_lower(ext));
    assert(is_revision(path, facts));
}

/// The extension of a bare file name.
proof fn lemma_extension_of_name(stem: Seq<char>, ext: Seq<char>)
    requires
        stem.len() > 0,
        !stem.contains('/'),
        !ext.contains('/'),
        !ext.contains('.'),
        !(stem + "."@ + ext).contains('/'),
    ensures
        paths::extension(stem + "."@ + ext) == if stem == "."@ && ext.len() == 0 {
            None
        } else {
            Some(ext)
        },
{
    reveal_strlit(".");
    reveal_strlit("..");
    let name = stem + "."@ + ext;
    text::lemma_split_join(seq![name], '/');
    assert(text::join(seq![name], seq!['/']) == name);
    let single = seq![name];
    assert(paths::is_part(single, 0));
    assert(paths::parts_in(single, 0) =~= seq![]);
    assert(paths::path_parts(name) =~= seq![name]);
    assert(name.len() >= 2);
    if name == ".."@ {
        assert(stem =~= "."@);
        assert(ext.len() == 0);
    } else {
        assert(name != "."@);
        assert forall|j: int| stem.len() < j < name.len() implies name[j] != '.' by {
            assert(name[j] == ext[j - stem.len() - 1]);
            if name[j] == '.' {
                assert(ext.contains('.'));
            }
        }
        text::lemma_rfind_char_is(name, '.', stem.len() as int);
        assert(name.skip(stem.len() as int + 1) =~= ext);
        if stem == "."@ && ext.len() == 0 {
            assert(name =~= ".."@);
        }
    }
}

/// Whether an entry is the regular file with the given path.
pub open spec fn is_file(entry: WalkEntry, path: Seq<char>, link: bool) -> bool {
    match entry {
        WalkEntry::File(p, l) => p@ == path && l == link,
        _ => false,
    }
}

/// The candidates are exactly the regular files whose names do not end in `~`,
/// in the order in which the walk meets them.
pub proof fn law_backups_are_no_candidates(
    entries: Seq<WalkEntry>,
    n: int,
    dir: Seq<char>,
    name: Seq<char>,
    link: bool,
)
    requires
        0 <= n <= entries.len(),
        paths::is_plain_part(name),
        name != ".."@,
    ensures
        candidates_in(entries, n).contains((dir + "/"@ + name, link)) <==> name.last() != '~'
            && exists|i: int|
            0 <= i < n && is_file(#[trigger] entries[i], dir + "/"@ + name, link),
    decreases n,
{
    reveal_strlit("~");
    let path = dir + "/"@ + name;
    paths::law_an_entry_is_named_last(dir, name, seq![], seq![]);
    assert(is_backup(path) <==> name.last() == '~') by {
        if name.last() == '~' {
            assert(name.skip(name.len() - 1) =~= "~"@);
        }
        if "~"@.is_suffix_of(name) {
            assert(name.skip(name.len() - 1)[0] == '~');
        }
    }
    if n > 0 {
        law_backups_are_no_candidates(entries, n - 1, dir, name, link);
        let before = candidates_in(entries, n - 1);
        match entries[n - 1] {
            WalkEntry::File(p, l) => {
                text::lemma_push_contains(before, (p@, l), (path, link));
            },
            _ => {},
        }
    }
}

/// Of one outcome comes one script, one version or one more that is skipped.
pub proof fn law_each_outcome_is_taken_for_what_it_is(outcome: CandidateOutcome)
    ensures
        match outcome {
            CandidateOutcome::Record(r) => scripts_in(seq![outcome], 1) == seq![r]
                && revisions_in(seq![outcome], 1).len() == 0,
            CandidateOutcome::Revision(r) => revisions_in(seq![outcome], 1) == seq![r]
                && scripts_in(seq![outcome], 1).len() == 0,
            CandidateOutcome::Skip => rejected_in(seq![outcome], 1) == 1,
        },
{
    let one = seq![outcome];
    assert(scripts_in(one, 0) =~= seq![]);
    assert(revisions_in(one, 0) =~= seq![]);
    assert(rejected_in(one, 0) == 0);
}

/// A scan decides about all candidates of a root, in batches that follow each
/// other, before it goes on to the next root, and ends only when all roots are
/// scanned or it is told to stop.
pub proof fn law_a_scan_leaves_no_candidate_out(
    stage: ScanStage,
    roots: usize,
    entry: bool,
    candidates: usize,
    shutdown: bool,
)
    requires
        stage matches ScanStage::Decide { root, .. } ==> root < roots,
    ensures
        ({
            let (action, next) = scanned_next(stage, roots, entry, candidates, shutdown);
            &&& action matches ScanAction::DecideBatch { from, to } ==> !shutdown && (
            stage matches ScanStage::Decide { root, from: start } && start == from && from < to
                <= candidates && next == (ScanStage::Decide { root, from: to }))
            &&& action is NextRoot ==> (stage matches ScanStage::Decide { root, from } && from
                >= candidates && next == (ScanStage::Walk { root: (root + 1) as usize }))
            &&& action is EndWalk ==> (stage matches ScanStage::Walk { root } && root < roots
                && !entry && next == (ScanStage::Decide { root, from: 0 }))
            &&& action is TakeEntry ==> entry && !shutdown && next == stage
            &&& action is Finish ==> stage is Done || (stage matches ScanStage::Walk { root }
                && root >= roots)
            &&& action is Abort <==> stage is Interrupted || shutdown && (match stage {
                ScanStage::Walk { root } => root < roots && entry,
                ScanStage::Decide { root, from } => from < candidates,
                _ => false,
            })
            &&& next is Done <==> action is Finish
            &&& next is Interrupted <==> action is Abort
        }),
{
}

/// Where no directories of checkouts are named, they are those called
/// `DEVELOP` and `ARCHIVE`; those that are named take their place.
pub proof fn law_named_checkout_directories_take_the_place_of_the_usual_ones(
    named: Seq<Seq<char>>,
    name: Seq<char>,
)
    ensures
        named.len() > 0 ==> checkout_dirs_of(named) == named,
        checkout_dirs_of(seq![]).contains(name) <==> name == "DEVELOP"@ || name == "ARCHIVE"@,
{
    let usual = checkout_dirs_of(seq![]);
    assert(usual[0] == "DEVELOP"@);
    assert(usual[1] == "ARCHIVE"@);
}

/// The record of a script holds the size and the mtime of its file, and what a
/// link leads to, told as logical paths are; only a link leads anywhere.
pub proof fn law_records_hold_what_the_file_is(
    r: ScriptRecord,
    path: Seq<char>,
    is_symlink: bool,
    scan: ScanRoot,
    facts: FileFacts,
)
    requires
        is_outcome(CandidateOutcome::Record(r), path, is_symlink, scan, facts),
    ensures
        facts.stat matches Some((size, mtime)) && r.size == size && r.mtime_nanos == (
        if mtime is Some {
            mtime.unwrap()
        } else {
            0
        }),
        r.physical_path@ == path,
        !is_symlink ==> r.symlink_target is None,
        is_symlink && facts.symlink_target is None ==> r.symlink_target is None,
        is_symlink && facts.symlink_target is Some ==> r.symlink_target is Some
            && r.symlink_target.unwrap()@ == logical_path(
            facts.symlink_target.unwrap()@,
            scan.root@,
            scan.logical_prefix@,
        ),
{
}

/// The age of a version is the time that passed since its file was last
/// changed, and none where that lies ahead.
pub proof fn law_a_version_is_as_old_as_its_file(
    r: CheckoutRecord,
    path: Seq<char>,
    is_symlink: bool,
    scan: ScanRoot,
    facts: FileFacts,
    size: u64,
    mtime: u64,
)
    requires
        is_outcome(CandidateOutcome::Revision(r), path, is_symlink, scan, facts),
        facts.stat == Some((size, Some(mtime))),
    ensures
        r.age_nanos is Some,
        scan.now_nanos >= mtime ==> mtime + r.age_nanos.unwrap() == scan.now_nanos,
        scan.now_nanos < mtime ==> r.age_nanos.unwrap() == 0,
{
}

/// A name that is dated twice is that of no version.
pub proof fn law_versions_are_dated_once(
    path: Seq<char>,
    name: Seq<char>,
    once: vc::CheckoutView,
    twice: vc::CheckoutView,
)
    requires
        paths::file_name(path) == Some(name),
        vc::checkout_view(name) == Some(once),
    ensures
        vc::checkout_view(once.script_name) == Some(twice) ==> version_name(path) is None,
        vc::checkout_view(once.script_name) is None ==> version_name(path) == Some(once),
{
}

/// Whether a dated file is a version of a script without a known extension
/// depends on the script beside it, which is the one that is looked for.
pub proof fn law_a_version_has_its_script_beside_it(
    dir: Seq<char>,
    name: Seq<char>,
    c: vc::CheckoutView,
    facts: FileFacts,
)
    requires
        version_name(paths::with_file_name(dir, name)) == Some(c),
    ensures
        ({
            let path = paths::with_file_name(dir, name);
            let known = is_script_extension(dotted_extension(c.script_name));
            &&& known ==> sibling_path(path) is None && is_revision(path, facts)
            &&& !known ==> sibling_path(path) == Some(paths::with_file_name(path, c.script_name))
            &&& !known ==> (is_revision(path, facts) <==> facts.sibling_exists)
        }),
{
}

/// A scan that is to stop takes no further entry and decides on no further
/// file, and it does not go on.
pub proof fn law_a_scan_stops_when_told(
    stage: ScanStage,
    roots: usize,
    entry: bool,
    candidates: usize,
    shutdown: bool,
)
    ensures
        ({
            let (action, next) = scanned_next(stage, roots, entry, candidates, true);
            &&& !(action is TakeEntry)
            &&& !(action is DecideBatch)
            &&& action is Abort ==> next == ScanStage::Interrupted
        }),
        scanned_next(ScanStage::Interrupted, roots, entry, candidates, shutdown) == (
            ScanAction::Abort,
            ScanStage::Interrupted,
        ),
        !(stage is Interrupted) ==> !(scanned_next(stage, roots, entry, candidates, false).0 is Abort),
{
}

} // verus!
