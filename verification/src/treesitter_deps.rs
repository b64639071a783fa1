//! Dependencies of scripts: what a shell script sources, what an Ansible file
//! refers to, and the script paths that any file mentions.

use vstd::prelude::*;
use vstd::utf8::*;

use crate::ast_deps;
use crate::ast_deps::{extract_python_deps_with_module, python_deps_of_tree, AstDependencies};
use crate::patterns;
use crate::patterns::{captures_all, find_each, lowercase, Groups};
use crate::syntax;
use crate::syntax::{parse, Grammar, SyntaxTree};
use crate::text;
use crate::text::{
    chars_of, has_char, push_all, push_unique, replaced, rfind_before, same_text, slice_bytes, slice_text, split_text, strip_marks_of, trimmed,
};
use crate::walk;

verus! {

// ---------------------------------------------------------------------------
// Languages
// ---------------------------------------------------------------------------

/// The grammar key of a language name in lower case.
pub open spec fn lang_key(lower: Seq<char>) -> Seq<char> {
    if lower == "shell"@ {
        "bash"@
    } else if lower == "python"@ {
        "python"@
    } else if lower == "json"@ {
        "json"@
    } else if lower == "yaml"@ {
        "yaml"@
    } else {
        "unknown"@
    }
}

/// The grammar key of a language name in lower case.
pub fn lang_key_of(lower: &str) -> (key: &'static str)
    ensures
        key@ == lang_key(lower@),
{
    if same_text(lower, "shell") {
        "bash"
    } else if same_text(lower, "python") {
        "python"
    } else if same_text(lower, "json") {
        "json"
    } else if same_text(lower, "yaml") {
        "yaml"
    } else {
        "unknown"
    }
}

/// Map a language name, in any case, to the grammar key that identifies it.
pub fn normalise_lang(language: &str) -> (key: &'static str)
    ensures
        key@ == lang_key(patterns::unicode_lower(language@)),
        language.is_ascii() ==> key@ == lang_key(text::ascii_lower(language@)),
{
    let lower: String = lowercase(language);
    lang_key_of(lower.as_str())
}

// ---------------------------------------------------------------------------
// Script paths mentioned anywhere
// ---------------------------------------------------------------------------

/// Tokens that look like the path of a script.
pub const REFERENCE_PATH_PATTERN: &'static str = r"[\w./\\-]+\.(?:py|sh|bash|ksh|ya?ml)\b";

/// Whether the byte after a match continues the same file name, so that its
/// real extension is another one.
pub open spec fn continues_name(bytes: Seq<u8>, end: int) -> bool {
    0 <= end < bytes.len() && (bytes[end] == 46u8 || bytes[end] == 126u8 || bytes[end] == 45u8)
}

/// The path that a match at the given offsets mentions, if it is one: with
/// forward slashes, of which it has at least one.
pub open spec fn reference_at(content: Seq<char>, span: (usize, usize)) -> Option<Seq<char>> {
    let bytes = encode_utf8(content);
    let raw = text::byte_slice(content, span.0 as int, span.1 as int);
    let path = text::replace_char(raw, '\\', '/');
    if continues_name(bytes, span.1 as int) || !path.contains('/') {
        None
    } else {
        Some(path)
    }
}

/// The paths that the first `n` matches mention, each once.
pub open spec fn references_in(content: Seq<char>, spans: Seq<(usize, usize)>, n: int) -> Seq<
    Seq<char>,
>
    decreases n,
{
    if n <= 0 {
        seq![]
    } else {
        let before = references_in(content, spans, n - 1);
        match reference_at(content, spans[n - 1]) {
            Some(path) => text::with_text(before, path),
            None => before,
        }
    }
}

/// The paths that a line mentions, each once.
pub open spec fn line_references(line: Seq<char>) -> Seq<Seq<char>> {
    let spans = patterns::regex_find_iter(REFERENCE_PATH_PATTERN@, line);
    references_in(line, spans, spans.len() as int)
}

/// The paths that the first `n` lines mention, each once.
pub open spec fn references_of(lines: Seq<Seq<char>>, n: int) -> Seq<Seq<char>>
    decreases n,
{
    if n <= 0 {
        seq![]
    } else {
        text::with_texts(references_of(lines, n - 1), line_references(lines[n - 1]))
    }
}

/// The paths that a text mentions, each once. The pattern takes in no line end,
/// so each line is searched by itself.
pub open spec fn mentioned_paths(content: Seq<char>) -> Seq<Seq<char>> {
    let lines = text::split_char(content, '\n');
    references_of(lines, lines.len() as int)
}

/// A path that a line mentions has a separator and no backslash.
proof fn lemma_line_references(content: Seq<char>, spans: Seq<(usize, usize)>, n: int)
    requires
        0 <= n <= spans.len(),
    ensures
        forall|p: Seq<char>| #[trigger]
            references_in(content, spans, n).contains(p) ==> p.contains('/') && !p.contains('\\'),
    decreases n,
{
    if n > 0 {
        lemma_line_references(content, spans, n - 1);
        match reference_at(content, spans[n - 1]) {
            Some(path) => {
                if path.contains('\\') {
                    let k = choose|k: int| 0 <= k < path.len() && path[k] == '\\';
                    assert(path[k] != '\\');
                }
                let before = references_in(content, spans, n - 1);
                assert forall|p: Seq<char>| #[trigger]
                    references_in(content, spans, n).contains(p) implies p.contains('/')
                    && !p.contains('\\') by {
                    text::lemma_push_contains(before, path, p);
                }
            },
            None => {
                assert(references_in(content, spans, n) == references_in(content, spans, n - 1));
            },
        }
    } else {
        assert(references_in(content, spans, n) =~= seq![]);
    }
}

/// What holds of the paths of the first lines.
proof fn lemma_references_of(lines: Seq<Seq<char>>, n: int)
    requires
        0 <= n <= lines.len(),
    ensures
        references_of(lines, n).no_duplicates(),
        forall|p: Seq<char>| #[trigger]
            references_of(lines, n).contains(p) ==> p.contains('/') && !p.contains('\\'),
        forall|p: Seq<char>, i: int|
            0 <= i < n && #[trigger] line_references(lines[i]).contains(p) ==> references_of(
                lines,
                n,
            ).contains(p),
    decreases n,
{
    if n > 0 {
        lemma_references_of(lines, n - 1);
        let before = references_of(lines, n - 1);
        let line = lines[n - 1];
        let more = line_references(line);
        let spans = patterns::regex_find_iter(REFERENCE_PATH_PATTERN@, line);
        lemma_line_references(line, spans, spans.len() as int);
        text::lemma_with_texts_unique(before, more);
        assert forall|p: Seq<char>| #[trigger] references_of(lines, n).contains(p) implies p.contains(
            '/',
        ) && !p.contains('\\') by {
            text::lemma_with_texts_contains(before, more, p);
        }
        assert forall|p: Seq<char>, i: int|
            0 <= i < n && #[trigger] line_references(lines[i]).contains(p) implies references_of(
            lines,
            n,
        ).contains(p) by {
            text::lemma_with_texts_contains(before, more, p);
        }
    }
}

/// A path that is mentioned has a separator and no backslash, and is listed
/// once.
pub proof fn law_references_are_paths(content: Seq<char>)
    ensures
        mentioned_paths(content).no_duplicates(),
        forall|p: Seq<char>| #[trigger]
            mentioned_paths(content).contains(p) ==> p.contains('/') && !p.contains('\\'),
{
    let lines = text::split_char(content, '\n');
    lemma_references_of(lines, lines.len() as int);
}

/// Lines that are there already mention nothing new.
proof fn lemma_repeated_lines(lines: Seq<Seq<char>>, n: int)
    requires
        0 <= n <= lines.len(),
    ensures
        references_of(lines + lines, lines.len() + n) == references_of(lines, lines.len() as int),
    decreases n,
{
    let m = lines.len() as int;
    if n == 0 {
        lemma_first_lines(lines, lines, m);
    } else {
        lemma_repeated_lines(lines, n - 1);
        assert((lines + lines)[m + n - 1] == lines[n - 1]);
        lemma_references_of(lines, m);
        let more = line_references(lines[n - 1]);
        let all = references_of(lines, m);
        assert forall|t: Seq<char>| #[trigger] more.contains(t) implies all.contains(t) by {
            assert(line_references(lines[n - 1]).contains(t));
        }
        text::lemma_with_texts_same(all, more);
    }
}

/// The paths of the first lines depend on these alone.
proof fn lemma_first_lines(lines: Seq<Seq<char>>, more: Seq<Seq<char>>, n: int)
    requires
        0 <= n <= lines.len(),
    ensures
        references_of(lines + more, n) == references_of(lines, n),
    decreases n,
{
    if n > 0 {
        lemma_first_lines(lines, more, n - 1);
        assert((lines + more)[n - 1] == lines[n - 1]);
    }
}

/// A text that is repeated mentions what the text mentions, in the same order.
pub proof fn law_repetition_mentions_nothing_new(content: Seq<char>)
    ensures
        mentioned_paths(content + seq!['\n'] + content) == mentioned_paths(content),
{
    let lines = text::split_char(content, '\n');
    text::lemma_split_char_nonempty(content, '\n');
    text::lemma_split_char_pieces(content, '\n');
    text::lemma_join_split(content, '\n');
    let twice = lines + lines;
    assert forall|i: int| 0 <= i < twice.len() implies !(#[trigger] twice[i]).contains('\n') by {
        if i < lines.len() {
            assert(twice[i] == lines[i]);
        } else {
            assert(twice[i] == lines[i - lines.len()]);
        }
    }
    text::lemma_join_add(lines, lines, seq!['\n']);
    text::lemma_split_join(twice, '\n');
    lemma_repeated_lines(lines, lines.len() as int);
}

/// The paths that the matches at the given offsets mention, each once.
pub fn references_at(content: &str, spans: &Vec<(usize, usize)>) -> (paths: Vec<String>)
    ensures
        text::views(paths@) == references_in(content@, spans@, spans@.len() as int),
{
    let bytes: &[u8] = content.as_bytes();
    let mut paths: Vec<String> = Vec::new();
    let mut i: usize = 0;
    assert(text::views(paths@) =~= seq![]);
    while i < spans.len()
        invariant
            i <= spans@.len(),
            bytes@ == encode_utf8(content@),
            text::views(paths@) == references_in(content@, spans@, i as int),
        decreases spans@.len() - i,
    {
        let (start, end) = spans[i];
        let continued: bool = end < bytes.len() && (bytes[end] == 46u8 || bytes[end] == 126u8
            || bytes[end] == 45u8);
        if !continued {
            let path: String = replaced(slice_bytes(content, start, end), '\\', '/');
            if has_char(path.as_str(), '/') {
                push_unique(&mut paths, path);
            }
        }
        i = i + 1;
    }
    paths
}

/// Extract path-shaped tokens that point at other scripts, whatever the
/// language of the file: the path of a Python, shell or YAML file that has a
/// separator. A token that goes on after the extension (`site.yml.j2`) is not
/// one. Which of them are edges is decided when they are resolved.
pub fn extract_reference_paths(content: &str) -> (paths: Vec<String>)
    ensures
        text::views(paths@) == mentioned_paths(content@),
{
    let lines: Vec<String> = split_text(content, '\n');
    let ghost all = text::split_char(content@, '\n');
    let spans: Vec<Vec<(usize, usize)>> = find_each(REFERENCE_PATH_PATTERN, &lines);
    let mut paths: Vec<String> = Vec::new();
    let mut i: usize = 0;
    assert(text::views(paths@) =~= seq![]);
    while i < lines.len()
        invariant
            i <= lines@.len(),
            spans@.len() == lines@.len(),
            all == text::views(lines@),
            forall|j: int|
                0 <= j < lines@.len() ==> (#[trigger] spans@[j])@ == patterns::regex_find_iter(
                    REFERENCE_PATH_PATTERN@,
                    lines@[j]@,
                ),
            text::views(paths@) == references_of(all, i as int),
        decreases lines@.len() - i,
    {
        assert(all[i as int] == lines@[i as int]@);
        let found: Vec<String> = references_at(lines[i].as_str(), &spans[i]);
        push_all(&mut paths, &found);
        i = i + 1;
    }
    paths
}

// ---------------------------------------------------------------------------
// Without a grammar
// ---------------------------------------------------------------------------

pub const PYTHON_IMPORT_PATTERN: &'static str = r"(?m)^\s*import\s+([\w.]+)";

pub const PYTHON_FROM_PATTERN: &'static str = r"(?m)^\s*from\s+([\w.]+)\s+import";

pub const BASH_SOURCE_PATTERN: &'static str =
    "(?m)^\\s*(?:source|\\.)\\s+[\"']?([^\\s\"';]+)[\"']?";

/// The dependency that a match names in its first group: trimmed, not empty
/// and without a separator.
pub open spec fn captured_dep(groups: Seq<Option<Seq<char>>>) -> Option<Seq<char>> {
    if groups.len() > 1 && groups[1] is Some {
        let dep = text::trim(groups[1].unwrap());
        if dep.len() > 0 && !dep.contains('/') {
            Some(dep)
        } else {
            None
        }
    } else {
        None
    }
}

/// `list` with the dependencies that the first `n` matches name.
pub open spec fn with_captured(
    list: Seq<Seq<char>>,
    found: Seq<Seq<Option<Seq<char>>>>,
    n: int,
) -> Seq<Seq<char>>
    decreases n,
{
    if n <= 0 {
        list
    } else {
        let before = with_captured(list, found, n - 1);
        match captured_dep(found[n - 1]) {
            Some(dep) => text::with_text(before, dep),
            None => before,
        }
    }
}

/// Whether the texts of `list` are names without a separator, each once.
pub open spec fn are_bare_names(list: Seq<Seq<char>>) -> bool {
    &&& list.no_duplicates()
    &&& forall|i: int|
        0 <= i < list.len() ==> (#[trigger] list[i]).len() > 0 && !list[i].contains('/')
}

/// What matches name is a name without a separator, listed once.
proof fn lemma_captured_are_bare(
    list: Seq<Seq<char>>,
    found: Seq<Seq<Option<Seq<char>>>>,
    n: int,
)
    requires
        are_bare_names(list),
        0 <= n <= found.len(),
    ensures
        are_bare_names(with_captured(list, found, n)),
    decreases n,
{
    if n > 0 {
        lemma_captured_are_bare(list, found, n - 1);
    }
}

/// Whatever the language, a dependency that a pattern finds is a name without
/// a separator, listed once: what is named by a path is left to the
/// references.
pub proof fn law_pattern_deps_are_bare_names(source: Seq<char>, key: Seq<char>)
    ensures
        are_bare_names(fallback_deps(source, key)),
{
    let imports = patterns::regex_captures_iter(PYTHON_IMPORT_PATTERN@, source);
    let froms = patterns::regex_captures_iter(PYTHON_FROM_PATTERN@, source);
    let sources = patterns::regex_captures_iter(BASH_SOURCE_PATTERN@, source);
    lemma_captured_are_bare(seq![], imports, imports.len() as int);
    lemma_captured_are_bare(
        with_captured(seq![], imports, imports.len() as int),
        froms,
        froms.len() as int,
    );
    lemma_captured_are_bare(seq![], sources, sources.len() as int);
}

/// Adds the dependencies that the matches name.
pub fn add_captured(list: &mut Vec<String>, found: &Vec<Groups>)
    ensures
        ({
            let views = found@.map_values(|g: Groups| patterns::group_views(g@));
            text::views(final(list)@) == with_captured(
                text::views(old(list)@),
                views,
                views.len() as int,
            )
        }),
{
    let ghost views = found@.map_values(|g: Groups| patterns::group_views(g@));
    let ghost l0 = text::views(list@);
    let mut i: usize = 0;
    while i < found.len()
        invariant
            i <= found@.len(),
            views == found@.map_values(|g: Groups| patterns::group_views(g@)),
            text::views(list@) == with_captured(l0, views, i as int),
        decreases found@.len() - i,
    {
        let groups: &Groups = &found[i];
        assert(views[i as int] == patterns::group_views(groups@));
        if groups.len() > 1 {
            assert(views[i as int][1] == match groups@[1] {
                Some(s) => Some(s@),
                None => None,
            });
            if let Some(raw) = &groups[1] {
                let dep: String = trimmed(raw.as_str());
                if !dep.as_str().is_empty() && !has_char(dep.as_str(), '/') {
                    push_unique(list, dep);
                }
            }
        }
        i = i + 1;
    }
}

/// What the patterns find in a source of the given language.
pub open spec fn fallback_deps(source: Seq<char>, key: Seq<char>) -> Seq<Seq<char>> {
    if key == "python"@ {
        let imports = patterns::regex_captures_iter(PYTHON_IMPORT_PATTERN@, source);
        let froms = patterns::regex_captures_iter(PYTHON_FROM_PATTERN@, source);
        with_captured(
            with_captured(seq![], imports, imports.len() as int),
            froms,
            froms.len() as int,
        )
    } else if key == "bash"@ {
        let sources = patterns::regex_captures_iter(BASH_SOURCE_PATTERN@, source);
        with_captured(seq![], sources, sources.len() as int)
    } else {
        seq![]
    }
}

/// Dependency extraction by the patterns of a grammar key.
pub fn deps_by_pattern(source: &str, key: &str) -> (deps: Vec<String>)
    ensures
        text::views(deps@) == fallback_deps(source@, key@),
{
    let mut deps: Vec<String> = Vec::new();
    assert(text::views(deps@) =~= seq![]);
    if same_text(key, "python") {
        let imports: Vec<Groups> = captures_all(PYTHON_IMPORT_PATTERN, source);
        add_captured(&mut deps, &imports);
        let froms: Vec<Groups> = captures_all(PYTHON_FROM_PATTERN, source);
        add_captured(&mut deps, &froms);
    } else if same_text(key, "bash") {
        let sources: Vec<Groups> = captures_all(BASH_SOURCE_PATTERN, source);
        add_captured(&mut deps, &sources);
    }
    deps
}

/// Dependency extraction by patterns, for where no syntax tree can be had.
pub fn extract_deps_fallback(source: &str, language: &str) -> (deps: Vec<String>)
    ensures
        text::views(deps@) == fallback_deps(
            source@,
            lang_key(patterns::unicode_lower(language@)),
        ),
{
    let key: &'static str = normalise_lang(language);
    deps_by_pattern(source, key)
}

// ---------------------------------------------------------------------------
// Shell: sourced files
// ---------------------------------------------------------------------------

/// The name of the command that the first `n` of the given nodes make up.
pub open spec fn command_name(t: SyntaxTree, nodes: Seq<int>, n: int) -> Seq<char>
    decreases n,
{
    if n <= 0 {
        seq![]
    } else if syntax::kind_of(t, nodes[n - 1]) == "command_name"@ {
        syntax::node_text(t, nodes[n - 1])
    } else {
        command_name(t, nodes, n - 1)
    }
}

/// Whether node `c` is an argument of a command.
pub open spec fn is_argument(t: SyntaxTree, c: int) -> bool {
    let kind = syntax::kind_of(t, c);
    kind == "word"@ || kind == "string"@ || kind == "raw_string"@ || kind == "ansi_c_string"@
        || kind == "concatenation"@
}

/// An argument without its quotes.
pub open spec fn argument_text(t: SyntaxTree, c: int) -> Seq<char> {
    text::strip_marks(text::strip_marks(syntax::node_text(t, c), "\""@), "'"@)
}

/// The first argument among the given nodes, from the `k`th on.
pub open spec fn first_argument(t: SyntaxTree, nodes: Seq<int>, k: int) -> Option<Seq<char>>
    decreases nodes.len() - k,
{
    if 0 <= k < nodes.len() {
        if is_argument(t, nodes[k]) {
            Some(argument_text(t, nodes[k]))
        } else {
            first_argument(t, nodes, k + 1)
        }
    } else {
        None
    }
}

/// The file that the command at node `i` sources by its bare name.
pub open spec fn sourced_at(t: SyntaxTree, i: int) -> Option<Seq<char>> {
    let nodes = syntax::children(t, i);
    let name = command_name(t, nodes, nodes.len() as int);
    let argument = first_argument(t, nodes, 0);
    if syntax::kind_of(t, i) == "command"@ && (name == "source"@ || name == "."@) && argument is Some
        && argument.unwrap().len() > 0 && !argument.unwrap().contains('/') {
        argument
    } else {
        None
    }
}

/// The files that the first `n` rows source, each once.
pub open spec fn sourced_in(t: SyntaxTree, n: int) -> Seq<Seq<char>>
    decreases n,
{
    if n <= 0 {
        seq![]
    } else {
        match sourced_at(t, n - 1) {
            Some(path) => text::with_text(sourced_in(t, n - 1), path),
            None => sourced_in(t, n - 1),
        }
    }
}

/// What a shell script sources by a bare name is listed once, and nothing that
/// it sources by a path is.
pub proof fn law_sourced_files_are_bare_names(t: SyntaxTree, n: int)
    ensures
        are_bare_names(sourced_in(t, n)),
    decreases n,
{
    if n > 0 {
        law_sourced_files_are_bare_names(t, n - 1);
    }
}

/// The file that the command at node `i` sources by its bare name. A source
/// with a path is left to [`extract_reference_paths`], which resolves by path.
fn sourced_by(t: &SyntaxTree, i: usize) -> (path: Option<String>)
    requires
        i < t.rows@.len(),
        syntax::kind_of(*t, i as int) == "command"@,
    ensures
        ast_deps::option_view(path) == sourced_at(*t, i as int),
{
    let nodes: Vec<usize> = t.children(i);
    let ghost all = syntax::children(*t, i as int);
    let mut name: String = String::new();
    let mut argument: Option<String> = None;
    let mut k: usize = 0;
    while k < nodes.len()
        invariant
            k <= nodes@.len(),
            all == syntax::indices(nodes@),
            forall|j: int| 0 <= j < nodes@.len() ==> #[trigger] nodes@[j] < t.rows@.len(),
            name@ == command_name(*t, all, k as int),
            match argument {
                Some(a) => first_argument(*t, all, 0) == Some(a@),
                None => first_argument(*t, all, 0) == first_argument(*t, all, k as int),
            },
        decreases nodes@.len() - k,
    {
        let c: usize = nodes[k];
        assert(all[k as int] == c as int);
        proof {
            reveal_strlit("command_name");
            reveal_strlit("word");
            reveal_strlit("string");
            reveal_strlit("raw_string");
            reveal_strlit("ansi_c_string");
            reveal_strlit("concatenation");
            assert("command_name"@[0] == 'c');
            assert("concatenation"@.len() != "command_name"@.len());
            assert("word"@.len() != "command_name"@.len());
            assert("string"@.len() != "command_name"@.len());
            assert("raw_string"@.len() != "command_name"@.len());
            assert("ansi_c_string"@.len() != "command_name"@.len());
        }
        if t.is_kind(c, "command_name") {
            name = t.text(c);
        } else if argument.is_none() && (t.is_kind(c, "word") || t.is_kind(c, "string")
            || t.is_kind(c, "raw_string") || t.is_kind(c, "ansi_c_string") || t.is_kind(
            c,
            "concatenation",
        )) {
            let raw: String = t.text(c);
            let inner: String = strip_marks_of(raw.as_str(), "\"");
            argument = Some(strip_marks_of(inner.as_str(), "'"));
        }
        k = k + 1;
    }
    if !same_text(name.as_str(), "source") && !same_text(name.as_str(), ".") {
        return None;
    }
    match argument {
        Some(path) => {
            if path.as_str().is_empty() || has_char(path.as_str(), '/') {
                None
            } else {
                Some(path)
            }
        },
        None => None,
    }
}

/// The files that a parsed shell script sources by their bare names, each
/// once. The rows are read one after the other, so that no depth of nesting
/// can exhaust the call stack.
pub fn extract_bash_commands(t: &SyntaxTree) -> (deps: Vec<String>)
    ensures
        text::views(deps@) == sourced_in(*t, t.rows@.len() as int),
{
    let mut deps: Vec<String> = Vec::new();
    let mut i: usize = 0;
    assert(text::views(deps@) =~= seq![]);
    while i < t.rows.len()
        invariant
            i <= t.rows@.len(),
            text::views(deps@) == sourced_in(*t, i as int),
        decreases t.rows@.len() - i,
    {
        if t.is_kind(i, "command") {
            if let Some(path) = sourced_by(t, i) {
                push_unique(&mut deps, path);
            }
        }
        i = i + 1;
    }
    deps
}

// ---------------------------------------------------------------------------
// YAML: Ansible references
// ---------------------------------------------------------------------------

/// How the value of an Ansible key that refers to files is read.
#[derive(Debug, Clone, Copy)]
pub struct AnsibleKeyRule {
    /// Keep only entries with a separator: an entry of `roles` or
    /// `include_role` is often the bare name of a Galaxy role.
    pub path_only: bool,
    /// The one field of a mapping that carries the reference.
    pub reference_field: Option<&'static str>,
}

/// The last dotted part of a key.
pub open spec fn bare_key(key: Seq<char>) -> Seq<char> {
    key.skip(text::rfind_char(key, '.') + 1)
}

/// How a key without its module prefix is read: whether only paths count, and
/// the field that carries the reference.
pub open spec fn key_rule(bare: Seq<char>) -> Option<(bool, Option<Seq<char>>)> {
    if bare == "import_playbook"@ || bare == "vars_files"@ {
        Some((false, None))
    } else if bare == "include_tasks"@ || bare == "import_tasks"@ || bare == "include_vars"@ {
        Some((false, Some("file"@)))
    } else if bare == "include_role"@ {
        Some((true, Some("name"@)))
    } else if bare == "roles"@ {
        Some((true, Some("role"@)))
    } else {
        None
    }
}

impl AnsibleKeyRule {
    /// The rule as plain values.
    pub open spec fn rule(&self) -> (bool, Option<Seq<char>>) {
        (self.path_only, ast_deps::str_option(self.reference_field))
    }
}

/// If `raw_key`, without any module prefix such as `ansible.builtin.`, refers
/// to files, how its value is read.
pub fn ansible_key_rule(raw_key: &str) -> (rule: Option<AnsibleKeyRule>)
    ensures
        match rule {
            Some(r) => key_rule(bare_key(raw_key@)) == Some(r.rule()),
            None => key_rule(bare_key(raw_key@)) is None,
        },
{
    let v: Vec<char> = chars_of(raw_key);
    let from: usize = match rfind_before(&v, v.len(), '.') {
        Some(i) => i + 1,
        None => 0,
    };
    assert(v@.take(v@.len() as int) =~= v@);
    assert(v@.subrange(from as int, v@.len() as int) =~= v@.skip(from as int));
    let bare: String = slice_text(&v, from, v.len());
    let b: &str = bare.as_str();
    if same_text(b, "import_playbook") || same_text(b, "vars_files") {
        Some(AnsibleKeyRule { path_only: false, reference_field: None })
    } else if same_text(b, "include_tasks") || same_text(b, "import_tasks") || same_text(
        b,
        "include_vars",
    ) {
        Some(AnsibleKeyRule { path_only: false, reference_field: Some("file") })
    } else if same_text(b, "include_role") {
        Some(AnsibleKeyRule { path_only: true, reference_field: Some("name") })
    } else if same_text(b, "roles") {
        Some(AnsibleKeyRule { path_only: true, reference_field: Some("role") })
    } else {
        None
    }
}

/// The text of a scalar at node `i`, without its quotes; `None` for any other
/// node.
pub open spec fn leaf_scalar(t: SyntaxTree, i: int) -> Option<Seq<char>> {
    let kind = syntax::kind_of(t, i);
    if kind == "plain_scalar"@ || kind == "block_scalar"@ {
        Some(syntax::node_text(t, i))
    } else if kind == "single_quote_scalar"@ || kind == "double_quote_scalar"@ {
        Some(text::strip_marks(syntax::node_text(t, i), "'\""@))
    } else {
        None
    }
}

/// The scalar that node `i` itself is.
pub open spec fn key_own(t: SyntaxTree) -> spec_fn(int) -> Seq<Seq<char>> {
    |i: int|
        match leaf_scalar(t, i) {
            Some(s) => seq![s],
            None => seq![],
        }
}

/// The named children of a node.
pub open spec fn all_named(t: SyntaxTree) -> spec_fn(int) -> Seq<int> {
    |i: int| syntax::named_children(t, i)
}

/// The first scalar that a walk from node `i` meets.
pub open spec fn first_scalar(t: SyntaxTree, i: int) -> Option<Seq<char>> {
    let met = walk::visit(t.rows@.len() as int, key_own(t), all_named(t), i);
    if met.len() > 0 {
        Some(met[0])
    } else {
        None
    }
}

/// The text of a scalar at node `i`, without its quotes.
fn leaf_scalar_text(t: &SyntaxTree, i: usize) -> (s: Option<String>)
    requires
        i < t.rows@.len(),
    ensures
        ast_deps::option_view(s) == leaf_scalar(*t, i as int),
{
    if t.is_kind(i, "plain_scalar") || t.is_kind(i, "block_scalar") {
        Some(t.text(i))
    } else if t.is_kind(i, "single_quote_scalar") || t.is_kind(i, "double_quote_scalar") {
        let raw: String = t.text(i);
        Some(strip_marks_of(raw.as_str(), "'\""))
    } else {
        None
    }
}

/// Puts nodes on top of a stack.
fn push_nodes(stack: &mut Vec<usize>, nodes: &Vec<usize>)
    ensures
        final(stack)@ == old(stack)@ + nodes@,
{
    let ghost before = stack@;
    let mut k: usize = 0;
    assert(stack@ =~= before + nodes@.take(0));
    while k < nodes.len()
        invariant
            k <= nodes@.len(),
            stack@ == before + nodes@.take(k as int),
        decreases nodes@.len() - k,
    {
        stack.push(nodes[k]);
        k = k + 1;
        assert(stack@ =~= before + nodes@.take(k as int));
    }
    assert(nodes@.take(k as int) =~= nodes@);
}

/// The first scalar below a node: the text of a mapping key.
fn first_scalar_text(t: &SyntaxTree, root: usize) -> (s: Option<String>)
    requires
        root < t.rows@.len(),
    ensures
        ast_deps::option_view(s) == first_scalar(*t, root as int),
{
    let ghost len = t.rows@.len() as int;
    let ghost own = key_own(*t);
    let ghost next = all_named(*t);
    let mut stack: Vec<usize> = Vec::new();
    stack.push(root);
    proof {
        assert(syntax::indices(stack@) =~= seq![root as int]);
        walk::lemma_visit_one(len, own, next, root as int);
    }
    while stack.len() > 0
        invariant
            len == t.rows@.len(),
            own == key_own(*t),
            next == all_named(*t),
            forall|k: int| 0 <= k < stack@.len() ==> #[trigger] stack@[k] < len,
            walk::visit_stack(len, own, next, syntax::indices(stack@)) == walk::visit(
                len,
                own,
                next,
                root as int,
            ),
        decreases walk::work(len, next, syntax::indices(stack@)),
    {
        let ghost before = syntax::indices(stack@);
        let ghost held = stack@;
        let node: usize = stack.pop().unwrap();
        let nodes: Vec<usize> = t.named_children(node);
        proof {
            assert(before.last() == node as int);
            assert(next(node as int) == syntax::indices(nodes@));
            assert forall|k: int| 0 <= k < next(node as int).len() implies (node as int)
                < #[trigger] next(node as int)[k] < len by {
                assert(next(node as int)[k] == nodes@[k] as int);
            }
            walk::lemma_visit_step(len, own, next, before);
        }
        if let Some(s) = leaf_scalar_text(t, node) {
            assert(own(node as int) =~= seq![s@]);
            return Some(s);
        }
        assert(own(node as int) =~= seq![]);
        let ghost rest = stack@;
        push_nodes(&mut stack, &nodes);
        proof {
            assert(syntax::indices(stack@) =~= before.drop_last() + next(node as int));
            assert(walk::visit_stack(len, own, next, before) =~= walk::visit_stack(
                len,
                own,
                next,
                syntax::indices(stack@),
            ));
        }
    }
    assert(syntax::indices(stack@) =~= seq![]);
    None
}

/// Whether node `i` only wraps others: a list, an entry of a list, or a node
/// around a value.
pub open spec fn is_wrapper(t: SyntaxTree, i: int) -> bool {
    let kind = syntax::kind_of(t, i);
    kind == "flow_node"@ || kind == "block_node"@ || kind == "block_sequence"@ || kind
        == "block_sequence_item"@ || kind == "flow_sequence"@
}

/// Whether node `i` is a mapping.
pub open spec fn is_mapping(t: SyntaxTree, i: int) -> bool {
    syntax::kind_of(t, i) == "block_mapping"@ || syntax::kind_of(t, i) == "flow_mapping"@
}

/// Whether node `i` is an entry of a mapping.
pub open spec fn is_pair(t: SyntaxTree, i: int) -> bool {
    syntax::kind_of(t, i) == "block_mapping_pair"@ || syntax::kind_of(t, i) == "flow_pair"@
}

/// Whether node `i` is neither an anchor nor a tag.
pub open spec fn is_content(t: SyntaxTree) -> spec_fn(int) -> bool {
    |i: int| syntax::kind_of(t, i) != "anchor"@ && syntax::kind_of(t, i) != "tag"@
}

/// The value of the mapping entry at node `p`, if its key is `field`.
pub open spec fn value_of(t: SyntaxTree, p: int, field: Seq<char>) -> Option<int> {
    let key = syntax::field_child(t, p, "key"@);
    let value = syntax::field_child(t, p, "value"@);
    if is_pair(t, p) && key is Some && value is Some && first_scalar(t, key.unwrap()) == Some(
        field,
    ) {
        value
    } else {
        None
    }
}

/// The values of `field` among the first `n` of the given nodes.
pub open spec fn values_of(t: SyntaxTree, nodes: Seq<int>, n: int, field: Seq<char>) -> Seq<int>
    decreases n,
{
    if n <= 0 {
        seq![]
    } else {
        match value_of(t, nodes[n - 1], field) {
            Some(v) => values_of(t, nodes, n - 1, field).push(v),
            None => values_of(t, nodes, n - 1, field),
        }
    }
}

/// The reference that the scalar at node `i` is, under the given rule.
pub open spec fn scalar_own(t: SyntaxTree, rule: (bool, Option<Seq<char>>)) -> spec_fn(int) -> Seq<
    Seq<char>,
> {
    |i: int|
        match leaf_scalar(t, i) {
            Some(s) => if s.len() > 0 && (!rule.0 || s.contains('/')) {
                seq![s]
            } else {
                seq![]
            },
            None => seq![],
        }
}

/// The nodes in which a reference may stand: those inside a wrapper, and of a
/// mapping the values of the one field that carries it.
pub open spec fn scalar_next(t: SyntaxTree, rule: (bool, Option<Seq<char>>)) -> spec_fn(int) -> Seq<
    int,
> {
    |i: int|
        if is_wrapper(t, i) {
            syntax::named_children(t, i).filter(is_content(t))
        } else if is_mapping(t, i) && rule.1 is Some {
            values_of(
                t,
                syntax::named_children(t, i),
                syntax::named_children(t, i).len() as int,
                rule.1.unwrap(),
            )
        } else {
            seq![]
        }
}

/// The references in the value at node `i`, read by the given rule.
pub open spec fn value_references(
    t: SyntaxTree,
    i: int,
    rule: (bool, Option<Seq<char>>),
) -> Seq<Seq<char>> {
    walk::visit(t.rows@.len() as int, scalar_own(t, rule), scalar_next(t, rule), i)
}

/// The references that the mapping entry at node `i` makes.
pub open spec fn pair_references(t: SyntaxTree) -> spec_fn(int) -> Seq<Seq<char>> {
    |i: int|
        {
            let key = syntax::field_child(t, i, "key"@);
            let value = syntax::field_child(t, i, "value"@);
            if is_pair(t, i) && key is Some && value is Some && first_scalar(t, key.unwrap()) is Some {
                match key_rule(bare_key(first_scalar(t, key.unwrap()).unwrap())) {
                    Some(rule) => value_references(t, value.unwrap(), rule),
                    None => seq![],
                }
            } else {
                seq![]
            }
        }
}

/// The references of the whole document, each once.
pub open spec fn yaml_references(t: SyntaxTree) -> Seq<Seq<char>> {
    if t.rows@.len() == 0 {
        seq![]
    } else {
        text::unique_texts(
            walk::visit(t.rows@.len() as int, pair_references(t), all_named(t), 0),
        )
    }
}

/// No reference of a document is listed twice.
pub proof fn law_yaml_references_are_listed_once(t: SyntaxTree)
    ensures
        yaml_references(t).no_duplicates(),
{
    if t.rows@.len() > 0 {
        text::lemma_unique_texts(
            walk::visit(t.rows@.len() as int, pair_references(t), all_named(t), 0),
        );
    }
}

/// The nodes among `nodes` that are neither anchors nor tags.
fn content_nodes(t: &SyntaxTree, i: usize) -> (v: Vec<usize>)
    requires
        i < t.rows@.len(),
    ensures
        syntax::indices(v@) == syntax::named_children(*t, i as int).filter(is_content(*t)),
        forall|k: int| 0 <= k < v@.len() ==> i < #[trigger] v@[k] < t.rows@.len(),
{
    let all: Vec<usize> = t.named_children(i);
    let ghost nodes = syntax::named_children(*t, i as int);
    let ghost pred = is_content(*t);
    let mut v: Vec<usize> = Vec::new();
    let mut k: usize = 0;
    proof {
        reveal(Seq::filter);
    }
    assert(nodes.take(0).filter(pred) =~= seq![]);
    while k < all.len()
        invariant
            k <= all@.len(),
            nodes == syntax::indices(all@),
            pred == is_content(*t),
            i < t.rows@.len(),
            forall|j: int|
                0 <= j < all@.len() ==> i < #[trigger] all@[j] && all@[j] < t.rows@.len(),
            syntax::indices(v@) == nodes.take(k as int).filter(pred),
            forall|j: int| 0 <= j < v@.len() ==> i < #[trigger] v@[j] && v@[j] < t.rows@.len(),
        decreases all@.len() - k,
    {
        let c: usize = all[k];
        let ghost before = syntax::indices(v@);
        proof {
            reveal(Seq::filter);
            assert(nodes.take(k + 1).drop_last() =~= nodes.take(k as int));
            assert(nodes.take(k + 1).last() == c as int);
        }
        if !t.is_kind(c, "anchor") && !t.is_kind(c, "tag") {
            v.push(c);
            assert(syntax::indices(v@) =~= before.push(c as int));
        }
        k = k + 1;
    }
    assert(nodes.take(k as int) =~= nodes);
    v
}

/// The key text and the value node of the mapping entry at node `i`.
fn read_pair(t: &SyntaxTree, i: usize) -> (pair: Option<(String, usize)>)
    requires
        i < t.rows@.len(),
    ensures
        match pair {
            Some((key, value)) => {
                let k = syntax::field_child(*t, i as int, "key"@);
                &&& is_pair(*t, i as int)
                &&& k is Some
                &&& first_scalar(*t, k.unwrap()) == Some(key@)
                &&& syntax::field_child(*t, i as int, "value"@) == Some(value as int)
                &&& i < value < t.rows@.len()
            },
            None => {
                let k = syntax::field_child(*t, i as int, "key"@);
                ||| !is_pair(*t, i as int)
                ||| k is None
                ||| syntax::field_child(*t, i as int, "value"@) is None
                ||| first_scalar(*t, k.unwrap()) is None
            },
        },
{
    if !t.is_kind(i, "block_mapping_pair") && !t.is_kind(i, "flow_pair") {
        return None;
    }
    let Some(key) = t.field_child(i, "key") else {
        return None;
    };
    let Some(value) = t.field_child(i, "value") else {
        return None;
    };
    match first_scalar_text(t, key) {
        Some(name) => Some((name, value)),
        None => None,
    }
}

/// The values of `field` in the mapping at node `i`.
fn field_values(t: &SyntaxTree, i: usize, field: &str) -> (v: Vec<usize>)
    requires
        i < t.rows@.len(),
    ensures
        syntax::indices(v@) == values_of(
            *t,
            syntax::named_children(*t, i as int),
            syntax::named_children(*t, i as int).len() as int,
            field@,
        ),
        forall|k: int| 0 <= k < v@.len() ==> i < #[trigger] v@[k] < t.rows@.len(),
{
    let nodes: Vec<usize> = t.named_children(i);
    let ghost all = syntax::named_children(*t, i as int);
    let mut v: Vec<usize> = Vec::new();
    let mut k: usize = 0;
    assert(syntax::indices(v@) =~= seq![]);
    while k < nodes.len()
        invariant
            k <= nodes@.len(),
            all == syntax::indices(nodes@),
            forall|j: int|
                0 <= j < nodes@.len() ==> i < #[trigger] nodes@[j] && nodes@[j] < t.rows@.len(),
            syntax::indices(v@) == values_of(*t, all, k as int, field@),
            forall|j: int| 0 <= j < v@.len() ==> i < #[trigger] v@[j] && v@[j] < t.rows@.len(),
        decreases nodes@.len() - k,
    {
        let c: usize = nodes[k];
        let ghost before = syntax::indices(v@);
        assert(all[k as int] == c as int);
        if let Some((key, value)) = read_pair(t, c) {
            if same_text(key.as_str(), field) {
                v.push(value);
                assert(syntax::indices(v@) =~= before.push(value as int));
            }
        }
        k = k + 1;
    }
    v
}

/// The nodes in which a reference may stand below node `i`.
fn reference_nodes(t: &SyntaxTree, i: usize, rule: &AnsibleKeyRule) -> (v: Vec<usize>)
    requires
        i < t.rows@.len(),
    ensures
        syntax::indices(v@) == scalar_next(*t, rule.rule())(i as int),
        forall|k: int| 0 <= k < v@.len() ==> i < #[trigger] v@[k] < t.rows@.len(),
{
    if t.is_kind(i, "flow_node") || t.is_kind(i, "block_node") || t.is_kind(i, "block_sequence")
        || t.is_kind(i, "block_sequence_item") || t.is_kind(i, "flow_sequence") {
        return content_nodes(t, i);
    }
    if t.is_kind(i, "block_mapping") || t.is_kind(i, "flow_mapping") {
        if let Some(field) = rule.reference_field {
            return field_values(t, i, field);
        }
    }
    let v: Vec<usize> = Vec::new();
    assert(syntax::indices(v@) =~= seq![]);
    v
}

/// Adds the references in the value at node `root`: a scalar, a list of
/// scalars and mappings, or a mapping, of which only the field that the rule
/// names counts.
fn collect_scalar_candidates(
    t: &SyntaxTree,
    root: usize,
    rule: &AnsibleKeyRule,
    out: &mut Vec<String>,
)
    requires
        root < t.rows@.len(),
    ensures
        text::views(final(out)@) == text::with_texts(
            text::views(old(out)@),
            value_references(*t, root as int, rule.rule()),
        ),
{
    let ghost len = t.rows@.len() as int;
    let ghost own = scalar_own(*t, rule.rule());
    let ghost next = scalar_next(*t, rule.rule());
    let ghost o0 = text::views(out@);
    let ghost mut met = Seq::<Seq<char>>::empty();
    let mut stack: Vec<usize> = Vec::new();
    stack.push(root);
    proof {
        assert(syntax::indices(stack@) =~= seq![root as int]);
        walk::lemma_visit_one(len, own, next, root as int);
        assert(met + walk::visit(len, own, next, root as int) =~= walk::visit(
            len,
            own,
            next,
            root as int,
        ));
    }
    while stack.len() > 0
        invariant
            len == t.rows@.len(),
            own == scalar_own(*t, rule.rule()),
            next == scalar_next(*t, rule.rule()),
            forall|k: int| 0 <= k < stack@.len() ==> #[trigger] stack@[k] < len,
            met + walk::visit_stack(len, own, next, syntax::indices(stack@))
                == value_references(*t, root as int, rule.rule()),
            text::views(out@) == text::with_texts(o0, met),
        decreases walk::work(len, next, syntax::indices(stack@)),
    {
        let ghost before = syntax::indices(stack@);
        let node: usize = stack.pop().unwrap();
        let nodes: Vec<usize> = reference_nodes(t, node, rule);
        proof {
            assert(before.last() == node as int);
            assert forall|k: int| 0 <= k < next(node as int).len() implies (node as int)
                < #[trigger] next(node as int)[k] < len by {
                assert(next(node as int)[k] == nodes@[k] as int);
            }
            walk::lemma_visit_step(len, own, next, before);
        }
        if let Some(s) = leaf_scalar_text(t, node) {
            if !s.as_str().is_empty() && (!rule.path_only || has_char(s.as_str(), '/')) {
                proof {
                    assert(own(node as int) =~= seq![s@]);
                    assert(seq![s@].drop_last() =~= seq![]);
                    assert(text::with_texts(text::views(out@), seq![]) == text::views(out@));
                    assert(text::with_texts(text::views(out@), seq![s@]) == text::with_text(
                        text::views(out@),
                        s@,
                    ));
                }
                push_unique(out, s);
            }
        }
        push_nodes(&mut stack, &nodes);
        proof {
            assert(syntax::indices(stack@) =~= before.drop_last() + next(node as int));
            text::lemma_with_texts_add(o0, met, own(node as int));
            assert(met + walk::visit_stack(len, own, next, before) =~= (met + own(node as int))
                + walk::visit_stack(len, own, next, syntax::indices(stack@)));
            met = met + own(node as int);
        }
    }
    proof {
        assert(syntax::indices(stack@) =~= seq![]);
        assert(met =~= value_references(*t, root as int, rule.rule()));
    }
}

/// Extract Ansible-style file references (`include_tasks`, `import_tasks`,
/// `import_playbook`, `vars_files`, `include_vars`, path-style entries of
/// `include_role` and `roles`, and their `ansible.builtin.` forms) from parsed
/// YAML. The walk keeps its own stack, so that no depth of nesting can exhaust
/// the call stack.
pub fn extract_yaml_reference_paths(t: &SyntaxTree) -> (out: Vec<String>)
    ensures
        text::views(out@) == yaml_references(*t),
{
    let mut out: Vec<String> = Vec::new();
    assert(text::views(out@) =~= seq![]);
    if t.rows.len() == 0 {
        return out;
    }
    let ghost len = t.rows@.len() as int;
    let ghost own = pair_references(*t);
    let ghost next = all_named(*t);
    let ghost whole = walk::visit(len, own, next, 0);
    let ghost mut met = Seq::<Seq<char>>::empty();
    let mut stack: Vec<usize> = Vec::new();
    stack.push(0);
    proof {
        assert(syntax::indices(stack@) =~= seq![0int]);
        walk::lemma_visit_one(len, own, next, 0);
        assert(met + whole =~= whole);
    }
    while stack.len() > 0
        invariant
            len == t.rows@.len(),
            own == pair_references(*t),
            next == all_named(*t),
            forall|k: int| 0 <= k < stack@.len() ==> #[trigger] stack@[k] < len,
            met + walk::visit_stack(len, own, next, syntax::indices(stack@)) == whole,
            text::views(out@) == text::with_texts(seq![], met),
        decreases walk::work(len, next, syntax::indices(stack@)),
    {
        let ghost before = syntax::indices(stack@);
        let node: usize = stack.pop().unwrap();
        let nodes: Vec<usize> = t.named_children(node);
        proof {
            assert(before.last() == node as int);
            assert(next(node as int) == syntax::indices(nodes@));
            assert forall|k: int| 0 <= k < next(node as int).len() implies (node as int)
                < #[trigger] next(node as int)[k] < len by {
                assert(next(node as int)[k] == nodes@[k] as int);
            }
            walk::lemma_visit_step(len, own, next, before);
            text::lemma_with_texts_add(seq![], met, own(node as int));
        }
        if let Some((key, value)) = read_pair(t, node) {
            if let Some(rule) = ansible_key_rule(key.as_str()) {
                collect_scalar_candidates(t, value, &rule, &mut out);
            }
        }
        push_nodes(&mut stack, &nodes);
        proof {
            assert(syntax::indices(stack@) =~= before.drop_last() + next(node as int));
            assert(met + walk::visit_stack(len, own, next, before) =~= (met + own(node as int))
                + walk::visit_stack(len, own, next, syntax::indices(stack@)));
            met = met + own(node as int);
        }
    }
    proof {
        assert(syntax::indices(stack@) =~= seq![]);
        assert(met =~= whole);
    }
    out
}

// ---------------------------------------------------------------------------
// By language
// ---------------------------------------------------------------------------

/// The text of the error with which a grammar does not load, if it does not.
pub uninterp spec fn grammar_error(grammar: Grammar) -> Option<Seq<char>>;

/// `Parser::set_language` of tree-sitter: fails where the grammar was built
/// for another version of the parser, and then says so.
#[verifier::external_body]
fn load_grammar(grammar: Grammar) -> (error: Option<String>)
    ensures
        ast_deps::option_view(error) == grammar_error(grammar),
{
    let language = match grammar {
        Grammar::Python => tree_sitter_python::LANGUAGE,
        Grammar::Bash => tree_sitter_bash::LANGUAGE,
        Grammar::Json => tree_sitter_json::LANGUAGE,
        Grammar::Yaml => tree_sitter_yaml::LANGUAGE,
    };
    let loaded = tree_sitter::Parser::new().set_language(&language.into());
    loaded.err().map(|e| e.to_string())
}

/// Dependency extractor for the languages that have a grammar.
#[derive(Debug)]
pub struct TreeSitterExtractor {
    loaded: bool,
}

/// The grammar that the dependencies of a language with this key are read
/// through.
pub open spec fn key_grammar(key: Seq<char>) -> Option<Grammar> {
    if key == "python"@ {
        Some(Grammar::Python)
    } else if key == "bash"@ {
        Some(Grammar::Bash)
    } else {
        None
    }
}

/// The grammar that a script of this language is read through.
pub open spec fn grammar_for(language: Seq<char>) -> Option<Grammar> {
    if language == "python"@ {
        Some(Grammar::Python)
    } else if language == "yaml"@ {
        Some(Grammar::Yaml)
    } else {
        key_grammar(lang_key(patterns::unicode_lower(language)))
    }
}

/// The grammar that a script of this language is read through.
pub fn grammar_of(language: &str) -> (grammar: Option<Grammar>)
    ensures
        grammar == grammar_for(language@),
{
    if same_text(language, "python") {
        Some(Grammar::Python)
    } else if same_text(language, "yaml") {
        Some(Grammar::Yaml)
    } else {
        let key: &'static str = normalise_lang(language);
        if same_text(key, "python") {
            Some(Grammar::Python)
        } else if same_text(key, "bash") {
            Some(Grammar::Bash)
        } else {
            None
        }
    }
}

/// Whether `parsed` may be what a parse of `source` gives, where there is a
/// grammar; without one there is nothing.
pub open spec fn may_parse(
    parsed: Option<SyntaxTree>,
    grammar: Option<Grammar>,
    source: Seq<char>,
) -> bool {
    match grammar {
        Some(g) => syntax::is_parse_of(parsed, g, source),
        None => parsed is None,
    }
}

/// The dependencies of a source in the language with this key, whose parse
/// gave `parsed`: read off its tree, or found by the patterns where there is
/// none.
pub open spec fn deps_given(
    parsed: Option<SyntaxTree>,
    source: Seq<char>,
    key: Seq<char>,
) -> Seq<Seq<char>> {
    match parsed {
        Some(t) => if key == "python"@ {
            ast_deps::imports_after(seq![], ast_deps::import_events(t, 0))
        } else if key == "bash"@ {
            sourced_in(t, t.rows@.len() as int)
        } else {
            fallback_deps(source, key)
        },
        None => fallback_deps(source, key),
    }
}

/// The Ansible-style references of a source whose parse gave `parsed`.
pub open spec fn yaml_given(parsed: Option<SyntaxTree>) -> Seq<Seq<char>> {
    match parsed {
        Some(t) => yaml_references(t),
        None => seq![],
    }
}

/// The dependencies of a source whose parse gave `parsed`.
pub fn deps_of_parse(parsed: &Option<SyntaxTree>, source: &str, language: &str) -> (deps: Vec<
    String,
>)
    ensures
        text::views(deps@) == deps_given(
            *parsed,
            source@,
            lang_key(patterns::unicode_lower(language@)),
        ),
{
    let key: &'static str = normalise_lang(language);
    if let Some(t) = parsed {
        if same_text(key, "python") {
            return python_deps_of_tree(t, None).imports;
        }
        if same_text(key, "bash") {
            return extract_bash_commands(t);
        }
    }
    deps_by_pattern(source, key)
}

/// The Ansible-style references of a source whose parse gave `parsed`.
pub fn yaml_deps_of_parse(parsed: &Option<SyntaxTree>) -> (paths: Vec<String>)
    ensures
        text::views(paths@) == yaml_given(*parsed),
{
    match parsed {
        Some(t) => extract_yaml_reference_paths(t),
        None => {
            let none: Vec<String> = Vec::new();
            assert(text::views(none@) =~= seq![]);
            none
        },
    }
}

impl TreeSitterExtractor {
    /// Whether all grammars are known to load.
    pub closed spec fn is_loaded(&self) -> bool {
        self.loaded
    }

    /// An extractor whose Python, Bash and YAML grammars load; the first
    /// error where one does not.
    pub fn new() -> (extractor: Result<TreeSitterExtractor, String>)
        ensures
            match extractor {
                Ok(e) => e.is_loaded() && grammar_error(Grammar::Python) is None && grammar_error(
                    Grammar::Bash,
                ) is None && grammar_error(Grammar::Yaml) is None,
                Err(text) => {
                    ||| grammar_error(Grammar::Python) == Some(text@)
                    ||| grammar_error(Grammar::Python) is None && grammar_error(Grammar::Bash)
                        == Some(text@)
                    ||| grammar_error(Grammar::Python) is None && grammar_error(Grammar::Bash) is None
                        && grammar_error(Grammar::Yaml) == Some(text@)
                },
            },
    {
        if let Some(text) = load_grammar(Grammar::Python) {
            return Err(text);
        }
        if let Some(text) = load_grammar(Grammar::Bash) {
            return Err(text);
        }
        if let Some(text) = load_grammar(Grammar::Yaml) {
            return Err(text);
        }
        Ok(TreeSitterExtractor { loaded: true })
    }

    /// Parse a script of the given language, where there is a grammar for it.
    pub fn parse_script(&self, source: &str, language: &str) -> (parsed: Option<SyntaxTree>)
        ensures
            may_parse(parsed, grammar_for(language@), source@),
    {
        match grammar_of(language) {
            Some(grammar) => parse(grammar, source),
            None => None,
        }
    }

    /// Extract dependencies for the given language: the imports of a Python
    /// source, the files that a shell script sources. Where the parse does not
    /// end in time, the patterns of [`extract_deps_fallback`] take its place.
    pub fn extract_deps(&self, source: &str, language: &str) -> (deps: Vec<String>)
        ensures
            ({
                let key = lang_key(patterns::unicode_lower(language@));
                exists|parsed: Option<SyntaxTree>|
                    may_parse(parsed, key_grammar(key), source@) && text::views(deps@)
                        == #[trigger] deps_given(parsed, source@, key)
            }),
    {
        let key: &'static str = normalise_lang(language);
        let parsed: Option<SyntaxTree> = if same_text(key, "python") {
            parse(Grammar::Python, source)
        } else if same_text(key, "bash") {
            parse(Grammar::Bash, source)
        } else {
            None
        };
        deps_of_parse(&parsed, source, language)
    }

    /// Extract the full Python payload: imports, definitions and calls.
    pub fn extract_python_ast(&self, source: &str, module_name: Option<&str>) -> (d:
        AstDependencies)
        ensures
            exists|parsed: Option<SyntaxTree>|
                syntax::is_parse_of(parsed, Grammar::Python, source@) && #[trigger] d.reads_parse(
                    parsed,
                    ast_deps::str_option(module_name),
                ),
    {
        extract_python_deps_with_module(source, module_name)
    }

    /// Extract Ansible-style path references from YAML content. They are
    /// resolved by path, like those of [`extract_reference_paths`]. A parse
    /// that does not end in time gives none.
    pub fn extract_yaml_deps(&self, source: &str) -> (paths: Vec<String>)
        ensures
            exists|parsed: Option<SyntaxTree>|
                syntax::is_parse_of(parsed, Grammar::Yaml, source@) && text::views(paths@)
                    == #[trigger] yaml_given(parsed),
    {
        let parsed: Option<SyntaxTree> = parse(Grammar::Yaml, source);
        yaml_deps_of_parse(&parsed)
    }
}

// ---------------------------------------------------------------------------
// What is sourced
// ---------------------------------------------------------------------------

/// Whether node `c` can be the argument of a shell command.
pub open spec fn is_shell_word(t: SyntaxTree, c: int) -> bool {
    let kind = syntax::kind_of(t, c);
    ||| kind == "word"@
    ||| kind == "string"@
    ||| kind == "raw_string"@
    ||| kind == "ansi_c_string"@
    ||| kind == "concatenation"@
}

/// Whether node `i` is a command that sources a file: its name is `source` or
/// `.`, and the `b`th child is its first argument.
pub open spec fn is_source_command(t: SyntaxTree, i: int, b: int) -> bool {
    let nodes = syntax::children(t, i);
    &&& syntax::kind_of(t, i) == "command"@
    &&& exists|a: int|
        0 <= a < nodes.len() && is_source_name(t, #[trigger] nodes[a]) && forall|x: int|
            a < x < nodes.len() ==> syntax::kind_of(t, #[trigger] nodes[x]) != "command_name"@
    &&& 0 <= b < nodes.len()
    &&& is_shell_word(t, nodes[b])
    &&& forall|x: int| 0 <= x < b ==> !is_shell_word(t, #[trigger] nodes[x])
}

/// Whether node `c` is the name of a command that sources.
pub open spec fn is_source_name(t: SyntaxTree, c: int) -> bool {
    syntax::kind_of(t, c) == "command_name"@ && (syntax::node_text(t, c) == "source"@
        || syntax::node_text(t, c) == "."@)
}

/// The name of a command is the last one in it.
proof fn lemma_command_name(t: SyntaxTree, nodes: Seq<int>, a: int, n: int)
    requires
        0 <= a < n <= nodes.len(),
        syntax::kind_of(t, nodes[a]) == "command_name"@,
        forall|x: int|
            a < x < nodes.len() ==> syntax::kind_of(t, #[trigger] nodes[x]) != "command_name"@,
    ensures
        command_name(t, nodes, n) == syntax::node_text(t, nodes[a]),
    decreases n,
{
    if a < n - 1 {
        assert(syntax::kind_of(t, nodes[n - 1]) != "command_name"@);
        lemma_command_name(t, nodes, a, n - 1);
    }
}

/// A command with a name has a node for it.
proof fn lemma_named_command(t: SyntaxTree, nodes: Seq<int>, n: int) -> (a: int)
    requires
        0 <= n <= nodes.len(),
        command_name(t, nodes, n).len() > 0,
    ensures
        0 <= a < n,
        syntax::kind_of(t, nodes[a]) == "command_name"@,
        syntax::node_text(t, nodes[a]) == command_name(t, nodes, n),
        forall|x: int| a < x < n ==> syntax::kind_of(t, #[trigger] nodes[x]) != "command_name"@,
    decreases n,
{
    if syntax::kind_of(t, nodes[n - 1]) == "command_name"@ {
        n - 1
    } else {
        lemma_named_command(t, nodes, n - 1)
    }
}

/// The first argument of a command.
proof fn lemma_first_argument(t: SyntaxTree, nodes: Seq<int>, b: int, k: int)
    requires
        0 <= k <= b < nodes.len(),
        is_shell_word(t, nodes[b]),
        forall|x: int| 0 <= x < b ==> !is_shell_word(t, #[trigger] nodes[x]),
    ensures
        first_argument(t, nodes, k) == Some(argument_text(t, nodes[b])),
    decreases b - k,
{
    if k < b {
        assert(!is_shell_word(t, nodes[k]));
        lemma_first_argument(t, nodes, b, k + 1);
    }
}

/// An argument of a command has a node.
proof fn lemma_argument_node(t: SyntaxTree, nodes: Seq<int>, k: int) -> (b: int)
    requires
        0 <= k <= nodes.len(),
        first_argument(t, nodes, k) is Some,
        forall|x: int| 0 <= x < k ==> !is_shell_word(t, #[trigger] nodes[x]),
    ensures
        k <= b < nodes.len(),
        is_shell_word(t, nodes[b]),
        first_argument(t, nodes, k) == Some(argument_text(t, nodes[b])),
        forall|x: int| 0 <= x < b ==> !is_shell_word(t, #[trigger] nodes[x]),
    decreases nodes.len() - k,
{
    if is_shell_word(t, nodes[k]) {
        k
    } else {
        lemma_argument_node(t, nodes, k + 1)
    }
}

/// What one command sources.
proof fn lemma_sourced_at(t: SyntaxTree, i: int)
    ensures
        match sourced_at(t, i) {
            Some(path) => exists|b: int| #[trigger]
                is_source_command(t, i, b) && argument_text(t, syntax::children(t, i)[b]) == path
                    && path.len() > 0 && !path.contains('/'),
            None => forall|b: int| #[trigger]
                is_source_command(t, i, b) ==> {
                    let path = argument_text(t, syntax::children(t, i)[b]);
                    path.len() == 0 || path.contains('/')
                },
        },
        forall|b: int| #[trigger]
            is_source_command(t, i, b) && sourced_at(t, i) is Some ==> sourced_at(t, i) == Some(
                argument_text(t, syntax::children(t, i)[b]),
            ),
{
    let nodes = syntax::children(t, i);
    let n = nodes.len() as int;
    assert forall|b: int| #[trigger] is_source_command(t, i, b) implies (sourced_at(t, i) is Some
        ==> sourced_at(t, i) == Some(argument_text(t, nodes[b]))) && (sourced_at(t, i) is None
        ==> argument_text(t, nodes[b]).len() == 0 || argument_text(t, nodes[b]).contains('/')) by {
        let a = choose|a: int|
            0 <= a < nodes.len() && is_source_name(t, #[trigger] nodes[a]) && forall|x: int|
                a < x < nodes.len() ==> syntax::kind_of(t, #[trigger] nodes[x]) != "command_name"@;
        lemma_command_name(t, nodes, a, n);
        lemma_first_argument(t, nodes, b, 0);
    }
    if sourced_at(t, i) is Some {
        reveal_strlit("source");
        reveal_strlit(".");
        let a = lemma_named_command(t, nodes, n);
        let b = lemma_argument_node(t, nodes, 0);
        assert(is_source_name(t, nodes[a]));
        assert(is_source_command(t, i, b));
    }
}

/// A shell script depends on exactly the files that its commands `source` and
/// `.` name without a separator.
pub proof fn law_what_is_sourced_by_name_is_a_dependency(t: SyntaxTree, n: int, path: Seq<char>)
    requires
        0 <= n <= t.rows@.len(),
    ensures
        sourced_in(t, n).contains(path) <==> path.len() > 0 && !path.contains('/') && exists|
            i: int,
            b: int,
        |
            0 <= i < n && #[trigger] is_source_command(t, i, b) && argument_text(
                t,
                syntax::children(t, i)[b],
            ) == path,
    decreases n,
{
    if n > 0 {
        law_what_is_sourced_by_name_is_a_dependency(t, n - 1, path);
        lemma_sourced_at(t, n - 1);
        let before = sourced_in(t, n - 1);
        match sourced_at(t, n - 1) {
            Some(p) => {
                text::lemma_push_contains(before, p, path);
            },
            None => {},
        }
    }
}

/// An argument stands for what its quotes hold.
pub proof fn law_quotes_are_no_part_of_an_argument(t: SyntaxTree, c: int, word: Seq<char>)
    requires
        word.len() > 0,
        word[0] != '"' && word[0] != '\'',
        word.last() != '"' && word.last() != '\'',
        ({
            let raw = syntax::node_text(t, c);
            raw == word || raw == "\""@ + word + "\""@ || raw == "'"@ + word + "'"@
        }),
    ensures
        argument_text(t, c) == word,
{
    reveal_strlit("\"");
    reveal_strlit("'");
    lemma_strip_nothing(word, "\""@);
    lemma_strip_nothing(word, "'"@);
    lemma_strip_pair(word, "\""@);
    lemma_strip_pair(word, "'"@);
    let single = "'"@ + word + "'"@;
    assert(single[0] == '\'' && single.last() == '\'');
    lemma_strip_nothing(single, "\""@);
}

/// A text without marks at its ends stays as it is.
proof fn lemma_strip_nothing(word: Seq<char>, marks: Seq<char>)
    requires
        word.len() > 0,
        marks.len() == 1,
        word[0] != marks[0],
        word.last() != marks[0],
    ensures
        text::strip_marks(word, marks) == word,
{
    let drop = text::in_marks(marks);
    assert(!drop(word[0]));
    assert(!drop(word.last()));
}

/// One mark at both ends is taken off.
proof fn lemma_strip_pair(word: Seq<char>, marks: Seq<char>)
    requires
        word.len() > 0,
        marks.len() == 1,
        word[0] != marks[0],
        word.last() != marks[0],
    ensures
        text::strip_marks(marks + word + marks, marks) == word,
{
    let drop = text::in_marks(marks);
    let all = marks + word + marks;
    let tail = word + marks;
    assert(marks.contains(marks[0]));
    assert(drop(all[0]));
    assert(all.drop_first() =~= tail);
    assert(tail[0] == word[0]);
    assert(!drop(tail[0]));
    assert(text::strip_leading(tail, drop) == tail);
    assert(text::strip_leading(all, drop) == tail);
    assert(drop(tail.last()));
    assert(tail.drop_last() =~= word);
    assert(!drop(word.last()));
    assert(text::strip_trailing(word, drop) == word);
    assert(text::strip_trailing(tail, drop) == word);
}

// ---------------------------------------------------------------------------
// Which grammar reads what
// ---------------------------------------------------------------------------

/// The names of languages and grammar keys are different ones.
proof fn lemma_language_names()
    ensures
        "shell"@ != "python"@,
        "shell"@ != "json"@,
        "shell"@ != "yaml"@,
        "python"@ != "json"@,
        "python"@ != "yaml"@,
        "bash"@ != "python"@,
        "bash"@ != "json"@,
        "bash"@ != "yaml"@,
        "bash"@ != "unknown"@,
        "json"@ != "yaml"@,
        "python"@ != "unknown"@,
{
    reveal_strlit("shell");
    reveal_strlit("python");
    reveal_strlit("json");
    reveal_strlit("yaml");
    reveal_strlit("bash");
    reveal_strlit("unknown");
    assert("shell"@.len() == 5);
    assert("python"@.len() == 6);
    assert("json"@[0] == 'j' && "json"@.len() == 4);
    assert("yaml"@[0] == 'y' && "yaml"@.len() == 4);
    assert("bash"@[0] == 'b' && "bash"@.len() == 4);
    assert("unknown"@.len() == 7);
}

/// The dependencies of a Python source are its imports, and those of a shell
/// script what it sources; without a tree they are what the patterns find. No
/// other language has any.
pub proof fn law_dependencies_are_read_by_language(
    t: SyntaxTree,
    source: Seq<char>,
    lower: Seq<char>,
)
    ensures
        deps_given(Some(t), source, lang_key("python"@)) == ast_deps::source_imports(t),
        deps_given(Some(t), source, lang_key("shell"@)) == sourced_in(t, t.rows@.len() as int),
        deps_given(None, source, lang_key(lower)) == fallback_deps(source, lang_key(lower)),
        lower != "python"@ && lower != "shell"@ ==> deps_given(Some(t), source, lang_key(lower))
            == Seq::<Seq<char>>::empty() && deps_given(None, source, lang_key(lower)) == Seq::<
            Seq<char>,
        >::empty(),
        key_grammar(lang_key("python"@)) == Some(Grammar::Python),
        key_grammar(lang_key("shell"@)) == Some(Grammar::Bash),
        lower != "python"@ && lower != "shell"@ ==> key_grammar(lang_key(lower)) is None,
        grammar_for("python"@) == Some(Grammar::Python),
        grammar_for("yaml"@) == Some(Grammar::Yaml),
{
    lemma_language_names();
}

/// What a pattern captures without a separator is a dependency.
proof fn lemma_captured_kept(
    list: Seq<Seq<char>>,
    found: Seq<Seq<Option<Seq<char>>>>,
    n: int,
    dep: Seq<char>,
)
    requires
        0 <= n <= found.len(),
    ensures
        with_captured(list, found, n).contains(dep) <==> list.contains(dep) || dep.len() > 0
            && !dep.contains('/') && exists|k: int|
            0 <= k < n && is_captured(#[trigger] found[k], dep),
    decreases n,
{
    if n > 0 {
        lemma_captured_kept(list, found, n - 1, dep);
        let before = with_captured(list, found, n - 1);
        match captured_dep(found[n - 1]) {
            Some(x) => {
                text::lemma_push_contains(before, x, dep);
                assert(is_captured(found[n - 1], x));
            },
            None => {},
        }
    }
}

/// Whether the first group of a match is `dep`, white space around it aside.
pub open spec fn is_captured(groups: Seq<Option<Seq<char>>>, dep: Seq<char>) -> bool {
    groups.len() > 1 && groups[1] is Some && text::trim(groups[1].unwrap()) == dep
}

/// Without a tree, the dependencies of a Python source are exactly what its
/// `import` and `from` lines capture, and those of a shell script what its
/// `source` lines do, as far as these are names without a separator.
pub proof fn law_patterns_find_every_captured_name(source: Seq<char>, dep: Seq<char>)
    ensures
        fallback_deps(source, lang_key("python"@)).contains(dep) <==> dep.len() > 0
            && !dep.contains('/') && ({
            let imports = patterns::regex_captures_iter(r"(?m)^\s*import\s+([\w.]+)"@, source);
            let froms = patterns::regex_captures_iter(r"(?m)^\s*from\s+([\w.]+)\s+import"@, source);
            ||| exists|k: int| 0 <= k < imports.len() && is_captured(#[trigger] imports[k], dep)
            ||| exists|k: int| 0 <= k < froms.len() && is_captured(#[trigger] froms[k], dep)
        }),
        fallback_deps(source, lang_key("shell"@)).contains(dep) <==> dep.len() > 0 && !dep.contains(
            '/',
        ) && ({
            let sources = patterns::regex_captures_iter("(?m)^\\s*(?:source|\\.)\\s+[\"']?([^\\s\"';]+)[\"']?"@, source);
            exists|k: int| 0 <= k < sources.len() && is_captured(#[trigger] sources[k], dep)
        }),
{
    lemma_language_names();
    let imports = patterns::regex_captures_iter(PYTHON_IMPORT_PATTERN@, source);
    let froms = patterns::regex_captures_iter(PYTHON_FROM_PATTERN@, source);
    let sources = patterns::regex_captures_iter(BASH_SOURCE_PATTERN@, source);
    let none = Seq::<Seq<char>>::empty();
    assert(!none.contains(dep));
    lemma_captured_kept(none, imports, imports.len() as int, dep);
    lemma_captured_kept(
        with_captured(none, imports, imports.len() as int),
        froms,
        froms.len() as int,
        dep,
    );
    lemma_captured_kept(none, sources, sources.len() as int, dep);
}

// ---------------------------------------------------------------------------
// What is mentioned
// ---------------------------------------------------------------------------

/// Whether a match in `line` ends its token: at the end of the line, or before
/// anything but `.`, `~` and `-`.
pub open spec fn ends_token(line: Seq<char>, end: int) -> bool {
    let bytes = encode_utf8(line);
    end >= bytes.len() || (bytes[end] != 46u8 && bytes[end] != 126u8 && bytes[end] != 45u8)
}

/// The paths among the first matches in a line.
proof fn lemma_references_in(line: Seq<char>, spans: Seq<(usize, usize)>, n: int, path: Seq<char>)
    requires
        0 <= n <= spans.len(),
    ensures
        references_in(line, spans, n).contains(path) <==> path.contains('/') && exists|k: int|
            0 <= k < n && ends_token(line, (#[trigger] spans[k]).1 as int) && path
                == text::replace_char(
                text::byte_slice(line, spans[k].0 as int, spans[k].1 as int),
                '\\',
                '/',
            ),
    decreases n,
{
    if n > 0 {
        lemma_references_in(line, spans, n - 1, path);
        let before = references_in(line, spans, n - 1);
        match reference_at(line, spans[n - 1]) {
            Some(p) => {
                text::lemma_push_contains(before, p, path);
            },
            None => {},
        }
    }
}

/// A text mentions exactly the paths that the pattern of paths matches in one
/// of its lines, where they end their token and have a separator: slashes stand
/// for backslashes.
pub proof fn law_every_matched_path_is_mentioned(content: Seq<char>, path: Seq<char>)
    ensures
        ({
            let lines = text::split_char(content, '\n');
            mentioned_paths(content).contains(path) <==> path.contains('/') && exists|
                i: int,
                k: int,
            |
                0 <= i < lines.len() && #[trigger] is_match_of(lines[i], k, path)
        }),
{
    let lines = text::split_char(content, '\n');
    lemma_mentioned_in(lines, lines.len() as int, path);
}

/// Whether the `k`th match of the pattern of paths in a line is `path`.
pub open spec fn is_match_of(line: Seq<char>, k: int, path: Seq<char>) -> bool {
    let spans = patterns::regex_find_iter(r"[\w./\\-]+\.(?:py|sh|bash|ksh|ya?ml)\b"@, line);
    &&& 0 <= k < spans.len()
    &&& ends_token(line, spans[k].1 as int)
    &&& path == text::replace_char(
        text::byte_slice(line, spans[k].0 as int, spans[k].1 as int),
        '\\',
        '/',
    )
}

/// The paths that the first lines mention.
proof fn lemma_mentioned_in(lines: Seq<Seq<char>>, n: int, path: Seq<char>)
    requires
        0 <= n <= lines.len(),
    ensures
        references_of(lines, n).contains(path) <==> path.contains('/') && exists|i: int, k: int|
            0 <= i < n && #[trigger] is_match_of(lines[i], k, path),
    decreases n,
{
    if n > 0 {
        lemma_mentioned_in(lines, n - 1, path);
        let line = lines[n - 1];
        let spans = patterns::regex_find_iter(REFERENCE_PATH_PATTERN@, line);
        lemma_references_in(line, spans, spans.len() as int, path);
        text::lemma_with_texts_contains(references_of(lines, n - 1), line_references(line), path);
        if line_references(line).contains(path) {
            let k = choose|k: int|
                0 <= k < spans.len() && ends_token(line, (#[trigger] spans[k]).1 as int) && path
                    == text::replace_char(
                    text::byte_slice(line, spans[k].0 as int, spans[k].1 as int),
                    '\\',
                    '/',
                );
            assert(is_match_of(lines[n - 1], k, path));
        }
        if path.contains('/') && exists|i: int, k: int|
            0 <= i < n && #[trigger] is_match_of(lines[i], k, path) {
            let (i, k) = choose|i: int, k: int|
                0 <= i < n && #[trigger] is_match_of(lines[i], k, path);
            if i == n - 1 {
                let own = patterns::regex_find_iter(REFERENCE_PATH_PATTERN@, lines[i]);
                assert(ends_token(line, spans[k].1 as int));
                assert(line_references(line).contains(path));
            } else {
                assert(is_match_of(lines[i], k, path));
            }
        }
    }
}

// ---------------------------------------------------------------------------
// What an Ansible file refers to
// ---------------------------------------------------------------------------

/// Whether a key refers to files, whatever its entries look like.
pub open spec fn takes_any_entry(name: Seq<char>) -> bool {
    ||| name == "import_playbook"@
    ||| name == "vars_files"@
    ||| name == "include_tasks"@
    ||| name == "import_tasks"@
    ||| name == "include_vars"@
}

/// Whether a key refers to files only where its entries are paths.
pub open spec fn takes_paths(name: Seq<char>) -> bool {
    name == "include_role"@ || name == "roles"@
}

/// The field that carries the reference in an entry that is a mapping.
pub open spec fn carrying_field(name: Seq<char>) -> Option<Seq<char>> {
    if name == "include_tasks"@ || name == "import_tasks"@ || name == "include_vars"@ {
        Some("file"@)
    } else if name == "include_role"@ {
        Some("name"@)
    } else if name == "roles"@ {
        Some("role"@)
    } else {
        None
    }
}

/// The names of keys are different ones.
proof fn lemma_key_names()
    ensures
        "import_playbook"@ != "include_tasks"@,
        "import_playbook"@ != "import_tasks"@,
        "import_playbook"@ != "include_vars"@,
        "import_playbook"@ != "include_role"@,
        "import_playbook"@ != "roles"@,
        "vars_files"@ != "include_tasks"@,
        "vars_files"@ != "import_tasks"@,
        "vars_files"@ != "include_vars"@,
        "vars_files"@ != "include_role"@,
        "vars_files"@ != "roles"@,
        "include_tasks"@ != "include_role"@,
        "include_tasks"@ != "roles"@,
        "import_tasks"@ != "include_role"@,
        "import_tasks"@ != "roles"@,
        "include_vars"@ != "include_role"@,
        "include_vars"@ != "roles"@,
        "include_role"@ != "roles"@,
{
    reveal_strlit("import_playbook");
    reveal_strlit("vars_files");
    reveal_strlit("include_tasks");
    reveal_strlit("import_tasks");
    reveal_strlit("include_vars");
    reveal_strlit("include_role");
    reveal_strlit("roles");
    assert("import_playbook"@.len() == 15);
    assert("vars_files"@.len() == 10);
    assert("include_tasks"@.len() == 13);
    assert("import_tasks"@.len() == 12 && "import_tasks"@[1] == 'm');
    assert("include_vars"@.len() == 12 && "include_vars"@[8] == 'v');
    assert("include_role"@.len() == 12 && "include_role"@[8] == 'r' && "include_role"@[1] == 'n');
    assert("roles"@.len() == 5);
}

/// How the value of a key is read: with or without a module before its name,
/// by the name alone.
pub proof fn law_keys_are_read_without_their_module(module: Seq<char>, name: Seq<char>)
    requires
        !name.contains('.'),
    ensures
        bare_key(name) == name,
        bare_key(module + "."@ + name) == name,
        takes_any_entry(name) ==> key_rule(name) == Some((false, carrying_field(name))),
        takes_paths(name) ==> key_rule(name) == Some((true, carrying_field(name))),
        !takes_any_entry(name) && !takes_paths(name) ==> key_rule(name) is None,
{
    reveal_strlit(".");
    lemma_key_names();
    assert forall|j: int| 0 <= j < name.len() implies name[j] != '.' by {
        if name[j] == '.' {
            assert(name.contains('.'));
        }
    }
    text::lemma_rfind_char_is(name, '.', -1);
    assert(name.skip(0) =~= name);
    let all = module + "."@ + name;
    text::lemma_rfind_char_is(all, '.', module.len() as int);
    assert(all.skip(module.len() as int + 1) =~= name);
}

/// What a walk meets in one of the nodes that a node leads to, it meets below
/// that node.
proof fn lemma_visited_below<T>(
    len: int,
    own: spec_fn(int) -> Seq<T>,
    next: spec_fn(int) -> Seq<int>,
    i: int,
    n: int,
    m: int,
    x: T,
)
    requires
        0 <= m < n <= next(i).len(),
        i < next(i)[m] < len,
        walk::visit(len, own, next, next(i)[m]).contains(x),
    ensures
        walk::visit_below(len, own, next, i, n).contains(x),
    decreases n,
{
    let c = next(i)[n - 1];
    let met = if i < c < len {
        own(c) + walk::visit_below(len, own, next, c, next(c).len() as int)
    } else {
        seq![]
    };
    let before = walk::visit_below(len, own, next, i, n - 1);
    ast_deps::lemma_in_either(met, before, x);
    if m < n - 1 {
        lemma_visited_below(len, own, next, i, n - 1, m, x);
    }
}

/// What the last node of a way gives, a walk from the first one meets.
proof fn lemma_visited<T>(
    len: int,
    own: spec_fn(int) -> Seq<T>,
    next: spec_fn(int) -> Seq<int>,
    way: Seq<int>,
    x: T,
)
    requires
        way.len() > 0,
        forall|k: int|
            #![trigger way[k]]
            0 <= k < way.len() - 1 ==> next(way[k]).contains(way[k + 1]) && way[k] < way[k + 1]
                < len,
        own(way.last()).contains(x),
    ensures
        walk::visit(len, own, next, way[0]).contains(x),
    decreases way.len(),
{
    let i = way[0];
    let n = next(i).len() as int;
    ast_deps::lemma_in_either(own(i), walk::visit_below(len, own, next, i, n), x);
    if way.len() > 1 {
        let rest = way.drop_first();
        assert forall|k: int| #![trigger rest[k]] 0 <= k < rest.len() - 1 implies next(
            rest[k],
        ).contains(rest[k + 1]) && rest[k] < rest[k + 1] < len by {
            assert(rest[k] == way[k + 1]);
            assert(rest[k + 1] == way[k + 1 + 1]);
        }
        assert(rest.last() == way.last());
        lemma_visited(len, own, next, rest, x);
        assert(next(way[0]).contains(way[0int + 1]));
        let nodes = next(i);
        let m = choose|m: int| 0 <= m < nodes.len() && nodes[m] == way[1];
        lemma_visited_below(len, own, next, i, n, m, x);
    }
}

/// What a walk meets below a node, one of the nodes gives.
proof fn lemma_met_below<T>(
    len: int,
    own: spec_fn(int) -> Seq<T>,
    next: spec_fn(int) -> Seq<int>,
    i: int,
    n: int,
    x: T,
) -> (c: int)
    requires
        walk::visit_below(len, own, next, i, n).contains(x),
    ensures
        i < c < len,
        own(c).contains(x),
    decreases len - i, n,
{
    let c = next(i)[n - 1];
    let before = walk::visit_below(len, own, next, i, n - 1);
    let below = walk::visit_below(len, own, next, c, next(c).len() as int);
    let met = if i < c < len {
        own(c) + below
    } else {
        seq![]
    };
    ast_deps::lemma_in_either(met, before, x);
    ast_deps::lemma_in_either(own(c), below, x);
    if before.contains(x) {
        lemma_met_below(len, own, next, i, n - 1, x)
    } else if own(c).contains(x) {
        c
    } else {
        lemma_met_below(len, own, next, c, next(c).len() as int, x)
    }
}

/// What a walk meets, one of its nodes gives.
proof fn lemma_met<T>(
    len: int,
    own: spec_fn(int) -> Seq<T>,
    next: spec_fn(int) -> Seq<int>,
    i: int,
    x: T,
) -> (c: int)
    requires
        i < len,
        walk::visit(len, own, next, i).contains(x),
    ensures
        i <= c < len,
        own(c).contains(x),
{
    let n = next(i).len() as int;
    ast_deps::lemma_in_either(own(i), walk::visit_below(len, own, next, i, n), x);
    if own(i).contains(x) {
        i
    } else {
        lemma_met_below(len, own, next, i, n, x)
    }
}

/// Whether each node of a way is a named child of the one before it.
pub open spec fn is_way_down(t: SyntaxTree, way: Seq<int>) -> bool {
    &&& way.len() > 0
    &&& forall|k: int|
        #![trigger way[k]]
        0 <= k < way.len() - 1 ==> syntax::named_children(t, way[k]).contains(way[k + 1]) && way[k]
            < way[k + 1] < t.rows@.len()
}

/// Whether `b` is an entry in the list or the wrapper at node `a`, or the value
/// of `field` in the mapping at node `a`.
pub open spec fn is_entry(t: SyntaxTree, a: int, b: int, field: Option<Seq<char>>) -> bool {
    let kind = syntax::kind_of(t, a);
    if kind == "flow_node"@ || kind == "block_node"@ || kind == "block_sequence"@ || kind
        == "block_sequence_item"@ || kind == "flow_sequence"@ {
        syntax::named_children(t, a).contains(b) && syntax::kind_of(t, b) != "anchor"@
            && syntax::kind_of(t, b) != "tag"@
    } else {
        &&& kind == "block_mapping"@ || kind == "flow_mapping"@
        &&& field is Some
        &&& exists|k: int|
            0 <= k < syntax::named_children(t, a).len() && is_value_of(
                t,
                #[trigger] syntax::named_children(t, a)[k],
                field.unwrap(),
                b,
            )
    }
}

/// Whether node `p` is the entry of a mapping with the given key and value.
pub open spec fn is_value_of(t: SyntaxTree, p: int, key: Seq<char>, value: int) -> bool {
    &&& syntax::kind_of(t, p) == "block_mapping_pair"@ || syntax::kind_of(t, p) == "flow_pair"@
    &&& syntax::field_child(t, p, "value"@) == Some(value)
    &&& syntax::field_child(t, p, "key"@) is Some
    &&& first_scalar(t, syntax::field_child(t, p, "key"@).unwrap()) == Some(key)
}

/// Whether each node of a way is an entry of the one before it.
pub open spec fn is_way_to_entry(t: SyntaxTree, way: Seq<int>, field: Option<Seq<char>>) -> bool {
    &&& way.len() > 0
    &&& forall|k: int|
        #![trigger way[k]]
        0 <= k < way.len() - 1 ==> is_entry(t, way[k], way[k + 1], field) && way[k] < way[k + 1]
            < t.rows@.len()
}

/// Whether the scalar at node `i` is `text`, its quotes aside.
pub open spec fn is_scalar(t: SyntaxTree, i: int, scalar: Seq<char>) -> bool {
    let kind = syntax::kind_of(t, i);
    let raw = syntax::node_text(t, i);
    ||| (kind == "plain_scalar"@ || kind == "block_scalar"@) && raw == scalar
    ||| (kind == "single_quote_scalar"@ || kind == "double_quote_scalar"@) && text::strip_marks(
        raw,
        "'\""@,
    ) == scalar
}

/// The kinds of scalars with and without quotes are different ones.
proof fn lemma_scalar_kinds()
    ensures
        "plain_scalar"@ != "single_quote_scalar"@,
        "plain_scalar"@ != "double_quote_scalar"@,
        "block_scalar"@ != "single_quote_scalar"@,
        "block_scalar"@ != "double_quote_scalar"@,
{
    reveal_strlit("plain_scalar");
    reveal_strlit("block_scalar");
    reveal_strlit("single_quote_scalar");
    reveal_strlit("double_quote_scalar");
    assert("plain_scalar"@.len() == 12);
    assert("block_scalar"@.len() == 12);
    assert("single_quote_scalar"@.len() == 19);
    assert("double_quote_scalar"@.len() == 19);
}

/// What a scalar is read as.
proof fn lemma_scalar(t: SyntaxTree, i: int, scalar: Seq<char>)
    ensures
        is_scalar(t, i, scalar) <==> leaf_scalar(t, i) == Some(scalar),
{
    lemma_scalar_kinds();
}

/// A value among the entries of a mapping is found.
proof fn lemma_value_found(t: SyntaxTree, nodes: Seq<int>, n: int, k: int, field: Seq<char>, v: int)
    requires
        0 <= k < n <= nodes.len(),
        is_value_of(t, nodes[k], field, v),
    ensures
        values_of(t, nodes, n, field).contains(v),
    decreases n,
{
    let before = values_of(t, nodes, n - 1, field);
    if k == n - 1 {
        assert(before.push(v)[before.len() as int] == v);
    } else {
        lemma_value_found(t, nodes, n - 1, k, field, v);
        match value_of(t, nodes[n - 1], field) {
            Some(x) => {
                text::lemma_push_contains(before, x, v);
            },
            None => {},
        }
    }
}

/// An entry is a node in which a reference may stand.
proof fn lemma_entry(t: SyntaxTree, a: int, b: int, rule: (bool, Option<Seq<char>>))
    requires
        is_entry(t, a, b, rule.1),
    ensures
        scalar_next(t, rule)(a).contains(b),
{
    let nodes = syntax::named_children(t, a);
    if is_wrapper(t, a) {
        let k = choose|k: int| 0 <= k < nodes.len() && nodes[k] == b;
        nodes.lemma_filter_contains(is_content(t), k);
    } else {
        let k = choose|k: int|
            0 <= k < nodes.len() && is_value_of(
                t,
                #[trigger] syntax::named_children(t, a)[k],
                rule.1.unwrap(),
                b,
            );
        lemma_value_found(t, nodes, nodes.len() as int, k, rule.1.unwrap(), b);
    }
}

/// A file that an entry of one of the Ansible keys names is a reference,
/// wherever the key stands in the document and whatever module stands before
/// it: a scalar, one in a list, or the field of a mapping that carries it. Of
/// roles only paths are.
pub proof fn law_ansible_keys_refer_to_files(
    t: SyntaxTree,
    way: Seq<int>,
    key: int,
    module: Seq<char>,
    name: Seq<char>,
    entries: Seq<int>,
    file: Seq<char>,
)
    requires
        is_way_down(t, way),
        way[0] == 0,
        t.rows@.len() > 0,
        syntax::kind_of(t, way.last()) == "block_mapping_pair"@ || syntax::kind_of(t, way.last())
            == "flow_pair"@,
        syntax::field_child(t, way.last(), "key"@) == Some(key),
        first_scalar(t, key) == Some(name) || first_scalar(t, key) == Some(module + "."@ + name),
        !name.contains('.'),
        is_way_to_entry(t, entries, carrying_field(name)),
        syntax::field_child(t, way.last(), "value"@) == Some(entries[0]),
        is_scalar(t, entries.last(), file),
        file.len() > 0,
        takes_any_entry(name) || takes_paths(name) && file.contains('/'),
    ensures
        yaml_references(t).contains(file),
{
    let len = t.rows@.len() as int;
    law_keys_are_read_without_their_module(module, name);
    let rule = key_rule(name).unwrap();
    let own = scalar_own(t, rule);
    let next = scalar_next(t, rule);
    lemma_scalar(t, entries.last(), file);
    assert(own(entries.last()) =~= seq![file]);
    assert(own(entries.last())[0] == file);
    assert forall|k: int| #![trigger entries[k]] 0 <= k < entries.len() - 1 implies next(
        entries[k],
    ).contains(entries[k + 1]) && entries[k] < entries[k + 1] < len by {
        lemma_entry(t, entries[k], entries[k + 1], rule);
    }
    lemma_visited(len, own, next, entries, file);
    let p = way.last();
    assert(pair_references(t)(p) == value_references(t, entries[0], rule));
    assert forall|k: int| #![trigger way[k]] 0 <= k < way.len() - 1 implies all_named(t)(
        way[k],
    ).contains(way[k + 1]) && way[k] < way[k + 1] < len by {}
    lemma_visited(len, pair_references(t), all_named(t), way, file);
    text::lemma_unique_texts(walk::visit(len, pair_references(t), all_named(t), 0));
}

/// Nothing else is a reference: each is a scalar in the document, and some
/// Ansible key leads to it; where the key takes only paths it is one.
pub proof fn law_only_ansible_keys_refer_to_files(t: SyntaxTree, file: Seq<char>)
    requires
        yaml_references(t).contains(file),
    ensures
        file.len() > 0,
        exists|i: int| 0 <= i < t.rows@.len() && #[trigger] is_scalar(t, i, file),
        exists|p: int|
            0 <= p < t.rows@.len() && (#[trigger] syntax::kind_of(t, p) == "block_mapping_pair"@
                || syntax::kind_of(t, p) == "flow_pair"@) && {
                let key = syntax::field_child(t, p, "key"@);
                &&& key is Some
                &&& first_scalar(t, key.unwrap()) is Some
                &&& {
                    let name = bare_key(first_scalar(t, key.unwrap()).unwrap());
                    takes_any_entry(name) || takes_paths(name) && file.contains('/')
                }
            },
{
    let len = t.rows@.len() as int;
    if len > 0 {
        lemma_key_names();
        text::lemma_unique_texts(walk::visit(len, pair_references(t), all_named(t), 0));
        let p = lemma_met(len, pair_references(t), all_named(t), 0, file);
        let key = syntax::field_child(t, p, "key"@).unwrap();
        let value = syntax::field_child(t, p, "value"@).unwrap();
        let name = bare_key(first_scalar(t, key).unwrap());
        let rule = key_rule(name).unwrap();
        assert(value_references(t, value, rule).contains(file));
        syntax::lemma_field_child_row(t, p, "value"@);
        let i = lemma_met(len, scalar_own(t, rule), scalar_next(t, rule), value, file);
        lemma_scalar(t, i, file);
        assert(is_scalar(t, i, file));
        assert(syntax::kind_of(t, p) == syntax::kind_of(t, p));
    }
}

/// The text of a key is that of its scalar: the key itself, or the one named
/// node in it.
pub proof fn law_keys_are_read_from_their_scalar(t: SyntaxTree, key: int, c: int, name: Seq<char>)
    requires
        0 <= key < t.rows@.len(),
        is_scalar(t, c, name),
        c == key || leaf_scalar(t, key) is None && syntax::named_children(t, key) == seq![c] && key
            < c < t.rows@.len(),
    ensures
        first_scalar(t, key) == Some(name),
{
    let len = t.rows@.len() as int;
    lemma_scalar(t, c, name);
    let own = key_own(t);
    let next = all_named(t);
    assert(own(c) =~= seq![name]);
    if c != key {
        assert(own(key) =~= seq![]);
        assert(next(key) == seq![c]);
        reveal_with_fuel(walk::visit_below, 2);
        assert(walk::visit_below(len, own, next, key, 0) =~= seq![]);
        let met = walk::visit(len, own, next, key);
        assert(met =~= own(c) + walk::visit_below(len, own, next, c, next(c).len() as int));
        assert(met[0] == name);
    } else {
        assert(walk::visit(len, own, next, key)[0] == name);
    }
}

} // verus!
