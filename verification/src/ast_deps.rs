//! Imports, definitions and calls of a Python source, read off its syntax tree.

use vstd::prelude::*;
use vstd::string::StringExecFns;

use crate::syntax;
use crate::syntax::{parse, Grammar, SyntaxTree};
use crate::text;
use crate::text::{
    chars_of, contains_string, find_from, has_prefix, has_suffix, join_texts, same_text,
    slice_text, split_text, trim_bounds, trimmed,
};
use crate::text_map::TextMap;

verus! {

/// What the syntax tree of a Python file says of its dependencies and symbols.
#[derive(Debug)]
pub struct AstDependencies {
    /// Imported module paths discovered in the source.
    pub imports: Vec<String>,
    /// Bare function names discovered in the source.
    pub function_defs: Vec<String>,
    /// Function/class definitions with metadata.
    pub definitions: Vec<FunctionDefinition>,
    /// Function call edges with optional resolution.
    pub calls: Vec<FunctionCall>,
}

/// Function/class definition captured from a Python syntax tree.
#[derive(Debug)]
pub struct FunctionDefinition {
    /// Function or class name (qualified inside a class).
    pub name: String,
    /// Definition kind (`function` or `class`).
    pub kind: String,
    /// 1-based source line number.
    pub line: usize,
    /// Extracted leading docstring, if present.
    pub docstring: String,
    /// Decorators applied to the definition.
    pub decorators: Vec<String>,
}

/// Function call captured from a Python syntax tree.
#[derive(Debug)]
pub struct FunctionCall {
    /// Caller scope (`__module__` for top-level calls).
    pub caller: String,
    /// Called function expression.
    pub callee: String,
    /// 1-based source line number.
    pub line: usize,
    /// Resolved target symbol when known.
    pub resolved_target: Option<String>,
}

// ---------------------------------------------------------------------------
// Imports
// ---------------------------------------------------------------------------

/// What an import statement says: a module that is imported, or a local name
/// that stands for an imported thing.
pub enum ImportEvent {
    Import(Seq<char>),
    Bind(Seq<char>, Seq<char>),
}

/// The import list after one more name: names are trimmed, empty ones and
/// those already listed are dropped.
pub open spec fn with_import(imports: Seq<Seq<char>>, name: Seq<char>) -> Seq<Seq<char>> {
    let n = text::trim(name);
    if n.len() > 0 && !imports.contains(n) {
        imports.push(n)
    } else {
        imports
    }
}

/// The import list after the given events.
pub open spec fn imports_after(imports: Seq<Seq<char>>, events: Seq<ImportEvent>) -> Seq<Seq<char>>
    decreases events.len(),
{
    if events.len() == 0 {
        imports
    } else {
        let before = imports_after(imports, events.drop_last());
        match events.last() {
            ImportEvent::Import(name) => with_import(before, name),
            ImportEvent::Bind(_, _) => before,
        }
    }
}

/// No module is listed twice among the imports, and none without a name.
pub proof fn law_imports_are_listed_once(events: Seq<ImportEvent>)
    ensures
        imports_after(seq![], events).no_duplicates(),
        forall|i: int|
            0 <= i < imports_after(seq![], events).len() ==> (#[trigger] imports_after(
                seq![],
                events,
            )[i]).len() > 0,
    decreases events.len(),
{
    if events.len() > 0 {
        law_imports_are_listed_once(events.drop_last());
    }
}

/// The bindings after the given events: a later binding of a name replaces an
/// earlier one.
pub open spec fn bindings_after(
    bindings: Map<Seq<char>, Seq<char>>,
    events: Seq<ImportEvent>,
) -> Map<Seq<char>, Seq<char>>
    decreases events.len(),
{
    if events.len() == 0 {
        bindings
    } else {
        let before = bindings_after(bindings, events.drop_last());
        match events.last() {
            ImportEvent::Import(_) => before,
            ImportEvent::Bind(local, target) => before.insert(local, target),
        }
    }
}

/// The text before the first dot.
pub open spec fn root_of(name: Seq<char>) -> Seq<char> {
    name.take(text::find_char(name, '.'))
}

/// A name and, where there is one, the other name given to it, as far as the
/// nodes seen so far say.
pub struct Alias {
    pub name: Seq<char>,
    pub as_name: Seq<char>,
}

/// The name and alias after the first `n` of the given nodes: the first name
/// that is not empty is the imported one, the last one after it the alias.
pub open spec fn alias_in(t: SyntaxTree, nodes: Seq<int>, n: int) -> Alias
    decreases n,
{
    if n <= 0 {
        Alias { name: seq![], as_name: seq![] }
    } else {
        let before = alias_in(t, nodes, n - 1);
        let c = nodes[n - 1];
        if syntax::kind_of(t, c) == "dotted_name"@ || syntax::kind_of(t, c) == "identifier"@ {
            if before.name.len() == 0 {
                Alias { name: syntax::node_text(t, c), ..before }
            } else {
                Alias { as_name: syntax::node_text(t, c), ..before }
            }
        } else {
            before
        }
    }
}

/// The name and alias in the node `c`, an aliased import.
pub open spec fn alias_of(t: SyntaxTree, c: int) -> Alias {
    alias_in(t, syntax::children(t, c), syntax::children(t, c).len() as int)
}

/// What one child of `import a, b.c as d` says.
pub open spec fn plain_import_events(t: SyntaxTree, c: int) -> Seq<ImportEvent> {
    if syntax::kind_of(t, c) == "dotted_name"@ {
        let name = syntax::node_text(t, c);
        let import = seq![ImportEvent::Import(name)];
        if root_of(name).len() > 0 {
            import.push(ImportEvent::Bind(root_of(name), root_of(name)))
        } else {
            import
        }
    } else if syntax::kind_of(t, c) == "aliased_import"@ {
        let alias = alias_of(t, c);
        let local = if alias.as_name.len() == 0 {
            root_of(alias.name)
        } else {
            alias.as_name
        };
        if alias.name.len() == 0 {
            seq![]
        } else if local.len() == 0 {
            seq![ImportEvent::Import(alias.name)]
        } else {
            seq![ImportEvent::Import(alias.name), ImportEvent::Bind(local, alias.name)]
        }
    } else {
        seq![]
    }
}

/// What the first `n` of the given children of an `import` statement say.
pub open spec fn import_statement_events(t: SyntaxTree, nodes: Seq<int>, n: int) -> Seq<ImportEvent>
    decreases n,
{
    if n <= 0 {
        seq![]
    } else {
        import_statement_events(t, nodes, n - 1) + plain_import_events(t, nodes[n - 1])
    }
}

/// The parts of `from <dots><module> import <names>`.
pub struct FromParts {
    pub after_import: bool,
    pub dots: Seq<char>,
    pub module: Seq<char>,
    /// Imported name and local name of each.
    pub names: Seq<(Seq<char>, Seq<char>)>,
}

/// The dots and the module in the first `n` children of a relative import.
pub open spec fn relative_parts(t: SyntaxTree, nodes: Seq<int>, n: int, parts: FromParts) -> FromParts
    decreases n,
{
    if n <= 0 {
        parts
    } else {
        let before = relative_parts(t, nodes, n - 1, parts);
        let c = nodes[n - 1];
        if syntax::kind_of(t, c) == "import_prefix"@ {
            FromParts { dots: syntax::node_text(t, c), ..before }
        } else if syntax::kind_of(t, c) == "dotted_name"@ {
            FromParts { module: syntax::node_text(t, c), ..before }
        } else {
            before
        }
    }
}

/// The parts after one more child `c`.
pub open spec fn from_step(t: SyntaxTree, parts: FromParts, c: int) -> FromParts {
    let kind = syntax::kind_of(t, c);
    if kind == "import"@ {
        FromParts { after_import: true, ..parts }
    } else if kind == "relative_import"@ && !parts.after_import {
        relative_parts(t, syntax::children(t, c), syntax::children(t, c).len() as int, parts)
    } else if kind == "dotted_name"@ && !parts.after_import {
        FromParts { module: syntax::node_text(t, c), ..parts }
    } else if kind == "dotted_name"@ {
        let name = syntax::node_text(t, c);
        FromParts { names: parts.names.push((name, name)), ..parts }
    } else if kind == "aliased_import"@ && parts.after_import {
        let alias = alias_of(t, c);
        let local = if alias.as_name.len() == 0 {
            alias.name
        } else {
            alias.as_name
        };
        if alias.name.len() == 0 {
            parts
        } else {
            FromParts { names: parts.names.push((alias.name, local)), ..parts }
        }
    } else if kind == "wildcard_import"@ && parts.after_import {
        FromParts { names: parts.names.push(("*"@, "*"@)), ..parts }
    } else {
        parts
    }
}

/// The parts in the first `n` of the given children of a `from` statement.
pub open spec fn from_parts(t: SyntaxTree, nodes: Seq<int>, n: int) -> FromParts
    decreases n,
{
    if n <= 0 {
        FromParts { after_import: false, dots: seq![], module: seq![], names: seq![] }
    } else {
        from_step(t, from_parts(t, nodes, n - 1), nodes[n - 1])
    }
}

/// What `from dep import imported as local` says: the local name stands for
/// `dep.imported`; the wildcard stands for the module itself.
pub open spec fn member_event(dep: Seq<char>, name: (Seq<char>, Seq<char>)) -> ImportEvent {
    if name.0 == "*"@ {
        ImportEvent::Bind("*"@, dep)
    } else {
        ImportEvent::Bind(name.1, dep + "."@ + name.0)
    }
}

/// What `from .. import imported as local` says: each name is a module of its
/// own; a wildcard says nothing.
pub open spec fn sibling_events(dots: Seq<char>, name: (Seq<char>, Seq<char>)) -> Seq<ImportEvent> {
    if name.0 == "*"@ {
        seq![]
    } else {
        seq![ImportEvent::Import(dots + name.0), ImportEvent::Bind(name.1, dots + name.0)]
    }
}

/// `sibling_events` of the first `n` names.
pub open spec fn all_sibling_events(
    dots: Seq<char>,
    names: Seq<(Seq<char>, Seq<char>)>,
    n: int,
) -> Seq<ImportEvent>
    decreases n,
{
    if n <= 0 {
        seq![]
    } else {
        all_sibling_events(dots, names, n - 1) + sibling_events(dots, names[n - 1])
    }
}

/// What a `from` statement says.
pub open spec fn from_statement_events(parts: FromParts) -> Seq<ImportEvent> {
    if parts.module.len() > 0 {
        let dep = parts.dots + parts.module;
        seq![ImportEvent::Import(dep)] + parts.names.map_values(
            |name: (Seq<char>, Seq<char>)| member_event(dep, name),
        )
    } else if parts.dots.len() > 0 {
        all_sibling_events(parts.dots, parts.names, parts.names.len() as int)
    } else {
        seq![]
    }
}

/// What the import statement at node `i` says.
pub open spec fn statement_events(t: SyntaxTree, i: int) -> Seq<ImportEvent> {
    let nodes = syntax::children(t, i);
    if syntax::kind_of(t, i) == "import_statement"@ {
        import_statement_events(t, nodes, nodes.len() as int)
    } else {
        from_statement_events(from_parts(t, nodes, nodes.len() as int))
    }
}

/// Whether node `i` is an import statement.
pub open spec fn is_import(t: SyntaxTree, i: int) -> bool {
    syntax::kind_of(t, i) == "import_statement"@ || syntax::kind_of(t, i)
        == "import_from_statement"@
}

/// What all import statements from row `i` on say, in source order.
pub open spec fn import_events(t: SyntaxTree, i: int) -> Seq<ImportEvent>
    decreases t.rows@.len() - i,
{
    if 0 <= i < t.rows@.len() {
        if is_import(t, i) {
            statement_events(t, i) + import_events(t, syntax::next_row(t, i))
        } else {
            import_events(t, i + 1)
        }
    } else {
        seq![]
    }
}

/// One more event at the end.
proof fn lemma_event_push(
    imports: Seq<Seq<char>>,
    bindings: Map<Seq<char>, Seq<char>>,
    events: Seq<ImportEvent>,
    event: ImportEvent,
)
    ensures
        imports_after(imports, events.push(event)) == match event {
            ImportEvent::Import(name) => with_import(imports_after(imports, events), name),
            ImportEvent::Bind(_, _) => imports_after(imports, events),
        },
        bindings_after(bindings, events.push(event)) == match event {
            ImportEvent::Import(_) => bindings_after(bindings, events),
            ImportEvent::Bind(local, target) => bindings_after(bindings, events).insert(
                local,
                target,
            ),
        },
{
    assert(events.push(event).drop_last() =~= events);
}

/// Events one batch after the other.
proof fn lemma_event_add(
    imports: Seq<Seq<char>>,
    bindings: Map<Seq<char>, Seq<char>>,
    first: Seq<ImportEvent>,
    second: Seq<ImportEvent>,
)
    ensures
        imports_after(imports, first + second) == imports_after(
            imports_after(imports, first),
            second,
        ),
        bindings_after(bindings, first + second) == bindings_after(
            bindings_after(bindings, first),
            second,
        ),
    decreases second.len(),
{
    if second.len() == 0 {
        assert(first + second =~= first);
    } else {
        lemma_event_add(imports, bindings, first, second.drop_last());
        assert((first + second).drop_last() =~= first + second.drop_last());
    }
}

/// Adds an imported name to the list: trimmed, and only where it is neither
/// empty nor listed already.
pub fn add_import(name: &str, imports: &mut Vec<String>)
    ensures
        text::views(final(imports)@) == with_import(text::views(old(imports)@), name@),
{
    let name: String = trimmed(name);
    if !name.as_str().is_empty() && !contains_string(imports, name.as_str()) {
        imports.push(name);
        assert(text::views(imports@) =~= text::views(old(imports)@).push(name@));
    }
}

/// The part of `name` before its first dot.
fn name_root(name: &str) -> (root: String)
    ensures
        root@ == root_of(name@),
{
    let v: Vec<char> = chars_of(name);
    let i: usize = find_from(&v, 0, '.');
    assert(v@.skip(0) =~= v@);
    assert(v@.subrange(0, i as int) =~= v@.take(i as int));
    slice_text(&v, 0, i)
}

/// The imported name and the alias in node `c`.
fn read_alias(t: &SyntaxTree, c: usize) -> (alias: (String, String))
    requires
        c < t.rows@.len(),
    ensures
        alias.0@ == alias_of(*t, c as int).name,
        alias.1@ == alias_of(*t, c as int).as_name,
{
    let nodes: Vec<usize> = t.children(c);
    let ghost all = syntax::children(*t, c as int);
    let mut name: String = String::new();
    let mut as_name: String = String::new();
    let mut k: usize = 0;
    while k < nodes.len()
        invariant
            k <= nodes@.len(),
            all == syntax::indices(nodes@),
            forall|j: int| 0 <= j < nodes@.len() ==> #[trigger] nodes@[j] < t.rows@.len(),
            name@ == alias_in(*t, all, k as int).name,
            as_name@ == alias_in(*t, all, k as int).as_name,
        decreases nodes@.len() - k,
    {
        let n: usize = nodes[k];
        assert(all[k as int] == n as int);
        if t.is_kind(n, "dotted_name") || t.is_kind(n, "identifier") {
            if name.as_str().is_empty() {
                name = t.text(n);
            } else {
                as_name = t.text(n);
            }
        }
        k = k + 1;
    }
    (name, as_name)
}

/// Records what one child of an `import` statement says.
fn collect_plain_import(
    t: &SyntaxTree,
    c: usize,
    imports: &mut Vec<String>,
    bindings: &mut TextMap,
)
    requires
        c < t.rows@.len(),
    ensures
        text::views(final(imports)@) == imports_after(
            text::views(old(imports)@),
            plain_import_events(*t, c as int),
        ),
        final(bindings)@ == bindings_after(old(bindings)@, plain_import_events(*t, c as int)),
{
    let ghost i0 = text::views(imports@);
    let ghost b0 = bindings@;
    let ghost none = Seq::<ImportEvent>::empty();
    if t.is_kind(c, "dotted_name") {
        let name: String = t.text(c);
        add_import(name.as_str(), imports);
        let root: String = name_root(name.as_str());
        let ghost import = ImportEvent::Import(name@);
        let ghost bind = ImportEvent::Bind(root@, root@);
        proof {
            lemma_event_push(i0, b0, none, import);
            lemma_event_push(i0, b0, none.push(import), bind);
            assert(none.push(import) =~= seq![import]);
        }
        if !root.as_str().is_empty() {
            bindings.insert(root.clone(), root);
        }
    } else if t.is_kind(c, "aliased_import") {
        let (name, as_name) = read_alias(t, c);
        if !name.as_str().is_empty() {
            add_import(name.as_str(), imports);
            let local: String = if as_name.as_str().is_empty() {
                name_root(name.as_str())
            } else {
                as_name
            };
            let ghost import = ImportEvent::Import(name@);
            let ghost bind = ImportEvent::Bind(local@, name@);
            proof {
                lemma_event_push(i0, b0, none, import);
                lemma_event_push(i0, b0, none.push(import), bind);
                assert(none.push(import) =~= seq![import]);
                assert(none.push(import).push(bind) =~= seq![import, bind]);
            }
            if !local.as_str().is_empty() {
                bindings.insert(local, name);
            }
        }
    }
}

/// Records what the `import` statement at node `i` says.
fn collect_import_statement(
    t: &SyntaxTree,
    i: usize,
    imports: &mut Vec<String>,
    bindings: &mut TextMap,
)
    requires
        i < t.rows@.len(),
        syntax::kind_of(*t, i as int) == "import_statement"@,
    ensures
        text::views(final(imports)@) == imports_after(
            text::views(old(imports)@),
            statement_events(*t, i as int),
        ),
        final(bindings)@ == bindings_after(old(bindings)@, statement_events(*t, i as int)),
{
    let nodes: Vec<usize> = t.children(i);
    let ghost all = syntax::children(*t, i as int);
    let ghost i0 = text::views(imports@);
    let ghost b0 = bindings@;
    let mut k: usize = 0;
    while k < nodes.len()
        invariant
            k <= nodes@.len(),
            all == syntax::indices(nodes@),
            forall|j: int| 0 <= j < nodes@.len() ==> #[trigger] nodes@[j] < t.rows@.len(),
            text::views(imports@) == imports_after(i0, import_statement_events(*t, all, k as int)),
            bindings@ == bindings_after(b0, import_statement_events(*t, all, k as int)),
        decreases nodes@.len() - k,
    {
        let c: usize = nodes[k];
        assert(all[k as int] == c as int);
        collect_plain_import(t, c, imports, bindings);
        proof {
            lemma_event_add(
                i0,
                b0,
                import_statement_events(*t, all, k as int),
                plain_import_events(*t, c as int),
            );
        }
        k = k + 1;
    }
}

/// The parts of a `from` statement as strings.
struct FromStrings {
    after_import: bool,
    dots: String,
    module: String,
    names: Vec<(String, String)>,
}

/// The views of pairs of strings.
pub open spec fn pair_views(v: Seq<(String, String)>) -> Seq<(Seq<char>, Seq<char>)> {
    v.map_values(|p: (String, String)| (p.0@, p.1@))
}

impl FromStrings {
    spec fn parts(&self) -> FromParts {
        FromParts {
            after_import: self.after_import,
            dots: self.dots@,
            module: self.module@,
            names: pair_views(self.names@),
        }
    }
}

/// Reads the dots and the module of a relative import.
fn read_relative(t: &SyntaxTree, c: usize, parts: &mut FromStrings)
    requires
        c < t.rows@.len(),
    ensures
        final(parts).parts() == relative_parts(
            *t,
            syntax::children(*t, c as int),
            syntax::children(*t, c as int).len() as int,
            old(parts).parts(),
        ),
{
    let nodes: Vec<usize> = t.children(c);
    let ghost all = syntax::children(*t, c as int);
    let ghost p0 = parts.parts();
    let mut k: usize = 0;
    while k < nodes.len()
        invariant
            k <= nodes@.len(),
            all == syntax::indices(nodes@),
            forall|j: int| 0 <= j < nodes@.len() ==> #[trigger] nodes@[j] < t.rows@.len(),
            parts.parts() == relative_parts(*t, all, k as int, p0),
        decreases nodes@.len() - k,
    {
        let n: usize = nodes[k];
        assert(all[k as int] == n as int);
        if t.is_kind(n, "import_prefix") {
            parts.dots = t.text(n);
        } else if t.is_kind(n, "dotted_name") {
            parts.module = t.text(n);
        }
        k = k + 1;
    }
}

/// Reads one child of a `from` statement.
fn read_from_child(t: &SyntaxTree, c: usize, parts: &mut FromStrings)
    requires
        c < t.rows@.len(),
    ensures
        final(parts).parts() == from_step(*t, old(parts).parts(), c as int),
{
    let ghost before = parts.names@;
    if t.is_kind(c, "import") {
        parts.after_import = true;
    } else if t.is_kind(c, "relative_import") && !parts.after_import {
        read_relative(t, c, parts);
    } else if t.is_kind(c, "dotted_name") && !parts.after_import {
        parts.module = t.text(c);
    } else if t.is_kind(c, "dotted_name") {
        let name: String = t.text(c);
        parts.names.push((name.clone(), name));
        assert(pair_views(parts.names@) =~= pair_views(before).push((name@, name@)));
    } else if t.is_kind(c, "aliased_import") && parts.after_import {
        let (name, as_name) = read_alias(t, c);
        if !name.as_str().is_empty() {
            let local: String = if as_name.as_str().is_empty() {
                name.clone()
            } else {
                as_name
            };
            parts.names.push((name, local));
            assert(pair_views(parts.names@) =~= pair_views(before).push((name@, local@)));
        }
    } else if t.is_kind(c, "wildcard_import") && parts.after_import {
        parts.names.push(("*".to_owned(), "*".to_owned()));
        assert(pair_views(parts.names@) =~= pair_views(before).push(("*"@, "*"@)));
    }
}

/// Records what the `from` statement at node `i` says.
fn collect_from_statement(
    t: &SyntaxTree,
    i: usize,
    imports: &mut Vec<String>,
    bindings: &mut TextMap,
)
    requires
        i < t.rows@.len(),
        syntax::kind_of(*t, i as int) != "import_statement"@,
    ensures
        text::views(final(imports)@) == imports_after(
            text::views(old(imports)@),
            statement_events(*t, i as int),
        ),
        final(bindings)@ == bindings_after(old(bindings)@, statement_events(*t, i as int)),
{
    let nodes: Vec<usize> = t.children(i);
    let ghost all = syntax::children(*t, i as int);
    let mut parts: FromStrings = FromStrings {
        after_import: false,
        dots: String::new(),
        module: String::new(),
        names: Vec::new(),
    };
    let mut k: usize = 0;
    assert(pair_views(parts.names@) =~= seq![]);
    while k < nodes.len()
        invariant
            k <= nodes@.len(),
            all == syntax::indices(nodes@),
            forall|j: int| 0 <= j < nodes@.len() ==> #[trigger] nodes@[j] < t.rows@.len(),
            parts.parts() == from_parts(*t, all, k as int),
        decreases nodes@.len() - k,
    {
        let c: usize = nodes[k];
        assert(all[k as int] == c as int);
        read_from_child(t, c, &mut parts);
        k = k + 1;
    }
    let ghost whole = parts.parts();
    if !parts.module.as_str().is_empty() {
        record_members(&parts, imports, bindings);
    } else if !parts.dots.as_str().is_empty() {
        record_siblings(&parts, imports, bindings);
    }
}

/// Records the names of `from <dots><module> import ..`.
fn record_members(parts: &FromStrings, imports: &mut Vec<String>, bindings: &mut TextMap)
    requires
        parts.parts().module.len() > 0,
    ensures
        text::views(final(imports)@) == imports_after(
            text::views(old(imports)@),
            from_statement_events(parts.parts()),
        ),
        final(bindings)@ == bindings_after(old(bindings)@, from_statement_events(parts.parts())),
{
    let ghost i0 = text::views(imports@);
    let ghost b0 = bindings@;
    let ghost none = Seq::<ImportEvent>::empty();
    let ghost whole = parts.parts();
    let mut dep: String = parts.dots.clone();
    dep.append(parts.module.as_str());
    let ghost events = from_statement_events(whole);
    add_import(dep.as_str(), imports);
    proof {
        lemma_event_push(i0, b0, none, events[0]);
        assert(none.push(events[0]) =~= events.take(1));
    }
    let mut k: usize = 0;
    while k < parts.names.len()
        invariant
            k <= parts.names@.len(),
            whole == parts.parts(),
            whole.module.len() > 0,
            dep@ == whole.dots + whole.module,
            events == from_statement_events(whole),
            events.len() == parts.names@.len() + 1,
            text::views(imports@) == imports_after(i0, events.take(k + 1)),
            bindings@ == bindings_after(b0, events.take(k + 1)),
        decreases parts.names@.len() - k,
    {
        let ghost event = events[k + 1];
        assert(whole.names[k as int] == (parts.names@[k as int].0@, parts.names@[k as int].1@));
        assert(event == member_event(dep@, whole.names[k as int]));
        proof {
            lemma_event_push(i0, b0, events.take(k + 1), event);
            assert(events.take(k + 1).push(event) =~= events.take(k + 2));
        }
        if same_text(parts.names[k].0.as_str(), "*") {
            bindings.insert("*".to_owned(), dep.clone());
        } else {
            let mut target: String = dep.clone();
            target.append(".");
            target.append(parts.names[k].0.as_str());
            bindings.insert(parts.names[k].1.clone(), target);
        }
        k = k + 1;
    }
    assert(events.take(events.len() as int) =~= events);
}

/// Records the names of `from .. import ..`.
fn record_siblings(parts: &FromStrings, imports: &mut Vec<String>, bindings: &mut TextMap)
    requires
        parts.parts().module.len() == 0,
        parts.parts().dots.len() > 0,
    ensures
        text::views(final(imports)@) == imports_after(
            text::views(old(imports)@),
            from_statement_events(parts.parts()),
        ),
        final(bindings)@ == bindings_after(old(bindings)@, from_statement_events(parts.parts())),
{
    let ghost i0 = text::views(imports@);
    let ghost b0 = bindings@;
    let ghost none = Seq::<ImportEvent>::empty();
    let ghost whole = parts.parts();
    let mut k: usize = 0;
    while k < parts.names.len()
        invariant
            k <= parts.names@.len(),
            whole == parts.parts(),
            none == Seq::<ImportEvent>::empty(),
            text::views(imports@) == imports_after(
                i0,
                all_sibling_events(whole.dots, whole.names, k as int),
            ),
            bindings@ == bindings_after(b0, all_sibling_events(whole.dots, whole.names, k as int)),
        decreases parts.names@.len() - k,
    {
        let ghost i1 = text::views(imports@);
        let ghost b1 = bindings@;
        let ghost name = whole.names[k as int];
        assert(name == (parts.names@[k as int].0@, parts.names@[k as int].1@));
        if !same_text(parts.names[k].0.as_str(), "*") {
            let mut dep: String = parts.dots.clone();
            dep.append(parts.names[k].0.as_str());
            add_import(dep.as_str(), imports);
            let ghost import = ImportEvent::Import(dep@);
            let ghost bind = ImportEvent::Bind(name.1, dep@);
            bindings.insert(parts.names[k].1.clone(), dep);
            proof {
                lemma_event_push(i1, b1, none, import);
                lemma_event_push(i1, b1, none.push(import), bind);
                assert(none.push(import).push(bind) =~= seq![import, bind]);
                assert(seq![import, bind] == sibling_events(whole.dots, name));
            }
        }
        proof {
            lemma_event_add(
                i0,
                b0,
                all_sibling_events(whole.dots, whole.names, k as int),
                sibling_events(whole.dots, name),
            );
        }
        k = k + 1;
    }
}

/// Records what all import statements of the tree say.
pub fn collect_imports(t: &SyntaxTree, imports: &mut Vec<String>, bindings: &mut TextMap)
    ensures
        text::views(final(imports)@) == imports_after(
            text::views(old(imports)@),
            import_events(*t, 0),
        ),
        final(bindings)@ == bindings_after(old(bindings)@, import_events(*t, 0)),
{
    let ghost i0 = text::views(imports@);
    let ghost b0 = bindings@;
    let ghost mut done = Seq::<ImportEvent>::empty();
    let mut i: usize = 0;
    assert(done + import_events(*t, 0) =~= import_events(*t, 0));
    while i < t.rows.len()
        invariant
            i <= t.rows@.len(),
            done + import_events(*t, i as int) == import_events(*t, 0),
            text::views(imports@) == imports_after(i0, done),
            bindings@ == bindings_after(b0, done),
        decreases t.rows@.len() - i,
    {
        if t.is_kind(i, "import_statement") {
            collect_import_statement(t, i, imports, bindings);
            proof {
                lemma_event_add(i0, b0, done, statement_events(*t, i as int));
                assert(done + import_events(*t, i as int) =~= (done + statement_events(
                    *t,
                    i as int,
                )) + import_events(*t, syntax::next_row(*t, i as int)));
                done = done + statement_events(*t, i as int);
            }
            i = t.next_row(i);
        } else if t.is_kind(i, "import_from_statement") {
            collect_from_statement(t, i, imports, bindings);
            proof {
                lemma_event_add(i0, b0, done, statement_events(*t, i as int));
                assert(done + import_events(*t, i as int) =~= (done + statement_events(
                    *t,
                    i as int,
                )) + import_events(*t, syntax::next_row(*t, i as int)));
                done = done + statement_events(*t, i as int);
            }
            i = t.next_row(i);
        } else {
            i = i + 1;
        }
    }
    assert(done =~= import_events(*t, 0));
}

// ---------------------------------------------------------------------------
// Definitions
// ---------------------------------------------------------------------------

/// A definition as the index records it.
pub struct DefinitionView {
    pub name: Seq<char>,
    pub kind: Seq<char>,
    pub line: nat,
    pub docstring: Seq<char>,
    pub decorators: Seq<Seq<char>>,
}

impl View for FunctionDefinition {
    type V = DefinitionView;

    open spec fn view(&self) -> DefinitionView {
        DefinitionView {
            name: self.name@,
            kind: self.kind@,
            line: self.line as nat,
            docstring: self.docstring@,
            decorators: text::views(self.decorators@),
        }
    }
}

/// The views of definitions.
pub open spec fn definition_views(v: Seq<FunctionDefinition>) -> Seq<DefinitionView> {
    v.map_values(|d: FunctionDefinition| d@)
}

/// A definition with the name it has inside its own scope.
pub struct Definition {
    pub bare: Seq<char>,
    pub view: DefinitionView,
}

/// The letters that may stand before the quotes of a Python string.
pub open spec fn is_string_prefix(c: char) -> bool {
    c == 'r' || c == 'R' || c == 'u' || c == 'U' || c == 'b' || c == 'B' || c == 'f' || c == 'F'
}

/// Whether `s` stands between two of the given quotes.
pub open spec fn is_quoted(s: Seq<char>, quote: Seq<char>) -> bool {
    quote.is_prefix_of(s) && quote.is_suffix_of(s) && s.len() >= 2 * quote.len()
}

/// What stands between the quotes, without the white space at both ends.
pub open spec fn between_quotes(s: Seq<char>, quote: Seq<char>) -> Seq<char> {
    text::trim(s.subrange(quote.len() as int, s.len() - quote.len()))
}

/// The content of a Python string literal; nothing for any other text.
pub open spec fn unquoted(raw: Seq<char>) -> Seq<char> {
    let s = text::strip_leading(text::trim(raw), |c: char| is_string_prefix(c));
    if is_quoted(s, "\"\"\""@) {
        between_quotes(s, "\"\"\""@)
    } else if is_quoted(s, "'''"@) {
        between_quotes(s, "'''"@)
    } else if is_quoted(s, "\""@) {
        between_quotes(s, "\""@)
    } else if is_quoted(s, "'"@) {
        between_quotes(s, "'"@)
    } else {
        seq![]
    }
}

/// The first string among the leading expression statements in `nodes`, from
/// the `k`th on.
pub open spec fn docstring_from(t: SyntaxTree, nodes: Seq<int>, k: int) -> Seq<char>
    decreases nodes.len() - k,
{
    if 0 <= k < nodes.len() && syntax::kind_of(t, nodes[k]) == "expression_statement"@ {
        let doc = unquoted(syntax::node_text(t, nodes[k]));
        if doc.len() > 0 {
            doc
        } else {
            docstring_from(t, nodes, k + 1)
        }
    } else {
        seq![]
    }
}

/// The docstring of the definition at node `d`.
pub open spec fn docstring_of(t: SyntaxTree, d: int) -> Seq<char> {
    match syntax::field_child(t, d, "body"@) {
        Some(body) => docstring_from(t, syntax::named_children(t, body), 0),
        None => seq![],
    }
}

/// A decorator without its mark and the white space around it.
pub open spec fn decorator_text(t: SyntaxTree, c: int) -> Seq<char> {
    text::trim(text::strip_leading(text::trim(syntax::node_text(t, c)), |x: char| x == '@'))
}

/// The decorators among the first `n` of the given nodes.
pub open spec fn decorators_in(t: SyntaxTree, nodes: Seq<int>, n: int) -> Seq<Seq<char>>
    decreases n,
{
    if n <= 0 {
        seq![]
    } else {
        let before = decorators_in(t, nodes, n - 1);
        let c = nodes[n - 1];
        if syntax::kind_of(t, c) == "decorator"@ && decorator_text(t, c).len() > 0 {
            before.push(decorator_text(t, c))
        } else {
            before
        }
    }
}

/// The decorators of the decorated definition at node `c`.
pub open spec fn decorators_of(t: SyntaxTree, c: int) -> Seq<Seq<char>> {
    decorators_in(t, syntax::children(t, c), syntax::children(t, c).len() as int)
}

/// Whether node `i` defines a function or a class.
pub open spec fn is_definition(t: SyntaxTree, i: int) -> bool {
    syntax::kind_of(t, i) == "function_definition"@ || syntax::kind_of(t, i)
        == "class_definition"@
}

/// The first definition in `nodes` from the `k`th on.
pub open spec fn first_definition(t: SyntaxTree, nodes: Seq<int>, k: int) -> Option<int>
    decreases nodes.len() - k,
{
    if 0 <= k < nodes.len() {
        if is_definition(t, nodes[k]) {
            Some(nodes[k])
        } else {
            first_definition(t, nodes, k + 1)
        }
    } else {
        None
    }
}

/// The definition that the statement at node `c` makes, and its decorators.
pub open spec fn defined_at(t: SyntaxTree, c: int) -> (Option<int>, Seq<Seq<char>>) {
    if is_definition(t, c) {
        (Some(c), seq![])
    } else if syntax::kind_of(t, c) == "decorated_definition"@ {
        (first_definition(t, syntax::children(t, c), 0), decorators_of(t, c))
    } else {
        (None, seq![])
    }
}

/// The name of the definition at node `d`; nothing where it has none.
pub open spec fn definition_name(t: SyntaxTree, d: int) -> Seq<char> {
    match syntax::field_child(t, d, "name"@) {
        Some(name) => syntax::node_text(t, name),
        None => seq![],
    }
}

/// The 1-based line of node `i`.
pub open spec fn line_of(t: SyntaxTree, i: int) -> nat {
    let row = t.rows@[i].row as int;
    if row < usize::MAX {
        (row + 1) as nat
    } else {
        row as nat
    }
}

/// `name` inside the given scopes.
pub open spec fn qualified(prefix: Seq<Seq<char>>, name: Seq<char>) -> Seq<char> {
    if prefix.len() == 0 {
        name
    } else {
        text::join(prefix, "."@) + "."@ + name
    }
}

/// What the definition at node `d` adds to the index.
pub open spec fn definition_at(
    t: SyntaxTree,
    d: int,
    decorators: Seq<Seq<char>>,
    prefix: Seq<Seq<char>>,
) -> Definition {
    let bare = definition_name(t, d);
    Definition {
        bare,
        view: DefinitionView {
            name: qualified(prefix, bare),
            kind: if syntax::kind_of(t, d) == "class_definition"@ {
                "class"@
            } else {
                "function"@
            },
            line: line_of(t, syntax::field_child(t, d, "name"@).unwrap()),
            docstring: docstring_of(t, d),
            decorators,
        },
    }
}

/// The definitions in the scope of node `i` that the first `n` statements in
/// it make, and those inside the classes among them.
pub open spec fn definitions_in(t: SyntaxTree, i: int, n: int, prefix: Seq<Seq<char>>) -> Seq<
    Definition,
>
    decreases t.rows@.len() - i, n,
{
    if n <= 0 || i < 0 || i >= t.rows@.len() {
        seq![]
    } else {
        let before = definitions_in(t, i, n - 1, prefix);
        let found = defined_at(t, syntax::children(t, i)[n - 1]);
        if found.0 is None {
            before
        } else {
            let d = found.0.unwrap();
            if definition_name(t, d).len() == 0 {
                before
            } else {
                let own = before.push(definition_at(t, d, found.1, prefix));
                let body = syntax::field_child(t, d, "body"@);
                if syntax::kind_of(t, d) == "class_definition"@ && body is Some && i
                    < body.unwrap() < t.rows@.len() {
                    own + definitions_in(
                        t,
                        body.unwrap(),
                        syntax::children(t, body.unwrap()).len() as int,
                        prefix.push(definition_name(t, d)),
                    )
                } else {
                    own
                }
            }
        }
    }
}

/// All definitions of the tree.
pub open spec fn definitions(t: SyntaxTree) -> Seq<Definition> {
    definitions_in(t, 0, syntax::children(t, 0).len() as int, seq![])
}

/// The parts of definitions that are recorded.
pub open spec fn recorded(defs: Seq<Definition>) -> Seq<DefinitionView> {
    defs.map_values(|d: Definition| d.view)
}

/// The bare names of the functions among definitions.
pub open spec fn function_names(defs: Seq<Definition>) -> Seq<Seq<char>>
    decreases defs.len(),
{
    if defs.len() == 0 {
        seq![]
    } else {
        let before = function_names(defs.drop_last());
        if defs.last().view.kind == "function"@ {
            before.push(defs.last().bare)
        } else {
            before
        }
    }
}

/// Names of functions, one batch after the other.
proof fn lemma_function_names_add(a: Seq<Definition>, b: Seq<Definition>)
    ensures
        function_names(a + b) == function_names(a) + function_names(b),
    decreases b.len(),
{
    if b.len() == 0 {
        assert(a + b =~= a);
        assert(function_names(a) + function_names(b) =~= function_names(a));
    } else {
        lemma_function_names_add(a, b.drop_last());
        assert((a + b).drop_last() =~= a + b.drop_last());
        assert(function_names(a + b) =~= function_names(a) + function_names(b));
    }
}

/// The bounds of `v[from..to]` without leading string prefix letters.
fn skip_string_prefix(v: &Vec<char>, from: usize, to: usize) -> (i: usize)
    requires
        from <= to <= v@.len(),
    ensures
        from <= i <= to,
        v@.subrange(i as int, to as int) == text::strip_leading(
            v@.subrange(from as int, to as int),
            |c: char| is_string_prefix(c),
        ),
{
    let ghost drop = |c: char| is_string_prefix(c);
    let ghost whole = v@.subrange(from as int, to as int);
    let mut i: usize = from;
    while i < to && (v[i] == 'r' || v[i] == 'R' || v[i] == 'u' || v[i] == 'U' || v[i] == 'b'
        || v[i] == 'B' || v[i] == 'f' || v[i] == 'F')
        invariant
            from <= i <= to <= v@.len(),
            drop == |c: char| is_string_prefix(c),
            text::strip_leading(v@.subrange(i as int, to as int), drop) == text::strip_leading(whole, drop),
        decreases to - i,
    {
        assert(v@.subrange(i as int, to as int).drop_first() =~= v@.subrange(i + 1, to as int));
        i = i + 1;
    }
    i
}

/// What stands between two of the given quotes, if `s` is quoted by them.
fn strip_quotes(s: &String, quote: &str) -> (inner: Option<String>)
    ensures
        match inner {
            Some(i) => is_quoted(s@, quote@) && i@ == between_quotes(s@, quote@),
            None => !is_quoted(s@, quote@),
        },
{
    let v: Vec<char> = chars_of(s.as_str());
    let q: Vec<char> = chars_of(quote);
    if !has_prefix(s.as_str(), quote) || !has_suffix(s.as_str(), quote) || v.len() - q.len()
        < q.len() {
        return None;
    }
    let (a, b) = trim_bounds(&v, q.len(), v.len() - q.len());
    Some(slice_text(&v, a, b))
}

/// The content of a Python string literal; nothing for any other text.
pub fn unquote_string_like(raw: &str) -> (inner: String)
    ensures
        inner@ == unquoted(raw@),
{
    let v: Vec<char> = chars_of(raw);
    let (a, b) = trim_bounds(&v, 0, v.len());
    assert(v@.subrange(0, v@.len() as int) =~= v@);
    let i: usize = skip_string_prefix(&v, a, b);
    let s: String = slice_text(&v, i, b);
    if let Some(inner) = strip_quotes(&s, "\"\"\"") {
        return inner;
    }
    if let Some(inner) = strip_quotes(&s, "'''") {
        return inner;
    }
    if let Some(inner) = strip_quotes(&s, "\"") {
        return inner;
    }
    if let Some(inner) = strip_quotes(&s, "'") {
        return inner;
    }
    String::new()
}

/// The docstring of the definition at node `d`.
fn extract_docstring(t: &SyntaxTree, d: usize) -> (doc: String)
    requires
        d < t.rows@.len(),
    ensures
        doc@ == docstring_of(*t, d as int),
{
    let Some(body) = t.field_child(d, "body") else {
        return String::new();
    };
    let nodes: Vec<usize> = t.named_children(body);
    let ghost all = syntax::named_children(*t, body as int);
    let mut k: usize = 0;
    while k < nodes.len()
        invariant
            k <= nodes@.len(),
            all == syntax::indices(nodes@),
            forall|j: int| 0 <= j < nodes@.len() ==> #[trigger] nodes@[j] < t.rows@.len(),
            docstring_from(*t, all, k as int) == docstring_of(*t, d as int),
        decreases nodes@.len() - k,
    {
        let n: usize = nodes[k];
        assert(all[k as int] == n as int);
        if !t.is_kind(n, "expression_statement") {
            return String::new();
        }
        let raw: String = t.text(n);
        let doc: String = unquote_string_like(raw.as_str());
        if !doc.as_str().is_empty() {
            return doc;
        }
        k = k + 1;
    }
    String::new()
}

/// The text of the decorator at node `c`.
fn read_decorator(t: &SyntaxTree, c: usize) -> (s: String)
    requires
        c < t.rows@.len(),
    ensures
        s@ == decorator_text(*t, c as int),
{
    let raw: String = t.text(c);
    let v: Vec<char> = chars_of(raw.as_str());
    let (a, b) = trim_bounds(&v, 0, v.len());
    assert(v@.subrange(0, v@.len() as int) =~= v@);
    let ghost drop = |x: char| x == '@';
    let ghost whole = v@.subrange(a as int, b as int);
    let mut i: usize = a;
    while i < b && v[i] == '@'
        invariant
            a <= i <= b <= v@.len(),
            drop == |x: char| x == '@',
            text::strip_leading(v@.subrange(i as int, b as int), drop) == text::strip_leading(whole, drop),
        decreases b - i,
    {
        assert(v@.subrange(i as int, b as int).drop_first() =~= v@.subrange(i + 1, b as int));
        i = i + 1;
    }
    let (from, to) = trim_bounds(&v, i, b);
    slice_text(&v, from, to)
}

/// The decorators of the decorated definition at node `c`.
fn collect_decorators(t: &SyntaxTree, c: usize) -> (decorators: Vec<String>)
    requires
        c < t.rows@.len(),
    ensures
        text::views(decorators@) == decorators_of(*t, c as int),
{
    let nodes: Vec<usize> = t.children(c);
    let ghost all = syntax::children(*t, c as int);
    let mut decorators: Vec<String> = Vec::new();
    let mut k: usize = 0;
    assert(text::views(decorators@) =~= seq![]);
    while k < nodes.len()
        invariant
            k <= nodes@.len(),
            all == syntax::indices(nodes@),
            forall|j: int| 0 <= j < nodes@.len() ==> #[trigger] nodes@[j] < t.rows@.len(),
            text::views(decorators@) == decorators_in(*t, all, k as int),
        decreases nodes@.len() - k,
    {
        let n: usize = nodes[k];
        let ghost before = text::views(decorators@);
        assert(all[k as int] == n as int);
        if t.is_kind(n, "decorator") {
            let rendered: String = read_decorator(t, n);
            if !rendered.as_str().is_empty() {
                decorators.push(rendered);
                assert(text::views(decorators@) =~= before.push(rendered@));
            }
        }
        k = k + 1;
    }
    decorators
}

/// The definition that the statement at node `c` makes, and its decorators.
fn find_definition(t: &SyntaxTree, c: usize) -> (found: (Option<usize>, Vec<String>))
    requires
        c < t.rows@.len(),
    ensures
        text::views(found.1@) == defined_at(*t, c as int).1,
        match found.0 {
            Some(d) => defined_at(*t, c as int).0 == Some(d as int) && c <= d < t.rows@.len(),
            None => defined_at(*t, c as int).0 is None,
        },
{
    if t.is_kind(c, "function_definition") || t.is_kind(c, "class_definition") {
        let none: Vec<String> = Vec::new();
        assert(text::views(none@) =~= seq![]);
        return (Some(c), none);
    }
    if !t.is_kind(c, "decorated_definition") {
        let none: Vec<String> = Vec::new();
        assert(text::views(none@) =~= seq![]);
        return (None, none);
    }
    let decorators: Vec<String> = collect_decorators(t, c);
    let nodes: Vec<usize> = t.children(c);
    let ghost all = syntax::children(*t, c as int);
    let mut k: usize = 0;
    while k < nodes.len()
        invariant
            k <= nodes@.len(),
            all == syntax::indices(nodes@),
            forall|j: int|
                0 <= j < nodes@.len() ==> c < #[trigger] nodes@[j] && nodes@[j] < t.rows@.len(),
            first_definition(*t, all, k as int) == defined_at(*t, c as int).0,
            text::views(decorators@) == defined_at(*t, c as int).1,
        decreases nodes@.len() - k,
    {
        let n: usize = nodes[k];
        assert(all[k as int] == n as int);
        if t.is_kind(n, "function_definition") || t.is_kind(n, "class_definition") {
            return (Some(n), decorators);
        }
        k = k + 1;
    }
    (None, decorators)
}

/// The 1-based line of node `i`.
fn line_number(t: &SyntaxTree, i: usize) -> (line: usize)
    requires
        i < t.rows@.len(),
    ensures
        line == line_of(*t, i as int),
{
    t.rows[i].row.saturating_add(1)
}

/// Adds the definitions in the scope of node `i` to the lists.
fn collect_definitions_in_scope(
    t: &SyntaxTree,
    i: usize,
    prefix: &Vec<String>,
    function_defs: &mut Vec<String>,
    found: &mut Vec<FunctionDefinition>,
)
    requires
        i < t.rows@.len(),
    ensures
        definition_views(final(found)@) == definition_views(old(found)@) + recorded(
            definitions_in(
                *t,
                i as int,
                syntax::children(*t, i as int).len() as int,
                text::views(prefix@),
            ),
        ),
        text::views(final(function_defs)@) == text::views(old(function_defs)@) + function_names(
            definitions_in(
                *t,
                i as int,
                syntax::children(*t, i as int).len() as int,
                text::views(prefix@),
            ),
        ),
    decreases t.rows@.len() - i,
{
    let nodes: Vec<usize> = t.children(i);
    let ghost all = syntax::children(*t, i as int);
    let ghost f0 = text::views(function_defs@);
    let ghost d0 = definition_views(found@);
    let ghost pre = text::views(prefix@);
    let mut k: usize = 0;
    assert(recorded(definitions_in(*t, i as int, 0, pre)) =~= seq![]);
    assert(d0 + seq![] =~= d0);
    assert(f0 + seq![] =~= f0);
    while k < nodes.len()
        invariant
            i < t.rows@.len(),
            k <= nodes@.len(),
            all == syntax::indices(nodes@),
            all == syntax::children(*t, i as int),
            pre == text::views(prefix@),
            forall|j: int|
                0 <= j < nodes@.len() ==> i < #[trigger] nodes@[j] && nodes@[j] < t.rows@.len(),
            definition_views(found@) == d0 + recorded(definitions_in(*t, i as int, k as int, pre)),
            text::views(function_defs@) == f0 + function_names(
                definitions_in(*t, i as int, k as int, pre),
            ),
        decreases nodes@.len() - k,
    {
        let n: usize = nodes[k];
        assert(all[k as int] == n as int);
        let ghost before = definitions_in(*t, i as int, k as int, pre);
        let (def, decorators) = find_definition(t, n);
        if let Some(d) = def {
            add_definition(t, d, decorators, prefix, function_defs, found);
            let name: String = bare_name(t, d);
            if !name.as_str().is_empty() {
                let ghost own = definition_at(*t, d as int, defined_at(*t, n as int).1, pre);
                proof {
                    assert(before.push(own).drop_last() =~= before);
                    assert(recorded(before.push(own)) =~= recorded(before).push(own.view));
                    assert(definition_views(found@) =~= d0 + recorded(before.push(own)));
                    assert(text::views(function_defs@) =~= f0 + function_names(before.push(own)));
                }
                if t.is_kind(d, "class_definition") {
                    if let Some(body) = t.field_child(d, "body") {
                        let mut inner: Vec<String> = clone_texts(prefix);
                        inner.push(name);
                        assert(text::views(inner@) =~= pre.push(name@));
                        collect_definitions_in_scope(t, body, &inner, function_defs, found);
                        proof {
                            let nested = definitions_in(
                                *t,
                                body as int,
                                syntax::children(*t, body as int).len() as int,
                                pre.push(name@),
                            );
                            lemma_function_names_add(before.push(own), nested);
                            assert(recorded(before.push(own) + nested) =~= recorded(
                                before.push(own),
                            ) + recorded(nested));
                            assert(definition_views(found@) =~= d0 + recorded(
                                before.push(own) + nested,
                            ));
                            assert(text::views(function_defs@) =~= f0 + function_names(
                                before.push(own) + nested,
                            ));
                        }
                    }
                }
            }
        }
        k = k + 1;
    }
}

/// The name of the definition at node `d`; nothing where it has none.
fn bare_name(t: &SyntaxTree, d: usize) -> (name: String)
    requires
        d < t.rows@.len(),
    ensures
        name@ == definition_name(*t, d as int),
{
    match t.field_child(d, "name") {
        Some(n) => t.text(n),
        None => String::new(),
    }
}

/// A copy of a list of texts.
fn clone_texts(v: &Vec<String>) -> (r: Vec<String>)
    ensures
        text::views(r@) == text::views(v@),
{
    let mut r: Vec<String> = Vec::new();
    let mut i: usize = 0;
    while i < v.len()
        invariant
            i <= v@.len(),
            text::views(r@) == text::views(v@).take(i as int),
        decreases v@.len() - i,
    {
        let ghost before = text::views(r@);
        r.push(v[i].clone());
        assert(text::views(r@) =~= before.push(v@[i as int]@));
        i = i + 1;
        assert(text::views(r@) =~= text::views(v@).take(i as int));
    }
    assert(text::views(v@).take(i as int) =~= text::views(v@));
    r
}

/// Adds the definition at node `d`, if it has a name.
fn add_definition(
    t: &SyntaxTree,
    d: usize,
    decorators: Vec<String>,
    prefix: &Vec<String>,
    function_defs: &mut Vec<String>,
    found: &mut Vec<FunctionDefinition>,
)
    requires
        d < t.rows@.len(),
    ensures
        ({
            let def = definition_at(
                *t,
                d as int,
                text::views(decorators@),
                text::views(prefix@),
            );
            if def.bare.len() == 0 {
                definition_views(final(found)@) == definition_views(old(found)@) && text::views(
                    final(function_defs)@,
                ) == text::views(old(function_defs)@)
            } else {
                &&& definition_views(final(found)@) == definition_views(old(found)@).push(def.view)
                &&& text::views(final(function_defs)@) == if def.view.kind == "function"@ {
                    text::views(old(function_defs)@).push(def.bare)
                } else {
                    text::views(old(function_defs)@)
                }
            }
        }),
{
    let ghost f0 = text::views(function_defs@);
    let ghost d0 = definition_views(found@);
    let Some(name_node) = t.field_child(d, "name") else {
        return;
    };
    let bare: String = t.text(name_node);
    if bare.as_str().is_empty() {
        return;
    }
    let is_class: bool = t.is_kind(d, "class_definition");
    proof {
        reveal_strlit("class");
        reveal_strlit("function");
        assert("class"@.len() != "function"@.len());
    }
    if !is_class {
        function_defs.push(bare.clone());
        assert(text::views(function_defs@) =~= f0.push(bare@));
    }
    let kind: String = if is_class {
        "class".to_owned()
    } else {
        "function".to_owned()
    };
    let name: String = if prefix.len() == 0 {
        bare
    } else {
        let mut name: String = join_texts(prefix, ".");
        name.append(".");
        name.append(bare.as_str());
        name
    };
    found.push(
        FunctionDefinition {
            name,
            kind,
            line: line_number(t, name_node),
            docstring: extract_docstring(t, d),
            decorators,
        },
    );
    assert(definition_views(found@) =~= d0.push(found@.last()@));
}

// ---------------------------------------------------------------------------
// Calls
// ---------------------------------------------------------------------------

/// A call as the index records it.
pub struct CallView {
    pub caller: Seq<char>,
    pub callee: Seq<char>,
    pub line: nat,
    pub target: Option<Seq<char>>,
}

/// The view of an optional string slice.
pub open spec fn str_option(s: Option<&str>) -> Option<Seq<char>> {
    match s {
        Some(s) => Some(s@),
        None => None,
    }
}

/// The view of an optional string.
pub open spec fn option_view(s: Option<String>) -> Option<Seq<char>> {
    match s {
        Some(s) => Some(s@),
        None => None,
    }
}

impl View for FunctionCall {
    type V = CallView;

    open spec fn view(&self) -> CallView {
        CallView {
            caller: self.caller@,
            callee: self.callee@,
            line: self.line as nat,
            target: option_view(self.resolved_target),
        }
    }
}

/// The views of calls.
pub open spec fn call_views(v: Seq<FunctionCall>) -> Seq<CallView> {
    v.map_values(|c: FunctionCall| c@)
}

/// What the source is resolved against.
pub struct Names {
    pub bindings: Map<Seq<char>, Seq<char>>,
    pub locals: Seq<Seq<char>>,
    pub module: Option<Seq<char>>,
}

/// The number of dots at the start of `name`.
pub open spec fn leading_dots(name: Seq<char>) -> int
    decreases name.len(),
{
    if name.len() > 0 && name[0] == '.' {
        1 + leading_dots(name.drop_first())
    } else {
        0
    }
}

/// The absolute form of an imported name: one dot stands for the package of
/// the importing module, each further one for the package above it. A name
/// that climbs out of all packages keeps only what follows the dots.
pub open spec fn absolute_name(name: Seq<char>, module: Option<Seq<char>>) -> Option<Seq<char>> {
    let dots = leading_dots(name);
    if dots == 0 {
        Some(name)
    } else if module is None {
        None
    } else {
        let suffix = name.skip(dots);
        let parts = text::split_char(module.unwrap(), '.');
        let package = if parts.len() > 1 {
            parts.drop_last()
        } else {
            parts
        };
        let up = dots - 1;
        if up > package.len() {
            if suffix.len() == 0 {
                None
            } else {
                Some(suffix)
            }
        } else {
            let base = package.take(package.len() - up);
            let whole = if suffix.len() == 0 {
                base
            } else {
                base.push(suffix)
            };
            if whole.len() == 0 {
                None
            } else {
                Some(text::join(whole, "."@))
            }
        }
    }
}

/// What follows the first dot of `name`; nothing where there is none.
pub open spec fn after_root(name: Seq<char>) -> Seq<char> {
    let i = text::find_char(name, '.');
    if i < name.len() {
        name.skip(i + 1)
    } else {
        seq![]
    }
}

/// The symbol that a called name stands for.
pub open spec fn target_of(callee: Seq<char>, names: Names) -> Option<Seq<char>> {
    let root = root_of(callee);
    let suffix = after_root(callee);
    if root.len() == 0 {
        None
    } else if names.bindings.contains_key(root) && absolute_name(
        names.bindings[root],
        names.module,
    ) is Some {
        let base = absolute_name(names.bindings[root], names.module).unwrap();
        if suffix.len() == 0 {
            Some(base)
        } else {
            Some(base + "."@ + suffix)
        }
    } else if names.locals.contains(root) {
        if names.module is Some && names.module.unwrap().len() > 0 {
            Some(names.module.unwrap() + "."@ + callee)
        } else {
            Some(callee)
        }
    } else {
        None
    }
}

/// The dotted name that the expression at node `i` spells; nothing for any
/// other expression.
pub open spec fn expr_name(t: SyntaxTree, i: int) -> Seq<char>
    decreases t.rows@.len() - i,
{
    if i < 0 || i >= t.rows@.len() {
        seq![]
    } else if syntax::kind_of(t, i) == "identifier"@ || syntax::kind_of(t, i) == "dotted_name"@ {
        syntax::node_text(t, i)
    } else if syntax::kind_of(t, i) == "attribute"@ {
        let object = syntax::field_child(t, i, "object"@);
        let left = if object is Some && i < object.unwrap() < t.rows@.len() {
            expr_name(t, object.unwrap())
        } else {
            seq![]
        };
        let right = match syntax::field_child(t, i, "attribute"@) {
            Some(a) => syntax::node_text(t, a),
            None => seq![],
        };
        if left.len() == 0 {
            right
        } else if right.len() == 0 {
            left
        } else {
            left + "."@ + right
        }
    } else {
        seq![]
    }
}

/// The name of the enclosing scope.
pub open spec fn scope_name(scope: Seq<Seq<char>>) -> Seq<char> {
    if scope.len() == 0 {
        "__module__"@
    } else {
        text::join(scope, "."@)
    }
}

/// The call that node `i` itself is, if it is one of a named function.
pub open spec fn own_call(t: SyntaxTree, i: int, scope: Seq<Seq<char>>, names: Names) -> Seq<
    CallView,
> {
    let function = syntax::field_child(t, i, "function"@);
    if syntax::kind_of(t, i) == "call"@ && function is Some {
        let callee = expr_name(t, function.unwrap());
        if callee.len() > 0 {
            seq![
                CallView {
                    caller: scope_name(scope),
                    callee,
                    line: line_of(t, i),
                    target: target_of(callee, names),
                },
            ]
        } else {
            seq![]
        }
    } else {
        seq![]
    }
}

/// Whether node `i` opens a scope of its own.
pub open spec fn opens_scope(t: SyntaxTree, i: int) -> bool {
    is_definition(t, i) && definition_name(t, i).len() > 0
}

/// The scope inside node `i`.
pub open spec fn inner_scope(t: SyntaxTree, i: int, scope: Seq<Seq<char>>) -> Seq<Seq<char>> {
    if opens_scope(t, i) {
        scope.push(definition_name(t, i))
    } else {
        scope
    }
}

/// The calls in the rows from `i` up to `to`, in source order.
pub open spec fn calls_in(
    t: SyntaxTree,
    i: int,
    to: int,
    scope: Seq<Seq<char>>,
    names: Names,
) -> Seq<CallView>
    decreases to - i,
{
    if 0 <= i < to <= t.rows@.len() {
        let end = if syntax::next_row(t, i) < to {
            syntax::next_row(t, i)
        } else {
            to
        };
        let own = if opens_scope(t, i) {
            seq![]
        } else {
            own_call(t, i, scope, names)
        };
        own + calls_in(t, i + 1, end, inner_scope(t, i, scope), names) + calls_in(
            t,
            end,
            to,
            scope,
            names,
        )
    } else {
        seq![]
    }
}

/// The absolute form of an imported name, seen from `module_name`.
pub fn resolve_relative(name: &str, module_name: Option<&str>) -> (r: Option<String>)
    ensures
        option_view(r) == absolute_name(
            name@,
            str_option(module_name),
        ),
{
    let v: Vec<char> = chars_of(name);
    let mut dots: usize = 0;
    assert(v@.skip(0) =~= v@);
    while dots < v.len() && v[dots] == '.'
        invariant
            dots <= v@.len(),
            dots + leading_dots(v@.skip(dots as int)) == leading_dots(v@),
        decreases v@.len() - dots,
    {
        assert(v@.skip(dots as int).drop_first() =~= v@.skip(dots + 1));
        dots = dots + 1;
    }
    if dots == 0 {
        return Some(name.to_owned());
    }
    let Some(module) = module_name else {
        return None;
    };
    let suffix: String = slice_text(&v, dots, v.len());
    assert(v@.subrange(dots as int, v@.len() as int) =~= v@.skip(dots as int));
    let mut package: Vec<String> = split_text(module, '.');
    let ghost parts = text::split_char(module@, '.');
    if package.len() > 1 {
        let ghost full = package@;
        package.pop();
        assert(package@ =~= full.drop_last());
        assert(text::views(package@) =~= parts.drop_last());
    }
    let up: usize = dots - 1;
    if up > package.len() {
        return if suffix.as_str().is_empty() {
            None
        } else {
            Some(suffix)
        };
    }
    let keep: usize = package.len() - up;
    let ghost all = text::views(package@);
    package.truncate(keep);
    assert(text::views(package@) =~= all.take(keep as int));
    if !suffix.as_str().is_empty() {
        package.push(suffix);
        assert(text::views(package@) =~= all.take(keep as int).push(suffix@));
    }
    if package.len() == 0 {
        None
    } else {
        Some(join_texts(&package, "."))
    }
}

/// The symbol that a called name stands for.
pub fn resolve_target(
    callee: &str,
    bindings: &TextMap,
    locals: &Vec<String>,
    module_name: Option<&str>,
) -> (r: Option<String>)
    ensures
        option_view(r) == target_of(
            callee@,
            Names {
                bindings: bindings@,
                locals: text::views(locals@),
                module: str_option(module_name),
            },
        ),
{
    let v: Vec<char> = chars_of(callee);
    let i: usize = find_from(&v, 0, '.');
    assert(v@.skip(0) =~= v@);
    assert(v@.subrange(0, i as int) =~= v@.take(i as int));
    let root: String = slice_text(&v, 0, i);
    if root.as_str().is_empty() {
        return None;
    }
    let suffix: String = if i < v.len() {
        assert(v@.subrange(i + 1, v@.len() as int) =~= v@.skip(i + 1));
        slice_text(&v, i + 1, v.len())
    } else {
        String::new()
    };
    if let Some(imported) = bindings.get(root.as_str()) {
        if let Some(base) = resolve_relative(imported.as_str(), module_name) {
            if suffix.as_str().is_empty() {
                return Some(base);
            }
            let mut target: String = base;
            target.append(".");
            target.append(suffix.as_str());
            return Some(target);
        }
    }
    if contains_string(locals, root.as_str()) {
        if let Some(module) = module_name {
            if !module.is_empty() {
                let mut target: String = module.to_owned();
                target.append(".");
                target.append(callee);
                return Some(target);
            }
        }
        return Some(callee.to_owned());
    }
    None
}

/// The dotted name that the expression at node `i` spells.
fn expr_to_name(t: &SyntaxTree, i: usize) -> (name: String)
    requires
        i < t.rows@.len(),
    ensures
        name@ == expr_name(*t, i as int),
    decreases t.rows@.len() - i,
{
    if t.is_kind(i, "identifier") || t.is_kind(i, "dotted_name") {
        t.text(i)
    } else if t.is_kind(i, "attribute") {
        let left: String = match t.field_child(i, "object") {
            Some(object) => expr_to_name(t, object),
            None => String::new(),
        };
        let right: String = match t.field_child(i, "attribute") {
            Some(attribute) => t.text(attribute),
            None => String::new(),
        };
        if left.as_str().is_empty() {
            right
        } else if right.as_str().is_empty() {
            left
        } else {
            let mut name: String = left;
            name.append(".");
            name.append(right.as_str());
            name
        }
    } else {
        String::new()
    }
}

/// Adds the calls in the rows from `from` up to `to`.
fn collect_calls(
    t: &SyntaxTree,
    from: usize,
    to: usize,
    scope: &mut Vec<String>,
    bindings: &TextMap,
    locals: &Vec<String>,
    module_name: Option<&str>,
    calls: &mut Vec<FunctionCall>,
)
    requires
        from <= to <= t.rows@.len(),
    ensures
        final(scope)@ == old(scope)@,
        call_views(final(calls)@) == call_views(old(calls)@) + calls_in(
            *t,
            from as int,
            to as int,
            text::views(old(scope)@),
            Names {
                bindings: bindings@,
                locals: text::views(locals@),
                module: str_option(module_name),
            },
        ),
    decreases to - from,
{
    let ghost names = Names {
        bindings: bindings@,
        locals: text::views(locals@),
        module: str_option(module_name),
    };
    let ghost c0 = call_views(calls@);
    let ghost s0 = text::views(scope@);
    let ghost whole = calls_in(*t, from as int, to as int, s0, names);
    let ghost scope0 = scope@;
    let mut i: usize = from;
    while i < to
        invariant
            from <= i <= to <= t.rows@.len(),
            names == (Names {
                bindings: bindings@,
                locals: text::views(locals@),
                module: str_option(module_name),
            }),
            scope@ == scope0,
            s0 == text::views(scope0),
            call_views(calls@) + calls_in(*t, i as int, to as int, s0, names) == c0 + whole,
        decreases to - i,
    {
        let next: usize = t.next_row(i);
        let end: usize = if next < to {
            next
        } else {
            to
        };
        let ghost c1 = call_views(calls@);
        let ghost inner = calls_in(*t, i + 1, end as int, inner_scope(*t, i as int, s0), names);
        let ghost rest = calls_in(*t, end as int, to as int, s0, names);
        let ghost all = calls_in(*t, i as int, to as int, s0, names);
        let name: String = if t.is_kind(i, "function_definition") || t.is_kind(
            i,
            "class_definition",
        ) {
            bare_name(t, i)
        } else {
            String::new()
        };
        if !name.as_str().is_empty() {
            scope.push(name);
            assert(text::views(scope@) =~= s0.push(name@));
            collect_calls(t, i + 1, end, scope, bindings, locals, module_name, calls);
            scope.pop();
            assert(scope@ =~= scope0);
            assert(all =~= inner + rest);
            assert(call_views(calls@) =~= c1 + inner);
            assert((c1 + inner) + rest =~= c1 + all);
        } else {
            let ghost own = own_call(*t, i as int, s0, names);
            if t.is_kind(i, "call") {
                if let Some(function) = t.field_child(i, "function") {
                    let callee: String = expr_to_name(t, function);
                    if !callee.as_str().is_empty() {
                        let caller: String = if scope.len() == 0 {
                            "__module__".to_owned()
                        } else {
                            join_texts(scope, ".")
                        };
                        let resolved_target: Option<String> = resolve_target(
                            callee.as_str(),
                            bindings,
                            locals,
                            module_name,
                        );
                        calls.push(
                            FunctionCall {
                                caller,
                                callee,
                                line: line_number(t, i),
                                resolved_target,
                            },
                        );
                        assert(call_views(calls@) =~= c1.push(calls@.last()@));
                        assert(call_views(calls@) =~= c1 + own);
                    }
                }
            }
            assert(call_views(calls@) =~= c1 + own);
            collect_calls(t, i + 1, end, scope, bindings, locals, module_name, calls);
            assert(scope@ == scope0);
            assert(all =~= own + inner + rest);
            assert(call_views(calls@) =~= c1 + own + inner);
            assert((c1 + own + inner) + rest =~= c1 + all);
        }
        i = end;
    }
    assert(calls_in(*t, to as int, to as int, s0, names) =~= seq![]);
    assert(call_views(calls@) =~= c0 + whole);
}

// ---------------------------------------------------------------------------
// The whole file
// ---------------------------------------------------------------------------

impl AstDependencies {
    /// No dependencies.
    pub fn empty() -> (d: AstDependencies)
        ensures
            d.imports@.len() == 0,
            d.function_defs@.len() == 0,
            d.definitions@.len() == 0,
            d.calls@.len() == 0,
    {
        AstDependencies {
            imports: Vec::new(),
            function_defs: Vec::new(),
            definitions: Vec::new(),
            calls: Vec::new(),
        }
    }

    /// Whether these are the imports, definitions and calls of the tree, seen
    /// from the given module.
    pub open spec fn reads(&self, t: SyntaxTree, module: Option<Seq<char>>) -> bool {
        let events = import_events(t, 0);
        let defs = definitions(t);
        let names = Names {
            bindings: bindings_after(Map::empty(), events),
            locals: recorded(defs).map_values(|d: DefinitionView| d.name),
            module,
        };
        &&& text::views(self.imports@) == imports_after(seq![], events)
        &&& text::views(self.function_defs@) == function_names(defs)
        &&& definition_views(self.definitions@) == recorded(defs)
        &&& call_views(self.calls@) == calls_in(t, 0, t.rows@.len() as int, seq![], names)
    }

    /// Whether these are what a parse gives: read off its tree, or nothing
    /// where there is none.
    pub open spec fn reads_parse(
        &self,
        parsed: Option<SyntaxTree>,
        module: Option<Seq<char>>,
    ) -> bool {
        match parsed {
            Some(t) => self.reads(t, module),
            None => self.imports@.len() == 0 && self.function_defs@.len() == 0
                && self.definitions@.len() == 0 && self.calls@.len() == 0,
        }
    }
}

/// The imports, definitions and calls of a parsed Python source.
pub fn python_deps_of_tree(t: &SyntaxTree, module_name: Option<&str>) -> (d: AstDependencies)
    ensures
        d.reads(
            *t,
            str_option(module_name),
        ),
{
    let mut imports: Vec<String> = Vec::new();
    let mut bindings: TextMap = TextMap::new();
    let ghost events = import_events(*t, 0);
    let ghost defs = definitions(*t);
    assert(text::views(imports@) =~= seq![]);
    collect_imports(t, &mut imports, &mut bindings);
    let mut function_defs: Vec<String> = Vec::new();
    let mut definitions: Vec<FunctionDefinition> = Vec::new();
    let prefix: Vec<String> = Vec::new();
    assert(text::views(function_defs@) =~= seq![]);
    assert(definition_views(definitions@) =~= seq![]);
    assert(text::views(prefix@) =~= seq![]);
    if t.rows.len() > 0 {
        collect_definitions_in_scope(t, 0, &prefix, &mut function_defs, &mut definitions);
        assert(seq![] + recorded(defs) =~= recorded(defs));
        assert(seq![] + function_names(defs) =~= function_names(defs));
    } else {
        assert(defs =~= seq![]);
        assert(recorded(defs) =~= seq![]);
    }
    let mut locals: Vec<String> = Vec::new();
    let mut k: usize = 0;
    let ghost local_views = recorded(defs).map_values(|d: DefinitionView| d.name);
    while k < definitions.len()
        invariant
            k <= definitions@.len(),
            definition_views(definitions@) == recorded(defs),
            local_views == recorded(defs).map_values(|d: DefinitionView| d.name),
            text::views(locals@) == local_views.take(k as int),
        decreases definitions@.len() - k,
    {
        let ghost before = text::views(locals@);
        locals.push(definitions[k].name.clone());
        proof {
            assert(definition_views(definitions@)[k as int] == definitions@[k as int]@);
            assert(local_views[k as int] == definitions@[k as int].name@);
            assert(text::views(locals@) =~= before.push(local_views[k as int]));
            assert(text::views(locals@) =~= local_views.take(k + 1));
        }
        k = k + 1;
    }
    assert(local_views.take(k as int) =~= local_views);
    let mut scope: Vec<String> = Vec::new();
    let mut calls: Vec<FunctionCall> = Vec::new();
    assert(text::views(scope@) =~= seq![]);
    assert(call_views(calls@) =~= seq![]);
    collect_calls(
        t,
        0,
        t.rows.len(),
        &mut scope,
        &bindings,
        &locals,
        module_name,
        &mut calls,
    );
    let d = AstDependencies { imports, function_defs, definitions, calls };
    assert(call_views(d.calls@) =~= calls_in(
        *t,
        0,
        t.rows@.len() as int,
        seq![],
        Names {
            bindings: bindings_after(Map::empty(), events),
            locals: local_views,
            module: str_option(module_name),
        },
    ));
    d
}

/// The imports, definitions and calls of a Python source whose parse gave
/// `parsed`.
pub fn python_deps_of_parse(parsed: &Option<SyntaxTree>, module_name: Option<&str>) -> (d:
    AstDependencies)
    ensures
        d.reads_parse(*parsed, str_option(module_name)),
{
    match parsed {
        Some(t) => python_deps_of_tree(t, module_name),
        None => AstDependencies::empty(),
    }
}

/// Extract Python imports, definitions and calls from `source`.
pub fn extract_python_deps(source: &str) -> (d: AstDependencies)
    ensures
        exists|parsed: Option<SyntaxTree>|
            syntax::is_parse_of(parsed, Grammar::Python, source@) && #[trigger] d.reads_parse(
                parsed,
                None,
            ),
{
    extract_python_deps_with_module(source, None)
}

/// Same as `extract_python_deps` but with an optional module name against
/// which relative imports and calls are resolved. A parse that did not end in
/// time gives nothing.
pub fn extract_python_deps_with_module(source: &str, module_name: Option<&str>) -> (d:
    AstDependencies)
    ensures
        exists|parsed: Option<SyntaxTree>|
            syntax::is_parse_of(parsed, Grammar::Python, source@) && #[trigger] d.reads_parse(
                parsed,
                str_option(module_name),
            ),
{
    let parsed: Option<SyntaxTree> = parse(Grammar::Python, source);
    python_deps_of_parse(&parsed, module_name)
}

// ---------------------------------------------------------------------------
// What imports say
// ---------------------------------------------------------------------------

/// Whether node `c` spells a name.
pub open spec fn is_name_node(t: SyntaxTree, c: int) -> bool {
    syntax::kind_of(t, c) == "dotted_name"@ || syntax::kind_of(t, c) == "identifier"@
}

/// Whether node `c` is `name as local`: the first and the last of exactly two
/// names in it.
pub open spec fn is_alias(t: SyntaxTree, c: int, name: Seq<char>, local: Seq<char>) -> bool {
    let nodes = syntax::children(t, c);
    &&& syntax::kind_of(t, c) == "aliased_import"@
    &&& name.len() > 0
    &&& local.len() > 0
    &&& exists|p: int, q: int|
        0 <= p < q < nodes.len() && #[trigger] is_name_node(t, nodes[p]) && #[trigger] is_name_node(
            t,
            nodes[q],
        ) && syntax::node_text(t, nodes[p]) == name && syntax::node_text(t, nodes[q]) == local
            && forall|r: int|
            0 <= r < nodes.len() && r != p && r != q ==> !is_name_node(t, #[trigger] nodes[r])
}

/// Whether the text of node `r` is `word`, or starts with `word` and a dot.
pub open spec fn is_word(t: SyntaxTree, r: int, word: Seq<char>) -> bool {
    syntax::node_text(t, r) == word || root_of(syntax::node_text(t, r)) == word
}

/// Whether node `c` or one of its children is `word`.
pub open spec fn has_word(t: SyntaxTree, c: int, word: Seq<char>) -> bool {
    is_word(t, c, word) || exists|k: int|
        0 <= k < syntax::children(t, c).len() && is_word(
            t,
            #[trigger] syntax::children(t, c)[k],
            word,
        )
}

/// Whether a child of node `i`, from the `from`th on, has `word`.
pub open spec fn later_has_word(t: SyntaxTree, i: int, from: int, word: Seq<char>) -> bool {
    exists|k: int|
        from <= k < syntax::children(t, i).len() && has_word(
            t,
            #[trigger] syntax::children(t, i)[k],
            word,
        )
}

/// Whether no import statement from row `from` on mentions `word`.
pub open spec fn unmentioned_from(t: SyntaxTree, from: int, word: Seq<char>) -> bool {
    forall|j: int|
        from <= j < t.rows@.len() && #[trigger] is_import(t, j) ==> !later_has_word(t, j, 0, word)
}

/// Whether node `i` is an import statement that stands in no other one.
pub open spec fn is_outer_import(t: SyntaxTree, i: int) -> bool {
    &&& 0 <= i < t.rows@.len()
    &&& is_import(t, i)
    &&& forall|j: int| 0 <= j < i && #[trigger] is_import(t, j) ==> syntax::next_row(t, j) <= i
}

/// The bindings that the imports of a whole source make.
pub open spec fn source_bindings(t: SyntaxTree) -> Map<Seq<char>, Seq<char>> {
    bindings_after(Map::empty(), import_events(t, 0))
}

/// The modules that a whole source imports.
pub open spec fn source_imports(t: SyntaxTree) -> Seq<Seq<char>> {
    imports_after(seq![], import_events(t, 0))
}

/// Whether no event binds `word`.
spec fn binds_not(events: Seq<ImportEvent>, word: Seq<char>) -> bool {
    forall|k: int|
        0 <= k < events.len() ==> (#[trigger] events[k] matches ImportEvent::Bind(l, _) ==> l
            != word)
}

/// Events that do not bind a name leave its binding.
proof fn lemma_binding_kept(
    bindings: Map<Seq<char>, Seq<char>>,
    events: Seq<ImportEvent>,
    word: Seq<char>,
)
    requires
        binds_not(events, word),
    ensures
        bindings_after(bindings, events).contains_key(word) == bindings.contains_key(word),
        bindings.contains_key(word) ==> bindings_after(bindings, events)[word] == bindings[word],
    decreases events.len(),
{
    if events.len() > 0 {
        let before = events.drop_last();
        assert forall|k: int| 0 <= k < before.len() implies (#[trigger] before[k] matches ImportEvent::Bind(
            l,
            _,
        ) ==> l != word) by {
            assert(before[k] == events[k]);
        }
        lemma_binding_kept(bindings, before, word);
        assert(events.last() == events[events.len() - 1]);
    }
}

/// The last event that binds a name decides.
proof fn lemma_last_binding(
    bindings: Map<Seq<char>, Seq<char>>,
    events: Seq<ImportEvent>,
    q: int,
    word: Seq<char>,
    target: Seq<char>,
)
    requires
        0 <= q < events.len(),
        events[q] == ImportEvent::Bind(word, target),
        binds_not(events.skip(q + 1), word),
    ensures
        bindings_after(bindings, events).contains_key(word),
        bindings_after(bindings, events)[word] == target,
{
    let first = events.take(q + 1);
    let rest = events.skip(q + 1);
    assert(events =~= first + rest);
    lemma_event_add(seq![], bindings, first, rest);
    assert(first.drop_last() =~= events.take(q));
    assert(first.last() == events[q]);
    lemma_binding_kept(bindings_after(bindings, first), rest, word);
}

/// What is listed stays listed.
proof fn lemma_imports_kept(imports: Seq<Seq<char>>, events: Seq<ImportEvent>, name: Seq<char>)
    requires
        imports.contains(name),
    ensures
        imports_after(imports, events).contains(name),
    decreases events.len(),
{
    if events.len() > 0 {
        lemma_imports_kept(imports, events.drop_last(), name);
        let before = imports_after(imports, events.drop_last());
        match events.last() {
            ImportEvent::Import(n) => {
                text::lemma_push_contains(before, text::trim(n), name);
            },
            ImportEvent::Bind(_, _) => {},
        }
    }
}

/// A name that an event imports is listed.
proof fn lemma_import_listed(
    imports: Seq<Seq<char>>,
    events: Seq<ImportEvent>,
    q: int,
    name: Seq<char>,
)
    requires
        0 <= q < events.len(),
        events[q] == ImportEvent::Import(name),
        text::trim(name).len() > 0,
    ensures
        imports_after(imports, events).contains(text::trim(name)),
{
    let first = events.take(q + 1);
    let rest = events.skip(q + 1);
    assert(events =~= first + rest);
    lemma_event_add(imports, Map::empty(), first, rest);
    assert(first.last() == events[q]);
    let before = imports_after(imports, first.drop_last());
    text::lemma_push_contains(before, text::trim(name), text::trim(name));
    lemma_imports_kept(imports_after(imports, first), rest, text::trim(name));
}

/// The names in an aliased import, as they are read.
proof fn lemma_alias_read(
    t: SyntaxTree,
    nodes: Seq<int>,
    p: int,
    q: int,
    n: int,
)
    requires
        0 <= p < q < nodes.len(),
        0 <= n <= nodes.len(),
        is_name_node(t, nodes[p]),
        is_name_node(t, nodes[q]),
        syntax::node_text(t, nodes[p]).len() > 0,
        forall|r: int|
            0 <= r < nodes.len() && r != p && r != q ==> !is_name_node(t, #[trigger] nodes[r]),
    ensures
        alias_in(t, nodes, n).name == if n > p {
            syntax::node_text(t, nodes[p])
        } else {
            seq![]
        },
        alias_in(t, nodes, n).as_name == if n > q {
            syntax::node_text(t, nodes[q])
        } else {
            seq![]
        },
    decreases n,
{
    if n > 0 {
        lemma_alias_read(t, nodes, p, q, n - 1);
        if n - 1 != p && n - 1 != q {
            assert(!is_name_node(t, nodes[n - 1]));
        }
    }
}

/// What `name as local` is read as.
proof fn lemma_alias(t: SyntaxTree, c: int, name: Seq<char>, local: Seq<char>)
    requires
        is_alias(t, c, name, local),
    ensures
        alias_of(t, c).name == name,
        alias_of(t, c).as_name == local,
{
    let nodes = syntax::children(t, c);
    let (p, q) = choose|p: int, q: int|
        0 <= p < q < nodes.len() && #[trigger] is_name_node(t, nodes[p]) && #[trigger] is_name_node(
            t,
            nodes[q],
        ) && syntax::node_text(t, nodes[p]) == name && syntax::node_text(t, nodes[q]) == local
            && forall|r: int|
            0 <= r < nodes.len() && r != p && r != q ==> !is_name_node(t, #[trigger] nodes[r]);
    lemma_alias_read(t, nodes, p, q, nodes.len() as int);
}

/// The names of an aliased import are texts of nodes in it, or nothing.
proof fn lemma_alias_words(t: SyntaxTree, c: int, n: int)
    requires
        0 <= n <= syntax::children(t, c).len(),
    ensures
        ({
            let alias = alias_in(t, syntax::children(t, c), n);
            &&& alias.name.len() > 0 ==> has_word(t, c, alias.name) && has_word(
                t,
                c,
                root_of(alias.name),
            )
            &&& alias.as_name.len() > 0 ==> has_word(t, c, alias.as_name)
        }),
    decreases n,
{
    if n > 0 {
        lemma_alias_words(t, c, n - 1);
        let r = syntax::children(t, c)[n - 1];
        let word = syntax::node_text(t, r);
        assert(is_word(t, r, word));
        assert(is_word(t, r, root_of(word)));
        assert(has_word(t, c, word));
        assert(has_word(t, c, root_of(word)));
    }
}

/// The names that one child of an `import` statement binds are mentioned in
/// it.
proof fn lemma_plain_words(t: SyntaxTree, c: int, word: Seq<char>)
    requires
        !has_word(t, c, word),
    ensures
        binds_not(plain_import_events(t, c), word),
{
    lemma_alias_words(t, c, syntax::children(t, c).len() as int);
    assert(is_word(t, c, root_of(syntax::node_text(t, c))));
}

/// The names that the children of an `import` statement from the `k`th on bind
/// are mentioned in these.
proof fn lemma_import_words(t: SyntaxTree, i: int, k: int, n: int, word: Seq<char>)
    requires
        0 <= k <= n <= syntax::children(t, i).len(),
        !later_has_word(t, i, k, word),
    ensures
        ({
            let nodes = syntax::children(t, i);
            let first = import_statement_events(t, nodes, k);
            let all = import_statement_events(t, nodes, n);
            &&& first.len() <= all.len()
            &&& all.take(first.len() as int) == first
            &&& binds_not(all.skip(first.len() as int), word)
        }),
    decreases n,
{
    let nodes = syntax::children(t, i);
    let first = import_statement_events(t, nodes, k);
    let all = import_statement_events(t, nodes, n);
    if n == k {
        assert(all.take(first.len() as int) =~= first);
    } else {
        lemma_import_words(t, i, k, n - 1, word);
        let before = import_statement_events(t, nodes, n - 1);
        let more = plain_import_events(t, nodes[n - 1]);
        assert(!has_word(t, nodes[n - 1], word));
        lemma_plain_words(t, nodes[n - 1], word);
        assert(all.take(first.len() as int) =~= before.take(first.len() as int));
        assert forall|j: int| 0 <= j < all.skip(first.len() as int).len() implies (
        #[trigger] all.skip(first.len() as int)[j] matches ImportEvent::Bind(l, _) ==> l != word) by {
            let x = j + first.len();
            if x < before.len() {
                assert(before.skip(first.len() as int)[j] == all[x]);
            } else {
                assert(more[x - before.len()] == all[x]);
            }
        }
    }
}

/// The names of a `from` statement are mentioned in its children.
proof fn lemma_from_words(t: SyntaxTree, i: int, n: int)
    requires
        0 <= n <= syntax::children(t, i).len(),
    ensures
        forall|q: int|
            #![trigger from_parts(t, syntax::children(t, i), n).names[q]]
            0 <= q < from_parts(t, syntax::children(t, i), n).names.len() ==> {
                let local = from_parts(t, syntax::children(t, i), n).names[q].1;
                local == "*"@ || later_has_word(t, i, 0, local)
            },
    decreases n,
{
    if n > 0 {
        lemma_from_words(t, i, n - 1);
        let nodes = syntax::children(t, i);
        let c = nodes[n - 1];
        let before = from_parts(t, nodes, n - 1);
        let after = from_parts(t, nodes, n);
        lemma_alias_words(t, c, syntax::children(t, c).len() as int);
        lemma_relative_keeps(t, syntax::children(t, c), syntax::children(t, c).len() as int, before);
        assert(is_word(t, c, syntax::node_text(t, c)));
        assert(has_word(t, c, syntax::node_text(t, c)));
        assert forall|q: int| 0 <= q < after.names.len() implies (#[trigger] after.names[q]).1
            == "*"@ || later_has_word(t, i, 0, after.names[q].1) by {
            if q < before.names.len() {
                assert(after.names[q] == before.names[q]);
            } else {
                let local = after.names[q].1;
                if local != "*"@ {
                    assert(has_word(t, nodes[n - 1], local));
                }
            }
        }
    }
}

/// A relative import changes neither the names nor the place.
proof fn lemma_relative_keeps(t: SyntaxTree, nodes: Seq<int>, n: int, parts: FromParts)
    ensures
        relative_parts(t, nodes, n, parts).names == parts.names,
        relative_parts(t, nodes, n, parts).after_import == parts.after_import,
    decreases n,
{
    if n > 0 {
        lemma_relative_keeps(t, nodes, n - 1, parts);
    }
}

/// The events of `from .. import ..` bind the local names.
proof fn lemma_sibling_events(
    dots: Seq<char>,
    names: Seq<(Seq<char>, Seq<char>)>,
    n: int,
    word: Seq<char>,
)
    requires
        0 <= n <= names.len(),
        forall|q: int| 0 <= q < names.len() ==> (#[trigger] names[q]).1 != word,
    ensures
        binds_not(all_sibling_events(dots, names, n), word),
    decreases n,
{
    if n > 0 {
        lemma_sibling_events(dots, names, n - 1, word);
        let before = all_sibling_events(dots, names, n - 1);
        let more = sibling_events(dots, names[n - 1]);
        let all = all_sibling_events(dots, names, n);
        assert forall|j: int| 0 <= j < all.len() implies (#[trigger] all[j] matches ImportEvent::Bind(
            l,
            _,
        ) ==> l != word) by {
            if j < before.len() {
                assert(before[j] == all[j]);
            } else {
                assert(more[j - before.len()] == all[j]);
            }
        }
    }
}

/// An import statement binds only names that it mentions.
proof fn lemma_statement_words(t: SyntaxTree, i: int, word: Seq<char>)
    requires
        !later_has_word(t, i, 0, word),
        word != "*"@,
    ensures
        binds_not(statement_events(t, i), word),
{
    let nodes = syntax::children(t, i);
    let n = nodes.len() as int;
    if syntax::kind_of(t, i) == "import_statement"@ {
        lemma_import_words(t, i, 0, n, word);
        let all = import_statement_events(t, nodes, n);
        assert(all.skip(0) =~= all);
    } else {
        lemma_from_words(t, i, n);
        let parts = from_parts(t, nodes, n);
        assert forall|q: int| 0 <= q < parts.names.len() implies (#[trigger] parts.names[q]).1
            != word by {}
        lemma_sibling_events(parts.dots, parts.names, parts.names.len() as int, word);
        let events = from_statement_events(parts);
        if parts.module.len() > 0 {
            let dep = parts.dots + parts.module;
            assert forall|j: int| 0 <= j < events.len() implies (
            #[trigger] events[j] matches ImportEvent::Bind(l, _) ==> l != word) by {
                if j > 0 {
                    assert(events[j] == member_event(dep, parts.names[j - 1]));
                }
            }
        }
    }
}

/// The statements from a row on bind only names that they mention.
proof fn lemma_later_statements(t: SyntaxTree, from: int, word: Seq<char>)
    requires
        0 <= from,
        unmentioned_from(t, from, word),
        word != "*"@,
    ensures
        binds_not(import_events(t, from), word),
    decreases t.rows@.len() - from,
{
    if from < t.rows@.len() {
        if is_import(t, from) {
            let next = syntax::next_row(t, from);
            lemma_later_statements(t, next, word);
            lemma_statement_words(t, from, word);
            let first = statement_events(t, from);
            let rest = import_events(t, next);
            let all = import_events(t, from);
            assert forall|j: int| 0 <= j < all.len() implies (
            #[trigger] all[j] matches ImportEvent::Bind(l, _) ==> l != word) by {
                if j < first.len() {
                    assert(first[j] == all[j]);
                } else {
                    assert(rest[j - first.len()] == all[j]);
                }
            }
        } else {
            lemma_later_statements(t, from + 1, word);
        }
    }
}

/// What a statement says comes before what the later ones say.
proof fn lemma_outer_events(t: SyntaxTree, i: int, from: int) -> (before: Seq<ImportEvent>)
    requires
        is_outer_import(t, i),
        0 <= from <= i,
    ensures
        import_events(t, from) == before + statement_events(t, i) + import_events(
            t,
            syntax::next_row(t, i),
        ),
    decreases i - from,
{
    if from == i {
        let before = Seq::<ImportEvent>::empty();
        assert(import_events(t, from) =~= before + statement_events(t, i) + import_events(
            t,
            syntax::next_row(t, i),
        ));
        before
    } else if is_import(t, from) {
        let rest = lemma_outer_events(t, i, syntax::next_row(t, from));
        let before = statement_events(t, from) + rest;
        assert(import_events(t, from) =~= before + statement_events(t, i) + import_events(
            t,
            syntax::next_row(t, i),
        ));
        before
    } else {
        lemma_outer_events(t, i, from + 1)
    }
}

/// What the last statement that binds a name says holds of the whole source.
proof fn lemma_source_binding(
    t: SyntaxTree,
    i: int,
    q: int,
    word: Seq<char>,
    target: Seq<char>,
)
    requires
        is_outer_import(t, i),
        0 <= q < statement_events(t, i).len(),
        statement_events(t, i)[q] == ImportEvent::Bind(word, target),
        binds_not(statement_events(t, i).skip(q + 1), word),
        unmentioned_from(t, syntax::next_row(t, i), word),
        word != "*"@,
    ensures
        source_bindings(t).contains_key(word),
        source_bindings(t)[word] == target,
{
    let before = lemma_outer_events(t, i, 0);
    let own = statement_events(t, i);
    let later = import_events(t, syntax::next_row(t, i));
    lemma_later_statements(t, syntax::next_row(t, i), word);
    let all = import_events(t, 0);
    let x = before.len() + q;
    assert(all[x] == own[q]);
    let rest = all.skip(x + 1);
    assert forall|j: int| 0 <= j < rest.len() implies (#[trigger] rest[j] matches ImportEvent::Bind(
        l,
        _,
    ) ==> l != word) by {
        if j < own.len() - q - 1 {
            assert(own.skip(q + 1)[j] == rest[j]);
        } else {
            assert(later[j - (own.len() - q - 1)] == rest[j]);
        }
    }
    lemma_last_binding(Map::empty(), all, x, word, target);
}

/// What a statement imports is listed for the whole source.
proof fn lemma_source_import(t: SyntaxTree, i: int, q: int, name: Seq<char>)
    requires
        is_outer_import(t, i),
        0 <= q < statement_events(t, i).len(),
        statement_events(t, i)[q] == ImportEvent::Import(name),
        text::trim(name).len() > 0,
    ensures
        source_imports(t).contains(text::trim(name)),
{
    let before = lemma_outer_events(t, i, 0);
    let all = import_events(t, 0);
    assert(all[before.len() + q] == statement_events(t, i)[q]);
    lemma_import_listed(seq![], all, before.len() + q, name);
}

/// What a called name means that is bound to an imported thing: the thing
/// itself, and of what follows a dot behind the name, that in the thing.
proof fn lemma_bound_target(names: Names, local: Seq<char>, member: Seq<char>)
    requires
        names.bindings.contains_key(local),
        local.len() > 0,
        !local.contains('.'),
        member.len() > 0,
        absolute_name(names.bindings[local], names.module) is Some,
    ensures
        target_of(local, names) == absolute_name(names.bindings[local], names.module),
        target_of(local + "."@ + member, names) == Some(
            absolute_name(names.bindings[local], names.module).unwrap() + "."@ + member,
        ),
{
    reveal_strlit(".");
    assert forall|j: int| 0 <= j < local.len() implies local[j] != '.' by {
        if local[j] == '.' {
            assert(local.contains('.'));
        }
    }
    text::lemma_find_char_is(local, '.', local.len() as int);
    assert(root_of(local) =~= local);
    let callee = local + "."@ + member;
    text::lemma_find_char_is(callee, '.', local.len() as int);
    assert(root_of(callee) =~= local);
    assert(after_root(callee) =~= member);
}

/// A name that starts with no dot is absolute.
proof fn lemma_absolute(name: Seq<char>, module: Option<Seq<char>>)
    requires
        name.len() == 0 || name[0] != '.',
    ensures
        absolute_name(name, module) == Some(name),
{
}

/// `import name as local` makes `local` stand for the module `name` from there
/// on, as long as no other import mentions it: a call of `local.member` is one
/// of `name.member`. The module is listed among the imports.
pub proof fn law_an_alias_stands_for_its_module(
    t: SyntaxTree,
    i: int,
    k: int,
    name: Seq<char>,
    local: Seq<char>,
    member: Seq<char>,
    names: Names,
)
    requires
        is_outer_import(t, i),
        syntax::kind_of(t, i) == "import_statement"@,
        0 <= k < syntax::children(t, i).len(),
        is_alias(t, syntax::children(t, i)[k], name, local),
        !later_has_word(t, i, k + 1, local),
        unmentioned_from(t, syntax::next_row(t, i), local),
        local != "*"@,
        !local.contains('.'),
        name[0] != '.',
        member.len() > 0,
        names.bindings == source_bindings(t),
    ensures
        source_imports(t).contains(name),
        source_bindings(t).contains_key(local),
        source_bindings(t)[local] == name,
        target_of(local, names) == Some(name),
        target_of(local + "."@ + member, names) == Some(name + "."@ + member),
{
    let nodes = syntax::children(t, i);
    let c = nodes[k];
    lemma_alias(t, c, name, local);
    reveal_strlit("dotted_name");
    reveal_strlit("aliased_import");
    assert("dotted_name"@.len() != "aliased_import"@.len());
    let first = import_statement_events(t, nodes, k + 1);
    let own = plain_import_events(t, c);
    let before = import_statement_events(t, nodes, k);
    assert(own =~= seq![ImportEvent::Import(name), ImportEvent::Bind(local, name)]);
    lemma_import_words(t, i, k + 1, nodes.len() as int, local);
    let all = statement_events(t, i);
    let q = before.len() as int + 1;
    assert(first[q] == own[1]);
    assert(first[q - 1] == own[0]);
    assert(all[q] == all.take(first.len() as int)[q]);
    assert(all[q - 1] == all.take(first.len() as int)[q - 1]);
    assert(all.skip(q + 1) =~= all.skip(first.len() as int));
    lemma_source_binding(t, i, q, local, name);
    lemma_alias_trimmed(t, c, name, local);
    lemma_source_import(t, i, q - 1, name);
    lemma_absolute(name, names.module);
    lemma_bound_target(names, local, member);
}

/// The text of a node has no white space around it.
proof fn lemma_node_text_trimmed(t: SyntaxTree, c: int)
    ensures
        text::trim(syntax::node_text(t, c)) == syntax::node_text(t, c),
{
    text::lemma_trim_twice(syntax::raw_text(t, c));
}

/// The name in an aliased import has no white space around it.
proof fn lemma_alias_trimmed(t: SyntaxTree, c: int, name: Seq<char>, local: Seq<char>)
    requires
        is_alias(t, c, name, local),
    ensures
        text::trim(name) == name,
{
    let nodes = syntax::children(t, c);
    let (p, q) = choose|p: int, q: int|
        0 <= p < q < nodes.len() && #[trigger] is_name_node(t, nodes[p]) && #[trigger] is_name_node(
            t,
            nodes[q],
        ) && syntax::node_text(t, nodes[p]) == name && syntax::node_text(t, nodes[q]) == local
            && forall|r: int|
            0 <= r < nodes.len() && r != p && r != q ==> !is_name_node(t, #[trigger] nodes[r]);
    lemma_node_text_trimmed(t, nodes[p]);
}

/// `import a.b` lists the module and makes its first name stand for itself: a
/// call of `a.b.member` is one of just that.
pub proof fn law_a_plain_import_stands_for_itself(
    t: SyntaxTree,
    i: int,
    k: int,
    root: Seq<char>,
    member: Seq<char>,
    names: Names,
)
    requires
        is_outer_import(t, i),
        syntax::kind_of(t, i) == "import_statement"@,
        0 <= k < syntax::children(t, i).len(),
        syntax::kind_of(t, syntax::children(t, i)[k]) == "dotted_name"@,
        root.len() > 0,
        !root.contains('.'),
        syntax::node_text(t, syntax::children(t, i)[k]) == root || (root + "."@).is_prefix_of(
            syntax::node_text(t, syntax::children(t, i)[k]),
        ),
        !later_has_word(t, i, k + 1, root),
        unmentioned_from(t, syntax::next_row(t, i), root),
        root != "*"@,
        member.len() > 0,
        names.bindings == source_bindings(t),
    ensures
        source_imports(t).contains(syntax::node_text(t, syntax::children(t, i)[k])),
        source_bindings(t).contains_key(root),
        source_bindings(t)[root] == root,
        target_of(root, names) == Some(root),
        target_of(root + "."@ + member, names) == Some(root + "."@ + member),
{
    reveal_strlit(".");
    let nodes = syntax::children(t, i);
    let c = nodes[k];
    let name = syntax::node_text(t, c);
    assert forall|j: int| 0 <= j < root.len() implies root[j] != '.' && name[j] == root[j] by {
        if root[j] == '.' {
            assert(root.contains('.'));
        }
        if name != root {
            assert(name[j] == (root + "."@)[j]);
        }
    }
    if name != root {
        assert(name[root.len() as int] == (root + "."@)[root.len() as int]);
    }
    text::lemma_find_char_is(name, '.', root.len() as int);
    assert(root_of(name) =~= root);
    let first = import_statement_events(t, nodes, k + 1);
    let own = plain_import_events(t, c);
    let before = import_statement_events(t, nodes, k);
    assert(own =~= seq![ImportEvent::Import(name), ImportEvent::Bind(root, root)]);
    lemma_import_words(t, i, k + 1, nodes.len() as int, root);
    let all = statement_events(t, i);
    let q = before.len() as int + 1;
    assert(first[q] == own[1]);
    assert(first[q - 1] == own[0]);
    assert(all[q] == all.take(first.len() as int)[q]);
    assert(all[q - 1] == all.take(first.len() as int)[q - 1]);
    assert(all.skip(q + 1) =~= all.skip(first.len() as int));
    lemma_source_binding(t, i, q, root, root);
    lemma_node_text_trimmed(t, c);
    lemma_source_import(t, i, q - 1, name);
    assert(root[0] != '.');
    lemma_absolute(root, names.module);
    lemma_bound_target(names, root, member);
}

/// Whether `from <dots><module> import` is what the children of node `i` up to
/// the `p`th are: the module alone, or dots with or without one.
pub open spec fn is_from(
    t: SyntaxTree,
    i: int,
    p: int,
    dots: Seq<char>,
    module: Seq<char>,
) -> bool {
    let nodes = syntax::children(t, i);
    &&& syntax::kind_of(t, i) == "import_from_statement"@
    &&& 0 <= p < nodes.len()
    &&& syntax::kind_of(t, nodes[p]) == "import"@
    &&& exists|q: int|
        0 <= q < p && names_module(t, #[trigger] nodes[q], dots, module) && forall|r: int|
            0 <= r < p && r != q ==> is_other_node(t, #[trigger] nodes[r])
}

/// Whether node `c` is no part of what a `from` statement imports from.
pub open spec fn is_other_node(t: SyntaxTree, c: int) -> bool {
    syntax::kind_of(t, c) != "dotted_name"@ && syntax::kind_of(t, c) != "relative_import"@
        && syntax::kind_of(t, c) != "import"@
}

/// Whether node `c` is the module, or the dots with or without one, that a
/// `from` statement imports from.
pub open spec fn names_module(t: SyntaxTree, c: int, dots: Seq<char>, module: Seq<char>) -> bool {
    let inner = syntax::children(t, c);
    if syntax::kind_of(t, c) == "dotted_name"@ {
        dots.len() == 0 && syntax::node_text(t, c) == module
    } else {
        &&& syntax::kind_of(t, c) == "relative_import"@
        &&& exists|g: int|
            0 <= g < inner.len() && is_dots(t, #[trigger] inner[g], dots) && forall|h: int|
                0 <= h < inner.len() && h != g ==> syntax::kind_of(t, #[trigger] inner[h])
                    != "import_prefix"@
        &&& if module.len() == 0 {
            forall|h: int|
                0 <= h < inner.len() ==> syntax::kind_of(t, #[trigger] inner[h]) != "dotted_name"@
        } else {
            exists|g: int|
                0 <= g < inner.len() && is_module(t, #[trigger] inner[g], module) && forall|h: int|
                    0 <= h < inner.len() && h != g ==> syntax::kind_of(t, #[trigger] inner[h])
                        != "dotted_name"@
        }
    }
}

/// Whether node `c` is the dots of a relative import.
pub open spec fn is_dots(t: SyntaxTree, c: int, dots: Seq<char>) -> bool {
    syntax::kind_of(t, c) == "import_prefix"@ && syntax::node_text(t, c) == dots
}

/// Whether node `c` is the module `module`.
pub open spec fn is_module(t: SyntaxTree, c: int, module: Seq<char>) -> bool {
    syntax::kind_of(t, c) == "dotted_name"@ && syntax::node_text(t, c) == module
}

/// The kinds of nodes in a `from` statement are different ones.
proof fn lemma_from_kinds()
    ensures
        "import"@ != "relative_import"@,
        "import"@ != "dotted_name"@,
        "import"@ != "aliased_import"@,
        "import"@ != "wildcard_import"@,
        "relative_import"@ != "dotted_name"@,
        "relative_import"@ != "aliased_import"@,
        "dotted_name"@ != "aliased_import"@,
        "import_prefix"@ != "dotted_name"@,
        "import_statement"@ != "import_from_statement"@,
{
    reveal_strlit("import");
    reveal_strlit("relative_import");
    reveal_strlit("dotted_name");
    reveal_strlit("aliased_import");
    reveal_strlit("wildcard_import");
    reveal_strlit("import_prefix");
    reveal_strlit("import_statement");
    reveal_strlit("import_from_statement");
    assert("import"@.len() == 6);
    assert("relative_import"@.len() == 15);
    assert("dotted_name"@.len() == 11);
    assert("aliased_import"@.len() == 14);
    assert("wildcard_import"@.len() == 15);
    assert("import_prefix"@.len() == 13);
    assert("import_statement"@.len() == 16);
    assert("import_from_statement"@.len() == 21);
}

/// The dots and the module of a relative import, as they are read.
proof fn lemma_relative_read(
    t: SyntaxTree,
    nodes: Seq<int>,
    n: int,
    parts: FromParts,
    g: int,
    m: int,
    dots: Seq<char>,
    module: Seq<char>,
)
    requires
        0 <= n <= nodes.len(),
        0 <= g < nodes.len(),
        is_dots(t, nodes[g], dots),
        forall|h: int|
            0 <= h < nodes.len() && h != g ==> syntax::kind_of(t, #[trigger] nodes[h])
                != "import_prefix"@,
        0 <= m < nodes.len() ==> is_module(t, nodes[m], module),
        forall|h: int|
            0 <= h < nodes.len() && h != m ==> syntax::kind_of(t, #[trigger] nodes[h])
                != "dotted_name"@,
    ensures
        relative_parts(t, nodes, n, parts) == (FromParts {
            dots: if n > g {
                dots
            } else {
                parts.dots
            },
            module: if 0 <= m < n {
                module
            } else {
                parts.module
            },
            ..parts
        }),
    decreases n,
{
    lemma_from_kinds();
    if n > 0 {
        lemma_relative_read(t, nodes, n - 1, parts, g, m, dots, module);
        if n - 1 != g {
            assert(syntax::kind_of(t, nodes[n - 1]) != "import_prefix"@);
        }
        if n - 1 != m {
            assert(syntax::kind_of(t, nodes[n - 1]) != "dotted_name"@);
        }
    }
}

/// The dots and the module that one node gives.
proof fn lemma_module_read(t: SyntaxTree, c: int, parts: FromParts, dots: Seq<char>, module: Seq<char>)
    requires
        names_module(t, c, dots, module),
        !parts.after_import,
        parts.dots.len() == 0,
        parts.module.len() == 0,
    ensures
        from_step(t, parts, c) == (FromParts { dots, module, ..parts }),
{
    lemma_from_kinds();
    let inner = syntax::children(t, c);
    if syntax::kind_of(t, c) == "dotted_name"@ {
        assert(dots =~= parts.dots);
    } else {
        let g = choose|g: int|
            0 <= g < inner.len() && is_dots(t, #[trigger] inner[g], dots) && forall|h: int|
                0 <= h < inner.len() && h != g ==> syntax::kind_of(t, #[trigger] inner[h])
                    != "import_prefix"@;
        let m = if module.len() == 0 {
            -1
        } else {
            choose|g: int|
                0 <= g < inner.len() && is_module(t, #[trigger] inner[g], module) && forall|h: int|
                    0 <= h < inner.len() && h != g ==> syntax::kind_of(t, #[trigger] inner[h])
                        != "dotted_name"@
        };
        lemma_relative_read(t, inner, inner.len() as int, parts, g, m, dots, module);
        if module.len() == 0 {
            assert(module =~= parts.module);
        }
    }
}

/// The parts of a `from` statement before the imported names, as they are
/// read.
proof fn lemma_from_head(
    t: SyntaxTree,
    nodes: Seq<int>,
    n: int,
    p: int,
    q: int,
    dots: Seq<char>,
    module: Seq<char>,
)
    requires
        0 <= q < p < nodes.len(),
        0 <= n <= p,
        names_module(t, nodes[q], dots, module),
        forall|r: int| 0 <= r < p && r != q ==> is_other_node(t, #[trigger] nodes[r]),
    ensures
        from_parts(t, nodes, n) == (FromParts {
            after_import: false,
            dots: if n > q {
                dots
            } else {
                seq![]
            },
            module: if n > q {
                module
            } else {
                seq![]
            },
            names: seq![],
        }),
    decreases n,
{
    lemma_from_kinds();
    if n > 0 {
        lemma_from_head(t, nodes, n - 1, p, q, dots, module);
        let before = from_parts(t, nodes, n - 1);
        if n - 1 == q {
            lemma_module_read(t, nodes[q], before, dots, module);
        } else {
            assert(is_other_node(t, nodes[n - 1]));
        }
    }
}

/// The parts of a `from` statement behind the word `import`, as they are read:
/// the names come one after the other.
proof fn lemma_from_tail(
    t: SyntaxTree,
    i: int,
    n: int,
    p: int,
    dots: Seq<char>,
    module: Seq<char>,
)
    requires
        is_from(t, i, p, dots, module),
        p < n <= syntax::children(t, i).len(),
    ensures
        ({
            let parts = from_parts(t, syntax::children(t, i), n);
            parts.after_import && parts.dots == dots && parts.module == module
        }),
        n == p + 1 ==> from_parts(t, syntax::children(t, i), n).names.len() == 0,
        n > p + 1 ==> from_parts(t, syntax::children(t, i), n - 1).names.is_prefix_of(
            from_parts(t, syntax::children(t, i), n).names,
        ),
        n > p + 1 ==> forall|q: int|
            from_parts(t, syntax::children(t, i), n - 1).names.len() <= q < from_parts(
                t,
                syntax::children(t, i),
                n,
            ).names.len() ==> (#[trigger] from_parts(t, syntax::children(t, i), n).names[q]).1
                == "*"@ || has_word(
                t,
                syntax::children(t, i)[n - 1],
                from_parts(t, syntax::children(t, i), n).names[q].1,
            ),
    decreases n,
{
    lemma_from_kinds();
    let nodes = syntax::children(t, i);
    let c = nodes[n - 1];
    if n == p + 1 {
        let q = choose|q: int|
            0 <= q < p && names_module(t, #[trigger] nodes[q], dots, module) && forall|r: int|
                0 <= r < p && r != q ==> is_other_node(t, #[trigger] nodes[r]);
        lemma_from_head(t, nodes, p, p, q, dots, module);
    } else {
        lemma_from_tail(t, i, n - 1, p, dots, module);
        lemma_alias_words(t, c, syntax::children(t, c).len() as int);
        assert(is_word(t, c, syntax::node_text(t, c)));
    }
}

/// The names that later children give are mentioned in these.
proof fn lemma_from_rest(
    t: SyntaxTree,
    i: int,
    k: int,
    n: int,
    p: int,
    dots: Seq<char>,
    module: Seq<char>,
    word: Seq<char>,
)
    requires
        is_from(t, i, p, dots, module),
        p < k <= n <= syntax::children(t, i).len(),
        !later_has_word(t, i, k, word),
        word != "*"@,
    ensures
        ({
            let first = from_parts(t, syntax::children(t, i), k).names;
            let all = from_parts(t, syntax::children(t, i), n).names;
            &&& first.is_prefix_of(all)
            &&& forall|q: int| first.len() <= q < all.len() ==> (#[trigger] all[q]).1 != word
        }),
    decreases n,
{
    let nodes = syntax::children(t, i);
    if n > k {
        lemma_from_rest(t, i, k, n - 1, p, dots, module, word);
        lemma_from_tail(t, i, n, p, dots, module);
        let first = from_parts(t, nodes, k).names;
        let before = from_parts(t, nodes, n - 1).names;
        let all = from_parts(t, nodes, n).names;
        assert(!has_word(t, nodes[n - 1], word));
        assert forall|q: int| first.len() <= q < all.len() implies (#[trigger] all[q]).1 != word by {
            if q < before.len() {
                assert(all[q] == before[q]);
            }
        }
        assert(first.is_prefix_of(all)) by {
            assert(first =~= all.take(first.len() as int)) by {
                assert forall|x: int| 0 <= x < first.len() implies first[x] == all[x] by {
                    assert(first[x] == before[x]);
                    assert(before[x] == all[x]);
                }
            }
        }
    }
}

/// The place of a name's event among those of `from .. import ..`.
proof fn lemma_sibling_place(
    dots: Seq<char>,
    names: Seq<(Seq<char>, Seq<char>)>,
    n: int,
    x: int,
) -> (q: int)
    requires
        0 <= x < n <= names.len(),
        names[x].0 != "*"@,
        forall|y: int| x < y < n ==> (#[trigger] names[y]).1 != names[x].1,
    ensures
        ({
            let events = all_sibling_events(dots, names, n);
            &&& 1 <= q < events.len()
            &&& events[q - 1] == ImportEvent::Import(dots + names[x].0)
            &&& events[q] == ImportEvent::Bind(names[x].1, dots + names[x].0)
            &&& binds_not(events.skip(q + 1), names[x].1)
        }),
    decreases n,
{
    let before = all_sibling_events(dots, names, n - 1);
    let own = sibling_events(dots, names[n - 1]);
    let events = all_sibling_events(dots, names, n);
    if x == n - 1 {
        let q = before.len() as int + 1;
        assert(events[q] == own[1]);
        assert(events[q - 1] == own[0]);
        assert(events.skip(q + 1) =~= seq![]);
        q
    } else {
        let q = lemma_sibling_place(dots, names, n - 1, x);
        assert(events[q] == before[q]);
        assert(events[q - 1] == before[q - 1]);
        let rest = events.skip(q + 1);
        assert forall|j: int| 0 <= j < rest.len() implies (
        #[trigger] rest[j] matches ImportEvent::Bind(l, _) ==> l != names[x].1) by {
            if j + q + 1 < before.len() {
                assert(before.skip(q + 1)[j] == rest[j]);
            } else {
                assert(own[j + q + 1 - before.len()] == rest[j]);
                assert(names[n - 1].1 != names[x].1);
            }
        }
        q
    }
}

/// `from module import name as local`, or `import name` where both are the
/// same, makes `local` stand for `name` in the module from there on, as long as
/// no other import mentions it; of `from . import name` it is the module `name`
/// of the package. The module that is imported is listed.
pub proof fn law_an_imported_name_stands_for_what_it_names(
    t: SyntaxTree,
    i: int,
    p: int,
    dots: Seq<char>,
    module: Seq<char>,
    k: int,
    name: Seq<char>,
    local: Seq<char>,
    member: Seq<char>,
    names: Names,
)
    requires
        is_outer_import(t, i),
        is_from(t, i, p, dots, module),
        dots.len() > 0 || module.len() > 0,
        p < k < syntax::children(t, i).len(),
        ({
            let c = syntax::children(t, i)[k];
            ||| is_alias(t, c, name, local)
            ||| is_module(t, c, name) && local == name
        }),
        name != "*"@,
        name.len() > 0,
        local.len() > 0,
        local != "*"@,
        !local.contains('.'),
        !later_has_word(t, i, k + 1, local),
        unmentioned_from(t, syntax::next_row(t, i), local),
        member.len() > 0,
        names.bindings == source_bindings(t),
    ensures
        ({
            let imported = if module.len() > 0 {
                dots + module
            } else {
                dots + name
            };
            let meant = if module.len() > 0 {
                dots + module + "."@ + name
            } else {
                dots + name
            };
            &&& text::trim(imported).len() > 0 ==> source_imports(t).contains(text::trim(imported))
            &&& source_bindings(t).contains_key(local)
            &&& source_bindings(t)[local] == meant
            &&& absolute_name(meant, names.module) matches Some(target) ==> target_of(local, names)
                == Some(target) && target_of(local + "."@ + member, names) == Some(
                target + "."@ + member,
            )
        }),
{
    lemma_from_kinds();
    let nodes = syntax::children(t, i);
    let n = nodes.len() as int;
    let c = nodes[k];
    lemma_from_tail(t, i, k + 1, p, dots, module);
    if k > p + 1 {
        lemma_from_tail(t, i, k, p, dots, module);
    } else {
        lemma_from_tail(t, i, p + 1, p, dots, module);
    }
    lemma_from_tail(t, i, n, p, dots, module);
    lemma_from_rest(t, i, k + 1, n, p, dots, module, local);
    if is_alias(t, c, name, local) {
        lemma_alias(t, c, name, local);
    }
    let before = from_parts(t, nodes, k).names;
    let first = from_parts(t, nodes, k + 1).names;
    let parts = from_parts(t, nodes, n);
    let x = before.len() as int;
    assert(first == before.push((name, local)));
    assert(parts.names[x] == first[x]);
    let events = statement_events(t, i);
    assert(events == from_statement_events(parts));
    if module.len() > 0 {
        let dep = dots + module;
        let q = x + 1;
        assert(events[q] == member_event(dep, parts.names[x]));
        assert(events[0] == ImportEvent::Import(dep));
        let rest = events.skip(q + 1);
        assert forall|j: int| 0 <= j < rest.len() implies (
        #[trigger] rest[j] matches ImportEvent::Bind(l, _) ==> l != local) by {
            assert(rest[j] == member_event(dep, parts.names[x + 1 + j]));
            assert(parts.names[x + 1 + j].1 != local);
        }
        lemma_source_binding(t, i, q, local, dep + "."@ + name);
        if text::trim(dep).len() > 0 {
            lemma_source_import(t, i, 0, dep);
        }
    } else {
        let q = lemma_sibling_place(dots, parts.names, parts.names.len() as int, x);
        lemma_source_binding(t, i, q, local, dots + name);
        if text::trim(dots + name).len() > 0 {
            lemma_source_import(t, i, q - 1, dots + name);
        }
    }
    if absolute_name(source_bindings(t)[local], names.module) is Some {
        lemma_bound_target(names, local, member);
    }
}

/// Seen from the module `package.module`, one dot stands for the package and
/// each further one for the package above it; above the topmost one only what
/// follows the dots is left. A name without dots stands for itself, and a
/// relative one for nothing where the module is not known.
pub proof fn law_relative_names_start_from_the_package(
    package: Seq<char>,
    module: Seq<char>,
    rest: Seq<char>,
    name: Seq<char>,
)
    requires
        !module.contains('.'),
        rest.len() > 0,
        rest[0] != '.',
        name.len() > 0,
        name[0] == '.',
    ensures
        absolute_name(rest, Some(package)) == Some(rest),
        absolute_name(rest, None) == Some(rest),
        absolute_name(name, None) is None,
        absolute_name("."@ + rest, Some(package + "."@ + module)) == Some(package + "."@ + rest),
        absolute_name("."@, Some(package + "."@ + module)) == Some(package),
        absolute_name("."@ + rest, Some(module)) == Some(module + "."@ + rest),
        package.contains('.') ==> absolute_name("."@ + name, Some(package + "."@ + module))
            == absolute_name(name, Some(package)),
        !package.contains('.') ==> absolute_name(".."@ + rest, Some(package + "."@ + module))
            == Some(rest),
{
    reveal_strlit(".");
    reveal_strlit("..");
    assert("."@ =~= seq!['.']);
    let caller = package + "."@ + module;
    let above = text::split_char(package, '.');
    text::lemma_split_at(package, module, '.');
    text::lemma_split_char_nonempty(package, '.');
    text::lemma_split_join(seq![module], '.');
    assert(text::join(seq![module], seq!['.']) == module);
    let own = text::split_char(module, '.');
    assert(own =~= seq![module]);
    let parts = text::split_char(caller, '.');
    assert(parts =~= above.push(module));
    assert(parts.drop_last() =~= above);
    text::lemma_join_split(package, '.');
    assert(leading_dots(rest) == 0);
    let one = "."@ + rest;
    assert(one.drop_first() =~= rest);
    assert(leading_dots(one) == 1);
    assert(one.skip(1) =~= rest);
    assert("."@.drop_first() =~= Seq::<char>::empty());
    assert(leading_dots("."@) == 1) by {
        reveal_with_fuel(leading_dots, 2);
    }
    assert("."@.skip(1) =~= Seq::<char>::empty());
    assert(above.take(above.len() as int) =~= above);
    assert(above.push(rest).drop_last() =~= above);
    assert(text::join(above.push(rest), "."@) =~= package + "."@ + rest);
    assert(own.take(1) =~= own);
    assert(own.push(rest).drop_last() =~= own);
    assert(text::join(own.push(rest), "."@) =~= module + "."@ + rest);
    lemma_dots_bound(name);
    let more = "."@ + name;
    let dots = leading_dots(name);
    assert(more.drop_first() =~= name);
    assert(leading_dots(more) == dots + 1);
    assert(more.skip(dots + 1) =~= name.skip(dots));
    if package.contains('.') {
        lemma_dotted_has_parts(package);
        let inner = above.drop_last();
        let up = dots - 1;
        if dots <= above.len() {
            assert(above.take(above.len() - dots) =~= inner.take(inner.len() - up));
        }
    } else {
        text::lemma_split_join(seq![package], '.');
        assert(text::join(seq![package], seq!['.']) == package);
        let two = ".."@ + rest;
        assert(two.drop_first() =~= one);
        assert(leading_dots(two) == 2);
        assert(two.skip(2) =~= rest);
        assert(above.take(0) =~= seq![]);
        let empty = Seq::<Seq<char>>::empty();
        assert(empty.push(rest).len() == 1);
        assert(text::join(empty.push(rest), "."@) == rest);
    }
}

/// A name has at most as many dots at its start as characters.
proof fn lemma_dots_bound(name: Seq<char>)
    ensures
        0 <= leading_dots(name) <= name.len(),
        name.len() > 0 && name[0] == '.' ==> leading_dots(name) > 0,
    decreases name.len(),
{
    if name.len() > 0 && name[0] == '.' {
        lemma_dots_bound(name.drop_first());
    }
}

/// A name with a dot has more than one part.
proof fn lemma_dotted_has_parts(name: Seq<char>)
    requires
        name.contains('.'),
    ensures
        text::split_char(name, '.').len() > 1,
{
    let k = choose|k: int| 0 <= k < name.len() && name[k] == '.';
    let a = name.take(k);
    let b = name.skip(k + 1);
    assert(name =~= a + seq!['.'] + b);
    text::lemma_split_at(a, b, '.');
    text::lemma_split_char_nonempty(a, '.');
    text::lemma_split_char_nonempty(b, '.');
}

// ---------------------------------------------------------------------------
// What calls and definitions say
// ---------------------------------------------------------------------------

/// Whether the rows are those of a tree: what starts within a node ends within
/// it.
pub open spec fn is_nested(t: SyntaxTree) -> bool {
    forall|a: int, b: int|
        0 <= a < b < #[trigger] syntax::next_row(t, a) ==> #[trigger] syntax::next_row(t, b)
            <= syntax::next_row(t, a)
}

/// The names of the definitions around node `i`, from row `a` on, the
/// outermost first.
pub open spec fn names_around(t: SyntaxTree, a: int, i: int) -> Seq<Seq<char>>
    decreases i - a,
{
    if a < i {
        (if is_definition(t, a) && definition_name(t, a).len() > 0 && syntax::next_row(t, a) > i {
            seq![definition_name(t, a)]
        } else {
            seq![]
        }) + names_around(t, a + 1, i)
    } else {
        seq![]
    }
}

/// Nothing that ends before a node is around it.
proof fn lemma_nothing_around(t: SyntaxTree, a: int, b: int, i: int)
    requires
        0 <= a <= b <= i,
        forall|j: int| a <= j < b ==> #[trigger] syntax::next_row(t, j) <= i,
    ensures
        names_around(t, a, i) == names_around(t, b, i),
    decreases b - a,
{
    if a < b {
        lemma_nothing_around(t, a + 1, b, i);
        assert(syntax::next_row(t, a) <= i);
        assert(seq![] + names_around(t, a + 1, i) =~= names_around(t, a + 1, i));
    }
}

/// What is in one of two lists is in both together.
pub proof fn lemma_in_either<T>(a: Seq<T>, b: Seq<T>, x: T)
    ensures
        (a + b).contains(x) <==> a.contains(x) || b.contains(x),
{
    if a.contains(x) {
        let k = choose|k: int| 0 <= k < a.len() && a[k] == x;
        assert((a + b)[k] == x);
    }
    if b.contains(x) {
        let k = choose|k: int| 0 <= k < b.len() && b[k] == x;
        assert((a + b)[a.len() + k] == x);
    }
    if (a + b).contains(x) {
        let k = choose|k: int| 0 <= k < (a + b).len() && (a + b)[k] == x;
        if k < a.len() {
            assert(a[k] == x);
        } else {
            assert(b[k - a.len()] == x);
        }
    }
}

/// A call in a range of rows is recorded, with the definitions around it.
proof fn lemma_call_recorded(
    t: SyntaxTree,
    from: int,
    to: int,
    scope: Seq<Seq<char>>,
    names: Names,
    i: int,
    function: int,
)
    requires
        is_nested(t),
        0 <= from <= i < to <= t.rows@.len(),
        syntax::kind_of(t, i) == "call"@,
        syntax::field_child(t, i, "function"@) == Some(function),
        expr_name(t, function).len() > 0,
    ensures
        calls_in(t, from, to, scope, names).contains(
            CallView {
                caller: scope_name(scope + names_around(t, from, i)),
                callee: expr_name(t, function),
                line: line_of(t, i),
                target: target_of(expr_name(t, function), names),
            },
        ),
    decreases to - from,
{
    let next = syntax::next_row(t, from);
    let end = if next < to {
        next
    } else {
        to
    };
    let own = if opens_scope(t, from) {
        seq![]
    } else {
        own_call(t, from, scope, names)
    };
    let inner = calls_in(t, from + 1, end, inner_scope(t, from, scope), names);
    let rest = calls_in(t, end, to, scope, names);
    let call = CallView {
        caller: scope_name(scope + names_around(t, from, i)),
        callee: expr_name(t, function),
        line: line_of(t, i),
        target: target_of(expr_name(t, function), names),
    };
    lemma_in_either(own, inner, call);
    lemma_in_either(own + inner, rest, call);
    if i == from {
        assert(!is_definition(t, i)) by {
            reveal_strlit("call");
            reveal_strlit("function_definition");
            reveal_strlit("class_definition");
            assert("call"@.len() == 4);
            assert("function_definition"@.len() == 19);
            assert("class_definition"@.len() == 16);
        }
        assert(scope + names_around(t, from, i) =~= scope);
        assert(own[0] == call);
    } else if i < end {
        lemma_call_recorded(t, from + 1, end, inner_scope(t, from, scope), names, i, function);
        assert(inner_scope(t, from, scope) + names_around(t, from + 1, i) =~= scope + names_around(
            t,
            from,
            i,
        ));
    } else {
        lemma_call_recorded(t, end, to, scope, names, i, function);
        assert forall|j: int| from <= j < end implies #[trigger] syntax::next_row(t, j) <= i by {
            if j > from {
                assert(from < j < syntax::next_row(t, from));
            }
        }
        lemma_nothing_around(t, from, end, i);
    }
}

/// The calls of a whole source.
pub open spec fn source_calls(t: SyntaxTree, names: Names) -> Seq<CallView> {
    calls_in(t, 0, t.rows@.len() as int, seq![], names)
}

/// Every call of a named function is recorded with its line and what it means:
/// under the names of the definitions around it, or as one of the module where
/// there are none.
pub proof fn law_every_call_is_recorded(t: SyntaxTree, names: Names, i: int, function: int)
    requires
        is_nested(t),
        0 <= i < t.rows@.len(),
        syntax::kind_of(t, i) == "call"@,
        syntax::field_child(t, i, "function"@) == Some(function),
        expr_name(t, function).len() > 0,
        t.rows@[i].row < usize::MAX,
    ensures
        ({
            let around = names_around(t, 0, i);
            source_calls(t, names).contains(
                CallView {
                    caller: if around.len() == 0 {
                        "__module__"@
                    } else {
                        text::join(around, "."@)
                    },
                    callee: expr_name(t, function),
                    line: (t.rows@[i].row + 1) as nat,
                    target: target_of(expr_name(t, function), names),
                },
            )
        }),
{
    lemma_call_recorded(t, 0, t.rows@.len() as int, seq![], names, i, function);
    assert(seq![] + names_around(t, 0, i) =~= names_around(t, 0, i));
}

/// Every recorded call is that of a node.
pub proof fn law_only_calls_are_recorded(
    t: SyntaxTree,
    from: int,
    to: int,
    scope: Seq<Seq<char>>,
    names: Names,
    x: CallView,
)
    requires
        calls_in(t, from, to, scope, names).contains(x),
    ensures
        exists|i: int|
            from <= i < to && #[trigger] syntax::kind_of(t, i) == "call"@ && x.line == line_of(t, i)
                && x.callee.len() > 0 && x.target == target_of(x.callee, names),
    decreases to - from,
{
    let next = syntax::next_row(t, from);
    let end = if next < to {
        next
    } else {
        to
    };
    let own = if opens_scope(t, from) {
        seq![]
    } else {
        own_call(t, from, scope, names)
    };
    let inner = calls_in(t, from + 1, end, inner_scope(t, from, scope), names);
    let rest = calls_in(t, end, to, scope, names);
    lemma_in_either(own, inner, x);
    lemma_in_either(own + inner, rest, x);
    if own.contains(x) {
        assert(syntax::kind_of(t, from) == "call"@);
    } else if inner.contains(x) {
        law_only_calls_are_recorded(t, from + 1, end, inner_scope(t, from, scope), names, x);
        let i = choose|i: int|
            from + 1 <= i < end && #[trigger] syntax::kind_of(t, i) == "call"@ && x.line == line_of(
                t,
                i,
            ) && x.callee.len() > 0 && x.target == target_of(x.callee, names);
        assert(syntax::kind_of(t, i) == "call"@);
    } else {
        law_only_calls_are_recorded(t, end, to, scope, names, x);
    }
}

/// A call of `object.attribute` is one of the name that the object spells, a
/// dot and the attribute.
pub proof fn law_attributes_are_called_through_their_object(
    t: SyntaxTree,
    i: int,
    object: int,
    attribute: int,
)
    requires
        0 <= i < t.rows@.len(),
        syntax::kind_of(t, i) == "attribute"@,
        syntax::field_child(t, i, "object"@) == Some(object),
        syntax::field_child(t, i, "attribute"@) == Some(attribute),
        i < object < t.rows@.len(),
        expr_name(t, object).len() > 0,
        syntax::node_text(t, attribute).len() > 0,
    ensures
        expr_name(t, i) == expr_name(t, object) + "."@ + syntax::node_text(t, attribute),
{
    reveal_strlit("attribute");
    reveal_strlit("identifier");
    reveal_strlit("dotted_name");
    assert("attribute"@.len() == 9);
    assert("identifier"@.len() == 10);
    assert("dotted_name"@.len() == 11);
}

/// A name that is called spells itself.
pub proof fn law_names_are_called_as_they_are(t: SyntaxTree, i: int)
    requires
        0 <= i < t.rows@.len(),
        syntax::kind_of(t, i) == "identifier"@,
    ensures
        expr_name(t, i) == syntax::node_text(t, i),
{
}

/// A call of a name that the module defines, and that no import binds, is one
/// of that name in the module; a call of any other name means nothing.
pub proof fn law_own_names_are_called_in_the_module(
    names: Names,
    root: Seq<char>,
    rest: Seq<char>,
    module: Seq<char>,
)
    requires
        root.len() > 0,
        !root.contains('.'),
        rest.len() == 0 || rest[0] == '.',
        !names.bindings.contains_key(root),
    ensures
        !names.locals.contains(root) ==> target_of(root + rest, names) is None,
        names.locals.contains(root) && names.module == Some(module) && module.len() > 0
            ==> target_of(root + rest, names) == Some(module + "."@ + (root + rest)),
        names.locals.contains(root) && names.module is None ==> target_of(root + rest, names)
            == Some(root + rest),
{
    let callee = root + rest;
    assert forall|j: int| 0 <= j < root.len() implies callee[j] != '.' by {
        assert(callee[j] == root[j]);
        if root[j] == '.' {
            assert(root.contains('.'));
        }
    }
    text::lemma_find_char_is(callee, '.', root.len() as int);
    assert(root_of(callee) =~= root);
}

/// Definitions that were found stay when more statements are read.
proof fn lemma_definitions_kept(
    t: SyntaxTree,
    i: int,
    k: int,
    n: int,
    prefix: Seq<Seq<char>>,
    d: Definition,
)
    requires
        0 <= i < t.rows@.len(),
        0 <= k <= n,
        definitions_in(t, i, k, prefix).contains(d),
    ensures
        definitions_in(t, i, n, prefix).contains(d),
    decreases n,
{
    if k < n {
        lemma_definitions_kept(t, i, k, n - 1, prefix, d);
        let before = definitions_in(t, i, n - 1, prefix);
        let found = defined_at(t, syntax::children(t, i)[n - 1]);
        if found.0 is Some {
            let x = found.0.unwrap();
            let own = before.push(definition_at(t, x, found.1, prefix));
            text::lemma_push_contains(before, definition_at(t, x, found.1, prefix), d);
            let body = syntax::field_child(t, x, "body"@);
            if body is Some {
                lemma_in_either(
                    own,
                    definitions_in(
                        t,
                        body.unwrap(),
                        syntax::children(t, body.unwrap()).len() as int,
                        prefix.push(definition_name(t, x)),
                    ),
                    d,
                );
            }
        }
    }
}

/// The statement of a definition gives that definition, and that of a class
/// those in its body.
proof fn lemma_definition_found(
    t: SyntaxTree,
    i: int,
    k: int,
    prefix: Seq<Seq<char>>,
)
    requires
        0 <= i < t.rows@.len(),
        0 <= k < syntax::children(t, i).len(),
        defined_at(t, syntax::children(t, i)[k]).0 is Some,
        definition_name(t, defined_at(t, syntax::children(t, i)[k]).0.unwrap()).len() > 0,
    ensures
        ({
            let n = syntax::children(t, i).len() as int;
            let found = defined_at(t, syntax::children(t, i)[k]);
            let d = found.0.unwrap();
            let body = syntax::field_child(t, d, "body"@);
            let all = definitions_in(t, i, n, prefix);
            &&& all.contains(definition_at(t, d, found.1, prefix))
            &&& syntax::kind_of(t, d) == "class_definition"@ && body is Some && i < body.unwrap()
                < t.rows@.len() ==> forall|x: Definition| #[trigger]
                definitions_in(
                    t,
                    body.unwrap(),
                    syntax::children(t, body.unwrap()).len() as int,
                    prefix.push(definition_name(t, d)),
                ).contains(x) ==> all.contains(x)
        }),
{
    let n = syntax::children(t, i).len() as int;
    let found = defined_at(t, syntax::children(t, i)[k]);
    let d = found.0.unwrap();
    let body = syntax::field_child(t, d, "body"@);
    let before = definitions_in(t, i, k, prefix);
    let own = before.push(definition_at(t, d, found.1, prefix));
    text::lemma_push_contains(
        before,
        definition_at(t, d, found.1, prefix),
        definition_at(t, d, found.1, prefix),
    );
    if syntax::kind_of(t, d) == "class_definition"@ && body is Some && i < body.unwrap()
        < t.rows@.len() {
        let nested = definitions_in(
            t,
            body.unwrap(),
            syntax::children(t, body.unwrap()).len() as int,
            prefix.push(definition_name(t, d)),
        );
        lemma_in_either(own, nested, definition_at(t, d, found.1, prefix));
        assert forall|x: Definition| #[trigger] nested.contains(x) implies definitions_in(
            t,
            i,
            n,
            prefix,
        ).contains(x) by {
            lemma_in_either(own, nested, x);
            lemma_definitions_kept(t, i, k + 1, n, prefix, x);
        }
    }
    lemma_definitions_kept(t, i, k + 1, n, prefix, definition_at(t, d, found.1, prefix));
}

/// What is recorded of a definition that was found.
proof fn lemma_recorded(defs: Seq<Definition>, d: Definition)
    requires
        defs.contains(d),
    ensures
        recorded(defs).contains(d.view),
        d.view.kind == "function"@ ==> function_names(defs).contains(d.bare),
    decreases defs.len(),
{
    let k = choose|k: int| 0 <= k < defs.len() && defs[k] == d;
    assert(recorded(defs)[k] == d.view);
    if k == defs.len() - 1 {
        text::lemma_push_contains(function_names(defs.drop_last()), d.bare, d.bare);
    } else {
        assert(defs.drop_last()[k] == d);
        lemma_recorded(defs.drop_last(), d);
        text::lemma_push_contains(
            function_names(defs.drop_last()),
            defs.last().bare,
            d.bare,
        );
    }
}

/// Whether a function or class that is not decorated is recorded under the
/// given name.
pub open spec fn is_recorded(t: SyntaxTree, d: int, at: int, name: Seq<char>) -> bool {
    recorded(definitions(t)).contains(
        DefinitionView {
            name,
            kind: if syntax::kind_of(t, d) == "class_definition"@ {
                "class"@
            } else {
                "function"@
            },
            line: (t.rows@[at].row + 1) as nat,
            docstring: docstring_of(t, d),
            decorators: seq![],
        },
    )
}

/// A function or class of the module is recorded under its name, at the line
/// of that name.
pub proof fn law_definitions_of_the_module_are_recorded(t: SyntaxTree, k: int, at: int)
    requires
        t.rows@.len() > 0,
        0 <= k < syntax::children(t, 0).len(),
        is_definition(t, syntax::children(t, 0)[k]),
        syntax::field_child(t, syntax::children(t, 0)[k], "name"@) == Some(at),
        syntax::node_text(t, at).len() > 0,
        t.rows@[at].row < usize::MAX,
    ensures
        is_recorded(t, syntax::children(t, 0)[k], at, syntax::node_text(t, at)),
        syntax::kind_of(t, syntax::children(t, 0)[k]) == "function_definition"@ ==> function_names(
            definitions(t),
        ).contains(syntax::node_text(t, at)),
{
    let d = syntax::children(t, 0)[k];
    lemma_definition_found(t, 0, k, seq![]);
    lemma_recorded(definitions(t), definition_at(t, d, seq![], seq![]));
    lemma_definition_kinds();
}

/// The kinds of definitions are different ones.
proof fn lemma_definition_kinds()
    ensures
        "function_definition"@ != "class_definition"@,
        "function_definition"@ != "decorated_definition"@,
        "class_definition"@ != "decorated_definition"@,
{
    reveal_strlit("function_definition");
    reveal_strlit("class_definition");
    reveal_strlit("decorated_definition");
    assert("function_definition"@.len() == 19);
    assert("class_definition"@.len() == 16);
    assert("decorated_definition"@.len() == 20);
}

/// A method, or a class in a class, is recorded under the name of the class, a
/// dot and its own name.
pub proof fn law_members_are_recorded_under_their_class(
    t: SyntaxTree,
    k: int,
    class_at: int,
    body: int,
    m: int,
    at: int,
)
    requires
        t.rows@.len() > 0,
        0 <= k < syntax::children(t, 0).len(),
        syntax::kind_of(t, syntax::children(t, 0)[k]) == "class_definition"@,
        syntax::field_child(t, syntax::children(t, 0)[k], "name"@) == Some(class_at),
        syntax::node_text(t, class_at).len() > 0,
        syntax::field_child(t, syntax::children(t, 0)[k], "body"@) == Some(body),
        0 < body < t.rows@.len(),
        0 <= m < syntax::children(t, body).len(),
        is_definition(t, syntax::children(t, body)[m]),
        syntax::field_child(t, syntax::children(t, body)[m], "name"@) == Some(at),
        syntax::node_text(t, at).len() > 0,
        t.rows@[at].row < usize::MAX,
    ensures
        is_recorded(
            t,
            syntax::children(t, body)[m],
            at,
            syntax::node_text(t, class_at) + "."@ + syntax::node_text(t, at),
        ),
        syntax::kind_of(t, syntax::children(t, body)[m]) == "function_definition"@
            ==> function_names(definitions(t)).contains(syntax::node_text(t, at)),
{
    let c = syntax::children(t, 0)[k];
    let d = syntax::children(t, body)[m];
    let class = syntax::node_text(t, class_at);
    let prefix = Seq::<Seq<char>>::empty().push(class);
    lemma_definition_kinds();
    lemma_definition_found(t, 0, k, seq![]);
    lemma_definition_found(t, body, m, prefix);
    let x = definition_at(t, d, seq![], prefix);
    assert(definitions(t).contains(x));
    lemma_recorded(definitions(t), x);
    assert(text::join(prefix, "."@) == class);
}

/// A decorated function or class is recorded with the texts of its decorators.
pub proof fn law_decorators_are_recorded(t: SyntaxTree, k: int, r: int, q: int, at: int)
    requires
        t.rows@.len() > 0,
        0 <= k < syntax::children(t, 0).len(),
        syntax::kind_of(t, syntax::children(t, 0)[k]) == "decorated_definition"@,
        ({
            let nodes = syntax::children(t, syntax::children(t, 0)[k]);
            &&& 0 <= r < q < nodes.len()
            &&& is_definition(t, nodes[q])
            &&& forall|x: int| 0 <= x < q ==> !is_definition(t, #[trigger] nodes[x])
            &&& syntax::kind_of(t, nodes[r]) == "decorator"@
            &&& decorator_text(t, nodes[r]).len() > 0
            &&& syntax::field_child(t, nodes[q], "name"@) == Some(at)
        }),
        syntax::node_text(t, at).len() > 0,
    ensures
        ({
            let nodes = syntax::children(t, syntax::children(t, 0)[k]);
            exists|x: int|
                0 <= x < recorded(definitions(t)).len() && {
                    let d = #[trigger] recorded(definitions(t))[x];
                    d.name == syntax::node_text(t, at) && d.decorators.contains(
                        decorator_text(t, nodes[r]),
                    )
                }
        }),
{
    let c = syntax::children(t, 0)[k];
    let nodes = syntax::children(t, c);
    lemma_definition_kinds();
    lemma_first_definition(t, nodes, q, 0);
    lemma_definition_found(t, 0, k, seq![]);
    let x = definition_at(t, nodes[q], decorators_of(t, c), seq![]);
    assert(definitions(t).contains(x));
    lemma_recorded(definitions(t), x);
    lemma_decorator_kept(t, nodes, r, nodes.len() as int);
    let y = choose|y: int|
        0 <= y < recorded(definitions(t)).len() && recorded(definitions(t))[y] == x.view;
    assert(recorded(definitions(t))[y] == x.view);
}

/// The first definition among some nodes.
proof fn lemma_first_definition(t: SyntaxTree, nodes: Seq<int>, q: int, k: int)
    requires
        0 <= k <= q < nodes.len(),
        is_definition(t, nodes[q]),
        forall|x: int| 0 <= x < q ==> !is_definition(t, #[trigger] nodes[x]),
    ensures
        first_definition(t, nodes, k) == Some(nodes[q]),
    decreases q - k,
{
    if k < q {
        assert(!is_definition(t, nodes[k]));
        lemma_first_definition(t, nodes, q, k + 1);
    }
}

/// A decorator among the first nodes is listed.
proof fn lemma_decorator_kept(t: SyntaxTree, nodes: Seq<int>, r: int, n: int)
    requires
        0 <= r < n <= nodes.len(),
        syntax::kind_of(t, nodes[r]) == "decorator"@,
        decorator_text(t, nodes[r]).len() > 0,
    ensures
        decorators_in(t, nodes, n).contains(decorator_text(t, nodes[r])),
    decreases n,
{
    let x = decorator_text(t, nodes[r]);
    let before = decorators_in(t, nodes, n - 1);
    text::lemma_push_contains(before, decorator_text(t, nodes[n - 1]), x);
    if r < n - 1 {
        lemma_decorator_kept(t, nodes, r, n - 1);
    }
}

/// The content of a string literal is what stands between its quotes, three of
/// them or one, without the white space around it; letters before the quotes
/// make no difference.
pub proof fn law_strings_are_what_their_quotes_hold(inner: Seq<char>, letter: char)
    requires
        letter == 'r' || letter == 'R' || letter == 'u' || letter == 'U' || letter == 'b' || letter
            == 'B' || letter == 'f' || letter == 'F',
    ensures
        unquoted("\"\"\""@ + inner + "\"\"\""@) == text::trim(inner),
        unquoted("'''"@ + inner + "'''"@) == text::trim(inner),
        inner.len() > 0 && inner[0] != '"' ==> unquoted("\""@ + inner + "\""@) == text::trim(inner),
        inner.len() > 0 && inner[0] != '\'' ==> unquoted("'"@ + inner + "'"@) == text::trim(inner),
        unquoted(seq![letter] + "\"\"\""@ + inner + "\"\"\""@) == text::trim(inner),
{
    reveal_strlit("\"\"\"");
    reveal_strlit("'''");
    reveal_strlit("\"");
    reveal_strlit("'");
    let drop = |c: char| is_string_prefix(c);
    let a = "\"\"\""@ + inner + "\"\"\""@;
    let b = "'''"@ + inner + "'''"@;
    let c = "\""@ + inner + "\""@;
    let d = "'"@ + inner + "'"@;
    let e = seq![letter] + "\"\"\""@ + inner + "\"\"\""@;
    text::lemma_trimmed(a);
    text::lemma_trimmed(b);
    text::lemma_trimmed(c);
    text::lemma_trimmed(d);
    text::lemma_trimmed(e);
    assert(text::strip_leading(a, drop) == a);
    assert(text::strip_leading(b, drop) == b);
    assert(text::strip_leading(c, drop) == c);
    assert(text::strip_leading(d, drop) == d);
    assert(e.drop_first() =~= a);
    assert(text::strip_leading(e, drop) == a);
    assert("\"\"\""@.is_prefix_of(a) && "\"\"\""@.is_suffix_of(a));
    assert(a.subrange(3, a.len() - 3) =~= inner);
    assert(!"\"\"\""@.is_prefix_of(b)) by {
        assert(b[0] != "\"\"\""@[0]);
    }
    assert("'''"@.is_prefix_of(b) && "'''"@.is_suffix_of(b));
    assert(b.subrange(3, b.len() - 3) =~= inner);
    if inner.len() > 0 && inner[0] != '"' {
        assert(c[1] == inner[0]);
        assert(!"\"\"\""@.is_prefix_of(c)) by {
            assert(c[1] != "\"\"\""@[1]);
        }
        assert(!"'''"@.is_prefix_of(c)) by {
            assert(c[0] != "'''"@[0]);
        }
        assert("\""@.is_prefix_of(c) && "\""@.is_suffix_of(c));
        assert(c.subrange(1, c.len() - 1) =~= inner);
    }
    if inner.len() > 0 && inner[0] != '\'' {
        assert(d[1] == inner[0]);
        assert(!"\"\"\""@.is_prefix_of(d)) by {
            assert(d[0] != "\"\"\""@[0]);
        }
        assert(!"'''"@.is_prefix_of(d)) by {
            assert(d[1] != "'''"@[1]);
        }
        assert(!"\""@.is_prefix_of(d)) by {
            assert(d[0] != "\""@[0]);
        }
        assert("'"@.is_prefix_of(d) && "'"@.is_suffix_of(d));
        assert(d.subrange(1, d.len() - 1) =~= inner);
    }
}

/// The docstring of a definition is the string at the start of its body; a
/// body that starts with anything else has none.
pub proof fn law_docstrings_start_the_body(t: SyntaxTree, d: int, body: int)
    requires
        syntax::field_child(t, d, "body"@) == Some(body),
        syntax::named_children(t, body).len() > 0,
    ensures
        ({
            let first = syntax::named_children(t, body)[0];
            let doc = unquoted(syntax::node_text(t, first));
            &&& syntax::kind_of(t, first) != "expression_statement"@ ==> docstring_of(t, d).len()
                == 0
            &&& syntax::kind_of(t, first) == "expression_statement"@ && doc.len() > 0
                ==> docstring_of(t, d) == doc
        }),
{
}

/// A decorator is recorded without its mark.
pub proof fn law_decorators_lose_their_mark(t: SyntaxTree, c: int, name: Seq<char>)
    requires
        syntax::node_text(t, c) == "@"@ + name,
        name.len() > 0,
        name[0] != '@',
        !text::is_white(name[0]),
        !text::is_white(name.last()),
    ensures
        decorator_text(t, c) == name,
{
    reveal_strlit("@");
    let all = "@"@ + name;
    text::lemma_trimmed(all);
    assert(all.drop_first() =~= name);
    let drop = |x: char| x == '@';
    assert(text::strip_leading(name, drop) == name);
    assert(text::strip_leading(all, drop) == name);
    text::lemma_trimmed(name);
}

/// What is read of a source are its imports, its definitions and its calls,
/// and these mean what its imports bind, its definitions name and the module
/// is.
pub proof fn law_all_of_a_source_is_read(
    d: AstDependencies,
    t: SyntaxTree,
    module: Option<Seq<char>>,
)
    requires
        d.reads(t, module),
    ensures
        text::views(d.imports@) == source_imports(t),
        definition_views(d.definitions@) == recorded(definitions(t)),
        text::views(d.function_defs@) == function_names(definitions(t)),
        exists|names: Names|
            names.bindings == source_bindings(t) && names.module == module && (forall|n: Seq<char>|
                #[trigger]
                names.locals.contains(n) <==> exists|k: int|
                    0 <= k < d.definitions@.len() && (#[trigger] d.definitions@[k]).name@ == n)
                && call_views(d.calls@) == #[trigger] source_calls(t, names),
{
    let defs = recorded(definitions(t));
    let names = Names {
        bindings: source_bindings(t),
        locals: defs.map_values(|d: DefinitionView| d.name),
        module,
    };
    assert forall|n: Seq<char>| #[trigger] names.locals.contains(n) <==> exists|k: int|
        0 <= k < d.definitions@.len() && (#[trigger] d.definitions@[k]).name@ == n by {
        if names.locals.contains(n) {
            let k = choose|k: int| 0 <= k < names.locals.len() && names.locals[k] == n;
            assert(definition_views(d.definitions@)[k] == d.definitions@[k]@);
            assert(d.definitions@[k].name@ == n);
        }
        if exists|k: int| 0 <= k < d.definitions@.len() && (#[trigger] d.definitions@[k]).name@ == n {
            let k = choose|k: int|
                0 <= k < d.definitions@.len() && (#[trigger] d.definitions@[k]).name@ == n;
            assert(definition_views(d.definitions@)[k] == d.definitions@[k]@);
            assert(names.locals[k] == n);
        }
    }
    assert(call_views(d.calls@) == source_calls(t, names));
}

/// Whether node `c` makes a definition `d` itself: it is one, or it is
/// decorated and `d` is the first one in it.
pub open spec fn makes(t: SyntaxTree, c: int, d: int) -> bool {
    ||| c == d && (syntax::kind_of(t, c) == "function_definition"@ || syntax::kind_of(t, c)
        == "class_definition"@)
    ||| syntax::kind_of(t, c) == "decorated_definition"@ && exists|q: int|
        0 <= q < syntax::children(t, c).len() && #[trigger] syntax::children(t, c)[q] == d
            && is_definition(t, d) && forall|x: int|
            0 <= x < q ==> !is_definition(t, #[trigger] syntax::children(t, c)[x])
}

/// Whether what is recorded as `x` is a definition that the statement `c`
/// makes under the given names.
pub open spec fn is_made_by(t: SyntaxTree, c: int, prefix: Seq<Seq<char>>, x: Definition) -> bool {
    exists|d: int| #[trigger]
        makes(t, c, d) && {
            let name = definition_name(t, d);
            &&& name.len() > 0
            &&& x.bare == name
            &&& x.view.name == if prefix.len() == 0 {
                name
            } else {
                text::join(prefix, "."@) + "."@ + name
            }
            &&& x.view.kind == if syntax::kind_of(t, d) == "class_definition"@ {
                "class"@
            } else {
                "function"@
            }
            &&& x.view.docstring == docstring_of(t, d)
            &&& x.view.line == line_of(t, syntax::field_child(t, d, "name"@).unwrap())
        }
}

/// Whether `x` stands in the body of a class that the statement `c` makes.
pub open spec fn is_member_in(t: SyntaxTree, c: int, prefix: Seq<Seq<char>>, x: Definition) -> bool {
    exists|d: int| #[trigger]
        makes(t, c, d) && definition_name(t, d).len() > 0 && syntax::kind_of(t, d)
            == "class_definition"@ && {
            let body = syntax::field_child(t, d, "body"@);
            body is Some && definitions_in(
                t,
                body.unwrap(),
                syntax::children(t, body.unwrap()).len() as int,
                prefix.push(definition_name(t, d)),
            ).contains(x)
        }
}

/// What a statement makes, as it is read.
proof fn lemma_makes(t: SyntaxTree, c: int)
    ensures
        defined_at(t, c).0 matches Some(d) ==> makes(t, c, d),
        forall|d: int| #[trigger] makes(t, c, d) ==> defined_at(t, c).0 == Some(d),
{
    lemma_definition_kinds();
    let nodes = syntax::children(t, c);
    if syntax::kind_of(t, c) == "decorated_definition"@ {
        match first_definition(t, nodes, 0) {
            Some(d) => {
                let q = lemma_definition_place(t, nodes, 0);
                assert(syntax::children(t, c)[q] == d);
            },
            None => {},
        }
        assert forall|d: int| #[trigger] makes(t, c, d) implies defined_at(t, c).0 == Some(d) by {
            let q = choose|q: int|
                0 <= q < syntax::children(t, c).len() && #[trigger] syntax::children(t, c)[q] == d
                    && is_definition(t, d) && forall|x: int|
                    0 <= x < q ==> !is_definition(t, #[trigger] syntax::children(t, c)[x]);
            lemma_first_definition(t, nodes, q, 0);
        }
    }
}

/// Where the first definition among some nodes stands.
proof fn lemma_definition_place(t: SyntaxTree, nodes: Seq<int>, k: int) -> (q: int)
    requires
        0 <= k <= nodes.len(),
        first_definition(t, nodes, k) is Some,
        forall|x: int| 0 <= x < k ==> !is_definition(t, #[trigger] nodes[x]),
    ensures
        k <= q < nodes.len(),
        first_definition(t, nodes, k) == Some(nodes[q]),
        is_definition(t, nodes[q]),
        forall|x: int| 0 <= x < q ==> !is_definition(t, #[trigger] nodes[x]),
    decreases nodes.len() - k,
{
    if is_definition(t, nodes[k]) {
        k
    } else {
        lemma_definition_place(t, nodes, k + 1)
    }
}

/// The definitions of a scope are those that its statements make, and those in
/// the bodies of its classes under the names of these; what a function defines
/// inside is not among them.
pub proof fn law_a_scope_defines_what_its_statements_make(
    t: SyntaxTree,
    i: int,
    n: int,
    prefix: Seq<Seq<char>>,
    x: Definition,
)
    requires
        0 <= i < t.rows@.len(),
        0 <= n <= syntax::children(t, i).len(),
        definitions_in(t, i, n, prefix).contains(x),
    ensures
        exists|k: int|
            0 <= k < n && (is_made_by(t, #[trigger] syntax::children(t, i)[k], prefix, x)
                || is_member_in(t, syntax::children(t, i)[k], prefix, x)),
    decreases n,
{
    let before = definitions_in(t, i, n - 1, prefix);
    let c = syntax::children(t, i)[n - 1];
    let found = defined_at(t, c);
    lemma_makes(t, c);
    if before.contains(x) {
        law_a_scope_defines_what_its_statements_make(t, i, n - 1, prefix, x);
        let k = choose|k: int|
            0 <= k < n - 1 && (is_made_by(t, #[trigger] syntax::children(t, i)[k], prefix, x)
                || is_member_in(t, syntax::children(t, i)[k], prefix, x));
        assert(0 <= k < n);
    } else {
        let d = found.0.unwrap();
        let own = definition_at(t, d, found.1, prefix);
        text::lemma_push_contains(before, own, x);
        let body = syntax::field_child(t, d, "body"@);
        if body is Some {
            lemma_in_either(
                before.push(own),
                definitions_in(
                    t,
                    body.unwrap(),
                    syntax::children(t, body.unwrap()).len() as int,
                    prefix.push(definition_name(t, d)),
                ),
                x,
            );
        }
        assert(makes(t, c, d));
        assert(is_made_by(t, c, prefix, x) || is_member_in(t, c, prefix, x));
        assert(syntax::children(t, i)[n - 1] == c);
    }
}

/// The functions of a source are exactly the definitions that are none of a
/// class, each by the name it has in its own scope.
pub proof fn law_function_names_are_those_of_functions(defs: Seq<Definition>, name: Seq<char>)
    ensures
        function_names(defs).contains(name) <==> exists|k: int|
            0 <= k < defs.len() && (#[trigger] defs[k]).bare == name && defs[k].view.kind
                == "function"@,
    decreases defs.len(),
{
    if defs.len() > 0 {
        let rest = defs.drop_last();
        law_function_names_are_those_of_functions(rest, name);
        text::lemma_push_contains(function_names(rest), defs.last().bare, name);
        if function_names(rest).contains(name) {
            let k = choose|k: int|
                0 <= k < rest.len() && (#[trigger] rest[k]).bare == name && rest[k].view.kind
                    == "function"@;
            assert(defs[k] == rest[k]);
        }
        if defs.last().bare == name && defs.last().view.kind == "function"@ {
            assert(defs[defs.len() - 1].bare == name);
        }
        if exists|k: int|
            0 <= k < defs.len() && (#[trigger] defs[k]).bare == name && defs[k].view.kind
                == "function"@ {
            let k = choose|k: int|
                0 <= k < defs.len() && (#[trigger] defs[k]).bare == name && defs[k].view.kind
                    == "function"@;
            if k < rest.len() {
                assert(rest[k] == defs[k]);
            }
        }
    }
}

/// Imports are listed in the order in which they are met: what is imported
/// later comes behind what was imported before.
pub proof fn law_imports_are_listed_in_order(first: Seq<ImportEvent>, later: Seq<ImportEvent>)
    ensures
        imports_after(seq![], first).is_prefix_of(imports_after(seq![], first + later)),
    decreases later.len(),
{
    let all = first + later;
    let a = imports_after(seq![], first);
    if later.len() == 0 {
        assert(all =~= first);
        assert(a.take(a.len() as int) =~= a);
    } else {
        law_imports_are_listed_in_order(first, later.drop_last());
        assert(all.drop_last() =~= first + later.drop_last());
        let b = imports_after(seq![], all.drop_last());
        let c = imports_after(seq![], all);
        assert(c.take(a.len() as int) =~= b.take(a.len() as int));
    }
}

/// A definition is documented by the first text that its body holds in leading
/// expressions; expressions without one are passed over, and any other
/// statement ends the search.
pub proof fn law_empty_expressions_are_passed_over(t: SyntaxTree, d: int, body: int, k: int)
    requires
        syntax::field_child(t, d, "body"@) == Some(body),
        0 <= k <= syntax::named_children(t, body).len(),
        ({
            let nodes = syntax::named_children(t, body);
            forall|j: int|
                0 <= j < k ==> syntax::kind_of(t, #[trigger] nodes[j]) == "expression_statement"@
                    && unquoted(syntax::node_text(t, nodes[j])).len() == 0
        }),
    ensures
        ({
            let nodes = syntax::named_children(t, body);
            &&& k < nodes.len() && syntax::kind_of(t, nodes[k]) == "expression_statement"@
                && unquoted(syntax::node_text(t, nodes[k])).len() > 0 ==> docstring_of(t, d)
                == unquoted(syntax::node_text(t, nodes[k]))
            &&& k < nodes.len() && syntax::kind_of(t, nodes[k]) != "expression_statement"@
                ==> docstring_of(t, d).len() == 0
            &&& k == nodes.len() ==> docstring_of(t, d).len() == 0
        }),
{
    lemma_docstring_behind(t, syntax::named_children(t, body), 0, k);
}

/// The search for a docstring behind expressions without one.
proof fn lemma_docstring_behind(t: SyntaxTree, nodes: Seq<int>, from: int, k: int)
    requires
        0 <= from <= k <= nodes.len(),
        forall|j: int|
            from <= j < k ==> syntax::kind_of(t, #[trigger] nodes[j]) == "expression_statement"@
                && unquoted(syntax::node_text(t, nodes[j])).len() == 0,
    ensures
        docstring_from(t, nodes, from) == docstring_from(t, nodes, k),
    decreases k - from,
{
    if from < k {
        assert(syntax::kind_of(t, nodes[from]) == "expression_statement"@);
        lemma_docstring_behind(t, nodes, from + 1, k);
    }
}

/// A relative name that climbs above all packages is read from the top: what
/// follows its dots is the name, and without that there is none.
pub proof fn law_names_cannot_climb_above_the_top(
    dots: Seq<char>,
    rest: Seq<char>,
    module: Seq<char>,
)
    requires
        forall|i: int| 0 <= i < dots.len() ==> dots[i] == '.',
        rest.len() == 0 || rest[0] != '.',
        dots.len() > text::split_char(module, '.').len() + 1,
    ensures
        rest.len() > 0 ==> absolute_name(dots + rest, Some(module)) == Some(rest),
        rest.len() == 0 ==> absolute_name(dots + rest, Some(module)) is None,
{
    lemma_dots_before(dots, rest);
    assert((dots + rest).skip(dots.len() as int) =~= rest);
    text::lemma_split_char_nonempty(module, '.');
}

/// The dots that a name starts with.
proof fn lemma_dots_before(dots: Seq<char>, rest: Seq<char>)
    requires
        forall|i: int| 0 <= i < dots.len() ==> dots[i] == '.',
        rest.len() == 0 || rest[0] != '.',
    ensures
        leading_dots(dots + rest) == dots.len(),
    decreases dots.len(),
{
    if dots.len() > 0 {
        assert((dots + rest)[0] == dots[0]);
        lemma_dots_before(dots.drop_first(), rest);
        assert((dots + rest).drop_first() =~= dots.drop_first() + rest);
    } else {
        assert(dots + rest =~= rest);
    }
}

} // verus!
