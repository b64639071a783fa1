//! Which script a dependency, a reference or a call leads to.

use vstd::prelude::*;

use crate::ast_deps;
use crate::paths;
use crate::paths::parts_of;
use crate::sorted_map::SortedMap;
use crate::text;
use crate::text::{
    chars_of, find_from, has_prefix, has_suffix, join_texts, replaced, same_text,
    slice_text, split_text,
};

verus! {

// ---------------------------------------------------------------------------
// Module names
// ---------------------------------------------------------------------------

/// The texts of `s` that are not empty.
pub open spec fn filled(s: Seq<Seq<char>>, n: int) -> Seq<Seq<char>>
    decreases n,
{
    if n <= 0 {
        seq![]
    } else if s[n - 1].len() > 0 {
        filled(s, n - 1).push(s[n - 1])
    } else {
        filled(s, n - 1)
    }
}

/// A path without the `.py` at its end.
pub open spec fn without_py(path: Seq<char>) -> Seq<char> {
    if ".py"@.is_suffix_of(path) {
        path.take(path.len() - 3)
    } else {
        path
    }
}

/// The names in the path of a module; that of a package is the directory.
pub open spec fn module_parts(path: Seq<char>) -> Seq<Seq<char>> {
    let p = without_py(text::replace_char(path, '\\', '/'));
    let pieces = text::split_char(p, '/');
    let parts = filled(pieces, pieces.len() as int);
    if parts.len() > 0 && parts.last() == "__init__"@ {
        parts.drop_last()
    } else {
        parts
    }
}

/// The dotted module name of a script.
pub open spec fn module_name(path: Seq<char>) -> Seq<char> {
    text::join(module_parts(path), "."@)
}

/// A dotted name and what is left of it without its first names, the longest
/// first.
pub open spec fn name_suffixes(name: Seq<char>) -> Seq<Seq<char>> {
    let parts = text::split_char(name, '.');
    Seq::new(parts.len(), |i: int| text::join(parts.skip(i), "."@))
}

/// A dotted name and what is left of it without its last names, the longest
/// first.
pub open spec fn name_prefixes(name: Seq<char>) -> Seq<Seq<char>> {
    let parts = text::split_char(name, '.');
    Seq::new(parts.len(), |i: int| text::join(parts.take(parts.len() - i), "."@))
}

/// The names under which a script can be imported, the longest first.
pub open spec fn module_candidates(path: Seq<char>) -> Seq<Seq<char>> {
    if module_name(path).len() == 0 {
        seq![]
    } else {
        name_suffixes(module_name(path))
    }
}

/// The texts in `v` that are not empty.
fn keep_filled(v: Vec<String>) -> (r: Vec<String>)
    ensures
        text::views(r@) == filled(text::views(v@), v@.len() as int),
{
    let ghost all = text::views(v@);
    let mut r: Vec<String> = Vec::new();
    let mut i: usize = 0;
    assert(text::views(r@) =~= seq![]);
    while i < v.len()
        invariant
            i <= v@.len(),
            all == text::views(v@),
            text::views(r@) == filled(all, i as int),
        decreases v@.len() - i,
    {
        let ghost before = text::views(r@);
        assert(all[i as int] == v@[i as int]@);
        if !v[i].as_str().is_empty() {
            r.push(v[i].clone());
            assert(text::views(r@) =~= before.push(all[i as int]));
        }
        i = i + 1;
    }
    r
}

/// The dotted module name of a script. Separators of either kind and leading
/// ones do not matter; a package is named by its directory.
pub fn module_name_from_logical_path(logical_path: &str) -> (name: String)
    ensures
        name@ == module_name(logical_path@),
{
    let mut path: String = replaced(logical_path, '\\', '/');
    if has_suffix(path.as_str(), ".py") {
        let v: Vec<char> = chars_of(path.as_str());
        proof {
            reveal_strlit(".py");
        }
        assert(v@.subrange(0, v@.len() - 3) =~= v@.take(v@.len() - 3));
        path = slice_text(&v, 0, v.len() - 3);
    }
    let pieces: Vec<String> = split_text(path.as_str(), '/');
    let mut parts: Vec<String> = keep_filled(pieces);
    let ghost all = text::views(parts@);
    if parts.len() > 0 {
        let last: usize = parts.len() - 1;
        assert(all.last() == parts@[last as int]@);
        if same_text(parts[last].as_str(), "__init__") {
            let ghost full = parts@;
            parts.pop();
            assert(parts@ =~= full.drop_last());
            assert(text::views(parts@) =~= all.drop_last());
        }
    }
    join_texts(&parts, ".")
}

/// The parts `from..to`, joined by dots.
fn join_dotted(parts: &Vec<String>, from: usize, to: usize) -> (s: String)
    requires
        from <= to <= parts@.len(),
    ensures
        s@ == text::join(text::views(parts@).subrange(from as int, to as int), "."@),
{
    let ghost all = text::views(parts@);
    let ghost target = all.subrange(from as int, to as int);
    let mut some: Vec<String> = Vec::new();
    let mut i: usize = from;
    assert(text::views(some@) =~= target.take(0));
    while i < to
        invariant
            from <= i <= to <= parts@.len(),
            all == text::views(parts@),
            target == all.subrange(from as int, to as int),
            text::views(some@) == target.take(i - from),
        decreases to - i,
    {
        let ghost before = text::views(some@);
        some.push(parts[i].clone());
        proof {
            let k = i - from;
            assert(target[k] == parts@[i as int]@);
            assert(text::views(some@) =~= before.push(target[k]));
            assert(text::views(some@) =~= target.take(k + 1));
        }
        i = i + 1;
    }
    assert(target.take(target.len() as int) =~= target);
    join_texts(&some, ".")
}

/// A dotted name and what is left of it without its first names, the longest
/// first.
pub fn suffixes_of(name: &str) -> (r: Vec<String>)
    ensures
        text::views(r@) == name_suffixes(name@),
{
    let parts: Vec<String> = split_text(name, '.');
    let ghost all = text::views(parts@);
    let ghost target = name_suffixes(name@);
    let mut r: Vec<String> = Vec::new();
    let mut i: usize = 0;
    assert(text::views(r@) =~= target.take(0));
    while i < parts.len()
        invariant
            i <= parts@.len(),
            all == text::views(parts@),
            all == text::split_char(name@, '.'),
            target == name_suffixes(name@),
            text::views(r@) == target.take(i as int),
        decreases parts@.len() - i,
    {
        let ghost before = text::views(r@);
        r.push(join_dotted(&parts, i, parts.len()));
        proof {
            assert(all.subrange(i as int, all.len() as int) =~= all.skip(i as int));
            assert(target[i as int] == r@.last()@);
            assert(text::views(r@) =~= before.push(target[i as int]));
            assert(text::views(r@) =~= target.take(i + 1));
        }
        i = i + 1;
    }
    assert(target.take(i as int) =~= target);
    r
}

/// A dotted name and what is left of it without its last names, the longest
/// first.
pub fn prefixes_of(name: &str) -> (r: Vec<String>)
    ensures
        text::views(r@) == name_prefixes(name@),
{
    let parts: Vec<String> = split_text(name, '.');
    let ghost all = text::views(parts@);
    let ghost target = name_prefixes(name@);
    let mut r: Vec<String> = Vec::new();
    let mut i: usize = 0;
    assert(text::views(r@) =~= target.take(0));
    while i < parts.len()
        invariant
            i <= parts@.len(),
            all == text::views(parts@),
            all == text::split_char(name@, '.'),
            target == name_prefixes(name@),
            text::views(r@) == target.take(i as int),
        decreases parts@.len() - i,
    {
        let ghost before = text::views(r@);
        r.push(join_dotted(&parts, 0, parts.len() - i));
        proof {
            assert(all.subrange(0, all.len() - i) =~= all.take(all.len() - i));
            assert(target[i as int] == r@.last()@);
            assert(text::views(r@) =~= before.push(target[i as int]));
            assert(text::views(r@) =~= target.take(i + 1));
        }
        i = i + 1;
    }
    assert(target.take(i as int) =~= target);
    r
}

/// The names under which a script can be imported, the longest first.
pub fn module_candidates_from_logical_path(logical_path: &str) -> (r: Vec<String>)
    ensures
        text::views(r@) == module_candidates(logical_path@),
{
    let module: String = module_name_from_logical_path(logical_path);
    if module.as_str().is_empty() {
        let none: Vec<String> = Vec::new();
        assert(text::views(none@) =~= seq![]);
        return none;
    }
    suffixes_of(module.as_str())
}

// ---------------------------------------------------------------------------
// The module map
// ---------------------------------------------------------------------------

/// The map with `id` under each of the first `n` names that it does not hold.
pub open spec fn with_names(
    map: Map<Seq<char>, i64>,
    names: Seq<Seq<char>>,
    n: int,
    id: i64,
) -> Map<Seq<char>, i64>
    decreases n,
{
    if n <= 0 {
        map
    } else {
        let before = with_names(map, names, n - 1, id);
        if before.contains_key(names[n - 1]) {
            before
        } else {
            before.insert(names[n - 1], id)
        }
    }
}

/// The module map of the first `n` scripts: of two scripts with a name in
/// common the first one has it.
pub open spec fn module_map(scripts: Seq<(i64, String)>, n: int) -> Map<Seq<char>, i64>
    decreases n,
{
    if n <= 0 {
        Map::empty()
    } else {
        let names = module_candidates(scripts[n - 1].1@);
        with_names(module_map(scripts, n - 1), names, names.len() as int, scripts[n - 1].0)
    }
}

/// Build the map from module names to script ids. The names of a script are
/// tried longest first, and the first script to have a name keeps it.
pub fn build_module_map(scripts: &Vec<(i64, String)>) -> (map: SortedMap<i64>)
    ensures
        map.wf(),
        map@ == module_map(scripts@, scripts@.len() as int),
{
    let mut map: SortedMap<i64> = SortedMap::new();
    let mut i: usize = 0;
    while i < scripts.len()
        invariant
            i <= scripts@.len(),
            map.wf(),
            map@ == module_map(scripts@, i as int),
        decreases scripts@.len() - i,
    {
        let id: i64 = scripts[i].0;
        let names: Vec<String> = module_candidates_from_logical_path(scripts[i].1.as_str());
        let ghost all = text::views(names@);
        let ghost before = map@;
        let mut k: usize = 0;
        while k < names.len()
            invariant
                k <= names@.len(),
                all == text::views(names@),
                map.wf(),
                map@ == with_names(before, all, k as int, id),
            decreases names@.len() - k,
        {
            assert(all[k as int] == names@[k as int]@);
            if !map.contains_key(names[k].as_str()) {
                map.insert(names[k].as_str(), id);
            }
            k = k + 1;
        }
        i = i + 1;
    }
    map
}

/// A name that has a script keeps it when more scripts come.
pub proof fn law_first_script_keeps_its_names(
    scripts: Seq<(i64, String)>,
    n: int,
    m: int,
    name: Seq<char>,
)
    requires
        0 <= n <= m <= scripts.len(),
        module_map(scripts, n).contains_key(name),
    ensures
        module_map(scripts, m).contains_key(name),
        module_map(scripts, m)[name] == module_map(scripts, n)[name],
    decreases m,
{
    if n < m {
        law_first_script_keeps_its_names(scripts, n, m - 1, name);
        let names = module_candidates(scripts[m - 1].1@);
        lemma_names_kept(
            module_map(scripts, m - 1),
            names,
            names.len() as int,
            scripts[m - 1].0,
            name,
        );
    }
}

/// Names come from the map or are those that are added.
proof fn lemma_names_added(
    map: Map<Seq<char>, i64>,
    names: Seq<Seq<char>>,
    n: int,
    id: i64,
    name: Seq<char>,
)
    requires
        0 <= n <= names.len(),
        with_names(map, names, n, id).contains_key(name),
    ensures
        map.contains_key(name) && with_names(map, names, n, id)[name] == map[name]
            || names.contains(name) && with_names(map, names, n, id)[name] == id,
    decreases n,
{
    if n > 0 {
        let before = with_names(map, names, n - 1, id);
        if before.contains_key(name) {
            lemma_names_added(map, names, n - 1, id, name);
        } else {
            assert(names[n - 1] == name);
        }
    }
}

/// A name in the module map stands for an indexed script, one that can be
/// imported by that name.
pub proof fn law_modules_are_indexed_scripts(scripts: Seq<(i64, String)>, n: int, name: Seq<char>)
    requires
        0 <= n <= scripts.len(),
        module_map(scripts, n).contains_key(name),
    ensures
        exists|i: int|
            0 <= i < n && (#[trigger] scripts[i]).0 == module_map(scripts, n)[name]
                && module_candidates(scripts[i].1@).contains(name),
    decreases n,
{
    let before = module_map(scripts, n - 1);
    let names = module_candidates(scripts[n - 1].1@);
    lemma_names_added(before, names, names.len() as int, scripts[n - 1].0, name);
    if before.contains_key(name) && module_map(scripts, n)[name] == before[name] {
        law_modules_are_indexed_scripts(scripts, n - 1, name);
    }
}

/// Adding names does not change those that are there.
proof fn lemma_names_kept(
    map: Map<Seq<char>, i64>,
    names: Seq<Seq<char>>,
    n: int,
    id: i64,
    name: Seq<char>,
)
    requires
        map.contains_key(name),
    ensures
        with_names(map, names, n, id).contains_key(name),
        with_names(map, names, n, id)[name] == map[name],
    decreases n,
{
    if n > 0 {
        lemma_names_kept(map, names, n - 1, id, name);
    }
}

// ---------------------------------------------------------------------------
// Imports
// ---------------------------------------------------------------------------

/// The absolute form of a relative import seen from the module `caller`.
pub open spec fn relative_dep(dep: Seq<char>, caller: Seq<char>, is_package: bool) -> Option<
    Seq<char>,
> {
    let dots = ast_deps::leading_dots(dep);
    let suffix = dep.skip(dots);
    let parts = text::split_char(caller, '.');
    let up = if is_package {
        dots - 1
    } else {
        dots
    };
    if dots == 0 || up >= parts.len() {
        None
    } else {
        let base = parts.take(parts.len() - up);
        Some(
            text::join(
                if suffix.len() == 0 {
                    base
                } else {
                    base.push(suffix)
                },
                "."@,
            ),
        )
    }
}

/// Resolve a relative import (`".utils"`, `"..helpers"`) against the caller's
/// dotted module name. Returns `None` when that would go above the root
/// package.
///
/// `is_package` is `true` when the caller is a package (`__init__.py`): one dot
/// then stands for the package itself. For a regular module the module name
/// counts as the first level.
pub fn resolve_relative_dep(dep: &str, caller_module: &str, is_package: bool) -> (r: Option<String>)
    ensures
        ast_deps::option_view(r) == relative_dep(dep@, caller_module@, is_package),
{
    let v: Vec<char> = chars_of(dep);
    let mut dots: usize = 0;
    assert(v@.skip(0) =~= v@);
    while dots < v.len() && v[dots] == '.'
        invariant
            dots <= v@.len(),
            dots + ast_deps::leading_dots(v@.skip(dots as int)) == ast_deps::leading_dots(v@),
        decreases v@.len() - dots,
    {
        assert(v@.skip(dots as int).drop_first() =~= v@.skip(dots + 1));
        dots = dots + 1;
    }
    if dots == 0 {
        return None;
    }
    assert(v@.subrange(dots as int, v@.len() as int) =~= v@.skip(dots as int));
    let suffix: String = slice_text(&v, dots, v.len());
    let mut parts: Vec<String> = split_text(caller_module, '.');
    let ghost all = text::views(parts@);
    let up: usize = if is_package {
        dots - 1
    } else {
        dots
    };
    if up >= parts.len() {
        return None;
    }
    let keep: usize = parts.len() - up;
    parts.truncate(keep);
    assert(text::views(parts@) =~= all.take(keep as int));
    if !suffix.as_str().is_empty() {
        parts.push(suffix);
        assert(text::views(parts@) =~= all.take(keep as int).push(suffix@));
    }
    Some(join_texts(&parts, "."))
}

/// The names that an import may have in the module map, the best first.
pub open spec fn import_candidates(dep: Seq<char>, caller: Seq<char>) -> Seq<Seq<char>> {
    if "."@.is_prefix_of(dep) {
        match relative_dep(dep, module_name(caller), "__init__.py"@.is_suffix_of(caller)) {
            Some(name) => name_suffixes(name),
            None => seq![],
        }
    } else {
        name_suffixes(dep)
    }
}

/// The script of the first of `names`, from the `i`th on, that has one.
pub open spec fn first_known(map: Map<Seq<char>, i64>, names: Seq<Seq<char>>, i: int) -> Option<i64>
    decreases names.len() - i,
{
    if 0 <= i < names.len() {
        if map.contains_key(names[i]) {
            Some(map[names[i]])
        } else {
            first_known(map, names, i + 1)
        }
    } else {
        None
    }
}

/// The script of the first of `names` that has one.
fn find_known(map: &SortedMap<i64>, names: &Vec<String>) -> (id: Option<i64>)
    requires
        map.wf(),
    ensures
        id == first_known(map@, text::views(names@), 0),
{
    let ghost all = text::views(names@);
    let mut i: usize = 0;
    while i < names.len()
        invariant
            i <= names@.len(),
            map.wf(),
            all == text::views(names@),
            first_known(map@, all, i as int) == first_known(map@, all, 0),
        decreases names@.len() - i,
    {
        assert(all[i as int] == names@[i as int]@);
        if let Some(id) = map.get(names[i].as_str()) {
            return Some(*id);
        }
        i = i + 1;
    }
    None
}

/// The script that the import `dep` of the script at `caller_path` leads to.
pub fn resolve_dependency(dep: &str, caller_path: &str, map: &SortedMap<i64>) -> (id: Option<i64>)
    requires
        map.wf(),
    ensures
        id == first_known(map@, import_candidates(dep@, caller_path@), 0),
        dep@.len() == 0 || dep@[0] != '.' ==> is_longest_ending(map@, dep@, id),
{
    proof {
        reveal_strlit(".");
        lemma_longest_ending(map@, dep@);
        if dep@.len() == 0 || dep@[0] != '.' {
            assert(!"."@.is_prefix_of(dep@)) by {
                assert("."@.len() == 1 && "."@[0] == '.');
            }
        }
    }
    let names: Vec<String> = if has_prefix(dep, ".") {
        let caller: String = module_name_from_logical_path(caller_path);
        match resolve_relative_dep(dep, caller.as_str(), has_suffix(caller_path, "__init__.py")) {
            Some(name) => suffixes_of(name.as_str()),
            None => {
                let none: Vec<String> = Vec::new();
                assert(text::views(none@) =~= seq![]);
                none
            },
        }
    } else {
        suffixes_of(dep)
    };
    find_known(map, &names)
}

/// A recorded import: its id, what it names, and the script that has it.
#[derive(Debug)]
pub struct ImportRow {
    pub id: i64,
    pub depends_on_path: String,
    pub caller_path: String,
}

/// The script of every import, or none: every row is resolved anew, so that
/// nothing of an earlier resolution remains.
pub fn resolve_dependency_targets(rows: &Vec<ImportRow>, map: &SortedMap<i64>) -> (updates: Vec<
    (i64, Option<i64>),
>)
    requires
        map.wf(),
    ensures
        updates@.len() == rows@.len(),
        forall|i: int|
            0 <= i < rows@.len() ==> #[trigger] updates@[i] == (
                rows@[i].id,
                first_known(
                    map@,
                    import_candidates(rows@[i].depends_on_path@, rows@[i].caller_path@),
                    0,
                ),
            ),
{
    let mut updates: Vec<(i64, Option<i64>)> = Vec::new();
    let mut i: usize = 0;
    while i < rows.len()
        invariant
            i <= rows@.len(),
            map.wf(),
            updates@.len() == i,
            forall|j: int|
                0 <= j < i ==> #[trigger] updates@[j] == (
                    rows@[j].id,
                    first_known(
                        map@,
                        import_candidates(rows@[j].depends_on_path@, rows@[j].caller_path@),
                        0,
                    ),
                ),
        decreases rows@.len() - i,
    {
        let row: &ImportRow = &rows[i];
        let target: Option<i64> = resolve_dependency(
            row.depends_on_path.as_str(),
            row.caller_path.as_str(),
            map,
        );
        updates.push((row.id, target));
        i = i + 1;
    }
    updates
}

// ---------------------------------------------------------------------------
// References
// ---------------------------------------------------------------------------

/// The directory reached from `base` by the first `n` parts of a relative
/// path; `None` where they lead above the root.
pub open spec fn climb(base: Seq<Seq<char>>, parts: Seq<Seq<char>>, n: int) -> Option<
    Seq<Seq<char>>,
>
    decreases n,
{
    if n <= 0 {
        Some(base)
    } else {
        match climb(base, parts, n - 1) {
            Some(at) => if parts[n - 1] == ".."@ {
                if at.len() > 0 {
                    Some(at.drop_last())
                } else {
                    None
                }
            } else if parts[n - 1] == "."@ {
                Some(at)
            } else {
                Some(at.push(parts[n - 1]))
            },
            None => None,
        }
    }
}

/// The logical path that a relative reference in the script at `from` means:
/// it starts from that script's directory.
pub open spec fn reference_from(from: Seq<char>, reference: Seq<char>) -> Option<Seq<char>> {
    let own = paths::path_parts(from);
    let parts = paths::path_parts(reference);
    if own.len() == 0 {
        None
    } else {
        match climb(own.drop_last(), parts, parts.len() as int) {
            Some(at) => Some(paths::path_of(paths::is_absolute(from), at)),
            None => None,
        }
    }
}

/// The script that a reference leads to: the one with exactly that logical
/// path, or, for a relative reference, the one it means from the referencing
/// script's directory. A script is no dependency of itself.
pub open spec fn reference_target(
    known: Map<Seq<char>, i64>,
    from: Seq<char>,
    reference: Seq<char>,
) -> Option<i64> {
    if known.contains_key(reference) && reference != from {
        Some(known[reference])
    } else if !paths::is_absolute(reference) && reference_from(from, reference) is Some
        && reference_from(from, reference).unwrap() != from && known.contains_key(
        reference_from(from, reference).unwrap(),
    ) {
        Some(known[reference_from(from, reference).unwrap()])
    } else {
        None
    }
}

/// The logical path that a relative reference in the script at `from` means.
pub fn path_from_script(from: &str, reference: &str) -> (r: Option<String>)
    ensures
        ast_deps::option_view(r) == reference_from(from@, reference@),
{
    let mut at: Vec<String> = parts_of(from);
    let parts: Vec<String> = parts_of(reference);
    let ghost own = paths::path_parts(from@);
    let ghost all = paths::path_parts(reference@);
    let ghost full = at@;
    if at.pop().is_none() {
        return None;
    }
    assert(at@ =~= full.drop_last());
    assert(text::views(at@) =~= own.drop_last());
    let mut i: usize = 0;
    while i < parts.len()
        invariant
            i <= parts@.len(),
            own.len() > 0,
            own == paths::path_parts(from@),
            all == paths::path_parts(reference@),
            all == text::views(parts@),
            climb(own.drop_last(), all, i as int) == Some(text::views(at@)),
        decreases parts@.len() - i,
    {
        let ghost here = text::views(at@);
        let ghost held = at@;
        assert(all[i as int] == parts@[i as int]@);
        if same_text(parts[i].as_str(), "..") {
            if at.pop().is_none() {
                proof {
                    lemma_climb_fails(own.drop_last(), all, i + 1, all.len() as int);
                }
                return None;
            }
            assert(at@ =~= held.drop_last());
            assert(text::views(at@) =~= here.drop_last());
        } else if !same_text(parts[i].as_str(), ".") {
            at.push(parts[i].clone());
            assert(text::views(at@) =~= here.push(all[i as int]));
        }
        i = i + 1;
    }
    let joined: String = join_texts(&at, "/");
    let v: Vec<char> = chars_of(from);
    if v.len() > 0 && v[0] == '/' {
        let mut r: String = "/".to_owned();
        vstd::string::StringExecFns::append(&mut r, joined.as_str());
        Some(r)
    } else {
        Some(joined)
    }
}

/// Once a climb has led above the root it stays there.
proof fn lemma_climb_fails(base: Seq<Seq<char>>, parts: Seq<Seq<char>>, n: int, m: int)
    requires
        climb(base, parts, n) is None,
        n <= m,
    ensures
        climb(base, parts, m) is None,
    decreases m,
{
    if n < m {
        lemma_climb_fails(base, parts, n, m - 1);
    }
}

/// The script that a reference in the script at `from` leads to.
pub fn resolve_reference(known: &SortedMap<i64>, from: &str, reference: &str) -> (id: Option<i64>)
    requires
        known.wf(),
    ensures
        id == reference_target(known@, from@, reference@),
{
    if !same_text(reference, from) {
        if let Some(id) = known.get(reference) {
            return Some(*id);
        }
    }
    let v: Vec<char> = chars_of(reference);
    if v.len() > 0 && v[0] == '/' {
        return None;
    }
    match path_from_script(from, reference) {
        Some(path) => {
            if same_text(path.as_str(), from) {
                None
            } else {
                match known.get(path.as_str()) {
                    Some(id) => Some(*id),
                    None => None,
                }
            }
        },
        None => None,
    }
}

/// A recorded reference: its id, the path it mentions, and the script that has
/// it.
#[derive(Debug)]
pub struct ReferenceRow {
    pub id: i64,
    pub path: String,
    pub from: String,
}

/// The script of every reference. One that leads nowhere is to be dropped: an
/// unresolved path is almost always an unrelated string.
pub fn resolve_reference_targets(rows: &Vec<ReferenceRow>, known: &SortedMap<i64>) -> (updates: Vec<
    (i64, Option<i64>),
>)
    requires
        known.wf(),
    ensures
        updates@.len() == rows@.len(),
        forall|i: int|
            0 <= i < rows@.len() ==> #[trigger] updates@[i] == (
                rows@[i].id,
                reference_target(known@, rows@[i].from@, rows@[i].path@),
            ),
{
    let mut updates: Vec<(i64, Option<i64>)> = Vec::new();
    let mut i: usize = 0;
    while i < rows.len()
        invariant
            i <= rows@.len(),
            known.wf(),
            updates@.len() == i,
            forall|j: int|
                0 <= j < i ==> #[trigger] updates@[j] == (
                    rows@[j].id,
                    reference_target(known@, rows@[j].from@, rows@[j].path@),
                ),
        decreases rows@.len() - i,
    {
        let target: Option<i64> = resolve_reference(
            known,
            rows[i].from.as_str(),
            rows[i].path.as_str(),
        );
        updates.push((rows[i].id, target));
        i = i + 1;
    }
    updates
}

/// The map from logical paths to script ids.
pub fn path_map(scripts: &Vec<(i64, String)>) -> (map: SortedMap<i64>)
    ensures
        map.wf(),
        map@ == path_ids(scripts@, scripts@.len() as int),
{
    let mut map: SortedMap<i64> = SortedMap::new();
    let mut i: usize = 0;
    while i < scripts.len()
        invariant
            i <= scripts@.len(),
            map.wf(),
            map@ == path_ids(scripts@, i as int),
        decreases scripts@.len() - i,
    {
        map.insert(scripts[i].1.as_str(), scripts[i].0);
        i = i + 1;
    }
    map
}

/// The ids of the first `n` scripts by their logical paths.
pub open spec fn path_ids(scripts: Seq<(i64, String)>, n: int) -> Map<Seq<char>, i64>
    decreases n,
{
    if n <= 0 {
        Map::empty()
    } else {
        path_ids(scripts, n - 1).insert(scripts[n - 1].1@, scripts[n - 1].0)
    }
}

/// The paths that are known are those of the scripts.
proof fn lemma_path_ids(scripts: Seq<(i64, String)>, n: int, path: Seq<char>)
    requires
        0 <= n <= scripts.len(),
    ensures
        path_ids(scripts, n).contains_key(path) ==> exists|i: int|
            0 <= i < n && (#[trigger] scripts[i]).1@ == path && scripts[i].0 == path_ids(
                scripts,
                n,
            )[path],
        forall|i: int|
            0 <= i < n && (#[trigger] scripts[i]).1@ == path ==> path_ids(scripts, n).contains_key(
                path,
            ),
    decreases n,
{
    if n > 0 {
        lemma_path_ids(scripts, n - 1, path);
        assert(scripts[n - 1].1@ == path || scripts[n - 1].1@ != path);
    }
}

/// Whether the script with this logical path is what a reference in the script
/// at `from` means.
pub open spec fn is_meant(from: Seq<char>, reference: Seq<char>, path: Seq<char>) -> bool {
    path == reference || !paths::is_absolute(reference) && reference_from(from, reference) == Some(
        path,
    )
}

/// A reference is kept exactly where it means an indexed script other than the
/// one that has it, and then leads to such a script: whatever else a path in a
/// script may be, it makes no edge.
pub proof fn law_references_lead_to_indexed_scripts(
    scripts: Seq<(i64, String)>,
    from: Seq<char>,
    reference: Seq<char>,
)
    ensures
        ({
            let target = reference_target(path_ids(scripts, scripts.len() as int), from, reference);
            &&& target is None <==> forall|i: int|
                0 <= i < scripts.len() ==> (#[trigger] scripts[i]).1@ == from || !is_meant(
                    from,
                    reference,
                    scripts[i].1@,
                )
            &&& target is Some ==> exists|i: int|
                0 <= i < scripts.len() && (#[trigger] scripts[i]).0 == target.unwrap()
                    && scripts[i].1@ != from && is_meant(from, reference, scripts[i].1@)
        }),
{
    let n = scripts.len() as int;
    lemma_path_ids(scripts, n, reference);
    if !paths::is_absolute(reference) && reference_from(from, reference) is Some {
        lemma_path_ids(scripts, n, reference_from(from, reference).unwrap());
    }
}

// ---------------------------------------------------------------------------
// Calls
// ---------------------------------------------------------------------------

/// A recorded call: its id, the called expression, the symbol it stands for,
/// and the script it was resolved to before.
#[derive(Debug)]
pub struct CallRow {
    pub id: i64,
    pub callee: String,
    pub target_name: Option<String>,
    pub resolved: Option<i64>,
}

/// The script that a call in the script `own` leads to: of a call without a
/// known symbol, the same script where it defines the called name; else the
/// script of the longest leading part of the symbol that is a module.
pub open spec fn call_target(
    own: i64,
    names: Seq<Seq<char>>,
    call: CallRow,
    map: Map<Seq<char>, i64>,
) -> Option<i64> {
    if call.resolved is Some {
        call.resolved
    } else if call.target_name is None || call.target_name.unwrap()@.len() == 0 {
        if call.callee@.len() > 0 && names.contains(ast_deps::root_of(call.callee@)) {
            Some(own)
        } else {
            None
        }
    } else {
        first_known(map, name_prefixes(call.target_name.unwrap()@), 0)
    }
}

/// The script that a call leads to.
fn resolve_call(own: i64, names: &Vec<String>, call: &CallRow, map: &SortedMap<i64>) -> (id: Option<
    i64,
>)
    requires
        map.wf(),
    ensures
        id == call_target(own, text::views(names@), *call, map@),
{
    if let Some(id) = call.resolved {
        return Some(id);
    }
    if let Some(name) = &call.target_name {
        if !name.as_str().is_empty() {
            let prefixes: Vec<String> = prefixes_of(name.as_str());
            return find_known(map, &prefixes);
        }
    }
    let v: Vec<char> = chars_of(call.callee.as_str());
    let i: usize = find_from(&v, 0, '.');
    assert(v@.skip(0) =~= v@);
    assert(v@.subrange(0, i as int) =~= v@.take(i as int));
    let root: String = slice_text(&v, 0, i);
    if v.len() > 0 && text::contains_string(names, root.as_str()) {
        Some(own)
    } else {
        None
    }
}

/// The scripts that the calls of one script lead to. `names` are the functions
/// and classes that the script itself defines.
pub fn resolve_function_targets(
    own: i64,
    names: &Vec<String>,
    calls: &Vec<CallRow>,
    map: &SortedMap<i64>,
) -> (updates: Vec<(i64, Option<i64>)>)
    requires
        map.wf(),
    ensures
        updates@.len() == calls@.len(),
        forall|i: int|
            0 <= i < calls@.len() ==> #[trigger] updates@[i] == (
                calls@[i].id,
                call_target(own, text::views(names@), calls@[i], map@),
            ),
{
    let mut updates: Vec<(i64, Option<i64>)> = Vec::new();
    let mut i: usize = 0;
    while i < calls.len()
        invariant
            i <= calls@.len(),
            map.wf(),
            updates@.len() == i,
            forall|j: int|
                0 <= j < i ==> #[trigger] updates@[j] == (
                    calls@[j].id,
                    call_target(own, text::views(names@), calls@[j], map@),
                ),
        decreases calls@.len() - i,
    {
        let target: Option<i64> = resolve_call(own, names, &calls[i], map);
        updates.push((calls[i].id, target));
        i = i + 1;
    }
    updates
}

// ---------------------------------------------------------------------------
// What names lead to
// ---------------------------------------------------------------------------

/// Whether one of the names that make up a dotted name starts at `k`.
pub open spec fn starts_name(dotted: Seq<char>, k: int) -> bool {
    k == 0 || 0 < k <= dotted.len() && dotted[k - 1] == '.'
}

/// Whether one of the names that make up a dotted name ends at `k`.
pub open spec fn ends_name(dotted: Seq<char>, k: int) -> bool {
    k == dotted.len() || 0 <= k < dotted.len() && dotted[k] == '.'
}

/// Whether `id` is what the map holds for the longest known ending of a dotted
/// name; nothing where it knows none.
pub open spec fn is_longest_ending(
    map: Map<Seq<char>, i64>,
    dotted: Seq<char>,
    id: Option<i64>,
) -> bool {
    match id {
        Some(found) => exists|k: int| #[trigger]
            starts_name(dotted, k) && map.contains_key(dotted.skip(k)) && map[dotted.skip(k)]
                == found && forall|j: int|
                0 <= j < k && #[trigger] starts_name(dotted, j) ==> !map.contains_key(
                    dotted.skip(j),
                ),
        None => forall|k: int| #[trigger]
            starts_name(dotted, k) ==> !map.contains_key(dotted.skip(k)),
    }
}

/// Whether `id` is what the map holds for the longest known beginning of a
/// dotted name; nothing where it knows none.
pub open spec fn is_longest_beginning(
    map: Map<Seq<char>, i64>,
    dotted: Seq<char>,
    id: Option<i64>,
) -> bool {
    match id {
        Some(found) => exists|k: int| #[trigger]
            ends_name(dotted, k) && map.contains_key(dotted.take(k)) && map[dotted.take(k)] == found
                && forall|j: int|
                k < j <= dotted.len() && #[trigger] ends_name(dotted, j) ==> !map.contains_key(
                    dotted.take(j),
                ),
        None => forall|k: int| #[trigger]
            ends_name(dotted, k) ==> !map.contains_key(dotted.take(k)),
    }
}

/// Where the pieces of a dotted name are parted there is a dot.
proof fn lemma_parted(name: Seq<char>, m: int)
    requires
        0 < m < text::split_char(name, '.').len(),
    ensures
        ({
            let parts = text::split_char(name, '.');
            name == text::join(parts.take(m), "."@) + seq!['.'] + text::join(parts.skip(m), "."@)
        }),
{
    reveal_strlit(".");
    assert("."@ =~= seq!['.']);
    let parts = text::split_char(name, '.');
    text::lemma_join_split(name, '.');
    text::lemma_join_add(parts.take(m), parts.skip(m), seq!['.']);
    assert(parts.take(m) + parts.skip(m) =~= parts);
}

/// The whole name is the first of its endings and of its beginnings.
proof fn lemma_whole_name(name: Seq<char>)
    ensures
        name_suffixes(name).len() == text::split_char(name, '.').len(),
        name_prefixes(name).len() == text::split_char(name, '.').len(),
        name_suffixes(name).len() > 0,
        name_suffixes(name)[0] == name,
        name_prefixes(name)[0] == name,
{
    reveal_strlit(".");
    assert("."@ =~= seq!['.']);
    let parts = text::split_char(name, '.');
    text::lemma_split_char_nonempty(name, '.');
    text::lemma_join_split(name, '.');
    assert(parts.skip(0) =~= parts);
    assert(parts.take(parts.len() - 0) =~= parts);
}

/// What is left of a dotted name without its first `i` names starts one of its
/// names, and is shorter than what is left with more of them.
proof fn lemma_suffix_starts(name: Seq<char>, i: int)
    requires
        0 <= i < name_suffixes(name).len(),
    ensures
        ({
            let k = name.len() - name_suffixes(name)[i].len();
            starts_name(name, k) && name.skip(k) == name_suffixes(name)[i]
        }),
        forall|j: int|
            0 <= j < i ==> (#[trigger] name_suffixes(name)[j]).len() > name_suffixes(name)[i].len(),
{
    reveal_strlit(".");
    assert("."@ =~= seq!['.']);
    let parts = text::split_char(name, '.');
    lemma_whole_name(name);
    if i == 0 {
        assert(name.skip(0) =~= name);
    } else {
        lemma_parted(name, i);
        let k = name.len() - name_suffixes(name)[i].len();
        assert(name.skip(k) =~= name_suffixes(name)[i]);
        assert forall|j: int| 0 <= j < i implies (#[trigger] name_suffixes(name)[j]).len()
            > name_suffixes(name)[i].len() by {
            let more = parts.skip(j);
            text::lemma_join_add(more.take(i - j), more.skip(i - j), seq!['.']);
            assert(more.take(i - j) + more.skip(i - j) =~= more);
            assert(more.skip(i - j) =~= parts.skip(i));
        }
    }
}

/// What is left of a dotted name without its last `i` names ends with one of
/// its names, and is shorter than what is left with more of them.
proof fn lemma_prefix_ends(name: Seq<char>, i: int)
    requires
        0 <= i < name_prefixes(name).len(),
    ensures
        ({
            let k = name_prefixes(name)[i].len() as int;
            ends_name(name, k) && name.take(k) == name_prefixes(name)[i]
        }),
        forall|j: int|
            0 <= j < i ==> (#[trigger] name_prefixes(name)[j]).len() > name_prefixes(name)[i].len(),
{
    reveal_strlit(".");
    assert("."@ =~= seq!['.']);
    let parts = text::split_char(name, '.');
    let n = parts.len() as int;
    lemma_whole_name(name);
    if i == 0 {
        assert(name.take(name.len() as int) =~= name);
    } else {
        lemma_parted(name, n - i);
        let k = name_prefixes(name)[i].len() as int;
        assert(name.take(k) =~= name_prefixes(name)[i]);
        assert forall|j: int| 0 <= j < i implies (#[trigger] name_prefixes(name)[j]).len()
            > name_prefixes(name)[i].len() by {
            let more = parts.take(n - j);
            text::lemma_join_add(more.take(n - i), more.skip(n - i), seq!['.']);
            assert(more.take(n - i) + more.skip(n - i) =~= more);
            assert(more.take(n - i) =~= parts.take(n - i));
        }
    }
}

/// From where one of its names starts, a dotted name is one of its endings.
proof fn lemma_start_is_suffix(name: Seq<char>, k: int) -> (i: int)
    requires
        starts_name(name, k),
    ensures
        0 <= i < name_suffixes(name).len(),
        name_suffixes(name)[i] == name.skip(k),
{
    reveal_strlit(".");
    assert("."@ =~= seq!['.']);
    lemma_whole_name(name);
    if k == 0 {
        assert(name.skip(0) =~= name);
        0
    } else {
        let a = name.take(k - 1);
        let b = name.skip(k);
        assert(name =~= a + seq!['.'] + b);
        text::lemma_split_at(a, b, '.');
        text::lemma_split_char_nonempty(b, '.');
        text::lemma_join_split(b, '.');
        let i = text::split_char(a, '.').len() as int;
        assert(text::split_char(name, '.').skip(i) =~= text::split_char(b, '.'));
        i
    }
}

/// Up to where one of its names ends, a dotted name is one of its beginnings.
proof fn lemma_end_is_prefix(name: Seq<char>, k: int) -> (i: int)
    requires
        ends_name(name, k),
    ensures
        0 <= i < name_prefixes(name).len(),
        name_prefixes(name)[i] == name.take(k),
{
    reveal_strlit(".");
    assert("."@ =~= seq!['.']);
    lemma_whole_name(name);
    if k == name.len() {
        assert(name.take(k) =~= name);
        0
    } else {
        let a = name.take(k);
        let b = name.skip(k + 1);
        assert(name =~= a + seq!['.'] + b);
        text::lemma_split_at(a, b, '.');
        text::lemma_split_char_nonempty(a, '.');
        text::lemma_join_split(a, '.');
        let n = text::split_char(name, '.').len() as int;
        let i = text::split_char(b, '.').len() as int;
        assert(text::split_char(name, '.').take(n - i) =~= text::split_char(a, '.'));
        i
    }
}

/// The first of some names that the map holds.
proof fn lemma_first_known(map: Map<Seq<char>, i64>, names: Seq<Seq<char>>, i: int) -> (m: int)
    requires
        0 <= i <= names.len(),
    ensures
        i <= m <= names.len(),
        forall|j: int| i <= j < m ==> !map.contains_key(#[trigger] names[j]),
        first_known(map, names, i) == if m < names.len() {
            Some(map[names[m]])
        } else {
            None
        },
        m < names.len() ==> map.contains_key(names[m]),
    decreases names.len() - i,
{
    if i == names.len() || map.contains_key(names[i]) {
        i
    } else {
        lemma_first_known(map, names, i + 1)
    }
}

/// The endings of a dotted name lead to what its longest known one does.
proof fn lemma_longest_ending(map: Map<Seq<char>, i64>, dotted: Seq<char>)
    ensures
        is_longest_ending(map, dotted, first_known(map, name_suffixes(dotted), 0)),
{
    let names = name_suffixes(dotted);
    let m = lemma_first_known(map, names, 0);
    if m < names.len() {
        lemma_suffix_starts(dotted, m);
        let k = dotted.len() - names[m].len();
        assert forall|j: int| 0 <= j < k && #[trigger] starts_name(dotted, j) implies !map.contains_key(
            dotted.skip(j),
        ) by {
            let i = lemma_start_is_suffix(dotted, j);
            assert(names[i].len() > names[m].len());
            if i > m {
                lemma_suffix_starts(dotted, i);
            }
        }
        assert(starts_name(dotted, k));
    } else {
        assert forall|k: int| #[trigger] starts_name(dotted, k) implies !map.contains_key(
            dotted.skip(k),
        ) by {
            let i = lemma_start_is_suffix(dotted, k);
        }
    }
}

/// The beginnings of a dotted name lead to what its longest known one does.
proof fn lemma_longest_beginning(map: Map<Seq<char>, i64>, dotted: Seq<char>)
    ensures
        is_longest_beginning(map, dotted, first_known(map, name_prefixes(dotted), 0)),
{
    let names = name_prefixes(dotted);
    let m = lemma_first_known(map, names, 0);
    if m < names.len() {
        lemma_prefix_ends(dotted, m);
        let k = names[m].len() as int;
        assert forall|j: int|
            k < j <= dotted.len() && #[trigger] ends_name(dotted, j) implies !map.contains_key(
            dotted.take(j),
        ) by {
            let i = lemma_end_is_prefix(dotted, j);
            assert(names[i].len() > names[m].len());
            if i > m {
                lemma_prefix_ends(dotted, i);
            }
        }
        assert(ends_name(dotted, k));
    } else {
        assert forall|k: int| #[trigger] ends_name(dotted, k) implies !map.contains_key(
            dotted.take(k),
        ) by {
            let i = lemma_end_is_prefix(dotted, k);
        }
    }
}

/// The longest known ending of a name is one thing only.
proof fn lemma_longest_ending_is_one(
    map: Map<Seq<char>, i64>,
    dotted: Seq<char>,
    a: Option<i64>,
    b: Option<i64>,
)
    requires
        is_longest_ending(map, dotted, a),
        is_longest_ending(map, dotted, b),
    ensures
        a == b,
{
    if a is Some && b is Some {
        let k = choose|k: int| #[trigger]
            starts_name(dotted, k) && map.contains_key(dotted.skip(k)) && map[dotted.skip(k)]
                == a.unwrap() && forall|j: int|
                0 <= j < k && #[trigger] starts_name(dotted, j) ==> !map.contains_key(
                    dotted.skip(j),
                );
        let m = choose|k: int| #[trigger]
            starts_name(dotted, k) && map.contains_key(dotted.skip(k)) && map[dotted.skip(k)]
                == b.unwrap() && forall|j: int|
                0 <= j < k && #[trigger] starts_name(dotted, j) ==> !map.contains_key(
                    dotted.skip(j),
                );
        assert(starts_name(dotted, k));
        assert(starts_name(dotted, m));
    }
}

/// An absolute import leads to the script of the longest ending of its name
/// that is known: of the whole name where that is, and to none exactly where
/// no ending is.
pub proof fn law_an_import_leads_to_the_longest_known_ending(
    map: Map<Seq<char>, i64>,
    dep: Seq<char>,
    caller: Seq<char>,
)
    requires
        dep.len() == 0 || dep[0] != '.',
    ensures
        ({
            let id = first_known(map, import_candidates(dep, caller), 0);
            &&& map.contains_key(dep) ==> id == Some(map[dep])
            &&& id is None <==> forall|k: int| #[trigger]
                starts_name(dep, k) ==> !map.contains_key(dep.skip(k))
            &&& forall|k: int|
                (#[trigger] starts_name(dep, k) && map.contains_key(dep.skip(k)) && forall|j: int|
                    0 <= j < k && #[trigger] starts_name(dep, j) ==> !map.contains_key(
                        dep.skip(j),
                    )) ==> id == Some(map[dep.skip(k)])
        }),
{
    reveal_strlit(".");
    let id = first_known(map, import_candidates(dep, caller), 0);
    lemma_longest_ending(map, dep);
    assert(dep.skip(0) =~= dep);
    if map.contains_key(dep) {
        assert(starts_name(dep, 0));
        assert(is_longest_ending(map, dep, Some(map[dep])));
        lemma_longest_ending_is_one(map, dep, id, Some(map[dep]));
    }
    assert forall|k: int|
        (#[trigger] starts_name(dep, k) && map.contains_key(dep.skip(k)) && forall|j: int|
            0 <= j < k && #[trigger] starts_name(dep, j) ==> !map.contains_key(
                dep.skip(j),
            )) implies id == Some(map[dep.skip(k)]) by {
        lemma_longest_ending_is_one(map, dep, id, Some(map[dep.skip(k)]));
    }
}

/// Seen from a module, one dot stands for its package, and a further dot for
/// the package above; what follows the dots is a name in there. A package
/// itself counts as any module in it does, and nothing stands above the
/// topmost package.
pub proof fn law_dots_climb_packages(
    package: Seq<char>,
    module: Seq<char>,
    rest: Seq<char>,
    dep: Seq<char>,
)
    requires
        !module.contains('.'),
        rest.len() > 0,
        rest[0] != '.',
        dep.len() > 0,
        dep[0] == '.',
    ensures
        relative_dep("."@ + rest, package + "."@ + module, false) == Some(package + "."@ + rest),
        relative_dep("."@, package + "."@ + module, false) == Some(package),
        relative_dep("."@ + rest, package, true) == Some(package + "."@ + rest),
        relative_dep("."@, package, true) == Some(package),
        relative_dep("."@ + dep, package + "."@ + module, false) == relative_dep(
            dep,
            package,
            false,
        ),
        relative_dep(dep, package + "."@ + module, false) == relative_dep(dep, package, true),
        relative_dep(dep, module, false) is None,
        relative_dep("."@ + dep, module, true) is None,
        relative_dep(rest, package, false) is None,
        relative_dep(rest, package, true) is None,
{
    reveal_strlit(".");
    assert("."@ =~= seq!['.']);
    let caller = package + "."@ + module;
    let above = text::split_char(package, '.');
    let own = text::split_char(module, '.');
    text::lemma_split_at(package, module, '.');
    text::lemma_split_char_nonempty(package, '.');
    text::lemma_split_join(seq![module], '.');
    assert(text::join(seq![module], seq!['.']) == module);
    assert(own =~= seq![module]);
    let parts = text::split_char(caller, '.');
    assert(parts =~= above.push(module));
    text::lemma_join_split(package, '.');
    assert(ast_deps::leading_dots(rest) == 0);
    // One dot.
    let one = "."@ + rest;
    assert(one.drop_first() =~= rest);
    assert(ast_deps::leading_dots(one) == 1);
    assert(one.skip(1) =~= rest);
    assert("."@.drop_first() =~= Seq::<char>::empty());
    assert(ast_deps::leading_dots("."@) == 1) by {
        reveal_with_fuel(ast_deps::leading_dots, 2);
    }
    assert("."@.skip(1) =~= Seq::<char>::empty());
    assert(parts.take(parts.len() - 1) =~= above);
    assert(above.take(above.len() as int) =~= above);
    assert(above.push(rest).drop_last() =~= above);
    assert(text::join(above.push(rest), "."@) =~= package + "."@ + rest);
    // More dots.
    let more = "."@ + dep;
    let dots = ast_deps::leading_dots(dep);
    lemma_leading_dots(dep);
    assert(more.drop_first() =~= dep);
    assert(ast_deps::leading_dots(more) == dots + 1);
    assert(more.skip(dots + 1) =~= dep.skip(dots));
    if dots < above.len() {
        assert(parts.take(parts.len() - (dots + 1)) =~= above.take(above.len() - dots));
    }
    if dots - 1 < above.len() {
        assert(parts.take(parts.len() - dots) =~= above.take(above.len() - (dots - 1)));
    }
}

/// A name has at most as many dots at its start as characters.
proof fn lemma_leading_dots(name: Seq<char>)
    ensures
        0 <= ast_deps::leading_dots(name) <= name.len(),
        name.len() > 0 && name[0] == '.' ==> ast_deps::leading_dots(name) > 0,
    decreases name.len(),
{
    if name.len() > 0 && name[0] == '.' {
        lemma_leading_dots(name.drop_first());
    }
}

/// A relative import leads where an absolute one of the name that it means
/// does; one that climbs out of all packages leads nowhere.
pub proof fn law_a_relative_import_leads_where_its_meaning_does(
    map: Map<Seq<char>, i64>,
    dep: Seq<char>,
    caller: Seq<char>,
    other: Seq<char>,
)
    requires
        dep.len() > 0,
        dep[0] == '.',
    ensures
        ({
            let id = first_known(map, import_candidates(dep, caller), 0);
            match relative_dep(dep, module_name(caller), "__init__.py"@.is_suffix_of(caller)) {
                Some(name) => {
                    &&& is_longest_ending(map, name, id)
                    &&& name.len() > 0 && name[0] != '.' ==> id == first_known(
                        map,
                        import_candidates(name, other),
                        0,
                    )
                },
                None => id is None,
            }
        }),
{
    reveal_strlit(".");
    assert("."@.is_prefix_of(dep));
    match relative_dep(dep, module_name(caller), "__init__.py"@.is_suffix_of(caller)) {
        Some(name) => {
            lemma_longest_ending(map, name);
            if name.len() > 0 && name[0] != '.' {
                assert(!"."@.is_prefix_of(name)) by {
                    assert("."@.len() == 1 && "."@[0] == '.');
                }
            }
        },
        None => {},
    }
}

/// The texts of which none is empty are all kept.
proof fn lemma_all_filled(s: Seq<Seq<char>>, n: int)
    requires
        0 <= n <= s.len(),
        forall|i: int| 0 <= i < n ==> (#[trigger] s[i]).len() > 0,
    ensures
        filled(s, n) == s.take(n),
    decreases n,
{
    if n > 0 {
        lemma_all_filled(s, n - 1);
        assert(s.take(n - 1).push(s[n - 1]) =~= s.take(n));
    } else {
        assert(s.take(0) =~= seq![]);
    }
}

/// Empty texts at the start are left out.
proof fn lemma_filled_behind_empty(s: Seq<Seq<char>>, n: int)
    requires
        0 <= n <= s.len(),
        forall|i: int| 0 <= i < n ==> (#[trigger] s[i]).len() > 0,
    ensures
        filled(seq![Seq::<char>::empty()] + s, n + 1) == s.take(n),
    decreases n,
{
    let all = seq![Seq::<char>::empty()] + s;
    if n > 0 {
        lemma_filled_behind_empty(s, n - 1);
        assert(all[n] == s[n - 1]);
        assert(s.take(n - 1).push(s[n - 1]) =~= s.take(n));
    } else {
        assert(all[0].len() == 0);
        assert(filled(all, 0) =~= seq![]);
        assert(filled(all, 1) =~= seq![]);
        assert(s.take(0) =~= seq![]);
    }
}

/// Whether a text can be the name of a directory or a module file.
pub open spec fn is_path_name(name: Seq<char>) -> bool {
    name.len() > 0 && !name.contains('/') && !name.contains('\\')
}

/// The parts of the module at a path made of the given names.
proof fn lemma_module_parts(names: Seq<Seq<char>>)
    requires
        names.len() > 0,
        forall|i: int| 0 <= i < names.len() ==> is_path_name(#[trigger] names[i]),
    ensures
        ({
            let parts = if names.last() == "__init__"@ {
                names.drop_last()
            } else {
                names
            };
            &&& module_parts(text::join(names, "/"@) + ".py"@) == parts
            &&& module_parts("/"@ + text::join(names, "/"@) + ".py"@) == parts
        }),
{
    reveal_strlit("/");
    reveal_strlit(".py");
    assert("/"@ =~= seq!['/']);
    let path = text::join(names, "/"@);
    lemma_no_backslash(names);
    let a = path + ".py"@;
    let b = "/"@ + path + ".py"@;
    assert(text::replace_char(a, '\\', '/') =~= a) by {
        assert forall|i: int| 0 <= i < a.len() implies a[i] != '\\' by {
            if i < path.len() && path[i] == '\\' {
                assert(path.contains('\\'));
            }
        }
    }
    assert(text::replace_char(b, '\\', '/') =~= b) by {
        assert forall|i: int| 0 <= i < b.len() implies b[i] != '\\' by {
            if 0 < i <= path.len() && path[i - 1] == '\\' {
                assert(path.contains('\\'));
            }
        }
    }
    assert(".py"@.is_suffix_of(a));
    assert(".py"@.is_suffix_of(b));
    assert(without_py(a) =~= path);
    assert(without_py(b) =~= "/"@ + path);
    let none = Seq::<char>::empty();
    let rooted = seq![none] + names;
    assert forall|i: int| 0 <= i < names.len() implies !(#[trigger] names[i]).contains('/') by {
        assert(is_path_name(names[i]));
    }
    assert forall|i: int| 0 <= i < rooted.len() implies !(#[trigger] rooted[i]).contains('/') by {
        if i > 0 {
            assert(rooted[i] == names[i - 1]);
        }
    }
    text::lemma_split_join(names, '/');
    text::lemma_split_join(rooted, '/');
    text::lemma_join_first(none, names, seq!['/']);
    assert(none + seq!['/'] + path =~= "/"@ + path);
    assert forall|i: int| 0 <= i < names.len() implies (#[trigger] names[i]).len() > 0 by {
        assert(is_path_name(names[i]));
    }
    lemma_all_filled(names, names.len() as int);
    lemma_filled_behind_empty(names, names.len() as int);
    assert(names.take(names.len() as int) =~= names);
}

/// Names without a backslash make up a path without one.
proof fn lemma_no_backslash(names: Seq<Seq<char>>)
    requires
        forall|i: int| 0 <= i < names.len() ==> is_path_name(#[trigger] names[i]),
    ensures
        !text::join(names, "/"@).contains('\\'),
    decreases names.len(),
{
    reveal_strlit("/");
    let all = text::join(names, "/"@);
    if names.len() == 1 {
        assert(is_path_name(names[0]));
    } else if names.len() > 1 {
        let rest = names.drop_last();
        assert forall|i: int| 0 <= i < rest.len() implies is_path_name(#[trigger] rest[i]) by {
            assert(rest[i] == names[i]);
        }
        lemma_no_backslash(rest);
        assert(is_path_name(names.last()));
        let before = text::join(rest, "/"@);
        if all.contains('\\') {
            let k = choose|k: int| 0 <= k < all.len() && all[k] == '\\';
            if k < before.len() {
                assert(before[k] == '\\');
                assert(before.contains('\\'));
            } else if k > before.len() {
                assert(names.last()[k - before.len() - 1] == '\\');
                assert(names.last().contains('\\'));
            } else {
                assert(all[k] == '/');
            }
        }
    }
}

/// The module in the file `name.py` of nested directories has the names of
/// these and its own, with dots between them; a package has those of its
/// directory. A separator at the start makes no difference.
pub proof fn law_modules_are_named_by_their_path(dirs: Seq<Seq<char>>, name: Seq<char>)
    requires
        forall|i: int| 0 <= i < dirs.len() ==> is_path_name(#[trigger] dirs[i]),
        is_path_name(name),
    ensures
        ({
            let path = text::join(dirs.push(name), "/"@) + ".py"@;
            let expected = if name == "__init__"@ {
                text::join(dirs, "."@)
            } else {
                text::join(dirs.push(name), "."@)
            };
            module_name(path) == expected && module_name("/"@ + path) == expected
        }),
{
    let names = dirs.push(name);
    assert forall|i: int| 0 <= i < names.len() implies is_path_name(#[trigger] names[i]) by {
        if i < dirs.len() {
            assert(names[i] == dirs[i]);
        }
    }
    lemma_module_parts(names);
    assert(names.drop_last() =~= dirs);
    assert("/"@ + (text::join(names, "/"@) + ".py"@) =~= "/"@ + text::join(names, "/"@) + ".py"@);
}

/// A backslash in a path separates its parts as a slash does.
pub proof fn law_backslashes_separate_too(path: Seq<char>)
    ensures
        module_name(path) == module_name(text::replace_char(path, '\\', '/')),
        module_candidates(path) == module_candidates(text::replace_char(path, '\\', '/')),
{
    let p = text::replace_char(path, '\\', '/');
    assert(text::replace_char(p, '\\', '/') =~= p);
}

/// A package imports by relative names what the modules directly in it do.
pub proof fn law_a_package_imports_as_its_modules_do(
    map: Map<Seq<char>, i64>,
    dirs: Seq<Seq<char>>,
    module: Seq<char>,
    dep: Seq<char>,
)
    requires
        dirs.len() > 0,
        forall|i: int| 0 <= i < dirs.len() ==> is_path_name(#[trigger] dirs[i]),
        is_path_name(module),
        !module.contains('.'),
        !"__init__"@.is_suffix_of(module),
        dep.len() > 0,
        dep[0] == '.',
    ensures
        first_known(
            map,
            import_candidates(dep, text::join(dirs.push(module), "/"@) + ".py"@),
            0,
        ) == first_known(
            map,
            import_candidates(dep, text::join(dirs.push("__init__"@), "/"@) + ".py"@),
            0,
        ),
{
    reveal_strlit("/");
    reveal_strlit(".");
    reveal_strlit(".py");
    reveal_strlit("__init__");
    reveal_strlit("__init__.py");
    let init = "__init__"@;
    assert(is_path_name(init)) by {
        assert forall|i: int| 0 <= i < init.len() implies init[i] != '/' && init[i] != '\\' by {
            assert(i == 0 || i == 1 || i == 2 || i == 3 || i == 4 || i == 5 || i == 6 || i == 7);
        }
    }
    let package = text::join(dirs, "."@);
    law_modules_are_named_by_their_path(dirs, module);
    law_modules_are_named_by_their_path(dirs, init);
    let own = text::join(dirs.push(module), "/"@) + ".py"@;
    let whole = text::join(dirs.push(init), "/"@) + ".py"@;
    assert(dirs.push(module).drop_last() =~= dirs);
    assert(dirs.push(init).drop_last() =~= dirs);
    let dir = text::join(dirs, "/"@);
    assert(own =~= dir + "/"@ + module + ".py"@);
    assert(whole =~= dir + "/"@ + init + ".py"@);
    assert(init + ".py"@ =~= "__init__.py"@);
    assert("__init__.py"@.is_suffix_of(whole)) by {
        assert(whole =~= (dir + "/"@) + "__init__.py"@);
    }
    if "__init__.py"@.is_suffix_of(own) {
        let m = module.len() as int;
        let tail = own.skip(own.len() - 11);
        assert(tail == "__init__.py"@);
        if m < 8 {
            assert(own[dir.len() as int] == '/');
            assert(tail[7 - m] == '/');
            let k = 7 - m;
            assert(k == 0 || k == 1 || k == 2 || k == 3 || k == 4 || k == 5 || k == 6 || k == 7);
        } else {
            assert(module.skip(m - 8) =~= init) by {
                assert forall|i: int| 0 <= i < 8 implies #[trigger] module.skip(m - 8)[i] == init[i] by {
                    assert(module.skip(m - 8)[i] == tail[i]);
                    assert("__init__.py"@[i] == init[i]);
                }
            }
            assert("__init__"@.is_suffix_of(module));
        }
    }
    assert(module_name(own) == package + "."@ + module);
    law_dots_climb_packages(package, module, seq!['x'], dep);
    assert("."@.is_prefix_of(dep));
}

/// A script can be imported by the endings of its module name, and by no other
/// name.
pub proof fn law_scripts_are_imported_by_the_endings_of_their_name(
    path: Seq<char>,
    name: Seq<char>,
)
    ensures
        module_candidates(path).contains(name) <==> module_name(path).len() > 0 && exists|k: int|
            #[trigger] starts_name(module_name(path), k) && name == module_name(path).skip(k),
{
    let module = module_name(path);
    let names = module_candidates(path);
    if names.contains(name) {
        let i = choose|i: int| 0 <= i < names.len() && names[i] == name;
        lemma_suffix_starts(module, i);
        assert(starts_name(module, module.len() - names[i].len()));
    }
    if module.len() > 0 && exists|k: int| #[trigger]
        starts_name(module, k) && name == module.skip(k) {
        let k = choose|k: int| #[trigger] starts_name(module, k) && name == module.skip(k);
        let i = lemma_start_is_suffix(module, k);
        assert(names[i] == name);
    }
}

/// All names are in the map once they were added.
proof fn lemma_names_are_added(
    map: Map<Seq<char>, i64>,
    names: Seq<Seq<char>>,
    n: int,
    id: i64,
    k: int,
)
    requires
        0 <= k < n <= names.len(),
    ensures
        with_names(map, names, n, id).contains_key(names[k]),
    decreases n,
{
    if k < n - 1 {
        lemma_names_are_added(map, names, n - 1, id, k);
    }
}

/// Every name that one of the scripts can be imported by leads to the first of
/// those that can be imported by it, and no other name leads anywhere.
pub proof fn law_a_name_leads_to_the_first_script_that_has_it(
    scripts: Seq<(i64, String)>,
    n: int,
    name: Seq<char>,
)
    requires
        0 <= n <= scripts.len(),
    ensures
        ({
            let map = module_map(scripts, n);
            &&& map.contains_key(name) <==> exists|i: int|
                0 <= i < n && module_candidates((#[trigger] scripts[i]).1@).contains(name)
            &&& forall|i: int|
                (0 <= i < n && module_candidates((#[trigger] scripts[i]).1@).contains(name)
                    && forall|j: int|
                    0 <= j < i ==> !module_candidates((#[trigger] scripts[j]).1@).contains(name))
                    ==> map[name] == scripts[i].0
        }),
    decreases n,
{
    if n > 0 {
        law_a_name_leads_to_the_first_script_that_has_it(scripts, n - 1, name);
        let before = module_map(scripts, n - 1);
        let map = module_map(scripts, n);
        let names = module_candidates(scripts[n - 1].1@);
        if map.contains_key(name) {
            lemma_names_added(before, names, names.len() as int, scripts[n - 1].0, name);
            if !before.contains_key(name) {
                assert(module_candidates(scripts[n - 1].1@).contains(name));
            }
        }
        if before.contains_key(name) {
            lemma_names_kept(before, names, names.len() as int, scripts[n - 1].0, name);
        }
        if names.contains(name) {
            let k = choose|k: int| 0 <= k < names.len() && names[k] == name;
            lemma_names_are_added(before, names, names.len() as int, scripts[n - 1].0, k);
        }
    }
}

// ---------------------------------------------------------------------------
// What references mean
// ---------------------------------------------------------------------------

/// Whether a text is a part of a path that names a file or directory.
pub open spec fn is_plain_name(part: Seq<char>) -> bool {
    part.len() > 0 && !part.contains('/') && part != "."@ && part != ".."@
}

/// The parts of a path that is written without anything to spare.
proof fn lemma_parts_of_plain(parts: Seq<Seq<char>>)
    requires
        parts.len() > 0,
        forall|i: int|
            0 <= i < parts.len() ==> (#[trigger] parts[i]).len() > 0 && !parts[i].contains('/') && (
            parts[i] != "."@ || i == 0),
    ensures
        paths::path_parts(text::join(parts, "/"@)) == parts,
        parts[0] != "."@ ==> paths::path_parts("/"@ + text::join(parts, "/"@)) == parts,
{
    reveal_strlit("/");
    assert("/"@ =~= seq!['/']);
    let none = Seq::<char>::empty();
    let rooted = seq![none] + parts;
    text::lemma_split_join(parts, '/');
    assert forall|i: int| 0 <= i < rooted.len() implies !(#[trigger] rooted[i]).contains('/') by {
        if i > 0 {
            assert(rooted[i] == parts[i - 1]);
        }
    }
    text::lemma_split_join(rooted, '/');
    text::lemma_join_first(none, parts, seq!['/']);
    assert(none + seq!['/'] + text::join(parts, "/"@) =~= "/"@ + text::join(parts, "/"@));
    lemma_parts_in_plain(parts, parts.len() as int);
    assert(parts.take(parts.len() as int) =~= parts);
    if parts[0] != "."@ {
        lemma_parts_in_rooted(parts, parts.len() as int);
    }
}

/// Pieces that are all parts.
proof fn lemma_parts_in_plain(parts: Seq<Seq<char>>, n: int)
    requires
        0 <= n <= parts.len(),
        forall|i: int|
            0 <= i < parts.len() ==> (#[trigger] parts[i]).len() > 0 && (parts[i] != "."@ || i
                == 0),
    ensures
        paths::parts_in(parts, n) == parts.take(n),
    decreases n,
{
    if n > 0 {
        lemma_parts_in_plain(parts, n - 1);
        assert(parts[n - 1].len() > 0);
        assert(parts.take(n - 1).push(parts[n - 1]) =~= parts.take(n));
    } else {
        assert(parts.take(0) =~= seq![]);
    }
}

/// Pieces that are all parts, behind the empty one of a path from the root.
proof fn lemma_parts_in_rooted(parts: Seq<Seq<char>>, n: int)
    requires
        0 <= n <= parts.len(),
        forall|i: int| 0 <= i < parts.len() ==> (#[trigger] parts[i]).len() > 0 && parts[i] != "."@,
    ensures
        paths::parts_in(seq![Seq::<char>::empty()] + parts, n + 1) == parts.take(n),
    decreases n,
{
    let all = seq![Seq::<char>::empty()] + parts;
    if n > 0 {
        lemma_parts_in_rooted(parts, n - 1);
        assert(all[n] == parts[n - 1]);
        assert(parts.take(n - 1).push(parts[n - 1]) =~= parts.take(n));
    } else {
        assert(paths::parts_in(all, 0) =~= seq![]);
        assert(all[0].len() == 0);
        assert(paths::parts_in(all, 1) =~= seq![]);
        assert(parts.take(0) =~= seq![]);
    }
}

/// `n` times the part that leads to the directory above.
pub open spec fn ups(n: nat) -> Seq<Seq<char>> {
    Seq::new(n, |i: int| ".."@)
}

/// Where the first parts of a reference lead.
proof fn lemma_climb(base: Seq<Seq<char>>, up: nat, names: Seq<Seq<char>>, n: int)
    requires
        0 <= n <= up + names.len(),
        forall|i: int| 0 <= i < names.len() ==> is_plain_name(#[trigger] names[i]),
    ensures
        climb(base, ups(up) + names, n) == if n <= up {
            if n <= base.len() {
                Some(base.take(base.len() - n))
            } else {
                None
            }
        } else if up <= base.len() {
            Some(base.take(base.len() - up) + names.take(n - up))
        } else {
            None
        },
    decreases n,
{
    let parts = ups(up) + names;
    if n == 0 {
        assert(base.take(base.len() as int) =~= base);
    } else {
        lemma_climb(base, up, names, n - 1);
        if n <= up {
            assert(parts[n - 1] == ".."@);
            if n <= base.len() {
                assert(base.take(base.len() - (n - 1)).drop_last() =~= base.take(base.len() - n));
            }
        } else {
            assert(parts[n - 1] == names[n - 1 - up]);
            assert(is_plain_name(names[n - 1 - up]));
            if up <= base.len() {
                let at = base.take(base.len() - up);
                if n - 1 == up {
                    assert(at.push(names[0]) =~= at + names.take(1));
                } else {
                    assert((at + names.take(n - 1 - up)).push(names[n - 1 - up]) =~= at
                        + names.take(n - up));
                }
            }
        }
    }
}

/// A relative reference starts from the directory of the script that has it:
/// each `..` at its start leads one directory up, and the names behind lead
/// down from there. One that leads above the root means nothing, and a `./` at
/// the start makes no difference.
pub proof fn law_references_start_from_the_directory_of_their_script(
    dirs: Seq<Seq<char>>,
    script: Seq<char>,
    up: nat,
    names: Seq<Seq<char>>,
)
    requires
        forall|i: int| 0 <= i < dirs.len() ==> is_plain_name(#[trigger] dirs[i]),
        forall|i: int| 0 <= i < names.len() ==> is_plain_name(#[trigger] names[i]),
        is_plain_name(script),
        names.len() > 0,
    ensures
        ({
            let from = text::join(dirs.push(script), "/"@);
            let reference = text::join(ups(up) + names, "/"@);
            let meant = if up <= dirs.len() {
                Some(text::join(dirs.take(dirs.len() - up) + names, "/"@))
            } else {
                None
            };
            let rooted = if up <= dirs.len() {
                Some("/"@ + text::join(dirs.take(dirs.len() - up) + names, "/"@))
            } else {
                None
            };
            &&& reference_from(from, reference) == meant
            &&& reference_from("/"@ + from, reference) == rooted
            &&& reference_from(from, "./"@ + reference) == meant
            &&& reference_from("/"@ + from, "./"@ + reference) == rooted
        }),
{
    reveal_strlit("/");
    reveal_strlit("./");
    reveal_strlit(".");
    reveal_strlit("..");
    assert("/"@ =~= seq!['/']);
    assert("."@ != ".."@) by {
        assert("."@.len() != ".."@.len());
    }
    assert(!".."@.contains('/'));
    assert(!"."@.contains('/'));
    let own = dirs.push(script);
    let from = text::join(own, "/"@);
    assert forall|i: int| 0 <= i < own.len() implies (#[trigger] own[i]).len() > 0
        && !own[i].contains('/') && (own[i] != "."@ || i == 0) && own[i] != "."@ by {
        if i < dirs.len() {
            assert(own[i] == dirs[i]);
            assert(is_plain_name(dirs[i]));
        }
    }
    lemma_parts_of_plain(own);
    assert(own[0] != "."@);
    assert(own.drop_last() =~= dirs);
    let parts = ups(up) + names;
    let reference = text::join(parts, "/"@);
    assert forall|i: int| 0 <= i < parts.len() implies (#[trigger] parts[i]).len() > 0
        && !parts[i].contains('/') && parts[i] != "."@ by {
        if i >= up {
            assert(parts[i] == names[i - up]);
            assert(is_plain_name(names[i - up]));
        }
    }
    lemma_parts_of_plain(parts);
    lemma_climb(dirs, up, names, parts.len() as int);
    assert(names.take(names.len() as int) =~= names);
    let dotted = seq!["."@] + parts;
    assert forall|i: int| 0 <= i < dotted.len() implies (#[trigger] dotted[i]).len() > 0
        && !dotted[i].contains('/') && (dotted[i] != "."@ || i == 0) by {
        if i > 0 {
            assert(dotted[i] == parts[i - 1]);
        }
    }
    lemma_parts_of_plain(dotted);
    text::lemma_join_first("."@, parts, "/"@);
    assert("."@ + "/"@ + reference =~= "./"@ + reference);
    lemma_climb_from_dot(dirs, parts, parts.len() as int);
    assert(!paths::is_absolute(from)) by {
        assert(is_plain_name(own[0]) || dirs.len() == 0);
        lemma_join_starts(own);
    }
    assert(paths::is_absolute("/"@ + from));
}

/// A `.` at the start leads nowhere else.
proof fn lemma_climb_from_dot(base: Seq<Seq<char>>, parts: Seq<Seq<char>>, n: int)
    requires
        0 <= n <= parts.len(),
    ensures
        climb(base, seq!["."@] + parts, n + 1) == climb(base, parts, n),
    decreases n,
{
    reveal_strlit(".");
    reveal_strlit("..");
    assert("."@.len() != ".."@.len());
    let all = seq!["."@] + parts;
    if n > 0 {
        lemma_climb_from_dot(base, parts, n - 1);
        assert(all[n] == parts[n - 1]);
    } else {
        assert(all[0] == "."@);
        assert(climb(base, all, 0) == Some(base));
    }
}

/// What is joined starts with its first part.
proof fn lemma_join_starts(parts: Seq<Seq<char>>)
    requires
        parts.len() > 0,
        parts[0].len() > 0,
    ensures
        text::join(parts, "/"@).len() > 0,
        text::join(parts, "/"@)[0] == parts[0][0],
        !parts[0].contains('/') ==> text::join(parts, "/"@)[0] != '/',
    decreases parts.len(),
{
    assert(parts[0].contains(parts[0][0]));
    if parts.len() > 1 {
        lemma_join_starts(parts.drop_last());
    }
}

/// A reference that is the path of another indexed script leads to it.
pub proof fn law_a_known_path_is_followed(
    known: Map<Seq<char>, i64>,
    from: Seq<char>,
    reference: Seq<char>,
)
    ensures
        known.contains_key(reference) && reference != from ==> reference_target(
            known,
            from,
            reference,
        ) == Some(known[reference]),
        !known.contains_key(reference) && reference.len() > 0 && reference[0] == '/'
            ==> reference_target(known, from, reference) is None,
{
}

// ---------------------------------------------------------------------------
// What calls lead to
// ---------------------------------------------------------------------------

/// Whether a called expression starts with the name `root`: it is that name, or
/// that name and something behind a dot.
pub open spec fn is_called_through(callee: Seq<char>, root: Seq<char>) -> bool {
    !root.contains('.') && root.is_prefix_of(callee) && (callee.len() == root.len()
        || callee[root.len() as int] == '.')
}

/// A call that was resolved stays so. One whose symbol is known leads to the
/// script of the longest beginning of the symbol that is a module; one whose
/// symbol is not leads to its own script exactly where that defines the name
/// that is called, and else nowhere.
pub proof fn law_calls_lead_to_modules_or_to_their_own_script(
    own: i64,
    names: Seq<Seq<char>>,
    call: CallRow,
    map: Map<Seq<char>, i64>,
)
    ensures
        ({
            let id = call_target(own, names, call, map);
            match (call.resolved, call.target_name) {
                (Some(before), _) => id == Some(before),
                (None, Some(symbol)) if symbol@.len() > 0 => is_longest_beginning(map, symbol@, id)
                    && (map.contains_key(symbol@) ==> id == Some(map[symbol@])),
                _ => {
                    &&& id is Some ==> id == Some(own)
                    &&& id is Some <==> call.callee@.len() > 0 && exists|k: int|
                        0 <= k < names.len() && is_called_through(
                            call.callee@,
                            #[trigger] names[k],
                        )
                },
            }
        }),
{
    match call.target_name {
        Some(symbol) => {
            lemma_longest_beginning(map, symbol@);
            lemma_whole_name(symbol@);
        },
        None => {},
    }
    let callee = call.callee@;
    text::lemma_find_char(callee, '.');
    let i = text::find_char(callee, '.');
    let root = ast_deps::root_of(callee);
    assert(!root.contains('.'));
    assert(is_called_through(callee, root));
    if exists|k: int| 0 <= k < names.len() && is_called_through(callee, #[trigger] names[k]) {
        let k = choose|k: int|
            0 <= k < names.len() && is_called_through(callee, #[trigger] names[k]);
        let name = names[k];
        assert forall|j: int| 0 <= j < name.len() implies callee[j] != '.' by {
            assert(name[j] == callee[j]);
            if name[j] == '.' {
                assert(name.contains('.'));
            }
        }
        text::lemma_find_char_is(callee, '.', name.len() as int);
        assert(root =~= name);
        assert(names.contains(root));
    }
}

} // verus!
