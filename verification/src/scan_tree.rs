//! The tree view of the directory that a scan is walking: one line for each
//! level from the scan root down, which lists the entries of that level with
//! the one on the way to the current entry in brackets.

use vstd::prelude::*;
use vstd::string::StringExecFns;

use crate::paths;
use crate::paths::{part_is_name, join_path, parts_of, starts_at_root};
use crate::sorting;
use crate::sorting::sorted_texts;
use crate::text;
use crate::text::{concat, concat3, join_texts, push_blanks, same_text};

verus! {

/// Levels shown at once; the deepest ones are kept.
pub const MAX_VISIBLE_LEVELS: usize = 6;

/// Names shown on one level.
pub const MAX_SIBLINGS_PER_LEVEL: usize = 8;

/// One level of the view.
#[derive(Debug)]
pub struct TreeRow {
    /// Levels below the scan root.
    pub depth: usize,
    /// The directory whose entries the line lists.
    pub dir: String,
    /// The entry of that directory that is in brackets.
    pub active: String,
}

/// The value of a level.
pub struct TreeRowView {
    pub depth: int,
    pub dir: Seq<char>,
    pub active: Seq<char>,
}

impl View for TreeRow {
    type V = TreeRowView;

    open spec fn view(&self) -> TreeRowView {
        TreeRowView { depth: self.depth as int, dir: self.dir@, active: self.active@ }
    }
}

/// The levels of the path with the parts `e` that lie behind its first `base`
/// parts and end at its part `n`; a part that is no name has no line.
pub open spec fn levels(
    e: Seq<Seq<char>>,
    absolute: bool,
    base: int,
    lead: int,
    n: int,
) -> Seq<TreeRowView>
    decreases n - base,
{
    if n <= base {
        seq![]
    } else {
        let before = levels(e, absolute, base, lead, n - 1);
        if paths::is_name(e[n - 1]) {
            before.push(
                TreeRowView {
                    depth: lead + (n - 1 - base),
                    dir: paths::path_of(absolute, e.take(n - 1)),
                    active: e[n - 1],
                },
            )
        } else {
            before
        }
    }
}

/// The levels from `root` down to the directory that holds `entry`; none where
/// that directory is not at or below `root`.
pub open spec fn rows_of(root: Seq<char>, entry: Seq<char>) -> Seq<TreeRowView> {
    let r = paths::path_parts(root);
    let e = paths::path_parts(entry);
    let absolute = paths::is_absolute(entry);
    if e.len() == 0 {
        seq![]
    } else if r.len() == 0 && !paths::is_absolute(root) {
        levels(e, absolute, 0, if absolute { 1 } else { 0 }, e.len() as int)
    } else if absolute == paths::is_absolute(root) && r.is_prefix_of(e.drop_last()) {
        levels(e, absolute, r.len() as int, 0, e.len() as int)
    } else {
        seq![]
    }
}

/// The values of the levels in `rows`.
pub open spec fn row_views(rows: Seq<TreeRow>) -> Seq<TreeRowView> {
    rows.map_values(|r: TreeRow| r@)
}

/// Whether `r` holds the first parts of `e`, its last part aside.
fn leads_to(r: &Vec<String>, e: &Vec<String>) -> (b: bool)
    requires
        e@.len() > 0,
    ensures
        b == text::views(r@).is_prefix_of(text::views(e@).drop_last()),
{
    let ghost rs = text::views(r@);
    let ghost es = text::views(e@).drop_last();
    if r.len() >= e.len() {
        return false;
    }
    let mut i: usize = 0;
    while i < r.len()
        invariant
            i <= r@.len() < e@.len(),
            rs == text::views(r@),
            es == text::views(e@).drop_last(),
            forall|j: int| 0 <= j < i ==> rs[j] == es[j],
        decreases r@.len() - i,
    {
        assert(rs[i as int] == r@[i as int]@);
        assert(es[i as int] == e@[i as int]@);
        if !same_text(r[i].as_str(), e[i].as_str()) {
            assert(es.subrange(0, rs.len() as int)[i as int] != rs[i as int]);
            return false;
        }
        i = i + 1;
    }
    assert(es.subrange(0, rs.len() as int) =~= rs);
    true
}

/// The levels from `root` down to the directory that holds `entry_path`.
pub fn tree_rows(root: &str, entry_path: &str) -> (rows: Vec<TreeRow>)
    ensures
        row_views(rows@) == rows_of(root@, entry_path@),
{
    let r: Vec<String> = parts_of(root);
    let e: Vec<String> = parts_of(entry_path);
    let ghost es = text::views(e@);
    let absolute: bool = starts_at_root(entry_path);
    let mut rows: Vec<TreeRow> = Vec::new();
    assert(row_views(rows@) =~= seq![]);
    if e.len() == 0 {
        return rows;
    }
    let mut lead: usize = 0;
    if r.len() == 0 && !starts_at_root(root) {
        if absolute {
            lead = 1;
        }
    } else if absolute != starts_at_root(root) || !leads_to(&r, &e) {
        return rows;
    }
    let base: usize = r.len();
    let mut at: String = join_path(absolute, &e, base);
    let mut n: usize = base;
    while n < e.len()
        invariant
            base <= n <= e@.len(),
            lead <= 1,
            lead == 1 ==> base == 0,
            es == text::views(e@),
            at@ == paths::path_of(absolute, es.take(n as int)),
            row_views(rows@) == levels(es, absolute, base as int, lead as int, n as int),
        decreases e@.len() - n,
    {
        assert(es[n as int] == e@[n as int]@);
        let next: String = join_path(absolute, &e, n + 1);
        if part_is_name(e[n].as_str()) {
            let ghost before = row_views(rows@);
            let row = TreeRow { depth: lead + (n - base), dir: at, active: e[n].clone() };
            let ghost value = row@;
            rows.push(row);
            assert(row_views(rows@) =~= before.push(value));
        }
        at = next;
        n = n + 1;
    }
    rows
}

/// The range of `n` names that a line shows, with the active one at `active`.
pub open spec fn window(n: int, active: int) -> (int, int) {
    if n > MAX_SIBLINGS_PER_LEVEL {
        let half = MAX_SIBLINGS_PER_LEVEL as int / 2;
        let start = if active < half {
            0
        } else {
            active - half
        };
        let end = if start + MAX_SIBLINGS_PER_LEVEL < n {
            start + MAX_SIBLINGS_PER_LEVEL
        } else {
            n
        };
        (end - MAX_SIBLINGS_PER_LEVEL, end)
    } else {
        (0, n)
    }
}

/// A name as a line shows it.
pub open spec fn shown_name(name: Seq<char>, active: Seq<char>) -> Seq<char> {
    if name == active {
        "["@ + name + "]"@
    } else {
        name
    }
}

/// The names of `names` as a line shows them.
pub open spec fn shown_names(names: Seq<Seq<char>>, active: Seq<char>) -> Seq<Seq<char>> {
    names.map_values(|n: Seq<char>| shown_name(n, active))
}

/// The line of a level: its names in order with the active one in brackets, no
/// more than fit around it; an active entry that is not listed comes first.
pub open spec fn line_of(names: Seq<Seq<char>>, active: Seq<char>) -> Seq<char> {
    let sorted = sorting::sort_texts(names);
    match sorted.index_of_first(active) {
        Some(i) => {
            let (start, end) = window(sorted.len() as int, i);
            text::join(shown_names(sorted.subrange(start, end), active), "  "@)
        },
        None => "["@ + active + "]  "@ + text::join(shown_names(sorted, active), "  "@),
    }
}

/// A window holds the active name, and no more names than fit.
pub proof fn law_window_shows_the_active_name(n: int, active: int)
    requires
        0 <= active < n,
    ensures
        0 <= window(n, active).0 <= active < window(n, active).1 <= n,
        window(n, active).1 - window(n, active).0 == if n < MAX_SIBLINGS_PER_LEVEL {
            n
        } else {
            MAX_SIBLINGS_PER_LEVEL as int
        },
{
}

/// The names from `start` to `end` as a line shows them, joined.
fn shown_range(sorted: &Vec<String>, active: &str, start: usize, end: usize) -> (line: String)
    requires
        start <= end <= sorted@.len(),
    ensures
        line@ == text::join(
            shown_names(text::views(sorted@).subrange(start as int, end as int), active@),
            "  "@,
        ),
{
    let ghost all = text::views(sorted@);
    let ghost target = shown_names(all.subrange(start as int, end as int), active@);
    let mut shown: Vec<String> = Vec::new();
    let mut i: usize = start;
    assert(text::views(shown@) =~= target.take(0));
    while i < end
        invariant
            start <= i <= end <= sorted@.len(),
            all == text::views(sorted@),
            target == shown_names(all.subrange(start as int, end as int), active@),
            text::views(shown@) == target.take(i - start),
        decreases end - i,
    {
        let ghost before = text::views(shown@);
        assert(all[i as int] == sorted@[i as int]@);
        let name: String = if same_text(sorted[i].as_str(), active) {
            concat3("[", sorted[i].as_str(), "]")
        } else {
            sorted[i].clone()
        };
        let ghost value = name@;
        shown.push(name);
        proof {
            let k = i - start;
            assert(target[k] == shown_name(all[i as int], active@));
            assert(text::views(shown@) =~= before.push(value));
            assert(text::views(shown@) =~= target.take(k + 1));
        }
        i = i + 1;
    }
    assert(target.take(target.len() as int) =~= target);
    join_texts(&shown, "  ")
}

/// The line of a level whose directory holds `names`.
pub fn sibling_line(names: &Vec<String>, active_name: &str) -> (line: String)
    ensures
        line@ == line_of(text::views(names@), active_name@),
{
    let sorted: Vec<String> = sorted_texts(names);
    let ghost all = text::views(sorted@);
    let n: usize = sorted.len();
    let mut i: usize = 0;
    proof {
        all.index_of_first_ensures(active_name@);
    }
    while i < n && !same_text(sorted[i].as_str(), active_name)
        invariant
            i <= n == sorted@.len(),
            all == text::views(sorted@),
            forall|j: int| 0 <= j < i ==> all[j] != active_name@,
        decreases n - i,
    {
        assert(all[i as int] == sorted@[i as int]@);
        i = i + 1;
    }
    if i < n {
        assert(all[i as int] == sorted@[i as int]@);
        assert(all.contains(active_name@));
        assert(all.index_of_first(active_name@) == Some(i as int));
        let mut start: usize = 0;
        let mut end: usize = n;
        if n > MAX_SIBLINGS_PER_LEVEL {
            let half: usize = MAX_SIBLINGS_PER_LEVEL / 2;
            if i >= half {
                start = i - half;
            }
            if MAX_SIBLINGS_PER_LEVEL < n - start {
                end = start + MAX_SIBLINGS_PER_LEVEL;
            }
            start = end - MAX_SIBLINGS_PER_LEVEL;
        }
        shown_range(&sorted, active_name, start, end)
    } else {
        assert(!all.contains(active_name@));
        assert(all.subrange(0, n as int) =~= all);
        let mut line: String = concat3("[", active_name, "]  ");
        let rest: String = shown_range(&sorted, active_name, 0, n);
        line.append(rest.as_str());
        line
    }
}

/// The index of the first level that is shown, of `levels` in all.
pub fn first_visible(levels: usize) -> (i: usize)
    ensures
        i <= levels,
        levels - i == if levels < MAX_VISIBLE_LEVELS {
            levels as int
        } else {
            MAX_VISIBLE_LEVELS as int
        },
{
    if levels > MAX_VISIBLE_LEVELS {
        levels - MAX_VISIBLE_LEVELS
    } else {
        0
    }
}

/// The message of a level: its line, two blanks further in for each level
/// above it.
pub fn level_message(depth: usize, line: &str) -> (message: String)
    ensures
        message@ == text::repeat_char(' ', 2 * depth as nat) + line@,
{
    let mut message: String = String::new();
    push_blanks(&mut message, depth);
    push_blanks(&mut message, depth);
    assert(message@ =~= text::repeat_char(' ', 2 * depth as nat));
    concat(message.as_str(), line)
}

/// The levels below a root are those of the directories that lead to an entry,
/// one after the other: each shows the directory so far and the name in it
/// that leads on.
pub proof fn law_each_directory_on_the_way_has_a_level(
    root: Seq<char>,
    names: Seq<Seq<char>>,
    i: int,
)
    requires
        paths::ends_in_part(root),
        names.len() > 0,
        forall|k: int|
            0 <= k < names.len() ==> paths::is_plain_part(#[trigger] names[k]) && names[k] != ".."@,
        0 <= i < names.len(),
    ensures
        ({
            let rows = rows_of(root, root + "/"@ + text::join(names, "/"@));
            &&& rows.len() == names.len()
            &&& rows[i].depth == i
            &&& rows[i].active == names[i]
            &&& rows[i].dir == paths::path_of(
                paths::is_absolute(root),
                paths::path_parts(root) + names.take(i),
            )
        }),
{
    let entry = root + "/"@ + text::join(names, "/"@);
    paths::law_what_follows_a_root_is_below_it(root, names);
    let r = paths::path_parts(root);
    let e = paths::path_parts(entry);
    assert(r.len() > 0) by {
        text::lemma_split_char_nonempty(root, '/');
    }
    assert(e.skip(r.len() as int) == names);
    assert(e =~= r + names) by {
        assert(e.take(r.len() as int) =~= r);
        assert(e =~= e.take(r.len() as int) + e.skip(r.len() as int));
    }
    assert(e.drop_last().take(r.len() as int) =~= r);
    lemma_levels(r, names, paths::is_absolute(entry), names.len() as int, i);
}

/// The levels behind the first parts.
proof fn lemma_levels(
    r: Seq<Seq<char>>,
    names: Seq<Seq<char>>,
    absolute: bool,
    n: int,
    i: int,
)
    requires
        0 <= i < n <= names.len(),
        forall|k: int|
            0 <= k < names.len() ==> paths::is_plain_part(#[trigger] names[k]) && names[k] != ".."@,
    ensures
        ({
            let rows = levels(r + names, absolute, r.len() as int, 0, r.len() + n);
            &&& rows.len() == n
            &&& rows[i].depth == i
            &&& rows[i].active == names[i]
            &&& rows[i].dir == paths::path_of(absolute, r + names.take(i))
        }),
    decreases n,
{
    let e = r + names;
    let base = r.len() as int;
    assert(e[base + n - 1] == names[n - 1]);
    assert(paths::is_plain_part(names[n - 1]));
    assert(paths::is_name(e[base + n - 1]));
    let before = levels(e, absolute, base, 0, base + n - 1);
    if n > 1 {
        lemma_levels(r, names, absolute, n - 1, if i < n - 1 { i } else { 0 });
    } else {
        assert(before =~= seq![]);
    }
    if i == n - 1 {
        assert(e.take(base + n - 1) =~= r + names.take(i));
    }
}

/// Of more than eight names those around the active one are shown, four before
/// it where there are as many before and behind.
pub proof fn law_the_window_is_around_the_active_name(n: int, active: int)
    requires
        0 <= active < n,
    ensures
        n <= 8 ==> window(n, active) == (0int, n),
        n > 8 && 4 <= active <= n - 4 ==> window(n, active) == (active - 4, active + 4),
        n > 8 && active < 4 ==> window(n, active) == (0int, 8int),
        n > 8 && active > n - 4 ==> window(n, active) == (n - 8, n),
{
}

/// The active name alone stands in brackets.
pub proof fn law_the_active_name_stands_in_brackets(
    names: Seq<Seq<char>>,
    active: Seq<char>,
    i: int,
)
    requires
        0 <= i < names.len(),
    ensures
        shown_names(names, active).len() == names.len(),
        names[i] == active ==> shown_names(names, active)[i] == "["@ + active + "]"@,
        names[i] != active ==> shown_names(names, active)[i] == names[i],
{
}

} // verus!
