//! Tables for a terminal: the widths of their columns and the cut of their
//! cells, measured in terminal columns.

use comfy_table::{presets::UTF8_FULL_CONDENSED, ContentArrangement, Table};
use unicode_width::{UnicodeWidthChar, UnicodeWidthStr};
use vstd::prelude::*;
use vstd::string::StringExecFns;

use crate::text;
use crate::text::{chars_of, slice_text};

verus! {

/// The least width of a column.
pub const MIN_COLUMN_WIDTH: usize = 4;

/// What the frame takes for each column.
pub const TABLE_OVERHEAD_PER_COLUMN: usize = 3;

/// What the frame takes at its end.
pub const TABLE_BORDER_END_WIDTH: usize = 1;

// ---------------------------------------------------------------------------
// Widths
// ---------------------------------------------------------------------------

/// The columns that a text takes on a terminal.
pub uninterp spec fn text_width(s: Seq<char>) -> usize;

/// The columns that a character takes on a terminal; `None` for a control
/// character.
pub uninterp spec fn char_width(c: char) -> Option<usize>;

/// `UnicodeWidthStr::width`: the columns of a text, which depend on it alone.
#[verifier::external_body]
pub(crate) fn width_of_text(s: &str) -> (w: usize)
    ensures
        w == text_width(s@),
{
    UnicodeWidthStr::width(s)
}

/// `UnicodeWidthChar::width`: the columns of a character, which depend on it
/// alone.
#[verifier::external_body]
pub(crate) fn width_of_char(c: char) -> (w: Option<usize>)
    ensures
        w == char_width(c),
{
    UnicodeWidthChar::width(c)
}

/// The columns of a character; none for a control character.
pub open spec fn columns_of(c: char) -> nat {
    match char_width(c) {
        Some(w) => w as nat,
        None => 0,
    }
}

/// The columns of the characters of `s`, one by one.
pub open spec fn columns(s: Seq<char>) -> nat
    decreases s.len(),
{
    if s.len() == 0 {
        0
    } else {
        columns(s.drop_last()) + columns_of(s.last())
    }
}

/// The columns of a character; none for a control character.
fn columns_of_char(c: char) -> (w: usize)
    ensures
        w == columns_of(c),
{
    match width_of_char(c) {
        Some(w) => w,
        None => 0,
    }
}

/// How many of the first characters of `s` fit into `room` columns.
pub open spec fn fitting(s: Seq<char>, room: int) -> int
    decreases s.len(),
{
    if s.len() == 0 || columns_of(s[0]) > room {
        0
    } else {
        1 + fitting(s.drop_first(), room - columns_of(s[0]))
    }
}

/// How many of the last characters of `s` fit into `room` columns.
pub open spec fn fitting_end(s: Seq<char>, room: int) -> int
    decreases s.len(),
{
    if s.len() == 0 || columns_of(s.last()) > room {
        0
    } else {
        1 + fitting_end(s.drop_last(), room - columns_of(s.last()))
    }
}

/// The columns that are left for a text beside an ellipsis.
pub open spec fn room_beside_ellipsis(max_width: int) -> int {
    if max_width >= text_width("…"@) {
        max_width - text_width("…"@)
    } else {
        0
    }
}

/// `s` cut at its end to `max_width` columns.
pub open spec fn truncated(s: Seq<char>, max_width: int) -> Seq<char> {
    if text_width(s) <= max_width {
        s
    } else if max_width <= 1 {
        "…"@
    } else {
        s.take(fitting(s, room_beside_ellipsis(max_width))) + "…"@
    }
}

/// `s` cut at its start to `max_width` columns.
pub open spec fn truncated_left(s: Seq<char>, max_width: int) -> Seq<char> {
    if text_width(s) <= max_width {
        s
    } else if max_width <= 1 {
        "…"@
    } else {
        "…"@ + s.skip(s.len() - fitting_end(s, room_beside_ellipsis(max_width)))
    }
}

/// The columns of two texts one after the other.
proof fn lemma_columns_add(a: Seq<char>, b: Seq<char>)
    ensures
        columns(a + b) == columns(a) + columns(b),
    decreases b.len(),
{
    if b.len() == 0 {
        assert(a + b =~= a);
    } else {
        lemma_columns_add(a, b.drop_last());
        assert((a + b).drop_last() =~= a + b.drop_last());
    }
}

/// The columns of one character.
proof fn lemma_columns_one(c: char)
    ensures
        columns(seq![c]) == columns_of(c),
{
    assert(seq![c].drop_last() =~= seq![]);
    assert(columns(seq![]) == 0);
}

/// The characters that are kept of the start of a text fit, and one more would
/// not.
pub proof fn law_cut_fills_the_room(s: Seq<char>, room: int)
    requires
        room >= 0,
    ensures
        0 <= fitting(s, room) <= s.len(),
        columns(s.take(fitting(s, room))) <= room,
        fitting(s, room) < s.len() ==> columns(s.take(fitting(s, room) + 1)) > room,
    decreases s.len(),
{
    let n = fitting(s, room);
    if s.len() == 0 {
        assert(s.take(0) =~= seq![]);
    } else if columns_of(s[0]) > room {
        assert(s.take(0) =~= seq![]);
        assert(s.take(1) =~= seq![s[0]]);
        lemma_columns_one(s[0]);
    } else {
        let rest = s.drop_first();
        let left = room - columns_of(s[0]);
        law_cut_fills_the_room(rest, left);
        let m = fitting(rest, left);
        lemma_columns_one(s[0]);
        lemma_columns_add(seq![s[0]], rest.take(m));
        assert(s.take(n) =~= seq![s[0]] + rest.take(m));
        if n < s.len() {
            lemma_columns_add(seq![s[0]], rest.take(m + 1));
            assert(s.take(n + 1) =~= seq![s[0]] + rest.take(m + 1));
        }
    }
}

/// The characters that are kept of the end of a text fit, and one more would
/// not.
pub proof fn law_left_cut_fills_the_room(s: Seq<char>, room: int)
    requires
        room >= 0,
    ensures
        0 <= fitting_end(s, room) <= s.len(),
        columns(s.skip(s.len() - fitting_end(s, room))) <= room,
        fitting_end(s, room) < s.len() ==> columns(s.skip(s.len() - fitting_end(s, room) - 1))
            > room,
    decreases s.len(),
{
    let n = fitting_end(s, room);
    let len = s.len() as int;
    if s.len() == 0 {
        assert(s.skip(0) =~= seq![]);
    } else if columns_of(s.last()) > room {
        assert(s.skip(len) =~= seq![]);
        assert(s.skip(len - 1) =~= seq![s.last()]);
        lemma_columns_one(s.last());
    } else {
        let rest = s.drop_last();
        let left = room - columns_of(s.last());
        law_left_cut_fills_the_room(rest, left);
        let m = fitting_end(rest, left);
        assert(s.skip(len - n).drop_last() =~= rest.skip(rest.len() - m));
        assert(s.skip(len - n).last() == s.last());
        if n < len {
            assert(s.skip(len - n - 1).drop_last() =~= rest.skip(rest.len() - m - 1));
            assert(s.skip(len - n - 1).last() == s.last());
        }
    }
}

/// How many of the first characters of `v` fit into `room` columns.
fn count_fitting(v: &Vec<char>, room: usize) -> (n: usize)
    ensures
        n <= v@.len(),
        n == fitting(v@, room as int),
{
    let mut left: usize = room;
    let mut i: usize = 0;
    assert(v@.skip(0) =~= v@);
    while i < v.len()
        invariant
            i <= v@.len(),
            fitting(v@, room as int) == i + fitting(v@.skip(i as int), left as int),
        decreases v@.len() - i,
    {
        let w: usize = columns_of_char(v[i]);
        assert(v@.skip(i as int)[0] == v@[i as int]);
        assert(v@.skip(i as int).drop_first() =~= v@.skip(i + 1));
        if w > left {
            return i;
        }
        left = left - w;
        i = i + 1;
    }
    i
}

/// How many of the last characters of `v` fit into `room` columns.
fn count_fitting_end(v: &Vec<char>, room: usize) -> (n: usize)
    ensures
        n <= v@.len(),
        n == fitting_end(v@, room as int),
{
    let mut left: usize = room;
    let mut n: usize = 0;
    let len: usize = v.len();
    assert(v@.take(len as int) =~= v@);
    while n < len
        invariant
            n <= len == v@.len(),
            fitting_end(v@, room as int) == n + fitting_end(v@.take(len - n), left as int),
        decreases len - n,
    {
        let c: char = v[len - n - 1];
        let w: usize = columns_of_char(c);
        assert(v@.take(len - n).last() == c);
        assert(v@.take(len - n).drop_last() =~= v@.take(len - n - 1));
        if w > left {
            return n;
        }
        left = left - w;
        n = n + 1;
    }
    n
}

/// The columns that are left for a text beside an ellipsis.
fn room_for_text(max_width: usize) -> (room: usize)
    ensures
        room == room_beside_ellipsis(max_width as int),
{
    let ellipsis: usize = width_of_text("…");
    if max_width >= ellipsis {
        max_width - ellipsis
    } else {
        0
    }
}

/// `value` cut at its end to `max_width` columns, with an ellipsis in place of
/// what is missing.
pub fn truncate_with_ellipsis(value: &str, max_width: usize) -> (r: String)
    ensures
        r@ == truncated(value@, max_width as int),
{
    if width_of_text(value) <= max_width {
        return value.to_owned();
    }
    if max_width <= 1 {
        return "…".to_owned();
    }
    let v: Vec<char> = chars_of(value);
    let n: usize = count_fitting(&v, room_for_text(max_width));
    let mut r: String = slice_text(&v, 0, n);
    assert(v@.subrange(0, n as int) =~= v@.take(n as int));
    r.append("…");
    r
}

/// `value` cut at its start to `max_width` columns, with an ellipsis in place
/// of what is missing.
pub fn truncate_left_with_ellipsis(value: &str, max_width: usize) -> (r: String)
    ensures
        r@ == truncated_left(value@, max_width as int),
{
    if width_of_text(value) <= max_width {
        return value.to_owned();
    }
    if max_width <= 1 {
        return "…".to_owned();
    }
    let v: Vec<char> = chars_of(value);
    let n: usize = count_fitting_end(&v, room_for_text(max_width));
    let kept: String = slice_text(&v, v.len() - n, v.len());
    assert(v@.subrange(v@.len() - n, v@.len() as int) =~= v@.skip(v@.len() - n));
    let mut r: String = "…".to_owned();
    r.append(kept.as_str());
    r
}

// ---------------------------------------------------------------------------
// Column widths
// ---------------------------------------------------------------------------

/// The texts of the cells of `rows`.
pub open spec fn cell_views(rows: Seq<Vec<String>>) -> Seq<Seq<Seq<char>>> {
    rows.map_values(|r: Vec<String>| text::views(r@))
}

/// The greater of two numbers.
pub open spec fn larger(a: int, b: int) -> int {
    if a >= b {
        a
    } else {
        b
    }
}

/// The width of the widest cell in column `i`; rows may be shorter.
pub open spec fn widest_cell(rows: Seq<Seq<Seq<char>>>, i: int) -> int
    decreases rows.len(),
{
    if rows.len() == 0 {
        0
    } else {
        let rest = widest_cell(rows.drop_last(), i);
        if i < rows.last().len() {
            larger(rest, text_width(rows.last()[i]) as int)
        } else {
            rest
        }
    }
}

/// The width that column `i` would take.
pub open spec fn natural_width(
    headers: Seq<Seq<char>>,
    rows: Seq<Seq<Seq<char>>>,
    i: int,
) -> int {
    larger(
        larger(text_width(headers[i]) as int, widest_cell(rows, i)),
        MIN_COLUMN_WIDTH as int,
    )
}

/// The widths that the columns would take.
pub open spec fn natural_widths(
    headers: Seq<Seq<char>>,
    rows: Seq<Seq<Seq<char>>>,
) -> Seq<int> {
    Seq::new(headers.len(), |i: int| natural_width(headers, rows, i))
}

/// The sum of the widths.
pub open spec fn total(w: Seq<int>) -> int
    decreases w.len(),
{
    if w.len() == 0 {
        0
    } else {
        total(w.drop_last()) + w.last()
    }
}

/// The last of the widest columns.
pub open spec fn last_widest(w: Seq<int>) -> int
    decreases w.len(),
{
    if w.len() <= 1 {
        0
    } else {
        let k = last_widest(w.drop_last());
        if w.last() >= w[k] {
            w.len() - 1
        } else {
            k
        }
    }
}

/// The widths after columns were taken from, one at a time: always from the
/// last of the widest columns, until all fit into `budget` or the widest has
/// the least width.
pub open spec fn shrink(w: Seq<int>, budget: int) -> Seq<int>
    decreases total(w) - budget,
    via shrink_decreases
{
    let k = last_widest(w);
    if w.len() == 0 || total(w) <= budget || w[k] <= MIN_COLUMN_WIDTH {
        w
    } else {
        shrink(w.update(k, w[k] - 1), budget)
    }
}

#[via_fn]
proof fn shrink_decreases(w: Seq<int>, budget: int) {
    if w.len() > 0 {
        lemma_last_widest(w);
        let k = last_widest(w);
        lemma_total_update(w, k, w[k] - 1);
    }
}

/// Replacing one width changes the sum by the difference.
proof fn lemma_total_update(w: Seq<int>, k: int, x: int)
    requires
        0 <= k < w.len(),
    ensures
        total(w.update(k, x)) == total(w) - w[k] + x,
    decreases w.len(),
{
    if k == w.len() - 1 {
        assert(w.update(k, x).drop_last() =~= w.drop_last());
    } else {
        lemma_total_update(w.drop_last(), k, x);
        assert(w.update(k, x).drop_last() =~= w.drop_last().update(k, x));
    }
}

/// The last of the widest columns is one, and those behind it are narrower.
proof fn lemma_last_widest(w: Seq<int>)
    requires
        w.len() > 0,
    ensures
        0 <= last_widest(w) < w.len(),
        forall|j: int| 0 <= j < w.len() ==> #[trigger] w[j] <= w[last_widest(w)],
        forall|j: int| last_widest(w) < j < w.len() ==> #[trigger] w[j] < w[last_widest(w)],
    decreases w.len(),
{
    if w.len() > 1 {
        let rest = w.drop_last();
        lemma_last_widest(rest);
        assert forall|j: int| 0 <= j < w.len() implies #[trigger] w[j] <= w[last_widest(w)] by {
            if j < rest.len() {
                assert(rest[j] == w[j]);
            }
        }
        assert forall|j: int| last_widest(w) < j < w.len() implies #[trigger] w[j] < w[last_widest(w)] by {
            if j < rest.len() {
                assert(rest[j] == w[j]);
            }
        }
    }
}

/// The sum of widths that are all at most `m`.
proof fn lemma_total_at_most(w: Seq<int>, m: int)
    requires
        forall|j: int| 0 <= j < w.len() ==> w[j] <= m,
    ensures
        total(w) <= m * w.len(),
    decreases w.len(),
{
    if w.len() > 0 {
        lemma_total_at_most(w.drop_last(), m);
        assert(m * w.len() == m * (w.len() - 1) + m) by (nonlinear_arith);
    }
}

/// What shrinking keeps, with `start` the widths that it began with.
proof fn lemma_shrink(start: Seq<int>, w: Seq<int>, budget: int)
    requires
        start.len() == w.len(),
        budget >= MIN_COLUMN_WIDTH * w.len(),
        forall|j: int| 0 <= j < w.len() ==> MIN_COLUMN_WIDTH <= #[trigger] w[j] <= start[j],
        forall|i: int, j: int|
            0 <= i < w.len() && 0 <= j < w.len() && #[trigger] w[i] < start[i] ==> #[trigger] w[j]
                <= w[i] + 1,
        total(start) <= budget ==> w == start,
        total(start) > budget ==> total(w) >= budget,
    ensures
        shrink(w, budget).len() == start.len(),
        forall|j: int|
            0 <= j < start.len() ==> MIN_COLUMN_WIDTH <= #[trigger] shrink(w, budget)[j]
                <= start[j],
        forall|i: int, j: int|
            0 <= i < start.len() && 0 <= j < start.len() && #[trigger] shrink(w, budget)[i]
                < start[i] ==> #[trigger] shrink(w, budget)[j] <= shrink(w, budget)[i] + 1,
        total(start) <= budget ==> shrink(w, budget) == start,
        total(start) > budget ==> total(shrink(w, budget)) == budget,
    decreases total(w) - budget,
{
    if w.len() > 0 {
        lemma_last_widest(w);
        let k = last_widest(w);
        lemma_total_at_most(w, w[k]);
        if total(w) > budget {
            if w[k] <= MIN_COLUMN_WIDTH {
                assert(w[k] * w.len() <= MIN_COLUMN_WIDTH * w.len()) by (nonlinear_arith)
                    requires
                        w[k] <= MIN_COLUMN_WIDTH,
                ;
            }
            let next = w.update(k, w[k] - 1);
            lemma_total_update(w, k, w[k] - 1);
            lemma_shrink(start, next, budget);
        }
    } else {
        assert(total(w) == 0);
        assert(w =~= start);
    }
}

/// The columns that are left beside the frame, but never less than the least
/// widths take.
pub open spec fn column_budget(n: int, total_width: int) -> int {
    larger(
        total_width - (TABLE_OVERHEAD_PER_COLUMN * n + TABLE_BORDER_END_WIDTH),
        n * MIN_COLUMN_WIDTH,
    )
}

/// The widths of the columns of a table that is `total_width` wide.
pub open spec fn fitted_widths(
    headers: Seq<Seq<char>>,
    rows: Seq<Seq<Seq<char>>>,
    total_width: int,
) -> Seq<int> {
    shrink(natural_widths(headers, rows), column_budget(headers.len() as int, total_width))
}

/// The widths of a table: no column is narrower than the least width or wider
/// than its content. Where the content fits it is kept whole; where it does
/// not, the columns fill what is left beside the frame exactly, and no column
/// is cut while another is left more than one wider.
pub proof fn law_columns_fill_the_table(
    headers: Seq<Seq<char>>,
    rows: Seq<Seq<Seq<char>>>,
    total_width: int,
)
    ensures
        ({
            let natural = natural_widths(headers, rows);
            let fitted = fitted_widths(headers, rows, total_width);
            let budget = column_budget(headers.len() as int, total_width);
            &&& fitted.len() == headers.len()
            &&& forall|j: int|
                0 <= j < fitted.len() ==> MIN_COLUMN_WIDTH <= #[trigger] fitted[j] <= natural[j]
            &&& total(natural) <= budget ==> fitted == natural
            &&& total(natural) > budget ==> total(fitted) == budget
            &&& forall|i: int, j: int|
                0 <= i < fitted.len() && 0 <= j < fitted.len() && #[trigger] fitted[i]
                    < natural[i] ==> #[trigger] fitted[j] <= fitted[i] + 1
        }),
{
    let natural = natural_widths(headers, rows);
    lemma_shrink(natural, natural, column_budget(headers.len() as int, total_width));
}

/// The widths as numbers.
pub open spec fn ints(w: Seq<usize>) -> Seq<int> {
    w.map_values(|x: usize| x as int)
}

/// The sum of the widths.
fn sum_of(w: &Vec<usize>) -> (sum: u128)
    ensures
        sum == total(ints(w@)),
{
    let ghost all = ints(w@);
    let mut sum: u128 = 0;
    let mut i: usize = 0;
    assert(all.take(0) =~= seq![]);
    while i < w.len()
        invariant
            i <= w@.len(),
            all == ints(w@),
            sum == total(all.take(i as int)),
            sum <= i * 0xffff_ffff_ffff_ffff,
        decreases w@.len() - i,
    {
        proof {
            assert(all.take(i + 1).drop_last() =~= all.take(i as int));
            assert(all.take(i + 1).last() == w@[i as int]);
            assert(i * 0xffff_ffff_ffff_ffff + 0xffff_ffff_ffff_ffff == (i + 1)
                * 0xffff_ffff_ffff_ffff) by (nonlinear_arith);
            assert(i * 0xffff_ffff_ffff_ffff <= 0xffff_ffff_ffff_ffff * 0xffff_ffff_ffff_ffff)
                by (nonlinear_arith)
                requires
                    0 <= i <= 0xffff_ffff_ffff_ffff,
            ;
        }
        sum = sum + w[i] as u128;
        i = i + 1;
    }
    assert(all.take(all.len() as int) =~= all);
    sum
}

/// The last of the widest columns.
fn find_last_widest(w: &Vec<usize>) -> (k: usize)
    requires
        w@.len() > 0,
    ensures
        k < w@.len(),
        k == last_widest(ints(w@)),
{
    let ghost all = ints(w@);
    let mut k: usize = 0;
    let mut i: usize = 1;
    assert(all.take(1).len() == 1);
    while i < w.len()
        invariant
            1 <= i <= w@.len(),
            k < i,
            all == ints(w@),
            k == last_widest(all.take(i as int)),
        decreases w@.len() - i,
    {
        proof {
            let next = all.take(i + 1);
            assert(next.drop_last() =~= all.take(i as int));
            assert(next.last() == w@[i as int]);
            assert(next[k as int] == w@[k as int]);
        }
        if w[i] >= w[k] {
            k = i;
        }
        i = i + 1;
    }
    assert(all.take(all.len() as int) =~= all);
    k
}

/// The width that column `i` would take.
fn natural_width_of(headers: &Vec<String>, rows: &Vec<Vec<String>>, i: usize) -> (w: usize)
    requires
        i < headers@.len(),
    ensures
        w == natural_width(text::views(headers@), cell_views(rows@), i as int),
{
    let ghost all = cell_views(rows@);
    let mut widest: usize = 0;
    let mut r: usize = 0;
    assert(all.take(0) =~= seq![]);
    while r < rows.len()
        invariant
            r <= rows@.len(),
            all == cell_views(rows@),
            widest == widest_cell(all.take(r as int), i as int),
        decreases rows@.len() - r,
    {
        proof {
            let next = all.take(r + 1);
            assert(next.drop_last() =~= all.take(r as int));
            assert(next.last() == text::views(rows@[r as int]@));
        }
        let row: &Vec<String> = &rows[r];
        if i < row.len() {
            assert(text::views(row@)[i as int] == row@[i as int]@);
            let w: usize = width_of_text(row[i].as_str());
            if w > widest {
                widest = w;
            }
        }
        r = r + 1;
    }
    assert(all.take(all.len() as int) =~= all);
    let mut w: usize = width_of_text(headers[i].as_str());
    if widest > w {
        w = widest;
    }
    if MIN_COLUMN_WIDTH > w {
        w = MIN_COLUMN_WIDTH;
    }
    w
}

/// The widths of the columns of a table that is `total_width` wide.
pub fn fit_column_widths(
    headers: &Vec<String>,
    rows: &Vec<Vec<String>>,
    total_width: usize,
) -> (widths: Vec<usize>)
    ensures
        ints(widths@) == fitted_widths(
            text::views(headers@),
            cell_views(rows@),
            total_width as int,
        ),
        widths@.len() == headers@.len(),
{
    let ghost hs = text::views(headers@);
    let ghost rs = cell_views(rows@);
    let ghost natural = natural_widths(hs, rs);
    let ghost budget_int = column_budget(hs.len() as int, total_width as int);
    let mut widths: Vec<usize> = Vec::new();
    let mut i: usize = 0;
    while i < headers.len()
        invariant
            i <= headers@.len(),
            widths@.len() == i,
            hs == text::views(headers@),
            rs == cell_views(rows@),
            natural == natural_widths(hs, rs),
            forall|j: int| 0 <= j < i ==> widths@[j] == #[trigger] natural[j],
        decreases headers@.len() - i,
    {
        widths.push(natural_width_of(headers, rows, i));
        i = i + 1;
    }
    assert(ints(widths@) =~= natural);
    let n: u128 = headers.len() as u128;
    let overhead: u128 = TABLE_OVERHEAD_PER_COLUMN as u128 * n + TABLE_BORDER_END_WIDTH as u128;
    let least: u128 = n * MIN_COLUMN_WIDTH as u128;
    let mut budget: u128 = least;
    if total_width as u128 >= overhead && total_width as u128 - overhead > least {
        budget = total_width as u128 - overhead;
    }
    assert(budget == budget_int);
    assert(shrink(ints(widths@), budget as int) == shrink(natural, budget as int));
    let mut sum: u128 = sum_of(&widths);
    while widths.len() > 0 && sum > budget
        invariant_except_break
            sum == total(ints(widths@)),
        invariant
            shrink(ints(widths@), budget as int) == shrink(natural, budget as int),
            widths@.len() == headers@.len(),
        ensures
            ints(widths@) == shrink(natural, budget as int),
        decreases sum,
    {
        let k: usize = find_last_widest(&widths);
        let w: usize = widths[k];
        let ghost before = ints(widths@);
        assert(before[k as int] == w);
        if w <= MIN_COLUMN_WIDTH {
            break;
        }
        widths.set(k, w - 1);
        proof {
            assert(ints(widths@) =~= before.update(k as int, w - 1));
            lemma_total_update(before, k as int, w - 1);
        }
        sum = sum - 1;
    }
    widths
}

// ---------------------------------------------------------------------------
// Tables
// ---------------------------------------------------------------------------

/// The width of column `i`; columns without one have the least width.
pub open spec fn width_at(widths: Seq<int>, i: int) -> int {
    if i < widths.len() {
        widths[i]
    } else {
        MIN_COLUMN_WIDTH as int
    }
}

/// Whether column `i` is cut at its start.
pub open spec fn is_cut_left(left: Seq<bool>, i: int) -> bool {
    i < left.len() && left[i]
}

/// The cells of a row as the table shows them.
pub open spec fn cut_row(
    row: Seq<Seq<char>>,
    widths: Seq<int>,
    left: Seq<bool>,
) -> Seq<Seq<char>> {
    Seq::new(
        row.len(),
        |i: int|
            if is_cut_left(left, i) {
                truncated_left(row[i], width_at(widths, i))
            } else {
                truncated(row[i], width_at(widths, i))
            },
    )
}

/// The cells of all rows as the table shows them.
pub open spec fn cut_rows(
    rows: Seq<Seq<Seq<char>>>,
    widths: Seq<int>,
    left: Seq<bool>,
) -> Seq<Seq<Seq<char>>> {
    rows.map_values(|r: Seq<Seq<char>>| cut_row(r, widths, left))
}

/// The cells of a row as the table shows them.
fn cut_row_of(row: &Vec<String>, widths: &Vec<usize>, left: &Vec<bool>) -> (cells: Vec<String>)
    ensures
        text::views(cells@) == cut_row(text::views(row@), ints(widths@), left@),
{
    let ghost target = cut_row(text::views(row@), ints(widths@), left@);
    let mut cells: Vec<String> = Vec::new();
    let mut i: usize = 0;
    while i < row.len()
        invariant
            i <= row@.len(),
            cells@.len() == i,
            target == cut_row(text::views(row@), ints(widths@), left@),
            forall|j: int| 0 <= j < i ==> cells@[j]@ == #[trigger] target[j],
        decreases row@.len() - i,
    {
        let width: usize = if i < widths.len() {
            widths[i]
        } else {
            MIN_COLUMN_WIDTH
        };
        assert(width == width_at(ints(widths@), i as int));
        assert(text::views(row@)[i as int] == row@[i as int]@);
        let cell: String = if i < left.len() && left[i] {
            truncate_left_with_ellipsis(row[i].as_str(), width)
        } else {
            truncate_with_ellipsis(row[i].as_str(), width)
        };
        assert(cell@ == target[i as int]);
        cells.push(cell);
        i = i + 1;
    }
    assert(text::views(cells@) =~= target);
    cells
}

/// The header and the cells of a table that is `width` wide, each cut to the
/// width of its column; `truncate_left` names the columns that are cut at
/// their start.
pub fn table_cells(
    headers: &Vec<String>,
    rows: &Vec<Vec<String>>,
    width: usize,
    truncate_left: &Vec<bool>,
) -> (cells: (Vec<String>, Vec<Vec<String>>))
    ensures
        ({
            let hs = text::views(headers@);
            let rs = cell_views(rows@);
            let widths = fitted_widths(hs, rs, width as int);
            &&& text::views(cells.0@) == cut_row(hs, widths, seq![])
            &&& cell_views(cells.1@) == cut_rows(rs, widths, truncate_left@)
        }),
{
    let ghost rs = cell_views(rows@);
    let widths: Vec<usize> = fit_column_widths(headers, rows, width);
    let none: Vec<bool> = Vec::new();
    assert(none@ =~= seq![]);
    let head: Vec<String> = cut_row_of(headers, &widths, &none);
    let ghost target = cut_rows(rs, ints(widths@), truncate_left@);
    let mut body: Vec<Vec<String>> = Vec::new();
    let mut i: usize = 0;
    while i < rows.len()
        invariant
            i <= rows@.len(),
            body@.len() == i,
            rs == cell_views(rows@),
            target == cut_rows(rs, ints(widths@), truncate_left@),
            forall|j: int| 0 <= j < i ==> text::views(body@[j]@) == #[trigger] target[j],
        decreases rows@.len() - i,
    {
        assert(rs[i as int] == text::views(rows@[i as int]@));
        body.push(cut_row_of(&rows[i], &widths, truncate_left));
        i = i + 1;
    }
    assert(cell_views(body@) =~= target);
    (head, body)
}

/// The table that `comfy_table` draws of a header and rows for an output that
/// is no terminal.
pub uninterp spec fn table_text(headers: Seq<Seq<char>>, rows: Seq<Seq<Seq<char>>>) -> Seq<char>;

/// `Table::to_string` of `comfy_table`, after `load_preset`,
/// `set_content_arrangement`, `force_no_tty`, `set_header` and `add_rows`. What
/// is drawn depends on the header and the rows alone: without a terminal no
/// width is looked up.
#[verifier::external_body]
pub(crate) fn draw_table(headers: Vec<String>, rows: Vec<Vec<String>>) -> (drawn: String)
    ensures
        drawn@ == table_text(text::views(headers@), cell_views(rows@)),
{
    let mut table = Table::new();
    table.load_preset(UTF8_FULL_CONDENSED);
    table.set_content_arrangement(ContentArrangement::Dynamic);
    table.force_no_tty().set_header(headers).add_rows(rows);
    table.to_string()
}

/// The table of `rows` under `headers`, `width` wide, as plain text.
pub fn render_table_with_width(
    headers: &Vec<String>,
    rows: &Vec<Vec<String>>,
    width: usize,
    truncate_left: &Vec<bool>,
) -> (drawn: String)
    ensures
        ({
            let hs = text::views(headers@);
            let rs = cell_views(rows@);
            let widths = fitted_widths(hs, rs, width as int);
            drawn@ == table_text(
                cut_row(hs, widths, seq![]),
                cut_rows(rs, widths, truncate_left@),
            )
        }),
{
    let cells = table_cells(headers, rows, width, truncate_left);
    draw_table(cells.0, cells.1)
}

/// A text that is no wider than its room is kept. One that is wider ends in an
/// ellipsis, behind as much of its start as has room beside that; where there is
/// room for one column at most, the ellipsis stands alone.
pub proof fn law_long_texts_keep_their_start(s: Seq<char>, max_width: int)
    ensures
        text_width(s) <= max_width ==> truncated(s, max_width) == s,
        text_width(s) > max_width && max_width <= 1 ==> truncated(s, max_width) == "…"@,
        text_width(s) > max_width && max_width > 1 && max_width >= text_width("…"@) ==> exists|
            n: int,
        |
            {
                &&& 0 <= n <= s.len()
                &&& truncated(s, max_width) == #[trigger] s.take(n) + "…"@
                &&& columns(s.take(n)) + text_width("…"@) <= max_width
                &&& n < s.len() ==> columns(s.take(n + 1)) + text_width("…"@) > max_width
            },
{
    let room = max_width - text_width("…"@);
    if text_width(s) > max_width && max_width > 1 && room >= 0 {
        law_cut_fills_the_room(s, room);
        let n = fitting(s, room);
        assert(truncated(s, max_width) == s.take(n) + "…"@);
    }
}

/// A text that is cut at its start keeps as much of its end as has room beside
/// the ellipsis.
pub proof fn law_paths_keep_their_end(s: Seq<char>, max_width: int)
    ensures
        text_width(s) <= max_width ==> truncated_left(s, max_width) == s,
        text_width(s) > max_width && max_width <= 1 ==> truncated_left(s, max_width) == "…"@,
        text_width(s) > max_width && max_width > 1 && max_width >= text_width("…"@) ==> exists|
            n: int,
        |
            {
                &&& 0 <= n <= s.len()
                &&& truncated_left(s, max_width) == "…"@ + #[trigger] s.skip(n)
                &&& columns(s.skip(n)) + text_width("…"@) <= max_width
                &&& 0 < n ==> columns(s.skip(n - 1)) + text_width("…"@) > max_width
            },
{
    let room = max_width - text_width("…"@);
    if text_width(s) > max_width && max_width > 1 && room >= 0 {
        law_left_cut_fills_the_room(s, room);
        let n = s.len() - fitting_end(s, room);
        assert(truncated_left(s, max_width) == "…"@ + s.skip(n));
    }
}

/// A column is as wide as its header and its cells ask for, and four columns
/// at least: no cell is wider, and one of these is as wide.
pub proof fn law_columns_hold_their_cells(
    headers: Seq<Seq<char>>,
    rows: Seq<Seq<Seq<char>>>,
    i: int,
)
    requires
        0 <= i < headers.len(),
    ensures
        natural_widths(headers, rows).len() == headers.len(),
        ({
            let width = natural_widths(headers, rows)[i];
            &&& width >= 4
            &&& width >= text_width(headers[i])
            &&& forall|r: int|
                0 <= r < rows.len() && i < rows[r].len() ==> width >= #[trigger] text_width(
                    rows[r][i],
                )
            &&& width == 4 || width == text_width(headers[i]) || exists|r: int|
                0 <= r < rows.len() && i < rows[r].len() && width == #[trigger] text_width(
                    rows[r][i],
                )
        }),
{
    lemma_widest_cell(rows, i);
}

/// The widest cell of a column is one, and no other is wider.
proof fn lemma_widest_cell(rows: Seq<Seq<Seq<char>>>, i: int)
    requires
        i >= 0,
    ensures
        widest_cell(rows, i) >= 0,
        forall|r: int|
            0 <= r < rows.len() && i < rows[r].len() ==> widest_cell(rows, i)
                >= #[trigger] text_width(rows[r][i]),
        widest_cell(rows, i) == 0 || exists|r: int|
            0 <= r < rows.len() && i < rows[r].len() && widest_cell(rows, i)
                == #[trigger] text_width(rows[r][i]),
    decreases rows.len(),
{
    if rows.len() > 0 {
        let rest = rows.drop_last();
        lemma_widest_cell(rest, i);
        assert forall|r: int| 0 <= r < rows.len() && i < rows[r].len() implies widest_cell(rows, i)
            >= #[trigger] text_width(rows[r][i]) by {
            if r < rest.len() {
                assert(rest[r] == rows[r]);
                assert(widest_cell(rest, i) >= text_width(rest[r][i]));
            }
        }
        if widest_cell(rows, i) != 0 {
            if widest_cell(rows, i) == widest_cell(rest, i) {
                let r = choose|r: int|
                    0 <= r < rest.len() && i < rest[r].len() && widest_cell(rest, i)
                        == #[trigger] text_width(rest[r][i]);
                assert(rest[r] == rows[r]);
                assert(widest_cell(rows, i) == text_width(rows[r][i]));
            } else {
                let r = rows.len() - 1;
                assert(widest_cell(rows, i) == text_width(rows[r][i]));
            }
        }
    }
}

/// Beside its content a table has three columns for each of its own columns and
/// one more; its content has what is left, and four columns each at least. Of
/// two columns that are cut, the one to the left is no narrower.
pub proof fn law_the_frame_takes_its_part(
    headers: Seq<Seq<char>>,
    rows: Seq<Seq<Seq<char>>>,
    total_width: int,
)
    requires
        total(natural_widths(headers, rows)) + 3 * headers.len() + 1 > total_width,
        total_width >= 7 * headers.len() + 1,
    ensures
        ({
            let natural = natural_widths(headers, rows);
            let fitted = fitted_widths(headers, rows, total_width);
            &&& total(fitted) + 3 * headers.len() + 1 == total_width
            &&& forall|i: int, j: int|
                0 <= i < j < fitted.len() && #[trigger] fitted[i] < natural[i]
                    && #[trigger] fitted[j] < natural[j] ==> fitted[i] >= fitted[j]
        }),
{
    law_columns_fill_the_table(headers, rows, total_width);
    let natural = natural_widths(headers, rows);
    lemma_shrink_order(natural, natural, column_budget(headers.len() as int, total_width));
}

/// Shrinking takes from the right first.
proof fn lemma_shrink_order(start: Seq<int>, w: Seq<int>, budget: int)
    requires
        start.len() == w.len(),
        forall|j: int| 0 <= j < w.len() ==> #[trigger] w[j] <= start[j],
        forall|i: int, j: int|
            0 <= i < w.len() && 0 <= j < w.len() && #[trigger] w[i] < start[i] ==> #[trigger] w[j]
                <= w[i] + 1,
        forall|i: int, j: int|
            0 <= i < j < w.len() && #[trigger] w[i] < start[i] && #[trigger] w[j] < start[j]
                ==> w[i] >= w[j],
    ensures
        shrink(w, budget).len() == start.len(),
        forall|i: int, j: int|
            0 <= i < j < start.len() && #[trigger] shrink(w, budget)[i] < start[i]
                && #[trigger] shrink(w, budget)[j] < start[j] ==> shrink(w, budget)[i] >= shrink(
                w,
                budget,
            )[j],
    decreases total(w) - budget,
{
    if w.len() > 0 {
        lemma_last_widest(w);
        let k = last_widest(w);
        if total(w) > budget && w[k] > MIN_COLUMN_WIDTH {
            let next = w.update(k, w[k] - 1);
            lemma_total_update(w, k, w[k] - 1);
            lemma_shrink_order(start, next, budget);
        }
    }
}

/// Every cell is cut to the width of its column: at its start where the column
/// is one of those, and else at its end.
pub proof fn law_cells_are_cut_to_their_column(
    rows: Seq<Seq<Seq<char>>>,
    widths: Seq<int>,
    left: Seq<bool>,
    r: int,
    i: int,
)
    requires
        0 <= r < rows.len(),
        0 <= i < rows[r].len(),
        i < widths.len(),
        i < left.len(),
    ensures
        cut_rows(rows, widths, left).len() == rows.len(),
        cut_rows(rows, widths, left)[r].len() == rows[r].len(),
        left[i] ==> cut_rows(rows, widths, left)[r][i] == truncated_left(rows[r][i], widths[i]),
        !left[i] ==> cut_rows(rows, widths, left)[r][i] == truncated(rows[r][i], widths[i]),
{
}

} // verus!
