//! Syntax trees as rows: one row per node, in the order in which a walk from
//! the root meets them, every node before its children.

use std::ops::ControlFlow;
use std::time::Instant;

use tree_sitter::{ParseOptions, ParseState, Parser};
use vstd::prelude::*;

use crate::text;
use crate::text::{same_text, slice_bytes, trimmed};
use crate::treesitter_deps;

verus! {

/// The languages that are read through a grammar.
#[derive(Debug, Clone, Copy, PartialEq, Eq, Structural)]
pub enum Grammar {
    Python,
    Bash,
    Json,
    Yaml,
}

/// Upper bound, in seconds, on how long one parse may run before it is given
/// up: a pathological file must not stall an indexing run.
pub const PARSE_TIMEOUT_SECS: u64 = 5;

/// One node of a syntax tree.
#[derive(Debug)]
pub struct SyntaxRow {
    /// The grammar's name for this kind of node.
    pub kind: String,
    /// The field of the parent that holds this node, or nothing.
    pub field: String,
    /// Whether the node is named in the grammar (keywords and marks are not).
    pub named: bool,
    /// Zero-based source line on which the node starts.
    pub row: usize,
    /// Byte offset at which the node starts.
    pub start: usize,
    /// Byte offset just behind the node.
    pub end: usize,
    /// Number of rows of the node and all that it holds.
    pub size: usize,
}

/// The value of a row.
pub struct RowView {
    pub kind: Seq<char>,
    pub field: Seq<char>,
    pub named: bool,
    pub row: usize,
    pub start: usize,
    pub end: usize,
    pub size: usize,
}

impl View for SyntaxRow {
    type V = RowView;

    open spec fn view(&self) -> RowView {
        RowView {
            kind: self.kind@,
            field: self.field@,
            named: self.named,
            row: self.row,
            start: self.start,
            end: self.end,
            size: self.size,
        }
    }
}

/// The values of rows.
pub open spec fn row_views(rows: Seq<SyntaxRow>) -> Seq<RowView> {
    rows.map_values(|r: SyntaxRow| r@)
}

/// A source text with the rows of its syntax tree.
#[derive(Debug)]
pub struct SyntaxTree {
    pub source: String,
    pub rows: Vec<SyntaxRow>,
}

/// The syntax tree of tree-sitter.
#[verifier::external_type_specification]
#[verifier::external_body]
pub struct ExTree(tree_sitter::Tree);

/// What a tree holds: its nodes as rows, in the order of a walk.
pub uninterp spec fn tree_contents(tree: tree_sitter::Tree) -> Seq<RowView>;

/// The rows of the tree that the grammar's parser builds for `source`.
pub uninterp spec fn syntax_rows(grammar: Grammar, source: Seq<char>) -> Seq<RowView>;

/// Whether a parse that has run for `elapsed` may go on.
fn go_on(elapsed_secs: u64, limit_secs: u64) -> (verdict: ControlFlow<()>)
    ensures
        verdict == if elapsed_secs < limit_secs {
            ControlFlow::<()>::Continue(())
        } else {
            ControlFlow::<()>::Break(())
        },
{
    if elapsed_secs < limit_secs {
        ControlFlow::Continue(())
    } else {
        ControlFlow::Break(())
    }
}

/// Parses with tree-sitter (`Parser::parse_with_options`). A parse that is
/// stopped because it ran for `limit_secs`, or a grammar that does not load,
/// gives `None`; a parse that ends gives the one tree of this source. Whether
/// a parse ends in time rests on the machine and is left unsaid.
#[verifier::external_body]
fn parse_source(grammar: Grammar, source: &str, limit_secs: u64) -> (tree: Option<
    tree_sitter::Tree,
>)
    ensures
        tree matches Some(t) ==> tree_contents(t) == syntax_rows(grammar, source@),
        treesitter_deps::grammar_error(grammar) is Some ==> tree is None,
{
    let language = match grammar {
        Grammar::Python => tree_sitter_python::LANGUAGE,
        Grammar::Bash => tree_sitter_bash::LANGUAGE,
        Grammar::Json => tree_sitter_json::LANGUAGE,
        Grammar::Yaml => tree_sitter_yaml::LANGUAGE,
    };
    let mut parser = Parser::new();
    parser.set_language(&language.into()).ok()?;
    let begun = Instant::now();
    let mut watch = |_: &ParseState| go_on(begun.elapsed().as_secs(), limit_secs);
    let options = ParseOptions::new().progress_callback(&mut watch);
    let mut read = |at: usize, _| source.as_bytes().get(at..).unwrap_or_default();
    parser.parse_with_options(&mut read, None, Some(options))
}

/// A cursor of tree-sitter that walks a tree.
#[verifier::external_type_specification]
#[verifier::external_body]
pub struct ExTreeCursor<'tree>(tree_sitter::TreeCursor<'tree>);

/// The rows of the tree that a cursor walks.
pub uninterp spec fn cursor_rows(cursor: tree_sitter::TreeCursor<'_>) -> Seq<RowView>;

/// The row of the node on which a cursor stands.
pub uninterp spec fn cursor_at(cursor: tree_sitter::TreeCursor<'_>) -> int;

/// The last of the first `n` rows whose node holds the row `i`.
pub open spec fn holder_in(rows: Seq<RowView>, i: int, n: int) -> int
    decreases n,
{
    if n <= 0 {
        0
    } else if n - 1 + rows[n - 1].size > i {
        n - 1
    } else {
        holder_in(rows, i, n - 1)
    }
}

/// The row of the parent of the node at row `i`.
pub open spec fn parent_row(rows: Seq<RowView>, i: int) -> int {
    holder_in(rows, i, i)
}

/// `Tree::walk`: the cursor stands on the root, whose number of descendants,
/// counted with itself, is the number of all nodes.
#[verifier::external_body]
fn start_walk(tree: &tree_sitter::Tree) -> (cursor: tree_sitter::TreeCursor<'_>)
    ensures
        cursor_rows(cursor) == tree_contents(*tree),
        cursor_at(cursor) == 0,
        cursor_rows(cursor).len() > 0,
        cursor_rows(cursor).len() == cursor_rows(cursor)[0].size,
{
    tree.walk()
}

/// `TreeCursor::node` and `TreeCursor::field_name`: what the node under the
/// cursor says of itself.
#[verifier::external_body]
fn row_under(cursor: &tree_sitter::TreeCursor<'_>) -> (row: SyntaxRow)
    ensures
        row@ == cursor_rows(*cursor)[cursor_at(*cursor)],
{
    let node = cursor.node();
    SyntaxRow {
        kind: node.kind().to_string(),
        field: cursor.field_name().unwrap_or_default().to_string(),
        named: node.is_named(),
        row: node.start_position().row,
        start: node.start_byte(),
        end: node.end_byte(),
        size: node.descendant_count(),
    }
}

/// `TreeCursor::goto_first_child`: the cursor moves to the first child of its
/// node, whose row is the next one, if the node has any; a node without
/// children counts itself alone.
#[verifier::external_body]
fn to_first_child(cursor: &mut tree_sitter::TreeCursor<'_>) -> (moved: bool)
    ensures
        cursor_rows(*final(cursor)) == cursor_rows(*old(cursor)),
        moved == (cursor_rows(*old(cursor))[cursor_at(*old(cursor))].size > 1),
        cursor_at(*final(cursor)) == if moved {
            cursor_at(*old(cursor)) + 1
        } else {
            cursor_at(*old(cursor))
        },
        0 <= cursor_at(*final(cursor)) < cursor_rows(*final(cursor)).len(),
        !moved ==> cursor_rows(*final(cursor))[cursor_at(*final(cursor))].size == 1,
{
    cursor.goto_first_child()
}

/// `TreeCursor::goto_next_sibling`: the cursor moves to the node whose rows
/// follow those of its own, if that has the same parent.
#[verifier::external_body]
fn to_next_sibling(cursor: &mut tree_sitter::TreeCursor<'_>) -> (moved: bool)
    ensures
        cursor_rows(*final(cursor)) == cursor_rows(*old(cursor)),
        ({
            let rows = cursor_rows(*old(cursor));
            let at = cursor_at(*old(cursor));
            let parent = parent_row(rows, at);
            &&& moved == (at > 0 && at + rows[at].size < parent + rows[parent].size)
            &&& cursor_at(*final(cursor)) == if moved {
                at + rows[at].size
            } else {
                at
            }
        }),
        0 <= cursor_at(*final(cursor)) < cursor_rows(*final(cursor)).len(),
{
    cursor.goto_next_sibling()
}

/// `TreeCursor::goto_parent`: the cursor moves to the parent of its node, if
/// that is not the root. The rows of a node lie within those of its parent.
#[verifier::external_body]
fn to_parent(cursor: &mut tree_sitter::TreeCursor<'_>) -> (moved: bool)
    ensures
        cursor_rows(*final(cursor)) == cursor_rows(*old(cursor)),
        ({
            let rows = cursor_rows(*old(cursor));
            let at = cursor_at(*old(cursor));
            let parent = parent_row(rows, at);
            &&& moved == (at > 0)
            &&& moved ==> cursor_at(*final(cursor)) == parent && at + rows[at].size <= parent
                + rows[parent].size
            &&& !moved ==> cursor_at(*final(cursor)) == at
        }),
        0 <= cursor_at(*final(cursor)) < cursor_rows(*final(cursor)).len(),
{
    cursor.goto_parent()
}

/// A parent comes before its children.
proof fn lemma_parent_row(rows: Seq<RowView>, i: int, n: int)
    requires
        n >= 0,
    ensures
        0 <= holder_in(rows, i, n),
        n > 0 ==> holder_in(rows, i, n) < n,
    decreases n,
{
    if n > 0 {
        lemma_parent_row(rows, i, n - 1);
    }
}

/// Leaves a subtree that was walked to its end: the cursor moves to the node
/// whose rows follow it, if there is one.
fn leave_subtree(cursor: &mut tree_sitter::TreeCursor<'_>) -> (moved: bool)
    requires
        0 <= cursor_at(*old(cursor)) < cursor_rows(*old(cursor)).len(),
        cursor_rows(*old(cursor)).len() == cursor_rows(*old(cursor))[0].size,
    ensures
        cursor_rows(*final(cursor)) == cursor_rows(*old(cursor)),
        ({
            let rows = cursor_rows(*old(cursor));
            let end = cursor_at(*old(cursor)) + rows[cursor_at(*old(cursor))].size;
            if moved {
                cursor_at(*final(cursor)) == end < rows.len()
            } else {
                end == rows.len()
            }
        }),
{
    let ghost rows = cursor_rows(*cursor);
    let ghost end = cursor_at(*cursor) + rows[cursor_at(*cursor)].size;
    let mut moved: bool = to_next_sibling(cursor);
    let mut at_root: bool = false;
    while !moved && !at_root
        invariant
            rows.len() == rows[0].size,
            cursor_rows(*cursor) == rows,
            0 <= cursor_at(*cursor) < rows.len(),
            moved ==> cursor_at(*cursor) == end,
            !moved ==> cursor_at(*cursor) + rows[cursor_at(*cursor)].size == end,
            !moved && !at_root && cursor_at(*cursor) > 0 ==> ({
                let parent = parent_row(rows, cursor_at(*cursor));
                end >= parent + rows[parent].size
            }),
            at_root ==> !moved && cursor_at(*cursor) == 0,
        decreases
                if moved || at_root {
                    0
                } else {
                    cursor_at(*cursor) + 1
                },
    {
        proof {
            lemma_parent_row(rows, cursor_at(*cursor), cursor_at(*cursor));
        }
        if to_parent(cursor) {
            moved = to_next_sibling(cursor);
        } else {
            at_root = true;
        }
    }
    moved
}

/// The rows of a tree, every node before its children.
fn rows_of(tree: &tree_sitter::Tree) -> (rows: Vec<SyntaxRow>)
    ensures
        row_views(rows@) == tree_contents(*tree),
{
    let mut rows: Vec<SyntaxRow> = Vec::new();
    let mut cursor: tree_sitter::TreeCursor<'_> = start_walk(tree);
    let ghost all = tree_contents(*tree);
    let mut more: bool = true;
    assert(all.take(0) =~= row_views(rows@));
    while more
        invariant
            all.len() > 0,
            all.len() == all[0].size,
            cursor_rows(cursor) == all,
            row_views(rows@) == all.take(rows@.len() as int),
            rows@.len() <= all.len(),
            more ==> cursor_at(cursor) == rows@.len() < all.len(),
            !more ==> rows@.len() == all.len(),
        decreases all.len() - rows@.len(), if more {
            1int
        } else {
            0int
        },
    {
        let ghost before = row_views(rows@);
        rows.push(row_under(&cursor));
        assert(row_views(rows@) =~= before.push(all[before.len() as int]));
        assert(row_views(rows@) =~= all.take(before.len() as int + 1));
        if !to_first_child(&mut cursor) {
            more = leave_subtree(&mut cursor);
        }
    }
    assert(row_views(rows@) =~= all);
    rows
}

/// The syntax tree of `source` from what a parse of it gave; `None` where the
/// parse gave no tree.
pub fn tree_of(source: &str, parsed: Option<tree_sitter::Tree>) -> (tree: Option<SyntaxTree>)
    ensures
        match parsed {
            Some(p) => tree matches Some(t) && t.source@ == source@ && row_views(t.rows@)
                == tree_contents(p),
            None => tree is None,
        },
{
    match parsed {
        Some(p) => Some(SyntaxTree { source: source.to_owned(), rows: rows_of(&p) }),
        None => None,
    }
}

/// Whether `parsed` may be what a parse of `source` gives: its syntax tree, or
/// nothing where the parse did not end in time. A grammar that does not load
/// never gives a tree.
pub open spec fn is_parse_of(
    parsed: Option<SyntaxTree>,
    grammar: Grammar,
    source: Seq<char>,
) -> bool {
    parsed matches Some(t) ==> {
        &&& treesitter_deps::grammar_error(grammar) is None
        &&& t.source@ == source
        &&& row_views(t.rows@) == syntax_rows(grammar, source)
    }
}

/// The syntax tree of `source`, or `None` where the grammar does not load or
/// the parse did not end in time.
pub fn parse(grammar: Grammar, source: &str) -> (tree: Option<SyntaxTree>)
    ensures
        is_parse_of(tree, grammar, source@),
{
    let parsed: Option<tree_sitter::Tree> = parse_source(grammar, source, PARSE_TIMEOUT_SECS);
    tree_of(source, parsed)
}

// ---------------------------------------------------------------------------
// Walking the rows
// ---------------------------------------------------------------------------

/// The index just behind the rows of node `i`, the rows after it not counted.
pub open spec fn next_row(t: SyntaxTree, i: int) -> int {
    let n = i + if t.rows@[i].size > 0 {
        t.rows@[i].size as int
    } else {
        1
    };
    if n < t.rows@.len() {
        n
    } else {
        t.rows@.len() as int
    }
}

/// The nodes that begin at row `from` and follow each other up to row `to`.
pub open spec fn siblings(t: SyntaxTree, from: int, to: int) -> Seq<int>
    decreases t.rows@.len() - from,
{
    if 0 <= from < to <= t.rows@.len() {
        seq![from] + siblings(t, next_row(t, from), to)
    } else {
        seq![]
    }
}

/// The children of node `i`, in order.
pub open spec fn children(t: SyntaxTree, i: int) -> Seq<int> {
    siblings(t, i + 1, next_row(t, i))
}

/// The named children of node `i`, in order.
pub open spec fn named_children(t: SyntaxTree, i: int) -> Seq<int> {
    children(t, i).filter(|c: int| t.rows@[c].named)
}

/// The first child of node `i` that stands in the given field.
pub open spec fn field_child(t: SyntaxTree, i: int, field: Seq<char>) -> Option<int> {
    let held = children(t, i).filter(|c: int| t.rows@[c].field@ == field);
    if held.len() > 0 {
        Some(held[0])
    } else {
        None
    }
}

/// The kind of node `i`.
pub open spec fn kind_of(t: SyntaxTree, i: int) -> Seq<char> {
    t.rows@[i].kind@
}

/// The part of the source that node `i` covers; nothing where its offsets do
/// not fall between characters.
pub open spec fn raw_text(t: SyntaxTree, i: int) -> Seq<char> {
    text::byte_slice(t.source@, t.rows@[i].start as int, t.rows@[i].end as int)
}

/// The source of node `i` without the white space at both ends.
pub open spec fn node_text(t: SyntaxTree, i: int) -> Seq<char> {
    text::trim(raw_text(t, i))
}

/// Every node among `siblings` is a row of the range.
pub proof fn lemma_siblings_in_range(t: SyntaxTree, from: int, to: int)
    ensures
        forall|k: int|
            0 <= k < siblings(t, from, to).len() ==> from <= #[trigger] siblings(t, from, to)[k] < to
                && 0 <= siblings(t, from, to)[k] < t.rows@.len(),
    decreases t.rows@.len() - from,
{
    if 0 <= from < to <= t.rows@.len() {
        let n = next_row(t, from);
        lemma_siblings_in_range(t, n, to);
        assert forall|k: int| 0 <= k < siblings(t, from, to).len() implies from
            <= #[trigger] siblings(t, from, to)[k] < to && 0 <= siblings(t, from, to)[k]
            < t.rows@.len() by {
            if k > 0 {
                assert(siblings(t, from, to)[k] == siblings(t, n, to)[k - 1]);
            }
        }
    }
}

/// The row indices in `v`.
pub open spec fn indices(v: Seq<usize>) -> Seq<int> {
    v.map_values(|i: usize| i as int)
}

impl SyntaxTree {
    /// The index just behind the rows of node `i`.
    pub fn next_row(&self, i: usize) -> (n: usize)
        requires
            i < self.rows@.len(),
        ensures
            n == next_row(*self, i as int),
            i < n <= self.rows@.len(),
    {
        let size: usize = if self.rows[i].size > 0 {
            self.rows[i].size
        } else {
            1
        };
        if size < self.rows.len() - i {
            i + size
        } else {
            self.rows.len()
        }
    }

    /// The children of node `i`, in order.
    pub fn children(&self, i: usize) -> (v: Vec<usize>)
        requires
            i < self.rows@.len(),
        ensures
            indices(v@) == children(*self, i as int),
            forall|k: int| 0 <= k < v@.len() ==> i < #[trigger] v@[k] < next_row(*self, i as int),
    {
        let to: usize = self.next_row(i);
        let mut j: usize = i + 1;
        let mut v: Vec<usize> = Vec::new();
        assert(indices(v@) + siblings(*self, j as int, to as int) =~= children(*self, i as int));
        while j < to
            invariant
                i < j <= self.rows@.len(),
                to <= self.rows@.len(),
                to == next_row(*self, i as int),
                indices(v@) + siblings(*self, j as int, to as int) == children(*self, i as int),
                forall|k: int| 0 <= k < v@.len() ==> i < #[trigger] v@[k] < to,
            decreases self.rows@.len() - j,
        {
            let ghost before = indices(v@);
            let n: usize = self.next_row(j);
            v.push(j);
            assert(indices(v@) =~= before.push(j as int));
            assert(before + siblings(*self, j as int, to as int) =~= before.push(j as int)
                + siblings(*self, n as int, to as int));
            j = n;
        }
        assert(siblings(*self, j as int, to as int) =~= seq![]);
        assert(indices(v@) =~= children(*self, i as int));
        v
    }

    /// The named children of node `i`, in order.
    pub fn named_children(&self, i: usize) -> (v: Vec<usize>)
        requires
            i < self.rows@.len(),
        ensures
            indices(v@) == named_children(*self, i as int),
            forall|k: int| 0 <= k < v@.len() ==> i < #[trigger] v@[k] < next_row(*self, i as int),
    {
        let all: Vec<usize> = self.children(i);
        let ghost nodes = children(*self, i as int);
        let ghost pred = |c: int| self.rows@[c].named;
        let mut v: Vec<usize> = Vec::new();
        let mut k: usize = 0;
        proof {
            reveal(Seq::filter);
        }
        assert(nodes.take(0).filter(pred) =~= seq![]);
        while k < all.len()
            invariant
                k <= all@.len(),
                nodes == indices(all@),
                pred == |c: int| self.rows@[c].named,
                i < self.rows@.len(),
                forall|j: int|
                    0 <= j < all@.len() ==> i < #[trigger] all@[j] < next_row(*self, i as int),
                indices(v@) == nodes.take(k as int).filter(pred),
                forall|j: int|
                    0 <= j < v@.len() ==> i < #[trigger] v@[j] < next_row(*self, i as int),
            decreases all@.len() - k,
        {
            let c: usize = all[k];
            let ghost before = indices(v@);
            proof {
                reveal(Seq::filter);
                assert(nodes.take(k + 1).drop_last() =~= nodes.take(k as int));
                assert(nodes.take(k + 1).last() == c as int);
            }
            if self.rows[c].named {
                v.push(c);
                assert(indices(v@) =~= before.push(c as int));
            }
            k = k + 1;
        }
        assert(nodes.take(k as int) =~= nodes);
        v
    }

    /// The first child of node `i` that stands in the given field.
    pub fn field_child(&self, i: usize, field: &str) -> (child: Option<usize>)
        requires
            i < self.rows@.len(),
        ensures
            match child {
                Some(c) => field_child(*self, i as int, field@) == Some(c as int) && i < c
                    < next_row(*self, i as int),
                None => field_child(*self, i as int, field@) is None,
            },
    {
        let all: Vec<usize> = self.children(i);
        let ghost nodes = children(*self, i as int);
        let ghost pred = |c: int| self.rows@[c].field@ == field@;
        let mut k: usize = 0;
        proof {
            reveal(Seq::filter);
        }
        assert(nodes.take(0).filter(pred) =~= seq![]);
        while k < all.len()
            invariant
                k <= all@.len(),
                nodes == indices(all@),
                nodes == children(*self, i as int),
                pred == |c: int| self.rows@[c].field@ == field@,
                i < self.rows@.len(),
                forall|j: int|
                    0 <= j < all@.len() ==> i < #[trigger] all@[j] < next_row(*self, i as int),
                nodes.take(k as int).filter(pred) == Seq::<int>::empty(),
            decreases all@.len() - k,
        {
            let c: usize = all[k];
            proof {
                reveal(Seq::filter);
                assert(nodes.take(k + 1).drop_last() =~= nodes.take(k as int));
                assert(nodes.take(k + 1).last() == c as int);
            }
            if same_text(self.rows[c].field.as_str(), field) {
                proof {
                    lemma_filter_first(nodes, k as int, pred);
                }
                return Some(c);
            }
            k = k + 1;
        }
        assert(nodes.take(k as int) =~= nodes);
        None
    }

    /// The source of node `i` without the white space at both ends.
    pub fn text(&self, i: usize) -> (s: String)
        requires
            i < self.rows@.len(),
        ensures
            s@ == node_text(*self, i as int),
    {
        let from: usize = self.rows[i].start;
        let to: usize = self.rows[i].end;
        let source: &str = self.source.as_str();
        let raw: &str = slice_bytes(source, from, to);
        trimmed(raw)
    }

    /// Whether node `i` is of the given kind.
    pub fn is_kind(&self, i: usize, kind: &str) -> (b: bool)
        requires
            i < self.rows@.len(),
        ensures
            b == (kind_of(*self, i as int) == kind@),
    {
        same_text(self.rows[i].kind.as_str(), kind)
    }
}

/// The first element that a filter keeps.
pub proof fn lemma_filter_first(s: Seq<int>, k: int, pred: spec_fn(int) -> bool)
    requires
        0 <= k < s.len(),
        s.take(k).filter(pred) == Seq::<int>::empty(),
        pred(s[k]),
    ensures
        s.filter(pred).len() > 0,
        s.filter(pred)[0] == s[k],
    decreases s.len(),
{
    reveal(Seq::filter);
    if k == s.len() - 1 {
        assert(s.drop_last() =~= s.take(k));
    } else {
        assert(s.drop_last().take(k) =~= s.take(k));
        lemma_filter_first(s.drop_last(), k, pred);
    }
}

/// The child in a field is a row of the tree behind its parent.
pub proof fn lemma_field_child_row(t: SyntaxTree, p: int, field: Seq<char>)
    requires
        0 <= p,
        field_child(t, p, field) is Some,
    ensures
        p < field_child(t, p, field).unwrap() < t.rows@.len(),
{
    let nodes = children(t, p);
    lemma_siblings_in_range(t, p + 1, next_row(t, p));
    assert forall|k: int| 0 <= k < nodes.len() implies p < #[trigger] nodes[k] < t.rows@.len() by {
        assert(siblings(t, p + 1, next_row(t, p))[k] == nodes[k]);
    }
    assert forall|pred: spec_fn(int) -> bool| (#[trigger] nodes.filter(pred)).len() > 0 implies p
        < nodes.filter(pred)[0] < t.rows@.len() by {
        lemma_filter_within(nodes, pred, p, t.rows@.len() as int);
    }
}

/// What a filter keeps lies within the same bounds.
proof fn lemma_filter_within(s: Seq<int>, pred: spec_fn(int) -> bool, a: int, b: int)
    requires
        forall|k: int| 0 <= k < s.len() ==> a < #[trigger] s[k] < b,
    ensures
        forall|k: int| 0 <= k < s.filter(pred).len() ==> a < #[trigger] s.filter(pred)[k] < b,
    decreases s.len(),
{
    reveal(Seq::filter);
    if s.len() > 0 {
        let rest = s.drop_last();
        assert forall|k: int| 0 <= k < rest.len() implies a < #[trigger] rest[k] < b by {
            assert(rest[k] == s[k]);
        }
        lemma_filter_within(rest, pred, a, b);
        assert(a < s[s.len() - 1] < b);
        assert forall|k: int| 0 <= k < s.filter(pred).len() implies a < #[trigger] s.filter(
            pred,
        )[k] < b by {
            if k < rest.filter(pred).len() {
                assert(s.filter(pred)[k] == rest.filter(pred)[k]);
            }
        }
    }
}

/// The named children of a node are those of its children that are named.
pub proof fn law_named_children_are_the_named_ones(t: SyntaxTree, i: int, c: int)
    ensures
        named_children(t, i).contains(c) <==> children(t, i).contains(c) && t.rows@[c].named,
{
    let named = |c: int| t.rows@[c].named;
    let all = children(t, i);
    if named_children(t, i).contains(c) {
        let k = choose|k: int|
            0 <= k < named_children(t, i).len() && named_children(t, i)[k] == c;
        all.lemma_filter_pred(named, k);
        all.lemma_filter_contains_rev(named, c);
    }
    if all.contains(c) && t.rows@[c].named {
        let k = choose|k: int| 0 <= k < all.len() && all[k] == c;
        all.lemma_filter_contains(named, k);
    }
}

} // verus!
