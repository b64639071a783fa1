//! Metadata that scripts declare in their header comments and docstrings.

use vstd::prelude::*;
use vstd::string::StringExecFns;

use crate::ast_deps;
use crate::patterns;
use crate::patterns::{captures_each, captures_of, find_all, Groups};
use crate::sorted_map::SortedMap;
use crate::text;
use crate::text::{
    chars_of, find_white_from, has_prefix, join_texts, lowered, push_unique, same_text, slice_bytes,
    slice_text, split_lines, squeezed, trim_bounds, trimmed,
};

verus! {

// ---------------------------------------------------------------------------
// History entries
// ---------------------------------------------------------------------------

/// A structured changelog entry parsed from a single `@history` header line.
#[derive(Debug)]
pub struct HistoryEntry {
    /// The raw value after the `@history` tag (trimmed).
    pub raw: String,
    /// ISO-8601 date extracted from the line, e.g. `"2024-05-10"`.
    pub date: Option<String>,
    /// Author token extracted from the line.
    pub author: Option<String>,
    /// Version token extracted from the line, e.g. `"1.2.3"`.
    pub version: Option<String>,
    /// Human-readable change summary (everything not classified otherwise).
    pub summary: Option<String>,
}

/// A history entry as texts.
pub struct EntryView {
    pub raw: Seq<char>,
    pub date: Option<Seq<char>>,
    pub author: Option<Seq<char>>,
    pub version: Option<Seq<char>>,
    pub summary: Option<Seq<char>>,
}

impl View for HistoryEntry {
    type V = EntryView;

    open spec fn view(&self) -> EntryView {
        EntryView {
            raw: self.raw@,
            date: ast_deps::option_view(self.date),
            author: ast_deps::option_view(self.author),
            version: ast_deps::option_view(self.version),
            summary: ast_deps::option_view(self.summary),
        }
    }
}

pub const HISTORY_DATE_PATTERN: &'static str = r"\b(\d{4}-\d{2}-\d{2})\b";

pub const HISTORY_VERSION_PATTERN: &'static str = r"\b(\d+\.\d+(?:\.\d+)*)\b";

/// The byte offsets of the leftmost match, if there is one.
pub open spec fn first_span(spans: Seq<(usize, usize)>) -> Option<(usize, usize)> {
    if spans.len() > 0 {
        Some(spans[0])
    } else {
        None
    }
}

/// The number of bytes of `s`.
pub open spec fn byte_len(s: Seq<char>) -> int {
    vstd::utf8::encode_utf8(s).len() as int
}

/// The token at `span`, if any, and `work` without it, its words one blank
/// apart; `work` itself where there is no token.
pub open spec fn cut_token(work: Seq<char>, span: Option<(usize, usize)>) -> (
    Option<Seq<char>>,
    Seq<char>,
) {
    match span {
        Some((start, end)) => (
            Some(text::byte_slice(work, start as int, end as int)),
            text::squeeze(
                text::byte_slice(work, 0, start as int) + text::byte_slice(
                    work,
                    end as int,
                    byte_len(work),
                ),
            ),
        ),
        None => (None, work),
    }
}

/// The first word of `work`.
pub open spec fn first_word(work: Seq<char>) -> Seq<char> {
    text::trim(work.take(text::find_white(work)))
}

/// The author and what follows it: the first word, unless it looks like a
/// date or a version.
pub open spec fn cut_author(work: Seq<char>, looks_like_token: bool) -> (
    Option<Seq<char>>,
    Seq<char>,
) {
    if first_word(work).len() > 0 && !looks_like_token {
        (Some(first_word(work)), text::trim(work.skip(text::find_white(work))))
    } else {
        (None, work)
    }
}

/// What is left is the summary.
pub open spec fn rest_text(work: Seq<char>) -> Option<Seq<char>> {
    if work.len() == 0 {
        None
    } else {
        Some(work)
    }
}

/// Whether a text holds a date or a version.
pub open spec fn looks_like_token(word: Seq<char>) -> bool {
    patterns::regex_find_iter(HISTORY_DATE_PATTERN@, word).len() > 0
        || patterns::regex_find_iter(HISTORY_VERSION_PATTERN@, word).len() > 0
}

/// The parts of a history line: a date anywhere in it; beside a date, a
/// version; beside a date, the author, which is the first word that is left.
/// All else is the summary.
pub open spec fn history_view(line: Seq<char>) -> EntryView {
    let raw = text::trim(line);
    let (date, undated) = cut_token(
        raw,
        first_span(patterns::regex_find_iter(HISTORY_DATE_PATTERN@, raw)),
    );
    if date is None {
        EntryView { raw, date: None, author: None, version: None, summary: rest_text(raw) }
    } else {
        let (version, rest) = cut_token(
            undated,
            first_span(patterns::regex_find_iter(HISTORY_VERSION_PATTERN@, undated)),
        );
        let (author, summary) = cut_author(rest, looks_like_token(first_word(rest)));
        EntryView { raw, date, author, version, summary: rest_text(summary) }
    }
}

/// Cuts the token at `span` out of `work`.
pub fn cut_token_at(work: &str, span: Option<(usize, usize)>) -> (r: (Option<String>, String))
    ensures
        ast_deps::option_view(r.0) == cut_token(work@, span).0,
        r.1@ == cut_token(work@, span).1,
{
    match span {
        Some((start, end)) => {
            let token: String = slice_bytes(work, start, end).to_owned();
            let mut rest: String = slice_bytes(work, 0, start).to_owned();
            rest.append(slice_bytes(work, end, work.as_bytes().len()));
            (Some(token), squeezed(rest.as_str()))
        },
        None => (None, work.to_owned()),
    }
}

/// The first word of `work` and the rest.
pub fn split_first_word(work: &str) -> (r: (String, String))
    ensures
        r.0@ == first_word(work@),
        r.1@ == text::trim(work@.skip(text::find_white(work@))),
{
    let v: Vec<char> = chars_of(work);
    let i: usize = find_white_from(&v, 0);
    assert(v@.skip(0) =~= v@);
    assert(v@.subrange(0, i as int) =~= v@.take(i as int));
    assert(v@.subrange(i as int, v@.len() as int) =~= v@.skip(i as int));
    let (a, b) = trim_bounds(&v, 0, i);
    let (c, d) = trim_bounds(&v, i, v.len());
    (slice_text(&v, a, b), slice_text(&v, c, d))
}

/// The byte offsets of the leftmost match of `pattern`.
fn find_first(pattern: &str, s: &str) -> (span: Option<(usize, usize)>)
    ensures
        span == first_span(patterns::regex_find_iter(pattern@, s@)),
{
    let spans: Vec<(usize, usize)> = find_all(pattern, s);
    if spans.len() > 0 {
        Some(spans[0])
    } else {
        None
    }
}

/// The text, or `None` where it is empty.
fn non_empty(s: String) -> (r: Option<String>)
    ensures
        ast_deps::option_view(r) == rest_text(s@),
{
    if s.as_str().is_empty() {
        None
    } else {
        Some(s)
    }
}

/// Parse a single raw `@history` value into a [`HistoryEntry`].
///
/// Supports common field orderings without being brittle:
/// - `2024-05-10 alice Fixed timeout handling` (date author summary)
/// - `alice 2024-05-10 Fixed timeout handling` (author date summary)
/// - `1.2.3 2024-05-10 alice Fixed timeout handling` (version date author summary)
/// - `Fixed timeout handling` (summary only)
///
/// Without a date the whole value is the summary: a bare `1.0` in free text is
/// not a version.
pub fn parse_history_entry(raw: &str) -> (entry: HistoryEntry)
    ensures
        entry@ == history_view(raw@),
{
    let raw: String = trimmed(raw);
    let date_span: Option<(usize, usize)> = find_first(HISTORY_DATE_PATTERN, raw.as_str());
    let (date, undated) = cut_token_at(raw.as_str(), date_span);
    if date.is_none() {
        let summary: Option<String> = non_empty(raw.clone());
        return HistoryEntry { raw, date: None, author: None, version: None, summary };
    }
    let version_span: Option<(usize, usize)> = find_first(
        HISTORY_VERSION_PATTERN,
        undated.as_str(),
    );
    let (version, rest) = cut_token_at(undated.as_str(), version_span);
    let (first, tail) = split_first_word(rest.as_str());
    let token: bool = find_first(HISTORY_DATE_PATTERN, first.as_str()).is_some() || find_first(
        HISTORY_VERSION_PATTERN,
        first.as_str(),
    ).is_some();
    if !first.as_str().is_empty() && !token {
        HistoryEntry { raw, date, author: Some(first), version, summary: non_empty(tail) }
    } else {
        HistoryEntry { raw, date, author: None, version, summary: non_empty(rest) }
    }
}

// ---------------------------------------------------------------------------
// Comment lines
// ---------------------------------------------------------------------------

/// `s` without `prefix` at its start, if it is there.
pub open spec fn without_prefix(s: Seq<char>, prefix: Seq<char>) -> Seq<char> {
    if prefix.is_prefix_of(s) {
        s.skip(prefix.len() as int)
    } else {
        s
    }
}

/// The text of a line without comment marks and the white space around it.
pub open spec fn comment_text(line: Seq<char>) -> Seq<char> {
    text::trim(
        without_prefix(
            without_prefix(without_prefix(text::trim(line), "<#"@), "//"@),
            "#"@,
        ),
    )
}

/// Whether a line is a comment.
pub open spec fn is_comment(line: Seq<char>) -> bool {
    let s = text::trim_start(line);
    "<#"@.is_prefix_of(s) || "//"@.is_prefix_of(s) || "#"@.is_prefix_of(s)
}

/// The leading comment lines.
pub open spec fn leading_comments(lines: Seq<Seq<char>>) -> Seq<Seq<char>>
    decreases lines.len(),
{
    if lines.len() > 0 && is_comment(lines[0]) {
        seq![lines[0]] + leading_comments(lines.drop_first())
    } else {
        seq![]
    }
}

/// The header of a script: its leading run of comment lines.
pub open spec fn header_of(content: Seq<char>) -> Seq<char> {
    text::join(leading_comments(text::lines(content)), "\n"@)
}

/// `s` without `prefix` at its start, if it is there.
fn drop_prefix(s: &str, prefix: &str) -> (r: String)
    ensures
        r@ == without_prefix(s@, prefix@),
{
    if has_prefix(s, prefix) {
        let v: Vec<char> = chars_of(s);
        let p: Vec<char> = chars_of(prefix);
        assert(v@.subrange(p@.len() as int, v@.len() as int) =~= v@.skip(p@.len() as int));
        slice_text(&v, p.len(), v.len())
    } else {
        s.to_owned()
    }
}

/// The text of a line without comment marks and the white space around it.
pub fn strip_comment_prefix(line: &str) -> (s: String)
    ensures
        s@ == comment_text(line@),
{
    let s: String = trimmed(line);
    let s: String = drop_prefix(s.as_str(), "<#");
    let s: String = drop_prefix(s.as_str(), "//");
    let s: String = drop_prefix(s.as_str(), "#");
    trimmed(s.as_str())
}

/// Whether a line is a comment.
fn line_is_comment(line: &str) -> (b: bool)
    ensures
        b == is_comment(line@),
{
    let v: Vec<char> = chars_of(line);
    let ghost whole = v@;
    let mut a: usize = 0;
    assert(v@.skip(0) =~= v@);
    while a < v.len() && text::char_is_white(v[a])
        invariant
            a <= v@.len(),
            text::trim_start(v@.skip(a as int)) == text::trim_start(whole),
        decreases v@.len() - a,
    {
        assert(v@.skip(a as int).drop_first() =~= v@.skip(a + 1));
        a = a + 1;
    }
    assert(v@.subrange(a as int, v@.len() as int) =~= v@.skip(a as int));
    let s: String = slice_text(&v, a, v.len());
    has_prefix(s.as_str(), "<#") || has_prefix(s.as_str(), "//") || has_prefix(s.as_str(), "#")
}

/// Return only the leading run of comment lines. Metadata belongs to the
/// file's header, so comment-looking text after the first executable line is
/// left out.
pub fn leading_comment_block(content: &str) -> (header: String)
    ensures
        header@ == header_of(content@),
{
    let all: Vec<String> = split_lines(content);
    let ghost lines = text::lines(content@);
    let mut kept: Vec<String> = Vec::new();
    let mut i: usize = 0;
    assert(text::views(kept@) =~= seq![]);
    assert(lines.skip(0) =~= lines);
    assert(text::views(kept@) + leading_comments(lines.skip(0)) =~= leading_comments(lines));
    while i < all.len() && line_is_comment(all[i].as_str())
        invariant
            i <= all@.len(),
            lines == text::views(all@),
            text::views(kept@) + leading_comments(lines.skip(i as int)) == leading_comments(lines),
        decreases all@.len() - i,
    {
        let ghost before = text::views(kept@);
        let ghost rest = lines.skip(i as int);
        kept.push(all[i].clone());
        proof {
            assert(rest[0] == all@[i as int]@);
            assert(rest.drop_first() =~= lines.skip(i + 1));
            assert(text::views(kept@) =~= before.push(rest[0]));
            assert(before + leading_comments(rest) =~= before.push(rest[0]) + leading_comments(
                lines.skip(i + 1),
            ));
        }
        i = i + 1;
    }
    proof {
        let rest = lines.skip(i as int);
        if i < all@.len() {
            assert(rest[0] == all@[i as int]@);
        }
        assert(leading_comments(rest) =~= seq![]);
        assert(text::views(kept@) =~= leading_comments(lines));
    }
    join_texts(&kept, "\n")
}

// ---------------------------------------------------------------------------
// Metadata
// ---------------------------------------------------------------------------

/// The value of a metadata field.
#[derive(Debug)]
pub enum FieldValue {
    Text(String),
    List(Vec<String>),
    Entries(Vec<HistoryEntry>),
}

/// The value of a metadata field as texts.
pub enum FieldView {
    Text(Seq<char>),
    List(Seq<Seq<char>>),
    Entries(Seq<EntryView>),
}

/// The views of history entries.
pub open spec fn entry_views(v: Seq<HistoryEntry>) -> Seq<EntryView> {
    v.map_values(|e: HistoryEntry| e@)
}

impl View for FieldValue {
    type V = FieldView;

    open spec fn view(&self) -> FieldView {
        match self {
            FieldValue::Text(s) => FieldView::Text(s@),
            FieldValue::List(v) => FieldView::List(text::views(v@)),
            FieldValue::Entries(v) => FieldView::Entries(entry_views(v@)),
        }
    }
}

/// Structured metadata extracted from a script file.
#[derive(Debug)]
pub struct ExtractedMetadata {
    /// Full file content as text.
    pub content: String,
    /// SHA-256 digest (lowercase hex) of the file's raw bytes.
    pub content_hash: String,
    /// Normalized owner metadata extracted from comments.
    pub owner: String,
    /// Normalized purpose/brief metadata.
    pub purpose: String,
    /// Parsed tags list.
    pub tags: Vec<String>,
    /// Parsed entry point list.
    pub entry_points: Vec<String>,
    /// Paths of related scripts that the header declares.
    pub related: Vec<String>,
    /// All header fields, in the order of their keys.
    pub fields: SortedMap<FieldValue>,
}

/// What the header of a script declares.
pub struct MetaView {
    pub owner: Seq<char>,
    pub purpose: Seq<char>,
    pub related: Seq<Seq<char>>,
    pub fields: Map<Seq<char>, FieldView>,
}

/// The views of field values.
pub open spec fn field_views(m: Map<Seq<char>, FieldValue>) -> Map<Seq<char>, FieldView> {
    m.map_values(|v: FieldValue| v@)
}

impl ExtractedMetadata {
    /// What is known from the header so far.
    pub open spec fn meta(&self) -> MetaView {
        MetaView {
            owner: self.owner@,
            purpose: self.purpose@,
            related: text::views(self.related@),
            fields: field_views(self.fields@),
        }
    }

    /// Whether the field map is well formed.
    pub open spec fn wf(&self) -> bool {
        self.fields.wf()
    }

    /// Metadata of nothing.
    pub fn empty() -> (m: ExtractedMetadata)
        ensures
            m.wf(),
            m.meta() == no_meta(),
            m.content@ == Seq::<char>::empty(),
            m.content_hash@ == Seq::<char>::empty(),
            m.tags@.len() == 0,
            m.entry_points@.len() == 0,
    {
        let m: ExtractedMetadata = ExtractedMetadata {
            content: String::new(),
            content_hash: String::new(),
            owner: String::new(),
            purpose: String::new(),
            tags: Vec::new(),
            entry_points: Vec::new(),
            related: Vec::new(),
            fields: SortedMap::new(),
        };
        assert(m.meta().related =~= seq![]);
        assert(m.meta().fields =~= Map::empty());
        m
    }

    /// Sets a header field.
    fn set_field(&mut self, key: &str, value: FieldValue)
        requires
            old(self).wf(),
        ensures
            final(self).wf(),
            final(self).meta() == (MetaView {
                fields: old(self).meta().fields.insert(key@, value@),
                ..old(self).meta()
            }),
            final(self).content@ == old(self).content@,
            final(self).content_hash@ == old(self).content_hash@,
            final(self).tags@ == old(self).tags@,
            final(self).entry_points@ == old(self).entry_points@,
    {
        let ghost before = self.fields@;
        self.fields.insert(key, value);
        assert(field_views(self.fields@) =~= field_views(before).insert(key@, value@));
    }
}

/// A header that declares nothing.
pub open spec fn no_meta() -> MetaView {
    MetaView { owner: seq![], purpose: seq![], related: seq![], fields: Map::empty() }
}

/// The value in the first group of a match: trimmed and not empty.
pub open spec fn captured_value(found: Option<Seq<Option<Seq<char>>>>) -> Option<Seq<char>> {
    match found {
        Some(groups) => if groups.len() > 1 && groups[1] is Some && text::trim(
            groups[1].unwrap(),
        ).len() > 0 {
            Some(text::trim(groups[1].unwrap()))
        } else {
            None
        },
        None => None,
    }
}

/// The value that `pattern` finds in `line`.
pub open spec fn line_value(pattern: Seq<char>, line: Seq<char>) -> Option<Seq<char>> {
    captured_value(patterns::regex_captures(pattern, line))
}

/// The value in the first group of a match.
pub fn value_of_match(found: &Option<Groups>) -> (value: Option<String>)
    ensures
        ast_deps::option_view(value) == captured_value(patterns::match_view(*found)),
{
    match found {
        Some(groups) => {
            let ghost views = patterns::group_views(groups@);
            if groups.len() > 1 {
                assert(views[1] == match groups@[1] {
                    Some(s) => Some(s@),
                    None => None,
                });
                if let Some(raw) = &groups[1] {
                    return non_empty(trimmed(raw.as_str()));
                }
            }
            None
        },
        None => None,
    }
}

/// The values that `pattern` finds in each line.
fn line_values(pattern: &str, lines: &Vec<String>) -> (values: Vec<Option<String>>)
    ensures
        values@.len() == lines@.len(),
        forall|i: int|
            0 <= i < lines@.len() ==> ast_deps::option_view(#[trigger] values@[i]) == line_value(
                pattern@,
                lines@[i]@,
            ),
{
    let found: Vec<Option<Groups>> = captures_each(pattern, lines);
    let mut values: Vec<Option<String>> = Vec::new();
    let mut i: usize = 0;
    while i < found.len()
        invariant
            i <= found@.len(),
            values@.len() == i,
            found@.len() == lines@.len(),
            forall|j: int|
                0 <= j < lines@.len() ==> patterns::match_view(#[trigger] found@[j])
                    == patterns::regex_captures(pattern@, lines@[j]@),
            forall|j: int|
                0 <= j < i ==> ast_deps::option_view(#[trigger] values@[j]) == line_value(
                    pattern@,
                    lines@[j]@,
                ),
        decreases found@.len() - i,
    {
        values.push(value_of_match(&found[i]));
        i = i + 1;
    }
    values
}

// ---------------------------------------------------------------------------
// Single-line keywords
// ---------------------------------------------------------------------------

/// How many header lines are read for single-line keywords.
pub const HEADER_SCAN_LINES: usize = 40;

/// What a header keyword sets.
#[derive(Debug, Clone, Copy, PartialEq, Eq, Structural)]
pub enum HeaderField {
    Purpose,
    Owner,
    History,
    ScriptType,
}

/// The number of single-line keywords.
pub const HEADER_PATTERN_COUNT: usize = 8;

/// The pattern, the field and the key of the `i`th single-line keyword.
pub open spec fn header_pattern(i: int) -> (Seq<char>, HeaderField, Seq<char>) {
    if i == 0 {
        (r"(?i)(?:@brief|brief\s*:)\s*(.+)"@, HeaderField::Purpose, "brief"@)
    } else if i == 1 {
        (r"(?i)@purpose\s+(.+)"@, HeaderField::Purpose, "purpose"@)
    } else if i == 2 {
        (r"(?i)@author\s+(.+)"@, HeaderField::Owner, "author"@)
    } else if i == 3 {
        (r"(?i)@techowner\s+(.+)"@, HeaderField::Owner, "techowner"@)
    } else if i == 4 {
        (r"(?i)@funcowner\s+(.+)"@, HeaderField::Owner, "funcowner"@)
    } else if i == 5 {
        (r"(?i)@history\s+(.+)"@, HeaderField::History, "history"@)
    } else if i == 6 {
        (r"(?i)@scripttype\s+(.+)"@, HeaderField::ScriptType, "scripttype"@)
    } else {
        (r"(?i)owner\s*:\s*(.+)"@, HeaderField::Owner, "owner"@)
    }
}

/// The pattern, the field and the key of the `i`th single-line keyword.
fn header_pattern_of(i: usize) -> (r: (&'static str, HeaderField, &'static str))
    requires
        i < HEADER_PATTERN_COUNT,
    ensures
        (r.0@, r.1, r.2@) == header_pattern(i as int),
{
    match i {
        0 => (r"(?i)(?:@brief|brief\s*:)\s*(.+)", HeaderField::Purpose, "brief"),
        1 => (r"(?i)@purpose\s+(.+)", HeaderField::Purpose, "purpose"),
        2 => (r"(?i)@author\s+(.+)", HeaderField::Owner, "author"),
        3 => (r"(?i)@techowner\s+(.+)", HeaderField::Owner, "techowner"),
        4 => (r"(?i)@funcowner\s+(.+)", HeaderField::Owner, "funcowner"),
        5 => (r"(?i)@history\s+(.+)", HeaderField::History, "history"),
        6 => (r"(?i)@scripttype\s+(.+)", HeaderField::ScriptType, "scripttype"),
        _ => (r"(?i)owner\s*:\s*(.+)", HeaderField::Owner, "owner"),
    }
}

/// Where the reading of a header stands.
pub struct HeaderState {
    pub meta: MetaView,
    pub has_purpose: bool,
    pub has_owner: bool,
    pub has_type: bool,
    pub history: Seq<Seq<char>>,
}

/// The state after the `p`th keyword gave `value` on a line: the first value
/// of a field wins, only history lines are all kept.
pub open spec fn header_step(st: HeaderState, p: int, value: Option<Seq<char>>) -> HeaderState {
    let (_, field, key) = header_pattern(p);
    match value {
        None => st,
        Some(v) => {
            let meta = MetaView { fields: st.meta.fields.insert(key, FieldView::Text(v)), ..st.meta };
            match field {
                HeaderField::History => HeaderState { history: st.history.push(v), ..st },
                HeaderField::Purpose => if st.has_purpose {
                    st
                } else {
                    HeaderState { meta: MetaView { purpose: v, ..meta }, has_purpose: true, ..st }
                },
                HeaderField::Owner => if st.has_owner {
                    st
                } else {
                    HeaderState { meta: MetaView { owner: v, ..meta }, has_owner: true, ..st }
                },
                HeaderField::ScriptType => if st.has_type {
                    st
                } else {
                    HeaderState { meta, has_type: true, ..st }
                },
            }
        },
    }
}

/// The state after the first `n` keywords were tried on `line`.
pub open spec fn header_line(st: HeaderState, line: Seq<char>, n: int) -> HeaderState
    decreases n,
{
    if n <= 0 {
        st
    } else {
        header_step(
            header_line(st, line, n - 1),
            n - 1,
            line_value(header_pattern(n - 1).0, line),
        )
    }
}

/// The state after the first `n` lines.
pub open spec fn header_lines(st: HeaderState, lines: Seq<Seq<char>>, n: int) -> HeaderState
    decreases n,
{
    if n <= 0 {
        st
    } else {
        header_line(
            header_lines(st, lines, n - 1),
            lines[n - 1],
            HEADER_PATTERN_COUNT as int,
        )
    }
}

/// The first lines of a header, without their comment marks.
pub open spec fn scanned_lines(header: Seq<char>) -> Seq<Seq<char>> {
    let all = text::lines(header);
    let n = if all.len() < HEADER_SCAN_LINES {
        all.len() as int
    } else {
        HEADER_SCAN_LINES as int
    };
    all.take(n).map_values(|l: Seq<char>| comment_text(l))
}

/// The history lines as fields: all of them, and what they say.
pub open spec fn with_history(meta: MetaView, history: Seq<Seq<char>>) -> MetaView {
    if history.len() == 0 {
        meta
    } else {
        MetaView {
            fields: meta.fields.insert("history"@, FieldView::List(history)).insert(
                "history_entries"@,
                FieldView::Entries(history.map_values(|h: Seq<char>| history_view(h))),
            ),
            ..meta
        }
    }
}

/// What the single-line keywords of a header say, on top of `meta`.
pub open spec fn keyword_meta(meta: MetaView, header: Seq<char>) -> MetaView {
    let lines = scanned_lines(header);
    let st = header_lines(
        HeaderState {
            meta,
            has_purpose: false,
            has_owner: false,
            has_type: false,
            history: seq![],
        },
        lines,
        lines.len() as int,
    );
    with_history(st.meta, st.history)
}

/// Where the reading of a header stands.
#[derive(Debug)]
pub struct HeaderScan {
    pub meta: ExtractedMetadata,
    pub has_purpose: bool,
    pub has_owner: bool,
    pub has_type: bool,
    pub history: Vec<String>,
}

impl HeaderScan {
    /// The state as texts.
    pub open spec fn state(&self) -> HeaderState {
        HeaderState {
            meta: self.meta.meta(),
            has_purpose: self.has_purpose,
            has_owner: self.has_owner,
            has_type: self.has_type,
            history: text::views(self.history@),
        }
    }

    /// Takes in the value that the `p`th keyword has on a line.
    pub fn take_value(&mut self, p: usize, value: Option<String>)
        requires
            p < HEADER_PATTERN_COUNT,
            old(self).meta.wf(),
        ensures
            final(self).meta.wf(),
            final(self).state() == header_step(
                old(self).state(),
                p as int,
                ast_deps::option_view(value),
            ),
            final(self).meta.content@ == old(self).meta.content@,
            final(self).meta.content_hash@ == old(self).meta.content_hash@,
            final(self).meta.tags@ == old(self).meta.tags@,
            final(self).meta.entry_points@ == old(self).meta.entry_points@,
    {
        let (_, field, key) = header_pattern_of(p);
        let Some(v) = value else {
            return;
        };
        match field {
            HeaderField::History => {
                self.history.push(v);
                assert(text::views(self.history@) =~= old(self).state().history.push(v@));
            },
            HeaderField::Purpose => {
                if !self.has_purpose {
                    self.meta.set_field(key, FieldValue::Text(v.clone()));
                    self.meta.purpose = v;
                    self.has_purpose = true;
                }
            },
            HeaderField::Owner => {
                if !self.has_owner {
                    self.meta.set_field(key, FieldValue::Text(v.clone()));
                    self.meta.owner = v;
                    self.has_owner = true;
                }
            },
            HeaderField::ScriptType => {
                if !self.has_type {
                    self.meta.set_field(key, FieldValue::Text(v));
                    self.has_type = true;
                }
            },
        }
    }
}

/// The first lines of a header, without their comment marks.
fn scan_lines(header: &str) -> (lines: Vec<String>)
    ensures
        text::views(lines@) == scanned_lines(header@),
{
    let all: Vec<String> = split_lines(header);
    let n: usize = if all.len() < HEADER_SCAN_LINES {
        all.len()
    } else {
        HEADER_SCAN_LINES
    };
    let mut lines: Vec<String> = Vec::new();
    let mut i: usize = 0;
    let ghost target = scanned_lines(header@);
    assert(text::views(lines@) =~= target.take(0));
    while i < n
        invariant
            i <= n <= all@.len(),
            n == target.len(),
            text::views(all@) == text::lines(header@),
            target == scanned_lines(header@),
            text::views(lines@) == target.take(i as int),
        decreases n - i,
    {
        let ghost before = text::views(lines@);
        lines.push(strip_comment_prefix(all[i].as_str()));
        proof {
            assert(text::lines(header@)[i as int] == all@[i as int]@);
            assert(target[i as int] == comment_text(all@[i as int]@));
            assert(text::views(lines@) =~= before.push(target[i as int]));
            assert(text::views(lines@) =~= target.take(i + 1));
        }
        i = i + 1;
    }
    assert(target.take(n as int) =~= target);
    lines
}

/// Reads the single-line keywords of a header.
fn parse_keywords(header: &str, meta: ExtractedMetadata) -> (m: ExtractedMetadata)
    requires
        meta.wf(),
    ensures
        m.wf(),
        m.meta() == keyword_meta(meta.meta(), header@),
        m.content@ == meta.content@,
        m.content_hash@ == meta.content_hash@,
        m.tags@ == meta.tags@,
        m.entry_points@ == meta.entry_points@,
{
    let lines: Vec<String> = scan_lines(header);
    let mut values: Vec<Vec<Option<String>>> = Vec::new();
    let mut p: usize = 0;
    while p < HEADER_PATTERN_COUNT
        invariant
            p <= HEADER_PATTERN_COUNT,
            values@.len() == p,
            forall|q: int| 0 <= q < p ==> (#[trigger] values@[q])@.len() == lines@.len(),
            forall|q: int, i: int|
                0 <= q < p && 0 <= i < lines@.len() ==> ast_deps::option_view(
                    #[trigger] values@[q]@[i],
                ) == line_value(header_pattern(q).0, lines@[i]@),
        decreases HEADER_PATTERN_COUNT - p,
    {
        let (pattern, _, _) = header_pattern_of(p);
        values.push(line_values(pattern, &lines));
        p = p + 1;
    }
    let ghost views = text::views(lines@);
    let ghost content = meta.content@;
    let ghost hash = meta.content_hash@;
    let ghost tags = meta.tags@;
    let ghost entries = meta.entry_points@;
    let mut scan: HeaderScan = HeaderScan {
        meta,
        has_purpose: false,
        has_owner: false,
        has_type: false,
        history: Vec::new(),
    };
    let ghost st0 = scan.state();
    assert(st0.history =~= seq![]);
    let mut i: usize = 0;
    while i < lines.len()
        invariant
            i <= lines@.len(),
            views == text::views(lines@),
            scan.meta.wf(),
            values@.len() == HEADER_PATTERN_COUNT,
            forall|q: int|
                0 <= q < HEADER_PATTERN_COUNT ==> (#[trigger] values@[q])@.len() == lines@.len(),
            forall|q: int, k: int|
                0 <= q < HEADER_PATTERN_COUNT && 0 <= k < lines@.len() ==> ast_deps::option_view(
                    #[trigger] values@[q]@[k],
                ) == line_value(header_pattern(q).0, lines@[k]@),
            scan.state() == header_lines(st0, views, i as int),
            scan.meta.content@ == content,
            scan.meta.content_hash@ == hash,
            scan.meta.tags@ == tags,
            scan.meta.entry_points@ == entries,
        decreases lines@.len() - i,
    {
        let ghost st1 = scan.state();
        let mut p: usize = 0;
        while p < HEADER_PATTERN_COUNT
            invariant
                p <= HEADER_PATTERN_COUNT,
                i < lines@.len(),
                scan.meta.wf(),
                values@.len() == HEADER_PATTERN_COUNT,
                forall|q: int|
                    0 <= q < HEADER_PATTERN_COUNT ==> (#[trigger] values@[q])@.len()
                        == lines@.len(),
                forall|q: int, k: int|
                    0 <= q < HEADER_PATTERN_COUNT && 0 <= k < lines@.len()
                        ==> ast_deps::option_view(#[trigger] values@[q]@[k]) == line_value(
                        header_pattern(q).0,
                        lines@[k]@,
                    ),
                scan.state() == header_line(st1, lines@[i as int]@, p as int),
                scan.meta.content@ == content,
                scan.meta.content_hash@ == hash,
                scan.meta.tags@ == tags,
                scan.meta.entry_points@ == entries,
            decreases HEADER_PATTERN_COUNT - p,
        {
            let value: Option<String> = values[p][i].clone();
            assert(ast_deps::option_view(value) == line_value(
                header_pattern(p as int).0,
                lines@[i as int]@,
            ));
            scan.take_value(p, value);
            p = p + 1;
        }
        assert(views[i as int] == lines@[i as int]@);
        i = i + 1;
    }
    let mut m: ExtractedMetadata = scan.meta;
    if scan.history.len() > 0 {
        let entries: Vec<HistoryEntry> = parse_entries(&scan.history);
        m.set_field("history", FieldValue::List(scan.history));
        m.set_field("history_entries", FieldValue::Entries(entries));
    }
    m
}

/// What each history line says.
fn parse_entries(history: &Vec<String>) -> (entries: Vec<HistoryEntry>)
    ensures
        entry_views(entries@) == text::views(history@).map_values(
            |h: Seq<char>| history_view(h),
        ),
{
    let mut entries: Vec<HistoryEntry> = Vec::new();
    let mut i: usize = 0;
    let ghost target = text::views(history@).map_values(|h: Seq<char>| history_view(h));
    assert(entry_views(entries@) =~= target.take(0));
    while i < history.len()
        invariant
            i <= history@.len(),
            target == text::views(history@).map_values(|h: Seq<char>| history_view(h)),
            entry_views(entries@) == target.take(i as int),
        decreases history@.len() - i,
    {
        let ghost before = entry_views(entries@);
        entries.push(parse_history_entry(history[i].as_str()));
        proof {
            assert(target[i as int] == history_view(history@[i as int]@));
            assert(entry_views(entries@) =~= before.push(target[i as int]));
            assert(entry_views(entries@) =~= target.take(i + 1));
        }
        i = i + 1;
    }
    assert(target.take(i as int) =~= target);
    entries
}

// ---------------------------------------------------------------------------
// Related files
// ---------------------------------------------------------------------------

/// The number of related-file keywords.
pub const RELATED_PATTERN_COUNT: usize = 5;

/// The pattern and the key of the `i`th related-file keyword.
pub open spec fn related_pattern(i: int) -> (Seq<char>, Seq<char>) {
    if i == 0 {
        (r"(?i)@parentfile\s+(.+)"@, "parentfile"@)
    } else if i == 1 {
        (r"(?i)@childfile\s+(.+)"@, "childfile"@)
    } else if i == 2 {
        (r"(?i)@inputfile\s+(.+)"@, "inputfile"@)
    } else if i == 3 {
        (r"(?i)@outputfile\s+(.+)"@, "outputfile"@)
    } else {
        (r"(?i)@paramfile\s+(.+)"@, "paramfile"@)
    }
}

/// The pattern and the key of the `i`th related-file keyword.
fn related_pattern_of(i: usize) -> (r: (&'static str, &'static str))
    requires
        i < RELATED_PATTERN_COUNT,
    ensures
        (r.0@, r.1@) == related_pattern(i as int),
{
    match i {
        0 => (r"(?i)@parentfile\s+(.+)", "parentfile"),
        1 => (r"(?i)@childfile\s+(.+)", "childfile"),
        2 => (r"(?i)@inputfile\s+(.+)", "inputfile"),
        3 => (r"(?i)@outputfile\s+(.+)", "outputfile"),
        _ => (r"(?i)@paramfile\s+(.+)", "paramfile"),
    }
}

/// The metadata with one more related file: it is listed once among all of
/// them, and under its keyword every time.
pub open spec fn with_related(meta: MetaView, key: Seq<char>, value: Seq<char>) -> MetaView {
    let values = if meta.fields.contains_key(key) && meta.fields[key] is List {
        meta.fields[key]->List_0.push(value)
    } else {
        seq![value]
    };
    MetaView {
        related: text::with_text(meta.related, value),
        fields: meta.fields.insert(key, FieldView::List(values)),
        ..meta
    }
}

/// The metadata after the first `n` related-file keywords were tried on
/// `line`.
pub open spec fn related_line(meta: MetaView, line: Seq<char>, n: int) -> MetaView
    decreases n,
{
    if n <= 0 {
        meta
    } else {
        let before = related_line(meta, line, n - 1);
        match line_value(related_pattern(n - 1).0, line) {
            Some(v) => with_related(before, related_pattern(n - 1).1, v),
            None => before,
        }
    }
}

/// The metadata after the related-file keywords of the first `n` lines.
pub open spec fn related_lines(meta: MetaView, lines: Seq<Seq<char>>, n: int) -> MetaView
    decreases n,
{
    if n <= 0 {
        meta
    } else {
        related_line(
            related_lines(meta, lines, n - 1),
            lines[n - 1],
            RELATED_PATTERN_COUNT as int,
        )
    }
}

impl ExtractedMetadata {
    /// Adds a related file that the header declares.
    pub fn add_related(&mut self, key: &str, value: String)
        requires
            old(self).wf(),
        ensures
            final(self).wf(),
            final(self).meta() == with_related(old(self).meta(), key@, value@),
            final(self).content@ == old(self).content@,
            final(self).content_hash@ == old(self).content_hash@,
            final(self).tags@ == old(self).tags@,
            final(self).entry_points@ == old(self).entry_points@,
    {
        let mut list: Vec<String> = match self.fields.get(key) {
            Some(FieldValue::List(v)) => copy_texts(v),
            _ => Vec::new(),
        };
        proof {
            let fields = self.meta().fields;
            if fields.contains_key(key@) && fields[key@] is List {
                assert(fields[key@] == self.fields@[key@]@);
                assert(text::views(list@) == fields[key@]->List_0);
            } else {
                if self.fields@.contains_key(key@) {
                    assert(fields.contains_key(key@));
                    assert(fields[key@] == self.fields@[key@]@);
                }
                assert(text::views(list@) =~= seq![]);
            }
        }
        let ghost l0 = text::views(list@);
        list.push(value.clone());
        assert(text::views(list@) =~= l0.push(value@));
        assert(seq![].push(value@) =~= seq![value@]);
        push_unique(&mut self.related, value);
        self.set_field(key, FieldValue::List(list));
    }
}

/// A copy of a list of texts.
pub fn copy_texts(v: &Vec<String>) -> (r: Vec<String>)
    ensures
        text::views(r@) == text::views(v@),
{
    let mut r: Vec<String> = Vec::new();
    let mut i: usize = 0;
    assert(text::views(r@) =~= text::views(v@).take(0));
    while i < v.len()
        invariant
            i <= v@.len(),
            text::views(r@) == text::views(v@).take(i as int),
        decreases v@.len() - i,
    {
        let ghost before = text::views(r@);
        r.push(v[i].clone());
        assert(text::views(r@) =~= before.push(v@[i as int]@));
        i = i + 1;
        assert(text::views(r@) =~= text::views(v@).take(i as int));
    }
    assert(text::views(v@).take(i as int) =~= text::views(v@));
    r
}

/// Parse the `@parentfile`/`@childfile`/`@inputfile`/`@outputfile`/
/// `@paramfile` header keywords: paths of other managed scripts that the author
/// declares. Each may stand on several lines, and every one is kept, in the
/// order of the lines.
fn parse_related_file_keywords(header: &str, meta: &mut ExtractedMetadata)
    requires
        old(meta).wf(),
    ensures
        final(meta).wf(),
        final(meta).meta() == related_lines(
            old(meta).meta(),
            scanned_lines(header@),
            scanned_lines(header@).len() as int,
        ),
        final(meta).content@ == old(meta).content@,
        final(meta).content_hash@ == old(meta).content_hash@,
        final(meta).tags@ == old(meta).tags@,
        final(meta).entry_points@ == old(meta).entry_points@,
{
    let lines: Vec<String> = scan_lines(header);
    let mut values: Vec<Vec<Option<String>>> = Vec::new();
    let mut p: usize = 0;
    while p < RELATED_PATTERN_COUNT
        invariant
            p <= RELATED_PATTERN_COUNT,
            values@.len() == p,
            forall|q: int| 0 <= q < p ==> (#[trigger] values@[q])@.len() == lines@.len(),
            forall|q: int, i: int|
                0 <= q < p && 0 <= i < lines@.len() ==> ast_deps::option_view(
                    #[trigger] values@[q]@[i],
                ) == line_value(related_pattern(q).0, lines@[i]@),
        decreases RELATED_PATTERN_COUNT - p,
    {
        let (pattern, _) = related_pattern_of(p);
        values.push(line_values(pattern, &lines));
        p = p + 1;
    }
    let ghost views = text::views(lines@);
    let ghost m0 = meta.meta();
    let ghost content = meta.content@;
    let ghost hash = meta.content_hash@;
    let ghost tags = meta.tags@;
    let ghost entries = meta.entry_points@;
    let mut i: usize = 0;
    while i < lines.len()
        invariant
            i <= lines@.len(),
            views == text::views(lines@),
            meta.wf(),
            values@.len() == RELATED_PATTERN_COUNT,
            forall|q: int|
                0 <= q < RELATED_PATTERN_COUNT ==> (#[trigger] values@[q])@.len() == lines@.len(),
            forall|q: int, k: int|
                0 <= q < RELATED_PATTERN_COUNT && 0 <= k < lines@.len() ==> ast_deps::option_view(
                    #[trigger] values@[q]@[k],
                ) == line_value(related_pattern(q).0, lines@[k]@),
            meta.meta() == related_lines(m0, views, i as int),
            meta.content@ == content,
            meta.content_hash@ == hash,
            meta.tags@ == tags,
            meta.entry_points@ == entries,
        decreases lines@.len() - i,
    {
        let ghost m1 = meta.meta();
        let mut p: usize = 0;
        while p < RELATED_PATTERN_COUNT
            invariant
                p <= RELATED_PATTERN_COUNT,
                i < lines@.len(),
                meta.wf(),
                values@.len() == RELATED_PATTERN_COUNT,
                forall|q: int|
                    0 <= q < RELATED_PATTERN_COUNT ==> (#[trigger] values@[q])@.len()
                        == lines@.len(),
                forall|q: int, k: int|
                    0 <= q < RELATED_PATTERN_COUNT && 0 <= k < lines@.len()
                        ==> ast_deps::option_view(#[trigger] values@[q]@[k]) == line_value(
                        related_pattern(q).0,
                        lines@[k]@,
                    ),
                meta.meta() == related_line(m1, lines@[i as int]@, p as int),
                meta.content@ == content,
                meta.content_hash@ == hash,
                meta.tags@ == tags,
                meta.entry_points@ == entries,
            decreases RELATED_PATTERN_COUNT - p,
        {
            let value: Option<String> = values[p][i].clone();
            assert(ast_deps::option_view(value) == line_value(
                related_pattern(p as int).0,
                lines@[i as int]@,
            ));
            let (_, key) = related_pattern_of(p);
            if let Some(v) = value {
                meta.add_related(key, v);
            }
            p = p + 1;
        }
        assert(views[i as int] == lines@[i as int]@);
        i = i + 1;
    }
}

// ---------------------------------------------------------------------------
// Block keywords
// ---------------------------------------------------------------------------

/// How far into the header a block keyword's opening marker is looked for.
pub const BLOCK_KEYWORD_SCAN_LINES: usize = 200;

/// Longest a block may run before its closing marker must appear.
pub const BLOCK_KEYWORD_MAX_LINES: usize = 200;

/// The text of a line without comment marks, however often the mark is
/// repeated (`## @usage`).
pub open spec fn marker_text(line: Seq<char>) -> Seq<char> {
    text::trim(text::strip_leading(comment_text(line), |c: char| c == '#'))
}

/// Whether the whole text of `line` is `marker`, in any case of its letters.
pub open spec fn is_marker(line: Seq<char>, marker: Seq<char>) -> bool {
    text::ascii_lower(marker_text(line)) == text::ascii_lower(marker)
}

/// The text of a line without comment marks, however often the mark is
/// repeated.
fn text_of_marker(line: &str) -> (s: String)
    ensures
        s@ == marker_text(line@),
{
    let stripped: String = strip_comment_prefix(line);
    let v: Vec<char> = chars_of(stripped.as_str());
    let ghost mark = |c: char| c == '#';
    let mut a: usize = 0;
    assert(v@.skip(0) =~= v@);
    while a < v.len() && v[a] == '#'
        invariant
            a <= v@.len(),
            mark == |c: char| c == '#',
            text::strip_leading(v@.skip(a as int), mark) == text::strip_leading(v@, mark),
        decreases v@.len() - a,
    {
        assert(v@.skip(a as int).drop_first() =~= v@.skip(a + 1));
        a = a + 1;
    }
    assert(v@.subrange(a as int, v@.len() as int) =~= v@.skip(a as int));
    let rest: String = slice_text(&v, a, v.len());
    trimmed(rest.as_str())
}

/// The index of the first of `lines[i..to]` that is `marker`.
pub open spec fn marker_from(lines: Seq<Seq<char>>, i: int, to: int, marker: Seq<char>) -> Option<
    int,
>
    decreases to - i,
{
    if 0 <= i < to && i < lines.len() {
        if is_marker(lines[i], marker) {
            Some(i)
        } else {
            marker_from(lines, i + 1, to, marker)
        }
    } else {
        None
    }
}

/// The lines between the markers `open` and `close`, without their comment
/// marks; `None` where one of the markers is not found within its bound.
pub open spec fn block_lines(content: Seq<char>, open: Seq<char>, close: Seq<char>) -> Option<
    Seq<Seq<char>>,
> {
    let lines = text::lines(content);
    match marker_from(lines, 0, BLOCK_KEYWORD_SCAN_LINES as int, open) {
        Some(start) => match marker_from(
            lines,
            start + 1,
            start + 1 + BLOCK_KEYWORD_MAX_LINES,
            close,
        ) {
            Some(end) => Some(
                lines.subrange(start + 1, end).map_values(|l: Seq<char>| comment_text(l)),
            ),
            None => None,
        },
        None => None,
    }
}

/// The index of the first of `lines[from..to]` that is `marker`.
fn find_marker(lines: &Vec<String>, from: usize, to: usize, marker: &str) -> (r: Option<usize>)
    ensures
        match r {
            Some(i) => marker_from(text::views(lines@), from as int, to as int, marker@) == Some(
                i as int,
            ) && from <= i < lines@.len(),
            None => marker_from(text::views(lines@), from as int, to as int, marker@) is None,
        },
{
    let want: String = lowered(marker);
    let ghost all = text::views(lines@);
    let mut i: usize = from;
    while i < to && i < lines.len()
        invariant
            from <= i,
            all == text::views(lines@),
            want@ == text::ascii_lower(marker@),
            marker_from(all, i as int, to as int, marker@) == marker_from(
                all,
                from as int,
                to as int,
                marker@,
            ),
        decreases lines@.len() - i,
    {
        let line: String = text_of_marker(lines[i].as_str());
        let low: String = lowered(line.as_str());
        assert(all[i as int] == lines@[i as int]@);
        if same_text(low.as_str(), want.as_str()) {
            return Some(i);
        }
        i = i + 1;
    }
    None
}

/// Parse one `@open .. @close` block keyword (such as `@usage`/`@endusage`),
/// returning its lines without comment marks, blank ones kept. A marker is the
/// whole text of its line, in any case: `## @usage` opens, `## some usage text`
/// does not. A block that is not closed within its bound is no block.
pub fn parse_block_keyword(content: &str, open: &str, close: &str) -> (r: Option<Vec<String>>)
    ensures
        match r {
            Some(v) => block_lines(content@, open@, close@) == Some(text::views(v@)),
            None => block_lines(content@, open@, close@) is None,
        },
{
    let lines: Vec<String> = split_lines(content);
    let Some(start) = find_marker(&lines, 0, BLOCK_KEYWORD_SCAN_LINES, open) else {
        return None;
    };
    assert(start < BLOCK_KEYWORD_SCAN_LINES) by {
        lemma_marker_bound(text::views(lines@), 0, BLOCK_KEYWORD_SCAN_LINES as int, open@);
    }
    let Some(end) = find_marker(&lines, start + 1, start + 1 + BLOCK_KEYWORD_MAX_LINES, close) else {
        return None;
    };
    let mut collected: Vec<String> = Vec::new();
    let ghost target = text::views(lines@).subrange(start + 1, end as int).map_values(
        |l: Seq<char>| comment_text(l),
    );
    let mut i: usize = start + 1;
    assert(text::views(collected@) =~= target.take(0));
    while i < end
        invariant
            start + 1 <= i <= end < lines@.len(),
            target == text::views(lines@).subrange(start + 1, end as int).map_values(
                |l: Seq<char>| comment_text(l),
            ),
            text::views(collected@) == target.take(i - start - 1),
        decreases end - i,
    {
        let ghost before = text::views(collected@);
        collected.push(strip_comment_prefix(lines[i].as_str()));
        proof {
            let k = i - start - 1;
            assert(target[k] == comment_text(lines@[i as int]@));
            assert(text::views(collected@) =~= before.push(target[k]));
            assert(text::views(collected@) =~= target.take(k + 1));
        }
        i = i + 1;
    }
    assert(target.take(target.len() as int) =~= target);
    Some(collected)
}

/// A marker is found within its bound.
proof fn lemma_marker_bound(lines: Seq<Seq<char>>, i: int, to: int, marker: Seq<char>)
    ensures
        match marker_from(lines, i, to, marker) {
            Some(k) => i <= k < to && k < lines.len() && is_marker(lines[k], marker),
            None => true,
        },
    decreases to - i,
{
    if 0 <= i < to && i < lines.len() && !is_marker(lines[i], marker) {
        lemma_marker_bound(lines, i + 1, to, marker);
    }
}

/// The first line that is not empty.
pub open spec fn first_filled(lines: Seq<Seq<char>>, i: int) -> Option<Seq<char>>
    decreases lines.len() - i,
{
    if 0 <= i < lines.len() {
        if lines[i].len() > 0 {
            Some(lines[i])
        } else {
            first_filled(lines, i + 1)
        }
    } else {
        None
    }
}

/// The metadata with the `@usage` block.
pub open spec fn with_usage(meta: MetaView, header: Seq<char>) -> MetaView {
    match block_lines(header, "@usage"@, "@endusage"@) {
        Some(lines) => MetaView {
            fields: meta.fields.insert("usage"@, FieldView::Text(text::join(lines, "\n"@))),
            ..meta
        },
        None => meta,
    }
}

/// The metadata with the `@description` block, whose first line with text is
/// the purpose where there is no other.
pub open spec fn with_description(meta: MetaView, header: Seq<char>) -> MetaView {
    match block_lines(header, "@description"@, "@enddescription"@) {
        Some(lines) => MetaView {
            purpose: if meta.purpose.len() == 0 && first_filled(lines, 0) is Some {
                first_filled(lines, 0).unwrap()
            } else {
                meta.purpose
            },
            fields: meta.fields.insert("description"@, FieldView::Text(text::join(lines, "\n"@))),
            ..meta
        },
        None => meta,
    }
}

/// The first text that is not empty.
fn find_filled(lines: &Vec<String>) -> (r: Option<String>)
    ensures
        ast_deps::option_view(r) == first_filled(text::views(lines@), 0),
{
    let mut i: usize = 0;
    let ghost all = text::views(lines@);
    while i < lines.len()
        invariant
            i <= lines@.len(),
            all == text::views(lines@),
            first_filled(all, i as int) == first_filled(all, 0),
        decreases lines@.len() - i,
    {
        assert(all[i as int] == lines@[i as int]@);
        if !lines[i].as_str().is_empty() {
            return Some(lines[i].clone());
        }
        i = i + 1;
    }
    None
}

/// Parse the `@usage` and `@description` blocks, each into one text of several
/// lines.
fn parse_block_keywords(header: &str, meta: &mut ExtractedMetadata)
    requires
        old(meta).wf(),
    ensures
        final(meta).wf(),
        final(meta).meta() == with_description(with_usage(old(meta).meta(), header@), header@),
        final(meta).content@ == old(meta).content@,
        final(meta).content_hash@ == old(meta).content_hash@,
        final(meta).tags@ == old(meta).tags@,
        final(meta).entry_points@ == old(meta).entry_points@,
{
    if let Some(lines) = parse_block_keyword(header, "@usage", "@endusage") {
        meta.set_field("usage", FieldValue::Text(join_texts(&lines, "\n")));
    }
    if let Some(lines) = parse_block_keyword(header, "@description", "@enddescription") {
        if meta.purpose.as_str().is_empty() {
            if let Some(first) = find_filled(&lines) {
                meta.purpose = first;
            }
        }
        meta.set_field("description", FieldValue::Text(join_texts(&lines, "\n")));
    }
}

/// What the header of a script declares.
pub open spec fn header_meta(meta: MetaView, content: Seq<char>) -> MetaView {
    let header = header_of(content);
    let lines = scanned_lines(header);
    let related = related_lines(keyword_meta(meta, header), lines, lines.len() as int);
    with_description(with_usage(related, header), header)
}

/// Reads all that the header comments of `content` declare.
pub fn parse_header_comments(content: &str, meta: ExtractedMetadata) -> (m: ExtractedMetadata)
    requires
        meta.wf(),
    ensures
        m.wf(),
        m.meta() == header_meta(meta.meta(), content@),
        m.content@ == meta.content@,
        m.content_hash@ == meta.content_hash@,
        m.tags@ == meta.tags@,
        m.entry_points@ == meta.entry_points@,
{
    let header: String = leading_comment_block(content);
    let mut m: ExtractedMetadata = parse_keywords(header.as_str(), meta);
    parse_related_file_keywords(header.as_str(), &mut m);
    parse_block_keywords(header.as_str(), &mut m);
    m
}

// ---------------------------------------------------------------------------
// Python docstrings
// ---------------------------------------------------------------------------

pub const DOCSTRING_PATTERN: &'static str = "(?s)^\\s*(?:\"\"\"(.*?)\"\"\"|'''(.*?)''')";

/// The first line of the docstring that a match found, trimmed; `None` where
/// it is empty.
pub open spec fn docstring_line(found: Option<Seq<Option<Seq<char>>>>) -> Option<Seq<char>> {
    match found {
        Some(groups) => {
            let doc = text::trim(
                if groups.len() > 1 && groups[1] is Some {
                    groups[1].unwrap()
                } else if groups.len() > 2 && groups[2] is Some {
                    groups[2].unwrap()
                } else {
                    seq![]
                },
            );
            let lines = text::lines(doc);
            if lines.len() > 0 && text::trim(lines[0]).len() > 0 {
                Some(text::trim(lines[0]))
            } else {
                None
            }
        },
        None => None,
    }
}

/// The metadata with the docstring as purpose, where there is no other.
pub open spec fn with_docstring(meta: MetaView, found: Option<Seq<Option<Seq<char>>>>) -> MetaView {
    if meta.purpose.len() > 0 || docstring_line(found) is None {
        meta
    } else {
        let first = docstring_line(found).unwrap();
        MetaView {
            purpose: first,
            fields: meta.fields.insert("docstring"@, FieldView::Text(first)),
            ..meta
        }
    }
}

/// The first line of the docstring that a match found.
pub fn docstring_of_match(found: &Option<Groups>) -> (line: Option<String>)
    ensures
        ast_deps::option_view(line) == docstring_line(patterns::match_view(*found)),
{
    match found {
        Some(groups) => {
            let ghost views = patterns::group_views(groups@);
            let mut doc: String = String::new();
            let mut taken: bool = false;
            if groups.len() > 1 {
                assert(views[1] == match groups@[1] {
                    Some(s) => Some(s@),
                    None => None,
                });
                if let Some(raw) = &groups[1] {
                    doc = raw.clone();
                    taken = true;
                }
            }
            if !taken && groups.len() > 2 {
                assert(views[2] == match groups@[2] {
                    Some(s) => Some(s@),
                    None => None,
                });
                if let Some(raw) = &groups[2] {
                    doc = raw.clone();
                }
            }
            let doc: String = trimmed(doc.as_str());
            let lines: Vec<String> = split_lines(doc.as_str());
            if lines.len() > 0 {
                assert(text::lines(doc@)[0] == lines@[0]@);
                non_empty(trimmed(lines[0].as_str()))
            } else {
                None
            }
        },
        None => None,
    }
}

/// Takes the purpose from the docstring that a match found, where the header
/// gave none.
pub fn take_docstring(found: &Option<Groups>, meta: &mut ExtractedMetadata)
    requires
        old(meta).wf(),
    ensures
        final(meta).wf(),
        final(meta).meta() == with_docstring(old(meta).meta(), patterns::match_view(*found)),
        final(meta).content@ == old(meta).content@,
        final(meta).content_hash@ == old(meta).content_hash@,
        final(meta).tags@ == old(meta).tags@,
        final(meta).entry_points@ == old(meta).entry_points@,
{
    if !meta.purpose.as_str().is_empty() {
        return;
    }
    if let Some(first) = docstring_of_match(found) {
        meta.purpose = first.clone();
        meta.set_field("docstring", FieldValue::Text(first));
    }
}

/// Takes the purpose from the docstring of a Python source, where the header
/// gave none.
pub fn parse_python_docstring(content: &str, meta: &mut ExtractedMetadata)
    requires
        old(meta).wf(),
    ensures
        final(meta).wf(),
        final(meta).meta() == with_docstring(
            old(meta).meta(),
            patterns::regex_captures(DOCSTRING_PATTERN@, content@),
        ),
        final(meta).content@ == old(meta).content@,
        final(meta).content_hash@ == old(meta).content_hash@,
        final(meta).tags@ == old(meta).tags@,
        final(meta).entry_points@ == old(meta).entry_points@,
{
    let found: Option<Groups> = captures_of(DOCSTRING_PATTERN, content);
    take_docstring(&found, meta);
}

// ---------------------------------------------------------------------------
// Digests
// ---------------------------------------------------------------------------

/// The SHA-256 digest of some bytes.
pub uninterp spec fn sha256(bytes: Seq<u8>) -> Seq<u8>;

/// The lower-case hexadecimal digit `d`.
pub open spec fn hex_digit(d: u8) -> char {
    if d < 10 {
        (48 + d) as char
    } else {
        (87 + d) as char
    }
}

/// The lower-case hexadecimal notation of some bytes, two digits for each.
pub open spec fn hex_text(bytes: Seq<u8>) -> Seq<char> {
    Seq::new(
        2 * bytes.len(),
        |i: int|
            if i % 2 == 0 {
                hex_digit(bytes[i / 2] / 16)
            } else {
                hex_digit(bytes[i / 2] % 16)
            },
    )
}

/// `Sha256::digest` of the `sha2` crate: the 32 bytes of the digest.
#[verifier::external_body]
fn sha256_digest(bytes: &[u8]) -> (digest: Vec<u8>)
    ensures
        digest@ == sha256(bytes@),
        digest@.len() == 32,
{
    <sha2::Sha256 as sha2::Digest>::digest(bytes).to_vec()
}

/// `hex::encode`: two lower-case hexadecimal digits for each byte.
#[verifier::external_body]
fn hex_encode(bytes: &Vec<u8>) -> (s: String)
    ensures
        s@ == hex_text(bytes@),
{
    hex::encode(bytes)
}

/// SHA-256 hex digest of `bytes`.
pub fn hash_bytes(bytes: &[u8]) -> (s: String)
    ensures
        s@ == hex_text(sha256(bytes@)),
        s@.len() == 64,
{
    let digest: Vec<u8> = sha256_digest(bytes);
    hex_encode(&digest)
}

// ---------------------------------------------------------------------------
// The whole file
// ---------------------------------------------------------------------------

/// What a script of the given language declares.
pub open spec fn script_meta(language: Seq<char>, content: Seq<char>) -> MetaView {
    let header = header_meta(no_meta(), content);
    if language == "python"@ {
        with_docstring(header, patterns::regex_captures(DOCSTRING_PATTERN@, content))
    } else {
        header
    }
}

/// The text of some bytes: what is not UTF-8 in them is replaced.
pub uninterp spec fn lossy_text(bytes: Seq<u8>) -> Seq<char>;

/// `String::from_utf8_lossy`: bytes that are UTF-8 give the text they encode.
#[verifier::external_body]
fn text_of_bytes(bytes: &[u8]) -> (s: String)
    ensures
        s@ == lossy_text(bytes@),
        vstd::utf8::valid_utf8(bytes@) ==> s@ == vstd::utf8::decode_utf8(bytes@),
{
    String::from_utf8_lossy(bytes).into_owned()
}

/// The metadata of a script whose text is `content` and whose raw bytes are
/// `bytes`.
pub fn extract_text(language: &str, content: String, bytes: &[u8]) -> (m: ExtractedMetadata)
    ensures
        m.wf(),
        m.meta() == script_meta(language@, content@),
        m.content@ == content@,
        m.content_hash@ == hex_text(sha256(bytes@)),
        m.tags@.len() == 0,
        m.entry_points@.len() == 0,
{
    let mut m: ExtractedMetadata = parse_header_comments(
        content.as_str(),
        ExtractedMetadata::empty(),
    );
    if same_text(language, "python") {
        parse_python_docstring(content.as_str(), &mut m);
    }
    m.content = content;
    m.content_hash = hash_bytes(bytes);
    m
}

/// Extract structured metadata from the raw bytes of a script. The digest is
/// that of the bytes themselves, not of the text read from them.
pub fn extract(language: &str, bytes: &[u8]) -> (m: ExtractedMetadata)
    ensures
        m.wf(),
        m.meta() == script_meta(language@, lossy_text(bytes@)),
        m.content@ == lossy_text(bytes@),
        m.content_hash@ == hex_text(sha256(bytes@)),
        m.tags@.len() == 0,
        m.entry_points@.len() == 0,
{
    let content: String = text_of_bytes(bytes);
    extract_text(language, content, bytes)
}

// ---------------------------------------------------------------------------
// Laws
// ---------------------------------------------------------------------------

/// The first value of a field wins: once a header has an owner, no later line
/// changes it.
pub proof fn law_first_owner_wins(st: HeaderState, lines: Seq<Seq<char>>, n: int)
    requires
        st.has_owner,
    ensures
        header_lines(st, lines, n).has_owner,
        header_lines(st, lines, n).meta.owner == st.meta.owner,
    decreases n,
{
    if n > 0 {
        law_first_owner_wins(st, lines, n - 1);
        lemma_owner_kept(
            header_lines(st, lines, n - 1),
            lines[n - 1],
            HEADER_PATTERN_COUNT as int,
        );
    }
}

/// No keyword on a line changes an owner that is set.
proof fn lemma_owner_kept(st: HeaderState, line: Seq<char>, n: int)
    requires
        st.has_owner,
    ensures
        header_line(st, line, n).has_owner,
        header_line(st, line, n).meta.owner == st.meta.owner,
    decreases n,
{
    if n > 0 {
        lemma_owner_kept(st, line, n - 1);
    }
}

/// The first value of a field wins: once a header has a purpose, no later line
/// changes it.
pub proof fn law_first_purpose_wins(st: HeaderState, lines: Seq<Seq<char>>, n: int)
    requires
        st.has_purpose,
    ensures
        header_lines(st, lines, n).has_purpose,
        header_lines(st, lines, n).meta.purpose == st.meta.purpose,
    decreases n,
{
    if n > 0 {
        law_first_purpose_wins(st, lines, n - 1);
        lemma_purpose_kept(
            header_lines(st, lines, n - 1),
            lines[n - 1],
            HEADER_PATTERN_COUNT as int,
        );
    }
}

/// No keyword on a line changes a purpose that is set.
proof fn lemma_purpose_kept(st: HeaderState, line: Seq<char>, n: int)
    requires
        st.has_purpose,
    ensures
        header_line(st, line, n).has_purpose,
        header_line(st, line, n).meta.purpose == st.meta.purpose,
    decreases n,
{
    if n > 0 {
        lemma_purpose_kept(st, line, n - 1);
    }
}

/// Neither a description block nor a docstring changes a purpose that the
/// header's keywords gave.
pub proof fn law_purpose_is_not_overwritten(
    meta: MetaView,
    header: Seq<char>,
    found: Option<Seq<Option<Seq<char>>>>,
)
    requires
        meta.purpose.len() > 0,
    ensures
        with_description(with_usage(meta, header), header).purpose == meta.purpose,
        with_docstring(meta, found).purpose == meta.purpose,
{
}

/// The related files of a header are listed once each.
pub proof fn law_related_files_are_unique(meta: MetaView, lines: Seq<Seq<char>>, n: int)
    requires
        meta.related.no_duplicates(),
    ensures
        related_lines(meta, lines, n).related.no_duplicates(),
    decreases n,
{
    if n > 0 {
        law_related_files_are_unique(meta, lines, n - 1);
        lemma_related_line_unique(
            related_lines(meta, lines, n - 1),
            lines[n - 1],
            RELATED_PATTERN_COUNT as int,
        );
    }
}

/// One line keeps the related files unique.
proof fn lemma_related_line_unique(meta: MetaView, line: Seq<char>, n: int)
    requires
        meta.related.no_duplicates(),
    ensures
        related_line(meta, line, n).related.no_duplicates(),
    decreases n,
{
    if n > 0 {
        lemma_related_line_unique(meta, line, n - 1);
    }
}

// ---------------------------------------------------------------------------
// What a header says
// ---------------------------------------------------------------------------

/// A comment says what stands behind its mark, `#`, `//` or `<#`, white space
/// aside; a line without a mark says itself, and white space before it makes no
/// difference.
pub proof fn law_comments_say_what_follows_their_mark(said: Seq<char>, line: Seq<char>, blank: char)
    requires
        text::is_white(blank),
    ensures
        comment_text("#"@ + said) == text::trim(said),
        said.len() == 0 || said[0] != '#' ==> comment_text("//"@ + said) == text::trim(said),
        said.len() == 0 || said[0] != '#' && said[0] != '/' ==> comment_text("<#"@ + said)
            == text::trim(said),
        comment_text(seq![blank] + line) == comment_text(line),
        comment_text(line.push(blank)) == comment_text(line),
        ({
            let s = text::trim(line);
            s.len() == 0 || s[0] != '#' && s[0] != '/' && s[0] != '<' ==> comment_text(line) == s
        }),
{
    reveal_strlit("#");
    reveal_strlit("//");
    reveal_strlit("<#");
    text::lemma_trim_of_trim_end(said);
    let end = text::trim_end(said);
    lemma_trim_end_start(said);
    // One mark.
    let a = "#"@ + said;
    assert(a =~= seq!['#'] + said);
    text::lemma_trim_end_behind('#', said);
    assert(text::trim(a) == seq!['#'] + end);
    let ta = text::trim(a);
    assert(!"<#"@.is_prefix_of(ta)) by {
        assert(ta[0] != "<#"@[0]);
    }
    assert(!"//"@.is_prefix_of(ta)) by {
        assert(ta[0] != "//"@[0]);
    }
    assert("#"@.is_prefix_of(ta)) by {
        assert(ta.take(1) =~= "#"@);
    }
    assert(ta.skip(1) =~= end);
    // Two slashes.
    let b = "//"@ + said;
    assert(b =~= seq!['/'] + (seq!['/'] + said));
    text::lemma_trim_end_behind('/', said);
    text::lemma_trim_end_behind('/', seq!['/'] + said);
    let tb = text::trim(b);
    assert(tb =~= "//"@ + end);
    assert(!"<#"@.is_prefix_of(tb)) by {
        assert(tb[0] != "<#"@[0]);
    }
    assert("//"@.is_prefix_of(tb)) by {
        assert(tb.take(2) =~= "//"@);
    }
    assert(tb.skip(2) =~= end);
    if said.len() == 0 || said[0] != '#' {
        assert(!"#"@.is_prefix_of(end)) by {
            if end.len() > 0 {
                assert(end[0] != "#"@[0]);
            }
        }
    }
    // The mark of a block.
    let c = "<#"@ + said;
    assert(c =~= seq!['<'] + (seq!['#'] + said));
    text::lemma_trim_end_behind('<', seq!['#'] + said);
    let tc = text::trim(c);
    assert(tc =~= "<#"@ + end);
    assert("<#"@.is_prefix_of(tc)) by {
        assert(tc.take(2) =~= "<#"@);
    }
    assert(tc.skip(2) =~= end);
    if said.len() == 0 || said[0] != '#' && said[0] != '/' {
        assert(!"//"@.is_prefix_of(end)) by {
            if end.len() > 0 {
                assert(end[0] != "//"@[0]);
            }
        }
    }
    // White space around.
    text::lemma_trim_behind(blank, line);
    text::lemma_trim_push(line, blank);
    // No mark.
    let s = text::trim(line);
    text::lemma_trim_twice(line);
    if s.len() == 0 || s[0] != '#' && s[0] != '/' && s[0] != '<' {
        assert(!"<#"@.is_prefix_of(s)) by {
            if s.len() > 0 {
                assert(s[0] != "<#"@[0]);
            }
        }
        assert(!"//"@.is_prefix_of(s)) by {
            if s.len() > 0 {
                assert(s[0] != "//"@[0]);
            }
        }
        assert(!"#"@.is_prefix_of(s)) by {
            if s.len() > 0 {
                assert(s[0] != "#"@[0]);
            }
        }
    }
}

/// What is left without white space at the end starts as the text does.
proof fn lemma_trim_end_start(s: Seq<char>)
    ensures
        text::trim_end(s).len() > 0 ==> s.len() > 0 && text::trim_end(s)[0] == s[0],
    decreases s.len(),
{
    if s.len() > 0 && text::is_white(s.last()) {
        lemma_trim_end_start(s.drop_last());
    }
}

/// A line is a comment exactly where its text starts with `#`, `//` or `<#`.
pub proof fn law_comments_start_with_a_mark(said: Seq<char>, line: Seq<char>, blank: char)
    requires
        text::is_white(blank),
    ensures
        is_comment("#"@ + said),
        is_comment("//"@ + said),
        is_comment("<#"@ + said),
        is_comment(seq![blank] + line) == is_comment(line),
        line.len() > 0 && !text::is_white(line[0]) ==> (is_comment(line) <==> line[0] == '#'
            || line.len() > 1 && line[0] == '/' && line[1] == '/' || line.len() > 1 && line[0]
            == '<' && line[1] == '#'),
        !is_comment(seq![]),
{
    reveal_strlit("#");
    reveal_strlit("//");
    reveal_strlit("<#");
    let a = "#"@ + said;
    let b = "//"@ + said;
    let c = "<#"@ + said;
    assert(a.take(1) =~= "#"@);
    assert(b.take(2) =~= "//"@);
    assert(c.take(2) =~= "<#"@);
    assert(text::trim_start(a) == a);
    assert(text::trim_start(b) == b);
    assert(text::trim_start(c) == c);
    text::lemma_trim_behind(blank, line);
    if line.len() > 0 && !text::is_white(line[0]) {
        assert(text::trim_start(line) == line);
        if line[0] == '#' {
            assert(line.take(1) =~= "#"@);
        }
        if line.len() > 1 && line[0] == '/' && line[1] == '/' {
            assert(line.take(2) =~= "//"@);
        }
        if line.len() > 1 && line[0] == '<' && line[1] == '#' {
            assert(line.take(2) =~= "<#"@);
        }
        if "#"@.is_prefix_of(line) {
            assert(line[0] == "#"@[0]);
        }
        if "//"@.is_prefix_of(line) {
            assert(line[0] == "//"@[0] && line[1] == "//"@[1]);
        }
        if "<#"@.is_prefix_of(line) {
            assert(line[0] == "<#"@[0] && line[1] == "<#"@[1]);
        }
    }
}

/// The header of a script are its first lines up to the first that is no
/// comment.
pub proof fn law_the_header_ends_at_the_first_other_line(lines: Seq<Seq<char>>)
    ensures
        ({
            let header = leading_comments(lines);
            let n = header.len() as int;
            &&& n <= lines.len()
            &&& header == lines.take(n)
            &&& forall|i: int| 0 <= i < n ==> is_comment(#[trigger] lines[i])
            &&& n < lines.len() ==> !is_comment(lines[n])
        }),
    decreases lines.len(),
{
    if lines.len() > 0 && is_comment(lines[0]) {
        let rest = lines.drop_first();
        law_the_header_ends_at_the_first_other_line(rest);
        let inner = leading_comments(rest);
        let m = inner.len() as int;
        assert(leading_comments(lines) =~= lines.take(m + 1)) by {
            assert forall|i: int| 0 < i < m + 1 implies leading_comments(lines)[i] == lines[i] by {
                assert(inner[i - 1] == rest[i - 1]);
            }
        }
        assert forall|i: int| 0 <= i < m + 1 implies is_comment(#[trigger] lines[i]) by {
            if i > 0 {
                assert(is_comment(rest[i - 1]));
            }
        }
        if m + 1 < lines.len() {
            assert(rest[m] == lines[m + 1]);
        }
    } else {
        assert(leading_comments(lines) =~= lines.take(0));
    }
}

/// The first forty lines of a header are read for keywords.
pub proof fn law_forty_lines_are_read(header: Seq<char>, i: int)
    requires
        0 <= i < text::lines(header).len(),
    ensures
        i < 40 ==> i < scanned_lines(header).len() && scanned_lines(header)[i] == comment_text(
            text::lines(header)[i],
        ),
        scanned_lines(header).len() <= 40,
        scanned_lines(header).len() <= text::lines(header).len(),
{
}

/// The owner that a line declares.
pub open spec fn owner_on(line: Seq<char>) -> Option<Seq<char>> {
    let author = line_value(r"(?i)@author\s+(.+)"@, line);
    let technical = line_value(r"(?i)@techowner\s+(.+)"@, line);
    let functional = line_value(r"(?i)@funcowner\s+(.+)"@, line);
    if author is Some {
        author
    } else if technical is Some {
        technical
    } else if functional is Some {
        functional
    } else {
        line_value(r"(?i)owner\s*:\s*(.+)"@, line)
    }
}

/// The purpose that a line declares.
pub open spec fn purpose_on(line: Seq<char>) -> Option<Seq<char>> {
    let brief = line_value(r"(?i)(?:@brief|brief\s*:)\s*(.+)"@, line);
    if brief is Some {
        brief
    } else {
        line_value(r"(?i)@purpose\s+(.+)"@, line)
    }
}

/// The entry of the history on a line.
pub open spec fn history_on(line: Seq<char>) -> Option<Seq<char>> {
    line_value(r"(?i)@history\s+(.+)"@, line)
}

/// The type of the script that a line declares.
pub open spec fn type_on(line: Seq<char>) -> Option<Seq<char>> {
    line_value(r"(?i)@scripttype\s+(.+)"@, line)
}

/// The entries of the history on the first `n` lines.
pub open spec fn histories_on(lines: Seq<Seq<char>>, n: int) -> Seq<Seq<char>>
    decreases n,
{
    if n <= 0 {
        seq![]
    } else {
        match history_on(lines[n - 1]) {
            Some(h) => histories_on(lines, n - 1).push(h),
            None => histories_on(lines, n - 1),
        }
    }
}

/// What one line adds to what is known of a header.
proof fn lemma_header_line(st: HeaderState, line: Seq<char>)
    ensures
        ({
            let after = header_line(st, line, HEADER_PATTERN_COUNT as int);
            &&& after.has_owner == (st.has_owner || owner_on(line) is Some)
            &&& after.meta.owner == if !st.has_owner && owner_on(line) is Some {
                owner_on(line).unwrap()
            } else {
                st.meta.owner
            }
            &&& after.has_purpose == (st.has_purpose || purpose_on(line) is Some)
            &&& after.meta.purpose == if !st.has_purpose && purpose_on(line) is Some {
                purpose_on(line).unwrap()
            } else {
                st.meta.purpose
            }
            &&& after.has_type == (st.has_type || type_on(line) is Some)
            &&& after.history == match history_on(line) {
                Some(h) => st.history.push(h),
                None => st.history,
            }
            &&& after.meta.related == st.meta.related
        }),
{
    reveal_with_fuel(header_line, 9);
}

/// What the first lines say of a header that nothing is known of before.
proof fn lemma_header_lines(st: HeaderState, lines: Seq<Seq<char>>, n: int)
    requires
        0 <= n <= lines.len(),
        !st.has_owner,
        !st.has_purpose,
        st.history.len() == 0,
    ensures
        ({
            let after = header_lines(st, lines, n);
            &&& after.history == histories_on(lines, n)
            &&& after.meta.related == st.meta.related
            &&& match first_on(lines, n, true) {
                Some(v) => after.has_owner && after.meta.owner == v,
                None => !after.has_owner && after.meta.owner == st.meta.owner,
            }
            &&& match first_on(lines, n, false) {
                Some(v) => after.has_purpose && after.meta.purpose == v,
                None => !after.has_purpose && after.meta.purpose == st.meta.purpose,
            }
        }),
    decreases n,
{
    if n > 0 {
        lemma_header_lines(st, lines, n - 1);
        lemma_header_line(header_lines(st, lines, n - 1), lines[n - 1]);
    } else {
        assert(st.history =~= seq![]);
    }
}

/// The owner, or else the purpose, on the first of the first `n` lines that
/// declares one.
spec fn first_on(lines: Seq<Seq<char>>, n: int, owner: bool) -> Option<Seq<char>>
    decreases n,
{
    if n <= 0 {
        None
    } else {
        let before = first_on(lines, n - 1, owner);
        if before is Some {
            before
        } else if owner {
            owner_on(lines[n - 1])
        } else {
            purpose_on(lines[n - 1])
        }
    }
}

/// The first line that declares an owner or a purpose decides.
proof fn lemma_first_on(lines: Seq<Seq<char>>, n: int, k: int, owner: bool)
    requires
        0 <= k <= n <= lines.len(),
        forall|j: int|
            0 <= j < k ==> if owner {
                owner_on(#[trigger] lines[j]) is None
            } else {
                purpose_on(lines[j]) is None
            },
        k < n ==> if owner {
            owner_on(lines[k]) is Some
        } else {
            purpose_on(lines[k]) is Some
        },
    ensures
        first_on(lines, n, owner) == if k < n {
            if owner {
                owner_on(lines[k])
            } else {
                purpose_on(lines[k])
            }
        } else {
            None
        },
    decreases n,
{
    if n > 0 {
        if k < n - 1 {
            lemma_first_on(lines, n - 1, k, owner);
        } else {
            lemma_none_on(lines, n - 1, owner);
            if k == n {
                assert(lines[n - 1] == lines[n - 1]);
            }
        }
    }
}

/// Lines that declare nothing.
proof fn lemma_none_on(lines: Seq<Seq<char>>, n: int, owner: bool)
    requires
        0 <= n <= lines.len(),
        forall|j: int|
            0 <= j < n ==> if owner {
                owner_on(#[trigger] lines[j]) is None
            } else {
                purpose_on(lines[j]) is None
            },
    ensures
        first_on(lines, n, owner) is None,
    decreases n,
{
    if n > 0 {
        lemma_none_on(lines, n - 1, owner);
        assert(lines[n - 1] == lines[n - 1]);
    }
}

/// The related files change nothing else.
proof fn lemma_related_keeps(meta: MetaView, lines: Seq<Seq<char>>, n: int)
    ensures
        related_lines(meta, lines, n).owner == meta.owner,
        related_lines(meta, lines, n).purpose == meta.purpose,
    decreases n,
{
    if n > 0 {
        lemma_related_keeps(meta, lines, n - 1);
        lemma_related_line_keeps(
            related_lines(meta, lines, n - 1),
            lines[n - 1],
            RELATED_PATTERN_COUNT as int,
        );
    }
}

/// The related files of one line change nothing else.
proof fn lemma_related_line_keeps(meta: MetaView, line: Seq<char>, n: int)
    ensures
        related_line(meta, line, n).owner == meta.owner,
        related_line(meta, line, n).purpose == meta.purpose,
    decreases n,
{
    if n > 0 {
        lemma_related_line_keeps(meta, line, n - 1);
    }
}

/// The owner of a script is the one on the first line of its header, among
/// those that are read, that declares one; where none does it has none.
pub proof fn law_the_first_declared_owner_is_the_owner(
    language: Seq<char>,
    content: Seq<char>,
    k: int,
)
    requires
        ({
            let lines = scanned_lines(header_of(content));
            &&& 0 <= k <= lines.len()
            &&& forall|j: int| 0 <= j < k ==> owner_on(#[trigger] lines[j]) is None
            &&& k < lines.len() ==> owner_on(lines[k]) is Some
        }),
    ensures
        ({
            let lines = scanned_lines(header_of(content));
            script_meta(language, content).owner == if k < lines.len() {
                owner_on(lines[k]).unwrap()
            } else {
                seq![]
            }
        }),
{
    let header = header_of(content);
    let lines = scanned_lines(header);
    let n = lines.len() as int;
    let st = HeaderState {
        meta: no_meta(),
        has_purpose: false,
        has_owner: false,
        has_type: false,
        history: seq![],
    };
    lemma_header_lines(st, lines, n);
    lemma_first_on(lines, n, k, true);
    let known = keyword_meta(no_meta(), header);
    lemma_related_keeps(known, lines, n);
}

/// The purpose of a script is the one on the first line of its header, among
/// those that are read, that declares one.
pub proof fn law_the_first_declared_purpose_is_the_purpose(
    language: Seq<char>,
    content: Seq<char>,
    k: int,
)
    requires
        ({
            let lines = scanned_lines(header_of(content));
            &&& 0 <= k < lines.len()
            &&& forall|j: int| 0 <= j < k ==> purpose_on(#[trigger] lines[j]) is None
            &&& purpose_on(lines[k]) is Some
        }),
    ensures
        script_meta(language, content).purpose == purpose_on(
            scanned_lines(header_of(content))[k],
        ).unwrap(),
{
    let header = header_of(content);
    let lines = scanned_lines(header);
    let n = lines.len() as int;
    let st = HeaderState {
        meta: no_meta(),
        has_purpose: false,
        has_owner: false,
        has_type: false,
        history: seq![],
    };
    lemma_header_lines(st, lines, n);
    lemma_first_on(lines, n, k, false);
    let known = keyword_meta(no_meta(), header);
    lemma_related_keeps(known, lines, n);
    lemma_value_filled(lines[k]);
}

/// A value on a line is not empty.
proof fn lemma_value_filled(line: Seq<char>)
    ensures
        purpose_on(line) matches Some(v) ==> v.len() > 0,
        owner_on(line) matches Some(v) ==> v.len() > 0,
{
}

/// Without a purpose among its keywords, that of a script is the first line
/// with text in its description, and without that one it is, in Python, the
/// first line of its docstring.
pub proof fn law_purposes_come_from_the_description_and_then_the_docstring(
    language: Seq<char>,
    content: Seq<char>,
    description: Option<Seq<Seq<char>>>,
)
    requires
        ({
            let lines = scanned_lines(header_of(content));
            forall|j: int| 0 <= j < lines.len() ==> purpose_on(#[trigger] lines[j]) is None
        }),
        description == block_lines(header_of(content), "@description"@, "@enddescription"@),
    ensures
        ({
            let purpose = script_meta(language, content).purpose;
            let said = match description {
                Some(lines) => first_filled(lines, 0),
                None => None,
            };
            let doc = docstring_line(
                patterns::regex_captures(
                    "(?s)^\\s*(?:\"\"\"(.*?)\"\"\"|'''(.*?)''')"@,
                    content,
                ),
            );
            purpose == if said is Some {
                said.unwrap()
            } else if language == "python"@ && doc is Some {
                doc.unwrap()
            } else {
                seq![]
            }
        }),
{
    let header = header_of(content);
    let lines = scanned_lines(header);
    let n = lines.len() as int;
    let st = HeaderState {
        meta: no_meta(),
        has_purpose: false,
        has_owner: false,
        has_type: false,
        history: seq![],
    };
    lemma_header_lines(st, lines, n);
    lemma_first_on(lines, n, n, false);
    let known = keyword_meta(no_meta(), header);
    lemma_related_keeps(known, lines, n);
    match description {
        Some(all) => {
            lemma_first_filled(all, 0);
        },
        None => {},
    }
}

/// The first line with text is not empty, and all before it are.
proof fn lemma_first_filled(lines: Seq<Seq<char>>, i: int)
    requires
        0 <= i <= lines.len(),
    ensures
        first_filled(lines, i) matches Some(line) ==> line.len() > 0 && exists|k: int|
            i <= k < lines.len() && #[trigger] lines[k] == line && forall|j: int|
                i <= j < k ==> (#[trigger] lines[j]).len() == 0,
        first_filled(lines, i) is None ==> forall|j: int|
            i <= j < lines.len() ==> (#[trigger] lines[j]).len() == 0,
    decreases lines.len() - i,
{
    if i < lines.len() {
        if lines[i].len() == 0 {
            lemma_first_filled(lines, i + 1);
            match first_filled(lines, i) {
                Some(line) => {
                    let k = choose|k: int|
                        i + 1 <= k < lines.len() && #[trigger] lines[k] == line && forall|j: int|
                            i + 1 <= j < k ==> (#[trigger] lines[j]).len() == 0;
                    assert(lines[k] == line);
                },
                None => {},
            }
        } else {
            assert(lines[i] == lines[i]);
        }
    }
}

/// What a description says first is its first line that is not empty.
pub proof fn law_a_description_says_its_first_line_first(
    meta: MetaView,
    header: Seq<char>,
    lines: Seq<Seq<char>>,
    k: int,
)
    requires
        block_lines(header, "@description"@, "@enddescription"@) == Some(lines),
        0 <= k < lines.len(),
        lines[k].len() > 0,
        forall|j: int| 0 <= j < k ==> (#[trigger] lines[j]).len() == 0,
    ensures
        with_description(meta, header).purpose == if meta.purpose.len() > 0 {
            meta.purpose
        } else {
            lines[k]
        },
        with_description(meta, header).fields.contains_key("description"@),
        with_description(meta, header).fields["description"@] == FieldView::Text(
            text::join(lines, "\n"@),
        ),
{
    lemma_first_filled(lines, 0);
    let first = first_filled(lines, 0).unwrap();
    let i = choose|i: int|
        0 <= i < lines.len() && #[trigger] lines[i] == first && forall|j: int|
            0 <= j < i ==> (#[trigger] lines[j]).len() == 0;
    assert(lines[i].len() > 0);
    assert(lines[k].len() > 0);
}

/// The usage block is kept as one text.
pub proof fn law_the_usage_block_is_kept(meta: MetaView, header: Seq<char>, lines: Seq<Seq<char>>)
    requires
        block_lines(header, "@usage"@, "@endusage"@) == Some(lines),
    ensures
        with_usage(meta, header).fields.contains_key("usage"@),
        with_usage(meta, header).fields["usage"@] == FieldView::Text(text::join(lines, "\n"@)),
        with_usage(meta, header).purpose == meta.purpose,
{
}

/// All entries of the history on the lines that are read are kept, in their
/// order, each with what it says.
pub proof fn law_the_whole_history_is_kept(meta: MetaView, header: Seq<char>)
    ensures
        ({
            let lines = scanned_lines(header);
            let history = histories_on(lines, lines.len() as int);
            let known = keyword_meta(meta, header);
            history.len() > 0 ==> {
                &&& known.fields.contains_key("history"@)
                &&& known.fields["history"@] == FieldView::List(history)
                &&& known.fields.contains_key("history_entries"@)
                &&& known.fields["history_entries"@] == FieldView::Entries(
                    history.map_values(|h: Seq<char>| history_view(h)),
                )
            }
        }),
{
    reveal_strlit("history");
    reveal_strlit("history_entries");
    assert("history"@.len() != "history_entries"@.len());
    let lines = scanned_lines(header);
    let n = lines.len() as int;
    let st = HeaderState {
        meta,
        has_purpose: false,
        has_owner: false,
        has_type: false,
        history: seq![],
    };
    lemma_header_lines(st, lines, n);
}

/// A line of history without a date is a summary as a whole. Beside a date, the
/// version is told apart, and the first word that is left is the author, unless
/// it looks like a date or a version; all else is the summary.
pub proof fn law_history_lines_are_told_apart(
    line: Seq<char>,
    span: (usize, usize),
    author: Seq<char>,
    summary: Seq<char>,
)
    requires
        author.len() > 0,
        forall|i: int| 0 <= i < author.len() ==> !text::is_white(#[trigger] author[i]),
        summary.len() > 0,
        text::trim(summary) == summary,
    ensures
        ({
            let raw = text::trim(line);
            let dates = patterns::regex_find_iter(r"\b(\d{4}-\d{2}-\d{2})\b"@, raw);
            let entry = history_view(line);
            let undated = text::squeeze(
                text::byte_slice(raw, 0, span.0 as int) + text::byte_slice(
                    raw,
                    span.1 as int,
                    byte_len(raw),
                ),
            );
            let versions = patterns::regex_find_iter(r"\b(\d+\.\d+(?:\.\d+)*)\b"@, undated);
            &&& entry.raw == raw
            &&& dates.len() == 0 ==> entry.date is None && entry.author is None && entry.version is None
                && entry.summary == if raw.len() == 0 {
                None
            } else {
                Some(raw)
            }
            &&& dates.len() > 0 && dates[0] == span ==> {
                &&& entry.date == Some(text::byte_slice(raw, span.0 as int, span.1 as int))
                &&& versions.len() == 0 ==> entry.version is None
                &&& versions.len() > 0 ==> entry.version == Some(
                    text::byte_slice(undated, versions[0].0 as int, versions[0].1 as int),
                )
                &&& versions.len() == 0 && undated == author + " "@ + summary && !looks_like_token(
                    author,
                ) ==> entry.author == Some(author) && entry.summary == Some(summary)
                &&& versions.len() == 0 && undated == author + " "@ + summary && looks_like_token(
                    author,
                ) ==> entry.author is None && entry.summary == Some(undated)
            }
        }),
{
    reveal_strlit(" ");
    assert(" "@ =~= seq![' ']);
    let undated = author + " "@ + summary;
    let rest = " "@ + summary;
    assert(undated =~= author + rest);
    text::lemma_white_behind(author, rest);
    assert(undated.take(author.len() as int) =~= author);
    assert(undated.skip(author.len() as int) =~= rest);
    text::lemma_trimmed(author);
    text::lemma_trim_behind(' ', summary);
}

/// The value of a related-file keyword on a line that is read is among the
/// related files of the script, and in the list of its keyword.
pub proof fn law_related_files_are_kept(meta: MetaView, lines: Seq<Seq<char>>, k: int, p: int)
    requires
        0 <= k < lines.len(),
        0 <= p < 5,
        line_value(related_keyword(p).0, lines[k]) is Some,
    ensures
        ({
            let after = related_lines(meta, lines, lines.len() as int);
            let value = line_value(related_keyword(p).0, lines[k]).unwrap();
            &&& after.related.contains(value)
            &&& after.fields.contains_key(related_keyword(p).1)
            &&& after.fields[related_keyword(p).1] matches FieldView::List(list) && list.contains(
                value,
            )
        }),
{
    lemma_related_kept(meta, lines, lines.len() as int, k, p);
}

/// The keywords of related files and the names of their lists.
pub open spec fn related_keyword(p: int) -> (Seq<char>, Seq<char>) {
    if p == 0 {
        (r"(?i)@parentfile\s+(.+)"@, "parentfile"@)
    } else if p == 1 {
        (r"(?i)@childfile\s+(.+)"@, "childfile"@)
    } else if p == 2 {
        (r"(?i)@inputfile\s+(.+)"@, "inputfile"@)
    } else if p == 3 {
        (r"(?i)@outputfile\s+(.+)"@, "outputfile"@)
    } else {
        (r"(?i)@paramfile\s+(.+)"@, "paramfile"@)
    }
}

/// Whether a value is among the related files and in the list of its keyword.
spec fn is_related(meta: MetaView, key: Seq<char>, value: Seq<char>) -> bool {
    &&& meta.related.contains(value)
    &&& meta.fields.contains_key(key)
    &&& meta.fields[key] is List
    &&& meta.fields[key]->List_0.contains(value)
}

/// One more related file.
proof fn lemma_with_related(
    meta: MetaView,
    key: Seq<char>,
    value: Seq<char>,
    other: Seq<char>,
    kept: Seq<char>,
)
    ensures
        is_related(with_related(meta, key, value), key, value),
        is_related(meta, other, kept) ==> is_related(with_related(meta, key, value), other, kept),
{
    text::lemma_push_contains(meta.related, value, value);
    text::lemma_push_contains(meta.related, value, kept);
    if meta.fields.contains_key(key) && meta.fields[key] is List {
        text::lemma_push_contains(meta.fields[key]->List_0, value, value);
        text::lemma_push_contains(meta.fields[key]->List_0, value, kept);
    } else {
        assert(seq![value][0] == value);
    }
}

/// What is related stays so on one more line.
proof fn lemma_related_on_line(
    meta: MetaView,
    line: Seq<char>,
    n: int,
    key: Seq<char>,
    value: Seq<char>,
)
    requires
        is_related(meta, key, value),
    ensures
        is_related(related_line(meta, line, n), key, value),
    decreases n,
{
    if n > 0 {
        lemma_related_on_line(meta, line, n - 1, key, value);
        match line_value(related_pattern(n - 1).0, line) {
            Some(v) => {
                lemma_with_related(
                    related_line(meta, line, n - 1),
                    related_pattern(n - 1).1,
                    v,
                    key,
                    value,
                );
            },
            None => {},
        }
    }
}

/// The values of a line become related.
proof fn lemma_line_is_related(meta: MetaView, line: Seq<char>, n: int, p: int)
    requires
        0 <= p < n <= 5,
        line_value(related_keyword(p).0, line) is Some,
    ensures
        is_related(
            related_line(meta, line, n),
            related_keyword(p).1,
            line_value(related_keyword(p).0, line).unwrap(),
        ),
    decreases n,
{
    let before = related_line(meta, line, n - 1);
    let value = line_value(related_keyword(p).0, line).unwrap();
    if p < n - 1 {
        lemma_line_is_related(meta, line, n - 1, p);
    }
    match line_value(related_pattern(n - 1).0, line) {
        Some(v) => {
            lemma_with_related(before, related_pattern(n - 1).1, v, related_keyword(p).1, value);
        },
        None => {},
    }
}

/// The values of the first lines are related.
proof fn lemma_related_kept(meta: MetaView, lines: Seq<Seq<char>>, n: int, k: int, p: int)
    requires
        0 <= k < n <= lines.len(),
        0 <= p < 5,
        line_value(related_keyword(p).0, lines[k]) is Some,
    ensures
        is_related(
            related_lines(meta, lines, n),
            related_keyword(p).1,
            line_value(related_keyword(p).0, lines[k]).unwrap(),
        ),
    decreases n,
{
    let before = related_lines(meta, lines, n - 1);
    if k == n - 1 {
        lemma_line_is_related(before, lines[k], 5, p);
    } else {
        lemma_related_kept(meta, lines, n - 1, k, p);
        lemma_related_on_line(
            before,
            lines[n - 1],
            5,
            related_keyword(p).1,
            line_value(related_keyword(p).0, lines[k]).unwrap(),
        );
    }
}

/// The first line in a range that is a marker.
proof fn lemma_marker_found(lines: Seq<Seq<char>>, i: int, to: int, marker: Seq<char>, k: int)
    requires
        0 <= i <= k < to,
        k < lines.len(),
        is_marker(lines[k], marker),
        forall|j: int| i <= j < k ==> !is_marker(#[trigger] lines[j], marker),
    ensures
        marker_from(lines, i, to, marker) == Some(k),
    decreases k - i,
{
    if i < k {
        assert(!is_marker(lines[i], marker));
        lemma_marker_found(lines, i + 1, to, marker, k);
    }
}

/// No line in a range is a marker.
proof fn lemma_marker_missing(lines: Seq<Seq<char>>, i: int, to: int, marker: Seq<char>)
    requires
        0 <= i,
        forall|j: int| i <= j < to && j < lines.len() ==> !is_marker(#[trigger] lines[j], marker),
    ensures
        marker_from(lines, i, to, marker) is None,
    decreases to - i,
{
    if i < to && i < lines.len() {
        assert(!is_marker(lines[i], marker));
        lemma_marker_missing(lines, i + 1, to, marker);
    }
}

/// A block is what stands between the first opening marker among the first two
/// hundred lines and the first closing marker behind it, if that comes within
/// two hundred lines: line by line what the comments say. Where one of the
/// markers is missing there is no block.
pub proof fn law_a_block_stands_between_its_markers(
    content: Seq<char>,
    open: Seq<char>,
    close: Seq<char>,
    a: int,
    b: int,
)
    requires
        ({
            let lines = text::lines(content);
            &&& 0 <= a < lines.len()
            &&& is_marker(lines[a], open)
            &&& forall|j: int| 0 <= j < a ==> !is_marker(#[trigger] lines[j], open)
            &&& a < b <= lines.len()
            &&& forall|j: int| a < j < b ==> !is_marker(#[trigger] lines[j], close)
            &&& b < lines.len() ==> is_marker(lines[b], close)
        }),
    ensures
        ({
            let lines = text::lines(content);
            match block_lines(content, open, close) {
                Some(block) => a < 200 && b < lines.len() && b <= a + 200 && block.len() == b - a - 1
                    && forall|i: int|
                    0 <= i < block.len() ==> #[trigger] block[i] == comment_text(lines[a + 1 + i]),
                None => a >= 200 || b == lines.len() || b > a + 200,
            }
        }),
{
    let lines = text::lines(content);
    if a < 200 {
        lemma_marker_found(lines, 0, 200, open, a);
        if b < lines.len() && b <= a + 200 {
            lemma_marker_found(lines, a + 1, a + 1 + 200, close, b);
        } else {
            lemma_marker_missing(lines, a + 1, a + 1 + 200, close);
        }
    } else {
        lemma_marker_missing(lines, 0, 200, open);
    }
}

/// A marker may stand behind one comment mark or several, with a blank behind
/// them or not, in any case of its letters.
pub proof fn law_markers_stand_behind_any_number_of_marks(
    marks: Seq<char>,
    word: Seq<char>,
    marker: Seq<char>,
)
    requires
        marks.len() > 0,
        forall|i: int| 0 <= i < marks.len() ==> #[trigger] marks[i] == '#',
        word.len() > 0,
        word[0] != '#' && !text::is_white(word[0]),
        !text::is_white(word.last()),
    ensures
        is_marker(marks + " "@ + word, marker) <==> text::ascii_lower(word) == text::ascii_lower(
            marker,
        ),
        is_marker(marks + word, marker) <==> text::ascii_lower(word) == text::ascii_lower(marker),
{
    reveal_strlit("#");
    reveal_strlit(" ");
    let mark = |c: char| c == '#';
    let more = marks.drop_first();
    assert forall|i: int| 0 <= i < more.len() implies #[trigger] more[i] == '#' by {
        assert(more[i] == marks[i + 1]);
    }
    text::lemma_trimmed(word);
    let spaced = seq![' '] + word;
    text::lemma_trim_behind(' ', word);
    lemma_marked_text(more, spaced, word);
    lemma_marked_text(more, word, word);
    assert(marks[0] == '#');
    assert(marks + " "@ + word =~= "#"@ + (more + spaced));
    assert(marks + word =~= "#"@ + (more + word));
}

/// What stands behind comment marks.
proof fn lemma_marked_text(more: Seq<char>, tail: Seq<char>, word: Seq<char>)
    requires
        forall|i: int| 0 <= i < more.len() ==> #[trigger] more[i] == '#',
        tail.len() > 0,
        tail[0] != '#',
        !text::is_white(tail.last()),
        word.len() > 0,
        word[0] != '#',
        text::trim(tail) == word,
        text::trim(word) == word,
    ensures
        marker_text("#"@ + (more + tail)) == word,
{
    let mark = |c: char| c == '#';
    let said = more + tail;
    law_comments_say_what_follows_their_mark(said, word, ' ');
    if more.len() == 0 {
        assert(said =~= tail);
        assert(text::strip_leading(word, mark) == word);
    } else {
        assert(said[0] == more[0]);
        assert(said.last() == tail.last());
        text::lemma_trimmed(said);
        lemma_strip_more(more, tail);
    }
}

/// Marks at the start are taken off.
proof fn lemma_strip_more(more: Seq<char>, tail: Seq<char>)
    requires
        forall|i: int| 0 <= i < more.len() ==> #[trigger] more[i] == '#',
        tail.len() > 0,
        tail[0] != '#',
    ensures
        text::strip_leading(more + tail, |c: char| c == '#') == tail,
    decreases more.len(),
{
    let all = more + tail;
    if more.len() == 0 {
        assert(all =~= tail);
    } else {
        let rest = more.drop_first();
        assert forall|i: int| 0 <= i < rest.len() implies #[trigger] rest[i] == '#' by {
            assert(rest[i] == more[i + 1]);
        }
        lemma_strip_more(rest, tail);
        assert(all[0] == more[0]);
        assert(all.drop_first() =~= rest + tail);
    }
}

// ---------------------------------------------------------------------------
// What a docstring says
// ---------------------------------------------------------------------------

/// The first line of a text is what stands before its first line end.
proof fn lemma_first_line(first: Seq<char>, rest: Seq<char>)
    requires
        !first.contains('\n'),
    ensures
        text::lines(first + "\n"@ + rest).len() > 0,
        text::trim(text::lines(first + "\n"@ + rest)[0]) == text::trim(first),
        first.len() > 0 ==> text::lines(first).len() == 1 && text::lines(first)[0] == first,
{
    reveal_strlit("\n");
    let all = first + "\n"@ + rest;
    assert forall|j: int| 0 <= j < first.len() implies first[j] != '\n' && all[j] != '\n' by {
        assert(all[j] == first[j]);
        if first[j] == '\n' {
            assert(first.contains('\n'));
        }
    }
    text::lemma_find_char_is(all, '\n', first.len() as int);
    text::lemma_find_char_is(first, '\n', first.len() as int);
    assert(all.take(first.len() as int) =~= first);
    assert(text::lines(all)[0] == text::strip_cr(first));
    if first.len() > 0 && first.last() == '\r' {
        assert(first.drop_last().push('\r') =~= first);
        text::lemma_trim_push(first.drop_last(), '\r');
    }
}

/// The docstring that a match holds, in the one group or the other.
pub open spec fn is_docstring(groups: Seq<Option<Seq<char>>>, doc: Seq<char>) -> bool {
    groups.len() > 2 && (groups[1] == Some(doc) || groups[1] is None && groups[2] == Some(doc))
}

/// Where the header gives no purpose, the first line of the docstring is the
/// purpose of a script and its field `docstring`: what follows the first line
/// end does not matter.
pub proof fn law_the_first_line_of_a_docstring_is_the_purpose(
    meta: MetaView,
    groups: Seq<Option<Seq<char>>>,
    doc: Seq<char>,
    first: Seq<char>,
    rest: Seq<char>,
)
    requires
        meta.purpose.len() == 0,
        is_docstring(groups, doc),
        !first.contains('\n'),
        first.len() > 0,
        text::trim(doc) == first || text::trim(doc) == first + "\n"@ + rest,
    ensures
        ({
            let after = with_docstring(meta, Some(groups));
            &&& after.purpose == text::trim(first)
            &&& after.purpose.len() > 0
            &&& after.fields == meta.fields.insert(
                "docstring"@,
                FieldView::Text(text::trim(first)),
            )
            &&& after.owner == meta.owner
            &&& after.related == meta.related
        }),
{
    lemma_first_line(first, rest);
    text::lemma_trim_twice(doc);
    assert(text::trim(doc)[0] == first[0]);
    assert(text::trim_start(first) == first);
    lemma_trim_end_filled(first);
}

/// A text that starts with no white space is not trimmed away.
proof fn lemma_trim_end_filled(s: Seq<char>)
    requires
        s.len() > 0,
        !text::is_white(s[0]),
    ensures
        text::trim_end(s).len() > 0,
    decreases s.len(),
{
    if text::is_white(s.last()) {
        lemma_trim_end_filled(s.drop_last());
    }
}

/// A docstring without text, and a source without a docstring, give nothing.
pub proof fn law_without_a_docstring_nothing_is_taken(
    meta: MetaView,
    groups: Seq<Option<Seq<char>>>,
    doc: Seq<char>,
)
    requires
        is_docstring(groups, doc),
        text::trim(doc).len() == 0,
    ensures
        with_docstring(meta, Some(groups)) == meta,
        with_docstring(meta, None) == meta,
{
}

/// A script that is not Python has no docstring.
pub proof fn law_only_python_has_docstrings(language: Seq<char>, content: Seq<char>)
    ensures
        language != "python"@ ==> script_meta(language, content) == header_meta(
            no_meta(),
            content,
        ),
        language == "python"@ ==> script_meta(language, content) == with_docstring(
            header_meta(no_meta(), content),
            patterns::regex_captures("(?s)^\\s*(?:\"\"\"(.*?)\"\"\"|'''(.*?)''')"@, content),
        ),
{
}

/// The digest of a script is written as two lower-case hexadecimal digits for
/// each byte, the higher one first.
pub proof fn law_digests_are_written_byte_by_byte(bytes: Seq<u8>, i: int)
    requires
        0 <= i < bytes.len(),
    ensures
        hex_text(bytes).len() == 2 * bytes.len(),
        hex_value(hex_text(bytes)[2 * i]) * 16 + hex_value(hex_text(bytes)[2 * i + 1]) == bytes[i],
{
    let hi = bytes[i] / 16;
    let lo = bytes[i] % 16;
    assert((2 * i) % 2 == 0 && (2 * i) / 2 == i);
    assert((2 * i + 1) % 2 == 1 && (2 * i + 1) / 2 == i);
    assert(hex_text(bytes)[2 * i] == hex_digit(hi));
    assert(hex_text(bytes)[2 * i + 1] == hex_digit(lo));
    assert(hex_value(hex_digit(hi)) == hi);
    assert(hex_value(hex_digit(lo)) == lo);
}

/// The value of a lower-case hexadecimal digit.
pub open spec fn hex_value(c: char) -> int {
    if '0' <= c <= '9' {
        c as int - '0' as int
    } else if 'a' <= c <= 'f' {
        c as int - 'a' as int + 10
    } else {
        16
    }
}

/// The value of a keyword is what its pattern captures, white space around it
/// aside; where nothing but white space is captured there is none.
pub proof fn law_values_are_what_keywords_capture(groups: Seq<Option<Seq<char>>>, raw: Seq<char>)
    requires
        groups.len() > 1,
        groups[1] == Some(raw),
    ensures
        text::trim(raw).len() > 0 ==> captured_value(Some(groups)) == Some(text::trim(raw)),
        text::trim(raw).len() == 0 ==> captured_value(Some(groups)) is None,
        captured_value(None) is None,
{
}

/// A word looks like a date or a version where the pattern of one of them
/// matches in it.
pub proof fn law_dates_and_versions_are_no_authors(word: Seq<char>)
    ensures
        looks_like_token(word) <==> patterns::regex_find_iter(
            r"\b(\d{4}-\d{2}-\d{2})\b"@,
            word,
        ).len() > 0 || patterns::regex_find_iter(r"\b(\d+\.\d+(?:\.\d+)*)\b"@, word).len() > 0,
{
}

/// The field of a keyword on the first line that has one of its kind is kept
/// under the name of the keyword.
proof fn lemma_fields_on_line(st: HeaderState, line: Seq<char>)
    ensures
        ({
            let after = header_line(st, line, HEADER_PATTERN_COUNT as int).meta.fields;
            let author = line_value(r"(?i)@author\s+(.+)"@, line);
            let brief = line_value(r"(?i)(?:@brief|brief\s*:)\s*(.+)"@, line);
            let kind = type_on(line);
            &&& !st.has_owner && author is Some ==> after.contains_key("author"@)
                && after["author"@] == FieldView::Text(author.unwrap())
            &&& !st.has_purpose && brief is Some ==> after.contains_key("brief"@) && after["brief"@]
                == FieldView::Text(brief.unwrap())
            &&& !st.has_type && kind is Some ==> after.contains_key("scripttype"@)
                && after["scripttype"@] == FieldView::Text(kind.unwrap())
        }),
{
    reveal_with_fuel(header_line, 9);
    reveal_strlit("brief");
    reveal_strlit("purpose");
    reveal_strlit("author");
    reveal_strlit("techowner");
    reveal_strlit("funcowner");
    reveal_strlit("scripttype");
    reveal_strlit("owner");
    assert("brief"@.len() == 5 && "brief"@[0] == 'b' && "owner"@[0] == 'o');
    assert("author"@.len() == 6 && "scripttype"@.len() == 10);
    assert("purpose"@.len() == 7 && "techowner"@.len() == 9 && "funcowner"@.len() == 9);
    assert("owner"@.len() == 5);
}

/// A header line that declares an author, a brief or a type where none is known
/// yet keeps it as a field under that name.
pub proof fn law_declared_fields_are_kept_by_name(st: HeaderState, line: Seq<char>)
    requires
        !st.has_owner,
        !st.has_purpose,
        !st.has_type,
    ensures
        ({
            let after = header_line(st, line, HEADER_PATTERN_COUNT as int).meta.fields;
            &&& line_value(r"(?i)@author\s+(.+)"@, line) matches Some(v) ==> after.contains_key(
                "author"@,
            ) && after["author"@] == FieldView::Text(v)
            &&& line_value(r"(?i)(?:@brief|brief\s*:)\s*(.+)"@, line) matches Some(v)
                ==> after.contains_key("brief"@) && after["brief"@] == FieldView::Text(v)
            &&& line_value(r"(?i)@scripttype\s+(.+)"@, line) matches Some(v) ==> after.contains_key(
                "scripttype"@,
            ) && after["scripttype"@] == FieldView::Text(v)
        }),
{
    lemma_fields_on_line(st, line);
}

/// What is known of a script is all that its header says: the related files,
/// the usage and the description, and the history.
pub proof fn law_a_script_says_what_its_header_says(
    language: Seq<char>,
    content: Seq<char>,
    k: int,
    p: int,
)
    requires
        0 <= p < 5,
    ensures
        ({
            let header = header_of(content);
            let lines = scanned_lines(header);
            let said = script_meta(language, content);
            let usage = block_lines(header, "@usage"@, "@endusage"@);
            let description = block_lines(header, "@description"@, "@enddescription"@);
            let history = histories_on(lines, lines.len() as int);
            &&& 0 <= k < lines.len() && line_value(related_keyword(p).0, lines[k]) is Some ==> {
                let value = line_value(related_keyword(p).0, lines[k]).unwrap();
                &&& said.related.contains(value)
                &&& said.fields.contains_key(related_keyword(p).1)
                &&& said.fields[related_keyword(p).1] is List
                &&& said.fields[related_keyword(p).1]->List_0.contains(value)
            }
            &&& usage is Some ==> said.fields.contains_key("usage"@) && said.fields["usage"@]
                == FieldView::Text(text::join(usage.unwrap(), "\n"@))
            &&& description is Some ==> said.fields.contains_key("description"@)
                && said.fields["description"@] == FieldView::Text(
                text::join(description.unwrap(), "\n"@),
            )
            &&& history.len() > 0 ==> said.fields.contains_key("history"@)
                && said.fields["history"@] == FieldView::List(history) && said.fields.contains_key(
                "history_entries"@,
            ) && said.fields["history_entries"@] == FieldView::Entries(
                history.map_values(|h: Seq<char>| history_view(h)),
            )
        }),
{
    let header = header_of(content);
    let lines = scanned_lines(header);
    let n = lines.len() as int;
    let known = keyword_meta(no_meta(), header);
    law_the_whole_history_is_kept(no_meta(), header);
    lemma_block_names();
    lemma_related_leaves(known, lines, n, "history"@);
    lemma_related_leaves(known, lines, n, "history_entries"@);
    if 0 <= k < lines.len() && line_value(related_keyword(p).0, lines[k]) is Some {
        lemma_related_kept(known, lines, n, k, p);
    }
}

/// The names of what is kept of a header are different ones.
proof fn lemma_block_names()
    ensures
        forall|p: int|
            0 <= p < 5 ==> #[trigger] related_keyword(p).1 != "usage"@ && related_keyword(p).1
                != "description"@ && related_keyword(p).1 != "docstring"@ && related_keyword(p).1
                != "history"@ && related_keyword(p).1 != "history_entries"@,
        "usage"@ != "description"@,
        "usage"@ != "docstring"@,
        "description"@ != "docstring"@,
        "history"@ != "usage"@,
        "history"@ != "description"@,
        "history"@ != "docstring"@,
        "history_entries"@ != "usage"@,
        "history_entries"@ != "description"@,
        "history_entries"@ != "docstring"@,
{
    reveal_strlit("usage");
    reveal_strlit("description");
    reveal_strlit("docstring");
    reveal_strlit("history");
    reveal_strlit("history_entries");
    reveal_strlit("parentfile");
    reveal_strlit("childfile");
    reveal_strlit("inputfile");
    reveal_strlit("outputfile");
    reveal_strlit("paramfile");
    assert("docstring"@.len() == 9 && "docstring"@[0] == 'd');
    assert("childfile"@[0] == 'c' && "inputfile"@[0] == 'i' && "paramfile"@[0] == 'p');
    assert("usage"@.len() == 5 && "description"@.len() == 11 && "history"@.len() == 7);
    assert("history_entries"@.len() == 15);
    assert("parentfile"@.len() == 10 && "outputfile"@.len() == 10);
    assert("childfile"@.len() == 9 && "inputfile"@.len() == 9 && "paramfile"@.len() == 9);
}

/// Related files leave the other fields as they are.
proof fn lemma_related_leaves(meta: MetaView, lines: Seq<Seq<char>>, n: int, key: Seq<char>)
    requires
        n <= lines.len(),
        forall|p: int| 0 <= p < 5 ==> #[trigger] related_keyword(p).1 != key,
    ensures
        ({
            let after = related_lines(meta, lines, n).fields;
            &&& after.contains_key(key) <==> meta.fields.contains_key(key)
            &&& meta.fields.contains_key(key) ==> after[key] == meta.fields[key]
        }),
    decreases n,
{
    if n > 0 {
        lemma_related_leaves(meta, lines, n - 1, key);
        lemma_related_line_leaves(related_lines(meta, lines, n - 1), lines[n - 1], 5, key);
    }
}

/// The related files of one line leave the other fields as they are.
proof fn lemma_related_line_leaves(meta: MetaView, line: Seq<char>, n: int, key: Seq<char>)
    requires
        n <= 5,
        forall|p: int| 0 <= p < 5 ==> #[trigger] related_keyword(p).1 != key,
    ensures
        ({
            let after = related_line(meta, line, n).fields;
            &&& after.contains_key(key) <==> meta.fields.contains_key(key)
            &&& meta.fields.contains_key(key) ==> after[key] == meta.fields[key]
        }),
    decreases n,
{
    if n > 0 {
        lemma_related_line_leaves(meta, line, n - 1, key);
        assert(related_keyword(n - 1).1 != key);
    }
}

/// Only what a line of the header names is related to a script.
pub proof fn law_only_named_files_are_related(
    language: Seq<char>,
    content: Seq<char>,
    value: Seq<char>,
)
    requires
        script_meta(language, content).related.contains(value),
    ensures
        ({
            let lines = scanned_lines(header_of(content));
            exists|k: int, p: int|
                0 <= k < lines.len() && 0 <= p < 5 && #[trigger] names_related(lines, k, p, value)
        }),
{
    let header = header_of(content);
    let lines = scanned_lines(header);
    let n = lines.len() as int;
    let st = HeaderState {
        meta: no_meta(),
        has_purpose: false,
        has_owner: false,
        has_type: false,
        history: seq![],
    };
    lemma_keywords_relate_nothing(st, lines, n);
    lemma_only_related(keyword_meta(no_meta(), header), lines, n, value);
}

/// Whether a line names a value as a related file.
pub open spec fn names_related(lines: Seq<Seq<char>>, k: int, p: int, value: Seq<char>) -> bool {
    line_value(related_keyword(p).0, lines[k]) == Some(value)
}

/// Other keywords leave the related files as they are.
proof fn lemma_keywords_relate_nothing(st: HeaderState, lines: Seq<Seq<char>>, n: int)
    ensures
        header_lines(st, lines, n).meta.related == st.meta.related,
    decreases n,
{
    if n > 0 {
        lemma_keywords_relate_nothing(st, lines, n - 1);
        lemma_keyword_line_relates_nothing(
            header_lines(st, lines, n - 1),
            lines[n - 1],
            HEADER_PATTERN_COUNT as int,
        );
    }
}

/// Other keywords on a line leave the related files as they are.
proof fn lemma_keyword_line_relates_nothing(st: HeaderState, line: Seq<char>, n: int)
    ensures
        header_line(st, line, n).meta.related == st.meta.related,
    decreases n,
{
    if n > 0 {
        lemma_keyword_line_relates_nothing(st, line, n - 1);
    }
}

/// Every related file is named on a line, or was known before.
proof fn lemma_only_related(meta: MetaView, lines: Seq<Seq<char>>, n: int, value: Seq<char>)
    requires
        n <= lines.len(),
        related_lines(meta, lines, n).related.contains(value),
    ensures
        meta.related.contains(value) || exists|k: int, p: int|
            0 <= k < n && 0 <= p < 5 && #[trigger] names_related(lines, k, p, value),
    decreases n,
{
    if n > 0 {
        let before = related_lines(meta, lines, n - 1);
        lemma_only_related_on_line(before, lines, n - 1, 5, value);
        if before.related.contains(value) {
            lemma_only_related(meta, lines, n - 1, value);
        }
    }
}

/// Every related file of a line is named on it, or was known before.
proof fn lemma_only_related_on_line(
    meta: MetaView,
    lines: Seq<Seq<char>>,
    k: int,
    n: int,
    value: Seq<char>,
)
    requires
        n <= 5,
        related_line(meta, lines[k], n).related.contains(value),
    ensures
        meta.related.contains(value) || exists|p: int|
            0 <= p < n && #[trigger] names_related(lines, k, p, value),
    decreases n,
{
    if n > 0 {
        let before = related_line(meta, lines[k], n - 1);
        match line_value(related_pattern(n - 1).0, lines[k]) {
            Some(v) => {
                text::lemma_push_contains(before.related, v, value);
                if v == value {
                    assert(names_related(lines, k, n - 1, value));
                }
            },
            None => {},
        }
        if before.related.contains(value) {
            lemma_only_related_on_line(meta, lines, k, n - 1, value);
        }
    }
}

} // verus!
