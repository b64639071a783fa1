//! Syntax highlighting of the content of scripts.

use tree_sitter_bash::{HIGHLIGHT_QUERY as BASH_QUERY, LANGUAGE as BASH};
use tree_sitter_highlight::{HighlightConfiguration, HighlightEvent, Highlighter};
use tree_sitter_json::{HIGHLIGHTS_QUERY as JSON_QUERY, LANGUAGE as JSON};
use tree_sitter_python::{HIGHLIGHTS_QUERY as PYTHON_QUERY, LANGUAGE as PYTHON};
use tree_sitter_yaml::{HIGHLIGHTS_QUERY as YAML_QUERY, LANGUAGE as YAML};
use vstd::prelude::*;
use vstd::utf8::*;

use crate::patterns;
use crate::syntax::{parse, Grammar};
use crate::text;
use crate::text::{chars_of, same_text, slice_bytes, slice_text, split_lines, split_text};
use crate::treesitter_deps;
use crate::treesitter_deps::normalise_lang;
use crate::tui::styled;
use crate::tui::styled::{color_style, plain_line, push_line, Color, Line, Span, Style};

verus! {

/// One step of highlighting.
#[derive(Debug, Clone, Copy, PartialEq, Eq, Structural)]
pub enum HighlightStep {
    /// The bytes of the source from the first offset to the second.
    Text(usize, usize),
    /// What follows is of the kind with this number.
    Start(usize),
    /// The kind that was started last ends.
    End,
}

/// The kinds of text that are told apart.
pub open spec fn highlight_names() -> Seq<Seq<char>> {
    seq![
        "comment"@,
        "string"@,
        "escape"@,
        "number"@,
        "constant"@,
        "constant.builtin"@,
        "boolean"@,
        "keyword"@,
        "attribute"@,
        "operator"@,
        "function"@,
        "function.builtin"@,
        "function.method"@,
        "type"@,
        "constructor"@,
        "property"@,
        "label"@,
        "punctuation.special"@,
        "punctuation.bracket"@,
        "punctuation.delimiter"@,
        "variable"@,
    ]
}

/// The kinds of text that are told apart.
fn names_to_highlight() -> (names: Vec<String>)
    ensures
        text::views(names@) == highlight_names(),
{
    let mut names: Vec<String> = Vec::new();
    names.push("comment".to_owned());
    names.push("string".to_owned());
    names.push("escape".to_owned());
    names.push("number".to_owned());
    names.push("constant".to_owned());
    names.push("constant.builtin".to_owned());
    names.push("boolean".to_owned());
    names.push("keyword".to_owned());
    names.push("attribute".to_owned());
    names.push("operator".to_owned());
    names.push("function".to_owned());
    names.push("function.builtin".to_owned());
    names.push("function.method".to_owned());
    names.push("type".to_owned());
    names.push("constructor".to_owned());
    names.push("property".to_owned());
    names.push("label".to_owned());
    names.push("punctuation.special".to_owned());
    names.push("punctuation.bracket".to_owned());
    names.push("punctuation.delimiter".to_owned());
    names.push("variable".to_owned());
    assert(text::views(names@) =~= highlight_names());
    names
}

/// The colour of a kind of text.
pub open spec fn color_of(name: Seq<char>) -> Color {
    if name == "comment"@ {
        Color::DarkGray
    } else if name == "string"@ {
        Color::Green
    } else if name == "escape"@ || name == "punctuation.special"@ {
        Color::LightMagenta
    } else if name == "number"@ || name == "constant"@ || name == "constant.builtin"@ || name == "boolean"@ {
        Color::Yellow
    } else if name == "keyword"@ || name == "attribute"@ {
        Color::Magenta
    } else if name == "function"@ || name == "function.builtin"@ || name == "function.method"@ {
        Color::Blue
    } else if name == "type"@ || name == "constructor"@ {
        Color::Cyan
    } else if name == "property"@ {
        Color::LightCyan
    } else if name == "label"@ {
        Color::LightBlue
    } else {
        Color::Default
    }
}

/// The style of a kind of text.
pub fn style_for(name: &str) -> (style: Style)
    ensures
        style == styled::colored(color_of(name@)),
{
    let color: Color = if same_text(name, "comment") {
        Color::DarkGray
    } else if same_text(name, "string") {
        Color::Green
    } else if same_text(name, "escape") || same_text(name, "punctuation.special") {
        Color::LightMagenta
    } else if same_text(name, "number") || same_text(name, "constant") || same_text(name, "constant.builtin") || same_text(name, "boolean") {
        Color::Yellow
    } else if same_text(name, "keyword") || same_text(name, "attribute") {
        Color::Magenta
    } else if same_text(name, "function") || same_text(name, "function.builtin") || same_text(name, "function.method") {
        Color::Blue
    } else if same_text(name, "type") || same_text(name, "constructor") {
        Color::Cyan
    } else if same_text(name, "property") {
        Color::LightCyan
    } else if same_text(name, "label") {
        Color::LightBlue
    } else {
        Color::Default
    };
    color_style(color)
}

// ---------------------------------------------------------------------------
// Steps to lines
// ---------------------------------------------------------------------------

/// `lines` with a piece of text at the end of the last one.
pub open spec fn appended(
    lines: Seq<styled::LineView>,
    part: Seq<char>,
    style: Style,
) -> Seq<styled::LineView> {
    if part.len() == 0 {
        lines
    } else {
        lines.update(
            lines.len() - 1,
            lines.last().push(styled::SpanView { text: part, style }),
        )
    }
}

/// `lines` with the first `n` of `parts`: the first one at the end of the last
/// line, each other one on a line of its own.
pub open spec fn with_parts(
    lines: Seq<styled::LineView>,
    parts: Seq<Seq<char>>,
    n: int,
    style: Style,
) -> Seq<styled::LineView>
    decreases n,
{
    if n <= 0 {
        lines
    } else if n == 1 {
        appended(lines, parts[0], style)
    } else {
        appended(with_parts(lines, parts, n - 1, style).push(seq![]), parts[n - 1], style)
    }
}

/// `lines` with a text that may hold line ends.
pub open spec fn with_text(
    lines: Seq<styled::LineView>,
    s: Seq<char>,
    style: Style,
) -> Seq<styled::LineView> {
    let parts = text::split_char(s, '\n');
    with_parts(lines, parts, parts.len() as int, style)
}

/// The style of the kind that was started last.
pub open spec fn style_on(stack: Seq<usize>) -> Style {
    if stack.len() > 0 && stack.last() < highlight_names().len() {
        styled::colored(color_of(highlight_names()[stack.last() as int]))
    } else {
        styled::colored(Color::Default)
    }
}

/// Whether offsets cut a text between its characters.
pub open spec fn is_range(source: Seq<char>, start: int, end: int) -> bool {
    let bytes = encode_utf8(source);
    start <= end && is_char_boundary(bytes, start) && is_char_boundary(bytes, end)
}

/// The lines and the started kinds after the first `n` steps; `None` where a
/// step names bytes that are no text.
pub open spec fn after_steps(source: Seq<char>, steps: Seq<HighlightStep>, n: int) -> Option<
    (Seq<styled::LineView>, Seq<usize>),
>
    decreases n,
{
    if n <= 0 {
        Some((seq![seq![]], seq![]))
    } else {
        match after_steps(source, steps, n - 1) {
            None => None,
            Some((lines, stack)) => match steps[n - 1] {
                HighlightStep::Start(kind) => Some((lines, stack.push(kind))),
                HighlightStep::End => Some(
                    (
                        lines,
                        if stack.len() > 0 {
                            stack.drop_last()
                        } else {
                            stack
                        },
                    ),
                ),
                HighlightStep::Text(start, end) => if is_range(source, start as int, end as int) {
                    Some(
                        (
                            with_text(
                                lines,
                                text::byte_slice(source, start as int, end as int),
                                style_on(stack),
                            ),
                            stack,
                        ),
                    )
                } else {
                    None
                },
            },
        }
    }
}

/// A line without a carriage return at its end.
pub open spec fn without_cr(line: styled::LineView) -> styled::LineView {
    if line.len() > 0 && line.last().text.len() > 0 && line.last().text.last() == '\r' {
        line.update(
            line.len() - 1,
            styled::SpanView { text: line.last().text.drop_last(), style: line.last().style },
        )
    } else {
        line
    }
}

/// The lines of a source, of what stands between its line ends: a carriage
/// return belongs to the line end, and there is no line behind the last one.
pub open spec fn finished(lines: Seq<styled::LineView>) -> Seq<styled::LineView> {
    let ended = lines.drop_last().map_values(|l: styled::LineView| without_cr(l));
    if lines.last().len() == 0 {
        ended
    } else {
        ended.push(lines.last())
    }
}

/// The text that the first `n` steps pass over.
pub open spec fn passed_over(source: Seq<char>, steps: Seq<HighlightStep>, n: int) -> Seq<char>
    decreases n,
{
    if n <= 0 {
        seq![]
    } else {
        match steps[n - 1] {
            HighlightStep::Text(start, end) => passed_over(source, steps, n - 1)
                + text::byte_slice(source, start as int, end as int),
            _ => passed_over(source, steps, n - 1),
        }
    }
}

/// The lines that steps make of a source; `None` where a step names bytes that
/// are no text, or where the steps do not pass over the source from its start
/// to its end.
pub open spec fn highlighted(source: Seq<char>, steps: Seq<HighlightStep>) -> Option<
    Seq<styled::LineView>,
> {
    match after_steps(source, steps, steps.len() as int) {
        Some((lines, _)) => if passed_over(source, steps, steps.len() as int) == source {
            Some(finished(lines))
        } else {
            None
        },
        None => None,
    }
}

/// The lines of a source in the usual style.
pub open spec fn unstyled(source: Seq<char>) -> Seq<styled::LineView> {
    text::lines(source).map_values(|l: Seq<char>| styled::plain(l))
}

// ---------------------------------------------------------------------------
// Highlighting keeps the text
// ---------------------------------------------------------------------------

/// The texts of lines.
pub open spec fn texts(lines: Seq<styled::LineView>) -> Seq<Seq<char>> {
    lines.map_values(|l: styled::LineView| styled::line_text(l))
}

/// No line holds an empty piece.
spec fn solid(lines: Seq<styled::LineView>) -> bool {
    forall|i: int, j: int|
        0 <= i < lines.len() && 0 <= j < lines[i].len() ==> (#[trigger] lines[i][j]).text.len() > 0
}

/// `parts` behind the last of `pieces`.
spec fn glued(pieces: Seq<Seq<char>>, parts: Seq<Seq<char>>, n: int) -> Seq<Seq<char>> {
    pieces.drop_last() + seq![pieces.last() + parts[0]] + parts.subrange(1, n)
}

/// A text at the end of the last line.
proof fn lemma_appended(lines: Seq<styled::LineView>, part: Seq<char>, style: Style)
    requires
        lines.len() > 0,
        solid(lines),
    ensures
        appended(lines, part, style).len() == lines.len(),
        solid(appended(lines, part, style)),
        texts(appended(lines, part, style)) == texts(lines).update(
            lines.len() - 1,
            texts(lines).last() + part,
        ),
{
    let next = appended(lines, part, style);
    if part.len() == 0 {
        assert(texts(lines).last() + part =~= texts(lines).last());
        assert(texts(next) =~= texts(lines).update(
            lines.len() - 1,
            texts(lines).last() + part,
        ));
    } else {
        let span = styled::SpanView { text: part, style };
        let line = lines.last().push(span);
        assert(line.drop_last() =~= lines.last());
        assert(styled::line_text(line) == styled::line_text(lines.last()) + part);
        assert(texts(next) =~= texts(lines).update(
            lines.len() - 1,
            texts(lines).last() + part,
        ));
        assert forall|i: int, j: int| 0 <= i < next.len() && 0 <= j < next[i].len() implies (
        #[trigger] next[i][j]).text.len() > 0 by {
            if i < lines.len() - 1 {
                assert(next[i] == lines[i]);
                assert(lines[i][j].text.len() > 0);
            } else if j < lines.last().len() {
                assert(next[i][j] == lines[i][j]);
            }
        }
    }
}

/// Texts on the lines that they end and start.
proof fn lemma_with_parts(
    lines: Seq<styled::LineView>,
    parts: Seq<Seq<char>>,
    n: int,
    style: Style,
)
    requires
        lines.len() > 0,
        solid(lines),
        1 <= n <= parts.len(),
    ensures
        solid(with_parts(lines, parts, n, style)),
        with_parts(lines, parts, n, style).len() > 0,
        texts(with_parts(lines, parts, n, style)) == glued(texts(lines), parts, n),
    decreases n,
{
    if n == 1 {
        lemma_appended(lines, parts[0], style);
        assert(texts(with_parts(lines, parts, n, style)) =~= glued(texts(lines), parts, n));
    } else {
        lemma_with_parts(lines, parts, n - 1, style);
        let before = with_parts(lines, parts, n - 1, style);
        let opened = before.push(seq![]);
        assert forall|i: int, j: int| 0 <= i < opened.len() && 0 <= j < opened[i].len() implies (
        #[trigger] opened[i][j]).text.len() > 0 by {
            if i < before.len() {
                assert(before[i][j].text.len() > 0);
            }
        }
        lemma_appended(opened, parts[n - 1], style);
        assert(styled::line_text(seq![]) =~= seq![]);
        assert(texts(opened) =~= texts(before).push(seq![]));
        assert(texts(opened).last() + parts[n - 1] =~= parts[n - 1]);
        assert(texts(with_parts(lines, parts, n, style)) =~= glued(texts(lines), parts, n));
    }
}

/// Joining parts behind pieces puts one joined text behind the other.
proof fn lemma_glued_join(pieces: Seq<Seq<char>>, parts: Seq<Seq<char>>, n: int, sep: Seq<char>)
    requires
        pieces.len() > 0,
        1 <= n <= parts.len(),
    ensures
        text::join(glued(pieces, parts, n), sep) == text::join(pieces, sep) + text::join(
            parts.take(n),
            sep,
        ),
    decreases n,
{
    let g = glued(pieces, parts, n);
    if n == 1 {
        assert(g =~= pieces.drop_last().push(pieces.last() + parts[0]));
        assert(parts.take(1) =~= seq![parts[0]]);
        if pieces.len() == 1 {
            assert(g =~= seq![pieces[0] + parts[0]]);
        } else {
            assert(g.drop_last() =~= pieces.drop_last());
            assert(text::join(g, sep) =~= text::join(pieces, sep) + parts[0]);
        }
    } else {
        lemma_glued_join(pieces, parts, n - 1, sep);
        assert(g.drop_last() =~= glued(pieces, parts, n - 1));
        assert(g.last() == parts[n - 1]);
        assert(parts.take(n).drop_last() =~= parts.take(n - 1));
        assert(parts.take(n).last() == parts[n - 1]);
        assert(text::join(g, sep) =~= text::join(pieces, sep) + text::join(parts.take(n), sep));
    }
}

/// Splitting a text that another one follows.
proof fn lemma_split_more(s: Seq<char>, t: Seq<char>)
    ensures
        text::split_char(s + t, '\n') == glued(
            text::split_char(s, '\n'),
            text::split_char(t, '\n'),
            text::split_char(t, '\n').len() as int,
        ),
{
    let pieces = text::split_char(s, '\n');
    let parts = text::split_char(t, '\n');
    let n = parts.len() as int;
    text::lemma_split_char_nonempty(s, '\n');
    text::lemma_split_char_nonempty(t, '\n');
    text::lemma_split_char_pieces(s, '\n');
    text::lemma_split_char_pieces(t, '\n');
    text::lemma_join_split(s, '\n');
    text::lemma_join_split(t, '\n');
    lemma_glued_join(pieces, parts, n, seq!['\n']);
    assert(parts.take(n) =~= parts);
    let g = glued(pieces, parts, n);
    assert forall|i: int| 0 <= i < g.len() implies !(#[trigger] g[i]).contains('\n') by {
        if i < pieces.len() - 1 {
            assert(g[i] == pieces[i]);
        } else if i == pieces.len() - 1 {
            assert(g[i] == pieces.last() + parts[0]);
            if g[i].contains('\n') {
                let k = choose|k: int| 0 <= k < g[i].len() && g[i][k] == '\n';
                if k < pieces.last().len() {
                    assert(pieces[pieces.len() - 1][k] == '\n');
                    assert(pieces[pieces.len() - 1].contains('\n'));
                } else {
                    assert(parts[0][k - pieces.last().len()] == '\n');
                    assert(parts[0].contains('\n'));
                }
            }
        } else {
            assert(g[i] == parts[i - pieces.len() + 1]);
        }
    }
    text::lemma_split_join(g, '\n');
}

/// The lines after some steps are what they passed over, split at line ends.
proof fn lemma_after_steps(source: Seq<char>, steps: Seq<HighlightStep>, n: int)
    requires
        0 <= n <= steps.len(),
    ensures
        after_steps(source, steps, n) matches Some((lines, _)) ==> lines.len() > 0 && solid(lines)
            && texts(lines) == text::split_char(passed_over(source, steps, n), '\n'),
    decreases n,
{
    if n == 0 {
        let lines: Seq<styled::LineView> = seq![seq![]];
        assert(styled::line_text(seq![]) =~= seq![]);
        assert(text::find_char(seq![], '\n') == 0);
        assert(text::split_char(seq![], '\n') =~= seq![seq![]]);
        assert(texts(lines) =~= seq![seq![]]);
    } else {
        lemma_after_steps(source, steps, n - 1);
        match after_steps(source, steps, n - 1) {
            Some((lines, stack)) => match steps[n - 1] {
                HighlightStep::Text(start, end) => {
                    let s = passed_over(source, steps, n - 1);
                    let t = text::byte_slice(source, start as int, end as int);
                    let parts = text::split_char(t, '\n');
                    text::lemma_split_char_nonempty(t, '\n');
                    lemma_with_parts(lines, parts, parts.len() as int, style_on(stack));
                    lemma_split_more(s, t);
                },
                _ => {},
            },
            None => {},
        }
    }
}

/// The lines of a text, of the pieces between its line ends.
spec fn of_pieces(pieces: Seq<Seq<char>>) -> Seq<Seq<char>> {
    let ended = pieces.drop_last().map_values(|p: Seq<char>| text::strip_cr(p));
    if pieces.last().len() == 0 {
        ended
    } else {
        ended.push(pieces.last())
    }
}

/// The lines of a text are those of the pieces between its line ends.
proof fn lemma_lines_of_pieces(s: Seq<char>)
    ensures
        text::lines(s) == of_pieces(text::split_char(s, '\n')),
    decreases s.len(),
{
    text::lemma_find_char(s, '\n');
    let i = text::find_char(s, '\n');
    let pieces = text::split_char(s, '\n');
    if s.len() == 0 {
        assert(pieces =~= seq![s]);
        assert(of_pieces(pieces) =~= seq![]);
    } else if i < s.len() {
        let rest = s.skip(i + 1);
        lemma_lines_of_pieces(rest);
        text::lemma_split_char_nonempty(rest, '\n');
        let more = text::split_char(rest, '\n');
        assert(pieces =~= seq![s.take(i)] + more);
        assert(pieces.drop_last() =~= seq![s.take(i)] + more.drop_last());
        assert(of_pieces(pieces) =~= seq![text::strip_cr(s.take(i))] + of_pieces(more));
    } else {
        assert(pieces =~= seq![s]);
        assert(of_pieces(pieces) =~= seq![s]);
    }
}

/// The text of a line without the carriage return at its end.
proof fn lemma_without_cr(line: styled::LineView)
    requires
        forall|j: int| 0 <= j < line.len() ==> (#[trigger] line[j]).text.len() > 0,
    ensures
        styled::line_text(without_cr(line)) == text::strip_cr(styled::line_text(line)),
{
    if line.len() == 0 {
        assert(styled::line_text(line) =~= seq![]);
    } else {
        let last = line[line.len() - 1];
        assert(last.text.len() > 0);
        let whole = styled::line_text(line);
        assert(whole == styled::line_text(line.drop_last()) + last.text);
        assert(whole.last() == last.text.last());
        if last.text.last() == '\r' {
            let cut = without_cr(line);
            assert(cut.drop_last() =~= line.drop_last());
            assert(styled::line_text(cut) =~= whole.drop_last());
        }
    }
}

/// The text of a line of solid pieces is empty only where the line is.
proof fn lemma_empty_line(line: styled::LineView)
    requires
        forall|j: int| 0 <= j < line.len() ==> (#[trigger] line[j]).text.len() > 0,
    ensures
        styled::line_text(line).len() == 0 <==> line.len() == 0,
{
    if line.len() > 0 {
        assert(line[line.len() - 1].text.len() > 0);
        assert(styled::line_text(line) == styled::line_text(line.drop_last()) + line.last().text);
    }
}

/// What is highlighted has one line for each line of the source, with the same
/// text, whatever the steps.
pub proof fn law_highlighting_keeps_the_text(source: Seq<char>, steps: Seq<HighlightStep>)
    ensures
        highlighted(source, steps) matches Some(lines) ==> texts(lines) == text::lines(source),
{
    let n = steps.len() as int;
    lemma_after_steps(source, steps, n);
    match after_steps(source, steps, n) {
        Some((lines, _)) => {
            lemma_lines_of_pieces(source);
            let pieces = texts(lines);
            assert forall|i: int| 0 <= i < lines.len() implies styled::line_text(
                without_cr(#[trigger] lines[i]),
            ) == text::strip_cr(styled::line_text(lines[i])) && (styled::line_text(lines[i]).len()
                == 0 <==> lines[i].len() == 0) by {
                assert forall|j: int| 0 <= j < lines[i].len() implies (
                #[trigger] lines[i][j]).text.len() > 0 by {}
                lemma_without_cr(lines[i]);
                lemma_empty_line(lines[i]);
            }
            assert(lines.last() == lines[lines.len() - 1]);
            assert(texts(finished(lines)) =~= of_pieces(pieces));
        },
        None => {},
    }
}

// ---------------------------------------------------------------------------
// The executable side
// ---------------------------------------------------------------------------

/// The steps by which `tree_sitter_highlight` highlights a source with the
/// query that comes with the grammar; `None` where it reports an error.
pub uninterp spec fn highlight_steps(
    grammar: Grammar,
    source: Seq<char>,
    names: Seq<Seq<char>>,
) -> Option<Seq<HighlightStep>>;

/// `Highlighter::highlight`, with a `HighlightConfiguration` that was told by
/// `configure` to report the kinds in `names`: the steps depend on the grammar,
/// the source and the kinds alone.
#[verifier::external_body]
fn highlight_source(grammar: Grammar, source: &str, names: &Vec<String>) -> (steps: Option<
    Vec<HighlightStep>,
>)
    ensures
        match steps {
            Some(v) => highlight_steps(grammar, source@, text::views(names@)) == Some(v@),
            None => highlight_steps(grammar, source@, text::views(names@)) is None,
        },
{
    let (language, query) = match grammar {
        Grammar::Python => (PYTHON, PYTHON_QUERY),
        Grammar::Bash => (BASH, BASH_QUERY),
        Grammar::Json => (JSON, JSON_QUERY),
        Grammar::Yaml => (YAML, YAML_QUERY),
    };
    let mut config = HighlightConfiguration::new(language.into(), "", query, "", "").ok()?;
    config.configure(names);
    let mut highlighter = Highlighter::new();
    let events = highlighter.highlight(&config, source.as_bytes(), None, None, |_| None).ok()?;
    events.map(|e| e.ok().map(|e| match e {
        HighlightEvent::Source { start, end } => HighlightStep::Text(start, end),
        HighlightEvent::HighlightStart(kind) => HighlightStep::Start(kind.0),
        HighlightEvent::HighlightEnd => HighlightStep::End,
    })).collect()
}

/// Puts a piece of text at the end of the last line.
fn append_part(lines: &mut Vec<Line>, part: String, style: Style)
    requires
        old(lines)@.len() > 0,
    ensures
        final(lines)@.len() == old(lines)@.len(),
        styled::line_views(final(lines)@) == appended(
            styled::line_views(old(lines)@),
            part@,
            style,
        ),
{
    if part.as_str().is_empty() {
        return ;
    }
    let ghost before = styled::line_views(lines@);
    match lines.pop() {
        Some(line) => {
            let mut line: Line = line;
            let ghost start = styled::line_view(line@);
            let ghost span = styled::SpanView { text: part@, style };
            line.push(Span { text: part, style });
            assert(styled::line_view(line@) =~= start.push(span));
            lines.push(line);
            assert(styled::line_views(lines@) =~= before.update(
                before.len() - 1,
                before.last().push(span),
            ));
        },
        None => {},
    }
}

/// Puts a text that may hold line ends behind the lines.
pub fn push_text(lines: &mut Vec<Line>, part: &str, style: Style)
    requires
        old(lines)@.len() > 0,
    ensures
        final(lines)@.len() > 0,
        styled::line_views(final(lines)@) == with_text(
            styled::line_views(old(lines)@),
            part@,
            style,
        ),
{
    let ghost start = styled::line_views(lines@);
    let pieces: Vec<String> = split_text(part, '\n');
    let ghost parts = text::split_char(part@, '\n');
    proof {
        text::lemma_split_char_nonempty(part@, '\n');
        assert(parts.len() == pieces@.len());
    }
    assert(parts[0] == pieces@[0]@);
    append_part(lines, pieces[0].clone(), style);
    let mut i: usize = 1;
    while i < pieces.len()
        invariant
            1 <= i <= pieces@.len(),
            lines@.len() > 0,
            parts == text::views(pieces@),
            styled::line_views(lines@) == with_parts(start, parts, i as int, style),
        decreases pieces@.len() - i,
    {
        let ghost before = styled::line_views(lines@);
        let line: Line = Vec::new();
        lines.push(line);
        assert(styled::line_view(line@) =~= seq![]);
        assert(styled::line_views(lines@) =~= before.push(seq![]));
        assert(parts[i as int] == pieces@[i as int]@);
        append_part(lines, pieces[i].clone(), style);
        i = i + 1;
    }
}

/// The style of the kind that was started last.
fn current_style(stack: &Vec<usize>, names: &Vec<String>) -> (style: Style)
    requires
        text::views(names@) == highlight_names(),
    ensures
        style == style_on(stack@),
{
    if stack.len() > 0 {
        let kind: usize = stack[stack.len() - 1];
        if kind < names.len() {
            assert(highlight_names()[kind as int] == names@[kind as int]@);
            return style_for(names[kind].as_str());
        }
    }
    color_style(Color::Default)
}

/// A line without a carriage return at its end.
fn strip_line_end(line: Line) -> (stripped: Line)
    ensures
        styled::line_view(stripped@) == without_cr(styled::line_view(line@)),
{
    let ghost before = styled::line_view(line@);
    let mut line: Line = line;
    match line.pop() {
        Some(span) => {
            let v: Vec<char> = chars_of(span.text.as_str());
            let n: usize = v.len();
            assert(before.last() == span@);
            if n > 0 && v[n - 1] == '\r' {
                let cut: String = slice_text(&v, 0, n - 1);
                assert(cut@ =~= span.text@.drop_last());
                line.push(Span { text: cut, style: span.style });
            } else {
                line.push(span);
            }
            assert(styled::line_view(line@) =~= without_cr(before));
        },
        None => {
            assert(styled::line_view(line@) =~= without_cr(before));
        },
    }
    line
}

/// The lines of a source, of what stands between its line ends.
fn finish_lines(lines: Vec<Line>) -> (done: Vec<Line>)
    requires
        lines@.len() > 0,
    ensures
        styled::line_views(done@) == finished(styled::line_views(lines@)),
{
    let ghost all = styled::line_views(lines@);
    let ghost n = lines@.len() as int;
    let mut lines: Vec<Line> = lines;
    let mut reversed: Vec<Line> = Vec::new();
    match lines.pop() {
        Some(last) => {
            assert(styled::line_view(last@) == all.last());
            if last.len() > 0 {
                reversed.push(last);
            }
        },
        None => {},
    }
    let ghost target = finished(all);
    let ghost extra = if all.last().len() == 0 {
        0int
    } else {
        1int
    };
    assert(target.len() == n - 1 + extra);
    while lines.len() > 0
        invariant
            n == all.len(),
            n > 0,
            target == finished(all),
            0 <= extra <= 1,
            target.len() == n - 1 + extra,
            lines@.len() <= n - 1,
            reversed@.len() + lines@.len() == target.len(),
            forall|j: int|
                0 <= j < lines@.len() ==> styled::line_view((#[trigger] lines@[j])@) == all[j],
            forall|j: int|
                0 <= j < reversed@.len() ==> styled::line_view((#[trigger] reversed@[j])@)
                    == target[target.len() - 1 - j],
        decreases lines@.len(),
    {
        let ghost k = lines@.len() - 1;
        let ghost before = lines@;
        match lines.pop() {
            Some(line) => {
                assert(line == before[k]);
                let stripped: Line = strip_line_end(line);
                assert(target[k] == without_cr(all[k]));
                reversed.push(stripped);
            },
            None => {},
        }
        assert(lines@ =~= before.drop_last());
    }
    let mut done: Vec<Line> = Vec::new();
    while reversed.len() > 0
        invariant
            done@.len() + reversed@.len() == target.len(),
            forall|j: int|
                0 <= j < reversed@.len() ==> styled::line_view((#[trigger] reversed@[j])@)
                    == target[target.len() - 1 - j],
            forall|j: int|
                0 <= j < done@.len() ==> styled::line_view((#[trigger] done@[j])@) == target[j],
        decreases reversed@.len(),
    {
        let ghost before = reversed@;
        match reversed.pop() {
            Some(line) => {
                assert(line == before[before.len() - 1]);
                done.push(line);
            },
            None => {},
        }
        assert(reversed@ =~= before.drop_last());
    }
    assert(styled::line_views(done@) =~= target);
    done
}

/// The lines that steps make of a source.
pub fn lines_of_steps(source: &str, steps: &Vec<HighlightStep>) -> (lines: Option<Vec<Line>>)
    ensures
        match lines {
            Some(v) => highlighted(source@, steps@) == Some(styled::line_views(v@)),
            None => highlighted(source@, steps@) is None,
        },
{
    let names: Vec<String> = names_to_highlight();
    let mut lines: Vec<Line> = Vec::new();
    let first: Line = Vec::new();
    lines.push(first);
    assert(styled::line_view(first@) =~= seq![]);
    assert(styled::line_views(lines@) =~= seq![seq![]]);
    let mut stack: Vec<usize> = Vec::new();
    assert(stack@ =~= seq![]);
    let mut passed: String = String::new();
    let mut i: usize = 0;
    while i < steps.len()
        invariant
            i <= steps@.len(),
            passed@ == passed_over(source@, steps@, i as int),
            lines@.len() > 0,
            text::views(names@) == highlight_names(),
            after_steps(source@, steps@, i as int) == Some(
                (styled::line_views(lines@), stack@),
            ),
        decreases steps@.len() - i,
    {
        match steps[i] {
            HighlightStep::Start(kind) => stack.push(kind),
            HighlightStep::End => {
                let ghost before = stack@;
                stack.pop();
                assert(before.len() > 0 ==> stack@ =~= before.drop_last());
            },
            HighlightStep::Text(start, end) => {
                proof {
                    encode_utf8_valid_utf8(source@);
                }
                if start > end || !source.is_char_boundary(start) || !source.is_char_boundary(
                    end,
                ) {
                    proof {
                        lemma_stays_none(source@, steps@, i + 1, steps@.len() as int);
                    }
                    return None;
                }
                let part: &str = slice_bytes(source, start, end);
                let style: Style = current_style(&stack, &names);
                push_text(&mut lines, part, style);
                passed.append(part);
            },
        }
        i = i + 1;
    }
    if same_text(passed.as_str(), source) {
        Some(finish_lines(lines))
    } else {
        None
    }
}

/// Once a step failed, all further ones do.
proof fn lemma_stays_none(source: Seq<char>, steps: Seq<HighlightStep>, m: int, n: int)
    requires
        m <= n,
        after_steps(source, steps, m) is None,
    ensures
        after_steps(source, steps, n) is None,
    decreases n - m,
{
    if m < n {
        lemma_stays_none(source, steps, m, n - 1);
        assert(n > 0);
    }
}

/// The lines of a source in the usual style.
pub fn plain_lines(source: &str) -> (lines: Vec<Line>)
    ensures
        styled::line_views(lines@) == unstyled(source@),
{
    let parts: Vec<String> = split_lines(source);
    let ghost all = text::lines(source@);
    let mut lines: Vec<Line> = Vec::new();
    let mut i: usize = 0;
    assert(styled::line_views(lines@) =~= unstyled(source@).take(0));
    while i < parts.len()
        invariant
            i <= parts@.len(),
            all == text::views(parts@),
            all == text::lines(source@),
            styled::line_views(lines@) == unstyled(source@).take(i as int),
        decreases parts@.len() - i,
    {
        assert(all[i as int] == parts@[i as int]@);
        push_line(&mut lines, plain_line(parts[i].clone()));
        assert(styled::line_views(lines@) =~= unstyled(source@).take(i + 1));
        i = i + 1;
    }
    assert(unstyled(source@).take(all.len() as int) =~= unstyled(source@));
    lines
}

/// A line in the usual style has the text of its line.
proof fn lemma_unstyled(source: Seq<char>)
    ensures
        texts(unstyled(source)) == text::lines(source),
{
    let lines = text::lines(source);
    assert forall|i: int| 0 <= i < lines.len() implies styled::line_text(
        #[trigger] unstyled(source)[i],
    ) == lines[i] by {
        let line = styled::plain(lines[i]);
        assert(line.drop_last() =~= seq![]);
        assert(styled::line_text(seq![]) =~= seq![]);
        assert(styled::line_text(line) =~= lines[i]);
    }
    assert(texts(unstyled(source)) =~= lines);
}

/// Whatever is shown of a source has one line for each of its lines, with the
/// same text.
pub proof fn law_shown_lines_are_those_of_the_source(
    source: Seq<char>,
    key: Seq<char>,
    in_time: bool,
)
    ensures
        texts(shown_lines(source, key, in_time)) == text::lines(source),
{
    lemma_unstyled(source);
    if let Some(grammar) = grammar_of(key) {
        if let Some(steps) = highlight_steps(grammar, source, highlight_names()) {
            law_highlighting_keeps_the_text(source, steps);
        }
    }
}

/// The grammar of a key.
pub open spec fn grammar_of(key: Seq<char>) -> Option<Grammar> {
    if key == "python"@ {
        Some(Grammar::Python)
    } else if key == "bash"@ {
        Some(Grammar::Bash)
    } else if key == "json"@ {
        Some(Grammar::Json)
    } else if key == "yaml"@ {
        Some(Grammar::Yaml)
    } else {
        None
    }
}

/// The grammar of a key.
fn grammar_for(key: &str) -> (g: Option<Grammar>)
    ensures
        g == grammar_of(key@),
{
    if same_text(key, "python") {
        Some(Grammar::Python)
    } else if same_text(key, "bash") {
        Some(Grammar::Bash)
    } else if same_text(key, "json") {
        Some(Grammar::Json)
    } else if same_text(key, "yaml") {
        Some(Grammar::Yaml)
    } else {
        None
    }
}

/// The highlighted lines of a source; `None` where the highlighter fails.
pub open spec fn styled_lines(grammar: Grammar, source: Seq<char>) -> Option<
    Seq<styled::LineView>,
> {
    match highlight_steps(grammar, source, highlight_names()) {
        Some(steps) => highlighted(source, steps),
        None => None,
    }
}

/// The lines of a source whose language has the key `key`: highlighted where
/// the key has a grammar, the source can be parsed in time, and the
/// highlighter does not fail; plain otherwise.
pub open spec fn shown_lines(source: Seq<char>, key: Seq<char>, in_time: bool) -> Seq<
    styled::LineView,
> {
    match grammar_of(key) {
        Some(grammar) => if source.len() > 0 && in_time {
            match styled_lines(grammar, source) {
                Some(lines) => lines,
                None => unstyled(source),
            }
        } else {
            unstyled(source)
        },
        None => unstyled(source),
    }
}

/// The highlighted lines of a source; `None` where the highlighter fails.
fn try_highlight(source: &str, grammar: Grammar) -> (lines: Option<Vec<Line>>)
    ensures
        match lines {
            Some(v) => styled_lines(grammar, source@) == Some(styled::line_views(v@)),
            None => styled_lines(grammar, source@) is None,
        },
{
    match highlight_source(grammar, source, &names_to_highlight()) {
        Some(steps) => lines_of_steps(source, &steps),
        None => None,
    }
}

/// The lines of a source. `in_time` tells whether it can be parsed in time.
pub fn lines_in_time(source: &str, language: &str, in_time: bool) -> (lines: Vec<Line>)
    ensures
        styled::line_views(lines@) == shown_lines(
            source@,
            treesitter_deps::lang_key(patterns::unicode_lower(language@)),
            in_time,
        ),
{
    if source.is_empty() || !in_time {
        return plain_lines(source);
    }
    match grammar_for(normalise_lang(language)) {
        Some(grammar) => match try_highlight(source, grammar) {
            Some(lines) => lines,
            None => plain_lines(source),
        },
        None => plain_lines(source),
    }
}

/// The lines of a source, highlighted where its language has a grammar and the
/// source can be parsed in time. The highlighter has no time limit of its own,
/// so a source that cannot be parsed in time is not handed to it.
pub fn highlight_lines(source: &str, language: &str) -> (lines: Vec<Line>)
    ensures
        exists|in_time: bool| #[trigger]
            shown_lines(
                source@,
                treesitter_deps::lang_key(patterns::unicode_lower(language@)),
                in_time,
            ) == styled::line_views(lines@),
        texts(styled::line_views(lines@)) == text::lines(source@),
{
    let in_time: bool = match grammar_for(normalise_lang(language)) {
        Some(grammar) => parse(grammar, source).is_some(),
        None => false,
    };
    proof {
        law_shown_lines_are_those_of_the_source(
            source@,
            treesitter_deps::lang_key(patterns::unicode_lower(language@)),
            in_time,
        );
    }
    lines_in_time(source, language, in_time)
}

/// Started kinds nest: the end of one leads back to the style before it, and
/// meanwhile text has the colour of the kind that was started last.
pub proof fn law_started_kinds_nest(source: Seq<char>, steps: Seq<HighlightStep>, kind: usize)
    ensures
        ({
            let n = steps.len() as int;
            let inside = steps.push(HighlightStep::Start(kind));
            let behind = inside.push(HighlightStep::End);
            &&& after_steps(source, behind, n + 2) == after_steps(source, steps, n)
            &&& after_steps(source, inside, n + 1) matches Some((_, stack)) ==> kind
                < highlight_names().len() ==> style_on(stack) == styled::colored(
                color_of(highlight_names()[kind as int]),
            )
        }),
        style_on(seq![]) == styled::colored(Color::Default),
{
    let n = steps.len() as int;
    let inside = steps.push(HighlightStep::Start(kind));
    let behind = inside.push(HighlightStep::End);
    lemma_first_steps(source, steps, behind, n);
    lemma_first_steps(source, steps, inside, n);
    lemma_first_steps(source, inside, behind, n + 1);
    match after_steps(source, steps, n) {
        Some((_, stack)) => {
            assert(stack.push(kind).drop_last() =~= stack);
        },
        None => {},
    }
}

/// What the first steps do does not depend on those behind.
proof fn lemma_first_steps(
    source: Seq<char>,
    a: Seq<HighlightStep>,
    b: Seq<HighlightStep>,
    n: int,
)
    requires
        n <= a.len(),
        n <= b.len(),
        forall|i: int| 0 <= i < n ==> a[i] == b[i],
    ensures
        after_steps(source, a, n) == after_steps(source, b, n),
    decreases n,
{
    if n > 0 {
        lemma_first_steps(source, a, b, n - 1);
        assert(a[n - 1] == b[n - 1]);
    }
}

/// Comments are grey, strings green, constants of every kind yellow, keywords
/// magenta, functions blue, types cyan; properties and labels are light, and
/// what is none of these has no colour of its own.
pub proof fn law_kinds_are_told_apart_by_colour(name: Seq<char>)
    ensures
        name == "comment"@ ==> color_of(name) == Color::DarkGray,
        name == "string"@ ==> color_of(name) == Color::Green,
        name == "number"@ || name == "constant"@ || name == "boolean"@ ==> color_of(name)
            == Color::Yellow,
        name == "keyword"@ || name == "attribute"@ ==> color_of(name) == Color::Magenta,
        name == "function"@ ==> color_of(name) == Color::Blue,
        name == "type"@ || name == "constructor"@ ==> color_of(name) == Color::Cyan,
        name == "property"@ ==> color_of(name) == Color::LightCyan,
        name == "label"@ ==> color_of(name) == Color::LightBlue,
        name == "escape"@ ==> color_of(name) == Color::LightMagenta,
        name == "variable"@ || name == "operator"@ ==> color_of(name) == Color::Default,
{
    reveal_strlit("comment");
    reveal_strlit("string");
    reveal_strlit("escape");
    reveal_strlit("punctuation.special");
    reveal_strlit("number");
    reveal_strlit("constant");
    reveal_strlit("constant.builtin");
    reveal_strlit("boolean");
    reveal_strlit("keyword");
    reveal_strlit("attribute");
    reveal_strlit("function");
    reveal_strlit("function.builtin");
    reveal_strlit("function.method");
    reveal_strlit("type");
    reveal_strlit("constructor");
    reveal_strlit("property");
    reveal_strlit("label");
    reveal_strlit("variable");
    reveal_strlit("operator");
    assert("comment"@.len() == 7 && "comment"@[0] == 'c');
    assert("boolean"@.len() == 7 && "boolean"@[0] == 'b');
    assert("keyword"@.len() == 7 && "keyword"@[0] == 'k');
    assert("string"@.len() == 6 && "string"@[0] == 's');
    assert("escape"@.len() == 6 && "escape"@[0] == 'e');
    assert("number"@.len() == 6 && "number"@[0] == 'n');
    assert("constant"@.len() == 8 && "constant"@[0] == 'c');
    assert("function"@.len() == 8 && "function"@[0] == 'f');
    assert("property"@.len() == 8 && "property"@[0] == 'p');
    assert("variable"@.len() == 8 && "variable"@[0] == 'v');
    assert("operator"@.len() == 8 && "operator"@[0] == 'o');
    assert("attribute"@.len() == 9 && "type"@.len() == 4 && "label"@.len() == 5);
    assert("constructor"@.len() == 11 && "punctuation.special"@.len() == 19);
    assert("constant.builtin"@.len() == 16 && "constant.builtin"@[0] == 'c');
    assert("function.builtin"@.len() == 16 && "function.builtin"@[0] == 'f');
    assert("function.method"@.len() == 15);
}

/// A source in a language with a grammar is highlighted where that works in
/// time; where the key has no grammar, or the time has passed, its lines are
/// plain.
pub proof fn law_sources_are_highlighted_in_time(
    source: Seq<char>,
    key: Seq<char>,
    grammar: Grammar,
    lines: Seq<styled::LineView>,
)
    requires
        source.len() > 0,
    ensures
        grammar_of(key) == Some(grammar) && styled_lines(grammar, source) == Some(lines)
            ==> shown_lines(source, key, true) == lines,
        grammar_of(key) is None ==> shown_lines(source, key, true) == unstyled(source),
        shown_lines(source, key, false) == unstyled(source),
        grammar_of("python"@) == Some(Grammar::Python),
{
}

} // verus!
