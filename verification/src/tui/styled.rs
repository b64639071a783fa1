//! Lines of styled text.

use vstd::prelude::*;

use crate::text::padded_right;
use crate::text;

verus! {

/// A colour of the terminal.
#[derive(Debug, Clone, Copy, PartialEq, Eq, Structural)]
pub enum Color {
    Default,
    Black,
    White,
    Cyan,
    Yellow,
    Green,
    Magenta,
    Blue,
    DarkGray,
    LightMagenta,
    LightCyan,
    LightBlue,
}

/// How text looks.
#[derive(Debug, Clone, Copy, PartialEq, Eq, Structural)]
pub struct Style {
    pub fg: Color,
    pub bg: Color,
    pub bold: bool,
}

/// Text in a colour.
pub open spec fn colored(fg: Color) -> Style {
    Style { fg, bg: Color::Default, bold: false }
}

/// Bold text in a colour.
pub open spec fn strong(fg: Color) -> Style {
    Style { fg, bg: Color::Default, bold: true }
}

/// Text in a colour.
pub fn color_style(fg: Color) -> (s: Style)
    ensures
        s == colored(fg),
{
    Style { fg, bg: Color::Default, bold: false }
}

/// Bold text in a colour.
pub fn bold_style(fg: Color) -> (s: Style)
    ensures
        s == strong(fg),
{
    Style { fg, bg: Color::Default, bold: true }
}

/// The style of labels, section titles and keys.
pub fn label_style() -> (s: Style)
    ensures
        s == strong(Color::Cyan),
{
    bold_style(Color::Cyan)
}

/// A piece of text in one style.
#[derive(Debug)]
pub struct Span {
    pub text: String,
    pub style: Style,
}

/// The value of a piece of text.
pub struct SpanView {
    pub text: Seq<char>,
    pub style: Style,
}

impl View for Span {
    type V = SpanView;

    open spec fn view(&self) -> SpanView {
        SpanView { text: self.text@, style: self.style }
    }
}

/// A line: its pieces from the left.
pub type Line = Vec<Span>;

/// The value of a line.
pub type LineView = Seq<SpanView>;

/// The value of a line.
pub open spec fn line_view(line: Seq<Span>) -> LineView {
    line.map_values(|s: Span| s@)
}

/// The values of lines.
pub open spec fn line_views(lines: Seq<Line>) -> Seq<LineView> {
    lines.map_values(|l: Line| line_view(l@))
}

/// The text of a line.
pub open spec fn line_text(line: LineView) -> Seq<char>
    decreases line.len(),
{
    if line.len() == 0 {
        seq![]
    } else {
        line_text(line.drop_last()) + line.last().text
    }
}

/// A piece of text in the usual style.
pub open spec fn raw(text: Seq<char>) -> SpanView {
    SpanView { text, style: colored(Color::Default) }
}

/// A line of one piece.
pub open spec fn single(text: Seq<char>, style: Style) -> LineView {
    seq![SpanView { text, style }]
}

/// A line in the usual style.
pub open spec fn plain(text: Seq<char>) -> LineView {
    single(text, colored(Color::Default))
}

/// The title of a section.
pub open spec fn section(title: Seq<char>) -> LineView {
    single(title, strong(Color::Cyan))
}

/// A label and what it stands for.
pub open spec fn labelled(label: Seq<char>, width: nat, value: Seq<char>) -> LineView {
    seq![
        SpanView { text: text::pad_right(label, width), style: strong(Color::Cyan) },
        raw(value),
    ]
}

/// A piece of text.
pub fn span(text: String, style: Style) -> (s: Span)
    ensures
        s@ == (SpanView { text: text@, style }),
{
    Span { text, style }
}

/// A line of one piece.
pub fn single_line(text: String, style: Style) -> (line: Line)
    ensures
        line_view(line@) == single(text@, style),
{
    let mut line: Line = Vec::new();
    line.push(Span { text, style });
    assert(line_view(line@) =~= single(text@, style));
    line
}

/// A line in the usual style.
pub fn plain_line(text: String) -> (line: Line)
    ensures
        line_view(line@) == plain(text@),
{
    single_line(text, color_style(Color::Default))
}

/// The title of a section.
pub fn section_line(title: &str) -> (line: Line)
    ensures
        line_view(line@) == section(title@),
{
    single_line(title.to_owned(), label_style())
}

/// A label and what it stands for.
pub fn labelled_line(label: &str, width: usize, value: String) -> (line: Line)
    ensures
        line_view(line@) == labelled(label@, width as nat, value@),
{
    let mut line: Line = Vec::new();
    line.push(Span { text: padded_right(label, width), style: label_style() });
    line.push(Span { text: value, style: color_style(Color::Default) });
    assert(line_view(line@) =~= labelled(label@, width as nat, value@));
    line
}

/// Puts a line behind others.
pub fn push_line(lines: &mut Vec<Line>, line: Line)
    ensures
        line_views(final(lines)@) == line_views(old(lines)@).push(line_view(line@)),
{
    lines.push(line);
    assert(line_views(lines@) =~= line_views(old(lines)@).push(line_view(line@)));
}

/// Puts a piece behind a line.
pub fn push_span(line: &mut Line, text: &str, style: Style)
    ensures
        line_view(final(line)@) == line_view(old(line)@).push(SpanView { text: text@, style }),
{
    line.push(Span { text: text.to_owned(), style });
    assert(line_view(line@) =~= line_view(old(line)@).push(SpanView { text: text@, style }));
}

} // verus!
