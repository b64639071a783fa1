//! What the panes show.

use vstd::prelude::*;
use vstd::string::StringExecFns;
use vstd::utf8::*;

use crate::json;
use crate::json::{row_display, row_string, text_in, Row};
use crate::output;
use crate::output::checkout_label;
use crate::script_view;
use crate::text;
use crate::text::{
    chars_of, concat, concat3, decimal_text, join_texts, lowered, padded_left, padded_right,
    rfind_before, same_text, slice_text, split_lines,
};
use crate::tui;
use crate::tui::app;
use crate::tui::app::{App, TuiApp};
use crate::tui::detail;
use crate::tui::detail::{native_path_for_row, warning_summary};
use crate::tui::detail_worker;
use crate::tui::styled;
use crate::tui::styled::{
    bold_style, color_style, label_style, labelled_line, plain_line, push_line, push_span,
    single_line, Color, Line, Style,
};
use crate::tui::{search_title, Area, Focus, ViewMode};

verus! {

// ---------------------------------------------------------------------------
// Measures
// ---------------------------------------------------------------------------

/// The frames of the spinner.
pub open spec fn spinner_frames() -> Seq<char> {
    seq!['⠋', '⠙', '⠹', '⠸', '⠼', '⠴', '⠦', '⠧', '⠇', '⠏']
}

/// The frame of the spinner at a tick.
pub fn spinner_char(tick: u64) -> (c: char)
    ensures
        c == spinner_frames()[tick as int % 10],
{
    match tick % 10 {
        0 => '⠋',
        1 => '⠙',
        2 => '⠹',
        3 => '⠸',
        4 => '⠼',
        5 => '⠴',
        6 => '⠦',
        7 => '⠧',
        8 => '⠇',
        _ => '⠏',
    }
}

/// The lines that a text takes on the screen; an empty text takes one.
pub open spec fn lines_taken(s: Seq<char>) -> int {
    if text::lines(s).len() == 0 {
        1
    } else {
        text::lines(s).len() as int
    }
}

/// The lines that a text takes on the screen.
pub fn line_count(s: &str) -> (n: usize)
    ensures
        n == lines_taken(s@),
{
    let lines: Vec<String> = split_lines(s);
    assert(text::views(lines@).len() == lines@.len());
    if lines.len() == 0 {
        1
    } else {
        lines.len()
    }
}

/// The lines of a pane that are visible inside its border; at least one.
pub open spec fn viewport(area: Area) -> int {
    if area.height > 3 {
        area.height - 2
    } else {
        1
    }
}

/// A scroll position at which the last of `lines` lines is still at the lower
/// end of the pane.
pub open spec fn clamped_scroll(scroll: u16, lines: int, area: Area) -> u16 {
    let most = if lines > viewport(area) {
        lines - viewport(area)
    } else {
        0
    };
    if scroll <= most {
        scroll
    } else {
        most as u16
    }
}

/// A scroll position within what there is to scroll.
pub fn clamp_scroll_offset(scroll: u16, line_count: usize, area: Area) -> (clamped: u16)
    ensures
        clamped == clamped_scroll(scroll, line_count as int, area),
{
    let visible: usize = if area.height > 3 {
        (area.height - 2) as usize
    } else {
        1
    };
    let most: usize = if line_count > visible {
        line_count - visible
    } else {
        0
    };
    if scroll as usize <= most {
        scroll
    } else {
        most as u16
    }
}

/// Scrolling leaves no empty lines below the text where there are enough lines
/// to fill the pane, and none at all is scrolled where all fit.
pub proof fn law_scrolling_stays_within_the_text(scroll: u16, lines: int, area: Area)
    requires
        0 <= lines,
    ensures
        clamped_scroll(scroll, lines, area) <= scroll,
        clamped_scroll(scroll, lines, area) > 0 ==> clamped_scroll(scroll, lines, area) + viewport(
            area,
        ) <= lines,
        lines <= viewport(area) ==> clamped_scroll(scroll, lines, area) == 0,
{
}

/// `path` cut at its start to `max` characters: where it can be, at the
/// directory of the file, else at the file.
pub open spec fn cut_path(path: Seq<char>, max: int) -> Seq<char> {
    let n = path.len() as int;
    let last = text::rfind_char(path, '/');
    let second = text::rfind_char(path.take(last), '/');
    if max <= 0 {
        seq![]
    } else if n <= max {
        path
    } else if max == 1 {
        "…"@
    } else if last >= 0 && second >= 0 && n - second < max {
        "…"@ + path.skip(second)
    } else if last >= 0 && n - last < max {
        "…"@ + path.skip(last)
    } else {
        "…"@ + path.skip(n - (max - 1))
    }
}

/// A path that was cut fits, and ends as the path does.
pub proof fn law_cut_path_fits(path: Seq<char>, max: int)
    requires
        max >= 0,
    ensures
        cut_path(path, max).len() <= max,
        path.len() <= max ==> cut_path(path, max) == path,
        path.len() > max && max > 0 ==> exists|k: int|
            0 <= k <= path.len() && #[trigger] path.skip(k) == cut_path(path, max).skip(1),
{
    reveal_strlit("…");
    text::lemma_rfind_char(path, '/');
    let last = text::rfind_char(path, '/');
    text::lemma_rfind_char(path.take(last), '/');
    let second = text::rfind_char(path.take(last), '/');
    let n = path.len() as int;
    if n > max && max > 0 {
        let k = if max == 1 {
            n
        } else if last >= 0 && second >= 0 && n - second < max {
            second
        } else if last >= 0 && n - last < max {
            last
        } else {
            n - (max - 1)
        };
        assert(cut_path(path, max).skip(1) =~= path.skip(k));
    } else if n <= max && max == 0 {
        assert(path =~= seq![]);
    }
}

/// `path` cut at its start to `max_chars` characters.
pub fn left_truncate_path(path: &str, max_chars: usize) -> (r: String)
    ensures
        r@ == cut_path(path@, max_chars as int),
{
    let v: Vec<char> = chars_of(path);
    let n: usize = v.len();
    if max_chars == 0 {
        let empty: String = String::new();
        assert(empty@ =~= seq![]);
        return empty;
    }
    if n <= max_chars {
        return path.to_owned();
    }
    if max_chars == 1 {
        return "…".to_owned();
    }
    assert(v@.take(n as int) =~= v@);
    let mut from: usize = n - (max_chars - 1);
    match rfind_before(&v, n, '/') {
        Some(last) => {
            if n - last < max_chars {
                from = last;
            }
            match rfind_before(&v, last, '/') {
                Some(second) => {
                    if n - second < max_chars {
                        from = second;
                    }
                },
                None => {},
            }
        },
        None => {},
    }
    assert(v@.subrange(from as int, n as int) =~= v@.skip(from as int));
    concat("…", slice_text(&v, from, n).as_str())
}

// ---------------------------------------------------------------------------
// Panes
// ---------------------------------------------------------------------------

/// What a pane shows.
#[derive(Debug)]
pub struct Pane {
    pub title: String,
    pub lines: Vec<Line>,
    pub scroll: u16,
}

/// The value of a pane.
pub struct PaneView {
    pub title: Seq<char>,
    pub lines: Seq<styled::LineView>,
    pub scroll: u16,
}

impl View for Pane {
    type V = PaneView;

    open spec fn view(&self) -> PaneView {
        PaneView {
            title: self.title@,
            lines: styled::line_views(self.lines@),
            scroll: self.scroll,
        }
    }
}

/// The style of what is not there.
pub open spec fn dim() -> Style {
    styled::colored(Color::DarkGray)
}

/// The lines of a text in the usual style.
pub open spec fn text_lines(s: Seq<char>) -> Seq<styled::LineView> {
    text::lines(s).map_values(|l: Seq<char>| styled::plain(l))
}

/// The lines of a text in the usual style.
fn lines_of_text(s: &str) -> (lines: Vec<Line>)
    ensures
        styled::line_views(lines@) == text_lines(s@),
{
    let parts: Vec<String> = split_lines(s);
    let ghost all = text::lines(s@);
    let mut lines: Vec<Line> = Vec::new();
    let mut i: usize = 0;
    while i < parts.len()
        invariant
            i <= parts@.len(),
            lines@.len() == i,
            all == text::views(parts@),
            forall|j: int|
                0 <= j < i ==> styled::line_view((#[trigger] lines@[j])@) == styled::plain(all[j]),
        decreases parts@.len() - i,
    {
        assert(all[i as int] == parts@[i as int]@);
        lines.push(plain_line(parts[i].clone()));
        i = i + 1;
    }
    assert(styled::line_views(lines@) =~= text_lines(s@));
    lines
}

/// One line that stands for what is not there.
fn dim_lines(s: &str) -> (lines: Vec<Line>)
    ensures
        styled::line_views(lines@) == seq![styled::single(s@, dim())],
{
    let mut lines: Vec<Line> = Vec::new();
    lines.push(single_line(s.to_owned(), color_style(Color::DarkGray)));
    assert(styled::line_views(lines@) =~= seq![styled::single(s@, dim())]);
    lines
}

/// The text with the spinner while something is awaited.
pub open spec fn waiting_text(tick: u64, what: Seq<char>) -> Seq<char> {
    seq![spinner_frames()[tick as int % 10]] + what
}

/// The line with the spinner while something is awaited.
fn waiting_lines(tick: u64, what: &str) -> (lines: Vec<Line>)
    ensures
        styled::line_views(lines@) == seq![styled::plain(waiting_text(tick, what@))],
{
    let mut s: String = String::new();
    s.push(spinner_char(tick));
    assert(s@ =~= seq![spinner_frames()[tick as int % 10]]);
    s.append(what);
    let mut lines: Vec<Line> = Vec::new();
    lines.push(plain_line(s));
    assert(styled::line_views(lines@) =~= seq![styled::plain(waiting_text(tick, what@))]);
    lines
}

/// A title with the line at which a pane starts.
pub open spec fn title_at(name: Seq<char>, scroll: u16) -> Seq<char> {
    name + " (line "@ + text::decimal(if scroll < u16::MAX {
        (scroll + 1) as nat
    } else {
        scroll as nat
    }) + ")"@
}

/// A title with the line at which a pane starts.
fn title_with_line(name: &str, scroll: u16) -> (title: String)
    ensures
        title@ == title_at(name@, scroll),
{
    let line: u64 = if scroll < u16::MAX {
        scroll as u64 + 1
    } else {
        scroll as u64
    };
    let mut title: String = concat3(name, " (line ", decimal_text(line).as_str());
    title.append(")");
    title
}

// ---------------------------------------------------------------------------
// Header, search and footer
// ---------------------------------------------------------------------------

/// The line at the top: the name of the program and the path of the script.
pub open spec fn header(a: App, width: u16) -> styled::LineView {
    let brand = seq![
        styled::SpanView {
            text: " scat "@,
            style: Style { fg: Color::Black, bg: Color::Cyan, bold: true },
        },
        styled::raw("  "@),
    ];
    let path = match a.detail {
        Some(row) => app::not_empty(json::column_text(row, "logical_path"@)),
        None => None,
    };
    let room = if width >= 9 {
        width - 9
    } else {
        0
    };
    let with_path = match path {
        Some(p) => brand.push(
            styled::SpanView { text: cut_path(p, room), style: styled::colored(Color::White) },
        ),
        None => brand,
    };
    if a.fullscreen {
        with_path.push(styled::raw("  "@)).push(
            styled::SpanView { text: "[FULLSCREEN]"@, style: styled::strong(Color::Yellow) },
        )
    } else {
        with_path
    }
}

/// What the search box shows.
pub open spec fn search_pane(a: App) -> PaneView {
    PaneView {
        title: tui::title_of_search(a.error is Some, a.search_in_flight),
        lines: if a.query.len() == 0 {
            seq![styled::single("type to search, Enter for results"@, dim())]
        } else {
            text_lines(a.query)
        },
        scroll: 0,
    }
}

/// A line of keys and what they do.
pub open spec fn hints(items: Seq<(Seq<char>, Seq<char>)>) -> styled::LineView
    decreases items.len(),
{
    if items.len() == 0 {
        seq![]
    } else {
        hints(items.drop_last()).push(
            styled::SpanView { text: items.last().0, style: styled::strong(Color::Cyan) },
        ).push(styled::raw(items.last().1))
    }
}

/// The keys of the panes, as the line at the bottom shows them.
pub open spec fn browse_footer(a: App) -> Seq<(Seq<char>, Seq<char>)> {
    seq![
        ("/"@, " search  "@),
        ("Enter"@, " open/jump  "@),
        ("Tab"@, " panes  "@),
        ("j/k"@, " move  "@),
        ("Backspace/["@, " dep-back  "@),
        ("g/G"@, " top/bottom  "@),
        ("Ctrl+u/d"@, " scroll  "@),
        ("v"@, " view catalog  "@),
        ("V"@, " view source  "@),
    ].push(
        if a.fullscreen {
            ("f/Esc"@, " exit fullscreen  "@)
        } else {
            ("f"@, " fullscreen  "@)
        },
    ).push(("q/Esc"@, " quit"@))
}

/// The keys of the detail view, as the line at the bottom shows them.
pub open spec fn detail_footer() -> Seq<(Seq<char>, Seq<char>)> {
    seq![
        ("d"@, " diff  "@),
        ("v"@, " view catalog  "@),
        ("V"@, " view source  "@),
        ("Esc/Backspace"@, " back  "@),
        ("j/k"@, " scroll  "@),
        ("Ctrl+u/d"@, " half-page  "@),
        ("g"@, " top  "@),
        ("q"@, " quit"@),
    ]
}

/// The keys of the diff view, as the line at the bottom shows them.
pub open spec fn diff_footer() -> Seq<(Seq<char>, Seq<char>)> {
    seq![
        ("Esc/Backspace"@, " back  "@),
        ("j/k"@, " scroll  "@),
        ("Ctrl+u/d"@, " half-page  "@),
        ("Ctrl+b/f"@, " page  "@),
        ("g"@, " top  "@),
        ("q"@, " quit"@),
    ]
}

/// The keys of the view that fills the screen.
pub open spec fn keys_shown(a: App) -> Seq<(Seq<char>, Seq<char>)> {
    match a.mode {
        ViewMode::Browse => browse_footer(a),
        ViewMode::Detail => detail_footer(),
        ViewMode::DetailDiff => diff_footer(),
    }
}

/// The line at the bottom: the passing message while there is one, else the
/// keys.
pub open spec fn footer(a: App) -> styled::LineView {
    match a.flash {
        Some(message) => styled::plain(message),
        None => hints(keys_shown(a)),
    }
}

/// The values of keys and what they do.
pub open spec fn pair_views(items: Seq<(&str, &str)>) -> Seq<(Seq<char>, Seq<char>)> {
    items.map_values(|p: (&str, &str)| (p.0@, p.1@))
}

/// A line of keys and what they do.
fn hint_line(items: &Vec<(&str, &str)>) -> (line: Line)
    ensures
        styled::line_view(line@) == hints(pair_views(items@)),
{
    let ghost all = pair_views(items@);
    let mut line: Line = Vec::new();
    let mut i: usize = 0;
    assert(all.take(0) =~= seq![]);
    assert(styled::line_view(line@) =~= hints(all.take(0)));
    while i < items.len()
        invariant
            i <= items@.len(),
            all == pair_views(items@),
            styled::line_view(line@) == hints(all.take(i as int)),
        decreases items@.len() - i,
    {
        push_span(&mut line, items[i].0, label_style());
        push_span(&mut line, items[i].1, color_style(Color::Default));
        proof {
            assert(all.take(i + 1).drop_last() =~= all.take(i as int));
            assert(all.take(i + 1).last() == (items@[i as int].0@, items@[i as int].1@));
        }
        i = i + 1;
    }
    assert(all.take(all.len() as int) =~= all);
    line
}

impl TuiApp {
    /// The line at the top.
    pub fn header_line(&self, width: u16) -> (line: Line)
        requires
            self.wf(),
        ensures
            styled::line_view(line@) == header(self@, width),
    {
        let mut line: Line = Vec::new();
        assert(styled::line_view(line@) =~= seq![]);
        push_span(
            &mut line,
            " scat ",
            Style { fg: Color::Black, bg: Color::Cyan, bold: true },
        );
        push_span(&mut line, "  ", color_style(Color::Default));
        let room: usize = if width >= 9 {
            (width - 9) as usize
        } else {
            0
        };
        match &self.detail {
            Some(row) => match text_in(row, "logical_path") {
                Some(path) => if !path.as_str().is_empty() {
                    let shown: String = left_truncate_path(path.as_str(), room);
                    push_span(&mut line, shown.as_str(), color_style(Color::White));
                },
                None => {},
            },
            None => {},
        }
        if self.fullscreen {
            push_span(&mut line, "  ", color_style(Color::Default));
            push_span(&mut line, "[FULLSCREEN]", bold_style(Color::Yellow));
        }
        assert(styled::line_view(line@) =~= header(self@, width));
        line
    }

    /// What the search box shows.
    pub fn search_box(&self) -> (pane: Pane)
        ensures
            pane@ == search_pane(self@),
    {
        let lines: Vec<Line> = if self.query.as_str().is_empty() {
            dim_lines("type to search, Enter for results")
        } else {
            lines_of_text(self.query.as_str())
        };
        Pane {
            title: search_title(self.error.is_some(), self.search_in_flight).to_owned(),
            lines,
            scroll: 0,
        }
    }

    /// The line at the bottom.
    pub fn footer_line(&self) -> (line: Line)
        ensures
            styled::line_view(line@) == footer(self@),
    {
        if let Some(message) = &self.flash {
            return plain_line(message.clone());
        }
        match self.mode {
            ViewMode::Browse => self.browse_footer_line(),
            ViewMode::Detail => detail_footer_line(),
            ViewMode::DetailDiff => diff_footer_line(),
        }
    }

    /// The keys of the panes.
    fn browse_footer_line(&self) -> (line: Line)
        ensures
            styled::line_view(line@) == hints(browse_footer(self@)),
    {
        let mut items: Vec<(&str, &str)> = Vec::new();
        items.push(("/", " search  "));
        items.push(("Enter", " open/jump  "));
        items.push(("Tab", " panes  "));
        items.push(("j/k", " move  "));
        items.push(("Backspace/[", " dep-back  "));
        items.push(("g/G", " top/bottom  "));
        items.push(("Ctrl+u/d", " scroll  "));
        items.push(("v", " view catalog  "));
        items.push(("V", " view source  "));
        if self.fullscreen {
            items.push(("f/Esc", " exit fullscreen  "));
        } else {
            items.push(("f", " fullscreen  "));
        }
        items.push(("q/Esc", " quit"));
        assert(pair_views(items@) =~= browse_footer(self@));
        hint_line(&items)
    }
}

/// The keys of the detail view.
fn detail_footer_line() -> (line: Line)
    ensures
        styled::line_view(line@) == hints(detail_footer()),
{
    let mut items: Vec<(&str, &str)> = Vec::new();
    items.push(("d", " diff  "));
    items.push(("v", " view catalog  "));
    items.push(("V", " view source  "));
    items.push(("Esc/Backspace", " back  "));
    items.push(("j/k", " scroll  "));
    items.push(("Ctrl+u/d", " half-page  "));
    items.push(("g", " top  "));
    items.push(("q", " quit"));
    assert(pair_views(items@) =~= detail_footer());
    hint_line(&items)
}

/// The keys of the diff view.
fn diff_footer_line() -> (line: Line)
    ensures
        styled::line_view(line@) == hints(diff_footer()),
{
    let mut items: Vec<(&str, &str)> = Vec::new();
    items.push(("Esc/Backspace", " back  "));
    items.push(("j/k", " scroll  "));
    items.push(("Ctrl+u/d", " half-page  "));
    items.push(("Ctrl+b/f", " page  "));
    items.push(("g", " top  "));
    items.push(("q", " quit"));
    assert(pair_views(items@) =~= diff_footer());
    hint_line(&items)
}

/// The colour and weight of a pane's border: that of the focused pane stands
/// out.
pub fn focus_border(current: Focus, target: Focus) -> (style: Style)
    ensures
        style == if current == target {
            styled::strong(Color::Yellow)
        } else {
            dim()
        },
{
    if current == target {
        bold_style(Color::Yellow)
    } else {
        color_style(Color::DarkGray)
    }
}

// ---------------------------------------------------------------------------
// Results and metadata
// ---------------------------------------------------------------------------

/// The mark of a script that is checked out.
pub open spec fn checkout_mark(row: json::Columns) -> Seq<char> {
    if json::text_or_empty(row, "checkout_user"@).len() == 0 {
        seq![]
    } else {
        " CO"@
    }
}

/// What a linked script leads to.
pub open spec fn link_suffix(row: json::Columns) -> Seq<char> {
    let target = json::text_or_empty(row, "symlink_target"@);
    if target.len() == 0 {
        seq![]
    } else {
        " → "@ + target
    }
}

/// The characters that are left for the path of a result in a list that is
/// `width` wide, beside the mark of the selected result, the language and the
/// mark of a checkout.
pub open spec fn path_room(row: json::Columns, width: u16) -> int {
    let rest = width - 4 - encode_utf8(json::text_or_empty(row, "language"@)).len()
        - checkout_mark(row).len();
    if rest > 0 {
        rest
    } else {
        0
    }
}

/// A result in the list.
pub open spec fn result_text(row: json::Columns, width: u16) -> Seq<char> {
    cut_path(json::text_or_empty(row, "logical_path"@), path_room(row, width)) + "  "@
        + json::text_or_empty(row, "language"@) + checkout_mark(row) + link_suffix(row)
}

/// What the list of results shows.
pub open spec fn results_pane(a: App, width: u16) -> PaneView {
    PaneView {
        title: "Results ("@ + text::decimal(a.results.len()) + ")"@,
        lines: if a.results.len() > 0 {
            a.results.map_values(|r: json::Columns| styled::plain(result_text(r, width)))
        } else if a.search_in_flight {
            seq![styled::plain(waiting_text(a.tick, " Searching…"@))]
        } else {
            seq![styled::single("No results."@, dim())]
        },
        scroll: 0,
    }
}

/// What a linked script leads to.
fn link_suffix_of(row: &Row) -> (s: String)
    requires
        row.wf(),
    ensures
        s@ == link_suffix(row@),
{
    let target: String = row_string(row, "symlink_target");
    if target.as_str().is_empty() {
        let empty: String = String::new();
        assert(empty@ =~= seq![]);
        empty
    } else {
        concat(" → ", target.as_str())
    }
}

/// A result in the list.
pub fn result_line(row: &Row, width: u16) -> (s: String)
    requires
        row.wf(),
    ensures
        s@ == result_text(row@, width),
{
    let path: String = row_string(row, "logical_path");
    let lang: String = row_string(row, "language");
    let checked_out: bool = !row_string(row, "checkout_user").as_str().is_empty();
    proof {
        reveal_strlit(" CO");
        assert(" CO"@.len() == 3);
    }
    let mark: usize = if checked_out {
        3
    } else {
        0
    };
    let taken: usize = lang.as_str().as_bytes().len();
    assert(taken == encode_utf8(lang@).len());
    let mut room: usize = width as usize;
    room = if room >= 4 {
        room - 4
    } else {
        0
    };
    room = if room >= taken {
        room - taken
    } else {
        0
    };
    room = if room >= mark {
        room - mark
    } else {
        0
    };
    assert(room == path_room(row@, width));
    let mut s: String = left_truncate_path(path.as_str(), room);
    s.append("  ");
    s.append(lang.as_str());
    if checked_out {
        s.append(" CO");
    }
    s.append(link_suffix_of(row).as_str());
    assert(s@ =~= result_text(row@, width));
    s
}

/// The label and the value of a line of the metadata.
pub open spec fn meta(label: Seq<char>, value: Seq<char>) -> styled::LineView {
    styled::labelled(label, 10, value)
}

/// The lines of the metadata of a script.
pub open spec fn metadata_lines(a: App, row: json::Columns) -> Seq<styled::LineView> {
    let warnings = text::join(script_view::warning_messages(row), "; "@);
    seq![
        meta("Path"@, json::text_or_empty(row, "logical_path"@) + link_suffix(row)),
        meta("Language"@, json::text_or_empty(row, "language"@)),
        meta("Owner"@, json::shown_column(row, "owner"@)),
        meta(
            "Contribs"@,
            if a.contributors.len() == 0 {
                "-"@
            } else {
                text::join(a.contributors, ", "@)
            },
        ),
        meta("Purpose"@, json::shown_column(row, "purpose"@)),
        meta("Checkout"@, output::checkout_text(row)),
    ] + (if warnings.len() == 0 {
        seq![]
    } else {
        seq![meta("Warnings"@, warnings)]
    }) + (match detail::native_of(row, a.native_path) {
        Some(native) => seq![meta("OS path"@, native)],
        None => seq![],
    })
}

/// What the Metadata pane shows.
pub open spec fn metadata_pane(a: App) -> PaneView {
    PaneView {
        title: "Metadata"@,
        lines: if a.detail_loading {
            seq![styled::plain(waiting_text(a.tick, " Loading…"@))]
        } else {
            match a.detail {
                Some(row) => metadata_lines(a, row),
                None => seq![styled::single("No script selected."@, dim())],
            }
        },
        scroll: 0,
    }
}

impl TuiApp {
    /// What the list of results shows.
    pub fn results_list(&self, width: u16) -> (pane: Pane)
        requires
            self.wf(),
        ensures
            pane@ == results_pane(self@, width),
    {
        let n: usize = self.results.len();
        let title: String = concat3("Results (", decimal_text(n as u64).as_str(), ")");
        if n == 0 {
            let lines: Vec<Line> = if self.search_in_flight {
                waiting_lines(self.tick, " Searching…")
            } else {
                dim_lines("No results.")
            };
            return Pane { title, lines, scroll: 0 };
        }
        let ghost rows = self@.results;
        let mut lines: Vec<Line> = Vec::new();
        let mut i: usize = 0;
        while i < n
            invariant
                self.wf(),
                i <= n == self.results@.len(),
                lines@.len() == i,
                rows == json::row_columns(self.results@),
                forall|j: int|
                    0 <= j < i ==> styled::line_view((#[trigger] lines@[j])@) == styled::plain(
                        result_text(rows[j], width),
                    ),
            decreases n - i,
        {
            assert(rows[i as int] == self.results@[i as int]@);
            lines.push(plain_line(result_line(&self.results[i], width)));
            i = i + 1;
        }
        assert(styled::line_views(lines@) =~= rows.map_values(
            |r: json::Columns| styled::plain(result_text(r, width)),
        ));
        Pane { title, lines, scroll: 0 }
    }

    /// The lines of the metadata of a script.
    fn metadata_of(&self, row: &Row) -> (lines: Vec<Line>)
        requires
            row.wf(),
        ensures
            styled::line_views(lines@) == metadata_lines(self@, row@),
    {
        let ghost a = self@;
        let mut lines: Vec<Line> = Vec::new();
        assert(styled::line_views(lines@) =~= seq![]);
        let path: String = row_string(row, "logical_path");
        let shown: String = concat(path.as_str(), link_suffix_of(row).as_str());
        push_line(&mut lines, labelled_line("Path", 10, shown));
        push_line(&mut lines, labelled_line("Language", 10, row_string(row, "language")));
        push_line(&mut lines, labelled_line("Owner", 10, row_display(row, "owner")));
        let contributors: String = if self.contributors.len() == 0 {
            "-".to_owned()
        } else {
            join_texts(&self.contributors, ", ")
        };
        push_line(&mut lines, labelled_line("Contribs", 10, contributors));
        push_line(&mut lines, labelled_line("Purpose", 10, row_display(row, "purpose")));
        push_line(&mut lines, labelled_line("Checkout", 10, checkout_label(row)));
        let ghost first = styled::line_views(lines@);
        let warnings: String = warning_summary(row);
        let ghost warned = warnings@;
        let ghost middle = if warned.len() == 0 {
            seq![]
        } else {
            seq![meta("Warnings"@, warned)]
        };
        if !warnings.as_str().is_empty() {
            push_line(&mut lines, labelled_line("Warnings", 10, warnings));
        }
        assert(styled::line_views(lines@) =~= first + middle);
        match native_path_for_row(row, &self.native_path) {
            Some(native) => push_line(&mut lines, labelled_line("OS path", 10, native)),
            None => {},
        }
        assert(first.len() == 6);
        assert(styled::line_views(lines@) =~= metadata_lines(a, row@));
        lines
    }

    /// What the Metadata pane shows.
    pub fn metadata(&self) -> (pane: Pane)
        requires
            self.wf(),
        ensures
            pane@ == metadata_pane(self@),
    {
        let title: String = "Metadata".to_owned();
        let lines: Vec<Line> = if self.detail_loading {
            waiting_lines(self.tick, " Loading…")
        } else {
            match &self.detail {
                Some(row) => self.metadata_of(row),
                None => dim_lines("No script selected."),
            }
        };
        Pane { title, lines, scroll: 0 }
    }
}

// ---------------------------------------------------------------------------
// Preview
// ---------------------------------------------------------------------------

/// The state with the preview scrolled within its text.
pub open spec fn preview_clamped(a: App, area: Area) -> App {
    App {
        preview_scroll: if a.detail_loading {
            0
        } else {
            clamped_scroll(a.preview_scroll, lines_taken(a.cached_preview), area)
        },
        ..a
    }
}

/// What the preview shows.
pub open spec fn preview_pane(a: App) -> PaneView {
    if a.detail_loading {
        PaneView {
            title: "Preview (loading…)"@,
            lines: seq![styled::plain(waiting_text(a.tick, " Loading…"@))],
            scroll: 0,
        }
    } else {
        PaneView {
            title: title_at("Catalog preview"@, a.preview_scroll),
            lines: if a.cached_preview.len() == 0 {
                seq![styled::single("(empty)"@, dim())]
            } else {
                text_lines(a.cached_preview)
            },
            scroll: a.preview_scroll,
        }
    }
}

// ---------------------------------------------------------------------------
// Deps and functions
// ---------------------------------------------------------------------------

/// The mark before an entry of a list.
pub open spec fn marker(selected: bool) -> Seq<char> {
    if selected {
        "> "@
    } else {
        "  "@
    }
}

/// A call site in the Deps pane.
pub open spec fn site_text(s: detail_worker::CallSiteView, selected: bool) -> Seq<char> {
    marker(selected) + text::pad_right("calls"@, 7) + " "@ + s.caller_path + ":"@ + text::decimal(
        s.line as nat,
    ) + "  "@ + s.caller + " -> "@ + s.callee
}

/// A dependency in the Deps pane.
pub open spec fn dependency_text(d: detail_worker::DependencyView, selected: bool) -> Seq<char> {
    marker(selected) + text::pad_right(d.kind, 7) + " "@ + d.path
}

/// A function in the Functions pane.
pub open spec fn function_text(f: detail_worker::FunctionView, selected: bool) -> Seq<char> {
    marker(selected) + text::pad_right(f.name, 20) + " "@ + text::pad_right(f.kind, 8) + " "@
        + text::pad_left(text::decimal(f.line as nat), 4) + "  "@ + (if f.docstring.len() == 0 {
        "-"@
    } else {
        f.docstring
    })
}

/// The entries of a list in lines, or what stands for their absence.
pub open spec fn listed(items: Seq<Seq<char>>, none: Seq<char>) -> Seq<styled::LineView> {
    if items.len() == 0 {
        seq![styled::single(none, dim())]
    } else {
        text_lines(text::join(items, "\n"@))
    }
}

/// The scroll position at which the selected entry is visible.
pub open spec fn scroll_to(selected: usize, area: Area) -> u16 {
    let visible = if area.height >= 3 {
        area.height - 2
    } else {
        1
    };
    let top = if selected >= visible - 1 {
        selected - (visible - 1)
    } else {
        0
    };
    (top % 0x10000) as u16
}

/// What the Deps pane shows: the dependencies, or the call sites of a function.
pub open spec fn deps_pane(a: App, area: Area) -> PaneView {
    let scroll = scroll_to(a.deps_selected, area);
    if a.detail_loading {
        PaneView {
            title: "Deps (loading…)"@,
            lines: seq![styled::plain(waiting_text(a.tick, " Loading…"@))],
            scroll,
        }
    } else {
        match a.function_xref {
            Some(name) => PaneView {
                title: "Deps (call sites for "@ + name + ")"@,
                lines: listed(
                    match app::xref_sites(a) {
                        Some(sites) => Seq::new(
                            sites.len(),
                            |i: int| site_text(sites[i], i == a.deps_selected),
                        ),
                        None => seq![],
                    },
                    "No call sites."@,
                ),
                scroll,
            },
            None => PaneView {
                title: "Deps"@,
                lines: listed(
                    Seq::new(
                        a.deps.len(),
                        |i: int| dependency_text(a.deps[i], i == a.deps_selected),
                    ),
                    "No dependencies."@,
                ),
                scroll,
            },
        }
    }
}

/// What the Functions pane shows.
pub open spec fn functions_pane(a: App, area: Area) -> PaneView {
    let scroll = scroll_to(a.functions_selected, area);
    if a.detail_loading {
        PaneView {
            title: "Functions (loading…)"@,
            lines: seq![styled::plain(waiting_text(a.tick, " Loading…"@))],
            scroll,
        }
    } else {
        PaneView {
            title: "Functions"@,
            lines: listed(
                Seq::new(
                    a.functions.len(),
                    |i: int| function_text(a.functions[i], i == a.functions_selected),
                ),
                "No functions indexed."@,
            ),
            scroll,
        }
    }
}

/// The entries of a list in lines, or what stands for their absence.
fn list_lines(items: &Vec<String>, none: &str) -> (lines: Vec<Line>)
    ensures
        styled::line_views(lines@) == listed(text::views(items@), none@),
{
    assert(text::views(items@).len() == items@.len());
    if items.len() == 0 {
        dim_lines(none)
    } else {
        lines_of_text(join_texts(items, "\n").as_str())
    }
}

/// The scroll position at which the selected entry is visible.
fn scroll_to_selected(selected: usize, area: Area) -> (scroll: u16)
    ensures
        scroll == scroll_to(selected, area),
{
    let visible: usize = if area.height >= 3 {
        (area.height - 2) as usize
    } else {
        1
    };
    let top: usize = if selected >= visible - 1 {
        selected - (visible - 1)
    } else {
        0
    };
    (top % 0x10000) as u16
}

/// The mark before an entry of a list.
fn mark(selected: bool) -> (s: &'static str)
    ensures
        s@ == marker(selected),
{
    if selected {
        "> "
    } else {
        "  "
    }
}

impl TuiApp {
    /// Scrolls the preview within its text.
    pub fn clamp_preview(&mut self, area: Area)
        requires
            old(self).wf(),
        ensures
            final(self).wf(),
            final(self)@ == preview_clamped(old(self)@, area),
    {
        if self.detail_loading {
            self.preview_scroll = 0;
        } else {
            let n: usize = line_count(self.cached_preview.as_str());
            self.preview_scroll = clamp_scroll_offset(self.preview_scroll, n, area);
        }
        assert(self@ == preview_clamped(old(self)@, area));
    }

    /// What the preview shows.
    pub fn preview(&self) -> (pane: Pane)
        ensures
            pane@ == preview_pane(self@),
    {
        if self.detail_loading {
            return Pane {
                title: "Preview (loading…)".to_owned(),
                lines: waiting_lines(self.tick, " Loading…"),
                scroll: 0,
            };
        }
        let lines: Vec<Line> = if self.cached_preview.as_str().is_empty() {
            dim_lines("(empty)")
        } else {
            lines_of_text(self.cached_preview.as_str())
        };
        Pane {
            title: title_with_line("Catalog preview", self.preview_scroll),
            lines,
            scroll: self.preview_scroll,
        }
    }

    /// The call sites in the Deps pane.
    fn site_items(&self) -> (items: Vec<String>)
        requires
            self.wf(),
        ensures
            text::views(items@) == match app::xref_sites(self@) {
                Some(sites) => Seq::new(
                    sites.len(),
                    |i: int| site_text(sites[i], i == self@.deps_selected),
                ),
                None => seq![],
            },
    {
        let ghost chosen = self@.deps_selected;
        let mut items: Vec<String> = Vec::new();
        assert(text::views(items@) =~= seq![]);
        match self.xref_call_sites() {
            Some(sites) => {
                let ghost all = detail_worker::site_views(sites@);
                let mut i: usize = 0;
                while i < sites.len()
                    invariant
                        i <= sites@.len(),
                        items@.len() == i,
                        chosen == self.deps_selected,
                        all == detail_worker::site_views(sites@),
                        forall|j: int|
                            0 <= j < i ==> (#[trigger] items@[j])@ == site_text(
                                all[j],
                                j == chosen,
                            ),
                    decreases sites@.len() - i,
                {
                    assert(all[i as int] == sites@[i as int]@);
                    let kind: String = padded_right("calls", 7);
                    let mut s: String = concat3(mark(i == self.deps_selected), kind.as_str(), " ");
                    s.append(sites[i].caller_path.as_str());
                    s.append(":");
                    s.append(decimal_text(sites[i].line as u64).as_str());
                    s.append("  ");
                    s.append(sites[i].caller.as_str());
                    s.append(" -> ");
                    s.append(sites[i].callee.as_str());
                    items.push(s);
                    i = i + 1;
                }
                assert(text::views(items@) =~= Seq::new(
                    all.len(),
                    |i: int| site_text(all[i], i == chosen),
                ));
            },
            None => {},
        }
        items
    }

    /// The dependencies in the Deps pane.
    fn dependency_items_shown(&self) -> (items: Vec<String>)
        ensures
            text::views(items@) == Seq::new(
                self@.deps.len(),
                |i: int| dependency_text(self@.deps[i], i == self@.deps_selected),
            ),
    {
        let ghost chosen = self@.deps_selected;
        let ghost all = self@.deps;
        let mut items: Vec<String> = Vec::new();
        let mut i: usize = 0;
        while i < self.deps.len()
            invariant
                i <= self.deps@.len(),
                items@.len() == i,
                chosen == self.deps_selected,
                all == detail_worker::dependency_views(self.deps@),
                forall|j: int|
                    0 <= j < i ==> (#[trigger] items@[j])@ == dependency_text(all[j], j == chosen),
            decreases self.deps@.len() - i,
        {
            assert(all[i as int] == self.deps@[i as int]@);
            let kind: String = padded_right(self.deps[i].kind.as_str(), 7);
            let mut s: String = concat3(mark(i == self.deps_selected), kind.as_str(), " ");
            s.append(self.deps[i].logical_path.as_str());
            items.push(s);
            i = i + 1;
        }
        assert(text::views(items@) =~= Seq::new(
            all.len(),
            |i: int| dependency_text(all[i], i == chosen),
        ));
        items
    }

    /// The functions in the Functions pane.
    fn function_items_shown(&self) -> (items: Vec<String>)
        ensures
            text::views(items@) == Seq::new(
                self@.functions.len(),
                |i: int| function_text(self@.functions[i], i == self@.functions_selected),
            ),
    {
        let ghost chosen = self@.functions_selected;
        let ghost all = self@.functions;
        let mut items: Vec<String> = Vec::new();
        let mut i: usize = 0;
        while i < self.functions.len()
            invariant
                i <= self.functions@.len(),
                items@.len() == i,
                chosen == self.functions_selected,
                all == detail_worker::function_views(self.functions@),
                forall|j: int|
                    0 <= j < i ==> (#[trigger] items@[j])@ == function_text(all[j], j == chosen),
            decreases self.functions@.len() - i,
        {
            assert(all[i as int] == self.functions@[i as int]@);
            let name: String = padded_right(self.functions[i].name.as_str(), 20);
            let kind: String = padded_right(self.functions[i].kind.as_str(), 8);
            let number: String = decimal_text(self.functions[i].line as u64);
            let line: String = padded_left(number.as_str(), 4);
            let mut s: String = concat3(mark(i == self.functions_selected), name.as_str(), " ");
            s.append(kind.as_str());
            s.append(" ");
            s.append(line.as_str());
            s.append("  ");
            if self.functions[i].docstring.as_str().is_empty() {
                s.append("-");
            } else {
                s.append(self.functions[i].docstring.as_str());
            }
            items.push(s);
            i = i + 1;
        }
        assert(text::views(items@) =~= Seq::new(
            all.len(),
            |i: int| function_text(all[i], i == chosen),
        ));
        items
    }

    /// What the Deps pane shows.
    pub fn deps_list(&self, area: Area) -> (pane: Pane)
        requires
            self.wf(),
        ensures
            pane@ == deps_pane(self@, area),
    {
        let scroll: u16 = scroll_to_selected(self.deps_selected, area);
        if self.detail_loading {
            return Pane {
                title: "Deps (loading…)".to_owned(),
                lines: waiting_lines(self.tick, " Loading…"),
                scroll,
            };
        }
        match &self.function_xref {
            Some(name) => {
                let items: Vec<String> = self.site_items();
                Pane {
                    title: concat3("Deps (call sites for ", name.as_str(), ")"),
                    lines: list_lines(&items, "No call sites."),
                    scroll,
                }
            },
            None => {
                let items: Vec<String> = self.dependency_items_shown();
                Pane {
                    title: "Deps".to_owned(),
                    lines: list_lines(&items, "No dependencies."),
                    scroll,
                }
            },
        }
    }

    /// What the Functions pane shows.
    pub fn functions_list(&self, area: Area) -> (pane: Pane)
        ensures
            pane@ == functions_pane(self@, area),
    {
        let scroll: u16 = scroll_to_selected(self.functions_selected, area);
        if self.detail_loading {
            return Pane {
                title: "Functions (loading…)".to_owned(),
                lines: waiting_lines(self.tick, " Loading…"),
                scroll,
            };
        }
        let items: Vec<String> = self.function_items_shown();
        Pane {
            title: "Functions".to_owned(),
            lines: list_lines(&items, "No functions indexed."),
            scroll,
        }
    }
}

// ---------------------------------------------------------------------------
// Revisions
// ---------------------------------------------------------------------------

/// A revision in the Revisions pane.
pub open spec fn revision_text(row: json::Columns) -> Seq<char> {
    let age = json::text_or_empty(row, "age"@);
    "  "@ + text::pad_right(json::text_or_empty(row, "os_flavor"@), 7) + " "@ + text::pad_right(
        json::text_or_empty(row, "user"@),
        12,
    ) + " "@ + json::text_or_empty(row, "timestamp"@) + (if age.len() == 0 {
        seq![]
    } else {
        "   ("@ + age + ")"@
    })
}

/// The groups of revisions.
#[derive(Debug, Clone, Copy, PartialEq, Eq, Structural)]
pub enum RevisionGroup {
    Develop,
    Archive,
    Remaining,
}

/// The title of a group.
pub open spec fn group_title(g: RevisionGroup) -> Seq<char> {
    match g {
        RevisionGroup::Develop => "DEVELOP"@,
        RevisionGroup::Archive => "ARCHIVE"@,
        RevisionGroup::Remaining => "OTHER"@,
    }
}

/// The group of a revision; one without a type is in development.
pub open spec fn group_of(row: json::Columns) -> RevisionGroup {
    let kind = json::text_or_empty(row, "revision_type"@);
    if kind.len() == 0 || kind == "DEVELOP"@ {
        RevisionGroup::Develop
    } else if kind == "ARCHIVE"@ {
        RevisionGroup::Archive
    } else {
        RevisionGroup::Remaining
    }
}

/// The style of a group's title.
pub open spec fn group_style(g: RevisionGroup) -> Style {
    match g {
        RevisionGroup::Develop => styled::strong(Color::Green),
        RevisionGroup::Archive => styled::strong(Color::Yellow),
        RevisionGroup::Remaining => styled::strong(Color::Magenta),
    }
}

/// The revisions of a group, in their order.
pub open spec fn group_lines(rows: Seq<json::Columns>, g: RevisionGroup) -> Seq<styled::LineView>
    decreases rows.len(),
{
    if rows.len() == 0 {
        seq![]
    } else {
        let before = group_lines(rows.drop_last(), g);
        if group_of(rows.last()) == g {
            before.push(styled::plain(revision_text(rows.last())))
        } else {
            before
        }
    }
}

/// A group with its title; an empty one says so.
pub open spec fn group_block(rows: Seq<json::Columns>, g: RevisionGroup) -> Seq<
    styled::LineView,
> {
    let lines = group_lines(rows, g);
    seq![styled::single(group_title(g), group_style(g))] + (if lines.len() == 0 {
        seq![
            styled::single("  (no "@ + text::ascii_lower(group_title(g)) + " entries.)"@, dim()),
        ]
    } else {
        lines
    })
}

/// The lines of the Revisions pane: those in development, those in the archive,
/// and the others where there are any.
pub open spec fn revisions_shown(rows: Seq<json::Columns>) -> Seq<styled::LineView> {
    group_block(rows, RevisionGroup::Develop) + seq![styled::plain(seq![])] + group_block(
        rows,
        RevisionGroup::Archive,
    ) + (if group_lines(rows, RevisionGroup::Remaining).len() == 0 {
        seq![]
    } else {
        seq![styled::plain(seq![])] + group_block(rows, RevisionGroup::Remaining)
    })
}

/// Each revision stands in exactly one group: the groups have as many lines as
/// there are revisions.
pub proof fn law_every_revision_is_in_one_group(rows: Seq<json::Columns>)
    ensures
        group_lines(rows, RevisionGroup::Develop).len() + group_lines(
            rows,
            RevisionGroup::Archive,
        ).len() + group_lines(rows, RevisionGroup::Remaining).len() == rows.len(),
    decreases rows.len(),
{
    if rows.len() > 0 {
        law_every_revision_is_in_one_group(rows.drop_last());
    }
}

/// A revision in the Revisions pane.
pub fn format_revision_row(row: &Row) -> (s: String)
    requires
        row.wf(),
    ensures
        s@ == revision_text(row@),
{
    let os: String = row_string(row, "os_flavor");
    let user: String = row_string(row, "user");
    let stamp: String = row_string(row, "timestamp");
    let age: String = row_string(row, "age");
    let mut s: String = concat3("  ", padded_right(os.as_str(), 7).as_str(), " ");
    s.append(padded_right(user.as_str(), 12).as_str());
    s.append(" ");
    s.append(stamp.as_str());
    let ghost start = s@;
    if !age.as_str().is_empty() {
        let suffix: String = concat3("   (", age.as_str(), ")");
        s.append(suffix.as_str());
    } else {
        assert(start + seq![] =~= start);
    }
    s
}

/// The group of a revision.
fn revision_group(row: &Row) -> (g: RevisionGroup)
    requires
        row.wf(),
    ensures
        g == group_of(row@),
{
    let kind: String = row_string(row, "revision_type");
    if kind.as_str().is_empty() || same_text(kind.as_str(), "DEVELOP") {
        RevisionGroup::Develop
    } else if same_text(kind.as_str(), "ARCHIVE") {
        RevisionGroup::Archive
    } else {
        RevisionGroup::Remaining
    }
}

/// Puts the revisions of a group behind the lines; says whether there are any.
fn push_group_rows(lines: &mut Vec<Line>, revisions: &Vec<Row>, g: RevisionGroup) -> (any: bool)
    requires
        json::rows_wf(revisions@),
    ensures
        styled::line_views(final(lines)@) == styled::line_views(old(lines)@) + group_lines(
            json::row_columns(revisions@),
            g,
        ),
        any == (group_lines(json::row_columns(revisions@), g).len() > 0),
{
    let ghost start = styled::line_views(lines@);
    let ghost all = json::row_columns(revisions@);
    let mut any: bool = false;
    let mut i: usize = 0;
    assert(all.take(0) =~= seq![]);
    assert(styled::line_views(lines@) =~= start + group_lines(all.take(0), g));
    while i < revisions.len()
        invariant
            i <= revisions@.len(),
            json::rows_wf(revisions@),
            all == json::row_columns(revisions@),
            styled::line_views(lines@) == start + group_lines(all.take(i as int), g),
            any == (group_lines(all.take(i as int), g).len() > 0),
        decreases revisions@.len() - i,
    {
        let row: &Row = &revisions[i];
        let ghost before = group_lines(all.take(i as int), g);
        proof {
            assert(all.take(i + 1).drop_last() =~= all.take(i as int));
            assert(all.take(i + 1).last() == row@);
        }
        if revision_group(row) == g {
            push_line(lines, plain_line(format_revision_row(row)));
            any = true;
            assert(styled::line_views(lines@) =~= start + group_lines(all.take(i + 1), g));
        }
        i = i + 1;
    }
    assert(all.take(all.len() as int) =~= all);
    any
}

/// Puts a group with its title behind the lines.
pub fn append_revision_group(lines: &mut Vec<Line>, group: RevisionGroup, revisions: &Vec<Row>)
    requires
        json::rows_wf(revisions@),
    ensures
        styled::line_views(final(lines)@) == styled::line_views(old(lines)@) + group_block(
            json::row_columns(revisions@),
            group,
        ),
{
    let ghost start = styled::line_views(lines@);
    let ghost rows = json::row_columns(revisions@);
    let title: &str = match group {
        RevisionGroup::Develop => "DEVELOP",
        RevisionGroup::Archive => "ARCHIVE",
        RevisionGroup::Remaining => "OTHER",
    };
    let style: Style = match group {
        RevisionGroup::Develop => bold_style(Color::Green),
        RevisionGroup::Archive => bold_style(Color::Yellow),
        RevisionGroup::Remaining => bold_style(Color::Magenta),
    };
    push_line(lines, single_line(title.to_owned(), style));
    if !push_group_rows(lines, revisions, group) {
        let none: String = concat3("  (no ", lowered(title).as_str(), " entries.)");
        push_line(lines, single_line(none, color_style(Color::DarkGray)));
    }
    assert(styled::line_views(lines@) =~= start + group_block(rows, group));
}

/// The lines of the Revisions pane.
pub fn revision_lines(revisions: &Vec<Row>) -> (lines: Vec<Line>)
    requires
        json::rows_wf(revisions@),
    ensures
        styled::line_views(lines@) == revisions_shown(json::row_columns(revisions@)),
{
    let ghost rows = json::row_columns(revisions@);
    let mut lines: Vec<Line> = Vec::new();
    assert(styled::line_views(lines@) =~= seq![]);
    append_revision_group(&mut lines, RevisionGroup::Develop, revisions);
    let empty: String = String::new();
    assert(empty@ =~= seq![]);
    push_line(&mut lines, plain_line(empty));
    append_revision_group(&mut lines, RevisionGroup::Archive, revisions);
    let ghost first = styled::line_views(lines@);
    assert(first =~= group_block(rows, RevisionGroup::Develop) + seq![styled::plain(seq![])]
        + group_block(rows, RevisionGroup::Archive));
    let mut found: bool = false;
    let mut i: usize = 0;
    assert(rows.take(0) =~= seq![]);
    while i < revisions.len()
        invariant
            i <= revisions@.len(),
            json::rows_wf(revisions@),
            rows == json::row_columns(revisions@),
            found == (group_lines(rows.take(i as int), RevisionGroup::Remaining).len() > 0),
        decreases revisions@.len() - i,
    {
        proof {
            assert(rows.take(i + 1).drop_last() =~= rows.take(i as int));
            assert(rows.take(i + 1).last() == revisions@[i as int]@);
        }
        if revision_group(&revisions[i]) == RevisionGroup::Remaining {
            found = true;
        }
        i = i + 1;
    }
    assert(rows.take(rows.len() as int) =~= rows);
    if found {
        let blank: String = String::new();
        assert(blank@ =~= seq![]);
        push_line(&mut lines, plain_line(blank));
        append_revision_group(&mut lines, RevisionGroup::Remaining, revisions);
        assert(styled::line_views(lines@) =~= revisions_shown(rows));
    } else {
        assert(styled::line_views(lines@) =~= revisions_shown(rows));
    }
    lines
}

/// The lines of the Revisions pane, or that there are none.
pub open spec fn revisions_text(a: App) -> Seq<styled::LineView> {
    if a.detail_loading {
        seq![styled::plain(waiting_text(a.tick, " Loading…"@))]
    } else if a.checkouts.len() == 0 {
        seq![styled::single("No revision data."@, dim())]
    } else {
        revisions_shown(a.checkouts)
    }
}

/// The state with the revisions scrolled within their lines.
pub open spec fn revisions_clamped(a: App, area: Area) -> App {
    App {
        revisions_scroll: if a.detail_loading {
            0
        } else {
            clamped_scroll(a.revisions_scroll, revisions_text(a).len() as int, area)
        },
        ..a
    }
}

/// What the Revisions pane shows.
pub open spec fn revisions_pane(a: App) -> PaneView {
    PaneView {
        title: if a.detail_loading {
            "Revisions (loading…)"@
        } else {
            title_at("Revisions"@, a.revisions_scroll)
        },
        lines: revisions_text(a),
        scroll: a.revisions_scroll,
    }
}

/// The state with the detail view scrolled within its lines.
pub open spec fn detail_clamped(a: App, area: Area) -> App {
    App {
        detail_scroll: clamped_scroll(a.detail_scroll, detail::all_lines(a).len() as int, area),
        ..a
    }
}

/// What the detail view shows.
pub open spec fn detail_pane(a: App) -> PaneView {
    PaneView {
        title: title_at("Script Detail"@, a.detail_scroll),
        lines: detail::all_lines(a),
        scroll: a.detail_scroll,
    }
}

/// The state with the diff view scrolled within its text.
pub open spec fn diff_clamped(a: App, area: Area) -> App {
    App {
        detail_diff_scroll: if a.detail_diff_loading {
            0
        } else {
            clamped_scroll(a.detail_diff_scroll, lines_taken(a.detail_diff_output), area)
        },
        ..a
    }
}

/// What the diff view shows.
pub open spec fn diff_pane(a: App) -> PaneView {
    if a.detail_diff_loading {
        PaneView {
            title: "Script Diff (loading…)"@,
            lines: seq![styled::plain(waiting_text(a.tick, " Loading diff…"@))],
            scroll: 0,
        }
    } else {
        PaneView {
            title: title_at("Script Diff"@, a.detail_diff_scroll),
            lines: text_lines(a.detail_diff_output),
            scroll: a.detail_diff_scroll,
        }
    }
}

impl TuiApp {
    /// The lines of the Revisions pane, or that there are none.
    fn revisions_lines_shown(&self) -> (lines: Vec<Line>)
        requires
            self.wf(),
        ensures
            styled::line_views(lines@) == revisions_text(self@),
    {
        if self.detail_loading {
            waiting_lines(self.tick, " Loading…")
        } else if self.checkouts.len() == 0 {
            dim_lines("No revision data.")
        } else {
            revision_lines(&self.checkouts)
        }
    }

    /// Scrolls the revisions within their lines.
    pub fn clamp_revisions(&mut self, area: Area)
        requires
            old(self).wf(),
        ensures
            final(self).wf(),
            final(self)@ == revisions_clamped(old(self)@, area),
    {
        if self.detail_loading {
            self.revisions_scroll = 0;
        } else {
            let n: usize = self.revisions_lines_shown().len();
            assert(n == revisions_text(self@).len());
            self.revisions_scroll = clamp_scroll_offset(self.revisions_scroll, n, area);
        }
        assert(self@ == revisions_clamped(old(self)@, area));
    }

    /// What the Revisions pane shows.
    pub fn revisions(&self) -> (pane: Pane)
        requires
            self.wf(),
        ensures
            pane@ == revisions_pane(self@),
    {
        let title: String = if self.detail_loading {
            "Revisions (loading…)".to_owned()
        } else {
            title_with_line("Revisions", self.revisions_scroll)
        };
        Pane { title, lines: self.revisions_lines_shown(), scroll: self.revisions_scroll }
    }

    /// Scrolls the detail view within its lines.
    pub fn clamp_detail(&mut self, area: Area)
        requires
            old(self).wf(),
        ensures
            final(self).wf(),
            final(self)@ == detail_clamped(old(self)@, area),
    {
        let n: usize = self.detail_lines().len();
        assert(n == detail::all_lines(self@).len());
        self.detail_scroll = clamp_scroll_offset(self.detail_scroll, n, area);
        assert(self@ == detail_clamped(old(self)@, area));
    }

    /// What the detail view shows.
    pub fn detail_view(&self) -> (pane: Pane)
        requires
            self.wf(),
        ensures
            pane@ == detail_pane(self@),
    {
        Pane {
            title: title_with_line("Script Detail", self.detail_scroll),
            lines: self.detail_lines(),
            scroll: self.detail_scroll,
        }
    }

    /// Scrolls the diff view within its text.
    pub fn clamp_diff(&mut self, area: Area)
        requires
            old(self).wf(),
        ensures
            final(self).wf(),
            final(self)@ == diff_clamped(old(self)@, area),
    {
        if self.detail_diff_loading {
            self.detail_diff_scroll = 0;
        } else {
            let n: usize = line_count(self.detail_diff_output.as_str());
            self.detail_diff_scroll = clamp_scroll_offset(self.detail_diff_scroll, n, area);
        }
        assert(self@ == diff_clamped(old(self)@, area));
    }

    /// What the diff view shows.
    pub fn diff_view(&self) -> (pane: Pane)
        ensures
            pane@ == diff_pane(self@),
    {
        if self.detail_diff_loading {
            return Pane {
                title: "Script Diff (loading…)".to_owned(),
                lines: waiting_lines(self.tick, " Loading diff…"),
                scroll: 0,
            };
        }
        Pane {
            title: title_with_line("Script Diff", self.detail_diff_scroll),
            lines: lines_of_text(self.detail_diff_output.as_str()),
            scroll: self.detail_diff_scroll,
        }
    }
}

/// A list is scrolled so that its selected entry is within the border, and no
/// further than that.
pub proof fn law_the_selected_entry_is_visible(selected: usize, area: Area)
    requires
        selected <= u16::MAX,
        area.height >= 3,
    ensures
        scroll_to(selected, area) <= selected < scroll_to(selected, area) + area.height - 2,
        selected < area.height - 2 ==> scroll_to(selected, area) == 0,
        scroll_to(selected, area) > 0 ==> selected == scroll_to(selected, area) + area.height - 3,
{
}

/// An entry of a list is shown behind a mark where it is selected, and behind
/// blanks of the same width where not; the kind of a dependency takes seven
/// columns, and its path follows.
pub proof fn law_entries_are_shown_behind_their_mark(
    d: detail_worker::DependencyView,
    f: detail_worker::FunctionView,
    s: detail_worker::CallSiteView,
)
    requires
        d.kind.len() <= 7,
    ensures
        ({
            let chosen = dependency_text(d, true);
            let other = dependency_text(d, false);
            &&& chosen.take(2) == "> "@
            &&& other.take(2) == "  "@
            &&& chosen.skip(2) == other.skip(2)
            &&& chosen.skip(2).take(d.kind.len() as int) == d.kind
            &&& chosen.skip(10) == d.path
        }),
        function_text(f, true).take(2) == "> "@ && function_text(f, false).take(2) == "  "@,
        function_text(f, true).skip(2) == function_text(f, false).skip(2),
        function_text(f, true).skip(2).take(f.name.len() as int) == f.name,
        site_text(s, true).take(2) == "> "@ && site_text(s, false).take(2) == "  "@,
        site_text(s, true).skip(2) == site_text(s, false).skip(2),
        site_text(s, true).skip(10).take(s.caller_path.len() as int) == s.caller_path,
{
    reveal_strlit("> ");
    reveal_strlit("  ");
    reveal_strlit(" ");
    reveal_strlit("calls");
    assert("> "@.len() == 2 && "  "@.len() == 2 && " "@.len() == 1 && "calls"@.len() == 5);
    let kind = text::pad_right(d.kind, 7);
    assert(kind.len() == 7);
    assert(dependency_text(d, true).take(2) =~= "> "@);
    assert(dependency_text(d, false).take(2) =~= "  "@);
    assert(dependency_text(d, true).skip(2) =~= kind + " "@ + d.path);
    assert(dependency_text(d, false).skip(2) =~= kind + " "@ + d.path);
    assert((kind + " "@ + d.path).take(d.kind.len() as int) =~= d.kind);
    assert(dependency_text(d, true).skip(10) =~= d.path);
    let name = text::pad_right(f.name, 20);
    assert(function_text(f, true).take(2) =~= "> "@);
    assert(function_text(f, false).take(2) =~= "  "@);
    assert(function_text(f, true).skip(2) =~= function_text(f, false).skip(2));
    assert(function_text(f, true).skip(2).take(f.name.len() as int) =~= f.name);
    let called = text::pad_right("calls"@, 7);
    assert(called.len() == 7);
    assert(site_text(s, true).take(2) =~= "> "@);
    assert(site_text(s, false).take(2) =~= "  "@);
    assert(site_text(s, true).skip(2) =~= site_text(s, false).skip(2));
    assert(site_text(s, true).skip(10).take(s.caller_path.len() as int) =~= s.caller_path);
}

/// A revision is listed last in the group of its type: in development where it
/// says so or nothing, in the archive where it says that, and with the others
/// where it says something else.
pub proof fn law_revisions_are_grouped_by_type(
    rows: Seq<json::Columns>,
    row: json::Columns,
    g: RevisionGroup,
)
    ensures
        ({
            let kind = json::text_or_empty(row, "revision_type"@);
            let own = if kind == "DEVELOP"@ || kind.len() == 0 {
                RevisionGroup::Develop
            } else if kind == "ARCHIVE"@ {
                RevisionGroup::Archive
            } else {
                RevisionGroup::Remaining
            };
            group_lines(rows.push(row), g) == if g == own {
                group_lines(rows, g).push(styled::plain(revision_text(row)))
            } else {
                group_lines(rows, g)
            }
        }),
{
    assert(rows.push(row).drop_last() =~= rows);
}

/// A revision names its system, who checked the script out and when.
pub proof fn law_revisions_name_their_user(row: json::Columns)
    requires
        json::text_or_empty(row, "os_flavor"@).len() <= 7,
        json::text_or_empty(row, "user"@).len() <= 12,
    ensures
        ({
            let system = json::text_or_empty(row, "os_flavor"@);
            let user = json::text_or_empty(row, "user"@);
            let since = json::text_or_empty(row, "timestamp"@);
            let line = revision_text(row);
            &&& line.skip(2).take(system.len() as int) == system
            &&& line.skip(10).take(user.len() as int) == user
            &&& line.skip(23).take(since.len() as int) == since
            &&& json::text_or_empty(row, "age"@).len() == 0 ==> line.skip(23) == since
        }),
{
    reveal_strlit("  ");
    reveal_strlit(" ");
    assert("  "@.len() == 2 && " "@.len() == 1);
    let system = json::text_or_empty(row, "os_flavor"@);
    let user = json::text_or_empty(row, "user"@);
    let since = json::text_or_empty(row, "timestamp"@);
    let line = revision_text(row);
    assert(text::pad_right(system, 7).len() == 7 && text::pad_right(user, 12).len() == 12);
    assert(line.skip(2).take(system.len() as int) =~= system);
    assert(line.skip(10).take(user.len() as int) =~= user);
    assert(line.skip(23).take(since.len() as int) =~= since);
    if json::text_or_empty(row, "age"@).len() == 0 {
        assert(line.skip(23) =~= since);
    }
}

/// A result shows its path, as far as that has room, then its language, whether
/// it is checked out, and what it links to.
pub proof fn law_results_show_path_and_language(row: json::Columns, width: u16)
    requires
        json::text_or_empty(row, "logical_path"@).len() <= path_room(row, width),
    ensures
        ({
            let path = json::text_or_empty(row, "logical_path"@);
            let language = json::text_or_empty(row, "language"@);
            let user = json::text_or_empty(row, "checkout_user"@);
            let target = json::text_or_empty(row, "symlink_target"@);
            let start = path + "  "@ + language;
            &&& user.len() == 0 && target.len() == 0 ==> result_text(row, width) == start
            &&& user.len() > 0 && target.len() == 0 ==> result_text(row, width) == start + " CO"@
            &&& user.len() == 0 && target.len() > 0 ==> result_text(row, width) == start + " → "@
                + target
        }),
{
    law_cut_path_fits(json::text_or_empty(row, "logical_path"@), path_room(row, width));
    let path = json::text_or_empty(row, "logical_path"@);
    let language = json::text_or_empty(row, "language"@);
    let start = path + "  "@ + language;
    let target = json::text_or_empty(row, "symlink_target"@);
    let none = Seq::<char>::empty();
    assert(start + none + none =~= start);
    assert(start + " CO"@ + none =~= start + " CO"@);
    assert(start + none + (" → "@ + target) =~= start + " → "@ + target);
}

/// What is loading or empty is told in place of lines; else every result has
/// its line, and the title their number.
pub proof fn law_every_result_has_its_line(a: App, width: u16, i: int)
    requires
        0 <= i < a.results.len(),
    ensures
        results_pane(a, width).lines.len() == a.results.len(),
        styled::line_text(results_pane(a, width).lines[i]) == result_text(a.results[i], width),
        results_pane(a, width).title == "Results ("@ + text::decimal(a.results.len()) + ")"@,
{
    let t = result_text(a.results[i], width);
    let line = styled::plain(t);
    assert(results_pane(a, width).lines[i] == line);
    assert(line.drop_last() =~= seq![]);
    assert(styled::line_text(line.drop_last()) =~= seq![]);
    assert(Seq::<char>::empty() + t =~= t);
}

/// A path that is too long is cut before the directory of its file where that
/// has room, else before its file, else so that it fills its room.
pub proof fn law_long_paths_are_cut_at_a_directory(
    above: Seq<char>,
    dir: Seq<char>,
    name: Seq<char>,
    max: int,
)
    requires
        !dir.contains('/'),
        !name.contains('/'),
        max > 1,
        (above + "/"@ + dir + "/"@ + name).len() > max,
    ensures
        ({
            let path = above + "/"@ + dir + "/"@ + name;
            let file = "/"@ + name;
            let both = "/"@ + dir + "/"@ + name;
            &&& both.len() + 1 <= max ==> cut_path(path, max) == "…"@ + both
            &&& both.len() + 1 > max && file.len() + 1 <= max ==> cut_path(path, max) == "…"@ + file
            &&& file.len() + 1 > max ==> cut_path(path, max) == "…"@ + path.skip(
                path.len() - (max - 1),
            )
        }),
{
    reveal_strlit("/");
    assert("/"@ =~= seq!['/']);
    let path = above + "/"@ + dir + "/"@ + name;
    let last = (above.len() + 1 + dir.len()) as int;
    let second = above.len() as int;
    assert forall|j: int| 0 <= j < dir.len() implies dir[j] != '/' by {
        if dir[j] == '/' {
            assert(dir.contains('/'));
        }
    }
    assert forall|j: int| 0 <= j < name.len() implies name[j] != '/' by {
        if name[j] == '/' {
            assert(name.contains('/'));
        }
    }
    assert(path[last] == '/');
    assert forall|j: int| last < j < path.len() implies path[j] != '/' by {
        assert(path[j] == name[j - last - 1]);
    }
    text::lemma_rfind_char_is(path, '/', last);
    let before = path.take(last);
    assert(before[second] == '/');
    assert forall|j: int| second < j < before.len() implies before[j] != '/' by {
        assert(before[j] == dir[j - second - 1]);
    }
    text::lemma_rfind_char_is(before, '/', second);
    assert(path.skip(last) =~= "/"@ + name);
    assert(path.skip(second) =~= "/"@ + dir + "/"@ + name);
}

/// A scroll position is kept where the pane is then still full, and else is the
/// last one at which it is; a title counts lines from one.
pub proof fn law_scrolling_ends_with_the_last_line(
    scroll: u16,
    lines: int,
    area: Area,
    name: Seq<char>,
)
    requires
        0 <= lines <= u16::MAX,
    ensures
        scroll + viewport(area) <= lines ==> clamped_scroll(scroll, lines, area) == scroll,
        scroll + viewport(area) > lines > viewport(area) ==> clamped_scroll(scroll, lines, area)
            + viewport(area) == lines,
        scroll < u16::MAX ==> title_at(name, scroll) == name + " (line "@ + text::decimal(
            (scroll + 1) as nat,
        ) + ")"@,
        area.height >= 4 ==> viewport(area) == area.height - 2,
{
}

} // verus!
