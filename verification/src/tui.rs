//! The terminal browser: its state and what keys, clicks and answers do to it.
//!
//! The state asks for work by putting requests into an outbox; the program
//! around it sends them to its workers and hands the answers back.

pub mod app;
pub mod clipboard;
pub mod detail;
pub mod detail_worker;
pub mod handlers;
pub mod highlight;
pub mod laws;
pub mod mouse;
pub mod render;
pub mod styled;
pub mod viewer;
pub mod workers;

use vstd::prelude::*;

verus! {

/// Most rows that a search returns.
pub const RESULT_LIMIT: usize = 2000;

/// Most lines of a script that the preview shows.
pub const PREVIEW_LINES: usize = 500;

/// How long the query must rest before it is sent, in milliseconds.
pub const DEBOUNCE_MS: u64 = 150;

/// Lines that a page key scrolls.
pub const PAGE_SCROLL_LINES: i16 = 40;

/// Lines that a half-page key scrolls.
pub const HALF_PAGE_SCROLL_LINES: i16 = 20;

/// Lines that a full-page key scrolls.
pub const FULL_PAGE_SCROLL_LINES: i16 = 40;

/// Two left clicks on the same cell within this time are a double click, in
/// milliseconds.
pub const DOUBLE_CLICK_MS: u64 = 400;

/// The pane that receives keys.
#[derive(Debug, Clone, Copy, PartialEq, Eq, Structural)]
pub enum Focus {
    Search,
    Results,
    Preview,
    Deps,
    Functions,
    Revisions,
}

/// What fills the screen.
#[derive(Debug, Clone, Copy, PartialEq, Eq, Structural)]
pub enum ViewMode {
    Browse,
    Detail,
    DetailDiff,
}

/// How a key scrolls.
#[derive(Debug, Clone, Copy, PartialEq, Eq, Structural)]
pub enum ScrollCommand {
    Delta(i16),
    Top,
}

/// The keys that the browser knows; all others are `Other`.
#[derive(Debug, Clone, Copy, PartialEq, Eq, Structural)]
pub enum KeyCode {
    Char(char),
    Up,
    Down,
    PageUp,
    PageDown,
    Home,
    End,
    Tab,
    BackTab,
    Enter,
    Esc,
    Backspace,
    Other,
}

/// The modifiers that are held with a key: none, exactly one of two, or any
/// other combination.
#[derive(Debug, Clone, Copy, PartialEq, Eq, Structural)]
pub enum Modifiers {
    Plain,
    Control,
    Shift,
    Other,
}

/// A key press.
#[derive(Debug, Clone, Copy, PartialEq, Eq, Structural)]
pub struct Key {
    pub code: KeyCode,
    pub modifiers: Modifiers,
}

impl Key {
    /// Whether the key types `c`, with whatever modifiers.
    pub open spec fn types(self, c: char) -> bool {
        self.code == KeyCode::Char(c)
    }

    /// Whether the key is `c` without modifiers.
    pub open spec fn is_plain(self, c: char) -> bool {
        self.code == KeyCode::Char(c) && self.modifiers == Modifiers::Plain
    }

    /// Whether the key is `c` with the control key.
    pub open spec fn is_control(self, c: char) -> bool {
        self.code == KeyCode::Char(c) && self.modifiers == Modifiers::Control
    }

    /// Whether the key moves up: the arrow or `k`.
    pub open spec fn is_up(self) -> bool {
        self.code == KeyCode::Up || self.types('k')
    }

    /// Whether the key moves down: the arrow or `j`.
    pub open spec fn is_down(self) -> bool {
        self.code == KeyCode::Down || self.types('j')
    }

    /// Whether the key types `c`, with whatever modifiers.
    pub fn has_char(self, c: char) -> (b: bool)
        ensures
            b == self.types(c),
    {
        match self.code {
            KeyCode::Char(typed) => typed == c,
            _ => false,
        }
    }

    /// Whether the key is `c` without modifiers.
    pub fn plain(self, c: char) -> (b: bool)
        ensures
            b == self.is_plain(c),
    {
        self.has_char(c) && self.modifiers == Modifiers::Plain
    }

    /// Whether the key is `c` with the control key.
    pub fn control(self, c: char) -> (b: bool)
        ensures
            b == self.is_control(c),
    {
        self.has_char(c) && self.modifiers == Modifiers::Control
    }

    /// Whether the key moves up.
    pub fn up(self) -> (b: bool)
        ensures
            b == self.is_up(),
    {
        self.code == KeyCode::Up || self.has_char('k')
    }

    /// Whether the key moves down.
    pub fn down(self) -> (b: bool)
        ensures
            b == self.is_down(),
    {
        self.code == KeyCode::Down || self.has_char('j')
    }
}

/// The title of the search box.
pub open spec fn title_of_search(has_error: bool, is_searching: bool) -> Seq<char> {
    if has_error {
        "Search (invalid query)"@
    } else if is_searching {
        "Search (searching…)"@
    } else {
        "Search"@
    }
}

/// The title of the search box.
pub fn search_title(has_error: bool, is_searching: bool) -> (title: &'static str)
    ensures
        title@ == title_of_search(has_error, is_searching),
{
    if has_error {
        "Search (invalid query)"
    } else if is_searching {
        "Search (searching…)"
    } else {
        "Search"
    }
}

/// The place of a pane in the order of the panes.
pub open spec fn pane_number(focus: Focus) -> int {
    match focus {
        Focus::Search => 0,
        Focus::Results => 1,
        Focus::Preview => 2,
        Focus::Deps => 3,
        Focus::Functions => 4,
        Focus::Revisions => 5,
    }
}

/// The pane behind `focus`, the first one behind the last.
pub open spec fn focus_after(focus: Focus) -> Focus {
    match focus {
        Focus::Search => Focus::Results,
        Focus::Results => Focus::Preview,
        Focus::Preview => Focus::Deps,
        Focus::Deps => Focus::Functions,
        Focus::Functions => Focus::Revisions,
        Focus::Revisions => Focus::Search,
    }
}

/// The pane before `focus`, the last one before the first.
pub open spec fn focus_before(focus: Focus) -> Focus {
    match focus {
        Focus::Search => Focus::Revisions,
        Focus::Results => Focus::Search,
        Focus::Preview => Focus::Results,
        Focus::Deps => Focus::Preview,
        Focus::Functions => Focus::Deps,
        Focus::Revisions => Focus::Functions,
    }
}

/// The pane behind `focus`, the first one behind the last.
pub fn next_focus(focus: Focus) -> (next: Focus)
    ensures
        next == focus_after(focus),
{
    match focus {
        Focus::Search => Focus::Results,
        Focus::Results => Focus::Preview,
        Focus::Preview => Focus::Deps,
        Focus::Deps => Focus::Functions,
        Focus::Functions => Focus::Revisions,
        Focus::Revisions => Focus::Search,
    }
}

/// The pane before `focus`, the last one before the first.
pub fn previous_focus(focus: Focus) -> (previous: Focus)
    ensures
        previous == focus_before(focus),
{
    match focus {
        Focus::Search => Focus::Revisions,
        Focus::Results => Focus::Search,
        Focus::Preview => Focus::Results,
        Focus::Deps => Focus::Preview,
        Focus::Functions => Focus::Deps,
        Focus::Revisions => Focus::Functions,
    }
}

/// Going forth and back between panes leads to where it began, and going forth
/// visits the panes in their order, all of them before one comes again.
pub proof fn law_focus_cycles(focus: Focus)
    ensures
        focus_before(focus_after(focus)) == focus,
        focus_after(focus_before(focus)) == focus,
        pane_number(focus_after(focus)) == (pane_number(focus) + 1) % 6,
{
}

/// `n` if it is between `low` and `high`, else the nearer of the two.
pub open spec fn clamped(n: int, low: int, high: int) -> int {
    if n < low {
        low
    } else if n > high {
        high
    } else {
        n
    }
}

/// The selected one of `len` items after a move by `delta`; no move leads
/// beyond the first or the last item.
pub open spec fn moved(selected: int, len: int, delta: int) -> int {
    if len == 0 {
        0
    } else {
        clamped(selected + delta, 0, len - 1)
    }
}

/// The selected one of `len` items after a move by `delta`.
pub fn move_selection(selected: usize, len: usize, delta: isize) -> (next: usize)
    ensures
        next == moved(selected as int, len as int, delta as int),
        len > 0 ==> next < len,
{
    if len == 0 {
        return 0;
    }
    let last: usize = len - 1;
    let target: i128 = selected as i128 + delta as i128;
    if target < 0 {
        0
    } else if target > last as i128 {
        last
    } else {
        target as usize
    }
}

/// A scroll position after scrolling by `delta` lines.
pub open spec fn scrolled(current: u16, delta: i16) -> int {
    clamped(current + delta, 0, u16::MAX as int)
}

/// A scroll position after scrolling by `delta` lines.
pub fn scroll_by(current: u16, delta: i16) -> (next: u16)
    ensures
        next == scrolled(current, delta),
{
    let target: i32 = current as i32 + delta as i32;
    if target < 0 {
        0
    } else if target > u16::MAX as i32 {
        u16::MAX
    } else {
        target as u16
    }
}

/// How a key scrolls; `None` for a key that does not.
pub open spec fn scroll_of(key: Key) -> Option<ScrollCommand> {
    if key.is_up() {
        Some(ScrollCommand::Delta((-1) as i16))
    } else if key.is_down() {
        Some(ScrollCommand::Delta(1))
    } else if key.code == KeyCode::PageUp {
        Some(ScrollCommand::Delta((-PAGE_SCROLL_LINES) as i16))
    } else if key.code == KeyCode::PageDown {
        Some(ScrollCommand::Delta(PAGE_SCROLL_LINES))
    } else if key.is_control('u') {
        Some(ScrollCommand::Delta((-HALF_PAGE_SCROLL_LINES) as i16))
    } else if key.is_control('d') {
        Some(ScrollCommand::Delta(HALF_PAGE_SCROLL_LINES))
    } else if key.is_control('b') {
        Some(ScrollCommand::Delta((-FULL_PAGE_SCROLL_LINES) as i16))
    } else if key.is_control('f') {
        Some(ScrollCommand::Delta(FULL_PAGE_SCROLL_LINES))
    } else if key.is_plain('g') || key.code == KeyCode::Home {
        Some(ScrollCommand::Top)
    } else {
        None
    }
}

/// How a key scrolls.
pub fn scroll_command(key: Key) -> (command: Option<ScrollCommand>)
    ensures
        command == scroll_of(key),
{
    if key.up() {
        Some(ScrollCommand::Delta(-1))
    } else if key.down() {
        Some(ScrollCommand::Delta(1))
    } else if key.code == KeyCode::PageUp {
        Some(ScrollCommand::Delta(-PAGE_SCROLL_LINES))
    } else if key.code == KeyCode::PageDown {
        Some(ScrollCommand::Delta(PAGE_SCROLL_LINES))
    } else if key.control('u') {
        Some(ScrollCommand::Delta(-HALF_PAGE_SCROLL_LINES))
    } else if key.control('d') {
        Some(ScrollCommand::Delta(HALF_PAGE_SCROLL_LINES))
    } else if key.control('b') {
        Some(ScrollCommand::Delta(-FULL_PAGE_SCROLL_LINES))
    } else if key.control('f') {
        Some(ScrollCommand::Delta(FULL_PAGE_SCROLL_LINES))
    } else if key.plain('g') || key.code == KeyCode::Home {
        Some(ScrollCommand::Top)
    } else {
        None
    }
}

/// A scroll position after a key.
pub open spec fn scrolled_by_key(scroll: u16, key: Key) -> u16 {
    match scroll_of(key) {
        Some(ScrollCommand::Delta(delta)) => scrolled(scroll, delta) as u16,
        Some(ScrollCommand::Top) => 0,
        None => scroll,
    }
}

/// Scrolls as a command says.
pub fn apply_scroll_command(scroll: u16, command: ScrollCommand) -> (next: u16)
    ensures
        next == match command {
            ScrollCommand::Delta(delta) => scrolled(scroll, delta) as u16,
            ScrollCommand::Top => 0,
        },
{
    match command {
        ScrollCommand::Delta(delta) => scroll_by(scroll, delta),
        ScrollCommand::Top => 0,
    }
}

/// The scroll position after a key.
pub fn apply_scroll_key(scroll: u16, key: Key) -> (next: u16)
    ensures
        next == scrolled_by_key(scroll, key),
{
    match scroll_command(key) {
        Some(command) => apply_scroll_command(scroll, command),
        None => scroll,
    }
}

/// A rectangle of terminal cells.
#[derive(Debug, Clone, Copy, PartialEq, Eq, Structural)]
pub struct Area {
    pub x: u16,
    pub y: u16,
    pub width: u16,
    pub height: u16,
}

/// A move leads as many items on as it says, and no further than the first and
/// the last one.
pub proof fn law_moves_lead_on_and_stop_at_the_ends(selected: int, len: int, delta: int)
    requires
        0 <= selected < len,
    ensures
        0 <= moved(selected, len, delta) < len,
        0 <= selected + delta < len ==> moved(selected, len, delta) == selected + delta,
        selected + delta < 0 ==> moved(selected, len, delta) == 0,
        selected + delta >= len ==> moved(selected, len, delta) == len - 1,
        moved(selected, 0, delta) == 0,
{
}

/// Which keys scroll, and how far: the arrows and `k` and `j` by a line, the
/// page keys and control with `b` and `f` by forty, control with `u` and `d` by
/// twenty, and `g` and the home key to the top.
pub proof fn law_keys_scroll_as_they_should(scroll: u16)
    requires
        40 <= scroll <= 60000,
    ensures
        ({
            let key = |code: KeyCode, modifiers: Modifiers| scrolled_by_key(scroll, Key { code, modifiers });
            &&& key(KeyCode::Up, Modifiers::Plain) == scroll - 1
            &&& key(KeyCode::Char('k'), Modifiers::Plain) == scroll - 1
            &&& key(KeyCode::Down, Modifiers::Plain) == scroll + 1
            &&& key(KeyCode::Char('j'), Modifiers::Plain) == scroll + 1
            &&& key(KeyCode::PageUp, Modifiers::Plain) == scroll - 40
            &&& key(KeyCode::PageDown, Modifiers::Plain) == scroll + 40
            &&& key(KeyCode::Char('u'), Modifiers::Control) == scroll - 20
            &&& key(KeyCode::Char('d'), Modifiers::Control) == scroll + 20
            &&& key(KeyCode::Char('b'), Modifiers::Control) == scroll - 40
            &&& key(KeyCode::Char('f'), Modifiers::Control) == scroll + 40
            &&& key(KeyCode::Char('g'), Modifiers::Plain) == 0
            &&& key(KeyCode::Home, Modifiers::Plain) == 0
            &&& key(KeyCode::Enter, Modifiers::Plain) == scroll
        }),
{
}

} // verus!
