//! Clicks and the wheel, and when the screen is painted.

use vstd::prelude::*;

use crate::text::concat;
use crate::tui;
use crate::tui::app;
use crate::tui::app::{App, TuiApp, ViewTarget};
use crate::tui::detail;
use crate::tui::detail::DetailClick;
use crate::tui::handlers;
use crate::tui::{
    move_selection, scroll_by, Area, Focus, Key, ViewMode, DEBOUNCE_MS, DOUBLE_CLICK_MS,
};

verus! {

/// What a pane on the screen is.
#[derive(Debug, Clone, Copy, PartialEq, Eq, Structural)]
pub enum RegionKind {
    /// The line at the top, with the path of the selected script.
    Header,
    /// The search box.
    Search,
    Results,
    Metadata,
    Preview,
    Deps,
    Functions,
    Revisions,
    /// The body of the detail view.
    DetailBody,
    /// The body of the diff view.
    DetailDiffBody,
}

/// A pane on the screen.
#[derive(Debug, Clone, Copy, PartialEq, Eq, Structural)]
pub struct ClickRegion {
    /// The content of the pane, inside its border.
    pub area: Area,
    pub kind: RegionKind,
    /// The first line of the content that is visible.
    pub scroll: usize,
}

/// The cells from `start` that `len` names, as far as cells are numbered.
pub open spec fn within(n: int, start: int, len: int) -> bool {
    start <= n < start + len && n < u16::MAX
}

/// Whether a cell lies in an area.
pub open spec fn is_inside(a: Area, col: int, row: int) -> bool {
    within(col, a.x as int, a.width as int) && within(row, a.y as int, a.height as int)
}

/// The line of a pane's content at a row of the screen.
pub open spec fn line_at(r: ClickRegion, row: int) -> usize {
    let n = r.scroll + (row - r.area.y);
    if n <= usize::MAX {
        n as usize
    } else {
        usize::MAX
    }
}

/// The first pane that holds a cell, and the line of its content there.
pub open spec fn hit(regions: Seq<ClickRegion>, col: int, row: int) -> Option<
    (RegionKind, usize),
>
    decreases regions.len(),
{
    if regions.len() == 0 {
        None
    } else if is_inside(regions[0].area, col, row) {
        Some((regions[0].kind, line_at(regions[0], row)))
    } else {
        hit(regions.drop_first(), col, row)
    }
}

/// Whether `n` is one of the `len` cells from `start`.
fn covers(n: u16, start: u16, len: u16) -> (b: bool)
    ensures
        b == within(n as int, start as int, len as int),
{
    let end: u32 = start as u32 + len as u32;
    n >= start && (n as u32) < end && n < u16::MAX
}

/// The first pane that holds a cell, and the line of its content there.
pub fn hit_test(regions: &Vec<ClickRegion>, col: u16, row: u16) -> (found: Option<
    (RegionKind, usize),
>)
    ensures
        found == hit(regions@, col as int, row as int),
{
    let mut i: usize = 0;
    assert(regions@.skip(0) =~= regions@);
    while i < regions.len()
        invariant
            i <= regions@.len(),
            hit(regions@, col as int, row as int) == hit(
                regions@.skip(i as int),
                col as int,
                row as int,
            ),
        decreases regions@.len() - i,
    {
        let r: ClickRegion = regions[i];
        proof {
            assert(regions@.skip(i as int)[0] == r);
            assert(regions@.skip(i as int).drop_first() =~= regions@.skip(i + 1));
        }
        if covers(col, r.area.x, r.area.width) && covers(row, r.area.y, r.area.height) {
            let below: usize = (row - r.area.y) as usize;
            let line: usize = if r.scroll <= usize::MAX - below {
                r.scroll + below
            } else {
                usize::MAX
            };
            return Some((r.kind, line));
        }
        i = i + 1;
    }
    None
}

/// The content of a pane with a border.
pub open spec fn inside_border(outer: Area) -> Area {
    Area {
        x: if outer.x < u16::MAX {
            (outer.x + 1) as u16
        } else {
            outer.x
        },
        y: if outer.y < u16::MAX {
            (outer.y + 1) as u16
        } else {
            outer.y
        },
        width: if outer.width >= 2 {
            (outer.width - 2) as u16
        } else {
            0
        },
        height: if outer.height >= 2 {
            (outer.height - 2) as u16
        } else {
            0
        },
    }
}

/// The content of a pane with a border.
pub fn inner_rect(outer: Area) -> (inner: Area)
    ensures
        inner == inside_border(outer),
{
    Area {
        x: if outer.x < u16::MAX {
            outer.x + 1
        } else {
            outer.x
        },
        y: if outer.y < u16::MAX {
            outer.y + 1
        } else {
            outer.y
        },
        width: if outer.width >= 2 {
            outer.width - 2
        } else {
            0
        },
        height: if outer.height >= 2 {
            outer.height - 2
        } else {
            0
        },
    }
}

// ---------------------------------------------------------------------------
// Clicks
// ---------------------------------------------------------------------------

/// Whether a click at the time `now` completes a double click.
pub open spec fn is_double(a: App, col: u16, row: u16, now: u64) -> bool {
    match a.last_click {
        Some((c, r, at)) => c == col && r == row && now - at <= DOUBLE_CLICK_MS,
        None => false,
    }
}

/// The state that remembers a click; a third click starts anew.
pub open spec fn remembering(a: App, col: u16, row: u16, now: u64) -> App {
    App {
        last_click: if is_double(a, col, row, now) {
            None
        } else {
            Some((col, row, now))
        },
        ..a
    }
}

/// The state after a click on a result.
pub open spec fn result_clicked(a: App, i: usize, double: bool) -> App {
    let b = App { focus: Focus::Results, ..a };
    let c = if i != a.selected {
        app::selecting(b, i)
    } else {
        b
    };
    if double {
        App { mode: ViewMode::Detail, ..c }
    } else {
        c
    }
}

/// The state after a click on an entry of the Deps pane: a click on the
/// selected one opens it.
pub open spec fn dependency_clicked(a: App, i: usize, double: bool) -> App {
    let b = App { focus: Focus::Deps, ..a };
    if i < app::target_count(b) {
        let c = App { deps_selected: i, ..b };
        if double || i == a.deps_selected {
            app::opening_dependency(c)
        } else {
            c
        }
    } else {
        b
    }
}

/// The state after a click on an entry of the Functions pane: a click on the
/// selected one jumps to it.
pub open spec fn function_clicked(a: App, i: usize, double: bool) -> App {
    let b = App { focus: Focus::Functions, ..a };
    if i < a.functions.len() {
        let c = App { functions_selected: i, ..b };
        if double || i == a.functions_selected {
            app::at_function(c)
        } else {
            c
        }
    } else {
        b
    }
}

/// The state after a click on a line of the detail view, and whether it
/// changed anything.
pub open spec fn detail_clicked(a: App, line: usize) -> (App, bool) {
    match detail::click_at(a, line as int) {
        DetailClick::CopyPath => (app::copying(a), true),
        DetailClick::FolderEntry(i) => {
            let b = App { folder_focused: true, ..a };
            if i == a.siblings_selected {
                (app::opening_entry(b), true)
            } else {
                (App { siblings_selected: i, ..b }, true)
            }
        },
        DetailClick::Nothing => (a, false),
    }
}

/// The state after a left click on a pane, and whether it changed anything.
pub open spec fn pane_clicked(a: App, kind: RegionKind, i: usize, double: bool) -> (App, bool) {
    match kind {
        RegionKind::Header | RegionKind::Metadata => (app::copying(a), true),
        RegionKind::Search => (App { focus: Focus::Search, ..a }, true),
        RegionKind::Results => if i < a.results.len() {
            (result_clicked(a, i, double), true)
        } else {
            (a, false)
        },
        RegionKind::Deps => (dependency_clicked(a, i, double), true),
        RegionKind::Functions => (function_clicked(a, i, double), true),
        RegionKind::Preview => (App { focus: Focus::Preview, ..a }, true),
        RegionKind::Revisions => (App { focus: Focus::Revisions, ..a }, true),
        RegionKind::DetailBody => detail_clicked(a, i),
        RegionKind::DetailDiffBody => (a, false),
    }
}

/// The state after a left click at the time `now`, and whether it changed
/// anything that is shown.
pub open spec fn clicked(a: App, col: u16, row: u16, now: u64) -> (App, bool) {
    let b = remembering(a, col, row, now);
    match hit(a.click_regions, col as int, row as int) {
        Some((kind, i)) => pane_clicked(b, kind, i, is_double(a, col, row, now)),
        None => (b, false),
    }
}

/// The state after the wheel was turned over a cell, and whether that changed
/// anything.
pub open spec fn wheeled(a: App, col: u16, row: u16, delta: i16) -> (App, bool) {
    match hit(a.click_regions, col as int, row as int) {
        None => (a, false),
        Some((kind, _)) => match kind {
            RegionKind::Results => (
                handlers::result_moved(a, delta as int),
                tui::moved(a.selected as int, a.results.len() as int, delta as int) != a.selected,
            ),
            RegionKind::Preview => (
                App { preview_scroll: tui::scrolled(a.preview_scroll, delta) as u16, ..a },
                true,
            ),
            RegionKind::Revisions => (
                App { revisions_scroll: tui::scrolled(a.revisions_scroll, delta) as u16, ..a },
                true,
            ),
            RegionKind::DetailBody => (
                App { detail_scroll: tui::scrolled(a.detail_scroll, delta) as u16, ..a },
                true,
            ),
            RegionKind::DetailDiffBody => (
                App {
                    detail_diff_scroll: tui::scrolled(a.detail_diff_scroll, delta) as u16,
                    ..a
                },
                true,
            ),
            RegionKind::Deps => (
                App {
                    deps_selected: tui::moved(
                        a.deps_selected as int,
                        app::target_count(a) as int,
                        delta as int,
                    ) as usize,
                    ..a
                },
                true,
            ),
            RegionKind::Functions => (
                App {
                    functions_selected: tui::moved(
                        a.functions_selected as int,
                        a.functions.len() as int,
                        delta as int,
                    ) as usize,
                    ..a
                },
                true,
            ),
            RegionKind::Header | RegionKind::Search | RegionKind::Metadata => (a, false),
        },
    }
}

/// What the mouse did.
#[derive(Debug, Clone, Copy, PartialEq, Eq, Structural)]
pub enum MouseAction {
    LeftClick,
    ScrollDown,
    ScrollUp,
    /// A move, a drag or another button.
    Other,
}

/// The state after the mouse did something at a cell, and whether that changed
/// anything. A click and the wheel end the passing message; moves do nothing.
pub open spec fn after_mouse(a: App, action: MouseAction, col: u16, row: u16, now: u64) -> (
    App,
    bool,
) {
    if action is Other {
        (a, false)
    } else {
        let quiet = App { flash: None, ..a };
        let (b, changed) = match action {
            MouseAction::LeftClick => clicked(quiet, col, row, now),
            MouseAction::ScrollDown => wheeled(quiet, col, row, 1),
            _ => wheeled(quiet, col, row, (-1) as i16),
        };
        (b, changed || a.flash is Some)
    }
}

impl TuiApp {
    /// Remembers a pane with a border, for clicks on it.
    pub fn record_region(&mut self, outer: Area, kind: RegionKind, scroll: usize)
        requires
            old(self).wf(),
        ensures
            final(self).wf(),
            final(self)@ == (App {
                click_regions: old(self)@.click_regions.push(
                    ClickRegion { area: inside_border(outer), kind, scroll },
                ),
                ..old(self)@
            }),
    {
        self.record_click_area(inner_rect(outer), kind, scroll);
    }

    /// Remembers an area, for clicks on it.
    pub fn record_click_area(&mut self, area: Area, kind: RegionKind, scroll: usize)
        requires
            old(self).wf(),
        ensures
            final(self).wf(),
            final(self)@ == (App {
                click_regions: old(self)@.click_regions.push(ClickRegion { area, kind, scroll }),
                ..old(self)@
            }),
    {
        self.click_regions.push(ClickRegion { area, kind, scroll });
    }

    /// Remembers a click; says whether it completes a double click.
    pub fn register_click(&mut self, col: u16, row: u16, now: u64) -> (double: bool)
        requires
            old(self).wf(),
        ensures
            final(self).wf(),
            double == is_double(old(self)@, col, row, now),
            final(self)@ == remembering(old(self)@, col, row, now),
    {
        let double: bool = match self.last_click {
            Some((c, r, at)) => c == col && r == row && (now < at || now - at <= DOUBLE_CLICK_MS),
            None => false,
        };
        self.last_click = if double {
            None
        } else {
            Some((col, row, now))
        };
        assert(self@ == remembering(old(self)@, col, row, now));
        double
    }

    /// A click on a result.
    fn click_result(&mut self, i: usize, double: bool)
        requires
            old(self).wf(),
        ensures
            final(self).wf(),
            final(self)@ == result_clicked(old(self)@, i, double),
    {
        self.focus = Focus::Results;
        let ghost b = self@;
        assert(b == (App { focus: Focus::Results, ..old(self)@ }));
        if i != self.selected {
            self.selected = i;
            assert(self@ == (App { selected: i, ..b }));
            self.load_selected();
        }
        if double {
            let ghost c = self@;
            self.mode = ViewMode::Detail;
            assert(self@ == (App { mode: ViewMode::Detail, ..c }));
        }
    }

    /// A click on an entry of the Deps pane.
    fn click_dependency(&mut self, i: usize, double: bool)
        requires
            old(self).wf(),
        ensures
            final(self).wf(),
            final(self)@ == dependency_clicked(old(self)@, i, double),
    {
        self.focus = Focus::Deps;
        let ghost b = self@;
        assert(b == (App { focus: Focus::Deps, ..old(self)@ }));
        if i < self.dependency_target_count() {
            let again: bool = i == self.deps_selected;
            self.deps_selected = i;
            assert(self@ == (App { deps_selected: i, ..b }));
            if double || again {
                self.open_selected_dependency();
            }
        }
    }

    /// A click on an entry of the Functions pane.
    fn click_function(&mut self, i: usize, double: bool)
        requires
            old(self).wf(),
        ensures
            final(self).wf(),
            final(self)@ == function_clicked(old(self)@, i, double),
    {
        self.focus = Focus::Functions;
        let ghost b = self@;
        assert(b == (App { focus: Focus::Functions, ..old(self)@ }));
        if i < self.functions.len() {
            let again: bool = i == self.functions_selected;
            self.functions_selected = i;
            assert(self@ == (App { functions_selected: i, ..b }));
            if double || again {
                self.jump_to_selected_function();
            }
        }
    }

    /// A click on a line of the detail view; says whether it changed anything.
    pub fn handle_detail_body_click(&mut self, line: usize) -> (changed: bool)
        requires
            old(self).wf(),
        ensures
            final(self).wf(),
            (final(self)@, changed) == detail_clicked(old(self)@, line),
    {
        match self.detail_click_at(line) {
            DetailClick::CopyPath => {
                self.copy_selected_path();
                true
            },
            DetailClick::FolderEntry(i) => {
                self.folder_focused = true;
                let ghost b = self@;
                assert(b == (App { folder_focused: true, ..old(self)@ }));
                if i == self.siblings_selected {
                    self.open_selected_folder_entry();
                } else {
                    self.siblings_selected = i;
                    assert(self@ == (App { siblings_selected: i, ..b }));
                }
                true
            },
            DetailClick::Nothing => false,
        }
    }

    /// A left click on a pane; says whether it changed anything.
    fn click_pane(&mut self, kind: RegionKind, i: usize, double: bool) -> (changed: bool)
        requires
            old(self).wf(),
        ensures
            final(self).wf(),
            (final(self)@, changed) == pane_clicked(old(self)@, kind, i, double),
    {
        match kind {
            RegionKind::Header | RegionKind::Metadata => {
                self.copy_selected_path();
                true
            },
            RegionKind::Search => {
                self.focus = Focus::Search;
                assert(self@ == (App { focus: Focus::Search, ..old(self)@ }));
                true
            },
            RegionKind::Results => {
                if i >= self.results.len() {
                    return false;
                }
                self.click_result(i, double);
                true
            },
            RegionKind::Deps => {
                self.click_dependency(i, double);
                true
            },
            RegionKind::Functions => {
                self.click_function(i, double);
                true
            },
            RegionKind::Preview => {
                self.focus = Focus::Preview;
                assert(self@ == (App { focus: Focus::Preview, ..old(self)@ }));
                true
            },
            RegionKind::Revisions => {
                self.focus = Focus::Revisions;
                assert(self@ == (App { focus: Focus::Revisions, ..old(self)@ }));
                true
            },
            RegionKind::DetailBody => self.handle_detail_body_click(i),
            RegionKind::DetailDiffBody => false,
        }
    }

    /// A left click at the time `now`; says whether it changed anything that is
    /// shown.
    pub fn handle_left_click(&mut self, col: u16, row: u16, now: u64) -> (changed: bool)
        requires
            old(self).wf(),
        ensures
            final(self).wf(),
            (final(self)@, changed) == clicked(old(self)@, col, row, now),
    {
        let double: bool = self.register_click(col, row, now);
        match hit_test(&self.click_regions, col, row) {
            Some((kind, i)) => self.click_pane(kind, i, double),
            None => false,
        }
    }

    /// The wheel turned over a cell; says whether that changed anything.
    pub fn handle_scroll(&mut self, col: u16, row: u16, delta: i16) -> (changed: bool)
        requires
            old(self).wf(),
        ensures
            final(self).wf(),
            (final(self)@, changed) == wheeled(old(self)@, col, row, delta),
    {
        let ghost a = self@;
        let kind: RegionKind = match hit_test(&self.click_regions, col, row) {
            Some((kind, _)) => kind,
            None => {
                return false;
            },
        };
        match kind {
            RegionKind::Results => {
                return self.move_result(delta as isize);
            },
            RegionKind::Preview => {
                self.preview_scroll = scroll_by(self.preview_scroll, delta);
                assert(self@ == (App { preview_scroll: self.preview_scroll, ..a }));
            },
            RegionKind::Revisions => {
                self.revisions_scroll = scroll_by(self.revisions_scroll, delta);
                assert(self@ == (App { revisions_scroll: self.revisions_scroll, ..a }));
            },
            RegionKind::DetailBody => {
                self.detail_scroll = scroll_by(self.detail_scroll, delta);
                assert(self@ == (App { detail_scroll: self.detail_scroll, ..a }));
            },
            RegionKind::DetailDiffBody => {
                self.detail_diff_scroll = scroll_by(self.detail_diff_scroll, delta);
                assert(self@ == (App { detail_diff_scroll: self.detail_diff_scroll, ..a }));
            },
            RegionKind::Deps => {
                let n: usize = self.dependency_target_count();
                self.deps_selected = move_selection(self.deps_selected, n, delta as isize);
                assert(self@ == (App { deps_selected: self.deps_selected, ..a }));
            },
            RegionKind::Functions => {
                let n: usize = self.functions.len();
                self.functions_selected = move_selection(
                    self.functions_selected,
                    n,
                    delta as isize,
                );
                assert(self@ == (App { functions_selected: self.functions_selected, ..a }));
            },
            RegionKind::Header | RegionKind::Search | RegionKind::Metadata => {
                return false;
            },
        }
        true
    }

    /// Handles what the mouse did; says whether that changed anything.
    pub fn handle_mouse(
        &mut self,
        action: MouseAction,
        col: u16,
        row: u16,
        now: u64,
    ) -> (changed: bool)
        requires
            old(self).wf(),
        ensures
            final(self).wf(),
            (final(self)@, changed) == after_mouse(old(self)@, action, col, row, now),
    {
        if action == MouseAction::Other {
            return false;
        }
        let told: bool = self.flash.is_some();
        self.flash = None;
        assert(self@ == (App { flash: None, ..old(self)@ }));
        let changed: bool = match action {
            MouseAction::LeftClick => self.handle_left_click(col, row, now),
            MouseAction::ScrollDown => self.handle_scroll(col, row, 1),
            _ => self.handle_scroll(col, row, -1),
        };
        changed || told
    }
}

// ---------------------------------------------------------------------------
// Painting
// ---------------------------------------------------------------------------

/// Whether something is shown that moves.
pub open spec fn animates(a: App) -> bool {
    (a.search_in_flight && a.results.len() == 0) || a.detail_loading || a.detail_diff_loading
}

/// Whether the query has rested long enough to be sent.
pub open spec fn query_is_due(a: App, now: u64) -> bool {
    match a.last_keystroke_at {
        Some(at) => now - at >= DEBOUNCE_MS && a.pending_query is Some,
        None => false,
    }
}

/// The state after a query that is due was sent.
pub open spec fn after_rest(a: App, now: u64) -> App {
    if query_is_due(a, now) {
        App { needs_redraw: true, ..app::querying(App { last_keystroke_at: None, ..a }) }
    } else {
        a
    }
}

/// The state with the next frame of what moves.
pub open spec fn after_tick(a: App) -> App {
    if animates(a) {
        App {
            tick: if a.tick < u64::MAX {
                (a.tick + 1) as u64
            } else {
                0
            },
            needs_redraw: true,
            ..a
        }
    } else {
        a
    }
}

/// The state after the screen was brought up to date.
pub open spec fn after_paint(a: App) -> App {
    App { force_full_redraw: false, needs_redraw: false, ..a }
}

/// The state without what was to be opened in a viewer; opening it clears the
/// screen.
pub open spec fn after_view_taken(a: App) -> App {
    App { pending_view: None, needs_redraw: a.needs_redraw || a.pending_view is Some, ..a }
}

/// The state after a viewer was closed or could not be opened.
pub open spec fn after_view(a: App, failure: Option<Seq<char>>) -> App {
    match failure {
        Some(e) => App { error: Some("Failed to open viewer: "@ + e), ..a },
        None => a,
    }
}

/// Something that happened at the terminal.
#[derive(Debug, Clone, Copy, PartialEq, Eq, Structural)]
pub enum TerminalEvent {
    KeyPress(Key),
    Mouse(MouseAction, u16, u16),
    Resize,
    Other,
}

/// The state after an event at the time `now`: what changes the screen has it
/// painted, and a key, a click or the wheel ends the passing message.
pub open spec fn after_event(a: App, e: TerminalEvent, now: u64) -> App {
    match e {
        TerminalEvent::KeyPress(k) => {
            let b = App { flash: None, ..a };
            if handlers::quits(b, k) {
                b
            } else {
                App { needs_redraw: true, ..handlers::after_key(b, k, now) }
            }
        },
        TerminalEvent::Mouse(action, col, row) => {
            let (b, changed) = after_mouse(a, action, col, row, now);
            App { needs_redraw: b.needs_redraw || changed, ..b }
        },
        TerminalEvent::Resize => App { needs_redraw: true, ..a },
        TerminalEvent::Other => a,
    }
}

impl TuiApp {
    /// Whether something is shown that moves.
    pub fn is_animating(&self) -> (b: bool)
        ensures
            b == animates(self@),
    {
        (self.search_in_flight && self.results.len() == 0) || self.detail_loading
            || self.detail_diff_loading
    }

    /// Sends the query if it has rested long enough.
    pub fn send_rested_query(&mut self, now: u64)
        requires
            old(self).wf(),
        ensures
            final(self).wf(),
            final(self)@ == after_rest(old(self)@, now),
    {
        let due: bool = match self.last_keystroke_at {
            Some(at) => now >= at && now - at >= DEBOUNCE_MS && self.pending_query.is_some(),
            None => false,
        };
        if due {
            self.last_keystroke_at = None;
            assert(self@ == (App { last_keystroke_at: None, ..old(self)@ }));
            self.dispatch_query();
            let ghost b = self@;
            self.needs_redraw = true;
            assert(self@ == (App { needs_redraw: true, ..b }));
        }
    }

    /// Shows the next frame of what moves.
    pub fn advance_spinner(&mut self)
        requires
            old(self).wf(),
        ensures
            final(self).wf(),
            final(self)@ == after_tick(old(self)@),
    {
        if self.is_animating() {
            self.tick = if self.tick < u64::MAX {
                self.tick + 1
            } else {
                0
            };
            self.needs_redraw = true;
            assert(self@ == after_tick(old(self)@));
        }
    }

    /// Takes what is to be opened in a viewer; opening it clears the screen.
    pub fn take_view(&mut self) -> (target: Option<ViewTarget>)
        requires
            old(self).wf(),
        ensures
            final(self).wf(),
            target == old(self).pending_view,
            final(self)@ == after_view_taken(old(self)@),
    {
        let mut target: Option<ViewTarget> = None;
        std::mem::swap(&mut target, &mut self.pending_view);
        if target.is_some() {
            self.needs_redraw = true;
        }
        assert(self@ == after_view_taken(old(self)@));
        target
    }

    /// Takes what the screen needs: whether it is to be cleared first, and
    /// whether it is to be painted.
    pub fn take_paint(&mut self) -> (paint: (bool, bool))
        requires
            old(self).wf(),
        ensures
            final(self).wf(),
            paint.0 == old(self)@.force_full_redraw,
            paint.1 == (old(self)@.force_full_redraw || old(self)@.needs_redraw),
            final(self)@ == after_paint(old(self)@),
    {
        let clear: bool = self.force_full_redraw;
        let paint: bool = clear || self.needs_redraw;
        self.force_full_redraw = false;
        self.needs_redraw = false;
        assert(self@ == after_paint(old(self)@));
        (clear, paint)
    }

    /// Begins a turn at the time `now`, once the answers of the workers are taken
    /// in: sends the query if it has rested, and takes what is to be opened in
    /// a viewer.
    pub fn begin_turn(&mut self, now: u64) -> (target: Option<ViewTarget>)
        requires
            old(self).wf(),
        ensures
            final(self).wf(),
            match target {
                Some(t) => after_rest(old(self)@, now).pending_view == Some(t@),
                None => after_rest(old(self)@, now).pending_view is None,
            },
            final(self)@ == after_view_taken(after_rest(old(self)@, now)),
    {
        self.send_rested_query(now);
        self.take_view()
    }

    /// Ends a turn, before the screen is brought up to date: notes why a viewer
    /// could not be opened, if one could not, and shows the next frame of what
    /// moves. Says whether the screen is to be cleared first, and whether it is
    /// to be painted.
    pub fn end_turn(&mut self, failure: Option<String>) -> (paint: (bool, bool))
        requires
            old(self).wf(),
        ensures
            final(self).wf(),
            ({
                let b = after_tick(after_view(old(self)@, app::opt_text(failure)));
                &&& paint.0 == b.force_full_redraw
                &&& paint.1 == (b.force_full_redraw || b.needs_redraw)
                &&& final(self)@ == after_paint(b)
            }),
    {
        match failure {
            Some(e) => {
                self.error = Some(concat("Failed to open viewer: ", e.as_str()));
                assert(self@ == after_view(old(self)@, Some(e@)));
            },
            None => {},
        }
        self.advance_spinner();
        self.take_paint()
    }

    /// Handles an event at the time `now`; says whether it ends the browser.
    pub fn handle_event(&mut self, event: TerminalEvent, now: u64) -> (quit: bool)
        requires
            old(self).wf(),
        ensures
            final(self).wf(),
            quit == (event matches TerminalEvent::KeyPress(k) && handlers::quits(old(self)@, k)),
            final(self)@ == after_event(old(self)@, event, now),
    {
        match event {
            TerminalEvent::KeyPress(key) => {
                self.flash = None;
                let ghost b = self@;
                assert(b == (App { flash: None, ..old(self)@ }));
                if self.handle_key(key, now) {
                    return true;
                }
                let ghost c = self@;
                self.needs_redraw = true;
                assert(self@ == (App { needs_redraw: true, ..c }));
            },
            TerminalEvent::Mouse(action, col, row) => {
                let changed: bool = self.handle_mouse(action, col, row, now);
                let ghost b = self@;
                if changed {
                    self.needs_redraw = true;
                }
                assert(self@ == (App { needs_redraw: b.needs_redraw || changed, ..b }));
            },
            TerminalEvent::Resize => {
                self.needs_redraw = true;
                assert(self@ == (App { needs_redraw: true, ..old(self)@ }));
            },
            TerminalEvent::Other => {},
        }
        false
    }
}

} // verus!
