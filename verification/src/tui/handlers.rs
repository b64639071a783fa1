//! What keys do.

use vstd::prelude::*;

use crate::text::{chars_of, slice_text};
use crate::tui;
use crate::tui::app;
use crate::tui::app::{App, TuiApp};
use crate::tui::{
    apply_scroll_key, move_selection, next_focus, previous_focus, Focus, Key, KeyCode, Modifiers,
    ViewMode,
};

verus! {

/// Whether a key ends the browser: `q` or control and `c` anywhere, and the
/// escape key where there is nothing else to leave.
pub open spec fn quits(a: App, k: Key) -> bool {
    ||| k.is_plain('q')
    ||| k.is_control('c')
    ||| a.mode == ViewMode::Browse && k.code == KeyCode::Esc && !a.fullscreen
}

/// The state after a key in the search box.
pub open spec fn search_key(a: App, k: Key, now: u64) -> App {
    match k.code {
        KeyCode::Enter => App { focus: Focus::Results, ..a },
        KeyCode::Backspace => app::scheduling(
            App {
                query: if a.query.len() > 0 {
                    a.query.drop_last()
                } else {
                    a.query
                },
                ..a
            },
            now,
        ),
        KeyCode::Char(c) => if k.modifiers == Modifiers::Plain || k.modifiers == Modifiers::Shift {
            app::scheduling(App { query: a.query.push(c), ..a }, now)
        } else {
            a
        },
        _ => a,
    }
}

/// The state after the selection in the results was moved.
pub open spec fn result_moved(a: App, delta: int) -> App {
    let next = tui::moved(a.selected as int, a.results.len() as int, delta) as usize;
    if next != a.selected {
        app::selecting(a, next)
    } else {
        a
    }
}

/// The state after a key in the results.
pub open spec fn results_key(a: App, k: Key) -> App {
    if k.code == KeyCode::Enter {
        App { mode: ViewMode::Detail, ..a }
    } else if k.is_up() {
        result_moved(a, -1)
    } else if k.is_down() {
        result_moved(a, 1)
    } else if k.code == KeyCode::Home || k.is_plain('g') {
        app::selecting(a, 0)
    } else if (k.code == KeyCode::End || k.types('G')) && a.results.len() > 0 {
        app::selecting(a, (a.results.len() - 1) as usize)
    } else {
        a
    }
}

/// The state after a key in the Deps pane.
pub open spec fn deps_key(a: App, k: Key) -> App {
    let n = app::target_count(a) as int;
    if k.code == KeyCode::Enter {
        app::opening_dependency(a)
    } else if k.code == KeyCode::Backspace || k.is_plain('[') {
        app::going_back(a)
    } else if k.is_up() {
        App { deps_selected: tui::moved(a.deps_selected as int, n, -1) as usize, ..a }
    } else if k.is_down() {
        App { deps_selected: tui::moved(a.deps_selected as int, n, 1) as usize, ..a }
    } else {
        a
    }
}

/// The state after a key in the Functions pane.
pub open spec fn functions_key(a: App, k: Key) -> App {
    let n = a.functions.len() as int;
    if k.code == KeyCode::Enter {
        app::at_function(a)
    } else if k.is_up() {
        App { functions_selected: tui::moved(a.functions_selected as int, n, -1) as usize, ..a }
    } else if k.is_down() {
        App { functions_selected: tui::moved(a.functions_selected as int, n, 1) as usize, ..a }
    } else {
        a
    }
}

/// The state after a key in a pane other than the search box.
pub open spec fn pane_key(a: App, k: Key) -> App {
    if k.is_plain('/') {
        App { focus: Focus::Search, ..a }
    } else if k.is_plain('f') {
        App { fullscreen: !a.fullscreen, ..a }
    } else if k.is_plain('v') {
        app::viewing_catalog(a)
    } else if k.types('V') {
        app::checking_file(a)
    } else {
        match a.focus {
            Focus::Results => results_key(a, k),
            Focus::Deps => deps_key(a, k),
            Focus::Functions => functions_key(a, k),
            Focus::Preview => App {
                preview_scroll: tui::scrolled_by_key(a.preview_scroll, k),
                ..a
            },
            Focus::Revisions => App {
                revisions_scroll: tui::scrolled_by_key(a.revisions_scroll, k),
                ..a
            },
            Focus::Search => a,
        }
    }
}

/// The state after a key that does not end the browser, with all panes on the
/// screen.
pub open spec fn browse_key(a: App, k: Key, now: u64) -> App {
    if k.code == KeyCode::Esc {
        App { fullscreen: false, ..a }
    } else if k.is_control('l') {
        App { focus: Focus::Results, ..a }
    } else if k.code == KeyCode::Tab {
        App { focus: tui::focus_after(a.focus), ..a }
    } else if k.code == KeyCode::BackTab {
        App { focus: tui::focus_before(a.focus), ..a }
    } else if a.focus == Focus::Search {
        search_key(a, k, now)
    } else {
        pane_key(a, k)
    }
}

/// The state after a key in the Folder section of the detail view.
pub open spec fn folder_key(a: App, k: Key) -> App {
    let n = app::entry_count(a) as int;
    if k.code == KeyCode::Tab || k.code == KeyCode::Esc {
        App { folder_focused: false, ..a }
    } else if k.is_up() {
        App { siblings_selected: tui::moved(a.siblings_selected as int, n, -1) as usize, ..a }
    } else if k.is_down() {
        App { siblings_selected: tui::moved(a.siblings_selected as int, n, 1) as usize, ..a }
    } else if k.code == KeyCode::Enter {
        app::opening_entry(a)
    } else if k.is_plain('[') {
        app::going_up(a)
    } else if k.code == KeyCode::Backspace {
        app::folder_back(a)
    } else {
        a
    }
}

/// The state after a key in the detail view.
pub open spec fn detail_key(a: App, k: Key) -> App {
    if a.folder_focused {
        folder_key(a, k)
    } else if k.code == KeyCode::Esc || k.code == KeyCode::Backspace {
        App { mode: ViewMode::Browse, focus: Focus::Results, ..a }
    } else if k.is_plain('d') {
        App { mode: ViewMode::DetailDiff, ..app::diffing(a, None) }
    } else if k.is_plain('v') {
        app::viewing_catalog(a)
    } else if k.types('V') {
        app::checking_file(a)
    } else if k.code == KeyCode::Tab {
        if app::shown_dir(a).len() > 0 {
            App { folder_focused: true, siblings_selected: 0, ..a }
        } else {
            a
        }
    } else {
        App { detail_scroll: tui::scrolled_by_key(a.detail_scroll, k), ..a }
    }
}

/// The state after a key in the diff view.
pub open spec fn diff_key(a: App, k: Key) -> App {
    if k.code == KeyCode::Esc || k.code == KeyCode::Backspace {
        App { mode: ViewMode::Detail, ..a }
    } else {
        App { detail_diff_scroll: tui::scrolled_by_key(a.detail_diff_scroll, k), ..a }
    }
}

/// The state after a key that was pressed at the time `now`.
pub open spec fn after_key(a: App, k: Key, now: u64) -> App {
    if quits(a, k) {
        a
    } else {
        match a.mode {
            ViewMode::Browse => browse_key(a, k, now),
            ViewMode::Detail => detail_key(a, k),
            ViewMode::DetailDiff => diff_key(a, k),
        }
    }
}

impl TuiApp {
    /// Selects a result.
    fn select_result(&mut self, i: usize)
        requires
            old(self).wf(),
        ensures
            final(self).wf(),
            final(self)@ == app::selecting(old(self)@, i),
    {
        self.selected = i;
        assert(self@ == (App { selected: i, ..old(self)@ }));
        self.load_selected();
    }

    /// Moves the selection in the results.
    pub fn move_result(&mut self, delta: isize) -> (changed: bool)
        requires
            old(self).wf(),
        ensures
            final(self).wf(),
            final(self)@ == result_moved(old(self)@, delta as int),
            changed == (tui::moved(
                old(self)@.selected as int,
                old(self)@.results.len() as int,
                delta as int,
            ) != old(self)@.selected),
    {
        let next: usize = move_selection(self.selected, self.results.len(), delta);
        if next != self.selected {
            self.select_result(next);
            true
        } else {
            false
        }
    }

    /// A key in the search box.
    fn handle_search_key(&mut self, key: Key, now: u64)
        requires
            old(self).wf(),
        ensures
            final(self).wf(),
            final(self)@ == search_key(old(self)@, key, now),
    {
        match key.code {
            KeyCode::Enter => {
                self.focus = Focus::Results;
                assert(self@ == search_key(old(self)@, key, now));
            },
            KeyCode::Backspace => {
                let v: Vec<char> = chars_of(self.query.as_str());
                if v.len() > 0 {
                    self.query = slice_text(&v, 0, v.len() - 1);
                    assert(self.query@ == old(self)@.query.drop_last());
                }
                assert(self@ == (App { query: self.query@, ..old(self)@ }));
                self.schedule_query(now);
            },
            KeyCode::Char(c) => {
                if key.modifiers == Modifiers::Plain || key.modifiers == Modifiers::Shift {
                    self.query.push(c);
                    assert(self@ == (App { query: old(self)@.query.push(c), ..old(self)@ }));
                    self.schedule_query(now);
                }
            },
            _ => {},
        }
    }

    /// A key in the results.
    fn handle_results_key(&mut self, key: Key)
        requires
            old(self).wf(),
        ensures
            final(self).wf(),
            final(self)@ == results_key(old(self)@, key),
    {
        if key.code == KeyCode::Enter {
            self.mode = ViewMode::Detail;
            assert(self@ == results_key(old(self)@, key));
        } else if key.up() {
            self.move_result(-1);
        } else if key.down() {
            self.move_result(1);
        } else if key.code == KeyCode::Home || key.plain('g') {
            self.select_result(0);
        } else if (key.code == KeyCode::End || key.has_char('G')) && self.results.len() > 0 {
            let last: usize = self.results.len() - 1;
            self.select_result(last);
        }
    }

    /// A key in the Deps pane.
    fn handle_deps_key(&mut self, key: Key)
        requires
            old(self).wf(),
        ensures
            final(self).wf(),
            final(self)@ == deps_key(old(self)@, key),
    {
        if key.code == KeyCode::Enter {
            self.open_selected_dependency();
        } else if key.code == KeyCode::Backspace || key.plain('[') {
            self.go_back();
        } else if key.up() {
            self.deps_selected =
            move_selection(self.deps_selected, self.dependency_target_count(), -1);
            assert(self@ == deps_key(old(self)@, key));
        } else if key.down() {
            self.deps_selected =
            move_selection(self.deps_selected, self.dependency_target_count(), 1);
            assert(self@ == deps_key(old(self)@, key));
        }
    }

    /// A key in the Functions pane.
    fn handle_functions_key(&mut self, key: Key)
        requires
            old(self).wf(),
        ensures
            final(self).wf(),
            final(self)@ == functions_key(old(self)@, key),
    {
        if key.code == KeyCode::Enter {
            self.jump_to_selected_function();
        } else if key.up() {
            self.functions_selected =
            move_selection(self.functions_selected, self.functions.len(), -1);
            assert(self@ == functions_key(old(self)@, key));
        } else if key.down() {
            self.functions_selected =
            move_selection(self.functions_selected, self.functions.len(), 1);
            assert(self@ == functions_key(old(self)@, key));
        }
    }

    /// A key in a pane other than the search box.
    fn handle_pane_key(&mut self, key: Key)
        requires
            old(self).wf(),
        ensures
            final(self).wf(),
            final(self)@ == pane_key(old(self)@, key),
    {
        if key.plain('/') {
            self.focus = Focus::Search;
            assert(self@ == pane_key(old(self)@, key));
        } else if key.plain('f') {
            self.fullscreen = !self.fullscreen;
            assert(self@ == pane_key(old(self)@, key));
        } else if key.plain('v') {
            self.queue_catalog_view();
        } else if key.has_char('V') {
            self.queue_live_source_view();
        } else {
            match self.focus {
                Focus::Results => self.handle_results_key(key),
                Focus::Deps => self.handle_deps_key(key),
                Focus::Functions => self.handle_functions_key(key),
                Focus::Preview => {
                    self.preview_scroll = apply_scroll_key(self.preview_scroll, key);
                    assert(self@ == pane_key(old(self)@, key));
                },
                Focus::Revisions => {
                    self.revisions_scroll = apply_scroll_key(self.revisions_scroll, key);
                    assert(self@ == pane_key(old(self)@, key));
                },
                Focus::Search => {},
            }
        }
    }

    /// A key in the Folder section of the detail view, which does not end the
    /// browser.
    pub fn handle_folder_browse_key(&mut self, key: Key)
        requires
            old(self).wf(),
        ensures
            final(self).wf(),
            final(self)@ == folder_key(old(self)@, key),
    {
        if key.code == KeyCode::Tab || key.code == KeyCode::Esc {
            self.folder_focused = false;
            assert(self@ == folder_key(old(self)@, key));
        } else if key.up() {
            self.siblings_selected =
            move_selection(self.siblings_selected, self.folder_entry_count(), -1);
            assert(self@ == folder_key(old(self)@, key));
        } else if key.down() {
            self.siblings_selected =
            move_selection(self.siblings_selected, self.folder_entry_count(), 1);
            assert(self@ == folder_key(old(self)@, key));
        } else if key.code == KeyCode::Enter {
            self.open_selected_folder_entry();
        } else if key.plain('[') {
            self.folder_go_up();
        } else if key.code == KeyCode::Backspace {
            self.folder_go_back();
        }
    }

    /// A key in the detail view, which does not end the browser.
    pub fn handle_detail_key(&mut self, key: Key)
        requires
            old(self).wf(),
        ensures
            final(self).wf(),
            final(self)@ == detail_key(old(self)@, key),
    {
        if self.folder_focused {
            self.handle_folder_browse_key(key);
        } else if key.code == KeyCode::Esc || key.code == KeyCode::Backspace {
            self.mode = ViewMode::Browse;
            self.focus = Focus::Results;
            assert(self@ == detail_key(old(self)@, key));
        } else if key.plain('d') {
            self.dispatch_diff();
            let ghost b = self@;
            self.mode = ViewMode::DetailDiff;
            assert(self@ == (App { mode: ViewMode::DetailDiff, ..b }));
        } else if key.plain('v') {
            self.queue_catalog_view();
        } else if key.has_char('V') {
            self.queue_live_source_view();
        } else if key.code == KeyCode::Tab {
            if self.can_focus_folder() {
                self.folder_focused = true;
                self.siblings_selected = 0;
                assert(self@ == detail_key(old(self)@, key));
            }
        } else {
            self.detail_scroll = apply_scroll_key(self.detail_scroll, key);
            assert(self@ == detail_key(old(self)@, key));
        }
    }

    /// A key in the diff view, which does not end the browser.
    pub fn handle_detail_diff_key(&mut self, key: Key)
        requires
            old(self).wf(),
        ensures
            final(self).wf(),
            final(self)@ == diff_key(old(self)@, key),
    {
        if key.code == KeyCode::Esc || key.code == KeyCode::Backspace {
            self.mode = ViewMode::Detail;
        } else {
            self.detail_diff_scroll = apply_scroll_key(self.detail_diff_scroll, key);
        }
        assert(self@ == diff_key(old(self)@, key));
    }

    /// A key with all panes on the screen, which does not end the browser.
    fn handle_browse_key(&mut self, key: Key, now: u64)
        requires
            old(self).wf(),
        ensures
            final(self).wf(),
            final(self)@ == browse_key(old(self)@, key, now),
    {
        if key.code == KeyCode::Esc {
            self.fullscreen = false;
            assert(self@ == browse_key(old(self)@, key, now));
        } else if key.control('l') {
            self.focus = Focus::Results;
            assert(self@ == browse_key(old(self)@, key, now));
        } else if key.code == KeyCode::Tab {
            self.focus = next_focus(self.focus);
            assert(self@ == browse_key(old(self)@, key, now));
        } else if key.code == KeyCode::BackTab {
            self.focus = previous_focus(self.focus);
            assert(self@ == browse_key(old(self)@, key, now));
        } else if self.focus == Focus::Search {
            self.handle_search_key(key, now);
        } else {
            self.handle_pane_key(key);
        }
    }

    /// Handles a key that was pressed at the time `now`; says whether it ends
    /// the browser.
    pub fn handle_key(&mut self, key: Key, now: u64) -> (quit: bool)
        requires
            old(self).wf(),
        ensures
            final(self).wf(),
            quit == quits(old(self)@, key),
            final(self)@ == after_key(old(self)@, key, now),
    {
        if key.plain('q') || key.control('c') {
            return true;
        }
        match self.mode {
            ViewMode::Browse => {
                if key.code == KeyCode::Esc && !self.fullscreen {
                    return true;
                }
                self.handle_browse_key(key, now);
            },
            ViewMode::Detail => self.handle_detail_key(key),
            ViewMode::DetailDiff => self.handle_detail_diff_key(key),
        }
        false
    }
}

} // verus!
