//! The detail view of a script.

use vstd::prelude::*;
use vstd::string::StringExecFns;

use crate::json;
use crate::json::{int_in, int_text, row_display, row_string, Row};
use crate::output;
use crate::output::checkout_label;
use crate::script_view;
use crate::script_view::{logical_base_name, string_list, vc_warning_messages};
use crate::text;
use crate::text::{concat, concat3, join_texts, same_text, split_lines};
use crate::tui::app;
use crate::tui::app::{App, TuiApp};
use crate::tui::detail_worker;
use crate::tui::styled;
use crate::tui::styled::{
    color_style, labelled_line, plain_line, push_line, section_line, single_line, Color, Line,
};
use crate::tui::PREVIEW_LINES;

verus! {

/// The width of the labels.
pub const LABEL_WIDTH: usize = 16;

/// `s`, or a dash where it is empty.
pub open spec fn or_dash(s: Seq<char>) -> Seq<char> {
    if s.len() == 0 {
        "—"@
    } else {
        s
    }
}

/// `value`, or a dash where it is empty.
pub fn display_text(value: &str) -> (s: String)
    ensures
        s@ == or_dash(value@),
{
    if value.is_empty() {
        "—".to_owned()
    } else {
        value.to_owned()
    }
}

/// Where a script lies on this machine, if that is not its logical path.
pub open spec fn native_of(row: json::Columns, native: Option<Seq<char>>) -> Option<Seq<char>> {
    let path = json::text_or_empty(row, "logical_path"@);
    match native {
        Some(n) => if path.len() > 0 && n != path {
            Some(n)
        } else {
            None
        },
        None => None,
    }
}

/// Where a script lies on this machine, if that is not its logical path.
pub fn native_path_for_row(row: &Row, native: &Option<String>) -> (path: Option<String>)
    requires
        row.wf(),
    ensures
        app::opt_text(path) == native_of(row@, app::opt_text(*native)),
{
    let path: String = row_string(row, "logical_path");
    match native {
        Some(n) => if path.as_str().is_empty() || same_text(n.as_str(), path.as_str()) {
            None
        } else {
            Some(n.clone())
        },
        None => None,
    }
}

/// The warnings of a script in one line.
pub fn warning_summary(row: &Row) -> (s: String)
    requires
        row.wf(),
    ensures
        s@ == text::join(script_view::warning_messages(row@), "; "@),
{
    let messages: Vec<String> = vc_warning_messages(row);
    join_texts(&messages, "; ")
}

// ---------------------------------------------------------------------------
// The sections
// ---------------------------------------------------------------------------

/// A field of the script.
pub open spec fn field(label: Seq<char>, value: Seq<char>) -> styled::LineView {
    styled::labelled(label, LABEL_WIDTH as nat, value)
}

/// An item of a list.
pub open spec fn bullet(value: Seq<char>) -> styled::LineView {
    styled::plain("  - "@ + value)
}

/// The size of a script in bytes.
pub open spec fn byte_count(row: json::Columns) -> Seq<char> {
    (match json::column_int(row, "size"@) {
        Some(n) => json::int_notation(n as int),
        None => "—"@,
    }) + " bytes"@
}

/// The fields that every script has.
pub open spec fn script_lines(row: json::Columns) -> Seq<styled::LineView> {
    seq![
        styled::section("Script"@),
        field("Path"@, json::text_or_empty(row, "logical_path"@)),
        field("Language"@, or_dash(json::text_or_empty(row, "language"@))),
        field("Owner"@, or_dash(json::text_or_empty(row, "owner"@))),
        field("Purpose"@, or_dash(json::text_or_empty(row, "purpose"@))),
        field("Size"@, byte_count(row)),
        field("Indexed"@, or_dash(json::text_or_empty(row, "indexed_at"@))),
        field("Checkout"@, output::checkout_text(row)),
    ]
}

/// A field with an optional value.
pub open spec fn optional_field(label: Seq<char>, value: Option<Seq<char>>) -> Seq<
    styled::LineView,
> {
    match value {
        Some(v) => seq![field(label, v)],
        None => seq![],
    }
}

/// A field with the texts of a column.
pub open spec fn list_field(row: json::Columns, label: Seq<char>, key: Seq<char>) -> Seq<
    styled::LineView,
> {
    let values = script_view::list_in(row, key);
    if values.len() > 0 {
        seq![field(label, text::join(values, ", "@))]
    } else {
        seq![]
    }
}

/// The items of a list.
pub open spec fn bullets(values: Seq<Seq<char>>) -> Seq<styled::LineView> {
    values.map_values(|v: Seq<char>| bullet(v))
}

/// A section with a title, set off by an empty line.
pub open spec fn titled(title: Seq<char>, lines: Seq<styled::LineView>) -> Seq<
    styled::LineView,
> {
    seq![styled::plain(seq![]), styled::section(title)] + lines
}

/// A section that is left out where it has no lines.
pub open spec fn section_if_any(title: Seq<char>, lines: Seq<styled::LineView>) -> Seq<
    styled::LineView,
> {
    if lines.len() == 0 {
        seq![]
    } else {
        titled(title, lines)
    }
}

/// What stands before the Folder section.
pub open spec fn before_folder(row: json::Columns, native: Option<Seq<char>>) -> Seq<
    styled::LineView,
> {
    script_lines(row) + optional_field("OS path"@, native_of(row, native)) + list_field(
        row,
        "Tags"@,
        "tags"@,
    ) + list_field(row, "Entry points"@, "entry_points"@) + list_field(
        row,
        "Related metadata"@,
        "related"@,
    ) + section_if_any("Warnings"@, bullets(script_view::warning_messages(row)))
}

/// The name of an entry of the Folder section: directories come first.
pub open spec fn entry_name(
    dirs: Seq<Seq<char>>,
    siblings: Seq<json::Columns>,
    i: int,
) -> Seq<char> {
    if i < dirs.len() {
        dirs[i] + "/"@
    } else {
        script_view::base_name(json::text_or_empty(siblings[i - dirs.len()], "logical_path"@))
    }
}

/// The line of an entry of the Folder section.
pub open spec fn entry_line(marked: bool, name: Seq<char>) -> styled::LineView {
    styled::plain((if marked {
        "> "@
    } else {
        "  "@
    }) + "- "@ + name)
}

/// The first `n` entries of the Folder section; `marked` is the entry with the
/// mark, if one has it.
pub open spec fn entry_lines(
    dirs: Seq<Seq<char>>,
    siblings: Seq<json::Columns>,
    marked: int,
    n: int,
) -> Seq<styled::LineView> {
    Seq::new(n as nat, |i: int| entry_line(i == marked, entry_name(dirs, siblings, i)))
}

/// What can be done in the Folder section.
pub open spec fn folder_hint(focused: bool, at_root: bool) -> Seq<char> {
    if !focused {
        "  [Tab] browse folder"@
    } else if at_root {
        "  [Tab] exit browse  [j/k] move  [Enter] open  [Backspace] back  (at root)"@
    } else {
        "  [Tab] exit browse  [j/k] move  [Enter] open  [[] up  [Backspace] back"@
    }
}

/// The entries of the Folder section, or that there are none.
pub open spec fn folder_entries(a: App) -> Seq<styled::LineView> {
    let n = a.sibling_dirs.len() + a.siblings.len();
    if n == 0 {
        seq![styled::plain("  (no other scripts in this folder)"@)]
    } else {
        entry_lines(
            a.sibling_dirs,
            a.siblings,
            if a.folder_focused {
                a.siblings_selected as int
            } else {
                -1
            },
            n as int,
        )
    }
}

/// The Folder section.
pub open spec fn folder_lines(a: App) -> Seq<styled::LineView> {
    let dir = app::shown_dir(a);
    if dir.len() == 0 {
        seq![]
    } else {
        titled(
            "Folder"@,
            seq![field("Directory"@, dir)] + folder_entries(a) + seq![
                styled::single(
                    folder_hint(a.folder_focused, dir == "/"@),
                    styled::colored(Color::DarkGray),
                ),
            ],
        )
    }
}

/// The dependencies as items.
pub open spec fn dependency_lines(deps: Seq<detail_worker::DependencyView>) -> Seq<
    styled::LineView,
> {
    deps.map_values(|d: detail_worker::DependencyView| bullet(d.kind + " "@ + d.path))
}

/// Who checked a script out, on which system and since when.
pub open spec fn checkout_item(row: json::Columns) -> Seq<char> {
    json::shown_column(row, "user"@) + " on "@ + json::shown_column(row, "os_flavor"@) + " since "@
        + json::shown_column(row, "timestamp"@)
}

/// The first `n` checkouts, two lines each.
pub open spec fn checkout_lines(rows: Seq<json::Columns>, n: int) -> Seq<styled::LineView>
    decreases n,
{
    if n <= 0 {
        seq![]
    } else {
        checkout_lines(rows, n - 1).push(bullet(checkout_item(rows[n - 1]))).push(
            styled::plain("    "@ + json::shown_column(rows[n - 1], "physical_path"@)),
        )
    }
}

/// The first lines of the content.
pub open spec fn content_lines(content: Seq<char>) -> Seq<styled::LineView> {
    let lines = text::lines(content);
    let shown = if lines.len() > PREVIEW_LINES {
        lines.take(PREVIEW_LINES as int)
    } else {
        lines
    };
    shown.map_values(|l: Seq<char>| styled::plain(l))
}

/// What stands behind the Folder section.
pub open spec fn after_folder(a: App, row: json::Columns) -> Seq<styled::LineView> {
    section_if_any("Dependencies"@, dependency_lines(a.deps)) + section_if_any(
        "Checkouts"@,
        checkout_lines(a.checkouts, a.checkouts.len() as int),
    ) + section_if_any("Preview"@, content_lines(json::text_or_empty(row, "content"@)))
}

/// The lines of the detail view.
pub open spec fn all_lines(a: App) -> Seq<styled::LineView> {
    if a.detail_loading {
        seq![styled::plain("Loading…"@)]
    } else {
        match a.detail {
            None => seq![styled::plain("No script selected."@)],
            Some(row) => before_folder(row, a.native_path) + folder_lines(a) + after_folder(
                a,
                row,
            ),
        }
    }
}

/// What a click on a line of the detail view means.
#[derive(Debug, Clone, Copy, PartialEq, Eq, Structural)]
pub enum DetailClick {
    CopyPath,
    FolderEntry(usize),
    Nothing,
}

/// The line of the first entry of the Folder section.
pub open spec fn first_entry_line(row: json::Columns, native: Option<Seq<char>>) -> int {
    before_folder(row, native).len() as int + 3
}

/// What a click on line `line` of the detail view means: on the path, on an
/// entry of the Folder section, or nothing.
pub open spec fn click_at(a: App, line: int) -> DetailClick {
    match a.detail {
        None => DetailClick::Nothing,
        Some(row) => {
            let first = first_entry_line(row, a.native_path);
            if a.detail_loading {
                DetailClick::Nothing
            } else if line == 1 {
                DetailClick::CopyPath
            } else if app::shown_dir(a).len() > 0 && first <= line < first + a.sibling_dirs.len()
                + a.siblings.len() {
                DetailClick::FolderEntry((line - first) as usize)
            } else {
                DetailClick::Nothing
            }
        },
    }
}

/// A click that copies the path is one on the line with the path, and a click
/// on an entry of the Folder section is one on the line of that entry.
pub proof fn law_clicks_hit_what_is_shown(a: App, line: int)
    requires
        0 <= line,
        a.sibling_dirs.len() + a.siblings.len() <= usize::MAX,
    ensures
        click_at(a, line) == DetailClick::CopyPath ==> line < all_lines(a).len() && all_lines(
            a,
        )[line] == field("Path"@, json::text_or_empty(a.detail.unwrap(), "logical_path"@)),
        click_at(a, line) matches DetailClick::FolderEntry(i) ==> line < all_lines(a).len()
            && all_lines(a)[line] == entry_line(
            a.folder_focused && i == a.siblings_selected,
            entry_name(a.sibling_dirs, a.siblings, i as int),
        ),
{
    match a.detail {
        Some(row) => if !a.detail_loading {
            let before = before_folder(row, a.native_path);
            let folder = folder_lines(a);
            let after = after_folder(a, row);
            assert(before[1] == script_lines(row)[1]);
            assert(all_lines(a) == before + folder + after);
            match click_at(a, line) {
                DetailClick::FolderEntry(i) => {
                    let entries = folder_entries(a);
                    assert(folder[3 + i] == entries[i as int]);
                    assert((before + folder)[before.len() + 3 + i] == folder[3 + i]);
                    assert(all_lines(a)[line] == entries[i as int]);
                },
                DetailClick::CopyPath => {
                    assert((before + folder)[1] == before[1]);
                    assert(all_lines(a)[1] == before[1]);
                },
                DetailClick::Nothing => {},
            }
        },
        None => {},
    }
}

// ---------------------------------------------------------------------------
// The executable side
// ---------------------------------------------------------------------------

/// Puts a field behind the lines.
fn push_field(lines: &mut Vec<Line>, label: &str, value: String)
    ensures
        styled::line_views(final(lines)@) == styled::line_views(old(lines)@).push(
            field(label@, value@),
        ),
{
    push_line(lines, labelled_line(label, LABEL_WIDTH, value));
}

/// Puts the title of a section behind the lines.
fn push_title(lines: &mut Vec<Line>, title: &str)
    ensures
        styled::line_views(final(lines)@) == styled::line_views(old(lines)@) + titled(
            title@,
            seq![],
        ),
{
    let empty: String = String::new();
    assert(empty@ =~= seq![]);
    push_line(lines, plain_line(empty));
    push_line(lines, section_line(title));
    assert(styled::line_views(lines@) =~= styled::line_views(old(lines)@) + titled(
        title@,
        seq![],
    ));
}

/// Puts an item behind the lines.
fn push_bullet(lines: &mut Vec<Line>, value: &str)
    ensures
        styled::line_views(final(lines)@) == styled::line_views(old(lines)@).push(bullet(value@)),
{
    push_line(lines, plain_line(concat("  - ", value)));
}

/// The fields that every script has.
fn script_fields(row: &Row) -> (lines: Vec<Line>)
    requires
        row.wf(),
    ensures
        styled::line_views(lines@) == script_lines(row@),
{
    let mut lines: Vec<Line> = Vec::new();
    assert(styled::line_views(lines@) =~= seq![]);
    let size: String = match int_in(row, "size") {
        Some(n) => int_text(n),
        None => "—".to_owned(),
    };
    push_line(&mut lines, section_line("Script"));
    push_field(&mut lines, "Path", row_string(row, "logical_path"));
    push_field(&mut lines, "Language", display_text(row_string(row, "language").as_str()));
    push_field(&mut lines, "Owner", display_text(row_string(row, "owner").as_str()));
    push_field(&mut lines, "Purpose", display_text(row_string(row, "purpose").as_str()));
    push_field(&mut lines, "Size", concat(size.as_str(), " bytes"));
    push_field(&mut lines, "Indexed", display_text(row_string(row, "indexed_at").as_str()));
    push_field(&mut lines, "Checkout", checkout_label(row));
    assert(styled::line_views(lines@) =~= script_lines(row@));
    lines
}

/// Puts a field with the texts of a column behind the lines.
fn push_list_field(lines: &mut Vec<Line>, row: &Row, label: &str, key: &str)
    requires
        row.wf(),
    ensures
        styled::line_views(final(lines)@) == styled::line_views(old(lines)@) + list_field(
            row@,
            label@,
            key@,
        ),
{
    let values: Vec<String> = string_list(row, key);
    assert(text::views(values@).len() == values@.len());
    if values.len() > 0 {
        push_field(lines, label, join_texts(&values, ", "));
    }
    assert(styled::line_views(lines@) =~= styled::line_views(old(lines)@) + list_field(
        row@,
        label@,
        key@,
    ));
}

/// Puts the warnings behind the lines.
fn push_warnings(lines: &mut Vec<Line>, row: &Row)
    requires
        row.wf(),
    ensures
        styled::line_views(final(lines)@) == styled::line_views(old(lines)@) + section_if_any(
            "Warnings"@,
            bullets(script_view::warning_messages(row@)),
        ),
{
    let messages: Vec<String> = vc_warning_messages(row);
    let ghost start = styled::line_views(lines@);
    let ghost all = text::views(messages@);
    let ghost items = bullets(all);
    if messages.len() == 0 {
        assert(styled::line_views(lines@) =~= start + section_if_any("Warnings"@, items));
        return ;
    }
    push_title(lines, "Warnings");
    let mut i: usize = 0;
    assert(styled::line_views(lines@) =~= start + titled("Warnings"@, items.take(0)));
    while i < messages.len()
        invariant
            i <= messages@.len(),
            all == text::views(messages@),
            items == bullets(all),
            styled::line_views(lines@) == start + titled("Warnings"@, items.take(i as int)),
        decreases messages@.len() - i,
    {
        push_bullet(lines, messages[i].as_str());
        proof {
            assert(items[i as int] == bullet(messages@[i as int]@));
            assert(styled::line_views(lines@) =~= start + titled(
                "Warnings"@,
                items.take(i + 1),
            ));
        }
        i = i + 1;
    }
    assert(items.take(items.len() as int) =~= items);
}

impl TuiApp {
    /// What stands before the Folder section.
    fn lines_before_folder(&self, row: &Row) -> (lines: Vec<Line>)
        requires
            row.wf(),
        ensures
            styled::line_views(lines@) == before_folder(row@, self@.native_path),
    {
        let mut lines: Vec<Line> = script_fields(row);
        let ghost start = styled::line_views(lines@);
        match native_path_for_row(row, &self.native_path) {
            Some(native) => push_field(&mut lines, "OS path", native),
            None => {},
        }
        assert(styled::line_views(lines@) =~= start + optional_field(
            "OS path"@,
            native_of(row@, self@.native_path),
        ));
        push_list_field(&mut lines, row, "Tags", "tags");
        push_list_field(&mut lines, row, "Entry points", "entry_points");
        push_list_field(&mut lines, row, "Related metadata", "related");
        push_warnings(&mut lines, row);
        lines
    }

    /// Puts the entries of the Folder section behind the lines.
    fn push_folder_entries(&self, lines: &mut Vec<Line>)
        requires
            self.wf(),
        ensures
            styled::line_views(final(lines)@) == styled::line_views(old(lines)@)
                + folder_entries(self@),
    {
        let ghost start = styled::line_views(lines@);
        let ghost a = self@;
        let ghost marked = if self.folder_focused {
            self.siblings_selected as int
        } else {
            -1
        };
        let dirs: usize = self.sibling_dirs.len();
        let scripts: usize = self.siblings.len();
        if dirs == 0 && scripts == 0 {
            push_line(lines, plain_line("  (no other scripts in this folder)".to_owned()));
            assert(styled::line_views(lines@) =~= start + folder_entries(a));
            return ;
        }
        let mut i: usize = 0;
        assert(styled::line_views(lines@) =~= start + entry_lines(
            a.sibling_dirs,
            a.siblings,
            marked,
            0,
        ));
        while i < dirs
            invariant
                i <= dirs == self.sibling_dirs@.len(),
                a == self@,
                marked == if self.folder_focused {
                    self.siblings_selected as int
                } else {
                    -1
                },
                styled::line_views(lines@) == start + entry_lines(
                    a.sibling_dirs,
                    a.siblings,
                    marked,
                    i as int,
                ),
            decreases dirs - i,
        {
            let name: String = concat(self.sibling_dirs[i].as_str(), "/");
            let mark: &str = if self.folder_focused && i == self.siblings_selected {
                "> "
            } else {
                "  "
            };
            let ghost before = entry_lines(a.sibling_dirs, a.siblings, marked, i as int);
            push_line(lines, plain_line(concat3(mark, "- ", name.as_str())));
            proof {
                assert(entry_lines(a.sibling_dirs, a.siblings, marked, i + 1) =~= before.push(
                    entry_line(i == marked, entry_name(a.sibling_dirs, a.siblings, i as int)),
                ));
                assert(styled::line_views(lines@) =~= start + entry_lines(
                    a.sibling_dirs,
                    a.siblings,
                    marked,
                    i + 1,
                ));
            }
            i = i + 1;
        }
        let mut k: usize = 0;
        while k < scripts
            invariant
                self.wf(),
                k <= scripts == self.siblings@.len(),
                dirs == self.sibling_dirs@.len(),
                a == self@,
                marked == if self.folder_focused {
                    self.siblings_selected as int
                } else {
                    -1
                },
                styled::line_views(lines@) == start + entry_lines(
                    a.sibling_dirs,
                    a.siblings,
                    marked,
                    dirs + k,
                ),
            decreases scripts - k,
        {
            let path: String = row_string(&self.siblings[k], "logical_path");
            let name: String = logical_base_name(path.as_str());
            let chosen: bool = self.folder_focused && self.siblings_selected >= dirs
                && self.siblings_selected - dirs == k;
            let mark: &str = if chosen {
                "> "
            } else {
                "  "
            };
            let ghost before = entry_lines(a.sibling_dirs, a.siblings, marked, dirs + k);
            push_line(lines, plain_line(concat3(mark, "- ", name.as_str())));
            proof {
                assert(a.siblings[k as int] == self.siblings@[k as int]@);
                assert(entry_lines(a.sibling_dirs, a.siblings, marked, dirs + k + 1)
                    =~= before.push(
                    entry_line(
                        dirs + k == marked,
                        entry_name(a.sibling_dirs, a.siblings, dirs + k),
                    ),
                ));
                assert(styled::line_views(lines@) =~= start + entry_lines(
                    a.sibling_dirs,
                    a.siblings,
                    marked,
                    dirs + k + 1,
                ));
            }
            k = k + 1;
        }
    }

    /// Puts the Folder section behind the lines.
    fn push_folder(&self, lines: &mut Vec<Line>)
        requires
            self.wf(),
        ensures
            styled::line_views(final(lines)@) == styled::line_views(old(lines)@) + folder_lines(
                self@,
            ),
    {
        let ghost start = styled::line_views(lines@);
        let dir: String = self.folder_display_dir();
        if dir.as_str().is_empty() {
            assert(styled::line_views(lines@) =~= start + folder_lines(self@));
            return ;
        }
        let at_root: bool = same_text(dir.as_str(), "/");
        push_title(lines, "Folder");
        push_field(lines, "Directory", dir);
        self.push_folder_entries(lines);
        let hint: &str = if !self.folder_focused {
            "  [Tab] browse folder"
        } else if at_root {
            "  [Tab] exit browse  [j/k] move  [Enter] open  [Backspace] back  (at root)"
        } else {
            "  [Tab] exit browse  [j/k] move  [Enter] open  [[] up  [Backspace] back"
        };
        push_line(lines, single_line(hint.to_owned(), color_style(Color::DarkGray)));
        assert(styled::line_views(lines@) =~= start + folder_lines(self@));
    }

    /// Puts the dependencies behind the lines.
    fn push_dependencies(&self, lines: &mut Vec<Line>)
        ensures
            styled::line_views(final(lines)@) == styled::line_views(old(lines)@)
                + section_if_any("Dependencies"@, dependency_lines(self@.deps)),
    {
        let ghost start = styled::line_views(lines@);
        let ghost deps = self@.deps;
        let ghost items = dependency_lines(deps);
        if self.deps.len() == 0 {
            assert(styled::line_views(lines@) =~= start + section_if_any(
                "Dependencies"@,
                items,
            ));
            return ;
        }
        push_title(lines, "Dependencies");
        let mut i: usize = 0;
        assert(styled::line_views(lines@) =~= start + titled("Dependencies"@, items.take(0)));
        while i < self.deps.len()
            invariant
                i <= self.deps@.len(),
                deps == detail_worker::dependency_views(self.deps@),
                items == dependency_lines(deps),
                styled::line_views(lines@) == start + titled(
                    "Dependencies"@,
                    items.take(i as int),
                ),
            decreases self.deps@.len() - i,
        {
            let item: String = concat3(
                self.deps[i].kind.as_str(),
                " ",
                self.deps[i].logical_path.as_str(),
            );
            push_bullet(lines, item.as_str());
            proof {
                assert(deps[i as int] == self.deps@[i as int]@);
                assert(items[i as int] == bullet(item@));
                assert(styled::line_views(lines@) =~= start + titled(
                    "Dependencies"@,
                    items.take(i + 1),
                ));
            }
            i = i + 1;
        }
        assert(items.take(items.len() as int) =~= items);
    }

    /// Puts the checkouts behind the lines.
    fn push_checkouts(&self, lines: &mut Vec<Line>)
        requires
            self.wf(),
        ensures
            styled::line_views(final(lines)@) == styled::line_views(old(lines)@)
                + section_if_any(
                "Checkouts"@,
                checkout_lines(self@.checkouts, self@.checkouts.len() as int),
            ),
    {
        let ghost start = styled::line_views(lines@);
        let ghost rows = self@.checkouts;
        if self.checkouts.len() == 0 {
            assert(styled::line_views(lines@) =~= start + section_if_any(
                "Checkouts"@,
                checkout_lines(rows, 0),
            ));
            return ;
        }
        push_title(lines, "Checkouts");
        let mut i: usize = 0;
        assert(styled::line_views(lines@) =~= start + titled("Checkouts"@, checkout_lines(rows, 0)));
        while i < self.checkouts.len()
            invariant
                self.wf(),
                i <= self.checkouts@.len(),
                rows == json::row_columns(self.checkouts@),
                styled::line_views(lines@) == start + titled(
                    "Checkouts"@,
                    checkout_lines(rows, i as int),
                ),
            decreases self.checkouts@.len() - i,
        {
            let row: &Row = &self.checkouts[i];
            assert(rows[i as int] == row@);
            let user: String = row_display(row, "user");
            let os: String = row_display(row, "os_flavor");
            let since: String = row_display(row, "timestamp");
            let path: String = row_display(row, "physical_path");
            let mut item: String = concat3(user.as_str(), " on ", os.as_str());
            item.append(" since ");
            item.append(since.as_str());
            push_bullet(lines, item.as_str());
            push_line(lines, plain_line(concat("    ", path.as_str())));
            assert(styled::line_views(lines@) =~= start + titled(
                "Checkouts"@,
                checkout_lines(rows, i + 1),
            ));
            i = i + 1;
        }
        assert(checkout_lines(rows, rows.len() as int).len() > 0);
    }

    /// The lines of the detail view.
    pub fn detail_lines(&self) -> (lines: Vec<Line>)
        requires
            self.wf(),
        ensures
            styled::line_views(lines@) == all_lines(self@),
    {
        let mut lines: Vec<Line> = Vec::new();
        assert(styled::line_views(lines@) =~= seq![]);
        if self.detail_loading {
            push_line(&mut lines, plain_line("Loading…".to_owned()));
            assert(styled::line_views(lines@) =~= all_lines(self@));
            return lines;
        }
        match &self.detail {
            None => {
                push_line(&mut lines, plain_line("No script selected.".to_owned()));
                assert(styled::line_views(lines@) =~= all_lines(self@));
                lines
            },
            Some(row) => {
                let mut lines: Vec<Line> = self.lines_before_folder(row);
                self.push_folder(&mut lines);
                let ghost start = styled::line_views(lines@);
                self.push_dependencies(&mut lines);
                self.push_checkouts(&mut lines);
                push_content(&mut lines, row);
                assert(styled::line_views(lines@) =~= start + after_folder(self@, row@));
                lines
            },
        }
    }

    /// What a click on line `line` of the detail view means.
    pub fn detail_click_at(&self, line: usize) -> (click: DetailClick)
        requires
            self.wf(),
        ensures
            click == click_at(self@, line as int),
    {
        match &self.detail {
            None => DetailClick::Nothing,
            Some(row) => {
                if self.detail_loading {
                    return DetailClick::Nothing;
                }
                if line == 1 {
                    return DetailClick::CopyPath;
                }
                let before: usize = self.lines_before_folder(row).len();
                assert(before == before_folder(row@, self@.native_path).len());
                if !self.can_focus_folder() || line < before || line - before < 3 {
                    return DetailClick::Nothing;
                }
                let i: usize = line - before - 3;
                let dirs: usize = self.sibling_dirs.len();
                if i < dirs || i - dirs < self.siblings.len() {
                    DetailClick::FolderEntry(i)
                } else {
                    DetailClick::Nothing
                }
            },
        }
    }
}

/// Puts the first lines of the content behind the lines.
fn push_content(lines: &mut Vec<Line>, row: &Row)
    requires
        row.wf(),
    ensures
        styled::line_views(final(lines)@) == styled::line_views(old(lines)@) + section_if_any(
            "Preview"@,
            content_lines(json::text_or_empty(row@, "content"@)),
        ),
{
    let ghost start = styled::line_views(lines@);
    let content: String = row_string(row, "content");
    let ghost items = content_lines(content@);
    let shown: Vec<String> = split_lines(content.as_str());
    let ghost all = text::lines(content@);
    assert(text::views(shown@).len() == shown@.len());
    let n: usize = if shown.len() > PREVIEW_LINES {
        PREVIEW_LINES
    } else {
        shown.len()
    };
    assert(items.len() == n);
    if n == 0 {
        assert(styled::line_views(lines@) =~= start + section_if_any("Preview"@, items));
        return ;
    }
    push_title(lines, "Preview");
    let mut i: usize = 0;
    assert(styled::line_views(lines@) =~= start + titled("Preview"@, items.take(0)));
    while i < n
        invariant
            i <= n <= shown@.len(),
            n == items.len(),
            all == text::views(shown@),
            forall|j: int| 0 <= j < n ==> #[trigger] items[j] == styled::plain(all[j]),
            styled::line_views(lines@) == start + titled("Preview"@, items.take(i as int)),
        decreases n - i,
    {
        push_line(lines, plain_line(shown[i].clone()));
        proof {
            assert(items[i as int] == styled::plain(shown@[i as int]@));
            assert(styled::line_views(lines@) =~= start + titled("Preview"@, items.take(i + 1)));
        }
        i = i + 1;
    }
    assert(items.take(items.len() as int) =~= items);
}

/// Every dependency has its line in the detail view, and so has every line of
/// the content up to the five hundredth; a section without lines is left out.
pub proof fn law_sections_hold_their_items(
    deps: Seq<detail_worker::DependencyView>,
    content: Seq<char>,
    i: int,
    title: Seq<char>,
)
    ensures
        0 <= i < deps.len() ==> styled::line_text(
            section_if_any(title, dependency_lines(deps))[i + 2],
        ) == "  - "@ + deps[i].kind + " "@ + deps[i].path,
        section_if_any(title, dependency_lines(deps)).len() == if deps.len() == 0 {
            0
        } else {
            deps.len() + 2
        },
        0 <= i < text::lines(content).len() && i < 500 ==> i < content_lines(content).len()
            && styled::line_text(content_lines(content)[i]) == text::lines(content)[i],
        content_lines(content).len() <= 500,
{
    if 0 <= i < deps.len() {
        let all = section_if_any(title, dependency_lines(deps));
        let t = "  - "@ + (deps[i].kind + " "@ + deps[i].path);
        assert(all[i + 2] == styled::plain(t));
        lemma_plain_text(t);
        assert(t =~= "  - "@ + deps[i].kind + " "@ + deps[i].path);
    }
    if 0 <= i < text::lines(content).len() && i < 500 {
        assert(content_lines(content)[i] == styled::plain(text::lines(content)[i]));
        lemma_plain_text(text::lines(content)[i]);
    }
}

/// The text of a line of one piece.
proof fn lemma_plain_text(t: Seq<char>)
    ensures
        styled::line_text(styled::plain(t)) == t,
{
    let line = styled::plain(t);
    assert(line.drop_last() =~= seq![]);
    assert(styled::line_text(line.drop_last()) =~= seq![]);
    assert(Seq::<char>::empty() + t =~= t);
}

/// A field shows its value behind its label, which takes sixteen columns.
pub proof fn law_fields_show_their_value(label: Seq<char>, value: Seq<char>)
    requires
        label.len() <= 16,
    ensures
        ({
            let line = styled::line_text(field(label, value));
            &&& line.take(label.len() as int) == label
            &&& line.skip(16) == value
        }),
{
    let line = field(label, value);
    let head = line.drop_last();
    assert(head.drop_last() =~= seq![]);
    assert(styled::line_text(head.drop_last()) =~= seq![]);
    assert(styled::line_text(head) =~= text::pad_right(label, 16));
    assert(styled::line_text(line) =~= text::pad_right(label, 16) + value);
    assert(styled::line_text(line).take(label.len() as int) =~= label);
    assert(styled::line_text(line).skip(16) =~= value);
}

/// The detail view starts with the path of the script, and where its language,
/// its owner or its purpose is not known it shows a dash.
pub proof fn law_the_detail_view_starts_with_the_script(
    a: App,
    row: json::Columns,
    path: Seq<char>,
    language: Seq<char>,
    owner: Seq<char>,
    purpose: Seq<char>,
)
    requires
        a.detail == Some(row),
        !a.detail_loading,
        path == json::text_or_empty(row, "logical_path"@),
        language == json::text_or_empty(row, "language"@),
        owner == json::text_or_empty(row, "owner"@),
        purpose == json::text_or_empty(row, "purpose"@),
    ensures
        ({
            let lines = all_lines(a);
            &&& lines.len() >= 8
            &&& lines[1] == field("Path"@, path)
            &&& language.len() > 0 ==> lines[2] == field("Language"@, language)
            &&& language.len() == 0 ==> lines[2] == field("Language"@, "—"@)
            &&& owner.len() > 0 ==> lines[3] == field("Owner"@, owner)
            &&& owner.len() == 0 ==> lines[3] == field("Owner"@, "—"@)
            &&& purpose.len() > 0 ==> lines[4] == field("Purpose"@, purpose)
            &&& purpose.len() == 0 ==> lines[4] == field("Purpose"@, "—"@)
            &&& lines[7] == field("Checkout"@, output::checkout_text(row))
        }),
{
    let before = before_folder(row, a.native_path);
    let lines = all_lines(a);
    assert(before.take(8) =~= script_lines(row));
    assert(lines.take(8) =~= before.take(8));
    assert(lines.take(8)[1] == script_lines(row)[1]);
    assert(lines.take(8)[2] == script_lines(row)[2]);
    assert(lines.take(8)[3] == script_lines(row)[3]);
    assert(lines.take(8)[4] == script_lines(row)[4]);
    assert(lines.take(8)[7] == script_lines(row)[7]);
}

/// The entries of a folder are its directories, each with a slash behind its
/// name, and then its scripts by the names of their files; the selected one is
/// marked while the folder is walked.
pub proof fn law_folders_list_directories_first(a: App, i: int)
    requires
        0 <= i < a.sibling_dirs.len() + a.siblings.len(),
    ensures
        folder_entries(a).len() == a.sibling_dirs.len() + a.siblings.len(),
        ({
            let name = if i < a.sibling_dirs.len() {
                a.sibling_dirs[i] + "/"@
            } else {
                script_view::base_name(
                    json::text_or_empty(a.siblings[i - a.sibling_dirs.len()], "logical_path"@),
                )
            };
            styled::line_text(folder_entries(a)[i]) == (if a.folder_focused && i
                == a.siblings_selected {
                "> "@
            } else {
                "  "@
            }) + "- "@ + name
        }),
{
    let marked = a.folder_focused && i == a.siblings_selected;
    let name = entry_name(a.sibling_dirs, a.siblings, i);
    assert(folder_entries(a)[i] == entry_line(marked, name));
    lemma_plain_text((if marked {
        "> "@
    } else {
        "  "@
    }) + "- "@ + name);
}

/// The place of a script on this machine is shown only where it differs from
/// its logical path.
pub proof fn law_only_other_places_are_shown(row: json::Columns, native: Seq<char>)
    ensures
        ({
            let path = json::text_or_empty(row, "logical_path"@);
            &&& path.len() > 0 && native != path ==> native_of(row, Some(native)) == Some(native)
            &&& native == path ==> native_of(row, Some(native)) is None
        }),
        native_of(row, None) is None,
{
}

/// A size is counted in bytes, and a checkout says by whom it was made, on which
/// system and when.
pub proof fn law_sizes_and_checkouts_are_told(
    row: json::Columns,
    n: i64,
    user: Seq<char>,
    system: Seq<char>,
    since: Seq<char>,
)
    requires
        n >= 0,
        user.len() > 0,
        system.len() > 0,
        since.len() > 0,
    ensures
        row.contains_key("size"@) && row["size"@] == json::ValueView::Int(n) ==> byte_count(row)
            == text::decimal(n as nat) + " bytes"@,
        row.contains_key("user"@) && row["user"@] == json::ValueView::Text(user)
            && row.contains_key("os_flavor"@) && row["os_flavor"@] == json::ValueView::Text(system)
            && row.contains_key("timestamp"@) && row["timestamp"@] == json::ValueView::Text(since)
            ==> checkout_item(row) == user + " on "@ + system + " since "@ + since,
{
}

} // verus!
