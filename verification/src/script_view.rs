//! A row of the catalog read as a script.

use vstd::prelude::*;

use crate::json;
use crate::json::{present_texts, read_json_texts, read_listed_texts, row_string, text_in, Row};
use crate::text;
use crate::text::{chars_of, rfind_before, slice_text};

verus! {

/// The directory that a logical path lies in: `/` for a path at the root,
/// nothing for a bare name.
pub open spec fn parent_path(path: Seq<char>) -> Seq<char> {
    let i = text::rfind_char(path, '/');
    if i < 0 {
        seq![]
    } else if i == 0 {
        "/"@
    } else {
        path.take(i)
    }
}

/// The directory that a logical path lies in.
pub fn logical_parent_dir(path: &str) -> (dir: String)
    ensures
        dir@ == parent_path(path@),
{
    let v: Vec<char> = chars_of(path);
    assert(v@.take(v@.len() as int) =~= v@);
    match rfind_before(&v, v.len(), '/') {
        Some(i) => if i == 0 {
            "/".to_owned()
        } else {
            assert(v@.subrange(0, i as int) =~= v@.take(i as int));
            slice_text(&v, 0, i)
        },
        None => {
            let empty: String = String::new();
            assert(empty@ =~= seq![]);
            empty
        },
    }
}

/// The last part of a logical path.
pub open spec fn base_name(path: Seq<char>) -> Seq<char> {
    path.skip(text::rfind_char(path, '/') + 1)
}

/// The last part of a logical path.
pub fn logical_base_name(path: &str) -> (name: String)
    ensures
        name@ == base_name(path@),
{
    let v: Vec<char> = chars_of(path);
    assert(v@.take(v@.len() as int) =~= v@);
    let from: usize = match rfind_before(&v, v.len(), '/') {
        Some(i) => i + 1,
        None => 0,
    };
    assert(v@.subrange(from as int, v@.len() as int) =~= v@.skip(from as int));
    slice_text(&v, from, v.len())
}

/// Going up from the directory of a path below the root leads to a shorter
/// path, so that it ends at the root.
pub proof fn law_going_up_shortens_the_path(path: Seq<char>)
    requires
        path.len() > 1,
    ensures
        parent_path(path).len() < path.len(),
{
    text::lemma_rfind_char(path, '/');
    reveal_strlit("/");
    assert("/"@.len() == 1);
}

/// The texts of a column that holds a JSON list of them; none where it does
/// not.
pub open spec fn list_in(row: json::Columns, key: Seq<char>) -> Seq<Seq<char>> {
    match json::column_text(row, key) {
        Some(s) => match json::json_texts(s) {
            Some(v) => v,
            None => seq![],
        },
        None => seq![],
    }
}

/// The texts of a column that holds a JSON list of them.
pub fn string_list(row: &Row, key: &str) -> (texts: Vec<String>)
    requires
        row.wf(),
    ensures
        text::views(texts@) == list_in(row@, key@),
{
    let none: Vec<String> = Vec::new();
    assert(text::views(none@) =~= seq![]);
    match text_in(row, key) {
        Some(s) => match read_json_texts(s.as_str()) {
            Some(v) => v,
            None => none,
        },
        None => none,
    }
}

/// The messages of the warnings that a row holds.
pub open spec fn warning_messages(row: json::Columns) -> Seq<Seq<char>> {
    match json::json_listed_texts(json::text_or_empty(row, "vc_warnings"@), ""@, "message"@) {
        Some(found) => json::present(found),
        None => seq![],
    }
}

/// The messages of the warnings that a row holds.
pub fn vc_warning_messages(row: &Row) -> (texts: Vec<String>)
    requires
        row.wf(),
    ensures
        text::views(texts@) == warning_messages(row@),
{
    let raw: String = row_string(row, "vc_warnings");
    match read_listed_texts(raw.as_str(), "", "message") {
        Some(found) => present_texts(&found),
        None => {
            let none: Vec<String> = Vec::new();
            assert(text::views(none@) =~= seq![]);
            none
        },
    }
}

/// A path is its directory, a separator and its name: the parts that it is
/// taken apart into make it up again.
pub proof fn law_a_path_is_its_directory_and_its_name(dir: Seq<char>, name: Seq<char>)
    requires
        !name.contains('/'),
    ensures
        base_name(dir + "/"@ + name) == name,
        dir.len() > 0 ==> parent_path(dir + "/"@ + name) == dir,
        parent_path("/"@ + name) == "/"@,
        parent_path(name) == Seq::<char>::empty(),
        base_name(name) == name,
{
    reveal_strlit("/");
    assert forall|j: int| 0 <= j < name.len() implies name[j] != '/' by {
        if name[j] == '/' {
            assert(name.contains('/'));
        }
    }
    let path = dir + "/"@ + name;
    text::lemma_rfind_char_is(path, '/', dir.len() as int);
    assert(path.skip(dir.len() as int + 1) =~= name);
    assert(path.take(dir.len() as int) =~= dir);
    let top = "/"@ + name;
    text::lemma_rfind_char_is(top, '/', 0);
    text::lemma_rfind_char_is(name, '/', -1);
    assert(name.skip(0) =~= name);
}

/// A column that holds a JSON list of texts stands for these; of warnings the
/// messages are shown, where they have one, in order.
pub proof fn law_columns_stand_for_their_lists(
    row: json::Columns,
    key: Seq<char>,
    stored: Seq<char>,
    texts: Seq<Seq<char>>,
    found: Seq<Option<Seq<char>>>,
)
    requires
        row.contains_key(key),
        row[key] == json::ValueView::Text(stored),
    ensures
        json::json_texts(stored) == Some(texts) ==> list_in(row, key) == texts,
        json::json_texts(stored) is None ==> list_in(row, key).len() == 0,
        list_in(row.remove(key), key).len() == 0,
        key == "vc_warnings"@ && json::json_listed_texts(stored, ""@, "message"@) == Some(found)
            ==> warning_messages(row) == json::present(found),
{
}

} // verus!
