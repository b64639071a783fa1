//! What the commands print: the fields of catalog rows as text, CSV and JSON.

use vstd::prelude::*;
use vstd::string::StringExecFns;

use crate::json;
use crate::json::{
    present_texts, read_json_texts, read_listed_texts, reads_as_json, row_string, text_in, Row,
    Value,
};
use crate::sorted_map::SortedMap;
use crate::text;
use crate::text::{
    chars_of, concat, concat3, contains_string, decimal_text, has_char, join_texts, push_unique,
    same_text, trimmed,
};

verus! {

// ---------------------------------------------------------------------------
// Sizes
// ---------------------------------------------------------------------------

/// `a / b` rounded to the nearest whole number, and to the even one of two
/// that are equally near.
pub open spec fn round_even(a: int, b: int) -> int {
    let q = a / b;
    let r = a % b;
    if 2 * r < b || (2 * r == b && q % 2 == 0) {
        q
    } else {
        q + 1
    }
}

/// The distance between neighbouring double-precision numbers at `n`.
pub open spec fn double_step(n: int) -> int
    decreases n,
{
    if n < 0x20_0000_0000_0000 {
        1
    } else {
        2 * double_step(n / 2)
    }
}

/// The double-precision number nearest to `n`.
pub open spec fn nearest_double(n: int) -> int {
    round_even(n, double_step(n)) * double_step(n)
}

/// `n / unit` with one decimal.
pub open spec fn in_units(n: int, unit: int) -> Seq<char> {
    let tenths = round_even(10 * nearest_double(n), unit);
    text::decimal((tenths / 10) as nat) + "."@ + text::decimal((tenths % 10) as nat)
}

/// A number of bytes for people: in bytes, or with one decimal in the largest
/// unit that it reaches.
pub open spec fn size_text(n: int) -> Seq<char> {
    if n >= 0x4000_0000 {
        in_units(n, 0x4000_0000) + " GB"@
    } else if n >= 0x10_0000 {
        in_units(n, 0x10_0000) + " MB"@
    } else if n >= 0x400 {
        in_units(n, 0x400) + " KB"@
    } else {
        text::decimal(n as nat) + " B"@
    }
}

/// `a / b` rounded to the nearest whole number, and to the even one of two
/// that are equally near.
fn round_even_of(a: u128, b: u128) -> (r: u128)
    requires
        0 < b < 0x1_0000_0000_0000_0000,
        a < 0x1_0000_0000_0000_0000_0000,
    ensures
        r == round_even(a as int, b as int),
{
    let q: u128 = a / b;
    let r: u128 = a % b;
    assert(q <= a) by (nonlinear_arith)
        requires
            q == a / b,
            b > 0,
    ;
    if 2 * r < b || (2 * r == b && q % 2 == 0) {
        q
    } else {
        q + 1
    }
}

/// The step between doubles at a number of 64 bits.
proof fn lemma_double_step(n: int)
    requires
        0 <= n < 0x1_0000_0000_0000_0000,
    ensures
        1 <= double_step(n) <= 0x800,
        double_step(n) > 1 ==> double_step(n) * 0x10_0000_0000_0000 <= n,
        double_step(n) * 0x20_0000_0000_0000 > n,
{
    reveal_with_fuel(double_step, 13);
}

/// The double-precision number nearest to `n`.
fn nearest_double_of(n: u64) -> (d: u128)
    ensures
        d == nearest_double(n as int),
        d <= n + 0x800,
{
    let mut step: u128 = 1;
    let mut m: u64 = n;
    proof {
        lemma_double_step(n as int);
    }
    while m >= 0x20_0000_0000_0000
        invariant
            double_step(n as int) == step * double_step(m as int),
            1 <= step,
            double_step(n as int) <= 0x800,
            double_step(m as int) >= 1,
        decreases m,
    {
        let ghost half = double_step(m as int / 2);
        proof {
            lemma_double_step(m as int / 2);
            assert(step * (2 * half) == (2 * step) * half) by (nonlinear_arith);
            assert(2 * step <= (2 * step) * half) by (nonlinear_arith)
                requires
                    half >= 1,
                    step >= 1,
            ;
        }
        step = 2 * step;
        m = m / 2;
    }
    assert(step * 1 == step);
    let q: u128 = round_even_of(n as u128, step);
    proof {
        let n_int = n as int;
        let s = step as int;
        assert((n_int / s) * s + n_int % s == n_int && 0 <= n_int % s < s) by (nonlinear_arith)
            requires
                s > 0,
                n_int >= 0,
        ;
        assert(q * s <= n_int + s) by (nonlinear_arith)
            requires
                q <= n_int / s + 1,
                (n_int / s) * s <= n_int,
                s > 0,
        ;
    }
    q * step
}

/// `n / unit` with one decimal.
fn in_units_of(n: u64, unit: u64) -> (s: String)
    requires
        0x400 <= unit,
    ensures
        s@ == in_units(n as int, unit as int),
{
    let tenths: u128 = round_even_of(10 * nearest_double_of(n), unit as u128);
    proof {
        let d = nearest_double(n as int);
        let u = unit as int;
        assert(10 * d / u <= 10 * d / 0x400) by (nonlinear_arith)
            requires
                u >= 0x400,
                d >= 0,
        ;
    }
    let whole: String = decimal_text((tenths / 10) as u64);
    let rest: String = decimal_text((tenths % 10) as u64);
    concat3(whole.as_str(), ".", rest.as_str())
}

/// A number of bytes for people.
pub fn format_size(bytes: u64) -> (s: String)
    ensures
        s@ == size_text(bytes as int),
{
    if bytes >= 0x4000_0000 {
        concat(in_units_of(bytes, 0x4000_0000).as_str(), " GB")
    } else if bytes >= 0x10_0000 {
        concat(in_units_of(bytes, 0x10_0000).as_str(), " MB")
    } else if bytes >= 0x400 {
        concat(in_units_of(bytes, 0x400).as_str(), " KB")
    } else {
        concat(decimal_text(bytes).as_str(), " B")
    }
}

// ---------------------------------------------------------------------------
// Fields of a row
// ---------------------------------------------------------------------------

/// The text in a column; a dash where it is missing or empty.
pub open spec fn text_or_dash(row: json::Columns, key: Seq<char>) -> Seq<char> {
    match json::column_text(row, key) {
        Some(s) => if s.len() > 0 {
            s
        } else {
            "—"@
        },
        None => "—"@,
    }
}

/// The text in a column; a dash where it is missing or empty.
pub fn str_field(row: &Row, key: &str) -> (s: String)
    requires
        row.wf(),
    ensures
        s@ == text_or_dash(row@, key@),
{
    match text_in(row, key) {
        Some(s) => if s.as_str().is_empty() {
            "—".to_owned()
        } else {
            s.clone()
        },
        None => "—".to_owned(),
    }
}

/// The size of a script for people; a dash where it is missing or negative.
pub open spec fn size_in(row: json::Columns) -> Seq<char> {
    if row.contains_key("size"@) {
        match row["size"@] {
            json::ValueView::Int(n) => if n >= 0 {
                size_text(n as int)
            } else {
                "—"@
            },
            _ => "—"@,
        }
    } else {
        "—"@
    }
}

/// The size of a script for people.
pub fn size_field(row: &Row) -> (s: String)
    requires
        row.wf(),
    ensures
        s@ == size_in(row@),
{
    match row.get("size") {
        Some(Value::Int(n)) => if *n >= 0 {
            format_size(*n as u64)
        } else {
            "—".to_owned()
        },
        _ => "—".to_owned(),
    }
}

/// The whole seconds of a time since the epoch.
pub open spec fn whole_seconds(row: json::Columns, key: Seq<char>) -> Option<i64> {
    if row.contains_key(key) {
        match row[key] {
            json::ValueView::Int(n) => Some(n),
            json::ValueView::Real { whole, .. } => Some(whole),
            _ => None,
        }
    } else {
        None
    }
}

/// The date and time in UTC of a number of seconds since the epoch; `None`
/// where `chrono` has no such date.
pub uninterp spec fn utc_time(seconds: i64, format: Seq<char>) -> Option<Seq<char>>;

/// `chrono::DateTime::from_timestamp` and `DateTime::format`: what they give
/// depends on the seconds and the format alone.
#[verifier::external_body]
pub(crate) fn format_utc(seconds: i64, format: &str) -> (s: Option<String>)
    requires
        format@ == "%Y-%m-%dT%H:%M:%SZ"@,
    ensures
        match s {
            Some(t) => utc_time(seconds, format@) == Some(t@),
            None => utc_time(seconds, format@) is None,
        },
{
    let time = chrono::DateTime::<chrono::Utc>::from_timestamp(seconds, 0)?;
    Some(time.format(format).to_string())
}

/// When a script was last changed; a dash where that is unknown.
pub open spec fn mtime_in(row: json::Columns) -> Seq<char> {
    match whole_seconds(row, "mtime"@) {
        Some(n) => match utc_time(n, "%Y-%m-%dT%H:%M:%SZ"@) {
            Some(t) => t,
            None => "—"@,
        },
        None => "—"@,
    }
}

/// When a script was last changed.
pub fn mtime_field(row: &Row) -> (s: String)
    requires
        row.wf(),
    ensures
        s@ == mtime_in(row@),
{
    let seconds: i64 = match row.get("mtime") {
        Some(Value::Int(n)) => *n,
        Some(Value::Real { whole, .. }) => *whole,
        _ => {
            return "—".to_owned();
        },
    };
    match format_utc(seconds, "%Y-%m-%dT%H:%M:%SZ") {
        Some(t) => t,
        None => "—".to_owned(),
    }
}

/// The texts of a column that holds a JSON list of them; a dash where there is
/// none.
pub open spec fn listed(row: json::Columns, key: Seq<char>) -> Seq<char> {
    match json::column_text(row, key) {
        Some(s) => match json::json_texts(s) {
            Some(v) => if v.len() > 0 {
                text::join(v, ", "@)
            } else {
                "—"@
            },
            None => "—"@,
        },
        None => "—"@,
    }
}

/// The texts of a column that holds a JSON list of them.
pub fn json_array_field(row: &Row, key: &str) -> (s: String)
    requires
        row.wf(),
    ensures
        s@ == listed(row@, key@),
{
    match text_in(row, key) {
        Some(s) => match read_json_texts(s.as_str()) {
            Some(v) => if v.len() > 0 {
                join_texts(&v, ", ")
            } else {
                "—".to_owned()
            },
            None => "—".to_owned(),
        },
        None => "—".to_owned(),
    }
}

/// Who has a script checked out, and since when.
pub open spec fn checkout_text(row: json::Columns) -> Seq<char> {
    let user = json::text_or_empty(row, "checkout_user"@);
    let since = json::text_or_empty(row, "checkout_timestamp"@);
    if user.len() == 0 {
        "clean"@
    } else if since.len() == 0 {
        "checked out by "@ + user
    } else {
        "checked out by "@ + user + " since "@ + since
    }
}

/// Who has a script checked out, and since when.
pub fn checkout_label(row: &Row) -> (s: String)
    requires
        row.wf(),
    ensures
        s@ == checkout_text(row@),
{
    let user: String = row_string(row, "checkout_user");
    let since: String = row_string(row, "checkout_timestamp");
    if user.as_str().is_empty() {
        "clean".to_owned()
    } else if since.as_str().is_empty() {
        concat("checked out by ", user.as_str())
    } else {
        let mut s: String = concat3("checked out by ", user.as_str(), " since ");
        s.append(since.as_str());
        s
    }
}

/// The kinds of the warnings that a row holds; a dash where there are none.
pub open spec fn warnings_in(row: json::Columns) -> Seq<char> {
    match json::json_listed_texts(text_or_dash(row, "vc_warnings"@), ""@, "kind"@) {
        Some(kinds) => if json::present(kinds).len() > 0 {
            text::join(json::present(kinds), "; "@)
        } else {
            "—"@
        },
        None => "—"@,
    }
}

/// The kinds of the warnings that a row holds.
pub fn warning_kinds(row: &Row) -> (s: String)
    requires
        row.wf(),
    ensures
        s@ == warnings_in(row@),
{
    let raw: String = str_field(row, "vc_warnings");
    match read_listed_texts(raw.as_str(), "", "kind") {
        Some(found) => {
            let kinds: Vec<String> = present_texts(&found);
            assert(text::views(kinds@).len() == kinds@.len());
            if kinds.len() > 0 {
                join_texts(&kinds, "; ")
            } else {
                "—".to_owned()
            }
        },
        None => "—".to_owned(),
    }
}

/// The name under which a field is known; `None` for a field that is not.
pub open spec fn canonical_field(field: Seq<char>) -> Option<Seq<char>> {
    if field == "path"@ || field == "logical_path"@ {
        Some("path"@)
    } else if field == "language"@ {
        Some("language"@)
    } else if field == "owner"@ {
        Some("owner"@)
    } else if field == "purpose"@ {
        Some("purpose"@)
    } else if field == "checkout"@ {
        Some("checkout"@)
    } else if field == "size"@ {
        Some("size"@)
    } else if field == "indexed"@ || field == "indexed_at"@ {
        Some("indexed"@)
    } else if field == "symlink"@ || field == "symlink_target"@ {
        Some("symlink"@)
    } else if field == "mtime"@ {
        Some("mtime"@)
    } else if field == "tags"@ {
        Some("tags"@)
    } else if field == "entry_points"@ {
        Some("entry_points"@)
    } else if field == "related"@ {
        Some("related"@)
    } else {
        None
    }
}

/// The name under which a field is known.
pub fn canonical_script_field(field: &str) -> (name: Option<&'static str>)
    ensures
        match canonical_field(field@) {
            Some(n) => name is Some && name.unwrap()@ == n,
            None => name is None,
        },
{
    if same_text(field, "path") || same_text(field, "logical_path") {
        Some("path")
    } else if same_text(field, "language") {
        Some("language")
    } else if same_text(field, "owner") {
        Some("owner")
    } else if same_text(field, "purpose") {
        Some("purpose")
    } else if same_text(field, "checkout") {
        Some("checkout")
    } else if same_text(field, "size") {
        Some("size")
    } else if same_text(field, "indexed") || same_text(field, "indexed_at") {
        Some("indexed")
    } else if same_text(field, "symlink") || same_text(field, "symlink_target") {
        Some("symlink")
    } else if same_text(field, "mtime") {
        Some("mtime")
    } else if same_text(field, "tags") {
        Some("tags")
    } else if same_text(field, "entry_points") {
        Some("entry_points")
    } else if same_text(field, "related") {
        Some("related")
    } else {
        None
    }
}

/// The header of a column that shows a field.
pub open spec fn header_of(field: Seq<char>) -> Seq<char> {
    if field == "path"@ {
        "Path"@
    } else if field == "language"@ {
        "Language"@
    } else if field == "owner"@ {
        "Owner"@
    } else if field == "purpose"@ {
        "Purpose"@
    } else if field == "checkout"@ {
        "Checkout"@
    } else if field == "size"@ {
        "Size"@
    } else if field == "indexed"@ {
        "Indexed"@
    } else if field == "symlink"@ {
        "Symlink"@
    } else if field == "mtime"@ {
        "Modified"@
    } else if field == "tags"@ {
        "Tags"@
    } else if field == "entry_points"@ {
        "Entry Points"@
    } else if field == "related"@ {
        "Related"@
    } else {
        "Field"@
    }
}

/// The header of a column that shows a field.
pub fn script_field_header(field: &str) -> (header: &'static str)
    ensures
        header@ == header_of(field@),
{
    if same_text(field, "path") {
        "Path"
    } else if same_text(field, "language") {
        "Language"
    } else if same_text(field, "owner") {
        "Owner"
    } else if same_text(field, "purpose") {
        "Purpose"
    } else if same_text(field, "checkout") {
        "Checkout"
    } else if same_text(field, "size") {
        "Size"
    } else if same_text(field, "indexed") {
        "Indexed"
    } else if same_text(field, "symlink") {
        "Symlink"
    } else if same_text(field, "mtime") {
        "Modified"
    } else if same_text(field, "tags") {
        "Tags"
    } else if same_text(field, "entry_points") {
        "Entry Points"
    } else if same_text(field, "related") {
        "Related"
    } else {
        "Field"
    }
}

/// A field of a row as text.
pub open spec fn field_text(row: json::Columns, field: Seq<char>) -> Seq<char> {
    if field == "path"@ {
        text_or_dash(row, "logical_path"@)
    } else if field == "language"@ {
        text_or_dash(row, "language"@)
    } else if field == "owner"@ {
        text_or_dash(row, "owner"@)
    } else if field == "purpose"@ {
        text_or_dash(row, "purpose"@)
    } else if field == "checkout"@ {
        checkout_text(row)
    } else if field == "size"@ {
        size_in(row)
    } else if field == "indexed"@ {
        text_or_dash(row, "indexed_at"@)
    } else if field == "symlink"@ {
        text_or_dash(row, "symlink_target"@)
    } else if field == "mtime"@ {
        mtime_in(row)
    } else if field == "tags"@ {
        listed(row, "tags"@)
    } else if field == "entry_points"@ {
        listed(row, "entry_points"@)
    } else if field == "related"@ {
        listed(row, "related"@)
    } else {
        "—"@
    }
}

/// A field of a row as text.
pub fn display_script_field(row: &Row, field: &str) -> (s: String)
    requires
        row.wf(),
    ensures
        s@ == field_text(row@, field@),
{
    if same_text(field, "path") {
        str_field(row, "logical_path")
    } else if same_text(field, "language") {
        str_field(row, "language")
    } else if same_text(field, "owner") {
        str_field(row, "owner")
    } else if same_text(field, "purpose") {
        str_field(row, "purpose")
    } else if same_text(field, "checkout") {
        checkout_label(row)
    } else if same_text(field, "size") {
        size_field(row)
    } else if same_text(field, "indexed") {
        str_field(row, "indexed_at")
    } else if same_text(field, "symlink") {
        str_field(row, "symlink_target")
    } else if same_text(field, "mtime") {
        mtime_field(row)
    } else if same_text(field, "tags") {
        json_array_field(row, "tags")
    } else if same_text(field, "entry_points") {
        json_array_field(row, "entry_points")
    } else if same_text(field, "related") {
        json_array_field(row, "related")
    } else {
        "—".to_owned()
    }
}

/// What a column holds; null where it is missing.
pub open spec fn column_or_null(row: json::Columns, key: Seq<char>) -> json::ValueView {
    if row.contains_key(key) {
        row[key]
    } else {
        json::ValueView::Null
    }
}

/// What a column holds; null where it is missing.
fn copy_or_null(row: &Row, key: &str) -> (v: Value)
    requires
        row.wf(),
    ensures
        v@ == column_or_null(row@, key@),
{
    match row.get(key) {
        Some(v) => v.copy(),
        None => Value::Null,
    }
}

/// Whether `v` is the value that the JSON in a column stands for; null where
/// the column holds none.
pub open spec fn is_json_in(row: json::Columns, key: Seq<char>, v: json::ValueView) -> bool {
    match json::column_text(row, key) {
        Some(s) => if json::is_json(s) {
            v == json::ValueView::Json(s)
        } else {
            v is Null
        },
        None => v is Null,
    }
}

/// The value that the JSON in a column stands for.
fn json_value_field(row: &Row, key: &str) -> (v: Value)
    requires
        row.wf(),
    ensures
        is_json_in(row@, key@, v@),
{
    match text_in(row, key) {
        Some(s) => if reads_as_json(s.as_str()) {
            Value::Json(s.clone())
        } else {
            Value::Null
        },
        None => Value::Null,
    }
}

/// Whether `v` is a field of a row as a JSON value: a column as it is, a
/// column with JSON as the value that it stands for.
pub open spec fn is_field_value(
    row: json::Columns,
    field: Seq<char>,
    v: json::ValueView,
) -> bool {
    if field == "path"@ {
        v == column_or_null(row, "logical_path"@)
    } else if field == "language"@ {
        v == column_or_null(row, "language"@)
    } else if field == "owner"@ {
        v == column_or_null(row, "owner"@)
    } else if field == "purpose"@ {
        v == column_or_null(row, "purpose"@)
    } else if field == "checkout"@ {
        v.text() == Some(checkout_text(row))
    } else if field == "size"@ {
        v == column_or_null(row, "size"@)
    } else if field == "indexed"@ {
        v == column_or_null(row, "indexed_at"@)
    } else if field == "symlink"@ {
        v == column_or_null(row, "symlink_target"@)
    } else if field == "mtime"@ {
        v == column_or_null(row, "mtime"@)
    } else if field == "tags"@ {
        is_json_in(row, "tags"@, v)
    } else if field == "entry_points"@ {
        is_json_in(row, "entry_points"@, v)
    } else if field == "related"@ {
        is_json_in(row, "related"@, v)
    } else {
        v is Null
    }
}

/// A field of a row as a JSON value.
pub fn json_script_field(row: &Row, field: &str) -> (v: Value)
    requires
        row.wf(),
    ensures
        is_field_value(row@, field@, v@),
{
    if same_text(field, "path") {
        copy_or_null(row, "logical_path")
    } else if same_text(field, "language") {
        copy_or_null(row, "language")
    } else if same_text(field, "owner") {
        copy_or_null(row, "owner")
    } else if same_text(field, "purpose") {
        copy_or_null(row, "purpose")
    } else if same_text(field, "checkout") {
        Value::Text(checkout_label(row))
    } else if same_text(field, "size") {
        copy_or_null(row, "size")
    } else if same_text(field, "indexed") {
        copy_or_null(row, "indexed_at")
    } else if same_text(field, "symlink") {
        copy_or_null(row, "symlink_target")
    } else if same_text(field, "mtime") {
        copy_or_null(row, "mtime")
    } else if same_text(field, "tags") {
        json_value_field(row, "tags")
    } else if same_text(field, "entry_points") {
        json_value_field(row, "entry_points")
    } else if same_text(field, "related") {
        json_value_field(row, "related")
    } else {
        Value::Null
    }
}

// ---------------------------------------------------------------------------
// Tables, CSV and JSON of rows
// ---------------------------------------------------------------------------

/// The fields that are shown where none are asked for.
pub open spec fn default_fields() -> Seq<Seq<char>> {
    seq!["path"@, "language"@, "owner"@, "purpose"@]
}

/// The names of the fields among `asked`, each once; fields that are not known
/// are left out.
pub open spec fn known_fields(asked: Seq<Seq<char>>) -> Seq<Seq<char>>
    decreases asked.len(),
{
    if asked.len() == 0 {
        seq![]
    } else {
        let before = known_fields(asked.drop_last());
        match canonical_field(asked.last()) {
            Some(name) => text::with_text(before, name),
            None => before,
        }
    }
}

/// The fields to show where `asked` were asked for.
pub open spec fn fields_shown(asked: Seq<Seq<char>>) -> Seq<Seq<char>> {
    if asked.len() == 0 {
        known_fields(default_fields())
    } else {
        known_fields(asked)
    }
}

/// The fields that are shown where none are asked for.
fn default_search_fields() -> (fields: Vec<String>)
    ensures
        text::views(fields@) == default_fields(),
{
    let mut fields: Vec<String> = Vec::new();
    fields.push("path".to_owned());
    fields.push("language".to_owned());
    fields.push("owner".to_owned());
    fields.push("purpose".to_owned());
    assert(text::views(fields@) =~= default_fields());
    fields
}

/// The names of the fields among `asked`, each once.
fn known_of(asked: &Vec<String>) -> (fields: Vec<String>)
    ensures
        text::views(fields@) == known_fields(text::views(asked@)),
{
    let ghost all = text::views(asked@);
    let mut fields: Vec<String> = Vec::new();
    let mut i: usize = 0;
    assert(all.take(0) =~= seq![]);
    assert(text::views(fields@) =~= known_fields(all.take(0)));
    while i < asked.len()
        invariant
            i <= asked@.len(),
            all == text::views(asked@),
            text::views(fields@) == known_fields(all.take(i as int)),
        decreases asked@.len() - i,
    {
        proof {
            assert(all.take(i + 1).drop_last() =~= all.take(i as int));
            assert(all.take(i + 1).last() == asked@[i as int]@);
        }
        match canonical_script_field(asked[i].as_str()) {
            Some(name) => push_unique(&mut fields, name.to_owned()),
            None => {},
        }
        i = i + 1;
    }
    assert(all.take(all.len() as int) =~= all);
    fields
}

/// The fields to show where `fields` were asked for.
pub fn selected_script_fields(fields: &Vec<String>) -> (selected: Vec<String>)
    ensures
        text::views(selected@) == fields_shown(text::views(fields@)),
{
    assert(text::views(fields@).len() == fields@.len());
    if fields.len() == 0 {
        known_of(&default_search_fields())
    } else {
        known_of(fields)
    }
}

/// The fields of a row as texts.
pub open spec fn field_texts(row: json::Columns, fields: Seq<Seq<char>>) -> Seq<Seq<char>> {
    fields.map_values(|f: Seq<char>| field_text(row, f))
}

/// The fields of a row as texts.
fn display_fields(row: &Row, fields: &Vec<String>) -> (cells: Vec<String>)
    requires
        row.wf(),
    ensures
        text::views(cells@) == field_texts(row@, text::views(fields@)),
{
    let ghost all = text::views(fields@);
    let mut cells: Vec<String> = Vec::new();
    let mut i: usize = 0;
    while i < fields.len()
        invariant
            row.wf(),
            i <= fields@.len(),
            cells@.len() == i,
            all == text::views(fields@),
            forall|j: int| 0 <= j < i ==> (#[trigger] cells@[j])@ == field_text(row@, all[j]),
        decreases fields@.len() - i,
    {
        assert(all[i as int] == fields@[i as int]@);
        cells.push(display_script_field(row, fields[i].as_str()));
        i = i + 1;
    }
    assert(text::views(cells@) =~= field_texts(row@, all));
    cells
}

/// What stands below a row whose script is a link: what the link led to when
/// it was indexed, in the column with the path.
pub open spec fn link_row(target: Seq<char>, fields: Seq<Seq<char>>) -> Seq<Seq<char>> {
    fields.map_values(
        |f: Seq<char>|
            if f == "path"@ {
                "↳ "@ + target
            } else {
                seq![]
            },
    )
}

/// The cells of the first `n` scripts: a row for each, and below that of a link
/// one with its target, where the path is shown.
pub open spec fn table_cells_of(scripts: Seq<Row>, fields: Seq<Seq<char>>, n: int) -> Seq<
    Seq<Seq<char>>,
>
    decreases n,
{
    if n <= 0 {
        seq![]
    } else {
        let row = scripts[n - 1]@;
        let target = json::text_or_empty(row, "symlink_target"@);
        let rows = table_cells_of(scripts, fields, n - 1).push(field_texts(row, fields));
        if target.len() > 0 && fields.contains("path"@) {
            rows.push(link_row(target, fields))
        } else {
            rows
        }
    }
}

/// What stands below a row whose script is a link.
fn link_cells(target: &str, fields: &Vec<String>) -> (cells: Vec<String>)
    ensures
        text::views(cells@) == link_row(target@, text::views(fields@)),
{
    let ghost fs = text::views(fields@);
    let mut cells: Vec<String> = Vec::new();
    let mut i: usize = 0;
    while i < fields.len()
        invariant
            i <= fields@.len(),
            cells@.len() == i,
            fs == text::views(fields@),
            forall|j: int|
                0 <= j < i ==> (#[trigger] cells@[j])@ == link_row(target@, fs)[j],
        decreases fields@.len() - i,
    {
        assert(fs[i as int] == fields@[i as int]@);
        let cell: String = if same_text(fields[i].as_str(), "path") {
            concat("↳ ", target)
        } else {
            String::new()
        };
        assert(cell@ =~= link_row(target@, fs)[i as int]);
        cells.push(cell);
        i = i + 1;
    }
    assert(text::views(cells@) =~= link_row(target@, fs));
    cells
}

/// The values of rows of cells.
pub open spec fn cells_view(rows: Seq<Vec<String>>) -> Seq<Seq<Seq<char>>> {
    rows.map_values(|r: Vec<String>| text::views(r@))
}

/// The headers, the cells and which columns are cut at their start, of a table
/// that shows `fields` of the scripts.
pub fn script_table_rows(scripts: &Vec<Row>, fields: &Vec<String>) -> (t: (
    Vec<String>,
    Vec<Vec<String>>,
    Vec<bool>,
))
    requires
        json::rows_wf(scripts@),
    ensures
        ({
            let fs = text::views(fields@);
            &&& text::views(t.0@) == fs.map_values(|f: Seq<char>| header_of(f))
            &&& cells_view(t.1@) == table_cells_of(scripts@, fs, scripts@.len() as int)
            &&& t.2@ == fs.map_values(|f: Seq<char>| f == "path"@)
        }),
{
    let ghost fs = text::views(fields@);
    let mut headers: Vec<String> = Vec::new();
    let mut left: Vec<bool> = Vec::new();
    let mut i: usize = 0;
    while i < fields.len()
        invariant
            i <= fields@.len(),
            headers@.len() == i,
            left@.len() == i,
            fs == text::views(fields@),
            forall|j: int| 0 <= j < i ==> (#[trigger] headers@[j])@ == header_of(fs[j]),
            forall|j: int| 0 <= j < i ==> #[trigger] left@[j] == (fs[j] == "path"@),
        decreases fields@.len() - i,
    {
        assert(fs[i as int] == fields@[i as int]@);
        headers.push(script_field_header(fields[i].as_str()).to_owned());
        left.push(same_text(fields[i].as_str(), "path"));
        i = i + 1;
    }
    let with_path: bool = contains_string(fields, "path");
    let mut rows: Vec<Vec<String>> = Vec::new();
    let mut k: usize = 0;
    assert(cells_view(rows@) =~= table_cells_of(scripts@, fs, 0));
    while k < scripts.len()
        invariant
            k <= scripts@.len(),
            json::rows_wf(scripts@),
            fs == text::views(fields@),
            with_path == fs.contains("path"@),
            cells_view(rows@) == table_cells_of(scripts@, fs, k as int),
        decreases scripts@.len() - k,
    {
        let ghost before = cells_view(rows@);
        let cells: Vec<String> = display_fields(&scripts[k], fields);
        let ghost value = text::views(cells@);
        rows.push(cells);
        assert(cells_view(rows@) =~= before.push(value));
        let target: String = row_string(&scripts[k], "symlink_target");
        if with_path && !target.as_str().is_empty() {
            let ghost first = cells_view(rows@);
            let link: Vec<String> = link_cells(target.as_str(), fields);
            let ghost below = text::views(link@);
            rows.push(link);
            assert(cells_view(rows@) =~= first.push(below));
        }
        k = k + 1;
    }
    proof {
        assert(text::views(headers@) =~= fs.map_values(|f: Seq<char>| header_of(f)));
        assert(left@ =~= fs.map_values(|f: Seq<char>| f == "path"@));
    }
    (headers, rows, left)
}

/// `s` with every quote doubled.
pub open spec fn double_quotes(s: Seq<char>) -> Seq<char>
    decreases s.len(),
{
    if s.len() == 0 {
        seq![]
    } else if s.last() == '"' {
        double_quotes(s.drop_last()).push('"').push('"')
    } else {
        double_quotes(s.drop_last()).push(s.last())
    }
}

/// Whether a CSV value must stand in quotes.
pub open spec fn needs_quotes(s: Seq<char>) -> bool {
    s.contains(',') || s.contains('"') || s.contains('\n') || s.contains('\r')
}

/// A value as it stands in a line of CSV.
pub open spec fn csv_value(s: Seq<char>) -> Seq<char> {
    if needs_quotes(s) {
        seq!['"'] + double_quotes(s) + seq!['"']
    } else {
        s
    }
}

/// A line of CSV without its end.
pub open spec fn csv_line(values: Seq<Seq<char>>) -> Seq<char> {
    text::join(values.map_values(|v: Seq<char>| csv_value(v)), ","@)
}

/// `s` with every two quotes in a row turned into one.
pub open spec fn single_quotes(s: Seq<char>) -> Seq<char>
    decreases s.len(),
{
    if s.len() == 0 {
        seq![]
    } else if s.len() >= 2 && s.last() == '"' && s[s.len() - 2] == '"' {
        single_quotes(s.drop_last().drop_last()).push('"')
    } else {
        single_quotes(s.drop_last()).push(s.last())
    }
}

/// What a value in a line of CSV stands for.
pub open spec fn read_csv_value(s: Seq<char>) -> Seq<char> {
    if s.len() >= 2 && s[0] == '"' && s.last() == '"' {
        single_quotes(s.subrange(1, s.len() - 1))
    } else {
        s
    }
}

/// Halving doubled quotes gives back what they were made of.
proof fn lemma_single_double(s: Seq<char>)
    ensures
        single_quotes(double_quotes(s)) == s,
    decreases s.len(),
{
    if s.len() > 0 {
        let rest = s.drop_last();
        lemma_single_double(rest);
        let d = double_quotes(rest);
        if s.last() == '"' {
            assert(d.push('"').push('"').drop_last().drop_last() =~= d);
        } else {
            assert(d.push(s.last()).drop_last() =~= d);
        }
        assert(s =~= rest.push(s.last()));
    }
}

/// What is read of a CSV value is what was written.
pub proof fn law_csv_gives_back_what_was_written(s: Seq<char>)
    ensures
        read_csv_value(csv_value(s)) == s,
{
    if needs_quotes(s) {
        let v = csv_value(s);
        assert(v.subrange(1, v.len() - 1) =~= double_quotes(s));
        lemma_single_double(s);
    } else if s.len() > 0 {
        assert(s.contains(s[0]));
    }
}

/// `value` as it stands in a line of CSV.
pub fn csv_escape(value: &str) -> (r: String)
    ensures
        r@ == csv_value(value@),
{
    if !(has_char(value, ',') || has_char(value, '"') || has_char(value, '\n') || has_char(
        value,
        '\r',
    )) {
        return value.to_owned();
    }
    let v: Vec<char> = chars_of(value);
    let mut r: String = String::new();
    r.push('"');
    let mut i: usize = 0;
    assert(v@.take(0) =~= seq![]);
    assert(r@ =~= seq!['"'] + double_quotes(v@.take(0)));
    while i < v.len()
        invariant
            i <= v@.len(),
            r@ == seq!['"'] + double_quotes(v@.take(i as int)),
        decreases v@.len() - i,
    {
        let c: char = v[i];
        let ghost before = double_quotes(v@.take(i as int));
        proof {
            assert(v@.take(i + 1).drop_last() =~= v@.take(i as int));
            assert(v@.take(i + 1).last() == c);
        }
        if c == '"' {
            r.push('"');
        }
        r.push(c);
        assert(r@ =~= seq!['"'] + double_quotes(v@.take(i + 1)));
        i = i + 1;
    }
    assert(v@.take(v@.len() as int) =~= v@);
    r.push('"');
    assert(r@ =~= seq!['"'] + double_quotes(v@) + seq!['"']);
    r
}

/// A line of CSV without its end.
pub fn render_csv_row(values: &Vec<String>) -> (line: String)
    ensures
        line@ == csv_line(text::views(values@)),
{
    let ghost all = text::views(values@);
    let mut escaped: Vec<String> = Vec::new();
    let mut i: usize = 0;
    while i < values.len()
        invariant
            i <= values@.len(),
            escaped@.len() == i,
            all == text::views(values@),
            forall|j: int| 0 <= j < i ==> (#[trigger] escaped@[j])@ == csv_value(all[j]),
        decreases values@.len() - i,
    {
        assert(all[i as int] == values@[i as int]@);
        escaped.push(csv_escape(values[i].as_str()));
        i = i + 1;
    }
    assert(text::views(escaped@) =~= all.map_values(|v: Seq<char>| csv_value(v)));
    join_texts(&escaped, ",")
}

/// The first `n` lines of the CSV of `scripts`, its header aside.
pub open spec fn csv_lines(scripts: Seq<Row>, fields: Seq<Seq<char>>, n: int) -> Seq<char>
    decreases n,
{
    if n <= 0 {
        seq![]
    } else {
        csv_lines(scripts, fields, n - 1) + csv_line(field_texts(scripts[n - 1]@, fields)) + seq![
            '\n',
        ]
    }
}

/// The CSV of `scripts`: a line with the names of the fields, then a line for
/// each script.
pub fn render_script_csv(scripts: &Vec<Row>, fields: &Vec<String>) -> (csv: String)
    requires
        json::rows_wf(scripts@),
    ensures
        ({
            let fs = fields_shown(text::views(fields@));
            csv@ == csv_line(fs) + seq!['\n'] + csv_lines(scripts@, fs, scripts@.len() as int)
        }),
{
    let ghost fs = fields_shown(text::views(fields@));
    let selected: Vec<String> = selected_script_fields(fields);
    let mut csv: String = render_csv_row(&selected);
    csv.push('\n');
    let ghost head = csv_line(fs) + seq!['\n'];
    assert(csv@ =~= head + csv_lines(scripts@, fs, 0));
    let mut i: usize = 0;
    while i < scripts.len()
        invariant
            i <= scripts@.len(),
            json::rows_wf(scripts@),
            fs == text::views(selected@),
            csv@ == head + csv_lines(scripts@, fs, i as int),
        decreases scripts@.len() - i,
    {
        let cells: Vec<String> = display_fields(&scripts[i], &selected);
        let line: String = render_csv_row(&cells);
        csv.append(line.as_str());
        csv.push('\n');
        assert(csv@ =~= head + csv_lines(scripts@, fs, i + 1));
        i = i + 1;
    }
    csv
}

/// Whether `out` holds the fields of a row as JSON values and nothing else.
pub open spec fn is_json_of(
    row: json::Columns,
    fields: Seq<Seq<char>>,
    out: json::Columns,
) -> bool {
    &&& forall|k: Seq<char>| #[trigger] out.contains_key(k) <==> fields.contains(k)
    &&& forall|k: Seq<char>| #[trigger] out.contains_key(k) ==> is_field_value(row, k, out[k])
}

/// The fields of a row as JSON values.
fn json_fields(row: &Row, fields: &Vec<String>) -> (out: Row)
    requires
        row.wf(),
    ensures
        out.wf(),
        is_json_of(row@, text::views(fields@), out@),
{
    let ghost all = text::views(fields@);
    let mut out: Row = Row::new();
    let mut i: usize = 0;
    while i < fields.len()
        invariant
            row.wf(),
            out.wf(),
            i <= fields@.len(),
            all == text::views(fields@),
            forall|k: Seq<char>| #[trigger] out@.contains_key(k) ==> is_field_value(
                row@,
                k,
                out@[k],
            ),
            forall|k: Seq<char>| #[trigger] out@.contains_key(k) ==> all.contains(k),
            forall|j: int| 0 <= j < i ==> out@.contains_key(#[trigger] all[j]),
        decreases fields@.len() - i,
    {
        assert(all[i as int] == fields@[i as int]@);
        let v: Value = json_script_field(row, fields[i].as_str());
        out.insert(fields[i].as_str(), v);
        i = i + 1;
    }
    assert forall|k: Seq<char>| #[trigger] out@.contains_key(k) <==> all.contains(k) by {
        if all.contains(k) {
            let j = choose|j: int| 0 <= j < all.len() && all[j] == k;
            assert(out@.contains_key(all[j]));
        }
    }
    out
}

/// The scripts as JSON objects with the fields that were asked for.
pub fn script_rows_to_json(scripts: &Vec<Row>, fields: &Vec<String>) -> (out: Vec<Row>)
    requires
        json::rows_wf(scripts@),
    ensures
        json::rows_wf(out@),
        out@.len() == scripts@.len(),
        forall|i: int|
            0 <= i < out@.len() ==> is_json_of(
                scripts@[i]@,
                fields_shown(text::views(fields@)),
                (#[trigger] out@[i])@,
            ),
{
    let selected: Vec<String> = selected_script_fields(fields);
    let mut out: Vec<Row> = Vec::new();
    let mut i: usize = 0;
    while i < scripts.len()
        invariant
            i <= scripts@.len(),
            out@.len() == i,
            json::rows_wf(scripts@),
            json::rows_wf(out@),
            text::views(selected@) == fields_shown(text::views(fields@)),
            forall|j: int|
                0 <= j < i ==> is_json_of(
                    scripts@[j]@,
                    fields_shown(text::views(fields@)),
                    (#[trigger] out@[j])@,
                ),
        decreases scripts@.len() - i,
    {
        out.push(json_fields(&scripts[i], &selected));
        i = i + 1;
    }
    out
}

/// The key of a column in JSON.
pub open spec fn canonical_key(key: Seq<char>) -> Seq<char> {
    if key == "logical_path"@ {
        "path"@
    } else if key == "indexed_at"@ {
        "indexed"@
    } else if key == "symlink_target"@ {
        "symlink"@
    } else {
        key
    }
}

/// The columns of a row named by the first `n` of `keys`, under the keys that
/// they have in JSON; of two columns with one key the later one counts.
pub open spec fn renamed(row: json::Columns, keys: Seq<Seq<char>>, n: int) -> json::Columns
    decreases n,
{
    if n <= 0 {
        Map::empty()
    } else {
        renamed(row, keys, n - 1).insert(canonical_key(keys[n - 1]), row[keys[n - 1]])
    }
}

/// The columns of a row under the keys that they have in JSON.
pub fn canonicalize_row_keys(row: &Row) -> (out: Row)
    requires
        row.wf(),
    ensures
        out.wf(),
        out@ == renamed(row@, row.keys(), row.keys().len() as int),
{
    let mut out: Row = Row::new();
    let mut i: usize = 0;
    assert(out@ =~= renamed(row@, row.keys(), 0));
    proof {
        row.lemma_keys();
    }
    while i < row.len()
        invariant
            row.wf(),
            out.wf(),
            i <= row.keys().len(),
            forall|k: Seq<char>| #[trigger] row@.contains_key(k) <==> row.keys().contains(k),
            out@ == renamed(row@, row.keys(), i as int),
        decreases row.keys().len() - i,
    {
        let key: &String = row.key_at(i);
        assert(row.keys()[i as int] == key@);
        assert(row@.contains_key(key@));
        let name: &str = if same_text(key.as_str(), "logical_path") {
            "path"
        } else if same_text(key.as_str(), "indexed_at") {
            "indexed"
        } else if same_text(key.as_str(), "symlink_target") {
            "symlink"
        } else {
            key.as_str()
        };
        match row.get(key.as_str()) {
            Some(v) => out.insert(name, v.copy()),
            None => {},
        }
        i = i + 1;
    }
    out
}

/// A dependency of a script.
#[derive(Debug)]
pub struct DependencyEntry {
    pub logical_path: String,
    pub depends_on_path: Option<String>,
    pub language: Option<String>,
    pub owner: Option<String>,
    pub purpose: Option<String>,
    pub indexed: bool,
}

/// Whether `v` is an optional text as a JSON value.
pub open spec fn is_optional_text(v: json::ValueView, s: Option<String>) -> bool {
    match s {
        Some(s) => v.text() == Some(s@),
        None => v is Null,
    }
}

/// An optional text as a JSON value.
fn optional_text(s: &Option<String>) -> (v: Value)
    ensures
        is_optional_text(v@, *s),
{
    match s {
        Some(s) => Value::Text(s.clone()),
        None => Value::Null,
    }
}

/// A dependency as a JSON object.
pub fn dep_entry_to_json(e: &DependencyEntry) -> (out: Row)
    ensures
        out.wf(),
        out@.dom() == set![
            "path"@,
            "depends_on_path"@,
            "language"@,
            "owner"@,
            "purpose"@,
            "indexed"@,
        ],
        out@["path"@].text() == Some(e.logical_path@),
        is_optional_text(out@["depends_on_path"@], e.depends_on_path),
        is_optional_text(out@["language"@], e.language),
        is_optional_text(out@["owner"@], e.owner),
        is_optional_text(out@["purpose"@], e.purpose),
        out@["indexed"@] == json::ValueView::Bool(e.indexed),
{
    proof {
        reveal_strlit("path");
        reveal_strlit("depends_on_path");
        reveal_strlit("language");
        reveal_strlit("owner");
        reveal_strlit("purpose");
        reveal_strlit("indexed");
        assert("path"@.len() == 4 && "owner"@.len() == 5 && "purpose"@.len() == 7);
        assert("language"@.len() == 8 && "depends_on_path"@.len() == 15);
        assert("indexed"@.len() == 7 && "indexed"@[0] != "purpose"@[0]);
    }
    let mut out: Row = Row::new();
    out.insert("path", Value::Text(e.logical_path.clone()));
    out.insert("depends_on_path", optional_text(&e.depends_on_path));
    out.insert("language", optional_text(&e.language));
    out.insert("owner", optional_text(&e.owner));
    out.insert("purpose", optional_text(&e.purpose));
    out.insert("indexed", Value::Bool(e.indexed));
    assert(out@.dom() =~= set![
        "path"@,
        "depends_on_path"@,
        "language"@,
        "owner"@,
        "purpose"@,
        "indexed"@,
    ]);
    out
}

/// A script that uses another one, as a JSON object.
pub fn used_by_row_to_json(row: &Row) -> (out: Row)
    requires
        row.wf(),
    ensures
        out.wf(),
        out@.dom() == set!["path"@, "language"@, "owner"@, "purpose"@],
        out@["path"@] == column_or_null(row@, "logical_path"@),
        out@["language"@] == column_or_null(row@, "language"@),
        out@["owner"@] == column_or_null(row@, "owner"@),
        out@["purpose"@] == column_or_null(row@, "purpose"@),
{
    proof {
        reveal_strlit("path");
        reveal_strlit("language");
        reveal_strlit("owner");
        reveal_strlit("purpose");
        assert("path"@.len() == 4 && "owner"@.len() == 5);
        assert("purpose"@.len() == 7 && "language"@.len() == 8);
    }
    let mut out: Row = Row::new();
    out.insert("path", copy_or_null(row, "logical_path"));
    out.insert("language", copy_or_null(row, "language"));
    out.insert("owner", copy_or_null(row, "owner"));
    out.insert("purpose", copy_or_null(row, "purpose"));
    assert(out@.dom() =~= set!["path"@, "language"@, "owner"@, "purpose"@]);
    out
}

// ---------------------------------------------------------------------------
// Contributors
// ---------------------------------------------------------------------------

/// The authors of the history entries of a script.
pub open spec fn history_authors(row: json::Columns) -> Seq<Seq<char>> {
    match json::column_text(row, "metadata_json"@) {
        Some(s) => match json::json_listed_texts(s, "/history_entries"@, "author"@) {
            Some(authors) => json::present(authors),
            None => seq![],
        },
        None => seq![],
    }
}

/// Whether `name` is a name that the row gives for its owner or for an author
/// in its history, without the white space around it.
pub open spec fn contributes(row: json::Columns, name: Seq<char>) -> bool {
    &&& name.len() > 0
    &&& ({
        ||| (json::column_text(row, "owner"@) matches Some(o) && name == text::trim(o))
        ||| exists|i: int|
            0 <= i < history_authors(row).len() && name == text::trim(
                #[trigger] history_authors(row)[i],
            )
    })
}

/// The contributors of a script: each once, in order.
pub fn contributors_from_script(row: &Row) -> (names: Vec<String>)
    requires
        row.wf(),
    ensures
        forall|i: int, j: int|
            0 <= i < j < names@.len() ==> text::text_lt(
                #[trigger] text::views(names@)[i],
                #[trigger] text::views(names@)[j],
            ),
        forall|name: Seq<char>| #[trigger]
            text::views(names@).contains(name) <==> contributes(row@, name),
{
    let mut set: SortedMap<()> = SortedMap::new();
    let ghost owner = json::column_text(row@, "owner"@);
    match text_in(row, "owner") {
        Some(o) => {
            let name: String = trimmed(o.as_str());
            if !name.as_str().is_empty() {
                set.insert(name.as_str(), ());
            }
        },
        None => {},
    }
    let ghost owners = set@;
    let mut authors: Vec<String> = Vec::new();
    assert(text::views(authors@) =~= seq![]);
    match text_in(row, "metadata_json") {
        Some(s) => match read_listed_texts(s.as_str(), "/history_entries", "author") {
            Some(found) => {
                authors = present_texts(&found);
            },
            None => {},
        },
        None => {},
    }
    let ghost all = history_authors(row@);
    assert(text::views(authors@) == all);
    let mut i: usize = 0;
    while i < authors.len()
        invariant
            set.wf(),
            i <= authors@.len(),
            all == history_authors(row@),
            text::views(authors@) == all,
            forall|name: Seq<char>| #[trigger]
                owners.contains_key(name) <==> (name.len() > 0 && (json::column_text(
                    row@,
                    "owner"@,
                ) matches Some(o) && name == text::trim(o))),
            forall|name: Seq<char>| #[trigger]
                set@.contains_key(name) ==> contributes(row@, name),
            forall|name: Seq<char>| #[trigger]
                owners.contains_key(name) ==> set@.contains_key(name),
            forall|j: int|
                0 <= j < i && text::trim(#[trigger] all[j]).len() > 0 ==> set@.contains_key(
                    text::trim(all[j]),
                ),
        decreases authors@.len() - i,
    {
        assert(all[i as int] == authors@[i as int]@);
        let name: String = trimmed(authors[i].as_str());
        if !name.as_str().is_empty() {
            set.insert(name.as_str(), ());
        }
        i = i + 1;
    }
    proof {
        set.lemma_keys();
    }
    let mut names: Vec<String> = Vec::new();
    let mut k: usize = 0;
    while k < set.len()
        invariant
            set.wf(),
            k <= set.keys().len(),
            names@.len() == k,
            forall|j: int| 0 <= j < k ==> (#[trigger] names@[j])@ == set.keys()[j],
        decreases set.keys().len() - k,
    {
        names.push(set.key_at(k).clone());
        k = k + 1;
    }
    assert(text::views(names@) =~= set.keys());
    assert forall|name: Seq<char>| #[trigger]
        text::views(names@).contains(name) <==> contributes(row@, name) by {
        assert(set.keys().contains(name) <==> set@.contains_key(name));
        if contributes(row@, name) {
            if exists|j: int| 0 <= j < all.len() && name == text::trim(#[trigger] all[j]) {
                let j = choose|j: int| 0 <= j < all.len() && name == text::trim(#[trigger] all[j]);
                assert(set@.contains_key(text::trim(all[j])));
            } else {
                assert(owners.contains_key(name));
            }
        }
    }
    names
}

// ---------------------------------------------------------------------------
// What is printed
// ---------------------------------------------------------------------------

/// Fewer than 1024 bytes are given in bytes. From there on a size is given in
/// the largest unit that it reaches, to the nearest tenth: exactly so up to
/// 2^53 bytes.
pub proof fn law_sizes_are_given_in_the_largest_unit(n: int)
    requires
        0 <= n < 0x20_0000_0000_0000,
    ensures
        n < 1024 ==> size_text(n) == text::decimal(n as nat) + " B"@,
        1024 <= n < 1024 * 1024 ==> exists|tenths: int| #[trigger]
            is_nearest_tenths(n, 1024, tenths) && size_text(n) == tenths_text(tenths) + " KB"@,
        1024 * 1024 <= n < 1024 * 1024 * 1024 ==> exists|tenths: int| #[trigger]
            is_nearest_tenths(n, 1024int * 1024, tenths) && size_text(n) == tenths_text(tenths)
                + " MB"@,
        1024 * 1024 * 1024 <= n ==> exists|tenths: int| #[trigger]
            is_nearest_tenths(n, 1024int * 1024 * 1024, tenths) && size_text(n) == tenths_text(
                tenths,
            ) + " GB"@,
{
    if n >= 1024 {
        let unit = if n < 0x10_0000 {
            0x400int
        } else if n < 0x4000_0000 {
            0x10_0000int
        } else {
            0x4000_0000int
        };
        assert(double_step(n) == 1);
        assert(n / 1 == n && n % 1 == 0);
        assert(nearest_double(n) == n);
        let tenths = round_even(10 * n, unit);
        lemma_nearest(10 * n, unit);
        assert(is_nearest_tenths(n, unit, tenths));
    }
}

/// Whether `tenths` tenths of a unit are as near to `n` as whole tenths can be,
/// and the even ones of two that are equally near.
pub open spec fn is_nearest_tenths(n: int, unit: int, tenths: int) -> bool {
    let off = 2 * (10 * n - tenths * unit);
    0 <= tenths && -unit <= off <= unit && (off == unit || off == -unit ==> tenths % 2 == 0)
}

/// A number of tenths with its decimal point.
pub open spec fn tenths_text(tenths: int) -> Seq<char> {
    text::decimal((tenths / 10) as nat) + "."@ + text::decimal((tenths % 10) as nat)
}

/// Rounding leads to a nearest whole number.
proof fn lemma_nearest(a: int, b: int)
    requires
        a >= 0,
        b > 0,
    ensures
        round_even(a, b) >= 0,
        -b <= 2 * (a - round_even(a, b) * b) <= b,
        2 * (a - round_even(a, b) * b) == b || 2 * (a - round_even(a, b) * b) == -b ==> round_even(
            a,
            b,
        ) % 2 == 0,
{
    let q = a / b;
    let r = a % b;
    assert(a == q * b + r && 0 <= r < b) by (nonlinear_arith)
        requires
            q == a / b,
            r == a % b,
            b > 0,
    ;
    assert(q >= 0) by (nonlinear_arith)
        requires
            q == a / b,
            a >= 0,
            b > 0,
    ;
    assert((q + 1) * b == q * b + b) by (nonlinear_arith);
}

/// The names of fields are different ones.
proof fn lemma_field_names()
    ensures
        ({
            let names = seq![
                "path"@,
                "language"@,
                "owner"@,
                "purpose"@,
                "checkout"@,
                "size"@,
                "indexed"@,
                "symlink"@,
                "mtime"@,
                "tags"@,
                "entry_points"@,
                "related"@,
            ];
            &&& names.no_duplicates()
            &&& !names.contains("logical_path"@)
            &&& !names.contains("indexed_at"@)
            &&& !names.contains("symlink_target"@)
        }),
{
    reveal_strlit("path");
    reveal_strlit("language");
    reveal_strlit("owner");
    reveal_strlit("purpose");
    reveal_strlit("checkout");
    reveal_strlit("size");
    reveal_strlit("indexed");
    reveal_strlit("symlink");
    reveal_strlit("mtime");
    reveal_strlit("tags");
    reveal_strlit("entry_points");
    reveal_strlit("related");
    reveal_strlit("logical_path");
    reveal_strlit("indexed_at");
    reveal_strlit("symlink_target");
    assert("path"@.len() == 4 && "path"@[0] == 'p');
    assert("size"@.len() == 4 && "size"@[0] == 's');
    assert("tags"@.len() == 4 && "tags"@[0] == 't');
    assert("owner"@.len() == 5 && "owner"@[0] == 'o');
    assert("mtime"@.len() == 5 && "mtime"@[0] == 'm');
    assert("purpose"@.len() == 7 && "purpose"@[0] == 'p');
    assert("indexed"@.len() == 7 && "indexed"@[0] == 'i');
    assert("symlink"@.len() == 7 && "symlink"@[0] == 's');
    assert("related"@.len() == 7 && "related"@[0] == 'r');
    assert("language"@.len() == 8 && "language"@[0] == 'l');
    assert("checkout"@.len() == 8 && "checkout"@[0] == 'c');
    assert("entry_points"@.len() == 12 && "entry_points"@[0] == 'e');
    assert("logical_path"@.len() == 12 && "logical_path"@[0] == 'l');
    assert("indexed_at"@.len() == 10);
    assert("symlink_target"@.len() == 14);
}

/// The column of the catalog that a field shows as it is.
pub open spec fn column_of(field: Seq<char>) -> Option<Seq<char>> {
    if field == "path"@ {
        Some("logical_path"@)
    } else if field == "indexed"@ {
        Some("indexed_at"@)
    } else if field == "symlink"@ {
        Some("symlink_target"@)
    } else if field == "language"@ || field == "owner"@ || field == "purpose"@ {
        Some(field)
    } else {
        None
    }
}

/// A field that shows a column shows its text, and a dash where that is missing
/// or empty; as JSON it is the column itself, or null.
pub proof fn law_fields_show_their_column(
    row: json::Columns,
    field: Seq<char>,
    column: Seq<char>,
    shown: Seq<char>,
    v: json::ValueView,
)
    requires
        column_of(field) == Some(column),
    ensures
        shown.len() > 0 && row.contains_key(column) && row[column] == json::ValueView::Text(shown)
            ==> field_text(row, field) == shown,
        !row.contains_key(column) || row[column] == json::ValueView::Text(seq![]) ==> field_text(
            row,
            field,
        ) == "—"@,
        is_field_value(row, field, v) <==> if row.contains_key(column) {
            v == row[column]
        } else {
            v == json::ValueView::Null
        },
{
    lemma_distinct_fields();
}

/// The names of fields, pair by pair.
proof fn lemma_distinct_fields()
    ensures
        "path"@ != "language"@ && "path"@ != "owner"@ && "path"@ != "purpose"@,
        "language"@ != "owner"@ && "language"@ != "purpose"@ && "owner"@ != "purpose"@,
        "checkout"@ != "path"@ && "checkout"@ != "language"@ && "checkout"@ != "owner"@
            && "checkout"@ != "purpose"@,
        "size"@ != "path"@ && "size"@ != "language"@ && "size"@ != "owner"@ && "size"@
            != "purpose"@ && "size"@ != "checkout"@,
        "indexed"@ != "path"@ && "indexed"@ != "language"@ && "indexed"@ != "owner"@ && "indexed"@
            != "purpose"@ && "indexed"@ != "checkout"@ && "indexed"@ != "size"@,
        "symlink"@ != "path"@ && "symlink"@ != "language"@ && "symlink"@ != "owner"@ && "symlink"@
            != "purpose"@ && "symlink"@ != "checkout"@ && "symlink"@ != "size"@ && "symlink"@
            != "indexed"@,
        "tags"@ != "path"@ && "tags"@ != "language"@ && "tags"@ != "owner"@ && "tags"@
            != "purpose"@ && "tags"@ != "checkout"@ && "tags"@ != "size"@ && "tags"@ != "indexed"@
            && "tags"@ != "symlink"@ && "tags"@ != "mtime"@,
        "entry_points"@ != "path"@ && "entry_points"@ != "language"@ && "entry_points"@ != "owner"@
            && "entry_points"@ != "purpose"@ && "entry_points"@ != "checkout"@ && "entry_points"@
            != "size"@ && "entry_points"@ != "indexed"@ && "entry_points"@ != "symlink"@
            && "entry_points"@ != "mtime"@ && "entry_points"@ != "tags"@,
        "related"@ != "path"@ && "related"@ != "language"@ && "related"@ != "owner"@ && "related"@
            != "purpose"@ && "related"@ != "checkout"@ && "related"@ != "size"@ && "related"@
            != "indexed"@ && "related"@ != "symlink"@ && "related"@ != "mtime"@ && "related"@
            != "tags"@ && "related"@ != "entry_points"@,
        "mtime"@ != "path"@ && "mtime"@ != "language"@ && "mtime"@ != "owner"@ && "mtime"@
            != "purpose"@ && "mtime"@ != "checkout"@ && "mtime"@ != "size"@ && "mtime"@
            != "indexed"@ && "mtime"@ != "symlink"@,
{
    lemma_field_names();
    let names = seq![
        "path"@,
        "language"@,
        "owner"@,
        "purpose"@,
        "checkout"@,
        "size"@,
        "indexed"@,
        "symlink"@,
        "mtime"@,
        "tags"@,
        "entry_points"@,
        "related"@,
    ];
    assert(names[0] == "path"@ && names[1] == "language"@ && names[2] == "owner"@);
    assert(names[3] == "purpose"@ && names[4] == "checkout"@ && names[5] == "size"@);
    assert(names[6] == "indexed"@ && names[7] == "symlink"@ && names[8] == "mtime"@);
    assert(names[9] == "tags"@ && names[10] == "entry_points"@ && names[11] == "related"@);
}

/// A field that holds a list shows its texts with commas between them.
pub proof fn law_lists_are_shown_with_commas(
    row: json::Columns,
    field: Seq<char>,
    stored: Seq<char>,
    texts: Seq<Seq<char>>,
)
    requires
        field == "tags"@ || field == "entry_points"@ || field == "related"@,
        row.contains_key(field),
        row[field] == json::ValueView::Text(stored),
        json::json_texts(stored) == Some(texts),
    ensures
        texts.len() == 0 ==> field_text(row, field) == "—"@,
        texts.len() > 0 ==> field_text(row, field) == text::join(texts, ", "@),
{
    lemma_distinct_fields();
}

/// A script is checked out where the catalog has a user for it, by that user
/// and since the time that it has; else it is clean.
pub proof fn law_checkouts_name_their_user(row: json::Columns, user: Seq<char>, since: Seq<char>)
    requires
        json::text_or_empty(row, "checkout_user"@) == user,
        json::text_or_empty(row, "checkout_timestamp"@) == since,
    ensures
        user.len() == 0 ==> checkout_text(row) == "clean"@,
        user.len() > 0 && since.len() == 0 ==> checkout_text(row) == "checked out by "@ + user,
        user.len() > 0 && since.len() > 0 ==> checkout_text(row) == "checked out by "@ + user
            + " since "@ + since,
        field_text(row, "checkout"@) == checkout_text(row),
{
    lemma_distinct_fields();
}

/// A known field is shown once under its own name, however it is asked for; the
/// order is that in which the fields are asked for first, and what is not known
/// is left out.
pub proof fn law_known_fields_are_shown_once(asked: Seq<Seq<char>>, name: Seq<char>)
    ensures
        known_fields(asked).no_duplicates(),
        known_fields(asked).contains(name) <==> exists|i: int|
            0 <= i < asked.len() && canonical_field(#[trigger] asked[i]) == Some(name),
        asked.len() > 0 ==> fields_shown(asked) == known_fields(asked),
    decreases asked.len(),
{
    if asked.len() > 0 {
        let rest = asked.drop_last();
        law_known_fields_are_shown_once(rest, name);
        let before = known_fields(rest);
        match canonical_field(asked.last()) {
            Some(x) => {
                text::lemma_push_contains(before, x, name);
            },
            None => {},
        }
        if before.contains(name) {
            let i = choose|i: int|
                0 <= i < rest.len() && canonical_field(#[trigger] rest[i]) == Some(name);
            assert(asked[i] == rest[i]);
        }
        if canonical_field(asked.last()) == Some(name) {
            assert(asked[asked.len() - 1] == asked.last());
        }
        if exists|i: int| 0 <= i < asked.len() && canonical_field(#[trigger] asked[i]) == Some(name) {
            let i = choose|i: int|
                0 <= i < asked.len() && canonical_field(#[trigger] asked[i]) == Some(name);
            if i < rest.len() {
                assert(rest[i] == asked[i]);
            }
        }
    }
}

/// The column `logical_path` can be asked for as `path`, `indexed_at` as
/// `indexed` and `symlink_target` as `symlink`; every other field is asked for
/// by its own name.
pub proof fn law_fields_have_one_name(field: Seq<char>, name: Seq<char>)
    requires
        canonical_field(field) == Some(name),
    ensures
        canonical_field(name) == Some(name),
        field == name || field == "logical_path"@ && name == "path"@ || field == "indexed_at"@
            && name == "indexed"@ || field == "symlink_target"@ && name == "symlink"@,
        column_of(name) is Some || name == "checkout"@ || name == "size"@ || name == "mtime"@
            || name == "tags"@ || name == "entry_points"@ || name == "related"@,
{
    lemma_distinct_fields();
    lemma_field_names();
    let names = seq![
        "path"@,
        "language"@,
        "owner"@,
        "purpose"@,
        "checkout"@,
        "size"@,
        "indexed"@,
        "symlink"@,
        "mtime"@,
        "tags"@,
        "entry_points"@,
        "related"@,
    ];
    assert(names[4] == "checkout"@ && names[5] == "size"@ && names[6] == "indexed"@);
    assert(names[7] == "symlink"@ && names[8] == "mtime"@ && names[9] == "tags"@);
    assert(names[10] == "entry_points"@ && names[11] == "related"@);
    assert(names[0] == "path"@ && names[1] == "language"@ && names[2] == "owner"@);
    assert(names[3] == "purpose"@);
}

/// The values of a line of CSV follow each other with commas between them.
pub proof fn law_csv_values_are_parted_by_commas(value: Seq<char>, rest: Seq<Seq<char>>)
    ensures
        csv_line(seq![value]) == csv_value(value),
        rest.len() > 0 ==> csv_line(seq![value] + rest) == csv_value(value) + ","@ + csv_line(rest),
        csv_line(seq![]) == Seq::<char>::empty(),
{
    let quote = |v: Seq<char>| csv_value(v);
    assert(seq![value].map_values(quote) =~= seq![csv_value(value)]);
    assert((seq![value] + rest).map_values(quote) =~= seq![csv_value(value)] + rest.map_values(
        quote,
    ));
    if rest.len() > 0 {
        text::lemma_join_first(csv_value(value), rest.map_values(quote), ","@);
    }
    assert(Seq::<Seq<char>>::empty().map_values(quote) =~= seq![]);
}

/// A CSV value stands in quotes exactly where it holds a comma, a quote or a
/// line end, so that outside quotes a line holds no other commas than those
/// between its values.
pub proof fn law_csv_values_are_quoted_where_needed(s: Seq<char>)
    ensures
        !s.contains(',') && !s.contains('"') && !s.contains('\n') && !s.contains('\r')
            ==> csv_value(s) == s,
        s.contains(',') || s.contains('"') || s.contains('\n') || s.contains('\r') ==> csv_value(
            s,
        ).len() >= 2 && csv_value(s)[0] == '"' && csv_value(s).last() == '"',
{
}

/// Every script has a line of its own in a CSV, in order.
pub proof fn law_every_script_has_a_line(scripts: Seq<Row>, fields: Seq<Seq<char>>, n: int)
    requires
        0 < n <= scripts.len(),
    ensures
        csv_lines(scripts, fields, n) == csv_lines(scripts, fields, n - 1) + csv_line(
            fields.map_values(|f: Seq<char>| field_text(scripts[n - 1]@, f)),
        ) + seq!['\n'],
        csv_lines(scripts, fields, 0) == Seq::<char>::empty(),
{
}

/// A table has a row for each script, in order, with what its fields show; a
/// link has a row below with its target, where the path is shown.
pub proof fn law_every_script_has_a_row(scripts: Seq<Row>, fields: Seq<Seq<char>>, n: int)
    requires
        0 < n <= scripts.len(),
    ensures
        ({
            let target = json::text_or_empty(scripts[n - 1]@, "symlink_target"@);
            let before = table_cells_of(scripts, fields, n - 1);
            let all = table_cells_of(scripts, fields, n);
            let link = target.len() > 0 && fields.contains("path"@);
            &&& all.len() == before.len() + if link {
                2int
            } else {
                1
            }
            &&& forall|i: int| 0 <= i < before.len() ==> all[i] == before[i]
            &&& forall|k: int|
                0 <= k < fields.len() ==> #[trigger] all[before.len() as int][k] == field_text(
                    scripts[n - 1]@,
                    fields[k],
                )
            &&& link ==> forall|k: int|
                0 <= k < fields.len() ==> #[trigger] all.last()[k] == if fields[k] == "path"@ {
                    "↳ "@ + target
                } else {
                    seq![]
                }
        }),
{
}

/// The columns of a row have the same values in JSON, those of the path, the
/// time of indexing and the link under their own names, and all others under
/// the names that they have.
pub proof fn law_columns_keep_their_values(
    row: json::Columns,
    keys: Seq<Seq<char>>,
    n: int,
    k: int,
)
    requires
        0 <= k < n <= keys.len(),
        forall|i: int, j: int|
            0 <= i < j < keys.len() ==> canonical_key(#[trigger] keys[i]) != canonical_key(
                #[trigger] keys[j],
            ),
    ensures
        ({
            let name = if keys[k] == "logical_path"@ {
                "path"@
            } else if keys[k] == "indexed_at"@ {
                "indexed"@
            } else if keys[k] == "symlink_target"@ {
                "symlink"@
            } else {
                keys[k]
            };
            renamed(row, keys, n).contains_key(name) && renamed(row, keys, n)[name] == row[keys[k]]
        }),
    decreases n,
{
    if k < n - 1 {
        law_columns_keep_their_values(row, keys, n - 1, k);
        assert(canonical_key(keys[k]) != canonical_key(keys[n - 1]));
    }
}

/// The size and the time of change of a script are shown for people, and a dash
/// where they are not known.
pub proof fn law_sizes_and_times_are_shown(row: json::Columns, n: i64, time: Seq<char>)
    ensures
        row.contains_key("size"@) && row["size"@] == json::ValueView::Int(n) && n >= 0
            ==> field_text(row, "size"@) == size_text(n as int),
        row.contains_key("size"@) && row["size"@] == json::ValueView::Int(n) && n < 0
            ==> field_text(row, "size"@) == "—"@,
        !row.contains_key("size"@) ==> field_text(row, "size"@) == "—"@,
        whole_seconds(row, "mtime"@) == Some(n) && utc_time(n, "%Y-%m-%dT%H:%M:%SZ"@) == Some(time)
            ==> field_text(row, "mtime"@) == time,
        whole_seconds(row, "mtime"@) is None ==> field_text(row, "mtime"@) == "—"@,
{
    lemma_distinct_fields();
}

/// Where no fields are asked for, the path, the language, the owner and the
/// purpose are shown.
pub proof fn law_four_fields_are_shown_by_default(asked: Seq<Seq<char>>)
    requires
        asked.len() == 0,
    ensures
        fields_shown(asked) == seq!["path"@, "language"@, "owner"@, "purpose"@],
{
    lemma_distinct_fields();
    reveal_strlit("logical_path");
    reveal_strlit("language");
    reveal_strlit("owner");
    reveal_strlit("purpose");
    assert("logical_path"@.len() == 12 && "language"@.len() == 8);
    assert("owner"@.len() == 5 && "purpose"@.len() == 7);
    let one = seq!["path"@];
    let two = seq!["path"@, "language"@];
    let three = seq!["path"@, "language"@, "owner"@];
    let four = default_fields();
    assert(four.drop_last() =~= three);
    assert(three.drop_last() =~= two);
    assert(two.drop_last() =~= one);
    assert(one.drop_last() =~= seq![]);
    assert(known_fields(one.drop_last()) =~= seq![]);
    assert(known_fields(one) =~= one);
    assert(known_fields(two) =~= two);
    assert(known_fields(three) =~= three);
    assert(known_fields(four) =~= four);
}

/// The owner of a script contributes to it, and so does every author in its
/// history, white space around their names aside; nobody else does.
pub proof fn law_owners_and_authors_contribute(
    row: json::Columns,
    owner: Seq<char>,
    i: int,
    name: Seq<char>,
)
    ensures
        json::column_text(row, "owner"@) == Some(owner) && text::trim(owner).len() > 0
            ==> contributes(row, text::trim(owner)),
        0 <= i < history_authors(row).len() && text::trim(history_authors(row)[i]).len() > 0
            ==> contributes(row, text::trim(history_authors(row)[i])),
        contributes(row, name) ==> name.len() > 0 && text::trim(name) == name,
        contributes(row, name) && history_authors(row).len() == 0 ==> json::column_text(
            row,
            "owner"@,
        ) is Some && name == text::trim(json::column_text(row, "owner"@).unwrap()),
{
    if contributes(row, name) {
        if json::column_text(row, "owner"@) is Some {
            text::lemma_trim_twice(json::column_text(row, "owner"@).unwrap());
        }
        if exists|k: int|
            0 <= k < history_authors(row).len() && name == text::trim(
                #[trigger] history_authors(row)[k],
            ) {
            let k = choose|k: int|
                0 <= k < history_authors(row).len() && name == text::trim(
                    #[trigger] history_authors(row)[k],
                );
            text::lemma_trim_twice(history_authors(row)[k]);
        }
    }
}

/// The kinds of the warnings of a script are shown with semicolons between
/// them, and a dash where there are none.
pub proof fn law_kinds_of_warnings_are_shown(
    row: json::Columns,
    stored: Seq<char>,
    kinds: Seq<Option<Seq<char>>>,
)
    requires
        row.contains_key("vc_warnings"@),
        row["vc_warnings"@] == json::ValueView::Text(stored),
        stored.len() > 0,
    ensures
        json::json_listed_texts(stored, ""@, "kind"@) == Some(kinds) && json::present(kinds).len()
            > 0 ==> warnings_in(row) == text::join(json::present(kinds), "; "@),
        json::json_listed_texts(stored, ""@, "kind"@) is None ==> warnings_in(row) == "—"@,
        json::json_listed_texts(stored, ""@, "kind"@) == Some(kinds) && json::present(kinds).len()
            == 0 ==> warnings_in(row) == "—"@,
{
}

} // verus!
