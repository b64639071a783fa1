//! Columns of catalog rows, and texts that hold JSON.

use vstd::prelude::*;

use crate::sorted_map::SortedMap;
use crate::text;
use crate::text::{concat, decimal_text};

verus! {

/// What a column of a row holds.
#[derive(Debug)]
pub enum Value {
    Null,
    Bool(bool),
    Int(i64),
    /// A number with a fraction: its whole part, towards zero, and its notation.
    Real { whole: i64, notation: String },
    Text(String),
    /// A value that is written as JSON.
    Json(String),
}

/// The value in a column.
pub enum ValueView {
    Null,
    Bool(bool),
    Int(i64),
    Real { whole: i64, notation: Seq<char> },
    Text(Seq<char>),
    Json(Seq<char>),
}

impl View for Value {
    type V = ValueView;

    open spec fn view(&self) -> ValueView {
        match self {
            Value::Null => ValueView::Null,
            Value::Bool(b) => ValueView::Bool(*b),
            Value::Int(n) => ValueView::Int(*n),
            Value::Real { whole, notation } => ValueView::Real {
                whole: *whole,
                notation: notation@,
            },
            Value::Text(s) => ValueView::Text(s@),
            Value::Json(s) => ValueView::Json(s@),
        }
    }
}

impl Value {
    /// The same value once more.
    pub fn copy(&self) -> (v: Value)
        ensures
            v@ == self@,
    {
        match self {
            Value::Null => Value::Null,
            Value::Bool(b) => Value::Bool(*b),
            Value::Int(n) => Value::Int(*n),
            Value::Real { whole, notation } => Value::Real {
                whole: *whole,
                notation: notation.clone(),
            },
            Value::Text(s) => Value::Text(s.clone()),
            Value::Json(s) => Value::Json(s.clone()),
        }
    }
}

/// The columns of a row.
pub type Columns = Map<Seq<char>, ValueView>;

/// A row of the catalog: its columns by their names.
#[derive(Debug)]
pub struct Row {
    columns: SortedMap<Value>,
}

impl View for Row {
    type V = Columns;

    closed spec fn view(&self) -> Columns {
        self.columns@.map_values(|v: Value| v@)
    }
}

impl Row {
    /// Whether the columns are in the order of their names.
    pub closed spec fn wf(&self) -> bool {
        self.columns.wf()
    }

    /// The names of the columns, in order.
    pub closed spec fn keys(&self) -> Seq<Seq<char>> {
        self.columns.keys()
    }

    /// The names of the columns are those of the row, each before the next.
    pub proof fn lemma_keys(&self)
        requires
            self.wf(),
        ensures
            forall|i: int, j: int|
                0 <= i < j < self.keys().len() ==> text::text_lt(
                    #[trigger] self.keys()[i],
                    #[trigger] self.keys()[j],
                ),
            forall|k: Seq<char>| #[trigger] self@.contains_key(k) <==> self.keys().contains(k),
    {
        self.columns.lemma_keys();
        assert forall|k: Seq<char>| #[trigger] self@.contains_key(k) <==> self.keys().contains(
            k,
        ) by {
            assert(self.columns@.contains_key(k) <==> self.columns.keys().contains(k));
        }
    }

    /// A row without columns.
    pub fn new() -> (row: Row)
        ensures
            row.wf(),
            row@ == Columns::empty(),
    {
        let row = Row { columns: SortedMap::new() };
        assert(row@ =~= Columns::empty());
        row
    }

    /// The number of columns.
    pub fn len(&self) -> (n: usize)
        ensures
            n == self.keys().len(),
    {
        self.columns.len()
    }

    /// The name of the column at `i`.
    pub fn key_at(&self, i: usize) -> (k: &String)
        requires
            i < self.keys().len(),
        ensures
            k@ == self.keys()[i as int],
    {
        self.columns.key_at(i)
    }

    /// What a column holds.
    pub fn get(&self, key: &str) -> (value: Option<&Value>)
        requires
            self.wf(),
        ensures
            match value {
                Some(v) => self@.contains_key(key@) && self@[key@] == v@,
                None => !self@.contains_key(key@),
            },
    {
        self.columns.get(key)
    }

    /// Sets a column.
    pub fn insert(&mut self, key: &str, value: Value)
        requires
            old(self).wf(),
        ensures
            final(self).wf(),
            final(self)@ == old(self)@.insert(key@, value@),
    {
        self.columns.insert(key, value);
        assert(self@ =~= old(self)@.insert(key@, value@));
    }
}

impl ValueView {
    /// The text that the value is.
    pub open spec fn text(self) -> Option<Seq<char>> {
        match self {
            ValueView::Text(s) => Some(s),
            _ => None,
        }
    }
}

/// The text in a column of a row; `None` where there is none.
pub open spec fn column_text(row: Columns, key: Seq<char>) -> Option<Seq<char>> {
    if row.contains_key(key) {
        row[key].text()
    } else {
        None
    }
}

/// The text in a column of a row.
pub fn text_in<'a>(row: &'a Row, key: &str) -> (s: Option<&'a String>)
    requires
        row.wf(),
    ensures
        match column_text(row@, key@) {
            Some(t) => s is Some && s.unwrap()@ == t,
            None => s is None,
        },
{
    match row.get(key) {
        Some(Value::Text(s)) => Some(s),
        _ => None,
    }
}

/// The text in a column; nothing where it is missing.
pub open spec fn text_or_empty(row: Columns, key: Seq<char>) -> Seq<char> {
    match column_text(row, key) {
        Some(s) => s,
        None => seq![],
    }
}

/// The text in a column; nothing where it is missing.
pub fn row_string(row: &Row, key: &str) -> (s: String)
    requires
        row.wf(),
    ensures
        s@ == text_or_empty(row@, key@),
{
    match text_in(row, key) {
        Some(s) => s.clone(),
        None => String::new(),
    }
}

/// The decimal notation of a number with its sign.
pub open spec fn int_notation(n: int) -> Seq<char> {
    if n < 0 {
        "-"@ + text::decimal((-n) as nat)
    } else {
        text::decimal(n as nat)
    }
}

/// The decimal notation of a number with its sign.
pub fn int_text(n: i64) -> (s: String)
    ensures
        s@ == int_notation(n as int),
{
    if n < 0 {
        let magnitude: u64 = (-(n as i128)) as u64;
        concat("-", decimal_text(magnitude).as_str())
    } else {
        decimal_text(n as u64)
    }
}

/// A column as text: a text as it is, a number in its notation, a dash for
/// anything else and for an empty text.
pub open spec fn shown_column(row: Columns, key: Seq<char>) -> Seq<char> {
    if row.contains_key(key) {
        match row[key] {
            ValueView::Text(s) => if s.len() > 0 {
                s
            } else {
                "—"@
            },
            ValueView::Int(n) => int_notation(n as int),
            ValueView::Real { notation, .. } => notation,
            _ => "—"@,
        }
    } else {
        "—"@
    }
}

/// A column as text.
pub fn row_display(row: &Row, key: &str) -> (s: String)
    requires
        row.wf(),
    ensures
        s@ == shown_column(row@, key@),
{
    match row.get(key) {
        Some(Value::Text(s)) => if s.as_str().is_empty() {
            "—".to_owned()
        } else {
            s.clone()
        },
        Some(Value::Int(n)) => int_text(*n),
        Some(Value::Real { notation, .. }) => notation.clone(),
        _ => "—".to_owned(),
    }
}

/// The integer in a column.
pub open spec fn column_int(row: Columns, key: Seq<char>) -> Option<i64> {
    if row.contains_key(key) {
        match row[key] {
            ValueView::Int(n) => Some(n),
            _ => None,
        }
    } else {
        None
    }
}

/// The integer in a column.
pub fn int_in(row: &Row, key: &str) -> (n: Option<i64>)
    requires
        row.wf(),
    ensures
        n == column_int(row@, key@),
{
    match row.get(key) {
        Some(Value::Int(n)) => Some(*n),
        _ => None,
    }
}

/// The columns of rows.
pub open spec fn row_columns(rows: Seq<Row>) -> Seq<Columns> {
    rows.map_values(|r: Row| r@)
}

/// Whether every row is in order.
pub open spec fn rows_wf(rows: Seq<Row>) -> bool {
    forall|i: int| 0 <= i < rows.len() ==> (#[trigger] rows[i]).wf()
}

/// Whether a text is JSON that `serde_json` reads.
pub uninterp spec fn is_json(text: Seq<char>) -> bool;

/// The texts of the JSON array of texts that `text` is; `None` where it is
/// anything else.
pub uninterp spec fn json_texts(text: Seq<char>) -> Option<Seq<Seq<char>>>;

/// The text that the member `member` of each element holds, of the array to
/// which the JSON pointer `pointer` leads in `text`; `None` where it leads to
/// no array or `text` is not JSON.
pub uninterp spec fn json_listed_texts(
    text: Seq<char>,
    pointer: Seq<char>,
    member: Seq<char>,
) -> Option<Seq<Option<Seq<char>>>>;

/// `serde_json::from_str` into any value: whether `text` is JSON.
#[verifier::external_body]
pub(crate) fn reads_as_json(text: &str) -> (b: bool)
    ensures
        b == is_json(text@),
{
    serde_json::from_str::<serde_json::Value>(text).is_ok()
}

/// `serde_json::from_str` into a list of texts: which texts it gives depends on
/// `text` alone.
#[verifier::external_body]
pub(crate) fn read_json_texts(text: &str) -> (texts: Option<Vec<String>>)
    ensures
        match texts {
            Some(v) => json_texts(text@) == Some(text::views(v@)),
            None => json_texts(text@) is None,
        },
{
    serde_json::from_str::<Vec<String>>(text).ok()
}

/// The views of optional texts.
pub open spec fn option_views(v: Seq<Option<String>>) -> Seq<Option<Seq<char>>> {
    v.map_values(
        |s: Option<String>|
            match s {
                Some(s) => Some(s@),
                None => None,
            },
    )
}

/// `serde_json::from_str`, then `Value::pointer` and, of each element of the
/// array there, `Value::get` and `Value::as_str`: what they find depends on the
/// three texts alone.
#[verifier::external_body]
pub(crate) fn read_listed_texts(text: &str, pointer: &str, member: &str) -> (texts: Option<
    Vec<Option<String>>,
>)
    ensures
        match texts {
            Some(v) => json_listed_texts(text@, pointer@, member@) == Some(option_views(v@)),
            None => json_listed_texts(text@, pointer@, member@) is None,
        },
{
    let value: serde_json::Value = serde_json::from_str(text).ok()?;
    let member_text = |v: &serde_json::Value| v.get(member)?.as_str().map(str::to_string);
    Some(value.pointer(pointer)?.as_array()?.iter().map(member_text).collect())
}

/// The texts among optional texts.
pub open spec fn present(v: Seq<Option<Seq<char>>>) -> Seq<Seq<char>>
    decreases v.len(),
{
    if v.len() == 0 {
        seq![]
    } else {
        match v.last() {
            Some(s) => present(v.drop_last()).push(s),
            None => present(v.drop_last()),
        }
    }
}

/// The texts among optional texts.
pub fn present_texts(v: &Vec<Option<String>>) -> (texts: Vec<String>)
    ensures
        text::views(texts@) == present(option_views(v@)),
{
    let ghost all = option_views(v@);
    let mut texts: Vec<String> = Vec::new();
    let mut i: usize = 0;
    assert(all.take(0) =~= seq![]);
    assert(text::views(texts@) =~= present(all.take(0)));
    while i < v.len()
        invariant
            i <= v@.len(),
            all == option_views(v@),
            text::views(texts@) == present(all.take(i as int)),
        decreases v@.len() - i,
    {
        let ghost before = text::views(texts@);
        proof {
            assert(all.take(i + 1).drop_last() =~= all.take(i as int));
            assert(all.take(i + 1).last() == all[i as int]);
        }
        match &v[i] {
            Some(s) => {
                texts.push(s.clone());
                assert(text::views(texts@) =~= before.push(s@));
            },
            None => {},
        }
        i = i + 1;
    }
    assert(all.take(all.len() as int) =~= all);
    texts
}

/// Of a list of texts that may be missing, those that are there stay in order.
pub proof fn law_missing_texts_are_left_out(v: Seq<Option<Seq<char>>>, s: Seq<char>)
    ensures
        present(v.push(Some(s))) == present(v).push(s),
        present(v.push(None)) == present(v),
        present(seq![]) == Seq::<Seq<char>>::empty(),
{
    assert(v.push(Some(s)).drop_last() =~= v);
    assert(v.push(None).drop_last() =~= v);
}

/// A column is read as what it holds: a text as a text, a number as a number,
/// and neither as the other. A dash is shown for what is not there.
pub proof fn law_columns_are_read_as_what_they_hold(
    row: Columns,
    key: Seq<char>,
    s: Seq<char>,
    n: i64,
)
    requires
        s.len() > 0,
    ensures
        ({
            let texts = row.insert(key, ValueView::Text(s));
            column_text(texts, key) == Some(s) && column_int(texts, key) is None && shown_column(
                texts,
                key,
            ) == s && text_or_empty(texts, key) == s
        }),
        ({
            let numbers = row.insert(key, ValueView::Int(n));
            column_text(numbers, key) is None && column_int(numbers, key) == Some(n)
                && shown_column(numbers, key) == if n < 0 {
                "-"@ + text::decimal((-n) as nat)
            } else {
                text::decimal(n as nat)
            } && text_or_empty(numbers, key) == Seq::<char>::empty()
        }),
        ({
            let without = row.remove(key);
            column_text(without, key) is None && column_int(without, key) is None && shown_column(
                without,
                key,
            ) == "—"@ && text_or_empty(without, key) == Seq::<char>::empty()
        }),
{
}

} // verus!
