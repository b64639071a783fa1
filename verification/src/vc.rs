//! The names under which version control keeps the versions of a script.

use vstd::prelude::*;

use crate::text;
use crate::text::{chars_of, join_texts, split_text};

verus! {

/// The parts of a version's file name: `<script>_<date>_<time>`, with an
/// optional `_<user>` behind it.
#[derive(Debug)]
pub struct CheckoutName {
    pub script_name: String,
    pub timestamp: String,
    pub user: String,
}

/// The parts of a version's file name as texts.
pub struct CheckoutView {
    pub script_name: Seq<char>,
    pub timestamp: Seq<char>,
    pub user: Seq<char>,
}

impl View for CheckoutName {
    type V = CheckoutView;

    open spec fn view(&self) -> CheckoutView {
        CheckoutView {
            script_name: self.script_name@,
            timestamp: self.timestamp@,
            user: self.user@,
        }
    }
}

/// Whether a text is made of ASCII digits alone.
pub open spec fn all_digits(s: Seq<char>) -> bool {
    forall|i: int| 0 <= i < s.len() ==> '0' <= #[trigger] s[i] <= '9'
}

/// Whether two pieces are a date and a time: eight digits, then four or six.
pub open spec fn is_timestamp(date: Seq<char>, time: Seq<char>) -> bool {
    date.len() == 8 && all_digits(date) && (time.len() == 4 || time.len() == 6) && all_digits(time)
}

/// The parts of a name whose timestamp is made of the pieces `k` and `k + 1`.
pub open spec fn checkout_at(pieces: Seq<Seq<char>>, k: int, user: Seq<char>) -> Option<
    CheckoutView,
> {
    if k >= 1 && is_timestamp(pieces[k], pieces[k + 1]) && text::join(
        pieces.take(k),
        "_"@,
    ).len() > 0 {
        Some(
            CheckoutView {
                script_name: text::join(pieces.take(k), "_"@),
                timestamp: text::join(pieces.subrange(k, k + 2), "_"@),
                user,
            },
        )
    } else {
        None
    }
}

/// The parts of a version's file name; `None` for any other name.
pub open spec fn checkout_view(name: Seq<char>) -> Option<CheckoutView> {
    let pieces = text::split_char(name, '_');
    let n = pieces.len() as int;
    let plain = checkout_at(pieces, n - 2, seq![]);
    if plain is Some {
        plain
    } else if pieces.last().len() > 0 {
        checkout_at(pieces, n - 3, pieces.last())
    } else {
        None
    }
}

/// The view of an optional name.
pub open spec fn name_view(name: Option<CheckoutName>) -> Option<CheckoutView> {
    match name {
        Some(c) => Some(c@),
        None => None,
    }
}

/// Whether a text has `n` characters, all of them digits.
fn digits(s: &String, n: usize) -> (b: bool)
    ensures
        b == (s@.len() == n && all_digits(s@)),
{
    let v: Vec<char> = chars_of(s.as_str());
    if v.len() != n {
        return false;
    }
    let mut i: usize = 0;
    while i < v.len()
        invariant
            i <= v@.len(),
            v@ == s@,
            forall|j: int| 0 <= j < i ==> '0' <= #[trigger] v@[j] <= '9',
        decreases v@.len() - i,
    {
        if v[i] < '0' || v[i] > '9' {
            return false;
        }
        i = i + 1;
    }
    true
}

/// The pieces `from..to`, joined.
fn join_range(pieces: &Vec<String>, from: usize, to: usize) -> (s: String)
    requires
        from <= to <= pieces@.len(),
    ensures
        s@ == text::join(text::views(pieces@).subrange(from as int, to as int), "_"@),
{
    let ghost all = text::views(pieces@);
    let ghost target = all.subrange(from as int, to as int);
    let mut part: Vec<String> = Vec::new();
    let mut i: usize = from;
    assert(text::views(part@) =~= target.take(0));
    while i < to
        invariant
            from <= i <= to <= pieces@.len(),
            all == text::views(pieces@),
            target == all.subrange(from as int, to as int),
            text::views(part@) == target.take(i - from),
        decreases to - i,
    {
        let ghost before = text::views(part@);
        part.push(pieces[i].clone());
        proof {
            let k = i - from;
            assert(target[k] == pieces@[i as int]@);
            assert(text::views(part@) =~= before.push(target[k]));
            assert(text::views(part@) =~= target.take(k + 1));
        }
        i = i + 1;
    }
    assert(target.take(target.len() as int) =~= target);
    join_texts(&part, "_")
}

/// The parts of a name whose timestamp is made of the pieces `k` and `k + 1`.
fn read_checkout(pieces: &Vec<String>, k: usize, user: String) -> (name: Option<CheckoutName>)
    requires
        1 <= k,
        k + 2 <= pieces.len(),
    ensures
        name_view(name) == checkout_at(text::views(pieces@), k as int, user@),
{
    let ghost all = text::views(pieces@);
    assert(all[k as int] == pieces@[k as int]@);
    assert(all[k + 1] == pieces@[k + 1]@);
    if !digits(&pieces[k], 8) || !(digits(&pieces[k + 1], 4) || digits(&pieces[k + 1], 6)) {
        return None;
    }
    let script_name: String = join_range(pieces, 0, k);
    assert(all.subrange(0, k as int) =~= all.take(k as int));
    if script_name.as_str().is_empty() {
        return None;
    }
    let timestamp: String = join_range(pieces, k, k + 2);
    Some(CheckoutName { script_name, timestamp, user })
}

/// The parts of a version's file name; `None` for any other name.
pub fn parse_checkout_filename(name: &str) -> (parts: Option<CheckoutName>)
    ensures
        name_view(parts) == checkout_view(name@),
{
    let pieces: Vec<String> = split_text(name, '_');
    let n: usize = pieces.len();
    proof {
        text::lemma_split_char_nonempty(name@, '_');
    }
    assert(text::split_char(name@, '_').last() == pieces@[n - 1]@);
    if n >= 3 {
        if let Some(parts) = read_checkout(&pieces, n - 2, String::new()) {
            return Some(parts);
        }
    }
    if n >= 4 && !pieces[n - 1].as_str().is_empty() {
        let user: String = pieces[n - 1].clone();
        return read_checkout(&pieces, n - 3, user);
    }
    None
}

// ---------------------------------------------------------------------------
// Which names are those of versions
// ---------------------------------------------------------------------------

/// A piece without a separator is its only piece.
proof fn lemma_one_piece(s: Seq<char>)
    requires
        !s.contains('_'),
    ensures
        text::split_char(s, '_') == seq![s],
{
    text::lemma_split_join(seq![s], '_');
    assert(text::join(seq![s], seq!['_']) == s);
}

/// Digits are no separators.
proof fn lemma_digits_plain(s: Seq<char>)
    requires
        all_digits(s),
    ensures
        !s.contains('_'),
{
    if s.contains('_') {
        let k = choose|k: int| 0 <= k < s.len() && s[k] == '_';
        assert('0' <= s[k] <= '9');
    }
}

/// The name of a script, a date of eight digits and a time of four or six make
/// up the name of a version of that script, with the name of a user behind
/// them or not.
pub proof fn law_versions_are_named_after_their_script(
    script: Seq<char>,
    date: Seq<char>,
    time: Seq<char>,
    user: Seq<char>,
)
    requires
        script.len() > 0,
        date.len() == 8,
        time.len() == 4 || time.len() == 6,
        forall|i: int| 0 <= i < date.len() ==> '0' <= #[trigger] date[i] <= '9',
        forall|i: int| 0 <= i < time.len() ==> '0' <= #[trigger] time[i] <= '9',
        user.len() > 0,
        !user.contains('_'),
    ensures
        checkout_view(script + "_"@ + date + "_"@ + time) == Some(
            CheckoutView { script_name: script, timestamp: date + "_"@ + time, user: seq![] },
        ),
        checkout_view(script + "_"@ + date + "_"@ + time + "_"@ + user) == Some(
            CheckoutView { script_name: script, timestamp: date + "_"@ + time, user },
        ),
{
    reveal_strlit("_");
    assert("_"@ =~= seq!['_']);
    lemma_digits_plain(date);
    lemma_digits_plain(time);
    lemma_one_piece(date);
    lemma_one_piece(time);
    lemma_one_piece(user);
    let own = text::split_char(script, '_');
    text::lemma_split_char_nonempty(script, '_');
    text::lemma_join_split(script, '_');
    let dated = script + "_"@ + date;
    let timed = dated + "_"@ + time;
    let named = timed + "_"@ + user;
    text::lemma_split_at(script, date, '_');
    text::lemma_split_at(dated, time, '_');
    text::lemma_split_at(timed, user, '_');
    let n = own.len() as int;
    let a = text::split_char(timed, '_');
    assert(a =~= own + seq![date, time]);
    assert(a.take(n) =~= own);
    assert(a.subrange(n, n + 2) =~= seq![date, time]);
    lemma_two(date, time);
    assert(a[n] == date && a[n + 1] == time);
    let b = text::split_char(named, '_');
    assert(b =~= own + seq![date, time, user]);
    assert(b.take(n) =~= own);
    assert(b.subrange(n, n + 2) =~= seq![date, time]);
    assert(b[n] == date && b[n + 1] == time && b.last() == user);
}

/// Two pieces joined.
proof fn lemma_two(a: Seq<char>, b: Seq<char>)
    ensures
        text::join(seq![a, b], "_"@) == a + "_"@ + b,
{
    assert(seq![a, b].drop_last() =~= seq![a]);
    assert(text::join(seq![a], "_"@) == a);
}

/// The parts of a version's name make it up again, and its timestamp is a date
/// of eight digits and a time of four or six: no other name is that of a
/// version.
pub proof fn law_only_such_names_are_those_of_versions(name: Seq<char>)
    ensures
        checkout_view(name) matches Some(c) ==> {
            &&& c.script_name.len() > 0
            &&& name == c.script_name + "_"@ + c.timestamp + if c.user.len() == 0 {
                seq![]
            } else {
                "_"@ + c.user
            }
            &&& exists|date: Seq<char>, time: Seq<char>|
                c.timestamp == #[trigger] (date + "_"@ + time) && date.len() == 8 && (time.len() == 4
                    || time.len() == 6) && (forall|i: int|
                    0 <= i < date.len() ==> '0' <= #[trigger] date[i] <= '9') && (forall|i: int|
                    0 <= i < time.len() ==> '0' <= #[trigger] time[i] <= '9')
        },
{
    reveal_strlit("_");
    assert("_"@ =~= seq!['_']);
    let pieces = text::split_char(name, '_');
    let n = pieces.len() as int;
    text::lemma_split_char_nonempty(name, '_');
    text::lemma_join_split(name, '_');
    match checkout_view(name) {
        Some(c) => {
            let k = if checkout_at(pieces, n - 2, seq![]) is Some {
                n - 2
            } else {
                n - 3
            };
            let stamp = pieces.subrange(k, k + 2);
            assert(stamp =~= seq![pieces[k], pieces[k + 1]]);
            lemma_two(pieces[k], pieces[k + 1]);
            assert(c.timestamp == pieces[k] + "_"@ + pieces[k + 1]);
            let head = pieces.take(k);
            text::lemma_join_add(head, stamp, seq!['_']);
            let upto = pieces.take(k + 2);
            assert(upto =~= head + stamp);
            if k == n - 2 {
                assert(upto =~= pieces);
                assert(c.script_name + "_"@ + c.timestamp + Seq::<char>::empty() =~= name);
            } else {
                assert(pieces.drop_last() =~= upto);
                assert(name == text::join(upto, seq!['_']) + seq!['_'] + pieces.last());
                assert(c.script_name + "_"@ + c.timestamp + ("_"@ + c.user) =~= name);
            }
        },
        None => {},
    }
}

} // verus!
