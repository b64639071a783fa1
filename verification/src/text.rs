//! Text as sequences of characters: the vocabulary in which every contract of
//! this crate that speaks of strings is written, and its executable side.

use vstd::prelude::*;
use vstd::string::StringExecFns;
use vstd::utf8::*;

verus! {

// ---------------------------------------------------------------------------
// Standard library items that carry no specification of their own.
// ---------------------------------------------------------------------------

/// `String::push` appends the given character to the end of the string.
pub assume_specification[ String::push ](s: &mut String, c: char)
    ensures
        final(s)@ == old(s)@.push(c),
;

// ---------------------------------------------------------------------------
// Vocabulary
// ---------------------------------------------------------------------------

/// The characters with the Unicode property `White_Space`.
pub open spec fn is_white(c: char) -> bool {
    let n = c as int;
    ||| 9 <= n <= 13
    ||| n == 32
    ||| n == 0x85
    ||| n == 0xA0
    ||| n == 0x1680
    ||| 0x2000 <= n <= 0x200A
    ||| n == 0x2028
    ||| n == 0x2029
    ||| n == 0x202F
    ||| n == 0x205F
    ||| n == 0x3000
}

/// `s` without its leading white space.
pub open spec fn trim_start(s: Seq<char>) -> Seq<char>
    decreases s.len(),
{
    if s.len() > 0 && is_white(s[0]) {
        trim_start(s.drop_first())
    } else {
        s
    }
}

/// `s` without its trailing white space.
pub open spec fn trim_end(s: Seq<char>) -> Seq<char>
    decreases s.len(),
{
    if s.len() > 0 && is_white(s.last()) {
        trim_end(s.drop_last())
    } else {
        s
    }
}

/// `s` without the white space at both ends.
pub open spec fn trim(s: Seq<char>) -> Seq<char> {
    trim_end(trim_start(s))
}

/// `s` without the leading characters that `drop` names.
pub open spec fn strip_leading(s: Seq<char>, drop: spec_fn(char) -> bool) -> Seq<char>
    decreases s.len(),
{
    if s.len() > 0 && drop(s[0]) {
        strip_leading(s.drop_first(), drop)
    } else {
        s
    }
}

/// `s` without the trailing characters that `drop` names.
pub open spec fn strip_trailing(s: Seq<char>, drop: spec_fn(char) -> bool) -> Seq<char>
    decreases s.len(),
{
    if s.len() > 0 && drop(s.last()) {
        strip_trailing(s.drop_last(), drop)
    } else {
        s
    }
}

/// `s` without the characters at both ends that are one of `marks`.
pub open spec fn strip_marks(s: Seq<char>, marks: Seq<char>) -> Seq<char> {
    strip_trailing(strip_leading(s, in_marks(marks)), in_marks(marks))
}

/// Being one of `marks`.
pub open spec fn in_marks(marks: Seq<char>) -> spec_fn(char) -> bool {
    |c: char| marks.contains(c)
}

/// `list` with each of `more` that it does not hold already.
pub open spec fn with_texts(list: Seq<Seq<char>>, more: Seq<Seq<char>>) -> Seq<Seq<char>>
    decreases more.len(),
{
    if more.len() == 0 {
        list
    } else {
        with_text(with_texts(list, more.drop_last()), more.last())
    }
}

/// The texts of `s` without those that occurred before.
pub open spec fn unique_texts(s: Seq<Seq<char>>) -> Seq<Seq<char>> {
    with_texts(seq![], s)
}

/// `list` with `t` at its end, unless it holds `t` already.
pub open spec fn with_text(list: Seq<Seq<char>>, t: Seq<char>) -> Seq<Seq<char>> {
    if list.contains(t) {
        list
    } else {
        list.push(t)
    }
}

/// The index of the first `c` in `s`, or the length of `s` if there is none.
pub open spec fn find_char(s: Seq<char>, c: char) -> int
    decreases s.len(),
{
    if s.len() == 0 || s[0] == c {
        0
    } else {
        1 + find_char(s.drop_first(), c)
    }
}

/// The index of the last `c` in `s`, or `-1` if there is none.
pub open spec fn rfind_char(s: Seq<char>, c: char) -> int
    decreases s.len(),
{
    if s.len() == 0 {
        -1
    } else if s.last() == c {
        s.len() - 1
    } else {
        rfind_char(s.drop_last(), c)
    }
}

/// The pieces of `s` between the occurrences of `c`; never empty.
pub open spec fn split_char(s: Seq<char>, c: char) -> Seq<Seq<char>>
    decreases s.len(),
{
    let i = find_char(s, c);
    if 0 <= i < s.len() {
        seq![s.take(i)] + split_char(s.skip(i + 1), c)
    } else {
        seq![s]
    }
}

/// `line` without one trailing carriage return.
pub open spec fn strip_cr(line: Seq<char>) -> Seq<char> {
    if line.len() > 0 && line.last() == '\r' {
        line.drop_last()
    } else {
        line
    }
}

/// The lines of `s`: each is ended by `\n` or `\r\n`, which is not part of it;
/// the last one may lack its end.
pub open spec fn lines(s: Seq<char>) -> Seq<Seq<char>>
    decreases s.len(),
{
    if s.len() == 0 {
        seq![]
    } else {
        let i = find_char(s, '\n');
        if 0 <= i < s.len() {
            seq![strip_cr(s.take(i))] + lines(s.skip(i + 1))
        } else {
            seq![s]
        }
    }
}

/// `parts` one after the other with `sep` between each two of them.
pub open spec fn join(parts: Seq<Seq<char>>, sep: Seq<char>) -> Seq<char>
    decreases parts.len(),
{
    if parts.len() == 0 {
        seq![]
    } else if parts.len() == 1 {
        parts[0]
    } else {
        join(parts.drop_last(), sep) + sep + parts.last()
    }
}

/// `s` with every `from` turned into `to`.
pub open spec fn replace_char(s: Seq<char>, from: char, to: char) -> Seq<char> {
    s.map_values(|c: char| if c == from { to } else { c })
}

/// The lower-case letter of an ASCII capital; any other character is kept.
pub open spec fn lower_char(c: char) -> char {
    if 'A' <= c <= 'Z' {
        (c as u8 + 32) as char
    } else {
        c
    }
}

/// `s` with its ASCII capitals turned into lower-case letters.
pub open spec fn ascii_lower(s: Seq<char>) -> Seq<char> {
    s.map_values(|c: char| lower_char(c))
}

/// The decimal digit `d`.
pub open spec fn digit_char(d: nat) -> char {
    (48 + d) as char
}

/// The decimal notation of `n`.
pub open spec fn decimal(n: nat) -> Seq<char>
    decreases n,
{
    if n < 10 {
        seq![digit_char(n)]
    } else {
        decimal(n / 10).push(digit_char(n % 10))
    }
}

/// `n` times the character `c`.
pub open spec fn repeat_char(c: char, n: nat) -> Seq<char> {
    Seq::new(n, |i: int| c)
}

/// `s` followed by the blanks that make it `width` characters wide.
pub open spec fn pad_right(s: Seq<char>, width: nat) -> Seq<char> {
    if s.len() < width {
        s + repeat_char(' ', (width - s.len()) as nat)
    } else {
        s
    }
}

/// `s` preceded by the blanks that make it `width` characters wide.
pub open spec fn pad_left(s: Seq<char>, width: nat) -> Seq<char> {
    if s.len() < width {
        repeat_char(' ', (width - s.len()) as nat) + s
    } else {
        s
    }
}

/// Whether `a` stands before `b` in the order of their code points, which is
/// also the order of their UTF-8 bytes.
pub open spec fn text_lt(a: Seq<char>, b: Seq<char>) -> bool
    decreases a.len(),
{
    if b.len() == 0 {
        false
    } else if a.len() == 0 {
        true
    } else if a[0] != b[0] {
        a[0] < b[0]
    } else {
        text_lt(a.drop_first(), b.drop_first())
    }
}

/// The bytes `from..to` of `s` as text; nothing where the offsets do not fall
/// between characters.
pub open spec fn byte_slice(s: Seq<char>, from: int, to: int) -> Seq<char> {
    let bytes = encode_utf8(s);
    if from <= to && is_char_boundary(bytes, from) && is_char_boundary(bytes, to) {
        decode_utf8(bytes.subrange(from, to))
    } else {
        seq![]
    }
}

/// The index of the first white space in `s`, or the length of `s`.
pub open spec fn find_white(s: Seq<char>) -> int
    decreases s.len(),
{
    if s.len() == 0 || is_white(s[0]) {
        0
    } else {
        1 + find_white(s.drop_first())
    }
}

/// The runs of `s` between its white space.
pub open spec fn words(s: Seq<char>) -> Seq<Seq<char>>
    decreases s.len(),
{
    if s.len() == 0 {
        seq![]
    } else if is_white(s[0]) {
        words(s.drop_first())
    } else {
        let k = find_white(s);
        if 0 < k <= s.len() {
            seq![s.take(k)] + words(s.skip(k))
        } else {
            seq![s]
        }
    }
}

/// The words of `s` with one blank between each two.
pub open spec fn squeeze(s: Seq<char>) -> Seq<char> {
    join(words(s), " "@)
}

/// The views of the strings in `v`.
pub open spec fn views(v: Seq<String>) -> Seq<Seq<char>> {
    v.map_values(|s: String| s@)
}

// ---------------------------------------------------------------------------
// Facts about the vocabulary
// ---------------------------------------------------------------------------

/// What `find_char` returns.
pub proof fn lemma_find_char(s: Seq<char>, c: char)
    ensures
        0 <= find_char(s, c) <= s.len(),
        find_char(s, c) < s.len() ==> s[find_char(s, c)] == c,
        forall|j: int| 0 <= j < find_char(s, c) ==> s[j] != c,
    decreases s.len(),
{
    if s.len() == 0 || s[0] == c {
    } else {
        lemma_find_char(s.drop_first(), c);
        assert forall|j: int| 0 <= j < find_char(s, c) implies s[j] != c by {
            if j > 0 {
                assert(s[j] == s.drop_first()[j - 1]);
            }
        }
    }
}

/// `find_char` is the only index with its properties.
pub proof fn lemma_find_char_is(s: Seq<char>, c: char, i: int)
    requires
        0 <= i <= s.len(),
        i < s.len() ==> s[i] == c,
        forall|j: int| 0 <= j < i ==> s[j] != c,
    ensures
        find_char(s, c) == i,
{
    lemma_find_char(s, c);
    let k = find_char(s, c);
    if k < i {
        assert(s[k] != c);
    }
    if i < k {
        assert(s[i] != c);
    }
}

/// What `rfind_char` returns.
pub proof fn lemma_rfind_char(s: Seq<char>, c: char)
    ensures
        -1 <= rfind_char(s, c) < s.len(),
        rfind_char(s, c) >= 0 ==> s[rfind_char(s, c)] == c,
        forall|j: int| rfind_char(s, c) < j < s.len() ==> s[j] != c,
    decreases s.len(),
{
    if s.len() == 0 || s.last() == c {
    } else {
        lemma_rfind_char(s.drop_last(), c);
        assert forall|j: int| rfind_char(s, c) < j < s.len() implies s[j] != c by {
            if j < s.len() - 1 {
                assert(s[j] == s.drop_last()[j]);
            }
        }
    }
}

/// `rfind_char` is the only index with its properties.
pub proof fn lemma_rfind_char_is(s: Seq<char>, c: char, i: int)
    requires
        -1 <= i < s.len(),
        i >= 0 ==> s[i] == c,
        forall|j: int| i < j < s.len() ==> s[j] != c,
    ensures
        rfind_char(s, c) == i,
{
    lemma_rfind_char(s, c);
    let k = rfind_char(s, c);
    if k < i {
        assert(s[i] != c);
    }
    if i < k {
        assert(s[k] != c);
    }
}

/// Splitting never returns an empty list.
pub proof fn lemma_split_char_nonempty(s: Seq<char>, c: char)
    ensures
        split_char(s, c).len() >= 1,
    decreases s.len(),
{
    lemma_find_char(s, c);
}

/// No piece of a split holds the character that was split on.
pub proof fn lemma_split_char_pieces(s: Seq<char>, c: char)
    ensures
        forall|i: int| 0 <= i < split_char(s, c).len() ==> !#[trigger] split_char(s, c)[i].contains(c),
    decreases s.len(),
{
    lemma_find_char(s, c);
    let i = find_char(s, c);
    if i < s.len() {
        lemma_split_char_pieces(s.skip(i + 1), c);
        let rest = split_char(s.skip(i + 1), c);
        assert forall|k: int| 0 <= k < split_char(s, c).len() implies !#[trigger] split_char(
            s,
            c,
        )[k].contains(c) by {
            if k > 0 {
                assert(split_char(s, c)[k] == rest[k - 1]);
            }
        }
    }
}

/// Joining the pieces of a split with the character that was split on gives
/// the text back.
pub proof fn lemma_join_split(s: Seq<char>, c: char)
    ensures
        join(split_char(s, c), seq![c]) == s,
    decreases s.len(),
{
    lemma_find_char(s, c);
    let i = find_char(s, c);
    if i < s.len() {
        let rest = split_char(s.skip(i + 1), c);
        lemma_join_split(s.skip(i + 1), c);
        lemma_split_char_nonempty(s.skip(i + 1), c);
        lemma_join_first(s.take(i), rest, seq![c]);
        assert(s =~= s.take(i) + seq![c] + s.skip(i + 1));
    } else {
        assert(split_char(s, c) =~= seq![s]);
    }
}

/// Splitting what was joined gives the parts back, where none of them holds
/// the character between them.
pub proof fn lemma_split_join(parts: Seq<Seq<char>>, c: char)
    requires
        parts.len() > 0,
        forall|i: int| 0 <= i < parts.len() ==> !(#[trigger] parts[i]).contains(c),
    ensures
        split_char(join(parts, seq![c]), c) == parts,
    decreases parts.len(),
{
    if parts.len() == 1 {
        let s = parts[0];
        assert forall|j: int| 0 <= j < s.len() implies s[j] != c by {
            if s[j] == c {
                assert(s.contains(c));
            }
        }
        lemma_find_char_is(s, c, s.len() as int);
        assert(split_char(s, c) =~= parts);
    } else {
        let first = parts[0];
        let rest = parts.drop_first();
        assert(parts =~= seq![first] + rest);
        lemma_join_first(first, rest, seq![c]);
        lemma_split_join(rest, c);
        let tail = join(rest, seq![c]);
        let s = join(parts, seq![c]);
        assert(s =~= first + seq![c] + tail);
        assert forall|j: int| 0 <= j < first.len() implies s[j] != c by {
            if first[j] == c {
                assert(first.contains(c));
            }
        }
        lemma_find_char_is(s, c, first.len() as int);
        assert(s.take(first.len() as int) =~= first);
        assert(s.skip((first.len() + 1) as int) =~= tail);
        assert(split_char(s, c) =~= parts);
    }
}

/// Joining a first part and a non-empty rest.
pub proof fn lemma_join_first(first: Seq<char>, rest: Seq<Seq<char>>, sep: Seq<char>)
    requires
        rest.len() >= 1,
    ensures
        join(seq![first] + rest, sep) == first + sep + join(rest, sep),
    decreases rest.len(),
{
    let all = seq![first] + rest;
    assert(all.drop_last() =~= seq![first] + rest.drop_last());
    assert(all.last() == rest.last());
    if rest.len() == 1 {
        assert(all.drop_last() =~= seq![first]);
        assert(join(seq![first], sep) == first);
        assert(join(all, sep) =~= first + sep + rest[0]);
    } else {
        lemma_join_first(first, rest.drop_last(), sep);
        assert(join(all, sep) =~= first + sep + (join(rest.drop_last(), sep) + sep + rest.last()));
    }
}

/// Adding texts one batch after the other.
pub proof fn lemma_with_texts_add(list: Seq<Seq<char>>, a: Seq<Seq<char>>, b: Seq<Seq<char>>)
    ensures
        with_texts(list, a + b) == with_texts(with_texts(list, a), b),
    decreases b.len(),
{
    if b.len() == 0 {
        assert(a + b =~= a);
    } else {
        lemma_with_texts_add(list, a, b.drop_last());
        assert((a + b).drop_last() =~= a + b.drop_last());
    }
}

/// White space is found behind a word.
pub proof fn lemma_white_behind(word: Seq<char>, rest: Seq<char>)
    requires
        forall|i: int| 0 <= i < word.len() ==> !is_white(#[trigger] word[i]),
        rest.len() > 0 ==> is_white(rest[0]),
    ensures
        find_white(word + rest) == word.len(),
    decreases word.len(),
{
    let all = word + rest;
    if word.len() == 0 {
        assert(all =~= rest);
    } else {
        let tail = word.drop_first();
        assert forall|i: int| 0 <= i < tail.len() implies !is_white(#[trigger] tail[i]) by {
            assert(tail[i] == word[i + 1]);
        }
        lemma_white_behind(tail, rest);
        assert(all[0] == word[0]);
        assert(all.drop_first() =~= tail + rest);
    }
}

/// A text without white space is one word.
pub proof fn lemma_words_of_word(word: Seq<char>)
    requires
        word.len() > 0,
        forall|i: int| 0 <= i < word.len() ==> !is_white(#[trigger] word[i]),
    ensures
        words(word) == seq![word],
{
    lemma_white_behind(word, seq![]);
    assert(word + seq![] =~= word);
    assert(word.take(word.len() as int) =~= word);
    assert(words(word.skip(word.len() as int)) =~= seq![]);
    assert(seq![word] + seq![] =~= seq![word]);
}

/// A word and a blank before a text.
pub proof fn lemma_words_first(word: Seq<char>, rest: Seq<char>)
    requires
        word.len() > 0,
        forall|i: int| 0 <= i < word.len() ==> !is_white(#[trigger] word[i]),
    ensures
        words(word + seq![' '] + rest) == seq![word] + words(rest),
{
    let all = word + seq![' '] + rest;
    let behind = seq![' '] + rest;
    assert(all =~= word + behind);
    lemma_white_behind(word, behind);
    assert(all[0] == word[0]);
    assert(all.take(word.len() as int) =~= word);
    assert(all.skip(word.len() as int) =~= behind);
    lemma_words_after_space(rest);
}

/// A blank before a text.
pub proof fn lemma_words_after_space(s: Seq<char>)
    ensures
        words(seq![' '] + s) == words(s),
{
    assert((seq![' '] + s).drop_first() =~= s);
}

/// Joining two lists one after the other.
pub proof fn lemma_join_add(a: Seq<Seq<char>>, b: Seq<Seq<char>>, sep: Seq<char>)
    requires
        a.len() > 0,
        b.len() > 0,
    ensures
        join(a + b, sep) == join(a, sep) + sep + join(b, sep),
    decreases b.len(),
{
    let all = a + b;
    assert(all.last() == b.last());
    if b.len() == 1 {
        assert(all.drop_last() =~= a);
    } else {
        lemma_join_add(a, b.drop_last(), sep);
        assert(all.drop_last() =~= a + b.drop_last());
        assert(join(all, sep) =~= join(a, sep) + sep + join(b, sep));
    }
}

/// The pieces on both sides of a separator.
pub proof fn lemma_split_at(a: Seq<char>, b: Seq<char>, c: char)
    ensures
        split_char(a + seq![c] + b, c) == split_char(a, c) + split_char(b, c),
{
    let left = split_char(a, c);
    let right = split_char(b, c);
    lemma_split_char_nonempty(a, c);
    lemma_split_char_nonempty(b, c);
    lemma_split_char_pieces(a, c);
    lemma_split_char_pieces(b, c);
    lemma_join_split(a, c);
    lemma_join_split(b, c);
    lemma_join_add(left, right, seq![c]);
    let all = left + right;
    assert forall|i: int| 0 <= i < all.len() implies !(#[trigger] all[i]).contains(c) by {
        if i < left.len() {
            assert(all[i] == left[i]);
        } else {
            assert(all[i] == right[i - left.len()]);
        }
    }
    lemma_split_join(all, c);
}

/// Trimming twice is trimming once.
pub proof fn lemma_trim_twice(s: Seq<char>)
    ensures
        trim(trim(s)) == trim(s),
        trim(s).len() > 0 ==> !is_white(trim(s)[0]) && !is_white(trim(s).last()),
{
    lemma_trim_start_first(s);
    let a = trim_start(s);
    lemma_trim_end_prefix(a);
    let b = trim_end(a);
    if b.len() > 0 {
        assert(b[0] == a[0]);
        assert(trim_start(b) == b);
    }
}

/// What is left starts with no white space.
proof fn lemma_trim_start_first(s: Seq<char>)
    ensures
        trim_start(s).len() > 0 ==> !is_white(trim_start(s)[0]),
    decreases s.len(),
{
    if s.len() > 0 && is_white(s[0]) {
        lemma_trim_start_first(s.drop_first());
    }
}

/// What is left is the start of the text and ends with no white space.
proof fn lemma_trim_end_prefix(s: Seq<char>)
    ensures
        trim_end(s).len() <= s.len(),
        trim_end(s) == s.take(trim_end(s).len() as int),
        trim_end(s).len() > 0 ==> !is_white(trim_end(s).last()),
    decreases s.len(),
{
    if s.len() > 0 && is_white(s.last()) {
        lemma_trim_end_prefix(s.drop_last());
        let r = trim_end(s.drop_last());
        assert(s.drop_last().take(r.len() as int) =~= s.take(r.len() as int));
    } else {
        assert(s.take(s.len() as int) =~= s);
    }
}

/// A text that starts and ends with no white space stays as it is.
pub proof fn lemma_trimmed(s: Seq<char>)
    requires
        s.len() > 0,
        !is_white(s[0]),
        !is_white(s.last()),
    ensures
        trim(s) == s,
{
}

/// White space behind a text makes no difference.
pub proof fn lemma_trim_push(s: Seq<char>, c: char)
    requires
        is_white(c),
    ensures
        trim(s.push(c)) == trim(s),
        trim_end(s.push(c)) == trim_end(s),
    decreases s.len(),
{
    let all = s.push(c);
    assert(all.drop_last() =~= s);
    if s.len() == 0 {
        assert(all.drop_first() =~= s);
        assert(trim_start(all) == trim_start(s));
    } else if is_white(s[0]) {
        assert(all.drop_first() =~= s.drop_first().push(c));
        lemma_trim_push(s.drop_first(), c);
    }
}

/// White space before a text makes no difference.
pub proof fn lemma_trim_behind(c: char, s: Seq<char>)
    requires
        is_white(c),
    ensures
        trim(seq![c] + s) == trim(s),
        trim_start(seq![c] + s) == trim_start(s),
{
    assert((seq![c] + s).drop_first() =~= s);
}

/// Trimming the end first makes no difference.
pub proof fn lemma_trim_of_trim_end(s: Seq<char>)
    ensures
        trim(trim_end(s)) == trim(s),
    decreases s.len(),
{
    if s.len() > 0 && is_white(s.last()) {
        lemma_trim_of_trim_end(s.drop_last());
        lemma_trim_push(s.drop_last(), s.last());
        assert(s.drop_last().push(s.last()) =~= s);
    }
}

/// The end behind a character that is no white space.
pub proof fn lemma_trim_end_behind(c: char, s: Seq<char>)
    requires
        !is_white(c),
    ensures
        trim_end(seq![c] + s) == seq![c] + trim_end(s),
    decreases s.len(),
{
    let all = seq![c] + s;
    if s.len() == 0 {
        assert(all =~= seq![c]);
        assert(all.last() == c);
        assert(seq![c] + trim_end(s) =~= seq![c]);
    } else {
        assert(all.last() == s.last());
        assert(all.drop_last() =~= seq![c] + s.drop_last());
        if is_white(s.last()) {
            lemma_trim_end_behind(c, s.drop_last());
        }
    }
}

/// Adding texts keeps those that are there and adds no others.
pub proof fn lemma_with_texts_contains(list: Seq<Seq<char>>, more: Seq<Seq<char>>, t: Seq<char>)
    ensures
        with_texts(list, more).contains(t) <==> list.contains(t) || more.contains(t),
    decreases more.len(),
{
    if more.len() > 0 {
        let before = with_texts(list, more.drop_last());
        lemma_with_texts_contains(list, more.drop_last(), t);
        lemma_with_texts_contains(list, more.drop_last(), more.last());
        lemma_push_contains(before, more.last(), t);
        lemma_push_contains(more.drop_last(), more.last(), t);
        assert(more.drop_last().push(more.last()) =~= more);
    }
}

/// Adding texts that are all there adds nothing.
pub proof fn lemma_with_texts_same(list: Seq<Seq<char>>, more: Seq<Seq<char>>)
    requires
        forall|t: Seq<char>| #[trigger] more.contains(t) ==> list.contains(t),
    ensures
        with_texts(list, more) == list,
    decreases more.len(),
{
    if more.len() > 0 {
        let rest = more.drop_last();
        assert forall|t: Seq<char>| #[trigger] rest.contains(t) implies list.contains(t) by {
            let k = choose|k: int| 0 <= k < rest.len() && rest[k] == t;
            assert(more[k] == t);
            assert(more.contains(t));
        }
        lemma_with_texts_same(list, rest);
        assert(more.contains(more.last())) by {
            assert(more[more.len() - 1] == more.last());
        }
    }
}

/// Adding texts each once keeps a list without repetitions.
pub proof fn lemma_with_texts_unique(list: Seq<Seq<char>>, more: Seq<Seq<char>>)
    requires
        list.no_duplicates(),
    ensures
        with_texts(list, more).no_duplicates(),
    decreases more.len(),
{
    if more.len() > 0 {
        lemma_with_texts_unique(list, more.drop_last());
    }
}

/// Membership after one more element.
pub proof fn lemma_push_contains<T>(s: Seq<T>, x: T, t: T)
    ensures
        s.push(x).contains(t) <==> s.contains(t) || t == x,
{
    if s.contains(t) {
        let i = choose|i: int| 0 <= i < s.len() && s[i] == t;
        assert(s.push(x)[i] == t);
    }
    if t == x {
        assert(s.push(x)[s.len() as int] == t);
    }
    if s.push(x).contains(t) && t != x {
        let i = choose|i: int| 0 <= i < s.push(x).len() && s.push(x)[i] == t;
        assert(s[i] == t);
    }
}

/// `unique_texts` holds every text once, and the same texts as before.
pub proof fn lemma_unique_texts(s: Seq<Seq<char>>)
    ensures
        unique_texts(s).no_duplicates(),
        forall|t: Seq<char>| #[trigger] unique_texts(s).contains(t) <==> s.contains(t),
    decreases s.len(),
{
    if s.len() > 0 {
        let rest = s.drop_last();
        let u = unique_texts(rest);
        lemma_unique_texts(rest);
        assert(s =~= rest.push(s.last()));
        assert forall|t: Seq<char>| #[trigger] unique_texts(s).contains(t) <==> s.contains(t) by {
            lemma_push_contains(rest, s.last(), t);
            lemma_push_contains(u, s.last(), t);
        }
    }
}

/// A text is never before itself.
pub proof fn lemma_text_lt_irreflexive(a: Seq<char>)
    ensures
        !text_lt(a, a),
    decreases a.len(),
{
    if a.len() > 0 {
        lemma_text_lt_irreflexive(a.drop_first());
    }
}

/// The order of texts is transitive.
pub proof fn lemma_text_lt_transitive(a: Seq<char>, b: Seq<char>, c: Seq<char>)
    requires
        text_lt(a, b),
        text_lt(b, c),
    ensures
        text_lt(a, c),
    decreases a.len(),
{
    if a.len() > 0 && b.len() > 0 && c.len() > 0 && a[0] == b[0] && b[0] == c[0] {
        lemma_text_lt_transitive(a.drop_first(), b.drop_first(), c.drop_first());
    }
}

/// Of two different texts one stands before the other.
pub proof fn lemma_text_lt_total(a: Seq<char>, b: Seq<char>)
    ensures
        a == b || text_lt(a, b) || text_lt(b, a),
    decreases a.len(),
{
    if a.len() > 0 && b.len() > 0 && a[0] == b[0] {
        lemma_text_lt_total(a.drop_first(), b.drop_first());
        if a.drop_first() == b.drop_first() {
            assert(a =~= seq![a[0]] + a.drop_first());
            assert(b =~= seq![b[0]] + b.drop_first());
        }
    } else if a.len() == 0 && b.len() == 0 {
        assert(a =~= b);
    }
}

// ---------------------------------------------------------------------------
// Characters
// ---------------------------------------------------------------------------

/// The characters of `s`.
pub fn chars_of(s: &str) -> (v: Vec<char>)
    ensures
        v@ == s@,
{
    let mut v: Vec<char> = Vec::new();
    for c in it: s.chars()
        invariant
            it.seq() == s@,
            v@ == s@.take(it.index()),
    {
        v.push(c);
        assert(s@.take(it.index() + 1) =~= s@.take(it.index()).push(c));
    }
    assert(s@.take(s@.len() as int) =~= s@);
    v
}

/// The string of the characters `v[from..to]`.
pub fn slice_text(v: &Vec<char>, from: usize, to: usize) -> (s: String)
    requires
        from <= to <= v@.len(),
    ensures
        s@ == v@.subrange(from as int, to as int),
{
    let mut s: String = String::new();
    let mut i: usize = from;
    while i < to
        invariant
            from <= i <= to <= v@.len(),
            s@ == v@.subrange(from as int, i as int),
        decreases to - i,
    {
        s.push(v[i]);
        i = i + 1;
        assert(v@.subrange(from as int, i as int) =~= v@.subrange(from as int, i - 1).push(
            v@[i - 1],
        ));
    }
    s
}

/// The string of the characters `v`.
pub fn text_of(v: &Vec<char>) -> (s: String)
    ensures
        s@ == v@,
{
    let s: String = slice_text(v, 0, v.len());
    assert(v@.subrange(0, v@.len() as int) =~= v@);
    s
}

/// `==` on string slices holds exactly where both hold the same characters.
#[verifier::external_body]
pub(crate) fn same_text(a: &str, b: &str) -> (same: bool)
    ensures
        same == (a@ == b@),
{
    a == b
}

/// Whether `text` is one of `list`.
pub fn contains_string(list: &Vec<String>, text: &str) -> (found: bool)
    ensures
        found == views(list@).contains(text@),
{
    let mut i: usize = 0;
    while i < list.len()
        invariant
            i <= list@.len(),
            forall|j: int| 0 <= j < i ==> list@[j]@ != text@,
        decreases list@.len() - i,
    {
        if same_text(list[i].as_str(), text) {
            assert(views(list@)[i as int] == text@);
            return true;
        }
        i = i + 1;
    }
    assert forall|j: int| 0 <= j < views(list@).len() implies views(list@)[j] != text@ by {
        assert(views(list@)[j] == list@[j]@);
    }
    false
}

/// Adds `text` to the list, unless it is there already.
pub fn push_unique(list: &mut Vec<String>, text: String)
    ensures
        views(final(list)@) == with_text(views(old(list)@), text@),
{
    if !contains_string(list, text.as_str()) {
        list.push(text);
        assert(views(list@) =~= views(old(list)@).push(text@));
    }
}

/// Whether `c` is one of `marks`.
fn is_mark(marks: &Vec<char>, c: char) -> (b: bool)
    ensures
        b == marks@.contains(c),
{
    let i: usize = find_from(marks, 0, c);
    i < marks.len()
}

/// `s` without the characters at both ends that are one of `marks`.
pub fn strip_marks_of(s: &str, marks: &str) -> (r: String)
    ensures
        r@ == strip_marks(s@, marks@),
{
    let v: Vec<char> = chars_of(s);
    let m: Vec<char> = chars_of(marks);
    let ghost drop = in_marks(marks@);
    let mut a: usize = 0;
    assert(v@.subrange(0, v@.len() as int) =~= v@);
    while a < v.len() && is_mark(&m, v[a])
        invariant
            a <= v@.len(),
            v@ == s@,
            m@ == marks@,
            drop == in_marks(marks@),
            strip_leading(v@.subrange(a as int, v@.len() as int), drop) == strip_leading(s@, drop),
        decreases v@.len() - a,
    {
        assert(v@.subrange(a as int, v@.len() as int).drop_first() =~= v@.subrange(
            a + 1,
            v@.len() as int,
        ));
        a = a + 1;
    }
    let ghost left = v@.subrange(a as int, v@.len() as int);
    assert(left == strip_leading(s@, drop));
    let mut b: usize = v.len();
    while a < b && is_mark(&m, v[b - 1])
        invariant
            a <= b <= v@.len(),
            m@ == marks@,
            drop == in_marks(marks@),
            strip_trailing(v@.subrange(a as int, b as int), drop) == strip_trailing(left, drop),
        decreases b,
    {
        assert(v@.subrange(a as int, b as int).drop_last() =~= v@.subrange(a as int, b - 1));
        b = b - 1;
    }
    slice_text(&v, a, b)
}

/// Whether `c` is white space.
pub fn char_is_white(c: char) -> (b: bool)
    ensures
        b == is_white(c),
{
    let n: u32 = c as u32;
    (9 <= n && n <= 13) || n == 32 || n == 0x85 || n == 0xA0 || n == 0x1680 || (0x2000 <= n && n
        <= 0x200A) || n == 0x2028 || n == 0x2029 || n == 0x202F || n == 0x205F || n == 0x3000
}

/// The lower-case letter of an ASCII capital; any other character is kept.
pub fn lower_of(c: char) -> (r: char)
    ensures
        r == lower_char(c),
{
    if 'A' <= c && c <= 'Z' {
        (c as u8 + 32) as char
    } else {
        c
    }
}

/// The index of the first `c` at or after `from`, or the length.
pub fn find_from(v: &Vec<char>, from: usize, c: char) -> (i: usize)
    requires
        from <= v@.len(),
    ensures
        from <= i <= v@.len(),
        i < v@.len() ==> v@[i as int] == c,
        forall|j: int| from <= j < i ==> v@[j] != c,
        i - from == find_char(v@.skip(from as int), c),
{
    let mut i: usize = from;
    while i < v.len() && v[i] != c
        invariant
            from <= i <= v@.len(),
            forall|j: int| from <= j < i ==> v@[j] != c,
        decreases v@.len() - i,
    {
        i = i + 1;
    }
    proof {
        let t = v@.skip(from as int);
        assert forall|j: int| 0 <= j < i - from implies t[j] != c by {
            assert(t[j] == v@[j + from]);
        }
        lemma_find_char_is(t, c, i - from);
    }
    i
}

/// The index of the last `c` before `to`, if there is one.
pub fn rfind_before(v: &Vec<char>, to: usize, c: char) -> (r: Option<usize>)
    requires
        to <= v@.len(),
    ensures
        match r {
            Some(i) => i < to && i == rfind_char(v@.take(to as int), c),
            None => rfind_char(v@.take(to as int), c) == -1,
        },
{
    let ghost t = v@.take(to as int);
    let mut i: usize = to;
    while i > 0
        invariant
            i <= to <= v@.len(),
            t == v@.take(to as int),
            forall|j: int| i <= j < to ==> v@[j] != c,
        decreases i,
    {
        if v[i - 1] == c {
            proof {
                lemma_rfind_char_is(t, c, i - 1);
            }
            return Some(i - 1);
        }
        i = i - 1;
    }
    proof {
        lemma_rfind_char_is(t, c, -1);
    }
    None
}

/// The bounds of `v[from..to]` without the white space at both ends.
pub fn trim_bounds(v: &Vec<char>, from: usize, to: usize) -> (r: (usize, usize))
    requires
        from <= to <= v@.len(),
    ensures
        from <= r.0 <= r.1 <= to,
        v@.subrange(r.0 as int, r.1 as int) == trim(v@.subrange(from as int, to as int)),
{
    let ghost whole = v@.subrange(from as int, to as int);
    let mut a: usize = from;
    while a < to && char_is_white(v[a])
        invariant
            from <= a <= to <= v@.len(),
            trim_start(v@.subrange(a as int, to as int)) == trim_start(whole),
        decreases to - a,
    {
        assert(v@.subrange(a as int, to as int).drop_first() =~= v@.subrange(a + 1, to as int));
        a = a + 1;
    }
    let ghost left = v@.subrange(a as int, to as int);
    assert(left == trim_start(whole));
    let mut b: usize = to;
    while a < b && char_is_white(v[b - 1])
        invariant
            a <= b <= to <= v@.len(),
            trim_end(v@.subrange(a as int, b as int)) == trim_end(left),
        decreases b,
    {
        assert(v@.subrange(a as int, b as int).drop_last() =~= v@.subrange(a as int, b - 1));
        b = b - 1;
    }
    (a, b)
}

/// `s` without the white space at both ends.
pub fn trimmed(s: &str) -> (r: String)
    ensures
        r@ == trim(s@),
{
    let v: Vec<char> = chars_of(s);
    let (a, b) = trim_bounds(&v, 0, v.len());
    assert(v@.subrange(0, v@.len() as int) =~= v@);
    slice_text(&v, a, b)
}

/// The pieces of `s` between the occurrences of `c`.
pub fn split_text(s: &str, c: char) -> (parts: Vec<String>)
    ensures
        views(parts@) == split_char(s@, c),
{
    let v: Vec<char> = chars_of(s);
    let mut parts: Vec<String> = Vec::new();
    let mut start: usize = 0;
    assert(v@.skip(0) =~= v@);
    assert(views(parts@) + split_char(v@.skip(0), c) =~= split_char(v@, c));
    loop
        invariant_except_break
            views(parts@) + split_char(v@.skip(start as int), c) == split_char(v@, c),
        invariant
            start <= v@.len(),
        ensures
            views(parts@) == split_char(v@, c),
        decreases v@.len() - start,
    {
        let i: usize = find_from(&v, start, c);
        let piece: String = slice_text(&v, start, i);
        let ghost before = views(parts@);
        let ghost rest = v@.skip(start as int);
        let ghost k = i - start;
        parts.push(piece);
        assert(views(parts@) =~= before.push(piece@));
        assert(rest.take(k) =~= v@.subrange(start as int, i as int));
        if i >= v.len() {
            assert(rest.take(k) =~= rest);
            assert(split_char(rest, c) =~= seq![rest]);
            assert(views(parts@) =~= before + seq![rest]);
            break;
        }
        assert(rest.skip(k + 1) =~= v@.skip(i + 1));
        assert(before + split_char(rest, c) =~= before.push(piece@) + split_char(
            v@.skip(i + 1),
            c,
        ));
        start = i + 1;
    }
    parts
}

/// The lines of `s`.
pub fn split_lines(s: &str) -> (parts: Vec<String>)
    ensures
        views(parts@) == lines(s@),
{
    let v: Vec<char> = chars_of(s);
    let mut parts: Vec<String> = Vec::new();
    let mut start: usize = 0;
    assert(v@.skip(0) =~= v@);
    assert(views(parts@) + lines(v@.skip(0)) =~= lines(v@));
    while start < v.len()
        invariant
            start <= v@.len(),
            views(parts@) + lines(v@.skip(start as int)) == lines(v@),
        decreases v@.len() - start,
    {
        let i: usize = find_from(&v, start, '\n');
        let ghost before = views(parts@);
        let ghost rest = v@.skip(start as int);
        let ghost k = i - start;
        assert(rest.take(k) =~= v@.subrange(start as int, i as int));
        if i >= v.len() {
            let piece: String = slice_text(&v, start, i);
            parts.push(piece);
            assert(views(parts@) =~= before.push(piece@));
            assert(rest.take(k) =~= rest);
            assert(lines(rest) =~= seq![rest]);
            assert(v@.skip(v@.len() as int) =~= seq![]);
            assert(views(parts@) + lines(v@.skip(v@.len() as int)) =~= before + seq![rest]);
            start = i;
        } else {
            let end: usize = if i > start && v[i - 1] == '\r' {
                i - 1
            } else {
                i
            };
            let piece: String = slice_text(&v, start, end);
            parts.push(piece);
            assert(views(parts@) =~= before.push(piece@));
            assert(strip_cr(rest.take(k)) =~= piece@);
            assert(rest.skip(k + 1) =~= v@.skip(i + 1));
            assert(before + lines(rest) =~= before.push(piece@) + lines(v@.skip(i + 1)));
            start = i + 1;
        }
    }
    assert(v@.skip(v@.len() as int) =~= seq![]);
    assert(views(parts@) + lines(seq![]) =~= views(parts@));
    parts
}

/// `parts` one after the other with `sep` between each two of them.
pub fn join_texts(parts: &Vec<String>, sep: &str) -> (r: String)
    ensures
        r@ == join(views(parts@), sep@),
{
    let mut r: String = String::new();
    let mut i: usize = 0;
    let ghost all = views(parts@);
    while i < parts.len()
        invariant
            i <= parts@.len(),
            all == views(parts@),
            r@ == join(all.take(i as int), sep@),
        decreases parts@.len() - i,
    {
        if i > 0 {
            r.append(sep);
        }
        r.append(parts[i].as_str());
        assert(all.take(i + 1).drop_last() =~= all.take(i as int));
        assert(all.take(i + 1).last() == parts@[i as int]@);
        i = i + 1;
        if i == 1 {
            assert(r@ =~= all.take(1)[0]);
        }
    }
    assert(all.take(all.len() as int) =~= all);
    r
}

/// `s` with every `from` turned into `to`.
pub fn replaced(s: &str, from: char, to: char) -> (r: String)
    ensures
        r@ == replace_char(s@, from, to),
{
    let v: Vec<char> = chars_of(s);
    let mut r: String = String::new();
    let mut i: usize = 0;
    while i < v.len()
        invariant
            v@ == s@,
            i <= v@.len(),
            r@ == replace_char(s@.take(i as int), from, to),
        decreases v@.len() - i,
    {
        let c: char = if v[i] == from {
            to
        } else {
            v[i]
        };
        r.push(c);
        i = i + 1;
        assert(r@ =~= replace_char(s@.take(i as int), from, to));
    }
    assert(s@.take(i as int) =~= s@);
    r
}

/// `s` with its ASCII capitals turned into lower-case letters.
pub fn lowered(s: &str) -> (r: String)
    ensures
        r@ == ascii_lower(s@),
{
    let v: Vec<char> = chars_of(s);
    let mut r: String = String::new();
    let mut i: usize = 0;
    while i < v.len()
        invariant
            v@ == s@,
            i <= v@.len(),
            r@ == ascii_lower(s@.take(i as int)),
        decreases v@.len() - i,
    {
        r.push(lower_of(v[i]));
        i = i + 1;
        assert(r@ =~= ascii_lower(s@.take(i as int)));
    }
    assert(s@.take(i as int) =~= s@);
    r
}

/// Whether `s` begins with `prefix`.
pub fn has_prefix(s: &str, prefix: &str) -> (b: bool)
    ensures
        b == prefix@.is_prefix_of(s@),
{
    let v: Vec<char> = chars_of(s);
    let p: Vec<char> = chars_of(prefix);
    if p.len() > v.len() {
        return false;
    }
    let mut i: usize = 0;
    while i < p.len()
        invariant
            v@ == s@,
            p@ == prefix@,
            i <= p@.len() <= v@.len(),
            forall|j: int| 0 <= j < i ==> v@[j] == p@[j],
        decreases p@.len() - i,
    {
        if v[i] != p[i] {
            assert(s@.subrange(0, p@.len() as int)[i as int] != prefix@[i as int]);
            return false;
        }
        i = i + 1;
    }
    assert(s@.subrange(0, p@.len() as int) =~= prefix@);
    true
}

/// Whether `s` ends with `suffix`.
pub fn has_suffix(s: &str, suffix: &str) -> (b: bool)
    ensures
        b == suffix@.is_suffix_of(s@),
{
    let v: Vec<char> = chars_of(s);
    let p: Vec<char> = chars_of(suffix);
    if p.len() > v.len() {
        return false;
    }
    let d: usize = v.len() - p.len();
    let mut i: usize = 0;
    while i < p.len()
        invariant
            v@ == s@,
            p@ == suffix@,
            i <= p@.len() <= v@.len(),
            d + p.len() == v.len(),
            forall|j: int| 0 <= j < i ==> v@[d + j] == p@[j],
        decreases p@.len() - i,
    {
        if v[d + i] != p[i] {
            assert(s@.subrange(d as int, v@.len() as int)[i as int] != suffix@[i as int]);
            return false;
        }
        i = i + 1;
    }
    assert(s@.subrange(d as int, v@.len() as int) =~= suffix@);
    true
}

/// Whether `c` occurs in `s`.
pub fn has_char(s: &str, c: char) -> (b: bool)
    ensures
        b == s@.contains(c),
{
    let v: Vec<char> = chars_of(s);
    let i: usize = find_from(&v, 0, c);
    i < v.len()
}

/// Whether `a` stands before `b` in the order of their code points.
pub fn text_before(a: &str, b: &str) -> (r: bool)
    ensures
        r == text_lt(a@, b@),
{
    let x: Vec<char> = chars_of(a);
    let y: Vec<char> = chars_of(b);
    let mut i: usize = 0;
    assert(x@.skip(0) =~= x@);
    assert(y@.skip(0) =~= y@);
    loop
        invariant
            x@ == a@,
            y@ == b@,
            i <= x@.len(),
            i <= y@.len(),
            text_lt(x@.skip(i as int), y@.skip(i as int)) == text_lt(a@, b@),
        decreases x@.len() - i,
    {
        if i == y.len() {
            return false;
        }
        if i == x.len() {
            return true;
        }
        if x[i] != y[i] {
            return x[i] < y[i];
        }
        assert(x@.skip(i as int).drop_first() =~= x@.skip(i + 1));
        assert(y@.skip(i as int).drop_first() =~= y@.skip(i + 1));
        i = i + 1;
    }
}

/// The decimal notation of `n`.
pub fn decimal_text(n: u64) -> (s: String)
    ensures
        s@ == decimal(n as nat),
    decreases n,
{
    if n < 10 {
        let mut s: String = String::new();
        s.push((48u8 + n as u8) as char);
        assert(s@ =~= seq![digit_char(n as nat)]);
        s
    } else {
        let mut s: String = decimal_text(n / 10);
        s.push((48u8 + (n % 10) as u8) as char);
        s
    }
}

/// Appends `n` blanks to `s`.
pub fn push_blanks(s: &mut String, n: usize)
    ensures
        final(s)@ == old(s)@ + repeat_char(' ', n as nat),
{
    let ghost start = s@;
    let mut i: usize = 0;
    assert(s@ =~= start + repeat_char(' ', 0));
    while i < n
        invariant
            i <= n,
            s@ == start + repeat_char(' ', i as nat),
        decreases n - i,
    {
        s.push(' ');
        i = i + 1;
        assert(s@ =~= start + repeat_char(' ', i as nat));
    }
}

/// `s` followed by the blanks that make it `width` characters wide.
pub fn padded_right(s: &str, width: usize) -> (r: String)
    ensures
        r@ == pad_right(s@, width as nat),
{
    let n: usize = s.unicode_len();
    let mut r: String = String::from_str(s);
    if n < width {
        push_blanks(&mut r, width - n);
    }
    r
}

/// `s` preceded by the blanks that make it `width` characters wide.
pub fn padded_left(s: &str, width: usize) -> (r: String)
    ensures
        r@ == pad_left(s@, width as nat),
{
    let n: usize = s.unicode_len();
    let mut r: String = String::new();
    if n < width {
        push_blanks(&mut r, width - n);
        r.append(s);
        assert(r@ =~= pad_left(s@, width as nat));
    } else {
        r.append(s);
        assert(r@ =~= s@);
    }
    r
}

/// The bytes `from..to` of `source` as text; nothing where the offsets do not
/// fall between characters.
pub fn slice_bytes(source: &str, from: usize, to: usize) -> (s: &str)
    ensures
        s@ == byte_slice(source@, from as int, to as int),
{
    let ghost bytes = encode_utf8(source@);
    proof {
        reveal_strlit("");
        encode_utf8_valid_utf8(source@);
    }
    if from > to || !source.is_char_boundary(from) || !source.is_char_boundary(to) {
        assert(""@ =~= seq![]);
        return "";
    }
    let (head, rest) = source.split_at(from);
    proof {
        lemma_boundary_shift(bytes, from as int, to as int);
    }
    let (middle, tail) = rest.split_at(to - from);
    proof {
        assert(bytes.subrange(from as int, bytes.len() as int).subrange(0, to - from)
            =~= bytes.subrange(from as int, to as int));
        encode_utf8_decode_utf8(middle@);
    }
    middle
}

/// A character boundary behind another one is a boundary of the rest as well.
proof fn lemma_boundary_shift(bytes: Seq<u8>, from: int, to: int)
    requires
        valid_utf8(bytes),
        0 <= from <= to,
        is_char_boundary(bytes, from),
        is_char_boundary(bytes, to),
    ensures
        from <= bytes.len(),
        to <= bytes.len(),
        valid_utf8(bytes.subrange(from, bytes.len() as int)),
        is_char_boundary(bytes.subrange(from, bytes.len() as int), to - from),
    decreases bytes.len(),
{
    if from == 0 {
        assert(bytes.subrange(0, bytes.len() as int) =~= bytes);
    } else {
        let n = length_of_first_scalar(bytes);
        let rest = pop_first_scalar(bytes);
        assert(is_char_boundary(rest, from - n));
        assert(is_char_boundary(rest, to - n));
        assert(from >= n);
        lemma_boundary_shift(rest, from - n, to - n);
        assert(rest.subrange(from - n, rest.len() as int) =~= bytes.subrange(
            from,
            bytes.len() as int,
        ));
    }
}

/// The index of the first white space at or after `from`, or the length.
pub fn find_white_from(v: &Vec<char>, from: usize) -> (i: usize)
    requires
        from <= v@.len(),
    ensures
        from <= i <= v@.len(),
        i - from == find_white(v@.skip(from as int)),
        forall|j: int| from <= j < i ==> !is_white(v@[j]),
{
    let ghost t = v@.skip(from as int);
    let mut i: usize = from;
    assert(t =~= v@.skip(from as int));
    while i < v.len() && !char_is_white(v[i])
        invariant
            from <= i <= v@.len(),
            t == v@.skip(from as int),
            find_white(t) == (i - from) + find_white(v@.skip(i as int)),
            forall|j: int| from <= j < i ==> !is_white(v@[j]),
        decreases v@.len() - i,
    {
        assert(v@.skip(i as int).drop_first() =~= v@.skip(i + 1));
        i = i + 1;
    }
    i
}

/// The runs of `s` between its white space.
pub fn words_of(s: &str) -> (parts: Vec<String>)
    ensures
        views(parts@) == words(s@),
{
    let v: Vec<char> = chars_of(s);
    let mut parts: Vec<String> = Vec::new();
    let mut i: usize = 0;
    assert(v@.skip(0) =~= v@);
    assert(views(parts@) + words(v@.skip(0)) =~= words(v@));
    while i < v.len()
        invariant
            i <= v@.len(),
            views(parts@) + words(v@.skip(i as int)) == words(v@),
        decreases v@.len() - i,
    {
        let ghost rest = v@.skip(i as int);
        if char_is_white(v[i]) {
            assert(rest.drop_first() =~= v@.skip(i + 1));
            i = i + 1;
        } else {
            let end: usize = find_white_from(&v, i);
            let piece: String = slice_text(&v, i, end);
            let ghost before = views(parts@);
            let ghost k = end - i;
            parts.push(piece);
            proof {
                if end == i {
                    assert(find_white(rest) == 1 + find_white(rest.drop_first()));
                    lemma_find_white_bound(rest.drop_first());
                }
                assert(views(parts@) =~= before.push(piece@));
                assert(rest.take(k) =~= piece@);
                assert(rest.skip(k) =~= v@.skip(end as int));
                assert(before + words(rest) =~= before.push(piece@) + words(v@.skip(end as int)));
            }
            i = end;
        }
    }
    assert(v@.skip(i as int) =~= seq![]);
    assert(views(parts@) + words(seq![]) =~= views(parts@));
    parts
}

/// `find_white` is an index of the text or its length.
proof fn lemma_find_white_bound(s: Seq<char>)
    ensures
        0 <= find_white(s) <= s.len(),
    decreases s.len(),
{
    if s.len() > 0 && !is_white(s[0]) {
        lemma_find_white_bound(s.drop_first());
    }
}

/// The words of `s` with one blank between each two.
pub fn squeezed(s: &str) -> (r: String)
    ensures
        r@ == squeeze(s@),
{
    let parts: Vec<String> = words_of(s);
    join_texts(&parts, " ")
}

/// `a` followed by `b`.
pub fn concat(a: &str, b: &str) -> (r: String)
    ensures
        r@ == a@ + b@,
{
    let mut r: String = a.to_owned();
    r.append(b);
    r
}

/// `a`, `b` and `c` one after the other.
pub fn concat3(a: &str, b: &str, c: &str) -> (r: String)
    ensures
        r@ == a@ + b@ + c@,
{
    let mut r: String = a.to_owned();
    r.append(b);
    r.append(c);
    r
}

/// Adds each of `more` that the list does not hold.
pub(crate) fn push_all(list: &mut Vec<String>, more: &Vec<String>)
    ensures
        views(final(list)@) == with_texts(views(old(list)@), views(more@)),
{
    let ghost l0 = views(list@);
    let ghost all = views(more@);
    let mut i: usize = 0;
    assert(all.take(0) =~= seq![]);
    while i < more.len()
        invariant
            i <= more@.len(),
            all == views(more@),
            views(list@) == with_texts(l0, all.take(i as int)),
        decreases more@.len() - i,
    {
        push_unique(list, more[i].clone());
        proof {
            assert(all.take(i + 1).drop_last() =~= all.take(i as int));
            assert(all.take(i + 1).last() == more@[i as int]@);
        }
        i = i + 1;
    }
    assert(all.take(i as int) =~= all);
}

// ---------------------------------------------------------------------------
// What the vocabulary means
// ---------------------------------------------------------------------------

/// Blanks, tabs and line ends are white space; what is printed is not.
pub proof fn law_blanks_and_line_ends_are_white(c: char)
    ensures
        c == ' ' || c == '\t' || c == '\n' || c == '\r' ==> is_white(c),
        '!' <= c <= '~' ==> !is_white(c),
{
}

/// Trimming takes off white space at both ends and nothing else: what is left
/// neither starts nor ends with it, and stands in the text between white space.
pub proof fn law_trimming_takes_off_white_space(
    before: Seq<char>,
    s: Seq<char>,
    behind: Seq<char>,
)
    requires
        forall|i: int| 0 <= i < before.len() ==> is_white(#[trigger] before[i]),
        forall|i: int| 0 <= i < behind.len() ==> is_white(#[trigger] behind[i]),
        s.len() == 0 || !is_white(s[0]) && !is_white(s.last()),
    ensures
        trim(before + s + behind) == s,
    decreases before.len() + behind.len(),
{
    let all = before + s + behind;
    if before.len() > 0 {
        let rest = before.drop_first();
        assert forall|i: int| 0 <= i < rest.len() implies is_white(#[trigger] rest[i]) by {
            assert(rest[i] == before[i + 1]);
        }
        law_trimming_takes_off_white_space(rest, s, behind);
        assert(all =~= seq![before[0]] + (rest + s + behind));
        lemma_trim_behind(before[0], rest + s + behind);
    } else if behind.len() > 0 {
        let rest = behind.drop_last();
        assert forall|i: int| 0 <= i < rest.len() implies is_white(#[trigger] rest[i]) by {
            assert(rest[i] == behind[i]);
        }
        law_trimming_takes_off_white_space(before, s, rest);
        assert(all =~= (before + s + rest).push(behind.last()));
        assert(behind.last() == behind[behind.len() - 1]);
        lemma_trim_push(before + s + rest, behind.last());
    } else {
        assert(all =~= s);
    }
}

/// A line is what stands before a line end, `\n` or `\r\n`, and the lines of
/// what follows come behind it; a last line needs no end.
pub proof fn law_lines_end_at_line_ends(line: Seq<char>, rest: Seq<char>)
    requires
        !line.contains('\n'),
    ensures
        line.len() == 0 || line.last() != '\r' ==> lines(line + seq!['\n'] + rest) == seq![line]
            + lines(rest),
        lines(line + seq!['\r', '\n'] + rest) == seq![line] + lines(rest),
        line.len() > 0 ==> lines(line) == seq![line],
        lines(seq![]) == Seq::<Seq<char>>::empty(),
{
    assert forall|j: int| 0 <= j < line.len() implies line[j] != '\n' by {
        if line[j] == '\n' {
            assert(line.contains('\n'));
        }
    }
    let a = line + seq!['\n'] + rest;
    lemma_find_char_is(a, '\n', line.len() as int);
    assert(a.take(line.len() as int) =~= line);
    assert(a.skip(line.len() as int + 1) =~= rest);
    let b = line + seq!['\r', '\n'] + rest;
    assert(b[line.len() as int + 1] == '\n');
    lemma_find_char_is(b, '\n', line.len() as int + 1);
    assert(b.take(line.len() as int + 1) =~= line.push('\r'));
    assert(line.push('\r').drop_last() =~= line);
    assert(b.skip(line.len() as int + 2) =~= rest);
    lemma_find_char_is(line, '\n', line.len() as int);
}

/// The letters `A` to `Z` become `a` to `z`, and nothing else changes.
pub proof fn law_only_capitals_are_lowered(s: Seq<char>, i: int)
    requires
        0 <= i < s.len(),
    ensures
        ascii_lower(s).len() == s.len(),
        'A' <= s[i] <= 'Z' ==> ascii_lower(s)[i] as int == s[i] as int + 32,
        !('A' <= s[i] <= 'Z') ==> ascii_lower(s)[i] == s[i],
{
}

/// The words of a text are those of its parts on both sides of white space,
/// and a run without white space is one word.
pub proof fn law_words_stand_between_white_space(word: Seq<char>, blank: char, rest: Seq<char>)
    requires
        word.len() > 0,
        forall|i: int| 0 <= i < word.len() ==> !is_white(#[trigger] word[i]),
        is_white(blank),
    ensures
        words(word + seq![blank] + rest) == seq![word] + words(rest),
        words(seq![blank] + rest) == words(rest),
        words(word) == seq![word],
        words(seq![]) == Seq::<Seq<char>>::empty(),
{
    lemma_words_of_word(word);
    let all = word + seq![blank] + rest;
    let behind = seq![blank] + rest;
    assert(all =~= word + behind);
    lemma_white_behind(word, behind);
    assert(all[0] == word[0]);
    assert(all.take(word.len() as int) =~= word);
    assert(all.skip(word.len() as int) =~= behind);
    assert(behind.drop_first() =~= rest);
    assert(behind[0] == blank);
    assert(words(behind) == words(rest));
    assert(words(all) == seq![word] + words(behind));
}

/// A text at the end of a list is there once: a list that holds it stays as it
/// is, any other gets it behind all that it holds.
pub proof fn law_texts_are_added_once_and_last(list: Seq<Seq<char>>, t: Seq<char>)
    ensures
        list.contains(t) ==> with_text(list, t) == list,
        !list.contains(t) ==> with_text(list, t) == list.push(t),
{
}

/// The value of a decimal notation is the number.
pub proof fn law_decimals_can_be_read_back(n: nat)
    ensures
        decimal_value(decimal(n)) == n,
        decimal(n).len() > 0,
        forall|i: int| 0 <= i < decimal(n).len() ==> '0' <= #[trigger] decimal(n)[i] <= '9',
    decreases n,
{
    if n >= 10 {
        law_decimals_can_be_read_back(n / 10);
        let before = decimal(n / 10);
        assert(decimal(n).drop_last() =~= before);
        assert forall|i: int| 0 <= i < decimal(n).len() implies '0' <= #[trigger] decimal(n)[i]
            <= '9' by {
            if i < before.len() {
                assert(decimal(n)[i] == before[i]);
            }
        }
    } else {
        assert(decimal(n).drop_last() =~= seq![]);
        assert(decimal_value(seq![]) == 0);
    }
}

/// The number that decimal digits stand for.
pub open spec fn decimal_value(s: Seq<char>) -> int
    decreases s.len(),
{
    if s.len() == 0 {
        0
    } else {
        decimal_value(s.drop_last()) * 10 + (s.last() as int - '0' as int)
    }
}

/// A text is padded with blanks to its width and never cut: on the right its
/// characters stay first, and on the left they come last.
pub proof fn law_padding_adds_blanks(s: Seq<char>, width: nat, i: int)
    requires
        0 <= i < width,
    ensures
        s.len() >= width ==> pad_right(s, width) == s && pad_left(s, width) == s,
        s.len() < width ==> pad_right(s, width).len() == width && pad_left(s, width).len() == width,
        s.len() < width ==> s.is_prefix_of(pad_right(s, width)) && s.is_suffix_of(
            pad_left(s, width),
        ),
        s.len() <= i ==> pad_right(s, width)[i] == ' ',
        i < width - s.len() ==> pad_left(s, width)[i] == ' ',
{
    if s.len() < width {
        assert(pad_right(s, width).take(s.len() as int) =~= s);
        let p = pad_left(s, width);
        assert(p.skip(p.len() - s.len()) =~= s);
    }
}

/// The first difference of two texts decides their order; without one the
/// shorter text comes first.
pub proof fn law_the_first_difference_decides_the_order(a: Seq<char>, b: Seq<char>, k: int)
    requires
        0 <= k <= a.len(),
        k <= b.len(),
        forall|i: int| 0 <= i < k ==> a[i] == b[i],
    ensures
        k < a.len() && k < b.len() && a[k] != b[k] ==> (text_lt(a, b) <==> a[k] < b[k]),
        k == a.len() ==> (text_lt(a, b) <==> k < b.len()),
        k == b.len() ==> !text_lt(a, b),
    decreases k,
{
    if k > 0 {
        assert(a[0] == b[0]);
        let x = a.drop_first();
        let y = b.drop_first();
        assert forall|i: int| 0 <= i < k - 1 implies x[i] == y[i] by {
            assert(a[i + 1] == b[i + 1]);
        }
        law_the_first_difference_decides_the_order(x, y, k - 1);
    }
}

/// The marks at both ends of a text are taken off, and nothing else: what
/// starts and ends with another character keeps all that is between.
pub proof fn law_marks_are_stripped_from_both_ends(
    front: Seq<char>,
    s: Seq<char>,
    back: Seq<char>,
    marks: Seq<char>,
)
    requires
        forall|i: int| 0 <= i < front.len() ==> marks.contains(#[trigger] front[i]),
        forall|i: int| 0 <= i < back.len() ==> marks.contains(#[trigger] back[i]),
        s.len() > 0,
        !marks.contains(s[0]),
        !marks.contains(s.last()),
    ensures
        strip_marks(front + s + back, marks) == s,
{
    let drop = in_marks(marks);
    lemma_strip_front(front, s + back, drop);
    assert(front + s + back =~= front + (s + back));
    lemma_strip_back(s, back, drop);
}

/// Leading characters that are dropped, before one that is not.
proof fn lemma_strip_front(front: Seq<char>, s: Seq<char>, drop: spec_fn(char) -> bool)
    requires
        forall|i: int| 0 <= i < front.len() ==> drop(#[trigger] front[i]),
        s.len() > 0,
        !drop(s[0]),
    ensures
        strip_leading(front + s, drop) == s,
    decreases front.len(),
{
    if front.len() > 0 {
        assert(drop(front[0]));
        lemma_strip_front(front.drop_first(), s, drop);
        assert((front + s).drop_first() =~= front.drop_first() + s);
    } else {
        assert(front + s =~= s);
    }
}

/// Trailing characters that are dropped, behind one that is not.
proof fn lemma_strip_back(s: Seq<char>, back: Seq<char>, drop: spec_fn(char) -> bool)
    requires
        forall|i: int| 0 <= i < back.len() ==> drop(#[trigger] back[i]),
        s.len() > 0,
        !drop(s.last()),
    ensures
        strip_trailing(s + back, drop) == s,
    decreases back.len(),
{
    if back.len() > 0 {
        assert(drop(back[back.len() - 1]));
        lemma_strip_back(s, back.drop_last(), drop);
        assert((s + back).drop_last() =~= s + back.drop_last());
    } else {
        assert(s + back =~= s);
    }
}

/// Of the texts of a list those stay that did not occur before, in order.
pub proof fn law_repeated_texts_are_left_out(s: Seq<Seq<char>>, t: Seq<char>)
    ensures
        unique_texts(s).no_duplicates(),
        unique_texts(s).contains(t) <==> s.contains(t),
        s.contains(t) ==> unique_texts(s.push(t)) == unique_texts(s),
        !s.contains(t) ==> unique_texts(s.push(t)) == unique_texts(s).push(t),
{
    lemma_with_texts_contains(seq![], s, t);
    lemma_with_texts_unique(seq![], s);
    assert(s.push(t).drop_last() =~= s);
}

} // verus!
