//! Regular expressions of the `regex` crate, and the lower case of std.

use regex::Regex;
use vstd::prelude::*;
use vstd::utf8::*;

use crate::scanner;
use crate::text;

verus! {

/// The groups of a match: group 0 is the whole match, a group that took no
/// part in it is `None`.
pub type Groups = Vec<Option<String>>;

/// The views of the groups of a match.
pub open spec fn group_views(g: Seq<Option<String>>) -> Seq<Option<Seq<char>>> {
    g.map_values(
        |s: Option<String>|
            match s {
                Some(s) => Some(s@),
                None => None,
            },
    )
}

/// A compiled regular expression.
#[verifier::external_type_specification]
#[verifier::external_body]
pub struct ExRegex(regex::Regex);

/// The pattern that a regular expression was compiled from.
pub uninterp spec fn pattern_of(regex: regex::Regex) -> Seq<char>;

/// Whether a pattern is a regular expression.
pub uninterp spec fn is_regex(pattern: Seq<char>) -> bool;

/// The groups of the leftmost match of a regular expression in `text`; `None`
/// where there is no match.
pub uninterp spec fn leftmost_match(pattern: Seq<char>, text: Seq<char>) -> Option<
    Seq<Option<Seq<char>>>,
>;

/// The groups of all matches of a regular expression in `text` that do not
/// overlap, from the left.
pub uninterp spec fn all_matches(pattern: Seq<char>, text: Seq<char>) -> Seq<
    Seq<Option<Seq<char>>>,
>;

/// The byte offsets of all matches of a regular expression in `text` that do
/// not overlap, from the left.
pub uninterp spec fn all_spans(pattern: Seq<char>, text: Seq<char>) -> Seq<(usize, usize)>;

/// The lower case of `text` by the rules of Unicode.
pub uninterp spec fn unicode_lower(text: Seq<char>) -> Seq<char>;

/// The groups of the leftmost match of `pattern` in `text`; `None` where
/// there is no match or the pattern is not a regular expression.
pub open spec fn regex_captures(pattern: Seq<char>, text: Seq<char>) -> Option<
    Seq<Option<Seq<char>>>,
> {
    if is_regex(pattern) {
        leftmost_match(pattern, text)
    } else {
        None
    }
}

/// The groups of all matches of `pattern` in `text`; none where the pattern is
/// not a regular expression.
pub open spec fn regex_captures_iter(pattern: Seq<char>, text: Seq<char>) -> Seq<
    Seq<Option<Seq<char>>>,
> {
    if is_regex(pattern) {
        all_matches(pattern, text)
    } else {
        seq![]
    }
}

/// The byte offsets of all matches of `pattern` in `text`; none where the
/// pattern is not a regular expression.
pub open spec fn regex_find_iter(pattern: Seq<char>, text: Seq<char>) -> Seq<(usize, usize)> {
    if is_regex(pattern) {
        all_spans(pattern, text)
    } else {
        seq![]
    }
}

/// The view of an optional match.
pub open spec fn match_view(m: Option<Groups>) -> Option<Seq<Option<Seq<char>>>> {
    match m {
        Some(g) => Some(group_views(g@)),
        None => None,
    }
}

/// `Regex::new`: compiles a pattern, if it is a regular expression. The
/// pattern of shebangs is one.
#[verifier::external_body]
fn compile(pattern: &str) -> (regex: Option<Regex>)
    ensures
        match regex {
            Some(r) => is_regex(pattern@) && pattern_of(r) == pattern@,
            None => !is_regex(pattern@),
        },
        pattern@ == scanner::SHEBANG_PATTERN@ ==> regex is Some,
{
    Regex::new(pattern).ok()
}

/// `Regex::captures`: the groups of the leftmost match. What the pattern of
/// shebangs means is stated: it matches a text that starts with `#!` and has a
/// word behind that (`\s` is white space, `\S` all else, and both take as much
/// as they can); its groups are the first word and the second one, if there is
/// one.
#[verifier::external_body]
fn captures(regex: &Regex, text: &str) -> (found: Option<Groups>)
    ensures
        match_view(found) == leftmost_match(pattern_of(*regex), text@),
        pattern_of(*regex) == scanner::SHEBANG_PATTERN@ ==> ({
            let words = scanner::shebang_words(text@);
            match match_view(found) {
                Some(g) => g.len() == 3 && words.len() > 0 && g[1] == Some(words[0]) && g[2]
                    == if words.len() > 1 {
                    Some(words[1])
                } else {
                    None
                },
                None => words.len() == 0,
            }
        }),
{
    let group = |m: Option<regex::Match<'_>>| m.map(|m| m.as_str().to_string());
    Some(regex.captures(text)?.iter().map(group).collect())
}

/// `Regex::captures_iter`: the groups of every match.
#[verifier::external_body]
fn captures_iter(regex: &Regex, text: &str) -> (found: Vec<Groups>)
    ensures
        found@.map_values(|g: Groups| group_views(g@)) == all_matches(pattern_of(*regex), text@),
{
    let group = |m: Option<regex::Match<'_>>| m.map(|m| m.as_str().to_string());
    regex.captures_iter(text).map(|c| c.iter().map(group).collect()).collect()
}

/// `Regex::find_iter`: the byte offsets of every match. They lie within the
/// text and between its characters.
#[verifier::external_body]
fn find_iter(regex: &Regex, text: &str) -> (found: Vec<(usize, usize)>)
    ensures
        found@ == all_spans(pattern_of(*regex), text@),
        forall|i: int|
            0 <= i < found@.len() ==> (#[trigger] found@[i]).0 <= found@[i].1
                && is_char_boundary(encode_utf8(text@), found@[i].0 as int)
                && is_char_boundary(encode_utf8(text@), found@[i].1 as int),
{
    regex.find_iter(text).map(|m| (m.start(), m.end())).collect()
}

/// `str::to_lowercase`. A text of ASCII characters alone has its capitals
/// turned into lower-case letters and is otherwise kept.
#[verifier::external_body]
pub(crate) fn lowercase(text: &str) -> (lower: String)
    ensures
        lower@ == unicode_lower(text@),
        text.is_ascii() ==> lower@ == text::ascii_lower(text@),
{
    text.to_lowercase()
}

/// The groups of the leftmost match of `pattern` in each of `texts`.
pub(crate) fn captures_each(pattern: &str, texts: &Vec<String>) -> (found: Vec<Option<Groups>>)
    ensures
        found@.len() == texts@.len(),
        forall|i: int|
            0 <= i < texts@.len() ==> match_view(#[trigger] found@[i]) == regex_captures(
                pattern@,
                texts@[i]@,
            ),
{
    let regex: Option<Regex> = compile(pattern);
    let mut found: Vec<Option<Groups>> = Vec::new();
    let mut i: usize = 0;
    while i < texts.len()
        invariant
            i <= texts@.len(),
            found@.len() == i,
            match regex {
                Some(r) => is_regex(pattern@) && pattern_of(r) == pattern@,
                None => !is_regex(pattern@),
            },
            forall|j: int|
                0 <= j < i ==> match_view(#[trigger] found@[j]) == regex_captures(
                    pattern@,
                    texts@[j]@,
                ),
        decreases texts@.len() - i,
    {
        let groups: Option<Groups> = match &regex {
            Some(r) => captures(r, texts[i].as_str()),
            None => None,
        };
        found.push(groups);
        i = i + 1;
    }
    found
}

/// The groups of every match of `pattern` in `text`.
pub(crate) fn captures_all(pattern: &str, text: &str) -> (found: Vec<Groups>)
    ensures
        found@.map_values(|g: Groups| group_views(g@)) == regex_captures_iter(pattern@, text@),
{
    match compile(pattern) {
        Some(regex) => captures_iter(&regex, text),
        None => {
            let none: Vec<Groups> = Vec::new();
            assert(none@.map_values(|g: Groups| group_views(g@)) =~= seq![]);
            none
        },
    }
}

/// The byte offsets of every match of `pattern` in `text`. They lie within the
/// text and between its characters.
pub(crate) fn find_all(pattern: &str, text: &str) -> (found: Vec<(usize, usize)>)
    ensures
        found@ == regex_find_iter(pattern@, text@),
        forall|i: int|
            0 <= i < found@.len() ==> (#[trigger] found@[i]).0 <= found@[i].1
                && is_char_boundary(encode_utf8(text@), found@[i].0 as int)
                && is_char_boundary(encode_utf8(text@), found@[i].1 as int),
{
    match compile(pattern) {
        Some(regex) => find_iter(&regex, text),
        None => Vec::new(),
    }
}

/// The byte offsets of every match of `pattern` in each of `texts`.
pub(crate) fn find_each(pattern: &str, texts: &Vec<String>) -> (found: Vec<Vec<(usize, usize)>>)
    ensures
        found@.len() == texts@.len(),
        forall|i: int|
            0 <= i < texts@.len() ==> (#[trigger] found@[i])@ == regex_find_iter(
                pattern@,
                texts@[i]@,
            ),
{
    let regex: Option<Regex> = compile(pattern);
    let mut found: Vec<Vec<(usize, usize)>> = Vec::new();
    let mut i: usize = 0;
    while i < texts.len()
        invariant
            i <= texts@.len(),
            found@.len() == i,
            match regex {
                Some(r) => is_regex(pattern@) && pattern_of(r) == pattern@,
                None => !is_regex(pattern@),
            },
            forall|j: int|
                0 <= j < i ==> (#[trigger] found@[j])@ == regex_find_iter(pattern@, texts@[j]@),
        decreases texts@.len() - i,
    {
        let spans: Vec<(usize, usize)> = match &regex {
            Some(r) => find_iter(r, texts[i].as_str()),
            None => Vec::new(),
        };
        found.push(spans);
        i = i + 1;
    }
    found
}

/// The groups of the leftmost match of `pattern` in `text`.
pub(crate) fn captures_of(pattern: &str, text: &str) -> (found: Option<Groups>)
    ensures
        match_view(found) == regex_captures(pattern@, text@),
        pattern@ == scanner::SHEBANG_PATTERN@ ==> ({
            let words = scanner::shebang_words(text@);
            match match_view(found) {
                Some(g) => g.len() == 3 && words.len() > 0 && g[1] == Some(words[0]) && g[2]
                    == if words.len() > 1 {
                    Some(words[1])
                } else {
                    None
                },
                None => words.len() == 0,
            }
        }),
{
    match compile(pattern) {
        Some(regex) => captures(&regex, text),
        None => None,
    }
}

} // verus!
