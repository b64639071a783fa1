//! Queries of the search box: words to look for, and filters among them.

use vstd::prelude::*;

use crate::ast_deps;
use crate::text;
use crate::text::{chars_of, has_prefix, join_texts, slice_text, words_of};

verus! {

/// A query taken apart.
#[derive(Debug)]
pub struct SearchQuery {
    /// The words to look for.
    pub text: String,
    pub lang: Option<String>,
    pub owner: Option<String>,
    pub tag: Option<String>,
}

/// The value of a query.
pub struct QueryView {
    pub words: Seq<Seq<char>>,
    pub lang: Option<Seq<char>>,
    pub owner: Option<Seq<char>>,
    pub tag: Option<Seq<char>>,
}

/// What stands behind the prefix of a filter word; `None` where the word does
/// not have the prefix or nothing stands behind it.
pub open spec fn filter_value(word: Seq<char>, prefix: Seq<char>) -> Option<Seq<char>> {
    if prefix.is_prefix_of(word) && word.len() > prefix.len() {
        Some(word.skip(prefix.len() as int))
    } else {
        None
    }
}

/// A query after one more word: the last of several filters of a kind holds.
pub open spec fn with_word(q: QueryView, word: Seq<char>) -> QueryView {
    if filter_value(word, "lang:"@) is Some {
        QueryView { lang: filter_value(word, "lang:"@), ..q }
    } else if filter_value(word, "owner:"@) is Some {
        QueryView { owner: filter_value(word, "owner:"@), ..q }
    } else if filter_value(word, "tag:"@) is Some {
        QueryView { tag: filter_value(word, "tag:"@), ..q }
    } else {
        QueryView { words: q.words.push(word), ..q }
    }
}

/// The query that the first `n` words make.
pub open spec fn query_of(words: Seq<Seq<char>>, n: int) -> QueryView
    decreases n,
{
    if n <= 0 {
        QueryView { words: seq![], lang: None, owner: None, tag: None }
    } else {
        with_word(query_of(words, n - 1), words[n - 1])
    }
}

/// What stands behind the prefix of a filter word.
fn value_behind(word: &str, prefix: &str) -> (value: Option<String>)
    ensures
        ast_deps::option_view(value) == filter_value(word@, prefix@),
{
    let v: Vec<char> = chars_of(word);
    let n: usize = chars_of(prefix).len();
    if has_prefix(word, prefix) && v.len() > n {
        assert(v@.subrange(n as int, v@.len() as int) =~= word@.skip(n as int));
        Some(slice_text(&v, n, v.len()))
    } else {
        None
    }
}

/// Takes a query apart: `lang:`, `owner:` and `tag:` words are filters, all
/// others are looked for.
pub fn parse_query(query: &str) -> (q: SearchQuery)
    ensures
        ({
            let all = text::words(query@);
            let view = query_of(all, all.len() as int);
            &&& q.text@ == text::join(view.words, " "@)
            &&& ast_deps::option_view(q.lang) == view.lang
            &&& ast_deps::option_view(q.owner) == view.owner
            &&& ast_deps::option_view(q.tag) == view.tag
        }),
{
    let all: Vec<String> = words_of(query);
    let ghost views = text::words(query@);
    let mut words: Vec<String> = Vec::new();
    let mut lang: Option<String> = None;
    let mut owner: Option<String> = None;
    let mut tag: Option<String> = None;
    let mut i: usize = 0;
    assert(text::views(words@) =~= seq![]);
    while i < all.len()
        invariant
            i <= all@.len(),
            views == text::views(all@),
            query_of(views, i as int) == (QueryView {
                words: text::views(words@),
                lang: ast_deps::option_view(lang),
                owner: ast_deps::option_view(owner),
                tag: ast_deps::option_view(tag),
            }),
        decreases all@.len() - i,
    {
        let word: &str = all[i].as_str();
        assert(views[i as int] == all@[i as int]@);
        let ghost before = text::views(words@);
        let found: Option<String> = value_behind(word, "lang:");
        if found.is_some() {
            lang = found;
        } else {
            let found: Option<String> = value_behind(word, "owner:");
            if found.is_some() {
                owner = found;
            } else {
                let found: Option<String> = value_behind(word, "tag:");
                if found.is_some() {
                    tag = found;
                } else {
                    words.push(all[i].clone());
                    assert(text::views(words@) =~= before.push(views[i as int]));
                }
            }
        }
        i = i + 1;
    }
    SearchQuery { text: join_texts(&words, " "), lang, owner, tag }
}

/// Whether a word is a filter: one of the three kinds, with a value.
pub open spec fn is_filter(word: Seq<char>) -> bool {
    exists|value: Seq<char>|
        value.len() > 0 && (word == #[trigger] ("lang:"@ + value) || word == "owner:"@ + value || word
            == "tag:"@ + value)
}

/// The value of a filter word.
proof fn lemma_filter(prefix: Seq<char>, value: Seq<char>)
    ensures
        value.len() > 0 ==> filter_value(prefix + value, prefix) == Some(value),
{
    assert((prefix + value).take(prefix.len() as int) =~= prefix);
    assert((prefix + value).skip(prefix.len() as int) =~= value);
}

/// A word that starts with one prefix starts with no other.
proof fn lemma_other_filter(prefix: Seq<char>, other: Seq<char>, value: Seq<char>)
    requires
        prefix.len() > 0,
        other.len() > 0,
        prefix[0] != other[0],
    ensures
        filter_value(prefix + value, other) is None,
{
    assert((prefix + value)[0] == prefix[0]);
    if other.is_prefix_of(prefix + value) {
        assert((prefix + value)[0] == other[0]);
    }
}

/// Each word of a query is a filter or is looked for: `lang:`, `owner:` and
/// `tag:` with something behind set the filter of that kind and nothing else,
/// and any other word is looked for behind those before it.
pub proof fn law_each_word_is_a_filter_or_looked_for(
    words: Seq<Seq<char>>,
    value: Seq<char>,
    word: Seq<char>,
)
    requires
        value.len() > 0,
        !is_filter(word),
    ensures
        ({
            let n = words.len() as int;
            let before = query_of(words, n);
            &&& query_of(words.push("lang:"@ + value), n + 1) == (QueryView {
                lang: Some(value),
                ..before
            })
            &&& query_of(words.push("owner:"@ + value), n + 1) == (QueryView {
                owner: Some(value),
                ..before
            })
            &&& query_of(words.push("tag:"@ + value), n + 1) == (QueryView {
                tag: Some(value),
                ..before
            })
            &&& query_of(words.push(word), n + 1) == (QueryView {
                words: before.words.push(word),
                ..before
            })
        }),
        query_of(seq![], 0) == (QueryView { words: seq![], lang: None, owner: None, tag: None }),
{
    reveal_strlit("lang:");
    reveal_strlit("owner:");
    reveal_strlit("tag:");
    let n = words.len() as int;
    lemma_first_words(words, "lang:"@ + value, n);
    lemma_first_words(words, "owner:"@ + value, n);
    lemma_first_words(words, "tag:"@ + value, n);
    lemma_first_words(words, word, n);
    lemma_filter("lang:"@, value);
    lemma_filter("owner:"@, value);
    lemma_filter("tag:"@, value);
    lemma_other_filter("owner:"@, "lang:"@, value);
    lemma_other_filter("tag:"@, "lang:"@, value);
    lemma_other_filter("tag:"@, "owner:"@, value);
    lemma_no_filter(word, "lang:"@);
    lemma_no_filter(word, "owner:"@);
    lemma_no_filter(word, "tag:"@);
}

/// A word that is no filter has no value.
proof fn lemma_no_filter(word: Seq<char>, prefix: Seq<char>)
    requires
        !is_filter(word),
        prefix == "lang:"@ || prefix == "owner:"@ || prefix == "tag:"@,
    ensures
        filter_value(word, prefix) is None,
{
    match filter_value(word, prefix) {
        Some(value) => {
            assert(word =~= prefix + value);
            let other = "lang:"@ + value;
            assert(is_filter(word));
        },
        None => {},
    }
}

/// The first words of a longer query make the same query.
proof fn lemma_first_words(words: Seq<Seq<char>>, word: Seq<char>, n: int)
    requires
        0 <= n <= words.len(),
    ensures
        query_of(words.push(word), n) == query_of(words, n),
    decreases n,
{
    if n > 0 {
        lemma_first_words(words, word, n - 1);
        assert(words.push(word)[n - 1] == words[n - 1]);
    }
}

} // verus!
