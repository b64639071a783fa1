//! Stable sorting by insertion.

use vstd::prelude::*;

use crate::text;
use crate::text::text_before;

verus! {

/// `list` with `x` behind the last item that need not stand after `x`.
pub open spec fn insert_by<T>(list: Seq<T>, x: T, before: spec_fn(T, T) -> bool) -> Seq<T>
    decreases list.len(),
{
    if list.len() > 0 && before(x, list.last()) {
        insert_by(list.drop_last(), x, before).push(list.last())
    } else {
        list.push(x)
    }
}

/// The items of `s` in the order of `before`; items of which neither stands
/// before the other keep their order.
pub open spec fn sort_by<T>(s: Seq<T>, before: spec_fn(T, T) -> bool) -> Seq<T>
    decreases s.len(),
{
    if s.len() == 0 {
        s
    } else {
        insert_by(sort_by(s.drop_last(), before), s.last(), before)
    }
}

/// No item stands before an earlier one.
pub open spec fn in_order<T>(s: Seq<T>, before: spec_fn(T, T) -> bool) -> bool {
    forall|i: int, j: int| 0 <= i < j < s.len() ==> !before(#[trigger] s[j], #[trigger] s[i])
}

/// Where an item is inserted.
pub proof fn lemma_insert_by_at<T>(list: Seq<T>, x: T, before: spec_fn(T, T) -> bool, i: int)
    requires
        0 <= i <= list.len(),
        forall|j: int| i <= j < list.len() ==> before(x, #[trigger] list[j]),
        i > 0 ==> !before(x, list[i - 1]),
    ensures
        insert_by(list, x, before) == list.insert(i, x),
    decreases list.len(),
{
    if i == list.len() {
        assert(list.insert(i, x) =~= list.push(x));
    } else {
        lemma_insert_by_at(list.drop_last(), x, before, i);
        assert(list.insert(i, x) =~= list.drop_last().insert(i, x).push(list.last()));
    }
}

/// Inserting an item adds it and nothing else.
proof fn lemma_insert_by_items<T>(list: Seq<T>, x: T, before: spec_fn(T, T) -> bool)
    ensures
        insert_by(list, x, before).to_multiset() == list.to_multiset().insert(x),
    decreases list.len(),
{
    broadcast use vstd::seq_lib::group_to_multiset_ensures;

    if list.len() > 0 && before(x, list.last()) {
        let rest = list.drop_last();
        lemma_insert_by_items(rest, x, before);
        assert(list =~= rest.push(list.last()));
        assert(insert_by(list, x, before).to_multiset() =~= list.to_multiset().insert(x));
    }
}

/// Inserting an item into items in order leaves them in order.
proof fn lemma_insert_by_order<T>(list: Seq<T>, x: T, before: spec_fn(T, T) -> bool)
    requires
        in_order(list, before),
        forall|a: T, b: T| #[trigger] before(a, b) ==> !before(b, a),
        forall|a: T, b: T, c: T|
            !#[trigger] before(a, b) && !#[trigger] before(b, c) ==> !before(a, c),
    ensures
        in_order(insert_by(list, x, before), before),
        forall|j: int|
            0 <= j < insert_by(list, x, before).len() ==> list.contains(
                #[trigger] insert_by(list, x, before)[j],
            ) || insert_by(list, x, before)[j] == x,
    decreases list.len(),
{
    let r = insert_by(list, x, before);
    if list.len() > 0 && before(x, list.last()) {
        let rest = list.drop_last();
        lemma_insert_by_order(rest, x, before);
        let short = insert_by(rest, x, before);
        assert(r == short.push(list.last()));
        assert forall|j: int| 0 <= j < r.len() implies list.contains(#[trigger] r[j]) || r[j]
            == x by {
            if j < short.len() {
                assert(r[j] == short[j]);
                if rest.contains(short[j]) {
                    let k = choose|k: int| 0 <= k < rest.len() && rest[k] == short[j];
                    assert(list[k] == short[j]);
                }
            } else {
                assert(list[list.len() - 1] == r[j]);
            }
        }
        assert forall|i: int, j: int| 0 <= i < j < r.len() implies !before(
            #[trigger] r[j],
            #[trigger] r[i],
        ) by {
            if j < short.len() {
                assert(r[j] == short[j] && r[i] == short[i]);
            } else {
                assert(r[i] == short[i]);
                if rest.contains(short[i]) {
                    let k = choose|k: int| 0 <= k < rest.len() && rest[k] == short[i];
                    assert(list[k] == short[i]);
                }
            }
        }
    } else {
        assert forall|j: int| 0 <= j < r.len() implies list.contains(#[trigger] r[j]) || r[j]
            == x by {
            if j < list.len() {
                assert(r[j] == list[j]);
            }
        }
        assert forall|i: int, j: int| 0 <= i < j < r.len() implies !before(
            #[trigger] r[j],
            #[trigger] r[i],
        ) by {
            if j == list.len() && i < list.len() - 1 {
                let last = list[list.len() - 1];
                assert(!before(last, list[i]));
                assert(!before(x, last));
            }
        }
    }
}

/// Sorting keeps every item as often as it occurs, and by an order under which
/// of two items at most one stands before the other, and standing at or behind
/// passes on, no item stands before an earlier one afterwards.
pub proof fn law_sorting_orders_the_same_items<T>(s: Seq<T>, before: spec_fn(T, T) -> bool)
    requires
        forall|a: T, b: T| #[trigger] before(a, b) ==> !before(b, a),
        forall|a: T, b: T, c: T|
            !#[trigger] before(a, b) && !#[trigger] before(b, c) ==> !before(a, c),
    ensures
        sort_by(s, before).to_multiset() == s.to_multiset(),
        in_order(sort_by(s, before), before),
    decreases s.len(),
{
    broadcast use vstd::seq_lib::group_to_multiset_ensures;

    if s.len() > 0 {
        let rest = s.drop_last();
        law_sorting_orders_the_same_items(rest, before);
        lemma_insert_by_items(sort_by(rest, before), s.last(), before);
        lemma_insert_by_order(sort_by(rest, before), s.last(), before);
        assert(s =~= rest.push(s.last()));
    }
}

/// The order of texts by their code points.
pub open spec fn text_order() -> spec_fn(Seq<char>, Seq<char>) -> bool {
    |a: Seq<char>, b: Seq<char>| text::text_lt(a, b)
}

/// The texts of `s` in the order of their code points.
pub open spec fn sort_texts(s: Seq<Seq<char>>) -> Seq<Seq<char>> {
    sort_by(s, text_order())
}

/// The order of texts is one by which sorting orders.
pub proof fn lemma_text_order()
    ensures
        forall|a: Seq<char>, b: Seq<char>| #[trigger]
            (text_order())(a, b) ==> !(text_order())(b, a),
        forall|a: Seq<char>, b: Seq<char>, c: Seq<char>|
            !#[trigger] (text_order())(a, b) && !#[trigger] (text_order())(b, c)
                ==> !(text_order())(a, c),
{
    assert forall|a: Seq<char>, b: Seq<char>| #[trigger] (text_order())(a, b) implies !(
    text_order())(b, a) by {
        if text::text_lt(b, a) {
            text::lemma_text_lt_transitive(a, b, a);
            text::lemma_text_lt_irreflexive(a);
        }
    }
    assert forall|a: Seq<char>, b: Seq<char>, c: Seq<char>|
        !#[trigger] (text_order())(a, b) && !#[trigger] (text_order())(b, c) implies !(
    text_order())(a, c) by {
        if text::text_lt(a, c) {
            text::lemma_text_lt_total(a, b);
            text::lemma_text_lt_total(b, c);
            if text::text_lt(c, b) {
                text::lemma_text_lt_transitive(a, c, b);
            }
        }
    }
}

/// Sorting texts keeps every text as often as it occurs, and afterwards none
/// stands before an earlier one.
pub proof fn law_texts_are_sorted(s: Seq<Seq<char>>)
    ensures
        sort_texts(s).to_multiset() == s.to_multiset(),
        in_order(sort_texts(s), text_order()),
{
    lemma_text_order();
    law_sorting_orders_the_same_items(s, text_order());
}

/// Inserts `t` into texts in order.
fn insert_text(list: &mut Vec<String>, t: String)
    ensures
        text::views(final(list)@) == insert_by(text::views(old(list)@), t@, text_order()),
{
    let ghost all = text::views(list@);
    let mut i: usize = list.len();
    while i > 0 && text_before(t.as_str(), list[i - 1].as_str())
        invariant
            i <= list@.len(),
            all == text::views(list@),
            forall|j: int| i <= j < all.len() ==> (text_order())(t@, #[trigger] all[j]),
        decreases i,
    {
        assert(all[i - 1] == list@[i - 1]@);
        i = i - 1;
    }
    proof {
        if i > 0 {
            assert(all[i - 1] == list@[i - 1]@);
        }
        lemma_insert_by_at(all, t@, text_order(), i as int);
    }
    let ghost before = list@;
    list.insert(i, t);
    assert(text::views(list@) =~= all.insert(i as int, t@));
}

/// The texts of `names` in the order of their code points.
pub fn sorted_texts(names: &Vec<String>) -> (sorted: Vec<String>)
    ensures
        text::views(sorted@) == sort_texts(text::views(names@)),
{
    let ghost all = text::views(names@);
    let mut sorted: Vec<String> = Vec::new();
    let mut i: usize = 0;
    assert(all.take(0) =~= seq![]);
    assert(text::views(sorted@) =~= sort_texts(all.take(0)));
    while i < names.len()
        invariant
            i <= names@.len(),
            all == text::views(names@),
            text::views(sorted@) == sort_texts(all.take(i as int)),
        decreases names@.len() - i,
    {
        insert_text(&mut sorted, names[i].clone());
        proof {
            let next = all.take(i + 1);
            assert(next.drop_last() =~= all.take(i as int));
            assert(next.last() == names@[i as int]@);
        }
        i = i + 1;
    }
    assert(all.take(all.len() as int) =~= all);
    sorted
}

} // verus!
