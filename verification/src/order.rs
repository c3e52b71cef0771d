//! Ordering texts, and sorting by them without disturbing equals.

use vstd::prelude::*;

use crate::text;

verus! {

/// `a` comes before `b` in the dictionary, or equals it.
pub open spec fn at_most(a: Seq<char>, b: Seq<char>) -> bool
    decreases a.len(),
{
    if a.len() == 0 {
        true
    } else if b.len() == 0 {
        false
    } else if a[0] != b[0] {
        a[0] < b[0]
    } else {
        at_most(a.drop_first(), b.drop_first())
    }
}

pub proof fn lemma_at_most_total(a: Seq<char>, b: Seq<char>)
    ensures
        at_most(a, b) || at_most(b, a),
        at_most(a, b) && at_most(b, a) ==> a == b,
    decreases a.len(),
{
    if a.len() > 0 && b.len() > 0 && a[0] == b[0] {
        lemma_at_most_total(a.drop_first(), b.drop_first());
        if at_most(a, b) && at_most(b, a) {
            assert(a =~= seq![a[0]] + a.drop_first());
            assert(b =~= seq![b[0]] + b.drop_first());
        }
    } else if a.len() == 0 && b.len() == 0 {
        assert(a =~= b);
    }
}

pub proof fn lemma_at_most_reflexive(a: Seq<char>)
    ensures
        at_most(a, a),
    decreases a.len(),
{
    if a.len() > 0 {
        lemma_at_most_reflexive(a.drop_first());
    }
}

pub proof fn lemma_at_most_transitive(a: Seq<char>, b: Seq<char>, c: Seq<char>)
    requires
        at_most(a, b),
        at_most(b, c),
    ensures
        at_most(a, c),
    decreases a.len(),
{
    if a.len() > 0 && b.len() > 0 && c.len() > 0 && a[0] == b[0] && b[0] == c[0] {
        lemma_at_most_transitive(a.drop_first(), b.drop_first(), c.drop_first());
    }
}

/// Whether `a` comes before `b` in the dictionary, or equals it.
pub fn not_after(a: &str, b: &str) -> (r: bool)
    ensures
        r == at_most(a@, b@),
{
    let x = text::chars_of(a);
    let y = text::chars_of(b);
    let mut i: usize = 0;
    assert(x@.skip(0) =~= x@);
    assert(y@.skip(0) =~= y@);
    while i < x.len() && i < y.len()
        invariant
            x@ == a@,
            y@ == b@,
            i <= x@.len(),
            i <= y@.len(),
            at_most(a@, b@) == at_most(x@.skip(i as int), y@.skip(i as int)),
        decreases x@.len() - i,
    {
        if x[i] != y[i] {
            return x[i] < y[i];
        }
        assert(x@.skip(i as int).drop_first() =~= x@.skip(i + 1));
        assert(y@.skip(i as int).drop_first() =~= y@.skip(i + 1));
        i += 1;
    }
    i == x.len()
}

/// The item `i` comes before the item `j`: by its key, or by its place where
/// the keys are equal.
pub open spec fn precedes(keys: Seq<Seq<char>>, i: int, j: int) -> bool {
    at_most(keys[i], keys[j]) && (keys[i] == keys[j] ==> i < j)
}

/// `order` lists the places of all items, each once, sorted by key; items with
/// equal keys keep their order.
pub open spec fn sorts(keys: Seq<Seq<char>>, order: Seq<int>) -> bool {
    &&& order.len() == keys.len()
    &&& forall|i: int| 0 <= i < order.len() ==> 0 <= #[trigger] order[i] < keys.len()
    &&& forall|i: int, j: int|
        0 <= i < j < order.len() ==> precedes(keys, #[trigger] order[i], #[trigger] order[j])
}

/// The places of the items in the order of their keys.
pub open spec fn places(keys: Seq<Seq<char>>) -> Seq<int> {
    choose|order: Seq<int>| sorts(keys, order)
}

/// `list` in the order of the items' keys.
pub open spec fn arranged<T>(list: Seq<T>, keys: Seq<Seq<char>>) -> Seq<T> {
    Seq::new(keys.len(), |i: int| list[places(keys)[i]])
}

/// Texts in the order of the dictionary.
pub open spec fn sorted(keys: Seq<Seq<char>>) -> Seq<Seq<char>> {
    arranged(keys, keys)
}

/// What a list of places holds.
pub open spec fn places_view(order: Seq<usize>) -> Seq<int> {
    Seq::new(order.len(), |i: int| order[i] as int)
}

proof fn lemma_inserted(keys: Seq<Seq<char>>, before: Seq<int>, at: int)
    requires
        keys.len() > 0,
        sorts(keys.drop_last(), before),
        0 <= at <= before.len(),
        forall|i: int| at <= i < before.len() ==> !at_most(keys[#[trigger] before[i]], keys.last()),
        at > 0 ==> at_most(keys[before[at - 1]], keys.last()),
    ensures
        sorts(keys, before.insert(at, keys.len() - 1)),
{
    let k = keys.len() - 1;
    let order = before.insert(at, k);
    let fewer = keys.drop_last();
    assert forall|i: int| 0 <= i < order.len() implies 0 <= #[trigger] order[i] < keys.len() by {
        if i < at {
            assert(order[i] == before[i]);
        } else if i > at {
            assert(order[i] == before[i - 1]);
        }
    }
    assert forall|i: int, j: int| 0 <= i < j < order.len() implies precedes(
        keys,
        #[trigger] order[i],
        #[trigger] order[j],
    ) by {
        if j < at {
            assert(order[i] == before[i] && order[j] == before[j]);
            assert(precedes(fewer, before[i], before[j]));
        } else if j == at {
            assert(order[i] == before[i]);
            let top = before[at - 1];
            if i < at - 1 {
                assert(precedes(fewer, before[i], top));
                lemma_at_most_transitive(keys[before[i]], keys[top], keys[k]);
            }
        } else if i == at {
            assert(order[j] == before[j - 1]);
            lemma_at_most_total(keys[k], keys[before[j - 1]]);
        } else {
            let p = if i < at {
                i
            } else {
                i - 1
            };
            assert(order[i] == before[p] && order[j] == before[j - 1]);
            assert(precedes(fewer, before[p], before[j - 1]));
        }
    }
}

proof fn lemma_insertable(keys: Seq<Seq<char>>, before: Seq<int>, at: int)
    requires
        keys.len() > 0,
        sorts(keys.drop_last(), before),
        0 <= at <= before.len(),
        forall|i: int| at <= i < before.len() ==> !at_most(keys[#[trigger] before[i]], keys.last()),
    ensures
        exists|order: Seq<int>| sorts(keys, order),
    decreases at,
{
    if at == 0 || at_most(keys[before[at - 1]], keys.last()) {
        lemma_inserted(keys, before, at);
    } else {
        lemma_insertable(keys, before, at - 1);
    }
}

/// Every list can be sorted.
pub proof fn lemma_places(keys: Seq<Seq<char>>)
    ensures
        sorts(keys, places(keys)),
    decreases keys.len(),
{
    if keys.len() == 0 {
        assert(sorts(keys, Seq::<int>::empty()));
    } else {
        lemma_places(keys.drop_last());
        let before = places(keys.drop_last());
        lemma_insertable(keys, before, before.len() as int);
    }
}

/// The places of the items in the order of their keys.
pub fn sorted_places(keys: &Vec<String>) -> (order: Vec<usize>)
    ensures
        places_view(order@) == places(text::texts(keys@)),
        sorts(text::texts(keys@), places_view(order@)),
{
    let ghost all = text::texts(keys@);
    let mut order: Vec<usize> = Vec::new();
    let mut k: usize = 0;
    while k < keys.len()
        invariant
            k <= keys@.len(),
            all == text::texts(keys@),
            sorts(all.take(k as int), places_view(order@)),
        decreases keys@.len() - k,
    {
        let ghost known = all.take(k + 1);
        let ghost before = places_view(order@);
        assert(known.drop_last() =~= all.take(k as int));
        assert forall|i: int| 0 <= i < order@.len() implies #[trigger] order@[i] < k by {
            assert(0 <= before[i] < k);
        }
        let mut at: usize = order.len();
        while at > 0 && !not_after(keys[order[at - 1]].as_str(), keys[k].as_str())
            invariant
                at <= order@.len(),
                k < keys@.len(),
                all == text::texts(keys@),
                known == all.take(k + 1),
                before == places_view(order@),
                sorts(known.drop_last(), before),
                forall|i: int| 0 <= i < order@.len() ==> #[trigger] order@[i] < k,
                forall|i: int|
                    at <= i < before.len() ==> !at_most(known[#[trigger] before[i]], known.last()),
            decreases at,
        {
            assert(0 <= before[at - 1] < k);
            at -= 1;
        }
        proof {
            if at > 0 {
                assert(0 <= before[at - 1] < k);
            }
            lemma_inserted(known, before, at as int);
        }
        order.insert(at, k);
        assert(places_view(order@) =~= before.insert(at as int, k as int));
        k += 1;
    }
    assert(all.take(k as int) =~= all);
    proof {
        lemma_places(all);
        law_order_is_unique(all, places_view(order@), places(all));
    }
    order
}

/// The texts in the order of the dictionary.
pub fn sort(list: &Vec<String>) -> (r: Vec<String>)
    ensures
        text::texts(r@) == sorted(text::texts(list@)),
{
    let ghost all = text::texts(list@);
    let order = sorted_places(list);
    let mut out: Vec<String> = Vec::new();
    let mut i: usize = 0;
    while i < order.len()
        invariant
            i <= order@.len(),
            all == text::texts(list@),
            places_view(order@) == places(all),
            sorts(all, places_view(order@)),
            out@.len() == i,
            forall|k: int| 0 <= k < i ==> #[trigger] out@[k]@ == sorted(all)[k],
        decreases order@.len() - i,
    {
        assert(0 <= places_view(order@)[i as int] < all.len());
        out.push(list[order[i]].clone());
        i += 1;
    }
    assert(text::texts(out@) =~= sorted(all));
    out
}

/// Sorting leaves no item out.
pub proof fn lemma_place_listed(keys: Seq<Seq<char>>, order: Seq<int>, place: int)
    requires
        sorts(keys, order),
        0 <= place < keys.len(),
    ensures
        exists|i: int| 0 <= i < order.len() && #[trigger] order[i] == place,
{
    assert forall|i: int, j: int|
        0 <= i < order.len() && 0 <= j < order.len() && i != j implies order[i] != order[j] by {
        if i < j {
            assert(precedes(keys, order[i], order[j]));
        } else {
            assert(precedes(keys, order[j], order[i]));
        }
    }
    order.unique_seq_to_set();
    let all = vstd::set_lib::set_int_range(0, keys.len() as int);
    vstd::set_lib::lemma_int_range(0, keys.len() as int);
    assert(order.to_set().subset_of(all)) by {
        assert forall|x: int| order.to_set().contains(x) implies all.contains(x) by {
            let i = choose|i: int| 0 <= i < order.len() && order[i] == x;
            assert(order[i] < keys.len());
        }
    }
    vstd::set_lib::lemma_len_subset(order.to_set(), all);
    vstd::set_lib::lemma_subset_equality(order.to_set(), all);
    assert(order.to_set().contains(place));
}

/// There is one way only to sort a list.
pub proof fn law_order_is_unique(keys: Seq<Seq<char>>, a: Seq<int>, b: Seq<int>)
    requires
        sorts(keys, a),
        sorts(keys, b),
    ensures
        a == b,
{
    lemma_orders_agree(keys, a, b, a.len() as int);
    assert(a =~= b);
}

proof fn lemma_orders_agree(keys: Seq<Seq<char>>, a: Seq<int>, b: Seq<int>, n: int)
    requires
        sorts(keys, a),
        sorts(keys, b),
        0 <= n <= a.len(),
    ensures
        forall|i: int| 0 <= i < n ==> #[trigger] a[i] == b[i],
    decreases n,
{
    if n > 0 {
        let k = n - 1;
        lemma_orders_agree(keys, a, b, k);
        if a[k] != b[k] {
            lemma_place_listed(keys, b, a[k]);
            lemma_place_listed(keys, a, b[k]);
            let j = choose|i: int| 0 <= i < b.len() && #[trigger] b[i] == a[k];
            let m = choose|i: int| 0 <= i < a.len() && #[trigger] a[i] == b[k];
            if j < k {
                assert(a[j] == b[j]);
                assert(precedes(keys, a[j], a[k]));
            } else if m < k {
                assert(a[m] == b[m]);
                assert(precedes(keys, b[m], b[k]));
            } else {
                assert(precedes(keys, b[k], b[j]));
                assert(precedes(keys, a[k], a[m]));
                lemma_at_most_total(keys[a[k]], keys[b[k]]);
            }
        }
    }
}

/// The items in the order that `order` gives.
spec fn picked<T>(list: Seq<T>, order: Seq<int>) -> Seq<T> {
    Seq::new(order.len(), |i: int| list[order[i]])
}

proof fn lemma_picked<T>(list: Seq<T>, keys: Seq<Seq<char>>, order: Seq<int>)
    requires
        sorts(keys, order),
        list.len() == keys.len(),
    ensures
        picked(list, order).to_multiset() == list.to_multiset(),
    decreases keys.len(),
{
    broadcast use vstd::seq_lib::group_to_multiset_ensures;
    broadcast use vstd::multiset::group_multiset_axioms;

    if keys.len() == 0 {
        assert(picked(list, order) =~= list);
    } else {
        let last = keys.len() - 1;
        lemma_place_listed(keys, order, last);
        let p = choose|i: int| 0 <= i < order.len() && #[trigger] order[i] == last;
        let fewer_keys = keys.drop_last();
        let fewer = list.drop_last();
        let rest = order.remove(p);
        assert(sorts(fewer_keys, rest)) by {
            assert forall|i: int| 0 <= i < rest.len() implies 0 <= #[trigger] rest[i]
                < fewer_keys.len() by {
                let q = if i < p {
                    i
                } else {
                    i + 1
                };
                assert(rest[i] == order[q]);
                if q < p {
                    assert(precedes(keys, order[q], order[p]));
                } else {
                    assert(precedes(keys, order[p], order[q]));
                }
            }
            assert forall|i: int, j: int| 0 <= i < j < rest.len() implies precedes(
                fewer_keys,
                #[trigger] rest[i],
                #[trigger] rest[j],
            ) by {
                let qi = if i < p {
                    i
                } else {
                    i + 1
                };
                let qj = if j < p {
                    j
                } else {
                    j + 1
                };
                assert(rest[i] == order[qi] && rest[j] == order[qj]);
                assert(precedes(keys, order[qi], order[qj]));
            }
        }
        lemma_picked(fewer, fewer_keys, rest);
        let all = picked(list, order);
        assert(all.remove(p) =~= picked(fewer, rest)) by {
            assert forall|i: int| 0 <= i < rest.len() implies all.remove(p)[i] == picked(
                fewer,
                rest,
            )[i] by {
                assert(0 <= rest[i] < fewer.len());
            }
        }
        vstd::seq_lib::to_multiset_remove(all, p);
        assert(fewer.push(list.last()) =~= list);
        vstd::seq_lib::to_multiset_build(fewer, list.last());
        assert(all[p] == list.last());
        let m = all.to_multiset();
        assert(all.contains(list.last()));
        assert(m.count(list.last()) > 0);
        assert(m =~= m.remove(list.last()).insert(list.last()));
    }
}

/// Arranging items by their keys changes their order and nothing else.
pub proof fn law_arranging_keeps_items<T>(list: Seq<T>, keys: Seq<Seq<char>>)
    requires
        list.len() == keys.len(),
    ensures
        arranged(list, keys).to_multiset() == list.to_multiset(),
{
    lemma_places(keys);
    lemma_picked(list, keys, places(keys));
    assert(arranged(list, keys) =~= picked(list, places(keys)));
}

/// Sorting changes the order of the texts and nothing else.
pub proof fn law_sorting_keeps_texts(keys: Seq<Seq<char>>)
    ensures
        sorted(keys).to_multiset() == keys.to_multiset(),
        forall|i: int, j: int|
            0 <= i < j < sorted(keys).len() ==> at_most(
                #[trigger] sorted(keys)[i],
                #[trigger] sorted(keys)[j],
            ),
{
    lemma_places(keys);
    law_arranging_keeps_items(keys, keys);
    assert forall|i: int, j: int| 0 <= i < j < sorted(keys).len() implies at_most(
        #[trigger] sorted(keys)[i],
        #[trigger] sorted(keys)[j],
    ) by {
        assert(precedes(keys, places(keys)[i], places(keys)[j]));
    }
}

/// The same texts are sorted into the same list, in whatever order they come.
pub proof fn law_sorting_forgets_the_order(keys: Seq<Seq<char>>, others: Seq<Seq<char>>)
    requires
        keys.to_multiset() == others.to_multiset(),
    ensures
        sorted(keys) == sorted(others),
{
    let leq = |a: Seq<char>, b: Seq<char>| at_most(a, b);
    law_sorting_keeps_texts(keys);
    law_sorting_keeps_texts(others);
    assert(vstd::relations::total_ordering(leq)) by {
        assert forall|a: Seq<char>| #[trigger] leq(a, a) by {
            lemma_at_most_reflexive(a);
        }
        assert forall|a: Seq<char>, b: Seq<char>| #[trigger]
            leq(a, b) && #[trigger] leq(b, a) implies a == b by {
            lemma_at_most_total(a, b);
        }
        assert forall|a: Seq<char>, b: Seq<char>, c: Seq<char>| #[trigger]
            leq(a, b) && #[trigger] leq(b, c) implies leq(a, c) by {
            lemma_at_most_transitive(a, b, c);
        }
        assert forall|a: Seq<char>, b: Seq<char>| #[trigger] leq(a, b) || leq(b, a) by {
            lemma_at_most_total(a, b);
        }
    }
    vstd::seq_lib::lemma_sorted_unique(sorted(keys), sorted(others), leq);
}

/// Texts are ordered as in a dictionary: the first character in which they
/// differ decides, and a text comes before its continuations.
pub proof fn law_dictionary_order(head: Seq<char>, a: Seq<char>, b: Seq<char>)
    ensures
        at_most(head, head + a),
        a.len() > 0 ==> !at_most(head + a, head),
        a.len() > 0 && b.len() > 0 && a[0] < b[0] ==> at_most(head + a, head + b) && !at_most(
            head + b,
            head + a,
        ),
    decreases head.len(),
{
    if head.len() == 0 {
        assert(head + a =~= a);
        assert(head + b =~= b);
    } else {
        law_dictionary_order(head.drop_first(), a, b);
        assert((head + a).drop_first() =~= head.drop_first() + a);
        assert((head + b).drop_first() =~= head.drop_first() + b);
    }
}

/// Items with the same key stay in the order in which they came; items with
/// different keys stand in the order of the keys.
pub proof fn law_arranged_order<T>(list: Seq<T>, keys: Seq<Seq<char>>, i: int, j: int)
    requires
        list.len() == keys.len(),
        0 <= i < j < list.len(),
    ensures
        exists|p: int, q: int|
            0 <= p < list.len() && 0 <= q < list.len() && p != q && arranged(list, keys)[i]
                == #[trigger] list[p] && arranged(list, keys)[j] == #[trigger] list[q] && at_most(
                keys[p],
                keys[q],
            ) && (keys[p] == keys[q] ==> p < q),
{
    lemma_places(keys);
    let p = places(keys)[i];
    let q = places(keys)[j];
    assert(precedes(keys, p, q));
    assert(arranged(list, keys)[i] == list[p] && arranged(list, keys)[j] == list[q]);
    if p == q {
        assert(keys[p] == keys[q] ==> p < q);
    }
}

/// A sorted list rises, and holds what the list held.
pub proof fn law_sorted_lists_rise(list: &Vec<String>, r: Vec<String>, i: int, j: int)
    requires
        call_ensures(sort, (list,), r),
        0 <= i <= j < list@.len(),
    ensures
        r@.len() == list@.len(),
        at_most(r@[i]@, r@[j]@),
        text::texts(r@).to_multiset() == text::texts(list@).to_multiset(),
{
    let all = text::texts(list@);
    lemma_places(all);
    law_sorting_keeps_texts(all);
    assert(text::texts(r@).len() == r@.len());
    assert(text::texts(r@)[i] == r@[i]@);
    assert(text::texts(r@)[j] == r@[j]@);
    let places = places(all);
    assert(sorted(all)[i] == all[places[i]]);
    assert(sorted(all)[j] == all[places[j]]);
    if i == j {
        lemma_at_most_reflexive(all[places[i]]);
    } else {
        assert(precedes(all, places[i], places[j]));
        lemma_at_most_reflexive(all[places[i]]);
    }
}

} // verus!
