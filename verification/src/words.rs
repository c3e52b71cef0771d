//! Splitting texts into pieces and joining pieces into texts.

use vstd::prelude::*;

use crate::text;

verus! {

broadcast use crate::text::lemma_texts_push;

/// The pieces of `s` between the characters `stops`, empty ones included.
pub open spec fn pieces(s: Seq<char>, stops: Seq<char>) -> Seq<Seq<char>>
    decreases s.len(),
{
    if s.len() == 0 {
        seq![Seq::<char>::empty()]
    } else {
        let before = pieces(s.drop_last(), stops);
        if stops.contains(s.last()) {
            before.push(Seq::<char>::empty())
        } else {
            before.drop_last().push(before.last().push(s.last()))
        }
    }
}

/// The maximal runs of `s` without white space.
pub open spec fn words(s: Seq<char>) -> Seq<Seq<char>>
    decreases s.len(),
{
    if s.len() == 0 {
        Seq::empty()
    } else {
        let before = words(s.drop_last());
        if text::is_space(s.last()) {
            before
        } else if s.len() > 1 && !text::is_space(s[s.len() - 2]) {
            before.drop_last().push(before.last().push(s.last()))
        } else {
            before.push(seq![s.last()])
        }
    }
}

/// A text that ends in another character than white space has a word.
proof fn lemma_words_some(s: Seq<char>)
    requires
        s.len() > 0,
        !text::is_space(s.last()),
    ensures
        words(s).len() > 0,
    decreases s.len(),
{
}

/// The texts of `list` with `sep` between each two.
pub open spec fn joined(list: Seq<Seq<char>>, sep: Seq<char>) -> Seq<char>
    decreases list.len(),
{
    if list.len() == 0 {
        Seq::empty()
    } else if list.len() == 1 {
        list[0]
    } else {
        joined(list.drop_last(), sep) + sep + list.last()
    }
}

/// The texts of `list` one after the other.
pub open spec fn concatenated(list: Seq<Seq<char>>) -> Seq<char>
    decreases list.len(),
{
    if list.len() == 0 {
        Seq::empty()
    } else {
        concatenated(list.drop_last()) + list.last()
    }
}

/// `s` with one space for every run of white space and none around it.
pub open spec fn squeezed(s: Seq<char>) -> Seq<char> {
    joined(words(s), seq![' '])
}

/// The pieces of `s` between the characters `stops`, empty ones included.
pub fn split(s: &str, stops: &[char]) -> (r: Vec<String>)
    ensures
        text::texts(r@) == pieces(s@, stops@),
        r@.len() > 0,
{
    let v = text::chars_of(s);
    let mut out: Vec<String> = Vec::new();
    out.push(String::new());
    let mut i: usize = 0;
    assert(text::texts(out@) =~= pieces(v@.take(0), stops@));
    while i < v.len()
        invariant
            i <= v@.len(),
            out@.len() > 0,
            text::texts(out@) == pieces(v@.take(i as int), stops@),
        decreases v@.len() - i,
    {
        let c: char = v[i];
        assert(v@.take(i + 1).drop_last() =~= v@.take(i as int));
        if text::one_of(stops, c) {
            out.push(String::new());
        } else {
            let ghost before = out@;
            let mut last = match out.pop() {
                Some(last) => last,
                None => String::new(),
            };
            last.push(c);
            assert(text::texts(out@) =~= text::texts(before).drop_last());
            out.push(last);
        }
        i += 1;
    }
    assert(v@.take(i as int) =~= v@);
    out
}

/// The first piece of `s` before any of the characters `stops`.
pub fn first_piece(s: &str, stops: &[char]) -> (r: String)
    ensures
        r@ == pieces(s@, stops@).first(),
{
    let list = split(s, stops);
    assert(text::texts(list@)[0] == list@[0]@);
    list[0].clone()
}

/// The last piece of `s`, after the last of the characters `stops`.
pub fn last_piece(s: &str, stops: &[char]) -> (r: String)
    ensures
        r@ == pieces(s@, stops@).last(),
{
    let list = split(s, stops);
    let last: usize = list.len() - 1;
    assert(text::texts(list@)[last as int] == list@[last as int]@);
    list[last].clone()
}

/// What stands before the last `c` in `s`, if there is a `c`.
pub open spec fn before_last(s: Seq<char>, c: char) -> Option<Seq<char>>
    decreases s.len(),
{
    if s.len() == 0 {
        None
    } else if s.last() == c {
        Some(s.drop_last())
    } else {
        before_last(s.drop_last(), c)
    }
}

/// What stands before the last `c` in `s`, if there is a `c`.
pub fn stem(s: &str, c: char) -> (r: Option<String>)
    ensures
        text::text_in(r) == before_last(s@, c),
{
    let v = text::chars_of(s);
    let mut to: usize = v.len();
    assert(v@.take(to as int) =~= v@);
    while 0 < to
        invariant
            v@ == s@,
            to <= v@.len(),
            before_last(v@, c) == before_last(v@.take(to as int), c),
        decreases to,
    {
        assert(v@.take(to as int).drop_last() =~= v@.take(to - 1));
        if v[to - 1] == c {
            return Some(text::slice_text(&v, 0, to - 1));
        }
        to -= 1;
    }
    None
}

/// The maximal runs of `s` without white space.
pub fn split_words(s: &str) -> (r: Vec<String>)
    ensures
        text::texts(r@) == words(s@),
{
    let v = text::chars_of(s);
    let mut out: Vec<String> = Vec::new();
    let mut i: usize = 0;
    assert(text::texts(out@) =~= words(v@.take(0)));
    while i < v.len()
        invariant
            i <= v@.len(),
            text::texts(out@) == words(v@.take(i as int)),
        decreases v@.len() - i,
    {
        let c: char = v[i];
        assert(v@.take(i + 1).drop_last() =~= v@.take(i as int));
        if !text::space(c) {
            if i > 0 && !text::space(v[i - 1]) {
                proof {
                    lemma_words_some(v@.take(i as int));
                }
                assert(text::texts(out@).len() > 0);
                let ghost before = out@;
                let mut last = match out.pop() {
                    Some(last) => last,
                    None => String::new(),
                };
                last.push(c);
                assert(text::texts(out@) =~= text::texts(before).drop_last());
                out.push(last);
            } else {
                let mut word = String::new();
                word.push(c);
                assert(word@ =~= seq![c]);
                out.push(word);
            }
        }
        i += 1;
    }
    assert(v@.take(i as int) =~= v@);
    out
}

/// The texts of `list` with `sep` between each two.
pub fn join(list: &Vec<String>, sep: &str) -> (r: String)
    ensures
        r@ == joined(text::texts(list@), sep@),
{
    if list.len() == 0 {
        return String::new();
    }
    let ghost all = text::texts(list@);
    let mut out = list[0].clone();
    let mut i: usize = 1;
    assert(all.take(1)[0] == out@);
    while i < list.len()
        invariant
            1 <= i <= list@.len(),
            all == text::texts(list@),
            out@ == joined(all.take(i as int), sep@),
        decreases list@.len() - i,
    {
        out.append(sep);
        out.append(list[i].as_str());
        assert(all.take(i + 1).drop_last() =~= all.take(i as int));
        i += 1;
    }
    assert(all.take(i as int) =~= all);
    out
}

/// The texts of `list` one after the other.
pub fn concat(list: &Vec<String>) -> (r: String)
    ensures
        r@ == concatenated(text::texts(list@)),
{
    let ghost all = text::texts(list@);
    let mut out = String::new();
    let mut i: usize = 0;
    while i < list.len()
        invariant
            i <= list@.len(),
            all == text::texts(list@),
            out@ == concatenated(all.take(i as int)),
        decreases list@.len() - i,
    {
        out.append(list[i].as_str());
        assert(all.take(i + 1).drop_last() =~= all.take(i as int));
        i += 1;
    }
    assert(all.take(i as int) =~= all);
    out
}

/// `s` with one space for every run of white space and none around it.
pub fn squeeze(s: &str) -> (r: String)
    ensures
        r@ == squeezed(s@),
{
    let list = split_words(s);
    let r = join(&list, " ");
    proof {
        reveal_strlit(" ");
        assert(" "@ =~= seq![' ']);
    }
    r
}

/// A squeezed text that is not empty.
pub open spec fn squeezed_text(s: Seq<char>) -> Option<Seq<char>> {
    if squeezed(s).len() == 0 {
        None
    } else {
        Some(squeezed(s))
    }
}

/// The squeezed text, unless it is empty.
pub fn squeeze_some(s: &str) -> (r: Option<String>)
    ensures
        text::text_in(r) == squeezed_text(s@),
{
    let r = squeeze(s);
    if r.as_str().is_empty() {
        None
    } else {
        Some(r)
    }
}

// ---- laws -------------------------------------------------------------------------

/// A word: not empty, and without white space.
pub open spec fn is_word(s: Seq<char>) -> bool {
    s.len() > 0 && forall|i: int| 0 <= i < s.len() ==> !text::is_space(#[trigger] s[i])
}

/// All of the texts are words.
pub open spec fn all_words(list: Seq<Seq<char>>) -> bool {
    forall|i: int| 0 <= i < list.len() ==> is_word(#[trigger] list[i])
}

/// Splitting yields words only.
pub proof fn law_words_are_words(s: Seq<char>)
    ensures
        all_words(words(s)),
    decreases s.len(),
{
    if s.len() > 0 {
        let front = s.drop_last();
        law_words_are_words(front);
        if !text::is_space(s.last()) && s.len() > 1 && !text::is_space(s[s.len() - 2]) {
            lemma_words_some(front);
            let before = words(front);
            assert(is_word(before[before.len() - 1]));
            let longer = before.last().push(s.last());
            assert(is_word(longer));
            assert forall|i: int| 0 <= i < words(s).len() implies is_word(
                #[trigger] words(s)[i],
            ) by {
                if i < before.len() - 1 {
                    assert(words(s)[i] == before[i]);
                }
            }
        }
    }
}

proof fn lemma_words_of_word(w: Seq<char>)
    requires
        is_word(w),
    ensures
        words(w) == seq![w],
    decreases w.len(),
{
    if w.len() == 1 {
        assert(words(w.drop_last()) =~= Seq::<Seq<char>>::empty());
        assert(seq![w.last()] =~= w);
        assert(words(w) =~= seq![w]);
    } else {
        let front = w.drop_last();
        assert(forall|i: int| 0 <= i < front.len() ==> front[i] == w[i]);
        lemma_words_of_word(front);
        assert(front.push(w.last()) =~= w);
        assert(!text::is_space(w[w.len() - 2]));
        assert(words(w) =~= seq![w]);
    }
}

proof fn lemma_words_after_space(a: Seq<char>, w: Seq<char>)
    requires
        is_word(w),
    ensures
        words(a + seq![' '] + w) == words(a).push(w),
    decreases w.len(),
{
    let whole = a + seq![' '] + w;
    let front = w.drop_last();
    assert(whole.drop_last() =~= a + seq![' '] + front);
    assert(whole.last() == w.last());
    if w.len() == 1 {
        let spaced = a + seq![' '];
        assert(whole.drop_last() =~= spaced);
        assert(spaced.drop_last() =~= a);
        assert(text::is_space(spaced.last()));
        assert(words(spaced) == words(a));
        assert(whole[whole.len() - 2] == ' ');
        assert(!text::is_space(w[0]));
        assert(seq![w.last()] =~= w);
        assert(words(whole) == words(a).push(w));
    } else {
        assert(forall|i: int| 0 <= i < front.len() ==> front[i] == w[i]);
        lemma_words_after_space(a, front);
        assert(whole[whole.len() - 2] == w[w.len() - 2]);
        assert(!text::is_space(w[w.len() - 2]) && !text::is_space(w[w.len() - 1]));
        assert(words(a).push(front).drop_last() =~= words(a));
        assert(words(a).push(front).last() == front);
        assert(front.push(w.last()) =~= w);
        assert(words(whole) == words(a).push(w));
    }
}

proof fn lemma_words_of_joined(list: Seq<Seq<char>>)
    requires
        all_words(list),
    ensures
        words(joined(list, seq![' '])) == list,
    decreases list.len(),
{
    if list.len() == 0 {
        assert(words(joined(list, seq![' '])) =~= list);
    } else if list.len() == 1 {
        assert(is_word(list[0]));
        lemma_words_of_word(list[0]);
        assert(seq![list[0]] =~= list);
    } else {
        let front = list.drop_last();
        assert(forall|i: int| 0 <= i < front.len() ==> front[i] == list[i]);
        lemma_words_of_joined(front);
        assert(is_word(list[list.len() - 1]));
        lemma_words_after_space(joined(front, seq![' ']), list.last());
        assert(front.push(list.last()) =~= list);
    }
}

/// A squeezed text has the same words, and squeezing it again changes nothing.
pub proof fn law_squeezing_is_final(s: Seq<char>)
    ensures
        words(squeezed(s)) == words(s),
        squeezed(squeezed(s)) == squeezed(s),
{
    law_words_are_words(s);
    lemma_words_of_joined(words(s));
}

/// Whether white space at `i` is one space between two other characters.
spec fn spaced_at(s: Seq<char>, i: int) -> bool {
    text::is_space(s[i]) ==> s[i] == ' ' && 0 < i < s.len() - 1 && !text::is_space(s[i + 1])
}

/// Whether all white space is single, and none stands at an end.
spec fn well_spaced(s: Seq<char>) -> bool {
    &&& s.len() > 0
    &&& !text::is_space(s[0])
    &&& !text::is_space(s[s.len() - 1])
    &&& forall|i: int| 0 <= i < s.len() ==> #[trigger] spaced_at(s, i)
}

proof fn lemma_word_spacing(w: Seq<char>)
    requires
        is_word(w),
    ensures
        well_spaced(w),
{
    assert(!text::is_space(w[0]));
    assert(!text::is_space(w[w.len() - 1]));
}

proof fn lemma_spacing_step(head: Seq<char>, w: Seq<char>)
    requires
        well_spaced(head),
        is_word(w),
    ensures
        well_spaced(head + seq![' '] + w),
{
    let s = head + seq![' '] + w;
    assert(s[0] == head[0]);
    assert(s[s.len() - 1] == w[w.len() - 1]);
    assert(!text::is_space(w[w.len() - 1]));
    assert forall|i: int| 0 <= i < s.len() implies #[trigger] spaced_at(s, i) by {
        if i < head.len() {
            assert(spaced_at(head, i));
            assert(s[i] == head[i]);
            if i + 1 < head.len() {
                assert(s[i + 1] == head[i + 1]);
            }
        } else if i == head.len() {
            assert(s[i] == ' ');
            assert(s[i + 1] == w[0]);
            assert(!text::is_space(w[0]));
        } else {
            let j = i - head.len() - 1;
            assert(s[i] == w[j]);
            assert(!text::is_space(w[j]));
        }
    }
}

proof fn lemma_well_spaced(list: Seq<Seq<char>>)
    requires
        all_words(list),
    ensures
        list.len() > 0 ==> well_spaced(joined(list, seq![' '])),
        list.len() == 0 ==> joined(list, seq![' ']).len() == 0,
    decreases list.len(),
{
    if list.len() == 1 {
        lemma_word_spacing(list[0]);
    } else if list.len() > 1 {
        let front = list.drop_last();
        assert(all_words(front)) by {
            assert forall|i: int| 0 <= i < front.len() implies is_word(#[trigger] front[i]) by {
                assert(front[i] == list[i]);
            }
        }
        lemma_well_spaced(front);
        assert(is_word(list[list.len() - 1]));
        lemma_spacing_step(joined(front, seq![' ']), list.last());
    }
}

proof fn lemma_spacing(list: Seq<Seq<char>>)
    requires
        all_words(list),
    ensures
        ({
            let s = joined(list, seq![' ']);
            &&& list.len() > 0 ==> s.len() > 0 && !text::is_space(s.first()) && !text::is_space(
                s.last(),
            )
            &&& list.len() == 0 ==> s.len() == 0
            &&& forall|i: int| #![trigger s[i]]
                0 <= i < s.len() && text::is_space(s[i]) ==> s[i] == ' ' && 0 < i < s.len() - 1
                    && !text::is_space(s[i + 1])
        }),
{
    let s = joined(list, seq![' ']);
    lemma_well_spaced(list);
    assert forall|i: int| #![trigger s[i]] 0 <= i < s.len() && text::is_space(s[i]) implies s[i]
        == ' ' && 0 < i < s.len() - 1 && !text::is_space(s[i + 1]) by {
        assert(spaced_at(s, i));
    }
}

/// A squeezed text has single spaces only, and none at its ends.
pub proof fn law_squeezed_has_single_spaces(s: Seq<char>, i: int)
    requires
        0 <= i < squeezed(s).len(),
        text::is_space(squeezed(s)[i]),
    ensures
        squeezed(s)[i] == ' ',
        0 < i < squeezed(s).len() - 1,
        !text::is_space(squeezed(s)[i + 1]),
{
    law_words_are_words(s);
    lemma_spacing(words(s));
}

/// Every piece is free of the stops, and the first and the last piece are what
/// stands before the first stop and behind the last one.
pub proof fn law_pieces_lie_between_stops(s: Seq<char>, stops: Seq<char>)
    ensures
        pieces(s, stops).len() > 0,
        forall|i: int, k: int|
            0 <= i < pieces(s, stops).len() && 0 <= k < pieces(s, stops)[i].len()
                ==> !stops.contains(#[trigger] pieces(s, stops)[i][k]),
        ({
            let first = pieces(s, stops).first();
            &&& first.len() <= s.len()
            &&& first == s.take(first.len() as int)
            &&& first.len() < s.len() ==> stops.contains(s[first.len() as int])
        }),
        ({
            let last = pieces(s, stops).last();
            &&& last.len() <= s.len()
            &&& last == s.skip(s.len() - last.len())
            &&& last.len() < s.len() ==> stops.contains(s[s.len() - last.len() - 1])
        }),
        pieces(s, stops).len() == 1 <==> pieces(s, stops).first() == s,
    decreases s.len(),
{
    let all = pieces(s, stops);
    if s.len() == 0 {
        assert(all.first() =~= s);
        assert(s.take(0) =~= s);
        assert(s.skip(0) =~= s);
    } else {
        let front = s.drop_last();
        let before = pieces(front, stops);
        law_pieces_lie_between_stops(front, stops);
        let first = before.first();
        let last = before.last();
        assert(first == front.take(first.len() as int));
        assert(last == front.skip(front.len() - last.len()));
        if stops.contains(s.last()) {
            assert(all.first() == first);
            assert(first =~= s.take(first.len() as int));
            if first.len() < front.len() {
                assert(front[first.len() as int] == s[first.len() as int]);
            }
            assert(s.skip(s.len() as int) =~= Seq::<char>::empty());
            assert forall|i: int, k: int|
                0 <= i < all.len() && 0 <= k < all[i].len() implies !stops.contains(
                #[trigger] all[i][k],
            ) by {
                assert(all[i] == before[i]);
                assert(!stops.contains(before[i][k]));
            }
            assert(all.first() != s) by {
                assert(first.len() < s.len());
            }
        } else {
            assert(all.last() == last.push(s.last()));
            assert(last.push(s.last()) =~= s.skip(s.len() - last.len() - 1));
            if last.len() < front.len() {
                assert(front[front.len() - last.len() - 1] == s[s.len() - last.len() - 2]);
            }
            if before.len() == 1 {
                assert(first == last);
                assert(all.first() == last.push(s.last()));
                assert(first == front);
                assert(all.first() =~= s);
                assert(s.take(s.len() as int) =~= s);
            } else {
                assert(all.first() == first);
                assert(first =~= s.take(first.len() as int));
                if first.len() == front.len() {
                    assert(first =~= front);
                }
                assert(front[first.len() as int] == s[first.len() as int]);
            }
            assert forall|i: int, k: int|
                0 <= i < all.len() && 0 <= k < all[i].len() implies !stops.contains(
                #[trigger] all[i][k],
            ) by {
                if i < all.len() - 1 {
                    assert(all[i] == before[i]);
                    assert(!stops.contains(before[i][k]));
                } else if k < last.len() {
                    assert(all[i][k] == before[before.len() - 1][k]);
                }
            }
        }
    }
}

proof fn lemma_pieces_some(s: Seq<char>, stops: Seq<char>)
    ensures
        pieces(s, stops).len() > 0,
    decreases s.len(),
{
    if s.len() > 0 {
        lemma_pieces_some(s.drop_last(), stops);
    }
}

proof fn lemma_longer_last(list: Seq<Seq<char>>, sep: Seq<char>, c: char)
    requires
        list.len() > 0,
    ensures
        joined(list.drop_last().push(list.last().push(c)), sep) == joined(list, sep).push(c),
{
    let longer = list.drop_last().push(list.last().push(c));
    assert(longer.drop_last() =~= list.drop_last());
    assert(longer.last() == list.last().push(c));
    if list.len() > 1 {
        let head = joined(list.drop_last(), sep);
        assert(head + sep + list.last().push(c) =~= (head + sep + list.last()).push(c));
    }
}

/// Pieces that are joined again by the stop between them are the whole text.
pub proof fn law_pieces_join_again(s: Seq<char>, stop: char)
    ensures
        joined(pieces(s, seq![stop]), seq![stop]) == s,
    decreases s.len(),
{
    let sep = seq![stop];
    if s.len() == 0 {
        assert(pieces(s, sep)[0] =~= s);
    } else {
        let front = s.drop_last();
        let before = pieces(front, sep);
        law_pieces_join_again(front, stop);
        lemma_pieces_some(front, sep);
        assert(front.push(s.last()) =~= s);
        if sep.contains(s.last()) {
            assert(s.last() == stop);
            let none = Seq::<char>::empty();
            law_join(before, none, sep);
            assert(front + sep + none =~= front.push(stop));
        } else {
            lemma_longer_last(before, sep, s.last());
        }
    }
}

/// What stands before the last `c` and behind it, with `c` between them, are
/// the whole text; without a `c` there is no such place.
pub proof fn law_split_at_last(s: &str, c: char, r: Option<String>)
    requires
        call_ensures(stem, (s, c), r),
    ensures
        r is None <==> !s@.contains(c),
        r is Some ==> {
            let n = r->0@.len() as int;
            &&& n < s@.len()
            &&& r->0@ == s@.take(n)
            &&& s@[n] == c
            &&& !s@.skip(n + 1).contains(c)
        },
{
    lemma_before_last(s@, c);
}

proof fn lemma_before_last(s: Seq<char>, c: char)
    ensures
        before_last(s, c) is None <==> !s.contains(c),
        before_last(s, c) is Some ==> {
            let n = before_last(s, c)->0.len() as int;
            &&& n < s.len()
            &&& before_last(s, c)->0 == s.take(n)
            &&& s[n] == c
            &&& !s.skip(n + 1).contains(c)
        },
    decreases s.len(),
{
    if s.len() > 0 {
        let front = s.drop_last();
        if s.last() == c {
            assert(s[s.len() - 1] == c);
            assert(s.drop_last() =~= s.take(s.len() - 1));
        } else {
            lemma_before_last(front, c);
            if s.contains(c) {
                let i = choose|i: int| 0 <= i < s.len() && s[i] == c;
                assert(front[i] == c);
            }
            if let Some(r) = before_last(front, c) {
                let n = r.len() as int;
                assert(front.take(n) =~= s.take(n));
                assert(s[n] == c);
                let rest = s.skip(n + 1);
                assert forall|i: int| 0 <= i < rest.len() implies #[trigger] rest[i] != c by {
                    if i < front.skip(n + 1).len() {
                        assert(front.skip(n + 1)[i] == rest[i]);
                    }
                }
            }
        }
    }
}

/// Words are found in the order in which they stand, and none is lost: without
/// the white space, a text is its words one after the other.
pub proof fn law_words_keep_the_text(s: Seq<char>)
    ensures
        concatenated(words(s)) == s.filter(|c: char| !text::is_space(c)),
    decreases s.len(),
{
    let solid = |c: char| !text::is_space(c);
    reveal(Seq::filter);
    if s.len() == 0 {
        assert(s.filter(solid) =~= Seq::<char>::empty());
    } else {
        let front = s.drop_last();
        law_words_keep_the_text(front);
        let before = words(front);
        if !text::is_space(s.last()) {
            if s.len() > 1 && !text::is_space(s[s.len() - 2]) {
                lemma_words_some(front);
                assert(words(s).drop_last() =~= before.drop_last());
                assert(concatenated(words(s)) =~= concatenated(before).push(s.last()));
            } else {
                assert(words(s).drop_last() =~= before);
                assert(concatenated(words(s)) =~= concatenated(before).push(s.last()));
            }
        }
    }
}

/// White space divides words: the words of two texts with a blank between them
/// are those of the one and then those of the other.
pub proof fn law_space_divides_words(a: Seq<char>, b: Seq<char>)
    ensures
        words(a + seq![' '] + b) == words(a) + words(b),
    decreases b.len(),
{
    let whole = a + seq![' '] + b;
    if b.len() == 0 {
        assert(whole =~= a.push(' '));
        assert(whole.drop_last() =~= a);
        assert(words(a) + words(b) =~= words(a));
    } else {
        let front = b.drop_last();
        law_space_divides_words(a, front);
        assert(whole.drop_last() =~= a + seq![' '] + front);
        assert(whole.last() == b.last());
        if text::is_space(b.last()) {
        } else if b.len() > 1 && !text::is_space(b[b.len() - 2]) {
            lemma_words_some(front);
            assert(whole[whole.len() - 2] == b[b.len() - 2]);
            assert((words(a) + words(front)).drop_last() =~= words(a) + words(front).drop_last());
            assert(words(whole) =~= words(a) + words(b));
        } else {
            assert(whole[whole.len() - 2] == (if b.len() > 1 {
                b[b.len() - 2]
            } else {
                ' '
            }));
            assert(words(whole) =~= words(a) + words(b));
        }
    }
}

/// Joined texts stand in their order, with the separator between each two and
/// nowhere else.
pub proof fn law_join(list: Seq<Seq<char>>, more: Seq<char>, sep: Seq<char>)
    ensures
        joined(seq![], sep) == Seq::<char>::empty(),
        joined(seq![more], sep) == more,
        list.len() > 0 ==> joined(list.push(more), sep) == joined(list, sep) + sep + more,
        concatenated(list.push(more)) == concatenated(list) + more,
        joined(list, seq![]) == concatenated(list),
    decreases list.len(),
{
    assert(list.push(more).drop_last() =~= list);
    if list.len() == 1 {
        assert(list.drop_last() =~= seq![]);
        reveal_with_fuel(concatenated, 2);
        assert(concatenated(list) =~= list[0]);
    } else if list.len() > 1 {
        law_join(list.drop_last(), more, sep);
        assert(joined(list, seq![]) =~= concatenated(list));
    }
}

/// A squeezed text is empty only where there was nothing but white space.
pub proof fn law_squeezed_text_is_some(s: &str, r: Option<String>)
    requires
        call_ensures(squeeze_some, (s,), r),
    ensures
        r is None <==> text::all_space(s@),
        r is Some ==> r->0@ == joined(words(s@), seq![' ']) && r->0@.len() > 0,
{
    law_words_are_words(s@);
    lemma_well_spaced(words(s@));
    lemma_no_words(s@);
}

proof fn lemma_no_words(s: Seq<char>)
    ensures
        words(s).len() == 0 <==> text::all_space(s),
    decreases s.len(),
{
    if s.len() > 0 {
        let front = s.drop_last();
        lemma_no_words(front);
        if text::all_space(front) && text::is_space(s.last()) {
            assert forall|i: int| 0 <= i < s.len() implies text::is_space(#[trigger] s[i]) by {
                if i < front.len() {
                    assert(front[i] == s[i]);
                }
            }
        }
        if text::all_space(s) {
            assert(text::is_space(s[s.len() - 1]));
            assert forall|i: int| 0 <= i < front.len() implies text::is_space(
                #[trigger] front[i],
            ) by {
                assert(s[i] == front[i]);
            }
        }
    }
}

/// A text without stops is a single piece.
pub proof fn law_one_piece(s: Seq<char>, stops: Seq<char>)
    requires
        forall|i: int| 0 <= i < s.len() ==> !stops.contains(#[trigger] s[i]),
    ensures
        pieces(s, stops) == seq![s],
    decreases s.len(),
{
    if s.len() == 0 {
        assert(s =~= Seq::<char>::empty());
        assert(pieces(s, stops) =~= seq![s]);
    } else {
        let front = s.drop_last();
        assert forall|i: int| 0 <= i < front.len() implies !stops.contains(#[trigger] front[i]) by {
            assert(front[i] == s[i]);
        }
        law_one_piece(front, stops);
        assert(!stops.contains(s[s.len() - 1]));
        assert(front.push(s.last()) =~= s);
        assert(pieces(s, stops) =~= seq![s]);
    }
}

/// A stop divides: the pieces before it and the pieces behind it are the pieces
/// of the whole.
pub proof fn law_stops_divide(a: Seq<char>, stop: char, b: Seq<char>, stops: Seq<char>)
    requires
        stops.contains(stop),
    ensures
        pieces(a + seq![stop] + b, stops) == pieces(a, stops) + pieces(b, stops),
    decreases b.len(),
{
    let s = a + seq![stop] + b;
    if b.len() == 0 {
        assert(s.drop_last() =~= a);
        assert(b =~= Seq::<char>::empty());
        assert(pieces(s, stops) =~= pieces(a, stops) + pieces(b, stops));
    } else {
        let front = b.drop_last();
        law_stops_divide(a, stop, front, stops);
        law_pieces_lie_between_stops(front, stops);
        assert(s.drop_last() =~= a + seq![stop] + front);
        assert(s.last() == b[b.len() - 1]);
        let before = pieces(a, stops) + pieces(front, stops);
        assert(before.drop_last() =~= pieces(a, stops) + pieces(front, stops).drop_last());
        assert(pieces(s, stops) =~= pieces(a, stops) + pieces(b, stops));
    }
}

/// What stands before the first stop is the first piece.
pub proof fn law_first_piece(a: Seq<char>, b: Seq<char>, stops: Seq<char>)
    requires
        forall|i: int| 0 <= i < a.len() ==> !stops.contains(#[trigger] a[i]),
        b.len() == 0 || stops.contains(b[0]),
    ensures
        pieces(a + b, stops).first() == a,
{
    law_one_piece(a, stops);
    if b.len() == 0 {
        assert(a + b =~= a);
    } else {
        let rest = b.drop_first();
        law_stops_divide(a, b[0], rest, stops);
        assert(a + seq![b[0]] + rest =~= a + b);
    }
}

} // verus!
