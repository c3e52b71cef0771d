//! Character-level text operations.
//!
//! Every text is viewed as the sequence of its characters. The specification
//! functions say what an operation yields on such a sequence; the executable
//! functions beside them compute it.

use vstd::prelude::*;

verus! {

/// `String::push`: the text grows by one character at its end.
pub assume_specification[ String::push ](s: &mut String, c: char)
    ensures
        final(s)@ == old(s)@.push(c),
;

// ---- views ----------------------------------------------------------------

/// The texts held by a list of strings.
pub open spec fn texts(list: Seq<String>) -> Seq<Seq<char>> {
    Seq::new(list.len(), |i: int| list[i]@)
}

pub broadcast proof fn lemma_texts_push(list: Seq<String>, s: String)
    ensures
        #[trigger] texts(list.push(s)) == texts(list).push(s@),
{
    assert(texts(list.push(s)) =~= texts(list).push(s@));
}

/// The text held by an optional string.
pub open spec fn text_in(value: Option<String>) -> Option<Seq<char>> {
    match value {
        Some(text) => Some(text@),
        None => None,
    }
}

/// The texts held by a list of optional strings.
pub open spec fn texts_in(list: Seq<Option<String>>) -> Seq<Option<Seq<char>>> {
    Seq::new(list.len(), |i: int| text_in(list[i]))
}

// ---- characters -----------------------------------------------------------

/// The characters with the Unicode property `White_Space`.
pub open spec fn is_space(c: char) -> bool {
    let n = c as u32;
    ||| 0x9 <= n <= 0xd
    ||| n == 0x20
    ||| n == 0x85
    ||| n == 0xa0
    ||| n == 0x1680
    ||| 0x2000 <= n <= 0x200a
    ||| n == 0x2028
    ||| n == 0x2029
    ||| n == 0x202f
    ||| n == 0x205f
    ||| n == 0x3000
}

/// Whether `c` has the Unicode property `White_Space`.
pub fn space(c: char) -> (r: bool)
    ensures
        r == is_space(c),
{
    let n: u32 = c as u32;
    (0x9 <= n && n <= 0xd) || n == 0x20 || n == 0x85 || n == 0xa0 || n == 0x1680 || (0x2000 <= n
        && n <= 0x200a) || n == 0x2028 || n == 0x2029 || n == 0x202f || n == 0x205f || n == 0x3000
}

/// `c` with an ASCII capital turned into its small letter.
pub open spec fn lower_char(c: char) -> char {
    if 'A' <= c <= 'Z' {
        ((c as u8) + 32) as char
    } else {
        c
    }
}

/// `c` with an ASCII small letter turned into its capital.
pub open spec fn upper_char(c: char) -> char {
    if 'a' <= c <= 'z' {
        ((c as u8) - 32) as char
    } else {
        c
    }
}

/// The ASCII hexadecimal digits.
pub open spec fn is_hex(c: char) -> bool {
    ||| '0' <= c <= '9'
    ||| 'a' <= c <= 'f'
    ||| 'A' <= c <= 'F'
}

pub open spec fn all_hex(s: Seq<char>) -> bool {
    forall|i: int| 0 <= i < s.len() ==> is_hex(#[trigger] s[i])
}

// ---- conversion -----------------------------------------------------------

/// The characters of `s`, in order.
pub fn chars_of(s: &str) -> (r: Vec<char>)
    ensures
        r@ == s@,
{
    let mut out: Vec<char> = Vec::new();
    for c in it: s.chars()
        invariant
            it.seq() == s@,
            out@ == s@.take(it.index() as int),
    {
        out.push(c);
    }
    out
}

/// The text made of the characters `from..to` of `v`.
pub fn slice_text(v: &Vec<char>, from: usize, to: usize) -> (r: String)
    requires
        from <= to <= v@.len(),
    ensures
        r@ == v@.subrange(from as int, to as int),
{
    let mut out = String::new();
    let mut i: usize = from;
    while i < to
        invariant
            from <= i <= to <= v@.len(),
            out@ == v@.subrange(from as int, i as int),
        decreases to - i,
    {
        out.push(v[i]);
        assert(v@.subrange(from as int, i + 1) =~= v@.subrange(from as int, i as int).push(
            v@[i as int],
        ));
        i += 1;
    }
    out
}

/// The text made of the characters `v`.
pub fn whole_text(v: &Vec<char>) -> (r: String)
    ensures
        r@ == v@,
{
    let r = slice_text(v, 0, v.len());
    assert(v@.subrange(0, v@.len() as int) =~= v@);
    r
}

/// A copy of each text of the list.
pub fn copy_texts(list: &Vec<String>) -> (r: Vec<String>)
    ensures
        texts(r@) == texts(list@),
{
    let mut out: Vec<String> = Vec::new();
    let mut i: usize = 0;
    while i < list.len()
        invariant
            i <= list@.len(),
            texts(out@) == texts(list@).take(i as int),
        decreases list@.len() - i,
    {
        proof {
            lemma_texts_push(out@, list@[i as int]);
        }
        out.push(list[i].clone());
        assert(texts(out@) =~= texts(list@).take(i + 1));
        i += 1;
    }
    assert(texts(list@).take(i as int) =~= texts(list@));
    out
}

/// A copy of an optional text.
pub fn copy_text(value: &Option<String>) -> (r: Option<String>)
    ensures
        text_in(r) == text_in(*value),
{
    match value {
        Some(text) => Some(text.clone()),
        None => None,
    }
}

// ---- comparison -----------------------------------------------------------

/// Whether two texts hold the same characters.
pub fn same(a: &str, b: &str) -> (r: bool)
    ensures
        r == (a@ == b@),
{
    let x = chars_of(a);
    let y = chars_of(b);
    if x.len() != y.len() {
        return false;
    }
    let mut i: usize = 0;
    while i < x.len()
        invariant
            x@ == a@,
            y@ == b@,
            x@.len() == y@.len(),
            i <= x@.len(),
            forall|k: int| 0 <= k < i ==> x@[k] == y@[k],
        decreases x@.len() - i,
    {
        if x[i] != y[i] {
            return false;
        }
        i += 1;
    }
    assert(a@ =~= b@);
    true
}

/// Whether `list` holds the text `s`.
pub fn holds(list: &Vec<String>, s: &str) -> (r: bool)
    ensures
        r == texts(list@).contains(s@),
{
    let mut i: usize = 0;
    while i < list.len()
        invariant
            i <= list@.len(),
            forall|k: int| 0 <= k < i ==> texts(list@)[k] != s@,
        decreases list@.len() - i,
    {
        if same(list[i].as_str(), s) {
            assert(texts(list@)[i as int] == s@);
            return true;
        }
        i += 1;
    }
    false
}

// ---- prefixes, suffixes and search ----------------------------------------

/// `s` begins with `p`.
pub open spec fn has_prefix(s: Seq<char>, p: Seq<char>) -> bool {
    p.len() <= s.len() && s.subrange(0, p.len() as int) == p
}

/// `s` ends with `p`.
pub open spec fn has_suffix(s: Seq<char>, p: Seq<char>) -> bool {
    p.len() <= s.len() && s.subrange(s.len() - p.len(), s.len() as int) == p
}

/// `p` stands in `s` at position `i`.
pub open spec fn occurs_at(s: Seq<char>, p: Seq<char>, i: int) -> bool {
    0 <= i && i + p.len() <= s.len() && s.subrange(i, i + p.len()) == p
}

/// `p` stands somewhere in `s`.
pub open spec fn occurs(s: Seq<char>, p: Seq<char>) -> bool {
    exists|i: int| occurs_at(s, p, i)
}

/// The first position of `p` in `s` at or after `from`.
pub open spec fn find(s: Seq<char>, p: Seq<char>, from: int) -> Option<int>
    decreases s.len() + 1 - from,
{
    if from < 0 || from + p.len() > s.len() {
        None
    } else if occurs_at(s, p, from) {
        Some(from)
    } else {
        find(s, p, from + 1)
    }
}

/// What [`find`] returns is the first occurrence, and it misses none.
pub proof fn lemma_find(s: Seq<char>, p: Seq<char>, from: int)
    requires
        0 <= from,
    ensures
        find(s, p, from) matches Some(i) ==> from <= i && occurs_at(s, p, i) && forall|j: int|
            from <= j < i ==> !occurs_at(s, p, j),
        find(s, p, from) is None ==> forall|j: int| from <= j ==> !occurs_at(s, p, j),
    decreases s.len() + 1 - from,
{
    if from + p.len() <= s.len() && !occurs_at(s, p, from) {
        lemma_find(s, p, from + 1);
    }
}

fn matches_at(x: &Vec<char>, y: &Vec<char>, at: usize) -> (r: bool)
    requires
        at + y@.len() <= x@.len(),
    ensures
        r == occurs_at(x@, y@, at as int),
{
    let total: usize = x.len();
    let mut i: usize = 0;
    while i < y.len()
        invariant
            i <= y@.len(),
            total == x@.len(),
            at + y@.len() <= x@.len(),
            forall|k: int| 0 <= k < i ==> x@[at + k] == y@[k],
        decreases y@.len() - i,
    {
        if x[at + i] != y[i] {
            assert(x@.subrange(at as int, at + y@.len())[i as int] != y@[i as int]);
            return false;
        }
        i += 1;
    }
    assert(x@.subrange(at as int, at + y@.len()) =~= y@);
    true
}

fn find_chars(x: &Vec<char>, y: &Vec<char>) -> (r: Option<usize>)
    ensures
        match r {
            Some(i) => find(x@, y@, 0) == Some(i as int),
            None => find(x@, y@, 0) is None,
        },
{
    if y.len() > x.len() {
        return None;
    }
    let last: usize = x.len() - y.len();
    let mut i: usize = 0;
    loop
        invariant
            i <= last,
            last == x@.len() - y@.len(),
            find(x@, y@, 0) == find(x@, y@, i as int),
        decreases last - i,
    {
        if matches_at(x, y, i) {
            return Some(i);
        }
        if i == last {
            assert(find(x@, y@, i + 1) is None);
            return None;
        }
        i += 1;
    }
}

/// Whether `s` begins with `p`.
pub fn starts_with(s: &str, p: &str) -> (r: bool)
    ensures
        r == has_prefix(s@, p@),
{
    let x = chars_of(s);
    let y = chars_of(p);
    y.len() <= x.len() && matches_at(&x, &y, 0)
}

/// Whether `s` ends with `p`.
pub fn ends_with(s: &str, p: &str) -> (r: bool)
    ensures
        r == has_suffix(s@, p@),
{
    let x = chars_of(s);
    let y = chars_of(p);
    y.len() <= x.len() && matches_at(&x, &y, x.len() - y.len())
}

/// Whether `p` stands somewhere in `s`.
pub fn contains(s: &str, p: &str) -> (r: bool)
    ensures
        r == occurs(s@, p@),
{
    let x = chars_of(s);
    let y = chars_of(p);
    proof {
        lemma_find(s@, p@, 0);
    }
    find_chars(&x, &y).is_some()
}

/// What follows the prefix `p` of `s`.
pub open spec fn after_prefix(s: Seq<char>, p: Seq<char>) -> Option<Seq<char>> {
    if has_prefix(s, p) {
        Some(s.subrange(p.len() as int, s.len() as int))
    } else {
        None
    }
}

/// What precedes the suffix `p` of `s`.
pub open spec fn before_suffix(s: Seq<char>, p: Seq<char>) -> Option<Seq<char>> {
    if has_suffix(s, p) {
        Some(s.subrange(0, s.len() - p.len()))
    } else {
        None
    }
}

/// What follows the first occurrence of `p` in `s`.
pub open spec fn after_first(s: Seq<char>, p: Seq<char>) -> Option<Seq<char>> {
    match find(s, p, 0) {
        Some(i) => Some(s.subrange(i + p.len(), s.len() as int)),
        None => None,
    }
}

/// What precedes the first occurrence of `p` in `s`; all of `s` without one.
pub open spec fn before_first(s: Seq<char>, p: Seq<char>) -> Seq<char> {
    match find(s, p, 0) {
        Some(i) => s.subrange(0, i),
        None => s,
    }
}

/// What follows the prefix `p` of `s`, if `s` has it.
pub fn strip_prefix(s: &str, p: &str) -> (r: Option<String>)
    ensures
        text_in(r) == after_prefix(s@, p@),
{
    let x = chars_of(s);
    let y = chars_of(p);
    if y.len() <= x.len() && matches_at(&x, &y, 0) {
        Some(slice_text(&x, y.len(), x.len()))
    } else {
        None
    }
}

/// What precedes the suffix `p` of `s`, if `s` has it.
pub fn strip_suffix(s: &str, p: &str) -> (r: Option<String>)
    ensures
        text_in(r) == before_suffix(s@, p@),
{
    let x = chars_of(s);
    let y = chars_of(p);
    if y.len() <= x.len() && matches_at(&x, &y, x.len() - y.len()) {
        Some(slice_text(&x, 0, x.len() - y.len()))
    } else {
        None
    }
}

/// What follows the first occurrence of `p` in `s`, if there is one.
pub fn tail_after(s: &str, p: &str) -> (r: Option<String>)
    ensures
        text_in(r) == after_first(s@, p@),
{
    let x = chars_of(s);
    let y = chars_of(p);
    proof {
        lemma_find(s@, p@, 0);
    }
    match find_chars(&x, &y) {
        Some(i) => {
            let end: usize = x.len();
            Some(slice_text(&x, i + y.len(), end))
        },
        None => None,
    }
}

/// What precedes the first occurrence of `p` in `s`; all of `s` without one.
pub fn head_before(s: &str, p: &str) -> (r: String)
    ensures
        r@ == before_first(s@, p@),
{
    let x = chars_of(s);
    let y = chars_of(p);
    proof {
        lemma_find(s@, p@, 0);
    }
    match find_chars(&x, &y) {
        Some(i) => slice_text(&x, 0, i),
        None => whole_text(&x),
    }
}

/// `s` with every occurrence of `p`, from the left, replaced by `by`.
pub open spec fn exchanged(s: Seq<char>, p: Seq<char>, by: Seq<char>) -> Seq<char>
    decreases s.len(),
{
    match find(s, p, 0) {
        Some(i) => if p.len() == 0 || i < 0 || i + p.len() > s.len() {
            s
        } else {
            s.subrange(0, i) + by + exchanged(s.subrange(i + p.len(), s.len() as int), p, by)
        },
        None => s,
    }
}

/// `s` with every occurrence of `p`, from the left, replaced by `by`.
pub fn exchange(s: &str, p: &str, by: &str) -> (r: String)
    requires
        p@.len() > 0,
    ensures
        r@ == exchanged(s@, p@, by@),
{
    let y = chars_of(p);
    let mut rest = chars_of(s);
    let mut out = String::new();
    assert(out@ + exchanged(rest@, p@, by@) =~= exchanged(s@, p@, by@));
    loop
        invariant
            y@ == p@,
            p@.len() > 0,
            out@ + exchanged(rest@, p@, by@) == exchanged(s@, p@, by@),
        decreases rest@.len(),
    {
        proof {
            lemma_find(rest@, p@, 0);
        }
        match find_chars(&rest, &y) {
            Some(i) => {
                let end: usize = rest.len();
                let ghost before = out@;
                out.append(slice_text(&rest, 0, i).as_str());
                out.append(by);
                let tail = chars_of(slice_text(&rest, i + y.len(), end).as_str());
                assert(out@ + exchanged(tail@, p@, by@) =~= before + exchanged(rest@, p@, by@));
                rest = tail;
            },
            None => {
                out.append(whole_text(&rest).as_str());
                return out;
            },
        }
    }
}

// ---- trimming ---------------------------------------------------------------

/// `s` without its leading white space.
pub open spec fn trimmed_start(s: Seq<char>) -> Seq<char>
    decreases s.len(),
{
    if s.len() > 0 && is_space(s.first()) {
        trimmed_start(s.drop_first())
    } else {
        s
    }
}

/// `s` without its trailing white space.
pub open spec fn trimmed_end(s: Seq<char>) -> Seq<char>
    decreases s.len(),
{
    if s.len() > 0 && is_space(s.last()) {
        trimmed_end(s.drop_last())
    } else {
        s
    }
}

/// `s` without the white space around it.
pub open spec fn trimmed(s: Seq<char>) -> Seq<char> {
    trimmed_end(trimmed_start(s))
}

/// Trimming takes away from the ends only.
pub proof fn lemma_trimmed_part(s: Seq<char>)
    ensures
        exists|i: int, j: int| 0 <= i <= j <= s.len() && trimmed(s) == #[trigger] s.subrange(i, j),
{
    lemma_trimmed_start_part(s);
    let i = choose|i: int| 0 <= i <= s.len() && trimmed_start(s) == #[trigger] s.skip(i);
    let t = trimmed_start(s);
    lemma_trimmed_end_part(t);
    let n = choose|n: int| 0 <= n <= t.len() && trimmed_end(t) == #[trigger] t.take(n);
    assert(trimmed(s) =~= s.subrange(i, i + n));
}

proof fn lemma_trimmed_start_part(s: Seq<char>)
    ensures
        exists|i: int| 0 <= i <= s.len() && trimmed_start(s) == #[trigger] s.skip(i),
    decreases s.len(),
{
    if s.len() > 0 && is_space(s.first()) {
        let t = s.drop_first();
        lemma_trimmed_start_part(t);
        let i = choose|i: int| 0 <= i <= t.len() && trimmed_start(t) == #[trigger] t.skip(i);
        assert(t.skip(i) =~= s.skip(i + 1));
    } else {
        assert(s.skip(0) =~= s);
    }
}

proof fn lemma_trimmed_end_part(s: Seq<char>)
    ensures
        exists|n: int| 0 <= n <= s.len() && trimmed_end(s) == #[trigger] s.take(n),
    decreases s.len(),
{
    if s.len() > 0 && is_space(s.last()) {
        let t = s.drop_last();
        lemma_trimmed_end_part(t);
        let n = choose|n: int| 0 <= n <= t.len() && trimmed_end(t) == #[trigger] t.take(n);
        assert(t.take(n) =~= s.take(n));
    } else {
        assert(s.take(s.len() as int) =~= s);
    }
}

/// `s` without the white space around it.
pub fn trim(s: &str) -> (r: String)
    ensures
        r@ == trimmed(s@),
{
    let v = chars_of(s);
    let mut from: usize = 0;
    assert(v@.subrange(0, v@.len() as int) =~= v@);
    while from < v.len() && space(v[from])
        invariant
            from <= v@.len(),
            trimmed_start(v@) == trimmed_start(v@.subrange(from as int, v@.len() as int)),
        decreases v@.len() - from,
    {
        assert(v@.subrange(from as int, v@.len() as int).drop_first() =~= v@.subrange(
            from + 1,
            v@.len() as int,
        ));
        from += 1;
    }
    let mut to: usize = v.len();
    while from < to && space(v[to - 1])
        invariant
            from <= to <= v@.len(),
            trimmed_end(v@.subrange(from as int, v@.len() as int)) == trimmed_end(
                v@.subrange(from as int, to as int),
            ),
        decreases to,
    {
        assert(v@.subrange(from as int, to as int).drop_last() =~= v@.subrange(
            from as int,
            to - 1,
        ));
        to -= 1;
    }
    slice_text(&v, from, to)
}

/// `s` without the characters `c` at its end.
pub open spec fn without_trailing(s: Seq<char>, c: char) -> Seq<char>
    decreases s.len(),
{
    if s.len() > 0 && s.last() == c {
        without_trailing(s.drop_last(), c)
    } else {
        s
    }
}

/// `s` without the characters `c` at its end.
pub fn trim_end_char(s: &str, c: char) -> (r: String)
    ensures
        r@ == without_trailing(s@, c),
{
    let v = chars_of(s);
    let mut to: usize = v.len();
    assert(v@.subrange(0, v@.len() as int) =~= v@);
    while 0 < to && v[to - 1] == c
        invariant
            to <= v@.len(),
            without_trailing(v@, c) == without_trailing(v@.subrange(0, to as int), c),
        decreases to,
    {
        assert(v@.subrange(0, to as int).drop_last() =~= v@.subrange(0, to - 1));
        to -= 1;
    }
    slice_text(&v, 0, to)
}

// ---- character by character -------------------------------------------------

/// `s` in ASCII small letters.
pub open spec fn lowered(s: Seq<char>) -> Seq<char> {
    Seq::new(s.len(), |i: int| lower_char(s[i]))
}

/// `s` in ASCII capitals.
pub open spec fn raised(s: Seq<char>) -> Seq<char> {
    Seq::new(s.len(), |i: int| upper_char(s[i]))
}

/// `s` with each of the characters `which` replaced by `by`.
pub open spec fn replaced(s: Seq<char>, which: Seq<char>, by: char) -> Seq<char> {
    Seq::new(
        s.len(),
        |i: int|
            if which.contains(s[i]) {
                by
            } else {
                s[i]
            },
    )
}

/// `s` in ASCII small letters.
pub fn lower(s: &str) -> (r: String)
    ensures
        r@ == lowered(s@),
{
    let mut out = String::new();
    for c in it: s.chars()
        invariant
            it.seq() == s@,
            out@ == lowered(s@).take(it.index() as int),
    {
        if 'A' <= c && c <= 'Z' {
            out.push((c as u8 + 32) as char);
        } else {
            out.push(c);
        }
    }
    out
}

/// `s` in ASCII capitals.
pub fn upper(s: &str) -> (r: String)
    ensures
        r@ == raised(s@),
{
    let mut out = String::new();
    for c in it: s.chars()
        invariant
            it.seq() == s@,
            out@ == raised(s@).take(it.index() as int),
    {
        if 'a' <= c && c <= 'z' {
            out.push((c as u8 - 32) as char);
        } else {
            out.push(c);
        }
    }
    out
}

/// Whether `c` is among `list`.
pub fn one_of(list: &[char], c: char) -> (r: bool)
    ensures
        r == list@.contains(c),
{
    let mut i: usize = 0;
    while i < list.len()
        invariant
            i <= list@.len(),
            forall|k: int| 0 <= k < i ==> list@[k] != c,
        decreases list@.len() - i,
    {
        if list[i] == c {
            assert(list@[i as int] == c);
            return true;
        }
        i += 1;
    }
    false
}

/// `s` with each of the characters `which` replaced by `by`.
pub fn replace(s: &str, which: &[char], by: char) -> (r: String)
    ensures
        r@ == replaced(s@, which@, by),
{
    let mut out = String::new();
    for c in it: s.chars()
        invariant
            it.seq() == s@,
            out@ == replaced(s@, which@, by).take(it.index() as int),
    {
        if one_of(which, c) {
            out.push(by);
        } else {
            out.push(c);
        }
    }
    out
}

/// Whether every character of `s` is an ASCII hexadecimal digit and there are
/// `count` of them.
pub fn hex_digits(s: &str, count: usize) -> (r: bool)
    ensures
        r == (s@.len() == count && all_hex(s@)),
{
    let v = chars_of(s);
    if v.len() != count {
        return false;
    }
    let mut i: usize = 0;
    while i < v.len()
        invariant
            v@ == s@,
            i <= v@.len(),
            forall|k: int| 0 <= k < i ==> is_hex(#[trigger] v@[k]),
        decreases v@.len() - i,
    {
        let c: char = v[i];
        if !(('0' <= c && c <= '9') || ('a' <= c && c <= 'f') || ('A' <= c && c <= 'F')) {
            assert(!is_hex(s@[i as int]));
            return false;
        }
        i += 1;
    }
    true
}

// ---- padding ------------------------------------------------------------------

/// `n` times the character `c`.
pub open spec fn repeated(c: char, n: nat) -> Seq<char> {
    Seq::new(n, |i: int| c)
}

/// `s` moved to the right edge of at least `width` characters.
pub open spec fn padded_left(s: Seq<char>, width: nat) -> Seq<char> {
    if s.len() >= width {
        s
    } else {
        repeated(' ', (width - s.len()) as nat) + s
    }
}

/// `s` filled up on its right to at least `width` characters.
pub open spec fn padded_right(s: Seq<char>, width: nat) -> Seq<char> {
    if s.len() >= width {
        s
    } else {
        s + repeated(' ', (width - s.len()) as nat)
    }
}

/// `n` times the character `c`.
pub fn repeat(c: char, n: usize) -> (r: String)
    ensures
        r@ == repeated(c, n as nat),
{
    let mut out = String::new();
    let mut i: usize = 0;
    while i < n
        invariant
            i <= n,
            out@ == repeated(c, i as nat),
        decreases n - i,
    {
        out.push(c);
        i += 1;
        assert(out@ =~= repeated(c, i as nat));
    }
    out
}

/// `s` moved to the right edge of at least `width` characters.
pub fn pad_left(s: &str, width: usize) -> (r: String)
    ensures
        r@ == padded_left(s@, width as nat),
{
    let n: usize = s.unicode_len();
    if n >= width {
        s.to_owned()
    } else {
        let mut out = repeat(' ', width - n);
        out.append(s);
        out
    }
}

/// `s` filled up on its right to at least `width` characters.
pub fn pad_right(s: &str, width: usize) -> (r: String)
    ensures
        r@ == padded_right(s@, width as nat),
{
    let n: usize = s.unicode_len();
    let mut out = s.to_owned();
    if n < width {
        out.append(repeat(' ', width - n).as_str());
    }
    out
}

/// The first `n` characters of `s`; all of them if there are fewer.
pub open spec fn shortened(s: Seq<char>, n: nat) -> Seq<char> {
    if s.len() <= n {
        s
    } else {
        s.subrange(0, n as int)
    }
}

/// The first `n` characters of `s`; all of them if there are fewer.
pub fn take_chars(s: &str, n: usize) -> (r: String)
    ensures
        r@ == shortened(s@, n as nat),
{
    let v = chars_of(s);
    if v.len() <= n {
        whole_text(&v)
    } else {
        slice_text(&v, 0, n)
    }
}

// ---- laws -------------------------------------------------------------------------

/// All characters are white space.
pub open spec fn all_space(s: Seq<char>) -> bool {
    forall|i: int| 0 <= i < s.len() ==> is_space(#[trigger] s[i])
}

/// Tabs, line ends and blanks are white space, as are the wide blanks and the
/// separators of lines; nothing else is.
pub proof fn law_white_space(c: char, r: bool)
    requires
        call_ensures(space, (c,), r),
    ensures
        c == ' ' || c == '\t' || c == '\n' || c == '\r' ==> r,
        c as u32 == 11 || c as u32 == 12 || c as u32 == 133 || c as u32 == 160 ==> r,
        c as u32 == 5760 || 8192 <= c as u32 <= 8202 || c as u32 == 12288 ==> r,
        c as u32 == 8232 || c as u32 == 8233 || c as u32 == 8239 || c as u32 == 8287 ==> r,
        c as u32 <= 8 || 14 <= c as u32 <= 31 || 33 <= c as u32 <= 132 ==> !r,
        134 <= c as u32 <= 159 || 161 <= c as u32 <= 5759 || 5761 <= c as u32 <= 8191 ==> !r,
        8203 <= c as u32 <= 8231 || 8234 <= c as u32 <= 8238 || 8240 <= c as u32 <= 8286 ==> !r,
        8288 <= c as u32 <= 12287 || c as u32 >= 12289 ==> !r,
{
}

proof fn lemma_trimmed_start(s: Seq<char>) -> (n: int)
    ensures
        0 <= n <= s.len(),
        trimmed_start(s) == s.skip(n),
        all_space(s.take(n)),
        n < s.len() ==> !is_space(s[n]),
    decreases s.len(),
{
    if s.len() > 0 && is_space(s.first()) {
        let n = lemma_trimmed_start(s.drop_first());
        assert(s.drop_first().skip(n) =~= s.skip(n + 1));
        assert forall|i: int| 0 <= i < n + 1 implies is_space(#[trigger] s.take(n + 1)[i]) by {
            if i > 0 {
                assert(s.take(n + 1)[i] == s.drop_first().take(n)[i - 1]);
            }
        }
        n + 1
    } else {
        assert(s.skip(0) =~= s);
        0
    }
}

proof fn lemma_trimmed_end(s: Seq<char>) -> (n: int)
    ensures
        0 <= n <= s.len(),
        trimmed_end(s) == s.take(n),
        all_space(s.skip(n)),
        n > 0 ==> !is_space(s[n - 1]),
    decreases s.len(),
{
    if s.len() > 0 && is_space(s.last()) {
        let n = lemma_trimmed_end(s.drop_last());
        assert(s.drop_last().take(n) =~= s.take(n));
        assert forall|i: int| 0 <= i < s.skip(n).len() implies is_space(#[trigger] s.skip(n)[i]) by {
            if i < s.len() - n - 1 {
                assert(s.skip(n)[i] == s.drop_last().skip(n)[i]);
            }
        }
        n
    } else {
        assert(s.take(s.len() as int) =~= s);
        s.len() as int
    }
}

/// Trimming takes white space away and nothing else, and leaves none at the
/// ends.
pub proof fn law_trim_takes_space(s: &str, r: String)
    requires
        call_ensures(trim, (s,), r),
    ensures
        exists|a: Seq<char>, b: Seq<char>|
            all_space(a) && all_space(b) && s@ == #[trigger] (a + r@ + b),
        r@.len() > 0 ==> !is_space(r@.first()) && !is_space(r@.last()),
{
    let n = lemma_trimmed_start(s@);
    let t = s@.skip(n);
    let m = lemma_trimmed_end(t);
    assert(r@ == t.take(m));
    assert(s@ =~= s@.take(n) + r@ + t.skip(m));
    if m > 0 {
        assert(r@.first() == s@[n]);
        assert(r@.last() == t[m - 1]);
    }
}

/// Lowering turns the 26 ASCII capitals into their small letters, raising turns
/// those back, and both leave everything else alone.
pub proof fn law_letter_case(s: &str, low: String, high: String, i: int)
    requires
        call_ensures(lower, (s,), low),
        call_ensures(upper, (s,), high),
        0 <= i < s@.len(),
    ensures
        low@.len() == s@.len() == high@.len(),
        'A' <= s@[i] <= 'Z' ==> low@[i] as u32 == s@[i] as u32 + 32 && high@[i] == s@[i],
        'a' <= s@[i] <= 'z' ==> high@[i] as u32 == s@[i] as u32 - 32 && low@[i] == s@[i],
        !('A' <= s@[i] <= 'Z') && !('a' <= s@[i] <= 'z') ==> low@[i] == s@[i] == high@[i],
{
}

/// A prefix that is taken off, and what is left, are the whole text; and it is
/// taken off wherever the text begins with it.
pub proof fn law_prefix_comes_off(s: &str, p: &str, r: Option<String>, starts: bool)
    requires
        call_ensures(strip_prefix, (s, p), r),
        call_ensures(starts_with, (s, p), starts),
    ensures
        r is Some ==> s@ == p@ + r->0@,
        starts <==> r is Some,
        forall|rest: Seq<char>| s@ == #[trigger] (p@ + rest) ==> r is Some && r->0@ == rest,
{
    if r is Some {
        assert(s@ =~= p@ + r->0@);
    }
    assert forall|rest: Seq<char>| s@ == #[trigger] (p@ + rest) implies r is Some && r->0@
        == rest by {
        assert(s@.subrange(0, p@.len() as int) =~= p@);
        assert(s@.subrange(p@.len() as int, s@.len() as int) =~= rest);
    }
}

/// A suffix that is taken off, and what is left, are the whole text; and it is
/// taken off wherever the text ends in it.
pub proof fn law_suffix_comes_off(s: &str, p: &str, r: Option<String>, ends: bool)
    requires
        call_ensures(strip_suffix, (s, p), r),
        call_ensures(ends_with, (s, p), ends),
    ensures
        r is Some ==> s@ == r->0@ + p@,
        ends <==> r is Some,
        forall|rest: Seq<char>| s@ == #[trigger] (rest + p@) ==> r is Some && r->0@ == rest,
{
    if r is Some {
        assert(s@ =~= r->0@ + p@);
    }
    assert forall|rest: Seq<char>| s@ == #[trigger] (rest + p@) implies r is Some && r->0@
        == rest by {
        assert(s@.subrange(s@.len() - p@.len(), s@.len() as int) =~= p@);
        assert(s@.subrange(0, s@.len() - p@.len()) =~= rest);
    }
}

/// A text is split at the first place where a part of it stands: what is before,
/// the part, and what is after make up the text, and the part does not stand
/// earlier. Without the part, all of the text is before it.
pub proof fn law_split_at_first(
    s: &str,
    p: &str,
    head: String,
    tail: Option<String>,
    found: bool,
)
    requires
        call_ensures(head_before, (s, p), head),
        call_ensures(tail_after, (s, p), tail),
        call_ensures(contains, (s, p), found),
    ensures
        found <==> tail is Some,
        tail is Some ==> s@ == head@ + p@ + tail->0@,
        tail is None ==> head@ == s@,
        forall|a: Seq<char>, b: Seq<char>| s@ == #[trigger] (a + p@ + b) ==> tail is Some
            && head@.len() <= a.len(),
{
    lemma_find(s@, p@, 0);
    if let Some(i) = find(s@, p@, 0) {
        assert(s@.subrange(i, i + p@.len()) == p@);
        assert(s@ =~= head@ + p@ + tail->0@);
    }
    assert forall|a: Seq<char>, b: Seq<char>| s@ == #[trigger] (a + p@ + b) implies tail is Some
        && head@.len() <= a.len() by {
        assert(s@.subrange(a.len() as int, a.len() as int + p@.len()) =~= p@);
        assert(occurs_at(s@, p@, a.len() as int));
    }
}

/// Every place where `p` stands is exchanged, from the left, and the rest stays.
pub proof fn law_exchange(a: Seq<char>, p: Seq<char>, b: Seq<char>, by: Seq<char>)
    requires
        p.len() > 0,
        !occurs(a + p.drop_last(), p),
    ensures
        exchanged(a + p + b, p, by) == a + by + exchanged(b, p, by),
        exchanged(a, p, by) == a,
{
    let s = a + p + b;
    lemma_find(s, p, 0);
    assert(s.subrange(a.len() as int, a.len() as int + p.len()) =~= p);
    assert(occurs_at(s, p, a.len() as int));
    let i = find(s, p, 0)->0;
    if i < a.len() {
        assert((a + p.drop_last()).subrange(i, i + p.len()) =~= s.subrange(i, i + p.len()));
        assert(occurs_at(a + p.drop_last(), p, i));
    }
    assert(s.subrange(0, i) =~= a);
    assert(s.subrange(i + p.len(), s.len() as int) =~= b);
    lemma_find(a, p, 0);
    if let Some(k) = find(a, p, 0) {
        assert((a + p.drop_last()).subrange(k, k + p.len()) =~= a.subrange(k, k + p.len()));
        assert(occurs_at(a + p.drop_last(), p, k));
    }
}

/// Replacing characters touches those that are named and no other.
pub proof fn law_replace(s: &str, which: &[char], by: char, r: String, i: int)
    requires
        call_ensures(replace, (s, which, by), r),
        0 <= i < s@.len(),
    ensures
        r@.len() == s@.len(),
        which@.contains(s@[i]) ==> r@[i] == by,
        !which@.contains(s@[i]) ==> r@[i] == s@[i],
{
}

/// Padding puts blanks on one side, as many as are missing, and never cuts.
pub proof fn law_padding(s: &str, width: usize, left: String, right: String)
    requires
        call_ensures(pad_left, (s, width), left),
        call_ensures(pad_right, (s, width), right),
    ensures
        left@.len() == right@.len(),
        s@.len() >= width ==> left@ == s@ && right@ == s@,
        s@.len() < width ==> left@.len() == width,
        left@.skip(left@.len() - s@.len()) == s@,
        right@.take(s@.len() as int) == s@,
        forall|i: int| 0 <= i < left@.len() - s@.len() ==> #[trigger] left@[i] == ' ',
        forall|i: int| s@.len() <= i < right@.len() ==> #[trigger] right@[i] == ' ',
{
    assert(left@.skip(left@.len() - s@.len()) =~= s@);
    assert(right@.take(s@.len() as int) =~= s@);
}

/// Shortening keeps the start of the text, as much as there is room for.
pub proof fn law_shorten(s: &str, n: usize, r: String)
    requires
        call_ensures(take_chars, (s, n), r),
    ensures
        r@.len() <= n,
        r@.len() == n || r@ == s@,
        r@.len() <= s@.len() && r@ == s@.take(r@.len() as int),
{
    assert(r@ =~= s@.take(r@.len() as int));
}

/// Taking a character off the end takes all of its kind there and no other.
pub proof fn law_trailing_characters_go(s: Seq<char>, c: char)
    ensures
        without_trailing(s, c).len() <= s.len(),
        s == without_trailing(s, c) + repeated(c, (s.len() - without_trailing(s, c).len()) as nat),
        without_trailing(s, c).len() > 0 ==> without_trailing(s, c).last() != c,
    decreases s.len(),
{
    if s.len() > 0 && s.last() == c {
        law_trailing_characters_go(s.drop_last(), c);
        let r = without_trailing(s, c);
        assert(s =~= s.drop_last().push(c));
        assert(s =~= r + repeated(c, (s.len() - r.len()) as nat));
    } else {
        assert(s =~= s + repeated(c, 0));
    }
}

/// A row of hexadecimal digits: as many as asked for, of the sixteen in either
/// case.
pub proof fn law_hexadecimal(s: &str, count: usize, r: bool, i: int)
    requires
        call_ensures(hex_digits, (s, count), r),
        0 <= i < s@.len(),
    ensures
        r ==> s@.len() == count,
        r ==> '0' <= s@[i] <= '9' || 'a' <= s@[i] <= 'f' || 'A' <= s@[i] <= 'F',
        s@.len() == count && (forall|k: int|
            0 <= k < s@.len() ==> '0' <= #[trigger] s@[k] <= '9' || 'a' <= s@[k] <= 'f') ==> r,
{
    if forall|k: int|
        0 <= k < s@.len() ==> '0' <= #[trigger] s@[k] <= '9' || 'a' <= s@[k] <= 'f' {
        assert(all_hex(s@));
    }
    if r {
        assert(is_hex(s@[i]));
    }
}

} // verus!
