//! Decimal numbers in texts.

use vstd::prelude::*;

use crate::text;

verus! {

/// The character of the decimal digit `d`.
pub open spec fn digit(d: nat) -> char {
    (48 + d) as u8 as char
}

/// The decimal notation of `n`.
pub open spec fn decimal(n: nat) -> Seq<char>
    decreases n,
{
    if n < 10 {
        seq![digit(n)]
    } else {
        decimal(n / 10).push(digit(n % 10))
    }
}

/// The decimal notation of `n`.
pub fn to_decimal(n: u64) -> (r: String)
    ensures
        r@ == decimal(n as nat),
    decreases n,
{
    let d: char = (48u8 + (n % 10) as u8) as char;
    let mut out = if n < 10 {
        String::new()
    } else {
        to_decimal(n / 10)
    };
    out.push(d);
    assert(out@ =~= decimal(n as nat));
    out
}

/// `n` in at least two digits.
pub open spec fn two_digits(n: nat) -> Seq<char> {
    if n < 10 {
        seq!['0'] + decimal(n)
    } else {
        decimal(n)
    }
}

/// `n` in at least two digits.
pub fn to_two_digits(n: u64) -> (r: String)
    ensures
        r@ == two_digits(n as nat),
{
    if n < 10 {
        let mut out = String::new();
        out.push('0');
        assert(out@ =~= seq!['0']);
        out.append(to_decimal(n).as_str());
        out
    } else {
        to_decimal(n)
    }
}

/// The decimal digits.
pub open spec fn is_digit(c: char) -> bool {
    '0' <= c <= '9'
}

/// The number that a row of digits denotes; none for another row, and none
/// for an empty one.
pub open spec fn digits_value(s: Seq<char>) -> Option<nat>
    decreases s.len(),
{
    if s.len() == 0 || !is_digit(s.last()) {
        None
    } else if s.len() == 1 {
        Some(((s.last() as u8) - 48) as nat)
    } else {
        match digits_value(s.drop_last()) {
            Some(n) => Some(n * 10 + ((s.last() as u8) - 48) as nat),
            None => None,
        }
    }
}

/// The number that `s` denotes: digits after at most one sign `+`.
pub open spec fn number_value(s: Seq<char>) -> Option<nat> {
    if s.len() > 0 && s.first() == '+' {
        digits_value(s.drop_first())
    } else {
        digits_value(s)
    }
}

/// The number that `s` denotes, if it does and the number fits.
pub open spec fn size_value(s: Seq<char>) -> Option<usize> {
    match number_value(s) {
        Some(n) => if n <= usize::MAX {
            Some(n as usize)
        } else {
            None
        },
        None => None,
    }
}

/// A longer row of digits denotes no smaller number.
proof fn lemma_longer(s: Seq<char>, k: int)
    requires
        0 < k <= s.len(),
    ensures
        digits_value(s.take(k)) is None ==> digits_value(s) is None,
        digits_value(s) is Some ==> digits_value(s.take(k)) is Some && digits_value(
            s.take(k),
        )->0 <= digits_value(s)->0,
    decreases s.len(),
{
    if k == s.len() {
        assert(s.take(k) =~= s);
    } else {
        lemma_longer(s.drop_last(), k);
        assert(s.drop_last().take(k) =~= s.take(k));
    }
}

/// The number that `s` denotes, if it does and the number fits.
pub fn parse_size(s: &str) -> (r: Option<usize>)
    ensures
        r == size_value(s@),
{
    let v = text::chars_of(s);
    let from: usize = if v.len() > 0 && v[0] == '+' {
        1
    } else {
        0
    };
    let ghost body = v@.skip(from as int);
    assert(from == 0 ==> body =~= v@);
    assert(from == 1 ==> body =~= v@.drop_first());
    let end: usize = v.len();
    if from == end {
        return None;
    }
    let mut total: usize = 0;
    let mut i: usize = from;
    while i < end
        invariant
            from <= i <= end,
            from < end,
            end == v@.len(),
            body == v@.skip(from as int),
            size_value(s@) == (match digits_value(body) {
                Some(n) => if n <= usize::MAX {
                    Some(n as usize)
                } else {
                    None
                },
                None => None,
            }),
            i > from ==> digits_value(body.take(i - from)) == Some(total as nat),
            i == from ==> total == 0,
        decreases end - i,
    {
        let c: char = v[i];
        let ghost upto = body.take(i + 1 - from);
        assert(upto.drop_last() =~= body.take(i - from));
        assert(upto.last() == c);
        proof {
            lemma_longer(body, i + 1 - from);
        }
        if !('0' <= c && c <= '9') {
            return None;
        }
        let d: usize = (c as u8 - 48) as usize;
        if total > (usize::MAX - d) / 10 {
            assert(total * 10 + d > usize::MAX);
            return None;
        }
        total = total * 10 + d;
        i += 1;
    }
    assert(body.take(end - from) =~= body);
    Some(total)
}

/// A number is read back as it was written.
pub proof fn law_decimal_is_read_back(n: nat)
    ensures
        number_value(decimal(n)) == Some(n),
{
    lemma_digits_of(n);
}

proof fn lemma_digits_of(n: nat)
    ensures
        digits_value(decimal(n)) == Some(n),
        decimal(n).len() > 0,
        is_digit(decimal(n).first()),
    decreases n,
{
    if n >= 10 {
        lemma_digits_of(n / 10);
        let whole = decimal(n);
        assert(whole.drop_last() =~= decimal(n / 10));
        assert(whole.first() == decimal(n / 10).first());
    }
}

/// The decimal notation grows by one digit for every factor of ten.
pub proof fn law_decimal_digits(n: nat, d: nat)
    requires
        d < 10,
    ensures
        decimal(d).len() == 1,
        decimal(d)[0] as u32 == '0' as u32 + d,
        n > 0 ==> decimal(10 * n + d) == decimal(n) + decimal(d),
        two_digits(d) == seq!['0'] + decimal(d),
        0 < n < 10 ==> two_digits(10 * n + d) == decimal(n) + decimal(d),
{
    if n > 0 {
        assert((10 * n + d) / 10 == n && (10 * n + d) % 10 == d);
        assert(decimal(10 * n + d) =~= decimal(n) + decimal(d));
    }
}

/// A number is read from its digits, with or without a plus, unless it is too
/// large; and nothing but digits is read as a number.
pub proof fn law_numbers_are_read(s: &str, r: Option<usize>, n: nat, i: int)
    requires
        call_ensures(parse_size, (s,), r),
    ensures
        s@ == decimal(n) || s@ == seq!['+'] + decimal(n) ==> r == (if n <= usize::MAX {
            Some(n as usize)
        } else {
            None
        }),
        s@.len() == 0 ==> r is None,
        0 < i < s@.len() && !('0' <= s@[i] <= '9') ==> r is None,
        0 < s@.len() && !('0' <= s@[0] <= '9') && s@[0] != '+' ==> r is None,
{
    lemma_digits_of(n);
    if s@ == seq!['+'] + decimal(n) {
        assert(s@.drop_first() =~= decimal(n));
    }
    if 0 < i < s@.len() && !('0' <= s@[i] <= '9') {
        lemma_not_digits(s@, i);
        if s@[0] == '+' {
            assert(s@.drop_first()[i - 1] == s@[i]);
            lemma_not_digits(s@.drop_first(), i - 1);
        }
    }
    if 0 < s@.len() && !('0' <= s@[0] <= '9') {
        lemma_not_digits(s@, 0);
    }
}

proof fn lemma_not_digits(s: Seq<char>, i: int)
    requires
        0 <= i < s.len(),
        !is_digit(s[i]),
    ensures
        digits_value(s) is None,
    decreases s.len(),
{
    if i < s.len() - 1 {
        lemma_not_digits(s.drop_last(), i);
    }
}

/// The decimal notation of a number is a row of digits.
pub proof fn law_decimal_has_digits_only(n: nat)
    ensures
        decimal(n).len() > 0,
        forall|i: int| 0 <= i < decimal(n).len() ==> '0' <= #[trigger] decimal(n)[i] <= '9',
    decreases n,
{
    if n >= 10 {
        law_decimal_has_digits_only(n / 10);
    }
}

} // verus!
