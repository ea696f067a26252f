//! Decimal numbers.

use vstd::arithmetic::div_mod::lemma_div_denominator;
use vstd::arithmetic::power::{lemma_pow0, lemma_pow1, lemma_pow_positive, pow};
use vstd::prelude::*;

verus! {

/// The digit that stands for `d`, which is below ten.
pub open spec fn digit(d: nat) -> char {
    (48 + d) as char
}

/// `n` in decimal, without leading zeros.
pub open spec fn decimal(n: nat) -> Seq<char>
    decreases n,
{
    if n < 10 {
        seq![digit(n)]
    } else {
        decimal(n / 10).push(digit(n % 10))
    }
}

/// Whether `c` is one of the ten ASCII digits.
pub open spec fn is_digit(c: char) -> bool {
    48 <= c as u32 <= 57
}

/// The value of a run of digits.
pub open spec fn digits_value(s: Seq<char>) -> nat
    decreases s.len(),
{
    if s.len() == 0 {
        0
    } else {
        digits_value(s.drop_last()) * 10 + (s.last() as u32 - 48) as nat
    }
}

/// The digits of a number: the text itself, or what follows a leading `+`.
pub open spec fn unsigned(s: Seq<char>) -> Seq<char> {
    if s.len() > 0 && s[0] == '+' {
        s.skip(1)
    } else {
        s
    }
}

/// The number that `s` writes: an optional `+` and then digits only, at least one, with a value
/// that fits in `usize`.
pub open spec fn parsed(s: Seq<char>) -> Option<usize> {
    let d = unsigned(s);
    if d.len() > 0 && (forall|i: int| 0 <= i < d.len() ==> is_digit(#[trigger] d[i]))
        && digits_value(d) <= usize::MAX {
        Some(digits_value(d) as usize)
    } else {
        None
    }
}

fn digit_text(d: u64) -> (s: &'static str)
    requires
        d < 10,
    ensures
        s@ == seq![digit(d as nat)],
{
    proof {
        reveal_strlit("0");
        reveal_strlit("1");
        reveal_strlit("2");
        reveal_strlit("3");
        reveal_strlit("4");
        reveal_strlit("5");
        reveal_strlit("6");
        reveal_strlit("7");
        reveal_strlit("8");
        reveal_strlit("9");
    }
    let s = if d == 0 {
        "0"
    } else if d == 1 {
        "1"
    } else if d == 2 {
        "2"
    } else if d == 3 {
        "3"
    } else if d == 4 {
        "4"
    } else if d == 5 {
        "5"
    } else if d == 6 {
        "6"
    } else if d == 7 {
        "7"
    } else if d == 8 {
        "8"
    } else {
        "9"
    };
    assert(s@ =~= seq![digit(d as nat)]);
    s
}

/// Writes `n` in decimal.
pub fn to_decimal(n: u64) -> (s: String)
    ensures
        s@ == decimal(n as nat),
    decreases n,
{
    if n < 10 {
        digit_text(n).to_owned()
    } else {
        let mut s = to_decimal(n / 10);
        s.append(digit_text(n % 10));
        assert(s@ =~= decimal(n as nat));
        s
    }
}

proof fn lemma_digits_value_grows(s: Seq<char>, k: int)
    requires
        0 <= k <= s.len(),
        forall|i: int| 0 <= i < s.len() ==> is_digit(#[trigger] s[i]),
    ensures
        digits_value(s.take(k)) <= digits_value(s),
    decreases s.len() - k,
{
    if k < s.len() {
        lemma_digits_value_grows(s, k + 1);
        assert(s.take(k + 1).drop_last() =~= s.take(k));
    } else {
        assert(s.take(k) =~= s);
    }
}

/// Reads a number from text.
pub fn parse_usize(s: &str) -> (r: Option<usize>)
    ensures
        r == parsed(s@),
{
    let x = super::scan::chars_of(s);
    let n: usize = x.len();
    let start: usize = if n > 0 && x[0] == '+' {
        1
    } else {
        0
    };
    let ghost d = unsigned(s@);
    assert(d =~= s@.skip(start as int));
    if start == n {
        return None;
    }
    let mut value: usize = 0;
    let mut i: usize = start;
    assert(d.take(0) =~= Seq::<char>::empty());
    while i < n
        invariant
            x@ == s@,
            n == x.len(),
            start <= i <= n,
            start < n,
            d == unsigned(s@),
            d == s@.skip(start as int),
            forall|j: int| 0 <= j < i - start ==> is_digit(#[trigger] d[j]),
            value == digits_value(d.take(i - start)),
        decreases n - i,
    {
        let c: char = x[i];
        assert(c == d[i - start]);
        let u: u32 = c as u32;
        if u < 48 || u > 57 {
            assert(!is_digit(d[i - start]));
            return None;
        }
        let step: usize = (u - 48) as usize;
        proof {
            assert(d.take(i - start + 1).drop_last() =~= d.take(i - start));
        }
        if value > usize::MAX / 10 || value * 10 > usize::MAX - step {
            proof {
                if forall|j: int| 0 <= j < d.len() ==> is_digit(#[trigger] d[j]) {
                    lemma_digits_value_grows(d, i - start + 1);
                }
            }
            return None;
        }
        value = value * 10 + step;
        i += 1;
    }
    assert(d.take(n - start) =~= d);
    Some(value)
}

/// A number in decimal has the digits of its place values, and no more of them than it needs.
pub proof fn law_decimal_has_the_digits(n: nat)
    ensures
        decimal(n).len() > 0,
        n < pow(10, decimal(n).len()),
        decimal(n).len() > 1 ==> pow(10, (decimal(n).len() - 1) as nat) <= n,
        forall|i: int|
            0 <= i < decimal(n).len() ==> (#[trigger] decimal(n)[i]) as u32 as int == 48 + (n as int
                / pow(10, (decimal(n).len() - 1 - i) as nat)) % 10,
    decreases n,
{
    let s = decimal(n);
    let k = s.len();
    lemma_pow0(10);
    lemma_pow1(10);
    if n >= 10 {
        let m = n / 10;
        law_decimal_has_the_digits(m);
        let t = decimal(m);
        assert(k == t.len() + 1);
        lemma_pow_step(t.len());
        lemma_pow_step((t.len() - 1) as nat);
        assert forall|i: int| 0 <= i < k implies (#[trigger] s[i]) as u32 as int == 48 + (n as int
            / pow(10, (k - 1 - i) as nat)) % 10 by {
            if i < t.len() {
                let e = (t.len() - 1 - i) as nat;
                assert(s[i] == t[i]);
                lemma_pow_step(e);
                lemma_pow_positive(10, e);
                lemma_div_denominator(n as int, 10, pow(10, e));
                assert((k - 1 - i) as nat == e + 1);
            } else {
                assert((k - 1 - i) as nat == 0);
                assert(s[i] == digit(n % 10));
            }
        }
    } else {
        assert(s[0] == digit(n));
    }
}

proof fn lemma_pow_step(e: nat)
    ensures
        pow(10, e + 1) == 10 * pow(10, e),
{
    reveal(pow);
}

/// Zeros in front of a number.
pub open spec fn with_zeros(zeros: nat, n: nat) -> Seq<char> {
    Seq::new(zeros, |i: int| '0') + decimal(n)
}

proof fn lemma_zeros_value(zeros: nat, n: nat)
    ensures
        digits_value(with_zeros(zeros, n)) == n,
        forall|i: int|
            0 <= i < with_zeros(zeros, n).len() ==> is_digit(#[trigger] with_zeros(zeros, n)[i]),
        with_zeros(zeros, n).len() > 0,
    decreases n, zeros,
{
    let s = with_zeros(zeros, n);
    if n >= 10 {
        lemma_zeros_value(zeros, n / 10);
        let t = with_zeros(zeros, n / 10);
        assert(s =~= t.push(digit(n % 10)));
        assert(s.drop_last() =~= t);
        assert forall|i: int| 0 <= i < s.len() implies is_digit(#[trigger] s[i]) by {
            if i < t.len() {
                assert(s[i] == t[i]);
            }
        }
    } else {
        assert(decimal(n) =~= seq![digit(n)]);
        assert(s.last() == digit(n));
        let z = Seq::new(zeros, |i: int| '0');
        assert(s.drop_last() =~= z);
        lemma_only_zeros(zeros);
    }
}

proof fn lemma_only_zeros(zeros: nat)
    ensures
        digits_value(Seq::new(zeros, |i: int| '0')) == 0,
    decreases zeros,
{
    let z = Seq::new(zeros, |i: int| '0');
    if zeros > 0 {
        lemma_only_zeros((zeros - 1) as nat);
        assert(z.drop_last() =~= Seq::new((zeros - 1) as nat, |i: int| '0'));
    }
}

/// A number that is written in decimal is read back, with or without zeros and a plus sign in
/// front, as far as it fits in `usize`.
pub proof fn law_written_number_is_read(zeros: nat, n: nat)
    ensures
        n <= usize::MAX ==> parsed(with_zeros(zeros, n)) == Some(n as usize),
        n <= usize::MAX ==> parsed(seq!['+'] + with_zeros(zeros, n)) == Some(n as usize),
        n > usize::MAX ==> parsed(with_zeros(zeros, n)) is None,
        n > usize::MAX ==> parsed(seq!['+'] + with_zeros(zeros, n)) is None,
{
    let s = with_zeros(zeros, n);
    lemma_zeros_value(zeros, n);
    assert(is_digit(s[0]));
    assert(unsigned(s) == s);
    assert((seq!['+'] + s).skip(1) =~= s);
}

/// Whatever holds no digit, or anything but digits behind one plus sign, is no number.
pub proof fn law_only_numbers_are_read(s: Seq<char>, i: int)
    requires
        s.len() == 0 || s == seq!['+'] || (0 <= i < s.len() && !(48 <= s[i] as u32 <= 57) && !(i
            == 0 && s[0] == '+')),
    ensures
        parsed(s) is None,
{
    let d = unsigned(s);
    if s.len() > 0 && s != seq!['+'] {
        if s[0] == '+' {
            assert(d[i - 1] == s[i]);
            assert(!is_digit(d[i - 1]));
        } else {
            assert(!is_digit(d[i]));
        }
    }
}

} // verus!
