//! Whole numbers in decimal.

use vstd::prelude::*;

use crate::text::chars_of;

verus! {

/// The character for a digit below ten.
pub open spec fn digit(d: int) -> char {
    (48 + d) as char
}

/// `n` in decimal, without leading zeros.
pub open spec fn decimal(n: nat) -> Seq<char>
    decreases n,
{
    if n < 10 {
        seq![digit(n as int)]
    } else {
        decimal(n / 10).push(digit((n % 10) as int))
    }
}

/// `c` is a digit of ASCII.
pub open spec fn is_digit(c: char) -> bool {
    '0' <= c <= '9'
}

/// The number that the digits `s` write.
pub open spec fn value(s: Seq<char>) -> nat
    decreases s.len(),
{
    if s.len() == 0 {
        0
    } else {
        (value(s.drop_last()) * 10 + (s.last() as u8 - 48)) as nat
    }
}

/// `s` is one digit or more, which a plus sign may precede.
pub open spec fn is_number(s: Seq<char>) -> bool {
    let body = digits_of(s);
    body.len() > 0 && forall|i: int| 0 <= i < body.len() ==> is_digit(#[trigger] body[i])
}

/// `s` without the plus sign it may begin with.
pub open spec fn digits_of(s: Seq<char>) -> Seq<char> {
    if s.len() > 0 && s[0] == '+' {
        s.skip(1)
    } else {
        s
    }
}

/// The decimal of a number is made of digits, and its value is the number.
pub proof fn lemma_value_decimal(n: nat)
    ensures
        value(decimal(n)) == n,
        decimal(n).len() > 0,
        forall|i: int| 0 <= i < decimal(n).len() ==> is_digit(#[trigger] decimal(n)[i]),
    decreases n,
{
    reveal_with_fuel(value, 2);
    if n < 10 {
        assert(decimal(n).drop_last() =~= Seq::<char>::empty());
    } else {
        lemma_value_decimal(n / 10);
        assert(decimal(n).drop_last() =~= decimal(n / 10));
    }
}

/// A longer run of digits writes no smaller number.
proof fn lemma_value_grows(s: Seq<char>, i: int)
    requires
        0 <= i <= s.len(),
        forall|k: int| 0 <= k < s.len() ==> is_digit(#[trigger] s[k]),
    ensures
        value(s.take(i)) <= value(s),
    decreases s.len(),
{
    if i < s.len() {
        lemma_value_grows(s.drop_last(), i);
        assert(s.drop_last().take(i) =~= s.take(i));
    } else {
        assert(s.take(i) =~= s);
    }
}

/// `n` in decimal.
pub fn u128_decimal(n: u128) -> (r: String)
    ensures
        r@ == decimal(n as nat),
{
    let mut back: Vec<char> = Vec::new();
    let mut rest: u128 = n;
    while rest >= 10
        invariant
            decimal(n as nat) == decimal(rest as nat) + back@.reverse(),
        decreases rest,
    {
        let d: u8 = (rest % 10) as u8;
        let c: char = (48u8 + d) as char;
        let ghost tail = back@;
        back.push(c);
        assert(tail.push(c).reverse() =~= seq![c] + tail.reverse());
        assert(decimal((rest / 10) as nat).push(c) + tail.reverse() =~= decimal(
            (rest / 10) as nat,
        ) + (seq![c] + tail.reverse()));
        rest = rest / 10;
    }
    let c: char = (48u8 + rest as u8) as char;
    let mut out = String::new();
    out.push(c);
    let mut k: usize = back.len();
    while k > 0
        invariant
            k <= back@.len(),
            out@ == seq![c] + back@.reverse().take(back@.len() - k),
        decreases k,
    {
        k -= 1;
        out.push(back[k]);
        assert(back@.reverse().take(back@.len() - k) =~= back@.reverse().take(
            back@.len() - k - 1,
        ).push(back@[k as int]));
    }
    assert(back@.reverse().take(back@.len() as int) =~= back@.reverse());
    out
}

/// `n` in decimal.
pub fn u64_decimal(n: u64) -> (r: String)
    ensures
        r@ == decimal(n as nat),
{
    u128_decimal(n as u128)
}

/// `n` in decimal.
pub fn usize_decimal(n: usize) -> (r: String)
    ensures
        r@ == decimal(n as nat),
{
    u64_decimal(n as u64)
}

/// The number that `s` writes, where it writes one that a `u64` holds.
pub fn parse_u64(s: &str) -> (r: Option<u64>)
    ensures
        r is Some == (is_number(s@) && value(digits_of(s@)) <= u64::MAX),
        r matches Some(n) ==> n == value(digits_of(s@)),
{
    let a = chars_of(s);
    let start: usize = if a.len() > 0 && a[0] == '+' {
        1
    } else {
        0
    };
    let ghost body = digits_of(s@);
    assert(body =~= s@.skip(start as int));
    if a.len() == start {
        return None;
    }
    let mut n: u64 = 0;
    let mut i: usize = start;
    assert(body.take(0) =~= Seq::<char>::empty());
    while i < a.len()
        invariant
            start <= i <= a@.len(),
            a@ == s@,
            body == digits_of(s@),
            body =~= s@.skip(start as int),
            n == value(body.take(i - start)),
            forall|k: int| 0 <= k < i - start ==> is_digit(#[trigger] body[k]),
        decreases a@.len() - i,
    {
        let c: char = a[i];
        assert(c == body[i - start]);
        if c < '0' || c > '9' {
            return None;
        }
        let d: u64 = (c as u8 - 48u8) as u64;
        assert(body.take(i - start + 1).drop_last() =~= body.take(i - start));
        assert(value(body.take(i - start + 1)) == n * 10 + d);
        if n > u64::MAX / 10 || n * 10 > u64::MAX - d {
            proof {
                assert(value(body.take(i - start + 1)) > u64::MAX);
                if is_number(s@) {
                    lemma_value_grows(body, i - start + 1);
                }
            }
            return None;
        }
        n = n * 10 + d;
        i += 1;
    }
    assert(body.take(body.len() as int) =~= body);
    Some(n)
}

} // verus!
