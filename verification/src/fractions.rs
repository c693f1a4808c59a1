//! Fractions between none and one, and which of two is larger.

use vstd::prelude::*;

use crate::numbers::{is_digit, value};
use crate::text::chars_of;

verus! {

/// The largest denominator.
pub const MAX_DENOMINATOR: u64 = 1_000_000_000_000_000_000;

/// A fraction.
#[derive(Clone, Copy, Debug, PartialEq, Eq, Structural)]
pub struct Fraction {
    pub num: u64,
    pub den: u64,
}

impl Fraction {
    /// The fraction lies between none and one.
    pub open spec fn wf(&self) -> bool {
        0 < self.den <= MAX_DENOMINATOR && self.num <= self.den
    }
}

/// The product of two numbers.
pub fn product(a: u64, b: u64) -> (r: u128)
    ensures
        r == a * b,
        r <= 0xffff_ffff_ffff_fffe_0000_0000_0000_0001,
{
    assert(a * b <= 0xffff_ffff_ffff_fffe_0000_0000_0000_0001) by (nonlinear_arith)
        requires
            a <= 0xffff_ffff_ffff_ffff,
            b <= 0xffff_ffff_ffff_ffff,
    ;
    (a as u128) * (b as u128)
}

/// `equal` of `total` is at least the fraction.
pub open spec fn at_least(equal: nat, total: nat, f: Fraction) -> bool {
    equal * f.den >= f.num * total
}

/// Whether `equal` of `total` is at least the fraction.
pub fn is_at_least(equal: u64, total: u64, f: Fraction) -> (r: bool)
    ensures
        r == at_least(equal as nat, total as nat, f),
{
    product(equal, f.den) >= product(f.num, total)
}

/// `e1` of `t1` is more than `e2` of `t2`.
pub open spec fn more_than(e1: nat, t1: nat, e2: nat, t2: nat) -> bool {
    e1 * t2 > e2 * t1
}

/// Whether `e1` of `t1` is more than `e2` of `t2`.
pub fn is_more_than(e1: u64, t1: u64, e2: u64, t2: u64) -> (r: bool)
    ensures
        r == more_than(e1 as nat, t1 as nat, e2 as nat, t2 as nat),
{
    product(e1, t2) > product(e2, t1)
}

/// Ten to the power of `k`.
pub open spec fn ten_to(k: nat) -> nat
    decreases k,
{
    if k == 0 {
        1
    } else {
        10 * ten_to((k - 1) as nat)
    }
}

/// The digits behind the point of a decimal, as many as count.
pub open spec fn counted_digits(digits: Seq<char>) -> Seq<char> {
    if digits.len() <= 18 {
        digits
    } else {
        digits.take(18)
    }
}

/// A digit behind the eighteenth is not zero.
pub open spec fn has_more_digits(digits: Seq<char>) -> bool {
    exists|i: int| 18 <= i < digits.len() && #[trigger] digits[i] != '0'
}

/// The fraction that a decimal between none and one writes: `0.85` is 85 of a
/// hundred. Of more than eighteen digits behind the point the first eighteen
/// count, and one more of the last of them where any digit that is left out is
/// not zero. What is below none is none, and what is one or above is one.
pub open spec fn decimal_fraction(s: Seq<char>) -> Option<(nat, nat)> {
    if s.len() == 0 {
        None
    } else if s[0] == '-' {
        Some((0, 1))
    } else if s[0] != '0' {
        if is_digit(s[0]) {
            Some((1, 1))
        } else {
            None
        }
    } else if s.len() == 1 {
        Some((0, 1))
    } else if s[1] != '.' {
        None
    } else {
        let digits = counted_digits(s.skip(2));
        if forall|i: int| 0 <= i < digits.len() ==> is_digit(#[trigger] digits[i]) {
            Some(
                (
                    value(digits) + if has_more_digits(s.skip(2)) {
                        1nat
                    } else {
                        0nat
                    },
                    ten_to(digits.len()),
                ),
            )
        } else {
            None
        }
    }
}

/// The fraction that a decimal between none and one writes.
pub fn parse_fraction(s: &str) -> (r: Option<Fraction>)
    ensures
        decimal_fraction(s@) == (match r {
            Some(f) => Some((f.num as nat, f.den as nat)),
            None => None,
        }),
        r matches Some(f) ==> f.wf(),
{
    let chars = chars_of(s);
    if chars.len() == 0 {
        return None;
    }
    if chars[0] == '-' {
        return Some(Fraction { num: 0, den: 1 });
    }
    if chars[0] != '0' {
        if chars[0] >= '0' && chars[0] <= '9' {
            return Some(Fraction { num: 1, den: 1 });
        }
        return None;
    }
    if chars.len() == 1 {
        return Some(Fraction { num: 0, den: 1 });
    }
    if chars[1] != '.' {
        return None;
    }
    let total: usize = if chars.len() - 2 <= 18 {
        chars.len() - 2
    } else {
        18
    };
    let ghost digits = counted_digits(s@.skip(2));
    let mut num: u64 = 0;
    let mut den: u64 = 1;
    let mut k: usize = 0;
    assert(digits.len() == total);
    assert(digits.take(0) =~= Seq::<char>::empty());
    while k < total
        invariant
            total <= 18,
            total + 2 <= chars@.len(),
            chars@ == s@,
            s@[0] == '0',
            s@[1] == '.',
            digits == counted_digits(s@.skip(2)),
            digits.len() == total,
            k <= total,
            num == value(digits.take(k as int)),
            den == ten_to(k as nat),
            num <= den,
            den <= 1_000_000_000_000_000_000,
            k < 18 ==> den * 10 <= 1_000_000_000_000_000_000,
            forall|i: int| 0 <= i < k ==> is_digit(#[trigger] digits[i]),
            k >= 1 ==> num < den,
            k == 0 ==> num == 0,
        decreases total - k,
    {
        let c: char = chars[k + 2];
        assert(c == digits[k as int]);
        if c < '0' || c > '9' {
            assert(!is_digit(digits[k as int]));
            return None;
        }
        assert(digits.take(k + 1).drop_last() =~= digits.take(k as int));
        let d: u64 = (c as u8 - 48u8) as u64;
        num = num * 10 + d;
        den = den * 10;
        k += 1;
        proof {
            lemma_ten_to(k as nat);
        }
    }
    assert(digits.take(digits.len() as int) =~= digits);
    let ghost after = s@.skip(2);
    let mut i: usize = 20;
    while i < chars.len()
        invariant
            chars@ == s@,
            after == s@.skip(2),
            20 <= i,
            total <= 18,
            chars@.len() >= 20 ==> total == 18,
            num < den || total == 0,
            den <= 1_000_000_000_000_000_000,
            den == ten_to(total as nat),
            digits == counted_digits(after),
            digits.len() == total,
            forall|j: int| 0 <= j < digits.len() ==> is_digit(#[trigger] digits[j]),
            num == value(digits),
            s@.len() >= 2,
            s@[0] == '0',
            s@[1] == '.',
            forall|j: int| 18 <= j < i - 2 && j < after.len() ==> #[trigger] after[j] == '0',
        decreases chars@.len() - i,
    {
        assert(chars@[i as int] == after[i - 2]);
        if chars[i] != '0' {
            assert(has_more_digits(after));
            return Some(Fraction { num: num + 1, den });
        }
        i += 1;
    }
    assert(!has_more_digits(after));
    Some(Fraction { num, den })
}

/// Fewer factors of ten leave room for one more.
proof fn lemma_ten_to(k: nat)
    ensures
        k < 18 ==> ten_to(k) * 10 <= 1_000_000_000_000_000_000,
        k <= 18 ==> ten_to(k) <= 1_000_000_000_000_000_000,
{
    reveal_with_fuel(ten_to, 19);
}

} // verus!
