//! Integers as a number system.

use crate::arith::{comparable, order_laws, Arithmetic, Widening};
use crate::math::turn_laws;
use crate::types::{decimal, decimal_text};
use vstd::prelude::*;
use vstd::string::StringExecFns;

verus! {

/// The 64-bit integers, as a number system.
///
/// Sums, differences and products wrap. Every other result is rounded down to
/// an integer. An angle is measured in quarter turns, so that sines and
/// cosines are exact. A division by zero gives 0, and so does the square root
/// of a negative number.
pub struct Integers;

/// The powers of `e` that the type holds, rounded down.
pub const POWERS_OF_E: [i64; 44] = [
    1, 2, 7, 20, 54, 148,
    403, 1096, 2980, 8103, 22026, 59874,
    162754, 442413, 1202604, 3269017, 8886110, 24154952,
    65659969, 178482300, 485165195, 1318815734, 3584912846, 9744803446,
    26489122129, 72004899337, 195729609428, 532048240601, 1446257064291, 3931334297144,
    10686474581524, 29048849665247, 78962960182680, 214643579785916, 583461742527454, 1586013452313430,
    4311231547115195, 11719142372802611, 31855931757113756, 86593400423993746, 235385266837019985, 639843493530054949,
    1739274941520501047, 4727839468229346561,
];

/// The powers of ten that the type holds.
pub const POWERS_OF_TEN: [i64; 19] = [
    1, 10, 100, 1000, 10000, 100000,
    1000000, 10000000, 100000000, 1000000000,
    10000000000, 100000000000, 1000000000000, 10000000000000,
    100000000000000, 1000000000000000, 10000000000000000,
    100000000000000000, 1000000000000000000,
];

/// `a / b` rounded down towards a remainder that is not negative, 0 where the
/// quotient does not exist or does not fit.
pub open spec fn euclidean_quotient(a: i64, b: i64) -> i64 {
    if b == 0 || !(i64::MIN <= a / b <= i64::MAX) {
        0
    } else {
        (a / b) as i64
    }
}

/// The remainder that belongs to [`euclidean_quotient`].
pub open spec fn euclidean_remainder(a: i64, b: i64) -> i64 {
    if b == 0 || (a == i64::MIN && b == -1) {
        0
    } else {
        (a % b) as i64
    }
}

/// Whether `r` is the square root of `a`, rounded down.
pub open spec fn is_square_root(r: i64, a: i64) -> bool {
    0 <= r && r * r <= a < (r + 1) * (r + 1)
}

/// The number of times that `n` can be divided by `base` before it is below
/// `base`.
pub open spec fn whole_log(n: nat, base: nat) -> nat
    decreases n,
{
    if n < base || base < 2 {
        0
    } else {
        proof {
            assert(n / base < n) by (nonlinear_arith)
                requires
                    2 <= base <= n,
            ;
        }
        1 + whole_log(n / base, base)
    }
}

/// [`whole_log`] of a positive number; the lowest number otherwise.
pub open spec fn integer_log(a: i64, base: nat) -> i64 {
    if a <= 0 {
        i64::MIN
    } else {
        whole_log(a as nat, base) as i64
    }
}

proof fn lemma_square_root_unique(r: i64, s: i64, a: i64)
    requires
        is_square_root(r, a),
        is_square_root(s, a),
    ensures
        r == s,
{
    assert(r == s) by (nonlinear_arith)
        requires
            0 <= r,
            r * r <= a < (r + 1) * (r + 1),
            0 <= s,
            s * s <= a < (s + 1) * (s + 1),
    ;
}

/// The square root of `a`, rounded down, by bisection.
fn square_root(a: i64) -> (r: i64)
    requires
        a > 0,
    ensures
        is_square_root(r, a),
{
    let mut lo: i64 = 0;
    let mut hi: i64 = 3_037_000_500;
    assert(3_037_000_500i64 * 3_037_000_500i64 > i64::MAX) by (nonlinear_arith);
    while hi - lo > 1
        invariant
            0 <= lo < hi <= 3_037_000_500,
            lo * lo <= a < hi * hi,
        decreases hi - lo,
    {
        let mid: i64 = lo + (hi - lo) / 2;
        assert(mid * mid <= i64::MAX) by (nonlinear_arith)
            requires
                0 <= mid < 3_037_000_500,
        ;
        assert(0 <= mid * mid) by (nonlinear_arith);
        if mid * mid <= a {
            lo = mid;
        } else {
            hi = mid;
        }
    }
    lo
}

/// [`integer_log`].
fn logarithm(a: i64, base: i64) -> (r: i64)
    requires
        2 <= base,
    ensures
        r == integer_log(a, base as nat),
{
    if a <= 0 {
        return i64::MIN;
    }
    let mut n: i64 = a;
    let mut count: i64 = 0;
    while n >= base
        invariant
            2 <= base,
            0 < n,
            0 <= count,
            count + n <= a,
            whole_log(a as nat, base as nat) == count + whole_log(n as nat, base as nat),
        decreases n,
    {
        assert(n / base < n && 0 < n / base) by (nonlinear_arith)
            requires
                2 <= base <= n,
        ;
        n = n / base;
        count = count + 1;
    }
    count
}

impl Arithmetic for Integers {
    type R = i64;

    open spec fn integer_value(n: i64) -> i64 {
        n
    }

    open spec fn count_value(n: usize) -> i64 {
        if n > i64::MAX as usize { i64::MAX } else { n as i64 }
    }

    open spec fn fraction_value(n: i64, d: i64) -> i64 {
        euclidean_quotient(n, d)
    }

    open spec fn sum(a: i64, b: i64) -> i64 {
        vstd::wrapping::i64_specs::wrapping_add(a, b)
    }

    open spec fn difference(a: i64, b: i64) -> i64 {
        vstd::wrapping::i64_specs::wrapping_sub(a, b)
    }

    open spec fn product(a: i64, b: i64) -> i64 {
        vstd::wrapping::i64_specs::wrapping_mul(a, b)
    }

    open spec fn quotient(a: i64, b: i64) -> i64 {
        euclidean_quotient(a, b)
    }

    open spec fn fused(a: i64, b: i64, c: i64) -> i64 {
        Self::sum(Self::product(a, b), c)
    }

    open spec fn middle(a: i64, b: i64) -> i64 {
        Self::quotient(Self::sum(a, b), 2)
    }

    open spec fn negation(a: i64) -> i64 {
        Self::difference(0, a)
    }

    open spec fn magnitude(a: i64) -> i64 {
        if a < 0 { Self::negation(a) } else { a }
    }

    open spec fn sign(a: i64) -> i64 {
        if a < 0 { (-1) as i64 } else { 1 }
    }

    open spec fn lesser(a: i64, b: i64) -> i64 {
        if b < a { b } else { a }
    }

    open spec fn greater(a: i64, b: i64) -> i64 {
        if b > a { b } else { a }
    }

    open spec fn rounded_down(a: i64) -> i64 {
        a
    }

    open spec fn rounded(a: i64) -> i64 {
        a
    }

    open spec fn remainder(a: i64, b: i64) -> i64 {
        euclidean_remainder(a, b)
    }

    open spec fn root(a: i64) -> i64 {
        if a <= 0 { 0 } else { choose|r: i64| is_square_root(r, a) }
    }

    open spec fn sine(a: i64) -> i64 {
        if a % 4 == 1 { 1 } else if a % 4 == 3 { (-1) as i64 } else { 0 }
    }

    open spec fn cosine(a: i64) -> i64 {
        if a % 4 == 0 { 1 } else if a % 4 == 2 { (-1) as i64 } else { 0 }
    }

    open spec fn angle(y: i64, x: i64) -> i64 {
        if y > 0 { if x > 0 { 0 } else { 1 } } else if y < 0 { if x >= 0 { (-1) as i64 } else { (-2) as i64 } } else if x < 0 { 2 } else { 0 }
    }

    open spec fn decimal_power(a: i64) -> i64 {
        if a < 0 { 0 } else if a < 19 { POWERS_OF_TEN@[a as int] } else { i64::MAX }
    }

    open spec fn exponential(a: i64) -> i64 {
        if a < 0 { 0 } else if a < 44 { POWERS_OF_E@[a as int] } else { i64::MAX }
    }

    open spec fn decimal_log(a: i64) -> i64 {
        integer_log(a, 10)
    }

    open spec fn binary_log(a: i64) -> i64 {
        integer_log(a, 2)
    }

    open spec fn hyperbolic_tangent(a: i64) -> i64 {
        if a < 0 { (-1) as i64 } else { 0 }
    }

    open spec fn half_turn() -> i64 {
        2
    }

    open spec fn root_of_half() -> i64 {
        0
    }

    open spec fn least_positive() -> i64 {
        1
    }

    open spec fn lowest() -> i64 {
        i64::MIN
    }

    open spec fn undefined() -> i64 {
        0
    }

    open spec fn less(a: i64, b: i64) -> bool {
        a < b
    }

    open spec fn at_most(a: i64, b: i64) -> bool {
        a <= b
    }

    open spec fn equal(a: i64, b: i64) -> bool {
        a == b
    }

    open spec fn finite(a: i64) -> bool {
        true
    }

    open spec fn integer_part(a: i64) -> i64 {
        a
    }

    open spec fn text(a: i64) -> Seq<char> {
        if a < 0 {
            "-"@ + decimal((-a) as nat)
        } else {
            decimal(a as nat)
        }
    }

    open spec fn natural_part(a: i64) -> u64 {
        if a < 0 { 0 } else { a as u64 }
    }

    fn integer(n: i64) -> (r: i64) {
        n
    }

    fn count(n: usize) -> (r: i64) {
        if n > i64::MAX as usize { i64::MAX } else { n as i64 }
    }

    fn fraction(n: i64, d: i64) -> (r: i64) {
        match n.checked_div_euclid(d) { Some(q) => q, None => 0 }
    }

    fn plus(a: i64, b: i64) -> (r: i64) {
        a.wrapping_add(b)
    }

    fn minus(a: i64, b: i64) -> (r: i64) {
        a.wrapping_sub(b)
    }

    fn times(a: i64, b: i64) -> (r: i64) {
        a.wrapping_mul(b)
    }

    fn over(a: i64, b: i64) -> (r: i64) {
        match a.checked_div_euclid(b) { Some(q) => q, None => 0 }
    }

    fn mul_add(a: i64, b: i64, c: i64) -> (r: i64) {
        Self::plus(Self::times(a, b), c)
    }

    fn midpoint(a: i64, b: i64) -> (r: i64) {
        Self::over(Self::plus(a, b), 2)
    }

    fn neg(a: i64) -> (r: i64) {
        Self::minus(0, a)
    }

    fn abs(a: i64) -> (r: i64) {
        if a < 0 { Self::neg(a) } else { a }
    }

    fn signum(a: i64) -> (r: i64) {
        if a < 0 { -1 } else { 1 }
    }

    fn min(a: i64, b: i64) -> (r: i64) {
        if b < a { b } else { a }
    }

    fn max(a: i64, b: i64) -> (r: i64) {
        if b > a { b } else { a }
    }

    fn floor(a: i64) -> (r: i64) {
        a
    }

    fn round(a: i64) -> (r: i64) {
        a
    }

    fn rem_euclid(a: i64, b: i64) -> (r: i64) {
        match a.checked_rem_euclid(b) { Some(q) => q, None => 0 }
    }

    fn sqrt(a: i64) -> (r: i64) {
        if a <= 0 {
            return 0;
        }
        let r: i64 = square_root(a);
        proof {
            lemma_square_root_unique(r, Self::root(a), a);
        }
        r
    }

    fn sin(a: i64) -> (r: i64) {
        let quarter: i64 = Self::rem_euclid(a, 4);
        if quarter == 1 {
            1
        } else if quarter == 3 {
            -1
        } else {
            0
        }
    }

    fn cos(a: i64) -> (r: i64) {
        let quarter: i64 = Self::rem_euclid(a, 4);
        if quarter == 0 {
            1
        } else if quarter == 2 {
            -1
        } else {
            0
        }
    }

    fn atan2(y: i64, x: i64) -> (r: i64) {
        if y > 0 { if x > 0 { 0 } else { 1 } } else if y < 0 { if x >= 0 { -1 } else { -2 } } else if x < 0 { 2 } else { 0 }
    }

    fn exp10(a: i64) -> (r: i64) {
        if a < 0 { 0 } else if a < 19 { POWERS_OF_TEN[a as usize] } else { i64::MAX }
    }

    fn exp(a: i64) -> (r: i64) {
        if a < 0 { 0 } else if a < 44 { POWERS_OF_E[a as usize] } else { i64::MAX }
    }

    fn log10(a: i64) -> (r: i64) {
        logarithm(a, 10)
    }

    fn log2(a: i64) -> (r: i64) {
        logarithm(a, 2)
    }

    fn tanh(a: i64) -> (r: i64) {
        if a < 0 { -1 } else { 0 }
    }

    fn pi() -> (r: i64) {
        2
    }

    fn frac_1_sqrt_2() -> (r: i64) {
        0
    }

    fn min_positive() -> (r: i64) {
        1
    }

    fn neg_infinity() -> (r: i64) {
        i64::MIN
    }

    fn nan() -> (r: i64) {
        0
    }

    fn lt(a: i64, b: i64) -> (r: bool) {
        a < b
    }

    fn le(a: i64, b: i64) -> (r: bool) {
        a <= b
    }

    fn same(a: i64, b: i64) -> (r: bool) {
        a == b
    }

    fn is_finite(a: i64) -> (r: bool) {
        true
    }

    fn to_i64(a: i64) -> (r: i64) {
        a
    }

    fn to_text(a: i64) -> (r: String) {
        if a < 0 {
            String::from_str("-").concat(decimal_text((-(a as i128)) as u64).as_str())
        } else {
            decimal_text(a as u64)
        }
    }

    fn to_u64(a: i64) -> (r: u64) {
        if a < 0 { 0 } else { a as u64 }
    }
}

impl Widening<Integers> for Integers {
    open spec fn narrowed(a: i64) -> i64 {
        a
    }

    open spec fn widened(a: i64) -> i64 {
        a
    }

    fn narrow(a: i64) -> (r: i64) {
        a
    }

    fn widen(a: i64) -> (r: i64) {
        a
    }
}

/// The integers have the laws of a turn.
pub proof fn integers_turn()
    ensures
        turn_laws::<Integers>(),
{
}

/// The middle of an integer and itself is that integer, unless twice the integer
/// does not fit.
pub proof fn integers_have_middles(a: i64)
    requires
        i64::MIN <= 2 * a <= i64::MAX,
    ensures
        Integers::middle(a, a) == a,
{
}

/// The integers are ordered.
pub proof fn integers_are_ordered()
    ensures
        order_laws::<Integers>(),
        forall|a: i64| #[trigger] comparable::<Integers>(a),
{
}

} // verus!
