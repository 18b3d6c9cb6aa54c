//! Window functions for filter design.

use crate::arith::Arithmetic;
use crate::exact::{
    addends_in_any_order, differences_in_pairs, exact_laws, negation_laws, opposite,
    opposite_factors, opposites, products_undo, stays_finite, sum_with_zero, sums_undo,
    whole_numbers,
};
use crate::math::{full_turn, tau};
use vstd::prelude::*;

verus! {

/// The `k`-th term of the Nuttall window: `c cos(k 2 pi n / len)`, with the
/// weight `c` in millionths.
pub open spec fn cosine_term<D: Arithmetic>(millionths: i64, k: i64, n: D::R, len: D::R) -> D::R {
    D::product(
        D::fraction_value(millionths, 1_000_000),
        D::cosine(
            D::quotient(
                D::product(D::product(D::integer_value(k), full_turn::<D>()), n),
                len,
            ),
        ),
    )
}

/// The Nuttall window of length `len` at `n`.
pub open spec fn nuttall_at<D: Arithmetic>(n: D::R, len: D::R) -> D::R {
    D::difference(
        D::sum(
            D::difference(
                cosine_term::<D>(355_768, 0, n, len),
                cosine_term::<D>(487_396, 1, n, len),
            ),
            cosine_term::<D>(144_232, 2, n, len),
        ),
        cosine_term::<D>(12_604, 3, n, len),
    )
}

fn cosine_part<D: Arithmetic>(millionths: i64, k: i64, n: D::R, len: D::R) -> (r: D::R)
    ensures
        r == cosine_term::<D>(millionths, k, n, len),
{
    D::times(
        D::fraction(millionths, 1_000_000),
        D::cos(D::over(D::times(D::times(D::integer(k), tau::<D>()), n), len)),
    )
}

/// The Nuttall window of length `len` at `n`.
pub fn nuttall<D: Arithmetic>(n: D::R, len: D::R) -> (r: D::R)
    ensures
        r == nuttall_at::<D>(n, len),
{
    D::minus(
        D::plus(
            D::minus(
                cosine_part::<D>(355_768, 0, n, len),
                cosine_part::<D>(487_396, 1, n, len),
            ),
            cosine_part::<D>(144_232, 2, n, len),
        ),
        cosine_part::<D>(12_604, 3, n, len),
    )
}

/// Terms that are added up of the Bessel series.
pub const BESSEL_TERMS: u64 = 48;

/// The `k`-th term of the series of the modified Bessel function of order
/// zero, where `q` is a quarter of the squared argument: `q^k / k!^2`.
pub open spec fn bessel_term<D: Arithmetic>(q: D::R, k: nat) -> D::R
    decreases k,
{
    if k == 0 {
        D::integer_value(1)
    } else {
        D::quotient(
            D::product(bessel_term::<D>(q, (k - 1) as nat), q),
            D::integer_value((k * k) as i64),
        )
    }
}

/// The first `n` terms after the leading 1, added up in order.
pub open spec fn bessel_sum<D: Arithmetic>(q: D::R, n: nat) -> D::R
    decreases n,
{
    if n == 0 {
        D::integer_value(1)
    } else {
        D::sum(bessel_sum::<D>(q, (n - 1) as nat), bessel_term::<D>(q, n))
    }
}

/// The modified Bessel function of order zero, where `q` is a quarter of the
/// squared argument.
fn bessel<D: Arithmetic>(q: D::R) -> (r: D::R)
    ensures
        r == bessel_sum::<D>(q, BESSEL_TERMS as nat),
{
    let mut term: D::R = D::integer(1);
    let mut acc: D::R = D::integer(1);
    let mut k: u64 = 0;
    while k < BESSEL_TERMS
        invariant
            k <= BESSEL_TERMS,
            term == bessel_term::<D>(q, k as nat),
            acc == bessel_sum::<D>(q, k as nat),
        decreases BESSEL_TERMS - k,
    {
        k = k + 1;
        assert(0 < k * k <= 48 * 48) by (nonlinear_arith)
            requires
                0 < k <= 48,
        ;
        term = D::over(D::times(term, q), D::integer((k * k) as i64));
        acc = D::plus(acc, term);
    }
    acc
}

/// A quarter of the squared argument of the Bessel function in a Kaiser
/// window: `beta^2 (1 - x^2) / 4`, not below 0.
pub open spec fn kaiser_argument<D: Arithmetic>(x: D::R, beta: D::R) -> D::R {
    D::quotient(
        D::product(
            D::product(beta, beta),
            D::greater(
                D::difference(D::integer_value(1), D::product(x, x)),
                D::integer_value(0),
            ),
        ),
        D::integer_value(4),
    )
}

/// The Kaiser window of `len` points and shape `beta` at the point `n`: the
/// Bessel function at `beta sqrt(1 - x^2)` over its value at `beta`, where `x`
/// goes from -1 at the first point to 1 at the last.
pub open spec fn kaiser_at<D: Arithmetic>(n: D::R, len: D::R, beta: D::R) -> D::R {
    let one = D::integer_value(1);
    if D::at_most(len, one) {
        one
    } else {
        let x = D::difference(
            D::quotient(D::product(D::integer_value(2), n), D::difference(len, one)),
            one,
        );
        D::quotient(
            bessel_sum::<D>(kaiser_argument::<D>(x, beta), BESSEL_TERMS as nat),
            bessel_sum::<D>(
                kaiser_argument::<D>(D::integer_value(0), beta),
                BESSEL_TERMS as nat,
            ),
        )
    }
}

fn kaiser_square<D: Arithmetic>(x: D::R, beta: D::R) -> (r: D::R)
    ensures
        r == kaiser_argument::<D>(x, beta),
{
    D::over(
        D::times(
            D::times(beta, beta),
            D::max(D::minus(D::integer(1), D::times(x, x)), D::integer(0)),
        ),
        D::integer(4),
    )
}

/// The Kaiser window of `len` points and shape `beta` at the point `n`.
pub fn kaiser<D: Arithmetic>(n: D::R, len: D::R, beta: D::R) -> (r: D::R)
    ensures
        r == kaiser_at::<D>(n, len, beta),
{
    let one: D::R = D::integer(1);
    if D::le(len, one) {
        return one;
    }
    let x: D::R = D::minus(D::over(D::times(D::integer(2), n), D::minus(len, one)), one);
    D::over(
        bessel::<D>(kaiser_square::<D>(x, beta)),
        bessel::<D>(kaiser_square::<D>(D::integer(0), beta)),
    )
}

/// `a` to the power 2/5, through its logarithm.
pub open spec fn two_fifths_power<D: Arithmetic>(a: D::R) -> D::R {
    D::exponential(
        D::product(
            D::fraction_value(2, 5),
            D::quotient(D::binary_log(a), D::binary_log(D::exponential(D::integer_value(1)))),
        ),
    )
}

/// The shape of a Kaiser window for a stopband `atten` decibels down, by
/// Kaiser's formula.
pub open spec fn kaiser_shape<D: Arithmetic>(atten: D::R) -> D::R {
    if D::less(D::integer_value(50), atten) {
        D::product(
            D::fraction_value(1_102, 10_000),
            D::difference(atten, D::fraction_value(87, 10)),
        )
    } else if D::less(D::integer_value(21), atten) {
        let over = D::difference(atten, D::integer_value(21));
        D::sum(
            D::product(D::fraction_value(5_842, 10_000), two_fifths_power::<D>(over)),
            D::product(D::fraction_value(7_886, 100_000), over),
        )
    } else {
        D::integer_value(0)
    }
}

/// The shape of a Kaiser window for a stopband `atten_db` decibels down.
pub fn kaiser_beta<D: Arithmetic>(atten_db: D::R) -> (r: D::R)
    ensures
        r == kaiser_shape::<D>(atten_db),
{
    if D::lt(D::integer(50), atten_db) {
        return D::times(
            D::fraction(1_102, 10_000),
            D::minus(atten_db, D::fraction(87, 10)),
        );
    }
    if D::lt(D::integer(21), atten_db) {
        let over: D::R = D::minus(atten_db, D::integer(21));
        let power: D::R = D::exp(
            D::times(
                D::fraction(2, 5),
                D::over(D::log2(over), D::log2(D::exp(D::integer(1)))),
            ),
        );
        return D::plus(
            D::times(D::fraction(5_842, 10_000), power),
            D::times(D::fraction(7_886, 100_000), over),
        );
    }
    D::integer(0)
}

/// The length of a Kaiser window before it is made a whole odd number:
/// `(atten - 7.95) / (2.285 transition)`.
pub open spec fn kaiser_span<D: Arithmetic>(atten: D::R, transition: D::R) -> D::R {
    D::quotient(
        D::difference(atten, D::fraction_value(795, 100)),
        D::product(D::fraction_value(2_285, 1_000), transition),
    )
}

/// The number of taps of a Kaiser design: the span rounded up, one more, and
/// made odd.
pub open spec fn kaiser_taps<D: Arithmetic>(atten: D::R, transition: D::R) -> int {
    let up = D::natural_part(
        D::negation(D::rounded_down(D::negation(kaiser_span::<D>(atten, transition)))),
    );
    let count = up + 1;
    if count % 2 == 0 {
        count + 1
    } else {
        count
    }
}

/// The number of taps of a Kaiser design whose transition band is
/// `transition_rad` wide and whose stopband is `atten_db` decibels down. It is
/// odd. The largest number of the type stands for every count that does not
/// fit.
pub fn kaiser_length<D: Arithmetic>(atten_db: D::R, transition_rad: D::R) -> (r: usize)
    ensures
        r == (if kaiser_taps::<D>(atten_db, transition_rad) > usize::MAX {
            usize::MAX as int
        } else {
            kaiser_taps::<D>(atten_db, transition_rad)
        }),
{
    let span: D::R = D::over(
        D::minus(atten_db, D::fraction(795, 100)),
        D::times(D::fraction(2_285, 1_000), transition_rad),
    );
    let up: u64 = D::to_u64(D::neg(D::floor(D::neg(span))));
    let count: u128 = up as u128 + 1;
    let odd: u128 = if count % 2 == 0 {
        count + 1
    } else {
        count
    };
    if odd > usize::MAX as u128 {
        usize::MAX
    } else {
        odd as usize
    }
}

/// The parts of the Nuttall window, in millionths, are the halves of one, in two
/// pairs.
pub open spec fn nuttall_parts_hold<D: Arithmetic>() -> bool {
    let half = D::fraction_value(1, 2);
    &&& D::finite(half)
    &&& D::finite(D::fraction_value(355_768, 1_000_000))
    &&& D::finite(D::fraction_value(487_396, 1_000_000))
    &&& D::finite(D::fraction_value(144_232, 1_000_000))
    &&& D::finite(D::fraction_value(12_604, 1_000_000))
    &&& D::sum(
        D::fraction_value(355_768, 1_000_000),
        D::fraction_value(144_232, 1_000_000),
    ) == half
    &&& D::sum(
        D::fraction_value(487_396, 1_000_000),
        D::fraction_value(12_604, 1_000_000),
    ) == half
    &&& D::sum(half, half) == D::integer_value(1)
}

/// The cosine of `k` turns over the window at `n`.
pub open spec fn window_cosine<D: Arithmetic>(k: i64, n: D::R, len: D::R) -> D::R {
    D::cosine(
        D::quotient(
            D::product(
                D::product(
                    D::integer_value(k),
                    D::product(D::integer_value(2), D::half_turn()),
                ),
                n,
            ),
            len,
        ),
    )
}

/// The Nuttall window is one in its middle, where one turn over it is half
/// through, and zero at its ends.
pub proof fn nuttall_spans_zero_to_one<D: Arithmetic>(n: D::R, len: D::R)
    requires
        exact_laws::<D>(),
        negation_laws::<D>(),
        nuttall_parts_hold::<D>(),
        window_cosine::<D>(0, n, len) == D::integer_value(1),
        window_cosine::<D>(2, n, len) == D::integer_value(1),
    ensures
        window_cosine::<D>(1, n, len) == D::negation(D::integer_value(1)) && window_cosine::<D>(
            3,
            n,
            len,
        ) == D::negation(D::integer_value(1)) ==> nuttall_at::<D>(n, len) == D::integer_value(1),
        window_cosine::<D>(1, n, len) == D::integer_value(1) && window_cosine::<D>(3, n, len)
            == D::integer_value(1) ==> nuttall_at::<D>(n, len) == D::integer_value(0),
{
    let one = D::integer_value(1);
    let a = D::fraction_value(355_768, 1_000_000);
    let b = D::fraction_value(487_396, 1_000_000);
    let c = D::fraction_value(144_232, 1_000_000);
    let d = D::fraction_value(12_604, 1_000_000);
    whole_numbers::<D>(1);
    opposite::<D>(one);
    sum_with_zero::<D>(a);
    sum_with_zero::<D>(b);
    sum_with_zero::<D>(c);
    sum_with_zero::<D>(d);
    opposite_factors::<D>(b, one);
    opposite_factors::<D>(d, one);
    opposite::<D>(b);
    opposite::<D>(d);
    alternating_sum::<D>(a, b, c, d);
    alternating_sum::<D>(a, D::negation(b), c, D::negation(d));
    opposites::<D>(b, d);
    let half = D::fraction_value(1, 2);
    opposite::<D>(half);
    opposites::<D>(half, D::negation(half));
    sums_undo::<D>(half, half);
}

/// `((a - b) + c) - d == (a + c) - (b + d)`.
proof fn alternating_sum<D: Arithmetic>(a: D::R, b: D::R, c: D::R, d: D::R)
    requires
        exact_laws::<D>(),
        D::finite(a),
        D::finite(b),
        D::finite(c),
        D::finite(d),
    ensures
        D::difference(D::sum(D::difference(a, b), c), d) == D::difference(
            D::sum(a, c),
            D::sum(b, d),
        ),
{
    let zero = D::integer_value(0);
    whole_numbers::<D>(0);
    stays_finite::<D>(a, b);
    stays_finite::<D>(c, zero);
    let ab = D::difference(a, b);
    differences_in_pairs::<D>(a, b, c, zero);
    sum_with_zero::<D>(c);
    sum_with_zero::<D>(b);
    let abc = D::sum(ab, c);
    stays_finite::<D>(ab, c);
    stays_finite::<D>(a, c);
    stays_finite::<D>(b, d);
    let ac = D::sum(a, c);
    assert(abc == D::difference(ac, b));
    let r = D::difference(abc, d);
    stays_finite::<D>(abc, d);
    sums_undo::<D>(abc, d);
    sums_undo::<D>(ac, b);
    addends_in_any_order::<D>(r, d, b);
    addends_in_any_order::<D>(d, b, b);
    assert(D::sum(r, D::sum(b, d)) == ac);
    sums_undo::<D>(r, D::sum(b, d));
}

/// The Kaiser window is one in its middle.
pub proof fn kaiser_is_one_in_the_middle<D: Arithmetic>(n: D::R, len: D::R, beta: D::R)
    requires
        exact_laws::<D>(),
        D::difference(
            D::quotient(
                D::product(D::integer_value(2), n),
                D::difference(len, D::integer_value(1)),
            ),
            D::integer_value(1),
        ) == D::integer_value(0),
        ({
            let peak = bessel_sum::<D>(
                kaiser_argument::<D>(D::integer_value(0), beta),
                BESSEL_TERMS as nat,
            );
            D::finite(peak) && peak != D::integer_value(0)
        }),
    ensures
        kaiser_at::<D>(n, len, beta) == D::integer_value(1),
{
    let peak = bessel_sum::<D>(
        kaiser_argument::<D>(D::integer_value(0), beta),
        BESSEL_TERMS as nat,
    );
    whole_numbers::<D>(1);
    sum_with_zero::<D>(peak);
    products_undo::<D>(D::integer_value(1), peak);
}

} // verus!
