//! Convolution of a stream with filter taps, and the grid on which a
//! decimated stream is sampled.

use crate::arith::Arithmetic;
use crate::complex::{imags, reals};
use crate::exact::{all_finite, exact_laws, factor_of_sum, sum_of_finite, zero_factor};
use crate::types::Complex;
use vstd::arithmetic::div_mod::{
    lemma_fundamental_div_mod, lemma_fundamental_div_mod_converse,
};
use vstd::prelude::*;

verus! {

/// The first `n` terms of the convolution of `s` with `taps` at the sample
/// `at`, added up in order: `s[at] * taps[0] + s[at - 1] * taps[1] + ...`.
pub open spec fn convolved_terms<A: Arithmetic>(
    taps: Seq<A::R>,
    s: Seq<A::R>,
    at: int,
    n: nat,
) -> A::R
    decreases n,
{
    if n == 0 {
        A::integer_value(0)
    } else {
        A::sum(
            convolved_terms::<A>(taps, s, at, (n - 1) as nat),
            A::product(s[at - (n - 1)], taps[n - 1]),
        )
    }
}

/// The convolution of `s` with `taps` at the sample `at`.
pub open spec fn convolved<A: Arithmetic>(taps: Seq<A::R>, s: Seq<A::R>, at: int) -> A::R {
    convolved_terms::<A>(taps, s, at, taps.len())
}

/// [`convolved`] on each part of a complex stream.
pub open spec fn convolved_complex<A: Arithmetic>(
    taps: Seq<A::R>,
    s: Seq<Complex<A::R>>,
    at: int,
) -> Complex<A::R> {
    Complex { re: convolved::<A>(taps, reals(s), at), im: convolved::<A>(taps, imags(s), at) }
}

/// The first `n` terms of the correlation of `s` with `taps` from the sample
/// `at` on, added up in order: `s[at] * taps[0] + s[at + 1] * taps[1] + ...`.
pub open spec fn correlated_terms<A: Arithmetic>(
    taps: Seq<A::R>,
    s: Seq<A::R>,
    at: int,
    n: nat,
) -> A::R
    decreases n,
{
    if n == 0 {
        A::integer_value(0)
    } else {
        A::sum(
            correlated_terms::<A>(taps, s, at, (n - 1) as nat),
            A::product(s[at + (n - 1)], taps[n - 1]),
        )
    }
}

/// The correlation of `s` with `taps` from the sample `at` on.
pub open spec fn correlated<A: Arithmetic>(taps: Seq<A::R>, s: Seq<A::R>, at: int) -> A::R {
    correlated_terms::<A>(taps, s, at, taps.len())
}

/// [`correlated`] on each part of a complex stream.
pub open spec fn correlated_complex<A: Arithmetic>(
    taps: Seq<A::R>,
    s: Seq<Complex<A::R>>,
    at: int,
) -> Complex<A::R> {
    Complex { re: correlated::<A>(taps, reals(s), at), im: correlated::<A>(taps, imags(s), at) }
}

/// Only the samples under the taps matter to a convolution.
pub proof fn convolved_terms_local<A: Arithmetic>(
    taps: Seq<A::R>,
    s: Seq<A::R>,
    at: int,
    t: Seq<A::R>,
    to: int,
    n: nat,
)
    requires
        forall|j: int| 0 <= j < n ==> #[trigger] s[at - j] == t[to - j],
    ensures
        convolved_terms::<A>(taps, s, at, n) == convolved_terms::<A>(taps, t, to, n),
    decreases n,
{
    if n > 0 {
        convolved_terms_local::<A>(taps, s, at, t, to, (n - 1) as nat);
        assert(s[at - (n - 1)] == t[to - (n - 1)]);
    }
}

/// [`convolved_terms_local`] on a complex stream.
pub proof fn convolved_complex_local<A: Arithmetic>(
    taps: Seq<A::R>,
    s: Seq<Complex<A::R>>,
    at: int,
    t: Seq<Complex<A::R>>,
    to: int,
)
    requires
        at < s.len(),
        taps.len() <= at + 1,
        to < t.len(),
        taps.len() <= to + 1,
        forall|j: int| 0 <= j < taps.len() ==> #[trigger] s[at - j] == t[to - j],
    ensures
        convolved_complex::<A>(taps, s, at) == convolved_complex::<A>(taps, t, to),
{
    assert forall|j: int| 0 <= j < taps.len() implies #[trigger] reals(s)[at - j] == reals(
        t,
    )[to - j] by {
        assert(s[at - j] == t[to - j]);
    }
    assert forall|j: int| 0 <= j < taps.len() implies #[trigger] imags(s)[at - j] == imags(
        t,
    )[to - j] by {
        assert(s[at - j] == t[to - j]);
    }
    convolved_terms_local::<A>(taps, reals(s), at, reals(t), to, taps.len());
    convolved_terms_local::<A>(taps, imags(s), at, imags(t), to, taps.len());
}

/// Only the samples under the taps matter to a correlation.
pub proof fn correlated_terms_local<A: Arithmetic>(
    taps: Seq<A::R>,
    s: Seq<A::R>,
    at: int,
    t: Seq<A::R>,
    to: int,
    n: nat,
)
    requires
        forall|j: int| 0 <= j < n ==> #[trigger] s[at + j] == t[to + j],
    ensures
        correlated_terms::<A>(taps, s, at, n) == correlated_terms::<A>(taps, t, to, n),
    decreases n,
{
    if n > 0 {
        correlated_terms_local::<A>(taps, s, at, t, to, (n - 1) as nat);
        assert(s[at + (n - 1)] == t[to + (n - 1)]);
    }
}

/// The convolution at sample `at` of `input`, where `history` holds the
/// samples before `input`.
pub fn convolve_at<A: Arithmetic>(
    taps: &Vec<A::R>,
    history: &Vec<A::R>,
    input: &[A::R],
    at: usize,
) -> (r: A::R)
    requires
        taps@.len() <= history@.len() + 1,
        at < input@.len(),
    ensures
        r == convolved::<A>(taps@, history@ + input@, history@.len() + at),
{
    let ghost stream = history@ + input@;
    let mut acc: A::R = A::integer(0);
    let mut j: usize = 0;
    while j < taps.len()
        invariant
            j <= taps@.len() <= history@.len() + 1,
            at < input@.len(),
            stream == history@ + input@,
            acc == convolved_terms::<A>(taps@, stream, history@.len() + at, j as nat),
        decreases taps.len() - j,
    {
        let x: A::R = if j <= at {
            input[at - j]
        } else {
            history[history.len() - (j - at)]
        };
        assert(x == stream[history@.len() + at - j]);
        acc = A::plus(acc, A::times(x, taps[j]));
        j = j + 1;
    }
    acc
}

/// [`convolve_at`] on a complex stream.
pub fn convolve_complex_at<A: Arithmetic>(
    taps: &Vec<A::R>,
    history: &Vec<Complex<A::R>>,
    input: &[Complex<A::R>],
    at: usize,
) -> (r: Complex<A::R>)
    requires
        taps@.len() <= history@.len() + 1,
        at < input@.len(),
    ensures
        r == convolved_complex::<A>(taps@, history@ + input@, history@.len() + at),
{
    let ghost stream = history@ + input@;
    let mut re: A::R = A::integer(0);
    let mut im: A::R = A::integer(0);
    let mut j: usize = 0;
    while j < taps.len()
        invariant
            j <= taps@.len() <= history@.len() + 1,
            at < input@.len(),
            stream == history@ + input@,
            re == convolved_terms::<A>(taps@, reals(stream), history@.len() + at, j as nat),
            im == convolved_terms::<A>(taps@, imags(stream), history@.len() + at, j as nat),
        decreases taps.len() - j,
    {
        let x: Complex<A::R> = if j <= at {
            input[at - j]
        } else {
            history[history.len() - (j - at)]
        };
        assert(x == stream[history@.len() + at - j]);
        re = A::plus(re, A::times(x.re, taps[j]));
        im = A::plus(im, A::times(x.im, taps[j]));
        j = j + 1;
    }
    Complex { re, im }
}

/// `a / b` rounded up.
pub open spec fn quotient_up(a: int, b: int) -> int {
    if a == 0 {
        0
    } else {
        (a - 1) / b + 1
    }
}

/// [`quotient_up`].
pub fn div_up(a: usize, b: usize) -> (r: usize)
    requires
        b > 0,
    ensures
        r == quotient_up(a as int, b as int),
{
    if a == 0 {
        0
    } else {
        proof {
            quotient_shrinks(a - 1, b as int);
        }
        (a - 1) / b + 1
    }
}

/// A quotient by a positive number is no larger than what is divided.
pub proof fn quotient_shrinks(a: int, b: int)
    requires
        a >= 0,
        b > 0,
    ensures
        0 <= a / b <= a,
{
    assert(0 <= a / b <= a) by (nonlinear_arith)
        requires
            a >= 0,
            b > 0,
    ;
}

/// How many of the points `offset`, `offset + step`, `offset + 2 step`, ... lie
/// below `len`.
pub open spec fn grid_count(len: int, offset: int, step: int) -> int {
    if offset >= len {
        0
    } else {
        (len - offset - 1) / step + 1
    }
}

/// Where the first of those points that is not below `len` lies, counted from
/// `len`.
pub open spec fn grid_carry(len: int, offset: int, step: int) -> int {
    offset + grid_count(len, offset, step) * step - len
}

/// `n` points lie below `len` exactly where the `n`-th is the first that does
/// not.
pub proof fn grid_count_is(len: int, offset: int, step: int, n: int)
    requires
        step > 0,
        n >= 0,
        n > 0 ==> offset + (n - 1) * step < len,
        len <= offset + n * step,
    ensures
        grid_count(len, offset, step) == n,
{
    if n == 0 {
        assert(n * step == 0) by (nonlinear_arith)
            requires
                n == 0,
        ;
    } else {
        let q = n - 1;
        let r = len - offset - 1 - q * step;
        assert(n * step == q * step + step) by (nonlinear_arith)
            requires
                q == n - 1,
        ;
        assert(offset < len) by (nonlinear_arith)
            requires
                offset + q * step < len,
                q >= 0,
                step > 0,
        ;
        assert(q * step == step * q) by (nonlinear_arith);
        lemma_fundamental_div_mod_converse(len - offset - 1, step, q, r);
    }
}

/// The points below `len`, and the point after them.
pub proof fn grid_bounds(len: int, offset: int, step: int)
    requires
        step > 0,
        len >= 0,
        offset >= 0,
    ensures
        ({
            let n = grid_count(len, offset, step);
            &&& 0 <= n <= len
            &&& n > 0 ==> offset + (n - 1) * step < len
            &&& len <= offset + n * step
            &&& 0 <= grid_carry(len, offset, step)
            &&& grid_carry(len, offset, step) < step || grid_carry(len, offset, step) == offset
                - len
        }),
{
    let n = grid_count(len, offset, step);
    if offset >= len {
        assert(n * step == 0) by (nonlinear_arith)
            requires
                n == 0,
        ;
    } else {
        let d = len - offset - 1;
        let q = d / step;
        lemma_fundamental_div_mod(d, step);
        quotient_shrinks(d, step);
        assert(n * step == step * q + step) by (nonlinear_arith)
            requires
                n == q + 1,
        ;
        assert((n - 1) * step == step * q) by (nonlinear_arith)
            requires
                n == q + 1,
        ;
    }
}

/// The points that are counted lie below `len`.
pub proof fn grid_point_below(len: int, offset: int, step: int, i: int)
    requires
        step > 0,
        len >= 0,
        offset >= 0,
        0 <= i < grid_count(len, offset, step),
    ensures
        0 <= i * step,
        offset <= offset + i * step < len,
{
    let n = grid_count(len, offset, step);
    grid_bounds(len, offset, step);
    assert(0 <= i * step <= (n - 1) * step) by (nonlinear_arith)
        requires
            0 <= i <= n - 1,
            step > 0,
    ;
}

/// A later start leaves fewer points, so that a start at 0 gives the most.
pub proof fn grid_count_at_most(len: int, offset: int, step: int)
    requires
        step > 0,
        len >= 0,
        offset >= 0,
    ensures
        grid_count(len, offset, step) <= quotient_up(len, step),
{
    if offset < len {
        vstd::arithmetic::div_mod::lemma_div_is_ordered(len - offset - 1, len - 1, step);
    } else if len > 0 {
        quotient_shrinks(len - 1, step);
    }
}

/// The grid goes on over a cut: the points below `a + b` are those below `a`,
/// and then those of a grid of `b` that starts at the carry.
pub proof fn grid_append(a: int, b: int, offset: int, step: int)
    requires
        step > 0,
        a >= 0,
        b >= 0,
        offset >= 0,
    ensures
        grid_count(a + b, offset, step) == grid_count(a, offset, step) + grid_count(
            b,
            grid_carry(a, offset, step),
            step,
        ),
        grid_carry(a + b, offset, step) == grid_carry(b, grid_carry(a, offset, step), step),
{
    let m = grid_count(a, offset, step);
    let carry = grid_carry(a, offset, step);
    let n = grid_count(b, carry, step);
    grid_bounds(a, offset, step);
    grid_bounds(b, carry, step);
    assert((m + n) * step == m * step + n * step) by (nonlinear_arith);
    if n > 0 {
        assert((m + n - 1) * step == m * step + (n - 1) * step) by (nonlinear_arith);
    } else {
        assert(n * step == 0) by (nonlinear_arith)
            requires
                n == 0,
        ;
    }
    grid_count_is(a + b, offset, step, m + n);
}

/// The sum of the first `n` of `xs`.
pub open spec fn sum_of<A: Arithmetic>(xs: Seq<A::R>, n: nat) -> A::R
    decreases n,
{
    if n == 0 {
        A::integer_value(0)
    } else {
        A::sum(sum_of::<A>(xs, (n - 1) as nat), xs[n - 1])
    }
}

/// A filter makes of a constant signal that constant times the sum of its taps.
pub proof fn convolved_constant<A: Arithmetic>(
    taps: Seq<A::R>,
    s: Seq<A::R>,
    at: int,
    c: A::R,
    n: nat,
)
    requires
        exact_laws::<A>(),
        all_finite::<A>(taps),
        A::finite(c),
        n <= taps.len(),
        forall|j: int| 0 <= j < n ==> #[trigger] s[at - j] == c,
    ensures
        convolved_terms::<A>(taps, s, at, n) == A::product(c, sum_of::<A>(taps, n)),
    decreases n,
{
    if n == 0 {
        zero_factor::<A>(c);
    } else {
        let m = (n - 1) as nat;
        convolved_constant::<A>(taps, s, at, c, m);
        sum_of_finite::<A>(taps, m);
        assert(s[at - m] == c);
        factor_of_sum::<A>(sum_of::<A>(taps, m), taps[n - 1], c);
    }
}

/// [`convolved_constant`] for a correlation.
pub proof fn correlated_constant<A: Arithmetic>(
    taps: Seq<A::R>,
    s: Seq<A::R>,
    at: int,
    c: A::R,
    n: nat,
)
    requires
        exact_laws::<A>(),
        all_finite::<A>(taps),
        A::finite(c),
        n <= taps.len(),
        forall|j: int| 0 <= j < n ==> #[trigger] s[at + j] == c,
    ensures
        correlated_terms::<A>(taps, s, at, n) == A::product(c, sum_of::<A>(taps, n)),
    decreases n,
{
    if n == 0 {
        zero_factor::<A>(c);
    } else {
        let m = (n - 1) as nat;
        correlated_constant::<A>(taps, s, at, c, m);
        sum_of_finite::<A>(taps, m);
        assert(s[at + m] == c);
        factor_of_sum::<A>(sum_of::<A>(taps, m), taps[n - 1], c);
    }
}

} // verus!
