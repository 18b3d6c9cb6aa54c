//! Angles and frequencies.

use crate::arith::{comparable, order_laws, within, Arithmetic};
use crate::exact::{
    exact_laws, products_undo, stays_finite, sum_with_zero, sums_in_pairs, sums_undo,
    whole_numbers, zero_factor,
};
use crate::types::Complex;
use vstd::prelude::*;

verus! {

/// A full turn.
pub open spec fn full_turn<A: Arithmetic>() -> A::R {
    A::product(A::integer_value(2), A::half_turn())
}

/// A full turn.
pub fn tau<A: Arithmetic>() -> (r: A::R)
    ensures
        r == full_turn::<A>(),
{
    A::times(A::integer(2), A::pi())
}

/// The angle by which a tone at `freq` turns in one sample.
pub open spec fn angular_step<D: Arithmetic>(freq: D::R, sample_rate: D::R) -> D::R {
    D::product(full_turn::<D>(), D::quotient(freq, sample_rate))
}

/// Converts a frequency in hertz to an angle for each sample.
pub fn hz_to_rads<D: Arithmetic>(freq: D::R, sample_rate: D::R) -> (r: D::R)
    ensures
        r == angular_step::<D>(freq, sample_rate),
{
    D::times(tau::<D>(), D::over(freq, sample_rate))
}

/// `diff` less as many full turns as bring it into the half-open turn around
/// zero that ends at half a turn.
pub open spec fn wrapped_phase<A: Arithmetic>(diff: A::R) -> A::R {
    let turned = A::difference(
        A::remainder(A::sum(diff, A::half_turn()), full_turn::<A>()),
        A::half_turn(),
    );
    if A::at_most(turned, A::negation(A::half_turn())) {
        A::sum(turned, full_turn::<A>())
    } else {
        turned
    }
}

/// Brings an angle into `(-pi, pi]`.
pub fn normalize_phase<A: Arithmetic>(diff: A::R) -> (r: A::R)
    ensures
        r == wrapped_phase::<A>(diff),
{
    let turned: A::R = A::minus(A::rem_euclid(A::plus(diff, A::pi()), tau::<A>()), A::pi());
    if A::le(turned, A::neg(A::pi())) {
        A::plus(turned, tau::<A>())
    } else {
        turned
    }
}

/// What [`phase_in_turn`] asks of the numbers of a turn: a remainder by a full
/// turn lies from zero to the turn, to take half a turn off keeps the order of
/// such remainders, and half a turn less than zero, less than a full turn and
/// more than a full turn are what they stand for. Rounded numbers have these
/// laws too.
pub open spec fn turn_laws<A: Arithmetic>() -> bool {
    let zero = A::integer_value(0);
    let pi = A::half_turn();
    let turn = full_turn::<A>();
    let low = A::negation(pi);
    &&& forall|x: A::R|
        comparable::<A>(#[trigger] A::remainder(x, turn)) ==> within::<A>(
            A::remainder(x, turn),
            zero,
            turn,
        )
    &&& forall|a: A::R, b: A::R|
        #![trigger A::difference(a, pi), A::difference(b, pi)]
        A::at_most(zero, a) && A::at_most(a, b) && A::at_most(b, turn) ==> A::at_most(
            A::difference(a, pi),
            A::difference(b, pi),
        )
    &&& forall|a: A::R|
        within::<A>(a, low, low) ==> within::<A>(#[trigger] A::sum(a, turn), pi, pi)
    &&& within::<A>(A::difference(zero, pi), low, low)
    &&& within::<A>(A::difference(turn, pi), pi, pi)
    &&& A::less(low, pi)
}

/// A wrapped angle lies in the half-open turn around zero that ends at half a
/// turn, unless it has no remainder by a full turn.
pub proof fn phase_in_turn<A: Arithmetic>(diff: A::R)
    requires
        order_laws::<A>(),
        turn_laws::<A>(),
        comparable::<A>(A::remainder(A::sum(diff, A::half_turn()), full_turn::<A>())),
    ensures
        A::less(A::negation(A::half_turn()), wrapped_phase::<A>(diff)),
        A::at_most(wrapped_phase::<A>(diff), A::half_turn()),
{
    let zero = A::integer_value(0);
    let pi = A::half_turn();
    let turn = full_turn::<A>();
    let low = A::negation(pi);
    let rest = A::remainder(A::sum(diff, pi), turn);
    let turned = A::difference(rest, pi);
    assert(within::<A>(rest, zero, turn));
    assert(comparable::<A>(zero) && comparable::<A>(turn));
    assert(A::at_most(A::difference(zero, pi), turned));
    assert(A::at_most(turned, A::difference(turn, pi)));
    assert(A::at_most(low, turned));
    assert(A::at_most(turned, pi));
    if A::at_most(turned, low) {
        let around = A::sum(turned, turn);
        assert(within::<A>(around, pi, pi));
        if !A::less(low, around) {
            assert(A::at_most(around, low));
            assert(A::at_most(pi, low));
        }
    } else if !A::less(low, turned) {
        assert(A::at_most(turned, low));
    }
}

/// `sin(x) / x`, and 1 at 0.
pub open spec fn sine_over<D: Arithmetic>(x: D::R) -> D::R {
    if D::equal(x, D::integer_value(0)) {
        D::integer_value(1)
    } else {
        D::quotient(D::sine(x), x)
    }
}

/// `sin(x) / x`, and 1 at 0.
pub fn sinc<D: Arithmetic>(x: D::R) -> (r: D::R)
    ensures
        r == sine_over::<D>(x),
{
    if D::same(x, D::integer(0)) {
        D::integer(1)
    } else {
        D::over(D::sin(x), x)
    }
}

/// The angle of the point `(x, y)`, approximated by a straight line in each
/// quadrant: with `r = (x - |y|) / (x + |y|)` it is `pi/4 - r pi/4` to the
/// right of the axis, and with `r = (x + |y|) / (|y| - x)` it is
/// `3 pi/4 - r pi/4` to its left; below the axis the sign changes.
pub open spec fn approximate_angle<A: Arithmetic>(x: A::R, y: A::R) -> A::R {
    let zero = A::integer_value(0);
    let eighth = A::quotient(A::half_turn(), A::integer_value(4));
    let up = A::magnitude(y);
    let angle = if A::at_most(zero, x) {
        let r = A::quotient(A::difference(x, up), A::sum(x, up));
        A::difference(eighth, A::product(eighth, r))
    } else {
        let r = A::quotient(A::sum(x, up), A::difference(up, x));
        A::difference(A::product(A::integer_value(3), eighth), A::product(eighth, r))
    };
    if A::equal(x, zero) && A::equal(y, zero) {
        zero
    } else if A::less(y, zero) {
        A::negation(angle)
    } else {
        angle
    }
}

/// Fast approximation of the angle of the point `(x, y)`.
pub fn fast_atan2<A: Arithmetic>(x: A::R, y: A::R) -> (r: A::R)
    ensures
        r == approximate_angle::<A>(x, y),
{
    let zero: A::R = A::integer(0);
    let abs_y: A::R = A::abs(y);
    if A::same(x, zero) && A::same(y, zero) {
        return zero;
    }
    let eighth: A::R = A::over(A::pi(), A::integer(4));
    let angle: A::R = if A::le(zero, x) {
        let r: A::R = A::over(A::minus(x, abs_y), A::plus(x, abs_y));
        A::minus(eighth, A::times(eighth, r))
    } else {
        let r: A::R = A::over(A::plus(x, abs_y), A::minus(abs_y, x));
        A::minus(A::times(A::integer(3), eighth), A::times(eighth, r))
    };
    if A::lt(y, zero) {
        A::neg(angle)
    } else {
        angle
    }
}

/// The laws of sine and cosine: those of a sum of two angles, those of half a
/// turn, a full turn and none, and that a remainder by a full turn is the same
/// direction.
pub open spec fn angle_laws<A: Arithmetic>() -> bool {
    let zero = A::integer_value(0);
    let one = A::integer_value(1);
    let pi = A::half_turn();
    let turn = A::product(A::integer_value(2), pi);
    &&& A::finite(pi)
    &&& forall|a: A::R| A::finite(a) ==> A::finite(#[trigger] A::cosine(a))
    &&& forall|a: A::R| A::finite(a) ==> A::finite(#[trigger] A::sine(a))
    &&& forall|a: A::R, b: A::R|
        A::finite(a) && A::finite(b) ==> #[trigger] A::cosine(A::sum(a, b)) == A::difference(
            A::product(A::cosine(a), A::cosine(b)),
            A::product(A::sine(a), A::sine(b)),
        )
    &&& forall|a: A::R, b: A::R|
        A::finite(a) && A::finite(b) ==> #[trigger] A::sine(A::sum(a, b)) == A::sum(
            A::product(A::cosine(a), A::sine(b)),
            A::product(A::sine(a), A::cosine(b)),
        )
    &&& A::cosine(zero) == one && A::sine(zero) == zero
    &&& A::cosine(pi) == A::integer_value((-1) as i64) && A::sine(pi) == zero
    &&& A::cosine(turn) == one && A::sine(turn) == zero
    &&& forall|a: A::R|
        A::finite(a) ==> {
            let rest = #[trigger] A::remainder(a, turn);
            &&& A::finite(rest)
            &&& A::cosine(rest) == A::cosine(a)
            &&& A::sine(rest) == A::sine(a)
        }
}

/// Angles with the same sine and cosine half a turn on have the same sine and
/// cosine.
proof fn same_half_a_turn_on<A: Arithmetic>(a: A::R, b: A::R)
    requires
        exact_laws::<A>(),
        angle_laws::<A>(),
        A::finite(a),
        A::finite(b),
        A::cosine(A::sum(a, A::half_turn())) == A::cosine(A::sum(b, A::half_turn())),
        A::sine(A::sum(a, A::half_turn())) == A::sine(A::sum(b, A::half_turn())),
    ensures
        A::cosine(a) == A::cosine(b),
        A::sine(a) == A::sine(b),
{
    half_a_turn_on::<A>(a);
    half_a_turn_on::<A>(b);
    let down = A::integer_value((-1) as i64);
    whole_numbers::<A>((-1) as i64);
    products_undo::<A>(A::cosine(a), down);
    products_undo::<A>(A::cosine(b), down);
    products_undo::<A>(A::sine(a), down);
    products_undo::<A>(A::sine(b), down);
}

proof fn half_a_turn_on<A: Arithmetic>(a: A::R)
    requires
        exact_laws::<A>(),
        angle_laws::<A>(),
        A::finite(a),
    ensures
        A::cosine(A::sum(a, A::half_turn())) == A::product(
            A::cosine(a),
            A::integer_value((-1) as i64),
        ),
        A::sine(A::sum(a, A::half_turn())) == A::product(
            A::sine(a),
            A::integer_value((-1) as i64),
        ),
{
    let down = A::integer_value((-1) as i64);
    whole_numbers::<A>((-1) as i64);
    zero_factor::<A>(A::cosine(a));
    zero_factor::<A>(A::sine(a));
    stays_finite::<A>(A::cosine(a), down);
    stays_finite::<A>(A::sine(a), down);
    sum_with_zero::<A>(A::product(A::cosine(a), down));
    sum_with_zero::<A>(A::product(A::sine(a), down));
}

/// A wrapped angle points in the same direction.
pub proof fn wrapped_is_same_direction<A: Arithmetic>(a: A::R)
    requires
        exact_laws::<A>(),
        angle_laws::<A>(),
        A::finite(a),
    ensures
        A::finite(wrapped_phase::<A>(a)),
        A::cosine(wrapped_phase::<A>(a)) == A::cosine(a),
        A::sine(wrapped_phase::<A>(a)) == A::sine(a),
{
    let pi = A::half_turn();
    let turn = full_turn::<A>();
    whole_numbers::<A>(2);
    stays_finite::<A>(A::integer_value(2), pi);
    stays_finite::<A>(a, pi);
    let rest = A::remainder(A::sum(a, pi), turn);
    let turned = A::difference(rest, pi);
    assert(A::finite(rest));
    stays_finite::<A>(rest, pi);
    sums_undo::<A>(rest, pi);
    same_half_a_turn_on::<A>(turned, a);
    stays_finite::<A>(turned, turn);
    assert(A::cosine(A::sum(turned, turn)) == A::cosine(turned) && A::sine(A::sum(turned, turn))
        == A::sine(turned)) by {
        zero_factor::<A>(A::cosine(turned));
        zero_factor::<A>(A::sine(turned));
        sum_with_zero::<A>(A::cosine(turned));
        sum_with_zero::<A>(A::sine(turned));
    }
}

/// The angle `start`, turned on `n` times by `step`.
pub open spec fn turned_on<A: Arithmetic>(start: A::R, step: A::R, n: nat) -> A::R
    decreases n,
{
    if n == 0 {
        start
    } else {
        A::sum(turned_on::<A>(start, step, (n - 1) as nat), step)
    }
}

/// `len` samples of a tone of amplitude one, which starts at the angle `start`
/// and turns by `step` from sample to sample.
pub open spec fn tone<A: Arithmetic>(start: A::R, step: A::R, len: nat) -> Seq<Complex<A::R>> {
    Seq::new(
        len,
        |i: int|
            Complex {
                re: A::cosine(turned_on::<A>(start, step, i as nat)),
                im: A::sine(turned_on::<A>(start, step, i as nat)),
            },
    )
}

/// Angles that turn on together add up to an angle that turns on by the sum.
pub proof fn turned_on_together<A: Arithmetic>(
    start: A::R,
    step: A::R,
    other_start: A::R,
    other_step: A::R,
    n: nat,
)
    requires
        exact_laws::<A>(),
        A::finite(start),
        A::finite(step),
        A::finite(other_start),
        A::finite(other_step),
    ensures
        A::finite(turned_on::<A>(start, step, n)),
        A::finite(turned_on::<A>(other_start, other_step, n)),
        A::sum(
            turned_on::<A>(start, step, n),
            turned_on::<A>(other_start, other_step, n),
        ) == turned_on::<A>(A::sum(start, other_start), A::sum(step, other_step), n),
    decreases n,
{
    if n > 0 {
        let m = (n - 1) as nat;
        turned_on_together::<A>(start, step, other_start, other_step, m);
        let a = turned_on::<A>(start, step, m);
        let b = turned_on::<A>(other_start, other_step, m);
        stays_finite::<A>(a, step);
        stays_finite::<A>(b, other_step);
        sums_in_pairs::<A>(a, step, b, other_step);
    }
}

/// An angle that lies in the half-open turn around zero already is not changed
/// by wrapping it.
pub proof fn small_angle_stays<A: Arithmetic>(a: A::R)
    requires
        exact_laws::<A>(),
        A::finite(a),
        A::finite(A::half_turn()),
        A::remainder(
            A::sum(a, A::half_turn()),
            A::product(A::integer_value(2), A::half_turn()),
        ) == A::sum(a, A::half_turn()),
        !A::at_most(a, A::negation(A::half_turn())),
    ensures
        wrapped_phase::<A>(a) == a,
{
    sums_undo::<A>(a, A::half_turn());
}

/// The approximate angle is right on the axis and on the diagonal, and changes
/// its sign with `y`.
pub proof fn approximate_angle_at_eighths<A: Arithmetic>(a: A::R, y: A::R)
    requires
        exact_laws::<A>(),
        A::finite(a),
        A::finite(A::half_turn()),
        A::at_most(A::integer_value(0), a),
        !A::less(a, A::integer_value(0)),
        !A::less(A::integer_value(0), A::integer_value(0)),
        !A::equal(a, A::integer_value(0)),
        A::sum(a, a) != A::integer_value(0),
        a != A::integer_value(0),
        A::magnitude(a) == a,
        A::magnitude(A::integer_value(0)) == A::integer_value(0),
        A::magnitude(A::negation(y)) == A::magnitude(y),
        A::less(y, A::integer_value(0)),
        !A::less(A::negation(y), A::integer_value(0)),
        A::equal(A::negation(y), A::integer_value(0)) == A::equal(y, A::integer_value(0)),
        !A::equal(y, A::integer_value(0)),
    ensures
        approximate_angle::<A>(a, a) == A::quotient(A::half_turn(), A::integer_value(4)),
        approximate_angle::<A>(a, A::integer_value(0)) == A::integer_value(0),
        approximate_angle::<A>(a, y) == A::negation(approximate_angle::<A>(a, A::negation(y))),
{
    let zero = A::integer_value(0);
    let one = A::integer_value(1);
    let four = A::integer_value(4);
    whole_numbers::<A>(0);
    whole_numbers::<A>(1);
    whole_numbers::<A>(4);
    let eighth = A::quotient(A::half_turn(), four);
    stays_finite::<A>(A::half_turn(), four);
    let twice = A::sum(a, a);
    stays_finite::<A>(a, a);
    sums_undo::<A>(a, a);
    zero_factor::<A>(twice);
    products_undo::<A>(zero, twice);
    assert(A::quotient(zero, twice) == zero);
    zero_factor::<A>(eighth);
    sum_with_zero::<A>(eighth);
    sum_with_zero::<A>(a);
    products_undo::<A>(one, a);
    assert(A::quotient(a, a) == one);
    sums_undo::<A>(eighth, eighth);
}

} // verus!
