//! Matched filter of the symbols.

use crate::arith::Arithmetic;
use crate::complex;
use crate::exact::{
    addends_in_any_order, all_finite, exact_laws, factor_of_difference, factor_of_sum,
    factors_in_any_order, products_undo, stays_finite, sum_of_finite, sum_of_multiples,
    sum_of_reversed, sum_with_zero, sums_undo, whole_numbers, zero_factor,
};
use crate::kernel::sum_of;
use crate::stream::{filled, remember, repeated, tail};
use crate::taps::rrc_pulse;
use crate::types::Complex;
use vstd::prelude::*;

verus! {

/// Symbols that the filter spans.
pub const SPAN_SYMBOLS: usize = 31;

/// Samples of a symbol that the number of taps allows for.
pub const SPS_FOR_TAP_COUNT: usize = 2;

/// Number of taps.
pub const NUM_TAPS: usize = SPAN_SYMBOLS * SPS_FOR_TAP_COUNT + 1;

/// Roll-off of the filter.
pub open spec fn rolloff_value<A: Arithmetic>() -> A::R {
    A::fraction_value(3, 5)
}

/// Roll-off of the filter.
pub fn rolloff<A: Arithmetic>() -> (r: A::R)
    ensures
        r == rolloff_value::<A>(),
{
    A::fraction(3, 5)
}

/// The impulse response of a root-raised-cosine filter at the time `t`, in
/// symbols, with the limits where the formula divides by zero.
pub open spec fn impulse<A: Arithmetic>(t: A::R, beta: A::R) -> A::R {
    let one = A::integer_value(1);
    let four = A::integer_value(4);
    let two = A::integer_value(2);
    let pi = A::half_turn();
    let close = A::fraction_value(1, 1_000_000);
    let steep = A::product(A::product(four, beta), t);
    let square = A::product(steep, steep);
    if A::less(A::magnitude(t), close) {
        A::sum(A::difference(one, beta), A::quotient(A::product(four, beta), pi))
    } else if A::less(A::magnitude(A::difference(square, one)), close) {
        let angle = A::quotient(pi, A::product(four, beta));
        A::product(
            A::quotient(beta, A::root(two)),
            A::sum(
                A::product(A::sum(one, A::quotient(two, pi)), A::sine(angle)),
                A::product(A::difference(one, A::quotient(two, pi)), A::cosine(angle)),
            ),
        )
    } else {
        let turn = A::product(pi, t);
        A::quotient(
            A::sum(
                A::sine(A::product(turn, A::difference(one, beta))),
                A::product(steep, A::cosine(A::product(turn, A::sum(one, beta)))),
            ),
            A::product(turn, A::difference(one, square)),
        )
    }
}

fn rrc_impulse<A: Arithmetic>(t: A::R, beta: A::R) -> (r: A::R)
    ensures
        r == impulse::<A>(t, beta),
{
    let one: A::R = A::integer(1);
    let two: A::R = A::integer(2);
    let four: A::R = A::integer(4);
    let pi: A::R = A::pi();
    let close: A::R = A::fraction(1, 1_000_000);
    if A::lt(A::abs(t), close) {
        return A::plus(A::minus(one, beta), A::over(A::times(four, beta), pi));
    }
    let steep: A::R = A::times(A::times(four, beta), t);
    let square: A::R = A::times(steep, steep);
    if A::lt(A::abs(A::minus(square, one)), close) {
        let angle: A::R = A::over(pi, A::times(four, beta));
        let share: A::R = A::over(two, pi);
        return A::times(
            A::over(beta, A::sqrt(two)),
            A::plus(
                A::times(A::plus(one, share), A::sin(angle)),
                A::times(A::minus(one, share), A::cos(angle)),
            ),
        );
    }
    let turn: A::R = A::times(pi, t);
    let num: A::R = A::plus(
        A::sin(A::times(turn, A::minus(one, beta))),
        A::times(steep, A::cos(A::times(turn, A::plus(one, beta)))),
    );
    A::over(num, A::times(turn, A::minus(one, square)))
}

/// The taps before they are scaled.
pub open spec fn shape<A: Arithmetic>(samples_per_symbol: usize) -> Seq<A::R> {
    Seq::new(
        NUM_TAPS as nat,
        |i: int|
            impulse::<A>(
                A::quotient(
                    A::integer_value((i - NUM_TAPS / 2) as i64),
                    A::count_value(samples_per_symbol),
                ),
                rolloff_value::<A>(),
            ),
    )
}

/// The taps: the impulse response, scaled so that its sum is 1 unless the sum
/// is next to nothing.
pub open spec fn rrc_taps<A: Arithmetic>(samples_per_symbol: usize) -> Seq<A::R> {
    let raw = shape::<A>(samples_per_symbol);
    let sum = sum_of::<A>(raw, raw.len());
    if A::less(A::fraction_value(1, 1_000_000), A::magnitude(sum)) {
        Seq::new(raw.len(), |i: int| A::quotient(raw[i], sum))
    } else {
        raw
    }
}

/// The first `n` terms of the output: the oldest sample times the last tap
/// first.
pub open spec fn matched<A: Arithmetic>(
    taps: Seq<A::R>,
    history: Seq<Complex<A::R>>,
    n: nat,
) -> Complex<A::R>
    decreases n,
{
    if n == 0 {
        complex::origin::<A>()
    } else {
        complex::total::<A>(
            matched::<A>(taps, history, (n - 1) as nat),
            complex::scaled::<A>(history[n - 1], taps[taps.len() - n]),
        )
    }
}

/// The state of an [`RrcFilter`].
#[verifier::ext_equal]
pub struct RrcView<A: Arithmetic> {
    /// Filter taps.
    pub taps: Seq<A::R>,
    /// The most recent samples, as many as there are taps.
    pub history: Seq<Complex<A::R>>,
}

impl<A: Arithmetic> RrcView<A> {
    /// The filter after the sample `x`, and what comes out for it.
    pub open spec fn step(self, x: Complex<A::R>) -> (Self, Complex<A::R>) {
        let history = tail(self.history + seq![x], self.history.len());
        (RrcView { history, ..self }, matched::<A>(self.taps, history, history.len()))
    }
}

/// Root-raised-cosine filter for complex samples.
pub struct RrcFilter<A: Arithmetic> {
    /// Filter taps.
    pub taps: Vec<A::R>,
    /// The most recent samples, as many as there are taps, the last one last.
    pub history: Vec<Complex<A::R>>,
}

impl<A: Arithmetic> RrcFilter<A> {
    /// There are as many samples as taps.
    pub open spec fn wf(self) -> bool {
        &&& self.taps@.len() == NUM_TAPS
        &&& self.history@.len() == NUM_TAPS
    }

    /// The state of the filter.
    pub open spec fn view(self) -> RrcView<A> {
        RrcView { taps: self.taps@, history: self.history@ }
    }

    /// The filter at the start of a stream.
    pub open spec fn fresh(samples_per_symbol: usize) -> RrcView<A> {
        RrcView {
            taps: rrc_taps::<A>(samples_per_symbol),
            history: repeated(complex::origin::<A>(), NUM_TAPS as nat),
        }
    }

    /// Creates a filter for symbols of `samples_per_symbol` samples.
    pub fn new(samples_per_symbol: usize) -> (f: Self)
        ensures
            f.wf(),
            f@ == Self::fresh(samples_per_symbol),
    {
        let ghost raw = shape::<A>(samples_per_symbol);
        let mut shaped: Vec<A::R> = Vec::with_capacity(NUM_TAPS);
        let mut sum: A::R = A::integer(0);
        let mut i: usize = 0;
        while i < NUM_TAPS
            invariant
                i <= NUM_TAPS,
                raw == shape::<A>(samples_per_symbol),
                shaped@ =~= raw.take(i as int),
                sum == sum_of::<A>(raw, i as nat),
            decreases NUM_TAPS - i,
        {
            let centred: i64 = i as i64 - (NUM_TAPS / 2) as i64;
            let t: A::R = A::over(A::integer(centred), A::count(samples_per_symbol));
            let tap: A::R = rrc_impulse::<A>(t, rolloff::<A>());
            shaped.push(tap);
            sum = A::plus(sum, tap);
            i = i + 1;
        }
        assert(shaped@ =~= raw);
        let history: Vec<Complex<A::R>> = filled(complex::zero::<A>(), NUM_TAPS);
        if !A::lt(A::fraction(1, 1_000_000), A::abs(sum)) {
            return RrcFilter { taps: shaped, history };
        }
        let ghost all = rrc_taps::<A>(samples_per_symbol);
        let mut taps: Vec<A::R> = Vec::with_capacity(NUM_TAPS);
        let mut j: usize = 0;
        while j < NUM_TAPS
            invariant
                j <= NUM_TAPS == shaped@.len(),
                shaped@ == shape::<A>(samples_per_symbol),
                all == Seq::new(shaped@.len(), |i: int| A::quotient(shaped@[i], sum)),
                taps@ =~= all.take(j as int),
            decreases NUM_TAPS - j,
        {
            taps.push(A::over(shaped[j], sum));
            j = j + 1;
        }
        assert(taps@ =~= all);
        RrcFilter { taps, history }
    }

    /// Filters a sample.
    pub fn process(&mut self, x: Complex<A::R>) -> (y: Complex<A::R>)
        requires
            old(self).wf(),
        ensures
            final(self).wf(),
            (final(self)@, y) == old(self)@.step(x),
    {
        let newest: [Complex<A::R>; 1] = [x];
        remember(&mut self.history, newest.as_slice());
        assert(newest@ =~= seq![x]);
        let mut acc: Complex<A::R> = complex::zero::<A>();
        let mut i: usize = 0;
        while i < NUM_TAPS
            invariant
                i <= NUM_TAPS,
                self.wf(),
                acc == matched::<A>(self.taps@, self.history@, i as nat),
            decreases NUM_TAPS - i,
        {
            acc = complex::plus::<A>(
                acc,
                complex::scale::<A>(self.history[i], self.taps[NUM_TAPS - 1 - i]),
            );
            i = i + 1;
        }
        acc
    }
}

/// The taps add up to one: the filter keeps the level of a constant.
pub proof fn taps_add_up_to_one<A: Arithmetic>(samples_per_symbol: usize)
    requires
        exact_laws::<A>(),
        all_finite::<A>(shape::<A>(samples_per_symbol)),
        ({
            let sum = sum_of::<A>(shape::<A>(samples_per_symbol), NUM_TAPS as nat);
            &&& sum != A::integer_value(0)
            &&& A::less(A::fraction_value(1, 1_000_000), A::magnitude(sum))
        }),
    ensures
        all_finite::<A>(rrc_taps::<A>(samples_per_symbol)),
        rrc_taps::<A>(samples_per_symbol).len() == NUM_TAPS,
        sum_of::<A>(rrc_taps::<A>(samples_per_symbol), NUM_TAPS as nat) == A::integer_value(1),
{
    let raw = shape::<A>(samples_per_symbol);
    let taps = rrc_taps::<A>(samples_per_symbol);
    let sum = sum_of::<A>(raw, NUM_TAPS as nat);
    let one = A::integer_value(1);
    let n = NUM_TAPS as nat;
    sum_of_finite::<A>(raw, n);
    assert forall|i: int| 0 <= i < taps.len() implies A::finite(#[trigger] taps[i]) by {
        stays_finite::<A>(raw[i], sum);
    }
    assert forall|i: int| 0 <= i < n implies #[trigger] raw[i] == A::product(taps[i], sum) by {
        products_undo::<A>(raw[i], sum);
    }
    sum_of_multiples::<A>(taps, raw, sum, n);
    let total = sum_of::<A>(taps, n);
    sum_of_finite::<A>(taps, n);
    whole_numbers::<A>(1);
    sum_with_zero::<A>(sum);
    products_undo::<A>(total, sum);
    products_undo::<A>(one, sum);
}

/// A filter whose taps add up to one, and which has heard nothing but `x`, gives
/// `x` out for it.
pub proof fn constant_passes<A: Arithmetic>(f: RrcView<A>, x: Complex<A::R>)
    requires
        exact_laws::<A>(),
        all_finite::<A>(f.taps),
        f.history == repeated(x, f.taps.len()),
        sum_of::<A>(f.taps, f.taps.len()) == A::integer_value(1),
        A::finite(x.re),
        A::finite(x.im),
    ensures
        f.step(x) == (f, x),
{
    let n = f.taps.len();
    let back = Seq::new(n, |i: int| f.taps[n - 1 - i]);
    assert(tail(f.history + seq![x], f.history.len()) =~= f.history);
    assert forall|i: int| 0 <= i < back.len() implies A::finite(#[trigger] back[i]) by {}
    sum_of_reversed::<A>(f.taps, back);
    matched_constant::<A>(f.taps, back, x, n);
    sum_with_zero::<A>(x.re);
    sum_with_zero::<A>(x.im);
}

proof fn matched_constant<A: Arithmetic>(
    taps: Seq<A::R>,
    back: Seq<A::R>,
    x: Complex<A::R>,
    n: nat,
)
    requires
        exact_laws::<A>(),
        all_finite::<A>(back),
        n <= taps.len() == back.len(),
        forall|i: int| 0 <= i < back.len() ==> #[trigger] back[i] == taps[taps.len() - 1 - i],
        A::finite(x.re),
        A::finite(x.im),
    ensures
        matched::<A>(taps, repeated(x, taps.len()), n) == (Complex {
            re: A::product(x.re, sum_of::<A>(back, n)),
            im: A::product(x.im, sum_of::<A>(back, n)),
        }),
    decreases n,
{
    if n == 0 {
        zero_factor::<A>(x.re);
        zero_factor::<A>(x.im);
    } else {
        let m = (n - 1) as nat;
        matched_constant::<A>(taps, back, x, m);
        sum_of_finite::<A>(back, m);
        assert(back[n - 1] == taps[taps.len() - n]);
        factor_of_sum::<A>(sum_of::<A>(back, m), back[n - 1], x.re);
        factor_of_sum::<A>(sum_of::<A>(back, m), back[n - 1], x.im);
    }
}

/// The impulse response is the root-raised-cosine pulse of the filter designs,
/// with the symbol as the unit of time.
pub proof fn impulse_is_the_pulse<A: Arithmetic>(t: A::R, beta: A::R)
    requires
        exact_laws::<A>(),
        A::finite(t),
        A::finite(beta),
        A::finite(A::half_turn()),
        A::half_turn() != A::integer_value(0),
        forall|a: A::R| A::finite(a) ==> A::finite(#[trigger] A::sine(a)),
        forall|a: A::R| A::finite(a) ==> A::finite(#[trigger] A::cosine(a)),
        ({
            let close = A::fraction_value(1, 1_000_000);
            let closer = A::fraction_value(1, 1_000_000_000_000);
            let one = A::integer_value(1);
            let limit = A::quotient(one, A::product(A::integer_value(4), beta));
            let steep = A::product(A::product(A::integer_value(4), beta), t);
            let square = A::product(steep, steep);
            if A::equal(t, A::integer_value(0)) {
                A::less(A::magnitude(t), close)
            } else {
                &&& !A::less(A::magnitude(t), close)
                &&& !A::less(A::magnitude(A::difference(square, one)), close)
                &&& !A::less(A::magnitude(A::difference(t, limit)), closer)
                &&& !A::less(A::magnitude(A::sum(t, limit)), closer)
                &&& A::product(A::product(A::half_turn(), t), A::difference(one, square))
                    != A::integer_value(0)
            }
        }),
    ensures
        impulse::<A>(t, beta) == rrc_pulse::<A>(t, beta, A::integer_value(1)),
{
    let one = A::integer_value(1);
    let four = A::integer_value(4);
    let pi = A::half_turn();
    whole_numbers::<A>(1);
    whole_numbers::<A>(4);
    whole_numbers::<A>(2);
    if A::equal(t, A::integer_value(0)) {
        let q = A::quotient(four, pi);
        stays_finite::<A>(four, pi);
        stays_finite::<A>(q, one);
        let bq = A::product(beta, q);
        stays_finite::<A>(beta, q);
        stays_finite::<A>(four, beta);
        factor_of_difference::<A>(q, one, beta);
        factors_in_any_order::<A>(beta, A::difference(q, one), one);
        factors_in_any_order::<A>(beta, q, pi);
        sum_with_zero::<A>(beta);
        products_undo::<A>(four, pi);
        factors_in_any_order::<A>(four, beta, one);
        products_undo::<A>(bq, pi);
        assert(A::product(bq, pi) == A::product(four, beta)) by {
            factors_in_any_order::<A>(beta, four, one);
        }
        assert(A::quotient(A::product(four, beta), pi) == bq);
        assert(A::product(beta, A::difference(q, one)) == A::difference(bq, beta));
        // (1 - b) + bq == 1 + (bq - b)
        stays_finite::<A>(one, beta);
        stays_finite::<A>(bq, beta);
        let low = A::difference(one, beta);
        let up = A::difference(bq, beta);
        sums_undo::<A>(one, beta);
        sums_undo::<A>(bq, beta);
        addends_in_any_order::<A>(low, beta, up);
        addends_in_any_order::<A>(beta, up, up);
        assert(A::sum(low, bq) == A::sum(one, up));
        stays_finite::<A>(one, up);
        over_one::<A>(A::sum(one, up));
    } else {
        let fb = A::product(four, beta);
        let steep = A::product(fb, t);
        let square = A::product(steep, steep);
        let turn = A::product(pi, t);
        stays_finite::<A>(four, beta);
        stays_finite::<A>(fb, t);
        stays_finite::<A>(steep, steep);
        stays_finite::<A>(pi, t);
        stays_finite::<A>(one, beta);
        stays_finite::<A>(one, square);
        let less = A::difference(one, beta);
        let more = A::sum(one, beta);
        let left = A::difference(one, square);
        over_one::<A>(steep);
        // the angles
        stays_finite::<A>(turn, less);
        stays_finite::<A>(turn, more);
        stays_finite::<A>(less, pi);
        stays_finite::<A>(more, pi);
        factors_in_any_order::<A>(less, pi, t);
        factors_in_any_order::<A>(less, turn, t);
        factors_in_any_order::<A>(more, pi, t);
        factors_in_any_order::<A>(more, turn, t);
        let low = A::product(turn, less);
        let high = A::product(turn, more);
        assert(A::product(A::product(less, pi), t) == low);
        assert(A::product(A::product(more, pi), t) == high);
        over_one::<A>(low);
        over_one::<A>(high);
        // the second part
        let c = A::cosine(high);
        stays_finite::<A>(c, four);
        factors_in_any_order::<A>(c, four, beta);
        stays_finite::<A>(c, fb);
        factors_in_any_order::<A>(c, fb, t);
        factors_in_any_order::<A>(c, steep, t);
        stays_finite::<A>(steep, c);
        let part = A::product(steep, c);
        assert(A::product(A::product(A::product(c, four), beta), t) == part);
        over_one::<A>(part);
        // the denominator
        factors_in_any_order::<A>(left, pi, t);
        factors_in_any_order::<A>(left, turn, t);
        stays_finite::<A>(turn, left);
        let den = A::product(turn, left);
        assert(A::product(A::product(left, pi), t) == den);
        over_one::<A>(den);
        let num = A::sum(A::sine(low), part);
        stays_finite::<A>(A::sine(low), part);
        stays_finite::<A>(num, den);
        over_one::<A>(A::quotient(num, den));
    }
}

/// A number over one is that number.
proof fn over_one<A: Arithmetic>(x: A::R)
    requires
        exact_laws::<A>(),
        A::finite(x),
    ensures
        A::quotient(x, A::integer_value(1)) == x,
{
    whole_numbers::<A>(1);
    sum_with_zero::<A>(x);
    products_undo::<A>(x, A::integer_value(1));
}

} // verus!
