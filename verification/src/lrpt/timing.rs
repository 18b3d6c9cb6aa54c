//! Symbol timing for four-phase keying.

use crate::arith::{
    Arithmetic, clamp, clamped, got, got_instead, is_positive_finite, positive_finite,
};
use crate::complex;
use crate::exact::{
    exact_laws, negation_laws, opposite, stays_finite, sum_with_zero, sums_undo, whole_numbers, zero_factor,
};
use crate::stream::drop_front;
use crate::types::{Complex, DspError, Fault};
use vstd::prelude::*;
use vstd::string::StringExecFns;

verus! {

/// The state of a [`Gardner`] loop.
#[verifier::ext_equal]
pub struct GardnerView<A: Arithmetic> {
    /// Where the next symbol lies between two samples.
    pub mu: A::R,
    /// Current length of a symbol, in samples.
    pub omega: A::R,
    /// Nominal length of a symbol, in samples.
    pub omega_mid: A::R,
    /// How much of an error goes to `mu`.
    pub gain_mu: A::R,
    /// How much of an error goes to `omega`.
    pub gain_omega: A::R,
    /// The middle sample at the symbol before.
    pub mid: Complex<A::R>,
    /// The samples that wait.
    pub pending: Seq<Complex<A::R>>,
}

impl<A: Arithmetic> GardnerView<A> {
    /// The loop after the symbol that the first three samples that wait give,
    /// and the symbol.
    pub open spec fn recovered(self) -> (Self, Complex<A::R>) {
        let early = self.pending[0];
        let middle = self.pending[1];
        let late = self.pending[2];
        let symbol = complex::total::<A>(
            complex::scaled::<A>(middle, A::difference(A::integer_value(1), self.mu)),
            complex::scaled::<A>(late, self.mu),
        );
        let error = complex::rotated::<A>(
            complex::conjugate::<A>(self.mid),
            complex::offset::<A>(late, early),
        ).im;
        let drift = A::fraction_value(1, 200);
        let omega = clamped::<A>(
            A::sum(self.omega, A::product(self.gain_omega, error)),
            A::difference(self.omega_mid, drift),
            A::sum(self.omega_mid, drift),
        );
        let mu = A::sum(self.mu, A::sum(omega, A::product(self.gain_mu, error)));
        let whole = A::natural_part(A::rounded_down(mu));
        let count = if whole > usize::MAX {
            usize::MAX
        } else {
            whole as usize
        };
        let dropped = if count < self.pending.len() {
            count as int
        } else {
            self.pending.len() as int
        };
        (
            GardnerView {
                mu: A::difference(mu, A::count_value(count)),
                omega,
                mid: middle,
                pending: self.pending.skip(dropped),
                ..self
            },
            symbol,
        )
    }

    /// The loop after the sample `x`, and the symbol, where there is one.
    pub open spec fn step(self, x: Complex<A::R>) -> (Self, Option<Complex<A::R>>) {
        let next = GardnerView { pending: self.pending.push(x), ..self };
        if next.pending.len() < 3 {
            (next, None)
        } else {
            let (after, symbol) = next.recovered();
            (after, Some(symbol))
        }
    }
}

/// Loop that finds the symbols between the samples: the difference of the
/// outer two of three samples, turned by the middle one before, tells whether
/// it is early or late.
pub struct Gardner<A: Arithmetic> {
    /// Where the next symbol lies between two samples.
    pub mu: A::R,
    /// Current length of a symbol, in samples.
    pub omega: A::R,
    /// Nominal length of a symbol, in samples.
    pub omega_mid: A::R,
    /// How much of an error goes to `mu`.
    pub gain_mu: A::R,
    /// How much of an error goes to `omega`.
    pub gain_omega: A::R,
    /// The middle sample at the symbol before.
    pub mid: Complex<A::R>,
    /// The samples that wait.
    pub pending: Vec<Complex<A::R>>,
}

impl<A: Arithmetic> Gardner<A> {
    /// The state of the loop.
    pub open spec fn view(self) -> GardnerView<A> {
        GardnerView {
            mu: self.mu,
            omega: self.omega,
            omega_mid: self.omega_mid,
            gain_mu: self.gain_mu,
            gain_omega: self.gain_omega,
            mid: self.mid,
            pending: self.pending@,
        }
    }

    /// The loop at the start of a stream.
    pub open spec fn fresh(samples_per_symbol: A::R, omega_gain: A::R, mu_gain: A::R) -> GardnerView<
        A,
    > {
        GardnerView {
            mu: A::integer_value(0),
            omega: samples_per_symbol,
            omega_mid: samples_per_symbol,
            gain_mu: mu_gain,
            gain_omega: omega_gain,
            mid: complex::origin::<A>(),
            pending: Seq::empty(),
        }
    }

    /// Why a loop with these settings is not possible, where it is not.
    pub open spec fn refusal(
        samples_per_symbol: A::R,
        omega_gain: A::R,
        mu_gain: A::R,
    ) -> Option<Fault> {
        if !positive_finite::<A>(samples_per_symbol) {
            Some(got::<A>("samples_per_symbol must be finite and positive"@, samples_per_symbol))
        } else if !A::finite(omega_gain) || !A::finite(mu_gain) {
            Some(
                Fault::InvalidParameter(
                    "omega_gain ("@ + A::text(omega_gain) + ") and mu_gain ("@ + A::text(mu_gain)
                        + ") must both be finite"@,
                ),
            )
        } else {
            None
        }
    }

    /// Creates a loop for symbols of `samples_per_symbol` samples.
    pub fn new(samples_per_symbol: A::R, omega_gain: A::R, mu_gain: A::R) -> (r: Result<
        Self,
        DspError,
    >)
        ensures
            match r {
                Err(e) => Self::refusal(samples_per_symbol, omega_gain, mu_gain) == Some(e@),
                Ok(f) => {
                    &&& Self::refusal(samples_per_symbol, omega_gain, mu_gain) is None
                    &&& f@ == Self::fresh(samples_per_symbol, omega_gain, mu_gain)
                },
            },
    {
        if !is_positive_finite::<A>(samples_per_symbol) {
            return Err(
                got_instead::<A>(
                    "samples_per_symbol must be finite and positive",
                    samples_per_symbol,
                ),
            );
        }
        if !A::is_finite(omega_gain) || !A::is_finite(mu_gain) {
            return Err(
                DspError::InvalidParameter(
                    String::from_str("omega_gain (")
                        .concat(A::to_text(omega_gain).as_str())
                        .concat(") and mu_gain (")
                        .concat(A::to_text(mu_gain).as_str())
                        .concat(") must both be finite"),
                ),
            );
        }
        Ok(
            Gardner {
                mu: A::integer(0),
                omega: samples_per_symbol,
                omega_mid: samples_per_symbol,
                gain_mu: mu_gain,
                gain_omega: omega_gain,
                mid: complex::zero::<A>(),
                pending: Vec::with_capacity(8),
            },
        )
    }

    /// Takes in a sample, and returns the symbol that it completes, where it
    /// completes one.
    pub fn process(&mut self, x: Complex<A::R>) -> (r: Option<Complex<A::R>>)
        ensures
            (final(self)@, r) == old(self)@.step(x),
    {
        self.pending.push(x);
        if self.pending.len() < 3 {
            return None;
        }
        let early: Complex<A::R> = self.pending[0];
        let middle: Complex<A::R> = self.pending[1];
        let late: Complex<A::R> = self.pending[2];
        let symbol: Complex<A::R> = complex::plus::<A>(
            complex::scale::<A>(middle, A::minus(A::integer(1), self.mu)),
            complex::scale::<A>(late, self.mu),
        );
        let error: A::R = complex::times::<A>(
            complex::conj::<A>(self.mid),
            complex::minus::<A>(late, early),
        ).im;
        let drift: A::R = A::fraction(1, 200);
        self.omega = clamp::<A>(
            A::plus(self.omega, A::times(self.gain_omega, error)),
            A::minus(self.omega_mid, drift),
            A::plus(self.omega_mid, drift),
        );
        self.mu = A::plus(self.mu, A::plus(self.omega, A::times(self.gain_mu, error)));
        let whole: u64 = A::to_u64(A::floor(self.mu));
        let count: usize = if whole > usize::MAX as u64 {
            usize::MAX
        } else {
            whole as usize
        };
        self.mu = A::minus(self.mu, A::count(count));
        let dropped: usize = if count < self.pending.len() {
            count
        } else {
            self.pending.len()
        };
        drop_front(&mut self.pending, dropped);
        self.mid = middle;
        Some(symbol)
    }
}

/// A loop whose outer samples are alike is on time: the length of a symbol stays
/// as it is, and the next symbol lies that length on.
pub proof fn equal_samples_are_on_time<A: Arithmetic>(g: GardnerView<A>, x: Complex<A::R>)
    requires
        exact_laws::<A>(),
        negation_laws::<A>(),
        g.pending.len() == 2,
        g.pending[0] == x,
        A::finite(x.re),
        A::finite(x.im),
        A::finite(g.mid.re),
        A::finite(g.mid.im),
        A::finite(g.gain_mu),
        A::finite(g.gain_omega),
        A::finite(g.omega),
        !A::less(g.omega, A::difference(g.omega_mid, A::fraction_value(1, 200))),
        !A::less(A::sum(g.omega_mid, A::fraction_value(1, 200)), g.omega),
        A::natural_part(A::rounded_down(A::sum(g.mu, g.omega))) <= usize::MAX,
    ensures
        ({
            let whole = A::natural_part(A::rounded_down(A::sum(g.mu, g.omega)));
            let after = g.step(x).0;
            &&& after.omega == g.omega
            &&& after.mu == A::difference(
                A::sum(g.mu, g.omega),
                A::count_value(whole as usize),
            )
            &&& after.pending == g.pending.push(x).skip(
                if whole < 3 {
                    whole as int
                } else {
                    3
                },
            )
            &&& after.mid == g.pending[1]
        }),
{
    let zero = A::integer_value(0);
    whole_numbers::<A>(0);
    sums_undo::<A>(x.re, x.re);
    sums_undo::<A>(x.im, x.im);
    opposite::<A>(g.mid.im);
    zero_factor::<A>(g.mid.re);
    zero_factor::<A>(A::negation(g.mid.im));
    sum_with_zero::<A>(zero);
    zero_factor::<A>(g.gain_mu);
    zero_factor::<A>(g.gain_omega);
    sum_with_zero::<A>(g.omega);
    let three = g.pending.push(x);
    assert(three[0] == x && three[2] == x && three[1] == g.pending[1]);
}

/// A symbol that lies at a sample is that sample: the middle one of three where
/// it lies no part of the way to the last one, and the last one where it lies
/// all the way.
pub proof fn symbol_lies_between_samples<A: Arithmetic>(g: GardnerView<A>, x: Complex<A::R>)
    requires
        exact_laws::<A>(),
        g.pending.len() == 2,
        A::finite(x.re),
        A::finite(x.im),
        A::finite(g.pending[1].re),
        A::finite(g.pending[1].im),
    ensures
        g.mu == A::integer_value(0) ==> g.step(x).1 == Some(g.pending[1]),
        g.mu == A::integer_value(1) ==> g.step(x).1 == Some(x),
{
    let zero = A::integer_value(0);
    let one = A::integer_value(1);
    whole_numbers::<A>(0);
    whole_numbers::<A>(1);
    sums_undo::<A>(one, one);
    sum_with_zero::<A>(one);
    let m = g.pending[1];
    sum_with_zero::<A>(m.re);
    sum_with_zero::<A>(m.im);
    sum_with_zero::<A>(x.re);
    sum_with_zero::<A>(x.im);
    zero_factor::<A>(m.re);
    zero_factor::<A>(m.im);
    zero_factor::<A>(x.re);
    zero_factor::<A>(x.im);
    let three = g.pending.push(x);
    assert(three[1] == m && three[2] == x);
}

/// The error of the symbol timing is how far the imaginary part moves from the
/// first sample to the last, where the middle sample before lies on the real
/// axis at one; it moves the next symbol by its share `gain_mu`.
pub proof fn error_moves_the_next_symbol<A: Arithmetic>(g: GardnerView<A>, x: Complex<A::R>)
    requires
        exact_laws::<A>(),
        negation_laws::<A>(),
        g.pending.len() == 2,
        A::finite(x.re),
        A::finite(x.im),
        A::finite(g.pending[0].re),
        A::finite(g.pending[0].im),
        g.mid == (Complex { re: A::integer_value(1), im: A::integer_value(0) }),
        g.gain_omega == A::integer_value(0),
        A::finite(g.gain_mu),
        A::finite(g.omega),
        !A::less(g.omega, A::difference(g.omega_mid, A::fraction_value(1, 200))),
        !A::less(A::sum(g.omega_mid, A::fraction_value(1, 200)), g.omega),
    ensures
        ({
            let moved = A::difference(x.im, g.pending[0].im);
            let mu = A::sum(g.mu, A::sum(g.omega, A::product(g.gain_mu, moved)));
            let whole = A::natural_part(A::rounded_down(mu));
            whole <= usize::MAX ==> g.step(x).0.mu == A::difference(
                mu,
                A::count_value(whole as usize),
            )
        }),
{
    let zero = A::integer_value(0);
    let one = A::integer_value(1);
    whole_numbers::<A>(0);
    whole_numbers::<A>(1);
    let early = g.pending[0];
    let moved = A::difference(x.im, early.im);
    stays_finite::<A>(x.im, early.im);
    stays_finite::<A>(x.re, early.re);
    opposite::<A>(zero);
    sum_with_zero::<A>(A::negation(zero));
    assert(A::negation(zero) == zero);
    zero_factor::<A>(A::difference(x.re, early.re));
    sum_with_zero::<A>(moved);
    zero_factor::<A>(moved);
    sum_with_zero::<A>(g.omega);
    let three = g.pending.push(x);
    assert(three[0] == early && three[2] == x);
}

} // verus!
