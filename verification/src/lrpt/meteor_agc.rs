//! Gain control ahead of the carrier recovery for offset keying.

use crate::arith::Arithmetic;
use crate::block::Block;
use crate::complex;
use crate::exact::{
    exact_laws, stays_finite, sum_with_zero, sums_undo, weights_keep, whole_numbers, zero_factor,
};
use crate::types::Complex;
use vstd::prelude::*;

verus! {

/// Magnitude that the gain control aims for.
pub const TARGET_MAG: i64 = 190;

/// Gain control that takes the mean off each sample and scales it.
pub struct MeteorAgc<A: Arithmetic> {
    /// Gain of the next sample.
    pub gain: A::R,
    /// Estimate of the mean.
    pub bias: Complex<A::R>,
}

impl<A: Arithmetic> Default for MeteorAgc<A> {
    fn default() -> (f: Self)
        ensures
            f == Self::fresh(),
    {
        Self::new()
    }
}

impl<A: Arithmetic> MeteorAgc<A> {
    /// The control at the start of a stream.
    pub open spec fn fresh() -> Self {
        MeteorAgc { gain: A::integer_value(1), bias: complex::origin::<A>() }
    }

    /// Creates a control with the gain 1 and the mean 0.
    pub fn new() -> (f: Self)
        ensures
            f == Self::fresh(),
    {
        MeteorAgc { gain: A::integer(1), bias: complex::zero::<A>() }
    }

    /// Levels `sample`.
    pub fn process(&mut self, sample: Complex<A::R>) -> (r: Complex<A::R>)
        ensures
            (*final(self), r) == old(self).step(sample),
    {
        self.tick(sample)
    }

    /// Gain of the next sample.
    pub fn gain(&self) -> (r: A::R)
        ensures
            r == self.gain,
    {
        self.gain
    }
}

impl<A: Arithmetic> Block<Complex<A::R>, Complex<A::R>> for MeteorAgc<A> {
    /// The mean follows the sample, the sample less the mean is scaled, and
    /// the gain follows what its magnitude lacks, without going below zero.
    open spec fn step(self, x: Complex<A::R>) -> (Self, Complex<A::R>) {
        let pole = A::fraction_value(1, 1000);
        let bias = complex::total::<A>(
            complex::scaled::<A>(self.bias, A::difference(A::integer_value(1), pole)),
            complex::scaled::<A>(x, pole),
        );
        let y = complex::scaled::<A>(complex::offset::<A>(x, bias), self.gain);
        let magnitude = A::root(A::sum(A::product(y.re, y.re), A::product(y.im, y.im)));
        let gain = A::sum(
            self.gain,
            A::product(
                A::fraction_value(1, 10_000),
                A::difference(A::integer_value(TARGET_MAG), magnitude),
            ),
        );
        (
            MeteorAgc {
                gain: if A::less(gain, A::integer_value(0)) {
                    A::integer_value(0)
                } else {
                    gain
                },
                bias,
            },
            y,
        )
    }

    fn tick(&mut self, x: Complex<A::R>) -> (y: Complex<A::R>) {
        let pole: A::R = A::fraction(1, 1000);
        self.bias = complex::plus::<A>(
            complex::scale::<A>(self.bias, A::minus(A::integer(1), pole)),
            complex::scale::<A>(x, pole),
        );
        let y: Complex<A::R> = complex::scale::<A>(
            complex::minus::<A>(x, self.bias),
            self.gain,
        );
        let magnitude: A::R = A::sqrt(A::plus(A::times(y.re, y.re), A::times(y.im, y.im)));
        self.gain = A::plus(
            self.gain,
            A::times(A::fraction(1, 10_000), A::minus(A::integer(TARGET_MAG), magnitude)),
        );
        if A::lt(self.gain, A::integer(0)) {
            self.gain = A::integer(0);
        }
        y
    }
}

/// A constant is the mean, and nothing of it comes out.
pub proof fn mean_is_taken_off<A: Arithmetic>(f: MeteorAgc<A>)
    requires
        exact_laws::<A>(),
        A::finite(A::fraction_value(1, 1000)),
        A::finite(f.gain),
        A::finite(f.bias.re),
        A::finite(f.bias.im),
    ensures
        f.step(f.bias).0.bias == f.bias,
        f.step(f.bias).1 == (Complex { re: A::integer_value(0), im: A::integer_value(0) }),
{
    let pole = A::fraction_value(1, 1000);
    weights_keep::<A>(f.bias.re, pole);
    weights_keep::<A>(f.bias.im, pole);
    sums_undo::<A>(f.bias.re, f.bias.re);
    sums_undo::<A>(f.bias.im, f.bias.im);
    zero_factor::<A>(f.gain);
}

/// The gain stays where the samples have the magnitude that it aims for, and
/// otherwise moves by the share of what they lack.
pub proof fn gain_aims_for_the_target<A: Arithmetic>(f: MeteorAgc<A>, x: Complex<A::R>)
    requires
        exact_laws::<A>(),
        A::finite(f.gain),
        !A::less(f.gain, A::integer_value(0)),
        A::finite(A::fraction_value(1, 10_000)),
        ({
            let y = f.step(x).1;
            A::root(A::sum(A::product(y.re, y.re), A::product(y.im, y.im))) == A::integer_value(
                190,
            )
        }),
    ensures
        f.step(x).0.gain == f.gain,
{
    whole_numbers::<A>(190);
    sums_undo::<A>(A::integer_value(190), A::integer_value(190));
    zero_factor::<A>(A::fraction_value(1, 10_000));
    sum_with_zero::<A>(f.gain);
}

/// Without a mean, a sample comes out times the gain.
pub proof fn gain_scales<A: Arithmetic>(f: MeteorAgc<A>, x: Complex<A::R>)
    requires
        exact_laws::<A>(),
        A::finite(A::fraction_value(1, 1000)),
        A::finite(x.re),
        A::finite(x.im),
        f.step(x).0.bias == (Complex { re: A::integer_value(0), im: A::integer_value(0) }),
    ensures
        f.step(x).1 == (Complex {
            re: A::product(x.re, f.gain),
            im: A::product(x.im, f.gain),
        }),
{
    sum_with_zero::<A>(x.re);
    sum_with_zero::<A>(x.im);
}

} // verus!
