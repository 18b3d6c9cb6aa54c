//! Correction of a receiver's errors.

use crate::arith::{Arithmetic, Widening, got, got_instead, is_positive_finite, positive_finite};
use crate::block::{drive, ran, Block};
use crate::complex;
use crate::exact::{
    exact_laws, negation_laws, opposite, opposite_factors, opposites, stays_finite, sum_with_zero,
    sums_undo, whole_numbers, widening_laws, zero_factor,
};
use crate::stream::{overwritten, overwritten_next, scan, scan_append, scan_next};
use crate::types::{Complex, DspError, Fault};
use vstd::prelude::*;
use vstd::string::StringExecFns;

verus! {

/// Takes the mean off a signal: `y[n] = x[n] - x[n-1] + r * y[n-1]`.
pub struct DcBlocker<A: Arithmetic> {
    /// What stays of the output from sample to sample.
    pub r: A::R,
    /// The last sample of the input.
    pub last_in: Complex<A::R>,
    /// The last sample of the output.
    pub last_out: Complex<A::R>,
}

impl<A: Arithmetic> DcBlocker<A> {
    /// What stays of the output at `rate`.
    pub open spec fn pole<D: Widening<A>>(rate: D::R) -> A::R {
        D::narrowed(D::difference(D::integer_value(1), rate))
    }

    /// Why `rate` is not possible, where it is not: it must lie between 0 and
    /// 1, and so must what stays of the output.
    pub open spec fn refusal<D: Widening<A>>(rate: D::R) -> Option<Fault> {
        let pole = Self::pole::<D>(rate);
        if !positive_finite::<D>(rate) || D::at_most(D::integer_value(1), rate) {
            Some(got::<D>("rate must be in (0, 1)"@, rate))
        } else if A::at_most(pole, A::integer_value(0)) || A::at_most(A::integer_value(1), pole) {
            Some(
                Fault::InvalidParameter(
                    "rate "@ + D::text(rate) + " leaves the f32 pole coefficient at "@
                        + A::text(pole) + ", outside (0, 1)"@,
                ),
            )
        } else {
            None
        }
    }

    /// Creates a filter. The smaller `rate`, the narrower the notch at zero
    /// frequency.
    pub fn new<D: Widening<A>>(rate: D::R) -> (r: Result<Self, DspError>)
        ensures
            match r {
                Err(e) => Self::refusal::<D>(rate) == Some(e@),
                Ok(f) => {
                    &&& Self::refusal::<D>(rate) is None
                    &&& f == (DcBlocker::<A> {
                        r: Self::pole::<D>(rate),
                        last_in: complex::origin::<A>(),
                        last_out: complex::origin::<A>(),
                    })
                },
            },
    {
        if !is_positive_finite::<D>(rate) || D::le(D::integer(1), rate) {
            return Err(got_instead::<D>("rate must be in (0, 1)", rate));
        }
        let r: A::R = D::narrow(D::minus(D::integer(1), rate));
        if A::le(r, A::integer(0)) || A::le(A::integer(1), r) {
            return Err(
                DspError::InvalidParameter(
                    String::from_str("rate ")
                        .concat(D::to_text(rate).as_str())
                        .concat(" leaves the f32 pole coefficient at ")
                        .concat(A::to_text(r).as_str())
                        .concat(", outside (0, 1)"),
                ),
            );
        }
        Ok(DcBlocker { r, last_in: complex::zero::<A>(), last_out: complex::zero::<A>() })
    }

    /// Creates a filter from a rate in hertz.
    pub fn from_hz<D: Widening<A>>(rate_hz: D::R, sample_rate: D::R) -> (r: Result<
        Self,
        DspError,
    >)
        ensures
            ({
                let rate = D::quotient(rate_hz, sample_rate);
                match r {
                    Err(e) => Self::refusal::<D>(rate) == Some(e@),
                    Ok(f) => {
                        &&& Self::refusal::<D>(rate) is None
                        &&& f == (DcBlocker::<A> {
                            r: Self::pole::<D>(rate),
                            last_in: complex::origin::<A>(),
                            last_out: complex::origin::<A>(),
                        })
                    },
                }
            }),
    {
        Self::new::<D>(D::over(rate_hz, sample_rate))
    }

    /// Starts a new stream.
    pub fn reset(&mut self)
        ensures
            *final(self) == (DcBlocker::<A> {
                last_in: complex::origin::<A>(),
                last_out: complex::origin::<A>(),
                ..*old(self)
            }),
    {
        self.last_in = complex::zero::<A>();
        self.last_out = complex::zero::<A>();
    }

    /// Filters `input` into `output` and returns the number of samples
    /// written.
    pub fn process(&mut self, input: &[Complex<A::R>], output: &mut [Complex<A::R>]) -> (r: Result<
        usize,
        DspError,
    >)
        ensures
            ran(*old(self), *final(self), input@, old(output)@, final(output)@, r),
    {
        drive(self, input, output)
    }
}

impl<A: Arithmetic> Block<Complex<A::R>, Complex<A::R>> for DcBlocker<A> {
    open spec fn step(self, x: Complex<A::R>) -> (Self, Complex<A::R>) {
        let y = complex::total::<A>(
            complex::offset::<A>(x, self.last_in),
            Complex {
                re: A::product(self.r, self.last_out.re),
                im: A::product(self.r, self.last_out.im),
            },
        );
        (DcBlocker { last_in: x, last_out: y, ..self }, y)
    }

    fn tick(&mut self, x: Complex<A::R>) -> (y: Complex<A::R>) {
        let kept: Complex<A::R> = Complex {
            re: A::times(self.r, self.last_out.re),
            im: A::times(self.r, self.last_out.im),
        };
        let y: Complex<A::R> = complex::plus::<A>(complex::minus::<A>(x, self.last_in), kept);
        self.last_in = x;
        self.last_out = y;
        y
    }
}

/// Adaptation rate of [`IqCorrector`] that suits samples between -1 and 1.
pub fn iq_correction_default_rate<D: Arithmetic>() -> (r: D::R)
    ensures
        r == D::fraction_value(1, 100_000),
{
    D::fraction(1, 100_000)
}

/// The estimate does not follow samples whose power is above this.
pub const IQ_CORRECTION_MAX_UPDATE_POWER: i64 = 16;

/// Takes off the image that unequal in-phase and quadrature paths leave:
/// `y = x - conj(x) * c`, where the estimate `c` moves by `y * y * rate` with
/// each sample.
pub struct IqCorrector<A: Arithmetic> {
    /// The estimate of the imbalance.
    pub correction: Complex<A::R>,
    /// How fast the estimate moves.
    pub rate: A::R,
}

impl<A: Arithmetic> IqCorrector<A> {
    /// Why `rate` is not possible, where it is not: it must lie between 0 and
    /// 1, also once it is rounded to the numbers that the loop runs with.
    pub open spec fn refusal<D: Widening<A>>(rate: D::R) -> Option<Fault> {
        let rounded = D::narrowed(rate);
        if !positive_finite::<D>(rate) || D::at_most(D::integer_value(1), rate) {
            Some(got::<D>("IQ correction rate must be in (0, 1)"@, rate))
        } else if A::at_most(rounded, A::integer_value(0)) || A::at_most(
            A::integer_value(1),
            rounded,
        ) {
            Some(
                Fault::InvalidParameter(
                    "IQ correction rate "@ + D::text(rate)
                        + " is not strictly inside (0, 1) as f32 ("@ + A::text(rounded) + ")"@,
                ),
            )
        } else {
            None
        }
    }

    /// Creates a corrector that knows of no imbalance.
    pub fn new<D: Widening<A>>(rate: D::R) -> (r: Result<Self, DspError>)
        ensures
            match r {
                Err(e) => Self::refusal::<D>(rate) == Some(e@),
                Ok(f) => {
                    &&& Self::refusal::<D>(rate) is None
                    &&& f == (IqCorrector::<A> {
                        correction: complex::origin::<A>(),
                        rate: D::narrowed(rate),
                    })
                },
            },
    {
        if !is_positive_finite::<D>(rate) || D::le(D::integer(1), rate) {
            return Err(got_instead::<D>("IQ correction rate must be in (0, 1)", rate));
        }
        let rounded: A::R = D::narrow(rate);
        if A::le(rounded, A::integer(0)) || A::le(A::integer(1), rounded) {
            return Err(
                DspError::InvalidParameter(
                    String::from_str("IQ correction rate ")
                        .concat(D::to_text(rate).as_str())
                        .concat(" is not strictly inside (0, 1) as f32 (")
                        .concat(A::to_text(rounded).as_str())
                        .concat(")"),
                ),
            );
        }
        Ok(IqCorrector { correction: complex::zero::<A>(), rate: rounded })
    }

    /// The estimate of the imbalance.
    pub fn correction(&self) -> (r: Complex<A::R>)
        ensures
            r == self.correction,
    {
        self.correction
    }

    /// Forgets the estimate.
    pub fn reset(&mut self)
        ensures
            *final(self) == (IqCorrector::<A> {
                correction: complex::origin::<A>(),
                ..*old(self)
            }),
    {
        self.correction = complex::zero::<A>();
    }

    /// The estimate after the sample `x`, and what comes out for it.
    pub open spec fn corrected(rate: A::R, c: Complex<A::R>, x: Complex<A::R>) -> (
        Complex<A::R>,
        Complex<A::R>,
    ) {
        let y = complex::offset::<A>(
            x,
            complex::rotated::<A>(complex::conjugate::<A>(x), c),
        );
        let power = A::sum(A::product(y.re, y.re), A::product(y.im, y.im));
        let moved = if A::at_most(power, A::integer_value(IQ_CORRECTION_MAX_UPDATE_POWER)) {
            complex::total::<A>(
                c,
                complex::scaled::<A>(complex::rotated::<A>(y, y), rate),
            )
        } else {
            c
        };
        (moved, y)
    }

    /// The estimate after the samples `xs`, and what comes out for them.
    pub open spec fn adapted(self, xs: Seq<Complex<A::R>>) -> (
        Complex<A::R>,
        Seq<Complex<A::R>>,
    ) {
        let rate = self.rate;
        scan(
            |c: Complex<A::R>, x: Complex<A::R>| Self::corrected(rate, c, x),
            self.correction,
            xs,
        )
    }

    /// `c`, or zero where it is no ordinary number.
    pub open spec fn healed(c: Complex<A::R>) -> Complex<A::R> {
        if A::finite(c.re) && A::finite(c.im) {
            c
        } else {
            complex::origin::<A>()
        }
    }

    /// Corrects `input` into `output` and returns the number of samples
    /// written. An estimate that is no ordinary number at the end is
    /// forgotten.
    pub fn process(&mut self, input: &[Complex<A::R>], output: &mut [Complex<A::R>]) -> (r: Result<
        usize,
        DspError,
    >)
        ensures
            match r {
                Err(e) => {
                    &&& old(output)@.len() < input@.len()
                    &&& e == DspError::BufferTooSmall {
                        need: input@.len() as usize,
                        got: old(output)@.len() as usize,
                    }
                    &&& *final(self) == *old(self)
                    &&& final(output)@ == old(output)@
                },
                Ok(n) => {
                    let (c, made) = old(self).adapted(input@);
                    &&& n == input@.len() <= old(output)@.len()
                    &&& final(output)@ == overwritten(old(output)@, made)
                    &&& *final(self) == (IqCorrector::<A> {
                        correction: Self::healed(c),
                        ..*old(self)
                    })
                },
            },
    {
        if output.len() < input.len() {
            return Err(DspError::BufferTooSmall { need: input.len(), got: output.len() });
        }
        let rate: A::R = self.rate;
        let ghost step = |c: Complex<A::R>, x: Complex<A::R>| Self::corrected(rate, c, x);
        let mut c: Complex<A::R> = self.correction;
        let mut i: usize = 0;
        while i < input.len()
            invariant
                i <= input@.len() <= output@.len(),
                output@.len() == old(output)@.len(),
                step == (|c: Complex<A::R>, x: Complex<A::R>| Self::corrected(rate, c, x)),
                c == scan(step, old(self).correction, input@.take(i as int)).0,
                output@ == overwritten(
                    old(output)@,
                    scan(step, old(self).correction, input@.take(i as int)).1,
                ),
            decreases input.len() - i,
        {
            proof {
                scan_next(step, old(self).correction, input@, i as int);
            }
            let x: Complex<A::R> = input[i];
            let y: Complex<A::R> = complex::minus::<A>(
                x,
                complex::times::<A>(complex::conj::<A>(x), c),
            );
            let power: A::R = A::plus(A::times(y.re, y.re), A::times(y.im, y.im));
            if A::le(power, A::integer(IQ_CORRECTION_MAX_UPDATE_POWER)) {
                c = complex::plus::<A>(
                    c,
                    complex::scale::<A>(complex::times::<A>(y, y), rate),
                );
            }
            proof {
                overwritten_next(
                    old(output)@,
                    scan(step, old(self).correction, input@.take(i as int)).1,
                    y,
                );
            }
            output[i] = y;
            i = i + 1;
        }
        assert(input@.take(i as int) =~= input@);
        self.correction = if A::is_finite(c.re) && A::is_finite(c.im) {
            c
        } else {
            complex::zero::<A>()
        };
        Ok(input.len())
    }
}

/// As long as the estimate stays an ordinary number, what a corrector makes of
/// a stream does not depend on how the stream is cut into calls.
pub proof fn iq_append<A: Arithmetic>(
    f: IqCorrector<A>,
    xs: Seq<Complex<A::R>>,
    ys: Seq<Complex<A::R>>,
)
    requires
        IqCorrector::<A>::healed(f.adapted(xs).0) == f.adapted(xs).0,
    ensures
        ({
            let between = IqCorrector::<A> {
                correction: IqCorrector::<A>::healed(f.adapted(xs).0),
                ..f
            };
            &&& f.adapted(xs + ys).0 == between.adapted(ys).0
            &&& f.adapted(xs + ys).1 == f.adapted(xs).1 + between.adapted(ys).1
        }),
{
    let rate = f.rate;
    scan_append(
        |c: Complex<A::R>, x: Complex<A::R>| IqCorrector::<A>::corrected(rate, c, x),
        f.correction,
        xs,
        ys,
    );
}

/// A blocker that has settled blocks a constant, and lets a step of the input
/// through whole.
pub proof fn constant_is_blocked<A: Arithmetic>(f: DcBlocker<A>, x: Complex<A::R>)
    requires
        exact_laws::<A>(),
        A::finite(f.r),
        f.last_out == complex::origin::<A>(),
        A::finite(f.last_in.re),
        A::finite(f.last_in.im),
        A::finite(x.re),
        A::finite(x.im),
    ensures
        f.step(f.last_in) == (f, complex::origin::<A>()),
        f.step(x).1 == (Complex {
            re: A::difference(x.re, f.last_in.re),
            im: A::difference(x.im, f.last_in.im),
        }),
{
    let zero = A::integer_value(0);
    whole_numbers::<A>(0);
    zero_factor::<A>(f.r);
    sums_undo::<A>(f.last_in.re, f.last_in.re);
    sums_undo::<A>(f.last_in.im, f.last_in.im);
    sum_with_zero::<A>(zero);
    stays_finite::<A>(x.re, f.last_in.re);
    stays_finite::<A>(x.im, f.last_in.im);
    sum_with_zero::<A>(A::difference(x.re, f.last_in.re));
    sum_with_zero::<A>(A::difference(x.im, f.last_in.im));
}

/// What a blocker has given out dies away by the share `rate` with each sample:
/// behind a constant, the output is `1 - rate` of the output before.
pub proof fn output_dies_away<A: Arithmetic, D: Widening<A>>(f: DcBlocker<A>, rate: D::R)
    requires
        exact_laws::<A>(),
        exact_laws::<D>(),
        widening_laws::<A, D>(),
        D::finite(rate),
        f.r == DcBlocker::<A>::pole::<D>(rate),
        A::finite(f.last_in.re),
        A::finite(f.last_in.im),
        A::finite(f.last_out.re),
        A::finite(f.last_out.im),
    ensures
        D::sum(D::widened(f.r), rate) == D::integer_value(1),
        f.step(f.last_in).1 == (Complex {
            re: A::product(f.r, f.last_out.re),
            im: A::product(f.r, f.last_out.im),
        }),
{
    whole_numbers::<D>(1);
    stays_finite::<D>(D::integer_value(1), rate);
    sums_undo::<D>(D::integer_value(1), rate);
    sums_undo::<A>(f.last_in.re, f.last_in.re);
    sums_undo::<A>(f.last_in.im, f.last_in.im);
    stays_finite::<A>(f.r, f.last_out.re);
    stays_finite::<A>(f.r, f.last_out.im);
    sum_with_zero::<A>(A::product(f.r, f.last_out.re));
    sum_with_zero::<A>(A::product(f.r, f.last_out.im));
}

/// A corrector without a correction lets its input through.
pub proof fn no_correction_no_change<A: Arithmetic>(rate: A::R, x: Complex<A::R>)
    requires
        exact_laws::<A>(),
        negation_laws::<A>(),
        A::finite(x.re),
        A::finite(x.im),
    ensures
        IqCorrector::<A>::corrected(rate, complex::origin::<A>(), x).1 == x,
{
    let zero = A::integer_value(0);
    whole_numbers::<A>(0);
    opposite::<A>(x.im);
    zero_factor::<A>(x.re);
    zero_factor::<A>(A::negation(x.im));
    sum_with_zero::<A>(zero);
    sum_with_zero::<A>(x.re);
    sum_with_zero::<A>(x.im);
}

/// A correction weakens one axis by as much as it strengthens the other, and is
/// at rest where both come out alike.
///
/// With the correction `g`, a sample `p` on the real axis comes out as `p - p g`
/// and moves the correction up; a sample `q` on the imaginary axis comes out as
/// `q + q g` and moves it down. Where both come out as `m`, the two moves are
/// opposite.
pub proof fn axes_are_balanced<A: Arithmetic>(rate: A::R, g: A::R, p: A::R, q: A::R, m: A::R)
    requires
        exact_laws::<A>(),
        negation_laws::<A>(),
        A::finite(rate),
        A::finite(g),
        A::finite(p),
        A::finite(q),
        A::difference(p, A::product(p, g)) == m,
        A::sum(q, A::product(q, g)) == m,
        A::at_most(
            A::sum(A::product(m, m), A::integer_value(0)),
            A::integer_value(IQ_CORRECTION_MAX_UPDATE_POWER),
        ),
        A::at_most(
            A::sum(A::integer_value(0), A::product(m, m)),
            A::integer_value(IQ_CORRECTION_MAX_UPDATE_POWER),
        ),
    ensures
        ({
            let zero = A::integer_value(0);
            let c = Complex { re: g, im: zero };
            let (up, first) = IqCorrector::<A>::corrected(rate, c, Complex { re: p, im: zero });
            let (down, second) = IqCorrector::<A>::corrected(
                rate,
                c,
                Complex { re: zero, im: q },
            );
            &&& first == (Complex { re: m, im: zero })
            &&& second == (Complex { re: zero, im: m })
            &&& up == (Complex { re: A::sum(g, A::product(A::product(m, m), rate)), im: zero })
            &&& down == (Complex {
                re: A::difference(g, A::product(A::product(m, m), rate)),
                im: zero,
            })
        }),
{
    let zero = A::integer_value(0);
    whole_numbers::<A>(0);
    opposite::<A>(zero);
    sum_with_zero::<A>(A::negation(zero));
    sum_with_zero::<A>(zero);
    assert(A::negation(zero) == zero);
    stays_finite::<A>(p, g);
    stays_finite::<A>(q, g);
    let pg = A::product(p, g);
    let qg = A::product(q, g);
    stays_finite::<A>(p, pg);
    zero_factor::<A>(p);
    zero_factor::<A>(q);
    zero_factor::<A>(g);
    zero_factor::<A>(zero);
    zero_factor::<A>(m);
    sum_with_zero::<A>(pg);
    sum_with_zero::<A>(p);
    sum_with_zero::<A>(q);
    opposite::<A>(q);
    opposite_factors::<A>(q, g);
    opposite::<A>(qg);
    zero_factor::<A>(A::negation(q));
    sum_with_zero::<A>(A::negation(qg));
    opposites::<A>(q, A::negation(qg));
    let mm = A::product(m, m);
    stays_finite::<A>(m, m);
    sum_with_zero::<A>(mm);
    opposite::<A>(mm);
    opposite_factors::<A>(mm, rate);
    stays_finite::<A>(mm, rate);
    let step = A::product(mm, rate);
    opposite::<A>(step);
    opposites::<A>(g, step);
    zero_factor::<A>(rate);
}

} // verus!
