//! FIR and IIR filters.
//!
//! The filters carry state between calls, so that a stream may be handed over
//! in pieces of any length.

use crate::arith::{Arithmetic, Widening, got, got_instead, is_positive_finite, positive_finite};
use crate::block::{drive, ran, run, Block};
use crate::complex::{self, imags, reals};
use crate::exact::{
    addends_in_any_order, all_finite, exact_laws, factor_of_difference, factor_of_sum,
    factors_in_any_order, products_undo, stays_finite, sum_with_zero, sums_in_pairs, sums_undo,
    swap_addends, weights_keep, whole_numbers, widening_laws, zero_factor,
};
use crate::kernel::{
    convolve_at, convolve_complex_at, convolved, convolved_constant, convolved_terms, sum_of, convolved_complex, convolved_complex_local,
    convolved_terms_local, div_up, grid_append, grid_bounds, grid_carry, grid_count,
    grid_count_at_most, grid_count_is, grid_point_below, quotient_up,
};
use crate::stream::{
    filled, overwritten, refit, refitted, remember, repeated, tail,
};
use crate::types::{Complex, DspError, Fault, invalid};
use vstd::prelude::*;

verus! {

/// What a FIR filter with `taps` makes of `input` when `history` holds the
/// samples before it.
pub open spec fn filtered<A: Arithmetic>(
    taps: Seq<A::R>,
    history: Seq<A::R>,
    input: Seq<A::R>,
) -> Seq<A::R> {
    Seq::new(
        input.len(),
        |i: int| convolved::<A>(taps, history + input, history.len() + i),
    )
}

/// [`filtered`] on a complex stream.
pub open spec fn filtered_complex<A: Arithmetic>(
    taps: Seq<A::R>,
    history: Seq<Complex<A::R>>,
    input: Seq<Complex<A::R>>,
) -> Seq<Complex<A::R>> {
    Seq::new(
        input.len(),
        |i: int| convolved_complex::<A>(taps, history + input, history.len() + i),
    )
}

/// What is left of [`filtered`] where only every `step`-th sample from
/// `offset` on is kept.
pub open spec fn decimated<A: Arithmetic>(
    taps: Seq<A::R>,
    history: Seq<A::R>,
    input: Seq<A::R>,
    offset: int,
    step: int,
) -> Seq<A::R> {
    Seq::new(
        grid_count(input.len() as int, offset, step) as nat,
        |i: int| convolved::<A>(taps, history + input, history.len() + offset + i * step),
    )
}

/// FIR filter for real samples.
pub struct FirFilter<A: Arithmetic> {
    /// Filter taps.
    pub taps: Vec<A::R>,
    /// The samples before the next input, the most recent one last.
    pub delay_line: Vec<A::R>,
}

impl<A: Arithmetic> FirFilter<A> {
    /// There are taps, and the delay line holds one sample less.
    pub open spec fn wf(self) -> bool {
        self.taps@.len() == self.delay_line@.len() + 1
    }

    /// Creates a filter whose delay line is zero.
    pub fn new(taps: Vec<A::R>) -> (r: Result<Self, DspError>)
        ensures
            match r {
                Err(e) => taps@.len() == 0
                    && e@ == Fault::InvalidParameter("FIR taps must not be empty"@),
                Ok(f) => {
                    &&& taps@.len() > 0
                    &&& f.wf()
                    &&& f.taps@ == taps@
                    &&& f.delay_line@ == repeated(A::integer_value(0), (taps@.len() - 1) as nat)
                },
            },
    {
        if taps.is_empty() {
            return Err(invalid("FIR taps must not be empty"));
        }
        let delay_line: Vec<A::R> = filled(A::integer(0), taps.len() - 1);
        Ok(FirFilter { taps, delay_line })
    }

    /// Replaces the taps. The most recent samples of the delay line stay.
    pub fn set_taps(&mut self, taps: Vec<A::R>) -> (r: Result<(), DspError>)
        requires
            old(self).wf(),
        ensures
            final(self).wf(),
            match r {
                Err(e) => taps@.len() == 0 && *final(self) == *old(self)
                    && e@ == Fault::InvalidParameter("FIR taps must not be empty"@),
                Ok(_) => {
                    &&& taps@.len() > 0
                    &&& final(self).taps@ == taps@
                    &&& final(self).delay_line@ == refitted(
                        old(self).delay_line@,
                        (taps@.len() - 1) as nat,
                        A::integer_value(0),
                    )
                },
            },
    {
        if taps.is_empty() {
            return Err(invalid("FIR taps must not be empty"));
        }
        let new_delay_len: usize = taps.len() - 1;
        self.delay_line = refit(&self.delay_line, new_delay_len, A::integer(0));
        self.taps = taps;
        Ok(())
    }

    /// Clears the delay line.
    pub fn reset(&mut self)
        ensures
            final(self).taps@ == old(self).taps@,
            final(self).delay_line@ == repeated(
                A::integer_value(0),
                old(self).delay_line@.len(),
            ),
    {
        self.delay_line = filled(A::integer(0), self.delay_line.len());
    }

    /// Number of taps.
    pub fn tap_count(&self) -> (r: usize)
        ensures
            r == self.taps@.len(),
    {
        self.taps.len()
    }

    /// Filters `input` into `output` and returns the number of samples
    /// written.
    pub fn process_f32(&mut self, input: &[A::R], output: &mut [A::R]) -> (r: Result<
        usize,
        DspError,
    >)
        requires
            old(self).wf(),
        ensures
            final(self).wf(),
            match r {
                Err(e) => {
                    &&& old(output)@.len() < input@.len()
                    &&& e == DspError::BufferTooSmall {
                        need: input@.len() as usize,
                        got: old(output)@.len() as usize,
                    }
                    &&& *final(self) == *old(self)
                    &&& final(output)@ == old(output)@
                },
                Ok(n) => {
                    &&& n == input@.len() <= old(output)@.len()
                    &&& final(output)@ == overwritten(
                        old(output)@,
                        filtered::<A>(old(self).taps@, old(self).delay_line@, input@),
                    )
                    &&& final(self).taps@ == old(self).taps@
                    &&& final(self).delay_line@ == tail(
                        old(self).delay_line@ + input@,
                        old(self).delay_line@.len(),
                    )
                },
            },
    {
        if output.len() < input.len() {
            return Err(DspError::BufferTooSmall { need: input.len(), got: output.len() });
        }
        let ghost produced = filtered::<A>(self.taps@, self.delay_line@, input@);
        let mut i: usize = 0;
        while i < input.len()
            invariant
                i <= input@.len() <= output@.len(),
                self.wf(),
                *self == *old(self),
                produced == filtered::<A>(self.taps@, self.delay_line@, input@),
                output@ =~= overwritten(old(output)@, produced.take(i as int)),
                output@.len() == old(output)@.len(),
            decreases input.len() - i,
        {
            output[i] = convolve_at::<A>(&self.taps, &self.delay_line, input, i);
            i = i + 1;
        }
        assert(produced.take(i as int) =~= produced);
        remember(&mut self.delay_line, input);
        Ok(input.len())
    }
}

/// A FIR filter with the samples before its next input.
pub struct FirView<A: Arithmetic> {
    /// Filter taps.
    pub taps: Seq<A::R>,
    /// The samples before the next input.
    pub history: Seq<A::R>,
}

impl<A: Arithmetic> FirView<A> {
    /// There are taps, and the history holds one sample less.
    pub open spec fn wf(self) -> bool {
        self.taps.len() == self.history.len() + 1
    }

    /// What comes out for `input`.
    pub open spec fn output(self, input: Seq<A::R>) -> Seq<A::R> {
        filtered::<A>(self.taps, self.history, input)
    }

    /// The filter once `input` has gone through.
    pub open spec fn next(self, input: Seq<A::R>) -> Self {
        FirView { history: tail(self.history + input, self.history.len()), ..self }
    }

    /// The filter at the start of a stream.
    pub open spec fn cleared(self) -> Self {
        FirView { history: repeated(A::integer_value(0), self.history.len()), ..self }
    }
}

/// What `f` holds.
pub open spec fn fir_view<A: Arithmetic>(f: FirFilter<A>) -> FirView<A> {
    FirView { taps: f.taps@, history: f.delay_line@ }
}

/// FIR filter with real taps for complex samples.
pub struct ComplexFirFilter<A: Arithmetic> {
    /// Filter taps.
    pub taps: Vec<A::R>,
    /// The samples before the next input, the most recent one last.
    pub delay_line: Vec<Complex<A::R>>,
}

impl<A: Arithmetic> ComplexFirFilter<A> {
    /// There are taps, and the delay line holds one sample less.
    pub open spec fn wf(self) -> bool {
        self.taps@.len() == self.delay_line@.len() + 1
    }

    /// Creates a filter whose delay line is zero.
    pub fn new(taps: Vec<A::R>) -> (r: Result<Self, DspError>)
        ensures
            match r {
                Err(e) => taps@.len() == 0
                    && e@ == Fault::InvalidParameter("FIR taps must not be empty"@),
                Ok(f) => {
                    &&& taps@.len() > 0
                    &&& f.wf()
                    &&& f.taps@ == taps@
                    &&& f.delay_line@ == repeated(
                        complex::origin::<A>(),
                        (taps@.len() - 1) as nat,
                    )
                },
            },
    {
        if taps.is_empty() {
            return Err(invalid("FIR taps must not be empty"));
        }
        let delay_line: Vec<Complex<A::R>> = filled(complex::zero::<A>(), taps.len() - 1);
        Ok(ComplexFirFilter { taps, delay_line })
    }

    /// Replaces the taps. The most recent samples of the delay line stay.
    pub fn set_taps(&mut self, taps: Vec<A::R>) -> (r: Result<(), DspError>)
        requires
            old(self).wf(),
        ensures
            final(self).wf(),
            match r {
                Err(e) => taps@.len() == 0 && *final(self) == *old(self)
                    && e@ == Fault::InvalidParameter("FIR taps must not be empty"@),
                Ok(_) => {
                    &&& taps@.len() > 0
                    &&& final(self).taps@ == taps@
                    &&& final(self).delay_line@ == refitted(
                        old(self).delay_line@,
                        (taps@.len() - 1) as nat,
                        complex::origin::<A>(),
                    )
                },
            },
    {
        if taps.is_empty() {
            return Err(invalid("FIR taps must not be empty"));
        }
        let new_delay_len: usize = taps.len() - 1;
        self.delay_line = refit(&self.delay_line, new_delay_len, complex::zero::<A>());
        self.taps = taps;
        Ok(())
    }

    /// Clears the delay line.
    pub fn reset(&mut self)
        ensures
            final(self).taps@ == old(self).taps@,
            final(self).delay_line@ == repeated(
                complex::origin::<A>(),
                old(self).delay_line@.len(),
            ),
    {
        self.delay_line = filled(complex::zero::<A>(), self.delay_line.len());
    }

    /// Number of taps.
    pub fn tap_count(&self) -> (r: usize)
        ensures
            r == self.taps@.len(),
    {
        self.taps.len()
    }

    /// Filters `input` into `output` and returns the number of samples
    /// written.
    pub fn process(&mut self, input: &[Complex<A::R>], output: &mut [Complex<A::R>]) -> (r: Result<
        usize,
        DspError,
    >)
        requires
            old(self).wf(),
        ensures
            final(self).wf(),
            match r {
                Err(e) => {
                    &&& old(output)@.len() < input@.len()
                    &&& e == DspError::BufferTooSmall {
                        need: input@.len() as usize,
                        got: old(output)@.len() as usize,
                    }
                    &&& *final(self) == *old(self)
                    &&& final(output)@ == old(output)@
                },
                Ok(n) => {
                    &&& n == input@.len() <= old(output)@.len()
                    &&& final(output)@ == overwritten(
                        old(output)@,
                        filtered_complex::<A>(old(self).taps@, old(self).delay_line@, input@),
                    )
                    &&& final(self).taps@ == old(self).taps@
                    &&& final(self).delay_line@ == tail(
                        old(self).delay_line@ + input@,
                        old(self).delay_line@.len(),
                    )
                },
            },
    {
        if output.len() < input.len() {
            return Err(DspError::BufferTooSmall { need: input.len(), got: output.len() });
        }
        let ghost produced = filtered_complex::<A>(self.taps@, self.delay_line@, input@);
        let mut i: usize = 0;
        while i < input.len()
            invariant
                i <= input@.len() <= output@.len(),
                self.wf(),
                *self == *old(self),
                produced == filtered_complex::<A>(self.taps@, self.delay_line@, input@),
                output@ =~= overwritten(old(output)@, produced.take(i as int)),
                output@.len() == old(output)@.len(),
            decreases input.len() - i,
        {
            output[i] = convolve_complex_at::<A>(&self.taps, &self.delay_line, input, i);
            i = i + 1;
        }
        assert(produced.take(i as int) =~= produced);
        remember(&mut self.delay_line, input);
        Ok(input.len())
    }
}

/// FIR filter for real samples that keeps one output in `decimation`.
pub struct DecimatingFirFilter<A: Arithmetic> {
    /// Filter taps.
    pub taps: Vec<A::R>,
    /// The samples before the next input, the most recent one last.
    pub delay_line: Vec<A::R>,
    /// Input samples for each output.
    pub decimation: usize,
    /// Input samples to pass over before the next output.
    pub offset: usize,
}

impl<A: Arithmetic> DecimatingFirFilter<A> {
    /// There are taps, the delay line holds one sample less, and the next
    /// output is less than one decimation step away.
    pub open spec fn wf(self) -> bool {
        &&& self.taps@.len() == self.delay_line@.len() + 1
        &&& self.offset < self.decimation
    }

    /// Creates a filter whose delay line is zero and which keeps the first
    /// output.
    pub fn new(taps: Vec<A::R>, decimation: usize) -> (r: Result<Self, DspError>)
        ensures
            match r {
                Err(e) => {
                    ||| taps@.len() == 0
                        && e@ == Fault::InvalidParameter("FIR taps must not be empty"@)
                    ||| taps@.len() > 0 && decimation == 0
                        && e@ == Fault::InvalidParameter("decimation must be > 0"@)
                },
                Ok(f) => {
                    &&& taps@.len() > 0 && decimation > 0
                    &&& f.wf()
                    &&& f.taps@ == taps@
                    &&& f.decimation == decimation
                    &&& f.offset == 0
                    &&& f.delay_line@ == repeated(A::integer_value(0), (taps@.len() - 1) as nat)
                },
            },
    {
        if taps.is_empty() {
            return Err(invalid("FIR taps must not be empty"));
        }
        if decimation == 0 {
            return Err(invalid("decimation must be > 0"));
        }
        let delay_line: Vec<A::R> = filled(A::integer(0), taps.len() - 1);
        Ok(DecimatingFirFilter { taps, delay_line, decimation, offset: 0 })
    }

    /// Clears the delay line and keeps the next output.
    pub fn reset(&mut self)
        requires
            old(self).wf(),
        ensures
            final(self).wf(),
            final(self).taps@ == old(self).taps@,
            final(self).decimation == old(self).decimation,
            final(self).offset == 0,
            final(self).delay_line@ == repeated(
                A::integer_value(0),
                old(self).delay_line@.len(),
            ),
    {
        self.delay_line = filled(A::integer(0), self.delay_line.len());
        self.offset = 0;
    }

    /// Filters and decimates `input` into `output` and returns the number of
    /// samples written. `output` must have room for one sample per started
    /// decimation step of `input`.
    pub fn process_f32(&mut self, input: &[A::R], output: &mut [A::R]) -> (r: Result<
        usize,
        DspError,
    >)
        requires
            old(self).wf(),
        ensures
            final(self).wf(),
            match r {
                Err(e) => {
                    let need = quotient_up(input@.len() as int, old(self).decimation as int);
                    &&& old(output)@.len() < need
                    &&& e == DspError::BufferTooSmall {
                        need: need as usize,
                        got: old(output)@.len() as usize,
                    }
                    &&& *final(self) == *old(self)
                    &&& final(output)@ == old(output)@
                },
                Ok(n) => {
                    let made = decimated::<A>(
                        old(self).taps@,
                        old(self).delay_line@,
                        input@,
                        old(self).offset as int,
                        old(self).decimation as int,
                    );
                    &&& quotient_up(input@.len() as int, old(self).decimation as int) <= old(
                        output,
                    )@.len()
                    &&& n == made.len()
                    &&& final(output)@ == overwritten(old(output)@, made)
                    &&& final(self).taps@ == old(self).taps@
                    &&& final(self).decimation == old(self).decimation
                    &&& final(self).offset == grid_carry(
                        input@.len() as int,
                        old(self).offset as int,
                        old(self).decimation as int,
                    )
                    &&& final(self).delay_line@ == tail(
                        old(self).delay_line@ + input@,
                        old(self).delay_line@.len(),
                    )
                },
            },
    {
        let max_out: usize = div_up(input.len(), self.decimation);
        if output.len() < max_out {
            return Err(DspError::BufferTooSmall { need: max_out, got: output.len() });
        }
        let len: usize = input.len();
        let step: usize = self.decimation;
        let ghost start = self.offset as int;
        let ghost made = decimated::<A>(
            self.taps@,
            self.delay_line@,
            input@,
            start,
            step as int,
        );
        proof {
            grid_bounds(len as int, start, step as int);
            grid_count_at_most(len as int, start, step as int);
        }
        let mut out_count: usize = 0;
        let mut at: usize = self.offset;
        let mut carry: usize = if at < len { 0 } else { at - len };
        while at < len
            invariant
                len == input@.len(),
                step == self.decimation,
                start == self.offset,
                self.wf(),
                *self == *old(self),
                output@.len() == old(output)@.len() >= made.len(),
                made == decimated::<A>(
                    self.taps@,
                    self.delay_line@,
                    input@,
                    start,
                    step as int,
                ),
                made.len() == grid_count(len as int, start, step as int),
                0 <= out_count <= made.len(),
                at < len ==> at == start + out_count * step,
                at >= len ==> carry + len == start + out_count * step,
                out_count > 0 ==> start + (out_count - 1) * step < len,
                output@ =~= overwritten(old(output)@, made.take(out_count as int)),
            decreases len - at,
        {
            proof {
                if out_count == made.len() {
                    grid_bounds(len as int, start, step as int);
                }
                assert((out_count + 1) * step == out_count * step + step) by (nonlinear_arith);
                assert((out_count + 1 - 1) * step == out_count * step);
            }
            output[out_count] = convolve_at::<A>(&self.taps, &self.delay_line, input, at);
            assert(output@[out_count as int] == made[out_count as int]);
            out_count = out_count + 1;
            if step < len - at {
                at = at + step;
            } else {
                carry = step - (len - at);
                at = len;
            }
        }
        proof {
            if out_count == 0 {
                assert(out_count * step == 0) by (nonlinear_arith)
                    requires
                        out_count == 0,
                ;
            }
            grid_count_is(len as int, start, step as int, out_count as int);
            assert(made.take(out_count as int) =~= made);
        }
        self.offset = carry;
        remember(&mut self.delay_line, input);
        Ok(out_count)
    }
}

/// Time constant of the deemphasis used in the Americas and South Korea: 75
/// microseconds.
pub fn deemphasis_tau_us<D: Arithmetic>() -> (r: D::R)
    ensures
        r == D::fraction_value(75, 1_000_000),
{
    D::fraction(75, 1_000_000)
}

/// Time constant of the deemphasis used elsewhere: 50 microseconds.
pub fn deemphasis_tau_eu<D: Arithmetic>() -> (r: D::R)
    ensures
        r == D::fraction_value(50, 1_000_000),
{
    D::fraction(50, 1_000_000)
}

/// FM deemphasis: a one-pole low-pass filter.
pub struct DeemphasisFilter<A: Arithmetic> {
    /// Weight of the input.
    pub alpha: A::R,
    /// Weight of the last output.
    pub one_minus_alpha: A::R,
    /// The last output.
    pub last_out: A::R,
}

impl<A: Arithmetic> DeemphasisFilter<A> {
    /// The weight of the input for the time constant `tau`: `dt / (tau + dt)`
    /// with the sample period `dt`.
    pub open spec fn weight<D: Widening<A>>(tau: D::R, sample_rate: D::R) -> A::R {
        let dt = D::quotient(D::integer_value(1), sample_rate);
        D::narrowed(D::quotient(dt, D::sum(tau, dt)))
    }

    /// Whether the weights are those of the time constant `tau`: one for the
    /// input, and the rest for the output before.
    pub open spec fn weighted<D: Widening<A>>(self, tau: D::R, sample_rate: D::R) -> bool {
        &&& self.alpha == Self::weight::<D>(tau, sample_rate)
        &&& self.one_minus_alpha == A::difference(A::integer_value(1), self.alpha)
    }

    /// Creates a filter with the time constant `tau`, in seconds.
    pub fn new<D: Widening<A>>(tau: D::R, sample_rate: D::R) -> (r: Result<Self, DspError>)
        ensures
            match r {
                Err(e) => {
                    ||| !positive_finite::<D>(tau)
                        && e@ == got::<D>("tau must be positive and finite"@, tau)
                    ||| positive_finite::<D>(tau) && !positive_finite::<D>(sample_rate)
                        && e@ == got::<D>("sample_rate must be positive and finite"@, sample_rate)
                },
                Ok(f) => {
                    &&& positive_finite::<D>(tau) && positive_finite::<D>(sample_rate)
                    &&& f.weighted::<D>(tau, sample_rate)
                    &&& f.last_out == A::integer_value(0)
                },
            },
    {
        if !is_positive_finite::<D>(tau) {
            return Err(got_instead::<D>("tau must be positive and finite", tau));
        }
        if !is_positive_finite::<D>(sample_rate) {
            return Err(got_instead::<D>("sample_rate must be positive and finite", sample_rate));
        }
        let dt: D::R = D::over(D::integer(1), sample_rate);
        let alpha: A::R = D::narrow(D::over(dt, D::plus(tau, dt)));
        Ok(
            DeemphasisFilter {
                alpha,
                one_minus_alpha: A::minus(A::integer(1), alpha),
                last_out: A::integer(0),
            },
        )
    }

    /// Changes the time constant and keeps the last output.
    pub fn set_tau<D: Widening<A>>(&mut self, tau: D::R, sample_rate: D::R) -> (r: Result<
        (),
        DspError,
    >)
        ensures
            match r {
                Err(e) => {
                    &&& *final(self) == *old(self)
                    &&& {
                        ||| !positive_finite::<D>(tau)
                            && e@ == got::<D>("tau must be positive and finite"@, tau)
                        ||| positive_finite::<D>(tau) && !positive_finite::<D>(sample_rate)
                            && e@ == got::<D>(
                                "sample_rate must be positive and finite"@, sample_rate,
                            )
                    }
                },
                Ok(_) => {
                    &&& positive_finite::<D>(tau) && positive_finite::<D>(sample_rate)
                    &&& final(self).weighted::<D>(tau, sample_rate)
                    &&& final(self).last_out == old(self).last_out
                },
            },
    {
        if !is_positive_finite::<D>(tau) {
            return Err(got_instead::<D>("tau must be positive and finite", tau));
        }
        if !is_positive_finite::<D>(sample_rate) {
            return Err(got_instead::<D>("sample_rate must be positive and finite", sample_rate));
        }
        let dt: D::R = D::over(D::integer(1), sample_rate);
        self.alpha = D::narrow(D::over(dt, D::plus(tau, dt)));
        self.one_minus_alpha = A::minus(A::integer(1), self.alpha);
        Ok(())
    }

    /// Forgets the last output.
    pub fn reset(&mut self)
        ensures
            *final(self) == (DeemphasisFilter { last_out: A::integer_value(0), ..*old(self) }),
    {
        self.last_out = A::integer(0);
    }

    /// Filters `input` into `output` and returns the number of samples
    /// written.
    pub fn process(&mut self, input: &[A::R], output: &mut [A::R]) -> (r: Result<usize, DspError>)
        ensures
            ran(*old(self), *final(self), input@, old(output)@, final(output)@, r),
    {
        drive(self, input, output)
    }
}

impl<A: Arithmetic> Block<A::R, A::R> for DeemphasisFilter<A> {
    /// One sample: `y = alpha x + (1 - alpha) y'`, with the last output `y'`.
    open spec fn step(self, x: A::R) -> (Self, A::R) {
        let y = A::sum(A::product(self.alpha, x), A::product(self.one_minus_alpha, self.last_out));
        (DeemphasisFilter { last_out: y, ..self }, y)
    }

    fn tick(&mut self, x: A::R) -> (y: A::R) {
        let y: A::R = A::plus(
            A::times(self.alpha, x),
            A::times(self.one_minus_alpha, self.last_out),
        );
        self.last_out = y;
        y
    }
}

/// Frequency of a new notch filter, in hertz.
pub const DEFAULT_NOTCH_FREQ_HZ: i64 = 60;

/// Quality factor of a notch filter.
pub const DEFAULT_NOTCH_Q: i64 = 30;

/// Second-order notch filter that can be switched off.
pub struct NotchFilter<A: Arithmetic> {
    /// Weight of the input.
    pub b0: A::R,
    /// Weight of the input one sample ago.
    pub b1: A::R,
    /// Weight of the input two samples ago.
    pub b2: A::R,
    /// Weight of the output one sample ago, subtracted.
    pub a1: A::R,
    /// Weight of the output two samples ago, subtracted.
    pub a2: A::R,
    /// Input one sample ago.
    pub x1: A::R,
    /// Input two samples ago.
    pub x2: A::R,
    /// Output one sample ago.
    pub y1: A::R,
    /// Output two samples ago.
    pub y2: A::R,
    /// Whether the filter is on.
    pub enabled: bool,
    /// Frequency that is taken out, in hertz.
    pub frequency: A::R,
    /// Sample rate, in hertz.
    pub sample_rate: A::R,
    /// Quality factor.
    pub q: A::R,
}

impl<A: Arithmetic> NotchFilter<A> {
    /// The filter with the weights that its frequency, sample rate and quality
    /// factor call for.
    pub open spec fn tuned(self) -> Self {
        let w0 = A::quotient(
            A::product(A::product(A::integer_value(2), A::half_turn()), self.frequency),
            self.sample_rate,
        );
        let alpha = A::quotient(A::sine(w0), A::product(A::integer_value(2), self.q));
        let a0 = A::sum(A::integer_value(1), alpha);
        let edge = A::quotient(A::integer_value(1), a0);
        let centre = A::quotient(A::product(A::integer_value((-2) as i64), A::cosine(w0)), a0);
        NotchFilter {
            b0: edge,
            b1: centre,
            b2: edge,
            a1: centre,
            a2: A::quotient(A::difference(A::integer_value(1), alpha), a0),
            ..self
        }
    }

    /// The filter with no memory of earlier samples.
    pub open spec fn cleared(self) -> Self {
        let zero = A::integer_value(0);
        NotchFilter { x1: zero, x2: zero, y1: zero, y2: zero, ..self }
    }

    /// Creates a filter that is off and tuned to the default frequency.
    pub fn new(sample_rate: A::R) -> (f: Self)
        ensures
            !f.enabled,
            f.frequency == A::integer_value(DEFAULT_NOTCH_FREQ_HZ),
            f.sample_rate == sample_rate,
            f.q == A::integer_value(DEFAULT_NOTCH_Q),
            f == f.cleared(),
            f == f.tuned(),
    {
        let zero: A::R = A::integer(0);
        let mut filter = NotchFilter {
            b0: A::integer(1),
            b1: zero,
            b2: zero,
            a1: zero,
            a2: zero,
            x1: zero,
            x2: zero,
            y1: zero,
            y2: zero,
            enabled: false,
            frequency: A::integer(DEFAULT_NOTCH_FREQ_HZ),
            sample_rate,
            q: A::integer(DEFAULT_NOTCH_Q),
        };
        filter.recalculate_coefficients();
        filter
    }

    /// Tunes the filter to `freq`, in hertz, and clears its memory.
    pub fn set_frequency(&mut self, freq: A::R)
        ensures
            *final(self) == (NotchFilter { frequency: freq, ..*old(self) }).tuned().cleared(),
    {
        self.frequency = freq;
        self.recalculate_coefficients();
        self.reset();
    }

    /// Switches the filter on or off. Its memory is cleared as it goes on.
    pub fn set_enabled(&mut self, enabled: bool)
        ensures
            *final(self) == (if enabled && !old(self).enabled {
                NotchFilter { enabled, ..old(self).cleared() }
            } else {
                NotchFilter { enabled, ..*old(self) }
            }),
    {
        if enabled && !self.enabled {
            self.reset();
        }
        self.enabled = enabled;
    }

    /// Whether the filter is on.
    pub fn enabled(&self) -> (r: bool)
        ensures
            r == self.enabled,
    {
        self.enabled
    }

    /// Frequency that is taken out, in hertz.
    pub fn frequency(&self) -> (r: A::R)
        ensures
            r == self.frequency,
    {
        self.frequency
    }

    /// Clears the memory.
    pub fn reset(&mut self)
        ensures
            *final(self) == old(self).cleared(),
    {
        self.x1 = A::integer(0);
        self.x2 = A::integer(0);
        self.y1 = A::integer(0);
        self.y2 = A::integer(0);
    }

    /// Filters `input` into `output` and returns the number of samples
    /// written.
    pub fn process(&mut self, input: &[A::R], output: &mut [A::R]) -> (r: Result<usize, DspError>)
        ensures
            ran(*old(self), *final(self), input@, old(output)@, final(output)@, r),
    {
        drive(self, input, output)
    }

    /// Computes the weights from the frequency, the sample rate and the
    /// quality factor.
    pub fn recalculate_coefficients(&mut self)
        ensures
            *final(self) == old(self).tuned(),
    {
        let w0: A::R = A::over(
            A::times(A::times(A::integer(2), A::pi()), self.frequency),
            self.sample_rate,
        );
        let sin_w0: A::R = A::sin(w0);
        let cos_w0: A::R = A::cos(w0);
        let alpha: A::R = A::over(sin_w0, A::times(A::integer(2), self.q));
        let a0: A::R = A::plus(A::integer(1), alpha);
        self.b0 = A::over(A::integer(1), a0);
        self.b1 = A::over(A::times(A::integer(-2), cos_w0), a0);
        self.b2 = A::over(A::integer(1), a0);
        self.a1 = A::over(A::times(A::integer(-2), cos_w0), a0);
        self.a2 = A::over(A::minus(A::integer(1), alpha), a0);
    }
}

impl<A: Arithmetic> Block<A::R, A::R> for NotchFilter<A> {
    /// One sample. While the filter is off the sample passes and the memory
    /// stays; otherwise `y = b0 x + b1 x1 + b2 x2 - a1 y1 - a2 y2`.
    open spec fn step(self, x: A::R) -> (Self, A::R) {
        if !self.enabled {
            (self, x)
        } else {
            let fed = A::sum(
                A::sum(A::product(self.b0, x), A::product(self.b1, self.x1)),
                A::product(self.b2, self.x2),
            );
            let y = A::difference(
                A::difference(fed, A::product(self.a1, self.y1)),
                A::product(self.a2, self.y2),
            );
            (NotchFilter { x2: self.x1, x1: x, y2: self.y1, y1: y, ..self }, y)
        }
    }

    fn tick(&mut self, x: A::R) -> (y: A::R) {
        if !self.enabled {
            return x;
        }
        let fed: A::R = A::plus(
            A::plus(A::times(self.b0, x), A::times(self.b1, self.x1)),
            A::times(self.b2, self.x2),
        );
        let y: A::R = A::minus(
            A::minus(fed, A::times(self.a1, self.y1)),
            A::times(self.a2, self.y2),
        );
        self.x2 = self.x1;
        self.x1 = x;
        self.y2 = self.y1;
        self.y1 = y;
        y
    }
}

/// A filter that is off passes every sample and keeps its state.
pub proof fn notch_off_passes<A: Arithmetic>(f: NotchFilter<A>, xs: Seq<A::R>)
    requires
        !f.enabled,
    ensures
        run(f, xs) == (f, xs),
    decreases xs.len(),
{
    if xs.len() > 0 {
        notch_off_passes(f, xs.drop_last());
        assert(xs.drop_last().push(xs.last()) =~= xs);
    } else {
        assert(xs =~= Seq::empty());
    }
}

/// What a FIR filter makes of a stream does not depend on how the stream is
/// cut into calls.
pub proof fn fir_append<A: Arithmetic>(
    taps: Seq<A::R>,
    history: Seq<A::R>,
    xs: Seq<A::R>,
    ys: Seq<A::R>,
)
    requires
        taps.len() <= history.len() + 1,
    ensures
        filtered::<A>(taps, history, xs + ys) == filtered::<A>(taps, history, xs) + filtered::<A>(
            taps,
            tail(history + xs, history.len()),
            ys,
        ),
{
    let whole = history + (xs + ys);
    let kept = tail(history + xs, history.len());
    let n = history.len() as int;
    assert forall|i: int| 0 <= i < xs.len() implies #[trigger] convolved::<A>(taps, whole, n + i)
        == convolved::<A>(taps, history + xs, n + i) by {
        convolved_terms_local::<A>(taps, whole, n + i, history + xs, n + i, taps.len());
    }
    assert forall|i: int| 0 <= i < ys.len() implies #[trigger] convolved::<A>(taps, kept + ys, n + i)
        == convolved::<A>(taps, whole, n + xs.len() + i) by {
        convolved_terms_local::<A>(
            taps,
            whole,
            n + xs.len() + i,
            kept + ys,
            n + i,
            taps.len(),
        );
    }
    assert(filtered::<A>(taps, history, xs + ys) =~= filtered::<A>(taps, history, xs) + filtered::<
        A,
    >(taps, kept, ys));
}

/// [`fir_append`] on a complex stream.
pub proof fn complex_fir_append<A: Arithmetic>(
    taps: Seq<A::R>,
    history: Seq<Complex<A::R>>,
    xs: Seq<Complex<A::R>>,
    ys: Seq<Complex<A::R>>,
)
    requires
        taps.len() <= history.len() + 1,
    ensures
        filtered_complex::<A>(taps, history, xs + ys) == filtered_complex::<A>(taps, history, xs)
            + filtered_complex::<A>(taps, tail(history + xs, history.len()), ys),
{
    let whole = history + (xs + ys);
    let kept = tail(history + xs, history.len());
    let n = history.len() as int;
    assert forall|i: int| 0 <= i < xs.len() implies #[trigger] convolved_complex::<A>(
        taps,
        whole,
        n + i,
    ) == convolved_complex::<A>(taps, history + xs, n + i) by {
        convolved_complex_local::<A>(taps, whole, n + i, history + xs, n + i);
    }
    assert forall|i: int| 0 <= i < ys.len() implies #[trigger] convolved_complex::<A>(
        taps,
        kept + ys,
        n + i,
    ) == convolved_complex::<A>(taps, whole, n + xs.len() + i) by {
        convolved_complex_local::<A>(taps, whole, n + xs.len() + i, kept + ys, n + i);
    }
    assert(filtered_complex::<A>(taps, history, xs + ys) =~= filtered_complex::<A>(
        taps,
        history,
        xs,
    ) + filtered_complex::<A>(taps, kept, ys));
}

/// What a decimating filter makes of a stream does not depend on how the
/// stream is cut into calls.
pub proof fn decimated_append<A: Arithmetic>(
    taps: Seq<A::R>,
    history: Seq<A::R>,
    xs: Seq<A::R>,
    ys: Seq<A::R>,
    offset: int,
    step: int,
)
    requires
        taps.len() <= history.len() + 1,
        0 <= offset,
        0 < step,
    ensures
        decimated::<A>(taps, history, xs + ys, offset, step) == decimated::<A>(
            taps,
            history,
            xs,
            offset,
            step,
        ) + decimated::<A>(
            taps,
            tail(history + xs, history.len()),
            ys,
            grid_carry(xs.len() as int, offset, step),
            step,
        ),
{
    let whole = history + (xs + ys);
    let kept = tail(history + xs, history.len());
    let n = history.len() as int;
    let carry = grid_carry(xs.len() as int, offset, step);
    let first = decimated::<A>(taps, history, xs, offset, step);
    let second = decimated::<A>(taps, kept, ys, carry, step);
    let all = decimated::<A>(taps, history, xs + ys, offset, step);
    grid_append(xs.len() as int, ys.len() as int, offset, step);
    grid_bounds(xs.len() as int, offset, step);
    grid_bounds(ys.len() as int, carry, step);
    assert forall|i: int| 0 <= i < first.len() implies all[i] == #[trigger] first[i] by {
        grid_point_below(xs.len() as int, offset, step, i);
        let at = n + offset + i * step;
        convolved_terms_local::<A>(taps, whole, at, history + xs, at, taps.len());
    }
    assert forall|i: int| 0 <= i < second.len() implies all[first.len() + i]
        == #[trigger] second[i] by {
        grid_point_below(ys.len() as int, carry, step, i);
        let to = n + carry + i * step;
        assert((first.len() + i) * step == first.len() * step + i * step) by (nonlinear_arith);
        convolved_terms_local::<A>(taps, whole, xs.len() + to, kept + ys, to, taps.len());
    }
    assert(all =~= first + second);
}

/// A filter that has heard nothing but the constant `c` makes of it `c` times
/// the sum of its taps.
pub proof fn fir_gain_at_zero<A: Arithmetic>(taps: Seq<A::R>, c: A::R, len: nat, i: int)
    requires
        exact_laws::<A>(),
        all_finite::<A>(taps),
        A::finite(c),
        0 < taps.len(),
        0 <= i < len,
    ensures
        filtered::<A>(taps, repeated(c, (taps.len() - 1) as nat), repeated(c, len))[i]
            == A::product(c, sum_of::<A>(taps, taps.len())),
{
    let history = repeated(c, (taps.len() - 1) as nat);
    let input = repeated(c, len);
    let at = history.len() + i;
    assert forall|j: int| 0 <= j < taps.len() implies #[trigger] (history + input)[at - j]
        == c by {}
    convolved_constant::<A>(taps, history + input, at, c, taps.len());
}

/// What a filter makes of a single one is its taps.
pub proof fn impulse_gives_the_taps<A: Arithmetic>(taps: Seq<A::R>, len: nat, i: int)
    requires
        exact_laws::<A>(),
        all_finite::<A>(taps),
        0 < taps.len(),
        0 <= i < len,
    ensures
        filtered::<A>(
            taps,
            repeated(A::integer_value(0), (taps.len() - 1) as nat),
            Seq::new(len, |k: int| A::integer_value(if k == 0 { 1 } else { 0 })),
        )[i] == (if i < taps.len() {
            taps[i]
        } else {
            A::integer_value(0)
        }),
{
    let history = repeated(A::integer_value(0), (taps.len() - 1) as nat);
    let input = Seq::new(len, |k: int| A::integer_value(if k == 0 { 1 } else { 0 }));
    let s = history + input;
    let at = history.len() + i;
    impulse_terms::<A>(taps, s, at, history.len() as int, taps.len());
}

proof fn impulse_terms<A: Arithmetic>(taps: Seq<A::R>, s: Seq<A::R>, at: int, one_at: int, n: nat)
    requires
        exact_laws::<A>(),
        all_finite::<A>(taps),
        n <= taps.len(),
        taps.len() - 1 <= at < s.len(),
        0 <= one_at <= at,
        forall|k: int|
            0 <= k < s.len() ==> #[trigger] s[k] == A::integer_value(
                if k == one_at {
                    1
                } else {
                    0
                },
            ),
    ensures
        convolved_terms::<A>(taps, s, at, n) == (if at - one_at < n {
            taps[at - one_at]
        } else {
            A::integer_value(0)
        }),
    decreases n,
{
    whole_numbers::<A>(0);
    whole_numbers::<A>(1);
    if n > 0 {
        impulse_terms::<A>(taps, s, at, one_at, (n - 1) as nat);
        let tap = taps[n - 1];
        assert(A::finite(tap));
        zero_factor::<A>(tap);
        sum_with_zero::<A>(tap);
        sum_with_zero::<A>(A::integer_value(0));
        assert(s[at - (n - 1)] == A::integer_value(
            if at - (n - 1) == one_at {
                1
            } else {
                0
            },
        ));
        if at - one_at < n - 1 {
            sum_with_zero::<A>(taps[at - one_at]);
        }
    }
}

/// What a filter makes of the sum of two streams is the sum of what it makes of
/// each.
pub proof fn filtered_sums<A: Arithmetic>(
    taps: Seq<A::R>,
    xs: Seq<A::R>,
    ys: Seq<A::R>,
    at: int,
    n: nat,
)
    requires
        exact_laws::<A>(),
        all_finite::<A>(taps),
        all_finite::<A>(xs),
        all_finite::<A>(ys),
        xs.len() == ys.len(),
        n <= taps.len(),
        n - 1 <= at < xs.len(),
    ensures
        convolved_terms::<A>(taps, Seq::new(xs.len(), |k: int| A::sum(xs[k], ys[k])), at, n)
            == A::sum(
            convolved_terms::<A>(taps, xs, at, n),
            convolved_terms::<A>(taps, ys, at, n),
        ),
        A::finite(convolved_terms::<A>(taps, xs, at, n)),
        A::finite(convolved_terms::<A>(taps, ys, at, n)),
    decreases n,
{
    whole_numbers::<A>(0);
    if n == 0 {
        sum_with_zero::<A>(A::integer_value(0));
    } else {
        let m = (n - 1) as nat;
        filtered_sums::<A>(taps, xs, ys, at, m);
        let x = xs[at - m];
        let y = ys[at - m];
        let tap = taps[n - 1];
        assert(A::finite(x) && A::finite(y) && A::finite(tap));
        stays_finite::<A>(x, tap);
        stays_finite::<A>(y, tap);
        factor_of_sum::<A>(x, y, tap);
        let a = convolved_terms::<A>(taps, xs, at, m);
        let b = convolved_terms::<A>(taps, ys, at, m);
        stays_finite::<A>(a, A::product(x, tap));
        stays_finite::<A>(b, A::product(y, tap));
        sums_in_pairs::<A>(a, b, A::product(x, tap), A::product(y, tap));
    }
}

/// A filter for complex samples filters each part by itself.
pub proof fn parts_are_filtered_alike<A: Arithmetic>(
    taps: Seq<A::R>,
    history: Seq<Complex<A::R>>,
    input: Seq<Complex<A::R>>,
)
    ensures
        reals(filtered_complex::<A>(taps, history, input)) == filtered::<A>(
            taps,
            reals(history),
            reals(input),
        ),
        imags(filtered_complex::<A>(taps, history, input)) == filtered::<A>(
            taps,
            imags(history),
            imags(input),
        ),
{
    assert(reals(history + input) =~= reals(history) + reals(input));
    assert(imags(history + input) =~= imags(history) + imags(input));
    assert(reals(filtered_complex::<A>(taps, history, input)) =~= filtered::<A>(
        taps,
        reals(history),
        reals(input),
    ));
    assert(imags(filtered_complex::<A>(taps, history, input)) =~= filtered::<A>(
        taps,
        imags(history),
        imags(input),
    ));
}

/// A filter that decimates gives every `step`th sample of what the filter gives
/// that does not.
pub proof fn decimated_is_every_step<A: Arithmetic>(
    taps: Seq<A::R>,
    history: Seq<A::R>,
    input: Seq<A::R>,
    offset: int,
    step: int,
    i: int,
)
    requires
        step > 0,
        offset >= 0,
        0 <= i < decimated::<A>(taps, history, input, offset, step).len(),
    ensures
        0 <= offset + i * step < input.len(),
        decimated::<A>(taps, history, input, offset, step)[i] == filtered::<A>(
            taps,
            history,
            input,
        )[offset + i * step],
{
    grid_point_below(input.len() as int, offset, step, i);
}

/// The de-emphasis keeps the level of a constant.
pub proof fn deemphasis_keeps_level<A: Arithmetic, D: Widening<A>>(
    f: DeemphasisFilter<A>,
    tau: D::R,
    sample_rate: D::R,
)
    requires
        exact_laws::<A>(),
        f.weighted::<D>(tau, sample_rate),
        A::finite(f.alpha),
        A::finite(f.last_out),
    ensures
        f.step(f.last_out) == (f, f.last_out),
{
    weights_keep::<A>(f.last_out, f.alpha);
}

/// Without a signal the output of the de-emphasis falls to the share
/// `tau / (tau + dt)` of what it was with each sample, where `dt` is the time
/// between two samples.
pub proof fn deemphasis_falls_with_tau<A: Arithmetic, D: Widening<A>>(
    f: DeemphasisFilter<A>,
    tau: D::R,
    sample_rate: D::R,
)
    requires
        exact_laws::<A>(),
        exact_laws::<D>(),
        widening_laws::<A, D>(),
        D::widened(A::integer_value(1)) == D::integer_value(1),
        forall|a: A::R, b: A::R|
            A::finite(a) && A::finite(b) ==> D::widened(#[trigger] A::difference(a, b))
                == D::difference(D::widened(a), D::widened(b)),
        forall|a: A::R, b: A::R|
            A::finite(a) && A::finite(b) ==> D::widened(#[trigger] A::product(a, b)) == D::product(
                D::widened(a),
                D::widened(b),
            ),
        f.weighted::<D>(tau, sample_rate),
        A::finite(f.last_out),
        D::finite(tau),
        D::finite(sample_rate),
        sample_rate != D::integer_value(0),
        D::sum(tau, D::quotient(D::integer_value(1), sample_rate)) != D::integer_value(0),
    ensures
        D::product(
            D::widened(f.step(A::integer_value(0)).1),
            D::sum(tau, D::quotient(D::integer_value(1), sample_rate)),
        ) == D::product(D::widened(f.last_out), tau),
{
    let one = D::integer_value(1);
    let dt = D::quotient(one, sample_rate);
    let whole = D::sum(tau, dt);
    whole_numbers::<D>(1);
    whole_numbers::<A>(1);
    whole_numbers::<A>(0);
    stays_finite::<D>(one, sample_rate);
    stays_finite::<D>(tau, dt);
    stays_finite::<D>(dt, whole);
    let share = D::quotient(dt, whole);
    let a = f.alpha;
    assert(A::finite(a));
    assert(D::widened(a) == share);
    stays_finite::<A>(A::integer_value(1), a);
    let rest = f.one_minus_alpha;
    assert(D::widened(rest) == D::difference(one, share));
    zero_factor::<A>(a);
    stays_finite::<A>(rest, f.last_out);
    sum_with_zero::<A>(A::product(rest, f.last_out));
    let last = D::widened(f.last_out);
    let left = D::difference(one, share);
    stays_finite::<D>(one, share);
    assert(D::widened(f.step(A::integer_value(0)).1) == D::product(left, last));
    factor_of_difference::<D>(one, share, whole);
    sum_with_zero::<D>(whole);
    products_undo::<D>(dt, whole);
    sums_undo::<D>(tau, dt);
    assert(D::product(left, whole) == tau);
    factors_in_any_order::<D>(left, last, whole);
    factors_in_any_order::<D>(left, whole, last);
    factors_in_any_order::<D>(tau, last, last);
}

/// The notch filter, set to its frequency, lets nothing of a tone of that
/// frequency through: the samples of such a tone, with the angle `w` from one to
/// the next, are `2 cos(w)` times the one before, less the one before that.
pub proof fn notch_removes_its_frequency<A: Arithmetic>(f: NotchFilter<A>, x: A::R)
    requires
        exact_laws::<A>(),
        f == f.tuned(),
        f.enabled,
        f.y1 == A::integer_value(0),
        f.y2 == A::integer_value(0),
        A::finite(f.x1),
        A::finite(f.x2),
        A::finite(x),
        A::finite(f.a1),
        A::finite(f.a2),
        ({
            let w = A::quotient(
                A::product(A::product(A::integer_value(2), A::half_turn()), f.frequency),
                f.sample_rate,
            );
            let a0 = A::sum(
                A::integer_value(1),
                A::quotient(A::sine(w), A::product(A::integer_value(2), f.q)),
            );
            &&& A::finite(A::cosine(w))
            &&& A::finite(a0)
            &&& a0 != A::integer_value(0)
            &&& A::sum(
                A::sum(x, A::product(A::product(A::integer_value((-2) as i64), A::cosine(w)), f.x1)),
                f.x2,
            ) == A::integer_value(0)
        }),
    ensures
        f.step(x).1 == A::integer_value(0),
{
    let zero = A::integer_value(0);
    let one = A::integer_value(1);
    let down = A::integer_value((-2) as i64);
    let w = A::quotient(
        A::product(A::product(A::integer_value(2), A::half_turn()), f.frequency),
        f.sample_rate,
    );
    let a0 = A::sum(one, A::quotient(A::sine(w), A::product(A::integer_value(2), f.q)));
    whole_numbers::<A>(0);
    whole_numbers::<A>(1);
    whole_numbers::<A>((-2) as i64);
    let edge = A::quotient(one, a0);
    let middle = A::product(down, A::cosine(w));
    let centre = A::quotient(middle, a0);
    stays_finite::<A>(one, a0);
    stays_finite::<A>(down, A::cosine(w));
    stays_finite::<A>(middle, a0);
    assert(f.b0 == edge && f.b1 == centre && f.b2 == edge);
    let p = A::product(edge, x);
    let q = A::product(centre, f.x1);
    let r = A::product(edge, f.x2);
    stays_finite::<A>(edge, x);
    stays_finite::<A>(centre, f.x1);
    stays_finite::<A>(edge, f.x2);
    let fed = A::sum(A::sum(p, q), r);
    stays_finite::<A>(p, q);
    stays_finite::<A>(A::sum(p, q), r);
    share_of_whole::<A>(x, a0);
    share_of_whole::<A>(f.x2, a0);
    products_undo::<A>(middle, a0);
    factors_in_any_order::<A>(centre, f.x1, a0);
    let mx = A::product(middle, f.x1);
    stays_finite::<A>(middle, f.x1);
    factors_in_any_order::<A>(centre, a0, f.x1);
    assert(A::product(q, a0) == mx);
    factor_of_sum::<A>(p, q, a0);
    factor_of_sum::<A>(A::sum(p, q), r, a0);
    assert(A::product(fed, a0) == zero);
    products_undo::<A>(fed, a0);
    zero_factor::<A>(a0);
    products_undo::<A>(zero, a0);
    assert(fed == zero);
    zero_factor::<A>(f.a1);
    zero_factor::<A>(f.a2);
    sum_with_zero::<A>(zero);
}

/// One over a number, times another number and that number.
proof fn share_of_whole<A: Arithmetic>(x: A::R, a0: A::R)
    requires
        exact_laws::<A>(),
        A::finite(x),
        A::finite(a0),
        a0 != A::integer_value(0),
    ensures
        A::product(A::product(A::quotient(A::integer_value(1), a0), x), a0) == x,
{
    let one = A::integer_value(1);
    whole_numbers::<A>(1);
    stays_finite::<A>(one, a0);
    let edge = A::quotient(one, a0);
    products_undo::<A>(one, a0);
    factors_in_any_order::<A>(edge, x, a0);
    sum_with_zero::<A>(x);
}

/// The notch filter keeps the level of a constant.
pub proof fn notch_keeps_level<A: Arithmetic>(f: NotchFilter<A>, x: A::R)
    requires
        exact_laws::<A>(),
        f == f.tuned(),
        f.enabled,
        f.x1 == x,
        f.x2 == x,
        f.y1 == x,
        f.y2 == x,
        A::finite(x),
        ({
            let w = A::quotient(
                A::product(A::product(A::integer_value(2), A::half_turn()), f.frequency),
                f.sample_rate,
            );
            let alpha = A::quotient(A::sine(w), A::product(A::integer_value(2), f.q));
            &&& A::finite(A::cosine(w))
            &&& A::finite(alpha)
            &&& A::sum(A::integer_value(1), alpha) != A::integer_value(0)
        }),
    ensures
        f.step(x) == (f, x),
{
    let one = A::integer_value(1);
    let down = A::integer_value((-2) as i64);
    let w = A::quotient(
        A::product(A::product(A::integer_value(2), A::half_turn()), f.frequency),
        f.sample_rate,
    );
    let alpha = A::quotient(A::sine(w), A::product(A::integer_value(2), f.q));
    let a0 = A::sum(one, alpha);
    whole_numbers::<A>(1);
    whole_numbers::<A>((-2) as i64);
    stays_finite::<A>(one, alpha);
    let edge = A::quotient(one, a0);
    let middle = A::product(down, A::cosine(w));
    let centre = A::quotient(middle, a0);
    let rest = A::difference(one, alpha);
    let last = A::quotient(rest, a0);
    stays_finite::<A>(one, a0);
    stays_finite::<A>(down, A::cosine(w));
    stays_finite::<A>(middle, a0);
    stays_finite::<A>(rest, a0);
    let p = A::product(edge, x);
    let q = A::product(centre, x);
    let t = A::product(last, x);
    stays_finite::<A>(edge, x);
    stays_finite::<A>(centre, x);
    stays_finite::<A>(last, x);
    let fed = A::sum(A::sum(p, q), p);
    stays_finite::<A>(p, q);
    stays_finite::<A>(p, p);
    swap_addends::<A>(p, q, p);
    let pp = A::sum(p, p);
    sums_undo::<A>(pp, q);
    assert(A::difference(fed, q) == pp);
    share_of_whole::<A>(x, a0);
    products_undo::<A>(rest, a0);
    factors_in_any_order::<A>(last, x, a0);
    factors_in_any_order::<A>(last, a0, x);
    let rx = A::product(rest, x);
    stays_finite::<A>(rest, x);
    assert(A::product(t, a0) == rx);
    factor_of_sum::<A>(p, p, a0);
    assert(A::product(pp, a0) == A::sum(x, x));
    let y = A::difference(pp, t);
    stays_finite::<A>(pp, t);
    factor_of_difference::<A>(pp, t, a0);
    stays_finite::<A>(x, x);
    factor_of_difference::<A>(one, alpha, x);
    factor_of_sum::<A>(one, alpha, x);
    sum_with_zero::<A>(x);
    let ax = A::product(alpha, x);
    stays_finite::<A>(alpha, x);
    stays_finite::<A>(x, ax);
    assert(rx == A::difference(x, ax));
    assert(A::product(a0, x) == A::sum(x, ax));
    twice_less_a_part::<A>(x, ax);
    assert(A::product(y, a0) == A::sum(x, ax));
    factors_in_any_order::<A>(a0, x, x);
    products_undo::<A>(y, a0);
    products_undo::<A>(x, a0);
    assert(y == x);
}

/// `2 x - (x - a) == x + a`.
proof fn twice_less_a_part<A: Arithmetic>(x: A::R, a: A::R)
    requires
        exact_laws::<A>(),
        A::finite(x),
        A::finite(a),
    ensures
        A::difference(A::sum(x, x), A::difference(x, a)) == A::sum(x, a),
{
    let d = A::difference(x, a);
    let s = A::sum(x, a);
    stays_finite::<A>(x, a);
    sums_undo::<A>(x, a);
    addends_in_any_order::<A>(x, a, d);
    addends_in_any_order::<A>(a, d, d);
    assert(A::sum(s, d) == A::sum(x, x));
    sums_undo::<A>(s, d);
}

/// The notch is the narrower the greater `q` is: the square of the radius of its
/// poles is `(1 - a) / (1 + a)`, where `a` is the sine of the angle of its
/// frequency over twice `q`, and the poles lie at that angle.
pub proof fn notch_is_as_narrow_as_q<A: Arithmetic>(f: NotchFilter<A>)
    requires
        exact_laws::<A>(),
        f == f.tuned(),
        ({
            let w = A::quotient(
                A::product(A::product(A::integer_value(2), A::half_turn()), f.frequency),
                f.sample_rate,
            );
            let a = A::quotient(A::sine(w), A::product(A::integer_value(2), f.q));
            &&& A::finite(A::cosine(w))
            &&& A::finite(A::sine(w))
            &&& A::finite(A::product(A::integer_value(2), f.q))
            &&& A::product(A::integer_value(2), f.q) != A::integer_value(0)
            &&& A::finite(a)
            &&& A::sum(A::integer_value(1), a) != A::integer_value(0)
        }),
    ensures
        ({
            let w = A::quotient(
                A::product(A::product(A::integer_value(2), A::half_turn()), f.frequency),
                f.sample_rate,
            );
            let a = A::quotient(A::sine(w), A::product(A::integer_value(2), f.q));
            &&& A::product(a, A::product(A::integer_value(2), f.q)) == A::sine(w)
            &&& A::product(f.a2, A::sum(A::integer_value(1), a)) == A::difference(
                A::integer_value(1),
                a,
            )
            &&& A::product(f.a1, A::sum(A::integer_value(1), a)) == A::product(
                A::integer_value((-2) as i64),
                A::cosine(w),
            )
        }),
{
    let one = A::integer_value(1);
    let down = A::integer_value((-2) as i64);
    let w = A::quotient(
        A::product(A::product(A::integer_value(2), A::half_turn()), f.frequency),
        f.sample_rate,
    );
    let a = A::quotient(A::sine(w), A::product(A::integer_value(2), f.q));
    whole_numbers::<A>(1);
    whole_numbers::<A>((-2) as i64);
    products_undo::<A>(A::sine(w), A::product(A::integer_value(2), f.q));
    stays_finite::<A>(one, a);
    stays_finite::<A>(down, A::cosine(w));
    products_undo::<A>(A::difference(one, a), A::sum(one, a));
    products_undo::<A>(A::product(down, A::cosine(w)), A::sum(one, a));
}

} // verus!
