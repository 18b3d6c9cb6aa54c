//! Envelope of the subcarrier, and resampling of real samples.

use crate::apt::SUBCARRIER_HZ;
use crate::arith::{Arithmetic, Widening, got, got_instead, is_positive_finite, positive_finite};
use crate::block::{drive, ran, Block};
use crate::complex::{self, lifted, reals};
use crate::decim_taps::DecimTables;
use crate::exact::{
    addends_in_any_order, exact_laws, factor_of_difference, factor_of_sum, factors_in_any_order,
    products_undo, stays_finite, sum_with_zero, sums_undo, swap_addends, whole_numbers,
};
use crate::filter::{filtered, FirFilter};
use crate::multirate::{cascade_next, RationalResampler, RationalView};
use crate::stream::{overwritten, repeated, tail};
use crate::taps::{low_pass, low_pass_design};
use crate::types::{Complex, DspError, Fault, decimal, decimal_text};
use vstd::prelude::*;
use vstd::string::StringExecFns;

verus! {

/// Edge of the pass band behind the rectifier, in hertz.
pub const ENVELOPE_LPF_CUTOFF_HZ: i64 = 2_300;

/// Width of the transition band behind the rectifier, in hertz.
pub const ENVELOPE_LPF_TRANSITION_HZ: i64 = 1_000;

/// `xs` without their signs.
pub open spec fn rectified<A: Arithmetic>(xs: Seq<A::R>) -> Seq<A::R> {
    Seq::new(xs.len(), |i: int| A::magnitude(xs[i]))
}

/// Envelope detector: a rectifier and a low-pass filter.
pub struct EnvelopeDetector<A: Arithmetic> {
    /// Filter behind the rectifier.
    pub lpf: FirFilter<A>,
    /// Room for the rectified input, kept from call to call.
    pub scratch: Vec<A::R>,
}

impl<A: Arithmetic> EnvelopeDetector<A> {
    /// The filter is well formed.
    pub open spec fn wf(self) -> bool {
        self.lpf.wf()
    }

    /// The design of the filter at `sample_rate_hz`.
    pub open spec fn design<D: Widening<A>>(sample_rate_hz: u32) -> Result<
        Seq<A::R>,
        Fault,
    > {
        low_pass_design::<A, D>(
            D::integer_value(ENVELOPE_LPF_CUTOFF_HZ),
            D::integer_value(ENVELOPE_LPF_TRANSITION_HZ),
            D::integer_value(sample_rate_hz as i64),
            true,
        )
    }

    /// Creates a detector for audio at `sample_rate_hz`. Rectified, the
    /// subcarrier turns up at twice its frequency, so the rate must be above
    /// four times that of the subcarrier.
    pub fn new<D: Widening<A>>(sample_rate_hz: u32) -> (r: Result<Self, DspError>)
        ensures
            match r {
                Err(e) => if sample_rate_hz <= 4 * SUBCARRIER_HZ {
                    e@ == Fault::InvalidParameter(
                        "sample_rate_hz ("@ + decimal(sample_rate_hz as nat)
                            + ") too low for APT envelope detection — the 2·SUBCARRIER_HZ (4800 Hz) rectification harmonic requires Nyquist above that, i.e. sample rate > 4·SUBCARRIER_HZ = 9600 Hz"@,
                    )
                } else {
                    match Self::design::<D>(sample_rate_hz) {
                        Err(f) => e@ == f,
                        Ok(taps) => taps.len() == 0
                            && e@ == Fault::InvalidParameter("FIR taps must not be empty"@),
                    }
                },
                Ok(f) => {
                    &&& sample_rate_hz > 4 * SUBCARRIER_HZ
                    &&& f.wf()
                    &&& Self::design::<D>(sample_rate_hz) == Ok::<Seq<A::R>, Fault>(
                        f.lpf.taps@,
                    )
                    &&& f.lpf.delay_line@ == repeated(
                        A::integer_value(0),
                        f.lpf.delay_line@.len(),
                    )
                },
            },
    {
        if sample_rate_hz <= 4 * SUBCARRIER_HZ {
            return Err(
                DspError::InvalidParameter(
                    String::from_str("sample_rate_hz (")
                        .concat(decimal_text(sample_rate_hz as u64).as_str())
                        .concat(") too low for APT envelope detection — the 2·SUBCARRIER_HZ (4800 Hz) rectification harmonic requires Nyquist above that, i.e. sample rate > 4·SUBCARRIER_HZ = 9600 Hz"),
                ),
            );
        }
        let lpf_taps: Vec<A::R> = match low_pass::<A, D>(
            D::integer(ENVELOPE_LPF_CUTOFF_HZ),
            D::integer(ENVELOPE_LPF_TRANSITION_HZ),
            D::integer(sample_rate_hz as i64),
            true,
        ) {
            Ok(lpf_taps) => lpf_taps,
            Err(e) => {
                return Err(e);
            },
        };
        match FirFilter::new(lpf_taps) {
            Ok(lpf) => Ok(EnvelopeDetector { lpf, scratch: Vec::new() }),
            Err(e) => Err(e),
        }
    }

    /// Number of taps of the filter.
    pub fn lpf_tap_count(&self) -> (r: usize)
        ensures
            r == self.lpf.taps@.len(),
    {
        self.lpf.tap_count()
    }

    /// Clears the filter.
    pub fn reset(&mut self)
        ensures
            final(self).lpf.taps@ == old(self).lpf.taps@,
            final(self).lpf.delay_line@ == repeated(
                A::integer_value(0),
                old(self).lpf.delay_line@.len(),
            ),
    {
        self.lpf.reset();
    }

    /// Rectifies and filters `input` into `output` and returns the number of
    /// samples written.
    pub fn process(&mut self, input: &[A::R], output: &mut [A::R]) -> (r: Result<usize, DspError>)
        requires
            old(self).wf(),
        ensures
            final(self).wf(),
            match r {
                Err(e) => {
                    &&& old(output)@.len() < input@.len()
                    &&& e == DspError::BufferTooSmall {
                        need: input@.len() as usize,
                        got: old(output)@.len() as usize,
                    }
                    &&& *final(self) == *old(self)
                    &&& final(output)@ == old(output)@
                },
                Ok(n) => {
                    let filter = old(self).lpf;
                    let input = rectified::<A>(input@);
                    &&& n == input.len() <= old(output)@.len()
                    &&& final(output)@ == overwritten(
                        old(output)@,
                        filtered::<A>(filter.taps@, filter.delay_line@, input),
                    )
                    &&& final(self).lpf.taps@ == filter.taps@
                    &&& final(self).lpf.delay_line@ == tail(
                        filter.delay_line@ + input,
                        filter.delay_line@.len(),
                    )
                },
            },
    {
        if output.len() < input.len() {
            return Err(DspError::BufferTooSmall { need: input.len(), got: output.len() });
        }
        self.scratch.clear();
        let mut i: usize = 0;
        while i < input.len()
            invariant
                i <= input@.len(),
                self.lpf == old(self).lpf,
                self.scratch@ =~= rectified::<A>(input@).take(i as int),
            decreases input.len() - i,
        {
            self.scratch.push(A::abs(input[i]));
            i = i + 1;
        }
        assert(self.scratch@ =~= rectified::<A>(input@));
        self.lpf.process_f32(self.scratch.as_slice(), output)
    }
}

/// Envelope detector that solves for the amplitude of the subcarrier from two
/// samples.
///
/// Two samples `p` and `c` of `a * cos(..)` that stand a phase `phi` apart
/// determine the amplitude: `a = sqrt(p * p + c * c - 2 * p * c * cos(phi)) /
/// sin(phi)`.
pub struct Apt137Demodulator<A: Arithmetic> {
    /// `2 * cos(phi)`.
    pub cosphi2: A::R,
    /// `1 / sin(phi)`.
    pub inv_sinphi: A::R,
    /// The sample before the next input; none at the start of a stream.
    pub prev: Option<A::R>,
}

impl<A: Arithmetic> Apt137Demodulator<A> {
    /// The phase by which the carrier moves on from sample to sample.
    pub open spec fn phase<D: Widening<A>>(sample_rate_hz: D::R, carrier_hz: D::R) -> D::R {
        D::quotient(
            D::product(D::product(D::integer_value(2), D::half_turn()), carrier_hz),
            sample_rate_hz,
        )
    }

    /// Whether the sine of `phase` is too small to divide by.
    pub open spec fn degenerate<D: Widening<A>>(phase: D::R) -> bool {
        D::less(D::magnitude(D::sine(phase)), D::fraction_value(1, 4503599627370496))
    }

    /// Why a carrier at `carrier_hz` cannot be demodulated at
    /// `sample_rate_hz`, where it cannot.
    pub open spec fn refusal<D: Widening<A>>(sample_rate_hz: D::R, carrier_hz: D::R) -> Option<
        Fault,
    > {
        if !positive_finite::<D>(sample_rate_hz) {
            Some(got::<D>("sample_rate_hz must be positive and finite"@, sample_rate_hz))
        } else if !positive_finite::<D>(carrier_hz) || D::at_most(
            D::quotient(sample_rate_hz, D::integer_value(2)),
            carrier_hz,
        ) {
            Some(
                Fault::InvalidParameter(
                    "carrier_hz ("@ + D::text(carrier_hz) + ") must be in (0, sample_rate_hz/2="@
                        + D::text(D::quotient(sample_rate_hz, D::integer_value(2)))
                        + ") — at the boundaries sin(φ) = 0 and the closed-form demod is undefined"@,
                ),
            )
        } else if Self::degenerate::<D>(Self::phase::<D>(sample_rate_hz, carrier_hz)) {
            Some(
                Fault::InvalidParameter(
                    "carrier_hz ("@ + D::text(carrier_hz) + ") at sample_rate ("@
                        + D::text(sample_rate_hz) + ") gives sin(φ) ≈ 0 (φ = "@
                        + D::text(Self::phase::<D>(sample_rate_hz, carrier_hz))
                        + "); closed-form demod undefined here"@,
                ),
            )
        } else {
            None
        }
    }

    /// Whether the detector is set for a carrier at `carrier_hz`, at the start
    /// of a stream.
    pub open spec fn tuned<D: Widening<A>>(self, sample_rate_hz: D::R, carrier_hz: D::R) -> bool {
        let phase = Self::phase::<D>(sample_rate_hz, carrier_hz);
        &&& self.cosphi2 == D::narrowed(D::product(D::integer_value(2), D::cosine(phase)))
        &&& self.inv_sinphi == D::narrowed(D::quotient(D::integer_value(1), D::sine(phase)))
        &&& self.prev is None
    }

    /// Creates a detector for a carrier at `carrier_hz` in a signal at
    /// `sample_rate_hz`.
    pub fn new<D: Widening<A>>(sample_rate_hz: D::R, carrier_hz: D::R) -> (r: Result<
        Self,
        DspError,
    >)
        ensures
            match r {
                Err(e) => Self::refusal::<D>(sample_rate_hz, carrier_hz) == Some(e@),
                Ok(f) => {
                    &&& Self::refusal::<D>(sample_rate_hz, carrier_hz) is None
                    &&& f.tuned::<D>(sample_rate_hz, carrier_hz)
                },
            },
    {
        if !is_positive_finite::<D>(sample_rate_hz) {
            return Err(
                got_instead::<D>("sample_rate_hz must be positive and finite", sample_rate_hz),
            );
        }
        if !is_positive_finite::<D>(carrier_hz) || D::le(
            D::over(sample_rate_hz, D::integer(2)),
            carrier_hz,
        ) {
            return Err(
                DspError::InvalidParameter(
                    String::from_str("carrier_hz (")
                        .concat(D::to_text(carrier_hz).as_str())
                        .concat(") must be in (0, sample_rate_hz/2=")
                        .concat(D::to_text(D::over(sample_rate_hz, D::integer(2))).as_str())
                        .concat(") — at the boundaries sin(φ) = 0 and the closed-form demod is undefined"),
                ),
            );
        }
        let phi: D::R = D::over(
            D::times(D::times(D::integer(2), D::pi()), carrier_hz),
            sample_rate_hz,
        );
        let sinphi: D::R = D::sin(phi);
        if D::lt(D::abs(sinphi), D::fraction(1, 4503599627370496)) {
            return Err(
                DspError::InvalidParameter(
                    String::from_str("carrier_hz (")
                        .concat(D::to_text(carrier_hz).as_str())
                        .concat(") at sample_rate (")
                        .concat(D::to_text(sample_rate_hz).as_str())
                        .concat(") gives sin(φ) ≈ 0 (φ = ")
                        .concat(D::to_text(phi).as_str())
                        .concat("); closed-form demod undefined here"),
                ),
            );
        }
        Ok(
            Apt137Demodulator {
                cosphi2: D::narrow(D::times(D::integer(2), D::cos(phi))),
                inv_sinphi: D::narrow(D::over(D::integer(1), sinphi)),
                prev: None,
            },
        )
    }

    /// The detector at the start of a stream.
    pub open spec fn cleared(self) -> Self {
        Apt137Demodulator { prev: None, ..self }
    }

    /// Starts a new stream.
    pub fn reset(&mut self)
        ensures
            *final(self) == old(self).cleared(),
    {
        self.prev = None;
    }

    /// The amplitude that the samples `prev` and `curr` determine. A negative
    /// sum counts as zero.
    pub open spec fn amplitude(self, prev: A::R, curr: A::R) -> A::R {
        let sum = A::difference(
            A::sum(A::product(prev, prev), A::product(curr, curr)),
            A::product(A::product(prev, curr), self.cosphi2),
        );
        A::product(A::root(A::greater(sum, A::integer_value(0))), self.inv_sinphi)
    }

    /// Writes the envelope of `input` to `output` and returns the number of
    /// samples written. The first sample of a stream has no sample before it
    /// and gives zero.
    pub fn process(&mut self, input: &[A::R], output: &mut [A::R]) -> (r: Result<usize, DspError>)
        ensures
            ran(*old(self), *final(self), input@, old(output)@, final(output)@, r),
    {
        drive(self, input, output)
    }
}

impl<A: Arithmetic> Block<A::R, A::R> for Apt137Demodulator<A> {
    open spec fn step(self, x: A::R) -> (Self, A::R) {
        (
            Apt137Demodulator { prev: Some(x), ..self },
            match self.prev {
                Some(prev) => self.amplitude(prev, x),
                None => A::integer_value(0),
            },
        )
    }

    fn tick(&mut self, x: A::R) -> (y: A::R) {
        let y: A::R = match self.prev {
            Some(prev) => {
                let squares: A::R = A::plus(A::times(prev, prev), A::times(x, x));
                let cross: A::R = A::times(A::times(prev, x), self.cosphi2);
                let sum: A::R = A::max(A::minus(squares, cross), A::integer(0));
                A::times(A::sqrt(sum), self.inv_sinphi)
            },
            None => A::integer(0),
        };
        self.prev = Some(x);
        y
    }
}

/// Resampler for real samples between any two rates.
pub struct RealResampler<A: Arithmetic> {
    /// The resampler for complex samples that does the work.
    pub inner: RationalResampler<A>,
    /// Room for the input as complex samples, kept from call to call.
    pub scratch_in: Vec<Complex<A::R>>,
    /// Room for the output as complex samples, kept from call to call.
    pub scratch_out: Vec<Complex<A::R>>,
}

impl<A: Arithmetic> RealResampler<A> {
    /// The resampler is well formed.
    pub open spec fn wf(self) -> bool {
        self.inner.wf()
    }

    /// The state of the resampler.
    pub open spec fn view(self) -> RationalView<A> {
        self.inner@
    }

    /// Creates a resampler from `in_sample_rate` to `out_sample_rate`, in
    /// hertz.
    pub fn new<D: Widening<A>>(
        in_sample_rate: D::R,
        out_sample_rate: D::R,
        tables: &DecimTables<A>,
    ) -> (r: Result<Self, DspError>)
        requires
            tables.wf(),
        ensures
            match r {
                Err(e) => RationalResampler::<A>::refused::<D>(
                    in_sample_rate,
                    out_sample_rate,
                    e@,
                ),
                Ok(f) => {
                    &&& RationalResampler::<A>::accepted::<D>(in_sample_rate, out_sample_rate)
                    &&& f.wf()
                    &&& f.inner.converts::<D>(in_sample_rate, out_sample_rate, *tables)
                },
            },
    {
        match RationalResampler::<A>::new::<D>(in_sample_rate, out_sample_rate, tables) {
            Ok(inner) => Ok(
                RealResampler { inner, scratch_in: Vec::new(), scratch_out: Vec::new() },
            ),
            Err(e) => Err(e),
        }
    }

    /// Clears the resampler.
    pub fn reset(&mut self)
        requires
            old(self).wf(),
        ensures
            final(self).wf(),
            final(self).inner.same_shape(old(self).inner),
            final(self)@ == old(self)@.cleared(),
    {
        self.inner.reset();
        self.scratch_in.clear();
        self.scratch_out.clear();
    }

    /// Group delay, rounded to whole samples of the input.
    pub fn group_delay_input_samples<D: Arithmetic>(&self) -> (r: usize)
        requires
            self.wf(),
        ensures
            r == self.inner.whole_delay::<D>(),
    {
        self.inner.group_delay_input_samples::<D>()
    }

    /// Resamples `input` into `output` and returns the number of samples
    /// written. Where `output` is refused behind a decimator, the decimator
    /// has taken `input` in all the same.
    pub fn process(&mut self, input: &[A::R], output: &mut [A::R]) -> (r: Result<usize, DspError>)
        requires
            old(self).wf(),
        ensures
            final(self).wf(),
            final(self).inner.same_shape(old(self).inner),
            match r {
                Err(e) => {
                    let need = old(self).inner.room(lifted::<A>(input@));
                    &&& old(output)@.len() < need
                    &&& e == DspError::BufferTooSmall {
                        need: (if need > usize::MAX {
                            usize::MAX as int
                        } else {
                            need
                        }) as usize,
                        got: old(output)@.len() as usize,
                    }
                    &&& final(output)@ == old(output)@
                    &&& final(self)@.poly == old(self)@.poly
                    &&& final(self)@.stages == (if old(self).inner.mode is Both {
                        cascade_next(old(self)@.stages, lifted::<A>(input@))
                    } else {
                        old(self)@.stages
                    })
                },
                Ok(n) => {
                    let made = reals(old(self)@.output(lifted::<A>(input@)));
                    &&& old(self).inner.room(lifted::<A>(input@)) <= old(output)@.len()
                    &&& n == made.len() <= old(output)@.len()
                    &&& final(output)@ == overwritten(old(output)@, made)
                    &&& final(self)@ == old(self)@.next(lifted::<A>(input@))
                },
            },
    {
        self.scratch_in.clear();
        let mut i: usize = 0;
        while i < input.len()
            invariant
                i <= input@.len(),
                self.inner == old(self).inner,
                self.scratch_in@ =~= lifted::<A>(input@).take(i as int),
            decreases input.len() - i,
        {
            self.scratch_in.push(Complex { re: input[i], im: A::integer(0) });
            i = i + 1;
        }
        assert(self.scratch_in@ =~= lifted::<A>(input@));
        let ghost wide = self@.output(self.scratch_in@);
        self.scratch_out.resize(output.len(), complex::zero::<A>());
        let count: usize = match self.inner.process(
            self.scratch_in.as_slice(),
            self.scratch_out.as_mut_slice(),
        ) {
            Ok(count) => count,
            Err(e) => {
                return Err(e);
            },
        };
        let ghost converted = self.inner;
        let mut j: usize = 0;
        while j < count
            invariant
                j <= count == wide.len() <= self.scratch_out@.len(),
                self.scratch_out@.len() == output@.len() == old(output)@.len(),
                forall|k: int| 0 <= k < count ==> self.scratch_out@[k] == wide[k],
                self.inner == converted,
                output@ =~= overwritten(old(output)@, reals(wide).take(j as int)),
            decreases count - j,
        {
            output[j] = self.scratch_out[j].re;
            j = j + 1;
        }
        assert(reals(wide).take(count as int) =~= reals(wide));
        Ok(count)
    }
}

/// `(a - b)^2 + 2 a b == a^2 + b^2`, with the double product in two steps.
proof fn square_of_difference<A: Arithmetic>(a: A::R, b: A::R)
    requires
        exact_laws::<A>(),
        A::finite(a),
        A::finite(b),
    ensures
        ({
            let d = A::difference(a, b);
            A::sum(A::sum(A::product(d, d), A::product(a, b)), A::product(a, b)) == A::sum(
                A::product(a, a),
                A::product(b, b),
            )
        }),
{
    let d = A::difference(a, b);
    let ab = A::product(a, b);
    let aa = A::product(a, a);
    let bb = A::product(b, b);
    stays_finite::<A>(a, b);
    stays_finite::<A>(a, a);
    stays_finite::<A>(b, b);
    let da = A::product(d, a);
    let db = A::product(d, b);
    stays_finite::<A>(d, a);
    stays_finite::<A>(d, b);
    factor_of_difference::<A>(a, b, d);
    factors_in_any_order::<A>(a, d, d);
    factors_in_any_order::<A>(b, d, d);
    factors_in_any_order::<A>(b, a, a);
    assert(A::product(d, d) == A::difference(da, db));
    factor_of_difference::<A>(a, b, a);
    factor_of_difference::<A>(a, b, b);
    assert(da == A::difference(aa, ab));
    assert(db == A::difference(ab, bb));
    let dd = A::product(d, d);
    stays_finite::<A>(d, d);
    sums_undo::<A>(da, db);
    sums_undo::<A>(aa, ab);
    sums_undo::<A>(ab, bb);
    // dd + db == da, da + ab == aa and db + bb == ab
    addends_in_any_order::<A>(dd, db, bb);
    assert(A::sum(dd, ab) == A::sum(da, bb));
    swap_addends::<A>(da, bb, ab);
}

/// The demodulator gives out the amplitude of its carrier: of two samples of a
/// carrier of the amplitude `amplitude`, one carrier step apart, the second gives
/// that amplitude, wherever in its turn the first one lies.
///
/// `c` and `s` are the cosine and the sine of where the first sample lies, and
/// `cs` and `sn` those of the step; the second sample lies at their sum.
pub proof fn carrier_gives_its_amplitude<A: Arithmetic>(
    f: Apt137Demodulator<A>,
    amplitude: A::R,
    c: A::R,
    s: A::R,
    cs: A::R,
    sn: A::R,
)
    requires
        exact_laws::<A>(),
        A::finite(amplitude),
        A::finite(c),
        A::finite(s),
        A::finite(cs),
        A::finite(sn),
        sn != A::integer_value(0),
        A::sum(A::product(c, c), A::product(s, s)) == A::integer_value(1),
        A::sum(A::product(cs, cs), A::product(sn, sn)) == A::integer_value(1),
        f.cosphi2 == A::product(A::integer_value(2), cs),
        A::sum(cs, cs) == A::product(A::integer_value(2), cs),
        f.inv_sinphi == A::quotient(A::integer_value(1), sn),
        f.prev == Some(A::product(amplitude, c)),
        ({
            let strength = A::product(amplitude, sn);
            let square = A::product(strength, strength);
            &&& A::greater(square, A::integer_value(0)) == square
            &&& A::root(square) == strength
        }),
    ensures
        f.step(
            A::product(
                amplitude,
                A::difference(A::product(c, cs), A::product(s, sn)),
            ),
        ).1 == amplitude,
{
    let a = amplitude;
    let one = A::integer_value(1);
    whole_numbers::<A>(1);
    whole_numbers::<A>(2);
    let p = A::product(a, c);
    let q = A::product(a, s);
    stays_finite::<A>(a, c);
    stays_finite::<A>(a, s);
    let ccs = A::product(c, cs);
    let ssn = A::product(s, sn);
    stays_finite::<A>(c, cs);
    stays_finite::<A>(s, sn);
    stays_finite::<A>(ccs, ssn);
    let y = A::product(a, A::difference(ccs, ssn));
    let pc = A::product(p, cs);
    let qs = A::product(q, sn);
    stays_finite::<A>(p, cs);
    stays_finite::<A>(q, sn);
    factor_of_difference::<A>(ccs, ssn, a);
    factors_in_any_order::<A>(a, A::difference(ccs, ssn), one);
    factors_in_any_order::<A>(ccs, a, one);
    factors_in_any_order::<A>(ssn, a, one);
    factors_in_any_order::<A>(a, c, cs);
    factors_in_any_order::<A>(a, s, sn);
    assert(y == A::difference(pc, qs));
    stays_finite::<A>(pc, qs);
    // (pc - y)^2 == qs^2
    let back = A::difference(pc, y);
    sums_undo::<A>(pc, qs);
    assert(A::sum(y, qs) == pc);
    addends_in_any_order::<A>(y, qs, qs);
    sums_undo::<A>(qs, y);
    assert(back == qs);
    square_of_difference::<A>(pc, y);
    let py = A::product(pc, y);
    let yy = A::product(y, y);
    let pp = A::product(p, p);
    let pcpc = A::product(pc, pc);
    let qsqs = A::product(qs, qs);
    stays_finite::<A>(pc, y);
    stays_finite::<A>(y, y);
    stays_finite::<A>(p, p);
    stays_finite::<A>(pc, pc);
    stays_finite::<A>(qs, qs);
    assert(A::sum(A::sum(qsqs, py), py) == A::sum(pcpc, yy));
    // the double product
    let prevcurr = A::product(p, y);
    stays_finite::<A>(p, y);
    let twice = A::sum(cs, cs);
    let cross = A::product(prevcurr, twice);
    stays_finite::<A>(cs, cs);
    stays_finite::<A>(prevcurr, twice);
    factor_of_sum::<A>(cs, cs, prevcurr);
    factors_in_any_order::<A>(p, y, cs);
    assert(A::product(prevcurr, cs) == py);
    assert(cross == A::sum(py, py));
    // p^2 == pc^2 + (p sn)^2
    let ps = A::product(p, sn);
    let psps = A::product(ps, ps);
    stays_finite::<A>(p, sn);
    stays_finite::<A>(ps, ps);
    squares_of_factors::<A>(p, cs, sn);
    assert(A::sum(pcpc, psps) == pp);
    // (p sn)^2 + (q sn)^2 == (a sn)^2
    let strength = A::product(a, sn);
    let square = A::product(strength, strength);
    stays_finite::<A>(a, sn);
    stays_finite::<A>(strength, strength);
    factors_in_any_order::<A>(a, c, sn);
    factors_in_any_order::<A>(a, s, sn);
    factors_in_any_order::<A>(a, sn, c);
    factors_in_any_order::<A>(a, sn, s);
    assert(ps == A::product(strength, c));
    assert(qs == A::product(strength, s));
    squares_of_factors::<A>(strength, c, s);
    assert(A::sum(psps, qsqs) == square);
    let squares = A::sum(pp, yy);
    stays_finite::<A>(pp, yy);
    collected::<A>(square, cross, py, pcpc, psps, qsqs, yy);
    assert(A::difference(squares, cross) == square);
    stays_finite::<A>(one, sn);
    let inverse = A::quotient(one, sn);
    products_undo::<A>(one, sn);
    factors_in_any_order::<A>(a, sn, inverse);
    sum_with_zero::<A>(a);
}

/// The squares of a number times a cosine and times a sine add up to the square
/// of the number.
proof fn squares_of_factors<A: Arithmetic>(p: A::R, c: A::R, s: A::R)
    requires
        exact_laws::<A>(),
        A::finite(p),
        A::finite(c),
        A::finite(s),
        A::sum(A::product(c, c), A::product(s, s)) == A::integer_value(1),
    ensures
        A::sum(
            A::product(A::product(p, c), A::product(p, c)),
            A::product(A::product(p, s), A::product(p, s)),
        ) == A::product(p, p),
{
    square_of_product::<A>(p, c);
    square_of_product::<A>(p, s);
    stays_finite::<A>(p, p);
    stays_finite::<A>(c, c);
    stays_finite::<A>(s, s);
    factor_of_sum::<A>(A::product(c, c), A::product(s, s), A::product(p, p));
    sum_with_zero::<A>(A::product(p, p));
}

proof fn square_of_product<A: Arithmetic>(p: A::R, c: A::R)
    requires
        exact_laws::<A>(),
        A::finite(p),
        A::finite(c),
    ensures
        A::product(A::product(p, c), A::product(p, c)) == A::product(
            A::product(p, p),
            A::product(c, c),
        ),
{
    stays_finite::<A>(p, c);
    stays_finite::<A>(p, p);
    factors_in_any_order::<A>(A::product(p, c), p, c);
    factors_in_any_order::<A>(p, c, p);
    factors_in_any_order::<A>(A::product(p, p), c, c);
}

/// The squares less the double product are what is left.
proof fn collected<A: Arithmetic>(
    square: A::R,
    cross: A::R,
    py: A::R,
    pcpc: A::R,
    psps: A::R,
    qsqs: A::R,
    yy: A::R,
)
    requires
        exact_laws::<A>(),
        A::finite(square),
        A::finite(cross),
        A::finite(py),
        A::finite(pcpc),
        A::finite(psps),
        A::finite(qsqs),
        A::finite(yy),
        cross == A::sum(py, py),
        A::sum(A::sum(qsqs, py), py) == A::sum(pcpc, yy),
        A::sum(psps, qsqs) == square,
    ensures
        A::difference(A::sum(A::sum(pcpc, psps), yy), cross) == square,
{
    stays_finite::<A>(qsqs, py);
    stays_finite::<A>(pcpc, psps);
    stays_finite::<A>(pcpc, yy);
    swap_addends::<A>(pcpc, psps, yy);
    addends_in_any_order::<A>(qsqs, py, py);
    assert(A::sum(qsqs, cross) == A::sum(pcpc, yy));
    addends_in_any_order::<A>(A::sum(pcpc, yy), psps, psps);
    addends_in_any_order::<A>(psps, qsqs, cross);
    assert(A::sum(square, cross) == A::sum(A::sum(pcpc, psps), yy));
    sums_undo::<A>(square, cross);
}

/// [`carrier_gives_its_amplitude`] of a demodulator that is set to its carrier:
/// the step is the angle by which the carrier turns in one sample.
pub proof fn tuned_demodulator_gives_the_amplitude<A: Arithmetic, D: Widening<A>>(
    f: Apt137Demodulator<A>,
    sample_rate_hz: D::R,
    carrier_hz: D::R,
    amplitude: A::R,
    c: A::R,
    s: A::R,
)
    requires
        exact_laws::<A>(),
        f.tuned::<D>(sample_rate_hz, carrier_hz),
        A::finite(amplitude),
        A::finite(c),
        A::finite(s),
        A::sum(A::product(c, c), A::product(s, s)) == A::integer_value(1),
        ({
            let step = D::quotient(
                D::product(D::product(D::integer_value(2), D::half_turn()), carrier_hz),
                sample_rate_hz,
            );
            let cs = D::narrowed(D::cosine(step));
            let sn = D::narrowed(D::sine(step));
            let strength = A::product(amplitude, sn);
            let square = A::product(strength, strength);
            &&& A::finite(cs)
            &&& A::finite(sn)
            &&& sn != A::integer_value(0)
            &&& A::sum(A::product(cs, cs), A::product(sn, sn)) == A::integer_value(1)
            &&& D::narrowed(D::product(D::integer_value(2), D::cosine(step))) == A::sum(cs, cs)
            &&& A::product(A::integer_value(2), cs) == A::sum(cs, cs)
            &&& D::narrowed(D::quotient(D::integer_value(1), D::sine(step))) == A::quotient(
                A::integer_value(1),
                sn,
            )
            &&& A::greater(square, A::integer_value(0)) == square
            &&& A::root(square) == strength
        }),
    ensures
        ({
            let step = D::quotient(
                D::product(D::product(D::integer_value(2), D::half_turn()), carrier_hz),
                sample_rate_hz,
            );
            let cs = D::narrowed(D::cosine(step));
            let sn = D::narrowed(D::sine(step));
            let (after, nothing) = f.step(A::product(amplitude, c));
            &&& nothing == A::integer_value(0)
            &&& after.step(
                A::product(
                    amplitude,
                    A::difference(A::product(c, cs), A::product(s, sn)),
                ),
            ).1 == amplitude
        }),
{
    let step = D::quotient(
        D::product(D::product(D::integer_value(2), D::half_turn()), carrier_hz),
        sample_rate_hz,
    );
    carrier_gives_its_amplitude::<A>(
        f.step(A::product(amplitude, c)).0,
        amplitude,
        c,
        s,
        D::narrowed(D::cosine(step)),
        D::narrowed(D::sine(step)),
    );
}

} // verus!
