//! Demodulators.

use crate::arith::{Arithmetic, Widening, got, got_instead, is_positive_finite, positive_finite};
use crate::block::{drive, ran, run, run_len, Block};
use crate::channel::{shift_makes_a_turn, tone_is_shifted, FrequencyXlator};
use crate::complex::{self, reals};
use crate::exact::{
    exact_laws, factors_in_any_order, negation_laws, opposite, opposite_factors, products_undo,
    stays_finite, sum_with_zero, sums_undo, whole_numbers, widening_laws, zero_factor,
};
use crate::loops::{amplitudes, Agc};
use crate::math::{
    angle_laws, angular_step, hz_to_rads, normalize_phase, small_angle_stays, tone, wrapped_phase,
};
use crate::stream::{overwritten, overwritten_next, scan, scan_next};
use crate::types::{Complex, DspError, Fault};
use vstd::prelude::*;

verus! {

/// Frequency demodulator: the change of the phase from sample to sample, in
/// parts of the deviation.
pub struct Quadrature<A: Arithmetic> {
    /// The inverse of the deviation.
    pub inv_deviation: A::R,
    /// The phase of the last sample.
    pub last_phase: A::R,
}

impl<A: Arithmetic> Quadrature<A> {
    /// Why `deviation` is not possible, where it is not.
    pub open spec fn refusal(deviation: A::R) -> Option<Fault> {
        if !positive_finite::<A>(deviation) {
            Some(got::<A>("deviation must be positive and finite"@, deviation))
        } else if !A::finite(A::quotient(A::integer_value(1), deviation)) {
            Some(got::<A>("deviation is too small to represent safely"@, deviation))
        } else {
            None
        }
    }

    /// The demodulator that [`Self::new`] creates.
    pub open spec fn fresh(deviation: A::R) -> Self {
        Quadrature {
            inv_deviation: A::quotient(A::integer_value(1), deviation),
            last_phase: A::integer_value(0),
        }
    }

    /// Creates a demodulator for the greatest deviation `deviation`, in radians
    /// for each sample.
    pub fn new(deviation: A::R) -> (r: Result<Self, DspError>)
        ensures
            match r {
                Err(e) => Self::refusal(deviation) == Some(e@),
                Ok(f) => Self::refusal(deviation) is None && f == Self::fresh(deviation),
            },
    {
        if !is_positive_finite::<A>(deviation) {
            return Err(got_instead::<A>("deviation must be positive and finite", deviation));
        }
        let inv_deviation: A::R = A::over(A::integer(1), deviation);
        if !A::is_finite(inv_deviation) {
            return Err(got_instead::<A>("deviation is too small to represent safely", deviation));
        }
        Ok(Quadrature { inv_deviation, last_phase: A::integer(0) })
    }

    /// The deviation `deviation_hz`, in radians for each sample.
    pub open spec fn deviation<D: Widening<A>>(deviation_hz: D::R, sample_rate: D::R) -> A::R {
        D::narrowed(angular_step::<D>(deviation_hz, sample_rate))
    }

    /// Why `deviation_hz` is not possible at `sample_rate`, where it is not.
    pub open spec fn refusal_hz<D: Widening<A>>(deviation_hz: D::R, sample_rate: D::R) -> Option<
        Fault,
    > {
        if !positive_finite::<D>(deviation_hz) {
            Some(got::<D>("deviation_hz must be positive and finite"@, deviation_hz))
        } else if !positive_finite::<D>(sample_rate) {
            Some(got::<D>("sample_rate must be positive and finite"@, sample_rate))
        } else {
            Self::refusal(Self::deviation::<D>(deviation_hz, sample_rate))
        }
    }

    /// Creates a demodulator for the greatest deviation `deviation_hz`.
    pub fn from_hz<D: Widening<A>>(deviation_hz: D::R, sample_rate: D::R) -> (r: Result<
        Self,
        DspError,
    >)
        ensures
            match r {
                Err(e) => Self::refusal_hz::<D>(deviation_hz, sample_rate) == Some(e@),
                Ok(f) => {
                    &&& Self::refusal_hz::<D>(deviation_hz, sample_rate) is None
                    &&& f == Self::fresh(Self::deviation::<D>(deviation_hz, sample_rate))
                },
            },
    {
        if !is_positive_finite::<D>(deviation_hz) {
            return Err(got_instead::<D>("deviation_hz must be positive and finite", deviation_hz));
        }
        if !is_positive_finite::<D>(sample_rate) {
            return Err(got_instead::<D>("sample_rate must be positive and finite", sample_rate));
        }
        Self::new(D::narrow(hz_to_rads::<D>(deviation_hz, sample_rate)))
    }

    /// The demodulator at the start of a stream.
    pub open spec fn cleared(self) -> Self {
        Quadrature { last_phase: A::integer_value(0), ..self }
    }

    /// Starts a new stream.
    pub fn reset(&mut self)
        ensures
            *final(self) == old(self).cleared(),
    {
        self.last_phase = A::integer(0);
    }

    /// Demodulates `input` into `output` and returns the number of samples
    /// written.
    pub fn process(&mut self, input: &[Complex<A::R>], output: &mut [A::R]) -> (r: Result<
        usize,
        DspError,
    >)
        ensures
            ran(*old(self), *final(self), input@, old(output)@, final(output)@, r),
    {
        drive(self, input, output)
    }
}

impl<A: Arithmetic> Block<Complex<A::R>, A::R> for Quadrature<A> {
    open spec fn step(self, x: Complex<A::R>) -> (Self, A::R) {
        let phase = complex::argument::<A>(x);
        (
            Quadrature { last_phase: phase, ..self },
            A::product(
                wrapped_phase::<A>(A::difference(phase, self.last_phase)),
                self.inv_deviation,
            ),
        )
    }

    fn tick(&mut self, x: Complex<A::R>) -> (y: A::R) {
        let phase: A::R = complex::phase::<A>(x);
        let turned: A::R = normalize_phase::<A>(A::minus(phase, self.last_phase));
        self.last_phase = phase;
        A::times(turned, self.inv_deviation)
    }
}

/// Amplitude demodulator: the amplitude less its slow mean.
pub struct AmDemod<A: Arithmetic> {
    /// The mean.
    pub dc_offset: A::R,
    /// How fast the mean follows.
    pub dc_rate: A::R,
}

impl<A: Arithmetic> AmDemod<A> {
    /// The demodulator that [`Self::new`] creates.
    pub open spec fn fresh() -> Self {
        AmDemod { dc_offset: A::integer_value(0), dc_rate: A::fraction_value(1, 1000) }
    }

    /// Creates a demodulator.
    pub fn new() -> (f: Self)
        ensures
            f == Self::fresh(),
    {
        AmDemod { dc_offset: A::integer(0), dc_rate: A::fraction(1, 1000) }
    }

    /// Starts a new stream.
    pub fn reset(&mut self)
        ensures
            *final(self) == (AmDemod::<A> { dc_offset: A::integer_value(0), ..*old(self) }),
    {
        self.dc_offset = A::integer(0);
    }

    /// Demodulates `input` into `output` and returns the number of samples
    /// written.
    pub fn process(&mut self, input: &[Complex<A::R>], output: &mut [A::R]) -> (r: Result<
        usize,
        DspError,
    >)
        ensures
            ran(*old(self), *final(self), input@, old(output)@, final(output)@, r),
    {
        drive(self, input, output)
    }
}

impl<A: Arithmetic> Default for AmDemod<A> {
    fn default() -> (f: Self)
        ensures
            f == Self::fresh(),
    {
        Self::new()
    }
}

impl<A: Arithmetic> Block<Complex<A::R>, A::R> for AmDemod<A> {
    open spec fn step(self, x: Complex<A::R>) -> (Self, A::R) {
        let y = A::difference(complex::modulus::<A>(x), self.dc_offset);
        (
            AmDemod { dc_offset: A::sum(self.dc_offset, A::product(y, self.dc_rate)), ..self },
            y,
        )
    }

    fn tick(&mut self, x: Complex<A::R>) -> (y: A::R) {
        let y: A::R = A::minus(complex::amplitude::<A>(x), self.dc_offset);
        self.dc_offset = A::plus(self.dc_offset, A::times(y, self.dc_rate));
        y
    }
}

/// Demodulator for frequency modulation.
pub struct FmDemod<A: Arithmetic> {
    /// The demodulator that does the work.
    pub quad: Quadrature<A>,
}

impl<A: Arithmetic> FmDemod<A> {
    /// Creates a demodulator for the greatest deviation `deviation`, in radians
    /// for each sample.
    pub fn new(deviation: A::R) -> (r: Result<Self, DspError>)
        ensures
            match r {
                Err(e) => Quadrature::<A>::refusal(deviation) == Some(e@),
                Ok(f) => {
                    &&& Quadrature::<A>::refusal(deviation) is None
                    &&& f.quad == Quadrature::<A>::fresh(deviation)
                },
            },
    {
        match Quadrature::new(deviation) {
            Ok(quad) => Ok(FmDemod { quad }),
            Err(e) => Err(e),
        }
    }

    /// Creates a demodulator for the greatest deviation `deviation_hz`.
    pub fn from_hz<D: Widening<A>>(deviation_hz: D::R, sample_rate: D::R) -> (r: Result<
        Self,
        DspError,
    >)
        ensures
            match r {
                Err(e) => Quadrature::<A>::refusal_hz::<D>(deviation_hz, sample_rate) == Some(e@),
                Ok(f) => {
                    &&& Quadrature::<A>::refusal_hz::<D>(deviation_hz, sample_rate) is None
                    &&& f.quad == Quadrature::<A>::fresh(
                        Quadrature::<A>::deviation::<D>(deviation_hz, sample_rate),
                    )
                },
            },
    {
        match Quadrature::<A>::from_hz::<D>(deviation_hz, sample_rate) {
            Ok(quad) => Ok(FmDemod { quad }),
            Err(e) => Err(e),
        }
    }

    /// Starts a new stream.
    pub fn reset(&mut self)
        ensures
            final(self).quad == old(self).quad.cleared(),
    {
        self.quad.reset();
    }

    /// Demodulates `input` into `output` and returns the number of samples
    /// written.
    pub fn process(&mut self, input: &[Complex<A::R>], output: &mut [A::R]) -> (r: Result<
        usize,
        DspError,
    >)
        ensures
            ran(old(self).quad, final(self).quad, input@, old(output)@, final(output)@, r),
    {
        self.quad.process(input, output)
    }
}

/// Deviation of broadcast stations, in hertz.
pub const BROADCAST_FM_DEVIATION_HZ: i64 = 75_000;

/// Demodulator for broadcast stations.
pub struct BroadcastFmDemod<A: Arithmetic> {
    /// The demodulator that does the work.
    pub quad: Quadrature<A>,
}

impl<A: Arithmetic> BroadcastFmDemod<A> {
    /// Creates a demodulator for a signal at `sample_rate`.
    pub fn new<D: Widening<A>>(sample_rate: D::R) -> (r: Result<Self, DspError>)
        ensures
            ({
                let deviation_hz = D::integer_value(BROADCAST_FM_DEVIATION_HZ);
                match r {
                    Err(e) => Quadrature::<A>::refusal_hz::<D>(deviation_hz, sample_rate)
                        == Some(e@),
                    Ok(f) => {
                        &&& Quadrature::<A>::refusal_hz::<D>(deviation_hz, sample_rate) is None
                        &&& f.quad == Quadrature::<A>::fresh(
                            Quadrature::<A>::deviation::<D>(deviation_hz, sample_rate),
                        )
                    },
                }
            }),
    {
        match Quadrature::<A>::from_hz::<D>(D::integer(BROADCAST_FM_DEVIATION_HZ), sample_rate) {
            Ok(quad) => Ok(BroadcastFmDemod { quad }),
            Err(e) => Err(e),
        }
    }

    /// Starts a new stream.
    pub fn reset(&mut self)
        ensures
            final(self).quad == old(self).quad.cleared(),
    {
        self.quad.reset();
    }

    /// Demodulates `input` into `output`, the composite signal, and returns the
    /// number of samples written.
    pub fn process(&mut self, input: &[Complex<A::R>], output: &mut [A::R]) -> (r: Result<
        usize,
        DspError,
    >)
        ensures
            ran(old(self).quad, final(self).quad, input@, old(output)@, final(output)@, r),
    {
        self.quad.process(input, output)
    }
}

/// Which sideband is received.
#[derive(Clone, Copy, Debug, PartialEq, Eq, Structural)]
pub enum SsbMode {
    /// The upper sideband.
    Usb,
    /// The lower sideband.
    Lsb,
    /// Both sidebands.
    Dsb,
}

/// Shifts `input` and writes the real parts to `output`.
fn mix<A: Arithmetic>(
    xlator: &mut FrequencyXlator<A>,
    input: &[Complex<A::R>],
    output: &mut [A::R],
) -> (r: Result<usize, DspError>)
    ensures
        mixed(*old(xlator), *final(xlator), input@, old(output)@, final(output)@, r),
{
    if output.len() < input.len() {
        return Err(DspError::BufferTooSmall { need: input.len(), got: output.len() });
    }
    let ghost step = |s: FrequencyXlator<A>, x: Complex<A::R>| s.step(x);
    let mut i: usize = 0;
    while i < input.len()
        invariant
            i <= input@.len() <= output@.len(),
            output@.len() == old(output)@.len(),
            step == (|s: FrequencyXlator<A>, x: Complex<A::R>| s.step(x)),
            *xlator == scan(step, *old(xlator), input@.take(i as int)).0,
            output@ == overwritten(
                old(output)@,
                reals(scan(step, *old(xlator), input@.take(i as int)).1),
            ),
        decreases input.len() - i,
    {
        let ghost made = scan(step, *old(xlator), input@.take(i as int)).1;
        proof {
            scan_next(step, *old(xlator), input@, i as int);
        }
        let y: Complex<A::R> = xlator.tick(input[i]);
        proof {
            overwritten_next(old(output)@, reals(made), y.re);
            assert(reals(made.push(y)) =~= reals(made).push(y.re));
        }
        output[i] = y.re;
        i = i + 1;
    }
    assert(input@.take(i as int) =~= input@);
    Ok(input.len())
}

/// How a call goes that shifts `input` and writes the real parts: it is refused
/// where the output buffer is shorter than the input, and changes nothing
/// then.
pub open spec fn mixed<A: Arithmetic>(
    before: FrequencyXlator<A>,
    after: FrequencyXlator<A>,
    input: Seq<Complex<A::R>>,
    out_before: Seq<A::R>,
    out_after: Seq<A::R>,
    r: Result<usize, DspError>,
) -> bool {
    match r {
        Err(e) => {
            &&& out_before.len() < input.len()
            &&& e == DspError::BufferTooSmall {
                need: input.len() as usize,
                got: out_before.len() as usize,
            }
            &&& after == before
            &&& out_after == out_before
        },
        Ok(n) => {
            &&& n == input.len() <= out_before.len()
            &&& after == run(before, input).0
            &&& out_after == overwritten(out_before, reals(run(before, input).1))
        },
    }
}

/// Demodulator for single sidebands.
pub struct SsbDemod<A: Arithmetic, D: Widening<A>> {
    /// Which sideband is received.
    pub mode: SsbMode,
    /// Shift of the sideband.
    pub xlator: FrequencyXlator<A>,
    /// Width of the channel, in hertz.
    pub bandwidth: D::R,
    /// Rate of the input, in hertz.
    pub sample_rate: D::R,
}

impl<A: Arithmetic, D: Widening<A>> SsbDemod<A, D> {
    /// By how much the sideband is shifted, in hertz.
    pub open spec fn translation(mode: SsbMode, bandwidth: D::R) -> D::R {
        match mode {
            SsbMode::Usb => D::quotient(bandwidth, D::integer_value(2)),
            SsbMode::Lsb => D::quotient(D::negation(bandwidth), D::integer_value(2)),
            SsbMode::Dsb => D::integer_value(0),
        }
    }

    /// The demodulator with these settings at the start of a stream.
    pub open spec fn fresh(mode: SsbMode, bandwidth: D::R, sample_rate: D::R) -> Self {
        SsbDemod {
            mode,
            xlator: FrequencyXlator::<A>::fresh(
                FrequencyXlator::<A>::turn::<D>(
                    Self::translation(mode, bandwidth),
                    sample_rate,
                ),
            ),
            bandwidth,
            sample_rate,
        }
    }

    /// Creates a demodulator.
    pub fn new(mode: SsbMode, bandwidth: D::R, sample_rate: D::R) -> (r: Result<Self, DspError>)
        ensures
            match r {
                Err(e) => if !positive_finite::<D>(bandwidth) {
                    e@ == got::<D>("bandwidth must be positive and finite"@, bandwidth)
                } else {
                    &&& !positive_finite::<D>(sample_rate)
                    &&& e@ == got::<D>("sample_rate must be positive and finite"@, sample_rate)
                },
                Ok(f) => {
                    &&& positive_finite::<D>(bandwidth)
                    &&& positive_finite::<D>(sample_rate)
                    &&& f == Self::fresh(mode, bandwidth, sample_rate)
                },
            },
    {
        if !is_positive_finite::<D>(bandwidth) {
            return Err(got_instead::<D>("bandwidth must be positive and finite", bandwidth));
        }
        if !is_positive_finite::<D>(sample_rate) {
            return Err(got_instead::<D>("sample_rate must be positive and finite", sample_rate));
        }
        let xlator: FrequencyXlator<A> = FrequencyXlator::<A>::from_hz::<D>(
            Self::get_translation(mode, bandwidth),
            sample_rate,
        );
        Ok(SsbDemod { mode, xlator, bandwidth, sample_rate })
    }

    /// Changes the sideband and starts a new stream.
    pub fn set_mode(&mut self, mode: SsbMode)
        ensures
            *final(self) == Self::fresh(mode, old(self).bandwidth, old(self).sample_rate),
    {
        self.mode = mode;
        self.xlator = FrequencyXlator::<A>::from_hz::<D>(
            Self::get_translation(mode, self.bandwidth),
            self.sample_rate,
        );
    }

    /// Changes the width of the channel and starts a new stream.
    pub fn set_bandwidth(&mut self, bandwidth: D::R) -> (r: Result<(), DspError>)
        ensures
            match r {
                Err(e) => {
                    &&& !positive_finite::<D>(bandwidth)
                    &&& e@ == got::<D>("bandwidth must be positive and finite"@, bandwidth)
                    &&& *final(self) == *old(self)
                },
                Ok(_) => {
                    &&& positive_finite::<D>(bandwidth)
                    &&& *final(self) == Self::fresh(
                        old(self).mode,
                        bandwidth,
                        old(self).sample_rate,
                    )
                },
            },
    {
        if !is_positive_finite::<D>(bandwidth) {
            return Err(got_instead::<D>("bandwidth must be positive and finite", bandwidth));
        }
        self.bandwidth = bandwidth;
        self.xlator = FrequencyXlator::<A>::from_hz::<D>(
            Self::get_translation(self.mode, bandwidth),
            self.sample_rate,
        );
        Ok(())
    }

    fn get_translation(mode: SsbMode, bandwidth: D::R) -> (r: D::R)
        ensures
            r == Self::translation(mode, bandwidth),
    {
        match mode {
            SsbMode::Usb => D::over(bandwidth, D::integer(2)),
            SsbMode::Lsb => D::over(D::neg(bandwidth), D::integer(2)),
            SsbMode::Dsb => D::integer(0),
        }
    }

    /// Demodulates `input` into `output` and returns the number of samples
    /// written.
    pub fn process(&mut self, input: &[Complex<A::R>], output: &mut [A::R]) -> (r: Result<
        usize,
        DspError,
    >)
        ensures
            mixed(
                old(self).xlator,
                final(self).xlator,
                input@,
                old(output)@,
                final(output)@,
                r,
            ),
            *final(self) == (SsbDemod::<A, D> { xlator: final(self).xlator, ..*old(self) }),
    {
        mix::<A>(&mut self.xlator, input, output)
    }
}

/// Demodulator for Morse code: makes the carrier a tone and levels it.
pub struct CwDemod<A: Arithmetic> {
    /// Shift of the carrier to the tone.
    pub xlator: FrequencyXlator<A>,
    /// Gain control of the tone.
    pub agc: Agc<A>,
    /// Room for the tone, kept from call to call.
    pub agc_buf: Vec<A::R>,
}

impl<A: Arithmetic> CwDemod<A> {
    /// The gain control that a demodulator starts with.
    pub open spec fn fresh_agc() -> Agc<A> {
        Agc::fresh(
            A::integer_value(1),
            A::fraction_value(1, 10),
            A::fraction_value(1, 100),
            A::integer_value(10_000_000),
            A::integer_value(10),
            A::integer_value(1),
        )
    }

    /// Why a tone at `tone_offset_hz` is not possible, where it is not.
    pub open spec fn refusal<D: Widening<A>>(tone_offset_hz: D::R, sample_rate: D::R) -> Option<
        Fault,
    > {
        if !D::finite(tone_offset_hz) {
            Some(got::<D>("tone_offset_hz must be finite"@, tone_offset_hz))
        } else if !positive_finite::<D>(sample_rate) {
            Some(got::<D>("sample_rate must be positive and finite"@, sample_rate))
        } else {
            Agc::<A>::refusal(
                A::integer_value(1),
                A::fraction_value(1, 10),
                A::fraction_value(1, 100),
                A::integer_value(1),
            )
        }
    }

    /// Creates a demodulator that makes the carrier a tone at `tone_offset_hz`.
    pub fn from_hz<D: Widening<A>>(tone_offset_hz: D::R, sample_rate: D::R) -> (r: Result<
        Self,
        DspError,
    >)
        ensures
            match r {
                Err(e) => Self::refusal::<D>(tone_offset_hz, sample_rate) == Some(e@),
                Ok(f) => {
                    &&& Self::refusal::<D>(tone_offset_hz, sample_rate) is None
                    &&& f.xlator == FrequencyXlator::<A>::fresh(
                        FrequencyXlator::<A>::turn::<D>(tone_offset_hz, sample_rate),
                    )
                    &&& f.agc == Self::fresh_agc()
                },
            },
    {
        if !D::is_finite(tone_offset_hz) {
            return Err(got_instead::<D>("tone_offset_hz must be finite", tone_offset_hz));
        }
        if !is_positive_finite::<D>(sample_rate) {
            return Err(got_instead::<D>("sample_rate must be positive and finite", sample_rate));
        }
        let xlator: FrequencyXlator<A> = FrequencyXlator::<A>::from_hz::<D>(
            tone_offset_hz,
            sample_rate,
        );
        match Agc::new(
            A::integer(1),
            A::fraction(1, 10),
            A::fraction(1, 100),
            A::integer(10_000_000),
            A::integer(10),
            A::integer(1),
        ) {
            Ok(agc) => Ok(CwDemod { xlator, agc, agc_buf: Vec::new() }),
            Err(e) => Err(e),
        }
    }

    /// Starts a new stream.
    pub fn reset(&mut self)
        ensures
            final(self).xlator == old(self).xlator.cleared(),
            final(self).agc == old(self).agc.cleared(),
    {
        self.xlator.reset();
        self.agc.reset();
    }

    /// The tone that `input` becomes, before it is levelled.
    pub open spec fn tone(self, input: Seq<Complex<A::R>>) -> Seq<A::R> {
        reals(run(self.xlator, input).1)
    }

    /// Demodulates `input` into `output` and returns the number of samples
    /// written.
    pub fn process(&mut self, input: &[Complex<A::R>], output: &mut [A::R]) -> (r: Result<
        usize,
        DspError,
    >)
        ensures
            match r {
                Err(e) => {
                    &&& old(output)@.len() < input@.len()
                    &&& e == DspError::BufferTooSmall {
                        need: input@.len() as usize,
                        got: old(output)@.len() as usize,
                    }
                    &&& *final(self) == *old(self)
                    &&& final(output)@ == old(output)@
                },
                Ok(n) => {
                    let tone = old(self).tone(input@);
                    &&& n == input@.len() <= old(output)@.len()
                    &&& final(self).xlator == run(old(self).xlator, input@).0
                    &&& final(self).agc == old(self).agc.gains(
                        amplitudes::<A>(tone),
                        tone.len(),
                    ).0
                    &&& final(output)@ == overwritten(
                        old(output)@,
                        old(self).agc.levelled(tone),
                    )
                },
            },
    {
        if output.len() < input.len() {
            return Err(DspError::BufferTooSmall { need: input.len(), got: output.len() });
        }
        proof {
            run_len(self.xlator, input@);
        }
        self.agc_buf.resize(input.len(), A::integer(0));
        match mix::<A>(&mut self.xlator, input, self.agc_buf.as_mut_slice()) {
            Ok(_) => {},
            Err(_) => {
                assert(false);
            },
        }
        assert(self.agc_buf@ =~= old(self).tone(input@));
        self.agc.process_f32(self.agc_buf.as_slice(), output)
    }
}

/// A demodulator for frequency modulation gives out how far its input has turned
/// since the sample before, with the deviation as one: a signal that turns by
/// the deviation comes out as one, and one that turns by `turn` as `turn` over
/// the deviation.
pub proof fn deviation_is_one<A: Arithmetic>(
    deviation: A::R,
    x: Complex<A::R>,
    y: Complex<A::R>,
    turn: A::R,
)
    requires
        exact_laws::<A>(),
        A::finite(deviation),
        deviation != A::integer_value(0),
        A::finite(turn),
        A::finite(A::angle(x.im, x.re)),
        A::angle(y.im, y.re) == A::sum(A::angle(x.im, x.re), turn),
        A::finite(A::half_turn()),
        A::remainder(
            A::sum(turn, A::half_turn()),
            A::product(A::integer_value(2), A::half_turn()),
        ) == A::sum(turn, A::half_turn()),
        !A::at_most(turn, A::negation(A::half_turn())),
    ensures
        ({
            let f = Quadrature::<A>::fresh(deviation).step(x).0;
            &&& A::product(f.step(y).1, deviation) == turn
            &&& turn == deviation ==> f.step(y).1 == A::integer_value(1)
        }),
{
    let one = A::integer_value(1);
    whole_numbers::<A>(1);
    stays_finite::<A>(one, deviation);
    sums_undo::<A>(turn, A::angle(x.im, x.re));
    small_angle_stays::<A>(turn);
    let share = A::quotient(one, deviation);
    products_undo::<A>(one, deviation);
    factors_in_any_order::<A>(turn, share, deviation);
    sum_with_zero::<A>(turn);
}

/// A signal that turns at the deviation makes a full turn in as many samples as
/// the deviation goes into the rate.
pub proof fn deviation_makes_a_turn<A: Arithmetic, D: Widening<A>>(
    deviation_hz: D::R,
    sample_rate: D::R,
)
    requires
        exact_laws::<D>(),
        widening_laws::<A, D>(),
        D::finite(D::half_turn()),
        D::finite(deviation_hz),
        D::finite(sample_rate),
        deviation_hz != D::integer_value(0),
        sample_rate != D::integer_value(0),
    ensures
        D::product(
            D::widened(Quadrature::<A>::deviation::<D>(deviation_hz, sample_rate)),
            D::quotient(sample_rate, deviation_hz),
        ) == D::product(D::integer_value(2), D::half_turn()),
{
    shift_makes_a_turn::<A, D>(deviation_hz, sample_rate);
}

/// A demodulator for amplitude modulation that has settled on the level of a
/// carrier gives out by how much the magnitude of its input differs from it, and
/// stays settled while it does not differ.
pub proof fn modulation_comes_out<A: Arithmetic>(
    f: AmDemod<A>,
    x: Complex<A::R>,
    modulation: A::R,
)
    requires
        exact_laws::<A>(),
        A::finite(f.dc_offset),
        A::finite(f.dc_rate),
        A::finite(modulation),
        A::root(A::sum(A::product(x.re, x.re), A::product(x.im, x.im))) == A::sum(
            f.dc_offset,
            modulation,
        ),
    ensures
        f.step(x).1 == modulation,
        modulation == A::integer_value(0) ==> f.step(x).0 == f,
{
    sums_undo::<A>(modulation, f.dc_offset);
    zero_factor::<A>(f.dc_rate);
    sum_with_zero::<A>(f.dc_offset);
}

/// The level on which a demodulator for amplitude modulation settles follows the
/// input by the share `dc_rate` of what is left.
pub proof fn carrier_is_followed<A: Arithmetic>(f: AmDemod<A>, x: Complex<A::R>)
    requires
        exact_laws::<A>(),
        A::finite(f.dc_offset),
        A::finite(f.dc_rate),
        A::finite(A::root(A::sum(A::product(x.re, x.re), A::product(x.im, x.im)))),
    ensures
        f.dc_rate == A::integer_value(1) ==> f.step(x).0.dc_offset == A::root(
            A::sum(A::product(x.re, x.re), A::product(x.im, x.im)),
        ),
        f.dc_rate == A::integer_value(0) ==> f.step(x).0.dc_offset == f.dc_offset,
        f.step(x).0.dc_rate == f.dc_rate,
{
    let level = A::root(A::sum(A::product(x.re, x.re), A::product(x.im, x.im)));
    stays_finite::<A>(level, f.dc_offset);
    let y = A::difference(level, f.dc_offset);
    sum_with_zero::<A>(y);
    sum_with_zero::<A>(f.dc_offset);
    zero_factor::<A>(y);
    sums_undo::<A>(level, f.dc_offset);
}

/// The two sidebands are shifted by half the bandwidth, in opposite directions,
/// and both of them together not at all.
pub proof fn sidebands_are_opposite<A: Arithmetic, D: Widening<A>>(bandwidth: D::R)
    requires
        exact_laws::<D>(),
        negation_laws::<D>(),
        D::finite(bandwidth),
    ensures
        D::product(
            SsbDemod::<A, D>::translation(SsbMode::Usb, bandwidth),
            D::integer_value(2),
        ) == bandwidth,
        D::sum(
            SsbDemod::<A, D>::translation(SsbMode::Usb, bandwidth),
            SsbDemod::<A, D>::translation(SsbMode::Lsb, bandwidth),
        ) == D::integer_value(0),
        SsbDemod::<A, D>::translation(SsbMode::Dsb, bandwidth) == D::integer_value(0),
{
    let two = D::integer_value(2);
    whole_numbers::<D>(2);
    products_undo::<D>(bandwidth, two);
    stays_finite::<D>(bandwidth, two);
    let half = D::quotient(bandwidth, two);
    opposite::<D>(bandwidth);
    opposite::<D>(half);
    opposite_factors::<D>(half, two);
    products_undo::<D>(D::negation(half), two);
}

/// A demodulator for a sideband gives out a tone as a tone that turns by the
/// shift of the sideband more.
pub proof fn sideband_is_shifted<A: Arithmetic, D: Widening<A>>(
    mode: SsbMode,
    bandwidth: D::R,
    sample_rate: D::R,
    start: A::R,
    step: A::R,
    len: nat,
)
    requires
        exact_laws::<A>(),
        angle_laws::<A>(),
        A::finite(start),
        A::finite(step),
        A::finite(
            D::narrowed(
                D::product(
                    D::product(D::integer_value(2), D::half_turn()),
                    D::quotient(
                        SsbDemod::<A, D>::translation(mode, bandwidth),
                        sample_rate,
                    ),
                ),
            ),
        ),
    ensures
        ({
            let shift = D::narrowed(
                D::product(
                    D::product(D::integer_value(2), D::half_turn()),
                    D::quotient(
                        SsbDemod::<A, D>::translation(mode, bandwidth),
                        sample_rate,
                    ),
                ),
            );
            let f = SsbDemod::<A, D>::fresh(mode, bandwidth, sample_rate);
            reals(run(f.xlator, tone::<A>(start, step, len)).1) == reals(
                tone::<A>(start, A::sum(step, shift), len),
            )
        }),
{
    let f = SsbDemod::<A, D>::fresh(mode, bandwidth, sample_rate);
    whole_numbers::<A>(0);
    tone_is_shifted::<A>(f.xlator, start, step, len);
    sum_with_zero::<A>(start);
}

/// A demodulator for Morse code turns a carrier into a tone that turns by its
/// shift more.
pub proof fn carrier_becomes_a_tone<A: Arithmetic>(
    f: CwDemod<A>,
    start: A::R,
    step: A::R,
    len: nat,
)
    requires
        exact_laws::<A>(),
        angle_laws::<A>(),
        A::finite(f.xlator.phase),
        A::finite(f.xlator.phase_delta),
        A::finite(start),
        A::finite(step),
    ensures
        f.tone(tone::<A>(start, step, len)) == reals(
            tone::<A>(
                A::sum(start, f.xlator.phase),
                A::sum(step, f.xlator.phase_delta),
                len,
            ),
        ),
{
    tone_is_shifted::<A>(f.xlator, start, step, len);
}

} // verus!
