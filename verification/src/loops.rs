//! Control loops: automatic gain control and phase locking.

use crate::arith::{Arithmetic, clamp, clamped, comparable, got, got_instead, order_laws};
use crate::block::{drive, ran, Block};
use crate::complex;
use crate::exact::{
    exact_laws, factors_in_any_order, products_undo, stays_finite, sum_with_zero, sums_undo,
    weights_keep, whole_numbers, zero_factor,
};
use crate::math::{normalize_phase, small_angle_stays, wrapped_phase};
use crate::stream::{overwritten, repeated};
use crate::types::{Complex, DspError, Fault};
use vstd::prelude::*;
use vstd::string::StringExecFns;

verus! {

/// `x` with `step` taken off until it is not above `max`, at most `times`
/// times.
pub open spec fn lowered<A: Arithmetic>(x: A::R, max: A::R, step: A::R, times: nat) -> A::R
    decreases times,
{
    if times == 0 || !A::less(max, x) {
        x
    } else {
        lowered::<A>(A::difference(x, step), max, step, (times - 1) as nat)
    }
}

/// `x` with `step` added until it is not below `min`, at most `times` times.
pub open spec fn raised<A: Arithmetic>(x: A::R, min: A::R, step: A::R, times: nat) -> A::R
    decreases times,
{
    if times == 0 || !A::less(x, min) {
        x
    } else {
        raised::<A>(A::sum(x, step), min, step, (times - 1) as nat)
    }
}

/// Loop of second order that follows a phase and a frequency.
pub struct PhaseControlLoop<A: Arithmetic> {
    /// How much of an error goes to the phase.
    pub alpha: A::R,
    /// How much of an error goes to the frequency.
    pub beta: A::R,
    /// Current phase.
    pub phase: A::R,
    /// Current frequency.
    pub freq: A::R,
    /// Least phase.
    pub min_phase: A::R,
    /// Greatest phase.
    pub max_phase: A::R,
    /// Least frequency.
    pub min_freq: A::R,
    /// Greatest frequency.
    pub max_freq: A::R,
    /// Width of the range of phases.
    pub phase_delta: A::R,
}

impl<A: Arithmetic> PhaseControlLoop<A> {
    /// Why a loop with these ranges is not possible, where it is not.
    pub open spec fn refusal(
        min_phase: A::R,
        max_phase: A::R,
        min_freq: A::R,
        max_freq: A::R,
    ) -> Option<Fault> {
        if A::at_most(max_phase, min_phase) {
            Some(
                Fault::InvalidParameter(
                    "max_phase ("@ + A::text(max_phase) + ") must be > min_phase ("@
                        + A::text(min_phase) + ")"@,
                ),
            )
        } else if A::at_most(max_freq, min_freq) {
            Some(
                Fault::InvalidParameter(
                    "max_freq ("@ + A::text(max_freq) + ") must be > min_freq ("@
                        + A::text(min_freq) + ")"@,
                ),
            )
        } else {
            None
        }
    }

    /// Creates a loop.
    pub fn new(
        alpha: A::R,
        beta: A::R,
        phase: A::R,
        min_phase: A::R,
        max_phase: A::R,
        freq: A::R,
        min_freq: A::R,
        max_freq: A::R,
    ) -> (r: Result<Self, DspError>)
        ensures
            match r {
                Err(e) => Self::refusal(min_phase, max_phase, min_freq, max_freq) == Some(e@),
                Ok(f) => {
                    &&& Self::refusal(min_phase, max_phase, min_freq, max_freq) is None
                    &&& f == (PhaseControlLoop::<A> {
                        alpha,
                        beta,
                        phase,
                        freq,
                        min_phase,
                        max_phase,
                        min_freq,
                        max_freq,
                        phase_delta: A::difference(max_phase, min_phase),
                    })
                },
            },
    {
        if A::le(max_phase, min_phase) {
            return Err(
                DspError::InvalidParameter(
                    String::from_str("max_phase (")
                        .concat(A::to_text(max_phase).as_str())
                        .concat(") must be > min_phase (")
                        .concat(A::to_text(min_phase).as_str())
                        .concat(")"),
                ),
            );
        }
        if A::le(max_freq, min_freq) {
            return Err(
                DspError::InvalidParameter(
                    String::from_str("max_freq (")
                        .concat(A::to_text(max_freq).as_str())
                        .concat(") must be > min_freq (")
                        .concat(A::to_text(min_freq).as_str())
                        .concat(")"),
                ),
            );
        }
        Ok(
            PhaseControlLoop {
                alpha,
                beta,
                phase,
                freq,
                min_phase,
                max_phase,
                min_freq,
                max_freq,
                phase_delta: A::minus(max_phase, min_phase),
            },
        )
    }

    /// The coefficients of a critically damped loop of `bandwidth`.
    pub open spec fn damped(bandwidth: A::R) -> (A::R, A::R) {
        let damping = A::root_of_half();
        let denom = A::sum(
            A::sum(
                A::integer_value(1),
                A::product(A::product(A::integer_value(2), damping), bandwidth),
            ),
            A::product(bandwidth, bandwidth),
        );
        (
            A::quotient(A::product(A::product(A::integer_value(4), damping), bandwidth), denom),
            A::quotient(A::product(A::product(A::integer_value(4), bandwidth), bandwidth), denom),
        )
    }

    /// The coefficients for the phase and for the frequency of a critically
    /// damped loop of `bandwidth`.
    pub fn critically_damped(bandwidth: A::R) -> (r: (A::R, A::R))
        ensures
            r == Self::damped(bandwidth),
    {
        let damping: A::R = A::frac_1_sqrt_2();
        let four: A::R = A::integer(4);
        let denom: A::R = A::plus(
            A::plus(A::integer(1), A::times(A::times(A::integer(2), damping), bandwidth)),
            A::times(bandwidth, bandwidth),
        );
        let alpha: A::R = A::over(A::times(A::times(four, damping), bandwidth), denom);
        let beta: A::R = A::over(A::times(A::times(four, bandwidth), bandwidth), denom);
        (alpha, beta)
    }

    /// `phase` brought into the range of phases by whole widths of the range.
    pub open spec fn in_range(self, phase: A::R) -> A::R {
        raised::<A>(
            lowered::<A>(phase, self.max_phase, self.phase_delta, u64::MAX as nat),
            self.min_phase,
            self.phase_delta,
            u64::MAX as nat,
        )
    }

    /// The loop after a step with the phase error `error`.
    pub open spec fn advanced(self, error: A::R) -> Self {
        let freq = clamped::<A>(
            A::sum(self.freq, A::product(self.beta, error)),
            self.min_freq,
            self.max_freq,
        );
        let phase = A::sum(self.phase, A::sum(freq, A::product(self.alpha, error)));
        PhaseControlLoop { freq, phase: self.in_range(phase), ..self }
    }

    /// Takes a step with the phase error `error`: the frequency follows, held
    /// to its range, and the phase moves on and is brought back into its
    /// range.
    pub fn advance(&mut self, error: A::R)
        ensures
            *final(self) == old(self).advanced(error),
    {
        self.freq = A::plus(self.freq, A::times(self.beta, error));
        self.clamp_freq();
        self.phase = A::plus(self.phase, A::plus(self.freq, A::times(self.alpha, error)));
        self.clamp_phase();
    }

    fn clamp_freq(&mut self)
        ensures
            *final(self) == (PhaseControlLoop {
                freq: clamped::<A>(old(self).freq, old(self).min_freq, old(self).max_freq),
                ..*old(self)
            }),
    {
        self.freq = clamp::<A>(self.freq, self.min_freq, self.max_freq);
    }

    fn clamp_phase(&mut self)
        ensures
            *final(self) == (PhaseControlLoop {
                phase: old(self).in_range(old(self).phase),
                ..*old(self)
            }),
    {
        let (max, min, step): (A::R, A::R, A::R) = (
            self.max_phase,
            self.min_phase,
            self.phase_delta,
        );
        let mut phase: A::R = self.phase;
        let ghost low = lowered::<A>(phase, max, step, u64::MAX as nat);
        let mut left: u64 = u64::MAX;
        while left > 0 && A::lt(max, phase)
            invariant
                lowered::<A>(phase, max, step, left as nat) == low,
            decreases left,
        {
            phase = A::minus(phase, step);
            left = left - 1;
        }
        let ghost goal = raised::<A>(low, min, step, u64::MAX as nat);
        left = u64::MAX;
        while left > 0 && A::lt(phase, min)
            invariant
                raised::<A>(phase, min, step, left as nat) == goal,
            decreases left,
        {
            phase = A::plus(phase, step);
            left = left - 1;
        }
        self.phase = phase;
    }
}

/// Automatic gain control.
pub struct Agc<A: Arithmetic> {
    /// Amplitude to reach.
    pub set_point: A::R,
    /// How fast the estimate follows a rise.
    pub attack: A::R,
    /// What of the estimate stays on a rise.
    pub inv_attack: A::R,
    /// How fast the estimate follows a fall.
    pub decay: A::R,
    /// What of the estimate stays on a fall.
    pub inv_decay: A::R,
    /// Greatest gain.
    pub max_gain: A::R,
    /// Amplitude that the output may not exceed.
    pub max_output_amp: A::R,
    /// Gain to start with.
    pub init_gain: A::R,
    /// Estimate of the amplitude.
    pub amp: A::R,
}

/// Whether `x` lies in the range from 0 to 1.
pub open spec fn is_share<A: Arithmetic>(x: A::R) -> bool {
    A::at_most(A::integer_value(0), x) && A::at_most(x, A::integer_value(1))
}

fn share<A: Arithmetic>(x: A::R) -> (r: bool)
    ensures
        r == is_share::<A>(x),
{
    A::le(A::integer(0), x) && A::le(x, A::integer(1))
}

/// The greatest of the amplitudes from `from` to before `to`, and of zero.
pub open spec fn peak<A: Arithmetic>(amps: Seq<A::R>, from: int, to: int) -> A::R
    decreases to - from,
{
    if to <= from {
        A::integer_value(0)
    } else {
        let before = peak::<A>(amps, from, to - 1);
        if A::less(before, amps[to - 1]) {
            amps[to - 1]
        } else {
            before
        }
    }
}

impl<A: Arithmetic> Agc<A> {
    /// Why a gain control with these settings is not possible, where it is
    /// not.
    pub open spec fn refusal(
        set_point: A::R,
        attack: A::R,
        decay: A::R,
        init_gain: A::R,
    ) -> Option<Fault> {
        if A::at_most(set_point, A::integer_value(0)) {
            Some(got::<A>("set_point must be positive"@, set_point))
        } else if A::at_most(init_gain, A::integer_value(0)) {
            Some(got::<A>("init_gain must be positive"@, init_gain))
        } else if !is_share::<A>(attack) {
            Some(got::<A>("attack must be in [0, 1]"@, attack))
        } else if !is_share::<A>(decay) {
            Some(got::<A>("decay must be in [0, 1]"@, decay))
        } else {
            None
        }
    }

    /// Creates a gain control.
    pub fn new(
        set_point: A::R,
        attack: A::R,
        decay: A::R,
        max_gain: A::R,
        max_output_amp: A::R,
        init_gain: A::R,
    ) -> (r: Result<Self, DspError>)
        ensures
            match r {
                Err(e) => Self::refusal(set_point, attack, decay, init_gain) == Some(e@),
                Ok(f) => {
                    &&& Self::refusal(set_point, attack, decay, init_gain) is None
                    &&& f == Self::fresh(
                        set_point,
                        attack,
                        decay,
                        max_gain,
                        max_output_amp,
                        init_gain,
                    )
                },
            },
    {
        if A::le(set_point, A::integer(0)) {
            return Err(got_instead::<A>("set_point must be positive", set_point));
        }
        if A::le(init_gain, A::integer(0)) {
            return Err(got_instead::<A>("init_gain must be positive", init_gain));
        }
        if !share::<A>(attack) {
            return Err(got_instead::<A>("attack must be in [0, 1]", attack));
        }
        if !share::<A>(decay) {
            return Err(got_instead::<A>("decay must be in [0, 1]", decay));
        }
        let one: A::R = A::integer(1);
        Ok(
            Agc {
                set_point,
                attack,
                inv_attack: A::minus(one, attack),
                decay,
                inv_decay: A::minus(one, decay),
                max_gain,
                max_output_amp,
                init_gain,
                amp: A::over(set_point, init_gain),
            },
        )
    }

    /// The gain control that [`Self::new`] creates.
    pub open spec fn fresh(
        set_point: A::R,
        attack: A::R,
        decay: A::R,
        max_gain: A::R,
        max_output_amp: A::R,
        init_gain: A::R,
    ) -> Self {
        Agc {
            set_point,
            attack,
            inv_attack: A::difference(A::integer_value(1), attack),
            decay,
            inv_decay: A::difference(A::integer_value(1), decay),
            max_gain,
            max_output_amp,
            init_gain,
            amp: A::quotient(set_point, init_gain),
        }
    }

    /// The gain control with the gain that it started with.
    pub open spec fn cleared(self) -> Self {
        Agc { amp: A::quotient(self.set_point, self.init_gain), ..self }
    }

    /// Goes back to the gain that the control started with.
    pub fn reset(&mut self)
        ensures
            *final(self) == old(self).cleared(),
    {
        self.amp = A::over(self.set_point, self.init_gain);
    }

    /// The gain at the estimate `amp`.
    pub open spec fn gain_at(self, amp: A::R) -> A::R {
        A::lesser(A::quotient(self.set_point, amp), self.max_gain)
    }

    /// The control with the estimate moved towards the amplitude `amp`.
    pub open spec fn followed(self, amp: A::R) -> Self {
        Agc {
            amp: if A::less(self.amp, amp) {
                A::sum(A::product(self.amp, self.inv_attack), A::product(amp, self.attack))
            } else {
                A::sum(A::product(self.amp, self.inv_decay), A::product(amp, self.decay))
            },
            ..self
        }
    }

    /// The control after a sample of the amplitude `amp`, and the gain of that
    /// sample, where the output does not exceed its limit.
    pub open spec fn tried(self, amp: A::R) -> (Self, A::R) {
        if A::equal(amp, A::integer_value(0)) {
            (self, A::integer_value(1))
        } else {
            let next = self.followed(amp);
            (next, next.gain_at(next.amp))
        }
    }

    /// The control after the sample `i` of a block with the amplitudes `amps`,
    /// and the gain of that sample. Silence leaves the estimate alone. Where
    /// the output would exceed its limit, the estimate jumps to the greatest
    /// amplitude of the rest of the block.
    pub open spec fn sampled(self, amps: Seq<A::R>, i: int) -> (Self, A::R) {
        let (next, gain) = self.tried(amps[i]);
        if A::less(self.max_output_amp, A::product(amps[i], gain)) {
            let most = peak::<A>(amps, i, amps.len() as int);
            (Agc { amp: most, ..self }, self.gain_at(most))
        } else {
            (next, gain)
        }
    }

    /// The control after the first `n` samples of a block with the amplitudes
    /// `amps`, and the gains of these samples.
    pub open spec fn gains(self, amps: Seq<A::R>, n: nat) -> (Self, Seq<A::R>)
        decreases n,
    {
        if n == 0 {
            (self, Seq::empty())
        } else {
            let (before, gains) = self.gains(amps, (n - 1) as nat);
            let (after, gain) = before.sampled(amps, n - 1);
            (after, gains.push(gain))
        }
    }

    /// What comes out for the samples `xs`.
    pub open spec fn levelled(self, xs: Seq<A::R>) -> Seq<A::R> {
        let amps = amplitudes::<A>(xs);
        Seq::new(xs.len(), |i: int| A::product(xs[i], self.gains(amps, amps.len()).1[i]))
    }

    /// What comes out for the complex samples `xs`.
    pub open spec fn levelled_complex(self, xs: Seq<Complex<A::R>>) -> Seq<Complex<A::R>> {
        let amps = complex_amplitudes::<A>(xs);
        Seq::new(
            xs.len(),
            |i: int| complex::scaled::<A>(xs[i], self.gains(amps, amps.len()).1[i]),
        )
    }

    /// Brings the samples of `input` to the amplitude that is to be reached.
    pub fn process_f32(&mut self, input: &[A::R], output: &mut [A::R]) -> (r: Result<
        usize,
        DspError,
    >)
        ensures
            match r {
                Err(e) => {
                    &&& old(output)@.len() < input@.len()
                    &&& e == DspError::BufferTooSmall {
                        need: input@.len() as usize,
                        got: old(output)@.len() as usize,
                    }
                    &&& *final(self) == *old(self)
                    &&& final(output)@ == old(output)@
                },
                Ok(n) => {
                    &&& n == input@.len() <= old(output)@.len()
                    &&& *final(self) == old(self).gains(
                        amplitudes::<A>(input@),
                        input@.len(),
                    ).0
                    &&& final(output)@ == overwritten(
                        old(output)@,
                        old(self).levelled(input@),
                    )
                },
            },
    {
        if output.len() < input.len() {
            return Err(DspError::BufferTooSmall { need: input.len(), got: output.len() });
        }
        let ghost amps = amplitudes::<A>(input@);
        let ghost made = self.levelled(input@);
        let mut i: usize = 0;
        while i < input.len()
            invariant
                i <= input@.len() == amps.len() <= output@.len(),
                output@.len() == old(output)@.len(),
                amps == amplitudes::<A>(input@),
                made == old(self).levelled(input@),
                *self == old(self).gains(amps, i as nat).0,
                output@ =~= overwritten(old(output)@, made.take(i as int)),
            decreases input.len() - i,
        {
            let gain: A::R = match self.update_gain(A::abs(input[i])) {
                Some(gain) => gain,
                None => self.jump(loudest::<A>(input, i)),
            };
            proof {
                gains_stable(*old(self), amps, i as nat, i as nat);
                gains_stable(*old(self), amps, (i + 1) as nat, amps.len());
                assert(old(self).gains(amps, (i + 1) as nat).1[i as int] == gain);
                assert(old(self).gains(amps, amps.len()).1[i as int] == gain);
            }
            output[i] = A::times(input[i], gain);
            i = i + 1;
        }
        assert(made.take(i as int) =~= made);
        Ok(input.len())
    }

    /// Brings the complex samples of `input` to the amplitude that is to be
    /// reached.
    pub fn process_complex(
        &mut self,
        input: &[Complex<A::R>],
        output: &mut [Complex<A::R>],
    ) -> (r: Result<usize, DspError>)
        ensures
            match r {
                Err(e) => {
                    &&& old(output)@.len() < input@.len()
                    &&& e == DspError::BufferTooSmall {
                        need: input@.len() as usize,
                        got: old(output)@.len() as usize,
                    }
                    &&& *final(self) == *old(self)
                    &&& final(output)@ == old(output)@
                },
                Ok(n) => {
                    &&& n == input@.len() <= old(output)@.len()
                    &&& *final(self) == old(self).gains(
                        complex_amplitudes::<A>(input@),
                        input@.len(),
                    ).0
                    &&& final(output)@ == overwritten(
                        old(output)@,
                        old(self).levelled_complex(input@),
                    )
                },
            },
    {
        if output.len() < input.len() {
            return Err(DspError::BufferTooSmall { need: input.len(), got: output.len() });
        }
        let ghost amps = complex_amplitudes::<A>(input@);
        let ghost made = self.levelled_complex(input@);
        let mut i: usize = 0;
        while i < input.len()
            invariant
                i <= input@.len() == amps.len() <= output@.len(),
                output@.len() == old(output)@.len(),
                amps == complex_amplitudes::<A>(input@),
                made == old(self).levelled_complex(input@),
                *self == old(self).gains(amps, i as nat).0,
                output@ =~= overwritten(old(output)@, made.take(i as int)),
            decreases input.len() - i,
        {
            let gain: A::R = match self.update_gain(complex::amplitude::<A>(input[i])) {
                Some(gain) => gain,
                None => self.jump(loudest_complex::<A>(input, i)),
            };
            proof {
                gains_stable(*old(self), amps, i as nat, i as nat);
                gains_stable(*old(self), amps, (i + 1) as nat, amps.len());
                assert(old(self).gains(amps, (i + 1) as nat).1[i as int] == gain);
                assert(old(self).gains(amps, amps.len()).1[i as int] == gain);
            }
            output[i] = complex::scale::<A>(input[i], gain);
            i = i + 1;
        }
        assert(made.take(i as int) =~= made);
        Ok(input.len())
    }

    /// Moves the estimate towards the amplitude `amp` and returns the gain;
    /// nothing, with the estimate as it was, where the output would exceed its
    /// limit.
    fn update_gain(&mut self, amp: A::R) -> (r: Option<A::R>)
        ensures
            ({
                let (next, gain) = old(self).tried(amp);
                if A::less(old(self).max_output_amp, A::product(amp, gain)) {
                    r is None && *final(self) == *old(self)
                } else {
                    r == Some(gain) && *final(self) == next
                }
            }),
    {
        let before: A::R = self.amp;
        let gain: A::R = if A::same(amp, A::integer(0)) {
            A::integer(1)
        } else {
            self.amp = if A::lt(self.amp, amp) {
                A::plus(A::times(self.amp, self.inv_attack), A::times(amp, self.attack))
            } else {
                A::plus(A::times(self.amp, self.inv_decay), A::times(amp, self.decay))
            };
            A::min(A::over(self.set_point, self.amp), self.max_gain)
        };
        if A::lt(self.max_output_amp, A::times(amp, gain)) {
            self.amp = before;
            return None;
        }
        Some(gain)
    }

    /// Sets the estimate to `amp` and returns the gain.
    fn jump(&mut self, amp: A::R) -> (gain: A::R)
        ensures
            *final(self) == (Agc { amp, ..*old(self) }),
            gain == old(self).gain_at(amp),
    {
        self.amp = amp;
        A::min(A::over(self.set_point, amp), self.max_gain)
    }
}

/// The greatest amplitude of the samples from `from` on.
fn loudest<A: Arithmetic>(input: &[A::R], from: usize) -> (most: A::R)
    requires
        from <= input@.len(),
    ensures
        most == peak::<A>(amplitudes::<A>(input@), from as int, input@.len() as int),
{
    let mut most: A::R = A::integer(0);
    let mut j: usize = from;
    while j < input.len()
        invariant
            from <= j <= input@.len(),
            most == peak::<A>(amplitudes::<A>(input@), from as int, j as int),
        decreases input.len() - j,
    {
        let amp: A::R = A::abs(input[j]);
        if A::lt(most, amp) {
            most = amp;
        }
        j = j + 1;
    }
    most
}

/// The greatest amplitude of the complex samples from `from` on.
fn loudest_complex<A: Arithmetic>(input: &[Complex<A::R>], from: usize) -> (most: A::R)
    requires
        from <= input@.len(),
    ensures
        most == peak::<A>(complex_amplitudes::<A>(input@), from as int, input@.len() as int),
{
    let mut most: A::R = A::integer(0);
    let mut j: usize = from;
    while j < input.len()
        invariant
            from <= j <= input@.len(),
            most == peak::<A>(complex_amplitudes::<A>(input@), from as int, j as int),
        decreases input.len() - j,
    {
        let amp: A::R = complex::amplitude::<A>(input[j]);
        if A::lt(most, amp) {
            most = amp;
        }
        j = j + 1;
    }
    most
}

/// The amplitudes of the samples `xs`.
pub open spec fn amplitudes<A: Arithmetic>(xs: Seq<A::R>) -> Seq<A::R> {
    Seq::new(xs.len(), |i: int| A::magnitude(xs[i]))
}

/// The amplitudes of the complex samples `xs`.
pub open spec fn complex_amplitudes<A: Arithmetic>(xs: Seq<Complex<A::R>>) -> Seq<A::R> {
    Seq::new(xs.len(), |i: int| complex::modulus::<A>(xs[i]))
}

/// The gain of a sample does not depend on how many samples behind it have had
/// theirs computed.
pub proof fn gains_stable<A: Arithmetic>(agc: Agc<A>, amps: Seq<A::R>, n: nat, m: nat)
    requires
        n <= m,
    ensures
        agc.gains(amps, n).1 == agc.gains(amps, m).1.take(n as int),
        agc.gains(amps, n).1.len() == n,
        agc.gains(amps, m).1.len() == m,
    decreases m,
{
    if n < m {
        gains_stable(agc, amps, n, (m - 1) as nat);
        assert(agc.gains(amps, n).1 =~= agc.gains(amps, m).1.take(n as int));
    } else if m > 0 {
        gains_stable(agc, amps, (m - 1) as nat, (m - 1) as nat);
        assert(agc.gains(amps, n).1 =~= agc.gains(amps, m).1.take(n as int));
    } else {
        assert(agc.gains(amps, n).1 =~= agc.gains(amps, m).1.take(n as int));
    }
}

/// Loop that gives out a phasor in step with the phase of its input.
pub struct Pll<A: Arithmetic> {
    /// The loop that follows the phase.
    pub pcl: PhaseControlLoop<A>,
    /// Phase to start with.
    pub init_phase: A::R,
    /// Frequency to start with.
    pub init_freq: A::R,
}

impl<A: Arithmetic> Pll<A> {
    /// Whether the loop is the one that [`Self::new`] creates.
    pub open spec fn started(
        self,
        bandwidth: A::R,
        init_phase: A::R,
        init_freq: A::R,
        min_freq: A::R,
        max_freq: A::R,
    ) -> bool {
        let (alpha, beta) = PhaseControlLoop::<A>::damped(bandwidth);
        let pi = A::half_turn();
        &&& self.init_phase == init_phase
        &&& self.init_freq == init_freq
        &&& self.pcl == (PhaseControlLoop::<A> {
            alpha,
            beta,
            phase: init_phase,
            freq: init_freq,
            min_phase: A::negation(pi),
            max_phase: pi,
            min_freq,
            max_freq,
            phase_delta: A::difference(pi, A::negation(pi)),
        })
    }

    /// Creates a loop of `bandwidth` whose frequency, in radians for each
    /// sample, stays between `min_freq` and `max_freq`.
    pub fn new(
        bandwidth: A::R,
        init_phase: A::R,
        init_freq: A::R,
        min_freq: A::R,
        max_freq: A::R,
    ) -> (r: Result<Self, DspError>)
        ensures
            match r {
                Err(e) => PhaseControlLoop::<A>::refusal(
                    A::negation(A::half_turn()),
                    A::half_turn(),
                    min_freq,
                    max_freq,
                ) == Some(e@),
                Ok(f) => {
                    &&& PhaseControlLoop::<A>::refusal(
                        A::negation(A::half_turn()),
                        A::half_turn(),
                        min_freq,
                        max_freq,
                    ) is None
                    &&& f.started(bandwidth, init_phase, init_freq, min_freq, max_freq)
                },
            },
    {
        let (alpha, beta): (A::R, A::R) = PhaseControlLoop::<A>::critically_damped(bandwidth);
        match PhaseControlLoop::<A>::new(
            alpha,
            beta,
            init_phase,
            A::neg(A::pi()),
            A::pi(),
            init_freq,
            min_freq,
            max_freq,
        ) {
            Ok(pcl) => Ok(Pll { pcl, init_phase, init_freq }),
            Err(e) => Err(e),
        }
    }

    /// The loop with the phase and frequency that it started with.
    pub open spec fn cleared(self) -> Self {
        Pll {
            pcl: PhaseControlLoop { phase: self.init_phase, freq: self.init_freq, ..self.pcl },
            ..self
        }
    }

    /// Goes back to the phase and frequency that the loop started with.
    pub fn reset(&mut self)
        ensures
            *final(self) == old(self).cleared(),
    {
        self.pcl.phase = self.init_phase;
        self.pcl.freq = self.init_freq;
    }

    /// Current frequency, in radians for each sample.
    pub fn frequency(&self) -> (r: A::R)
        ensures
            r == self.pcl.freq,
    {
        self.pcl.freq
    }

    /// Current phase.
    pub fn phase(&self) -> (r: A::R)
        ensures
            r == self.pcl.phase,
    {
        self.pcl.phase
    }

    /// Follows `input` and writes the phasor of the loop to `output`.
    pub fn process(&mut self, input: &[Complex<A::R>], output: &mut [Complex<A::R>]) -> (r: Result<
        usize,
        DspError,
    >)
        ensures
            ran(*old(self), *final(self), input@, old(output)@, final(output)@, r),
    {
        drive(self, input, output)
    }
}

impl<A: Arithmetic> Block<Complex<A::R>, Complex<A::R>> for Pll<A> {
    open spec fn step(self, x: Complex<A::R>) -> (Self, Complex<A::R>) {
        let phase = self.pcl.phase;
        let error = wrapped_phase::<A>(A::difference(complex::argument::<A>(x), phase));
        (
            Pll { pcl: self.pcl.advanced(error), ..self },
            Complex { re: A::cosine(phase), im: A::sine(phase) },
        )
    }

    fn tick(&mut self, x: Complex<A::R>) -> (y: Complex<A::R>) {
        let phase: A::R = self.pcl.phase;
        let y: Complex<A::R> = Complex { re: A::cos(phase), im: A::sin(phase) };
        let error: A::R = normalize_phase::<A>(A::minus(complex::phase::<A>(x), phase));
        self.pcl.advance(error);
        y
    }
}

/// A loop without an error keeps its frequency and turns on by it.
pub proof fn no_error_no_change<A: Arithmetic>(f: PhaseControlLoop<A>)
    requires
        exact_laws::<A>(),
        A::finite(f.alpha),
        A::finite(f.beta),
        A::finite(f.freq),
        A::finite(f.phase),
        !A::less(f.freq, f.min_freq),
        !A::less(f.max_freq, f.freq),
        !A::less(f.max_phase, A::sum(f.phase, f.freq)),
        !A::less(A::sum(f.phase, f.freq), f.min_phase),
    ensures
        f.advanced(A::integer_value(0)) == (PhaseControlLoop::<A> {
            phase: A::sum(f.phase, f.freq),
            ..f
        }),
{
    zero_factor::<A>(f.alpha);
    zero_factor::<A>(f.beta);
    sum_with_zero::<A>(f.freq);
}

/// A loop whose error goes to the phase alone takes the whole error off at once
/// where its gain is one.
pub proof fn error_is_taken_off<A: Arithmetic>(f: PhaseControlLoop<A>, error: A::R)
    requires
        exact_laws::<A>(),
        f.alpha == A::integer_value(1),
        f.beta == A::integer_value(0),
        f.freq == A::integer_value(0),
        A::finite(f.phase),
        A::finite(error),
        !A::less(f.freq, f.min_freq),
        !A::less(f.max_freq, f.freq),
        !A::less(f.max_phase, A::sum(f.phase, error)),
        !A::less(A::sum(f.phase, error), f.min_phase),
    ensures
        f.advanced(error) == (PhaseControlLoop::<A> { phase: A::sum(f.phase, error), ..f }),
{
    whole_numbers::<A>(0);
    zero_factor::<A>(error);
    sum_with_zero::<A>(error);
    sum_with_zero::<A>(A::integer_value(0));
}

/// The gain of the phase and that of the frequency are in the ratio of the
/// damping to the bandwidth.
pub proof fn gains_are_in_ratio<A: Arithmetic>(bandwidth: A::R)
    requires
        exact_laws::<A>(),
        A::finite(bandwidth),
        A::finite(A::root_of_half()),
        A::sum(
            A::sum(
                A::integer_value(1),
                A::product(A::product(A::integer_value(2), A::root_of_half()), bandwidth),
            ),
            A::product(bandwidth, bandwidth),
        ) != A::integer_value(0),
    ensures
        ({
            let (alpha, beta) = PhaseControlLoop::<A>::damped(bandwidth);
            let denom = A::sum(
                A::sum(
                    A::integer_value(1),
                    A::product(A::product(A::integer_value(2), A::root_of_half()), bandwidth),
                ),
                A::product(bandwidth, bandwidth),
            );
            &&& A::product(alpha, denom) == A::product(
                A::product(A::integer_value(4), A::root_of_half()),
                bandwidth,
            )
            &&& A::product(A::product(alpha, bandwidth), denom) == A::product(
                A::product(beta, A::root_of_half()),
                denom,
            )
        }),
{
    let damping = A::root_of_half();
    let four = A::integer_value(4);
    let two = A::integer_value(2);
    whole_numbers::<A>(4);
    whole_numbers::<A>(2);
    whole_numbers::<A>(1);
    stays_finite::<A>(two, damping);
    stays_finite::<A>(A::product(two, damping), bandwidth);
    stays_finite::<A>(bandwidth, bandwidth);
    stays_finite::<A>(
        A::integer_value(1),
        A::product(A::product(two, damping), bandwidth),
    );
    let denom = A::sum(
        A::sum(A::integer_value(1), A::product(A::product(two, damping), bandwidth)),
        A::product(bandwidth, bandwidth),
    );
    stays_finite::<A>(
        A::sum(A::integer_value(1), A::product(A::product(two, damping), bandwidth)),
        A::product(bandwidth, bandwidth),
    );
    let fd = A::product(four, damping);
    let fb = A::product(four, bandwidth);
    let a = A::product(fd, bandwidth);
    let b = A::product(fb, bandwidth);
    stays_finite::<A>(four, damping);
    stays_finite::<A>(four, bandwidth);
    stays_finite::<A>(fd, bandwidth);
    stays_finite::<A>(fb, bandwidth);
    products_undo::<A>(a, denom);
    products_undo::<A>(b, denom);
    stays_finite::<A>(a, denom);
    stays_finite::<A>(b, denom);
    let alpha = A::quotient(a, denom);
    let beta = A::quotient(b, denom);
    factors_in_any_order::<A>(alpha, bandwidth, denom);
    factors_in_any_order::<A>(beta, damping, denom);
    factors_in_any_order::<A>(alpha, denom, bandwidth);
    factors_in_any_order::<A>(beta, denom, damping);
    factors_in_any_order::<A>(four, damping, bandwidth);
    factors_in_any_order::<A>(fb, bandwidth, damping);
    assert(A::product(a, bandwidth) == A::product(A::product(fb, damping), bandwidth));
    assert(A::product(b, damping) == A::product(A::product(fb, damping), bandwidth));
}

/// A phase-locked loop that points where its input points gives out that
/// direction, keeps its frequency and turns on by it.
pub proof fn locked_loop_turns_on<A: Arithmetic>(f: Pll<A>, x: Complex<A::R>)
    requires
        exact_laws::<A>(),
        A::angle(x.im, x.re) == f.pcl.phase,
        A::finite(A::half_turn()),
        A::remainder(
            A::sum(A::integer_value(0), A::half_turn()),
            A::product(A::integer_value(2), A::half_turn()),
        ) == A::sum(A::integer_value(0), A::half_turn()),
        !A::at_most(A::integer_value(0), A::negation(A::half_turn())),
        A::finite(f.pcl.alpha),
        A::finite(f.pcl.beta),
        A::finite(f.pcl.freq),
        A::finite(f.pcl.phase),
        !A::less(f.pcl.freq, f.pcl.min_freq),
        !A::less(f.pcl.max_freq, f.pcl.freq),
        !A::less(f.pcl.max_phase, A::sum(f.pcl.phase, f.pcl.freq)),
        !A::less(A::sum(f.pcl.phase, f.pcl.freq), f.pcl.min_phase),
    ensures
        f.step(x).1 == (Complex {
            re: A::cosine(A::angle(x.im, x.re)),
            im: A::sine(A::angle(x.im, x.re)),
        }),
        f.step(x).0.pcl.freq == f.pcl.freq,
        f.step(x).0.pcl.phase == A::sum(f.pcl.phase, f.pcl.freq),
{
    sums_undo::<A>(f.pcl.phase, f.pcl.phase);
    whole_numbers::<A>(0);
    small_angle_stays::<A>(A::integer_value(0));
    no_error_no_change::<A>(f.pcl);
}

/// A steady signal comes out at the set point: a gain control that has settled
/// on its amplitude stays there.
pub proof fn steady_signal_is_levelled<A: Arithmetic>(
    set_point: A::R,
    attack: A::R,
    decay: A::R,
    max_gain: A::R,
    max_output_amp: A::R,
    init_gain: A::R,
    amp: A::R,
    len: nat,
    n: nat,
)
    requires
        exact_laws::<A>(),
        n <= len,
        A::finite(amp),
        A::finite(set_point),
        A::finite(attack),
        A::finite(decay),
        amp != A::integer_value(0),
        !A::equal(amp, A::integer_value(0)),
        A::lesser(A::quotient(set_point, amp), max_gain) == A::quotient(set_point, amp),
        !A::less(max_output_amp, set_point),
    ensures
        ({
            let f = Agc {
                amp,
                ..Agc::<A>::fresh(
                    set_point,
                    attack,
                    decay,
                    max_gain,
                    max_output_amp,
                    init_gain,
                )
            };
            let (after, gains) = f.gains(repeated(amp, len), n);
            &&& after == f
            &&& gains == repeated(A::quotient(set_point, amp), n)
            &&& A::product(amp, A::quotient(set_point, amp)) == set_point
        }),
    decreases n,
{
    let f = Agc {
        amp,
        ..Agc::<A>::fresh(set_point, attack, decay, max_gain, max_output_amp, init_gain)
    };
    let gain = A::quotient(set_point, amp);
    products_undo::<A>(set_point, amp);
    if n == 0 {
        assert(f.gains(repeated(amp, len), n).1 =~= repeated(gain, n));
    } else {
        steady_signal_is_levelled::<A>(
            set_point,
            attack,
            decay,
            max_gain,
            max_output_amp,
            init_gain,
            amp,
            len,
            (n - 1) as nat,
        );
        weights_keep::<A>(amp, attack);
        weights_keep::<A>(amp, decay);
        assert(f.followed(amp) == f);
        assert(f.sampled(repeated(amp, len), n - 1) == (f, gain));
        assert(f.gains(repeated(amp, len), n).1 =~= repeated(gain, n));
    }
}

/// A gain control with the attack one follows a louder signal at once, and one
/// with the decay one a quieter one; with an attack or a decay of zero it does
/// not follow at all.
pub proof fn attack_and_decay<A: Arithmetic>(
    set_point: A::R,
    max_gain: A::R,
    max_output_amp: A::R,
    init_gain: A::R,
    before: A::R,
    amp: A::R,
)
    requires
        exact_laws::<A>(),
        A::finite(before),
        A::finite(amp),
    ensures
        ({
            let zero = A::integer_value(0);
            let one = A::integer_value(1);
            let fast_up = Agc {
                amp: before,
                ..Agc::<A>::fresh(set_point, one, zero, max_gain, max_output_amp, init_gain)
            };
            let fast_down = Agc {
                amp: before,
                ..Agc::<A>::fresh(set_point, zero, one, max_gain, max_output_amp, init_gain)
            };
            if A::less(before, amp) {
                &&& fast_up.followed(amp).amp == amp
                &&& fast_down.followed(amp).amp == before
            } else {
                &&& fast_up.followed(amp).amp == before
                &&& fast_down.followed(amp).amp == amp
            }
        }),
{
    let zero = A::integer_value(0);
    let one = A::integer_value(1);
    whole_numbers::<A>(0);
    whole_numbers::<A>(1);
    sums_undo::<A>(one, one);
    sum_with_zero::<A>(one);
    zero_factor::<A>(before);
    zero_factor::<A>(amp);
    sum_with_zero::<A>(amp);
    sum_with_zero::<A>(before);
}

/// No amplitude from `from` on is louder than the peak.
pub proof fn peak_is_loudest<A: Arithmetic>(amps: Seq<A::R>, from: int, to: int)
    requires
        order_laws::<A>(),
        0 <= from <= to <= amps.len(),
        comparable::<A>(A::integer_value(0)),
        forall|i: int| 0 <= i < amps.len() ==> comparable::<A>(#[trigger] amps[i]),
    ensures
        comparable::<A>(peak::<A>(amps, from, to)),
        forall|i: int|
            from <= i < to ==> A::at_most(#[trigger] amps[i], peak::<A>(amps, from, to)),
        peak::<A>(amps, from, to) == A::integer_value(0) || exists|i: int|
            from <= i < to && #[trigger] amps[i] == peak::<A>(amps, from, to),
    decreases to - from,
{
    if from < to {
        peak_is_loudest::<A>(amps, from, to - 1);
        let before = peak::<A>(amps, from, to - 1);
        let last = amps[to - 1];
        assert(comparable::<A>(last));
        assert forall|i: int| from <= i < to implies A::at_most(
            #[trigger] amps[i],
            peak::<A>(amps, from, to),
        ) by {
            if i < to - 1 {
                assert(A::at_most(amps[i], before));
            }
        }
    }
}

/// Where a sample would come out too loud, the gain is set so that the loudest
/// sample that is still to come in the block comes out at the set point.
pub proof fn loudest_comes_out_at_the_set_point<A: Arithmetic>(
    f: Agc<A>,
    amps: Seq<A::R>,
    i: int,
)
    requires
        exact_laws::<A>(),
        0 <= i < amps.len(),
        A::less(f.max_output_amp, A::product(amps[i], f.tried(amps[i]).1)),
        ({
            let loudest = peak::<A>(amps, i, amps.len() as int);
            &&& A::finite(loudest)
            &&& loudest != A::integer_value(0)
            &&& A::finite(f.set_point)
            &&& A::lesser(A::quotient(f.set_point, loudest), f.max_gain) == A::quotient(
                f.set_point,
                loudest,
            )
        }),
    ensures
        ({
            let loudest = peak::<A>(amps, i, amps.len() as int);
            let (after, gain) = f.sampled(amps, i);
            &&& after.amp == loudest
            &&& A::product(loudest, gain) == f.set_point
        }),
{
    products_undo::<A>(f.set_point, peak::<A>(amps, i, amps.len() as int));
}

} // verus!
