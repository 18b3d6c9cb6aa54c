//! Squelch, noise blanking and noise reduction.

use crate::arith::{
    comparable, got, got_instead, is_positive_finite, order_laws, positive_finite, Arithmetic,
    Widening,
};
use crate::block::{drive, ran, Block};
use crate::complex;
use crate::exact::{
    counts, exact_laws, factor_of_sum, factors_in_any_order, negation_laws, products_undo,
    stays_finite, sum_with_zero, sums_undo, weights_keep, whole_numbers, zero_factor,
};
use crate::fft::{
    dft, dft_terms, tone_falls_into_its_bin, twiddle, twiddle_angle, BlockTransform, Dft,
};
use crate::stream::{
    copy_to_front, fill_front, overwritten, repeated, scan, scan_next,
};
use crate::types::{Complex, DspError, Fault, Stereo, invalid};
use crate::window::{nuttall, nuttall_at};
use std::collections::VecDeque;
use vstd::prelude::*;

verus! {

/// Initial estimate of the noise floor, in decibels.
pub const NOISE_FLOOR_INITIAL_DB: i64 = -120;

/// Blocks before the estimate of the noise floor counts as settled.
pub const NOISE_FLOOR_SETTLE_BLOCKS: u32 = 50;

/// By how much a strong block may raise the estimate while it settles, in
/// decibels.
pub const NOISE_FLOOR_MAX_RISE_DB_PER_BLOCK: i64 = 3;

/// How far above the noise floor a signal opens the squelch, in decibels.
pub const AUTO_SQUELCH_OPEN_MARGIN_DB: i64 = 10;

/// How far above the noise floor a signal keeps the squelch open, in decibels.
pub const AUTO_SQUELCH_CLOSE_MARGIN_DB: i64 = 6;

/// Time constant of the rising squelch envelope, in microseconds.
pub const SQUELCH_ATTACK_MICROSECONDS: i64 = 2_000;

/// Time constant of the falling squelch envelope, in microseconds.
pub const SQUELCH_RELEASE_MICROSECONDS: i64 = 5_000;

/// The coefficient of a one-pole filter that closes 63 % of a gap in `tau`
/// seconds: `1 - exp(-1 / (tau rate))`; 1 where that makes no sense.
pub open spec fn one_pole<A: Arithmetic>(tau: A::R, rate: A::R) -> A::R {
    let one = A::integer_value(1);
    let minus_one = A::integer_value((-1) as i64);
    if !A::finite(rate) || !A::finite(tau) || A::at_most(rate, A::integer_value(0)) || A::at_most(
        tau,
        A::integer_value(0),
    ) {
        one
    } else {
        A::fused(A::exponential(A::quotient(minus_one, A::product(tau, rate))), minus_one, one)
    }
}

/// [`one_pole`].
pub fn envelope_coefficient<A: Arithmetic>(tau_seconds: A::R, sample_rate_hz: A::R) -> (r: A::R)
    ensures
        r == one_pole::<A>(tau_seconds, sample_rate_hz),
{
    if !A::is_finite(sample_rate_hz) || !A::is_finite(tau_seconds) || A::le(
        sample_rate_hz,
        A::integer(0),
    ) || A::le(tau_seconds, A::integer(0)) {
        return A::integer(1);
    }
    A::mul_add(
        A::exp(A::over(A::integer(-1), A::times(tau_seconds, sample_rate_hz))),
        A::integer(-1),
        A::integer(1),
    )
}

/// Gain that is ramped up and down as a squelch gate opens and closes, applied
/// to audio.
pub struct SquelchAudioEnvelope<A: Arithmetic> {
    /// Current gain.
    pub envelope_gain: A::R,
    /// Gain that is ramped to.
    pub target: A::R,
    /// Coefficient of the rising ramp.
    pub attack_coeff: A::R,
    /// Coefficient of the falling ramp.
    pub release_coeff: A::R,
}

impl<A: Arithmetic> SquelchAudioEnvelope<A> {
    /// The coefficients for audio at `rate`.
    pub open spec fn coefficients(rate: A::R) -> (A::R, A::R) {
        (
            one_pole::<A>(A::fraction_value(SQUELCH_ATTACK_MICROSECONDS, 1_000_000), rate),
            one_pole::<A>(A::fraction_value(SQUELCH_RELEASE_MICROSECONDS, 1_000_000), rate),
        )
    }

    /// The coefficient for the way to the target from here.
    pub open spec fn coefficient(self) -> A::R {
        if A::less(self.envelope_gain, self.target) {
            self.attack_coeff
        } else {
            self.release_coeff
        }
    }

    /// The gain one sample on.
    pub open spec fn ramped(target: A::R, coeff: A::R, gain: A::R) -> A::R {
        A::sum(gain, A::product(A::difference(target, gain), coeff))
    }

    /// One sample of a ramp: the gain moves on and is applied to both channels.
    pub open spec fn ramp(target: A::R, coeff: A::R) -> spec_fn(A::R, Stereo<A::R>) -> (
        A::R,
        Stereo<A::R>,
    ) {
        |gain: A::R, s: Stereo<A::R>|
            {
                let g = Self::ramped(target, coeff, gain);
                (g, Stereo { l: A::product(s.l, g), r: A::product(s.r, g) })
            }
    }

    /// Creates an envelope for a closed gate and audio at `sample_rate_hz`.
    pub fn new(sample_rate_hz: A::R) -> (r: Result<Self, DspError>)
        ensures
            match r {
                Err(e) => !positive_finite::<A>(sample_rate_hz)
                    && e@ == got::<A>("sample_rate_hz must be finite and > 0"@, sample_rate_hz),
                Ok(v) => {
                    &&& positive_finite::<A>(sample_rate_hz)
                    &&& v.envelope_gain == A::integer_value(0)
                    &&& v.target == A::integer_value(0)
                    &&& (v.attack_coeff, v.release_coeff) == Self::coefficients(sample_rate_hz)
                },
            },
    {
        if !is_positive_finite::<A>(sample_rate_hz) {
            return Err(got_instead::<A>("sample_rate_hz must be finite and > 0", sample_rate_hz));
        }
        Ok(
            SquelchAudioEnvelope {
                envelope_gain: A::integer(0),
                target: A::integer(0),
                attack_coeff: envelope_coefficient::<A>(
                    A::fraction(SQUELCH_ATTACK_MICROSECONDS, 1_000_000),
                    sample_rate_hz,
                ),
                release_coeff: envelope_coefficient::<A>(
                    A::fraction(SQUELCH_RELEASE_MICROSECONDS, 1_000_000),
                    sample_rate_hz,
                ),
            },
        )
    }

    /// Ramps to full gain for an open gate, and to zero for a closed one.
    pub fn set_gate_open(&mut self, open: bool)
        ensures
            *final(self) == (SquelchAudioEnvelope {
                target: A::integer_value(
                    if open {
                        1
                    } else {
                        0
                    },
                ),
                ..*old(self)
            }),
    {
        self.target = if open {
            A::integer(1)
        } else {
            A::integer(0)
        };
    }

    /// Changes the rate of the audio and keeps the gain.
    pub fn set_sample_rate(&mut self, sample_rate_hz: A::R) -> (r: Result<(), DspError>)
        ensures
            match r {
                Err(e) => {
                    &&& !positive_finite::<A>(sample_rate_hz)
                    &&& e@ == got::<A>("sample_rate_hz must be finite and > 0"@, sample_rate_hz)
                    &&& *final(self) == *old(self)
                },
                Ok(_) => {
                    &&& positive_finite::<A>(sample_rate_hz)
                    &&& final(self).envelope_gain == old(self).envelope_gain
                    &&& final(self).target == old(self).target
                    &&& (final(self).attack_coeff, final(self).release_coeff)
                        == Self::coefficients(sample_rate_hz)
                },
            },
    {
        if !is_positive_finite::<A>(sample_rate_hz) {
            return Err(got_instead::<A>("sample_rate_hz must be finite and > 0", sample_rate_hz));
        }
        self.attack_coeff = envelope_coefficient::<A>(
            A::fraction(SQUELCH_ATTACK_MICROSECONDS, 1_000_000),
            sample_rate_hz,
        );
        self.release_coeff = envelope_coefficient::<A>(
            A::fraction(SQUELCH_RELEASE_MICROSECONDS, 1_000_000),
            sample_rate_hz,
        );
        Ok(())
    }

    /// Goes to the state of a gate that has long been closed.
    pub fn reset(&mut self)
        ensures
            *final(self) == (SquelchAudioEnvelope {
                envelope_gain: A::integer_value(0),
                target: A::integer_value(0),
                ..*old(self)
            }),
    {
        self.envelope_gain = A::integer(0);
        self.target = A::integer(0);
    }

    /// Goes to the state of a gate that has long been open.
    pub fn reset_to_open(&mut self)
        ensures
            *final(self) == (SquelchAudioEnvelope {
                envelope_gain: A::integer_value(1),
                target: A::integer_value(1),
                ..*old(self)
            }),
    {
        self.envelope_gain = A::integer(1);
        self.target = A::integer(1);
    }

    /// Sets the gain to exactly zero once it is down by 80 decibels behind a
    /// closed gate. Returns whether the envelope is settled so.
    pub fn settle_if_closed(&mut self) -> (settled: bool)
        ensures
            settled == (!A::less(A::integer_value(0), old(self).target) && A::at_most(
                old(self).envelope_gain,
                A::fraction_value(1, 10_000),
            )),
            *final(self) == (if settled {
                SquelchAudioEnvelope { envelope_gain: A::integer_value(0), ..*old(self) }
            } else {
                *old(self)
            }),
    {
        if A::lt(A::integer(0), self.target) {
            return false;
        }
        if A::le(self.envelope_gain, A::fraction(1, 10_000)) {
            self.envelope_gain = A::integer(0);
            return true;
        }
        false
    }

    /// Applies the ramp to `buf`, in place. The coefficient is chosen once for
    /// the whole buffer.
    pub fn process_stereo(&mut self, buf: &mut [Stereo<A::R>])
        ensures
            ({
                let step = Self::ramp(old(self).target, old(self).coefficient());
                let ran = scan(step, old(self).envelope_gain, old(buf)@);
                &&& final(buf)@ == ran.1
                &&& *final(self) == (SquelchAudioEnvelope { envelope_gain: ran.0, ..*old(self) })
            }),
    {
        let coeff: A::R = if A::lt(self.envelope_gain, self.target) {
            self.attack_coeff
        } else {
            self.release_coeff
        };
        let ghost step = Self::ramp(self.target, coeff);
        let ghost samples = buf@;
        let ghost gain = self.envelope_gain;
        let mut i: usize = 0;
        while i < buf.len()
            invariant
                i <= buf@.len() == samples.len(),
                samples == old(buf)@,
                gain == old(self).envelope_gain,
                coeff == old(self).coefficient(),
                step == Self::ramp(old(self).target, coeff),
                *self == (SquelchAudioEnvelope {
                    envelope_gain: scan(step, gain, samples.take(i as int)).0,
                    ..*old(self)
                }),
                scan(step, gain, samples.take(i as int)).1.len() == i,
                buf@ =~= overwritten(samples, scan(step, gain, samples.take(i as int)).1),
            decreases buf.len() - i,
        {
            proof {
                scan_next(step, gain, samples, i as int);
            }
            self.envelope_gain = A::plus(
                self.envelope_gain,
                A::times(A::minus(self.target, self.envelope_gain), coeff),
            );
            let s: Stereo<A::R> = buf[i];
            buf[i] = Stereo {
                l: A::times(s.l, self.envelope_gain),
                r: A::times(s.r, self.envelope_gain),
            };
            i = i + 1;
        }
        assert(samples.take(i as int) =~= samples);
    }
}

/// What [`PowerSquelch`] tracks, for a log.
#[derive(Debug, Clone, Copy)]
pub struct PowerSquelchDiagnostic<T> {
    /// Whether the threshold follows the noise floor.
    pub auto_squelch: bool,
    /// Whether the squelch is open.
    pub open: bool,
    /// Estimate of the noise floor, in decibels.
    pub noise_floor_db: T,
    /// Blocks since the estimate was started.
    pub settle_count: u32,
    /// Manual threshold, in decibels.
    pub level_db: T,
    /// Level of the last block, in decibels.
    pub last_measured_db: T,
}

/// Gate that passes or mutes whole blocks by their mean amplitude.
pub struct PowerSquelch<A: Arithmetic> {
    /// Manual threshold, in decibels.
    pub level_db: A::R,
    /// Whether the squelch is open.
    pub open: bool,
    /// Whether the threshold follows the noise floor.
    pub auto_squelch: bool,
    /// Estimate of the noise floor, in decibels.
    pub noise_floor_db: A::R,
    /// Blocks since the estimate was started.
    pub settle_count: u32,
    /// Level of the last block, in decibels.
    pub last_measured_db: A::R,
    /// Whether a closed gate mutes the block.
    pub mute_closed: bool,
}

/// The amplitudes of the first `n` samples, added up in order.
pub open spec fn amplitude_sum<A: Arithmetic>(samples: Seq<Complex<A::R>>, n: nat) -> A::R
    decreases n,
{
    if n == 0 {
        A::integer_value(0)
    } else {
        A::sum(
            amplitude_sum::<A>(samples, (n - 1) as nat),
            complex::modulus::<A>(samples[n - 1]),
        )
    }
}

/// The mean amplitude of `samples`.
pub open spec fn mean_amplitude<A: Arithmetic>(samples: Seq<Complex<A::R>>) -> A::R {
    A::quotient(
        amplitude_sum::<A>(samples, samples.len()),
        A::count_value(samples.len() as usize),
    )
}

/// An amplitude in decibels, not below that of the least positive number.
pub open spec fn decibels<A: Arithmetic>(amplitude: A::R) -> A::R {
    A::product(
        A::integer_value(20),
        A::decimal_log(A::greater(amplitude, A::least_positive())),
    )
}

/// An exponential average: `alpha x + (1 - alpha) before`.
pub open spec fn averaged<A: Arithmetic>(alpha: A::R, x: A::R, before: A::R) -> A::R {
    A::fused(alpha, x, A::product(A::difference(A::integer_value(1), alpha), before))
}

fn average<A: Arithmetic>(alpha: A::R, x: A::R, before: A::R) -> (r: A::R)
    ensures
        r == averaged::<A>(alpha, x, before),
{
    A::mul_add(alpha, x, A::times(A::minus(A::integer(1), alpha), before))
}

impl<A: Arithmetic> PowerSquelch<A> {
    /// Whether the estimate of the noise floor is still settling.
    pub open spec fn settling(self) -> bool {
        self.settle_count < NOISE_FLOOR_SETTLE_BLOCKS
    }

    /// The estimate of the noise floor after a block at `measured` decibels.
    /// It follows fast while it settles, but then a block far above it raises
    /// it by a fixed step only; later it follows slowly while the squelch is
    /// closed or the block is near the floor, and very slowly otherwise.
    pub open spec fn next_floor(self, measured: A::R) -> A::R {
        let floor = self.noise_floor_db;
        if self.settling() {
            let extreme = A::sum(
                floor,
                A::product(
                    A::integer_value(AUTO_SQUELCH_OPEN_MARGIN_DB),
                    A::integer_value(2),
                ),
            );
            let capped = if A::less(extreme, measured) {
                A::sum(floor, A::integer_value(NOISE_FLOOR_MAX_RISE_DB_PER_BLOCK))
            } else {
                measured
            };
            averaged::<A>(A::fraction_value(3, 10), capped, floor)
        } else if !self.open || A::less(
            measured,
            A::sum(floor, A::integer_value(AUTO_SQUELCH_CLOSE_MARGIN_DB)),
        ) {
            averaged::<A>(A::fraction_value(2, 100), measured, floor)
        } else {
            averaged::<A>(A::fraction_value(2, 1_000), measured, floor)
        }
    }

    /// The threshold for a block at `measured` decibels: none while the
    /// estimate settles, then a margin above it that is wider for a closed
    /// gate than for an open one; the manual level without auto-squelch.
    pub open spec fn threshold(self, measured: A::R) -> A::R {
        if !self.auto_squelch {
            self.level_db
        } else if self.settling() {
            A::lowest()
        } else if self.open {
            A::sum(self.next_floor(measured), A::integer_value(AUTO_SQUELCH_CLOSE_MARGIN_DB))
        } else {
            A::sum(self.next_floor(measured), A::integer_value(AUTO_SQUELCH_OPEN_MARGIN_DB))
        }
    }

    /// Whether a block at `measured` decibels opens the squelch.
    pub open spec fn passes(self, measured: A::R) -> bool {
        A::at_most(self.threshold(measured), measured)
    }

    /// The squelch after a block at `measured` decibels.
    pub open spec fn after_level(self, measured: A::R) -> Self {
        PowerSquelch {
            open: self.passes(measured),
            last_measured_db: measured,
            noise_floor_db: if self.auto_squelch {
                self.next_floor(measured)
            } else {
                self.noise_floor_db
            },
            settle_count: if self.auto_squelch && self.settling() {
                (self.settle_count + 1) as u32
            } else {
                self.settle_count
            },
            ..self
        }
    }

    /// The squelch after the block `input`. A block without a finite level
    /// closes the squelch and leaves the estimates alone, and so does an empty
    /// one.
    pub open spec fn after(self, input: Seq<Complex<A::R>>) -> Self {
        let mean = mean_amplitude::<A>(input);
        if input.len() == 0 {
            PowerSquelch { open: false, last_measured_db: A::lowest(), ..self }
        } else if !A::finite(mean) {
            PowerSquelch { open: false, last_measured_db: A::undefined(), ..self }
        } else {
            self.after_level(decibels::<A>(mean))
        }
    }

    /// Whether the block `input` passes.
    pub open spec fn lets_through(self, input: Seq<Complex<A::R>>) -> bool {
        let mean = mean_amplitude::<A>(input);
        A::finite(mean) && (self.passes(decibels::<A>(mean)) || !self.mute_closed)
    }

    /// What comes out for the block `input`: the block, or as many zeros.
    pub open spec fn output(self, input: Seq<Complex<A::R>>) -> Seq<Complex<A::R>> {
        if self.lets_through(input) {
            input
        } else {
            repeated(complex::origin::<A>(), input.len())
        }
    }

    /// Creates a squelch with a manual threshold.
    pub fn new(level_db: A::R) -> (s: Self)
        ensures
            s == (PowerSquelch::<A> {
                level_db,
                open: false,
                auto_squelch: false,
                noise_floor_db: A::integer_value(NOISE_FLOOR_INITIAL_DB),
                settle_count: 0,
                last_measured_db: A::integer_value(NOISE_FLOOR_INITIAL_DB),
                mute_closed: true,
            }),
    {
        PowerSquelch {
            level_db,
            open: false,
            auto_squelch: false,
            noise_floor_db: A::integer(NOISE_FLOOR_INITIAL_DB),
            settle_count: 0,
            last_measured_db: A::integer(NOISE_FLOOR_INITIAL_DB),
            mute_closed: true,
        }
    }

    /// Chooses whether a closed gate mutes the block or only says so.
    pub fn set_mute_closed(&mut self, mute: bool)
        ensures
            *final(self) == (PowerSquelch { mute_closed: mute, ..*old(self) }),
    {
        self.mute_closed = mute;
    }

    /// Whether the squelch is open.
    pub fn is_open(&self) -> (r: bool)
        ensures
            r == self.open,
    {
        self.open
    }

    /// Sets the manual threshold.
    pub fn set_level(&mut self, level_db: A::R)
        ensures
            *final(self) == (PowerSquelch { level_db, ..*old(self) }),
    {
        self.level_db = level_db;
    }

    /// The squelch with the estimate of the noise floor started anew.
    pub open spec fn restarted(self) -> Self {
        PowerSquelch {
            noise_floor_db: A::integer_value(NOISE_FLOOR_INITIAL_DB),
            settle_count: 0,
            ..self
        }
    }

    fn reset_auto_squelch_tracking(&mut self)
        ensures
            *final(self) == old(self).restarted(),
    {
        self.noise_floor_db = A::integer(NOISE_FLOOR_INITIAL_DB);
        self.settle_count = 0;
    }

    /// Switches between a threshold that follows the noise floor and the
    /// manual one. The estimate starts anew as it is switched on.
    pub fn set_auto_squelch(&mut self, enabled: bool)
        ensures
            *final(self) == (if enabled {
                (PowerSquelch { auto_squelch: true, ..*old(self) }).restarted()
            } else {
                PowerSquelch { auto_squelch: false, ..*old(self) }
            }),
    {
        self.auto_squelch = enabled;
        if enabled {
            self.reset_auto_squelch_tracking();
        }
    }

    /// Starts the estimate of the noise floor anew, if it is in use.
    pub fn rearm_auto_squelch(&mut self)
        ensures
            *final(self) == (if old(self).auto_squelch {
                old(self).restarted()
            } else {
                *old(self)
            }),
    {
        if self.auto_squelch {
            self.reset_auto_squelch_tracking();
        }
    }

    /// Whether the threshold follows the noise floor.
    pub fn auto_squelch_enabled(&self) -> (r: bool)
        ensures
            r == self.auto_squelch,
    {
        self.auto_squelch
    }

    /// Estimate of the noise floor, in decibels.
    pub fn noise_floor_db(&self) -> (r: A::R)
        ensures
            r == self.noise_floor_db,
    {
        self.noise_floor_db
    }

    /// Takes the level of a block in. Returns whether it opens the squelch.
    pub fn track(&mut self, measured_db: A::R) -> (pass: bool)
        ensures
            pass == old(self).passes(measured_db),
            *final(self) == old(self).after_level(measured_db),
    {
        self.last_measured_db = measured_db;
        let threshold_db: A::R = if self.auto_squelch {
            let settling: bool = self.settle_count < NOISE_FLOOR_SETTLE_BLOCKS;
            let floor: A::R = self.noise_floor_db;
            if settling {
                self.settle_count = self.settle_count + 1;
                let extreme_threshold: A::R = A::plus(
                    floor,
                    A::times(A::integer(AUTO_SQUELCH_OPEN_MARGIN_DB), A::integer(2)),
                );
                let capped_db: A::R = if A::lt(extreme_threshold, measured_db) {
                    A::plus(floor, A::integer(NOISE_FLOOR_MAX_RISE_DB_PER_BLOCK))
                } else {
                    measured_db
                };
                self.noise_floor_db = average::<A>(A::fraction(3, 10), capped_db, floor);
            } else if !self.open || A::lt(
                measured_db,
                A::plus(floor, A::integer(AUTO_SQUELCH_CLOSE_MARGIN_DB)),
            ) {
                self.noise_floor_db = average::<A>(A::fraction(2, 100), measured_db, floor);
            } else {
                self.noise_floor_db = average::<A>(A::fraction(2, 1_000), measured_db, floor);
            }
            if settling {
                A::neg_infinity()
            } else if self.open {
                A::plus(self.noise_floor_db, A::integer(AUTO_SQUELCH_CLOSE_MARGIN_DB))
            } else {
                A::plus(self.noise_floor_db, A::integer(AUTO_SQUELCH_OPEN_MARGIN_DB))
            }
        } else {
            self.level_db
        };
        self.open = A::le(threshold_db, measured_db);
        self.open
    }

    /// Passes or mutes the block `input` and returns its length.
    pub fn process(&mut self, input: &[Complex<A::R>], output: &mut [Complex<A::R>]) -> (r: Result<
        usize,
        DspError,
    >)
        ensures
            match r {
                Err(e) => {
                    &&& old(output)@.len() < input@.len()
                    &&& e == DspError::BufferTooSmall {
                        need: input@.len() as usize,
                        got: old(output)@.len() as usize,
                    }
                    &&& *final(self) == *old(self)
                    &&& final(output)@ == old(output)@
                },
                Ok(n) => {
                    &&& n == input@.len() <= old(output)@.len()
                    &&& *final(self) == old(self).after(input@)
                    &&& final(output)@ == overwritten(old(output)@, old(self).output(input@))
                },
            },
    {
        if output.len() < input.len() {
            return Err(DspError::BufferTooSmall { need: input.len(), got: output.len() });
        }
        if input.is_empty() {
            self.open = false;
            self.last_measured_db = A::neg_infinity();
            assert(output@ =~= overwritten(old(output)@, old(self).output(input@)));
            return Ok(0);
        }
        let mut sum: A::R = A::integer(0);
        let mut i: usize = 0;
        while i < input.len()
            invariant
                i <= input@.len(),
                sum == amplitude_sum::<A>(input@, i as nat),
            decreases input.len() - i,
        {
            sum = A::plus(sum, complex::amplitude::<A>(input[i]));
            i = i + 1;
        }
        let mean: A::R = A::over(sum, A::count(input.len()));
        if !A::is_finite(mean) {
            self.last_measured_db = A::nan();
            fill_front(output, input.len(), complex::zero::<A>());
            self.open = false;
            return Ok(input.len());
        }
        let measured_db: A::R = A::times(
            A::integer(20),
            A::log10(A::max(mean, A::min_positive())),
        );
        let pass: bool = self.track(measured_db);
        if pass || !self.mute_closed {
            copy_to_front(input, output);
        } else {
            fill_front(output, input.len(), complex::zero::<A>());
        }
        Ok(input.len())
    }

    /// What the squelch tracks, for a log.
    pub fn diagnostic_snapshot(&self) -> (d: PowerSquelchDiagnostic<A::R>)
        ensures
            d == (PowerSquelchDiagnostic {
                auto_squelch: self.auto_squelch,
                open: self.open,
                noise_floor_db: self.noise_floor_db,
                settle_count: self.settle_count,
                level_db: self.level_db,
                last_measured_db: self.last_measured_db,
            }),
    {
        PowerSquelchDiagnostic {
            auto_squelch: self.auto_squelch,
            open: self.open,
            noise_floor_db: self.noise_floor_db,
            settle_count: self.settle_count,
            level_db: self.level_db,
            last_measured_db: self.last_measured_db,
        }
    }
}

/// A block without a finite level closes the squelch, is muted, and leaves the
/// estimate of the noise floor alone.
pub proof fn non_finite_block_is_ignored<A: Arithmetic>(
    s: PowerSquelch<A>,
    input: Seq<Complex<A::R>>,
)
    requires
        input.len() > 0,
        !A::finite(mean_amplitude::<A>(input)),
    ensures
        !s.after(input).open,
        s.after(input).noise_floor_db == s.noise_floor_db,
        s.after(input).settle_count == s.settle_count,
        s.output(input) == repeated(complex::origin::<A>(), input.len()),
{
}

/// With auto-squelch on, the manual level decides nothing.
pub proof fn auto_squelch_ignores_level<A: Arithmetic>(
    s: PowerSquelch<A>,
    level_db: A::R,
    input: Seq<Complex<A::R>>,
)
    requires
        s.auto_squelch,
    ensures
        (PowerSquelch { level_db, ..s }).output(input) == s.output(input),
        (PowerSquelch { level_db, ..s }).after(input) == (PowerSquelch {
            level_db,
            ..s.after(input)
        }),
{
}

/// Attenuates single samples that stand out of the signal.
pub struct NoiseBlanker<A: Arithmetic> {
    /// Weight of a sample in the average amplitude.
    pub rate: A::R,
    /// Weight of the average before it.
    pub inv_rate: A::R,
    /// How far a sample may stand out, as a factor.
    pub level: A::R,
    /// Average amplitude.
    pub amp: A::R,
}

impl<A: Arithmetic> NoiseBlanker<A> {
    /// A blanker whose average starts at one, with the weights `rate` for a new
    /// sample and the rest for the average.
    pub open spec fn fresh(rate: A::R, level: A::R) -> Self {
        NoiseBlanker {
            rate,
            inv_rate: A::difference(A::integer_value(1), rate),
            level,
            amp: A::integer_value(1),
        }
    }

    /// Creates a blanker.
    pub fn new(rate: A::R, level: A::R) -> (r: Result<Self, DspError>)
        ensures
            ({
                let zero = A::integer_value(0);
                let one = A::integer_value(1);
                let rate_ok = A::finite(rate) && !A::at_most(rate, zero) && !A::at_most(one, rate);
                let level_ok = A::finite(level) && !A::less(level, one);
                match r {
                    Err(e) => {
                        ||| !rate_ok && e@ == got::<A>("rate must be finite and in (0, 1)"@, rate)
                        ||| rate_ok && !level_ok
                            && e@ == got::<A>("level must be finite and >= 1.0"@, level)
                    },
                    Ok(b) => {
                        &&& rate_ok && level_ok
                        &&& b == Self::fresh(rate, level)
                    },
                }
            }),
    {
        if !A::is_finite(rate) || A::le(rate, A::integer(0)) || A::le(A::integer(1), rate) {
            return Err(got_instead::<A>("rate must be finite and in (0, 1)", rate));
        }
        if !A::is_finite(level) || A::lt(level, A::integer(1)) {
            return Err(got_instead::<A>("level must be finite and >= 1.0", level));
        }
        Ok(
            NoiseBlanker {
                rate,
                inv_rate: A::minus(A::integer(1), rate),
                level,
                amp: A::integer(1),
            },
        )
    }

    /// Starts the average anew.
    pub fn reset(&mut self)
        ensures
            *final(self) == (NoiseBlanker { amp: A::integer_value(1), ..*old(self) }),
    {
        self.amp = A::integer(1);
    }

    /// Processes `input` into `output` and returns the number of samples
    /// written.
    pub fn process(&mut self, input: &[Complex<A::R>], output: &mut [Complex<A::R>]) -> (r: Result<
        usize,
        DspError,
    >)
        ensures
            ran(*old(self), *final(self), input@, old(output)@, final(output)@, r),
    {
        drive(self, input, output)
    }
}

impl<A: Arithmetic> Block<Complex<A::R>, Complex<A::R>> for NoiseBlanker<A> {
    /// One sample. A sample other than zero enters the average; then a sample
    /// that exceeds the average by more than the level is brought down to it.
    open spec fn step(self, x: Complex<A::R>) -> (Self, Complex<A::R>) {
        let one = A::integer_value(1);
        let in_amp = complex::modulus::<A>(x);
        let amp = if !A::equal(in_amp, A::integer_value(0)) {
            A::sum(A::product(self.amp, self.inv_rate), A::product(in_amp, self.rate))
        } else {
            self.amp
        };
        let excess = A::quotient(in_amp, amp);
        let gain = if A::less(A::least_positive(), amp) && A::less(self.level, excess) {
            A::quotient(one, excess)
        } else {
            one
        };
        (NoiseBlanker { amp, ..self }, complex::scaled::<A>(x, gain))
    }

    fn tick(&mut self, x: Complex<A::R>) -> (y: Complex<A::R>) {
        let in_amp: A::R = complex::amplitude::<A>(x);
        if !A::same(in_amp, A::integer(0)) {
            self.amp = A::plus(
                A::times(self.amp, self.inv_rate),
                A::times(in_amp, self.rate),
            );
        }
        let gain: A::R = if A::lt(A::min_positive(), self.amp) {
            let excess: A::R = A::over(in_amp, self.amp);
            if A::lt(self.level, excess) {
                A::over(A::integer(1), excess)
            } else {
                A::integer(1)
            }
        } else {
            A::integer(1)
        };
        complex::scale::<A>(x, gain)
    }
}

/// Block length of [`FmIfNoiseReduction::new`].
pub const FM_IF_NR_FFT_SIZE: usize = 256;

/// The squared magnitude of a bin.
pub open spec fn bin_power<A: Arithmetic>(bin: Complex<A::R>) -> A::R {
    A::sum(A::product(bin.re, bin.re), A::product(bin.im, bin.im))
}

/// The strongest of the first `n` bins and its squared magnitude. The first of
/// equals counts, and bin 0 where none stands above zero.
pub open spec fn strongest_bin<A: Arithmetic>(bins: Seq<Complex<A::R>>, n: nat) -> (int, A::R)
    decreases n,
{
    if n == 0 {
        (0, A::integer_value(0))
    } else {
        let before = strongest_bin::<A>(bins, (n - 1) as nat);
        let power = bin_power::<A>(bins[n - 1]);
        if A::less(before.1, power) {
            (n - 1, power)
        } else {
            before
        }
    }
}

/// `bins` with all but the strongest set to zero.
pub open spec fn strongest_only<A: Arithmetic>(bins: Seq<Complex<A::R>>) -> Seq<Complex<A::R>> {
    let peak = strongest_bin::<A>(bins, bins.len()).0;
    Seq::new(
        bins.len(),
        |i: int|
            if i == peak {
                bins[i]
            } else {
                complex::origin::<A>()
            },
    )
}

/// `block` under `window`.
pub open spec fn windowed<A: Arithmetic>(
    window: Seq<A::R>,
    block: Seq<Complex<A::R>>,
) -> Seq<Complex<A::R>> {
    Seq::new(block.len(), |i: int| complex::scaled::<A>(block[i], window[i]))
}

/// The first `len` samples of `block`, each times `k`.
pub open spec fn each_scaled<A: Arithmetic>(
    block: Seq<Complex<A::R>>,
    len: nat,
    k: A::R,
) -> Seq<Complex<A::R>> {
    Seq::new(len, |i: int| complex::scaled::<A>(block[i], k))
}

/// Noise reduction for a narrow FM signal: of the spectrum of each block only
/// the strongest bin is kept.
///
/// Samples come out in order, each exactly once, whatever the lengths of the
/// calls.
pub struct FmIfNoiseReduction<A: Arithmetic, F: BlockTransform<A>, I: BlockTransform<A>> {
    /// Transform to frequency.
    pub fft_forward: F,
    /// Transform to time, without scaling.
    pub fft_inverse: I,
    /// Block length.
    pub fft_size: usize,
    /// Window over a block.
    pub window: Vec<A::R>,
    /// Samples that do not fill a block yet.
    pub overlap_buf: Vec<Complex<A::R>>,
    /// Samples that are done and not handed out yet.
    pub ready: VecDeque<Complex<A::R>>,
    /// Room for a block under way, kept from block to block.
    pub fft_buf: Vec<Complex<A::R>>,
}

impl<A: Arithmetic, F: BlockTransform<A>, I: BlockTransform<A>> FmIfNoiseReduction<A, F, I> {
    /// The transforms and the window are for the block length, and fewer
    /// samples than a block are held back in all.
    pub open spec fn wf(self) -> bool {
        &&& self.fft_size > 0
        &&& self.fft_forward.block_len() == self.fft_size
        &&& self.fft_inverse.block_len() == self.fft_size
        &&& self.window@.len() == self.fft_size
        &&& self.overlap_buf@.len() + self.ready@.len() < self.fft_size
    }

    /// What is fixed at creation.
    pub open spec fn same_setup(self, other: Self) -> bool {
        &&& self.fft_forward == other.fft_forward
        &&& self.fft_inverse == other.fft_inverse
        &&& self.fft_size == other.fft_size
        &&& self.window == other.window
    }

    /// What becomes of a block: the window, the transform, the strongest bin
    /// alone, the inverse transform, and the scale `1 / length`.
    pub open spec fn block_result(self, block: Seq<Complex<A::R>>) -> Seq<Complex<A::R>> {
        each_scaled::<A>(
            self.fft_inverse.transformed(
                strongest_only::<A>(
                    self.fft_forward.transformed(windowed::<A>(self.window@, block)),
                ),
            ),
            self.fft_size as nat,
            A::quotient(A::integer_value(1), A::count_value(self.fft_size)),
        )
    }

    /// What becomes of the whole blocks at the front of `stream`.
    pub open spec fn completed(self, stream: Seq<Complex<A::R>>) -> Seq<Complex<A::R>>
        decreases stream.len(),
    {
        if self.fft_size == 0 || stream.len() < self.fft_size {
            Seq::empty()
        } else {
            self.block_result(stream.take(self.fft_size as int)) + self.completed(
                stream.skip(self.fft_size as int),
            )
        }
    }

    /// What is left of `stream` behind its whole blocks.
    pub open spec fn leftover(self, stream: Seq<Complex<A::R>>) -> Seq<Complex<A::R>>
        decreases stream.len(),
    {
        if self.fft_size == 0 || stream.len() < self.fft_size {
            stream
        } else {
            self.leftover(stream.skip(self.fft_size as int))
        }
    }

    /// The samples that are done once `input` has come in.
    pub open spec fn queue(self, input: Seq<Complex<A::R>>) -> Seq<Complex<A::R>> {
        self.ready@ + self.completed(self.overlap_buf@ + input)
    }

    /// The result of the partial block, if there is one, with zeros behind it.
    pub open spec fn last_result(self) -> Seq<Complex<A::R>> {
        let held = self.overlap_buf@.len();
        if held == 0 {
            Seq::empty()
        } else {
            self.block_result(
                self.overlap_buf@ + repeated(
                    complex::origin::<A>(),
                    (self.fft_size - held) as nat,
                ),
            ).take(held as int)
        }
    }

    /// Creates a processor for blocks of [`FM_IF_NR_FFT_SIZE`] samples.
    pub fn new<D: Widening<A>>(fft_forward: F, fft_inverse: I) -> (r: Result<Self, DspError>)
        ensures
            match r {
                Err(e) => {
                    &&& fft_forward.block_len() != FM_IF_NR_FFT_SIZE || fft_inverse.block_len()
                        != FM_IF_NR_FFT_SIZE
                    &&& e@ == Fault::InvalidParameter("transforms must match the FFT size"@)
                },
                Ok(nr) => {
                    &&& nr.wf()
                    &&& nr.fft_size == FM_IF_NR_FFT_SIZE
                    &&& nr.fft_forward == fft_forward
                    &&& nr.fft_inverse == fft_inverse
                    &&& nr.overlap_buf@.len() == 0
                    &&& nr.ready@.len() == 0
                    &&& nr.window@ == Self::window_for::<D>(FM_IF_NR_FFT_SIZE)
                },
            },
    {
        Self::with_fft_size::<D>(FM_IF_NR_FFT_SIZE, fft_forward, fft_inverse)
    }

    /// The Nuttall window over a block of `size` samples.
    pub open spec fn window_for<D: Widening<A>>(size: usize) -> Seq<A::R> {
        Seq::new(
            size as nat,
            |i: int|
                D::narrowed(nuttall_at::<D>(D::count_value(i as usize), D::count_value(size))),
        )
    }

    /// Creates a processor for blocks of `fft_size` samples.
    pub fn with_fft_size<D: Widening<A>>(
        fft_size: usize,
        fft_forward: F,
        fft_inverse: I,
    ) -> (r: Result<Self, DspError>)
        ensures
            match r {
                Err(e) => {
                    ||| fft_size == 0 && e@ == Fault::InvalidParameter("FFT size must be > 0"@)
                    ||| {
                        &&& fft_size > 0
                        &&& fft_forward.block_len() != fft_size || fft_inverse.block_len()
                            != fft_size
                        &&& e@ == Fault::InvalidParameter("transforms must match the FFT size"@)
                    }
                },
                Ok(nr) => {
                    &&& nr.wf()
                    &&& nr.fft_size == fft_size
                    &&& nr.fft_forward == fft_forward
                    &&& nr.fft_inverse == fft_inverse
                    &&& nr.overlap_buf@.len() == 0
                    &&& nr.ready@.len() == 0
                    &&& nr.window@ == Self::window_for::<D>(fft_size)
                },
            },
    {
        if fft_size == 0 {
            return Err(invalid("FFT size must be > 0"));
        }
        if fft_forward.len() != fft_size || fft_inverse.len() != fft_size {
            return Err(invalid("transforms must match the FFT size"));
        }
        let len: D::R = D::count(fft_size);
        let mut window: Vec<A::R> = Vec::with_capacity(fft_size);
        let mut i: usize = 0;
        while i < fft_size
            invariant
                i <= fft_size,
                len == D::count_value(fft_size),
                window@ =~= Self::window_for::<D>(fft_size).take(i as int),
            decreases fft_size - i,
        {
            window.push(D::narrow(nuttall::<D>(D::count(i), len)));
            i = i + 1;
        }
        assert(window@ =~= Self::window_for::<D>(fft_size));
        Ok(
            FmIfNoiseReduction {
                fft_forward,
                fft_inverse,
                fft_size,
                window,
                overlap_buf: Vec::with_capacity(fft_size),
                ready: VecDeque::with_capacity(fft_size),
                fft_buf: Vec::with_capacity(fft_size),
            },
        )
    }

    /// Drops what is held back.
    pub fn reset(&mut self)
        requires
            old(self).wf(),
        ensures
            final(self).wf(),
            final(self).same_setup(*old(self)),
            final(self).overlap_buf@.len() == 0,
            final(self).ready@.len() == 0,
    {
        self.overlap_buf.clear();
        self.ready.clear();
    }

    /// Processes the block that has filled up and leaves the result in the
    /// buffer for a block under way.
    fn process_block(&mut self)
        requires
            old(self).fft_size > 0,
            old(self).fft_forward.block_len() == old(self).fft_size,
            old(self).fft_inverse.block_len() == old(self).fft_size,
            old(self).window@.len() == old(self).fft_size,
            old(self).overlap_buf@.len() == old(self).fft_size,
        ensures
            final(self).same_setup(*old(self)),
            final(self).overlap_buf == old(self).overlap_buf,
            final(self).ready == old(self).ready,
            final(self).fft_buf@ == old(self).block_result(old(self).overlap_buf@),
            final(self).fft_buf@.len() == old(self).fft_size,
    {
        let ghost block = self.overlap_buf@;
        let n: usize = self.fft_size;
        let inv_n: A::R = A::over(A::integer(1), A::count(n));
        self.fft_buf.clear();
        let mut i: usize = 0;
        while i < n
            invariant
                i <= n == block.len(),
                n == self.window@.len(),
                self.same_setup(*old(self)),
                self.overlap_buf == old(self).overlap_buf,
                self.ready == old(self).ready,
                block == self.overlap_buf@,
                self.fft_buf@ =~= windowed::<A>(self.window@, block).take(i as int),
            decreases n - i,
        {
            self.fft_buf.push(complex::scale::<A>(self.overlap_buf[i], self.window[i]));
            i = i + 1;
        }
        assert(self.fft_buf@ =~= windowed::<A>(self.window@, block));
        self.fft_forward.apply(&mut self.fft_buf);
        let peak_bin: usize = Self::find_peak(&self.fft_buf);
        let ghost bins = self.fft_buf@;
        let zero: Complex<A::R> = complex::zero::<A>();
        let mut k: usize = 0;
        while k < n
            invariant
                k <= n == self.fft_buf@.len() == bins.len(),
                self.same_setup(*old(self)),
                self.overlap_buf == old(self).overlap_buf,
                self.ready == old(self).ready,
                zero == complex::origin::<A>(),
                peak_bin == strongest_bin::<A>(bins, bins.len()).0,
                self.fft_buf@ =~= strongest_only::<A>(bins).take(k as int) + bins.skip(k as int),
            decreases n - k,
        {
            if k != peak_bin {
                self.fft_buf[k] = zero;
            }
            k = k + 1;
        }
        assert(self.fft_buf@ =~= strongest_only::<A>(bins));
        self.fft_inverse.apply(&mut self.fft_buf);
        let ghost samples = self.fft_buf@;
        let mut m: usize = 0;
        while m < n
            invariant
                m <= n == self.fft_buf@.len() == samples.len(),
                self.same_setup(*old(self)),
                self.overlap_buf == old(self).overlap_buf,
                self.ready == old(self).ready,
                self.fft_buf@ =~= each_scaled::<A>(samples, n as nat, inv_n).take(m as int)
                    + samples.skip(m as int),
            decreases n - m,
        {
            self.fft_buf[m] = complex::scale::<A>(self.fft_buf[m], inv_n);
            m = m + 1;
        }
        assert(self.fft_buf@ =~= each_scaled::<A>(samples, n as nat, inv_n));
    }

    fn find_peak(bins: &Vec<Complex<A::R>>) -> (peak: usize)
        requires
            0 < bins@.len(),
        ensures
            peak == strongest_bin::<A>(bins@, bins@.len()).0,
            peak < bins@.len(),
    {
        let mut peak_bin: usize = 0;
        let mut peak_mag: A::R = A::integer(0);
        let mut i: usize = 0;
        while i < bins.len()
            invariant
                i <= bins@.len(),
                0 < bins@.len(),
                peak_bin < bins@.len(),
                (peak_bin as int, peak_mag) == strongest_bin::<A>(bins@, i as nat),
            decreases bins.len() - i,
        {
            let bin: Complex<A::R> = bins[i];
            let mag: A::R = A::plus(A::times(bin.re, bin.re), A::times(bin.im, bin.im));
            if A::lt(peak_mag, mag) {
                peak_mag = mag;
                peak_bin = i;
            }
            i = i + 1;
        }
        peak_bin
    }

    /// Processes the partial block with zeros behind it and hands out all that
    /// is held back. The partial block is done even where `output` is refused.
    pub fn flush(&mut self, output: &mut [Complex<A::R>]) -> (r: Result<usize, DspError>)
        requires
            old(self).wf(),
        ensures
            final(self).wf(),
            final(self).same_setup(*old(self)),
            final(self).overlap_buf@.len() == 0,
            ({
                let all = old(self).ready@ + old(self).last_result();
                match r {
                    Err(e) => {
                        &&& old(output)@.len() < all.len()
                        &&& e == DspError::BufferTooSmall {
                            need: all.len() as usize,
                            got: old(output)@.len() as usize,
                        }
                        &&& final(self).ready@ == all
                        &&& final(output)@ == old(output)@
                    },
                    Ok(n) => {
                        &&& n == all.len() <= old(output)@.len()
                        &&& final(output)@ == overwritten(old(output)@, all)
                        &&& final(self).ready@.len() == 0
                    },
                }
            }),
    {
        let valid: usize = self.overlap_buf.len();
        let ghost held = self.overlap_buf@;
        if valid > 0 {
            while self.overlap_buf.len() < self.fft_size
                invariant
                    self.fft_size == old(self).fft_size,
                    self.same_setup(*old(self)),
                    self.ready == old(self).ready,
                    held == old(self).overlap_buf@,
                    valid == held.len(),
                    valid <= self.overlap_buf@.len() <= self.fft_size,
                    self.overlap_buf@ =~= held + repeated(
                        complex::origin::<A>(),
                        (self.overlap_buf@.len() - valid) as nat,
                    ),
                decreases self.fft_size - self.overlap_buf.len(),
            {
                self.overlap_buf.push(complex::zero::<A>());
            }
            self.process_block();
            self.queue_up(valid);
            self.overlap_buf.clear();
        }
        let ghost all = old(self).ready@ + old(self).last_result();
        assert(self.ready@ =~= all);
        let pending: usize = self.ready.len();
        if output.len() < pending {
            return Err(DspError::BufferTooSmall { need: pending, got: output.len() });
        }
        self.hand_out(output, pending);
        assert(all.take(pending as int) =~= all);
        Ok(pending)
    }

    /// Moves the first `count` samples that are done to `output`.
    fn hand_out(&mut self, output: &mut [Complex<A::R>], count: usize)
        requires
            count <= old(self).ready@.len(),
            count <= old(output)@.len(),
        ensures
            final(self).same_setup(*old(self)),
            final(self).overlap_buf == old(self).overlap_buf,
            final(self).ready@ == old(self).ready@.skip(count as int),
            final(output)@ == overwritten(old(output)@, old(self).ready@.take(count as int)),
    {
        let ghost all = self.ready@;
        let mut i: usize = 0;
        while i < count
            invariant
                i <= count <= all.len(),
                count <= output@.len() == old(output)@.len(),
                all == old(self).ready@,
                self.same_setup(*old(self)),
                self.overlap_buf == old(self).overlap_buf,
                self.ready@ =~= all.skip(i as int),
                output@ =~= overwritten(old(output)@, all.take(i as int)),
            decreases count - i,
        {
            match self.ready.pop_front() {
                Some(x) => {
                    output[i] = x;
                },
                None => {},
            }
            i = i + 1;
        }
    }

    /// Takes `input` in and hands out as many samples as are done and fit.
    /// Returns how many that are.
    pub fn process(&mut self, input: &[Complex<A::R>], output: &mut [Complex<A::R>]) -> (r: Result<
        usize,
        DspError,
    >)
        requires
            old(self).wf(),
        ensures
            final(self).wf(),
            final(self).same_setup(*old(self)),
            match r {
                Err(e) => {
                    &&& old(output)@.len() < input@.len()
                    &&& e == DspError::BufferTooSmall {
                        need: input@.len() as usize,
                        got: old(output)@.len() as usize,
                    }
                    &&& *final(self) == *old(self)
                    &&& final(output)@ == old(output)@
                },
                Ok(n) => {
                    let queue = old(self).queue(input@);
                    &&& input@.len() <= old(output)@.len()
                    &&& n == (if queue.len() < old(output)@.len() {
                        queue.len()
                    } else {
                        old(output)@.len()
                    })
                    &&& final(output)@ == overwritten(old(output)@, queue.take(n as int))
                    &&& final(self).ready@ == queue.skip(n as int)
                    &&& final(self).overlap_buf@ == old(self).leftover(
                        old(self).overlap_buf@ + input@,
                    )
                },
            },
    {
        if output.len() < input.len() {
            return Err(DspError::BufferTooSmall { need: input.len(), got: output.len() });
        }
        self.take_in(input);
        proof {
            old(self).completed_len(old(self).overlap_buf@ + input@);
        }
        let emit: usize = if self.ready.len() < output.len() {
            self.ready.len()
        } else {
            output.len()
        };
        self.hand_out(output, emit);
        Ok(emit)
    }

    /// Takes `input` in and processes every block that it fills.
    fn take_in(&mut self, input: &[Complex<A::R>])
        requires
            old(self).wf(),
        ensures
            final(self).same_setup(*old(self)),
            final(self).ready@ == old(self).queue(input@),
            final(self).overlap_buf@ == old(self).leftover(old(self).overlap_buf@ + input@),
    {
        let ghost stream = self.overlap_buf@ + input@;
        let ghost mut rest = stream;
        proof {
            assert(self.ready@ + self.completed(rest) =~= self.queue(input@));
        }
        let mut i: usize = 0;
        while i < input.len()
            invariant
                i <= input@.len(),
                stream == old(self).overlap_buf@ + input@,
                self.same_setup(*old(self)),
                old(self).wf(),
                self.overlap_buf@.len() < self.fft_size,
                rest =~= self.overlap_buf@ + input@.skip(i as int),
                self.ready@ + old(self).completed(rest) == old(self).queue(input@),
                old(self).leftover(rest) == old(self).leftover(stream),
            decreases input.len() - i,
        {
            self.overlap_buf.push(input[i]);
            i = i + 1;
            assert(rest =~= self.overlap_buf@ + input@.skip(i as int));
            if self.overlap_buf.len() == self.fft_size {
                self.process_block();
                let ghost done = self.ready@;
                proof {
                    assert(rest.take(self.fft_size as int) =~= self.overlap_buf@);
                    assert(rest.skip(self.fft_size as int) =~= input@.skip(i as int));
                    assert(self.fft_buf@ == old(self).block_result(
                        rest.take(self.fft_size as int),
                    ));
                }
                self.queue_up(self.fft_size);
                self.overlap_buf.clear();
                proof {
                    let next = rest.skip(self.fft_size as int);
                    assert(self.ready@ + old(self).completed(next) =~= done + old(self).completed(
                        rest,
                    ));
                    rest = next;
                }
            }
        }
        proof {
            assert(rest =~= self.overlap_buf@);
            assert(self.ready@ + Seq::<Complex<A::R>>::empty() =~= self.ready@);
        }
    }

    /// Puts the first `count` samples of the block under way behind those that
    /// are done.
    fn queue_up(&mut self, count: usize)
        requires
            count <= old(self).fft_buf@.len(),
        ensures
            final(self).same_setup(*old(self)),
            final(self).overlap_buf == old(self).overlap_buf,
            final(self).ready@ == old(self).ready@ + old(self).fft_buf@.take(count as int),
    {
        let mut i: usize = 0;
        while i < count
            invariant
                i <= count <= self.fft_buf@.len(),
                self.same_setup(*old(self)),
                self.overlap_buf == old(self).overlap_buf,
                self.fft_buf == old(self).fft_buf,
                self.ready@ =~= old(self).ready@ + self.fft_buf@.take(i as int),
            decreases count - i,
        {
            self.ready.push_back(self.fft_buf[i]);
            i = i + 1;
        }
    }

    /// No sample is lost or doubled: what is done and what is left over make
    /// up the length of the stream, and less than a block is left over.
    pub proof fn completed_len(self, stream: Seq<Complex<A::R>>)
        requires
            self.fft_size > 0,
        ensures
            self.completed(stream).len() + self.leftover(stream).len() == stream.len(),
            self.leftover(stream).len() < self.fft_size,
        decreases stream.len(),
    {
        if stream.len() >= self.fft_size {
            self.completed_len(stream.skip(self.fft_size as int));
        }
    }
}

/// What comes out does not depend on how the stream is cut into calls: the
/// blocks that `xs + ys` fills are those that `xs` fills and then those that
/// `ys` fills behind what `xs` leaves over.
pub proof fn fm_if_append<A: Arithmetic, F: BlockTransform<A>, I: BlockTransform<A>>(
    nr: FmIfNoiseReduction<A, F, I>,
    xs: Seq<Complex<A::R>>,
    ys: Seq<Complex<A::R>>,
)
    requires
        nr.fft_size > 0,
    ensures
        nr.completed(xs + ys) == nr.completed(xs) + nr.completed(nr.leftover(xs) + ys),
        nr.leftover(xs + ys) == nr.leftover(nr.leftover(xs) + ys),
    decreases xs.len(),
{
    let n = nr.fft_size as int;
    if xs.len() < n {
        assert(nr.completed(xs) + nr.completed(xs + ys) =~= nr.completed(xs + ys));
    } else {
        fm_if_append(nr, xs.skip(n), ys);
        assert((xs + ys).take(n) =~= xs.take(n));
        assert((xs + ys).skip(n) =~= xs.skip(n) + ys);
        let block = nr.block_result(xs.take(n));
        assert(block + (nr.completed(xs.skip(n)) + nr.completed(nr.leftover(xs.skip(n)) + ys))
            =~= (block + nr.completed(xs.skip(n))) + nr.completed(nr.leftover(xs.skip(n)) + ys));
    }
}

/// Two calls hand out, in order, the front of what one call with both inputs
/// would have queued: `first` after `xs`, then `second` after `ys`, and the
/// rest stays queued.
pub proof fn fm_if_two_calls<A: Arithmetic, F: BlockTransform<A>, I: BlockTransform<A>>(
    nr: FmIfNoiseReduction<A, F, I>,
    between: FmIfNoiseReduction<A, F, I>,
    xs: Seq<Complex<A::R>>,
    ys: Seq<Complex<A::R>>,
    first: int,
)
    requires
        nr.wf(),
        0 <= first <= nr.queue(xs).len(),
        between.same_setup(nr),
        between.ready@ == nr.queue(xs).skip(first),
        between.overlap_buf@ == nr.leftover(nr.overlap_buf@ + xs),
    ensures
        nr.queue(xs).take(first) + between.queue(ys) == nr.queue(xs + ys),
        between.leftover(between.overlap_buf@ + ys) == nr.leftover(nr.overlap_buf@ + (xs + ys)),
{
    let held = nr.overlap_buf@;
    fm_if_append(nr, held + xs, ys);
    same_completed(nr, between, between.overlap_buf@ + ys);
    assert(held + (xs + ys) =~= (held + xs) + ys);
    let more = nr.completed(between.overlap_buf@ + ys);
    assert(nr.queue(xs).take(first) + (nr.queue(xs).skip(first) + more) =~= nr.queue(xs) + more);
    assert((nr.ready@ + nr.completed(held + xs)) + more =~= nr.ready@ + (nr.completed(held + xs)
        + more));
}

proof fn same_completed<A: Arithmetic, F: BlockTransform<A>, I: BlockTransform<A>>(
    a: FmIfNoiseReduction<A, F, I>,
    b: FmIfNoiseReduction<A, F, I>,
    stream: Seq<Complex<A::R>>,
)
    requires
        b.same_setup(a),
    ensures
        a.completed(stream) == b.completed(stream),
        a.leftover(stream) == b.leftover(stream),
    decreases stream.len(),
{
    if a.fft_size > 0 && stream.len() >= a.fft_size {
        same_completed(a, b, stream.skip(a.fft_size as int));
    }
}

/// A blanker lets a signal of steady magnitude through.
pub proof fn steady_signal_is_not_blanked<A: Arithmetic>(
    rate: A::R,
    level: A::R,
    x: Complex<A::R>,
)
    requires
        exact_laws::<A>(),
        A::finite(rate),
        A::finite(x.re),
        A::finite(x.im),
        A::finite(A::root(A::sum(A::product(x.re, x.re), A::product(x.im, x.im)))),
        A::root(A::sum(A::product(x.re, x.re), A::product(x.im, x.im))) != A::integer_value(0),
        !A::less(level, A::integer_value(1)),
    ensures
        ({
            let f = NoiseBlanker {
                amp: A::root(A::sum(A::product(x.re, x.re), A::product(x.im, x.im))),
                ..NoiseBlanker::<A>::fresh(rate, level)
            };
            f.step(x) == (f, x)
        }),
{
    let amp = A::root(A::sum(A::product(x.re, x.re), A::product(x.im, x.im)));
    weights_keep::<A>(amp, rate);
    whole_numbers::<A>(1);
    sum_with_zero::<A>(amp);
    products_undo::<A>(A::integer_value(1), amp);
    sum_with_zero::<A>(x.re);
    sum_with_zero::<A>(x.im);
}

/// A sample that exceeds the average by more than the level comes out with its
/// direction and with the magnitude of the average.
pub proof fn loud_sample_is_brought_down<A: Arithmetic>(f: NoiseBlanker<A>, x: Complex<A::R>)
    requires
        exact_laws::<A>(),
        A::finite(x.re),
        A::finite(x.im),
        ({
            let loud = A::root(A::sum(A::product(x.re, x.re), A::product(x.im, x.im)));
            let amp = f.step(x).0.amp;
            &&& A::finite(loud)
            &&& loud != A::integer_value(0)
            &&& A::finite(amp)
            &&& amp != A::integer_value(0)
            &&& A::quotient(loud, amp) != A::integer_value(0)
            &&& A::less(A::least_positive(), amp)
            &&& A::less(f.level, A::quotient(loud, amp))
        }),
    ensures
        ({
            let loud = A::root(A::sum(A::product(x.re, x.re), A::product(x.im, x.im)));
            let (after, y) = f.step(x);
            &&& A::product(y.re, loud) == A::product(x.re, after.amp)
            &&& A::product(y.im, loud) == A::product(x.im, after.amp)
        }),
{
    let loud = A::root(A::sum(A::product(x.re, x.re), A::product(x.im, x.im)));
    let amp = f.step(x).0.amp;
    let one = A::integer_value(1);
    let excess = A::quotient(loud, amp);
    whole_numbers::<A>(1);
    stays_finite::<A>(loud, amp);
    stays_finite::<A>(one, excess);
    let gain = A::quotient(one, excess);
    products_undo::<A>(loud, amp);
    products_undo::<A>(one, excess);
    assert(A::product(excess, amp) == loud);
    brought_down::<A>(x.re, gain, excess, amp);
    brought_down::<A>(x.im, gain, excess, amp);
}

proof fn brought_down<A: Arithmetic>(x: A::R, gain: A::R, excess: A::R, amp: A::R)
    requires
        exact_laws::<A>(),
        A::finite(x),
        A::finite(gain),
        A::finite(excess),
        A::finite(amp),
        A::product(gain, excess) == A::integer_value(1),
    ensures
        A::product(A::product(x, gain), A::product(excess, amp)) == A::product(x, amp),
{
    stays_finite::<A>(excess, amp);
    stays_finite::<A>(x, gain);
    stays_finite::<A>(gain, excess);
    factors_in_any_order::<A>(A::product(x, gain), excess, amp);
    factors_in_any_order::<A>(x, gain, excess);
    sum_with_zero::<A>(x);
}

/// A gate that is open all the way lets everything through.
pub proof fn open_gate_passes<A: Arithmetic>(
    f: SquelchAudioEnvelope<A>,
    xs: Seq<Stereo<A::R>>,
)
    requires
        exact_laws::<A>(),
        f.envelope_gain == A::integer_value(1),
        f.target == A::integer_value(1),
        A::finite(f.attack_coeff),
        A::finite(f.release_coeff),
        forall|i: int| 0 <= i < xs.len() ==> A::finite((#[trigger] xs[i]).l) && A::finite(xs[i].r),
    ensures
        scan(
            SquelchAudioEnvelope::<A>::ramp(f.target, f.coefficient()),
            f.envelope_gain,
            xs,
        ) == (f.envelope_gain, xs),
    decreases xs.len(),
{
    let step = SquelchAudioEnvelope::<A>::ramp(f.target, f.coefficient());
    let one = A::integer_value(1);
    if xs.len() == 0 {
        assert(xs =~= Seq::empty());
    } else {
        assert forall|i: int| 0 <= i < xs.drop_last().len() implies A::finite(
            (#[trigger] xs.drop_last()[i]).l,
        ) && A::finite(xs.drop_last()[i].r) by {
            assert(xs.drop_last()[i] == xs[i]);
        }
        open_gate_passes::<A>(f, xs.drop_last());
        let s = xs.last();
        assert(A::finite(s.l) && A::finite(s.r));
        whole_numbers::<A>(1);
        sums_undo::<A>(one, one);
        zero_factor::<A>(f.coefficient());
        sum_with_zero::<A>(one);
        sum_with_zero::<A>(s.l);
        sum_with_zero::<A>(s.r);
        assert(step(one, s) == (one, s));
        assert(xs.drop_last().push(s) =~= xs);
    }
}

/// A gate that is closed all the way is silent.
pub proof fn closed_gate_is_silent<A: Arithmetic>(
    f: SquelchAudioEnvelope<A>,
    xs: Seq<Stereo<A::R>>,
)
    requires
        exact_laws::<A>(),
        f.envelope_gain == A::integer_value(0),
        f.target == A::integer_value(0),
        A::finite(f.attack_coeff),
        A::finite(f.release_coeff),
        forall|i: int| 0 <= i < xs.len() ==> A::finite((#[trigger] xs[i]).l) && A::finite(xs[i].r),
    ensures
        scan(
            SquelchAudioEnvelope::<A>::ramp(f.target, f.coefficient()),
            f.envelope_gain,
            xs,
        ) == (
            f.envelope_gain,
            repeated(Stereo { l: A::integer_value(0), r: A::integer_value(0) }, xs.len()),
        ),
    decreases xs.len(),
{
    let step = SquelchAudioEnvelope::<A>::ramp(f.target, f.coefficient());
    let zero = A::integer_value(0);
    let silence = Stereo { l: zero, r: zero };
    if xs.len() == 0 {
        assert(repeated(silence, xs.len()) =~= Seq::empty());
    } else {
        assert forall|i: int| 0 <= i < xs.drop_last().len() implies A::finite(
            (#[trigger] xs.drop_last()[i]).l,
        ) && A::finite(xs.drop_last()[i].r) by {
            assert(xs.drop_last()[i] == xs[i]);
        }
        closed_gate_is_silent::<A>(f, xs.drop_last());
        let s = xs.last();
        assert(A::finite(s.l) && A::finite(s.r));
        whole_numbers::<A>(0);
        sums_undo::<A>(zero, zero);
        zero_factor::<A>(f.coefficient());
        sum_with_zero::<A>(zero);
        zero_factor::<A>(s.l);
        zero_factor::<A>(s.r);
        assert(step(zero, s) == (zero, silence));
        assert(repeated(silence, xs.drop_last().len()).push(silence) =~= repeated(
            silence,
            xs.len(),
        ));
    }
}

/// The gain of a gate goes from where it is to its target, by the share that its
/// coefficient says: all the way at one, and not at all at zero. An opening gate
/// goes by the attack, and a closing one by the release.
pub proof fn gain_goes_to_target<A: Arithmetic>(f: SquelchAudioEnvelope<A>)
    requires
        exact_laws::<A>(),
        A::finite(f.target),
        A::finite(f.envelope_gain),
        f.attack_coeff == A::integer_value(1),
        f.release_coeff == A::integer_value(0),
    ensures
        SquelchAudioEnvelope::<A>::ramped(f.target, f.coefficient(), f.envelope_gain) == (
        if A::less(f.envelope_gain, f.target) {
            f.target
        } else {
            f.envelope_gain
        }),
{
    stays_finite::<A>(f.target, f.envelope_gain);
    let d = A::difference(f.target, f.envelope_gain);
    sum_with_zero::<A>(d);
    zero_factor::<A>(d);
    sum_with_zero::<A>(f.envelope_gain);
    sums_undo::<A>(f.target, f.envelope_gain);
}

proof fn equal_amplitudes<A: Arithmetic>(samples: Seq<Complex<A::R>>, amplitude: A::R, n: nat)
    requires
        exact_laws::<A>(),
        n <= samples.len() <= usize::MAX,
        A::finite(amplitude),
        forall|i: int|
            0 <= i < samples.len() ==> A::root(
                A::sum(
                    A::product((#[trigger] samples[i]).re, samples[i].re),
                    A::product(samples[i].im, samples[i].im),
                ),
            ) == amplitude,
    ensures
        amplitude_sum::<A>(samples, n) == A::product(amplitude, A::count_value(n as usize)),
        A::finite(A::count_value(n as usize)),
        n > 0 ==> A::count_value(n as usize) != A::integer_value(0),
    decreases n,
{
    let one = A::integer_value(1);
    whole_numbers::<A>(1);
    counts::<A>(n as usize);
    if n == 0 {
        zero_factor::<A>(amplitude);
    } else {
        equal_amplitudes::<A>(samples, amplitude, (n - 1) as nat);
        let x = samples[n - 1];
        assert(complex::modulus::<A>(x) == amplitude);
        factor_of_sum::<A>(A::count_value((n - 1) as usize), one, amplitude);
        sum_with_zero::<A>(amplitude);
    }
}

/// A squelch that is set by hand lets a block of steady magnitude through where
/// that magnitude, in decibels, reaches the level that is set, and otherwise is
/// silent.
pub proof fn level_decides<A: Arithmetic>(
    s: PowerSquelch<A>,
    input: Seq<Complex<A::R>>,
    amplitude: A::R,
)
    requires
        exact_laws::<A>(),
        !s.auto_squelch,
        s.mute_closed,
        0 < input.len() <= usize::MAX,
        A::finite(amplitude),
        A::greater(amplitude, A::least_positive()) == amplitude,
        forall|i: int|
            0 <= i < input.len() ==> A::root(
                A::sum(
                    A::product((#[trigger] input[i]).re, input[i].re),
                    A::product(input[i].im, input[i].im),
                ),
            ) == amplitude,
    ensures
        ({
            let loud = A::product(A::integer_value(20), A::decimal_log(amplitude));
            let silence = Complex { re: A::integer_value(0), im: A::integer_value(0) };
            &&& s.output(input) == (if A::at_most(s.level_db, loud) {
                input
            } else {
                repeated(silence, input.len())
            })
            &&& s.after(input).open == A::at_most(s.level_db, loud)
            &&& s.after(input).last_measured_db == loud
        }),
{
    equal_amplitudes::<A>(input, amplitude, input.len());
    products_undo::<A>(amplitude, A::count_value(input.len() as usize));
}

/// The noise floor stays where what is measured is the floor.
pub proof fn floor_stays<A: Arithmetic>(s: PowerSquelch<A>)
    requires
        exact_laws::<A>(),
        A::finite(s.noise_floor_db),
        forall|a: A::R, b: A::R, c: A::R| #[trigger]
            A::fused(a, b, c) == A::sum(A::product(a, b), c),
        A::finite(A::fraction_value(3, 10)),
        A::finite(A::fraction_value(2, 100)),
        A::finite(A::fraction_value(2, 1_000)),
        !A::less(
            A::sum(
                s.noise_floor_db,
                A::product(A::integer_value(10), A::integer_value(2)),
            ),
            s.noise_floor_db,
        ),
    ensures
        s.next_floor(s.noise_floor_db) == s.noise_floor_db,
{
    weights_keep::<A>(s.noise_floor_db, A::fraction_value(3, 10));
    weights_keep::<A>(s.noise_floor_db, A::fraction_value(2, 100));
    weights_keep::<A>(s.noise_floor_db, A::fraction_value(2, 1_000));
}

/// The bin that the noise reduction keeps is at least as strong as every other
/// one, and the others are silenced.
pub proof fn strongest_bin_is_kept<A: Arithmetic>(bins: Seq<Complex<A::R>>, n: nat)
    requires
        order_laws::<A>(),
        n <= bins.len(),
        comparable::<A>(A::integer_value(0)),
        forall|i: int|
            0 <= i < bins.len() ==> comparable::<A>(
                A::sum(
                    A::product((#[trigger] bins[i]).re, bins[i].re),
                    A::product(bins[i].im, bins[i].im),
                ),
            ),
    ensures
        ({
            let (at, power) = strongest_bin::<A>(bins, n);
            &&& 0 <= at
            &&& n > 0 ==> at < n
            &&& comparable::<A>(power)
            &&& forall|i: int|
                0 <= i < n ==> A::at_most(
                    A::sum(
                        A::product((#[trigger] bins[i]).re, bins[i].re),
                        A::product(bins[i].im, bins[i].im),
                    ),
                    power,
                )
            &&& power == A::integer_value(0) || 0 <= at < n && power == A::sum(
                A::product(bins[at].re, bins[at].re),
                A::product(bins[at].im, bins[at].im),
            )
        }),
        strongest_only::<A>(bins)[strongest_bin::<A>(bins, bins.len()).0] == bins[strongest_bin::<A>(
            bins,
            bins.len(),
        ).0] || bins.len() == 0,
        forall|i: int|
            0 <= i < bins.len() && i != strongest_bin::<A>(bins, bins.len()).0 ==> (
            #[trigger] strongest_only::<A>(bins)[i]) == (Complex {
                re: A::integer_value(0),
                im: A::integer_value(0),
            }),
    decreases n,
{
    strongest_in_range::<A>(bins, bins.len());
    if n > 0 {
        strongest_bin_is_kept::<A>(bins, (n - 1) as nat);
        let before = strongest_bin::<A>(bins, (n - 1) as nat);
        let last = bins[n - 1];
        assert(comparable::<A>(bin_power::<A>(last)));
    }
}

proof fn strongest_in_range<A: Arithmetic>(bins: Seq<Complex<A::R>>, n: nat)
    requires
        n <= bins.len(),
    ensures
        0 <= strongest_bin::<A>(bins, n).0,
        n > 0 ==> strongest_bin::<A>(bins, n).0 < n,
    decreases n,
{
    if n > 0 {
        strongest_in_range::<A>(bins, (n - 1) as nat);
    }
}

/// An automatic squelch that has settled opens ten decibels over the noise floor,
/// and once open stays so down to six; until it has settled, whatever has a level
/// passes.
pub proof fn margins_over_the_floor<A: Arithmetic>(s: PowerSquelch<A>, measured: A::R)
    requires
        s.auto_squelch,
    ensures
        s.settle_count >= 50 && !s.open ==> s.passes(measured) == A::at_most(
            A::sum(s.after_level(measured).noise_floor_db, A::integer_value(10)),
            measured,
        ),
        s.settle_count >= 50 && s.open ==> s.passes(measured) == A::at_most(
            A::sum(s.after_level(measured).noise_floor_db, A::integer_value(6)),
            measured,
        ),
        s.settle_count < 50 ==> s.passes(measured) == A::at_most(A::lowest(), measured),
        s.settle_count < 50 ==> s.after_level(measured).settle_count == s.settle_count + 1,
{
}

/// What is left of the way to its target, an envelope keeps a share of with each
/// sample that is `exp(-1 / (tau rate))`.
pub proof fn envelope_falls_with_tau<A: Arithmetic>(tau: A::R, rate: A::R)
    requires
        exact_laws::<A>(),
        A::finite(tau),
        A::finite(rate),
        !A::at_most(tau, A::integer_value(0)),
        !A::at_most(rate, A::integer_value(0)),
        ({
            let kept = A::exponential(
                A::quotient(A::integer_value((-1) as i64), A::product(tau, rate)),
            );
            &&& A::finite(kept)
            &&& A::fused(kept, A::integer_value((-1) as i64), A::integer_value(1))
                == A::difference(A::integer_value(1), kept)
        }),
    ensures
        A::difference(A::integer_value(1), one_pole::<A>(tau, rate)) == A::exponential(
            A::quotient(A::integer_value((-1) as i64), A::product(tau, rate)),
        ),
{
    let one = A::integer_value(1);
    let kept = A::exponential(
        A::quotient(A::integer_value((-1) as i64), A::product(tau, rate)),
    );
    whole_numbers::<A>(1);
    stays_finite::<A>(one, kept);
    let rest = A::difference(one, kept);
    sums_undo::<A>(one, kept);
    sums_undo::<A>(kept, rest);
}

/// A gate opens with a time constant of two milliseconds and closes with one of
/// five.
pub proof fn gate_has_its_times<A: Arithmetic>(f: SquelchAudioEnvelope<A>, rate: A::R)
    requires
        (f.attack_coeff, f.release_coeff) == SquelchAudioEnvelope::<A>::coefficients(rate),
    ensures
        f.coefficient() == (if A::less(f.envelope_gain, f.target) {
            one_pole::<A>(A::fraction_value(2_000, 1_000_000), rate)
        } else {
            one_pole::<A>(A::fraction_value(5_000, 1_000_000), rate)
        }),
{
}

/// What the inverse transform makes of a single bin.
proof fn single_bin<A: Arithmetic>(bins: Seq<Complex<A::R>>, at: int, k: nat, n: nat)
    requires
        exact_laws::<A>(),
        n <= bins.len(),
        0 <= at < bins.len(),
        A::finite(bins[at].re),
        bins[at].im == A::integer_value(0),
        forall|i: int|
            0 <= i < bins.len() && i != at ==> (#[trigger] bins[i]) == (Complex {
                re: A::integer_value(0),
                im: A::integer_value(0),
            }),
        forall|a: A::R| A::finite(#[trigger] A::cosine(a)),
        forall|a: A::R| A::finite(#[trigger] A::sine(a)),
    ensures
        dft_terms::<A>(bins, k, true, n) == (if at < n {
            complex::scaled::<A>(
                twiddle::<A>(k * at as nat, bins.len(), true),
                bins[at].re,
            )
        } else {
            complex::origin::<A>()
        }),
    decreases n,
{
    let zero = A::integer_value(0);
    whole_numbers::<A>(0);
    if n > 0 {
        single_bin::<A>(bins, at, k, (n - 1) as nat);
        let t = twiddle::<A>(k * ((n - 1) as nat), bins.len(), true);
        assert(A::finite(t.re) && A::finite(t.im));
        zero_factor::<A>(t.re);
        zero_factor::<A>(t.im);
        sum_with_zero::<A>(zero);
        if n - 1 == at {
            let x = bins[at].re;
            stays_finite::<A>(x, t.re);
            stays_finite::<A>(x, t.im);
            factors_in_any_order::<A>(x, t.re, t.re);
            factors_in_any_order::<A>(x, t.im, t.im);
            sum_with_zero::<A>(A::product(x, t.re));
            sum_with_zero::<A>(A::product(x, t.im));
        } else if at < n - 1 {
            let u = twiddle::<A>(k * at as nat, bins.len(), true);
            assert(A::finite(u.re) && A::finite(u.im));
            stays_finite::<A>(u.re, bins[at].re);
            stays_finite::<A>(u.im, bins[at].re);
            sum_with_zero::<A>(A::product(u.re, bins[at].re));
            sum_with_zero::<A>(A::product(u.im, bins[at].re));
        }
    }
}

/// A block that holds a single tone comes out of the noise reduction as it went
/// in, where nothing is lost at a window and the tone is the strongest.
pub proof fn tone_passes<A: Arithmetic>(
    f: FmIfNoiseReduction<A, Dft, Dft>,
    block: Seq<Complex<A::R>>,
    k: nat,
)
    requires
        exact_laws::<A>(),
        negation_laws::<A>(),
        f.fft_size > 0,
        block.len() == f.fft_size == f.window@.len(),
        !f.fft_forward.inverse,
        f.fft_inverse.inverse,
        k < block.len(),
        f.window@ == repeated(A::integer_value(1), f.window@.len()),
        forall|i: int|
            0 <= i < block.len() ==> {
                let angle = A::quotient(
                    A::product(
                        A::product(A::integer_value(2), A::half_turn()),
                        A::count_value(((k * i as nat) % block.len()) as usize),
                    ),
                    A::count_value(block.len() as usize),
                );
                (#[trigger] block[i]) == (Complex { re: A::cosine(angle), im: A::sine(angle) })
            },
        forall|a: A::R| A::finite(#[trigger] A::cosine(a)),
        forall|a: A::R| A::finite(#[trigger] A::sine(a)),
        forall|a: A::R|
            A::sum(
                A::product(#[trigger] A::cosine(a), A::cosine(a)),
                A::product(A::sine(a), A::sine(a)),
            ) == A::integer_value(1),
        strongest_bin::<A>(dft::<A>(block, false), block.len()).0 == k,
    ensures
        f.block_result(block) == block,
{
    let one = A::integer_value(1);
    let size = A::count_value(f.fft_size);
    counts::<A>(f.fft_size);
    whole_numbers::<A>(1);
    let shaped = windowed::<A>(f.window@, block);
    assert forall|i: int| 0 <= i < block.len() implies shaped[i] == block[i] by {
        let angle = twiddle_angle::<A>(k * i as nat, block.len());
        assert(block[i] == (Complex { re: A::cosine(angle), im: A::sine(angle) }));
        sum_with_zero::<A>(A::cosine(angle));
        sum_with_zero::<A>(A::sine(angle));
    }
    assert(shaped =~= block);
    let bins = dft::<A>(block, false);
    tone_falls_into_its_bin::<A>(block, k, block.len());
    assert(bins[k as int] == (Complex { re: size, im: A::integer_value(0) }));
    let kept = strongest_only::<A>(bins);
    let made = dft::<A>(kept, true);
    let share = A::quotient(one, size);
    stays_finite::<A>(one, size);
    products_undo::<A>(one, size);
    assert forall|i: int| 0 <= i < block.len() implies complex::scaled::<A>(made[i], share)
        == block[i] by {
        single_bin::<A>(kept, k as int, i as nat, kept.len());
        let angle = twiddle_angle::<A>(k * i as nat, block.len());
        assert(i as nat * k == k * i as nat) by (nonlinear_arith);
        assert(block[i] == (Complex { re: A::cosine(angle), im: A::sine(angle) }));
        factors_in_any_order::<A>(A::cosine(angle), size, share);
        factors_in_any_order::<A>(A::sine(angle), size, share);
        sum_with_zero::<A>(A::cosine(angle));
        sum_with_zero::<A>(A::sine(angle));
    }
    assert(f.block_result(block) =~= block);
}

} // verus!
