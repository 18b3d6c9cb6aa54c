//! Carrier recovery for offset keying, with a lock detector and a search.

use crate::arith::{
    Arithmetic, clamp, clamped, clamped_within, comparable, got, got_instead, growth_laws,
    is_positive_finite, order_laws, positive_finite, within,
};
use crate::exact::{
    addends_in_any_order, exact_laws, negation_laws, opposite, opposite_factors, opposites,
    stays_finite, sum_with_zero, sums_undo, zero_factor,
};
use crate::loops::PhaseControlLoop;
use crate::lrpt::costas::turn_and_back;
use crate::math::{full_turn, tau};
use crate::types::{Complex, DspError, Fault};
use vstd::prelude::*;

verus! {

/// Entries of the table of hyperbolic tangents.
pub const LUT_TANH_LEN: usize = 32;

/// Entry of the table that holds the hyperbolic tangent of 0.
pub const LUT_TANH_OFFSET: i64 = 16;

/// The loop locks when the mean error falls below this.
pub const LOCK_THRESHOLD_LOW: i64 = 85;

/// The loop loses its lock when the mean error rises above this.
pub const LOCK_THRESHOLD_HIGH: i64 = 105;

/// Mean error to start with.
pub const INITIAL_ERROR: i64 = 1000;

/// Greatest frequency where the caller does not say otherwise, in radians for
/// each mix.
pub open spec fn default_range<A: Arithmetic>() -> A::R {
    A::fraction_value(3, 10)
}

/// Greatest frequency where the caller does not say otherwise, in radians for
/// each mix.
pub fn freq_max_default<A: Arithmetic>() -> (r: A::R)
    ensures
        r == default_range::<A>(),
{
    A::fraction(3, 10)
}

/// A mean that `x` has gone into: `mean (1 - 1/1000) + x / 1000`.
pub open spec fn averaged<A: Arithmetic>(mean: A::R, x: A::R) -> A::R {
    let pole = A::fraction_value(1, 1000);
    A::sum(
        A::product(mean, A::difference(A::integer_value(1), pole)),
        A::product(x, pole),
    )
}

fn average<A: Arithmetic>(mean: A::R, x: A::R) -> (r: A::R)
    ensures
        r == averaged::<A>(mean, x),
{
    let pole: A::R = A::fraction(1, 1000);
    A::plus(A::times(mean, A::minus(A::integer(1), pole)), A::times(x, pole))
}

/// The magnitude of the symbol `i + j q`.
pub open spec fn loudness<A: Arithmetic>(i: A::R, q: A::R) -> A::R {
    A::root(A::sum(A::product(i, i), A::product(q, q)))
}

/// Loop that turns the samples back by the phase of their carrier. While it is
/// not locked, it sweeps the frequency up and down.
pub struct MeteorPll<A: Arithmetic> {
    /// Current frequency, in radians for each mix.
    pub freq: A::R,
    /// Current phase.
    pub phase: A::R,
    /// How much of an error goes to the phase.
    pub alpha: A::R,
    /// How much of an error goes to the frequency.
    pub beta: A::R,
    /// Mean of the magnitudes of the errors.
    pub err_ema: A::R,
    /// Mean of the magnitudes of the symbols.
    pub sig_ema: A::R,
    /// Whether the loop is locked.
    pub locked: bool,
    /// Whether the loop has ever been locked.
    pub locked_once: bool,
    /// Greatest frequency.
    pub fmax: A::R,
    /// Direction of the sweep, 1 or -1.
    pub sweep_dir: i8,
    /// Hyperbolic tangents of the whole numbers from -16 to 15.
    pub lut_tanh: [A::R; LUT_TANH_LEN],
}

/// The table of hyperbolic tangents.
pub open spec fn tangents<A: Arithmetic>() -> Seq<A::R> {
    Seq::new(
        LUT_TANH_LEN as nat,
        |i: int| A::hyperbolic_tangent(A::integer_value((i - LUT_TANH_OFFSET) as i64)),
    )
}

impl<A: Arithmetic> MeteorPll<A> {
    /// Why a loop with these settings is not possible, where it is not.
    pub open spec fn refusal(bandwidth: A::R, freq_max: Option<A::R>) -> Option<Fault> {
        if !positive_finite::<A>(bandwidth) {
            Some(got::<A>("bandwidth must be finite and positive"@, bandwidth))
        } else if freq_max is Some && !A::finite(freq_max->0) {
            Some(got::<A>("freq_max must be finite when provided"@, freq_max->0))
        } else {
            None
        }
    }

    /// The greatest frequency: what was asked for, but not more than 1, and
    /// the default where that is negative; half of it for offset keying, which
    /// mixes twice for each symbol.
    pub open spec fn range(oqpsk: bool, freq_max: Option<A::R>) -> A::R {
        let raw = match freq_max {
            Some(f) => f,
            None => default_range::<A>(),
        };
        let bounded = if A::less(raw, A::integer_value(0)) {
            default_range::<A>()
        } else {
            A::lesser(raw, A::integer_value(1))
        };
        if oqpsk {
            A::quotient(bounded, A::integer_value(2))
        } else {
            bounded
        }
    }

    /// Whether the loop is the one that [`Self::new`] creates.
    pub open spec fn started(self, bandwidth: A::R, oqpsk: bool, freq_max: Option<A::R>) -> bool {
        let (alpha, beta) = PhaseControlLoop::<A>::damped(bandwidth);
        &&& self.freq == A::integer_value(0)
        &&& self.phase == A::integer_value(0)
        &&& self.alpha == alpha
        &&& self.beta == beta
        &&& self.err_ema == A::integer_value(INITIAL_ERROR)
        &&& self.sig_ema == A::integer_value(0)
        &&& !self.locked
        &&& !self.locked_once
        &&& self.fmax == Self::range(oqpsk, freq_max)
        &&& self.sweep_dir == 1
        &&& self.lut_tanh@ == tangents::<A>()
    }

    /// Creates a loop of `bandwidth`, in radians for each mix.
    pub fn new(bandwidth: A::R, oqpsk: bool, freq_max: Option<A::R>) -> (r: Result<
        Self,
        DspError,
    >)
        ensures
            match r {
                Err(e) => Self::refusal(bandwidth, freq_max) == Some(e@),
                Ok(f) => {
                    &&& Self::refusal(bandwidth, freq_max) is None
                    &&& f.started(bandwidth, oqpsk, freq_max)
                },
            },
    {
        if !is_positive_finite::<A>(bandwidth) {
            return Err(got_instead::<A>("bandwidth must be finite and positive", bandwidth));
        }
        let raw: A::R = match freq_max {
            Some(f) => {
                if !A::is_finite(f) {
                    return Err(
                        got_instead::<A>("freq_max must be finite when provided", f),
                    );
                }
                f
            },
            None => freq_max_default::<A>(),
        };
        let bounded: A::R = if A::lt(raw, A::integer(0)) {
            freq_max_default::<A>()
        } else {
            A::min(raw, A::integer(1))
        };
        let fmax: A::R = if oqpsk {
            A::over(bounded, A::integer(2))
        } else {
            bounded
        };
        let (alpha, beta): (A::R, A::R) = PhaseControlLoop::<A>::critically_damped(bandwidth);
        let mut lut_tanh: [A::R; LUT_TANH_LEN] = [A::integer(0);LUT_TANH_LEN];
        let mut i: usize = 0;
        while i < LUT_TANH_LEN
            invariant
                i <= LUT_TANH_LEN,
                forall|k: int| 0 <= k < i ==> lut_tanh@[k] == tangents::<A>()[k],
            decreases LUT_TANH_LEN - i,
        {
            lut_tanh[i] = A::tanh(A::integer(i as i64 - LUT_TANH_OFFSET));
            i = i + 1;
        }
        assert(lut_tanh@ =~= tangents::<A>());
        Ok(
            MeteorPll {
                freq: A::integer(0),
                phase: A::integer(0),
                alpha,
                beta,
                err_ema: A::integer(INITIAL_ERROR),
                sig_ema: A::integer(0),
                locked: false,
                locked_once: false,
                fmax,
                sweep_dir: 1,
                lut_tanh,
            },
        )
    }

    /// `sample` turned back by the phase.
    pub open spec fn turned(self, sample: Complex<A::R>) -> Complex<A::R> {
        let angle = A::negation(self.phase);
        let sine = A::sine(angle);
        let cosine = A::cosine(angle);
        Complex {
            re: A::difference(A::product(sample.re, cosine), A::product(sample.im, sine)),
            im: A::sum(A::product(sample.re, sine), A::product(sample.im, cosine)),
        }
    }

    /// The loop with the phase moved on by the frequency, and back by a turn
    /// where it has reached one.
    pub open spec fn turned_on(self) -> Self {
        let phase = A::sum(self.phase, self.freq);
        MeteorPll {
            phase: if A::at_most(full_turn::<A>(), phase) {
                A::difference(phase, full_turn::<A>())
            } else {
                phase
            },
            ..self
        }
    }

    /// Turns `sample` back by the phase, and moves the phase on.
    pub fn mix(&mut self, sample: Complex<A::R>) -> (r: Complex<A::R>)
        ensures
            r == old(self).turned(sample),
            *final(self) == old(self).turned_on(),
    {
        let angle: A::R = A::neg(self.phase);
        let (sine, cosine): (A::R, A::R) = (A::sin(angle), A::cos(angle));
        let mixed: Complex<A::R> = Complex {
            re: A::minus(A::times(sample.re, cosine), A::times(sample.im, sine)),
            im: A::plus(A::times(sample.re, sine), A::times(sample.im, cosine)),
        };
        self.advance_phase();
        mixed
    }

    /// The real part of [`Self::mix`].
    pub fn mix_i(&mut self, sample: Complex<A::R>) -> (r: A::R)
        ensures
            r == old(self).turned(sample).re,
            *final(self) == old(self).turned_on(),
    {
        let angle: A::R = A::neg(self.phase);
        let (sine, cosine): (A::R, A::R) = (A::sin(angle), A::cos(angle));
        let mixed: A::R = A::minus(A::times(sample.re, cosine), A::times(sample.im, sine));
        self.advance_phase();
        mixed
    }

    /// The imaginary part of [`Self::mix`].
    pub fn mix_q(&mut self, sample: Complex<A::R>) -> (r: A::R)
        ensures
            r == old(self).turned(sample).im,
            *final(self) == old(self).turned_on(),
    {
        let angle: A::R = A::neg(self.phase);
        let (sine, cosine): (A::R, A::R) = (A::sin(angle), A::cos(angle));
        let mixed: A::R = A::plus(A::times(sample.re, sine), A::times(sample.im, cosine));
        self.advance_phase();
        mixed
    }

    fn advance_phase(&mut self)
        ensures
            *final(self) == old(self).turned_on(),
    {
        self.phase = A::plus(self.phase, self.freq);
        if A::le(tau::<A>(), self.phase) {
            self.phase = A::minus(self.phase, tau::<A>());
        }
    }

    /// The hyperbolic tangent of `x` without its fraction, out of the table; 1
    /// or -1 outside the table.
    pub open spec fn tangent(self, x: A::R) -> A::R {
        if A::less(A::integer_value(15), x) {
            A::integer_value(1)
        } else if A::less(x, A::integer_value((-16) as i64)) {
            A::integer_value((-1) as i64)
        } else {
            let whole = A::integer_part(x);
            let at = if whole < -LUT_TANH_OFFSET {
                0
            } else if whole >= LUT_TANH_LEN - LUT_TANH_OFFSET {
                LUT_TANH_LEN - 1
            } else {
                whole + LUT_TANH_OFFSET
            };
            self.lut_tanh@[at]
        }
    }

    /// [`Self::tangent`].
    pub fn lut_tanh_lookup(&self, x: A::R) -> (r: A::R)
        ensures
            r == self.tangent(x),
    {
        if A::lt(A::integer(15), x) {
            return A::integer(1);
        }
        if A::lt(x, A::integer(-16)) {
            return A::integer(-1);
        }
        let whole: i64 = A::to_i64(x);
        let at: usize = if whole < -LUT_TANH_OFFSET {
            0
        } else if whole >= LUT_TANH_LEN as i64 - LUT_TANH_OFFSET {
            LUT_TANH_LEN - 1
        } else {
            (whole + LUT_TANH_OFFSET) as usize
        };
        self.lut_tanh[at]
    }

    /// The error of the symbol `i + j q`.
    pub open spec fn error(self, i: A::R, q: A::R) -> A::R {
        A::difference(A::product(self.tangent(i), q), A::product(self.tangent(q), i))
    }

    /// The loop with the phase and frequency moved by `error`, and the mean
    /// error updated.
    pub open spec fn corrected(self, error: A::R) -> Self {
        MeteorPll {
            phase: A::remainder(
                A::sum(self.phase, A::product(self.alpha, error)),
                full_turn::<A>(),
            ),
            freq: A::sum(self.freq, A::product(self.beta, error)),
            err_ema: averaged::<A>(self.err_ema, A::magnitude(error)),
            ..self
        }
    }

    /// Whether the symbols are strong enough for a lock.
    pub open spec fn has_signal(self) -> bool {
        A::at_most(A::fraction_value(95, 2), self.sig_ema)
    }

    /// The loop with the lock detector brought up to date.
    pub open spec fn detected(self) -> Self {
        let quiet = A::less(self.err_ema, A::integer_value(LOCK_THRESHOLD_LOW));
        let noisy = A::less(A::integer_value(LOCK_THRESHOLD_HIGH), self.err_ema);
        if quiet && self.has_signal() && !self.locked {
            MeteorPll { locked: true, locked_once: true, ..self }
        } else if (noisy || !self.has_signal()) && self.locked {
            MeteorPll { locked: false, ..self }
        } else {
            self
        }
    }

    /// The loop with the sweep moved on, unless it is locked, and with the
    /// frequency held to its range. The sweep turns round at the ends of the
    /// range.
    pub open spec fn swept(self) -> Self {
        let freq = if self.locked {
            self.freq
        } else {
            A::sum(
                self.freq,
                A::product(
                    A::fraction_value(1, 1_000_000),
                    A::integer_value(self.sweep_dir as i64),
                ),
            )
        };
        let least = A::negation(self.fmax);
        MeteorPll {
            sweep_dir: if A::at_most(self.fmax, freq) {
                -1i8
            } else if A::at_most(freq, least) {
                1
            } else {
                self.sweep_dir
            },
            freq: clamped::<A>(freq, least, self.fmax),
            ..self
        }
    }

    /// The loop after the symbol `i + j q`.
    pub open spec fn updated(self, i: A::R, q: A::R) -> Self {
        let heard = MeteorPll { sig_ema: averaged::<A>(self.sig_ema, loudness::<A>(i, q)), ..self };
        heard.corrected(self.error(i, q)).detected().swept()
    }

    /// Follows the carrier of the symbol `i + j q`.
    pub fn update_estimate(&mut self, i: A::R, q: A::R)
        ensures
            *final(self) == old(self).updated(i, q),
    {
        let error: A::R = self.compute_error(i, q);
        let magnitude: A::R = A::sqrt(A::plus(A::times(i, i), A::times(q, q)));
        self.sig_ema = average::<A>(self.sig_ema, magnitude);
        self.apply_loop_update(error);
    }

    fn compute_error(&self, re: A::R, im: A::R) -> (r: A::R)
        ensures
            r == self.error(re, im),
    {
        A::minus(
            A::times(self.lut_tanh_lookup(re), im),
            A::times(self.lut_tanh_lookup(im), re),
        )
    }

    /// Follows `error`: corrects the phase and the frequency, brings the lock
    /// detector up to date and moves the sweep on.
    pub fn apply_loop_update(&mut self, error: A::R)
        ensures
            *final(self) == old(self).corrected(error).detected().swept(),
    {
        self.phase = A::rem_euclid(
            A::plus(self.phase, A::times(self.alpha, error)),
            tau::<A>(),
        );
        self.freq = A::plus(self.freq, A::times(self.beta, error));
        self.err_ema = average::<A>(self.err_ema, A::abs(error));
        let has_signal: bool = A::le(A::fraction(95, 2), self.sig_ema);
        if A::lt(self.err_ema, A::integer(LOCK_THRESHOLD_LOW)) && has_signal && !self.locked {
            self.locked = true;
            self.locked_once = true;
        } else if (A::lt(A::integer(LOCK_THRESHOLD_HIGH), self.err_ema) || !has_signal)
            && self.locked {
            self.locked = false;
        }
        if !self.locked {
            self.freq = A::plus(
                self.freq,
                A::times(A::fraction(1, 1_000_000), A::integer(self.sweep_dir as i64)),
            );
        }
        let least: A::R = A::neg(self.fmax);
        if A::le(self.fmax, self.freq) {
            self.sweep_dir = -1;
        } else if A::le(self.freq, least) {
            self.sweep_dir = 1;
        }
        self.freq = clamp::<A>(self.freq, least, self.fmax);
    }

    /// Current frequency, in radians for each mix.
    pub fn frequency(&self) -> (r: A::R)
        ensures
            r == self.freq,
    {
        self.freq
    }

    /// Whether the loop is locked.
    pub fn is_locked(&self) -> (r: bool)
        ensures
            r == self.locked,
    {
        self.locked
    }

    /// Whether the loop has ever been locked.
    pub fn locked_once(&self) -> (r: bool)
        ensures
            r == self.locked_once,
    {
        self.locked_once
    }
}

/// A call of a [`MeteorPll`].
pub enum PllCall<R> {
    /// One of the calls that mix a sample.
    Mix,
    /// An update by a symbol with this real and this imaginary part.
    Update(R, R),
}

/// The loop after `calls`.
pub open spec fn after_calls<A: Arithmetic>(f: MeteorPll<A>, calls: Seq<PllCall<A::R>>) -> MeteorPll<
    A,
>
    decreases calls.len(),
{
    if calls.len() == 0 {
        f
    } else {
        let before = after_calls(f, calls.drop_last());
        match calls.last() {
            PllCall::Mix => before.turned_on(),
            PllCall::Update(i, q) => before.updated(i, q),
        }
    }
}

/// That the loop has been locked is never forgotten, and a loop that is locked
/// has been locked.
pub proof fn lock_is_remembered<A: Arithmetic>(f: MeteorPll<A>, calls: Seq<PllCall<A::R>>)
    ensures
        f.locked_once ==> after_calls(f, calls).locked_once,
        (f.locked ==> f.locked_once) ==> (after_calls(f, calls).locked ==> after_calls(
            f,
            calls,
        ).locked_once),
    decreases calls.len(),
{
    if calls.len() > 0 {
        lock_is_remembered(f, calls.drop_last());
    }
}

/// The frequency stays in its range, as long as it is defined.
pub proof fn frequency_stays_in_range<A: Arithmetic>(f: MeteorPll<A>, calls: Seq<PllCall<A::R>>)
    requires
        order_laws::<A>(),
        A::at_most(A::negation(f.fmax), f.fmax),
        within::<A>(f.freq, A::negation(f.fmax), f.fmax),
    ensures
        after_calls(f, calls).fmax == f.fmax,
        comparable::<A>(after_calls(f, calls).freq) ==> within::<A>(
            after_calls(f, calls).freq,
            A::negation(f.fmax),
            f.fmax,
        ),
    decreases calls.len(),
{
    if calls.len() > 0 {
        let before = after_calls(f, calls.drop_last());
        frequency_stays_in_range(f, calls.drop_last());
        match calls.last() {
            PllCall::Mix => {},
            PllCall::Update(i, q) => {
                update_in_range(before, i, q);
            },
        }
    }
}

/// After an update the frequency lies in its range, unless it is not defined.
pub proof fn update_in_range<A: Arithmetic>(f: MeteorPll<A>, i: A::R, q: A::R)
    requires
        order_laws::<A>(),
        A::at_most(A::negation(f.fmax), f.fmax),
    ensures
        f.updated(i, q).fmax == f.fmax,
        comparable::<A>(f.updated(i, q).freq) ==> within::<A>(
            f.updated(i, q).freq,
            A::negation(f.fmax),
            f.fmax,
        ),
{
    let heard = MeteorPll { sig_ema: averaged::<A>(f.sig_ema, loudness::<A>(i, q)), ..f };
    let detected = heard.corrected(f.error(i, q)).detected();
    let freq = if detected.locked {
        detected.freq
    } else {
        A::sum(
            detected.freq,
            A::product(
                A::fraction_value(1, 1_000_000),
                A::integer_value(detected.sweep_dir as i64),
            ),
        )
    };
    assert(detected.fmax == f.fmax);
    assert(f.updated(i, q).freq == clamped::<A>(freq, A::negation(f.fmax), f.fmax));
    clamped_within::<A>(freq, A::negation(f.fmax), f.fmax);
}

/// Without a signal the loop does not lock, and loses the lock that it has.
pub proof fn no_signal_no_lock<A: Arithmetic>(f: MeteorPll<A>, i: A::R, q: A::R)
    requires
        !f.updated(i, q).has_signal(),
    ensures
        !f.updated(i, q).locked,
        f.updated(i, q).locked_once == f.locked_once,
{
}

/// Whether a mean of magnitudes up to `loudest` that has not exceeded `bound`
/// does not exceed it later.
pub open spec fn averages_within<A: Arithmetic>(bound: A::R, loudest: A::R) -> bool {
    let zero = A::integer_value(0);
    forall|mean: A::R, x: A::R|
        within::<A>(mean, zero, bound) && within::<A>(x, zero, loudest) ==> within::<A>(
            #[trigger] averaged::<A>(mean, x),
            zero,
            bound,
        )
}

/// That a mean stays within its bound needs to be known of the two bounds
/// alone, where sums and products grow with their operands.
pub proof fn averages_stay_within<A: Arithmetic>(bound: A::R, loudest: A::R)
    requires
        order_laws::<A>(),
        growth_laws::<A>(),
        ({
            let zero = A::integer_value(0);
            let pole = A::fraction_value(1, 1000);
            let keep = A::difference(A::integer_value(1), pole);
            &&& A::at_most(zero, pole) && A::finite(pole)
            &&& A::at_most(zero, keep) && A::finite(keep)
            &&& comparable::<A>(A::product(bound, keep))
            &&& comparable::<A>(A::product(loudest, pole))
        }),
        A::at_most(averaged::<A>(bound, loudest), bound),
    ensures
        averages_within::<A>(bound, loudest),
{
    let zero = A::integer_value(0);
    let pole = A::fraction_value(1, 1000);
    let keep = A::difference(A::integer_value(1), pole);
    assert forall|mean: A::R, x: A::R|
        within::<A>(mean, zero, bound) && within::<A>(x, zero, loudest) implies within::<A>(
        #[trigger] averaged::<A>(mean, x),
        zero,
        bound,
    ) by {
        let kept = A::product(mean, keep);
        let more = A::product(x, pole);
        let kept_most = A::product(bound, keep);
        let more_most = A::product(loudest, pole);
        assert(within::<A>(kept, zero, kept_most));
        assert(within::<A>(more, zero, more_most));
        assert(within::<A>(A::sum(kept, more), zero, A::sum(kept_most, more_most)));
    }
}

/// Whether every symbol of `calls` is at most as loud as `loudest`.
pub open spec fn quiet<A: Arithmetic>(calls: Seq<PllCall<A::R>>, loudest: A::R) -> bool {
    forall|k: int|
        0 <= k < calls.len() ==> match #[trigger] calls[k] {
            PllCall::Mix => true,
            PllCall::Update(i, q) => within::<A>(
                loudness::<A>(i, q),
                A::integer_value(0),
                loudest,
            ),
        }
}

/// A loop never locks on symbols that are too quiet: `loudest` bounds their
/// magnitudes and `bound`, which the mean of such magnitudes does not exceed, is
/// less than a signal has.
pub proof fn silence_never_locks<A: Arithmetic>(
    f: MeteorPll<A>,
    calls: Seq<PllCall<A::R>>,
    bound: A::R,
    loudest: A::R,
)
    requires
        order_laws::<A>(),
        averages_within::<A>(bound, loudest),
        A::less(bound, A::fraction_value(95, 2)),
        quiet::<A>(calls, loudest),
        within::<A>(f.sig_ema, A::integer_value(0), bound),
        !f.locked,
        !f.locked_once,
    ensures
        within::<A>(after_calls(f, calls).sig_ema, A::integer_value(0), bound),
        !after_calls(f, calls).locked,
        !after_calls(f, calls).locked_once,
    decreases calls.len(),
{
    if calls.len() > 0 {
        let shorter = calls.drop_last();
        assert forall|k: int| 0 <= k < shorter.len() implies match #[trigger] shorter[k] {
            PllCall::Mix => true,
            PllCall::Update(i, q) => within::<A>(
                loudness::<A>(i, q),
                A::integer_value(0),
                loudest,
            ),
        } by {
            assert(shorter[k] == calls[k]);
        }
        silence_never_locks(f, shorter, bound, loudest);
        let before = after_calls(f, shorter);
        assert(calls.last() == calls[calls.len() - 1]);
        match calls.last() {
            PllCall::Mix => {},
            PllCall::Update(i, q) => {
                quiet_update(before, i, q, bound, loudest);
            },
        }
    }
}

/// [`silence_never_locks`] for one update.
pub proof fn quiet_update<A: Arithmetic>(
    f: MeteorPll<A>,
    i: A::R,
    q: A::R,
    bound: A::R,
    loudest: A::R,
)
    requires
        order_laws::<A>(),
        averages_within::<A>(bound, loudest),
        A::less(bound, A::fraction_value(95, 2)),
        within::<A>(loudness::<A>(i, q), A::integer_value(0), loudest),
        within::<A>(f.sig_ema, A::integer_value(0), bound),
        !f.locked,
        !f.locked_once,
    ensures
        within::<A>(f.updated(i, q).sig_ema, A::integer_value(0), bound),
        !f.updated(i, q).locked,
        !f.updated(i, q).locked_once,
{
    let mean = averaged::<A>(f.sig_ema, loudness::<A>(i, q));
    assert(f.updated(i, q).sig_ema == mean);
    assert(within::<A>(mean, A::integer_value(0), bound));
    if A::at_most(A::fraction_value(95, 2), mean) {
        assert(A::at_most(A::fraction_value(95, 2), bound));
    }
    no_signal_no_lock(f, i, q);
}

/// The carrier comes off: a symbol that arrives turned by the phase of the loop
/// leaves it as it was sent.
pub proof fn carrier_comes_off<A: Arithmetic>(f: MeteorPll<A>, symbol: Complex<A::R>)
    requires
        exact_laws::<A>(),
        negation_laws::<A>(),
        A::finite(symbol.re),
        A::finite(symbol.im),
        A::finite(A::cosine(f.phase)),
        A::finite(A::sine(f.phase)),
        A::sum(
            A::product(A::cosine(f.phase), A::cosine(f.phase)),
            A::product(A::sine(f.phase), A::sine(f.phase)),
        ) == A::integer_value(1),
        A::cosine(A::negation(f.phase)) == A::cosine(f.phase),
        A::sine(A::negation(f.phase)) == A::negation(A::sine(f.phase)),
    ensures
        f.turned(
            Complex {
                re: A::difference(
                    A::product(symbol.re, A::cosine(f.phase)),
                    A::product(symbol.im, A::sine(f.phase)),
                ),
                im: A::sum(
                    A::product(symbol.re, A::sine(f.phase)),
                    A::product(symbol.im, A::cosine(f.phase)),
                ),
            },
        ) == symbol,
{
    let c = A::cosine(f.phase);
    let s = A::sine(f.phase);
    let a = symbol.re;
    let b = symbol.im;
    stays_finite::<A>(a, c);
    stays_finite::<A>(b, s);
    stays_finite::<A>(a, s);
    stays_finite::<A>(b, c);
    let p = A::difference(A::product(a, c), A::product(b, s));
    let q = A::sum(A::product(a, s), A::product(b, c));
    stays_finite::<A>(A::product(a, c), A::product(b, s));
    stays_finite::<A>(A::product(a, s), A::product(b, c));
    turn_and_back::<A>(a, b, c, s);
    opposite::<A>(s);
    stays_finite::<A>(p, c);
    stays_finite::<A>(q, s);
    stays_finite::<A>(p, s);
    stays_finite::<A>(q, c);
    opposite_factors::<A>(q, s);
    opposite_factors::<A>(p, s);
    let qs = A::product(q, s);
    opposite::<A>(qs);
    opposites::<A>(A::product(p, c), A::negation(qs));
    let ps = A::product(p, s);
    opposite::<A>(ps);
    opposites::<A>(A::product(q, c), ps);
    addends_in_any_order::<A>(A::negation(ps), A::product(q, c), ps);
}

/// A symbol on a diagonal has no error.
pub proof fn diagonals_have_no_error<A: Arithmetic>(f: MeteorPll<A>, x: A::R)
    requires
        exact_laws::<A>(),
        negation_laws::<A>(),
        A::finite(x),
        A::finite(f.tangent(x)),
    ensures
        f.error(x, x) == A::integer_value(0),
        f.tangent(A::negation(x)) == A::negation(f.tangent(x)) ==> f.error(x, A::negation(x))
            == A::integer_value(0),
{
    let t = f.tangent(x);
    stays_finite::<A>(t, x);
    let p = A::product(t, x);
    sums_undo::<A>(p, p);
    opposite::<A>(x);
    opposite::<A>(p);
    opposite_factors::<A>(t, x);
    sums_undo::<A>(A::negation(p), A::negation(p));
}

/// A loop that is locked and has no error keeps its frequency.
pub proof fn no_error_keeps_frequency<A: Arithmetic>(f: MeteorPll<A>)
    requires
        exact_laws::<A>(),
        A::finite(f.alpha),
        A::finite(f.beta),
        A::finite(f.freq),
        A::finite(f.phase),
        f.corrected(A::integer_value(0)).detected().locked,
        !A::less(f.freq, A::negation(f.fmax)),
        !A::less(f.fmax, f.freq),
        A::remainder(f.phase, A::product(A::integer_value(2), A::half_turn())) == f.phase,
    ensures
        ({
            let after = f.corrected(A::integer_value(0)).detected().swept();
            &&& after.freq == f.freq
            &&& after.phase == f.phase
        }),
{
    zero_factor::<A>(f.alpha);
    zero_factor::<A>(f.beta);
    sum_with_zero::<A>(f.freq);
    sum_with_zero::<A>(f.phase);
}

/// A table that was filled holds the hyperbolic tangent of the whole part of
/// what is looked up.
pub proof fn table_holds_tangents<A: Arithmetic>(f: MeteorPll<A>, x: A::R)
    requires
        f.lut_tanh@ == tangents::<A>(),
        !A::less(A::integer_value(15), x),
        !A::less(x, A::integer_value((-16) as i64)),
        -16 <= A::integer_part(x) <= 15,
    ensures
        f.tangent(x) == A::hyperbolic_tangent(A::integer_value(A::integer_part(x))),
{
}

} // verus!
