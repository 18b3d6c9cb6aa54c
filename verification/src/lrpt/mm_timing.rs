//! Symbol timing for offset keying.

use crate::arith::{
    Arithmetic, clamp, clamped, got, got_instead, is_positive_finite, positive_finite,
};
use crate::complex;
use crate::exact::{
    exact_laws, products_undo, stays_finite, sum_with_zero, sums_undo, whole_numbers, zero_factor,
};
use crate::math::{full_turn, tau};
use crate::types::{Complex, DspError, Fault};
use vstd::prelude::*;

verus! {

/// Parts of the nominal frequency that the symbol clock may be off by.
pub const FREQ_DEVIATION_PARTS: i64 = 4096;

/// Clock of the symbols, corrected by how the signs and values of two symbols
/// in a row differ (Mueller and Muller). Each symbol has two ticks, one for
/// its real and one for its imaginary part, half a symbol apart.
pub struct MmTiming<A: Arithmetic> {
    /// Current phase of the clock.
    pub phase: A::R,
    /// Current frequency, in radians for each sample.
    pub freq: A::R,
    /// Nominal frequency, in radians for each sample.
    pub center_freq: A::R,
    /// By how much the frequency may be off.
    pub max_deviation: A::R,
    /// How much of an error goes to the phase.
    pub alpha: A::R,
    /// How much of an error goes to the frequency.
    pub beta: A::R,
    /// The symbol before.
    pub prev: Complex<A::R>,
    /// Whether the next tick is the second one of its symbol.
    pub second: bool,
}

impl<A: Arithmetic> MmTiming<A> {
    /// The coefficients of a loop of `bandwidth` whose damping is 1.
    pub open spec fn coefficients(bandwidth: A::R) -> (A::R, A::R) {
        let four = A::integer_value(4);
        let denom = A::sum(
            A::sum(A::integer_value(1), A::product(A::integer_value(2), bandwidth)),
            A::product(bandwidth, bandwidth),
        );
        (
            A::quotient(A::product(four, bandwidth), denom),
            A::quotient(A::product(A::product(four, bandwidth), bandwidth), denom),
        )
    }

    /// The clock at the start of a stream.
    pub open spec fn fresh(sym_freq: A::R, bandwidth: A::R) -> Self {
        let (alpha, beta) = Self::coefficients(bandwidth);
        MmTiming {
            phase: A::integer_value(0),
            freq: sym_freq,
            center_freq: sym_freq,
            max_deviation: A::quotient(sym_freq, A::integer_value(FREQ_DEVIATION_PARTS)),
            alpha,
            beta,
            prev: complex::origin::<A>(),
            second: false,
        }
    }

    /// Why a clock with these settings is not possible, where it is not.
    pub open spec fn refusal(sym_freq: A::R, bandwidth: A::R) -> Option<Fault> {
        if !positive_finite::<A>(sym_freq) {
            Some(got::<A>("sym_freq must be finite and positive"@, sym_freq))
        } else if !positive_finite::<A>(bandwidth) {
            Some(got::<A>("bandwidth must be finite and positive"@, bandwidth))
        } else {
            None
        }
    }

    /// Creates a clock that turns by `sym_freq` radians with each sample.
    pub fn new(sym_freq: A::R, bandwidth: A::R) -> (r: Result<Self, DspError>)
        ensures
            match r {
                Err(e) => Self::refusal(sym_freq, bandwidth) == Some(e@),
                Ok(f) => {
                    &&& Self::refusal(sym_freq, bandwidth) is None
                    &&& f == Self::fresh(sym_freq, bandwidth)
                },
            },
    {
        if !is_positive_finite::<A>(sym_freq) {
            return Err(got_instead::<A>("sym_freq must be finite and positive", sym_freq));
        }
        if !is_positive_finite::<A>(bandwidth) {
            return Err(got_instead::<A>("bandwidth must be finite and positive", bandwidth));
        }
        let four: A::R = A::integer(4);
        let denom: A::R = A::plus(
            A::plus(A::integer(1), A::times(A::integer(2), bandwidth)),
            A::times(bandwidth, bandwidth),
        );
        Ok(
            MmTiming {
                phase: A::integer(0),
                freq: sym_freq,
                center_freq: sym_freq,
                max_deviation: A::over(sym_freq, A::integer(FREQ_DEVIATION_PARTS)),
                alpha: A::over(A::times(four, bandwidth), denom),
                beta: A::over(A::times(A::times(four, bandwidth), bandwidth), denom),
                prev: complex::zero::<A>(),
                second: false,
            },
        )
    }

    /// The clock after a sample, and which tick of a symbol the sample is: the
    /// first at half a turn, the second at a full turn, where the phase starts
    /// over, and 0 for none.
    pub open spec fn ticked(self) -> (Self, u8) {
        let phase = A::sum(self.phase, self.freq);
        if !self.second && A::at_most(A::half_turn(), phase) {
            (MmTiming { phase, second: true, ..self }, 1)
        } else if self.second && A::at_most(full_turn::<A>(), phase) {
            (
                MmTiming {
                    phase: A::difference(phase, full_turn::<A>()),
                    second: false,
                    ..self
                },
                2,
            )
        } else {
            (MmTiming { phase, ..self }, 0)
        }
    }

    /// Moves the clock on by a sample, and returns which tick of a symbol the
    /// sample is: 1 or 2, or 0 for none.
    pub fn advance_timeslot_dual(&mut self) -> (r: u8)
        ensures
            (*final(self), r) == old(self).ticked(),
    {
        self.phase = A::plus(self.phase, self.freq);
        if !self.second && A::le(A::pi(), self.phase) {
            self.second = true;
            return 1;
        }
        if self.second && A::le(tau::<A>(), self.phase) {
            self.phase = A::minus(self.phase, tau::<A>());
            self.second = false;
            return 2;
        }
        0
    }

    /// How late the parts `now` are, after the parts `before`.
    pub open spec fn lateness(before: A::R, now: A::R) -> A::R {
        A::difference(A::product(A::sign(before), now), A::product(A::sign(now), before))
    }

    /// The clock after the symbol `symbol`.
    pub open spec fn retimed(self, symbol: Complex<A::R>) -> Self {
        let error = A::sum(
            Self::lateness(self.prev.re, symbol.re),
            Self::lateness(self.prev.im, symbol.im),
        );
        let deviation = clamped::<A>(
            A::sum(
                A::difference(self.freq, self.center_freq),
                A::product(self.beta, error),
            ),
            A::negation(self.max_deviation),
            self.max_deviation,
        );
        MmTiming {
            phase: A::sum(self.phase, A::product(self.alpha, error)),
            freq: A::sum(self.center_freq, deviation),
            prev: symbol,
            ..self
        }
    }

    /// Corrects the clock by the symbol `symbol`.
    pub fn retime(&mut self, symbol: Complex<A::R>)
        ensures
            *final(self) == old(self).retimed(symbol),
    {
        let error: A::R = A::plus(
            Self::late(self.prev.re, symbol.re),
            Self::late(self.prev.im, symbol.im),
        );
        let deviation: A::R = clamp::<A>(
            A::plus(A::minus(self.freq, self.center_freq), A::times(self.beta, error)),
            A::neg(self.max_deviation),
            self.max_deviation,
        );
        self.phase = A::plus(self.phase, A::times(self.alpha, error));
        self.freq = A::plus(self.center_freq, deviation);
        self.prev = symbol;
    }

    fn late(before: A::R, now: A::R) -> (r: A::R)
        ensures
            r == Self::lateness(before, now),
    {
        A::minus(A::times(A::signum(before), now), A::times(A::signum(now), before))
    }
}

/// The two ticks of a symbol alternate.
pub proof fn ticks_alternate<A: Arithmetic>(f: MmTiming<A>)
    ensures
        f.ticked().1 == 1 ==> !f.second && f.ticked().0.second,
        f.ticked().1 == 2 ==> f.second && !f.ticked().0.second,
        f.ticked().1 == 0 ==> f.ticked().0.second == f.second,
        f.ticked().1 <= 2,
{
}

/// A symbol like the one before is on time, and leaves the clock as it is.
pub proof fn equal_symbols_are_on_time<A: Arithmetic>(f: MmTiming<A>)
    requires
        exact_laws::<A>(),
        A::finite(f.prev.re),
        A::finite(f.prev.im),
        A::finite(A::sign(f.prev.re)),
        A::finite(A::sign(f.prev.im)),
        A::finite(f.alpha),
        A::finite(f.beta),
        A::finite(f.phase),
        A::finite(f.freq),
        A::finite(f.center_freq),
        !A::less(
            A::difference(f.freq, f.center_freq),
            A::negation(f.max_deviation),
        ),
        !A::less(f.max_deviation, A::difference(f.freq, f.center_freq)),
    ensures
        f.retimed(f.prev) == f,
{
    let zero = A::integer_value(0);
    whole_numbers::<A>(0);
    stays_finite::<A>(A::sign(f.prev.re), f.prev.re);
    stays_finite::<A>(A::sign(f.prev.im), f.prev.im);
    let p = A::product(A::sign(f.prev.re), f.prev.re);
    let q = A::product(A::sign(f.prev.im), f.prev.im);
    sums_undo::<A>(p, p);
    sums_undo::<A>(q, q);
    sum_with_zero::<A>(zero);
    zero_factor::<A>(f.alpha);
    zero_factor::<A>(f.beta);
    stays_finite::<A>(f.freq, f.center_freq);
    sum_with_zero::<A>(A::difference(f.freq, f.center_freq));
    sum_with_zero::<A>(f.phase);
    sums_undo::<A>(f.freq, f.center_freq);
}

/// The clock makes a whole turn in a symbol: as many steps of the frequency that
/// it starts with as a symbol has samples.
pub proof fn symbol_is_a_turn<A: Arithmetic>(samples_per_symbol: A::R, bandwidth: A::R)
    requires
        exact_laws::<A>(),
        A::finite(A::half_turn()),
        A::finite(samples_per_symbol),
        samples_per_symbol != A::integer_value(0),
    ensures
        A::product(
            MmTiming::<A>::fresh(
                A::quotient(
                    A::product(A::integer_value(2), A::half_turn()),
                    samples_per_symbol,
                ),
                bandwidth,
            ).freq,
            samples_per_symbol,
        ) == A::product(A::integer_value(2), A::half_turn()),
{
    whole_numbers::<A>(2);
    stays_finite::<A>(A::integer_value(2), A::half_turn());
    products_undo::<A>(
        A::product(A::integer_value(2), A::half_turn()),
        samples_per_symbol,
    );
}

/// With two samples for each symbol the clock ticks with each of them, by turns.
pub proof fn two_samples_tick_by_turns<A: Arithmetic>(f: MmTiming<A>)
    requires
        exact_laws::<A>(),
        A::finite(A::half_turn()),
        f.freq == A::half_turn(),
        f.phase == A::integer_value(0),
        !f.second,
        A::at_most(A::half_turn(), A::half_turn()),
        A::sum(A::half_turn(), A::half_turn()) == A::product(
            A::integer_value(2),
            A::half_turn(),
        ),
        A::at_most(
            A::product(A::integer_value(2), A::half_turn()),
            A::product(A::integer_value(2), A::half_turn()),
        ),
    ensures
        f.ticked().1 == 1,
        f.ticked().0.ticked().1 == 2,
        f.ticked().0.ticked().0 == f,
{
    let pi = A::half_turn();
    sum_with_zero::<A>(pi);
    whole_numbers::<A>(2);
    stays_finite::<A>(A::integer_value(2), pi);
    let turn = A::product(A::integer_value(2), pi);
    sums_undo::<A>(turn, turn);
}

/// A positive part of a symbol that follows a positive one is late by how much it
/// grew.
pub proof fn growth_is_lateness<A: Arithmetic>(before: A::R, now: A::R)
    requires
        exact_laws::<A>(),
        A::finite(before),
        A::finite(now),
        A::sign(before) == A::integer_value(1),
        A::sign(now) == A::integer_value(1),
    ensures
        MmTiming::<A>::lateness(before, now) == A::difference(now, before),
{
    sum_with_zero::<A>(before);
    sum_with_zero::<A>(now);
}

} // verus!
