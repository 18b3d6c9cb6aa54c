//! Sample rate conversion.
//!
//! - [`PolyphaseResampler`]: by a rational ratio, through a polyphase filter
//!   bank.
//! - [`PowerDecimator`]: down by a power of two, through a cascade of stages.
//! - [`RationalResampler`]: between any two rates, through both.

use crate::arith::{Arithmetic, Widening, got, got_instead, is_positive_finite, positive_finite};
use crate::complex;
use crate::complex::{imags, reals};
use crate::decim_taps::{
    plan_ratio, plan_ratio_matches, plan_stages, plan_tables, symmetric, DecimTables, PlanStage,
    FIRST_DECIMATION, MAX_RATIO, PLAN_COUNT,
};
use crate::exact::{
    all_finite, counts, exact_laws, products_undo, stays_finite, sum_of_finite, sum_of_multiples,
    raised_by, sum_of_pairs, sum_of_parts, sum_of_raised, sum_of_reversed, sum_of_same,
    sum_of_zeros, sum_with_zero, whole_numbers, widening_laws, zero_factor,
};
use crate::kernel::{
    convolved_constant, correlated_constant, sum_of, convolve_complex_at, convolved_complex, convolved_complex_local, correlated_complex,
    correlated_terms, correlated_terms_local, div_up, grid_append, grid_bounds, grid_carry,
    grid_count, grid_count_at_most, grid_count_is, grid_point_below, quotient_shrinks,
    quotient_up,
};
use crate::powers::{exact_log2, power_of_two, power_of_two_ordered};
use crate::stream::{append, copy_to_front, filled, overwritten, remember, repeated, tail};
use crate::taps;
use crate::types::{Complex, DspError, Fault, decimal, decimal_text, invalid};
use vstd::arithmetic::div_mod::{
    lemma_fundamental_div_mod, lemma_fundamental_div_mod_converse,
};
use crate::filter::filtered_complex;
use crate::window::nuttall_at;
use vstd::prelude::*;
use vstd::string::StringExecFns;

verus! {

/// Whether `n` is a multiple of `d`.
pub open spec fn divides(d: int, n: int) -> bool {
    exists|k: int| n == #[trigger] (d * k)
}

/// Whether `g` is the greatest common divisor of `a` and `b`: it divides both,
/// and every number that divides both divides it.
pub open spec fn is_gcd(g: int, a: int, b: int) -> bool {
    &&& divides(g, a)
    &&& divides(g, b)
    &&& forall|d: int| #[trigger] divides(d, a) && divides(d, b) ==> divides(d, g)
}

proof fn divides_sum(d: int, a: int, b: int, q: int)
    requires
        divides(d, a),
        divides(d, b),
    ensures
        divides(d, a * q + b),
        divides(d, b - a * q),
{
    let k = choose|k: int| a == #[trigger] (d * k);
    let l = choose|l: int| b == #[trigger] (d * l);
    assert(a * q + b == d * (k * q + l)) by (nonlinear_arith)
        requires
            a == d * k,
            b == d * l,
    ;
    assert(b - a * q == d * (l - k * q)) by (nonlinear_arith)
        requires
            a == d * k,
            b == d * l,
    ;
}

proof fn divides_remainder(a: int, b: int)
    requires
        b > 0,
    ensures
        forall|d: int|
            (#[trigger] divides(d, a) && divides(d, b)) <==> (divides(d, b) && divides(d, a % b)),
{
    lemma_fundamental_div_mod(a, b);
    assert forall|d: int|
        (#[trigger] divides(d, a) && divides(d, b)) <==> (divides(d, b) && divides(d, a % b)) by {
        if divides(d, b) {
            if divides(d, a) {
                divides_sum(d, b, a, a / b);
            }
            if divides(d, a % b) {
                divides_sum(d, b, a % b, a / b);
            }
        }
    }
}

/// The greatest common divisor.
pub fn gcd(a: u64, b: u64) -> (g: u64)
    ensures
        is_gcd(g as int, a as int, b as int),
        a > 0 || b > 0 ==> g > 0,
{
    let mut x: u64 = a;
    let mut y: u64 = b;
    while y != 0
        invariant
            forall|d: int|
                (#[trigger] divides(d, a as int) && divides(d, b as int)) <==> (divides(
                    d,
                    x as int,
                ) && divides(d, y as int)),
            a > 0 || b > 0 ==> x > 0 || y > 0,
        decreases y,
    {
        let t: u64 = y;
        let rest: u64 = x % y;
        proof {
            divides_remainder(x as int, y as int);
            assert forall|d: int|
                (#[trigger] divides(d, a as int) && divides(d, b as int)) <==> (divides(
                    d,
                    t as int,
                ) && divides(d, rest as int)) by {
                assert(divides(d, x as int) || !divides(d, x as int));
            }
        }
        y = rest;
        x = t;
    }
    proof {
        assert(x as int == x as int * 1);
        assert(divides(x as int, x as int));
        assert(0 == x as int * 0);
        assert(divides(x as int, 0));
        assert(divides(x as int, a as int) && divides(x as int, b as int));
        assert forall|d: int| #[trigger] divides(d, a as int) && divides(d, b as int) implies divides(
            d,
            x as int,
        ) by {
            assert(divides(d, x as int) || !divides(d, x as int));
        }
    }
    x
}

/// Which tap of the prototype is tap `j` of phase `p` of a bank of
/// `phase_count` phases: the taps are dealt out to the phases from the last one
/// down.
pub open spec fn tap_index(phase_count: int, p: int, j: int) -> int {
    j * phase_count + (phase_count - 1 - p)
}

/// Tap `j` of phase `p` of a bank of `phase_count` phases, zero where the
/// prototype ends early.
pub open spec fn bank_tap<A: Arithmetic>(
    prototype: Seq<A::R>,
    phase_count: int,
    p: int,
    j: int,
) -> A::R {
    let i = tap_index(phase_count, p, j);
    if i < prototype.len() {
        prototype[i]
    } else {
        A::integer_value(0)
    }
}

/// The phases of a bank, each with its taps.
pub open spec fn bank_phases<A: Arithmetic>(prototype: Seq<A::R>, phase_count: nat) -> Seq<
    Seq<A::R>,
> {
    Seq::new(
        phase_count,
        |p: int|
            Seq::new(
                quotient_up(prototype.len() as int, phase_count as int) as nat,
                |j: int| bank_tap::<A>(prototype, phase_count as int, p, j),
            ),
    )
}

/// A prototype filter split into phases.
pub struct PolyphaseBank<A: Arithmetic> {
    /// Taps of each phase.
    pub phases: Vec<Vec<A::R>>,
    /// Number of taps of a phase.
    pub taps_per_phase: usize,
    /// Number of taps of the prototype.
    pub prototype_len: usize,
}

impl<A: Arithmetic> PolyphaseBank<A> {
    /// The taps of the phases.
    pub open spec fn view(self) -> Seq<Seq<A::R>> {
        Seq::new(self.phases@.len(), |p: int| self.phases@[p]@)
    }

    /// Every phase has [`Self::taps_per_phase`] taps, at least one.
    pub open spec fn wf(self) -> bool {
        &&& self.taps_per_phase > 0
        &&& forall|p: int|
            0 <= p < self.phases@.len() ==> (#[trigger] self.phases@[p])@.len()
                == self.taps_per_phase
    }

    /// Splits `prototype` into `phase_count` phases.
    pub fn build(prototype: &[A::R], phase_count: usize) -> (bank: Self)
        requires
            prototype@.len() > 0,
            phase_count > 0,
        ensures
            bank.wf(),
            bank@ == bank_phases::<A>(prototype@, phase_count as nat),
            bank.taps_per_phase == quotient_up(prototype@.len() as int, phase_count as int),
            bank.prototype_len == prototype@.len(),
    {
        let taps_per_phase: usize = div_up(prototype.len(), phase_count);
        let mut phases: Vec<Vec<A::R>> = Vec::with_capacity(phase_count);
        proof {
            quotient_shrinks(prototype@.len() - 1, phase_count as int);
        }
        let mut p: usize = 0;
        while p < phase_count
            invariant
                p <= phase_count,
                0 < phase_count,
                prototype@.len() > 0,
                taps_per_phase == quotient_up(prototype@.len() as int, phase_count as int),
                phases@.len() == p,
                forall|q: int|
                    0 <= q < p ==> (#[trigger] phases@[q])@ == bank_phases::<A>(
                        prototype@,
                        phase_count as nat,
                    )[q],
            decreases phase_count - p,
        {
            let phase: Vec<A::R> = Self::build_phase(prototype, phase_count, taps_per_phase, p);
            phases.push(phase);
            p = p + 1;
        }
        let bank = PolyphaseBank { phases, taps_per_phase, prototype_len: prototype.len() };
        assert(bank@ =~= bank_phases::<A>(prototype@, phase_count as nat));
        bank
    }

    fn build_phase(
        prototype: &[A::R],
        phase_count: usize,
        taps_per_phase: usize,
        p: usize,
    ) -> (phase: Vec<A::R>)
        requires
            prototype@.len() > 0,
            p < phase_count,
            taps_per_phase == quotient_up(prototype@.len() as int, phase_count as int),
        ensures
            phase@ == bank_phases::<A>(prototype@, phase_count as nat)[p as int],
    {
        let len: usize = prototype.len();
        let skip: usize = phase_count - 1 - p;
        let mut phase: Vec<A::R> = Vec::with_capacity(taps_per_phase);
        let mut j: usize = 0;
        let mut base: usize = 0;
        proof {
            lemma_fundamental_div_mod(len - 1, phase_count as int);
        }
        while j < taps_per_phase
            invariant
                j <= taps_per_phase,
                0 < len == prototype@.len(),
                p < phase_count,
                skip == phase_count - 1 - p,
                taps_per_phase == (len - 1) / (phase_count as int) + 1,
                phase_count * ((len - 1) / (phase_count as int)) <= len - 1,
                j < taps_per_phase ==> base == j * phase_count,
                phase@.len() == j,
                forall|k: int|
                    0 <= k < j ==> #[trigger] phase@[k] == bank_tap::<A>(
                        prototype@,
                        phase_count as int,
                        p as int,
                        k,
                    ),
            decreases taps_per_phase - j,
        {
            proof {
                let q = (len - 1) / (phase_count as int);
                assert(j * phase_count <= phase_count * q) by (nonlinear_arith)
                    requires
                        0 <= j <= q,
                        phase_count > 0,
                ;
            }
            let tap: A::R = if skip < len - base {
                prototype[base + skip]
            } else {
                A::integer(0)
            };
            phase.push(tap);
            j = j + 1;
            if j < taps_per_phase {
                proof {
                    let q = (len - 1) / (phase_count as int);
                    assert(j * phase_count <= phase_count * q) by (nonlinear_arith)
                        requires
                            0 <= j <= q,
                            phase_count > 0,
                    ;
                    assert(j * phase_count == (j - 1) * phase_count + phase_count)
                        by (nonlinear_arith);
                }
                base = base + phase_count;
            }
        }
        assert(phase@ =~= bank_phases::<A>(prototype@, phase_count as nat)[p as int]);
        phase
    }
}

/// What a polyphase resampler makes of `input`. Time is counted in steps of
/// which `interp` make a sample of the input: outputs lie `decim` steps apart
/// from the step `start` on, as long as they lie within the input. The output
/// at step `u` is the correlation of the stream with phase `u % interp` of the
/// bank, from `u / interp` samples into the stream on.
pub open spec fn resampled<A: Arithmetic>(
    phases: Seq<Seq<A::R>>,
    history: Seq<Complex<A::R>>,
    input: Seq<Complex<A::R>>,
    start: int,
    decim: int,
) -> Seq<Complex<A::R>> {
    let interp = phases.len() as int;
    Seq::new(
        grid_count(input.len() * interp, start, decim) as nat,
        |t: int|
            correlated_complex::<A>(
                phases[(start + t * decim) % interp],
                history + input,
                (start + t * decim) / interp,
            ),
    )
}

/// The state of a polyphase resampler.
pub struct PolyView<A: Arithmetic> {
    /// Taps of each phase.
    pub phases: Seq<Seq<A::R>>,
    /// The samples before the next input.
    pub history: Seq<Complex<A::R>>,
    /// Steps that make a sample of the output.
    pub decim: int,
    /// The step of the next output.
    pub position: int,
}

impl<A: Arithmetic> PolyView<A> {
    /// There are phases, none with more taps than the history and one sample
    /// more.
    pub open spec fn wf(self) -> bool {
        &&& 0 < self.phases.len()
        &&& 0 < self.decim
        &&& 0 <= self.position
        &&& forall|p: int|
            0 <= p < self.phases.len() ==> (#[trigger] self.phases[p]).len()
                <= self.history.len() + 1
    }

    /// What comes out for `input`.
    pub open spec fn output(self, input: Seq<Complex<A::R>>) -> Seq<Complex<A::R>> {
        resampled::<A>(self.phases, self.history, input, self.position, self.decim)
    }

    /// The state once `input` has gone through.
    pub open spec fn next(self, input: Seq<Complex<A::R>>) -> Self {
        PolyView {
            history: tail(self.history + input, self.history.len()),
            position: grid_carry(
                input.len() * self.phases.len() as int,
                self.position,
                self.decim,
            ),
            ..self
        }
    }

    /// The state with the history zero and the first phase next.
    pub open spec fn cleared(self) -> Self {
        PolyView {
            history: repeated(complex::origin::<A>(), self.history.len()),
            position: 0,
            ..self
        }
    }
}

/// Resampler for complex samples by a rational ratio.
pub struct PolyphaseResampler<A: Arithmetic> {
    /// Filter bank with one phase for each step.
    pub bank: PolyphaseBank<A>,
    /// Steps that make a sample of the input.
    pub interp: usize,
    /// Steps that make a sample of the output.
    pub decim: usize,
    /// The samples before the next input, the most recent one last.
    pub delay_line: Vec<Complex<A::R>>,
    /// Steps from the sample at `offset` to the next output.
    pub phase: usize,
    /// Samples of the input to pass over before the next output.
    pub offset: usize,
}

impl<A: Arithmetic> PolyphaseResampler<A> {
    /// The bank has a phase for each step, and the delay line holds one sample
    /// less than a phase has taps.
    pub open spec fn wf(self) -> bool {
        &&& self.bank.wf()
        &&& self.bank.phases@.len() == self.interp
        &&& self.interp > 0
        &&& self.decim > 0
        &&& self.delay_line@.len() == self.bank.taps_per_phase - 1
        &&& self.phase < self.interp
    }

    /// The step of the next output.
    pub open spec fn position(self) -> int {
        self.offset * self.interp + self.phase
    }

    /// Room that [`Self::process`] asks for.
    pub open spec fn room(self, len: int) -> int {
        if len <= self.offset {
            0
        } else {
            ((len - self.offset) * self.interp + self.phase) / self.decim as int + 1
        }
    }

    /// The state of the resampler.
    pub open spec fn view(self) -> PolyView<A> {
        PolyView {
            phases: self.bank@,
            history: self.delay_line@,
            decim: self.decim as int,
            position: self.position(),
        }
    }

    /// Whether `other` has the same filter bank and ratio.
    pub open spec fn same_shape(self, other: Self) -> bool {
        &&& self.bank == other.bank
        &&& self.interp == other.interp
        &&& self.decim == other.decim
    }

    /// The state is well formed.
    pub proof fn view_wf(self)
        requires
            self.wf(),
        ensures
            self@.wf(),
            self@.phases.len() == self.interp,
    {
        assert(0 <= self.position()) by (nonlinear_arith)
            requires
                self.position() == self.offset * self.interp + self.phase,
                self.offset >= 0,
                self.interp >= 0,
                self.phase >= 0,
        ;
    }

    /// Creates a resampler by `interp / decim`, with the prototype of the
    /// filter that runs at `interp` times the rate of the input.
    pub fn new(interp: usize, decim: usize, prototype_taps: &[A::R]) -> (r: Result<Self, DspError>)
        ensures
            match r {
                Err(e) => {
                    ||| interp == 0 && e@ == Fault::InvalidParameter("interp must be > 0"@)
                    ||| interp > 0 && decim == 0
                        && e@ == Fault::InvalidParameter("decim must be > 0"@)
                    ||| interp > 0 && decim > 0 && prototype_taps@.len() == 0
                        && e@ == Fault::InvalidParameter("prototype taps must not be empty"@)
                },
                Ok(f) => {
                    &&& interp > 0 && decim > 0 && prototype_taps@.len() > 0
                    &&& f.wf()
                    &&& f.interp == interp
                    &&& f.decim == decim
                    &&& f.phase == 0
                    &&& f.offset == 0
                    &&& f.bank@ == bank_phases::<A>(prototype_taps@, interp as nat)
                    &&& f.bank.prototype_len == prototype_taps@.len()
                    &&& f.delay_line@ == repeated(
                        complex::origin::<A>(),
                        (f.bank.taps_per_phase - 1) as nat,
                    )
                },
            },
    {
        if interp == 0 {
            return Err(invalid("interp must be > 0"));
        }
        if decim == 0 {
            return Err(invalid("decim must be > 0"));
        }
        if prototype_taps.is_empty() {
            return Err(invalid("prototype taps must not be empty"));
        }
        let bank = PolyphaseBank::<A>::build(prototype_taps, interp);
        proof {
            assert(bank@.len() == interp);
        }
        let delay_line: Vec<Complex<A::R>> = filled(
            complex::zero::<A>(),
            bank.taps_per_phase - 1,
        );
        Ok(PolyphaseResampler { bank, interp, decim, delay_line, phase: 0, offset: 0 })
    }

    /// Clears the delay line and starts at the first phase again.
    pub fn reset(&mut self)
        requires
            old(self).wf(),
        ensures
            final(self).wf(),
            final(self).same_shape(*old(self)),
            final(self)@ == old(self)@.cleared(),
    {
        self.delay_line = filled(complex::zero::<A>(), self.delay_line.len());
        self.phase = 0;
        self.offset = 0;
    }

    /// Group delay, in samples of the input: half of the prototype's span.
    pub fn group_delay_input_samples<D: Arithmetic>(&self) -> (r: D::R)
        ensures
            r == D::quotient(
                D::quotient(
                    D::count_value(
                        (if self.bank.prototype_len > 0 {
                            self.bank.prototype_len - 1
                        } else {
                            0
                        }) as usize,
                    ),
                    D::integer_value(2),
                ),
                D::count_value(self.interp),
            ),
    {
        let span: usize = if self.bank.prototype_len > 0 {
            self.bank.prototype_len - 1
        } else {
            0
        };
        D::over(D::over(D::count(span), D::integer(2)), D::count(self.interp))
    }

    /// The output at `phase` whose window starts at sample `at` of the stream.
    fn correlate_at(&self, input: &[Complex<A::R>], at: usize, phase: usize) -> (r: Complex<A::R>)
        requires
            self.wf(),
            phase < self.interp,
            at < input@.len(),
        ensures
            r == correlated_complex::<A>(
                self.bank@[phase as int],
                self.delay_line@ + input@,
                at as int,
            ),
    {
        let ghost stream = self.delay_line@ + input@;
        let taps: &Vec<A::R> = &self.bank.phases[phase];
        let held: usize = self.delay_line.len();
        let mut re: A::R = A::integer(0);
        let mut im: A::R = A::integer(0);
        let mut j: usize = 0;
        while j < taps.len()
            invariant
                j <= taps@.len() == held + 1,
                held == self.delay_line@.len(),
                at < input@.len(),
                stream == self.delay_line@ + input@,
                re == correlated_terms::<A>(taps@, reals(stream), at as int, j as nat),
                im == correlated_terms::<A>(taps@, imags(stream), at as int, j as nat),
            decreases taps.len() - j,
        {
            let x: Complex<A::R> = if at < held && j < held - at {
                self.delay_line[at + j]
            } else if at < held {
                input[j - (held - at)]
            } else {
                input[(at - held) + j]
            };
            assert(x == stream[at + j]);
            re = A::plus(re, A::times(x.re, taps[j]));
            im = A::plus(im, A::times(x.im, taps[j]));
            j = j + 1;
        }
        Complex { re, im }
    }

    /// Resamples `input` into `output` and returns the number of samples
    /// written.
    pub fn process(&mut self, input: &[Complex<A::R>], output: &mut [Complex<A::R>]) -> (r: Result<
        usize,
        DspError,
    >)
        requires
            old(self).wf(),
        ensures
            final(self).wf(),
            match r {
                Err(e) => {
                    let need = old(self).room(input@.len() as int);
                    &&& old(output)@.len() < need
                    &&& e == DspError::BufferTooSmall {
                        need: (if need > usize::MAX {
                            usize::MAX as int
                        } else {
                            need
                        }) as usize,
                        got: old(output)@.len() as usize,
                    }
                    &&& *final(self) == *old(self)
                    &&& final(output)@ == old(output)@
                },
                Ok(n) => {
                    let made = old(self)@.output(input@);
                    &&& old(self).room(input@.len() as int) <= old(output)@.len()
                    &&& n == made.len() <= old(output)@.len()
                    &&& final(output)@ == overwritten(old(output)@, made)
                    &&& final(self).same_shape(*old(self))
                    &&& final(self)@ == old(self)@.next(input@)
                },
            },
    {
        let len: usize = input.len();
        let interp: usize = self.interp;
        let decim: usize = self.decim;
        let max_out: u128 = if len <= self.offset {
            0
        } else {
            proof {
                assert((len - self.offset) * interp <= 0xffff_ffff_ffff_ffff
                    * 0xffff_ffff_ffff_ffff) by (nonlinear_arith)
                    requires
                        0 <= len - self.offset <= 0xffff_ffff_ffff_ffff,
                        0 <= interp <= 0xffff_ffff_ffff_ffff,
                ;
                assert(0 <= (len - self.offset) * interp) by (nonlinear_arith)
                    requires
                        0 <= len - self.offset,
                        0 <= interp,
                ;
                quotient_shrinks(
                    (len - self.offset) * interp + self.phase,
                    decim as int,
                );
            }
            ((len - self.offset) as u128 * interp as u128 + self.phase as u128) / decim as u128 + 1
        };
        if (output.len() as u128) < max_out {
            let need: usize = if max_out > usize::MAX as u128 {
                usize::MAX
            } else {
                max_out as usize
            };
            return Err(DspError::BufferTooSmall { need, got: output.len() });
        }
        let ghost start = self.position();
        let ghost end = len * interp;
        let ghost made = self@.output(input@);
        proof {
            assert(0 <= end) by (nonlinear_arith)
                requires
                    end == len * interp,
                    len >= 0,
                    interp >= 0,
            ;
            assert(0 <= start) by (nonlinear_arith)
                requires
                    start == self.offset * interp + self.phase,
                    self.offset >= 0,
                    interp >= 0,
                    self.phase >= 0,
            ;
            self.room_suffices(len as int);
        }
        let whole: usize = decim / interp;
        let part: usize = decim % interp;
        proof {
            lemma_fundamental_div_mod(decim as int, interp as int);
        }
        let mut out_count: usize = 0;
        let mut at: usize = self.offset;
        let mut phase: usize = self.phase;
        let mut carry: usize = 0;
        if at >= len {
            carry = at - len;
            at = len;
            proof {
                assert(len * interp + carry * interp == start - phase) by (nonlinear_arith)
                    requires
                        start == (len + carry) * interp + phase,
                ;
            }
        }
        while at < len
            invariant
                len == input@.len(),
                at <= len,
                interp == self.interp,
                decim == self.decim,
                decim == interp * whole + part,
                part < interp,
                phase < interp,
                0 <= start == self.position(),
                0 <= end == len * interp,
                self.wf(),
                *self == *old(self),
                made == self@.output(input@),
                made.len() == grid_count(end, start, decim as int),
                output@.len() == old(output)@.len() >= made.len(),
                0 <= out_count <= made.len(),
                at < len ==> at * interp + phase == start + out_count * decim,
                at == len ==> end + carry * interp + phase == start + out_count * decim,
                out_count > 0 ==> start + (out_count - 1) * decim < end,
                output@ =~= overwritten(old(output)@, made.take(out_count as int)),
            decreases made.len() - out_count,
        {
            let ghost u = at * interp + phase;
            proof {
                assert(u < end) by (nonlinear_arith)
                    requires
                        u == at * interp + phase,
                        phase < interp,
                        at < len,
                        end == len * interp,
                ;
                if out_count == made.len() {
                    grid_bounds(end, start, decim as int);
                }
                assert(interp * at == at * interp) by (nonlinear_arith);
                lemma_fundamental_div_mod_converse(u, interp as int, at as int, phase as int);
                assert((out_count + 1) * decim == out_count * decim + decim) by (nonlinear_arith);
            }
            output[out_count] = self.correlate_at(input, at, phase);
            assert(output@[out_count as int] == made[out_count as int]);
            out_count = out_count + 1;
            let ghost old_at = at;
            let ghost old_phase = phase;
            let step: usize = if part < interp - phase {
                phase = phase + part;
                whole
            } else {
                phase = part - (interp - phase);
                proof {
                    assert(whole < usize::MAX) by (nonlinear_arith)
                        requires
                            interp * whole + part <= usize::MAX,
                            part > 0,
                            interp >= 1,
                    ;
                }
                whole + 1
            };
            proof {
                assert(step * interp + phase == old_phase + decim) by (nonlinear_arith)
                    requires
                        decim == interp * whole + part,
                        (step == whole && phase == old_phase + part) || (step == whole + 1 && phase
                            == part - (interp - old_phase)),
                ;
                assert((old_at + step) * interp == old_at * interp + step * interp)
                    by (nonlinear_arith);
            }
            if step < len - at {
                at = at + step;
            } else {
                carry = step - (len - at);
                at = len;
                proof {
                    assert((old_at + step) * interp == end + carry * interp) by (nonlinear_arith)
                        requires
                            old_at + step == len + carry,
                            end == len * interp,
                    ;
                }
            }
        }
        proof {
            if out_count == 0 {
                assert(out_count * decim == 0) by (nonlinear_arith)
                    requires
                        out_count == 0,
                ;
            }
            assert(0 <= carry * interp) by (nonlinear_arith)
                requires
                    carry >= 0,
                    interp >= 0,
            ;
            grid_count_is(end, start, decim as int, out_count as int);
            assert(made.take(out_count as int) =~= made);
        }
        self.offset = carry;
        self.phase = phase;
        remember(&mut self.delay_line, input);
        Ok(out_count)
    }

    /// The room that is asked for holds every output.
    pub proof fn room_suffices(self, len: int)
        requires
            self.wf(),
            len >= 0,
        ensures
            0 <= grid_count(len * self.interp, self.position(), self.decim as int) <= self.room(
                len,
            ),
    {
        let interp = self.interp as int;
        let decim = self.decim as int;
        let end = len * interp;
        let start = self.position();
        if len <= self.offset {
            assert(end <= start) by (nonlinear_arith)
                requires
                    end == len * interp,
                    start == self.offset * interp + self.phase,
                    len <= self.offset,
                    interp >= 0,
                    self.phase >= 0,
            ;
        } else {
            assert((len - self.offset) * interp == end - self.offset * interp)
                by (nonlinear_arith)
                requires
                    end == len * interp,
            ;
            assert(0 <= end - self.offset * interp) by (nonlinear_arith)
                requires
                    end == len * interp,
                    self.offset <= len,
                    interp >= 0,
            ;
            quotient_shrinks(end - self.offset * interp + self.phase, decim);
            if start < end {
                vstd::arithmetic::div_mod::lemma_div_is_ordered(
                    end - start - 1,
                    end - self.offset * interp + self.phase,
                    decim,
                );
                quotient_shrinks(end - start - 1, decim);
            }
        }
    }
}

/// Every tap of the prototype stands in the bank, at one place only.
pub proof fn bank_holds_each_tap_once<A: Arithmetic>(
    prototype: Seq<A::R>,
    phase_count: nat,
    i: int,
)
    requires
        0 <= i < prototype.len(),
        0 < phase_count,
    ensures
        ({
            let p = phase_count - 1 - i % phase_count as int;
            let j = i / phase_count as int;
            &&& 0 <= p < phase_count
            &&& 0 <= j < bank_phases::<A>(prototype, phase_count)[p].len()
            &&& bank_phases::<A>(prototype, phase_count)[p][j] == prototype[i]
            &&& forall|q: int, k: int|
                0 <= q < phase_count && 0 <= k && #[trigger] tap_index(phase_count as int, q, k)
                    == i ==> q == p && k == j
        }),
{
    let n = phase_count as int;
    let p = n - 1 - i % n;
    let j = i / n;
    lemma_fundamental_div_mod(i, n);
    assert(j * n == n * j) by (nonlinear_arith);
    quotient_shrinks(i, n);
    vstd::arithmetic::div_mod::lemma_div_is_ordered(i, prototype.len() - 1, n);
    assert forall|q: int, k: int|
        0 <= q < phase_count && 0 <= k && #[trigger] tap_index(phase_count as int, q, k)
            == i implies q == p && k == j by {
        assert(n * k == k * phase_count) by (nonlinear_arith)
            requires
                n == phase_count,
        ;
        lemma_fundamental_div_mod_converse(i, n, k, n - 1 - q);
    }
}

/// From the start of a stream on, a resampler gives out samples in the ratio of
/// the rates, rounded up to a whole sample.
pub proof fn resampled_in_ratio<A: Arithmetic>(r: PolyView<A>, input: Seq<Complex<A::R>>)
    requires
        r.wf(),
        r.position == 0,
    ensures
        ({
            let steps = input.len() * r.phases.len();
            let made = r.output(input).len();
            steps <= made * r.decim < steps + r.decim
        }),
{
    let steps = input.len() * r.phases.len();
    assert(0 <= steps) by (nonlinear_arith)
        requires
            steps == input.len() * r.phases.len(),
    ;
    grid_bounds(steps as int, 0, r.decim);
    let n = grid_count(steps as int, 0, r.decim);
    assert(n * r.decim == (n - 1) * r.decim + r.decim) by (nonlinear_arith);
}

/// What a resampler makes of a stream does not depend on how the stream is cut
/// into calls.
pub proof fn resampled_append<A: Arithmetic>(
    phases: Seq<Seq<A::R>>,
    history: Seq<Complex<A::R>>,
    xs: Seq<Complex<A::R>>,
    ys: Seq<Complex<A::R>>,
    start: int,
    decim: int,
)
    requires
        0 < phases.len(),
        0 < decim,
        0 <= start,
        forall|p: int|
            0 <= p < phases.len() ==> (#[trigger] phases[p]).len() <= history.len() + 1,
    ensures
        resampled::<A>(phases, history, xs + ys, start, decim) == resampled::<A>(
            phases,
            history,
            xs,
            start,
            decim,
        ) + resampled::<A>(
            phases,
            tail(history + xs, history.len()),
            ys,
            grid_carry(xs.len() * phases.len() as int, start, decim),
            decim,
        ),
{
    let interp = phases.len() as int;
    let a = xs.len() * interp;
    let b = ys.len() * interp;
    let carry = grid_carry(a, start, decim);
    let kept = tail(history + xs, history.len());
    let whole = history + (xs + ys);
    let first = resampled::<A>(phases, history, xs, start, decim);
    let second = resampled::<A>(phases, kept, ys, carry, decim);
    let all = resampled::<A>(phases, history, xs + ys, start, decim);
    assert((xs + ys).len() * interp == a + b && 0 <= a && 0 <= b) by (nonlinear_arith)
        requires
            (xs + ys).len() == xs.len() + ys.len(),
            a == xs.len() * interp,
            b == ys.len() * interp,
            interp > 0,
    ;
    grid_append(a, b, start, decim);
    grid_bounds(a, start, decim);
    grid_bounds(b, carry, decim);
    assert forall|t: int| 0 <= t < first.len() implies all[t] == #[trigger] first[t] by {
        grid_point_below(a, start, decim, t);
        let u = start + t * decim;
        step_in_sample(u, xs.len() as int, interp);
        correlated_complex_local::<A>(
            phases[u % interp],
            whole,
            u / interp,
            history + xs,
            u / interp,
        );
    }
    assert forall|t: int| 0 <= t < second.len() implies all[first.len() + t]
        == #[trigger] second[t] by {
        grid_point_below(b, carry, decim, t);
        let u = carry + t * decim;
        step_in_sample(u, ys.len() as int, interp);
        assert((first.len() + t) * decim == first.len() * decim + t * decim)
            by (nonlinear_arith);
        assert(start + (first.len() + t) * decim == u + a);
        lemma_fundamental_div_mod(u, interp);
        assert(u + a == interp * (u / interp + xs.len()) + u % interp) by (nonlinear_arith)
            requires
                u == interp * (u / interp) + u % interp,
                a == xs.len() * interp,
        ;
        lemma_fundamental_div_mod_converse(
            u + a,
            interp,
            u / interp + xs.len(),
            u % interp,
        );
        correlated_complex_local::<A>(
            phases[u % interp],
            whole,
            u / interp + xs.len(),
            kept + ys,
            u / interp,
        );
    }
    assert(all =~= first + second);
}

/// A step before the end of `len` samples lies in one of them.
proof fn step_in_sample(u: int, len: int, interp: int)
    requires
        0 <= u < len * interp,
        0 < interp,
    ensures
        0 <= u / interp < len,
        0 <= u % interp < interp,
{
    lemma_fundamental_div_mod(u, interp);
    quotient_shrinks(u, interp);
    let q = u / interp;
    assert(q < len) by (nonlinear_arith)
        requires
            interp * q <= u,
            u < len * interp,
            interp > 0,
    ;
}

/// Only the samples under the taps matter to a correlation.
proof fn correlated_complex_local<A: Arithmetic>(
    taps: Seq<A::R>,
    s: Seq<Complex<A::R>>,
    at: int,
    t: Seq<Complex<A::R>>,
    to: int,
)
    requires
        0 <= at,
        at + taps.len() <= s.len(),
        0 <= to,
        to + taps.len() <= t.len(),
        forall|j: int| 0 <= j < taps.len() ==> #[trigger] s[at + j] == t[to + j],
    ensures
        correlated_complex::<A>(taps, s, at) == correlated_complex::<A>(taps, t, to),
{
    assert forall|j: int| 0 <= j < taps.len() implies #[trigger] reals(s)[at + j] == reals(
        t,
    )[to + j] by {
        assert(s[at + j] == t[to + j]);
    }
    assert forall|j: int| 0 <= j < taps.len() implies #[trigger] imags(s)[at + j] == imags(
        t,
    )[to + j] by {
        assert(s[at + j] == t[to + j]);
    }
    correlated_terms_local::<A>(taps, reals(s), at, reals(t), to, taps.len());
    correlated_terms_local::<A>(taps, imags(s), at, imags(t), to, taps.len());
}

/// What a decimating stage makes of `input`: the filtered stream at every
/// `step`-th sample from `offset` on.
pub open spec fn decimated_complex<A: Arithmetic>(
    taps: Seq<A::R>,
    history: Seq<Complex<A::R>>,
    input: Seq<Complex<A::R>>,
    offset: int,
    step: int,
) -> Seq<Complex<A::R>> {
    Seq::new(
        grid_count(input.len() as int, offset, step) as nat,
        |i: int| convolved_complex::<A>(taps, history + input, history.len() + offset + i * step),
    )
}

/// The state of a decimating stage.
pub struct StageView<A: Arithmetic> {
    /// Filter taps.
    pub taps: Seq<A::R>,
    /// The samples before the next input.
    pub history: Seq<Complex<A::R>>,
    /// Samples for each sample that is kept.
    pub decimation: int,
    /// Samples to pass over before the next one that is kept.
    pub offset: int,
}

impl<A: Arithmetic> StageView<A> {
    /// There are taps, the history holds one sample less, and the next sample
    /// to keep is less than one decimation step away.
    pub open spec fn wf(self) -> bool {
        &&& self.taps.len() == self.history.len() + 1
        &&& 0 <= self.offset < self.decimation
    }

    /// What comes out for `input`.
    pub open spec fn output(self, input: Seq<Complex<A::R>>) -> Seq<Complex<A::R>> {
        decimated_complex::<A>(self.taps, self.history, input, self.offset, self.decimation)
    }

    /// The state with the history zero and the next sample kept.
    pub open spec fn cleared(self) -> Self {
        StageView {
            history: repeated(complex::origin::<A>(), self.history.len()),
            offset: 0,
            ..self
        }
    }

    /// The state once `input` has gone through.
    pub open spec fn next(self, input: Seq<Complex<A::R>>) -> Self {
        StageView {
            history: tail(self.history + input, self.history.len()),
            offset: grid_carry(input.len() as int, self.offset, self.decimation),
            ..self
        }
    }
}

/// Filter for complex samples that keeps one output in `decimation`.
pub struct DecimStage<A: Arithmetic> {
    /// Filter taps.
    pub taps: Vec<A::R>,
    /// The samples before the next input, the most recent one last.
    pub delay_line: Vec<Complex<A::R>>,
    /// Samples for each sample that is kept.
    pub decimation: usize,
    /// Samples to pass over before the next one that is kept.
    pub offset: usize,
}

impl<A: Arithmetic> DecimStage<A> {
    /// The state of the stage.
    pub open spec fn view(self) -> StageView<A> {
        StageView {
            taps: self.taps@,
            history: self.delay_line@,
            decimation: self.decimation as int,
            offset: self.offset as int,
        }
    }

    /// Creates a stage whose delay line is zero.
    pub fn new(taps: Vec<A::R>, decimation: usize) -> (stage: Self)
        requires
            taps@.len() > 0,
            decimation > 0,
        ensures
            stage@.wf(),
            stage@ == (StageView::<A> {
                taps: taps@,
                history: repeated(complex::origin::<A>(), (taps@.len() - 1) as nat),
                decimation: decimation as int,
                offset: 0,
            }),
    {
        let delay_line: Vec<Complex<A::R>> = filled(complex::zero::<A>(), taps.len() - 1);
        DecimStage { taps, delay_line, decimation, offset: 0 }
    }

    /// Clears the delay line and keeps the next output.
    pub fn reset(&mut self)
        requires
            old(self)@.wf(),
        ensures
            final(self)@ == old(self)@.cleared(),
            final(self)@.wf(),
    {
        self.delay_line = filled(complex::zero::<A>(), self.delay_line.len());
        self.offset = 0;
    }

    /// Filters and decimates `input`; `output` holds the result then, whatever
    /// it held before.
    pub fn process(&mut self, input: &[Complex<A::R>], output: &mut Vec<Complex<A::R>>)
        requires
            old(self)@.wf(),
        ensures
            final(self)@.wf(),
            final(output)@ == old(self)@.output(input@),
            final(self)@ == old(self)@.next(input@),
    {
        let len: usize = input.len();
        let step: usize = self.decimation;
        let ghost start = self.offset as int;
        let ghost made = self@.output(input@);
        proof {
            grid_bounds(len as int, start, step as int);
        }
        output.clear();
        let mut at: usize = self.offset;
        let mut carry: usize = if at < len {
            0
        } else {
            at - len
        };
        while at < len
            invariant
                len == input@.len(),
                step == self.decimation,
                start == self.offset,
                self@.wf(),
                *self == *old(self),
                made == self@.output(input@),
                made.len() == grid_count(len as int, start, step as int),
                0 <= output@.len() <= made.len(),
                at < len ==> at == start + output@.len() * step,
                at >= len ==> carry + len == start + output@.len() * step,
                output@.len() > 0 ==> start + (output@.len() - 1) * step < len,
                output@ =~= made.take(output@.len() as int),
            decreases len - at,
        {
            let ghost n = output@.len() as int;
            proof {
                if n == made.len() {
                    grid_bounds(len as int, start, step as int);
                }
                assert((n + 1) * step == n * step + step) by (nonlinear_arith);
            }
            let y: Complex<A::R> = convolve_complex_at::<A>(
                &self.taps,
                &self.delay_line,
                input,
                at,
            );
            assert(y == made[n]);
            output.push(y);
            if step < len - at {
                at = at + step;
            } else {
                carry = step - (len - at);
                at = len;
            }
        }
        proof {
            let n = output@.len() as int;
            if n == 0 {
                assert(n * step == 0) by (nonlinear_arith)
                    requires
                        n == 0,
                ;
            }
            grid_count_is(len as int, start, step as int, n);
            assert(made.take(n) =~= made);
        }
        self.offset = carry;
        remember(&mut self.delay_line, input);
    }
}

/// What a stage makes of a stream does not depend on how the stream is cut
/// into calls.
pub proof fn stage_append<A: Arithmetic>(
    stage: StageView<A>,
    xs: Seq<Complex<A::R>>,
    ys: Seq<Complex<A::R>>,
)
    requires
        stage.wf(),
    ensures
        stage.output(xs + ys) == stage.output(xs) + stage.next(xs).output(ys),
        stage.next(xs + ys) == stage.next(xs).next(ys),
        stage.next(xs).wf(),
{
    let taps = stage.taps;
    let history = stage.history;
    let offset = stage.offset;
    let step = stage.decimation;
    let whole = history + (xs + ys);
    let kept = tail(history + xs, history.len());
    let n = history.len() as int;
    let carry = grid_carry(xs.len() as int, offset, step);
    let first = stage.output(xs);
    let second = stage.next(xs).output(ys);
    let all = stage.output(xs + ys);
    grid_append(xs.len() as int, ys.len() as int, offset, step);
    grid_bounds(xs.len() as int, offset, step);
    grid_bounds(ys.len() as int, carry, step);
    crate::stream::tail_append(history, xs, ys);
    assert forall|i: int| 0 <= i < first.len() implies all[i] == #[trigger] first[i] by {
        grid_point_below(xs.len() as int, offset, step, i);
        let at = n + offset + i * step;
        convolved_complex_local::<A>(taps, whole, at, history + xs, at);
    }
    assert forall|i: int| 0 <= i < second.len() implies all[first.len() + i]
        == #[trigger] second[i] by {
        grid_point_below(ys.len() as int, carry, step, i);
        let to = n + carry + i * step;
        assert((first.len() + i) * step == first.len() * step + i * step) by (nonlinear_arith);
        convolved_complex_local::<A>(taps, whole, xs.len() + to, kept + ys, to);
    }
    assert(all =~= first + second);
}

/// What comes out of the stages for `input`: each stage takes in what the one
/// before it gives out.
pub open spec fn cascade_output<A: Arithmetic>(
    stages: Seq<StageView<A>>,
    input: Seq<Complex<A::R>>,
) -> Seq<Complex<A::R>>
    decreases stages.len(),
{
    if stages.len() == 0 {
        input
    } else {
        cascade_output(stages.skip(1), stages[0].output(input))
    }
}

/// The stages once `input` has gone through all of them.
pub open spec fn cascade_next<A: Arithmetic>(
    stages: Seq<StageView<A>>,
    input: Seq<Complex<A::R>>,
) -> Seq<StageView<A>>
    decreases stages.len(),
{
    if stages.len() == 0 {
        stages
    } else {
        seq![stages[0].next(input)] + cascade_next(stages.skip(1), stages[0].output(input))
    }
}

/// The stages with their histories zero and the next sample kept.
pub open spec fn cleared_stages<A: Arithmetic>(stages: Seq<StageView<A>>) -> Seq<StageView<A>> {
    Seq::new(stages.len(), |k: int| stages[k].cleared())
}

/// By how much the stages decimate in all.
pub open spec fn cascade_ratio<A: Arithmetic>(stages: Seq<StageView<A>>) -> int
    decreases stages.len(),
{
    if stages.len() == 0 {
        1
    } else {
        stages[0].decimation * cascade_ratio(stages.skip(1))
    }
}

/// Rounding up twice is rounding up once.
proof fn quotient_up_twice(a: int, b: int, c: int)
    requires
        a >= 0,
        b > 0,
        c > 0,
    ensures
        quotient_up(quotient_up(a, b), c) == quotient_up(a, b * c),
        quotient_up(a, b) >= 0,
{
    if a > 0 {
        vstd::arithmetic::div_mod::lemma_div_denominator(a - 1, b, c);
        quotient_shrinks(a - 1, b);
    }
}

proof fn quotient_up_ordered(a: int, b: int, c: int)
    requires
        0 <= a <= b,
        c > 0,
    ensures
        quotient_up(a, c) <= quotient_up(b, c),
{
    if a > 0 {
        vstd::arithmetic::div_mod::lemma_div_is_ordered(a - 1, b - 1, c);
    } else if b > 0 {
        quotient_shrinks(b - 1, c);
    }
}

/// The stages give out at most one sample for each started group of as many
/// samples as they decimate by.
pub proof fn cascade_len<A: Arithmetic>(stages: Seq<StageView<A>>, input: Seq<Complex<A::R>>)
    requires
        forall|k: int| 0 <= k < stages.len() ==> (#[trigger] stages[k]).wf(),
    ensures
        cascade_output(stages, input).len() <= quotient_up(
            input.len() as int,
            cascade_ratio(stages),
        ),
        cascade_ratio(stages) > 0,
    decreases stages.len(),
{
    if stages.len() == 0 {
        if input.len() > 0 {
            assert((input.len() - 1) / 1 == input.len() - 1);
        }
    } else {
        let first = stages[0];
        let rest = stages.skip(1);
        let mid = first.output(input);
        assert(first.wf());
        assert forall|k: int| 0 <= k < rest.len() implies (#[trigger] rest[k]).wf() by {
            assert(rest[k] == stages[k + 1]);
        }
        cascade_len(rest, mid);
        grid_count_at_most(input.len() as int, first.offset, first.decimation);
        grid_bounds(input.len() as int, first.offset, first.decimation);
        quotient_up_ordered(
            mid.len() as int,
            quotient_up(input.len() as int, first.decimation),
            cascade_ratio(rest),
        );
        quotient_up_twice(input.len() as int, first.decimation, cascade_ratio(rest));
        assert(first.decimation * cascade_ratio(rest) > 0) by (nonlinear_arith)
            requires
                first.decimation > 0,
                cascade_ratio(rest) > 0,
        ;
    }
}

/// From the start of a stream on, the stages give out exactly one sample for
/// each started group of as many samples as they decimate by.
pub proof fn cleared_cascade_len<A: Arithmetic>(
    stages: Seq<StageView<A>>,
    input: Seq<Complex<A::R>>,
)
    requires
        forall|k: int|
            0 <= k < stages.len() ==> (#[trigger] stages[k]).wf() && stages[k].offset == 0,
    ensures
        cascade_output(stages, input).len() == quotient_up(
            input.len() as int,
            cascade_ratio(stages),
        ),
    decreases stages.len(),
{
    if stages.len() == 0 {
        if input.len() > 0 {
            assert((input.len() - 1) / 1 == input.len() - 1);
        }
    } else {
        let first = stages[0];
        let rest = stages.skip(1);
        assert(first.wf() && first.offset == 0);
        assert forall|k: int| 0 <= k < rest.len() implies (#[trigger] rest[k]).wf()
            && rest[k].offset == 0 by {
            assert(rest[k] == stages[k + 1]);
        }
        cleared_cascade_len(rest, first.output(input));
        cascade_len(rest, input);
        quotient_up_twice(input.len() as int, first.decimation, cascade_ratio(rest));
    }
}

/// What the stages make of a stream does not depend on how the stream is cut
/// into calls.
pub proof fn cascade_append<A: Arithmetic>(
    stages: Seq<StageView<A>>,
    xs: Seq<Complex<A::R>>,
    ys: Seq<Complex<A::R>>,
)
    requires
        forall|k: int| 0 <= k < stages.len() ==> (#[trigger] stages[k]).wf(),
    ensures
        cascade_output(stages, xs + ys) == cascade_output(stages, xs) + cascade_output(
            cascade_next(stages, xs),
            ys,
        ),
        cascade_next(stages, xs + ys) == cascade_next(cascade_next(stages, xs), ys),
    decreases stages.len(),
{
    if stages.len() > 0 {
        let first = stages[0];
        let rest = stages.skip(1);
        assert(first.wf());
        assert forall|k: int| 0 <= k < rest.len() implies (#[trigger] rest[k]).wf() by {
            assert(rest[k] == stages[k + 1]);
        }
        stage_append(first, xs, ys);
        cascade_append(rest, first.output(xs), first.next(xs).output(ys));
        let moved = cascade_next(stages, xs);
        assert(moved.skip(1) =~= cascade_next(rest, first.output(xs)));
    }
}

/// Decimator for complex samples by a power of two.
pub struct PowerDecimator<A: Arithmetic> {
    /// The stages, in order.
    pub stages: Vec<DecimStage<A>>,
    /// By how much the stages decimate in all.
    pub ratio: u32,
    /// What goes into a stage; the result behind the last one.
    pub buf_a: Vec<Complex<A::R>>,
    /// What comes out of a stage.
    pub buf_b: Vec<Complex<A::R>>,
}

/// A fresh stage with the table at index `table`.
pub open spec fn fresh_stage<A: Arithmetic>(tables: Seq<Vec<A::R>>, table: int) -> StageView<A> {
    StageView {
        taps: tables[table]@,
        history: repeated(complex::origin::<A>(), (tables[table]@.len() - 1) as nat),
        decimation: FIRST_DECIMATION@[table] as int,
        offset: 0,
    }
}

/// The stages of a fresh decimator by `2^bits`.
pub open spec fn fresh_stages<A: Arithmetic>(tables: Seq<Vec<A::R>>, bits: nat) -> Seq<
    StageView<A>,
> {
    let plan = plan_tables(bits - 1);
    Seq::new(plan.len(), |k: int| fresh_stage::<A>(tables, plan[k]))
}

/// The stages of a plan decimate by the product of the plan.
proof fn fresh_ratio<A: Arithmetic>(stages: Seq<StageView<A>>, plan: Seq<int>)
    requires
        stages.len() == plan.len(),
        forall|k: int|
            0 <= k < plan.len() ==> (#[trigger] stages[k]).decimation
                == FIRST_DECIMATION@[plan[k]],
    ensures
        cascade_ratio(stages) == plan_ratio(plan),
    decreases plan.len(),
{
    if plan.len() > 0 {
        assert(stages[0].decimation == FIRST_DECIMATION@[plan[0]]);
        assert forall|k: int| 0 <= k < plan.skip(1).len() implies (#[trigger] stages.skip(
            1,
        )[k]).decimation == FIRST_DECIMATION@[plan.skip(1)[k]] by {
            assert(stages.skip(1)[k] == stages[k + 1]);
        }
        fresh_ratio(stages.skip(1), plan.skip(1));
    }
}

impl<A: Arithmetic> PowerDecimator<A> {
    /// The stages.
    pub open spec fn view(self) -> Seq<StageView<A>> {
        Seq::new(self.stages@.len(), |k: int| self.stages@[k]@)
    }

    /// Every stage is well formed, and together they decimate by the ratio.
    pub open spec fn wf(self) -> bool {
        &&& forall|k: int| 0 <= k < self.stages@.len() ==> (#[trigger] self.stages@[k])@.wf()
        &&& cascade_ratio(self@) == self.ratio
    }

    /// Creates a decimator by `ratio`.
    pub fn new(ratio: u32, tables: &DecimTables<A>) -> (r: Result<Self, DspError>)
        requires
            tables.wf(),
        ensures
            match r {
                Err(e) => {
                    ||| (forall|m: nat| ratio != #[trigger] power_of_two(m))
                        && e@ == Fault::InvalidParameter(
                        "ratio must be a power of 2, got "@ + decimal(ratio as nat),
                    )
                    ||| (exists|m: nat| ratio == #[trigger] power_of_two(m)) && ratio > MAX_RATIO
                        && e@ == Fault::InvalidParameter(
                            "ratio ("@ + decimal(ratio as nat) + ") exceeds maximum ("@
                                + decimal(MAX_RATIO as nat) + ")"@,
                        )
                },
                Ok(d) => {
                    &&& ratio <= MAX_RATIO
                    &&& d.wf()
                    &&& d.ratio == ratio
                    &&& forall|k: int|
                        0 <= k < d.stages@.len() ==> {
                            &&& (#[trigger] d.stages@[k]).taps@.len() > 0
                            &&& symmetric::<A>(d.stages@[k].taps@)
                        }
                    &&& exists|m: nat|
                        ratio == #[trigger] power_of_two(m) && d@ == fresh_stages::<A>(
                            tables.tables@,
                            m,
                        )
                },
            },
    {
        let bits: u32 = match exact_log2(ratio as u64) {
            Some(bits) => bits,
            None => {
                return Err(
                    DspError::InvalidParameter(
                        String::from_str("ratio must be a power of 2, got ")
                            .concat(decimal_text(ratio as u64).as_str()),
                    ),
                );
            },
        };
        if ratio > MAX_RATIO {
            return Err(
                DspError::InvalidParameter(
                    String::from_str("ratio (")
                        .concat(decimal_text(ratio as u64).as_str())
                        .concat(") exceeds maximum (")
                        .concat(decimal_text(MAX_RATIO as u64).as_str())
                        .concat(")"),
                ),
            );
        }
        proof {
            if bits > 13 {
                power_of_two_ordered(14, bits as nat);
                reveal_with_fuel(power_of_two, 15);
            }
        }
        let stages: Vec<DecimStage<A>> = Self::build_stages(bits, tables);
        let d = PowerDecimator { stages, ratio, buf_a: Vec::new(), buf_b: Vec::new() };
        proof {
            assert(d@ =~= fresh_stages::<A>(tables.tables@, bits as nat));
            let plan = plan_tables(bits - 1);
            plan_ratio_matches(bits - 1);
            assert forall|k: int| 0 <= k < plan.len() implies (#[trigger] d@[k]).decimation
                == FIRST_DECIMATION@[plan[k]] by {
                assert(d@[k] == fresh_stage::<A>(tables.tables@, plan[k]));
            }
            fresh_ratio(d@, plan);
        }
        Ok(d)
    }

    /// The stages of the decimator by `2^bits`.
    fn build_stages(bits: u32, tables: &DecimTables<A>) -> (stages: Vec<DecimStage<A>>)
        requires
            tables.wf(),
            bits <= PLAN_COUNT,
        ensures
            stages@.len() == plan_tables(bits - 1).len(),
            forall|k: int|
                0 <= k < stages@.len() ==> {
                    &&& (#[trigger] stages@[k])@.wf()
                    &&& symmetric::<A>(stages@[k].taps@)
                    &&& stages@[k]@ == fresh_stage::<A>(
                        tables.tables@,
                        plan_tables(bits - 1)[k],
                    )
                },
    {
        let mut stages: Vec<DecimStage<A>> = Vec::new();
        if bits == 0 {
            return stages;
        }
        let plan: Vec<PlanStage> = plan_stages(bits as usize - 1);
        let mut k: usize = 0;
        while k < plan.len()
            invariant
                tables.wf(),
                k <= plan@.len(),
                plan@.len() == plan_tables(bits - 1).len(),
                forall|j: int|
                    0 <= j < plan@.len() ==> {
                        &&& (#[trigger] plan@[j]).table == plan_tables(bits - 1)[j]
                        &&& plan@[j].table < PLAN_COUNT
                        &&& plan@[j].decimation == FIRST_DECIMATION@[plan@[j].table as int]
                    },
                stages@.len() == k,
                forall|j: int|
                    0 <= j < k ==> {
                        &&& (#[trigger] stages@[j])@.wf()
                        &&& symmetric::<A>(stages@[j].taps@)
                        &&& stages@[j]@ == fresh_stage::<A>(
                            tables.tables@,
                            plan_tables(bits - 1)[j],
                        )
                    },
            decreases plan.len() - k,
        {
            let table: usize = plan[k].table;
            let decimation: usize = plan[k].decimation;
            assert(plan@[k as int].table == plan_tables(bits - 1)[k as int]);
            proof {
                crate::decim_taps::first_decimation_is_power(table as int);
            }
            let taps: Vec<A::R> = copied_slice(tables.tables[table].as_slice());
            stages.push(DecimStage::<A>::new(taps, decimation));
            k = k + 1;
        }
        stages
    }

    /// By how much the stages decimate in all.
    pub fn ratio(&self) -> (r: u32)
        ensures
            r == self.ratio,
    {
        self.ratio
    }

    /// Clears every stage.
    pub fn reset(&mut self)
        requires
            old(self).wf(),
        ensures
            final(self).wf(),
            final(self).ratio == old(self).ratio,
            final(self)@ == cleared_stages(old(self)@),
    {
        let ghost before = self@;
        let ghost cleared = cleared_stages(before);
        let mut k: usize = 0;
        while k < self.stages.len()
            invariant
                k <= self.stages@.len() == before.len(),
                before == old(self)@,
                self.ratio == old(self).ratio,
                cleared == cleared_stages(before),
                forall|j: int| 0 <= j < before.len() ==> (#[trigger] self.stages@[j])@.wf(),
                forall|j: int| 0 <= j < k ==> (#[trigger] self.stages@[j])@ == cleared[j],
                forall|j: int|
                    k <= j < before.len() ==> (#[trigger] self.stages@[j])@ == before[j],
            decreases self.stages.len() - k,
        {
            self.stages[k].reset();
            k = k + 1;
        }
        proof {
            assert(self@ =~= cleared);
            same_ratio(before, cleared);
        }
    }

    /// Group delay, in samples of the input: that of each stage is half of its
    /// filter's span, times the decimation before it.
    pub fn group_delay_input_samples<D: Arithmetic>(&self) -> (r: D::R)
        requires
            self.wf(),
        ensures
            r == cascade_delay::<A, D>(self@, self@.len()).0,
    {
        let mut delay: D::R = D::integer(0);
        let mut scale: D::R = D::integer(1);
        let mut k: usize = 0;
        while k < self.stages.len()
            invariant
                self.wf(),
                k <= self.stages@.len(),
                (delay, scale) == cascade_delay::<A, D>(self@, k as nat),
            decreases self.stages.len() - k,
        {
            assert(self.stages@[k as int]@.wf());
            assert(self@[k as int] == self.stages@[k as int]@);
            let span: usize = self.stages[k].taps.len() - 1;
            delay = D::plus(
                delay,
                D::times(D::over(D::count(span), D::integer(2)), scale),
            );
            scale = D::times(scale, D::count(self.stages[k].decimation));
            k = k + 1;
        }
        delay
    }

    /// Decimates `input` into `output` and returns the number of samples
    /// written. `output` must have room for one sample for each started group
    /// of as many samples as the ratio.
    pub fn process(&mut self, input: &[Complex<A::R>], output: &mut [Complex<A::R>]) -> (r: Result<
        usize,
        DspError,
    >)
        requires
            old(self).wf(),
        ensures
            final(self).wf(),
            final(self).ratio == old(self).ratio,
            match r {
                Err(e) => {
                    let need = quotient_up(input@.len() as int, old(self).ratio as int);
                    &&& old(output)@.len() < need
                    &&& e == DspError::BufferTooSmall {
                        need: need as usize,
                        got: old(output)@.len() as usize,
                    }
                    &&& *final(self) == *old(self)
                    &&& final(output)@ == old(output)@
                },
                Ok(n) => {
                    let made = cascade_output(old(self)@, input@);
                    &&& quotient_up(input@.len() as int, old(self).ratio as int) <= old(
                        output,
                    )@.len()
                    &&& n == made.len() <= old(output)@.len()
                    &&& final(output)@ == overwritten(old(output)@, made)
                    &&& final(self)@ == cascade_next(old(self)@, input@)
                },
            },
    {
        proof {
            cascade_len(self@, input@);
        }
        let expected_out: usize = if self.ratio as u64 > usize::MAX as u64 {
            if input.len() == 0 {
                0
            } else {
                1
            }
        } else {
            div_up(input.len(), self.ratio as usize)
        };
        if output.len() < expected_out {
            return Err(DspError::BufferTooSmall { need: expected_out, got: output.len() });
        }
        self.cascade(input);
        copy_to_front(self.buf_a.as_slice(), output);
        Ok(self.buf_a.len())
    }

    /// Runs `input` through the stages; the result is left in the first buffer.
    fn cascade(&mut self, input: &[Complex<A::R>])
        requires
            old(self).wf(),
        ensures
            final(self).wf(),
            final(self).ratio == old(self).ratio,
            final(self).buf_a@ == cascade_output(old(self)@, input@),
            final(self)@ == cascade_next(old(self)@, input@),
    {
        let ghost before = self@;
        self.buf_a.clear();
        append(&mut self.buf_a, input);
        assert(self.buf_a@ =~= input@);
        let mut k: usize = 0;
        proof {
            assert(before.skip(0) =~= before);
            assert(self@.take(0) + cascade_next(before, input@) =~= cascade_next(before, input@));
        }
        while k < self.stages.len()
            invariant
                k <= self.stages@.len() == before.len(),
                before == old(self)@,
                self.ratio == old(self).ratio,
                forall|j: int| 0 <= j < before.len() ==> (#[trigger] self.stages@[j])@.wf(),
                forall|j: int|
                    0 <= j < before.len() ==> (#[trigger] self.stages@[j])@.decimation
                        == before[j].decimation,
                forall|j: int|
                    k <= j < before.len() ==> (#[trigger] self.stages@[j])@ == before[j],
                cascade_output(before.skip(k as int), self.buf_a@) == cascade_output(
                    before,
                    input@,
                ),
                self@.take(k as int) + cascade_next(before.skip(k as int), self.buf_a@)
                    == cascade_next(before, input@),
            decreases self.stages.len() - k,
        {
            let ghost rest = before.skip(k as int);
            let ghost done = self@.take(k as int);
            let ghost fed = self.buf_a@;
            assert(self.stages@[k as int]@ == before[k as int]);
            self.stages[k].process(self.buf_a.as_slice(), &mut self.buf_b);
            std::mem::swap(&mut self.buf_a, &mut self.buf_b);
            proof {
                assert(rest[0] == before[k as int]);
                assert(rest.skip(1) =~= before.skip(k + 1));
                assert(self@.take(k + 1) =~= done.push(rest[0].next(fed)));
                assert(done + (seq![rest[0].next(fed)] + cascade_next(
                    rest.skip(1),
                    self.buf_a@,
                )) =~= self@.take(k + 1) + cascade_next(rest.skip(1), self.buf_a@));
            }
            k = k + 1;
        }
        proof {
            assert(before.skip(k as int) =~= Seq::empty());
            assert(self@.take(k as int) + before.skip(k as int) =~= self@);
            same_ratio(before, self@);
        }
    }
}

/// Stages that decimate alike have the same ratio.
pub proof fn same_ratio<A: Arithmetic>(a: Seq<StageView<A>>, b: Seq<StageView<A>>)
    requires
        a.len() == b.len(),
        forall|k: int| 0 <= k < a.len() ==> (#[trigger] a[k]).decimation == b[k].decimation,
    ensures
        cascade_ratio(a) == cascade_ratio(b),
    decreases a.len(),
{
    if a.len() > 0 {
        assert(a[0].decimation == b[0].decimation);
        assert forall|k: int| 0 <= k < a.skip(1).len() implies (#[trigger] a.skip(1)[k]).decimation
            == b.skip(1)[k].decimation by {
            assert(a.skip(1)[k] == a[k + 1]);
        }
        same_ratio(a.skip(1), b.skip(1));
    }
}

/// The group delay of the first `n` stages, and their decimation.
pub open spec fn cascade_delay<A: Arithmetic, D: Arithmetic>(
    stages: Seq<StageView<A>>,
    n: nat,
) -> (D::R, D::R)
    decreases n,
{
    if n == 0 {
        (D::integer_value(0), D::integer_value(1))
    } else {
        let before = cascade_delay::<A, D>(stages, (n - 1) as nat);
        let stage = stages[n - 1];
        (
            D::sum(
                before.0,
                D::product(
                    D::quotient(
                        D::count_value((stage.taps.len() - 1) as usize),
                        D::integer_value(2),
                    ),
                    before.1,
                ),
            ),
            D::product(before.1, D::count_value(stage.decimation as usize)),
        )
    }
}

/// A copy of `s`.
fn copied_slice<T: Copy>(s: &[T]) -> (r: Vec<T>)
    ensures
        r@ == s@,
{
    let mut r: Vec<T> = Vec::with_capacity(s.len());
    let mut i: usize = 0;
    while i < s.len()
        invariant
            i <= s@.len(),
            r@ =~= s@.take(i as int),
        decreases s.len() - i,
    {
        r.push(s[i]);
        i = i + 1;
    }
    assert(r@ =~= s@);
    r
}

/// Rates that differ by less than this, in hertz, are taken as equal.
pub const RATE_EQUALITY_TOLERANCE: i64 = 1;

/// By how much the power-of-two decimator takes the rate down first: the
/// largest power of two that does not go below the output rate, but no more
/// than [`MAX_RATIO`]; 1 where the rate does not go down.
pub open spec fn predecimation<D: Arithmetic>(in_rate: D::R, out_rate: D::R) -> int {
    if D::less(out_rate, in_rate) {
        let bits = D::natural_part(D::rounded_down(D::binary_log(D::quotient(in_rate, out_rate))));
        if bits >= PLAN_COUNT {
            MAX_RATIO as int
        } else {
            power_of_two(bits as nat)
        }
    } else {
        1
    }
}

/// The rate after the power-of-two decimator.
pub open spec fn intermediate_rate<D: Arithmetic>(in_rate: D::R, out_rate: D::R) -> D::R {
    let ratio = predecimation::<D>(in_rate, out_rate);
    if ratio >= 2 {
        D::quotient(in_rate, D::integer_value(ratio as i64))
    } else {
        in_rate
    }
}

/// Whether both rates can be converted: positive, finite and at least one
/// hertz.
pub open spec fn rates_usable<D: Arithmetic>(in_rate: D::R, out_rate: D::R) -> bool {
    &&& positive_finite::<D>(in_rate)
    &&& positive_finite::<D>(out_rate)
    &&& !D::less(in_rate, D::integer_value(1))
    &&& !D::less(out_rate, D::integer_value(1))
}

/// Whether the rates are taken as equal.
pub open spec fn rates_equal<D: Arithmetic>(in_rate: D::R, out_rate: D::R) -> bool {
    D::less(
        D::magnitude(D::difference(in_rate, out_rate)),
        D::integer_value(RATE_EQUALITY_TOLERANCE),
    )
}

/// A rate to the nearest hertz.
pub open spec fn whole_hertz<D: Arithmetic>(rate: D::R) -> int {
    D::natural_part(D::rounded(rate)) as int
}

/// Whether `interp / decim` is `out_rate / mid_rate` in lowest terms, with both
/// rates to the nearest hertz.
pub open spec fn lowest_terms<D: Arithmetic>(
    mid_rate: D::R,
    out_rate: D::R,
    interp: int,
    decim: int,
) -> bool {
    exists|g: int|
        {
            &&& 0 < g
            &&& #[trigger] is_gcd(g, whole_hertz::<D>(mid_rate), whole_hertz::<D>(out_rate))
            &&& interp == whole_hertz::<D>(out_rate) / g
            &&& decim == whole_hertz::<D>(mid_rate) / g
        }
}

/// A number that divides a positive number is no larger.
proof fn divisor_at_most(d: int, n: int)
    requires
        divides(d, n),
        0 < d,
        0 < n,
    ensures
        d <= n,
{
    let k = choose|k: int| n == #[trigger] (d * k);
    assert(d <= n) by (nonlinear_arith)
        requires
            n == d * k,
            0 < d,
            0 < n,
    ;
}

/// A ratio has its lowest terms in one way only.
pub proof fn lowest_terms_unique<D: Arithmetic>(
    mid_rate: D::R,
    out_rate: D::R,
    first: (int, int),
    second: (int, int),
)
    requires
        lowest_terms::<D>(mid_rate, out_rate, first.0, first.1),
        lowest_terms::<D>(mid_rate, out_rate, second.0, second.1),
    ensures
        first == second,
{
    let a = whole_hertz::<D>(mid_rate);
    let b = whole_hertz::<D>(out_rate);
    let g = choose|g: int|
        0 < g && #[trigger] is_gcd(g, a, b) && first.0 == b / g && first.1 == a / g;
    let h = choose|h: int|
        0 < h && #[trigger] is_gcd(h, a, b) && second.0 == b / h && second.1 == a / h;
    assert(divides(g, a) && divides(h, a));
    divisor_at_most(g, h);
    divisor_at_most(h, g);
}

/// The prototype of the polyphase filter before it is scaled: a low-pass
/// filter up to half of the lower rate, with a transition band a tenth of that
/// wide, at `interp` times the intermediate rate.
pub open spec fn prototype_design<A: Arithmetic, D: Widening<A>>(
    in_rate: D::R,
    out_rate: D::R,
    interp: usize,
) -> Result<Seq<A::R>, Fault> {
    let bandwidth = D::quotient(D::lesser(in_rate, out_rate), D::integer_value(2));
    taps::low_pass_design::<A, D>(
        bandwidth,
        D::product(bandwidth, D::fraction_value(1, 10)),
        D::product(intermediate_rate::<D>(in_rate, out_rate), D::count_value(interp)),
        true,
    )
}

/// `taps` scaled by `interp`.
pub open spec fn scaled_taps<A: Arithmetic>(taps: Seq<A::R>, interp: usize) -> Seq<A::R> {
    Seq::new(taps.len(), |i: int| A::product(taps[i], A::count_value(interp)))
}

/// How a [`RationalResampler`] converts.
#[derive(Clone, Copy, Debug, PartialEq, Eq)]
pub enum ResamplerMode {
    /// The rates are equal.
    Passthrough,
    /// By a power of two down.
    DecimOnly,
    /// By a rational ratio.
    ResampOnly,
    /// By a power of two down and then by a rational ratio.
    Both,
}

/// The state of a [`RationalResampler`].
pub struct RationalView<A: Arithmetic> {
    /// The stages of the decimator; none where there is no decimator.
    pub stages: Seq<StageView<A>>,
    /// The polyphase resampler, where there is one.
    pub poly: Option<PolyView<A>>,
}

impl<A: Arithmetic> RationalView<A> {
    /// The parts are well formed.
    pub open spec fn wf(self) -> bool {
        &&& forall|k: int| 0 <= k < self.stages.len() ==> (#[trigger] self.stages[k]).wf()
        &&& self.poly is Some ==> self.poly->0.wf()
    }

    /// What comes out for `input`.
    pub open spec fn output(self, input: Seq<Complex<A::R>>) -> Seq<Complex<A::R>> {
        let middle = cascade_output(self.stages, input);
        match self.poly {
            Some(f) => f.output(middle),
            None => middle,
        }
    }

    /// The state once `input` has gone through.
    pub open spec fn next(self, input: Seq<Complex<A::R>>) -> Self {
        RationalView {
            stages: cascade_next(self.stages, input),
            poly: match self.poly {
                Some(f) => Some(f.next(cascade_output(self.stages, input))),
                None => None,
            },
        }
    }

    /// The state with both parts cleared.
    pub open spec fn cleared(self) -> Self {
        RationalView {
            stages: cleared_stages(self.stages),
            poly: match self.poly {
                Some(f) => Some(f.cleared()),
                None => None,
            },
        }
    }
}

/// What a resampler makes of a stream does not depend on how the stream is cut
/// into calls.
pub proof fn rational_append<A: Arithmetic>(
    r: RationalView<A>,
    xs: Seq<Complex<A::R>>,
    ys: Seq<Complex<A::R>>,
)
    requires
        r.wf(),
    ensures
        r.output(xs + ys) == r.output(xs) + r.next(xs).output(ys),
        r.next(xs + ys) == r.next(xs).next(ys),
{
    cascade_append(r.stages, xs, ys);
    if r.poly is Some {
        poly_append(
            r.poly->0,
            cascade_output(r.stages, xs),
            cascade_output(cascade_next(r.stages, xs), ys),
        );
    }
}

/// [`rational_append`] for the polyphase part.
pub proof fn poly_append<A: Arithmetic>(
    f: PolyView<A>,
    xs: Seq<Complex<A::R>>,
    ys: Seq<Complex<A::R>>,
)
    requires
        f.wf(),
    ensures
        f.output(xs + ys) == f.output(xs) + f.next(xs).output(ys),
        f.next(xs + ys) == f.next(xs).next(ys),
{
    let n = f.phases.len() as int;
    resampled_append::<A>(f.phases, f.history, xs, ys, f.position, f.decim);
    assert((xs + ys).len() * n == xs.len() * n + ys.len() * n) by (nonlinear_arith)
        requires
            (xs + ys).len() == xs.len() + ys.len(),
    ;
    assert(0 <= xs.len() * n && 0 <= ys.len() * n) by (nonlinear_arith)
        requires
            n >= 0,
    ;
    grid_append(xs.len() * n, ys.len() * n, f.position, f.decim);
    crate::stream::tail_append(f.history, xs, ys);
}

/// An empty input has no output and changes nothing.
pub proof fn rational_empty<A: Arithmetic>(r: RationalView<A>, input: Seq<Complex<A::R>>)
    requires
        r.wf(),
        input.len() == 0,
    ensures
        r.output(input).len() == 0,
        r.next(input) == r,
{
    cascade_empty(r.stages, input);
    if r.poly is Some {
        let f = r.poly->0;
        let middle = cascade_output(r.stages, input);
        assert(middle.len() * f.phases.len() as int == 0) by (nonlinear_arith)
            requires
                middle.len() == 0,
        ;
        assert(tail(f.history + middle, f.history.len()) =~= f.history);
    }
}

/// [`rational_empty`] for the stages of the decimator.
proof fn cascade_empty<A: Arithmetic>(stages: Seq<StageView<A>>, input: Seq<Complex<A::R>>)
    requires
        forall|k: int| 0 <= k < stages.len() ==> (#[trigger] stages[k]).wf(),
        input.len() == 0,
    ensures
        cascade_output(stages, input).len() == 0,
        cascade_next(stages, input) == stages,
    decreases stages.len(),
{
    if stages.len() > 0 {
        let first = stages[0];
        let rest = stages.skip(1);
        assert(first.wf());
        assert forall|k: int| 0 <= k < rest.len() implies (#[trigger] rest[k]).wf() by {
            assert(rest[k] == stages[k + 1]);
        }
        cascade_empty(rest, first.output(input));
        assert(tail(first.history + input, first.history.len()) =~= first.history);
        assert(seq![first] + rest =~= stages);
    }
}

/// A resampler stays well formed.
pub proof fn rational_next_wf<A: Arithmetic>(r: RationalView<A>, input: Seq<Complex<A::R>>)
    requires
        r.wf(),
    ensures
        r.next(input).wf(),
{
    cascade_next_wf(r.stages, input);
    if r.poly is Some {
        let f = r.poly->0;
        let middle = cascade_output(r.stages, input);
        assert(0 <= middle.len() * f.phases.len() as int) by (nonlinear_arith)
            requires
                0 <= middle.len(),
                0 <= f.phases.len(),
        ;
        grid_bounds(middle.len() * f.phases.len() as int, f.position, f.decim);
    }
}

/// [`rational_next_wf`] for the stages of the decimator.
proof fn cascade_next_wf<A: Arithmetic>(stages: Seq<StageView<A>>, input: Seq<Complex<A::R>>)
    requires
        forall|k: int| 0 <= k < stages.len() ==> (#[trigger] stages[k]).wf(),
    ensures
        forall|k: int|
            0 <= k < cascade_next(stages, input).len() ==> (#[trigger] cascade_next(
                stages,
                input,
            )[k]).wf(),
    decreases stages.len(),
{
    if stages.len() > 0 {
        let first = stages[0];
        let rest = stages.skip(1);
        assert(first.wf());
        assert forall|k: int| 0 <= k < rest.len() implies (#[trigger] rest[k]).wf() by {
            assert(rest[k] == stages[k + 1]);
        }
        cascade_next_wf(rest, first.output(input));
        grid_bounds(input.len() as int, first.offset, first.decimation);
        let moved = cascade_next(stages, input);
        let later = cascade_next(rest, first.output(input));
        assert forall|k: int| 0 <= k < moved.len() implies (#[trigger] moved[k]).wf() by {
            if k > 0 {
                assert(moved[k] == later[k - 1]);
            }
        }
    }
}

/// What an input leaves behind is gone once the resampler is cleared.
pub proof fn cleared_next<A: Arithmetic>(r: RationalView<A>, input: Seq<Complex<A::R>>)
    ensures
        r.next(input).cleared() == r.cleared(),
{
    cleared_cascade_next(r.stages, input);
    if r.poly is Some {
        let f = r.poly->0;
        let middle = cascade_output(r.stages, input);
        assert(f.next(middle).history.len() == f.history.len());
        assert(f.next(middle).cleared().history =~= f.cleared().history);
    }
}

/// [`cleared_next`] for the stages of the decimator.
proof fn cleared_cascade_next<A: Arithmetic>(
    stages: Seq<StageView<A>>,
    input: Seq<Complex<A::R>>,
)
    ensures
        cleared_stages(cascade_next(stages, input)) == cleared_stages(stages),
    decreases stages.len(),
{
    let moved = cascade_next(stages, input);
    if stages.len() > 0 {
        let first = stages[0];
        let rest = stages.skip(1);
        let later = cascade_next(rest, first.output(input));
        cleared_cascade_next(rest, first.output(input));
        assert(first.next(input).history.len() == first.history.len());
        assert(first.next(input).cleared() == first.cleared());
        assert(cleared_stages(later).len() == cleared_stages(rest).len());
        assert forall|k: int| 0 <= k < stages.len() implies #[trigger] cleared_stages(moved)[k]
            == cleared_stages(stages)[k] by {
            if k > 0 {
                assert(moved[k] == later[k - 1]);
                assert(stages[k] == rest[k - 1]);
                assert(cleared_stages(later)[k - 1] == cleared_stages(rest)[k - 1]);
            }
        }
    }
    assert(cleared_stages(moved) =~= cleared_stages(stages));
}

/// To clear a cleared resampler changes nothing.
pub proof fn cleared_twice<A: Arithmetic>(r: RationalView<A>)
    ensures
        r.cleared().cleared() == r.cleared(),
{
    assert forall|k: int| 0 <= k < r.stages.len() implies #[trigger] cleared_stages(
        cleared_stages(r.stages),
    )[k] == cleared_stages(r.stages)[k] by {
        let stage = r.stages[k];
        assert(stage.cleared().history.len() == stage.history.len());
    }
    assert(r.cleared().cleared().stages =~= r.cleared().stages);
    if r.poly is Some {
        let f = r.poly->0;
        assert(f.cleared().history.len() == f.history.len());
        assert(f.cleared().cleared().history =~= f.cleared().history);
    }
}

/// Resampler for complex samples between any two rates.
pub struct RationalResampler<A: Arithmetic> {
    /// How the resampler converts.
    pub mode: ResamplerMode,
    /// Power-of-two decimator that comes first.
    pub decimator: Option<PowerDecimator<A>>,
    /// Polyphase resampler that comes last.
    pub resampler: Option<PolyphaseResampler<A>>,
}

/// One of the rates is below a hertz and rounds to none.
pub open spec fn below_one_hertz<D: Arithmetic>(in_rate: D::R, out_rate: D::R) -> Fault {
    Fault::InvalidParameter(
        "sample rates must be >= 1.0 Hz for integer GCD reduction (got "@ + D::text(in_rate) + ", "@
            + D::text(out_rate) + ")"@,
    )
}

/// [`below_one_hertz`].
fn rate_below_one_hertz<D: Arithmetic>(in_rate: D::R, out_rate: D::R) -> (e: DspError)
    ensures
        e@ == below_one_hertz::<D>(in_rate, out_rate),
{
    DspError::InvalidParameter(
        String::from_str("sample rates must be >= 1.0 Hz for integer GCD reduction (got ")
            .concat(D::to_text(in_rate).as_str())
            .concat(", ")
            .concat(D::to_text(out_rate).as_str())
            .concat(")"),
    )
}

impl<A: Arithmetic> RationalResampler<A> {
    /// The parts are those that the mode calls for, and well formed.
    pub open spec fn wf(self) -> bool {
        &&& self.decimator is Some <==> (self.mode is DecimOnly || self.mode is Both)
        &&& self.resampler is Some <==> (self.mode is ResampOnly || self.mode is Both)
        &&& self.decimator is Some ==> self.decimator->0.wf()
        &&& self.resampler is Some ==> self.resampler->0.wf()
    }

    /// The state of the resampler.
    pub open spec fn view(self) -> RationalView<A> {
        RationalView {
            stages: match self.decimator {
                Some(d) => d@,
                None => Seq::empty(),
            },
            poly: match self.resampler {
                Some(f) => Some(f@),
                None => None,
            },
        }
    }

    /// Whether `other` has the same parts and ratios.
    pub open spec fn same_shape(self, other: Self) -> bool {
        &&& self.mode == other.mode
        &&& match (self.decimator, other.decimator) {
            (Some(d), Some(e)) => d.ratio == e.ratio,
            (None, None) => true,
            _ => false,
        }
        &&& match (self.resampler, other.resampler) {
            (Some(f), Some(g)) => f.same_shape(g),
            (None, None) => true,
            _ => false,
        }
    }

    /// The state is well formed.
    pub proof fn view_wf(self)
        requires
            self.wf(),
        ensures
            self@.wf(),
    {
        if self.resampler is Some {
            self.resampler->0.view_wf();
        }
        if self.decimator is Some {
            let d = self.decimator->0;
            assert forall|k: int| 0 <= k < d@.len() implies (#[trigger] d@[k]).wf() by {
                assert(d.stages@[k]@.wf());
            }
        }
    }

    /// Room that [`Self::process`] asks for.
    pub open spec fn room(self, input: Seq<Complex<A::R>>) -> int {
        match (self.decimator, self.resampler) {
            (_, Some(f)) => f.room(cascade_output(self@.stages, input).len() as int),
            (Some(d), None) => quotient_up(input.len() as int, d.ratio as int),
            (None, None) => input.len() as int,
        }
    }

    /// The most room that [`Self::process`] asks for on an input of `len`
    /// samples, whatever the state of the parts.
    pub open spec fn most_room(self, len: int) -> int {
        let middle = match self.decimator {
            Some(d) => quotient_up(len, d.ratio as int),
            None => len,
        };
        match self.resampler {
            Some(f) => (middle * f.interp + f.interp) / f.decim as int + 1,
            None => middle,
        }
    }

    /// No input of at most `len` samples asks for more than
    /// [`Self::most_room`].
    pub proof fn room_bounded(self, input: Seq<Complex<A::R>>, len: int)
        requires
            self.wf(),
            input.len() <= len,
        ensures
            self.room(input) <= self.most_room(len),
    {
        let middle = match self.decimator {
            Some(d) => quotient_up(len, d.ratio as int),
            None => len,
        };
        let made = cascade_output(self@.stages, input);
        match self.decimator {
            Some(d) => {
                self.view_wf();
                cascade_len(d@, input);
                quotient_up_ordered(input.len() as int, len, d.ratio as int);
            },
            None => {},
        }
        if self.resampler is Some {
            let f = self.resampler->0;
            let n = made.len() as int;
            assert(n <= middle);
            let most = middle * f.interp + f.interp;
            if n > f.offset {
                let asked = (n - f.offset) * f.interp + f.phase;
                assert(0 <= asked <= most) by (nonlinear_arith)
                    requires
                        asked == (n - f.offset) * f.interp + f.phase,
                        most == middle * f.interp + f.interp,
                        f.offset < n <= middle,
                        0 <= f.offset,
                        0 <= f.phase < f.interp,
                ;
                vstd::arithmetic::div_mod::lemma_div_is_ordered(asked, most, f.decim as int);
            } else {
                assert(0 <= most) by (nonlinear_arith)
                    requires
                        most == middle * f.interp + f.interp,
                        0 <= middle,
                        0 <= f.interp,
                ;
                quotient_shrinks(most, f.decim as int);
            }
        }
    }

    /// [`Self::most_room`], where it is a number that a buffer's length can
    /// be.
    pub fn output_bound(&self, len: usize) -> (r: Option<usize>)
        requires
            self.wf(),
        ensures
            match r {
                Some(n) => n == self.most_room(len as int),
                None => self.most_room(len as int) > usize::MAX,
            },
    {
        let middle: usize = match &self.decimator {
            Some(d) => {
                proof {
                    self.view_wf();
                    cascade_len(d@, Seq::empty());
                    quotient_up_at_most(len as int, d.ratio as int);
                }
                div_up(len, d.ratio as usize)
            },
            None => len,
        };
        match &self.resampler {
            Some(f) => {
                assert(0 <= middle * f.interp <= usize::MAX * usize::MAX) by (nonlinear_arith)
                    requires
                        0 <= middle <= usize::MAX,
                        0 <= f.interp <= usize::MAX,
                ;
                assert(usize::MAX * usize::MAX + usize::MAX + 1 <= u128::MAX) by (nonlinear_arith)
                    requires
                        usize::MAX <= u64::MAX,
                ;
                let steps: u128 = middle as u128 * f.interp as u128 + f.interp as u128;
                proof {
                    quotient_shrinks(steps as int, f.decim as int);
                }
                let most: u128 = steps / f.decim as u128 + 1;
                if most > usize::MAX as u128 {
                    None
                } else {
                    Some(most as usize)
                }
            },
            None => Some(middle),
        }
    }

    /// Whether the resampler converts from `in_rate` to `out_rate`, with the
    /// filters fresh.
    pub open spec fn converts<D: Widening<A>>(
        self,
        in_rate: D::R,
        out_rate: D::R,
        tables: DecimTables<A>,
    ) -> bool {
        let ratio = predecimation::<D>(in_rate, out_rate);
        let mid_rate = intermediate_rate::<D>(in_rate, out_rate);
        if rates_equal::<D>(in_rate, out_rate) {
            self.decimator is None && self.resampler is None
        } else {
            &&& self.decimator is Some <==> ratio >= 2
            &&& self.decimator is Some ==> {
                &&& self.decimator->0.ratio == ratio
                &&& exists|m: nat|
                    ratio == #[trigger] power_of_two(m) && self.decimator->0@ == fresh_stages::<
                        A,
                    >(tables.tables@, m)
            }
            &&& exists|interp: usize, decim: usize|
                {
                    &&& #[trigger] lowest_terms::<D>(
                        mid_rate,
                        out_rate,
                        interp as int,
                        decim as int,
                    )
                    &&& self.resampler is Some <==> interp != decim
                    &&& self.resampler is Some ==> {
                        let f = self.resampler->0;
                        let design = prototype_design::<A, D>(in_rate, out_rate, interp);
                        &&& design is Ok
                        &&& f.interp == interp
                        &&& f.decim == decim
                        &&& f@ == f@.cleared()
                        &&& f.bank@ == bank_phases::<A>(
                            scaled_taps::<A>(design->Ok_0, interp),
                            interp as nat,
                        )
                        &&& f.bank.prototype_len == design->Ok_0.len()
                    }
                }
        }
    }

    /// Whether a conversion from `in_rate` to `out_rate` is refused with `e`.
    pub open spec fn refused<D: Widening<A>>(
        in_rate: D::R,
        out_rate: D::R,
        e: Fault,
    ) -> bool {
        let mid_rate = intermediate_rate::<D>(in_rate, out_rate);
        if !positive_finite::<D>(in_rate) {
            e == got::<D>("in_sample_rate must be positive and finite"@, in_rate)
        } else if !positive_finite::<D>(out_rate) {
            e == got::<D>("out_sample_rate must be positive and finite"@, out_rate)
        } else if !rates_usable::<D>(in_rate, out_rate) {
            e == below_one_hertz::<D>(in_rate, out_rate)
        } else if rates_equal::<D>(in_rate, out_rate) {
            false
        } else if whole_hertz::<D>(mid_rate) == 0 || whole_hertz::<D>(out_rate) == 0 {
            e == below_one_hertz::<D>(in_rate, out_rate)
        } else {
            exists|interp: int, decim: int|
                {
                    &&& #[trigger] lowest_terms::<D>(mid_rate, out_rate, interp, decim)
                    &&& if interp > usize::MAX || decim > usize::MAX {
                        e == Fault::InvalidParameter("ratio of the rates is too fine"@)
                    } else {
                        &&& interp != decim
                        &&& prototype_design::<A, D>(in_rate, out_rate, interp as usize)
                            == Err::<Seq<A::R>, Fault>(e)
                    }
                }
        }
    }

    /// Whether a conversion from `in_rate` to `out_rate` is not refused.
    pub open spec fn accepted<D: Widening<A>>(in_rate: D::R, out_rate: D::R) -> bool {
        forall|e: Fault| !(#[trigger] Self::refused::<D>(in_rate, out_rate, e))
    }

    /// A conversion is refused for one reason only.
    pub proof fn refusal_unique<D: Widening<A>>(
        in_rate: D::R,
        out_rate: D::R,
        e: Fault,
        f: Fault,
    )
        requires
            Self::refused::<D>(in_rate, out_rate, e),
            Self::refused::<D>(in_rate, out_rate, f),
        ensures
            e == f,
    {
        let mid_rate = intermediate_rate::<D>(in_rate, out_rate);
        if rates_usable::<D>(in_rate, out_rate) && whole_hertz::<D>(mid_rate) != 0
            && whole_hertz::<D>(out_rate) != 0 {
            assert forall|i: int, d: int, j: int, c: int|
                lowest_terms::<D>(mid_rate, out_rate, i, d) && lowest_terms::<D>(
                    mid_rate,
                    out_rate,
                    j,
                    c,
                ) implies i == j && d == c by {
                lowest_terms_unique::<D>(mid_rate, out_rate, (i, d), (j, c));
            }
        }
    }

    /// The lowest terms decide alone whether a conversion is refused.
    proof fn accepted_by_terms<D: Widening<A>>(
        in_rate: D::R,
        out_rate: D::R,
        interp: usize,
        decim: usize,
    )
        requires
            rates_usable::<D>(in_rate, out_rate),
            whole_hertz::<D>(intermediate_rate::<D>(in_rate, out_rate)) != 0,
            whole_hertz::<D>(out_rate) != 0,
            lowest_terms::<D>(
                intermediate_rate::<D>(in_rate, out_rate),
                out_rate,
                interp as int,
                decim as int,
            ),
            interp == decim || prototype_design::<A, D>(in_rate, out_rate, interp) is Ok,
        ensures
            Self::accepted::<D>(in_rate, out_rate),
    {
        let mid_rate = intermediate_rate::<D>(in_rate, out_rate);
        assert forall|i: int, d: int| #[trigger]
            lowest_terms::<D>(mid_rate, out_rate, i, d) implies i == interp && d == decim by {
            lowest_terms_unique::<D>(
                mid_rate,
                out_rate,
                (i, d),
                (interp as int, decim as int),
            );
        }
    }

    /// Creates a resampler from `in_sample_rate` to `out_sample_rate`, in
    /// hertz.
    pub fn new<D: Widening<A>>(
        in_sample_rate: D::R,
        out_sample_rate: D::R,
        tables: &DecimTables<A>,
    ) -> (r: Result<Self, DspError>)
        requires
            tables.wf(),
        ensures
            match r {
                Err(e) => Self::refused::<D>(in_sample_rate, out_sample_rate, e@),
                Ok(f) => {
                    &&& Self::accepted::<D>(in_sample_rate, out_sample_rate)
                    &&& rates_usable::<D>(in_sample_rate, out_sample_rate)
                    &&& f.wf()
                    &&& f.converts::<D>(in_sample_rate, out_sample_rate, *tables)
                },
            },
    {
        if !is_positive_finite::<D>(in_sample_rate) {
            return Err(
                got_instead::<D>("in_sample_rate must be positive and finite", in_sample_rate),
            );
        }
        if !is_positive_finite::<D>(out_sample_rate) {
            return Err(
                got_instead::<D>("out_sample_rate must be positive and finite", out_sample_rate),
            );
        }
        if D::lt(in_sample_rate, D::integer(1)) || D::lt(out_sample_rate, D::integer(1)) {
            return Err(rate_below_one_hertz::<D>(in_sample_rate, out_sample_rate));
        }
        if D::lt(
            D::abs(D::minus(in_sample_rate, out_sample_rate)),
            D::integer(RATE_EQUALITY_TOLERANCE),
        ) {
            return Ok(
                RationalResampler {
                    mode: ResamplerMode::Passthrough,
                    decimator: None,
                    resampler: None,
                },
            );
        }
        let ratio: u32 = Self::predecimation_ratio::<D>(in_sample_rate, out_sample_rate);
        let mut mid_rate: D::R = in_sample_rate;
        let mut decimator: Option<PowerDecimator<A>> = None;
        if ratio >= 2 {
            match PowerDecimator::<A>::new(ratio, tables) {
                Ok(d) => {
                    decimator = Some(d);
                },
                Err(e) => {
                    assert(false);
                    return Err(e);
                },
            }
            mid_rate = D::over(in_sample_rate, D::integer(ratio as i64));
        }
        let int_sr: u64 = D::to_u64(D::round(mid_rate));
        let out_sr: u64 = D::to_u64(D::round(out_sample_rate));
        if int_sr == 0 || out_sr == 0 {
            return Err(rate_below_one_hertz::<D>(in_sample_rate, out_sample_rate));
        }
        let g: u64 = gcd(int_sr, out_sr);
        let up: u64 = out_sr / g;
        let down: u64 = int_sr / g;
        proof {
            assert(is_gcd(
                g as int,
                whole_hertz::<D>(mid_rate),
                whole_hertz::<D>(out_sample_rate),
            ));
            assert(lowest_terms::<D>(mid_rate, out_sample_rate, up as int, down as int));
        }
        if up > usize::MAX as u64 || down > usize::MAX as u64 {
            return Err(invalid("ratio of the rates is too fine"));
        }
        let interp: usize = up as usize;
        let decim: usize = down as usize;
        if interp == decim {
            let mode: ResamplerMode = if decimator.is_some() {
                ResamplerMode::DecimOnly
            } else {
                ResamplerMode::Passthrough
            };
            proof {
                Self::accepted_by_terms::<D>(in_sample_rate, out_sample_rate, interp, decim);
            }
            return Ok(RationalResampler { mode, decimator, resampler: None });
        }
        let bandwidth: D::R = D::over(
            D::min(in_sample_rate, out_sample_rate),
            D::integer(2),
        );
        let design: Result<Vec<A::R>, DspError> = taps::low_pass::<A, D>(
            bandwidth,
            D::times(bandwidth, D::fraction(1, 10)),
            D::times(mid_rate, D::count(interp)),
            true,
        );
        let prototype: Vec<A::R> = match design {
            Ok(designed) => Self::scale_taps(&designed, interp),
            Err(e) => {
                return Err(e);
            },
        };
        proof {
            quotients_positive(g as int, int_sr as int, out_sr as int);
            Self::accepted_by_terms::<D>(in_sample_rate, out_sample_rate, interp, decim);
        }
        let resampler: PolyphaseResampler<A> = match PolyphaseResampler::<A>::new(
            interp,
            decim,
            prototype.as_slice(),
        ) {
            Ok(f) => f,
            Err(e) => {
                assert(false);
                return Err(e);
            },
        };
        let mode: ResamplerMode = if decimator.is_some() {
            ResamplerMode::Both
        } else {
            ResamplerMode::ResampOnly
        };
        Ok(RationalResampler { mode, decimator, resampler: Some(resampler) })
    }

    fn predecimation_ratio<D: Widening<A>>(in_rate: D::R, out_rate: D::R) -> (ratio: u32)
        ensures
            ratio == predecimation::<D>(in_rate, out_rate),
            1 <= ratio <= MAX_RATIO,
            exists|m: nat| ratio == #[trigger] power_of_two(m),
    {
        proof {
            reveal_with_fuel(power_of_two, 14);
            assert(power_of_two(0) == 1);
            assert(power_of_two(13) == MAX_RATIO);
        }
        if !D::lt(out_rate, in_rate) {
            return 1;
        }
        let bits: u64 = D::to_u64(D::floor(D::log2(D::over(in_rate, out_rate))));
        if bits >= PLAN_COUNT as u64 {
            return MAX_RATIO;
        }
        let mut ratio: u32 = 1;
        let mut i: u64 = 0;
        while i < bits
            invariant
                i <= bits < PLAN_COUNT,
                ratio == power_of_two(i as nat),
                power_of_two(13) == MAX_RATIO,
                1 <= ratio <= MAX_RATIO,
            decreases bits - i,
        {
            proof {
                power_of_two_ordered((i + 1) as nat, 13);
            }
            ratio = ratio * 2;
            i = i + 1;
        }
        ratio
    }

    fn scale_taps(designed: &Vec<A::R>, interp: usize) -> (r: Vec<A::R>)
        ensures
            r@ == scaled_taps::<A>(designed@, interp),
    {
        let gain: A::R = A::count(interp);
        let mut r: Vec<A::R> = Vec::with_capacity(designed.len());
        let mut i: usize = 0;
        while i < designed.len()
            invariant
                i <= designed@.len(),
                gain == A::count_value(interp),
                r@ =~= scaled_taps::<A>(designed@, interp).take(i as int),
            decreases designed.len() - i,
        {
            r.push(A::times(designed[i], gain));
            i = i + 1;
        }
        assert(r@ =~= scaled_taps::<A>(designed@, interp));
        r
    }

    /// Clears the parts.
    pub fn reset(&mut self)
        requires
            old(self).wf(),
        ensures
            final(self).wf(),
            final(self).same_shape(*old(self)),
            final(self)@ == old(self)@.cleared(),
    {
        match &mut self.decimator {
            Some(d) => d.reset(),
            None => {},
        }
        match &mut self.resampler {
            Some(f) => f.reset(),
            None => {},
        }
        assert(self@.stages =~= old(self)@.cleared().stages);
    }

    /// The group delay of both parts, in samples of the input, before it is
    /// rounded.
    pub open spec fn delay<D: Arithmetic>(self) -> D::R {
        let one = D::integer_value(1);
        let zero = D::integer_value(0);
        let first = match self.decimator {
            Some(d) => cascade_delay::<A, D>(d@, d@.len()).0,
            None => zero,
        };
        let before = match self.decimator {
            Some(d) => D::integer_value(d.ratio as i64),
            None => one,
        };
        let second = match self.resampler {
            Some(f) => D::quotient(
                D::quotient(
                    D::count_value(
                        (if f.bank.prototype_len > 0 {
                            f.bank.prototype_len - 1
                        } else {
                            0
                        }) as usize,
                    ),
                    D::integer_value(2),
                ),
                D::count_value(f.interp),
            ),
            None => zero,
        };
        D::sum(first, D::product(second, before))
    }

    /// [`Self::delay`], rounded to whole samples.
    pub open spec fn whole_delay<D: Arithmetic>(self) -> int {
        let whole = D::natural_part(
            D::greater(D::rounded(self.delay::<D>()), D::integer_value(0)),
        );
        if whole > usize::MAX {
            usize::MAX as int
        } else {
            whole as int
        }
    }

    /// Group delay, rounded to whole samples of the input.
    pub fn group_delay_input_samples<D: Arithmetic>(&self) -> (r: usize)
        requires
            self.wf(),
        ensures
            r == self.whole_delay::<D>(),
    {
        let first: D::R = match &self.decimator {
            Some(d) => d.group_delay_input_samples::<D>(),
            None => D::integer(0),
        };
        let before: D::R = match &self.decimator {
            Some(d) => D::integer(d.ratio() as i64),
            None => D::integer(1),
        };
        let second: D::R = match &self.resampler {
            Some(f) => f.group_delay_input_samples::<D>(),
            None => D::integer(0),
        };
        let delay: D::R = D::plus(first, D::times(second, before));
        let whole: u64 = D::to_u64(D::max(D::round(delay), D::integer(0)));
        if whole > usize::MAX as u64 {
            usize::MAX
        } else {
            whole as usize
        }
    }

    /// Resamples `input` into `output` and returns the number of samples
    /// written. Where `output` is refused behind a decimator, the decimator
    /// has taken `input` in all the same.
    pub fn process(&mut self, input: &[Complex<A::R>], output: &mut [Complex<A::R>]) -> (r: Result<
        usize,
        DspError,
    >)
        requires
            old(self).wf(),
        ensures
            final(self).wf(),
            final(self).same_shape(*old(self)),
            match r {
                Err(e) => {
                    let need = old(self).room(input@);
                    &&& old(output)@.len() < need
                    &&& e == DspError::BufferTooSmall {
                        need: (if need > usize::MAX {
                            usize::MAX as int
                        } else {
                            need
                        }) as usize,
                        got: old(output)@.len() as usize,
                    }
                    &&& final(output)@ == old(output)@
                    &&& final(self)@.poly == old(self)@.poly
                    &&& final(self)@.stages == (if old(self).mode is Both {
                        cascade_next(old(self)@.stages, input@)
                    } else {
                        old(self)@.stages
                    })
                },
                Ok(n) => {
                    let made = old(self)@.output(input@);
                    &&& old(self).room(input@) <= old(output)@.len()
                    &&& n == made.len() <= old(output)@.len()
                    &&& final(output)@ == overwritten(old(output)@, made)
                    &&& final(self)@ == old(self)@.next(input@)
                },
            },
    {
        let len: usize = input.len();
        match &mut self.decimator {
            None => match &mut self.resampler {
                None => {
                    if output.len() < len {
                        return Err(DspError::BufferTooSmall { need: len, got: output.len() });
                    }
                    copy_to_front(input, output);
                    Ok(len)
                },
                Some(f) => f.process(input, output),
            },
            Some(d) => match &mut self.resampler {
                None => {
                    proof {
                        cascade_len(d@, input@);
                        quotient_up_at_most(len as int, d.ratio as int);
                    }
                    d.process(input, output)
                },
                Some(f) => {
                    d.cascade(input);
                    f.process(d.buf_a.as_slice(), output)
                },
            },
        }
    }
}

/// Rounding up a quotient by a positive number does not go above what is
/// divided.
proof fn quotient_up_at_most(a: int, b: int)
    requires
        a >= 0,
        b > 0,
    ensures
        0 <= quotient_up(a, b) <= a,
{
    if a > 0 {
        quotient_shrinks(a - 1, b);
    }
}

/// Dividing by a common divisor leaves something.
proof fn quotients_positive(g: int, a: int, b: int)
    requires
        is_gcd(g, a, b),
        0 < g,
        0 < a,
        0 < b,
    ensures
        a / g > 0,
        b / g > 0,
{
    let k = choose|k: int| a == #[trigger] (g * k);
    let l = choose|l: int| b == #[trigger] (g * l);
    assert(k > 0) by (nonlinear_arith)
        requires
            0 < g * k,
            0 < g,
    ;
    assert(l > 0) by (nonlinear_arith)
        requires
            0 < g * l,
            0 < g,
    ;
    lemma_fundamental_div_mod_converse(a, g, k, 0);
    lemma_fundamental_div_mod_converse(b, g, l, 0);
}

/// The gain of a filter at zero frequency: the sum of its taps.
pub open spec fn level_gain<A: Arithmetic>(taps: Seq<A::R>) -> A::R {
    sum_of::<A>(taps, taps.len())
}

/// The taps of a filter that runs at `interp` times a rate add up to `interp`
/// times what the design adds up to, which makes up for the `interp - 1` steps
/// of each sample that hold nothing.
pub proof fn scaling_makes_up_for_empty_steps<A: Arithmetic>(taps: Seq<A::R>, interp: usize)
    requires
        exact_laws::<A>(),
        all_finite::<A>(taps),
    ensures
        level_gain::<A>(scaled_taps::<A>(taps, interp)) == A::product(
            level_gain::<A>(taps),
            A::count_value(interp),
        ),
        all_finite::<A>(scaled_taps::<A>(taps, interp)),
{
    counts::<A>(interp);
    let scaled = scaled_taps::<A>(taps, interp);
    assert forall|i: int| 0 <= i < scaled.len() implies A::finite(#[trigger] scaled[i]) by {
        stays_finite::<A>(taps[i], A::count_value(interp));
    }
    sum_of_multiples::<A>(taps, scaled, A::count_value(interp), taps.len());
}

/// `prototype` with zeros behind it up to whole rounds of the phases.
spec fn filled_up<A: Arithmetic>(prototype: Seq<A::R>, phase_count: nat) -> Seq<A::R> {
    let rounds = quotient_up(prototype.len() as int, phase_count as int);
    Seq::new(
        (rounds * phase_count) as nat,
        |i: int|
            if i < prototype.len() {
                prototype[i]
            } else {
                A::integer_value(0)
            },
    )
}

/// What the first `n` taps of each phase add up to.
spec fn phase_sums<A: Arithmetic>(phases: Seq<Seq<A::R>>, n: nat) -> Seq<A::R> {
    Seq::new(phases.len(), |p: int| sum_of::<A>(phases[p], n))
}

/// Every phase has finite taps.
proof fn phases_finite<A: Arithmetic>(prototype: Seq<A::R>, phase_count: nat)
    requires
        exact_laws::<A>(),
        all_finite::<A>(prototype),
        0 < phase_count,
    ensures
        forall|p: int|
            0 <= p < phase_count ==> all_finite::<A>(
                #[trigger] bank_phases::<A>(prototype, phase_count)[p],
            ),
{
    whole_numbers::<A>(0);
    let phases = bank_phases::<A>(prototype, phase_count);
    assert forall|p: int| 0 <= p < phase_count implies all_finite::<A>(#[trigger] phases[p]) by {
        assert forall|j: int| 0 <= j < phases[p].len() implies A::finite(
            #[trigger] phases[p][j],
        ) by {
            let i = tap_index(phase_count as int, p, j);
            assert(0 <= j * phase_count) by (nonlinear_arith)
                requires
                    0 <= j,
                    0 < phase_count,
            ;
            if i < prototype.len() {
                assert(A::finite(prototype[i]));
            }
        }
    }
}

/// The first `n` taps of all phases add up to the first `n` rounds of the
/// prototype.
proof fn rounds_add_up<A: Arithmetic>(prototype: Seq<A::R>, phase_count: nat, n: nat)
    requires
        exact_laws::<A>(),
        all_finite::<A>(prototype),
        0 < phase_count,
        n <= quotient_up(prototype.len() as int, phase_count as int),
    ensures
        ({
            let phases = bank_phases::<A>(prototype, phase_count);
            let whole = filled_up::<A>(prototype, phase_count);
            &&& 0 <= n * phase_count <= whole.len()
            &&& all_finite::<A>(phase_sums::<A>(phases, n))
            &&& sum_of::<A>(phase_sums::<A>(phases, n), phase_count) == sum_of::<A>(
                whole,
                (n * phase_count) as nat,
            )
        }),
    decreases n,
{
    let rounds = quotient_up(prototype.len() as int, phase_count as int);
    let phases = bank_phases::<A>(prototype, phase_count);
    let whole = filled_up::<A>(prototype, phase_count);
    let sums = phase_sums::<A>(phases, n);
    whole_numbers::<A>(0);
    phases_finite::<A>(prototype, phase_count);
    assert(0 <= n * phase_count <= rounds * phase_count) by (nonlinear_arith)
        requires
            0 <= n <= rounds,
            0 < phase_count,
    ;
    assert forall|p: int| 0 <= p < sums.len() implies A::finite(#[trigger] sums[p]) by {
        sum_of_finite::<A>(phases[p], n);
    }
    if n == 0 {
        sum_of_zeros::<A>(sums, phase_count);
        assert(n * phase_count == 0) by (nonlinear_arith)
            requires
                n == 0,
        ;
    } else {
        let m = (n - 1) as nat;
        rounds_add_up::<A>(prototype, phase_count, m);
        let before = phase_sums::<A>(phases, m);
        let start = (m * phase_count) as int;
        let fresh = Seq::new(phase_count, |p: int| phases[p][m as int]);
        let round = whole.subrange(start, start + phase_count);
        assert(n * phase_count == m * phase_count + phase_count) by (nonlinear_arith)
            requires
                n == m + 1,
        ;
        assert(all_finite::<A>(whole)) by {
            assert forall|i: int| 0 <= i < whole.len() implies A::finite(#[trigger] whole[i]) by {
                if i < prototype.len() {
                    assert(A::finite(prototype[i]));
                }
            }
        }
        assert forall|p: int| 0 <= p < phase_count implies A::finite(#[trigger] fresh[p]) by {
            assert(all_finite::<A>(phases[p]));
            assert(A::finite(phases[p][m as int]));
        }
        assert forall|i: int| 0 <= i < round.len() implies A::finite(#[trigger] round[i]) by {
            assert(round[i] == whole[start + i]);
        }
        assert forall|p: int| 0 <= p < phase_count implies #[trigger] fresh[p] == round[round.len()
            - 1 - p] by {
            assert(tap_index(phase_count as int, p, m as int) == start + phase_count - 1 - p);
        }
        assert forall|p: int| 0 <= p < phase_count implies #[trigger] sums[p] == A::sum(
            before[p],
            fresh[p],
        ) by {}
        sum_of_pairs::<A>(before, fresh, sums, phase_count);
        sum_of_reversed::<A>(round, fresh);
        let first = whole.take(start);
        assert(all_finite::<A>(first)) by {
            assert forall|i: int| 0 <= i < first.len() implies A::finite(#[trigger] first[i]) by {
                assert(first[i] == whole[i]);
            }
        }
        sum_of_parts::<A>(first, round, phase_count);
        sum_of_same::<A>(first + round, whole, (n * phase_count) as nat);
        sum_of_same::<A>(first, whole, (m * phase_count) as nat);
    }
}

/// What the phases of a bank add up to, all together, is what the prototype adds
/// up to.
pub proof fn phases_share_the_gain<A: Arithmetic>(prototype: Seq<A::R>, phase_count: nat)
    requires
        exact_laws::<A>(),
        all_finite::<A>(prototype),
        0 < phase_count,
    ensures
        ({
            let phases = bank_phases::<A>(prototype, phase_count);
            sum_of::<A>(
                Seq::new(phase_count, |p: int| level_gain::<A>(phases[p])),
                phase_count,
            ) == level_gain::<A>(prototype)
        }),
{
    let rounds = quotient_up(prototype.len() as int, phase_count as int);
    let phases = bank_phases::<A>(prototype, phase_count);
    let whole = filled_up::<A>(prototype, phase_count);
    let len = prototype.len() as int;
    whole_numbers::<A>(0);
    assert(0 <= rounds && len <= rounds * phase_count) by {
        if len > 0 {
            quotient_shrinks(len - 1, phase_count as int);
            lemma_fundamental_div_mod(len - 1, phase_count as int);
            let q = (len - 1) / (phase_count as int);
            assert(len <= (q + 1) * phase_count) by (nonlinear_arith)
                requires
                    len - 1 == phase_count * q + (len - 1) % (phase_count as int),
                    (len - 1) % (phase_count as int) < phase_count,
            ;
        } else {
            assert(rounds * phase_count == 0) by (nonlinear_arith)
                requires
                    rounds == 0,
            ;
        }
    }
    rounds_add_up::<A>(prototype, phase_count, rounds as nat);
    let gains = Seq::new(phase_count, |p: int| level_gain::<A>(phases[p]));
    sum_of_same::<A>(gains, phase_sums::<A>(phases, rounds as nat), phase_count);
    let padding = whole.skip(len);
    assert(whole =~= prototype + padding);
    assert forall|i: int| 0 <= i < padding.len() implies #[trigger] padding[i]
        == A::integer_value(0) by {}
    sum_of_zeros::<A>(padding, padding.len());
    sum_of_parts::<A>(prototype, padding, padding.len());
    sum_of_finite::<A>(prototype, prototype.len());
    sum_with_zero::<A>(level_gain::<A>(prototype));
}

/// Equal numbers add up to their number times one of them.
proof fn sum_of_equal<A: Arithmetic>(xs: Seq<A::R>, g: A::R, n: nat)
    requires
        exact_laws::<A>(),
        n <= xs.len(),
        n <= usize::MAX,
        A::finite(g),
        forall|i: int| 0 <= i < n ==> #[trigger] xs[i] == g,
    ensures
        sum_of::<A>(xs, n) == A::product(g, A::count_value(n as usize)),
    decreases n,
{
    let zeros = repeated(A::integer_value(0), n);
    whole_numbers::<A>(0);
    sum_of_raised::<A>(zeros, g, n);
    sum_of_zeros::<A>(zeros, n);
    let raised = raised_by::<A>(zeros, g);
    assert forall|i: int| 0 <= i < n implies #[trigger] raised[i] == xs[i] by {
        sum_with_zero::<A>(g);
    }
    sum_of_same::<A>(raised, xs, n);
    counts::<A>(n as usize);
    stays_finite::<A>(g, A::count_value(n as usize));
    sum_with_zero::<A>(A::product(g, A::count_value(n as usize)));
}

/// Where all phases of a bank have the same gain, it is the gain of the design
/// that the bank is made of.
pub proof fn phase_gain_is_design_gain<A: Arithmetic>(
    design: Seq<A::R>,
    interp: usize,
    gain: A::R,
)
    requires
        exact_laws::<A>(),
        all_finite::<A>(design),
        0 < interp,
        A::finite(gain),
        forall|p: int|
            0 <= p < interp ==> level_gain::<A>(
                #[trigger] bank_phases::<A>(scaled_taps::<A>(design, interp), interp as nat)[p],
            ) == gain,
    ensures
        gain == level_gain::<A>(design),
{
    let prototype = scaled_taps::<A>(design, interp);
    let phases = bank_phases::<A>(prototype, interp as nat);
    let count = A::count_value(interp);
    scaling_makes_up_for_empty_steps::<A>(design, interp);
    phases_share_the_gain::<A>(prototype, interp as nat);
    let gains = Seq::new(interp as nat, |p: int| level_gain::<A>(phases[p]));
    assert forall|p: int| 0 <= p < interp implies #[trigger] gains[p] == gain by {
        assert(level_gain::<A>(phases[p]) == gain);
    }
    sum_of_equal::<A>(gains, gain, interp as nat);
    counts::<A>(interp);
    sum_of_finite::<A>(design, design.len());
    products_undo::<A>(gain, count);
    products_undo::<A>(level_gain::<A>(design), count);
}

/// A filter of unit gain passes a constant.
proof fn constant_through_taps<A: Arithmetic>(c: A::R, gain: A::R)
    requires
        exact_laws::<A>(),
        A::finite(c),
        gain == A::integer_value(1),
    ensures
        A::product(c, gain) == c,
{
    sum_with_zero::<A>(c);
}

/// Whether a resampler has settled on the constant `c`: it has heard nothing
/// else.
pub open spec fn settled_on<A: Arithmetic>(r: RationalView<A>, c: Complex<A::R>) -> bool {
    &&& forall|k: int|
        0 <= k < r.stages.len() ==> (#[trigger] r.stages[k]).history == repeated(
            c,
            r.stages[k].history.len(),
        )
    &&& r.poly is Some ==> r.poly->0.history == repeated(c, r.poly->0.history.len())
}

/// Whether every filter of a resampler has finite taps and unit gain.
pub open spec fn unit_gain<A: Arithmetic>(r: RationalView<A>) -> bool {
    let one = A::integer_value(1);
    &&& forall|k: int|
        0 <= k < r.stages.len() ==> all_finite::<A>((#[trigger] r.stages[k]).taps)
            && level_gain::<A>(r.stages[k].taps) == one
    &&& r.poly is Some ==> forall|p: int|
        0 <= p < r.poly->0.phases.len() ==> all_finite::<A>(#[trigger] r.poly->0.phases[p])
            && level_gain::<A>(r.poly->0.phases[p]) == one
}

/// A decimating stage of unit gain passes a constant.
proof fn stage_keeps_level<A: Arithmetic>(s: StageView<A>, c: Complex<A::R>, len: nat)
    requires
        exact_laws::<A>(),
        s.wf(),
        all_finite::<A>(s.taps),
        level_gain::<A>(s.taps) == A::integer_value(1),
        s.history == repeated(c, s.history.len()),
        A::finite(c.re),
        A::finite(c.im),
    ensures
        s.output(repeated(c, len)) == repeated(c, s.output(repeated(c, len)).len()),
{
    let input = repeated(c, len);
    let made = s.output(input);
    let stream = s.history + input;
    assert forall|i: int| 0 <= i < made.len() implies made[i] == c by {
        grid_point_below(len as int, s.offset, s.decimation, i);
        let at = s.history.len() + s.offset + i * s.decimation;
        assert(0 <= i * s.decimation) by (nonlinear_arith)
            requires
                0 <= i,
                0 < s.decimation,
        ;
        assert forall|j: int| 0 <= j < s.taps.len() implies #[trigger] reals(stream)[at - j]
            == c.re by {}
        assert forall|j: int| 0 <= j < s.taps.len() implies #[trigger] imags(stream)[at - j]
            == c.im by {}
        convolved_constant::<A>(s.taps, reals(stream), at, c.re, s.taps.len());
        convolved_constant::<A>(s.taps, imags(stream), at, c.im, s.taps.len());
        constant_through_taps::<A>(c.re, level_gain::<A>(s.taps));
        constant_through_taps::<A>(c.im, level_gain::<A>(s.taps));
    }
    assert(made =~= repeated(c, made.len()));
}

/// A cascade of stages of unit gain passes a constant.
proof fn cascade_keeps_level<A: Arithmetic>(
    stages: Seq<StageView<A>>,
    c: Complex<A::R>,
    len: nat,
)
    requires
        exact_laws::<A>(),
        forall|k: int|
            0 <= k < stages.len() ==> {
                let s = #[trigger] stages[k];
                &&& s.wf()
                &&& all_finite::<A>(s.taps)
                &&& level_gain::<A>(s.taps) == A::integer_value(1)
                &&& s.history == repeated(c, s.history.len())
            },
        A::finite(c.re),
        A::finite(c.im),
    ensures
        cascade_output(stages, repeated(c, len)) == repeated(
            c,
            cascade_output(stages, repeated(c, len)).len(),
        ),
    decreases stages.len(),
{
    if stages.len() > 0 {
        let first = stages[0];
        let rest = stages.skip(1);
        stage_keeps_level::<A>(first, c, len);
        assert forall|k: int| 0 <= k < rest.len() implies {
            let s = #[trigger] rest[k];
            &&& s.wf()
            &&& all_finite::<A>(s.taps)
            &&& level_gain::<A>(s.taps) == A::integer_value(1)
            &&& s.history == repeated(c, s.history.len())
        } by {
            assert(rest[k] == stages[k + 1]);
        }
        cascade_keeps_level::<A>(rest, c, first.output(repeated(c, len)).len());
    }
}

/// A polyphase resampler whose phases have unit gain passes a constant.
proof fn poly_keeps_level<A: Arithmetic>(r: PolyView<A>, c: Complex<A::R>, len: nat)
    requires
        exact_laws::<A>(),
        r.wf(),
        r.history == repeated(c, r.history.len()),
        forall|p: int|
            0 <= p < r.phases.len() ==> all_finite::<A>(#[trigger] r.phases[p])
                && level_gain::<A>(r.phases[p]) == A::integer_value(1),
        A::finite(c.re),
        A::finite(c.im),
    ensures
        r.output(repeated(c, len)) == repeated(c, r.output(repeated(c, len)).len()),
{
    let input = repeated(c, len);
    let made = r.output(input);
    let stream = r.history + input;
    let interp = r.phases.len() as int;
    assert forall|t: int| 0 <= t < made.len() implies made[t] == c by {
        grid_point_below(len * interp, r.position, r.decim, t);
        let u = r.position + t * r.decim;
        assert(0 <= t * r.decim) by (nonlinear_arith)
            requires
                0 <= t,
                0 < r.decim,
        ;
        step_in_sample(u, len as int, interp);
        let taps = r.phases[u % interp];
        let at = u / interp;
        assert(taps.len() <= r.history.len() + 1);
        assert forall|j: int| 0 <= j < taps.len() implies #[trigger] reals(stream)[at + j]
            == c.re by {}
        assert forall|j: int| 0 <= j < taps.len() implies #[trigger] imags(stream)[at + j]
            == c.im by {}
        correlated_constant::<A>(taps, reals(stream), at, c.re, taps.len());
        correlated_constant::<A>(taps, imags(stream), at, c.im, taps.len());
        constant_through_taps::<A>(c.re, level_gain::<A>(taps));
        constant_through_taps::<A>(c.im, level_gain::<A>(taps));
    }
    assert(made =~= repeated(c, made.len()));
}

/// A resampler whose filters have unit gain, and which has settled on a
/// constant, gives that constant out.
pub proof fn resampler_keeps_level<A: Arithmetic>(
    r: RationalView<A>,
    c: Complex<A::R>,
    len: nat,
)
    requires
        exact_laws::<A>(),
        r.wf(),
        unit_gain::<A>(r),
        settled_on::<A>(r, c),
        A::finite(c.re),
        A::finite(c.im),
    ensures
        forall|i: int|
            0 <= i < r.output(repeated(c, len)).len() ==> #[trigger] r.output(repeated(c, len))[i]
                == c,
{
    cascade_keeps_level::<A>(r.stages, c, len);
    let middle = cascade_output(r.stages, repeated(c, len));
    if r.poly is Some {
        poly_keeps_level::<A>(r.poly->0, c, middle.len());
    }
}

/// A conversion keeps the level, whatever the ratio: the filter bank of a
/// resampler whose design has unit gain, and whose phases have equal gains, has
/// unit gain in every phase.
pub proof fn conversion_keeps_level<A: Arithmetic, D: Widening<A>>(
    f: RationalResampler<A>,
    in_rate: D::R,
    out_rate: D::R,
    tables: DecimTables<A>,
    gain: A::R,
)
    requires
        exact_laws::<A>(),
        f.wf(),
        f.converts::<D>(in_rate, out_rate, tables),
        f.resampler is Some,
        ({
            let design = prototype_design::<A, D>(in_rate, out_rate, f.resampler->0.interp);
            &&& all_finite::<A>(design->Ok_0)
            &&& level_gain::<A>(design->Ok_0) == A::integer_value(1)
        }),
        A::finite(gain),
        forall|p: int|
            0 <= p < f.resampler->0@.phases.len() ==> level_gain::<A>(
                #[trigger] f.resampler->0@.phases[p],
            ) == gain,
    ensures
        gain == A::integer_value(1),
{
    let poly = f.resampler->0;
    let design = prototype_design::<A, D>(in_rate, out_rate, poly.interp)->Ok_0;
    let phases = bank_phases::<A>(scaled_taps::<A>(design, poly.interp), poly.interp as nat);
    assert(poly@.phases == phases);
    phase_gain_is_design_gain::<A>(design, poly.interp, gain);
}

/// The stream `s` at `interp` times its rate, with zeros between its samples.
pub open spec fn stuffed<A: Arithmetic>(s: Seq<A::R>, interp: int, at: int) -> A::R {
    if 0 <= at && at % interp == 0 {
        s[at / interp]
    } else {
        A::integer_value(0)
    }
}

/// The first `n` terms of the correlation of `taps` with the stuffed stream from
/// `at` on.
pub open spec fn stuffed_terms<A: Arithmetic>(
    taps: Seq<A::R>,
    s: Seq<A::R>,
    interp: int,
    at: int,
    n: nat,
) -> A::R
    decreases n,
{
    if n == 0 {
        A::integer_value(0)
    } else {
        A::sum(
            stuffed_terms::<A>(taps, s, interp, at, (n - 1) as nat),
            A::product(stuffed::<A>(s, interp, at + (n - 1)), taps[n - 1]),
        )
    }
}

proof fn stuffed_finite<A: Arithmetic>(s: Seq<A::R>, interp: int, at: int)
    requires
        exact_laws::<A>(),
        all_finite::<A>(s),
        0 < interp,
        at < s.len() * interp,
    ensures
        A::finite(stuffed::<A>(s, interp, at)),
{
    whole_numbers::<A>(0);
    if 0 <= at && at % interp == 0 {
        lemma_fundamental_div_mod(at, interp);
        assert(0 <= at / interp < s.len()) by (nonlinear_arith)
            requires
                at == interp * (at / interp) + at % interp,
                at % interp == 0,
                0 <= at < s.len() * interp,
                0 < interp,
        ;
        assert(A::finite(s[at / interp]));
    }
}

proof fn stuffed_terms_finite<A: Arithmetic>(
    taps: Seq<A::R>,
    s: Seq<A::R>,
    interp: int,
    at: int,
    n: nat,
)
    requires
        exact_laws::<A>(),
        all_finite::<A>(taps),
        all_finite::<A>(s),
        0 < interp,
        n <= taps.len(),
        at + n <= s.len() * interp,
    ensures
        A::finite(stuffed_terms::<A>(taps, s, interp, at, n)),
    decreases n,
{
    whole_numbers::<A>(0);
    if n > 0 {
        stuffed_terms_finite::<A>(taps, s, interp, at, (n - 1) as nat);
        stuffed_finite::<A>(s, interp, at + (n - 1));
        let x = stuffed::<A>(s, interp, at + (n - 1));
        assert(A::finite(taps[n - 1]));
        stays_finite::<A>(x, taps[n - 1]);
        stays_finite::<A>(
            stuffed_terms::<A>(taps, s, interp, at, (n - 1) as nat),
            A::product(x, taps[n - 1]),
        );
    }
}

/// In each round of taps one meets a sample, and the others meet zeros.
proof fn one_tap_each_round<A: Arithmetic>(
    taps: Seq<A::R>,
    s: Seq<A::R>,
    interp: int,
    p: int,
    at: int,
    m: int,
    r: nat,
)
    requires
        exact_laws::<A>(),
        all_finite::<A>(taps),
        all_finite::<A>(s),
        0 <= p < interp,
        0 <= at,
        0 <= m,
        at + m < s.len(),
        r <= interp,
        m * interp + interp <= taps.len(),
    ensures
        ({
            let v = at * interp + p - interp + 1;
            let before = stuffed_terms::<A>(taps, s, interp, v, (m * interp) as nat);
            &&& 0 <= m * interp
            &&& stuffed_terms::<A>(taps, s, interp, v, (m * interp + r) as nat) == (if r <= interp
                - 1 - p {
                before
            } else {
                A::sum(before, A::product(s[at + m], taps[m * interp + interp - 1 - p]))
            })
        }),
    decreases r,
{
    let v = at * interp + p - interp + 1;
    assert(0 <= m * interp) by (nonlinear_arith)
        requires
            0 <= m,
            0 < interp,
    ;
    assert((at + m) * interp == at * interp + m * interp && (at + m + 1) * interp <= s.len()
        * interp && (at + m + 1) * interp == (at + m) * interp + interp) by (nonlinear_arith)
        requires
            at + m < s.len(),
            0 < interp,
    ;
    let start = (m * interp) as nat;
    let before = stuffed_terms::<A>(taps, s, interp, v, start);
    stuffed_terms_finite::<A>(taps, s, interp, v, start);
    sum_with_zero::<A>(before);
    if r > 0 {
        one_tap_each_round::<A>(taps, s, interp, p, at, m, (r - 1) as nat);
        let i = m * interp + r - 1;
        let k = v + i;
        let d = p + r - interp;
        assert(k == (at + m) * interp + d);
        let tap = taps[i];
        assert(A::finite(tap));
        zero_factor::<A>(tap);
        if d == 0 {
            lemma_fundamental_div_mod_converse(k, interp, at + m, 0);
            assert(0 <= (at + m) * interp) by (nonlinear_arith)
                requires
                    0 <= at + m,
                    0 < interp,
            ;
        } else if d > 0 {
            lemma_fundamental_div_mod_converse(k, interp, at + m, d);
            let x = A::product(s[at + m], taps[m * interp + interp - 1 - p]);
            assert(A::finite(s[at + m]) && A::finite(taps[m * interp + interp - 1 - p]));
            stays_finite::<A>(s[at + m], taps[m * interp + interp - 1 - p]);
            stays_finite::<A>(before, x);
            sum_with_zero::<A>(A::sum(before, x));
        } else {
            assert((at + m - 1) * interp + (d + interp) == k) by (nonlinear_arith)
                requires
                    k == (at + m) * interp + d,
            ;
            if 0 <= k {
                lemma_fundamental_div_mod_converse(k, interp, at + m - 1, d + interp);
            }
        }
    }
}

/// The first rounds of the filled-up prototype over the stuffed stream are the
/// first taps of one phase over the stream.
proof fn phase_is_stuffed<A: Arithmetic>(
    prototype: Seq<A::R>,
    s: Seq<A::R>,
    interp: nat,
    p: int,
    at: int,
    n: nat,
)
    requires
        exact_laws::<A>(),
        all_finite::<A>(prototype),
        all_finite::<A>(s),
        0 <= p < interp,
        0 <= at,
        n <= quotient_up(prototype.len() as int, interp as int),
        at + n <= s.len(),
    ensures
        correlated_terms::<A>(bank_phases::<A>(prototype, interp)[p], s, at, n) == stuffed_terms::<
            A,
        >(
            filled_up::<A>(prototype, interp),
            s,
            interp as int,
            at * interp + p - interp + 1,
            (n * interp) as nat,
        ),
    decreases n,
{
    let l = interp as int;
    let v = at * l + p - l + 1;
    let whole = filled_up::<A>(prototype, interp);
    let rounds = quotient_up(prototype.len() as int, l);
    whole_numbers::<A>(0);
    assert(all_finite::<A>(whole)) by {
        assert forall|i: int| 0 <= i < whole.len() implies A::finite(#[trigger] whole[i]) by {
            if i < prototype.len() {
                assert(A::finite(prototype[i]));
            }
        }
    }
    if n == 0 {
        assert(n * interp == 0) by (nonlinear_arith)
            requires
                n == 0,
        ;
    } else {
        let m = n - 1;
        phase_is_stuffed::<A>(prototype, s, interp, p, at, m as nat);
        assert(m * l + l == n * l && n * l <= rounds * l && 0 <= m * l) by (nonlinear_arith)
            requires
                m == n - 1,
                n <= rounds,
                0 <= m,
                0 < l,
        ;
        one_tap_each_round::<A>(whole, s, l, p, at, m, interp);
        assert(tap_index(l, p, m) == m * l + l - 1 - p);
    }
}

/// The zeros behind the prototype meet the stream without effect.
proof fn filling_has_no_effect<A: Arithmetic>(
    prototype: Seq<A::R>,
    s: Seq<A::R>,
    interp: nat,
    at: int,
    n: nat,
)
    requires
        exact_laws::<A>(),
        all_finite::<A>(prototype),
        all_finite::<A>(s),
        0 < interp,
        n <= filled_up::<A>(prototype, interp).len(),
        at + n <= s.len() * interp,
    ensures
        stuffed_terms::<A>(filled_up::<A>(prototype, interp), s, interp as int, at, n)
            == stuffed_terms::<A>(
            prototype,
            s,
            interp as int,
            at,
            if n <= prototype.len() {
                n
            } else {
                prototype.len()
            },
        ),
    decreases n,
{
    if n > 0 {
        filling_has_no_effect::<A>(prototype, s, interp, at, (n - 1) as nat);
        if n > prototype.len() {
            stuffed_finite::<A>(s, interp as int, at + (n - 1));
            zero_factor::<A>(stuffed::<A>(s, interp as int, at + (n - 1)));
            stuffed_terms_finite::<A>(prototype, s, interp as int, at, prototype.len());
            sum_with_zero::<A>(
                stuffed_terms::<A>(prototype, s, interp as int, at, prototype.len()),
            );
        }
    }
}

/// A polyphase resampler is the prototype filter at `interp` times the rate of
/// the input: each of its outputs is what the prototype makes of the stream with
/// zeros between its samples, at the place of the output.
pub proof fn resampler_is_prototype_filter<A: Arithmetic>(
    r: PolyView<A>,
    prototype: Seq<A::R>,
    input: Seq<Complex<A::R>>,
    t: int,
)
    requires
        exact_laws::<A>(),
        r.wf(),
        r.phases == bank_phases::<A>(prototype, r.phases.len()),
        all_finite::<A>(prototype),
        all_finite::<A>(reals(r.history + input)),
        all_finite::<A>(imags(r.history + input)),
        0 <= t < r.output(input).len(),
    ensures
        ({
            let interp = r.phases.len() as int;
            let place = r.position + t * r.decim - interp + 1;
            &&& r.output(input)[t].re == stuffed_terms::<A>(
                prototype,
                reals(r.history + input),
                interp,
                place,
                prototype.len(),
            )
            &&& r.output(input)[t].im == stuffed_terms::<A>(
                prototype,
                imags(r.history + input),
                interp,
                place,
                prototype.len(),
            )
        }),
{
    let interp = r.phases.len();
    let l = interp as int;
    let u = r.position + t * r.decim;
    grid_point_below(input.len() * l, r.position, r.decim, t);
    step_in_sample(u, input.len() as int, l);
    lemma_fundamental_div_mod(u, l);
    let at = u / l;
    let p = u % l;
    assert(at * l + p == u) by (nonlinear_arith)
        requires
            u == l * at + p,
    ;
    let rounds = quotient_up(prototype.len() as int, l);
    let stream = r.history + input;
    let whole = filled_up::<A>(prototype, interp);
    assert(0 <= rounds && prototype.len() <= whole.len()) by {
        let len = prototype.len() as int;
        if len > 0 {
            quotient_shrinks(len - 1, l);
            lemma_fundamental_div_mod(len - 1, l);
            let q = (len - 1) / l;
            assert(len <= (q + 1) * l) by (nonlinear_arith)
                requires
                    len - 1 == l * q + (len - 1) % l,
                    (len - 1) % l < l,
            ;
        }
        assert(0 <= rounds * l) by (nonlinear_arith)
            requires
                0 <= rounds,
                0 < l,
        ;
    }
    assert(r.phases[p].len() == rounds);
    assert(at + rounds <= stream.len());
    let place = u - l + 1;
    assert(place + rounds * l <= stream.len() * l) by (nonlinear_arith)
        requires
            place == at * l + p - l + 1,
            p < l,
            at + rounds <= stream.len(),
            0 < l,
    ;
    phase_is_stuffed::<A>(prototype, reals(stream), interp, p, at, rounds as nat);
    phase_is_stuffed::<A>(prototype, imags(stream), interp, p, at, rounds as nat);
    filling_has_no_effect::<A>(prototype, reals(stream), interp, place, (rounds * l) as nat);
    filling_has_no_effect::<A>(prototype, imags(stream), interp, place, (rounds * l) as nat);
}

/// A decimating stage gives every sample of its decimation of what a filter gives
/// that does not decimate.
pub proof fn stage_is_every_step<A: Arithmetic>(
    s: StageView<A>,
    input: Seq<Complex<A::R>>,
    i: int,
)
    requires
        s.wf(),
        0 <= i < s.output(input).len(),
    ensures
        0 <= s.offset + i * s.decimation < input.len(),
        s.output(input)[i] == filtered_complex::<A>(
            s.taps,
            s.history,
            input,
        )[s.offset + i * s.decimation],
{
    grid_point_below(input.len() as int, s.offset, s.decimation, i);
}

/// A resampler converts in the ratio of the rates: as many steps of the input,
/// at its rate, as of the output, at its own.
pub proof fn ratio_is_that_of_the_rates<D: Arithmetic>(
    mid_rate: D::R,
    out_rate: D::R,
    interp: int,
    decim: int,
)
    requires
        lowest_terms::<D>(mid_rate, out_rate, interp, decim),
    ensures
        interp * D::natural_part(D::rounded(mid_rate)) == decim * D::natural_part(
            D::rounded(out_rate),
        ),
{
    let a = whole_hertz::<D>(mid_rate);
    let b = whole_hertz::<D>(out_rate);
    let g = choose|g: int|
        {
            &&& 0 < g
            &&& #[trigger] is_gcd(g, a, b)
            &&& interp == b / g
            &&& decim == a / g
        };
    assert(divides(g, a) && divides(g, b));
    let x = choose|k: int| a == #[trigger] (g * k);
    let y = choose|k: int| b == #[trigger] (g * k);
    vstd::arithmetic::div_mod::lemma_div_multiples_vanish(x, g);
    vstd::arithmetic::div_mod::lemma_div_multiples_vanish(y, g);
    assert(y * a == x * b) by (nonlinear_arith)
        requires
            a == g * x,
            b == g * y,
    ;
}

/// The decimator ahead of the resampler divides the rate by its ratio.
pub proof fn decimator_divides_the_rate<D: Arithmetic>(in_rate: D::R, out_rate: D::R)
    requires
        exact_laws::<D>(),
        D::finite(in_rate),
        1 <= predecimation::<D>(in_rate, out_rate) <= i64::MAX,
    ensures
        D::product(
            intermediate_rate::<D>(in_rate, out_rate),
            D::integer_value(predecimation::<D>(in_rate, out_rate) as i64),
        ) == in_rate,
{
    let ratio = predecimation::<D>(in_rate, out_rate) as i64;
    whole_numbers::<D>(ratio);
    products_undo::<D>(in_rate, D::integer_value(ratio));
    sum_with_zero::<D>(in_rate);
}

/// The prototype of a resampler lets through what both rates can hold: its middle
/// tap is the share of the lower rate in the rate that it runs at.
pub proof fn prototype_holds_the_lower_rate<A: Arithmetic, D: Widening<A>>(
    in_rate: D::R,
    out_rate: D::R,
    interp: usize,
    i: int,
)
    requires
        exact_laws::<D>(),
        widening_laws::<A, D>(),
        D::finite(D::half_turn()),
        D::half_turn() != D::integer_value(0),
        D::finite(D::lesser(in_rate, out_rate)),
        D::equal(D::integer_value(0), D::integer_value(0)),
        ({
            let rate = D::product(
                intermediate_rate::<D>(in_rate, out_rate),
                D::count_value(interp),
            );
            D::finite(rate) && rate != D::integer_value(0)
        }),
        prototype_design::<A, D>(in_rate, out_rate, interp) is Ok,
        ({
            let taps = prototype_design::<A, D>(in_rate, out_rate, interp)->Ok_0;
            let half = D::quotient(D::count_value(taps.len() as usize), D::integer_value(2));
            &&& 0 <= i < taps.len()
            &&& taps::in_the_middle::<D>(i as usize, taps.len() as usize)
            &&& nuttall_at::<D>(
                D::difference(D::integer_value(0), half),
                D::count_value(taps.len() as usize),
            ) == D::integer_value(1)
        }),
    ensures
        D::product(
            D::widened(prototype_design::<A, D>(in_rate, out_rate, interp)->Ok_0[i]),
            D::product(intermediate_rate::<D>(in_rate, out_rate), D::count_value(interp)),
        ) == D::lesser(in_rate, out_rate),
{
    let two = D::integer_value(2);
    let lower = D::lesser(in_rate, out_rate);
    let bandwidth = D::quotient(lower, two);
    let rate = D::product(intermediate_rate::<D>(in_rate, out_rate), D::count_value(interp));
    whole_numbers::<D>(2);
    stays_finite::<D>(lower, two);
    products_undo::<D>(lower, two);
    taps::low_pass_middle_is_its_band::<A, D>(
        bandwidth,
        D::product(bandwidth, D::fraction_value(1, 10)),
        rate,
        true,
        i,
    );
}

/// A resampler delays by half of its prototype, less one tap, in steps of the
/// interpolation; a decimator of one stage by half of its filter, less one tap.
pub proof fn delay_is_half_the_filter<A: Arithmetic, D: Arithmetic>(f: RationalResampler<A>)
    requires
        exact_laws::<D>(),
        f.resampler is Some ==> 0 < f.resampler->0.interp && 0 < f.resampler->0.bank.prototype_len,
        f.decimator is Some ==> f.decimator->0@.len() == 1 && f.decimator->0@[0].taps.len() > 0
            && f.decimator->0@[0].taps.len() <= usize::MAX,
        f.decimator is None || f.resampler is None,
    ensures
        f.decimator is None && f.resampler is Some ==> D::product(
            D::product(f.delay::<D>(), D::count_value(f.resampler->0.interp)),
            D::integer_value(2),
        ) == D::count_value((f.resampler->0.bank.prototype_len - 1) as usize),
        f.decimator is Some ==> D::product(f.delay::<D>(), D::integer_value(2)) == D::count_value(
            (f.decimator->0@[0].taps.len() - 1) as usize,
        ),
        f.decimator is None && f.resampler is None ==> f.delay::<D>() == D::integer_value(0),
{
    let two = D::integer_value(2);
    let zero = D::integer_value(0);
    let one = D::integer_value(1);
    whole_numbers::<D>(0);
    whole_numbers::<D>(1);
    whole_numbers::<D>(2);
    zero_factor::<D>(one);
    sum_with_zero::<D>(zero);
    if f.decimator is Some {
        let stages = f.decimator->0@;
        let n = D::count_value((stages[0].taps.len() - 1) as usize);
        counts::<D>((stages[0].taps.len() - 1) as usize);
        stays_finite::<D>(n, two);
        products_undo::<D>(n, two);
        let half = D::quotient(n, two);
        sum_with_zero::<D>(half);
        reveal_with_fuel(cascade_delay, 2);
        assert(cascade_delay::<A, D>(stages, 1).0 == half);
        let ratio = D::integer_value(f.decimator->0.ratio as i64);
        whole_numbers::<D>(f.decimator->0.ratio as i64);
        zero_factor::<D>(ratio);
    } else if f.resampler is Some {
        let p = f.resampler->0;
        let n = D::count_value((p.bank.prototype_len - 1) as usize);
        let interp = D::count_value(p.interp);
        counts::<D>((p.bank.prototype_len - 1) as usize);
        counts::<D>(p.interp);
        stays_finite::<D>(n, two);
        let half = D::quotient(n, two);
        products_undo::<D>(n, two);
        stays_finite::<D>(half, interp);
        products_undo::<D>(half, interp);
        sum_with_zero::<D>(D::quotient(half, interp));
    }
}

} // verus!
