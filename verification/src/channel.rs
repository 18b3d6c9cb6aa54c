//! Shifting in frequency, and extraction of a channel.

use crate::arith::{Arithmetic, Widening};
use crate::block::{drive, ran, run, run_append, run_len, Block};
use crate::complex::{self, imags, reals};
use crate::decim_taps::DecimTables;
use crate::exact::{
    exact_laws, factor_of_sum, factors_in_any_order, negation_laws, opposite, products_undo,
    stays_finite, sum_with_zero, widening_laws, whole_numbers, zero_factor,
};
use crate::filter::{complex_fir_append, filtered_complex, ComplexFirFilter};
use crate::kernel::convolved_terms;
use crate::math::{
    angle_laws, angular_step, hz_to_rads, normalize_phase, tone, turned_on, turned_on_together,
    wrapped_is_same_direction, wrapped_phase,
};
use crate::multirate::{rational_append, RationalResampler, RationalView};
use crate::stream::{copy_to_front, overwritten, repeated, tail, tail_append};
use crate::taps::{in_the_middle, low_pass, low_pass_design, low_pass_middle_is_its_band};
use crate::types::{Complex, DspError, Fault, invalid};
use crate::window::nuttall_at;
use vstd::prelude::*;
use vstd::slice::slice_subrange;

verus! {

/// Shifts a signal in frequency: each sample is multiplied by a phasor that
/// turns by a fixed angle from sample to sample.
pub struct FrequencyXlator<A: Arithmetic> {
    /// Angle of the phasor at the next sample.
    pub phase: A::R,
    /// Angle by which the phasor turns.
    pub phase_delta: A::R,
}

impl<A: Arithmetic> FrequencyXlator<A> {
    /// The angle for a shift of `offset_hz`.
    pub open spec fn turn<D: Widening<A>>(offset_hz: D::R, sample_rate: D::R) -> A::R {
        D::narrowed(angular_step::<D>(offset_hz, sample_rate))
    }

    /// A shift by `offset` whose phasor starts at zero.
    pub open spec fn fresh(offset: A::R) -> Self {
        FrequencyXlator { phase: A::integer_value(0), phase_delta: offset }
    }

    /// Creates a shift by `offset`, in radians for each sample.
    pub fn new(offset: A::R) -> (f: Self)
        ensures
            f == Self::fresh(offset),
    {
        FrequencyXlator { phase: A::integer(0), phase_delta: offset }
    }

    /// Creates a shift by `offset_hz`.
    pub fn from_hz<D: Widening<A>>(offset_hz: D::R, sample_rate: D::R) -> (f: Self)
        ensures
            f == Self::fresh(Self::turn::<D>(offset_hz, sample_rate)),
    {
        Self::new(D::narrow(hz_to_rads::<D>(offset_hz, sample_rate)))
    }

    /// Changes the shift to `offset`, in radians for each sample. The phasor
    /// goes on where it is.
    pub fn set_offset(&mut self, offset: A::R)
        ensures
            *final(self) == (FrequencyXlator { phase_delta: offset, ..*old(self) }),
    {
        self.phase_delta = offset;
    }

    /// Changes the shift to `offset_hz`. The phasor goes on where it is.
    pub fn set_offset_hz<D: Widening<A>>(&mut self, offset_hz: D::R, sample_rate: D::R)
        ensures
            *final(self) == (FrequencyXlator {
                phase_delta: Self::turn::<D>(offset_hz, sample_rate),
                ..*old(self)
            }),
    {
        self.phase_delta = D::narrow(hz_to_rads::<D>(offset_hz, sample_rate));
    }

    /// The shift with the phasor at zero.
    pub open spec fn cleared(self) -> Self {
        Self::fresh(self.phase_delta)
    }

    /// Takes the phasor back to zero.
    pub fn reset(&mut self)
        ensures
            *final(self) == old(self).cleared(),
    {
        self.phase = A::integer(0);
    }

    /// Shifts `input` into `output` and returns the number of samples written.
    pub fn process(&mut self, input: &[Complex<A::R>], output: &mut [Complex<A::R>]) -> (r: Result<
        usize,
        DspError,
    >)
        ensures
            ran(*old(self), *final(self), input@, old(output)@, final(output)@, r),
    {
        drive(self, input, output)
    }
}

impl<A: Arithmetic> Block<Complex<A::R>, Complex<A::R>> for FrequencyXlator<A> {
    open spec fn step(self, x: Complex<A::R>) -> (Self, Complex<A::R>) {
        (
            FrequencyXlator {
                phase: wrapped_phase::<A>(A::sum(self.phase, self.phase_delta)),
                ..self
            },
            complex::rotated::<A>(
                x,
                Complex { re: A::cosine(self.phase), im: A::sine(self.phase) },
            ),
        )
    }

    fn tick(&mut self, x: Complex<A::R>) -> (y: Complex<A::R>) {
        let phasor: Complex<A::R> = Complex { re: A::cos(self.phase), im: A::sin(self.phase) };
        self.phase = normalize_phase::<A>(A::plus(self.phase, self.phase_delta));
        complex::times::<A>(x, phasor)
    }
}

/// The state of an [`RxVfo`].
pub struct VfoView<A: Arithmetic> {
    /// The shift.
    pub xlator: FrequencyXlator<A>,
    /// The resampler.
    pub resampler: RationalView<A>,
    /// The taps of the channel filter, where there is one.
    pub taps: Option<Seq<A::R>>,
    /// The samples before the next input of the channel filter.
    pub history: Seq<Complex<A::R>>,
}

impl<A: Arithmetic> VfoView<A> {
    /// The parts are well formed.
    pub open spec fn wf(self) -> bool {
        &&& self.resampler.wf()
        &&& self.taps is Some ==> self.taps->0.len() == self.history.len() + 1
    }

    /// `input` behind the shift and the resampler.
    pub open spec fn resampled(self, input: Seq<Complex<A::R>>) -> Seq<Complex<A::R>> {
        self.resampler.output(run(self.xlator, input).1)
    }

    /// What comes out for `input`.
    pub open spec fn output(self, input: Seq<Complex<A::R>>) -> Seq<Complex<A::R>> {
        match self.taps {
            Some(taps) => filtered_complex::<A>(taps, self.history, self.resampled(input)),
            None => self.resampled(input),
        }
    }

    /// The state once `input` has gone through the shift and the resampler.
    pub open spec fn shifted(self, input: Seq<Complex<A::R>>) -> Self {
        VfoView {
            xlator: run(self.xlator, input).0,
            resampler: self.resampler.next(run(self.xlator, input).1),
            ..self
        }
    }

    /// The state once `input` has gone through.
    pub open spec fn next(self, input: Seq<Complex<A::R>>) -> Self {
        match self.taps {
            Some(_) => VfoView {
                history: tail(self.history + self.resampled(input), self.history.len()),
                ..self.shifted(input)
            },
            None => self.shifted(input),
        }
    }

    /// The state at the start of a stream.
    pub open spec fn cleared(self) -> Self {
        VfoView {
            xlator: self.xlator.cleared(),
            resampler: self.resampler.cleared(),
            history: repeated(complex::origin::<A>(), self.history.len()),
            ..self
        }
    }
}

/// What a receiver makes of a stream does not depend on how the stream is cut
/// into calls.
pub proof fn vfo_append<A: Arithmetic>(
    v: VfoView<A>,
    xs: Seq<Complex<A::R>>,
    ys: Seq<Complex<A::R>>,
)
    requires
        v.wf(),
    ensures
        v.output(xs + ys) == v.output(xs) + v.next(xs).output(ys),
        v.next(xs + ys) == v.next(xs).next(ys),
{
    run_append(v.xlator, xs, ys);
    rational_append(v.resampler, run(v.xlator, xs).1, run(run(v.xlator, xs).0, ys).1);
    if v.taps is Some {
        let first = v.resampled(xs);
        let second = v.next(xs).resampled(ys);
        complex_fir_append::<A>(v.taps->0, v.history, first, second);
        tail_append(v.history, first, second);
    }
}

/// Receiver of a channel: shifts it to zero frequency, resamples it, and
/// filters it where it is narrower than the output.
pub struct RxVfo<A: Arithmetic, D: Widening<A>> {
    /// The shift.
    pub xlator: FrequencyXlator<A>,
    /// The resampler.
    pub resampler: RationalResampler<A>,
    /// The channel filter, where there is one.
    pub filter: Option<ComplexFirFilter<A>>,
    /// Rate of the input, in hertz.
    pub in_sample_rate: D::R,
    /// Rate of the output, in hertz.
    pub out_sample_rate: D::R,
    /// Width of the channel, in hertz.
    pub bandwidth: D::R,
    /// Centre of the channel, in hertz.
    pub offset: D::R,
    /// Room for the shifted input, kept from call to call.
    pub xlator_buf: Vec<Complex<A::R>>,
    /// Room for the resampled input, kept from call to call.
    pub resamp_buf: Vec<Complex<A::R>>,
}

impl<A: Arithmetic, D: Widening<A>> RxVfo<A, D> {
    /// The parts are well formed.
    pub open spec fn wf(self) -> bool {
        &&& self.resampler.wf()
        &&& self.filter is Some ==> self.filter->0.wf()
    }

    /// The state of the receiver.
    pub open spec fn view(self) -> VfoView<A> {
        VfoView {
            xlator: self.xlator,
            resampler: self.resampler@,
            taps: match self.filter {
                Some(f) => Some(f.taps@),
                None => None,
            },
            history: match self.filter {
                Some(f) => f.delay_line@,
                None => Seq::empty(),
            },
        }
    }

    /// Whether `other` has the same settings.
    pub open spec fn same_setup(self, other: Self) -> bool {
        &&& self.in_sample_rate == other.in_sample_rate
        &&& self.out_sample_rate == other.out_sample_rate
        &&& self.bandwidth == other.bandwidth
        &&& self.offset == other.offset
        &&& self.resampler.same_shape(other.resampler)
    }

    /// Whether the receiver is tuned to its offset: it shifts down by as much.
    pub open spec fn tuned(self) -> bool {
        self.xlator.phase_delta == FrequencyXlator::<A>::turn::<D>(
            D::negation(self.offset),
            self.in_sample_rate,
        )
    }

    /// The state is well formed.
    pub proof fn view_wf(self)
        requires
            self.wf(),
        ensures
            self@.wf(),
    {
        self.resampler.view_wf();
    }

    /// Whether a channel of `bandwidth` is filtered.
    pub open spec fn narrow(bandwidth: D::R, out_sample_rate: D::R) -> bool {
        D::less(bandwidth, D::difference(out_sample_rate, D::integer_value(1)))
    }

    /// The design of the filter of a channel.
    pub open spec fn channel_design(bandwidth: D::R, out_sample_rate: D::R) -> Result<
        Seq<A::R>,
        Fault,
    > {
        let width = D::quotient(bandwidth, D::integer_value(2));
        low_pass_design::<A, D>(
            width,
            D::product(width, D::fraction_value(1, 10)),
            out_sample_rate,
            true,
        )
    }

    /// Whether `filter` is the fresh filter of a channel of `bandwidth`.
    pub open spec fn selects(
        filter: Option<ComplexFirFilter<A>>,
        bandwidth: D::R,
        out_sample_rate: D::R,
    ) -> bool {
        match filter {
            None => !Self::narrow(bandwidth, out_sample_rate),
            Some(f) => {
                &&& Self::narrow(bandwidth, out_sample_rate)
                &&& Self::channel_design(bandwidth, out_sample_rate) == Ok::<
                    Seq<A::R>,
                    Fault,
                >(f.taps@)
                &&& f.wf()
                &&& f.delay_line@ == repeated(complex::origin::<A>(), f.delay_line@.len())
            },
        }
    }

    /// Whether the filter of a channel of `bandwidth` is refused with `e`.
    pub open spec fn channel_refused(
        bandwidth: D::R,
        out_sample_rate: D::R,
        e: Fault,
    ) -> bool {
        &&& Self::narrow(bandwidth, out_sample_rate)
        &&& match Self::channel_design(bandwidth, out_sample_rate) {
            Err(f) => e == f,
            Ok(taps) => taps.len() == 0
                && e == Fault::InvalidParameter("FIR taps must not be empty"@),
        }
    }

    fn channel_filter(bandwidth: D::R, out_sample_rate: D::R) -> (r: Result<
        Option<ComplexFirFilter<A>>,
        DspError,
    >)
        ensures
            match r {
                Err(e) => Self::channel_refused(bandwidth, out_sample_rate, e@),
                Ok(f) => Self::selects(f, bandwidth, out_sample_rate),
            },
    {
        if !D::lt(bandwidth, D::minus(out_sample_rate, D::integer(1))) {
            return Ok(None);
        }
        let width: D::R = D::over(bandwidth, D::integer(2));
        match low_pass::<A, D>(
            width,
            D::times(width, D::fraction(1, 10)),
            out_sample_rate,
            true,
        ) {
            Err(e) => Err(e),
            Ok(taps) => match ComplexFirFilter::new(taps) {
                Err(e) => Err(e),
                Ok(f) => Ok(Some(f)),
            },
        }
    }

    /// Creates a receiver of a channel of `bandwidth` around `offset`.
    pub fn new(
        in_sample_rate: D::R,
        out_sample_rate: D::R,
        bandwidth: D::R,
        offset: D::R,
        tables: &DecimTables<A>,
    ) -> (r: Result<Self, DspError>)
        requires
            tables.wf(),
        ensures
            match r {
                Err(e) => if RationalResampler::<A>::accepted::<D>(
                    in_sample_rate,
                    out_sample_rate,
                ) {
                    Self::channel_refused(bandwidth, out_sample_rate, e@)
                } else {
                    RationalResampler::<A>::refused::<D>(in_sample_rate, out_sample_rate, e@)
                },
                Ok(v) => {
                    &&& RationalResampler::<A>::accepted::<D>(in_sample_rate, out_sample_rate)
                    &&& v.wf()
                    &&& v.tuned()
                    &&& v.xlator == FrequencyXlator::<A>::fresh(
                        FrequencyXlator::<A>::turn::<D>(D::negation(offset), in_sample_rate),
                    )
                    &&& v.resampler.converts::<D>(in_sample_rate, out_sample_rate, *tables)
                    &&& Self::selects(v.filter, bandwidth, out_sample_rate)
                    &&& v.in_sample_rate == in_sample_rate
                    &&& v.out_sample_rate == out_sample_rate
                    &&& v.bandwidth == bandwidth
                    &&& v.offset == offset
                },
            },
    {
        let xlator: FrequencyXlator<A> = FrequencyXlator::<A>::from_hz::<D>(
            D::neg(offset),
            in_sample_rate,
        );
        let resampler: RationalResampler<A> = match RationalResampler::<A>::new::<D>(
            in_sample_rate,
            out_sample_rate,
            tables,
        ) {
            Ok(resampler) => resampler,
            Err(e) => {
                return Err(e);
            },
        };
        let filter: Option<ComplexFirFilter<A>> = match Self::channel_filter(
            bandwidth,
            out_sample_rate,
        ) {
            Ok(filter) => filter,
            Err(e) => {
                return Err(e);
            },
        };
        Ok(
            RxVfo {
                xlator,
                resampler,
                filter,
                in_sample_rate,
                out_sample_rate,
                bandwidth,
                offset,
                xlator_buf: Vec::new(),
                resamp_buf: Vec::new(),
            },
        )
    }

    /// Moves to the channel around `offset`.
    pub fn set_offset(&mut self, offset: D::R)
        ensures
            final(self).tuned(),
            *final(self) == (RxVfo::<A, D> {
                offset,
                xlator: FrequencyXlator {
                    phase_delta: FrequencyXlator::<A>::turn::<D>(
                        D::negation(offset),
                        old(self).in_sample_rate,
                    ),
                    ..old(self).xlator
                },
                ..*old(self)
            }),
    {
        self.offset = offset;
        self.xlator.set_offset_hz::<D>(D::neg(offset), self.in_sample_rate);
    }

    /// Changes the width of the channel. Where the filter is refused, the old
    /// one stays.
    pub fn set_bandwidth(&mut self, bandwidth: D::R) -> (r: Result<(), DspError>)
        requires
            old(self).wf(),
        ensures
            final(self).wf(),
            *final(self) == (RxVfo::<A, D> {
                bandwidth,
                filter: final(self).filter,
                ..*old(self)
            }),
            match r {
                Err(e) => {
                    &&& Self::channel_refused(bandwidth, old(self).out_sample_rate, e@)
                    &&& final(self).filter == old(self).filter
                },
                Ok(_) => Self::selects(
                    final(self).filter,
                    bandwidth,
                    old(self).out_sample_rate,
                ),
            },
    {
        self.bandwidth = bandwidth;
        match Self::channel_filter(bandwidth, self.out_sample_rate) {
            Ok(filter) => {
                self.filter = filter;
                Ok(())
            },
            Err(e) => Err(e),
        }
    }

    /// Starts a new stream.
    pub fn reset(&mut self)
        requires
            old(self).wf(),
        ensures
            final(self).wf(),
            final(self).same_setup(*old(self)),
            final(self)@ == old(self)@.cleared(),
    {
        self.xlator.reset();
        self.resampler.reset();
        match &mut self.filter {
            Some(f) => f.reset(),
            None => {},
        }
        assert(self@.history =~= old(self)@.cleared().history);
    }

    /// Receives `input` into `output` and returns the number of samples
    /// written. Where `output` is refused, the input has gone through the
    /// shift and the resampler all the same.
    pub fn process(&mut self, input: &[Complex<A::R>], output: &mut [Complex<A::R>]) -> (r: Result<
        usize,
        DspError,
    >)
        requires
            old(self).wf(),
        ensures
            final(self).wf(),
            final(self).same_setup(*old(self)),
            match r {
                Err(e) => {
                    &&& final(output)@ == old(output)@
                    &&& if old(self).resampler.most_room(input@.len() as int) > usize::MAX {
                        &&& e@ == Fault::InvalidParameter("input is too long to resample"@)
                        &&& final(self)@ == old(self)@
                    } else {
                        &&& old(output)@.len() < old(self)@.resampled(input@).len()
                        &&& e == DspError::BufferTooSmall {
                            need: old(self)@.resampled(input@).len() as usize,
                            got: old(output)@.len() as usize,
                        }
                        &&& final(self)@ == old(self)@.shifted(input@)
                    }
                },
                Ok(n) => {
                    let made = old(self)@.output(input@);
                    &&& n == made.len() <= old(output)@.len()
                    &&& final(output)@ == overwritten(old(output)@, made)
                    &&& final(self)@ == old(self)@.next(input@)
                },
            },
    {
        let room: usize = match self.resampler.output_bound(input.len()) {
            Some(room) => room,
            None => {
                return Err(invalid("input is too long to resample"));
            },
        };
        let zero: Complex<A::R> = complex::zero::<A>();
        self.xlator_buf.resize(input.len(), zero);
        proof {
            run_len(self.xlator, input@);
        }
        match self.xlator.process(input, self.xlator_buf.as_mut_slice()) {
            Ok(_) => {},
            Err(_) => {
                assert(false);
            },
        }
        assert(self.xlator_buf@ =~= run(old(self).xlator, input@).1);
        proof {
            self.resampler.room_bounded(self.xlator_buf@, input@.len() as int);
        }
        self.resamp_buf.resize(room, zero);
        let count: usize = match self.resampler.process(
            self.xlator_buf.as_slice(),
            self.resamp_buf.as_mut_slice(),
        ) {
            Ok(count) => count,
            Err(_) => {
                assert(false);
                0
            },
        };
        let made: &[Complex<A::R>] = slice_subrange(self.resamp_buf.as_slice(), 0, count);
        assert(made@ =~= old(self)@.resampled(input@));
        if output.len() < count {
            return Err(DspError::BufferTooSmall { need: count, got: output.len() });
        }
        match &mut self.filter {
            Some(f) => f.process(made, output),
            None => {
                copy_to_front(made, output);
                Ok(count)
            },
        }
    }
}

/// The phasor of a shift points where its angle, turned on from sample to
/// sample, points.
proof fn phasor_turns_on<A: Arithmetic>(f: FrequencyXlator<A>, xs: Seq<Complex<A::R>>)
    requires
        exact_laws::<A>(),
        angle_laws::<A>(),
        A::finite(f.phase),
        A::finite(f.phase_delta),
    ensures
        ({
            let g = run(f, xs).0;
            let angle = turned_on::<A>(f.phase, f.phase_delta, xs.len());
            &&& g.phase_delta == f.phase_delta
            &&& A::finite(g.phase)
            &&& A::finite(angle)
            &&& A::cosine(g.phase) == A::cosine(angle)
            &&& A::sine(g.phase) == A::sine(angle)
        }),
    decreases xs.len(),
{
    if xs.len() > 0 {
        let before = run(f, xs.drop_last()).0;
        let angle = turned_on::<A>(f.phase, f.phase_delta, (xs.len() - 1) as nat);
        phasor_turns_on(f, xs.drop_last());
        stays_finite::<A>(before.phase, f.phase_delta);
        stays_finite::<A>(angle, f.phase_delta);
        wrapped_is_same_direction::<A>(A::sum(before.phase, f.phase_delta));
    }
}

/// A tone goes through a shift as a tone that turns by the angle of the shift
/// more, where numbers are exact.
pub proof fn tone_is_shifted<A: Arithmetic>(
    f: FrequencyXlator<A>,
    start: A::R,
    step: A::R,
    len: nat,
)
    requires
        exact_laws::<A>(),
        angle_laws::<A>(),
        A::finite(f.phase),
        A::finite(f.phase_delta),
        A::finite(start),
        A::finite(step),
    ensures
        run(f, tone::<A>(start, step, len)).1 == tone::<A>(
            A::sum(start, f.phase),
            A::sum(step, f.phase_delta),
            len,
        ),
    decreases len,
{
    let input = tone::<A>(start, step, len);
    let shifted = tone::<A>(A::sum(start, f.phase), A::sum(step, f.phase_delta), len);
    run_len(f, input);
    if len > 0 {
        let m = (len - 1) as nat;
        tone_is_shifted(f, start, step, m);
        assert(input.drop_last() =~= tone::<A>(start, step, m));
        let before = run(f, input.drop_last()).0;
        phasor_turns_on(f, input.drop_last());
        turned_on_together::<A>(start, step, f.phase, f.phase_delta, m);
        let a = turned_on::<A>(start, step, m);
        let b = turned_on::<A>(f.phase, f.phase_delta, m);
        let y = before.step(input.last()).1;
        assert(y == shifted[len - 1]) by {
            assert(A::cosine(A::sum(a, b)) == y.re);
            assert(A::sine(A::sum(a, b)) == y.im);
        }
        assert(shifted =~= tone::<A>(
            A::sum(start, f.phase),
            A::sum(step, f.phase_delta),
            m,
        ).push(y));
    }
    assert(run(f, input).1 =~= shifted);
}

/// The phasor of a shift by `offset_hz` makes a full turn in as many samples as
/// `offset_hz` goes into the rate.
pub proof fn shift_makes_a_turn<A: Arithmetic, D: Widening<A>>(
    offset_hz: D::R,
    sample_rate: D::R,
)
    requires
        exact_laws::<D>(),
        widening_laws::<A, D>(),
        D::finite(D::half_turn()),
        D::finite(offset_hz),
        D::finite(sample_rate),
        offset_hz != D::integer_value(0),
        sample_rate != D::integer_value(0),
    ensures
        D::product(
            D::widened(FrequencyXlator::<A>::turn::<D>(offset_hz, sample_rate)),
            D::quotient(sample_rate, offset_hz),
        ) == D::product(D::integer_value(2), D::half_turn()),
{
    let turn = D::product(D::integer_value(2), D::half_turn());
    let there = D::quotient(offset_hz, sample_rate);
    let back = D::quotient(sample_rate, offset_hz);
    whole_numbers::<D>(2);
    whole_numbers::<D>(1);
    stays_finite::<D>(D::integer_value(2), D::half_turn());
    stays_finite::<D>(offset_hz, sample_rate);
    stays_finite::<D>(sample_rate, offset_hz);
    stays_finite::<D>(turn, there);
    products_undo::<D>(offset_hz, sample_rate);
    products_undo::<D>(sample_rate, offset_hz);
    let both = D::product(there, back);
    assert(both == D::integer_value(1)) by {
        stays_finite::<D>(there, back);
        factors_in_any_order::<D>(there, back, offset_hz);
        assert(D::product(both, offset_hz) == D::product(there, sample_rate));
        sum_with_zero::<D>(offset_hz);
        products_undo::<D>(both, offset_hz);
        products_undo::<D>(D::integer_value(1), offset_hz);
    }
    factors_in_any_order::<D>(turn, there, back);
    sum_with_zero::<D>(turn);
}

/// Whether a tone that turns by `step` from sample to sample is a tone at
/// `hz`: in a second, that is in as many samples as the rate, it makes `hz`
/// turns.
pub open spec fn turns_at<A: Arithmetic, D: Widening<A>>(
    step: A::R,
    hz: D::R,
    sample_rate: D::R,
) -> bool {
    D::product(D::widened(step), sample_rate) == D::product(
        D::product(D::integer_value(2), D::half_turn()),
        hz,
    )
}

/// A shift the other way stops a tone.
proof fn opposite_shift_stops<A: Arithmetic, D: Widening<A>>(
    step: A::R,
    hz: D::R,
    sample_rate: D::R,
)
    requires
        exact_laws::<A>(),
        exact_laws::<D>(),
        negation_laws::<D>(),
        widening_laws::<A, D>(),
        D::finite(D::half_turn()),
        D::finite(hz),
        D::finite(sample_rate),
        sample_rate != D::integer_value(0),
        A::finite(step),
        turns_at::<A, D>(step, hz, sample_rate),
    ensures
        A::finite(FrequencyXlator::<A>::turn::<D>(D::negation(hz), sample_rate)),
        A::sum(step, FrequencyXlator::<A>::turn::<D>(D::negation(hz), sample_rate))
            == A::integer_value(0),
{
    let zero = D::integer_value(0);
    let turn = D::product(D::integer_value(2), D::half_turn());
    let away = D::negation(hz);
    let share = D::quotient(away, sample_rate);
    let delta = FrequencyXlator::<A>::turn::<D>(away, sample_rate);
    whole_numbers::<D>(2);
    whole_numbers::<D>(0);
    whole_numbers::<A>(0);
    opposite::<D>(hz);
    stays_finite::<D>(D::integer_value(2), D::half_turn());
    stays_finite::<D>(away, sample_rate);
    stays_finite::<D>(turn, share);
    assert(A::finite(delta));
    assert(D::widened(delta) == D::product(turn, share));
    products_undo::<D>(away, sample_rate);
    factors_in_any_order::<D>(turn, share, sample_rate);
    assert(D::product(D::widened(delta), sample_rate) == D::product(turn, away));
    factor_of_sum::<D>(D::widened(step), D::widened(delta), sample_rate);
    factor_of_sum::<D>(hz, away, turn);
    zero_factor::<D>(turn);
    let sum = D::sum(D::widened(step), D::widened(delta));
    stays_finite::<D>(D::widened(step), D::widened(delta));
    assert(D::product(sum, sample_rate) == zero);
    products_undo::<D>(sum, sample_rate);
    products_undo::<D>(zero, sample_rate);
    zero_factor::<D>(sample_rate);
    assert(sum == zero);
    stays_finite::<A>(step, delta);
    assert(D::widened(A::sum(step, delta)) == D::widened(A::integer_value(0)));
    assert(D::narrowed(D::widened(A::sum(step, delta))) == A::sum(step, delta));
    assert(D::narrowed(D::widened(A::integer_value(0))) == A::integer_value(0));
}

/// A station at the offset of a receiver is received as one at zero frequency
/// is by a receiver without an offset: the shift brings it to rest.
pub proof fn station_comes_to_rest<A: Arithmetic, D: Widening<A>>(
    v: RxVfo<A, D>,
    start: A::R,
    step: A::R,
    len: nat,
)
    requires
        exact_laws::<A>(),
        angle_laws::<A>(),
        exact_laws::<D>(),
        negation_laws::<D>(),
        widening_laws::<A, D>(),
        D::finite(D::half_turn()),
        D::finite(v.offset),
        D::finite(v.in_sample_rate),
        v.in_sample_rate != D::integer_value(0),
        v.tuned(),
        A::finite(v.xlator.phase),
        A::finite(start),
        A::finite(step),
        turns_at::<A, D>(step, v.offset, v.in_sample_rate),
    ensures
        ({
            let angle = A::sum(start, v.xlator.phase);
            let held = repeated(Complex { re: A::cosine(angle), im: A::sine(angle) }, len);
            &&& run(v.xlator, tone::<A>(start, step, len)).1 == held
            &&& v@.output(tone::<A>(start, step, len)) == (VfoView {
                xlator: FrequencyXlator {
                    phase: A::integer_value(0),
                    phase_delta: A::integer_value(0),
                },
                ..v@
            }).output(held)
        }),
{
    let zero = A::integer_value(0);
    let still = FrequencyXlator::<A> { phase: zero, phase_delta: zero };
    let angle = A::sum(start, v.xlator.phase);
    whole_numbers::<A>(0);
    stays_finite::<A>(start, v.xlator.phase);
    opposite_shift_stops::<A, D>(step, v.offset, v.in_sample_rate);
    tone_is_shifted(v.xlator, start, step, len);
    tone_is_shifted(still, angle, zero, len);
    sum_with_zero::<A>(angle);
    sum_with_zero::<A>(zero);
    tone_at_rest::<A>(angle, len);
}

/// A tone that does not turn is constant.
proof fn tone_at_rest<A: Arithmetic>(start: A::R, len: nat)
    requires
        exact_laws::<A>(),
        A::finite(start),
    ensures
        tone::<A>(start, A::integer_value(0), len) == repeated(
            Complex { re: A::cosine(start), im: A::sine(start) },
            len,
        ),
{
    let held = repeated(Complex { re: A::cosine(start), im: A::sine(start) }, len);
    assert forall|i: int| 0 <= i < len implies tone::<A>(start, A::integer_value(0), len)[i]
        == held[i] by {
        angle_at_rest::<A>(start, i as nat);
    }
    assert(tone::<A>(start, A::integer_value(0), len) =~= held);
}

proof fn angle_at_rest<A: Arithmetic>(start: A::R, n: nat)
    requires
        exact_laws::<A>(),
        A::finite(start),
    ensures
        turned_on::<A>(start, A::integer_value(0), n) == start,
    decreases n,
{
    if n > 0 {
        angle_at_rest::<A>(start, (n - 1) as nat);
        sum_with_zero::<A>(start);
    }
}

/// The filter of a channel lets the bandwidth through: its middle tap is the
/// share of the bandwidth in the rate.
pub proof fn channel_holds_its_bandwidth<A: Arithmetic, D: Widening<A>>(
    bandwidth: D::R,
    out_sample_rate: D::R,
    i: int,
)
    requires
        exact_laws::<D>(),
        widening_laws::<A, D>(),
        D::finite(D::half_turn()),
        D::half_turn() != D::integer_value(0),
        D::finite(bandwidth),
        D::finite(out_sample_rate),
        out_sample_rate != D::integer_value(0),
        D::equal(D::integer_value(0), D::integer_value(0)),
        RxVfo::<A, D>::channel_design(bandwidth, out_sample_rate) is Ok,
        ({
            let taps = RxVfo::<A, D>::channel_design(bandwidth, out_sample_rate)->Ok_0;
            let half = D::quotient(D::count_value(taps.len() as usize), D::integer_value(2));
            &&& 0 <= i < taps.len()
            &&& in_the_middle::<D>(i as usize, taps.len() as usize)
            &&& nuttall_at::<D>(
                D::difference(D::integer_value(0), half),
                D::count_value(taps.len() as usize),
            ) == D::integer_value(1)
        }),
    ensures
        D::product(
            D::widened(RxVfo::<A, D>::channel_design(bandwidth, out_sample_rate)->Ok_0[i]),
            out_sample_rate,
        ) == bandwidth,
{
    let two = D::integer_value(2);
    let width = D::quotient(bandwidth, two);
    whole_numbers::<D>(2);
    stays_finite::<D>(bandwidth, two);
    products_undo::<D>(bandwidth, two);
    low_pass_middle_is_its_band::<A, D>(
        width,
        D::product(width, D::fraction_value(1, 10)),
        out_sample_rate,
        true,
        i,
    );
}

/// The filter of a channel comes last: what comes out is what it makes of what
/// comes out without it.
pub proof fn filter_comes_last<A: Arithmetic>(v: VfoView<A>, input: Seq<Complex<A::R>>, i: int)
    requires
        v.taps is Some,
        0 <= i < v.output(input).len(),
    ensures
        ({
            let bare = VfoView { taps: None, ..v };
            let stream = v.history + bare.output(input);
            &&& v.output(input).len() == bare.output(input).len()
            &&& v.output(input)[i].re == convolved_terms::<A>(
                v.taps->0,
                reals(stream),
                v.history.len() + i,
                v.taps->0.len(),
            )
            &&& v.output(input)[i].im == convolved_terms::<A>(
                v.taps->0,
                imags(stream),
                v.history.len() + i,
                v.taps->0.len(),
            )
        }),
{
}

} // verus!
