//! Stereo decoder for broadcast stations.
//!
//! A pilot tone in the composite signal gives the phase of the subcarrier that
//! carries the difference of the channels.

use crate::arith::{Arithmetic, Widening};
use crate::block::{run, run_append, run_len, Block};
use crate::complex::lifted;
use crate::filter::{fir_append, fir_view, FirFilter, FirView};
use crate::loops::{PhaseControlLoop, Pll};
use crate::math::{angle_laws, angular_step, hz_to_rads};
use crate::stream::{
    filled, overwritten, remember, repeated, scan, scan_next, tail, tail_append,
};
use crate::taps::{band_pass, band_pass_design, low_pass, low_pass_design};
use crate::types::{Complex, DspError, Fault, Stereo};
use vstd::prelude::*;

verus! {

/// Frequency of the pilot tone, in hertz.
pub const PILOT_FREQ_HZ: i64 = 19_000;

/// Half the width of the pass band of the pilot's filter, in hertz.
pub const PILOT_BPF_HALF_WIDTH: i64 = 500;

/// Width of the transition bands of the pilot's filter, in hertz.
pub const PILOT_BPF_TRANSITION: i64 = 500;

/// Edge of the pass band of the audio filters, in hertz.
pub const AUDIO_LPF_CUTOFF: i64 = 15_000;

/// Width of the transition band of the audio filters, in hertz.
pub const AUDIO_LPF_TRANSITION: i64 = 4_000;

/// The state of a [`FmStereoDecoder`].
pub struct StereoView<A: Arithmetic> {
    /// Filter of the pilot.
    pub pilot: FirView<A>,
    /// Loop that follows the pilot.
    pub pll: Pll<A>,
    /// Filter of the sum of the channels.
    pub mono: FirView<A>,
    /// Filter of the difference of the channels.
    pub diff: FirView<A>,
    /// The samples of the composite signal that the pilot's filter is behind.
    pub delay: Seq<A::R>,
}

/// The subcarrier at twice the angle of the phasor `p`.
pub open spec fn doubled<A: Arithmetic>(p: Complex<A::R>) -> A::R {
    A::difference(A::product(p.re, p.re), A::product(p.im, p.im))
}

impl<A: Arithmetic> StereoView<A> {
    /// The filters are well formed.
    pub open spec fn wf(self) -> bool {
        self.pilot.wf() && self.mono.wf() && self.diff.wf()
    }

    /// The pilot of `input`.
    pub open spec fn pilots(self, input: Seq<A::R>) -> Seq<Complex<A::R>> {
        lifted::<A>(self.pilot.output(input))
    }

    /// Whether the composite signal is delayed by as much as the pilot's filter
    /// delays the pilot.
    pub open spec fn in_step(self) -> bool {
        self.delay.len() == (self.pilot.taps.len() - 1) / 2
    }

    /// `input`, delayed by as much as the pilot's filter is behind.
    pub open spec fn delayed(self, input: Seq<A::R>) -> Seq<A::R> {
        (self.delay + input).take(input.len() as int)
    }

    /// The delayed `input` multiplied by twice the subcarrier.
    pub open spec fn differences(self, input: Seq<A::R>) -> Seq<A::R> {
        let phasors = run(self.pll, self.pilots(input)).1;
        Seq::new(
            input.len(),
            |i: int|
                A::product(
                    A::product(self.delayed(input)[i], doubled::<A>(phasors[i])),
                    A::integer_value(2),
                ),
        )
    }

    /// What comes out for `input`: half the sum and half the difference of the
    /// two filtered signals.
    pub open spec fn output(self, input: Seq<A::R>) -> Seq<Stereo<A::R>> {
        let mono = self.mono.output(input);
        let diff = self.diff.output(self.differences(input));
        let half = A::fraction_value(1, 2);
        Seq::new(
            input.len(),
            |i: int|
                Stereo {
                    l: A::product(A::sum(mono[i], diff[i]), half),
                    r: A::product(A::difference(mono[i], diff[i]), half),
                },
        )
    }

    /// The state once `input` has gone through.
    pub open spec fn next(self, input: Seq<A::R>) -> Self {
        StereoView {
            pilot: self.pilot.next(input),
            pll: run(self.pll, self.pilots(input)).0,
            mono: self.mono.next(input),
            diff: self.diff.next(self.differences(input)),
            delay: tail(self.delay + input, self.delay.len()),
        }
    }

    /// The state at the start of a stream.
    pub open spec fn cleared(self) -> Self {
        StereoView {
            pilot: self.pilot.cleared(),
            pll: self.pll.cleared(),
            mono: self.mono.cleared(),
            diff: self.diff.cleared(),
            delay: repeated(A::integer_value(0), self.delay.len()),
        }
    }
}

/// What a decoder makes of a stream does not depend on how the stream is cut
/// into calls.
pub proof fn stereo_append<A: Arithmetic>(s: StereoView<A>, xs: Seq<A::R>, ys: Seq<A::R>)
    requires
        s.wf(),
    ensures
        s.output(xs + ys) == s.output(xs) + s.next(xs).output(ys),
        s.next(xs + ys) == s.next(xs).next(ys),
{
    let t = s.next(xs);
    fir_append::<A>(s.pilot.taps, s.pilot.history, xs, ys);
    tail_append(s.pilot.history, xs, ys);
    assert(s.pilots(xs + ys) =~= s.pilots(xs) + t.pilots(ys));
    run_append(s.pll, s.pilots(xs), t.pilots(ys));
    run_len(s.pll, s.pilots(xs));
    run_len(t.pll, t.pilots(ys));
    tail_append(s.delay, xs, ys);
    assert(s.delayed(xs + ys) =~= s.delayed(xs) + t.delayed(ys));
    assert(s.differences(xs + ys) =~= s.differences(xs) + t.differences(ys));
    fir_append::<A>(s.diff.taps, s.diff.history, s.differences(xs), t.differences(ys));
    tail_append(s.diff.history, s.differences(xs), t.differences(ys));
    fir_append::<A>(s.mono.taps, s.mono.history, xs, ys);
    tail_append(s.mono.history, xs, ys);
    assert(s.output(xs + ys) =~= s.output(xs) + t.output(ys));
}

/// Decoder from the composite signal to the two channels.
pub struct FmStereoDecoder<A: Arithmetic> {
    /// Filter of the pilot.
    pub pilot_bpf: FirFilter<A>,
    /// Loop that follows the pilot.
    pub pilot_pll: Pll<A>,
    /// Filter of the sum of the channels.
    pub mono_lpf: FirFilter<A>,
    /// Filter of the difference of the channels.
    pub diff_lpf: FirFilter<A>,
    /// The samples of the composite signal that the pilot's filter is behind.
    pub composite_delay: Vec<A::R>,
    /// Room for the pilot, kept from call to call.
    pub pilot_buf: Vec<A::R>,
    /// Room for the sum of the channels, kept from call to call.
    pub mono_buf: Vec<A::R>,
    /// Room for the difference of the channels, kept from call to call.
    pub diff_buf: Vec<A::R>,
    /// Room for the filtered difference, kept from call to call.
    pub diff_lpf_buf: Vec<A::R>,
}

impl<A: Arithmetic> FmStereoDecoder<A> {
    /// The filters are well formed.
    pub open spec fn wf(self) -> bool {
        self.pilot_bpf.wf() && self.mono_lpf.wf() && self.diff_lpf.wf()
    }

    /// The state of the decoder.
    pub open spec fn view(self) -> StereoView<A> {
        StereoView {
            pilot: fir_view(self.pilot_bpf),
            pll: self.pilot_pll,
            mono: fir_view(self.mono_lpf),
            diff: fir_view(self.diff_lpf),
            delay: self.composite_delay@,
        }
    }

    /// The design of the pilot's filter.
    pub open spec fn pilot_design<D: Widening<A>>(sample_rate: D::R) -> Result<
        Seq<A::R>,
        Fault,
    > {
        let pilot = D::integer_value(PILOT_FREQ_HZ);
        let half_width = D::integer_value(PILOT_BPF_HALF_WIDTH);
        band_pass_design::<A, D>(
            D::difference(pilot, half_width),
            D::sum(pilot, half_width),
            D::integer_value(PILOT_BPF_TRANSITION),
            sample_rate,
            true,
        )
    }

    /// The design of the audio filters.
    pub open spec fn audio_design<D: Widening<A>>(sample_rate: D::R) -> Result<
        Seq<A::R>,
        Fault,
    > {
        low_pass_design::<A, D>(
            D::integer_value(AUDIO_LPF_CUTOFF),
            D::integer_value(AUDIO_LPF_TRANSITION),
            sample_rate,
            false,
        )
    }

    /// The angle by which the pilot turns from sample to sample.
    pub open spec fn pilot_step<D: Widening<A>>(sample_rate: D::R) -> A::R {
        D::narrowed(angular_step::<D>(D::integer_value(PILOT_FREQ_HZ), sample_rate))
    }

    /// The least and the greatest angle that the loop follows.
    pub open spec fn pilot_range<D: Widening<A>>(sample_rate: D::R) -> (A::R, A::R) {
        let step = Self::pilot_step::<D>(sample_rate);
        (
            A::product(step, A::fraction_value(9, 10)),
            A::product(step, A::fraction_value(11, 10)),
        )
    }

    /// Whether a decoder at `sample_rate` is refused with `e`.
    pub open spec fn refused<D: Widening<A>>(sample_rate: D::R, e: Fault) -> bool {
        let (least, greatest) = Self::pilot_range::<D>(sample_rate);
        let pi = A::half_turn();
        let no_taps = Fault::InvalidParameter("FIR taps must not be empty"@);
        match Self::pilot_design::<D>(sample_rate) {
            Err(f) => e == f,
            Ok(pilot) => if pilot.len() == 0 {
                e == no_taps
            } else {
                match PhaseControlLoop::<A>::refusal(A::negation(pi), pi, least, greatest) {
                    Some(f) => e == f,
                    None => match Self::audio_design::<D>(sample_rate) {
                        Err(f) => e == f,
                        Ok(audio) => audio.len() == 0 && e == no_taps,
                    },
                }
            },
        }
    }

    /// Creates a decoder for a composite signal at `sample_rate`, in hertz.
    pub fn new<D: Widening<A>>(sample_rate: D::R) -> (r: Result<Self, DspError>)
        ensures
            match r {
                Err(e) => Self::refused::<D>(sample_rate, e@),
                Ok(f) => {
                    let (least, greatest) = Self::pilot_range::<D>(sample_rate);
                    &&& f.wf()
                    &&& f@ == f@.cleared()
                    &&& Self::pilot_design::<D>(sample_rate) == Ok::<Seq<A::R>, Fault>(
                        f@.pilot.taps,
                    )
                    &&& Self::audio_design::<D>(sample_rate) == Ok::<Seq<A::R>, Fault>(
                        f@.mono.taps,
                    )
                    &&& f@.diff.taps == f@.mono.taps
                    &&& f@.in_step()
                    &&& f.pilot_pll.started(
                        A::fraction_value(1, 100),
                        A::integer_value(0),
                        Self::pilot_step::<D>(sample_rate),
                        least,
                        greatest,
                    )
                },
            },
    {
        let pilot: D::R = D::integer(PILOT_FREQ_HZ);
        let half_width: D::R = D::integer(PILOT_BPF_HALF_WIDTH);
        let pilot_taps: Vec<A::R> = match band_pass::<A, D>(
            D::minus(pilot, half_width),
            D::plus(pilot, half_width),
            D::integer(PILOT_BPF_TRANSITION),
            sample_rate,
            true,
        ) {
            Ok(taps) => taps,
            Err(e) => {
                return Err(e);
            },
        };
        let count: usize = pilot_taps.len();
        let pilot_bpf: FirFilter<A> = match FirFilter::new(pilot_taps) {
            Ok(f) => f,
            Err(e) => {
                return Err(e);
            },
        };
        let step: A::R = D::narrow(hz_to_rads::<D>(pilot, sample_rate));
        let pilot_pll: Pll<A> = match Pll::new(
            A::fraction(1, 100),
            A::integer(0),
            step,
            A::times(step, A::fraction(9, 10)),
            A::times(step, A::fraction(11, 10)),
        ) {
            Ok(pll) => pll,
            Err(e) => {
                return Err(e);
            },
        };
        let lpf_taps: Vec<A::R> = match low_pass::<A, D>(
            D::integer(AUDIO_LPF_CUTOFF),
            D::integer(AUDIO_LPF_TRANSITION),
            sample_rate,
            false,
        ) {
            Ok(taps) => taps,
            Err(e) => {
                return Err(e);
            },
        };
        let mut copy: Vec<A::R> = Vec::with_capacity(lpf_taps.len());
        crate::stream::append(&mut copy, lpf_taps.as_slice());
        assert(copy@ =~= lpf_taps@);
        let mono_lpf: FirFilter<A> = match FirFilter::new(copy) {
            Ok(f) => f,
            Err(e) => {
                return Err(e);
            },
        };
        let diff_lpf: FirFilter<A> = match FirFilter::new(lpf_taps) {
            Ok(f) => f,
            Err(e) => {
                return Err(e);
            },
        };
        Ok(
            FmStereoDecoder {
                pilot_bpf,
                pilot_pll,
                mono_lpf,
                diff_lpf,
                composite_delay: filled(A::integer(0), (count - 1) / 2),
                pilot_buf: Vec::new(),
                mono_buf: Vec::new(),
                diff_buf: Vec::new(),
                diff_lpf_buf: Vec::new(),
            },
        )
    }

    /// Starts a new stream.
    pub fn reset(&mut self)
        ensures
            final(self)@ == old(self)@.cleared(),
    {
        self.pilot_bpf.reset();
        self.pilot_pll.reset();
        self.mono_lpf.reset();
        self.diff_lpf.reset();
        self.composite_delay = filled(A::integer(0), self.composite_delay.len());
    }

    /// Leaves the delayed `input` multiplied by twice the subcarrier in the
    /// buffer of the difference.
    fn demodulate(&mut self, input: &[A::R])
        requires
            old(self).wf(),
        ensures
            final(self).wf(),
            final(self).diff_buf@ == old(self)@.differences(input@),
            final(self)@ == (StereoView {
                mono: old(self)@.mono,
                diff: old(self)@.diff,
                ..old(self)@.next(input@)
            }),
    {
        let ghost before = self@;
        let len: usize = input.len();
        self.pilot_buf.resize(len, A::integer(0));
        match self.pilot_bpf.process_f32(input, self.pilot_buf.as_mut_slice()) {
            Ok(_) => {},
            Err(_) => {
                assert(false);
            },
        }
        assert(self.pilot_buf@ =~= before.pilot.output(input@));
        let ghost through = self@;
        let ghost tones = before.pilots(input@);
        let ghost step = |s: Pll<A>, x: Complex<A::R>| s.step(x);
        let delay: usize = self.composite_delay.len();
        self.diff_buf.clear();
        let mut i: usize = 0;
        while i < len
            invariant
                i <= len == input@.len() == tones.len() == self.pilot_buf@.len(),
                delay == self.composite_delay@.len(),
                step == (|s: Pll<A>, x: Complex<A::R>| s.step(x)),
                tones == before.pilots(input@),
                self.wf(),
                self@ == (StereoView { pll: self.pilot_pll, ..through }),
                through.delay == before.delay,
                self.pilot_buf@ == before.pilot.output(input@),
                self.pilot_pll == scan(step, before.pll, tones.take(i as int)).0,
                self.diff_buf@ =~= before.differences(input@).take(i as int),
            decreases len - i,
        {
            let delayed: A::R = if i < delay {
                self.composite_delay[i]
            } else {
                input[i - delay]
            };
            assert(delayed == before.delayed(input@)[i as int]);
            proof {
                scan_next(step, before.pll, tones, i as int);
                run_append(before.pll, tones.take(i + 1), tones.skip(i + 1));
                assert(tones.take(i + 1) + tones.skip(i + 1) =~= tones);
                run_len(before.pll, tones);
            }
            let p: Complex<A::R> = self.pilot_pll.tick(
                Complex { re: self.pilot_buf[i], im: A::integer(0) },
            );
            assert(p == run(before.pll, tones).1[i as int]);
            let subcarrier: A::R = A::minus(A::times(p.re, p.re), A::times(p.im, p.im));
            self.diff_buf.push(A::times(A::times(delayed, subcarrier), A::integer(2)));
            i = i + 1;
        }
        assert(tones.take(len as int) =~= tones);
        assert(self.diff_buf@ =~= before.differences(input@));
        remember(&mut self.composite_delay, input);
    }

    /// Decodes `input` into `output` and returns the number of samples written.
    pub fn process(&mut self, input: &[A::R], output: &mut [Stereo<A::R>]) -> (r: Result<
        usize,
        DspError,
    >)
        requires
            old(self).wf(),
        ensures
            final(self).wf(),
            match r {
                Err(e) => {
                    &&& old(output)@.len() < input@.len()
                    &&& e == DspError::BufferTooSmall {
                        need: input@.len() as usize,
                        got: old(output)@.len() as usize,
                    }
                    &&& final(self)@ == old(self)@
                    &&& final(output)@ == old(output)@
                },
                Ok(n) => {
                    &&& n == input@.len() <= old(output)@.len()
                    &&& final(self)@ == old(self)@.next(input@)
                    &&& final(output)@ == overwritten(old(output)@, old(self)@.output(input@))
                },
            },
    {
        let len: usize = input.len();
        if output.len() < len {
            return Err(DspError::BufferTooSmall { need: len, got: output.len() });
        }
        let ghost made = self@.output(input@);
        let ghost before = self@;
        self.demodulate(input);
        self.mono_buf.resize(len, A::integer(0));
        match self.mono_lpf.process_f32(input, self.mono_buf.as_mut_slice()) {
            Ok(_) => {},
            Err(_) => {
                assert(false);
            },
        }
        assert(self.mono_buf@ =~= before.mono.output(input@));
        self.diff_lpf_buf.resize(len, A::integer(0));
        match self.diff_lpf.process_f32(
            self.diff_buf.as_slice(),
            self.diff_lpf_buf.as_mut_slice(),
        ) {
            Ok(_) => {},
            Err(_) => {
                assert(false);
            },
        }
        assert(self.diff_lpf_buf@ =~= before.diff.output(before.differences(input@)));
        let half: A::R = A::fraction(1, 2);
        let mut i: usize = 0;
        while i < len
            invariant
                i <= len == input@.len() == self.mono_buf@.len() == self.diff_lpf_buf@.len(),
                self.wf(),
                self@ == before.next(input@),
                len <= output@.len() == old(output)@.len(),
                half == A::fraction_value(1, 2),
                self.mono_buf@ == before.mono.output(input@),
                self.diff_lpf_buf@ == before.diff.output(before.differences(input@)),
                made == before.output(input@),
                output@ =~= overwritten(old(output)@, made.take(i as int)),
            decreases len - i,
        {
            let sum: A::R = self.mono_buf[i];
            let difference: A::R = self.diff_lpf_buf[i];
            output[i] = Stereo {
                l: A::times(A::plus(sum, difference), half),
                r: A::times(A::minus(sum, difference), half),
            };
            i = i + 1;
        }
        assert(made.take(len as int) =~= made);
        Ok(len)
    }
}

/// What [`channels_keep_the_sum`] asks of the sums, differences and halves of
/// numbers that are `plain`: with the numbers taken as `value` says, in a unit
/// that is small enough, they are at most `slack` units off. Without rounding
/// nothing is off.
pub open spec fn nearly_exact<A: Arithmetic>(
    plain: spec_fn(A::R) -> bool,
    value: spec_fn(A::R) -> int,
    slack: int,
) -> bool {
    let half = A::fraction_value(1, 2);
    &&& forall|a: A::R, b: A::R|
        plain(a) && plain(b) ==> -slack <= value(#[trigger] A::sum(a, b)) - (value(a) + value(b))
            <= slack
    &&& forall|a: A::R, b: A::R|
        plain(a) && plain(b) ==> -slack <= value(#[trigger] A::difference(a, b)) - (value(a)
            - value(b)) <= slack
    &&& forall|a: A::R|
        plain(a) ==> -slack <= 2 * value(#[trigger] A::product(a, half)) - value(a) <= slack
}

/// The left and the right channel add up to the filtered composite signal, but
/// for the rounding of the four operations on the way.
pub proof fn channels_keep_the_sum<A: Arithmetic>(
    s: StereoView<A>,
    input: Seq<A::R>,
    i: int,
    plain: spec_fn(A::R) -> bool,
    value: spec_fn(A::R) -> int,
    slack: int,
)
    requires
        0 <= i < input.len(),
        nearly_exact::<A>(plain, value, slack),
        ({
            let mono = s.mono.output(input)[i];
            let diff = s.diff.output(s.differences(input))[i];
            &&& plain(mono) && plain(diff)
            &&& plain(A::sum(mono, diff)) && plain(A::difference(mono, diff))
            &&& plain(s.output(input)[i].l) && plain(s.output(input)[i].r)
        }),
    ensures
        ({
            let both = s.output(input)[i];
            let off = value(A::sum(both.l, both.r)) - value(s.mono.output(input)[i]);
            -3 * slack <= off <= 3 * slack
        }),
{
    let mono = s.mono.output(input)[i];
    let diff = s.diff.output(s.differences(input))[i];
    let half = A::fraction_value(1, 2);
    let l = A::product(A::sum(mono, diff), half);
    let r = A::product(A::difference(mono, diff), half);
    assert(s.output(input)[i] == (Stereo { l, r }));
    let off = value(A::sum(l, r)) - (value(l) + value(r));
    assert(-slack <= off <= slack);
}

/// The left channel less the right one is the filtered difference signal, but
/// for the rounding of the four operations on the way.
pub proof fn channels_keep_the_difference<A: Arithmetic>(
    s: StereoView<A>,
    input: Seq<A::R>,
    i: int,
    plain: spec_fn(A::R) -> bool,
    value: spec_fn(A::R) -> int,
    slack: int,
)
    requires
        0 <= i < input.len(),
        nearly_exact::<A>(plain, value, slack),
        ({
            let mono = s.mono.output(input)[i];
            let diff = s.diff.output(s.differences(input))[i];
            &&& plain(mono) && plain(diff)
            &&& plain(A::sum(mono, diff)) && plain(A::difference(mono, diff))
            &&& plain(s.output(input)[i].l) && plain(s.output(input)[i].r)
        }),
    ensures
        ({
            let both = s.output(input)[i];
            let off = value(A::difference(both.l, both.r)) - value(
                s.diff.output(s.differences(input))[i],
            );
            -3 * slack <= off <= 3 * slack
        }),
{
    let mono = s.mono.output(input)[i];
    let diff = s.diff.output(s.differences(input))[i];
    let half = A::fraction_value(1, 2);
    let l = A::product(A::sum(mono, diff), half);
    let r = A::product(A::difference(mono, diff), half);
    assert(s.output(input)[i] == (Stereo { l, r }));
    let off = value(A::difference(l, r)) - (value(l) - value(r));
    assert(-slack <= off <= slack);
}

/// The difference signal is the composite signal of as many samples before as
/// the pilot's filter is behind, times twice the cosine of twice the angle that
/// the pilot's loop has reached.
pub proof fn difference_is_demodulated<A: Arithmetic>(
    s: StereoView<A>,
    input: Seq<A::R>,
    i: int,
)
    requires
        angle_laws::<A>(),
        0 <= i < input.len(),
        A::finite(run(s.pll, s.pilots(input).take(i)).0.pcl.phase),
    ensures
        ({
            let phase = run(s.pll, s.pilots(input).take(i)).0.pcl.phase;
            s.differences(input)[i] == A::product(
                A::product((s.delay + input)[i], A::cosine(A::sum(phase, phase))),
                A::integer_value(2),
            )
        }),
{
    let tones = s.pilots(input);
    let step = |p: Pll<A>, x: Complex<A::R>| p.step(x);
    let phase = run(s.pll, tones.take(i)).0.pcl.phase;
    scan_next(step, s.pll, tones, i);
    run_append(s.pll, tones.take(i + 1), tones.skip(i + 1));
    assert(tones.take(i + 1) + tones.skip(i + 1) =~= tones);
    run_len(s.pll, tones);
    let p = run(s.pll, tones).1[i];
    assert(p == Complex { re: A::cosine(phase), im: A::sine(phase) });
    assert(doubled::<A>(p) == A::cosine(A::sum(phase, phase)));
}

/// The composite signal meets its own pilot: sample `i` of the input comes behind
/// the delay where the pilot's filter has it under its middle tap, with as many
/// taps before it as behind it.
pub proof fn composite_meets_its_pilot<A: Arithmetic>(
    s: StereoView<A>,
    input: Seq<A::R>,
    middle: int,
    i: int,
)
    requires
        s.in_step(),
        2 * middle + 1 == s.pilot.taps.len(),
        0 <= i,
        i + middle < input.len(),
    ensures
        s.delayed(input)[i + middle] == input[i],
{
    assert(s.delay.len() == middle);
    assert((s.delay + input)[i + middle] == input[i]);
}

} // verus!
