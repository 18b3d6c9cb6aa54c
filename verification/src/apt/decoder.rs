//! From audio to scan lines.

use crate::apt::envelope::{Apt137Demodulator, RealResampler};
use crate::apt::sync::{
    best_match, best_match_compares, best_match_in_range, centred, correlation, correlation_at,
    norm_of, sync_a_pattern, SyncDetector, SyncMatch,
};
use crate::apt::{
    AptLine, LineView, SyncChannel, INTERMEDIATE_RATE_HZ, LINE_PIXELS, MIN_INPUT_RATE_HZ,
    PIXELS_PER_SECOND, READY_QUEUE_CAP, SAMPLES_PER_LINE, SAMPLES_PER_PIXEL, SUBCARRIER_HZ,
    SYNC_A_TEMPLATE_LEN,
};
use crate::arith::{
    clamp, clamped, clamped_within, comparable, order_laws, within, Arithmetic, Widening,
};
use crate::block::{run, run_append, run_len};
use crate::complex::{lifted, reals};
use crate::decim_taps::DecimTables;
use crate::filter::{filtered, fir_append, fir_gain_at_zero, FirFilter};
use crate::kernel::{div_up, quotient_up, sum_of};
use crate::exact::{
    all_finite, exact_laws, products_undo, stays_finite, sum_with_zero, sums_undo, whole_numbers,
    zero_factor,
};
use crate::multirate::{
    cascade_len, cascade_ratio, cleared_cascade_len, cleared_next, cleared_twice, divides,
    is_gcd, lowest_terms, rational_append, rational_empty, rational_next_wf, resampled_in_ratio,
    resampler_keeps_level, same_ratio, settled_on, unit_gain, whole_hertz, RationalResampler,
    RationalView,
};
use crate::powers::power_of_two;
use crate::stream::{
    append, drop_front, filled, overwritten, remember, repeated, tail, tail_append,
};
use crate::taps::{dc_removal_design, low_pass_dc_removal_kaiser};
use crate::types::{Complex, DspError, Fault, decimal, decimal_text, invalid};
use std::collections::VecDeque;
use vstd::prelude::*;
use vstd::string::StringExecFns;
use vstd::slice::slice_subrange;

verus! {

/// Samples of the envelope that the decoder holds at most between calls.
pub const DECODER_BUFFER_CAP: usize = SAMPLES_PER_LINE * 3;

/// Samples of the envelope that the search for a line takes, besides those
/// that follow the line in its filter.
pub const MIN_ACCUMULATOR_FOR_DECODE: usize = SAMPLES_PER_LINE * 2;

/// While the decoder is locked, a match further than this from where the line
/// is expected does not count.
pub const MAX_SYNC_DRIFT_SAMPLES: usize = SAMPLES_PER_LINE / 5;

/// The lock is dropped when as many lines in a row have been taken where they
/// were expected instead of where the match was.
pub const MAX_NOMINAL_FALLBACKS: u32 = 8;

/// Upper edge of the pass band of the input's filter, in hertz.
pub const DC_BANDPASS_CUTOUT_HZ: i64 = 4_800;

/// Width of the transition bands of the input's filter, in hertz.
pub const DC_BANDPASS_TRANSITION_HZ: i64 = 1_000;

/// Attenuation in the stop bands of the input's filter, in decibels.
pub const DC_BANDPASS_ATTEN_DB: i64 = 30;

/// Samples of the input that are filtered and resampled at a time.
pub const INPUT_SUBCHUNK_SAMPLES: usize = 8_192;

/// The filter of the input, the resampler and the envelope detector.
pub struct FrontView<A: Arithmetic> {
    /// Taps of the filter.
    pub taps: Seq<A::R>,
    /// The samples before the next input of the filter.
    pub history: Seq<A::R>,
    /// The resampler.
    pub resampler: RationalView<A>,
    /// The envelope detector.
    pub demod: Apt137Demodulator<A>,
}

impl<A: Arithmetic> FrontView<A> {
    /// The history holds one sample less than there are taps, and the
    /// resampler is well formed.
    pub open spec fn wf(self) -> bool {
        &&& self.taps.len() == self.history.len() + 1
        &&& self.resampler.wf()
    }

    /// `input` behind the filter.
    pub open spec fn filtered(self, input: Seq<A::R>) -> Seq<A::R> {
        filtered::<A>(self.taps, self.history, input)
    }

    /// `input` behind the filter and the resampler.
    pub open spec fn resampled(self, input: Seq<A::R>) -> Seq<A::R> {
        reals(self.resampler.output(lifted::<A>(self.filtered(input))))
    }

    /// The envelope of `input`.
    pub open spec fn envelope(self, input: Seq<A::R>) -> Seq<A::R> {
        run(self.demod, self.resampled(input)).1
    }

    /// The parts at the start of a stream.
    pub open spec fn cleared(self) -> Self {
        FrontView {
            history: repeated(A::integer_value(0), self.history.len()),
            resampler: self.resampler.cleared(),
            demod: self.demod.cleared(),
            ..self
        }
    }

    /// The parts once `input` has gone through.
    pub open spec fn next(self, input: Seq<A::R>) -> Self {
        FrontView {
            history: tail(self.history + input, self.history.len()),
            resampler: self.resampler.next(lifted::<A>(self.filtered(input))),
            demod: run(self.demod, self.resampled(input)).0,
            ..self
        }
    }
}

/// The envelope of a stream does not depend on how the stream is cut into
/// calls.
pub proof fn front_append<A: Arithmetic>(f: FrontView<A>, xs: Seq<A::R>, ys: Seq<A::R>)
    requires
        f.wf(),
    ensures
        f.envelope(xs + ys) == f.envelope(xs) + f.next(xs).envelope(ys),
        f.next(xs + ys) == f.next(xs).next(ys),
{
    fir_append::<A>(f.taps, f.history, xs, ys);
    tail_append(f.history, xs, ys);
    let first = f.filtered(xs);
    let second = f.next(xs).filtered(ys);
    assert(lifted::<A>(first + second) =~= lifted::<A>(first) + lifted::<A>(second));
    rational_append(f.resampler, lifted::<A>(first), lifted::<A>(second));
    let wide_first = f.resampler.output(lifted::<A>(first));
    let wide_second = f.resampler.next(lifted::<A>(first)).output(lifted::<A>(second));
    assert(reals(wide_first + wide_second) =~= reals(wide_first) + reals(wide_second));
    run_append(f.demod, f.resampled(xs), f.next(xs).resampled(ys));
}

/// The smallest of the first `n` of `xs`, and the highest number of none.
pub open spec fn smallest<A: Arithmetic>(xs: Seq<A::R>, n: nat) -> A::R
    decreases n,
{
    if n == 0 {
        A::negation(A::lowest())
    } else {
        A::lesser(smallest::<A>(xs, (n - 1) as nat), xs[n - 1])
    }
}

/// The largest of the first `n` of `xs`, and the lowest number of none.
pub open spec fn largest<A: Arithmetic>(xs: Seq<A::R>, n: nat) -> A::R
    decreases n,
{
    if n == 0 {
        A::lowest()
    } else {
        A::greater(largest::<A>(xs, (n - 1) as nat), xs[n - 1])
    }
}

/// `x` as a grey between black at `lo` and white at `hi`.
pub open spec fn grey<A: Arithmetic>(x: A::R, lo: A::R, hi: A::R) -> u8 {
    let range = A::greater(A::difference(hi, lo), A::fraction_value(1, 1_000_000_000));
    let level = clamped::<A>(
        A::quotient(A::difference(x, lo), range),
        A::integer_value(0),
        A::integer_value(1),
    );
    let whole = A::natural_part(A::rounded(A::product(level, A::integer_value(255))));
    if whole > 255 {
        255
    } else {
        whole as u8
    }
}

/// The pixels of a line with the envelope `samples`: greys between the
/// smallest and the largest sample, and black where samples are missing.
pub open spec fn greys<A: Arithmetic>(samples: Seq<A::R>) -> Seq<u8> {
    let lo = smallest::<A>(samples, samples.len());
    let hi = largest::<A>(samples, samples.len());
    Seq::new(
        LINE_PIXELS as nat,
        |i: int|
            if i < samples.len() {
                grey::<A>(samples[i], lo, hi)
            } else {
                0u8
            },
    )
}

/// `samples` with zeros behind them up to the length of a line.
pub open spec fn padded<A: Arithmetic>(samples: Seq<A::R>) -> Seq<A::R> {
    Seq::new(
        LINE_PIXELS as nat,
        |i: int|
            if i < samples.len() {
                samples[i]
            } else {
                A::integer_value(0)
            },
    )
}

/// The sum, held to the range of the counter.
pub open spec fn counted(start: int, n: int) -> int {
    if start + n > u64::MAX {
        u64::MAX as int
    } else {
        start + n
    }
}

/// The sample of an input at `rate` that the envelope sample `at` comes from,
/// held to the range of the counter.
pub open spec fn input_index(at: int, rate: int) -> int {
    let index = at * rate / INTERMEDIATE_RATE_HZ as int;
    if index > u64::MAX {
        u64::MAX as int
    } else {
        index
    }
}

/// The part of the decoder that cuts the envelope into lines.
#[verifier::ext_equal]
pub struct SlicerView<A: Arithmetic> {
    /// Rate of the input.
    pub rate: int,
    /// The resampler from the envelope to pixels, cleared.
    pub pixels: RationalView<A>,
    /// The samples of the envelope before those that wait.
    pub history: Seq<A::R>,
    /// The samples of the envelope that wait to be decoded.
    pub waiting: Seq<A::R>,
    /// Number of the first sample that waits.
    pub start: int,
    /// Whether lines are expected one right behind the other.
    pub locked: bool,
    /// Lines in a row that were taken where they were expected.
    pub fallbacks: int,
}

impl<A: Arithmetic> SlicerView<A> {
    /// The state at the start of a stream.
    pub open spec fn cleared(self) -> Self {
        SlicerView {
            history: repeated(A::integer_value(0), self.history.len()),
            waiting: Seq::empty(),
            start: 0,
            locked: false,
            fallbacks: 0,
            ..self
        }
    }

    /// Whether enough samples wait for the next line.
    pub open spec fn ready(self) -> bool {
        self.waiting.len() >= MIN_ACCUMULATOR_FOR_DECODE + self.history.len()
    }

    /// The pattern of Sync A without its mean.
    pub open spec fn template() -> Seq<A::R> {
        centred::<A>(sync_a_pattern::<A>(SAMPLES_PER_PIXEL as int))
    }

    /// Where Sync A matches best among the first places, as many as a line has
    /// samples and one more.
    pub open spec fn found(self) -> SyncMatch<A::R> {
        let best = best_match::<A>(
            self.waiting.take(SAMPLES_PER_LINE + SYNC_A_TEMPLATE_LEN),
            Self::template(),
            norm_of::<A>(Self::template()),
            (SAMPLES_PER_LINE + 1) as nat,
        );
        SyncMatch {
            offset: best.0 as usize,
            channel: SyncChannel::A,
            quality: clamped::<A>(best.1, A::integer_value(0), A::integer_value(1)),
        }
    }

    /// How well Sync A matches where the line is expected.
    pub open spec fn quality_here(self) -> A::R {
        if self.waiting.len() < SYNC_A_TEMPLATE_LEN {
            A::integer_value(0)
        } else {
            clamped::<A>(
                correlation_at::<A>(
                    self.waiting,
                    Self::template(),
                    norm_of::<A>(Self::template()),
                    0,
                ),
                A::integer_value(0),
                A::integer_value(1),
            )
        }
    }

    /// The rule that keeps lines at their distance. A match that is good
    /// enough locks. While locked, a match too far from where the line is
    /// expected is replaced by that place, with the quality found there; the
    /// lock is dropped when that has happened too often in a row.
    pub open spec fn gated(self, m: SyncMatch<A::R>) -> (Self, SyncMatch<A::R>) {
        if self.locked && m.offset > MAX_SYNC_DRIFT_SAMPLES {
            let dropped = self.fallbacks + 1 >= MAX_NOMINAL_FALLBACKS;
            (
                SlicerView {
                    locked: !dropped,
                    fallbacks: if dropped {
                        0
                    } else {
                        self.fallbacks + 1
                    },
                    ..self
                },
                SyncMatch { offset: 0, channel: SyncChannel::A, quality: self.quality_here() },
            )
        } else if A::at_most(A::fraction_value(2, 5), m.quality) {
            (SlicerView { locked: true, fallbacks: 0, ..self }, m)
        } else {
            (self, m)
        }
    }

    /// The samples that the line at `offset` is resampled from: the line, with
    /// as many samples before it and behind it as the history holds.
    pub open spec fn context(self, offset: int) -> Seq<A::R> {
        (self.history + self.waiting).subrange(
            offset,
            offset + SAMPLES_PER_LINE + 2 * self.history.len(),
        )
    }

    /// The line at `offset` at one sample for each pixel. What the filter of
    /// the resampler gives before it has reached the line is left out.
    pub open spec fn aligned(self, offset: int) -> Seq<A::R> {
        let made = reals(self.pixels.output(lifted::<A>(self.context(offset))));
        let skip = 2 * self.history.len() / SAMPLES_PER_PIXEL as nat;
        if made.len() <= skip {
            Seq::empty()
        } else if made.len() - skip > LINE_PIXELS {
            made.subrange(skip as int, skip + LINE_PIXELS)
        } else {
            made.skip(skip as int)
        }
    }

    /// The state once `count` samples that waited are done with.
    pub open spec fn drained(self, count: int) -> Self {
        SlicerView {
            history: tail(self.history + self.waiting.take(count), self.history.len()),
            waiting: self.waiting.skip(count),
            start: counted(self.start, count),
            ..self
        }
    }

    /// The next line, with the state behind it.
    pub open spec fn decoded(self) -> (Self, LineView<A>) {
        let (next, m) = self.gated(self.found());
        let samples = self.aligned(m.offset as int);
        let line = LineView {
            pixels: greys::<A>(samples),
            raw: padded::<A>(samples),
            quality: m.quality,
            channel: SyncChannel::A,
            index: input_index(counted(self.start, m.offset as int), self.rate),
        };
        (next.drained(m.offset + SAMPLES_PER_LINE), line)
    }

    /// Puts the lines for which enough samples wait behind `lines`, up to
    /// `limit` in all.
    pub open spec fn decoded_up_to(self, lines: Seq<LineView<A>>, limit: int) -> (
        Self,
        Seq<LineView<A>>,
    )
        decreases self.waiting.len(),
    {
        if self.ready() && lines.len() < limit {
            let (next, line) = self.decoded();
            if next.waiting.len() < self.waiting.len() {
                next.decoded_up_to(lines.push(line), limit)
            } else {
                (self, lines)
            }
        } else {
            (self, lines)
        }
    }

    /// All lines for which enough samples wait, with the state behind them.
    pub open spec fn decoded_all(self) -> (Self, Seq<LineView<A>>)
        decreases self.waiting.len(),
    {
        if self.ready() {
            let (next, line) = self.decoded();
            if next.waiting.len() < self.waiting.len() {
                let (last, lines) = next.decoded_all();
                (last, seq![line] + lines)
            } else {
                (self, Seq::empty())
            }
        } else {
            (self, Seq::empty())
        }
    }

    /// The state with `envelope` behind the samples that wait.
    pub open spec fn appended(self, envelope: Seq<A::R>) -> Self {
        SlicerView { waiting: self.waiting + envelope, ..self }
    }

    /// The state without the oldest samples, where more wait than the decoder
    /// holds between calls.
    pub open spec fn trimmed(self) -> Self {
        if self.waiting.len() > DECODER_BUFFER_CAP {
            self.drained(self.waiting.len() - DECODER_BUFFER_CAP)
        } else {
            self
        }
    }

    /// How many of `count` samples are taken in at a time.
    pub open spec fn portion(self, count: int) -> int {
        let room = DECODER_BUFFER_CAP - self.waiting.len();
        let most = if room > SAMPLES_PER_LINE {
            room
        } else {
            SAMPLES_PER_LINE as int
        };
        if count < most {
            count
        } else {
            most
        }
    }

    /// Takes in `envelope` in portions, and after each of them decodes lines
    /// and drops what cannot be held.
    pub open spec fn ingested(
        self,
        lines: Seq<LineView<A>>,
        envelope: Seq<A::R>,
        limit: int,
    ) -> (Self, Seq<LineView<A>>)
        decreases envelope.len(),
    {
        if envelope.len() == 0 {
            (self, lines)
        } else {
            let count = self.portion(envelope.len() as int);
            let (next, more) = self.appended(envelope.take(count)).decoded_up_to(lines, limit);
            next.trimmed().ingested(more, envelope.skip(count), limit)
        }
    }
}

/// The length of the pattern of Sync A.
pub proof fn template_len<A: Arithmetic>()
    ensures
        SlicerView::<A>::template().len() == SYNC_A_TEMPLATE_LEN,
{
}

/// The next line starts within the first line's worth of samples, and leaves
/// the rest.
pub proof fn decoded_shape<A: Arithmetic>(s: SlicerView<A>)
    requires
        s.ready(),
    ensures
        s.found().offset <= SAMPLES_PER_LINE,
        s.gated(s.found()).1.offset <= SAMPLES_PER_LINE,
        s.decoded().0.waiting == s.waiting.skip(
            s.gated(s.found()).1.offset + SAMPLES_PER_LINE,
        ),
        s.decoded().0.waiting.len() < s.waiting.len(),
        s.decoded().0.history.len() == s.history.len(),
{
    best_match_in_range::<A>(
        s.waiting.take(SAMPLES_PER_LINE + SYNC_A_TEMPLATE_LEN),
        SlicerView::<A>::template(),
        norm_of::<A>(SlicerView::<A>::template()),
        (SAMPLES_PER_LINE + 1) as nat,
    );
}

/// To decode lines leaves no more samples waiting.
pub proof fn decoded_up_to_shrinks<A: Arithmetic>(
    s: SlicerView<A>,
    lines: Seq<LineView<A>>,
    limit: int,
)
    ensures
        s.decoded_up_to(lines, limit).0.waiting.len() <= s.waiting.len(),
    decreases s.waiting.len(),
{
    if s.ready() && lines.len() < limit {
        decoded_shape(s);
        decoded_up_to_shrinks(s.decoded().0, lines.push(s.decoded().1), limit);
    }
}

/// What carries over from call to call, but for the lines that are held back.
pub struct DecoderView<A: Arithmetic> {
    /// The filter, the resampler and the envelope detector.
    pub front: FrontView<A>,
    /// The part that cuts the envelope into lines.
    pub slicer: SlicerView<A>,
}

impl<A: Arithmetic> DecoderView<A> {
    /// Takes in `input` piece by piece and puts the lines that it completes
    /// behind `lines`, up to `limit` in all.
    pub open spec fn fed(self, lines: Seq<LineView<A>>, input: Seq<A::R>, limit: int) -> (
        Self,
        Seq<LineView<A>>,
    )
        decreases input.len(),
    {
        if input.len() == 0 {
            (self, lines)
        } else {
            let count = if input.len() < INPUT_SUBCHUNK_SAMPLES {
                input.len() as int
            } else {
                INPUT_SUBCHUNK_SAMPLES as int
            };
            let piece = input.take(count);
            let (slicer, more) = self.slicer.ingested(lines, self.front.envelope(piece), limit);
            DecoderView { front: self.front.next(piece), slicer }.fed(
                more,
                input.skip(count),
                limit,
            )
        }
    }

    /// What a call with `input` leads to, with `lines` held back before it: an
    /// empty input has lines decoded for which there was no room before.
    pub open spec fn processed(self, lines: Seq<LineView<A>>, input: Seq<A::R>, limit: int) -> (
        Self,
        Seq<LineView<A>>,
    ) {
        if input.len() == 0 {
            let (slicer, more) = self.slicer.decoded_up_to(lines, limit);
            (DecoderView { slicer, ..self }, more)
        } else {
            self.fed(lines, input, limit)
        }
    }
}

/// The next line does not depend on the samples behind those that it takes.
pub proof fn decoded_local<A: Arithmetic>(s: SlicerView<A>, envelope: Seq<A::R>)
    requires
        s.ready(),
    ensures
        s.appended(envelope).ready(),
        s.appended(envelope).decoded() == (s.decoded().0.appended(envelope), s.decoded().1),
{
    let longer = s.appended(envelope);
    let search = SAMPLES_PER_LINE + SYNC_A_TEMPLATE_LEN;
    decoded_shape(s);
    template_len::<A>();
    assert(longer.waiting.take(search) =~= s.waiting.take(search));
    let template = SlicerView::<A>::template();
    assert(longer.waiting.subrange(0, template.len() as int) =~= s.waiting.subrange(
        0,
        template.len() as int,
    ));
    let (gated, m) = s.gated(s.found());
    let (longer_gated, longer_m) = longer.gated(longer.found());
    assert(m == longer_m);
    assert(longer.context(m.offset as int) =~= s.context(m.offset as int));
    let count = m.offset + SAMPLES_PER_LINE;
    assert(longer.waiting.take(count) =~= s.waiting.take(count));
    assert(longer.waiting.skip(count) =~= s.waiting.skip(count) + envelope);
}

/// Samples that come later add their lines behind those decoded before.
pub proof fn decoded_all_append<A: Arithmetic>(s: SlicerView<A>, envelope: Seq<A::R>)
    ensures
        ({
            let (between, first) = s.decoded_all();
            let (last, second) = between.appended(envelope).decoded_all();
            s.appended(envelope).decoded_all() == (last, first + second)
        }),
    decreases s.waiting.len(),
{
    let (between, first) = s.decoded_all();
    let (last, second) = between.appended(envelope).decoded_all();
    if s.ready() {
        decoded_shape(s);
        decoded_local(s, envelope);
        let (next, line) = s.decoded();
        decoded_all_append(next, envelope);
        decoded_shape(s.appended(envelope));
        let (_, later) = next.decoded_all();
        assert(seq![line] + (later + second) =~= first + second);
    } else {
        assert(Seq::<LineView<A>>::empty() + second =~= second);
    }
}

/// Once all lines are decoded, too few samples wait for another.
pub proof fn decoded_all_settles<A: Arithmetic>(s: SlicerView<A>)
    ensures
        !s.decoded_all().0.ready(),
        s.decoded_all().0.history.len() == s.history.len(),
    decreases s.waiting.len(),
{
    if s.ready() {
        decoded_shape(s);
        decoded_all_settles(s.decoded().0);
    }
}

/// Where there is room for all lines, all lines are decoded.
pub proof fn decoded_up_to_all<A: Arithmetic>(
    s: SlicerView<A>,
    lines: Seq<LineView<A>>,
    limit: int,
)
    requires
        lines.len() + s.decoded_all().1.len() <= limit,
    ensures
        s.decoded_up_to(lines, limit) == (s.decoded_all().0, lines + s.decoded_all().1),
    decreases s.waiting.len(),
{
    if s.ready() {
        decoded_shape(s);
        let (next, line) = s.decoded();
        decoded_up_to_all(next, lines.push(line), limit);
        assert(lines.push(line) + next.decoded_all().1 =~= lines + s.decoded_all().1);
    } else {
        assert(lines + Seq::<LineView<A>>::empty() =~= lines);
    }
}

/// Lines that were decoded before do not matter to those that are decoded.
proof fn decoded_behind<A: Arithmetic>(
    s: SlicerView<A>,
    lines: Seq<LineView<A>>,
    taken: int,
    limit: int,
)
    requires
        0 <= taken <= lines.len(),
    ensures
        ({
            let (next, all) = s.decoded_up_to(lines, taken + limit);
            &&& s.decoded_up_to(lines.skip(taken), limit) == (next, all.skip(taken))
            &&& all.len() >= lines.len()
        }),
    decreases s.waiting.len(),
{
    if s.ready() && lines.len() < taken + limit {
        decoded_shape(s);
        let (next, line) = s.decoded();
        decoded_behind(next, lines.push(line), taken, limit);
        assert(lines.push(line).skip(taken) =~= lines.skip(taken).push(line));
    }
}

/// Lines for which there is no room come later: to decode up to `limit` lines,
/// hand `taken` of them out and decode up to `more` lines behind the rest is to
/// decode up to `taken + more` lines at once.
pub proof fn surplus_comes_later<A: Arithmetic>(
    s: SlicerView<A>,
    lines: Seq<LineView<A>>,
    limit: int,
    taken: int,
    more: int,
)
    requires
        0 <= taken <= s.decoded_up_to(lines, limit).1.len(),
        limit <= taken + more,
    ensures
        ({
            let (between, first) = s.decoded_up_to(lines, limit);
            let (next, all) = s.decoded_up_to(lines, taken + more);
            between.decoded_up_to(first.skip(taken), more) == (next, all.skip(taken))
        }),
    decreases s.waiting.len(),
{
    if s.ready() && lines.len() < limit {
        decoded_shape(s);
        surplus_comes_later(s.decoded().0, lines.push(s.decoded().1), limit, taken, more);
    } else {
        decoded_behind(s, lines, taken, more);
    }
}

/// Whether the counters do not overflow on the samples that wait.
pub open spec fn countable<A: Arithmetic>(s: SlicerView<A>) -> bool {
    let end = s.start + s.waiting.len();
    &&& 0 <= s.start
    &&& end <= u64::MAX
    &&& end * s.rate / INTERMEDIATE_RATE_HZ as int <= u64::MAX
}

/// A place of the envelope that is a line later comes from a sample at least
/// half a second later.
proof fn index_grows_by_line(a: int, b: int, end: int, rate: int)
    requires
        0 <= a,
        a + SAMPLES_PER_LINE <= b <= end,
        rate > 0,
        end * rate / INTERMEDIATE_RATE_HZ as int <= u64::MAX,
    ensures
        input_index(b, rate) - input_index(a, rate) >= rate / 2,
{
    let m = INTERMEDIATE_RATE_HZ as int;
    let q = a * rate / m;
    let half = rate / 2;
    assert(0 <= a * rate && a * rate + SAMPLES_PER_LINE * rate <= b * rate <= end * rate)
        by (nonlinear_arith)
        requires
            0 <= a,
            a + SAMPLES_PER_LINE <= b <= end,
            rate > 0,
    ;
    vstd::arithmetic::div_mod::lemma_fundamental_div_mod(a * rate, m);
    assert(m * (q + half) == m * q + m * half) by (nonlinear_arith);
    assert(m * half <= SAMPLES_PER_LINE * rate) by (nonlinear_arith)
        requires
            m == 2 * SAMPLES_PER_LINE,
            2 * half <= rate,
    ;
    assert(m * (q + half) <= b * rate);
    vstd::arithmetic::div_mod::lemma_div_is_ordered(m * (q + half), b * rate, m);
    vstd::arithmetic::div_mod::lemma_div_multiples_vanish(q + half, m);
    vstd::arithmetic::div_mod::lemma_div_is_ordered(b * rate, end * rate, m);
}

/// The lines come from samples at least half a second later than what lies a
/// line before those that wait.
proof fn lines_start_later<A: Arithmetic>(s: SlicerView<A>, at: int)
    requires
        s.rate > 0,
        countable(s),
        0 <= at,
        at + SAMPLES_PER_LINE <= s.start,
    ensures
        forall|i: int|
            0 <= i < s.decoded_all().1.len() ==> (#[trigger] s.decoded_all().1[i]).index
                - input_index(at, s.rate) >= s.rate / 2,
    decreases s.waiting.len(),
{
    if s.ready() {
        decoded_shape(s);
        let (next, line) = s.decoded();
        let offset = s.gated(s.found()).1.offset;
        index_grows_by_line(at, s.start + offset, s.start + s.waiting.len(), s.rate);
        lines_start_later(next, at);
        let later = next.decoded_all().1;
        assert forall|i: int| 0 <= i < s.decoded_all().1.len() implies (
        #[trigger] s.decoded_all().1[i]).index - input_index(at, s.rate) >= s.rate / 2 by {
            if i > 0 {
                assert(s.decoded_all().1[i] == later[i - 1]);
            }
        }
    }
}

/// Each line comes from a sample of the input at least half a second later than
/// the lines before it.
pub proof fn lines_in_order<A: Arithmetic>(s: SlicerView<A>)
    requires
        s.rate > 0,
        countable(s),
    ensures
        forall|i: int, j: int|
            0 <= i < j < s.decoded_all().1.len() ==> (#[trigger] s.decoded_all().1[j]).index - (
            #[trigger] s.decoded_all().1[i]).index >= s.rate / 2,
    decreases s.waiting.len(),
{
    if s.ready() {
        decoded_shape(s);
        let (next, line) = s.decoded();
        let offset = s.gated(s.found()).1.offset;
        lines_in_order(next);
        lines_start_later(next, s.start + offset);
        let later = next.decoded_all().1;
        assert(line.index == input_index(s.start + offset, s.rate));
        assert forall|i: int, j: int| 0 <= i < j < s.decoded_all().1.len() implies (
        #[trigger] s.decoded_all().1[j]).index - (#[trigger] s.decoded_all().1[i]).index >= s.rate
            / 2 by {
            assert(s.decoded_all().1[j] == later[j - 1]);
            if i > 0 {
                assert(s.decoded_all().1[i] == later[i - 1]);
            }
        }
    }
}

/// Where there is room for all lines, it does not matter in which portions the
/// envelope is taken in, and no sample is dropped.
pub proof fn ingested_all<A: Arithmetic>(
    s: SlicerView<A>,
    lines: Seq<LineView<A>>,
    envelope: Seq<A::R>,
    limit: int,
)
    requires
        s.history.len() <= SAMPLES_PER_LINE,
        lines.len() + s.appended(envelope).decoded_all().1.len() <= limit,
        envelope.len() == 0 ==> !s.ready(),
    ensures
        s.ingested(lines, envelope, limit) == (
            s.appended(envelope).decoded_all().0,
            lines + s.appended(envelope).decoded_all().1,
        ),
    decreases envelope.len(),
{
    if envelope.len() == 0 {
        assert(s.appended(envelope).waiting =~= s.waiting);
        assert(s.appended(envelope) == s);
        assert(lines + Seq::<LineView<A>>::empty() =~= lines);
    } else {
        let count = s.portion(envelope.len() as int);
        let first = envelope.take(count);
        let rest = envelope.skip(count);
        let grown = s.appended(first);
        let (between, made) = grown.decoded_all();
        assert(s.appended(envelope).waiting =~= grown.appended(rest).waiting);
        assert(s.appended(envelope) == grown.appended(rest));
        decoded_all_append(grown, rest);
        decoded_up_to_all(grown, lines, limit);
        decoded_all_settles(grown);
        assert(between.trimmed() == between);
        let (_, later) = between.appended(rest).decoded_all();
        assert((lines + made) + later =~= lines + (made + later));
        ingested_all(between, lines + made, rest, limit);
    }
}

impl<A: Arithmetic> DecoderView<A> {
    /// What the decoder makes of `input` where there is room for all lines:
    /// the state behind it, and the lines.
    pub open spec fn decoded(self, input: Seq<A::R>) -> (Self, Seq<LineView<A>>) {
        let (slicer, lines) = self.slicer.appended(self.front.envelope(input)).decoded_all();
        (DecoderView { front: self.front.next(input), slicer }, lines)
    }

    /// The parts are well formed, and a line is not shorter than what precedes
    /// it in the filter.
    pub open spec fn wf(self) -> bool {
        &&& self.front.wf()
        &&& self.slicer.history.len() <= SAMPLES_PER_LINE
    }
}

/// What the decoder makes of a stream does not depend on how the stream is cut
/// into calls: the lines of `xs + ys` are those of `xs` followed by those of
/// `ys`.
pub proof fn decoder_append<A: Arithmetic>(d: DecoderView<A>, xs: Seq<A::R>, ys: Seq<A::R>)
    requires
        d.wf(),
    ensures
        d.decoded(xs + ys) == ({
            let (between, first) = d.decoded(xs);
            let (last, second) = between.decoded(ys);
            (last, first + second)
        }),
{
    front_append(d.front, xs, ys);
    let early = d.front.envelope(xs);
    let late = d.front.next(xs).envelope(ys);
    let grown = d.slicer.appended(early);
    assert(d.slicer.appended(early + late).waiting =~= grown.appended(late).waiting);
    assert(d.slicer.appended(early + late) == grown.appended(late));
    decoded_all_append(grown, late);
}

/// A call whose buffer has room for all lines, together with those that may be
/// held back, yields exactly the lines of its input.
pub proof fn processed_all<A: Arithmetic>(
    d: DecoderView<A>,
    lines: Seq<LineView<A>>,
    input: Seq<A::R>,
    limit: int,
)
    requires
        d.wf(),
        !d.slicer.ready(),
        lines.len() + d.decoded(input).1.len() <= limit,
    ensures
        d.processed(lines, input, limit) == (d.decoded(input).0, lines + d.decoded(input).1),
{
    if input.len() == 0 {
        front_empty(d.front, input);
        assert(d.slicer.appended(d.front.envelope(input)).waiting =~= d.slicer.waiting);
        assert(d.slicer.appended(d.front.envelope(input)) == d.slicer);
        decoded_up_to_all(d.slicer, lines, limit);
    } else {
        fed_all(d, lines, input, limit);
    }
}

/// [`processed_all`] for the pieces of an input.
proof fn fed_all<A: Arithmetic>(
    d: DecoderView<A>,
    lines: Seq<LineView<A>>,
    input: Seq<A::R>,
    limit: int,
)
    requires
        d.wf(),
        !d.slicer.ready(),
        lines.len() + d.decoded(input).1.len() <= limit,
    ensures
        d.fed(lines, input, limit) == (d.decoded(input).0, lines + d.decoded(input).1),
    decreases input.len(),
{
    if input.len() == 0 {
        front_empty(d.front, input);
        assert(d.slicer.appended(d.front.envelope(input)).waiting =~= d.slicer.waiting);
        assert(d.slicer.appended(d.front.envelope(input)) == d.slicer);
        assert(lines + Seq::<LineView<A>>::empty() =~= lines);
    } else {
        let count = if input.len() < INPUT_SUBCHUNK_SAMPLES {
            input.len() as int
        } else {
            INPUT_SUBCHUNK_SAMPLES as int
        };
        let piece = input.take(count);
        let rest = input.skip(count);
        assert(piece + rest =~= input);
        decoder_append(d, piece, rest);
        let (between, first) = d.decoded(piece);
        let (last, second) = between.decoded(rest);
        ingested_all(d.slicer, lines, d.front.envelope(piece), limit);
        decoded_all_settles(d.slicer.appended(d.front.envelope(piece)));
        front_next_wf(d.front, piece);
        fed_all(between, lines + first, rest, limit);
        assert((lines + first) + second =~= lines + (first + second));
    }
}

/// An empty input has an empty envelope and changes nothing.
proof fn front_empty<A: Arithmetic>(f: FrontView<A>, input: Seq<A::R>)
    requires
        f.wf(),
        input.len() == 0,
    ensures
        f.envelope(input).len() == 0,
        f.next(input) == f,
{
    rational_empty(f.resampler, lifted::<A>(f.filtered(input)));
    assert(f.resampled(input) =~= Seq::empty());
    assert(tail(f.history + input, f.history.len()) =~= f.history);
}

/// The parts stay well formed.
proof fn front_next_wf<A: Arithmetic>(f: FrontView<A>, input: Seq<A::R>)
    requires
        f.wf(),
    ensures
        f.next(input).wf(),
{
    rational_next_wf(f.resampler, lifted::<A>(f.filtered(input)));
}

/// The state after `count` matches `m` in a row.
pub open spec fn gated_repeatedly<A: Arithmetic>(
    s: SlicerView<A>,
    m: SyncMatch<A::R>,
    count: nat,
) -> SlicerView<A>
    decreases count,
{
    if count == 0 {
        s
    } else {
        gated_repeatedly(s, m, (count - 1) as nat).gated(m).0
    }
}

/// A lock survives matches that have drifted, up to one less than
/// [`MAX_NOMINAL_FALLBACKS`] in a row, and the next one drops it.
pub proof fn drift_drops_lock<A: Arithmetic>(s: SlicerView<A>, m: SyncMatch<A::R>, count: nat)
    requires
        s.locked,
        s.fallbacks == 0,
        m.offset > MAX_SYNC_DRIFT_SAMPLES,
        count <= MAX_NOMINAL_FALLBACKS,
    ensures
        count < MAX_NOMINAL_FALLBACKS ==> gated_repeatedly(s, m, count) == (SlicerView {
            fallbacks: count as int,
            ..s
        }),
        count == MAX_NOMINAL_FALLBACKS ==> gated_repeatedly(s, m, count) == (SlicerView {
            locked: false,
            ..s
        }),
    decreases count,
{
    if count > 0 {
        drift_drops_lock(s, m, (count - 1) as nat);
    }
}

/// Whether the counters have not overflowed up to the samples that wait.
pub open spec fn uncapped<A: Arithmetic>(s: SlicerView<A>) -> bool {
    &&& s.start < u64::MAX
    &&& s.start * s.rate / INTERMEDIATE_RATE_HZ as int <= u64::MAX
}

/// From line `i` to the next one, in samples of the input.
pub open spec fn gap<A: Arithmetic>(lines: Seq<LineView<A>>, i: int) -> int {
    lines[i + 1].index - lines[i].index
}

/// Whether `lines` lie at least half a second of the input apart, and the last
/// of them ended before the samples that wait.
pub open spec fn apart<A: Arithmetic>(s: SlicerView<A>, lines: Seq<LineView<A>>) -> bool {
    &&& 0 <= s.start <= u64::MAX
    &&& forall|i: int| 0 <= i < lines.len() - 1 ==> #[trigger] gap(lines, i) >= s.rate / 2
    &&& lines.len() > 0 ==> exists|at: int|
        {
            &&& 0 <= at
            &&& at + SAMPLES_PER_LINE <= s.start
            &&& lines.last().index == #[trigger] input_index(at, s.rate)
        }
}

/// What has not overflowed later has not overflowed before.
proof fn uncapped_before<A: Arithmetic>(s: SlicerView<A>, later: SlicerView<A>)
    requires
        0 <= s.start <= later.start,
        s.rate == later.rate,
        s.rate > 0,
        uncapped(later),
    ensures
        uncapped(s),
{
    assert(s.start * s.rate <= later.start * s.rate) by (nonlinear_arith)
        requires
            s.start <= later.start,
            s.rate > 0,
    ;
    vstd::arithmetic::div_mod::lemma_div_is_ordered(
        s.start * s.rate,
        later.start * s.rate,
        INTERMEDIATE_RATE_HZ as int,
    );
}

/// The next line lies apart from those before it.
proof fn decoded_apart<A: Arithmetic>(s: SlicerView<A>, lines: Seq<LineView<A>>)
    requires
        s.ready(),
        s.rate > 0,
        apart(s, lines),
        uncapped(s.decoded().0),
    ensures
        apart(s.decoded().0, lines.push(s.decoded().1)),
{
    decoded_shape(s);
    let (next, line) = s.decoded();
    let at = s.start + s.gated(s.found()).1.offset;
    let all = lines.push(line);
    assert(next.start == at + SAMPLES_PER_LINE);
    assert(all.last().index == input_index(at, s.rate));
    if lines.len() > 0 {
        let before = choose|before: int|
            {
                &&& 0 <= before
                &&& before + SAMPLES_PER_LINE <= s.start
                &&& lines.last().index == #[trigger] input_index(before, s.rate)
            };
        index_grows_by_line(before, at, next.start, s.rate);
    }
    assert forall|i: int| 0 <= i < all.len() - 1 implies #[trigger] gap(all, i) >= s.rate / 2 by {
        if i < lines.len() - 1 {
            assert(gap(all, i) == gap(lines, i));
        }
    }
}

/// [`lines_stay_apart`] where lines are decoded.
proof fn decoded_up_to_apart<A: Arithmetic>(
    s: SlicerView<A>,
    earlier: Seq<LineView<A>>,
    lines: Seq<LineView<A>>,
    limit: int,
)
    requires
        s.rate > 0,
        0 <= s.start <= u64::MAX,
    ensures
        ({
            let (next, all) = s.decoded_up_to(lines, limit);
            &&& next.rate == s.rate
            &&& s.start <= next.start <= u64::MAX
            &&& apart(s, earlier + lines) && uncapped(next) ==> apart(next, earlier + all)
        }),
    decreases s.waiting.len(),
{
    if s.ready() && lines.len() < limit {
        decoded_shape(s);
        let (next, line) = s.decoded();
        decoded_up_to_apart(next, earlier, lines.push(line), limit);
        let (last, all) = s.decoded_up_to(lines, limit);
        if apart(s, earlier + lines) && uncapped(last) {
            uncapped_before(next, last);
            decoded_apart(s, earlier + lines);
            assert((earlier + lines).push(line) =~= earlier + lines.push(line));
        }
    }
}

/// [`lines_stay_apart`] where the envelope is taken in.
proof fn ingested_apart<A: Arithmetic>(
    s: SlicerView<A>,
    earlier: Seq<LineView<A>>,
    lines: Seq<LineView<A>>,
    envelope: Seq<A::R>,
    limit: int,
)
    requires
        s.rate > 0,
        0 <= s.start <= u64::MAX,
    ensures
        ({
            let (next, all) = s.ingested(lines, envelope, limit);
            &&& next.rate == s.rate
            &&& s.start <= next.start <= u64::MAX
            &&& apart(s, earlier + lines) && uncapped(next) ==> apart(next, earlier + all)
        }),
    decreases envelope.len(),
{
    if envelope.len() > 0 {
        let count = s.portion(envelope.len() as int);
        let grown = s.appended(envelope.take(count));
        let (next, more) = grown.decoded_up_to(lines, limit);
        decoded_up_to_apart(grown, earlier, lines, limit);
        ingested_apart(next.trimmed(), earlier, more, envelope.skip(count), limit);
        let (last, all) = s.ingested(lines, envelope, limit);
        if apart(s, earlier + lines) && uncapped(last) {
            uncapped_before(next, last);
            assert(apart(grown, earlier + lines));
            assert(apart(next.trimmed(), earlier + more));
        }
    }
}

/// [`lines_stay_apart`] for the pieces of an input.
proof fn fed_apart<A: Arithmetic>(
    d: DecoderView<A>,
    earlier: Seq<LineView<A>>,
    lines: Seq<LineView<A>>,
    input: Seq<A::R>,
    limit: int,
)
    requires
        d.slicer.rate > 0,
        0 <= d.slicer.start <= u64::MAX,
    ensures
        ({
            let (next, all) = d.fed(lines, input, limit);
            &&& next.slicer.rate == d.slicer.rate
            &&& d.slicer.start <= next.slicer.start <= u64::MAX
            &&& apart(d.slicer, earlier + lines) && uncapped(next.slicer) ==> apart(
                next.slicer,
                earlier + all,
            )
        }),
    decreases input.len(),
{
    if input.len() > 0 {
        let count = if input.len() < INPUT_SUBCHUNK_SAMPLES {
            input.len() as int
        } else {
            INPUT_SUBCHUNK_SAMPLES as int
        };
        let piece = input.take(count);
        let envelope = d.front.envelope(piece);
        let (slicer, more) = d.slicer.ingested(lines, envelope, limit);
        let next = DecoderView { front: d.front.next(piece), slicer };
        ingested_apart(d.slicer, earlier, lines, envelope, limit);
        fed_apart(next, earlier, more, input.skip(count), limit);
        let (last, all) = d.fed(lines, input, limit);
        if apart(d.slicer, earlier + lines) && uncapped(last.slicer) {
            uncapped_before(slicer, last.slicer);
        }
    }
}

/// Lines lie at least half a second of the input apart, from call to call, as
/// long as the counters do not overflow: `earlier` are the lines that were
/// handed out before, `lines` those that are held back.
pub proof fn lines_stay_apart<A: Arithmetic>(
    d: DecoderView<A>,
    earlier: Seq<LineView<A>>,
    lines: Seq<LineView<A>>,
    input: Seq<A::R>,
    limit: int,
)
    requires
        d.slicer.rate > 0,
        apart(d.slicer, earlier + lines),
        uncapped(d.processed(lines, input, limit).0.slicer),
    ensures
        apart(
            d.processed(lines, input, limit).0.slicer,
            earlier + d.processed(lines, input, limit).1,
        ),
{
    if input.len() == 0 {
        decoded_up_to_apart(d.slicer, earlier, lines, limit);
    } else {
        fed_apart(d, earlier, lines, input, limit);
    }
}

/// No line has come before the start of a stream.
pub proof fn cleared_apart<A: Arithmetic>(s: SlicerView<A>)
    ensures
        apart(s.cleared(), Seq::empty()),
{
}

/// Whether all of `xs` are `plain`.
pub open spec fn all_plain<A: Arithmetic>(xs: Seq<A::R>, plain: spec_fn(A::R) -> bool) -> bool {
    forall|i: int| 0 <= i < xs.len() ==> plain(#[trigger] xs[i])
}

/// Whether the correlation of Sync A with samples that are all `plain` is
/// defined.
pub open spec fn correlates<A: Arithmetic>(plain: spec_fn(A::R) -> bool) -> bool {
    let template = SlicerView::<A>::template();
    forall|window: Seq<A::R>|
        window.len() == template.len() && all_plain::<A>(window, plain) ==> comparable::<A>(
            #[trigger] correlation::<A>(window, template, norm_of::<A>(template)),
        )
}

/// What the laws on the quality of lines ask of the numbers: that they are
/// ordered, with 0 at most 1, that the lowest of them is defined, and that
/// samples which are all `plain` have defined correlations.
pub open spec fn grades<A: Arithmetic>(plain: spec_fn(A::R) -> bool) -> bool {
    &&& order_laws::<A>()
    &&& comparable::<A>(A::lowest())
    &&& A::at_most(A::integer_value(0), A::integer_value(1))
    &&& correlates::<A>(plain)
}

/// Whether each of `lines` has a quality from 0 to 1 and comes from Sync A.
pub open spec fn graded<A: Arithmetic>(lines: Seq<LineView<A>>) -> bool {
    forall|i: int|
        0 <= i < lines.len() ==> {
            &&& within::<A>(
                (#[trigger] lines[i]).quality,
                A::integer_value(0),
                A::integer_value(1),
            )
            &&& lines[i].channel == SyncChannel::A
        }
}

/// The quality of the next line lies from 0 to 1.
proof fn decoded_graded<A: Arithmetic>(s: SlicerView<A>, plain: spec_fn(A::R) -> bool)
    requires
        s.ready(),
        grades::<A>(plain),
        all_plain::<A>(s.waiting, plain),
    ensures
        within::<A>(s.decoded().1.quality, A::integer_value(0), A::integer_value(1)),
        s.decoded().1.channel == SyncChannel::A,
        all_plain::<A>(s.decoded().0.waiting, plain),
{
    let zero = A::integer_value(0);
    let one = A::integer_value(1);
    let template = SlicerView::<A>::template();
    let norm = norm_of::<A>(template);
    let searched = s.waiting.take(SAMPLES_PER_LINE + SYNC_A_TEMPLATE_LEN);
    template_len::<A>();
    decoded_shape(s);
    best_match_compares::<A>(searched, template, norm, (SAMPLES_PER_LINE + 1) as nat);
    let best = best_match::<A>(searched, template, norm, (SAMPLES_PER_LINE + 1) as nat);
    clamped_within::<A>(best.1, zero, one);
    let window = s.waiting.subrange(0, template.len() as int);
    assert(all_plain::<A>(window, plain));
    let here = correlation::<A>(window, template, norm);
    assert(comparable::<A>(here));
    clamped_within::<A>(here, zero, one);
    assert(correlation_at::<A>(s.waiting, template, norm, 0) == here);
}

/// [`lines_are_graded`] where lines are decoded.
proof fn decoded_up_to_graded<A: Arithmetic>(
    s: SlicerView<A>,
    lines: Seq<LineView<A>>,
    limit: int,
    plain: spec_fn(A::R) -> bool,
)
    requires
        grades::<A>(plain),
        all_plain::<A>(s.waiting, plain),
        graded::<A>(lines),
    ensures
        graded::<A>(s.decoded_up_to(lines, limit).1),
        all_plain::<A>(s.decoded_up_to(lines, limit).0.waiting, plain),
    decreases s.waiting.len(),
{
    if s.ready() && lines.len() < limit {
        decoded_shape(s);
        decoded_graded(s, plain);
        decoded_up_to_graded(s.decoded().0, lines.push(s.decoded().1), limit, plain);
    }
}

/// [`lines_are_graded`] where the envelope is taken in.
proof fn ingested_graded<A: Arithmetic>(
    s: SlicerView<A>,
    lines: Seq<LineView<A>>,
    envelope: Seq<A::R>,
    limit: int,
    plain: spec_fn(A::R) -> bool,
)
    requires
        grades::<A>(plain),
        all_plain::<A>(s.waiting, plain),
        all_plain::<A>(envelope, plain),
        graded::<A>(lines),
    ensures
        graded::<A>(s.ingested(lines, envelope, limit).1),
        all_plain::<A>(s.ingested(lines, envelope, limit).0.waiting, plain),
    decreases envelope.len(),
{
    if envelope.len() > 0 {
        let count = s.portion(envelope.len() as int);
        let grown = s.appended(envelope.take(count));
        assert(all_plain::<A>(grown.waiting, plain));
        decoded_up_to_graded(grown, lines, limit, plain);
        let (next, more) = grown.decoded_up_to(lines, limit);
        assert(all_plain::<A>(next.trimmed().waiting, plain));
        assert(all_plain::<A>(envelope.skip(count), plain));
        ingested_graded(next.trimmed(), more, envelope.skip(count), limit, plain);
    }
}

/// [`lines_are_graded`] for the pieces of an input.
proof fn fed_graded<A: Arithmetic>(
    d: DecoderView<A>,
    lines: Seq<LineView<A>>,
    input: Seq<A::R>,
    limit: int,
    plain: spec_fn(A::R) -> bool,
)
    requires
        d.front.wf(),
        grades::<A>(plain),
        all_plain::<A>(d.slicer.waiting, plain),
        all_plain::<A>(d.front.envelope(input), plain),
        graded::<A>(lines),
    ensures
        graded::<A>(d.fed(lines, input, limit).1),
        all_plain::<A>(d.fed(lines, input, limit).0.slicer.waiting, plain),
    decreases input.len(),
{
    if input.len() > 0 {
        let count = if input.len() < INPUT_SUBCHUNK_SAMPLES {
            input.len() as int
        } else {
            INPUT_SUBCHUNK_SAMPLES as int
        };
        let piece = input.take(count);
        let rest = input.skip(count);
        assert(piece + rest =~= input);
        front_append(d.front, piece, rest);
        let early = d.front.envelope(piece);
        let late = d.front.next(piece).envelope(rest);
        let whole = d.front.envelope(input);
        assert(whole == early + late);
        assert forall|i: int| 0 <= i < early.len() implies plain(#[trigger] early[i]) by {
            assert(whole[i] == early[i]);
        }
        assert forall|i: int| 0 <= i < late.len() implies plain(#[trigger] late[i]) by {
            assert(whole[early.len() + i] == late[i]);
        }
        ingested_graded(d.slicer, lines, early, limit, plain);
        let (slicer, more) = d.slicer.ingested(lines, early, limit);
        front_next_wf(d.front, piece);
        fed_graded(DecoderView { front: d.front.next(piece), slicer }, more, rest, limit, plain);
    }
}

/// Every line has a quality from 0 to 1 and comes from Sync A, as long as the
/// samples of the envelope are `plain` and correlations of such samples are
/// defined.
pub proof fn lines_are_graded<A: Arithmetic>(
    d: DecoderView<A>,
    lines: Seq<LineView<A>>,
    input: Seq<A::R>,
    limit: int,
    plain: spec_fn(A::R) -> bool,
)
    requires
        d.wf(),
        grades::<A>(plain),
        all_plain::<A>(d.slicer.waiting, plain),
        all_plain::<A>(d.front.envelope(input), plain),
        graded::<A>(lines),
    ensures
        graded::<A>(d.processed(lines, input, limit).1),
        all_plain::<A>(d.processed(lines, input, limit).0.slicer.waiting, plain),
{
    if input.len() == 0 {
        decoded_up_to_graded(d.slicer, lines, limit, plain);
    } else {
        fed_graded(d, lines, input, limit, plain);
    }
}

/// A call of [`AptDecoder::process`]: its input, and how many lines its output
/// has room for.
pub struct DecoderCall<R> {
    /// The samples that are taken in.
    pub input: Seq<R>,
    /// Room for lines.
    pub room: nat,
}

/// The inputs of `calls`, one behind the other.
pub open spec fn heard<R>(calls: Seq<DecoderCall<R>>) -> Seq<R>
    decreases calls.len(),
{
    if calls.len() == 0 {
        Seq::empty()
    } else {
        heard(calls.drop_last()) + calls.last().input
    }
}

/// What `calls` lead to with no line held back before them: the state, the
/// lines that were handed out, and those that are held back.
pub open spec fn streamed<A: Arithmetic>(
    d: DecoderView<A>,
    calls: Seq<DecoderCall<A::R>>,
) -> (DecoderView<A>, Seq<LineView<A>>, Seq<LineView<A>>)
    decreases calls.len(),
{
    if calls.len() == 0 {
        (d, Seq::empty(), Seq::empty())
    } else {
        let (before, written, held) = streamed(d, calls.drop_last());
        let call = calls.last();
        let (after, lines) = before.processed(
            held,
            call.input,
            call.room + READY_QUEUE_CAP,
        );
        let n = if lines.len() < call.room {
            lines.len() as int
        } else {
            call.room as int
        };
        (after, written + lines.take(n), lines.skip(n))
    }
}

/// [`stream_stays_apart`], also for the lines that are held back.
proof fn streamed_apart<A: Arithmetic>(d: DecoderView<A>, calls: Seq<DecoderCall<A::R>>)
    requires
        d.slicer.rate > 0,
        d.slicer == d.slicer.cleared(),
    ensures
        ({
            let (after, written, held) = streamed(d, calls);
            &&& after.slicer.rate == d.slicer.rate
            &&& 0 <= after.slicer.start <= u64::MAX
            &&& uncapped(after.slicer) ==> apart(after.slicer, written + held)
        }),
    decreases calls.len(),
{
    if calls.len() > 0 {
        streamed_apart(d, calls.drop_last());
        let (before, written, held) = streamed(d, calls.drop_last());
        let call = calls.last();
        let limit = call.room + READY_QUEUE_CAP;
        if call.input.len() == 0 {
            decoded_up_to_apart(before.slicer, written, held, limit);
        } else {
            fed_apart(before, written, held, call.input, limit);
        }
        let (after, lines) = before.processed(held, call.input, limit);
        let n = if lines.len() < call.room {
            lines.len() as int
        } else {
            call.room as int
        };
        assert(written + lines.take(n) + lines.skip(n) =~= written + lines);
        if uncapped(after.slicer) {
            uncapped_before(before.slicer, after.slicer);
        }
    } else {
        assert(Seq::<LineView<A>>::empty() + Seq::<LineView<A>>::empty() =~= Seq::<
            LineView<A>,
        >::empty());
    }
}

/// In any run of calls from the start of a stream, the lines that are handed
/// out lie at least half a second of the input apart, as long as the counters
/// do not overflow.
pub proof fn stream_stays_apart<A: Arithmetic>(d: DecoderView<A>, calls: Seq<DecoderCall<A::R>>)
    requires
        d.slicer.rate > 0,
        d.slicer == d.slicer.cleared(),
        uncapped(streamed(d, calls).0.slicer),
    ensures
        forall|i: int|
            0 <= i < streamed(d, calls).1.len() - 1 ==> #[trigger] gap(streamed(d, calls).1, i)
                >= d.slicer.rate / 2,
{
    streamed_apart(d, calls);
    let (_, written, held) = streamed(d, calls);
    assert forall|i: int| 0 <= i < written.len() - 1 implies #[trigger] gap(written, i)
        >= d.slicer.rate / 2 by {
        assert(gap(written + held, i) == gap(written, i));
    }
}

/// The pieces of an input move the front end on as the whole does.
proof fn fed_front<A: Arithmetic>(
    d: DecoderView<A>,
    lines: Seq<LineView<A>>,
    input: Seq<A::R>,
    limit: int,
)
    requires
        d.front.wf(),
        input.len() > 0,
    ensures
        d.fed(lines, input, limit).0.front == d.front.next(input),
    decreases input.len(),
{
    let count = if input.len() < INPUT_SUBCHUNK_SAMPLES {
        input.len() as int
    } else {
        INPUT_SUBCHUNK_SAMPLES as int
    };
    let piece = input.take(count);
    let rest = input.skip(count);
    let (slicer, more) = d.slicer.ingested(lines, d.front.envelope(piece), limit);
    let next = DecoderView { front: d.front.next(piece), slicer };
    if rest.len() > 0 {
        front_next_wf(d.front, piece);
        fed_front(next, more, rest, limit);
        front_append(d.front, piece, rest);
        assert(piece + rest =~= input);
    } else {
        assert(piece =~= input);
        assert(next.fed(more, rest, limit) == (next, more));
    }
}

/// [`stream_is_graded`], also for the lines that are held back.
proof fn streamed_graded<A: Arithmetic>(
    d: DecoderView<A>,
    calls: Seq<DecoderCall<A::R>>,
    plain: spec_fn(A::R) -> bool,
)
    requires
        d.front.wf(),
        d.slicer == d.slicer.cleared(),
        grades::<A>(plain),
        all_plain::<A>(d.front.envelope(heard(calls)), plain),
    ensures
        ({
            let (after, written, held) = streamed(d, calls);
            &&& after.front.wf()
            &&& heard(calls).len() > 0 ==> after.front == d.front.next(heard(calls))
            &&& heard(calls).len() == 0 ==> after.front == d.front
            &&& graded::<A>(written)
            &&& graded::<A>(held)
            &&& all_plain::<A>(after.slicer.waiting, plain)
        }),
    decreases calls.len(),
{
    if calls.len() > 0 {
        let earlier = heard(calls.drop_last());
        let call = calls.last();
        let whole = d.front.envelope(heard(calls));
        front_append(d.front, earlier, call.input);
        let early = d.front.envelope(earlier);
        assert forall|i: int| 0 <= i < early.len() implies plain(#[trigger] early[i]) by {
            assert(whole[i] == early[i]);
        }
        streamed_graded(d, calls.drop_last(), plain);
        let (before, written, held) = streamed(d, calls.drop_last());
        let limit = call.room + READY_QUEUE_CAP;
        if call.input.len() == 0 {
            assert(heard(calls) =~= earlier);
            decoded_up_to_graded(before.slicer, held, limit, plain);
        } else {
            let late = before.front.envelope(call.input);
            if earlier.len() == 0 {
                assert(heard(calls) =~= call.input);
            } else {
                assert forall|i: int| 0 <= i < late.len() implies plain(#[trigger] late[i]) by {
                    assert(whole[early.len() + i] == late[i]);
                }
            }
            fed_graded(before, held, call.input, limit, plain);
            fed_front(before, held, call.input, limit);
            front_next_wf(before.front, call.input);
        }
    }
}

/// In any run of calls from the start of a stream, every line that is handed
/// out has a quality from 0 to 1 and comes from Sync A, as long as the samples
/// of the envelope are `plain` and correlations of such samples are defined.
pub proof fn stream_is_graded<A: Arithmetic>(
    d: DecoderView<A>,
    calls: Seq<DecoderCall<A::R>>,
    plain: spec_fn(A::R) -> bool,
)
    requires
        d.wf(),
        d.slicer == d.slicer.cleared(),
        grades::<A>(plain),
        all_plain::<A>(d.front.envelope(heard(calls)), plain),
    ensures
        graded::<A>(streamed(d, calls).1),
{
    streamed_graded(d, calls, plain);
}

/// What the lines hold.
pub open spec fn line_views<A: Arithmetic>(lines: Seq<AptLine<A>>) -> Seq<LineView<A>> {
    Seq::new(lines.len(), |i: int| lines[i]@)
}

/// What `made` lines at the front of `output` and the lines behind them hold.
pub open spec fn in_order<A: Arithmetic>(
    output: Seq<AptLine<A>>,
    made: int,
    ready: Seq<AptLine<A>>,
) -> Seq<LineView<A>> {
    line_views(output.take(made) + ready)
}

/// Lines are held back only where the buffer is full, and not too many.
pub open spec fn placed<A: Arithmetic>(
    output: Seq<AptLine<A>>,
    made: int,
    ready: Seq<AptLine<A>>,
) -> bool {
    &&& 0 <= made <= output.len()
    &&& ready.len() <= READY_QUEUE_CAP
    &&& ready.len() > 0 ==> made == output.len()
}

/// `x` as a grey between black at `lo` and white at `hi`.
pub fn grey_at<A: Arithmetic>(x: A::R, lo: A::R, hi: A::R) -> (r: u8)
    ensures
        r == grey::<A>(x, lo, hi),
{
    let range: A::R = A::max(A::minus(hi, lo), A::fraction(1, 1_000_000_000));
    let level: A::R = clamp::<A>(A::over(A::minus(x, lo), range), A::integer(0), A::integer(1));
    let whole: u64 = A::to_u64(A::round(A::times(level, A::integer(255))));
    if whole > 255 {
        255
    } else {
        whole as u8
    }
}

/// Stretches the samples of a line to the full range of greys. Pixels without a
/// sample are black, and samples behind the last pixel are left out.
pub fn decimate_into_pixels<A: Arithmetic>(samples: &[A::R], pixels: &mut [u8; LINE_PIXELS])
    ensures
        final(pixels)@ == greys::<A>(
            if samples@.len() <= LINE_PIXELS {
                samples@
            } else {
                samples@.take(LINE_PIXELS as int)
            },
        ),
{
    let n: usize = if samples.len() < LINE_PIXELS {
        samples.len()
    } else {
        LINE_PIXELS
    };
    let ghost used = samples@.take(n as int);
    assert(samples@.len() <= LINE_PIXELS ==> used =~= samples@);
    let mut lo: A::R = A::neg(A::neg_infinity());
    let mut hi: A::R = A::neg_infinity();
    let mut i: usize = 0;
    while i < n
        invariant
            i <= n <= samples@.len(),
            used == samples@.take(n as int),
            lo == smallest::<A>(used, i as nat),
            hi == largest::<A>(used, i as nat),
        decreases n - i,
    {
        lo = A::min(lo, samples[i]);
        hi = A::max(hi, samples[i]);
        i = i + 1;
    }
    let mut j: usize = 0;
    while j < LINE_PIXELS
        invariant
            j <= LINE_PIXELS,
            n == used.len() <= LINE_PIXELS,
            n <= samples@.len(),
            used == samples@.take(n as int),
            lo == smallest::<A>(used, n as nat),
            hi == largest::<A>(used, n as nat),
            forall|k: int| 0 <= k < j ==> pixels@[k] == greys::<A>(used)[k],
        decreases LINE_PIXELS - j,
    {
        pixels[j] = if j < n {
            grey_at::<A>(samples[j], lo, hi)
        } else {
            0
        };
        j = j + 1;
    }
    assert(pixels@ =~= greys::<A>(used));
}

/// The filter of an input at `input_rate_hz`.
fn build_dc_bandpass<A: Arithmetic, D: Widening<A>>(input_rate_hz: u32) -> (r: Result<
    FirFilter<A>,
    DspError,
>)
    ensures
        match (r, AptDecoder::<A>::filter_design::<D>(input_rate_hz)) {
            (Err(e), Err(f)) => e@ == f,
            (Err(e), Ok(taps)) => taps.len() == 0
                && e@ == Fault::InvalidParameter("FIR taps must not be empty"@),
            (Ok(f), Ok(taps)) => {
                &&& f.wf()
                &&& f.taps@ == taps
                &&& f.delay_line@ == repeated(A::integer_value(0), f.delay_line@.len())
            },
            _ => false,
        },
{
    match low_pass_dc_removal_kaiser::<A, D>(
        D::integer(DC_BANDPASS_CUTOUT_HZ),
        D::integer(DC_BANDPASS_TRANSITION_HZ),
        D::integer(DC_BANDPASS_ATTEN_DB),
        D::integer(input_rate_hz as i64),
    ) {
        Ok(taps) => FirFilter::new(taps),
        Err(e) => Err(e),
    }
}

/// Decoder from audio to scan lines.
pub struct AptDecoder<A: Arithmetic> {
    /// Rate of the input, in hertz.
    pub input_rate_hz: u32,
    /// Filter of the input, which also takes its mean off.
    pub dc_bandpass: FirFilter<A>,
    /// The input behind the filter.
    pub dc_bandpass_scratch: Vec<A::R>,
    /// Resampler of the filtered input.
    pub resampler: RealResampler<A>,
    /// Envelope detector.
    pub demod: Apt137Demodulator<A>,
    /// Search for the sync bursts.
    pub sync_detector: SyncDetector<A>,
    /// Resampler from the envelope to pixels.
    pub final_resampler: RealResampler<A>,
    /// The pixels of a line, with those before it.
    pub final_resamp_scratch: Vec<A::R>,
    /// Delay of the resampler to pixels, rounded up to whole pixels, in samples
    /// of the envelope.
    pub prime: usize,
    /// The samples of the envelope before those that wait.
    pub history: Vec<A::R>,
    /// The samples that a line is resampled from.
    pub line_ctx: Vec<A::R>,
    /// Whether lines are expected one right behind the other.
    pub locked: bool,
    /// Lines in a row that were taken where they were expected.
    pub nominal_fallbacks: u32,
    /// The input behind the resampler.
    pub resample_scratch: Vec<A::R>,
    /// The envelope of the input.
    pub demod_scratch: Vec<A::R>,
    /// The samples of the envelope that wait to be decoded.
    pub accumulator: Vec<A::R>,
    /// Lines that the caller's buffer had no room for.
    pub ready_lines: VecDeque<AptLine<A>>,
    /// Number of the first sample that waits.
    pub accumulator_start_intermediate_sample: u64,
}

impl<A: Arithmetic> AptDecoder<A> {
    /// The filter, the resampler and the envelope detector.
    pub open spec fn front(self) -> FrontView<A> {
        FrontView {
            taps: self.dc_bandpass.taps@,
            history: self.dc_bandpass.delay_line@,
            resampler: self.resampler@,
            demod: self.demod,
        }
    }

    /// The part that cuts the envelope into lines.
    pub open spec fn slicer(self) -> SlicerView<A> {
        SlicerView {
            rate: self.input_rate_hz as int,
            pixels: self.final_resampler@.cleared(),
            history: self.history@,
            waiting: self.accumulator@,
            start: self.accumulator_start_intermediate_sample as int,
            locked: self.locked,
            fallbacks: self.nominal_fallbacks as int,
        }
    }

    /// What carries over from call to call.
    pub open spec fn view(self) -> DecoderView<A> {
        DecoderView { front: self.front(), slicer: self.slicer() }
    }

    /// The parts are well formed, the scratch buffers are long enough, and not
    /// too many lines are held back.
    pub open spec fn sound(self) -> bool {
        &&& self.input_rate_hz > MIN_INPUT_RATE_HZ
        &&& self.dc_bandpass.wf()
        &&& self.dc_bandpass_scratch@.len() == INPUT_SUBCHUNK_SAMPLES
        &&& self.resampler.wf()
        &&& self.resampler.inner.most_room(INPUT_SUBCHUNK_SAMPLES as int)
            <= self.resample_scratch@.len()
        &&& self.resample_scratch@.len() == self.demod_scratch@.len()
        &&& self.sync_detector.wf()
        &&& self.final_resampler.wf()
        &&& self.final_resampler.inner.most_room(SAMPLES_PER_LINE + 2 * self.prime)
            <= self.final_resamp_scratch@.len()
        &&& self.prime <= SAMPLES_PER_LINE
        &&& self.prime % SAMPLES_PER_PIXEL == 0
        &&& self.history@.len() == self.prime
        &&& self.nominal_fallbacks < MAX_NOMINAL_FALLBACKS
        &&& self.ready_lines@.len() <= READY_QUEUE_CAP
    }

    /// Between calls, no more samples wait than the decoder may hold.
    pub open spec fn wf(self) -> bool {
        &&& self.sound()
        &&& self.accumulator@.len() <= DECODER_BUFFER_CAP
    }

    /// The state is well formed.
    pub proof fn view_wf(self)
        requires
            self.wf(),
        ensures
            self@.wf(),
    {
        self.resampler.inner.view_wf();
    }

    /// The design of the input's filter at `input_rate_hz`.
    pub open spec fn filter_design<D: Widening<A>>(input_rate_hz: u32) -> Result<
        Seq<A::R>,
        Fault,
    > {
        dc_removal_design::<A, D>(
            D::integer_value(DC_BANDPASS_CUTOUT_HZ),
            D::integer_value(DC_BANDPASS_TRANSITION_HZ),
            D::integer_value(DC_BANDPASS_ATTEN_DB),
            D::integer_value(input_rate_hz as i64),
        )
    }

    /// Whether `f` resamples the envelope to pixels.
    pub open spec fn makes_pixels<D: Widening<A>>(
        f: RationalResampler<A>,
        tables: DecimTables<A>,
    ) -> bool {
        f.converts::<D>(
            D::integer_value(INTERMEDIATE_RATE_HZ as i64),
            D::integer_value(PIXELS_PER_SECOND as i64),
            tables,
        )
    }

    /// Whether `f` resamples an input at `input_rate_hz` to the rate that the
    /// decoder works at.
    pub open spec fn makes_samples<D: Widening<A>>(
        f: RationalResampler<A>,
        input_rate_hz: u32,
        tables: DecimTables<A>,
    ) -> bool {
        f.converts::<D>(
            D::integer_value(input_rate_hz as i64),
            D::integer_value(INTERMEDIATE_RATE_HZ as i64),
            tables,
        )
    }

    /// The group delay of the resampler `f` to pixels, rounded up to whole
    /// pixels.
    pub open spec fn priming<D: Widening<A>>(f: RationalResampler<A>) -> int {
        quotient_up(f.whole_delay::<D>(), SAMPLES_PER_PIXEL as int) * SAMPLES_PER_PIXEL
    }

    /// Whether a decoder for an input at `input_rate_hz` is refused with `e`.
    pub open spec fn refused<D: Widening<A>>(
        input_rate_hz: u32,
        tables: DecimTables<A>,
        e: Fault,
    ) -> bool {
        if input_rate_hz <= MIN_INPUT_RATE_HZ {
            e == Fault::InvalidParameter(
                "input_rate_hz ("@ + decimal(input_rate_hz as nat)
                    + ") must be > 10600 Hz so the DC-removing bandpass (cutoff 4800 Hz, transition 1000 Hz) fits below Nyquist"@,
            )
        } else {
            match Self::filter_design::<D>(input_rate_hz) {
                Err(f) => e == f,
                Ok(taps) => if taps.len() == 0 {
                    e == Fault::InvalidParameter("FIR taps must not be empty"@)
                } else {
                    let rate = D::integer_value(input_rate_hz as i64);
                    let between = D::integer_value(INTERMEDIATE_RATE_HZ as i64);
                    let pixel_rate = D::integer_value(PIXELS_PER_SECOND as i64);
                    if !RationalResampler::<A>::accepted::<D>(between, pixel_rate) {
                        RationalResampler::<A>::refused::<D>(between, pixel_rate, e)
                    } else {
                        exists|f: RationalResampler<A>|
                            {
                                &&& #[trigger] Self::makes_pixels::<D>(f, tables)
                                &&& if Self::priming::<D>(f) > SAMPLES_PER_LINE {
                                    e == Fault::InvalidParameter(
                                        "final resampler group delay ("@
                                            + decimal(Self::priming::<D>(f) as nat)
                                            + ") exceeds a line (6240)"@,
                                    )
                                } else if !RationalResampler::<A>::accepted::<D>(rate, between) {
                                    RationalResampler::<A>::refused::<D>(rate, between, e)
                                } else {
                                    Self::refused_by_size::<D>(f, input_rate_hz, tables, e)
                                }
                            }
                    }
                },
            }
        }
    }

    /// Whether a decoder with the resampler `f` to pixels is refused with `e`
    /// by its envelope detector or because a buffer would be too long.
    pub open spec fn refused_by_size<D: Widening<A>>(
        f: RationalResampler<A>,
        input_rate_hz: u32,
        tables: DecimTables<A>,
        e: Fault,
    ) -> bool {
        let context = SAMPLES_PER_LINE + 2 * Self::priming::<D>(f);
        match Apt137Demodulator::<A>::refusal::<D>(
            D::integer_value(INTERMEDIATE_RATE_HZ as i64),
            D::integer_value(SUBCARRIER_HZ as i64),
        ) {
            Some(x) => e == x,
            None => if f.most_room(context) > usize::MAX {
                e == Fault::InvalidParameter("a line has too many pixels"@)
            } else {
                exists|g: RationalResampler<A>|
                    {
                        &&& #[trigger] Self::makes_samples::<D>(g, input_rate_hz, tables)
                        &&& g.most_room(INPUT_SUBCHUNK_SAMPLES as int) > usize::MAX
                        &&& e == Fault::InvalidParameter("input_rate_hz is too low to resample"@)
                    }
            },
        }
    }

    /// Creates a decoder for audio at `input_rate_hz`.
    pub fn new<D: Widening<A>>(input_rate_hz: u32, tables: &DecimTables<A>) -> (r: Result<
        Self,
        DspError,
    >)
        requires
            tables.wf(),
        ensures
            match r {
                Err(e) => Self::refused::<D>(input_rate_hz, *tables, e@),
                Ok(d) => {
                    &&& d.wf()
                    &&& d.input_rate_hz == input_rate_hz > MIN_INPUT_RATE_HZ
                    &&& Self::filter_design::<D>(input_rate_hz) == Ok::<Seq<A::R>, Fault>(
                        d.front().taps,
                    )
                    &&& Self::makes_samples::<D>(d.resampler.inner, input_rate_hz, *tables)
                    &&& Self::makes_pixels::<D>(d.final_resampler.inner, *tables)
                    &&& d.demod.tuned::<D>(
                        D::integer_value(INTERMEDIATE_RATE_HZ as i64),
                        D::integer_value(SUBCARRIER_HZ as i64),
                    )
                    &&& d.prime == Self::priming::<D>(d.final_resampler.inner)
                    &&& d.front().history == d.front().cleared().history
                    &&& d.slicer() == d.slicer().cleared()
                    &&& d.ready_lines@.len() == 0
                },
            },
    {
        if input_rate_hz <= MIN_INPUT_RATE_HZ {
            return Err(
                DspError::InvalidParameter(
                    String::from_str("input_rate_hz (")
                        .concat(decimal_text(input_rate_hz as u64).as_str())
                        .concat(") must be > 10600 Hz so the DC-removing bandpass (cutoff 4800 Hz, transition 1000 Hz) fits below Nyquist"),
                ),
            );
        }
        let dc_bandpass: FirFilter<A> = match build_dc_bandpass::<A, D>(input_rate_hz) {
            Ok(dc_bandpass) => dc_bandpass,
            Err(e) => {
                return Err(e);
            },
        };
        let final_resampler: RealResampler<A> = match RealResampler::<A>::new::<D>(
            D::integer(INTERMEDIATE_RATE_HZ as i64),
            D::integer(PIXELS_PER_SECOND as i64),
            tables,
        ) {
            Ok(f) => f,
            Err(e) => {
                return Err(e);
            },
        };
        assert(Self::makes_pixels::<D>(final_resampler.inner, *tables));
        let delay: usize = final_resampler.group_delay_input_samples::<D>();
        let rounded: u64 = div_up(delay, SAMPLES_PER_PIXEL) as u64 * SAMPLES_PER_PIXEL as u64;
        if rounded > SAMPLES_PER_LINE as u64 {
            return Err(
                DspError::InvalidParameter(
                    String::from_str("final resampler group delay (")
                        .concat(decimal_text(rounded).as_str())
                        .concat(") exceeds a line (6240)"),
                ),
            );
        }
        let prime: usize = rounded as usize;
        let resampler: RealResampler<A> = match RealResampler::<A>::new::<D>(
            D::integer(input_rate_hz as i64),
            D::integer(INTERMEDIATE_RATE_HZ as i64),
            tables,
        ) {
            Ok(f) => f,
            Err(e) => {
                return Err(e);
            },
        };
        assert(Self::makes_samples::<D>(resampler.inner, input_rate_hz, *tables));
        let demod: Apt137Demodulator<A> = match Apt137Demodulator::<A>::new::<D>(
            D::integer(INTERMEDIATE_RATE_HZ as i64),
            D::integer(SUBCARRIER_HZ as i64),
        ) {
            Ok(demod) => demod,
            Err(e) => {
                return Err(e);
            },
        };
        let zero: A::R = A::integer(0);
        let final_resamp_scratch: Vec<A::R> = match final_resampler.inner.output_bound(
            SAMPLES_PER_LINE + 2 * prime,
        ) {
            Some(len) => filled(zero, len),
            None => {
                return Err(invalid("a line has too many pixels"));
            },
        };
        let (resample_scratch, demod_scratch): (Vec<A::R>, Vec<A::R>) =
            match resampler.inner.output_bound(INPUT_SUBCHUNK_SAMPLES) {
            Some(len) => (filled(zero, len), filled(zero, len)),
            None => {
                return Err(invalid("input_rate_hz is too low to resample"));
            },
        };
        Ok(
            AptDecoder {
                input_rate_hz,
                dc_bandpass,
                dc_bandpass_scratch: filled(zero, INPUT_SUBCHUNK_SAMPLES),
                resampler,
                demod,
                sync_detector: SyncDetector::new(),
                final_resampler,
                final_resamp_scratch,
                prime,
                history: filled(zero, prime),
                line_ctx: Vec::with_capacity(SAMPLES_PER_LINE + 2 * prime),
                locked: false,
                nominal_fallbacks: 0,
                resample_scratch,
                demod_scratch,
                accumulator: Vec::with_capacity(DECODER_BUFFER_CAP + SAMPLES_PER_LINE),
                ready_lines: VecDeque::with_capacity(READY_QUEUE_CAP),
                accumulator_start_intermediate_sample: 0,
            },
        )
    }

    /// Starts a new stream.
    pub fn reset(&mut self)
        requires
            old(self).wf(),
        ensures
            final(self).wf(),
            final(self)@ == (DecoderView {
                front: old(self).front().cleared(),
                slicer: old(self).slicer().cleared(),
            }),
            final(self).ready_lines@.len() == 0,
    {
        proof {
            cleared_twice(self.final_resampler@);
        }
        self.dc_bandpass.reset();
        self.resampler.reset();
        self.demod.reset();
        self.final_resampler.reset();
        self.accumulator.clear();
        self.ready_lines.clear();
        self.accumulator_start_intermediate_sample = 0;
        self.history = filled(A::integer(0), self.prime);
        self.locked = false;
        self.nominal_fallbacks = 0;
    }

    /// Applies the rule that keeps lines at their distance to the match `m`.
    pub fn gate_sync_match(&mut self, m: SyncMatch<A::R>) -> (r: SyncMatch<A::R>)
        requires
            old(self).sound(),
        ensures
            final(self).sound(),
            (final(self).slicer(), r) == old(self).slicer().gated(m),
            final(self).front() == old(self).front(),
            final(self).ready_lines == old(self).ready_lines,
            final(self).demod_scratch == old(self).demod_scratch,
    {
        if self.locked && m.offset > MAX_SYNC_DRIFT_SAMPLES {
            self.nominal_fallbacks = self.nominal_fallbacks + 1;
            if self.nominal_fallbacks >= MAX_NOMINAL_FALLBACKS {
                self.locked = false;
                self.nominal_fallbacks = 0;
            }
            proof {
                template_len::<A>();
            }
            let quality: A::R = match self.sync_detector.quality_at(
                self.accumulator.as_slice(),
                0,
                SyncChannel::A,
            ) {
                Some(quality) => quality,
                None => A::integer(0),
            };
            return SyncMatch { offset: 0, channel: SyncChannel::A, quality };
        }
        if A::le(A::fraction(2, 5), m.quality) {
            self.locked = true;
            self.nominal_fallbacks = 0;
        }
        m
    }

    /// Collects the samples that the line at `line_start` is resampled from.
    fn collect_context(&mut self, line_start: usize)
        requires
            old(self).sound(),
            old(self).slicer().ready(),
            line_start <= SAMPLES_PER_LINE,
        ensures
            final(self).line_ctx@ == old(self).slicer().context(line_start as int),
            *final(self) == (AptDecoder { line_ctx: final(self).line_ctx, ..*old(self) }),
    {
        let ghost context = self.slicer().context(line_start as int);
        let prime: usize = self.prime;
        self.line_ctx.clear();
        let from_history: usize = if prime > line_start {
            prime - line_start
        } else {
            0
        };
        append(
            &mut self.line_ctx,
            slice_subrange(self.history.as_slice(), prime - from_history, prime),
        );
        let ctx_start: usize = line_start - (prime - from_history);
        let ctx_end: usize = line_start + SAMPLES_PER_LINE + prime;
        append(
            &mut self.line_ctx,
            slice_subrange(self.accumulator.as_slice(), ctx_start, ctx_end),
        );
        assert(self.line_ctx@ =~= context);
    }

    /// Resamples what has been collected for a line to pixels, and returns the
    /// number of pixels.
    fn resample_context(&mut self) -> (made: usize)
        requires
            old(self).sound(),
            old(self).line_ctx@.len() == SAMPLES_PER_LINE + 2 * old(self).prime,
        ensures
            final(self).sound(),
            final(self).slicer() == old(self).slicer(),
            final(self).front() == old(self).front(),
            final(self).ready_lines == old(self).ready_lines,
            final(self).demod_scratch == old(self).demod_scratch,
            final(self).prime == old(self).prime,
            made <= final(self).final_resamp_scratch@.len(),
            final(self).final_resamp_scratch@.take(made as int) == reals(
                old(self).slicer().pixels.output(lifted::<A>(old(self).line_ctx@)),
            ),
    {
        let ghost input = lifted::<A>(self.line_ctx@);
        proof {
            cleared_twice(self.final_resampler@);
            cleared_next(self.final_resampler@.cleared(), input);
        }
        self.final_resampler.reset();
        proof {
            self.final_resampler.inner.room_bounded(input, SAMPLES_PER_LINE + 2 * self.prime);
        }
        let ghost pixels = reals(self.final_resampler@.output(input));
        match self.final_resampler.process(
            self.line_ctx.as_slice(),
            self.final_resamp_scratch.as_mut_slice(),
        ) {
            Ok(made) => {
                assert(self.final_resamp_scratch@.take(made as int) =~= pixels);
                made
            },
            Err(_) => {
                assert(false);
                0
            },
        }
    }

    /// Resamples the line that starts at `line_start` to pixels.
    fn resample_line(&mut self, line_start: usize, line: &mut AptLine<A>)
        requires
            old(self).sound(),
            old(self).slicer().ready(),
            line_start <= SAMPLES_PER_LINE,
            old(line)@.raw == padded::<A>(Seq::empty()),
        ensures
            final(self).sound(),
            final(self).slicer() == old(self).slicer(),
            final(self).front() == old(self).front(),
            final(self).ready_lines == old(self).ready_lines,
            final(self).demod_scratch == old(self).demod_scratch,
            final(line)@ == (LineView::<A> {
                pixels: greys::<A>(old(self).slicer().aligned(line_start as int)),
                raw: padded::<A>(old(self).slicer().aligned(line_start as int)),
                ..old(line)@
            }),
    {
        let ghost expected = self.slicer().aligned(line_start as int);
        self.collect_context(line_start);
        let made: usize = self.resample_context();
        let skip: usize = 2 * self.prime / SAMPLES_PER_PIXEL;
        let from: usize = if made <= skip {
            made
        } else {
            skip
        };
        let available: usize = if made - from > LINE_PIXELS {
            LINE_PIXELS
        } else {
            made - from
        };
        let aligned: &[A::R] = slice_subrange(
            self.final_resamp_scratch.as_slice(),
            from,
            from + available,
        );
        assert(aligned@ =~= self.final_resamp_scratch@.take(made as int).subrange(
            from as int,
            from + available,
        ));
        assert(aligned@ =~= expected);
        let mut i: usize = 0;
        while i < available
            invariant
                i <= available == aligned@.len() <= LINE_PIXELS,
                line@.raw =~= padded::<A>(aligned@.take(i as int)),
                line@.pixels == old(line)@.pixels,
                line@.quality == old(line)@.quality,
                line@.channel == old(line)@.channel,
                line@.index == old(line)@.index,
            decreases available - i,
        {
            line.raw_samples[i] = aligned[i];
            i = i + 1;
        }
        assert(aligned@.take(available as int) =~= aligned@);
        decimate_into_pixels::<A>(aligned, &mut line.pixels);
    }

    /// Is done with the first `count` samples that wait.
    fn drain_accumulator(&mut self, count: usize)
        requires
            old(self).sound(),
            count <= old(self).accumulator@.len(),
        ensures
            final(self).sound(),
            final(self).slicer() == old(self).slicer().drained(count as int),
            final(self).front() == old(self).front(),
            final(self).ready_lines == old(self).ready_lines,
            final(self).demod_scratch == old(self).demod_scratch,
    {
        remember(&mut self.history, slice_subrange(self.accumulator.as_slice(), 0, count));
        assert(old(self).accumulator@.subrange(0, count as int) =~= old(self).accumulator@.take(
            count as int,
        ));
        drop_front(&mut self.accumulator, count);
        self.accumulator_start_intermediate_sample = self.accumulator_start_intermediate_sample
            .saturating_add(count as u64);
    }

    /// The sample of the input that the sample `acc_offset` of those that wait
    /// comes from.
    fn accumulator_to_input_index(&self, acc_offset: usize) -> (r: u64)
        ensures
            r == input_index(
                counted(self.accumulator_start_intermediate_sample as int, acc_offset as int),
                self.input_rate_hz as int,
            ),
    {
        let at: u64 = self.accumulator_start_intermediate_sample.saturating_add(
            acc_offset as u64,
        );
        assert(0 <= at * self.input_rate_hz <= u64::MAX * u32::MAX) by (nonlinear_arith)
            requires
                0 <= at <= u64::MAX,
                0 <= self.input_rate_hz <= u32::MAX,
        ;
        let index: u128 = at as u128 * self.input_rate_hz as u128 / INTERMEDIATE_RATE_HZ as u128;
        if index > u64::MAX as u128 {
            u64::MAX
        } else {
            index as u64
        }
    }

    /// Decodes the next line.
    fn decode_line(&mut self) -> (line: AptLine<A>)
        requires
            old(self).sound(),
            old(self).slicer().ready(),
        ensures
            final(self).sound(),
            (final(self).slicer(), line@) == old(self).slicer().decoded(),
            final(self).front() == old(self).front(),
            final(self).ready_lines == old(self).ready_lines,
            final(self).demod_scratch == old(self).demod_scratch,
    {
        proof {
            template_len::<A>();
            decoded_shape(self.slicer());
        }
        let ghost before = self.slicer();
        let search: &[A::R] = slice_subrange(
            self.accumulator.as_slice(),
            0,
            SAMPLES_PER_LINE + SYNC_A_TEMPLATE_LEN,
        );
        assert(search@ =~= self.accumulator@.take(SAMPLES_PER_LINE + SYNC_A_TEMPLATE_LEN));
        let found: SyncMatch<A::R> = match self.sync_detector.find_best(search, SyncChannel::A) {
            Some(found) => found,
            None => SyncMatch { offset: 0, channel: SyncChannel::A, quality: A::integer(0) },
        };
        assert(found == before.found());
        let m: SyncMatch<A::R> = self.gate_sync_match(found);
        let mut line: AptLine<A> = AptLine::default();
        assert(line@.raw =~= padded::<A>(Seq::empty()));
        self.resample_line(m.offset, &mut line);
        line.sync_quality = m.quality;
        line.sync_channel = SyncChannel::A;
        line.input_sample_index = self.accumulator_to_input_index(m.offset);
        self.drain_accumulator(m.offset + SAMPLES_PER_LINE);
        line
    }

    /// Moves lines that were held back to `output`, as far as it has room.
    fn drain_ready_into_output(&mut self, output: &mut [AptLine<A>]) -> (made: usize)
        requires
            old(self).sound(),
        ensures
            final(self).sound(),
            final(self).slicer() == old(self).slicer(),
            final(self).front() == old(self).front(),
            final(output)@.len() == old(output)@.len(),
            placed(final(output)@, made as int, final(self).ready_lines@),
            in_order(final(output)@, made as int, final(self).ready_lines@) == line_views(
                old(self).ready_lines@,
            ),
            final(output)@.skip(made as int) == old(output)@.skip(made as int),
    {
        let room: usize = output.len();
        let ghost lines = self.ready_lines@;
        let ghost slots = output@;
        let mut made: usize = 0;
        let mut left: bool = true;
        while left && made < room
            invariant
                made <= room == output@.len() == slots.len(),
                self.sound(),
                self.slicer() == old(self).slicer(),
                self.front() == old(self).front(),
                output@.take(made as int) + self.ready_lines@ =~= lines,
                forall|k: int| made <= k < room ==> output@[k] == slots[k],
                !left ==> self.ready_lines@.len() == 0,
            decreases room - made + (if left {
                1int
            } else {
                0int
            }),
        {
            match self.ready_lines.pop_front() {
                Some(line) => {
                    output[made] = line;
                    made = made + 1;
                },
                None => {
                    left = false;
                },
            }
        }
        made
    }

    /// Decodes lines as long as enough samples wait and there is room: first in
    /// `output`, behind the `made` lines that it holds, then among the lines
    /// that are held back.
    fn decode_into_output_or_queue(&mut self, output: &mut [AptLine<A>], made: usize) -> (r: usize)
        requires
            old(self).sound(),
            placed(old(output)@, made as int, old(self).ready_lines@),
        ensures
            final(self).sound(),
            final(self).front() == old(self).front(),
            final(self).demod_scratch == old(self).demod_scratch,
            final(output)@.len() == old(output)@.len(),
            placed(final(output)@, r as int, final(self).ready_lines@),
            (final(self).slicer(), in_order(final(output)@, r as int, final(self).ready_lines@))
                == old(self).slicer().decoded_up_to(
                in_order(old(output)@, made as int, old(self).ready_lines@),
                old(output)@.len() + READY_QUEUE_CAP,
            ),
            final(output)@.skip(r as int) == old(output)@.skip(r as int),
            made <= r,
    {
        let room: usize = output.len();
        let ghost slots = output@;
        let ghost limit = output@.len() + READY_QUEUE_CAP;
        let ghost goal = self.slicer().decoded_up_to(
            in_order(output@, made as int, self.ready_lines@),
            limit,
        );
        let mut produced: usize = made;
        while self.accumulator.len() >= MIN_ACCUMULATOR_FOR_DECODE + self.prime && (produced < room
            || self.ready_lines.len() < READY_QUEUE_CAP)
            invariant
                made <= produced <= room == output@.len() == slots.len(),
                limit == room + READY_QUEUE_CAP,
                self.sound(),
                self.front() == old(self).front(),
                self.demod_scratch == old(self).demod_scratch,
                placed(output@, produced as int, self.ready_lines@),
                self.slicer().decoded_up_to(
                    in_order(output@, produced as int, self.ready_lines@),
                    limit,
                ) == goal,
                forall|k: int| produced <= k < room ==> output@[k] == slots[k],
            decreases self.accumulator@.len(),
        {
            let ghost lines = in_order(output@, produced as int, self.ready_lines@);
            let ghost held = self.ready_lines@;
            let ghost front_part = output@.take(produced as int);
            proof {
                decoded_shape(self.slicer());
            }
            let line: AptLine<A> = self.decode_line();
            let ghost shown = line@;
            if produced < room {
                output[produced] = line;
                produced = produced + 1;
                assert(output@.take(produced as int) =~= front_part.push(line));
            } else {
                self.ready_lines.push_back(line);
            }
            assert(in_order(output@, produced as int, self.ready_lines@) =~= lines.push(shown));
        }
        produced
    }

    /// Takes in the envelope of `count` samples.
    fn ingest(&mut self, count: usize, output: &mut [AptLine<A>], made: usize) -> (r: usize)
        requires
            old(self).wf(),
            count <= old(self).demod_scratch@.len(),
            placed(old(output)@, made as int, old(self).ready_lines@),
        ensures
            final(self).wf(),
            final(self).front() == old(self).front(),
            final(output)@.len() == old(output)@.len(),
            placed(final(output)@, r as int, final(self).ready_lines@),
            (final(self).slicer(), in_order(final(output)@, r as int, final(self).ready_lines@))
                == old(self).slicer().ingested(
                in_order(old(output)@, made as int, old(self).ready_lines@),
                old(self).demod_scratch@.take(count as int),
                old(output)@.len() + READY_QUEUE_CAP,
            ),
            final(output)@.skip(r as int) == old(output)@.skip(r as int),
            made <= r,
    {
        let ghost slots = output@;
        let ghost limit = output@.len() + READY_QUEUE_CAP;
        let ghost envelope = self.demod_scratch@.take(count as int);
        let ghost goal = self.slicer().ingested(
            in_order(output@, made as int, self.ready_lines@),
            envelope,
            limit,
        );
        assert(envelope.skip(0) =~= envelope);
        let mut produced: usize = made;
        let mut at: usize = 0;
        while at < count
            invariant
                at <= count <= self.demod_scratch@.len(),
                envelope == self.demod_scratch@.take(count as int),
                output@.len() == slots.len(),
                limit == output@.len() + READY_QUEUE_CAP,
                made <= produced,
                self.wf(),
                self.front() == old(self).front(),
                placed(output@, produced as int, self.ready_lines@),
                self.slicer().ingested(
                    in_order(output@, produced as int, self.ready_lines@),
                    envelope.skip(at as int),
                    limit,
                ) == goal,
                forall|k: int| produced <= k < slots.len() ==> output@[k] == slots[k],
            decreases count - at,
        {
            let ghost rest = envelope.skip(at as int);
            let ghost before = self.slicer();
            let ghost lines = in_order(output@, produced as int, self.ready_lines@);
            let room: usize = DECODER_BUFFER_CAP - self.accumulator.len();
            let most: usize = if room > SAMPLES_PER_LINE {
                room
            } else {
                SAMPLES_PER_LINE
            };
            let take: usize = if count - at < most {
                count - at
            } else {
                most
            };
            assert(take == before.portion(rest.len() as int));
            append(
                &mut self.accumulator,
                slice_subrange(self.demod_scratch.as_slice(), at, at + take),
            );
            assert(self.demod_scratch@.subrange(at as int, at + take) =~= rest.take(take as int));
            assert(self.slicer() == before.appended(rest.take(take as int)));
            let ghost shown = output@;
            produced = self.decode_into_output_or_queue(output, produced);
            proof {
                assert forall|k: int| produced <= k < slots.len() implies output@[k]
                    == slots[k] by {
                    assert(output@.skip(produced as int)[k - produced] == output@[k]);
                    assert(shown.skip(produced as int)[k - produced] == shown[k]);
                }
            }
            if self.accumulator.len() > DECODER_BUFFER_CAP {
                let excess: usize = self.accumulator.len() - DECODER_BUFFER_CAP;
                self.drain_accumulator(excess);
            }
            at = at + take;
            assert(rest.skip(take as int) =~= envelope.skip(at as int));
        }
        produced
    }

    /// Filters `in_chunk`, resamples it, takes its envelope and decodes the
    /// lines that it completes.
    fn process_subchunk(
        &mut self,
        in_chunk: &[A::R],
        output: &mut [AptLine<A>],
        made: usize,
    ) -> (r: usize)
        requires
            old(self).wf(),
            in_chunk@.len() <= INPUT_SUBCHUNK_SAMPLES,
            placed(old(output)@, made as int, old(self).ready_lines@),
        ensures
            final(self).wf(),
            final(self).front() == old(self).front().next(in_chunk@),
            final(output)@.len() == old(output)@.len(),
            placed(final(output)@, r as int, final(self).ready_lines@),
            (final(self).slicer(), in_order(final(output)@, r as int, final(self).ready_lines@))
                == old(self).slicer().ingested(
                in_order(old(output)@, made as int, old(self).ready_lines@),
                old(self).front().envelope(in_chunk@),
                old(output)@.len() + READY_QUEUE_CAP,
            ),
            final(output)@.skip(r as int) == old(output)@.skip(r as int),
            made <= r,
    {
        let count: usize = self.demodulate(in_chunk);
        self.ingest(count, output, made)
    }

    /// Filters `in_chunk`, resamples it and takes its envelope, and returns the
    /// number of samples of the envelope.
    fn demodulate(&mut self, in_chunk: &[A::R]) -> (count: usize)
        requires
            old(self).wf(),
            in_chunk@.len() <= INPUT_SUBCHUNK_SAMPLES,
        ensures
            final(self).wf(),
            final(self).front() == old(self).front().next(in_chunk@),
            final(self).slicer() == old(self).slicer(),
            final(self).ready_lines == old(self).ready_lines,
            count <= final(self).demod_scratch@.len(),
            final(self).demod_scratch@.take(count as int) == old(self).front().envelope(
                in_chunk@,
            ),
    {
        let ghost front = self.front();
        let len: usize = in_chunk.len();
        match self.dc_bandpass.process_f32(in_chunk, self.dc_bandpass_scratch.as_mut_slice()) {
            Ok(_) => {},
            Err(_) => {
                assert(false);
            },
        }
        let through: &[A::R] = slice_subrange(self.dc_bandpass_scratch.as_slice(), 0, len);
        assert(through@ =~= front.filtered(in_chunk@));
        proof {
            self.resampler.inner.room_bounded(
                lifted::<A>(through@),
                INPUT_SUBCHUNK_SAMPLES as int,
            );
        }
        let count: usize = match self.resampler.process(
            through,
            self.resample_scratch.as_mut_slice(),
        ) {
            Ok(count) => count,
            Err(_) => {
                assert(false);
                0
            },
        };
        let narrow: &[A::R] = slice_subrange(self.resample_scratch.as_slice(), 0, count);
        assert(narrow@ =~= front.resampled(in_chunk@));
        proof {
            run_len(front.demod, narrow@);
        }
        match self.demod.process(narrow, self.demod_scratch.as_mut_slice()) {
            Ok(_) => {},
            Err(_) => {
                assert(false);
            },
        }
        assert(self.demod_scratch@.take(count as int) =~= front.envelope(in_chunk@));
        count
    }

    /// Takes in `input` and writes the lines that are complete to the front of
    /// `output`, the oldest first; returns their number. Lines that `output`
    /// has no room for are held back for the next call, and where too many are
    /// held back, the oldest samples of the envelope are dropped.
    pub fn process(&mut self, input: &[A::R], output: &mut [AptLine<A>]) -> (r: Result<
        usize,
        DspError,
    >)
        requires
            old(self).wf(),
        ensures
            final(self).wf(),
            match r {
                Err(_) => false,
                Ok(n) => {
                    let (next, lines) = old(self)@.processed(
                        line_views(old(self).ready_lines@),
                        input@,
                        old(output)@.len() + READY_QUEUE_CAP,
                    );
                    &&& final(self)@ == next
                    &&& n == (if lines.len() < old(output)@.len() {
                        lines.len()
                    } else {
                        old(output)@.len()
                    })
                    &&& line_views(final(output)@) == overwritten(
                        line_views(old(output)@),
                        lines.take(n as int),
                    )
                    &&& line_views(final(self).ready_lines@) == lines.skip(n as int)
                },
            },
    {
        let ghost slots = output@;
        let ghost limit = output@.len() + READY_QUEUE_CAP;
        let ghost before = self@;
        let ghost held = line_views(self.ready_lines@);
        let ghost goal = self@.processed(held, input@, limit);
        let mut produced: usize = self.drain_ready_into_output(output);
        proof {
            assert forall|k: int| produced <= k < slots.len() implies output@[k] == slots[k] by {
                assert(output@.skip(produced as int)[k - produced] == output@[k]);
                assert(slots.skip(produced as int)[k - produced] == slots[k]);
            }
        }
        if input.len() == 0 {
            let ghost shown = output@;
            produced = self.decode_into_output_or_queue(output, produced);
            proof {
                assert forall|k: int| produced <= k < slots.len() implies output@[k]
                    == slots[k] by {
                    assert(output@.skip(produced as int)[k - produced] == output@[k]);
                    assert(shown.skip(produced as int)[k - produced] == shown[k]);
                }
                decoded_up_to_shrinks(before.slicer, held, limit);
            }
        } else {
            assert(input@.skip(0) =~= input@);
            let mut at: usize = 0;
            while at < input.len()
                invariant
                    at <= input@.len(),
                    output@.len() == slots.len(),
                    limit == output@.len() + READY_QUEUE_CAP,
                    self.wf(),
                    placed(output@, produced as int, self.ready_lines@),
                    self@.fed(
                        in_order(output@, produced as int, self.ready_lines@),
                        input@.skip(at as int),
                        limit,
                    ) == goal,
                    forall|k: int| produced <= k < slots.len() ==> output@[k] == slots[k],
                decreases input.len() - at,
            {
                let ghost rest = input@.skip(at as int);
                let count: usize = if input.len() - at < INPUT_SUBCHUNK_SAMPLES {
                    input.len() - at
                } else {
                    INPUT_SUBCHUNK_SAMPLES
                };
                let piece: &[A::R] = slice_subrange(input, at, at + count);
                assert(piece@ =~= rest.take(count as int));
                let ghost shown = output@;
                produced = self.process_subchunk(piece, output, produced);
                proof {
                    assert forall|k: int| produced <= k < slots.len() implies output@[k]
                        == slots[k] by {
                        assert(output@.skip(produced as int)[k - produced] == output@[k]);
                        assert(shown.skip(produced as int)[k - produced] == shown[k]);
                    }
                }
                at = at + count;
                assert(rest.skip(count as int) =~= input@.skip(at as int));
            }
        }
        let ghost lines = in_order(output@, produced as int, self.ready_lines@);
        assert(goal == (self@, lines));
        assert(line_views(output@) =~= overwritten(line_views(slots), lines.take(produced as int)));
        assert(line_views(self.ready_lines@) =~= lines.skip(produced as int));
        Ok(produced)
    }
}

/// Whether the cleared resampler `r` makes one pixel of as many samples as a
/// pixel has.
pub open spec fn one_pixel_each<A: Arithmetic>(r: RationalView<A>) -> bool {
    &&& r.wf()
    &&& forall|k: int| 0 <= k < r.stages.len() ==> (#[trigger] r.stages[k]).offset == 0
    &&& r.poly is Some
    &&& r.poly->0.position == 0
    &&& cascade_ratio(r.stages) * r.poly->0.decim == SAMPLES_PER_PIXEL * r.poly->0.phases.len()
}

/// No pixel is missing.
proof fn pixels_made<A: Arithmetic>(r: RationalView<A>, input: Seq<A::R>)
    requires
        one_pixel_each(r),
    ensures
        input.len() <= SAMPLES_PER_PIXEL * reals(r.output(lifted::<A>(input))).len(),
{
    let xs = lifted::<A>(input);
    let ratio = cascade_ratio(r.stages);
    let f = r.poly->0;
    let middle = crate::multirate::cascade_output(r.stages, xs);
    let made = f.output(middle).len() as int;
    let m = middle.len() as int;
    let n = xs.len() as int;
    let phases = f.phases.len() as int;
    assert forall|k: int| 0 <= k < r.stages.len() implies (#[trigger] r.stages[k]).wf()
        && r.stages[k].offset == 0 by {}
    cleared_cascade_len(r.stages, xs);
    cascade_len(r.stages, xs);
    resampled_in_ratio(f, middle);
    assert(n <= m * ratio) by {
        if n > 0 {
            vstd::arithmetic::div_mod::lemma_fundamental_div_mod(n - 1, ratio);
            let q = (n - 1) / ratio;
            assert(n <= (q + 1) * ratio) by (nonlinear_arith)
                requires
                    n - 1 == ratio * q + (n - 1) % ratio,
                    (n - 1) % ratio < ratio,
            ;
        } else {
            assert(m * ratio == 0) by (nonlinear_arith)
                requires
                    m == 0,
            ;
        }
    }
    assert(n <= 3 * made) by (nonlinear_arith)
        requires
            n <= m * ratio,
            m * phases <= made * f.decim,
            ratio * f.decim == 3 * phases,
            ratio > 0,
            phases > 0,
    {
        assert(n * phases <= m * ratio * phases);
        assert(m * phases * ratio <= made * f.decim * ratio);
        assert(made * f.decim * ratio == made * (3 * phases));
        assert(n * phases <= (3 * made) * phases);
    }
}

/// A whole line comes out of the envelope, each pixel from its own place.
///
/// The line that is decoded starts at the match. Pixel `k` of it is what the
/// resampler gives out for the samples around the line, as many pixels later as
/// the samples before and behind the line make; no pixel is filled up.
pub proof fn line_is_whole<A: Arithmetic>(s: SlicerView<A>)
    requires
        s.ready(),
        one_pixel_each(s.pixels),
        s.history.len() % SAMPLES_PER_PIXEL as nat == 0,
    ensures
        ({
            let prime = s.history.len() as int;
            let start = s.gated(s.found()).1.offset as int;
            let line = s.decoded().1;
            let around = Seq::new(
                (SAMPLES_PER_LINE + 2 * prime) as nat,
                |j: int| (s.history + s.waiting)[start + j],
            );
            let made = reals(s.pixels.output(lifted::<A>(around)));
            &&& s.aligned(start).len() == LINE_PIXELS
            &&& line.raw == s.aligned(start)
            &&& line.raw.len() == line.pixels.len() == LINE_PIXELS
            &&& 2 * prime / SAMPLES_PER_PIXEL as int + LINE_PIXELS <= made.len()
            &&& forall|k: int|
                0 <= k < LINE_PIXELS ==> #[trigger] line.raw[k] == made[k + 2 * prime
                    / SAMPLES_PER_PIXEL as int]
            &&& forall|k: int|
                0 <= k < LINE_PIXELS ==> #[trigger] line.pixels[k] == grey::<A>(
                    line.raw[k],
                    smallest::<A>(line.raw, LINE_PIXELS as nat),
                    largest::<A>(line.raw, LINE_PIXELS as nat),
                )
        }),
{
    decoded_shape(s);
    let prime = s.history.len() as int;
    let start = s.gated(s.found()).1.offset as int;
    let around = Seq::new(
        (SAMPLES_PER_LINE + 2 * prime) as nat,
        |j: int| (s.history + s.waiting)[start + j],
    );
    assert(s.context(start) =~= around);
    pixels_made(s.pixels, around);
    assert(2 * prime / SAMPLES_PER_PIXEL as int == 2 * (prime / 3));
    assert(s.decoded().1.raw =~= s.aligned(start));
}

/// Pixel `k` of a line hears the envelope up to its own place in the line and
/// the delay of the resampler, and nothing behind it: two lines around which
/// the envelope is the same up to there have the same pixel.
pub proof fn pixel_hears<A: Arithmetic>(s: SlicerView<A>, t: SlicerView<A>, k: int)
    requires
        s.ready(),
        t.ready(),
        one_pixel_each(s.pixels),
        t.pixels == s.pixels,
        s.history.len() % SAMPLES_PER_PIXEL as nat == 0,
        t.history.len() == s.history.len(),
        0 <= k < LINE_PIXELS,
        forall|j: int|
            0 <= j <= SAMPLES_PER_PIXEL * k + 2 * s.history.len() ==> (s.history + s.waiting)[s.gated(
                s.found(),
            ).1.offset + j] == #[trigger] (t.history + t.waiting)[t.gated(t.found()).1.offset + j],
    ensures
        s.decoded().1.raw[k] == t.decoded().1.raw[k],
{
    let prime = s.history.len() as int;
    let n = SAMPLES_PER_PIXEL * k + 2 * prime + 1;
    let skip = 2 * prime / SAMPLES_PER_PIXEL as int;
    line_is_whole(s);
    line_is_whole(t);
    let a = s.gated(s.found()).1.offset as int;
    let b = t.gated(t.found()).1.offset as int;
    let here = Seq::new(
        (SAMPLES_PER_LINE + 2 * prime) as nat,
        |j: int| (s.history + s.waiting)[a + j],
    );
    let there = Seq::new(
        (SAMPLES_PER_LINE + 2 * prime) as nat,
        |j: int| (t.history + t.waiting)[b + j],
    );
    let heard = lifted::<A>(here.take(n));
    assert(here.take(n) =~= there.take(n));
    assert(lifted::<A>(here) =~= heard + lifted::<A>(here.skip(n)));
    assert(lifted::<A>(there) =~= heard + lifted::<A>(there.skip(n)));
    rational_append(s.pixels, heard, lifted::<A>(here.skip(n)));
    rational_append(s.pixels, heard, lifted::<A>(there.skip(n)));
    pixels_made(s.pixels, here.take(n));
    assert(skip == 2 * (prime / 3));
    assert(k + skip < reals(s.pixels.output(heard)).len());
}

/// Whether a number system converts the rate of the envelope to that of the
/// pixels as it is meant: half the one is 6240 Hz, and the other is 4160 Hz.
pub open spec fn pixel_rates_hold<D: Arithmetic>() -> bool {
    let from = D::integer_value(INTERMEDIATE_RATE_HZ as i64);
    let to = D::integer_value(PIXELS_PER_SECOND as i64);
    &&& D::less(to, from)
    &&& !D::less(D::magnitude(D::difference(from, to)), D::integer_value(1))
    &&& D::natural_part(D::rounded_down(D::binary_log(D::quotient(from, to)))) == 1
    &&& D::natural_part(D::rounded(D::quotient(from, D::integer_value(2)))) == 6_240
    &&& D::natural_part(D::rounded(to)) == 4_160
}

/// The resampler that a decoder makes its pixels with makes one of as many
/// samples as a pixel has.
pub proof fn decoder_pixel_ratio<A: Arithmetic, D: Widening<A>>(
    d: AptDecoder<A>,
    tables: DecimTables<A>,
)
    requires
        d.wf(),
        AptDecoder::<A>::makes_pixels::<D>(d.final_resampler.inner, tables),
        pixel_rates_hold::<D>(),
    ensures
        one_pixel_each(d.slicer().pixels),
        d.slicer().history.len() % SAMPLES_PER_PIXEL as nat == 0,
{
    let f = d.final_resampler.inner;
    let from = D::integer_value(INTERMEDIATE_RATE_HZ as i64);
    let to = D::integer_value(PIXELS_PER_SECOND as i64);
    assert(power_of_two(1) == 2) by {
        reveal_with_fuel(power_of_two, 2);
    }
    let mid = D::quotient(from, D::integer_value(2));
    assert(whole_hertz::<D>(mid) == 6_240);
    assert(whole_hertz::<D>(to) == 4_160);
    let (interp, decim) = choose|interp: usize, decim: usize|
        {
            &&& #[trigger] lowest_terms::<D>(mid, to, interp as int, decim as int)
            &&& f.resampler is Some <==> interp != decim
            &&& f.resampler is Some ==> f.resampler->0.interp == interp
            &&& f.resampler is Some ==> f.resampler->0.decim == decim
            &&& f.resampler is Some ==> f.resampler->0@ == f.resampler->0@.cleared()
        };
    let g = choose|g: int|
        {
            &&& 0 < g
            &&& #[trigger] is_gcd(g, whole_hertz::<D>(mid), whole_hertz::<D>(to))
            &&& interp == whole_hertz::<D>(to) / g
            &&& decim == whole_hertz::<D>(mid) / g
        };
    let a = choose|k: int| 6_240 == #[trigger] (g * k);
    let b = choose|k: int| 4_160 == #[trigger] (g * k);
    assert(divides(g, 6_240) && divides(g, 4_160));
    assert(6_240int / g == a && 4_160int / g == b && 2 * a == 3 * b && b > 0) by (nonlinear_arith)
        requires
            g > 0,
            6_240 == g * a,
            4_160 == g * b,
    {
        vstd::arithmetic::div_mod::lemma_div_multiples_vanish(a, g);
        vstd::arithmetic::div_mod::lemma_div_multiples_vanish(b, g);
        assert(g * (2 * a - 3 * b) == 0);
    }
    f.view_wf();
    let view = f@;
    let cleared = view.cleared();
    same_ratio(view.stages, cleared.stages);
    cascade_len(view.stages, Seq::empty());
    assert(cascade_ratio(view.stages) == 2);
    assert forall|k: int| 0 <= k < cleared.stages.len() implies (#[trigger] cleared.stages[k]).wf()
        && cleared.stages[k].offset == 0 by {
        assert(view.stages[k].wf());
    }
}

/// A sample that lies `level` steps of 255 above the darkest one of a line, on
/// the way to the brightest one, is given the grey `level`.
pub proof fn greys_are_even<A: Arithmetic>(lo: A::R, hi: A::R, level: u8)
    requires
        exact_laws::<A>(),
        A::finite(lo),
        A::finite(hi),
        A::difference(hi, lo) != A::integer_value(0),
        A::greater(A::difference(hi, lo), A::fraction_value(1, 1_000_000_000)) == A::difference(
            hi,
            lo,
        ),
        ({
            let part = A::quotient(A::integer_value(level as i64), A::integer_value(255));
            !A::less(part, A::integer_value(0)) && !A::less(A::integer_value(1), part)
        }),
        A::natural_part(A::rounded(A::integer_value(level as i64))) == level,
    ensures
        ({
            let part = A::quotient(A::integer_value(level as i64), A::integer_value(255));
            grey::<A>(A::sum(lo, A::product(part, A::difference(hi, lo))), lo, hi) == level
        }),
{
    let whole = A::integer_value(level as i64);
    let most = A::integer_value(255);
    let part = A::quotient(whole, most);
    let range = A::difference(hi, lo);
    whole_numbers::<A>(level as i64);
    whole_numbers::<A>(255);
    stays_finite::<A>(whole, most);
    stays_finite::<A>(hi, lo);
    stays_finite::<A>(part, range);
    sums_undo::<A>(A::product(part, range), lo);
    products_undo::<A>(part, range);
    products_undo::<A>(whole, most);
}

/// The greater and the lesser of two numbers are what their names say.
pub open spec fn extremes_hold<A: Arithmetic>() -> bool {
    &&& forall|a: A::R, b: A::R|
        comparable::<A>(a) && comparable::<A>(b) ==> {
            let c = #[trigger] A::lesser(a, b);
            (c == a || c == b) && A::at_most(c, a) && A::at_most(c, b)
        }
    &&& forall|a: A::R, b: A::R|
        comparable::<A>(a) && comparable::<A>(b) ==> {
            let c = #[trigger] A::greater(a, b);
            (c == a || c == b) && A::at_most(a, c) && A::at_most(b, c)
        }
    &&& comparable::<A>(A::lowest())
    &&& comparable::<A>(A::negation(A::lowest()))
}

/// The greys of a line reach from its darkest sample to its brightest one: none
/// is darker or brighter.
pub proof fn greys_span_the_line<A: Arithmetic>(samples: Seq<A::R>, n: nat)
    requires
        order_laws::<A>(),
        extremes_hold::<A>(),
        n <= samples.len(),
        forall|i: int| 0 <= i < samples.len() ==> comparable::<A>(#[trigger] samples[i]),
    ensures
        comparable::<A>(smallest::<A>(samples, n)),
        comparable::<A>(largest::<A>(samples, n)),
        forall|i: int|
            0 <= i < n ==> within::<A>(
                #[trigger] samples[i],
                smallest::<A>(samples, n),
                largest::<A>(samples, n),
            ),
        smallest::<A>(samples, n) == A::negation(A::lowest()) || exists|i: int|
            0 <= i < n && #[trigger] samples[i] == smallest::<A>(samples, n),
        largest::<A>(samples, n) == A::lowest() || exists|i: int|
            0 <= i < n && #[trigger] samples[i] == largest::<A>(samples, n),
    decreases n,
{
    if n > 0 {
        let m = (n - 1) as nat;
        greys_span_the_line::<A>(samples, m);
        let lo = smallest::<A>(samples, m);
        let hi = largest::<A>(samples, m);
        let x = samples[n - 1];
        assert(A::at_most(A::lesser(lo, x), lo) && A::at_most(A::lesser(lo, x), x));
        assert(A::at_most(hi, A::greater(hi, x)) && A::at_most(x, A::greater(hi, x)));
        assert forall|i: int| 0 <= i < n implies within::<A>(
            #[trigger] samples[i],
            smallest::<A>(samples, n),
            largest::<A>(samples, n),
        ) by {
            if i < m {
                assert(within::<A>(samples[i], lo, hi));
            }
        }
    }
}

/// A line tells where in the input it starts: at the sample that the envelope's
/// sample at the match comes from, at the ratio of the rates.
pub proof fn line_tells_its_place<A: Arithmetic>(s: SlicerView<A>)
    requires
        s.ready(),
        0 <= s.start,
        0 <= s.rate,
        s.start + SAMPLES_PER_LINE <= u64::MAX,
        (s.start + SAMPLES_PER_LINE) * s.rate <= u64::MAX,
    ensures
        ({
            let at = s.start + s.gated(s.found()).1.offset;
            let index = s.decoded().1.index;
            index * 12_480 <= at * s.rate < (index + 1) * 12_480
        }),
{
    decoded_shape(s);
    let at = s.start + s.gated(s.found()).1.offset;
    assert(0 <= at * s.rate <= (s.start + SAMPLES_PER_LINE) * s.rate) by (nonlinear_arith)
        requires
            0 <= at <= s.start + SAMPLES_PER_LINE,
            0 <= s.rate,
    ;
    let n = at * s.rate;
    assert(n / 12_480 <= u64::MAX);
    assert((n / 12_480) * 12_480 <= n < (n / 12_480 + 1) * 12_480);
}

/// A constant in the audio is not heard: a decoder whose filter lets nothing
/// through at frequency zero, and which has heard nothing but the constant, finds
/// no carrier in it.
pub proof fn constant_audio_is_not_heard<A: Arithmetic>(f: FrontView<A>, c: A::R, len: nat, i: int)
    requires
        exact_laws::<A>(),
        f.wf(),
        all_finite::<A>(f.taps),
        sum_of::<A>(f.taps, f.taps.len()) == A::integer_value(0),
        A::finite(c),
        f.history == repeated(c, f.history.len()),
        unit_gain::<A>(f.resampler),
        settled_on::<A>(
            f.resampler,
            Complex { re: A::integer_value(0), im: A::integer_value(0) },
        ),
        f.demod.prev is None || f.demod.prev == Some(A::integer_value(0)),
        A::finite(f.demod.cosphi2),
        A::finite(f.demod.inv_sinphi),
        A::greater(A::integer_value(0), A::integer_value(0)) == A::integer_value(0),
        A::root(A::integer_value(0)) == A::integer_value(0),
        0 <= i < f.envelope(repeated(c, len)).len(),
    ensures
        f.envelope(repeated(c, len))[i] == A::integer_value(0),
{
    let zero = A::integer_value(0);
    let nothing = Complex { re: zero, im: zero };
    whole_numbers::<A>(0);
    let clean = f.filtered(repeated(c, len));
    assert forall|k: int| 0 <= k < clean.len() implies clean[k] == zero by {
        assert(f.history == repeated(c, (f.taps.len() - 1) as nat));
        fir_gain_at_zero::<A>(f.taps, c, len, k);
        zero_factor::<A>(c);
    }
    assert(lifted::<A>(clean) =~= repeated(nothing, len));
    resampler_keeps_level::<A>(f.resampler, nothing, len);
    let resampled = f.resampled(repeated(c, len));
    let samples = f.resampler.output(repeated(nothing, len));
    assert forall|k: int| 0 <= k < resampled.len() implies resampled[k] == zero by {
        assert(samples[k] == nothing);
    }
    assert(resampled =~= repeated(zero, resampled.len()));
    silence_has_no_envelope::<A>(f.demod, resampled.len());
}

/// The demodulator finds no envelope in silence.
proof fn silence_has_no_envelope<A: Arithmetic>(f: Apt137Demodulator<A>, n: nat)
    requires
        exact_laws::<A>(),
        f.prev is None || f.prev == Some(A::integer_value(0)),
        A::finite(f.cosphi2),
        A::finite(f.inv_sinphi),
        A::greater(A::integer_value(0), A::integer_value(0)) == A::integer_value(0),
        A::root(A::integer_value(0)) == A::integer_value(0),
    ensures
        ({
            let (after, made) = run(f, repeated(A::integer_value(0), n));
            &&& after.prev is None || after.prev == Some(A::integer_value(0))
            &&& after.cosphi2 == f.cosphi2
            &&& after.inv_sinphi == f.inv_sinphi
            &&& made == repeated(A::integer_value(0), n)
        }),
    decreases n,
{
    let zero = A::integer_value(0);
    let xs = repeated(zero, n);
    whole_numbers::<A>(0);
    if n == 0 {
        assert(run(f, xs).1 =~= repeated(zero, n));
    } else {
        silence_has_no_envelope::<A>(f, (n - 1) as nat);
        assert(xs.drop_last() =~= repeated(zero, (n - 1) as nat));
        zero_factor::<A>(zero);
        zero_factor::<A>(f.cosphi2);
        zero_factor::<A>(f.inv_sinphi);
        sum_with_zero::<A>(zero);
        sums_undo::<A>(zero, zero);
        assert(run(f, xs).1 =~= repeated(zero, n));
    }
}

} // verus!
