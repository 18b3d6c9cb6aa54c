//! Pictures from decoded lines.
//!
//! The greys of a picture span the samples of all its lines but for the darkest
//! and the brightest hundredth. A line without a good sync burst is left out of
//! that range, and its samples count as zero.

use crate::apt::decoder::{grey, grey_at};
use crate::apt::{AptLine, LINE_PIXELS};
use crate::arith::Arithmetic;
use crate::exact::{counts, exact_laws, factor_of_sum, products_undo, sum_with_zero, whole_numbers, zero_factor};
use crate::kernel::sum_of;
use crate::stream::{append, filled, repeated};
use vstd::prelude::*;

verus! {

/// The mean of frame `i` of `raw`, which holds `channels` samples for each
/// frame.
pub open spec fn frame_mean<A: Arithmetic>(raw: Seq<A::R>, channels: int, i: int) -> A::R {
    A::quotient(
        sum_of::<A>(raw.subrange(i * channels, (i + 1) * channels), channels as nat),
        A::count_value(channels as usize),
    )
}

/// `raw` with one sample for each frame of `channels` samples. What does not
/// fill a frame is left out.
pub open spec fn mixed<A: Arithmetic>(raw: Seq<A::R>, channels: int) -> Seq<A::R> {
    if channels == 1 {
        raw
    } else {
        Seq::new(
            (raw.len() as int / channels) as nat,
            |i: int| frame_mean::<A>(raw, channels, i),
        )
    }
}

/// Mixes frames of `channels` samples down to one channel.
pub fn downmix<A: Arithmetic>(raw: &[A::R], channels: usize) -> (mono: Vec<A::R>)
    requires
        channels > 0,
    ensures
        mono@ == mixed::<A>(raw@, channels as int),
{
    let mut mono: Vec<A::R> = Vec::new();
    if channels == 1 {
        append(&mut mono, raw);
        assert(mono@ =~= raw@);
        return mono;
    }
    let len: usize = raw.len();
    let frames: usize = len / channels;
    let mut start: usize = 0;
    let mut i: usize = 0;
    proof {
        vstd::arithmetic::div_mod::lemma_fundamental_div_mod(
            raw@.len() as int,
            channels as int,
        );
    }
    assert(frames * channels <= raw@.len()) by (nonlinear_arith)
        requires
            raw@.len() == channels * frames + raw@.len() % (channels as nat),
    ;
    while i < frames
        invariant
            channels > 1,
            i <= frames,
            len == raw@.len(),
            frames == raw@.len() as int / channels as int,
            frames * channels <= raw@.len(),
            start == i * channels,
            mono@ =~= mixed::<A>(raw@, channels as int).take(i as int),
        decreases frames - i,
    {
        assert((i + 1) * channels == start + channels && (i + 1) * channels <= frames * channels)
            by (nonlinear_arith)
            requires
                start == i * channels,
                i + 1 <= frames,
                0 <= channels,
        ;
        let ghost frame = raw@.subrange(i * channels, (i + 1) * channels);
        let mut sum: A::R = A::integer(0);
        let mut c: usize = 0;
        while c < channels
            invariant
                c <= channels,
                start + channels <= raw@.len() == len,
                frame == raw@.subrange(start as int, start + channels),
                sum == sum_of::<A>(frame, c as nat),
            decreases channels - c,
        {
            sum = A::plus(sum, raw[start + c]);
            c = c + 1;
        }
        mono.push(A::over(sum, A::count(channels)));
        start = start + channels;
        i = i + 1;
    }
    mono
}

/// Whether the sync burst of a line is good enough for it to be shown.
pub open spec fn shown<A: Arithmetic>(line: AptLine<A>) -> bool {
    !A::less(line.sync_quality, A::fraction_value(1, 2))
}

/// The samples of the first `n` lines, with zeros for those that are not
/// shown.
pub open spec fn picture_samples<A: Arithmetic>(lines: Seq<AptLine<A>>, n: nat) -> Seq<A::R>
    decreases n,
{
    if n == 0 {
        Seq::empty()
    } else {
        picture_samples::<A>(lines, (n - 1) as nat) + if shown(lines[n - 1]) {
            lines[n - 1].raw_samples@
        } else {
            repeated(A::integer_value(0), LINE_PIXELS as nat)
        }
    }
}

/// The samples of those of the first `n` lines that are shown.
pub open spec fn shown_samples<A: Arithmetic>(lines: Seq<AptLine<A>>, n: nat) -> Seq<A::R>
    decreases n,
{
    if n == 0 {
        Seq::empty()
    } else if shown(lines[n - 1]) {
        shown_samples::<A>(lines, (n - 1) as nat) + lines[n - 1].raw_samples@
    } else {
        shown_samples::<A>(lines, (n - 1) as nat)
    }
}

/// Collects the samples of a picture, and those of them that come from lines
/// that are shown.
pub fn collect_samples<A: Arithmetic>(lines: &[AptLine<A>]) -> (r: (Vec<A::R>, Vec<A::R>))
    ensures
        r.0@ == picture_samples::<A>(lines@, lines@.len()),
        r.1@ == shown_samples::<A>(lines@, lines@.len()),
{
    let mut all: Vec<A::R> = Vec::new();
    let mut good: Vec<A::R> = Vec::new();
    let black: Vec<A::R> = filled(A::integer(0), LINE_PIXELS);
    let mut i: usize = 0;
    while i < lines.len()
        invariant
            i <= lines@.len(),
            black@ == repeated(A::integer_value(0), LINE_PIXELS as nat),
            all@ == picture_samples::<A>(lines@, i as nat),
            good@ == shown_samples::<A>(lines@, i as nat),
        decreases lines.len() - i,
    {
        if A::lt(lines[i].sync_quality, A::fraction(1, 2)) {
            append(&mut all, black.as_slice());
        } else {
            append(&mut all, lines[i].raw_samples.as_slice());
            append(&mut good, lines[i].raw_samples.as_slice());
        }
        i = i + 1;
    }
    (all, good)
}

/// A picture has a sample for each pixel of each line.
pub proof fn picture_is_full<A: Arithmetic>(lines: Seq<AptLine<A>>, n: nat)
    requires
        n <= lines.len(),
    ensures
        picture_samples::<A>(lines, n).len() == n * LINE_PIXELS,
    decreases n,
{
    if n > 0 {
        picture_is_full(lines, (n - 1) as nat);
    }
}

/// How many of `n` samples are darker, or brighter, than the range of greys.
pub open spec fn outliers<A: Arithmetic>(n: nat) -> u64 {
    A::natural_part(
        A::product(
            A::quotient(
                A::difference(A::integer_value(1), A::fraction_value(98, 100)),
                A::integer_value(2),
            ),
            A::count_value(n as usize),
        ),
    )
}

/// The samples that are black and white, out of `sorted`, which holds the
/// samples in ascending order.
pub fn brightness_range<A: Arithmetic>(sorted: &[A::R]) -> (r: (A::R, A::R))
    requires
        sorted@.len() > 0,
    ensures
        ({
            let last = sorted@.len() - 1;
            let tail = outliers::<A>(sorted@.len());
            &&& r.0 == sorted@[if tail < last {
                tail as int
            } else {
                last
            }]
            &&& r.1 == sorted@[if tail < last {
                last - tail
            } else {
                0
            }]
        }),
{
    let last: usize = sorted.len() - 1;
    let tail: u64 = A::to_u64(
        A::times(
            A::over(A::minus(A::integer(1), A::fraction(98, 100)), A::integer(2)),
            A::count(sorted.len()),
        ),
    );
    if tail < last as u64 {
        (sorted[tail as usize], sorted[last - tail as usize])
    } else {
        (sorted[last], sorted[0])
    }
}

/// Turns `samples` into greys between black at `lo` and white at `hi`.
pub fn stretch<A: Arithmetic>(samples: &[A::R], lo: A::R, hi: A::R) -> (pixels: Vec<u8>)
    ensures
        pixels@ == samples@.map_values(|x: A::R| grey::<A>(x, lo, hi)),
{
    let mut pixels: Vec<u8> = Vec::new();
    let mut i: usize = 0;
    while i < samples.len()
        invariant
            i <= samples@.len(),
            pixels@ =~= samples@.map_values(|x: A::R| grey::<A>(x, lo, hi)).take(i as int),
        decreases samples.len() - i,
    {
        pixels.push(grey_at::<A>(samples[i], lo, hi));
        i = i + 1;
    }
    pixels
}

/// Channels that are alike mix down to what each of them is.
pub proof fn equal_channels_mix_to_one<A: Arithmetic>(
    raw: Seq<A::R>,
    channels: int,
    i: int,
    x: A::R,
)
    requires
        exact_laws::<A>(),
        0 < channels <= usize::MAX,
        0 <= i < mixed::<A>(raw, channels).len(),
        A::finite(x),
        forall|c: int| 0 <= c < channels ==> raw[#[trigger] (i * channels + c)] == x,
    ensures
        mixed::<A>(raw, channels)[i] == x,
{
    if channels == 1 {
        assert(raw[i * channels + 0] == x);
    } else {
        vstd::arithmetic::div_mod::lemma_fundamental_div_mod(raw.len() as int, channels);
        let frames = raw.len() as int / channels;
        assert(0 <= i * channels && (i + 1) * channels <= raw.len() && (i + 1) * channels == i
            * channels + channels) by (nonlinear_arith)
            requires
                0 <= i < frames,
                0 < channels,
                raw.len() == channels * frames + raw.len() as int % channels,
                0 <= raw.len() as int % channels,
        ;
        let frame = raw.subrange(i * channels, (i + 1) * channels);
        assert forall|c: int| 0 <= c < frame.len() implies #[trigger] frame[c] == x by {
            assert(raw[i * channels + c] == x);
        }
        equal_sum::<A>(frame, x, channels as nat);
        products_undo::<A>(x, A::count_value(channels as usize));
    }
}

proof fn equal_sum<A: Arithmetic>(xs: Seq<A::R>, x: A::R, n: nat)
    requires
        exact_laws::<A>(),
        n <= xs.len(),
        n <= usize::MAX,
        A::finite(x),
        forall|c: int| 0 <= c < xs.len() ==> #[trigger] xs[c] == x,
    ensures
        sum_of::<A>(xs, n) == A::product(x, A::count_value(n as usize)),
        A::finite(A::count_value(n as usize)),
        n > 0 ==> A::count_value(n as usize) != A::integer_value(0),
    decreases n,
{
    counts::<A>(n as usize);
    if n == 0 {
        zero_factor::<A>(x);
    } else {
        equal_sum::<A>(xs, x, (n - 1) as nat);
        whole_numbers::<A>(1);
        assert(xs[n - 1] == x);
        factor_of_sum::<A>(A::count_value((n - 1) as usize), A::integer_value(1), x);
        sum_with_zero::<A>(x);
    }
}

} // verus!
