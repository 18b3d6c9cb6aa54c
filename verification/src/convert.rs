//! Conversion between kinds of samples.
//!
//! [`stereo_48k_to_mono_16k`] keeps one sample in three and carries its place
//! over from call to call; the other functions keep nothing.

use crate::arith::Arithmetic;
use crate::complex::{imags, lifted, reals};
use crate::kernel::{
    grid_append, grid_bounds, grid_carry, grid_count, grid_count_is, grid_point_below,
};
use crate::stream::overwritten;
use crate::types::{Complex, DspError, Fault, Stereo, decimal, decimal_text, outcome};
use vstd::prelude::*;
use vstd::string::StringExecFns;

verus! {

/// How a call goes that writes `made` for an input of `len` samples: it is
/// refused where the output buffer is shorter than the input, and changes
/// nothing then.
pub open spec fn converted<Y>(
    len: nat,
    made: Seq<Y>,
    before: Seq<Y>,
    after: Seq<Y>,
    r: Result<usize, DspError>,
) -> bool {
    match r {
        Err(e) => {
            &&& before.len() < len
            &&& e == DspError::BufferTooSmall { need: len as usize, got: before.len() as usize }
            &&& after == before
        },
        Ok(n) => n == len <= before.len() && after == overwritten(before, made),
    }
}

/// Writes the real parts of `input`.
pub fn complex_to_real<T: Copy>(input: &[Complex<T>], output: &mut [T]) -> (r: Result<
    usize,
    DspError,
>)
    ensures
        converted(input@.len(), reals(input@), old(output)@, final(output)@, r),
{
    if output.len() < input.len() {
        return Err(DspError::BufferTooSmall { need: input.len(), got: output.len() });
    }
    let ghost made = reals(input@);
    let mut i: usize = 0;
    while i < input.len()
        invariant
            i <= input@.len() == made.len() <= output@.len(),
            output@.len() == old(output)@.len(),
            made == reals(input@),
            output@ =~= overwritten(old(output)@, made.take(i as int)),
        decreases input.len() - i,
    {
        output[i] = input[i].re;
        i = i + 1;
    }
    assert(made.take(i as int) =~= made);
    Ok(input.len())
}

/// Writes the samples of `input` as complex ones.
pub fn real_to_complex<A: Arithmetic>(input: &[A::R], output: &mut [Complex<A::R>]) -> (r: Result<
    usize,
    DspError,
>)
    ensures
        converted(input@.len(), lifted::<A>(input@), old(output)@, final(output)@, r),
{
    if output.len() < input.len() {
        return Err(DspError::BufferTooSmall { need: input.len(), got: output.len() });
    }
    let ghost made = lifted::<A>(input@);
    let mut i: usize = 0;
    while i < input.len()
        invariant
            i <= input@.len() == made.len() <= output@.len(),
            output@.len() == old(output)@.len(),
            made == lifted::<A>(input@),
            output@ =~= overwritten(old(output)@, made.take(i as int)),
        decreases input.len() - i,
    {
        output[i] = Complex { re: input[i], im: A::integer(0) };
        i = i + 1;
    }
    assert(made.take(i as int) =~= made);
    Ok(input.len())
}

/// `xs` on both channels.
pub open spec fn on_both<T>(xs: Seq<T>) -> Seq<Stereo<T>> {
    Seq::new(xs.len(), |i: int| Stereo { l: xs[i], r: xs[i] })
}

/// Writes the samples of `input` to both channels.
pub fn mono_to_stereo<T: Copy>(input: &[T], output: &mut [Stereo<T>]) -> (r: Result<
    usize,
    DspError,
>)
    ensures
        converted(input@.len(), on_both(input@), old(output)@, final(output)@, r),
{
    if output.len() < input.len() {
        return Err(DspError::BufferTooSmall { need: input.len(), got: output.len() });
    }
    let ghost made = on_both(input@);
    let mut i: usize = 0;
    while i < input.len()
        invariant
            i <= input@.len() == made.len() <= output@.len(),
            output@.len() == old(output)@.len(),
            made == on_both(input@),
            output@ =~= overwritten(old(output)@, made.take(i as int)),
        decreases input.len() - i,
    {
        output[i] = Stereo { l: input[i], r: input[i] };
        i = i + 1;
    }
    assert(made.take(i as int) =~= made);
    Ok(input.len())
}

/// The middle between the channels.
pub open spec fn middles<A: Arithmetic>(xs: Seq<Stereo<A::R>>) -> Seq<A::R> {
    Seq::new(xs.len(), |i: int| A::middle(xs[i].l, xs[i].r))
}

/// Writes the middle between the channels of `input`.
pub fn stereo_to_mono<A: Arithmetic>(input: &[Stereo<A::R>], output: &mut [A::R]) -> (r: Result<
    usize,
    DspError,
>)
    ensures
        converted(input@.len(), middles::<A>(input@), old(output)@, final(output)@, r),
{
    if output.len() < input.len() {
        return Err(DspError::BufferTooSmall { need: input.len(), got: output.len() });
    }
    let ghost made = middles::<A>(input@);
    let mut i: usize = 0;
    while i < input.len()
        invariant
            i <= input@.len() == made.len() <= output@.len(),
            output@.len() == old(output)@.len(),
            made == middles::<A>(input@),
            output@ =~= overwritten(old(output)@, made.take(i as int)),
        decreases input.len() - i,
    {
        output[i] = A::midpoint(input[i].l, input[i].r);
        i = i + 1;
    }
    assert(made.take(i as int) =~= made);
    Ok(input.len())
}

/// `left` and `right` side by side.
pub open spec fn paired<T>(left: Seq<T>, right: Seq<T>) -> Seq<Stereo<T>> {
    Seq::new(left.len(), |i: int| Stereo { l: left[i], r: right[i] })
}

/// Writes `left` and `right`, which must have the same length, side by side.
pub fn lr_to_stereo<T: Copy>(left: &[T], right: &[T], output: &mut [Stereo<T>]) -> (r: Result<
    usize,
    DspError,
>)
    ensures
        if left@.len() != right@.len() {
            &&& outcome(r) == Err::<usize, Fault>(
                Fault::InvalidParameter(
                    "L and R must have same length: "@ + decimal(left@.len()) + " != "@ + decimal(
                        right@.len(),
                    ),
                ),
            )
            &&& final(output)@ == old(output)@
        } else {
            converted(left@.len(), paired(left@, right@), old(output)@, final(output)@, r)
        },
{
    if left.len() != right.len() {
        return Err(
            DspError::InvalidParameter(
                String::from_str("L and R must have same length: ").concat(
                    decimal_text(left.len() as u64).as_str(),
                ).concat(" != ").concat(decimal_text(right.len() as u64).as_str()),
            ),
        );
    }
    if output.len() < left.len() {
        return Err(DspError::BufferTooSmall { need: left.len(), got: output.len() });
    }
    let ghost made = paired(left@, right@);
    let mut i: usize = 0;
    while i < left.len()
        invariant
            i <= left@.len() == right@.len(),
            left@.len() == made.len() <= output@.len(),
            output@.len() == old(output)@.len(),
            made == paired(left@, right@),
            output@ =~= overwritten(old(output)@, made.take(i as int)),
        decreases left.len() - i,
    {
        output[i] = Stereo { l: left[i], r: right[i] };
        i = i + 1;
    }
    assert(made.take(i as int) =~= made);
    Ok(left.len())
}

/// The real parts on the left and the imaginary parts on the right.
pub open spec fn split<T>(xs: Seq<Complex<T>>) -> Seq<Stereo<T>> {
    Seq::new(xs.len(), |i: int| Stereo { l: xs[i].re, r: xs[i].im })
}

/// Writes the real parts of `input` to the left and the imaginary parts to the
/// right.
pub fn complex_to_stereo<T: Copy>(input: &[Complex<T>], output: &mut [Stereo<T>]) -> (r: Result<
    usize,
    DspError,
>)
    ensures
        converted(input@.len(), split(input@), old(output)@, final(output)@, r),
{
    if output.len() < input.len() {
        return Err(DspError::BufferTooSmall { need: input.len(), got: output.len() });
    }
    let ghost made = split(input@);
    let mut i: usize = 0;
    while i < input.len()
        invariant
            i <= input@.len() == made.len() <= output@.len(),
            output@.len() == old(output)@.len(),
            made == split(input@),
            output@ =~= overwritten(old(output)@, made.take(i as int)),
        decreases input.len() - i,
    {
        output[i] = Stereo { l: input[i].re, r: input[i].im };
        i = i + 1;
    }
    assert(made.take(i as int) =~= made);
    Ok(input.len())
}

/// To lift real samples and take the real parts gives the samples back.
pub proof fn real_round_trip<A: Arithmetic>(xs: Seq<A::R>)
    ensures
        reals(lifted::<A>(xs)) == xs,
{
    assert(reals(lifted::<A>(xs)) =~= xs);
}

/// To put samples on both channels and take the middles gives the samples back,
/// where the middle of a number and itself is that number.
pub proof fn mono_round_trip<A: Arithmetic>(xs: Seq<A::R>)
    requires
        forall|i: int| 0 <= i < xs.len() ==> #[trigger] A::middle(xs[i], xs[i]) == xs[i],
    ensures
        middles::<A>(on_both(xs)) == xs,
{
    assert forall|i: int| 0 <= i < xs.len() implies middles::<A>(on_both(xs))[i] == xs[i] by {
        assert(A::middle(xs[i], xs[i]) == xs[i]);
    }
    assert(middles::<A>(on_both(xs)) =~= xs);
}

/// Rate of the input of [`stereo_48k_to_mono_16k`], in hertz.
pub const AUDIO_TAP_INPUT_RATE_HZ: u32 = 48_000;

/// Rate of the output of [`stereo_48k_to_mono_16k`], in hertz.
pub const AUDIO_TAP_OUTPUT_RATE_HZ: u32 = 16_000;

/// Samples for each sample that [`stereo_48k_to_mono_16k`] keeps.
pub const AUDIO_TAP_DECIMATION_FACTOR: usize = 3;

/// The decimation factor is the ratio of the rates.
pub proof fn tap_rates_fit()
    ensures
        AUDIO_TAP_OUTPUT_RATE_HZ * AUDIO_TAP_DECIMATION_FACTOR == AUDIO_TAP_INPUT_RATE_HZ,
{
}

/// `phase`, or zero where it is no place among the samples for one that is
/// kept.
pub open spec fn tap_phase(phase: usize) -> int {
    if phase >= AUDIO_TAP_DECIMATION_FACTOR {
        0
    } else {
        phase as int
    }
}

/// The middle between the channels of every third sample of `input` from
/// `phase` on.
pub open spec fn tapped<A: Arithmetic>(input: Seq<Stereo<A::R>>, phase: int) -> Seq<A::R> {
    Seq::new(
        grid_count(input.len() as int, phase, AUDIO_TAP_DECIMATION_FACTOR as int) as nat,
        |i: int|
            {
                let s = input[phase + i * AUDIO_TAP_DECIMATION_FACTOR];
                A::middle(s.l, s.r)
            },
    )
}

/// Writes the middle between the channels of every third sample of `input`,
/// and returns how many there are. `phase` says where the first one stands,
/// and is set to where the next one stands in the input that follows.
pub fn stereo_48k_to_mono_16k<A: Arithmetic>(
    input: &[Stereo<A::R>],
    output: &mut [A::R],
    phase: &mut usize,
) -> (r: Result<usize, DspError>)
    ensures
        ({
            let start = tap_phase(*old(phase));
            let made = tapped::<A>(input@, start);
            match r {
                Err(e) => {
                    &&& old(output)@.len() < made.len()
                    &&& e == DspError::BufferTooSmall {
                        need: made.len() as usize,
                        got: old(output)@.len() as usize,
                    }
                    &&& *final(phase) == start
                    &&& final(output)@ == old(output)@
                },
                Ok(n) => {
                    &&& n == made.len() <= old(output)@.len()
                    &&& final(output)@ == overwritten(old(output)@, made)
                    &&& *final(phase) == grid_carry(
                        input@.len() as int,
                        start,
                        AUDIO_TAP_DECIMATION_FACTOR as int,
                    )
                    &&& *final(phase) < AUDIO_TAP_DECIMATION_FACTOR
                },
            }
        }),
{
    if *phase >= AUDIO_TAP_DECIMATION_FACTOR {
        *phase = 0;
    }
    let start: usize = *phase;
    let len: usize = input.len();
    let ghost made = tapped::<A>(input@, start as int);
    proof {
        grid_bounds(len as int, start as int, 3);
    }
    let needed: usize = if len <= start {
        0
    } else {
        (len - start - 1) / AUDIO_TAP_DECIMATION_FACTOR + 1
    };
    proof {
        grid_count_is(len as int, start as int, 3, needed as int);
    }
    if output.len() < needed {
        return Err(DspError::BufferTooSmall { need: needed, got: output.len() });
    }
    let mut i: usize = 0;
    while i < needed
        invariant
            i <= needed == made.len() <= output@.len(),
            output@.len() == old(output)@.len(),
            made == tapped::<A>(input@, start as int),
            needed > 0 ==> start + (needed - 1) * 3 < input@.len() == len,
            output@ =~= overwritten(old(output)@, made.take(i as int)),
        decreases needed - i,
    {
        let s: Stereo<A::R> = input[start + i * AUDIO_TAP_DECIMATION_FACTOR];
        output[i] = A::midpoint(s.l, s.r);
        i = i + 1;
    }
    assert(made.take(i as int) =~= made);
    *phase = if len <= start {
        start - len
    } else {
        AUDIO_TAP_DECIMATION_FACTOR - 1 - (len - start - 1) % AUDIO_TAP_DECIMATION_FACTOR
    };
    Ok(needed)
}

/// The samples that are kept do not depend on how the stream is cut into
/// calls.
pub proof fn tap_append<A: Arithmetic>(
    xs: Seq<Stereo<A::R>>,
    ys: Seq<Stereo<A::R>>,
    phase: int,
)
    requires
        0 <= phase,
    ensures
        tapped::<A>(xs + ys, phase) == tapped::<A>(xs, phase) + tapped::<A>(
            ys,
            grid_carry(xs.len() as int, phase, AUDIO_TAP_DECIMATION_FACTOR as int),
        ),
        grid_carry((xs + ys).len() as int, phase, AUDIO_TAP_DECIMATION_FACTOR as int)
            == grid_carry(
            ys.len() as int,
            grid_carry(xs.len() as int, phase, AUDIO_TAP_DECIMATION_FACTOR as int),
            AUDIO_TAP_DECIMATION_FACTOR as int,
        ),
{
    grid_append(xs.len() as int, ys.len() as int, phase, 3);
    grid_bounds(xs.len() as int, phase, 3);
    grid_bounds(ys.len() as int, grid_carry(xs.len() as int, phase, 3), 3);
    assert(tapped::<A>(xs + ys, phase) =~= tapped::<A>(xs, phase) + tapped::<A>(
        ys,
        grid_carry(xs.len() as int, phase, 3),
    ));
}

/// The left channel of samples that are split is what is kept of them as real
/// samples, and what is put together from two channels has these channels.
pub proof fn sides_are_kept<T>(xs: Seq<Complex<T>>, left: Seq<T>, right: Seq<T>)
    requires
        left.len() == right.len(),
    ensures
        split(xs).len() == xs.len(),
        forall|i: int|
            0 <= i < xs.len() ==> (#[trigger] split(xs)[i]).l == xs[i].re && split(xs)[i].r
                == xs[i].im,
        split(xs).map_values(|s: Stereo<T>| s.l) == reals(xs),
        split(xs).map_values(|s: Stereo<T>| s.r) == imags(xs),
        paired(left, right).map_values(|s: Stereo<T>| s.l) == left,
        paired(left, right).map_values(|s: Stereo<T>| s.r) == right,
{
    assert(split(xs).map_values(|s: Stereo<T>| s.l) =~= reals(xs));
    assert(split(xs).map_values(|s: Stereo<T>| s.r) =~= imags(xs));
    assert(paired(left, right).map_values(|s: Stereo<T>| s.l) =~= left);
    assert(paired(left, right).map_values(|s: Stereo<T>| s.r) =~= right);
}

/// Twice a sample of the mono signal is the sum of the two channels, and it does
/// not matter which of them is which.
pub proof fn mono_is_half_the_sum<A: Arithmetic>(xs: Seq<Stereo<A::R>>, i: int)
    requires
        forall|a: A::R, b: A::R|
            A::product(#[trigger] A::middle(a, b), A::integer_value(2)) == A::sum(a, b),
        forall|a: A::R, b: A::R| #[trigger] A::middle(a, b) == A::middle(b, a),
        0 <= i < xs.len(),
    ensures
        A::product(middles::<A>(xs)[i], A::integer_value(2)) == A::sum(xs[i].l, xs[i].r),
        middles::<A>(xs) == middles::<A>(
            xs.map_values(|s: Stereo<A::R>| Stereo { l: s.r, r: s.l }),
        ),
{
    let swapped = xs.map_values(|s: Stereo<A::R>| Stereo { l: s.r, r: s.l });
    assert(middles::<A>(xs) =~= middles::<A>(swapped));
}

/// What is kept at a third of the rate is every third sample of the mono signal.
pub proof fn tap_is_every_third<A: Arithmetic>(input: Seq<Stereo<A::R>>, phase: int, i: int)
    requires
        0 <= phase < 3,
        0 <= i < tapped::<A>(input, phase).len(),
    ensures
        0 <= phase + 3 * i < input.len(),
        tapped::<A>(input, phase)[i] == middles::<A>(input)[phase + 3 * i],
{
    grid_point_below(input.len() as int, phase, 3, i);
}

} // verus!
