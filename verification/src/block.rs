//! Blocks that turn each sample into one sample.

use crate::stream::{overwritten, overwritten_next, scan, scan_append, scan_next};
use crate::types::DspError;
use vstd::prelude::*;

verus! {

/// A block that takes one sample in and gives one sample out.
pub trait Block<X: Copy, Y: Copy>: Sized {
    /// The block after the sample `x`, and what it gives out for it.
    spec fn step(self, x: X) -> (Self, Y);

    /// Takes the sample `x` in.
    fn tick(&mut self, x: X) -> (y: Y)
        ensures
            (*final(self), y) == old(self).step(x),
    ;
}

/// The block after the samples `xs`, and what it gives out for them.
pub open spec fn run<X: Copy, Y: Copy, B: Block<X, Y>>(block: B, xs: Seq<X>) -> (B, Seq<Y>) {
    scan(|s: B, x: X| s.step(x), block, xs)
}

/// How a call goes that runs `before` over `input`, with the result `r`: it is
/// refused where the output buffer is shorter than the input, and changes
/// nothing then; otherwise it writes one sample for each sample of the input
/// and leaves the rest of the buffer as it was.
pub open spec fn ran<X: Copy, Y: Copy, B: Block<X, Y>>(
    before: B,
    after: B,
    input: Seq<X>,
    out_before: Seq<Y>,
    out_after: Seq<Y>,
    r: Result<usize, DspError>,
) -> bool {
    match r {
        Err(e) => {
            &&& out_before.len() < input.len()
            &&& e == DspError::BufferTooSmall {
                need: input.len() as usize,
                got: out_before.len() as usize,
            }
            &&& after == before
            &&& out_after == out_before
        },
        Ok(n) => {
            &&& n == input.len() <= out_before.len()
            &&& after == run(before, input).0
            &&& out_after == overwritten(out_before, run(before, input).1)
        },
    }
}

/// Runs `block` over `input` into `output` and returns the number of samples
/// written.
pub fn drive<X: Copy, Y: Copy, B: Block<X, Y>>(
    block: &mut B,
    input: &[X],
    output: &mut [Y],
) -> (r: Result<usize, DspError>)
    ensures
        ran(*old(block), *final(block), input@, old(output)@, final(output)@, r),
{
    if output.len() < input.len() {
        return Err(DspError::BufferTooSmall { need: input.len(), got: output.len() });
    }
    let ghost step = |s: B, x: X| s.step(x);
    let mut i: usize = 0;
    while i < input.len()
        invariant
            i <= input@.len() <= output@.len(),
            output@.len() == old(output)@.len(),
            step == (|s: B, x: X| s.step(x)),
            *block == scan(step, *old(block), input@.take(i as int)).0,
            output@ == overwritten(
                old(output)@,
                scan(step, *old(block), input@.take(i as int)).1,
            ),
        decreases input.len() - i,
    {
        proof {
            scan_next(step, *old(block), input@, i as int);
        }
        let y: Y = block.tick(input[i]);
        proof {
            overwritten_next(
                old(output)@,
                scan(step, *old(block), input@.take(i as int)).1,
                y,
            );
        }
        output[i] = y;
        i = i + 1;
    }
    assert(input@.take(i as int) =~= input@);
    Ok(input.len())
}

/// What a block makes of a stream does not depend on how the stream is cut
/// into calls: to run over `xs` and then over `ys` is to run over `xs + ys`.
pub proof fn run_append<X: Copy, Y: Copy, B: Block<X, Y>>(block: B, xs: Seq<X>, ys: Seq<X>)
    ensures
        run(block, xs + ys).0 == run(run(block, xs).0, ys).0,
        run(block, xs + ys).1 == run(block, xs).1 + run(run(block, xs).0, ys).1,
{
    scan_append(|s: B, x: X| s.step(x), block, xs, ys);
}

/// A block gives out as many samples as it takes in.
pub proof fn run_len<X: Copy, Y: Copy, B: Block<X, Y>>(block: B, xs: Seq<X>)
    ensures
        run(block, xs).1.len() == xs.len(),
{
    crate::stream::scan_len(|s: B, x: X| s.step(x), block, xs);
}

} // verus!
