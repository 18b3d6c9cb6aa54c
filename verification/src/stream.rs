//! Sequences of samples: how a block that carries state runs over a stream,
//! and how its results are written to a caller's buffer.

use vstd::prelude::*;

verus! {

/// A buffer that held `before` once `produced` has been written to its front.
pub open spec fn overwritten<T>(before: Seq<T>, produced: Seq<T>) -> Seq<T> {
    produced + before.subrange(produced.len() as int, before.len() as int)
}

/// `count` copies of `x`.
pub open spec fn repeated<T>(x: T, count: nat) -> Seq<T> {
    Seq::new(count, |i: int| x)
}

/// The last `count` samples of `s`.
pub open spec fn tail<T>(s: Seq<T>, count: nat) -> Seq<T> {
    s.subrange(s.len() - count, s.len() as int)
}

/// Runs a block over the samples `xs`: `step` takes the state and a sample to
/// the next state and an output. The result is the state after the last
/// sample, with the outputs in order.
pub open spec fn scan<S, X, Y>(step: spec_fn(S, X) -> (S, Y), s: S, xs: Seq<X>) -> (S, Seq<Y>)
    decreases xs.len(),
{
    if xs.len() == 0 {
        (s, Seq::empty())
    } else {
        let before = scan(step, s, xs.drop_last());
        let after = step(before.0, xs.last());
        (after.0, before.1.push(after.1))
    }
}

/// A run yields one output for each sample.
pub proof fn scan_len<S, X, Y>(step: spec_fn(S, X) -> (S, Y), s: S, xs: Seq<X>)
    ensures
        scan(step, s, xs).1.len() == xs.len(),
    decreases xs.len(),
{
    if xs.len() > 0 {
        scan_len(step, s, xs.drop_last());
    }
}

/// How a run over the first `i` samples goes on with the next one.
pub proof fn scan_next<S, X, Y>(step: spec_fn(S, X) -> (S, Y), s: S, xs: Seq<X>, i: int)
    requires
        0 <= i < xs.len(),
    ensures
        scan(step, s, xs.take(i)).1.len() == i,
        scan(step, s, xs.take(i + 1)) == ({
            let before = scan(step, s, xs.take(i));
            let after = step(before.0, xs[i]);
            (after.0, before.1.push(after.1))
        }),
{
    scan_len(step, s, xs.take(i));
    assert(xs.take(i + 1).drop_last() =~= xs.take(i));
}

/// A stream may be cut anywhere: to run over `xs` followed by `ys` is to run
/// over `xs` and to go on over `ys` from the state reached there.
pub proof fn scan_append<S, X, Y>(
    step: spec_fn(S, X) -> (S, Y),
    s: S,
    xs: Seq<X>,
    ys: Seq<X>,
)
    ensures
        scan(step, s, xs + ys) == ({
            let first = scan(step, s, xs);
            let second = scan(step, first.0, ys);
            (second.0, first.1 + second.1)
        }),
    decreases ys.len(),
{
    let first = scan(step, s, xs);
    if ys.len() == 0 {
        assert(xs + ys =~= xs);
        assert(first.1 + Seq::<Y>::empty() =~= first.1);
    } else {
        scan_append(step, s, xs, ys.drop_last());
        assert((xs + ys).drop_last() =~= xs + ys.drop_last());
        let before = scan(step, first.0, ys.drop_last());
        let after = step(before.0, ys.last());
        assert(first.1 + before.1.push(after.1) =~= (first.1 + before.1).push(after.1));
    }
}

/// Writing one more sample behind `produced`.
pub proof fn overwritten_next<T>(before: Seq<T>, produced: Seq<T>, x: T)
    requires
        produced.len() < before.len(),
    ensures
        overwritten(before, produced).update(produced.len() as int, x) == overwritten(
            before,
            produced.push(x),
        ),
{
    assert(overwritten(before, produced).update(produced.len() as int, x) =~= overwritten(
        before,
        produced.push(x),
    ));
}

/// Copies `input` to the front of `output`.
pub fn copy_to_front<T: Copy>(input: &[T], output: &mut [T])
    requires
        input@.len() <= old(output)@.len(),
    ensures
        final(output)@ == overwritten(old(output)@, input@),
{
    let mut i: usize = 0;
    while i < input.len()
        invariant
            i <= input.len() <= output@.len(),
            output@ =~= overwritten(old(output)@, input@.take(i as int)),
            output@.len() == old(output)@.len(),
        decreases input.len() - i,
    {
        output[i] = input[i];
        i = i + 1;
    }
    assert(input@.take(i as int) =~= input@);
}

/// Writes `count` copies of `x` to the front of `output`.
pub fn fill_front<T: Copy>(output: &mut [T], count: usize, x: T)
    requires
        count <= old(output)@.len(),
    ensures
        final(output)@ == overwritten(old(output)@, repeated(x, count as nat)),
{
    let mut i: usize = 0;
    while i < count
        invariant
            i <= count <= output@.len(),
            output@ =~= overwritten(old(output)@, repeated(x, i as nat)),
            output@.len() == old(output)@.len(),
        decreases count - i,
    {
        output[i] = x;
        i = i + 1;
    }
}

/// A vector of `count` copies of `x`.
pub fn filled<T: Copy>(x: T, count: usize) -> (v: Vec<T>)
    ensures
        v@ == repeated(x, count as nat),
{
    let mut v: Vec<T> = Vec::with_capacity(count);
    let mut i: usize = 0;
    while i < count
        invariant
            i <= count,
            v@ =~= repeated(x, i as nat),
        decreases count - i,
    {
        v.push(x);
        i = i + 1;
    }
    v
}

/// Keeps in `history` the most recent samples of a stream: those that it holds
/// followed by `input`.
pub fn remember<T: Copy>(history: &mut Vec<T>, input: &[T])
    ensures
        final(history)@ == tail(old(history)@ + input@, old(history)@.len()),
{
    let len: usize = history.len();
    let count: usize = input.len();
    let ghost stream = history@ + input@;
    let mut i: usize = 0;
    while i < len
        invariant
            i <= len == history@.len(),
            count == input@.len(),
            stream == old(history)@ + input@,
            len == old(history)@.len(),
            forall|k: int| 0 <= k < i ==> history@[k] == stream[k + count],
            forall|k: int| i <= k < len ==> history@[k] == old(history)@[k],
        decreases len - i,
    {
        let x: T = if count < len - i {
            history[i + count]
        } else {
            input[count - (len - i)]
        };
        history.set(i, x);
        i = i + 1;
    }
    assert(history@ =~= tail(stream, len as nat));
}

/// Takes the first `count` samples off `v`, which keeps its allocation.
pub fn drop_front<T: Copy>(v: &mut Vec<T>, count: usize)
    requires
        count <= old(v)@.len(),
    ensures
        final(v)@ == old(v)@.skip(count as int),
{
    let whole: usize = v.len();
    let len: usize = whole - count;
    let mut i: usize = 0;
    while i < len
        invariant
            i <= len,
            v@.len() == old(v)@.len() == whole == len + count,
            forall|k: int| 0 <= k < i ==> v@[k] == old(v)@[k + count],
            forall|k: int| i <= k < v@.len() ==> v@[k] == old(v)@[k],
        decreases len - i,
    {
        let x: T = v[i + count];
        v.set(i, x);
        i = i + 1;
    }
    v.truncate(len);
    assert(v@ =~= old(v)@.skip(count as int));
}

/// Puts `input` behind the samples of `v`.
pub fn append<T: Copy>(v: &mut Vec<T>, input: &[T])
    ensures
        final(v)@ == old(v)@ + input@,
{
    let mut i: usize = 0;
    while i < input.len()
        invariant
            i <= input@.len(),
            v@ =~= old(v)@ + input@.take(i as int),
        decreases input.len() - i,
    {
        v.push(input[i]);
        i = i + 1;
    }
    assert(input@.take(i as int) =~= input@);
}

/// `history` with room for `len` samples: the most recent ones where it holds
/// more, with `zero` before them where it holds fewer.
pub open spec fn refitted<T>(history: Seq<T>, len: nat, zero: T) -> Seq<T> {
    if len <= history.len() {
        tail(history, len)
    } else {
        repeated(zero, (len - history.len()) as nat) + history
    }
}

/// [`refitted`].
pub fn refit<T: Copy>(history: &Vec<T>, len: usize, zero: T) -> (v: Vec<T>)
    ensures
        v@ == refitted(history@, len as nat, zero),
{
    let held: usize = history.len();
    let mut v: Vec<T> = Vec::with_capacity(len);
    let mut i: usize = 0;
    while i < len
        invariant
            i <= len,
            held == history@.len(),
            v@.len() == i,
            forall|k: int|
                0 <= k < i ==> v@[k] == #[trigger] refitted(history@, len as nat, zero)[k],
        decreases len - i,
    {
        let from_end: usize = len - i;
        let x: T = if from_end <= held {
            history[held - from_end]
        } else {
            zero
        };
        v.push(x);
        i = i + 1;
    }
    assert(v@ =~= refitted(history@, len as nat, zero));
    v
}

/// What [`remember`] keeps does not depend on how the stream is cut.
pub proof fn tail_append<T>(history: Seq<T>, xs: Seq<T>, ys: Seq<T>)
    ensures
        tail(tail(history + xs, history.len()) + ys, history.len()) == tail(
            history + (xs + ys),
            history.len(),
        ),
{
    assert(tail(tail(history + xs, history.len()) + ys, history.len()) =~= tail(
        history + (xs + ys),
        history.len(),
    ));
}

} // verus!
