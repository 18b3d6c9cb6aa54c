//! Carrier recovery for four-phase keying.

use crate::arith::{Arithmetic, got, got_instead, is_positive_finite, positive_finite};
use crate::block::Block;
use crate::complex;
use crate::exact::{
    addends_in_any_order, exact_laws, factor_of_difference, factor_of_sum, factors_in_any_order,
    negation_laws, opposite, opposite_factors, opposites, stays_finite, sum_with_zero, sums_undo,
    whole_numbers,
};
use crate::loops::PhaseControlLoop;
use crate::types::{Complex, DspError, Fault};
use vstd::prelude::*;

verus! {

/// Loop that turns the samples back by the phase of their carrier.
pub struct Costas<A: Arithmetic> {
    /// The loop that follows the phase.
    pub pcl: PhaseControlLoop<A>,
}

impl<A: Arithmetic> Costas<A> {
    /// The loop of `loop_bw` at the start of a stream.
    pub open spec fn fresh(loop_bw: A::R) -> Self {
        let (alpha, beta) = PhaseControlLoop::<A>::damped(loop_bw);
        let pi = A::half_turn();
        Costas {
            pcl: PhaseControlLoop {
                alpha,
                beta,
                phase: A::integer_value(0),
                freq: A::integer_value(0),
                min_phase: A::negation(pi),
                max_phase: pi,
                min_freq: A::negation(pi),
                max_freq: pi,
                phase_delta: A::difference(pi, A::negation(pi)),
            },
        }
    }

    /// Why a loop of `loop_bw` is not possible, where it is not.
    pub open spec fn refusal(loop_bw: A::R) -> Option<Fault> {
        let pi = A::half_turn();
        if !positive_finite::<A>(loop_bw) {
            Some(got::<A>("loop_bw must be finite and positive"@, loop_bw))
        } else {
            PhaseControlLoop::<A>::refusal(A::negation(pi), pi, A::negation(pi), pi)
        }
    }

    /// Creates a loop of the bandwidth `loop_bw`, in cycles for each sample.
    pub fn new(loop_bw: A::R) -> (r: Result<Self, DspError>)
        ensures
            match r {
                Err(e) => Self::refusal(loop_bw) == Some(e@),
                Ok(f) => Self::refusal(loop_bw) is None && f == Self::fresh(loop_bw),
            },
    {
        if !is_positive_finite::<A>(loop_bw) {
            return Err(got_instead::<A>("loop_bw must be finite and positive", loop_bw));
        }
        let (alpha, beta): (A::R, A::R) = PhaseControlLoop::<A>::critically_damped(loop_bw);
        let pi: A::R = A::pi();
        match PhaseControlLoop::<A>::new(
            alpha,
            beta,
            A::integer(0),
            A::neg(pi),
            pi,
            A::integer(0),
            A::neg(pi),
            pi,
        ) {
            Ok(pcl) => Ok(Costas { pcl }),
            Err(e) => Err(e),
        }
    }

    /// Turns `sample` back by the phase of the loop, which then follows the
    /// error that is left: how far the result is from the nearest of the four
    /// diagonals.
    pub fn process(&mut self, sample: Complex<A::R>) -> (r: Complex<A::R>)
        ensures
            (*final(self), r) == old(self).step(sample),
    {
        self.tick(sample)
    }
}

impl<A: Arithmetic> Block<Complex<A::R>, Complex<A::R>> for Costas<A> {
    open spec fn step(self, x: Complex<A::R>) -> (Self, Complex<A::R>) {
        let phase = self.pcl.phase;
        let y = complex::rotated::<A>(
            x,
            Complex { re: A::cosine(phase), im: A::negation(A::sine(phase)) },
        );
        let error = A::difference(
            A::product(A::sign(y.re), y.im),
            A::product(A::sign(y.im), y.re),
        );
        (Costas { pcl: self.pcl.advanced(error) }, y)
    }

    fn tick(&mut self, x: Complex<A::R>) -> (y: Complex<A::R>) {
        let phase: A::R = self.pcl.phase;
        let nco: Complex<A::R> = Complex { re: A::cos(phase), im: A::neg(A::sin(phase)) };
        let y: Complex<A::R> = complex::times::<A>(x, nco);
        let error: A::R = A::minus(
            A::times(A::signum(y.re), y.im),
            A::times(A::signum(y.im), y.re),
        );
        self.pcl.advance(error);
        y
    }
}

/// Whether both parts of `z` are finite.
pub open spec fn finite_sample<A: Arithmetic>(z: Complex<A::R>) -> bool {
    A::finite(z.re) && A::finite(z.im)
}

/// A part that is taken away and added again.
proof fn give_and_take<A: Arithmetic>(x: A::R, y: A::R, z: A::R)
    requires
        exact_laws::<A>(),
        A::finite(x),
        A::finite(y),
        A::finite(z),
    ensures
        A::sum(A::difference(x, y), A::sum(y, z)) == A::sum(x, z),
{
    stays_finite::<A>(x, y);
    addends_in_any_order::<A>(A::difference(x, y), y, z);
    sums_undo::<A>(x, y);
}

/// To turn by an angle and back gives what was turned.
pub proof fn turn_and_back<A: Arithmetic>(a: A::R, b: A::R, c: A::R, s: A::R)
    requires
        exact_laws::<A>(),
        A::finite(a),
        A::finite(b),
        A::finite(c),
        A::finite(s),
        A::sum(A::product(c, c), A::product(s, s)) == A::integer_value(1),
    ensures
        ({
            let p = A::difference(A::product(a, c), A::product(b, s));
            let q = A::sum(A::product(a, s), A::product(b, c));
            &&& A::sum(A::product(p, c), A::product(q, s)) == a
            &&& A::difference(A::product(q, c), A::product(p, s)) == b
        }),
{
    let ac = A::product(a, c);
    let bs = A::product(b, s);
    let asn = A::product(a, s);
    let bc = A::product(b, c);
    let cc = A::product(c, c);
    let ss = A::product(s, s);
    stays_finite::<A>(a, c);
    stays_finite::<A>(b, s);
    stays_finite::<A>(a, s);
    stays_finite::<A>(b, c);
    stays_finite::<A>(c, c);
    stays_finite::<A>(s, s);
    let acc = A::product(ac, c);
    let bsc = A::product(bs, c);
    let ass = A::product(asn, s);
    let bcs = A::product(bc, s);
    let asc = A::product(asn, c);
    let bcc = A::product(bc, c);
    let acs = A::product(ac, s);
    let bss = A::product(bs, s);
    stays_finite::<A>(ac, c);
    stays_finite::<A>(bs, c);
    stays_finite::<A>(asn, s);
    stays_finite::<A>(bc, s);
    stays_finite::<A>(asn, c);
    stays_finite::<A>(bc, c);
    stays_finite::<A>(ac, s);
    stays_finite::<A>(bs, s);
    factor_of_difference::<A>(ac, bs, c);
    factor_of_sum::<A>(asn, bc, s);
    factor_of_sum::<A>(asn, bc, c);
    factor_of_difference::<A>(ac, bs, s);
    factors_in_any_order::<A>(b, s, c);
    factors_in_any_order::<A>(a, s, c);
    factors_in_any_order::<A>(a, c, c);
    factors_in_any_order::<A>(a, s, s);
    factors_in_any_order::<A>(b, c, c);
    factors_in_any_order::<A>(b, s, s);
    factor_of_sum::<A>(cc, ss, a);
    factor_of_sum::<A>(cc, ss, b);
    sum_with_zero::<A>(a);
    sum_with_zero::<A>(b);
    addends_in_any_order::<A>(ass, bcs, bcs);
    give_and_take::<A>(acc, bsc, ass);
    take_and_give::<A>(asc, bcc, bss);
}

/// What is taken away with a part that was added.
proof fn take_and_give<A: Arithmetic>(x: A::R, y: A::R, z: A::R)
    requires
        exact_laws::<A>(),
        A::finite(x),
        A::finite(y),
        A::finite(z),
    ensures
        A::difference(A::sum(x, y), A::difference(x, z)) == A::sum(y, z),
{
    let d = A::difference(x, z);
    stays_finite::<A>(x, z);
    stays_finite::<A>(y, z);
    give_and_take::<A>(x, z, y);
    addends_in_any_order::<A>(y, z, z);
    addends_in_any_order::<A>(x, y, y);
    let t = A::sum(y, z);
    assert(A::sum(z, y) == t);
    assert(A::sum(d, t) == A::sum(x, y));
    addends_in_any_order::<A>(d, t, t);
    sums_undo::<A>(t, d);
}

/// The carrier comes off: a symbol that arrives turned by the phase of the loop
/// leaves it as it was sent.
pub proof fn carrier_comes_off<A: Arithmetic>(f: Costas<A>, symbol: Complex<A::R>)
    requires
        exact_laws::<A>(),
        negation_laws::<A>(),
        finite_sample::<A>(symbol),
        A::finite(A::cosine(f.pcl.phase)),
        A::finite(A::sine(f.pcl.phase)),
        A::sum(
            A::product(A::cosine(f.pcl.phase), A::cosine(f.pcl.phase)),
            A::product(A::sine(f.pcl.phase), A::sine(f.pcl.phase)),
        ) == A::integer_value(1),
    ensures
        f.step(
            Complex {
                re: A::difference(
                    A::product(symbol.re, A::cosine(f.pcl.phase)),
                    A::product(symbol.im, A::sine(f.pcl.phase)),
                ),
                im: A::sum(
                    A::product(symbol.re, A::sine(f.pcl.phase)),
                    A::product(symbol.im, A::cosine(f.pcl.phase)),
                ),
            },
        ).1 == symbol,
{
    let c = A::cosine(f.pcl.phase);
    let s = A::sine(f.pcl.phase);
    let a = symbol.re;
    let b = symbol.im;
    stays_finite::<A>(a, c);
    stays_finite::<A>(b, s);
    stays_finite::<A>(a, s);
    stays_finite::<A>(b, c);
    let p = A::difference(A::product(a, c), A::product(b, s));
    let q = A::sum(A::product(a, s), A::product(b, c));
    stays_finite::<A>(A::product(a, c), A::product(b, s));
    stays_finite::<A>(A::product(a, s), A::product(b, c));
    turn_and_back::<A>(a, b, c, s);
    opposite::<A>(s);
    stays_finite::<A>(p, c);
    stays_finite::<A>(q, s);
    stays_finite::<A>(p, s);
    stays_finite::<A>(q, c);
    opposite_factors::<A>(q, s);
    opposite_factors::<A>(p, s);
    let qs = A::product(q, s);
    opposite::<A>(qs);
    opposites::<A>(A::product(p, c), A::negation(qs));
    let ps = A::product(p, s);
    opposite::<A>(ps);
    opposites::<A>(A::product(q, c), ps);
    addends_in_any_order::<A>(A::negation(ps), A::product(q, c), ps);
}

/// The loop is content with a symbol on a diagonal: its phase moves on by its
/// frequency alone.
pub proof fn diagonals_leave_no_error<A: Arithmetic>(f: Costas<A>, x: Complex<A::R>)
    requires
        exact_laws::<A>(),
        negation_laws::<A>(),
        A::finite(f.step(x).1.re),
        A::finite(A::sign(f.step(x).1.re)),
        f.step(x).1.im == f.step(x).1.re || {
            &&& f.step(x).1.im == A::negation(f.step(x).1.re)
            &&& A::sign(A::negation(f.step(x).1.re)) == A::negation(A::sign(f.step(x).1.re))
        },
    ensures
        f.step(x).0.pcl == f.pcl.advanced(A::integer_value(0)),
{
    let a = f.step(x).1.re;
    let s = A::sign(a);
    stays_finite::<A>(s, a);
    let p = A::product(s, a);
    sums_undo::<A>(p, p);
    opposite::<A>(a);
    opposite::<A>(p);
    opposite_factors::<A>(s, a);
    sums_undo::<A>(A::negation(p), A::negation(p));
}

/// In the quadrant where both parts are positive, the loop turns on by how much
/// the imaginary part exceeds the real part: a symbol ahead of its diagonal takes
/// the phase ahead.
pub proof fn error_is_the_way_from_the_diagonal<A: Arithmetic>(f: Costas<A>, x: Complex<A::R>)
    requires
        exact_laws::<A>(),
        A::finite(f.step(x).1.re),
        A::finite(f.step(x).1.im),
        A::sign(f.step(x).1.re) == A::integer_value(1),
        A::sign(f.step(x).1.im) == A::integer_value(1),
    ensures
        f.step(x).0.pcl == f.pcl.advanced(A::difference(f.step(x).1.im, f.step(x).1.re)),
{
    sum_with_zero::<A>(f.step(x).1.re);
    sum_with_zero::<A>(f.step(x).1.im);
}

} // verus!
