//! What a quarter turn of the samples does to four-phase keying.

use crate::arith::{order_laws, Arithmetic};
use crate::block::Block;
use crate::complex;
use crate::exact::{
    addends_in_any_order, all_finite, exact_laws, negation_laws, opposite, opposite_factors,
    opposites, stays_finite, sum_with_zero, whole_numbers,
};
use crate::lrpt::costas::{finite_sample, Costas};
use crate::lrpt::rrc_filter::{matched, RrcView};
use crate::lrpt::slicer::{even_about_zero, opposite_soft_bit};
use crate::lrpt::timing::GardnerView;
use crate::lrpt::{InnerView, LrptView};
use crate::stream::tail;
use crate::types::Complex;
use vstd::prelude::*;

verus! {

/// `z` after a quarter turn.
pub open spec fn quarter<A: Arithmetic>(z: Complex<A::R>) -> Complex<A::R> {
    Complex { re: A::negation(z.im), im: z.re }
}

/// `zs` after a quarter turn.
pub open spec fn quarters<A: Arithmetic>(zs: Seq<Complex<A::R>>) -> Seq<Complex<A::R>> {
    Seq::new(zs.len(), |i: int| quarter::<A>(zs[i]))
}

/// Whether all of `zs` are finite.
pub open spec fn finite_samples<A: Arithmetic>(zs: Seq<Complex<A::R>>) -> bool {
    forall|i: int| 0 <= i < zs.len() ==> finite_sample::<A>(#[trigger] zs[i])
}

/// The sign of the opposite of a number is the opposite of its sign.
pub open spec fn signs_hold<A: Arithmetic>() -> bool {
    &&& forall|a: A::R|
        A::finite(a) && a != A::integer_value(0) ==> #[trigger] A::sign(A::negation(a))
            == A::negation(A::sign(a))
    &&& forall|a: A::R| A::finite(a) ==> A::finite(#[trigger] A::sign(a))
}

/// Sums and differences of samples turn with them.
proof fn quarter_of_sums<A: Arithmetic>(a: Complex<A::R>, b: Complex<A::R>)
    requires
        exact_laws::<A>(),
        negation_laws::<A>(),
        finite_sample::<A>(a),
        finite_sample::<A>(b),
    ensures
        complex::total::<A>(quarter::<A>(a), quarter::<A>(b)) == quarter::<A>(
            complex::total::<A>(a, b),
        ),
        complex::offset::<A>(quarter::<A>(a), quarter::<A>(b)) == quarter::<A>(
            complex::offset::<A>(a, b),
        ),
        finite_sample::<A>(complex::total::<A>(a, b)),
        finite_sample::<A>(complex::offset::<A>(a, b)),
        finite_sample::<A>(quarter::<A>(a)),
{
    opposite::<A>(a.im);
    opposites::<A>(a.im, b.im);
    stays_finite::<A>(a.re, b.re);
    stays_finite::<A>(a.im, b.im);
}

/// Scaled samples turn with them.
proof fn quarter_of_scaled<A: Arithmetic>(a: Complex<A::R>, k: A::R)
    requires
        exact_laws::<A>(),
        negation_laws::<A>(),
        finite_sample::<A>(a),
        A::finite(k),
    ensures
        complex::scaled::<A>(quarter::<A>(a), k) == quarter::<A>(complex::scaled::<A>(a, k)),
        finite_sample::<A>(complex::scaled::<A>(a, k)),
{
    opposite_factors::<A>(a.im, k);
    stays_finite::<A>(a.re, k);
    stays_finite::<A>(a.im, k);
}

/// A product turns with its first factor.
proof fn quarter_of_rotated<A: Arithmetic>(a: Complex<A::R>, b: Complex<A::R>)
    requires
        exact_laws::<A>(),
        negation_laws::<A>(),
        finite_sample::<A>(a),
        finite_sample::<A>(b),
    ensures
        complex::rotated::<A>(quarter::<A>(a), b) == quarter::<A>(complex::rotated::<A>(a, b)),
        finite_sample::<A>(complex::rotated::<A>(a, b)),
{
    let p = A::product(a.im, b.re);
    let q = A::product(a.re, b.im);
    let u = A::product(a.im, b.im);
    let v = A::product(a.re, b.re);
    stays_finite::<A>(a.im, b.re);
    stays_finite::<A>(a.re, b.im);
    stays_finite::<A>(a.im, b.im);
    stays_finite::<A>(a.re, b.re);
    stays_finite::<A>(p, q);
    stays_finite::<A>(q, p);
    stays_finite::<A>(v, u);
    opposite_factors::<A>(a.im, b.re);
    opposite_factors::<A>(a.im, b.im);
    opposites::<A>(p, q);
    opposites::<A>(v, u);
    opposite::<A>(u);
    addends_in_any_order::<A>(A::negation(u), v, v);
}

/// How far the outer samples lie apart, seen from the middle one, does not
/// change when all turn.
proof fn turned_error<A: Arithmetic>(m: Complex<A::R>, d: Complex<A::R>)
    requires
        exact_laws::<A>(),
        negation_laws::<A>(),
        finite_sample::<A>(m),
        finite_sample::<A>(d),
    ensures
        complex::rotated::<A>(
            complex::conjugate::<A>(quarter::<A>(m)),
            quarter::<A>(d),
        ).im == complex::rotated::<A>(complex::conjugate::<A>(m), d).im,
{
    opposite::<A>(m.re);
    opposite::<A>(m.im);
    opposite::<A>(d.im);
    let p = A::product(m.re, d.im);
    let q = A::product(A::negation(m.im), d.re);
    stays_finite::<A>(m.re, d.im);
    stays_finite::<A>(A::negation(m.im), d.re);
    opposite_factors::<A>(m.re, d.im);
    opposite_factors::<A>(A::negation(m.re), d.im);
    opposite::<A>(p);
    addends_in_any_order::<A>(q, p, p);
}

/// The matched filter turns with its samples.
proof fn quarter_of_matched<A: Arithmetic>(
    taps: Seq<A::R>,
    history: Seq<Complex<A::R>>,
    n: nat,
)
    requires
        exact_laws::<A>(),
        negation_laws::<A>(),
        all_finite::<A>(taps),
        finite_samples::<A>(history),
        n <= taps.len(),
        n <= history.len(),
    ensures
        matched::<A>(taps, quarters::<A>(history), n) == quarter::<A>(
            matched::<A>(taps, history, n),
        ),
        finite_sample::<A>(matched::<A>(taps, history, n)),
    decreases n,
{
    if n == 0 {
        whole_numbers::<A>(0);
        let zero = A::integer_value(0);
        opposite::<A>(zero);
        sum_with_zero::<A>(A::negation(zero));
    } else {
        let m = (n - 1) as nat;
        quarter_of_matched::<A>(taps, history, m);
        let x = history[n - 1];
        let k = taps[taps.len() - n];
        assert(finite_sample::<A>(x));
        assert(A::finite(k));
        quarter_of_scaled::<A>(x, k);
        quarter_of_sums::<A>(matched::<A>(taps, history, m), complex::scaled::<A>(x, k));
    }
}

/// The filter after a quarter turn of what it has heard.
pub open spec fn turned_filter<A: Arithmetic>(f: RrcView<A>) -> RrcView<A> {
    RrcView { history: quarters::<A>(f.history), ..f }
}

/// The symbol timing after a quarter turn of what it has heard.
pub open spec fn turned_timing<A: Arithmetic>(g: GardnerView<A>) -> GardnerView<A> {
    GardnerView { mid: quarter::<A>(g.mid), pending: quarters::<A>(g.pending), ..g }
}

proof fn filter_turns<A: Arithmetic>(f: RrcView<A>, x: Complex<A::R>)
    requires
        exact_laws::<A>(),
        negation_laws::<A>(),
        all_finite::<A>(f.taps),
        finite_samples::<A>(f.history),
        f.history.len() == f.taps.len(),
        finite_sample::<A>(x),
    ensures
        turned_filter::<A>(f).step(quarter::<A>(x)) == (
            turned_filter::<A>(f.step(x).0),
            quarter::<A>(f.step(x).1),
        ),
        finite_sample::<A>(f.step(x).1),
{
    let history = tail(f.history + seq![x], f.history.len());
    assert(tail(quarters::<A>(f.history) + seq![quarter::<A>(x)], f.history.len()) =~= quarters::<
        A,
    >(history));
    assert forall|i: int| 0 <= i < history.len() implies finite_sample::<A>(
        #[trigger] history[i],
    ) by {
        let s = f.history + seq![x];
        if i + 1 < f.history.len() {
            assert(history[i] == f.history[i + 1]);
        } else {
            assert(history[i] == x);
        }
    }
    quarter_of_matched::<A>(f.taps, history, history.len());
}

proof fn carrier_turns<A: Arithmetic>(f: Costas<A>, x: Complex<A::R>)
    requires
        exact_laws::<A>(),
        negation_laws::<A>(),
        signs_hold::<A>(),
        finite_sample::<A>(x),
        A::finite(A::cosine(f.pcl.phase)),
        A::finite(A::sine(f.pcl.phase)),
        f.step(x).1.im != A::integer_value(0),
    ensures
        f.step(quarter::<A>(x)) == (f.step(x).0, quarter::<A>(f.step(x).1)),
        finite_sample::<A>(f.step(x).1),
{
    let phase = f.pcl.phase;
    opposite::<A>(A::sine(phase));
    let e = Complex { re: A::cosine(phase), im: A::negation(A::sine(phase)) };
    quarter_of_rotated::<A>(x, e);
    let y = f.step(x).1;
    let p = A::product(A::sign(y.re), y.im);
    let q = A::product(A::sign(y.im), y.re);
    stays_finite::<A>(A::sign(y.re), y.im);
    stays_finite::<A>(A::sign(y.im), y.re);
    opposite_factors::<A>(A::sign(y.im), y.re);
    opposite_factors::<A>(A::sign(y.re), y.im);
    opposite::<A>(p);
    opposite::<A>(q);
    opposites::<A>(q, p);
    opposites::<A>(p, q);
}

proof fn timing_turns<A: Arithmetic>(g: GardnerView<A>, x: Complex<A::R>)
    requires
        exact_laws::<A>(),
        negation_laws::<A>(),
        finite_samples::<A>(g.pending),
        finite_sample::<A>(g.mid),
        A::finite(g.mu),
        finite_sample::<A>(x),
    ensures
        turned_timing::<A>(g).step(quarter::<A>(x)).0 == turned_timing::<A>(g.step(x).0),
        turned_timing::<A>(g).step(quarter::<A>(x)).1 == match g.step(x).1 {
            Some(symbol) => Some(quarter::<A>(symbol)),
            None => None,
        },
        g.step(x).1 matches Some(symbol) ==> finite_sample::<A>(symbol),
{
    let next = GardnerView { pending: g.pending.push(x), ..g };
    let turned = turned_timing::<A>(g);
    let turned_next = GardnerView { pending: turned.pending.push(quarter::<A>(x)), ..turned };
    assert(turned_next.pending =~= quarters::<A>(next.pending));
    if next.pending.len() >= 3 {
        assert forall|i: int| 0 <= i < next.pending.len() implies finite_sample::<A>(
            #[trigger] next.pending[i],
        ) by {}
        let early = next.pending[0];
        let middle = next.pending[1];
        let late = next.pending[2];
        let one = A::integer_value(1);
        whole_numbers::<A>(1);
        stays_finite::<A>(one, g.mu);
        quarter_of_scaled::<A>(middle, A::difference(one, g.mu));
        quarter_of_scaled::<A>(late, g.mu);
        quarter_of_sums::<A>(
            complex::scaled::<A>(middle, A::difference(one, g.mu)),
            complex::scaled::<A>(late, g.mu),
        );
        quarter_of_sums::<A>(late, early);
        turned_error::<A>(g.mid, complex::offset::<A>(late, early));
        let plain = next.recovered().0;
        let other = turned_next.recovered().0;
        assert(other.pending =~= quarters::<A>(plain.pending));
    }
}

/// A quarter turn of the samples is a quarter turn of the symbols.
///
/// A demodulator for four-phase keying that has heard the same samples a quarter
/// turn on, and is where another one is, gives out bits for the same samples as
/// the other, with what was the first bit in the second place and the opposite
/// of what was the second bit in the first, and both stay where they are.
pub proof fn quarter_turn_swaps_the_bits<A: Arithmetic>(
    rrc: RrcView<A>,
    costas: Costas<A>,
    gardner: GardnerView<A>,
    x: Complex<A::R>,
)
    requires
        exact_laws::<A>(),
        negation_laws::<A>(),
        order_laws::<A>(),
        even_about_zero::<A>(),
        signs_hold::<A>(),
        all_finite::<A>(rrc.taps),
        rrc.history.len() == rrc.taps.len(),
        finite_samples::<A>(rrc.history),
        A::finite(A::cosine(costas.pcl.phase)),
        A::finite(A::sine(costas.pcl.phase)),
        finite_samples::<A>(gardner.pending),
        finite_sample::<A>(gardner.mid),
        A::finite(gardner.mu),
        finite_sample::<A>(x),
        costas.step(rrc.step(x).1).1.im != A::integer_value(0),
    ensures
        ({
            let v = LrptView { rrc, inner: InnerView::Qpsk { costas, gardner } };
            let w = LrptView {
                rrc: turned_filter::<A>(rrc),
                inner: InnerView::Qpsk { costas, gardner: turned_timing::<A>(gardner) },
            };
            let (v1, bits) = v.step(x);
            let (w1, turned) = w.step(quarter::<A>(x));
            &&& w1.rrc == turned_filter::<A>(v1.rrc)
            &&& match (v1.inner, w1.inner) {
                (
                    InnerView::Qpsk { costas: c, gardner: g },
                    InnerView::Qpsk { costas: d, gardner: h },
                ) => d == c && h == turned_timing::<A>(g),
                _ => false,
            }
            &&& (turned is Some) == (bits is Some)
            &&& bits matches Some(b) ==> {
                &&& b.len() == 2
                &&& turned->0.len() == 2
                &&& turned->0[0] == -b[1]
                &&& turned->0[1] == b[0]
            }
        }),
{
    filter_turns::<A>(rrc, x);
    let y = rrc.step(x).1;
    carrier_turns::<A>(costas, y);
    let z = costas.step(y).1;
    timing_turns::<A>(gardner, z);
    match gardner.step(z).1 {
        Some(symbol) => {
            opposite_soft_bit::<A>(symbol.im);
        },
        None => {},
    }
}

} // verus!
