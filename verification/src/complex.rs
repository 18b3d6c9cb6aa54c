//! Arithmetic on complex samples.

use crate::arith::Arithmetic;
use crate::types::Complex;
use vstd::prelude::*;

verus! {

/// Zero.
pub open spec fn origin<A: Arithmetic>() -> Complex<A::R> {
    Complex { re: A::integer_value(0), im: A::integer_value(0) }
}

/// `a + b`.
pub open spec fn total<A: Arithmetic>(a: Complex<A::R>, b: Complex<A::R>) -> Complex<A::R> {
    Complex { re: A::sum(a.re, b.re), im: A::sum(a.im, b.im) }
}

/// `a - b`.
pub open spec fn offset<A: Arithmetic>(a: Complex<A::R>, b: Complex<A::R>) -> Complex<A::R> {
    Complex { re: A::difference(a.re, b.re), im: A::difference(a.im, b.im) }
}

/// `a * b`.
pub open spec fn rotated<A: Arithmetic>(a: Complex<A::R>, b: Complex<A::R>) -> Complex<A::R> {
    Complex {
        re: A::difference(A::product(a.re, b.re), A::product(a.im, b.im)),
        im: A::sum(A::product(a.re, b.im), A::product(a.im, b.re)),
    }
}

/// `a` times the real number `k`.
pub open spec fn scaled<A: Arithmetic>(a: Complex<A::R>, k: A::R) -> Complex<A::R> {
    Complex { re: A::product(a.re, k), im: A::product(a.im, k) }
}

/// The complex conjugate of `a`.
pub open spec fn conjugate<A: Arithmetic>(a: Complex<A::R>) -> Complex<A::R> {
    Complex { re: a.re, im: A::negation(a.im) }
}

/// The absolute value of `a`.
pub open spec fn modulus<A: Arithmetic>(a: Complex<A::R>) -> A::R {
    A::root(A::sum(A::product(a.re, a.re), A::product(a.im, a.im)))
}

/// The angle of `a`.
pub open spec fn argument<A: Arithmetic>(a: Complex<A::R>) -> A::R {
    A::angle(a.im, a.re)
}

/// The real parts of `s`.
pub open spec fn reals<T>(s: Seq<Complex<T>>) -> Seq<T> {
    Seq::new(s.len(), |i: int| s[i].re)
}

/// The imaginary parts of `s`.
pub open spec fn imags<T>(s: Seq<Complex<T>>) -> Seq<T> {
    Seq::new(s.len(), |i: int| s[i].im)
}

/// The real samples `xs` as complex ones.
pub open spec fn lifted<A: Arithmetic>(xs: Seq<A::R>) -> Seq<Complex<A::R>> {
    Seq::new(xs.len(), |i: int| Complex { re: xs[i], im: A::integer_value(0) })
}

/// Zero.
pub fn zero<A: Arithmetic>() -> (r: Complex<A::R>)
    ensures
        r == origin::<A>(),
{
    Complex { re: A::integer(0), im: A::integer(0) }
}

/// `a + b`.
pub fn plus<A: Arithmetic>(a: Complex<A::R>, b: Complex<A::R>) -> (r: Complex<A::R>)
    ensures
        r == total::<A>(a, b),
{
    Complex { re: A::plus(a.re, b.re), im: A::plus(a.im, b.im) }
}

/// `a - b`.
pub fn minus<A: Arithmetic>(a: Complex<A::R>, b: Complex<A::R>) -> (r: Complex<A::R>)
    ensures
        r == offset::<A>(a, b),
{
    Complex { re: A::minus(a.re, b.re), im: A::minus(a.im, b.im) }
}

/// `a * b`.
pub fn times<A: Arithmetic>(a: Complex<A::R>, b: Complex<A::R>) -> (r: Complex<A::R>)
    ensures
        r == rotated::<A>(a, b),
{
    Complex {
        re: A::minus(A::times(a.re, b.re), A::times(a.im, b.im)),
        im: A::plus(A::times(a.re, b.im), A::times(a.im, b.re)),
    }
}

/// `a` times the real number `k`.
pub fn scale<A: Arithmetic>(a: Complex<A::R>, k: A::R) -> (r: Complex<A::R>)
    ensures
        r == scaled::<A>(a, k),
{
    Complex { re: A::times(a.re, k), im: A::times(a.im, k) }
}

/// The complex conjugate of `a`.
pub fn conj<A: Arithmetic>(a: Complex<A::R>) -> (r: Complex<A::R>)
    ensures
        r == conjugate::<A>(a),
{
    Complex { re: a.re, im: A::neg(a.im) }
}

/// The absolute value of `a`.
pub fn amplitude<A: Arithmetic>(a: Complex<A::R>) -> (r: A::R)
    ensures
        r == modulus::<A>(a),
{
    A::sqrt(A::plus(A::times(a.re, a.re), A::times(a.im, a.im)))
}

/// The angle of `a`.
pub fn phase<A: Arithmetic>(a: Complex<A::R>) -> (r: A::R)
    ensures
        r == argument::<A>(a),
{
    A::atan2(a.im, a.re)
}

} // verus!
