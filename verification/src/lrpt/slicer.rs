//! From symbols to soft bits.

use crate::arith::{clamp, clamped, order_laws, within, Arithmetic};
use crate::exact::{exact_laws, negation_laws, opposite, opposite_factors, products_undo, stays_finite, whole_numbers};
use crate::types::Complex;
use vstd::prelude::*;

verus! {

/// Greatest magnitude of a soft bit.
pub const SOFT_BIT_MAX: i64 = 127;

/// `x` as a soft bit: times [`SOFT_BIT_MAX`], rounded, and held to the range
/// that has this magnitude.
pub open spec fn soft_bit<A: Arithmetic>(x: A::R) -> i8 {
    let whole = A::integer_part(
        clamped::<A>(
            A::rounded(A::product(x, A::integer_value(SOFT_BIT_MAX))),
            A::negation(A::integer_value(SOFT_BIT_MAX)),
            A::integer_value(SOFT_BIT_MAX),
        ),
    );
    if whole > i8::MAX {
        i8::MAX
    } else if whole < i8::MIN {
        i8::MIN
    } else {
        whole as i8
    }
}

/// The soft bits of `sample`.
pub open spec fn soft_bits<A: Arithmetic>(sample: Complex<A::R>) -> Seq<i8> {
    seq![soft_bit::<A>(sample.re), soft_bit::<A>(sample.im)]
}

/// The soft bits of a symbol, that of the real axis first.
pub fn slice_soft<A: Arithmetic>(sample: Complex<A::R>) -> (bits: [i8; 2])
    ensures
        bits@ == soft_bits::<A>(sample),
{
    let bits: [i8; 2] = [scale::<A>(sample.re), scale::<A>(sample.im)];
    assert(bits@ =~= soft_bits::<A>(sample));
    bits
}

fn scale<A: Arithmetic>(x: A::R) -> (r: i8)
    ensures
        r == soft_bit::<A>(x),
{
    let max: A::R = A::integer(SOFT_BIT_MAX);
    let whole: i64 = A::to_i64(clamp::<A>(A::round(A::times(x, max)), A::neg(max), max));
    if whole > i8::MAX as i64 {
        i8::MAX
    } else if whole < i8::MIN as i64 {
        i8::MIN
    } else {
        whole as i8
    }
}

/// A symbol that lies `level` steps of [`SOFT_BIT_MAX`] from zero on an axis has
/// the soft bit `level` there.
pub proof fn soft_bits_are_even<A: Arithmetic>(level: i8)
    requires
        exact_laws::<A>(),
        -SOFT_BIT_MAX <= level <= SOFT_BIT_MAX,
        A::rounded(A::integer_value(level as i64)) == A::integer_value(level as i64),
        A::integer_part(A::integer_value(level as i64)) == level,
        !A::less(A::integer_value(level as i64), A::negation(A::integer_value(SOFT_BIT_MAX))),
        !A::less(A::integer_value(SOFT_BIT_MAX), A::integer_value(level as i64)),
    ensures
        soft_bit::<A>(
            A::quotient(A::integer_value(level as i64), A::integer_value(127)),
        ) == level,
{
    whole_numbers::<A>(level as i64);
    whole_numbers::<A>(127);
    products_undo::<A>(A::integer_value(level as i64), A::integer_value(127));
}

/// Rounding, the order and whole numbers are the same on either side of zero.
pub open spec fn even_about_zero<A: Arithmetic>() -> bool {
    let most = A::integer_value(127);
    &&& forall|a: A::R|
        A::finite(a) ==> {
            &&& A::finite(#[trigger] A::rounded(a))
            &&& A::rounded(A::negation(a)) == A::negation(A::rounded(a))
        }
    &&& forall|a: A::R, b: A::R|
        #![trigger A::less(A::negation(a), A::negation(b))]
        A::finite(a) && A::finite(b) ==> A::less(A::negation(a), A::negation(b)) == A::less(b, a)
    &&& forall|a: A::R|
        within::<A>(a, A::negation(most), most) ==> {
            &&& -127 <= #[trigger] A::integer_part(a) <= 127
            &&& A::integer_part(A::negation(a)) == -A::integer_part(a)
        }
    &&& A::at_most(A::negation(most), most)
    &&& forall|a: A::R| A::finite(a) ==> #[trigger] A::at_most(a, a)
}

/// The opposite side of an axis has the opposite soft bit.
pub proof fn opposite_soft_bit<A: Arithmetic>(x: A::R)
    requires
        exact_laws::<A>(),
        negation_laws::<A>(),
        order_laws::<A>(),
        even_about_zero::<A>(),
        A::finite(x),
    ensures
        soft_bit::<A>(A::negation(x)) == -soft_bit::<A>(x),
{
    let most = A::integer_value(127);
    let least = A::negation(most);
    whole_numbers::<A>(127);
    opposite::<A>(most);
    opposite::<A>(x);
    stays_finite::<A>(x, most);
    opposite_factors::<A>(x, most);
    let p = A::product(x, most);
    let y = A::rounded(p);
    let z = A::negation(y);
    opposite::<A>(y);
    assert(A::rounded(A::negation(p)) == z);
    assert(A::less(z, A::negation(most)) == A::less(most, y));
    assert(A::less(A::negation(least), A::negation(y)) == A::less(y, least));
    assert(A::less(most, z) == A::less(y, least));
    assert(A::at_most(y, y) && A::at_most(most, most) && A::at_most(least, least));
    assert(!A::less(most, least));
    if A::less(y, least) {
        assert(!A::less(z, least)) by {
            if A::less(most, y) {
                assert(A::at_most(y, least) && A::at_most(least, most));
                assert(A::at_most(y, most));
                assert(!A::at_most(y, most));
            }
        }
        assert(clamped::<A>(y, least, most) == least);
        assert(clamped::<A>(z, least, most) == most);
        assert(within::<A>(most, least, most));
        assert(A::integer_part(most) >= -127);
    } else if A::less(most, y) {
        assert(clamped::<A>(y, least, most) == most);
        assert(clamped::<A>(z, least, most) == least);
        assert(within::<A>(most, least, most));
        assert(A::integer_part(most) >= -127);
    } else {
        assert(clamped::<A>(y, least, most) == y);
        assert(clamped::<A>(z, least, most) == z);
        assert(A::at_most(least, y) && A::at_most(y, most));
        assert(within::<A>(y, least, most));
        assert(A::integer_part(y) >= -127);
    }
}

} // verus!
