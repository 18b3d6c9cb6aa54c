//! The arithmetic that the signal-processing blocks are written over.
//!
//! A block never names a machine number. It is generic over a number system,
//! a type that implements [`Arithmetic`], and its contract says which
//! operations it performs on the samples, on which operands and in which
//! order. Nothing is assumed of an operation but that its result depends on
//! its operands alone: no sum is taken to be associative and no comparison to
//! be total, so what is proved of a block holds of rounded arithmetic, with
//! its infinities and undefined results, as well as of exact arithmetic.
//!
//! [`Integers`] is a number system of this crate: 64-bit integers with every
//! result rounded down.

use crate::types::{DspError, Fault};
use vstd::prelude::*;
use vstd::string::StringExecFns;

verus! {

/// Some function of `x`, one for each `operation`: all that is known of an
/// operation whose results are not described.
pub closed spec fn unspecified<X, Y>(operation: &'static str, x: X) -> Y {
    arbitrary::<spec_fn(&'static str, X) -> Y>()(operation, x)
}

/// A number system: a type of numbers with the operations on them.
///
/// For each operation there is a specification function that names its
/// result.
pub trait Arithmetic: Sized {
    /// The numbers.
    type R: Copy;

    /// What [`Self::integer`] returns.
    closed spec fn integer_value(n: i64) -> Self::R {
        unspecified("integer_value", n)
    }

    /// What [`Self::count`] returns.
    closed spec fn count_value(n: usize) -> Self::R {
        unspecified("count_value", n)
    }

    /// What [`Self::fraction`] returns.
    closed spec fn fraction_value(n: i64, d: i64) -> Self::R {
        unspecified("fraction_value", (n, d))
    }

    /// What [`Self::plus`] returns.
    closed spec fn sum(a: Self::R, b: Self::R) -> Self::R {
        unspecified("sum", (a, b))
    }

    /// What [`Self::minus`] returns.
    closed spec fn difference(a: Self::R, b: Self::R) -> Self::R {
        unspecified("difference", (a, b))
    }

    /// What [`Self::times`] returns.
    closed spec fn product(a: Self::R, b: Self::R) -> Self::R {
        unspecified("product", (a, b))
    }

    /// What [`Self::over`] returns.
    closed spec fn quotient(a: Self::R, b: Self::R) -> Self::R {
        unspecified("quotient", (a, b))
    }

    /// What [`Self::mul_add`] returns.
    closed spec fn fused(a: Self::R, b: Self::R, c: Self::R) -> Self::R {
        unspecified("fused", (a, b, c))
    }

    /// What [`Self::midpoint`] returns.
    closed spec fn middle(a: Self::R, b: Self::R) -> Self::R {
        unspecified("middle", (a, b))
    }

    /// What [`Self::neg`] returns.
    closed spec fn negation(a: Self::R) -> Self::R {
        unspecified("negation", a)
    }

    /// What [`Self::abs`] returns.
    closed spec fn magnitude(a: Self::R) -> Self::R {
        unspecified("magnitude", a)
    }

    /// What [`Self::signum`] returns.
    closed spec fn sign(a: Self::R) -> Self::R {
        unspecified("sign", a)
    }

    /// What [`Self::min`] returns.
    closed spec fn lesser(a: Self::R, b: Self::R) -> Self::R {
        unspecified("lesser", (a, b))
    }

    /// What [`Self::max`] returns.
    closed spec fn greater(a: Self::R, b: Self::R) -> Self::R {
        unspecified("greater", (a, b))
    }

    /// What [`Self::floor`] returns.
    closed spec fn rounded_down(a: Self::R) -> Self::R {
        unspecified("rounded_down", a)
    }

    /// What [`Self::round`] returns.
    closed spec fn rounded(a: Self::R) -> Self::R {
        unspecified("rounded", a)
    }

    /// What [`Self::rem_euclid`] returns.
    closed spec fn remainder(a: Self::R, b: Self::R) -> Self::R {
        unspecified("remainder", (a, b))
    }

    /// What [`Self::sqrt`] returns.
    closed spec fn root(a: Self::R) -> Self::R {
        unspecified("root", a)
    }

    /// What [`Self::sin`] returns.
    closed spec fn sine(a: Self::R) -> Self::R {
        unspecified("sine", a)
    }

    /// What [`Self::cos`] returns.
    closed spec fn cosine(a: Self::R) -> Self::R {
        unspecified("cosine", a)
    }

    /// What [`Self::atan2`] returns.
    closed spec fn angle(y: Self::R, x: Self::R) -> Self::R {
        unspecified("angle", (y, x))
    }

    /// What [`Self::exp`] returns.
    closed spec fn exponential(a: Self::R) -> Self::R {
        unspecified("exponential", a)
    }

    /// What [`Self::exp10`] returns.
    closed spec fn decimal_power(a: Self::R) -> Self::R {
        unspecified("decimal_power", a)
    }

    /// What [`Self::log10`] returns.
    closed spec fn decimal_log(a: Self::R) -> Self::R {
        unspecified("decimal_log", a)
    }

    /// What [`Self::log2`] returns.
    closed spec fn binary_log(a: Self::R) -> Self::R {
        unspecified("binary_log", a)
    }

    /// What [`Self::tanh`] returns.
    closed spec fn hyperbolic_tangent(a: Self::R) -> Self::R {
        unspecified("hyperbolic_tangent", a)
    }

    /// What [`Self::pi`] returns.
    closed spec fn half_turn() -> Self::R {
        unspecified("half_turn", ())
    }

    /// What [`Self::frac_1_sqrt_2`] returns.
    closed spec fn root_of_half() -> Self::R {
        unspecified("root_of_half", ())
    }

    /// What [`Self::min_positive`] returns.
    closed spec fn least_positive() -> Self::R {
        unspecified("least_positive", ())
    }

    /// What [`Self::neg_infinity`] returns.
    closed spec fn lowest() -> Self::R {
        unspecified("lowest", ())
    }

    /// What [`Self::nan`] returns.
    closed spec fn undefined() -> Self::R {
        unspecified("undefined", ())
    }

    /// What [`Self::lt`] returns.
    closed spec fn less(a: Self::R, b: Self::R) -> bool {
        unspecified("less", (a, b))
    }

    /// What [`Self::le`] returns.
    closed spec fn at_most(a: Self::R, b: Self::R) -> bool {
        unspecified("at_most", (a, b))
    }

    /// What [`Self::same`] returns.
    closed spec fn equal(a: Self::R, b: Self::R) -> bool {
        unspecified("equal", (a, b))
    }

    /// What [`Self::is_finite`] returns.
    closed spec fn finite(a: Self::R) -> bool {
        unspecified("finite", a)
    }

    /// What [`Self::to_i64`] returns.
    closed spec fn integer_part(a: Self::R) -> i64 {
        unspecified("integer_part", a)
    }

    /// What [`Self::to_u64`] returns.
    closed spec fn natural_part(a: Self::R) -> u64 {
        unspecified("natural_part", a)
    }

    /// What [`Self::to_text`] returns.
    closed spec fn text(a: Self::R) -> Seq<char> {
        unspecified("text", a)
    }

    /// The number `n`.
    fn integer(n: i64) -> (r: Self::R)
        ensures
            r == Self::integer_value(n),
    ;

    /// The number `n`, for a length or an index.
    fn count(n: usize) -> (r: Self::R)
        ensures
            r == Self::count_value(n),
    ;

    /// The number `n / d`.
    fn fraction(n: i64, d: i64) -> (r: Self::R)
        ensures
            r == Self::fraction_value(n, d),
    ;

    /// `a + b`.
    fn plus(a: Self::R, b: Self::R) -> (r: Self::R)
        ensures
            r == Self::sum(a, b),
    ;

    /// `a - b`.
    fn minus(a: Self::R, b: Self::R) -> (r: Self::R)
        ensures
            r == Self::difference(a, b),
    ;

    /// `a * b`.
    fn times(a: Self::R, b: Self::R) -> (r: Self::R)
        ensures
            r == Self::product(a, b),
    ;

    /// `a / b`.
    fn over(a: Self::R, b: Self::R) -> (r: Self::R)
        ensures
            r == Self::quotient(a, b),
    ;

    /// `a * b + c` in one rounding.
    fn mul_add(a: Self::R, b: Self::R, c: Self::R) -> (r: Self::R)
        ensures
            r == Self::fused(a, b, c),
    ;

    /// The number halfway between `a` and `b`.
    fn midpoint(a: Self::R, b: Self::R) -> (r: Self::R)
        ensures
            r == Self::middle(a, b),
    ;

    /// `-a`.
    fn neg(a: Self::R) -> (r: Self::R)
        ensures
            r == Self::negation(a),
    ;

    /// `|a|`.
    fn abs(a: Self::R) -> (r: Self::R)
        ensures
            r == Self::magnitude(a),
    ;

    /// 1 with the sign of `a`.
    fn signum(a: Self::R) -> (r: Self::R)
        ensures
            r == Self::sign(a),
    ;

    /// The smaller of `a` and `b`.
    fn min(a: Self::R, b: Self::R) -> (r: Self::R)
        ensures
            r == Self::lesser(a, b),
    ;

    /// The larger of `a` and `b`.
    fn max(a: Self::R, b: Self::R) -> (r: Self::R)
        ensures
            r == Self::greater(a, b),
    ;

    /// The largest whole number that does not exceed `a`.
    fn floor(a: Self::R) -> (r: Self::R)
        ensures
            r == Self::rounded_down(a),
    ;

    /// The whole number nearest to `a`, away from zero on a tie.
    fn round(a: Self::R) -> (r: Self::R)
        ensures
            r == Self::rounded(a),
    ;

    /// The remainder of `a / b` that is not negative.
    fn rem_euclid(a: Self::R, b: Self::R) -> (r: Self::R)
        ensures
            r == Self::remainder(a, b),
    ;

    /// The square root of `a`.
    fn sqrt(a: Self::R) -> (r: Self::R)
        ensures
            r == Self::root(a),
    ;

    /// The sine of `a`.
    fn sin(a: Self::R) -> (r: Self::R)
        ensures
            r == Self::sine(a),
    ;

    /// The cosine of `a`.
    fn cos(a: Self::R) -> (r: Self::R)
        ensures
            r == Self::cosine(a),
    ;

    /// The angle of the point `(x, y)`, in `[-pi, pi]`.
    fn atan2(y: Self::R, x: Self::R) -> (r: Self::R)
        ensures
            r == Self::angle(y, x),
    ;

    /// `e` to the power `a`.
    fn exp(a: Self::R) -> (r: Self::R)
        ensures
            r == Self::exponential(a),
    ;

    /// Ten to the power `a`.
    fn exp10(a: Self::R) -> (r: Self::R)
        ensures
            r == Self::decimal_power(a),
    ;

    /// The logarithm of `a` to base ten.
    fn log10(a: Self::R) -> (r: Self::R)
        ensures
            r == Self::decimal_log(a),
    ;

    /// The logarithm of `a` to base two.
    fn log2(a: Self::R) -> (r: Self::R)
        ensures
            r == Self::binary_log(a),
    ;

    /// The hyperbolic tangent of `a`.
    fn tanh(a: Self::R) -> (r: Self::R)
        ensures
            r == Self::hyperbolic_tangent(a),
    ;

    /// Half a turn, in the unit of angle.
    fn pi() -> (r: Self::R)
        ensures
            r == Self::half_turn(),
    ;

    /// One over the square root of two.
    fn frac_1_sqrt_2() -> (r: Self::R)
        ensures
            r == Self::root_of_half(),
    ;

    /// The smallest positive number of full precision.
    fn min_positive() -> (r: Self::R)
        ensures
            r == Self::least_positive(),
    ;

    /// A number below every other.
    fn neg_infinity() -> (r: Self::R)
        ensures
            r == Self::lowest(),
    ;

    /// The result of an operation that has none.
    fn nan() -> (r: Self::R)
        ensures
            r == Self::undefined(),
    ;

    /// `a < b`.
    fn lt(a: Self::R, b: Self::R) -> (r: bool)
        ensures
            r == Self::less(a, b),
    ;

    /// `a <= b`.
    fn le(a: Self::R, b: Self::R) -> (r: bool)
        ensures
            r == Self::at_most(a, b),
    ;

    /// `a == b`.
    fn same(a: Self::R, b: Self::R) -> (r: bool)
        ensures
            r == Self::equal(a, b),
    ;

    /// Whether `a` is an ordinary number: no infinity, and defined.
    fn is_finite(a: Self::R) -> (r: bool)
        ensures
            r == Self::finite(a),
    ;

    /// `a` without its fraction, held to the range of the type, 0 where undefined.
    fn to_i64(a: Self::R) -> (r: i64)
        ensures
            r == Self::integer_part(a),
    ;

    /// `a` without its fraction, held to the range of the type, 0 where undefined.
    fn to_u64(a: Self::R) -> (r: u64)
        ensures
            r == Self::natural_part(a),
    ;

    /// `a` in writing.
    fn to_text(a: Self::R) -> (r: String)
        ensures
            r@ == Self::text(a),
    ;

}

/// A number system that is wide enough to design in for the system `A`.
pub trait Widening<A: Arithmetic>: Arithmetic {
    /// What [`Self::narrow`] returns.
    closed spec fn narrowed(a: Self::R) -> A::R {
        unspecified("narrowed", a)
    }

    /// What [`Self::widen`] returns.
    closed spec fn widened(a: A::R) -> Self::R {
        unspecified("widened", a)
    }

    /// The number of `A` that is nearest to `a`.
    fn narrow(a: Self::R) -> (r: A::R)
        ensures
            r == Self::narrowed(a),
    ;

    /// The number `a` of `A`.
    fn widen(a: A::R) -> (r: Self::R)
        ensures
            r == Self::widened(a),
    ;
}

/// Whether `x` is an ordinary number above zero.
pub open spec fn positive_finite<A: Arithmetic>(x: A::R) -> bool {
    A::finite(x) && !A::at_most(x, A::integer_value(0))
}

/// [`positive_finite`].
pub fn is_positive_finite<A: Arithmetic>(x: A::R) -> (r: bool)
    ensures
        r == positive_finite::<A>(x),
{
    A::is_finite(x) && !A::le(x, A::integer(0))
}

/// The refusal of the parameter `x`, with what is asked of it.
pub open spec fn got<A: Arithmetic>(text: Seq<char>, x: A::R) -> Fault {
    Fault::InvalidParameter(text + ", got "@ + A::text(x))
}

/// [`got`].
pub fn got_instead<A: Arithmetic>(text: &str, x: A::R) -> (e: DspError)
    ensures
        e@ == got::<A>(text@, x),
{
    DspError::InvalidParameter(
        String::from_str(text).concat(", got ").concat(A::to_text(x).as_str()),
    )
}

/// `x` held to the range from `lo` to `hi`.
pub open spec fn clamped<A: Arithmetic>(x: A::R, lo: A::R, hi: A::R) -> A::R {
    let y = if A::less(x, lo) {
        lo
    } else {
        x
    };
    if A::less(hi, y) {
        hi
    } else {
        y
    }
}

/// [`clamped`].
pub fn clamp<A: Arithmetic>(x: A::R, lo: A::R, hi: A::R) -> (r: A::R)
    ensures
        r == clamped::<A>(x, lo, hi),
{
    let y: A::R = if A::lt(x, lo) {
        lo
    } else {
        x
    };
    if A::lt(hi, y) {
        hi
    } else {
        y
    }
}

/// Whether `a` compares with itself, as every number does that is defined.
pub open spec fn comparable<A: Arithmetic>(a: A::R) -> bool {
    A::at_most(a, a)
}

/// Whether `a` lies from `lo` to `hi`.
pub open spec fn within<A: Arithmetic>(a: A::R, lo: A::R, hi: A::R) -> bool {
    A::at_most(lo, a) && A::at_most(a, hi)
}

/// The laws of a total order on the numbers that are defined. A result that is
/// not defined compares with nothing.
pub open spec fn order_laws<A: Arithmetic>() -> bool {
    &&& forall|a: A::R, b: A::R| #[trigger]
        A::less(a, b) ==> A::at_most(a, b) && !A::at_most(b, a)
    &&& forall|a: A::R, b: A::R| #[trigger]
        A::at_most(a, b) ==> comparable::<A>(a) && comparable::<A>(b)
    &&& forall|a: A::R, b: A::R|
        comparable::<A>(a) && comparable::<A>(b) && !(#[trigger] A::less(a, b)) ==> A::at_most(
            b,
            a,
        )
    &&& forall|a: A::R, b: A::R, c: A::R| #[trigger]
        A::at_most(a, b) && #[trigger] A::at_most(b, c) ==> A::at_most(a, c)
}

/// A number that is held to a range lies in it, unless it is not defined.
pub proof fn clamped_within<A: Arithmetic>(x: A::R, lo: A::R, hi: A::R)
    requires
        order_laws::<A>(),
        A::at_most(lo, hi),
    ensures
        comparable::<A>(x) ==> within::<A>(clamped::<A>(x, lo, hi), lo, hi),
        !comparable::<A>(x) ==> clamped::<A>(x, lo, hi) == x,
{
    if comparable::<A>(x) {
        if A::less(x, lo) {
            assert(!A::less(hi, lo));
        } else {
            assert(A::at_most(lo, x));
        }
    } else {
        assert(!A::less(x, lo));
        assert(!A::less(hi, x));
    }
}

/// The laws by which rounded sums and products of numbers that are not negative
/// grow with their operands.
pub open spec fn growth_laws<A: Arithmetic>() -> bool {
    let zero = A::integer_value(0);
    &&& forall|a: A::R, b: A::R, k: A::R|
        #![trigger A::product(a, k), A::product(b, k)]
        within::<A>(a, zero, b) && A::at_most(zero, k) && A::finite(k) && comparable::<A>(
            A::product(b, k),
        ) ==> within::<A>(A::product(a, k), zero, A::product(b, k))
    &&& forall|a: A::R, b: A::R, c: A::R, d: A::R|
        #![trigger A::sum(a, c), A::sum(b, d)]
        within::<A>(a, zero, b) && within::<A>(c, zero, d) ==> within::<A>(
            A::sum(a, c),
            zero,
            A::sum(b, d),
        )
}

} // verus!
