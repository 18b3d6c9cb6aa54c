//! The laws of exact arithmetic.
//!
//! The blocks ask nothing of a number system but that it computes. What they
//! are for is said of numbers that are not rounded: a law that has
//! [`exact_laws`] among its premises holds where the finite numbers form a
//! field, and of rounded numbers as far as nothing is rounded.

use crate::arith::{positive_finite, Arithmetic, Widening};
use crate::kernel::sum_of;
use vstd::prelude::*;

verus! {

/// The finite numbers form a field, and whole numbers, counts and fractions are
/// what they stand for.
#[verifier::opaque]
pub open spec fn exact_laws<A: Arithmetic>() -> bool {
    let zero = A::integer_value(0);
    let one = A::integer_value(1);
    &&& forall|a: A::R, b: A::R|
        A::finite(a) && A::finite(b) ==> A::finite(#[trigger] A::sum(a, b))
    &&& forall|a: A::R, b: A::R|
        A::finite(a) && A::finite(b) ==> A::finite(#[trigger] A::difference(a, b))
    &&& forall|a: A::R, b: A::R|
        A::finite(a) && A::finite(b) ==> A::finite(#[trigger] A::product(a, b))
    &&& forall|a: A::R, b: A::R|
        A::finite(a) && A::finite(b) && b != zero ==> A::finite(#[trigger] A::quotient(a, b))
    &&& forall|a: A::R, b: A::R|
        A::finite(a) && A::finite(b) ==> #[trigger] A::sum(a, b) == A::sum(b, a)
    &&& forall|a: A::R, b: A::R, c: A::R|
        A::finite(a) && A::finite(b) && A::finite(c) ==> #[trigger] A::sum(A::sum(a, b), c)
            == A::sum(a, A::sum(b, c))
    &&& forall|a: A::R| A::finite(a) ==> #[trigger] A::sum(a, zero) == a
    &&& forall|a: A::R, b: A::R|
        A::finite(a) && A::finite(b) ==> A::sum(#[trigger] A::difference(a, b), b) == a
    &&& forall|a: A::R, b: A::R|
        A::finite(a) && A::finite(b) ==> A::difference(#[trigger] A::sum(a, b), b) == a
    &&& forall|a: A::R, b: A::R|
        A::finite(a) && A::finite(b) ==> #[trigger] A::product(a, b) == A::product(b, a)
    &&& forall|a: A::R, b: A::R, c: A::R|
        A::finite(a) && A::finite(b) && A::finite(c) ==> #[trigger] A::product(
            A::product(a, b),
            c,
        ) == A::product(a, A::product(b, c))
    &&& forall|a: A::R| A::finite(a) ==> #[trigger] A::product(a, one) == a
    &&& forall|a: A::R, b: A::R, c: A::R|
        A::finite(a) && A::finite(b) && A::finite(c) ==> #[trigger] A::product(A::sum(a, b), c)
            == A::sum(A::product(a, c), A::product(b, c))
    &&& forall|a: A::R, b: A::R|
        A::finite(a) && A::finite(b) && b != zero ==> A::product(#[trigger] A::quotient(a, b), b)
            == a
    &&& forall|n: i64| A::finite(#[trigger] A::integer_value(n))
    &&& forall|n: i64| n != 0 ==> #[trigger] A::integer_value(n) != zero
    &&& forall|n: usize| A::finite(#[trigger] A::count_value(n))
    &&& forall|n: usize| n != 0 ==> #[trigger] A::count_value(n) != zero
    &&& A::count_value(0) == zero
    &&& forall|n: usize|
        n > 0 ==> #[trigger] A::count_value(n) == A::sum(A::count_value((n - 1) as usize), one)
}

/// Ten to a power and the logarithm to base ten undo each other.
pub open spec fn logarithm_laws<A: Arithmetic>() -> bool {
    &&& forall|a: A::R|
        positive_finite::<A>(a) ==> {
            &&& A::finite(#[trigger] A::decimal_log(a))
            &&& A::decimal_power(A::decimal_log(a)) == a
        }
    &&& forall|a: A::R|
        A::finite(a) ==> {
            &&& positive_finite::<A>(#[trigger] A::decimal_power(a))
            &&& A::decimal_log(A::decimal_power(a)) == a
        }
}

/// Results are finite.
pub proof fn stays_finite<A: Arithmetic>(a: A::R, b: A::R)
    requires
        exact_laws::<A>(),
        A::finite(a),
        A::finite(b),
    ensures
        A::finite(A::sum(a, b)),
        A::finite(A::difference(a, b)),
        A::finite(A::product(a, b)),
        b != A::integer_value(0) ==> A::finite(A::quotient(a, b)),
{
    reveal(exact_laws);
}

/// Whole numbers are finite, and only zero is zero.
pub proof fn whole_numbers<A: Arithmetic>(n: i64)
    requires
        exact_laws::<A>(),
    ensures
        A::finite(A::integer_value(n)),
        n != 0 ==> A::integer_value(n) != A::integer_value(0),
{
    reveal(exact_laws);
}

/// A difference and a sum undo each other, in either order.
pub proof fn sums_undo<A: Arithmetic>(a: A::R, b: A::R)
    requires
        exact_laws::<A>(),
        A::finite(a),
        A::finite(b),
    ensures
        A::difference(A::sum(a, b), b) == a,
        A::difference(A::sum(b, a), b) == a,
        A::sum(A::difference(a, b), b) == a,
        A::sum(b, A::difference(a, b)) == a,
        A::difference(a, a) == A::integer_value(0),
        A::sum(A::integer_value(0), a) == a,
{
    reveal(exact_laws);
    let zero = A::integer_value(0);
    assert(A::sum(a, b) == A::sum(b, a));
    assert(A::sum(zero, a) == A::sum(a, zero));
    assert(A::difference(A::sum(zero, a), a) == zero);
    assert(A::sum(A::difference(a, b), b) == A::sum(b, A::difference(a, b)));
}

/// What is added on both sides of a difference does not matter.
pub proof fn common_addend<A: Arithmetic>(a: A::R, b: A::R, c: A::R)
    requires
        exact_laws::<A>(),
        A::finite(a),
        A::finite(b),
        A::finite(c),
    ensures
        A::difference(A::sum(a, c), A::sum(b, c)) == A::difference(a, b),
{
    reveal(exact_laws);
    let d = A::difference(a, b);
    let shifted = A::sum(b, c);
    assert(A::sum(d, b) == a);
    assert(A::sum(A::sum(d, b), c) == A::sum(d, shifted));
    assert(A::difference(A::sum(d, shifted), shifted) == d);
}

/// Two addends may be swapped.
pub proof fn swap_addends<A: Arithmetic>(a: A::R, b: A::R, c: A::R)
    requires
        exact_laws::<A>(),
        A::finite(a),
        A::finite(b),
        A::finite(c),
    ensures
        A::sum(A::sum(a, b), c) == A::sum(A::sum(a, c), b),
{
    reveal(exact_laws);
    assert(A::sum(A::sum(a, b), c) == A::sum(a, A::sum(b, c)));
    assert(A::sum(b, c) == A::sum(c, b));
    assert(A::sum(A::sum(a, c), b) == A::sum(a, A::sum(c, b)));
}

/// Two sums may be added up in pairs.
pub proof fn sums_in_pairs<A: Arithmetic>(a: A::R, b: A::R, c: A::R, d: A::R)
    requires
        exact_laws::<A>(),
        A::finite(a),
        A::finite(b),
        A::finite(c),
        A::finite(d),
    ensures
        A::sum(A::sum(a, b), A::sum(c, d)) == A::sum(A::sum(a, c), A::sum(b, d)),
{
    reveal(exact_laws);
    let cd = A::sum(c, d);
    let bd = A::sum(b, d);
    assert(A::sum(A::sum(a, b), cd) == A::sum(a, A::sum(b, cd)));
    assert(A::sum(A::sum(b, c), d) == A::sum(b, cd));
    assert(A::sum(b, c) == A::sum(c, b));
    assert(A::sum(A::sum(c, b), d) == A::sum(c, bd));
    assert(A::sum(A::sum(a, c), bd) == A::sum(a, A::sum(c, bd)));
}

/// Two differences may be added up in pairs.
pub proof fn differences_in_pairs<A: Arithmetic>(a: A::R, b: A::R, c: A::R, d: A::R)
    requires
        exact_laws::<A>(),
        A::finite(a),
        A::finite(b),
        A::finite(c),
        A::finite(d),
    ensures
        A::sum(A::difference(a, b), A::difference(c, d)) == A::difference(
            A::sum(a, c),
            A::sum(b, d),
        ),
{
    let x = A::difference(a, b);
    let y = A::difference(c, d);
    stays_finite::<A>(a, b);
    stays_finite::<A>(c, d);
    stays_finite::<A>(x, y);
    stays_finite::<A>(b, d);
    sums_undo::<A>(a, b);
    sums_undo::<A>(c, d);
    sums_in_pairs::<A>(x, y, b, d);
    sums_undo::<A>(A::sum(x, y), A::sum(b, d));
}

/// A factor may be drawn out of a sum.
pub proof fn factor_of_sum<A: Arithmetic>(a: A::R, b: A::R, c: A::R)
    requires
        exact_laws::<A>(),
        A::finite(a),
        A::finite(b),
        A::finite(c),
    ensures
        A::product(A::sum(a, b), c) == A::sum(A::product(a, c), A::product(b, c)),
        A::product(c, A::sum(a, b)) == A::sum(A::product(c, a), A::product(c, b)),
{
    reveal(exact_laws);
    assert(A::product(c, A::sum(a, b)) == A::product(A::sum(a, b), c));
    assert(A::product(c, a) == A::product(a, c));
    assert(A::product(c, b) == A::product(b, c));
}

/// A factor may be drawn out of a difference.
pub proof fn factor_of_difference<A: Arithmetic>(a: A::R, b: A::R, c: A::R)
    requires
        exact_laws::<A>(),
        A::finite(a),
        A::finite(b),
        A::finite(c),
    ensures
        A::product(A::difference(a, b), c) == A::difference(A::product(a, c), A::product(b, c)),
{
    let d = A::difference(a, b);
    stays_finite::<A>(a, b);
    stays_finite::<A>(d, c);
    stays_finite::<A>(b, c);
    sums_undo::<A>(a, b);
    factor_of_sum::<A>(d, b, c);
    sums_undo::<A>(A::product(d, c), A::product(b, c));
}

/// A product with zero is zero.
pub proof fn zero_factor<A: Arithmetic>(a: A::R)
    requires
        exact_laws::<A>(),
        A::finite(a),
    ensures
        A::product(a, A::integer_value(0)) == A::integer_value(0),
        A::product(A::integer_value(0), a) == A::integer_value(0),
{
    let zero = A::integer_value(0);
    whole_numbers::<A>(0);
    stays_finite::<A>(a, zero);
    sums_undo::<A>(zero, zero);
    factor_of_sum::<A>(zero, zero, a);
    sums_undo::<A>(A::product(a, zero), A::product(a, zero));
    factors_in_any_order::<A>(a, zero, zero);
}

/// Factors may be taken in any order.
pub proof fn factors_in_any_order<A: Arithmetic>(a: A::R, b: A::R, c: A::R)
    requires
        exact_laws::<A>(),
        A::finite(a),
        A::finite(b),
        A::finite(c),
    ensures
        A::product(a, b) == A::product(b, a),
        A::product(A::product(a, b), c) == A::product(a, A::product(b, c)),
        A::product(A::product(a, b), c) == A::product(A::product(a, c), b),
{
    reveal(exact_laws);
    assert(A::product(A::product(a, b), c) == A::product(a, A::product(b, c)));
    assert(A::product(b, c) == A::product(c, b));
    assert(A::product(A::product(a, c), b) == A::product(a, A::product(c, b)));
    assert(A::product(a, b) == A::product(b, a));
}

/// A product and a quotient undo each other, in either order.
pub proof fn products_undo<A: Arithmetic>(a: A::R, b: A::R)
    requires
        exact_laws::<A>(),
        A::finite(a),
        A::finite(b),
        b != A::integer_value(0),
    ensures
        A::product(A::quotient(a, b), b) == a,
        A::product(b, A::quotient(a, b)) == a,
        A::quotient(A::product(a, b), b) == a,
        A::quotient(A::product(b, a), b) == a,
{
    reveal(exact_laws);
    let one = A::integer_value(1);
    let inverse = A::quotient(one, b);
    let p = A::product(a, b);
    let q = A::quotient(p, b);
    assert(A::product(inverse, b) == one);
    assert(A::product(b, inverse) == A::product(inverse, b));
    assert(A::product(q, b) == p);
    assert(A::product(A::product(q, b), inverse) == A::product(q, A::product(b, inverse)));
    assert(A::product(A::product(a, b), inverse) == A::product(a, A::product(b, inverse)));
    assert(A::product(q, one) == q);
    assert(A::product(a, one) == a);
    assert(A::product(b, a) == p);
    let r = A::quotient(a, b);
    assert(A::product(r, b) == A::product(b, r));
}

/// To add `c` to what is divided is to add its share to the quotient.
pub proof fn quotient_of_sum<A: Arithmetic>(a: A::R, b: A::R, c: A::R)
    requires
        exact_laws::<A>(),
        A::finite(a),
        A::finite(b),
        A::finite(c),
        b != A::integer_value(0),
    ensures
        A::quotient(A::sum(a, A::product(c, b)), b) == A::sum(A::quotient(a, b), c),
{
    let q = A::quotient(a, b);
    stays_finite::<A>(a, b);
    stays_finite::<A>(q, c);
    products_undo::<A>(a, b);
    factor_of_sum::<A>(q, c, b);
    products_undo::<A>(A::sum(q, c), b);
}

/// Sums of finite numbers are finite.
pub proof fn sum_of_finite<A: Arithmetic>(xs: Seq<A::R>, n: nat)
    requires
        exact_laws::<A>(),
        n <= xs.len(),
        forall|i: int| 0 <= i < xs.len() ==> A::finite(#[trigger] xs[i]),
    ensures
        A::finite(sum_of::<A>(xs, n)),
    decreases n,
{
    whole_numbers::<A>(0);
    if n > 0 {
        sum_of_finite::<A>(xs, (n - 1) as nat);
        stays_finite::<A>(sum_of::<A>(xs, (n - 1) as nat), xs[n - 1]);
    }
}

/// `xs` with `c` added to each.
pub open spec fn raised_by<A: Arithmetic>(xs: Seq<A::R>, c: A::R) -> Seq<A::R> {
    Seq::new(xs.len(), |i: int| A::sum(xs[i], c))
}

/// To add `c` to each of `n` numbers is to add it `n` times to their sum.
pub proof fn sum_of_raised<A: Arithmetic>(xs: Seq<A::R>, c: A::R, n: nat)
    requires
        exact_laws::<A>(),
        n <= xs.len(),
        n <= usize::MAX,
        A::finite(c),
        forall|i: int| 0 <= i < xs.len() ==> A::finite(#[trigger] xs[i]),
    ensures
        A::finite(A::count_value(n as usize)),
        n > 0 ==> A::count_value(n as usize) != A::integer_value(0),
        sum_of::<A>(raised_by::<A>(xs, c), n) == A::sum(
            sum_of::<A>(xs, n),
            A::product(c, A::count_value(n as usize)),
        ),
    decreases n,
{
    let zero = A::integer_value(0);
    let one = A::integer_value(1);
    let count = A::count_value(n as usize);
    assert(A::finite(count) && (n > 0 ==> count != zero) && A::finite(zero) && A::finite(one)) by {
        reveal(exact_laws);
        assert(A::finite(A::integer_value(0)) && A::finite(A::integer_value(1)));
    }
    if n == 0 {
        zero_factor::<A>(c);
        sums_undo::<A>(zero, zero);
        assert(count == zero) by {
            reveal(exact_laws);
        }
    } else {
        let m = (n - 1) as nat;
        let fewer = A::count_value(m as usize);
        sum_of_raised::<A>(xs, c, m);
        assert(count == A::sum(fewer, one) && A::product(c, one) == c) by {
            reveal(exact_laws);
        }
        sum_of_finite::<A>(xs, m);
        stays_finite::<A>(c, fewer);
        factor_of_sum::<A>(fewer, one, c);
        sums_in_pairs::<A>(sum_of::<A>(xs, m), A::product(c, fewer), xs[n - 1], c);
    }
}

/// Numbers of `A` and numbers of the wider system stand for each other.
pub open spec fn widening_laws<A: Arithmetic, D: Widening<A>>() -> bool {
    &&& forall|x: D::R|
        D::finite(x) ==> {
            &&& A::finite(#[trigger] D::narrowed(x))
            &&& D::widened(D::narrowed(x)) == x
        }
    &&& forall|a: A::R|
        A::finite(a) ==> {
            &&& D::finite(#[trigger] D::widened(a))
            &&& D::narrowed(D::widened(a)) == a
        }
    &&& forall|a: A::R, b: A::R|
        A::finite(a) && A::finite(b) ==> D::widened(#[trigger] A::sum(a, b)) == D::sum(
            D::widened(a),
            D::widened(b),
        )
    &&& D::widened(A::integer_value(0)) == D::integer_value(0)
}

/// The opposite of a number is what it takes to zero.
pub open spec fn negation_laws<A: Arithmetic>() -> bool {
    forall|a: A::R|
        A::finite(a) ==> #[trigger] A::negation(a) == A::difference(A::integer_value(0), a)
}

/// Addends may be taken in any order.
pub proof fn addends_in_any_order<A: Arithmetic>(a: A::R, b: A::R, c: A::R)
    requires
        exact_laws::<A>(),
        A::finite(a),
        A::finite(b),
        A::finite(c),
    ensures
        A::sum(a, b) == A::sum(b, a),
        A::sum(A::sum(a, b), c) == A::sum(a, A::sum(b, c)),
{
    reveal(exact_laws);
}

/// The opposite of a number.
pub proof fn opposite<A: Arithmetic>(a: A::R)
    requires
        exact_laws::<A>(),
        negation_laws::<A>(),
        A::finite(a),
    ensures
        A::finite(A::negation(a)),
        A::sum(a, A::negation(a)) == A::integer_value(0),
        A::sum(A::negation(a), a) == A::integer_value(0),
        A::negation(A::negation(a)) == a,
{
    let zero = A::integer_value(0);
    whole_numbers::<A>(0);
    stays_finite::<A>(zero, a);
    let na = A::negation(a);
    stays_finite::<A>(zero, na);
    sums_undo::<A>(zero, a);
    sums_undo::<A>(a, na);
}

/// Opposites in sums and differences.
pub proof fn opposites<A: Arithmetic>(a: A::R, b: A::R)
    requires
        exact_laws::<A>(),
        negation_laws::<A>(),
        A::finite(a),
        A::finite(b),
    ensures
        A::sum(A::negation(a), A::negation(b)) == A::negation(A::sum(a, b)),
        A::sum(a, A::negation(b)) == A::difference(a, b),
        A::difference(A::negation(a), A::negation(b)) == A::negation(A::difference(a, b)),
        A::difference(A::negation(a), b) == A::negation(A::sum(a, b)),
        A::negation(A::difference(a, b)) == A::difference(b, a),
        A::sum(a, b) == A::sum(b, a),
{
    let zero = A::integer_value(0);
    let na = A::negation(a);
    let nb = A::negation(b);
    let ab = A::sum(a, b);
    let d = A::difference(a, b);
    whole_numbers::<A>(0);
    opposite::<A>(a);
    opposite::<A>(b);
    stays_finite::<A>(a, b);
    stays_finite::<A>(na, nb);
    sums_undo::<A>(zero, zero);
    assert(A::sum(na, nb) == A::negation(ab)) by {
        differences_in_pairs::<A>(zero, a, zero, b);
    }
    addends_in_any_order::<A>(a, b, zero);
    assert(A::sum(a, nb) == d) by {
        sums_undo::<A>(a, b);
        addends_in_any_order::<A>(d, b, nb);
        sum_with_zero::<A>(d);
    }
    opposite_difference::<A>(a, b);
    assert(A::difference(na, b) == A::negation(ab)) by {
        let x = A::sum(na, nb);
        addends_in_any_order::<A>(na, nb, b);
        sum_with_zero::<A>(na);
        sums_undo::<A>(x, b);
    }
}

/// Opposites in products.
pub proof fn opposite_factors<A: Arithmetic>(a: A::R, b: A::R)
    requires
        exact_laws::<A>(),
        negation_laws::<A>(),
        A::finite(a),
        A::finite(b),
    ensures
        A::product(A::negation(a), b) == A::negation(A::product(a, b)),
        A::product(a, A::negation(b)) == A::negation(A::product(a, b)),
{
    let zero = A::integer_value(0);
    whole_numbers::<A>(0);
    opposite::<A>(a);
    opposite::<A>(b);
    stays_finite::<A>(a, b);
    factor_of_difference::<A>(zero, a, b);
    zero_factor::<A>(b);
    factor_of_difference::<A>(zero, b, a);
    zero_factor::<A>(a);
    factors_in_any_order::<A>(a, A::negation(b), zero);
    factors_in_any_order::<A>(a, b, zero);
}

/// To swap the operands of a difference gives its opposite.
proof fn opposite_difference<A: Arithmetic>(a: A::R, b: A::R)
    requires
        exact_laws::<A>(),
        negation_laws::<A>(),
        A::finite(a),
        A::finite(b),
    ensures
        A::negation(A::difference(a, b)) == A::difference(b, a),
        A::difference(A::negation(a), A::negation(b)) == A::difference(b, a),
{
    let zero = A::integer_value(0);
    let d = A::difference(a, b);
    let e = A::difference(b, a);
    let nb = A::negation(b);
    whole_numbers::<A>(0);
    opposite::<A>(a);
    opposite::<A>(b);
    stays_finite::<A>(a, b);
    stays_finite::<A>(b, a);
    assert(A::sum(e, d) == zero) by {
        differences_in_pairs::<A>(b, a, a, b);
        addends_in_any_order::<A>(a, b, zero);
        sums_undo::<A>(A::sum(a, b), A::sum(a, b));
    }
    sums_undo::<A>(e, d);
    assert(A::sum(e, nb) == A::negation(a)) by {
        differences_in_pairs::<A>(b, a, zero, b);
        sum_with_zero::<A>(b);
        common_addend::<A>(zero, a, b);
    }
    sums_undo::<A>(e, nb);
}

/// Zero is nothing to add, and one is nothing to multiply by.
pub proof fn sum_with_zero<A: Arithmetic>(a: A::R)
    requires
        exact_laws::<A>(),
        A::finite(a),
    ensures
        A::sum(a, A::integer_value(0)) == a,
        A::sum(A::integer_value(0), a) == a,
        A::difference(a, A::integer_value(0)) == a,
        A::product(a, A::integer_value(1)) == a,
        A::product(A::integer_value(1), a) == a,
{
    let zero = A::integer_value(0);
    let one = A::integer_value(1);
    whole_numbers::<A>(0);
    whole_numbers::<A>(1);
    sums_undo::<A>(a, zero);
    factors_in_any_order::<A>(a, one, one);
    reveal(exact_laws);
    assert(A::sum(a, zero) == a);
    assert(A::difference(A::sum(a, zero), zero) == a);
    assert(A::product(a, one) == a);
}

/// Whether all of `xs` are finite.
pub open spec fn all_finite<A: Arithmetic>(xs: Seq<A::R>) -> bool {
    forall|i: int| 0 <= i < xs.len() ==> A::finite(#[trigger] xs[i])
}

/// A sum depends on the numbers that are added up alone.
pub proof fn sum_of_same<A: Arithmetic>(xs: Seq<A::R>, ys: Seq<A::R>, n: nat)
    requires
        n <= xs.len(),
        n <= ys.len(),
        forall|i: int| 0 <= i < n ==> #[trigger] xs[i] == ys[i],
    ensures
        sum_of::<A>(xs, n) == sum_of::<A>(ys, n),
    decreases n,
{
    if n > 0 {
        sum_of_same::<A>(xs, ys, (n - 1) as nat);
        assert(xs[n - 1] == ys[n - 1]);
    }
}

/// To multiply each of `n` numbers is to multiply their sum.
pub proof fn sum_of_multiples<A: Arithmetic>(xs: Seq<A::R>, ys: Seq<A::R>, k: A::R, n: nat)
    requires
        exact_laws::<A>(),
        all_finite::<A>(xs),
        A::finite(k),
        n <= xs.len(),
        n <= ys.len(),
        forall|i: int| 0 <= i < n ==> #[trigger] ys[i] == A::product(xs[i], k),
    ensures
        sum_of::<A>(ys, n) == A::product(sum_of::<A>(xs, n), k),
    decreases n,
{
    if n == 0 {
        zero_factor::<A>(k);
    } else {
        let m = (n - 1) as nat;
        sum_of_multiples::<A>(xs, ys, k, m);
        sum_of_finite::<A>(xs, m);
        factor_of_sum::<A>(sum_of::<A>(xs, m), xs[n - 1], k);
        assert(ys[n - 1] == A::product(xs[n - 1], k));
    }
}

/// To add up numbers in pairs is to add up their sums.
pub proof fn sum_of_pairs<A: Arithmetic>(
    xs: Seq<A::R>,
    ys: Seq<A::R>,
    zs: Seq<A::R>,
    n: nat,
)
    requires
        exact_laws::<A>(),
        all_finite::<A>(xs),
        all_finite::<A>(ys),
        n <= xs.len(),
        n <= ys.len(),
        n <= zs.len(),
        forall|i: int| 0 <= i < n ==> #[trigger] zs[i] == A::sum(xs[i], ys[i]),
    ensures
        sum_of::<A>(zs, n) == A::sum(sum_of::<A>(xs, n), sum_of::<A>(ys, n)),
    decreases n,
{
    if n == 0 {
        whole_numbers::<A>(0);
        sum_with_zero::<A>(A::integer_value(0));
    } else {
        let m = (n - 1) as nat;
        sum_of_pairs::<A>(xs, ys, zs, m);
        sum_of_finite::<A>(xs, m);
        sum_of_finite::<A>(ys, m);
        assert(zs[n - 1] == A::sum(xs[n - 1], ys[n - 1]));
        sums_in_pairs::<A>(sum_of::<A>(xs, m), sum_of::<A>(ys, m), xs[n - 1], ys[n - 1]);
    }
}

/// Numbers may be added up in two parts.
pub proof fn sum_of_parts<A: Arithmetic>(xs: Seq<A::R>, ys: Seq<A::R>, n: nat)
    requires
        exact_laws::<A>(),
        all_finite::<A>(xs),
        all_finite::<A>(ys),
        n <= ys.len(),
    ensures
        sum_of::<A>(xs + ys, xs.len() + n) == A::sum(
            sum_of::<A>(xs, xs.len()),
            sum_of::<A>(ys, n),
        ),
    decreases n,
{
    sum_of_finite::<A>(xs, xs.len());
    if n == 0 {
        sum_with_zero::<A>(sum_of::<A>(xs, xs.len()));
        sum_of_same::<A>(xs + ys, xs, xs.len());
    } else {
        let m = (n - 1) as nat;
        sum_of_parts::<A>(xs, ys, m);
        sum_of_finite::<A>(ys, m);
        assert((xs + ys)[xs.len() + n - 1] == ys[n - 1]);
        addends_in_any_order::<A>(
            sum_of::<A>(xs, xs.len()),
            sum_of::<A>(ys, m),
            ys[n - 1],
        );
    }
}

/// Numbers may be added up from the last one down.
pub proof fn sum_of_reversed<A: Arithmetic>(xs: Seq<A::R>, ys: Seq<A::R>)
    requires
        exact_laws::<A>(),
        all_finite::<A>(xs),
        xs.len() == ys.len(),
        forall|i: int| 0 <= i < xs.len() ==> #[trigger] ys[i] == xs[xs.len() - 1 - i],
    ensures
        sum_of::<A>(ys, ys.len()) == sum_of::<A>(xs, xs.len()),
    decreases xs.len(),
{
    if xs.len() > 0 {
        let less = xs.drop_last();
        let rest = ys.skip(1);
        let last = xs.last();
        assert(ys[0] == last);
        assert forall|i: int| 0 <= i < less.len() implies #[trigger] rest[i] == less[less.len() - 1
            - i] by {
            assert(ys[i + 1] == xs[xs.len() - 1 - (i + 1)]);
        }
        assert forall|i: int| 0 <= i < less.len() implies A::finite(#[trigger] less[i]) by {
            assert(less[i] == xs[i]);
        }
        assert forall|i: int| 0 <= i < rest.len() implies A::finite(#[trigger] rest[i]) by {
            assert(ys[i + 1] == xs[xs.len() - 1 - (i + 1)]);
        }
        sum_of_reversed::<A>(less, rest);
        let head = seq![last];
        assert(all_finite::<A>(head));
        assert(ys =~= head + rest);
        sum_of_parts::<A>(head, rest, rest.len());
        sum_of_finite::<A>(less, less.len());
        sum_of_same::<A>(less, xs, less.len());
        assert(sum_of::<A>(head, 1) == last) by {
            reveal_with_fuel(sum_of, 2);
            sum_with_zero::<A>(last);
        }
        addends_in_any_order::<A>(last, sum_of::<A>(less, less.len()), last);
    }
}

/// Zeros add nothing.
pub proof fn sum_of_zeros<A: Arithmetic>(xs: Seq<A::R>, n: nat)
    requires
        exact_laws::<A>(),
        n <= xs.len(),
        forall|i: int| 0 <= i < n ==> #[trigger] xs[i] == A::integer_value(0),
    ensures
        sum_of::<A>(xs, n) == A::integer_value(0),
    decreases n,
{
    if n > 0 {
        sum_of_zeros::<A>(xs, (n - 1) as nat);
        whole_numbers::<A>(0);
        sum_with_zero::<A>(A::integer_value(0));
        assert(xs[n - 1] == A::integer_value(0));
    }
}

/// Two weights that add up to one make of a number that number.
pub proof fn weights_keep<A: Arithmetic>(x: A::R, k: A::R)
    requires
        exact_laws::<A>(),
        A::finite(x),
        A::finite(k),
    ensures
        A::sum(
            A::product(k, x),
            A::product(A::difference(A::integer_value(1), k), x),
        ) == x,
        A::sum(
            A::product(x, A::difference(A::integer_value(1), k)),
            A::product(x, k),
        ) == x,
{
    let one = A::integer_value(1);
    whole_numbers::<A>(1);
    stays_finite::<A>(one, k);
    let rest = A::difference(one, k);
    sums_undo::<A>(one, k);
    factor_of_sum::<A>(k, rest, x);
    factor_of_sum::<A>(rest, k, x);
    sum_with_zero::<A>(x);
}

/// Counts are finite, only none is zero, and each is one more than the one
/// before.
pub proof fn counts<A: Arithmetic>(n: usize)
    requires
        exact_laws::<A>(),
    ensures
        A::finite(A::count_value(n)),
        n != 0 ==> A::count_value(n) != A::integer_value(0),
        A::count_value(0) == A::integer_value(0),
        n > 0 ==> A::count_value(n) == A::sum(
            A::count_value((n - 1) as usize),
            A::integer_value(1),
        ),
{
    reveal(exact_laws);
}

} // verus!
