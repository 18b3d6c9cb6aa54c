//! Path loss in free space, and the distance that a path loss stands for.
//!
//! The loss between two isotropic antennas is `20 log10(d) + 20 log10(f) -
//! 20 log10(c / 4 pi)` decibels, with the distance `d` in metres, the
//! frequency `f` in hertz and the speed of light `c` in metres a second. Real
//! paths lose more, so that a distance is an upper bound.

use crate::arith::{is_positive_finite, positive_finite, Arithmetic};
use crate::exact::{
    addends_in_any_order, exact_laws, factor_of_sum, logarithm_laws, products_undo, stays_finite,
    sum_with_zero, sums_undo, swap_addends, whole_numbers, zero_factor,
};
use vstd::prelude::*;

verus! {

/// Speed of light, in metres a second.
pub const C_M_PER_S: i64 = 299_792_458;

/// `20 log10(c / 4 pi)`.
pub open spec fn loss_constant<D: Arithmetic>() -> D::R {
    D::product(
        D::integer_value(20),
        D::decimal_log(
            D::quotient(
                D::integer_value(C_M_PER_S),
                D::product(D::integer_value(4), D::half_turn()),
            ),
        ),
    )
}

/// `20 log10(c / 4 pi)`, about 147.55 dB.
pub fn fspl_constant_db<D: Arithmetic>() -> (r: D::R)
    ensures
        r == loss_constant::<D>(),
{
    let sphere: D::R = D::times(D::integer(4), D::pi());
    D::times(D::integer(20), D::log10(D::over(D::integer(C_M_PER_S), sphere)))
}

/// `watts` in decibels over a milliwatt: `30 + 10 log10(watts)`, and minus
/// infinity for a power that is not positive.
pub open spec fn in_dbm<D: Arithmetic>(watts: D::R) -> D::R {
    if D::at_most(watts, D::integer_value(0)) {
        D::lowest()
    } else {
        D::sum(
            D::integer_value(30),
            D::product(D::integer_value(10), D::decimal_log(watts)),
        )
    }
}

/// Converts a power from watts to decibels over a milliwatt.
pub fn watts_to_dbm<D: Arithmetic>(watts: D::R) -> (r: D::R)
    ensures
        r == in_dbm::<D>(watts),
{
    if D::le(watts, D::integer(0)) {
        return D::neg_infinity();
    }
    D::plus(D::integer(30), D::times(D::integer(10), D::log10(watts)))
}

/// `dbm` decibels over a milliwatt in watts: ten to the power `(dbm - 30) / 10`.
pub open spec fn in_watts<D: Arithmetic>(dbm: D::R) -> D::R {
    D::decimal_power(
        D::quotient(D::difference(dbm, D::integer_value(30)), D::integer_value(10)),
    )
}

/// Converts a power from decibels over a milliwatt to watts.
pub fn dbm_to_watts<D: Arithmetic>(dbm: D::R) -> (r: D::R)
    ensures
        r == in_watts::<D>(dbm),
{
    D::exp10(D::over(D::minus(dbm, D::integer(30)), D::integer(10)))
}

/// The path loss, in decibels; undefined unless both arguments are positive.
pub open spec fn path_loss<D: Arithmetic>(distance_m: D::R, frequency_hz: D::R) -> D::R {
    let zero = D::integer_value(0);
    let twenty = D::integer_value(20);
    if D::at_most(distance_m, zero) || D::at_most(frequency_hz, zero) {
        D::undefined()
    } else {
        D::difference(
            D::sum(
                D::product(twenty, D::decimal_log(distance_m)),
                D::product(twenty, D::decimal_log(frequency_hz)),
            ),
            loss_constant::<D>(),
        )
    }
}

/// The path loss over `distance_m` metres at `frequency_hz`, in decibels.
pub fn fspl_db<D: Arithmetic>(distance_m: D::R, frequency_hz: D::R) -> (r: D::R)
    ensures
        r == path_loss::<D>(distance_m, frequency_hz),
{
    let zero: D::R = D::integer(0);
    let twenty: D::R = D::integer(20);
    if D::le(distance_m, zero) || D::le(frequency_hz, zero) {
        return D::nan();
    }
    D::minus(
        D::plus(
            D::times(twenty, D::log10(distance_m)),
            D::times(twenty, D::log10(frequency_hz)),
        ),
        fspl_constant_db::<D>(),
    )
}

/// The distance that a signal of `erp_dbm` has come when it is received at
/// `received_dbm`: undefined unless the frequency is positive and finite and
/// the levels are finite; zero where nothing is lost, and where there is no
/// transmitter at all.
pub open spec fn distance<D: Arithmetic>(
    erp_dbm: D::R,
    received_dbm: D::R,
    frequency_hz: D::R,
) -> D::R {
    let zero = D::integer_value(0);
    let twenty = D::integer_value(20);
    let loss = D::difference(erp_dbm, received_dbm);
    if !positive_finite::<D>(frequency_hz) || !D::finite(received_dbm) {
        D::undefined()
    } else if D::equal(erp_dbm, D::lowest()) {
        zero
    } else if !D::finite(erp_dbm) {
        D::undefined()
    } else if D::at_most(loss, zero) {
        zero
    } else {
        D::decimal_power(
            D::quotient(
                D::sum(
                    D::difference(loss, D::product(twenty, D::decimal_log(frequency_hz))),
                    loss_constant::<D>(),
                ),
                twenty,
            ),
        )
    }
}

/// The distance, in metres, that a signal of `erp_dbm` has come when it is
/// received at `received_dbm`.
pub fn fspl_distance_m<D: Arithmetic>(
    erp_dbm: D::R,
    received_dbm: D::R,
    frequency_hz: D::R,
) -> (r: D::R)
    ensures
        r == distance::<D>(erp_dbm, received_dbm, frequency_hz),
{
    if !is_positive_finite::<D>(frequency_hz) || !D::is_finite(received_dbm) {
        return D::nan();
    }
    if D::same(erp_dbm, D::neg_infinity()) {
        return D::integer(0);
    }
    if !D::is_finite(erp_dbm) {
        return D::nan();
    }
    let loss: D::R = D::minus(erp_dbm, received_dbm);
    if D::le(loss, D::integer(0)) {
        return D::integer(0);
    }
    let twenty: D::R = D::integer(20);
    let exponent: D::R = D::over(
        D::plus(
            D::minus(loss, D::times(twenty, D::log10(frequency_hz))),
            fspl_constant_db::<D>(),
        ),
        twenty,
    );
    D::exp10(exponent)
}

/// Without a transmitter there is no distance: the level of a power that is
/// not positive stands for zero metres.
pub proof fn no_transmitter_no_distance<D: Arithmetic>(
    watts: D::R,
    received_dbm: D::R,
    frequency_hz: D::R,
)
    requires
        D::at_most(watts, D::integer_value(0)),
        D::finite(received_dbm),
        positive_finite::<D>(frequency_hz),
        D::equal(D::lowest(), D::lowest()),
    ensures
        distance::<D>(in_dbm::<D>(watts), received_dbm, frequency_hz) == D::integer_value(0),
{
}

/// A power in watts is given back by way of its level, where numbers are exact.
pub proof fn watts_round_trip<D: Arithmetic>(watts: D::R)
    requires
        exact_laws::<D>(),
        logarithm_laws::<D>(),
        positive_finite::<D>(watts),
    ensures
        in_watts::<D>(in_dbm::<D>(watts)) == watts,
{
    let ten = D::integer_value(10);
    let log = D::decimal_log(watts);
    whole_numbers::<D>(10);
    whole_numbers::<D>(30);
    stays_finite::<D>(ten, log);
    sums_undo::<D>(D::product(ten, log), D::integer_value(30));
    products_undo::<D>(log, ten);
}

/// A level is given back by way of its power in watts, where numbers are exact.
pub proof fn dbm_round_trip<D: Arithmetic>(dbm: D::R)
    requires
        exact_laws::<D>(),
        logarithm_laws::<D>(),
        D::finite(dbm),
    ensures
        in_dbm::<D>(in_watts::<D>(dbm)) == dbm,
{
    let ten = D::integer_value(10);
    let thirty = D::integer_value(30);
    let above = D::difference(dbm, thirty);
    whole_numbers::<D>(10);
    whole_numbers::<D>(30);
    stays_finite::<D>(dbm, thirty);
    stays_finite::<D>(above, ten);
    products_undo::<D>(above, ten);
    sums_undo::<D>(dbm, thirty);
    assert(positive_finite::<D>(D::decimal_power(D::quotient(above, ten))));
}

/// The distance at which a path loss arises is given back by that loss, where
/// numbers are exact and something is lost.
pub proof fn distance_round_trip<D: Arithmetic>(
    distance_m: D::R,
    frequency_hz: D::R,
    erp_dbm: D::R,
    received_dbm: D::R,
)
    requires
        exact_laws::<D>(),
        logarithm_laws::<D>(),
        positive_finite::<D>(distance_m),
        positive_finite::<D>(frequency_hz),
        D::finite(loss_constant::<D>()),
        D::finite(erp_dbm),
        D::finite(received_dbm),
        !D::equal(erp_dbm, D::lowest()),
        D::difference(erp_dbm, received_dbm) == path_loss::<D>(distance_m, frequency_hz),
        !D::at_most(path_loss::<D>(distance_m, frequency_hz), D::integer_value(0)),
    ensures
        distance::<D>(erp_dbm, received_dbm, frequency_hz) == distance_m,
{
    let twenty = D::integer_value(20);
    let constant = loss_constant::<D>();
    let far = D::product(twenty, D::decimal_log(distance_m));
    let fast = D::product(twenty, D::decimal_log(frequency_hz));
    let all = D::sum(far, fast);
    let loss = D::difference(all, constant);
    whole_numbers::<D>(20);
    stays_finite::<D>(twenty, D::decimal_log(distance_m));
    stays_finite::<D>(twenty, D::decimal_log(frequency_hz));
    stays_finite::<D>(far, fast);
    stays_finite::<D>(all, constant);
    assert(D::sum(D::difference(loss, fast), constant) == far) by {
        let rest = D::difference(loss, fast);
        stays_finite::<D>(loss, fast);
        stays_finite::<D>(rest, constant);
        sums_undo::<D>(all, constant);
        sums_undo::<D>(loss, fast);
        sums_undo::<D>(far, fast);
        sums_undo::<D>(D::sum(rest, constant), fast);
        swap_addends::<D>(rest, constant, fast);
    }
    products_undo::<D>(D::decimal_log(distance_m), twenty);
}

/// A path loss is given back by the distance that it stands for, where numbers
/// are exact and something is lost.
pub proof fn loss_round_trip<D: Arithmetic>(
    erp_dbm: D::R,
    received_dbm: D::R,
    frequency_hz: D::R,
)
    requires
        exact_laws::<D>(),
        logarithm_laws::<D>(),
        positive_finite::<D>(frequency_hz),
        D::finite(loss_constant::<D>()),
        D::finite(erp_dbm),
        D::finite(received_dbm),
        !D::equal(erp_dbm, D::lowest()),
        !D::at_most(D::difference(erp_dbm, received_dbm), D::integer_value(0)),
    ensures
        path_loss::<D>(distance::<D>(erp_dbm, received_dbm, frequency_hz), frequency_hz)
            == D::difference(erp_dbm, received_dbm),
{
    let twenty = D::integer_value(20);
    let constant = loss_constant::<D>();
    let loss = D::difference(erp_dbm, received_dbm);
    let fast = D::product(twenty, D::decimal_log(frequency_hz));
    let rest = D::difference(loss, fast);
    let far = D::sum(rest, constant);
    let exponent = D::quotient(far, twenty);
    whole_numbers::<D>(20);
    stays_finite::<D>(erp_dbm, received_dbm);
    stays_finite::<D>(twenty, D::decimal_log(frequency_hz));
    stays_finite::<D>(loss, fast);
    stays_finite::<D>(rest, constant);
    stays_finite::<D>(far, twenty);
    products_undo::<D>(far, twenty);
    assert(positive_finite::<D>(D::decimal_power(exponent)));
    assert(D::difference(D::sum(far, fast), constant) == loss) by {
        sums_undo::<D>(loss, fast);
        swap_addends::<D>(rest, constant, fast);
        sums_undo::<D>(loss, constant);
    }
}

/// The logarithm of ten times a number is one more.
pub open spec fn tenfold_is_one_more<D: Arithmetic>(x: D::R) -> bool {
    D::decimal_log(D::product(x, D::integer_value(10))) == D::sum(
        D::decimal_log(x),
        D::integer_value(1),
    )
}

/// Ten times the power is ten decibels more.
pub proof fn tenfold_power_is_ten_decibels<D: Arithmetic>(watts: D::R)
    requires
        exact_laws::<D>(),
        tenfold_is_one_more::<D>(watts),
        D::finite(D::decimal_log(watts)),
        !D::at_most(watts, D::integer_value(0)),
        !D::at_most(D::product(watts, D::integer_value(10)), D::integer_value(0)),
    ensures
        in_dbm::<D>(D::product(watts, D::integer_value(10))) == D::sum(
            in_dbm::<D>(watts),
            D::integer_value(10),
        ),
{
    let ten = D::integer_value(10);
    let log = D::decimal_log(watts);
    whole_numbers::<D>(10);
    whole_numbers::<D>(30);
    whole_numbers::<D>(1);
    stays_finite::<D>(ten, log);
    factor_of_sum::<D>(log, D::integer_value(1), ten);
    sum_with_zero::<D>(ten);
    addends_in_any_order::<D>(D::integer_value(30), D::product(ten, log), ten);
}

/// One watt is thirty decibels over a milliwatt.
pub proof fn one_watt_is_thirty_dbm<D: Arithmetic>()
    requires
        exact_laws::<D>(),
        D::decimal_log(D::integer_value(1)) == D::integer_value(0),
        !D::at_most(D::integer_value(1), D::integer_value(0)),
    ensures
        in_dbm::<D>(D::integer_value(1)) == D::integer_value(30),
{
    whole_numbers::<D>(10);
    whole_numbers::<D>(30);
    zero_factor::<D>(D::integer_value(10));
    sum_with_zero::<D>(D::integer_value(30));
}

/// Ten times the distance, or ten times the frequency, is a loss of twenty
/// decibels more.
pub proof fn tenfold_distance_is_twenty_decibels<D: Arithmetic>(
    distance_m: D::R,
    frequency_hz: D::R,
)
    requires
        exact_laws::<D>(),
        tenfold_is_one_more::<D>(distance_m),
        tenfold_is_one_more::<D>(frequency_hz),
        D::finite(D::decimal_log(distance_m)),
        D::finite(D::decimal_log(frequency_hz)),
        D::finite(
            D::decimal_log(
                D::quotient(
                    D::integer_value(299_792_458),
                    D::product(D::integer_value(4), D::half_turn()),
                ),
            ),
        ),
        !D::at_most(distance_m, D::integer_value(0)),
        !D::at_most(frequency_hz, D::integer_value(0)),
        !D::at_most(D::product(distance_m, D::integer_value(10)), D::integer_value(0)),
        !D::at_most(D::product(frequency_hz, D::integer_value(10)), D::integer_value(0)),
    ensures
        path_loss::<D>(D::product(distance_m, D::integer_value(10)), frequency_hz) == D::sum(
            path_loss::<D>(distance_m, frequency_hz),
            D::integer_value(20),
        ),
        path_loss::<D>(distance_m, D::product(frequency_hz, D::integer_value(10))) == D::sum(
            path_loss::<D>(distance_m, frequency_hz),
            D::integer_value(20),
        ),
{
    let twenty = D::integer_value(20);
    let one = D::integer_value(1);
    let a = D::decimal_log(distance_m);
    let b = D::decimal_log(frequency_hz);
    let k = loss_constant::<D>();
    whole_numbers::<D>(20);
    whole_numbers::<D>(1);
    let log = D::decimal_log(
        D::quotient(
            D::integer_value(299_792_458),
            D::product(D::integer_value(4), D::half_turn()),
        ),
    );
    stays_finite::<D>(twenty, log);
    let x = D::product(twenty, a);
    let y = D::product(twenty, b);
    stays_finite::<D>(twenty, a);
    stays_finite::<D>(twenty, b);
    factor_of_sum::<D>(a, one, twenty);
    factor_of_sum::<D>(b, one, twenty);
    sum_with_zero::<D>(twenty);
    let xy = D::sum(x, y);
    stays_finite::<D>(x, y);
    swap_addends::<D>(x, twenty, y);
    addends_in_any_order::<D>(x, y, twenty);
    let d = D::difference(xy, k);
    stays_finite::<D>(xy, k);
    stays_finite::<D>(d, twenty);
    stays_finite::<D>(xy, twenty);
    sums_undo::<D>(xy, k);
    swap_addends::<D>(d, twenty, k);
    sums_undo::<D>(D::sum(d, twenty), k);
}

/// The loss is nothing where the distance, in wavelengths, is one part in four
/// half turns: where distance times frequency is the speed of light over
/// `4 pi`.
pub proof fn no_loss_at_a_part_of_a_wavelength<D: Arithmetic>(
    distance_m: D::R,
    frequency_hz: D::R,
)
    requires
        exact_laws::<D>(),
        D::finite(D::decimal_log(distance_m)),
        D::finite(D::decimal_log(frequency_hz)),
        !D::at_most(distance_m, D::integer_value(0)),
        !D::at_most(frequency_hz, D::integer_value(0)),
        D::decimal_log(D::product(distance_m, frequency_hz)) == D::sum(
            D::decimal_log(distance_m),
            D::decimal_log(frequency_hz),
        ),
        D::product(distance_m, frequency_hz) == D::quotient(
            D::integer_value(299_792_458),
            D::product(D::integer_value(4), D::half_turn()),
        ),
    ensures
        path_loss::<D>(distance_m, frequency_hz) == D::integer_value(0),
{
    let twenty = D::integer_value(20);
    let a = D::decimal_log(distance_m);
    let b = D::decimal_log(frequency_hz);
    whole_numbers::<D>(20);
    factor_of_sum::<D>(a, b, twenty);
    stays_finite::<D>(a, b);
    stays_finite::<D>(twenty, D::sum(a, b));
    let k = D::product(twenty, D::sum(a, b));
    sums_undo::<D>(k, k);
}

} // verus!
