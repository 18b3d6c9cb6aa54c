//! Design of FIR filter taps.
//!
//! Frequencies are in hertz. Taps are designed in the wide number system `D`
//! and handed out in the number system `A` of the samples.

use crate::arith::{Arithmetic, Widening, got, got_instead, is_positive_finite, positive_finite};
use crate::exact::{
    differences_in_pairs, exact_laws, factor_of_difference, factor_of_sum, factors_in_any_order,
    products_undo, stays_finite, sum_with_zero, sums_undo, whole_numbers, widening_laws,
    zero_factor,
};
use crate::kernel::sum_of;
use crate::math::{angular_step, hz_to_rads, sinc, sine_over};
use crate::types::{DspError, Fault, decimal, decimal_text, invalid, outcome};
use crate::window::{
    kaiser, kaiser_at, kaiser_beta, kaiser_length, kaiser_shape, kaiser_taps, nuttall, nuttall_at,
};
use vstd::prelude::*;
use vstd::string::StringExecFns;

verus! {

/// Tenths of taps for each ratio of sample rate to transition width.
pub const TAP_COUNT_FACTOR_TENTHS: i64 = 38;

/// The largest number of taps that a design may have.
pub const MAX_TAP_COUNT: usize = 1_000_000;

/// Whether `r` is the outcome `spec` of a design.
pub open spec fn designs<T>(
    r: Result<Vec<T>, DspError>,
    spec: Result<Seq<T>, Fault>,
) -> bool {
    match (r, spec) {
        (Ok(v), Ok(s)) => v@ == s,
        (Err(e), Err(f)) => e@ == f,
        _ => false,
    }
}

/// The frequency `x`, called `name`, is not below the Nyquist frequency.
pub open spec fn beyond_nyquist<D: Arithmetic>(name: Seq<char>, x: D::R, nyquist: D::R) -> Fault {
    Fault::InvalidParameter(
        name + " ("@ + D::text(x) + ") must be less than Nyquist ("@ + D::text(nyquist) + ")"@,
    )
}

/// [`beyond_nyquist`].
fn reaches_nyquist<D: Arithmetic>(name: &str, x: D::R, nyquist: D::R) -> (e: DspError)
    ensures
        e@ == beyond_nyquist::<D>(name@, x, nyquist),
{
    DspError::InvalidParameter(
        String::from_str(name)
            .concat(" (")
            .concat(D::to_text(x).as_str())
            .concat(") must be less than Nyquist (")
            .concat(D::to_text(nyquist).as_str())
            .concat(")"),
    )
}

/// The number of taps that a transition band of `transition_width` asks for:
/// `3.8 * sample_rate / transition_width`, rounded down.
pub open spec fn tap_estimate<D: Arithmetic>(
    transition_width: D::R,
    sample_rate: D::R,
) -> Result<usize, Fault> {
    let count = D::natural_part(
        D::quotient(
            D::product(D::fraction_value(TAP_COUNT_FACTOR_TENTHS, 10), sample_rate),
            transition_width,
        ),
    );
    if !positive_finite::<D>(transition_width) {
        Err(got::<D>("transition_width must be positive and finite"@, transition_width))
    } else if !positive_finite::<D>(sample_rate) {
        Err(got::<D>("sample_rate must be positive and finite"@, sample_rate))
    } else if count == 0 {
        Err(
            Fault::InvalidParameter("transition_width too large for sample_rate — estimated 0 taps"@),
        )
    } else if count > MAX_TAP_COUNT {
        Err(Fault::InvalidParameter(
            "estimated tap count ("@ + decimal(count as nat) + ") exceeds maximum ("@
                + decimal(MAX_TAP_COUNT as nat) + ")"@,
        ))
    } else {
        Ok(count as usize)
    }
}

/// Estimates the number of taps for a transition band.
pub fn estimate_tap_count<D: Arithmetic>(transition_width: D::R, sample_rate: D::R) -> (r: Result<
    usize,
    DspError,
>)
    ensures
        outcome(r) == tap_estimate::<D>(transition_width, sample_rate),
{
    if !is_positive_finite::<D>(transition_width) {
        return Err(
            got_instead::<D>("transition_width must be positive and finite", transition_width),
        );
    }
    if !is_positive_finite::<D>(sample_rate) {
        return Err(got_instead::<D>("sample_rate must be positive and finite", sample_rate));
    }
    let count: u64 = D::to_u64(
        D::over(
            D::times(D::fraction(TAP_COUNT_FACTOR_TENTHS, 10), sample_rate),
            transition_width,
        ),
    );
    if count == 0 {
        return Err(
            invalid("transition_width too large for sample_rate — estimated 0 taps"),
        );
    }
    if count > MAX_TAP_COUNT as u64 {
        return Err(
            DspError::InvalidParameter(
                String::from_str("estimated tap count (")
                    .concat(decimal_text(count).as_str())
                    .concat(") exceeds maximum (")
                    .concat(decimal_text(MAX_TAP_COUNT as u64).as_str())
                    .concat(")"),
            ),
        );
    }
    Ok(count as usize)
}

/// `count`, made odd by one more where `odd` asks for it.
pub open spec fn odd_count(count: usize, odd: bool) -> int {
    if odd && count % 2 == 0 {
        count + 1
    } else {
        count as int
    }
}

/// Half of `count`.
pub open spec fn half_count<D: Arithmetic>(count: usize) -> D::R {
    D::quotient(D::count_value(count), D::integer_value(2))
}

/// Where tap `i` of `count` lies from the middle: `i - count / 2 + 1/2`.
pub open spec fn centred<D: Arithmetic>(i: usize, count: usize) -> D::R {
    D::sum(
        D::difference(D::count_value(i), half_count::<D>(count)),
        D::fraction_value(1, 2),
    )
}

fn centre<D: Arithmetic>(i: usize, half: D::R) -> (r: D::R)
    ensures
        r == D::sum(D::difference(D::count_value(i), half), D::fraction_value(1, 2)),
{
    D::plus(D::minus(D::count(i), half), D::fraction(1, 2))
}

/// The Nuttall window, with the sign changed at every odd point where
/// `alternate` asks for it.
pub open spec fn shaped<D: Arithmetic>(n: D::R, len: D::R, alternate: bool) -> D::R {
    if alternate {
        D::product(
            nuttall_at::<D>(n, len),
            if D::integer_part(D::rounded(n)) as int % 2 != 0 {
                D::integer_value((-1) as i64)
            } else {
                D::integer_value(1)
            },
        )
    } else {
        nuttall_at::<D>(n, len)
    }
}

fn shape<D: Arithmetic>(n: D::R, len: D::R, alternate: bool) -> (r: D::R)
    ensures
        r == shaped::<D>(n, len, alternate),
{
    if alternate {
        let whole: i64 = D::to_i64(D::round(n));
        let odd: bool = match whole.checked_rem_euclid(2) {
            Some(rest) => rest != 0,
            None => false,
        };
        let sign: D::R = if odd {
            D::integer(-1)
        } else {
            D::integer(1)
        };
        D::times(nuttall::<D>(n, len), sign)
    } else {
        nuttall::<D>(n, len)
    }
}

/// Tap `i` of a windowed sinc low-pass filter: `sinc(t omega)` under the
/// window, scaled by `omega / pi`, at the distance `t` from the middle.
pub open spec fn windowed_sinc_tap<A: Arithmetic, D: Widening<A>>(
    i: usize,
    count: usize,
    cutoff: D::R,
    sample_rate: D::R,
    alternate: bool,
) -> A::R {
    let omega = angular_step::<D>(cutoff, sample_rate);
    let t = centred::<D>(i, count);
    D::narrowed(
        D::product(
            D::product(
                sine_over::<D>(D::product(t, omega)),
                shaped::<D>(
                    D::difference(t, half_count::<D>(count)),
                    D::count_value(count),
                    alternate,
                ),
            ),
            D::quotient(omega, D::half_turn()),
        ),
    )
}

/// All `count` taps of a windowed sinc filter.
pub open spec fn windowed_sinc_taps<A: Arithmetic, D: Widening<A>>(
    count: usize,
    cutoff: D::R,
    sample_rate: D::R,
    alternate: bool,
) -> Seq<A::R> {
    Seq::new(
        count as nat,
        |i: int| windowed_sinc_tap::<A, D>(i as usize, count, cutoff, sample_rate, alternate),
    )
}

fn windowed_sinc<A: Arithmetic, D: Widening<A>>(
    count: usize,
    cutoff: D::R,
    sample_rate: D::R,
    alternate: bool,
) -> (taps: Vec<A::R>)
    ensures
        taps@ == windowed_sinc_taps::<A, D>(count, cutoff, sample_rate, alternate),
{
    let omega: D::R = hz_to_rads::<D>(cutoff, sample_rate);
    let len: D::R = D::count(count);
    let half: D::R = D::over(len, D::integer(2));
    let correction: D::R = D::over(omega, D::pi());
    let mut taps: Vec<A::R> = Vec::with_capacity(count);
    let mut i: usize = 0;
    while i < count
        invariant
            i <= count,
            omega == angular_step::<D>(cutoff, sample_rate),
            len == D::count_value(count),
            half == half_count::<D>(count),
            correction == D::quotient(omega, D::half_turn()),
            taps@ =~= windowed_sinc_taps::<A, D>(count, cutoff, sample_rate, alternate).take(
                i as int,
            ),
        decreases count - i,
    {
        let t: D::R = centre::<D>(i, half);
        let val: D::R = D::times(
            D::times(
                sinc::<D>(D::times(t, omega)),
                shape::<D>(D::minus(t, half), len, alternate),
            ),
            correction,
        );
        taps.push(D::narrow(val));
        i = i + 1;
    }
    taps
}

/// What [`low_pass`] designs.
pub open spec fn low_pass_design<A: Arithmetic, D: Widening<A>>(
    cutoff: D::R,
    transition_width: D::R,
    sample_rate: D::R,
    odd_tap_count: bool,
) -> Result<Seq<A::R>, Fault> {
    let nyquist = D::quotient(sample_rate, D::integer_value(2));
    if !positive_finite::<D>(cutoff) {
        Err(got::<D>("cutoff must be positive and finite"@, cutoff))
    } else if D::at_most(nyquist, cutoff) {
        Err(beyond_nyquist::<D>("cutoff"@, cutoff, nyquist))
    } else {
        match tap_estimate::<D>(transition_width, sample_rate) {
            Err(e) => Err(e),
            Ok(count) => Ok(
                windowed_sinc_taps::<A, D>(
                    odd_count(count, odd_tap_count) as usize,
                    cutoff,
                    sample_rate,
                    false,
                ),
            ),
        }
    }
}

/// Designs a low-pass filter by the windowed sinc method, with a Nuttall
/// window.
pub fn low_pass<A: Arithmetic, D: Widening<A>>(
    cutoff: D::R,
    transition_width: D::R,
    sample_rate: D::R,
    odd_tap_count: bool,
) -> (r: Result<Vec<A::R>, DspError>)
    ensures
        designs(r, low_pass_design::<A, D>(cutoff, transition_width, sample_rate, odd_tap_count)),
{
    if !is_positive_finite::<D>(cutoff) {
        return Err(got_instead::<D>("cutoff must be positive and finite", cutoff));
    }
    let nyquist: D::R = D::over(sample_rate, D::integer(2));
    if D::le(nyquist, cutoff) {
        return Err(reaches_nyquist::<D>("cutoff", cutoff, nyquist));
    }
    let mut count: usize = match estimate_tap_count::<D>(transition_width, sample_rate) {
        Ok(count) => count,
        Err(e) => {
            return Err(e);
        },
    };
    if odd_tap_count && count % 2 == 0 {
        count = count + 1;
    }
    Ok(windowed_sinc::<A, D>(count, cutoff, sample_rate, false))
}

/// What [`high_pass`] designs.
pub open spec fn high_pass_design<A: Arithmetic, D: Widening<A>>(
    cutoff: D::R,
    transition_width: D::R,
    sample_rate: D::R,
) -> Result<Seq<A::R>, Fault> {
    let nyquist = D::quotient(sample_rate, D::integer_value(2));
    if !positive_finite::<D>(cutoff) {
        Err(got::<D>("cutoff must be positive and finite"@, cutoff))
    } else if D::at_most(nyquist, cutoff) {
        Err(beyond_nyquist::<D>("cutoff"@, cutoff, nyquist))
    } else {
        match tap_estimate::<D>(transition_width, sample_rate) {
            Err(e) => Err(e),
            Ok(count) => Ok(
                windowed_sinc_taps::<A, D>(
                    odd_count(count, true) as usize,
                    D::difference(nyquist, cutoff),
                    sample_rate,
                    true,
                ),
            ),
        }
    }
}

/// Designs a high-pass filter: a low-pass filter with the sign of every other
/// tap changed. The number of taps is odd.
pub fn high_pass<A: Arithmetic, D: Widening<A>>(
    cutoff: D::R,
    transition_width: D::R,
    sample_rate: D::R,
) -> (r: Result<Vec<A::R>, DspError>)
    ensures
        designs(r, high_pass_design::<A, D>(cutoff, transition_width, sample_rate)),
{
    if !is_positive_finite::<D>(cutoff) {
        return Err(got_instead::<D>("cutoff must be positive and finite", cutoff));
    }
    let nyquist: D::R = D::over(sample_rate, D::integer(2));
    if D::le(nyquist, cutoff) {
        return Err(reaches_nyquist::<D>("cutoff", cutoff, nyquist));
    }
    let mut count: usize = match estimate_tap_count::<D>(transition_width, sample_rate) {
        Ok(count) => count,
        Err(e) => {
            return Err(e);
        },
    };
    if count % 2 == 0 {
        count = count + 1;
    }
    Ok(windowed_sinc::<A, D>(count, D::minus(nyquist, cutoff), sample_rate, true))
}

/// Tap `i` of a band-pass filter: a windowed sinc of half the band's width,
/// moved to the middle of the band by `2 cos(offset t)`.
pub open spec fn band_pass_tap<A: Arithmetic, D: Widening<A>>(
    i: usize,
    count: usize,
    band_start: D::R,
    band_stop: D::R,
    sample_rate: D::R,
) -> A::R {
    let offset = angular_step::<D>(D::middle(band_start, band_stop), sample_rate);
    let omega = angular_step::<D>(
        D::quotient(D::difference(band_stop, band_start), D::integer_value(2)),
        sample_rate,
    );
    let t = centred::<D>(i, count);
    D::narrowed(
        D::product(
            D::product(
                D::product(
                    sine_over::<D>(D::product(t, omega)),
                    nuttall_at::<D>(
                        D::difference(t, half_count::<D>(count)),
                        D::count_value(count),
                    ),
                ),
                D::quotient(omega, D::half_turn()),
            ),
            D::product(D::integer_value(2), D::cosine(D::product(offset, t))),
        ),
    )
}

/// What [`band_pass`] designs.
pub open spec fn band_pass_design<A: Arithmetic, D: Widening<A>>(
    band_start: D::R,
    band_stop: D::R,
    transition_width: D::R,
    sample_rate: D::R,
    odd_tap_count: bool,
) -> Result<Seq<A::R>, Fault> {
    let nyquist = D::quotient(sample_rate, D::integer_value(2));
    if D::at_most(band_stop, band_start) {
        Err(Fault::InvalidParameter("band_stop must be greater than band_start"@))
    } else if !positive_finite::<D>(band_start) {
        Err(got::<D>("band_start must be positive and finite"@, band_start))
    } else if !positive_finite::<D>(band_stop) {
        Err(got::<D>("band_stop must be positive and finite"@, band_stop))
    } else if !positive_finite::<D>(sample_rate) {
        Err(got::<D>("sample_rate must be positive and finite"@, sample_rate))
    } else if D::at_most(nyquist, band_stop) {
        Err(beyond_nyquist::<D>("band_stop"@, band_stop, nyquist))
    } else {
        match tap_estimate::<D>(transition_width, sample_rate) {
            Err(e) => Err(e),
            Ok(estimate) => {
                let count = odd_count(estimate, odd_tap_count) as usize;
                Ok(
                    Seq::new(
                        count as nat,
                        |i: int|
                            band_pass_tap::<A, D>(
                                i as usize,
                                count,
                                band_start,
                                band_stop,
                                sample_rate,
                            ),
                    ),
                )
            },
        }
    }
}

/// Designs a band-pass filter with a Nuttall window.
pub fn band_pass<A: Arithmetic, D: Widening<A>>(
    band_start: D::R,
    band_stop: D::R,
    transition_width: D::R,
    sample_rate: D::R,
    odd_tap_count: bool,
) -> (r: Result<Vec<A::R>, DspError>)
    ensures
        designs(
            r,
            band_pass_design::<A, D>(
                band_start,
                band_stop,
                transition_width,
                sample_rate,
                odd_tap_count,
            ),
        ),
{
    if D::le(band_stop, band_start) {
        return Err(invalid("band_stop must be greater than band_start"));
    }
    if !is_positive_finite::<D>(band_start) {
        return Err(got_instead::<D>("band_start must be positive and finite", band_start));
    }
    if !is_positive_finite::<D>(band_stop) {
        return Err(got_instead::<D>("band_stop must be positive and finite", band_stop));
    }
    if !is_positive_finite::<D>(sample_rate) {
        return Err(got_instead::<D>("sample_rate must be positive and finite", sample_rate));
    }
    let nyquist: D::R = D::over(sample_rate, D::integer(2));
    if D::le(nyquist, band_stop) {
        return Err(reaches_nyquist::<D>("band_stop", band_stop, nyquist));
    }
    let offset_omega: D::R = hz_to_rads::<D>(D::midpoint(band_start, band_stop), sample_rate);
    let mut count: usize = match estimate_tap_count::<D>(transition_width, sample_rate) {
        Ok(count) => count,
        Err(e) => {
            return Err(e);
        },
    };
    if odd_tap_count && count % 2 == 0 {
        count = count + 1;
    }
    let bandwidth: D::R = D::over(D::minus(band_stop, band_start), D::integer(2));
    let len: D::R = D::count(count);
    let half: D::R = D::over(len, D::integer(2));
    let omega: D::R = hz_to_rads::<D>(bandwidth, sample_rate);
    let correction: D::R = D::over(omega, D::pi());
    let ghost all = Seq::new(
        count as nat,
        |i: int| band_pass_tap::<A, D>(i as usize, count, band_start, band_stop, sample_rate),
    );
    let mut taps: Vec<A::R> = Vec::with_capacity(count);
    let mut i: usize = 0;
    while i < count
        invariant
            i <= count,
            offset_omega == angular_step::<D>(D::middle(band_start, band_stop), sample_rate),
            omega == angular_step::<D>(
                D::quotient(D::difference(band_stop, band_start), D::integer_value(2)),
                sample_rate,
            ),
            len == D::count_value(count),
            half == half_count::<D>(count),
            correction == D::quotient(omega, D::half_turn()),
            all == Seq::new(
                count as nat,
                |i: int|
                    band_pass_tap::<A, D>(i as usize, count, band_start, band_stop, sample_rate),
            ),
            taps@ =~= all.take(i as int),
        decreases count - i,
    {
        let t: D::R = centre::<D>(i, half);
        let sinc_val: D::R = sinc::<D>(D::times(t, omega));
        let win: D::R = nuttall::<D>(D::minus(t, half), len);
        let modulation: D::R = D::times(D::integer(2), D::cos(D::times(offset_omega, t)));
        taps.push(
            D::narrow(D::times(D::times(D::times(sinc_val, win), correction), modulation)),
        );
        i = i + 1;
    }
    assert(taps@ =~= all);
    Ok(taps)
}

/// The root raised cosine pulse of roll-off `beta` at the distance `t` from
/// its middle, in samples, for `ts` samples a symbol.
pub open spec fn rrc_pulse<D: Arithmetic>(t: D::R, beta: D::R, ts: D::R) -> D::R {
    let one = D::integer_value(1);
    let two = D::integer_value(2);
    let four = D::integer_value(4);
    let pi = D::half_turn();
    let limit = D::quotient(ts, D::product(four, beta));
    let eps = D::fraction_value(1, 1_000_000_000_000);
    if D::equal(t, D::integer_value(0)) {
        D::quotient(
            D::sum(one, D::product(beta, D::difference(D::quotient(four, pi), one))),
            ts,
        )
    } else if D::less(D::magnitude(D::difference(t, limit)), eps) || D::less(
        D::magnitude(D::sum(t, limit)),
        eps,
    ) {
        let corner = D::quotient(pi, D::product(four, beta));
        D::quotient(
            D::product(
                D::sum(
                    D::product(D::sum(one, D::quotient(two, pi)), D::sine(corner)),
                    D::product(D::difference(one, D::quotient(two, pi)), D::cosine(corner)),
                ),
                beta,
            ),
            D::product(ts, D::root(two)),
        )
    } else {
        let low = D::quotient(D::product(D::product(D::difference(one, beta), pi), t), ts);
        let high = D::quotient(D::product(D::product(D::sum(one, beta), pi), t), ts);
        let ratio = D::quotient(D::product(D::product(four, beta), t), ts);
        let num = D::sum(
            D::sine(low),
            D::quotient(
                D::product(D::product(D::product(D::cosine(high), four), beta), t),
                ts,
            ),
        );
        let den = D::quotient(
            D::product(D::product(D::difference(one, D::product(ratio, ratio)), pi), t),
            ts,
        );
        D::quotient(D::quotient(num, den), ts)
    }
}

/// What [`root_raised_cosine`] designs.
pub open spec fn rrc_design<A: Arithmetic, D: Widening<A>>(
    count: usize,
    beta: D::R,
    symbol_rate: D::R,
    sample_rate: D::R,
) -> Result<Seq<A::R>, Fault> {
    let ts = D::quotient(sample_rate, symbol_rate);
    if count == 0 {
        Err(Fault::InvalidParameter("count must be > 0"@))
    } else if !(D::at_most(D::integer_value(0), beta) && D::at_most(beta, D::integer_value(1))) {
        Err(got::<D>("beta must be in 0.0..=1.0"@, beta))
    } else if !positive_finite::<D>(symbol_rate) {
        Err(got::<D>("symbol_rate must be positive and finite"@, symbol_rate))
    } else if !positive_finite::<D>(sample_rate) {
        Err(got::<D>("sample_rate must be positive and finite"@, sample_rate))
    } else {
        Ok(
            Seq::new(
                count as nat,
                |i: int|
                    D::narrowed(rrc_pulse::<D>(centred::<D>(i as usize, count), beta, ts)),
            ),
        )
    }
}

fn rrc_value<D: Arithmetic>(t: D::R, beta: D::R, ts: D::R) -> (r: D::R)
    ensures
        r == rrc_pulse::<D>(t, beta, ts),
{
    let one: D::R = D::integer(1);
    let two: D::R = D::integer(2);
    let four: D::R = D::integer(4);
    let pi: D::R = D::pi();
    let limit: D::R = D::over(ts, D::times(four, beta));
    let eps: D::R = D::fraction(1, 1_000_000_000_000);
    if D::same(t, D::integer(0)) {
        return D::over(
            D::plus(one, D::times(beta, D::minus(D::over(four, pi), one))),
            ts,
        );
    }
    if D::lt(D::abs(D::minus(t, limit)), eps) || D::lt(D::abs(D::plus(t, limit)), eps) {
        let corner: D::R = D::over(pi, D::times(four, beta));
        return D::over(
            D::times(
                D::plus(
                    D::times(D::plus(one, D::over(two, pi)), D::sin(corner)),
                    D::times(D::minus(one, D::over(two, pi)), D::cos(corner)),
                ),
                beta,
            ),
            D::times(ts, D::sqrt(two)),
        );
    }
    let low: D::R = D::over(D::times(D::times(D::minus(one, beta), pi), t), ts);
    let high: D::R = D::over(D::times(D::times(D::plus(one, beta), pi), t), ts);
    let ratio: D::R = D::over(D::times(D::times(four, beta), t), ts);
    let num: D::R = D::plus(
        D::sin(low),
        D::over(D::times(D::times(D::times(D::cos(high), four), beta), t), ts),
    );
    let den: D::R = D::over(
        D::times(D::times(D::minus(one, D::times(ratio, ratio)), pi), t),
        ts,
    );
    D::over(D::over(num, den), ts)
}

/// Designs a root raised cosine filter.
pub fn root_raised_cosine<A: Arithmetic, D: Widening<A>>(
    count: usize,
    beta: D::R,
    symbol_rate: D::R,
    sample_rate: D::R,
) -> (r: Result<Vec<A::R>, DspError>)
    ensures
        designs(r, rrc_design::<A, D>(count, beta, symbol_rate, sample_rate)),
{
    if count == 0 {
        return Err(invalid("count must be > 0"));
    }
    if !(D::le(D::integer(0), beta) && D::le(beta, D::integer(1))) {
        return Err(got_instead::<D>("beta must be in 0.0..=1.0", beta));
    }
    if !is_positive_finite::<D>(symbol_rate) {
        return Err(got_instead::<D>("symbol_rate must be positive and finite", symbol_rate));
    }
    if !is_positive_finite::<D>(sample_rate) {
        return Err(got_instead::<D>("sample_rate must be positive and finite", sample_rate));
    }
    let ts: D::R = D::over(sample_rate, symbol_rate);
    let half: D::R = D::over(D::count(count), D::integer(2));
    let ghost all = Seq::new(
        count as nat,
        |i: int| D::narrowed(rrc_pulse::<D>(centred::<D>(i as usize, count), beta, ts)),
    );
    let mut taps: Vec<A::R> = Vec::with_capacity(count);
    let mut i: usize = 0;
    while i < count
        invariant
            i <= count,
            half == half_count::<D>(count),
            all == Seq::new(
                count as nat,
                |i: int| D::narrowed(rrc_pulse::<D>(centred::<D>(i as usize, count), beta, ts)),
            ),
            taps@ =~= all.take(i as int),
        decreases count - i,
    {
        taps.push(D::narrow(rrc_value::<D>(centre::<D>(i, half), beta, ts)));
        i = i + 1;
    }
    assert(taps@ =~= all);
    Ok(taps)
}

/// Why a Kaiser design is refused.
pub open spec fn kaiser_refusal<D: Arithmetic>(
    cutoff: D::R,
    transition_width: D::R,
    atten_db: D::R,
    sample_rate: D::R,
    dc_removal: bool,
) -> Option<Fault> {
    let two = D::integer_value(2);
    let nyquist = D::quotient(sample_rate, two);
    let edge = D::sum(cutoff, D::quotient(transition_width, two));
    let taps = kaiser_taps::<D>(atten_db, angular_step::<D>(transition_width, sample_rate));
    let count = if taps > usize::MAX {
        usize::MAX as int
    } else {
        taps
    };
    if !positive_finite::<D>(cutoff) {
        Some(got::<D>("cutoff must be positive and finite"@, cutoff))
    } else if !positive_finite::<D>(transition_width) {
        Some(got::<D>("transition_width must be positive and finite"@, transition_width))
    } else if !positive_finite::<D>(atten_db) {
        Some(got::<D>("atten_db must be positive and finite"@, atten_db))
    } else if !positive_finite::<D>(sample_rate) {
        Some(got::<D>("sample_rate must be positive and finite"@, sample_rate))
    } else if dc_removal && D::at_most(D::product(two, cutoff), transition_width) {
        Some(
            Fault::InvalidParameter(
                "transition_width ("@ + D::text(transition_width) + ") must be < 2·cutoff ("@
                    + D::text(D::product(two, cutoff))
                    + ") — at or above this the bandpass response collapses/inverts"@,
            ),
        )
    } else if D::at_most(nyquist, cutoff) {
        Some(beyond_nyquist::<D>("cutoff"@, cutoff, nyquist))
    } else if D::at_most(nyquist, edge) {
        Some(
            Fault::InvalidParameter(
                "upper transition edge (cutoff + transition_width/2 = "@ + D::text(edge)
                    + ") must be less than Nyquist ("@ + D::text(nyquist) + ") — cutoff="@
                    + D::text(cutoff) + ", transition_width="@ + D::text(transition_width),
            ),
        )
    } else if count > MAX_TAP_COUNT {
        Some(
            Fault::InvalidParameter(
                "Kaiser tap count ("@ + decimal(count as nat) + ") exceeds maximum ("@
                    + decimal(MAX_TAP_COUNT as nat) + ")"@,
            ),
        )
    } else {
        None
    }
}

/// Checks the parameters of a Kaiser design and counts its taps.
fn kaiser_count<D: Arithmetic>(
    cutoff: D::R,
    transition_width: D::R,
    atten_db: D::R,
    sample_rate: D::R,
    dc_removal: bool,
) -> (r: Result<usize, DspError>)
    ensures
        match r {
            Err(e) => kaiser_refusal::<D>(
                cutoff,
                transition_width,
                atten_db,
                sample_rate,
                dc_removal,
            ) == Some(e@),
            Ok(count) => {
                &&& kaiser_refusal::<D>(
                    cutoff,
                    transition_width,
                    atten_db,
                    sample_rate,
                    dc_removal,
                ) is None
                &&& count == kaiser_taps::<D>(
                    atten_db,
                    angular_step::<D>(transition_width, sample_rate),
                )
                &&& count <= MAX_TAP_COUNT
            },
        },
{
    if !is_positive_finite::<D>(cutoff) {
        return Err(got_instead::<D>("cutoff must be positive and finite", cutoff));
    }
    if !is_positive_finite::<D>(transition_width) {
        return Err(
            got_instead::<D>("transition_width must be positive and finite", transition_width),
        );
    }
    if !is_positive_finite::<D>(atten_db) {
        return Err(got_instead::<D>("atten_db must be positive and finite", atten_db));
    }
    if !is_positive_finite::<D>(sample_rate) {
        return Err(got_instead::<D>("sample_rate must be positive and finite", sample_rate));
    }
    let two: D::R = D::integer(2);
    if dc_removal && D::le(D::times(two, cutoff), transition_width) {
        return Err(
            DspError::InvalidParameter(
                String::from_str("transition_width (")
                    .concat(D::to_text(transition_width).as_str())
                    .concat(") must be < 2·cutoff (")
                    .concat(D::to_text(D::times(two, cutoff)).as_str())
                    .concat(") — at or above this the bandpass response collapses/inverts"),
            ),
        );
    }
    let nyquist: D::R = D::over(sample_rate, two);
    if D::le(nyquist, cutoff) {
        return Err(reaches_nyquist::<D>("cutoff", cutoff, nyquist));
    }
    let edge: D::R = D::plus(cutoff, D::over(transition_width, two));
    if D::le(nyquist, edge) {
        return Err(
            DspError::InvalidParameter(
                String::from_str("upper transition edge (cutoff + transition_width/2 = ")
                    .concat(D::to_text(edge).as_str())
                    .concat(") must be less than Nyquist (")
                    .concat(D::to_text(nyquist).as_str())
                    .concat(") — cutoff=")
                    .concat(D::to_text(cutoff).as_str())
                    .concat(", transition_width=")
                    .concat(D::to_text(transition_width).as_str()),
            ),
        );
    }
    let count: usize = kaiser_length::<D>(
        atten_db,
        hz_to_rads::<D>(transition_width, sample_rate),
    );
    if count > MAX_TAP_COUNT {
        return Err(
            DspError::InvalidParameter(
                String::from_str("Kaiser tap count (")
                    .concat(decimal_text(count as u64).as_str())
                    .concat(") exceeds maximum (")
                    .concat(decimal_text(MAX_TAP_COUNT as u64).as_str())
                    .concat(")"),
            ),
        );
    }
    Ok(count)
}

/// The ideal low-pass response at the distance `t` from the middle:
/// `sinc(t omega) omega / pi`.
pub open spec fn ideal_low_pass<D: Arithmetic>(t: D::R, omega: D::R) -> D::R {
    D::product(sine_over::<D>(D::product(t, omega)), D::quotient(omega, D::half_turn()))
}

/// Tap `i` of a Kaiser low-pass filter.
pub open spec fn low_pass_kaiser_tap<A: Arithmetic, D: Widening<A>>(
    i: usize,
    count: usize,
    omega: D::R,
    beta: D::R,
) -> A::R {
    D::narrowed(
        D::product(
            D::product(
                sine_over::<D>(D::product(centred::<D>(i, count), omega)),
                kaiser_at::<D>(D::count_value(i), D::count_value(count), beta),
            ),
            D::quotient(omega, D::half_turn()),
        ),
    )
}

/// What [`low_pass_kaiser`] designs.
pub open spec fn low_pass_kaiser_design<A: Arithmetic, D: Widening<A>>(
    cutoff: D::R,
    transition_width: D::R,
    atten_db: D::R,
    sample_rate: D::R,
) -> Result<Seq<A::R>, Fault> {
    match kaiser_refusal::<D>(cutoff, transition_width, atten_db, sample_rate, false) {
        Some(e) => Err(e),
        None => {
            let count = kaiser_taps::<D>(
                atten_db,
                angular_step::<D>(transition_width, sample_rate),
            ) as usize;
            Ok(
                Seq::new(
                    count as nat,
                    |i: int|
                        low_pass_kaiser_tap::<A, D>(
                            i as usize,
                            count,
                            angular_step::<D>(cutoff, sample_rate),
                            kaiser_shape::<D>(atten_db),
                        ),
                ),
            )
        },
    }
}

/// Designs a low-pass filter with a Kaiser window, for a stopband `atten_db`
/// decibels down.
pub fn low_pass_kaiser<A: Arithmetic, D: Widening<A>>(
    cutoff: D::R,
    transition_width: D::R,
    atten_db: D::R,
    sample_rate: D::R,
) -> (r: Result<Vec<A::R>, DspError>)
    ensures
        designs(
            r,
            low_pass_kaiser_design::<A, D>(cutoff, transition_width, atten_db, sample_rate),
        ),
{
    let count: usize = match kaiser_count::<D>(
        cutoff,
        transition_width,
        atten_db,
        sample_rate,
        false,
    ) {
        Ok(count) => count,
        Err(e) => {
            return Err(e);
        },
    };
    let beta: D::R = kaiser_beta::<D>(atten_db);
    let omega: D::R = hz_to_rads::<D>(cutoff, sample_rate);
    let len: D::R = D::count(count);
    let half: D::R = D::over(len, D::integer(2));
    let correction: D::R = D::over(omega, D::pi());
    let ghost all = Seq::new(
        count as nat,
        |i: int| low_pass_kaiser_tap::<A, D>(i as usize, count, omega, beta),
    );
    let mut taps: Vec<A::R> = Vec::with_capacity(count);
    let mut i: usize = 0;
    while i < count
        invariant
            i <= count,
            len == D::count_value(count),
            half == half_count::<D>(count),
            correction == D::quotient(omega, D::half_turn()),
            all == Seq::new(
                count as nat,
                |i: int| low_pass_kaiser_tap::<A, D>(i as usize, count, omega, beta),
            ),
            taps@ =~= all.take(i as int),
        decreases count - i,
    {
        let t: D::R = centre::<D>(i, half);
        let win: D::R = kaiser::<D>(D::count(i), len, beta);
        taps.push(
            D::narrow(D::times(D::times(sinc::<D>(D::times(t, omega)), win), correction)),
        );
        i = i + 1;
    }
    assert(taps@ =~= all);
    Ok(taps)
}

/// The first `n` of `count` windowed values of the ideal low-pass response,
/// added up in order: for all of them, the gain at frequency zero.
pub open spec fn windowed_gain<D: Arithmetic>(
    count: usize,
    omega: D::R,
    beta: D::R,
    n: nat,
) -> D::R
    decreases n,
{
    if n == 0 {
        D::integer_value(0)
    } else {
        let i = (n - 1) as usize;
        D::sum(
            windowed_gain::<D>(count, omega, beta, (n - 1) as nat),
            D::product(
                ideal_low_pass::<D>(centred::<D>(i, count), omega),
                kaiser_at::<D>(D::count_value(i), D::count_value(count), beta),
            ),
        )
    }
}

/// Value `i` of a low-pass filter that removes the mean, before it is narrowed
/// to a tap: the low-pass response up to the cutoff, less that of the lowest
/// band scaled to the same gain at frequency zero, under a common Kaiser window.
pub open spec fn dc_removal_value<D: Arithmetic>(
    i: usize,
    count: usize,
    omega_main: D::R,
    omega_dc: D::R,
    beta: D::R,
) -> D::R {
    let balance = D::quotient(
        windowed_gain::<D>(count, omega_main, beta, count as nat),
        windowed_gain::<D>(count, omega_dc, beta, count as nat),
    );
    let t = centred::<D>(i, count);
    D::product(
        D::difference(
            ideal_low_pass::<D>(t, omega_main),
            D::product(ideal_low_pass::<D>(t, omega_dc), balance),
        ),
        kaiser_at::<D>(D::count_value(i), D::count_value(count), beta),
    )
}

/// Tap `i` of a low-pass filter that removes the mean.
pub open spec fn dc_removal_tap<A: Arithmetic, D: Widening<A>>(
    i: usize,
    count: usize,
    omega_main: D::R,
    omega_dc: D::R,
    beta: D::R,
) -> A::R {
    D::narrowed(dc_removal_value::<D>(i, count, omega_main, omega_dc, beta))
}

/// The values of a low-pass filter that removes the mean.
pub open spec fn dc_removal_values<D: Arithmetic>(
    count: usize,
    omega_main: D::R,
    omega_dc: D::R,
    beta: D::R,
) -> Seq<D::R> {
    Seq::new(
        count as nat,
        |i: int| dc_removal_value::<D>(i as usize, count, omega_main, omega_dc, beta),
    )
}

/// Whether the responses and the window that a low-pass filter that removes the
/// mean is made of are finite, and the lowest band passes something at frequency
/// zero.
pub open spec fn removable<D: Arithmetic>(
    count: usize,
    omega_main: D::R,
    omega_dc: D::R,
    beta: D::R,
) -> bool {
    &&& forall|i: usize|
        i < count ==> {
            let t = #[trigger] centred::<D>(i, count);
            &&& D::finite(ideal_low_pass::<D>(t, omega_main))
            &&& D::finite(ideal_low_pass::<D>(t, omega_dc))
            &&& D::finite(kaiser_at::<D>(D::count_value(i), D::count_value(count), beta))
        }
    &&& windowed_gain::<D>(count, omega_dc, beta, count as nat) != D::integer_value(0)
}

/// Gains are finite.
proof fn gain_finite<D: Arithmetic>(
    count: usize,
    omega_main: D::R,
    omega_dc: D::R,
    beta: D::R,
    n: nat,
)
    requires
        exact_laws::<D>(),
        removable::<D>(count, omega_main, omega_dc, beta),
        n <= count,
    ensures
        D::finite(windowed_gain::<D>(count, omega_main, beta, n)),
        D::finite(windowed_gain::<D>(count, omega_dc, beta, n)),
    decreases n,
{
    whole_numbers::<D>(0);
    if n > 0 {
        let i = (n - 1) as usize;
        let m = (n - 1) as nat;
        let t = centred::<D>(i, count);
        let win = kaiser_at::<D>(D::count_value(i), D::count_value(count), beta);
        let main = ideal_low_pass::<D>(t, omega_main);
        let dc = ideal_low_pass::<D>(t, omega_dc);
        gain_finite::<D>(count, omega_main, omega_dc, beta, m);
        stays_finite::<D>(main, win);
        stays_finite::<D>(dc, win);
        stays_finite::<D>(
            windowed_gain::<D>(count, omega_main, beta, m),
            D::product(main, win),
        );
        stays_finite::<D>(windowed_gain::<D>(count, omega_dc, beta, m), D::product(dc, win));
    }
}

/// [`dc_is_removed`] for the first `n` values: they add up to the gain of the
/// wide band less the balanced gain of the lowest band.
proof fn dc_removed_up_to<D: Arithmetic>(
    count: usize,
    omega_main: D::R,
    omega_dc: D::R,
    beta: D::R,
    n: nat,
)
    requires
        exact_laws::<D>(),
        removable::<D>(count, omega_main, omega_dc, beta),
        n <= count,
    ensures
        ({
            let balance = D::quotient(
                windowed_gain::<D>(count, omega_main, beta, count as nat),
                windowed_gain::<D>(count, omega_dc, beta, count as nat),
            );
            sum_of::<D>(dc_removal_values::<D>(count, omega_main, omega_dc, beta), n)
                == D::difference(
                windowed_gain::<D>(count, omega_main, beta, n),
                D::product(windowed_gain::<D>(count, omega_dc, beta, n), balance),
            )
        }),
    decreases n,
{
    let zero = D::integer_value(0);
    let gain_main = windowed_gain::<D>(count, omega_main, beta, count as nat);
    let gain_dc = windowed_gain::<D>(count, omega_dc, beta, count as nat);
    let balance = D::quotient(gain_main, gain_dc);
    whole_numbers::<D>(0);
    gain_finite::<D>(count, omega_main, omega_dc, beta, count as nat);
    stays_finite::<D>(gain_main, gain_dc);
    if n == 0 {
        zero_factor::<D>(balance);
        sums_undo::<D>(zero, zero);
    } else {
        let i = (n - 1) as usize;
        let m = (n - 1) as nat;
        let t = centred::<D>(i, count);
        let win = kaiser_at::<D>(D::count_value(i), D::count_value(count), beta);
        let main = ideal_low_pass::<D>(t, omega_main);
        let dc = ideal_low_pass::<D>(t, omega_dc);
        let so_far_main = windowed_gain::<D>(count, omega_main, beta, m);
        let so_far_dc = windowed_gain::<D>(count, omega_dc, beta, m);
        let values = dc_removal_values::<D>(count, omega_main, omega_dc, beta);
        dc_removed_up_to::<D>(count, omega_main, omega_dc, beta, m);
        gain_finite::<D>(count, omega_main, omega_dc, beta, m);
        stays_finite::<D>(main, win);
        stays_finite::<D>(dc, win);
        stays_finite::<D>(dc, balance);
        stays_finite::<D>(so_far_dc, balance);
        stays_finite::<D>(D::product(dc, win), balance);
        factor_of_difference::<D>(main, D::product(dc, balance), win);
        factors_in_any_order::<D>(dc, balance, win);
        assert(values[n - 1] == D::difference(
            D::product(main, win),
            D::product(D::product(dc, win), balance),
        ));
        differences_in_pairs::<D>(
            so_far_main,
            D::product(so_far_dc, balance),
            D::product(main, win),
            D::product(D::product(dc, win), balance),
        );
        factor_of_sum::<D>(so_far_dc, D::product(dc, win), balance);
    }
}

/// The values of a low-pass filter that removes the mean add up to zero, where
/// numbers are exact: nothing passes at frequency zero.
pub proof fn dc_is_removed<D: Arithmetic>(
    count: usize,
    omega_main: D::R,
    omega_dc: D::R,
    beta: D::R,
)
    requires
        exact_laws::<D>(),
        removable::<D>(count, omega_main, omega_dc, beta),
    ensures
        sum_of::<D>(
            dc_removal_values::<D>(count, omega_main, omega_dc, beta),
            count as nat,
        ) == D::integer_value(0),
{
    let gain_main = windowed_gain::<D>(count, omega_main, beta, count as nat);
    let gain_dc = windowed_gain::<D>(count, omega_dc, beta, count as nat);
    gain_finite::<D>(count, omega_main, omega_dc, beta, count as nat);
    dc_removed_up_to::<D>(count, omega_main, omega_dc, beta, count as nat);
    products_undo::<D>(gain_main, gain_dc);
    sums_undo::<D>(gain_main, gain_main);
}

/// What [`low_pass_dc_removal_kaiser`] designs.
pub open spec fn dc_removal_design<A: Arithmetic, D: Widening<A>>(
    cutoff: D::R,
    transition_width: D::R,
    atten_db: D::R,
    sample_rate: D::R,
) -> Result<Seq<A::R>, Fault> {
    match kaiser_refusal::<D>(cutoff, transition_width, atten_db, sample_rate, true) {
        Some(e) => Err(e),
        None => {
            let count = kaiser_taps::<D>(
                atten_db,
                angular_step::<D>(transition_width, sample_rate),
            ) as usize;
            Ok(
                Seq::new(
                    count as nat,
                    |i: int|
                        dc_removal_tap::<A, D>(
                            i as usize,
                            count,
                            angular_step::<D>(cutoff, sample_rate),
                            angular_step::<D>(
                                D::quotient(transition_width, D::integer_value(2)),
                                sample_rate,
                            ),
                            kaiser_shape::<D>(atten_db),
                        ),
                ),
            )
        },
    }
}

fn ideal_response<D: Arithmetic>(t: D::R, omega: D::R) -> (r: D::R)
    ensures
        r == ideal_low_pass::<D>(t, omega),
{
    D::times(sinc::<D>(D::times(t, omega)), D::over(omega, D::pi()))
}

fn gain_at_zero<D: Arithmetic>(count: usize, omega: D::R, beta: D::R) -> (r: D::R)
    ensures
        r == windowed_gain::<D>(count, omega, beta, count as nat),
{
    let len: D::R = D::count(count);
    let half: D::R = D::over(len, D::integer(2));
    let mut acc: D::R = D::integer(0);
    let mut i: usize = 0;
    while i < count
        invariant
            i <= count,
            len == D::count_value(count),
            half == half_count::<D>(count),
            acc == windowed_gain::<D>(count, omega, beta, i as nat),
        decreases count - i,
    {
        let t: D::R = centre::<D>(i, half);
        acc = D::plus(
            acc,
            D::times(ideal_response::<D>(t, omega), kaiser::<D>(D::count(i), len, beta)),
        );
        i = i + 1;
    }
    acc
}

/// Designs a low-pass filter that also removes the mean: it passes the band
/// from `transition_width / 2` to `cutoff`. It is the difference of two
/// low-pass filters of equal gain at frequency zero.
pub fn low_pass_dc_removal_kaiser<A: Arithmetic, D: Widening<A>>(
    cutoff: D::R,
    transition_width: D::R,
    atten_db: D::R,
    sample_rate: D::R,
) -> (r: Result<Vec<A::R>, DspError>)
    ensures
        designs(
            r,
            dc_removal_design::<A, D>(cutoff, transition_width, atten_db, sample_rate),
        ),
{
    let count: usize = match kaiser_count::<D>(
        cutoff,
        transition_width,
        atten_db,
        sample_rate,
        true,
    ) {
        Ok(count) => count,
        Err(e) => {
            return Err(e);
        },
    };
    let beta: D::R = kaiser_beta::<D>(atten_db);
    let omega_main: D::R = hz_to_rads::<D>(cutoff, sample_rate);
    let omega_dc: D::R = hz_to_rads::<D>(
        D::over(transition_width, D::integer(2)),
        sample_rate,
    );
    let len: D::R = D::count(count);
    let half: D::R = D::over(len, D::integer(2));
    let balance: D::R = D::over(
        gain_at_zero::<D>(count, omega_main, beta),
        gain_at_zero::<D>(count, omega_dc, beta),
    );
    let ghost all = Seq::new(
        count as nat,
        |i: int| dc_removal_tap::<A, D>(i as usize, count, omega_main, omega_dc, beta),
    );
    let mut taps: Vec<A::R> = Vec::with_capacity(count);
    let mut i: usize = 0;
    while i < count
        invariant
            i <= count,
            len == D::count_value(count),
            half == half_count::<D>(count),
            balance == D::quotient(
                windowed_gain::<D>(count, omega_main, beta, count as nat),
                windowed_gain::<D>(count, omega_dc, beta, count as nat),
            ),
            all == Seq::new(
                count as nat,
                |i: int| dc_removal_tap::<A, D>(i as usize, count, omega_main, omega_dc, beta),
            ),
            taps@ =~= all.take(i as int),
        decreases count - i,
    {
        let t: D::R = centre::<D>(i, half);
        let win: D::R = kaiser::<D>(D::count(i), len, beta);
        let main: D::R = ideal_response::<D>(t, omega_main);
        let dc: D::R = ideal_response::<D>(t, omega_dc);
        taps.push(D::narrow(D::times(D::minus(main, D::times(dc, balance)), win)));
        i = i + 1;
    }
    assert(taps@ =~= all);
    Ok(taps)
}

/// Whether tap `i` of `count` lies in the middle of its filter.
pub open spec fn in_the_middle<D: Arithmetic>(i: usize, count: usize) -> bool {
    D::sum(
        D::difference(
            D::count_value(i),
            D::quotient(D::count_value(count), D::integer_value(2)),
        ),
        D::fraction_value(1, 2),
    ) == D::integer_value(0)
}

/// The angle of `freq` over half a turn, times the rate, is twice the frequency.
proof fn share_of_band<D: Arithmetic>(freq: D::R, sample_rate: D::R)
    requires
        exact_laws::<D>(),
        D::finite(D::half_turn()),
        D::half_turn() != D::integer_value(0),
        D::finite(freq),
        D::finite(sample_rate),
        sample_rate != D::integer_value(0),
    ensures
        D::finite(D::quotient(angular_step::<D>(freq, sample_rate), D::half_turn())),
        D::product(
            D::quotient(angular_step::<D>(freq, sample_rate), D::half_turn()),
            sample_rate,
        ) == D::product(D::integer_value(2), freq),
{
    let two = D::integer_value(2);
    let pi = D::half_turn();
    let ratio = D::quotient(freq, sample_rate);
    whole_numbers::<D>(2);
    stays_finite::<D>(two, pi);
    stays_finite::<D>(freq, sample_rate);
    stays_finite::<D>(two, ratio);
    factors_in_any_order::<D>(two, pi, ratio);
    products_undo::<D>(D::product(two, ratio), pi);
    products_undo::<D>(freq, sample_rate);
    factors_in_any_order::<D>(two, ratio, sample_rate);
}

/// What a filter lets through, its middle tap says: over all frequencies of the
/// rate, the tap in the middle of a low-pass filter is the share of the
/// frequencies up to the cutoff, on either side of zero.
pub proof fn low_pass_middle_is_its_band<A: Arithmetic, D: Widening<A>>(
    cutoff: D::R,
    transition_width: D::R,
    sample_rate: D::R,
    odd_tap_count: bool,
    i: int,
)
    requires
        exact_laws::<D>(),
        widening_laws::<A, D>(),
        D::finite(D::half_turn()),
        D::half_turn() != D::integer_value(0),
        D::finite(cutoff),
        D::finite(sample_rate),
        sample_rate != D::integer_value(0),
        D::equal(D::integer_value(0), D::integer_value(0)),
        low_pass_design::<A, D>(cutoff, transition_width, sample_rate, odd_tap_count) is Ok,
        ({
            let taps = low_pass_design::<A, D>(
                cutoff,
                transition_width,
                sample_rate,
                odd_tap_count,
            )->Ok_0;
            let half = D::quotient(D::count_value(taps.len() as usize), D::integer_value(2));
            &&& 0 <= i < taps.len()
            &&& in_the_middle::<D>(i as usize, taps.len() as usize)
            &&& nuttall_at::<D>(
                D::difference(D::integer_value(0), half),
                D::count_value(taps.len() as usize),
            ) == D::integer_value(1)
        }),
    ensures
        D::product(
            D::widened(
                low_pass_design::<A, D>(
                    cutoff,
                    transition_width,
                    sample_rate,
                    odd_tap_count,
                )->Ok_0[i],
            ),
            sample_rate,
        ) == D::product(D::integer_value(2), cutoff),
{
    middle_of_sinc::<A, D>(
        low_pass_design::<A, D>(
            cutoff,
            transition_width,
            sample_rate,
            odd_tap_count,
        )->Ok_0.len() as usize,
        cutoff,
        sample_rate,
        i as usize,
    );
}

proof fn middle_of_sinc<A: Arithmetic, D: Widening<A>>(
    count: usize,
    cutoff: D::R,
    sample_rate: D::R,
    i: usize,
)
    requires
        exact_laws::<D>(),
        widening_laws::<A, D>(),
        D::finite(D::half_turn()),
        D::half_turn() != D::integer_value(0),
        D::finite(cutoff),
        D::finite(sample_rate),
        sample_rate != D::integer_value(0),
        D::equal(D::integer_value(0), D::integer_value(0)),
        in_the_middle::<D>(i, count),
        nuttall_at::<D>(
            D::difference(
                D::integer_value(0),
                D::quotient(D::count_value(count), D::integer_value(2)),
            ),
            D::count_value(count),
        ) == D::integer_value(1),
    ensures
        D::product(
            D::widened(windowed_sinc_tap::<A, D>(i, count, cutoff, sample_rate, false)),
            sample_rate,
        ) == D::product(D::integer_value(2), cutoff),
        ({
            let tap = D::widened(windowed_sinc_tap::<A, D>(i, count, cutoff, sample_rate, true));
            ||| D::product(tap, sample_rate) == D::product(D::integer_value(2), cutoff)
            ||| D::product(D::product(tap, D::integer_value((-1) as i64)), sample_rate)
                == D::product(
                D::product(D::integer_value(2), cutoff),
                D::product(D::integer_value((-1) as i64), D::integer_value((-1) as i64)),
            )
        }),
{
    let one = D::integer_value(1);
    let down = D::integer_value((-1) as i64);
    let zero = D::integer_value(0);
    let omega = angular_step::<D>(cutoff, sample_rate);
    whole_numbers::<D>(0);
    whole_numbers::<D>(1);
    whole_numbers::<D>(2);
    whole_numbers::<D>((-1) as i64);
    stays_finite::<D>(D::integer_value(2), D::half_turn());
    stays_finite::<D>(cutoff, sample_rate);
    stays_finite::<D>(
        D::product(D::integer_value(2), D::half_turn()),
        D::quotient(cutoff, sample_rate),
    );
    zero_factor::<D>(omega);
    share_of_band::<D>(cutoff, sample_rate);
    let share = D::quotient(omega, D::half_turn());
    sum_with_zero::<D>(one);
    sum_with_zero::<D>(down);
    sum_with_zero::<D>(share);
    stays_finite::<D>(down, share);
    stays_finite::<D>(D::integer_value(2), cutoff);
    let whole = D::product(D::integer_value(2), cutoff);
    sum_with_zero::<D>(whole);
    stays_finite::<D>(down, down);
    let tap = D::product(down, share);
    factors_in_any_order::<D>(down, share, down);
    factors_in_any_order::<D>(share, down, down);
    factors_in_any_order::<D>(share, D::product(down, down), sample_rate);
    factors_in_any_order::<D>(share, sample_rate, D::product(down, down));
}

/// The tap in the middle of a high-pass filter is, but for its sign, the share
/// of the frequencies from the cutoff up.
pub proof fn high_pass_middle_is_its_band<A: Arithmetic, D: Widening<A>>(
    cutoff: D::R,
    transition_width: D::R,
    sample_rate: D::R,
    i: int,
)
    requires
        exact_laws::<D>(),
        widening_laws::<A, D>(),
        D::finite(D::half_turn()),
        D::half_turn() != D::integer_value(0),
        D::finite(cutoff),
        D::finite(sample_rate),
        sample_rate != D::integer_value(0),
        D::equal(D::integer_value(0), D::integer_value(0)),
        D::product(D::integer_value((-1) as i64), D::integer_value((-1) as i64))
            == D::integer_value(1),
        high_pass_design::<A, D>(cutoff, transition_width, sample_rate) is Ok,
        ({
            let taps = high_pass_design::<A, D>(cutoff, transition_width, sample_rate)->Ok_0;
            let half = D::quotient(D::count_value(taps.len() as usize), D::integer_value(2));
            &&& 0 <= i < taps.len()
            &&& in_the_middle::<D>(i as usize, taps.len() as usize)
            &&& nuttall_at::<D>(
                D::difference(D::integer_value(0), half),
                D::count_value(taps.len() as usize),
            ) == D::integer_value(1)
        }),
    ensures
        ({
            let tap = D::widened(
                high_pass_design::<A, D>(cutoff, transition_width, sample_rate)->Ok_0[i],
            );
            let above = D::difference(sample_rate, D::product(D::integer_value(2), cutoff));
            ||| D::product(tap, sample_rate) == above
            ||| D::product(
                D::product(tap, D::integer_value((-1) as i64)),
                sample_rate,
            ) == above
        }),
{
    let two = D::integer_value(2);
    whole_numbers::<D>(2);
    whole_numbers::<D>(1);
    let nyquist = D::quotient(sample_rate, two);
    stays_finite::<D>(sample_rate, two);
    stays_finite::<D>(nyquist, cutoff);
    let band = D::difference(nyquist, cutoff);
    middle_of_sinc::<A, D>(
        high_pass_design::<A, D>(cutoff, transition_width, sample_rate)->Ok_0.len() as usize,
        band,
        sample_rate,
        i as usize,
    );
    factor_of_difference::<D>(nyquist, cutoff, two);
    products_undo::<D>(sample_rate, two);
    factors_in_any_order::<D>(band, two, two);
    factors_in_any_order::<D>(cutoff, two, two);
    stays_finite::<D>(two, band);
    sum_with_zero::<D>(D::product(two, band));
}

/// The tap in the middle of a band-pass filter is the share of the frequencies in
/// the band, on either side of zero.
pub proof fn band_pass_middle_is_its_band<A: Arithmetic, D: Widening<A>>(
    count: usize,
    band_start: D::R,
    band_stop: D::R,
    sample_rate: D::R,
    i: usize,
)
    requires
        exact_laws::<D>(),
        widening_laws::<A, D>(),
        D::finite(D::half_turn()),
        D::half_turn() != D::integer_value(0),
        D::finite(band_start),
        D::finite(band_stop),
        D::finite(D::middle(band_start, band_stop)),
        D::finite(sample_rate),
        sample_rate != D::integer_value(0),
        D::equal(D::integer_value(0), D::integer_value(0)),
        D::cosine(D::integer_value(0)) == D::integer_value(1),
        in_the_middle::<D>(i, count),
        nuttall_at::<D>(
            D::difference(
                D::integer_value(0),
                D::quotient(D::count_value(count), D::integer_value(2)),
            ),
            D::count_value(count),
        ) == D::integer_value(1),
    ensures
        D::product(
            D::widened(
                band_pass_tap::<A, D>(i, count, band_start, band_stop, sample_rate),
            ),
            sample_rate,
        ) == D::product(D::integer_value(2), D::difference(band_stop, band_start)),
{
    let one = D::integer_value(1);
    let two = D::integer_value(2);
    let width = D::difference(band_stop, band_start);
    whole_numbers::<D>(0);
    whole_numbers::<D>(1);
    whole_numbers::<D>(2);
    stays_finite::<D>(band_stop, band_start);
    stays_finite::<D>(width, two);
    let half = D::quotient(width, two);
    products_undo::<D>(width, two);
    share_of_band::<D>(half, sample_rate);
    let omega = angular_step::<D>(half, sample_rate);
    let offset = angular_step::<D>(D::middle(band_start, band_stop), sample_rate);
    stays_finite::<D>(two, D::half_turn());
    stays_finite::<D>(half, sample_rate);
    stays_finite::<D>(D::product(two, D::half_turn()), D::quotient(half, sample_rate));
    stays_finite::<D>(D::middle(band_start, band_stop), sample_rate);
    stays_finite::<D>(
        D::product(two, D::half_turn()),
        D::quotient(D::middle(band_start, band_stop), sample_rate),
    );
    zero_factor::<D>(omega);
    zero_factor::<D>(offset);
    let share = D::quotient(omega, D::half_turn());
    sum_with_zero::<D>(one);
    sum_with_zero::<D>(share);
    sum_with_zero::<D>(two);
    stays_finite::<D>(share, two);
    factors_in_any_order::<D>(share, two, sample_rate);
    factors_in_any_order::<D>(half, two, two);
    factors_in_any_order::<D>(width, two, two);
}

/// The tap in the middle of a low-pass filter with a Kaiser window is the share
/// of the frequencies up to the cutoff, on either side of zero.
pub proof fn low_pass_kaiser_middle_is_its_band<A: Arithmetic, D: Widening<A>>(
    i: usize,
    count: usize,
    cutoff: D::R,
    sample_rate: D::R,
    beta: D::R,
)
    requires
        exact_laws::<D>(),
        widening_laws::<A, D>(),
        D::finite(D::half_turn()),
        D::half_turn() != D::integer_value(0),
        D::finite(cutoff),
        D::finite(sample_rate),
        sample_rate != D::integer_value(0),
        D::equal(D::integer_value(0), D::integer_value(0)),
        in_the_middle::<D>(i, count),
        kaiser_at::<D>(D::count_value(i), D::count_value(count), beta) == D::integer_value(1),
    ensures
        D::product(
            D::widened(
                low_pass_kaiser_tap::<A, D>(
                    i,
                    count,
                    angular_step::<D>(cutoff, sample_rate),
                    beta,
                ),
            ),
            sample_rate,
        ) == D::product(D::integer_value(2), cutoff),
{
    let one = D::integer_value(1);
    let omega = angular_step::<D>(cutoff, sample_rate);
    whole_numbers::<D>(1);
    whole_numbers::<D>(2);
    stays_finite::<D>(D::integer_value(2), D::half_turn());
    stays_finite::<D>(cutoff, sample_rate);
    stays_finite::<D>(
        D::product(D::integer_value(2), D::half_turn()),
        D::quotient(cutoff, sample_rate),
    );
    zero_factor::<D>(omega);
    share_of_band::<D>(cutoff, sample_rate);
    sum_with_zero::<D>(one);
    sum_with_zero::<D>(D::quotient(omega, D::half_turn()));
}

} // verus!
