//! Fourier transforms.
//!
//! [`FftEngine`] is what a spectrum display calls. [`BlockTransform`] is what
//! the blocks of this crate call that work on the spectrum of a block. An
//! engine may run elsewhere; [`Dft`] is the transform by its definition.

use crate::arith::{unspecified, Arithmetic};
use crate::complex::{self, imags, reals};
use crate::exact::{
    counts, exact_laws, factors_in_any_order, negation_laws, opposite, opposite_factors, opposites, products_undo,
    stays_finite, sum_with_zero, whole_numbers, zero_factor,
};
use crate::kernel::sum_of;
use crate::math::{full_turn, tau};
use crate::stream::overwritten;
use crate::types::{Complex, DspError, Fault, invalid, outcome};
use vstd::prelude::*;

verus! {

/// An engine that transforms from time to frequency, in place.
pub trait FftEngine<A: Arithmetic> {
    /// Number of points.
    closed spec fn points(&self) -> nat {
        unspecified("points", self)
    }

    /// What the engine makes of `x`.
    closed spec fn spectrum(&self, x: Seq<Complex<A::R>>) -> Seq<Complex<A::R>> {
        unspecified("spectrum", (self, x))
    }

    /// Whether the engine never fails for reasons of its own.
    closed spec fn reliable(&self) -> bool {
        unspecified("reliable", self)
    }

    /// Transforms `buf`. It must have exactly as many samples as the engine
    /// has points; an engine that is not [`Self::reliable`] may also fail for
    /// reasons of its own. A call leaves the engine as it was.
    fn forward(&mut self, buf: &mut [Complex<A::R>]) -> (r: Result<(), DspError>)
        ensures
            final(self).points() == old(self).points(),
            final(self).reliable() == old(self).reliable(),
            forall|x: Seq<Complex<A::R>>| #[trigger]
                final(self).spectrum(x) == old(self).spectrum(x),
            final(buf)@.len() == old(buf)@.len(),
            old(buf)@.len() != old(self).points() ==> {
                &&& r == Err::<(), DspError>(
                    DspError::BufferTooSmall {
                        need: old(self).points() as usize,
                        got: old(buf)@.len() as usize,
                    },
                )
                &&& final(buf)@ == old(buf)@
            },
            old(self).reliable() && old(buf)@.len() == old(self).points() ==> r is Ok,
            r is Ok ==> final(buf)@ == old(self).spectrum(old(buf)@),
    ;

    /// Number of points.
    fn size(&self) -> (r: usize)
        ensures
            r == self.points(),
    ;
}

/// A transform of blocks of a fixed length, in place.
pub trait BlockTransform<A: Arithmetic> {
    /// Number of samples of a block.
    closed spec fn block_len(&self) -> nat {
        unspecified("block_len", self)
    }

    /// What the transform makes of `x`.
    closed spec fn transformed(&self, x: Seq<Complex<A::R>>) -> Seq<Complex<A::R>> {
        unspecified("transformed", (self, x))
    }

    /// Number of samples of a block.
    fn len(&self) -> (r: usize)
        ensures
            r == self.block_len(),
    ;

    /// Transforms `block`.
    fn apply(&self, block: &mut Vec<Complex<A::R>>)
        requires
            old(block)@.len() == self.block_len(),
        ensures
            final(block)@ == self.transformed(old(block)@),
            final(block)@.len() == old(block)@.len(),
    ;
}

/// Number of points of a transform.
#[derive(Debug, Clone, Copy, PartialEq, Eq, Structural)]
pub struct FftSize {
    /// Number of points.
    pub points: usize,
}

impl FftSize {
    /// `size` points, which must be at least one.
    pub fn new(size: usize) -> (r: Result<Self, DspError>)
        ensures
            outcome(r) == (if size == 0 {
                Err::<FftSize, Fault>(Fault::InvalidParameter("FFT size must be > 0"@))
            } else {
                Ok(FftSize { points: size })
            }),
    {
        if size == 0 {
            return Err(invalid("FFT size must be > 0"));
        }
        Ok(FftSize { points: size })
    }

    /// Refuses a buffer of `len` samples unless it has as many as there are
    /// points.
    pub fn check_len(&self, len: usize) -> (r: Result<(), DspError>)
        ensures
            r == (if len == self.points {
                Ok::<(), DspError>(())
            } else {
                Err(DspError::BufferTooSmall { need: self.points, got: len })
            }),
    {
        if len != self.points {
            return Err(DspError::BufferTooSmall { need: self.points, got: len });
        }
        Ok(())
    }
}

/// The angle of `k n` turns in `len`.
pub open spec fn twiddle_angle<A: Arithmetic>(turns: nat, len: nat) -> A::R {
    A::quotient(
        A::product(full_turn::<A>(), A::count_value((turns % len) as usize)),
        A::count_value(len as usize),
    )
}

/// The unit number at that angle, turned back unless `inverse`.
pub open spec fn twiddle<A: Arithmetic>(turns: nat, len: nat, inverse: bool) -> Complex<A::R> {
    let angle = twiddle_angle::<A>(turns, len);
    Complex {
        re: A::cosine(angle),
        im: if inverse {
            A::sine(angle)
        } else {
            A::negation(A::sine(angle))
        },
    }
}

/// The first `n` terms of bin `k` of the transform of `x`, added up in order.
pub open spec fn dft_terms<A: Arithmetic>(
    x: Seq<Complex<A::R>>,
    k: nat,
    inverse: bool,
    n: nat,
) -> Complex<A::R>
    decreases n,
{
    if n == 0 {
        complex::origin::<A>()
    } else {
        complex::total::<A>(
            dft_terms::<A>(x, k, inverse, (n - 1) as nat),
            complex::rotated::<A>(
                x[n - 1],
                twiddle::<A>(k * ((n - 1) as nat), x.len(), inverse),
            ),
        )
    }
}

/// The transform of `x`: bin `k` is the sum of `x[n] exp(-2 pi i k n / len)`,
/// with the opposite sign in the exponent where `inverse` asks for it.
pub open spec fn dft<A: Arithmetic>(x: Seq<Complex<A::R>>, inverse: bool) -> Seq<Complex<A::R>> {
    Seq::new(x.len(), |k: int| dft_terms::<A>(x, k as nat, inverse, x.len()))
}

/// The discrete Fourier transform by its definition.
pub struct Dft {
    /// Number of points.
    pub size: usize,
    /// Whether the transform goes from frequency to time, without scaling.
    pub inverse: bool,
}

impl Dft {
    fn bin<A: Arithmetic>(&self, x: &[Complex<A::R>], k: usize) -> (r: Complex<A::R>)
        requires
            k < x@.len(),
        ensures
            r == dft_terms::<A>(x@, k as nat, self.inverse, x@.len()),
    {
        let len: usize = x.len();
        let mut acc: Complex<A::R> = complex::zero::<A>();
        let mut turns: usize = 0;
        let mut n: usize = 0;
        proof {
            assert(k as nat * 0 == 0) by (nonlinear_arith);
            vstd::arithmetic::div_mod::lemma_small_mod(0, len as nat);
        }
        while n < len
            invariant
                n <= len == x@.len(),
                k < len,
                turns == (k as nat * n as nat) % len as nat,
                acc == dft_terms::<A>(x@, k as nat, self.inverse, n as nat),
            decreases len - n,
        {
            let angle: A::R = A::over(A::times(tau::<A>(), A::count(turns)), A::count(len));
            let sine: A::R = A::sin(angle);
            let im: A::R = if self.inverse {
                sine
            } else {
                A::neg(sine)
            };
            let unit: Complex<A::R> = Complex { re: A::cos(angle), im };
            acc = complex::plus::<A>(acc, complex::times::<A>(x[n], unit));
            proof {
                let a = (k as nat * n as nat) as int;
                assert(k as nat * (n as nat + 1) == a + k) by (nonlinear_arith)
                    requires
                        a == k as nat * n as nat,
                ;
                vstd::arithmetic::div_mod::lemma_add_mod_noop(a, k as int, len as int);
                vstd::arithmetic::div_mod::lemma_small_mod(k as nat, len as nat);
                if turns + k < len {
                    vstd::arithmetic::div_mod::lemma_small_mod((turns + k) as nat, len as nat);
                } else {
                    vstd::arithmetic::div_mod::lemma_small_mod(
                        (turns + k - len) as nat,
                        len as nat,
                    );
                    vstd::arithmetic::div_mod::lemma_mod_add_multiples_vanish(
                        turns + k - len,
                        len as int,
                    );
                }
            }
            turns = if k < len - turns {
                turns + k
            } else {
                k - (len - turns)
            };
            n = n + 1;
        }
        acc
    }

    fn bins<A: Arithmetic>(&self, x: &[Complex<A::R>]) -> (r: Vec<Complex<A::R>>)
        ensures
            r@ == dft::<A>(x@, self.inverse),
    {
        let mut r: Vec<Complex<A::R>> = Vec::with_capacity(x.len());
        let mut k: usize = 0;
        while k < x.len()
            invariant
                k <= x@.len(),
                r@ =~= dft::<A>(x@, self.inverse).take(k as int),
            decreases x.len() - k,
        {
            r.push(self.bin::<A>(x, k));
            k = k + 1;
        }
        assert(r@ =~= dft::<A>(x@, self.inverse));
        r
    }
}

impl<A: Arithmetic> BlockTransform<A> for Dft {
    open spec fn block_len(&self) -> nat {
        self.size as nat
    }

    open spec fn transformed(&self, x: Seq<Complex<A::R>>) -> Seq<Complex<A::R>> {
        dft::<A>(x, self.inverse)
    }

    fn len(&self) -> (r: usize) {
        self.size
    }

    fn apply(&self, block: &mut Vec<Complex<A::R>>) {
        let bins: Vec<Complex<A::R>> = self.bins::<A>(block.as_slice());
        *block = bins;
    }
}

impl<A: Arithmetic> FftEngine<A> for Dft {
    open spec fn points(&self) -> nat {
        self.size as nat
    }

    open spec fn spectrum(&self, x: Seq<Complex<A::R>>) -> Seq<Complex<A::R>> {
        dft::<A>(x, self.inverse)
    }

    open spec fn reliable(&self) -> bool {
        true
    }

    fn forward(&mut self, buf: &mut [Complex<A::R>]) -> (r: Result<(), DspError>) {
        if buf.len() != self.size {
            return Err(DspError::BufferTooSmall { need: self.size, got: buf.len() });
        }
        let bins: Vec<Complex<A::R>> = self.bins::<A>(buf);
        crate::stream::copy_to_front(bins.as_slice(), buf);
        assert(overwritten(old(buf)@, bins@) =~= bins@);
        Ok(())
    }

    fn size(&self) -> (r: usize) {
        self.size
    }
}

/// The power of a bin in decibels: `10 log10(|x|^2 / norm^2)`, not below that
/// of the least positive number.
pub open spec fn bin_power_db<A: Arithmetic>(bin: Complex<A::R>, norm_sq: A::R) -> A::R {
    let power = A::quotient(
        A::sum(A::product(bin.re, bin.re), A::product(bin.im, bin.im)),
        norm_sq,
    );
    A::product(
        A::integer_value(10),
        A::decimal_log(A::greater(power, A::least_positive())),
    )
}

/// The power spectrum of `bins` in decibels. The scale is the number of bins
/// times the coherent gain of the window.
pub open spec fn spectrum_db<A: Arithmetic>(bins: Seq<Complex<A::R>>, gain: A::R) -> Seq<A::R> {
    let norm = A::product(A::count_value(bins.len() as usize), gain);
    Seq::new(bins.len(), |i: int| bin_power_db::<A>(bins[i], A::product(norm, norm)))
}

/// Computes the power spectrum in decibels from the output of a transform.
pub fn power_spectrum_db<A: Arithmetic>(
    fft_output: &[Complex<A::R>],
    output: &mut [A::R],
    window_coherent_gain: A::R,
) -> (r: Result<(), DspError>)
    ensures
        match r {
            Err(e) => {
                &&& old(output)@.len() < fft_output@.len()
                &&& e == DspError::BufferTooSmall {
                    need: fft_output@.len() as usize,
                    got: old(output)@.len() as usize,
                }
                &&& final(output)@ == old(output)@
            },
            Ok(_) => {
                &&& fft_output@.len() <= old(output)@.len()
                &&& final(output)@ == overwritten(
                    old(output)@,
                    spectrum_db::<A>(fft_output@, window_coherent_gain),
                )
            },
        },
{
    if output.len() < fft_output.len() {
        return Err(DspError::BufferTooSmall { need: fft_output.len(), got: output.len() });
    }
    let norm: A::R = A::times(A::count(fft_output.len()), window_coherent_gain);
    let norm_sq: A::R = A::times(norm, norm);
    let ghost all = spectrum_db::<A>(fft_output@, window_coherent_gain);
    let mut i: usize = 0;
    while i < fft_output.len()
        invariant
            i <= fft_output@.len() <= output@.len(),
            output@.len() == old(output)@.len(),
            all == Seq::new(
                fft_output@.len(),
                |i: int| bin_power_db::<A>(fft_output@[i], norm_sq),
            ),
            output@ =~= overwritten(old(output)@, all.take(i as int)),
        decreases fft_output.len() - i,
    {
        let bin: Complex<A::R> = fft_output[i];
        let power: A::R = A::over(
            A::plus(A::times(bin.re, bin.re), A::times(bin.im, bin.im)),
            norm_sq,
        );
        output[i] = A::times(A::integer(10), A::log10(A::max(power, A::min_positive())));
        i = i + 1;
    }
    assert(all.take(i as int) =~= all);
    Ok(())
}

/// A tone of amplitude one that falls into a single bin, through a window of the
/// gain that is given, lies at zero decibels: its bin holds the number of points
/// times the gain.
pub proof fn full_scale_is_zero_db<A: Arithmetic>(
    bins: Seq<Complex<A::R>>,
    gain: A::R,
    i: int,
)
    requires
        exact_laws::<A>(),
        0 <= i < bins.len() <= usize::MAX,
        A::finite(gain),
        bins[i] == (Complex {
            re: A::product(A::count_value(bins.len() as usize), gain),
            im: A::integer_value(0),
        }) || bins[i] == (Complex {
            re: A::integer_value(0),
            im: A::product(A::count_value(bins.len() as usize), gain),
        }),
        A::product(
            A::product(A::count_value(bins.len() as usize), gain),
            A::product(A::count_value(bins.len() as usize), gain),
        ) != A::integer_value(0),
        A::greater(A::integer_value(1), A::least_positive()) == A::integer_value(1),
        A::decimal_log(A::integer_value(1)) == A::integer_value(0),
    ensures
        spectrum_db::<A>(bins, gain)[i] == A::integer_value(0),
{
    let n = A::count_value(bins.len() as usize);
    counts::<A>(bins.len() as usize);
    let norm = A::product(n, gain);
    stays_finite::<A>(n, gain);
    stays_finite::<A>(norm, norm);
    let square = A::product(norm, norm);
    whole_numbers::<A>(0);
    whole_numbers::<A>(1);
    whole_numbers::<A>(10);
    zero_factor::<A>(A::integer_value(0));
    sum_with_zero::<A>(square);
    products_undo::<A>(A::integer_value(1), square);
    zero_factor::<A>(A::integer_value(10));
}

/// The first bin of a transform is the sum of the samples.
pub proof fn first_bin_is_the_sum<A: Arithmetic>(
    x: Seq<Complex<A::R>>,
    inverse: bool,
    n: nat,
)
    requires
        exact_laws::<A>(),
        negation_laws::<A>(),
        A::finite(A::half_turn()),
        A::cosine(A::integer_value(0)) == A::integer_value(1),
        A::sine(A::integer_value(0)) == A::integer_value(0),
        n <= x.len() <= usize::MAX,
        forall|i: int| 0 <= i < x.len() ==> A::finite((#[trigger] x[i]).re) && A::finite(x[i].im),
    ensures
        dft_terms::<A>(x, 0, inverse, n) == (Complex {
            re: sum_of::<A>(reals(x), n),
            im: sum_of::<A>(imags(x), n),
        }),
    decreases n,
{
    if n > 0 {
        let zero = A::integer_value(0);
        first_bin_is_the_sum::<A>(x, inverse, (n - 1) as nat);
        let s = x[n - 1];
        assert(A::finite(s.re) && A::finite(s.im));
        whole_numbers::<A>(0);
        whole_numbers::<A>(2);
        stays_finite::<A>(A::integer_value(2), A::half_turn());
        zero_factor::<A>(full_turn::<A>());
        let len = A::count_value(x.len() as usize);
        counts::<A>(x.len() as usize);
        zero_factor::<A>(len);
        products_undo::<A>(zero, len);
        assert(0 * ((n - 1) as nat) == 0);
        assert(0nat % x.len() == 0);
        assert(twiddle_angle::<A>(0, x.len()) == zero);
        opposite::<A>(zero);
        sum_with_zero::<A>(A::negation(zero));
        assert(A::negation(zero) == zero);
        zero_factor::<A>(s.re);
        zero_factor::<A>(s.im);
        sum_with_zero::<A>(s.re);
        sum_with_zero::<A>(s.im);
    }
}

/// The transform and the opposite one turn the other way: what one makes of the
/// mirrored samples is the mirror of what the other makes of the samples.
pub proof fn directions_are_mirrored<A: Arithmetic>(
    x: Seq<Complex<A::R>>,
    k: nat,
    n: nat,
)
    requires
        exact_laws::<A>(),
        negation_laws::<A>(),
        n <= x.len(),
        forall|i: int| 0 <= i < x.len() ==> A::finite((#[trigger] x[i]).re) && A::finite(x[i].im),
        forall|a: A::R| A::finite(#[trigger] A::cosine(a)),
        forall|a: A::R| A::finite(#[trigger] A::sine(a)),
    ensures
        ({
            let mirrored = Seq::new(x.len(), |i: int| complex::conjugate::<A>(x[i]));
            let there = dft_terms::<A>(x, k, false, n);
            &&& A::finite(there.re)
            &&& A::finite(there.im)
            &&& dft_terms::<A>(mirrored, k, true, n) == complex::conjugate::<A>(there)
        }),
    decreases n,
{
    let mirrored = Seq::new(x.len(), |i: int| complex::conjugate::<A>(x[i]));
    whole_numbers::<A>(0);
    if n == 0 {
        opposite::<A>(A::integer_value(0));
        sum_with_zero::<A>(A::negation(A::integer_value(0)));
    } else {
        let m = (n - 1) as nat;
        directions_are_mirrored::<A>(x, k, m);
        let s = x[n - 1];
        assert(A::finite(s.re) && A::finite(s.im));
        let angle = twiddle_angle::<A>(k * m, x.len());
        let c = A::cosine(angle);
        let t = A::sine(angle);
        let there = dft_terms::<A>(x, k, false, m);
        opposite::<A>(t);
        opposite::<A>(s.im);
        let nt = A::negation(t);
        let ac = A::product(s.re, c);
        let bt = A::product(s.im, t);
        let at = A::product(s.re, t);
        let bc = A::product(s.im, c);
        stays_finite::<A>(s.re, c);
        stays_finite::<A>(s.im, t);
        stays_finite::<A>(s.re, t);
        stays_finite::<A>(s.im, c);
        opposite_factors::<A>(s.im, t);
        opposite_factors::<A>(s.re, t);
        opposite_factors::<A>(s.im, c);
        opposite::<A>(bt);
        opposite::<A>(at);
        opposite::<A>(bc);
        stays_finite::<A>(ac, A::negation(bt));
        stays_finite::<A>(A::negation(at), bc);
        let term = complex::rotated::<A>(s, Complex { re: c, im: nt });
        opposites::<A>(at, A::negation(bc));
        opposites::<A>(A::negation(at), bc);
        assert(term.re == A::difference(ac, A::negation(bt)));
        assert(term.im == A::sum(A::negation(at), bc));
        let other = complex::rotated::<A>(complex::conjugate::<A>(s), Complex { re: c, im: t });
        assert(other.re == A::difference(ac, A::negation(bt)));
        assert(other.im == A::sum(at, A::negation(bc)));
        assert(A::negation(term.im) == other.im) by {
            opposites::<A>(A::negation(at), bc);
            opposite::<A>(at);
        }
        stays_finite::<A>(there.re, term.re);
        stays_finite::<A>(there.im, term.im);
        opposites::<A>(there.im, term.im);
    }
}

/// A tone that makes `k` turns in the samples of a block falls into bin `k`, with
/// the number of samples.
pub proof fn tone_falls_into_its_bin<A: Arithmetic>(x: Seq<Complex<A::R>>, k: nat, n: nat)
    requires
        exact_laws::<A>(),
        negation_laws::<A>(),
        n <= x.len() <= usize::MAX,
        forall|i: int|
            0 <= i < x.len() ==> {
                let angle = A::quotient(
                    A::product(
                        A::product(A::integer_value(2), A::half_turn()),
                        A::count_value(((k * i as nat) % x.len()) as usize),
                    ),
                    A::count_value(x.len() as usize),
                );
                (#[trigger] x[i]) == (Complex { re: A::cosine(angle), im: A::sine(angle) })
            },
        forall|a: A::R| A::finite(#[trigger] A::cosine(a)),
        forall|a: A::R| A::finite(#[trigger] A::sine(a)),
        forall|a: A::R|
            A::sum(
                A::product(#[trigger] A::cosine(a), A::cosine(a)),
                A::product(A::sine(a), A::sine(a)),
            ) == A::integer_value(1),
    ensures
        dft_terms::<A>(x, k, false, n) == (Complex {
            re: A::count_value(n as usize),
            im: A::integer_value(0),
        }),
    decreases n,
{
    let zero = A::integer_value(0);
    whole_numbers::<A>(0);
    counts::<A>(n as usize);
    if n > 0 {
        let m = (n - 1) as nat;
        tone_falls_into_its_bin::<A>(x, k, m);
        let angle = twiddle_angle::<A>(k * m, x.len());
        let c = A::cosine(angle);
        let s = A::sine(angle);
        assert(x[n - 1] == (Complex { re: c, im: s }));
        opposite::<A>(s);
        opposite_factors::<A>(s, s);
        opposite_factors::<A>(c, s);
        stays_finite::<A>(s, s);
        stays_finite::<A>(c, c);
        stays_finite::<A>(c, s);
        stays_finite::<A>(s, c);
        let ss = A::product(s, s);
        let cs = A::product(c, s);
        opposite::<A>(ss);
        opposites::<A>(A::product(c, c), A::negation(ss));
        opposite::<A>(cs);
        factors_in_any_order::<A>(s, c, c);
        sum_with_zero::<A>(zero);
    }
}

} // verus!
