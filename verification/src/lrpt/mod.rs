//! Demodulator for LRPT, the digital picture signal of the Meteor satellites.
//!
//! Four-phase keying goes through a matched filter, a [`Costas`] loop and a
//! [`Gardner`] loop. Offset keying goes through a matched filter, a
//! [`MeteorAgc`], a [`MeteorPll`] and a [`MmTiming`] clock.

pub mod costas;
pub mod meteor_agc;
pub mod meteor_pll;
pub mod mm_timing;
pub mod quarter;
pub mod rrc_filter;
pub mod slicer;
pub mod timing;

pub use crate::lrpt::costas::Costas;
pub use crate::lrpt::meteor_agc::MeteorAgc;
pub use crate::lrpt::meteor_pll::MeteorPll;
pub use crate::lrpt::mm_timing::MmTiming;
pub use crate::lrpt::rrc_filter::RrcFilter;
pub use crate::lrpt::slicer::slice_soft;
pub use crate::lrpt::timing::Gardner;

use crate::arith::{order_laws, within, Arithmetic};
use crate::block::Block;
use crate::complex;
use crate::exact::{
    all_finite, exact_laws, factor_of_sum, factors_in_any_order, negation_laws, products_undo,
    stays_finite, sum_with_zero, sums_undo, whole_numbers,
};
use crate::kernel::sum_of;
use crate::lrpt::costas::{carrier_comes_off, finite_sample};
use crate::lrpt::rrc_filter::constant_passes;
use crate::stream::repeated;
use crate::lrpt::meteor_agc::TARGET_MAG;
use crate::lrpt::meteor_pll::{averages_within, loudness, quiet_update};
use crate::lrpt::rrc_filter::RrcView;
use crate::lrpt::slicer::{even_about_zero, opposite_soft_bit, soft_bit, soft_bits};
use crate::lrpt::timing::GardnerView;
use crate::math::{full_turn, tau};
use crate::types::{Complex, DspError, Fault};
use vstd::prelude::*;

verus! {

/// Symbols a second.
pub const SYMBOL_RATE_HZ: i64 = 72_000;

/// Samples a second that the demodulator works at.
pub const SAMPLE_RATE_HZ: i64 = SYMBOL_RATE_HZ * 2;

/// Samples of a symbol.
pub const SAMPLES_PER_SYMBOL: usize = 2;

/// Bandwidth of the carrier recovery for four-phase keying.
pub fn costas_loop_bw<A: Arithmetic>() -> (r: A::R)
    ensures
        r == A::fraction_value(1, 200),
{
    A::fraction(1, 200)
}

/// Gain of the symbol length in the symbol timing for four-phase keying.
pub fn gardner_omega_gain<A: Arithmetic>() -> (r: A::R)
    ensures
        r == A::fraction_value(1, 1_000_000),
{
    A::fraction(1, 1_000_000)
}

/// Gain of the position in the symbol timing for four-phase keying.
pub fn gardner_mu_gain<A: Arithmetic>() -> (r: A::R)
    ensures
        r == A::fraction_value(1, 100),
{
    A::fraction(1, 100)
}

/// Bandwidth of the carrier recovery for offset keying: 1 Hz, in radians for
/// each symbol.
pub open spec fn pll_bandwidth<A: Arithmetic>() -> A::R {
    A::quotient(full_turn::<A>(), A::integer_value(SYMBOL_RATE_HZ))
}

/// Angle by which the symbol clock for offset keying turns with each sample.
pub open spec fn symbol_step<A: Arithmetic>() -> A::R {
    A::quotient(
        A::product(full_turn::<A>(), A::integer_value(SYMBOL_RATE_HZ)),
        A::integer_value(SAMPLE_RATE_HZ),
    )
}

/// Bandwidth of the symbol clock for offset keying.
pub open spec fn timing_bandwidth<A: Arithmetic>() -> A::R {
    A::fraction_value(1, 20_000)
}

/// How the signal is keyed.
#[derive(Debug, Clone, Copy, PartialEq, Eq, Structural)]
pub enum LrptMode {
    /// Four-phase keying.
    Qpsk,
    /// Four-phase keying with the quadrature half a symbol late.
    Oqpsk,
}

/// The loops behind the matched filter.
pub enum DemodInner<A: Arithmetic> {
    /// The loops for four-phase keying.
    Qpsk {
        /// Carrier recovery.
        costas: Costas<A>,
        /// Symbol timing.
        gardner: Gardner<A>,
    },
    /// The loops for offset keying.
    Oqpsk {
        /// Gain control.
        agc: MeteorAgc<A>,
        /// Carrier recovery.
        pll: MeteorPll<A>,
        /// Symbol timing.
        timing: MmTiming<A>,
        /// Real part of the symbol whose imaginary part comes next.
        pending_i: A::R,
    },
}

/// The state of [`DemodInner`].
pub enum InnerView<A: Arithmetic> {
    /// The loops for four-phase keying.
    Qpsk {
        /// Carrier recovery.
        costas: Costas<A>,
        /// Symbol timing.
        gardner: GardnerView<A>,
    },
    /// The loops for offset keying.
    Oqpsk {
        /// Gain control.
        agc: MeteorAgc<A>,
        /// Carrier recovery.
        pll: MeteorPll<A>,
        /// Symbol timing.
        timing: MmTiming<A>,
        /// Real part of the symbol whose imaginary part comes next.
        pending_i: A::R,
    },
}

impl<A: Arithmetic> DemodInner<A> {
    /// The state of the loops.
    pub open spec fn view(self) -> InnerView<A> {
        match self {
            DemodInner::Qpsk { costas, gardner } => InnerView::Qpsk {
                costas,
                gardner: gardner@,
            },
            DemodInner::Oqpsk { agc, pll, timing, pending_i } => InnerView::Oqpsk {
                agc,
                pll,
                timing,
                pending_i,
            },
        }
    }
}

impl<A: Arithmetic> InnerView<A> {
    /// The loops after the filtered sample `x`, and the symbol to slice, where
    /// there is one.
    ///
    /// With offset keying, the gain is controlled and the carrier taken off at
    /// every sample. The first tick of a symbol keeps its real part, the
    /// second one completes it, and the clock and the carrier recovery follow
    /// it.
    pub open spec fn step(self, x: Complex<A::R>) -> (Self, Option<Complex<A::R>>) {
        match self {
            InnerView::Qpsk { costas, gardner } => {
                let (costas, turned) = costas.step(x);
                let (gardner, symbol) = gardner.step(turned);
                (InnerView::Qpsk { costas, gardner }, symbol)
            },
            InnerView::Oqpsk { agc, pll, timing, pending_i } => {
                let (agc, levelled) = agc.step(x);
                let mixed = pll.turned(levelled);
                let pll = pll.turned_on();
                let (timing, tick) = timing.ticked();
                if tick == 1 {
                    (InnerView::Oqpsk { agc, pll, timing, pending_i: mixed.re }, None)
                } else if tick == 2 {
                    let symbol = Complex { re: pending_i, im: mixed.im };
                    let scale = A::quotient(A::integer_value(1), A::integer_value(TARGET_MAG));
                    (
                        InnerView::Oqpsk {
                            agc,
                            pll: pll.updated(pending_i, mixed.im),
                            timing: timing.retimed(symbol),
                            pending_i,
                        },
                        Some(complex::scaled::<A>(symbol, scale)),
                    )
                } else {
                    (InnerView::Oqpsk { agc, pll, timing, pending_i }, None)
                }
            },
        }
    }
}

/// The state of an [`LrptDemod`].
pub struct LrptView<A: Arithmetic> {
    /// The matched filter.
    pub rrc: RrcView<A>,
    /// The loops behind it.
    pub inner: InnerView<A>,
}

impl<A: Arithmetic> LrptView<A> {
    /// The demodulator after the sample `x`, and the soft bits, where there
    /// are any.
    pub open spec fn step(self, x: Complex<A::R>) -> (Self, Option<Seq<i8>>) {
        let (rrc, filtered) = self.rrc.step(x);
        let (inner, symbol) = self.inner.step(filtered);
        (
            LrptView { rrc, inner },
            match symbol {
                Some(s) => Some(soft_bits::<A>(s)),
                None => None,
            },
        )
    }
}

/// Demodulator from samples to soft bits.
pub struct LrptDemod<A: Arithmetic> {
    /// The matched filter.
    pub rrc: RrcFilter<A>,
    /// The loops behind it.
    pub inner: DemodInner<A>,
}

impl<A: Arithmetic> LrptDemod<A> {
    /// The filter is well formed.
    pub open spec fn wf(self) -> bool {
        self.rrc.wf()
    }

    /// The state of the demodulator.
    pub open spec fn view(self) -> LrptView<A> {
        LrptView { rrc: self.rrc@, inner: self.inner@ }
    }

    /// Why a demodulator for `mode` is not possible, where it is not: one of
    /// its loops is not.
    pub open spec fn refusal(mode: LrptMode) -> Option<Fault> {
        match mode {
            LrptMode::Qpsk => match Costas::<A>::refusal(A::fraction_value(1, 200)) {
                Some(e) => Some(e),
                None => Gardner::<A>::refusal(
                    A::count_value(SAMPLES_PER_SYMBOL),
                    A::fraction_value(1, 1_000_000),
                    A::fraction_value(1, 100),
                ),
            },
            LrptMode::Oqpsk => match MeteorPll::<A>::refusal(pll_bandwidth::<A>(), None) {
                Some(e) => Some(e),
                None => MmTiming::<A>::refusal(symbol_step::<A>(), timing_bandwidth::<A>()),
            },
        }
    }

    /// Whether the demodulator is the one that [`Self::new_with_mode`]
    /// creates.
    pub open spec fn started(self, mode: LrptMode) -> bool {
        &&& self.wf()
        &&& self.rrc@ == RrcFilter::<A>::fresh(SAMPLES_PER_SYMBOL)
        &&& match (mode, self.inner@) {
            (LrptMode::Qpsk, InnerView::Qpsk { costas, gardner }) => {
                &&& costas == Costas::<A>::fresh(A::fraction_value(1, 200))
                &&& gardner == Gardner::<A>::fresh(
                    A::count_value(SAMPLES_PER_SYMBOL),
                    A::fraction_value(1, 1_000_000),
                    A::fraction_value(1, 100),
                )
            },
            (LrptMode::Oqpsk, InnerView::Oqpsk { agc, pll, timing, pending_i }) => {
                &&& agc == MeteorAgc::<A>::fresh()
                &&& pll.started(pll_bandwidth::<A>(), true, None)
                &&& timing == MmTiming::<A>::fresh(symbol_step::<A>(), timing_bandwidth::<A>())
                &&& pending_i == A::integer_value(0)
            },
            _ => false,
        }
    }

    /// Creates a demodulator for four-phase keying.
    pub fn new() -> (r: Result<Self, DspError>)
        ensures
            match r {
                Err(e) => Self::refusal(LrptMode::Qpsk) == Some(e@),
                Ok(f) => Self::refusal(LrptMode::Qpsk) is None && f.started(LrptMode::Qpsk),
            },
    {
        Self::new_with_mode(LrptMode::Qpsk)
    }

    /// Creates a demodulator for `mode`.
    pub fn new_with_mode(mode: LrptMode) -> (r: Result<Self, DspError>)
        ensures
            match r {
                Err(e) => Self::refusal(mode) == Some(e@),
                Ok(f) => Self::refusal(mode) is None && f.started(mode),
            },
    {
        let inner: DemodInner<A> = match mode {
            LrptMode::Qpsk => match Self::build_qpsk_inner() {
                Ok(inner) => inner,
                Err(e) => {
                    return Err(e);
                },
            },
            LrptMode::Oqpsk => match Self::build_oqpsk_inner() {
                Ok(inner) => inner,
                Err(e) => {
                    return Err(e);
                },
            },
        };
        Ok(LrptDemod { rrc: RrcFilter::new(SAMPLES_PER_SYMBOL), inner })
    }

    fn build_qpsk_inner() -> (r: Result<DemodInner<A>, DspError>)
        ensures
            match r {
                Err(e) => Self::refusal(LrptMode::Qpsk) == Some(e@),
                Ok(inner) => {
                    &&& Self::refusal(LrptMode::Qpsk) is None
                    &&& inner@ == (InnerView::<A>::Qpsk {
                        costas: Costas::<A>::fresh(A::fraction_value(1, 200)),
                        gardner: Gardner::<A>::fresh(
                            A::count_value(SAMPLES_PER_SYMBOL),
                            A::fraction_value(1, 1_000_000),
                            A::fraction_value(1, 100),
                        ),
                    })
                },
            },
    {
        let costas: Costas<A> = match Costas::new(costas_loop_bw::<A>()) {
            Ok(costas) => costas,
            Err(e) => {
                return Err(e);
            },
        };
        let gardner: Gardner<A> = match Gardner::new(
            A::count(SAMPLES_PER_SYMBOL),
            gardner_omega_gain::<A>(),
            gardner_mu_gain::<A>(),
        ) {
            Ok(gardner) => gardner,
            Err(e) => {
                return Err(e);
            },
        };
        Ok(DemodInner::Qpsk { costas, gardner })
    }

    fn build_oqpsk_inner() -> (r: Result<DemodInner<A>, DspError>)
        ensures
            match r {
                Err(e) => Self::refusal(LrptMode::Oqpsk) == Some(e@),
                Ok(inner) => {
                    &&& Self::refusal(LrptMode::Oqpsk) is None
                    &&& match inner@ {
                        InnerView::Oqpsk { agc, pll, timing, pending_i } => {
                            &&& agc == MeteorAgc::<A>::fresh()
                            &&& pll.started(pll_bandwidth::<A>(), true, None)
                            &&& timing == MmTiming::<A>::fresh(
                                symbol_step::<A>(),
                                timing_bandwidth::<A>(),
                            )
                            &&& pending_i == A::integer_value(0)
                        },
                        _ => false,
                    }
                },
            },
    {
        let symbol_rate: A::R = A::integer(SYMBOL_RATE_HZ);
        let pll: MeteorPll<A> = match MeteorPll::new(
            A::over(tau::<A>(), symbol_rate),
            true,
            None,
        ) {
            Ok(pll) => pll,
            Err(e) => {
                return Err(e);
            },
        };
        let timing: MmTiming<A> = match MmTiming::new(
            A::over(A::times(tau::<A>(), symbol_rate), A::integer(SAMPLE_RATE_HZ)),
            A::fraction(1, 20_000),
        ) {
            Ok(timing) => timing,
            Err(e) => {
                return Err(e);
            },
        };
        Ok(DemodInner::Oqpsk { agc: MeteorAgc::new(), pll, timing, pending_i: A::integer(0) })
    }

    /// Whether the carrier recovery for offset keying has ever been locked;
    /// nothing with four-phase keying, which has no lock detector.
    pub fn oqpsk_locked_once(&self) -> (r: Option<bool>)
        ensures
            r == match self.inner@ {
                InnerView::Qpsk { .. } => None::<bool>,
                InnerView::Oqpsk { pll, .. } => Some(pll.locked_once),
            },
    {
        match &self.inner {
            DemodInner::Qpsk { .. } => None,
            DemodInner::Oqpsk { pll, .. } => Some(pll.locked_once()),
        }
    }

    /// Takes in a sample, and returns the soft bits of the symbol that it
    /// completes, where it completes one.
    pub fn process(&mut self, x: Complex<A::R>) -> (r: Option<[i8; 2]>)
        requires
            old(self).wf(),
        ensures
            final(self).wf(),
            final(self)@ == old(self)@.step(x).0,
            match (r, old(self)@.step(x).1) {
                (Some(bits), Some(expected)) => bits@ == expected,
                (None, None) => true,
                _ => false,
            },
    {
        let filtered: Complex<A::R> = self.rrc.process(x);
        match &mut self.inner {
            DemodInner::Qpsk { costas, gardner } => {
                let turned: Complex<A::R> = costas.process(filtered);
                match gardner.process(turned) {
                    Some(symbol) => Some(slice_soft::<A>(symbol)),
                    None => None,
                }
            },
            DemodInner::Oqpsk { agc, pll, timing, pending_i } => {
                let levelled: Complex<A::R> = agc.process(filtered);
                let mixed: Complex<A::R> = pll.mix(levelled);
                let tick: u8 = timing.advance_timeslot_dual();
                if tick == 1 {
                    *pending_i = mixed.re;
                    None
                } else if tick == 2 {
                    let symbol: Complex<A::R> = Complex { re: *pending_i, im: mixed.im };
                    timing.retime(symbol);
                    pll.update_estimate(*pending_i, mixed.im);
                    let scale: A::R = A::over(A::integer(1), A::integer(TARGET_MAG));
                    Some(slice_soft::<A>(complex::scale::<A>(symbol, scale)))
                } else {
                    None
                }
            },
        }
    }
}

impl<A: Arithmetic> InnerView<A> {
    /// Whether the symbol that the filtered sample `x` completes, if it
    /// completes one for the carrier recovery, is at most as loud as
    /// `loudest`.
    pub open spec fn quiet(self, x: Complex<A::R>, loudest: A::R) -> bool {
        match self {
            InnerView::Qpsk { .. } => true,
            InnerView::Oqpsk { agc, pll, timing, pending_i } => {
                let mixed = pll.turned(agc.step(x).1);
                timing.ticked().1 == 2 ==> within::<A>(
                    loudness::<A>(pending_i, mixed.im),
                    A::integer_value(0),
                    loudest,
                )
            },
        }
    }

    /// Whether the carrier recovery has never locked, and the mean magnitude
    /// of its symbols does not exceed `bound`.
    pub open spec fn unlocked(self, bound: A::R) -> bool {
        match self {
            InnerView::Qpsk { .. } => false,
            InnerView::Oqpsk { pll, .. } => {
                &&& !pll.locked
                &&& !pll.locked_once
                &&& within::<A>(pll.sig_ema, A::integer_value(0), bound)
            },
        }
    }
}

impl<A: Arithmetic> LrptView<A> {
    /// The demodulator after the samples `xs`.
    pub open spec fn after(self, xs: Seq<Complex<A::R>>) -> Self
        decreases xs.len(),
    {
        if xs.len() == 0 {
            self
        } else {
            self.after(xs.drop_last()).step(xs.last()).0
        }
    }

    /// Whether every symbol that `xs` completes is at most as loud as
    /// `loudest`.
    pub open spec fn quiet(self, xs: Seq<Complex<A::R>>, loudest: A::R) -> bool
        decreases xs.len(),
    {
        xs.len() == 0 || {
            let before = self.after(xs.drop_last());
            &&& self.quiet(xs.drop_last(), loudest)
            &&& before.inner.quiet(before.rrc.step(xs.last()).1, loudest)
        }
    }
}

/// A demodulator for offset keying never locks on symbols that are too quiet, in
/// the sense of [`meteor_pll::silence_never_locks`].
pub proof fn silence_never_locks<A: Arithmetic>(
    v: LrptView<A>,
    xs: Seq<Complex<A::R>>,
    bound: A::R,
    loudest: A::R,
)
    requires
        order_laws::<A>(),
        averages_within::<A>(bound, loudest),
        A::less(bound, A::fraction_value(95, 2)),
        v.quiet(xs, loudest),
        v.inner.unlocked(bound),
    ensures
        v.after(xs).inner.unlocked(bound),
    decreases xs.len(),
{
    if xs.len() > 0 {
        silence_never_locks(v, xs.drop_last(), bound, loudest);
        let before = v.after(xs.drop_last());
        let x = before.rrc.step(xs.last()).1;
        match before.inner {
            InnerView::Qpsk { .. } => {},
            InnerView::Oqpsk { agc, pll, timing, pending_i } => {
                if timing.ticked().1 == 2 {
                    let mixed = pll.turned(agc.step(x).1);
                    quiet_update(pll.turned_on(), pending_i, mixed.im, bound, loudest);
                }
            },
        }
    }
}

/// The bits of a symbol of four-phase keying are those of its two axes.
///
/// Bits come out exactly where the symbol timing gives a symbol. The first one
/// is the soft bit of the real part of the symbol, and the second one that of
/// the imaginary part.
pub proof fn bits_are_those_of_the_symbol<A: Arithmetic>(
    rrc: RrcView<A>,
    costas: Costas<A>,
    gardner: GardnerView<A>,
    x: Complex<A::R>,
)
    ensures
        ({
            let v = LrptView { rrc, inner: InnerView::Qpsk { costas, gardner } };
            let symbol = gardner.step(costas.step(rrc.step(x).1).1).1;
            &&& (v.step(x).1 is Some) == (symbol is Some)
            &&& symbol matches Some(s) ==> {
                let bits = v.step(x).1->0;
                &&& bits.len() == 2
                &&& bits[0] == soft_bit::<A>(s.re)
                &&& bits[1] == soft_bit::<A>(s.im)
            }
        }),
{
}

/// Where the symbol timings of two demodulators for four-phase keying give
/// symbols of which one mirrors the other in the real axis, the second bits are
/// opposite and the first bits are the same.
pub proof fn mirrored_symbol_mirrors_the_second_bit<A: Arithmetic>(
    v: LrptView<A>,
    w: LrptView<A>,
    x: Complex<A::R>,
    y: Complex<A::R>,
)
    requires
        exact_laws::<A>(),
        negation_laws::<A>(),
        order_laws::<A>(),
        even_about_zero::<A>(),
        match (v.inner, w.inner) {
            (
                InnerView::Qpsk { costas: c, gardner: g },
                InnerView::Qpsk { costas: d, gardner: h },
            ) => {
                let one = g.step(c.step(v.rrc.step(x).1).1).1;
                let other = h.step(d.step(w.rrc.step(y).1).1).1;
                &&& one is Some
                &&& other is Some
                &&& A::finite(one->0.im)
                &&& other->0.re == one->0.re
                &&& other->0.im == A::negation(one->0.im)
            },
            _ => false,
        },
    ensures
        v.step(x).1 is Some,
        w.step(y).1 is Some,
        w.step(y).1->0[0] == v.step(x).1->0[0],
        w.step(y).1->0[1] == -v.step(x).1->0[1],
{
    match (v.inner, w.inner) {
        (InnerView::Qpsk { costas: c, gardner: g }, InnerView::Qpsk { costas: d, gardner: h }) => {
            let one = g.step(c.step(v.rrc.step(x).1).1).1->0;
            opposite_soft_bit::<A>(one.im);
        },
        _ => {},
    }
}

/// A symbol that lasts is received: a demodulator for four-phase keying that
/// has heard nothing but `symbol`, turned by the phase of its carrier recovery,
/// gives out the soft bits of the two axes of `symbol`.
pub proof fn lasting_symbol_is_received<A: Arithmetic>(
    rrc: RrcView<A>,
    costas: Costas<A>,
    gardner: GardnerView<A>,
    symbol: Complex<A::R>,
)
    requires
        exact_laws::<A>(),
        negation_laws::<A>(),
        finite_sample::<A>(symbol),
        all_finite::<A>(rrc.taps),
        sum_of::<A>(rrc.taps, rrc.taps.len()) == A::integer_value(1),
        A::finite(A::cosine(costas.pcl.phase)),
        A::finite(A::sine(costas.pcl.phase)),
        A::sum(
            A::product(A::cosine(costas.pcl.phase), A::cosine(costas.pcl.phase)),
            A::product(A::sine(costas.pcl.phase), A::sine(costas.pcl.phase)),
        ) == A::integer_value(1),
        rrc.history == repeated(on_carrier::<A>(symbol, costas.pcl.phase), rrc.taps.len()),
        gardner.pending == seq![symbol, symbol],
        A::finite(gardner.mu),
    ensures
        (LrptView { rrc, inner: InnerView::Qpsk { costas, gardner } }).step(
            on_carrier::<A>(symbol, costas.pcl.phase),
        ).1 == Some(seq![soft_bit::<A>(symbol.re), soft_bit::<A>(symbol.im)]),
{
    let c = A::cosine(costas.pcl.phase);
    let s = A::sine(costas.pcl.phase);
    let x = on_carrier::<A>(symbol, costas.pcl.phase);
    stays_finite::<A>(symbol.re, c);
    stays_finite::<A>(symbol.im, s);
    stays_finite::<A>(symbol.re, s);
    stays_finite::<A>(symbol.im, c);
    stays_finite::<A>(A::product(symbol.re, c), A::product(symbol.im, s));
    stays_finite::<A>(A::product(symbol.re, s), A::product(symbol.im, c));
    constant_passes::<A>(rrc, x);
    carrier_comes_off::<A>(costas, symbol);
    let one = A::integer_value(1);
    let mu = gardner.mu;
    whole_numbers::<A>(1);
    stays_finite::<A>(one, mu);
    let rest = A::difference(one, mu);
    sums_undo::<A>(one, mu);
    factor_of_sum::<A>(rest, mu, symbol.re);
    factor_of_sum::<A>(rest, mu, symbol.im);
    sum_with_zero::<A>(symbol.re);
    sum_with_zero::<A>(symbol.im);
    let three = gardner.pending.push(symbol);
    assert(three[1] == symbol && three[2] == symbol);
}

/// `symbol`, turned by `phase`.
pub open spec fn on_carrier<A: Arithmetic>(symbol: Complex<A::R>, phase: A::R) -> Complex<A::R> {
    let c = A::cosine(phase);
    let s = A::sine(phase);
    Complex {
        re: A::difference(A::product(symbol.re, c), A::product(symbol.im, s)),
        im: A::sum(A::product(symbol.re, s), A::product(symbol.im, c)),
    }
}

/// With offset keying a symbol takes two ticks of the clock: the first bit is
/// that of the real axis at the first tick, the second bit that of the imaginary
/// axis at the second tick, and nothing comes out at the first tick.
///
/// `x` is the sample at the first tick and `y` the one at the second, as they
/// come out of the matched filter, and what the axes are at a tick is what the
/// gain control and the carrier recovery make of the sample.
pub proof fn offset_symbol_takes_two_ticks<A: Arithmetic>(
    agc: MeteorAgc<A>,
    pll: MeteorPll<A>,
    timing: MmTiming<A>,
    before: A::R,
    x: Complex<A::R>,
    y: Complex<A::R>,
)
    requires
        timing.ticked().1 == 1,
        timing.ticked().0.ticked().1 == 2,
    ensures
        ({
            let v = InnerView::Oqpsk { agc, pll, timing, pending_i: before };
            let (first, nothing) = v.step(x);
            let (second, symbol) = first.step(y);
            let early = pll.turned(agc.step(x).1);
            let late = pll.turned_on().turned(agc.step(x).0.step(y).1);
            let share = A::quotient(A::integer_value(1), A::integer_value(190));
            &&& nothing is None
            &&& symbol is Some
            &&& soft_bits::<A>(symbol->0) == seq![
                soft_bit::<A>(A::product(early.re, share)),
                soft_bit::<A>(A::product(late.im, share)),
            ]
        }),
{
}

/// The symbol clock turns once in a symbol: by half a turn with each of its two
/// samples.
pub proof fn symbol_has_two_samples<A: Arithmetic>()
    requires
        exact_laws::<A>(),
        A::finite(A::half_turn()),
        A::integer_value(144_000) == A::product(A::integer_value(2), A::integer_value(72_000)),
    ensures
        A::product(symbol_step::<A>(), A::integer_value(2)) == A::product(
            A::integer_value(2),
            A::half_turn(),
        ),
        symbol_step::<A>() == A::half_turn(),
        A::product(pll_bandwidth::<A>(), A::integer_value(72_000)) == A::product(
            A::integer_value(2),
            A::half_turn(),
        ),
{
    let two = A::integer_value(2);
    let rate = A::integer_value(72_000);
    let pi = A::half_turn();
    whole_numbers::<A>(2);
    whole_numbers::<A>(72_000);
    whole_numbers::<A>(144_000);
    stays_finite::<A>(two, pi);
    let turn = A::product(two, pi);
    factors_in_any_order::<A>(two, pi, rate);
    factors_in_any_order::<A>(two, rate, pi);
    stays_finite::<A>(two, rate);
    factors_in_any_order::<A>(A::integer_value(144_000), pi, pi);
    products_undo::<A>(pi, A::integer_value(144_000));
    products_undo::<A>(turn, rate);
    factors_in_any_order::<A>(pi, two, two);
}

} // verus!
