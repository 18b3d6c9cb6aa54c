//! Search for the sync bursts in the envelope.

use crate::apt::{
    SyncChannel, SAMPLES_PER_PIXEL, SAMPLES_PER_SYNC_B_CYCLE, SYNC_A_LEADING_PAD_PX,
    SYNC_A_MODULATED_PX, SYNC_A_TEMPLATE_LEN, SYNC_A_TOTAL_PX, SYNC_BURST_CYCLES,
    SYNC_B_TEMPLATE_LEN,
};
use crate::arith::{clamp, clamped, comparable, order_laws, Arithmetic};
use crate::exact::{
    common_addend, exact_laws, products_undo, quotient_of_sum, raised_by, stays_finite,
    sum_of_finite, sum_of_raised, sum_with_zero, whole_numbers,
};
use crate::kernel::sum_of;
use vstd::prelude::*;

verus! {

/// The mean of `xs`.
pub open spec fn mean_of<A: Arithmetic>(xs: Seq<A::R>) -> A::R {
    A::quotient(sum_of::<A>(xs, xs.len()), A::count_value(xs.len() as usize))
}

/// The sum of the squares of the first `n` of `xs`.
pub open spec fn squares_of<A: Arithmetic>(xs: Seq<A::R>, n: nat) -> A::R
    decreases n,
{
    if n == 0 {
        A::integer_value(0)
    } else {
        A::sum(squares_of::<A>(xs, (n - 1) as nat), A::product(xs[n - 1], xs[n - 1]))
    }
}

/// The length of `xs` as a vector.
pub open spec fn norm_of<A: Arithmetic>(xs: Seq<A::R>) -> A::R {
    A::root(squares_of::<A>(xs, xs.len()))
}

/// `xs` with their mean taken off.
pub open spec fn centred<A: Arithmetic>(xs: Seq<A::R>) -> Seq<A::R> {
    Seq::new(xs.len(), |i: int| A::difference(xs[i], mean_of::<A>(xs)))
}

/// What the first `n` samples of `window`, with `mean` taken off, add up to
/// when each is multiplied by its counterpart in `template`.
pub open spec fn match_of<A: Arithmetic>(
    window: Seq<A::R>,
    template: Seq<A::R>,
    mean: A::R,
    n: nat,
) -> A::R
    decreases n,
{
    if n == 0 {
        A::integer_value(0)
    } else {
        A::sum(
            match_of::<A>(window, template, mean, (n - 1) as nat),
            A::product(A::difference(window[n - 1], mean), template[n - 1]),
        )
    }
}

/// The energy of the first `n` samples of `window`, with `mean` taken off.
pub open spec fn energy_of<A: Arithmetic>(window: Seq<A::R>, mean: A::R, n: nat) -> A::R
    decreases n,
{
    if n == 0 {
        A::integer_value(0)
    } else {
        let x = A::difference(window[n - 1], mean);
        A::sum(energy_of::<A>(window, mean, (n - 1) as nat), A::product(x, x))
    }
}

/// The smallest number that a correlation is divided by.
pub open spec fn smallest_divisor<A: Arithmetic>() -> A::R {
    A::fraction_value(1, 1_000_000_000)
}

/// The correlation of `window` with `template`, whose norm is `norm`: 1 where
/// the window has the shape of the template, whatever its level.
pub open spec fn correlation<A: Arithmetic>(
    window: Seq<A::R>,
    template: Seq<A::R>,
    norm: A::R,
) -> A::R {
    let mean = mean_of::<A>(window);
    let energy = energy_of::<A>(window, mean, window.len());
    A::quotient(
        match_of::<A>(window, template, mean, window.len()),
        A::greater(A::product(A::root(energy), norm), smallest_divisor::<A>()),
    )
}

/// The correlation of `template` with the samples of `envelope` from `at` on.
pub open spec fn correlation_at<A: Arithmetic>(
    envelope: Seq<A::R>,
    template: Seq<A::R>,
    norm: A::R,
    at: int,
) -> A::R {
    correlation::<A>(envelope.subrange(at, at + template.len()), template, norm)
}

/// Where `template` matches best among the first `n` places of `envelope`,
/// with the correlation there. Of equal matches the first one counts; where
/// nothing compares, the first place does.
pub open spec fn best_match<A: Arithmetic>(
    envelope: Seq<A::R>,
    template: Seq<A::R>,
    norm: A::R,
    n: nat,
) -> (int, A::R)
    decreases n,
{
    if n == 0 {
        (0, A::lowest())
    } else {
        let before = best_match::<A>(envelope, template, norm, (n - 1) as nat);
        let score = correlation_at::<A>(envelope, template, norm, n - 1);
        if A::less(before.1, score) {
            (n - 1, score)
        } else {
            before
        }
    }
}

/// The best match is one of the places that were compared.
pub proof fn best_match_in_range<A: Arithmetic>(
    envelope: Seq<A::R>,
    template: Seq<A::R>,
    norm: A::R,
    n: nat,
)
    ensures
        n > 0 ==> 0 <= best_match::<A>(envelope, template, norm, n).0 < n,
        n == 0 ==> best_match::<A>(envelope, template, norm, n).0 == 0,
    decreases n,
{
    if n > 0 {
        best_match_in_range::<A>(envelope, template, norm, (n - 1) as nat);
    }
}

/// The score of the best match is the correlation at its place, unless no place
/// compares above the lowest number.
pub proof fn best_match_scores<A: Arithmetic>(
    envelope: Seq<A::R>,
    template: Seq<A::R>,
    norm: A::R,
    n: nat,
)
    ensures
        ({
            let (at, score) = best_match::<A>(envelope, template, norm, n);
            ||| score == correlation_at::<A>(envelope, template, norm, at)
            ||| at == 0 && score == A::lowest() && forall|k: int|
                0 <= k < n ==> !A::less(
                    A::lowest(),
                    #[trigger] correlation_at::<A>(envelope, template, norm, k),
                )
        }),
    decreases n,
{
    if n > 0 {
        best_match_scores::<A>(envelope, template, norm, (n - 1) as nat);
    }
}

/// No place scores higher than the best match, and those before it score lower,
/// where numbers are ordered and the lowest number is one of them.
pub proof fn best_match_is_best<A: Arithmetic>(
    envelope: Seq<A::R>,
    template: Seq<A::R>,
    norm: A::R,
    n: nat,
    k: int,
)
    requires
        order_laws::<A>(),
        comparable::<A>(A::lowest()),
        0 <= k < n,
    ensures
        ({
            let (at, best) = best_match::<A>(envelope, template, norm, n);
            let score = correlation_at::<A>(envelope, template, norm, k);
            &&& comparable::<A>(best)
            &&& !A::less(best, score)
            &&& comparable::<A>(score) ==> A::at_most(score, best)
            &&& k < at && comparable::<A>(score) ==> A::less(score, best)
        }),
    decreases n,
{
    let before = best_match::<A>(envelope, template, norm, (n - 1) as nat);
    let last = correlation_at::<A>(envelope, template, norm, n - 1);
    let score = correlation_at::<A>(envelope, template, norm, k);
    best_match_compares::<A>(envelope, template, norm, (n - 1) as nat);
    best_match_in_range::<A>(envelope, template, norm, (n - 1) as nat);
    if k < n - 1 {
        best_match_is_best::<A>(envelope, template, norm, (n - 1) as nat, k);
        if A::less(before.1, last) {
            if comparable::<A>(score) {
                assert(A::at_most(score, last));
                if !A::less(score, last) {
                    assert(A::at_most(last, score));
                    assert(A::at_most(last, before.1));
                }
            }
            if A::less(last, score) {
                assert(A::at_most(last, score));
            }
        }
    }
}

/// The score of the best match is defined.
pub proof fn best_match_compares<A: Arithmetic>(
    envelope: Seq<A::R>,
    template: Seq<A::R>,
    norm: A::R,
    n: nat,
)
    requires
        order_laws::<A>(),
        comparable::<A>(A::lowest()),
    ensures
        comparable::<A>(best_match::<A>(envelope, template, norm, n).1),
    decreases n,
{
    if n > 0 {
        best_match_compares::<A>(envelope, template, norm, (n - 1) as nat);
    }
}

/// Without its mean, a window is the same at any level.
proof fn raised_window<A: Arithmetic>(
    window: Seq<A::R>,
    template: Seq<A::R>,
    c: A::R,
    n: nat,
)
    requires
        exact_laws::<A>(),
        0 < window.len() <= usize::MAX,
        n <= window.len(),
        A::finite(c),
        forall|i: int| 0 <= i < window.len() ==> A::finite(#[trigger] window[i]),
    ensures
        ({
            let raised = raised_by::<A>(window, c);
            let mean = mean_of::<A>(window);
            &&& mean_of::<A>(raised) == A::sum(mean, c)
            &&& match_of::<A>(raised, template, A::sum(mean, c), n) == match_of::<A>(
                window,
                template,
                mean,
                n,
            )
            &&& energy_of::<A>(raised, A::sum(mean, c), n) == energy_of::<A>(window, mean, n)
        }),
    decreases n,
{
    let len = window.len();
    let total = sum_of::<A>(window, len);
    sum_of_raised::<A>(window, c, len);
    sum_of_finite::<A>(window, len);
    quotient_of_sum::<A>(total, A::count_value(len as usize), c);
    stays_finite::<A>(total, A::count_value(len as usize));
    if n > 0 {
        raised_window::<A>(window, template, c, (n - 1) as nat);
        common_addend::<A>(window[n - 1], mean_of::<A>(window), c);
    }
}

/// A constant that is added to the envelope does not change its correlation
/// with a pattern, where numbers are exact.
pub proof fn level_does_not_matter<A: Arithmetic>(
    envelope: Seq<A::R>,
    template: Seq<A::R>,
    norm: A::R,
    c: A::R,
    at: int,
)
    requires
        exact_laws::<A>(),
        0 < template.len() <= usize::MAX,
        0 <= at,
        at + template.len() <= envelope.len(),
        A::finite(c),
        forall|i: int| 0 <= i < envelope.len() ==> A::finite(#[trigger] envelope[i]),
    ensures
        correlation_at::<A>(raised_by::<A>(envelope, c), template, norm, at)
            == correlation_at::<A>(envelope, template, norm, at),
{
    let window = envelope.subrange(at, at + template.len());
    assert(raised_by::<A>(envelope, c).subrange(at, at + template.len()) =~= raised_by::<A>(
        window,
        c,
    ));
    raised_window::<A>(window, template, c, window.len());
}

/// A constant that is added to the envelope changes neither where a pattern
/// matches best nor how well, where numbers are exact.
pub proof fn best_match_at_any_level<A: Arithmetic>(
    envelope: Seq<A::R>,
    template: Seq<A::R>,
    norm: A::R,
    c: A::R,
    n: nat,
)
    requires
        exact_laws::<A>(),
        0 < template.len() <= usize::MAX,
        n > 0 ==> n - 1 + template.len() <= envelope.len(),
        A::finite(c),
        forall|i: int| 0 <= i < envelope.len() ==> A::finite(#[trigger] envelope[i]),
    ensures
        best_match::<A>(raised_by::<A>(envelope, c), template, norm, n) == best_match::<A>(
            envelope,
            template,
            norm,
            n,
        ),
    decreases n,
{
    if n > 0 {
        best_match_at_any_level::<A>(envelope, template, norm, c, (n - 1) as nat);
        level_does_not_matter::<A>(envelope, template, norm, c, n - 1);
    }
}

/// The search looks at nothing behind the places that it compares.
pub proof fn best_match_local<A: Arithmetic>(
    long: Seq<A::R>,
    short: Seq<A::R>,
    template: Seq<A::R>,
    norm: A::R,
    n: nat,
)
    requires
        n > 0 ==> n - 1 + template.len() <= short.len() <= long.len(),
        n > 0 ==> short == long.take(short.len() as int),
    ensures
        best_match::<A>(long, template, norm, n) == best_match::<A>(short, template, norm, n),
    decreases n,
{
    if n > 0 {
        best_match_local::<A>(long, short, template, norm, (n - 1) as nat);
        assert(long.subrange(n - 1, n - 1 + template.len()) =~= short.subrange(
            n - 1,
            n - 1 + template.len(),
        ));
    }
}

/// A square wave: in each cycle one half high, the other half low.
pub open spec fn square_wave<A: Arithmetic>(samples_per_cycle: int, cycles: int) -> Seq<A::R> {
    Seq::new(
        (samples_per_cycle * cycles) as nat,
        |i: int|
            if i % samples_per_cycle < samples_per_cycle / 2 {
                A::integer_value(1)
            } else {
                A::integer_value((-1) as i64)
            },
    )
}

/// The pattern of Sync A: silence, a burst whose cycles are two pixels low and
/// two pixels high, and silence again.
pub open spec fn sync_a_pattern<A: Arithmetic>(samples_per_pixel: int) -> Seq<A::R> {
    Seq::new(
        (SYNC_A_TOTAL_PX * samples_per_pixel) as nat,
        |i: int|
            {
                let at = i - SYNC_A_LEADING_PAD_PX * samples_per_pixel;
                if 0 <= at < SYNC_A_MODULATED_PX * samples_per_pixel && (at / (2
                    * samples_per_pixel)) % 2 == 1 {
                    A::integer_value(1)
                } else {
                    A::integer_value((-1) as i64)
                }
            },
    )
}

fn total<A: Arithmetic>(xs: &[A::R]) -> (r: A::R)
    ensures
        r == sum_of::<A>(xs@, xs@.len()),
{
    let mut sum: A::R = A::integer(0);
    let mut i: usize = 0;
    while i < xs.len()
        invariant
            i <= xs@.len(),
            sum == sum_of::<A>(xs@, i as nat),
        decreases xs.len() - i,
    {
        sum = A::plus(sum, xs[i]);
        i = i + 1;
    }
    sum
}

/// Takes the mean off `pattern`, and returns the result with its norm.
fn centre<A: Arithmetic>(pattern: Vec<A::R>) -> (r: (Vec<A::R>, A::R))
    ensures
        r.0@ == centred::<A>(pattern@),
        r.1 == norm_of::<A>(r.0@),
{
    let len: usize = pattern.len();
    let mean: A::R = A::over(total::<A>(pattern.as_slice()), A::count(len));
    let mut template: Vec<A::R> = Vec::with_capacity(len);
    let mut squares: A::R = A::integer(0);
    let mut i: usize = 0;
    while i < len
        invariant
            i <= len == pattern@.len(),
            mean == mean_of::<A>(pattern@),
            template@ =~= centred::<A>(pattern@).take(i as int),
            squares == squares_of::<A>(centred::<A>(pattern@), i as nat),
        decreases len - i,
    {
        let x: A::R = A::minus(pattern[i], mean);
        template.push(x);
        squares = A::plus(squares, A::times(x, x));
        i = i + 1;
    }
    assert(template@ =~= centred::<A>(pattern@));
    (template, A::sqrt(squares))
}

/// A square wave of `cycles` cycles without its mean, with its norm.
pub fn build_square_template<A: Arithmetic>(samples_per_cycle: usize, cycles: usize) -> (r: (
    Vec<A::R>,
    A::R,
))
    requires
        samples_per_cycle * cycles <= usize::MAX,
    ensures
        r.0@ == centred::<A>(square_wave::<A>(samples_per_cycle as int, cycles as int)),
        r.1 == norm_of::<A>(r.0@),
{
    let ghost wave = square_wave::<A>(samples_per_cycle as int, cycles as int);
    assert(0 <= samples_per_cycle * cycles) by (nonlinear_arith)
        requires
            0 <= samples_per_cycle,
            0 <= cycles,
    ;
    let len: usize = samples_per_cycle * cycles;
    let half: usize = samples_per_cycle / 2;
    let mut pattern: Vec<A::R> = Vec::with_capacity(len);
    let mut i: usize = 0;
    while i < len
        invariant
            i <= len == samples_per_cycle * cycles,
            half == samples_per_cycle / 2,
            wave == square_wave::<A>(samples_per_cycle as int, cycles as int),
            wave.len() == len,
            pattern@ =~= wave.take(i as int),
        decreases len - i,
    {
        assert(samples_per_cycle > 0) by (nonlinear_arith)
            requires
                0 < samples_per_cycle * cycles,
                0 <= samples_per_cycle,
                0 <= cycles,
        ;
        let x: A::R = if i % samples_per_cycle < half {
            A::integer(1)
        } else {
            A::integer(-1)
        };
        pattern.push(x);
        i = i + 1;
    }
    assert(pattern@ =~= wave);
    centre::<A>(pattern)
}

/// The pattern of Sync A at `samples_per_pixel` without its mean, with its
/// norm.
pub fn build_padded_sync_a_template<A: Arithmetic>(samples_per_pixel: usize) -> (r: (
    Vec<A::R>,
    A::R,
))
    requires
        SYNC_A_TOTAL_PX * samples_per_pixel <= usize::MAX,
    ensures
        r.0@ == centred::<A>(sync_a_pattern::<A>(samples_per_pixel as int)),
        r.1 == norm_of::<A>(r.0@),
{
    let ghost whole = sync_a_pattern::<A>(samples_per_pixel as int);
    assert(SYNC_A_TOTAL_PX * samples_per_pixel == 38 * samples_per_pixel);
    assert(SYNC_A_MODULATED_PX * samples_per_pixel == 28 * samples_per_pixel);
    let half_cycle: usize = 2 * samples_per_pixel;
    let leading: usize = SYNC_A_LEADING_PAD_PX * samples_per_pixel;
    let modulated: usize = SYNC_A_MODULATED_PX * samples_per_pixel;
    let len: usize = SYNC_A_TOTAL_PX * samples_per_pixel;
    let mut pattern: Vec<A::R> = Vec::with_capacity(len);
    let mut i: usize = 0;
    while i < len
        invariant
            i <= len == SYNC_A_TOTAL_PX * samples_per_pixel,
            half_cycle == 2 * samples_per_pixel,
            leading == SYNC_A_LEADING_PAD_PX * samples_per_pixel,
            modulated == SYNC_A_MODULATED_PX * samples_per_pixel,
            whole == sync_a_pattern::<A>(samples_per_pixel as int),
            whole.len() == len,
            pattern@ =~= whole.take(i as int),
        decreases len - i,
    {
        let high: bool = i >= leading && i - leading < modulated && ((i - leading) / half_cycle) % 2
            == 1;
        let x: A::R = if high {
            A::integer(1)
        } else {
            A::integer(-1)
        };
        pattern.push(x);
        i = i + 1;
    }
    assert(pattern@ =~= whole);
    centre::<A>(pattern)
}

/// [`correlation_at`].
fn correlate_at<A: Arithmetic>(
    envelope: &[A::R],
    template: &[A::R],
    norm: A::R,
    at: usize,
) -> (r: A::R)
    requires
        at + template@.len() <= envelope@.len(),
    ensures
        r == correlation_at::<A>(envelope@, template@, norm, at as int),
{
    let len: usize = template.len();
    let whole: usize = envelope.len();
    let ghost window = envelope@.subrange(at as int, at + len);
    let mut sum: A::R = A::integer(0);
    let mut i: usize = 0;
    while i < len
        invariant
            i <= len == template@.len(),
            at + len <= envelope@.len() == whole,
            window == envelope@.subrange(at as int, at + len),
            sum == sum_of::<A>(window, i as nat),
        decreases len - i,
    {
        assert(window[i as int] == envelope@[at + i]);
        sum = A::plus(sum, envelope[at + i]);
        i = i + 1;
    }
    let mean: A::R = A::over(sum, A::count(len));
    let mut product: A::R = A::integer(0);
    let mut energy: A::R = A::integer(0);
    let mut j: usize = 0;
    while j < len
        invariant
            j <= len == template@.len(),
            at + len <= envelope@.len() == whole,
            window == envelope@.subrange(at as int, at + len),
            product == match_of::<A>(window, template@, mean, j as nat),
            energy == energy_of::<A>(window, mean, j as nat),
        decreases len - j,
    {
        assert(window[j as int] == envelope@[at + j]);
        let x: A::R = A::minus(envelope[at + j], mean);
        product = A::plus(product, A::times(x, template[j]));
        energy = A::plus(energy, A::times(x, x));
        j = j + 1;
    }
    assert(window.len() == len);
    A::over(product, A::max(A::times(A::sqrt(energy), norm), A::fraction(1, 1_000_000_000)))
}

/// A place where a sync burst matches.
#[derive(Debug, PartialEq)]
pub struct SyncMatch<R> {
    /// The sample of the envelope that the pattern starts at.
    pub offset: usize,
    /// Which burst matched.
    pub channel: SyncChannel,
    /// The correlation, held to the range from 0 to 1.
    pub quality: R,
}

impl<R: Copy> Clone for SyncMatch<R> {
    fn clone(&self) -> (r: Self)
        ensures
            r == *self,
    {
        *self
    }
}

impl<R: Copy> Copy for SyncMatch<R> {

}

/// Search for the sync bursts of a line in its envelope.
pub struct SyncDetector<A: Arithmetic> {
    /// Pattern of Sync A without its mean.
    pub template_a: Vec<A::R>,
    /// Pattern of Sync B without its mean.
    pub template_b: Vec<A::R>,
    /// Norm of the pattern of Sync A.
    pub template_a_norm: A::R,
    /// Norm of the pattern of Sync B.
    pub template_b_norm: A::R,
}

impl<A: Arithmetic> Default for SyncDetector<A> {
    fn default() -> (d: Self)
        ensures
            d.wf(),
    {
        Self::new()
    }
}

impl<A: Arithmetic> SyncDetector<A> {
    /// The patterns and norms are those of the two bursts.
    pub open spec fn wf(self) -> bool {
        &&& self.template_a@ == centred::<A>(sync_a_pattern::<A>(SAMPLES_PER_PIXEL as int))
        &&& self.template_b@ == centred::<A>(
            square_wave::<A>(SAMPLES_PER_SYNC_B_CYCLE as int, SYNC_BURST_CYCLES as int),
        )
        &&& self.template_a_norm == norm_of::<A>(self.template_a@)
        &&& self.template_b_norm == norm_of::<A>(self.template_b@)
    }

    /// The pattern of `channel` without its mean.
    pub open spec fn template(self, channel: SyncChannel) -> Seq<A::R> {
        match channel {
            SyncChannel::A => self.template_a@,
            SyncChannel::B => self.template_b@,
        }
    }

    /// The norm of the pattern of `channel`.
    pub open spec fn norm(self, channel: SyncChannel) -> A::R {
        match channel {
            SyncChannel::A => self.template_a_norm,
            SyncChannel::B => self.template_b_norm,
        }
    }

    /// Creates a detector.
    pub fn new() -> (d: Self)
        ensures
            d.wf(),
    {
        let (template_a, template_a_norm) = build_padded_sync_a_template::<A>(SAMPLES_PER_PIXEL);
        let (template_b, template_b_norm) = build_square_template::<A>(
            SAMPLES_PER_SYNC_B_CYCLE,
            SYNC_BURST_CYCLES,
        );
        SyncDetector { template_a, template_b, template_a_norm, template_b_norm }
    }

    /// Length of the pattern of Sync A.
    pub fn template_a_len(&self) -> (r: usize)
        ensures
            r == self.template_a@.len(),
            self.wf() ==> r == SYNC_A_TEMPLATE_LEN,
    {
        self.template_a.len()
    }

    /// Length of the pattern of Sync B.
    pub fn template_b_len(&self) -> (r: usize)
        ensures
            r == self.template_b@.len(),
            self.wf() ==> r == SYNC_B_TEMPLATE_LEN,
    {
        self.template_b.len()
    }

    /// What [`Self::find_best`] finds.
    pub open spec fn best(self, envelope: Seq<A::R>, channel: SyncChannel) -> Option<
        SyncMatch<A::R>,
    > {
        let template = self.template(channel);
        if envelope.len() < template.len() {
            None
        } else {
            let best = best_match::<A>(
                envelope,
                template,
                self.norm(channel),
                (envelope.len() - template.len() + 1) as nat,
            );
            Some(
                SyncMatch {
                    offset: best.0 as usize,
                    channel,
                    quality: clamped::<A>(best.1, A::integer_value(0), A::integer_value(1)),
                },
            )
        }
    }

    /// Finds where the burst of `channel` matches `envelope` best; nothing
    /// where the envelope is shorter than the pattern.
    pub fn find_best(&self, envelope: &[A::R], channel: SyncChannel) -> (r: Option<
        SyncMatch<A::R>,
    >)
        ensures
            r == self.best(envelope@, channel),
            r is Some ==> r->0.offset + self.template(channel).len() <= envelope@.len(),
    {
        let (template, norm): (&[A::R], A::R) = self.template_for(channel);
        if envelope.len() < template.len() {
            return None;
        }
        let last: usize = envelope.len() - template.len();
        let mut best_score: A::R = A::neg_infinity();
        let mut best_offset: usize = 0;
        let mut at: usize = 0;
        let mut done: bool = false;
        let ghost mut compared: nat = 0;
        while !done
            invariant
                at <= last,
                last + template@.len() == envelope@.len(),
                compared == (if done {
                    last + 1
                } else {
                    at as int
                }),
                best_offset <= last,
                (best_offset as int, best_score) == best_match::<A>(
                    envelope@,
                    template@,
                    norm,
                    compared,
                ),
            decreases last - at + (if done {
                0int
            } else {
                1int
            }),
        {
            let score: A::R = correlate_at::<A>(envelope, template, norm, at);
            if A::lt(best_score, score) {
                best_score = score;
                best_offset = at;
            }
            proof {
                compared = compared + 1;
            }
            if at < last {
                at = at + 1;
            } else {
                done = true;
            }
        }
        Some(
            SyncMatch {
                offset: best_offset,
                channel,
                quality: clamp::<A>(best_score, A::integer(0), A::integer(1)),
            },
        )
    }

    /// What [`Self::quality_at`] returns.
    pub open spec fn quality(self, envelope: Seq<A::R>, offset: int, channel: SyncChannel) -> Option<
        A::R,
    > {
        let template = self.template(channel);
        if offset + template.len() > envelope.len() {
            None
        } else {
            Some(
                clamped::<A>(
                    correlation_at::<A>(envelope, template, self.norm(channel), offset),
                    A::integer_value(0),
                    A::integer_value(1),
                ),
            )
        }
    }

    /// How well the burst of `channel` matches `envelope` at `offset`; nothing
    /// where the pattern does not fit there.
    pub fn quality_at(&self, envelope: &[A::R], offset: usize, channel: SyncChannel) -> (r: Option<
        A::R,
    >)
        ensures
            r == self.quality(envelope@, offset as int, channel),
    {
        let (template, norm): (&[A::R], A::R) = self.template_for(channel);
        let len: usize = envelope.len();
        if len < template.len() || len - template.len() < offset {
            return None;
        }
        let score: A::R = correlate_at::<A>(envelope, template, norm, offset);
        Some(clamp::<A>(score, A::integer(0), A::integer(1)))
    }

    fn template_for(&self, channel: SyncChannel) -> (r: (&[A::R], A::R))
        ensures
            r.0@ == self.template(channel),
            r.1 == self.norm(channel),
    {
        match channel {
            SyncChannel::A => (self.template_a.as_slice(), self.template_a_norm),
            SyncChannel::B => (self.template_b.as_slice(), self.template_b_norm),
        }
    }
}

/// What a detector finds, and how well, does not depend on the level of the
/// envelope, where numbers are exact.
pub proof fn found_at_any_level<A: Arithmetic>(
    d: SyncDetector<A>,
    envelope: Seq<A::R>,
    channel: SyncChannel,
    c: A::R,
)
    requires
        exact_laws::<A>(),
        0 < d.template(channel).len() <= usize::MAX,
        A::finite(c),
        forall|i: int| 0 <= i < envelope.len() ==> A::finite(#[trigger] envelope[i]),
    ensures
        d.best(raised_by::<A>(envelope, c), channel) == d.best(envelope, channel),
        forall|at: int|
            0 <= at ==> #[trigger] d.quality(raised_by::<A>(envelope, c), at, channel)
                == d.quality(envelope, at, channel),
{
    let template = d.template(channel);
    let norm = d.norm(channel);
    if envelope.len() >= template.len() {
        best_match_at_any_level::<A>(
            envelope,
            template,
            norm,
            c,
            (envelope.len() - template.len() + 1) as nat,
        );
    }
    assert forall|at: int| 0 <= at implies #[trigger] d.quality(
        raised_by::<A>(envelope, c),
        at,
        channel,
    ) == d.quality(envelope, at, channel) by {
        if at + template.len() <= envelope.len() {
            level_does_not_matter::<A>(envelope, template, norm, c, at);
        }
    }
}

/// A stretch of the envelope that is the template, at any level, matches it
/// fully.
pub proof fn template_matches_itself<A: Arithmetic>(window: Seq<A::R>, template: Seq<A::R>)
    requires
        exact_laws::<A>(),
        window.len() == template.len(),
        ({
            let mean = A::quotient(
                sum_of::<A>(window, window.len()),
                A::count_value(window.len() as usize),
            );
            forall|i: int|
                0 <= i < window.len() ==> A::difference(#[trigger] window[i], mean) == template[i]
        }),
        ({
            let energy = squares_of::<A>(template, template.len());
            &&& A::finite(energy)
            &&& energy != A::integer_value(0)
            &&& A::product(A::root(energy), A::root(energy)) == energy
            &&& A::greater(energy, A::fraction_value(1, 1_000_000_000)) == energy
        }),
    ensures
        correlation::<A>(window, template, norm_of::<A>(template)) == A::integer_value(1),
{
    let mean = mean_of::<A>(window);
    let energy = squares_of::<A>(template, template.len());
    same_energy::<A>(window, template, mean, window.len());
    whole_numbers::<A>(1);
    sum_with_zero::<A>(energy);
    products_undo::<A>(A::integer_value(1), energy);
}

proof fn same_energy<A: Arithmetic>(
    window: Seq<A::R>,
    template: Seq<A::R>,
    mean: A::R,
    n: nat,
)
    requires
        n <= window.len() == template.len(),
        forall|i: int|
            0 <= i < window.len() ==> A::difference(#[trigger] window[i], mean) == template[i],
    ensures
        energy_of::<A>(window, mean, n) == squares_of::<A>(template, n),
        match_of::<A>(window, template, mean, n) == squares_of::<A>(template, n),
    decreases n,
{
    if n > 0 {
        same_energy::<A>(window, template, mean, (n - 1) as nat);
        assert(A::difference(window[n - 1], mean) == template[n - 1]);
    }
}

} // verus!
