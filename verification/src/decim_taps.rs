//! Plans for decimation by powers of two.
//!
//! A plan splits a ratio into stages. The stage filters are tables of taps,
//! one for each ratio: the first stage of the plan for a ratio uses the table
//! of that ratio, and what is left of the ratio is decimated by its own plan.

use crate::arith::Arithmetic;
use crate::powers::{power_of_two, power_of_two_sum};
use vstd::prelude::*;

verus! {

/// The largest ratio that has a plan.
pub const MAX_RATIO: u32 = 8192;

/// Number of plans: one for each power of two from 2 to [`MAX_RATIO`].
pub const PLAN_COUNT: usize = 13;

/// By how much the first stage of each plan decimates. The plan at index `i`
/// is for the ratio `2^(i + 1)`.
pub const FIRST_DECIMATION: [usize; 13] = [2, 2, 4, 8, 8, 8, 16, 32, 32, 64, 64, 64, 128];

/// The binary logarithm of [`FIRST_DECIMATION`].
pub open spec fn first_bits(i: int) -> nat {
    if i <= 1 {
        1
    } else if i == 2 {
        2
    } else if i <= 5 {
        3
    } else if i == 6 {
        4
    } else if i <= 8 {
        5
    } else if i <= 11 {
        6
    } else {
        7
    }
}

/// The stages of the plan at index `i`, each by the index of its table; no
/// stage for the index -1, which stands for the ratio 1.
pub open spec fn plan_tables(i: int) -> Seq<int>
    decreases i + 1,
{
    if i < 0 || i >= PLAN_COUNT {
        Seq::empty()
    } else {
        seq![i] + plan_tables(i - first_bits(i))
    }
}

/// The product of the decimations of the stages `tables`.
pub open spec fn plan_ratio(tables: Seq<int>) -> int
    decreases tables.len(),
{
    if tables.len() == 0 {
        1
    } else {
        FIRST_DECIMATION@[tables[0]] * plan_ratio(tables.skip(1))
    }
}

/// The first stage of a plan decimates by a power of two that divides its
/// ratio.
pub proof fn first_decimation_is_power(i: int)
    requires
        0 <= i < PLAN_COUNT,
    ensures
        FIRST_DECIMATION@[i] == power_of_two(first_bits(i)),
        first_bits(i) <= i + 1,
        FIRST_DECIMATION@[i] > 0,
{
    reveal_with_fuel(power_of_two, 8);
}

/// The stages of the plan at index `i` decimate by `2^(i + 1)` in all.
pub proof fn plan_ratio_matches(i: int)
    requires
        -1 <= i < PLAN_COUNT,
    ensures
        plan_ratio(plan_tables(i)) == power_of_two((i + 1) as nat),
    decreases i + 1,
{
    if i >= 0 {
        first_decimation_is_power(i);
        let rest = i - first_bits(i);
        plan_ratio_matches(rest);
        assert(plan_tables(i).skip(1) =~= plan_tables(rest));
        power_of_two_sum(first_bits(i), (rest + 1) as nat);
    }
}

/// A stage of a plan: a filter and the decimation after it.
pub struct PlanStage {
    /// Index of the table of taps.
    pub table: usize,
    /// Samples for each sample that is kept.
    pub decimation: usize,
}

/// The stages of the plan at index `i`, in order.
pub fn plan_stages(i: usize) -> (stages: Vec<PlanStage>)
    requires
        i < PLAN_COUNT,
    ensures
        stages@.len() == plan_tables(i as int).len(),
        forall|k: int|
            0 <= k < stages@.len() ==> {
                &&& (#[trigger] stages@[k]).table == plan_tables(i as int)[k]
                &&& stages@[k].table < PLAN_COUNT
                &&& stages@[k].decimation == FIRST_DECIMATION@[stages@[k].table as int]
            },
{
    let mut stages: Vec<PlanStage> = Vec::new();
    let mut left: usize = i + 1;
    let ghost whole = plan_tables(i as int);
    while left > 0
        invariant
            left <= PLAN_COUNT,
            whole == plan_tables(i as int),
            stages@.len() + plan_tables(left - 1).len() == whole.len(),
            plan_tables(left - 1) =~= whole.skip(stages@.len() as int),
            forall|k: int|
                0 <= k < stages@.len() ==> {
                    &&& (#[trigger] stages@[k]).table == whole[k]
                    &&& stages@[k].table < PLAN_COUNT
                    &&& stages@[k].decimation == FIRST_DECIMATION@[stages@[k].table as int]
                },
        decreases left,
    {
        let table: usize = left - 1;
        let bits: usize = first_stage_bits(table);
        proof {
            first_decimation_is_power(table as int);
            assert(plan_tables(table as int)[0] == table);
            assert(whole[stages@.len() as int] == whole.skip(stages@.len() as int)[0]);
            assert(plan_tables(table as int).skip(1) =~= plan_tables(table - bits));
            assert(whole.skip(stages@.len() as int).skip(1) =~= whole.skip(
                stages@.len() as int + 1,
            ));
        }
        stages.push(PlanStage { table, decimation: FIRST_DECIMATION[table] });
        left = left - bits;
    }
    stages
}

fn first_stage_bits(i: usize) -> (bits: usize)
    requires
        i < PLAN_COUNT,
    ensures
        bits == first_bits(i as int),
{
    if i <= 1 {
        1
    } else if i == 2 {
        2
    } else if i <= 5 {
        3
    } else if i == 6 {
        4
    } else if i <= 8 {
        5
    } else if i <= 11 {
        6
    } else {
        7
    }
}

/// The tables of taps: the one at index `i` belongs to the ratio `2^(i + 1)`.
pub struct DecimTables<A: Arithmetic> {
    /// The taps of each table.
    pub tables: Vec<Vec<A::R>>,
}

/// Whether `taps` read the same from both ends, up to a billionth, so that the
/// filter delays all frequencies alike.
pub open spec fn symmetric<A: Arithmetic>(taps: Seq<A::R>) -> bool {
    forall|i: int|
        0 <= i < taps.len() as int / 2 ==> A::less(
            A::magnitude(A::difference(#[trigger] taps[i], taps[taps.len() - 1 - i])),
            A::fraction_value(1, 1_000_000_000),
        )
}

/// [`symmetric`].
fn is_symmetric<A: Arithmetic>(taps: &Vec<A::R>) -> (r: bool)
    ensures
        r == symmetric::<A>(taps@),
{
    let n: usize = taps.len();
    let mut i: usize = 0;
    while i < n / 2
        invariant
            i <= n / 2,
            n == taps@.len(),
            forall|k: int|
                0 <= k < i ==> A::less(
                    A::magnitude(A::difference(#[trigger] taps@[k], taps@[n - 1 - k])),
                    A::fraction_value(1, 1_000_000_000),
                ),
        decreases n - i,
    {
        let gap: A::R = A::abs(A::minus(taps[i], taps[n - 1 - i]));
        if !A::lt(gap, A::fraction(1, 1_000_000_000)) {
            assert(taps@[i as int] == taps@[i as int]);
            return false;
        }
        i = i + 1;
    }
    true
}

impl<A: Arithmetic> DecimTables<A> {
    /// There is a table for each plan, none is empty, and each is symmetric.
    pub open spec fn wf(self) -> bool {
        &&& self.tables@.len() == PLAN_COUNT
        &&& forall|i: int| 0 <= i < PLAN_COUNT ==> (#[trigger] self.tables@[i])@.len() > 0
        &&& forall|i: int| 0 <= i < PLAN_COUNT ==> symmetric::<A>((#[trigger] self.tables@[i])@)
    }

    /// Takes the tables in the order of their ratios. There must be one for
    /// each plan, none may be empty, and each must be symmetric.
    pub fn new(tables: Vec<Vec<A::R>>) -> (r: Option<Self>)
        ensures
            r is Some <==> (DecimTables::<A> { tables }).wf(),
            r is Some ==> r->0 == (DecimTables::<A> { tables }),
    {
        if tables.len() != PLAN_COUNT {
            return None;
        }
        let mut i: usize = 0;
        while i < PLAN_COUNT
            invariant
                i <= PLAN_COUNT == tables@.len(),
                forall|k: int| 0 <= k < i ==> (#[trigger] tables@[k])@.len() > 0,
                forall|k: int| 0 <= k < i ==> symmetric::<A>((#[trigger] tables@[k])@),
            decreases PLAN_COUNT - i,
        {
            if tables[i].is_empty() || !is_symmetric::<A>(&tables[i]) {
                return None;
            }
            i = i + 1;
        }
        Some(DecimTables { tables })
    }
}

} // verus!
