//! Powers of two.

use vstd::prelude::*;

verus! {

/// `2^n`.
pub open spec fn power_of_two(n: nat) -> int
    decreases n,
{
    if n == 0 {
        1
    } else {
        2 * power_of_two((n - 1) as nat)
    }
}

/// Sums of exponents are products of powers.
pub proof fn power_of_two_sum(a: nat, b: nat)
    ensures
        power_of_two(a + b) == power_of_two(a) * power_of_two(b),
        power_of_two(a) >= 1,
    decreases a,
{
    if a > 0 {
        power_of_two_sum((a - 1) as nat, b);
        assert(2 * (power_of_two((a - 1) as nat) * power_of_two(b)) == (2 * power_of_two(
            (a - 1) as nat,
        )) * power_of_two(b)) by (nonlinear_arith);
    }
}

/// Powers grow with their exponents.
pub proof fn power_of_two_ordered(a: nat, b: nat)
    requires
        a <= b,
    ensures
        power_of_two(a) <= power_of_two(b),
        a < b ==> power_of_two(a) < power_of_two(b),
        power_of_two(a) >= 1,
    decreases b,
{
    power_of_two_sum(a, 0);
    if a < b {
        power_of_two_ordered(a, (b - 1) as nat);
    }
}

/// The binary logarithm of `n`; nothing where `n` is no power of two.
pub fn exact_log2(n: u64) -> (r: Option<u32>)
    ensures
        match r {
            Some(bits) => n == power_of_two(bits as nat),
            None => forall|m: nat| n != #[trigger] power_of_two(m),
        },
{
    let mut power: u128 = 1;
    let mut bits: u32 = 0;
    while power < n as u128
        invariant
            power == power_of_two(bits as nat),
            bits <= 64,
            bits == 64 ==> power == 0x1_0000_0000_0000_0000,
            0 < power <= 0x1_0000_0000_0000_0000,
            bits > 0 ==> power_of_two((bits - 1) as nat) < n,
        decreases 0x1_0000_0000_0000_0000 - power,
    {
        proof {
            assert(power_of_two(64) == 0x1_0000_0000_0000_0000) by {
                reveal_with_fuel(power_of_two, 65);
            }
            power_of_two_ordered((bits + 1) as nat, 64);
        }
        power = power * 2;
        bits = bits + 1;
    }
    if power == n as u128 {
        Some(bits)
    } else {
        assert forall|m: nat| n != #[trigger] power_of_two(m) by {
            if m >= bits {
                power_of_two_ordered(bits as nat, m);
            } else {
                power_of_two_ordered(m, (bits - 1) as nat);
            }
        }
        None
    }
}

} // verus!
