use vstd::prelude::*;

pub mod primitives;

verus! {

/// The sum `1 + 2 + ... + (b - 1)`; zero when `b <= 1`.
pub open spec fn sum_below(b: nat) -> nat
    decreases b,
{
    if b <= 1 {
        0
    } else {
        (b - 1) as nat + sum_below((b - 1) as nat)
    }
}

proof fn lemma_sum_below_monotone(i: nat, j: nat)
    requires
        i <= j,
    ensures
        sum_below(i) <= sum_below(j),
    decreases j,
{
    if i < j {
        lemma_sum_below_monotone(i, (j - 1) as nat);
    }
}

/// Adds to `a` every integer from 1 up to, but not including, `b`.
pub fn add(a: u32, b: u32) -> (sum: u32)
    requires
        a + sum_below(b as nat) <= u32::MAX,
    ensures
        sum == a + sum_below(b as nat),
{
    let mut sum: u32 = a;
    let mut i: u32 = 1;
    while i < b
        invariant
            1 <= i,
            i <= b || i == 1,
            sum == a + sum_below(i as nat),
            a + sum_below(b as nat) <= u32::MAX,
        decreases b - i,
    {
        proof {
            lemma_sum_below_monotone((i + 1) as nat, b as nat);
        }
        sum = sum + i;
        i = i + 1;
    }
    assert(sum_below(0) == 0 && sum_below(1) == 0);
    sum
}

} // verus!
