use vstd::arithmetic::power2::*;
use vstd::prelude::*;

verus! {

proof fn lemma_shifted_one(exponent: u32)
    requires
        exponent < 128,
    ensures
        1u128 << exponent == pow2(exponent as nat),
    decreases exponent,
{
    if exponent == 0 {
        lemma2_to64();
        assert(1u128 << 0u32 == 1u128) by (bit_vector);
    } else {
        let previous = (exponent - 1) as u32;
        lemma_shifted_one(previous);
        lemma_pow2_unfold(exponent as nat);
        assert((1u128 << exponent) == 2 * (1u128 << previous)) by (bit_vector)
            requires
                0 < exponent < 128,
                previous == exponent - 1,
        ;
    }
}

/// Two to the given power.
pub fn power_of_two(exponent: u32) -> (power: u128)
    requires
        exponent < 128,
    ensures
        power == pow2(exponent as nat),
        power > 0,
{
    proof {
        lemma_shifted_one(exponent);
        lemma_pow2_pos(exponent as nat);
    }
    1u128 << exponent
}

/// The number of binary digits of `n`.
pub fn bit_length(n: u128) -> (length: u32)
    ensures
        length <= 128,
        n < pow2(length as nat),
        length > 0 ==> pow2((length - 1) as nat) <= n,
{
    let mut length: u32 = 0;
    let mut rest: u128 = n;
    proof {
        lemma2_to64();
    }
    while rest > 0
        invariant
            length <= 128,
            rest * pow2(length as nat) <= n,
            n < (rest + 1) * pow2(length as nat),
            length > 0 ==> pow2((length - 1) as nat) <= n,
        decreases rest,
    {
        let ghost p = pow2(length as nat);
        proof {
            lemma_pow2_pos(length as nat);
            lemma_pow2_unfold(length as nat + 1);
            let half = rest / 2;
            assert(p <= rest * p) by (nonlinear_arith)
                requires
                    rest >= 1,
            ;
            assert(half * (2 * p) <= rest * p && (rest + 1) * p <= (half + 1) * (2 * p))
                by (nonlinear_arith)
                requires
                    2 * half <= rest <= 2 * half + 1,
                    p > 0,
            ;
            lemma2_to64();
            lemma_pow2_adds(64, 64);
            if length >= 128 {
                if length > 128 {
                    lemma_pow2_strictly_increases(128, length as nat);
                }
            }
        }
        rest = rest / 2;
        length = length + 1;
    }
    assert((rest + 1) * pow2(length as nat) == pow2(length as nat)) by (nonlinear_arith)
        requires
            rest == 0,
    ;
    length
}

/// Ten to the given power.
pub open spec fn pow10(exponent: nat) -> nat
    decreases exponent,
{
    if exponent == 0 {
        1
    } else {
        10 * pow10((exponent - 1) as nat)
    }
}

pub proof fn lemma_pow10_positive(exponent: nat)
    ensures
        pow10(exponent) > 0,
    decreases exponent,
{
    if exponent > 0 {
        lemma_pow10_positive((exponent - 1) as nat);
    }
}

pub proof fn lemma_pow10_adds(a: nat, b: nat)
    ensures
        pow10(a + b) == pow10(a) * pow10(b),
    decreases b,
{
    if b == 0 {
        assert(pow10(a) * 1 == pow10(a));
    } else {
        lemma_pow10_adds(a, (b - 1) as nat);
        let p = pow10((b - 1) as nat);
        assert(10 * (pow10(a) * p) == pow10(a) * (10 * p)) by (nonlinear_arith);
    }
}

pub proof fn lemma_pow10_increases(a: nat, b: nat)
    requires
        a <= b,
    ensures
        pow10(a) <= pow10(b),
    decreases b,
{
    if a < b {
        lemma_pow10_increases(a, (b - 1) as nat);
    }
}

/// Ten is at least eight.
pub proof fn lemma_pow10_above_pow2(exponent: nat)
    ensures
        pow2(3 * exponent) <= pow10(exponent),
    decreases exponent,
{
    lemma2_to64();
    if exponent > 0 {
        let below = (exponent - 1) as nat;
        lemma_pow10_above_pow2(below);
        lemma_pow2_adds(3 * below, 3);
    }
}

/// A thousand is at most 1024.
pub proof fn lemma_pow10_below_pow2(exponent: nat)
    ensures
        pow10(3 * exponent) <= pow2(10 * exponent),
    decreases exponent,
{
    lemma2_to64();
    if exponent > 0 {
        let below = (exponent - 1) as nat;
        lemma_pow10_below_pow2(below);
        lemma_pow2_adds(10 * below, 10);
        lemma_pow10_adds(3 * below, 3);
        reveal_with_fuel(pow10, 4);
    }
}

} // verus!
