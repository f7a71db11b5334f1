use crate::power;
use vstd::arithmetic::power2::*;
use vstd::prelude::*;

verus! {

/// A natural number of any size, held as limbs of 64 bits with the lowest first.
pub struct BigNat {
    limbs: Vec<u64>,
}

/// How one number compares with another.
#[derive(Clone, Copy, Debug, PartialEq, Eq, Structural)]
pub enum Comparison {
    Less,
    Equal,
    Greater,
}

/// The limb at a position, zero beyond the last one.
spec fn limb_at(limbs: Seq<u64>, i: int) -> nat {
    if 0 <= i < limbs.len() {
        limbs[i] as nat
    } else {
        0
    }
}

/// The number that the lowest `count` limbs stand for.
spec fn low_value(limbs: Seq<u64>, count: nat) -> nat
    decreases count,
{
    if count == 0 {
        0
    } else {
        let below = (count - 1) as nat;
        low_value(limbs, below) + limb_at(limbs, below as int) * pow2(64 * below)
    }
}

proof fn lemma_low_value_bound(limbs: Seq<u64>, count: nat)
    ensures
        low_value(limbs, count) < pow2(64 * count),
    decreases count,
{
    lemma2_to64();
    if count > 0 {
        let below = (count - 1) as nat;
        let p = pow2(64 * below);
        let limb = limb_at(limbs, below as int);
        lemma_low_value_bound(limbs, below);
        lemma_pow2_adds(64, 64 * below);
        assert(limb * p + p <= 0x1_0000_0000_0000_0000 * p) by (nonlinear_arith)
            requires
                limb + 1 <= 0x1_0000_0000_0000_0000,
        ;
    }
}

proof fn lemma_low_value_same(a: Seq<u64>, b: Seq<u64>, count: nat)
    requires
        forall|i: int| 0 <= i < count ==> limb_at(a, i) == limb_at(b, i),
    ensures
        low_value(a, count) == low_value(b, count),
    decreases count,
{
    if count > 0 {
        lemma_low_value_same(a, b, (count - 1) as nat);
    }
}

/// Limbs above `low` either add nothing or at least a whole limb's weight.
proof fn lemma_low_value_above(limbs: Seq<u64>, low: nat, high: nat)
    requires
        low <= high,
    ensures
        low_value(limbs, high) == low_value(limbs, low) || low_value(limbs, high) >= pow2(64 * low),
        high > low && (forall|i: int| low <= i < high ==> limb_at(limbs, i) == 0) ==> low_value(
            limbs,
            high,
        ) == low_value(limbs, low),
        low_value(limbs, high) >= low_value(limbs, low),
    decreases high,
{
    if low < high {
        let below = (high - 1) as nat;
        let limb = limb_at(limbs, below as int);
        let p = pow2(64 * below);
        lemma_low_value_above(limbs, low, below);
        if low < below {
            lemma_pow2_strictly_increases(64 * low, 64 * below);
        }
        assert(limb == 0 ==> limb * p == 0) by (nonlinear_arith);
        assert(limb >= 1 ==> limb * p >= p) by (nonlinear_arith);
    }
}

impl BigNat {
    pub closed spec fn value(&self) -> nat {
        low_value(self.limbs@, self.limbs@.len())
    }

    proof fn lemma_value_padded(&self, count: nat)
        requires
            count >= self.limbs@.len(),
        ensures
            low_value(self.limbs@, count) == self.value(),
    {
        lemma_low_value_above(self.limbs@, self.limbs@.len(), count);
    }

    /// The number with the given value.
    pub fn from_u64(value: u64) -> (result: BigNat)
        ensures
            result.value() == value,
    {
        let mut limbs: Vec<u64> = Vec::new();
        limbs.push(value);
        proof {
            lemma2_to64();
            assert(low_value(limbs@, 0) == 0);
            assert(pow2(64 * 0) == 1);
            assert(value * 1 == value);
            assert(low_value(limbs@, 1) == value);
        }
        BigNat { limbs }
    }

    /// A second number of the same value.
    pub fn copy(&self) -> (result: BigNat)
        ensures
            result.value() == self.value(),
    {
        let limbs: Vec<u64> = self.limbs.clone();
        assert(limbs@ =~= self.limbs@);
        BigNat { limbs }
    }

    fn limb(&self, i: usize) -> (limb: u64)
        ensures
            limb == limb_at(self.limbs@, i as int),
    {
        if i < self.limbs.len() {
            self.limbs[i]
        } else {
            0
        }
    }

    /// Multiplies by `factor` and adds `addend`.
    pub fn multiply_add(&mut self, factor: u64, addend: u64)
        ensures
            final(self).value() == old(self).value() * factor + addend,
    {
        let ghost before = self.limbs@;
        let length: usize = self.limbs.len();
        let mut carry: u64 = addend;
        let mut i: usize = 0;
        proof {
            lemma2_to64();
            assert(carry * pow2(64 * 0) == addend);
            assert(low_value(before, 0) == 0);
            assert(0 * factor == 0);
        }
        while i < length
            invariant
                i <= length,
                length == before.len(),
                self.limbs@.len() == length,
                forall|j: int| i <= j < length ==> self.limbs@[j] == before[j],
                low_value(self.limbs@, i as nat) + carry * pow2(64 * i as nat) == low_value(
                    before,
                    i as nat,
                ) * factor + addend,
            decreases length - i,
        {
            let limb: u64 = self.limbs[i];
            assert(limb * factor + carry <= 0xffff_ffff_ffff_ffff * 0xffff_ffff_ffff_ffff
                + 0xffff_ffff_ffff_ffff) by (nonlinear_arith)
                requires
                    limb <= 0xffff_ffff_ffff_ffff,
                    factor <= 0xffff_ffff_ffff_ffff,
                    carry <= 0xffff_ffff_ffff_ffff,
            ;
            let total: u128 = limb as u128 * factor as u128 + carry as u128;
            let low: u64 = (total % 0x1_0000_0000_0000_0000) as u64;
            let high: u64 = (total / 0x1_0000_0000_0000_0000) as u64;
            let ghost previous = self.limbs@;
            self.limbs.set(i, low);
            proof {
                let p = pow2(64 * i as nat);
                let base = low_value(before, i as nat);
                lemma_low_value_same(previous, self.limbs@, i as nat);
                lemma2_to64();
                lemma_pow2_adds(64, 64 * i as nat);
                assert(low_value(self.limbs@, (i + 1) as nat) == low_value(self.limbs@, i as nat)
                    + low * p);
                assert(low_value(before, (i + 1) as nat) == base + limb * p);
                assert(low * p + high * (0x1_0000_0000_0000_0000 * p) == (limb * p) * factor + carry
                    * p) by (nonlinear_arith)
                    requires
                        low + 0x1_0000_0000_0000_0000 * high == limb * factor + carry,
                ;
                assert((base + limb * p) * factor == base * factor + (limb * p) * factor)
                    by (nonlinear_arith);
            }
            carry = high;
            i = i + 1;
        }
        if carry > 0 {
            let ghost previous = self.limbs@;
            self.limbs.push(carry);
            proof {
                lemma_low_value_same(previous, self.limbs@, length as nat);
            }
        } else {
            assert(carry * pow2(64 * length as nat) == 0);
        }
    }

    /// Multiplies by two to the given power.
    pub fn multiply_pow2(&mut self, exponent: u32)
        ensures
            final(self).value() == old(self).value() * pow2(exponent as nat),
    {
        let ghost before = self.value();
        let mut rest: u32 = exponent;
        let mut done: u32 = 0;
        proof {
            lemma2_to64();
            assert(before * pow2(0) == before);
        }
        while rest >= 32
            invariant
                rest + done == exponent,
                self.value() == before * pow2(done as nat),
            decreases rest,
        {
            self.multiply_add(0x1_0000_0000, 0);
            proof {
                lemma2_to64();
                lemma_pow2_adds(done as nat, 32);
                assert((before * pow2(done as nat)) * 0x1_0000_0000 == before * (pow2(done as nat)
                    * 0x1_0000_0000)) by (nonlinear_arith);
            }
            rest = rest - 32;
            done = done + 32;
        }
        let power: u128 = power::power_of_two(rest);
        proof {
            lemma2_to64();
            lemma_pow2_strictly_increases(rest as nat, 32);
            lemma_pow2_adds(done as nat, rest as nat);
            assert((before * pow2(done as nat)) * power == before * (pow2(done as nat) * power))
                by (nonlinear_arith);
        }
        self.multiply_add(power as u64, 0);
    }

    /// Multiplies by ten to the given power.
    pub fn multiply_pow10(&mut self, exponent: u128)
        ensures
            final(self).value() == old(self).value() * power::pow10(exponent as nat),
    {
        let ghost before = self.value();
        let mut done: u128 = 0;
        assert(power::pow10(0) == 1);
        assert(before * 1 == before);
        while done < exponent
            invariant
                done <= exponent,
                self.value() == before * power::pow10(done as nat),
            decreases exponent - done,
        {
            self.multiply_add(10, 0);
            proof {
                let p = power::pow10(done as nat);
                assert((before * p) * 10 == before * (10 * p)) by (nonlinear_arith);
            }
            done = done + 1;
        }
    }

    /// Compares two numbers.
    pub fn compare(&self, other: &BigNat) -> (result: Comparison)
        ensures
            result == if self.value() < other.value() {
                Comparison::Less
            } else if self.value() == other.value() {
                Comparison::Equal
            } else {
                Comparison::Greater
            },
    {
        let mut i: usize = if self.limbs.len() > other.limbs.len() {
            self.limbs.len()
        } else {
            other.limbs.len()
        };
        let ghost count = i as nat;
        proof {
            self.lemma_value_padded(count);
            other.lemma_value_padded(count);
        }
        while i > 0
            invariant
                i <= count,
                self.value() - low_value(self.limbs@, i as nat) == other.value() - low_value(
                    other.limbs@,
                    i as nat,
                ),
            decreases i,
        {
            let a: u64 = self.limb(i - 1);
            let b: u64 = other.limb(i - 1);
            proof {
                let below = (i - 1) as nat;
                let p = pow2(64 * below);
                lemma_low_value_bound(self.limbs@, below);
                lemma_low_value_bound(other.limbs@, below);
                assert(a < b ==> a * p + p <= b * p) by (nonlinear_arith);
                assert(b < a ==> b * p + p <= a * p) by (nonlinear_arith);
            }
            if a < b {
                return Comparison::Less;
            }
            if a > b {
                return Comparison::Greater;
            }
            i = i - 1;
        }
        Comparison::Equal
    }

    /// Subtracts a number that is not larger.
    pub fn subtract(&mut self, other: &BigNat)
        requires
            old(self).value() >= other.value(),
        ensures
            final(self).value() == old(self).value() - other.value(),
    {
        let ghost before = self.limbs@;
        let ghost start = self.value();
        let length: usize = self.limbs.len();
        let mut borrow: u64 = 0;
        let mut i: usize = 0;
        assert(borrow * pow2(64 * 0) == 0);
        while i < length
            invariant
                i <= length,
                length == before.len(),
                self.limbs@.len() == length,
                borrow <= 1,
                forall|j: int| i <= j < length ==> self.limbs@[j] == before[j],
                low_value(self.limbs@, i as nat) + low_value(other.limbs@, i as nat) == low_value(
                    before,
                    i as nat,
                ) + borrow * pow2(64 * i as nat),
            decreases length - i,
        {
            let a: u64 = self.limbs[i];
            let b: u64 = other.limb(i);
            let taken: u128 = b as u128 + borrow as u128;
            let ghost old_borrow = borrow;
            let low: u64;
            if a as u128 >= taken {
                low = (a as u128 - taken) as u64;
                borrow = 0;
            } else {
                low = (a as u128 + 0x1_0000_0000_0000_0000 - taken) as u64;
                borrow = 1;
            }
            let ghost previous = self.limbs@;
            self.limbs.set(i, low);
            proof {
                let p = pow2(64 * i as nat);
                lemma_low_value_same(previous, self.limbs@, i as nat);
                lemma2_to64();
                lemma_pow2_adds(64, 64 * i as nat);
                assert(low_value(self.limbs@, (i + 1) as nat) == low_value(self.limbs@, i as nat)
                    + low * p);
                assert(low_value(before, (i + 1) as nat) == low_value(before, i as nat) + a * p);
                assert(low_value(other.limbs@, (i + 1) as nat) == low_value(
                    other.limbs@,
                    i as nat,
                ) + b * p);
                assert(low * p + b * p + old_borrow * p == a * p + borrow * (
                0x1_0000_0000_0000_0000 * p)) by (nonlinear_arith)
                    requires
                        low + b + old_borrow == a + borrow * 0x1_0000_0000_0000_0000,
                ;
            }
            i = i + 1;
        }
        proof {
            let p = pow2(64 * length as nat);
            let rest = low_value(other.limbs@, length as nat);
            lemma_low_value_bound(self.limbs@, length as nat);
            lemma_low_value_bound(before, length as nat);
            if length < other.limbs@.len() {
                lemma_low_value_above(other.limbs@, length as nat, other.limbs@.len());
            } else {
                other.lemma_value_padded(length as nat);
            }
            assert(borrow * p == if borrow == 1 { p } else { 0 }) by (nonlinear_arith)
                requires
                    borrow <= 1,
            ;
        }
    }
}

} // verus!
