use vstd::arithmetic::power2::*;
use vstd::prelude::*;

verus! {

/// The sign bit of a binary64 pattern.
pub const SIGN_BIT: u64 = 0x8000_0000_0000_0000;

/// The magnitude bits of infinity; every larger magnitude is a NaN.
pub const INFINITE_MAGNITUDE: u64 = 0x7ff0_0000_0000_0000;

/// The number of magnitudes in one binade: two to the power of the fraction width.
pub const BINADE: u64 = 0x10_0000_0000_0000;

/// The finest step between two magnitudes is two to the power of minus this number.
pub const UNIT_EXPONENT: u64 = 1074;

/// An IEEE 754 binary64 number, held as its bit pattern.
#[derive(Clone, Copy, Debug)]
pub struct Real {
    pub bits: u64,
}

/// The exponent by which the integer significand of a magnitude is scaled.
pub open spec fn exponent_of(magnitude: nat) -> nat {
    if magnitude < BINADE {
        0
    } else {
        (magnitude / (BINADE as nat) - 1) as nat
    }
}

/// The integer significand of a magnitude.
pub open spec fn significand_of(magnitude: nat) -> nat {
    (magnitude - exponent_of(magnitude) * BINADE) as nat
}

/// The absolute value that a magnitude stands for, counted in units of `2^-1074`.
/// Infinity is given the value that the next binade would start with.
pub open spec fn units(magnitude: nat) -> nat {
    significand_of(magnitude) * pow2(exponent_of(magnitude))
}

/// One, counted in the units of `units`.
pub open spec fn one_in_units() -> nat {
    pow2(UNIT_EXPONENT as nat)
}

/// The quiet NaN that stands for every result that is not a number.
pub const NAN_BITS: u64 = 0x7ff8_0000_0000_0000;

/// The number with the given sign and magnitude.
pub open spec fn assembled(negative: bool, magnitude: nat) -> Real {
    Real { bits: (magnitude + if negative { SIGN_BIT as nat } else { 0 }) as u64 }
}

/// The result that is not a number.
pub open spec fn not_a_number() -> Real {
    Real { bits: NAN_BITS }
}

impl Real {
    pub open spec fn negative(self) -> bool {
        self.bits >= SIGN_BIT
    }

    pub open spec fn magnitude(self) -> nat {
        if self.bits >= SIGN_BIT {
            (self.bits - SIGN_BIT) as nat
        } else {
            self.bits as nat
        }
    }

    pub open spec fn nan(self) -> bool {
        self.magnitude() > INFINITE_MAGNITUDE
    }

    pub open spec fn infinite(self) -> bool {
        self.magnitude() == INFINITE_MAGNITUDE
    }

    pub open spec fn finite(self) -> bool {
        self.magnitude() < INFINITE_MAGNITUDE
    }

    /// Either of the two zeros.
    pub open spec fn zero(self) -> bool {
        self.magnitude() == 0
    }

    /// The value of a finite number, counted in units of `2^-1074`.
    pub open spec fn signed_units(self) -> int {
        if self.negative() {
            -units(self.magnitude())
        } else {
            units(self.magnitude()) as int
        }
    }

    /// The number with the sign turned.
    pub open spec fn opposite(self) -> Real {
        assembled(!self.negative(), self.magnitude())
    }

    /// Numeric equality: a NaN equals nothing and the two zeros are equal.
    pub open spec fn equals(self, other: Real) -> bool {
        &&& !self.nan()
        &&& !other.nan()
        &&& self.bits == other.bits || self.zero() && other.zero()
    }

    /// The number with the given bit pattern.
    pub fn from_bits(bits: u64) -> (result: Real)
        ensures
            result.bits == bits,
    {
        Real { bits }
    }

    /// The bit pattern of the number.
    pub fn to_bits(&self) -> (bits: u64)
        ensures
            bits == self.bits,
    {
        self.bits
    }

    pub fn is_negative(&self) -> (result: bool)
        ensures
            result == self.negative(),
    {
        self.bits >= SIGN_BIT
    }

    /// The bits without the sign.
    pub fn magnitude_bits(&self) -> (magnitude: u64)
        ensures
            magnitude == self.magnitude(),
            magnitude < SIGN_BIT,
    {
        if self.bits >= SIGN_BIT {
            self.bits - SIGN_BIT
        } else {
            self.bits
        }
    }

    pub fn is_nan(&self) -> (result: bool)
        ensures
            result == self.nan(),
    {
        self.magnitude_bits() > INFINITE_MAGNITUDE
    }

    pub fn is_infinite(&self) -> (result: bool)
        ensures
            result == self.infinite(),
    {
        self.magnitude_bits() == INFINITE_MAGNITUDE
    }

    pub fn is_zero(&self) -> (result: bool)
        ensures
            result == self.zero(),
    {
        self.magnitude_bits() == 0
    }

    /// The number with the given sign and magnitude.
    pub fn assemble(negative: bool, magnitude: u64) -> (result: Real)
        requires
            magnitude < SIGN_BIT,
        ensures
            result == assembled(negative, magnitude as nat),
            result.negative() == negative,
            result.magnitude() == magnitude,
    {
        if negative {
            Real { bits: magnitude + SIGN_BIT }
        } else {
            Real { bits: magnitude }
        }
    }

    /// The number with the sign turned.
    pub fn negate(&self) -> (result: Real)
        ensures
            result == self.opposite(),
            result.negative() == !self.negative(),
            result.magnitude() == self.magnitude(),
    {
        Real::assemble(!self.is_negative(), self.magnitude_bits())
    }
}

impl PartialEq for Real {
    fn eq(&self, other: &Real) -> (result: bool) {
        !self.is_nan() && !other.is_nan() && (self.bits == other.bits || self.is_zero()
            && other.is_zero())
    }
}

impl vstd::std_specs::cmp::PartialEqSpecImpl for Real {
    open spec fn obeys_eq_spec() -> bool {
        true
    }

    open spec fn eq_spec(&self, other: &Real) -> bool {
        self.equals(*other)
    }
}

/// The integer significand and the exponent of a magnitude.
pub fn decode(magnitude: u64) -> (parts: (u64, u32))
    requires
        magnitude <= INFINITE_MAGNITUDE,
    ensures
        parts.0 == significand_of(magnitude as nat),
        parts.1 == exponent_of(magnitude as nat),
        parts.0 < 2 * BINADE,
        parts.1 > 0 ==> parts.0 >= BINADE,
        parts.1 <= 2046,
        magnitude < INFINITE_MAGNITUDE ==> parts.1 <= 2045,
{
    if magnitude < BINADE {
        (magnitude, 0)
    } else {
        let e: u64 = magnitude / BINADE - 1;
        (magnitude - e * BINADE, e as u32)
    }
}

/// How a magnitude splits into significand and exponent, and what the next one is worth.
pub proof fn lemma_decode(magnitude: nat)
    ensures
        magnitude == exponent_of(magnitude) * BINADE + significand_of(magnitude),
        significand_of(magnitude) < 2 * BINADE,
        exponent_of(magnitude) > 0 ==> significand_of(magnitude) >= BINADE,
        units(magnitude + 1) == (significand_of(magnitude) + 1) * pow2(exponent_of(magnitude)),
{
    let e = exponent_of(magnitude);
    let m = significand_of(magnitude);
    assert(magnitude >= BINADE ==> magnitude / (BINADE as nat) >= 1);
    assert(e * BINADE <= magnitude && m < 2 * BINADE && (e > 0 ==> m >= BINADE));
    lemma_encode(e, m + 1);
}

/// The magnitude with a given exponent and significand, and its value.
pub proof fn lemma_encode(e: nat, m: nat)
    requires
        m <= 2 * BINADE,
        e > 0 ==> m >= BINADE,
    ensures
        units(e * (BINADE as nat) + m) == m * pow2(e),
{
    let magnitude = e * (BINADE as nat) + m;
    if m == 2 * BINADE {
        assert(magnitude == (e + 2) * BINADE);
        assert(magnitude / (BINADE as nat) == e + 2);
        assert(exponent_of(magnitude) == e + 1);
        assert(significand_of(magnitude) == BINADE);
        lemma_pow2_unfold(e + 1);
        assert(BINADE * pow2(e + 1) == (2 * BINADE) * pow2(e)) by (nonlinear_arith)
            requires
                pow2(e + 1) == 2 * pow2(e),
        ;
    } else if m >= BINADE {
        assert(magnitude / (BINADE as nat) == e + 1);
        assert(exponent_of(magnitude) == e);
    }
}

/// Larger magnitudes have larger values.
pub proof fn lemma_units_increase(low: nat, high: nat)
    requires
        low < high,
    ensures
        units(low) < units(high),
    decreases high - low,
{
    let m = significand_of(low);
    let p = pow2(exponent_of(low));
    lemma_decode(low);
    lemma_pow2_pos(exponent_of(low));
    assert(m * p < (m + 1) * p) by (nonlinear_arith)
        requires
            p > 0,
    ;
    if low + 1 < high {
        lemma_units_increase(low + 1, high);
    }
}

} // verus!
