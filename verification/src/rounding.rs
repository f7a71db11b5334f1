use crate::binary64;
use crate::binary64::{BINADE, INFINITE_MAGNITUDE};
use crate::power::{bit_length, power_of_two};
use vstd::arithmetic::power2::*;
use vstd::prelude::*;

verus! {

/// `numerator / denominator`, counted in units, rounds to `magnitude`: it lies between the
/// midpoints to the neighbouring magnitudes, and a midpoint itself goes to the even magnitude.
/// From the midpoint between the last finite magnitude and infinity on, it rounds to infinity.
pub open spec fn rounds_to(numerator: nat, denominator: nat, magnitude: nat) -> bool {
    &&& magnitude <= INFINITE_MAGNITUDE
    &&& magnitude > 0 ==> {
        let twice_midpoint = (binary64::units((magnitude - 1) as nat) + binary64::units(magnitude))
            * denominator;
        ||| 2 * numerator > twice_midpoint
        ||| 2 * numerator == twice_midpoint && magnitude % 2 == 0
    }
    &&& magnitude < INFINITE_MAGNITUDE ==> {
        let twice_midpoint = (binary64::units(magnitude) + binary64::units(magnitude + 1))
            * denominator;
        ||| 2 * numerator < twice_midpoint
        ||| 2 * numerator == twice_midpoint && magnitude % 2 == 0
    }
}

/// The magnitude nearest to `numerator / denominator` units, ties to even.
pub open spec fn nearest(numerator: nat, denominator: nat) -> nat {
    choose|magnitude: nat| rounds_to(numerator, denominator, magnitude)
}

/// At most one magnitude is the rounding of a quotient.
pub proof fn lemma_rounds_to_unique(numerator: nat, denominator: nat, first: nat, second: nat)
    requires
        denominator > 0,
        rounds_to(numerator, denominator, first),
        rounds_to(numerator, denominator, second),
    ensures
        first == second,
{
    if first < second {
        lemma_rounds_to_order(numerator, denominator, first, second);
    } else if second < first {
        lemma_rounds_to_order(numerator, denominator, second, first);
    }
}

proof fn lemma_rounds_to_order(numerator: nat, denominator: nat, low: nat, high: nat)
    requires
        denominator > 0,
        rounds_to(numerator, denominator, low),
        rounds_to(numerator, denominator, high),
    ensures
        low >= high,
{
    let a = binary64::units(low) + binary64::units(low + 1);
    let b = binary64::units((high - 1) as nat) + binary64::units(high);
    if low + 1 < high {
        binary64::lemma_units_increase(low, (high - 1) as nat);
        binary64::lemma_units_increase(low + 1, high);
        assert(a * denominator < b * denominator) by (nonlinear_arith)
            requires
                a < b,
                denominator > 0,
        ;
    }
}

/// From a magnitude whose lower midpoint the quotient reaches, some magnitude is its rounding.
proof fn lemma_rounds_from(numerator: nat, denominator: nat, magnitude: nat) -> (found: nat)
    requires
        magnitude <= INFINITE_MAGNITUDE,
        magnitude > 0 ==> {
            let twice_midpoint = (binary64::units((magnitude - 1) as nat) + binary64::units(
                magnitude,
            )) * denominator;
            ||| 2 * numerator > twice_midpoint
            ||| 2 * numerator == twice_midpoint && magnitude % 2 == 0
        },
    ensures
        rounds_to(numerator, denominator, found),
    decreases INFINITE_MAGNITUDE - magnitude,
{
    if rounds_to(numerator, denominator, magnitude) {
        magnitude
    } else {
        lemma_rounds_from(numerator, denominator, magnitude + 1)
    }
}

/// Every quotient rounds to a magnitude.
pub proof fn law_nearest_rounds(numerator: nat, denominator: nat)
    ensures
        rounds_to(numerator, denominator, nearest(numerator, denominator)),
{
    let found = lemma_rounds_from(numerator, denominator, 0);
    assert(rounds_to(numerator, denominator, found));
}

/// What `nearest` returns, given any magnitude that the quotient rounds to.
pub proof fn lemma_nearest_is(numerator: nat, denominator: nat, magnitude: nat)
    requires
        denominator > 0,
        rounds_to(numerator, denominator, magnitude),
    ensures
        nearest(numerator, denominator) == magnitude,
{
    lemma_rounds_to_unique(
        numerator,
        denominator,
        nearest(numerator, denominator),
        magnitude,
    );
}

/// A quotient between `m` and `m + 1` steps of `2^e` rounds down to `m` steps or up to `m + 1`.
proof fn lemma_round_step(numerator: nat, denominator: nat, e: nat, m: nat, up: bool)
    requires
        denominator > 0,
        m < 2 * BINADE,
        e > 0 ==> m >= BINADE,
        m * (pow2(e) * denominator) <= numerator < (m + 1) * (pow2(e) * denominator),
        ({
            let twice_midpoint = (2 * m + 1) * (pow2(e) * denominator);
            if up {
                2 * numerator > twice_midpoint || 2 * numerator == twice_midpoint && m % 2 == 1
            } else {
                2 * numerator < twice_midpoint || 2 * numerator == twice_midpoint && m % 2 == 0
            }
        }),
    ensures
        ({
            let target = e * (BINADE as nat) + m + if up { 1nat } else { 0 };
            rounds_to(
                numerator,
                denominator,
                if target < INFINITE_MAGNITUDE { target } else { INFINITE_MAGNITUDE as nat },
            )
        }),
{
    let base = e * (BINADE as nat) + m;
    let p = pow2(e);
    let low = binary64::units(base);
    let high = binary64::units(base + 1);
    let top = INFINITE_MAGNITUDE as nat;
    binary64::lemma_encode(e, m);
    binary64::lemma_encode(e, m + 1);
    assert(low == m * p && high == (m + 1) * p);
    assert(low * denominator == m * (p * denominator)) by (nonlinear_arith)
        requires
            low == m * p,
    ;
    assert(high * denominator == (m + 1) * (p * denominator)) by (nonlinear_arith)
        requires
            high == (m + 1) * p,
    ;
    assert((low + high) * denominator == (2 * m + 1) * (p * denominator)) by (nonlinear_arith)
        requires
            low == m * p,
            high == (m + 1) * p,
    ;
    if base > 0 {
        let before = binary64::units((base - 1) as nat);
        binary64::lemma_units_increase((base - 1) as nat, base);
        assert((before + low) * denominator < 2 * (low * denominator)) by (nonlinear_arith)
            requires
                before < low,
                denominator > 0,
        ;
    }
    let after = binary64::units(base + 2);
    binary64::lemma_units_increase(base + 1, base + 2);
    assert(2 * (high * denominator) < (high + after) * denominator) by (nonlinear_arith)
        requires
            high < after,
            denominator > 0,
    ;
    if base > top {
        let infinite = binary64::units(top);
        let last = binary64::units((top - 1) as nat);
        binary64::lemma_units_increase(top, base);
        binary64::lemma_units_increase((top - 1) as nat, top);
        assert((last + infinite) * denominator < 2 * (low * denominator)) by (nonlinear_arith)
            requires
                last < infinite < low,
                denominator > 0,
        ;
    }
}

/// Rounding looks at the quotient only.
pub proof fn lemma_rounds_to_scale(numerator: nat, denominator: nat, factor: nat, magnitude: nat)
    requires
        factor > 0,
    ensures
        rounds_to(numerator * factor, denominator * factor, magnitude) == rounds_to(
            numerator,
            denominator,
            magnitude,
        ),
{
    if magnitude > 0 {
        let sum = binary64::units((magnitude - 1) as nat) + binary64::units(magnitude);
        lemma_compare_scaled(numerator, sum, denominator, factor);
    }
    let sum = binary64::units(magnitude) + binary64::units(magnitude + 1);
    lemma_compare_scaled(numerator, sum, denominator, factor);
}

proof fn lemma_compare_scaled(numerator: nat, sum: nat, denominator: nat, factor: nat)
    requires
        factor > 0,
    ensures
        (2 * numerator > sum * denominator) == (2 * (numerator * factor) > sum * (denominator
            * factor)),
        (2 * numerator < sum * denominator) == (2 * (numerator * factor) < sum * (denominator
            * factor)),
{
    let a = 2 * numerator;
    let b = sum * denominator;
    assert(2 * (numerator * factor) == a * factor) by (nonlinear_arith)
        requires
            a == 2 * numerator,
    ;
    assert(sum * (denominator * factor) == b * factor) by (nonlinear_arith)
        requires
            b == sum * denominator,
    ;
    assert(a > b ==> a * factor > b * factor) by (nonlinear_arith)
        requires
            factor > 0,
    ;
    assert(a < b ==> a * factor < b * factor) by (nonlinear_arith)
        requires
            factor > 0,
    ;
}

/// What rounds to one magnitude is an interval around that magnitude's own value.
pub proof fn lemma_rounds_to_between(
    low: nat,
    middle: nat,
    high: nat,
    denominator: nat,
    magnitude: nat,
)
    requires
        low <= middle <= high,
        rounds_to(low, denominator, magnitude),
        rounds_to(high, denominator, magnitude),
    ensures
        rounds_to(middle, denominator, magnitude),
{
}

/// A magnitude's own value rounds to it.
pub proof fn lemma_rounds_to_self(denominator: nat, magnitude: nat)
    requires
        denominator > 0,
        magnitude <= INFINITE_MAGNITUDE,
    ensures
        rounds_to(binary64::units(magnitude) * denominator, denominator, magnitude),
{
    let u = binary64::units(magnitude);
    if magnitude > 0 {
        let before = binary64::units((magnitude - 1) as nat);
        binary64::lemma_units_increase((magnitude - 1) as nat, magnitude);
        assert((before + u) * denominator < 2 * (u * denominator)) by (nonlinear_arith)
            requires
                before < u,
                denominator > 0,
        ;
    }
    let after = binary64::units(magnitude + 1);
    binary64::lemma_units_increase(magnitude, magnitude + 1);
    assert((u + after) * denominator > 2 * (u * denominator)) by (nonlinear_arith)
        requires
            after > u,
            denominator > 0,
    ;
}

/// `numerator / denominator` is `n` steps of `2^scale`, or, where `inexact`, between `n` and
/// `n + 1` such steps.
pub open spec fn brackets(
    numerator: nat,
    denominator: nat,
    n: nat,
    scale: int,
    inexact: bool,
) -> bool {
    let scaled = numerator * pow2(if scale < 0 { -scale as nat } else { 0 });
    let step = denominator * pow2(if scale < 0 { 0 } else { scale as nat });
    &&& n * step <= scaled < (n + 1) * step
    &&& inexact <==> n * step != scaled
}

/// Drops the last `drop` binary digits of a bracketed quotient.
proof fn lemma_drop_digits(
    numerator: nat,
    denominator: nat,
    n: nat,
    scale: int,
    inexact: bool,
    e: nat,
    drop: nat,
    m: nat,
    rest: nat,
    up: bool,
)
    requires
        denominator > 0,
        brackets(numerator, denominator, n, scale, inexact),
        e == scale + drop,
        drop > 0,
        n == m * pow2(drop) + rest,
        rest < pow2(drop),
        ({
            let half = pow2((drop - 1) as nat);
            up == (rest > half || rest == half && (inexact || m % 2 == 1))
        }),
        m < 2 * BINADE,
        e > 0 ==> m >= BINADE,
    ensures
        ({
            let target = e * (BINADE as nat) + m + if up { 1nat } else { 0 };
            rounds_to(
                numerator,
                denominator,
                if target < INFINITE_MAGNITUDE { target } else { INFINITE_MAGNITUDE as nat },
            )
        }),
{
    let a: nat = if scale < 0 { -scale as nat } else { 0 };
    let b: nat = if scale < 0 { 0 } else { scale as nat };
    let pa = pow2(a);
    let scaled = numerator * pa;
    let step = denominator * pow2(b);
    let half = pow2((drop - 1) as nat);
    let unit = pow2(e) * denominator;
    lemma_pow2_unfold(drop);
    lemma_pow2_pos(a);
    lemma_pow2_pos(b);
    lemma_pow2_pos((drop - 1) as nat);
    lemma_pow2_adds(e, a);
    lemma_pow2_adds(drop, b);
    assert(unit * pa == pow2(drop) * step) by (nonlinear_arith)
        requires
            unit == pow2(e) * denominator,
            step == denominator * pow2(b),
            pow2(e) * pa == pow2(drop) * pow2(b),
    ;
    assert(step > 0) by (nonlinear_arith)
        requires
            step == denominator * pow2(b),
            denominator > 0,
            pow2(b) > 0,
    ;
    let wide = pow2(drop) * step;
    // The quotient lies between m and m + 1 wide steps.
    assert(m * wide <= scaled < (m + 1) * wide) by {
        assert(m * wide <= n * step) by (nonlinear_arith)
            requires
                wide == pow2(drop) * step,
                n == m * pow2(drop) + rest,
        ;
        assert((n + 1) * step <= (m + 1) * wide) by (nonlinear_arith)
            requires
                wide == pow2(drop) * step,
                n == m * pow2(drop) + rest,
                rest + 1 <= pow2(drop),
        ;
    }
    assert(m * unit <= numerator < (m + 1) * unit) by (nonlinear_arith)
        requires
            m * wide <= scaled < (m + 1) * wide,
            scaled == numerator * pa,
            wide == unit * pa,
            pa > 0,
    ;
    // Where it lies from the midpoint is where the dropped digits lie from their half.
    let twice_midpoint = (2 * m + 1) * unit;
    let middle = (m * pow2(drop) + half) * step;
    assert(twice_midpoint * pa == 2 * middle) by (nonlinear_arith)
        requires
            twice_midpoint == (2 * m + 1) * unit,
            middle == (m * pow2(drop) + half) * step,
            unit * pa == pow2(drop) * step,
            pow2(drop) == 2 * half,
    ;
    if rest > half {
        assert(middle < n * step) by (nonlinear_arith)
            requires
                middle == (m * pow2(drop) + half) * step,
                n == m * pow2(drop) + rest,
                rest > half,
                step > 0,
        ;
    } else if rest < half {
        assert((n + 1) * step <= middle) by (nonlinear_arith)
            requires
                middle == (m * pow2(drop) + half) * step,
                n == m * pow2(drop) + rest,
                rest + 1 <= half,
        ;
    } else {
        assert(middle == n * step);
    }
    assert(scaled > middle ==> 2 * numerator > twice_midpoint) by (nonlinear_arith)
        requires
            scaled == numerator * pa,
            twice_midpoint * pa == 2 * middle,
            pa > 0,
    ;
    assert(scaled < middle ==> 2 * numerator < twice_midpoint) by (nonlinear_arith)
        requires
            scaled == numerator * pa,
            twice_midpoint * pa == 2 * middle,
            pa > 0,
    ;
    assert(scaled == middle ==> 2 * numerator == twice_midpoint) by (nonlinear_arith)
        requires
            scaled == numerator * pa,
            twice_midpoint * pa == 2 * middle,
            pa > 0,
    ;
    lemma_round_step(numerator, denominator, e, m, up);
}

/// A quotient that needs no rounding.
proof fn lemma_keep_digits(
    numerator: nat,
    denominator: nat,
    n: nat,
    scale: int,
    e: nat,
    shift: nat,
    m: nat,
)
    requires
        denominator > 0,
        brackets(numerator, denominator, n, scale, false),
        e + shift == scale,
        m == n * pow2(shift),
        m < 2 * BINADE,
        e > 0 ==> m >= BINADE,
    ensures
        ({
            let target = e * (BINADE as nat) + m;
            rounds_to(
                numerator,
                denominator,
                if target < INFINITE_MAGNITUDE { target } else { INFINITE_MAGNITUDE as nat },
            )
        }),
{
    let unit = pow2(e) * denominator;
    lemma_pow2_adds(e, shift);
    lemma2_to64();
    lemma_pow2_pos(e);
    assert(numerator * pow2(0) == numerator);
    assert(numerator == m * unit) by (nonlinear_arith)
        requires
            numerator == n * (denominator * pow2(scale as nat)),
            pow2(e) * pow2(shift) == pow2(scale as nat),
            m == n * pow2(shift),
            unit == pow2(e) * denominator,
    ;
    assert(unit > 0) by (nonlinear_arith)
        requires
            unit == pow2(e) * denominator,
            pow2(e) > 0,
            denominator > 0,
    ;
    assert(m * unit < (m + 1) * unit && 2 * (m * unit) < (2 * m + 1) * unit) by (nonlinear_arith)
        requires
            unit > 0,
    ;
    lemma_round_step(numerator, denominator, e, m, false);
}

/// Zero rounds to zero.
pub proof fn lemma_round_zero(denominator: nat)
    requires
        denominator > 0,
    ensures
        rounds_to(0, denominator, 0),
{
    binary64::lemma_units_increase(0, 1);
    let sum = binary64::units(0) + binary64::units(1);
    assert(sum * denominator > 0) by (nonlinear_arith)
        requires
            sum > 0,
            denominator > 0,
    ;
}

/// The significand that is left when `n` of `length` digits is cut at the exponent `e`.
proof fn lemma_cut_bounds(n: nat, length: nat, scale: int, e: nat, drop: nat)
    requires
        n < pow2(length),
        length > 0,
        pow2((length - 1) as nat) <= n,
        e == if length + scale > 53 { length + scale - 53 } else { 0 },
        e == scale + drop,
    ensures
        n / pow2(drop) < 2 * BINADE,
        e > 0 ==> n / pow2(drop) >= BINADE,
{
    let p = pow2(drop);
    lemma_pow2_pos(drop);
    lemma2_to64_rest();
    lemma_pow2_adds(53, drop);
    if length < 53 + drop {
        lemma_pow2_strictly_increases(length, 53 + drop);
    }
    let m = n / p;
    assert(m * p <= n < (m + 1) * p) by (nonlinear_arith)
        requires
            p > 0,
            m == n / p,
    ;
    assert(m < 2 * BINADE) by (nonlinear_arith)
        requires
            m * p <= n,
            n < (2 * BINADE) * p,
            p > 0,
    ;
    if e > 0 {
        lemma_pow2_adds(52, drop);
        assert(m >= BINADE) by (nonlinear_arith)
            requires
                n < (m + 1) * p,
                BINADE * p <= n,
                p > 0,
        ;
    }
}

/// The significand that `n` of `length` digits has at the exponent `e`, where none is cut.
proof fn lemma_shift_bounds(n: nat, length: nat, scale: int, e: nat, shift: nat)
    requires
        n < pow2(length),
        length > 0,
        pow2((length - 1) as nat) <= n,
        e == if length + scale > 53 { length + scale - 53 } else { 0 },
        e + shift == scale,
    ensures
        n * pow2(shift) < 2 * BINADE,
        e > 0 ==> n * pow2(shift) >= BINADE,
{
    let p = pow2(shift);
    lemma_pow2_pos(shift);
    lemma2_to64_rest();
    lemma_pow2_adds(length, shift);
    lemma_pow2_adds((length - 1) as nat, shift);
    if length + shift < 53 {
        lemma_pow2_strictly_increases(length + shift, 53);
    }
    assert(n * p < pow2(length) * p && pow2((length - 1) as nat) * p <= n * p)
        by (nonlinear_arith)
        requires
            n < pow2(length),
            pow2((length - 1) as nat) <= n,
            p > 0,
    ;
}

/// The magnitude to which a bracketed quotient rounds.
pub fn round_scaled(n: u128, scale: i32, inexact: bool) -> (magnitude: u64)
    requires
        n < 0x8000_0000_0000_0000_0000_0000_0000_0000,
        -5000 <= scale <= 3900,
        inexact ==> n >= 2 * BINADE,
    ensures
        magnitude <= INFINITE_MAGNITUDE,
        forall|numerator: nat, denominator: nat|
            denominator > 0 && #[trigger] brackets(
                numerator,
                denominator,
                n as nat,
                scale as int,
                inexact,
            ) ==> rounds_to(numerator, denominator, magnitude as nat),
{
    if n == 0 {
        assert forall|numerator: nat, denominator: nat|
            denominator > 0 && #[trigger] brackets(
                numerator,
                denominator,
                n as nat,
                scale as int,
                inexact,
            ) implies rounds_to(numerator, denominator, 0) by {
            let power = pow2(if scale < 0 { -scale as nat } else { 0 });
            lemma_pow2_pos(if scale < 0 { -scale as nat } else { 0 });
            assert(numerator == 0) by (nonlinear_arith)
                requires
                    numerator * power == 0,
                    power > 0,
            ;
            lemma_round_zero(denominator);
        }
        return 0;
    }
    let length: u32 = bit_length(n);
    let wanted: i32 = length as i32 + scale - 53;
    let e: i32 = if wanted > 0 {
        wanted
    } else {
        0
    };
    proof {
        lemma2_to64();
        lemma2_to64_rest();
        lemma_pow2_adds(63, 64);
        if length < 54 {
            lemma_pow2_strictly_increases(length as nat, 54);
        }
    }
    let target: u64;
    if e <= scale {
        let shift: u32 = (scale - e) as u32;
        proof {
            if inexact && length <= 53 {
                if length < 53 {
                    lemma_pow2_strictly_increases(length as nat, 53);
                }
            }
            lemma_shift_bounds(n as nat, length as nat, scale as int, e as nat, shift as nat);
        }
        let power: u128 = power_of_two(shift);
        let m: u64 = (n * power) as u64;
        target = e as u64 * BINADE + m;
        assert forall|numerator: nat, denominator: nat|
            denominator > 0 && #[trigger] brackets(
                numerator,
                denominator,
                n as nat,
                scale as int,
                inexact,
            ) implies rounds_to(
            numerator,
            denominator,
            if target < INFINITE_MAGNITUDE {
                target as nat
            } else {
                INFINITE_MAGNITUDE as nat
            },
        ) by {
            lemma_keep_digits(
                numerator,
                denominator,
                n as nat,
                scale as int,
                e as nat,
                shift as nat,
                m as nat,
            );
        }
    } else {
        let drop: u32 = (e - scale) as u32;
        let m: u64;
        let up: bool;
        let ghost rest: nat;
        if drop >= 128 {
            m = 0;
            up = false;
            proof {
                rest = n as nat;
                if drop > 128 {
                    lemma_pow2_strictly_increases(127, (drop - 1) as nat);
                }
                lemma_pow2_unfold(drop as nat);
            }
        } else {
            let power: u128 = power_of_two(drop);
            let half: u128 = power_of_two(drop - 1);
            proof {
                lemma_cut_bounds(n as nat, length as nat, scale as int, e as nat, drop as nat);
                lemma_pow2_unfold(drop as nat);
                vstd::arithmetic::div_mod::lemma_fundamental_div_mod(n as int, power as int);
            }
            let cut: u128 = n % power;
            m = (n / power) as u64;
            up = cut > half || cut == half && (inexact || m % 2 == 1);
            proof {
                rest = cut as nat;
                assert(power * (n as int / power as int) == m * power) by (nonlinear_arith)
                    requires
                        m == n as int / power as int,
                ;
            }
        }
        target = e as u64 * BINADE + m + if up {
            1u64
        } else {
            0u64
        };
        assert forall|numerator: nat, denominator: nat|
            denominator > 0 && #[trigger] brackets(
                numerator,
                denominator,
                n as nat,
                scale as int,
                inexact,
            ) implies rounds_to(
            numerator,
            denominator,
            if target < INFINITE_MAGNITUDE {
                target as nat
            } else {
                INFINITE_MAGNITUDE as nat
            },
        ) by {
            lemma_drop_digits(
                numerator,
                denominator,
                n as nat,
                scale as int,
                inexact,
                e as nat,
                drop as nat,
                m as nat,
                rest,
                up,
            );
        }
    }
    if target < INFINITE_MAGNITUDE {
        target
    } else {
        INFINITE_MAGNITUDE
    }
}

} // verus!
