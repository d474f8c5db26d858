//! IEEE 754 binary64 numbers as bit patterns, with the arithmetic that the meters need.
//!
//! Percentages, unit counts and second counts reach this crate as binary64 numbers. Here they
//! are plain bit patterns, and every operation is integer arithmetic that is proved to give the
//! correctly rounded result.
//!
//! The model is exact: the magnitude of a finite number is a whole multiple of `2^-1074`, so a
//! number is an integer count of that unit ([`Double::value`]).

use vstd::arithmetic::div_mod::{lemma_fundamental_div_mod, lemma_mod_bound};
use vstd::arithmetic::power2::{
    lemma2_to64, lemma2_to64_rest, lemma_pow2_adds, lemma_pow2_pos, lemma_pow2_strictly_increases,
    lemma_pow2_unfold, pow2,
};
use vstd::prelude::*;

verus! {

/// `2^52`: one past the largest fraction field.
pub const FRACTION_LIMIT: u64 = 0x0010_0000_0000_0000;

/// `2^63`: the weight of the sign bit.
pub const SIGN_LIMIT: u64 = 0x8000_0000_0000_0000;

/// The magnitude bits of an infinity.
pub const INFINITE: u64 = 0x7ff0_0000_0000_0000;

/// The bits of the quiet not-a-number.
pub const NOT_A_NUMBER: u64 = 0x7ff8_0000_0000_0000;

/// The bits of one hundred.
pub const HUNDRED: u64 = 0x4059_0000_0000_0000;

/// A binary64 number, held as its bit pattern.
#[derive(Debug, Clone, Copy, PartialEq, Eq, Structural)]
pub struct Double {
    pub bits: u64,
}

/// The significand of a magnitude: with the implicit leading bit where there is one.
pub open spec fn significand(magnitude: int) -> int {
    if magnitude < FRACTION_LIMIT {
        magnitude
    } else {
        FRACTION_LIMIT + magnitude % (FRACTION_LIMIT as int)
    }
}

/// The power of two by which a significand is scaled, counted from the unit `2^-1074`.
pub open spec fn exponent(magnitude: int) -> int {
    if magnitude < FRACTION_LIMIT {
        0
    } else {
        magnitude / (FRACTION_LIMIT as int) - 1
    }
}

/// The absolute value of the number with the given magnitude bits, as a count of `2^-1074`.
///
/// At the magnitude bits of infinity this is `2^1024`, the value at which rounding overflows.
pub open spec fn scaled(magnitude: int) -> int {
    significand(magnitude) * pow2(exponent(magnitude) as nat)
}

/// `magnitude` is what the exact quotient `number / weight` (in units of `2^-1074`) rounds to:
/// the quotient lies between the midpoints to the two neighbours, and a tie goes to the even
/// one. Whatever lies at or above the midpoint beyond the largest finite number is infinite.
pub open spec fn rounds_to(number: int, weight: int, magnitude: int) -> bool {
    &&& 0 <= magnitude <= INFINITE
    &&& magnitude > 0 ==> {
        let midpoint = (scaled(magnitude - 1) + scaled(magnitude)) * weight;
        2 * number > midpoint || (2 * number == midpoint && magnitude % 2 == 0)
    }
    &&& magnitude < INFINITE ==> {
        let midpoint = (scaled(magnitude) + scaled(magnitude + 1)) * weight;
        2 * number < midpoint || (2 * number == midpoint && magnitude % 2 == 0)
    }
}

impl Double {
    /// The bits below the sign.
    pub open spec fn magnitude(self) -> int {
        self.bits as int % (SIGN_LIMIT as int)
    }

    /// The sign bit.
    pub open spec fn negative(self) -> bool {
        self.bits >= SIGN_LIMIT
    }

    /// Not a number.
    pub open spec fn nan(self) -> bool {
        self.magnitude() > INFINITE
    }

    /// Plus or minus infinity.
    pub open spec fn infinite(self) -> bool {
        self.magnitude() == INFINITE
    }

    /// Neither infinite nor a not-a-number.
    pub open spec fn finite(self) -> bool {
        self.magnitude() < INFINITE
    }

    /// The number as a count of `2^-1074`. For an infinity: plus or minus `2^1024`, which is
    /// beyond every finite number.
    pub open spec fn value(self) -> int {
        if self.negative() {
            -scaled(self.magnitude())
        } else {
            scaled(self.magnitude())
        }
    }
}

/// Adding one to the magnitude bits adds `2^exponent` to the value.
proof fn lemma_scaled_step(magnitude: int)
    requires
        magnitude >= 0,
    ensures
        scaled(magnitude + 1) == scaled(magnitude) + pow2(exponent(magnitude) as nat),
        scaled(magnitude + 1) > scaled(magnitude),
{
    let limit = FRACTION_LIMIT as int;
    let next = magnitude + 1;
    let e = exponent(magnitude);
    lemma_pow2_pos(e as nat);
    lemma2_to64();
    if next < limit {
        assert(scaled(next) == next * 1);
    } else if magnitude < limit {
        assert(next == limit);
        assert(scaled(next) == limit * 1);
        assert(scaled(magnitude) == magnitude * 1);
    } else {
        let s = significand(magnitude);
        let p = pow2(e as nat) as int;
        if magnitude % limit == limit - 1 {
            assert(next % limit == 0 && next / limit == magnitude / limit + 1);
            lemma_pow2_unfold((e + 1) as nat);
            assert(limit * (2 * p) == (2 * limit - 1) * p + p) by (nonlinear_arith);
        } else {
            assert(next % limit == magnitude % limit + 1 && next / limit == magnitude / limit);
            assert((s + 1) * p == s * p + p) by (nonlinear_arith);
        }
    }
}

/// Larger magnitude bits denote larger absolute values.
pub proof fn lemma_scaled_increases(low: int, high: int)
    requires
        0 <= low < high,
    ensures
        scaled(low) < scaled(high),
    decreases high - low,
{
    lemma_scaled_step(high - 1);
    if low < high - 1 {
        lemma_scaled_increases(low, high - 1);
    }
}

/// Magnitude bits denote values from zero up.
pub proof fn lemma_scaled_bounds(magnitude: int)
    requires
        magnitude >= 0,
    ensures
        scaled(magnitude) >= 0,
        scaled(magnitude) == 0 <==> magnitude == 0,
{
    let p = pow2(exponent(0) as nat) as int;
    assert(scaled(0) == 0 * p);
    assert(0 * p == 0) by (nonlinear_arith);
    if magnitude > 0 {
        lemma_scaled_increases(0, magnitude);
    }
}

/// The magnitude bits with a given significand and exponent.
proof fn lemma_scaled_compose(s: int, e: int)
    requires
        0 <= e,
        0 <= s < 2 * FRACTION_LIMIT,
        e == 0 || s >= FRACTION_LIMIT,
    ensures
        scaled(e * FRACTION_LIMIT + s) == s * pow2(e as nat),
{
    let limit = FRACTION_LIMIT as int;
    let magnitude = e * limit + s;
    lemma2_to64();
    if s < limit {
        assert(magnitude == s);
    } else {
        assert(magnitude == (e + 1) * limit + (s - limit)) by (nonlinear_arith)
            requires
                magnitude == e * limit + s,
        ;
        vstd::arithmetic::div_mod::lemma_fundamental_div_mod_converse(
            magnitude,
            limit,
            e + 1,
            s - limit,
        );
        assert(magnitude >= limit) by (nonlinear_arith)
            requires
                magnitude == (e + 1) * limit + (s - limit),
                e >= 0,
                s >= limit,
                limit > 0,
        ;
    }
}

/// A quotient between two neighbours rounds down below their midpoint.
proof fn lemma_rounds_down(number: int, weight: int, low: int)
    requires
        0 <= low < INFINITE,
        weight > 0,
        scaled(low) * weight <= number,
        ({
            let midpoint = (scaled(low) + scaled(low + 1)) * weight;
            2 * number < midpoint || (2 * number == midpoint && low % 2 == 0)
        }),
    ensures
        rounds_to(number, weight, low),
{
    if low > 0 {
        lemma_scaled_step(low - 1);
        let (a, b) = (scaled(low - 1), scaled(low));
        assert((a + b) * weight < 2 * (b * weight)) by (nonlinear_arith)
            requires
                a < b,
                weight > 0,
        ;
    }
}

/// A quotient between two neighbours rounds up above their midpoint.
proof fn lemma_rounds_up(number: int, weight: int, low: int)
    requires
        0 <= low < INFINITE,
        weight > 0,
        number <= scaled(low + 1) * weight,
        ({
            let midpoint = (scaled(low) + scaled(low + 1)) * weight;
            2 * number > midpoint || (2 * number == midpoint && (low + 1) % 2 == 0)
        }),
    ensures
        rounds_to(number, weight, low + 1),
{
    if low + 1 < INFINITE {
        lemma_scaled_step(low + 1);
        let (a, b) = (scaled(low + 1), scaled(low + 2));
        assert((a + b) * weight > 2 * (a * weight)) by (nonlinear_arith)
            requires
                a < b,
                weight > 0,
        ;
    }
}

/// What a power `2^e` multiplies by: itself, or one where it is a fraction.
spec fn rise(e: int) -> int {
    if e >= 0 {
        pow2(e as nat) as int
    } else {
        1
    }
}

/// What a power `2^e` divides by: one, or `2^-e` where it is a fraction.
spec fn fall(e: int) -> int {
    if e >= 0 {
        1
    } else {
        pow2((-e) as nat) as int
    }
}

/// What a quotient is, given a whole part `n` at exponent `e`: exactly `n * 2^e`, or, where
/// `inexact`, strictly between `n * 2^e` and `(n + 1) * 2^e`.
spec fn lies_at(n: int, e: int, inexact: bool, number: int, weight: int) -> bool {
    let up = rise(e);
    let down = fall(e);
    if inexact {
        n * up * weight < number * down < (n + 1) * up * weight
    } else {
        n * up * weight == number * down
    }
}

/// `2^power`.
fn two_to(power: u32) -> (result: u128)
    requires
        power < 128,
    ensures
        result == pow2(power as nat),
        result > 0,
{
    let mut result: u128 = 1;
    let mut i: u32 = 0;
    proof {
        lemma2_to64();
        lemma2_to64_rest();
        lemma_pow2_adds(63, 64);
    }
    while i < power
        invariant
            i <= power,
            power < 128,
            result == pow2(i as nat),
            pow2(127) == 0x8000_0000_0000_0000_0000_0000_0000_0000,
        decreases power - i,
    {
        proof {
            lemma_pow2_unfold((i + 1) as nat);
            if i + 1 < 127 {
                lemma_pow2_strictly_increases((i + 1) as nat, 127);
            }
        }
        result = result * 2;
        i = i + 1;
    }
    proof {
        lemma_pow2_pos(power as nat);
    }
    result
}

/// The number of bits of `n`.
fn bit_length(n: u128) -> (length: u32)
    requires
        0 < n < pow2(120),
    ensures
        1 <= length <= 120,
        pow2((length - 1) as nat) <= n < pow2(length as nat),
{
    let mut length: u32 = 1;
    let mut limit: u128 = 2;
    proof {
        lemma2_to64();
        lemma2_to64_rest();
        lemma_pow2_adds(56, 64);
    }
    while limit <= n
        invariant
            1 <= length <= 120,
            limit == pow2(length as nat),
            pow2((length - 1) as nat) <= n < pow2(120),
            pow2(120) == 0x0100_0000_0000_0000_0000_0000_0000_0000,
        decreases 120 - length,
    {
        proof {
            if length == 120 {
                assert(false);
            }
            lemma_pow2_unfold((length + 1) as nat);
        }
        limit = limit * 2;
        length = length + 1;
    }
    length
}

/// Rounding of a whole part that fits a significand.
proof fn lemma_round_whole(n: int, e: int, shift: int, number: int, weight: int)
    requires
        n > 0,
        shift <= 0,
        e + shift >= 0,
        weight > 0,
        lies_at(n, e, false, number, weight),
        ({
            let q = n * pow2((-shift) as nat);
            &&& q < 2 * FRACTION_LIMIT
            &&& e + shift == 0 || q >= FRACTION_LIMIT
            &&& (e + shift) * FRACTION_LIMIT + q < INFINITE
        }),
    ensures
        rounds_to(number, weight, (e + shift) * FRACTION_LIMIT + n * pow2((-shift) as nat)),
{
    let lift = pow2((-shift) as nat) as int;
    let q = n * lift;
    let top = e + shift;
    let t = pow2(top as nat) as int;
    let up = pow2(e as nat) as int;
    let low = top * FRACTION_LIMIT + q;
    lemma_pow2_pos((-shift) as nat);
    lemma_pow2_adds(top as nat, (-shift) as nat);
    assert(q >= 0) by (nonlinear_arith)
        requires
            q == n * lift,
            n > 0,
            lift > 0,
    ;
    assert(low >= 0) by (nonlinear_arith)
        requires
            low == top * FRACTION_LIMIT + q,
            top >= 0,
            q >= 0,
    ;
    lemma_scaled_compose(q, top);
    lemma_scaled_step(low);
    assert(number == scaled(low) * weight) by (nonlinear_arith)
        requires
            n * up * weight == number * 1,
            up == t * lift,
            scaled(low) == (n * lift) * t,
    ;
    let (a, b) = (scaled(low), scaled(low + 1));
    assert((a + b) * weight > 2 * (a * weight)) by (nonlinear_arith)
        requires
            a < b,
            weight > 0,
    ;
    lemma_rounds_down(number, weight, low);
}

/// A whole part too large for any finite number rounds to infinity.
proof fn lemma_round_overflow(
    n: int,
    e: int,
    inexact: bool,
    length: int,
    number: int,
    weight: int,
)
    requires
        length >= 1,
        n >= pow2((length - 1) as nat),
        e + length - 53 >= 2046,
        e >= 0,
        weight > 0,
        lies_at(n, e, inexact, number, weight),
    ensures
        rounds_to(number, weight, INFINITE as int),
{
    let top = INFINITE as int;
    let up = pow2(e as nat) as int;
    lemma_pow2_pos(e as nat);
    lemma_scaled_step(top - 1);
    lemma_pow2_adds((length - 1) as nat, e as nat);
    lemma2_to64_rest();
    lemma_pow2_adds(52, 2046);
    assert(scaled(top) == pow2(2098));
    if 2098 < length - 1 + e {
        lemma_pow2_strictly_increases(2098, (length - 1 + e) as nat);
    }
    assert(n * up >= pow2((length - 1) as nat) * up) by (nonlinear_arith)
        requires
            n >= pow2((length - 1) as nat),
            up > 0,
    ;
    let (a, b) = (scaled(top - 1), scaled(top));
    assert(number >= b * weight) by (nonlinear_arith)
        requires
            number >= n * up * weight,
            n * up >= b,
            weight > 0,
    ;
    assert((a + b) * weight < 2 * (b * weight)) by (nonlinear_arith)
        requires
            a < b,
            weight > 0,
    ;
}

/// Rounding after the low `shift` bits of a whole part have been cut off.
proof fn lemma_round_cut(
    n: int,
    e: int,
    inexact: bool,
    shift: int,
    number: int,
    weight: int,
)
    requires
        n >= 0,
        shift >= 1,
        e + shift >= 0,
        weight > 0,
        lies_at(n, e, inexact, number, weight),
        ({
            let q = n / (pow2(shift as nat) as int);
            &&& q < 2 * FRACTION_LIMIT
            &&& e + shift == 0 || q >= FRACTION_LIMIT
            &&& (e + shift) * FRACTION_LIMIT + q < INFINITE
        }),
    ensures
        ({
            let q = n / (pow2(shift as nat) as int);
            let rest = n % (pow2(shift as nat) as int);
            let half = pow2((shift - 1) as nat) as int;
            let low = (e + shift) * FRACTION_LIMIT + q;
            if rest < half || (rest == half && !inexact && low % 2 == 0) {
                rounds_to(number, weight, low)
            } else {
                rounds_to(number, weight, low + 1)
            }
        }),
{
    let cut = pow2(shift as nat) as int;
    let half = pow2((shift - 1) as nat) as int;
    let q = n / cut;
    let rest = n % cut;
    let top = e + shift;
    let t = pow2(top as nat) as int;
    let low = top * FRACTION_LIMIT + q;
    let up = rise(e);
    let down = fall(e);
    lemma_pow2_pos(shift as nat);
    lemma_pow2_pos(top as nat);
    lemma_pow2_unfold(shift as nat);
    if e >= 0 {
        lemma_pow2_pos(e as nat);
        lemma_pow2_adds(e as nat, shift as nat);
        assert(t * down == cut * up) by (nonlinear_arith)
            requires
                t == up * cut,
                down == 1,
        ;
    } else {
        lemma_pow2_pos((-e) as nat);
        lemma_pow2_adds(top as nat, (-e) as nat);
        assert(t * down == cut * up) by (nonlinear_arith)
            requires
                cut == t * down,
                up == 1,
        ;
    }
    lemma_scaled_compose(q, top);
    lemma_scaled_step(low);
    assert(low >= 0) by (nonlinear_arith)
        requires
            low == top * FRACTION_LIMIT + q,
            top >= 0,
            q >= 0,
    ;
    assert(scaled(low) == q * t);
    assert(exponent(low) == top) by {
        if q < FRACTION_LIMIT {
        } else {
            assert(low == (top + 1) * FRACTION_LIMIT + (q - FRACTION_LIMIT)) by (nonlinear_arith)
                requires
                    low == top * FRACTION_LIMIT + q,
            ;
            vstd::arithmetic::div_mod::lemma_fundamental_div_mod_converse(
                low,
                FRACTION_LIMIT as int,
                top + 1,
                q - FRACTION_LIMIT,
            );
        }
    }
    let next = scaled(low + 1);
    assert(next == (q + 1) * t) by (nonlinear_arith)
        requires
            next == q * t + t,
    ;
    vstd::arithmetic::div_mod::lemma_fundamental_div_mod(n, cut);
    // Everything is compared after multiplication by `down`.
    let x = number * down;
    let unit = up * weight;
    assert(unit > 0) by (nonlinear_arith)
        requires
            unit == up * weight,
            up > 0,
            weight > 0,
    ;
    assert(n * up * weight == n * unit) by (nonlinear_arith)
        requires
            unit == up * weight,
    ;
    assert((n + 1) * up * weight == (n + 1) * unit) by (nonlinear_arith)
        requires
            unit == up * weight,
    ;
    let below = scaled(low) * weight;
    let above = next * weight;
    let midpoint = (scaled(low) + next) * weight;
    assert(below * down == (q * cut) * unit) by (nonlinear_arith)
        requires
            below == (q * t) * weight,
            t * down == cut * up,
            unit == up * weight,
    ;
    assert(above * down == ((q + 1) * cut) * unit) by (nonlinear_arith)
        requires
            above == ((q + 1) * t) * weight,
            t * down == cut * up,
            unit == up * weight,
    ;
    assert(midpoint * down == ((2 * q + 1) * cut) * unit) by (nonlinear_arith)
        requires
            midpoint == (q * t + (q + 1) * t) * weight,
            t * down == cut * up,
            unit == up * weight,
    ;
    let base = q * cut;
    assert((q + 1) * cut == base + cut) by (nonlinear_arith)
        requires
            base == q * cut,
    ;
    assert((2 * q + 1) * cut == 2 * base + cut) by (nonlinear_arith)
        requires
            base == q * cut,
    ;
    assert(n == base + rest) by (nonlinear_arith)
        requires
            n == cut * q + rest,
            base == q * cut,
    ;
    let slack = x - n * unit;
    assert(0 <= slack && (inexact ==> 0 < slack < unit) && (!inexact ==> slack == 0)) by {
        assert((n + 1) * unit == n * unit + unit) by (nonlinear_arith);
    }
    // 2 * x - midpoint * down == (2 * rest - cut) * unit + 2 * slack
    assert(2 * x - midpoint * down == (2 * rest - cut) * unit + 2 * slack) by (nonlinear_arith)
        requires
            slack == x - n * unit,
            n == base + rest,
            midpoint * down == (2 * base + cut) * unit,
    ;
    assert(x - below * down == rest * unit + slack) by (nonlinear_arith)
        requires
            slack == x - n * unit,
            n == base + rest,
            below * down == base * unit,
    ;
    assert(above * down - x == (cut - rest) * unit - slack) by (nonlinear_arith)
        requires
            slack == x - n * unit,
            n == base + rest,
            above * down == (base + cut) * unit,
    ;
    assert(rest * unit >= 0) by (nonlinear_arith)
        requires
            rest >= 0,
            unit > 0,
    ;
    assert((cut - rest) * unit >= unit) by (nonlinear_arith)
        requires
            cut - rest >= 1,
            unit > 0,
    ;
    assert(number >= below) by (nonlinear_arith)
        requires
            number * down >= below * down,
            down > 0,
    ;
    assert(number <= above) by (nonlinear_arith)
        requires
            number * down <= above * down,
            down > 0,
    ;
    if rest < half {
        assert((2 * rest - cut) * unit <= -2 * unit) by (nonlinear_arith)
            requires
                2 * rest - cut <= -2,
                unit > 0,
        ;
        assert(2 * number < midpoint) by (nonlinear_arith)
            requires
                2 * (number * down) < midpoint * down,
                down > 0,
        ;
        lemma_rounds_down(number, weight, low);
    } else if rest > half {
        assert((2 * rest - cut) * unit > 0) by (nonlinear_arith)
            requires
                2 * rest - cut > 0,
                unit > 0,
        ;
        assert(2 * number > midpoint) by (nonlinear_arith)
            requires
                2 * (number * down) > midpoint * down,
                down > 0,
        ;
        lemma_rounds_up(number, weight, low);
    } else {
        assert((2 * rest - cut) * unit == 0) by (nonlinear_arith)
            requires
                2 * rest - cut == 0,
        ;
        if inexact {
            assert(2 * number > midpoint) by (nonlinear_arith)
                requires
                    2 * (number * down) > midpoint * down,
                    down > 0,
            ;
            lemma_rounds_up(number, weight, low);
        } else {
            assert(2 * number == midpoint) by (nonlinear_arith)
                requires
                    2 * (number * down) == midpoint * down,
                    down > 0,
            ;
            if low % 2 == 0 {
                lemma_rounds_down(number, weight, low);
            } else {
                lemma_rounds_up(number, weight, low);
            }
        }
    }
}

/// The magnitude bits that the quotient `number / weight` rounds to, from its whole part `n` at
/// exponent `e`.
fn round_magnitude(
    n: u128,
    e: i32,
    inexact: bool,
    Ghost(number): Ghost<int>,
    Ghost(weight): Ghost<int>,
) -> (magnitude: u64)
    requires
        n < pow2(120),
        -4000 <= e <= 4000,
        weight > 0,
        lies_at(n as int, e as int, inexact, number, weight),
        inexact ==> n >= pow2(54),
    ensures
        rounds_to(number, weight, magnitude as int),
{
    proof {
        lemma2_to64();
        lemma2_to64_rest();
        lemma_pow2_adds(56, 64);
    }
    if n == 0 {
        proof {
            let down = fall(e as int);
            lemma_pow2_pos((-e) as nat);
            let up = rise(e as int);
            assert(number == 0) by (nonlinear_arith)
                requires
                    0 * up * weight == number * down,
                    down > 0,
            ;
            lemma_scaled_bounds(0);
            lemma_scaled_step(0);
            let b = scaled(1);
            assert((0 + b) * weight > 0) by (nonlinear_arith)
                requires
                    b > 0,
                    weight > 0,
            ;
        }
        return 0;
    }
    let length: u32 = bit_length(n);
    let wanted: i32 = length as i32 - 53;
    let shift: i32 = if wanted >= -e {
        wanted
    } else {
        -e
    };
    let top: i32 = e + shift;
    if top >= 2046 {
        proof {
            lemma_round_overflow(n as int, e as int, inexact, length as int, number, weight);
        }
        return INFINITE;
    }
    if shift <= 0 {
        let lift: u128 = two_to((-shift) as u32);
        proof {
            if inexact {
                if 54 < length {
                } else {
                    if length < 54 {
                        lemma_pow2_strictly_increases(length as nat, 54);
                    }
                }
                assert(false);
            }
            lemma_pow2_adds(length as nat, (-shift) as nat);
            lemma_pow2_adds((length - 1) as nat, (-shift) as nat);
            if length - shift < 53 {
                lemma_pow2_strictly_increases((length - shift) as nat, 53);
            }
            assert(n * lift < 2 * FRACTION_LIMIT) by (nonlinear_arith)
                requires
                    n < pow2(length as nat),
                    lift > 0,
                    pow2(length as nat) * lift <= 2 * FRACTION_LIMIT,
            ;
            if top > 0 {
                assert(n * lift >= FRACTION_LIMIT) by (nonlinear_arith)
                    requires
                        n >= pow2((length - 1) as nat),
                        lift > 0,
                        pow2((length - 1) as nat) * lift == FRACTION_LIMIT,
                ;
            }
        }
        let q: u64 = (n * lift) as u64;
        proof {
            lemma_round_whole(n as int, e as int, shift as int, number, weight);
        }
        return top as u64 * FRACTION_LIMIT + q;
    }
    if shift >= 122 {
        proof {
            lemma_pow2_strictly_increases(120, shift as nat);
            lemma_pow2_strictly_increases(120, (shift - 1) as nat);
            let cut = pow2(shift as nat) as int;
            vstd::arithmetic::div_mod::lemma_fundamental_div_mod_converse(n as int, cut, 0, n as int);
            lemma_round_cut(n as int, e as int, inexact, shift as int, number, weight);
        }
        return 0;
    }
    let cut: u128 = two_to(shift as u32);
    let half: u128 = two_to((shift - 1) as u32);
    let whole: u128 = n / cut;
    let rest: u128 = n % cut;
    proof {
        vstd::arithmetic::div_mod::lemma_fundamental_div_mod(n as int, cut as int);
        lemma_pow2_adds(53, shift as nat);
        if length < 53 + shift {
            lemma_pow2_strictly_increases(length as nat, (53 + shift) as nat);
        }
        assert(whole < 2 * FRACTION_LIMIT) by (nonlinear_arith)
            requires
                n == cut * whole + rest,
                n < 2 * FRACTION_LIMIT * cut,
                rest >= 0,
                cut > 0,
        ;
        if top > 0 {
            lemma_pow2_adds(52, shift as nat);
            assert(whole >= FRACTION_LIMIT) by (nonlinear_arith)
                requires
                    n == cut * whole + rest,
                    n >= FRACTION_LIMIT * cut,
                    rest < cut,
                    cut > 0,
            ;
        }
        lemma_round_cut(n as int, e as int, inexact, shift as int, number, weight);
    }
    let low: u64 = top as u64 * FRACTION_LIMIT + whole as u64;
    if rest < half || (rest == half && !inexact && low % 2 == 0) {
        low
    } else {
        low + 1
    }
}

/// The significand and the exponent of magnitude bits.
fn decode(magnitude: u64) -> (parts: (u64, i32))
    requires
        magnitude < INFINITE,
    ensures
        parts.0 == significand(magnitude as int),
        parts.1 == exponent(magnitude as int),
        0 <= parts.1 <= 2045,
        parts.0 < 2 * FRACTION_LIMIT,
        parts.1 > 0 ==> parts.0 >= FRACTION_LIMIT,
        scaled(magnitude as int) == parts.0 * pow2(parts.1 as nat),
        parts.0 == 0 <==> magnitude == 0,
{
    if magnitude < FRACTION_LIMIT {
        (magnitude, 0)
    } else {
        (FRACTION_LIMIT + magnitude % FRACTION_LIMIT, (magnitude / FRACTION_LIMIT) as i32 - 1)
    }
}

/// The smaller of two addends, aligned with the larger: `n` at the larger one's exponent less
/// sixty, with the bits that do not fit noted in `inexact`.
proof fn lemma_align(q1: int, e1: int, q2: int, e2: int, n2: int, inexact: bool)
    requires
        0 <= e2 <= e1,
        0 <= q2,
        ({
            let d = e1 - e2;
            if d <= 60 {
                &&& n2 == q2 * pow2((60 - d) as nat)
                &&& !inexact
            } else {
                let cut = pow2((d - 60) as nat) as int;
                &&& n2 == q2 / cut
                &&& inexact == (q2 % cut != 0)
            }
        }),
    ensures
        ({
            let e = e1 - 60;
            let up = rise(e);
            let down = fall(e);
            let large = q1 * pow2(e1 as nat);
            let small = q2 * pow2(e2 as nat);
            &&& large * down == (q1 * pow2(60)) * up
            &&& !inexact ==> small * down == n2 * up
            &&& inexact ==> n2 * up < small * down < (n2 + 1) * up
        }),
{
    let e = e1 - 60;
    let d = e1 - e2;
    let up = rise(e);
    let down = fall(e);
    let p1 = pow2(e1 as nat) as int;
    let p2 = pow2(e2 as nat) as int;
    let sixty = pow2(60) as int;
    if e >= 0 {
        lemma_pow2_adds(e as nat, 60);
        assert(p1 * down == sixty * up) by (nonlinear_arith)
            requires
                p1 == up * sixty,
                down == 1,
        ;
    } else {
        lemma_pow2_adds(e1 as nat, (-e) as nat);
        assert(p1 * down == sixty * up) by (nonlinear_arith)
            requires
                sixty == p1 * down,
                up == 1,
        ;
    }
    assert((q1 * p1) * down == (q1 * sixty) * up) by (nonlinear_arith)
        requires
            p1 * down == sixty * up,
    ;
    lemma_pow2_adds(e2 as nat, d as nat);
    let pd = pow2(d as nat) as int;
    lemma_pow2_pos(d as nat);
    lemma_pow2_pos(e2 as nat);
    if d <= 60 {
        let rest = pow2((60 - d) as nat) as int;
        lemma_pow2_adds((60 - d) as nat, d as nat);
        assert(p2 * down == rest * up) by (nonlinear_arith)
            requires
                p1 * down == sixty * up,
                p1 == p2 * pd,
                sixty == rest * pd,
                pd > 0,
        ;
        assert((q2 * p2) * down == (q2 * rest) * up) by (nonlinear_arith)
            requires
                p2 * down == rest * up,
        ;
    } else {
        let cut = pow2((d - 60) as nat) as int;
        lemma_pow2_pos((d - 60) as nat);
        lemma_pow2_adds(e2 as nat, (d - 60) as nat);
        vstd::arithmetic::div_mod::lemma_fundamental_div_mod(q2, cut);
        let r = q2 % cut;
        assert(q2 * p2 == n2 * up + r * p2) by (nonlinear_arith)
            requires
                q2 == cut * n2 + r,
                up == p2 * cut,
        ;
        assert((q2 * p2) * down == q2 * p2) by (nonlinear_arith)
            requires
                down == 1,
        ;
        if inexact {
            assert(0 < r * p2 < up) by (nonlinear_arith)
                requires
                    0 < r < cut,
                    up == p2 * cut,
                    p2 > 0,
            ;
            assert((n2 + 1) * up == n2 * up + up) by (nonlinear_arith);
        } else {
            assert(r * p2 == 0) by (nonlinear_arith)
                requires
                    r == 0,
            ;
        }
    }
}

/// Two aligned addends: `(q1 * 2^60, n2, inexact)` at the exponent of the first less sixty.
fn align(q1: u64, e1: i32, q2: u64, e2: i32) -> (aligned: (u128, u128, bool))
    requires
        0 <= e2 <= e1 <= 2045,
        q1 < 2 * FRACTION_LIMIT,
        q2 < 2 * FRACTION_LIMIT,
        e1 > 0 ==> q1 >= FRACTION_LIMIT,
    ensures
        aligned.0 == q1 * pow2(60),
        aligned.0 < pow2(113),
        aligned.1 < pow2(113),
        aligned.2 ==> aligned.0 >= pow2(112) && aligned.1 < pow2(53),
        ({
            let d = e1 - e2;
            if d <= 60 {
                &&& aligned.1 == q2 * pow2((60 - d) as nat)
                &&& !aligned.2
            } else {
                let cut = pow2((d - 60) as nat) as int;
                &&& aligned.1 == q2 as int / cut
                &&& aligned.2 == (q2 as int % cut != 0)
            }
        }),
{
    let d: i32 = e1 - e2;
    let sixty: u128 = two_to(60);
    proof {
        lemma2_to64_rest();
        lemma_pow2_adds(53, 60);
        lemma_pow2_adds(52, 60);
        assert(q1 * sixty < pow2(113)) by (nonlinear_arith)
            requires
                q1 < 2 * FRACTION_LIMIT,
                sixty > 0,
                2 * FRACTION_LIMIT * sixty == pow2(113),
        ;
        lemma_pow2_adds(49, 64);
    }
    let first: u128 = q1 as u128 * sixty;
    if d <= 60 {
        let factor: u128 = two_to((60 - d) as u32);
        proof {
            if d > 0 {
                lemma_pow2_strictly_increases((60 - d) as nat, 60);
            }
            assert(q2 * factor < pow2(113)) by (nonlinear_arith)
                requires
                    q2 < 2 * FRACTION_LIMIT,
                    0 < factor <= sixty,
                    2 * FRACTION_LIMIT * sixty == pow2(113),
            ;
        }
        let second: u128 = q2 as u128 * factor;
        (first, second, false)
    } else {
        proof {
            assert(q1 * sixty >= pow2(112)) by (nonlinear_arith)
                requires
                    q1 >= FRACTION_LIMIT,
                    sixty > 0,
                    FRACTION_LIMIT * sixty == pow2(112),
            ;
        }
        if d - 60 >= 64 {
            proof {
                if d - 60 > 64 {
                    lemma_pow2_strictly_increases(64, (d - 60) as nat);
                }
                let cut = pow2((d - 60) as nat) as int;
                vstd::arithmetic::div_mod::lemma_fundamental_div_mod_converse(
                    q2 as int,
                    cut,
                    0,
                    q2 as int,
                );
            }
            (first, 0, q2 != 0)
        } else {
            let cut: u128 = two_to((d - 60) as u32);
            let second: u128 = q2 as u128 / cut;
            let rest: u128 = q2 as u128 % cut;
            proof {
                assert(second <= q2) by (nonlinear_arith)
                    requires
                        second == q2 as int / cut as int,
                        cut >= 1,
                ;
            }
            (first, second, rest != 0)
        }
    }
}

/// The rounded sum of two absolute values.
fn sum_of_magnitudes(large: u64, small: u64) -> (magnitude: u64)
    requires
        small <= large < INFINITE,
    ensures
        rounds_to(scaled(large as int) + scaled(small as int), 1, magnitude as int),
{
    let (q1, e1) = decode(large);
    let (q2, e2) = decode(small);
    let (first, second, inexact) = align(q1, e1, q2, e2);
    let ghost number = scaled(large as int) + scaled(small as int);
    proof {
        lemma2_to64_rest();
        lemma_pow2_adds(54, 60);
        lemma_pow2_adds(53, 60);
        lemma_pow2_adds(49, 64);
        lemma_pow2_strictly_increases(114, 120);
        lemma_pow2_strictly_increases(54, 112);
        lemma_pow2_unfold(114);
        lemma_align(q1 as int, e1 as int, q2 as int, e2 as int, second as int, inexact);
        let e = e1 - 60;
        let up = rise(e);
        let down = fall(e);
        let (a, b) = (scaled(large as int), scaled(small as int));
        let n = first + second;
        assert(number * down == a * down + b * down) by (nonlinear_arith)
            requires
                number == a + b,
        ;
        assert(n * up * 1 == first * up + second * up) by (nonlinear_arith)
            requires
                n == first + second,
        ;
        assert((n + 1) * up * 1 == first * up + (second + 1) * up) by (nonlinear_arith)
            requires
                n == first + second,
        ;
    }
    round_magnitude(first + second, e1 - 60, inexact, Ghost(number), Ghost(1))
}

/// The rounded difference of two absolute values.
fn difference_of_magnitudes(large: u64, small: u64) -> (magnitude: u64)
    requires
        small <= large < INFINITE,
    ensures
        rounds_to(scaled(large as int) - scaled(small as int), 1, magnitude as int),
{
    let (q1, e1) = decode(large);
    let (q2, e2) = decode(small);
    let (first, second, inexact) = align(q1, e1, q2, e2);
    let ghost number = scaled(large as int) - scaled(small as int);
    let ghost e = e1 - 60;
    let ghost up = rise(e);
    let ghost down = fall(e);
    proof {
        lemma2_to64_rest();
        lemma_pow2_adds(54, 60);
        lemma_pow2_adds(53, 60);
        lemma_pow2_adds(49, 64);
        lemma_pow2_strictly_increases(113, 120);
        lemma_pow2_strictly_increases(54, 111);
        lemma_pow2_strictly_increases(53, 111);
        lemma_pow2_unfold(112);
        lemma_pow2_pos(e as nat);
        lemma_pow2_pos((-e) as nat);
        lemma_align(q1 as int, e1 as int, q2 as int, e2 as int, second as int, inexact);
        let (a, b) = (scaled(large as int), scaled(small as int));
        if small < large {
            lemma_scaled_increases(small as int, large as int);
        }
        assert(number * down == a * down - b * down) by (nonlinear_arith)
            requires
                number == a - b,
        ;
        assert(number * down >= 0) by (nonlinear_arith)
            requires
                number >= 0,
                down > 0,
        ;
        let n = first - second;
        assert(n * up * 1 == first * up - second * up) by (nonlinear_arith)
            requires
                n == first - second,
        ;
        assert((n - 1) * up * 1 == first * up - (second + 1) * up) by (nonlinear_arith)
            requires
                n == first - second,
        ;
        if !inexact {
            assert(first >= second) by (nonlinear_arith)
                requires
                    first * up - second * up >= 0,
                    up > 0,
            ;
        }
    }
    let n: u128 = if inexact {
        first - second - 1
    } else {
        first - second
    };
    round_magnitude(n, e1 - 60, inexact, Ghost(number), Ghost(1))
}

/// A significand brought to its full width, by lowering the exponent.
fn widen(q: u64, e: i32) -> (wide: (u64, i32))
    requires
        0 < q < 2 * FRACTION_LIMIT,
        0 <= e <= 2045,
    ensures
        FRACTION_LIMIT <= wide.0 < 2 * FRACTION_LIMIT,
        -60 <= wide.1 <= e,
        wide.0 == q * pow2((e - wide.1) as nat),
{
    let mut wide: u64 = q;
    let mut low: i32 = e;
    proof {
        lemma2_to64();
        lemma2_to64_rest();
        assert(q * 1 == q);
    }
    while wide < FRACTION_LIMIT
        invariant
            0 < q,
            0 < wide < 2 * FRACTION_LIMIT,
            0 <= e <= 2045,
            low <= e,
            e - low <= 52,
            wide == q * pow2((e - low) as nat),
            pow2(52) == FRACTION_LIMIT,
        decreases 2 * FRACTION_LIMIT - wide,
    {
        proof {
            if e - low == 52 {
                assert(q * pow2(52) >= pow2(52)) by (nonlinear_arith)
                    requires
                        q >= 1,
                        pow2(52) > 0,
                ;
                assert(false);
            }
            lemma_pow2_unfold((e - low + 1) as nat);
            let p = pow2((e - low) as nat);
            assert(q * (2 * p) == 2 * (q * p)) by (nonlinear_arith);
        }
        wide = wide * 2;
        low = low - 1;
    }
    (wide, low)
}

/// The rounded quotient of two absolute values, the second not zero.
fn quotient_of_magnitudes(dividend: u64, divisor: u64) -> (magnitude: u64)
    requires
        dividend < INFINITE,
        0 < divisor < INFINITE,
    ensures
        rounds_to(scaled(dividend as int) * pow2(1074), scaled(divisor as int), magnitude as int),
{
    let (q1, e1) = decode(dividend);
    let (q2, e2) = decode(divisor);
    let ghost number = scaled(dividend as int) * pow2(1074);
    let ghost weight = scaled(divisor as int);
    proof {
        lemma_scaled_bounds(divisor as int);
    }
    if q1 == 0 {
        proof {
            let p = pow2(e1 as nat) as int;
            let big = pow2(1074) as int;
            assert(number == 0) by (nonlinear_arith)
                requires
                    number == (0 * p) * big,
            ;
            let one = pow2(0) as int;
            assert(0 * one * weight == number * 1) by (nonlinear_arith)
                requires
                    number == 0,
            ;
            lemma_pow2_pos(120);
        }
        return round_magnitude(0, 0, false, Ghost(number), Ghost(weight));
    }
    let (wide, low) = widen(q1, e1);
    let sixty: u128 = two_to(60);
    proof {
        lemma2_to64_rest();
        lemma_pow2_adds(53, 60);
        lemma_pow2_adds(52, 60);
        lemma_pow2_adds(53, 59);
        lemma_pow2_strictly_increases(113, 120);
        lemma_pow2_strictly_increases(54, 59);
        lemma_pow2_adds(49, 64);
        assert(wide * sixty < pow2(113)) by (nonlinear_arith)
            requires
                wide < 2 * FRACTION_LIMIT,
                sixty > 0,
                2 * FRACTION_LIMIT * sixty == pow2(113),
        ;
        assert(wide * sixty >= pow2(112)) by (nonlinear_arith)
            requires
                wide >= FRACTION_LIMIT,
                sixty > 0,
                FRACTION_LIMIT * sixty == pow2(112),
        ;
    }
    let top: u128 = wide as u128 * sixty;
    let whole: u128 = top / q2 as u128;
    let rest: u128 = top % q2 as u128;
    let e: i32 = low - e2 + 1014;
    proof {
        let q2 = q2 as int;
        let top = top as int;
        let whole = whole as int;
        let rest = rest as int;
        vstd::arithmetic::div_mod::lemma_fundamental_div_mod(top, q2);
        assert(whole <= top) by (nonlinear_arith)
            requires
                top == q2 * whole + rest,
                rest >= 0,
                q2 >= 1,
                whole >= 0,
        ;
        assert(whole >= pow2(59)) by (nonlinear_arith)
            requires
                top == q2 * whole + rest,
                rest < q2,
                0 < q2 < 2 * FRACTION_LIMIT,
                top >= 2 * FRACTION_LIMIT * pow2(59),
        ;
        let up = rise(e as int);
        let down = fall(e as int);
        let p2 = pow2(e2 as nat) as int;
        lemma_pow2_pos(e2 as nat);
        lemma_pow2_pos(e as nat);
        // number * down == top * (p2 * up)
        let lift = pow2((e1 - low) as nat) as int;
        let p1 = pow2(e1 as nat) as int;
        let big = pow2(1074) as int;
        let sixty = sixty as int;
        assert(p1 * big * down == lift * sixty * (p2 * up)) by {
            if e >= 0 {
                // e1 + 1074 == (e1 - low) + 60 + e2 + e
                lemma_pow2_adds(e1 as nat, 1074);
                lemma_pow2_adds((e1 - low) as nat, 60);
                lemma_pow2_adds(e2 as nat, e as nat);
                lemma_pow2_adds((e1 - low + 60) as nat, (e2 + e) as nat);
                assert(p1 * big * down == p1 * big) by (nonlinear_arith)
                    requires
                        down == 1,
                ;
            } else {
                lemma_pow2_adds(e1 as nat, 1074);
                lemma_pow2_adds((e1 + 1074) as nat, (-e) as nat);
                lemma_pow2_adds((e1 - low) as nat, 60);
                lemma_pow2_adds((e1 - low + 60) as nat, e2 as nat);
                assert(lift * sixty * (p2 * up) == lift * sixty * p2) by (nonlinear_arith)
                    requires
                        up == 1,
                ;
            }
        }
        assert(number * down == top * (p2 * up)) by (nonlinear_arith)
            requires
                number == (q1 * p1) * big,
                p1 * big * down == lift * sixty * (p2 * up),
                top == (q1 * lift) * sixty,
        ;
        let step = p2 * up;
        assert(step > 0) by (nonlinear_arith)
            requires
                step == p2 * up,
                p2 > 0,
                up > 0,
        ;
        assert(whole * up * weight == (q2 * whole) * step) by (nonlinear_arith)
            requires
                weight == q2 * p2,
                step == p2 * up,
        ;
        assert((whole + 1) * up * weight == (q2 * whole + q2) * step) by (nonlinear_arith)
            requires
                weight == q2 * p2,
                step == p2 * up,
        ;
        assert(number * down == (q2 * whole) * step + rest * step) by (nonlinear_arith)
            requires
                number * down == top * step,
                top == q2 * whole + rest,
        ;
        assert((q2 * whole + q2) * step == (q2 * whole) * step + q2 * step) by (nonlinear_arith);
        if rest == 0 {
            assert(rest * step == 0) by (nonlinear_arith)
                requires
                    rest == 0,
            ;
        } else {
            assert(0 < rest * step < q2 * step) by (nonlinear_arith)
                requires
                    0 < rest < q2,
                    step > 0,
            ;
        }
    }
    round_magnitude(whole, e, rest != 0, Ghost(number), Ghost(weight))
}

/// `sum` is the correctly rounded sum of `a` and `b`.
pub open spec fn is_sum(a: Double, b: Double, sum: Double) -> bool {
    if a.nan() || b.nan() || (a.infinite() && b.infinite() && a.negative() != b.negative()) {
        sum.nan()
    } else if a.infinite() {
        sum == a
    } else if b.infinite() {
        sum == b
    } else {
        let exact = a.value() + b.value();
        &&& rounds_to(if exact < 0 { -exact } else { exact }, 1, sum.magnitude())
        &&& sum.negative() == (exact < 0 || (a.negative() && b.negative()))
    }
}

/// `product` is the correctly rounded product of `a` and the positive whole number `factor`.
pub open spec fn is_multiple(a: Double, factor: int, product: Double) -> bool {
    if a.nan() {
        product.nan()
    } else if a.infinite() {
        product == a
    } else {
        &&& rounds_to(scaled(a.magnitude()) * factor, 1, product.magnitude())
        &&& product.negative() == a.negative()
    }
}

/// `quotient` is the correctly rounded quotient of `a` by `b`, where `b` is above zero.
pub open spec fn is_quotient(a: Double, b: Double, quotient: Double) -> bool {
    if a.nan() || (a.infinite() && b.infinite()) {
        quotient.nan()
    } else if a.infinite() {
        quotient == a
    } else if b.infinite() {
        &&& quotient.magnitude() == 0
        &&& quotient.negative() == a.negative()
    } else {
        // Both are counts of `2^-1074`, so their quotient is `2^1074` such units.
        &&& rounds_to(
            scaled(a.magnitude()) * pow2(1074),
            scaled(b.magnitude()),
            quotient.magnitude(),
        )
        &&& quotient.negative() == a.negative()
    }
}

impl Double {
    /// `a < b`; false where either is not a number.
    pub open spec fn below(self, other: Double) -> bool {
        !self.nan() && !other.nan() && self.value() < other.value()
    }

    /// `a <= b`; false where either is not a number.
    pub open spec fn at_most(self, other: Double) -> bool {
        !self.nan() && !other.nan() && self.value() <= other.value()
    }

    /// The number with the given bit pattern.
    pub fn from_bits(bits: u64) -> (double: Double)
        ensures
            double.bits == bits,
    {
        Double { bits }
    }

    /// The number with the given sign and magnitude bits.
    fn from_parts(negative: bool, magnitude: u64) -> (double: Double)
        requires
            magnitude < SIGN_LIMIT,
        ensures
            double.negative() == negative,
            double.magnitude() == magnitude,
    {
        if negative {
            Double { bits: SIGN_LIMIT + magnitude }
        } else {
            Double { bits: magnitude }
        }
    }

    fn magnitude_bits(&self) -> (magnitude: u64)
        ensures
            magnitude == self.magnitude(),
            magnitude < SIGN_LIMIT,
    {
        self.bits % SIGN_LIMIT
    }

    fn sign(&self) -> (negative: bool)
        ensures
            negative == self.negative(),
    {
        self.bits >= SIGN_LIMIT
    }

    /// Whether this is not a number.
    pub fn is_nan(&self) -> (nan: bool)
        ensures
            nan == self.nan(),
    {
        self.magnitude_bits() > INFINITE
    }

    /// Whether this is a finite number.
    pub fn is_finite(&self) -> (finite: bool)
        ensures
            finite == self.finite(),
    {
        self.magnitude_bits() < INFINITE
    }

    /// Whether `self <= other`.
    pub fn le(&self, other: &Double) -> (holds: bool)
        ensures
            holds == self.at_most(*other),
    {
        let a: u64 = self.magnitude_bits();
        let b: u64 = other.magnitude_bits();
        proof {
            lemma_scaled_bounds(a as int);
            lemma_scaled_bounds(b as int);
            if a < b {
                lemma_scaled_increases(a as int, b as int);
            }
            if b < a {
                lemma_scaled_increases(b as int, a as int);
            }
        }
        if a > INFINITE || b > INFINITE {
            false
        } else if self.sign() {
            if other.sign() {
                b <= a
            } else {
                true
            }
        } else if other.sign() {
            a == 0 && b == 0
        } else {
            a <= b
        }
    }

    /// Whether `self < other`.
    pub fn lt(&self, other: &Double) -> (holds: bool)
        ensures
            holds == self.below(*other),
    {
        !self.is_nan() && !other.is_nan() && !other.le(self)
    }

    /// The number with the other sign.
    pub open spec fn negated(self) -> Double {
        if self.negative() {
            Double { bits: (self.bits - SIGN_LIMIT) as u64 }
        } else {
            Double { bits: (self.bits + SIGN_LIMIT) as u64 }
        }
    }

    /// The number with the other sign.
    pub fn negate(&self) -> (result: Double)
        ensures
            result == self.negated(),
            result.value() == -self.value(),
    {
        if self.bits >= SIGN_LIMIT {
            Double { bits: self.bits - SIGN_LIMIT }
        } else {
            Double { bits: self.bits + SIGN_LIMIT }
        }
    }

    /// The sum, correctly rounded.
    pub fn plus(&self, other: &Double) -> (sum: Double)
        ensures
            is_sum(*self, *other, sum),
    {
        let a: u64 = self.magnitude_bits();
        let b: u64 = other.magnitude_bits();
        if a > INFINITE || b > INFINITE {
            return Double { bits: NOT_A_NUMBER };
        }
        if a == INFINITE {
            if b == INFINITE && self.sign() != other.sign() {
                return Double { bits: NOT_A_NUMBER };
            }
            return *self;
        }
        if b == INFINITE {
            return *other;
        }
        proof {
            lemma_scaled_bounds(a as int);
            lemma_scaled_bounds(b as int);
            if a < b {
                lemma_scaled_increases(a as int, b as int);
            }
            if b < a {
                lemma_scaled_increases(b as int, a as int);
            }
        }
        if self.sign() == other.sign() {
            let magnitude: u64 = if a >= b {
                sum_of_magnitudes(a, b)
            } else {
                sum_of_magnitudes(b, a)
            };
            Double::from_parts(self.sign(), magnitude)
        } else if a > b {
            Double::from_parts(self.sign(), difference_of_magnitudes(a, b))
        } else if b > a {
            Double::from_parts(other.sign(), difference_of_magnitudes(b, a))
        } else {
            Double::from_parts(false, difference_of_magnitudes(a, b))
        }
    }

    /// The product with a positive whole number, correctly rounded.
    pub fn times(&self, factor: u32) -> (product: Double)
        requires
            factor > 0,
        ensures
            is_multiple(*self, factor as int, product),
    {
        let a: u64 = self.magnitude_bits();
        if a > INFINITE {
            return Double { bits: NOT_A_NUMBER };
        }
        if a == INFINITE {
            return *self;
        }
        let (q, e) = decode(a);
        let ghost number = scaled(a as int) * factor;
        proof {
            lemma2_to64();
            lemma2_to64_rest();
            lemma_pow2_adds(53, 32);
            lemma_pow2_strictly_increases(85, 120);
            lemma_pow2_adds(21, 64);
            let p = pow2(e as nat) as int;
            assert((q * factor) * p * 1 == number * 1) by (nonlinear_arith)
                requires
                    number == (q * p) * factor,
            ;
            assert(q * factor < pow2(85)) by (nonlinear_arith)
                requires
                    q < 2 * FRACTION_LIMIT,
                    0 < factor < pow2(32),
                    2 * FRACTION_LIMIT * pow2(32) == pow2(85),
            ;
        }
        let n: u128 = q as u128 * factor as u128;
        let magnitude: u64 = round_magnitude(n, e, false, Ghost(number), Ghost(1));
        Double::from_parts(self.sign(), magnitude)
    }

    /// The quotient by a number above zero, correctly rounded.
    pub fn over(&self, divisor: &Double) -> (quotient: Double)
        requires
            !divisor.nan(),
            divisor.value() > 0,
        ensures
            is_quotient(*self, *divisor, quotient),
    {
        let a: u64 = self.magnitude_bits();
        let b: u64 = divisor.magnitude_bits();
        proof {
            lemma_scaled_bounds(b as int);
        }
        if a > INFINITE || (a == INFINITE && b == INFINITE) {
            return Double { bits: NOT_A_NUMBER };
        }
        if a == INFINITE {
            return *self;
        }
        if b == INFINITE {
            return Double::from_parts(self.sign(), 0);
        }
        Double::from_parts(self.sign(), quotient_of_magnitudes(a, b))
    }
}

/// The largest `u64`, or `count` where that is smaller.
pub open spec fn saturated(count: int) -> int {
    if count > u64::MAX {
        u64::MAX as int
    } else {
        count
    }
}

/// The whole part of a number as a `u64`: zero for what is negative or not a number, the
/// largest `u64` for what lies beyond.
pub open spec fn whole_part(double: Double) -> int {
    if double.nan() || double.negative() {
        0
    } else {
        saturated(double.value() / pow2(1074) as int)
    }
}

/// The nearest whole number as a `u64`, halves rounded up; zero for what is negative or not a
/// number, the largest `u64` for what lies beyond.
pub open spec fn nearest_whole(double: Double) -> int {
    if double.nan() || double.negative() {
        0
    } else {
        saturated((2 * double.value() + pow2(1074)) / (2 * pow2(1074)) as int)
    }
}

/// The value of a number with a whole number of ones is found by shifting its significand up.
proof fn lemma_whole_above(q: int, e: int)
    requires
        q >= 0,
        e >= 1074,
    ensures
        (q * pow2(e as nat)) / pow2(1074) as int == q * pow2((e - 1074) as nat),
        (2 * (q * pow2(e as nat)) + pow2(1074)) / (2 * pow2(1074)) as int == q * pow2((e - 1074) as nat),
{
    let u = pow2(1074) as int;
    let p = pow2((e - 1074) as nat) as int;
    lemma_pow2_pos(1074);
    lemma_pow2_adds((e - 1074) as nat, 1074);
    let v = q * pow2(e as nat);
    let whole = q * p;
    assert(v == whole * u) by (nonlinear_arith)
        requires
            v == q * (p * u),
            whole == q * p,
    ;
    vstd::arithmetic::div_mod::lemma_fundamental_div_mod_converse(v, u, whole, 0);
    assert(2 * v + u == whole * (2 * u) + u) by (nonlinear_arith)
        requires
            v == whole * u,
    ;
    vstd::arithmetic::div_mod::lemma_fundamental_div_mod_converse(2 * v + u, 2 * u, whole, u);
}

/// The value of a number with a fractional part is found by shifting its significand down.
proof fn lemma_whole_below(q: int, e: int)
    requires
        q >= 0,
        0 <= e < 1074,
    ensures
        (q * pow2(e as nat)) / pow2(1074) as int == q / pow2((1074 - e) as nat) as int,
        (2 * (q * pow2(e as nat)) + pow2(1074)) / (2 * pow2(1074)) as int == (q + pow2(
            (1073 - e) as nat,
        )) / pow2((1074 - e) as nat) as int,
{
    let u = pow2(1074) as int;
    let p = pow2(e as nat) as int;
    let cut = pow2((1074 - e) as nat) as int;
    let half = pow2((1073 - e) as nat) as int;
    lemma_pow2_pos(1074);
    lemma_pow2_pos(e as nat);
    lemma_pow2_pos((1074 - e) as nat);
    lemma_pow2_adds(e as nat, (1074 - e) as nat);
    lemma_pow2_unfold((1074 - e) as nat);
    let v = q * p;
    let whole = q / cut;
    let rest = q % cut;
    vstd::arithmetic::div_mod::lemma_fundamental_div_mod(q, cut);
    assert(v == whole * u + rest * p && 0 <= rest * p < u) by (nonlinear_arith)
        requires
            v == q * p,
            q == cut * whole + rest,
            u == p * cut,
            0 <= rest < cut,
            p > 0,
    ;
    vstd::arithmetic::div_mod::lemma_fundamental_div_mod_converse(v, u, whole, rest * p);
    let near = (q + half) / cut;
    let left = (q + half) % cut;
    vstd::arithmetic::div_mod::lemma_fundamental_div_mod(q + half, cut);
    assert(2 * v + u == near * (2 * u) + left * (2 * p)) by (nonlinear_arith)
        requires
            v == q * p,
            q + half == cut * near + left,
            u == p * cut,
            cut == 2 * half,
    ;
    assert(0 <= left * (2 * p) < 2 * u) by (nonlinear_arith)
        requires
            0 <= left < cut,
            u == p * cut,
            p > 0,
    ;
    vstd::arithmetic::div_mod::lemma_fundamental_div_mod_converse(
        2 * v + u,
        2 * u,
        near,
        left * (2 * p),
    );
}

/// An infinite value has a whole part beyond every `u64`.
proof fn lemma_whole_infinite()
    ensures
        scaled(INFINITE as int) / pow2(1074) as int > u64::MAX,
        (2 * scaled(INFINITE as int) + pow2(1074)) / (2 * pow2(1074)) as int > u64::MAX,
{
    lemma2_to64_rest();
    lemma_whole_above(FRACTION_LIMIT as int, 2046);
    lemma_pow2_strictly_increases(64, 972);
    lemma_pow2_pos(972);
    let p = pow2(972) as int;
    assert(FRACTION_LIMIT * p > u64::MAX) by (nonlinear_arith)
        requires
            p > u64::MAX,
            FRACTION_LIMIT >= 1,
    ;
}

impl Double {
    /// The number nearest to a whole number.
    pub fn from_count(count: u64) -> (double: Double)
        ensures
            !double.negative(),
            rounds_to(count * pow2(1074), 1, double.magnitude()),
    {
        let ghost number = count * pow2(1074);
        proof {
            lemma2_to64_rest();
            lemma_pow2_strictly_increases(64, 120);
        }
        let magnitude: u64 = round_magnitude(count as u128, 1074, false, Ghost(number), Ghost(1));
        Double::from_parts(false, magnitude)
    }

    /// The whole part, as a `u64` that stops at its limits.
    pub fn truncate(&self) -> (count: u64)
        ensures
            count == whole_part(*self),
    {
        let a: u64 = self.magnitude_bits();
        if a > INFINITE || self.sign() {
            return 0;
        }
        if a == INFINITE {
            proof {
                lemma_whole_infinite();
            }
            return u64::MAX;
        }
        let (q, e) = decode(a);
        if e >= 1074 {
            proof {
                lemma_whole_above(q as int, e as int);
            }
            return shift_up(q, (e - 1074) as u32);
        }
        proof {
            lemma_whole_below(q as int, e as int);
        }
        shift_down(q, (1074 - e) as u32)
    }

    /// The nearest whole number, halves rounded up, as a `u64` that stops at its limits.
    pub fn round(&self) -> (count: u64)
        ensures
            count == nearest_whole(*self),
    {
        let a: u64 = self.magnitude_bits();
        if a > INFINITE || self.sign() {
            return 0;
        }
        if a == INFINITE {
            proof {
                lemma_whole_infinite();
            }
            return u64::MAX;
        }
        let (q, e) = decode(a);
        if e >= 1074 {
            proof {
                lemma_whole_above(q as int, e as int);
            }
            return shift_up(q, (e - 1074) as u32);
        }
        let shift: u32 = (1074 - e) as u32;
        proof {
            lemma_whole_below(q as int, e as int);
            lemma2_to64();
            lemma2_to64_rest();
        }
        if shift >= 64 {
            proof {
                if shift > 64 {
                    lemma_pow2_strictly_increases(64, shift as nat);
                    lemma_pow2_strictly_increases(63, (shift - 1) as nat);
                }
                let cut = pow2(shift as nat) as int;
                lemma_pow2_unfold(shift as nat);
                let near = q + pow2((shift - 1) as nat);
                vstd::arithmetic::div_mod::lemma_fundamental_div_mod_converse(near, cut, 0, near);
            }
            return 0;
        }
        let half: u128 = two_to(shift - 1);
        let cut: u128 = two_to(shift);
        proof {
            if shift < 64 {
                lemma_pow2_strictly_increases(shift as nat, 64);
                lemma_pow2_strictly_increases((shift - 1) as nat, 64);
            }
        }
        let near: u128 = q as u128 + half;
        let count: u128 = near / cut;
        proof {
            lemma_pow2_unfold(shift as nat);
            vstd::arithmetic::div_mod::lemma_fundamental_div_mod(near as int, cut as int);
            assert(count <= q) by (nonlinear_arith)
                requires
                    near == cut * count + near as int % cut as int,
                    near as int % cut as int >= 0,
                    near == q + half,
                    cut == 2 * half,
                    half >= 1,
                    q >= 0,
            ;
        }
        count as u64
    }
}

/// `q * 2^shift`, stopping at the largest `u64`.
fn shift_up(q: u64, shift: u32) -> (count: u64)
    requires
        FRACTION_LIMIT <= q < 2 * FRACTION_LIMIT,
    ensures
        count == saturated(q * pow2(shift as nat)),
{
    proof {
        lemma2_to64();
        lemma2_to64_rest();
    }
    if shift >= 12 {
        proof {
            if shift > 12 {
                lemma_pow2_strictly_increases(12, shift as nat);
            }
            let p = pow2(shift as nat) as int;
            assert(q * p > u64::MAX) by (nonlinear_arith)
                requires
                    q >= FRACTION_LIMIT,
                    p >= 4096,
            ;
        }
        return u64::MAX;
    }
    let factor: u128 = two_to(shift);
    proof {
        if shift < 11 {
            lemma_pow2_strictly_increases(shift as nat, 11);
        }
        assert(q * factor <= u64::MAX) by (nonlinear_arith)
            requires
                q < 2 * FRACTION_LIMIT,
                0 < factor <= 2048,
        ;
    }
    (q as u128 * factor) as u64
}

/// `q / 2^shift`.
fn shift_down(q: u64, shift: u32) -> (count: u64)
    requires
        q < 2 * FRACTION_LIMIT,
    ensures
        count == saturated(q as int / pow2(shift as nat) as int),
{
    proof {
        lemma2_to64_rest();
    }
    if shift >= 64 {
        proof {
            if shift > 64 {
                lemma_pow2_strictly_increases(64, shift as nat);
            }
            vstd::arithmetic::div_mod::lemma_fundamental_div_mod_converse(
                q as int,
                pow2(shift as nat) as int,
                0,
                q as int,
            );
        }
        return 0;
    }
    let cut: u128 = two_to(shift);
    let count: u128 = q as u128 / cut;
    proof {
        assert(count <= q) by (nonlinear_arith)
            requires
                count == q as int / cut as int,
                cut >= 1,
        ;
    }
    count as u64
}

/// Rounding keeps order: a larger quotient rounds to no smaller a number.
pub proof fn law_rounding_keeps_order(
    smaller: int,
    larger: int,
    weight: int,
    low: int,
    high: int,
)
    requires
        weight > 0,
        smaller <= larger,
        rounds_to(smaller, weight, low),
        rounds_to(larger, weight, high),
    ensures
        low <= high,
{
    if high < low {
        let (a, b) = (scaled(high), scaled(high + 1));
        let (c, d) = (scaled(low - 1), scaled(low));
        if high < low - 1 {
            lemma_scaled_increases(high, low - 1);
            lemma_scaled_increases(high + 1, low);
            assert((a + b) * weight < (c + d) * weight) by (nonlinear_arith)
                requires
                    a + b < c + d,
                    weight > 0,
            ;
        }
    }
}

/// A quotient rounds to one number only.
pub proof fn law_rounding_is_unique(number: int, weight: int, first: int, second: int)
    requires
        weight > 0,
        rounds_to(number, weight, first),
        rounds_to(number, weight, second),
    ensures
        first == second,
{
    law_rounding_keeps_order(number, number, weight, first, second);
    law_rounding_keeps_order(number, number, weight, second, first);
}

/// What is representable is not changed by rounding.
pub proof fn law_rounding_keeps_the_representable(magnitude: int)
    requires
        0 <= magnitude <= INFINITE,
    ensures
        rounds_to(scaled(magnitude), 1, magnitude),
{
    if magnitude > 0 {
        lemma_scaled_step(magnitude - 1);
    }
    lemma_scaled_step(magnitude);
}

/// The bits that denote `q * 2^e`, with the significand widened as far as it takes.
proof fn lemma_representable(q: int, e: int) -> (magnitude: int)
    requires
        0 < q < 2 * FRACTION_LIMIT,
        1022 <= e <= 2045,
        e <= 1022 ==> q >= FRACTION_LIMIT,
        q * pow2((e - 1022) as nat) >= FRACTION_LIMIT,
    ensures
        0 <= magnitude < INFINITE,
        scaled(magnitude) == q * pow2(e as nat),
    decreases e,
{
    if q >= FRACTION_LIMIT {
        lemma_scaled_compose(q, e);
        e * FRACTION_LIMIT + q
    } else {
        lemma_pow2_unfold(e as nat);
        lemma_pow2_unfold((e - 1022) as nat);
        let p = pow2((e - 1) as nat) as int;
        let r = pow2((e - 1023) as nat) as int;
        assert((2 * q) * r == q * (2 * r)) by (nonlinear_arith);
        assert((2 * q) * p == q * (2 * p)) by (nonlinear_arith);
        lemma2_to64();
        if e - 1 <= 1022 {
            assert(r == 1);
            assert((2 * q) * r == 2 * q) by (nonlinear_arith)
                requires
                    r == 1,
            ;
        }
        lemma_representable(2 * q, e - 1)
    }
}

/// Every whole number below `2^53` is representable.
pub proof fn law_whole_numbers_are_representable(count: int) -> (magnitude: int)
    requires
        0 <= count < 2 * FRACTION_LIMIT,
    ensures
        0 <= magnitude < INFINITE,
        scaled(magnitude) == count * pow2(1074),
{
    let u = pow2(1074) as int;
    if count == 0 {
        lemma_scaled_bounds(0);
        assert(0 * u == 0) by (nonlinear_arith);
        0
    } else {
        lemma2_to64_rest();
        let p = pow2(52) as int;
        assert(count * p >= p) by (nonlinear_arith)
            requires
                count >= 1,
                p >= 0,
        ;
        lemma_representable(count, 1074)
    }
}

/// The constant one hundred is one hundred.
pub proof fn lemma_hundred()
    ensures
        (Double { bits: HUNDRED }).value() == 100 * pow2(1074),
        (Double { bits: HUNDRED }).finite(),
        !(Double { bits: HUNDRED }).negative(),
{
    let q = 0x19_0000_0000_0000int;
    assert(significand(HUNDRED as int) == q && exponent(HUNDRED as int) == 1028);
    lemma2_to64_rest();
    lemma2_to64();
    lemma_pow2_adds(1028, 46);
    let a = pow2(1028) as int;
    assert(q * a == 100 * (a * 0x4000_0000_0000)) by (nonlinear_arith)
        requires
            q == 0x19_0000_0000_0000int,
    ;
}

/// Numbers are compared by their values, and what is not a number compares with nothing.
pub proof fn law_numbers_are_compared_by_value(a: Double, b: Double, at_most: bool, below: bool)
    requires
        call_ensures(Double::le, (&a, &b), at_most),
        call_ensures(Double::lt, (&a, &b), below),
    ensures
        at_most <==> a.magnitude() <= INFINITE && b.magnitude() <= INFINITE && a.value()
            <= b.value(),
        below <==> a.magnitude() <= INFINITE && b.magnitude() <= INFINITE && a.value() < b.value(),
{
}

/// The sum of finite numbers is their exact sum, correctly rounded, in either order of the two;
/// its sign is that of the exact sum.
pub proof fn law_sums_are_rounded(a: Double, b: Double, sum: Double, other: Double)
    requires
        call_ensures(Double::plus, (&a, &b), sum),
        call_ensures(Double::plus, (&b, &a), other),
        a.magnitude() < INFINITE,
        b.magnitude() < INFINITE,
    ensures
        sum.magnitude() == other.magnitude(),
        sum.value() == other.value(),
        a.value() + b.value() >= 0 ==> rounds_to(a.value() + b.value(), 1, sum.magnitude()),
        a.value() + b.value() < 0 ==> rounds_to(-(a.value() + b.value()), 1, sum.magnitude()),
        a.value() + b.value() < 0 ==> sum.negative(),
        a.value() + b.value() > 0 ==> !sum.negative(),
{
    let exact = a.value() + b.value();
    let size = if exact < 0 {
        -exact
    } else {
        exact
    };
    law_rounding_is_unique(size, 1, sum.magnitude(), other.magnitude());
    lemma_scaled_bounds(a.magnitude());
    lemma_scaled_bounds(b.magnitude());
}

/// Taking the other sign twice brings a number back, and takes the other value once.
pub proof fn law_signs_are_taken_back(a: Double, minus: Double, again: Double)
    requires
        call_ensures(Double::negate, (&a,), minus),
        call_ensures(Double::negate, (&minus,), again),
    ensures
        again == a,
        minus.value() == -a.value(),
        minus.nan() == a.nan(),
{
}

/// A count below `2^53` is a number of exactly that value.
pub proof fn law_counts_are_exact(count: u64, double: Double)
    requires
        call_ensures(Double::from_count, (count,), double),
        count < 2 * FRACTION_LIMIT,
    ensures
        double.value() == count * pow2(1074),
        double.finite(),
{
    let exact = law_whole_numbers_are_representable(count as int);
    law_rounding_keeps_the_representable(exact);
    law_rounding_is_unique(count * pow2(1074), 1, double.magnitude(), exact);
}

/// The whole part of a number is the largest count at or below it, and the nearest count is at most
/// one half away, upward from a half; both stop at zero and at the largest count.
pub proof fn law_whole_parts_and_nearest_counts(a: Double, whole: u64, nearest: u64)
    requires
        call_ensures(Double::truncate, (&a,), whole),
        call_ensures(Double::round, (&a,), nearest),
    ensures
        a.magnitude() > INFINITE || a.negative() ==> whole == 0 && nearest == 0,
        a.magnitude() <= INFINITE && !a.negative() ==> {
            &&& whole * pow2(1074) <= a.value()
            &&& whole < u64::MAX ==> a.value() < (whole + 1) * pow2(1074)
            &&& (2 * nearest - 1) * pow2(1074) <= 2 * a.value()
            &&& nearest < u64::MAX ==> 2 * a.value() < (2 * nearest + 1) * pow2(1074)
        },
{
    if a.magnitude() <= INFINITE && !a.negative() {
        let u = pow2(1074) as int;
        let v = a.value();
        lemma_pow2_pos(1074);
        lemma_scaled_bounds(a.magnitude());
        let q = v / u;
        let r = v % u;
        lemma_fundamental_div_mod(v, u);
        lemma_mod_bound(v, u);
        assert(q * u <= v < (q + 1) * u) by (nonlinear_arith)
            requires
                v == u * q + r,
                0 <= r < u,
        ;
        let w = whole as int;
        assert(w * u <= q * u) by (nonlinear_arith)
            requires
                w <= q,
                u > 0,
        ;
        let n = 2 * v + u;
        let h = n / (2 * u);
        let s = n % (2 * u);
        lemma_fundamental_div_mod(n, 2 * u);
        lemma_mod_bound(n, 2 * u);
        assert((2 * h - 1) * u <= 2 * v < (2 * h + 1) * u) by (nonlinear_arith)
            requires
                2 * v + u == (2 * u) * h + s,
                0 <= s < 2 * u,
        ;
        let m = nearest as int;
        assert((2 * m - 1) * u <= (2 * h - 1) * u) by (nonlinear_arith)
            requires
                m <= h,
                u > 0,
        ;
    }
}

} // verus!
