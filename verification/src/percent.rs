//! Percentages: how much of a quota is used, and how much is left.

use crate::double::{
    is_sum, law_rounding_is_unique, law_rounding_keeps_order,
    law_rounding_keeps_the_representable, law_whole_numbers_are_representable, lemma_hundred,
    lemma_scaled_bounds, lemma_scaled_increases, rounds_to, scaled, Double, HUNDRED,
};
use vstd::arithmetic::power2::{lemma_pow2_pos, pow2};
use vstd::prelude::*;

verus! {

/// One hundred per cent.
pub open spec fn full() -> Double {
    Double { bits: HUNDRED }
}

/// A number from zero to one hundred.
pub open spec fn valid_percent(percent: Double) -> bool {
    !percent.nan() && 0 <= percent.value() <= full().value()
}

/// `remaining` is one hundred less `used`, correctly rounded.
pub open spec fn is_remaining(used: Double, remaining: Double) -> bool {
    is_sum(full(), used.negated(), remaining)
}

/// Whether a number lies between zero and one hundred.
pub fn is_percent(percent: &Double) -> (valid: bool)
    ensures
        valid == valid_percent(*percent),
{
    proof {
        lemma_scaled_bounds(0);
        lemma_scaled_bounds(full().magnitude());
    }
    let zero = Double { bits: 0 };
    let hundred = Double { bits: HUNDRED };
    zero.le(percent) && percent.le(&hundred)
}

/// One hundred less `used`.
pub fn remaining_of(used: &Double) -> (remaining: Double)
    ensures
        is_remaining(*used, remaining),
{
    let hundred = Double { bits: HUNDRED };
    hundred.plus(&used.negate())
}

/// What is known of the remainder of a percentage.
proof fn lemma_remaining(used: Double, remaining: Double)
    requires
        valid_percent(used),
        is_remaining(used, remaining),
    ensures
        rounds_to(full().value() - used.value(), 1, remaining.magnitude()),
        !remaining.negative(),
        remaining.value() == scaled(remaining.magnitude()),
{
    lemma_hundred();
    lemma_pow2_pos(1074);
    lemma_scaled_bounds(used.magnitude());
    lemma_scaled_bounds(full().magnitude());
    if used.magnitude() > full().magnitude() {
        lemma_scaled_increases(full().magnitude(), used.magnitude());
    }
    let minus = used.negated();
    assert(minus.magnitude() == used.magnitude());
    assert(minus.value() == -used.value());
}

/// What remains of a percentage, for whatever number that is.
pub proof fn lemma_remaining_of_percent(used: Double)
    ensures
        forall|remaining: Double|
            valid_percent(used) && #[trigger] is_remaining(used, remaining)
                ==> !remaining.negative() && rounds_to(
                full().value() - used.value(),
                1,
                remaining.magnitude(),
            ),
{
    assert forall|remaining: Double|
        valid_percent(used) && #[trigger] is_remaining(used, remaining) implies !remaining.negative()
        && rounds_to(full().value() - used.value(), 1, remaining.magnitude()) by {
        lemma_remaining(used, remaining);
    }
}

/// What remains of a percentage is a percentage.
pub proof fn law_remaining_is_a_percentage(used: Double, remaining: Double)
    requires
        valid_percent(used),
        is_remaining(used, remaining),
    ensures
        valid_percent(remaining),
{
    lemma_remaining(used, remaining);
    lemma_hundred();
    let top = full().magnitude();
    law_rounding_keeps_the_representable(top);
    law_rounding_keeps_order(
        full().value() - used.value(),
        scaled(top),
        1,
        remaining.magnitude(),
        top,
    );
    lemma_scaled_bounds(remaining.magnitude());
    if remaining.magnitude() < top {
        lemma_scaled_increases(remaining.magnitude(), top);
    }
}

/// The more is used, the less remains.
pub proof fn law_more_used_leaves_less(
    used: Double,
    remaining: Double,
    more_used: Double,
    less_remaining: Double,
)
    requires
        valid_percent(used),
        valid_percent(more_used),
        used.value() <= more_used.value(),
        is_remaining(used, remaining),
        is_remaining(more_used, less_remaining),
    ensures
        less_remaining.value() <= remaining.value(),
{
    lemma_remaining(used, remaining);
    lemma_remaining(more_used, less_remaining);
    law_rounding_keeps_order(
        full().value() - more_used.value(),
        full().value() - used.value(),
        1,
        less_remaining.magnitude(),
        remaining.magnitude(),
    );
    if less_remaining.magnitude() < remaining.magnitude() {
        lemma_scaled_increases(less_remaining.magnitude(), remaining.magnitude());
    }
}

/// Of a whole percentage exactly the rest up to one hundred remains; so nothing used leaves
/// one hundred, and one hundred used leaves nothing.
pub proof fn law_whole_percentages_add_up(used: Double, remaining: Double, count: int)
    requires
        !used.nan(),
        0 <= count <= 100,
        used.value() == count * pow2(1074),
        is_remaining(used, remaining),
    ensures
        remaining.value() == (100 - count) * pow2(1074),
{
    lemma_hundred();
    let u = pow2(1074) as int;
    lemma_pow2_pos(1074);
    assert(0 <= count * u <= 100 * u) by (nonlinear_arith)
        requires
            0 <= count <= 100,
            u > 0,
    ;
    assert((100 - count) * u == 100 * u - count * u) by (nonlinear_arith);
    lemma_remaining(used, remaining);
    let exact = law_whole_numbers_are_representable(100 - count);
    law_rounding_keeps_the_representable(exact);
    law_rounding_is_unique(full().value() - used.value(), 1, remaining.magnitude(), exact);
}

/// A percentage is a number from zero to one hundred, both included, and what remains of it is one
/// hundred less it, correctly rounded.
pub proof fn law_percentages_and_their_rest(percent: Double, valid: bool, remaining: Double)
    requires
        call_ensures(is_percent, (&percent,), valid),
        call_ensures(remaining_of, (&percent,), remaining),
    ensures
        valid <==> !percent.nan() && 0 <= percent.value() <= 100 * pow2(1074),
        valid ==> !remaining.negative() && rounds_to(
            100 * pow2(1074) - percent.value(),
            1,
            remaining.magnitude(),
        ),
{
    lemma_hundred();
    lemma_remaining_of_percent(percent);
}

} // verus!
