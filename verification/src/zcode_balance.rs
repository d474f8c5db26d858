//! The balance of a ZCode start plan: buckets of units, shown as one pool.
//!
//! Buckets of plans that have expired are left out; a bucket that belongs to no known plan is
//! kept. A pool has no fixed length, and is no window of five hours or of a week.

use crate::capacity::SourceState;
use crate::diagnostic::{plain_report, report, Diagnostic};
use crate::double::{
    exponent, is_multiple, is_quotient, is_sum, law_rounding_is_unique, law_rounding_keeps_order,
    law_rounding_keeps_the_representable, law_whole_numbers_are_representable, lemma_hundred,
    lemma_scaled_bounds, lemma_scaled_increases, rounds_to, scaled,
    significand, whole_part, Double, FRACTION_LIMIT, HUNDRED, INFINITE,
};
use crate::percent::{
    full, is_remaining, law_remaining_is_a_percentage, lemma_remaining_of_percent, remaining_of,
    valid_percent,
};
use crate::text::{lower, opt_text, same_ignoring_case, same_text, trim, trimmed};
use crate::zcode_plan::{kind_name, PlanKind};
use crate::zcode_quota::{ZCodeQuotaSnapshot, ZCodeQuotaWindow};
use vstd::arithmetic::div_mod::{
    lemma_fundamental_div_mod, lemma_fundamental_div_mod_converse, lemma_mod_bound,
};
use vstd::arithmetic::power2::{
    lemma2_to64, lemma2_to64_rest, lemma_pow2_adds, lemma_pow2_pos, pow2,
};
use vstd::prelude::*;

verus! {

/// The bit pattern of one thousand.
pub const THOUSAND: u64 = 0x408f_4000_0000_0000;

/// A number of units.
#[derive(Debug, Clone, Copy, PartialEq, Eq, Structural)]
pub struct BalanceNumber {
    pub number: Double,
}

/// The answer about a start plan.
#[derive(Debug)]
pub struct BalanceResponse {
    pub code: Option<i64>,
    pub msg: Option<String>,
    pub success: Option<bool>,
    pub data: Option<BalanceData>,
}

/// The plans and buckets in an answer, and the time of the service in seconds.
#[derive(Debug)]
pub struct BalanceData {
    pub server_time: Option<Double>,
    pub plans: Vec<BalancePlan>,
    pub balances: Vec<BalanceBucket>,
}

/// A plan that was granted.
#[derive(Debug)]
pub struct BalancePlan {
    pub plan_id: Option<String>,
    pub user_plan_id: Option<String>,
    pub status: Option<String>,
    pub ends_at: Option<Double>,
}

/// A bucket of units.
#[derive(Debug)]
pub struct BalanceBucket {
    pub plan_id: Option<String>,
    pub user_plan_id: Option<String>,
    pub total_units: Option<BalanceNumber>,
    pub used_units: Option<BalanceNumber>,
    pub remaining_units: Option<BalanceNumber>,
    pub expires_at: Option<Double>,
}

/// Zero.
pub open spec fn zero() -> Double {
    Double { bits: 0 }
}

/// The units that a number tells: those of a finite one.
pub open spec fn units(number: Option<BalanceNumber>) -> Option<Double> {
    match number {
        Some(number) => if number.number.finite() {
            Some(number.number)
        } else {
            None
        },
        None => None,
    }
}

/// The units that a number tells, or none.
pub open spec fn units_or_zero(number: Option<BalanceNumber>) -> Double {
    match units(number) {
        Some(amount) => amount,
        None => zero(),
    }
}

/// `seconds` is a time in milliseconds, in seconds.
pub open spec fn is_seconds(now_ms: u64, seconds: Double) -> bool {
    exists|count: Double|
        !count.negative() && rounds_to(now_ms * pow2(1074), 1, count.magnitude())
            && #[trigger] is_quotient(count, Double { bits: THOUSAND }, seconds)
}

/// `time` is what plans are held against: the time that the service tells, where it is one; else
/// that of this machine.
pub open spec fn is_server_time(told: Option<Double>, now_ms: u64, time: Double) -> bool {
    match told {
        Some(told) => if told.finite() && zero().at_most(told) {
            time == told
        } else {
            is_seconds(now_ms, time)
        },
        None => is_seconds(now_ms, time),
    }
}

/// The status of a plan without white space around it.
pub open spec fn status_of(plan: BalancePlan) -> Seq<char> {
    match plan.status {
        Some(status) => trimmed(status@),
        None => ""@,
    }
}

/// Whether a plan has expired: it says so, or it is active and its end has come.
pub open spec fn expired(plan: BalancePlan, time: Double) -> bool {
    ||| lower(status_of(plan)) == lower("expired"@)
    ||| {
        &&& lower(status_of(plan)) == lower("active"@)
        &&& plan.ends_at matches Some(end) && end.finite() && zero().below(end) && end.at_most(time)
    }
}

/// An id that is not empty.
pub open spec fn known_id(id: Option<String>) -> Option<Seq<char>> {
    match id {
        Some(id) => if id@.len() > 0 {
            Some(id@)
        } else {
            None
        },
        None => None,
    }
}

/// Whether a bucket belongs to a plan: by the ids of the user's plans where both are known, else
/// by the ids of the plans; two that are missing are the same.
pub open spec fn matches_plan(bucket: BalanceBucket, plan: BalancePlan) -> bool {
    match (known_id(bucket.user_plan_id), known_id(plan.user_plan_id)) {
        (Some(bucket_user), Some(plan_user)) => bucket_user == plan_user,
        _ => opt_text(bucket.plan_id) == opt_text(plan.plan_id),
    }
}

/// Whether a bucket belongs to no plan at all.
pub open spec fn orphan(bucket: BalanceBucket, plans: Seq<BalancePlan>) -> bool {
    forall|i: int| 0 <= i < plans.len() ==> !matches_plan(bucket, #[trigger] plans[i])
}

/// Whether a bucket belongs to a plan that has not expired.
pub open spec fn alive(bucket: BalanceBucket, plans: Seq<BalancePlan>, time: Double) -> bool {
    exists|i: int|
        0 <= i < plans.len() && matches_plan(bucket, #[trigger] plans[i]) && !expired(plans[i], time)
}

/// Whether a bucket tells any units.
pub open spec fn tells_units(bucket: BalanceBucket) -> bool {
    ||| units(bucket.total_units) is Some
    ||| units(bucket.used_units) is Some
    ||| units(bucket.remaining_units) is Some
}

/// Whether a bucket counts: it tells units, and belongs to a plan that has not expired or to
/// none.
pub open spec fn counts(bucket: BalanceBucket, plans: Seq<BalancePlan>, time: Double) -> bool {
    (orphan(bucket, plans) || alive(bucket, plans, time)) && tells_units(bucket)
}

/// The buckets that count, in their order.
pub open spec fn counted(
    buckets: Seq<BalanceBucket>,
    plans: Seq<BalancePlan>,
    time: Double,
) -> Seq<BalanceBucket>
    decreases buckets.len(),
{
    if buckets.len() == 0 {
        seq![]
    } else if counts(buckets.last(), plans, time) {
        counted(buckets.drop_last(), plans, time).push(buckets.last())
    } else {
        counted(buckets.drop_last(), plans, time)
    }
}

/// The amounts of buckets.
pub open spec fn totals(buckets: Seq<BalanceBucket>) -> Seq<Double> {
    Seq::new(buckets.len(), |i: int| units_or_zero(buckets[i].total_units))
}

/// What is used of buckets.
pub open spec fn uses(buckets: Seq<BalanceBucket>) -> Seq<Double> {
    Seq::new(buckets.len(), |i: int| units_or_zero(buckets[i].used_units))
}

/// What is left of buckets.
pub open spec fn rests(buckets: Seq<BalanceBucket>) -> Seq<Double> {
    Seq::new(buckets.len(), |i: int| units_or_zero(buckets[i].remaining_units))
}

/// `sum` is what adding the amounts one after the other to zero gives, each sum correctly
/// rounded.
pub open spec fn adds_up_to(amounts: Seq<Double>, sum: Double) -> bool
    decreases amounts.len(),
{
    if amounts.len() == 0 {
        sum == zero()
    } else {
        exists|before: Double|
            adds_up_to(amounts.drop_last(), before) && #[trigger] is_sum(
                before,
                amounts.last(),
                sum,
            )
    }
}

/// When a bucket expires, where it tells that.
pub open spec fn expiry_of(bucket: BalanceBucket) -> Option<Double> {
    match bucket.expires_at {
        Some(time) => if time.finite() && zero().below(time) {
            Some(time)
        } else {
            None
        },
        None => None,
    }
}

/// `first` is the earliest expiry of the buckets that tell one.
pub open spec fn is_first_expiry(buckets: Seq<BalanceBucket>, first: Option<Double>) -> bool {
    match first {
        Some(time) => {
            &&& exists|i: int| 0 <= i < buckets.len() && #[trigger] expiry_of(buckets[i]) == first
            &&& forall|i: int|
                0 <= i < buckets.len() ==> (#[trigger] expiry_of(buckets[i]) matches Some(other)
                    ==> time.at_most(other))
        },
        None => forall|i: int| 0 <= i < buckets.len() ==> #[trigger] expiry_of(buckets[i]) is None,
    }
}

/// The nearest number from zero to one hundred.
pub open spec fn clamped(percent: Double) -> Double {
    if percent.below(zero()) {
        zero()
    } else if full().below(percent) {
        full()
    } else {
        percent
    }
}

/// `percent` is how much `used` is of `total`, from zero to one hundred; zero of nothing.
pub open spec fn is_used_percent(used: Double, total: Double, percent: Double) -> bool {
    if zero().below(total) {
        exists|share: Double, scaled: Double|
            #[trigger] is_quotient(used, total, share) && #[trigger] is_multiple(share, 100, scaled)
                && percent == clamped(scaled)
    } else {
        percent == zero()
    }
}

/// `window` shows a pool with these sums.
pub open spec fn shows_pool(
    total: Double,
    used: Double,
    remaining: Double,
    expiry: Option<Double>,
    window: ZCodeQuotaWindow,
) -> bool {
    &&& is_used_percent(used, total, window.used_percent)
    &&& is_remaining(window.used_percent, window.remaining_percent)
    &&& window.window_duration_mins == 0
    &&& match expiry {
        Some(time) => window.resets_at is Some && window.resets_at->Some_0 == whole_part(time),
        None => window.resets_at is None,
    }
    &&& window.quota_total == whole_part(total)
    &&& window.quota_used == whole_part(used)
    &&& window.quota_remaining == whole_part(remaining)
}

/// `window` shows buckets as one pool.
pub open spec fn is_pool(buckets: Seq<BalanceBucket>, window: ZCodeQuotaWindow) -> bool {
    exists|total: Double, used: Double, remaining: Double, expiry: Option<Double>|
        adds_up_to(totals(buckets), total) && adds_up_to(uses(buckets), used) && adds_up_to(
            rests(buckets),
            remaining,
        ) && is_first_expiry(buckets, expiry) && #[trigger] shows_pool(
            total,
            used,
            remaining,
            expiry,
            window,
        )
}

/// `result` is the reading of the buckets that count.
pub open spec fn is_pool_reading(
    buckets: Seq<BalanceBucket>,
    now_ms: u64,
    result: Result<ZCodeQuotaSnapshot, Diagnostic>,
) -> bool {
    if buckets.len() == 0 {
        &&& result is Err
        &&& result->Err_0@ == report(
            "CRV-508"@,
            "ZCode 体验套餐额度桶数据缺失"@,
            "billing/balance 响应中没有可用的额度桶"@,
        )
    } else {
        &&& result is Ok
        &&& result->Ok_0.source_state == SourceState::Healthy
        &&& result->Ok_0.five_hour is Some
        &&& is_pool(buckets, result->Ok_0.five_hour->Some_0)
        &&& result->Ok_0.weekly is None
        &&& opt_text(result->Ok_0.plan_level) == Some("Start"@)
        &&& opt_text(result->Ok_0.plan_kind) == Some(kind_name(PlanKind::Start))
        &&& result->Ok_0.observed_at_ms == now_ms
    }
}

/// `result` is the reading of the data of an answer.
pub open spec fn is_data_reading(
    data: BalanceData,
    now_ms: u64,
    result: Result<ZCodeQuotaSnapshot, Diagnostic>,
) -> bool {
    exists|time: Double| #[trigger]
        is_server_time(data.server_time, now_ms, time) && is_pool_reading(
            counted(data.balances@, data.plans@, time),
            now_ms,
            result,
        )
}

/// `result` is the reading of a decoded answer about a start plan, or of the message of a failed
/// decoding.
pub open spec fn is_start_reading(
    decoded: Result<BalanceResponse, String>,
    now_ms: u64,
    result: Result<ZCodeQuotaSnapshot, Diagnostic>,
) -> bool {
    match decoded {
        Err(message) => {
            &&& result is Err
            &&& result->Err_0@ == report(
                "CRV-506"@,
                "ZCode 体验套餐余额响应无法解析"@,
                message@,
            )
        },
        Ok(answer) => if !accepted(answer) {
            &&& result is Err
            &&& result->Err_0@ == report(
                "CRV-507"@,
                "ZCode 体验套餐配额查询失败"@,
                match answer.msg {
                    Some(message) => message@,
                    None => "体验套餐余额服务未返回成功状态"@,
                },
            )
        } else {
            match answer.data {
                None => {
                    &&& result is Err
                    &&& result->Err_0@ == plain_report(
                        "CRV-506"@,
                        "ZCode 体验套餐余额响应缺少 data"@,
                    )
                },
                Some(data) => is_data_reading(data, now_ms, result),
            }
        },
    }
}

/// Whether an answer was accepted.
pub open spec fn accepted(answer: BalanceResponse) -> bool {
    answer.success == Some(true) || answer.code == Some(0i64)
}

/// Whether the gateway judges the start plan unavailable: it does not accept the question, or
/// its answer leaves no bucket that counts. An answer without data is no judgement.
pub open spec fn refused_start(answer: BalanceResponse, now_ms: u64) -> bool {
    !accepted(answer) || (answer.data matches Some(data) && leaves_nothing(data, now_ms))
}

/// Whether no bucket of an answer counts.
pub open spec fn leaves_nothing(data: BalanceData, now_ms: u64) -> bool {
    exists|time: Double| #[trigger]
        is_server_time(data.server_time, now_ms, time) && counted(
            data.balances@,
            data.plans@,
            time,
        ).len() == 0
}

impl BalanceNumber {
    /// The units that this number tells: those of a finite one.
    pub fn value(&self) -> (amount: Option<Double>)
        ensures
            amount == units(Some(*self)),
    {
        if self.number.is_finite() {
            Some(self.number)
        } else {
            None
        }
    }
}

fn read_units(number: &Option<BalanceNumber>) -> (amount: Option<Double>)
    ensures
        amount == units(*number),
{
    match number {
        Some(number) => number.value(),
        None => None,
    }
}

fn or_zero(amount: Option<Double>) -> (result: Double)
    ensures
        result == (match amount {
            Some(amount) => amount,
            None => zero(),
        }),
{
    match amount {
        Some(amount) => amount,
        None => Double::from_bits(0),
    }
}

fn own_time(now_ms: u64) -> (seconds: Double)
    ensures
        is_seconds(now_ms, seconds),
{
    let count: Double = Double::from_count(now_ms);
    let thousand: Double = Double::from_bits(THOUSAND);
    proof {
        lemma_scaled_bounds(thousand.magnitude());
    }
    count.over(&thousand)
}

fn find_server_time(told: Option<Double>, now_ms: u64) -> (time: Double)
    ensures
        is_server_time(told, now_ms, time),
{
    match told {
        Some(told) => if told.is_finite() && Double::from_bits(0).le(&told) {
            told
        } else {
            own_time(now_ms)
        },
        None => own_time(now_ms),
    }
}

fn is_expired(plan: &BalancePlan, time: &Double) -> (holds: bool)
    ensures
        holds == expired(*plan, *time),
{
    let status: &str = match &plan.status {
        Some(status) => trim(status.as_str()),
        None => "",
    };
    if same_ignoring_case(status, "expired") {
        return true;
    }
    if !same_ignoring_case(status, "active") {
        return false;
    }
    match plan.ends_at {
        Some(end) => end.is_finite() && Double::from_bits(0).lt(&end) && end.le(time),
        None => false,
    }
}

fn same_id(a: &Option<String>, b: &Option<String>) -> (same: bool)
    ensures
        same == (opt_text(*a) == opt_text(*b)),
{
    match (a, b) {
        (Some(a), Some(b)) => same_text(a.as_str(), b.as_str()),
        (None, None) => true,
        _ => false,
    }
}

fn is_known(id: &Option<String>) -> (known: bool)
    ensures
        known == (known_id(*id) is Some),
{
    match id {
        Some(id) => !id.as_str().is_empty(),
        None => false,
    }
}

fn belongs_to(bucket: &BalanceBucket, plan: &BalancePlan) -> (holds: bool)
    ensures
        holds == matches_plan(*bucket, *plan),
{
    if is_known(&bucket.user_plan_id) && is_known(&plan.user_plan_id) {
        same_id(&bucket.user_plan_id, &plan.user_plan_id)
    } else {
        same_id(&bucket.plan_id, &plan.plan_id)
    }
}

/// Whether a bucket belongs to a plan that has not expired or to none.
fn is_kept(bucket: &BalanceBucket, plans: &Vec<BalancePlan>, time: &Double) -> (kept: bool)
    ensures
        kept == (orphan(*bucket, plans@) || alive(*bucket, plans@, *time)),
{
    let mut lone: bool = true;
    let mut i: usize = 0;
    while i < plans.len()
        invariant
            i <= plans.len(),
            lone == forall|j: int| 0 <= j < i ==> !matches_plan(*bucket, #[trigger] plans@[j]),
            forall|j: int|
                0 <= j < i && matches_plan(*bucket, #[trigger] plans@[j]) ==> expired(
                    plans@[j],
                    *time,
                ),
        decreases plans.len() - i,
    {
        if belongs_to(bucket, &plans[i]) {
            if !is_expired(&plans[i], time) {
                proof {
                    assert(matches_plan(*bucket, plans@[i as int]));
                }
                return true;
            }
            proof {
                assert(matches_plan(*bucket, plans@[i as int]));
            }
            lone = false;
        }
        i = i + 1;
    }
    lone
}

/// The sums over the buckets that count so far.
struct Pool {
    total: Double,
    used: Double,
    remaining: Double,
    expiry: Option<Double>,
    found: bool,
}

impl Pool {
    spec fn holds(self, buckets: Seq<BalanceBucket>) -> bool {
        &&& adds_up_to(totals(buckets), self.total)
        &&& adds_up_to(uses(buckets), self.used)
        &&& adds_up_to(rests(buckets), self.remaining)
        &&& is_first_expiry(buckets, self.expiry)
        &&& self.found == (buckets.len() > 0)
    }

    fn new() -> (pool: Pool)
        ensures
            pool.holds(seq![]),
    {
        let nothing: Double = Double::from_bits(0);
        Pool { total: nothing, used: nothing, remaining: nothing, expiry: None, found: false }
    }

    /// The sums with one bucket more.
    fn with(self, bucket: &BalanceBucket, Ghost(buckets): Ghost<Seq<BalanceBucket>>) -> (pool: Pool)
        requires
            self.holds(buckets),
        ensures
            pool.holds(buckets.push(*bucket)),
    {
        let total: Double = self.total.plus(&or_zero(read_units(&bucket.total_units)));
        let used: Double = self.used.plus(&or_zero(read_units(&bucket.used_units)));
        let remaining: Double = self.remaining.plus(&or_zero(read_units(&bucket.remaining_units)));
        let told: Option<Double> = match bucket.expires_at {
            Some(time) => if time.is_finite() && Double::from_bits(0).lt(&time) {
                Some(time)
            } else {
                None
            },
            None => None,
        };
        let expiry: Option<Double> = earlier(self.expiry, told);
        proof {
            let more = buckets.push(*bucket);
            assert(totals(more).drop_last() =~= totals(buckets));
            assert(uses(more).drop_last() =~= uses(buckets));
            assert(rests(more).drop_last() =~= rests(buckets));
            assert(is_sum(self.total, totals(more).last(), total));
            assert(is_sum(self.used, uses(more).last(), used));
            assert(is_sum(self.remaining, rests(more).last(), remaining));
            assert(told == expiry_of(*bucket));
            lemma_first_expiry(buckets, *bucket, self.expiry, expiry);
        }
        Pool { total, used, remaining, expiry, found: true }
    }
}

fn earlier(a: Option<Double>, b: Option<Double>) -> (result: Option<Double>)
    ensures
        result == match (a, b) {
            (Some(first), Some(second)) => if second.below(first) {
                b
            } else {
                a
            },
            (None, _) => b,
            _ => a,
        },
{
    match (a, b) {
        (Some(first), Some(second)) => if second.lt(&first) {
            Some(second)
        } else {
            Some(first)
        },
        (None, b) => b,
        (a, _) => a,
    }
}

/// The earliest expiry with one bucket more.
proof fn lemma_first_expiry(
    buckets: Seq<BalanceBucket>,
    bucket: BalanceBucket,
    before: Option<Double>,
    after: Option<Double>,
)
    requires
        is_first_expiry(buckets, before),
        after == match (before, expiry_of(bucket)) {
            (Some(first), Some(second)) => if second.below(first) {
                Some(second)
            } else {
                before
            },
            (None, told) => told,
            _ => before,
        },
    ensures
        is_first_expiry(buckets.push(bucket), after),
{
    let more = buckets.push(bucket);
    let n = buckets.len() as int;
    assert(more[n] == bucket);
    assert(forall|i: int| 0 <= i < n ==> more[i] == buckets[i]);
    if before is Some {
        let k = choose|k: int| 0 <= k < n && #[trigger] expiry_of(buckets[k]) == before;
        assert(expiry_of(more[k]) == before);
    }
    if after is Some {
        assert(expiry_of(more[n]) == expiry_of(bucket));
        assert forall|i: int| 0 <= i < more.len() implies (#[trigger] expiry_of(more[i]) matches Some(
            other,
        ) ==> after->Some_0.at_most(other)) by {
            if i < n {
                assert(expiry_of(buckets[i]) == expiry_of(more[i]));
            }
        }
    } else {
        assert forall|i: int| 0 <= i < more.len() implies #[trigger] expiry_of(more[i]) is None by {
            if i < n {
                assert(expiry_of(buckets[i]) == expiry_of(more[i]));
            }
        }
    }
}

fn clamp(percent: Double) -> (result: Double)
    ensures
        result == clamped(percent),
{
    let nothing: Double = Double::from_bits(0);
    let all: Double = Double::from_bits(HUNDRED);
    if percent.lt(&nothing) {
        nothing
    } else if all.lt(&percent) {
        all
    } else {
        percent
    }
}

/// How much `used` is of `total`, from zero to one hundred.
pub fn used_percent_of(used: &Double, total: &Double) -> (percent: Double)
    ensures
        is_used_percent(*used, *total, percent),
{
    let nothing: Double = Double::from_bits(0);
    if nothing.lt(total) {
        proof {
            lemma_scaled_bounds(0);
        }
        let share: Double = used.over(total);
        let scaled: Double = share.times(100);
        clamp(scaled)
    } else {
        nothing
    }
}

fn read_pool(data: &BalanceData, time: &Double) -> (pool: Pool)
    ensures
        pool.holds(counted(data.balances@, data.plans@, *time)),
{
    let mut pool: Pool = Pool::new();
    let ghost buckets = data.balances@;
    let mut i: usize = 0;
    proof {
        assert(buckets.take(0) =~= seq![]);
    }
    while i < data.balances.len()
        invariant
            i <= data.balances.len(),
            buckets == data.balances@,
            pool.holds(counted(buckets.take(i as int), data.plans@, *time)),
        decreases data.balances.len() - i,
    {
        let bucket: &BalanceBucket = &data.balances[i];
        let ghost seen = counted(buckets.take(i as int), data.plans@, *time);
        proof {
            assert(buckets.take(i + 1).drop_last() =~= buckets.take(i as int));
            assert(buckets.take(i + 1).last() == *bucket);
        }
        let tells: bool = read_units(&bucket.total_units).is_some() || read_units(
            &bucket.used_units,
        ).is_some() || read_units(&bucket.remaining_units).is_some();
        if is_kept(bucket, &data.plans, time) && tells {
            pool = pool.with(bucket, Ghost(seen));
        }
        i = i + 1;
    }
    proof {
        assert(buckets.take(i as int) =~= buckets);
    }
    pool
}

fn read_data(data: &BalanceData, now_ms: u64) -> (result: Result<ZCodeQuotaSnapshot, Diagnostic>)
    ensures
        is_data_reading(*data, now_ms, result),
{
    let time: Double = find_server_time(data.server_time, now_ms);
    let pool: Pool = read_pool(data, &time);
    let ghost buckets = counted(data.balances@, data.plans@, time);
    if !pool.found {
        return Err(
            Diagnostic::new("CRV-508", "ZCode 体验套餐额度桶数据缺失").with_detail(
                "billing/balance 响应中没有可用的额度桶",
            ),
        );
    }
    let used_percent: Double = used_percent_of(&pool.used, &pool.total);
    let resets_at: Option<u64> = match pool.expiry {
        Some(expiry) => Some(expiry.truncate()),
        None => None,
    };
    let window = ZCodeQuotaWindow {
        used_percent,
        remaining_percent: remaining_of(&used_percent),
        window_duration_mins: 0,
        resets_at,
        quota_total: pool.total.truncate(),
        quota_used: pool.used.truncate(),
        quota_remaining: pool.remaining.truncate(),
    };
    proof {
        assert(shows_pool(pool.total, pool.used, pool.remaining, pool.expiry, window));
        assert(is_pool(buckets, window));
    }
    Ok(
        ZCodeQuotaSnapshot {
            source_state: SourceState::Healthy,
            five_hour: Some(window),
            weekly: None,
            plan_level: Some("Start".to_owned()),
            plan_kind: Some(PlanKind::Start.snapshot_kind().to_owned()),
            observed_at_ms: now_ms,
        },
    )
}

fn is_accepted(answer: &BalanceResponse) -> (holds: bool)
    ensures
        holds == accepted(*answer),
{
    let success: bool = match answer.success {
        Some(success) => success,
        None => false,
    };
    let ok_code: bool = match answer.code {
        Some(code) => code == 0,
        None => false,
    };
    success || ok_code
}

/// Whether the gateway judges the start plan unavailable.
pub fn is_refused_start(answer: &BalanceResponse, now_ms: u64) -> (refused: bool)
    ensures
        refused == refused_start(*answer, now_ms),
{
    if !is_accepted(answer) {
        return true;
    }
    match &answer.data {
        None => false,
        Some(data) => {
            let time: Double = find_server_time(data.server_time, now_ms);
            let pool: Pool = read_pool(data, &time);
            proof {
                assert forall|other: Double| #[trigger]
                    is_server_time(data.server_time, now_ms, other) implies other == time by {
                    lemma_one_server_time(data.server_time, now_ms, time, other);
                }
            }
            !pool.found
        },
    }
}

/// Two numbers with the same sign and magnitude are the same.
proof fn lemma_same_double(a: Double, b: Double)
    requires
        a.magnitude() == b.magnitude(),
        a.negative() == b.negative(),
    ensures
        a == b,
{
}

/// There is one time that plans are held against.
proof fn lemma_one_server_time(told: Option<Double>, now_ms: u64, a: Double, b: Double)
    requires
        is_server_time(told, now_ms, a),
        is_server_time(told, now_ms, b),
    ensures
        a == b,
{
    if !(told is Some && told->Some_0.finite() && zero().at_most(told->Some_0)) {
        let thousand = Double { bits: THOUSAND };
        let number = now_ms * pow2(1074);
        let first = choose|count: Double|
            !count.negative() && rounds_to(number, 1, count.magnitude()) && #[trigger] is_quotient(
                count,
                thousand,
                a,
            );
        let second = choose|count: Double|
            !count.negative() && rounds_to(number, 1, count.magnitude()) && #[trigger] is_quotient(
                count,
                thousand,
                b,
            );
        law_rounding_is_unique(number, 1, first.magnitude(), second.magnitude());
        lemma_same_double(first, second);
        lemma_scaled_bounds(thousand.magnitude());
        if !first.infinite() {
            law_rounding_is_unique(
                scaled(first.magnitude()) * pow2(1074),
                scaled(thousand.magnitude()),
                a.magnitude(),
                b.magnitude(),
            );
            lemma_same_double(a, b);
        }
    }
}

/// The snapshot that an answer about a start plan gives. `decoded` is the answer, or why it
/// could not be decoded.
pub fn parse_balance_payload(decoded: Result<BalanceResponse, String>, now_ms: u64) -> (result:
    Result<ZCodeQuotaSnapshot, Diagnostic>)
    ensures
        is_start_reading(decoded, now_ms, result),
{
    let answer: BalanceResponse = match decoded {
        Ok(answer) => answer,
        Err(message) => {
            return Err(
                Diagnostic::new("CRV-506", "ZCode 体验套餐余额响应无法解析").with_detail(
                    message.as_str(),
                ),
            );
        },
    };
    if !is_accepted(&answer) {
        let message: String = match answer.msg {
            Some(message) => message,
            None => "体验套餐余额服务未返回成功状态".to_owned(),
        };
        return Err(
            Diagnostic::new("CRV-507", "ZCode 体验套餐配额查询失败").with_detail(
                message.as_str(),
            ),
        );
    }
    match &answer.data {
        None => Err(Diagnostic::new("CRV-506", "ZCode 体验套餐余额响应缺少 data")),
        Some(data) => read_data(data, now_ms),
    }
}

/// A bucket counts exactly where it is among those that are summed up.
proof fn lemma_counted(
    buckets: Seq<BalanceBucket>,
    plans: Seq<BalancePlan>,
    time: Double,
    bucket: BalanceBucket,
)
    ensures
        counted(buckets, plans, time).contains(bucket) <==> buckets.contains(bucket) && counts(
            bucket,
            plans,
            time,
        ),
    decreases buckets.len(),
{
    let list = counted(buckets, plans, time);
    if buckets.len() > 0 {
        let shorter = buckets.drop_last();
        let rest = counted(shorter, plans, time);
        lemma_counted(shorter, plans, time, bucket);
        if list.contains(bucket) {
            let k = choose|k: int| 0 <= k < list.len() && list[k] == bucket;
            if k < rest.len() {
                assert(rest[k] == bucket);
                let i = choose|i: int| 0 <= i < shorter.len() && shorter[i] == bucket;
                assert(buckets[i] == bucket);
            } else {
                assert(buckets[buckets.len() - 1] == bucket);
            }
        }
        if buckets.contains(bucket) && counts(bucket, plans, time) {
            let i = choose|i: int| 0 <= i < buckets.len() && buckets[i] == bucket;
            if i < shorter.len() {
                assert(shorter[i] == bucket);
                let k = choose|k: int| 0 <= k < rest.len() && rest[k] == bucket;
                assert(list[k] == bucket);
            } else {
                assert(list[list.len() - 1] == bucket);
            }
        }
    }
}

/// A bucket that belongs to no plan is summed up, where it tells units.
pub proof fn law_orphans_count(
    buckets: Seq<BalanceBucket>,
    plans: Seq<BalancePlan>,
    time: Double,
    bucket: BalanceBucket,
)
    requires
        buckets.contains(bucket),
        orphan(bucket, plans),
        tells_units(bucket),
    ensures
        counted(buckets, plans, time).contains(bucket),
{
    lemma_counted(buckets, plans, time, bucket);
}

/// A bucket that belongs to plans of which every one has expired is not summed up.
pub proof fn law_buckets_of_expired_plans_do_not_count(
    buckets: Seq<BalanceBucket>,
    plans: Seq<BalancePlan>,
    time: Double,
    bucket: BalanceBucket,
)
    requires
        !orphan(bucket, plans),
        forall|i: int|
            0 <= i < plans.len() && matches_plan(bucket, #[trigger] plans[i]) ==> expired(
                plans[i],
                time,
            ),
    ensures
        !counted(buckets, plans, time).contains(bucket),
{
    lemma_counted(buckets, plans, time, bucket);
}

/// A refusal gives no reading; and of an answer with data nothing but a refusal gives none.
pub proof fn law_refusals_give_no_reading(
    answer: BalanceResponse,
    now_ms: u64,
    result: Result<ZCodeQuotaSnapshot, Diagnostic>,
)
    requires
        is_start_reading(Ok(answer), now_ms, result),
    ensures
        refused_start(answer, now_ms) ==> result is Err,
        answer.data is Some && result is Err ==> refused_start(answer, now_ms),
{
    if accepted(answer) && answer.data is Some {
        let data = answer.data->Some_0;
        assert forall|a: Double, b: Double| #[trigger]
            is_server_time(data.server_time, now_ms, a) && #[trigger] is_server_time(
                data.server_time,
                now_ms,
                b,
            ) implies a == b by {
            lemma_one_server_time(data.server_time, now_ms, a, b);
        }
    }
}

/// A plan that has expired stays so as time goes on.
pub proof fn law_expired_plans_stay_expired(plan: BalancePlan, time: Double, later: Double)
    requires
        expired(plan, time),
        time.at_most(later),
    ensures
        expired(plan, later),
{
}

/// Brought between zero and one hundred, a number is a percentage.
proof fn lemma_clamped(percent: Double)
    requires
        !percent.nan(),
    ensures
        valid_percent(clamped(percent)),
{
    lemma_hundred();
    lemma_scaled_bounds(0);
    lemma_scaled_bounds(full().magnitude());
}

/// The share of finite amounts, brought between zero and one hundred, is a percentage.
proof fn lemma_used_percent(used: Double, total: Double, percent: Double)
    requires
        total.finite(),
        used.finite(),
        is_used_percent(used, total, percent),
    ensures
        valid_percent(percent),
{
    if zero().below(total) {
        let (share, scaled) = choose|share: Double, scaled: Double|
            #[trigger] is_quotient(used, total, share) && #[trigger] is_multiple(share, 100, scaled)
                && percent == clamped(scaled);
        assert(!scaled.nan());
        lemma_clamped(scaled);
    } else {
        lemma_hundred();
        lemma_pow2_pos(1074);
        lemma_scaled_bounds(0);
    }
}

/// The share that is shown of a pool is a percentage, whatever the buckets say, as long as their
/// sums are finite: more used than there is shows as all of it.
pub proof fn law_a_pool_shows_percentages(
    total: Double,
    used: Double,
    remaining: Double,
    expiry: Option<Double>,
    window: ZCodeQuotaWindow,
)
    requires
        total.finite(),
        used.finite(),
        shows_pool(total, used, remaining, expiry, window),
    ensures
        valid_percent(window.used_percent),
        valid_percent(window.remaining_percent),
{
    lemma_used_percent(used, total, window.used_percent);
    law_remaining_is_a_percentage(window.used_percent, window.remaining_percent);
}

/// The sum of counts.
pub open spec fn sum_of(counts: Seq<nat>) -> nat
    decreases counts.len(),
{
    if counts.len() == 0 {
        0
    } else {
        sum_of(counts.drop_last()) + counts.last()
    }
}

/// Whole units are summed up exactly, and shown as their sum, as long as that stays below
/// `2^53`.
pub proof fn law_whole_units_add_up_exactly(amounts: Seq<Double>, counts: Seq<nat>, sum: Double)
    requires
        amounts.len() == counts.len(),
        forall|i: int|
            0 <= i < amounts.len() ==> (#[trigger] amounts[i]).finite() && amounts[i].value()
                == counts[i] * pow2(1074),
        sum_of(counts) < 2 * FRACTION_LIMIT,
        adds_up_to(amounts, sum),
    ensures
        sum.finite(),
        !sum.negative(),
        sum.value() == sum_of(counts) * pow2(1074),
        whole_part(sum) == sum_of(counts),
    decreases amounts.len(),
{
    let u = pow2(1074) as int;
    lemma_pow2_pos(1074);
    lemma_scaled_bounds(0);
    if amounts.len() > 0 {
        let before = choose|before: Double|
            adds_up_to(amounts.drop_last(), before) && #[trigger] is_sum(
                before,
                amounts.last(),
                sum,
            );
        let shorter = amounts.drop_last();
        let fewer = counts.drop_last();
        assert forall|i: int| 0 <= i < shorter.len() implies (#[trigger] shorter[i]).finite()
            && shorter[i].value() == fewer[i] * pow2(1074) by {
            assert(shorter[i] == amounts[i] && fewer[i] == counts[i]);
        }
        law_whole_units_add_up_exactly(shorter, fewer, before);
        let last = amounts[amounts.len() - 1];
        let part = sum_of(fewer) as int;
        let count = counts.last() as int;
        let exact = before.value() + last.value();
        assert(exact == (part + count) * u && exact >= 0) by (nonlinear_arith)
            requires
                exact == part * u + count * u,
                part >= 0,
                count >= 0,
                u > 0,
        ;
        let magnitude = law_whole_numbers_are_representable(part + count);
        law_rounding_keeps_the_representable(magnitude);
        law_rounding_is_unique(exact, 1, sum.magnitude(), magnitude);
    }
    let whole = sum_of(counts) as int;
    lemma_fundamental_div_mod_converse(sum.value(), u, whole, 0);
}

/// A plan is live at a time: it does not say that it has expired, and where it is active its end
/// has not come. An end that is missing, zero, negative or not finite never comes.
pub open spec fn live(plan: BalancePlan, time: Double) -> bool {
    plan.status matches Some(status) ==> {
        &&& lower(trimmed(status@)) != "expired"@
        &&& lower(trimmed(status@)) == "active"@ ==> (plan.ends_at matches Some(end)
            ==> !end.finite() || end.value() <= 0 || end.value() > time.value())
    }
}

/// A bucket is one of a plan: both tell the same id of a user's plan, or, where one of them tells
/// none, the same id of a plan or none at all.
pub open spec fn of_plan(bucket: BalanceBucket, plan: BalancePlan) -> bool {
    if bucket.user_plan_id is Some && bucket.user_plan_id->Some_0@ != ""@
        && plan.user_plan_id is Some && plan.user_plan_id->Some_0@ != ""@ {
        bucket.user_plan_id->Some_0@ == plan.user_plan_id->Some_0@
    } else {
        match (bucket.plan_id, plan.plan_id) {
            (Some(id), Some(other)) => id@ == other@,
            (None, None) => true,
            _ => false,
        }
    }
}

/// A bucket with at least one finite number of units, of a live plan or of none.
pub open spec fn summed_up(bucket: BalanceBucket, plans: Seq<BalancePlan>, time: Double) -> bool {
    &&& (bucket.total_units is Some && bucket.total_units->Some_0.number.finite()) || (
    bucket.used_units is Some && bucket.used_units->Some_0.number.finite()) || (
    bucket.remaining_units is Some && bucket.remaining_units->Some_0.number.finite())
    &&& (exists|i: int| 0 <= i < plans.len() && of_plan(bucket, #[trigger] plans[i])) ==> exists|
        i: int,
    |
        0 <= i < plans.len() && of_plan(bucket, #[trigger] plans[i]) && live(plans[i], time)
}

/// A plan has expired where it is not live.
proof fn lemma_live(plan: BalancePlan, time: Double)
    requires
        !time.nan(),
    ensures
        expired(plan, time) <==> !live(plan, time),
{
    lemma_scaled_bounds(0);
    reveal_strlit("");
    reveal_strlit("expired");
    reveal_strlit("active");
    assert(lower("expired"@) =~= "expired"@);
    assert(lower("active"@) =~= "active"@);
    assert(lower(""@) =~= ""@);
    assert("expired"@.len() != "active"@.len());
    assert(lower(status_of(plan)).len() == status_of(plan).len());
}

/// A bucket belongs to a plan where it is one of it.
proof fn lemma_of_plan(bucket: BalanceBucket, plan: BalancePlan)
    ensures
        matches_plan(bucket, plan) <==> of_plan(bucket, plan),
{
    reveal_strlit("");
    if let Some(id) = bucket.user_plan_id {
        assert(id@.len() == 0 <==> id@ =~= ""@);
    }
    if let Some(id) = plan.user_plan_id {
        assert(id@.len() == 0 <==> id@ =~= ""@);
    }
}

/// The buckets that count are those that are summed up.
proof fn lemma_summed_up(bucket: BalanceBucket, plans: Seq<BalancePlan>, time: Double)
    requires
        !time.nan(),
    ensures
        counts(bucket, plans, time) <==> summed_up(bucket, plans, time),
{
    assert forall|i: int| 0 <= i < plans.len() implies (matches_plan(bucket, #[trigger] plans[i])
        <==> of_plan(bucket, plans[i])) && (expired(plans[i], time) <==> !live(
        plans[i],
        time,
    )) by {
        lemma_of_plan(bucket, plans[i]);
        lemma_live(plans[i], time);
    }
}

/// A bucket of a live plan is summed up, where it tells units. A plan is live that has no status,
/// one other than expired and active, or that is active and has no end, an end at or below zero,
/// or an end after the time of the service.
pub proof fn law_buckets_of_live_plans_count(
    buckets: Seq<BalanceBucket>,
    plans: Seq<BalancePlan>,
    time: Double,
    bucket: BalanceBucket,
    plan: BalancePlan,
)
    requires
        !time.nan(),
        buckets.contains(bucket),
        plans.contains(plan),
        (bucket.user_plan_id matches Some(id) && id@ != ""@ && (
        plan.user_plan_id matches Some(other) && other@ == id@)) || (bucket.user_plan_id is None
            && bucket.plan_id is Some && plan.plan_id is Some && bucket.plan_id->Some_0@
            == plan.plan_id->Some_0@),
        plan.status is None || (lower(trimmed(plan.status->Some_0@)) != "expired"@ && lower(
            trimmed(plan.status->Some_0@),
        ) != "active"@) || (lower(trimmed(plan.status->Some_0@)) == "active"@ && (
        plan.ends_at is None || plan.ends_at->Some_0.value() <= 0 || plan.ends_at->Some_0.value()
            > time.value())),
        (bucket.total_units is Some && bucket.total_units->Some_0.number.finite()) || (
        bucket.used_units is Some && bucket.used_units->Some_0.number.finite()) || (
        bucket.remaining_units is Some && bucket.remaining_units->Some_0.number.finite()),
    ensures
        counted(buckets, plans, time).contains(bucket),
{
    reveal_strlit("expired");
    reveal_strlit("active");
    assert("expired"@.len() != "active"@.len());
    let at = choose|at: int| 0 <= at < plans.len() && plans[at] == plan;
    assert(live(plan, time));
    assert(of_plan(bucket, plans[at]));
    lemma_summed_up(bucket, plans, time);
    lemma_counted(buckets, plans, time, bucket);
}

/// Whether an answer is a reading: it is accepted by its flag or by the code zero, holds data, and
/// at least one of its buckets is summed up. Else it fails by what it lacks, a refusal with the
/// words of the service.
pub proof fn law_accepted_balances_are_read(
    answer: BalanceResponse,
    now_ms: u64,
    result: Result<ZCodeQuotaSnapshot, Diagnostic>,
)
    requires
        call_ensures(parse_balance_payload, (Ok(answer), now_ms), result),
    ensures
        !(answer.success == Some(true) || answer.code == Some(0i64)) ==> (result matches Err(
            diagnostic,
        ) && diagnostic.code@ == "CRV-507"@ && (answer.msg matches Some(message) ==> opt_text(
            diagnostic.detail,
        ) == Some(message@))),
        (answer.success == Some(true) || answer.code == Some(0i64)) && answer.data is None ==> (
        result matches Err(diagnostic) && diagnostic.code@ == "CRV-506"@),
        (answer.success == Some(true) || answer.code == Some(0i64)) ==> (answer.data matches Some(
            data,
        ) ==> (data.server_time matches Some(time) ==> time.finite() && time.value() >= 0 ==> (
        result is Ok <==> exists|i: int|
            0 <= i < data.balances@.len() && summed_up(
                #[trigger] data.balances@[i],
                data.plans@,
                time,
            )))),
        (answer.success == Some(true) || answer.code == Some(0i64)) && answer.data is Some ==> (
        result matches Err(diagnostic) ==> diagnostic.code@ == "CRV-508"@),
        result matches Ok(snapshot) ==> {
            &&& snapshot.source_state == SourceState::Healthy
            &&& snapshot.observed_at_ms == now_ms
            &&& snapshot.five_hour is Some
            &&& snapshot.five_hour->Some_0.window_duration_mins == 0
            &&& snapshot.weekly is None
            &&& opt_text(snapshot.plan_level) == Some("Start"@)
            &&& opt_text(snapshot.plan_kind) == Some("start_plan"@)
        },
{
    assert(is_start_reading(Ok(answer), now_ms, result));
    if let Err(diagnostic) = result {
        assert(diagnostic@.code == diagnostic.code@);
        assert(diagnostic@.detail == opt_text(diagnostic.detail));
    }
    lemma_scaled_bounds(0);
    if let Some(data) = answer.data {
        if let Some(time) = data.server_time {
            if time.finite() && time.value() >= 0 {
                let list = counted(data.balances@, data.plans@, time);
                if list.len() > 0 {
                    assert(list.contains(list[0]));
                    lemma_counted(data.balances@, data.plans@, time, list[0]);
                    lemma_summed_up(list[0], data.plans@, time);
                    let i = choose|i: int|
                        0 <= i < data.balances@.len() && data.balances@[i] == list[0];
                    assert(summed_up(data.balances@[i], data.plans@, time));
                }
                if exists|i: int|
                    0 <= i < data.balances@.len() && summed_up(
                        #[trigger] data.balances@[i],
                        data.plans@,
                        time,
                    ) {
                    let i = choose|i: int|
                        0 <= i < data.balances@.len() && summed_up(
                            #[trigger] data.balances@[i],
                            data.plans@,
                            time,
                        );
                    lemma_summed_up(data.balances@[i], data.plans@, time);
                    lemma_counted(data.balances@, data.plans@, time, data.balances@[i]);
                    assert(list.contains(data.balances@[i]));
                }
            }
        }
    }
}

/// An answer that cannot be decoded fails with the words of the decoder.
pub proof fn law_undecoded_balances_fail(
    message: String,
    now_ms: u64,
    result: Result<ZCodeQuotaSnapshot, Diagnostic>,
)
    requires
        call_ensures(parse_balance_payload, (Err(message), now_ms), result),
    ensures
        result matches Err(diagnostic) && diagnostic.code@ == "CRV-506"@ && opt_text(
            diagnostic.detail,
        ) == Some(message@),
{
    assert(is_start_reading(Err(message), now_ms, result));
    assert(result->Err_0@.detail == opt_text(result->Err_0.detail));
}

/// A start plan is refused where the answer is not accepted, or where it holds data of which no
/// bucket is summed up.
pub proof fn law_start_plans_without_units_are_refused(
    answer: BalanceResponse,
    now_ms: u64,
    refused: bool,
)
    requires
        call_ensures(is_refused_start, (&answer, now_ms), refused),
    ensures
        !(answer.success == Some(true) || answer.code == Some(0i64)) ==> refused,
        (answer.success == Some(true) || answer.code == Some(0i64)) && answer.data is None
            ==> !refused,
        (answer.success == Some(true) || answer.code == Some(0i64)) ==> (answer.data matches Some(
            data,
        ) ==> (data.server_time matches Some(time) ==> time.finite() && time.value() >= 0 ==> (
        refused <==> forall|i: int|
            0 <= i < data.balances@.len() ==> !summed_up(
                #[trigger] data.balances@[i],
                data.plans@,
                time,
            )))),
{
    lemma_scaled_bounds(0);
    if let Some(data) = answer.data {
        if let Some(time) = data.server_time {
            if time.finite() && time.value() >= 0 {
                let list = counted(data.balances@, data.plans@, time);
                assert(is_server_time(data.server_time, now_ms, time));
                if list.len() > 0 {
                    assert(list.contains(list[0]));
                    lemma_counted(data.balances@, data.plans@, time, list[0]);
                    lemma_summed_up(list[0], data.plans@, time);
                    let i = choose|i: int|
                        0 <= i < data.balances@.len() && data.balances@[i] == list[0];
                    assert(summed_up(data.balances@[i], data.plans@, time));
                }
                assert forall|i: int|
                    0 <= i < data.balances@.len() && list.len() == 0 implies !summed_up(
                    #[trigger] data.balances@[i],
                    data.plans@,
                    time,
                ) by {
                    lemma_summed_up(data.balances@[i], data.plans@, time);
                    lemma_counted(data.balances@, data.plans@, time, data.balances@[i]);
                }
            }
        }
    }
}

/// A number of units that is a whole count; what is missing or not finite counts nothing.
pub open spec fn tells(number: Option<BalanceNumber>, count: nat) -> bool {
    if number is Some && number->Some_0.number.finite() {
        number->Some_0.number.value() == count * pow2(1074)
    } else {
        count == 0
    }
}

/// A bucket is among others, with its amount in their order.
spec fn has_amount(
    buckets: Seq<BalanceBucket>,
    amounts: Seq<nat>,
    bucket: BalanceBucket,
    amount: nat,
) -> bool {
    exists|i: int| 0 <= i < buckets.len() && #[trigger] buckets[i] == bucket && amounts[i] == amount
}

/// The counts of the buckets that count, where all others count nothing.
proof fn lemma_kept_counts(
    buckets: Seq<BalanceBucket>,
    plans: Seq<BalancePlan>,
    time: Double,
    amounts: Seq<nat>,
) -> (kept: Seq<nat>)
    requires
        amounts.len() == buckets.len(),
        forall|i: int|
            0 <= i < buckets.len() && !counts(#[trigger] buckets[i], plans, time) ==> amounts[i]
                == 0,
    ensures
        kept.len() == counted(buckets, plans, time).len(),
        sum_of(kept) == sum_of(amounts),
        forall|k: int|
            0 <= k < kept.len() ==> has_amount(
                buckets,
                amounts,
                counted(buckets, plans, time)[k],
                #[trigger] kept[k],
            ),
    decreases buckets.len(),
{
    if buckets.len() == 0 {
        seq![]
    } else {
        let shorter = buckets.drop_last();
        let fewer = amounts.drop_last();
        let n = buckets.len() - 1;
        assert forall|i: int|
            0 <= i < shorter.len() && !counts(#[trigger] shorter[i], plans, time) implies fewer[i]
            == 0 by {
            assert(shorter[i] == buckets[i]);
        }
        let before = lemma_kept_counts(shorter, plans, time, fewer);
        let rest = counted(shorter, plans, time);
        let list = counted(buckets, plans, time);
        let kept = if counts(buckets.last(), plans, time) {
            before.push(amounts[n])
        } else {
            before
        };
        if counts(buckets.last(), plans, time) {
            assert(kept.drop_last() =~= before);
        } else {
            assert(counts(buckets[n], plans, time) == counts(buckets.last(), plans, time));
        }
        assert forall|k: int| 0 <= k < kept.len() implies has_amount(
            buckets,
            amounts,
            list[k],
            #[trigger] kept[k],
        ) by {
            if k < before.len() {
                assert(has_amount(shorter, fewer, rest[k], before[k]));
                let i = choose|i: int|
                    0 <= i < shorter.len() && #[trigger] shorter[i] == rest[k] && fewer[i]
                        == before[k];
                assert(list[k] == buckets[i] && kept[k] == amounts[i]);
            } else {
                assert(list[k] == buckets[n] && kept[k] == amounts[n]);
            }
        }
        kept
    }
}

/// A quotient rounds as it does with both of its numbers scaled up.
proof fn lemma_rounding_scales(number: int, weight: int, factor: int, magnitude: int)
    requires
        factor > 0,
    ensures
        rounds_to(number * factor, weight * factor, magnitude) <==> rounds_to(
            number,
            weight,
            magnitude,
        ),
{
    let below = scaled(magnitude - 1) + scaled(magnitude);
    let above = scaled(magnitude) + scaled(magnitude + 1);
    lemma_sides_scale(number, weight, factor, below);
    lemma_sides_scale(number, weight, factor, above);
}

proof fn lemma_sides_scale(number: int, weight: int, factor: int, middle: int)
    requires
        factor > 0,
    ensures
        2 * (number * factor) > middle * (weight * factor) <==> 2 * number > middle * weight,
        2 * (number * factor) < middle * (weight * factor) <==> 2 * number < middle * weight,
{
    let side = middle * weight;
    assert(middle * (weight * factor) == side * factor) by (nonlinear_arith)
        requires
            side == middle * weight,
    ;
    assert(2 * (number * factor) > side * factor <==> 2 * number > side) by (nonlinear_arith)
        requires
            factor > 0,
    ;
    assert(2 * (number * factor) < side * factor <==> 2 * number < side) by (nonlinear_arith)
        requires
            factor > 0,
    ;
}

/// What is known of the share of a whole count.
proof fn lemma_shares(used: Double, total: Double, percent: Double, u: nat, t: nat)
    requires
        is_used_percent(used, total, percent),
        used.finite(),
        total.finite(),
        used.value() == u * pow2(1074),
        total.value() == t * pow2(1074),
        !used.negative(),
    ensures
        !percent.nan(),
        0 <= percent.value() <= 100 * pow2(1074),
        u == 0 || t == 0 ==> percent.value() == 0,
        u >= t && t > 0 ==> percent.value() == 100 * pow2(1074),
        t > 0 ==> exists|share: int, hundredfold: int|
            #[trigger] rounds_to((u * pow2(1074)) as int, t as int, share) && #[trigger] rounds_to(
                scaled(share) * 100,
                1,
                hundredfold,
            ) && percent.value() == if scaled(hundredfold) > 100 * pow2(1074) {
                (100 * pow2(1074)) as int
            } else {
                scaled(hundredfold)
            },
{
    let p = pow2(1074) as int;
    lemma_pow2_pos(1074);
    lemma_scaled_bounds(0);
    lemma_hundred();
    lemma_scaled_bounds(full().magnitude());
    lemma_used_percent(used, total, percent);
    assert(t > 0 ==> t * p > 0) by (nonlinear_arith)
        requires
            p > 0,
    ;
    assert(0 * p == 0) by (nonlinear_arith);
    if t > 0 {
        let (share, product) = choose|share: Double, product: Double|
            #[trigger] is_quotient(used, total, share) && #[trigger] is_multiple(
                share,
                100,
                product,
            ) && percent == clamped(product);
        let m = share.magnitude();
        let n = product.magnitude();
        lemma_scaled_bounds(total.magnitude());
        lemma_scaled_bounds(m);
        lemma_scaled_bounds(n);
        lemma_rounding_scales(u * p, t as int, p, m);
        lemma_share_is_finite(used, u, t, m);
        law_rounding_keeps_the_representable(0);
        if u == 0 {
            let next = scaled(0) + scaled(1);
            lemma_scaled_bounds(1);
            assert(next * t > 0) by (nonlinear_arith)
                requires
                    next > 0,
                    t > 0,
            ;
            assert(rounds_to(0, t as int, 0));
            law_rounding_is_unique(0, t as int, m, 0);
            law_rounding_is_unique(0, 1, n, 0);
        }
        if u >= t {
            let one = law_whole_numbers_are_representable(1);
            law_rounding_keeps_the_representable(one);
            lemma_rounding_scales(p, 1, t as int, one);
            assert(p * t == t * p && t * p <= u * p) by (nonlinear_arith)
                requires
                    u >= t,
                    p > 0,
            ;
            law_rounding_keeps_order(t * p, u * p, t as int, one, m);
            if one < m {
                lemma_scaled_increases(one, m);
            }
            let all = full().magnitude();
            law_rounding_keeps_the_representable(all);
            law_rounding_keeps_order(scaled(all), scaled(m) * 100, 1, all, n);
            if all < n {
                lemma_scaled_increases(all, n);
            }
        }
        assert(rounds_to((u * pow2(1074)) as int, t as int, m));
        assert(rounds_to(scaled(m) * 100, 1, n));
    }
}

/// How much a whole count is of another: the share, correctly rounded, then a hundred times that,
/// correctly rounded, and no more than one hundred. Nothing used is zero, all of it or more is one
/// hundred, and of nothing the share is zero.
pub proof fn law_shares_are_rounded(used: Double, total: Double, percent: Double, u: nat, t: nat)
    requires
        call_ensures(used_percent_of, (&used, &total), percent),
        used.finite(),
        total.finite(),
        used.value() == u * pow2(1074),
        total.value() == t * pow2(1074),
        !used.negative(),
    ensures
        !percent.nan(),
        0 <= percent.value() <= 100 * pow2(1074),
        u == 0 || t == 0 ==> percent.value() == 0,
        u >= t && t > 0 ==> percent.value() == 100 * pow2(1074),
        t > 0 ==> exists|share: int, hundredfold: int|
            #[trigger] rounds_to((u * pow2(1074)) as int, t as int, share) && #[trigger] rounds_to(
                scaled(share) * 100,
                1,
                hundredfold,
            ) && percent.value() == if scaled(hundredfold) > 100 * pow2(1074) {
                (100 * pow2(1074)) as int
            } else {
                scaled(hundredfold)
            },
{
    lemma_shares(used, total, percent, u, t);
}

/// The share of a finite count of at least one is finite.
proof fn lemma_share_is_finite(used: Double, u: nat, t: nat, share: int)
    requires
        used.finite(),
        !used.negative(),
        used.value() == u * pow2(1074),
        t > 0,
        rounds_to((u * pow2(1074)) as int, t as int, share),
    ensures
        share < INFINITE,
{
    let last = INFINITE - 1;
    if used.magnitude() < last {
        lemma_scaled_increases(used.magnitude(), last);
    }
    lemma_scaled_increases(last, INFINITE as int);
    lemma_scaled_bounds(last);
    let middle = scaled(last) + scaled(INFINITE as int);
    assert(middle * t >= middle) by (nonlinear_arith)
        requires
            middle >= 0,
            t >= 1,
    ;
}

/// One kind of units is summed up exactly, where it tells whole counts.
proof fn lemma_column(
    buckets: Seq<BalanceBucket>,
    plans: Seq<BalancePlan>,
    time: Double,
    units_of: spec_fn(BalanceBucket) -> Option<BalanceNumber>,
    amounts: Seq<nat>,
    column: Seq<Double>,
    sum: Double,
)
    requires
        !time.nan(),
        amounts.len() == buckets.len(),
        forall|i: int|
            0 <= i < buckets.len() ==> if summed_up(#[trigger] buckets[i], plans, time) {
                tells(units_of(buckets[i]), amounts[i])
            } else {
                amounts[i] == 0
            },
        column.len() == counted(buckets, plans, time).len(),
        forall|k: int|
            0 <= k < column.len() ==> #[trigger] column[k] == units_or_zero(
                units_of(counted(buckets, plans, time)[k]),
            ),
        adds_up_to(column, sum),
        sum_of(amounts) < 2 * FRACTION_LIMIT,
    ensures
        sum.finite(),
        !sum.negative(),
        sum.value() == sum_of(amounts) * pow2(1074),
        whole_part(sum) == sum_of(amounts),
{
    let list = counted(buckets, plans, time);
    assert forall|i: int|
        0 <= i < buckets.len() && !counts(#[trigger] buckets[i], plans, time) implies amounts[i]
        == 0 by {
        lemma_summed_up(buckets[i], plans, time);
    }
    let kept = lemma_kept_counts(buckets, plans, time, amounts);
    lemma_scaled_bounds(0);
    assert(0 * pow2(1074) == 0) by (nonlinear_arith);
    assert forall|k: int| 0 <= k < column.len() implies (#[trigger] column[k]).finite()
        && column[k].value() == kept[k] * pow2(1074) by {
        assert(has_amount(buckets, amounts, list[k], kept[k]));
        let i = choose|i: int|
            0 <= i < buckets.len() && #[trigger] buckets[i] == list[k] && amounts[i] == kept[k];
        assert(list.contains(list[k]));
        lemma_counted(buckets, plans, time, list[k]);
        lemma_summed_up(buckets[i], plans, time);
        assert(tells(units_of(buckets[i]), amounts[i]));
    }
    law_whole_units_add_up_exactly(column, kept, sum);
}

/// The sums and the expiry that are shown of an answer in which the service tells its time.
proof fn lemma_told_pool(
    answer: BalanceResponse,
    data: BalanceData,
    time: Double,
    now_ms: u64,
    result: Result<ZCodeQuotaSnapshot, Diagnostic>,
) -> (sums: (Double, Double, Double, Option<Double>))
    requires
        is_start_reading(Ok(answer), now_ms, result),
        result is Ok,
        answer.data == Some(data),
        data.server_time == Some(time) && time.finite() && time.value() >= 0,
    ensures
        result->Ok_0.five_hour is Some,
        adds_up_to(totals(counted(data.balances@, data.plans@, time)), sums.0),
        adds_up_to(uses(counted(data.balances@, data.plans@, time)), sums.1),
        adds_up_to(rests(counted(data.balances@, data.plans@, time)), sums.2),
        is_first_expiry(counted(data.balances@, data.plans@, time), sums.3),
        shows_pool(sums.0, sums.1, sums.2, sums.3, result->Ok_0.five_hour->Some_0),
{
    let list = counted(data.balances@, data.plans@, time);
    assert(is_data_reading(data, now_ms, result));
    lemma_told_time(data, time, now_ms, result);
    lemma_pool_sums(list, result->Ok_0.five_hour->Some_0)
}

/// The time that the service tells is what plans are held against.
proof fn lemma_told_time(
    data: BalanceData,
    time: Double,
    now_ms: u64,
    result: Result<ZCodeQuotaSnapshot, Diagnostic>,
)
    requires
        is_data_reading(data, now_ms, result),
        data.server_time == Some(time) && time.finite() && time.value() >= 0,
    ensures
        is_pool_reading(counted(data.balances@, data.plans@, time), now_ms, result),
{
    lemma_scaled_bounds(0);
    let other = choose|other: Double| #[trigger]
        is_server_time(data.server_time, now_ms, other) && is_pool_reading(
            counted(data.balances@, data.plans@, other),
            now_ms,
            result,
        );
    assert(other == time);
}

/// The sums and the expiry of a pool.
proof fn lemma_pool_sums(list: Seq<BalanceBucket>, window: ZCodeQuotaWindow) -> (sums: (
    Double,
    Double,
    Double,
    Option<Double>,
))
    requires
        is_pool(list, window),
    ensures
        adds_up_to(totals(list), sums.0),
        adds_up_to(uses(list), sums.1),
        adds_up_to(rests(list), sums.2),
        is_first_expiry(list, sums.3),
        shows_pool(sums.0, sums.1, sums.2, sums.3, window),
{
    let (total, used, remaining, expiry) = choose|
        total: Double,
        used: Double,
        remaining: Double,
        expiry: Option<Double>,
    |
        adds_up_to(totals(list), total) && adds_up_to(uses(list), used) && adds_up_to(
            rests(list),
            remaining,
        ) && is_first_expiry(list, expiry) && #[trigger] shows_pool(
            total,
            used,
            remaining,
            expiry,
            window,
        );
    (total, used, remaining, expiry)
}

/// A whole part lies at or below its number, and less than one below it where it is not capped.
proof fn lemma_whole_part(number: Double)
    requires
        number.finite(),
        number.value() > 0,
    ensures
        whole_part(number) * pow2(1074) <= number.value(),
        whole_part(number) < u64::MAX ==> number.value() < (whole_part(number) + 1) * pow2(1074),
{
    lemma_pow2_pos(1074);
    lemma_scaled_bounds(number.magnitude());
    let unit = pow2(1074) as int;
    let whole = number.value() / unit;
    let part = whole_part(number);
    lemma_fundamental_div_mod(number.value(), unit);
    lemma_mod_bound(number.value(), unit);
    let rest = number.value() % unit;
    assert(whole * unit <= number.value() < (whole + 1) * unit) by (nonlinear_arith)
        requires
            number.value() == unit * whole + rest,
            0 <= rest < unit,
    ;
    assert(part * unit <= whole * unit) by (nonlinear_arith)
        requires
            part <= whole,
            unit > 0,
    ;
}

/// The pool that is shown holds the sums over the buckets of live plans and of none: whole units
/// are summed up exactly, each kind on its own, and what is used is shown as its share of all.
pub proof fn law_a_pool_sums_up_its_buckets(
    answer: BalanceResponse,
    data: BalanceData,
    time: Double,
    now_ms: u64,
    result: Result<ZCodeQuotaSnapshot, Diagnostic>,
    total: Seq<nat>,
    used: Seq<nat>,
    remaining: Seq<nat>,
)
    requires
        call_ensures(parse_balance_payload, (Ok(answer), now_ms), result),
        result is Ok,
        answer.data == Some(data),
        data.server_time == Some(time) && time.finite() && time.value() >= 0,
        total.len() == data.balances@.len() && used.len() == data.balances@.len()
            && remaining.len() == data.balances@.len(),
        forall|i: int|
            0 <= i < data.balances@.len() ==> if summed_up(
                #[trigger] data.balances@[i],
                data.plans@,
                time,
            ) {
                tells(data.balances@[i].total_units, total[i]) && tells(
                    data.balances@[i].used_units,
                    used[i],
                ) && tells(data.balances@[i].remaining_units, remaining[i])
            } else {
                total[i] == 0 && used[i] == 0 && remaining[i] == 0
            },
        sum_of(total) < 2 * FRACTION_LIMIT,
        sum_of(used) < 2 * FRACTION_LIMIT,
        sum_of(remaining) < 2 * FRACTION_LIMIT,
    ensures
        result->Ok_0.five_hour matches Some(window) && {
            &&& window.quota_total == sum_of(total)
            &&& window.quota_used == sum_of(used)
            &&& window.quota_remaining == sum_of(remaining)
            &&& 0 <= window.used_percent.value() <= 100 * pow2(1074)
            &&& sum_of(used) == 0 || sum_of(total) == 0 ==> window.used_percent.value() == 0
            &&& sum_of(used) >= sum_of(total) > 0 ==> window.used_percent.value() == 100 * pow2(
                1074,
            )
            &&& !window.remaining_percent.negative()
            &&& rounds_to(
                100 * pow2(1074) - window.used_percent.value(),
                1,
                window.remaining_percent.magnitude(),
            )
        },
{
    let (t, u, r, expiry) = lemma_told_pool(answer, data, time, now_ms, result);
    let buckets = data.balances@;
    let list = counted(buckets, data.plans@, time);
    let window = result->Ok_0.five_hour->Some_0;
    lemma_hundred();
    let totals_of = |bucket: BalanceBucket| bucket.total_units;
    let uses_of = |bucket: BalanceBucket| bucket.used_units;
    let rests_of = |bucket: BalanceBucket| bucket.remaining_units;
    lemma_column(buckets, data.plans@, time, totals_of, total, totals(list), t);
    lemma_column(buckets, data.plans@, time, uses_of, used, uses(list), u);
    lemma_column(buckets, data.plans@, time, rests_of, remaining, rests(list), r);
    lemma_shares(u, t, window.used_percent, sum_of(used), sum_of(total));
    lemma_remaining_of_percent(window.used_percent);
}

/// The pool is reset when the first of its buckets expires, in whole seconds: of those that tell a
/// finite time after zero. Without such a bucket it tells no reset.
pub proof fn law_a_pool_is_reset_with_its_first_bucket(
    answer: BalanceResponse,
    data: BalanceData,
    time: Double,
    now_ms: u64,
    result: Result<ZCodeQuotaSnapshot, Diagnostic>,
)
    requires
        call_ensures(parse_balance_payload, (Ok(answer), now_ms), result),
        result is Ok,
        answer.data == Some(data),
        data.server_time == Some(time) && time.finite() && time.value() >= 0,
    ensures
        result->Ok_0.five_hour is Some,
        result->Ok_0.five_hour->Some_0.resets_at is None ==> forall|i: int|
            0 <= i < data.balances@.len() && summed_up(
                #[trigger] data.balances@[i],
                data.plans@,
                time,
            ) ==> !(data.balances@[i].expires_at matches Some(end) && end.finite() && end.value()
                > 0),
        result->Ok_0.five_hour->Some_0.resets_at matches Some(seconds) ==> exists|i: int|
            0 <= i < data.balances@.len() && summed_up(
                #[trigger] data.balances@[i],
                data.plans@,
                time,
            ) && (data.balances@[i].expires_at matches Some(end) && end.finite() && end.value() > 0
                && seconds * pow2(1074) <= end.value() && (seconds < u64::MAX ==> end.value() < (
            seconds + 1) * pow2(1074)) && forall|j: int|
                0 <= j < data.balances@.len() && summed_up(
                    #[trigger] data.balances@[j],
                    data.plans@,
                    time,
                ) ==> (data.balances@[j].expires_at matches Some(other) ==> other.finite()
                    && other.value() > 0 ==> end.value() <= other.value())),
{
    let (t, u, r, expiry) = lemma_told_pool(answer, data, time, now_ms, result);
    let buckets = data.balances@;
    let list = counted(buckets, data.plans@, time);
    lemma_first_end(buckets, data.plans@, time, expiry);
    if let Some(end) = expiry {
        lemma_whole_part(end);
    }
}

/// The first expiry is that of a bucket that is summed up, and none of those expires before it.
proof fn lemma_first_end(
    buckets: Seq<BalanceBucket>,
    plans: Seq<BalancePlan>,
    time: Double,
    expiry: Option<Double>,
)
    requires
        !time.nan(),
        is_first_expiry(counted(buckets, plans, time), expiry),
    ensures
        forall|i: int|
            0 <= i < buckets.len() && summed_up(#[trigger] buckets[i], plans, time) ==> (
            buckets[i].expires_at matches Some(other) ==> other.finite() && other.value() > 0 ==> (
            expiry matches Some(end) && end.value() <= other.value())),
        expiry matches Some(end) ==> end.finite() && end.value() > 0 && exists|i: int|
            0 <= i < buckets.len() && summed_up(#[trigger] buckets[i], plans, time)
                && buckets[i].expires_at == Some(end),
{
    lemma_scaled_bounds(0);
    let list = counted(buckets, plans, time);
    assert forall|i: int|
        0 <= i < buckets.len() && summed_up(#[trigger] buckets[i], plans, time) implies (
    buckets[i].expires_at matches Some(other) ==> other.finite() && other.value() > 0 ==> (
    expiry matches Some(end) && end.value() <= other.value())) by {
        lemma_summed_up(buckets[i], plans, time);
        lemma_counted(buckets, plans, time, buckets[i]);
        let k = choose|k: int| 0 <= k < list.len() && list[k] == buckets[i];
        assert(expiry_of(list[k]) == expiry_of(buckets[i]));
    }
    if let Some(end) = expiry {
        let k = choose|k: int| 0 <= k < list.len() && #[trigger] expiry_of(list[k]) == expiry;
        assert(list.contains(list[k]));
        lemma_counted(buckets, plans, time, list[k]);
        lemma_summed_up(list[k], plans, time);
        let i = choose|i: int| 0 <= i < buckets.len() && buckets[i] == list[k];
        assert(summed_up(buckets[i], plans, time));
    }
}

/// One thousand is one thousand.
proof fn lemma_thousand()
    ensures
        (Double { bits: THOUSAND }).value() == 1000 * pow2(1074),
        (Double { bits: THOUSAND }).finite(),
        !(Double { bits: THOUSAND }).negative(),
        scaled((Double { bits: THOUSAND }).magnitude()) == 1000 * pow2(1074),
{
    let q = 0x1f_4000_0000_0000int;
    assert(significand(THOUSAND as int) == q && exponent(THOUSAND as int) == 1031);
    lemma2_to64_rest();
    lemma2_to64();
    lemma_pow2_adds(1031, 43);
    let a = pow2(1031) as int;
    assert(q * a == 1000 * (a * 0x800_0000_0000)) by (nonlinear_arith)
        requires
            q == 0x1f_4000_0000_0000int,
    ;
}

/// Where the service tells no time, or one that is not finite or before zero, plans are held
/// against the clock of this machine: its milliseconds divided by a thousand, correctly rounded.
pub proof fn law_the_own_clock_stands_in(
    answer: BalanceResponse,
    data: BalanceData,
    now_ms: u64,
    time: Double,
    result: Result<ZCodeQuotaSnapshot, Diagnostic>,
)
    requires
        call_ensures(parse_balance_payload, (Ok(answer), now_ms), result),
        answer.success == Some(true) || answer.code == Some(0i64),
        answer.data == Some(data),
        data.server_time matches Some(told) ==> !told.finite() || told.value() < 0,
        now_ms < 2 * FRACTION_LIMIT,
        !time.negative(),
        rounds_to(now_ms * pow2(1074), 1000, time.magnitude()),
    ensures
        result is Ok <==> exists|i: int|
            0 <= i < data.balances@.len() && summed_up(
                #[trigger] data.balances@[i],
                data.plans@,
                time,
            ),
{
    assert(is_start_reading(Ok(answer), now_ms, result));
    lemma_scaled_bounds(0);
    lemma_thousand();
    lemma_pow2_pos(1074);
    let unit = pow2(1074) as int;
    let exact = law_whole_numbers_are_representable(now_ms as int);
    law_rounding_keeps_the_representable(exact);
    assert forall|other: Double| #[trigger]
        is_server_time(data.server_time, now_ms, other) implies other == time by {
        assert(is_seconds(now_ms, other));
        let thousand = Double { bits: THOUSAND };
        let count = choose|count: Double|
            !count.negative() && rounds_to(now_ms * pow2(1074), 1, count.magnitude())
                && #[trigger] is_quotient(count, thousand, other);
        law_rounding_is_unique(now_ms * unit, 1, count.magnitude(), exact);
        lemma_rounding_scales(now_ms * unit, 1000, unit, other.magnitude());
        law_rounding_is_unique(now_ms * unit, 1000, other.magnitude(), time.magnitude());
        lemma_same_double(other, time);
    }
    let list = counted(data.balances@, data.plans@, time);
    if list.len() > 0 {
        assert(list.contains(list[0]));
        lemma_counted(data.balances@, data.plans@, time, list[0]);
        lemma_summed_up(list[0], data.plans@, time);
        let i = choose|i: int| 0 <= i < data.balances@.len() && data.balances@[i] == list[0];
        assert(summed_up(data.balances@[i], data.plans@, time));
    }
    if exists|i: int|
        0 <= i < data.balances@.len() && summed_up(#[trigger] data.balances@[i], data.plans@, time) {
        let i = choose|i: int|
            0 <= i < data.balances@.len() && summed_up(
                #[trigger] data.balances@[i],
                data.plans@,
                time,
            );
        lemma_summed_up(data.balances@[i], data.plans@, time);
        lemma_counted(data.balances@, data.plans@, time, data.balances@[i]);
        assert(list.contains(data.balances@[i]));
    }
}

} // verus!
