//! The Codex quota: what the app-server reports, and the snapshot that the meter shows.

use crate::app_server::{command_for, AppServerCommand};
pub use crate::diagnostic::Diagnostic;
use crate::diagnostic::{report, Report};
use crate::double::{lemma_hundred, rounds_to, Double};
use crate::environment::Environment;
use crate::paths::OperatingSystem;
use crate::percent::{
    is_percent, is_remaining, law_remaining_is_a_percentage, lemma_remaining_of_percent,
    remaining_of, valid_percent,
};
use crate::text::{opt_text, same_text, texts};
use vstd::arithmetic::power2::pow2;
use vstd::prelude::*;

verus! {

/// The longest window, in minutes, that counts as short where it is the only one.
pub const DAY_MINUTES: u64 = 1440;

/// One reading of the Codex quota.
#[derive(Debug, Clone)]
pub struct CapacitySnapshot {
    pub source_state: SourceState,
    /// The plan that the app-server names; `None` where it names none.
    pub plan_type: Option<String>,
    /// The account that was signed in when the quota was read; `None` where it is not known.
    pub account_id: Option<String>,
    pub five_hour: Option<QuotaWindow>,
    pub weekly: Option<QuotaWindow>,
    pub full_reset_credits: Option<FullResetCredits>,
    pub observed_at_ms: u64,
}

/// The state of a source that was read.
#[derive(Debug, Clone, Copy, PartialEq, Eq, Structural)]
pub enum SourceState {
    Healthy,
}

/// How much of one quota window is used and left, in per cent.
#[derive(Debug, Clone, Copy, PartialEq, Eq, Structural)]
pub struct QuotaWindow {
    pub used_percent: Double,
    pub remaining_percent: Double,
    pub window_duration_mins: u64,
    pub resets_at: u64,
}

/// How many full resets are available, and when the first of them expires.
#[derive(Debug, Clone, Copy)]
pub struct FullResetCredits {
    pub available_count: u64,
    pub nearest_expiry_at: Option<u64>,
}

/// The answer to `account/rateLimits/read`.
#[derive(Debug, Clone)]
pub struct RateLimitReadResult {
    pub rate_limits: RateLimits,
    pub rate_limit_reset_credits: Option<ResetCreditsWire>,
}

/// The quota windows in an answer, and the plan that it names.
#[derive(Debug, Clone)]
pub struct RateLimits {
    pub primary: Option<QuotaWindowWire>,
    pub secondary: Option<QuotaWindowWire>,
    pub plan_type: Option<String>,
}

/// A quota window as the app-server sends it.
#[derive(Debug, Clone)]
pub struct QuotaWindowWire {
    pub used_percent: Double,
    /// `used_percent` in decimal notation.
    pub used_percent_shown: String,
    pub window_duration_mins: u64,
    pub resets_at: u64,
}

/// The reset credits in an answer.
#[derive(Debug, Clone)]
pub struct ResetCreditsWire {
    pub available_count: u64,
    pub credits: Option<Vec<ResetCreditWire>>,
}

/// One reset credit.
#[derive(Debug, Clone)]
pub struct ResetCreditWire {
    pub status: String,
    pub expires_at: Option<u64>,
}

/// The failure of a window whose percentage is none.
pub open spec fn percent_report(window: QuotaWindowWire) -> Report {
    report("CRV-113"@, "Codex 返回了无效的使用百分比"@, window.used_percent_shown@)
}

/// `window` shows what `wire` says, with what remains of its percentage.
pub open spec fn shows(wire: QuotaWindowWire, window: QuotaWindow) -> bool {
    &&& window.used_percent == wire.used_percent
    &&& is_remaining(wire.used_percent, window.remaining_percent)
    &&& window.window_duration_mins == wire.window_duration_mins
    &&& window.resets_at == wire.resets_at
}

/// `window` shows `wire` where there is one, and is missing where there is none.
pub open spec fn shows_optional(wire: Option<QuotaWindowWire>, window: Option<QuotaWindow>) -> bool {
    match wire {
        Some(wire) => window is Some && shows(wire, window->Some_0),
        None => window is None,
    }
}

/// The short and the long window of two: the shorter one first, the primary one first where
/// they are equally long. A single window is the short one up to a day. The failure is that of
/// the first window, in this order, whose percentage is none.
pub open spec fn classified(
    primary: Option<QuotaWindowWire>,
    secondary: Option<QuotaWindowWire>,
) -> Result<(Option<QuotaWindowWire>, Option<QuotaWindowWire>), Report> {
    match (primary, secondary) {
        (None, None) => Ok((None, None)),
        (Some(window), None) => single(window),
        (None, Some(window)) => single(window),
        (Some(first), Some(second)) => if first.window_duration_mins
            <= second.window_duration_mins {
            pair(first, second)
        } else {
            pair(second, first)
        },
    }
}

/// Where a single window goes.
pub open spec fn single(window: QuotaWindowWire) -> Result<
    (Option<QuotaWindowWire>, Option<QuotaWindowWire>),
    Report,
> {
    if !valid_percent(window.used_percent) {
        Err(percent_report(window))
    } else if window.window_duration_mins <= DAY_MINUTES {
        Ok((Some(window), None))
    } else {
        Ok((None, Some(window)))
    }
}

/// Where two windows go, the shorter one given first.
pub open spec fn pair(short: QuotaWindowWire, long: QuotaWindowWire) -> Result<
    (Option<QuotaWindowWire>, Option<QuotaWindowWire>),
    Report,
> {
    if !valid_percent(short.used_percent) {
        Err(percent_report(short))
    } else if !valid_percent(long.used_percent) {
        Err(percent_report(long))
    } else {
        Ok((Some(short), Some(long)))
    }
}

/// When an available credit expires.
pub open spec fn available_expiry(credit: ResetCreditWire) -> Option<u64> {
    if credit.status@ == "available"@ {
        credit.expires_at
    } else {
        None
    }
}

/// `nearest` is the earliest expiry of the available credits.
pub open spec fn is_nearest_expiry(credits: Seq<ResetCreditWire>, nearest: Option<u64>) -> bool {
    match nearest {
        Some(time) => {
            &&& exists|i: int|
                0 <= i < credits.len() && #[trigger] available_expiry(credits[i]) == Some(time)
            &&& forall|i: int|
                0 <= i < credits.len() ==> (#[trigger] available_expiry(credits[i]) matches Some(
                    other,
                ) ==> time <= other)
        },
        None => forall|i: int|
            0 <= i < credits.len() ==> #[trigger] available_expiry(credits[i]) is None,
    }
}

/// `credits` shows what `wire` says of full resets.
pub open spec fn shows_credits(
    wire: Option<ResetCreditsWire>,
    credits: Option<FullResetCredits>,
) -> bool {
    match wire {
        Some(wire) => {
            &&& credits is Some
            &&& credits->Some_0.available_count == wire.available_count
            &&& match wire.credits {
                Some(rows) => is_nearest_expiry(rows@, credits->Some_0.nearest_expiry_at),
                None => credits->Some_0.nearest_expiry_at is None,
            }
        },
        None => credits is None,
    }
}

/// `result` is the reading of a decoded answer, or of the message of a failed decoding, as seen by
/// an account; where the answer is refused, the failure carries the account too.
pub open spec fn is_reading(
    decoded: Result<RateLimitReadResult, String>,
    account_id: Option<String>,
    observed_at_ms: u64,
    result: Result<CapacitySnapshot, Diagnostic>,
) -> bool {
    match decoded {
        Err(message) => {
            &&& result is Err
            &&& result->Err_0@ == (Report {
                account_id: opt_text(account_id),
                ..report("CRV-112"@, "Codex 配额响应结构不受支持"@, message@)
            })
        },
        Ok(wire) => match classified(wire.rate_limits.primary, wire.rate_limits.secondary) {
            Err(failure) => {
                &&& result is Err
                &&& result->Err_0@ == (Report { account_id: opt_text(account_id), ..failure })
            },
            Ok((short, long)) => {
                &&& result is Ok
                &&& result->Ok_0.source_state == SourceState::Healthy
                &&& opt_text(result->Ok_0.plan_type) == opt_text(wire.rate_limits.plan_type)
                &&& result->Ok_0.account_id == account_id
                &&& shows_optional(short, result->Ok_0.five_hour)
                &&& shows_optional(long, result->Ok_0.weekly)
                &&& shows_credits(wire.rate_limit_reset_credits, result->Ok_0.full_reset_credits)
                &&& result->Ok_0.observed_at_ms == observed_at_ms
            },
        },
    }
}

/// `result` is the reading that a finished request gives, as seen by an account.
pub open spec fn is_account_reading(
    outcome: Result<Result<RateLimitReadResult, String>, Diagnostic>,
    account_id: Option<String>,
    observed_at_ms: u64,
    result: Result<CapacitySnapshot, Diagnostic>,
) -> bool {
    match outcome {
        Ok(decoded) => is_reading(decoded, account_id, observed_at_ms, result),
        Err(diagnostic) => {
            &&& result is Err
            &&& result->Err_0@ == (Report { account_id: opt_text(account_id), ..diagnostic@ })
        },
    }
}

/// A window with what remains of its percentage.
pub fn normalize_window(window: &QuotaWindowWire) -> (result: Result<QuotaWindow, Diagnostic>)
    ensures
        if valid_percent(window.used_percent) {
            result is Ok && shows(*window, result->Ok_0)
        } else {
            result is Err && result->Err_0@ == percent_report(*window)
        },
{
    if !is_percent(&window.used_percent) {
        return Err(
            Diagnostic::new("CRV-113", "Codex 返回了无效的使用百分比").with_detail(
                window.used_percent_shown.as_str(),
            ),
        );
    }
    Ok(
        QuotaWindow {
            used_percent: window.used_percent,
            remaining_percent: remaining_of(&window.used_percent),
            window_duration_mins: window.window_duration_mins,
            resets_at: window.resets_at,
        },
    )
}

/// The short and the long window.
pub fn classify_windows(rate_limits: &RateLimits) -> (result: Result<
    (Option<QuotaWindow>, Option<QuotaWindow>),
    Diagnostic,
>)
    ensures
        match classified(rate_limits.primary, rate_limits.secondary) {
            Err(failure) => result is Err && result->Err_0@ == failure,
            Ok((short, long)) => {
                &&& result is Ok
                &&& shows_optional(short, result->Ok_0.0)
                &&& shows_optional(long, result->Ok_0.1)
            },
        },
{
    match (&rate_limits.primary, &rate_limits.secondary) {
        (None, None) => Ok((None, None)),
        (Some(window), None) => classify_single(window),
        (None, Some(window)) => classify_single(window),
        (Some(first), Some(second)) => {
            if first.window_duration_mins <= second.window_duration_mins {
                classify_pair(first, second)
            } else {
                classify_pair(second, first)
            }
        },
    }
}

fn classify_single(window: &QuotaWindowWire) -> (result: Result<
    (Option<QuotaWindow>, Option<QuotaWindow>),
    Diagnostic,
>)
    ensures
        match single(*window) {
            Err(failure) => result is Err && result->Err_0@ == failure,
            Ok((short, long)) => {
                &&& result is Ok
                &&& shows_optional(short, result->Ok_0.0)
                &&& shows_optional(long, result->Ok_0.1)
            },
        },
{
    match normalize_window(window) {
        Err(diagnostic) => Err(diagnostic),
        Ok(shown) => if shown.window_duration_mins <= DAY_MINUTES {
            Ok((Some(shown), None))
        } else {
            Ok((None, Some(shown)))
        },
    }
}

fn classify_pair(short: &QuotaWindowWire, long: &QuotaWindowWire) -> (result: Result<
    (Option<QuotaWindow>, Option<QuotaWindow>),
    Diagnostic,
>)
    ensures
        match pair(*short, *long) {
            Err(failure) => result is Err && result->Err_0@ == failure,
            Ok((short, long)) => {
                &&& result is Ok
                &&& shows_optional(short, result->Ok_0.0)
                &&& shows_optional(long, result->Ok_0.1)
            },
        },
{
    match normalize_window(short) {
        Err(diagnostic) => Err(diagnostic),
        Ok(first) => match normalize_window(long) {
            Err(diagnostic) => Err(diagnostic),
            Ok(second) => Ok((Some(first), Some(second))),
        },
    }
}

/// The earliest expiry of the available credits.
pub fn nearest_expiry(credits: &Vec<ResetCreditWire>) -> (nearest: Option<u64>)
    ensures
        is_nearest_expiry(credits@, nearest),
{
    let mut nearest: Option<u64> = None;
    let mut i: usize = 0;
    while i < credits.len()
        invariant
            i <= credits.len(),
            is_nearest_expiry(credits@.take(i as int), nearest),
        decreases credits.len() - i,
    {
        let ghost before = credits@.take(i as int);
        let ghost after = credits@.take(i + 1);
        let ghost old_nearest = nearest;
        let expiry: Option<u64> = if same_text(credits[i].status.as_str(), "available") {
            credits[i].expires_at
        } else {
            None
        };
        if let Some(time) = expiry {
            nearest = match nearest {
                Some(best) => if time < best {
                    Some(time)
                } else {
                    Some(best)
                },
                None => Some(time),
            };
        }
        proof {
            assert(after[i as int] == credits@[i as int]);
            assert(available_expiry(after[i as int]) == expiry);
            assert(forall|j: int| 0 <= j < i ==> after[j] == before[j]);
            if old_nearest is Some {
                let k = choose|k: int|
                    0 <= k < before.len() && #[trigger] available_expiry(before[k]) == old_nearest;
                assert(available_expiry(after[k]) == old_nearest);
            }
            assert forall|j: int| 0 <= j < after.len() implies (
            #[trigger] available_expiry(after[j]) matches Some(other) ==> nearest is Some
                && nearest->Some_0 <= other) by {
                if j < i {
                    assert(available_expiry(before[j]) == available_expiry(after[j]));
                }
            }
        }
        i = i + 1;
    }
    proof {
        assert(credits@.take(i as int) =~= credits@);
    }
    nearest
}

/// The snapshot that an answer gives. `decoded` is the answer, or why it could not be decoded.
pub fn parse_snapshot(
    decoded: Result<RateLimitReadResult, String>,
    account_id: Option<String>,
    observed_at_ms: u64,
) -> (result: Result<CapacitySnapshot, Diagnostic>)
    ensures
        is_reading(decoded, account_id, observed_at_ms, result),
{
    let wire: RateLimitReadResult = match decoded {
        Ok(wire) => wire,
        Err(message) => {
            return Err(
                Diagnostic::new("CRV-112", "Codex 配额响应结构不受支持").with_detail(
                    message.as_str(),
                ).with_account(account_id),
            );
        },
    };
    let (five_hour, weekly) = match classify_windows(&wire.rate_limits) {
        Ok(windows) => windows,
        Err(diagnostic) => {
            return Err(diagnostic.with_account(account_id));
        },
    };
    let full_reset_credits: Option<FullResetCredits> = match &wire.rate_limit_reset_credits {
        Some(credits) => {
            let nearest_expiry_at: Option<u64> = match &credits.credits {
                Some(rows) => nearest_expiry(rows),
                None => None,
            };
            Some(FullResetCredits { available_count: credits.available_count, nearest_expiry_at })
        },
        None => None,
    };
    Ok(
        CapacitySnapshot {
            source_state: SourceState::Healthy,
            plan_type: wire.rate_limits.plan_type,
            account_id,
            five_hour,
            weekly,
            full_reset_credits,
            observed_at_ms,
        },
    )
}

/// Reads the Codex quota from an app-server process.
#[derive(Debug)]
pub struct CapacityService {
    pub command: AppServerCommand,
}

impl CapacityService {
    /// The service for the app-server that the environment asks for. `fixture_script` is the
    /// script of the stand-in, `resolved` the Codex command line that was found.
    pub fn from_environment(
        environment: &Environment,
        debug_build: bool,
        fixture_script: &str,
        resolved: Option<String>,
        os: OperatingSystem,
    ) -> (service: CapacityService)
        ensures
            service.command@ == command_for(
                environment@,
                debug_build,
                fixture_script@,
                opt_text(resolved),
                os,
            ),
    {
        CapacityService {
            command: AppServerCommand::from_environment(
                environment,
                debug_build,
                fixture_script,
                resolved,
                os,
            ),
        }
    }

    /// The reading that a finished request gives. `outcome` is the decoded answer, or why the
    /// request failed. A failure is tagged with the account, as a reading is, since cached
    /// readings of another account must not outlive it.
    pub fn read_snapshot(
        &self,
        outcome: Result<Result<RateLimitReadResult, String>, Diagnostic>,
        account_id: Option<String>,
        observed_at_ms: u64,
    ) -> (result: Result<CapacitySnapshot, Diagnostic>)
        ensures
            is_account_reading(outcome, account_id, observed_at_ms, result),
    {
        match outcome {
            Ok(decoded) => parse_snapshot(decoded, account_id, observed_at_ms),
            Err(diagnostic) => Err(diagnostic.with_account(account_id)),
        }
    }
}

/// Which of the two windows the app-server calls primary does not matter, where they are not
/// equally long.
pub proof fn law_window_order_does_not_matter(first: QuotaWindowWire, second: QuotaWindowWire)
    requires
        first.window_duration_mins != second.window_duration_mins,
    ensures
        classified(Some(first), Some(second)) == classified(Some(second), Some(first)),
{
}

/// A missing window stays missing: the meter never shows more windows than were sent, and what
/// it shows is never longer before than after.
pub proof fn law_windows_are_not_invented(
    primary: Option<QuotaWindowWire>,
    secondary: Option<QuotaWindowWire>,
)
    requires
        classified(primary, secondary) is Ok,
    ensures
        ({
            let (short, long) = classified(primary, secondary)->Ok_0;
            &&& short matches Some(window) ==> primary == Some(window) || secondary == Some(window)
            &&& long matches Some(window) ==> primary == Some(window) || secondary == Some(window)
            &&& short is Some && long is Some <==> primary is Some && secondary is Some
            &&& short is None && long is None <==> primary is None && secondary is None
            &&& short is Some && long is Some ==> short->Some_0.window_duration_mins
                <= long->Some_0.window_duration_mins
        }),
{
}

/// A reading belongs to the account that was signed in, and so does every failure: that of the
/// request, and that of an answer which is refused.
pub proof fn law_readings_belong_to_the_account(
    outcome: Result<Result<RateLimitReadResult, String>, Diagnostic>,
    account_id: Option<String>,
    observed_at_ms: u64,
    result: Result<CapacitySnapshot, Diagnostic>,
)
    requires
        is_account_reading(outcome, account_id, observed_at_ms, result),
    ensures
        result is Ok ==> result->Ok_0.account_id == account_id,
        result is Err ==> opt_text(result->Err_0.account_id) == opt_text(account_id),
{
}

/// Every window that is shown holds percentages: what is used, and what is left of one hundred.
pub proof fn law_shown_windows_hold_percentages(
    decoded: Result<RateLimitReadResult, String>,
    account_id: Option<String>,
    observed_at_ms: u64,
    result: Result<CapacitySnapshot, Diagnostic>,
)
    requires
        is_reading(decoded, account_id, observed_at_ms, result),
        result is Ok,
    ensures
        result->Ok_0.five_hour matches Some(window) ==> valid_percent(window.used_percent)
            && valid_percent(window.remaining_percent),
        result->Ok_0.weekly matches Some(window) ==> valid_percent(window.used_percent)
            && valid_percent(window.remaining_percent),
{
    let snapshot = result->Ok_0;
    if let Some(window) = snapshot.five_hour {
        law_remaining_is_a_percentage(window.used_percent, window.remaining_percent);
    }
    if let Some(window) = snapshot.weekly {
        law_remaining_is_a_percentage(window.used_percent, window.remaining_percent);
    }
}

/// Which answers are read: those whose every window tells a number from zero to one hundred, both
/// included. Any other answer fails, for the account, and the failure shows the number of such a
/// window: of two the shorter one, and the primary one where they are equally long.
pub proof fn law_answers_with_percentages_are_read(
    wire: RateLimitReadResult,
    account_id: Option<String>,
    observed_at_ms: u64,
    result: Result<CapacitySnapshot, Diagnostic>,
)
    requires
        call_ensures(parse_snapshot, (Ok(wire), account_id, observed_at_ms), result),
    ensures
        result is Ok <==> {
            &&& wire.rate_limits.primary matches Some(sent) ==> !sent.used_percent.nan() && 0
                <= sent.used_percent.value() <= 100 * pow2(1074)
            &&& wire.rate_limits.secondary matches Some(sent) ==> !sent.used_percent.nan() && 0
                <= sent.used_percent.value() <= 100 * pow2(1074)
        },
        result matches Err(diagnostic) ==> {
            &&& diagnostic.code@ == "CRV-113"@
            &&& exists|sent: QuotaWindowWire|
                (wire.rate_limits.primary == Some(sent) || wire.rate_limits.secondary == Some(sent))
                    && !(!sent.used_percent.nan() && 0 <= sent.used_percent.value() <= 100 * pow2(
                    1074,
                )) && opt_text(diagnostic.detail) == Some(#[trigger] sent.used_percent_shown@)
            &&& opt_text(diagnostic.account_id) == opt_text(account_id)
            &&& match (wire.rate_limits.primary, wire.rate_limits.secondary) {
                (Some(first), Some(second)) => {
                    let (short, long) = if first.window_duration_mins
                        <= second.window_duration_mins {
                        (first, second)
                    } else {
                        (second, first)
                    };
                    !(!short.used_percent.nan() && 0 <= short.used_percent.value() <= 100 * pow2(
                        1074,
                    )) ==> opt_text(diagnostic.detail) == Some(short.used_percent_shown@)
                },
                _ => true,
            }
        },
{
    lemma_hundred();
    assert(is_reading(Ok(wire), account_id, observed_at_ms, result));
    if result is Err {
        let shown = result->Err_0@.detail->Some_0;
        if let Some(first) = wire.rate_limits.primary {
            assert(first.used_percent_shown@ == shown || first.used_percent_shown@ != shown);
        }
        if let Some(second) = wire.rate_limits.secondary {
            assert(second.used_percent_shown@ == shown || second.used_percent_shown@ != shown);
        }
    }
}

/// A window is shown with the numbers that were sent: what is used, how long it is, and the very
/// time of its reset; and with what is left of one hundred, correctly rounded. Two windows are
/// shown by their lengths, the primary one first where they are equally long; one alone is the
/// short one up to a day.
pub proof fn law_windows_are_shown_as_sent(
    wire: RateLimitReadResult,
    account_id: Option<String>,
    observed_at_ms: u64,
    result: Result<CapacitySnapshot, Diagnostic>,
    sent: QuotaWindowWire,
)
    requires
        call_ensures(parse_snapshot, (Ok(wire), account_id, observed_at_ms), result),
        result is Ok,
        wire.rate_limits.primary == Some(sent) || wire.rate_limits.secondary == Some(sent),
    ensures
        ({
            let in_five_hour = match (wire.rate_limits.primary, wire.rate_limits.secondary) {
                (Some(first), Some(second)) => if first.window_duration_mins
                    <= second.window_duration_mins {
                    sent == first
                } else {
                    sent == second
                },
                _ => sent.window_duration_mins <= 1440,
            };
            let chamber = if in_five_hour {
                result->Ok_0.five_hour
            } else {
                result->Ok_0.weekly
            };
            chamber matches Some(window) && {
                &&& window.used_percent == sent.used_percent
                &&& window.window_duration_mins == sent.window_duration_mins
                &&& window.resets_at == sent.resets_at
                &&& !window.remaining_percent.negative()
                &&& rounds_to(
                    100 * pow2(1074) - sent.used_percent.value(),
                    1,
                    window.remaining_percent.magnitude(),
                )
            }
        }),
{
    lemma_hundred();
    assert(is_reading(Ok(wire), account_id, observed_at_ms, result));
    lemma_remaining_of_percent(sent.used_percent);
}

/// Chambers for which no window was sent stay empty; and the plan, the account and the time are
/// those that were given.
pub proof fn law_nothing_else_is_shown(
    wire: RateLimitReadResult,
    account_id: Option<String>,
    observed_at_ms: u64,
    result: Result<CapacitySnapshot, Diagnostic>,
)
    requires
        call_ensures(parse_snapshot, (Ok(wire), account_id, observed_at_ms), result),
        result is Ok,
    ensures
        wire.rate_limits.primary is None && wire.rate_limits.secondary is None
            ==> result->Ok_0.five_hour is None && result->Ok_0.weekly is None,
        wire.rate_limits.primary is None || wire.rate_limits.secondary is None
            ==> result->Ok_0.five_hour is None || result->Ok_0.weekly is None,
        opt_text(result->Ok_0.plan_type) == opt_text(wire.rate_limits.plan_type),
        result->Ok_0.account_id == account_id,
        result->Ok_0.observed_at_ms == observed_at_ms,
        result->Ok_0.source_state == SourceState::Healthy,
{
    assert(is_reading(Ok(wire), account_id, observed_at_ms, result));
}

/// Full resets are shown as they were sent: how many there are, and the earliest time at which an
/// available one expires.
pub proof fn law_full_resets_are_shown_as_sent(
    wire: RateLimitReadResult,
    account_id: Option<String>,
    observed_at_ms: u64,
    result: Result<CapacitySnapshot, Diagnostic>,
)
    requires
        call_ensures(parse_snapshot, (Ok(wire), account_id, observed_at_ms), result),
        result is Ok,
    ensures
        wire.rate_limit_reset_credits is Some <==> result->Ok_0.full_reset_credits is Some,
        wire.rate_limit_reset_credits matches Some(sent) ==> {
            let shown = result->Ok_0.full_reset_credits->Some_0;
            &&& shown.available_count == sent.available_count
            &&& sent.credits is None ==> shown.nearest_expiry_at is None
            &&& sent.credits matches Some(rows) ==> {
                &&& shown.nearest_expiry_at matches Some(time) ==> exists|i: int|
                    0 <= i < rows@.len() && (#[trigger] rows@[i]).status@ == "available"@
                        && rows@[i].expires_at == Some(time)
                &&& forall|i: int|
                    0 <= i < rows@.len() && (#[trigger] rows@[i]).status@ == "available"@
                        && rows@[i].expires_at is Some ==> shown.nearest_expiry_at is Some
                        && shown.nearest_expiry_at->Some_0 <= rows@[i].expires_at->Some_0
            }
        },
{
    assert(is_reading(Ok(wire), account_id, observed_at_ms, result));
    if let Some(sent) = wire.rate_limit_reset_credits {
        if let Some(rows) = sent.credits {
            let nearest = result->Ok_0.full_reset_credits->Some_0.nearest_expiry_at;
            assert(is_nearest_expiry(rows@, nearest));
            if nearest is Some {
                let i = choose|i: int|
                    0 <= i < rows@.len() && #[trigger] available_expiry(rows@[i]) == nearest;
                assert(rows@[i].expires_at == nearest);
            }
            assert forall|i: int|
                0 <= i < rows@.len() && (#[trigger] rows@[i]).status@ == "available"@
                    && rows@[i].expires_at is Some implies nearest is Some && nearest->Some_0
                <= rows@[i].expires_at->Some_0 by {
                assert(available_expiry(rows@[i]) == rows@[i].expires_at);
            }
        }
    }
}

/// An answer that could not be decoded fails with the words of the decoder.
pub proof fn law_undecoded_answers_fail(
    message: String,
    account_id: Option<String>,
    observed_at_ms: u64,
    result: Result<CapacitySnapshot, Diagnostic>,
)
    requires
        call_ensures(parse_snapshot, (Err(message), account_id, observed_at_ms), result),
    ensures
        result matches Err(diagnostic) && diagnostic.code@ == "CRV-112"@ && opt_text(
            diagnostic.detail,
        ) == Some(message@) && opt_text(diagnostic.account_id) == opt_text(account_id),
{
    assert(is_reading(Err(message), account_id, observed_at_ms, result));
}

/// A request that failed gives its own failure, with the account; one that was answered gives the
/// reading of its answer.
pub proof fn law_requests_give_their_outcome(
    service: CapacityService,
    outcome: Result<Result<RateLimitReadResult, String>, Diagnostic>,
    account_id: Option<String>,
    observed_at_ms: u64,
    result: Result<CapacitySnapshot, Diagnostic>,
)
    requires
        call_ensures(
            CapacityService::read_snapshot,
            (&service, outcome, account_id, observed_at_ms),
            result,
        ),
    ensures
        outcome matches Err(failure) ==> (result matches Err(diagnostic) && diagnostic.code@
            == failure.code@ && diagnostic.message@ == failure.message@ && opt_text(
            diagnostic.detail,
        ) == opt_text(failure.detail) && opt_text(diagnostic.account_id) == opt_text(account_id)),
        outcome matches Ok(decoded) ==> is_reading(decoded, account_id, observed_at_ms, result),
{
    assert(is_account_reading(outcome, account_id, observed_at_ms, result));
    if let Err(failure) = outcome {
        let shown = result->Err_0;
        assert(shown@.code == failure@.code);
        assert(shown@.detail == failure@.detail);
    }
}

/// The service asks the app-server that is started as the environment asks for.
pub proof fn law_the_service_starts_what_is_asked_for(
    environment: Environment,
    debug_build: bool,
    fixture_script: &str,
    resolved: Option<String>,
    os: OperatingSystem,
    service: CapacityService,
    command: AppServerCommand,
)
    requires
        call_ensures(
            CapacityService::from_environment,
            (&environment, debug_build, fixture_script, resolved, os),
            service,
        ),
        call_ensures(
            AppServerCommand::from_environment,
            (&environment, debug_build, fixture_script, resolved, os),
            command,
        ),
    ensures
        service.command.executable@ == command.executable@,
        texts(service.command.args@) == texts(command.args@),
{
    assert(service.command@.executable == service.command.executable@);
    assert(command@.executable == command.executable@);
    assert(service.command@.args == texts(service.command.args@));
    assert(command@.args == texts(command.args@));
}

} // verus!
