//! The ZCode quota: what the service answers, and the snapshot that the meter shows.

use crate::capacity::SourceState;
use crate::diagnostic::{plain_report, report, Diagnostic, Report};
use crate::double::{lemma_hundred, rounds_to, Double};
use crate::environment::trimmed_value;
use crate::percent::{
    is_percent, is_remaining, law_remaining_is_a_percentage, lemma_remaining_of_percent,
    remaining_of, valid_percent,
};
use crate::text::{opt_text, same_text, trim, trimmed};
use crate::zcode_plan::{kind_name, PlanKind};
use vstd::arithmetic::power2::pow2;
use vstd::prelude::*;

verus! {

/// One reading of the ZCode quota.
#[derive(Debug)]
pub struct ZCodeQuotaSnapshot {
    pub source_state: SourceState,
    pub five_hour: Option<ZCodeQuotaWindow>,
    pub weekly: Option<ZCodeQuotaWindow>,
    pub plan_level: Option<String>,
    pub plan_kind: Option<String>,
    pub observed_at_ms: u64,
}

/// How much of one quota window is used and left, in per cent and in units.
#[derive(Debug, Clone, Copy, PartialEq, Eq, Structural)]
pub struct ZCodeQuotaWindow {
    pub used_percent: Double,
    pub remaining_percent: Double,
    pub window_duration_mins: u64,
    /// In seconds; the service leaves it out for a window of which nothing is used.
    pub resets_at: Option<u64>,
    pub quota_total: u64,
    pub quota_used: u64,
    pub quota_remaining: u64,
}

/// The answer about a coding plan.
#[derive(Debug)]
pub struct QuotaResponse {
    pub code: Option<i64>,
    pub msg: Option<String>,
    pub success: Option<bool>,
    pub data: Option<QuotaData>,
}

/// The quota windows in an answer, and the level of the plan.
#[derive(Debug)]
pub struct QuotaData {
    pub limits: Vec<QuotaLimit>,
    pub level: Option<String>,
}

/// A quota window as the service sends it.
#[derive(Debug)]
pub struct QuotaLimit {
    pub kind: String,
    pub unit: Option<u64>,
    pub number: Option<u64>,
    pub usage: Option<u64>,
    pub current_value: Option<u64>,
    pub remaining: Option<u64>,
    pub percentage: Option<Double>,
    /// In milliseconds.
    pub next_reset_time: Option<u64>,
}

/// The windows that are told apart.
#[derive(Debug, Clone, Copy, PartialEq, Eq, Structural)]
pub enum WindowClass {
    Any,
    FiveHour,
    Weekly,
}

/// Whether a window counts five hours.
pub open spec fn five_hour(limit: QuotaLimit) -> bool {
    limit.unit == Some(3u64) && limit.number == Some(5u64)
}

/// Whether a window counts a week.
pub open spec fn weekly(limit: QuotaLimit) -> bool {
    limit.unit == Some(6u64) && limit.number == Some(1u64)
}

/// Whether a limit is a credit window of a class.
pub open spec fn belongs(limit: QuotaLimit, class: WindowClass) -> bool {
    &&& limit.kind@ == "CREDIT_LIMIT"@
    &&& match class {
        WindowClass::Any => true,
        WindowClass::FiveHour => five_hour(limit),
        WindowClass::Weekly => weekly(limit),
    }
}

/// When a window is reset, for ordering; a window that does not tell goes first.
pub open spec fn reset_order(limit: QuotaLimit) -> u64 {
    match limit.next_reset_time {
        Some(time) => time,
        None => 0,
    }
}

/// Whether there is a window of a class.
pub open spec fn has_window(limits: Seq<QuotaLimit>, class: WindowClass) -> bool {
    exists|i: int| 0 <= i < limits.len() && belongs(#[trigger] limits[i], class)
}

/// `at` holds the window of a class that is reset first; of several reset at once the one that
/// was sent first.
pub open spec fn is_earliest(limits: Seq<QuotaLimit>, class: WindowClass, at: int) -> bool {
    &&& 0 <= at < limits.len()
    &&& belongs(limits[at], class)
    &&& forall|j: int|
        0 <= j < limits.len() && belongs(#[trigger] limits[j], class) ==> reset_order(limits[at])
            < reset_order(limits[j]) || (reset_order(limits[at]) == reset_order(limits[j]) && at
            <= j)
}

/// `at` holds the credit window that is reset last; of several reset at once the one that was
/// sent last.
pub open spec fn is_latest(limits: Seq<QuotaLimit>, at: int) -> bool {
    &&& 0 <= at < limits.len()
    &&& belongs(limits[at], WindowClass::Any)
    &&& forall|j: int|
        0 <= j < limits.len() && belongs(#[trigger] limits[j], WindowClass::Any) ==> reset_order(
            limits[j],
        ) < reset_order(limits[at]) || (reset_order(limits[j]) == reset_order(limits[at]) && j
            <= at)
}

/// The window of a class that is reset first.
pub open spec fn earliest(limits: Seq<QuotaLimit>, class: WindowClass) -> QuotaLimit {
    limits[choose|at: int| is_earliest(limits, class, at)]
}

/// The credit window that is reset last.
pub open spec fn latest(limits: Seq<QuotaLimit>) -> QuotaLimit {
    limits[choose|at: int| is_latest(limits, at)]
}

/// Whether there are at least two credit windows.
pub open spec fn several(limits: Seq<QuotaLimit>) -> bool {
    exists|i: int, j: int|
        0 <= i < j < limits.len() && belongs(#[trigger] limits[i], WindowClass::Any) && belongs(
            #[trigger] limits[j],
            WindowClass::Any,
        )
}

/// The window for the five-hour chamber: the one that counts five hours, else the one that is
/// reset first.
pub open spec fn short_limit(limits: Seq<QuotaLimit>) -> QuotaLimit {
    if has_window(limits, WindowClass::FiveHour) {
        earliest(limits, WindowClass::FiveHour)
    } else {
        earliest(limits, WindowClass::Any)
    }
}

/// The window for the weekly chamber: the one that counts a week, else, of several, the one that
/// is reset last.
pub open spec fn long_limit(limits: Seq<QuotaLimit>) -> Option<QuotaLimit> {
    if has_window(limits, WindowClass::Weekly) {
        Some(earliest(limits, WindowClass::Weekly))
    } else if several(limits) {
        Some(latest(limits))
    } else {
        None
    }
}

/// How long a window is, in minutes; zero where that is not known.
pub open spec fn duration_of(unit: Option<u64>, number: Option<u64>) -> u64 {
    if unit == Some(3u64) && number == Some(5u64) {
        300
    } else if unit == Some(6u64) && number == Some(1u64) {
        10_080
    } else {
        0
    }
}

/// What is wrong with a window.
pub open spec fn window_fault(limit: QuotaLimit) -> Option<Seq<char>> {
    if limit.percentage is None {
        Some("配额窗口缺少 percentage"@)
    } else if !valid_percent(limit.percentage->Some_0) {
        Some("percentage 超出 0-100 范围"@)
    } else if limit.usage is None {
        Some("配额窗口缺少 usage"@)
    } else if limit.current_value is None {
        Some("配额窗口缺少 currentValue"@)
    } else if limit.remaining is None {
        Some("配额窗口缺少 remaining"@)
    } else {
        None
    }
}

/// The failure of a window with a fault.
pub open spec fn window_report(fault: Seq<char>) -> Report {
    report("CRV-508"@, "ZCode 配额窗口数据异常"@, fault)
}

/// `window` shows a window without fault.
pub open spec fn shows_limit(limit: QuotaLimit, window: ZCodeQuotaWindow) -> bool {
    &&& window_fault(limit) is None
    &&& window.used_percent == limit.percentage->Some_0
    &&& is_remaining(window.used_percent, window.remaining_percent)
    &&& window.window_duration_mins == duration_of(limit.unit, limit.number)
    &&& window.resets_at == match limit.next_reset_time {
        Some(time) => Some((time / 1000) as u64),
        None => None,
    }
    &&& window.quota_total == limit.usage->Some_0
    &&& window.quota_used == limit.current_value->Some_0
    &&& window.quota_remaining == limit.remaining->Some_0
}

/// `result` is the reading of a decoded answer about a coding plan, or of the message of a
/// failed decoding.
pub open spec fn is_coding_reading(
    decoded: Result<QuotaResponse, String>,
    now_ms: u64,
    result: Result<ZCodeQuotaSnapshot, Diagnostic>,
) -> bool {
    match decoded {
        Err(message) => {
            &&& result is Err
            &&& result->Err_0@ == report("CRV-506"@, "ZCode 配额响应无法解析"@, message@)
        },
        Ok(answer) => if answer.success != Some(true) && answer.code != Some(200i64) {
            &&& result is Err
            &&& result->Err_0@ == report(
                "CRV-507"@,
                "ZCode 配额查询失败"@,
                match answer.msg {
                    Some(message) => message@,
                    None => "配额服务未返回成功状态"@,
                },
            )
        } else {
            match answer.data {
                None => {
                    &&& result is Err
                    &&& result->Err_0@ == plain_report("CRV-506"@, "ZCode 配额响应缺少 data"@)
                },
                Some(data) => is_windows_reading(data, now_ms, result),
            }
        },
    }
}

/// `result` is the reading of the windows of an answer: the first fault, the five-hour chamber
/// looked at first; else both chambers.
pub open spec fn is_windows_reading(
    data: QuotaData,
    now_ms: u64,
    result: Result<ZCodeQuotaSnapshot, Diagnostic>,
) -> bool {
    let short = short_limit(data.limits@);
    let long = long_limit(data.limits@);
    if !has_window(data.limits@, WindowClass::Any) {
        &&& result is Err
        &&& result->Err_0@ == report(
            "CRV-508"@,
            "ZCode 配额窗口数据缺失"@,
            "响应中没有 CREDIT_LIMIT 窗口"@,
        )
    } else if window_fault(short) is Some {
        &&& result is Err
        &&& result->Err_0@ == window_report(window_fault(short)->Some_0)
    } else if long is Some && window_fault(long->Some_0) is Some {
        &&& result is Err
        &&& result->Err_0@ == window_report(window_fault(long->Some_0)->Some_0)
    } else {
        &&& result is Ok
        &&& result->Ok_0.source_state == SourceState::Healthy
        &&& result->Ok_0.five_hour is Some
        &&& shows_limit(short, result->Ok_0.five_hour->Some_0)
        &&& match long {
            Some(limit) => result->Ok_0.weekly is Some && shows_limit(
                limit,
                result->Ok_0.weekly->Some_0,
            ),
            None => result->Ok_0.weekly is None,
        }
        &&& opt_text(result->Ok_0.plan_level) == trimmed_value(opt_text(data.level))
        &&& opt_text(result->Ok_0.plan_kind) == Some(kind_name(PlanKind::Coding))
        &&& result->Ok_0.observed_at_ms == now_ms
    }
}

/// Whether a window counts five hours.
pub fn is_five_hour_window(limit: &QuotaLimit) -> (holds: bool)
    ensures
        holds == five_hour(*limit),
{
    match (limit.unit, limit.number) {
        (Some(unit), Some(number)) => unit == 3 && number == 5,
        _ => false,
    }
}

/// Whether a window counts a week.
pub fn is_weekly_window(limit: &QuotaLimit) -> (holds: bool)
    ensures
        holds == weekly(*limit),
{
    match (limit.unit, limit.number) {
        (Some(unit), Some(number)) => unit == 6 && number == 1,
        _ => false,
    }
}

/// How long a window is, in minutes; zero where that is not known.
pub fn window_duration_mins(unit: Option<u64>, number: Option<u64>) -> (minutes: u64)
    ensures
        minutes == duration_of(unit, number),
{
    match (unit, number) {
        (Some(unit), Some(number)) => {
            if unit == 3 && number == 5 {
                300
            } else if unit == 6 && number == 1 {
                10_080
            } else {
                0
            }
        },
        _ => 0,
    }
}

fn window_failure(fault: &str) -> (diagnostic: Diagnostic)
    ensures
        diagnostic@ == window_report(fault@),
{
    Diagnostic::new("CRV-508", "ZCode 配额窗口数据异常").with_detail(fault)
}

/// The window that the meter shows for one that the service sent.
pub fn to_window(limit: &QuotaLimit) -> (result: Result<ZCodeQuotaWindow, Diagnostic>)
    ensures
        match window_fault(*limit) {
            Some(fault) => result is Err && result->Err_0@ == window_report(fault),
            None => result is Ok && shows_limit(*limit, result->Ok_0),
        },
{
    let used_percent: Double = match limit.percentage {
        Some(percentage) => percentage,
        None => {
            return Err(window_failure("配额窗口缺少 percentage"));
        },
    };
    if !is_percent(&used_percent) {
        return Err(window_failure("percentage 超出 0-100 范围"));
    }
    let quota_total: u64 = match limit.usage {
        Some(count) => count,
        None => {
            return Err(window_failure("配额窗口缺少 usage"));
        },
    };
    let quota_used: u64 = match limit.current_value {
        Some(count) => count,
        None => {
            return Err(window_failure("配额窗口缺少 currentValue"));
        },
    };
    let quota_remaining: u64 = match limit.remaining {
        Some(count) => count,
        None => {
            return Err(window_failure("配额窗口缺少 remaining"));
        },
    };
    let resets_at: Option<u64> = match limit.next_reset_time {
        Some(time) => Some(time / 1000),
        None => None,
    };
    Ok(
        ZCodeQuotaWindow {
            used_percent,
            remaining_percent: remaining_of(&used_percent),
            window_duration_mins: window_duration_mins(limit.unit, limit.number),
            resets_at,
            quota_total,
            quota_used,
            quota_remaining,
        },
    )
}

fn is_in_class(limit: &QuotaLimit, class: WindowClass) -> (holds: bool)
    ensures
        holds == belongs(*limit, class),
{
    same_text(limit.kind.as_str(), "CREDIT_LIMIT") && match class {
        WindowClass::Any => true,
        WindowClass::FiveHour => is_five_hour_window(limit),
        WindowClass::Weekly => is_weekly_window(limit),
    }
}

fn order_key(limit: &QuotaLimit) -> (key: u64)
    ensures
        key == reset_order(*limit),
{
    match limit.next_reset_time {
        Some(time) => time,
        None => 0,
    }
}

/// The position of the window of a class that is reset first.
fn find_earliest(limits: &Vec<QuotaLimit>, class: WindowClass) -> (found: Option<usize>)
    ensures
        match found {
            Some(at) => is_earliest(limits@, class, at as int) && has_window(limits@, class)
                && earliest(limits@, class) == limits@[at as int],
            None => !has_window(limits@, class),
        },
{
    let mut found: Option<usize> = None;
    let mut i: usize = 0;
    while i < limits.len()
        invariant
            i <= limits.len(),
            match found {
                Some(at) => {
                    &&& at < i
                    &&& belongs(limits@[at as int], class)
                    &&& forall|j: int|
                        0 <= j < i && belongs(#[trigger] limits@[j], class) ==> reset_order(
                            limits@[at as int],
                        ) < reset_order(limits@[j]) || (reset_order(limits@[at as int])
                            == reset_order(limits@[j]) && at <= j)
                },
                None => forall|j: int| 0 <= j < i ==> !belongs(#[trigger] limits@[j], class),
            },
        decreases limits.len() - i,
    {
        if is_in_class(&limits[i], class) {
            let better: bool = match found {
                Some(at) => order_key(&limits[i]) < order_key(&limits[at]),
                None => true,
            };
            if better {
                found = Some(i);
            }
        }
        i = i + 1;
    }
    proof {
        if found is Some {
            let at = found->Some_0 as int;
            assert(is_earliest(limits@, class, at));
            let other = choose|other: int| is_earliest(limits@, class, other);
            assert(belongs(limits@[other], class) && belongs(limits@[at], class));
            assert(other == at);
        }
    }
    found
}

/// The position of the credit window that is reset last.
fn find_latest(limits: &Vec<QuotaLimit>) -> (found: Option<usize>)
    ensures
        match found {
            Some(at) => is_latest(limits@, at as int) && latest(limits@) == limits@[at as int],
            None => !has_window(limits@, WindowClass::Any),
        },
{
    let mut found: Option<usize> = None;
    let mut i: usize = 0;
    while i < limits.len()
        invariant
            i <= limits.len(),
            match found {
                Some(at) => {
                    &&& at < i
                    &&& belongs(limits@[at as int], WindowClass::Any)
                    &&& forall|j: int|
                        0 <= j < i && belongs(#[trigger] limits@[j], WindowClass::Any)
                            ==> reset_order(limits@[j]) < reset_order(limits@[at as int]) || (
                        reset_order(limits@[j]) == reset_order(limits@[at as int]) && j <= at)
                },
                None => forall|j: int|
                    0 <= j < i ==> !belongs(#[trigger] limits@[j], WindowClass::Any),
            },
        decreases limits.len() - i,
    {
        if is_in_class(&limits[i], WindowClass::Any) {
            let better: bool = match found {
                Some(at) => order_key(&limits[at]) <= order_key(&limits[i]),
                None => true,
            };
            if better {
                found = Some(i);
            }
        }
        i = i + 1;
    }
    proof {
        if found is Some {
            let at = found->Some_0 as int;
            assert(is_latest(limits@, at));
            let other = choose|other: int| is_latest(limits@, other);
            assert(belongs(limits@[other], WindowClass::Any));
            assert(other == at);
        }
    }
    found
}

/// The positions of the windows for the two chambers.
fn find_chambers(limits: &Vec<QuotaLimit>) -> (found: Option<(usize, Option<usize>)>)
    ensures
        match found {
            Some((short, long)) => {
                &&& has_window(limits@, WindowClass::Any)
                &&& short < limits@.len()
                &&& limits@[short as int] == short_limit(limits@)
                &&& match long {
                    Some(long) => long < limits@.len() && long_limit(limits@) == Some(
                        limits@[long as int],
                    ),
                    None => long_limit(limits@) is None,
                }
            },
            None => !has_window(limits@, WindowClass::Any),
        },
{
    let first: usize = match find_earliest(limits, WindowClass::Any) {
        Some(first) => first,
        None => {
            return None;
        },
    };
    let last: usize = match find_latest(limits) {
        Some(last) => last,
        None => {
            return None;
        },
    };
    proof {
        assert(first != last ==> several(limits@)) by {
            if first < last {
                assert(belongs(limits@[first as int], WindowClass::Any) && belongs(
                    limits@[last as int],
                    WindowClass::Any,
                ));
            }
            if last < first {
                assert(belongs(limits@[last as int], WindowClass::Any) && belongs(
                    limits@[first as int],
                    WindowClass::Any,
                ));
            }
        }
        assert(first == last ==> !several(limits@)) by {
            if first == last && several(limits@) {
                let (i, j) = choose|i: int, j: int|
                    0 <= i < j < limits@.len() && belongs(
                        #[trigger] limits@[i],
                        WindowClass::Any,
                    ) && belongs(#[trigger] limits@[j], WindowClass::Any);
                assert(belongs(limits@[i], WindowClass::Any));
                assert(belongs(limits@[j], WindowClass::Any));
                assert(false);
            }
        }
    }
    let short: usize = match find_earliest(limits, WindowClass::FiveHour) {
        Some(at) => at,
        None => first,
    };
    let long: Option<usize> = match find_earliest(limits, WindowClass::Weekly) {
        Some(at) => Some(at),
        None => if first != last {
            Some(last)
        } else {
            None
        },
    };
    Some((short, long))
}

fn level_of(level: &Option<String>) -> (shown: Option<String>)
    ensures
        opt_text(shown) == trimmed_value(opt_text(*level)),
{
    match level {
        Some(level) => {
            let inner: &str = trim(level.as_str());
            if inner.is_empty() {
                None
            } else {
                Some(inner.to_owned())
            }
        },
        None => None,
    }
}

fn read_windows(data: &QuotaData, now_ms: u64) -> (result: Result<ZCodeQuotaSnapshot, Diagnostic>)
    ensures
        is_windows_reading(*data, now_ms, result),
{
    let (short, long) = match find_chambers(&data.limits) {
        Some(chambers) => chambers,
        None => {
            return Err(
                Diagnostic::new("CRV-508", "ZCode 配额窗口数据缺失").with_detail(
                    "响应中没有 CREDIT_LIMIT 窗口",
                ),
            );
        },
    };
    let five_hour: ZCodeQuotaWindow = match to_window(&data.limits[short]) {
        Ok(window) => window,
        Err(diagnostic) => {
            return Err(diagnostic);
        },
    };
    let weekly: Option<ZCodeQuotaWindow> = match long {
        Some(at) => match to_window(&data.limits[at]) {
            Ok(window) => Some(window),
            Err(diagnostic) => {
                return Err(diagnostic);
            },
        },
        None => None,
    };
    Ok(
        ZCodeQuotaSnapshot {
            source_state: SourceState::Healthy,
            five_hour: Some(five_hour),
            weekly,
            plan_level: level_of(&data.level),
            plan_kind: Some(PlanKind::Coding.snapshot_kind().to_owned()),
            observed_at_ms: now_ms,
        },
    )
}

/// The snapshot that an answer about a coding plan gives. `decoded` is the answer, or why it
/// could not be decoded.
pub fn parse_quota_payload(decoded: Result<QuotaResponse, String>, now_ms: u64) -> (result: Result<
    ZCodeQuotaSnapshot,
    Diagnostic,
>)
    ensures
        is_coding_reading(decoded, now_ms, result),
{
    let answer: QuotaResponse = match decoded {
        Ok(answer) => answer,
        Err(message) => {
            return Err(
                Diagnostic::new("CRV-506", "ZCode 配额响应无法解析").with_detail(
                    message.as_str(),
                ),
            );
        },
    };
    let accepted: bool = match answer.success {
        Some(success) => success,
        None => false,
    };
    let ok_code: bool = match answer.code {
        Some(code) => code == 200,
        None => false,
    };
    if !accepted && !ok_code {
        let message: String = match answer.msg {
            Some(message) => message,
            None => "配额服务未返回成功状态".to_owned(),
        };
        return Err(Diagnostic::new("CRV-507", "ZCode 配额查询失败").with_detail(message.as_str()));
    }
    match &answer.data {
        None => Err(Diagnostic::new("CRV-506", "ZCode 配额响应缺少 data")),
        Some(data) => read_windows(data, now_ms),
    }
}

/// Among the first `n` windows that were sent, `at` is the one of a class that is reset first.
spec fn leads(limits: Seq<QuotaLimit>, class: WindowClass, n: int, at: int) -> bool {
    &&& 0 <= at < n
    &&& belongs(limits[at], class)
    &&& forall|j: int|
        0 <= j < n && belongs(#[trigger] limits[j], class) ==> reset_order(limits[at])
            < reset_order(limits[j]) || (reset_order(limits[at]) == reset_order(limits[j]) && at
            <= j)
}

/// Among the first windows that were sent, one of a class is reset first, where there is one.
proof fn lemma_earliest_up_to(limits: Seq<QuotaLimit>, class: WindowClass, n: int, some: int) -> (at:
    int)
    requires
        0 <= some < n <= limits.len(),
        belongs(limits[some], class),
    ensures
        leads(limits, class, n, at),
    decreases n,
{
    let last = n - 1;
    if some == last && forall|i: int| 0 <= i < last ==> !belongs(#[trigger] limits[i], class) {
        last
    } else {
        let other = if some == last {
            choose|i: int| 0 <= i < last && belongs(#[trigger] limits[i], class)
        } else {
            some
        };
        let at = lemma_earliest_up_to(limits, class, last, other);
        if belongs(limits[last], class) && reset_order(limits[last]) < reset_order(limits[at]) {
            last
        } else {
            at
        }
    }
}

/// Where there are windows of a class, one of them is reset first.
proof fn lemma_earliest(limits: Seq<QuotaLimit>, class: WindowClass)
    requires
        has_window(limits, class),
    ensures
        is_earliest(limits, class, choose|at: int| is_earliest(limits, class, at)),
        belongs(earliest(limits, class), class),
        limits.contains(earliest(limits, class)),
{
    let some = choose|i: int| 0 <= i < limits.len() && belongs(#[trigger] limits[i], class);
    let at = lemma_earliest_up_to(limits, class, limits.len() as int, some);
    assert(is_earliest(limits, class, at));
    let chosen = choose|at: int| is_earliest(limits, class, at);
    assert(is_earliest(limits, class, chosen));
}

/// A window that counts five hours is shown in the five-hour chamber and one that counts a week
/// in the weekly chamber, in whatever order they are sent and whenever they are reset.
pub proof fn law_windows_go_to_their_chambers(limits: Seq<QuotaLimit>)
    ensures
        has_window(limits, WindowClass::FiveHour) ==> belongs(
            short_limit(limits),
            WindowClass::FiveHour,
        ) && limits.contains(short_limit(limits)),
        has_window(limits, WindowClass::Weekly) ==> (long_limit(limits) matches Some(limit)
            && belongs(limit, WindowClass::Weekly) && limits.contains(limit)),
        has_window(limits, WindowClass::Any) ==> belongs(short_limit(limits), WindowClass::Any)
            && limits.contains(short_limit(limits)),
{
    if has_window(limits, WindowClass::FiveHour) {
        lemma_earliest(limits, WindowClass::FiveHour);
    }
    if has_window(limits, WindowClass::Weekly) {
        lemma_earliest(limits, WindowClass::Weekly);
    }
    if has_window(limits, WindowClass::Any) {
        lemma_earliest(limits, WindowClass::Any);
    }
}

/// A shown window shows percentages: what is used, and what is left of one hundred.
pub proof fn law_shown_windows_hold_percentages(limit: QuotaLimit, window: ZCodeQuotaWindow)
    requires
        shows_limit(limit, window),
    ensures
        valid_percent(window.used_percent),
        valid_percent(window.remaining_percent),
{
    law_remaining_is_a_percentage(window.used_percent, window.remaining_percent);
}

/// Among the first `n` windows that were sent, `at` is the credit window that is reset last.
spec fn trails(limits: Seq<QuotaLimit>, n: int, at: int) -> bool {
    &&& 0 <= at < n
    &&& belongs(limits[at], WindowClass::Any)
    &&& forall|j: int|
        0 <= j < n && belongs(#[trigger] limits[j], WindowClass::Any) ==> reset_order(limits[j])
            < reset_order(limits[at]) || (reset_order(limits[j]) == reset_order(limits[at]) && j
            <= at)
}

/// Among the first windows that were sent, one credit window is reset last, where there is one.
proof fn lemma_latest_up_to(limits: Seq<QuotaLimit>, n: int, some: int) -> (at: int)
    requires
        0 <= some < n <= limits.len(),
        belongs(limits[some], WindowClass::Any),
    ensures
        trails(limits, n, at),
    decreases n,
{
    let last = n - 1;
    if some == last && forall|i: int|
        0 <= i < last ==> !belongs(#[trigger] limits[i], WindowClass::Any) {
        last
    } else {
        let other = if some == last {
            choose|i: int| 0 <= i < last && belongs(#[trigger] limits[i], WindowClass::Any)
        } else {
            some
        };
        let at = lemma_latest_up_to(limits, last, other);
        if belongs(limits[last], WindowClass::Any) && reset_order(limits[at]) <= reset_order(
            limits[last],
        ) {
            last
        } else {
            at
        }
    }
}

/// Where there are credit windows, one of them is reset last.
proof fn lemma_latest(limits: Seq<QuotaLimit>)
    requires
        has_window(limits, WindowClass::Any),
    ensures
        is_latest(limits, choose|at: int| is_latest(limits, at)),
{
    let some = choose|i: int|
        0 <= i < limits.len() && belongs(#[trigger] limits[i], WindowClass::Any);
    let at = lemma_latest_up_to(limits, limits.len() as int, some);
    assert(is_latest(limits, at));
}

/// A limit tells all that a window is made of, and its percentage is a number from zero to one
/// hundred, both included.
pub open spec fn complete_limit(limit: QuotaLimit) -> bool {
    &&& limit.percentage matches Some(percent) && !percent.nan() && 0 <= percent.value() <= 100
        * pow2(1074)
    &&& limit.usage is Some
    &&& limit.current_value is Some
    &&& limit.remaining is Some
}

/// A window holds the numbers of a limit: the percentage and what is left of one hundred,
/// correctly rounded; the units; its length in minutes; and the reset in whole seconds.
pub open spec fn holds_numbers_of(window: ZCodeQuotaWindow, limit: QuotaLimit) -> bool {
    &&& limit.percentage == Some(window.used_percent)
    &&& !window.remaining_percent.negative()
    &&& rounds_to(
        100 * pow2(1074) - window.used_percent.value(),
        1,
        window.remaining_percent.magnitude(),
    )
    &&& limit.usage == Some(window.quota_total)
    &&& limit.current_value == Some(window.quota_used)
    &&& limit.remaining == Some(window.quota_remaining)
    &&& limit.unit == Some(3u64) && limit.number == Some(5u64) ==> window.window_duration_mins == 5
        * 60
    &&& limit.unit == Some(6u64) && limit.number == Some(1u64) ==> window.window_duration_mins == 7
        * 24 * 60
    &&& !(limit.unit == Some(3u64) && limit.number == Some(5u64)) && !(limit.unit == Some(6u64)
        && limit.number == Some(1u64)) ==> window.window_duration_mins == 0
    &&& limit.next_reset_time is None ==> window.resets_at is None
    &&& limit.next_reset_time matches Some(time) ==> (window.resets_at matches Some(seconds)
        && seconds * 1000 <= time < seconds * 1000 + 1000)
}

/// Which limits are shown: those that tell a percentage from zero to one hundred, both included,
/// and their units. They are shown with their numbers; any other fails by what it lacks first.
pub proof fn law_complete_limits_are_shown(
    limit: QuotaLimit,
    result: Result<ZCodeQuotaWindow, Diagnostic>,
)
    requires
        call_ensures(to_window, (&limit,), result),
    ensures
        result is Ok <==> (limit.percentage matches Some(percent) && !percent.nan() && 0
            <= percent.value() <= 100 * pow2(1074)) && limit.usage is Some
            && limit.current_value is Some && limit.remaining is Some,
        result matches Ok(window) ==> holds_numbers_of(window, limit),
        result matches Err(diagnostic) ==> diagnostic.code@ == "CRV-508"@ && opt_text(
            diagnostic.detail,
        ) == Some(
            if limit.percentage is None {
                "配额窗口缺少 percentage"@
            } else if !(!limit.percentage->Some_0.nan() && 0 <= limit.percentage->Some_0.value()
                <= 100 * pow2(1074)) {
                "percentage 超出 0-100 范围"@
            } else if limit.usage is None {
                "配额窗口缺少 usage"@
            } else if limit.current_value is None {
                "配额窗口缺少 currentValue"@
            } else {
                "配额窗口缺少 remaining"@
            },
        ),
{
    lemma_hundred();
    lemma_shown(limit);
    if let Err(diagnostic) = result {
        assert(diagnostic@.detail == opt_text(diagnostic.detail));
    }
}

/// A limit without fault is complete, and what shows it holds its numbers.
proof fn lemma_shown(limit: QuotaLimit)
    ensures
        window_fault(limit) is None <==> complete_limit(limit),
        forall|window: ZCodeQuotaWindow| #[trigger]
            shows_limit(limit, window) ==> holds_numbers_of(window, limit),
{
    lemma_hundred();
    assert forall|window: ZCodeQuotaWindow| #[trigger]
        shows_limit(limit, window) implies holds_numbers_of(window, limit) by {
        lemma_remaining_of_percent(window.used_percent);
    }
}

/// Which answers are readings: those that the service calls a success, by its flag or by the code
/// 200, and that hold data with a credit limit, where every credit limit is complete. An answer
/// that is refused tells the words of the service.
pub proof fn law_accepted_answers_are_read(
    answer: QuotaResponse,
    now_ms: u64,
    result: Result<ZCodeQuotaSnapshot, Diagnostic>,
)
    requires
        call_ensures(parse_quota_payload, (Ok(answer), now_ms), result),
    ensures
        !(answer.success == Some(true) || answer.code == Some(200i64)) ==> (result matches Err(
            diagnostic,
        ) && diagnostic.code@ == "CRV-507"@ && (answer.msg matches Some(message) ==> opt_text(
            diagnostic.detail,
        ) == Some(message@))),
        (answer.success == Some(true) || answer.code == Some(200i64)) && answer.data is None ==> (
        result matches Err(diagnostic) && diagnostic.code@ == "CRV-506"@),
        (answer.success == Some(true) || answer.code == Some(200i64)) ==> (answer.data matches Some(
            data,
        ) ==> {
            let limits = data.limits@;
            let any = exists|i: int|
                0 <= i < limits.len() && (#[trigger] limits[i]).kind@ == "CREDIT_LIMIT"@;
            &&& !any ==> (result matches Err(diagnostic) && diagnostic.code@ == "CRV-508"@)
            &&& any && (forall|i: int|
                0 <= i < limits.len() && (#[trigger] limits[i]).kind@ == "CREDIT_LIMIT"@
                    ==> complete_limit(limits[i])) ==> result is Ok
            &&& (forall|i: int|
                0 <= i < limits.len() && (#[trigger] limits[i]).kind@ == "CREDIT_LIMIT"@
                    ==> !complete_limit(limits[i])) ==> (result matches Err(diagnostic)
                && diagnostic.code@ == "CRV-508"@)
        }),
        result matches Ok(snapshot) ==> {
            &&& snapshot.source_state == SourceState::Healthy
            &&& snapshot.observed_at_ms == now_ms
            &&& opt_text(snapshot.plan_kind) == Some("coding_plan"@)
            &&& answer.data matches Some(data) && match data.level {
                Some(level) => if trimmed(level@).len() == 0 {
                    snapshot.plan_level is None
                } else {
                    opt_text(snapshot.plan_level) == Some(trimmed(level@))
                },
                None => snapshot.plan_level is None,
            }
        },
{
    assert(is_coding_reading(Ok(answer), now_ms, result));
    if let Err(diagnostic) = result {
        assert(diagnostic@.code == diagnostic.code@);
        assert(diagnostic@.detail == opt_text(diagnostic.detail));
    }
    if let Some(data) = answer.data {
        let limits = data.limits@;
        assert forall|i: int| 0 <= i < limits.len() implies (
        (#[trigger] limits[i]).kind@ == "CREDIT_LIMIT"@ <==> belongs(
            limits[i],
            WindowClass::Any,
        )) by {}
        law_windows_go_to_their_chambers(limits);
        if has_window(limits, WindowClass::Any) {
            lemma_latest(limits);
            let short = short_limit(limits);
            let at = choose|at: int| 0 <= at < limits.len() && limits[at] == short;
            assert(limits.contains(short));
            assert(limits[at].kind@ == "CREDIT_LIMIT"@);
            lemma_shown(short);
            if let Some(long) = long_limit(limits) {
                assert(limits.contains(long));
                let other = choose|other: int| 0 <= other < limits.len() && limits[other] == long;
                assert(limits[other].kind@ == "CREDIT_LIMIT"@);
                lemma_shown(long);
            }
        }
    }
}

/// An answer that cannot be decoded fails with the words of the decoder.
pub proof fn law_undecoded_answers_fail(
    message: String,
    now_ms: u64,
    result: Result<ZCodeQuotaSnapshot, Diagnostic>,
)
    requires
        call_ensures(parse_quota_payload, (Err(message), now_ms), result),
    ensures
        result matches Err(diagnostic) && diagnostic.code@ == "CRV-506"@ && opt_text(
            diagnostic.detail,
        ) == Some(message@),
{
    assert(is_coding_reading(Err(message), now_ms, result));
    assert(result->Err_0@.detail == opt_text(result->Err_0.detail));
}

/// Which limit the five-hour chamber shows: a credit limit of five hours where one was sent, else
/// any credit limit; of these the one that is reset first, one without a reset before all others,
/// and of those reset at once the one sent first.
pub proof fn law_the_five_hour_chamber(
    answer: QuotaResponse,
    now_ms: u64,
    result: Result<ZCodeQuotaSnapshot, Diagnostic>,
    five_hours: bool,
) -> (at: int)
    requires
        call_ensures(parse_quota_payload, (Ok(answer), now_ms), result),
        result is Ok,
        five_hours <==> answer.data is Some && exists|i: int|
            0 <= i < answer.data->Some_0.limits@.len() && (
            #[trigger] answer.data->Some_0.limits@[i]).kind@ == "CREDIT_LIMIT"@
                && answer.data->Some_0.limits@[i].unit == Some(3u64)
                && answer.data->Some_0.limits@[i].number == Some(5u64),
    ensures
        answer.data matches Some(data) && 0 <= at < data.limits@.len() && ({
            let limit = data.limits@[at];
            &&& result->Ok_0.five_hour matches Some(window) && holds_numbers_of(window, limit)
            &&& limit.kind@ == "CREDIT_LIMIT"@
            &&& five_hours ==> limit.unit == Some(3u64) && limit.number == Some(5u64)
            &&& forall|j: int|
                0 <= j < data.limits@.len() && (#[trigger] data.limits@[j]).kind@
                    == "CREDIT_LIMIT"@ && (five_hours ==> data.limits@[j].unit == Some(3u64)
                    && data.limits@[j].number == Some(5u64)) ==> match (
                    limit.next_reset_time,
                    data.limits@[j].next_reset_time,
                ) {
                    (Some(time), Some(other)) => time < other || (time == other && at <= j),
                    (None, Some(other)) => 0 < other || at <= j,
                    (Some(time), None) => time == 0 && at <= j,
                    (None, None) => at <= j,
                }
        }),
{
    assert(is_coding_reading(Ok(answer), now_ms, result));
    let limits = answer.data->Some_0.limits@;
    let class = if five_hours {
        WindowClass::FiveHour
    } else {
        WindowClass::Any
    };
    assert(five_hours <==> has_window(limits, WindowClass::FiveHour)) by {
        if five_hours {
            let i = choose|i: int|
                0 <= i < limits.len() && (#[trigger] limits[i]).kind@ == "CREDIT_LIMIT"@
                    && limits[i].unit == Some(3u64) && limits[i].number == Some(5u64);
            assert(belongs(limits[i], WindowClass::FiveHour));
        }
    }
    lemma_earliest(limits, class);
    let at = choose|at: int| is_earliest(limits, class, at);
    lemma_shown(limits[at]);
    assert forall|j: int|
        0 <= j < limits.len() && (#[trigger] limits[j]).kind@ == "CREDIT_LIMIT"@ && (five_hours
            ==> limits[j].unit == Some(3u64) && limits[j].number == Some(5u64)) implies match (
        limits[at].next_reset_time,
        limits[j].next_reset_time,
    ) {
        (Some(time), Some(other)) => time < other || (time == other && at <= j),
        (None, Some(other)) => 0 < other || at <= j,
        (Some(time), None) => time == 0 && at <= j,
        (None, None) => at <= j,
    } by {
        assert(belongs(limits[j], class));
    }
    at
}

/// Which limit the weekly chamber shows: a credit limit of a week where one was sent, of several
/// the one that is reset first; else, of several credit limits, the one that is reset last. With
/// one credit limit alone that is not of a week the chamber is empty.
pub proof fn law_the_weekly_chamber(
    answer: QuotaResponse,
    now_ms: u64,
    result: Result<ZCodeQuotaSnapshot, Diagnostic>,
    week: bool,
) -> (at: int)
    requires
        call_ensures(parse_quota_payload, (Ok(answer), now_ms), result),
        result is Ok,
        week <==> answer.data is Some && exists|i: int|
            0 <= i < answer.data->Some_0.limits@.len() && (
            #[trigger] answer.data->Some_0.limits@[i]).kind@ == "CREDIT_LIMIT"@
                && answer.data->Some_0.limits@[i].unit == Some(6u64)
                && answer.data->Some_0.limits@[i].number == Some(1u64),
    ensures
        answer.data matches Some(data) && ({
            let several = exists|i: int, j: int|
                0 <= i < j < data.limits@.len() && (#[trigger] data.limits@[i]).kind@
                    == "CREDIT_LIMIT"@ && (#[trigger] data.limits@[j]).kind@ == "CREDIT_LIMIT"@;
            let limit = data.limits@[at];
            &&& result->Ok_0.weekly is Some <==> week || several
            &&& result->Ok_0.weekly matches Some(window) ==> {
                &&& 0 <= at < data.limits@.len()
                &&& holds_numbers_of(window, limit)
                &&& limit.kind@ == "CREDIT_LIMIT"@
                &&& week ==> limit.unit == Some(6u64) && limit.number == Some(1u64)
                &&& week ==> forall|j: int|
                    0 <= j < data.limits@.len() && (#[trigger] data.limits@[j]).kind@
                        == "CREDIT_LIMIT"@ && data.limits@[j].unit == Some(6u64)
                        && data.limits@[j].number == Some(1u64) ==> match (
                        limit.next_reset_time,
                        data.limits@[j].next_reset_time,
                    ) {
                        (Some(time), Some(other)) => time < other || (time == other && at <= j),
                        (None, Some(other)) => 0 < other || at <= j,
                        (Some(time), None) => time == 0 && at <= j,
                        (None, None) => at <= j,
                    }
                &&& !week ==> forall|j: int|
                    0 <= j < data.limits@.len() && (#[trigger] data.limits@[j]).kind@
                        == "CREDIT_LIMIT"@ ==> match (
                        limit.next_reset_time,
                        data.limits@[j].next_reset_time,
                    ) {
                        (Some(time), Some(other)) => other < time || (time == other && j <= at),
                        (None, Some(other)) => other == 0 && j <= at,
                        (Some(time), None) => 0 < time || j <= at,
                        (None, None) => j <= at,
                    }
            }
        }),
{
    assert(is_coding_reading(Ok(answer), now_ms, result));
    let limits = answer.data->Some_0.limits@;
    assert(week <==> has_window(limits, WindowClass::Weekly)) by {
        if week {
            let i = choose|i: int|
                0 <= i < limits.len() && (#[trigger] limits[i]).kind@ == "CREDIT_LIMIT"@
                    && limits[i].unit == Some(6u64) && limits[i].number == Some(1u64);
            assert(belongs(limits[i], WindowClass::Weekly));
        }
    }
    let many = exists|i: int, j: int|
        0 <= i < j < limits.len() && (#[trigger] limits[i]).kind@ == "CREDIT_LIMIT"@ && (
        #[trigger] limits[j]).kind@ == "CREDIT_LIMIT"@;
    assert(many <==> several(limits)) by {
        if many {
            let (i, j) = choose|i: int, j: int|
                0 <= i < j < limits.len() && (#[trigger] limits[i]).kind@ == "CREDIT_LIMIT"@ && (
                #[trigger] limits[j]).kind@ == "CREDIT_LIMIT"@;
            assert(belongs(limits[i], WindowClass::Any) && belongs(limits[j], WindowClass::Any));
        }
    }
    let at = if week {
        lemma_earliest(limits, WindowClass::Weekly);
        choose|at: int| is_earliest(limits, WindowClass::Weekly, at)
    } else {
        lemma_latest(limits);
        choose|at: int| is_latest(limits, at)
    };
    lemma_shown(limits[at]);
    if week {
        assert forall|j: int|
            0 <= j < limits.len() && (#[trigger] limits[j]).kind@ == "CREDIT_LIMIT"@
                && limits[j].unit == Some(6u64) && limits[j].number == Some(1u64) implies match (
            limits[at].next_reset_time,
            limits[j].next_reset_time,
        ) {
            (Some(time), Some(other)) => time < other || (time == other && at <= j),
            (None, Some(other)) => 0 < other || at <= j,
            (Some(time), None) => time == 0 && at <= j,
            (None, None) => at <= j,
        } by {
            assert(belongs(limits[j], WindowClass::Weekly));
        }
    } else {
        assert forall|j: int|
            0 <= j < limits.len() && (#[trigger] limits[j]).kind@ == "CREDIT_LIMIT"@ implies match (
            limits[at].next_reset_time,
            limits[j].next_reset_time,
        ) {
            (Some(time), Some(other)) => other < time || (time == other && j <= at),
            (None, Some(other)) => other == 0 && j <= at,
            (Some(time), None) => 0 < time || j <= at,
            (None, None) => j <= at,
        } by {
            assert(belongs(limits[j], WindowClass::Any));
        }
    }
    at
}

} // verus!
