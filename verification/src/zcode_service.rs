//! Reading the ZCode quota: from a file that stands in for the service, or from the service.

use crate::diagnostic::{report, Diagnostic, Report};
use crate::environment::{lookup, Environment};
use crate::text::opt_text;
use crate::zcode_balance::{
    is_refused_start, is_start_reading, law_refusals_give_no_reading, parse_balance_payload,
    refused_start, BalanceResponse,
};
use crate::zcode_plan::{
    availability, config_request, first_read, law_unwanted_start_plans_are_never_chosen,
    outcome_of, read_config_request, read_plan_cache_availability, resolve_quota_request,
    resolved_request, ConfigAttempt, PlanCacheFile, PlanKind, QuotaRequest, RequestModel,
};
use crate::zcode_quota::{is_coding_reading, parse_quota_payload, QuotaResponse, ZCodeQuotaSnapshot};
use vstd::prelude::*;

verus! {

/// Reads the ZCode quota.
#[derive(Debug)]
pub struct ZCodeQuotaService {
    /// The file that stands in for the service.
    pub fixture_path: Option<String>,
}

/// What came of reading the quota. An answer is decoded, or the text says why it could not be.
#[derive(Debug)]
pub enum ZCodeReading {
    /// The file that stands in for the service could not be read.
    FixtureUnreadable(String),
    /// The file holds an answer about a coding plan.
    Fixture(Result<QuotaResponse, String>),
    /// There was nothing to ask, or the service could not be asked.
    Unanswered(Diagnostic),
    /// The service answered about a coding plan.
    Coding(Result<QuotaResponse, String>),
    /// The service answered about a start plan.
    Start(Result<BalanceResponse, String>),
}

/// `result` is the snapshot that a reading gives.
pub open spec fn is_snapshot(
    reading: ZCodeReading,
    now_ms: u64,
    result: Result<ZCodeQuotaSnapshot, Diagnostic>,
) -> bool {
    match reading {
        ZCodeReading::FixtureUnreadable(error) => {
            &&& result is Err
            &&& result->Err_0@ == report("CRV-506"@, "ZCode 配额 fixture 无法读取"@, error@)
        },
        ZCodeReading::Fixture(decoded) => is_coding_reading(decoded, now_ms, result),
        ZCodeReading::Unanswered(diagnostic) => result is Err && result->Err_0@ == diagnostic@,
        ZCodeReading::Coding(decoded) => is_coding_reading(decoded, now_ms, result),
        ZCodeReading::Start(decoded) => is_start_reading(decoded, now_ms, result),
    }
}

/// Whether a coding plan is asked after a reading.
pub open spec fn falls_back_after(reading: ZCodeReading, prefer_start: bool, now_ms: u64) -> bool {
    prefer_start && (reading matches ZCodeReading::Start(Ok(answer)) && refused_start(
        answer,
        now_ms,
    ))
}

impl ZCodeQuotaService {
    /// The service that the environment asks for: a file stands in for it where one is named.
    pub fn from_environment(environment: &Environment) -> (service: ZCodeQuotaService)
        ensures
            opt_text(service.fixture_path) == lookup(
                environment@,
                "CODEX_CREDITS_ZCODE_QUOTA_RESPONSE_FILE"@,
            ),
    {
        ZCodeQuotaService {
            fixture_path: environment.get("CODEX_CREDITS_ZCODE_QUOTA_RESPONSE_FILE"),
        }
    }

    /// The service for which a file stands in.
    pub fn from_fixture_path(path: String) -> (service: ZCodeQuotaService)
        ensures
            service.fixture_path == Some(path),
    {
        ZCodeQuotaService { fixture_path: Some(path) }
    }

    /// The request to send to the service. `attempts` holds what came of reading the
    /// configuration in each directory in turn, `caches` the cache beside it where it could be
    /// read and decoded. Without `prefer_start` only coding plans are asked.
    pub fn request(
        &self,
        environment: &Environment,
        attempts: &Vec<ConfigAttempt>,
        caches: &Vec<Option<PlanCacheFile>>,
        prefer_start: bool,
        app_version: &str,
    ) -> (result: Result<QuotaRequest, Diagnostic>)
        ensures
            outcome_of(result) == resolved_request(
                environment@,
                config_request(attempts@, prefer_start, availability(caches@), app_version@),
            ),
    {
        let cache: Vec<String> = read_plan_cache_availability(caches);
        let config = read_config_request(attempts, prefer_start, &cache, app_version);
        resolve_quota_request(environment, config)
    }

    /// Whether a coding plan is asked once more: where start plans are wanted, and the gateway
    /// answered that its start plan is unavailable.
    pub fn falls_back(&self, reading: &ZCodeReading, prefer_start: bool, now_ms: u64) -> (again:
        bool)
        ensures
            again == falls_back_after(*reading, prefer_start, now_ms),
    {
        match reading {
            ZCodeReading::Start(Ok(answer)) => prefer_start && is_refused_start(answer, now_ms),
            _ => false,
        }
    }

    /// The request to send once more after a reading: that of a coding plan, where the reading
    /// falls back and there is such a plan to ask. Without one the reading stands.
    pub fn fallback_request(
        &self,
        reading: &ZCodeReading,
        environment: &Environment,
        attempts: &Vec<ConfigAttempt>,
        caches: &Vec<Option<PlanCacheFile>>,
        prefer_start: bool,
        app_version: &str,
        now_ms: u64,
    ) -> (request: Option<QuotaRequest>)
        ensures
            match request {
                Some(request) => {
                    &&& falls_back_after(*reading, prefer_start, now_ms)
                    &&& Ok::<RequestModel, Report>(request@) == resolved_request(
                        environment@,
                        config_request(attempts@, false, availability(caches@), app_version@),
                    )
                    &&& request.kind == PlanKind::Coding
                },
                None => !falls_back_after(*reading, prefer_start, now_ms) || resolved_request(
                    environment@,
                    config_request(attempts@, false, availability(caches@), app_version@),
                ) is Err,
            },
    {
        if !self.falls_back(reading, prefer_start, now_ms) {
            return None;
        }
        proof {
            law_the_fall_back_asks_a_coding_plan(
                environment@,
                attempts@,
                availability(caches@),
                app_version@,
            );
        }
        match self.request(environment, attempts, caches, false, app_version) {
            Ok(request) => Some(request),
            Err(_) => None,
        }
    }

    /// The snapshot that a reading gives.
    pub fn read_snapshot(&self, reading: ZCodeReading, now_ms: u64) -> (result: Result<
        ZCodeQuotaSnapshot,
        Diagnostic,
    >)
        ensures
            is_snapshot(reading, now_ms, result),
    {
        match reading {
            ZCodeReading::FixtureUnreadable(error) => Err(
                Diagnostic::new("CRV-506", "ZCode 配额 fixture 无法读取").with_detail(
                    error.as_str(),
                ),
            ),
            ZCodeReading::Fixture(decoded) => parse_quota_payload(decoded, now_ms),
            ZCodeReading::Unanswered(diagnostic) => Err(diagnostic),
            ZCodeReading::Coding(decoded) => parse_quota_payload(decoded, now_ms),
            ZCodeReading::Start(decoded) => parse_balance_payload(decoded, now_ms),
        }
    }
}

/// The request that is made without start plans goes to a coding plan, or there is none: after a
/// refusal no start plan is asked again.
pub proof fn law_the_fall_back_asks_a_coding_plan(
    variables: Seq<(Seq<char>, Seq<char>)>,
    attempts: Seq<ConfigAttempt>,
    cache: Seq<Seq<char>>,
    app_version: Seq<char>,
)
    ensures
        resolved_request(
            variables,
            config_request(attempts, false, cache, app_version),
        ) matches Ok(request) ==> request.kind == PlanKind::Coding,
{
    if let Some(Ok(config)) = first_read(attempts) {
        law_unwanted_start_plans_are_never_chosen(config.provider.entries(), cache, app_version);
    }
}

/// A reading falls back only where it has no snapshot to show.
pub proof fn law_only_failures_fall_back(
    reading: ZCodeReading,
    prefer_start: bool,
    now_ms: u64,
    result: Result<ZCodeQuotaSnapshot, Diagnostic>,
)
    requires
        falls_back_after(reading, prefer_start, now_ms),
        is_snapshot(reading, now_ms, result),
    ensures
        result is Err,
{
    if let ZCodeReading::Start(Ok(answer)) = reading {
        law_refusals_give_no_reading(answer, now_ms, result);
    }
}

/// What is the same of two outcomes: the request, or the failure.
pub open spec fn same_outcome(
    a: Result<QuotaRequest, Diagnostic>,
    b: Result<QuotaRequest, Diagnostic>,
) -> bool {
    match (a, b) {
        (Ok(a), Ok(b)) => a.kind == b.kind && a.url@ == b.url@ && a.api_key@ == b.api_key@,
        (Err(a), Err(b)) => a.code@ == b.code@ && a.message@ == b.message@ && opt_text(a.detail)
            == opt_text(b.detail),
        _ => false,
    }
}

/// The service asks what the environment and the configuration resolve to, with the plans that
/// the cache calls available.
pub proof fn law_the_service_asks_what_is_resolved(
    service: ZCodeQuotaService,
    environment: Environment,
    attempts: Vec<ConfigAttempt>,
    caches: Vec<Option<PlanCacheFile>>,
    prefer_start: bool,
    app_version: &str,
    ids: Vec<String>,
    config: Result<QuotaRequest, Diagnostic>,
    expected: Result<QuotaRequest, Diagnostic>,
    result: Result<QuotaRequest, Diagnostic>,
)
    requires
        call_ensures(read_plan_cache_availability, (&caches,), ids),
        call_ensures(read_config_request, (&attempts, prefer_start, &ids, app_version), config),
        call_ensures(resolve_quota_request, (&environment, config), expected),
        call_ensures(
            ZCodeQuotaService::request,
            (&service, &environment, &attempts, &caches, prefer_start, app_version),
            result,
        ),
    ensures
        same_outcome(result, expected),
{
    let settled = config_request(attempts@, prefer_start, availability(caches@), app_version@);
    assert(outcome_of(config) == settled);
    assert(outcome_of(expected) == outcome_of(result));
    if let Ok(request) = result {
        assert(request@ == expected->Ok_0@);
        assert(request@.url == request.url@ && request@.api_key == request.api_key@);
        assert(expected->Ok_0@.url == expected->Ok_0.url@);
    }
    if let Err(failure) = result {
        assert(failure@ == expected->Err_0@);
        assert(failure@.code == failure.code@ && failure@.message == failure.message@
            && failure@.detail == opt_text(failure.detail));
        assert(expected->Err_0@.code == expected->Err_0.code@);
    }
}

/// A coding plan is asked once more only where start plans are wanted and the gateway answered
/// about one: it did not accept the question, or its answer holds data. A question that was not
/// accepted is always followed by the request that is made without start plans, where there is
/// one.
pub proof fn law_a_refused_start_plan_is_followed_by_a_coding_plan(
    service: ZCodeQuotaService,
    reading: ZCodeReading,
    environment: Environment,
    attempts: Vec<ConfigAttempt>,
    caches: Vec<Option<PlanCacheFile>>,
    prefer_start: bool,
    app_version: &str,
    now_ms: u64,
    without_start: Result<QuotaRequest, Diagnostic>,
    result: Option<QuotaRequest>,
)
    requires
        call_ensures(
            ZCodeQuotaService::request,
            (&service, &environment, &attempts, &caches, false, app_version),
            without_start,
        ),
        call_ensures(
            ZCodeQuotaService::fallback_request,
            (
                &service,
                &reading,
                &environment,
                &attempts,
                &caches,
                prefer_start,
                app_version,
                now_ms,
            ),
            result,
        ),
    ensures
        result matches Some(request) ==> {
            &&& request.kind == PlanKind::Coding
            &&& prefer_start
            &&& without_start matches Ok(other) && request.url@ == other.url@ && request.api_key@
                == other.api_key@
            &&& reading matches ZCodeReading::Start(Ok(answer)) && (!(answer.success == Some(true)
                || answer.code == Some(0i64)) || answer.data is Some)
        },
        prefer_start && without_start is Ok ==> (reading matches ZCodeReading::Start(Ok(answer))
            ==> !(answer.success == Some(true) || answer.code == Some(0i64)) ==> result is Some),
{
    if let Some(request) = result {
        assert(outcome_of(without_start) == Ok::<RequestModel, Report>(request@));
        assert(request@.url == request.url@ && request@.api_key == request.api_key@);
        assert(without_start->Ok_0@.url == without_start->Ok_0.url@);
    }
    if without_start is Ok {
        assert(outcome_of(without_start) is Ok);
    }
}

/// A start plan whose answer is accepted and leaves no bucket to sum up is followed by a coding
/// plan; one whose answer leaves a bucket is not.
pub proof fn law_an_empty_start_plan_falls_back(
    service: ZCodeQuotaService,
    answer: BalanceResponse,
    prefer_start: bool,
    now_ms: u64,
    again: bool,
    snapshot: Result<ZCodeQuotaSnapshot, Diagnostic>,
)
    requires
        call_ensures(
            ZCodeQuotaService::falls_back,
            (&service, &ZCodeReading::Start(Ok(answer)), prefer_start, now_ms),
            again,
        ),
        call_ensures(
            ZCodeQuotaService::read_snapshot,
            (&service, ZCodeReading::Start(Ok(answer)), now_ms),
            snapshot,
        ),
        answer.data is Some,
    ensures
        again <==> prefer_start && snapshot is Err,
{
    law_refusals_give_no_reading(answer, now_ms, snapshot);
}

/// A reading is shown by where it came from: what could not be read or asked is its failure, and
/// what was answered is read as an answer about the plan that was asked.
pub proof fn law_readings_are_shown_by_their_source(
    service: ZCodeQuotaService,
    reading: ZCodeReading,
    now_ms: u64,
    result: Result<ZCodeQuotaSnapshot, Diagnostic>,
)
    requires
        call_ensures(ZCodeQuotaService::read_snapshot, (&service, reading, now_ms), result),
    ensures
        reading matches ZCodeReading::FixtureUnreadable(error) ==> (result matches Err(diagnostic)
            && diagnostic.code@ == "CRV-506"@ && opt_text(diagnostic.detail) == Some(error@)),
        reading matches ZCodeReading::Unanswered(failure) ==> (result matches Err(diagnostic)
            && diagnostic.code@ == failure.code@ && diagnostic.message@ == failure.message@
            && opt_text(diagnostic.detail) == opt_text(failure.detail)),
        reading matches ZCodeReading::Fixture(decoded) ==> is_coding_reading(
            decoded,
            now_ms,
            result,
        ),
        reading matches ZCodeReading::Coding(decoded) ==> is_coding_reading(decoded, now_ms, result),
        reading matches ZCodeReading::Start(decoded) ==> is_start_reading(decoded, now_ms, result),
{
    if let Err(diagnostic) = result {
        assert(diagnostic@.code == diagnostic.code@ && diagnostic@.message == diagnostic.message@
            && diagnostic@.detail == opt_text(diagnostic.detail));
    }
    if let ZCodeReading::Unanswered(failure) = reading {
        assert(failure@.code == failure.code@ && failure@.message == failure.message@
            && failure@.detail == opt_text(failure.detail));
    }
}

/// A file stands in for the service exactly where the environment names one.
pub proof fn law_a_named_file_stands_in(environment: Environment, service: ZCodeQuotaService)
    requires
        call_ensures(ZCodeQuotaService::from_environment, (&environment,), service),
    ensures
        opt_text(service.fixture_path) == lookup(
            environment@,
            "CODEX_CREDITS_ZCODE_QUOTA_RESPONSE_FILE"@,
        ),
{
}

} // verus!
