//! The TomatoCloud route: whether its runtime is up and the route carries traffic.
//!
//! A [`Check`] goes through four stages. Running commands and probes is not done here: a check
//! says which to run, is told what came of it, and ends in a snapshot.

use crate::diagnostic::{plain_report, report, Diagnostic, Report};
use crate::double::Double;
use crate::environment::{lookup, trimmed_value, Environment};
use crate::json::{get_str, json_document, json_object, json_str, member_str, parse_json};
use crate::paths::OperatingSystem;
use crate::process_output::{
    command_failure, command_report, enables_proxy, extract_proxy_server, extract_scutil_proxy,
    is_loopback_proxy, is_probe_result, loopback, names_in, parse_curl_output, parse_process_list,
    parse_tasklist, ps_name, registry_flag_is_enabled, registry_server, scutil_proxy,
    tasklist_name, CommandFailure, CommandOutput, ProcessSet, RouteProbeResult,
};
use crate::text::{
    chars_of, concat, decimal, join, joined, lemma_first_of_is, lines, one_of, opt_text, pieces,
    same_text, split_any, texts, to_decimal, to_upper, trim, trimmed, upper, upper_char,
};
use serde_json::Value;
use vstd::prelude::*;

verus! {

/// Where the route is probed for its exit country.
pub const COUNTRY_ENDPOINT: &'static str = "https://api.country.is/";

/// Where the route is probed for its health.
pub const HEALTH_ENDPOINT: &'static str = "https://www.gstatic.com/generate_204";

/// The time limits of a probe: two that the probe keeps itself, and one for its process.
#[derive(Debug, Clone, Copy)]
pub struct ProbeSettings {
    pub connect_timeout: &'static str,
    pub max_time: &'static str,
    pub command_timeout_secs: u64,
}

/// The time limits of the health probe.
pub fn health_probe() -> (settings: ProbeSettings)
    ensures
        settings.connect_timeout@ == "5"@,
        settings.max_time@ == "8"@,
        settings.command_timeout_secs == 9,
{
    ProbeSettings { connect_timeout: "5", max_time: "8", command_timeout_secs: 9 }
}

/// The time limits of the country probe.
pub fn country_probe() -> (settings: ProbeSettings)
    ensures
        settings.connect_timeout@ == "1"@,
        settings.max_time@ == "2"@,
        settings.command_timeout_secs == 3,
{
    ProbeSettings { connect_timeout: "1", max_time: "2", command_timeout_secs: 3 }
}

/// Whether the route works.
#[derive(Debug, Clone, Copy, PartialEq, Eq, Structural)]
pub enum TomatoConnectionState {
    Healthy,
    Blocked,
}

/// One check of the route.
#[derive(Debug, Clone)]
pub struct TomatoConnectionSnapshot {
    pub state: TomatoConnectionState,
    pub country_code: Option<String>,
    pub latency_ms: Option<u64>,
    pub observed_at_ms: u64,
    pub diagnostic: Option<Diagnostic>,
}

/// `snapshot` is that of a route that works.
pub open spec fn is_healthy(
    snapshot: TomatoConnectionSnapshot,
    country_code: Option<Seq<char>>,
    latency_ms: u64,
    observed_at_ms: u64,
) -> bool {
    &&& snapshot.state == TomatoConnectionState::Healthy
    &&& opt_text(snapshot.country_code) == country_code
    &&& snapshot.latency_ms == Some(latency_ms)
    &&& snapshot.observed_at_ms == observed_at_ms
    &&& snapshot.diagnostic is None
}

/// `snapshot` is that of a route that does not work, for the reason given.
pub open spec fn is_blocked(
    snapshot: TomatoConnectionSnapshot,
    country_code: Option<Seq<char>>,
    reason: Report,
    observed_at_ms: u64,
) -> bool {
    &&& snapshot.state == TomatoConnectionState::Blocked
    &&& opt_text(snapshot.country_code) == country_code
    &&& snapshot.latency_ms is None
    &&& snapshot.observed_at_ms == observed_at_ms
    &&& snapshot.diagnostic is Some
    &&& snapshot.diagnostic->Some_0@ == reason
}

impl TomatoConnectionSnapshot {
    /// The snapshot of a route that works.
    pub fn healthy(country_code: Option<String>, latency_ms: u64, observed_at_ms: u64) -> (snapshot:
        TomatoConnectionSnapshot)
        ensures
            is_healthy(snapshot, opt_text(country_code), latency_ms, observed_at_ms),
    {
        TomatoConnectionSnapshot {
            state: TomatoConnectionState::Healthy,
            country_code,
            latency_ms: Some(latency_ms),
            observed_at_ms,
            diagnostic: None,
        }
    }

    /// The snapshot of a route that does not work.
    pub fn blocked(
        country_code: Option<String>,
        diagnostic: Diagnostic,
        observed_at_ms: u64,
    ) -> (snapshot: TomatoConnectionSnapshot)
        ensures
            is_blocked(snapshot, opt_text(country_code), diagnostic@, observed_at_ms),
    {
        TomatoConnectionSnapshot {
            state: TomatoConnectionState::Blocked,
            country_code,
            latency_ms: None,
            observed_at_ms,
            diagnostic: Some(diagnostic),
        }
    }
}

/// The endpoint that a variable names, or the usual one.
pub open spec fn endpoint_for(
    variables: Seq<(Seq<char>, Seq<char>)>,
    name: Seq<char>,
    usual: Seq<char>,
) -> Seq<char> {
    match trimmed_value(lookup(variables, name)) {
        Some(endpoint) => endpoint,
        None => usual,
    }
}

/// The endpoint that a variable names, or the usual one.
pub fn resolve_endpoint(environment: &Environment, name: &str, usual: &str) -> (endpoint: String)
    ensures
        endpoint@ == endpoint_for(environment@, name@, usual@),
{
    match environment.get_trimmed(name) {
        Some(endpoint) => endpoint,
        None => usual.to_owned(),
    }
}

/// The processes of the runtime on a platform.
pub open spec fn usual_processes(os: OperatingSystem) -> Seq<Seq<char>> {
    match os {
        OperatingSystem::Windows => seq!["tomato-cloud.exe"@, "tomato-dataplane-agent.exe"@],
        _ => seq!["tomato-cloud"@, "tomato-helper"@],
    }
}

/// The trimmed texts of which something is left.
pub open spec fn filled(list: Seq<Seq<char>>) -> Seq<Seq<char>>
    decreases list.len(),
{
    if list.len() == 0 {
        seq![]
    } else {
        let rest = filled(list.drop_last());
        if trimmed(list.last()).len() > 0 {
            rest.push(trimmed(list.last()))
        } else {
            rest
        }
    }
}

/// The processes that a setting lists, with commas or semicolons between them.
pub open spec fn listed_processes(raw: Seq<char>) -> Seq<Seq<char>> {
    filled(pieces(raw, one_of(seq![',', ';'])))
}

/// The processes that must run: those that the environment lists, or the usual ones.
pub open spec fn required_processes(
    variables: Seq<(Seq<char>, Seq<char>)>,
    os: OperatingSystem,
) -> Seq<Seq<char>> {
    processes_in(lookup(variables, "CODEX_CREDITS_TOMATO_PROCESSES"@), os)
}

/// The processes that a setting lists, or the usual ones where it lists none.
pub open spec fn processes_in(setting: Option<Seq<char>>, os: OperatingSystem) -> Seq<Seq<char>> {
    match setting {
        Some(raw) => if listed_processes(raw).len() > 0 {
            listed_processes(raw)
        } else {
            usual_processes(os)
        },
        None => usual_processes(os),
    }
}

fn list_processes(raw: &str) -> (names: Vec<String>)
    ensures
        texts(names@) == listed_processes(raw@),
{
    let separators: Vec<char> = vec![',', ';'];
    proof {
        assert(separators@ =~= seq![',', ';']);
    }
    let list = split_any(raw, &separators);
    let ghost all = pieces(raw@, one_of(seq![',', ';']));
    let mut names: Vec<String> = Vec::new();
    let mut i: usize = 0;
    proof {
        assert(texts(names@) =~= filled(all.take(0)));
    }
    while i < list.len()
        invariant
            i <= list.len(),
            texts(list@) == all,
            texts(names@) == filled(all.take(i as int)),
        decreases list.len() - i,
    {
        let ghost before = names@;
        let name: &str = trim(list[i].as_str());
        proof {
            assert(all[i as int] == list@[i as int]@);
            assert(all.take(i + 1).drop_last() =~= all.take(i as int));
            assert(all.take(i + 1).last() == all[i as int]);
        }
        if !name.is_empty() {
            names.push(name.to_owned());
            proof {
                assert(texts(names@) =~= texts(before).push(name@));
            }
        }
        i = i + 1;
    }
    proof {
        assert(all.take(i as int) =~= all);
    }
    names
}

/// The processes that must run.
pub fn resolve_required_processes(environment: &Environment, os: OperatingSystem) -> (names: Vec<
    String,
>)
    ensures
        texts(names@) == required_processes(environment@, os),
{
    choose_processes(environment.get("CODEX_CREDITS_TOMATO_PROCESSES"), os)
}

fn choose_processes(setting: Option<String>, os: OperatingSystem) -> (names: Vec<String>)
    ensures
        texts(names@) == processes_in(opt_text(setting), os),
{
    if let Some(raw) = setting {
        let names = list_processes(raw.as_str());
        proof {
            assert(texts(names@).len() == names@.len());
        }
        if names.len() > 0 {
            return names;
        }
    }
    let names: Vec<String> = match os {
        OperatingSystem::Windows => vec![
            "tomato-cloud.exe".to_owned(),
            "tomato-dataplane-agent.exe".to_owned(),
        ],
        _ => vec!["tomato-cloud".to_owned(), "tomato-helper".to_owned()],
    };
    proof {
        assert(texts(names@) =~= usual_processes(os));
    }
    names
}

/// An ASCII letter.
pub open spec fn ascii_letter(c: char) -> bool {
    ('a' <= c <= 'z') || ('A' <= c <= 'Z')
}

/// The country code that a text gives: two letters, in upper case, with the code in common use
/// for the United Kingdom.
pub open spec fn normalized_country(text: Seq<char>) -> Option<Seq<char>> {
    let raised = upper(trimmed(text));
    let code = if raised == "GB"@ {
        "UK"@
    } else {
        raised
    };
    if code.len() == 2 && ascii_letter(code[0]) && ascii_letter(code[1]) {
        Some(code)
    } else {
        None
    }
}

/// The country code that a decoded reply gives.
pub open spec fn country_in(reply: Value) -> Option<Seq<char>> {
    match member_str(reply, "country"@) {
        Some(text) => normalized_country(text),
        None => None,
    }
}

/// The country code that the body of a reply gives.
pub open spec fn country_of(body: Seq<char>) -> Option<Seq<char>> {
    match json_document(body) {
        Ok(reply) => country_in(reply),
        Err(_) => None,
    }
}

fn is_letter(c: char) -> (holds: bool)
    ensures
        holds == ascii_letter(c),
{
    ('a' <= c && c <= 'z') || ('A' <= c && c <= 'Z')
}

/// The country code that a text gives.
pub fn normalize_country(text: &str) -> (code: Option<String>)
    ensures
        opt_text(code) == normalized_country(text@),
{
    let raised = to_upper(trim(text));
    let code: String = if same_text(raised.as_str(), "GB") {
        "UK".to_owned()
    } else {
        raised
    };
    let chars = chars_of(code.as_str());
    if chars.len() == 2 && is_letter(chars[0]) && is_letter(chars[1]) {
        Some(code)
    } else {
        None
    }
}

/// The country code that a decoded reply gives.
pub fn country_code_of(reply: &Value) -> (code: Option<String>)
    ensures
        opt_text(code) == country_in(*reply),
{
    match get_str(reply, "country") {
        Some(text) => normalize_country(text.as_str()),
        None => None,
    }
}

/// The country code that the body of a reply gives.
pub fn country_code_from_body(body: &str) -> (code: Option<String>)
    ensures
        opt_text(code) == country_of(body@),
{
    match parse_json(body) {
        Ok(reply) => country_code_of(&reply),
        Err(_) => None,
    }
}

/// What the check of the processes reports.
pub open spec fn runtime_report() -> Report {
    plain_report("CRV-400"@, "Unable to inspect the TomatoCloud runtime"@)
}

/// The processes that a platform's process list names.
pub open spec fn listed_names(os: OperatingSystem, raw: Seq<char>) -> Set<Seq<char>> {
    match os {
        OperatingSystem::Windows => names_in(lines(raw), |line: Seq<char>| tasklist_name(line)),
        _ => names_in(lines(raw), |line: Seq<char>| ps_name(line)),
    }
}

/// The running processes, from the command that lists them.
pub fn read_running_processes(
    os: OperatingSystem,
    outcome: Result<CommandOutput, CommandFailure>,
) -> (result: Result<ProcessSet, Diagnostic>)
    ensures
        match outcome {
            Err(failure) => result is Err && result->Err_0@ == command_report(
                failure,
                "CRV-400"@,
                "Unable to inspect the TomatoCloud runtime"@,
            ),
            Ok(output) => if output.success {
                result is Ok && result->Ok_0@ == listed_names(os, output.stdout@)
            } else {
                result is Err && result->Err_0@ == runtime_report()
            },
        },
{
    match outcome {
        Err(failure) => Err(
            command_failure(&failure, "CRV-400", "Unable to inspect the TomatoCloud runtime"),
        ),
        Ok(output) => {
            if !output.success {
                return Err(Diagnostic::new("CRV-400", "Unable to inspect the TomatoCloud runtime"));
            }
            match os {
                OperatingSystem::Windows => Ok(parse_tasklist(output.stdout.as_str())),
                _ => Ok(parse_process_list(output.stdout.as_str())),
            }
        },
    }
}

/// A failure to find the proxy.
pub open spec fn proxy_report(detail: Seq<char>) -> Report {
    report("CRV-402"@, "TomatoCloud local proxy is unavailable"@, detail)
}

fn proxy_failure(detail: &str) -> (diagnostic: Diagnostic)
    ensures
        diagnostic@ == proxy_report(detail@),
{
    Diagnostic::new("CRV-402", "TomatoCloud local proxy is unavailable").with_detail(detail)
}

fn proxy_command_failure(failure: &CommandFailure) -> (diagnostic: Diagnostic)
    ensures
        diagnostic@ == command_report(
            *failure,
            "CRV-402"@,
            "TomatoCloud local proxy is unavailable"@,
        ),
{
    command_failure(failure, "CRV-402", "TomatoCloud local proxy is unavailable")
}

/// Whether the registry has the system proxy on.
pub open spec fn registry_enables(raw: Seq<char>) -> bool {
    exists|i: int| 0 <= i < lines(raw).len() && enables_proxy(#[trigger] lines(raw)[i])
}

/// Windows, first query: the system proxy must be on.
pub fn read_proxy_flag(outcome: Result<CommandOutput, CommandFailure>) -> (result: Result<
    (),
    Diagnostic,
>)
    ensures
        match outcome {
            Err(failure) => result is Err && result->Err_0@ == command_report(
                failure,
                "CRV-402"@,
                "TomatoCloud local proxy is unavailable"@,
            ),
            Ok(output) => if output.success && registry_enables(output.stdout@) {
                result is Ok
            } else {
                result is Err && result->Err_0@ == proxy_report(
                    "Windows system proxy is not enabled"@,
                )
            },
        },
{
    match outcome {
        Err(failure) => Err(proxy_command_failure(&failure)),
        Ok(output) => if output.success && registry_flag_is_enabled(output.stdout.as_str()) {
            Ok(())
        } else {
            Err(proxy_failure("Windows system proxy is not enabled"))
        },
    }
}

/// Windows, second query: the server of the system proxy.
pub fn read_proxy_server(outcome: Result<CommandOutput, CommandFailure>) -> (result: Result<
    String,
    Diagnostic,
>)
    ensures
        match outcome {
            Err(failure) => result is Err && result->Err_0@ == command_report(
                failure,
                "CRV-402"@,
                "TomatoCloud local proxy is unavailable"@,
            ),
            Ok(output) => if !output.success {
                result is Err && result->Err_0@ == proxy_report(
                    "Windows system proxy does not provide a server"@,
                )
            } else {
                match registry_server(output.stdout@) {
                    Some(server) => result is Ok && result->Ok_0@ == server,
                    None => result is Err && result->Err_0@ == proxy_report(
                        "Windows system proxy server could not be parsed"@,
                    ),
                }
            },
        },
{
    match outcome {
        Err(failure) => Err(proxy_command_failure(&failure)),
        Ok(output) => {
            if !output.success {
                return Err(proxy_failure("Windows system proxy does not provide a server"));
            }
            match extract_proxy_server(output.stdout.as_str()) {
                Some(server) => Ok(server),
                None => Err(proxy_failure("Windows system proxy server could not be parsed")),
            }
        },
    }
}

/// Elsewhere: the system proxy as `scutil` shows it.
pub fn read_system_proxy(outcome: Result<CommandOutput, CommandFailure>) -> (result: Result<
    String,
    Diagnostic,
>)
    ensures
        match outcome {
            Err(failure) => result is Err && result->Err_0@ == command_report(
                failure,
                "CRV-402"@,
                "TomatoCloud local proxy is unavailable"@,
            ),
            Ok(output) => if !output.success {
                result is Err && result->Err_0@ == proxy_report(
                    "The system proxy configuration could not be read"@,
                )
            } else {
                match scutil_proxy(output.stdout@) {
                    Some(proxy) => result is Ok && result->Ok_0@ == proxy,
                    None => result is Err && result->Err_0@ == proxy_report(
                        "The enabled system HTTPS proxy is not a loopback endpoint"@,
                    ),
                }
            },
        },
{
    match outcome {
        Err(failure) => Err(proxy_command_failure(&failure)),
        Ok(output) => {
            if !output.success {
                return Err(proxy_failure("The system proxy configuration could not be read"));
            }
            match extract_scutil_proxy(output.stdout.as_str()) {
                Some(proxy) => Ok(proxy),
                None => Err(
                    proxy_failure("The enabled system HTTPS proxy is not a loopback endpoint"),
                ),
            }
        },
    }
}

/// The arguments of a probe through a proxy.
pub open spec fn probe_args(
    proxy: Seq<char>,
    endpoint: Seq<char>,
    connect_timeout: Seq<char>,
    max_time: Seq<char>,
) -> Seq<Seq<char>> {
    seq![
        "--silent"@,
        "--show-error"@,
        "--output"@,
        "-"@,
        "--write-out"@,
        "\n%{http_code} %{time_total}"@,
        "--connect-timeout"@,
        connect_timeout,
        "--max-time"@,
        max_time,
        "--retry"@,
        "0"@,
        "--proxy"@,
        "http://"@ + proxy,
        endpoint,
    ]
}

/// The arguments of a probe through a proxy.
pub fn probe_arguments(proxy: &str, endpoint: &str, settings: &ProbeSettings) -> (args: Vec<String>)
    ensures
        texts(args@) == probe_args(
            proxy@,
            endpoint@,
            settings.connect_timeout@,
            settings.max_time@,
        ),
{
    let args: Vec<String> = vec![
        "--silent".to_owned(),
        "--show-error".to_owned(),
        "--output".to_owned(),
        "-".to_owned(),
        "--write-out".to_owned(),
        "\n%{http_code} %{time_total}".to_owned(),
        "--connect-timeout".to_owned(),
        settings.connect_timeout.to_owned(),
        "--max-time".to_owned(),
        settings.max_time.to_owned(),
        "--retry".to_owned(),
        "0".to_owned(),
        "--proxy".to_owned(),
        concat("http://", proxy),
        endpoint.to_owned(),
    ];
    proof {
        assert(texts(args@) =~= probe_args(
            proxy@,
            endpoint@,
            settings.connect_timeout@,
            settings.max_time@,
        ));
    }
    args
}

/// A failure of the route.
pub open spec fn route_report(detail: Seq<char>) -> Report {
    report("CRV-404"@, "TomatoCloud route is unavailable"@, detail)
}

fn route_failure(detail: &str) -> (diagnostic: Diagnostic)
    ensures
        diagnostic@ == route_report(detail@),
{
    Diagnostic::new("CRV-404", "TomatoCloud route is unavailable").with_detail(detail)
}

/// The result of a probe, from the command that made it. `seconds` is the number that the
/// latency field of its output denotes.
pub fn route_probe(outcome: Result<CommandOutput, CommandFailure>, seconds: Option<Double>) -> (
result: Result<RouteProbeResult, Diagnostic>)
    ensures
        match outcome {
            Err(failure) => result is Err && result->Err_0@ == command_report(
                failure,
                "CRV-404"@,
                "TomatoCloud route is unavailable"@,
            ),
            Ok(output) => match result {
                Ok(probe) => is_probe_result(output.stdout@, seconds, Some(probe)),
                Err(diagnostic) => is_probe_result(output.stdout@, seconds, None) && diagnostic@
                    == route_report("Route probe did not return a valid HTTP result"@),
            },
        },
{
    match outcome {
        Err(failure) => Err(
            command_failure(&failure, "CRV-404", "TomatoCloud route is unavailable"),
        ),
        Ok(output) => match parse_curl_output(output.stdout.as_str(), seconds) {
            Some(probe) => Ok(probe),
            None => Err(route_failure("Route probe did not return a valid HTTP result")),
        },
    }
}

/// What a check goes by: the processes that must run, and the endpoints to probe.
#[derive(Debug)]
pub struct ConnectionPlan {
    pub required: Vec<String>,
    pub health_endpoint: String,
    pub country_endpoint: String,
}

impl ConnectionPlan {
    /// The plan that the environment asks for.
    pub fn from_environment(environment: &Environment, os: OperatingSystem) -> (plan:
        ConnectionPlan)
        ensures
            texts(plan.required@) == processes_in(
                trimmed_value(lookup(environment@, "CODEX_CREDITS_TOMATO_PROCESSES"@)),
                os,
            ),
            plan.health_endpoint@ == endpoint_for(
                environment@,
                "CODEX_CREDITS_HEALTH_ENDPOINT"@,
                HEALTH_ENDPOINT@,
            ),
            plan.country_endpoint@ == endpoint_for(
                environment@,
                "CODEX_CREDITS_COUNTRY_ENDPOINT"@,
                COUNTRY_ENDPOINT@,
            ),
    {
        ConnectionPlan {
            required: choose_processes(
                environment.get_trimmed("CODEX_CREDITS_TOMATO_PROCESSES"),
                os,
            ),
            health_endpoint: resolve_endpoint(
                environment,
                "CODEX_CREDITS_HEALTH_ENDPOINT",
                HEALTH_ENDPOINT,
            ),
            country_endpoint: resolve_endpoint(
                environment,
                "CODEX_CREDITS_COUNTRY_ENDPOINT",
                COUNTRY_ENDPOINT,
            ),
        }
    }
}

/// The required processes that do not run.
pub open spec fn missing(required: Seq<Seq<char>>, running: Set<Seq<char>>) -> Seq<Seq<char>>
    decreases required.len(),
{
    if required.len() == 0 {
        seq![]
    } else {
        let rest = missing(required.drop_last(), running);
        if running.contains(required.last()) {
            rest
        } else {
            rest.push(required.last())
        }
    }
}

/// The required processes that do not run.
pub fn missing_processes(required: &Vec<String>, running: &ProcessSet) -> (names: Vec<String>)
    ensures
        texts(names@) == missing(texts(required@), running@),
{
    let mut names: Vec<String> = Vec::new();
    let ghost all = texts(required@);
    let mut i: usize = 0;
    proof {
        assert(texts(names@) =~= missing(all.take(0), running@));
    }
    while i < required.len()
        invariant
            i <= required.len(),
            all == texts(required@),
            texts(names@) == missing(all.take(i as int), running@),
        decreases required.len() - i,
    {
        let ghost before = names@;
        proof {
            assert(all[i as int] == required@[i as int]@);
            assert(all.take(i + 1).drop_last() =~= all.take(i as int));
            assert(all.take(i + 1).last() == all[i as int]);
        }
        if !running.contains(required[i].as_str()) {
            names.push(required[i].clone());
            proof {
                assert(texts(names@) =~= texts(before).push(required@[i as int]@));
            }
        }
        i = i + 1;
    }
    proof {
        assert(all.take(i as int) =~= all);
    }
    names
}

/// Nothing is missing exactly where every required process runs.
pub proof fn law_nothing_missing_means_all_run(required: Seq<Seq<char>>, running: Set<Seq<char>>)
    ensures
        missing(required, running).len() == 0 <==> forall|i: int|
            0 <= i < required.len() ==> running.contains(#[trigger] required[i]),
    decreases required.len(),
{
    if required.len() > 0 {
        law_nothing_missing_means_all_run(required.drop_last(), running);
        if missing(required, running).len() == 0 {
            assert forall|i: int| 0 <= i < required.len() implies running.contains(
                #[trigger] required[i],
            ) by {
                if i < required.len() - 1 {
                    assert(required.drop_last()[i] == required[i]);
                }
            }
        }
        if forall|i: int| 0 <= i < required.len() ==> running.contains(#[trigger] required[i]) {
            assert forall|i: int| 0 <= i < required.drop_last().len() implies running.contains(
                #[trigger] required.drop_last()[i],
            ) by {
                assert(required.drop_last()[i] == required[i]);
            }
            assert(running.contains(required[required.len() - 1]));
        }
    }
}

/// How far a check has come.
#[derive(Debug)]
pub enum Stage {
    /// The running processes are to be listed.
    Processes,
    /// The system proxy is to be read.
    Proxy,
    /// The route through `proxy` is to be probed for its health.
    Health { proxy: String },
    /// The route through `proxy` is to be probed for its exit country.
    Country { proxy: String, latency_ms: u64 },
}

/// A check of the route, with the country that was last seen.
#[derive(Debug)]
pub struct Check {
    pub country_code: Option<String>,
    pub stage: Stage,
}

/// What came of the command that a stage asks for.
pub enum CheckEvent {
    Processes(Result<ProcessSet, Diagnostic>),
    Proxy(Result<String, Diagnostic>),
    Probe(Result<RouteProbeResult, Diagnostic>),
}

/// How a check goes on.
pub enum CheckStep {
    Continue(Check),
    /// The check is over. A country in `remember` is the one last seen from now on.
    Done { snapshot: TomatoConnectionSnapshot, remember: Option<String> },
}

/// The check ends, blocked for a reason, with the country last seen.
pub open spec fn ends_blocked(
    step: CheckStep,
    country_code: Option<Seq<char>>,
    reason: Report,
    now: u64,
) -> bool {
    step matches CheckStep::Done { snapshot, remember } && {
        &&& is_blocked(snapshot, country_code, reason, now)
        &&& remember is None
    }
}

/// The check goes on to a stage, with the same country.
pub open spec fn goes_on(step: CheckStep, country_code: Option<Seq<char>>) -> bool {
    step matches CheckStep::Continue(check) && opt_text(check.country_code) == country_code
}

/// What follows the list of processes.
pub open spec fn is_after_processes(
    required: Seq<Seq<char>>,
    country_code: Option<Seq<char>>,
    processes: Result<ProcessSet, Diagnostic>,
    now: u64,
    step: CheckStep,
) -> bool {
    match processes {
        Err(diagnostic) => ends_blocked(step, country_code, diagnostic@, now),
        Ok(running) => if missing(required, running@).len() > 0 {
            ends_blocked(
                step,
                country_code,
                report(
                    "CRV-401"@,
                    "TomatoCloud runtime is not running"@,
                    "Missing required runtime: "@ + joined(missing(required, running@), ", "@),
                ),
                now,
            )
        } else {
            goes_on(step, country_code) && step->Continue_0.stage is Proxy
        },
    }
}

/// What follows the system proxy.
pub open spec fn is_after_proxy(
    country_code: Option<Seq<char>>,
    proxy: Result<String, Diagnostic>,
    now: u64,
    step: CheckStep,
) -> bool {
    match proxy {
        Err(diagnostic) => ends_blocked(step, country_code, diagnostic@, now),
        Ok(found) => if loopback(found@) {
            &&& goes_on(step, country_code)
            &&& step->Continue_0.stage matches Stage::Health { proxy } && proxy@ == found@
        } else {
            ends_blocked(
                step,
                country_code,
                report(
                    "CRV-403"@,
                    "TomatoCloud local proxy is unavailable"@,
                    "The enabled system HTTPS proxy is not a loopback endpoint"@,
                ),
                now,
            )
        },
    }
}

/// What follows the health probe.
pub open spec fn is_after_health(
    country_code: Option<Seq<char>>,
    used_proxy: Seq<char>,
    probe: Result<RouteProbeResult, Diagnostic>,
    now: u64,
    step: CheckStep,
) -> bool {
    match probe {
        Err(diagnostic) => ends_blocked(step, country_code, diagnostic@, now),
        Ok(probe) => if 200 <= probe.http_status < 300 {
            &&& goes_on(step, country_code)
            &&& step->Continue_0.stage matches Stage::Country { proxy, latency_ms } && proxy@
                == used_proxy && latency_ms == probe.latency_ms
        } else {
            ends_blocked(
                step,
                country_code,
                route_report("Health probe returned HTTP "@ + decimal(probe.http_status as nat)),
                now,
            )
        },
    }
}

/// The country after the country probe: what it tells, else the one last seen.
pub open spec fn country_after(
    country_code: Option<Seq<char>>,
    probe: Result<RouteProbeResult, Diagnostic>,
) -> Option<Seq<char>> {
    match probe {
        Ok(probe) => if probe.http_status == 200 && country_of(probe.body@) is Some {
            country_of(probe.body@)
        } else {
            country_code
        },
        Err(_) => country_code,
    }
}

/// What follows the country probe: the route works, whatever that probe gave.
pub open spec fn is_after_country(
    country_code: Option<Seq<char>>,
    latency_ms: u64,
    probe: Result<RouteProbeResult, Diagnostic>,
    now: u64,
    step: CheckStep,
) -> bool {
    step matches CheckStep::Done { snapshot, remember } && {
        &&& is_healthy(snapshot, country_after(country_code, probe), latency_ms, now)
        &&& opt_text(remember) == (if probe is Ok && probe->Ok_0.http_status == 200 {
            country_after(country_code, probe)
        } else {
            None
        })
    }
}

/// `step` is how `check` goes on after `event`. An event that belongs to another stage changes
/// nothing.
pub open spec fn is_next_check(
    plan: ConnectionPlan,
    check: Check,
    event: CheckEvent,
    now: u64,
    step: CheckStep,
) -> bool {
    let country_code = opt_text(check.country_code);
    match (check.stage, event) {
        (Stage::Processes, CheckEvent::Processes(processes)) => is_after_processes(
            texts(plan.required@),
            country_code,
            processes,
            now,
            step,
        ),
        (Stage::Proxy, CheckEvent::Proxy(proxy)) => is_after_proxy(country_code, proxy, now, step),
        (Stage::Health { proxy }, CheckEvent::Probe(probe)) => is_after_health(
            country_code,
            proxy@,
            probe,
            now,
            step,
        ),
        (Stage::Country { proxy: _, latency_ms }, CheckEvent::Probe(probe)) => is_after_country(
            country_code,
            latency_ms,
            probe,
            now,
            step,
        ),
        _ => step == CheckStep::Continue(check),
    }
}

fn end_blocked(country_code: Option<String>, diagnostic: Diagnostic, now: u64) -> (step: CheckStep)
    ensures
        ends_blocked(step, opt_text(country_code), diagnostic@, now),
{
    CheckStep::Done {
        snapshot: TomatoConnectionSnapshot::blocked(country_code, diagnostic, now),
        remember: None,
    }
}

fn after_processes(
    required: &Vec<String>,
    country_code: Option<String>,
    processes: Result<ProcessSet, Diagnostic>,
    now: u64,
) -> (step: CheckStep)
    ensures
        is_after_processes(texts(required@), opt_text(country_code), processes, now, step),
{
    match processes {
        Err(diagnostic) => end_blocked(country_code, diagnostic, now),
        Ok(running) => {
            let names = missing_processes(required, &running);
            proof {
                assert(texts(names@).len() == names@.len());
            }
            if names.len() > 0 {
                let list = join(&names, ", ");
                let detail = concat("Missing required runtime: ", list.as_str());
                end_blocked(
                    country_code,
                    Diagnostic::new("CRV-401", "TomatoCloud runtime is not running").with_detail(
                        detail.as_str(),
                    ),
                    now,
                )
            } else {
                CheckStep::Continue(Check { country_code, stage: Stage::Proxy })
            }
        },
    }
}

fn after_proxy(country_code: Option<String>, proxy: Result<String, Diagnostic>, now: u64) -> (step:
    CheckStep)
    ensures
        is_after_proxy(opt_text(country_code), proxy, now, step),
{
    match proxy {
        Err(diagnostic) => end_blocked(country_code, diagnostic, now),
        Ok(found) => if is_loopback_proxy(found.as_str()) {
            CheckStep::Continue(Check { country_code, stage: Stage::Health { proxy: found } })
        } else {
            end_blocked(
                country_code,
                Diagnostic::new("CRV-403", "TomatoCloud local proxy is unavailable").with_detail(
                    "The enabled system HTTPS proxy is not a loopback endpoint",
                ),
                now,
            )
        },
    }
}

fn after_health(
    country_code: Option<String>,
    proxy: String,
    probe: Result<RouteProbeResult, Diagnostic>,
    now: u64,
) -> (step: CheckStep)
    ensures
        is_after_health(opt_text(country_code), proxy@, probe, now, step),
{
    match probe {
        Err(diagnostic) => end_blocked(country_code, diagnostic, now),
        Ok(probe) => {
            if 200 <= probe.http_status && probe.http_status < 300 {
                CheckStep::Continue(
                    Check {
                        country_code,
                        stage: Stage::Country { proxy, latency_ms: probe.latency_ms },
                    },
                )
            } else {
                let status = to_decimal(probe.http_status as u64);
                let detail = concat("Health probe returned HTTP ", status.as_str());
                end_blocked(country_code, route_failure(detail.as_str()), now)
            }
        },
    }
}

fn after_country(
    country_code: Option<String>,
    latency_ms: u64,
    probe: Result<RouteProbeResult, Diagnostic>,
    now: u64,
) -> (step: CheckStep)
    ensures
        is_after_country(opt_text(country_code), latency_ms, probe, now, step),
{
    match probe {
        Ok(probe) => if probe.http_status == 200 {
            let code: Option<String> = match country_code_from_body(probe.body.as_str()) {
                Some(code) => Some(code),
                None => country_code,
            };
            let remember: Option<String> = match &code {
                Some(code) => Some(code.clone()),
                None => None,
            };
            CheckStep::Done {
                snapshot: TomatoConnectionSnapshot::healthy(code, latency_ms, now),
                remember,
            }
        } else {
            CheckStep::Done {
                snapshot: TomatoConnectionSnapshot::healthy(country_code, latency_ms, now),
                remember: None,
            }
        },
        Err(_) => CheckStep::Done {
            snapshot: TomatoConnectionSnapshot::healthy(country_code, latency_ms, now),
            remember: None,
        },
    }
}

impl Check {
    /// How the check goes on after an event; `now` is the time of an ending.
    pub fn next(self, plan: &ConnectionPlan, event: CheckEvent, now: u64) -> (step: CheckStep)
        ensures
            is_next_check(*plan, self, event, now, step),
    {
        match (self.stage, event) {
            (Stage::Processes, CheckEvent::Processes(processes)) => after_processes(
                &plan.required,
                self.country_code,
                processes,
                now,
            ),
            (Stage::Proxy, CheckEvent::Proxy(proxy)) => after_proxy(self.country_code, proxy, now),
            (Stage::Health { proxy }, CheckEvent::Probe(probe)) => after_health(
                self.country_code,
                proxy,
                probe,
                now,
            ),
            (Stage::Country { proxy: _, latency_ms }, CheckEvent::Probe(probe)) => after_country(
                self.country_code,
                latency_ms,
                probe,
                now,
            ),
            (stage, _) => CheckStep::Continue(Check { country_code: self.country_code, stage }),
        }
    }
}

/// How a reading of the route goes on.
pub enum ConnectionStep {
    Continue(Check),
    Done(TomatoConnectionSnapshot),
}

/// `reading` is how a reading of the route goes on where its check goes on with `step`, and
/// `after` the country last seen from then on; `before` is the one until then.
pub open spec fn is_next_reading(
    step: CheckStep,
    before: Option<Seq<char>>,
    reading: ConnectionStep,
    after: Option<Seq<char>>,
) -> bool {
    match step {
        CheckStep::Continue(check) => reading == ConnectionStep::Continue(check) && after == before,
        CheckStep::Done { snapshot, remember } => {
            &&& reading == ConnectionStep::Done(snapshot)
            &&& after == (if remember is Some {
                opt_text(remember)
            } else {
                before
            })
        },
    }
}

/// Checks the route, and remembers the exit country that was last seen.
#[derive(Debug)]
pub struct TomatoCloudService {
    pub last_country_code: Option<String>,
}

impl TomatoCloudService {
    /// A service that has seen no country yet.
    pub fn new() -> (service: TomatoCloudService)
        ensures
            service.last_country_code is None,
    {
        TomatoCloudService { last_country_code: None }
    }

    /// Begins a check with the country last seen.
    pub fn begin_check(&self) -> (check: Check)
        ensures
            opt_text(check.country_code) == opt_text(self.last_country_code),
            check.stage is Processes,
    {
        let country_code: Option<String> = match &self.last_country_code {
            Some(code) => Some(code.clone()),
            None => None,
        };
        Check { country_code, stage: Stage::Processes }
    }

    /// How a reading of the route goes on after an event. Where it ends, the country that it has
    /// seen is remembered.
    pub fn read_connection(
        &mut self,
        plan: &ConnectionPlan,
        check: Check,
        event: CheckEvent,
        now: u64,
    ) -> (reading: ConnectionStep)
        ensures
            exists|step: CheckStep| #[trigger]
                is_next_check(*plan, check, event, now, step) && is_next_reading(
                    step,
                    opt_text(old(self).last_country_code),
                    reading,
                    opt_text(final(self).last_country_code),
                ),
    {
        let step: CheckStep = check.next(plan, event, now);
        let ghost made = step;
        let reading: ConnectionStep = match step {
            CheckStep::Continue(check) => ConnectionStep::Continue(check),
            CheckStep::Done { snapshot, remember } => {
                if let Some(code) = remember {
                    self.last_country_code = Some(code);
                }
                ConnectionStep::Done(snapshot)
            },
        };
        proof {
            assert(is_next_check(*plan, check, event, now, made));
            assert(is_next_reading(
                made,
                opt_text(old(self).last_country_code),
                reading,
                opt_text(self.last_country_code),
            ));
        }
        reading
    }
}

/// A check that goes through all its stages ends with a working route; and it comes that far
/// only with every required process running, a proxy on this machine, and a health probe that
/// was answered with success.
pub proof fn law_only_a_complete_route_is_healthy(
    plan: ConnectionPlan,
    check: Check,
    processes: Result<ProcessSet, Diagnostic>,
    first: CheckStep,
    proxy: Result<String, Diagnostic>,
    second: CheckStep,
    health: Result<RouteProbeResult, Diagnostic>,
    third: CheckStep,
    country: Result<RouteProbeResult, Diagnostic>,
    last: CheckStep,
    now: u64,
)
    requires
        check.stage is Processes,
        is_next_check(plan, check, CheckEvent::Processes(processes), now, first),
        first is Continue,
        is_next_check(plan, first->Continue_0, CheckEvent::Proxy(proxy), now, second),
        second is Continue,
        is_next_check(plan, second->Continue_0, CheckEvent::Probe(health), now, third),
        third is Continue,
        is_next_check(plan, third->Continue_0, CheckEvent::Probe(country), now, last),
    ensures
        processes is Ok,
        forall|i: int|
            0 <= i < plan.required@.len() ==> processes->Ok_0@.contains(
                (#[trigger] plan.required@[i])@,
            ),
        proxy is Ok && loopback(proxy->Ok_0@),
        health is Ok && 200 <= health->Ok_0.http_status < 300,
        last matches CheckStep::Done { snapshot, remember: _ } && is_healthy(
            snapshot,
            country_after(opt_text(check.country_code), country),
            health->Ok_0.latency_ms,
            now,
        ),
{
    let required = texts(plan.required@);
    law_nothing_missing_means_all_run(required, processes->Ok_0@);
    assert forall|i: int| 0 <= i < plan.required@.len() implies processes->Ok_0@.contains(
        (#[trigger] plan.required@[i])@,
    ) by {
        assert(required[i] == plan.required@[i]@);
    }
}

/// A country that was seen once stays known while later probes do not tell one.
pub proof fn law_a_seen_country_stays_known(
    plan: ConnectionPlan,
    check: Check,
    event: CheckEvent,
    now: u64,
    step: CheckStep,
)
    requires
        check.country_code is Some,
        is_next_check(plan, check, event, now, step),
    ensures
        match step {
            CheckStep::Continue(next) => opt_text(next.country_code) == opt_text(
                check.country_code,
            ),
            CheckStep::Done { snapshot, remember } => {
                &&& snapshot.country_code is Some
                &&& remember is Some ==> opt_text(remember) == opt_text(snapshot.country_code)
                &&& remember is None ==> opt_text(snapshot.country_code) == opt_text(
                    check.country_code,
                )
            },
        },
{
}

/// A check that ends blocked: it shows the country last seen and no latency, remembers nothing,
/// and tells a reason with this code.
pub open spec fn blocked_with(step: CheckStep, check: Check, code: Seq<char>, now: u64) -> bool {
    step matches CheckStep::Done { snapshot, remember } && {
        &&& snapshot.state == TomatoConnectionState::Blocked
        &&& opt_text(snapshot.country_code) == opt_text(check.country_code)
        &&& snapshot.latency_ms is None
        &&& snapshot.observed_at_ms == now
        &&& snapshot.diagnostic matches Some(diagnostic) && diagnostic.code@ == code
        &&& remember is None
    }
}

/// Whatever fails at a stage ends the check with that failure as the reason.
pub proof fn law_a_failure_ends_the_check(
    plan: ConnectionPlan,
    check: Check,
    event: CheckEvent,
    failure: Diagnostic,
    now: u64,
    step: CheckStep,
)
    requires
        call_ensures(Check::next, (check, &plan, event, now), step),
        (check.stage is Processes && event == CheckEvent::Processes(Err(failure))) || (
        check.stage is Proxy && event == CheckEvent::Proxy(Err(failure))) || (check.stage is Health
            && event == CheckEvent::Probe(Err(failure))),
    ensures
        blocked_with(step, check, failure.code@, now),
        step matches CheckStep::Done { snapshot, remember: _ } && (
        snapshot.diagnostic matches Some(diagnostic) && diagnostic.message@ == failure.message@
            && opt_text(diagnostic.detail) == opt_text(failure.detail)),
{
    assert(is_next_check(plan, check, event, now, step));
    let shown = step->snapshot.diagnostic->Some_0;
    assert(shown@ == failure@);
    assert(shown@.code == shown.code@ && shown@.message == shown.message@ && shown@.detail
        == opt_text(shown.detail));
    assert(failure@.code == failure.code@ && failure@.message == failure.message@ && failure@.detail
        == opt_text(failure.detail));
}

/// The check goes on to the proxy exactly where every required process runs.
pub proof fn law_every_required_process_must_run(
    plan: ConnectionPlan,
    check: Check,
    running: ProcessSet,
    now: u64,
    step: CheckStep,
)
    requires
        call_ensures(
            Check::next,
            (check, &plan, CheckEvent::Processes(Ok(running)), now),
            step,
        ),
        check.stage is Processes,
    ensures
        ({
            let all_run = forall|i: int|
                0 <= i < plan.required@.len() ==> running@.contains(
                    (#[trigger] plan.required@[i])@,
                );
            &&& all_run ==> (step matches CheckStep::Continue(next) && next.stage is Proxy
                && opt_text(next.country_code) == opt_text(check.country_code))
            &&& !all_run ==> blocked_with(step, check, "CRV-401"@, now)
        }),
{
    assert(is_next_check(plan, check, CheckEvent::Processes(Ok(running)), now, step));
    let required = texts(plan.required@);
    law_nothing_missing_means_all_run(required, running@);
    assert forall|i: int| 0 <= i < plan.required@.len() implies required[i] == (
    #[trigger] plan.required@[i])@ by {}
    assert forall|i: int| 0 <= i < required.len() implies (#[trigger] required[i])
        == plan.required@[i]@ by {}
    if let CheckStep::Done { snapshot, remember } = step {
        assert(snapshot.diagnostic->Some_0@.code == snapshot.diagnostic->Some_0.code@);
    }
}

/// The check goes on to the health probe exactly where the proxy is on this machine, and through
/// that proxy.
pub proof fn law_the_proxy_must_be_on_this_machine(
    plan: ConnectionPlan,
    check: Check,
    found: String,
    now: u64,
    step: CheckStep,
)
    requires
        call_ensures(Check::next, (check, &plan, CheckEvent::Proxy(Ok(found)), now), step),
        check.stage is Proxy,
    ensures
        loopback(found@) ==> (step matches CheckStep::Continue(next) && opt_text(next.country_code)
            == opt_text(check.country_code) && (next.stage matches Stage::Health { proxy }
            && proxy@ == found@)),
        !loopback(found@) ==> blocked_with(step, check, "CRV-403"@, now),
{
    assert(is_next_check(plan, check, CheckEvent::Proxy(Ok(found)), now, step));
    if let CheckStep::Done { snapshot, remember } = step {
        assert(snapshot.diagnostic->Some_0@.code == snapshot.diagnostic->Some_0.code@);
    }
}

/// The check goes on to the country probe exactly where the health probe was answered with a
/// status from 200 to 299, with its latency and through the same proxy; another status is told.
pub proof fn law_the_health_probe_must_succeed(
    plan: ConnectionPlan,
    check: Check,
    probe: RouteProbeResult,
    now: u64,
    step: CheckStep,
)
    requires
        call_ensures(Check::next, (check, &plan, CheckEvent::Probe(Ok(probe)), now), step),
        check.stage is Health,
    ensures
        200 <= probe.http_status <= 299 ==> (step matches CheckStep::Continue(next) && opt_text(
            next.country_code,
        ) == opt_text(check.country_code) && (next.stage matches Stage::Country {
            proxy,
            latency_ms,
        } && proxy@ == check.stage->Health_proxy@ && latency_ms == probe.latency_ms)),
        probe.http_status < 200 || 300 <= probe.http_status ==> blocked_with(
            step,
            check,
            "CRV-404"@,
            now,
        ) && (step->snapshot.diagnostic->Some_0.detail matches Some(detail) && exists|
            before: Seq<char>,
        |
            detail@ == #[trigger] (before + decimal(probe.http_status as nat))),
{
    assert(is_next_check(plan, check, CheckEvent::Probe(Ok(probe)), now, step));
    if let CheckStep::Done { snapshot, remember } = step {
        let shown = snapshot.diagnostic->Some_0;
        assert(shown@.code == shown.code@ && shown@.detail == opt_text(shown.detail));
    }
}

/// After the country probe the route works, whatever that probe gave, with the latency of the
/// health probe. A reply with the status 200 that names a country makes it the one shown and
/// remembered; else the one last seen is shown.
pub proof fn law_the_country_probe_only_tells_the_country(
    plan: ConnectionPlan,
    check: Check,
    probe: Result<RouteProbeResult, Diagnostic>,
    now: u64,
    step: CheckStep,
)
    requires
        call_ensures(Check::next, (check, &plan, CheckEvent::Probe(probe), now), step),
        check.stage is Country,
    ensures
        step matches CheckStep::Done { snapshot, remember } && {
            let told = if probe is Ok && probe->Ok_0.http_status == 200 {
                country_of(probe->Ok_0.body@)
            } else {
                None
            };
            &&& snapshot.state == TomatoConnectionState::Healthy
            &&& snapshot.latency_ms == Some(check.stage->Country_latency_ms)
            &&& snapshot.observed_at_ms == now
            &&& snapshot.diagnostic is None
            &&& told is Some ==> opt_text(snapshot.country_code) == told && opt_text(remember)
                == told
            &&& told is None ==> opt_text(snapshot.country_code) == opt_text(check.country_code)
            &&& told is None && remember is Some ==> opt_text(remember) == opt_text(
                check.country_code,
            )
        },
{
    assert(is_next_check(plan, check, CheckEvent::Probe(probe), now, step));
}

/// An event that belongs to another stage changes nothing.
pub proof fn law_other_events_change_nothing(
    plan: ConnectionPlan,
    check: Check,
    event: CheckEvent,
    now: u64,
    step: CheckStep,
)
    requires
        call_ensures(Check::next, (check, &plan, event, now), step),
        !(check.stage is Processes && event is Processes),
        !(check.stage is Proxy && event is Proxy),
        !((check.stage is Health || check.stage is Country) && event is Probe),
    ensures
        step == CheckStep::Continue(check),
{
    assert(is_next_check(plan, check, event, now, step));
}

/// A reading begins with the country last seen. It keeps that country for later readings until it
/// ends with another one that the country probe told.
pub proof fn law_the_last_country_is_remembered(
    service: &mut TomatoCloudService,
    plan: ConnectionPlan,
    check: Check,
    event: CheckEvent,
    now: u64,
    reading: ConnectionStep,
)
    requires
        call_ensures(
            TomatoCloudService::read_connection,
            (service, &plan, check, event, now),
            reading,
        ),
    ensures
        reading is Continue ==> opt_text(final(service).last_country_code) == opt_text(
            old(service).last_country_code,
        ),
        reading matches ConnectionStep::Done(snapshot) ==> {
            &&& snapshot.state == TomatoConnectionState::Blocked ==> opt_text(
                final(service).last_country_code,
            ) == opt_text(old(service).last_country_code)
            &&& check.stage is Country && (event matches CheckEvent::Probe(Ok(probe))
                && probe.http_status == 200 && country_of(probe.body@) is Some) ==> opt_text(
                final(service).last_country_code,
            ) == country_of(event->Probe_0->Ok_0.body@) && opt_text(snapshot.country_code)
                == country_of(event->Probe_0->Ok_0.body@)
        },
{
    let step = choose|step: CheckStep| #[trigger]
        is_next_check(plan, check, event, now, step) && is_next_reading(
            step,
            opt_text(old(service).last_country_code),
            reading,
            opt_text(final(service).last_country_code),
        );
    assert(is_next_check(plan, check, event, now, step));
}

/// A service begins without a country, and every check of it at the first stage, with the country
/// last seen.
pub proof fn law_checks_begin_with_the_processes(
    fresh: TomatoCloudService,
    service: TomatoCloudService,
    check: Check,
)
    requires
        call_ensures(TomatoCloudService::new, (), fresh),
        call_ensures(TomatoCloudService::begin_check, (&service,), check),
    ensures
        fresh.last_country_code is None,
        check.stage is Processes,
        opt_text(check.country_code) == opt_text(service.last_country_code),
{
}

/// A country code is two letters: those of the text, white space around them aside, in upper
/// case; only for `GB` it is `UK`. Nothing else gives a code.
pub proof fn law_country_codes_are_two_letters(text: &str, code: Option<String>)
    requires
        call_ensures(normalize_country, (text,), code),
    ensures
        ({
            let inner = trimmed(text@);
            let letters = inner.len() == 2 && forall|i: int|
                0 <= i < 2 ==> (65 <= (#[trigger] inner[i]) as int <= 90) || (97
                    <= inner[i] as int <= 122);
            &&& code is Some <==> letters
            &&& code matches Some(shown) ==> {
                &&& shown@.len() == 2
                &&& shown@ != "GB"@
                &&& forall|i: int| 0 <= i < 2 ==> 65 <= (#[trigger] shown@[i]) as int <= 90
                &&& shown@ != "UK"@ ==> forall|i: int|
                    0 <= i < 2 ==> (#[trigger] shown@[i]) as int == inner[i] as int || (
                    shown@[i]) as int + 32 == inner[i] as int
                &&& shown@ == "UK"@ ==> {
                    let first = inner[0] as int;
                    let second = inner[1] as int;
                    ((first == 85 || first == 117) && (second == 75 || second == 107)) || ((first
                        == 71 || first == 103) && (second == 66 || second == 98))
                }
            }
        }),
{
    reveal_strlit("GB");
    reveal_strlit("UK");
    let inner = trimmed(text@);
    let raised = upper(inner);
    assert(raised.len() == inner.len());
    assert("GB"@.len() == 2 && "UK"@.len() == 2);
    assert("GB"@[0] == 'G' && "GB"@[1] == 'B' && "UK"@[0] == 'U' && "UK"@[1] == 'K');
    if inner.len() == 2 {
        let first = inner[0];
        let second = inner[1];
        assert(raised[0] == upper_char(first) && raised[1] == upper_char(second));
        assert(raised == "GB"@ <==> raised[0] == 'G' && raised[1] == 'B') by {
            if raised[0] == 'G' && raised[1] == 'B' {
                assert(raised =~= "GB"@);
            }
        }
        if let Some(shown) = code {
            let view = shown@;
            assert(view == if raised == "GB"@ {
                "UK"@
            } else {
                raised
            });
            if raised != "GB"@ {
                assert(view[0] == raised[0] && view[1] == raised[1]);
            }
        }
    }
    if let Some(shown) = code {
        assert(shown@.len() == 2);
    }
}

/// The country of a reply is the text at `country`; a reply that is no JSON, or tells no such text,
/// tells none.
pub proof fn law_the_country_is_a_member(body: &str, code: Option<String>)
    requires
        call_ensures(country_code_from_body, (body,), code),
    ensures
        code is Some ==> (json_document(body@) matches Ok(reply) && (json_object(
            reply,
        ) matches Some(members) && members.contains_key("country"@) && (json_str(
            members["country"@],
        ) matches Some(text) && opt_text(code) == normalized_country(text)))),
        json_document(body@) matches Ok(reply) ==> (json_object(reply) matches Some(members)
            ==> members.contains_key("country"@) ==> (json_str(members["country"@]) matches Some(
            text,
        ) ==> opt_text(code) == normalized_country(text))),
{
}

/// An endpoint is the one that its variable names, white space around it aside; where that is not
/// set or blank, the usual one.
pub proof fn law_endpoints_are_named_or_usual(
    environment: Environment,
    os: OperatingSystem,
    plan: ConnectionPlan,
)
    requires
        call_ensures(ConnectionPlan::from_environment, (&environment, os), plan),
    ensures
        match lookup(environment@, "CODEX_CREDITS_HEALTH_ENDPOINT"@) {
            Some(named) => if trimmed(named).len() > 0 {
                plan.health_endpoint@ == trimmed(named)
            } else {
                plan.health_endpoint@ == "https://www.gstatic.com/generate_204"@
            },
            None => plan.health_endpoint@ == "https://www.gstatic.com/generate_204"@,
        },
        match lookup(environment@, "CODEX_CREDITS_COUNTRY_ENDPOINT"@) {
            Some(named) => if trimmed(named).len() > 0 {
                plan.country_endpoint@ == trimmed(named)
            } else {
                plan.country_endpoint@ == "https://api.country.is/"@
            },
            None => plan.country_endpoint@ == "https://api.country.is/"@,
        },
        lookup(environment@, "CODEX_CREDITS_TOMATO_PROCESSES"@) is None ==> plan.required@.len()
            == 2 && plan.required@[0]@ == (if os is Windows {
            "tomato-cloud.exe"@
        } else {
            "tomato-cloud"@
        }) && plan.required@[1]@ == (if os is Windows {
            "tomato-dataplane-agent.exe"@
        } else {
            "tomato-helper"@
        }),
{
    let names = texts(plan.required@);
    assert(names.len() == plan.required@.len());
    if names.len() == 2 {
        assert(names[0] == plan.required@[0]@ && names[1] == plan.required@[1]@);
    }
}

/// How a setting lists processes: what stands before a comma or a semicolon is one, white space
/// around it aside and unless it is blank, and what follows is listed likewise.
pub proof fn law_processes_are_listed_one_by_one(first: Seq<char>, mark: char, rest: Seq<char>)
    requires
        mark == ',' || mark == ';',
        forall|i: int| 0 <= i < first.len() ==> (#[trigger] first[i]) != ',' && first[i] != ';',
    ensures
        listed_processes(first) == if trimmed(first).len() > 0 {
            seq![trimmed(first)]
        } else {
            seq![]
        },
        listed_processes(first + seq![mark] + rest) == listed_processes(first) + listed_processes(
            rest,
        ),
{
    let class = one_of(seq![',', ';']);
    let marks = seq![',', ';'];
    assert(marks[0] == ',' && marks[1] == ';');
    let whole = first + seq![mark] + rest;
    let n = first.len() as int;
    assert forall|i: int| 0 <= i < n implies !class(#[trigger] first[i]) by {
        if marks.contains(first[i]) {
            let k = choose|k: int| 0 <= k < marks.len() && marks[k] == first[i];
        }
    }
    lemma_first_of_is(first, class, n);
    assert forall|i: int| 0 <= i < n implies !class(#[trigger] whole[i]) by {
        assert(whole[i] == first[i]);
    }
    assert(whole[n] == mark);
    assert(marks.contains(mark));
    lemma_first_of_is(whole, class, n);
    assert(whole.take(n) =~= first);
    assert(whole.skip(n + 1) =~= rest);
    assert(pieces(first, class) =~= seq![first]);
    assert(pieces(whole, class) =~= seq![first] + pieces(rest, class));
    let one = seq![first];
    lemma_filled_of_both(one, pieces(rest, class));
    assert(one.drop_last() =~= Seq::<Seq<char>>::empty());
    assert(filled(one.drop_last()) =~= Seq::<Seq<char>>::empty());
    assert(one.last() == first);
    if trimmed(first).len() > 0 {
        assert(filled(one) =~= seq![trimmed(first)]);
    } else {
        assert(filled(one) =~= Seq::<Seq<char>>::empty());
    }
}

/// The filled texts of two lists, one after the other.
proof fn lemma_filled_of_both(first: Seq<Seq<char>>, second: Seq<Seq<char>>)
    ensures
        filled(first + second) == filled(first) + filled(second),
    decreases second.len(),
{
    let both = first + second;
    if second.len() == 0 {
        assert(both =~= first);
        assert(filled(first) + filled(second) =~= filled(first));
    } else {
        assert(both.drop_last() =~= first + second.drop_last());
        assert(both.last() == second.last());
        lemma_filled_of_both(first, second.drop_last());
        assert(filled(both) =~= filled(first) + filled(second));
    }
}

/// The processes that a setting lists must run, and where it lists none the usual ones.
pub proof fn law_listed_processes_are_required(
    environment: Environment,
    os: OperatingSystem,
    names: Vec<String>,
)
    requires
        call_ensures(resolve_required_processes, (&environment, os), names),
    ensures
        lookup(environment@, "CODEX_CREDITS_TOMATO_PROCESSES"@) matches Some(raw)
            ==> listed_processes(raw).len() > 0 ==> texts(names@) == listed_processes(raw),
        !(lookup(environment@, "CODEX_CREDITS_TOMATO_PROCESSES"@) matches Some(raw)
            && listed_processes(raw).len() > 0) ==> names@.len() == 2 && names@[0]@ == (
        if os is Windows {
            "tomato-cloud.exe"@
        } else {
            "tomato-cloud"@
        }) && names@[1]@ == (if os is Windows {
            "tomato-dataplane-agent.exe"@
        } else {
            "tomato-helper"@
        }),
{
    let list = texts(names@);
    assert(list.len() == names@.len());
    if list.len() == 2 {
        assert(list[0] == names@[0]@ && list[1] == names@[1]@);
    }
}

/// The names that are missing are exactly the required ones that do not run.
pub proof fn law_missing_processes_do_not_run(
    required: Vec<String>,
    running: ProcessSet,
    names: Vec<String>,
    name: Seq<char>,
)
    requires
        call_ensures(missing_processes, (&required, &running), names),
    ensures
        texts(names@).contains(name) <==> texts(required@).contains(name) && !running@.contains(
            name,
        ),
{
    lemma_missing(texts(required@), running@, name);
}

proof fn lemma_missing(required: Seq<Seq<char>>, running: Set<Seq<char>>, name: Seq<char>)
    ensures
        missing(required, running).contains(name) <==> required.contains(name)
            && !running.contains(name),
    decreases required.len(),
{
    let list = missing(required, running);
    if required.len() > 0 {
        let shorter = required.drop_last();
        let rest = missing(shorter, running);
        lemma_missing(shorter, running, name);
        if list.contains(name) {
            let k = choose|k: int| 0 <= k < list.len() && list[k] == name;
            if k < rest.len() {
                assert(rest[k] == name);
                let i = choose|i: int| 0 <= i < shorter.len() && shorter[i] == name;
                assert(required[i] == name);
            } else {
                assert(required[required.len() - 1] == name);
            }
        }
        if required.contains(name) && !running.contains(name) {
            let i = choose|i: int| 0 <= i < required.len() && required[i] == name;
            if i < shorter.len() {
                assert(shorter[i] == name);
                let k = choose|k: int| 0 <= k < rest.len() && rest[k] == name;
                assert(list[k] == name);
            } else {
                assert(list[list.len() - 1] == name);
            }
        }
    }
}

/// A probe asks at its endpoint, which is the last argument, through the proxy, within the limits
/// that it is given, and does not try again.
pub proof fn law_probes_go_through_the_proxy(
    proxy: &str,
    endpoint: &str,
    settings: ProbeSettings,
    args: Vec<String>,
)
    requires
        call_ensures(probe_arguments, (proxy, endpoint, &settings), args),
    ensures
        args@.len() > 0 && args@.last()@ == endpoint@,
        exists|k: int|
            0 <= k < args@.len() - 2 && (#[trigger] args@[k])@ == "--proxy"@ && args@[k + 1]@
                == "http://"@ + proxy@,
        exists|k: int|
            0 <= k < args@.len() - 2 && (#[trigger] args@[k])@ == "--connect-timeout"@ && args@[k
                + 1]@ == settings.connect_timeout@,
        exists|k: int|
            0 <= k < args@.len() - 2 && (#[trigger] args@[k])@ == "--max-time"@ && args@[k + 1]@
                == settings.max_time@,
        exists|k: int|
            0 <= k < args@.len() - 2 && (#[trigger] args@[k])@ == "--output"@ && args@[k + 1]@
                == "-"@,
        exists|k: int|
            0 <= k < args@.len() - 2 && (#[trigger] args@[k])@ == "--write-out"@ && args@[k + 1]@
                == "\n%{http_code} %{time_total}"@,
        exists|k: int|
            0 <= k < args@.len() - 2 && (#[trigger] args@[k])@ == "--retry"@ && args@[k + 1]@
                == "0"@,
{
    let list = texts(args@);
    assert(list.len() == 15);
    assert(list[2] == args@[2]@ && list[3] == args@[3]@);
    assert(list[4] == args@[4]@ && list[5] == args@[5]@);
    assert(list[6] == args@[6]@ && list[7] == args@[7]@);
    assert(list[8] == args@[8]@ && list[9] == args@[9]@);
    assert(list[10] == args@[10]@ && list[11] == args@[11]@);
    assert(list[12] == args@[12]@ && list[13] == args@[13]@);
    assert(list[14] == args@[14]@);
}

/// A command that did not give its output fails the stage that it was run for, with its words; one
/// that gave it without success fails that stage too.
pub proof fn law_commands_that_fail_are_told(
    os: OperatingSystem,
    outcome: Result<CommandOutput, CommandFailure>,
    seconds: Option<Double>,
    processes: Result<ProcessSet, Diagnostic>,
    flag: Result<(), Diagnostic>,
    server: Result<String, Diagnostic>,
    proxy: Result<String, Diagnostic>,
    probe: Result<RouteProbeResult, Diagnostic>,
)
    requires
        call_ensures(read_running_processes, (os, outcome), processes),
        call_ensures(read_proxy_flag, (outcome,), flag),
        call_ensures(read_proxy_server, (outcome,), server),
        call_ensures(read_system_proxy, (outcome,), proxy),
        call_ensures(route_probe, (outcome, seconds), probe),
    ensures
        outcome is Err || (outcome is Ok && !outcome->Ok_0.success) ==> {
            &&& processes matches Err(diagnostic) && diagnostic.code@ == "CRV-400"@
            &&& flag matches Err(diagnostic) && diagnostic.code@ == "CRV-402"@
            &&& server matches Err(diagnostic) && diagnostic.code@ == "CRV-402"@
            &&& proxy matches Err(diagnostic) && diagnostic.code@ == "CRV-402"@
        },
        probe matches Err(diagnostic) ==> diagnostic.code@ == "CRV-404"@,
        outcome matches Err(CommandFailure::Failed(error)) ==> {
            &&& processes matches Err(diagnostic) && opt_text(diagnostic.detail) == Some(error@)
            &&& flag matches Err(diagnostic) && opt_text(diagnostic.detail) == Some(error@)
            &&& server matches Err(diagnostic) && opt_text(diagnostic.detail) == Some(error@)
            &&& proxy matches Err(diagnostic) && opt_text(diagnostic.detail) == Some(error@)
            &&& probe matches Err(diagnostic) && opt_text(diagnostic.detail) == Some(error@)
        },
        outcome is Ok && outcome->Ok_0.success ==> processes is Ok,
{
    if let Err(shown) = processes {
        assert(shown@.code == shown.code@ && shown@.detail == opt_text(shown.detail));
    }
    if let Err(shown) = flag {
        assert(shown@.code == shown.code@ && shown@.detail == opt_text(shown.detail));
    }
    if let Err(shown) = server {
        assert(shown@.code == shown.code@ && shown@.detail == opt_text(shown.detail));
    }
    if let Err(shown) = proxy {
        assert(shown@.code == shown.code@ && shown@.detail == opt_text(shown.detail));
    }
    if let Err(shown) = probe {
        assert(shown@.code == shown.code@ && shown@.detail == opt_text(shown.detail));
    }
}

/// The probe for the country is the quicker one to give up, and a process gets one second more than
/// its probe.
pub proof fn law_probes_give_up_in_time(health: ProbeSettings, country: ProbeSettings)
    requires
        call_ensures(health_probe, (), health),
        call_ensures(country_probe, (), country),
    ensures
        health.connect_timeout@ == decimal(5) && health.max_time@ == decimal(8)
            && health.command_timeout_secs == 8 + 1,
        country.connect_timeout@ == decimal(1) && country.max_time@ == decimal(2)
            && country.command_timeout_secs == 2 + 1,
{
    reveal_strlit("5");
    reveal_strlit("8");
    reveal_strlit("1");
    reveal_strlit("2");
    assert("5"@ =~= decimal(5));
    assert("8"@ =~= decimal(8));
    assert("1"@ =~= decimal(1));
    assert("2"@ =~= decimal(2));
}

/// What a command printed is read by what it was run for: on Windows as the output of `tasklist`
/// and of the registry, elsewhere as that of `ps` and of `scutil`; and what is not found there is
/// a failure.
pub proof fn law_outputs_are_read_for_their_purpose(
    os: OperatingSystem,
    output: CommandOutput,
    raw: &str,
    seconds: Option<Double>,
    tasks: ProcessSet,
    listed: ProcessSet,
    found_server: Option<String>,
    found_proxy: Option<String>,
    found_probe: Option<RouteProbeResult>,
    processes: Result<ProcessSet, Diagnostic>,
    server: Result<String, Diagnostic>,
    proxy: Result<String, Diagnostic>,
    probe: Result<RouteProbeResult, Diagnostic>,
)
    requires
        output.success,
        raw@ == output.stdout@,
        call_ensures(parse_tasklist, (raw,), tasks),
        call_ensures(parse_process_list, (raw,), listed),
        call_ensures(extract_proxy_server, (raw,), found_server),
        call_ensures(extract_scutil_proxy, (raw,), found_proxy),
        call_ensures(parse_curl_output, (raw, seconds), found_probe),
        call_ensures(read_running_processes, (os, Ok(output)), processes),
        call_ensures(read_proxy_server, (Ok(output),), server),
        call_ensures(read_system_proxy, (Ok(output),), proxy),
        call_ensures(route_probe, (Ok(output), seconds), probe),
    ensures
        processes matches Ok(set) && set@ == if os is Windows {
            tasks@
        } else {
            listed@
        },
        match found_server {
            Some(found) => server matches Ok(shown) && shown@ == found@,
            None => server is Err,
        },
        match found_proxy {
            Some(found) => proxy matches Ok(shown) && shown@ == found@,
            None => proxy is Err,
        },
        match found_probe {
            Some(found) => probe matches Ok(shown) && shown.http_status == found.http_status
                && shown.body@ == found.body@,
            None => probe is Err,
        },
{
}

} // verus!
