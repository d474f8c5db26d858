//! The TomatoCloud route: what the commands print, and what a check makes of it.

use quodex::diagnostic::Diagnostic;
use quodex::double::Double;
use quodex::environment::Environment;
use quodex::paths::OperatingSystem;
use quodex::process_output::{
    extract_proxy_server, extract_scutil_proxy, is_loopback_proxy, latency_field,
    parse_curl_output, parse_process_list, parse_tasklist, registry_flag_is_enabled,
    CommandFailure, CommandOutput, ProcessSet, RouteProbeResult,
};
use quodex::tomato_cloud::{
    country_code_from_body, country_code_of, country_probe, health_probe, missing_processes,
    normalize_country, probe_arguments, read_proxy_flag, read_proxy_server,
    read_running_processes, read_system_proxy, resolve_endpoint, resolve_required_processes,
    route_probe, Check, CheckEvent, CheckStep, ConnectionPlan,
    ConnectionStep, Stage, TomatoCloudService,
    TomatoConnectionSnapshot, TomatoConnectionState, COUNTRY_ENDPOINT, HEALTH_ENDPOINT,
};

fn seconds_in(raw: &str) -> Option<Double> {
    let seconds: f64 = latency_field(raw)?.parse().ok()?;
    Some(Double::from_bits(seconds.to_bits()))
}

fn probe(raw: &str) -> Option<RouteProbeResult> {
    parse_curl_output(raw, seconds_in(raw))
}

fn environment(entries: &[(&str, &str)]) -> Environment {
    Environment::new(
        entries
            .iter()
            .map(|(name, value)| ((*name).to_owned(), (*value).to_owned()))
            .collect(),
    )
}

fn printed(stdout: &str) -> Result<CommandOutput, CommandFailure> {
    Ok(CommandOutput { success: true, stdout: stdout.to_owned() })
}

fn refused() -> Result<CommandOutput, CommandFailure> {
    Ok(CommandOutput { success: false, stdout: String::new() })
}

#[test]
fn parses_running_processes_without_relying_on_localized_tasklist_headers() {
    let processes = parse_tasklist(
        "\"tomato-cloud.exe\",\"108\",\"Console\",\"1\",\"10,000 K\"\n\"tomato-dataplane-agent.exe\",\"109\",\"Console\",\"1\",\"12,000 K\"",
    );
    assert!(processes.contains("tomato-cloud.exe"));
    assert!(processes.contains("tomato-dataplane-agent.exe"));
}

#[test]
fn parses_process_names_from_ps_comm_output() {
    let processes =
        parse_process_list("launchd\nWindowServer\ntomato-cloud\ntomato-helper\n\nloginwindow");
    assert!(processes.contains("tomato-cloud"));
    assert!(processes.contains("tomato-helper"));
    assert!(processes.contains("loginwindow"));
    assert!(!processes.contains(""));
}

#[test]
fn parses_a_protocol_specific_loopback_proxy() {
    let raw = "    ProxyServer    REG_SZ    http=127.0.0.1:7888;https=127.0.0.1:7888";
    assert_eq!(extract_proxy_server(raw).as_deref(), Some("127.0.0.1:7888"));
    assert!(is_loopback_proxy("127.0.0.1:7888"));
    assert!(!is_loopback_proxy("example.org:443"));
}

#[test]
fn parses_a_loopback_proxy_from_scutil_output() {
    let raw = "<dictionary> {\n  HTTPSEnable : 1\n  HTTPSPort : 7888\n  HTTPSProxy : 127.0.0.1\n  SOCKSEnable : 0\n}";
    assert_eq!(extract_scutil_proxy(raw).as_deref(), Some("127.0.0.1:7888"));
    assert!(is_loopback_proxy("127.0.0.1:7888"));
    assert!(!is_loopback_proxy("example.org:443"));
}

#[test]
fn ignores_disabled_or_incomplete_scutil_proxies() {
    let disabled = "<dictionary> {\n  HTTPSEnable : 0\n  HTTPSProxy : 127.0.0.1\n}";
    assert_eq!(extract_scutil_proxy(disabled), None);
    let no_proxy = "<dictionary> {\n  HTTPSEnable : 1\n}";
    assert_eq!(extract_scutil_proxy(no_proxy), None);
}

#[test]
fn parses_curl_metadata_and_normalizes_exit_country() {
    let result =
        probe("{\"ip\":\"203.0.113.10\",\"country\":\"GB\"}\n200 0.0427").expect("probe result");
    assert_eq!(result.http_status, 200);
    assert_eq!(result.latency_ms, 43);
    assert_eq!(country_code_from_body(&result.body).as_deref(), Some("UK"));
}

#[test]
fn rejects_disabled_proxy_and_malformed_probe_metadata() {
    assert!(!registry_flag_is_enabled("ProxyEnable    REG_DWORD    0x0"));
    assert!(probe("not a probe result").is_none());
}

#[test]
fn rejects_malformed_probe_metadata() {
    assert!(probe("not a probe result").is_none());
}

#[test]
fn endpoints_can_be_overridden_and_blank_values_fall_back() {
    let lookup = environment(&[(
        "CODEX_CREDITS_HEALTH_ENDPOINT",
        "https://probe.example.test/204",
    )]);
    assert_eq!(
        resolve_endpoint(&lookup, "CODEX_CREDITS_HEALTH_ENDPOINT", HEALTH_ENDPOINT),
        "https://probe.example.test/204"
    );
    assert_eq!(
        resolve_endpoint(&lookup, "CODEX_CREDITS_COUNTRY_ENDPOINT", COUNTRY_ENDPOINT),
        COUNTRY_ENDPOINT
    );

    let blank = environment(&[("CODEX_CREDITS_HEALTH_ENDPOINT", "   ")]);
    assert_eq!(
        resolve_endpoint(&blank, "CODEX_CREDITS_HEALTH_ENDPOINT", HEALTH_ENDPOINT),
        HEALTH_ENDPOINT
    );
}

#[test]
fn process_requirements_can_be_overridden_per_deployment() {
    let lookup = environment(&[(
        "CODEX_CREDITS_TOMATO_PROCESSES",
        "tomato-cloud, tomato-agent ;",
    )]);
    assert_eq!(
        resolve_required_processes(&lookup, OperatingSystem::Other),
        vec!["tomato-cloud".to_owned(), "tomato-agent".to_owned()]
    );

    for (os, defaults) in [
        (
            OperatingSystem::Windows,
            vec!["tomato-cloud.exe".to_owned(), "tomato-dataplane-agent.exe".to_owned()],
        ),
        (
            OperatingSystem::Other,
            vec!["tomato-cloud".to_owned(), "tomato-helper".to_owned()],
        ),
    ] {
        assert_eq!(resolve_required_processes(&environment(&[]), os), defaults);
        assert_eq!(
            resolve_required_processes(
                &environment(&[("CODEX_CREDITS_TOMATO_PROCESSES", " , ;")]),
                os
            ),
            defaults
        );
    }
}

#[test]
fn process_lists_are_lower_case_sets() {
    let processes = parse_process_list("  Tomato-Cloud \r\nTOMATO-cloud\n");
    assert!(processes.contains("tomato-cloud"));
    assert!(!processes.contains("Tomato-Cloud"));
    let tasks = parse_tasklist("  \"Tomato-Cloud.EXE\",\"1\"\nnot quoted\n\"\",\"2\"");
    assert!(tasks.contains("tomato-cloud.exe"));
    assert!(tasks.contains(""));
    assert!(!tasks.contains("not quoted"));
}

#[test]
fn proxies_are_read_from_the_registry() {
    assert!(registry_flag_is_enabled("\r\n  proxyenable  reg_dword  0X1\r\n"));
    assert!(!registry_flag_is_enabled("ProxyEnable REG_DWORD"));
    assert_eq!(
        extract_proxy_server("ProxyServer REG_SZ http=a:1; https=b:2").as_deref(),
        Some("b:2")
    );
    assert_eq!(
        extract_proxy_server("ProxyServer REG_SZ ftp=c:3;http= a:1").as_deref(),
        Some("a:1")
    );
    assert_eq!(extract_proxy_server("ProxyServer REG_SZ  d:4 ").as_deref(), Some("d:4"));
    assert_eq!(extract_proxy_server("ProxyServer REG_SZ   "), None);
    assert_eq!(extract_proxy_server("ProxyServer"), None);
    assert_eq!(
        extract_scutil_proxy("HTTPSEnable : 1\nhttpsproxy : localhost").as_deref(),
        Some("localhost:80")
    );
}

#[test]
fn loopback_proxies_are_those_of_this_machine() {
    for proxy in ["localhost:1", " http://127.0.0.1:80 ", "https://[::1]:65535", "::1:8080"] {
        assert!(is_loopback_proxy(proxy), "{proxy}");
    }
    for proxy in ["localhost", "localhost:0", "localhost:65536", "10.0.0.1:80", "localhost:a", ""] {
        assert!(!is_loopback_proxy(proxy), "{proxy}");
    }
}

#[test]
fn latencies_are_rounded_to_milliseconds() {
    assert_eq!(probe(" body \n204 0.0005").expect("half").latency_ms, 1);
    assert_eq!(probe("\n204 0.0004999").expect("less").latency_ms, 0);
    assert_eq!(probe("\n204 1e300").expect("huge").latency_ms, u64::MAX);
    assert_eq!(probe("a\nb \n204 2").expect("lines").body, "a\nb");
    assert!(probe("\n204 -1").is_none());
    assert!(probe("\n204 NaN").is_none());
    assert!(probe("\n204 inf").is_none());
    assert!(probe("\n70000 1").is_none());
    assert!(probe("\n204").is_none());
    assert_eq!(probe("\n204 -0.0").expect("zero").latency_ms, 0);
}

#[test]
fn countries_are_two_letters() {
    assert_eq!(normalize_country(" de ").as_deref(), Some("DE"));
    assert_eq!(normalize_country("gb").as_deref(), Some("UK"));
    assert_eq!(normalize_country("deu"), None);
    assert_eq!(normalize_country("d1"), None);
    assert_eq!(normalize_country("\u{e9}\u{e9}"), None);
    assert_eq!(country_code_from_body("{\"country\":3}"), None);
    assert_eq!(country_code_from_body("no json"), None);
    let reply = serde_json::from_str("{\"country\":\"us\"}").expect("JSON");
    assert_eq!(country_code_of(&reply).as_deref(), Some("US"));
}

#[test]
fn commands_that_fail_are_reported() {
    for (failure, detail) in [
        (CommandFailure::TimedOut, "The check timed out"),
        (CommandFailure::Failed("gone".to_owned()), "gone"),
    ] {
        let error = read_running_processes(OperatingSystem::Other, Err(failure)).expect_err("fails");
        assert_eq!(error.code, "CRV-400");
        assert_eq!(error.detail.as_deref(), Some(detail));
    }
    assert_eq!(
        read_running_processes(OperatingSystem::Other, refused()).expect_err("fails").detail,
        None
    );
    assert!(read_running_processes(OperatingSystem::Windows, printed("\"A\""))
        .expect("processes")
        .contains("a"));
    assert!(read_proxy_flag(printed("ProxyEnable REG_DWORD 0x1")).is_ok());
    assert_eq!(
        read_proxy_flag(refused()).expect_err("disabled").detail.as_deref(),
        Some("Windows system proxy is not enabled")
    );
    assert_eq!(read_proxy_server(printed("REG_SZ a:1")).expect("server"), "a:1");
    assert_eq!(
        read_proxy_server(refused()).expect_err("no server").detail.as_deref(),
        Some("Windows system proxy does not provide a server")
    );
    assert_eq!(
        read_proxy_server(printed("")).expect_err("no server").detail.as_deref(),
        Some("Windows system proxy server could not be parsed")
    );
    assert_eq!(
        read_system_proxy(refused()).expect_err("unreadable").detail.as_deref(),
        Some("The system proxy configuration could not be read")
    );
    let disabled = read_system_proxy(printed("HTTPSEnable : 0")).expect_err("disabled");
    assert_eq!(disabled.code, "CRV-402");
    assert_eq!(
        read_system_proxy(printed("HTTPSEnable : 1\nHTTPSProxy : a\nHTTPSPort : 2")).expect("proxy"),
        "a:2"
    );
    let text = "not a probe";
    assert_eq!(
        route_probe(printed(text), seconds_in(text)).expect_err("no result").code,
        "CRV-404"
    );
}

#[test]
fn probes_go_through_the_proxy() {
    let args = probe_arguments("127.0.0.1:7888", HEALTH_ENDPOINT, &health_probe());
    assert_eq!(args[12], "--proxy");
    assert_eq!(args[13], "http://127.0.0.1:7888");
    assert_eq!(args[14], "https://www.gstatic.com/generate_204");
    assert_eq!(args[9], "8");
    assert_eq!(probe_arguments("p", COUNTRY_ENDPOINT, &country_probe())[7], "1");
    assert_eq!(country_probe().command_timeout_secs, 3);
}

fn plan() -> ConnectionPlan {
    ConnectionPlan::from_environment(&environment(&[]), OperatingSystem::Other)
}

fn running(names: &[&str]) -> ProcessSet {
    names
        .iter()
        .fold(ProcessSet::new(), |set, name| set.with((*name).to_owned()))
}

fn going_on(step: CheckStep) -> Check {
    match step {
        CheckStep::Continue(check) => check,
        CheckStep::Done { .. } => panic!("the check goes on"),
    }
}

fn done(step: CheckStep) -> (TomatoConnectionSnapshot, Option<String>) {
    match step {
        CheckStep::Done { snapshot, remember } => (snapshot, remember),
        CheckStep::Continue(_) => panic!("the check is over"),
    }
}

fn answered(http_status: u16, latency_ms: u64, body: &str) -> CheckEvent {
    CheckEvent::Probe(Ok(RouteProbeResult { http_status, latency_ms, body: body.to_owned() }))
}

fn failure() -> Diagnostic {
    Diagnostic::new("CRV-404", "TomatoCloud route is unavailable")
}

fn at_country(service: &TomatoCloudService) -> Check {
    let all = running(&["tomato-cloud", "tomato-helper"]);
    let check = going_on(service.begin_check().next(&plan(), CheckEvent::Processes(Ok(all)), 5));
    let check = going_on(check.next(&plan(), CheckEvent::Proxy(Ok("127.0.0.1:7888".to_owned())), 5));
    match &check.stage {
        Stage::Health { proxy } => assert_eq!(proxy, "127.0.0.1:7888"),
        _ => panic!("the route is probed"),
    }
    going_on(check.next(&plan(), answered(204, 42, ""), 5))
}

#[test]
fn a_complete_route_is_healthy_and_its_country_is_remembered() {
    let mut service = TomatoCloudService::new();
    let check = at_country(&service);
    let snapshot = read(&mut service, check, answered(200, 9, "{\"country\":\"jp\"}"), 7);
    assert_eq!(snapshot.state, TomatoConnectionState::Healthy);
    assert_eq!(snapshot.country_code.as_deref(), Some("JP"));
    assert_eq!(snapshot.latency_ms, Some(42));
    assert_eq!(snapshot.observed_at_ms, 7);
    assert!(snapshot.diagnostic.is_none());
    assert_eq!(service.last_country_code.as_deref(), Some("JP"));

    for event in [answered(200, 9, "no json"), answered(503, 9, ""), CheckEvent::Probe(Err(failure()))] {
        let check = at_country(&service);
        let snapshot = read(&mut service, check, event, 8);
        assert_eq!(snapshot.state, TomatoConnectionState::Healthy);
        assert_eq!(snapshot.country_code.as_deref(), Some("JP"));
    }
    assert_eq!(service.last_country_code.as_deref(), Some("JP"));
    let check = at_country(&service);
    read(&mut service, check, answered(200, 9, "{\"country\":\"gb\"}"), 9);
    assert_eq!(service.last_country_code.as_deref(), Some("UK"));
    let begun = service.begin_check();
    let event = CheckEvent::Processes(Ok(running(&["tomato-cloud", "tomato-helper"])));
    match service.read_connection(&plan(), begun, event, 9) {
        ConnectionStep::Continue(check) => assert!(matches!(check.stage, Stage::Proxy)),
        ConnectionStep::Done(_) => panic!("the check goes on"),
    }
}

fn read(
    service: &mut TomatoCloudService,
    check: Check,
    event: CheckEvent,
    now: u64,
) -> TomatoConnectionSnapshot {
    match service.read_connection(&plan(), check, event, now) {
        ConnectionStep::Done(snapshot) => snapshot,
        ConnectionStep::Continue(_) => panic!("the check is over"),
    }
}

#[test]
fn a_route_is_blocked_at_the_first_stage_that_fails() {
    let service = TomatoCloudService { last_country_code: Some("JP".to_owned()) };
    let blocked = |step: CheckStep| {
        let (snapshot, seen) = done(step);
        assert_eq!(snapshot.state, TomatoConnectionState::Blocked);
        assert_eq!(snapshot.country_code.as_deref(), Some("JP"));
        assert_eq!(snapshot.latency_ms, None);
        assert_eq!(seen, None);
        let diagnostic = snapshot.diagnostic.expect("why it is blocked");
        (diagnostic.code, diagnostic.detail)
    };
    let start = || service.begin_check();
    assert_eq!(
        blocked(start().next(&plan(), CheckEvent::Processes(Ok(running(&["other"]))), 1)),
        (
            "CRV-401",
            Some("Missing required runtime: tomato-cloud, tomato-helper".to_owned())
        )
    );
    assert_eq!(
        blocked(start().next(&plan(), CheckEvent::Processes(Err(failure())), 1)).0,
        "CRV-404"
    );
    let proxy = || {
        going_on(start().next(
            &plan(),
            CheckEvent::Processes(Ok(running(&["tomato-cloud", "tomato-helper"]))),
            1,
        ))
    };
    assert_eq!(
        blocked(proxy().next(&plan(), CheckEvent::Proxy(Ok("example.org:443".to_owned())), 1)),
        (
            "CRV-403",
            Some("The enabled system HTTPS proxy is not a loopback endpoint".to_owned())
        )
    );
    let health =
        || going_on(proxy().next(&plan(), CheckEvent::Proxy(Ok("localhost:1".to_owned())), 1));
    assert_eq!(
        blocked(health().next(&plan(), answered(302, 3, ""), 1)),
        ("CRV-404", Some("Health probe returned HTTP 302".to_owned()))
    );
    assert_eq!(
        blocked(health().next(&plan(), CheckEvent::Probe(Err(failure())), 1)).1,
        None
    );
    let waiting = going_on(health().next(&plan(), CheckEvent::Proxy(Ok("x:1".to_owned())), 1));
    assert!(matches!(waiting.stage, Stage::Health { .. }));
}

#[test]
fn missing_processes_keep_their_order() {
    let required = vec!["b".to_owned(), "a".to_owned(), "c".to_owned()];
    assert_eq!(
        missing_processes(&required, &running(&["a"])),
        vec!["b".to_owned(), "c".to_owned()]
    );
    let plan = ConnectionPlan::from_environment(
        &environment(&[
            ("CODEX_CREDITS_TOMATO_PROCESSES", "  x;y "),
            ("CODEX_CREDITS_COUNTRY_ENDPOINT", " https://c.test "),
        ]),
        OperatingSystem::Windows,
    );
    assert_eq!(plan.required, vec!["x".to_owned(), "y".to_owned()]);
    assert_eq!(plan.country_endpoint, "https://c.test");
    assert_eq!(plan.health_endpoint, HEALTH_ENDPOINT);
}
