//! The Codex quota: readings, updates, and the conversation with the app-server.

use quodex::app_server::{account_id_of, fixture_path, read_account_id, AppServerCommand};
use quodex::capacity::{
    classify_windows, nearest_expiry, normalize_window, parse_snapshot, CapacityService,
    CapacitySnapshot, Diagnostic, QuotaWindowWire, RateLimitReadResult, RateLimits,
    ResetCreditWire, ResetCreditsWire, SourceState,
};
use quodex::codex_install::{
    codex_auth_path, codex_binary_name, desktop_app_bundled_candidates,
    extra_executable_candidates, find_on_path, local_runtime_candidates, resolve_codex_executable,
    store_candidates, Found,
};
use quodex::conversation::{
    apply_message, channel_failure, greeting, judge_line, judge_message, merge_sparse_update,
    message_line, notice, question, ChannelFailure, Session, SessionEvent, SessionStep, Verdict,
};
use quodex::double::Double;
use quodex::environment::Environment;
use quodex::json::{get_str, get_u64};
use quodex::paths::{FilePath, OperatingSystem};
use serde_json::Value;

fn parse(text: &str) -> Value {
    serde_json::from_str(text).expect("valid JSON")
}

fn window(value: &Value) -> Result<Option<QuotaWindowWire>, String> {
    if value.is_null() {
        return Ok(None);
    }
    let used = value["usedPercent"].as_f64().ok_or("missing field `usedPercent`")?;
    Ok(Some(QuotaWindowWire {
        used_percent: Double::from_bits(used.to_bits()),
        used_percent_shown: used.to_string(),
        window_duration_mins: value["windowDurationMins"]
            .as_u64()
            .ok_or("missing field `windowDurationMins`")?,
        resets_at: value["resetsAt"].as_u64().ok_or("missing field `resetsAt`")?,
    }))
}

fn decode(value: &Value) -> Result<RateLimitReadResult, String> {
    let limits = value.get("rateLimits").ok_or("missing field `rateLimits`")?;
    let credits = match &value["rateLimitResetCredits"] {
        Value::Null => None,
        credits => Some(ResetCreditsWire {
            available_count: credits["availableCount"]
                .as_u64()
                .ok_or("missing field `availableCount`")?,
            credits: credits["credits"].as_array().map(|rows| {
                rows.iter()
                    .map(|row| ResetCreditWire {
                        status: row["status"].as_str().unwrap_or_default().to_owned(),
                        expires_at: row["expiresAt"].as_u64(),
                    })
                    .collect()
            }),
        }),
    };
    Ok(RateLimitReadResult {
        rate_limits: RateLimits {
            primary: window(&limits["primary"])?,
            secondary: window(&limits["secondary"])?,
            plan_type: limits["planType"].as_str().map(str::to_owned),
        },
        rate_limit_reset_credits: credits,
    })
}

fn snapshot_of(text: &str, account_id: Option<&str>) -> Result<CapacitySnapshot, Diagnostic> {
    parse_snapshot(decode(&parse(text)), account_id.map(str::to_owned), 17)
}

fn number(double: Double) -> f64 {
    f64::from_bits(double.bits)
}

fn environment(entries: &[(&str, &str)]) -> Environment {
    Environment::new(
        entries
            .iter()
            .map(|(name, value)| ((*name).to_owned(), (*value).to_owned()))
            .collect(),
    )
}

fn show(path: &FilePath) -> String {
    let mut shown = path.base.clone();
    for part in &path.parts {
        shown.push('/');
        shown.push_str(part);
    }
    shown
}

fn wire(used: f64, minutes: u64) -> QuotaWindowWire {
    QuotaWindowWire {
        used_percent: Double::from_bits(used.to_bits()),
        used_percent_shown: used.to_string(),
        window_duration_mins: minutes,
        resets_at: minutes + 1,
    }
}

#[test]
fn classifies_short_and_long_windows_without_clamping() {
    let snapshot = snapshot_of(
        r#"{
            "rateLimits": {
                "primary": { "usedPercent": 24, "windowDurationMins": 300, "resetsAt": 1000 },
                "secondary": { "usedPercent": 58, "windowDurationMins": 10080, "resetsAt": 2000 },
                "planType": "plus"
            },
            "rateLimitResetCredits": { "availableCount": 2, "credits": [] }
        }"#,
        None,
    )
    .expect("valid snapshot");
    assert_eq!(number(snapshot.five_hour.unwrap().remaining_percent), 76.0);
    assert_eq!(number(snapshot.weekly.unwrap().remaining_percent), 42.0);
    assert_eq!(snapshot.full_reset_credits.unwrap().available_count, 2);
    assert_eq!(snapshot.plan_type.as_deref(), Some("plus"));
}

#[test]
fn carries_plan_type_and_account_identity_from_real_protocol_shape() {
    let snapshot = snapshot_of(
        r#"{
            "rateLimits": {
                "limitId": "codex",
                "limitName": null,
                "primary": { "usedPercent": 89, "windowDurationMins": 10080, "resetsAt": 1000 },
                "secondary": null,
                "credits": { "hasCredits": true, "unlimited": false, "balance": "747.55" },
                "individualLimit": null,
                "spendControlReached": false,
                "planType": "prolite",
                "rateLimitReachedType": null
            },
            "rateLimitResetCredits": null
        }"#,
        Some("acct-42"),
    )
    .expect("pro snapshot");
    assert_eq!(snapshot.plan_type.as_deref(), Some("prolite"));
    assert_eq!(snapshot.account_id.as_deref(), Some("acct-42"));
    assert!(snapshot.five_hour.is_none());
    assert_eq!(number(snapshot.weekly.unwrap().remaining_percent), 11.0);
}

#[test]
fn keeps_identity_unknown_when_protocol_omits_plan_type() {
    let snapshot = snapshot_of(
        r#"{
            "rateLimits": {
                "primary": { "usedPercent": 89, "windowDurationMins": 10080, "resetsAt": 1000 },
                "secondary": null
            },
            "rateLimitResetCredits": null
        }"#,
        Some("acct-42"),
    )
    .expect("snapshot");
    assert_eq!(snapshot.plan_type, None);
    assert_eq!(snapshot.account_id.as_deref(), Some("acct-42"));
}

#[test]
fn rejects_out_of_range_used_percent_instead_of_inventing_capacity() {
    let error = snapshot_of(
        r#"{
            "rateLimits": {
                "primary": { "usedPercent": 104, "windowDurationMins": 300, "resetsAt": 1000 },
                "secondary": null
            },
            "rateLimitResetCredits": null
        }"#,
        None,
    )
    .expect_err("invalid percent must fail");
    assert_eq!(error.code, "CRV-113");
    assert_eq!(error.detail.as_deref(), Some("104"));
}

#[test]
fn sparse_update_changes_only_the_field_it_contains() {
    let mut base = parse(
        r#"{
            "rateLimits": {
                "primary": { "usedPercent": 24, "windowDurationMins": 300, "resetsAt": 1000 },
                "secondary": { "usedPercent": 58, "windowDurationMins": 10080, "resetsAt": 2000 }
            },
            "rateLimitResetCredits": { "availableCount": 2, "credits": [] }
        }"#,
    );
    merge_sparse_update(
        &mut base,
        &parse(
            r#"{
                "rateLimits": {
                    "primary": { "usedPercent": 31, "windowDurationMins": 300, "resetsAt": 1100 }
                }
            }"#,
        ),
    );

    let snapshot = parse_snapshot(decode(&base), None, 17).expect("merged snapshot");
    assert_eq!(number(snapshot.five_hour.unwrap().remaining_percent), 69.0);
    assert_eq!(number(snapshot.weekly.unwrap().remaining_percent), 42.0);
    assert_eq!(snapshot.full_reset_credits.unwrap().available_count, 2);
}

#[test]
fn sparse_update_can_refresh_plan_type_without_touching_windows() {
    let mut base = parse(
        r#"{
            "rateLimits": {
                "primary": { "usedPercent": 24, "windowDurationMins": 300, "resetsAt": 1000 },
                "secondary": null,
                "planType": "plus"
            }
        }"#,
    );
    merge_sparse_update(&mut base, &parse(r#"{ "rateLimits": { "planType": "pro" } }"#));

    let snapshot = parse_snapshot(decode(&base), None, 17).expect("merged snapshot");
    assert_eq!(snapshot.plan_type.as_deref(), Some("pro"));
    assert!(snapshot.five_hour.is_some());
}

#[test]
fn an_update_can_replace_the_reset_credits_and_is_the_same_when_repeated() {
    let update = parse(
        r#"{ "rateLimits": { "secondary": null, "unknown": 3 }, "rateLimitResetCredits": null }"#,
    );
    let mut base = parse(
        r#"{ "rateLimits": { "secondary": 5 }, "rateLimitResetCredits": { "availableCount": 2 }, "kept": 1 }"#,
    );
    merge_sparse_update(&mut base, &update);
    assert_eq!(
        base,
        parse(r#"{ "rateLimits": { "secondary": null }, "rateLimitResetCredits": null, "kept": 1 }"#)
    );
    let once = base.clone();
    merge_sparse_update(&mut base, &update);
    assert_eq!(base, once);

    let mut list = parse("[1]");
    merge_sparse_update(&mut list, &update);
    assert_eq!(list, parse("[1]"));
    let mut untouched = once.clone();
    merge_sparse_update(&mut untouched, &parse("[1]"));
    assert_eq!(untouched, once);
}

#[test]
fn account_identity_follows_codex_home_before_default_location() {
    let at_home = environment(&[("HOME", "/home/user")]);
    assert_eq!(
        codex_auth_path(&at_home).map(|path| show(&path)).as_deref(),
        Some("/home/user/.codex/auth.json")
    );
    let elsewhere = environment(&[("HOME", "/home/user"), ("CODEX_HOME", "/custom")]);
    assert_eq!(
        codex_auth_path(&elsewhere).map(|path| show(&path)).as_deref(),
        Some("/custom/auth.json")
    );
    let profile = environment(&[("USERPROFILE", "C:")]);
    assert_eq!(
        codex_auth_path(&profile).map(|path| show(&path)).as_deref(),
        Some("C:/.codex/auth.json")
    );
    assert!(codex_auth_path(&environment(&[])).is_none());
    assert_eq!(
        read_account_id(r#"{ "tokens": { "account_id": "acct-default" } }"#).as_deref(),
        Some("acct-default")
    );
    assert_eq!(
        read_account_id(r#"{ "tokens": { "account_id": "acct-override" } }"#).as_deref(),
        Some("acct-override")
    );
}

#[test]
fn account_identity_stays_unknown_without_chatgpt_tokens() {
    assert_eq!(read_account_id(r#"{ "OPENAI_API_KEY": null }"#), None);
    assert_eq!(read_account_id("not json"), None);
    assert_eq!(account_id_of(&parse(r#"{ "tokens": { "account_id": 7 } }"#)), None);
}

#[test]
fn path_resolver_returns_an_existing_codex_binary() {
    let folders = vec!["/first".to_owned(), "/second".to_owned()];
    let candidates = find_on_path("codex.exe", &folders);
    let shown: Vec<String> = candidates.iter().map(show).collect();
    assert_eq!(shown, vec!["/first/codex.exe".to_owned(), "/second/codex.exe".to_owned()]);
    assert!(matches!(
        resolve_codex_executable(&vec![false, false], &vec![false, true], &vec![true]),
        Found::OnPath(1)
    ));
    assert!(matches!(
        resolve_codex_executable(&vec![false, true], &vec![true, true], &vec![true]),
        Found::Local(1)
    ));
    assert!(matches!(
        resolve_codex_executable(&vec![], &vec![false], &vec![false, true]),
        Found::Further(1)
    ));
    assert!(matches!(
        resolve_codex_executable(&vec![false], &vec![], &vec![]),
        Found::Nowhere
    ));
}

#[test]
fn project_local_official_runtime_is_preferred_when_installed() {
    for (os, arm, expected) in [
        (OperatingSystem::Windows, false, "codex-win32-x64"),
        (OperatingSystem::MacOs, true, "codex-darwin-arm64"),
        (OperatingSystem::MacOs, false, "codex-darwin-x64"),
        (OperatingSystem::Other, false, "codex-linux-x64"),
    ] {
        let candidates = local_runtime_candidates(Some("/opt/quodex".to_owned()), true, "/src", os, arm);
        assert!(candidates.iter().any(|candidate| show(candidate).contains(expected)));
        let released = local_runtime_candidates(Some("/opt/quodex".to_owned()), false, "/src", os, arm);
        assert_eq!(released.len(), 1);
        assert_eq!(
            show(&released[0]),
            format!("/opt/quodex/codex-runtime/bin/{}", codex_binary_name(os))
        );
    }
    assert!(local_runtime_candidates(None, false, "/src", OperatingSystem::Other, false).is_empty());
}

#[test]
fn finder_fallback_candidates_cover_common_unix_install_locations() {
    let candidates: Vec<String> =
        extra_executable_candidates(OperatingSystem::Other, &environment(&[("HOME", "/home/user")]))
            .iter()
            .map(show)
            .collect();
    assert!(candidates.contains(&"/opt/homebrew/bin/codex".to_owned()));
    assert!(candidates.contains(&"/usr/local/bin/codex".to_owned()));
    assert!(candidates.contains(&"/home/user/.local/bin/codex".to_owned()));
    assert!(candidates.contains(&"/home/user/bin/codex".to_owned()));
}

#[test]
fn finder_fallback_prefers_desktop_app_bundled_cli() {
    let candidates: Vec<String> =
        extra_executable_candidates(OperatingSystem::MacOs, &environment(&[("HOME", "/Users/user")]))
            .iter()
            .map(show)
            .collect();
    assert_eq!(
        candidates.first().map(String::as_str),
        Some("/Applications/ChatGPT.app/Contents/Resources/codex")
    );
    assert!(candidates.contains(&"/Applications/Codex.app/Contents/Resources/codex".to_owned()));
    assert!(candidates
        .contains(&"/Users/user/Applications/ChatGPT.app/Contents/Resources/codex".to_owned()));
    assert!(desktop_app_bundled_candidates(OperatingSystem::Other, &None).is_empty());
}

#[test]
fn store_packages_are_listed_in_order_and_once() {
    let names: Vec<String> = ["OpenAI.Codex_2", "Other", "OpenAI.Codex_10", "OpenAI.Codex_2"]
        .iter()
        .map(|name| (*name).to_owned())
        .collect();
    let candidates = store_candidates("C:", &names);
    assert_eq!(candidates.len(), 2);
    assert_eq!(
        show(candidates.value(0)),
        "C:/WindowsApps/OpenAI.Codex_10/app/resources/codex.exe"
    );
    assert_eq!(candidates.key(1), "OpenAI.Codex_2");
}

#[test]
fn the_environment_chooses_the_app_server() {
    let chosen = AppServerCommand::from_environment(
        &environment(&[
            ("CODEX_CREDITS_APP_SERVER_EXECUTABLE", "/bin/server"),
            ("CODEX_CREDITS_APP_SERVER_ARGS", r#"["serve", "--now"]"#),
        ]),
        true,
        "fixture.mjs",
        None,
        OperatingSystem::Other,
    );
    assert_eq!(chosen.executable, "/bin/server");
    assert_eq!(chosen.args, vec!["serve".to_owned(), "--now".to_owned()]);

    let broken = AppServerCommand::from_environment(
        &environment(&[
            ("CODEX_CREDITS_APP_SERVER_EXECUTABLE", "/bin/server"),
            ("CODEX_CREDITS_APP_SERVER_ARGS", "serve"),
        ]),
        true,
        "fixture.mjs",
        None,
        OperatingSystem::Other,
    );
    assert_eq!(broken.args, vec!["app-server".to_owned()]);

    let live = environment(&[("CODEX_CREDITS_USE_LIVE", "1")]);
    let found = CapacityService::from_environment(
        &live,
        true,
        "fixture.mjs",
        Some("/usr/bin/codex".to_owned()),
        OperatingSystem::Other,
    );
    assert_eq!(found.command.executable, "/usr/bin/codex");
    let bare = CapacityService::from_environment(
        &environment(&[]),
        false,
        "fixture.mjs",
        None,
        OperatingSystem::Windows,
    );
    assert_eq!(bare.command.executable, "codex.exe");
    assert_eq!(bare.command.args, vec!["app-server".to_owned()]);
}

#[test]
fn a_debug_build_talks_to_the_stand_in() {
    assert_eq!(show(&fixture_path("/src")), "/src/../fixtures/app-server-fixture.mjs");
    let service = CapacityService::from_environment(
        &environment(&[("CODEX_CREDITS_FIXTURE_NODE", "/opt/node")]),
        true,
        "fixture.mjs",
        Some("/usr/bin/codex".to_owned()),
        OperatingSystem::Other,
    );
    assert_eq!(service.command.executable, "/opt/node");
    assert_eq!(service.command.args, vec!["fixture.mjs".to_owned()]);
    let command =
        AppServerCommand::fixture_scenario(&environment(&[]), "fixture.mjs", "sparse-update");
    assert_eq!(command.executable, "node");
    assert_eq!(
        command.environment,
        vec![("CODEX_CREDITS_FIXTURE_SCENARIO".to_owned(), "sparse-update".to_owned())]
    );
}

#[test]
fn the_order_of_two_windows_does_not_matter() {
    let limits = |first, second| RateLimits {
        primary: first,
        secondary: second,
        plan_type: None,
    };
    let (short, long) =
        classify_windows(&limits(Some(wire(58.0, 10080)), Some(wire(24.0, 300)))).expect("windows");
    assert_eq!(short.unwrap().window_duration_mins, 300);
    assert_eq!(long.unwrap().window_duration_mins, 10080);
    let (day, none) = classify_windows(&limits(None, Some(wire(1.0, 1440)))).expect("window");
    assert!(day.is_some() && none.is_none());
    let (none, longer) = classify_windows(&limits(Some(wire(1.0, 1441)), None)).expect("window");
    assert!(none.is_none() && longer.is_some());
    let (short, long) = classify_windows(&limits(None, None)).expect("no windows");
    assert!(short.is_none() && long.is_none());
    let error = classify_windows(&limits(Some(wire(101.0, 10080)), Some(wire(-1.0, 300))))
        .expect_err("both are wrong");
    assert_eq!(error.detail.as_deref(), Some("-1"));
}

#[test]
fn percentages_outside_of_a_hundred_are_refused() {
    assert!(normalize_window(&wire(100.0, 300)).is_ok());
    assert!(normalize_window(&wire(0.0, 300)).is_ok());
    for used in [-0.1, 100.00000000000001, f64::NAN, f64::INFINITY] {
        let error = normalize_window(&wire(used, 300)).expect_err("no percentage");
        assert_eq!(error.code, "CRV-113");
        assert_eq!(error.line(), "CRV-113: Codex 返回了无效的使用百分比");
    }
    let shown = normalize_window(&wire(33.3, 300)).expect("window");
    assert_eq!(number(shown.remaining_percent), 100.0 - 33.3);
}

#[test]
fn the_nearest_expiry_is_that_of_an_available_credit() {
    let credit = |status: &str, expires_at| ResetCreditWire {
        status: status.to_owned(),
        expires_at,
    };
    let credits = vec![
        credit("used", Some(1)),
        credit("available", Some(9)),
        credit("available", None),
        credit("available", Some(4)),
    ];
    assert_eq!(nearest_expiry(&credits), Some(4));
    assert_eq!(nearest_expiry(&vec![credit("used", Some(1))]), None);
    let snapshot = snapshot_of(
        r#"{
            "rateLimits": {},
            "rateLimitResetCredits": {
                "availableCount": 3,
                "credits": [{ "status": "available", "expiresAt": 12 }]
            }
        }"#,
        None,
    )
    .expect("snapshot");
    assert_eq!(snapshot.source_state, SourceState::Healthy);
    assert_eq!(snapshot.observed_at_ms, 17);
    assert_eq!(snapshot.full_reset_credits.unwrap().nearest_expiry_at, Some(12));
}

#[test]
fn an_answer_of_another_shape_is_refused() {
    let error = snapshot_of("{}", None).expect_err("no rate limits");
    assert_eq!(error.code, "CRV-112");
    assert_eq!(error.detail.as_deref(), Some("missing field `rateLimits`"));
}

#[test]
fn a_failed_request_is_tagged_with_the_account() {
    let service = CapacityService::from_environment(
        &environment(&[]),
        false,
        "",
        None,
        OperatingSystem::Other,
    );
    let failed = service
        .read_snapshot(
            Err(Diagnostic::new("CRV-110", "app-server 在返回配额前结束")),
            Some("acct-42".to_owned()),
            17,
        )
        .expect_err("failed request");
    assert_eq!(failed.code, "CRV-110");
    assert_eq!(failed.account_id.as_deref(), Some("acct-42"));
    let read = service
        .read_snapshot(Ok(decode(&parse(r#"{ "rateLimits": {} }"#))), Some("acct-42".to_owned()), 17)
        .expect("reading");
    assert_eq!(read.account_id.as_deref(), Some("acct-42"));
}

#[test]
fn a_refused_answer_is_tagged_with_the_account() {
    let shape = snapshot_of("{}", Some("acct-42")).expect_err("no rate limits");
    assert_eq!(shape.code, "CRV-112");
    assert_eq!(shape.account_id.as_deref(), Some("acct-42"));
    let raw = r#"{ "rateLimits": { "primary": { "usedPercent": 104, "windowDurationMins": 300, "resetsAt": 1000 } } }"#;
    let percent = snapshot_of(raw, Some("acct-42")).expect_err("no percentage");
    assert_eq!(percent.code, "CRV-113");
    assert_eq!(percent.detail.as_deref(), Some("104"));
    assert_eq!(percent.account_id.as_deref(), Some("acct-42"));
    assert_eq!(snapshot_of(raw, None).expect_err("no percentage").account_id, None);
}

#[test]
fn the_messages_have_the_shape_of_the_protocol() {
    assert_eq!(
        greeting("0.1.9"),
        parse(
            r#"{
                "method": "initialize",
                "id": 1,
                "params": {
                    "clientInfo": {
                        "name": "codex_credits_view",
                        "title": "QuoDex",
                        "version": "0.1.9"
                    }
                }
            }"#
        )
    );
    assert_eq!(notice(), parse(r#"{ "method": "initialized", "params": {} }"#));
    assert_eq!(question(), parse(r#"{ "method": "account/rateLimits/read", "id": 2 }"#));
    let line = message_line(&question()).expect("line");
    assert_eq!(line.last(), Some(&b'\n'));
    assert_eq!(
        serde_json::from_slice::<Value>(&line[..line.len() - 1]).expect("line is JSON"),
        question()
    );
    let odd = message_line(&greeting("a\nb\u{2028}")).expect("line");
    assert_eq!(odd.iter().filter(|byte| **byte == b'\n').count(), 1);
    assert_eq!(odd.last(), Some(&b'\n'));
}

#[test]
fn answers_are_told_from_errors_and_other_messages() {
    assert!(matches!(judge_line(r#"{ "id": 1, "result": {} }"#, 2), Verdict::Skip));
    assert!(matches!(judge_line(r#"{ "method": "note" }"#, 2), Verdict::Skip));
    match judge_line(r#"{ "id": 2, "result": { "a": 1 } }"#, 2) {
        Verdict::Answer(result) => assert_eq!(result, parse(r#"{ "a": 1 }"#)),
        _ => panic!("an answer"),
    }
    let code_of = |line: &str| match judge_line(line, 2) {
        Verdict::Fail(diagnostic) => (diagnostic.code, diagnostic.detail),
        _ => panic!("a failure"),
    };
    assert_eq!(
        code_of(r#"{ "id": 2, "error": { "message": "Not Logged in" } }"#),
        ("CRV-202", Some(r#"{"message":"Not Logged in"}"#.to_owned()))
    );
    assert_eq!(code_of(r#"{ "id": 2, "error": "AUTH" }"#).0, "CRV-202");
    assert_eq!(
        code_of(r#"{ "id": 2, "error": 5, "result": 6 }"#),
        ("CRV-108", Some("5".to_owned()))
    );
    assert_eq!(code_of(r#"{ "id": 2 }"#), ("CRV-109", None));
    assert_eq!(code_of("not json").0, "CRV-107");
    assert!(matches!(judge_message(&parse("[]"), 2), Verdict::Skip));
}

fn step_after(session: Session, line: &str) -> SessionStep {
    session.next(SessionEvent::Line(line.to_owned()))
}

fn asking() -> Session {
    let greeted = match Session::open("0.1.9") {
        SessionStep::Send(session, lines) => {
            assert_eq!(lines.len(), 1);
            session
        }
        _ => panic!("a greeting"),
    };
    match step_after(greeted, r#"{ "id": 1, "result": {} }"#) {
        SessionStep::Send(session, lines) => {
            assert_eq!(lines.len(), 2);
            session
        }
        _ => panic!("a question"),
    }
}

fn collecting(answer: &str) -> Session {
    match step_after(asking(), answer) {
        SessionStep::Wait(session) => session,
        _ => panic!("an answer"),
    }
}

const ANSWER: &str = r#"{ "id": 2, "result": { "rateLimits": {
    "primary": { "usedPercent": 24, "windowDurationMins": 300, "resetsAt": 1000 },
    "secondary": { "usedPercent": 58, "windowDurationMins": 10080, "resetsAt": 2000 }
} } }"#;

const UPDATE: &str = r#"{ "method": "account/rateLimits/updated", "params": { "rateLimits": {
    "primary": { "usedPercent": 31, "windowDurationMins": 300, "resetsAt": 1100 }
} } }"#;

/// The reading that a server gives which prints these lines and then ends.
fn read_scenario(lines: &[&str]) -> Result<CapacitySnapshot, Diagnostic> {
    let service = CapacityService {
        command: AppServerCommand::fixture(&environment(&[]), "fixture.mjs"),
    };
    let mut printed = lines.iter();
    let mut step = Session::open("0.1.9");
    let outcome = loop {
        let session = match step {
            SessionStep::Finish(result) => break Ok(decode(&result)),
            SessionStep::Fail(diagnostic) => break Err(diagnostic),
            SessionStep::Wait(session) | SessionStep::Send(session, _) => session,
        };
        step = session.next(match printed.next() {
            Some(line) => SessionEvent::Line((*line).to_owned()),
            None => SessionEvent::Closed,
        });
    };
    service.read_snapshot(outcome, None, 17)
}

const GREETED: &str = r#"{ "id": 1, "result": {} }"#;

#[test]
fn fixture_process_completes_the_real_json_rpc_shape() {
    let snapshot = read_scenario(&[GREETED, ANSWER]).expect("fixture snapshot");
    assert_eq!(number(snapshot.five_hour.unwrap().remaining_percent), 76.0);
    assert_eq!(number(snapshot.weekly.unwrap().remaining_percent), 42.0);
}

#[test]
fn fixture_sparse_notification_merges_without_erasing_weekly_data() {
    let snapshot = read_scenario(&[GREETED, ANSWER, UPDATE]).expect("sparse update snapshot");
    assert_eq!(number(snapshot.five_hour.unwrap().remaining_percent), 69.0);
    assert_eq!(number(snapshot.weekly.unwrap().remaining_percent), 42.0);
}

#[test]
fn fixture_distinguishes_null_fields_from_zero() {
    let answer = r#"{ "id": 2, "result": {
        "rateLimits": { "primary": null, "secondary": null },
        "rateLimitResetCredits": null
    } }"#;
    let snapshot = read_scenario(&[GREETED, answer]).expect("null field snapshot");
    assert!(snapshot.five_hour.is_none());
    assert!(snapshot.weekly.is_none());
    assert!(snapshot.full_reset_credits.is_none());
}

#[test]
fn fixture_pro_account_reports_weekly_only_window_with_plan_type() {
    let answer = r#"{ "id": 2, "result": { "rateLimits": {
        "primary": { "usedPercent": 89, "windowDurationMins": 10080, "resetsAt": 1000 },
        "secondary": null,
        "planType": "pro"
    } } }"#;
    let snapshot = read_scenario(&[GREETED, answer]).expect("pro snapshot");
    assert_eq!(snapshot.plan_type.as_deref(), Some("pro"));
    assert!(snapshot.five_hour.is_none());
    let weekly = snapshot.weekly.expect("weekly window");
    assert_eq!(weekly.window_duration_mins, 10080);
    assert_eq!(number(weekly.remaining_percent), 11.0);
}

#[test]
fn fixture_unknown_plan_still_yields_windows_without_claiming_a_plan() {
    let answer = r#"{ "id": 2, "result": { "rateLimits": {
        "primary": { "usedPercent": 89, "windowDurationMins": 10080, "resetsAt": 1000 },
        "secondary": null
    } } }"#;
    let snapshot = read_scenario(&[GREETED, answer]).expect("unknown plan snapshot");
    assert_eq!(snapshot.plan_type, None);
    assert!(snapshot.five_hour.is_none());
    assert!(snapshot.weekly.is_some());
}

#[test]
fn fixture_maps_logged_out_to_a_stable_actionable_code() {
    let answer = r#"{ "id": 2, "error": { "code": -32000, "message": "Not logged in" } }"#;
    let error = read_scenario(&[GREETED, answer]).expect_err("logged out must fail");
    assert_eq!(error.code, "CRV-202");
}

#[test]
fn fixture_reports_malformed_json_and_early_exit_separately() {
    let malformed = read_scenario(&[GREETED, "{ not json"]).expect_err("malformed JSON must fail");
    assert_eq!(malformed.code, "CRV-107");

    let early_exit = read_scenario(&[GREETED]).expect_err("early exit must fail");
    assert_eq!(early_exit.code, "CRV-110");
}

#[test]
fn a_conversation_merges_updates_until_the_server_is_silent() {
    let updated = match step_after(collecting(ANSWER), UPDATE) {
        SessionStep::Wait(session) => session,
        _ => panic!("more updates may come"),
    };
    let result = match updated.next(SessionEvent::TimedOut) {
        SessionStep::Finish(result) => result,
        _ => panic!("silence ends it"),
    };
    let snapshot = parse_snapshot(decode(&result), None, 17).expect("snapshot");
    assert_eq!(number(snapshot.five_hour.unwrap().remaining_percent), 69.0);
    assert_eq!(number(snapshot.weekly.unwrap().remaining_percent), 42.0);
}

#[test]
fn a_conversation_ends_after_its_last_update() {
    let mut session = collecting(ANSWER);
    for left in (0..4).rev() {
        match step_after(session, r#"{ "method": "other" }"#) {
            SessionStep::Wait(next) => {
                assert!(left > 0);
                session = next;
            }
            SessionStep::Finish(result) => {
                assert_eq!(left, 0);
                assert_eq!(result, parse(ANSWER)["result"]);
                return;
            }
            _ => panic!("no failure"),
        }
    }
    panic!("the conversation ends");
}

#[test]
fn a_conversation_reports_why_it_failed() {
    let code_of = |step: SessionStep| match step {
        SessionStep::Fail(diagnostic) => diagnostic.code,
        _ => panic!("a failure"),
    };
    assert_eq!(code_of(asking().next(SessionEvent::Closed)), "CRV-110");
    assert_eq!(code_of(asking().next(SessionEvent::TimedOut)), "CRV-111");
    assert_eq!(code_of(asking().next(SessionEvent::ReadFailed("io".to_owned()))), "CRV-106");
    assert_eq!(code_of(step_after(asking(), "{")), "CRV-107");
    assert_eq!(
        code_of(step_after(asking(), r#"{ "id": 2, "error": "logged out" }"#)),
        "CRV-202"
    );
    assert_eq!(code_of(step_after(collecting(ANSWER), "{")), "CRV-107");
    assert_eq!(
        code_of(collecting(ANSWER).next(SessionEvent::ReadFailed("io".to_owned()))),
        "CRV-106"
    );
    assert!(matches!(collecting(ANSWER).next(SessionEvent::Closed), SessionStep::Finish(_)));
    assert!(matches!(step_after(asking(), r#"{ "id": 9 }"#), SessionStep::Wait(_)));
}

#[test]
fn channel_failures_keep_their_codes() {
    for (failure, code, detail) in [
        (ChannelFailure::Start("gone".to_owned()), "CRV-101", Some("gone")),
        (ChannelFailure::NoInput, "CRV-102", None),
        (ChannelFailure::NoOutput, "CRV-103", None),
        (ChannelFailure::Write("pipe".to_owned()), "CRV-105", Some("pipe")),
    ] {
        let diagnostic = channel_failure(failure);
        assert_eq!(diagnostic.code, code);
        assert_eq!(diagnostic.detail.as_deref(), detail);
    }
}

#[test]
fn json_members_are_read_by_their_type() {
    let value = parse(r#"{ "text": "a", "number": 7, "negative": -1, "half": 0.5 }"#);
    assert_eq!(get_str(&value, "text").as_deref(), Some("a"));
    assert_eq!(get_str(&value, "number"), None);
    assert_eq!(get_u64(&value, "number"), Some(7));
    assert_eq!(get_u64(&value, "negative"), None);
    assert_eq!(get_u64(&value, "half"), None);
    assert_eq!(get_u64(&parse(r#"{ "one": 1.0 }"#), "one"), None);
    assert_eq!(get_u64(&value, "missing"), None);
    let mut result = parse(r#"{ "rateLimits": {} }"#);
    apply_message(&mut result, &parse(r#"{ "method": "other", "params": { "rateLimits": { "planType": 1 } } }"#));
    assert_eq!(result, parse(r#"{ "rateLimits": {} }"#));
    apply_message(
        &mut result,
        &parse(r#"{ "method": "account/rateLimits/updated", "params": { "rateLimits": { "planType": 1 } } }"#),
    );
    assert_eq!(result, parse(r#"{ "rateLimits": { "planType": 1 } }"#));
}
