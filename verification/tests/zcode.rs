//! The ZCode quota: the request that is sent, and what is made of the answer.

use quodex::diagnostic::Diagnostic;
use quodex::double::Double;
use quodex::environment::Environment;
use quodex::ordered::Ordered;
use quodex::zcode_balance::{
    parse_balance_payload, used_percent_of, BalanceBucket, BalanceData, BalanceNumber, BalancePlan,
    BalanceResponse,
};
use quodex::zcode_exchange::{
    curl_arguments, curl_config, fetch_quota_body, parse_curl_output, FetchOutcome,
};
use quodex::zcode_plan::{
    plan_kind_from_id, quota_url_from_base_url, read_config_request, read_plan_cache_availability,
    resolve_quota_request, start_plan_balance_url, zcode_config_candidates, ConfigAttempt,
    PlanCacheEntryStatus, PlanCacheFile, PlanCacheItem, PlanKind, QuotaRequest, ZCodeConfigFile,
    ZCodeProviderEntry, ZCodeProviderOptions,
};
use quodex::zcode_quota::{
    is_five_hour_window, is_weekly_window, parse_quota_payload, to_window, window_duration_mins,
    QuotaData, QuotaLimit, QuotaResponse, ZCodeQuotaSnapshot,
};
use quodex::zcode_service::{ZCodeQuotaService, ZCodeReading};
use serde_json::Value;

const VERSION: &str = "0.1.9";

fn double(number: f64) -> Double {
    Double::from_bits(number.to_bits())
}

fn number(double: Double) -> f64 {
    f64::from_bits(double.bits)
}

fn text(value: &Value) -> Option<String> {
    value.as_str().map(str::to_owned)
}

fn float(value: &Value) -> Option<Double> {
    value.as_f64().map(double)
}

fn decode_quota(raw: &str) -> Result<QuotaResponse, String> {
    let value: Value = serde_json::from_str(raw).map_err(|error| error.to_string())?;
    let limit = |row: &Value| QuotaLimit {
        kind: text(&row["type"]).unwrap_or_default(),
        unit: row["unit"].as_u64(),
        number: row["number"].as_u64(),
        usage: row["usage"].as_u64(),
        current_value: row["currentValue"].as_u64(),
        remaining: row["remaining"].as_u64(),
        percentage: float(&row["percentage"]),
        next_reset_time: row["nextResetTime"].as_u64(),
    };
    Ok(QuotaResponse {
        code: value["code"].as_i64(),
        msg: text(&value["msg"]),
        success: value["success"].as_bool(),
        data: value.get("data").map(|data| QuotaData {
            limits: data["limits"]
                .as_array()
                .map(|rows| rows.iter().map(limit).collect())
                .unwrap_or_default(),
            level: text(&data["level"]),
        }),
    })
}

fn decode_units(value: &Value) -> Option<BalanceNumber> {
    let units = match value {
        Value::Null => return None,
        Value::String(text) => text.trim().parse().unwrap_or(f64::NAN),
        other => other.as_f64().expect("a number"),
    };
    Some(BalanceNumber { number: double(units) })
}

fn decode_balance(raw: &str) -> Result<BalanceResponse, String> {
    let value: Value = serde_json::from_str(raw).map_err(|error| error.to_string())?;
    let plan = |row: &Value| BalancePlan {
        plan_id: text(&row["plan_id"]),
        user_plan_id: text(&row["user_plan_id"]),
        status: text(&row["status"]),
        ends_at: float(&row["ends_at"]),
    };
    let bucket = |row: &Value| BalanceBucket {
        plan_id: text(&row["plan_id"]),
        user_plan_id: text(&row["user_plan_id"]),
        total_units: decode_units(&row["total_units"]),
        used_units: decode_units(&row["used_units"]),
        remaining_units: decode_units(&row["remaining_units"]),
        expires_at: float(&row["expires_at"]),
    };
    Ok(BalanceResponse {
        code: value["code"].as_i64(),
        msg: text(&value["msg"]),
        success: value["success"].as_bool(),
        data: value.get("data").map(|data| BalanceData {
            server_time: float(&data["server_time"]),
            plans: data["plans"]
                .as_array()
                .map(|rows| rows.iter().map(plan).collect())
                .unwrap_or_default(),
            balances: data["balances"]
                .as_array()
                .map(|rows| rows.iter().map(bucket).collect())
                .unwrap_or_default(),
        }),
    })
}

fn decode_config(value: &Value) -> ZCodeConfigFile {
    let mut provider = Ordered::new();
    if let Some(entries) = value["provider"].as_object() {
        for (id, entry) in entries {
            let options = &entry["options"];
            provider = provider.insert(
                id.clone(),
                ZCodeProviderEntry {
                    enabled: entry["enabled"].as_bool().unwrap_or_default(),
                    system_disabled_reason: text(&entry["systemDisabledReason"]),
                    options: ZCodeProviderOptions {
                        api_key: text(&options["apiKey"]).unwrap_or_default(),
                        base_url: text(&options["baseURL"]).unwrap_or_default(),
                        quota_url: text(&options["quotaURL"]).unwrap_or_default(),
                    },
                },
            );
        }
    }
    ZCodeConfigFile { provider }
}

fn read_quota(raw: &str) -> Result<ZCodeQuotaSnapshot, Diagnostic> {
    parse_quota_payload(decode_quota(raw), 23)
}

fn read_balance(raw: &str) -> Result<ZCodeQuotaSnapshot, Diagnostic> {
    parse_balance_payload(decode_balance(raw), 1_788_400_000_000)
}

fn environment(entries: &[(&str, &str)]) -> Environment {
    Environment::new(
        entries
            .iter()
            .map(|(name, value)| ((*name).to_owned(), (*value).to_owned()))
            .collect(),
    )
}

fn unreadable(path: &str) -> ConfigAttempt {
    ConfigAttempt::Unreadable { path: path.to_owned(), error: "no such file".to_owned() }
}

fn service() -> ZCodeQuotaService {
    ZCodeQuotaService::from_environment(&environment(&[]))
}

/// The request where only the configuration decides.
fn resolve(config: &Value) -> Result<QuotaRequest, Diagnostic> {
    resolve_with_cache(config, &[])
}

fn resolve_with_cache(config: &Value, available: &[&str]) -> Result<QuotaRequest, Diagnostic> {
    service().request(
        &environment(&[]),
        &vec![ConfigAttempt::Read(Ok(decode_config(config)))],
        &vec![Some(cache(available, "available"))],
        true,
        VERSION,
    )
}

fn cache(ids: &[&str], status: &str) -> PlanCacheFile {
    let mut items = Ordered::new();
    for id in ids {
        items = items.insert((*id).to_owned(), PlanCacheItem { status: Some(status.to_owned()) });
    }
    PlanCacheFile { entry_status: Some(PlanCacheEntryStatus { items }) }
}

fn coding_plan_config(enabled: bool, api_key: &str) -> Value {
    let mut config: Value = serde_json::from_str(
        r#"{
            "provider": {
                "builtin:bigmodel-coding-plan": {
                    "name": "BigModel - Coding Plan",
                    "kind": "anthropic",
                    "options": { "baseURL": "https://open.bigmodel.cn/api/anthropic" }
                },
                "builtin:bigmodel-start-plan": {
                    "kind": "anthropic",
                    "options": {"apiKey": "jwt-token", "baseURL": "https://zcode.z.ai/api/v1/zcode-plan/anthropic"},
                    "enabled": false,
                    "systemDisabledReason": "coding_plan_not_entitled"
                }
            }
        }"#,
    )
    .expect("config JSON");
    let entry = &mut config["provider"]["builtin:bigmodel-coding-plan"];
    entry["enabled"] = Value::from(enabled);
    entry["options"]["apiKey"] = Value::from(api_key);
    config
}

fn multi_plan_config(start_enabled: bool, start_reason: Option<&str>) -> Value {
    let mut config: Value = serde_json::from_str(
        r#"{
            "provider": {
                "builtin:bigmodel-coding-plan": {
                    "name": "BigModel - Coding Plan",
                    "kind": "anthropic",
                    "options": {
                        "apiKey": "coding-key",
                        "baseURL": "https://open.bigmodel.cn/api/anthropic"
                    },
                    "enabled": true
                },
                "builtin:bigmodel-start-plan": {
                    "name": "BigModel- Coding Plan",
                    "kind": "anthropic",
                    "source": "custom",
                    "options": {
                        "apiKey": "start-jwt",
                        "baseURL": "https://zcode.z.ai/api/v1/zcode-plan/anthropic"
                    }
                }
            }
        }"#,
    )
    .expect("config JSON");
    let start = &mut config["provider"]["builtin:bigmodel-start-plan"];
    start["enabled"] = Value::from(start_enabled);
    if let Some(reason) = start_reason {
        start["systemDisabledReason"] = Value::from(reason);
    }
    config
}

const DUAL_WINDOWS: &str = r#"{"code":200,"success":true,"data":{"limits":[
            {"type":"CREDIT_LIMIT","unit":6,"number":1,"usage":10000,"currentValue":5800,"remaining":4200,"percentage":58,"nextResetTime":1788395128998},
            {"type":"CREDIT_LIMIT","unit":3,"number":5,"usage":2000,"currentValue":480,"remaining":1520,"percentage":24,"nextResetTime":1787810092514}
        ],"level":" pro "}}"#;

#[test]
fn parses_fixture_dual_windows_and_classifies_by_reset_time() {
    let snapshot = read_quota(DUAL_WINDOWS).expect("parse fixture payload");

    let five_hour = snapshot.five_hour.expect("five hour window");
    assert!((number(five_hour.used_percent) - 24.0).abs() < f64::EPSILON);
    assert!((number(five_hour.remaining_percent) - 76.0).abs() < f64::EPSILON);
    assert_eq!(five_hour.window_duration_mins, 300);
    assert_eq!(five_hour.resets_at, Some(1_787_810_092));
    assert_eq!(five_hour.quota_total, 2000);
    assert_eq!(five_hour.quota_used, 480);
    assert_eq!(five_hour.quota_remaining, 1520);

    let weekly = snapshot.weekly.expect("weekly window");
    assert!((number(weekly.used_percent) - 58.0).abs() < f64::EPSILON);
    assert_eq!(weekly.window_duration_mins, 10_080);
    assert_eq!(weekly.resets_at, Some(1_788_395_128));

    assert_eq!(snapshot.plan_level.as_deref(), Some("pro"));
    assert_eq!(snapshot.plan_kind.as_deref(), Some("coding_plan"));
    assert!(snapshot.observed_at_ms > 0);
}

#[test]
fn single_window_falls_into_five_hour_slot() {
    let snapshot = read_quota(r#"{"code":200,"success":true,"data":{"limits":[{"type":"CREDIT_LIMIT","unit":3,"number":5,"usage":120,"currentValue":30,"remaining":90,"percentage":25,"nextResetTime":1787810092514}],"level":"lite"}}"#)
        .expect("parse single window");
    assert!(snapshot.five_hour.is_some());
    assert!(snapshot.weekly.is_none());
    assert_eq!(snapshot.plan_level.as_deref(), Some("lite"));
}

#[test]
fn non_success_payload_maps_to_crv_507_with_message() {
    let error = read_quota(r#"{"code":500,"msg":"user has no coding plan","success":false}"#)
        .expect_err("expect failure");
    assert_eq!(error.code, "CRV-507");
    assert!(error.detail.expect("detail").contains("no coding plan"));
    let silent = read_quota(r#"{"code":500}"#).expect_err("expect failure");
    assert_eq!(silent.detail.as_deref(), Some("配额服务未返回成功状态"));
}

#[test]
fn malformed_json_maps_to_crv_506() {
    let error = read_quota("not json").expect_err("expect failure");
    assert_eq!(error.code, "CRV-506");
}

#[test]
fn missing_data_maps_to_crv_506() {
    let error = read_quota(r#"{"code":200,"success":true}"#).expect_err("expect failure");
    assert_eq!(error.code, "CRV-506");
}

#[test]
fn out_of_range_percentage_maps_to_crv_508() {
    let error = read_quota(r#"{"code":200,"success":true,"data":{"limits":[{"type":"CREDIT_LIMIT","percentage":140,"nextResetTime":1787810092514}]}}"#)
        .expect_err("expect failure");
    assert_eq!(error.code, "CRV-508");
}

#[test]
fn missing_credit_limits_maps_to_crv_508() {
    let error = read_quota(r#"{"code":200,"success":true,"data":{"limits":[]}}"#)
        .expect_err("expect failure");
    assert_eq!(error.code, "CRV-508");
}

#[test]
fn missing_next_reset_time_yields_window_without_reset() {
    let snapshot = read_quota(r#"{"code":200,"success":true,"data":{"limits":[{"type":"CREDIT_LIMIT","usage":120,"currentValue":30,"remaining":90,"percentage":25}]}}"#)
        .expect("parse window without reset time");
    let five_hour = snapshot.five_hour.expect("five hour window");
    assert!(five_hour.resets_at.is_none());
    assert!((number(five_hour.used_percent) - 25.0).abs() < f64::EPSILON);
}

#[test]
fn unused_five_hour_window_without_reset_time_parses_both_chambers() {
    let snapshot = read_quota(
        r#"{"code":200,"success":true,"data":{"limits":[
            {"type":"CREDIT_LIMIT","unit":3,"number":5,"usage":2000,"currentValue":0,"remaining":2000,"percentage":0},
            {"type":"CREDIT_LIMIT","unit":6,"number":1,"usage":10000,"currentValue":8209,"remaining":1790,"percentage":82,"nextResetTime":1788395128998}
        ],"level":"lite"}}"#,
    )
    .expect("parse live payload");
    let five_hour = snapshot.five_hour.expect("five hour window");
    assert_eq!(five_hour.quota_total, 2000);
    assert!(five_hour.resets_at.is_none());
    let weekly = snapshot.weekly.expect("weekly window");
    assert_eq!(weekly.resets_at, Some(1_788_395_128));
}

#[test]
fn fresh_weekly_window_without_reset_time_is_not_swapped_into_five_hour_slot() {
    let snapshot = read_quota(
        r#"{"code":200,"success":true,"data":{"limits":[
            {"type":"CREDIT_LIMIT","unit":6,"number":1,"usage":10000,"currentValue":0,"remaining":10000,"percentage":0},
            {"type":"CREDIT_LIMIT","unit":3,"number":5,"usage":2000,"currentValue":480,"remaining":1520,"percentage":24,"nextResetTime":1787810092514}
        ]}}"#,
    )
    .expect("parse payload");
    let five_hour = snapshot.five_hour.expect("five hour window");
    assert_eq!(five_hour.quota_total, 2000);
    let weekly = snapshot.weekly.expect("weekly window");
    assert_eq!(weekly.quota_total, 10000);
}

#[test]
fn missing_quota_count_maps_to_crv_508() {
    let error = read_quota(r#"{"code":200,"success":true,"data":{"limits":[{"type":"CREDIT_LIMIT","usage":120,"remaining":90,"percentage":25,"nextResetTime":1787810092514}]}}"#)
        .expect_err("expect failure");
    assert_eq!(error.code, "CRV-508");
    assert!(error.detail.expect("detail").contains("currentValue"));
}

#[test]
fn curl_process_failure_maps_to_crv_504() {
    let error = parse_curl_output(false, Some(28), "").expect_err("expect failure");
    assert_eq!(error.code, "CRV-504");
    assert!(error.detail.expect("detail").contains("28"));
}

#[test]
fn curl_http_failure_maps_to_crv_505() {
    let error = parse_curl_output(true, Some(0), "{\"error\":\"unauthorized\"}\n401")
        .expect_err("expect failure");
    assert_eq!(error.code, "CRV-505");
    assert!(error.detail.expect("detail").contains("HTTP 401"));
}

#[test]
fn successful_curl_output_returns_body_without_status_line() {
    let body = parse_curl_output(true, Some(0), "{\"code\":200}\n200")
        .expect("expect successful response");
    assert_eq!(body, "{\"code\":200}");
}

#[test]
fn quota_url_derives_from_provider_base_url_origin() {
    assert_eq!(
        quota_url_from_base_url("https://open.bigmodel.cn/api/anthropic").as_deref(),
        Some("https://open.bigmodel.cn/api/monitor/usage/quota/limit")
    );
    assert_eq!(
        quota_url_from_base_url("https://api.z.ai/api/anthropic").as_deref(),
        Some("https://api.z.ai/api/monitor/usage/quota/limit")
    );
    assert_eq!(
        quota_url_from_base_url("https://host.example:8443/base/path").as_deref(),
        Some("https://host.example:8443/api/monitor/usage/quota/limit")
    );
    assert_eq!(quota_url_from_base_url("not a url"), None);
    assert_eq!(quota_url_from_base_url(""), None);
}

#[test]
fn resolve_quota_request_prefers_environment_overrides() {
    let lookup = environment(&[
        ("ZCODE_BIGMODEL_USAGE_API_KEY", "test-key"),
        ("BIGMODEL_USAGE_QUOTA_URL", "https://example.test/quota"),
    ]);
    let config = read_config_request(&vec![], true, &vec![], VERSION);
    let request = resolve_quota_request(&lookup, config).expect("resolve from env");
    assert_eq!(request.api_key, "test-key");
    assert_eq!(request.url, "https://example.test/quota");
}

#[test]
fn resolve_quota_request_reports_missing_config() {
    let error = service()
        .request(&environment(&[]), &vec![unreadable("/missing/config.json")], &vec![None], true, VERSION)
        .expect_err("expect failure");
    assert_eq!(error.code, "CRV-501");
    assert_eq!(
        error.detail.as_deref(),
        Some("尝试读取失败: /missing/config.json: no such file")
    );
    let nowhere = service()
        .request(&environment(&[]), &vec![], &vec![], true, VERSION)
        .expect_err("expect failure");
    assert_eq!(nowhere.detail.as_deref(), Some("无法定位用户目录"));
}

#[test]
fn resolve_quota_request_rejects_keys_unsafe_for_curl_config() {
    let lookup = environment(&[
        ("ZCODE_BIGMODEL_USAGE_API_KEY", "bad\"key"),
        ("BIGMODEL_USAGE_QUOTA_URL", "https://example.test/quota"),
    ]);
    let config = read_config_request(&vec![], true, &vec![], VERSION);
    let error = resolve_quota_request(&lookup, config).expect_err("expect failure");
    assert_eq!(error.code, "CRV-503");
}

#[test]
fn resolve_quota_request_reads_enabled_coding_plan_from_config() {
    let request = resolve(&coding_plan_config(true, "config-key")).expect("resolve from config");
    assert_eq!(request.api_key, "config-key");
    assert_eq!(request.url, "https://open.bigmodel.cn/api/monitor/usage/quota/limit");
}

#[test]
fn resolve_quota_request_reads_config_from_home_fallback() {
    let directories = zcode_config_candidates(&environment(&[("HOME", "/home/user")]));
    assert_eq!(directories[0].base, "/home/user");
    assert_eq!(directories[0].parts, vec![".zcode".to_owned(), "v2".to_owned()]);
    let request = resolve(&coding_plan_config(true, "home-key")).expect("resolve from home");
    assert_eq!(request.api_key, "home-key");
}

#[test]
fn explicit_provider_quota_url_overrides_derived_path() {
    let mut config = coding_plan_config(true, "config-key");
    config["provider"]["builtin:bigmodel-coding-plan"]["options"]["quotaURL"] =
        Value::from("https://quota.example.test/custom/path");
    let request = resolve(&config).expect("resolve from config");
    assert_eq!(request.url, "https://quota.example.test/custom/path");
    assert_eq!(request.api_key, "config-key");
}

#[test]
fn config_dir_falls_back_to_versionless_zcode_dir() {
    let directories = zcode_config_candidates(&environment(&[("HOME", "/home/user")]));
    assert_eq!(directories.len(), 2);
    assert_eq!(directories[1].parts, vec![".zcode".to_owned()]);
    let request = service()
        .request(
            &environment(&[]),
            &vec![
                unreadable("/home/user/.zcode/v2/config.json"),
                ConfigAttempt::Read(Ok(decode_config(&coding_plan_config(true, "root-key")))),
            ],
            &vec![None, None],
            true,
            VERSION,
        )
        .expect("resolve from versionless dir");
    assert_eq!(request.api_key, "root-key");
}

#[test]
fn resolve_quota_request_reports_no_enabled_coding_plan() {
    let error = resolve(&coding_plan_config(false, "config-key")).expect_err("expect failure");
    assert_eq!(error.code, "CRV-502");
}

#[test]
fn resolve_quota_request_reports_missing_key() {
    let error = resolve(&coding_plan_config(true, "")).expect_err("expect failure");
    assert_eq!(error.code, "CRV-503");
    assert_eq!(error.detail.as_deref(), Some("1 个启用的套餐 provider 均未携带 apiKey"));
}

#[test]
fn usable_start_plan_is_selected_over_coding_plan() {
    let request = resolve(&multi_plan_config(true, None)).expect("resolve");
    assert_eq!(request.kind, PlanKind::Start);
    assert_eq!(request.api_key, "start-jwt");
    assert_eq!(
        request.url,
        "https://zcode.z.ai/api/v1/zcode-plan/billing/balance?app_version=0.1.9"
    );
}

#[test]
fn start_plan_cache_available_enables_selection_without_enabled_flag() {
    let config = multi_plan_config(false, None);
    let request = resolve_with_cache(&config, &["builtin:bigmodel-start-plan"]).expect("resolve");
    assert_eq!(request.kind, PlanKind::Start);
}

#[test]
fn start_plan_cache_unavailable_does_not_enable_selection() {
    let config = multi_plan_config(false, None);
    let request = resolve_with_cache(&config, &["builtin:bigmodel-coding-plan"]).expect("resolve");
    assert_eq!(request.kind, PlanKind::Coding);
    assert_eq!(request.url, "https://open.bigmodel.cn/api/monitor/usage/quota/limit");
}

#[test]
fn start_plan_without_entitlement_falls_back_to_coding_plan() {
    let request =
        resolve(&multi_plan_config(false, Some("coding_plan_not_entitled"))).expect("resolve");
    assert_eq!(request.kind, PlanKind::Coding);
    assert_eq!(request.api_key, "coding-key");
    assert_eq!(request.url, "https://open.bigmodel.cn/api/monitor/usage/quota/limit");
}

#[test]
fn unresolvable_start_plan_base_url_falls_back_to_coding_candidate() {
    let mut config = multi_plan_config(true, None);
    config["provider"]["builtin:bigmodel-start-plan"]["options"]["baseURL"] =
        Value::from("not a url");
    let request = resolve(&config).expect("resolve");
    assert_eq!(request.kind, PlanKind::Coding);
}

#[test]
fn explicit_quota_url_wins_for_start_plan() {
    let mut config = multi_plan_config(true, None);
    config["provider"]["builtin:bigmodel-start-plan"]["options"]["quotaURL"] =
        Value::from("https://quota.example.test/balance");
    let request = resolve(&config).expect("resolve");
    assert_eq!(request.kind, PlanKind::Start);
    assert_eq!(request.url, "https://quota.example.test/balance");
}

#[test]
fn start_plan_balance_url_derives_gateway_from_anthropic_base() {
    let balance = |path: &str| format!("https://zcode.z.ai{path}?app_version={VERSION}");
    for base in [
        "https://zcode.z.ai/api/v1/zcode-plan/anthropic",
        "https://zcode.z.ai/api/v1/zcode-plan/anthropic/",
        "https://zcode.z.ai/api/v1/zcode-plan",
    ] {
        assert_eq!(
            start_plan_balance_url(base, VERSION).as_deref(),
            Some(balance("/api/v1/zcode-plan/billing/balance").as_str())
        );
    }
    assert_eq!(start_plan_balance_url("https://zcode.z.ai", VERSION), None);
    assert_eq!(start_plan_balance_url("not a url", VERSION), None);
    assert_eq!(start_plan_balance_url("", VERSION), None);
}

const START_BALANCE_OK: &str = r#"{"code":0,"msg":"ok","data":{"server_time":1788400000,"plans":[
    {"plan_id":"p-start","user_plan_id":"up-1","status":"active","ends_at":1789000000},
    {"plan_id":"p-old","user_plan_id":"up-2","status":"active","ends_at":1788300000}
],"balances":[
    {"bucket_id":"b1","plan_id":"p-start","user_plan_id":"up-1","entitlement_id":"e1","meter":"model_usage","capabilities":["model:GLM-5.3"],"show_name":"GLM-5.3","total_units":1000,"used_units":250,"remaining_units":750,"expires_at":1789600000},
    {"bucket_id":"b2","plan_id":"p-start","user_plan_id":"up-1","entitlement_id":"e2","total_units":"500","used_units":"100","remaining_units":"400","expires_at":1789700000},
    {"bucket_id":"b3","plan_id":"p-old","user_plan_id":"up-2","total_units":900,"used_units":900,"remaining_units":0,"expires_at":1789800000}
]}}"#;

#[test]
fn balance_payload_aggregates_active_buckets_and_drops_expired_plans() {
    let snapshot = read_balance(START_BALANCE_OK).expect("parse balance");
    let pool = snapshot.five_hour.expect("trial pool");
    assert_eq!(pool.quota_total, 1500);
    assert_eq!(pool.quota_used, 350);
    assert_eq!(pool.quota_remaining, 1150);
    assert!((number(pool.used_percent) - 350.0 / 1500.0 * 100.0).abs() < 1e-9);
    assert!((number(pool.remaining_percent) - (100.0 - 350.0 / 1500.0 * 100.0)).abs() < 1e-9);
    assert_eq!(pool.resets_at, Some(1_789_600_000));
    assert_eq!(pool.window_duration_mins, 0);
    assert!(snapshot.weekly.is_none());
    assert_eq!(snapshot.plan_level.as_deref(), Some("Start"));
    assert_eq!(snapshot.plan_kind.as_deref(), Some("start_plan"));
}

#[test]
fn balance_payload_keeps_orphan_buckets() {
    let snapshot = read_balance(
        r#"{"code":0,"data":{"server_time":1788400000,"plans":[
            {"plan_id":"p-start","user_plan_id":"up-1","status":"active","ends_at":1789000000}
        ],"balances":[
            {"bucket_id":"b1","plan_id":"p-orphan","total_units":100,"used_units":10,"remaining_units":90,"expires_at":1789600000}
        ]}}"#,
    )
    .expect("parse orphan balance");
    let pool = snapshot.five_hour.expect("orphan pool");
    assert_eq!(pool.quota_remaining, 90);
}

#[test]
fn balance_payload_drops_buckets_of_expired_status_plans() {
    let snapshot = read_balance(
        r#"{"code":0,"data":{"server_time":1788400000,"plans":[
            {"plan_id":"p-live","user_plan_id":"up-1","status":"active","ends_at":1789000000},
            {"plan_id":"p-gone","user_plan_id":"up-2","status":"expired"}
        ],"balances":[
            {"bucket_id":"b1","plan_id":"p-live","user_plan_id":"up-1","total_units":100,"used_units":10,"remaining_units":90,"expires_at":1789600000},
            {"bucket_id":"b2","plan_id":"p-gone","user_plan_id":"up-2","total_units":500,"used_units":500,"remaining_units":0,"expires_at":1789600000}
        ]}}"#,
    )
    .expect("parse expired balance");
    let pool = snapshot.five_hour.expect("pool");
    assert_eq!(pool.quota_total, 100);
    assert_eq!(pool.quota_used, 10);
}

#[test]
fn balance_payload_skips_buckets_without_any_units() {
    let snapshot = read_balance(
        r#"{"code":0,"data":{"server_time":1788400000,"plans":[],"balances":[
            {"bucket_id":"b-empty"},
            {"bucket_id":"b1","plan_id":"p-start","total_units":100,"used_units":10,"remaining_units":90,"expires_at":1789600000}
        ]}}"#,
    )
    .expect("parse balance");
    assert_eq!(snapshot.five_hour.expect("pool").quota_total, 100);
}

#[test]
fn balance_payload_without_usable_buckets_maps_to_crv_508() {
    let error =
        read_balance(r#"{"code":0,"data":{"server_time":1788400000,"plans":[],"balances":[]}}"#)
            .expect_err("expect failure");
    assert_eq!(error.code, "CRV-508");
}

#[test]
fn balance_payload_zero_total_yields_zero_used_percent() {
    let snapshot = read_balance(
        r#"{"code":0,"data":{"server_time":1788400000,"plans":[],"balances":[
            {"bucket_id":"b1","total_units":0,"used_units":0,"remaining_units":0}
        ]}}"#,
    )
    .expect("parse balance");
    let pool = snapshot.five_hour.expect("pool");
    assert!((number(pool.used_percent) - 0.0).abs() < f64::EPSILON);
    assert!((number(pool.remaining_percent) - 100.0).abs() < f64::EPSILON);
}

#[test]
fn balance_payload_business_error_maps_to_crv_507() {
    let error = read_balance(r#"{"code":3001,"msg":"parameter error"}"#).expect_err("failure");
    assert_eq!(error.code, "CRV-507");
    assert!(error.detail.expect("detail").contains("parameter error"));
}

#[test]
fn balance_payload_malformed_json_and_missing_data_map_to_crv_506() {
    assert_eq!(read_balance("not json").expect_err("failure").code, "CRV-506");
    assert_eq!(read_balance(r#"{"code":0}"#).expect_err("failure").code, "CRV-506");
}

#[test]
fn windows_without_a_class_are_told_apart_by_their_resets() {
    let row = |percentage: u32, time: &str| {
        format!(
            r#"{{"type":"CREDIT_LIMIT","usage":1,"currentValue":{percentage},"remaining":3,"percentage":{percentage}{time}}}"#
        )
    };
    let raw = format!(
        r#"{{"success":true,"data":{{"limits":[{},{},{},{{"type":"OTHER"}}]}}}}"#,
        row(1, ",\"nextResetTime\":9000"),
        row(2, ",\"nextResetTime\":5000"),
        row(3, ",\"nextResetTime\":9000"),
    );
    let snapshot = read_quota(&raw).expect("snapshot");
    let five_hour = snapshot.five_hour.expect("first reset");
    assert_eq!(five_hour.quota_used, 2);
    assert_eq!(five_hour.window_duration_mins, 0);
    assert_eq!(snapshot.weekly.expect("last reset").quota_used, 3);
    assert_eq!(snapshot.plan_level, None);
}

#[test]
fn a_fault_of_the_first_chamber_is_reported_first() {
    let raw = r#"{"success":true,"data":{"limits":[
        {"type":"CREDIT_LIMIT","unit":6,"number":1,"percentage":7},
        {"type":"CREDIT_LIMIT","unit":3,"number":5,"usage":1,"currentValue":2,"percentage":7}
    ]}}"#;
    let error = read_quota(raw).expect_err("two faults");
    assert_eq!(error.detail.as_deref(), Some("配额窗口缺少 remaining"));
}

#[test]
fn faults_of_windows_are_named_in_their_order() {
    let limit = |percentage, usage, current_value, remaining| QuotaLimit {
        kind: "CREDIT_LIMIT".to_owned(),
        unit: Some(3),
        number: Some(5),
        usage,
        current_value,
        remaining,
        percentage,
        next_reset_time: Some(1_999),
    };
    for (faulty, detail) in [
        (limit(None, None, None, None), "配额窗口缺少 percentage"),
        (limit(Some(double(f64::NAN)), None, None, None), "percentage 超出 0-100 范围"),
        (limit(Some(double(1.0)), None, None, None), "配额窗口缺少 usage"),
        (limit(Some(double(1.0)), Some(1), None, None), "配额窗口缺少 currentValue"),
        (limit(Some(double(1.0)), Some(1), Some(1), None), "配额窗口缺少 remaining"),
    ] {
        assert_eq!(to_window(&faulty).expect_err("fault").detail.as_deref(), Some(detail));
    }
    let sound = limit(Some(double(0.1)), Some(1), Some(2), Some(3));
    let window = to_window(&sound).expect("window");
    assert_eq!(window.resets_at, Some(1));
    assert_eq!(number(window.remaining_percent), 100.0 - 0.1);
    assert!(is_five_hour_window(&sound) && !is_weekly_window(&sound));
    assert_eq!(window_duration_mins(Some(6), Some(1)), 10_080);
    assert_eq!(window_duration_mins(Some(6), None), 0);
}

#[test]
fn plans_are_told_by_the_ending_of_their_ids() {
    assert_eq!(plan_kind_from_id("a-start-plan"), Some(PlanKind::Start));
    assert_eq!(plan_kind_from_id("-coding-plan"), Some(PlanKind::Coding));
    assert_eq!(plan_kind_from_id("start-plan"), None);
    assert_eq!(plan_kind_from_id("a-coding-plan-b"), None);
    assert!(PlanKind::Start.priority() < PlanKind::Coding.priority());
    assert_eq!(PlanKind::Start.snapshot_kind(), "start_plan");
}

#[test]
fn a_start_plan_that_is_not_wanted_is_not_asked() {
    let attempts = vec![ConfigAttempt::Read(Ok(decode_config(&multi_plan_config(true, None))))];
    let request = read_config_request(&attempts, false, &vec![], VERSION).expect("coding plan");
    assert_eq!(request.kind, PlanKind::Coding);
    let only_start = serde_json::from_str(
        r#"{"provider":{"x-start-plan":{"enabled":true,"options":{"apiKey":"k","quotaURL":"u"}}}}"#,
    )
    .expect("JSON");
    let attempts = vec![ConfigAttempt::Read(Ok(decode_config(&only_start)))];
    assert_eq!(
        read_config_request(&attempts, false, &vec![], VERSION).expect_err("no plan").code,
        "CRV-502"
    );
}

#[test]
fn plans_of_a_kind_go_by_their_ids_and_faults_are_listed() {
    let config = serde_json::from_str(
        r#"{"provider":{
            "c-coding-plan":{"enabled":true,"options":{"apiKey":" k3 ","baseURL":"https://c.test"}},
            "b-coding-plan":{"enabled":true,"options":{"apiKey":"k2","baseURL":"https://b.test"}},
            "a-coding-plan":{"enabled":true,"options":{"apiKey":"  ","baseURL":"https://a.test"}},
            "other":{"enabled":true,"options":{"apiKey":"k","baseURL":"https://o.test"}}
        }}"#,
    )
    .expect("JSON");
    assert_eq!(resolve(&config).expect("second plan").api_key, "k2");

    let faulty = serde_json::from_str(
        r#"{"provider":{
            "b-coding-plan":{"enabled":true,"options":{"apiKey":"k2","baseURL":"://x"}},
            "a-start-plan":{"enabled":true,"options":{"apiKey":"k1","baseURL":"https://a.test"}},
            "d-coding-plan":{"enabled":true,"options":{"baseURL":"https://d.test"}}
        }}"#,
    )
    .expect("JSON");
    let error = resolve(&faulty).expect_err("no endpoint");
    assert_eq!(error.code, "CRV-503");
    assert_eq!(
        error.detail.as_deref(),
        Some("provider a-start-plan 的 baseURL 无法解析: https://a.test; provider b-coding-plan 的 baseURL 无法解析: ://x")
    );
}

#[test]
fn a_configuration_that_cannot_be_decoded_is_reported() {
    let attempts = vec![
        ConfigAttempt::Read(Err("expected value".to_owned())),
        ConfigAttempt::Read(Ok(decode_config(&coding_plan_config(true, "k")))),
    ];
    let error = read_config_request(&attempts, true, &vec![], VERSION).expect_err("no JSON");
    assert_eq!(error.line(), "CRV-501: ZCode 配置无法解析");
    assert_eq!(error.detail.as_deref(), Some("expected value"));
}

#[test]
fn the_first_cache_that_can_be_decoded_counts() {
    let ids = read_plan_cache_availability(&vec![
        None,
        Some(cache(&["b-start-plan", "a-start-plan"], " available ")),
        Some(cache(&["c-start-plan"], "available")),
    ]);
    assert_eq!(ids, vec!["a-start-plan".to_owned(), "b-start-plan".to_owned()]);
    assert!(read_plan_cache_availability(&vec![Some(cache(&["a"], "gone"))]).is_empty());
    assert!(read_plan_cache_availability(&vec![Some(PlanCacheFile { entry_status: None })]).is_empty());
}

#[test]
fn what_the_environment_sets_makes_a_coding_request() {
    let request = |entries: &[(&str, &str)]| {
        service().request(
            &environment(entries),
            &vec![ConfigAttempt::Read(Ok(decode_config(&multi_plan_config(true, None))))],
            &vec![],
            true,
            VERSION,
        )
    };
    let keyed = request(&[("BIGMODEL_USAGE_API_KEY", "k")]).expect("request");
    assert_eq!(keyed.kind, PlanKind::Coding);
    assert_eq!(keyed.api_key, "k");
    assert!(keyed.url.contains("/billing/balance"));
    let located = request(&[
        ("BIGMODEL_USAGE_QUOTA_URL", "https://second.test"),
        ("ZCODE_BIGMODEL_USAGE_QUOTA_URL", "https://first.test"),
    ])
    .expect("request");
    assert_eq!(located.url, "https://first.test");
    assert_eq!(located.api_key, "start-jwt");

    let bare = |url: &str, key: &str| {
        resolve_quota_request(
            &environment(&[]),
            Ok(QuotaRequest { kind: PlanKind::Start, url: url.to_owned(), api_key: key.to_owned() }),
        )
    };
    assert_eq!(bare("u", "").expect_err("no key").code, "CRV-503");
    assert_eq!(bare("", "k").expect_err("no endpoint").code, "CRV-501");
    assert_eq!(bare("u", "a\nb").expect_err("unsafe key").code, "CRV-503");
    assert_eq!(bare("u", "k").expect("request").kind, PlanKind::Start);
}

#[test]
fn configurations_are_looked_for_where_the_environment_says() {
    let named = zcode_config_candidates(&environment(&[
        ("HOME", "/home/user"),
        ("CODEX_CREDITS_ZCODE_CONFIG_DIR", "/etc/zcode"),
    ]));
    assert_eq!(named.len(), 1);
    assert_eq!(named[0].base, "/etc/zcode");
    assert!(named[0].parts.is_empty());
    assert_eq!(zcode_config_candidates(&environment(&[("USERPROFILE", "C:")])).len(), 2);
    assert!(zcode_config_candidates(&environment(&[])).is_empty());
}

#[test]
fn keys_are_handed_over_on_the_standard_input() {
    let request = QuotaRequest {
        kind: PlanKind::Coding,
        url: "https://example.test/quota".to_owned(),
        api_key: "secret-key".to_owned(),
    };
    let args = curl_arguments(&request);
    assert_eq!(args.last().map(String::as_str), Some("https://example.test/quota"));
    assert!(args.iter().all(|argument| !argument.contains("secret-key")));
    assert_eq!(curl_config(&request), "header = \"Authorization: secret-key\"\n");
}

#[test]
fn answers_of_curl_are_framed_by_their_last_line() {
    assert_eq!(parse_curl_output(true, Some(0), "a\nb\n 200 ").expect("body"), "a\nb");
    let refused = parse_curl_output(true, Some(0), &format!(" {}\n500", "x".repeat(300)))
        .expect_err("refused");
    assert_eq!(refused.detail.expect("detail"), format!("HTTP 500: {}", "x".repeat(200)));
    for (text, detail) in [
        ("no line", "curl 未返回 HTTP 状态行"),
        ("body\nx", "无法解析 HTTP 状态: x"),
        ("body\n99999", "无法解析 HTTP 状态: 99999"),
    ] {
        let error = parse_curl_output(true, Some(0), text).expect_err("no status");
        assert_eq!(error.code, "CRV-504");
        assert_eq!(error.detail.as_deref(), Some(detail));
    }
    assert_eq!(
        parse_curl_output(false, None, "").expect_err("killed").detail.as_deref(),
        Some("curl 退出状态: unknown")
    );
    assert_eq!(
        parse_curl_output(false, Some(-1), "").expect_err("killed").detail.as_deref(),
        Some("curl 退出状态: -1")
    );
    assert_eq!(
        fetch_quota_body(&FetchOutcome::TimedOut).expect_err("late").detail.as_deref(),
        Some("请求超时")
    );
    assert_eq!(
        fetch_quota_body(&FetchOutcome::Failed("no curl".to_owned())).expect_err("gone").code,
        "CRV-504"
    );
    let finished =
        FetchOutcome::Finished { succeeded: true, exit_code: Some(0), text: "{}\n200".to_owned() };
    assert_eq!(fetch_quota_body(&finished).expect("body"), "{}");
}

#[test]
fn a_file_can_stand_in_for_the_service() {
    let named = ZCodeQuotaService::from_environment(&environment(&[(
        "CODEX_CREDITS_ZCODE_QUOTA_RESPONSE_FILE",
        "/tmp/answer.json",
    )]));
    assert_eq!(named.fixture_path.as_deref(), Some("/tmp/answer.json"));
    let service = ZCodeQuotaService::from_fixture_path("/tmp/answer.json".to_owned());
    let error = service
        .read_snapshot(ZCodeReading::FixtureUnreadable("gone".to_owned()), 1)
        .expect_err("unreadable");
    assert_eq!(error.line(), "CRV-506: ZCode 配额 fixture 无法读取");
    let raw = r#"{"success":true,"data":{"limits":[{"type":"CREDIT_LIMIT","usage":1,"currentValue":0,"remaining":1,"percentage":0}]}}"#;
    let read = service.read_snapshot(ZCodeReading::Fixture(decode_quota(raw)), 31).expect("reading");
    assert_eq!(read.observed_at_ms, 31);
    let asked = service.read_snapshot(ZCodeReading::Coding(decode_quota(raw)), 31).expect("reading");
    assert_eq!(asked.plan_kind.as_deref(), Some("coding_plan"));
    let trial =
        service.read_snapshot(ZCodeReading::Start(decode_balance(START_BALANCE_OK)), 31).expect("trial");
    assert_eq!(trial.plan_kind.as_deref(), Some("start_plan"));
    let unanswered =
        ZCodeReading::Unanswered(Diagnostic::new("CRV-502", "ZCode 编程包未启用"));
    assert_eq!(service.read_snapshot(unanswered, 31).expect_err("none").code, "CRV-502");
}

#[test]
fn fixture_file_completes_the_read_snapshot_journey() {
    let service = ZCodeQuotaService::from_fixture_path("/tmp/zcode-quota-fixture.json".to_owned());
    let snapshot = service
        .read_snapshot(ZCodeReading::Fixture(decode_quota(DUAL_WINDOWS)), 31)
        .expect("fixture snapshot");
    assert!(snapshot.five_hour.is_some());
    assert!(snapshot.weekly.is_some());
    assert_eq!(snapshot.plan_level.as_deref(), Some("pro"));
    assert_eq!(snapshot.plan_kind.as_deref(), Some("coding_plan"));
}

const NOTHING_LEFT: &str = r#"{"code":0,"data":{"server_time":1788400000,"plans":[
    {"plan_id":"p","status":"expired"}
],"balances":[{"plan_id":"p","total_units":5}]}}"#;

#[test]
fn a_start_plan_that_the_gateway_refuses_falls_back_to_a_coding_plan() {
    let service = service();
    let attempts = vec![ConfigAttempt::Read(Ok(decode_config(&multi_plan_config(true, None))))];
    let again = |reading: &ZCodeReading, prefer_start: bool| {
        service.fallback_request(
            reading,
            &environment(&[]),
            &attempts,
            &vec![None],
            prefer_start,
            VERSION,
            31,
        )
    };
    for raw in [r#"{"code":3001,"msg":"no plan"}"#, NOTHING_LEFT, r#"{"code":0,"data":{}}"#] {
        let reading = ZCodeReading::Start(decode_balance(raw));
        assert!(service.falls_back(&reading, true, 31), "{raw}");
        assert!(!service.falls_back(&reading, false, 31));
        let request = again(&reading, true).expect("a coding plan is asked");
        assert_eq!(request.kind, PlanKind::Coding);
        assert_eq!(request.api_key, "coding-key");
        assert!(again(&reading, false).is_none());
        assert!(service.read_snapshot(reading, 31).is_err());
    }
    for reading in [
        ZCodeReading::Start(decode_balance(START_BALANCE_OK)),
        ZCodeReading::Start(decode_balance("not json")),
        ZCodeReading::Start(decode_balance(r#"{"code":0}"#)),
        ZCodeReading::Coding(decode_quota(r#"{"code":500}"#)),
        ZCodeReading::Unanswered(Diagnostic::new("CRV-504", "ZCode 配额服务不可达")),
    ] {
        assert!(!service.falls_back(&reading, true, 31));
        assert!(again(&reading, true).is_none());
    }
}

#[test]
fn a_refusal_stands_where_there_is_no_coding_plan() {
    let only_start = serde_json::from_str(
        r#"{"provider":{"x-start-plan":{"enabled":true,"options":{"apiKey":"k","quotaURL":"u"}}}}"#,
    )
    .expect("JSON");
    let attempts = vec![ConfigAttempt::Read(Ok(decode_config(&only_start)))];
    let reading = ZCodeReading::Start(decode_balance(NOTHING_LEFT));
    let again =
        service().fallback_request(&reading, &environment(&[]), &attempts, &vec![], true, VERSION, 31);
    assert!(again.is_none());
    assert_eq!(service().read_snapshot(reading, 31).expect_err("refused").code, "CRV-508");
}

#[test]
fn plans_expire_by_the_clock_of_this_machine_where_the_service_tells_no_time() {
    let raw = |time: &str| {
        format!(
            r#"{{"success":true,"data":{{{time}"plans":[{{"plan_id":"p","status":" ACTIVE ","ends_at":1788400000}}],"balances":[{{"plan_id":"p","total_units":1}}]}}}}"#
        )
    };
    for (time, kept) in [
        ("", false),
        ("\"server_time\":-1,", false),
        ("\"server_time\":1788399999,", true),
        ("\"server_time\":1788400000,", false),
    ] {
        let result = parse_balance_payload(decode_balance(&raw(time)), 1_788_400_000_000);
        assert_eq!(result.is_ok(), kept, "{time}");
    }
    let earlier = parse_balance_payload(decode_balance(&raw("")), 1_788_399_999_999);
    assert!(earlier.is_ok());
}

#[test]
fn buckets_belong_to_plans_by_the_ids_that_are_known() {
    let kept = |plan: &str, bucket: &str| {
        let raw = format!(
            r#"{{"code":0,"data":{{"server_time":5,"plans":[{{{plan}"status":"Expired"}}],"balances":[{{{bucket}"used_units":3}}]}}}}"#
        );
        read_balance(&raw).is_ok()
    };
    assert!(!kept("", ""));
    assert!(!kept("\"plan_id\":\"p\",", "\"plan_id\":\"p\","));
    assert!(kept("\"plan_id\":\"p\",", ""));
    assert!(kept(
        "\"plan_id\":\"p\",\"user_plan_id\":\"u\",",
        "\"plan_id\":\"p\",\"user_plan_id\":\"v\","
    ));
    assert!(!kept(
        "\"plan_id\":\"p\",\"user_plan_id\":\"u\",",
        "\"plan_id\":\"p\",\"user_plan_id\":\"\","
    ));
    assert!(!kept(
        "\"plan_id\":\"p\",\"user_plan_id\":\"u\",",
        "\"plan_id\":\"q\",\"user_plan_id\":\"u\","
    ));
}

#[test]
fn faulty_units_and_expiries_are_left_out() {
    let snapshot = read_balance(
        r#"{"code":0,"data":{"balances":[
            {"total_units":"none","used_units":" 7.9 ","expires_at":0},
            {"total_units":"nan","remaining_units":-2,"expires_at":-5},
            {"total_units":"inf"},
            {"total_units":4,"used_units":1,"expires_at":99.9},
            {"total_units":4,"expires_at":100}
        ]}}"#,
    )
    .expect("balance");
    let pool = snapshot.five_hour.expect("pool");
    assert_eq!(pool.quota_total, 8);
    assert_eq!(pool.quota_used, 8);
    assert_eq!(pool.quota_remaining, 0);
    assert_eq!(pool.resets_at, Some(99));
    assert_eq!(number(pool.used_percent), 100.0);
    assert_eq!(number(pool.remaining_percent), 0.0);
}

#[test]
fn shares_are_those_of_floating_point() {
    for (used, total) in [(1.0, 3.0), (2.0, 7.0), (1e-300, 5.0), (9.0, 3.0), (-1.0, 4.0), (0.0, 9.0)] {
        let expected = (used / total * 100.0_f64).clamp(0.0, 100.0);
        assert_eq!(number(used_percent_of(&double(used), &double(total))), expected);
    }
    assert_eq!(number(used_percent_of(&double(5.0), &double(-1.0))), 0.0);
    assert!(number(used_percent_of(&double(f64::INFINITY), &double(f64::INFINITY))).is_nan());
}
