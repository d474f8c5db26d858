//! Preferences and the desktop shell.

use quodex::desktop::{
    bundled_webview2_runtime, check_click_through, click_through_failure, prefers_start,
    toggle_main_window, tray_action, webview2_files, TrayAction,
};
use quodex::double::Double;
use quodex::preferences::{
    preferences_path, restore_window_position, DisplayPreferences, MeterSourceSelection,
    PreferencesStore, WriteFailure, ZCodePlanSelection,
};

fn double(number: f64) -> Double {
    Double::from_bits(number.to_bits())
}

fn number(double: Double) -> f64 {
    f64::from_bits(double.bits)
}

fn with_opacity(opacity: f64) -> DisplayPreferences {
    DisplayPreferences { opacity: double(opacity), ..DisplayPreferences::default() }
}

#[test]
fn preferences_round_trip_without_credentials_or_startup_state() {
    let mut store = PreferencesStore::new(None);
    let expected = DisplayPreferences {
        opacity: double(0.9),
        reduced_motion: true,
        source: MeterSourceSelection::Carousel,
        zcode_plan: ZCodePlanSelection::Coding,
        x: Some(120),
        y: Some(240),
    };

    let pending = store.prepare(expected).expect("save preferences");
    let written = pending.preferences();
    store.save(pending, Ok(())).expect("save preferences");
    assert_eq!(store.load(), expected);
    assert_eq!(PreferencesStore::new(Some(written)).load(), expected);
}

#[test]
fn default_preferences_match_the_volumetric_lens_contract() {
    assert_eq!(number(DisplayPreferences::default().opacity), 0.92);
    assert!(!DisplayPreferences::default().reduced_motion);
    assert_eq!(DisplayPreferences::default().source, MeterSourceSelection::Carousel);
    assert_eq!(DisplayPreferences::default().zcode_plan, ZCodePlanSelection::Start);
}

#[test]
fn legacy_preferences_without_source_default_to_carousel() {
    let raw: serde_json::Value =
        serde_json::from_str(r#"{"opacity":0.94,"reducedMotion":true,"x":10,"y":20}"#)
            .expect("legacy preferences");
    assert!(raw.get("source").is_none() && raw.get("zcodePlan").is_none());
    let preferences = DisplayPreferences {
        opacity: double(raw["opacity"].as_f64().expect("opacity")),
        reduced_motion: raw["reducedMotion"].as_bool().expect("reducedMotion"),
        source: MeterSourceSelection::default(),
        zcode_plan: ZCodePlanSelection::default(),
        x: raw["x"].as_i64().map(|x| x as i32),
        y: raw["y"].as_i64().map(|y| y as i32),
    };
    let restored = PreferencesStore::new(Some(preferences)).load();
    assert_eq!(restored.source, MeterSourceSelection::Carousel);
    assert_eq!(restored.zcode_plan, ZCodePlanSelection::Start);
    assert_eq!(number(restored.opacity), 0.94);
    assert!(restored.reduced_motion);
    assert_eq!((restored.x, restored.y), (Some(10), Some(20)));
}

#[test]
fn opacities_outside_of_the_range_are_refused() {
    let store = PreferencesStore::new(None);
    for opacity in [0.86, 0.92, 1.0] {
        assert!(store.prepare(with_opacity(opacity)).is_ok());
    }
    for opacity in [0.8599999999999999, 1.0000000000000002, f64::NAN, -1.0] {
        let error = store.prepare(with_opacity(opacity)).expect_err("no opacity");
        assert_eq!(error.code, "CRV-301");
    }
}

#[test]
fn stored_opacities_are_brought_into_the_range() {
    for (stored, restored) in [(0.1, 0.86), (2.0, 1.0), (0.9, 0.9), (f64::INFINITY, 1.0)] {
        let store = PreferencesStore::new(Some(with_opacity(stored)));
        assert_eq!(number(store.load().opacity), restored);
    }
}

#[test]
fn a_failed_save_changes_nothing() {
    for (failure, code) in [
        (WriteFailure::Directory("a".to_owned()), "CRV-302"),
        (WriteFailure::Encoding("b".to_owned()), "CRV-303"),
        (WriteFailure::Writing("c".to_owned()), "CRV-304"),
    ] {
        let mut store = PreferencesStore::new(None);
        let pending = store.prepare(with_opacity(1.0)).expect("accepted");
        let error = store.save(pending, Err(failure)).expect_err("not stored");
        assert_eq!(error.code, code);
        assert!(error.detail.is_some());
        assert_eq!(store.load(), DisplayPreferences::default());
    }
}

#[test]
fn the_window_moves_without_touching_what_was_chosen() {
    let mut store = PreferencesStore::new(Some(with_opacity(0.9)));
    assert_eq!(restore_window_position(&store), None);
    let pending = store.update_position(-5, 7).expect("accepted");
    store.save(pending, Ok(())).expect("stored");
    assert_eq!(restore_window_position(&store), Some((-5, 7)));
    assert_eq!(number(store.load().opacity), 0.9);

    let chosen = DisplayPreferences { x: Some(1), y: None, reduced_motion: true, ..with_opacity(1.0) };
    let pending = store.prepare_choice(chosen).expect("accepted");
    store.save(pending, Ok(())).expect("stored");
    assert!(store.load().reduced_motion);
    assert_eq!(restore_window_position(&store), Some((-5, 7)));
}

#[test]
fn preferences_lie_in_the_first_directory_that_is_known() {
    let path = |named: Option<&str>, app: Option<&str>| {
        let path = preferences_path(named.map(str::to_owned), app.map(str::to_owned));
        (path.base, path.parts)
    };
    let parts = vec!["display-preferences.json".to_owned()];
    assert_eq!(path(Some("/a"), Some("/b")), ("/a".to_owned(), parts.clone()));
    assert_eq!(path(None, Some("/b")), ("/b".to_owned(), parts.clone()));
    assert_eq!(path(None, None), (".".to_owned(), parts));
}

#[test]
fn finds_only_a_complete_runtime_next_to_the_portable_executable() {
    let root = Some("/portable".to_owned());
    assert!(bundled_webview2_runtime(&root, false, false).is_none());
    assert!(bundled_webview2_runtime(&root, true, false).is_none());
    assert!(bundled_webview2_runtime(&root, false, true).is_none());
    let runtime = bundled_webview2_runtime(&root, true, true).expect("complete runtime");
    assert_eq!(runtime.base, "/portable");
    assert_eq!(runtime.parts, vec!["webview2-runtime".to_owned()]);
    assert!(bundled_webview2_runtime(&None, true, true).is_none());
    let (program, engine) = webview2_files("/portable");
    assert_eq!(program.parts[1], "msedgewebview2.exe");
    assert_eq!(engine.parts[1], "msedge.dll");
}

#[test]
fn the_tray_shows_hides_and_quits() {
    assert_eq!(tray_action("show"), Some(TrayAction::Show));
    assert_eq!(tray_action("hide"), Some(TrayAction::Hide));
    assert_eq!(tray_action("quit"), Some(TrayAction::Quit));
    assert_eq!(tray_action("other"), None);
    assert_eq!(toggle_main_window(Some(true)), TrayAction::Hide);
    assert_eq!(toggle_main_window(Some(false)), TrayAction::Show);
    assert_eq!(toggle_main_window(None), TrayAction::Show);
}

#[test]
fn clicks_go_through_for_one_to_thirty_seconds() {
    assert!(check_click_through(1_000).is_ok());
    assert!(check_click_through(30_000).is_ok());
    assert_eq!(check_click_through(999).expect_err("short").code, "CRV-305");
    assert_eq!(check_click_through(30_001).expect_err("long").code, "CRV-305");
    assert_eq!(click_through_failure("gone").code, "CRV-306");
}

#[test]
fn only_the_coding_choice_skips_start_plans() {
    assert!(prefers_start(&None));
    assert!(prefers_start(&Some("start".to_owned())));
    assert!(prefers_start(&Some("Coding".to_owned())));
    assert!(!prefers_start(&Some("coding".to_owned())));
}
