//! What the desktop shell decides: the tray, the window, and the browser runtime.

use crate::diagnostic::{plain_report, report, Diagnostic};
use crate::paths::{at_base, below, FilePath, PathModel};
use crate::text::{opt_text, same_text};
use vstd::prelude::*;

verus! {

/// The id of the menu item that shows the window.
pub const TRAY_SHOW_ID: &'static str = "show";

/// The id of the menu item that hides the window.
pub const TRAY_HIDE_ID: &'static str = "hide";

/// The id of the menu item that ends the program.
pub const TRAY_QUIT_ID: &'static str = "quit";

/// The directory of the browser runtime beside the program.
pub const FIXED_WEBVIEW2_DIRECTORY: &'static str = "webview2-runtime";

/// What a menu item of the tray does.
#[derive(Debug, Clone, Copy, PartialEq, Eq, Structural)]
pub enum TrayAction {
    Show,
    Hide,
    Quit,
}

/// What the menu item with an id does.
pub fn tray_action(id: &str) -> (action: Option<TrayAction>)
    ensures
        action == (if id@ == TRAY_SHOW_ID@ {
            Some(TrayAction::Show)
        } else if id@ == TRAY_HIDE_ID@ {
            Some(TrayAction::Hide)
        } else if id@ == TRAY_QUIT_ID@ {
            Some(TrayAction::Quit)
        } else {
            None
        }),
{
    if same_text(id, TRAY_SHOW_ID) {
        Some(TrayAction::Show)
    } else if same_text(id, TRAY_HIDE_ID) {
        Some(TrayAction::Hide)
    } else if same_text(id, TRAY_QUIT_ID) {
        Some(TrayAction::Quit)
    } else {
        None
    }
}

/// What a click on the tray icon does to the window; `visible` is `None` where that is not known.
pub fn toggle_main_window(visible: Option<bool>) -> (action: TrayAction)
    ensures
        action == (if visible == Some(true) {
            TrayAction::Hide
        } else {
            TrayAction::Show
        }),
{
    match visible {
        Some(true) => TrayAction::Hide,
        _ => TrayAction::Show,
    }
}

/// Whether start plans are wanted: unless the user chose coding plans only.
pub fn prefers_start(preferred_plan: &Option<String>) -> (prefers: bool)
    ensures
        prefers == (opt_text(*preferred_plan) != Some("coding"@)),
{
    match preferred_plan {
        Some(plan) => !same_text(plan.as_str(), "coding"),
        None => true,
    }
}

/// Accepts a time for which clicks go through the window: one to thirty seconds.
pub fn check_click_through(duration_ms: u64) -> (result: Result<(), Diagnostic>)
    ensures
        if 1_000 <= duration_ms <= 30_000 {
            result is Ok
        } else {
            &&& result is Err
            &&& result->Err_0@ == plain_report("CRV-305"@, "鼠标穿透时长必须在 1 到 30 秒之间"@)
        },
{
    if duration_ms < 1_000 || 30_000 < duration_ms {
        return Err(Diagnostic::new("CRV-305", "鼠标穿透时长必须在 1 到 30 秒之间"));
    }
    Ok(())
}

/// The failure to let clicks go through the window.
pub fn click_through_failure(error: &str) -> (diagnostic: Diagnostic)
    ensures
        diagnostic@ == report("CRV-306"@, "无法启用鼠标穿透"@, error@),
{
    Diagnostic::new("CRV-306", "无法启用鼠标穿透").with_detail(error)
}

/// The browser runtime beside a program in a directory.
pub open spec fn runtime_beside(directory: Seq<char>) -> PathModel {
    below(at_base(directory), FIXED_WEBVIEW2_DIRECTORY@)
}

/// The files without which a browser runtime is not complete: its program and its engine.
pub fn webview2_files(directory: &str) -> (files: (FilePath, FilePath))
    ensures
        files.0@ == below(runtime_beside(directory@), "msedgewebview2.exe"@),
        files.1@ == below(runtime_beside(directory@), "msedge.dll"@),
{
    let program: FilePath = FilePath::new(directory).join(FIXED_WEBVIEW2_DIRECTORY).join(
        "msedgewebview2.exe",
    );
    let engine: FilePath = FilePath::new(directory).join(FIXED_WEBVIEW2_DIRECTORY).join(
        "msedge.dll",
    );
    (program, engine)
}

/// The browser runtime beside a program, where it is complete. `directory` is that of the
/// program; the rest tells which of the runtime's files exist.
pub fn bundled_webview2_runtime(
    directory: &Option<String>,
    executable_exists: bool,
    engine_exists: bool,
) -> (runtime: Option<FilePath>)
    ensures
        match *directory {
            Some(directory) => if executable_exists && engine_exists {
                runtime is Some && runtime->Some_0@ == runtime_beside(directory@)
            } else {
                runtime is None
            },
            None => runtime is None,
        },
{
    match directory {
        Some(directory) => if executable_exists && engine_exists {
            Some(FilePath::new(directory.as_str()).join(FIXED_WEBVIEW2_DIRECTORY))
        } else {
            None
        },
        None => None,
    }
}

/// The menu items of the tray do what their ids say, and no other id does anything.
pub proof fn law_menu_items_do_what_they_say(id: &str, action: Option<TrayAction>)
    requires
        call_ensures(tray_action, (id,), action),
    ensures
        action == Some(TrayAction::Show) <==> id@ == "show"@,
        action == Some(TrayAction::Hide) <==> id@ == "hide"@,
        action == Some(TrayAction::Quit) <==> id@ == "quit"@,
{
    reveal_strlit("show");
    reveal_strlit("hide");
    reveal_strlit("quit");
    assert("show"@[0] == 's' && "hide"@[0] == 'h' && "quit"@[0] == 'q');
}

/// A click hides a window that is seen and shows any other, so that two clicks bring it back; it
/// never ends the program.
pub proof fn law_clicks_alternate(visible: Option<bool>, action: TrayAction)
    requires
        call_ensures(toggle_main_window, (visible,), action),
    ensures
        action == TrayAction::Hide <==> visible == Some(true),
        action == TrayAction::Show <==> visible != Some(true),
{
}

/// Start plans are wanted unless the choice is `coding`.
pub proof fn law_start_plans_are_wanted_unless_barred(preferred: Option<String>, prefers: bool)
    requires
        call_ensures(prefers_start, (&preferred,), prefers),
    ensures
        !prefers <==> (preferred matches Some(plan) && plan@ == "coding"@),
{
}

/// Clicks may go through the window for one to thirty seconds, both included.
pub proof fn law_clicks_go_through_for_a_while(duration_ms: u64, result: Result<(), Diagnostic>)
    requires
        call_ensures(check_click_through, (duration_ms,), result),
    ensures
        result is Ok <==> 1 * 1000 <= duration_ms <= 30 * 1000,
        result matches Err(diagnostic) ==> diagnostic.code@ == "CRV-305"@,
{
}

/// A browser runtime is used only where the program's directory is known and both its files are
/// there; it is the directory in which those files are looked for.
pub proof fn law_only_complete_runtimes_are_used(
    directory: String,
    executable_exists: bool,
    engine_exists: bool,
    files: (FilePath, FilePath),
    runtime: Option<FilePath>,
)
    requires
        exists|inner: &str|
            inner@ == directory@ && #[trigger] call_ensures(webview2_files, (inner,), files),
        call_ensures(
            bundled_webview2_runtime,
            (&Some(directory), executable_exists, engine_exists),
            runtime,
        ),
    ensures
        runtime is Some <==> executable_exists && engine_exists,
        runtime matches Some(path) ==> {
            &&& path@.base == directory@
            &&& path@.parts == seq!["webview2-runtime"@]
            &&& files.0@.base == directory@ && files.0@.parts == path@.parts.push(
                "msedgewebview2.exe"@,
            )
            &&& files.1@.base == directory@ && files.1@.parts == path@.parts.push("msedge.dll"@)
        },
{
    if let Some(path) = runtime {
        assert(path@.parts =~= seq!["webview2-runtime"@]);
    }
}

} // verus!
