//! How the meter is displayed: what the user chose, and where the window stands.

use crate::diagnostic::{plain_report, report, Diagnostic, Report};
use crate::double::{
    exponent, law_rounding_is_unique, lemma_scaled_increases, rounds_to, significand, Double,
};
use crate::paths::{at_base, below, FilePath};
use crate::text::opt_text;
use vstd::arithmetic::power2::{
    lemma2_to64, lemma2_to64_rest, lemma_pow2_adds, lemma_pow2_pos, pow2,
};
use vstd::prelude::*;

verus! {

/// The bit pattern of the least opacity, `0.86`.
pub const LEAST_OPACITY: u64 = 0x3feb_851e_b851_eb85;

/// The bit pattern of full opacity, `1.0`.
pub const FULL_OPACITY: u64 = 0x3ff0_0000_0000_0000;

/// The bit pattern of the opacity at first, `0.92`.
pub const FIRST_OPACITY: u64 = 0x3fed_70a3_d70a_3d71;

/// Whose quota the meter shows.
#[derive(Debug, Clone, Copy, PartialEq, Eq, Structural)]
pub enum MeterSourceSelection {
    Carousel,
    Codex,
    Zcode,
}

impl Default for MeterSourceSelection {
    fn default() -> (selection: MeterSourceSelection)
        ensures
            selection == MeterSourceSelection::Carousel,
    {
        MeterSourceSelection::Carousel
    }
}

/// Which ZCode plan the meter shows: a start plan, and a coding plan where the start plan is
/// unavailable or the gateway refuses it; or a coding plan only.
#[derive(Debug, Clone, Copy, PartialEq, Eq, Structural)]
pub enum ZCodePlanSelection {
    Start,
    Coding,
}

impl Default for ZCodePlanSelection {
    fn default() -> (selection: ZCodePlanSelection)
        ensures
            selection == ZCodePlanSelection::Start,
    {
        ZCodePlanSelection::Start
    }
}

/// What the user chose, and where the window stands.
#[derive(Debug, Clone, Copy, PartialEq, Eq, Structural)]
pub struct DisplayPreferences {
    pub opacity: Double,
    pub reduced_motion: bool,
    pub source: MeterSourceSelection,
    pub zcode_plan: ZCodePlanSelection,
    pub x: Option<i32>,
    pub y: Option<i32>,
}

/// The preferences of a user who chose nothing yet.
pub open spec fn first_preferences() -> DisplayPreferences {
    DisplayPreferences {
        opacity: Double { bits: FIRST_OPACITY },
        reduced_motion: false,
        source: MeterSourceSelection::Carousel,
        zcode_plan: ZCodePlanSelection::Start,
        x: None,
        y: None,
    }
}

impl Default for DisplayPreferences {
    fn default() -> (preferences: DisplayPreferences)
        ensures
            preferences == first_preferences(),
    {
        DisplayPreferences {
            opacity: Double::from_bits(FIRST_OPACITY),
            reduced_motion: false,
            source: MeterSourceSelection::default(),
            zcode_plan: ZCodePlanSelection::default(),
            x: None,
            y: None,
        }
    }
}

/// Whether an opacity is one that can be chosen.
pub open spec fn valid_opacity(opacity: Double) -> bool {
    (Double { bits: LEAST_OPACITY }).at_most(opacity) && opacity.at_most(
        Double { bits: FULL_OPACITY },
    )
}

/// The nearest opacity that can be chosen.
pub open spec fn clamped_opacity(opacity: Double) -> Double {
    if opacity.below(Double { bits: LEAST_OPACITY }) {
        Double { bits: LEAST_OPACITY }
    } else if (Double { bits: FULL_OPACITY }).below(opacity) {
        Double { bits: FULL_OPACITY }
    } else {
        opacity
    }
}

/// The preferences that a file holds, with an opacity that can be chosen; those of a user who
/// chose nothing where it holds none.
pub open spec fn restored(stored: Option<DisplayPreferences>) -> DisplayPreferences {
    match stored {
        Some(stored) => DisplayPreferences { opacity: clamped_opacity(stored.opacity), ..stored },
        None => first_preferences(),
    }
}

/// The preferences with the window at another place.
pub open spec fn placed(
    preferences: DisplayPreferences,
    x: Option<i32>,
    y: Option<i32>,
) -> DisplayPreferences {
    DisplayPreferences { x, y, ..preferences }
}

/// The failure of an opacity that cannot be chosen.
pub open spec fn opacity_report() -> Report {
    plain_report("CRV-301"@, "显示透明度必须在 86% 到 100% 之间"@)
}

/// Accepts preferences whose opacity can be chosen.
pub fn validate(preferences: &DisplayPreferences) -> (result: Result<(), Diagnostic>)
    ensures
        if valid_opacity(preferences.opacity) {
            result is Ok
        } else {
            result is Err && result->Err_0@ == opacity_report()
        },
{
    let least: Double = Double::from_bits(LEAST_OPACITY);
    let most: Double = Double::from_bits(FULL_OPACITY);
    if !(least.le(&preferences.opacity) && preferences.opacity.le(&most)) {
        return Err(Diagnostic::new("CRV-301", "显示透明度必须在 86% 到 100% 之间"));
    }
    Ok(())
}

/// Why preferences could not be stored.
#[derive(Debug)]
pub enum WriteFailure {
    /// Their directory could not be made.
    Directory(String),
    /// They could not be encoded.
    Encoding(String),
    /// Their file could not be written.
    Writing(String),
}

/// The failure to store preferences.
pub open spec fn write_report(failure: WriteFailure) -> Report {
    match failure {
        WriteFailure::Directory(error) => report("CRV-302"@, "无法创建本地显示偏好目录"@, error@),
        WriteFailure::Encoding(error) => report("CRV-303"@, "无法编码本地显示偏好"@, error@),
        WriteFailure::Writing(error) => report("CRV-304"@, "无法保存本地显示偏好"@, error@),
    }
}

/// The failure to store preferences.
pub fn write_failure(failure: &WriteFailure) -> (diagnostic: Diagnostic)
    ensures
        diagnostic@ == write_report(*failure),
{
    match failure {
        WriteFailure::Directory(error) => Diagnostic::new(
            "CRV-302",
            "无法创建本地显示偏好目录",
        ).with_detail(error.as_str()),
        WriteFailure::Encoding(error) => Diagnostic::new(
            "CRV-303",
            "无法编码本地显示偏好",
        ).with_detail(error.as_str()),
        WriteFailure::Writing(error) => Diagnostic::new(
            "CRV-304",
            "无法保存本地显示偏好",
        ).with_detail(error.as_str()),
    }
}

/// The file of the preferences: in the directory that the environment names, else in that of the
/// application, else where the program runs.
pub fn preferences_path(named: Option<String>, app_config_dir: Option<String>) -> (path: FilePath)
    ensures
        path@ == below(
            at_base(
                match (opt_text(named), opt_text(app_config_dir)) {
                    (Some(dir), _) => dir,
                    (None, Some(dir)) => dir,
                    (None, None) => "."@,
                },
            ),
            "display-preferences.json"@,
        ),
{
    let dir: String = match (named, app_config_dir) {
        (Some(dir), _) => dir,
        (None, Some(dir)) => dir,
        (None, None) => ".".to_owned(),
    };
    FilePath::new(dir.as_str()).join("display-preferences.json")
}

/// Preferences that are accepted and about to be stored.
#[derive(Debug)]
pub struct PendingSave {
    preferences: DisplayPreferences,
}

impl PendingSave {
    /// The preferences to be stored.
    pub closed spec fn content(self) -> DisplayPreferences {
        self.preferences
    }

    #[verifier::type_invariant]
    closed spec fn accepted(self) -> bool {
        valid_opacity(self.preferences.opacity)
    }

    /// The preferences to be stored.
    pub fn preferences(&self) -> (preferences: DisplayPreferences)
        ensures
            preferences == self.content(),
            valid_opacity(preferences.opacity),
    {
        proof {
            use_type_invariant(self);
        }
        self.preferences
    }
}

/// `result` tells whether preferences may be stored, and holds them where they may.
pub open spec fn is_prepared(
    preferences: DisplayPreferences,
    result: Result<PendingSave, Diagnostic>,
) -> bool {
    if valid_opacity(preferences.opacity) {
        result is Ok && result->Ok_0.content() == preferences
    } else {
        result is Err && result->Err_0@ == opacity_report()
    }
}

/// The preferences in force.
#[derive(Debug)]
pub struct PreferencesStore {
    value: DisplayPreferences,
}

impl PreferencesStore {
    /// The preferences in force.
    pub closed spec fn current(self) -> DisplayPreferences {
        self.value
    }

    /// The store over what a file holds, where it could be read and decoded.
    pub fn new(stored: Option<DisplayPreferences>) -> (store: PreferencesStore)
        ensures
            store.current() == restored(stored),
    {
        let value: DisplayPreferences = match stored {
            Some(stored) => {
                let least: Double = Double::from_bits(LEAST_OPACITY);
                let most: Double = Double::from_bits(FULL_OPACITY);
                let opacity: Double = if stored.opacity.lt(&least) {
                    least
                } else if most.lt(&stored.opacity) {
                    most
                } else {
                    stored.opacity
                };
                DisplayPreferences {
                    opacity,
                    reduced_motion: stored.reduced_motion,
                    source: stored.source,
                    zcode_plan: stored.zcode_plan,
                    x: stored.x,
                    y: stored.y,
                }
            },
            None => DisplayPreferences::default(),
        };
        PreferencesStore { value }
    }

    /// The preferences in force.
    pub fn load(&self) -> (preferences: DisplayPreferences)
        ensures
            preferences == self.current(),
    {
        self.value
    }

    /// Accepts preferences for storing.
    pub fn prepare(&self, preferences: DisplayPreferences) -> (result: Result<
        PendingSave,
        Diagnostic,
    >)
        ensures
            is_prepared(preferences, result),
    {
        match validate(&preferences) {
            Ok(()) => Ok(PendingSave { preferences }),
            Err(diagnostic) => Err(diagnostic),
        }
    }

    /// Accepts what the user chose for storing; the window stays where it is.
    pub fn prepare_choice(&self, chosen: DisplayPreferences) -> (result: Result<
        PendingSave,
        Diagnostic,
    >)
        ensures
            is_prepared(placed(chosen, self.current().x, self.current().y), result),
    {
        self.prepare(
            DisplayPreferences {
                opacity: chosen.opacity,
                reduced_motion: chosen.reduced_motion,
                source: chosen.source,
                zcode_plan: chosen.zcode_plan,
                x: self.value.x,
                y: self.value.y,
            },
        )
    }

    /// Accepts the preferences in force for storing, with the window at another place.
    pub fn update_position(&self, x: i32, y: i32) -> (result: Result<PendingSave, Diagnostic>)
        ensures
            is_prepared(placed(self.current(), Some(x), Some(y)), result),
    {
        self.prepare(
            DisplayPreferences {
                opacity: self.value.opacity,
                reduced_motion: self.value.reduced_motion,
                source: self.value.source,
                zcode_plan: self.value.zcode_plan,
                x: Some(x),
                y: Some(y),
            },
        )
    }

    /// Puts preferences in force once they are stored; where that failed, nothing changes.
    pub fn save(&mut self, pending: PendingSave, written: Result<(), WriteFailure>) -> (result:
        Result<(), Diagnostic>)
        ensures
            match written {
                Ok(_) => {
                    &&& result is Ok
                    &&& final(self).current() == pending.content()
                    &&& valid_opacity(final(self).current().opacity)
                },
                Err(failure) => {
                    &&& result is Err
                    &&& result->Err_0@ == write_report(failure)
                    &&& final(self).current() == old(self).current()
                },
            },
    {
        match written {
            Ok(()) => {
                proof {
                    use_type_invariant(&pending);
                }
                self.value = pending.preferences;
                Ok(())
            },
            Err(failure) => Err(write_failure(&failure)),
        }
    }
}

/// Where the window is put at the start: nowhere in particular unless both coordinates are known.
pub fn restore_window_position(store: &PreferencesStore) -> (position: Option<(i32, i32)>)
    ensures
        position == match (store.current().x, store.current().y) {
            (Some(x), Some(y)) => Some((x, y)),
            _ => None,
        },
{
    let preferences: DisplayPreferences = store.load();
    match (preferences.x, preferences.y) {
        (Some(x), Some(y)) => Some((x, y)),
        _ => None,
    }
}

/// What was accepted for storing is what a later start restores.
pub proof fn law_stored_preferences_are_restored(preferences: DisplayPreferences)
    requires
        valid_opacity(preferences.opacity),
    ensures
        restored(Some(preferences)) == preferences,
{
}

/// Whatever number a file holds, the opacity in force can be chosen; and so can the first one.
pub proof fn law_restored_opacity_is_valid(stored: Option<DisplayPreferences>)
    requires
        stored is Some ==> !stored->Some_0.opacity.nan(),
    ensures
        valid_opacity(restored(stored).opacity),
{
    let least = Double { bits: LEAST_OPACITY };
    let first = Double { bits: FIRST_OPACITY };
    let most = Double { bits: FULL_OPACITY };
    lemma_scaled_increases(least.magnitude(), first.magnitude());
    lemma_scaled_increases(first.magnitude(), most.magnitude());
}

/// Moving the window changes nothing but its place, and is accepted whenever the preferences in
/// force could be chosen.
pub proof fn law_moving_changes_only_the_place(
    current: DisplayPreferences,
    x: i32,
    y: i32,
    result: Result<PendingSave, Diagnostic>,
)
    requires
        valid_opacity(current.opacity),
        is_prepared(placed(current, Some(x), Some(y)), result),
    ensures
        result is Ok,
        result->Ok_0.content() == (DisplayPreferences { x: Some(x), y: Some(y), ..current }),
{
}

/// The bounds of the opacity: the number nearest to 86 per cent, and one.
proof fn lemma_opacity_bounds()
    ensures
        rounds_to(86int * pow2(1074), 100, LEAST_OPACITY as int),
        (Double { bits: LEAST_OPACITY }).magnitude() == LEAST_OPACITY,
        !(Double { bits: LEAST_OPACITY }).negative(),
        !(Double { bits: LEAST_OPACITY }).nan(),
        (Double { bits: FULL_OPACITY }).value() == pow2(1074),
        !(Double { bits: FULL_OPACITY }).nan(),
        rounds_to(92int * pow2(1074), 100, FIRST_OPACITY as int),
{
    lemma2_to64_rest();
    lemma2_to64();
    lemma_pow2_adds(1021, 53);
    lemma_pow2_adds(1022, 52);
    lemma_pow2_pos(1021);
    let a = pow2(1021) as int;
    let u = pow2(1074) as int;
    assert(u == a * 0x20_0000_0000_0000);
    let q = 0x1b_851e_b851_eb85int;
    let least = LEAST_OPACITY as int;
    assert(significand(least) == q && exponent(least) == 1021);
    assert(significand(least - 1) == q - 1 && exponent(least - 1) == 1021);
    assert(significand(least + 1) == q + 1 && exponent(least + 1) == 1021);
    assert(2 * (86 * u) > ((q - 1) * a + q * a) * 100 && 2 * (86 * u) < (q * a + (q + 1) * a) * 100)
        by (nonlinear_arith)
        requires
            u == a * 0x20_0000_0000_0000,
            a > 0,
            q == 0x1b_851e_b851_eb85int,
    ;
    let r = 0x1d_70a3_d70a_3d71int;
    let first = FIRST_OPACITY as int;
    assert(significand(first) == r && exponent(first) == 1021);
    assert(significand(first - 1) == r - 1 && exponent(first - 1) == 1021);
    assert(significand(first + 1) == r + 1 && exponent(first + 1) == 1021);
    assert(2 * (92 * u) > ((r - 1) * a + r * a) * 100 && 2 * (92 * u) < (r * a + (r + 1) * a) * 100)
        by (nonlinear_arith)
        requires
            u == a * 0x20_0000_0000_0000,
            a > 0,
            r == 0x1d_70a3_d70a_3d71int,
    ;
    let full = FULL_OPACITY as int;
    assert(significand(full) == 0x10_0000_0000_0000int && exponent(full) == 1022);
    let b = pow2(1022) as int;
    assert(0x10_0000_0000_0000int * b == b * 0x10_0000_0000_0000int) by (nonlinear_arith);
}

/// Which opacities can be chosen: those from the number nearest to 86 per cent up to one, both
/// included. Preferences with another one are refused.
pub proof fn law_opacities_from_86_to_100_per_cent(
    preferences: DisplayPreferences,
    least: Double,
    result: Result<(), Diagnostic>,
)
    requires
        call_ensures(validate, (&preferences,), result),
        !least.negative(),
        rounds_to(86int * pow2(1074), 100, least.magnitude()),
    ensures
        result is Ok <==> !preferences.opacity.nan() && least.value() <= preferences.opacity.value()
            <= pow2(1074),
        result matches Err(diagnostic) ==> diagnostic.code@ == "CRV-301"@,
{
    lemma_opacity_bounds();
    law_rounding_is_unique(86int * pow2(1074), 100, least.magnitude(), LEAST_OPACITY as int);
    if let Err(diagnostic) = result {
        assert(diagnostic@.code == diagnostic.code@);
    }
}

/// What is restored from a file is what it holds; only an opacity below or above those that can be
/// chosen becomes the nearest of them. Without a file the meter shows both sources in turn, moves,
/// has the number nearest to 92 per cent for its opacity, and stands nowhere in particular.
pub proof fn law_what_is_restored(
    stored: Option<DisplayPreferences>,
    store: PreferencesStore,
    loaded: DisplayPreferences,
    least: Double,
)
    requires
        call_ensures(PreferencesStore::new, (stored,), store),
        call_ensures(PreferencesStore::load, (&store,), loaded),
        !least.negative(),
        rounds_to(86int * pow2(1074), 100, least.magnitude()),
    ensures
        stored matches Some(held) ==> {
            &&& loaded.reduced_motion == held.reduced_motion
            &&& loaded.source == held.source
            &&& loaded.zcode_plan == held.zcode_plan
            &&& loaded.x == held.x && loaded.y == held.y
            &&& held.opacity.nan() || least.value() <= held.opacity.value() <= pow2(1074)
                ==> loaded.opacity == held.opacity
            &&& !held.opacity.nan() && held.opacity.value() < least.value()
                ==> loaded.opacity.value() == least.value()
            &&& !held.opacity.nan() && held.opacity.value() > pow2(1074)
                ==> loaded.opacity.value() == pow2(1074)
        },
        stored is None ==> {
            &&& !loaded.reduced_motion
            &&& loaded.source == MeterSourceSelection::Carousel
            &&& loaded.zcode_plan == ZCodePlanSelection::Start
            &&& loaded.x is None && loaded.y is None
            &&& !loaded.opacity.negative() && rounds_to(
                92int * pow2(1074),
                100,
                loaded.opacity.magnitude(),
            )
        },
{
    lemma_opacity_bounds();
    law_rounding_is_unique(86int * pow2(1074), 100, least.magnitude(), LEAST_OPACITY as int);
    lemma_scaled_increases(LEAST_OPACITY as int, FULL_OPACITY as int);
    assert(store.current() == restored(stored));
}

/// What the user chose is accepted with the window where it is, and a move with everything else as
/// it is; what is accepted is what is to be stored.
pub proof fn law_choices_and_moves_keep_each_other(
    store: PreferencesStore,
    current: DisplayPreferences,
    chosen: DisplayPreferences,
    x: i32,
    y: i32,
    choice: Result<PendingSave, Diagnostic>,
    moved: Result<PendingSave, Diagnostic>,
    plain: Result<PendingSave, Diagnostic>,
)
    requires
        call_ensures(PreferencesStore::load, (&store,), current),
        call_ensures(PreferencesStore::prepare_choice, (&store, chosen), choice),
        call_ensures(PreferencesStore::update_position, (&store, x, y), moved),
        call_ensures(PreferencesStore::prepare, (&store, chosen), plain),
    ensures
        choice matches Ok(pending) ==> {
            let content = pending.content();
            &&& content.x == current.x && content.y == current.y
            &&& content.opacity == chosen.opacity && content.reduced_motion
                == chosen.reduced_motion && content.source == chosen.source && content.zcode_plan
                == chosen.zcode_plan
        },
        moved matches Ok(pending) ==> {
            let content = pending.content();
            &&& content.x == Some(x) && content.y == Some(y)
            &&& content.opacity == current.opacity && content.reduced_motion
                == current.reduced_motion && content.source == current.source && content.zcode_plan
                == current.zcode_plan
        },
        plain matches Ok(pending) ==> pending.content() == chosen,
        choice is Ok <==> plain is Ok,
{
}

/// Preferences come into force once they are stored, exactly those that were stored; where storing
/// failed those before stay in force, and the failure tells what failed.
pub proof fn law_only_stored_preferences_come_into_force(
    store: &mut PreferencesStore,
    pending: PendingSave,
    written: Result<(), WriteFailure>,
    result: Result<(), Diagnostic>,
)
    requires
        call_ensures(PreferencesStore::save, (store, pending, written), result),
    ensures
        result is Ok <==> written is Ok,
        written is Ok ==> final(store).current() == pending.content(),
        written is Err ==> final(store).current() == old(store).current(),
        written matches Err(WriteFailure::Directory(error)) ==> result->Err_0.code@ == "CRV-302"@
            && opt_text(result->Err_0.detail) == Some(error@),
        written matches Err(WriteFailure::Encoding(error)) ==> result->Err_0.code@ == "CRV-303"@
            && opt_text(result->Err_0.detail) == Some(error@),
        written matches Err(WriteFailure::Writing(error)) ==> result->Err_0.code@ == "CRV-304"@
            && opt_text(result->Err_0.detail) == Some(error@),
{
    if let Err(shown) = result {
        assert(shown@.code == shown.code@ && shown@.detail == opt_text(shown.detail));
    }
}

/// The window is put back only where both of its coordinates are known, and then there.
pub proof fn law_the_window_is_put_back(
    store: PreferencesStore,
    current: DisplayPreferences,
    position: Option<(i32, i32)>,
)
    requires
        call_ensures(PreferencesStore::load, (&store,), current),
        call_ensures(restore_window_position, (&store,), position),
    ensures
        position is Some <==> current.x is Some && current.y is Some,
        position matches Some((x, y)) ==> current.x == Some(x) && current.y == Some(y),
{
}

/// The file of the preferences stands in the directory that is named, else in that of the
/// application, else where the program runs.
pub proof fn law_where_the_preferences_stand(
    named: Option<String>,
    app_config_dir: Option<String>,
    path: FilePath,
)
    requires
        call_ensures(preferences_path, (named, app_config_dir), path),
    ensures
        path@.parts == seq!["display-preferences.json"@],
        named matches Some(dir) ==> path@.base == dir@,
        named is None ==> (app_config_dir matches Some(dir) ==> path@.base == dir@),
        named is None && app_config_dir is None ==> path@.base == "."@,
{
    assert(path@.parts =~= seq!["display-preferences.json"@]);
}

} // verus!
