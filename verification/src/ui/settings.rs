//! The settings window's content: custom chrome (no native title bar) plus
//! the live detection controls, as a list of what to show.

use vstd::prelude::*;
use vstd::string::StringExecFns;

use crate::app::{Levels, TuningMeta};
#[allow(unused_imports)]
use crate::binary32::convert::saturate;
#[allow(unused_imports)]
use crate::binary32::order::{
    lemma_mul_defined, lemma_of_int_exact, lemma_of_int_monotone, lemma_of_int_zero,
};
#[allow(unused_imports)]
use crate::binary32::{lemma_scaled_order, F32};
use crate::detector::{TrayState, SILENT_DB};
use crate::engine::MARGIN_DB;
#[allow(unused_imports)]
use crate::sounds::{law_the_list_is_complete, BuiltinSound, ALL};
#[allow(unused_imports)]
use crate::ui::calibrate::{screen, view as wizard_view, Row, Wizard};
#[allow(unused_imports)]
use crate::ui::meter::{lemma_zero_is_least, Meter};
use crate::ui::theme::{Color, GREEN, RED, TEXT_MUTED, YELLOW};

verus! {

/// The output picker's text for "no preference"; no real device is expected to
/// collide with this label.
pub const SYSTEM_DEFAULT_DEVICE: &'static str = "System default";

/// Which reminder banner (if any) should show. Only one shows at a time.
#[derive(Debug, Clone, Copy, PartialEq, Eq, Structural)]
pub enum Banner {
    /// Calibration incomplete; `urgent` picks the opportunistic daytime copy.
    Incomplete { urgent: bool },
    Drift,
}

/// The calibration-incomplete banner is due, given the day it was last
/// dismissed on: once per day.
pub open spec fn banner_due(
    calibration_incomplete: bool,
    dismissed_on: Option<String>,
    today: Seq<char>,
) -> bool {
    calibration_incomplete && !(dismissed_on matches Some(day) && day@ == today)
}

/// The calibration-incomplete banner shows, unless it was dismissed today.
pub fn banner_visible(
    calibration_incomplete: bool,
    dismissed_on: &Option<String>,
    today: &String,
) -> (r: bool)
    ensures
        r == banner_due(calibration_incomplete, *dismissed_on, today@),
{
    if !calibration_incomplete {
        return false;
    }
    match dismissed_on {
        Some(day) => !(*day == *today),
        None => true,
    }
}

/// The drift nudge shows once a complete calibration's baseline has moved by
/// the threshold's margin, up or down, until it is dismissed. An unknown drift
/// (NaN) shows nothing.
pub open spec fn drift_due(calibration_incomplete: bool, drift_db: F32, dismissed: bool) -> bool {
    !calibration_incomplete && !dismissed && (F32::of_int(MARGIN_DB as int).le_spec(drift_db)
        || drift_db.le_spec(F32::of_int(-MARGIN_DB)))
}

pub fn drift_nudge_visible(calibration_incomplete: bool, drift_db: F32, dismissed: bool) -> (r: bool)
    ensures
        r == drift_due(calibration_incomplete, drift_db, dismissed),
{
    let moved: bool = F32::from_i32(MARGIN_DB).le(drift_db) || drift_db.le(
        F32::from_i32(-MARGIN_DB),
    );
    !calibration_incomplete && !dismissed && moved
}

/// The reminder to show: the calibration-incomplete banner wins over the drift
/// nudge whenever both would otherwise be visible. It is urgent in the daytime
/// (7:00-21:59) once an alert has fired.
pub open spec fn banner_for(incomplete: bool, drifted: bool, alerts: u32, hour: u32) -> Option<
    Banner,
> {
    if incomplete {
        Some(Banner::Incomplete { urgent: alerts > 0 && 7 <= hour <= 21 })
    } else if drifted {
        Some(Banner::Drift)
    } else {
        None
    }
}

pub fn active_banner(incomplete: bool, drifted: bool, alerts_this_session: u32, hour: u32) -> (r:
    Option<Banner>)
    ensures
        r == banner_for(incomplete, drifted, alerts_this_session, hour),
{
    if incomplete {
        let urgent: bool = alerts_this_session > 0 && 7 <= hour && hour <= 21;
        Some(Banner::Incomplete { urgent })
    } else if drifted {
        Some(Banner::Drift)
    } else {
        None
    }
}

/// What a banner's buttons do.
#[derive(Debug, Clone, Copy, PartialEq, Eq, Structural)]
pub enum BannerAction {
    StartWizard,
    /// The calibration-incomplete banner goes away for today.
    DismissIncomplete,
    /// The drift nudge goes away.
    DismissDrift,
}

/// A banner: its message, the label of its button and what that does, and what
/// its close button does.
#[derive(Debug, Clone, Copy, PartialEq, Eq)]
pub struct BannerText {
    pub message: &'static str,
    pub action: &'static str,
    pub press: BannerAction,
    pub dismiss: BannerAction,
}

pub open spec fn banner_copy(banner: Banner) -> BannerText {
    match banner {
        Banner::Incomplete { urgent: true } => BannerText {
            message: "Sounds like you're free to be loud right now. Finish calibration? (5 seconds)",
            action: "Calibrate",
            press: BannerAction::StartWizard,
            dismiss: BannerAction::DismissIncomplete,
        },
        Banner::Incomplete { urgent: false } => BannerText {
            message: "Calibration incomplete. Finish the loud step for the most accurate detection.",
            action: "Calibrate",
            press: BannerAction::StartWizard,
            dismiss: BannerAction::DismissIncomplete,
        },
        Banner::Drift => BannerText {
            message: "Your mic level has shifted since calibration — recalibrate? (takes ~15 s)",
            action: "Recalibrate",
            press: BannerAction::StartWizard,
            dismiss: BannerAction::DismissDrift,
        },
    }
}

pub fn banner_text(banner: Banner) -> (r: BannerText)
    ensures
        r == banner_copy(banner),
{
    match banner {
        Banner::Incomplete { urgent } => if urgent {
            BannerText {
                message: "Sounds like you're free to be loud right now. Finish calibration? (5 seconds)",
                action: "Calibrate",
                press: BannerAction::StartWizard,
                dismiss: BannerAction::DismissIncomplete,
            }
        } else {
            BannerText {
                message: "Calibration incomplete. Finish the loud step for the most accurate detection.",
                action: "Calibrate",
                press: BannerAction::StartWizard,
                dismiss: BannerAction::DismissIncomplete,
            }
        },
        Banner::Drift => BannerText {
            message: "Your mic level has shifted since calibration — recalibrate? (takes ~15 s)",
            action: "Recalibrate",
            press: BannerAction::StartWizard,
            dismiss: BannerAction::DismissDrift,
        },
    }
}

/// The reminder row at the top of the controls, if one is due: which banner by
/// rank, with everything it shows and does.
pub open spec fn banner_row_for(incomplete: bool, drifted: bool, alerts: u32, hour: u32) -> Option<
    BannerText,
> {
    match banner_for(incomplete, drifted, alerts, hour) {
        Some(banner) => Some(banner_copy(banner)),
        None => None,
    }
}

pub fn banner_row(incomplete: bool, drifted: bool, alerts_this_session: u32, hour: u32) -> (r:
    Option<BannerText>)
    ensures
        r == banner_row_for(incomplete, drifted, alerts_this_session, hour),
        r is None <==> !incomplete && !drifted,
        r matches Some(row) ==> row.press == BannerAction::StartWizard && row.dismiss == (
        if incomplete {
            BannerAction::DismissIncomplete
        } else {
            BannerAction::DismissDrift
        }),
{
    match active_banner(incomplete, drifted, alerts_this_session, hour) {
        Some(banner) => Some(banner_text(banner)),
        None => None,
    }
}

/// Seconds shown/edited by the cooldown slider; the config field stays in ms.
pub fn cooldown_ms_to_s(cooldown_ms: u64) -> (r: u64)
    ensures
        r == saturate(cooldown_ms as int / 1000, 1, 10),
{
    let s: u64 = cooldown_ms / 1000;
    if s < 1 {
        1
    } else if s > 10 {
        10
    } else {
        s
    }
}

/// Inverse of [`cooldown_ms_to_s`]; carries whole seconds back into ms.
pub fn cooldown_s_to_ms(seconds: u64) -> (r: u64)
    ensures
        r == saturate(seconds as int, 1, 10) * 1000,
{
    let s: u64 = if seconds < 1 {
        1
    } else if seconds > 10 {
        10
    } else {
        seconds
    };
    s * 1000
}

/// The slider's seconds survive being stored in ms.
pub proof fn law_cooldown_seconds_round_trip(seconds: int)
    requires
        1 <= seconds <= 10,
    ensures
        saturate((saturate(seconds, 1, 10) * 1000) / 1000, 1, 10) == seconds,
{
}

/// The hold time that a slider position stands for.
pub fn hold_from_slider(position: F32) -> (r: u64)
    ensures
        r == position.round_int(0, u64::MAX as int),
{
    position.round_to_u64()
}

/// The cooldown that a slider position, in seconds, stands for.
pub fn cooldown_from_slider(position: F32) -> (r: u64)
    ensures
        r == saturate(position.round_int(0, u64::MAX as int), 1, 10) * 1000,
{
    cooldown_s_to_ms(position.round_to_u64())
}

/// The big status line.
#[derive(Debug, Clone, Copy, PartialEq, Eq)]
pub struct Status {
    pub label: &'static str,
    pub color: Color,
}

/// No device outranks paused, and paused outranks the live state: a colored
/// state label over an empty meter would claim a reading that doesn't exist.
pub open spec fn status_for(has_stream: bool, enabled: bool, tray: TrayState) -> Status {
    if !has_stream {
        Status { label: "No microphone", color: TEXT_MUTED }
    } else if !enabled {
        Status { label: "Paused", color: TEXT_MUTED }
    } else {
        match tray {
            TrayState::Quiet => Status { label: "Quiet", color: GREEN },
            TrayState::Warning => Status { label: "Getting loud", color: YELLOW },
            TrayState::Loud => Status { label: "Too loud", color: RED },
        }
    }
}

pub fn status_line(has_stream: bool, enabled: bool, tray: TrayState) -> (r: Status)
    ensures
        r == status_for(has_stream, enabled, tray),
{
    if !has_stream {
        Status { label: "No microphone", color: TEXT_MUTED }
    } else if !enabled {
        Status { label: "Paused", color: TEXT_MUTED }
    } else {
        match tray {
            TrayState::Quiet => Status { label: "Quiet", color: GREEN },
            TrayState::Warning => Status { label: "Getting loud", color: YELLOW },
            TrayState::Loud => Status { label: "Too loud", color: RED },
        }
    }
}

/// The sensitivity control.
#[derive(Debug, Clone, Copy, PartialEq, Eq)]
pub struct Sensitivity {
    pub label: &'static str,
    pub value: F32,
    /// A slider; otherwise a static bar, since the engine ignores the value.
    pub interactive: bool,
    /// How much of the static bar is filled, in hundredths.
    pub filled: u16,
    pub empty: u16,
}

/// The filled part of the static bar: the value in whole hundredths, from 1 to
/// 99 so that both parts show; none for a NaN.
pub open spec fn filled_portion(value: F32) -> int {
    let share = value.clamp_spec(F32::of_int(0), F32::of_int(1)).mul_spec(F32::of_int(100));
    if share.nan() {
        0
    } else {
        saturate(share.nearest_integer(), 1, 99)
    }
}

/// Disabled whenever the engine ignores sensitivity — which follows the quiet
/// point, not merely whether a calibration entry exists.
pub open spec fn sensitivity_for(meta: TuningMeta) -> Sensitivity {
    Sensitivity {
        label: if meta.ceiling_db is None {
            "Sensitivity (estimated)"
        } else {
            "Sensitivity"
        },
        value: meta.sensitivity,
        interactive: meta.quiet_db is Some,
        filled: filled_portion(meta.sensitivity) as u16,
        empty: (100 - filled_portion(meta.sensitivity)) as u16,
    }
}

pub fn sensitivity_block(meta: &TuningMeta) -> (r: Sensitivity)
    ensures
        r == sensitivity_for(*meta),
{
    let value: F32 = meta.sensitivity;
    proof {
        lemma_zero_is_least(1);
    }
    let share: F32 = value.clamp(F32::from_i32(0), F32::from_i32(1)).mul(F32::from_i32(100));
    let rounded: u64 = share.round_to_u64();
    let filled: u16 = if share.is_nan() {
        0
    } else if rounded < 1 {
        1
    } else if rounded > 99 {
        99
    } else {
        rounded as u16
    };
    let label: &'static str = if meta.ceiling_db.is_none() {
        "Sensitivity (estimated)"
    } else {
        "Sensitivity"
    };
    Sensitivity {
        label,
        value,
        interactive: meta.quiet_db.is_some(),
        filled,
        empty: 100 - filled,
    }
}

/// What the meter shows. Without live data the bar is empty, with the markers
/// still visible. The audio thread's threshold is only trustworthy while it's
/// actually live and has published a finite reading; otherwise the one that
/// the calibration anchors alone imply stands in.
pub open spec fn meter_for(
    meta: TuningMeta,
    latest: Levels,
    live: bool,
    anchored_threshold_db: F32,
) -> Meter {
    Meter {
        level_db: if live {
            latest.level_db
        } else {
            F32::of_int(SILENT_DB as int)
        },
        threshold_db: if live && latest.threshold_db.finite() {
            latest.threshold_db
        } else {
            anchored_threshold_db
        },
        peak_db: if live {
            latest.peak_db
        } else {
            F32::of_int(SILENT_DB as int)
        },
        noise_floor_db: meta.noise_floor_db,
        quiet_db: meta.quiet_db,
        ceiling_db: meta.ceiling_db,
        ceiling_confirmed: meta.ceiling_confirmed,
    }
}

pub fn meter_panel(meta: &TuningMeta, latest: &Levels, live: bool, anchored_threshold_db: F32) -> (r:
    Meter)
    ensures
        r == meter_for(*meta, *latest, live, anchored_threshold_db),
{
    let silent: F32 = F32::from_i32(SILENT_DB);
    Meter {
        level_db: if live {
            latest.level_db
        } else {
            silent
        },
        threshold_db: if live && latest.threshold_db.is_finite() {
            latest.threshold_db
        } else {
            anchored_threshold_db
        },
        peak_db: if live {
            latest.peak_db
        } else {
            silent
        },
        noise_floor_db: meta.noise_floor_db,
        quiet_db: meta.quiet_db,
        ceiling_db: meta.ceiling_db,
        ceiling_confirmed: meta.ceiling_confirmed,
    }
}

/// An entry of the alert sound picker.
#[derive(Debug, Clone, Copy, PartialEq, Eq, Structural)]
pub enum SoundChoice {
    Builtin(BuiltinSound),
    /// Opens the file dialog.
    Custom,
}

/// Every built-in in its order, then the custom entry.
pub open spec fn sound_choices() -> Seq<SoundChoice> {
    ALL@.map_values(|b: BuiltinSound| SoundChoice::Builtin(b)).push(SoundChoice::Custom)
}

pub fn sound_options() -> (r: Vec<SoundChoice>)
    ensures
        r@ == sound_choices(),
{
    let all: [BuiltinSound; 12] = ALL;
    let ghost builtin = all@.map_values(|b: BuiltinSound| SoundChoice::Builtin(b));
    let mut options: Vec<SoundChoice> = Vec::new();
    let mut i: usize = 0;
    while i < 12
        invariant
            i <= 12,
            builtin == all@.map_values(|b: BuiltinSound| SoundChoice::Builtin(b)),
            builtin.len() == 12,
            options@ == builtin.take(i as int),
        decreases 12 - i,
    {
        options.push(SoundChoice::Builtin(all[i]));
        i = i + 1;
        assert(options@ =~= builtin.take(i as int));
    }
    assert(builtin.take(12) =~= builtin);
    options.push(SoundChoice::Custom);
    options
}

/// The texts of the output picker: the default entry, then every listed
/// device; never empty.
pub fn output_options(devices: &Vec<String>) -> (r: Vec<String>)
    ensures
        r@.len() == devices@.len() + 1,
        r@[0]@ == SYSTEM_DEFAULT_DEVICE@,
        forall|i: int| 0 <= i < devices@.len() ==> (#[trigger] r@[i + 1])@ == devices@[i]@,
{
    let mut options: Vec<String> = Vec::new();
    options.push(SYSTEM_DEFAULT_DEVICE.to_owned());
    let mut i: usize = 0;
    while i < devices.len()
        invariant
            i <= devices@.len(),
            options@.len() == i + 1,
            options@[0]@ == SYSTEM_DEFAULT_DEVICE@,
            forall|j: int| 0 <= j < i ==> (#[trigger] options@[j + 1])@ == devices@[j]@,
        decreases devices@.len() - i,
    {
        options.push(devices[i].clone());
        i = i + 1;
    }
    options
}

/// The text that stands for the configured device.
pub fn output_selected(configured: &Option<String>) -> (r: String)
    ensures
        r@ == (match configured {
            Some(name) => name@,
            None => SYSTEM_DEFAULT_DEVICE@,
        }),
{
    match configured {
        Some(name) => name.clone(),
        None => SYSTEM_DEFAULT_DEVICE.to_owned(),
    }
}

/// The device that a picked text stands for.
pub fn output_picked(choice: String) -> (r: Option<String>)
    ensures
        r == (if choice@ == SYSTEM_DEFAULT_DEVICE@ {
            None
        } else {
            Some(choice)
        }),
{
    if choice == SYSTEM_DEFAULT_DEVICE.to_owned() {
        None
    } else {
        Some(choice)
    }
}

/// What the settings window is drawn from.
#[derive(Debug, Clone, Copy)]
pub struct SettingsState {
    pub wizard: Option<Wizard>,
    /// The wizard waits for a voice.
    pub stall_hint: bool,
    /// The default microphone has changed since launch.
    pub device_changed: bool,
    /// There is a notice that the wizard could not start.
    pub wizard_error: bool,
    /// The calibration-incomplete banner is due; see [`banner_visible`].
    pub incomplete: bool,
    /// The drift nudge is due.
    pub drifted: bool,
    pub alerts_this_session: u32,
    pub hour: u32,
    pub enabled: bool,
    pub has_stream: bool,
    pub latest: Levels,
    pub tray: TrayState,
    pub tuning_meta: TuningMeta,
    pub anchored_threshold_db: F32,
    pub hold_ms: u64,
    pub cooldown_ms: u64,
    pub volume: F32,
    pub sound_error: bool,
    pub output_error: bool,
    pub test_mode: bool,
    pub autostart: bool,
    pub autostart_error: bool,
    pub cpu_percent: F32,
}

/// One control of the settings view.
#[derive(Debug, Clone, Copy, PartialEq, Eq)]
pub enum Control {
    /// The notice that the wizard could not start.
    WizardError,
    Banner(BannerText),
    Meter(Meter),
    Status(Status),
    /// Alerts this session.
    Alerts(u32),
    Sensitivity(Sensitivity),
    /// The hold time in ms.
    Hold(u64),
    /// The cooldown in whole seconds.
    Cooldown(u64),
    /// The sound picker with its test button, and whether the configured file
    /// or the output device has failed.
    AlertSound { sound_error: bool, output_error: bool },
    AlertVolume(F32),
    OutputDevice,
    TestMode(bool),
    Autostart { on: bool, error: bool },
    /// The input device's name.
    Input,
    /// This process's CPU usage.
    Cpu(F32),
}

/// The notices above the controls: at most the wizard's and one banner.
pub open spec fn notices_of(s: SettingsState) -> Seq<Control> {
    let notice = if s.wizard_error {
        seq![Control::WizardError]
    } else {
        Seq::empty()
    };
    let banner = match banner_row_for(s.incomplete, s.drifted, s.alerts_this_session, s.hour) {
        Some(b) => seq![Control::Banner(b)],
        None => Seq::empty(),
    };
    notice + banner
}

/// What detection is doing, and how sensitive it is.
pub open spec fn readings_of(s: SettingsState) -> Seq<Control> {
    seq![
        Control::Meter(
            meter_for(
                s.tuning_meta,
                s.latest,
                s.enabled && s.has_stream,
                s.anchored_threshold_db,
            ),
        ),
        Control::Status(status_for(s.has_stream, s.enabled, s.tray)),
        Control::Alerts(s.alerts_this_session),
        Control::Sensitivity(sensitivity_for(s.tuning_meta)),
    ]
}

/// The settings themselves.
pub open spec fn settings_of(s: SettingsState) -> Seq<Control> {
    seq![
        Control::Hold(s.hold_ms),
        Control::Cooldown(saturate(s.cooldown_ms as int / 1000, 1, 10) as u64),
        Control::AlertSound { sound_error: s.sound_error, output_error: s.output_error },
        Control::AlertVolume(s.volume),
        Control::OutputDevice,
        Control::TestMode(s.test_mode),
        Control::Autostart { on: s.autostart, error: s.autostart_error },
        Control::Input,
        Control::Cpu(s.cpu_percent),
    ]
}

/// The controls, top to bottom.
pub open spec fn controls_of(s: SettingsState) -> Seq<Control> {
    notices_of(s) + readings_of(s) + settings_of(s)
}

/// Never more than one reminder shows at a time, and an incomplete calibration
/// outranks a drifted one.
pub proof fn law_one_banner_at_a_time(s: SettingsState, i: int, j: int)
    requires
        0 <= i < notices_of(s).len(),
        0 <= j < notices_of(s).len(),
        notices_of(s)[i] is Banner,
        notices_of(s)[j] is Banner,
    ensures
        i == j,
        s.incomplete ==> notices_of(s)[i] != Control::Banner(banner_copy(Banner::Drift)),
{
}

/// The window's body below the chrome row.
pub enum Body {
    Wizard(Vec<Row>),
    Controls(Vec<Control>),
}

fn notices(s: &SettingsState) -> (r: Vec<Control>)
    ensures
        r@ == notices_of(*s),
{
    let mut c: Vec<Control> = Vec::new();
    if s.wizard_error {
        c.push(Control::WizardError);
    }
    match banner_row(s.incomplete, s.drifted, s.alerts_this_session, s.hour) {
        Some(b) => c.push(Control::Banner(b)),
        None => {},
    }
    assert(c@ =~= notices_of(*s));
    c
}

fn readings(s: &SettingsState) -> (r: Vec<Control>)
    ensures
        r@ == readings_of(*s),
{
    let live: bool = s.enabled && s.has_stream;
    let meter: Meter = meter_panel(&s.tuning_meta, &s.latest, live, s.anchored_threshold_db);
    let status: Status = status_line(s.has_stream, s.enabled, s.tray);
    let sensitivity: Sensitivity = sensitivity_block(&s.tuning_meta);
    let mut c: Vec<Control> = Vec::new();
    c.push(Control::Meter(meter));
    c.push(Control::Status(status));
    c.push(Control::Alerts(s.alerts_this_session));
    c.push(Control::Sensitivity(sensitivity));
    assert(c@ =~= readings_of(*s));
    c
}

fn settings(s: &SettingsState) -> (r: Vec<Control>)
    ensures
        r@ == settings_of(*s),
{
    let mut c: Vec<Control> = Vec::new();
    c.push(Control::Hold(s.hold_ms));
    c.push(Control::Cooldown(cooldown_ms_to_s(s.cooldown_ms)));
    c.push(Control::AlertSound { sound_error: s.sound_error, output_error: s.output_error });
    c.push(Control::AlertVolume(s.volume));
    c.push(Control::OutputDevice);
    c.push(Control::TestMode(s.test_mode));
    c.push(Control::Autostart { on: s.autostart, error: s.autostart_error });
    c.push(Control::Input);
    c.push(Control::Cpu(s.cpu_percent));
    assert(c@ =~= settings_of(*s));
    c
}

fn controls(s: &SettingsState) -> (r: Vec<Control>)
    ensures
        r@ == controls_of(*s),
{
    let mut c: Vec<Control> = notices(s);
    let mut readings: Vec<Control> = readings(s);
    let mut settings: Vec<Control> = settings(s);
    c.append(&mut readings);
    c.append(&mut settings);
    c
}

/// The wizard takes over the whole body while it runs (the chrome row stays,
/// so the window is still movable/closable).
pub fn view(s: &SettingsState) -> (r: Body)
    ensures
        match s.wizard {
            Some(w) => r matches Body::Wizard(rows) && rows@ == screen(
                w.step,
                !s.enabled || !s.has_stream,
                s.stall_hint,
                s.device_changed,
            ),
            None => r matches Body::Controls(c) && c@ == controls_of(*s),
        },
{
    match &s.wizard {
        Some(w) => Body::Wizard(
            wizard_view(w, !s.enabled || !s.has_stream, s.stall_hint, s.device_changed),
        ),
        None => Body::Controls(controls(s)),
    }
}

/// A direction to resize the window in.
#[derive(Debug, Clone, Copy, PartialEq, Eq, Structural)]
pub enum Direction {
    North,
    South,
    East,
    West,
    NorthEast,
    NorthWest,
    SouthEast,
    SouthWest,
}

/// Where along an axis a strip is pinned.
#[derive(Debug, Clone, Copy, PartialEq, Eq, Structural)]
pub enum Pin {
    Start,
    Center,
    End,
}

/// How far a strip extends along an axis.
#[derive(Debug, Clone, Copy, PartialEq, Eq, Structural)]
pub enum Extent {
    Fill,
    Fixed(u32),
}

/// The pointer over a strip.
#[derive(Debug, Clone, Copy, PartialEq, Eq, Structural)]
pub enum Pointer {
    Horizontal,
    Vertical,
    /// From the top left to the bottom right.
    DiagonalDown,
    /// From the bottom left to the top right.
    DiagonalUp,
}

/// An invisible strip that resizes the borderless window.
#[derive(Debug, Clone, Copy, PartialEq, Eq, Structural)]
pub struct Handle {
    pub width: Extent,
    pub height: Extent,
    pub x: Pin,
    pub y: Pin,
    pub pointer: Pointer,
    pub direction: Direction,
}

/// Thickness of an edge strip.
pub const EDGE: u32 = 6;

/// Side of a corner square.
pub const CORNER: u32 = 10;

impl Direction {
    /// The strip that resizes in this direction: full-length along an edge,
    /// pinned to it, or a small square in a corner.
    pub open spec fn strip(self) -> Handle {
        let edge = Extent::Fixed(EDGE);
        let corner = Extent::Fixed(CORNER);
        let x = match self {
            Direction::West | Direction::NorthWest | Direction::SouthWest => Pin::Start,
            Direction::East | Direction::NorthEast | Direction::SouthEast => Pin::End,
            _ => Pin::Center,
        };
        let y = match self {
            Direction::North | Direction::NorthEast | Direction::NorthWest => Pin::Start,
            Direction::South | Direction::SouthEast | Direction::SouthWest => Pin::End,
            _ => Pin::Center,
        };
        match self {
            Direction::East | Direction::West => Handle {
                width: edge,
                height: Extent::Fill,
                x,
                y,
                pointer: Pointer::Horizontal,
                direction: self,
            },
            Direction::North | Direction::South => Handle {
                width: Extent::Fill,
                height: edge,
                x,
                y,
                pointer: Pointer::Vertical,
                direction: self,
            },
            Direction::NorthWest | Direction::SouthEast => Handle {
                width: corner,
                height: corner,
                x,
                y,
                pointer: Pointer::DiagonalDown,
                direction: self,
            },
            Direction::NorthEast | Direction::SouthWest => Handle {
                width: corner,
                height: corner,
                x,
                y,
                pointer: Pointer::DiagonalUp,
                direction: self,
            },
        }
    }
}

fn handle(
    width: Extent,
    height: Extent,
    x: Pin,
    y: Pin,
    pointer: Pointer,
    direction: Direction,
) -> (r: Handle)
    ensures
        r == (Handle { width, height, x, y, pointer, direction }),
{
    Handle { width, height, x, y, pointer, direction }
}

/// Edge and corner drag-resize strips for the borderless settings window, in
/// the order they are layered: the corners lie over the edges.
pub fn resize_handles() -> (r: Vec<Handle>)
    ensures
        r@ == seq![
            Direction::East.strip(),
            Direction::West.strip(),
            Direction::North.strip(),
            Direction::South.strip(),
            Direction::NorthWest.strip(),
            Direction::NorthEast.strip(),
            Direction::SouthWest.strip(),
            Direction::SouthEast.strip(),
        ],
{
    let edge: Extent = Extent::Fixed(EDGE);
    let corner: Extent = Extent::Fixed(CORNER);
    let fill: Extent = Extent::Fill;
    let mut h: Vec<Handle> = Vec::new();
    h.push(handle(edge, fill, Pin::End, Pin::Center, Pointer::Horizontal, Direction::East));
    h.push(handle(edge, fill, Pin::Start, Pin::Center, Pointer::Horizontal, Direction::West));
    h.push(handle(fill, edge, Pin::Center, Pin::Start, Pointer::Vertical, Direction::North));
    h.push(handle(fill, edge, Pin::Center, Pin::End, Pointer::Vertical, Direction::South));
    h.push(
        handle(corner, corner, Pin::Start, Pin::Start, Pointer::DiagonalDown, Direction::NorthWest),
    );
    h.push(
        handle(corner, corner, Pin::End, Pin::Start, Pointer::DiagonalUp, Direction::NorthEast),
    );
    h.push(
        handle(corner, corner, Pin::Start, Pin::End, Pointer::DiagonalUp, Direction::SouthWest),
    );
    h.push(
        handle(corner, corner, Pin::End, Pin::End, Pointer::DiagonalDown, Direction::SouthEast),
    );
    assert(h@ =~= seq![
        Direction::East.strip(),
        Direction::West.strip(),
        Direction::North.strip(),
        Direction::South.strip(),
        Direction::NorthWest.strip(),
        Direction::NorthEast.strip(),
        Direction::SouthWest.strip(),
        Direction::SouthEast.strip(),
    ]);
    h
}

/// The calibration reminder comes once a day: it is due while the calibration is
/// incomplete, unless it was dismissed this very day.
pub proof fn law_the_reminder_comes_once_a_day(
    incomplete: bool,
    dismissed_on: Option<String>,
    today: Seq<char>,
)
    ensures
        banner_due(incomplete, dismissed_on, today) <==> incomplete && (match dismissed_on {
            Some(day) => day@ != today,
            None => true,
        }),
{
}

/// A drift of 7 dB or more, up or down, is pointed out until it is dismissed, if
/// the calibration is complete; a smaller or unknown one never is.
pub proof fn law_a_large_drift_is_pointed_out(incomplete: bool, drift_db: F32, dismissed: bool)
    ensures
        drift_due(incomplete, drift_db, dismissed) <==> !incomplete && !dismissed && (F32::of_int(
            7,
        ).le_spec(drift_db) || drift_db.le_spec(F32::of_int(-7))),
        drift_db.nan() ==> !drift_due(incomplete, drift_db, dismissed),
{
}

/// At most one reminder: the calibration's before the drift's, and urgent only
/// between 7 and 22 o'clock once an alert has fired.
pub proof fn law_the_calibration_outranks_the_drift(
    incomplete: bool,
    drifted: bool,
    alerts: u32,
    hour: u32,
)
    ensures
        banner_for(incomplete, drifted, alerts, hour) is None <==> !incomplete && !drifted,
        banner_for(incomplete, drifted, alerts, hour) == Some(Banner::Drift) <==> !incomplete
            && drifted,
        incomplete ==> banner_for(incomplete, drifted, alerts, hour) == Some(
            Banner::Incomplete { urgent: alerts >= 1 && 7 <= hour && hour < 22 },
        ),
        banner_row_for(incomplete, drifted, alerts, hour) is None <==> !incomplete && !drifted,
        banner_row_for(incomplete, drifted, alerts, hour) matches Some(row) ==> row.press
            == BannerAction::StartWizard && row.dismiss == (if incomplete {
            BannerAction::DismissIncomplete
        } else {
            BannerAction::DismissDrift
        }),
{
}

/// The status line claims a state only while there is one: without a microphone
/// it says so, while paused it says so, and otherwise it shows the detector's
/// state in its color.
pub proof fn law_the_status_shows_the_live_state(has_stream: bool, enabled: bool, tray: TrayState)
    ensures
        ({
            let s = status_for(has_stream, enabled, tray);
            &&& !has_stream ==> s.label == "No microphone" && s.color == Color::TextMuted
            &&& has_stream && !enabled ==> s.label == "Paused" && s.color == Color::TextMuted
            &&& has_stream && enabled ==> match tray {
                TrayState::Quiet => s.label == "Quiet" && s.color == Color::Green,
                TrayState::Warning => s.label == "Getting loud" && s.color == Color::Yellow,
                TrayState::Loud => s.label == "Too loud" && s.color == Color::Red,
            }
        }),
{
}

/// The sensitivity can be set exactly when there is a quiet level for it to work
/// from; the bar shows it in hundredths, neither end ever empty.
pub proof fn law_the_sensitivity_is_shown_as_it_is(meta: TuningMeta)
    ensures
        ({
            let s = sensitivity_for(meta);
            &&& s.value == meta.sensitivity
            &&& s.interactive <==> meta.quiet_db is Some
            &&& s.label == "Sensitivity (estimated)" || meta.ceiling_db is Some
            &&& s.label == "Sensitivity" || meta.ceiling_db is None
            &&& s.filled + s.empty == 100
            &&& !meta.sensitivity.nan() ==> 1 <= s.filled <= 99
            &&& F32::of_int(0).le_spec(s.value) && s.value.le_spec(F32::of_int(1)) ==> {
                let share = s.value.mul_spec(F32::of_int(100)).nearest_integer();
                s.filled == share || share < 1 && s.filled == 1 || share > 99 && s.filled == 99
            }
        }),
{
    let v = meta.sensitivity;
    let c = v.clamp_spec(F32::of_int(0), F32::of_int(1));
    lemma_zero_is_least(1);
    lemma_of_int_exact(0);
    lemma_of_int_exact(1);
    lemma_of_int_exact(100);
    lemma_of_int_zero();
    lemma_of_int_monotone(0, 1);
    if !v.nan() {
        lemma_scaled_order(F32::of_int(0), c);
        lemma_scaled_order(c, F32::of_int(1));
        lemma_mul_defined(c, F32::of_int(100));
    }
}

/// The meter shows the live levels while there are any, and an empty bar
/// otherwise; the calibration's markers always. The threshold is the live one
/// if it is a number, and the calibration's otherwise.
pub proof fn law_the_meter_shows_live_levels(
    meta: TuningMeta,
    latest: Levels,
    live: bool,
    anchored_threshold_db: F32,
)
    ensures
        ({
            let m = meter_for(meta, latest, live, anchored_threshold_db);
            &&& live ==> m.level_db == latest.level_db && m.peak_db == latest.peak_db
            &&& !live ==> m.level_db == F32::of_int(-100) && m.peak_db == F32::of_int(-100)
            &&& live && latest.threshold_db.finite() ==> m.threshold_db == latest.threshold_db
            &&& !live || !latest.threshold_db.finite() ==> m.threshold_db == anchored_threshold_db
            &&& m.noise_floor_db == meta.noise_floor_db && m.quiet_db == meta.quiet_db
            &&& m.ceiling_db == meta.ceiling_db && m.ceiling_confirmed == meta.ceiling_confirmed
        }),
{
}

/// Every setting and reading has its control, with its present value; above them
/// stand the notices, and nothing else is in the window.
pub proof fn law_every_setting_is_shown(s: SettingsState)
    ensures
        ({
            let c = controls_of(s);
            let n = notices_of(s).len() as int;
            &&& c.len() == n + 13
            &&& forall|i: int| 0 <= i < n ==> c[i] == notices_of(s)[i]
            &&& c[n] == Control::Meter(
                meter_for(
                    s.tuning_meta,
                    s.latest,
                    s.enabled && s.has_stream,
                    s.anchored_threshold_db,
                ),
            )
            &&& c[n + 1] == Control::Status(status_for(s.has_stream, s.enabled, s.tray))
            &&& c[n + 2] == Control::Alerts(s.alerts_this_session)
            &&& c[n + 3] == Control::Sensitivity(sensitivity_for(s.tuning_meta))
            &&& c[n + 4] == Control::Hold(s.hold_ms)
            &&& 1000 <= s.cooldown_ms < 11000 ==> c[n + 5] == Control::Cooldown(
                (s.cooldown_ms / 1000) as u64,
            )
            &&& s.cooldown_ms < 1000 ==> c[n + 5] == Control::Cooldown(1)
            &&& s.cooldown_ms >= 11000 ==> c[n + 5] == Control::Cooldown(10)
            &&& c[n + 6] == (Control::AlertSound {
                sound_error: s.sound_error,
                output_error: s.output_error,
            })
            &&& c[n + 7] == Control::AlertVolume(s.volume)
            &&& c[n + 8] == Control::OutputDevice
            &&& c[n + 9] == Control::TestMode(s.test_mode)
            &&& c[n + 10] == (Control::Autostart { on: s.autostart, error: s.autostart_error })
            &&& c[n + 11] == Control::Input
            &&& c[n + 12] == Control::Cpu(s.cpu_percent)
            &&& n == (if s.wizard_error {
                1int
            } else {
                0
            }) + (if s.incomplete || s.drifted {
                1int
            } else {
                0
            })
            &&& s.wizard_error ==> c[0] == Control::WizardError
        }),
{
}

/// Every built-in sound can be chosen, in the order of the list, and a file of
/// one's own last.
pub proof fn law_every_sound_can_be_chosen(sound: BuiltinSound)
    ensures
        sound_choices().len() == 13,
        sound_choices().contains(SoundChoice::Builtin(sound)),
        sound_choices()[12] == SoundChoice::Custom,
        forall|i: int| 0 <= i < 12 ==> sound_choices()[i] == SoundChoice::Builtin(
            #[trigger] ALL@[i],
        ),
{
    law_the_list_is_complete(sound);
    let i = choose|i: int| 0 <= i < ALL@.len() && ALL@[i] == sound;
    assert(sound_choices()[i] == SoundChoice::Builtin(sound));
}

/// Each strip resizes the way it lies: on the left for west, at the top for
/// north, and so on; along a whole edge 6 thick, or a corner square of 10, with
/// the pointer that shows it.
pub proof fn law_each_strip_lies_where_it_resizes(d: Direction)
    ensures
        ({
            let s = d.strip();
            let west = d == Direction::West || d == Direction::NorthWest || d
                == Direction::SouthWest;
            let east = d == Direction::East || d == Direction::NorthEast || d
                == Direction::SouthEast;
            let north = d == Direction::North || d == Direction::NorthEast || d
                == Direction::NorthWest;
            let south = d == Direction::South || d == Direction::SouthEast || d
                == Direction::SouthWest;
            let corner = (west || east) && (north || south);
            &&& s.direction == d
            &&& s.x == Pin::Start <==> west
            &&& s.x == Pin::End <==> east
            &&& s.y == Pin::Start <==> north
            &&& s.y == Pin::End <==> south
            &&& corner ==> s.width == Extent::Fixed(10) && s.height == Extent::Fixed(10)
            &&& !corner && (west || east) ==> s.width == Extent::Fixed(6) && s.height
                == Extent::Fill && s.pointer == Pointer::Horizontal
            &&& !corner && (north || south) ==> s.width == Extent::Fill && s.height
                == Extent::Fixed(6) && s.pointer == Pointer::Vertical
            &&& corner ==> (s.pointer == Pointer::DiagonalDown <==> west == north)
            &&& corner ==> (s.pointer == Pointer::DiagonalUp <==> west != north)
        }),
{
}

/// A reminder says what it is for: its button calibrates, or calibrates again, and
/// no two say the same.
pub proof fn law_a_reminder_says_what_it_is_for(a: Banner, b: Banner)
    ensures
        a is Incomplete ==> banner_copy(a).action == "Calibrate",
        a is Drift ==> banner_copy(a).action == "Recalibrate",
        banner_copy(a).message@ == banner_copy(b).message@ <==> a == b,
{
    reveal_strlit("Sounds like you're free to be loud right now. Finish calibration? (5 seconds)");
    reveal_strlit("Calibration incomplete. Finish the loud step for the most accurate detection.");
    reveal_strlit("Your mic level has shifted since calibration — recalibrate? (takes ~15 s)");
    assert(a != b ==> banner_copy(a).message@.len() != banner_copy(b).message@.len()
        || banner_copy(a).message@[0] != banner_copy(b).message@[0]);
}

} // verus!
