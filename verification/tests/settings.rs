use ragequiet::app::{
    audio_events, meta_threshold_db, App, AudioEvent, Effect, Levels, MenuChoice, Message, TuningMeta,
};
use ragequiet::binary32::F32;
use ragequiet::bridge::MeasurementKind;
use ragequiet::config::{CalibrationState, Config, DeviceCalibration};
use ragequiet::detector::{FrameOutcome, TrayState};
use ragequiet::sounds::BuiltinSound;
use ragequiet::ui::calibrate::{Row, Wizard, WizardEvent, WizardResult, WizardStep};
use ragequiet::ui::icons::TrayIcon;
use ragequiet::ui::settings::{
    active_banner, banner_row, banner_text, banner_visible, cooldown_from_slider, cooldown_ms_to_s,
    cooldown_s_to_ms, drift_nudge_visible, hold_from_slider, meter_panel, output_options,
    output_picked, output_selected, resize_handles, sensitivity_block, sound_options, status_line,
    view, Banner, BannerAction, Body, Control, Direction, Extent, Pin, Pointer, SettingsState,
    SoundChoice,
};
use ragequiet::ui::theme::{GREEN, RED, TEXT_MUTED, YELLOW};

fn f(x: f32) -> F32 {
    F32::from_bits(x.to_bits())
}

fn n(x: F32) -> f32 {
    f32::from_bits(x.to_bits())
}

#[test]
fn cooldown_seconds_round_trip_on_thousand_boundaries() {
    for s in 1..=10u64 {
        assert_eq!(cooldown_ms_to_s(cooldown_s_to_ms(s)), s);
    }
}

#[test]
fn cooldown_ms_clamps_into_the_slider_range() {
    assert_eq!(cooldown_ms_to_s(0), 1, "below range clamps to 1 s");
    assert_eq!(cooldown_ms_to_s(500), 1, "sub-second values round down but still clamp to 1 s");
    assert_eq!(cooldown_ms_to_s(60_000), 10, "above range clamps to 10 s");
}

#[test]
fn cooldown_seconds_clamp_into_ms_range() {
    assert_eq!(cooldown_s_to_ms(0), 1000, "below range clamps to 1 s");
    assert_eq!(cooldown_s_to_ms(99), 10_000, "above range clamps to 10 s");
}

#[test]
fn slider_positions_round_to_settings() {
    assert_eq!(hold_from_slider(f(449.6)), 450);
    assert_eq!(hold_from_slider(f(-3.0)), 0);
    assert_eq!(cooldown_from_slider(f(2.5)), 3000);
    assert_eq!(cooldown_from_slider(f(11.0)), 10_000);
}

#[test]
fn the_incomplete_banner_outranks_the_drift_nudge() {
    assert_eq!(active_banner(false, false, 3, 12), None);
    assert_eq!(active_banner(false, true, 3, 12), Some(Banner::Drift));
    assert_eq!(active_banner(true, true, 0, 12), Some(Banner::Incomplete { urgent: false }));
    assert_eq!(active_banner(true, false, 1, 6), Some(Banner::Incomplete { urgent: false }));
    assert_eq!(active_banner(true, false, 1, 7), Some(Banner::Incomplete { urgent: true }));
    assert_eq!(active_banner(true, false, 1, 21), Some(Banner::Incomplete { urgent: true }));
    assert_eq!(active_banner(true, false, 1, 22), Some(Banner::Incomplete { urgent: false }));
    assert!(banner_text(Banner::Incomplete { urgent: true }).message.contains("free to be loud"));
    assert_eq!(banner_text(Banner::Incomplete { urgent: false }).action, "Calibrate");
    assert_eq!(banner_text(Banner::Drift).action, "Recalibrate");
}

#[test]
fn a_dismissed_banner_comes_back_the_next_day() {
    let today = "2026-08-27".to_string();
    let yesterday = "2026-08-26".to_string();
    assert!(banner_visible(true, &None, &today));
    assert!(!banner_visible(true, &Some(today.clone()), &today));
    assert!(banner_visible(true, &Some(yesterday), &today));
    assert!(!banner_visible(false, &None, &today));
}

#[test]
fn no_device_outranks_paused_outranks_the_state() {
    let status = |s, e, t| {
        let st = status_line(s, e, t);
        (st.label, st.color)
    };
    assert_eq!(status(false, false, TrayState::Loud), ("No microphone", TEXT_MUTED));
    assert_eq!(status(true, false, TrayState::Loud), ("Paused", TEXT_MUTED));
    assert_eq!(status(true, true, TrayState::Quiet), ("Quiet", GREEN));
    assert_eq!(status(true, true, TrayState::Warning), ("Getting loud", YELLOW));
    assert_eq!(status(true, true, TrayState::Loud), ("Too loud", RED));
}

fn meta(quiet: Option<f32>, ceiling: Option<f32>, sensitivity: f32) -> TuningMeta {
    TuningMeta {
        noise_floor_db: f(-58.0),
        quiet_db: quiet.map(f),
        ceiling_db: ceiling.map(f),
        ceiling_confirmed: ceiling.is_some(),
        sensitivity: f(sensitivity),
    }
}

#[test]
fn sensitivity_is_disabled_without_a_quiet_point() {
    let s = sensitivity_block(&meta(Some(-37.0), Some(-17.0), 0.5));
    assert_eq!((s.label, s.interactive), ("Sensitivity", true));
    let s = sensitivity_block(&meta(None, None, 0.5));
    assert_eq!((s.label, s.interactive), ("Sensitivity (estimated)", false));
    for value in [0.0f32, 0.004, 0.333, 0.5, 0.996, 1.0, 7.0, -2.0, f32::NAN] {
        let s = sensitivity_block(&meta(None, None, value));
        let expected = (value.clamp(0.0, 1.0) * 100.0).round().clamp(1.0, 99.0) as u16;
        assert_eq!((s.filled, s.empty), (expected, 100 - expected), "{value}");
    }
}

#[test]
fn the_meter_never_shows_a_stale_reading() {
    let m = meta(Some(-37.0), Some(-17.0), 0.5);
    let latest = Levels { level_db: f(-20.0), threshold_db: f(-25.0), peak_db: f(-15.0) };
    let live = meter_panel(&m, &latest, true, f(-27.0));
    assert_eq!((n(live.level_db), n(live.threshold_db), n(live.peak_db)), (-20.0, -25.0, -15.0));
    let paused = meter_panel(&m, &latest, false, f(-27.0));
    assert_eq!(
        (n(paused.level_db), n(paused.threshold_db), n(paused.peak_db)),
        (-100.0, -27.0, -100.0)
    );
    let fresh = Levels { threshold_db: f(f32::NAN), ..latest };
    assert_eq!(n(meter_panel(&m, &fresh, true, f(-27.0)).threshold_db), -27.0);
    assert_eq!(n(meta_threshold_db(&m)), -27.0);
    assert!(meta_threshold_db(&meta(None, None, 0.5)).is_nan());
}

#[test]
fn pickers_offer_every_choice() {
    let sounds = sound_options();
    assert_eq!(sounds.len(), 13);
    assert_eq!(sounds[0], SoundChoice::Builtin(BuiltinSound::SoftBeep));
    assert_eq!(sounds[11], SoundChoice::Builtin(BuiltinSound::SonarPing));
    assert_eq!(sounds[12], SoundChoice::Custom);
    let devices = vec!["Speakers".to_string(), "Headset".to_string()];
    assert_eq!(output_options(&devices), vec!["System default", "Speakers", "Headset"]);
    assert_eq!(output_options(&Vec::new()), vec!["System default"]);
    assert_eq!(output_selected(&None), "System default");
    assert_eq!(output_selected(&Some("Headset".to_string())), "Headset");
    assert_eq!(output_picked("System default".to_string()), None);
    assert_eq!(output_picked("Headset".to_string()), Some("Headset".to_string()));
}

fn state() -> SettingsState {
    SettingsState {
        wizard: None,
        stall_hint: false,
        device_changed: false,
        wizard_error: false,
        incomplete: false,
        drifted: false,
        alerts_this_session: 4,
        hour: 12,
        enabled: true,
        has_stream: true,
        latest: Levels { level_db: f(-20.0), threshold_db: f(-25.0), peak_db: f(-15.0) },
        tray: TrayState::Warning,
        tuning_meta: meta(Some(-37.0), None, 0.5),
        anchored_threshold_db: f(-30.0),
        hold_ms: 300,
        cooldown_ms: 3500,
        volume: f(0.8),
        sound_error: true,
        output_error: false,
        test_mode: true,
        autostart: false,
        autostart_error: true,
        cpu_percent: f(1.5),
    }
}

#[test]
fn the_settings_view_lists_its_controls() {
    let controls = match view(&state()) {
        Body::Controls(c) => c,
        Body::Wizard(_) => panic!("no wizard is running"),
    };
    assert_eq!(controls.len(), 13);
    assert_eq!(controls[2], Control::Alerts(4));
    assert_eq!(controls[4], Control::Hold(300));
    assert_eq!(controls[5], Control::Cooldown(3));
    assert_eq!(controls[6], Control::AlertSound { sound_error: true, output_error: false });
    assert_eq!(controls[9], Control::TestMode(true));
    assert_eq!(controls[10], Control::Autostart { on: false, error: true });

    let noisy = SettingsState { wizard_error: true, incomplete: true, drifted: true, ..state() };
    match view(&noisy) {
        Body::Controls(c) => {
            assert_eq!(c.len(), 15);
            assert_eq!(c[0], Control::WizardError);
            assert_eq!(c[1], Control::Banner(banner_text(Banner::Incomplete { urgent: true })));
        }
        Body::Wizard(_) => panic!("no wizard is running"),
    }
}

#[test]
fn a_running_wizard_takes_over_the_body() {
    let running = SettingsState { wizard: Some(Wizard::new(12)), ..state() };
    match view(&running) {
        Body::Wizard(rows) => assert!(matches!(rows[rows.len() - 1], Row::CancelRow)),
        Body::Controls(_) => panic!("the wizard must take over"),
    }
}

#[test]
fn eight_strips_resize_the_window() {
    let handles = resize_handles();
    assert_eq!(handles.len(), 8);
    let north = handles.iter().find(|h| h.direction == Direction::North).unwrap();
    assert_eq!((north.width, north.height), (Extent::Fill, Extent::Fixed(6)));
    assert_eq!((north.x, north.y, north.pointer), (Pin::Center, Pin::Start, Pointer::Vertical));
    let corner = handles.iter().find(|h| h.direction == Direction::SouthEast).unwrap();
    assert_eq!((corner.width, corner.height), (Extent::Fixed(10), Extent::Fixed(10)));
    assert_eq!((corner.x, corner.y, corner.pointer), (Pin::End, Pin::End, Pointer::DiagonalDown));
}

fn booted(has_stream: bool) -> App {
    let mut config = Config::default();
    config.calibration.insert(
        "Mic".to_string(),
        DeviceCalibration {
            state: CalibrationState::CeilingSet,
            quiet_db: f(-37.0),
            ceiling_db: Some(f(-17.0)),
            noise_floor_db: f(-58.0),
            sensitivity: f(0.5),
        },
    );
    App::boot(config, Some("Mic".to_string()), has_stream)
}

#[test]
fn boot_takes_the_markers_from_the_device_calibration() {
    let app = booted(true);
    assert!(app.enabled && !app.settings_open && !app.test_mode);
    assert_eq!(app.initial_icon(), TrayIcon::Quiet);
    assert_eq!(booted(false).initial_icon(), TrayIcon::Off);
    assert!(app.tuning_meta.ceiling_confirmed);
    assert_eq!(app.tuning_meta.quiet_db, Some(f(-37.0)));
    assert_eq!(app.tuning().ceiling_db, Some(f(-17.0)));

    let unknown = App::boot(Config::default(), None, true);
    assert_eq!(unknown.device_name, "unknown input");
    assert_eq!(unknown.tuning_meta.quiet_db, None);
    assert!(!unknown.tuning_meta.ceiling_confirmed);
}

#[test]
fn toggling_monitoring_drives_the_stream_and_the_icon() {
    let mut app = booted(true);
    assert_eq!(
        app.update(Message::Menu(MenuChoice::Enabled(false))),
        vec![Effect::PauseStream, Effect::SetIcon(TrayIcon::Off)]
    );
    assert!(!app.enabled);
    assert_eq!(app.update(Message::TrayStateChanged(TrayState::Loud)), vec![]);
    assert_eq!(
        app.update(Message::Menu(MenuChoice::Enabled(true))),
        vec![Effect::ResumeDetector, Effect::PlayStream, Effect::SetIcon(TrayIcon::Quiet)]
    );
    assert_eq!(
        app.update(Message::TrayStateChanged(TrayState::Loud)),
        vec![Effect::SetIcon(TrayIcon::Loud)]
    );
    let mut deaf = booted(false);
    assert_eq!(
        deaf.update(Message::Menu(MenuChoice::Enabled(false))),
        vec![Effect::SetIcon(TrayIcon::Off)]
    );
}

#[test]
fn the_settings_window_opens_once() {
    let mut app = booted(true);
    assert!(!app.ticks());
    assert_eq!(app.update(Message::Menu(MenuChoice::Settings)), vec![Effect::OpenSettingsWindow]);
    app.update(Message::WindowOpened);
    assert!(app.ticks());
    assert_eq!(app.update(Message::Menu(MenuChoice::Settings)), vec![]);
    app.update(Message::WindowClosed(false));
    assert!(app.ticks(), "another window's closing is of no concern");
    app.update(Message::WindowClosed(true));
    assert!(!app.ticks());
}

#[test]
fn changed_settings_are_sent_and_saved() {
    let mut app = booted(true);
    assert_eq!(
        app.update(Message::HoldChanged(450)),
        vec![Effect::SetGate { hold_ms: 450, cooldown_ms: 3000 }, Effect::SaveConfig]
    );
    assert_eq!(
        app.update(Message::CooldownChanged(7000)),
        vec![Effect::SetGate { hold_ms: 450, cooldown_ms: 7000 }, Effect::SaveConfig]
    );
    assert_eq!(app.update(Message::TestModeToggled(true)), vec![Effect::SetTestMode(true)]);
    assert!(app.test_mode);
    let effects = app.update(Message::SensitivityChanged(f(1.5)));
    assert_eq!(effects.len(), 2);
    match effects[0] {
        Effect::SetTuning(t) => assert_eq!(n(t.sensitivity), 1.0, "clamped on the way to the engine"),
        other => panic!("expected a tuning, got {other:?}"),
    }
    assert_eq!(effects[1], Effect::SaveConfig);
    let stored = app.config.calibration.get(&"Mic".to_string()).unwrap();
    assert_eq!(n(stored.sensitivity), 1.5, "stored as it was set");
    assert_eq!(n(app.tuning_meta.sensitivity), 1.0);

    let mut uncalibrated = App::boot(Config::default(), Some("Mic".to_string()), true);
    assert_eq!(uncalibrated.update(Message::SensitivityChanged(f(0.9))), vec![]);
}

#[test]
fn quitting_goes_through_a_message() {
    let mut app = booted(true);
    assert_eq!(app.update(Message::Menu(MenuChoice::Quit)), vec![Effect::RequestQuit]);
    assert_eq!(app.update(Message::Quit), vec![Effect::Exit]);
    assert_eq!(app.update(Message::Menu(MenuChoice::Other)), vec![]);
    assert_eq!(app.update(Message::Beeped), vec![]);
    assert_eq!(app.alerts_this_session, 1);
    let levels = Levels { level_db: f(-1.0), threshold_db: f(-2.0), peak_db: f(-3.0) };
    app.update(Message::Tick(levels));
    assert_eq!(app.latest, levels);
}

#[test]
fn the_ui_hears_of_alerts_before_state_changes() {
    let outcome = FrameOutcome {
        state_change: Some(TrayState::Loud),
        beep: true,
        measurement: None,
    };
    assert_eq!(
        audio_events(&outcome),
        vec![AudioEvent::Beeped, AudioEvent::State(TrayState::Loud)]
    );
    let nothing = FrameOutcome { state_change: None, beep: false, measurement: None };
    assert_eq!(audio_events(&nothing), vec![]);
}

#[test]
fn the_drift_nudge_waits_for_a_margin_of_drift() {
    assert!(drift_nudge_visible(false, f(7.0), false));
    assert!(drift_nudge_visible(false, f(-7.5), false));
    assert!(!drift_nudge_visible(false, f(6.9), false));
    assert!(!drift_nudge_visible(false, f(f32::NAN), false));
    assert!(!drift_nudge_visible(true, f(9.0), false));
    assert!(!drift_nudge_visible(false, f(9.0), true));
}

/// A wizard at its end.
fn done(ceiling: Option<f32>) -> Wizard {
    let result = WizardResult {
        noise_floor_db: f(-60.0),
        quiet_db: f(-40.0),
        ceiling_db: ceiling.map(f),
    };
    let mut w = Wizard::new(12);
    w.step = WizardStep::Done { result };
    w
}

#[test]
fn a_finished_wizard_calibrates_the_device() {
    let mut app = booted(true);
    assert_eq!(app.update(Message::WizardFinished), vec![], "nothing to finish");
    app.wizard = Some(done(Some(-20.0)));
    app.drift_nudge_dismissed = true;
    let effects = app.update(Message::WizardFinished);
    let stored = app.config.calibration.get(&"Mic".to_string()).unwrap();
    assert_eq!(stored.state, CalibrationState::CeilingSet);
    assert_eq!(stored.quiet_db, f(-40.0));
    assert_eq!(stored.sensitivity, f(0.5), "kept");
    assert_eq!(effects, vec![Effect::SetTuning(stored.tuning()), Effect::SaveConfig]);
    assert!(app.tuning_meta.ceiling_confirmed);
    assert_eq!(app.tuning_meta.noise_floor_db, f(-60.0));
    assert!(app.wizard.is_none() && !app.drift_nudge_dismissed);

    app.wizard = Some(done(None));
    app.update(Message::WizardFinished);
    let stored = app.config.calibration.get(&"Mic".to_string()).unwrap();
    assert_eq!(stored.state, CalibrationState::BaselineOnly);
    assert!(!app.tuning_meta.ceiling_confirmed);
}

#[test]
fn the_wizard_runs_in_the_app() {
    let mut app = booted(true);
    assert_eq!(app.update(Message::WizardEvent(WizardEvent::Begin)), vec![], "no wizard yet");
    app.update(Message::WizardStarted(23));
    assert_eq!(app.wizard, Some(Wizard::new(23)));
    assert_eq!(
        app.update(Message::WizardEvent(WizardEvent::Begin)),
        vec![Effect::StartMeasurement(MeasurementKind::NoiseFloor)]
    );
    assert_eq!(app.update(Message::WizardFinished), vec![], "not done");
    assert!(app.wizard.is_some());
    assert_eq!(app.update(Message::WizardCancelled), vec![Effect::CancelMeasurement]);
    assert_eq!(app.wizard, None);
    assert_eq!(app.update(Message::WizardCancelled), vec![]);

    let mut deaf = booted(false);
    deaf.update(Message::WizardStarted(12));
    assert!(deaf.wizard.is_none() && deaf.wizard_error);
}

#[test]
fn each_banner_has_its_own_dismissal() {
    assert_eq!(banner_row(false, false, 1, 12), None);
    let incomplete = banner_row(true, true, 1, 12).unwrap();
    assert_eq!(incomplete, banner_text(Banner::Incomplete { urgent: true }));
    let drift = banner_row(false, true, 0, 12).unwrap();
    assert_eq!(drift, banner_text(Banner::Drift));
    assert_eq!(incomplete.press, BannerAction::StartWizard);
    assert_eq!(drift.press, BannerAction::StartWizard);
    assert_eq!(incomplete.dismiss, BannerAction::DismissIncomplete);
    assert_eq!(drift.dismiss, BannerAction::DismissDrift);

    let today = "2026-08-27".to_string();
    let mut app = booted(true);
    assert_eq!(app.on_banner(incomplete.dismiss, today.clone(), 12), vec![Effect::SaveConfig]);
    assert_eq!(app.config.banner_dismissed_on, Some(today.clone()));
    assert!(!app.drift_nudge_dismissed && app.wizard.is_none());
    assert_eq!(app.on_banner(drift.dismiss, today.clone(), 12), vec![]);
    assert!(app.drift_nudge_dismissed);
    assert_eq!(app.on_banner(drift.press, today, 9), vec![]);
    assert_eq!(app.wizard, Some(Wizard::new(9)));
}
