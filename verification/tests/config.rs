use ragequiet::binary32::F32;
use ragequiet::config::{
    AlertSound, CalibrationState, Calibrations, Config, DeviceCalibration, RawConfig, RawEntry,
};
use ragequiet::engine::Tuning;
use ragequiet::sounds::BuiltinSound;

fn f(x: f32) -> F32 {
    F32::from_bits(x.to_bits())
}

fn n(x: F32) -> f32 {
    f32::from_bits(x.to_bits())
}

fn calibration(quiet: f32, ceiling: Option<f32>, sensitivity: f32) -> DeviceCalibration {
    DeviceCalibration {
        state: CalibrationState::CeilingSet,
        quiet_db: f(quiet),
        ceiling_db: ceiling.map(f),
        noise_floor_db: f(-58.0),
        sensitivity: f(sensitivity),
    }
}

fn assert_default(cfg: &Config) {
    assert_eq!(cfg.hold_ms, 300);
    assert_eq!(cfg.cooldown_ms, 3000);
    assert_eq!(cfg.calibration.len(), 0);
    assert_eq!(cfg.banner_dismissed_on, None);
    assert_eq!(cfg.alert_sound, AlertSound::Builtin(BuiltinSound::SoftBeep));
    assert_eq!(n(cfg.alert_volume), 0.8);
    assert_eq!(cfg.output_device, None);
}

#[test]
fn missing_file_loads_defaults() {
    assert_default(&Config::load_from(None));
    assert_default(&Config::default());
}

#[test]
fn nan_and_inf_calibration_yields_uncalibrated_tuning() {
    let cal = calibration(f32::NAN, Some(f32::INFINITY), 0.5);
    let t = cal.tuning();
    assert!(t.quiet_db.is_none(), "non-finite quiet point must fall back to uncalibrated");
    assert!(t.noise_floor_db.is_finite());
}

#[test]
fn sensitivity_is_clamped_to_unit_range() {
    let mut cal = calibration(-37.0, Some(-17.0), 5.0);
    assert_eq!(n(cal.tuning().sensitivity), 1.0);
    cal.sensitivity = f(-2.0);
    assert_eq!(n(cal.tuning().sensitivity), 0.0);
    cal.sensitivity = f(f32::NAN);
    assert_eq!(n(cal.tuning().sensitivity), 0.5);
}

#[test]
fn insane_ceiling_is_dropped_not_fatal() {
    // "ceiling" quieter than quiet point
    let t = calibration(-37.0, Some(-50.0), 0.5).tuning();
    assert_eq!(t.quiet_db, Some(f(-37.0)), "quiet point survives");
    assert!(t.ceiling_db.is_none(), "inverted ceiling must be discarded");
}

#[test]
fn default_alert_sound_is_soft_beep_at_default_volume() {
    let cfg = Config::default();
    assert_eq!(cfg.alert_sound, AlertSound::Builtin(BuiltinSound::SoftBeep));
    assert_eq!(n(cfg.alert_volume), 0.8);
    assert_eq!(cfg.output_device, None);
}

#[test]
fn effective_volume_passes_through_in_range_values() {
    let cfg = Config { alert_volume: f(0.3), ..Config::default() };
    assert!((n(cfg.effective_volume()) - 0.3).abs() < 1e-6);
}

#[test]
fn effective_volume_clamps_out_of_range() {
    let mut cfg = Config { alert_volume: f(5.0), ..Config::default() };
    assert_eq!(n(cfg.effective_volume()), 1.0);
    cfg.alert_volume = f(-2.0);
    assert_eq!(n(cfg.effective_volume()), 0.0);
}

#[test]
fn effective_volume_falls_back_to_default_on_nan() {
    let cfg = Config { alert_volume: f(f32::NAN), ..Config::default() };
    assert_eq!(n(cfg.effective_volume()), 0.8);
}

#[test]
fn a_sane_calibration_is_handed_on_as_it_is() {
    assert_eq!(
        calibration(-37.0, Some(-17.0), 0.25).tuning(),
        Tuning {
            noise_floor_db: f(-58.0),
            quiet_db: Some(f(-37.0)),
            ceiling_db: Some(f(-17.0)),
            sensitivity: f(0.25),
        }
    );
    assert_eq!(DeviceCalibration::default().tuning(), Tuning::default());
    let mut no_floor = calibration(-37.0, None, 0.5);
    no_floor.noise_floor_db = f(f32::INFINITY);
    assert_eq!(no_floor.tuning(), Tuning::default());
}

#[test]
fn a_malformed_entry_spoils_only_itself() {
    let raw = RawConfig {
        hold_ms: 450,
        calibration: vec![
            RawEntry { device: "Good".to_string(), calibration: Some(calibration(-34.0, None, 0.5)) },
            RawEntry { device: "Bad".to_string(), calibration: None },
        ],
        banner_dismissed_on: Some("2026-08-27".to_string()),
        ..RawConfig::default()
    };
    let cfg = Config::load_from(Some(raw));
    assert_eq!(cfg.hold_ms, 450, "global settings must survive a bad device entry");
    assert_eq!(cfg.cooldown_ms, 3000);
    assert_eq!(cfg.banner_dismissed_on.as_deref(), Some("2026-08-27"));
    assert_eq!(cfg.calibration.len(), 2);
    let good = cfg.calibration.get(&"Good".to_string()).unwrap();
    assert_eq!(n(good.quiet_db), -34.0);
    let bad = cfg.calibration.get(&"Bad".to_string()).unwrap();
    assert!(bad.tuning().quiet_db.is_none());
    assert_default(&RawConfig::default().into_config());
}

#[test]
fn each_device_keeps_its_own_calibration() {
    let mut all = Calibrations::new();
    all.insert("A".to_string(), calibration(-30.0, None, 0.1));
    all.insert("B".to_string(), calibration(-31.0, None, 0.2));
    all.insert("A".to_string(), calibration(-32.0, None, 0.3));
    assert_eq!(all.len(), 2);
    assert_eq!(all.get(&"A".to_string()), Some(calibration(-32.0, None, 0.3)));
    assert_eq!(all.get(&"B".to_string()), Some(calibration(-31.0, None, 0.2)));
    assert_eq!(all.get(&"C".to_string()), None);
    assert_eq!(all.entry(1).device, "B");
    assert_eq!(AlertSound::default(), AlertSound::Builtin(BuiltinSound::SoftBeep));
}

#[test]
fn settings_are_compared_whatever_the_order_of_devices() {
    let mut a = Config::default();
    let mut b = a.clone();
    assert_eq!(a, b);
    a.calibration.insert("Mic A".to_string(), calibration(-37.0, None, 0.5));
    assert_ne!(a, b);
    a.calibration.insert("Mic B".to_string(), calibration(-30.0, Some(-12.0), 0.5));
    b.calibration.insert("Mic B".to_string(), calibration(-30.0, Some(-12.0), 0.5));
    assert_ne!(a, b);
    b.calibration.insert("Mic A".to_string(), calibration(-37.0, None, 0.5));
    assert_eq!(a, b);
    b.calibration.insert("Mic A".to_string(), calibration(-37.0, None, 0.6));
    assert_ne!(a, b);
    let mut c = a.clone();
    c.alert_sound = AlertSound::Custom { path: "ding.wav".to_string() };
    assert_ne!(a, c);
}
