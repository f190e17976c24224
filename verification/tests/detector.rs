use ragequiet::alert::AlertGate;
use ragequiet::binary32::F32;
use ragequiet::bridge::{Command, MeasurementKind};
use ragequiet::detector::{
    level_of, measurement_for, tray_state_for, Detector, FrameOutcome, MeasurementUpdate, TrayState,
    SILENT_DB,
};
use ragequiet::engine::features::{rms, Analysis, SpectralFeatures};
use ragequiet::engine::{Engine, State, Tuning, FRAME_SIZE};

fn f(x: f32) -> F32 {
    F32::from_bits(x.to_bits())
}

fn n(x: F32) -> f32 {
    f32::from_bits(x.to_bits())
}

struct Sound {
    frame: Vec<F32>,
    analysis: Analysis,
}

/// The logarithm, and band energies from a Hann-windowed DFT: speech is
/// 100-1000 Hz, tilt compares 1000-4000 Hz against it.
fn sound(samples: &[f32]) -> Sound {
    let count = samples.len() as f32;
    let (mut low, mut high, mut total) = (0.0f32, 0.0f32, 0.0f32);
    for k in 1..samples.len() / 2 {
        let (mut re, mut im) = (0.0f32, 0.0f32);
        for (i, &s) in samples.iter().enumerate() {
            let hann = 0.5 - 0.5 * (std::f32::consts::TAU * i as f32 / count).cos();
            let at = std::f32::consts::TAU * (k * i % samples.len()) as f32 / count;
            re += s * hann * at.cos();
            im -= s * hann * at.sin();
        }
        let energy = re * re + im * im;
        let hz = k as f32 * 16_000.0 / count;
        total += energy;
        if (100.0..1000.0).contains(&hz) {
            low += energy;
        } else if (1000.0..4000.0).contains(&hz) {
            high += energy;
        }
    }
    let frame: Vec<F32> = samples.iter().map(|&x| f(x)).collect();
    let log10_rms = f(n(rms(&frame)).log10());
    Sound {
        frame,
        analysis: Analysis {
            log10_rms,
            spectral: SpectralFeatures {
                tilt_db: f(10.0 * ((high + 1e-12) / (low + 1e-12)).log10()),
                speech_ratio: f(low / (total + 1e-12)),
            },
        },
    }
}

fn silence() -> Sound {
    sound(&vec![0.0; FRAME_SIZE])
}

fn test_detector() -> Detector {
    Detector::new(Engine::new(), AlertGate::new(300, 3000))
}

fn on_frame(d: &mut Detector, s: &Sound, now: u64) -> FrameOutcome {
    d.on_frame(&s.frame, &s.analysis, now)
}

fn start(d: &mut Detector, kind: MeasurementKind) {
    d.apply(Command::StartMeasurement(kind, Box::new(measurement_for(kind))));
}

#[test]
fn first_frame_reports_no_change_when_already_quiet() {
    let mut d = test_detector();
    let out = on_frame(&mut d, &silence(), 0);
    assert!(out.state_change.is_none());
    assert!(!out.beep);
}

#[test]
fn resume_forces_state_reannouncement() {
    let mut d = test_detector();
    assert!(on_frame(&mut d, &silence(), 0).state_change.is_none());
    d.resume();
    // same state as before, but after resume it must be re-sent
    assert_eq!(on_frame(&mut d, &silence(), 32).state_change, Some(TrayState::Quiet));
}

#[test]
fn steady_state_sends_nothing() {
    let mut d = test_detector();
    let silence = silence();
    for i in 0..100 {
        let out = on_frame(&mut d, &silence, i * 32);
        assert!(out.state_change.is_none(), "frame {i} sent a change");
    }
}

fn mix(rate: f32, n: usize, parts: &[(f32, f32)]) -> Vec<f32> {
    (0..n)
        .map(|i| {
            parts
                .iter()
                .map(|&(freq, amp)| (i as f32 / rate * freq * std::f32::consts::TAU).sin() * amp)
                .sum()
        })
        .collect()
}

fn quiet_voice() -> Sound {
    sound(&mix(16000.0, FRAME_SIZE, &[(200.0, 0.02), (1500.0, 0.004)]))
}

fn loud_voice() -> Sound {
    sound(&mix(16000.0, FRAME_SIZE, &[(200.0, 0.3), (2000.0, 0.15)]))
}

const FRAME_MS: u64 = 32;
const WARMUP_FRAMES: u64 = 50;

/// Feed calm speech until the engine's baselines are trained.
fn warm_up(d: &mut Detector) -> u64 {
    let quiet = quiet_voice();
    for i in 0..WARMUP_FRAMES {
        on_frame(d, &quiet, i * FRAME_MS);
    }
    WARMUP_FRAMES * FRAME_MS
}

/// ms (relative to the first loud frame) at which an alert fired, if one did.
fn first_beep_offset_ms(d: &mut Detector, start_ms: u64, frames: u64) -> Option<u64> {
    let loud = loud_voice();
    for i in 0..frames {
        let now = start_ms + i * FRAME_MS;
        if on_frame(d, &loud, now).beep {
            return Some(now - start_ms);
        }
    }
    None
}

#[test]
fn test_mode_suppresses_the_beep_but_not_the_color() {
    let mut loud_marker = None;
    let mut d = test_detector();
    d.apply(Command::SetTestMode(true));
    let start = warm_up(&mut d);
    let loud = loud_voice();
    for i in 0..40 {
        let out = on_frame(&mut d, &loud, start + i * FRAME_MS);
        assert!(!out.beep, "test mode must never beep (frame {i})");
        if let Some(s) = out.state_change {
            loud_marker = Some(s);
        }
    }
    assert_eq!(
        loud_marker,
        Some(TrayState::Loud),
        "the icon must still go to the loud state in test mode"
    );

    // control: the same drive without test mode does beep
    let mut d = test_detector();
    let start = warm_up(&mut d);
    assert!(
        first_beep_offset_ms(&mut d, start, 40).is_some(),
        "the control run must beep, otherwise the suppression test proves nothing"
    );
}

#[test]
fn peak_decays_after_three_seconds_of_quiet() {
    let mut d = test_detector();
    let end = warm_up(&mut d);
    let voiced_peak = n(d.peak_db());
    assert!(
        voiced_peak > -60.0 && voiced_peak.is_finite(),
        "voiced frames must set a peak, got {voiced_peak}"
    );

    // 2 s of silence: the ghost peak is still holding
    let silence = silence();
    let mut now = end;
    for _ in 0..(2000 / FRAME_MS) {
        on_frame(&mut d, &silence, now);
        now += FRAME_MS;
    }
    assert_eq!(n(d.peak_db()), voiced_peak, "peak must hold for ~3 s");

    // past 3 s it decays to the live (silent) level
    for _ in 0..(2000 / FRAME_MS) {
        on_frame(&mut d, &silence, now);
        now += FRAME_MS;
    }
    assert_eq!(n(d.peak_db()), SILENT_DB as f32, "stale peak must decay");
}

#[test]
fn apply_set_gate_changes_beep_timing() {
    let mut fast = test_detector();
    let start = warm_up(&mut fast);
    let fast_at = first_beep_offset_ms(&mut fast, start, 80).expect("300 ms hold must fire");
    assert!(fast_at < 500, "300 ms hold fired at {fast_at} ms");

    let mut slow = test_detector();
    let start = warm_up(&mut slow);
    slow.apply(Command::SetGate { hold_ms: 1500, cooldown_ms: 3000 });
    let slow_at = first_beep_offset_ms(&mut slow, start, 80).expect("1500 ms hold must fire");
    assert!(slow_at >= 1500, "1500 ms hold fired at {slow_at} ms");
}

#[test]
fn apply_enabled_icon_baseline_reannounces_state() {
    let mut d = test_detector();
    assert!(on_frame(&mut d, &silence(), 0).state_change.is_none());
    d.apply(Command::SetEnabledIconBaseline);
    assert_eq!(on_frame(&mut d, &silence(), 32).state_change, Some(TrayState::Quiet));
}

#[test]
fn noise_floor_measurement_completes_on_silence() {
    let mut d = test_detector();
    start(&mut d, MeasurementKind::NoiseFloor);
    let silence = silence();
    let mut completed = None;
    for i in 0..200u64 {
        let out = on_frame(&mut d, &silence, i * FRAME_MS);
        if let Some(MeasurementUpdate::Complete(kind, db)) = out.measurement {
            completed = Some((kind, db));
            break;
        }
    }
    let (kind, db) = completed.expect("noise floor measurement did not complete");
    assert_eq!(kind, MeasurementKind::NoiseFloor);
    assert!(n(db) <= -60.0, "expected a plausible silent noise floor, got {}", n(db));

    // measurement is cleared after completion: the very next frame emits nothing
    let out = on_frame(&mut d, &silence, 200 * FRAME_MS);
    assert!(out.measurement.is_none(), "measurement must clear after completion");
}

#[test]
fn quiet_point_measurement_ignores_silence_then_completes_on_voice() {
    let mut d = test_detector();
    start(&mut d, MeasurementKind::QuietPoint);
    let silence = silence();
    let mut emitted_progress = 0u32;
    for i in 0..50u64 {
        let out = on_frame(&mut d, &silence, i * FRAME_MS);
        match out.measurement {
            Some(MeasurementUpdate::Progress(p)) => {
                assert_eq!(n(p), 0.0, "silence must not advance quiet-point progress");
                emitted_progress += 1;
            }
            Some(MeasurementUpdate::Complete(..)) => {
                panic!("silence must not complete a voiced measurement")
            }
            None => {}
        }
    }
    assert_eq!(emitted_progress, 0, "silence must not emit any progress events");

    let voice = quiet_voice();
    let mut completed = None;
    for i in 0..400u64 {
        let now = 50 * FRAME_MS + i * FRAME_MS;
        let out = on_frame(&mut d, &voice, now);
        if let Some(MeasurementUpdate::Complete(kind, db)) = out.measurement {
            completed = Some((kind, db));
            break;
        }
    }
    let (kind, db) = completed.expect("quiet point measurement did not complete on voiced frames");
    assert_eq!(kind, MeasurementKind::QuietPoint);
    assert!((-40.0..=-34.0).contains(&n(db)), "got {}", n(db));
}

#[test]
fn progress_events_emit_only_on_whole_percent_change() {
    let mut d = test_detector();
    start(&mut d, MeasurementKind::QuietPoint);
    let voice = quiet_voice();
    let mut emitted_pcts = Vec::new();
    let mut completed = false;
    for i in 0..400u64 {
        let now = i * FRAME_MS;
        let out = on_frame(&mut d, &voice, now);
        match out.measurement {
            Some(MeasurementUpdate::Progress(p)) => emitted_pcts.push((n(p) * 100.0) as u32),
            Some(MeasurementUpdate::Complete(..)) => {
                completed = true;
                break;
            }
            None => {}
        }
    }
    assert!(completed, "measurement should complete within 400 voiced frames");
    assert!(!emitted_pcts.is_empty(), "expected at least one progress event");
    // no spam: every emitted percent must be strictly greater than the last
    let mut last = None;
    for &p in &emitted_pcts {
        if let Some(prev) = last {
            assert!(p > prev, "progress percent must strictly increase, got {emitted_pcts:?}");
        }
        last = Some(p);
    }
    let distinct_crossed = emitted_pcts.last().copied().unwrap_or(0)
        - emitted_pcts.first().copied().unwrap_or(0)
        + 1;
    assert!(
        emitted_pcts.len() as u32 <= distinct_crossed,
        "emitted {} progress events but only {} distinct percents were crossed",
        emitted_pcts.len(),
        distinct_crossed
    );
}

#[test]
fn cancel_measurement_stops_updates() {
    let mut d = test_detector();
    start(&mut d, MeasurementKind::QuietPoint);
    let voice = quiet_voice();
    // get a bit of progress going first
    for i in 0..5u64 {
        on_frame(&mut d, &voice, i * FRAME_MS);
    }
    d.apply(Command::CancelMeasurement);
    for i in 5..50u64 {
        let out = on_frame(&mut d, &voice, i * FRAME_MS);
        assert!(out.measurement.is_none(), "frame {i} emitted a measurement update after cancel");
    }
}

#[test]
fn beep_suppressed_during_measurement_then_functional_after_cancel() {
    let mut d = test_detector();
    let begin = warm_up(&mut d);
    start(&mut d, MeasurementKind::Ceiling);
    let loud = loud_voice();
    for i in 0..40u64 {
        let out = on_frame(&mut d, &loud, begin + i * FRAME_MS);
        assert!(!out.beep, "beep must be suppressed during an active measurement (frame {i})");
    }
    d.apply(Command::CancelMeasurement);
    let resume_start = begin + 40 * FRAME_MS;
    let fired = first_beep_offset_ms(&mut d, resume_start, 80);
    assert!(fired.is_some(), "beep must be functional again after the measurement ends");
}

#[test]
fn apply_set_tuning_moves_the_threshold() {
    let mut d = test_detector();
    let tuning = |sensitivity: f32| Tuning {
        noise_floor_db: f(-58.0),
        quiet_db: Some(f(-37.0)),
        ceiling_db: Some(f(-17.0)),
        sensitivity: f(sensitivity),
    };
    d.apply(Command::SetTuning(tuning(0.0)));
    let low = n(d.threshold_db());
    d.apply(Command::SetTuning(tuning(1.0)));
    assert!(n(d.threshold_db()) > low + 15.0, "sensitivity must move the threshold");
}

#[test]
fn states_map_to_tray_states_and_levels() {
    let db = f(-12.5);
    assert_eq!(tray_state_for(State::Quiet), TrayState::Quiet);
    assert_eq!(tray_state_for(State::Calm { db }), TrayState::Quiet);
    assert_eq!(tray_state_for(State::GettingLoud { db }), TrayState::Warning);
    assert_eq!(tray_state_for(State::TooLoud { db }), TrayState::Loud);
    assert_eq!(n(level_of(State::Quiet)), -100.0);
    assert_eq!(level_of(State::TooLoud { db }), db);
}

#[test]
fn a_tie_with_the_peak_restarts_its_window() {
    let mut d = test_detector();
    let quiet = quiet_voice();
    on_frame(&mut d, &quiet, 0);
    let peak = d.peak_db();
    on_frame(&mut d, &quiet, 2900);
    on_frame(&mut d, &silence(), 5000);
    assert_eq!(d.peak_db(), peak, "the tie at 2900 ms keeps the peak until 5900 ms");
    on_frame(&mut d, &silence(), 5901);
    assert_eq!(n(d.peak_db()), -100.0);
    assert_eq!(n(d.last_level_db()), -100.0);
    assert!(d.drift_db().is_nan());
}

/// A calm voice at a share of its level.
fn voice_at(share: f32) -> Sound {
    sound(&mix(16000.0, FRAME_SIZE, &[(200.0, 0.02 * share), (1500.0, 0.004 * share)]))
}

#[test]
fn the_peak_is_the_highest_level_of_the_last_three_seconds() {
    let mut d = test_detector();
    assert_eq!(n(d.peak_db()), SILENT_DB as f32, "before the first frame");
    let levels: Vec<F32> = [(1.0f32, 0u64), (0.6, 1000), (0.4, 3001)]
        .into_iter()
        .map(|(share, at)| {
            on_frame(&mut d, &voice_at(share), at);
            d.last_level_db()
        })
        .collect();
    assert!(n(levels[0]) > n(levels[1]) && n(levels[1]) > n(levels[2]));
    assert_eq!(d.peak_db(), levels[1], "the first is too old, the second is not");
    on_frame(&mut d, &silence(), 4000);
    assert_eq!(d.peak_db(), levels[1]);
    on_frame(&mut d, &silence(), 4001);
    assert_eq!(d.peak_db(), levels[2]);
    on_frame(&mut d, &silence(), 6002);
    assert_eq!(n(d.peak_db()), SILENT_DB as f32);
}
