use ragequiet::binary32::F32;
use ragequiet::bridge::MeasurementKind::{Ceiling, NoiseFloor, QuietPoint};
use ragequiet::ui::calibrate::{
    instruction, view, Action, Row, Wizard, WizardEvent, WizardResult, WizardStep,
};
use ragequiet::ui::theme::ButtonKind;

fn f(x: f32) -> F32 {
    F32::from_bits(x.to_bits())
}

fn n(x: F32) -> f32 {
    f32::from_bits(x.to_bits())
}


#[test]
fn happy_path_with_ceiling_threads_values_through() {
    let mut w = Wizard::new(14); // mid-afternoon, no late-night default
    assert_eq!(w.step, WizardStep::Intro);
    assert_eq!(w.cancelled_measurement(), None);

    let started = w.on_event(WizardEvent::Begin);
    assert_eq!(started, Some(NoiseFloor));
    assert_eq!(
        w.step,
        WizardStep::Measuring { kind: NoiseFloor, progress: f(0.0) }
    );
    assert_eq!(w.cancelled_measurement(), Some(NoiseFloor));

    let started = w.on_event(WizardEvent::Progress(f(0.5)));
    assert_eq!(started, None);
    assert_eq!(
        w.step,
        WizardStep::Measuring { kind: NoiseFloor, progress: f(0.5) }
    );

    let started = w.on_event(WizardEvent::Complete(NoiseFloor, f(-60.0)));
    assert_eq!(started, None);
    assert_eq!(w.step, WizardStep::NoiseDone { noise_db: f(-60.0) });
    assert_eq!(w.cancelled_measurement(), None);

    let started = w.on_event(WizardEvent::Continue);
    assert_eq!(started, Some(QuietPoint));
    assert_eq!(
        w.step,
        WizardStep::Measuring { kind: QuietPoint, progress: f(0.0) }
    );

    let started = w.on_event(WizardEvent::Complete(QuietPoint, f(-34.0)));
    assert_eq!(started, None);
    assert_eq!(
        w.step,
        WizardStep::QuietDone {
            noise_db: f(-60.0),
            quiet_db: f(-34.0),
            skip_ceiling_default: false,
        }
    );

    let started = w.on_event(WizardEvent::Continue);
    assert_eq!(started, Some(Ceiling));
    assert_eq!(
        w.step,
        WizardStep::Measuring { kind: Ceiling, progress: f(0.0) }
    );

    let started = w.on_event(WizardEvent::Complete(Ceiling, f(-18.0)));
    assert_eq!(started, None);
    match &w.step {
        WizardStep::Done { result } => {
            assert_eq!(
                *result,
                WizardResult {
                    noise_floor_db: f(-60.0),
                    quiet_db: f(-34.0),
                    ceiling_db: Some(f(-18.0)),
                }
            );
        }
        other => panic!("expected Done, got {other:?}"),
    }
    assert_eq!(w.cancelled_measurement(), None);
}

#[test]
fn skip_path_from_quiet_done_reaches_done_without_ceiling() {
    let mut w = Wizard::new(14);
    w.on_event(WizardEvent::Begin);
    w.on_event(WizardEvent::Complete(NoiseFloor, f(-60.0)));
    w.on_event(WizardEvent::Continue);
    w.on_event(WizardEvent::Complete(QuietPoint, f(-34.0)));

    let started = w.on_event(WizardEvent::SkipCeiling);
    assert_eq!(started, None);
    assert_eq!(
        w.step,
        WizardStep::Done {
            result: WizardResult {
                noise_floor_db: f(-60.0),
                quiet_db: f(-34.0),
                ceiling_db: None,
            },
        }
    );
}

#[test]
fn late_night_flag_hour_21_is_false() {
    let mut w = Wizard::new(21);
    w.on_event(WizardEvent::Begin);
    w.on_event(WizardEvent::Complete(NoiseFloor, f(-60.0)));
    w.on_event(WizardEvent::Continue);
    w.on_event(WizardEvent::Complete(QuietPoint, f(-34.0)));
    match &w.step {
        WizardStep::QuietDone { skip_ceiling_default, .. } => {
            assert!(!skip_ceiling_default);
        }
        other => panic!("expected QuietDone, got {other:?}"),
    }
}

#[test]
fn late_night_flag_hour_22_is_true() {
    let mut w = Wizard::new(22);
    w.on_event(WizardEvent::Begin);
    w.on_event(WizardEvent::Complete(NoiseFloor, f(-60.0)));
    w.on_event(WizardEvent::Continue);
    w.on_event(WizardEvent::Complete(QuietPoint, f(-34.0)));
    match &w.step {
        WizardStep::QuietDone { skip_ceiling_default, .. } => {
            assert!(*skip_ceiling_default);
        }
        other => panic!("expected QuietDone, got {other:?}"),
    }
}

#[test]
fn late_night_flag_hour_4_is_true() {
    let mut w = Wizard::new(4);
    w.on_event(WizardEvent::Begin);
    w.on_event(WizardEvent::Complete(NoiseFloor, f(-60.0)));
    w.on_event(WizardEvent::Continue);
    w.on_event(WizardEvent::Complete(QuietPoint, f(-34.0)));
    match &w.step {
        WizardStep::QuietDone { skip_ceiling_default, .. } => {
            assert!(*skip_ceiling_default);
        }
        other => panic!("expected QuietDone, got {other:?}"),
    }
}

#[test]
fn late_night_flag_hour_5_is_false() {
    let mut w = Wizard::new(5);
    w.on_event(WizardEvent::Begin);
    w.on_event(WizardEvent::Complete(NoiseFloor, f(-60.0)));
    w.on_event(WizardEvent::Continue);
    w.on_event(WizardEvent::Complete(QuietPoint, f(-34.0)));
    match &w.step {
        WizardStep::QuietDone { skip_ceiling_default, .. } => {
            assert!(!skip_ceiling_default);
        }
        other => panic!("expected QuietDone, got {other:?}"),
    }
}

fn to_quiet_done(start_hour: u32) -> Wizard {
    let mut w = Wizard::new(start_hour);
    w.on_event(WizardEvent::Begin);
    w.on_event(WizardEvent::Complete(NoiseFloor, f(-60.0)));
    w.on_event(WizardEvent::Continue);
    w.on_event(WizardEvent::Complete(QuietPoint, f(-34.0)));
    w
}

#[test]
fn insane_ceiling_retries_then_succeeds() {
    let mut w = to_quiet_done(14);
    w.on_event(WizardEvent::Continue); // -> Measuring(Ceiling)

    // Within MIN_CEILING_GAP_DB (3.0) of quiet_db (-34.0): insane.
    let started = w.on_event(WizardEvent::Complete(Ceiling, f(-32.5)));
    assert_eq!(started, None);
    match &w.step {
        WizardStep::CeilingRetry { noise_db, quiet_db, gap_db } => {
            assert_eq!(n(*noise_db), -60.0);
            assert_eq!(n(*quiet_db), -34.0);
            assert!((n(*gap_db) - 1.5).abs() < 1e-6, "got {}", n(*gap_db));
        }
        other => panic!("expected CeilingRetry, got {other:?}"),
    }
    assert_eq!(w.cancelled_measurement(), None);

    let started = w.on_event(WizardEvent::Continue);
    assert_eq!(started, Some(Ceiling));
    assert_eq!(
        w.step,
        WizardStep::Measuring { kind: Ceiling, progress: f(0.0) }
    );

    let started = w.on_event(WizardEvent::Complete(Ceiling, f(-18.0)));
    assert_eq!(started, None);
    match &w.step {
        WizardStep::Done { result } => {
            assert_eq!(
                *result,
                WizardResult {
                    noise_floor_db: f(-60.0),
                    quiet_db: f(-34.0),
                    ceiling_db: Some(f(-18.0)),
                }
            );
        }
        other => panic!("expected Done, got {other:?}"),
    }
}

#[test]
fn insane_ceiling_retry_then_skip() {
    let mut w = to_quiet_done(14);
    w.on_event(WizardEvent::Continue);
    w.on_event(WizardEvent::Complete(Ceiling, f(-35.0))); // quieter than quiet point

    let started = w.on_event(WizardEvent::SkipCeiling);
    assert_eq!(started, None);
    assert_eq!(
        w.step,
        WizardStep::Done {
            result: WizardResult {
                noise_floor_db: f(-60.0),
                quiet_db: f(-34.0),
                ceiling_db: None,
            },
        }
    );
}

#[test]
fn stale_complete_with_wrong_kind_during_measuring_is_ignored() {
    let mut w = Wizard::new(14);
    w.on_event(WizardEvent::Begin); // Measuring(NoiseFloor)

    let started = w.on_event(WizardEvent::Complete(QuietPoint, f(-34.0)));
    assert_eq!(started, None);
    assert_eq!(
        w.step,
        WizardStep::Measuring { kind: NoiseFloor, progress: f(0.0) },
        "wrong-kind Complete must not change state"
    );
}

#[test]
fn stale_progress_during_noise_done_is_ignored() {
    let mut w = Wizard::new(14);
    w.on_event(WizardEvent::Begin);
    w.on_event(WizardEvent::Complete(NoiseFloor, f(-60.0)));
    assert_eq!(w.step, WizardStep::NoiseDone { noise_db: f(-60.0) });

    let started = w.on_event(WizardEvent::Progress(f(0.5)));
    assert_eq!(started, None);
    assert_eq!(
        w.step,
        WizardStep::NoiseDone { noise_db: f(-60.0) },
        "Progress outside Measuring must not change state"
    );
}

#[test]
fn stale_begin_during_measuring_is_ignored() {
    let mut w = Wizard::new(14);
    w.on_event(WizardEvent::Begin);
    assert_eq!(
        w.step,
        WizardStep::Measuring { kind: NoiseFloor, progress: f(0.0) }
    );

    let started = w.on_event(WizardEvent::Begin);
    assert_eq!(started, None);
    assert_eq!(
        w.step,
        WizardStep::Measuring { kind: NoiseFloor, progress: f(0.0) },
        "Begin outside Intro must not change state"
    );
}

#[test]
fn stale_continue_during_intro_is_ignored() {
    let mut w = Wizard::new(14);
    let started = w.on_event(WizardEvent::Continue);
    assert_eq!(started, None);
    assert_eq!(w.step, WizardStep::Intro);
}

#[test]
fn stale_skip_ceiling_during_noise_done_is_ignored() {
    let mut w = Wizard::new(14);
    w.on_event(WizardEvent::Begin);
    w.on_event(WizardEvent::Complete(NoiseFloor, f(-60.0)));
    assert_eq!(w.step, WizardStep::NoiseDone { noise_db: f(-60.0) });

    let started = w.on_event(WizardEvent::SkipCeiling);
    assert_eq!(started, None);
    assert_eq!(w.step, WizardStep::NoiseDone { noise_db: f(-60.0) });
}

#[test]
fn cancelled_measurement_is_some_only_while_measuring() {
    let mut w = Wizard::new(14);
    assert_eq!(w.cancelled_measurement(), None); // Intro

    w.on_event(WizardEvent::Begin);
    assert_eq!(w.cancelled_measurement(), Some(NoiseFloor)); // Measuring(NoiseFloor)

    w.on_event(WizardEvent::Complete(NoiseFloor, f(-60.0)));
    assert_eq!(w.cancelled_measurement(), None); // NoiseDone

    w.on_event(WizardEvent::Continue);
    assert_eq!(w.cancelled_measurement(), Some(QuietPoint)); // Measuring(QuietPoint)

    w.on_event(WizardEvent::Complete(QuietPoint, f(-34.0)));
    assert_eq!(w.cancelled_measurement(), None); // QuietDone

    w.on_event(WizardEvent::Continue);
    assert_eq!(w.cancelled_measurement(), Some(Ceiling)); // Measuring(Ceiling)

    w.on_event(WizardEvent::Complete(Ceiling, f(-32.5))); // insane -> CeilingRetry
    assert_eq!(w.cancelled_measurement(), None); // CeilingRetry

    w.on_event(WizardEvent::Continue);
    assert_eq!(w.cancelled_measurement(), Some(Ceiling)); // Measuring(Ceiling) again

    w.on_event(WizardEvent::Complete(Ceiling, f(-18.0))); // sane -> Done
    assert_eq!(w.cancelled_measurement(), None); // Done
}

fn labels(rows: &[Row]) -> Vec<String> {
    rows.iter()
        .map(|row| match row {
            Row::Heading(l) | Row::Body(l) => match l.value {
                Some(v) => format!("{}{:.0}{}", l.before, n(v), l.after),
                None => l.before.to_string(),
            },
            Row::Progress(p) => format!("[{}]", n(*p)),
            Row::Meter => "[meter]".to_string(),
            Row::Button { label, .. } => format!("<{label}>"),
            Row::CancelRow => "<cancel>".to_string(),
        })
        .collect()
}

#[test]
fn the_measuring_step_explains_what_it_waits_for() {
    let mut w = Wizard::new(14);
    w.on_event(WizardEvent::Begin);
    w.on_event(WizardEvent::Progress(f(0.25)));
    assert_eq!(
        labels(&view(&w, true, true, true)),
        vec![
            "Stay quiet for 3 seconds.",
            "[0.25]",
            "Monitoring is paused — re-enable it to continue.",
            "Waiting to hear your voice — speak at the target volume.",
            "[meter]",
            "<cancel>",
        ]
    );
    assert_eq!(labels(&view(&w, false, false, false)).len(), 4);
    assert_eq!(instruction(Ceiling), "Talk at the volume you'd use if they were in the room.");
    assert_eq!(instruction(QuietPoint), "Talk at the volume you'd use with a roommate asleep.");
}

#[test]
fn the_intro_notes_a_changed_device() {
    let w = Wizard::new(14);
    let plain = labels(&view(&w, false, false, false));
    let noted = labels(&view(&w, true, true, true));
    assert_eq!(plain.len() + 1, noted.len());
    assert_eq!(plain[0], "Calibrate for this mic");
    assert!(noted[2].starts_with("Note: the default microphone changed"));
    assert_eq!(noted[4], "<Start>");
}

#[test]
fn late_at_night_skipping_leads() {
    let day = view(&to_quiet_done(14), false, false, false);
    let night = view(&to_quiet_done(23), false, false, false);
    assert_eq!(labels(&day)[0], "Quiet point set: -34 dB");
    assert_eq!(labels(&day)[3..5], ["<Measure loud point>".to_string(), "<Skip>".to_string()]);
    assert_eq!(
        labels(&night)[3..5],
        ["<Skip for now>".to_string(), "<Measure loud point>".to_string()]
    );
    assert_eq!(
        night[3],
        Row::Button {
            label: "Skip for now",
            kind: ButtonKind::Primary,
            action: Action::Event(WizardEvent::SkipCeiling),
        }
    );
}

#[test]
fn a_finished_calibration_is_left_deliberately() {
    let mut w = to_quiet_done(14);
    w.on_event(WizardEvent::Continue);
    w.on_event(WizardEvent::Complete(Ceiling, f(-35.0)));
    assert_eq!(
        labels(&view(&w, false, false, false))[1],
        "That was within -1 dB of your quiet voice — either not loud enough, or your mic's gain \
         is limiting. Try again?"
    );
    w.on_event(WizardEvent::SkipCeiling);
    assert_eq!(
        labels(&view(&w, false, false, false)),
        vec![
            "Calibration ready",
            "Quiet point: -34 dB",
            "Loud point: estimated (skipped)",
            "Finish to save and start using it.",
            "[meter]",
            "<Finish>",
            "<Discard>",
        ]
    );
}

#[test]
fn the_noise_floor_is_shown_in_whole_db() {
    let mut w = Wizard::new(14);
    w.on_event(WizardEvent::Begin);
    w.on_event(WizardEvent::Complete(NoiseFloor, f(-60.4)));
    assert_eq!(labels(&view(&w, false, false, false))[0], "Noise floor: -60 dB");
}

#[test]
fn a_finished_wizard_ignores_everything() {
    let mut w = to_quiet_done(14);
    w.on_event(WizardEvent::SkipCeiling);
    let done = w.step;
    for event in [
        WizardEvent::Begin,
        WizardEvent::Progress(f(0.5)),
        WizardEvent::Complete(QuietPoint, f(-1.0)),
        WizardEvent::Continue,
        WizardEvent::SkipCeiling,
    ] {
        assert_eq!(w.on_event(event), None);
        assert_eq!(w.step, done);
    }
}

#[test]
fn only_a_voice_measurement_stalls() {
    let mut w = Wizard::new(14);
    assert!(!w.stalled(60_000));
    w.on_event(WizardEvent::Begin);
    assert!(!w.stalled(60_000), "silence is what the noise step asks for");
    w.on_event(WizardEvent::Complete(NoiseFloor, f(-60.0)));
    w.on_event(WizardEvent::Continue);
    assert!(!w.stalled(4_999));
    assert!(w.stalled(5_000));
}
