use ragequiet::binary32::F32;
use ragequiet::engine::baseline::RollingMedian;
use ragequiet::engine::calibrate::{ceiling_is_sane, Measurement};
use ragequiet::engine::features::{
    db_from_rms, rms, zero_crossing_rate, Analysis, SpectralFeatures,
};
use ragequiet::engine::vad::is_voiced;
use ragequiet::engine::{Engine, State, Tuning, FRAME_SIZE};

fn f(x: f32) -> F32 {
    F32::from_bits(x.to_bits())
}

fn n(x: F32) -> f32 {
    f32::from_bits(x.to_bits())
}

fn all(xs: &[f32]) -> Vec<F32> {
    xs.iter().map(|&x| f(x)).collect()
}

/// A frame and what a float analysis says of it.
struct Sound {
    frame: Vec<F32>,
    analysis: Analysis,
}

/// The logarithm, and band energies from a Hann-windowed DFT: speech is
/// 100-1000 Hz, tilt compares 1000-4000 Hz against it.
fn sound(samples: &[f32]) -> Sound {
    let count = samples.len() as f32;
    let (mut low, mut high, mut total) = (0.0f32, 0.0f32, 0.0f32);
    for k in 1..samples.len() / 2 {
        let (mut re, mut im) = (0.0f32, 0.0f32);
        for (i, &s) in samples.iter().enumerate() {
            let hann = 0.5 - 0.5 * (std::f32::consts::TAU * i as f32 / count).cos();
            let at = std::f32::consts::TAU * (k * i % samples.len()) as f32 / count;
            re += s * hann * at.cos();
            im -= s * hann * at.sin();
        }
        let energy = re * re + im * im;
        let hz = k as f32 * 16_000.0 / count;
        total += energy;
        if (100.0..1000.0).contains(&hz) {
            low += energy;
        } else if (1000.0..4000.0).contains(&hz) {
            high += energy;
        }
    }
    let frame = all(samples);
    let log10_rms = f(n(rms(&frame)).log10());
    Sound {
        frame,
        analysis: Analysis {
            log10_rms,
            spectral: SpectralFeatures {
                tilt_db: f(10.0 * ((high + 1e-12) / (low + 1e-12)).log10()),
                speech_ratio: f(low / (total + 1e-12)),
            },
        },
    }
}

fn mix(rate: f32, n: usize, parts: &[(f32, f32)]) -> Vec<f32> {
    (0..n)
        .map(|i| {
            parts
                .iter()
                .map(|&(freq, amp)| (i as f32 / rate * freq * std::f32::consts::TAU).sin() * amp)
                .sum()
        })
        .collect()
}

fn sine_frame(freq: f32, amp: f32) -> Sound {
    sound(
        &(0..FRAME_SIZE)
            .map(|i| (i as f32 / 16000.0 * freq * std::f32::consts::TAU).sin() * amp)
            .collect::<Vec<f32>>(),
    )
}

// Calm speech proxy: strong 200 Hz, faint 1.5 kHz -> ~-37 dB, dark tilt.
fn quiet_voice() -> Sound {
    sound(&mix(16000.0, FRAME_SIZE, &[(200.0, 0.02), (1500.0, 0.004)]))
}

// Raised speech proxy: much louder AND brighter (stronger high band).
fn loud_voice() -> Sound {
    sound(&mix(16000.0, FRAME_SIZE, &[(200.0, 0.3), (2000.0, 0.15)]))
}

fn silence() -> Sound {
    sound(&vec![0.0; FRAME_SIZE])
}

fn process(e: &mut Engine, s: &Sound) -> State {
    e.process(&s.frame, &s.analysis)
}

#[test]
fn silence_is_quiet() {
    let mut e = Engine::new();
    assert_eq!(process(&mut e, &silence()), State::Quiet);
}

#[test]
fn quiet_voice_is_calm_after_warmup() {
    let mut e = Engine::new();
    let frame = quiet_voice();
    let mut last = State::Quiet;
    for _ in 0..50 {
        last = process(&mut e, &frame);
    }
    assert!(matches!(last, State::Calm { .. }), "got {last:?}");
}

#[test]
fn loud_bright_voice_over_calm_baseline_is_too_loud() {
    let mut e = Engine::new();
    let quiet = quiet_voice();
    for _ in 0..50 {
        process(&mut e, &quiet);
    }
    let state = process(&mut e, &loud_voice());
    assert!(matches!(state, State::TooLoud { .. }), "got {state:?}");
}

#[test]
fn shouting_does_not_drag_the_baseline_up() {
    let mut e = Engine::new();
    let quiet = quiet_voice();
    let loud = loud_voice();
    for _ in 0..50 {
        process(&mut e, &quiet);
    }
    for _ in 0..200 {
        process(&mut e, &loud);
    }
    // still flagged loud after 200 loud frames (~6.4 s)
    assert!(matches!(process(&mut e, &loud), State::TooLoud { .. }));
}

#[test]
fn below_noise_floor_is_quiet_even_if_periodic() {
    let mut e = Engine::new();
    let faint = sound(&mix(16000.0, FRAME_SIZE, &[(200.0, 0.0005)])); // ~-69 dB
    assert_eq!(process(&mut e, &faint), State::Quiet);
}

#[test]
fn baseline_recovers_after_gain_step() {
    let mut e = Engine::new();
    let quiet = quiet_voice();
    for _ in 0..50 {
        process(&mut e, &quiet);
    }
    // mic gain jumps +12 dB: same voice, 4x amplitude, same spectral shape
    let boosted = sound(&mix(16000.0, FRAME_SIZE, &[(200.0, 0.08), (1500.0, 0.016)]));
    let mut recovered = false;
    for _ in 0..1000 {
        if matches!(process(&mut e, &boosted), State::Calm { .. }) {
            recovered = true;
            break;
        }
    }
    assert!(recovered, "engine never re-adapted to the new gain level");
}

#[test]
fn a_gain_step_is_not_learned_before_the_retrain_time() {
    let mut e = Engine::new();
    let quiet = quiet_voice();
    for _ in 0..50 {
        process(&mut e, &quiet);
    }
    let before = e.threshold_db();
    let boosted = sound(&mix(16000.0, FRAME_SIZE, &[(200.0, 0.08), (1500.0, 0.016)]));
    for _ in 0..150 {
        assert!(matches!(process(&mut e, &boosted), State::GettingLoud { .. }));
    }
    assert_eq!(e.threshold_db(), before);
}

#[test]
fn uncalibrated_threshold_is_a_margin_over_the_median() {
    let mut e = Engine::new();
    assert!(e.threshold_db().is_nan(), "nothing to derive a threshold from yet");
    let quiet = quiet_voice();
    let db = n(db_from_rms(rms(&quiet.frame), quiet.analysis.log10_rms));
    assert_eq!(process(&mut e, &quiet), State::Calm { db: f(db) });
    assert_eq!(n(e.threshold_db()), db + 7.0);
    assert!(e.baseline_drift_db().is_nan());
}

#[test]
fn calibrated_threshold_sits_between_the_anchors() {
    let tuning = |sensitivity: f32, ceiling: Option<f32>| Tuning {
        noise_floor_db: f(-58.0),
        quiet_db: Some(f(-37.0)),
        ceiling_db: ceiling.map(f),
        sensitivity: f(sensitivity),
    };
    let mut e = Engine::with_tuning(tuning(0.0, Some(-17.0)));
    assert_eq!(n(e.threshold_db()), -37.0);
    e.set_tuning(tuning(1.0, Some(-17.0)));
    assert_eq!(n(e.threshold_db()), -17.0);
    e.set_tuning(tuning(0.5, Some(-17.0)));
    assert_eq!(n(e.threshold_db()), -27.0);
    e.set_tuning(tuning(0.5, None));
    assert_eq!(n(e.threshold_db()), -30.0, "an estimated ceiling puts the middle a margin up");
    assert_eq!(n(e.baseline_drift_db()), 0.0);

    let quiet = quiet_voice();
    let db = n(db_from_rms(rms(&quiet.frame), quiet.analysis.log10_rms));
    process(&mut e, &quiet);
    let threshold = n(e.threshold_db());
    assert_eq!(threshold, -30.0 + (db + 37.0), "the threshold follows the baseline");
    assert_eq!(n(e.baseline_drift_db()), db + 37.0);
}

#[test]
fn loud_but_not_bright_is_only_getting_loud() {
    let mut e = Engine::new();
    let quiet = quiet_voice();
    for _ in 0..50 {
        process(&mut e, &quiet);
    }
    let boosted = sound(&mix(16000.0, FRAME_SIZE, &[(200.0, 0.2), (1500.0, 0.04)]));
    assert!(matches!(process(&mut e, &boosted), State::GettingLoud { .. }));
}

#[test]
fn empty_has_no_median() {
    let mut m = RollingMedian::new(8);
    assert_eq!(m.median(), None);
}

#[test]
fn median_of_odd_count() {
    let mut m = RollingMedian::new(8);
    for v in [5.0, 1.0, 3.0] {
        m.push(f(v));
    }
    assert_eq!(m.median(), Some(f(3.0)));
}

#[test]
fn old_values_fall_out_of_the_window() {
    let mut m = RollingMedian::new(4);
    for v in [100.0, 100.0, 100.0, 100.0] {
        m.push(f(v));
    }
    assert_eq!(m.median(), Some(f(100.0)));
    // window is 4; four new values fully replace the old ones
    for v in [1.0, 2.0, 3.0, 2.0] {
        m.push(f(v));
    }
    assert_eq!(m.median(), Some(f(2.0)));
}

#[test]
fn is_robust_to_outliers() {
    let mut m = RollingMedian::new(16);
    for _ in 0..10 {
        m.push(f(-40.0));
    }
    m.push(f(0.0)); // one shout
    assert_eq!(m.median(), Some(f(-40.0)));
}

#[test]
fn median_of_an_even_count_is_the_upper_one() {
    let mut m = RollingMedian::new(8);
    for v in [4.0, -1.0, 3.0, 0.5] {
        m.push(f(v));
    }
    assert_eq!(m.median(), Some(f(3.0)));
}

#[test]
fn medians_agree_with_sorting() {
    let mut m = RollingMedian::new(13);
    let mut window: Vec<f32> = Vec::new();
    let mut x: u32 = 7;
    for _ in 0..200 {
        x = x.wrapping_mul(1_664_525).wrapping_add(1_013_904_223);
        let v = (x >> 16) as f32 / 100.0 - 300.0;
        m.push(f(v));
        window.push(v);
        if window.len() > 13 {
            window.remove(0);
        }
        let mut sorted = window.clone();
        sorted.sort_by(|a, b| a.total_cmp(b));
        assert_eq!(m.median(), Some(f(sorted[sorted.len() / 2])));
    }
}

fn feed(m: &mut Measurement, s: &Sound) -> Option<F32> {
    m.push(&s.frame, &s.analysis)
}

#[test]
fn noise_floor_measures_ambient_over_all_frames() {
    let mut m = Measurement::noise_floor();
    let ambient = sine_frame(200.0, 0.001); // ~-63 dB
    let mut result = None;
    for _ in 0..200 {
        result = feed(&mut m, &ambient);
        if result.is_some() {
            break;
        }
    }
    let db = n(result.expect("did not complete within 200 frames"));
    assert!((-66.0..=-60.0).contains(&db), "got {db}");
}

#[test]
fn voiced_level_ignores_silence() {
    let mut m = Measurement::voiced_level(f(1.0)); // ~31 frames of voice needed
    let silence = silence();
    for _ in 0..100 {
        assert!(feed(&mut m, &silence).is_none());
    }
    assert_eq!(n(m.progress()), 0.0, "silence must not advance progress");
    let voice = sine_frame(200.0, 0.02); // ~-37 dB, passes VAD
    let mut result = None;
    for _ in 0..100 {
        result = feed(&mut m, &voice);
        if result.is_some() {
            break;
        }
    }
    let db = n(result.expect("voiced frames did not complete the measurement"));
    assert!((-40.0..=-34.0).contains(&db), "got {db}");
}

#[test]
fn progress_advances_toward_one() {
    let mut m = Measurement::voiced_level(f(1.0));
    let voice = sine_frame(200.0, 0.02);
    assert_eq!(n(m.progress()), 0.0);
    feed(&mut m, &voice);
    assert!(n(m.progress()) > 0.0 && n(m.progress()) < 1.0);
}

#[test]
fn ceiling_sanity_check() {
    assert!(ceiling_is_sane(f(-34.0), f(-18.0)));
    assert!(!ceiling_is_sane(f(-34.0), f(-32.5))); // within 3 dB: something's off
    assert!(!ceiling_is_sane(f(-34.0), f(-35.0))); // quieter than quiet point
}

#[test]
fn a_measurement_takes_31_frames_a_second_and_keeps_its_result() {
    let mut m = Measurement::noise_floor();
    let quiet = silence();
    for i in 0..92 {
        assert_eq!(feed(&mut m, &quiet), None, "frame {i}");
    }
    assert_eq!(feed(&mut m, &quiet), Some(f(-100.0)));
    assert_eq!(n(m.progress()), 1.0);
    assert_eq!(feed(&mut m, &loud_voice()), Some(f(-100.0)));

    let mut shortest = Measurement::voiced_level(f(-1.0));
    assert!(feed(&mut shortest, &sine_frame(200.0, 0.02)).is_some());
}

fn sine(freq: f32, amp: f32, rate: f32, n: usize) -> Vec<f32> {
    (0..n).map(|i| (i as f32 / rate * freq * std::f32::consts::TAU).sin() * amp).collect()
}

fn db(r: F32) -> f32 {
    n(db_from_rms(r, f(n(r).log10())))
}

#[test]
fn rms_of_full_scale_sine_is_0_707() {
    let s = sine(1000.0, 1.0, 16000.0, 512);
    assert!((n(rms(&all(&s))) - 0.707).abs() < 0.01);
}

#[test]
fn rms_of_silence_is_zero() {
    assert_eq!(n(rms(&all(&[0.0; 512]))), 0.0);
    assert_eq!(n(rms(&[])), 0.0);
}

#[test]
fn db_of_full_scale_sine_is_minus_3() {
    let s = sine(1000.0, 1.0, 16000.0, 512);
    assert!((db(rms(&all(&s))) - (-3.0)).abs() < 0.1);
}

#[test]
fn db_scales_20_per_decade() {
    // amp 0.1 sine is 20 dB below amp 1.0 sine
    let loud = db(rms(&all(&sine(1000.0, 1.0, 16000.0, 512))));
    let soft = db(rms(&all(&sine(1000.0, 0.1, 16000.0, 512))));
    assert!((loud - soft - 20.0).abs() < 0.1);
}

#[test]
fn db_of_silence_is_floor() {
    assert_eq!(n(db_from_rms(f(0.0), f(f32::NEG_INFINITY))), -100.0);
    assert_eq!(n(db_from_rms(f(1e-5), f(-5.0))), -100.0);
    assert!(n(db_from_rms(f(1.1e-5), f(1.1e-5f32.log10()))) > -100.0);
}

#[test]
fn rms_agrees_with_native_arithmetic() {
    let s = mix(16000.0, 300, &[(123.0, 0.3), (777.0, 0.2), (3001.0, 0.1)]);
    let sum: f32 = s.iter().map(|x| x * x).sum();
    assert_eq!(n(rms(&all(&s))).to_bits(), (sum / 300.0).sqrt().to_bits());
}

fn spectral(tilt_db: f32, speech_ratio: f32) -> SpectralFeatures {
    SpectralFeatures { tilt_db: f(tilt_db), speech_ratio: f(speech_ratio) }
}

#[test]
fn speech_like_input_is_voiced() {
    assert!(is_voiced(f(0.03), &spectral(-14.0, 0.9)));
}

#[test]
fn broadband_click_is_rejected_by_zcr() {
    assert!(!is_voiced(f(0.7), &spectral(5.0, 0.6)));
}

#[test]
fn hiss_is_rejected_by_band_ratio() {
    assert!(!is_voiced(f(0.2), &spectral(12.0, 0.1)));
}

#[test]
fn the_voice_band_includes_its_ends_but_not_half_the_energy() {
    assert!(is_voiced(f(0.01), &spectral(0.0, 0.51)));
    assert!(is_voiced(f(0.35), &spectral(0.0, 0.51)));
    assert!(!is_voiced(f(0.009), &spectral(0.0, 0.51)));
    assert!(!is_voiced(f(0.351), &spectral(0.0, 0.51)));
    assert!(!is_voiced(f(0.1), &spectral(0.0, 0.5)));
    assert!(!is_voiced(f(f32::NAN), &spectral(0.0, 0.9)));
}

#[test]
fn sign_changes_are_counted_per_sample() {
    assert_eq!(n(zero_crossing_rate(&all(&[1.0, -1.0, 1.0, 1.0]))), 0.5);
    // zero is on the upper side
    assert_eq!(n(zero_crossing_rate(&all(&[0.0, 1.0, -0.0, -1.0]))), 0.25);
    assert_eq!(n(zero_crossing_rate(&all(&[]))), 0.0);
    assert_eq!(n(zero_crossing_rate(&all(&[-3.0]))), 0.0);
}

#[test]
fn a_low_tone_crosses_twice_per_period() {
    let samples: Vec<f32> = (0..512)
        .map(|i| ((i as f32 + 0.5) / 16_000.0 * 250.0 * std::f32::consts::TAU).sin())
        .collect();
    // 8 periods of 64 samples, less the crossing at the end
    assert_eq!(n(zero_crossing_rate(&all(&samples))), 15.0 / 512.0);
}
