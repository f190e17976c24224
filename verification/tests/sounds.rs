use ragequiet::binary32::F32;
use ragequiet::decode::{Collector, DecodeError, Packet};
use ragequiet::sounds::{
    chime, chime_angle, chime_exponent, double_beep, double_beep_angle, fade_env, ms, soft_beep,
    soft_beep_angle, synth_len, BuiltinSound, SoundData, Synth, ALL, SOUND_RATE,
};

fn f(x: f32) -> F32 {
    F32::from_bits(x.to_bits())
}

fn n(x: F32) -> f32 {
    f32::from_bits(x.to_bits())
}

fn sin(angle: F32) -> F32 {
    f(n(angle).sin())
}

fn render(synth: Synth) -> Vec<f32> {
    let len = synth_len(synth);
    let samples = match synth {
        Synth::SoftBeep => soft_beep(&(0..len).map(|i| sin(soft_beep_angle(i))).collect()),
        Synth::DoubleBeep => double_beep(
            &(0..len).map(|i| double_beep_angle(i).map_or(f(0.0), sin)).collect(),
        ),
        Synth::Chime => {
            let harmonic = |k: i32| (0..len).map(|i| sin(chime_angle(i, k))).collect::<Vec<F32>>();
            let rings = (0..len)
                .map(|i| chime_exponent(i).map_or(f(0.0), |e| f(n(e).exp())))
                .collect::<Vec<F32>>();
            chime(&harmonic(1), &harmonic(2), &harmonic(3), &rings)
        }
    };
    samples.into_iter().map(n).collect()
}

#[test]
fn labels_are_distinct() {
    let labels: Vec<&str> = ALL.iter().map(|s| s.label()).collect();
    for (i, a) in labels.iter().enumerate() {
        for (j, b) in labels.iter().enumerate() {
            if i != j {
                assert_ne!(a, b, "duplicate label {a:?}");
            }
        }
    }
}

#[test]
fn synthesized_sounds_satisfy_shared_constraints() {
    for synth in [Synth::SoftBeep, Synth::DoubleBeep, Synth::Chime] {
        let samples = render(synth);
        let max_abs = samples.iter().fold(0.0f32, |m, &s| m.max(s.abs()));
        let sum_sq: f32 = samples.iter().map(|s| s * s).sum();
        assert!(!samples.is_empty());
        assert!(samples.len() < 4 * SOUND_RATE as usize);
        assert!(max_abs <= 0.9, "{synth:?} clips: max abs {max_abs}");
        assert!(samples[0].abs() < 0.01, "{synth:?} starts with a click");
        assert!(samples[samples.len() - 1].abs() < 0.01, "{synth:?} ends with a click");
        assert!((sum_sq / samples.len() as f32).sqrt() > 0.01, "{synth:?} is nearly silent");
    }
}

/// The same sounds, straight from native arithmetic.
fn native(synth: Synth) -> Vec<f32> {
    let tau = std::f32::consts::TAU;
    let rate = 48_000f32;
    let env = |i: usize, total: usize, ramp: usize| {
        if i < ramp {
            i as f32 / ramp as f32
        } else if i >= total - ramp {
            (total - i) as f32 / ramp as f32
        } else {
            1.0
        }
    };
    match synth {
        Synth::SoftBeep => (0..7200)
            .map(|i| (i as f32 / rate * 880.0 * tau).sin() * 0.5 * env(i, 7200, 480))
            .collect(),
        Synth::DoubleBeep => (0..15_360)
            .map(|i| {
                let phase = if i < 5760 {
                    i
                } else if i < 9600 {
                    return 0.0;
                } else {
                    i - 9600
                };
                (phase as f32 / rate * 660.0 * tau).sin() * 0.5 * env(phase, 5760, 480)
            })
            .collect(),
        Synth::Chime => (0..43_200)
            .map(|i| {
                let t = i as f32 / rate;
                let raw = (t * 523.25 * tau).sin()
                    + 0.4 * (t * 523.25 * 2.0 * tau).sin()
                    + 0.2 * (t * 523.25 * 3.0 * tau).sin();
                let decay = if i < 240 {
                    i as f32 / 240.0
                } else {
                    (-((i - 240) as f32 / rate) / 0.18f32).exp()
                };
                let mut s = raw / 1.6 * 0.6 * decay;
                if i >= 43_200 - 720 {
                    s *= (43_200 - i) as f32 / 720.0;
                }
                s
            })
            .collect(),
    }
}

#[test]
fn synthesized_sounds_match_native_arithmetic() {
    for synth in [Synth::SoftBeep, Synth::DoubleBeep, Synth::Chime] {
        let a = render(synth);
        let b = native(synth);
        assert_eq!(a.len(), b.len());
        for (i, (x, y)) in a.iter().zip(&b).enumerate() {
            assert_eq!(x.to_bits(), y.to_bits(), "{synth:?} sample {i}");
        }
    }
}

#[test]
fn durations_are_counted_in_samples() {
    assert_eq!(ms(f(150.0)), 7200);
    assert_eq!(ms(f(10.0)), 480);
    assert_eq!(ms(f(120.0)) * 2 + ms(f(80.0)), 15_360);
    assert_eq!(ms(f(900.0)), 43_200);
    assert_eq!(ms(f(5.0)), 240);
    assert_eq!(ms(f(0.01)), 0);
    assert_eq!(ms(f(0.011)), 1);
}

#[test]
fn envelopes_ramp_at_both_ends() {
    assert_eq!(n(fade_env(0, 100, 10, 20)), 0.0);
    assert_eq!(n(fade_env(5, 100, 10, 20)), 0.5);
    assert_eq!(n(fade_env(50, 100, 10, 20)), 1.0);
    assert_eq!(n(fade_env(90, 100, 10, 20)), 0.5);
    assert_eq!(n(fade_env(99, 100, 10, 20)), 1.0 / 20.0);
}

#[test]
fn sounds_know_where_they_come_from() {
    assert_eq!(BuiltinSound::Chime.data(), SoundData::Synth(Synth::Chime));
    assert_eq!(BuiltinSound::Gong.data(), SoundData::Wav("gong.wav"));
    let recorded = ALL.iter().filter(|s| matches!(s.data(), SoundData::Wav(_))).count();
    assert_eq!(recorded, 9);
}

fn decoded(channels: usize, samples: &[f32]) -> Packet {
    Packet::Decoded { channels, interleaved: samples.iter().map(|&s| f(s)).collect() }
}

#[test]
fn packets_are_mixed_down_and_joined() {
    let mut c = Collector::new(8_000);
    assert!(c.wants_more());
    c.on_packet(&decoded(2, &[0.5, 0.25, 1.0, 0.0, 0.125]));
    c.on_packet(&Packet::OtherTrack);
    c.on_packet(&Packet::Undecodable);
    c.on_packet(&decoded(0, &[0.75]));
    assert!(c.wants_more());
    c.on_packet(&Packet::End);
    assert!(!c.wants_more());
    let (samples, rate) = c.finish().unwrap();
    assert_eq!(rate, 8_000);
    assert_eq!(samples, vec![f(0.375), f(0.5), f(0.75)]);
}

#[test]
fn sounds_longer_than_ten_seconds_are_cut() {
    let mut c = Collector::new(100);
    let second: Vec<f32> = vec![0.25; 300];
    let mut packets = 0;
    while c.wants_more() {
        c.on_packet(&decoded(1, &second));
        packets += 1;
    }
    assert_eq!(packets, 4);
    assert_eq!(c.finish().unwrap().0.len(), 1000);
}

#[test]
fn a_sound_without_samples_is_an_error() {
    let mut c = Collector::new(8_000);
    c.on_packet(&Packet::Undecodable);
    c.on_packet(&Packet::End);
    assert_eq!(c.finish(), Err(DecodeError::NoSamples));
    assert_eq!(DecodeError::NoSamples.message(), "no audio samples decoded");
    assert_eq!(DecodeError::Unrecognized.message(), "unrecognized or corrupt audio file");
    assert_eq!(DecodeError::NoAudioTrack.message(), "no audio track in file");
    assert_eq!(DecodeError::NoCodecParameters.message(), "no usable audio codec parameters");
    assert_eq!(DecodeError::NoSampleRate.message(), "audio track has no sample rate");
    assert_eq!(DecodeError::UnsupportedCodec.message(), "unsupported audio codec");
}
