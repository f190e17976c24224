use ragequiet::audio::{preferred_device_index, resolve_device, DeviceChoice, FrameBuilder};
use ragequiet::binary32::F32;
use ragequiet::engine::{FRAME_SIZE, SAMPLE_RATE};

fn f(x: f32) -> F32 {
    F32::from_bits(x.to_bits())
}

fn n(x: F32) -> f32 {
    f32::from_bits(x.to_bits())
}

fn all(xs: &[f32]) -> Vec<F32> {
    xs.iter().map(|&x| f(x)).collect()
}

#[test]
fn stereo_is_averaged_to_mono() {
    // 16 kHz stereo in (no resampling): L=0.8, R=0.2 -> mono 0.5
    let mut fb = FrameBuilder::new(SAMPLE_RATE, 2);
    let interleaved: Vec<f32> =
        std::iter::repeat_n([0.8f32, 0.2f32], FRAME_SIZE).flatten().collect();
    let frames = fb.push(&all(&interleaved));
    for frame in &frames {
        assert!(frame.iter().all(|&s| (n(s) - 0.5).abs() < 1e-6));
    }
    assert_eq!(frames.len(), 1);
}

#[test]
fn decimates_48k_to_16k() {
    // 512*3 mono samples at 48 kHz -> exactly one 512-sample frame
    let mut fb = FrameBuilder::new(48_000, 1);
    let frames = fb.push(&all(&vec![0.1f32; FRAME_SIZE * 3]));
    for frame in &frames {
        assert_eq!(frame.len(), FRAME_SIZE);
    }
    assert_eq!(frames.len(), 1);
}

#[test]
fn partial_input_carries_over_between_pushes() {
    let mut fb = FrameBuilder::new(SAMPLE_RATE, 1);
    let mut frames = 0;
    frames += fb.push(&all(&vec![0.0f32; 300])).len();
    assert_eq!(frames, 0);
    frames += fb.push(&all(&vec![0.0f32; 212])).len();
    assert_eq!(frames, 1);
}

fn names(list: &[&str]) -> Vec<String> {
    list.iter().map(|s| s.to_string()).collect()
}

#[test]
fn no_preference_resolves_to_the_default_device() {
    assert_eq!(preferred_device_index(None, &names(&["Mic A", "Mic B"])), None);
}

#[test]
fn a_named_preference_picks_its_exact_entry() {
    assert_eq!(preferred_device_index(Some("Mic B"), &names(&["Mic A", "Mic B"])), Some(1));
}

#[test]
fn a_missing_preference_falls_back_to_the_default_device() {
    assert_eq!(preferred_device_index(Some("Unplugged"), &names(&["Mic A", "Mic B"])), None);
    assert_eq!(preferred_device_index(Some("Mic A"), &[]), None);
}

#[test]
fn preference_matching_is_exact_not_fuzzy() {
    // Device names are driver-supplied text; a near-miss is a different
    // device, not this one.
    assert_eq!(preferred_device_index(Some("Mic"), &names(&["Mic A"])), None);
    assert_eq!(preferred_device_index(Some("mic a"), &names(&["Mic A"])), None);
}

#[test]
fn duplicate_device_names_resolve_to_the_first_match() {
    assert_eq!(preferred_device_index(Some("Mic A"), &names(&["Mic A", "Mic A"])), Some(0));
}

#[test]
fn non_integer_ratio_produces_expected_frame_count() {
    // 44.1 kHz -> 16 kHz: 44100 samples in one second -> ~16000 out -> 31 full frames
    let mut fb = FrameBuilder::new(44_100, 1);
    let frames = fb.push(&all(&vec![0.0f32; 44_100]));
    assert_eq!(frames.len(), 31);
}

#[test]
fn unlisted_devices_resolve_to_the_system_default() {
    let listed = names(&["Mic A", "Mic B"]);
    assert_eq!(resolve_device(Some("Mic B"), Some(&listed)), DeviceChoice::Listed(1));
    assert_eq!(resolve_device(Some("Mic C"), Some(&listed)), DeviceChoice::SystemDefault);
    assert_eq!(resolve_device(Some("Mic B"), None), DeviceChoice::SystemDefault);
    assert_eq!(resolve_device(None, Some(&listed)), DeviceChoice::SystemDefault);
}

#[test]
fn every_third_sample_is_kept_at_48k() {
    let mut fb = FrameBuilder::new(48_000, 1);
    let input: Vec<f32> = (0..FRAME_SIZE * 3).map(|i| i as f32).collect();
    let frames = fb.push(&all(&input));
    assert_eq!(frames.len(), 1);
    for (i, s) in frames[0].iter().enumerate() {
        assert_eq!(n(*s), (3 * i + 2) as f32);
    }
}

#[test]
fn frames_match_native_arithmetic_at_an_odd_rate() {
    let input: Vec<f32> = (0..3000).map(|i| ((i * 37 % 101) as f32 - 50.0) / 61.0).collect();
    let mut fb = FrameBuilder::new(22_050, 3);
    let frames = fb.push(&all(&input));
    let step = 22_050f32 / 16_000f32;
    let mut acc = 0.0f32;
    let mut kept: Vec<f32> = Vec::new();
    for chunk in input.chunks_exact(3) {
        let mono = chunk.iter().sum::<f32>() / 3.0;
        acc += 1.0;
        if acc >= step {
            acc -= step;
            kept.push(mono);
        }
    }
    assert_eq!(frames.len(), kept.len() / FRAME_SIZE);
    for (i, frame) in frames.iter().enumerate() {
        for (k, s) in frame.iter().enumerate() {
            assert_eq!(n(*s).to_bits(), kept[i * FRAME_SIZE + k].to_bits());
        }
    }
}

#[test]
fn cutting_the_input_does_not_change_the_frames() {
    let input: Vec<f32> = (0..4000).map(|i| (i as f32 * 0.01).sin()).collect();
    let mut whole = FrameBuilder::new(SAMPLE_RATE, 2);
    let expected = whole.push(&all(&input));
    let mut cut = FrameBuilder::new(SAMPLE_RATE, 2);
    let mut frames = cut.push(&all(&input[..1234]));
    frames.extend(cut.push(&all(&input[1234..])));
    assert_eq!(frames, expected);
    assert_eq!(frames.len(), 3);
}

#[test]
fn sixteen_bit_samples_are_scaled_around_silence() {
    let mut fb = FrameBuilder::new(SAMPLE_RATE, 1);
    let mut data: Vec<i16> = vec![i16::MIN, -1, 0, 1, i16::MAX];
    data.resize(FRAME_SIZE, 0);
    let frames = fb.push_i16(&data);
    assert_eq!(frames.len(), 1);
    for (d, s) in data.iter().zip(&frames[0]) {
        assert_eq!(n(*s), *d as f32 / 32768.0);
    }

    let mut fb = FrameBuilder::new(SAMPLE_RATE, 1);
    let mut data: Vec<u16> = vec![0, 1, 32767, 32768, u16::MAX];
    data.resize(FRAME_SIZE, 32768);
    let frames = fb.push_u16(&data);
    assert_eq!(frames.len(), 1);
    for (d, s) in data.iter().zip(&frames[0]) {
        assert_eq!(n(*s), (*d as f32 - 32768.0) / 32768.0);
    }
}

#[test]
fn sixteen_bit_buffers_are_grouped_whole() {
    // A long buffer, with channel counts that divide no power of two.
    for channels in [1u16, 3, 5, 6] {
        let len = 6144 * channels as usize / 2 * 2;
        let data: Vec<i16> = (0..len).map(|i| (i * 37 % 30_000) as i16).collect();
        let scaled: Vec<f32> = data.iter().map(|&s| s as f32 / 32768.0).collect();
        let mut fb = FrameBuilder::new(SAMPLE_RATE, channels);
        let mut whole = FrameBuilder::new(SAMPLE_RATE, channels);
        assert_eq!(fb.push_i16(&data), whole.push(&all(&scaled)));
        assert_eq!(fb.push_i16(&data), whole.push(&all(&scaled)), "the second time, too");

        let data: Vec<u16> = (0..len).map(|i| (i * 37 % 65_000) as u16).collect();
        let scaled: Vec<f32> = data.iter().map(|&s| (s as f32 - 32768.0) / 32768.0).collect();
        let mut fb = FrameBuilder::new(SAMPLE_RATE, channels);
        let mut whole = FrameBuilder::new(SAMPLE_RATE, channels);
        assert_eq!(fb.push_u16(&data), whole.push(&all(&scaled)));
    }
    let mut fb = FrameBuilder::new(SAMPLE_RATE, 6);
    assert_eq!(fb.push_i16(&vec![0; 6144]).len(), 2);
}

#[test]
fn a_slow_device_still_gives_frames_at_the_frame_rate() {
    // One second each: ~16000 out -> 31 full frames.
    for rate in [8_000u32, 11_025, 12_000, 4_000, 15_999] {
        let mut fb = FrameBuilder::new(rate, 1);
        assert_eq!(fb.push(&all(&vec![0.0; rate as usize])).len(), 31, "{rate} Hz");
    }
}

#[test]
fn at_half_rate_every_sample_comes_out_twice() {
    let mut fb = FrameBuilder::new(8_000, 1);
    let input: Vec<f32> = (0..FRAME_SIZE / 2).map(|i| i as f32).collect();
    let frames = fb.push(&all(&input));
    assert_eq!(frames.len(), 1);
    for (i, s) in frames[0].iter().enumerate() {
        assert_eq!(n(*s), (i / 2) as f32);
    }
}

#[test]
fn a_device_without_a_rate_is_passed_through() {
    let mut fb = FrameBuilder::new(0, 1);
    let input: Vec<f32> = (0..FRAME_SIZE).map(|i| i as f32).collect();
    assert_eq!(fb.push(&all(&input)), vec![all(&input)]);
}
