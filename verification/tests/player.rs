use std::sync::Arc;

use ragequiet::binary32::F32;
use ragequiet::player::{
    advance, mix_sample, to_i16, to_u16, PlayRequest, Playback, Worker, WorkerAction,
};

fn f(x: f32) -> F32 {
    F32::from_bits(x.to_bits())
}

fn n(x: F32) -> f32 {
    f32::from_bits(x.to_bits())
}

fn step_on(acc: f32, step: f32, pos: usize) -> (f32, usize) {
    let (acc, pos) = advance(f(acc), f(step), pos);
    (n(acc), pos)
}

fn mix(sample: f32, volume: f32) -> f32 {
    n(mix_sample(f(sample), f(volume)))
}

fn playback(samples: &[f32], step: f32) -> Playback {
    Playback {
        samples: Arc::new(samples.iter().map(|&s| f(s)).collect()),
        volume: f(1.0),
        step: f(step),
        acc: f(0.0),
        pos: 0,
        active: true,
    }
}

fn request(samples: &[f32], source_rate: u32, device_name: Option<&str>) -> PlayRequest {
    PlayRequest {
        samples: Arc::new(samples.iter().map(|&s| f(s)).collect()),
        source_rate,
        volume: f(0.5),
        device_name: device_name.map(|s| s.to_string()),
    }
}

#[test]
fn advance_at_unity_step_moves_one_position_per_tick_with_zero_acc() {
    let (mut acc, mut pos) = (0.0f32, 0usize);
    for expected_pos in 1..=5usize {
        (acc, pos) = step_on(acc, 1.0, pos);
        assert_eq!(pos, expected_pos);
        assert!(acc.abs() < 1e-6, "acc should stay 0 at unity step, got {acc}");
    }
}

#[test]
fn advance_with_step_above_one_occasionally_skips_a_position() {
    // out_rate(44100) < source_rate(48000): step > 1, so position should
    // advance by 2 on some ticks (a skipped source sample) while
    // averaging out to `step` over many ticks.
    let step = 48_000.0f32 / 44_100.0f32;
    assert!(step > 1.0);
    let (mut acc, mut pos) = (0.0f32, 0usize);
    let mut saw_a_skip = false;
    let ticks = 200;
    for _ in 0..ticks {
        let prev_pos = pos;
        (acc, pos) = step_on(acc, step, pos);
        let delta = pos - prev_pos;
        assert!(delta == 1 || delta == 2, "unexpected per-tick delta {delta}");
        if delta == 2 {
            saw_a_skip = true;
        }
    }
    assert!(saw_a_skip, "expected at least one skipped source sample");
    let ratio = pos as f32 / ticks as f32;
    assert!((ratio - step).abs() < 0.01, "average advance {ratio} should track step {step}");
}

#[test]
fn advance_with_half_step_repeats_each_position_twice() {
    // out_rate(96000) > source_rate(48000): step = 0.5, so each source
    // position is read on two consecutive output ticks before moving on.
    let step = 0.5f32;
    let (mut acc, mut pos) = (0.0f32, 0usize);
    let mut positions = Vec::new();
    for _ in 0..8 {
        positions.push(pos);
        (acc, pos) = step_on(acc, step, pos);
    }
    assert_eq!(positions, vec![0, 0, 1, 1, 2, 2, 3, 3]);
}

#[test]
fn next_sample_terminates_cleanly_at_end_of_buffer() {
    let mut pb = playback(&[0.5, -0.5, 0.25], 1.0);
    assert_eq!(n(pb.next_sample()), 0.5);
    assert_eq!(n(pb.next_sample()), -0.5);
    assert_eq!(n(pb.next_sample()), 0.25);
    // Buffer exhausted: goes silent and stays silent, never panics.
    assert_eq!(n(pb.next_sample()), 0.0);
    assert!(!pb.active);
    assert_eq!(n(pb.next_sample()), 0.0);
}

#[test]
fn mix_sample_clamps_the_sample_after_scaling() {
    assert_eq!(mix(2.0, 0.5), 1.0);
    assert_eq!(mix(-2.0, 0.5), -1.0);
    assert!((mix(0.4, 0.5) - 0.2).abs() < 1e-6);
}

#[test]
fn mix_sample_clamps_an_out_of_range_volume_first() {
    // volume > 1 should be clamped to 1, not left to blow up the product.
    assert_eq!(mix(0.5, 3.0), 0.5);
    // negative volume clamps to 0: silence, not a phase flip.
    assert_eq!(mix(0.5, -1.0), 0.0);
}

#[test]
fn inactive_playback_produces_silence() {
    let mut pb = Playback::silent();
    assert_eq!(n(pb.next_sample()), 0.0);
    assert!(!pb.active);
}

/// Pins what the worker says of its last open: nothing at first, a failure
/// once one was set, and nothing again after an open that succeeds.
#[test]
fn shared_error_state_reads_back_what_was_set_and_clears() {
    let mut worker = Worker::new();
    let read = |w: &Worker| w.last_error().map(|s| s.to_string());

    assert_eq!(read(&worker), None);

    worker.open_failed();
    assert_eq!(read(&worker), Some("Couldn't open the output device".to_string()));

    worker.opened(&request(&[], 48_000, None), 44_100);
    assert_eq!(read(&worker), None);
}

#[test]
fn advance_counts_whole_positions_exactly() {
    for &(acc, step) in &[(0.25f32, 7.5f32), (0.0, 16_777_216.0), (0.9, 0.05), (0.75, 0.25)] {
        let (mut a, mut p) = (acc + step, 10usize);
        while a >= 1.0 {
            a -= 1.0;
            p += 1;
        }
        assert_eq!(step_on(acc, step, 10), (a, p), "{acc} + {step}");
    }
}

#[test]
fn a_failed_open_is_logged_once_and_retried() {
    let mut worker = Worker::new();
    let req = request(&[0.1], 48_000, Some("Speakers"));
    assert!(worker.need_reopen(&req));
    assert!(worker.open_failed(), "the first failure is logged");
    assert!(!worker.open_failed(), "the second is not");
    assert!(worker.need_reopen(&req));
    worker.opened(&req, 44_100);
    assert!(!worker.need_reopen(&req));
    assert!(worker.need_reopen(&request(&[], 48_000, None)));
    assert!(worker.need_reopen(&request(&[], 48_000, Some("Headset"))));
    assert!(worker.open_failed(), "after a success a failure is news again");
}

#[test]
fn a_request_starts_from_the_top_at_the_ratio_of_the_rates() {
    let mut worker = Worker::new();
    let req = request(&[0.5, 0.25], 48_000, None);
    worker.opened(&req, 24_000);
    let mut pb = Playback::silent();
    worker.begin(req, &mut pb);
    assert_eq!(n(pb.step), 2.0);
    assert!(pb.active && pb.pos == 0);
    assert_eq!(n(pb.next_sample()), 0.25, "scaled by the volume");
    assert_eq!(n(pb.next_sample()), 0.0, "the second sample is skipped over");

    let mut unopened = Worker::new();
    assert!(unopened.on_idle_timeout(false));
}

#[test]
fn the_idle_timer_never_cuts_a_sound_off() {
    let mut worker = Worker::new();
    let req = request(&[0.5], 48_000, Some("Speakers"));
    worker.opened(&req, 48_000);
    assert!(!worker.on_idle_timeout(true));
    assert!(worker.open);
    assert!(worker.on_idle_timeout(false));
    assert!(!worker.open);
    assert!(worker.need_reopen(&req));
}

#[test]
fn frames_repeat_one_value_per_channel() {
    let mut pb = playback(&[0.5, -0.5, 0.25, 1.0], 1.0);
    let data: Vec<f32> = pb.write_frames(7, 2).into_iter().map(n).collect();
    assert_eq!(data, vec![0.5, 0.5, -0.5, -0.5, 0.25, 0.25, 1.0]);
    assert_eq!(n(pb.next_sample()), 0.0);
}

#[test]
fn samples_are_scaled_to_the_device_format() {
    for v in [-2.0f32, -1.0, -0.3, 0.0, 0.3, 0.5, 1.0, 2.0, f32::NAN] {
        assert_eq!(to_i16(f(v)), (v.clamp(-1.0, 1.0) * 32767.0) as i16, "{v}");
        assert_eq!(to_u16(f(v)), ((v.clamp(-1.0, 1.0) + 1.0) * 32767.5) as u16, "{v}");
    }
    assert_eq!(to_i16(f(1.0)), 32767);
    assert_eq!(to_u16(f(-1.0)), 0);
    assert_eq!(to_u16(f(1.0)), 65535);
}

#[test]
fn equal_rates_play_the_buffer_as_it_is() {
    let samples: Vec<f32> = (0..100).map(|i| (i as f32 - 50.0) / 60.0).collect();
    let mut pb = playback(&samples, 1.0);
    for &s in &samples {
        assert_eq!(n(pb.next_sample()), s);
    }
    for _ in 0..3 {
        assert_eq!(n(pb.next_sample()), 0.0);
    }
}

#[test]
fn no_volume_is_louder_than_the_sample() {
    for sample in [-2.0f32, -0.7, 0.0, 0.5, 1e30] {
        for volume in [f32::NAN, -f32::NAN, f32::INFINITY, f32::NEG_INFINITY, -1.0, 0.3, 3.0] {
            let r = mix(sample, volume);
            assert!((-1.0..=1.0).contains(&r), "{sample} at {volume}: {r}");
            assert!(r.abs() <= sample.abs(), "{sample} at {volume}: {r}");
        }
        assert_eq!(mix(sample, f32::NAN), 0.0, "a volume that is no number is silence");
    }
    assert_eq!(mix(0.5, 3.0), 0.5);
    assert_eq!(mix(0.5, -1.0), 0.0);
}

#[test]
fn a_request_opens_then_begins() {
    let mut worker = Worker::new();
    let req = request(&[0.5], 48_000, Some("Speakers"));
    assert_eq!(worker.on_request(&req), WorkerAction::Open);
    worker.open_failed();
    assert_eq!(worker.on_request(&req), WorkerAction::Open);
    worker.opened(&req, 48_000);
    assert_eq!(worker.on_request(&req), WorkerAction::Begin);
    assert_eq!(worker.on_request(&request(&[0.5], 48_000, None)), WorkerAction::Open);
}

/// A worker's playback of a request on a stream of the given rate.
fn begun(samples: &[f32], source_rate: u32, out_rate: u32) -> Playback {
    let mut worker = Worker::new();
    let req = request(samples, source_rate, None);
    worker.opened(&req, out_rate);
    assert_eq!(worker.on_request(&req), WorkerAction::Begin);
    let mut pb = playback(&[0.1; 9], 1.0);
    assert!(!worker.handle(req, None, &mut pb));
    pb
}

#[test]
fn every_request_on_an_open_stream_replaces_the_playback() {
    let mut fast = begun(&[0.5; 400], 9_000_000, 48_000);
    assert_eq!(n(fast.step), 187.5);
    let data: Vec<f32> = fast.write_frames(4, 1).into_iter().map(n).collect();
    assert_eq!(data, [0.25, 0.25, 0.25, 0.0]);

    // an empty buffer goes silent, even on a stream without a rate
    let mut empty = begun(&[], 48_000, 0);
    assert!(empty.active && empty.pos == 0);
    assert_eq!(n(empty.next_sample()), 0.0);
    assert!(!empty.active);

    // the counting just ends: the first one taken off takes two with it
    let mut top = begun(&[0.5], 16_777_218, 1);
    assert_eq!(n(top.next_sample()), 0.25);
    assert_eq!((n(top.acc), top.pos, top.active), (0.0, 16_777_217, false));
}

#[test]
fn a_step_without_an_end_to_the_counting_ends_the_sound() {
    for (source, out) in [(16_777_220, 1), (u32::MAX, 1), (48_000, 0)] {
        let mut pb = begun(&[0.5, 0.5], source, out);
        assert_eq!(n(pb.next_sample()), 0.25, "{source} on {out}");
        assert!(!pb.active);
        assert_eq!(n(pb.next_sample()), 0.0);
    }
    // neither rate known: the step is no number, and nothing ever moves on
    let mut still = begun(&[0.5, 0.3], 0, 0);
    for _ in 0..5 {
        assert_eq!(n(still.next_sample()), 0.25);
    }
    assert!(still.active && still.pos == 0);
}

#[test]
fn a_failed_open_leaves_the_playback_alone() {
    let mut worker = Worker::new();
    let mut pb = playback(&[0.1, 0.2], 1.0);
    pb.next_sample();
    assert!(worker.handle(request(&[0.5], 48_000, Some("Speakers")), None, &mut pb));
    assert!(!worker.handle(request(&[0.5], 48_000, Some("Speakers")), None, &mut pb));
    assert_eq!(worker.last_error(), Some("Couldn't open the output device"));
    assert!(!worker.open);
    assert_eq!(n(pb.next_sample()), 0.2, "still playing");

    pb = playback(&[0.1, 0.2], 1.0);
    assert!(!worker.handle(request(&[0.5], 48_000, Some("Speakers")), Some(24_000), &mut pb));
    assert_eq!(worker.last_error(), None);
    assert!(worker.open && worker.out_rate == 24_000);
    assert_eq!((n(pb.step), pb.pos, pb.active), (2.0, 0, true));
    assert_eq!(n(pb.next_sample()), 0.25);
}
