use std::collections::VecDeque;

use ragequiet::binary32::F32;
use ragequiet::ui::history::{build_segments, sample_x, sample_y, History, HISTORY_CAPACITY};
use ragequiet::ui::meter::{level_color, norm, round_db, Meter, Shape};
use ragequiet::ui::theme::{
    theme, ButtonKind, Color, BACKGROUND, GREEN, RED, SURFACE, TEXT, TEXT_MUTED, YELLOW,
};

fn f(x: f32) -> F32 {
    F32::from_bits(x.to_bits())
}

fn n(x: F32) -> f32 {
    f32::from_bits(x.to_bits())
}

fn place(db: f32) -> f32 {
    n(norm(f(db)))
}

fn color(level_db: f32, threshold_db: f32) -> Color {
    level_color(f(level_db), f(threshold_db))
}

#[test]
fn norm_maps_range() {
    assert_eq!(place(-70.0), 0.0);
    assert_eq!(place(0.0), 1.0);
    assert_eq!(place(-35.0), 0.5);
    assert_eq!(place(-100.0), 0.0);
    assert_eq!(place(10.0), 1.0);
}

#[test]
fn level_color_bands() {
    assert_eq!(color(-40.0, -27.0), GREEN);
    assert_eq!(color(-29.0, -27.0), YELLOW); // within 3 dB below
    assert_eq!(color(-27.0, -27.0), RED);
    assert_eq!(color(-10.0, -27.0), RED);
}

#[test]
fn level_color_treats_non_finite_threshold_as_no_threshold() {
    assert_eq!(color(-40.0, f32::NAN), GREEN);
    assert_eq!(color(0.0, f32::NAN), GREEN);
    assert_eq!(color(-40.0, f32::INFINITY), GREEN);
}

#[test]
fn non_finite_threshold_is_representable_without_panic() {
    let meter = Meter {
        level_db: f(-40.0),
        threshold_db: f(f32::NAN),
        peak_db: f(-35.0),
        noise_floor_db: f(-55.0),
        quiet_db: None,
        ceiling_db: None,
        ceiling_confirmed: false,
    };
    let key = meter.draw_key();
    assert_eq!(key.threshold_db, 0);
    assert!(!meter.threshold_db.is_finite());
}

#[test]
fn draw_key_ignores_sub_db_jitter() {
    let base = Meter {
        level_db: f(-30.2),
        threshold_db: f(-20.0),
        peak_db: f(-25.0),
        noise_floor_db: f(-50.0),
        quiet_db: Some(f(-45.0)),
        ceiling_db: Some(f(-10.0)),
        ceiling_confirmed: true,
    };
    let jittered = Meter { level_db: f(-30.4), ..base };
    assert_eq!(base.draw_key(), jittered.draw_key());

    let moved = Meter { level_db: f(-29.0), ..jittered };
    assert_ne!(base.draw_key(), moved.draw_key());
}

fn rectangle(shape: &Shape) -> (f32, f32, f32, f32, Color, f32) {
    match shape {
        Shape::Rectangle { at, size, ink }
        | Shape::Rounded { at, size, ink, .. }
        | Shape::RoundedLeft { at, size, ink, .. } => {
            (n(at.x), n(at.y), n(size.width), n(size.height), ink.color, n(ink.alpha))
        }
        Shape::Line { .. } => panic!("not a rectangle"),
    }
}

#[test]
fn the_meter_is_painted_back_to_front() {
    let meter = Meter {
        level_db: f(-35.2),
        threshold_db: f(-28.0),
        peak_db: f(-21.0),
        noise_floor_db: f(-56.0),
        quiet_db: Some(f(-42.0)),
        ceiling_db: Some(f(-14.0)),
        ceiling_confirmed: true,
    };
    let shapes = meter.paint(f(350.0), f(48.0));
    let got: Vec<_> = shapes.iter().map(rectangle).collect();
    let tick_h = 48.0f32 * 0.6;
    let tick_y = (48.0 - tick_h) / 2.0;
    let x = |db: f32| ((db + 70.0) / 70.0).clamp(0.0, 1.0) * 350.0;
    assert_eq!(
        got,
        vec![
            (0.0, 0.0, 350.0, 48.0, SURFACE, 1.0),
            (x(-28.0), 0.0, 350.0 - x(-28.0), 48.0, RED, 0.15),
            (0.0, 4.0, 175.0, 40.0, GREEN, 0.85),
            (x(-56.0), tick_y, 2.0, tick_h, TEXT_MUTED, 0.4),
            (x(-42.0), tick_y, 2.0, tick_h, TEXT_MUTED, 1.0),
            (x(-21.0), tick_y, 2.0, tick_h, RED, 0.35),
            (x(-28.0), 0.0, 2.0, 48.0, TEXT, 0.9),
            (x(-14.0), 0.0, 2.0, 48.0, TEXT_MUTED, 1.0),
        ]
    );
}

#[test]
fn an_estimated_ceiling_is_dashed_and_a_missing_threshold_is_not_drawn() {
    let meter = Meter {
        level_db: f(-100.0),
        threshold_db: f(f32::NAN),
        peak_db: f(-100.0),
        noise_floor_db: f(-56.0),
        quiet_db: None,
        ceiling_db: Some(f(0.0)),
        ceiling_confirmed: false,
    };
    let got: Vec<_> = meter.paint(f(350.0), f(50.0)).iter().map(rectangle).collect();
    assert_eq!(got.len(), 5, "panel, noise floor, three dashes");
    assert_eq!(got[2], (348.0, 0.0, 2.0, 10.0, TEXT_MUTED, 1.0));
    assert_eq!(got[3], (348.0, 20.0, 2.0, 10.0, TEXT_MUTED, 1.0));
    assert_eq!(got[4], (348.0, 40.0, 2.0, 10.0, TEXT_MUTED, 1.0));
}

#[test]
fn every_level_has_a_place_on_the_bar() {
    for i in -2000..2000 {
        let p = place(i as f32 / 7.0);
        assert!((0.0..=1.0).contains(&p));
    }
    assert_eq!(place(f32::INFINITY), 1.0);
    assert_eq!(place(f32::NEG_INFINITY), 0.0);
}

const INSET: f32 = 3.0;

fn x_at(i: usize, count: usize, capacity: usize, w: f32) -> f32 {
    n(sample_x(i, count, capacity, f(w)))
}

fn y_at(level_db: f32, h: f32, inset: f32) -> f32 {
    n(sample_y(f(level_db), f(h), f(inset)))
}

fn deque(samples: &[(f32, f32)]) -> VecDeque<(F32, F32)> {
    samples.iter().map(|&(a, b)| (f(a), f(b))).collect()
}

#[test]
fn newest_sample_sits_at_the_right_edge() {
    assert_eq!(x_at(1, 2, 375, 300.0), 300.0);
    assert_eq!(x_at(374, 375, 375, 300.0), 300.0);
}

#[test]
fn second_newest_sample_sits_one_slot_left() {
    let w = 300.0;
    let expected = w - w / 374.0;
    assert!((x_at(0, 2, 375, w) - expected).abs() < 1e-4);
}

#[test]
fn partial_history_occupies_only_the_right_portion() {
    let w = 300.0;
    let oldest_x = x_at(0, 10, 375, w);
    assert!(
        oldest_x > w * 0.9,
        "oldest of 10/375 samples should sit near the right edge, got {oldest_x}"
    );
}

#[test]
fn sample_x_handles_degenerate_capacity_without_panic() {
    assert_eq!(x_at(0, 0, 375, 300.0), 300.0);
    assert_eq!(x_at(0, 1, 1, 300.0), 300.0);
}

#[test]
fn single_sample_draws_no_segments() {
    let samples = deque(&[(-40.0, -27.0)]);
    assert!(build_segments(&samples, 375, f(300.0), f(120.0), f(INSET)).is_empty());
}

#[test]
fn empty_history_draws_no_segments_without_panic() {
    let samples = deque(&[]);
    assert!(build_segments(&samples, 375, f(300.0), f(120.0), f(INSET)).is_empty());
}

#[test]
fn two_samples_draw_one_segment_colored_by_the_newer_one() {
    // green (well under threshold), then red (at threshold)
    let samples = deque(&[(-40.0, -27.0), (-27.0, -27.0)]);
    let segments = build_segments(&samples, 375, f(300.0), f(120.0), f(INSET));
    assert_eq!(segments.len(), 1);
    assert_eq!(segments[0].color, RED);
}

#[test]
fn both_sentinel_endpoints_are_skipped() {
    let samples = deque(&[(-100.0, f32::NAN), (-100.0, f32::NAN), (-40.0, f32::NAN)]);
    let segments = build_segments(&samples, 375, f(300.0), f(120.0), f(INSET));
    assert_eq!(segments.len(), 1);
}

#[test]
fn genuine_quiet_reading_is_not_treated_as_sentinel() {
    let samples = deque(&[(-70.0, -27.0), (-68.0, -27.0)]);
    let segments = build_segments(&samples, 375, f(300.0), f(120.0), f(INSET));
    assert_eq!(segments.len(), 1);
}

#[test]
fn sample_y_maps_range_like_norm_inverted() {
    assert_eq!(y_at(0.0, 120.0, INSET), INSET);
    assert_eq!(y_at(-70.0, 120.0, INSET), 120.0 - INSET);
    assert_eq!(y_at(-100.0, 120.0, INSET), 120.0 - INSET);
}

#[test]
fn the_history_is_painted_behind_its_trace() {
    let samples = deque(&[(-40.0, -27.0), (-35.0, -27.0), (-20.0, -27.0)]);
    let history = History {
        samples: &samples,
        capacity: HISTORY_CAPACITY,
        noise_floor_db: f(-56.0),
        ceiling_db: Some(f(-14.0)),
        ceiling_confirmed: false,
    };
    let shapes = history.paint(f(300.0), f(120.0));
    assert_eq!(shapes.len(), 7, "panel, noise floor, three dashes, two strokes");
    assert_eq!(rectangle(&shapes[1]), (0.0, y_at(-56.0, 120.0, 3.0), 300.0, 1.0, TEXT_MUTED, 0.4));
    assert_eq!(rectangle(&shapes[3]), (120.0, y_at(-14.0, 120.0, 3.0), 60.0, 1.0, TEXT_MUTED, 1.0));
    match &shapes[6] {
        Shape::Line { from, to, width, ink } => {
            assert_eq!(n(from.x), x_at(1, 3, 375, 300.0));
            assert_eq!((n(to.x), n(to.y)), (300.0, y_at(-20.0, 120.0, 3.0)));
            assert_eq!((n(*width), ink.color, n(ink.alpha)), (2.0, RED, 0.9));
        }
        other => panic!("expected a stroke, got {other:?}"),
    }
    let key = history.draw_key();
    assert_eq!(key.len, 3);
    assert_eq!(key.newest, Some((-20, -27)));
    assert_eq!((key.noise_floor_db, key.ceiling_db), (-56, Some(-14)));
}

#[test]
fn theme_uses_green_primary() {
    assert_eq!(theme().primary, GREEN);
}

#[test]
fn palette_colors_are_the_brand_colors() {
    let rgb8 = |c: Color| {
        let rgb = c.rgb();
        [n(rgb.r), n(rgb.g), n(rgb.b)]
    };
    let of = |r: u8, g: u8, b: u8| [r as f32 / 255.0, g as f32 / 255.0, b as f32 / 255.0];
    assert_eq!(rgb8(GREEN), of(0x3e, 0xd6, 0x7a));
    assert_eq!(rgb8(YELLOW), of(0xff, 0xb0, 0x20));
    assert_eq!(rgb8(RED), of(0xff, 0x3b, 0x4a));
    assert_eq!(rgb8(BACKGROUND), of(0x15, 0x17, 0x1c));
    assert_eq!(rgb8(SURFACE), of(0x1d, 0x20, 0x26));
    assert_eq!(rgb8(TEXT), [0.92, 0.92, 0.93]);
    assert_eq!(rgb8(TEXT_MUTED), [0.55, 0.55, 0.58]);
}

#[test]
fn buttons_light_up_under_the_pointer() {
    let fill = |kind: ButtonKind, lit: bool| kind.style(lit).background.map(|i| (i.color, n(i.alpha)));
    assert_eq!(fill(ButtonKind::Primary, false), Some((GREEN, 1.0)));
    assert_eq!(fill(ButtonKind::Primary, true), Some((GREEN, 0.85)));
    assert_eq!(fill(ButtonKind::Secondary, true), Some((SURFACE, 1.0)));
    assert_eq!(fill(ButtonKind::Muted, true), None);
    assert_eq!(ButtonKind::Primary.style(true).text_color, BACKGROUND);
    assert_eq!(ButtonKind::Secondary.style(false).text_color, TEXT_MUTED);
    assert_eq!(ButtonKind::Muted.style(true).text_color, TEXT);
    assert_eq!(ButtonKind::Close.style(true).text_color, RED);
    assert_eq!(ButtonKind::Close.style(false).text_color, TEXT_MUTED);
}

#[test]
fn a_reading_that_is_not_finite_rounds_to_zero() {
    assert_eq!(round_db(f(f32::NAN)), 0);
    assert_eq!(round_db(f(f32::INFINITY)), 0);
    assert_eq!(round_db(f(f32::NEG_INFINITY)), 0);
    assert_eq!(round_db(f(-30.5)), -31);
    assert_eq!(round_db(f(1e30)), i32::MAX);
}

#[test]
fn an_infinite_reading_is_drawn_at_its_end_of_the_scale() {
    let meter = |level: f32, peak: f32| Meter {
        level_db: f(level),
        threshold_db: f(f32::NAN),
        peak_db: f(peak),
        noise_floor_db: f(-55.0),
        quiet_db: None,
        ceiling_db: None,
        ceiling_confirmed: false,
    };
    let (w, h) = (f(350.0), f(48.0));
    let fills = |m: &Meter| {
        m.paint(w, h)
            .iter()
            .filter_map(|s| match s {
                Shape::RoundedLeft { size, .. } => Some(n(size.width)),
                _ => None,
            })
            .collect::<Vec<f32>>()
    };
    let silent = meter(f32::NEG_INFINITY, f32::NEG_INFINITY);
    assert!(fills(&silent).is_empty(), "no bar");
    assert_eq!(silent.paint(w, h).len(), meter(-100.0, -100.0).paint(w, h).len(), "no peak tick");
    assert_eq!(fills(&meter(f32::INFINITY, -100.0)), vec![350.0]);
}
