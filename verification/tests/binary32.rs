use ragequiet::binary32::F32;

fn f(x: f32) -> F32 {
    F32::from_bits(x.to_bits())
}

fn n(x: F32) -> f32 {
    f32::from_bits(x.to_bits())
}

fn same(a: f32, b: f32) -> bool {
    a.to_bits() == b.to_bits() || (a.is_nan() && b.is_nan())
}

/// Edge cases, and patterns spread over the whole range.
fn values() -> Vec<f32> {
    let mut v: Vec<f32> = vec![
        0.0,
        -0.0,
        1.0,
        -1.0,
        0.5,
        1.5,
        2.5,
        3.0,
        -100.0,
        0.1,
        1e-5,
        f32::MIN_POSITIVE,
        f32::MAX,
        f32::MIN,
        f32::INFINITY,
        f32::NEG_INFINITY,
        f32::NAN,
        f32::from_bits(1),
        f32::from_bits(0x8000_0001),
        f32::from_bits(0x007f_ffff),
        f32::from_bits(0x3f7f_ffff),
        f32::from_bits(0x3f80_0001),
        16_777_216.0,
        16_777_215.0,
        4_294_967_296.0,
    ];
    let mut x: u32 = 0x1234_5678;
    for _ in 0..150 {
        x = x.wrapping_mul(1_664_525).wrapping_add(1_013_904_223);
        v.push(f32::from_bits(x));
        // Something near one, where sums cancel and products round.
        v.push(f32::from_bits(0x3f00_0000 + (x >> 7)));
    }
    v
}

#[test]
fn arithmetic_agrees_with_the_machine() {
    let v = values();
    for &a in &v {
        for &b in &v {
            assert!(same(n(f(a).add(f(b))), a + b), "{a} + {b}");
            assert!(same(n(f(a).sub(f(b))), a - b), "{a} - {b}");
            assert!(same(n(f(a).mul(f(b))), a * b), "{a} * {b}");
            assert!(same(n(f(a).div(f(b))), a / b), "{a} / {b}");
        }
    }
}

#[test]
fn comparisons_agree_with_the_machine() {
    let v = values();
    for &a in &v {
        for &b in &v {
            assert_eq!(f(a).lt(f(b)), a < b, "{a} < {b}");
            assert_eq!(f(a).le(f(b)), a <= b, "{a} <= {b}");
            assert_eq!(
                f(a).order_key() < f(b).order_key(),
                a.total_cmp(&b) == std::cmp::Ordering::Less,
                "{a} before {b}"
            );
            if a != 0.0 || b != 0.0 {
                assert!(same(n(f(a).max(f(b))), a.max(b)), "max {a} {b}");
            }
        }
    }
}

#[test]
fn square_roots_agree_with_the_machine() {
    for &a in &values() {
        assert!(same(n(f(a).sqrt()), a.sqrt()), "sqrt {a}");
    }
    for bits in (0x3f00_0000u32..0x4100_0000).step_by(65_537) {
        let a = f32::from_bits(bits);
        assert!(same(n(f(a).sqrt()), a.sqrt()), "sqrt {a}");
    }
}

#[test]
fn clamping_agrees_with_the_machine() {
    for &a in &values() {
        assert!(same(n(f(a).clamp(f(0.0), f(1.0))), a.clamp(0.0, 1.0)), "{a}");
        assert!(same(n(f(a).clamp(f(-1.0), f(1.0))), a.clamp(-1.0, 1.0)), "{a}");
    }
}

#[test]
fn casts_agree_with_the_machine() {
    let mut v = values();
    for i in 0..2000 {
        v.push(i as f32 * 33.3 - 33_000.0);
        v.push(i as f32 / 4.0);
    }
    for &a in &v {
        assert_eq!(f(a).to_u64(), a as u64, "{a}");
        assert_eq!(f(a).to_u32(), a as u32, "{a}");
        assert_eq!(f(a).to_u16(), a as u16, "{a}");
        assert_eq!(f(a).to_i16(), a as i16, "{a}");
        assert_eq!(f(a).round_to_i32(), a.round() as i32, "{a}");
        assert_eq!(f(a).round_to_u64(), a.round() as u64, "{a}");
    }
}

#[test]
fn integers_convert_as_on_the_machine() {
    let mut x: u64 = 0x0123_4567_89ab_cdef;
    for shift in 0..64u32 {
        x = x.wrapping_mul(6_364_136_223_846_793_005).wrapping_add(1);
        let y = x >> shift;
        assert_eq!(n(F32::from_u64(y)).to_bits(), (y as f32).to_bits(), "{y}");
        assert_eq!(n(F32::from_u32(y as u32)).to_bits(), (y as u32 as f32).to_bits());
        assert_eq!(n(F32::from_i32(y as i32)).to_bits(), (y as i32 as f32).to_bits());
        assert_eq!(n(F32::from_usize(y as usize)).to_bits(), (y as usize as f32).to_bits());
    }
}

#[test]
fn ratios_are_the_decimal_literals() {
    assert_eq!(n(F32::ratio(1, 100_000)), 1e-5);
    assert_eq!(n(F32::ratio(8, 10)), 0.8);
    assert_eq!(n(F32::ratio(35, 100)), 0.35);
    assert_eq!(n(F32::ratio(2093, 4)), 523.25);
    assert_eq!(n(F32::ratio(18, 100)), 0.18);
    assert_eq!(n(F32::ratio(65535, 2)), 32767.5);
    assert_eq!(n(F32::ratio(92, 100)), 0.92);
}

#[test]
fn patterns_are_told_apart() {
    assert!(f(f32::NAN).is_nan());
    assert!(!f(f32::INFINITY).is_nan());
    assert!(f(f32::INFINITY).is_infinite());
    assert!(!f(f32::INFINITY).is_finite());
    assert!(f(f32::MAX).is_finite());
    assert!(f(-0.0).is_negative());
    assert_eq!(f(2.0).neg(), f(-2.0));
    assert!(F32::quiet_nan().is_nan());
}
