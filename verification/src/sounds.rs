//! Built-in alert sound bank: three synthesized in code plus nine recorded
//! sounds.

use vstd::prelude::*;
#[allow(unused_imports)]
use vstd::arithmetic::power2::{lemma2_to64, lemma_pow2_adds, lemma_pow2_pos, pow2};

#[allow(unused_imports)]
use crate::binary32::order::{
    lemma_add_order, lemma_div_monotone, lemma_grid_rounds_to_itself, lemma_int_mul,
    lemma_int_rounds_to_itself, lemma_mul_shrinks, lemma_neg_scaled, lemma_of_int_exact,
    lemma_of_int_monotone, lemma_of_int_zero, lemma_rounded_cancels, lemma_rounded_is_nearest,
    lemma_rounded_monotone, lemma_whole_scaled_on_grid, lemma_zero_absorbs, positive, unit,
};
#[allow(unused_imports)]
use crate::binary32::round::rounded;
#[allow(unused_imports)]
use crate::binary32::{
    grid, lemma_grid_monotone, lemma_grid_step, lemma_scaled_order, F32, INF_MAG,
};

verus! {

pub const SOUND_RATE: u32 = 48_000;

#[derive(Debug, Clone, Copy, PartialEq, Eq, Structural)]
pub enum BuiltinSound {
    SoftBeep,
    DoubleBeep,
    Chime,
    AlarmClock,
    Barking,
    DoorKnock,
    ShutUp,
    Yelp,
    Gong,
    Rahhh,
    Shh,
    SonarPing,
}

pub const ALL: [BuiltinSound; 12] = [
    BuiltinSound::SoftBeep,
    BuiltinSound::DoubleBeep,
    BuiltinSound::Chime,
    BuiltinSound::AlarmClock,
    BuiltinSound::Barking,
    BuiltinSound::DoorKnock,
    BuiltinSound::ShutUp,
    BuiltinSound::Yelp,
    BuiltinSound::Gong,
    BuiltinSound::Rahhh,
    BuiltinSound::Shh,
    BuiltinSound::SonarPing,
];

/// A built-in sound's underlying data: synthesized in code, or a recording.
#[derive(Debug, Clone, Copy, PartialEq, Eq)]
pub enum SoundData {
    Synth(Synth),
    /// The file name of the recorded WAV.
    Wav(&'static str),
}

/// The sounds that are synthesized.
#[derive(Debug, Clone, Copy, PartialEq, Eq, Structural)]
pub enum Synth {
    SoftBeep,
    DoubleBeep,
    Chime,
}

impl BuiltinSound {
    pub open spec fn name(self) -> &'static str {
        match self {
            BuiltinSound::SoftBeep => "Soft beep",
            BuiltinSound::DoubleBeep => "Double beep",
            BuiltinSound::Chime => "Chime",
            BuiltinSound::AlarmClock => "Alarm clock",
            BuiltinSound::Barking => "Barking",
            BuiltinSound::DoorKnock => "Door knock",
            BuiltinSound::ShutUp => "Shut up",
            BuiltinSound::Yelp => "Yelp",
            BuiltinSound::Gong => "Gong",
            BuiltinSound::Rahhh => "Rahhh",
            BuiltinSound::Shh => "Shh",
            BuiltinSound::SonarPing => "Sonar ping",
        }
    }

    pub fn label(&self) -> (r: &'static str)
        ensures
            r == self.name(),
    {
        match self {
            BuiltinSound::SoftBeep => "Soft beep",
            BuiltinSound::DoubleBeep => "Double beep",
            BuiltinSound::Chime => "Chime",
            BuiltinSound::AlarmClock => "Alarm clock",
            BuiltinSound::Barking => "Barking",
            BuiltinSound::DoorKnock => "Door knock",
            BuiltinSound::ShutUp => "Shut up",
            BuiltinSound::Yelp => "Yelp",
            BuiltinSound::Gong => "Gong",
            BuiltinSound::Rahhh => "Rahhh",
            BuiltinSound::Shh => "Shh",
            BuiltinSound::SonarPing => "Sonar ping",
        }
    }

    pub open spec fn source(self) -> SoundData {
        match self {
            BuiltinSound::SoftBeep => SoundData::Synth(Synth::SoftBeep),
            BuiltinSound::DoubleBeep => SoundData::Synth(Synth::DoubleBeep),
            BuiltinSound::Chime => SoundData::Synth(Synth::Chime),
            BuiltinSound::AlarmClock => SoundData::Wav("alarmclock.wav"),
            BuiltinSound::Barking => SoundData::Wav("barking.wav"),
            BuiltinSound::DoorKnock => SoundData::Wav("doorknocking.wav"),
            BuiltinSound::ShutUp => SoundData::Wav("femaleshutup.wav"),
            BuiltinSound::Yelp => SoundData::Wav("femaleyelp.wav"),
            BuiltinSound::Gong => SoundData::Wav("gong.wav"),
            BuiltinSound::Rahhh => SoundData::Wav("rahhh.wav"),
            BuiltinSound::Shh => SoundData::Wav("shh.wav"),
            BuiltinSound::SonarPing => SoundData::Wav("sonarping.wav"),
        }
    }

    /// This sound's underlying data — a synth for the three
    /// synthesized built-ins, or the WAV of a recorded one.
    pub fn data(&self) -> (r: SoundData)
        ensures
            r == self.source(),
    {
        match self {
            BuiltinSound::SoftBeep => SoundData::Synth(Synth::SoftBeep),
            BuiltinSound::DoubleBeep => SoundData::Synth(Synth::DoubleBeep),
            BuiltinSound::Chime => SoundData::Synth(Synth::Chime),
            BuiltinSound::AlarmClock => SoundData::Wav("alarmclock.wav"),
            BuiltinSound::Barking => SoundData::Wav("barking.wav"),
            BuiltinSound::DoorKnock => SoundData::Wav("doorknocking.wav"),
            BuiltinSound::ShutUp => SoundData::Wav("femaleshutup.wav"),
            BuiltinSound::Yelp => SoundData::Wav("femaleyelp.wav"),
            BuiltinSound::Gong => SoundData::Wav("gong.wav"),
            BuiltinSound::Rahhh => SoundData::Wav("rahhh.wav"),
            BuiltinSound::Shh => SoundData::Wav("shh.wav"),
            BuiltinSound::SonarPing => SoundData::Wav("sonarping.wav"),
        }
    }
}

/// No two sounds have the same label.
pub proof fn law_labels_are_distinct(a: BuiltinSound, b: BuiltinSound)
    requires
        a != b,
    ensures
        a.name()@ != b.name()@,
{
    reveal_strlit("Soft beep");
    reveal_strlit("Double beep");
    reveal_strlit("Chime");
    reveal_strlit("Alarm clock");
    reveal_strlit("Barking");
    reveal_strlit("Door knock");
    reveal_strlit("Shut up");
    reveal_strlit("Yelp");
    reveal_strlit("Gong");
    reveal_strlit("Rahhh");
    reveal_strlit("Shh");
    reveal_strlit("Sonar ping");
    // Labels of equal length differ in their first letter.
    assert(a.name()@.len() == b.name()@.len() ==> a.name()@[0] != b.name()@[0]);
}

/// The list names every sound.
pub proof fn law_the_list_is_complete(sound: BuiltinSound)
    ensures
        ALL@.contains(sound),
{
    let i: int = match sound {
        BuiltinSound::SoftBeep => 0,
        BuiltinSound::DoubleBeep => 1,
        BuiltinSound::Chime => 2,
        BuiltinSound::AlarmClock => 3,
        BuiltinSound::Barking => 4,
        BuiltinSound::DoorKnock => 5,
        BuiltinSound::ShutUp => 6,
        BuiltinSound::Yelp => 7,
        BuiltinSound::Gong => 8,
        BuiltinSound::Rahhh => 9,
        BuiltinSound::Shh => 10,
        BuiltinSound::SonarPing => 11,
    };
    assert(ALL@[i] == sound);
}

/// The bits of the full circle, 2 pi.
pub const TAU_BITS: u32 = 0x40c9_0fdb;

/// How many samples a duration takes at [`SOUND_RATE`], rounded.
pub open spec fn samples_in(duration_ms: F32) -> int {
    F32::of_int(SOUND_RATE as int).mul_spec(duration_ms).div_spec(F32::of_int(1000)).round_int(
        0,
        u64::MAX as int,
    )
}

/// Convert a duration in milliseconds to a sample count at [`SOUND_RATE`].
pub fn ms(duration_ms: F32) -> (r: u64)
    ensures
        r == samples_in(duration_ms),
{
    F32::from_u32(SOUND_RATE).mul(duration_ms).div(F32::from_i32(1000)).round_to_u64()
}

/// Linear fade envelope: ramps 0->1 over the first `attack` samples, holds
/// at 1, then ramps 1->0 over the final `release` samples of a `total`
/// sample buffer.
pub open spec fn envelope(i: int, total: int, attack: int, release: int) -> F32 {
    if i < attack {
        F32::of_int(i).div_spec(F32::of_int(attack))
    } else if i >= total - release {
        F32::of_int(total - i).div_spec(F32::of_int(release))
    } else {
        F32::of_int(1)
    }
}

/// Used to guarantee click-free starts/ends.
pub fn fade_env(i: u64, total: u64, attack: u64, release: u64) -> (r: F32)
    requires
        i >= attack ==> release <= total && i <= total,
    ensures
        r == envelope(i as int, total as int, attack as int, release as int),
{
    if i < attack {
        F32::from_u64(i).div(F32::from_u64(attack))
    } else if i >= total - release {
        F32::from_u64(total - i).div(F32::from_u64(release))
    } else {
        F32::from_i32(1)
    }
}

/// The angle of a sine of frequency `hz` at sample `i`.
pub open spec fn angle(i: int, hz: F32) -> F32 {
    F32::of_int(i).div_spec(F32::of_int(SOUND_RATE as int)).mul_spec(hz).mul_spec(
        F32 { bits: TAU_BITS },
    )
}

fn angle_at(i: u64, hz: F32) -> (r: F32)
    ensures
        r == angle(i as int, hz),
{
    F32::from_u64(i).div(F32::from_u32(SOUND_RATE)).mul(hz).mul(F32::from_bits(TAU_BITS))
}

/// Half scale, shaped by an envelope: `sin * 0.5 * env`.
pub open spec fn beep(sin: F32, env: F32) -> F32 {
    sin.mul_spec(F32::of_ratio(1, 2)).mul_spec(env)
}

/// Samples of the soft beep: 150 ms at 880 Hz, with ramps of 10 ms.
pub const SOFT_BEEP_LEN: u64 = 7200;

/// Samples of a 10 ms ramp.
pub const RAMP: u64 = 480;

/// Samples of each of the two beeps: 120 ms.
pub const BEEP_LEN: u64 = 5760;

/// Samples of the gap between them: 80 ms.
pub const GAP_LEN: u64 = 3840;

/// Samples of the double beep.
pub const DOUBLE_BEEP_LEN: u64 = 15360;

/// Samples of the chime: 900 ms.
pub const CHIME_LEN: u64 = 43200;

/// Samples of the chime's 5 ms attack.
pub const CHIME_ATTACK: u64 = 240;

/// Samples of the chime's 15 ms tail fade.
pub const CHIME_TAIL: u64 = 720;

/// The soft beep's sine at sample `i`.
pub fn soft_beep_angle(i: u64) -> (r: F32)
    ensures
        r == angle(i as int, F32::of_int(880)),
{
    angle_at(i, F32::from_i32(880))
}

/// The soft beep at sample `i`, given the sine of its angle.
pub fn soft_beep_sample(i: u64, sin: F32) -> (r: F32)
    requires
        i < SOFT_BEEP_LEN,
    ensures
        r == beep(sin, envelope(i as int, SOFT_BEEP_LEN as int, RAMP as int, RAMP as int)),
{
    let env: F32 = fade_env(i, SOFT_BEEP_LEN, RAMP, RAMP);
    sin.mul(F32::ratio(1, 2)).mul(env)
}

/// Where in a beep sample `i` of the double beep falls; `None` in the gap.
pub open spec fn beep_place(i: u64) -> Option<u64> {
    if i < BEEP_LEN {
        Some(i)
    } else if i < BEEP_LEN + GAP_LEN {
        None
    } else {
        Some((i - BEEP_LEN - GAP_LEN) as u64)
    }
}

fn place_in_beep(i: u64) -> (r: Option<u64>)
    ensures
        r == beep_place(i),
{
    if i < BEEP_LEN {
        Some(i)
    } else if i < BEEP_LEN + GAP_LEN {
        None
    } else {
        Some(i - BEEP_LEN - GAP_LEN)
    }
}

/// The double beep's sine at sample `i`, at 660 Hz; `None` in the gap.
pub fn double_beep_angle(i: u64) -> (r: Option<F32>)
    ensures
        r == (match beep_place(i) {
            Some(k) => Some(angle(k as int, F32::of_int(660))),
            None => None,
        }),
{
    match place_in_beep(i) {
        Some(k) => Some(angle_at(k, F32::from_i32(660))),
        None => None,
    }
}

/// The double beep at sample `i`, given the sine of its angle.
pub fn double_beep_sample(i: u64, sin: F32) -> (r: F32)
    requires
        i < DOUBLE_BEEP_LEN,
    ensures
        r == double_beep_value(i as int, sin),
{
    match place_in_beep(i) {
        Some(k) => {
            let env: F32 = fade_env(k, BEEP_LEN, RAMP, RAMP);
            sin.mul(F32::ratio(1, 2)).mul(env)
        },
        None => F32::from_i32(0),
    }
}

/// The angle of the chime's harmonic `k` at sample `i`: the fundamental is C5,
/// 523.25 Hz.
pub open spec fn harmonic_angle(i: int, k: int) -> F32 {
    let base = F32::of_int(i).div_spec(F32::of_int(SOUND_RATE as int)).mul_spec(
        F32::of_ratio(2093, 4),
    );
    let at = if k == 1 {
        base
    } else {
        base.mul_spec(F32::of_int(k))
    };
    at.mul_spec(F32 { bits: TAU_BITS })
}

/// The angle of the chime's harmonic `k` at sample `i`.
pub fn chime_angle(i: u64, k: i32) -> (r: F32)
    ensures
        r == harmonic_angle(i as int, k as int),
{
    let base: F32 = F32::from_u64(i).div(F32::from_u32(SOUND_RATE)).mul(F32::ratio(2093, 4));
    let at: F32 = if k == 1 {
        base
    } else {
        base.mul(F32::from_i32(k))
    };
    at.mul(F32::from_bits(TAU_BITS))
}

/// The exponent of the chime's ring-out at sample `i`, with a decay constant of
/// 180 ms; `None` during the attack.
pub fn chime_exponent(i: u64) -> (r: Option<F32>)
    ensures
        r == (if i < CHIME_ATTACK {
            None
        } else {
            Some(
                F32::of_int(i - CHIME_ATTACK).div_spec(
                    F32::of_int(SOUND_RATE as int),
                ).neg_spec().div_spec(F32::of_ratio(18, 100)),
            )
        }),
{
    if i < CHIME_ATTACK {
        return None;
    }
    let dt: F32 = F32::from_u64(i - CHIME_ATTACK).div(F32::from_u32(SOUND_RATE));
    Some(dt.neg().div(F32::ratio(18, 100)))
}

/// The sum of the harmonics, normalized by their worst case.
pub open spec fn harmonics(s1: F32, s2: F32, s3: F32) -> F32 {
    s1.add_spec(F32::of_ratio(4, 10).mul_spec(s2)).add_spec(
        F32::of_ratio(2, 10).mul_spec(s3),
    ).div_spec(F32::of_ratio(16, 10))
}

/// How far the chime has rung out: a linear attack, then `ring`, the
/// exponential at [`chime_exponent`].
pub open spec fn ring_out(i: int, ring: F32) -> F32 {
    if i < CHIME_ATTACK {
        F32::of_int(i).div_spec(F32::of_int(CHIME_ATTACK as int))
    } else {
        ring
    }
}

/// A chime sample: the harmonics at a peak of 0.6, ringing out, and forced to
/// zero by a fade at the very end.
pub open spec fn chime_value(i: int, s1: F32, s2: F32, s3: F32, ring: F32) -> F32 {
    let s = harmonics(s1, s2, s3).mul_spec(F32::of_ratio(6, 10)).mul_spec(ring_out(i, ring));
    if i >= CHIME_LEN - CHIME_TAIL {
        s.mul_spec(F32::of_int(CHIME_LEN - i).div_spec(F32::of_int(CHIME_TAIL as int)))
    } else {
        s
    }
}

/// The chime at sample `i`, given the sines of its three angles and the
/// exponential of its exponent.
pub fn chime_sample(i: u64, s1: F32, s2: F32, s3: F32, ring: F32) -> (r: F32)
    requires
        i < CHIME_LEN,
    ensures
        r == chime_value(i as int, s1, s2, s3, ring),
{
    let raw: F32 = s1.add(F32::ratio(4, 10).mul(s2)).add(F32::ratio(2, 10).mul(s3));
    let decay: F32 = if i < CHIME_ATTACK {
        F32::from_u64(i).div(F32::from_u64(CHIME_ATTACK))
    } else {
        ring
    };
    let s: F32 = raw.div(F32::ratio(16, 10)).mul(F32::ratio(6, 10)).mul(decay);
    if i >= CHIME_LEN - CHIME_TAIL {
        s.mul(F32::from_u64(CHIME_LEN - i).div(F32::from_u64(CHIME_TAIL)))
    } else {
        s
    }
}

/// A list of sample values is given for every sample of a sound.
pub open spec fn covers(values: Seq<F32>, len: u64) -> bool {
    values.len() == len
}

/// The soft beep, given the sine of every sample's angle.
pub fn soft_beep(sines: &Vec<F32>) -> (r: Vec<F32>)
    requires
        covers(sines@, SOFT_BEEP_LEN),
    ensures
        r@ == Seq::new(
            SOFT_BEEP_LEN as nat,
            |i: int|
                beep(sines@[i], envelope(i, SOFT_BEEP_LEN as int, RAMP as int, RAMP as int)),
        ),
{
    let mut samples: Vec<F32> = Vec::new();
    let mut i: u64 = 0;
    while i < SOFT_BEEP_LEN
        invariant
            i <= SOFT_BEEP_LEN,
            covers(sines@, SOFT_BEEP_LEN),
            samples@ == Seq::new(
                i as nat,
                |j: int|
                    beep(sines@[j], envelope(j, SOFT_BEEP_LEN as int, RAMP as int, RAMP as int)),
            ),
        decreases SOFT_BEEP_LEN - i,
    {
        samples.push(soft_beep_sample(i, sines[i as usize]));
        i = i + 1;
        assert(samples@ =~= Seq::new(
            i as nat,
            |j: int|
                beep(sines@[j], envelope(j, SOFT_BEEP_LEN as int, RAMP as int, RAMP as int)),
        ));
    }
    samples
}

/// A sample of the double beep.
pub open spec fn double_beep_value(i: int, sin: F32) -> F32 {
    match beep_place(i as u64) {
        Some(k) => beep(sin, envelope(k as int, BEEP_LEN as int, RAMP as int, RAMP as int)),
        None => F32::of_int(0),
    }
}

/// The double beep, given the sine of every sample's angle (any value in the
/// gap).
pub fn double_beep(sines: &Vec<F32>) -> (r: Vec<F32>)
    requires
        covers(sines@, DOUBLE_BEEP_LEN),
    ensures
        r@ == Seq::new(DOUBLE_BEEP_LEN as nat, |i: int| double_beep_value(i, sines@[i])),
{
    let mut samples: Vec<F32> = Vec::new();
    let mut i: u64 = 0;
    while i < DOUBLE_BEEP_LEN
        invariant
            i <= DOUBLE_BEEP_LEN,
            covers(sines@, DOUBLE_BEEP_LEN),
            samples@ == Seq::new(i as nat, |j: int| double_beep_value(j, sines@[j])),
        decreases DOUBLE_BEEP_LEN - i,
    {
        samples.push(double_beep_sample(i, sines[i as usize]));
        i = i + 1;
        assert(samples@ =~= Seq::new(i as nat, |j: int| double_beep_value(j, sines@[j])));
    }
    samples
}

/// The chime, given the sines of every sample's three angles and the
/// exponential of its exponent (any value during the attack).
pub fn chime(s1: &Vec<F32>, s2: &Vec<F32>, s3: &Vec<F32>, rings: &Vec<F32>) -> (r: Vec<F32>)
    requires
        covers(s1@, CHIME_LEN),
        covers(s2@, CHIME_LEN),
        covers(s3@, CHIME_LEN),
        covers(rings@, CHIME_LEN),
    ensures
        r@ == Seq::new(
            CHIME_LEN as nat,
            |i: int| chime_value(i, s1@[i], s2@[i], s3@[i], rings@[i]),
        ),
{
    let mut samples: Vec<F32> = Vec::new();
    let mut i: u64 = 0;
    while i < CHIME_LEN
        invariant
            i <= CHIME_LEN,
            covers(s1@, CHIME_LEN),
            covers(s2@, CHIME_LEN),
            covers(s3@, CHIME_LEN),
            covers(rings@, CHIME_LEN),
            samples@ == Seq::new(
                i as nat,
                |j: int| chime_value(j, s1@[j], s2@[j], s3@[j], rings@[j]),
            ),
        decreases CHIME_LEN - i,
    {
        let k: usize = i as usize;
        samples.push(chime_sample(i, s1[k], s2[k], s3[k], rings[k]));
        i = i + 1;
        assert(samples@ =~= Seq::new(
            i as nat,
            |j: int| chime_value(j, s1@[j], s2@[j], s3@[j], rings@[j]),
        ));
    }
    samples
}

/// The length of a synthesized sound, in samples.
pub fn synth_len(synth: Synth) -> (r: u64)
    ensures
        r == (match synth {
            Synth::SoftBeep => SOFT_BEEP_LEN,
            Synth::DoubleBeep => DOUBLE_BEEP_LEN,
            Synth::Chime => CHIME_LEN,
        }),
{
    match synth {
        Synth::SoftBeep => SOFT_BEEP_LEN,
        Synth::DoubleBeep => DOUBLE_BEEP_LEN,
        Synth::Chime => CHIME_LEN,
    }
}

/// Whole milliseconds come out even: 48 samples each. (The lengths of the
/// synthesized sounds are given by their durations this way.)
pub proof fn law_a_millisecond_is_48_samples(duration_ms: int)
    requires
        0 <= duration_ms <= 40_000,
    ensures
        samples_in(F32::of_int(duration_ms)) == 48 * duration_ms,
{
    let u = unit();
    lemma_pow2_pos(149);
    let n = 48_000 * duration_ms;
    let p = lemma_whole_scaled_on_grid(375 * duration_ms, 156);
    lemma_pow2_adds(7, 149);
    lemma2_to64();
    assert((375 * duration_ms) * pow2(156) == n * u) by (nonlinear_arith)
        requires
            pow2(156) == 128 * u,
            n == 48_000 * duration_ms,
    ;
    lemma_int_mul(48_000, duration_ms, p);
    let product = F32 { bits: p as u32 };
    let thousand = F32::of_int(1000);
    lemma_of_int_exact(1000);
    lemma_of_int_monotone(1, 1000);
    let g = 1000 * u;
    assert((n * u) * u == ((48 * duration_ms) * u) * g) by (nonlinear_arith)
        requires
            n == 48_000 * duration_ms,
            g == 1000 * u,
    ;
    assert((48 * duration_ms) * u >= 0) by (nonlinear_arith)
        requires
            duration_ms >= 0,
            u > 0,
    ;
    lemma_rounded_cancels((48 * duration_ms) * u, g);
    assert(product.div_spec(thousand) == F32::of_int(48 * duration_ms)) by {
        reveal(F32::div_spec);
        reveal(F32::of_int);
    }
    lemma_int_rounds_to_itself(48 * duration_ms);
    lemma_of_int_monotone(0, 48 * duration_ms);
}

/// An envelope starts at zero, so that a sound starts without a click.
pub proof fn law_an_envelope_starts_at_zero(total: int, attack: int, release: int)
    requires
        1 <= attack <= u64::MAX,
    ensures
        envelope(0, total, attack, release) == (F32 { bits: 0 }),
{
    lemma_of_int_zero();
    lemma_of_int_monotone(1, attack);
    lemma_zero_absorbs(F32::of_int(attack));
}

/// An envelope never amplifies.
pub proof fn law_an_envelope_stays_between_zero_and_one(
    i: int,
    total: int,
    attack: int,
    release: int,
)
    requires
        0 <= i < total <= u64::MAX,
        0 <= attack <= u64::MAX,
        0 <= release <= total,
    ensures
        positive(envelope(i, total, attack, release)),
        envelope(i, total, attack, release).mag() <= F32::of_int(1).mag(),
{
    lemma_of_int_monotone(1, 1);
    if i < attack {
        lemma_share_within_one(i, attack);
    } else if i >= total - release {
        lemma_share_within_one(total - i, release);
    }
}

/// A part is at most one whole.
pub proof fn lemma_share_within_one(n: int, d: int)
    requires
        0 <= n <= d <= u64::MAX,
        1 <= d,
    ensures
        positive(F32::of_int(n).div_spec(F32::of_int(d))),
        F32::of_int(n).div_spec(F32::of_int(d)).mag() <= F32::of_int(1).mag(),
{
    let u = unit();
    lemma_pow2_pos(149);
    lemma_of_int_monotone(n, d);
    lemma_of_int_monotone(1, d);
    let b = F32::of_int(d);
    lemma_div_monotone(F32::of_int(n), b, b);
    lemma_grid_monotone(0, b.mag());
    let g = grid(b.mag());
    assert(g * u == u * g) by (nonlinear_arith);
    lemma_rounded_cancels(u, g);
    assert(b.div_spec(b) == F32::of_int(1)) by {
        reveal(F32::div_spec);
        reveal(F32::of_int);
        assert(1 * u == u) by (nonlinear_arith);
    }
}

/// A beep leaves headroom: a sine of at most one in size gives a sample of at
/// most one half in size.
pub proof fn law_beeps_stay_within_half_scale(sin: F32, env: F32)
    requires
        sin.finite(),
        sin.mag() <= F32::of_int(1).mag(),
        env.finite(),
        env.mag() <= F32::of_int(1).mag(),
    ensures
        beep(sin, env).finite(),
        beep(sin, env).mag() <= F32::of_ratio(1, 2).mag(),
{
    let half = F32::of_ratio(1, 2);
    lemma_of_int_monotone(1, 2);
    lemma_share_within_one(1, 2);
    lemma_of_int_monotone(1, 1);
    lemma_mul_shrinks(half, sin);
    lemma_mul_shrinks(sin.mul_spec(half), env);
}

/// A step of 2^-20, in units of 2^-149.
pub open spec fn fine() -> int {
    pow2(129) as int
}

/// A number of at most `m` steps of 2^-20 in size.
pub open spec fn within(a: F32, m: int) -> bool {
    a.finite() && grid(a.mag()) <= m * fine()
}

/// A number of at most one in size.
pub open spec fn within_one(a: F32) -> bool {
    a.finite() && a.mag() <= F32::of_int(1).mag()
}

/// One is 2^20 fine steps.
proof fn lemma_fine()
    ensures
        fine() > 0,
        unit() == 0x10_0000 * fine(),
{
    lemma2_to64();
    lemma_pow2_pos(129);
    lemma_pow2_adds(20, 129);
}

proof fn lemma_one_is_within(a: F32)
    requires
        within_one(a),
    ensures
        within(a, 0x10_0000),
{
    lemma_fine();
    lemma_of_int_exact(1);
    lemma_of_int_monotone(1, 1);
    if a.mag() < F32::of_int(1).mag() {
        lemma_grid_monotone(a.mag(), F32::of_int(1).mag());
    }
}

/// A pattern that stands for `m` fine steps.
proof fn lemma_fine_pattern(m: int) -> (p: int)
    requires
        0 <= m <= 0x100_0000,
    ensures
        0 <= p < INF_MAG,
        grid(p) == m * fine(),
        rounded(m * fine(), 1) == p,
{
    let p = lemma_whole_scaled_on_grid(m, 129);
    lemma_grid_rounds_to_itself(p);
    p
}

/// What rounds no higher than `m` fine steps is within them.
proof fn lemma_within_pattern(a: F32, m: int, p: int)
    requires
        0 <= p < INF_MAG,
        grid(p) == m * fine(),
        a.mag() <= p,
    ensures
        within(a, m),
{
    if a.mag() < p {
        lemma_grid_monotone(a.mag(), p);
    }
}

/// Sizes add up.
proof fn lemma_within_sum(a: F32, b: F32, m: int, n: int)
    requires
        within(a, m),
        within(b, n),
        0 <= m,
        0 <= n,
        m + n <= 0x100_0000,
    ensures
        within(a.add_spec(b), m + n),
{
    let p = lemma_fine_pattern(m + n);
    let high = F32 { bits: p as u32 };
    let low = high.neg_spec();
    lemma_neg_scaled(high);
    assert((m + n) * fine() == m * fine() + n * fine()) by (nonlinear_arith);
    lemma_grid_not_negative(a.mag());
    lemma_grid_not_negative(b.mag());
    lemma_add_order(a, b, high);
    lemma_add_order(a, b, low);
    let r = a.add_spec(b);
    lemma_scaled_order(r, high);
    lemma_scaled_order(low, r);
    lemma_within_pattern(r, m + n, p);
}

proof fn lemma_grid_not_negative(p: int)
    requires
        0 <= p,
    ensures
        0 <= grid(p),
{
    lemma_grid_step(p);
}

/// Sizes multiply.
proof fn lemma_within_product(a: F32, b: F32, m: int, n: int, q: int)
    requires
        within(a, m),
        within(b, n),
        0 <= m,
        0 <= n,
        m * n <= q * 0x10_0000,
        0 <= q <= 0x100_0000,
    ensures
        within(a.mul_spec(b), q),
{
    lemma_fine();
    lemma_pow2_pos(149);
    let p = lemma_fine_pattern(q);
    let f = fine();
    let u = unit();
    let ga = grid(a.mag());
    let gb = grid(b.mag());
    lemma_grid_not_negative(a.mag());
    lemma_grid_not_negative(b.mag());
    assert(ga * gb <= (m * f) * (n * f)) by (nonlinear_arith)
        requires
            0 <= ga <= m * f,
            0 <= gb <= n * f,
    ;
    assert((m * f) * (n * f) <= (q * f) * u) by (nonlinear_arith)
        requires
            m * n <= q * 0x10_0000,
            u == 0x10_0000 * f,
            f > 0,
    ;
    assert(0 <= q * f) by (nonlinear_arith)
        requires
            0 <= q,
            f > 0,
    ;
    lemma_rounded_monotone(ga * gb, (q * f) * u, u);
    lemma_rounded_cancels(q * f, u);
    lemma_rounded_is_nearest(ga * gb, u);
    reveal(F32::mul_spec);
    lemma_within_pattern(a.mul_spec(b), q, p);
}

/// Sizes divide.
proof fn lemma_within_quotient(a: F32, b: F32, m: int, n: int, q: int)
    requires
        within(a, m),
        b.finite(),
        0 < n * fine() <= grid(b.mag()),
        0 <= m,
        0 < n,
        m * 0x10_0000 <= q * n,
        0 <= q <= 0x100_0000,
    ensures
        within(a.div_spec(b), q),
{
    lemma_fine();
    lemma_pow2_pos(149);
    let p = lemma_fine_pattern(q);
    let f = fine();
    let u = unit();
    let ga = grid(a.mag());
    let gb = grid(b.mag());
    lemma_grid_not_negative(a.mag());
    assert(grid(0) == 0);
    assert(ga * u <= (q * f) * gb) by {
        assert(ga * u <= (m * f) * u) by (nonlinear_arith)
            requires
                0 <= ga <= m * f,
                u > 0,
        ;
        assert((m * f) * u <= (q * f) * (n * f)) by (nonlinear_arith)
            requires
                m * 0x10_0000 <= q * n,
                u == 0x10_0000 * f,
                f > 0,
        ;
        assert((q * f) * (n * f) <= (q * f) * gb) by (nonlinear_arith)
            requires
                0 <= q,
                f > 0,
                n * f <= gb,
        ;
    }
    assert(0 <= q * f) by (nonlinear_arith)
        requires
            0 <= q,
            f > 0,
    ;
    lemma_rounded_monotone(ga * u, (q * f) * gb, gb);
    lemma_rounded_cancels(q * f, gb);
    lemma_rounded_is_nearest(ga * u, gb);
    reveal(F32::div_spec);
    lemma_within_pattern(a.div_spec(b), q, p);
}

/// A ratio of small integers lies between the fine steps around it.
proof fn lemma_ratio_bounds(n: int, d: int, low: int, high: int)
    requires
        0 < n <= 0x1_0000,
        0 < d <= 0x1_0000,
        0 <= low,
        low * d <= n * 0x10_0000 <= high * d,
        high <= 0x100_0000,
    ensures
        positive(F32::of_ratio(n, d)),
        within(F32::of_ratio(n, d), high),
        low * fine() <= grid(F32::of_ratio(n, d).mag()),
{
    lemma_fine();
    lemma_pow2_pos(149);
    let f = fine();
    let u = unit();
    lemma_of_int_exact(n);
    lemma_of_int_exact(d);
    lemma_of_int_monotone(1, n);
    lemma_of_int_monotone(1, d);
    let r = F32::of_ratio(n, d);
    let g = grid(F32::of_int(d).mag());
    assert(g > 0) by (nonlinear_arith)
        requires
            g == d * u,
            d > 0,
            u > 0,
    ;
    assert(low <= high) by (nonlinear_arith)
        requires
            low * d <= high * d,
            d > 0,
    ;
    let q = lemma_fine_pattern(high);
    assert((n * u) * u <= (high * f) * g && 0 <= high * f) by (nonlinear_arith)
        requires
            n * 0x10_0000 <= high * d,
            g == d * u,
            u == 0x10_0000 * f,
            f > 0,
            0 <= high,
    ;
    lemma_rounded_monotone((n * u) * u, (high * f) * g, g);
    lemma_rounded_cancels(high * f, g);
    reveal(F32::div_spec);
    lemma_rounded_is_nearest((n * u) * u, g);
    lemma_within_pattern(r, high, q);
    lemma_ratio_low(n, d, low);
}

/// The harmonics at the chime's peak are at most 0.6 in size, up to rounding.
proof fn lemma_harmonics_within(s1: F32, s2: F32, s3: F32)
    requires
        within_one(s1),
        within_one(s2),
        within_one(s3),
    ensures
        within(harmonics(s1, s2, s3).mul_spec(F32::of_ratio(6, 10)), 629_148),
{
    lemma_fine();
    lemma_one_is_within(s1);
    lemma_one_is_within(s2);
    lemma_one_is_within(s3);
    let c2 = F32::of_ratio(4, 10);
    let c3 = F32::of_ratio(2, 10);
    let worst = F32::of_ratio(16, 10);
    lemma_ratio_bounds(4, 10, 419_430, 419_431);
    lemma_ratio_bounds(2, 10, 209_715, 209_716);
    lemma_ratio_bounds(16, 10, 1_677_721, 1_677_722);
    lemma_ratio_bounds(6, 10, 629_145, 629_146);
    lemma_within_product(c2, s2, 419_431, 0x10_0000, 419_431);
    lemma_within_product(c3, s3, 209_716, 0x10_0000, 209_716);
    let two = s1.add_spec(c2.mul_spec(s2));
    lemma_within_sum(s1, c2.mul_spec(s2), 0x10_0000, 419_431);
    lemma_within_sum(two, c3.mul_spec(s3), 1_468_007, 209_716);
    assert(1_677_721 * fine() > 0) by (nonlinear_arith)
        requires
            fine() > 0,
    ;
    lemma_within_quotient(two.add_spec(c3.mul_spec(s3)), worst, 1_677_723, 1_677_721, 0x10_0002);
    lemma_within_product(
        harmonics(s1, s2, s3),
        F32::of_ratio(6, 10),
        0x10_0002,
        629_146,
        629_148,
    );
}

/// How far the chime has rung out is from zero to one.
proof fn lemma_ring_within(i: int, ring: F32)
    requires
        0 <= i,
        within_one(ring),
    ensures
        within_one(ring_out(i, ring)),
{
    lemma_of_int_monotone(1, 1);
    if i < CHIME_ATTACK {
        lemma_share_within_one(i, CHIME_ATTACK as int);
    }
}

/// A chime leaves headroom: sines and a ring of at most one in size give a
/// sample of at most 0.6 in size, up to rounding.
pub proof fn law_the_chime_stays_within_its_peak(i: int, s1: F32, s2: F32, s3: F32, ring: F32)
    requires
        0 <= i < CHIME_LEN,
        within_one(s1),
        within_one(s2),
        within_one(s3),
        within_one(ring),
    ensures
        chime_value(i, s1, s2, s3, ring).finite(),
        chime_value(i, s1, s2, s3, ring).mag() <= F32::of_ratio(60_001, 100_000).mag(),
{
    lemma_peak_holds(i, s1, s2, s3, ring);
    lemma_peak_bound();
    let v = chime_value(i, s1, s2, s3, ring);
    let top = F32::of_ratio(60_001, 100_000);
    if top.mag() < v.mag() {
        lemma_grid_monotone(top.mag(), v.mag());
    }
}

/// 0.60001 is more than the fine steps of a chime.
proof fn lemma_peak_bound()
    ensures
        629_148 * fine() <= grid(F32::of_ratio(60_001, 100_000).mag()),
{
    lemma_ratio_low(60_001, 100_000, 629_148);
}

/// A ratio lies above the fine steps below it.
proof fn lemma_ratio_low(n: int, d: int, low: int)
    requires
        0 < n <= 0x100_0000,
        0 < d <= 0x100_0000,
        0 <= low <= 0x100_0000,
        low * d <= n * 0x10_0000,
    ensures
        low * fine() <= grid(F32::of_ratio(n, d).mag()),
{
    lemma_fine();
    lemma_pow2_pos(149);
    let f = fine();
    let u = unit();
    lemma_of_int_exact(n);
    lemma_of_int_exact(d);
    lemma_of_int_monotone(1, n);
    lemma_of_int_monotone(1, d);
    let g = grid(F32::of_int(d).mag());
    assert(g > 0 && (low * f) * g <= (n * u) * u && 0 <= low * f) by (nonlinear_arith)
        requires
            low * d <= n * 0x10_0000,
            g == d * u,
            u == 0x10_0000 * f,
            f > 0,
            d > 0,
            low >= 0,
    ;
    let p = lemma_fine_pattern(low);
    lemma_rounded_monotone((low * f) * g, (n * u) * u, g);
    lemma_rounded_cancels(low * f, g);
    reveal(F32::div_spec);
    lemma_rounded_is_nearest((n * u) * u, g);
    let r = F32::of_ratio(n, d);
    if p < r.mag() {
        lemma_grid_monotone(p, r.mag());
    }
}

proof fn lemma_peak_holds(i: int, s1: F32, s2: F32, s3: F32, ring: F32)
    requires
        0 <= i < CHIME_LEN,
        within_one(s1),
        within_one(s2),
        within_one(s3),
        within_one(ring),
    ensures
        within(chime_value(i, s1, s2, s3, ring), 629_148),
{
    lemma_harmonics_within(s1, s2, s3);
    lemma_ring_within(i, ring);
    let h = harmonics(s1, s2, s3).mul_spec(F32::of_ratio(6, 10));
    let decay = ring_out(i, ring);
    lemma_one_is_within(decay);
    lemma_within_product(h, decay, 629_148, 0x10_0000, 629_148);
    if i >= CHIME_LEN - CHIME_TAIL {
        lemma_share_within_one(CHIME_LEN - i, CHIME_TAIL as int);
        lemma_of_int_monotone(1, 1);
        let fade = F32::of_int(CHIME_LEN - i).div_spec(F32::of_int(CHIME_TAIL as int));
        lemma_one_is_within(fade);
        lemma_within_product(h.mul_spec(decay), fade, 629_148, 0x10_0000, 629_148);
    }
}

/// No sound starts or ends with a click: with sines and a ring of at most one
/// in size, the first sample of each synthesized sound is zero and the last one
/// is below 0.01 in size.
pub proof fn law_synths_start_and_end_without_a_click(s1: F32, s2: F32, s3: F32, ring: F32)
    requires
        within_one(s1),
        within_one(s2),
        within_one(s3),
        within_one(ring),
    ensures
        ({
            let soft = |i: int|
                beep(s1, envelope(i, SOFT_BEEP_LEN as int, RAMP as int, RAMP as int));
            &&& soft(0).mag() == 0
            &&& soft(SOFT_BEEP_LEN - 1).mag() < F32::of_ratio(1, 100).mag()
        }),
        double_beep_value(0, s1).mag() == 0,
        double_beep_value(DOUBLE_BEEP_LEN - 1, s1).mag() < F32::of_ratio(1, 100).mag(),
        chime_value(0, s1, s2, s3, ring).mag() == 0,
        chime_value(CHIME_LEN - 1, s1, s2, s3, ring).mag() < F32::of_ratio(1, 100).mag(),
{
    lemma_fine();
    lemma_of_int_monotone(1, 1);
    let half = F32::of_ratio(1, 2);
    let zero = F32 { bits: 0 };
    lemma_one_is_within(s1);
    lemma_ratio_bounds(1, 2, 0x8_0000, 0x8_0000);
    lemma_ratio_bounds(1, 480, 2_184, 2_185);
    lemma_ratio_bounds(1, 720, 1_456, 1_457);
    // The beeps.
    let wave = s1.mul_spec(half);
    lemma_within_product(s1, half, 0x10_0000, 0x8_0000, 0x8_0000);
    law_an_envelope_starts_at_zero(SOFT_BEEP_LEN as int, RAMP as int, RAMP as int);
    law_an_envelope_starts_at_zero(BEEP_LEN as int, RAMP as int, RAMP as int);
    lemma_times_zero(wave);
    let fade = F32::of_int(1).div_spec(F32::of_int(RAMP as int));
    assert(fade == F32::of_ratio(1, 480));
    lemma_within_product(wave, fade, 0x8_0000, 2_185, 1_093);
    lemma_below_a_hundredth(wave.mul_spec(fade), 1_093);
    assert(beep_place((DOUBLE_BEEP_LEN - 1) as u64) == Some(5_759u64));
    // The chime.
    let h = harmonics(s1, s2, s3).mul_spec(F32::of_ratio(6, 10));
    lemma_harmonics_within(s1, s2, s3);
    lemma_of_int_zero();
    lemma_of_int_monotone(1, CHIME_ATTACK as int);
    lemma_zero_absorbs(F32::of_int(CHIME_ATTACK as int));
    assert(ring_out(0, ring) == zero);
    lemma_times_zero(h);
    lemma_one_is_within(ring);
    lemma_within_product(h, ring, 629_148, 0x10_0000, 629_148);
    let tail = F32::of_int(1).div_spec(F32::of_int(CHIME_TAIL as int));
    assert(tail == F32::of_ratio(1, 720));
    lemma_within_product(h.mul_spec(ring), tail, 629_148, 1_457, 875);
    lemma_below_a_hundredth(h.mul_spec(ring).mul_spec(tail), 875);
}

/// A finite number times zero is zero.
proof fn lemma_times_zero(a: F32)
    requires
        a.finite(),
    ensures
        a.mul_spec(F32 { bits: 0 }).mag() == 0,
{
    lemma_pow2_pos(149);
    lemma_rounded_cancels(0, unit());
    lemma_grid_rounds_to_itself(0);
    assert(grid(0) == 0);
    assert(grid(a.mag()) * 0 == 0 && 0 * unit() == 0) by (nonlinear_arith);
    reveal(F32::mul_spec);
}

/// Fewer than 10485 fine steps are below a hundredth.
proof fn lemma_below_a_hundredth(a: F32, m: int)
    requires
        within(a, m),
        0 <= m < 10_485,
    ensures
        a.mag() < F32::of_ratio(1, 100).mag(),
{
    lemma_fine();
    lemma_ratio_low(1, 100, 10_485);
    let top = F32::of_ratio(1, 100);
    assert(m * fine() < 10_485 * fine()) by (nonlinear_arith)
        requires
            m < 10_485,
            fine() > 0,
    ;
    if top.mag() < a.mag() {
        lemma_grid_monotone(top.mag(), a.mag());
    }
}

/// An envelope rises in even steps, holds at one and falls in even steps to the
/// end.
pub proof fn law_an_envelope_rises_holds_and_falls(i: int, total: int, attack: int, release: int)
    ensures
        i < attack ==> envelope(i, total, attack, release) == F32::of_int(i).div_spec(
            F32::of_int(attack),
        ),
        attack <= i < total - release ==> envelope(i, total, attack, release) == F32::of_int(1),
        attack <= i && total - release <= i ==> envelope(i, total, attack, release) == F32::of_int(
            total - i,
        ).div_spec(F32::of_int(release)),
{
}

/// With ramps of equal length an envelope is the same from either end.
pub proof fn law_an_even_envelope_is_symmetric(i: int, total: int, ramp: int)
    requires
        1 <= ramp,
        2 * ramp <= total,
        0 < i < ramp,
    ensures
        envelope(i, total, ramp, ramp) == envelope(total - i, total, ramp, ramp),
{
}

/// A beep is its sine at half scale, shaped by its envelope: 150 ms at 880 Hz with
/// ramps of 10 ms, at 48000 samples a second. The phase of a sample is its
/// time, times the frequency, times a full circle.
pub proof fn law_the_soft_beep_is_a_shaped_sine(i: int, sin: F32, env: F32, hz: F32)
    ensures
        SOFT_BEEP_LEN == 48 * 150,
        RAMP == 48 * 10,
        beep(sin, env) == sin.mul_spec(F32::of_ratio(1, 2)).mul_spec(env),
        angle(i, hz) == F32::of_int(i).div_spec(F32::of_int(48000)).mul_spec(hz).mul_spec(
            F32 { bits: 0x40c9_0fdb },
        ),
{
}

/// The double beep is one beep of 120 ms twice, with 80 ms of silence between: a
/// sample of the second is that of the first at the same place, with the same
/// sine.
pub proof fn law_the_double_beep_repeats_itself(i: int, sin: F32)
    ensures
        DOUBLE_BEEP_LEN == 48 * (120 + 80 + 120),
        0 <= i < 5760 ==> {
            &&& double_beep_value(i, sin) == beep(sin, envelope(i, 5760, 480, 480))
            &&& double_beep_value(i + 9600, sin) == double_beep_value(i, sin)
            &&& beep_place(i as u64) == Some(i as u64)
            &&& beep_place((i + 9600) as u64) == Some(i as u64)
        },
        5760 <= i < 9600 ==> double_beep_value(i, sin) == F32::of_int(0) && beep_place(
            i as u64,
        ) is None,
{
}

/// The chime is three harmonics of C5, 523.25 Hz, at 1, 0.4 and 0.2, brought back
/// to one and down to 0.6. It rises for 5 ms, rings out, and is faded over the
/// last 15 of its 900 ms.
pub proof fn law_the_chime_is_three_harmonics_ringing_out(
    i: int,
    k: int,
    s1: F32,
    s2: F32,
    s3: F32,
    ring: F32,
)
    requires
        0 <= i < 43200,
    ensures
        ({
            let sum = s1.add_spec(F32::of_ratio(4, 10).mul_spec(s2)).add_spec(
                F32::of_ratio(2, 10).mul_spec(s3),
            ).div_spec(F32::of_ratio(16, 10)).mul_spec(F32::of_ratio(6, 10));
            let value = chime_value(i, s1, s2, s3, ring);
            let time = F32::of_int(i).div_spec(F32::of_int(48000)).mul_spec(
                F32::of_ratio(2093, 4),
            );
            &&& i < 240 ==> value == sum.mul_spec(F32::of_int(i).div_spec(F32::of_int(240)))
            &&& 240 <= i < 42480 ==> value == sum.mul_spec(ring)
            &&& 42480 <= i ==> value == sum.mul_spec(ring).mul_spec(
                F32::of_int(43200 - i).div_spec(F32::of_int(720)),
            )
            &&& harmonic_angle(i, 1) == time.mul_spec(F32 { bits: 0x40c9_0fdb })
            &&& k != 1 ==> harmonic_angle(i, k) == time.mul_spec(F32::of_int(k)).mul_spec(
                F32 { bits: 0x40c9_0fdb },
            )
        }),
        CHIME_LEN == 48 * 900,
{
}

/// A duration is its milliseconds times 48 samples, rounded to the nearest.
pub proof fn law_a_duration_is_rounded_to_samples(duration_ms: F32)
    ensures
        samples_in(duration_ms) == F32::of_int(48000).mul_spec(duration_ms).div_spec(
            F32::of_int(1000),
        ).round_int(0, u64::MAX as int),
{
}

/// Three sounds are synthesized, each by its own synth, and the rest are
/// recordings, no two from the same file.
pub proof fn law_each_sound_has_its_own_source(a: BuiltinSound, b: BuiltinSound)
    requires
        a != b,
    ensures
        a.source() != b.source(),
        a.source() is Synth <==> a == BuiltinSound::SoftBeep || a == BuiltinSound::DoubleBeep || a
            == BuiltinSound::Chime,
        BuiltinSound::SoftBeep.source() == SoundData::Synth(Synth::SoftBeep),
        BuiltinSound::DoubleBeep.source() == SoundData::Synth(Synth::DoubleBeep),
        BuiltinSound::Chime.source() == SoundData::Synth(Synth::Chime),
{
    reveal_strlit("alarmclock.wav");
    reveal_strlit("barking.wav");
    reveal_strlit("doorknocking.wav");
    reveal_strlit("femaleshutup.wav");
    reveal_strlit("femaleyelp.wav");
    reveal_strlit("gong.wav");
    reveal_strlit("rahhh.wav");
    reveal_strlit("shh.wav");
    reveal_strlit("sonarping.wav");
    if a.source() is Wav && b.source() is Wav {
        let x = a.source()->Wav_0@;
        let y = b.source()->Wav_0@;
        assert(x.len() == y.len() ==> x[0] != y[0] || x[1] != y[1]);
    }
}

} // verus!
