//! What holds of whole runs of frames.

use vstd::prelude::*;

#[allow(unused_imports)]
use crate::binary32::order::{lemma_add_order, lemma_of_int_exact, lemma_sub_order, unit};
#[allow(unused_imports)]
use crate::binary32::{lemma_scaled_order, F32};
#[allow(unused_imports)]
use crate::engine::baseline::{count_of, law_median_ignores_a_minority, median_of};
#[allow(unused_imports)]
use crate::engine::features::FrameFeatures;
#[allow(unused_imports)]
use crate::engine::{Memory, State, Tuning, BAND_DB, BASELINE_FRAMES, MARGIN_DB, RETRAIN_AFTER_FRAMES};

verus! {

/// What is remembered after a run of frames.
pub open spec fn run(m: Memory, frames: Seq<FrameFeatures>) -> Memory
    decreases frames.len(),
{
    if frames.len() == 0 {
        m
    } else {
        run(m, frames.drop_last()).next(frames.last())
    }
}

/// A frame that is over the band and bright against the given memory.
pub open spec fn shouting(m: Memory, f: FrameFeatures) -> bool {
    m.hears(f) && !m.calm(f) && m.bright(f)
}

/// A long shout can't drag the baseline up: however many bright frames come,
/// the baselines and with them the threshold stay where they were.
pub proof fn law_shouting_does_not_move_the_baseline(m: Memory, frames: Seq<FrameFeatures>)
    requires
        forall|i: int| 0 <= i < frames.len() ==> shouting(m, #[trigger] frames[i]),
    ensures
        run(m, frames).levels == m.levels,
        run(m, frames).tilts == m.tilts,
        run(m, frames).tuning == m.tuning,
        forall|fallback: F32| #[trigger]
            run(m, frames).threshold(fallback) == m.threshold(fallback),
    decreases frames.len(),
{
    if frames.len() > 0 {
        let rest = frames.drop_last();
        assert forall|i: int| 0 <= i < rest.len() implies shouting(m, #[trigger] rest[i]) by {
            assert(rest[i] == frames[i]);
        }
        law_shouting_does_not_move_the_baseline(m, rest);
        let f = frames.last();
        assert(frames[frames.len() - 1] == f);
        let before = run(m, rest);
        assert(before.threshold(f.db) == m.threshold(f.db));
        assert(shouting(before, f));
    }
}

/// Silence and noise teach nothing: a frame that is not heard is quiet and
/// leaves the engine as it was.
pub proof fn law_unheard_frames_change_nothing(m: Memory, f: FrameFeatures)
    requires
        !m.hears(f),
    ensures
        m.state_for(f) == State::Quiet,
        m.next(f) == m,
{
}

/// Level and brightness must agree before a frame is too loud.
pub proof fn law_too_loud_needs_level_and_brightness(m: Memory, f: FrameFeatures)
    ensures
        m.state_for(f) is TooLoud <==> m.hears(f) && m.threshold(f.db).le_spec(f.db) && m.bright(f),
        m.state_for(f) matches State::TooLoud { db } ==> db == f.db,
{
}

/// A short run of stuck frames is not learned: until the level has been stuck
/// for the whole retrain time, the baselines keep.
pub proof fn law_a_short_level_shift_is_not_learned(m: Memory, frames: Seq<FrameFeatures>)
    requires
        m.unfed_streak == 0,
        frames.len() <= RETRAIN_AFTER_FRAMES,
        forall|i: int| 0 <= i < frames.len() ==> m.stuck(#[trigger] frames[i]),
    ensures
        run(m, frames).levels == m.levels,
        run(m, frames).tilts == m.tilts,
        run(m, frames).tuning == m.tuning,
        run(m, frames).unfed_streak == frames.len(),
    decreases frames.len(),
{
    if frames.len() > 0 {
        let rest = frames.drop_last();
        assert forall|i: int| 0 <= i < rest.len() implies m.stuck(#[trigger] rest[i]) by {
            assert(rest[i] == frames[i]);
        }
        law_a_short_level_shift_is_not_learned(m, rest);
        let f = frames.last();
        assert(frames[frames.len() - 1] == f);
        let before = run(m, rest);
        assert(before.threshold(f.db) == m.threshold(f.db));
        assert(before.stuck(f));
    }
}

/// What is remembered after `n` frames that are all alike.
pub open spec fn repeated(m: Memory, f: FrameFeatures, n: nat) -> Memory {
    run(m, Seq::new(n, |i: int| f))
}

proof fn lemma_repeated_step(m: Memory, f: FrameFeatures, n: nat)
    requires
        n > 0,
    ensures
        repeated(m, f, n) == repeated(m, f, (n - 1) as nat).next(f),
{
    let s = Seq::new(n, |i: int| f);
    assert(s.drop_last() =~= Seq::new((n - 1) as nat, |i: int| f));
    assert(s.last() == f);
}

proof fn lemma_count_of_same(s: Seq<F32>, v: F32)
    requires
        forall|i: int| 0 <= i < s.len() ==> s[i] == v,
    ensures
        count_of(s, v) == s.len(),
    decreases s.len(),
{
    if s.len() > 0 {
        assert(s[s.len() - 1] == v);
        assert forall|i: int| 0 <= i < s.drop_last().len() implies s.drop_last()[i] == v by {
            assert(s[i] == v);
        }
        lemma_count_of_same(s.drop_last(), v);
    }
}

/// While the level stays stuck, every frame after the retrain time fills one
/// more place of the window.
proof fn lemma_stuck_fills_the_window(m: Memory, f: FrameFeatures, n: nat)
    requires
        m.levels.len() <= BASELINE_FRAMES,
        forall|i: nat| i < n ==> (#[trigger] repeated(m, f, i)).stuck(f),
        n <= RETRAIN_AFTER_FRAMES + BASELINE_FRAMES,
    ensures
        ({
            let after = repeated(m, f, n);
            let fed = n - RETRAIN_AFTER_FRAMES;
            &&& after.tuning == m.tuning
            &&& after.unfed_streak >= n
            &&& after.levels.len() <= BASELINE_FRAMES
            &&& fed <= after.levels.len()
            &&& forall|j: int|
                0 <= after.levels.len() - fed <= j < after.levels.len() ==> after.levels[j] == f.db
        }),
    decreases n,
{
    if n == 0 {
        assert(Seq::new(0, |i: int| f) =~= Seq::<FrameFeatures>::empty());
        assert(repeated(m, f, 0) == m);
    } else {
        lemma_stuck_fills_the_window(m, f, (n - 1) as nat);
        lemma_repeated_step(m, f, n);
        let before = repeated(m, f, (n - 1) as nat);
        assert(before.stuck(f));
    }
}

/// A level that is well inside the range of singles stands below the cutoff of
/// a baseline at that same level.
proof fn lemma_own_level_is_calm(db: F32)
    requires
        db.finite(),
        -0x10_0000 * unit() <= db.scaled() <= 0x10_0000 * unit(),
    ensures
        db.lt_spec(
            db.add_spec(F32::of_int(MARGIN_DB as int)).sub_spec(F32::of_int(BAND_DB as int)),
        ),
{
    let u = unit();
    vstd::arithmetic::power2::lemma_pow2_pos(149);
    let v = db.scaled();
    let whole = v / u;
    vstd::arithmetic::div_mod::lemma_fundamental_div_mod(v, u);
    vstd::arithmetic::div_mod::lemma_mod_bound(v, u);
    assert(whole * u <= v < whole * u + u) by (nonlinear_arith)
        requires
            v == u * whole + v % u,
            0 <= v % u < u,
    ;
    assert(-0x10_0000 <= whole <= 0x10_0000) by (nonlinear_arith)
        requires
            -0x10_0000 * u <= v <= 0x10_0000 * u,
            whole * u <= v < whole * u + u,
            u > 0,
    ;
    let seven = F32::of_int(MARGIN_DB as int);
    let three = F32::of_int(BAND_DB as int);
    lemma_of_int_exact(7);
    lemma_of_int_exact(3);
    lemma_of_int_exact(whole + 7);
    lemma_of_int_exact(whole + 9);
    lemma_of_int_exact(whole + 4);
    let low = F32::of_int(whole + 7);
    let high = F32::of_int(whole + 9);
    assert((whole + 7) * u == whole * u + 7 * u && (whole + 9) * u == whole * u + 9 * u && (whole
        + 4) * u == whole * u + 4 * u) by (nonlinear_arith);
    let sum = db.add_spec(seven);
    lemma_add_order(db, seven, low);
    lemma_add_order(db, seven, high);
    lemma_scaled_order(sum, high);
    lemma_scaled_order(low, sum);
    lemma_finite_between(low, sum, high);
    lemma_sub_order(sum, three, F32::of_int(whole + 4));
}

proof fn lemma_finite_between(low: F32, x: F32, high: F32)
    requires
        low.finite(),
        high.finite(),
        low.le_spec(x),
        x.le_spec(high),
    ensures
        x.finite(),
{
    lemma_scaled_order(low, x);
    lemma_scaled_order(x, high);
}

/// A gain step is learned: without a calibration, the same voice at a new
/// level, not brighter than before, is calm again before the retrain time and
/// one whole window have passed. (The level lies well inside the range of
/// singles.)
pub proof fn law_a_lasting_level_shift_is_learned(m: Memory, f: FrameFeatures)
    requires
        m.tuning.quiet_db is None,
        m.levels.len() <= BASELINE_FRAMES,
        m.hears(f),
        f.db.finite(),
        -0x10_0000 * unit() <= f.db.scaled() <= 0x10_0000 * unit(),
        forall|n: nat|
            n <= RETRAIN_AFTER_FRAMES + BASELINE_FRAMES ==> !(#[trigger] repeated(m, f, n)).bright(
                f,
            ),
    ensures
        exists|n: nat|
            n <= RETRAIN_AFTER_FRAMES + BASELINE_FRAMES && (#[trigger] repeated(m, f, n)).state_for(
                f,
            ) is Calm,
{
    let last = (RETRAIN_AFTER_FRAMES + BASELINE_FRAMES) as nat;
    if forall|n: nat| n <= last ==> !((#[trigger] repeated(m, f, n)).state_for(f) is Calm) {
        lemma_stuck_until(m, f, last);
        lemma_stuck_fills_the_window(m, f, last);
        let after = repeated(m, f, last);
        assert(after.levels.len() == BASELINE_FRAMES);
        lemma_count_of_same(after.levels, f.db);
        law_median_ignores_a_minority(after.levels, f.db);
        lemma_own_level_is_calm(f.db);
        assert(after.calm(f));
        assert(after.state_for(f) is Calm);
        assert(false);
    }
}

/// A voice that is neither calm nor bright at any of the first frames is stuck
/// at all of them.
proof fn lemma_stuck_until(m: Memory, f: FrameFeatures, n: nat)
    requires
        m.hears(f),
        n <= RETRAIN_AFTER_FRAMES + BASELINE_FRAMES,
        forall|i: nat|
            i <= RETRAIN_AFTER_FRAMES + BASELINE_FRAMES ==> !(#[trigger] repeated(m, f, i)).bright(
                f,
            ) && !(repeated(m, f, i).state_for(f) is Calm),
    ensures
        forall|i: nat| i <= n ==> (#[trigger] repeated(m, f, i)).stuck(f),
        repeated(m, f, n).tuning == m.tuning,
    decreases n,
{
    if n == 0 {
        assert(Seq::new(0, |i: int| f) =~= Seq::<FrameFeatures>::empty());
        assert(repeated(m, f, 0) == m);
    } else {
        lemma_stuck_until(m, f, (n - 1) as nat);
        lemma_repeated_step(m, f, n);
    }
    let at = repeated(m, f, n);
    if at.calm(f) {
        assert(!at.cutoff(f.db).le_spec(f.db));
        assert(at.state_for(f) is Calm);
    }
    assert(at.stuck(f));
}

/// What is heard: a frame is quiet exactly when its level is not 3 dB clear of
/// the noise floor, or it is no voice. Voice has a zero-crossing rate from 0.01
/// to 0.35 and more than half of its energy in the speech band.
pub proof fn law_quiet_is_below_the_floor_or_no_voice(m: Memory, f: FrameFeatures)
    ensures
        m.state_for(f) == State::Quiet <==> {
            ||| f.db.lt_spec(m.tuning.noise_floor_db.add_spec(F32::of_int(3)))
            ||| !F32::of_ratio(1, 100).le_spec(f.zcr)
            ||| !f.zcr.le_spec(F32::of_ratio(35, 100))
            ||| !F32::of_ratio(1, 2).lt_spec(f.spectral.speech_ratio)
        },
{
}

/// Where the threshold stands. Without a calibration: 7 dB above the median of
/// the remembered levels. With one: the share of the way from the quiet level
/// to the ceiling that the sensitivity says, the ceiling taken as 14 dB over the
/// quiet level if none was measured; moved by how far the median has moved from
/// the quiet level.
pub proof fn law_the_threshold_follows_the_baseline(m: Memory, fallback: F32)
    ensures
        m.tuning.quiet_db is None ==> match median_of(m.levels) {
            Some(usual) => m.threshold(fallback) == usual.add_spec(F32::of_int(7)),
            None => m.threshold(fallback) == fallback.add_spec(F32::of_int(7)),
        },
        m.tuning.quiet_db matches Some(quiet) ==> {
            let top = match m.tuning.ceiling_db {
                Some(c) => c,
                None => quiet.add_spec(F32::of_int(14)),
            };
            let set = quiet.add_spec(m.tuning.sensitivity.mul_spec(top.sub_spec(quiet)));
            match median_of(m.levels) {
                Some(usual) => m.threshold(fallback) == set.add_spec(usual.sub_spec(quiet)),
                None => m.threshold(fallback) == set.add_spec(F32 { bits: 0 }),
            }
        },
{
}

/// A heard frame is too loud exactly when its level is at or above the
/// threshold and its tilt exceeds the median of the remembered tilts by more
/// than 3 dB; getting loud when it is not too loud and at most 3 dB below the
/// threshold; calm otherwise. Without a calibration the threshold is 7 dB over
/// the median of the remembered levels. The state carries the frame's level.
pub proof fn law_too_loud_is_level_and_brightness(
    m: Memory,
    f: FrameFeatures,
    usual_level: F32,
    usual_tilt: F32,
)
    requires
        m.tuning.quiet_db is None,
        median_of(m.levels) == Some(usual_level),
        median_of(m.tilts) == Some(usual_tilt),
        m.state_for(f) != State::Quiet,
    ensures
        ({
            let threshold = usual_level.add_spec(F32::of_int(7));
            let over = threshold.le_spec(f.db);
            let brighter = usual_tilt.add_spec(F32::of_int(3)).lt_spec(f.spectral.tilt_db);
            let near = threshold.sub_spec(F32::of_int(3)).le_spec(f.db);
            m.state_for(f) == (if over && brighter {
                State::TooLoud { db: f.db }
            } else if near {
                State::GettingLoud { db: f.db }
            } else {
                State::Calm { db: f.db }
            })
        }),
{
}

/// The same with any threshold, a calibrated one too: over it and brighter by
/// more than 3 dB than usual is too loud, and nothing else is. While no tilt is
/// remembered nothing is brighter than usual.
pub proof fn law_brightness_is_judged_against_the_usual_tilt(m: Memory, f: FrameFeatures)
    requires
        m.state_for(f) != State::Quiet,
    ensures
        m.state_for(f) is TooLoud <==> m.threshold(f.db).le_spec(f.db) && (median_of(
            m.tilts,
        ) matches Some(usual) && usual.add_spec(F32::of_int(3)).lt_spec(f.spectral.tilt_db)),
        m.state_for(f) is GettingLoud <==> !(m.state_for(f) is TooLoud) && m.threshold(
            f.db,
        ).sub_spec(F32::of_int(3)).le_spec(f.db),
        match m.state_for(f) {
            State::Quiet => false,
            State::Calm { db } => db == f.db,
            State::GettingLoud { db } => db == f.db,
            State::TooLoud { db } => db == f.db,
        },
{
    if median_of(m.tilts) is None {
        lemma_not_brighter_than_itself(f.spectral.tilt_db);
    }
}

/// Three more than a number is not less than it.
proof fn lemma_not_brighter_than_itself(a: F32)
    ensures
        !a.add_spec(F32::of_int(3)).lt_spec(a),
{
    lemma_of_int_exact(3);
    vstd::arithmetic::power2::lemma_pow2_pos(149);
    if a.finite() {
        lemma_add_order(a, F32::of_int(3), a);
    } else {
        reveal(F32::add_spec);
    }
}

/// Whether a voice is bright does not depend on how loud it is: of two heard
/// frames of equal tilt, each at or above the threshold, both are too loud or
/// neither is.
pub proof fn law_brightness_does_not_depend_on_the_level(m: Memory, f: FrameFeatures, g: FrameFeatures)
    requires
        f.spectral.tilt_db == g.spectral.tilt_db,
        m.state_for(f) != State::Quiet,
        m.state_for(g) != State::Quiet,
        m.threshold(f.db).le_spec(f.db),
        m.threshold(g.db).le_spec(g.db),
    ensures
        m.state_for(f) is TooLoud <==> m.state_for(g) is TooLoud,
{
    law_brightness_is_judged_against_the_usual_tilt(m, f);
    law_brightness_is_judged_against_the_usual_tilt(m, g);
}

/// How serious a state is.
pub open spec fn severity(s: State) -> int {
    match s {
        State::Quiet => 0,
        State::Calm { .. } => 1,
        State::GettingLoud { .. } => 2,
        State::TooLoud { .. } => 3,
    }
}

/// Louder is never calmer: raising the level of a frame, or its tilt, and nothing
/// else never lowers its state.
pub proof fn law_louder_is_never_calmer(m: Memory, f: FrameFeatures, g: FrameFeatures)
    requires
        m.tuning.quiet_db is Some || m.levels.len() > 0,
        f.db.le_spec(g.db),
        f.spectral.tilt_db.le_spec(g.spectral.tilt_db),
        f.zcr == g.zcr,
        f.spectral.speech_ratio == g.spectral.speech_ratio,
    ensures
        severity(m.state_for(f)) <= severity(m.state_for(g)),
{
    reveal(median_of);
    if m.state_for(f) != State::Quiet {
        law_quiet_is_below_the_floor_or_no_voice(m, f);
        law_quiet_is_below_the_floor_or_no_voice(m, g);
        law_brightness_is_judged_against_the_usual_tilt(m, f);
        law_brightness_is_judged_against_the_usual_tilt(m, g);
        assert(m.threshold(f.db) == m.threshold(g.db));
    }
}

/// A window with one more value at its end, the oldest gone if it was full.
pub open spec fn slid(before: Seq<F32>, v: F32, after: Seq<F32>) -> bool {
    &&& after.len() == (if before.len() < 600 {
        before.len() + 1
    } else {
        600
    })
    &&& after[after.len() - 1] == v
    &&& forall|i: int|
        0 <= i < after.len() - 1 ==> #[trigger] after[i] == before[before.len() - (after.len() - 1)
            + i]
}

/// What a frame teaches follows from its state and its tilt alone. Nothing, if
/// it is quiet. A calm one's level and tilt are remembered, the last 600 of
/// them. One that is too loud, or bright, is not. One that is getting loud
/// without being bright is remembered once 150 like it have come in a row.
pub proof fn law_what_a_frame_teaches(m: Memory, f: FrameFeatures)
    requires
        m.levels.len() <= 600,
        m.tilts.len() <= 600,
        !m.threshold(f.db).nan(),
        !f.db.nan(),
    ensures
        ({
            let after = m.next(f);
            let bright = median_of(m.tilts) matches Some(usual) && usual.add_spec(
                F32::of_int(3),
            ).lt_spec(f.spectral.tilt_db);
            let learned = slid(m.levels, f.db, after.levels) && slid(
                m.tilts,
                f.spectral.tilt_db,
                after.tilts,
            );
            let kept = after.levels == m.levels && after.tilts == m.tilts;
            &&& after.tuning == m.tuning
            &&& match m.state_for(f) {
                State::Quiet => after == m,
                State::Calm { .. } => learned && after.unfed_streak == 0,
                State::TooLoud { .. } => kept && after.unfed_streak == 0,
                State::GettingLoud { .. } => if bright {
                    kept && after.unfed_streak == 0
                } else {
                    &&& m.unfed_streak < 150 ==> kept
                    &&& m.unfed_streak >= 150 ==> learned
                    &&& m.unfed_streak < u32::MAX ==> after.unfed_streak == m.unfed_streak + 1
                    &&& m.unfed_streak == u32::MAX ==> after.unfed_streak == u32::MAX
                },
            }
        }),
{
    if m.state_for(f) != State::Quiet {
        law_brightness_is_judged_against_the_usual_tilt(m, f);
        if median_of(m.tilts) is None {
            lemma_not_brighter_than_itself(f.spectral.tilt_db);
        }
        lemma_band_below(m.threshold(f.db));
    }
}

/// Three below a number is a number, and not above it.
proof fn lemma_band_below(a: F32)
    requires
        !a.nan(),
    ensures
        !a.sub_spec(F32::of_int(3)).nan(),
        a.sub_spec(F32::of_int(3)).le_spec(a),
{
    lemma_of_int_exact(3);
    vstd::arithmetic::power2::lemma_pow2_pos(149);
    crate::binary32::order::lemma_neg_scaled(F32::of_int(3));
    if a.finite() {
        lemma_sub_order(a, F32::of_int(3), a);
    } else {
        reveal(F32::add_spec);
    }
}

/// The drift is how far the median of the remembered levels stands from the
/// calibrated quiet level: not a number without a calibration, zero while
/// nothing is remembered. A heard frame brings it up to date.
pub proof fn law_drift_is_the_baseline_against_the_quiet_level(m: Memory, f: FrameFeatures)
    ensures
        match m.tuning.quiet_db {
            None => m.drift().nan(),
            Some(quiet) => match median_of(m.levels) {
                Some(usual) => m.drift() == usual.sub_spec(quiet),
                None => m.drift() == (F32 { bits: 0 }),
            },
        },
        m.state_for(f) != State::Quiet ==> m.next(f).drift_db == m.drift(),
        m.state_for(f) == State::Quiet ==> m.next(f).drift_db == m.drift_db,
{
}

/// Without a calibration the noise floor is taken to be at -55 dB, and nothing is
/// remembered at first. So the first voice is calm whatever its level, and sets
/// the threshold 7 dB above itself.
pub proof fn law_the_first_voice_is_calm(f: FrameFeatures)
    requires
        f.db.finite(),
        -0x10_0000 * unit() <= f.db.scaled() <= 0x10_0000 * unit(),
    ensures
        ({
            let m = Memory::initial(Tuning::uncalibrated());
            let after = m.next(f);
            &&& m.levels.len() == 0 && m.tilts.len() == 0 && m.unfed_streak == 0
            &&& m.tuning.noise_floor_db == F32::of_int(-55)
            &&& m.state_for(f) == State::Quiet || m.state_for(f) == (State::Calm { db: f.db })
            &&& m.state_for(f) != State::Quiet ==> {
                &&& after.levels == seq![f.db]
                &&& after.tilts == seq![f.spectral.tilt_db]
                &&& forall|x: F32| #[trigger] after.threshold(x) == f.db.add_spec(F32::of_int(7))
            }
        }),
{
    let m = Memory::initial(Tuning::uncalibrated());
    reveal(median_of);
    lemma_own_level_is_calm(f.db);
    lemma_not_brighter_than_itself(f.spectral.tilt_db);
    if m.state_for(f) != State::Quiet {
        let after = m.next(f);
        assert(after.levels =~= seq![f.db]);
        assert(after.tilts =~= seq![f.spectral.tilt_db]);
        lemma_count_of_same(after.levels, f.db);
        law_median_ignores_a_minority(after.levels, f.db);
    }
}

/// An engine begins with nothing learned, on whatever calibration it is given.
pub proof fn law_an_engine_begins_with_nothing_learned(tuning: Tuning)
    ensures
        ({
            let m = Memory::initial(tuning);
            &&& m.levels.len() == 0 && m.tilts.len() == 0 && m.unfed_streak == 0
            &&& m.tuning == tuning
            &&& m.drift_db.nan()
        }),
{
}

} // verus!
