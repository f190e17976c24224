//! The detection engine: energy gate, then voice activity, then level against
//! the baseline and spectral tilt.

pub mod baseline;
pub mod calibrate;
pub mod features;
pub mod laws;
pub mod vad;

use vstd::prelude::*;

use crate::binary32::F32;
#[allow(unused_imports)]
use crate::engine::baseline::{last_n, median_of, RollingMedian};
#[allow(unused_imports)]
use crate::engine::features::{features_of, Analysis, FrameFeatures};
#[allow(unused_imports)]
use crate::engine::vad::{is_voiced, voiced};

verus! {

pub const FRAME_SIZE: usize = 512;

pub const SAMPLE_RATE: u32 = 16_000;

/// Voiced frames kept in each baseline: a few minutes of actual talking.
pub const BASELINE_FRAMES: usize = 600;

/// Voiced frames stuck above the feed cutoff (but not bright) for this many
/// frames in a row are a level shift, not a shout: retrain the baseline
/// instead of leaving the tray stuck yellow forever. ~5 s at 31 frames/sec.
pub const RETRAIN_AFTER_FRAMES: u32 = 150;

/// How far above the baseline the threshold sits without a calibration, in dB.
pub const MARGIN_DB: i32 = 7;

/// The band below the threshold that counts as getting loud, in dB; also how
/// far over the noise floor a frame must be to be heard, and how far over its
/// baseline the tilt of a bright one is.
pub const BAND_DB: i32 = 3;

#[derive(Debug, Clone, Copy, PartialEq, Eq, Structural)]
pub enum State {
    /// Below the noise gate, or not voice.
    Quiet,
    /// Voice, comfortably under the threshold.
    Calm { db: F32 },
    /// Voice within 3 dB below the threshold.
    GettingLoud { db: F32 },
    /// Voice over the threshold, and spectrally bright (both must agree).
    TooLoud { db: F32 },
}

/// What a calibration tells the engine.
#[derive(Debug, Clone, Copy, PartialEq, Eq, Structural)]
pub struct Tuning {
    pub noise_floor_db: F32,
    /// The quiet speaking level; without it the engine is uncalibrated.
    pub quiet_db: Option<F32>,
    /// The loud speaking level; without it an estimate stands in.
    pub ceiling_db: Option<F32>,
    /// Where between the two the threshold sits: 0 at the quiet level.
    pub sensitivity: F32,
}

impl Tuning {
    /// No calibration: a plausible noise floor and nothing else.
    pub open spec fn uncalibrated() -> Tuning {
        Tuning {
            noise_floor_db: F32::of_int(-55),
            quiet_db: None,
            ceiling_db: None,
            sensitivity: F32::of_ratio(1, 2),
        }
    }

    /// The loud end of the range over a quiet level: the measured ceiling, or
    /// two margins above the quiet level.
    pub open spec fn ceiling_over(self, quiet: F32) -> F32 {
        match self.ceiling_db {
            Some(c) => c,
            None => quiet.add_spec(F32::of_int(2 * MARGIN_DB)),
        }
    }

    /// The threshold that the calibration alone implies over a quiet level.
    pub open spec fn anchored(self, quiet: F32) -> F32 {
        quiet.add_spec(self.sensitivity.mul_spec(self.ceiling_over(quiet).sub_spec(quiet)))
    }

    /// The threshold that the calibration alone implies over a quiet level.
    pub fn anchored_threshold(&self, quiet: F32) -> (r: F32)
        ensures
            r == self.anchored(quiet),
    {
        let ceiling: F32 = match self.ceiling_db {
            Some(c) => c,
            None => quiet.add(F32::from_i32(2 * MARGIN_DB)),
        };
        quiet.add(self.sensitivity.mul(ceiling.sub(quiet)))
    }
}

impl Default for Tuning {
    fn default() -> (r: Tuning)
        ensures
            r == Tuning::uncalibrated(),
    {
        Tuning {
            noise_floor_db: F32::from_i32(-55),
            quiet_db: None,
            ceiling_db: None,
            sensitivity: F32::ratio(1, 2),
        }
    }
}

/// What the engine remembers between frames.
pub struct Memory {
    /// Levels of the last frames that fed the baseline, oldest first.
    pub levels: Seq<F32>,
    /// Their spectral tilts.
    pub tilts: Seq<F32>,
    /// Frames in a row that were voiced, neither calm nor bright.
    pub unfed_streak: u32,
    pub tuning: Tuning,
    /// The drift last worked out.
    pub drift_db: F32,
}

impl Memory {
    /// The engine as built.
    pub open spec fn initial(tuning: Tuning) -> Memory {
        Memory {
            levels: Seq::empty(),
            tilts: Seq::empty(),
            unfed_streak: 0,
            tuning,
            drift_db: F32::not_a_number(),
        }
    }

    /// Over the noise gate, and voice.
    pub open spec fn hears(self, f: FrameFeatures) -> bool {
        &&& !f.db.lt_spec(self.tuning.noise_floor_db.add_spec(F32::of_int(BAND_DB as int)))
        &&& voiced(f.zcr, f.spectral)
    }

    /// How far the baseline has moved from the calibrated quiet level: NaN
    /// without a calibration, zero until there is a baseline.
    pub open spec fn drift(self) -> F32 {
        match self.tuning.quiet_db {
            None => F32::not_a_number(),
            Some(quiet) => match median_of(self.levels) {
                Some(m) => m.sub_spec(quiet),
                None => F32 { bits: 0 },
            },
        }
    }

    /// The threshold: the calibrated one moved by the drift, or a margin above
    /// the baseline. `fallback` stands in for a baseline that is still empty.
    pub open spec fn threshold(self, fallback: F32) -> F32 {
        match self.tuning.quiet_db {
            None => median_of(self.levels).unwrap_or(fallback).add_spec(
                F32::of_int(MARGIN_DB as int),
            ),
            Some(quiet) => self.tuning.anchored(quiet).add_spec(self.drift()),
        }
    }

    /// Where getting loud begins.
    pub open spec fn cutoff(self, fallback: F32) -> F32 {
        self.threshold(fallback).sub_spec(F32::of_int(BAND_DB as int))
    }

    /// Brighter than the speaker usually is.
    pub open spec fn bright(self, f: FrameFeatures) -> bool {
        median_of(self.tilts).unwrap_or(f.spectral.tilt_db).add_spec(
            F32::of_int(BAND_DB as int),
        ).lt_spec(f.spectral.tilt_db)
    }

    /// Below the band that counts as getting loud.
    pub open spec fn calm(self, f: FrameFeatures) -> bool {
        f.db.lt_spec(self.cutoff(f.db))
    }

    /// Voice at or above the band, but not bright: perhaps a gain step.
    pub open spec fn stuck(self, f: FrameFeatures) -> bool {
        self.hears(f) && !self.calm(f) && !self.bright(f)
    }

    /// The frame feeds the baselines: it is calm, or the level has been stuck
    /// for so long that a shout would be implausible.
    pub open spec fn feeds(self, f: FrameFeatures) -> bool {
        &&& self.hears(f)
        &&& self.calm(f) || (!self.bright(f) && self.unfed_streak >= RETRAIN_AFTER_FRAMES)
    }

    pub open spec fn state_for(self, f: FrameFeatures) -> State {
        if !self.hears(f) {
            State::Quiet
        } else if self.threshold(f.db).le_spec(f.db) && self.bright(f) {
            State::TooLoud { db: f.db }
        } else if self.cutoff(f.db).le_spec(f.db) {
            State::GettingLoud { db: f.db }
        } else {
            State::Calm { db: f.db }
        }
    }

    /// What is remembered after a frame.
    pub open spec fn next(self, f: FrameFeatures) -> Memory {
        Memory {
            levels: if self.feeds(f) {
                last_n(self.levels.push(f.db), BASELINE_FRAMES as int)
            } else {
                self.levels
            },
            tilts: if self.feeds(f) {
                last_n(self.tilts.push(f.spectral.tilt_db), BASELINE_FRAMES as int)
            } else {
                self.tilts
            },
            unfed_streak: if !self.hears(f) {
                self.unfed_streak
            } else if self.stuck(f) {
                if self.unfed_streak == u32::MAX {
                    u32::MAX
                } else {
                    (self.unfed_streak + 1) as u32
                }
            } else {
                0
            },
            tuning: self.tuning,
            drift_db: if self.hears(f) {
                self.drift()
            } else {
                self.drift_db
            },
        }
    }
}

/// Pure DSP cascade: energy gate -> VAD -> level vs baseline + tilt.
/// No allocation once built, no I/O, no locks.
pub struct Engine {
    level_baseline: RollingMedian,
    tilt_baseline: RollingMedian,
    unfed_streak: u32,
    tuning: Tuning,
    drift_db: F32,
}

impl View for Engine {
    type V = Memory;

    closed spec fn view(&self) -> Memory {
        Memory {
            levels: self.level_baseline.window(),
            tilts: self.tilt_baseline.window(),
            unfed_streak: self.unfed_streak,
            tuning: self.tuning,
            drift_db: self.drift_db,
        }
    }
}

impl Engine {
    pub closed spec fn wf(self) -> bool {
        &&& self.level_baseline.wf()
        &&& self.level_baseline.capacity() == BASELINE_FRAMES
        &&& self.tilt_baseline.wf()
        &&& self.tilt_baseline.capacity() == BASELINE_FRAMES
    }

    pub fn new() -> (r: Engine)
        ensures
            r.wf(),
            r@ == Memory::initial(Tuning::uncalibrated()),
    {
        Engine::with_tuning(Tuning::default())
    }

    pub fn with_tuning(tuning: Tuning) -> (r: Engine)
        ensures
            r.wf(),
            r@ == Memory::initial(tuning),
    {
        Engine {
            level_baseline: RollingMedian::new(BASELINE_FRAMES),
            tilt_baseline: RollingMedian::new(BASELINE_FRAMES),
            unfed_streak: 0,
            tuning,
            drift_db: F32::quiet_nan(),
        }
    }

    /// A new calibration; the baselines are kept.
    pub fn set_tuning(&mut self, tuning: Tuning)
        requires
            old(self).wf(),
        ensures
            final(self).wf(),
            final(self)@ == (Memory { tuning, ..old(self)@ }),
    {
        self.tuning = tuning;
    }

    /// The threshold, with `fallback` for an empty baseline. Keeps the drift.
    fn refresh(&mut self, fallback: F32) -> (r: F32)
        requires
            old(self).wf(),
        ensures
            final(self).wf(),
            final(self)@ == (Memory { drift_db: old(self)@.drift(), ..old(self)@ }),
            r == old(self)@.threshold(fallback),
    {
        let baseline: Option<F32> = self.level_baseline.median();
        match self.tuning.quiet_db {
            None => {
                self.drift_db = F32::quiet_nan();
                match baseline {
                    Some(m) => m.add(F32::from_i32(MARGIN_DB)),
                    None => fallback.add(F32::from_i32(MARGIN_DB)),
                }
            },
            Some(quiet) => {
                let drift: F32 = match baseline {
                    Some(m) => m.sub(quiet),
                    None => F32::from_bits(0),
                };
                self.drift_db = drift;
                self.tuning.anchored_threshold(quiet).add(drift)
            },
        }
    }

    /// The live threshold; NaN while there is neither a calibration nor a
    /// baseline to derive one from.
    pub fn threshold_db(&mut self) -> (r: F32)
        requires
            old(self).wf(),
        ensures
            final(self).wf(),
            final(self)@ == (Memory { drift_db: old(self)@.drift(), ..old(self)@ }),
            r == old(self)@.threshold(F32::not_a_number()),
    {
        self.refresh(F32::quiet_nan())
    }

    /// Baseline drift since calibration (dB), as last worked out for a
    /// threshold; NaN when uncalibrated.
    pub fn baseline_drift_db(&self) -> (r: F32)
        ensures
            r == self@.drift_db,
    {
        self.drift_db
    }

    /// One frame through the cascade.
    pub fn process(&mut self, frame: &[F32], analysis: &Analysis) -> (r: State)
        requires
            old(self).wf(),
        ensures
            final(self).wf(),
            final(self)@ == old(self)@.next(features_of(frame@, *analysis)),
            r == old(self)@.state_for(features_of(frame@, *analysis)),
    {
        self.judge(&FrameFeatures::of(frame, analysis))
    }

    /// [`Engine::process`] for a frame whose features are already known.
    pub fn judge(&mut self, f: &FrameFeatures) -> (r: State)
        requires
            old(self).wf(),
        ensures
            final(self).wf(),
            final(self)@ == old(self)@.next(*f),
            r == old(self)@.state_for(*f),
    {
        let ghost before = self@;
        let band: F32 = F32::from_i32(BAND_DB);
        let db: F32 = f.db;
        if db.lt(self.tuning.noise_floor_db.add(band)) {
            return State::Quiet;
        }
        if !is_voiced(f.zcr, &f.spectral) {
            return State::Quiet;
        }
        let threshold: F32 = self.refresh(db);
        let tilt: F32 = f.spectral.tilt_db;
        let tilt_ref: F32 = match self.tilt_baseline.median() {
            Some(m) => m,
            None => tilt,
        };
        let bright: bool = tilt_ref.add(band).lt(tilt);
        let cutoff: F32 = threshold.sub(band);
        assert(threshold == before.threshold(db));
        assert(bright == before.bright(*f));
        // Only calm frames feed the baselines, so a long shout can't raise the threshold.
        if db.lt(cutoff) {
            self.level_baseline.push(db);
            self.tilt_baseline.push(tilt);
            self.unfed_streak = 0;
        } else if bright {
            // Genuine shouting: never let it drag the baseline up.
            self.unfed_streak = 0;
        } else {
            // Voiced, above the feed cutoff, but not bright: could be a mic
            // gain step rather than a raised voice. Let it retrain once it's
            // persisted long enough that a shout would be implausible.
            if self.unfed_streak < u32::MAX {
                self.unfed_streak = self.unfed_streak + 1;
            }
            if self.unfed_streak > RETRAIN_AFTER_FRAMES {
                self.level_baseline.push(db);
                self.tilt_baseline.push(tilt);
            }
        }
        if threshold.le(db) && bright {
            State::TooLoud { db }
        } else if cutoff.le(db) {
            State::GettingLoud { db }
        } else {
            State::Calm { db }
        }
    }
}

impl Default for Engine {
    fn default() -> (r: Engine)
        ensures
            r.wf(),
            r@ == Memory::initial(Tuning::uncalibrated()),
    {
        Engine::new()
    }
}

} // verus!
