//! Calibration measurements.

use vstd::prelude::*;

#[allow(unused_imports)]
use crate::binary32::order::{lemma_int_mul, lemma_whole_on_grid, unit};
use crate::binary32::F32;
#[allow(unused_imports)]
use crate::engine::baseline::{median_of, median_of_first};
#[allow(unused_imports)]
use crate::engine::features::{features_of, Analysis, FrameFeatures};
#[allow(unused_imports)]
use crate::engine::vad::{is_voiced, voiced};
use crate::engine::{FRAME_SIZE, SAMPLE_RATE};

verus! {

/// Ceiling must sit meaningfully above the quiet point or the take is bad
/// (not loud enough, or input gain clipping): at least this many dB.
pub const MIN_CEILING_GAP_DB: i32 = 3;

pub open spec fn sane_ceiling(quiet_db: F32, ceiling_db: F32) -> bool {
    F32::of_int(MIN_CEILING_GAP_DB as int).le_spec(ceiling_db.sub_spec(quiet_db))
}

pub fn ceiling_is_sane(quiet_db: F32, ceiling_db: F32) -> (r: bool)
    ensures
        r == sane_ceiling(quiet_db, ceiling_db),
{
    F32::from_i32(MIN_CEILING_GAP_DB).le(ceiling_db.sub(quiet_db))
}

/// How many frames make up `seconds`: whole frames at 31 frames a second, at
/// least one.
pub open spec fn target_frames(seconds: F32) -> int {
    let frames = seconds.mul_spec(F32::of_int(SAMPLE_RATE as int / FRAME_SIZE as int)).cast_int(
        0,
        usize::MAX as int,
    );
    if frames < 1 {
        1
    } else {
        frames
    }
}

/// How many levels a measurement makes room for at most before it begins: more
/// than half a minute.
pub const RESERVED_FRAMES: usize = 1024;

/// A measurement as far as it has come.
pub struct Take {
    /// The levels collected so far.
    pub levels: Seq<F32>,
    /// How many levels are needed.
    pub needed: nat,
    /// Only voiced frames count.
    pub only_voiced: bool,
}

impl Take {
    /// A measurement of the given length, about to begin.
    pub open spec fn begin(seconds: F32, only_voiced: bool) -> Take {
        Take { levels: Seq::empty(), needed: target_frames(seconds) as nat, only_voiced }
    }

    /// All levels are in.
    pub open spec fn done(self) -> bool {
        self.levels.len() >= self.needed
    }

    /// The measurement once a frame has been fed: it takes the level, unless
    /// it is done or the frame is not of the kind that counts.
    pub open spec fn fed(self, frame: FrameFeatures) -> Take {
        if !self.done() && (self.only_voiced ==> voiced(frame.zcr, frame.spectral)) {
            Take { levels: self.levels.push(frame.db), ..self }
        } else {
            self
        }
    }

    /// The median level, once all are in.
    pub open spec fn result(self) -> Option<F32> {
        if self.done() {
            median_of(self.levels)
        } else {
            None
        }
    }

    /// The share of the needed levels that are in.
    pub open spec fn progress(self) -> F32 {
        F32::of_int(self.levels.len() as int).div_spec(F32::of_int(self.needed as int))
    }
}

/// Collects per-frame levels and reports the median once enough frames arrived.
/// Pure: the wizard UI feeds it frames and polls progress. Not hot-path code.
pub struct Measurement {
    samples: Vec<F32>,
    target: usize,
    voiced_only: bool,
    result: Option<F32>,
}

impl View for Measurement {
    type V = Take;

    closed spec fn view(&self) -> Take {
        Take {
            levels: self.samples@,
            needed: self.target as nat,
            only_voiced: self.voiced_only,
        }
    }
}

impl Measurement {
    /// A result is kept exactly when all levels are in.
    pub closed spec fn wf(self) -> bool {
        &&& 1 <= self.target
        &&& self.samples@.len() <= self.target
        &&& self.result == self@.result()
        &&& self@.done() ==> self.result is Some
    }

    /// A measurement needs at least one level and never holds more than it needs.
    pub proof fn lemma_wf(self)
        requires
            self.wf(),
        ensures
            1 <= self@.needed <= usize::MAX,
            self@.levels.len() <= self@.needed,
            self@.done() <==> self@.result() is Some,
    {
    }

    /// Ambient level: every frame counts. ~3 s per the wizard script.
    pub fn noise_floor() -> (r: Measurement)
        ensures
            r.wf(),
            r@ == Take::begin(F32::of_int(3), false),
    {
        Self::new(F32::from_i32(3), false)
    }

    /// Speaking level: only voiced frames count.
    pub fn voiced_level(seconds: F32) -> (r: Measurement)
        ensures
            r.wf(),
            r@ == Take::begin(seconds, true),
    {
        Self::new(seconds, true)
    }

    fn new(seconds: F32, voiced_only: bool) -> (r: Measurement)
        ensures
            r.wf(),
            r@ == Take::begin(seconds, voiced_only),
    {
        let frames_per_sec: u32 = SAMPLE_RATE / FRAME_SIZE as u32;
        let frames: u64 = seconds.mul(F32::from_u32(frames_per_sec)).to_u64();
        let target: usize = if frames < 1 {
            1
        } else if frames > usize::MAX as u64 {
            usize::MAX
        } else {
            frames as usize
        };
        let room: usize = if target < RESERVED_FRAMES {
            target
        } else {
            RESERVED_FRAMES
        };
        Measurement { samples: Vec::with_capacity(room), target, voiced_only, result: None }
    }

    /// Feed one frame; Some(median dB) once the target frame count is reached.
    /// A finished `Measurement` can be fed on: it keeps its result.
    pub fn push(&mut self, frame: &[F32], analysis: &Analysis) -> (r: Option<F32>)
        requires
            old(self).wf(),
        ensures
            final(self).wf(),
            final(self)@ == old(self)@.fed(features_of(frame@, *analysis)),
            r == final(self)@.result(),
    {
        self.push_features(&FrameFeatures::of(frame, analysis))
    }

    /// [`Measurement::push`] for a frame whose features are already known.
    pub fn push_features(&mut self, frame: &FrameFeatures) -> (r: Option<F32>)
        requires
            old(self).wf(),
        ensures
            final(self).wf(),
            final(self)@ == old(self)@.fed(*frame),
            r == final(self)@.result(),
    {
        if let Some(r) = self.result {
            return Some(r);
        }
        if self.voiced_only {
            if !is_voiced(frame.zcr, &frame.spectral) {
                return None;
            }
        }
        self.samples.push(frame.db);
        if self.samples.len() >= self.target {
            Some(self.complete())
        } else {
            None
        }
    }

    /// The share of the needed levels that are in.
    pub fn progress(&self) -> (r: F32)
        ensures
            r == self@.progress(),
    {
        F32::from_usize(self.samples.len()).div(F32::from_usize(self.target))
    }

    fn complete(&mut self) -> (median: F32)
        requires
            old(self).samples@.len() > 0,
        ensures
            final(self)@ == old(self)@,
            final(self).result == Some(median),
            median_of(old(self).samples@) == Some(median),
    {
        let n: usize = self.samples.len();
        let median: F32 = median_of_first(&self.samples, n);
        assert(self.samples@.take(n as int) =~= self.samples@);
        self.result = Some(median);
        median
    }
}

/// A measurement after a run of frames.
pub open spec fn take_after(take: Take, frames: Seq<FrameFeatures>) -> Take
    decreases frames.len(),
{
    if frames.len() == 0 {
        take
    } else {
        take_after(take, frames.drop_last()).fed(frames.last())
    }
}

/// The frames of a run that are speech: a zero-crossing rate from 0.01 to 0.35,
/// and more than half of the energy in the speech band.
pub open spec fn speech_of(frames: Seq<FrameFeatures>) -> Seq<FrameFeatures> {
    frames.filter(
        |f: FrameFeatures|
            F32::of_ratio(1, 100).le_spec(f.zcr) && f.zcr.le_spec(F32::of_ratio(35, 100))
                && F32::of_ratio(1, 2).lt_spec(f.spectral.speech_ratio),
    )
}

/// The levels of the first `n` frames, or of all if there are fewer.
pub open spec fn first_levels(frames: Seq<FrameFeatures>, n: nat) -> Seq<F32> {
    Seq::new(
        if frames.len() < n {
            frames.len()
        } else {
            n
        },
        |i: int| frames[i].db,
    )
}

/// A measurement holds the levels of the first frames that count, in order, and
/// no others: of every frame, or of speech alone. It has a result exactly when
/// as many as it needs have come, and that is their median. Frames that do not
/// count neither speed it up nor change it.
pub proof fn law_a_measurement_takes_the_first_frames_that_count(
    take: Take,
    frames: Seq<FrameFeatures>,
)
    requires
        take.levels.len() == 0,
        take.needed >= 1,
    ensures
        ({
            let counting = if take.only_voiced {
                speech_of(frames)
            } else {
                frames
            };
            let after = take_after(take, frames);
            &&& after.needed == take.needed
            &&& after.only_voiced == take.only_voiced
            &&& after.levels == first_levels(counting, take.needed)
            &&& after.result() is Some <==> counting.len() >= take.needed
            &&& counting.len() >= take.needed ==> after.result() == median_of(
                first_levels(counting, take.needed),
            )
        }),
    decreases frames.len(),
{
    reveal(Seq::filter);
    reveal(median_of);
    if frames.len() > 0 {
        law_a_measurement_takes_the_first_frames_that_count(take, frames.drop_last());
        let counting = if take.only_voiced {
            speech_of(frames)
        } else {
            frames
        };
        assert(take_after(take, frames).levels =~= first_levels(counting, take.needed));
    } else {
        assert(take.levels =~= first_levels(frames, take.needed));
        assert(speech_of(frames) =~= frames);
    }
}

/// A frame that is not speech leaves a measurement of a speaking level as it was.
pub proof fn law_only_speech_counts_for_a_speaking_level(take: Take, f: FrameFeatures)
    requires
        take.only_voiced,
        !F32::of_ratio(1, 100).le_spec(f.zcr) || !f.zcr.le_spec(F32::of_ratio(35, 100))
            || !F32::of_ratio(1, 2).lt_spec(f.spectral.speech_ratio),
    ensures
        take.fed(f) == take,
{
}

/// A second is 31 frames, and a measurement needs at least one: how many frames
/// whole seconds need.
pub proof fn law_a_second_is_31_frames(seconds: int)
    requires
        0 <= seconds <= 0x1000,
    ensures
        target_frames(F32::of_int(seconds)) == (if seconds == 0 {
            1
        } else {
            31 * seconds
        }),
{
    let u = unit();
    vstd::arithmetic::power2::lemma_pow2_pos(149);
    let n = seconds * 31;
    let p = lemma_whole_on_grid(n);
    lemma_int_mul(seconds, 31, p);
    let r = F32::of_int(seconds).mul_spec(F32::of_int(31));
    reveal(F32::truncated);
    assert(r.mag() == p);
    vstd::arithmetic::div_mod::lemma_fundamental_div_mod_converse(n * u, u, n, 0);
}

/// A ceiling counts exactly if it is at least 3 dB above the quiet level.
pub proof fn law_a_ceiling_stands_three_db_over_the_quiet_level(quiet_db: F32, ceiling_db: F32)
    ensures
        sane_ceiling(quiet_db, ceiling_db) <==> F32::of_int(3).le_spec(
            ceiling_db.sub_spec(quiet_db),
        ),
{
}

/// A measurement begins empty, and needs as many frames as its seconds hold at 31
/// a second, the fraction dropped, but at least one.
pub proof fn law_a_measurement_begins_empty(seconds: F32, only_voiced: bool)
    ensures
        ({
            let take = Take::begin(seconds, only_voiced);
            let frames = seconds.mul_spec(F32::of_int(31)).cast_int(0, usize::MAX as int);
            &&& take.levels.len() == 0
            &&& take.only_voiced == only_voiced
            &&& take.needed == (if frames < 1 {
                1
            } else {
                frames
            })
        }),
{
}

} // verus!
