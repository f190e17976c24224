//! Everything that happens to one audio frame.

use vstd::prelude::*;

#[allow(unused_imports)]
use crate::alert::{
    fires_at, gate_after, law_a_lasting_shout_fires, law_alert_needs_an_unbroken_hold,
    law_alerts_are_spaced, law_monotonic_clock_is_accepted, orderly, over_at, time_at, unbroken,
    AlertGate, Input, Reading,
};
#[allow(unused_imports)]
use crate::binary32::order::{
    lemma_cast_monotone, lemma_div_monotone, lemma_mul_monotone, lemma_of_int_exact,
    lemma_of_int_monotone,
};
use crate::binary32::F32;
use crate::bridge::{Command, MeasurementKind};
#[allow(unused_imports)]
use crate::engine::baseline::{law_an_empty_window_has_no_median, median_of};
use crate::engine::calibrate::{Measurement, Take};
#[allow(unused_imports)]
use crate::engine::calibrate::{
    first_levels, law_a_measurement_takes_the_first_frames_that_count, law_a_second_is_31_frames,
    speech_of, take_after,
};
#[allow(unused_imports)]
use crate::engine::features::{features_of, Analysis, FrameFeatures};
use crate::engine::{Engine, Memory, State};

verus! {

/// Which tray icon should be showing.
#[derive(Debug, Clone, Copy, PartialEq, Eq, Structural)]
pub enum TrayState {
    Quiet,
    Warning,
    Loud,
}

pub open spec fn tray_of(state: State) -> TrayState {
    match state {
        State::Quiet | State::Calm { .. } => TrayState::Quiet,
        State::GettingLoud { .. } => TrayState::Warning,
        State::TooLoud { .. } => TrayState::Loud,
    }
}

pub fn tray_state_for(state: State) -> (r: TrayState)
    ensures
        r == tray_of(state),
{
    match state {
        State::Quiet => TrayState::Quiet,
        State::Calm { .. } => TrayState::Quiet,
        State::GettingLoud { .. } => TrayState::Warning,
        State::TooLoud { .. } => TrayState::Loud,
    }
}

/// Per-frame outcome for the UI thread.
#[derive(Debug, Clone, Copy, PartialEq, Eq, Structural)]
pub struct FrameOutcome {
    /// Some(state) only when the tray icon must change.
    pub state_change: Option<TrayState>,
    pub beep: bool,
    /// Some(..) only on a progress-percent change or on completion of an
    /// active calibration measurement.
    pub measurement: Option<MeasurementUpdate>,
}

/// Progress/completion events for an in-flight calibration measurement.
#[derive(Debug, Clone, Copy, PartialEq, Eq, Structural)]
pub enum MeasurementUpdate {
    Progress(F32),
    Complete(MeasurementKind, F32),
}

/// Level reported for frames the cascade rejected (silence / non-voice), in dB.
pub const SILENT_DB: i32 = -100;

/// How long a level counts for the ghost peak before it decays.
pub const PEAK_HOLD_MS: u64 = 3000;

/// Room for the levels of that long, at 31 frames a second.
pub const RECENT_FRAMES: usize = 128;

/// The level a state carries.
pub open spec fn level_in(state: State) -> F32 {
    match state {
        State::Quiet => F32::of_int(SILENT_DB as int),
        State::Calm { db } => db,
        State::GettingLoud { db } => db,
        State::TooLoud { db } => db,
    }
}

pub fn level_of(state: State) -> (r: F32)
    ensures
        r == level_in(state),
{
    match state {
        State::Quiet => F32::from_i32(SILENT_DB),
        State::Calm { db } => db,
        State::GettingLoud { db } => db,
        State::TooLoud { db } => db,
    }
}

/// A running measurement.
pub struct ActiveTake {
    pub kind: MeasurementKind,
    pub take: Take,
    /// The last whole percent that was reported.
    pub last_pct: u32,
}

/// The whole percent of a progress.
pub open spec fn whole_percent(progress: F32) -> int {
    progress.mul_spec(F32::of_int(100)).cast_int(0, u32::MAX as int)
}

impl ActiveTake {
    /// What a frame makes of the measurement: gone once it is done.
    pub open spec fn next(self, f: FrameFeatures) -> Option<ActiveTake> {
        let take = self.take.fed(f);
        if take.done() {
            None
        } else {
            Some(
                ActiveTake {
                    kind: self.kind,
                    take,
                    last_pct: whole_percent(take.progress()) as u32,
                },
            )
        }
    }

    /// What a frame reports: the result, or a progress whose whole percent has
    /// changed.
    pub open spec fn update(self, f: FrameFeatures) -> Option<MeasurementUpdate> {
        let take = self.take.fed(f);
        if take.done() {
            Some(MeasurementUpdate::Complete(self.kind, take.result()->0))
        } else if whole_percent(take.progress()) != self.last_pct {
            Some(MeasurementUpdate::Progress(take.progress()))
        } else {
            None
        }
    }
}

/// A level and when it was heard.
#[derive(Debug, Clone, Copy, PartialEq, Eq, Structural)]
pub struct Sighting {
    pub level_db: F32,
    pub at_ms: u64,
}

/// A sighting still counts for the peak.
pub open spec fn recent_at(s: Sighting, now_ms: u64) -> bool {
    now_ms - s.at_ms <= PEAK_HOLD_MS
}

/// The sightings that still count.
pub open spec fn still_recent(s: Seq<Sighting>, now_ms: u64) -> Seq<Sighting>
    decreases s.len(),
{
    if s.len() == 0 {
        Seq::empty()
    } else if recent_at(s.last(), now_ms) {
        still_recent(s.drop_last(), now_ms).push(s.last())
    } else {
        still_recent(s.drop_last(), now_ms)
    }
}

/// The highest of some levels; a NaN yields to any number.
pub open spec fn highest(s: Seq<Sighting>) -> F32
    decreases s.len(),
{
    if s.len() == 0 {
        F32::of_int(SILENT_DB as int)
    } else if s.len() == 1 {
        s[0].level_db
    } else {
        highest(s.drop_last()).max_spec(s.last().level_db)
    }
}

/// The detector between frames.
pub struct Watch {
    pub memory: Memory,
    pub gate: AlertGate,
    /// The tray state last announced.
    pub last_state: Option<TrayState>,
    pub test_mode: bool,
    pub last_level_db: F32,
    /// The levels of the last frame and of those no more than the hold time
    /// before it, oldest first.
    pub recent: Seq<Sighting>,
    pub measurement: Option<ActiveTake>,
}

impl Watch {
    pub open spec fn initial(memory: Memory, gate: AlertGate) -> Watch {
        Watch {
            memory,
            gate,
            last_state: Some(TrayState::Quiet),
            test_mode: false,
            last_level_db: F32::of_int(SILENT_DB as int),
            recent: Seq::empty(),
            measurement: None,
        }
    }

    /// A frame can come at `now_ms`: the alert gate accepts that time.
    pub open spec fn accepts(self, f: FrameFeatures, now_ms: u64) -> bool {
        self.gate.accepts(self.memory.state_for(f) is TooLoud, now_ms)
    }

    /// The highest level seen in the last `PEAK_HOLD_MS`; silence before the
    /// first frame.
    pub open spec fn peak(self) -> F32 {
        highest(self.recent)
    }

    /// The detector after a frame.
    pub open spec fn next(self, f: FrameFeatures, now_ms: u64) -> Watch {
        let state = self.memory.state_for(f);
        let level = level_in(state);
        Watch {
            memory: self.memory.next(f),
            gate: self.gate.next(state is TooLoud, now_ms),
            last_state: Some(tray_of(state)),
            test_mode: self.test_mode,
            last_level_db: level,
            recent: still_recent(self.recent, now_ms).push(
                Sighting { level_db: level, at_ms: now_ms },
            ),
            measurement: match self.measurement {
                Some(active) => active.next(f),
                None => None,
            },
        }
    }

    /// What the UI hears of a frame. Test mode and a running measurement mute
    /// the beep and nothing else.
    pub open spec fn outcome(self, f: FrameFeatures, now_ms: u64) -> FrameOutcome {
        let state = self.memory.state_for(f);
        FrameOutcome {
            state_change: if self.last_state == Some(tray_of(state)) {
                None
            } else {
                Some(tray_of(state))
            },
            beep: self.gate.due(state is TooLoud, now_ms) && !self.test_mode
                && self.measurement is None,
            measurement: match self.measurement {
                Some(active) => active.update(f),
                None => None,
            },
        }
    }

    /// The next frame must re-announce its state, and a shout in progress must
    /// re-earn the hold.
    pub open spec fn resumed(self) -> Watch {
        Watch { last_state: None, gate: AlertGate { over_since: None, ..self.gate }, ..self }
    }

    /// The detector after a command.
    pub open spec fn commanded(self, cmd: Command) -> Watch {
        match cmd {
            Command::SetTuning(tuning) => Watch {
                memory: Memory { tuning, ..self.memory },
                ..self
            },
            Command::SetGate { hold_ms, cooldown_ms } => Watch {
                gate: AlertGate { hold_ms, cooldown_ms, over_since: None, cooldown_until: 0 },
                ..self
            },
            Command::SetTestMode(on) => Watch { test_mode: on, ..self },
            Command::SetEnabledIconBaseline => self.resumed(),
            Command::StartMeasurement(kind, m) => Watch {
                measurement: Some(ActiveTake { kind, take: m@, last_pct: 0 }),
                ..self
            },
            Command::CancelMeasurement => Watch { measurement: None, ..self },
        }
    }
}

/// Owns all per-frame state so the audio callback stays a thin shim
/// and the logic is testable without an audio device.
pub struct Detector {
    engine: Engine,
    gate: AlertGate,
    last_state: Option<TrayState>,
    test_mode: bool,
    last_level_db: F32,
    recent: Vec<Sighting>,
    /// Active calibration measurement, if any: kind, the pure accumulator,
    /// and the last whole-percent progress value emitted for it (so repeat
    /// frames at the same percent don't spam the UI).
    measurement: Option<(MeasurementKind, Measurement, u32)>,
}

impl View for Detector {
    type V = Watch;

    closed spec fn view(&self) -> Watch {
        Watch {
            memory: self.engine@,
            gate: self.gate,
            last_state: self.last_state,
            test_mode: self.test_mode,
            last_level_db: self.last_level_db,
            recent: self.recent@,
            measurement: match self.measurement {
                Some((kind, m, last_pct)) => Some(ActiveTake { kind, take: m@, last_pct }),
                None => None,
            },
        }
    }
}

/// A command whose measurement, if it carries one, is in order.
pub open spec fn command_wf(cmd: Command) -> bool {
    cmd matches Command::StartMeasurement(_, m) ==> m.wf()
}

impl Detector {
    pub closed spec fn wf(self) -> bool {
        &&& self.engine.wf()
        &&& self.measurement matches Some((_, m, _)) ==> m.wf()
    }

    pub fn new(engine: Engine, gate: AlertGate) -> (r: Detector)
        requires
            engine.wf(),
        ensures
            r.wf(),
            r@ == Watch::initial(engine@, gate),
    {
        Detector {
            engine,
            gate,
            last_state: Some(TrayState::Quiet),
            test_mode: false,
            last_level_db: F32::from_i32(SILENT_DB),
            recent: Vec::with_capacity(RECENT_FRAMES),
            measurement: None,
        }
    }

    /// One frame and the time it came at, on a clock that never runs backwards.
    pub fn on_frame(&mut self, frame: &[F32], analysis: &Analysis, now_ms: u64) -> (r: FrameOutcome)
        requires
            old(self).wf(),
            old(self)@.accepts(features_of(frame@, *analysis), now_ms),
        ensures
            final(self).wf(),
            final(self)@ == old(self)@.next(features_of(frame@, *analysis), now_ms),
            r == old(self)@.outcome(features_of(frame@, *analysis), now_ms),
    {
        let ghost before = self@;
        let f: FrameFeatures = FrameFeatures::of(frame, analysis);
        // The measurement, if any, sees every frame first: it must not miss
        // a sample to detection logic running underneath it.
        let measuring: bool = self.measurement.is_some();
        let measurement: Option<MeasurementUpdate> = self.measure(&f);
        let state: State = self.engine.judge(&f);
        // Test mode still drives the icon and the meter; it only mutes the
        // speaker, so the alert gate keeps running and its timing stays honest.
        // Measurements suppress the beep the same way (the ceiling step asks
        // the user to be loud on purpose).
        let too_loud: bool = matches!(state, State::TooLoud { .. });
        let due: bool = self.gate.update(too_loud, now_ms);
        let beep: bool = due && !self.test_mode && !measuring;
        let level_db: F32 = level_of(state);
        self.last_level_db = level_db;
        self.sight(level_db, now_ms);
        let tray_state: TrayState = tray_state_for(state);
        let same: bool = match self.last_state {
            Some(last) => last == tray_state,
            None => false,
        };
        let state_change: Option<TrayState> = if same {
            None
        } else {
            self.last_state = Some(tray_state);
            Some(tray_state)
        };
        FrameOutcome { state_change, beep, measurement }
    }

    /// Notes a level, and forgets those that no longer count for the peak.
    fn sight(&mut self, level_db: F32, now_ms: u64)
        requires
            old(self).wf(),
        ensures
            final(self).wf(),
            final(self)@ == (Watch {
                recent: still_recent(old(self)@.recent, now_ms).push(
                    Sighting { level_db, at_ms: now_ms },
                ),
                ..old(self)@
            }),
    {
        let ghost all = self.recent@;
        let n: usize = self.recent.len();
        let mut kept: usize = 0;
        let mut i: usize = 0;
        assert(all.take(0) =~= Seq::<Sighting>::empty());
        while i < n
            invariant
                n == all.len(),
                self.recent@.len() == n,
                kept <= i <= n,
                self.recent@.take(kept as int) == still_recent(all.take(i as int), now_ms),
                self.recent@.skip(i as int) == all.skip(i as int),
                self@ == (Watch { recent: self.recent@, ..old(self)@ }),
                self.wf() == old(self).wf(),
            decreases n - i,
        {
            let s: Sighting = self.recent[i];
            proof {
                assert(self.recent@.skip(i as int)[0] == all.skip(i as int)[0]);
                assert(all.take(i + 1).drop_last() =~= all.take(i as int));
            }
            let ghost before = self.recent@;
            if now_ms < s.at_ms || now_ms - s.at_ms <= PEAK_HOLD_MS {
                self.recent.set(kept, s);
                assert(self.recent@.take(kept + 1) =~= before.take(kept as int).push(s));
                kept = kept + 1;
            }
            proof {
                assert(self.recent@.skip(i + 1) =~= all.skip(i + 1)) by {
                    assert forall|j: int| i + 1 <= j < n implies self.recent@[j] == all[j] by {
                        assert(before.skip(i as int)[j - i] == all.skip(i as int)[j - i]);
                    }
                }
            }
            i = i + 1;
        }
        assert(all.take(n as int) =~= all);
        let ghost whole = self.recent@;
        self.recent.truncate(kept);
        assert(self.recent@ =~= whole.take(kept as int));
        self.recent.push(Sighting { level_db, at_ms: now_ms });
    }

    /// Feeds the running measurement, if there is one.
    fn measure(&mut self, f: &FrameFeatures) -> (r: Option<MeasurementUpdate>)
        requires
            old(self).wf(),
        ensures
            final(self).wf(),
            final(self)@ == (Watch {
                measurement: match old(self)@.measurement {
                    Some(active) => active.next(*f),
                    None => None,
                },
                ..old(self)@
            }),
            r == (match old(self)@.measurement {
                Some(active) => active.update(*f),
                None => None,
            }),
    {
        match self.measurement.take() {
            None => None,
            Some((kind, m, last_pct)) => {
                let mut m: Measurement = m;
                let done: Option<F32> = m.push_features(f);
                proof {
                    m.lemma_wf();
                }
                match done {
                    Some(db) => Some(MeasurementUpdate::Complete(kind, db)),
                    None => {
                        let p: F32 = m.progress();
                        let pct: u32 = p.mul(F32::from_i32(100)).to_u32();
                        self.measurement = Some((kind, m, pct));
                        if pct != last_pct {
                            Some(MeasurementUpdate::Progress(p))
                        } else {
                            None
                        }
                    },
                }
            },
        }
    }

    /// Called when monitoring resumes after a pause: the next frame must
    /// re-announce its state, and a shout in progress must re-earn the hold.
    pub fn resume(&mut self)
        requires
            old(self).wf(),
        ensures
            final(self).wf(),
            final(self)@ == old(self)@.resumed(),
    {
        self.last_state = None;
        self.gate.reset();
    }

    /// dB of the most recent frame; `SILENT_DB` when the cascade said Quiet.
    pub fn last_level_db(&self) -> (r: F32)
        ensures
            r == self@.last_level_db,
    {
        self.last_level_db
    }

    /// Live threshold including adaptive drift.
    pub fn threshold_db(&mut self) -> (r: F32)
        requires
            old(self).wf(),
        ensures
            final(self).wf(),
            final(self)@ == (Watch {
                memory: Memory { drift_db: old(self)@.memory.drift(), ..old(self)@.memory },
                ..old(self)@
            }),
            r == old(self)@.memory.threshold(F32::not_a_number()),
    {
        self.engine.threshold_db()
    }

    /// Highest level seen in the last `PEAK_HOLD_MS`: one of the levels that
    /// recent, and none of them is above it. `SILENT_DB` before the first frame.
    pub fn peak_db(&self) -> (r: F32)
        ensures
            r == self@.peak(),
            self@.recent.len() == 0 ==> r == F32::of_int(SILENT_DB as int),
            self@.recent.len() > 0 ==> exists|i: int|
                0 <= i < self@.recent.len() && r == (#[trigger] self@.recent[i]).level_db,
            forall|i: int|
                0 <= i < self@.recent.len() ==> !r.lt_spec((#[trigger] self@.recent[i]).level_db),
    {
        let n: usize = self.recent.len();
        proof {
            lemma_highest(self.recent@);
        }
        if n == 0 {
            return F32::from_i32(SILENT_DB);
        }
        let mut best: F32 = self.recent[0].level_db;
        let mut i: usize = 1;
        assert(self.recent@.take(1).len() == 1);
        while i < n
            invariant
                1 <= i <= n == self.recent@.len(),
                best == highest(self.recent@.take(i as int)),
            decreases n - i,
        {
            assert(self.recent@.take(i + 1).drop_last() =~= self.recent@.take(i as int));
            best = best.max(self.recent[i].level_db);
            i = i + 1;
        }
        assert(self.recent@.take(n as int) =~= self.recent@);
        best
    }

    /// Baseline drift since calibration (dB); NaN when uncalibrated. Cheap:
    /// it reads a value the engine already cached while computing this
    /// frame's threshold, rather than running a second median.
    pub fn drift_db(&self) -> (r: F32)
        ensures
            r == self@.memory.drift_db,
    {
        self.engine.baseline_drift_db()
    }

    /// Apply a UI command in the audio callback, between frames.
    pub fn apply(&mut self, cmd: Command)
        requires
            old(self).wf(),
            command_wf(cmd),
        ensures
            final(self).wf(),
            final(self)@ == old(self)@.commanded(cmd),
    {
        match cmd {
            Command::SetTuning(tuning) => self.engine.set_tuning(tuning),
            Command::SetGate { hold_ms, cooldown_ms } => {
                self.gate = AlertGate::new(hold_ms, cooldown_ms);
            },
            Command::SetTestMode(on) => {
                self.test_mode = on;
            },
            Command::SetEnabledIconBaseline => self.resume(),
            Command::StartMeasurement(kind, m) => {
                self.measurement = Some((kind, *m, 0));
            },
            Command::CancelMeasurement => {
                self.measurement = None;
            },
        }
    }
}

/// What a measurement of each kind listens for.
pub open spec fn take_for(kind: MeasurementKind) -> Take {
    match kind {
        MeasurementKind::NoiseFloor => Take::begin(F32::of_int(3), false),
        MeasurementKind::QuietPoint => Take::begin(F32::of_int(8), true),
        MeasurementKind::Ceiling => Take::begin(F32::of_int(5), true),
    }
}

/// Kind -> `Measurement` constructor mapping. Built on the UI thread and handed
/// through `Command::StartMeasurement` pre-built.
pub fn measurement_for(kind: MeasurementKind) -> (r: Measurement)
    ensures
        r.wf(),
        r@ == take_for(kind),
{
    match kind {
        MeasurementKind::NoiseFloor => Measurement::noise_floor(),
        MeasurementKind::QuietPoint => Measurement::voiced_level(F32::from_i32(8)),
        MeasurementKind::Ceiling => Measurement::voiced_level(F32::from_i32(5)),
    }
}

/// More levels of the same measurement never read as a smaller percent.
proof fn lemma_percent_monotone(n: int, m: int, needed: int)
    requires
        0 <= n <= m <= u64::MAX,
        1 <= needed <= u64::MAX,
    ensures
        ({
            let d = F32::of_int(needed);
            whole_percent(F32::of_int(n).div_spec(d)) <= whole_percent(F32::of_int(m).div_spec(d))
        }),
{
    let d = F32::of_int(needed);
    lemma_of_int_monotone(n, m);
    lemma_of_int_monotone(1, needed);
    lemma_of_int_monotone(1, 100);
    let a = F32::of_int(n).div_spec(d);
    let b = F32::of_int(m).div_spec(d);
    lemma_div_monotone(F32::of_int(n), F32::of_int(m), d);
    lemma_mul_monotone(a, b, F32::of_int(100));
    lemma_cast_monotone(
        a.mul_spec(F32::of_int(100)),
        b.mul_spec(F32::of_int(100)),
        0,
        u32::MAX as int,
    );
}

impl ActiveTake {
    /// The last percent reported is not ahead of the levels.
    pub open spec fn in_order(self) -> bool {
        &&& 1 <= self.take.needed <= u64::MAX
        &&& self.take.levels.len() <= self.take.needed
        &&& self.last_pct <= whole_percent(self.take.progress())
    }
}

/// Progress is reported without spam: a percent that is reported is larger
/// than every percent reported before.
pub proof fn law_reported_percents_increase(active: ActiveTake, f: FrameFeatures)
    requires
        active.in_order(),
    ensures
        active.update(f) matches Some(MeasurementUpdate::Progress(p)) ==> whole_percent(p)
            > active.last_pct,
        active.next(f) matches Some(after) ==> after.in_order() && after.last_pct
            >= active.last_pct,
{
    let take = active.take.fed(f);
    lemma_percent_monotone(
        active.take.levels.len() as int,
        take.levels.len() as int,
        active.take.needed as int,
    );
}

/// A result is reported once: with it the measurement is over, and without a
/// measurement nothing is reported.
pub proof fn law_a_measurement_ends_with_its_result(w: Watch, f: FrameFeatures, now_ms: u64)
    ensures
        w.outcome(f, now_ms).measurement matches Some(MeasurementUpdate::Complete(kind, _)) ==> {
            &&& w.next(f, now_ms).measurement is None
            &&& w.measurement is Some
            &&& w.measurement->0.kind == kind
        },
        w.measurement is None ==> w.outcome(f, now_ms).measurement is None,
        w.commanded(Command::CancelMeasurement).outcome(f, now_ms).measurement is None,
{
}

/// Muting only mutes: test mode and a running measurement silence the beep,
/// and leave the icon, the levels and the alert timing as they would be.
pub proof fn law_muting_changes_only_the_beep(w: Watch, f: FrameFeatures, now_ms: u64)
    ensures
        ({
            let loud = Watch { test_mode: false, measurement: None, ..w };
            let a = w.next(f, now_ms);
            let b = loud.next(f, now_ms);
            &&& a.memory == b.memory
            &&& a.gate == b.gate
            &&& a.last_state == b.last_state
            &&& a.last_level_db == b.last_level_db
            &&& a.recent == b.recent
            &&& w.outcome(f, now_ms).state_change == loud.outcome(f, now_ms).state_change
            &&& w.test_mode || w.measurement is Some ==> !w.outcome(f, now_ms).beep
        }),
{
}

/// A steady state sends nothing: after one frame, the next one announces its
/// tray state exactly when it differs.
pub proof fn law_only_changes_are_announced(
    w: Watch,
    first: FrameFeatures,
    first_ms: u64,
    second: FrameFeatures,
    second_ms: u64,
)
    ensures
        ({
            let after = w.next(first, first_ms);
            let was = tray_of(w.memory.state_for(first));
            let is = tray_of(after.memory.state_for(second));
            after.outcome(second, second_ms).state_change == (if was == is {
                None
            } else {
                Some(is)
            })
        }),
{
}

/// After a pause the next frame re-announces its state and cannot beep.
pub proof fn law_resume_starts_over(w: Watch, f: FrameFeatures, now_ms: u64)
    ensures
        w.resumed().outcome(f, now_ms).state_change == Some(tray_of(w.memory.state_for(f))),
        !w.resumed().outcome(f, now_ms).beep,
{
}

/// A clock that never runs backwards is accepted at every frame.
pub proof fn law_a_monotonic_clock_is_accepted(w: Watch, f: FrameFeatures, last_ms: u64, now_ms: u64)
    requires
        w.gate.in_step_with(last_ms),
        last_ms <= now_ms,
        now_ms + w.gate.cooldown_ms <= u64::MAX,
    ensures
        w.accepts(f, now_ms),
        w.next(f, now_ms).gate.in_step_with(now_ms),
        w.next(f, now_ms).gate.cooldown_ms == w.gate.cooldown_ms,
{
    law_monotonic_clock_is_accepted(w.gate, last_ms, w.memory.state_for(f) is TooLoud, now_ms);
}

/// A frame and its time.
pub struct Heard {
    pub frame: FrameFeatures,
    pub now_ms: u64,
}

/// The detector after the first `n` frames.
pub open spec fn after_frames(w: Watch, trace: Seq<Heard>, n: nat) -> Watch
    decreases n,
{
    if n == 0 {
        w
    } else {
        after_frames(w, trace, (n - 1) as nat).next(trace[n - 1].frame, trace[n - 1].now_ms)
    }
}

/// The level after frame `i`.
pub open spec fn level_at(w: Watch, trace: Seq<Heard>, i: int) -> F32 {
    after_frames(w, trace, (i + 1) as nat).last_level_db
}

/// The frames come in order.
pub open spec fn in_time(trace: Seq<Heard>) -> bool {
    forall|i: int, j: int|
        0 <= i <= j < trace.len() ==> (#[trigger] trace[i]).now_ms <= (#[trigger] trace[j]).now_ms
}

/// The highest of some levels is one of them, and none is above it.
proof fn lemma_highest(s: Seq<Sighting>)
    ensures
        s.len() > 0 ==> exists|i: int| 0 <= i < s.len() && highest(s) == (#[trigger] s[i]).level_db,
        forall|i: int| 0 <= i < s.len() ==> !highest(s).lt_spec((#[trigger] s[i]).level_db),
        highest(s).nan() ==> forall|i: int| 0 <= i < s.len() ==> (#[trigger] s[i]).level_db.nan(),
    decreases s.len(),
{
    if s.len() == 0 {
        lemma_of_int_exact(SILENT_DB as int);
    } else if s.len() == 1 {
        assert(highest(s) == s[0].level_db);
    } else {
        let t = s.drop_last();
        lemma_highest(t);
        if highest(s) == highest(t) {
            let i = choose|i: int| 0 <= i < t.len() && highest(t) == (#[trigger] t[i]).level_db;
            assert(highest(s) == s[i].level_db);
        } else {
            assert(highest(s) == s[s.len() - 1].level_db);
        }
        assert forall|i: int| 0 <= i < s.len() implies !highest(s).lt_spec(
            (#[trigger] s[i]).level_db,
        ) by {
            if i < t.len() {
                assert(t[i] == s[i]);
            }
        }
        if highest(s).nan() {
            assert forall|i: int| 0 <= i < s.len() implies (#[trigger] s[i]).level_db.nan() by {
                if i < t.len() {
                    assert(t[i] == s[i]);
                }
            }
        }
    }
}

/// What still counts are the sightings within the hold time.
proof fn lemma_still_recent(s: Seq<Sighting>, now_ms: u64, x: Sighting)
    ensures
        still_recent(s, now_ms).contains(x) <==> s.contains(x) && recent_at(x, now_ms),
    decreases s.len(),
{
    if s.len() > 0 {
        let t = s.drop_last();
        lemma_still_recent(t, now_ms, x);
        let r = still_recent(t, now_ms);
        assert(s =~= t.push(s.last()));
        lemma_push_contains(t, s.last(), x);
        lemma_push_contains(r, s.last(), x);
    }
}

proof fn lemma_push_contains(s: Seq<Sighting>, a: Sighting, x: Sighting)
    ensures
        s.push(a).contains(x) <==> s.contains(x) || x == a,
{
    let t = s.push(a);
    if s.contains(x) {
        let i = choose|i: int| 0 <= i < s.len() && s[i] == x;
        assert(t[i] == x);
    }
    assert(t[s.len() as int] == a);
}

/// Frame `i` as it was sighted.
pub open spec fn sighting(w: Watch, trace: Seq<Heard>, i: int) -> Sighting {
    Sighting { level_db: level_at(w, trace, i), at_ms: trace[i].now_ms }
}

/// Of the first `n` frames, `i` is no older than three seconds.
pub open spec fn in_window(trace: Seq<Heard>, n: nat, i: int) -> bool {
    0 <= i < n && trace[n - 1].now_ms - trace[i].now_ms <= 3000
}

/// What is remembered for the peak are exactly the frames in the window.
proof fn lemma_recent_is_the_window(w: Watch, trace: Seq<Heard>, n: nat, x: Sighting)
    requires
        in_time(trace),
        n <= trace.len(),
        w.recent.len() == 0,
    ensures
        after_frames(w, trace, n).recent.contains(x) <==> exists|i: int| #[trigger]
            in_window(trace, n, i) && x == sighting(w, trace, i),
    decreases n,
{
    if n > 0 {
        let m = (n - 1) as nat;
        let before = after_frames(w, trace, m);
        let now = trace[n - 1].now_ms;
        let new = sighting(w, trace, n - 1);
        let old_ones = still_recent(before.recent, now);
        assert(after_frames(w, trace, n).recent == old_ones.push(new));
        lemma_recent_is_the_window(w, trace, m, x);
        lemma_still_recent(before.recent, now, x);
        lemma_push_contains(old_ones, new, x);
        if old_ones.contains(x) {
            let i = choose|i: int| #[trigger]
                in_window(trace, m, i) && x == sighting(w, trace, i);
            assert(in_window(trace, n, i));
        }
        if x == new {
            assert(in_window(trace, n, n - 1));
        }
        if exists|i: int| #[trigger] in_window(trace, n, i) && x == sighting(w, trace, i) {
            let i = choose|i: int| #[trigger]
                in_window(trace, n, i) && x == sighting(w, trace, i);
            if i < m {
                assert(trace[i].now_ms <= trace[m - 1].now_ms <= trace[n - 1].now_ms);
                assert(in_window(trace, m, i));
            }
        }
    }
}

/// The ghost peak is the highest level of the frames within three seconds of
/// the last one: the level of one of them, below none of them, the last one
/// included.
pub proof fn law_the_peak_is_the_recent_high(w: Watch, trace: Seq<Heard>, n: nat)
    requires
        in_time(trace),
        0 < n <= trace.len(),
        w.recent.len() == 0,
    ensures
        exists|k: int| #[trigger]
            in_window(trace, n, k) && after_frames(w, trace, n).peak() == level_at(w, trace, k),
        forall|i: int| #[trigger]
            in_window(trace, n, i) ==> !after_frames(w, trace, n).peak().lt_spec(
                level_at(w, trace, i),
            ),
        !after_frames(w, trace, n).peak().lt_spec(after_frames(w, trace, n).last_level_db),
{
    let now = after_frames(w, trace, n);
    let s = now.recent;
    lemma_highest(s);
    let at = choose|i: int| 0 <= i < s.len() && highest(s) == (#[trigger] s[i]).level_db;
    assert(s.len() > 0);
    assert(s.contains(s[at]));
    lemma_recent_is_the_window(w, trace, n, s[at]);
    assert forall|i: int| #[trigger] in_window(trace, n, i) implies !now.peak().lt_spec(
        level_at(w, trace, i),
    ) by {
        let x = sighting(w, trace, i);
        lemma_recent_is_the_window(w, trace, n, x);
        let j = choose|j: int| 0 <= j < s.len() && s[j] == x;
        assert(!highest(s).lt_spec(s[j].level_db));
    }
    assert(in_window(trace, n, n - 1));
}

/// What a measurement of each kind listens for: every frame for the noise floor,
/// speech alone for a speaking level, quiet or loud.
pub open spec fn counting(kind: MeasurementKind, frames: Seq<FrameFeatures>) -> Seq<FrameFeatures> {
    match kind {
        MeasurementKind::NoiseFloor => frames,
        MeasurementKind::QuietPoint => speech_of(frames),
        MeasurementKind::Ceiling => speech_of(frames),
    }
}

/// How many frames a measurement of each kind takes: 3 seconds of anything, 8
/// seconds of quiet speech, 5 seconds of loud speech.
pub open spec fn frames_needed(kind: MeasurementKind) -> nat {
    match kind {
        MeasurementKind::NoiseFloor => 93,
        MeasurementKind::QuietPoint => 248,
        MeasurementKind::Ceiling => 155,
    }
}

/// What a measurement of each kind makes of a run of frames. It takes the levels
/// of the first frames that count for it: any 93 for the noise floor, 248 of
/// speech for the quiet point, 155 of speech for the ceiling. It has a result
/// exactly when so many have come, their median; silence before or in between
/// changes nothing.
pub proof fn law_each_measurement_takes_the_frames_it_asks_for(
    kind: MeasurementKind,
    frames: Seq<FrameFeatures>,
)
    ensures
        ({
            let heard = counting(kind, frames);
            let after = take_after(take_for(kind), frames);
            &&& after.levels == first_levels(heard, frames_needed(kind))
            &&& after.needed == frames_needed(kind)
            &&& after.result() is Some <==> heard.len() >= frames_needed(kind)
            &&& heard.len() >= frames_needed(kind) ==> after.result() == median_of(
                first_levels(heard, frames_needed(kind)),
            )
        }),
{
    law_a_second_is_31_frames(3);
    law_a_second_is_31_frames(8);
    law_a_second_is_31_frames(5);
    law_a_measurement_takes_the_first_frames_that_count(take_for(kind), frames);
}

/// A speaking level ignores what is not speech, for the quiet point and the
/// ceiling alike; the noise floor takes it like any other frame.
pub proof fn law_speaking_levels_ignore_what_is_not_speech(
    kind: MeasurementKind,
    before: Seq<FrameFeatures>,
    f: FrameFeatures,
)
    requires
        !F32::of_ratio(1, 100).le_spec(f.zcr) || !f.zcr.le_spec(F32::of_ratio(35, 100))
            || !F32::of_ratio(1, 2).lt_spec(f.spectral.speech_ratio),
    ensures
        ({
            let take = take_after(take_for(kind), before);
            &&& kind != MeasurementKind::NoiseFloor ==> take.fed(f) == take
            &&& kind == MeasurementKind::NoiseFloor && before.len() < 93 ==> take.fed(f).levels
                == take.levels.push(f.db)
        }),
{
    law_each_measurement_takes_the_frames_it_asks_for(kind, before);
    law_a_measurement_takes_the_first_frames_that_count(take_for(kind), before);
}

/// The frames of a trace, without their times.
pub open spec fn frames_in(trace: Seq<Heard>, n: nat) -> Seq<FrameFeatures> {
    Seq::new(n, |i: int| trace[i].frame)
}

/// A measurement that was started runs until it has heard enough, reports its
/// result with the frame that completes it, and no result before or after: the
/// median of the first levels that count.
pub proof fn law_a_started_measurement_is_reported_when_complete(
    w: Watch,
    kind: MeasurementKind,
    trace: Seq<Heard>,
    n: nat,
)
    requires
        w.measurement == Some(ActiveTake { kind, take: take_for(kind), last_pct: 0 }),
        n < trace.len(),
    ensures
        ({
            let before = counting(kind, frames_in(trace, n));
            let now = counting(kind, frames_in(trace, n + 1));
            let needed = frames_needed(kind);
            let at = after_frames(w, trace, n);
            let report = at.outcome(trace[n as int].frame, trace[n as int].now_ms).measurement;
            &&& at.measurement is Some <==> before.len() < needed
            &&& report is Some && report->0 is Complete <==> before.len() < needed && now.len()
                >= needed
            &&& report matches Some(MeasurementUpdate::Complete(k, db)) ==> k == kind && Some(db)
                == median_of(first_levels(now, needed))
            &&& report matches Some(MeasurementUpdate::Progress(p)) ==> p == F32::of_int(
                now.len() as int,
            ).div_spec(F32::of_int(needed as int))
        }),
{
    let needed = frames_needed(kind);
    law_each_measurement_takes_the_frames_it_asks_for(kind, frames_in(trace, n));
    law_each_measurement_takes_the_frames_it_asks_for(kind, frames_in(trace, n + 1));
    assert(frames_in(trace, n + 1).drop_last() =~= frames_in(trace, n));
    assert(frames_in(trace, n + 1).last() == trace[n as int].frame);
    lemma_measurement_runs(w, kind, trace, n);
    law_an_empty_window_has_no_median(first_levels(counting(kind, frames_in(trace, n + 1)), needed));
}

proof fn lemma_counting_grows(kind: MeasurementKind, trace: Seq<Heard>, n: nat)
    requires
        n > 0,
    ensures
        counting(kind, frames_in(trace, (n - 1) as nat)).len() <= counting(
            kind,
            frames_in(trace, n),
        ).len() <= counting(kind, frames_in(trace, (n - 1) as nat)).len() + 1,
{
    reveal(Seq::filter);
    assert(frames_in(trace, n).drop_last() =~= frames_in(trace, (n - 1) as nat));
}

proof fn lemma_measurement_runs(w: Watch, kind: MeasurementKind, trace: Seq<Heard>, n: nat)
    requires
        w.measurement == Some(ActiveTake { kind, take: take_for(kind), last_pct: 0 }),
        n <= trace.len(),
    ensures
        ({
            let at = after_frames(w, trace, n);
            let heard = counting(kind, frames_in(trace, n));
            &&& at.measurement is Some <==> heard.len() < frames_needed(kind)
            &&& at.measurement matches Some(active) ==> active.kind == kind && active.take
                == take_after(take_for(kind), frames_in(trace, n))
        }),
    decreases n,
{
    law_each_measurement_takes_the_frames_it_asks_for(kind, frames_in(trace, n));
    if n == 0 {
        assert(frames_in(trace, 0) =~= Seq::<FrameFeatures>::empty());
        reveal(Seq::filter);
    } else {
        let m = (n - 1) as nat;
        lemma_measurement_runs(w, kind, trace, m);
        lemma_counting_grows(kind, trace, n);
        law_each_measurement_takes_the_frames_it_asks_for(kind, frames_in(trace, m));
        assert(frames_in(trace, n).drop_last() =~= frames_in(trace, m));
        assert(frames_in(trace, n).last() == trace[m as int].frame);
    }
}

/// The icon is quiet for silence and calm voice, warns when it is getting loud and
/// is loud when it is too loud; a change is announced exactly when the icon last
/// announced was another one.
pub proof fn law_the_icon_shows_the_state(w: Watch, f: FrameFeatures, now_ms: u64)
    ensures
        ({
            let icon = match w.memory.state_for(f) {
                State::Quiet => TrayState::Quiet,
                State::Calm { .. } => TrayState::Quiet,
                State::GettingLoud { .. } => TrayState::Warning,
                State::TooLoud { .. } => TrayState::Loud,
            };
            let change = w.outcome(f, now_ms).state_change;
            &&& w.next(f, now_ms).last_state == Some(icon)
            &&& w.last_state == Some(icon) ==> change is None
            &&& w.last_state != Some(icon) ==> change == Some(icon)
        }),
{
}

/// The level shown is the frame's own, or -100 dB for a frame that is quiet; and
/// the frame is judged and remembered as the engine alone would.
pub proof fn law_the_level_shown_is_the_frames(w: Watch, f: FrameFeatures, now_ms: u64)
    ensures
        w.memory.state_for(f) == State::Quiet ==> w.next(f, now_ms).last_level_db == F32::of_int(
            -100,
        ),
        w.memory.state_for(f) != State::Quiet ==> w.next(f, now_ms).last_level_db == f.db,
        w.next(f, now_ms).memory == w.memory.next(f),
        w.next(f, now_ms).test_mode == w.test_mode,
{
}

/// A command changes what it names and nothing else. A new calibration keeps what
/// was learned; new alert settings start without a hold or a cooldown; resuming
/// drops the hold and announces anew, and keeps the cooldown.
pub proof fn law_commands_change_only_what_they_name(w: Watch, cmd: Command)
    ensures
        ({
            let after = w.commanded(cmd);
            &&& after.memory.levels == w.memory.levels && after.memory.tilts == w.memory.tilts
            &&& after.memory.unfed_streak == w.memory.unfed_streak && after.memory.drift_db
                == w.memory.drift_db
            &&& after.last_level_db == w.last_level_db && after.recent == w.recent
            &&& cmd is SetTuning || after.memory.tuning == w.memory.tuning
            &&& cmd is SetTestMode || after.test_mode == w.test_mode
            &&& cmd is SetEnabledIconBaseline || after.last_state == w.last_state
            &&& cmd is StartMeasurement || cmd is CancelMeasurement || after.measurement
                == w.measurement
            &&& cmd is SetGate || cmd is SetEnabledIconBaseline || after.gate == w.gate
            &&& match cmd {
                Command::SetTuning(t) => after.memory.tuning == t,
                Command::SetGate { hold_ms, cooldown_ms } => {
                    &&& after.gate.hold_ms == hold_ms && after.gate.cooldown_ms == cooldown_ms
                    &&& after.gate.over_since is None && after.gate.cooldown_until == 0
                },
                Command::SetTestMode(on) => after.test_mode == on,
                Command::SetEnabledIconBaseline => {
                    &&& after.last_state is None && after.gate.over_since is None
                    &&& after.gate.hold_ms == w.gate.hold_ms && after.gate.cooldown_ms
                        == w.gate.cooldown_ms
                    &&& after.gate.cooldown_until == w.gate.cooldown_until
                },
                Command::StartMeasurement(kind, m) => after.measurement == Some(
                    ActiveTake { kind, take: m@, last_pct: 0 },
                ),
                Command::CancelMeasurement => after.measurement is None,
            }
        }),
{
}

/// What the alert gate reads of a run of frames: whether each is too loud, and
/// when it came.
pub open spec fn readings(w: Watch, trace: Seq<Heard>) -> Seq<Input> {
    Seq::new(
        trace.len(),
        |i: int| Input::Update(Reading { over: too_loud_at(w, trace, i), now_ms: trace[i].now_ms }),
    )
}

/// Frame `i` of a run is too loud.
pub open spec fn too_loud_at(w: Watch, trace: Seq<Heard>, i: int) -> bool {
    after_frames(w, trace, i as nat).memory.state_for(trace[i].frame) is TooLoud
}

/// There is a beep at frame `i` of a run.
pub open spec fn beeps_at(w: Watch, trace: Seq<Heard>, i: int) -> bool {
    after_frames(w, trace, i as nat).outcome(trace[i].frame, trace[i].now_ms).beep
}

/// A detector that is not muted, with no hold in progress, and a clock that never
/// runs backwards and has room for the cooldowns.
pub open spec fn listening(w: Watch, trace: Seq<Heard>) -> bool {
    &&& !w.test_mode
    &&& w.measurement is None
    &&& w.gate.over_since is None
    &&& in_time(trace)
    &&& forall|i: int|
        0 <= i < trace.len() ==> (#[trigger] trace[i]).now_ms + w.gate.cooldown_ms <= u64::MAX
}

proof fn lemma_gate_reads_the_frames(w: Watch, trace: Seq<Heard>, n: nat)
    requires
        listening(w, trace),
        n <= trace.len(),
    ensures
        after_frames(w, trace, n).gate == gate_after(w.gate, readings(w, trace), n),
        !after_frames(w, trace, n).test_mode,
        after_frames(w, trace, n).measurement is None,
        orderly(w.gate, readings(w, trace)),
        n < trace.len() ==> (beeps_at(w, trace, n as int) <==> fires_at(
            w.gate,
            readings(w, trace),
            n as int,
        )),
    decreases n,
{
    let r = readings(w, trace);
    assert forall|i: int, j: int|
        0 <= i <= j < r.len() && r[i] is Update && r[j] is Update implies #[trigger] time_at(r, i)
        <= #[trigger] time_at(r, j) by {
        assert(trace[i].now_ms <= trace[j].now_ms);
    }
    assert forall|i: int| 0 <= i < r.len() && r[i] is Update implies #[trigger] time_at(r, i)
        + w.gate.cooldown_ms <= u64::MAX by {
        assert(trace[i].now_ms + w.gate.cooldown_ms <= u64::MAX);
    }
    if n > 0 {
        lemma_gate_reads_the_frames(w, trace, (n - 1) as nat);
        assert(r[n - 1] == Input::Update(
            Reading { over: too_loud_at(w, trace, n - 1), now_ms: trace[n - 1].now_ms },
        ));
    }
}

/// Whoever stays too loud is told: once every frame has been too loud for the
/// hold time, and that long has also passed since the end of every cooldown,
/// there has been a beep.
pub proof fn law_a_lasting_shout_beeps(w: Watch, trace: Seq<Heard>, k: int, j: int)
    requires
        listening(w, trace),
        0 <= k < j < trace.len(),
        forall|m: int| k <= m <= j ==> #[trigger] too_loud_at(w, trace, m),
        trace[j].now_ms - trace[k].now_ms >= w.gate.hold_ms,
        trace[j].now_ms - w.gate.cooldown_until >= w.gate.hold_ms,
        forall|i: int|
            0 <= i < k && #[trigger] beeps_at(w, trace, i) ==> trace[j].now_ms - trace[i].now_ms
                >= w.gate.cooldown_ms + w.gate.hold_ms,
    ensures
        exists|i: int| k <= i <= j && #[trigger] beeps_at(w, trace, i),
{
    let r = readings(w, trace);
    lemma_gate_reads_the_frames(w, trace, 0);
    assert forall|m: int| k <= m <= j implies #[trigger] over_at(r, m) by {
        assert(too_loud_at(w, trace, m));
    }
    assert forall|i: int| 0 <= i < k && #[trigger] fires_at(w.gate, r, i) implies time_at(r, j)
        - time_at(r, i) >= w.gate.cooldown_ms + w.gate.hold_ms by {
        lemma_gate_reads_the_frames(w, trace, i as nat);
        assert(beeps_at(w, trace, i));
    }
    law_a_lasting_shout_fires(w.gate, r, k, j);
    let i = choose|i: int| k <= i <= j && #[trigger] fires_at(w.gate, r, i);
    lemma_gate_reads_the_frames(w, trace, i as nat);
    assert(beeps_at(w, trace, i));
}

/// Nobody is told twice in a row or for a short outburst: two beeps are at least
/// the cooldown and a hold apart, and each comes after frames that were too loud
/// without a break for the hold time.
pub proof fn law_beeps_are_spaced_and_earned(w: Watch, trace: Seq<Heard>, i: int, j: int)
    requires
        listening(w, trace),
        0 <= i < trace.len(),
        0 <= j < trace.len(),
        beeps_at(w, trace, j),
    ensures
        i < j && beeps_at(w, trace, i) ==> trace[j].now_ms - trace[i].now_ms >= w.gate.cooldown_ms
            + w.gate.hold_ms,
        exists|k: int|
            0 <= k < j && trace[j].now_ms - (#[trigger] trace[k]).now_ms >= w.gate.hold_ms && (
            forall|m: int| k <= m <= j ==> #[trigger] too_loud_at(w, trace, m)),
{
    let r = readings(w, trace);
    lemma_gate_reads_the_frames(w, trace, i as nat);
    lemma_gate_reads_the_frames(w, trace, j as nat);
    if i < j && beeps_at(w, trace, i) {
        law_alerts_are_spaced(w.gate, r, i, j);
    }
    law_alert_needs_an_unbroken_hold(w.gate, r, j);
    let k = choose|k: int|
        0 <= k < j && #[trigger] unbroken(r, k, j + 1) && time_at(r, j) - time_at(r, k)
            >= w.gate.hold_ms;
    assert forall|m: int| k <= m <= j implies #[trigger] too_loud_at(w, trace, m) by {
        assert(over_at(r, m));
    }
    assert(trace[j].now_ms - trace[k].now_ms >= w.gate.hold_ms);
}

/// Progress is reported in whole percents: a frame that does not complete a
/// measurement reports the share of levels that are in exactly when its whole
/// percent is not the one last reported.
pub proof fn law_progress_is_reported_by_the_percent(active: ActiveTake, f: FrameFeatures)
    requires
        active.take.fed(f).levels.len() < active.take.needed,
    ensures
        ({
            let share = F32::of_int(active.take.fed(f).levels.len() as int).div_spec(
                F32::of_int(active.take.needed as int),
            );
            let percent = share.mul_spec(F32::of_int(100)).cast_int(0, u32::MAX as int);
            &&& percent == active.last_pct ==> active.update(f) is None
            &&& percent != active.last_pct ==> active.update(f) == Some(
                MeasurementUpdate::Progress(share),
            )
            &&& active.next(f) matches Some(after) && after.last_pct == percent && after.kind
                == active.kind && after.take == active.take.fed(f)
        }),
{
    let share = active.take.fed(f).progress();
    assert(0 <= whole_percent(share) <= u32::MAX);
}

/// A detector begins with the icon for quiet, not muted, nothing measured and
/// nothing seen, on the engine and the alert settings that it is given.
pub proof fn law_a_detector_begins_quiet(memory: Memory, gate: AlertGate)
    ensures
        ({
            let w = Watch::initial(memory, gate);
            &&& w.memory == memory && w.gate == gate
            &&& w.last_state == Some(TrayState::Quiet)
            &&& !w.test_mode && w.measurement is None
            &&& w.last_level_db == F32::of_int(-100)
            &&& w.recent.len() == 0 && w.peak() == F32::of_int(-100)
        }),
{
}

} // verus!
