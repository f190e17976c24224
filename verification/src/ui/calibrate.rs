//! The calibration wizard: a pure state machine, and what each of its steps
//! shows.
//!
//! The wizard is fed events made of measurement updates and button
//! presses, and says which measurement to start.

use vstd::prelude::*;

use crate::binary32::F32;
use crate::bridge::MeasurementKind;
#[allow(unused_imports)]
use crate::engine::calibrate::{ceiling_is_sane, sane_ceiling};
use crate::ui::theme::ButtonKind;

verus! {

/// A voice measurement without progress for this long gets a hint.
pub const STALL_MS: u64 = 5000;

#[derive(Debug, Clone, Copy, PartialEq, Eq, Structural)]
pub enum WizardStep {
    Intro,
    Measuring { kind: MeasurementKind, progress: F32 },
    NoiseDone { noise_db: F32 },
    QuietDone { noise_db: F32, quiet_db: F32, skip_ceiling_default: bool },
    CeilingRetry { noise_db: F32, quiet_db: F32, gap_db: F32 },
    Done { result: WizardResult },
}

#[derive(Debug, Clone, Copy, PartialEq, Eq, Structural)]
pub struct WizardResult {
    pub noise_floor_db: F32,
    pub quiet_db: F32,
    pub ceiling_db: Option<F32>,
}

#[derive(Debug, Clone, Copy, PartialEq, Eq, Structural)]
pub enum WizardEvent {
    /// Intro -> start noise measurement
    Begin,
    Progress(F32),
    Complete(MeasurementKind, F32),
    /// NoiseDone -> start quiet; QuietDone -> start ceiling; CeilingRetry -> retry ceiling
    Continue,
    /// QuietDone -> Done without ceiling
    SkipCeiling,
}

/// The wizard as it stands.
#[derive(Debug, Clone, Copy, PartialEq, Eq, Structural)]
pub struct Wizard {
    pub step: WizardStep,
    /// Local hour 0-23 at wizard start.
    pub start_hour: u32,
    /// Carried forward across steps since `WizardStep::Measuring` itself
    /// only tracks the kind in progress, not prior results.
    pub noise_db: Option<F32>,
    pub quiet_db: Option<F32>,
}

/// Late night: 22:00-04:59.
pub open spec fn late_night(hour: u32) -> bool {
    hour >= 22 || hour < 5
}

pub open spec fn or_nan(db: Option<F32>) -> F32 {
    match db {
        Some(db) => db,
        None => F32::not_a_number(),
    }
}

fn value_or_nan(db: Option<F32>) -> (r: F32)
    ensures
        r == or_nan(db),
{
    match db {
        Some(db) => db,
        None => F32::quiet_nan(),
    }
}

/// A measurement about to begin.
pub open spec fn started(kind: MeasurementKind) -> WizardStep {
    WizardStep::Measuring { kind, progress: F32 { bits: 0 } }
}

impl Wizard {
    /// The result of a wizard whose ceiling step is skipped.
    pub open spec fn without_ceiling(noise_db: F32, quiet_db: F32) -> WizardStep {
        WizardStep::Done {
            result: WizardResult { noise_floor_db: noise_db, quiet_db, ceiling_db: None },
        }
    }

    /// Where a ceiling take leads: done if it is far enough over the quiet
    /// point, another try otherwise.
    pub open spec fn after_ceiling(noise_db: F32, quiet_db: F32, ceiling_db: F32) -> WizardStep {
        if sane_ceiling(quiet_db, ceiling_db) {
            WizardStep::Done {
                result: WizardResult {
                    noise_floor_db: noise_db,
                    quiet_db,
                    ceiling_db: Some(ceiling_db),
                },
            }
        } else {
            WizardStep::CeilingRetry { noise_db, quiet_db, gap_db: ceiling_db.sub_spec(quiet_db) }
        }
    }

    /// The wizard after an event. Events that are not defined in the present
    /// step are ignored.
    pub open spec fn next(self, event: WizardEvent) -> Wizard {
        match (self.step, event) {
            (WizardStep::Intro, WizardEvent::Begin) => Wizard {
                step: started(MeasurementKind::NoiseFloor),
                ..self
            },
            (WizardStep::Measuring { kind, .. }, WizardEvent::Progress(p)) => Wizard {
                step: WizardStep::Measuring { kind, progress: p },
                ..self
            },
            (WizardStep::Measuring { kind, .. }, WizardEvent::Complete(of, db)) => if of != kind {
                self
            } else {
                match kind {
                    MeasurementKind::NoiseFloor => Wizard {
                        step: WizardStep::NoiseDone { noise_db: db },
                        noise_db: Some(db),
                        ..self
                    },
                    MeasurementKind::QuietPoint => Wizard {
                        step: WizardStep::QuietDone {
                            noise_db: or_nan(self.noise_db),
                            quiet_db: db,
                            skip_ceiling_default: late_night(self.start_hour),
                        },
                        quiet_db: Some(db),
                        ..self
                    },
                    MeasurementKind::Ceiling => Wizard {
                        step: Self::after_ceiling(
                            or_nan(self.noise_db),
                            or_nan(self.quiet_db),
                            db,
                        ),
                        ..self
                    },
                }
            },
            (WizardStep::NoiseDone { noise_db }, WizardEvent::Continue) => Wizard {
                step: started(MeasurementKind::QuietPoint),
                noise_db: Some(noise_db),
                ..self
            },
            (WizardStep::QuietDone { noise_db, quiet_db, .. }, WizardEvent::Continue) => Wizard {
                step: started(MeasurementKind::Ceiling),
                noise_db: Some(noise_db),
                quiet_db: Some(quiet_db),
                ..self
            },
            (WizardStep::QuietDone { noise_db, quiet_db, .. }, WizardEvent::SkipCeiling) => Wizard {
                step: Self::without_ceiling(noise_db, quiet_db),
                ..self
            },
            (WizardStep::CeilingRetry { noise_db, quiet_db, .. }, WizardEvent::Continue) => Wizard {
                step: started(MeasurementKind::Ceiling),
                noise_db: Some(noise_db),
                quiet_db: Some(quiet_db),
                ..self
            },
            (WizardStep::CeilingRetry { noise_db, quiet_db, .. }, WizardEvent::SkipCeiling) =>
                Wizard { step: Self::without_ceiling(noise_db, quiet_db), ..self },
            _ => self,
        }
    }

    /// The measurement that an event starts: one, when it moves the wizard on
    /// to measuring.
    pub open spec fn starts(self, event: WizardEvent) -> Option<MeasurementKind> {
        match (self.step, event) {
            (WizardStep::Intro, WizardEvent::Begin) => Some(MeasurementKind::NoiseFloor),
            (WizardStep::NoiseDone { .. }, WizardEvent::Continue) => Some(
                MeasurementKind::QuietPoint,
            ),
            (WizardStep::QuietDone { .. }, WizardEvent::Continue) => Some(MeasurementKind::Ceiling),
            (WizardStep::CeilingRetry { .. }, WizardEvent::Continue) => Some(
                MeasurementKind::Ceiling,
            ),
            _ => None,
        }
    }

    /// A wizard about to begin.
    pub open spec fn begun(start_hour: u32) -> Wizard {
        Wizard { step: WizardStep::Intro, start_hour, noise_db: None, quiet_db: None }
    }

    pub fn new(start_hour: u32) -> (r: Wizard)
        ensures
            r == Wizard::begun(start_hour),
    {
        Wizard { step: WizardStep::Intro, start_hour, noise_db: None, quiet_db: None }
    }

    /// Late at night the ceiling step defaults to skipped (people start this
    /// app at night next to sleepers).
    pub fn skip_ceiling_default(&self) -> (r: bool)
        ensures
            r == late_night(self.start_hour),
    {
        self.start_hour >= 22 || self.start_hour < 5
    }

    /// Returns a measurement to start, if the transition requires one.
    pub fn on_event(&mut self, event: WizardEvent) -> (r: Option<MeasurementKind>)
        ensures
            *final(self) == old(self).next(event),
            r == old(self).starts(event),
    {
        match (self.step, event) {
            (WizardStep::Intro, WizardEvent::Begin) => self.start(MeasurementKind::NoiseFloor),
            (WizardStep::Measuring { kind, .. }, WizardEvent::Progress(p)) => {
                self.step = WizardStep::Measuring { kind, progress: p };
                None
            },
            (WizardStep::Measuring { kind, .. }, WizardEvent::Complete(of, db)) => {
                if of == kind {
                    self.on_complete(kind, db);
                }
                None
            },
            (WizardStep::NoiseDone { noise_db }, WizardEvent::Continue) => {
                self.noise_db = Some(noise_db);
                self.start(MeasurementKind::QuietPoint)
            },
            (WizardStep::QuietDone { noise_db, quiet_db, .. }, WizardEvent::Continue) => {
                self.noise_db = Some(noise_db);
                self.quiet_db = Some(quiet_db);
                self.start(MeasurementKind::Ceiling)
            },
            (WizardStep::QuietDone { noise_db, quiet_db, .. }, WizardEvent::SkipCeiling) => {
                self.finish(noise_db, quiet_db, None);
                None
            },
            (WizardStep::CeilingRetry { noise_db, quiet_db, .. }, WizardEvent::Continue) => {
                self.noise_db = Some(noise_db);
                self.quiet_db = Some(quiet_db);
                self.start(MeasurementKind::Ceiling)
            },
            (WizardStep::CeilingRetry { noise_db, quiet_db, .. }, WizardEvent::SkipCeiling) => {
                self.finish(noise_db, quiet_db, None);
                None
            },
            // Stale/mismatched events: Progress/Complete outside Measuring,
            // Begin outside Intro, Continue/SkipCeiling in steps where they
            // are not defined. Ignored: no state change, no measurement
            // started.
            _ => None,
        }
    }

    fn start(&mut self, kind: MeasurementKind) -> (r: Option<MeasurementKind>)
        ensures
            *final(self) == (Wizard { step: started(kind), ..*old(self) }),
            r == Some(kind),
    {
        self.step = WizardStep::Measuring { kind, progress: F32::from_bits(0) };
        Some(kind)
    }

    fn finish(&mut self, noise_floor_db: F32, quiet_db: F32, ceiling_db: Option<F32>)
        ensures
            *final(self) == (Wizard {
                step: WizardStep::Done {
                    result: WizardResult { noise_floor_db, quiet_db, ceiling_db },
                },
                ..*old(self)
            }),
    {
        self.step = WizardStep::Done {
            result: WizardResult { noise_floor_db, quiet_db, ceiling_db },
        };
    }

    /// The measurement in progress has a result.
    fn on_complete(&mut self, kind: MeasurementKind, db: F32)
        requires
            old(self).step is Measuring,
            old(self).step->Measuring_kind == kind,
        ensures
            *final(self) == old(self).next(WizardEvent::Complete(kind, db)),
    {
        match kind {
            MeasurementKind::NoiseFloor => {
                self.noise_db = Some(db);
                self.step = WizardStep::NoiseDone { noise_db: db };
            },
            MeasurementKind::QuietPoint => {
                let noise_db: F32 = value_or_nan(self.noise_db);
                let skip_ceiling_default: bool = self.skip_ceiling_default();
                self.quiet_db = Some(db);
                self.step = WizardStep::QuietDone { noise_db, quiet_db: db, skip_ceiling_default };
            },
            MeasurementKind::Ceiling => {
                let noise_db: F32 = value_or_nan(self.noise_db);
                let quiet_db: F32 = value_or_nan(self.quiet_db);
                if ceiling_is_sane(quiet_db, db) {
                    self.finish(noise_db, quiet_db, Some(db));
                } else {
                    self.step = WizardStep::CeilingRetry {
                        noise_db,
                        quiet_db,
                        gap_db: db.sub(quiet_db),
                    };
                }
            },
        }
    }

    /// The measurement that is running.
    pub open spec fn measuring(self) -> Option<MeasurementKind> {
        match self.step {
            WizardStep::Measuring { kind, .. } => Some(kind),
            _ => None,
        }
    }

    /// What to cancel if the wizard is abandoned while a measurement runs.
    /// `Some(kind)` iff currently in a `Measuring` step.
    pub fn cancelled_measurement(&self) -> (r: Option<MeasurementKind>)
        ensures
            r == self.measuring(),
    {
        match self.step {
            WizardStep::Measuring { kind, .. } => Some(kind),
            _ => None,
        }
    }

    /// The wizard waits for a voice that it does not hear: a voice measurement
    /// has not moved for `idle_ms`.
    pub fn stalled(&self, idle_ms: u64) -> (r: bool)
        ensures
            r == (idle_ms >= STALL_MS && (self.step matches WizardStep::Measuring { kind, .. } && kind
                != MeasurementKind::NoiseFloor)),
    {
        match self.step {
            WizardStep::Measuring { kind, .. } => match kind {
                MeasurementKind::NoiseFloor => false,
                MeasurementKind::QuietPoint => idle_ms >= STALL_MS,
                MeasurementKind::Ceiling => idle_ms >= STALL_MS,
            },
            _ => false,
        }
    }

    /// The values carried forward agree with the step: each measurement that
    /// has been passed has left its result, and a finished wizard carries them.
    pub open spec fn consistent(self) -> bool {
        match self.step {
            WizardStep::Intro => true,
            WizardStep::Measuring { kind, .. } => {
                &&& kind != MeasurementKind::NoiseFloor ==> self.noise_db is Some
                &&& kind == MeasurementKind::Ceiling ==> self.quiet_db is Some
            },
            WizardStep::NoiseDone { noise_db } => self.noise_db == Some(noise_db),
            WizardStep::QuietDone { noise_db, quiet_db, skip_ceiling_default } => {
                &&& self.noise_db == Some(noise_db)
                &&& self.quiet_db == Some(quiet_db)
                &&& skip_ceiling_default == late_night(self.start_hour)
            },
            WizardStep::CeilingRetry { noise_db, quiet_db, .. } => {
                &&& self.noise_db == Some(noise_db)
                &&& self.quiet_db == Some(quiet_db)
            },
            WizardStep::Done { result } => {
                &&& self.noise_db == Some(result.noise_floor_db)
                &&& self.quiet_db == Some(result.quiet_db)
                &&& result.ceiling_db matches Some(c) ==> sane_ceiling(result.quiet_db, c)
            },
        }
    }
}

/// The wizard after a run of events.
pub open spec fn after_events(w: Wizard, events: Seq<WizardEvent>) -> Wizard
    decreases events.len(),
{
    if events.len() == 0 {
        w
    } else {
        after_events(w, events.drop_last()).next(events.last())
    }
}

/// Whatever events come, in whatever order, no value gets lost on the way: a
/// finished wizard's result holds the noise floor and the quiet point last
/// measured, and a ceiling only if it is sane over that quiet point.
pub proof fn law_the_wizard_keeps_its_measurements(w: Wizard, events: Seq<WizardEvent>)
    requires
        w.consistent(),
    ensures
        after_events(w, events).consistent(),
        after_events(w, events).start_hour == w.start_hour,
    decreases events.len(),
{
    if events.len() > 0 {
        law_the_wizard_keeps_its_measurements(w, events.drop_last());
    }
}

/// A measurement result is taken as it is: completing the running measurement
/// stores its level, and a result of another kind, or outside a measurement,
/// changes nothing.
pub proof fn law_results_are_taken_only_when_awaited(w: Wizard, kind: MeasurementKind, db: F32)
    ensures
        ({
            let after = w.next(WizardEvent::Complete(kind, db));
            let awaited = w.step is Measuring && w.step->Measuring_kind == kind;
            &&& !awaited ==> after == w
            &&& awaited && kind == MeasurementKind::NoiseFloor ==> after.noise_db == Some(db)
                && after.quiet_db == w.quiet_db
            &&& awaited && kind == MeasurementKind::QuietPoint ==> after.quiet_db == Some(db)
                && after.noise_db == w.noise_db
            &&& awaited && kind == MeasurementKind::Ceiling ==> after.noise_db == w.noise_db
                && after.quiet_db == w.quiet_db
        }),
{
}

/// A measurement is started exactly when the wizard moves on to measuring, and
/// it is the one that the wizard then waits for.
pub proof fn law_a_started_measurement_is_awaited(w: Wizard, event: WizardEvent)
    ensures
        w.starts(event) matches Some(kind) ==> w.next(event).step == started(kind) && !(
        w.step is Measuring),
        w.starts(event) is None && w.next(event).step is Measuring ==> w.step is Measuring
            && w.step->Measuring_kind == w.next(event).step->Measuring_kind,
{
}

/// A finished wizard stays as it is.
pub proof fn law_done_is_final(w: Wizard, event: WizardEvent)
    requires
        w.step is Done,
    ensures
        w.next(event) == w,
        w.starts(event) is None,
{
}

// What each step shows.

/// A line of text, perhaps with a number in it that is shown as a whole number.
#[derive(Debug, Clone, Copy, PartialEq, Eq)]
pub struct Label {
    pub before: &'static str,
    pub value: Option<F32>,
    pub after: &'static str,
}

/// What a button of the wizard does.
#[derive(Debug, Clone, Copy, PartialEq, Eq, Structural)]
pub enum Action {
    Event(WizardEvent),
    /// Save the calibration.
    Finish,
    /// Leave the wizard, whatever is running.
    Cancel,
}

/// One row of the wizard, top to bottom. Buttons that follow each other share
/// a row.
#[derive(Debug, Clone, Copy, PartialEq, Eq)]
pub enum Row {
    Heading(Label),
    Body(Label),
    /// A bar filled by the given share.
    Progress(F32),
    /// The live level, so users watch it while calibrating.
    Meter,
    Button { label: &'static str, kind: ButtonKind, action: Action },
    /// The ambient way out, right-aligned below everything else.
    CancelRow,
}

pub open spec fn plain(words: &'static str) -> Label {
    Label { before: words, value: None, after: "" }
}

pub open spec fn with_db(before: &'static str, db: F32, after: &'static str) -> Label {
    Label { before, value: Some(db), after }
}

fn text(words: &'static str) -> (r: Label)
    ensures
        r == plain(words),
{
    Label { before: words, value: None, after: "" }
}

fn text_with_db(before: &'static str, db: F32, after: &'static str) -> (r: Label)
    ensures
        r == with_db(before, db, after),
{
    Label { before, value: Some(db), after }
}

/// The prompt of each measurement.
pub open spec fn prompt(kind: MeasurementKind) -> &'static str {
    match kind {
        MeasurementKind::NoiseFloor => "Stay quiet for 3 seconds.",
        MeasurementKind::QuietPoint => "Talk at the volume you'd use with a roommate asleep.",
        MeasurementKind::Ceiling => "Talk at the volume you'd use if they were in the room.",
    }
}

pub fn instruction(kind: MeasurementKind) -> (r: &'static str)
    ensures
        r == prompt(kind),
{
    match kind {
        MeasurementKind::NoiseFloor => "Stay quiet for 3 seconds.",
        MeasurementKind::QuietPoint => "Talk at the volume you'd use with a roommate asleep.",
        MeasurementKind::Ceiling => "Talk at the volume you'd use if they were in the room.",
    }
}

pub open spec fn button(label: &'static str, primary: bool, action: Action) -> Row {
    Row::Button {
        label,
        kind: if primary {
            ButtonKind::Primary
        } else {
            ButtonKind::Secondary
        },
        action,
    }
}

fn press(label: &'static str, primary: bool, event: WizardEvent) -> (r: Row)
    ensures
        r == button(label, primary, Action::Event(event)),
{
    Row::Button {
        label,
        kind: if primary {
            ButtonKind::Primary
        } else {
            ButtonKind::Secondary
        },
        action: Action::Event(event),
    }
}

/// A row that shows only under a condition.
pub open spec fn shown_if(cond: bool, row: Row) -> Seq<Row> {
    if cond {
        seq![row]
    } else {
        Seq::empty()
    }
}

fn push_if(rows: &mut Vec<Row>, cond: bool, row: Row)
    ensures
        final(rows)@ == old(rows)@ + shown_if(cond, row),
{
    if cond {
        rows.push(row);
    }
    assert(rows@ =~= old(rows)@ + shown_if(cond, row));
}

/// The introduction.
pub open spec fn intro_rows(device_changed: bool) -> Seq<Row> {
    seq![
        Row::Heading(plain("Calibrate for this mic")),
        Row::Body(
            plain(
                "Takes under a minute: three seconds of silence, then two short voice samples. Ragequiet learns what quiet and loud sound like on this microphone so it only nudges you when you're actually too loud.",
            ),
        ),
    ] + shown_if(
        device_changed,
        Row::Body(
            plain(
                "Note: the default microphone changed since launch. Restart the app to capture from the new one.",
            ),
        ),
    ) + seq![Row::Meter, button("Start", true, Action::Event(WizardEvent::Begin))]
}

fn intro(device_changed: bool) -> (rows: Vec<Row>)
    ensures
        rows@ == intro_rows(device_changed),
{
    let mut rows: Vec<Row> = Vec::new();
    rows.push(Row::Heading(text("Calibrate for this mic")));
    rows.push(
        Row::Body(
            text(
                "Takes under a minute: three seconds of silence, then two short voice samples. Ragequiet learns what quiet and loud sound like on this microphone so it only nudges you when you're actually too loud.",
            ),
        ),
    );
    push_if(
        &mut rows,
        device_changed,
        Row::Body(
            text(
                "Note: the default microphone changed since launch. Restart the app to capture from the new one.",
            ),
        ),
    );
    rows.push(Row::Meter);
    rows.push(press("Start", true, WizardEvent::Begin));
    assert(rows@ =~= intro_rows(device_changed));
    rows
}

/// A running measurement.
pub open spec fn measuring_rows(
    kind: MeasurementKind,
    progress: F32,
    monitoring_paused: bool,
    stall_hint: bool,
) -> Seq<Row> {
    seq![Row::Heading(plain(prompt(kind))), Row::Progress(progress)] + shown_if(
        monitoring_paused,
        Row::Body(plain("Monitoring is paused — re-enable it to continue.")),
    ) + shown_if(
        stall_hint,
        Row::Body(plain("Waiting to hear your voice — speak at the target volume.")),
    ) + seq![Row::Meter]
}

fn measuring(kind: MeasurementKind, progress: F32, monitoring_paused: bool, stall_hint: bool) -> (rows:
    Vec<Row>)
    ensures
        rows@ == measuring_rows(kind, progress, monitoring_paused, stall_hint),
{
    let mut rows: Vec<Row> = Vec::new();
    rows.push(Row::Heading(text(instruction(kind))));
    rows.push(Row::Progress(progress));
    push_if(
        &mut rows,
        monitoring_paused,
        Row::Body(text("Monitoring is paused — re-enable it to continue.")),
    );
    push_if(
        &mut rows,
        stall_hint,
        Row::Body(text("Waiting to hear your voice — speak at the target volume.")),
    );
    rows.push(Row::Meter);
    assert(rows@ =~= measuring_rows(kind, progress, monitoring_paused, stall_hint));
    rows
}

/// The noise floor is in.
pub open spec fn noise_done_rows(noise_db: F32) -> Seq<Row> {
    seq![
        Row::Heading(with_db("Noise floor: ", noise_db, " dB")),
        Row::Body(plain("That's the room with nobody talking. Next: your quiet voice.")),
        Row::Meter,
        button("Continue", true, Action::Event(WizardEvent::Continue)),
    ]
}

fn noise_done(noise_db: F32) -> (rows: Vec<Row>)
    ensures
        rows@ == noise_done_rows(noise_db),
{
    let mut rows: Vec<Row> = Vec::new();
    rows.push(Row::Heading(text_with_db("Noise floor: ", noise_db, " dB")));
    rows.push(Row::Body(text("That's the room with nobody talking. Next: your quiet voice.")));
    rows.push(Row::Meter);
    rows.push(press("Continue", true, WizardEvent::Continue));
    assert(rows@ =~= noise_done_rows(noise_db));
    rows
}

/// The quiet point is in. Late at night the loud step is the wrong thing to ask
/// for, so skipping leads and gets the explanation.
pub open spec fn quiet_done_rows(quiet_db: F32, skip_ceiling_default: bool) -> Seq<Row> {
    let measure = Action::Event(WizardEvent::Continue);
    let skip = Action::Event(WizardEvent::SkipCeiling);
    let heading = Row::Heading(with_db("Quiet point set: ", quiet_db, " dB"));
    if skip_ceiling_default {
        seq![
            heading,
            Row::Body(
                plain(
                    "It's late — skip the loud step and finish it tomorrow. Detection still works meanwhile.",
                ),
            ),
            Row::Meter,
            button("Skip for now", true, skip),
            button("Measure loud point", false, measure),
        ]
    } else {
        seq![
            heading,
            Row::Body(
                plain(
                    "One more: how loud you'd be with company around. This sets the top of the range.",
                ),
            ),
            Row::Meter,
            button("Measure loud point", true, measure),
            button("Skip", false, skip),
        ]
    }
}

fn quiet_done(quiet_db: F32, skip_ceiling_default: bool) -> (rows: Vec<Row>)
    ensures
        rows@ == quiet_done_rows(quiet_db, skip_ceiling_default),
{
    let mut rows: Vec<Row> = Vec::new();
    rows.push(Row::Heading(text_with_db("Quiet point set: ", quiet_db, " dB")));
    if skip_ceiling_default {
        rows.push(
            Row::Body(
                text(
                    "It's late — skip the loud step and finish it tomorrow. Detection still works meanwhile.",
                ),
            ),
        );
        rows.push(Row::Meter);
        rows.push(press("Skip for now", true, WizardEvent::SkipCeiling));
        rows.push(press("Measure loud point", false, WizardEvent::Continue));
    } else {
        rows.push(
            Row::Body(
                text(
                    "One more: how loud you'd be with company around. This sets the top of the range.",
                ),
            ),
        );
        rows.push(Row::Meter);
        rows.push(press("Measure loud point", true, WizardEvent::Continue));
        rows.push(press("Skip", false, WizardEvent::SkipCeiling));
    }
    assert(rows@ =~= quiet_done_rows(quiet_db, skip_ceiling_default));
    rows
}

/// The loud take was too close to the quiet one.
pub open spec fn retry_rows(gap_db: F32) -> Seq<Row> {
    seq![
        Row::Heading(plain("That wasn't loud enough to tell apart")),
        Row::Body(
            with_db(
                "That was within ",
                gap_db,
                " dB of your quiet voice — either not loud enough, or your mic's gain is limiting. Try again?",
            ),
        ),
        Row::Meter,
        button("Retry", true, Action::Event(WizardEvent::Continue)),
        button("Skip", false, Action::Event(WizardEvent::SkipCeiling)),
    ]
}

fn retry(gap_db: F32) -> (rows: Vec<Row>)
    ensures
        rows@ == retry_rows(gap_db),
{
    let mut rows: Vec<Row> = Vec::new();
    rows.push(Row::Heading(text("That wasn't loud enough to tell apart")));
    rows.push(
        Row::Body(
            text_with_db(
                "That was within ",
                gap_db,
                " dB of your quiet voice — either not loud enough, or your mic's gain is limiting. Try again?",
            ),
        ),
    );
    rows.push(Row::Meter);
    rows.push(press("Retry", true, WizardEvent::Continue));
    rows.push(press("Skip", false, WizardEvent::SkipCeiling));
    assert(rows@ =~= retry_rows(gap_db));
    rows
}

/// The calibration is ready to be saved.
pub open spec fn done_rows(result: WizardResult) -> Seq<Row> {
    seq![
        Row::Heading(plain("Calibration ready")),
        Row::Body(with_db("Quiet point: ", result.quiet_db, " dB")),
        Row::Body(
            match result.ceiling_db {
                Some(c) => with_db("Loud point: ", c, " dB"),
                None => plain("Loud point: estimated (skipped)"),
            },
        ),
        Row::Body(plain("Finish to save and start using it.")),
        Row::Meter,
        button("Finish", true, Action::Finish),
        button("Discard", false, Action::Cancel),
    ]
}

fn done(result: &WizardResult) -> (rows: Vec<Row>)
    ensures
        rows@ == done_rows(*result),
{
    let mut rows: Vec<Row> = Vec::new();
    rows.push(Row::Heading(text("Calibration ready")));
    rows.push(Row::Body(text_with_db("Quiet point: ", result.quiet_db, " dB")));
    let ceiling: Label = match result.ceiling_db {
        Some(c) => text_with_db("Loud point: ", c, " dB"),
        None => text("Loud point: estimated (skipped)"),
    };
    rows.push(Row::Body(ceiling));
    rows.push(Row::Body(text("Finish to save and start using it.")));
    rows.push(Row::Meter);
    rows.push(
        Row::Button { label: "Finish", kind: ButtonKind::Primary, action: Action::Finish },
    );
    rows.push(
        Row::Button { label: "Discard", kind: ButtonKind::Secondary, action: Action::Cancel },
    );
    assert(rows@ =~= done_rows(*result));
    rows
}

/// What a step shows. Every step but the last has the ambient cancel row:
/// leaving a finished calibration must be a deliberate choice.
pub open spec fn screen(
    step: WizardStep,
    monitoring_paused: bool,
    stall_hint: bool,
    device_changed: bool,
) -> Seq<Row> {
    let content = match step {
        WizardStep::Intro => intro_rows(device_changed),
        WizardStep::Measuring { kind, progress } => measuring_rows(
            kind,
            progress,
            monitoring_paused,
            stall_hint,
        ),
        WizardStep::NoiseDone { noise_db } => noise_done_rows(noise_db),
        WizardStep::QuietDone { quiet_db, skip_ceiling_default, .. } => quiet_done_rows(
            quiet_db,
            skip_ceiling_default,
        ),
        WizardStep::CeilingRetry { gap_db, .. } => retry_rows(gap_db),
        WizardStep::Done { result } => done_rows(result),
    };
    content + shown_if(!(step is Done), Row::CancelRow)
}

/// The wizard body, in place of the normal controls. `monitoring_paused` and
/// `stall_hint` only affect the `Measuring` step; `device_changed` only
/// affects `Intro`'s note.
pub fn view(wizard: &Wizard, monitoring_paused: bool, stall_hint: bool, device_changed: bool) -> (rows:
    Vec<Row>)
    ensures
        rows@ == screen(wizard.step, monitoring_paused, stall_hint, device_changed),
{
    let mut rows: Vec<Row> = match &wizard.step {
        WizardStep::Intro => intro(device_changed),
        WizardStep::Measuring { kind, progress } => measuring(
            *kind,
            *progress,
            monitoring_paused,
            stall_hint,
        ),
        WizardStep::NoiseDone { noise_db } => noise_done(*noise_db),
        WizardStep::QuietDone { quiet_db, skip_ceiling_default, .. } => quiet_done(
            *quiet_db,
            *skip_ceiling_default,
        ),
        WizardStep::CeilingRetry { gap_db, .. } => retry(*gap_db),
        WizardStep::Done { result } => done(result),
    };
    let is_done: bool = matches!(wizard.step, WizardStep::Done { .. });
    push_if(&mut rows, !is_done, Row::CancelRow);
    rows
}

/// Nothing that a step offers is dead: every wizard event on a button moves
/// the wizard on.
pub proof fn law_every_button_works(
    w: Wizard,
    monitoring_paused: bool,
    stall_hint: bool,
    device_changed: bool,
    i: int,
)
    requires
        0 <= i < screen(w.step, monitoring_paused, stall_hint, device_changed).len(),
    ensures
        screen(w.step, monitoring_paused, stall_hint, device_changed)[i] matches Row::Button {
            action: Action::Event(event),
            ..
        } ==> w.next(event).step != w.step,
{
}

/// There is always a way out of the wizard.
pub proof fn law_every_step_can_be_left(
    step: WizardStep,
    monitoring_paused: bool,
    stall_hint: bool,
    device_changed: bool,
)
    ensures
        ({
            let rows = screen(step, monitoring_paused, stall_hint, device_changed);
            ||| rows.contains(Row::CancelRow)
            ||| rows.contains(button("Discard", false, Action::Cancel))
        }),
{
    let rows = screen(step, monitoring_paused, stall_hint, device_changed);
    assert(rows[rows.len() - 1] == rows.last());
}

/// The wizard asks for silence, then a quiet voice, then a loud one, and keeps
/// each level: whatever the levels are, and however often progress is reported
/// in between, it ends with exactly those three if the loud one is at least 3
/// dB above the quiet one, and asks again if not.
pub proof fn law_the_wizard_takes_three_measurements(
    hour: u32,
    noise: F32,
    quiet: F32,
    loud: F32,
    p1: F32,
    p2: F32,
    p3: F32,
)
    ensures
        ({
            let w0 = Wizard::begun(hour);
            let w1 = w0.next(WizardEvent::Begin);
            let w2 = w1.next(WizardEvent::Progress(p1)).next(
                WizardEvent::Complete(MeasurementKind::NoiseFloor, noise),
            );
            let w3 = w2.next(WizardEvent::Continue);
            let w4 = w3.next(WizardEvent::Progress(p2)).next(
                WizardEvent::Complete(MeasurementKind::QuietPoint, quiet),
            );
            let w5 = w4.next(WizardEvent::Continue);
            let w6 = w5.next(WizardEvent::Progress(p3)).next(
                WizardEvent::Complete(MeasurementKind::Ceiling, loud),
            );
            &&& w0.step is Intro && w0.start_hour == hour
            &&& w0.starts(WizardEvent::Begin) == Some(MeasurementKind::NoiseFloor)
            &&& w1.measuring() == Some(MeasurementKind::NoiseFloor)
            &&& w2.step == (WizardStep::NoiseDone { noise_db: noise })
            &&& w2.starts(WizardEvent::Continue) == Some(MeasurementKind::QuietPoint)
            &&& w3.measuring() == Some(MeasurementKind::QuietPoint)
            &&& w4.step == (WizardStep::QuietDone {
                noise_db: noise,
                quiet_db: quiet,
                skip_ceiling_default: hour >= 22 || hour <= 4,
            })
            &&& w4.starts(WizardEvent::Continue) == Some(MeasurementKind::Ceiling)
            &&& w5.measuring() == Some(MeasurementKind::Ceiling)
            &&& F32::of_int(3).le_spec(loud.sub_spec(quiet)) ==> w6.step == (WizardStep::Done {
                result: WizardResult {
                    noise_floor_db: noise,
                    quiet_db: quiet,
                    ceiling_db: Some(loud),
                },
            })
            &&& !F32::of_int(3).le_spec(loud.sub_spec(quiet)) ==> w6.step == (
            WizardStep::CeilingRetry {
                noise_db: noise,
                quiet_db: quiet,
                gap_db: loud.sub_spec(quiet),
            })
        }),
{
}

/// The loud step can be left out, before it or after a take that was not loud
/// enough: the wizard is then done with the two levels it has. Or it can be
/// tried again, as if for the first time.
pub proof fn law_the_loud_step_can_be_skipped_or_repeated(w: Wizard, again: F32)
    requires
        w.consistent(),
        w.step is QuietDone || w.step is CeilingRetry,
    ensures
        ({
            let noise = w.noise_db->0;
            let quiet = w.quiet_db->0;
            let skipped = w.next(WizardEvent::SkipCeiling);
            let retried = w.next(WizardEvent::Continue);
            let taken = retried.next(WizardEvent::Complete(MeasurementKind::Ceiling, again));
            &&& skipped.step == (WizardStep::Done {
                result: WizardResult { noise_floor_db: noise, quiet_db: quiet, ceiling_db: None },
            })
            &&& w.starts(WizardEvent::SkipCeiling) is None
            &&& w.starts(WizardEvent::Continue) == Some(MeasurementKind::Ceiling)
            &&& retried.measuring() == Some(MeasurementKind::Ceiling)
            &&& taken.step is Done <==> F32::of_int(3).le_spec(again.sub_spec(quiet))
            &&& taken.step is Done || taken.step is CeilingRetry
            &&& taken.step matches WizardStep::Done { result } ==> result == (WizardResult {
                noise_floor_db: noise,
                quiet_db: quiet,
                ceiling_db: Some(again),
            })
        }),
{
}

/// Events that do not belong to a step change nothing: no step is reached by
/// skipping another, and a progress report only moves the bar of the
/// measurement that runs.
pub proof fn law_only_the_step_s_own_events_count(w: Wizard, p: F32)
    ensures
        !(w.step is Intro) ==> w.next(WizardEvent::Begin) == w && w.starts(
            WizardEvent::Begin,
        ) is None,
        w.step is Intro || w.step is Measuring || w.step is Done ==> w.next(WizardEvent::Continue)
            == w && w.next(WizardEvent::SkipCeiling) == w,
        w.step is NoiseDone ==> w.next(WizardEvent::SkipCeiling) == w,
        !(w.step is Measuring) ==> w.next(WizardEvent::Progress(p)) == w,
        w.step matches WizardStep::Measuring { kind, .. } ==> w.next(WizardEvent::Progress(p)) == (
        Wizard { step: WizardStep::Measuring { kind, progress: p }, ..w }),
{
}

/// A heading or a line that shows a level.
pub open spec fn shows(row: Row, db: F32) -> bool {
    (row matches Row::Heading(l) && l.value == Some(db)) || (row matches Row::Body(l) && l.value
        == Some(db))
}

/// Each step shows what it is about: a measurement its prompt and how far it has
/// come, with a hint while monitoring is paused or no voice is heard; a level
/// taken, that level; the end, the levels that would be saved. The way to
/// measure on is offered with the levels, the way to finish at the end alone,
/// and the way out everywhere else.
pub proof fn law_each_step_shows_what_it_is_about(
    step: WizardStep,
    paused: bool,
    stalled: bool,
    changed: bool,
)
    ensures
        ({
            let rows = screen(step, paused, stalled, changed);
            let n = rows.len() as int;
            match step {
                WizardStep::Intro => {
                    &&& n == 5 + (if changed {
                        1int
                    } else {
                        0
                    })
                    &&& rows[n - 2] matches Row::Button { action, .. } && action == Action::Event(
                        WizardEvent::Begin,
                    )
                    &&& rows[n - 1] == Row::CancelRow
                },
                WizardStep::Measuring { kind, progress } => {
                    &&& n == 4 + (if paused {
                        1int
                    } else {
                        0
                    }) + (if stalled {
                        1int
                    } else {
                        0
                    })
                    &&& rows[0] == Row::Heading(plain(prompt(kind)))
                    &&& rows[1] == Row::Progress(progress)
                    &&& rows[n - 2] == Row::Meter
                    &&& rows[n - 1] == Row::CancelRow
                },
                WizardStep::NoiseDone { noise_db } => {
                    &&& n == 5
                    &&& shows(rows[0], noise_db)
                    &&& rows[3] matches Row::Button { action, .. } && action == Action::Event(
                        WizardEvent::Continue,
                    )
                    &&& rows[4] == Row::CancelRow
                },
                WizardStep::QuietDone { quiet_db, skip_ceiling_default, .. } => {
                    &&& n == 6
                    &&& shows(rows[0], quiet_db)
                    &&& rows[3] matches Row::Button { action, kind, .. } && kind
                        == ButtonKind::Primary && action == Action::Event(
                        if skip_ceiling_default {
                            WizardEvent::SkipCeiling
                        } else {
                            WizardEvent::Continue
                        },
                    )
                    &&& rows[4] matches Row::Button { action, kind, .. } && kind
                        == ButtonKind::Secondary && action == Action::Event(
                        if skip_ceiling_default {
                            WizardEvent::Continue
                        } else {
                            WizardEvent::SkipCeiling
                        },
                    )
                    &&& rows[5] == Row::CancelRow
                },
                WizardStep::CeilingRetry { gap_db, .. } => {
                    &&& n == 6
                    &&& shows(rows[1], gap_db)
                    &&& rows[3] matches Row::Button { action, .. } && action == Action::Event(
                        WizardEvent::Continue,
                    )
                    &&& rows[4] matches Row::Button { action, .. } && action == Action::Event(
                        WizardEvent::SkipCeiling,
                    )
                    &&& rows[5] == Row::CancelRow
                },
                WizardStep::Done { result } => {
                    &&& n == 7
                    &&& shows(rows[1], result.quiet_db)
                    &&& result.ceiling_db matches Some(c) ==> shows(rows[2], c)
                    &&& rows[5] matches Row::Button { action, .. } && action == Action::Finish
                    &&& rows[6] matches Row::Button { action, .. } && action == Action::Cancel
                },
            }
        }),
{
}

/// Each measurement asks for what it measures, and no two ask the same.
pub proof fn law_each_measurement_asks_for_what_it_measures(a: MeasurementKind, b: MeasurementKind)
    ensures
        prompt(MeasurementKind::NoiseFloor) == "Stay quiet for 3 seconds.",
        prompt(MeasurementKind::QuietPoint)
            == "Talk at the volume you'd use with a roommate asleep.",
        prompt(MeasurementKind::Ceiling)
            == "Talk at the volume you'd use if they were in the room.",
        prompt(a)@ == prompt(b)@ <==> a == b,
{
    reveal_strlit("Stay quiet for 3 seconds.");
    reveal_strlit("Talk at the volume you'd use with a roommate asleep.");
    reveal_strlit("Talk at the volume you'd use if they were in the room.");
    assert(a != b ==> prompt(a)@.len() != prompt(b)@.len());
}

} // verus!
