//! The app's state machine: what each message changes, and what is to be done
//! about it.

use vstd::prelude::*;

use crate::binary32::F32;
use crate::bridge::MeasurementKind;
use crate::config::{CalibrationState, Config, DeviceCalibration};
use crate::detector::{FrameOutcome, TrayState};
use crate::engine::Tuning;
use crate::ui::calibrate::{Wizard, WizardEvent, WizardResult, WizardStep};
use crate::ui::icons::TrayIcon;
#[allow(unused_imports)]
use crate::ui::settings::{banner_copy, banner_due, drift_due, Banner, BannerAction};

verus! {

/// How often the settings window samples the live levels, in ms.
pub const TICK_MS: u64 = 80;

/// Width of the settings window.
pub const WINDOW_WIDTH: u32 = 380;

/// Height of the settings window.
pub const WINDOW_HEIGHT: u32 = 520;

/// The app's name, as window title and tray tooltip.
pub const TITLE: &'static str = "Ragequiet";

/// Stands in for the name of an input device that could not be had.
pub const UNKNOWN_INPUT: &'static str = "unknown input";

/// Rare events pushed from the audio callback to the UI.
#[derive(Debug, Clone, Copy, PartialEq, Eq, Structural)]
pub enum AudioEvent {
    State(TrayState),
    Beeped,
}

/// What the audio callback tells the UI of a frame: a fired alert first, then
/// a change of state.
pub open spec fn events_of(outcome: FrameOutcome) -> Seq<AudioEvent> {
    let beeped = if outcome.beep {
        seq![AudioEvent::Beeped]
    } else {
        Seq::empty()
    };
    let changed = match outcome.state_change {
        Some(state) => seq![AudioEvent::State(state)],
        None => Seq::empty(),
    };
    beeped + changed
}

pub fn audio_events(outcome: &FrameOutcome) -> (r: Vec<AudioEvent>)
    ensures
        r@ == events_of(*outcome),
{
    let mut events: Vec<AudioEvent> = Vec::new();
    if outcome.beep {
        events.push(AudioEvent::Beeped);
    }
    if let Some(state) = outcome.state_change {
        events.push(AudioEvent::State(state));
    }
    assert(events@ =~= events_of(*outcome));
    events
}

/// Static markers the meter draws behind the live level, snapshotted from the
/// device's calibration at boot.
#[derive(Debug, Clone, Copy, PartialEq, Eq, Structural)]
pub struct TuningMeta {
    pub noise_floor_db: F32,
    pub quiet_db: Option<F32>,
    pub ceiling_db: Option<F32>,
    /// false = the ceiling is an estimate derived from the baseline margin.
    pub ceiling_confirmed: bool,
    pub sensitivity: F32,
}

/// The tuning that a device's calibration gives; the default one without.
pub open spec fn tuning_of(calibration: Option<DeviceCalibration>) -> Tuning {
    match calibration {
        Some(c) => c.tuned(),
        None => Tuning::uncalibrated(),
    }
}

/// The markers of a device's calibration.
pub open spec fn meta_of(calibration: Option<DeviceCalibration>) -> TuningMeta {
    let tuning = tuning_of(calibration);
    TuningMeta {
        noise_floor_db: tuning.noise_floor_db,
        quiet_db: tuning.quiet_db,
        ceiling_db: tuning.ceiling_db,
        ceiling_confirmed: calibration matches Some(c) && (c.state == CalibrationState::CeilingSet
            || c.state == CalibrationState::CeilingLearned),
        sensitivity: tuning.sensitivity,
    }
}

/// The calibration that a finished wizard gives: complete with a ceiling, a
/// baseline without.
pub open spec fn calibrated(result: WizardResult, sensitivity: F32) -> DeviceCalibration {
    DeviceCalibration {
        state: if result.ceiling_db is Some {
            CalibrationState::CeilingSet
        } else {
            CalibrationState::BaselineOnly
        },
        quiet_db: result.quiet_db,
        ceiling_db: result.ceiling_db,
        noise_floor_db: result.noise_floor_db,
        sensitivity,
    }
}

impl TuningMeta {
    pub open spec fn tuning(self) -> Tuning {
        Tuning {
            noise_floor_db: self.noise_floor_db,
            quiet_db: self.quiet_db,
            ceiling_db: self.ceiling_db,
            sensitivity: self.sensitivity,
        }
    }
}

/// The threshold that the calibration anchors alone imply; NaN without a
/// calibration.
pub fn meta_threshold_db(meta: &TuningMeta) -> (r: F32)
    ensures
        r == (match meta.quiet_db {
            Some(quiet) => meta.tuning().anchored(quiet),
            None => F32::not_a_number(),
        }),
{
    match meta.quiet_db {
        Some(quiet) => {
            let tuning: Tuning = Tuning {
                noise_floor_db: meta.noise_floor_db,
                quiet_db: meta.quiet_db,
                ceiling_db: meta.ceiling_db,
                sensitivity: meta.sensitivity,
            };
            tuning.anchored_threshold(quiet)
        },
        None => F32::quiet_nan(),
    }
}

/// Live readouts, sampled on a tick.
#[derive(Debug, Clone, Copy, PartialEq, Eq, Structural)]
pub struct Levels {
    pub level_db: F32,
    pub threshold_db: F32,
    pub peak_db: F32,
}

/// What the user chose in the tray menu.
#[derive(Debug, Clone, Copy, PartialEq, Eq, Structural)]
pub enum MenuChoice {
    /// The check item, and whether it is now checked.
    Enabled(bool),
    Settings,
    Quit,
    /// An item of no concern.
    Other,
}

/// What happens to the app.
#[derive(Debug, Clone, Copy, PartialEq, Eq, Structural)]
pub enum Message {
    Menu(MenuChoice),
    TrayStateChanged(TrayState),
    Beeped,
    WindowOpened,
    /// A window was closed; whether it was the settings window.
    WindowClosed(bool),
    /// The live readouts at a tick.
    Tick(Levels),
    SensitivityChanged(F32),
    HoldChanged(u64),
    CooldownChanged(u64),
    TestModeToggled(bool),
    /// Calibrate; the hour of the day.
    WizardStarted(u32),
    WizardEvent(WizardEvent),
    /// Save what the wizard has found.
    WizardFinished,
    /// Leave the wizard, whatever is running.
    WizardCancelled,
    DriftNudgeDismissed,
    Quit,
}

/// What is to be done about a message, in order.
#[derive(Debug, Clone, Copy, PartialEq, Eq, Structural)]
pub enum Effect {
    /// Tell the detector to re-announce its state and forget a hold.
    ResumeDetector,
    PlayStream,
    PauseStream,
    SetIcon(TrayIcon),
    OpenSettingsWindow,
    /// Send the quit message to the app itself.
    RequestQuit,
    Exit,
    SetTuning(Tuning),
    SetGate { hold_ms: u64, cooldown_ms: u64 },
    SetTestMode(bool),
    StartMeasurement(MeasurementKind),
    CancelMeasurement,
    SaveConfig,
}

/// The app's state.
pub struct App {
    /// The settings window is open.
    pub settings_open: bool,
    pub enabled: bool,
    pub alerts_this_session: u32,
    pub test_mode: bool,
    pub config: Config,
    pub device_name: String,
    /// An input device is open; the app runs without one, too.
    pub has_stream: bool,
    pub tuning_meta: TuningMeta,
    pub latest: Levels,
    /// The calibration wizard, while it runs.
    pub wizard: Option<Wizard>,
    /// The wizard was asked for without a microphone to calibrate.
    pub wizard_error: bool,
    /// The drift nudge was dismissed since the last calibration.
    pub drift_nudge_dismissed: bool,
}

/// The one effect, if it applies.
pub open spec fn only_if(cond: bool, effect: Effect) -> Seq<Effect> {
    if cond {
        seq![effect]
    } else {
        Seq::empty()
    }
}

impl App {
    pub open spec fn wf(self) -> bool {
        self.config.wf()
    }

    /// The calibration of the device in use.
    pub open spec fn calibration(self) -> Option<DeviceCalibration> {
        if self.config.calibration@.dom().contains(self.device_name@) {
            Some(self.config.calibration@[self.device_name@])
        } else {
            None
        }
    }

    /// Everything but the calibrations is as before.
    pub open spec fn same_but_calibration(self, other: App) -> bool {
        &&& self.settings_open == other.settings_open
        &&& self.enabled == other.enabled
        &&& self.alerts_this_session == other.alerts_this_session
        &&& self.test_mode == other.test_mode
        &&& self.device_name == other.device_name
        &&& self.has_stream == other.has_stream
        &&& self.latest == other.latest
        &&& self.wizard == other.wizard
        &&& self.wizard_error == other.wizard_error
        &&& self.drift_nudge_dismissed == other.drift_nudge_dismissed
        &&& self.config.hold_ms == other.config.hold_ms
        &&& self.config.cooldown_ms == other.config.cooldown_ms
        &&& self.config.banner_dismissed_on == other.config.banner_dismissed_on
        &&& self.config.alert_sound == other.config.alert_sound
        &&& self.config.alert_volume == other.config.alert_volume
        &&& self.config.output_device == other.config.output_device
    }

    /// What a message makes of the app.
    pub open spec fn becomes(self, message: Message, after: App) -> bool {
        match message {
            Message::Menu(MenuChoice::Enabled(on)) => after == (App { enabled: on, ..self }),
            Message::Menu(_) => after == self,
            Message::TrayStateChanged(_) => after == self,
            Message::Beeped => after == (App {
                alerts_this_session: if self.alerts_this_session == u32::MAX {
                    u32::MAX
                } else {
                    (self.alerts_this_session + 1) as u32
                },
                ..self
            }),
            Message::WindowOpened => after == (App { settings_open: true, ..self }),
            Message::WindowClosed(ours) => after == (App {
                settings_open: self.settings_open && !ours,
                ..self
            }),
            Message::Tick(levels) => after == (App { latest: levels, ..self }),
            Message::SensitivityChanged(value) => match self.calibration() {
                Some(cal) => {
                    let changed = DeviceCalibration { sensitivity: value, ..cal };
                    &&& after.same_but_calibration(self)
                    &&& after.config.calibration@ == self.config.calibration@.insert(
                        self.device_name@,
                        changed,
                    )
                    &&& after.tuning_meta == (TuningMeta {
                        sensitivity: changed.tuned().sensitivity,
                        ..self.tuning_meta
                    })
                },
                None => after == self,
            },
            Message::HoldChanged(hold_ms) => after == (App {
                config: Config { hold_ms, ..self.config },
                ..self
            }),
            Message::CooldownChanged(cooldown_ms) => after == (App {
                config: Config { cooldown_ms, ..self.config },
                ..self
            }),
            Message::TestModeToggled(on) => after == (App { test_mode: on, ..self }),
            Message::WizardStarted(hour) => after == (App {
                wizard: if self.has_stream {
                    Some(Wizard::begun(hour))
                } else {
                    self.wizard
                },
                wizard_error: !self.has_stream,
                ..self
            }),
            Message::WizardEvent(event) => after == (App {
                wizard: match self.wizard {
                    Some(w) => Some(w.next(event)),
                    None => None,
                },
                ..self
            }),
            Message::WizardFinished => match self.wizard_result() {
                Some(result) => {
                    let cal = calibrated(result, self.tuning_meta.sensitivity);
                    &&& after.same_but_calibration(
                        App { wizard: None, drift_nudge_dismissed: false, ..self },
                    )
                    &&& after.config.calibration@ == self.config.calibration@.insert(
                        self.device_name@,
                        cal,
                    )
                    &&& after.tuning_meta == meta_of(Some(cal))
                },
                None => after == self,
            },
            Message::WizardCancelled => after == (App { wizard: None, ..self }),
            Message::DriftNudgeDismissed => after == (App {
                drift_nudge_dismissed: true,
                ..self
            }),
            Message::Quit => after == self,
        }
    }

    /// What the wizard has found, once it is done.
    pub open spec fn wizard_result(self) -> Option<WizardResult> {
        match self.wizard {
            Some(w) => match w.step {
                WizardStep::Done { result } => Some(result),
                _ => None,
            },
            None => None,
        }
    }

    /// What is to be done about a message.
    pub open spec fn effects(self, message: Message) -> Seq<Effect> {
        match message {
            Message::Menu(MenuChoice::Enabled(true)) => seq![Effect::ResumeDetector] + only_if(
                self.has_stream,
                Effect::PlayStream,
            ) + seq![Effect::SetIcon(TrayIcon::Quiet)],
            Message::Menu(MenuChoice::Enabled(false)) => only_if(
                self.has_stream,
                Effect::PauseStream,
            ) + seq![Effect::SetIcon(TrayIcon::Off)],
            Message::Menu(MenuChoice::Settings) => only_if(
                !self.settings_open,
                Effect::OpenSettingsWindow,
            ),
            Message::Menu(MenuChoice::Quit) => seq![Effect::RequestQuit],
            Message::Menu(MenuChoice::Other) => Seq::empty(),
            Message::TrayStateChanged(state) => only_if(
                self.enabled,
                Effect::SetIcon(TrayIcon::showing(state)),
            ),
            Message::Beeped => Seq::empty(),
            Message::WindowOpened => Seq::empty(),
            Message::WindowClosed(_) => Seq::empty(),
            Message::Tick(_) => Seq::empty(),
            Message::SensitivityChanged(value) => match self.calibration() {
                Some(cal) => seq![
                    Effect::SetTuning((DeviceCalibration { sensitivity: value, ..cal }).tuned()),
                    Effect::SaveConfig,
                ],
                None => Seq::empty(),
            },
            Message::HoldChanged(hold_ms) => seq![
                Effect::SetGate { hold_ms, cooldown_ms: self.config.cooldown_ms },
                Effect::SaveConfig,
            ],
            Message::CooldownChanged(cooldown_ms) => seq![
                Effect::SetGate { hold_ms: self.config.hold_ms, cooldown_ms },
                Effect::SaveConfig,
            ],
            Message::TestModeToggled(on) => seq![Effect::SetTestMode(on)],
            Message::WizardStarted(_) => Seq::empty(),
            Message::WizardEvent(event) => match self.wizard {
                Some(w) => match w.starts(event) {
                    Some(kind) => seq![Effect::StartMeasurement(kind)],
                    None => Seq::empty(),
                },
                None => Seq::empty(),
            },
            Message::WizardFinished => match self.wizard_result() {
                Some(result) => seq![
                    Effect::SetTuning(calibrated(result, self.tuning_meta.sensitivity).tuned()),
                    Effect::SaveConfig,
                ],
                None => Seq::empty(),
            },
            Message::WizardCancelled => only_if(
                self.wizard matches Some(w) && w.measuring() is Some,
                Effect::CancelMeasurement,
            ),
            Message::DriftNudgeDismissed => Seq::empty(),
            Message::Quit => seq![Effect::Exit],
        }
    }

    /// What a banner's button makes of the app, on a day and at an hour of it.
    pub open spec fn becomes_by_banner(
        self,
        action: BannerAction,
        today: String,
        hour: u32,
        after: App,
    ) -> bool {
        match action {
            BannerAction::StartWizard => self.becomes(Message::WizardStarted(hour), after),
            BannerAction::DismissIncomplete => after == (App {
                config: Config { banner_dismissed_on: Some(today), ..self.config },
                ..self
            }),
            BannerAction::DismissDrift => self.becomes(Message::DriftNudgeDismissed, after),
        }
    }

    /// What is to be done about a banner's button: only the day of a dismissal
    /// is kept for good.
    pub open spec fn banner_effects(action: BannerAction) -> Seq<Effect> {
        only_if(action == BannerAction::DismissIncomplete, Effect::SaveConfig)
    }

    /// The app at launch. `device` is the input device's name, if it could be
    /// had, and `has_stream` whether the device could be opened. No window at
    /// launch: the app lives in the tray.
    pub fn boot(config: Config, device: Option<String>, has_stream: bool) -> (r: App)
        requires
            config.wf(),
        ensures
            r.wf(),
            r.config == config,
            r.device_name@ == (match device {
                Some(name) => name@,
                None => UNKNOWN_INPUT@,
            }),
            r.has_stream == has_stream,
            r.tuning_meta == meta_of(r.calibration()),
            r.enabled,
            !r.settings_open,
            !r.test_mode,
            r.wizard is None,
            !r.wizard_error,
            !r.drift_nudge_dismissed,
            r.alerts_this_session == 0,
            r.latest == (Levels {
                level_db: F32::of_int(0),
                threshold_db: F32::of_int(0),
                peak_db: F32::of_int(0),
            }),
    {
        let device_name: String = match device {
            Some(name) => name,
            None => UNKNOWN_INPUT.to_owned(),
        };
        let calibration: Option<DeviceCalibration> = config.calibration.get(&device_name);
        let tuning: Tuning = match calibration {
            Some(c) => c.tuning(),
            None => Tuning::default(),
        };
        let ceiling_confirmed: bool = match calibration {
            Some(c) => match c.state {
                CalibrationState::CeilingSet => true,
                CalibrationState::CeilingLearned => true,
                CalibrationState::BaselineOnly => false,
            },
            None => false,
        };
        let tuning_meta: TuningMeta = TuningMeta {
            noise_floor_db: tuning.noise_floor_db,
            quiet_db: tuning.quiet_db,
            ceiling_db: tuning.ceiling_db,
            ceiling_confirmed,
            sensitivity: tuning.sensitivity,
        };
        let zero: F32 = F32::from_i32(0);
        App {
            settings_open: false,
            enabled: true,
            alerts_this_session: 0,
            test_mode: false,
            config,
            device_name,
            has_stream,
            tuning_meta,
            latest: Levels { level_db: zero, threshold_db: zero, peak_db: zero },
            wizard: None,
            wizard_error: false,
            drift_nudge_dismissed: false,
        }
    }

    /// The tuning the engine starts with.
    pub fn tuning(&self) -> (r: Tuning)
        requires
            self.wf(),
        ensures
            r == tuning_of(self.calibration()),
    {
        match self.config.calibration.get(&self.device_name) {
            Some(c) => c.tuning(),
            None => Tuning::default(),
        }
    }

    /// The icon at launch. No stream means nothing is being monitored: say so
    /// with the off icon.
    pub fn initial_icon(&self) -> (r: TrayIcon)
        ensures
            r == (if self.has_stream {
                TrayIcon::Quiet
            } else {
                TrayIcon::Off
            }),
    {
        if self.has_stream {
            TrayIcon::Quiet
        } else {
            TrayIcon::Off
        }
    }

    pub fn update(&mut self, message: Message) -> (effects: Vec<Effect>)
        requires
            old(self).wf(),
        ensures
            final(self).wf(),
            old(self).becomes(message, *final(self)),
            effects@ == old(self).effects(message),
    {
        let mut effects: Vec<Effect> = Vec::new();
        match message {
            Message::Menu(choice) => match choice {
                MenuChoice::Enabled(on) => self.set_enabled(on, &mut effects),
                MenuChoice::Settings => {
                    if !self.settings_open {
                        effects.push(Effect::OpenSettingsWindow);
                    }
                },
                MenuChoice::Quit => effects.push(Effect::RequestQuit),
                MenuChoice::Other => {},
            },
            Message::TrayStateChanged(state) => {
                if self.enabled {
                    effects.push(Effect::SetIcon(TrayIcon::for_state(state)));
                }
            },
            Message::Beeped => {
                if self.alerts_this_session < u32::MAX {
                    self.alerts_this_session = self.alerts_this_session + 1;
                }
            },
            Message::WindowOpened => {
                self.settings_open = true;
            },
            Message::WindowClosed(ours) => {
                if ours {
                    self.settings_open = false;
                }
            },
            Message::Tick(levels) => {
                self.latest = levels;
            },
            Message::SensitivityChanged(value) => self.set_sensitivity(value, &mut effects),
            Message::HoldChanged(hold_ms) => {
                self.config.hold_ms = hold_ms;
                self.send_gate(&mut effects);
            },
            Message::CooldownChanged(cooldown_ms) => {
                self.config.cooldown_ms = cooldown_ms;
                self.send_gate(&mut effects);
            },
            Message::TestModeToggled(on) => {
                self.test_mode = on;
                effects.push(Effect::SetTestMode(on));
            },
            Message::WizardStarted(hour) => {
                if self.has_stream {
                    self.wizard = Some(Wizard::new(hour));
                }
                self.wizard_error = !self.has_stream;
            },
            Message::WizardEvent(event) => {
                if let Some(w) = self.wizard {
                    let mut wizard: Wizard = w;
                    if let Some(kind) = wizard.on_event(event) {
                        effects.push(Effect::StartMeasurement(kind));
                    }
                    self.wizard = Some(wizard);
                }
            },
            Message::WizardFinished => self.finish_wizard(&mut effects),
            Message::WizardCancelled => {
                if let Some(w) = self.wizard {
                    if w.cancelled_measurement().is_some() {
                        effects.push(Effect::CancelMeasurement);
                    }
                }
                self.wizard = None;
            },
            Message::DriftNudgeDismissed => {
                self.drift_nudge_dismissed = true;
            },
            Message::Quit => effects.push(Effect::Exit),
        }
        assert(effects@ =~= old(self).effects(message));
        effects
    }

    fn set_enabled(&mut self, enabled: bool, effects: &mut Vec<Effect>)
        requires
            old(self).wf(),
            old(effects)@.len() == 0,
        ensures
            *final(self) == (App { enabled, ..*old(self) }),
            final(effects)@ == old(self).effects(Message::Menu(MenuChoice::Enabled(enabled))),
    {
        self.enabled = enabled;
        if enabled {
            // Re-announce the state on the next frame and make an in-progress
            // shout re-earn its hold.
            effects.push(Effect::ResumeDetector);
            if self.has_stream {
                effects.push(Effect::PlayStream);
            }
            effects.push(Effect::SetIcon(TrayIcon::Quiet));
        } else {
            if self.has_stream {
                effects.push(Effect::PauseStream);
            }
            effects.push(Effect::SetIcon(TrayIcon::Off));
        }
        assert(effects@ =~= old(self).effects(Message::Menu(MenuChoice::Enabled(enabled))));
    }

    fn set_sensitivity(&mut self, value: F32, effects: &mut Vec<Effect>)
        requires
            old(self).wf(),
            old(effects)@.len() == 0,
        ensures
            final(self).wf(),
            old(self).becomes(Message::SensitivityChanged(value), *final(self)),
            final(effects)@ == old(self).effects(Message::SensitivityChanged(value)),
    {
        if let Some(cal) = self.config.calibration.get(&self.device_name) {
            let mut changed: DeviceCalibration = cal;
            changed.sensitivity = value;
            let device: String = self.device_name.clone();
            self.config.calibration.insert(device, changed);
            let tuning: Tuning = changed.tuning();
            effects.push(Effect::SetTuning(tuning));
            self.tuning_meta.sensitivity = tuning.sensitivity;
            effects.push(Effect::SaveConfig);
        }
        assert(effects@ =~= old(self).effects(Message::SensitivityChanged(value)));
    }

    fn send_gate(&self, effects: &mut Vec<Effect>)
        ensures
            final(effects)@ == old(effects)@ + seq![
                Effect::SetGate {
                    hold_ms: self.config.hold_ms,
                    cooldown_ms: self.config.cooldown_ms,
                },
                Effect::SaveConfig,
            ],
    {
        effects.push(
            Effect::SetGate {
                hold_ms: self.config.hold_ms,
                cooldown_ms: self.config.cooldown_ms,
            },
        );
        effects.push(Effect::SaveConfig);
        assert(effects@ =~= old(effects)@ + seq![
            Effect::SetGate {
                hold_ms: self.config.hold_ms,
                cooldown_ms: self.config.cooldown_ms,
            },
            Effect::SaveConfig,
        ]);
    }

    /// The wizard's result is this device's calibration from now on.
    fn finish_wizard(&mut self, effects: &mut Vec<Effect>)
        requires
            old(self).wf(),
            old(effects)@.len() == 0,
        ensures
            final(self).wf(),
            old(self).becomes(Message::WizardFinished, *final(self)),
            final(effects)@ == old(self).effects(Message::WizardFinished),
    {
        let result: WizardResult = match self.wizard {
            Some(w) => match w.step {
                WizardStep::Done { result } => result,
                _ => {
                    assert(effects@ =~= old(self).effects(Message::WizardFinished));
                    return;
                },
            },
            None => {
                assert(effects@ =~= old(self).effects(Message::WizardFinished));
                return;
            },
        };
        let state: CalibrationState = match result.ceiling_db {
            Some(_) => CalibrationState::CeilingSet,
            None => CalibrationState::BaselineOnly,
        };
        let calibration: DeviceCalibration = DeviceCalibration {
            state,
            quiet_db: result.quiet_db,
            ceiling_db: result.ceiling_db,
            noise_floor_db: result.noise_floor_db,
            sensitivity: self.tuning_meta.sensitivity,
        };
        let device: String = self.device_name.clone();
        self.config.calibration.insert(device, calibration);
        let tuning: Tuning = calibration.tuning();
        self.tuning_meta = TuningMeta {
            noise_floor_db: tuning.noise_floor_db,
            quiet_db: tuning.quiet_db,
            ceiling_db: tuning.ceiling_db,
            ceiling_confirmed: result.ceiling_db.is_some(),
            sensitivity: tuning.sensitivity,
        };
        self.wizard = None;
        self.drift_nudge_dismissed = false;
        effects.push(Effect::SetTuning(tuning));
        effects.push(Effect::SaveConfig);
        assert(effects@ =~= old(self).effects(Message::WizardFinished));
    }

    /// A banner's button was pressed, on the day `today` and at an hour of it.
    pub fn on_banner(&mut self, action: BannerAction, today: String, hour: u32) -> (effects: Vec<
        Effect,
    >)
        requires
            old(self).wf(),
        ensures
            final(self).wf(),
            old(self).becomes_by_banner(action, today, hour, *final(self)),
            effects@ == App::banner_effects(action),
    {
        match action {
            BannerAction::StartWizard => self.update(Message::WizardStarted(hour)),
            BannerAction::DismissIncomplete => {
                self.config.banner_dismissed_on = Some(today);
                let mut effects: Vec<Effect> = Vec::new();
                effects.push(Effect::SaveConfig);
                assert(effects@ =~= App::banner_effects(action));
                effects
            },
            BannerAction::DismissDrift => self.update(Message::DriftNudgeDismissed),
        }
    }

    /// Whether the levels are sampled. Sampling (and therefore repainting) only
    /// happens while the settings window exists; with no window nothing ever
    /// wakes the loop.
    pub fn ticks(&self) -> (r: bool)
        ensures
            r == self.settings_open,
    {
        self.settings_open
    }
}

/// While monitoring is off the tray icon stays off: no state change of the
/// detector shows.
pub proof fn law_a_paused_app_ignores_state_changes(app: App, state: TrayState)
    requires
        !app.enabled,
    ensures
        app.effects(Message::TrayStateChanged(state)) == Seq::<Effect>::empty(),
{
}

/// There is never more than one settings window: one is opened only while none
/// is open.
pub proof fn law_one_settings_window(app: App, message: Message)
    ensures
        app.effects(message).contains(Effect::OpenSettingsWindow) ==> !app.settings_open && message
            == Message::Menu(MenuChoice::Settings),
{
    let e = app.effects(message);
    if e.contains(Effect::OpenSettingsWindow) {
        let i = choose|i: int| 0 <= i < e.len() && e[i] == Effect::OpenSettingsWindow;
        assert(e[i] == Effect::OpenSettingsWindow);
    }
}

/// What the user sets is what the detector is told and what is saved: after a
/// change of the hold or the cooldown, the times sent are those configured.
pub proof fn law_the_gate_sent_is_the_gate_configured(app: App, message: Message, after: App)
    requires
        app.becomes(message, after),
        message is HoldChanged || message is CooldownChanged,
    ensures
        app.effects(message) == seq![
            Effect::SetGate {
                hold_ms: after.config.hold_ms,
                cooldown_ms: after.config.cooldown_ms,
            },
            Effect::SaveConfig,
        ],
{
}

/// The meter's markers keep up with the calibration: what boot takes from the
/// device's calibration stays its snapshot through any message.
pub proof fn law_markers_follow_the_calibration(app: App, message: Message, after: App)
    requires
        app.becomes(message, after),
        app.tuning_meta == meta_of(app.calibration()),
    ensures
        after.tuning_meta == meta_of(after.calibration()),
{
    match message {
        Message::SensitivityChanged(value) => {
            if let Some(cal) = app.calibration() {
                assert(after.calibration() == Some(DeviceCalibration { sensitivity: value, ..cal }));
            }
        },
        _ => {},
    }
}

/// Each banner goes away by its own close button: the calibration banner until
/// the next day, the drift nudge until the next calibration.
pub proof fn law_a_dismissed_banner_stays_away(
    app: App,
    banner: Banner,
    today: String,
    hour: u32,
    after: App,
    other_day: Seq<char>,
    drift_db: F32,
)
    requires
        app.becomes_by_banner(banner_copy(banner).dismiss, today, hour, after),
    ensures
        banner is Incomplete ==> {
            &&& !banner_due(true, after.config.banner_dismissed_on, today@)
            &&& other_day != today@ ==> banner_due(
                true,
                after.config.banner_dismissed_on,
                other_day,
            )
        },
        banner is Drift ==> !drift_due(false, drift_db, after.drift_nudge_dismissed),
{
}

/// A calibration needs a microphone: the button of every banner opens the wizard
/// with one, and leaves a notice without.
pub proof fn law_a_wizard_needs_a_microphone(
    app: App,
    banner: Banner,
    today: String,
    hour: u32,
    after: App,
)
    requires
        app.becomes_by_banner(banner_copy(banner).press, today, hour, after),
    ensures
        app.has_stream ==> after.wizard == Some(Wizard::begun(hour)) && !after.wizard_error,
        !app.has_stream ==> after.wizard == app.wizard && after.wizard_error,
{
}

/// A message changes what it names and leaves the rest of the app as it was.
pub proof fn law_a_message_changes_only_what_it_names(app: App, message: Message, after: App)
    requires
        app.becomes(message, after),
    ensures
        after.device_name == app.device_name && after.has_stream == app.has_stream,
        after.config.banner_dismissed_on == app.config.banner_dismissed_on,
        after.config.alert_sound == app.config.alert_sound,
        after.config.alert_volume == app.config.alert_volume,
        after.config.output_device == app.config.output_device,
        match message {
            Message::Menu(MenuChoice::Enabled(on)) => after.enabled == on,
            _ => after.enabled == app.enabled,
        },
        match message {
            Message::WindowOpened => after.settings_open,
            Message::WindowClosed(true) => !after.settings_open,
            _ => after.settings_open == app.settings_open,
        },
        match message {
            Message::Beeped => after.alerts_this_session == app.alerts_this_session + 1
                || app.alerts_this_session == u32::MAX && after.alerts_this_session == u32::MAX,
            _ => after.alerts_this_session == app.alerts_this_session,
        },
        match message {
            Message::TestModeToggled(on) => after.test_mode == on,
            _ => after.test_mode == app.test_mode,
        },
        match message {
            Message::Tick(levels) => after.latest == levels,
            _ => after.latest == app.latest,
        },
        match message {
            Message::HoldChanged(hold_ms) => after.config.hold_ms == hold_ms,
            _ => after.config.hold_ms == app.config.hold_ms,
        },
        match message {
            Message::CooldownChanged(cooldown_ms) => after.config.cooldown_ms == cooldown_ms,
            _ => after.config.cooldown_ms == app.config.cooldown_ms,
        },
        message is SensitivityChanged || message is WizardFinished || after.config.calibration@
            == app.config.calibration@,
        message is WizardFinished || message is DriftNudgeDismissed || after.drift_nudge_dismissed
            == app.drift_nudge_dismissed,
        message is WizardStarted || after.wizard_error == app.wizard_error,
        message is WizardStarted || message is WizardEvent || message is WizardFinished
            || message is WizardCancelled || after.wizard == app.wizard,
{
}

/// A change of one device's calibration leaves every other device's alone.
pub proof fn law_devices_are_calibrated_separately(
    app: App,
    message: Message,
    after: App,
    other: Seq<char>,
)
    requires
        app.becomes(message, after),
        other != app.device_name@,
    ensures
        after.config.calibration@.dom().contains(other) <==> app.config.calibration@.dom().contains(
            other,
        ),
        app.config.calibration@.dom().contains(other) ==> after.config.calibration@[other]
            == app.config.calibration@[other],
{
}

/// Moving the slider changes the sensitivity of the device in use and nothing
/// else of its calibration; the engine is told at once, and it is saved. An
/// uncalibrated device has no sensitivity to set.
pub proof fn law_the_sensitivity_set_takes_effect(app: App, value: F32, after: App)
    requires
        app.becomes(Message::SensitivityChanged(value), after),
    ensures
        match app.calibration() {
            Some(cal) => {
                &&& after.calibration() == Some(DeviceCalibration { sensitivity: value, ..cal })
                &&& app.effects(Message::SensitivityChanged(value)) == seq![
                    Effect::SetTuning(after.calibration()->0.tuned()),
                    Effect::SaveConfig,
                ]
            },
            None => after == app && app.effects(Message::SensitivityChanged(value)).len() == 0,
        },
{
}

/// A finished wizard calibrates the device in use with exactly what was
/// measured, complete with a ceiling and a baseline without, and the
/// sensitivity that was set; the engine is told at once, it is saved, the
/// wizard closes and a new drift can be pointed out. An unfinished one does
/// nothing.
pub proof fn law_a_finished_wizard_takes_effect(app: App, after: App)
    requires
        app.becomes(Message::WizardFinished, after),
    ensures
        ({
            let effects = app.effects(Message::WizardFinished);
            if app.wizard is Some && app.wizard->0.step is Done {
                let result = app.wizard->0.step->Done_result;
                &&& after.calibration() == Some(
                    DeviceCalibration {
                        state: if result.ceiling_db is Some {
                            CalibrationState::CeilingSet
                        } else {
                            CalibrationState::BaselineOnly
                        },
                        quiet_db: result.quiet_db,
                        ceiling_db: result.ceiling_db,
                        noise_floor_db: result.noise_floor_db,
                        sensitivity: app.tuning_meta.sensitivity,
                    },
                )
                &&& effects == seq![
                    Effect::SetTuning(after.calibration()->0.tuned()),
                    Effect::SaveConfig,
                ]
                &&& after.wizard is None && !after.drift_nudge_dismissed
            } else {
                after == app && effects.len() == 0
            }
        }),
{
}

/// The wizard runs on the app's messages: it starts from the beginning where
/// there is a microphone, takes every event, has the measurement started that
/// it asks for, and when it is left, whatever measures is stopped.
pub proof fn law_the_wizard_is_driven_by_the_app(app: App, hour: u32, event: WizardEvent, after: App)
    ensures
        app.becomes(Message::WizardStarted(hour), after) ==> {
            &&& app.has_stream ==> after.wizard == Some(Wizard::begun(hour)) && !after.wizard_error
            &&& !app.has_stream ==> after.wizard == app.wizard && after.wizard_error
        },
        app.becomes(Message::WizardEvent(event), after) ==> match app.wizard {
            Some(w) => after.wizard == Some(w.next(event)),
            None => after.wizard is None,
        },
        app.effects(Message::WizardEvent(event)) == (match app.wizard {
            Some(w) => match w.starts(event) {
                Some(kind) => seq![Effect::StartMeasurement(kind)],
                None => Seq::<Effect>::empty(),
            },
            None => Seq::<Effect>::empty(),
        }),
        app.becomes(Message::WizardCancelled, after) ==> after.wizard is None,
        app.effects(Message::WizardCancelled) == (if app.wizard is Some
            && app.wizard->0.step is Measuring {
            seq![Effect::CancelMeasurement]
        } else {
            Seq::<Effect>::empty()
        }),
{
}

/// Pausing stops the microphone and greys the icon; resuming starts it again,
/// has the detector announce its state anew and shows quiet until it does.
/// Without a microphone there is no stream to start or stop.
pub proof fn law_monitoring_can_be_paused(app: App, after: App)
    ensures
        app.effects(Message::Menu(MenuChoice::Enabled(false))) == (if app.has_stream {
            seq![Effect::PauseStream, Effect::SetIcon(TrayIcon::Off)]
        } else {
            seq![Effect::SetIcon(TrayIcon::Off)]
        }),
        app.effects(Message::Menu(MenuChoice::Enabled(true))) == (if app.has_stream {
            seq![
                Effect::ResumeDetector,
                Effect::PlayStream,
                Effect::SetIcon(TrayIcon::Quiet),
            ]
        } else {
            seq![Effect::ResumeDetector, Effect::SetIcon(TrayIcon::Quiet)]
        }),
{
    assert(app.effects(Message::Menu(MenuChoice::Enabled(false))) =~= (if app.has_stream {
        seq![Effect::PauseStream, Effect::SetIcon(TrayIcon::Off)]
    } else {
        seq![Effect::SetIcon(TrayIcon::Off)]
    }));
    assert(app.effects(Message::Menu(MenuChoice::Enabled(true))) =~= (if app.has_stream {
        seq![Effect::ResumeDetector, Effect::PlayStream, Effect::SetIcon(TrayIcon::Quiet)]
    } else {
        seq![Effect::ResumeDetector, Effect::SetIcon(TrayIcon::Quiet)]
    }));
}

/// While monitoring is on, the tray shows the detector's state.
pub proof fn law_the_tray_shows_the_detectors_state(app: App, state: TrayState)
    requires
        app.enabled,
    ensures
        app.effects(Message::TrayStateChanged(state)) == seq![
            Effect::SetIcon(
                match state {
                    TrayState::Quiet => TrayIcon::Quiet,
                    TrayState::Warning => TrayIcon::Warning,
                    TrayState::Loud => TrayIcon::Loud,
                },
            ),
        ],
{
}

/// The rest of what messages ask for: the settings window if it is not open, an
/// orderly end, the test mode passed on, and nothing for what only changes the
/// app itself.
pub proof fn law_messages_ask_for_what_they_need(
    app: App,
    on: bool,
    ours: bool,
    levels: Levels,
    hour: u32,
)
    ensures
        app.effects(Message::Menu(MenuChoice::Settings)) == (if app.settings_open {
            Seq::<Effect>::empty()
        } else {
            seq![Effect::OpenSettingsWindow]
        }),
        app.effects(Message::Menu(MenuChoice::Quit)) == seq![Effect::RequestQuit],
        app.effects(Message::Quit) == seq![Effect::Exit],
        app.effects(Message::TestModeToggled(on)) == seq![Effect::SetTestMode(on)],
        app.effects(Message::Menu(MenuChoice::Other)).len() == 0,
        app.effects(Message::Beeped).len() == 0,
        app.effects(Message::WindowOpened).len() == 0,
        app.effects(Message::WindowClosed(ours)).len() == 0,
        app.effects(Message::Tick(levels)).len() == 0,
        app.effects(Message::DriftNudgeDismissed).len() == 0,
        app.effects(Message::WizardStarted(hour)).len() == 0,
{
}

/// What was changed for good is saved: a message that changes the settings ends
/// with saving them.
pub proof fn law_changed_settings_are_saved(app: App, message: Message, after: App)
    requires
        app.becomes(message, after),
        after.config.hold_ms != app.config.hold_ms || after.config.cooldown_ms
            != app.config.cooldown_ms || after.config.calibration@ != app.config.calibration@,
    ensures
        app.effects(message).len() > 0,
        app.effects(message).last() == Effect::SaveConfig,
{
}

/// The UI hears of every alert and of every change of state, and of nothing else;
/// of an alert first.
pub proof fn law_the_ui_hears_of_every_alert(outcome: FrameOutcome)
    ensures
        events_of(outcome) == (match (outcome.beep, outcome.state_change) {
            (true, Some(state)) => seq![AudioEvent::Beeped, AudioEvent::State(state)],
            (true, None) => seq![AudioEvent::Beeped],
            (false, Some(state)) => seq![AudioEvent::State(state)],
            (false, None) => Seq::<AudioEvent>::empty(),
        }),
{
    assert(events_of(outcome) =~= (match (outcome.beep, outcome.state_change) {
        (true, Some(state)) => seq![AudioEvent::Beeped, AudioEvent::State(state)],
        (true, None) => seq![AudioEvent::Beeped],
        (false, Some(state)) => seq![AudioEvent::State(state)],
        (false, None) => Seq::<AudioEvent>::empty(),
    }));
}

/// The meter's markers are what the engine is told of the device; the ceiling
/// counts as confirmed if it was measured or learned. Without a calibration the
/// engine is told the defaults.
pub proof fn law_markers_show_what_the_engine_is_told(calibration: Option<DeviceCalibration>)
    ensures
        ({
            let told = tuning_of(calibration);
            let meta = meta_of(calibration);
            &&& match calibration {
                Some(c) => told == c.tuned(),
                None => told.noise_floor_db == F32::of_int(-55) && told.quiet_db is None
                    && told.ceiling_db is None && told.sensitivity == F32::of_ratio(1, 2),
            }
            &&& meta.noise_floor_db == told.noise_floor_db && meta.quiet_db == told.quiet_db
            &&& meta.ceiling_db == told.ceiling_db && meta.sensitivity == told.sensitivity
            &&& meta.ceiling_confirmed <==> calibration is Some && calibration->0.state
                != CalibrationState::BaselineOnly
            &&& meta.tuning() == told
        }),
{
}

/// Dismissing the calibration reminder notes the day and saves it; dismissing the
/// drift's only hides it. Neither touches anything else.
pub proof fn law_a_dismissal_notes_the_day(app: App, today: String, hour: u32, after: App)
    ensures
        app.becomes_by_banner(BannerAction::DismissIncomplete, today, hour, after) ==> {
            &&& after.config.banner_dismissed_on == Some(today)
            &&& after == (App {
                config: Config {
                    banner_dismissed_on: after.config.banner_dismissed_on,
                    ..app.config
                },
                ..app
            })
        },
        app.becomes_by_banner(BannerAction::DismissDrift, today, hour, after) ==> {
            &&& after.drift_nudge_dismissed
            &&& after == (App { drift_nudge_dismissed: after.drift_nudge_dismissed, ..app })
        },
        App::banner_effects(BannerAction::DismissIncomplete) == seq![Effect::SaveConfig],
        App::banner_effects(BannerAction::DismissDrift).len() == 0,
        App::banner_effects(BannerAction::StartWizard).len() == 0,
{
}

/// The calibration in use is the one stored under the name of the device in use.
pub proof fn law_the_calibration_in_use_is_the_devices(app: App)
    ensures
        app.calibration() is Some <==> app.config.calibration@.dom().contains(app.device_name@),
        app.calibration() matches Some(c) ==> app.config.calibration@[app.device_name@] == c,
{
}

} // verus!
