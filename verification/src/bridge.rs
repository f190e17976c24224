//! What the UI tells the audio callback.

use vstd::prelude::*;

use crate::engine::calibrate::Measurement;
use crate::engine::Tuning;

verus! {

/// What a calibration measurement is for.
#[derive(Debug, Clone, Copy, PartialEq, Eq, Structural)]
pub enum MeasurementKind {
    NoiseFloor,
    QuietPoint,
    Ceiling,
}

/// UI -> audio-callback commands. Drained each frame, without blocking.
pub enum Command {
    SetTuning(Tuning),
    SetGate { hold_ms: u64, cooldown_ms: u64 },
    SetTestMode(bool),
    /// Re-announce the tray state after the enable toggle.
    SetEnabledIconBaseline,
    /// Begin a measurement, built beforehand.
    StartMeasurement(MeasurementKind, Box<Measurement>),
    CancelMeasurement,
}

} // verus!
