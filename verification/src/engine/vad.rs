//! Voice activity.

use vstd::prelude::*;

use crate::binary32::F32;
use crate::engine::features::SpectralFeatures;

verus! {

/// Low-to-moderate zero-crossing rate (0.01 to 0.35) and more than half of the
/// energy in the speech band.
pub open spec fn voiced(zcr: F32, features: SpectralFeatures) -> bool {
    &&& F32::of_ratio(1, 100).le_spec(zcr)
    &&& zcr.le_spec(F32::of_ratio(35, 100))
    &&& F32::of_ratio(1, 2).lt_spec(features.speech_ratio)
}

/// Cheap VAD: speech has a low-to-moderate zero-crossing rate and most of its
/// energy in the 100-1000 Hz band. Keyboard/mouse clicks are broadband and spiky.
pub fn is_voiced(zcr: F32, features: &SpectralFeatures) -> (r: bool)
    ensures
        r == voiced(zcr, *features),
{
    F32::ratio(1, 100).le(zcr) && zcr.le(F32::ratio(35, 100)) && F32::ratio(1, 2).lt(
        features.speech_ratio,
    )
}

} // verus!
