//! Decoding of the handpose network output: the 21 landmark triples, and
//! the confidence combination with the detector's region score.

use vstd::prelude::*;

use crate::fixed::{div_trunc, div_trunc_i128, spec_clamp, UNIT};
use crate::types::PalmRegion;

verus! {

/// Everything one handpose inference yields: landmarks in model space and
/// in frame space, the clamped confidence, the handedness score, and the
/// palm regions of the frame.
#[derive(Clone, Debug)]
pub struct HandposeOutput {
    pub raw_landmarks: Vec<[i64; 3]>,
    pub projected_landmarks: Vec<(i64, i64)>,
    /// Clamped to `[0, UNIT]`.
    pub confidence: i64,
    pub handedness: i64,
    pub palm_regions: Vec<PalmRegion>,
}

/// Why the landmark vector was refused.
#[derive(Clone, Copy, Debug, PartialEq, Eq, Structural)]
pub enum LandmarkError {
    /// Fewer than `21 * 3` values.
    TooShort,
}

/// Interpret a flat output vector as 21 consecutive `(x, y, z)` triples.
/// Fails exactly when fewer than 63 values are present; extra values are
/// ignored.
pub fn decode_landmarks(flat: &Vec<i64>) -> (res: Result<Vec<[i64; 3]>, LandmarkError>)
    ensures
        res is Err <==> flat@.len() < 63,
        res matches Ok(lms) ==> {
            &&& lms@.len() == 21
            &&& forall|i: int|
                0 <= i < 21 ==> {
                    &&& (#[trigger] lms@[i])[0] == flat@[3 * i]
                    &&& lms@[i][1] == flat@[3 * i + 1]
                    &&& lms@[i][2] == flat@[3 * i + 2]
                }
        },
{
    if flat.len() < 63 {
        return Err(LandmarkError::TooShort);
    }
    let mut lms: Vec<[i64; 3]> = Vec::new();
    let mut i: usize = 0;
    while i < 21
        invariant
            i <= 21,
            flat@.len() >= 63,
            lms@.len() == i,
            forall|j: int|
                0 <= j < i ==> {
                    &&& (#[trigger] lms@[j])[0] == flat@[3 * j]
                    &&& lms@[j][1] == flat@[3 * j + 1]
                    &&& lms@[j][2] == flat@[3 * j + 2]
                },
        decreases 21 - i,
    {
        lms.push([flat[3 * i], flat[3 * i + 1], flat[3 * i + 2]]);
        i = i + 1;
    }
    Ok(lms)
}

/// The final confidence when the detector's region score is known: the
/// product of the two, clamped to `[0, UNIT]`.
pub open spec fn combined_confidence_spec(confidence: int, region_score: int) -> int {
    spec_clamp(div_trunc(confidence * region_score, UNIT as int), 0, UNIT as int)
}

pub fn combine_confidence(confidence: i64, region_score: i64) -> (res: i64)
    ensures
        res == combined_confidence_spec(confidence as int, region_score as int),
        0 <= res <= UNIT,
{
    proof {
        crate::fixed::lemma_mul_range(
            confidence as int,
            region_score as int,
            0x8000_0000_0000_0000,
            0x8000_0000_0000_0000,
        );
    }
    let prod: i128 = (confidence as i128) * (region_score as i128);
    let q: i128 = div_trunc_i128(prod, UNIT as i128);
    proof {
        crate::palm::lemma_div_trunc_bound(prod as int, UNIT as int);
    }
    if q < 0 {
        0
    } else if q > UNIT as i128 {
        UNIT
    } else {
        q as i64
    }
}

} // verus!
