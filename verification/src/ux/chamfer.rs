//! Chamfer feature types.

use vstd::prelude::*;

verus! {

/// Chamfer type, numbered as the modelling core numbers it (0, 1, 2).
#[derive(Debug, Clone, Copy, PartialEq, Eq, Structural)]
pub enum ChamferType {
    EqualDistance,
    TwoDistances,
    DistanceAngle,
}

impl ChamferType {
    /// The type stored under number `v`; unknown numbers fall back to
    /// `EqualDistance`.
    pub fn from_i32(v: i32) -> (t: Self)
        ensures
            t == (if v == 1 {
                ChamferType::TwoDistances
            } else if v == 2 {
                ChamferType::DistanceAngle
            } else {
                ChamferType::EqualDistance
            }),
    {
        match v {
            1 => ChamferType::TwoDistances,
            2 => ChamferType::DistanceAngle,
            _ => ChamferType::EqualDistance,
        }
    }
}

} // verus!
