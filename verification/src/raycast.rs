//! The faces of a voxel a ray can enter through.
use vstd::prelude::*;

verus! {

/// The face of a voxel a ray crossed to enter it, by the axis and direction of its
/// outward normal.
#[derive(Clone, Copy, Debug, PartialEq, Eq, Structural)]
pub enum Face {
    PosX,
    NegX,
    PosY,
    NegY,
    PosZ,
    NegZ,
}

} // verus!
