//! Interaction rules of the modelling UI: chamfer feature types, assembly
//! joint vocabulary and the smart-sketch edge import policy. The drag, snap
//! and measuring arithmetic of these tools works on floating-point
//! coordinates and is not part of this library.

pub mod chamfer;
pub mod joint;
pub mod sketch;

pub use chamfer::ChamferType;
pub use joint::{AssemblyJointKind, JointType};
pub use sketch::{face_edges_to_external, should_auto_import, EdgeProj, FaceProj, SnapKind};
