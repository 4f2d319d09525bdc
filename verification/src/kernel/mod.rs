//! The geometry-kernel side of the stack: typed errors, topology statistics,
//! the reference in-memory kernel and the plain records exchanged with a
//! native backend.

use vstd::prelude::*;

pub mod error;
pub mod mock;

pub use error::{KernelError, KernelErrorKind};
pub use mock::MockKernel;

verus! {

/// Topology counts of a shape.
#[derive(Debug, Clone, Copy, PartialEq, Eq, Default, Structural)]
pub struct ShapeStats {
    pub vertices: u64,
    pub edges: u64,
    pub faces: u64,
    pub solids: u64,
}

} // verus!
pub mod native;
