//! Smart sketch-on-face binding: which projected face edges become external
//! geometry of a new sketch.
//!
//! The edge endpoints (`P`) and arc data (`A`) are carried as opaque values:
//! the import policy only reads edge names and counts. The snapping that
//! measures distances between projected points works on floating-point
//! coordinates outside this library.

use vstd::prelude::*;

verus! {

/// Kind of a snap candidate.
#[derive(Debug, Clone, Copy, PartialEq, Eq, Structural)]
pub enum SnapKind {
    Endpoint,
    Midpoint,
    Center,
}

/// 2D projected edge (already in sketch plane).
#[derive(Debug, Clone)]
pub struct EdgeProj<P, A> {
    /// Global edge name like "Edge3".
    pub name: String,
    /// 2D endpoints in sketch coordinates.
    pub start: P,
    pub end: P,
    /// Arc data (centre, radius, angles), `None` for a line.
    pub arc: Option<A>,
}

/// A face's projected edges ready for external import.
#[derive(Debug, Clone)]
pub struct FaceProj<P, A> {
    pub face_name: String,
    pub edges: Vec<EdgeProj<P, A>>,
}

/// Number of edges above which a face is not imported automatically.
pub const AUTO_IMPORT_MAX_EDGES: usize = 80;

/// Names of the boundary edges to import for a new sketch on `face`: all of
/// them in order, capped at `max_edges`.
pub fn face_edges_to_external<P, A>(face: &FaceProj<P, A>, max_edges: usize) -> (names: Vec<String>)
    ensures
        names@.len() == if face.edges@.len() < max_edges { face.edges@.len() } else { max_edges as nat },
        forall|i: int| 0 <= i < names@.len() ==> (#[trigger] names@[i])@ == face.edges@[i].name@,
{
    let mut out: Vec<String> = Vec::new();
    let mut i: usize = 0;
    while i < face.edges.len() && i < max_edges
        invariant
            i <= face.edges@.len(),
            i <= max_edges,
            out@.len() == i,
            forall|k: int| 0 <= k < i ==> (#[trigger] out@[k])@ == face.edges@[k].name@,
        decreases face.edges@.len() - i,
    {
        out.push(face.edges[i].name.clone());
        i = i + 1;
    }
    out
}

/// Automatic import is offered for faces with at most 80 edges.
pub fn should_auto_import<P, A>(face: &FaceProj<P, A>) -> (b: bool)
    ensures
        b == (face.edges@.len() <= 80),
{
    face.edges.len() <= AUTO_IMPORT_MAX_EDGES
}

} // verus!
