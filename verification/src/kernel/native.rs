//! The plain records a native (OCCT) backend hands across its C++ bridge, and
//! the conversions that turn them into the library's types: face ranges,
//! topology counts, flat coordinate buffers and error messages.

use vstd::prelude::*;

use crate::kernel::error::{KernelError, KernelErrorKind};
use crate::kernel::ShapeStats;
use crate::mesh::{mesh_validation, FaceRange, MeshBuffer, MeshError};

verus! {

#[derive(Debug, Clone, Copy, Default, PartialEq, Eq, Structural)]
pub struct ShapeStatsOut {
    pub vertices: u64,
    pub edges: u64,
    pub faces: u64,
    pub solids: u64,
}

#[derive(Debug, Clone, Copy, Default, PartialEq, Eq, Structural)]
pub struct FaceRangeOut {
    pub face_id: u32,
    pub index_start: u32,
    pub index_count: u32,
}

/// The library face range with the fields of a bridge face range.
pub open spec fn converted_range(f: FaceRangeOut) -> FaceRange {
    FaceRange { face_id: f.face_id, index_start: f.index_start, index_count: f.index_count }
}

/// Field-for-field conversion of bridge face ranges.
pub fn convert_face_ranges(faces: &[FaceRangeOut]) -> (r: Vec<FaceRange>)
    ensures
        r@.len() == faces@.len(),
        forall|i: int|
            0 <= i < faces@.len() ==> #[trigger] r@[i] == (FaceRange {
                face_id: faces@[i].face_id,
                index_start: faces@[i].index_start,
                index_count: faces@[i].index_count,
            }),
{
    let mut out: Vec<FaceRange> = Vec::with_capacity(faces.len());
    let mut i: usize = 0;
    while i < faces.len()
        invariant
            i <= faces@.len(),
            out@.len() == i,
            forall|k: int|
                0 <= k < i ==> #[trigger] out@[k] == (FaceRange {
                    face_id: faces@[k].face_id,
                    index_start: faces@[k].index_start,
                    index_count: faces@[k].index_count,
                }),
        decreases faces@.len() - i,
    {
        let f = faces[i];
        out.push(FaceRange { face_id: f.face_id, index_start: f.index_start, index_count: f.index_count });
        i = i + 1;
    }
    out
}

/// Field-for-field conversion of bridge topology counts.
pub fn convert_stats(out: ShapeStatsOut) -> (s: ShapeStats)
    ensures
        s == (ShapeStats { vertices: out.vertices, edges: out.edges, faces: out.faces, solids: out.solids }),
{
    ShapeStats { vertices: out.vertices, edges: out.edges, faces: out.faces, solids: out.solids }
}

/// The geometry error for a failed bridge call: the backend's own message
/// when it left one, `fallback` otherwise.
pub fn bridge_error(message: String, fallback: &str) -> (e: KernelError)
    ensures
        e.kind == KernelErrorKind::Geometry,
        message@.len() == 0 ==> e.message@ == fallback@,
        message@.len() != 0 ==> e.message@ == message@,
{
    if message.as_str().is_empty() {
        KernelError::geometry(fallback)
    } else {
        KernelError { kind: KernelErrorKind::Geometry, message }
    }
}

/// Groups a flat coordinate buffer into consecutive triples; a trailing
/// incomplete triple is dropped.
pub fn triples<V: Copy>(flat: &Vec<V>) -> (r: Vec<[V; 3]>)
    ensures
        r@.len() == flat@.len() / 3,
        forall|i: int|
            0 <= i < r@.len() ==> (#[trigger] r@[i])@ == seq![flat@[3 * i], flat@[3 * i + 1], flat@[3 * i + 2]],
{
    let n = flat.len() / 3;
    let mut out: Vec<[V; 3]> = Vec::with_capacity(n);
    let mut i: usize = 0;
    while i < n
        invariant
            n == flat@.len() / 3,
            flat@.len() <= usize::MAX,
            i <= n,
            out@.len() == i,
            forall|k: int|
                0 <= k < i ==> (#[trigger] out@[k])@ == seq![flat@[3 * k], flat@[3 * k + 1], flat@[3 * k + 2]],
        decreases n - i,
    {
        let t = [flat[3 * i], flat[3 * i + 1], flat[3 * i + 2]];
        assert(t@ =~= seq![flat@[3 * i], flat@[3 * i + 1], flat@[3 * i + 2]]);
        out.push(t);
        i = i + 1;
    }
    out
}

/// Assembles the mesh a backend tessellated into flat buffers and checks it:
/// a structurally inconsistent mesh is an invalid-input error carrying the
/// mesh error's description.
pub fn mesh_from_buffers<V: Copy>(
    positions: &Vec<V>,
    normals: &Vec<V>,
    indices: Vec<u32>,
    faces: &[FaceRangeOut],
) -> (r: Result<MeshBuffer<[V; 3]>, KernelError>)
    ensures
        match mesh_validation(
            positions@.len() / 3,
            normals@.len() / 3,
            indices@,
            faces@.map_values(|f: FaceRangeOut| converted_range(f)),
        ) {
            Ok(()) => r matches Ok(mesh) && {
                &&& mesh.positions@.len() == positions@.len() / 3
                &&& mesh.normals@.len() == normals@.len() / 3
                &&& (forall|i: int| 0 <= i < mesh.positions@.len() ==> (#[trigger] mesh.positions@[i])@
                    == seq![positions@[3 * i], positions@[3 * i + 1], positions@[3 * i + 2]])
                &&& (forall|i: int| 0 <= i < mesh.normals@.len() ==> (#[trigger] mesh.normals@[i])@
                    == seq![normals@[3 * i], normals@[3 * i + 1], normals@[3 * i + 2]])
                &&& mesh.indices@ == indices@
                &&& mesh.faces@ == faces@.map_values(|f: FaceRangeOut| converted_range(f))
            },
            Err(err) => r matches Err(e) && e.kind == KernelErrorKind::InvalidInput && e.message@
                == err.message(),
        },
{
    let mesh = MeshBuffer {
        positions: triples(positions),
        normals: triples(normals),
        indices,
        faces: convert_face_ranges(faces),
    };
    assert(mesh.faces@ =~= faces@.map_values(|f: FaceRangeOut| converted_range(f)));
    match mesh.validate() {
        Ok(()) => Ok(mesh),
        Err(e) => {
            let text = e.to_string();
            Err(KernelError::invalid_input(text.as_str()))
        },
    }
}

} // verus!
