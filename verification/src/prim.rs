//! Primitive meshes: quads appended one face at a time, and the six-face box
//! that the viewer and the reference kernel tessellate.

use vstd::prelude::*;

use crate::mesh::{face_at_index, triangle_face, indices_in_bounds, ranges_in_bounds, FaceRange, MeshBuffer};

verus! {

/// The six indices of a quad whose first vertex is `base`: two triangles
/// `(0, 1, 2)` and `(0, 2, 3)`.
pub open spec fn quad_indices(base: int) -> Seq<u32> {
    seq![base as u32, (base + 1) as u32, (base + 2) as u32, base as u32, (base + 2) as u32, (base + 3) as u32]
}

/// Index-buffer entry `k` of the six-quad box: quad `k / 6`, whose first
/// vertex is `4 * (k / 6)`.
pub open spec fn box_index(k: int) -> u32 {
    quad_indices(4 * (k / 6))[k % 6]
}

impl<V: Copy> MeshBuffer<V> {
    /// Appends one quad face: its four corners (all with `normal`), the six
    /// indices of its two triangles, and a face range numbered after the
    /// ranges already present.
    pub fn push_face(&mut self, normal: V, corners: [V; 4])
        requires
            (old(self).positions@.len() as u32) + 3 <= u32::MAX,
        ensures
            final(self).positions@ == old(self).positions@ + corners@,
            final(self).normals@ == old(self).normals@ + seq![normal, normal, normal, normal],
            final(self).indices@ == old(self).indices@ + quad_indices(
                (old(self).positions@.len() as u32) as int,
            ),
            final(self).faces@ == old(self).faces@.push(
                (FaceRange {
                    face_id: old(self).faces@.len() as u32,
                    index_start: old(self).indices@.len() as u32,
                    index_count: 6,
                }),
            ),
    {
        let base = #[verifier::truncate] (self.positions.len() as u32);
        let mut k: usize = 0;
        while k < 4
            invariant
                k <= 4,
                self.positions@ == old(self).positions@ + corners@.take(k as int),
                self.normals@ == old(self).normals@ + Seq::new(k as nat, |i: int| normal),
                self.indices@ == old(self).indices@,
                self.faces@ == old(self).faces@,
            decreases 4 - k,
        {
            self.positions.push(corners[k]);
            self.normals.push(normal);
            k = k + 1;
            assert(self.positions@ =~= old(self).positions@ + corners@.take(k as int));
            assert(self.normals@ =~= old(self).normals@ + Seq::new(k as nat, |i: int| normal));
        }
        assert(corners@.take(4) =~= corners@);
        assert(Seq::new(4, |i: int| normal) =~= seq![normal, normal, normal, normal]);
        let start = #[verifier::truncate] (self.indices.len() as u32);
        self.indices.push(base);
        self.indices.push(base + 1);
        self.indices.push(base + 2);
        self.indices.push(base);
        self.indices.push(base + 2);
        self.indices.push(base + 3);
        assert(self.indices@ =~= old(self).indices@ + quad_indices(base as int));
        let face_id = #[verifier::truncate] (self.faces.len() as u32);
        self.faces.push(FaceRange { face_id, index_start: start, index_count: 6 });
    }
}

/// The box made of six quad faces, each given as its normal and its four
/// corners in winding order. Face `i` gets id `i` and index range
/// `6 * i .. 6 * i + 6`; the corners of face `i` are vertices `4 * i .. 4 * i + 4`.
pub fn cube_from_faces<V: Copy>(faces: [(V, [V; 4]); 6]) -> (mesh: MeshBuffer<V>)
    ensures
        mesh.positions@.len() == 24,
        mesh.normals@.len() == 24,
        mesh.indices@.len() == 36,
        mesh.faces@.len() == 6,
        forall|i: int, c: int|
            0 <= i < 6 && 0 <= c < 4 ==> mesh.positions@[4 * i + c] == faces@[i].1@[c]
                && mesh.normals@[4 * i + c] == faces@[i].0,
        forall|k: int| 0 <= k < 36 ==> #[trigger] mesh.indices@[k] == box_index(k),
        forall|i: int|
            0 <= i < 6 ==> mesh.faces@[i] == (FaceRange {
                face_id: i as u32,
                index_start: (6 * i) as u32,
                index_count: 6,
            }),
        mesh.validation() == Ok::<(), crate::mesh::MeshError>(()),
        mesh.indices@.len() / 3 == 12,
        forall|t: int| 0 <= t < 12 ==> #[trigger] triangle_face(mesh.faces@, t) == Some((t / 2) as u32),
{
    let mut mesh = MeshBuffer {
        positions: Vec::new(),
        normals: Vec::new(),
        indices: Vec::new(),
        faces: Vec::new(),
    };
    let mut f: usize = 0;
    while f < 6
        invariant
            f <= 6,
            mesh.positions@.len() == 4 * f,
            mesh.normals@.len() == 4 * f,
            mesh.indices@.len() == 6 * f,
            mesh.faces@.len() == f,
            forall|i: int, c: int|
                0 <= i < f && 0 <= c < 4 ==> mesh.positions@[4 * i + c] == faces@[i].1@[c]
                    && mesh.normals@[4 * i + c] == faces@[i].0,
            forall|k: int| 0 <= k < 6 * f ==> #[trigger] mesh.indices@[k] == box_index(k),
            forall|i: int|
                0 <= i < f ==> mesh.faces@[i] == (FaceRange {
                    face_id: i as u32,
                    index_start: (6 * i) as u32,
                    index_count: 6,
                }),
        decreases 6 - f,
    {
        let ghost prev = mesh;
        let (normal, corners) = faces[f];
        mesh.push_face(normal, corners);
        assert forall|k: int| 0 <= k < 6 * (f + 1) implies #[trigger] mesh.indices@[k] == box_index(k) by {
            if k < 6 * f {
                assert(mesh.indices@[k] == prev.indices@[k]);
            } else {
                assert(mesh.indices@[k] == quad_indices(4 * f)[k - 6 * f]);
            }
        }
        f = f + 1;
    }
    proof {
        assert forall|k: int| 0 <= k < mesh.indices@.len() implies mesh.indices@[k] < 24 by {
            assert(mesh.indices@[k] == box_index(k));
        }
        assert(indices_in_bounds(mesh.indices@, mesh.positions@.len()));
        assert(ranges_in_bounds(mesh.faces@, mesh.indices@.len()));
        assert forall|t: int| 0 <= t < 12 implies #[trigger] triangle_face(mesh.faces@, t) == Some(
            (t / 2) as u32,
        ) by {
            lemma_face_at_index_of_boxes(mesh.faces@, 3 * t, 0);
        }
    }
    mesh
}

/// In a list of consecutive six-index ranges numbered from `first`, index
/// `k` is covered by range `k / 6`.
proof fn lemma_face_at_index_of_boxes(faces: Seq<FaceRange>, k: int, first: int)
    requires
        0 <= first <= 6,
        faces.len() == 6 - first,
        forall|i: int|
            0 <= i < faces.len() ==> faces[i] == (FaceRange {
                face_id: (i + first) as u32,
                index_start: (6 * (i + first)) as u32,
                index_count: 6,
            }),
        6 * first <= k < 36,
    ensures
        face_at_index(faces, k) == Some((k / 6) as u32),
    decreases faces.len(),
{
    if k >= 6 * first + 6 {
        lemma_face_at_index_of_boxes(faces.drop_first(), k, first + 1);
    }
}

} // verus!
