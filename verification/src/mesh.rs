//! Indexed triangle meshes split into face ranges.
//!
//! Vertex positions and normals are carried as opaque values of type `V`
//! (three floats in practice): the structural rules checked here only read
//! the index buffer, the buffer lengths and the face ranges.

use vstd::prelude::*;

verus! {

#[derive(Debug, Clone, Copy, PartialEq, Eq, Structural)]
pub enum MeshError {
    IndexCountNotMultipleOfThree,
    IndexOutOfBounds,
    NormalVertexCountMismatch,
    FaceRangeOutOfBounds,
    Empty,
}

impl MeshError {
    /// Human-readable description of the error.
    pub fn to_string(&self) -> (s: String)
        ensures
            s@ == self.message(),
    {
        let msg = match self {
            MeshError::IndexCountNotMultipleOfThree => "index count is not a multiple of 3",
            MeshError::IndexOutOfBounds => "index refers to a vertex outside the position buffer",
            MeshError::NormalVertexCountMismatch => "normal count differs from vertex count",
            MeshError::FaceRangeOutOfBounds => "face range extends past the index buffer",
            MeshError::Empty => "mesh has no triangles",
        };
        msg.to_owned()
    }

    pub open spec fn message(&self) -> Seq<char> {
        match self {
            MeshError::IndexCountNotMultipleOfThree => "index count is not a multiple of 3"@,
            MeshError::IndexOutOfBounds => "index refers to a vertex outside the position buffer"@,
            MeshError::NormalVertexCountMismatch => "normal count differs from vertex count"@,
            MeshError::FaceRangeOutOfBounds => "face range extends past the index buffer"@,
            MeshError::Empty => "mesh has no triangles"@,
        }
    }
}

/// The run of the index buffer that belongs to one B-rep face.
#[derive(Debug, Clone, Copy, PartialEq, Eq, Default, Structural)]
pub struct FaceRange {
    pub face_id: u32,
    pub index_start: u32,
    pub index_count: u32,
}

impl FaceRange {
    pub fn triangle_count(&self) -> (n: u32)
        ensures
            n == self.index_count / 3,
    {
        self.index_count / 3
    }

    /// One past the last index of the range, as a mathematical integer.
    pub open spec fn end(self) -> int {
        self.index_start + self.index_count
    }

    /// Whether index-buffer position `index` lies inside the range.
    pub open spec fn covers(self, index: int) -> bool {
        self.index_start <= index < self.end()
    }
}

/// The face id of the first range that covers index-buffer position `index`.
pub open spec fn face_at_index(faces: Seq<FaceRange>, index: int) -> Option<u32>
    decreases faces.len(),
{
    if faces.len() == 0 {
        None
    } else if faces[0].covers(index) {
        Some(faces[0].face_id)
    } else {
        face_at_index(faces.drop_first(), index)
    }
}

/// The face id of the range holding triangle `triangle` (its first index).
pub open spec fn triangle_face(faces: Seq<FaceRange>, triangle: int) -> Option<u32> {
    face_at_index(faces, 3 * triangle)
}

/// The first range (from position `from` on) that covers `index`.
pub open spec fn first_covering(faces: Seq<FaceRange>, index: int, from: int) -> Option<u32>
    decreases faces.len() - from,
{
    if from < 0 || from >= faces.len() {
        None
    } else if faces[from].covers(index) {
        Some(faces[from].face_id)
    } else {
        first_covering(faces, index, from + 1)
    }
}

proof fn lemma_first_covering_shift(faces: Seq<FaceRange>, index: int, from: int)
    requires
        0 <= from <= faces.len(),
    ensures
        first_covering(faces, index, from) == face_at_index(faces.subrange(from, faces.len() as int), index),
    decreases faces.len() - from,
{
    let rest = faces.subrange(from, faces.len() as int);
    if from < faces.len() {
        lemma_first_covering_shift(faces, index, from + 1);
        assert(rest.drop_first() =~= faces.subrange(from + 1, faces.len() as int));
    }
}

/// An indexed triangle mesh. Each face range names a run of `indices`.
#[derive(Debug, Clone, Default, PartialEq)]
pub struct MeshBuffer<V> {
    pub positions: Vec<V>,
    pub normals: Vec<V>,
    pub indices: Vec<u32>,
    pub faces: Vec<FaceRange>,
}

/// Every index refers to an existing position.
pub open spec fn indices_in_bounds(indices: Seq<u32>, vertex_count: nat) -> bool {
    forall|i: int| 0 <= i < indices.len() ==> indices[i] < vertex_count
}

/// Every face range ends inside the index buffer, whose length the check
/// reads as a `u32`; the end of a range must itself fit in a `u32`.
pub open spec fn ranges_in_bounds(faces: Seq<FaceRange>, index_count: nat) -> bool {
    forall|j: int|
        0 <= j < faces.len() ==> #[trigger] faces[j].end() <= u32::MAX && faces[j].end() <= (
        index_count as u32)
}

/// What `validate` reports for a mesh with these buffer lengths, indices and
/// face ranges; the checks run in this order.
pub open spec fn mesh_validation(
    position_count: nat,
    normal_count: nat,
    indices: Seq<u32>,
    faces: Seq<FaceRange>,
) -> Result<(), MeshError> {
    if indices.len() % 3 != 0 {
        Err(MeshError::IndexCountNotMultipleOfThree)
    } else if normal_count != position_count {
        Err(MeshError::NormalVertexCountMismatch)
    } else if !indices_in_bounds(indices, position_count) {
        Err(MeshError::IndexOutOfBounds)
    } else if !ranges_in_bounds(faces, indices.len()) {
        Err(MeshError::FaceRangeOutOfBounds)
    } else if indices.len() / 3 == 0 {
        Err(MeshError::Empty)
    } else {
        Ok(())
    }
}

/// A mesh passes validation exactly when its index count is a multiple of
/// three, it has one normal per position, every index names a position,
/// every face range ends inside the index buffer, and it holds at least one
/// triangle (three indices); however many face ranges it has. The `Empty`
/// error comes exactly for an otherwise consistent mesh without indices.
pub proof fn lemma_validation_accepts_consistent_meshes_with_a_triangle(
    position_count: nat,
    normal_count: nat,
    indices: Seq<u32>,
    faces: Seq<FaceRange>,
)
    ensures
        (mesh_validation(position_count, normal_count, indices, faces) == Ok::<(), MeshError>(())) <==> (
        indices.len() % 3 == 0 && normal_count == position_count && indices_in_bounds(indices, position_count)
            && ranges_in_bounds(faces, indices.len()) && indices.len() >= 3),
        (mesh_validation(position_count, normal_count, indices, faces) == Err::<(), MeshError>(MeshError::Empty))
            <==> (normal_count == position_count && indices_in_bounds(indices, position_count) && ranges_in_bounds(
            faces,
            indices.len(),
        ) && indices.len() == 0),
{
}

impl<V> MeshBuffer<V> {
    /// What `validate` reports for this mesh.
    pub open spec fn validation(&self) -> Result<(), MeshError> {
        mesh_validation(self.positions@.len(), self.normals@.len(), self.indices@, self.faces@)
    }

    /// The three corners of `triangle`, when its indices and positions exist.
    pub open spec fn triangle_spec(&self, triangle: int) -> Option<Seq<V>> {
        let b = 3 * triangle;
        if 0 <= b && b + 2 < self.indices@.len() && self.indices@[b] < self.positions@.len()
            && self.indices@[b + 1] < self.positions@.len() && self.indices@[b + 2]
            < self.positions@.len() {
            Some(
                seq![
                    self.positions@[self.indices@[b] as int],
                    self.positions@[self.indices@[b + 1] as int],
                    self.positions@[self.indices@[b + 2] as int],
                ],
            )
        } else {
            None
        }
    }

    pub fn is_empty(&self) -> (b: bool)
        ensures
            b == (self.indices@.len() == 0),
    {
        self.indices.len() == 0
    }

    pub fn face_ranges(&self) -> (r: &[FaceRange])
        ensures
            r@ == self.faces@,
    {
        self.faces.as_slice()
    }

    pub fn triangle_count(&self) -> (n: usize)
        ensures
            n == self.indices@.len() / 3,
    {
        self.indices.len() / 3
    }

    /// Checks the structural consistency of the mesh.
    pub fn validate(&self) -> (r: Result<(), MeshError>)
        ensures
            r == self.validation(),
    {
        if self.indices.len() % 3 != 0 {
            return Err(MeshError::IndexCountNotMultipleOfThree);
        }
        if self.normals.len() != self.positions.len() {
            return Err(MeshError::NormalVertexCountMismatch);
        }
        let mut i: usize = 0;
        while i < self.indices.len()
            invariant
                i <= self.indices@.len(),
                self.indices@.len() % 3 == 0,
                self.normals@.len() == self.positions@.len(),
                forall|k: int| 0 <= k < i ==> self.indices@[k] < self.positions@.len(),
            decreases self.indices@.len() - i,
        {
            if self.indices[i] as usize >= self.positions.len() {
                assert(!indices_in_bounds(self.indices@, self.positions@.len()));
                return Err(MeshError::IndexOutOfBounds);
            }
            i = i + 1;
        }
        let total = #[verifier::truncate] (self.indices.len() as u32);
        let mut j: usize = 0;
        while j < self.faces.len()
            invariant
                j <= self.faces@.len(),
                total == self.indices@.len() as u32,
                self.indices@.len() % 3 == 0,
                self.normals@.len() == self.positions@.len(),
                indices_in_bounds(self.indices@, self.positions@.len()),
                forall|k: int|
                    0 <= k < j ==> #[trigger] self.faces@[k].end() <= u32::MAX && self.faces@[k].end()
                        <= total,
            decreases self.faces@.len() - j,
        {
            let range = self.faces[j];
            let end = match range.index_start.checked_add(range.index_count) {
                Some(e) => e,
                None => {
                    assert(!(self.faces@[j as int].end() <= u32::MAX));
                    return Err(MeshError::FaceRangeOutOfBounds);
                },
            };
            if end > total {
                assert(!(self.faces@[j as int].end() <= total));
                return Err(MeshError::FaceRangeOutOfBounds);
            }
            j = j + 1;
        }
        if self.triangle_count() == 0 {
            return Err(MeshError::Empty);
        }
        Ok(())
    }

    /// The face id of the range that holds `triangle`, searching the ranges in
    /// order.
    pub fn face_id_for_triangle(&self, triangle: usize) -> (r: Option<u32>)
        requires
            3 * triangle <= usize::MAX,
            forall|j: int|
                0 <= j < self.faces@.len() && ((3 * triangle) as u32) >= self.faces@[j].index_start
                    && (forall|k: int| 0 <= k < j ==> !self.faces@[k].covers(((3 * triangle) as u32) as int))
                    ==> #[trigger] self.faces@[j].end() <= u32::MAX,
        ensures
            r == face_at_index(self.faces@, ((3 * triangle) as u32) as int),
    {
        let index = #[verifier::truncate] ((triangle * 3) as u32);
        let ghost idx = index as int;
        proof {
            lemma_first_covering_shift(self.faces@, idx, 0);
            assert(self.faces@.subrange(0, self.faces@.len() as int) =~= self.faces@);
            assert(face_at_index(self.faces@, idx) == first_covering(self.faces@, idx, 0));
        }
        let mut j: usize = 0;
        while j < self.faces.len()
            invariant
                j <= self.faces@.len(),
                index == ((3 * triangle) as u32),
                idx == index as int,
                face_at_index(self.faces@, idx) == first_covering(self.faces@, idx, 0),
                forall|k: int| 0 <= k < j ==> !self.faces@[k].covers(idx),
                first_covering(self.faces@, idx, 0) == first_covering(self.faces@, idx, j as int),
                forall|j: int|
                    0 <= j < self.faces@.len() && index >= self.faces@[j].index_start && (forall|k: int|
                        0 <= k < j ==> !self.faces@[k].covers(idx)) ==> #[trigger] self.faces@[j].end()
                        <= u32::MAX,
            decreases self.faces@.len() - j,
        {
            let r = self.faces[j];
            if index >= r.index_start && index < r.index_start + r.index_count {
                assert(first_covering(self.faces@, idx, j as int) == Some(r.face_id));
                return Some(r.face_id);
            }
            j = j + 1;
        }
        None
    }
}

impl<V: Copy> MeshBuffer<V> {
    /// The corner positions of `triangle`, or `None` when an index or a
    /// position is missing.
    pub fn triangle_at(&self, triangle: usize) -> (r: Option<[V; 3]>)
        ensures
            match self.triangle_spec(triangle as int) {
                Some(t) => r matches Some(c) && c@ == t,
                None => r is None,
            },
    {
        let n = self.indices.len();
        let base = match triangle.checked_mul(3) {
            Some(b) => b,
            None => return None,
        };
        if base >= self.indices.len() || self.indices.len() - base < 3 {
            return None;
        }
        let ia = self.indices[base] as usize;
        let ib = self.indices[base + 1] as usize;
        let ic = self.indices[base + 2] as usize;
        if ia >= self.positions.len() || ib >= self.positions.len() || ic >= self.positions.len() {
            return None;
        }
        let corners = [self.positions[ia], self.positions[ib], self.positions[ic]];
        assert(corners@ =~= self.triangle_spec(triangle as int).unwrap());
        Some(corners)
    }
}

/// A copy of `v`, element by element.
pub fn copy_vec<V: Copy>(v: &Vec<V>) -> (r: Vec<V>)
    ensures
        r@ == v@,
{
    let mut out: Vec<V> = Vec::with_capacity(v.len());
    let mut i: usize = 0;
    while i < v.len()
        invariant
            i <= v@.len(),
            out@ == v@.take(i as int),
        decreases v@.len() - i,
    {
        out.push(v[i]);
        i = i + 1;
        assert(out@ =~= v@.take(i as int));
    }
    assert(v@.take(v@.len() as int) =~= v@);
    out
}

} // verus!
