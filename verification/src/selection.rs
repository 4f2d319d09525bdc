//! Face extraction for selection highlighting, and the 24-bit pick encoding
//! that carries (mesh index, face id) through a colour target.

use vstd::prelude::*;

use crate::io::{be_bytes, le_bytes, u32_ne_bytes};
use crate::mesh::{copy_vec, FaceRange, MeshBuffer};

verus! {

/// The first range carrying `face_id`.
pub open spec fn range_of_face(faces: Seq<FaceRange>, face_id: u32) -> Option<FaceRange>
    decreases faces.len(),
{
    if faces.len() == 0 {
        None
    } else if faces[0].face_id == face_id {
        Some(faces[0])
    } else {
        range_of_face(faces.drop_first(), face_id)
    }
}

proof fn lemma_range_of_face(faces: Seq<FaceRange>, face_id: u32, from: int)
    requires
        0 <= from <= faces.len(),
        forall|k: int| 0 <= k < from ==> faces[k].face_id != face_id,
    ensures
        range_of_face(faces, face_id) == range_of_face(faces.subrange(from, faces.len() as int), face_id),
    decreases from,
{
    if from > 0 {
        lemma_range_of_face(faces, face_id, from - 1);
        let s = faces.subrange(from - 1, faces.len() as int);
        assert(s.len() > 0);
        assert(s[0] == faces[from - 1]);
        assert(s[0].face_id != face_id);
        assert(s.drop_first() =~= faces.subrange(from, faces.len() as int));
        assert(range_of_face(s, face_id) == range_of_face(s.drop_first(), face_id));
    } else {
        assert(faces.subrange(0, faces.len() as int) =~= faces);
    }
}

/// The first range carrying `face_id`, searching in order.
fn first_range_of_face(faces: &Vec<FaceRange>, face_id: u32) -> (r: Option<FaceRange>)
    ensures
        r == range_of_face(faces@, face_id),
{
    let mut j: usize = 0;
    while j < faces.len()
        invariant
            j <= faces@.len(),
            forall|k: int| 0 <= k < j ==> faces@[k].face_id != face_id,
        decreases faces@.len() - j,
    {
        if faces[j].face_id == face_id {
            proof {
                lemma_range_of_face(faces@, face_id, j as int);
                let s = faces@.subrange(j as int, faces@.len() as int);
                assert(s[0] == faces@[j as int]);
            }
            return Some(faces[j]);
        }
        j = j + 1;
    }
    proof {
        lemma_range_of_face(faces@, face_id, j as int);
    }
    None
}

/// The index run of `range` inside `indices`, when it lies inside.
pub open spec fn range_slice(indices: Seq<u32>, range: FaceRange) -> Option<Seq<u32>> {
    if range.end() <= indices.len() {
        Some(indices.subrange(range.index_start as int, range.end()))
    } else {
        None
    }
}

/// The single-face mesh that `extract_face` builds from the index run `run`:
/// one vertex per index (position and normal copied verbatim), the identity
/// index buffer, and one face range keeping `face_id`.
pub open spec fn extracted<V>(mesh: MeshBuffer<V>, run: Seq<u32>, face_id: u32) -> (Seq<V>, Seq<V>, Seq<u32>, Seq<FaceRange>) {
    (
        run.map_values(|i: u32| mesh.positions@[i as int]),
        run.map_values(|i: u32| mesh.normals@[i as int]),
        Seq::new(run.len(), |k: int| k as u32),
        seq![FaceRange { face_id, index_start: 0, index_count: run.len() as u32 }],
    )
}

/// Returns a new mesh containing only the triangles of `face_id`.
///
/// The result keeps the original `face_id` in its single face range, so
/// highlight rendering and picking stay consistent. Vertex order and normals
/// are preserved verbatim. `None` when no range carries `face_id`, when its
/// range leaves the index buffer, or when one of its indices has no position
/// or no normal.
pub fn extract_face<V: Copy>(mesh: &MeshBuffer<V>, face_id: u32) -> (r: Option<MeshBuffer<V>>)
    requires
        range_of_face(mesh.faces@, face_id) matches Some(range) ==> range.end() <= usize::MAX,
    ensures
        match range_of_face(mesh.faces@, face_id) {
            None => r is None,
            Some(range) => match range_slice(mesh.indices@, range) {
                None => r is None,
                Some(run) => if (forall|k: int|
                    0 <= k < run.len() ==> run[k] < mesh.positions@.len() && run[k]
                        < mesh.normals@.len()) {
                    r matches Some(out) && (out.positions@, out.normals@, out.indices@, out.faces@)
                        == extracted(*mesh, run, face_id)
                } else {
                    r is None
                },
            },
        },
{
    let range = match first_range_of_face(&mesh.faces, face_id) {
        Some(r) => r,
        None => return None,
    };
    assert(range_of_face(mesh.faces@, face_id) == Some(range));
    let start = range.index_start as usize;
    let end = start + range.index_count as usize;
    if end > mesh.indices.len() {
        return None;
    }
    let ghost run = mesh.indices@.subrange(start as int, end as int);
    assert(range_slice(mesh.indices@, range) == Some(run));
    let n = range.index_count as usize;
    let mut positions: Vec<V> = Vec::with_capacity(n);
    let mut normals: Vec<V> = Vec::with_capacity(n);
    let mut k: usize = 0;
    while k < n
        invariant
            range_of_face(mesh.faces@, face_id) == Some(range),
            start == range.index_start,
            end == range.end(),
            n == range.index_count,
            range_slice(mesh.indices@, range) == Some(run),
            n == run.len(),
            start + n == end,
            end <= mesh.indices@.len(),
            run == mesh.indices@.subrange(start as int, end as int),
            k <= n,
            positions@.len() == k,
            normals@.len() == k,
            forall|m: int|
                #![trigger run[m]]
                0 <= m < k ==> run[m] < mesh.positions@.len() && run[m] < mesh.normals@.len()
                    && positions@[m] == mesh.positions@[run[m] as int] && normals@[m]
                    == mesh.normals@[run[m] as int],
        decreases n - k,
    {
        let idx = mesh.indices[start + k] as usize;
        assert(run[k as int] == mesh.indices@[start + k]);
        if idx >= mesh.positions.len() {
            assert(!(run[k as int] < mesh.positions@.len()));
            return None;
        }
        positions.push(mesh.positions[idx]);
        if idx >= mesh.normals.len() {
            assert(!(run[k as int] < mesh.normals@.len()));
            return None;
        }
        normals.push(mesh.normals[idx]);
        assert(positions@[k as int] == mesh.positions@[run[k as int] as int]);
        assert(normals@[k as int] == mesh.normals@[run[k as int] as int]);
        k = k + 1;
    }
    let mut indices: Vec<u32> = Vec::with_capacity(n);
    let mut m: u32 = 0;
    while m < range.index_count
        invariant
            m <= range.index_count,
            indices@ == Seq::new(m as nat, |q: int| q as u32),
        decreases range.index_count - m,
    {
        indices.push(m);
        m = m + 1;
        assert(indices@ =~= Seq::new(m as nat, |q: int| q as u32));
    }
    let mut faces: Vec<FaceRange> = Vec::new();
    faces.push(FaceRange { face_id, index_start: 0, index_count: range.index_count });
    let out = MeshBuffer { positions, normals, indices, faces };
    proof {
        let e = extracted(*mesh, run, face_id);
        assert(out.positions@ =~= e.0);
        assert(out.normals@ =~= e.1);
        assert(out.indices@ =~= e.2);
        assert(out.faces@ =~= e.3);
    }
    Some(out)
}

/// Largest mesh index that fits the 12 bits reserved for it.
pub const PICK_MAX_MESH: u32 = 0xFFF;

/// Largest face id that fits the 12 bits reserved for it.
pub const PICK_MAX_FACE: u32 = 0xFFF;

#[derive(Debug, Clone, Copy, PartialEq, Eq, Structural)]
pub enum PickEncodeError {
    TooLarge,
}

/// The 24-bit pick value of (mesh index, face id): mesh index in the upper 12
/// bits, face id in the lower 12.
pub open spec fn packed(mesh_index: u32, face_id: u32) -> u32 {
    (mesh_index * 4096 + face_id) as u32
}

/// Whether both parts fit their 12 bits.
pub open spec fn packable(mesh_index: u32, face_id: u32) -> bool {
    mesh_index <= 4095 && face_id <= 4095
}

/// Packs (mesh index, face id) into 24 bits, or reports `TooLarge` when a part
/// exceeds 12 bits.
pub fn pack24(mesh_index: u32, face_id: u32) -> (r: Result<u32, PickEncodeError>)
    ensures
        packable(mesh_index, face_id) ==> r == Ok::<u32, PickEncodeError>(packed(mesh_index, face_id)),
        !packable(mesh_index, face_id) ==> r == Err::<u32, PickEncodeError>(PickEncodeError::TooLarge),
{
    if mesh_index > PICK_MAX_MESH || face_id > PICK_MAX_FACE {
        return Err(PickEncodeError::TooLarge);
    }
    let v = (mesh_index << 12) | face_id;
    assert(v == mesh_index * 4096 + face_id) by (bit_vector)
        requires
            mesh_index <= 4095,
            face_id <= 4095,
            v == (mesh_index << 12) | face_id,
    ;
    Ok(v)
}

/// Splits a pick value into (mesh index, face id).
pub fn unpack24(v: u32) -> (r: (u32, u32))
    ensures
        r == (v / 4096, v % 4096),
{
    let hi = v >> 12;
    let lo = v & 0x0FFF;
    assert(hi == v / 4096 && lo == v % 4096) by (bit_vector)
        requires
            hi == v >> 12,
            lo == v & 0x0FFF,
    ;
    (hi, lo)
}

/// The 24-bit value held by the first three bytes of a pixel, least
/// significant byte first.
pub open spec fn pixel_value(b: [u8; 4]) -> u32 {
    (b[0] + 256 * b[1] + 65536 * b[2]) as u32
}

/// Returns `(mesh_index, face_id)` for a hit pixel (alpha distinguishes
/// background: the clear color carries a = 0, geometry writes a = 255).
pub fn decode_pick_bytes(b: [u8; 4]) -> (r: Option<(u32, u32)>)
    ensures
        b[3] == 0 ==> r is None,
        b[3] != 0 ==> r == Some((pixel_value(b) / 4096, pixel_value(b) % 4096)),
{
    if b[3] == 0 {
        return None;
    }
    let b0 = b[0] as u32;
    let b1 = b[1] as u32;
    let b2 = b[2] as u32;
    let v = b0 | (b1 << 8) | (b2 << 16);
    assert(v == b0 + 256 * b1 + 65536 * b2) by (bit_vector)
        requires
            b0 < 256,
            b1 < 256,
            b2 < 256,
            v == b0 | (b1 << 8) | (b2 << 16),
    ;
    Some(unpack24(v))
}

/// A face range makes picking fail when it holds indices and its face id (or
/// the mesh index) does not fit its 12 bits.
pub open spec fn range_fails(range: FaceRange, mesh_index: u32) -> bool {
    range.index_count > 0 && !packable(mesh_index, range.face_id)
}

/// Whether some face range makes picking fail.
pub open spec fn some_range_fails(faces: Seq<FaceRange>, mesh_index: u32) -> bool {
    exists|j: int| 0 <= j < faces.len() && range_fails(#[trigger] faces[j], mesh_index)
}

/// Whether range `j` is reached (no earlier range fails) and can be walked
/// without leaving the index buffer or the normal buffer.
pub open spec fn range_walkable<V>(mesh: MeshBuffer<V>, mesh_index: u32, j: int) -> bool {
    (forall|k: int| 0 <= k < j ==> !range_fails(#[trigger] mesh.faces@[k], mesh_index)) ==> {
        let r = mesh.faces@[j];
        &&& r.end() <= mesh.indices@.len()
        &&& !range_fails(r, mesh_index) ==> forall|k: int|
            r.index_start <= k < r.end() ==> #[trigger] mesh.indices@[k] < mesh.normals@.len()
    }
}

/// Whether index positions `start .. start + len` of `indices` mention vertex `v`.
pub open spec fn run_mentions(indices: Seq<u32>, start: int, len: int, v: int) -> bool {
    exists|k: int| start <= k < start + len && #[trigger] indices[k] == v
}

/// The face id of the last of the first `j` ranges whose run mentions vertex
/// `v`: the pick value that its normal ends up carrying.
pub open spec fn last_writer(faces: Seq<FaceRange>, indices: Seq<u32>, v: int, j: int) -> Option<u32>
    decreases j,
{
    if j <= 0 {
        None
    } else if run_mentions(indices, faces[j - 1].index_start as int, faces[j - 1].index_count as int, v) {
        Some(faces[j - 1].face_id)
    } else {
        last_writer(faces, indices, v, j - 1)
    }
}

/// The pick value a vertex ends up carrying names a face range that uses it:
/// when the first `j` ranges leave vertex `v` the face id `fid`, some range
/// `k` before `j` uses `v` and carries `fid` as its own face id, and no
/// later range before `j` uses `v`; when they leave it nothing, none of them
/// uses it. The id is the range's `face_id` field, whatever its position in
/// the list.
pub proof fn lemma_pick_value_names_the_last_range_using_the_vertex(
    faces: Seq<FaceRange>,
    indices: Seq<u32>,
    v: int,
    j: int,
)
    requires
        0 <= j <= faces.len(),
    ensures
        last_writer(faces, indices, v, j) matches Some(fid) ==> exists|k: int|
            0 <= k < j && #[trigger] faces[k].face_id == fid && run_mentions(
                indices,
                faces[k].index_start as int,
                faces[k].index_count as int,
                v,
            ) && forall|m: int|
                k < m < j ==> !run_mentions(
                    indices,
                    (#[trigger] faces[m]).index_start as int,
                    faces[m].index_count as int,
                    v,
                ),
        last_writer(faces, indices, v, j) is None ==> forall|k: int|
            0 <= k < j ==> !run_mentions(indices, (#[trigger] faces[k]).index_start as int, faces[k].index_count as int, v),
    decreases j,
{
    if j > 0 {
        lemma_pick_value_names_the_last_range_using_the_vertex(faces, indices, v, j - 1);
        if run_mentions(indices, faces[j - 1].index_start as int, faces[j - 1].index_count as int, v) {
            assert(faces[j - 1].face_id == faces[j - 1].face_id);
        } else {
            if last_writer(faces, indices, v, j - 1) is Some {
                let fid = last_writer(faces, indices, v, j - 1)->0;
                let k = choose|k: int|
                    0 <= k < j - 1 && #[trigger] faces[k].face_id == fid && run_mentions(
                        indices,
                        faces[k].index_start as int,
                        faces[k].index_count as int,
                        v,
                    ) && forall|m: int|
                        k < m < j - 1 ==> !run_mentions(
                            indices,
                            (#[trigger] faces[m]).index_start as int,
                            faces[m].index_count as int,
                            v,
                        );
                assert forall|m: int| k < m < j implies !run_mentions(
                    indices,
                    (#[trigger] faces[m]).index_start as int,
                    faces[m].index_count as int,
                    v,
                ) by {}
            }
        }
    }
}

/// Mesh copy whose normals carry pick encoding (positions, indices and face
/// ranges preserved). Every vertex used by a face range gets the normal that
/// `pick_normal` makes of the range's pick value (the last range wins); other
/// vertices keep their normal. `TooLarge` when a non-empty range (or the mesh
/// index) does not fit the pick encoding.
pub fn build_pick_mesh<V: Copy, F: Fn(u32) -> V>(
    mesh: &MeshBuffer<V>,
    mesh_index: u32,
    pick_normal: F,
) -> (r: Result<MeshBuffer<V>, PickEncodeError>)
    requires
        forall|j: int| 0 <= j < mesh.faces@.len() ==> #[trigger] range_walkable(*mesh, mesh_index, j),
        forall|v: u32| pick_normal.requires((v,)),
    ensures
        some_range_fails(mesh.faces@, mesh_index) ==> r == Err::<MeshBuffer<V>, PickEncodeError>(
            PickEncodeError::TooLarge,
        ),
        !some_range_fails(mesh.faces@, mesh_index) ==> (r matches Ok(out) && {
            &&& out.positions@ == mesh.positions@
            &&& out.indices@ == mesh.indices@
            &&& out.faces@ == mesh.faces@
            &&& out.normals@.len() == mesh.normals@.len()
            &&& forall|v: int|
                0 <= v < mesh.normals@.len() ==> match last_writer(
                    mesh.faces@,
                    mesh.indices@,
                    v,
                    mesh.faces@.len() as int,
                ) {
                    None => out.normals@[v] == mesh.normals@[v],
                    Some(fid) => pick_normal.ensures((packed(mesh_index, fid),), #[trigger] out.normals@[v]),
                }
        }),
{
    let mut normals = copy_vec(&mesh.normals);
    let mut j: usize = 0;
    while j < mesh.faces.len()
        invariant
            j <= mesh.faces@.len(),
            forall|j: int| 0 <= j < mesh.faces@.len() ==> #[trigger] range_walkable(*mesh, mesh_index, j),
            forall|v: u32| pick_normal.requires((v,)),
            forall|k: int| 0 <= k < j ==> !range_fails(#[trigger] mesh.faces@[k], mesh_index),
            normals@.len() == mesh.normals@.len(),
            forall|v: int|
                0 <= v < mesh.normals@.len() ==> match last_writer(mesh.faces@, mesh.indices@, v, j as int) {
                    None => normals@[v] == mesh.normals@[v],
                    Some(fid) => pick_normal.ensures((packed(mesh_index, fid),), #[trigger] normals@[v]),
                },
        decreases mesh.faces@.len() - j,
    {
        let range = mesh.faces[j];
        assert(range_walkable(*mesh, mesh_index, j as int));
        let start = range.index_start as usize;
        let count = range.index_count as usize;
        if count > 0 {
            let value = match pack24(mesh_index, range.face_id) {
                Ok(v) => v,
                Err(e) => {
                    assert(range_fails(mesh.faces@[j as int], mesh_index));
                    return Err(e);
                },
            };
            let ghost before = normals@;
            let total = mesh.indices.len();
            let mut k: usize = 0;
            while k < count
                invariant
                    k <= count,
                    start == range.index_start,
                    count == range.index_count,
                    range == mesh.faces@[j as int],
                    j < mesh.faces@.len(),
                    !range_fails(range, mesh_index),
                    value == packed(mesh_index, range.face_id),
                    range.end() <= mesh.indices@.len(),
                    start + count <= total,
                    total == mesh.indices@.len(),
                    forall|q: int|
                        range.index_start <= q < range.end() ==> #[trigger] mesh.indices@[q] < mesh.normals@.len(),
                    forall|v: u32| pick_normal.requires((v,)),
                    normals@.len() == mesh.normals@.len(),
                    before.len() == mesh.normals@.len(),
                    forall|v: int|
                        0 <= v < normals@.len() ==> if run_mentions(mesh.indices@, start as int, k as int, v) {
                            pick_normal.ensures((value,), #[trigger] normals@[v])
                        } else {
                            normals@[v] == before[v]
                        },
                decreases count - k,
            {
                let idx = mesh.indices[start + k] as usize;
                let n = pick_normal(value);
                let ghost prev = normals@;
                normals.set(idx, n);
                assert forall|v: int| 0 <= v < normals@.len() implies if run_mentions(
                    mesh.indices@,
                    start as int,
                    k + 1,
                    v,
                ) {
                    pick_normal.ensures((value,), #[trigger] normals@[v])
                } else {
                    normals@[v] == before[v]
                } by {
                    if v == idx as int {
                        assert(mesh.indices@[start + k] == v);
                    } else {
                        if run_mentions(mesh.indices@, start as int, k + 1, v) {
                            let w = choose|w: int| start <= w < start + k + 1 && #[trigger] mesh.indices@[w] == v;
                            assert(w != start + k);
                            assert(run_mentions(mesh.indices@, start as int, k as int, v));
                        } else {
                            assert(!run_mentions(mesh.indices@, start as int, k as int, v));
                        }
                        assert(normals@[v] == prev[v]);
                    }
                }
                k = k + 1;
            }
        }
        proof {
            assert forall|k: int| 0 <= k < j + 1 implies !range_fails(#[trigger] mesh.faces@[k], mesh_index) by {
                if k == j {
                    assert(!range_fails(range, mesh_index));
                }
            }
        }
        j = j + 1;
    }
    let out = MeshBuffer {
        positions: copy_vec(&mesh.positions),
        normals,
        indices: copy_vec(&mesh.indices),
        faces: copy_vec(&mesh.faces),
    };
    Ok(out)
}

/// Whether corner `k` of the expanded pick vertices sits at byte `28 * k` of
/// `out`: the bytes `vertex_bytes` made of the position and of the normal of
/// vertex `indices[k]`, then the triangle number `k / 3` as a 32-bit integer
/// in the machine's byte order.
pub open spec fn pick_corner_at<V, F: Fn(V) -> [u8; 12]>(
    out: Seq<u8>,
    mesh: MeshBuffer<V>,
    vertex_bytes: F,
    k: int,
) -> bool {
    let v = mesh.indices@[k] as int;
    let tid = (k / 3) as u32;
    exists|pb: [u8; 12], nb: [u8; 12]|
        #[trigger] vertex_bytes.ensures((mesh.positions@[v],), pb) && #[trigger] vertex_bytes.ensures(
            (mesh.normals@[v],),
            nb,
        ) && out.subrange(28 * k, 28 * k + 12) == pb@ && out.subrange(28 * k + 12, 28 * k + 24) == nb@ && (
        out.subrange(28 * k + 24, 28 * k + 28) == le_bytes(tid) || out.subrange(28 * k + 24, 28 * k + 28)
            == be_bytes(tid))
}

fn append_bytes(out: &mut Vec<u8>, bytes: &[u8])
    ensures
        final(out)@ == old(out)@ + bytes@,
{
    let mut i: usize = 0;
    while i < bytes.len()
        invariant
            i <= bytes@.len(),
            out@ == old(out)@ + bytes@.take(i as int),
        decreases bytes@.len() - i,
    {
        out.push(bytes[i]);
        i = i + 1;
        assert(out@ =~= old(out)@ + bytes@.take(i as int));
    }
    assert(bytes@.take(bytes@.len() as int) =~= bytes@);
}

/// Expands an indexed mesh into per-corner pick vertices for the picking
/// pipeline: for every complete triangle `t` and each of its three corners,
/// `[position bytes: 12][normal bytes: 12][t: u32]`, the 12-byte forms made
/// by `vertex_bytes`.
pub fn pick_vertex_data<V: Copy, F: Fn(V) -> [u8; 12]>(mesh: &MeshBuffer<V>, vertex_bytes: F) -> (out: Vec<u8>)
    requires
        forall|k: int|
            0 <= k < 3 * (mesh.indices@.len() / 3) ==> #[trigger] mesh.indices@[k] < mesh.positions@.len()
                && mesh.indices@[k] < mesh.normals@.len(),
        forall|v: V| vertex_bytes.requires((v,)),
    ensures
        out@.len() == 84 * (mesh.indices@.len() / 3),
        forall|k: int|
            0 <= k < 3 * (mesh.indices@.len() / 3) ==> #[trigger] pick_corner_at(out@, *mesh, vertex_bytes, k),
{
    let n = mesh.indices.len() / 3;
    let mut out: Vec<u8> = Vec::new();
    let mut t: usize = 0;
    while t < n
        invariant
            t <= n,
            mesh.indices@.len() <= usize::MAX,
            n == mesh.indices@.len() / 3,
            forall|k: int|
                0 <= k < 3 * (mesh.indices@.len() / 3) ==> #[trigger] mesh.indices@[k] < mesh.positions@.len()
                    && mesh.indices@[k] < mesh.normals@.len(),
            forall|v: V| vertex_bytes.requires((v,)),
            out@.len() == 84 * t,
            forall|k: int| 0 <= k < 3 * t ==> #[trigger] pick_corner_at(out@, *mesh, vertex_bytes, k),
        decreases n - t,
    {
        let tid = u32_ne_bytes(#[verifier::truncate] (t as u32));
        assert(3 * t + 3 <= mesh.indices@.len()) by (nonlinear_arith)
            requires
                t < mesh.indices@.len() / 3,
        ;
        let mut c: usize = 0;
        while c < 3
            invariant
                c <= 3,
                t < n,
                3 * t + 3 <= mesh.indices@.len(),
                mesh.indices@.len() <= usize::MAX,
                n == mesh.indices@.len() / 3,
                tid@ == le_bytes(t as u32) || tid@ == be_bytes(t as u32),
                forall|k: int|
                    0 <= k < 3 * (mesh.indices@.len() / 3) ==> #[trigger] mesh.indices@[k] < mesh.positions@.len()
                        && mesh.indices@[k] < mesh.normals@.len(),
                forall|v: V| vertex_bytes.requires((v,)),
                out@.len() == 84 * t + 28 * c,
                forall|k: int| 0 <= k < 3 * t + c ==> #[trigger] pick_corner_at(out@, *mesh, vertex_bytes, k),
            decreases 3 - c,
        {
            let ghost before = out@;
            let ghost k = 3 * t + c;
            assert(k < 3 * (mesh.indices@.len() / 3) && 3 * (mesh.indices@.len() / 3) <= mesh.indices@.len())
                by (nonlinear_arith)
                requires
                    k == 3 * t + c,
                    c < 3,
                    t < mesh.indices@.len() / 3,
            ;
            let idx = mesh.indices[3 * t + c] as usize;
            let pb = vertex_bytes(mesh.positions[idx]);
            let nb = vertex_bytes(mesh.normals[idx]);
            append_bytes(&mut out, &pb);
            append_bytes(&mut out, &nb);
            append_bytes(&mut out, &tid);
            proof {
                assert(k / 3 == t as int) by (nonlinear_arith)
                    requires
                        k == 3 * t + c,
                        c < 3,
                ;
                assert(before.len() == 28 * k);
                assert(out@ == before + pb@ + nb@ + tid@);
                assert(out@.subrange(28 * k, 28 * k + 12) =~= pb@);
                assert(out@.subrange(28 * k + 12, 28 * k + 24) =~= nb@);
                assert(out@.subrange(28 * k + 24, 28 * k + 28) =~= tid@);
                assert(pick_corner_at(out@, *mesh, vertex_bytes, k));
                assert forall|q: int| 0 <= q < k + 1 implies #[trigger] pick_corner_at(out@, *mesh, vertex_bytes, q) by {
                    if q < k {
                        assert(pick_corner_at(before, *mesh, vertex_bytes, q));
                        let v = mesh.indices@[q] as int;
                        let (p2, n2) = choose|p2: [u8; 12], n2: [u8; 12]|
                            #[trigger] vertex_bytes.ensures((mesh.positions@[v],), p2) && #[trigger] vertex_bytes.ensures(
                                (mesh.normals@[v],),
                                n2,
                            ) && before.subrange(28 * q, 28 * q + 12) == p2@ && before.subrange(28 * q + 12, 28 * q + 24)
                                == n2@ && (before.subrange(28 * q + 24, 28 * q + 28) == le_bytes((q / 3) as u32)
                                || before.subrange(28 * q + 24, 28 * q + 28) == be_bytes((q / 3) as u32));
                        assert(out@.subrange(28 * q, 28 * q + 12) =~= before.subrange(28 * q, 28 * q + 12));
                        assert(out@.subrange(28 * q + 12, 28 * q + 24) =~= before.subrange(28 * q + 12, 28 * q + 24));
                        assert(out@.subrange(28 * q + 24, 28 * q + 28) =~= before.subrange(28 * q + 24, 28 * q + 28));
                    }
                }
            }
            c = c + 1;
        }
        t = t + 1;
    }
    out
}

/// A pick value read back from its three colour bytes decodes to the
/// (mesh index, face id) pair it was packed from.
pub proof fn lemma_pick_roundtrip(mesh_index: u32, face_id: u32, alpha: u8)
    requires
        packable(mesh_index, face_id),
        alpha != 0,
    ensures
        ({
            let v = packed(mesh_index, face_id);
            let px: [u8; 4] = [(v % 256) as u8, ((v / 256) % 256) as u8, (v / 65536) as u8, alpha];
            pixel_value(px) == v && (pixel_value(px) / 4096, pixel_value(px) % 4096) == (mesh_index, face_id)
        }),
{
    let v = packed(mesh_index, face_id);
    assert(v == mesh_index * 4096 + face_id);
    assert(v < 16777216);
    let px: [u8; 4] = [(v % 256) as u8, ((v / 256) % 256) as u8, (v / 65536) as u8, alpha];
    assert(px[0] + 256 * px[1] + 65536 * px[2] == v) by (nonlinear_arith)
        requires
            v < 16777216,
            px[0] == v % 256,
            px[1] == (v / 256) % 256,
            px[2] == v / 65536,
    ;
    assert((mesh_index * 4096 + face_id) / 4096 == mesh_index && (mesh_index * 4096 + face_id) % 4096
        == face_id) by (nonlinear_arith)
        requires
            face_id < 4096,
    ;
}

/// Unpacking a packed pair gives the pair back.
pub proof fn lemma_unpack_of_pack(mesh_index: u32, face_id: u32)
    requires
        packable(mesh_index, face_id),
    ensures
        (packed(mesh_index, face_id) / 4096, packed(mesh_index, face_id) % 4096) == (mesh_index, face_id),
{
    assert((mesh_index * 4096 + face_id) / 4096 == mesh_index && (mesh_index * 4096 + face_id) % 4096
        == face_id) by (nonlinear_arith)
        requires
            face_id < 4096,
    ;
}

} // verus!
