use freecad::mesh::{FaceRange, MeshBuffer, MeshError};
use freecad::prim::cube_from_faces;
use freecad::selection::{
    build_pick_mesh, decode_pick_bytes, extract_face, pack24, pick_vertex_data, unpack24, PickEncodeError, PICK_MAX_FACE,
    PICK_MAX_MESH,
};
use freecad::io::export_stl;

fn cube(size: f32) -> MeshBuffer<[f32; 3]> {
    let h = size * 0.5;
    cube_from_faces([
        ([0.0, 0.0, 1.0], [[-h, -h, h], [h, -h, h], [h, h, h], [-h, h, h]]),
        ([0.0, 0.0, -1.0], [[h, -h, -h], [-h, -h, -h], [-h, h, -h], [h, h, -h]]),
        ([1.0, 0.0, 0.0], [[h, -h, h], [h, -h, -h], [h, h, -h], [h, h, h]]),
        ([-1.0, 0.0, 0.0], [[-h, -h, -h], [-h, -h, h], [-h, h, h], [-h, h, -h]]),
        ([0.0, 1.0, 0.0], [[-h, h, h], [h, h, h], [h, h, -h], [-h, h, -h]]),
        ([0.0, -1.0, 0.0], [[-h, -h, -h], [h, -h, -h], [h, -h, h], [-h, -h, h]]),
    ])
}

fn bounds(mesh: &MeshBuffer<[f32; 3]>) -> Option<([f32; 3], [f32; 3])> {
    let first = *mesh.positions.first()?;
    let (mut min, mut max) = (first, first);
    for p in &mesh.positions {
        for k in 0..3 {
            min[k] = min[k].min(p[k]);
            max[k] = max[k].max(p[k]);
        }
    }
    Some((min, max))
}

fn pick_normal(v: u32) -> [f32; 3] {
    let v = v as f32;
    [
        ((v % 256.0) - 127.5) / 127.5,
        ((v / 256.0).floor() % 256.0 - 127.5) / 127.5,
        ((v / 65536.0).floor() % 256.0 - 127.5) / 127.5,
    ]
}

fn encode_pick_normal(m: u32, f: u32) -> Result<[f32; 3], PickEncodeError> {
    pack24(m, f).map(pick_normal)
}

#[test]
fn cube_is_valid_and_bounded() {
    let mesh = cube(2.0);
    assert_eq!(mesh.triangle_count(), 12);
    mesh.validate().expect("cube mesh must validate");
    let (min, max) = bounds(&mesh).expect("cube must have bounds");
    assert_eq!(min, [-1.0, -1.0, -1.0]);
    assert_eq!(max, [1.0, 1.0, 1.0]);
    for face in 0..6u32 {
        assert!(mesh.face_id_for_triangle((face * 2) as usize) == Some(face));
    }
}

#[test]
fn extracted_face_keeps_identity_and_geometry() {
    let cube = cube(2.0);
    assert_eq!(cube.face_ranges().len(), 6);

    let face = extract_face(&cube, 3).expect("cube has face 3");
    face.validate().expect("extracted face validates");
    assert_eq!(face.triangle_count(), 2);
    assert_eq!(face.face_ranges().len(), 1);
    assert_eq!(face.face_ranges()[0].face_id, 3);

    // geometry preserved: every vertex lies on the -X plane of a 2-unit cube
    for p in &face.positions {
        assert!((p[0] - (-1.0)).abs() < 1e-6, "x={}", p[0]);
    }
}

#[test]
fn missing_face_is_none() {
    let cube = cube(1.0);
    assert!(extract_face(&cube, 99).is_none());
}

#[test]
fn encode_decode_roundtrip() {
    for (m, f) in [(0u32, 1u32), (3u32, 4095u32), (17u32, 1234u32)] {
        let n = encode_pick_normal(m, f).unwrap();
        let enc = n.map(|c| ((c * 0.5 + 0.5).clamp(0.0, 1.0) * 255.0).round() as u8);
        let px = [enc[0], enc[1], enc[2], 255u8];
        assert_eq!(decode_pick_bytes(px), Some((m, f)), "n={n:?} px={px:?}");
        assert_eq!(decode_pick_bytes([0, 0, 0, 0]), None, "background");
    }
    assert!(encode_pick_normal(PICK_MAX_MESH + 1, 0).is_err());
}

#[test]
fn build_pick_mesh_replaces_normals_only() {
    let cube = cube(2.0);
    let pm = build_pick_mesh(&cube, 4, pick_normal).unwrap();
    assert_eq!(pm.positions.len(), cube.positions.len());
    let expected = encode_pick_normal(4, 0).unwrap();
    let r0 = &pm.face_ranges()[0];
    for k in 0..r0.index_count as usize {
        let i = pm.indices[r0.index_start as usize + k] as usize;
        assert_eq!(pm.normals[i], expected);
    }
}

#[test]
fn build_pick_mesh_rejects_large_mesh_index() {
    let cube = cube(2.0);
    assert_eq!(build_pick_mesh(&cube, PICK_MAX_MESH + 1, pick_normal).err(), Some(PickEncodeError::TooLarge));
}

#[test]
fn pack_and_unpack_are_inverse() {
    assert_eq!(pack24(0, 0), Ok(0));
    assert_eq!(pack24(1, 2), Ok(4098));
    assert_eq!(pack24(PICK_MAX_MESH, PICK_MAX_FACE), Ok(0xFF_FFFF));
    assert_eq!(unpack24(4098), (1, 2));
    assert_eq!(unpack24(pack24(17, 1234).unwrap()), (17, 1234));
    assert_eq!(pack24(0, PICK_MAX_FACE + 1), Err(PickEncodeError::TooLarge));
    // pixel bytes: least significant first
    let v = pack24(3, 4095).unwrap();
    assert_eq!(decode_pick_bytes([(v & 0xFF) as u8, ((v >> 8) & 0xFF) as u8, (v >> 16) as u8, 1]), Some((3, 4095)));
}

#[test]
fn validate_reports_each_error() {
    let mut m = cube(1.0);
    m.indices.push(0);
    assert_eq!(m.validate(), Err(MeshError::IndexCountNotMultipleOfThree));

    let mut m = cube(1.0);
    m.normals.pop();
    assert_eq!(m.validate(), Err(MeshError::NormalVertexCountMismatch));

    let mut m = cube(1.0);
    m.indices[5] = 24;
    assert_eq!(m.validate(), Err(MeshError::IndexOutOfBounds));

    let mut m = cube(1.0);
    m.faces.push(FaceRange { face_id: 9, index_start: 30, index_count: 7 });
    assert_eq!(m.validate(), Err(MeshError::FaceRangeOutOfBounds));

    let mut m = cube(1.0);
    m.faces.push(FaceRange { face_id: 9, index_start: u32::MAX, index_count: 1 });
    assert_eq!(m.validate(), Err(MeshError::FaceRangeOutOfBounds));

    let empty: MeshBuffer<[f32; 3]> = MeshBuffer::default();
    assert_eq!(empty.validate(), Err(MeshError::Empty));
    assert!(empty.is_empty());
    assert_eq!(MeshError::Empty.to_string(), "mesh has no triangles");
}

#[test]
fn triangle_at_reads_corners() {
    let m = cube(2.0);
    assert_eq!(m.triangle_at(0), Some([[-1.0, -1.0, 1.0], [1.0, -1.0, 1.0], [1.0, 1.0, 1.0]]));
    assert_eq!(m.triangle_at(1), Some([[-1.0, -1.0, 1.0], [1.0, 1.0, 1.0], [-1.0, 1.0, 1.0]]));
    assert_eq!(m.triangle_at(12), None);
    assert_eq!(m.triangle_at(usize::MAX), None);
    assert_eq!(m.face_id_for_triangle(11), Some(5));
    assert_eq!(m.face_id_for_triangle(12), None);
}

#[test]
fn face_range_triangle_count() {
    let r = FaceRange { face_id: 0, index_start: 0, index_count: 7 };
    assert_eq!(r.triangle_count(), 2);
}

fn stl_facet(t: [[f32; 3]; 3]) -> [u8; 48] {
    let [a, b, c] = t;
    let u = [b[0] - a[0], b[1] - a[1], b[2] - a[2]];
    let v = [c[0] - a[0], c[1] - a[1], c[2] - a[2]];
    let n = [u[1] * v[2] - u[2] * v[1], u[2] * v[0] - u[0] * v[2], u[0] * v[1] - u[1] * v[0]];
    let len = (n[0] * n[0] + n[1] * n[1] + n[2] * n[2]).sqrt();
    let n = if len > 1e-12 { [n[0] / len, n[1] / len, n[2] / len] } else { [0.0, 0.0, 1.0] };
    let mut out = [0u8; 48];
    let mut k = 0;
    for f in n.iter().chain(a.iter()).chain(b.iter()).chain(c.iter()) {
        out[k..k + 4].copy_from_slice(&f.to_le_bytes());
        k += 4;
    }
    out
}

#[test]
fn stl_export_produces_valid_binary() {
    let cube = cube(2.0);
    let stl = export_stl(&cube, stl_facet);
    assert_eq!(stl.len(), 84 + 50 * 12);
    let tri_count = u32::from_le_bytes(stl[80..84].try_into().unwrap());
    assert_eq!(tri_count, 12);
    // first triangle: normal should be unit-ish
    let nx = f32::from_le_bytes(stl[84..88].try_into().unwrap());
    assert!(nx.abs() <= 1.01);
}

#[test]
fn stl_header_and_attribute_words() {
    let stl = export_stl(&cube(1.0), stl_facet);
    assert_eq!(&stl[..23], b"FreeCAD Rust STL export");
    assert!(stl[23..80].iter().all(|b| *b == b' '));
    for t in 0..12 {
        let end = 84 + 50 * t + 50;
        assert_eq!(&stl[end - 2..end], &[0, 0]);
    }
    let empty: MeshBuffer<[f32; 3]> = MeshBuffer::default();
    assert_eq!(export_stl(&empty, stl_facet).len(), 84);
}

fn f32x3_ne_bytes(v: [f32; 3]) -> [u8; 12] {
    let mut out = [0u8; 12];
    for k in 0..3 {
        out[4 * k..4 * k + 4].copy_from_slice(&v[k].to_ne_bytes());
    }
    out
}

#[test]
fn pick_data_layout_matches_stride() {
    let cube = cube(2.0);
    let data = pick_vertex_data(&cube, f32x3_ne_bytes);
    assert_eq!(data.len(), cube.indices.len() * 28);

    // First corner: position of indices[0], normal of indices[0], tid 0.
    let i0 = cube.indices[0] as usize;
    let expected: Vec<u8> = cube.positions[i0]
        .iter()
        .chain(cube.normals[i0].iter())
        .flat_map(|v| v.to_ne_bytes())
        .chain(0u32.to_ne_bytes())
        .collect();
    assert_eq!(&data[..28], &expected[..]);

    // Second triangle's corners carry tid 1.
    let t1_start = 3 * 28;
    assert_eq!(&data[t1_start + 24..t1_start + 28], &1u32.to_ne_bytes());
}

#[test]
fn pick_data_ignores_trailing_partial_triangle() {
    let mesh = MeshBuffer {
        positions: vec![[0.0f32, 0.0, 0.0], [1.0, 0.0, 0.0], [0.0, 1.0, 0.0]],
        normals: vec![[0.0f32, 0.0, 1.0]; 3],
        indices: vec![0, 1, 2, 2],
        faces: vec![],
    };
    let data = pick_vertex_data(&mesh, f32x3_ne_bytes);
    assert_eq!(data.len(), 84);
    assert_eq!(&data[28 * 2..28 * 2 + 12], &f32x3_ne_bytes([0.0, 1.0, 0.0]));
}

#[test]
fn stl_count_is_the_number_of_records() {
    let mesh = MeshBuffer {
        positions: vec![[0.0f32, 0.0, 0.0], [1.0, 0.0, 0.0], [0.0, 1.0, 0.0]],
        normals: vec![[0.0f32, 0.0, 1.0]; 3],
        indices: vec![0, 1, 2, 0, 1, 7],
        faces: vec![],
    };
    let stl = export_stl(&mesh, stl_facet);
    assert_eq!(stl.len(), 84 + 50);
    assert_eq!(&stl[80..84], &1u32.to_le_bytes());
    let dangling = MeshBuffer::<[f32; 3]> { positions: vec![], normals: vec![], indices: vec![0, 1, 2], faces: vec![] };
    let stl = export_stl(&dangling, stl_facet);
    assert_eq!(stl.len(), 84);
    assert_eq!(&stl[80..84], &[0, 0, 0, 0]);
}
