use freecad::ids::{invalid_shape_id, ShapeId};
use freecad::kernel::native::{bridge_error, convert_face_ranges, convert_stats, mesh_from_buffers, triples, FaceRangeOut, ShapeStatsOut};
use freecad::kernel::{KernelError, KernelErrorKind, MockKernel, ShapeStats};
use freecad::mesh::MeshBuffer;
use freecad::prim::cube_from_faces;

fn unit_cube() -> MeshBuffer<[f32; 3]> {
    let h = 0.5f32;
    cube_from_faces([
        ([0.0, 0.0, 1.0], [[-h, -h, h], [h, -h, h], [h, h, h], [-h, h, h]]),
        ([0.0, 0.0, -1.0], [[h, -h, -h], [-h, -h, -h], [-h, h, -h], [h, h, -h]]),
        ([1.0, 0.0, 0.0], [[h, -h, h], [h, -h, -h], [h, h, -h], [h, h, h]]),
        ([-1.0, 0.0, 0.0], [[-h, -h, -h], [-h, -h, h], [-h, h, h], [-h, h, -h]]),
        ([0.0, 1.0, 0.0], [[-h, h, h], [h, h, h], [h, h, -h], [-h, h, -h]]),
        ([0.0, -1.0, 0.0], [[-h, -h, -h], [h, -h, -h], [h, -h, h], [-h, -h, h]]),
    ])
}

#[test]
fn parse_errors_are_typed() {
    let mut k = MockKernel::new();
    match k.read_step(b"garbage") {
        Err(e) => assert_eq!(e.kind, KernelErrorKind::Parse),
        Ok(_) => panic!("expected parse error"),
    }
}

#[test]
fn lifecycle_and_validation() {
    let mut k = MockKernel::new();
    let a = k.allocate("make_box");
    let b = k.allocate("make_sphere");
    assert_eq!(k.live_shape_count(), 2);

    let fused = k.fuse(&a, &b).unwrap();
    assert_eq!(k.live_shape_count(), 3);

    let mesh = k.tessellate(&fused, unit_cube()).unwrap();
    mesh.validate().expect("mock mesh must validate");

    let bytes = k.write_brep(&fused).unwrap();
    assert!(bytes.starts_with(b"DBRep"));

    k.destroy(a);
    assert!(k.fuse(&a, &b).is_err(), "destroyed handle must be rejected");
    assert_eq!(k.live_shape_count(), 2);
}

#[test]
fn handles_are_fresh_and_logged() {
    let mut k = MockKernel::new();
    let a = k.allocate("make_box");
    let b = k.read_brep(b"CASCADE Topology V3\n").unwrap();
    let c = k.move_by(&a).unwrap();
    assert_eq!((a, b, c), (ShapeId(0), ShapeId(1), ShapeId(2)));
    assert_eq!(k.op_log(), &["make_box", "read_brep", "move_by"]);
    k.destroy(b);
    k.destroy(b);
    assert_eq!(k.live_shape_count(), 2);
    let d = k.cut(&a, &c).unwrap();
    assert_eq!(d, ShapeId(3));
    assert_eq!(k.common(&c, &d).unwrap(), ShapeId(4));
}

#[test]
fn dead_handles_are_reported_by_name() {
    let mut k = MockKernel::new();
    let a = k.allocate("make_box");
    let ghost = ShapeId(7);
    let e = k.fuse(&a, &ghost).unwrap_err();
    assert_eq!(e.kind, KernelErrorKind::InvalidInput);
    assert_eq!(e.message, "shape#7 does not exist or was destroyed");
    let e = k.stats(&invalid_shape_id()).unwrap_err();
    assert_eq!(e.message, format!("shape#{} does not exist or was destroyed", u64::MAX));
    assert!(k.write_step(&ghost).is_err());
    assert_eq!(k.live_shape_count(), 1);
    assert_eq!(k.op_log(), &["make_box"]);
}

#[test]
fn step_and_brep_payloads() {
    let mut k = MockKernel::new();
    let e = k.read_step(b"hello").unwrap_err();
    assert_eq!(e.message, "payload lacks ISO-10303-21 STEP header");
    let e = k.read_step(&[0xff, 0xfe]).unwrap_err();
    assert_eq!(e.message, "step payload is not utf-8");
    let s = k.read_step(b"ISO-10303-21;\nDATA;\nEND-ISO-10303-21;\n").unwrap();
    assert_eq!(k.write_step(&s).unwrap(), b"ISO-10303-21;\nDATA;\nEND-ISO-10303-21;\n".to_vec());
    assert_eq!(k.write_brep(&s).unwrap(), b"DBRep Drawer\nCASCADE Topology V3\nEnd\n".to_vec());
    let e = k.read_brep(b"BRep").unwrap_err();
    assert_eq!(e.kind, KernelErrorKind::Parse);
    assert_eq!(e.message, "payload lacks OCCT BREP signature");
    assert!(k.read_brep(b"DBRep").is_ok());
    assert_eq!(k.stats(&s).unwrap(), ShapeStats { vertices: 8, edges: 12, faces: 6, solids: 1 });
}

#[test]
fn tessellation_shifts_face_ids() {
    let mut k = MockKernel::new();
    let a = k.allocate("make_box");
    let mesh = k.tessellate(&a, unit_cube()).unwrap();
    let ids: Vec<u32> = mesh.faces.iter().map(|f| f.face_id).collect();
    assert_eq!(ids, vec![100, 101, 102, 103, 104, 105]);
    k.destroy(a);
    assert!(k.tessellate(&a, unit_cube()).is_err());
}

#[test]
fn error_texts() {
    assert_eq!(KernelError::parse("bad").to_string(), "parse failure: bad");
    assert_eq!(KernelError::geometry("x").kind, KernelErrorKind::Geometry);
    assert_eq!(KernelError::invalid_input("y").to_string(), "invalid input: y");
    assert_eq!(KernelErrorKind::Unsupported.to_string(), "operation unsupported by this kernel");
    assert_eq!(KernelError::new(KernelErrorKind::Geometry, "z").to_string(), "geometry operation failure: z");
    assert_eq!(ShapeId(3).to_string(), "shape#3");
}

#[test]
fn bridge_records_convert() {
    let ranges = convert_face_ranges(&[FaceRangeOut { face_id: 4, index_start: 6, index_count: 3 }]);
    assert_eq!((ranges[0].face_id, ranges[0].index_start, ranges[0].index_count), (4, 6, 3));
    let s = convert_stats(ShapeStatsOut { vertices: 1, edges: 2, faces: 3, solids: 4 });
    assert_eq!(s, ShapeStats { vertices: 1, edges: 2, faces: 3, solids: 4 });
    assert_eq!(bridge_error(String::new(), "fuse failed").message, "fuse failed");
    assert_eq!(bridge_error("boom".into(), "fuse failed").message, "boom");
    assert_eq!(triples(&vec![1, 2, 3, 4, 5, 6, 7]), vec![[1, 2, 3], [4, 5, 6]]);
    let ok = mesh_from_buffers(
        &vec![0.0f32, 0.0, 0.0, 1.0, 0.0, 0.0, 0.0, 1.0, 0.0],
        &vec![0.0f32, 0.0, 1.0, 0.0, 0.0, 1.0, 0.0, 0.0, 1.0],
        vec![0, 1, 2],
        &[FaceRangeOut { face_id: 0, index_start: 0, index_count: 3 }],
    )
    .unwrap();
    assert_eq!(ok.positions[1], [1.0, 0.0, 0.0]);
    let bad = mesh_from_buffers(&vec![0.0f32; 9], &vec![0.0f32; 6], vec![0, 1, 2], &[]).unwrap_err();
    assert_eq!(bad.kind, KernelErrorKind::InvalidInput);
    assert_eq!(bad.message, "normal count differs from vertex count");
}

#[test]
fn a_fresh_kernel_has_free_handles() {
    let mut k = MockKernel::new();
    assert!(k.has_free_handle());
    k.allocate("make_box");
    assert!(k.has_free_handle());
}
