use freecad::ux::{face_edges_to_external, should_auto_import, AssemblyJointKind, ChamferType, EdgeProj, FaceProj, JointType};

#[test]
fn chamfer_type_roundtrip() {
    assert_eq!(ChamferType::from_i32(0), ChamferType::EqualDistance);
    assert_eq!(ChamferType::from_i32(1), ChamferType::TwoDistances);
    assert_eq!(ChamferType::from_i32(2), ChamferType::DistanceAngle);
    assert_eq!(ChamferType::from_i32(99), ChamferType::EqualDistance);
}

#[test]
fn assembly_kind_mapping() {
    assert_eq!(
        AssemblyJointKind::from_str("Revolute"),
        Some(AssemblyJointKind::Revolute)
    );
    assert_eq!(AssemblyJointKind::from_str("Nope"), None);
    assert_eq!(
        AssemblyJointKind::Fixed.to_ux_type(),
        Some(JointType::Rigid)
    );
    assert_eq!(
        AssemblyJointKind::Slider.to_ux_type(),
        Some(JointType::Slider)
    );
    assert_eq!(AssemblyJointKind::Cylindrical.to_ux_type(), None);
    assert_eq!(AssemblyJointKind::Ball.to_ux_type(), None);
    assert!(AssemblyJointKind::Revolute.is_animatable());
    assert!(AssemblyJointKind::Cylindrical.is_animatable());
    assert!(!AssemblyJointKind::Fixed.is_animatable());
    assert!(!AssemblyJointKind::Gears.is_animatable());
}

#[test]
fn every_joint_name_parses_back() {
    let names = [
        ("Fixed", AssemblyJointKind::Fixed),
        ("Revolute", AssemblyJointKind::Revolute),
        ("Cylindrical", AssemblyJointKind::Cylindrical),
        ("Slider", AssemblyJointKind::Slider),
        ("Ball", AssemblyJointKind::Ball),
        ("Distance", AssemblyJointKind::Distance),
        ("Parallel", AssemblyJointKind::Parallel),
        ("Perpendicular", AssemblyJointKind::Perpendicular),
        ("Angle", AssemblyJointKind::Angle),
        ("RackPinion", AssemblyJointKind::RackPinion),
        ("Screw", AssemblyJointKind::Screw),
        ("Gears", AssemblyJointKind::Gears),
        ("Belt", AssemblyJointKind::Belt),
    ];
    for (n, k) in names {
        assert_eq!(AssemblyJointKind::from_str(n), Some(k));
    }
    assert_eq!(AssemblyJointKind::from_str("revolute"), None);
    assert_eq!(AssemblyJointKind::from_str(""), None);
}

fn rect_face() -> FaceProj<[f64; 2], ()> {
    let edge = |name: &str, start: [f64; 2], end: [f64; 2]| EdgeProj { name: name.into(), start, end, arc: None };
    FaceProj {
        face_name: "Face3".into(),
        edges: vec![
            edge("Edge1", [0.0, 0.0], [10.0, 0.0]),
            edge("Edge2", [10.0, 0.0], [10.0, 10.0]),
            edge("Edge3", [10.0, 10.0], [0.0, 10.0]),
            edge("Edge4", [0.0, 10.0], [0.0, 0.0]),
        ],
    }
}

#[test]
fn face_edges_to_external_caps() {
    let face = rect_face();
    let names = face_edges_to_external(&face, 2);
    assert_eq!(names, vec!["Edge1", "Edge2"]);
    let all = face_edges_to_external(&face, 100);
    assert_eq!(all.len(), 4);
    assert!(face_edges_to_external(&face, 0).is_empty());
}

#[test]
fn should_auto_import_cap() {
    let mut face = rect_face();
    assert!(should_auto_import(&face));
    face.edges.resize(80, face.edges[0].clone());
    assert!(should_auto_import(&face));
    face.edges.resize(81, face.edges[0].clone());
    assert!(!should_auto_import(&face));
}
