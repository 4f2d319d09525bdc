use freecad::document::{Document, ObjectId, SceneObject};
use freecad::history::{History, Transaction};

#[derive(Debug, Clone, Copy, PartialEq)]
struct Placement {
    pos: [f64; 3],
    quat: [f64; 4],
}

fn identity() -> Placement {
    Placement { pos: [0.0; 3], quat: [0.0, 0.0, 0.0, 1.0] }
}

fn object(id: u32, label: &str, shape_index: Option<usize>, visible: bool) -> SceneObject<Placement> {
    SceneObject {
        id: ObjectId(id),
        label: label.into(),
        object_type: "Part::Feature".into(),
        shape_index,
        placement: identity(),
        visible,
    }
}

fn doc_with(n: u32) -> Document<Placement> {
    let mut d = Document::new();
    d.add(object(n, &format!("Obj{n}"), Some(0), true));
    d
}

#[test]
fn document_add_and_visible() {
    let mut doc = Document::new();
    doc.add(SceneObject {
        id: ObjectId(1),
        label: "Plate".into(),
        object_type: "Part::Feature".into(),
        shape_index: Some(0),
        placement: identity(),
        visible: true,
    });
    doc.add(SceneObject {
        id: ObjectId(2),
        label: "Hidden".into(),
        object_type: "Part::Feature".into(),
        shape_index: None,
        placement: identity(),
        visible: false,
    });
    assert_eq!(doc.visible_objects().len(), 1);
    assert_eq!(doc.shape_objects().len(), 1);
}

#[test]
fn document_find_returns_first_match() {
    let mut doc = Document::new();
    doc.add(object(7, "First", None, true));
    doc.add(object(8, "Other", None, true));
    doc.add(object(7, "Second", None, true));
    assert_eq!(doc.find(ObjectId(7)).unwrap().label, "First");
    assert_eq!(doc.find(ObjectId(8)).unwrap().label, "Other");
    assert!(doc.find(ObjectId(9)).is_none());
}

#[test]
fn shape_objects_need_visibility_and_geometry() {
    let mut doc = Document::new();
    doc.add(object(1, "a", Some(0), true));
    doc.add(object(2, "b", None, true));
    doc.add(object(3, "c", Some(1), false));
    doc.add(object(4, "d", Some(2), true));
    let visible: Vec<u32> = doc.visible_objects().iter().map(|o| o.id.0).collect();
    let shapes: Vec<u32> = doc.shape_objects().iter().map(|o| o.id.0).collect();
    assert_eq!(visible, vec![1, 2, 4]);
    assert_eq!(shapes, vec![1, 4]);
}

#[test]
fn object_id_text() {
    assert_eq!(ObjectId(42).to_string(), "obj#42");
    assert_eq!(ObjectId(0).to_string(), "obj#0");
}

#[test]
fn commit_and_undo_redo() {
    let mut h = History::new(Document::new());
    h.commit("Create Box", doc_with(1));
    assert_eq!(h.undo_len(), 1);
    assert_eq!(h.document().objects.len(), 1);
    h.commit("Create Chamfer", doc_with(2));
    assert_eq!(h.undo_len(), 2);
    // undo last -> back to 1 obj
    let lbl = h.undo().unwrap();
    assert_eq!(lbl, "Create Chamfer");
    assert_eq!(h.document().objects.len(), 1);
    assert_eq!(h.document().objects[0].id.0, 1);
    assert!(h.can_redo());
    // redo
    let lbl2 = h.redo().unwrap();
    assert_eq!(lbl2, "Create Chamfer");
    assert_eq!(h.document().objects[0].id.0, 2);
    // undo again and commit new branch clears redo
    h.undo();
    assert_eq!(h.redo_len(), 1);
    h.commit("New Sketch", doc_with(3));
    assert_eq!(h.redo_len(), 0);
    assert_eq!(h.timeline(), vec!["Create Box", "New Sketch"]);
}

#[test]
fn empty_undo_redo() {
    let mut h: History<Placement> = History::new(Document::new());
    assert!(h.undo().is_none());
    assert!(h.redo().is_none());
    assert!(!h.can_undo());
    assert!(!h.can_redo());
}

#[test]
fn undo_then_redo_restores_the_same_document() {
    let mut h = History::new(doc_with(10));
    h.commit("A", doc_with(11));
    h.commit("B", doc_with(12));
    assert_eq!(h.undo(), Some("B"));
    assert_eq!(h.undo(), Some("A"));
    assert_eq!(h.document().objects[0].id.0, 10);
    assert_eq!(h.redo(), Some("A"));
    assert_eq!(h.redo(), Some("B"));
    assert_eq!(h.document().objects[0].id.0, 12);
    assert!(h.redo().is_none());
    assert_eq!(h.undo_len() + h.redo_len(), 2);
    assert_eq!(h.timeline(), vec!["A", "B"]);
}

#[test]
fn undo_after_commit_gives_back_previous_document() {
    let mut h = History::new(doc_with(5));
    h.commit("Move", doc_with(6));
    assert_eq!(h.undo(), Some("Move"));
    assert_eq!(h.document().objects[0].id.0, 5);
    assert_eq!(h.redo_len(), 1);
    assert_eq!(h.undo_len(), 0);
}

#[test]
fn transaction_keeps_its_parts() {
    let t = Transaction::new("Step", vec![object(1, "a", None, true)], Vec::new());
    assert_eq!(t.label, "Step");
    assert_eq!(t.before.len(), 1);
    assert!(t.after.is_empty());
}
