//! FreeCAD document reader (read-only, shallow): the object registry, the
//! placement of each object and the shape payload it references.
//!
//! `Document.xml` declares every object (`<Object type=".." name=".."/>`)
//! and then fills them in inside `<ObjectData>`; a placement property carries
//! a `<PropertyPlacement Px=".." .. Q3=".."/>` element and a shape property a
//! `<Part file=".."/>` element naming the payload inside the archive. No
//! expressions, no recompute, no writing.
//!
//! Placement components are kept as the raw attribute text; turning them
//! into numbers is left to the caller.

use vstd::prelude::*;

use crate::io::xml::{
    attr_model, events_model, lemma_first_colon, local_name, local_part, xml_events, xml_tokens, AttrModel, EventModel, TagModel,
    XmlAttribute, XmlEvent, XmlTag,
};
use crate::mesh::copy_vec;
use crate::text::{ascii_bytes, ascii_seq, bytes_equal, concat, lossy_string, str_equal, utf8_lossy};

verus! {

/// Placement of an object as written in the document: the raw text of each
/// of the position (`Px`, `Py`, `Pz`) and quaternion (`Q0`..`Q3`, x, y, z, w)
/// attributes; `None` where the attribute is absent, which stands for the
/// identity placement's component.
#[derive(Debug, Clone, Default, PartialEq)]
pub struct RawPlacement {
    pub px: Option<Vec<u8>>,
    pub py: Option<Vec<u8>>,
    pub pz: Option<Vec<u8>>,
    pub q0: Option<Vec<u8>>,
    pub q1: Option<Vec<u8>>,
    pub q2: Option<Vec<u8>>,
    pub q3: Option<Vec<u8>>,
}

pub struct PlacementModel {
    pub px: Option<Seq<u8>>,
    pub py: Option<Seq<u8>>,
    pub pz: Option<Seq<u8>>,
    pub q0: Option<Seq<u8>>,
    pub q1: Option<Seq<u8>>,
    pub q2: Option<Seq<u8>>,
    pub q3: Option<Seq<u8>>,
}

pub open spec fn opt_bytes(o: Option<Vec<u8>>) -> Option<Seq<u8>> {
    match o {
        Some(v) => Some(v@),
        None => None,
    }
}

pub open spec fn opt_text(o: Option<String>) -> Option<Seq<char>> {
    match o {
        Some(s) => Some(s@),
        None => None,
    }
}

/// The placement with no component given: the identity.
pub open spec fn identity_placement() -> PlacementModel {
    PlacementModel { px: None, py: None, pz: None, q0: None, q1: None, q2: None, q3: None }
}

impl RawPlacement {
    pub open spec fn model(&self) -> PlacementModel {
        PlacementModel {
            px: opt_bytes(self.px),
            py: opt_bytes(self.py),
            pz: opt_bytes(self.pz),
            q0: opt_bytes(self.q0),
            q1: opt_bytes(self.q1),
            q2: opt_bytes(self.q2),
            q3: opt_bytes(self.q3),
        }
    }

    /// The identity placement (no component given).
    pub fn identity() -> (p: Self)
        ensures
            p.model() == identity_placement(),
    {
        RawPlacement { px: None, py: None, pz: None, q0: None, q1: None, q2: None, q3: None }
    }
}

pub open spec fn opt_placement(o: Option<RawPlacement>) -> Option<PlacementModel> {
    match o {
        Some(p) => Some(p.model()),
        None => None,
    }
}

#[derive(Debug, Clone, Default, PartialEq)]
pub struct FcStdObject {
    /// Internal unique name (e.g. "Pad", "Sketch").
    pub name: String,
    /// Type id (e.g. "PartDesign::Pad", "Part::Feature").
    pub type_id: String,
    pub placement: Option<RawPlacement>,
    /// Shape payload entry name inside the archive (e.g. "Frame.Shape.brp").
    pub shape_file: Option<String>,
    /// Link targets: the `value` of each `Link` element inside an
    /// `App::PropertyLink` property of the object, in document order.
    pub links: Vec<String>,
}

pub struct ObjectModel {
    pub name: Seq<char>,
    pub type_id: Seq<char>,
    pub placement: Option<PlacementModel>,
    pub shape_file: Option<Seq<char>>,
    pub links: Seq<Seq<char>>,
}

impl FcStdObject {
    pub open spec fn model(&self) -> ObjectModel {
        ObjectModel {
            name: self.name@,
            type_id: self.type_id@,
            placement: opt_placement(self.placement),
            shape_file: opt_text(self.shape_file),
            links: self.links@.map_values(|l: String| l@),
        }
    }

    pub fn is_shape_bearing(&self) -> (b: bool)
        ensures
            b == self.shape_file is Some,
    {
        self.shape_file.is_some()
    }
}

pub open spec fn objects_model(objects: Seq<FcStdObject>) -> Seq<ObjectModel> {
    objects.map_values(|o: FcStdObject| o.model())
}

#[derive(Debug, Clone, Default)]
pub struct FcStdDocument {
    pub program_version: String,
    pub objects: Vec<FcStdObject>,
}

/// The objects of `objects` that reference a shape payload, in order.
pub open spec fn shape_bearing(objects: Seq<FcStdObject>) -> Seq<FcStdObject> {
    objects.filter(|o: FcStdObject| o.shape_file is Some)
}

impl FcStdDocument {
    /// The first object named `name`.
    pub fn find(&self, name: &str) -> (r: Option<&FcStdObject>)
        ensures
            match r {
                Some(o) => exists|i: int|
                    0 <= i < self.objects@.len() && self.objects@[i] == *o && o.name@ == name@ && forall|j: int|
                        0 <= j < i ==> (#[trigger] self.objects@[j]).name@ != name@,
                None => forall|j: int| 0 <= j < self.objects@.len() ==> (#[trigger] self.objects@[j]).name@ != name@,
            },
    {
        let mut i: usize = 0;
        while i < self.objects.len()
            invariant
                i <= self.objects@.len(),
                forall|j: int| 0 <= j < i ==> (#[trigger] self.objects@[j]).name@ != name@,
            decreases self.objects@.len() - i,
        {
            if str_equal(self.objects[i].name.as_str(), name) {
                return Some(&self.objects[i]);
            }
            i = i + 1;
        }
        None
    }

    /// The objects that reference a shape payload, in document order.
    pub fn shape_objects(&self) -> (r: Vec<&FcStdObject>)
        ensures
            r@.map_values(|o: &FcStdObject| *o) == shape_bearing(self.objects@),
    {
        let ghost pred = |o: FcStdObject| o.shape_file is Some;
        let mut out: Vec<&FcStdObject> = Vec::new();
        let mut i: usize = 0;
        while i < self.objects.len()
            invariant
                i <= self.objects@.len(),
                pred == (|o: FcStdObject| o.shape_file is Some),
                out@.map_values(|o: &FcStdObject| *o) == self.objects@.take(i as int).filter(pred),
            decreases self.objects@.len() - i,
        {
            proof {
                reveal(Seq::filter);
                assert(self.objects@.take(i + 1).drop_last() =~= self.objects@.take(i as int));
            }
            let o = &self.objects[i];
            if o.is_shape_bearing() {
                out.push(o);
            }
            assert(out@.map_values(|o: &FcStdObject| *o) =~= self.objects@.take(i + 1).filter(pred));
            i = i + 1;
        }
        assert(self.objects@.take(self.objects@.len() as int) =~= self.objects@);
        out
    }
}

#[derive(Debug, Clone, PartialEq, Eq)]
pub enum FcStdError {
    NotAZip,
    NoDocumentXml,
    NoShapePayload,
    Xml(String),
    Io,
}

impl FcStdError {
    pub open spec fn message(&self) -> Seq<char> {
        match self {
            FcStdError::NotAZip => "payload is not a zip archive"@,
            FcStdError::NoDocumentXml => "zip lacks Document.xml entry"@,
            FcStdError::NoShapePayload => "no shape payloads found in document"@,
            FcStdError::Xml(m) => "Document.xml parse error: "@ + m@,
            FcStdError::Io => "i/o failure"@,
        }
    }

    /// Human-readable description of the error.
    pub fn to_string(&self) -> (s: String)
        ensures
            s@ == self.message(),
    {
        match self {
            FcStdError::NotAZip => "payload is not a zip archive".to_owned(),
            FcStdError::NoDocumentXml => "zip lacks Document.xml entry".to_owned(),
            FcStdError::NoShapePayload => "no shape payloads found in document".to_owned(),
            FcStdError::Xml(m) => concat("Document.xml parse error: ", m.as_str()),
            FcStdError::Io => "i/o failure".to_owned(),
        }
    }
}

// ---------------------------------------------------------------------------
// The reading rules, as a function of the event sequence.
// ---------------------------------------------------------------------------

/// The value of the last readable attribute whose local key is `key`.
pub open spec fn last_attr(attrs: Seq<Option<AttrModel>>, key: Seq<u8>) -> Option<Seq<u8>>
    decreases attrs.len(),
{
    if attrs.len() == 0 {
        None
    } else {
        match attrs.last() {
            Some(a) => if local_part(a.0) == key {
                Some(a.1)
            } else {
                last_attr(attrs.drop_last(), key)
            },
            None => last_attr(attrs.drop_last(), key),
        }
    }
}

/// The text of the last attribute with local key `key`, empty when absent.
pub open spec fn attr_text(t: TagModel, key: Seq<char>) -> Seq<char> {
    match last_attr(t.attributes, ascii_seq(key)) {
        Some(v) => utf8_lossy(v),
        None => Seq::empty(),
    }
}

/// Whether a qualified tag name has local part `lit`.
pub open spec fn is_tag(name: Seq<u8>, lit: Seq<char>) -> bool {
    local_part(name) == ascii_seq(lit)
}

/// The state of the reader between two events.
pub struct ParseModel {
    pub program_version: Seq<char>,
    pub objects: Seq<ObjectModel>,
    /// Declared type of each object name (the registry pass).
    pub decl: Map<Seq<char>, Seq<char>>,
    pub in_object_data: bool,
    pub in_shape_prop: bool,
    /// Inside the object's own `Placement` property.
    pub in_placement_prop: bool,
    /// Inside a link property.
    pub in_link_prop: bool,
    pub cur_obj: Option<ObjectModel>,
    pub cur_placement: Option<PlacementModel>,
}

pub open spec fn initial_model() -> ParseModel {
    ParseModel {
        program_version: Seq::empty(),
        objects: Seq::empty(),
        decl: Map::empty(),
        in_object_data: false,
        in_shape_prop: false,
        in_placement_prop: false,
        in_link_prop: false,
        cur_obj: None,
        cur_placement: None,
    }
}

/// A registry entry: the object named by `name` has the type named by `type`.
pub open spec fn declare(s: ParseModel, t: TagModel) -> ParseModel {
    ParseModel { decl: s.decl.insert(attr_text(t, "name"@), attr_text(t, "type"@)), ..s }
}

/// The placement given by the attributes of a `PropertyPlacement` element.
pub open spec fn placement_of(t: TagModel) -> PlacementModel {
    PlacementModel {
        px: last_attr(t.attributes, ascii_seq("Px"@)),
        py: last_attr(t.attributes, ascii_seq("Py"@)),
        pz: last_attr(t.attributes, ascii_seq("Pz"@)),
        q0: last_attr(t.attributes, ascii_seq("Q0"@)),
        q1: last_attr(t.attributes, ascii_seq("Q1"@)),
        q2: last_attr(t.attributes, ascii_seq("Q2"@)),
        q3: last_attr(t.attributes, ascii_seq("Q3"@)),
    }
}

/// `t` with one more attribute, `key` (plain, no prefix) set to `value`.
pub open spec fn with_attribute(t: TagModel, key: Seq<char>, value: Seq<u8>) -> TagModel {
    TagModel { name: t.name, attributes: t.attributes.push(Some((ascii_seq(key), value))) }
}

/// A plain key names itself: it has no namespace prefix to strip.
proof fn lemma_plain_key(key: Seq<u8>)
    requires
        forall|i: int| 0 <= i < key.len() ==> key[i] != 58u8,
    ensures
        local_part(key) == key,
{
    lemma_first_colon(key);
}

/// The last readable attribute of `attrs` followed by `a`, for `key`.
proof fn lemma_last_attr_push(attrs: Seq<Option<AttrModel>>, a: AttrModel, key: Seq<u8>)
    ensures
        last_attr(attrs.push(Some(a)), key) == if local_part(a.0) == key {
            Some(a.1)
        } else {
            last_attr(attrs, key)
        },
{
    assert(attrs.push(Some(a)).drop_last() =~= attrs);
}

/// Each `PropertyPlacement` attribute fills the placement field of its own
/// name: a further `Px` attribute sets `px` to its value, a `Q1` sets `q1`,
/// a `Q2` sets `q2`, and so on, leaving the other six fields as they were.
pub proof fn lemma_placement_attribute_sets_its_field(t: TagModel, v: Seq<u8>)
    ensures
        placement_of(with_attribute(t, "Px"@, v)) == (PlacementModel { px: Some(v), ..placement_of(t) }),
        placement_of(with_attribute(t, "Py"@, v)) == (PlacementModel { py: Some(v), ..placement_of(t) }),
        placement_of(with_attribute(t, "Pz"@, v)) == (PlacementModel { pz: Some(v), ..placement_of(t) }),
        placement_of(with_attribute(t, "Q0"@, v)) == (PlacementModel { q0: Some(v), ..placement_of(t) }),
        placement_of(with_attribute(t, "Q1"@, v)) == (PlacementModel { q1: Some(v), ..placement_of(t) }),
        placement_of(with_attribute(t, "Q2"@, v)) == (PlacementModel { q2: Some(v), ..placement_of(t) }),
        placement_of(with_attribute(t, "Q3"@, v)) == (PlacementModel { q3: Some(v), ..placement_of(t) }),
{
    reveal_strlit("Px");
    reveal_strlit("Py");
    reveal_strlit("Pz");
    reveal_strlit("Q0");
    reveal_strlit("Q1");
    reveal_strlit("Q2");
    reveal_strlit("Q3");
    assert(ascii_seq("Px"@) =~= seq![80u8, 120u8]);
    assert(ascii_seq("Py"@) =~= seq![80u8, 121u8]);
    assert(ascii_seq("Pz"@) =~= seq![80u8, 122u8]);
    assert(ascii_seq("Q0"@) =~= seq![81u8, 48u8]);
    assert(ascii_seq("Q1"@) =~= seq![81u8, 49u8]);
    assert(ascii_seq("Q2"@) =~= seq![81u8, 50u8]);
    assert(ascii_seq("Q3"@) =~= seq![81u8, 51u8]);
    lemma_plain_key(ascii_seq("Px"@));
    lemma_plain_key(ascii_seq("Py"@));
    lemma_plain_key(ascii_seq("Pz"@));
    lemma_plain_key(ascii_seq("Q0"@));
    lemma_plain_key(ascii_seq("Q1"@));
    lemma_plain_key(ascii_seq("Q2"@));
    lemma_plain_key(ascii_seq("Q3"@));
    assert(ascii_seq("Px"@)[1] != ascii_seq("Py"@)[1]);
    assert(ascii_seq("Px"@)[1] != ascii_seq("Pz"@)[1]);
    assert(ascii_seq("Px"@)[0] != ascii_seq("Q0"@)[0]);
    assert(ascii_seq("Px"@)[0] != ascii_seq("Q1"@)[0]);
    assert(ascii_seq("Px"@)[0] != ascii_seq("Q2"@)[0]);
    assert(ascii_seq("Px"@)[0] != ascii_seq("Q3"@)[0]);
    assert(ascii_seq("Py"@)[1] != ascii_seq("Px"@)[1]);
    assert(ascii_seq("Py"@)[1] != ascii_seq("Pz"@)[1]);
    assert(ascii_seq("Py"@)[0] != ascii_seq("Q0"@)[0]);
    assert(ascii_seq("Py"@)[0] != ascii_seq("Q1"@)[0]);
    assert(ascii_seq("Py"@)[0] != ascii_seq("Q2"@)[0]);
    assert(ascii_seq("Py"@)[0] != ascii_seq("Q3"@)[0]);
    assert(ascii_seq("Pz"@)[1] != ascii_seq("Px"@)[1]);
    assert(ascii_seq("Pz"@)[1] != ascii_seq("Py"@)[1]);
    assert(ascii_seq("Pz"@)[0] != ascii_seq("Q0"@)[0]);
    assert(ascii_seq("Pz"@)[0] != ascii_seq("Q1"@)[0]);
    assert(ascii_seq("Pz"@)[0] != ascii_seq("Q2"@)[0]);
    assert(ascii_seq("Pz"@)[0] != ascii_seq("Q3"@)[0]);
    assert(ascii_seq("Q0"@)[0] != ascii_seq("Px"@)[0]);
    assert(ascii_seq("Q0"@)[0] != ascii_seq("Py"@)[0]);
    assert(ascii_seq("Q0"@)[0] != ascii_seq("Pz"@)[0]);
    assert(ascii_seq("Q0"@)[1] != ascii_seq("Q1"@)[1]);
    assert(ascii_seq("Q0"@)[1] != ascii_seq("Q2"@)[1]);
    assert(ascii_seq("Q0"@)[1] != ascii_seq("Q3"@)[1]);
    assert(ascii_seq("Q1"@)[0] != ascii_seq("Px"@)[0]);
    assert(ascii_seq("Q1"@)[0] != ascii_seq("Py"@)[0]);
    assert(ascii_seq("Q1"@)[0] != ascii_seq("Pz"@)[0]);
    assert(ascii_seq("Q1"@)[1] != ascii_seq("Q0"@)[1]);
    assert(ascii_seq("Q1"@)[1] != ascii_seq("Q2"@)[1]);
    assert(ascii_seq("Q1"@)[1] != ascii_seq("Q3"@)[1]);
    assert(ascii_seq("Q2"@)[0] != ascii_seq("Px"@)[0]);
    assert(ascii_seq("Q2"@)[0] != ascii_seq("Py"@)[0]);
    assert(ascii_seq("Q2"@)[0] != ascii_seq("Pz"@)[0]);
    assert(ascii_seq("Q2"@)[1] != ascii_seq("Q0"@)[1]);
    assert(ascii_seq("Q2"@)[1] != ascii_seq("Q1"@)[1]);
    assert(ascii_seq("Q2"@)[1] != ascii_seq("Q3"@)[1]);
    assert(ascii_seq("Q3"@)[0] != ascii_seq("Px"@)[0]);
    assert(ascii_seq("Q3"@)[0] != ascii_seq("Py"@)[0]);
    assert(ascii_seq("Q3"@)[0] != ascii_seq("Pz"@)[0]);
    assert(ascii_seq("Q3"@)[1] != ascii_seq("Q0"@)[1]);
    assert(ascii_seq("Q3"@)[1] != ascii_seq("Q1"@)[1]);
    assert(ascii_seq("Q3"@)[1] != ascii_seq("Q2"@)[1]);
    assert(placement_of(with_attribute(t, "Px"@, v)) == (PlacementModel { px: Some(v), ..placement_of(t) })) by {
        lemma_last_attr_push(t.attributes, (ascii_seq("Px"@), v), ascii_seq("Px"@));
        lemma_last_attr_push(t.attributes, (ascii_seq("Px"@), v), ascii_seq("Py"@));
        lemma_last_attr_push(t.attributes, (ascii_seq("Px"@), v), ascii_seq("Pz"@));
        lemma_last_attr_push(t.attributes, (ascii_seq("Px"@), v), ascii_seq("Q0"@));
        lemma_last_attr_push(t.attributes, (ascii_seq("Px"@), v), ascii_seq("Q1"@));
        lemma_last_attr_push(t.attributes, (ascii_seq("Px"@), v), ascii_seq("Q2"@));
        lemma_last_attr_push(t.attributes, (ascii_seq("Px"@), v), ascii_seq("Q3"@));
    }
    assert(placement_of(with_attribute(t, "Py"@, v)) == (PlacementModel { py: Some(v), ..placement_of(t) })) by {
        lemma_last_attr_push(t.attributes, (ascii_seq("Py"@), v), ascii_seq("Px"@));
        lemma_last_attr_push(t.attributes, (ascii_seq("Py"@), v), ascii_seq("Py"@));
        lemma_last_attr_push(t.attributes, (ascii_seq("Py"@), v), ascii_seq("Pz"@));
        lemma_last_attr_push(t.attributes, (ascii_seq("Py"@), v), ascii_seq("Q0"@));
        lemma_last_attr_push(t.attributes, (ascii_seq("Py"@), v), ascii_seq("Q1"@));
        lemma_last_attr_push(t.attributes, (ascii_seq("Py"@), v), ascii_seq("Q2"@));
        lemma_last_attr_push(t.attributes, (ascii_seq("Py"@), v), ascii_seq("Q3"@));
    }
    assert(placement_of(with_attribute(t, "Pz"@, v)) == (PlacementModel { pz: Some(v), ..placement_of(t) })) by {
        lemma_last_attr_push(t.attributes, (ascii_seq("Pz"@), v), ascii_seq("Px"@));
        lemma_last_attr_push(t.attributes, (ascii_seq("Pz"@), v), ascii_seq("Py"@));
        lemma_last_attr_push(t.attributes, (ascii_seq("Pz"@), v), ascii_seq("Pz"@));
        lemma_last_attr_push(t.attributes, (ascii_seq("Pz"@), v), ascii_seq("Q0"@));
        lemma_last_attr_push(t.attributes, (ascii_seq("Pz"@), v), ascii_seq("Q1"@));
        lemma_last_attr_push(t.attributes, (ascii_seq("Pz"@), v), ascii_seq("Q2"@));
        lemma_last_attr_push(t.attributes, (ascii_seq("Pz"@), v), ascii_seq("Q3"@));
    }
    assert(placement_of(with_attribute(t, "Q0"@, v)) == (PlacementModel { q0: Some(v), ..placement_of(t) })) by {
        lemma_last_attr_push(t.attributes, (ascii_seq("Q0"@), v), ascii_seq("Px"@));
        lemma_last_attr_push(t.attributes, (ascii_seq("Q0"@), v), ascii_seq("Py"@));
        lemma_last_attr_push(t.attributes, (ascii_seq("Q0"@), v), ascii_seq("Pz"@));
        lemma_last_attr_push(t.attributes, (ascii_seq("Q0"@), v), ascii_seq("Q0"@));
        lemma_last_attr_push(t.attributes, (ascii_seq("Q0"@), v), ascii_seq("Q1"@));
        lemma_last_attr_push(t.attributes, (ascii_seq("Q0"@), v), ascii_seq("Q2"@));
        lemma_last_attr_push(t.attributes, (ascii_seq("Q0"@), v), ascii_seq("Q3"@));
    }
    assert(placement_of(with_attribute(t, "Q1"@, v)) == (PlacementModel { q1: Some(v), ..placement_of(t) })) by {
        lemma_last_attr_push(t.attributes, (ascii_seq("Q1"@), v), ascii_seq("Px"@));
        lemma_last_attr_push(t.attributes, (ascii_seq("Q1"@), v), ascii_seq("Py"@));
        lemma_last_attr_push(t.attributes, (ascii_seq("Q1"@), v), ascii_seq("Pz"@));
        lemma_last_attr_push(t.attributes, (ascii_seq("Q1"@), v), ascii_seq("Q0"@));
        lemma_last_attr_push(t.attributes, (ascii_seq("Q1"@), v), ascii_seq("Q1"@));
        lemma_last_attr_push(t.attributes, (ascii_seq("Q1"@), v), ascii_seq("Q2"@));
        lemma_last_attr_push(t.attributes, (ascii_seq("Q1"@), v), ascii_seq("Q3"@));
    }
    assert(placement_of(with_attribute(t, "Q2"@, v)) == (PlacementModel { q2: Some(v), ..placement_of(t) })) by {
        lemma_last_attr_push(t.attributes, (ascii_seq("Q2"@), v), ascii_seq("Px"@));
        lemma_last_attr_push(t.attributes, (ascii_seq("Q2"@), v), ascii_seq("Py"@));
        lemma_last_attr_push(t.attributes, (ascii_seq("Q2"@), v), ascii_seq("Pz"@));
        lemma_last_attr_push(t.attributes, (ascii_seq("Q2"@), v), ascii_seq("Q0"@));
        lemma_last_attr_push(t.attributes, (ascii_seq("Q2"@), v), ascii_seq("Q1"@));
        lemma_last_attr_push(t.attributes, (ascii_seq("Q2"@), v), ascii_seq("Q2"@));
        lemma_last_attr_push(t.attributes, (ascii_seq("Q2"@), v), ascii_seq("Q3"@));
    }
    assert(placement_of(with_attribute(t, "Q3"@, v)) == (PlacementModel { q3: Some(v), ..placement_of(t) })) by {
        lemma_last_attr_push(t.attributes, (ascii_seq("Q3"@), v), ascii_seq("Px"@));
        lemma_last_attr_push(t.attributes, (ascii_seq("Q3"@), v), ascii_seq("Py"@));
        lemma_last_attr_push(t.attributes, (ascii_seq("Q3"@), v), ascii_seq("Pz"@));
        lemma_last_attr_push(t.attributes, (ascii_seq("Q3"@), v), ascii_seq("Q0"@));
        lemma_last_attr_push(t.attributes, (ascii_seq("Q3"@), v), ascii_seq("Q1"@));
        lemma_last_attr_push(t.attributes, (ascii_seq("Q3"@), v), ascii_seq("Q2"@));
        lemma_last_attr_push(t.attributes, (ascii_seq("Q3"@), v), ascii_seq("Q3"@));
    }
}

/// A `Part` element names the shape payload of the object being filled in.
pub open spec fn with_shape_file(s: ParseModel, t: TagModel) -> ParseModel {
    match (last_attr(t.attributes, ascii_seq("file"@)), s.cur_obj) {
        (Some(v), Some(o)) => ParseModel {
            cur_obj: Some(ObjectModel { shape_file: Some(utf8_lossy(v)), ..o }),
            ..s
        },
        _ => s,
    }
}

/// A `Link` element inside a link property adds its `value`, the name of
/// the linked object, to the links of the object being filled in; an empty
/// value (an unset link) names no target.
pub open spec fn with_link(s: ParseModel, t: TagModel) -> ParseModel {
    match (last_attr(t.attributes, ascii_seq("value"@)), s.cur_obj) {
        (Some(v), Some(o)) => if v.len() > 0 {
            ParseModel { cur_obj: Some(ObjectModel { links: o.links.push(utf8_lossy(v)), ..o }), ..s }
        } else {
            s
        },
        _ => s,
    }
}

/// The object started by `<Object name="..">` inside `ObjectData`, typed from
/// the registry (empty type when undeclared).
pub open spec fn new_object(s: ParseModel, t: TagModel) -> ObjectModel {
    let name = attr_text(t, "name"@);
    ObjectModel {
        name,
        type_id: if s.decl.contains_key(name) { s.decl[name] } else { Seq::empty() },
        placement: None,
        shape_file: None,
        links: Seq::empty(),
    }
}

pub open spec fn step_property(s: ParseModel, t: TagModel) -> ParseModel {
    let pname = attr_text(t, "name"@);
    let ptype = attr_text(t, "type"@);
    let is_placement = ptype == "App::PropertyPlacement"@ && pname == "Placement"@;
    ParseModel {
        cur_placement: if is_placement {
            Some(identity_placement())
        } else {
            s.cur_placement
        },
        in_placement_prop: if is_placement {
            true
        } else {
            s.in_placement_prop
        },
        in_link_prop: if ptype == "App::PropertyLink"@ {
            true
        } else {
            s.in_link_prop
        },
        in_shape_prop: if pname == "Shape"@ && ptype == "Part::PropertyPartShape"@ {
            true
        } else {
            s.in_shape_prop
        },
        ..s
    }
}

pub open spec fn step_start(s: ParseModel, t: TagModel) -> ParseModel {
    if is_tag(t.name, "Document"@) {
        match last_attr(t.attributes, ascii_seq("ProgramVersion"@)) {
            Some(v) => ParseModel { program_version: utf8_lossy(v), ..s },
            None => s,
        }
    } else if is_tag(t.name, "Object"@) && !s.in_object_data {
        declare(s, t)
    } else if is_tag(t.name, "ObjectData"@) {
        ParseModel { in_object_data: true, ..s }
    } else if is_tag(t.name, "Object"@) && s.in_object_data {
        ParseModel { cur_obj: Some(new_object(s, t)), cur_placement: None, ..s }
    } else if is_tag(t.name, "Property"@) && s.in_object_data {
        step_property(s, t)
    } else if is_tag(t.name, "PropertyPlacement"@) && s.in_object_data && s.in_placement_prop {
        ParseModel { cur_placement: Some(placement_of(t)), ..s }
    } else if is_tag(t.name, "Part"@) && s.in_object_data && s.in_shape_prop {
        with_shape_file(s, t)
    } else if is_tag(t.name, "Link"@) && s.in_object_data && s.in_link_prop {
        with_link(s, t)
    } else {
        s
    }
}

pub open spec fn step_end(s: ParseModel, name: Seq<u8>) -> ParseModel {
    if is_tag(name, "ObjectData"@) {
        ParseModel { in_object_data: false, ..s }
    } else if is_tag(name, "Object"@) && s.in_object_data {
        match s.cur_obj {
            Some(o) => ParseModel {
                objects: s.objects.push(ObjectModel { placement: s.cur_placement, ..o }),
                cur_obj: None,
                cur_placement: None,
                ..s
            },
            None => s,
        }
    } else if is_tag(name, "Property"@) && s.in_object_data {
        ParseModel { in_shape_prop: false, in_placement_prop: false, in_link_prop: false, ..s }
    } else {
        s
    }
}

pub open spec fn step_empty(s: ParseModel, t: TagModel) -> ParseModel {
    let s1 = if is_tag(t.name, "PropertyPlacement"@) && s.in_object_data && s.in_placement_prop {
        ParseModel { cur_placement: Some(placement_of(t)), ..s }
    } else if is_tag(t.name, "Part"@) && s.in_object_data && s.in_shape_prop {
        with_shape_file(s, t)
    } else if is_tag(t.name, "Link"@) && s.in_object_data && s.in_link_prop {
        with_link(s, t)
    } else {
        s
    };
    if is_tag(t.name, "Object"@) && !s1.in_object_data {
        declare(s1, t)
    } else {
        s1
    }
}

/// How one event changes the reader state.
pub open spec fn step(s: ParseModel, ev: EventModel) -> ParseModel {
    match ev {
        EventModel::Start(t) => step_start(s, t),
        EventModel::End(n) => step_end(s, n),
        EventModel::Empty(t) => step_empty(s, t),
        _ => s,
    }
}

/// The reader state after a sequence of events.
pub open spec fn run(events: Seq<EventModel>) -> ParseModel
    decreases events.len(),
{
    if events.len() == 0 {
        initial_model()
    } else {
        step(run(events.drop_last()), events.last())
    }
}

/// The placement an object is read with comes from the `PropertyPlacement`
/// element of its `Placement` property, field by field under the attribute
/// of the same name: reading `<ObjectData><Object><Property name="Placement"
/// type="App::PropertyPlacement"><PropertyPlacement .../></Property></Object>`
/// gives one object whose `px` is the last `Px` attribute's value, `q1` the
/// last `Q1`'s, `q2` the last `Q2`'s, and so on.
pub proof fn lemma_object_placement_comes_from_its_placement_property(
    d: TagModel,
    o: TagModel,
    p: TagModel,
    t: TagModel,
    end_prop: Seq<u8>,
    end_obj: Seq<u8>,
)
    requires
        is_tag(d.name, "ObjectData"@),
        is_tag(o.name, "Object"@),
        is_tag(p.name, "Property"@),
        attr_text(p, "name"@) == "Placement"@,
        attr_text(p, "type"@) == "App::PropertyPlacement"@,
        is_tag(t.name, "PropertyPlacement"@),
        is_tag(end_prop, "Property"@),
        is_tag(end_obj, "Object"@),
    ensures
        ({
            let s = run(
                seq![
                    EventModel::Start(d),
                    EventModel::Start(o),
                    EventModel::Start(p),
                    EventModel::Empty(t),
                    EventModel::End(end_prop),
                    EventModel::End(end_obj),
                ],
            );
            &&& s.objects.len() == 1
            &&& s.objects[0].placement matches Some(pl) && {
                &&& pl.px == last_attr(t.attributes, ascii_seq("Px"@))
                &&& pl.py == last_attr(t.attributes, ascii_seq("Py"@))
                &&& pl.pz == last_attr(t.attributes, ascii_seq("Pz"@))
                &&& pl.q0 == last_attr(t.attributes, ascii_seq("Q0"@))
                &&& pl.q1 == last_attr(t.attributes, ascii_seq("Q1"@))
                &&& pl.q2 == last_attr(t.attributes, ascii_seq("Q2"@))
                &&& pl.q3 == last_attr(t.attributes, ascii_seq("Q3"@))
            }
        }),
{
    reveal_strlit("Document");
    reveal_strlit("Object");
    reveal_strlit("ObjectData");
    reveal_strlit("Property");
    reveal_strlit("PropertyPlacement");
    assert(ascii_seq("Document"@).len() == 8 && ascii_seq("Object"@).len() == 6 && ascii_seq("ObjectData"@).len()
        == 10 && ascii_seq("Property"@).len() == 8 && ascii_seq("PropertyPlacement"@).len() == 17);
    assert(ascii_seq("Document"@)[0] != ascii_seq("Property"@)[0]);
    let e1 = EventModel::Start(d);
    let e2 = EventModel::Start(o);
    let e3 = EventModel::Start(p);
    let e4 = EventModel::Empty(t);
    let e5 = EventModel::End(end_prop);
    let e6 = EventModel::End(end_obj);
    let evs = seq![e1, e2, e3, e4, e5, e6];
    assert(evs.drop_last() =~= seq![e1, e2, e3, e4, e5]);
    assert(seq![e1, e2, e3, e4, e5].drop_last() =~= seq![e1, e2, e3, e4]);
    assert(seq![e1, e2, e3, e4].drop_last() =~= seq![e1, e2, e3]);
    assert(seq![e1, e2, e3].drop_last() =~= seq![e1, e2]);
    assert(seq![e1, e2].drop_last() =~= seq![e1]);
    assert(seq![e1].drop_last() =~= Seq::<EventModel>::empty());
    assert(run(Seq::<EventModel>::empty()) == initial_model());
    assert(seq![e1].last() == e1 && seq![e1, e2].last() == e2 && seq![e1, e2, e3].last() == e3);
    assert(seq![e1, e2, e3, e4].last() == e4 && seq![e1, e2, e3, e4, e5].last() == e5 && evs.last() == e6);
    let s1 = run(seq![e1]);
    assert(s1 == step_start(initial_model(), d));
    assert(s1.in_object_data && s1.objects.len() == 0);
    let s2 = run(seq![e1, e2]);
    assert(s2 == step_start(s1, o));
    assert(s2.in_object_data && s2.cur_obj is Some && s2.objects.len() == 0);
    let s3 = run(seq![e1, e2, e3]);
    assert(s3 == step_start(s2, p));
    assert(s3.in_object_data && s3.in_placement_prop && s3.cur_obj is Some && s3.objects.len() == 0);
    let s4 = run(seq![e1, e2, e3, e4]);
    assert(s4 == step_empty(s3, t));
    assert(s4.cur_placement == Some(placement_of(t)) && s4.cur_obj is Some && s4.in_object_data);
    let s5 = run(seq![e1, e2, e3, e4, e5]);
    assert(s5 == step_end(s4, end_prop));
    assert(s5.cur_placement == Some(placement_of(t)) && s5.cur_obj is Some && s5.in_object_data
        && s5.objects.len() == 0);
    let s6 = run(evs);
    assert(s6 == step_end(s5, end_obj));
}

// ---------------------------------------------------------------------------
// The reader.
// ---------------------------------------------------------------------------

/// Registry of declared object types: later declarations of a name win.
struct TypeRegistry {
    entries: Vec<(String, String)>,
}

spec fn registry_map(e: Seq<(String, String)>) -> Map<Seq<char>, Seq<char>>
    decreases e.len(),
{
    if e.len() == 0 {
        Map::empty()
    } else {
        registry_map(e.drop_last()).insert(e.last().0@, e.last().1@)
    }
}

proof fn lemma_registry_tail(e: Seq<(String, String)>, i: int, k: Seq<char>)
    requires
        0 <= i <= e.len(),
        forall|j: int| i <= j < e.len() ==> (#[trigger] e[j]).0@ != k,
    ensures
        registry_map(e).contains_key(k) == registry_map(e.take(i)).contains_key(k),
        registry_map(e).contains_key(k) ==> registry_map(e)[k] == registry_map(e.take(i))[k],
    decreases e.len() - i,
{
    if i < e.len() {
        assert(e.drop_last().take(i) =~= e.take(i));
        assert forall|j: int| i <= j < e.drop_last().len() implies (#[trigger] e.drop_last()[j]).0@ != k by {
            assert(e.drop_last()[j] == e[j]);
        }
        lemma_registry_tail(e.drop_last(), i, k);
        assert(e.last() == e[e.len() - 1]);
    } else {
        assert(e.take(i) =~= e);
    }
}

impl TypeRegistry {
    spec fn model(&self) -> Map<Seq<char>, Seq<char>> {
        registry_map(self.entries@)
    }

    fn new() -> (r: Self)
        ensures
            r.model() == Map::<Seq<char>, Seq<char>>::empty(),
    {
        TypeRegistry { entries: Vec::new() }
    }

    fn insert(&mut self, name: String, type_id: String)
        ensures
            final(self).model() == old(self).model().insert(name@, type_id@),
    {
        self.entries.push((name, type_id));
        assert(self.entries@.drop_last() =~= old(self).entries@);
    }

    /// The declared type of `name`, empty when undeclared.
    fn type_of(&self, name: &String) -> (t: String)
        ensures
            t@ == (if self.model().contains_key(name@) { self.model()[name@] } else { Seq::empty() }),
    {
        let mut i: usize = self.entries.len();
        while i > 0
            invariant
                i <= self.entries@.len(),
                forall|j: int| i <= j < self.entries@.len() ==> (#[trigger] self.entries@[j]).0@ != name@,
            decreases i,
        {
            let entry = &self.entries[i - 1];
            if str_equal(entry.0.as_str(), name.as_str()) {
                proof {
                    lemma_registry_tail(self.entries@, i as int, name@);
                    let t = self.entries@.take(i as int);
                    assert(t.drop_last() =~= self.entries@.take(i - 1));
                    assert(t.last() == self.entries@[i - 1]);
                }
                return entry.1.clone();
            }
            i = i - 1;
        }
        proof {
            lemma_registry_tail(self.entries@, 0, name@);
            assert(self.entries@.take(0) =~= Seq::<(String, String)>::empty());
        }
        String::new()
    }
}

proof fn lemma_last_attr_prefix(attrs: Seq<Option<AttrModel>>, key: Seq<u8>, i: int)
    requires
        0 <= i <= attrs.len(),
        forall|j: int|
            i <= j < attrs.len() ==> match #[trigger] attrs[j] {
                Some(a) => local_part(a.0) != key,
                None => true,
            },
    ensures
        last_attr(attrs, key) == last_attr(attrs.take(i), key),
    decreases attrs.len() - i,
{
    if i < attrs.len() {
        assert(attrs.drop_last().take(i) =~= attrs.take(i));
        assert forall|j: int| i <= j < attrs.drop_last().len() implies match #[trigger] attrs.drop_last()[j] {
            Some(a) => local_part(a.0) != key,
            None => true,
        } by {
            assert(attrs.drop_last()[j] == attrs[j]);
        }
        lemma_last_attr_prefix(attrs.drop_last(), key, i);
        assert(attrs.last() == attrs[attrs.len() - 1]);
    } else {
        assert(attrs.take(i) =~= attrs);
    }
}

/// The raw value of the last readable attribute whose local key is `key`.
fn last_attribute<'a>(tag: &'a XmlTag, key: &str) -> (r: Option<&'a Vec<u8>>)
    requires
        vstd::string::is_ascii(key),
    ensures
        match r {
            Some(v) => last_attr(tag.model().attributes, ascii_seq(key@)) == Some(v@),
            None => last_attr(tag.model().attributes, ascii_seq(key@)) is None,
        },
{
    let key_bytes = ascii_bytes(key);
    let ghost attrs = tag.model().attributes;
    let mut i: usize = tag.attributes.len();
    while i > 0
        invariant
            i <= tag.attributes@.len(),
            attrs == tag.model().attributes,
            attrs.len() == tag.attributes@.len(),
            key_bytes@ == ascii_seq(key@),
            forall|j: int|
                i <= j < attrs.len() ==> match #[trigger] attrs[j] {
                    Some(a) => local_part(a.0) != ascii_seq(key@),
                    None => true,
                },
        decreases i,
    {
        assert(attrs[i - 1] == attr_model(tag.attributes@[i - 1]));
        match &tag.attributes[i - 1] {
            Some(a) => {
                let local = local_name(a.key.as_slice());
                if bytes_equal(local, key_bytes) {
                    proof {
                        lemma_last_attr_prefix(attrs, ascii_seq(key@), i as int);
                        let t = attrs.take(i as int);
                        assert(t.last() == attrs[i - 1]);
                    }
                    return Some(&a.value);
                }
            },
            None => {},
        }
        i = i - 1;
    }
    proof {
        lemma_last_attr_prefix(attrs, ascii_seq(key@), 0);
        assert(attrs.take(0) =~= Seq::<Option<AttrModel>>::empty());
    }
    None
}

/// An owned copy of optional bytes.
fn copy_bytes(o: Option<&Vec<u8>>) -> (r: Option<Vec<u8>>)
    ensures
        match o {
            Some(v) => r matches Some(c) && c@ == v@,
            None => r is None,
        },
{
    match o {
        Some(v) => Some(copy_vec(v)),
        None => None,
    }
}

/// The text of the last attribute with local key `key`, empty when absent.
fn attribute_text(tag: &XmlTag, key: &str) -> (s: String)
    requires
        vstd::string::is_ascii(key),
    ensures
        s@ == attr_text(tag.model(), key@),
{
    match last_attribute(tag, key) {
        Some(v) => lossy_string(v.as_slice()),
        None => String::new(),
    }
}

/// Whether a qualified name has local part `lit`.
fn tag_is(name: &[u8], lit: &str) -> (b: bool)
    requires
        vstd::string::is_ascii(lit),
    ensures
        b == is_tag(name@, lit@),
{
    let local = local_name(name);
    bytes_equal(local, ascii_bytes(lit))
}

/// Incremental reader of `Document.xml` events.
pub struct FcStdParser {
    doc: FcStdDocument,
    decl: TypeRegistry,
    in_object_data: bool,
    in_shape_prop: bool,
    in_placement_prop: bool,
    in_link_prop: bool,
    cur_obj: Option<FcStdObject>,
    cur_placement: Option<RawPlacement>,
}

pub open spec fn opt_object(o: Option<FcStdObject>) -> Option<ObjectModel> {
    match o {
        Some(o) => Some(o.model()),
        None => None,
    }
}

impl FcStdParser {
    /// The reader state as a [`ParseModel`].
    pub closed spec fn model(&self) -> ParseModel {
        ParseModel {
            program_version: self.doc.program_version@,
            objects: objects_model(self.doc.objects@),
            decl: self.decl.model(),
            in_object_data: self.in_object_data,
            in_shape_prop: self.in_shape_prop,
            in_placement_prop: self.in_placement_prop,
            in_link_prop: self.in_link_prop,
            cur_obj: opt_object(self.cur_obj),
            cur_placement: opt_placement(self.cur_placement),
        }
    }

    pub fn new() -> (p: Self)
        ensures
            p.model() == initial_model(),
    {
        let p = FcStdParser {
            doc: FcStdDocument { program_version: String::new(), objects: Vec::new() },
            decl: TypeRegistry::new(),
            in_object_data: false,
            in_shape_prop: false,
            in_placement_prop: false,
            in_link_prop: false,
            cur_obj: None,
            cur_placement: None,
        };
        assert(objects_model(p.doc.objects@) =~= Seq::<ObjectModel>::empty());
        p
    }

    fn declare(&mut self, tag: &XmlTag)
        ensures
            final(self).model() == declare(old(self).model(), tag.model()),
    {
        proof {
            reveal_strlit("name");
            reveal_strlit("type");
        }
        let name = attribute_text(tag, "name");
        let type_id = attribute_text(tag, "type");
        self.decl.insert(name, type_id);
    }

    fn placement(tag: &XmlTag) -> (p: RawPlacement)
        ensures
            p.model() == placement_of(tag.model()),
    {
        proof {
            reveal_strlit("Px");
            reveal_strlit("Py");
            reveal_strlit("Pz");
            reveal_strlit("Q0");
            reveal_strlit("Q1");
            reveal_strlit("Q2");
            reveal_strlit("Q3");
        }
        RawPlacement {
            px: copy_bytes(last_attribute(tag, "Px")),
            py: copy_bytes(last_attribute(tag, "Py")),
            pz: copy_bytes(last_attribute(tag, "Pz")),
            q0: copy_bytes(last_attribute(tag, "Q0")),
            q1: copy_bytes(last_attribute(tag, "Q1")),
            q2: copy_bytes(last_attribute(tag, "Q2")),
            q3: copy_bytes(last_attribute(tag, "Q3")),
        }
    }

    fn attach_shape_file(&mut self, tag: &XmlTag)
        ensures
            final(self).model() == with_shape_file(old(self).model(), tag.model()),
    {
        proof {
            reveal_strlit("file");
        }
        if let Some(v) = last_attribute(tag, "file") {
            let file = lossy_string(v.as_slice());
            match self.cur_obj.take() {
                Some(mut obj) => {
                    obj.shape_file = Some(file);
                    self.cur_obj = Some(obj);
                },
                None => {},
            }
        }
    }

    fn attach_link(&mut self, tag: &XmlTag)
        ensures
            final(self).model() == with_link(old(self).model(), tag.model()),
    {
        proof {
            reveal_strlit("value");
        }
        if let Some(v) = last_attribute(tag, "value") {
            if v.len() > 0 {
                let target = lossy_string(v.as_slice());
                match self.cur_obj.take() {
                    Some(mut obj) => {
                        let ghost before = obj.links@;
                        obj.links.push(target);
                        assert(obj.links@.map_values(|l: String| l@) =~= before.map_values(|l: String| l@).push(
                            target@,
                        ));
                        self.cur_obj = Some(obj);
                    },
                    None => {},
                }
            }
        }
    }

    fn start(&mut self, tag: &XmlTag)
        ensures
            final(self).model() == step_start(old(self).model(), tag.model()),
    {
        proof {
            reveal_strlit("Document");
            reveal_strlit("Object");
            reveal_strlit("ObjectData");
            reveal_strlit("Property");
            reveal_strlit("PropertyPlacement");
            reveal_strlit("Part");
            reveal_strlit("Link");
            reveal_strlit("ProgramVersion");
            reveal_strlit("name");
            reveal_strlit("type");
        }
        let name = tag.name.as_slice();
        if tag_is(name, "Document") {
            if let Some(v) = last_attribute(tag, "ProgramVersion") {
                self.doc.program_version = lossy_string(v.as_slice());
            }
        } else if tag_is(name, "Object") && !self.in_object_data {
            self.declare(tag);
        } else if tag_is(name, "ObjectData") {
            self.in_object_data = true;
        } else if tag_is(name, "Object") && self.in_object_data {
            let obj_name = attribute_text(tag, "name");
            let type_id = self.decl.type_of(&obj_name);
            self.cur_obj = Some(
                FcStdObject { name: obj_name, type_id, placement: None, shape_file: None, links: Vec::new() },
            );
            self.cur_placement = None;
            assert(Seq::<String>::empty().map_values(|l: String| l@) =~= Seq::<Seq<char>>::empty());
        } else if tag_is(name, "Property") && self.in_object_data {
            let pname = attribute_text(tag, "name");
            let ptype = attribute_text(tag, "type");
            if str_equal(ptype.as_str(), "App::PropertyPlacement") && str_equal(pname.as_str(), "Placement") {
                self.cur_placement = Some(RawPlacement::identity());
                self.in_placement_prop = true;
            }
            if str_equal(ptype.as_str(), "App::PropertyLink") {
                self.in_link_prop = true;
            }
            if str_equal(pname.as_str(), "Shape") && str_equal(ptype.as_str(), "Part::PropertyPartShape") {
                self.in_shape_prop = true;
            }
        } else if tag_is(name, "PropertyPlacement") && self.in_object_data && self.in_placement_prop {
            self.cur_placement = Some(Self::placement(tag));
        } else if tag_is(name, "Part") && self.in_object_data && self.in_shape_prop {
            self.attach_shape_file(tag);
        } else if tag_is(name, "Link") && self.in_object_data && self.in_link_prop {
            self.attach_link(tag);
        }
    }

    fn end(&mut self, name: &Vec<u8>)
        ensures
            final(self).model() == step_end(old(self).model(), name@),
    {
        proof {
            reveal_strlit("Object");
            reveal_strlit("ObjectData");
            reveal_strlit("Property");
        }
        let name = name.as_slice();
        if tag_is(name, "ObjectData") {
            self.in_object_data = false;
        } else if tag_is(name, "Object") && self.in_object_data {
            match self.cur_obj.take() {
                Some(mut obj) => {
                    obj.placement = self.cur_placement.take();
                    let ghost before = self.doc.objects@;
                    self.doc.objects.push(obj);
                    assert(objects_model(self.doc.objects@) =~= objects_model(before).push(obj.model()));
                },
                None => {},
            }
        } else if tag_is(name, "Property") && self.in_object_data {
            self.in_shape_prop = false;
            self.in_placement_prop = false;
            self.in_link_prop = false;
        }
    }

    fn empty(&mut self, tag: &XmlTag)
        ensures
            final(self).model() == step_empty(old(self).model(), tag.model()),
    {
        proof {
            reveal_strlit("Object");
            reveal_strlit("PropertyPlacement");
            reveal_strlit("Part");
            reveal_strlit("Link");
        }
        let name = tag.name.as_slice();
        if tag_is(name, "PropertyPlacement") && self.in_object_data && self.in_placement_prop {
            self.cur_placement = Some(Self::placement(tag));
        } else if tag_is(name, "Part") && self.in_object_data && self.in_shape_prop {
            self.attach_shape_file(tag);
        } else if tag_is(name, "Link") && self.in_object_data && self.in_link_prop {
            self.attach_link(tag);
        }
        if tag_is(name, "Object") && !self.in_object_data {
            self.declare(tag);
        }
    }

    /// Takes one event into account.
    pub fn feed(&mut self, event: &XmlEvent)
        ensures
            final(self).model() == step(old(self).model(), event.model()),
    {
        match event {
            XmlEvent::Start(tag) => self.start(tag),
            XmlEvent::End(name) => self.end(name),
            XmlEvent::Empty(tag) => self.empty(tag),
            XmlEvent::Eof => {},
            XmlEvent::Other => {},
        }
    }

    /// The document read so far.
    pub fn finish(self) -> (doc: FcStdDocument)
        ensures
            doc.program_version@ == self.model().program_version,
            objects_model(doc.objects@) == self.model().objects,
    {
        self.doc
    }
}

/// Reads a document from its event sequence (events after the first `Eof`
/// included, which carry no further meaning).
pub fn parse_document_events(events: &[XmlEvent]) -> (doc: FcStdDocument)
    ensures
        doc.program_version@ == run(events_model(events@)).program_version,
        objects_model(doc.objects@) == run(events_model(events@)).objects,
{
    let mut parser = FcStdParser::new();
    let ghost evs = events_model(events@);
    let mut i: usize = 0;
    while i < events.len()
        invariant
            i <= events@.len(),
            evs == events_model(events@),
            parser.model() == run(evs.take(i as int)),
        decreases events@.len() - i,
    {
        parser.feed(&events[i]);
        proof {
            let t = evs.take(i + 1);
            assert(t.drop_last() =~= evs.take(i as int));
            assert(t.last() == events@[i as int].model());
        }
        i = i + 1;
    }
    assert(evs.take(events@.len() as int) =~= evs);
    parser.finish()
}

/// Parses `Document.xml` bytes into a shallow document description: object
/// declarations (type, name), then the `ObjectData` pass with placements,
/// shape payload references and links. The document is the reading of the
/// events the tokenizer yields for the bytes (see [`parse_document_events`]
/// for the rules); the tokenizer's first error is reported as `Xml` with its
/// message.
pub fn parse_document_xml(xml: &[u8]) -> (r: Result<FcStdDocument, FcStdError>)
    ensures
        match xml_tokens(xml@) {
            Ok(evs) => r matches Ok(doc) && doc.program_version@ == run(evs).program_version && objects_model(
                doc.objects@,
            ) == run(evs).objects,
            Err(m) => r matches Err(FcStdError::Xml(t)) && t@ == m,
        },
{
    match xml_events(xml) {
        Ok(events) => Ok(parse_document_events(events.as_slice())),
        Err(message) => Err(FcStdError::Xml(message)),
    }
}

} // verus!
