//! Opening a `.FCStd` payload: a ZIP archive holding `Document.xml` and one
//! `*.brp` entry (an OCCT BRep shape) per shape-bearing object.

use vstd::prelude::*;

use std::io::Read;

use crate::io::fcstd::{objects_model, parse_document_xml, run, shape_bearing, FcStdDocument, FcStdError, FcStdObject};
use crate::io::entry_order::{lemma_lex_irreflexive, name_key, names_ascending, occurs_in, sort_by_name};
use crate::io::xml::xml_tokens;
use crate::text::{has_char_suffix, str_ends_with, str_equal};

verus! {

#[verifier::external_type_specification]
#[verifier::external_body]
#[verifier::reject_recursive_types(R)]
pub struct ExZipArchive<R>(zip::ZipArchive<R>);

#[verifier::external_type_specification]
#[verifier::external_body]
#[verifier::reject_recursive_types(T)]
pub struct ExCursor<T>(std::io::Cursor<T>);

/// The entries of an open archive, by name: `Some` with the bytes the entry
/// decompresses to when it can be opened and read to the end, `None` for an
/// entry that cannot.
pub uninterp spec fn zip_entries(archive: zip::ZipArchive<std::io::Cursor<Vec<u8>>>) -> Map<Seq<char>, Option<Seq<u8>>>;

/// Whether `data` is a ZIP archive the reader accepts.
pub uninterp spec fn zip_readable(data: Seq<u8>) -> bool;

/// The entries of the ZIP archive stored in `data`, as [`zip_entries`]
/// gives them.
pub uninterp spec fn zip_contents(data: Seq<u8>) -> Map<Seq<char>, Option<Seq<u8>>>;

/// `zip::ZipArchive::new` over the payload bytes: `None` exactly when the
/// reader refuses them; otherwise an archive holding the entries stored in
/// the bytes.
#[verifier::external_body]
fn zip_open(data: Vec<u8>) -> (r: Option<zip::ZipArchive<std::io::Cursor<Vec<u8>>>>)
    ensures
        r is Some <==> zip_readable(data@),
        r matches Some(z) ==> zip_entries(z) == zip_contents(data@),
{
    zip::ZipArchive::new(std::io::Cursor::new(data)).ok()
}

/// `zip::ZipArchive::file_names`: the name of every entry, each once.
#[verifier::external_body]
fn zip_entry_names(archive: &zip::ZipArchive<std::io::Cursor<Vec<u8>>>) -> (names: Vec<String>)
    ensures
        forall|i: int| 0 <= i < names@.len() ==> zip_entries(*archive).contains_key(#[trigger] names@[i]@),
        forall|i: int, j: int| 0 <= i < j < names@.len() ==> names@[i]@ != names@[j]@,
        forall|k: Seq<char>|
            #[trigger] zip_entries(*archive).contains_key(k) ==> exists|i: int| 0 <= i < names@.len() && names@[i]@ == k,
{
    archive.file_names().map(str::to_owned).collect()
}

/// `zip::ZipArchive::by_name` followed by `Read::read_to_end` on the entry:
/// `Err` when the archive has no entry of that name or cannot open it,
/// `Ok(Err)` when it cannot be read to the end, `Ok(Ok(bytes))` with the
/// entry's bytes otherwise. The archive's entries do not change.
#[verifier::external_body]
fn zip_read(archive: &mut zip::ZipArchive<std::io::Cursor<Vec<u8>>>, name: &str) -> (r: Result<Result<Vec<u8>, ()>, ()>)
    ensures
        zip_entries(*final(archive)) == zip_entries(*old(archive)),
        !zip_entries(*old(archive)).contains_key(name@) ==> r is Err,
        zip_entries(*old(archive)).contains_key(name@) ==> match zip_entries(*old(archive))[name@] {
            Some(b) => r matches Ok(Ok(bytes)) && bytes@ == b,
            None => !(r matches Ok(Ok(_))),
        },
{
    let mut entry = archive.by_name(name).map_err(|_| ())?;
    let mut bytes = Vec::new();
    Ok(entry.read_to_end(&mut bytes).map(|_| bytes).map_err(|_| ()))
}

/// Whether an entry name is a shape payload (`*.brp`).
pub open spec fn is_brp(name: Seq<char>) -> bool {
    has_char_suffix(name, ".brp"@)
}

/// `shapes` holds every readable `*.brp` entry of `entries`, each once with
/// its bytes, and nothing else.
pub open spec fn all_brp_payloads(shapes: Seq<(String, Vec<u8>)>, entries: Map<Seq<char>, Option<Seq<u8>>>) -> bool {
    &&& forall|i: int|
        0 <= i < shapes.len() ==> is_brp((#[trigger] shapes[i]).0@) && entries.contains_key(shapes[i].0@)
            && entries[shapes[i].0@] == Some(shapes[i].1@)
    &&& forall|i: int, j: int| 0 <= i < j < shapes.len() ==> shapes[i].0@ != shapes[j].0@
    &&& forall|k: Seq<char>|
        #[trigger] entries.contains_key(k) && is_brp(k) && entries[k] is Some ==> exists|i: int|
            0 <= i < shapes.len() && shapes[i].0@ == k
}

/// Some `*.brp` entry of `entries` cannot be read.
pub open spec fn some_brp_unreadable(entries: Map<Seq<char>, Option<Seq<u8>>>) -> bool {
    exists|k: Seq<char>| #[trigger] entries.contains_key(k) && is_brp(k) && entries[k] is None
}

/// An opened `.FCStd` payload: the parsed document and every `*.brp` entry,
/// keyed by its entry name (each name once, in ascending byte order of the names).
pub struct FcStdArchive {
    pub document: FcStdDocument,
    pub shapes: Vec<(String, Vec<u8>)>,
}

/// The payload stored under `name`, the first one when several are.
pub open spec fn payload_named(shapes: Seq<(String, Vec<u8>)>, name: Seq<char>) -> Option<Seq<u8>>
    decreases shapes.len(),
{
    if shapes.len() == 0 {
        None
    } else if shapes[0].0@ == name {
        Some(shapes[0].1@)
    } else {
        payload_named(shapes.drop_first(), name)
    }
}

proof fn lemma_payload_named_skip(shapes: Seq<(String, Vec<u8>)>, name: Seq<char>, i: int)
    requires
        0 <= i <= shapes.len(),
        forall|j: int| 0 <= j < i ==> (#[trigger] shapes[j]).0@ != name,
    ensures
        payload_named(shapes, name) == payload_named(shapes.subrange(i, shapes.len() as int), name),
    decreases i,
{
    if i > 0 {
        lemma_payload_named_skip(shapes, name, i - 1);
        let s = shapes.subrange(i - 1, shapes.len() as int);
        assert(s[0] == shapes[i - 1]);
        assert(s.drop_first() =~= shapes.subrange(i, shapes.len() as int));
    } else {
        assert(shapes.subrange(0, shapes.len() as int) =~= shapes);
    }
}

/// The payload of `obj` in `shapes`, when it names one that is present.
pub open spec fn object_payload(shapes: Seq<(String, Vec<u8>)>, obj: FcStdObject) -> Option<Seq<u8>> {
    match obj.shape_file {
        Some(f) => payload_named(shapes, f@),
        None => None,
    }
}

/// The payload of the first object of `objects` whose payload is present.
pub open spec fn first_payload(shapes: Seq<(String, Vec<u8>)>, objects: Seq<FcStdObject>) -> Option<Seq<u8>>
    decreases objects.len(),
{
    if objects.len() == 0 {
        None
    } else {
        match object_payload(shapes, objects[0]) {
            Some(p) => Some(p),
            None => first_payload(shapes, objects.drop_first()),
        }
    }
}

/// The chosen payload belongs to the first object, in order, whose payload
/// is present: some object `i` has it, and no object before `i` has a
/// present payload; when nothing is chosen, no object has one.
pub proof fn lemma_first_payload_is_the_earliest_present(
    shapes: Seq<(String, Vec<u8>)>,
    objects: Seq<FcStdObject>,
)
    ensures
        first_payload(shapes, objects) matches Some(p) ==> exists|i: int|
            0 <= i < objects.len() && object_payload(shapes, #[trigger] objects[i]) == Some(p) && forall|k: int|
                0 <= k < i ==> object_payload(shapes, #[trigger] objects[k]) is None,
        first_payload(shapes, objects) is None ==> forall|i: int|
            0 <= i < objects.len() ==> object_payload(shapes, #[trigger] objects[i]) is None,
    decreases objects.len(),
{
    if objects.len() > 0 {
        let rest = objects.drop_first();
        lemma_first_payload_is_the_earliest_present(shapes, rest);
        if object_payload(shapes, objects[0]) is Some {
            assert(object_payload(shapes, objects[0]) == first_payload(shapes, objects));
        } else {
            if first_payload(shapes, rest) is Some {
                let p = first_payload(shapes, rest)->0;
                let i = choose|i: int|
                    0 <= i < rest.len() && object_payload(shapes, #[trigger] rest[i]) == Some(p) && forall|k: int|
                        0 <= k < i ==> object_payload(shapes, #[trigger] rest[k]) is None;
                assert(objects[i + 1] == rest[i]);
                assert forall|k: int| 0 <= k < i + 1 implies object_payload(shapes, #[trigger] objects[k]) is None by {
                    if k > 0 {
                        assert(objects[k] == rest[k - 1]);
                    }
                }
            } else {
                assert forall|i: int| 0 <= i < objects.len() implies object_payload(shapes, #[trigger] objects[i]) is None by {
                    if i > 0 {
                        assert(objects[i] == rest[i - 1]);
                    }
                }
            }
        }
    }
}

impl FcStdArchive {
    /// Shape bytes for an object, resolved via its shape file reference.
    pub fn shape_of(&self, obj: &FcStdObject) -> (r: Option<&[u8]>)
        ensures
            match object_payload(self.shapes@, *obj) {
                Some(p) => r matches Some(b) && b@ == p,
                None => r is None,
            },
    {
        let file = match &obj.shape_file {
            Some(f) => f,
            None => return None,
        };
        let mut i: usize = 0;
        while i < self.shapes.len()
            invariant
                i <= self.shapes@.len(),
                obj.shape_file == Some(*file),
                forall|j: int| 0 <= j < i ==> (#[trigger] self.shapes@[j]).0@ != file@,
            decreases self.shapes@.len() - i,
        {
            if str_equal(self.shapes[i].0.as_str(), file.as_str()) {
                proof {
                    lemma_payload_named_skip(self.shapes@, file@, i as int);
                    let s = self.shapes@.subrange(i as int, self.shapes@.len() as int);
                    assert(s[0] == self.shapes@[i as int]);
                }
                return Some(self.shapes[i].1.as_slice());
            }
            i = i + 1;
        }
        proof {
            lemma_payload_named_skip(self.shapes@, file@, i as int);
        }
        None
    }

    /// The payload of the first shape-bearing object (in document order)
    /// whose payload the archive holds; `NoShapePayload` when there is none.
    pub fn first_shape_payload(&self) -> (r: Result<&[u8], FcStdError>)
        ensures
            match first_payload(self.shapes@, shape_bearing(self.document.objects@)) {
                Some(p) => r matches Ok(b) && b@ == p,
                None => r == Err::<&[u8], FcStdError>(FcStdError::NoShapePayload),
            },
            r matches Ok(b) ==> exists|i: int|
                0 <= i < shape_bearing(self.document.objects@).len() && object_payload(
                    self.shapes@,
                    #[trigger] shape_bearing(self.document.objects@)[i],
                ) == Some(b@) && forall|k: int|
                    0 <= k < i ==> object_payload(self.shapes@, #[trigger] shape_bearing(self.document.objects@)[k])
                        is None,
            r is Err ==> forall|i: int|
                0 <= i < shape_bearing(self.document.objects@).len() ==> object_payload(
                    self.shapes@,
                    #[trigger] shape_bearing(self.document.objects@)[i],
                ) is None,
    {
        proof {
            lemma_first_payload_is_the_earliest_present(self.shapes@, shape_bearing(self.document.objects@));
        }
        let objects = self.document.shape_objects();
        let ghost objs = shape_bearing(self.document.objects@);
        assert(objects@.map_values(|o: &FcStdObject| *o) == objs);
        assert(objs.subrange(0, objs.len() as int) =~= objs);
        let mut i: usize = 0;
        while i < objects.len()
            invariant
                i <= objects@.len(),
                objects@.len() == objs.len(),
                objs == shape_bearing(self.document.objects@),
                forall|k: int| 0 <= k < objs.len() ==> *objects@[k] == objs[k],
                first_payload(self.shapes@, objs) == first_payload(self.shapes@, objs.subrange(i as int, objs.len() as int)),
            decreases objects@.len() - i,
        {
            assert(*objects@[i as int] == objs[i as int]);
            let ghost sub = objs.subrange(i as int, objs.len() as int);
            assert(sub[0] == objs[i as int]);
            assert(sub.drop_first() =~= objs.subrange(i + 1, objs.len() as int));
            if let Some(bytes) = self.shape_of(objects[i]) {
                assert(object_payload(self.shapes@, sub[0]) == Some(bytes@));
                assert(first_payload(self.shapes@, sub) == Some(bytes@));
                proof {
                    lemma_first_payload_is_the_earliest_present(self.shapes@, objs);
                }
                return Ok(bytes);
            }
            i = i + 1;
        }
        assert(objs.subrange(i as int, objs.len() as int) =~= Seq::<FcStdObject>::empty());
        Err(FcStdError::NoShapePayload)
    }
}

/// Reads every `*.brp` entry listed in `names` (every entry of the archive,
/// each once): `Err` as soon as one cannot be opened; one that opens but
/// cannot be read is left out.
#[verifier::rlimit(40)]
fn collect_brp(zip: &mut zip::ZipArchive<std::io::Cursor<Vec<u8>>>, names: &Vec<String>) -> (r: Result<
    Vec<(String, Vec<u8>)>,
    (),
>)
    requires
        forall|i: int| 0 <= i < names@.len() ==> zip_entries(*old(zip)).contains_key(#[trigger] names@[i]@),
        forall|i: int, j: int| 0 <= i < j < names@.len() ==> names@[i]@ != names@[j]@,
        forall|k: Seq<char>|
            #[trigger] zip_entries(*old(zip)).contains_key(k) ==> exists|i: int| 0 <= i < names@.len() && names@[i]@ == k,
    ensures
        zip_entries(*final(zip)) == zip_entries(*old(zip)),
        r matches Ok(shapes) ==> all_brp_payloads(shapes@, zip_entries(*old(zip))) && names_ascending(shapes@),
        r is Err ==> some_brp_unreadable(zip_entries(*old(zip))),
{
    let ghost entries = zip_entries(*zip);
    let mut shapes: Vec<(String, Vec<u8>)> = Vec::new();
    let mut i: usize = 0;
    while i < names.len()
        invariant
            i <= names@.len(),
            zip_entries(*zip) == entries,
            entries == zip_entries(*old(zip)),
            forall|k: int| 0 <= k < names@.len() ==> entries.contains_key(#[trigger] names@[k]@),
            forall|k: int, m: int| 0 <= k < m < names@.len() ==> names@[k]@ != names@[m]@,
            forall|k: int|
                0 <= k < shapes@.len() ==> is_brp((#[trigger] shapes@[k]).0@) && entries.contains_key(
                    shapes@[k].0@,
                ) && entries[shapes@[k].0@] == Some(shapes@[k].1@),
            forall|k: int|
                0 <= k < shapes@.len() ==> exists|m: int| 0 <= m < i && (#[trigger] shapes@[k]).0@ == names@[m]@,
            forall|k: int, m: int| 0 <= k < m < shapes@.len() ==> shapes@[k].0@ != shapes@[m].0@,
            forall|m: int|
                0 <= m < i && is_brp(#[trigger] names@[m]@) && entries[names@[m]@] is Some ==> exists|k: int|
                    0 <= k < shapes@.len() && shapes@[k].0@ == names@[m]@,
        decreases names@.len() - i,
    {
        let name = &names[i];
        if str_ends_with(name.as_str(), ".brp") {
            match zip_read(zip, name.as_str()) {
                Err(()) => {
                    let ghost k = names@[i as int]@;
                    assert(entries.contains_key(k) && is_brp(k) && entries[k] is None);
                    return Err(());
                },
                Ok(Err(())) => {},
                Ok(Ok(payload)) => {
                    let ghost before = shapes@;
                    proof {
                        assert forall|k: int| 0 <= k < before.len() implies before[k].0@ != name@ by {
                            let m = choose|m: int| 0 <= m < i && before[k].0@ == names@[m]@;
                            assert(names@[m]@ != names@[i as int]@);
                        }
                    }
                    shapes.push((name.clone(), payload));
                    proof {
                        assert(shapes@[before.len() as int].0@ == names@[i as int]@);
                        assert forall|k: int| 0 <= k < shapes@.len() implies exists|m: int|
                            0 <= m < i + 1 && (#[trigger] shapes@[k]).0@ == names@[m]@ by {
                            if k < before.len() {
                                assert(shapes@[k] == before[k]);
                                let m = choose|m: int| 0 <= m < i && before[k].0@ == names@[m]@;
                                assert(0 <= m < i + 1 && shapes@[k].0@ == names@[m]@);
                            } else {
                                assert(0 <= i < i + 1 && shapes@[k].0@ == names@[i as int]@);
                            }
                        }
                        assert forall|m: int|
                            0 <= m < i + 1 && is_brp(#[trigger] names@[m]@) && entries[names@[m]@] is Some implies exists|k: int|
                                0 <= k < shapes@.len() && shapes@[k].0@ == names@[m]@ by {
                            if m < i {
                                let k = choose|k: int| 0 <= k < before.len() && before[k].0@ == names@[m]@;
                                assert(shapes@[k] == before[k]);
                            } else {
                                assert(shapes@[before.len() as int].0@ == names@[m]@);
                            }
                        }
                    }
                },
            }
        }
        i = i + 1;
    }
    proof {
        assert forall|k: Seq<char>|
            #[trigger] entries.contains_key(k) && is_brp(k) && entries[k] is Some implies exists|j: int|
                0 <= j < shapes@.len() && shapes@[j].0@ == k by {
            let m = choose|m: int| 0 <= m < names@.len() && names@[m]@ == k;
            assert(is_brp(names@[m]@));
        }
    }
    let sorted = sort_by_name(shapes);
    proof {
        reveal(occurs_in);
        assert forall|i: int| 0 <= i < sorted@.len() implies is_brp((#[trigger] sorted@[i]).0@) && entries.contains_key(
            sorted@[i].0@,
        ) && entries[sorted@[i].0@] == Some(sorted@[i].1@) by {
            assert(occurs_in(sorted@[i], shapes@));
        }
        assert forall|i: int, j: int| 0 <= i < j < sorted@.len() implies sorted@[i].0@ != sorted@[j].0@ by {
            if sorted@[i].0@ == sorted@[j].0@ {
                lemma_lex_irreflexive(name_key(sorted@[i].0@));
            }
        }
        assert forall|k: Seq<char>|
            #[trigger] entries.contains_key(k) && is_brp(k) && entries[k] is Some implies exists|j: int|
                0 <= j < sorted@.len() && sorted@[j].0@ == k by {
            let j = choose|j: int| 0 <= j < shapes@.len() && shapes@[j].0@ == k;
            assert(occurs_in(shapes@[j], sorted@));
        }
    }
    Ok(sorted)
}

/// What opening `data` gives once its `Document.xml` bytes `xml` have been
/// read: the tokenizer's error, or the document read from its events with
/// every readable `*.brp` entry; an `Io` error instead when some `*.brp`
/// entry cannot be opened.
pub open spec fn archive_outcome(data: Seq<u8>, xml: Seq<u8>, r: Result<FcStdArchive, FcStdError>) -> bool {
    match xml_tokens(xml) {
        Err(m) => r matches Err(FcStdError::Xml(t)) && t@ == m,
        Ok(evs) => {
            ||| (r matches Ok(a) && a.document.program_version@ == run(evs).program_version && objects_model(
                a.document.objects@,
            ) == run(evs).objects && all_brp_payloads(a.shapes@, zip_contents(data)) && names_ascending(a.shapes@))
            ||| (r == Err::<FcStdArchive, FcStdError>(FcStdError::Io) && some_brp_unreadable(zip_contents(data)))
        },
    }
}

/// Opens a `.FCStd` payload (ZIP bytes): parses `Document.xml` and collects
/// every `*.brp` payload with its entry name, in ascending byte order of the names.
///
/// - bytes the ZIP reader refuses: `NotAZip`;
/// - no `Document.xml` entry: `NoDocumentXml`; one that cannot be opened:
///   `NoDocumentXml`, or `Io` when it opens but cannot be read;
/// - a tokenizer error in `Document.xml`: `Xml` with its message;
/// - a `*.brp` entry that cannot be opened: `Io`; one that opens but cannot
///   be read is left out.
pub fn open_archive(data: &[u8]) -> (r: Result<FcStdArchive, FcStdError>)
    ensures
        !zip_readable(data@) ==> r == Err::<FcStdArchive, FcStdError>(FcStdError::NotAZip),
        zip_readable(data@) && !zip_contents(data@).contains_key("Document.xml"@) ==> r == Err::<
            FcStdArchive,
            FcStdError,
        >(FcStdError::NoDocumentXml),
        zip_readable(data@) && zip_contents(data@).contains_key("Document.xml"@) ==> match zip_contents(
            data@,
        )["Document.xml"@] {
            None => r == Err::<FcStdArchive, FcStdError>(FcStdError::NoDocumentXml) || r == Err::<
                FcStdArchive,
                FcStdError,
            >(FcStdError::Io),
            Some(xml) => archive_outcome(data@, xml, r),
        },
{
    let bytes = vstd::slice::slice_to_vec(data);
    let mut zip = match zip_open(bytes) {
        Some(z) => z,
        None => return Err(FcStdError::NotAZip),
    };
    let ghost entries = zip_entries(zip);
    let xml_bytes = match zip_read(&mut zip, "Document.xml") {
        Err(()) => return Err(FcStdError::NoDocumentXml),
        Ok(Err(())) => return Err(FcStdError::Io),
        Ok(Ok(b)) => b,
    };
    let document = parse_document_xml(xml_bytes.as_slice())?;
    let names = zip_entry_names(&zip);
    match collect_brp(&mut zip, &names) {
        Ok(shapes) => Ok(FcStdArchive { document, shapes }),
        Err(()) => Err(FcStdError::Io),
    }
}


} // verus!
