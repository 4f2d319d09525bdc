use std::io::Write;

use freecad::io::fcstd::{parse_document_events, parse_document_xml, FcStdError, RawPlacement};
use freecad::io::xml::{local_name, XmlAttribute, XmlEvent, XmlTag};
use freecad::io::zip_archive::open_archive;
use freecad::io::{fcstd_kernel_error, Format};
use freecad::kernel::KernelErrorKind;

const DOC: &str = r#"<?xml version='1.0' encoding='utf-8'?>
<Document SchemaVersion="4" ProgramVersion="0.21R1">
  <Properties Count="1">
    <Property name="Comment" type="App::PropertyString"><String value=""/></Property>
  </Properties>
  <Objects Count="3">
    <Object type="Part::Box" name="Box" id="1"/>
    <Object type="Sketcher::SketchObject" name="Sketch" id="2"/>
    <Object type="App::Origin" name="Origin" id="3"/>
  </Objects>
  <ObjectData Count="3">
    <Object name="Box">
      <Properties Count="2">
        <Property name="Placement" type="App::PropertyPlacement">
          <PropertyPlacement Px="1.5" Py="2" Pz="-3" Q0="0" Q1="0" Q2="0.7071" Q3="0.7071"/>
        </Property>
        <Property name="Shape" type="Part::PropertyPartShape">
          <Part file="Box.Shape.brp"/>
        </Property>
      </Properties>
    </Object>
    <Object name="Sketch">
      <Properties Count="1">
        <Property name="Placement" type="App::PropertyPlacement">
        </Property>
      </Properties>
    </Object>
    <Object name="Loose">
    </Object>
  </ObjectData>
</Document>
"#;

#[test]
fn extension_lookup_ignores_case() {
    assert_eq!(Format::from_extension("STEP"), Some(Format::Step));
    assert_eq!(Format::from_extension("stp"), Some(Format::Step));
    assert_eq!(Format::from_extension("Brep.GZ"), Some(Format::Brep));
    assert_eq!(Format::from_extension("brp"), Some(Format::Brep));
    assert_eq!(Format::from_extension("FCStd"), Some(Format::FcStd));
    assert_eq!(Format::from_extension("stl"), None);
    assert_eq!(Format::from_extension(""), None);
}

#[test]
fn document_xml_objects_placements_and_payloads() {
    let doc = parse_document_xml(DOC.as_bytes()).unwrap();
    assert_eq!(doc.program_version, "0.21R1");
    assert_eq!(doc.objects.len(), 3);
    let b = doc.find("Box").unwrap();
    assert_eq!(b.type_id, "Part::Box");
    assert_eq!(b.shape_file.as_deref(), Some("Box.Shape.brp"));
    let pl = b.placement.as_ref().unwrap();
    assert_eq!(pl.px.as_deref(), Some(&b"1.5"[..]));
    assert_eq!(pl.pz.as_deref(), Some(&b"-3"[..]));
    assert_eq!(pl.q3.as_deref(), Some(&b"0.7071"[..]));
    let s = doc.find("Sketch").unwrap();
    assert_eq!(s.type_id, "Sketcher::SketchObject");
    assert_eq!(s.placement, Some(RawPlacement::identity()));
    assert!(!s.is_shape_bearing());
    let l = doc.find("Loose").unwrap();
    assert_eq!(l.type_id, "");
    assert_eq!(l.placement, None);
    assert!(doc.find("Origin").is_none());
    let shapes: Vec<&str> = doc.shape_objects().iter().map(|o| o.name.as_str()).collect();
    assert_eq!(shapes, vec!["Box"]);
    assert!(doc.objects.iter().all(|o| o.links.is_empty()));
}

#[test]
fn links_are_collected_from_link_properties() {
    let xml = b"<Document><Object type='Part::Extrusion' name='Ext'/><ObjectData><Object name='Ext'>\
<Property name='Base' type='App::PropertyLink'><Link value='Sketch'/></Property>\
<Property name='Profile' type='App::PropertyLink'><Link value=''/></Property>\
<Property name='Label' type='App::PropertyString'><Link value='NotALink'/></Property>\
</Object></ObjectData></Document>";
    let doc = parse_document_xml(xml).unwrap();
    assert_eq!(doc.objects[0].links, vec!["Sketch".to_string()]);
}

#[test]
fn one_object_document() {
    let xml = b"<Document ProgramVersion='1'><Object type='Part::Feature' name='Box'/><ObjectData>\
<Object name='Box'><Property name='Placement' type='App::PropertyPlacement'>\
<PropertyPlacement Px='1' Py='2' Pz='3'/></Property><Property name='Shape' type='Part::PropertyPartShape'>\
<Part file='Box.brp'/></Property></Object></ObjectData></Document>";
    let d = parse_document_xml(xml).unwrap();
    assert_eq!(d.program_version, "1");
    assert_eq!(d.objects.len(), 1);
    let o = &d.objects[0];
    assert_eq!(o.name, "Box");
    assert_eq!(o.type_id, "Part::Feature");
    let p = o.placement.as_ref().unwrap();
    assert_eq!(p.px.as_deref(), Some(&b"1"[..]));
    assert_eq!(p.py.as_deref(), Some(&b"2"[..]));
    assert_eq!(p.pz.as_deref(), Some(&b"3"[..]));
    assert_eq!(p.q0, None);
    assert_eq!(p.q3, None);
    assert_eq!(o.shape_file.as_deref(), Some("Box.brp"));
    assert!(o.links.is_empty());
}

#[test]
fn only_the_placement_property_sets_the_placement() {
    let xml = b"<Document><ObjectData><Object name='A'>\
<Property name='Placement' type='App::PropertyPlacement'><PropertyPlacement Px='1'/></Property>\
<Property name='AttachmentOffset' type='App::PropertyPlacement'><PropertyPlacement Px='9'/></Property>\
</Object><Object name='B'>\
<Property name='AttachmentOffset' type='App::PropertyPlacement'><PropertyPlacement Px='7'/></Property>\
</Object></ObjectData></Document>";
    let d = parse_document_xml(xml).unwrap();
    assert_eq!(d.objects[0].placement.as_ref().unwrap().px.as_deref(), Some(&b"1"[..]));
    assert_eq!(d.objects[1].placement, None);
}

#[test]
fn malformed_xml_is_reported() {
    match parse_document_xml(b"<Document><Object></Document>") {
        Err(FcStdError::Xml(m)) => assert!(!m.is_empty()),
        other => panic!("expected xml error, got {other:?}"),
    }
    assert_eq!(FcStdError::NotAZip.to_string(), "payload is not a zip archive");
    assert_eq!(FcStdError::Xml("x".into()).to_string(), "Document.xml parse error: x");
}

fn tag(name: &str, attrs: &[(&str, &str)]) -> XmlTag {
    XmlTag {
        name: name.as_bytes().to_vec(),
        attributes: attrs
            .iter()
            .map(|(k, v)| Some(XmlAttribute { key: k.as_bytes().to_vec(), value: v.as_bytes().to_vec() }))
            .collect(),
    }
}

#[test]
fn events_later_declarations_and_namespaces() {
    let events = vec![
        XmlEvent::Empty(tag("Object", &[("type", "A"), ("name", "X")])),
        XmlEvent::Empty(tag("ns:Object", &[("type", "B"), ("name", "X")])),
        XmlEvent::Start(tag("ObjectData", &[])),
        XmlEvent::Start(tag("Object", &[("name", "X")])),
        XmlEvent::Start(tag("Property", &[("name", "Placement"), ("type", "App::PropertyPlacement")])),
        XmlEvent::Empty(tag("PropertyPlacement", &[("Px", "1"), ("x:Px", "2")])),
        XmlEvent::End(b"Property".to_vec()),
        XmlEvent::End(b"Object".to_vec()),
        XmlEvent::Start(tag("Object", &[("name", "Y")])),
        XmlEvent::Empty(tag("Part", &[("file", "Y.brp")])),
        XmlEvent::End(b"Object".to_vec()),
        XmlEvent::End(b"ObjectData".to_vec()),
        XmlEvent::Eof,
    ];
    let doc = parse_document_events(&events);
    assert_eq!(doc.objects.len(), 2);
    assert_eq!(doc.objects[0].type_id, "B");
    assert_eq!(doc.objects[0].placement.as_ref().unwrap().px.as_deref(), Some(&b"2"[..]));
    // a Part element outside a Shape property names no payload
    assert_eq!(doc.objects[1].shape_file, None);
    assert_eq!(local_name(b"a:b:c"), b"b:c");
    assert_eq!(local_name(b"plain"), b"plain");
}

fn zip_of(entries: &[(&str, &[u8])]) -> Vec<u8> {
    let mut w = zip::ZipWriter::new(std::io::Cursor::new(Vec::new()));
    for (name, data) in entries {
        w.start_file(*name, zip::write::SimpleFileOptions::default()).unwrap();
        w.write_all(data).unwrap();
    }
    w.finish().unwrap().into_inner()
}

#[test]
fn archive_collects_brep_payloads() {
    let data = zip_of(&[
        ("Document.xml", DOC.as_bytes()),
        ("Box.Shape.brp", b"DBRep\n"),
        ("GuiDocument.xml", b"<x/>"),
        ("Other.brp", b"CASCADE Topology V1\n"),
    ]);
    let archive = open_archive(&data).unwrap();
    assert_eq!(archive.document.objects.len(), 3);
    assert_eq!(archive.shapes.len(), 2);
    let mut names: Vec<&str> = archive.shapes.iter().map(|(n, _)| n.as_str()).collect();
    names.sort();
    assert_eq!(names, vec!["Box.Shape.brp", "Other.brp"]);
    let b = archive.document.find("Box").unwrap();
    assert_eq!(archive.shape_of(b), Some(&b"DBRep\n"[..]));
    assert_eq!(archive.first_shape_payload().unwrap(), b"DBRep\n");
}

#[test]
fn archive_errors() {
    assert_eq!(open_archive(b"not a zip").err(), Some(FcStdError::NotAZip));
    assert_eq!(open_archive(b"not a zip archive").err(), Some(FcStdError::NotAZip));
    let data = zip_of(&[("Document.xml", b"<Document><Object></Document>")]);
    assert!(matches!(open_archive(&data), Err(FcStdError::Xml(_))));
    let data = zip_of(&[("a.brp", b"DBRep")]);
    assert_eq!(open_archive(&data).err(), Some(FcStdError::NoDocumentXml));
    let data = zip_of(&[("Document.xml", b"<Document ProgramVersion=\"1\"></Document>")]);
    let archive = open_archive(&data).unwrap();
    assert_eq!(archive.document.program_version, "1");
    assert_eq!(archive.first_shape_payload().err(), Some(FcStdError::NoShapePayload));
}

#[test]
fn document_failures_are_parse_errors() {
    let e = fcstd_kernel_error(&FcStdError::Xml("bad".to_string()));
    assert_eq!(e.kind, KernelErrorKind::Parse);
    assert_eq!(e.message, "Document.xml parse error: bad");
    let e = fcstd_kernel_error(&FcStdError::NoShapePayload);
    assert_eq!(e.kind, KernelErrorKind::Parse);
    assert_eq!(e.message, "no shape payloads found in document");
}

#[test]
fn archive_payloads_come_in_name_order() {
    let data = zip_of(&[
        ("Document.xml", b"<Document ProgramVersion=\"1\"></Document>"),
        ("b.brp", b"DBRep b"),
        ("a.brp", b"DBRep a"),
        ("c.txt", b"x"),
        ("B.brp", b"DBRep B"),
    ]);
    let archive = open_archive(&data).unwrap();
    let names: Vec<&str> = archive.shapes.iter().map(|(n, _)| n.as_str()).collect();
    assert_eq!(names, vec!["B.brp", "a.brp", "b.brp"]);
    assert_eq!(archive.shapes[1].1, b"DBRep a".to_vec());
}
