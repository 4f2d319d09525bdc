//! XML tokens as plain values, read with `quick-xml`.
//!
//! The tokenizer is `quick-xml`'s; each event it produces is turned into an
//! [`XmlEvent`] holding the raw (qualified) tag name and the raw attributes,
//! so that everything the document reader decides is decided over plain
//! bytes.

use vstd::prelude::*;

use quick_xml::events::{BytesStart, Event};
use quick_xml::Reader;

verus! {

#[verifier::external_type_specification]
#[verifier::external_body]
pub struct ExBytesStart<'a>(BytesStart<'a>);

/// One attribute as written: qualified key and raw (unescaped) value.
pub struct XmlAttribute {
    pub key: Vec<u8>,
    pub value: Vec<u8>,
}

/// A start or empty tag: its qualified name and its attributes in order;
/// `None` stands for an attribute the tokenizer could not read.
pub struct XmlTag {
    pub name: Vec<u8>,
    pub attributes: Vec<Option<XmlAttribute>>,
}

/// The events the document reader distinguishes.
pub enum XmlEvent {
    Start(XmlTag),
    End(Vec<u8>),
    Empty(XmlTag),
    Eof,
    /// Text, comments, declarations and every other event.
    Other,
}

/// An attribute as values: (qualified key, raw value).
pub type AttrModel = (Seq<u8>, Seq<u8>);

/// A tag as values: qualified name and attributes (`None` when unreadable).
pub struct TagModel {
    pub name: Seq<u8>,
    pub attributes: Seq<Option<AttrModel>>,
}

pub enum EventModel {
    Start(TagModel),
    End(Seq<u8>),
    Empty(TagModel),
    Eof,
    Other,
}

impl XmlAttribute {
    pub open spec fn model(&self) -> AttrModel {
        (self.key@, self.value@)
    }
}

pub open spec fn attr_model(a: Option<XmlAttribute>) -> Option<AttrModel> {
    match a {
        Some(a) => Some(a.model()),
        None => None,
    }
}

impl XmlTag {
    pub open spec fn model(&self) -> TagModel {
        TagModel { name: self.name@, attributes: self.attributes@.map_values(|a: Option<XmlAttribute>| attr_model(a)) }
    }
}

impl XmlEvent {
    pub open spec fn model(&self) -> EventModel {
        match self {
            XmlEvent::Start(t) => EventModel::Start(t.model()),
            XmlEvent::End(n) => EventModel::End(n@),
            XmlEvent::Empty(t) => EventModel::Empty(t.model()),
            XmlEvent::Eof => EventModel::Eof,
            XmlEvent::Other => EventModel::Other,
        }
    }
}

/// Position of the first `:` in `name`, if any.
pub open spec fn first_colon(name: Seq<u8>) -> Option<int>
    decreases name.len(),
{
    if name.len() == 0 {
        None
    } else if name[0] == 58u8 {
        Some(0)
    } else {
        match first_colon(name.drop_first()) {
            Some(i) => Some(i + 1),
            None => None,
        }
    }
}

/// The local part of a qualified XML name: what follows the first `:`, or
/// the whole name when it has no prefix.
pub open spec fn local_part(name: Seq<u8>) -> Seq<u8> {
    match first_colon(name) {
        Some(i) => name.subrange(i + 1, name.len() as int),
        None => name,
    }
}

pub proof fn lemma_first_colon(name: Seq<u8>)
    ensures
        match first_colon(name) {
            Some(i) => 0 <= i < name.len() && name[i] == 58u8 && forall|j: int| 0 <= j < i ==> name[j] != 58u8,
            None => forall|j: int| 0 <= j < name.len() ==> name[j] != 58u8,
        },
    decreases name.len(),
{
    if name.len() > 0 {
        lemma_first_colon(name.drop_first());
        if name[0] != 58u8 {
            assert forall|j: int| 1 <= j < name.len() implies name[j] == name.drop_first()[j - 1] by {}
        }
    }
}

/// The local part of a qualified name (the name without its namespace prefix).
pub fn local_name(name: &[u8]) -> (r: &[u8])
    ensures
        r@ == local_part(name@),
{
    proof {
        lemma_first_colon(name@);
    }
    let mut i: usize = 0;
    while i < name.len()
        invariant
            i <= name@.len(),
            forall|j: int| 0 <= j < i ==> name@[j] != 58u8,
            match first_colon(name@) {
                Some(c) => 0 <= c < name@.len() && name@[c] == 58u8 && forall|j: int| 0 <= j < c ==> name@[j] != 58u8,
                None => forall|j: int| 0 <= j < name@.len() ==> name@[j] != 58u8,
            },
        decreases name@.len() - i,
    {
        if name[i] == 58u8 {
            let r = vstd::slice::slice_subrange(name, i + 1, name.len());
            return r;
        }
        i = i + 1;
    }
    name
}

/// The events before end of input that `quick-xml`'s reader yields for a
/// document, or the message of the first tokenizer error.
pub uninterp spec fn xml_tokens(xml: Seq<u8>) -> Result<Seq<EventModel>, Seq<char>>;

/// The events as values.
pub open spec fn events_model(events: Seq<XmlEvent>) -> Seq<EventModel> {
    events.map_values(|e: XmlEvent| e.model())
}

/// `BytesStart::name` and `BytesStart::attributes`: the tag's qualified name
/// and each attribute (qualified key and raw value), `None` for an attribute
/// the tokenizer rejects. Used by [`xml_events`] to convert tags.
#[verifier::external_body]
fn xml_tag(e: &BytesStart) -> XmlTag {
    XmlTag {
        name: e.name().as_ref().to_vec(),
        attributes: e.attributes().map(|a| a.ok().map(|a| XmlAttribute {
            key: a.key.as_ref().to_vec(),
            value: a.value.to_vec(),
        })).collect(),
    }
}

/// `quick_xml::Reader::read_event_into`, called on a reader over `xml` until
/// it reports end of input: every event before it as a plain value (named
/// by `xml_tokens`), or the message of the tokenizer's first error.
#[verifier::external_body]
pub fn xml_events(xml: &[u8]) -> (r: Result<Vec<XmlEvent>, String>)
    ensures
        match xml_tokens(xml@) {
            Ok(evs) => r matches Ok(v) && events_model(v@) == evs,
            Err(m) => r matches Err(e) && e@ == m,
        },
{
    let (mut reader, mut buf, mut out) = (Reader::from_reader(xml), Vec::new(), Vec::new());
    loop {
        out.push(match reader.read_event_into(&mut buf) {
            Ok(Event::Start(e)) => XmlEvent::Start(xml_tag(&e)),
            Ok(Event::End(e)) => XmlEvent::End(e.name().as_ref().to_vec()),
            Ok(Event::Empty(e)) => XmlEvent::Empty(xml_tag(&e)),
            Ok(Event::Eof) => return Ok(out),
            Ok(_) => XmlEvent::Other,
            Err(e) => return Err(e.to_string()),
        });
        buf.clear();
    }
}

} // verus!
