//! XML documents as a list of events, read with `quick_xml`.

use quick_xml::events::{BytesStart, Event};
use quick_xml::Reader;
use quick_xml::XmlVersion;
use vstd::prelude::*;

verus! {

/// An attribute of an element: its qualified name and its normalized value
/// (`None` where the value cannot be decoded).
pub struct XmlAttribute {
    pub key: Vec<u8>,
    pub value: Option<String>,
}

/// An opening or self-closing tag. A malformed attribute stands as `None`.
pub struct XmlTag {
    pub name: Vec<u8>,
    pub attributes: Vec<Option<XmlAttribute>>,
}

/// One step of reading a document.
pub enum XmlEvent {
    /// An opening tag.
    Start(XmlTag),
    /// A self-closing tag.
    Empty(XmlTag),
    /// A closing tag with its qualified name.
    End(Vec<u8>),
    /// Text, comments, declarations and the like.
    Other,
    /// The end of the document.
    Eof,
    /// The document is not well formed; the message says why.
    Failed(String),
}

/// An attribute as a mathematical value.
pub struct AttributeView {
    pub key: Seq<u8>,
    pub value: Option<Seq<char>>,
}

/// A tag as a mathematical value.
pub struct TagView {
    pub name: Seq<u8>,
    pub attributes: Seq<Option<AttributeView>>,
}

/// An event as a mathematical value.
pub enum EventView {
    Start(TagView),
    Empty(TagView),
    End(Seq<u8>),
    Other,
    Eof,
    Failed(Seq<char>),
}

impl View for XmlAttribute {
    type V = AttributeView;

    open spec fn view(&self) -> AttributeView {
        AttributeView {
            key: self.key@,
            value: match self.value {
                Some(v) => Some(v@),
                None => None,
            },
        }
    }
}

/// The view of an attribute that may be malformed.
pub open spec fn attribute_view(a: Option<XmlAttribute>) -> Option<AttributeView> {
    match a {
        Some(a) => Some(a@),
        None => None,
    }
}

impl View for XmlTag {
    type V = TagView;

    open spec fn view(&self) -> TagView {
        TagView {
            name: self.name@,
            attributes: self.attributes@.map_values(
                |a: Option<XmlAttribute>| attribute_view(a),
            ),
        }
    }
}

impl View for XmlEvent {
    type V = EventView;

    open spec fn view(&self) -> EventView {
        match self {
            XmlEvent::Start(tag) => EventView::Start(tag@),
            XmlEvent::Empty(tag) => EventView::Empty(tag@),
            XmlEvent::End(name) => EventView::End(name@),
            XmlEvent::Other => EventView::Other,
            XmlEvent::Eof => EventView::Eof,
            XmlEvent::Failed(message) => EventView::Failed(message@),
        }
    }
}

/// The views of a list of events.
pub open spec fn event_views(events: Seq<XmlEvent>) -> Seq<EventView> {
    events.map_values(|e: XmlEvent| e@)
}

/// Whether an event ends the reading of a document.
pub open spec fn is_last(e: EventView) -> bool {
    e is Eof || e is Failed
}

/// Whether a list of events is a whole reading: the last event, and no other,
/// ends it.
pub open spec fn is_whole(events: Seq<EventView>) -> bool {
    &&& events.len() > 0
    &&& is_last(events.last())
    &&& forall|i: int| 0 <= i < events.len() - 1 ==> !is_last(#[trigger] events[i])
}

/// `quick_xml::Reader`, a reader over some source.
#[verifier::external_type_specification]
#[verifier::external_body]
#[verifier::reject_recursive_types(R)]
pub struct ExReader<R>(Reader<R>);

/// The events that `quick_xml::Reader::read_event` gives for a document, up to
/// and with the end of the document or the first error.
pub uninterp spec fn xml_events(text: Seq<char>) -> Seq<EventView>;

/// The events that a reader has still to give, up to and with the end of the
/// document or the first error.
pub uninterp spec fn unread(reader: Reader<&[u8]>) -> Seq<EventView>;

/// Calls `quick_xml::Reader::from_str`, with text trimming switched on. The
/// reader has the whole document before it; the reading of a document is finite
/// and ends with the first end-of-document or error.
#[verifier::external_body]
fn open_document(xml: &str) -> (out: Reader<&[u8]>)
    ensures
        unread(out) == xml_events(xml@),
        is_whole(unread(out)),
{
    let mut reader = Reader::from_str(xml);
    reader.config_mut().trim_text(true);
    reader
}

/// Calls `quick_xml::Reader::read_event`: takes the next event off the reader
/// and hands it out with the names and attributes that it carries, or with the
/// text of the error.
#[verifier::external_body]
fn next_event(reader: &mut Reader<&[u8]>) -> (out: Result<XmlEvent, String>)
    requires
        unread(*old(reader)).len() > 0,
    ensures
        match out {
            Ok(event) => unread(*old(reader))[0] == event@,
            Err(message) => unread(*old(reader))[0] == EventView::Failed(message@),
        },
        unread(*final(reader)) == unread(*old(reader)).drop_first(),
{
    let tag = |e: BytesStart| XmlTag {
        name: e.name().0.to_vec(),
        attributes: e.attributes().map(|a| a.ok().map(|a| XmlAttribute {
            key: a.key.0.to_vec(),
            value: a.normalized_value(XmlVersion::Implicit1_0).ok().map(String::from),
        })).collect(),
    };
    Ok(match reader.read_event().map_err(|e| e.to_string())? {
        Event::Start(e) => XmlEvent::Start(tag(e)),
        Event::Empty(e) => XmlEvent::Empty(tag(e)),
        Event::End(e) => XmlEvent::End(e.name().0.to_vec()),
        Event::Eof => XmlEvent::Eof,
        _ => XmlEvent::Other,
    })
}

/// The events of a document.
pub fn read_events(xml: &str) -> (out: Vec<XmlEvent>)
    ensures
        event_views(out@) == xml_events(xml@),
        is_whole(event_views(out@)),
{
    let mut reader = open_document(xml);
    let mut out: Vec<XmlEvent> = Vec::new();
    let ghost all = xml_events(xml@);
    let mut ended = false;
    while !ended
        invariant
            is_whole(all),
            out.len() <= all.len(),
            event_views(out@) == all.take(out.len() as int),
            unread(reader) == all.skip(out.len() as int),
            ended == (out.len() == all.len()),
        decreases all.len() - out.len(),
    {
        let event = match next_event(&mut reader) {
            Ok(event) => event,
            Err(message) => XmlEvent::Failed(message),
        };
        ended = match event {
            XmlEvent::Eof => true,
            XmlEvent::Failed(_) => true,
            _ => false,
        };
        assert(event@ == all[out.len() as int]);
        out.push(event);
        assert(event_views(out@) =~= all.take(out.len() as int));
        assert(unread(reader) =~= all.skip(out.len() as int));
    }
    assert(all.take(all.len() as int) =~= all);
    out
}

} // verus!
