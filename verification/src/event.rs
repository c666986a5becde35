//! The events that a document is read as, and the reader that hands them
//! out one by one.

use vstd::prelude::*;
use xml::reader::Error as XmlError;

verus! {

/// An attribute of an element: its name without a prefix, and its value.
#[derive(Debug, PartialEq, Clone)]
pub struct Attribute {
    pub name: String,
    pub value: String,
}

/// An attribute, by the characters of its name and of its value.
pub struct AttributeView {
    pub name: Seq<char>,
    pub value: Seq<char>,
}

impl View for Attribute {
    type V = AttributeView;

    open spec fn view(&self) -> AttributeView {
        AttributeView { name: self.name@, value: self.value@ }
    }
}

/// The attributes of `attributes`, each by its view.
pub open spec fn attribute_views(attributes: Seq<Attribute>) -> Seq<AttributeView> {
    attributes.map_values(|attribute: Attribute| attribute@)
}

/// One step through a document. Names are given without a prefix.
#[derive(Debug, PartialEq, Clone)]
pub enum Event {
    /// An element opens.
    StartElement { name: String, attributes: Vec<Attribute> },
    /// An element closes.
    EndElement { name: String },
    /// The document is over.
    EndDocument,
    /// Anything else: text, blanks, comments, declarations.
    Other,
}

/// An event, by the characters of its name and the views of its attributes.
pub enum EventView {
    StartElement { name: Seq<char>, attributes: Seq<AttributeView> },
    EndElement { name: Seq<char> },
    EndDocument,
    Other,
}

impl View for Event {
    type V = EventView;

    open spec fn view(&self) -> EventView {
        match *self {
            Event::StartElement { name, attributes } => EventView::StartElement {
                name: name@,
                attributes: attribute_views(attributes@),
            },
            Event::EndElement { name } => EventView::EndElement { name: name@ },
            Event::EndDocument => EventView::EndDocument,
            Event::Other => EventView::Other,
        }
    }
}

/// A reader of XML over the bytes of a document: an
/// `xml::reader::EventReader`. Its type is bound by `std::io::Read`,
/// which the verifier cannot be told of, so the reader is kept in a field
/// that the verifier does not look into. What is known of it is what
/// [`pending_events`] says.
#[verifier::external_body]
pub struct XmlEvents<'a> {
    reader: xml::reader::EventReader<&'a [u8]>,
}

/// The events that `source` has yet to hand out before it fails, in order.
/// There are finitely many. Where the document is sound the last of them
/// is `EndDocument`.
pub uninterp spec fn pending_events(source: XmlEvents) -> Seq<EventView>;

/// The events that a reader over `bytes` hands out before it fails.
pub uninterp spec fn document_events(bytes: Seq<u8>) -> Seq<EventView>;

/// What one pull does: where nothing is pending the reader fails, and
/// stays as it is; else it hands out the first pending event and goes on to
/// the next, but never past the end of the document.
pub open spec fn pulls(
    before: Seq<EventView>,
    pulled: Result<Event, XmlError>,
    after: Seq<EventView>,
) -> bool {
    if before.len() == 0 {
        pulled is Err && after == before
    } else {
        &&& pulled matches Ok(event) && event@ == before[0]
        &&& after == if before[0] is EndDocument {
            before
        } else {
            before.drop_first()
        }
    }
}

/// `xml::reader::EventReader::new`, with the bytes as the source: the
/// events that the reader will hand out are a function of the bytes alone,
/// and [`document_events`] is its name.
#[verifier::external_body]
pub(crate) fn open_document<'a>(bytes: &'a [u8]) -> (source: XmlEvents<'a>)
    ensures
        pending_events(source) == document_events(bytes@),
{
    XmlEvents { reader: xml::reader::EventReader::new(bytes) }
}

/// `xml::reader::EventReader::next`: hands out the pending events in
/// order and fails when none is left. Once it has handed out the end of
/// the document or failed, it does the same again on every later call. Of
/// each event only what a map is read from is kept: the kind, the name
/// without its prefix, and the attributes by name and value.
#[verifier::external_body]
pub(crate) fn next_event(source: &mut XmlEvents) -> (pulled: Result<Event, XmlError>)
    ensures
        pulls(pending_events(*old(source)), pulled, pending_events(*final(source))),
{
    match source.reader.next() {
        Ok(xml::reader::XmlEvent::StartElement { name, attributes, .. }) => {
            let attribute = |a: xml::attribute::OwnedAttribute| Attribute { name: a.name.local_name, value: a.value };
            Ok(Event::StartElement { name: name.local_name, attributes: attributes.into_iter().map(attribute).collect() })
        },
        Ok(xml::reader::XmlEvent::EndElement { name }) => Ok(Event::EndElement { name: name.local_name }),
        Ok(xml::reader::XmlEvent::EndDocument) => Ok(Event::EndDocument),
        Ok(_) => Ok(Event::Other),
        Err(fault) => Err(fault),
    }
}

impl<'a> XmlEvents<'a> {
    /// A reader at the start of the document `bytes`.
    pub fn new(bytes: &'a [u8]) -> (source: XmlEvents<'a>)
        ensures
            pending_events(source) == document_events(bytes@),
    {
        open_document(bytes)
    }

    /// Pulls the next event. At the end of the document, and once the
    /// reader has failed, every pull gives what the one before gave.
    pub fn pull(&mut self) -> (pulled: Result<Event, XmlError>)
        ensures
            pulls(pending_events(*old(self)), pulled, pending_events(*final(self))),
    {
        next_event(self)
    }
}

} // verus!
