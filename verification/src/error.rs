//! What can go wrong while a document is read.

use vstd::prelude::*;
use vstd::string::*;
use xml::reader::Error as XmlError;

verus! {

/// `xml::reader::Error`, what the reader of XML fails with. Nothing is known of it.
#[verifier::external_type_specification]
#[verifier::external_body]
pub struct ExXmlError(XmlError);

/// Why an element was given up.
#[derive(Debug)]
pub enum ErrorReason {
    /// An attribute that should hold a coordinate holds something else.
    ParseFloat,
    /// An attribute that should hold an identifier holds something else.
    ParseInt(std::num::ParseIntError),
    /// An element stands inside another that cannot hold it.
    IllegalNesting,
    /// An attribute that the element needs is not there.
    Missing,
}

/// A reason, without what the standard library says of it.
pub enum ReasonKind {
    ParseFloat,
    ParseInt,
    IllegalNesting,
    Missing,
}

impl View for ErrorReason {
    type V = ReasonKind;

    open spec fn view(&self) -> ReasonKind {
        match *self {
            ErrorReason::ParseFloat => ReasonKind::ParseFloat,
            ErrorReason::ParseInt(_) => ReasonKind::ParseInt,
            ErrorReason::IllegalNesting => ReasonKind::IllegalNesting,
            ErrorReason::Missing => ReasonKind::Missing,
        }
    }
}

/// A failure to read an element, or the whole document.
///
/// Only `XmlParseError` ends the reading of a document: the others cost the
/// element they speak of and nothing more.
#[derive(Debug)]
pub enum Error {
    BoundsMissing(ErrorReason),
    MalformedTag(ErrorReason),
    MalformedNode(ErrorReason),
    MalformedWay(ErrorReason),
    MalformedRelation(ErrorReason),
    UnknownElement,
    XmlParseError(XmlError),
}

/// An error, without what the standard library or the reader of XML says of it.
pub enum ErrorKind {
    BoundsMissing(ReasonKind),
    MalformedTag(ReasonKind),
    MalformedNode(ReasonKind),
    MalformedWay(ReasonKind),
    MalformedRelation(ReasonKind),
    UnknownElement,
    XmlParseError,
}

impl View for Error {
    type V = ErrorKind;

    open spec fn view(&self) -> ErrorKind {
        match *self {
            Error::BoundsMissing(reason) => ErrorKind::BoundsMissing(reason@),
            Error::MalformedTag(reason) => ErrorKind::MalformedTag(reason@),
            Error::MalformedNode(reason) => ErrorKind::MalformedNode(reason@),
            Error::MalformedWay(reason) => ErrorKind::MalformedWay(reason@),
            Error::MalformedRelation(reason) => ErrorKind::MalformedRelation(reason@),
            Error::UnknownElement => ErrorKind::UnknownElement,
            Error::XmlParseError(_) => ErrorKind::XmlParseError,
        }
    }
}

/// The name of a reason, where the reason has no more to say than its name.
pub open spec fn reason_name(reason: ReasonKind) -> Option<Seq<char>> {
    match reason {
        ReasonKind::ParseFloat => Some("ParseFloat"@),
        ReasonKind::ParseInt => None,
        ReasonKind::IllegalNesting => Some("IllegalNesting"@),
        ReasonKind::Missing => Some("Missing"@),
    }
}

/// How the sentence that tells of an error begins.
pub open spec fn headline(kind: ErrorKind) -> Seq<char> {
    match kind {
        ErrorKind::BoundsMissing(_) => "OSM XML error: Missing bounds: "@,
        ErrorKind::MalformedTag(_) => "OSM XML error: Malformed tag: "@,
        ErrorKind::MalformedNode(_) => "OSM XML error: Malformed node: "@,
        ErrorKind::MalformedWay(_) => "OSM XML error: Malformed way: "@,
        ErrorKind::MalformedRelation(_) => "OSM XML error: Malformed relation: "@,
        ErrorKind::UnknownElement => "OSM XML error: Unknown XML element"@,
        ErrorKind::XmlParseError => "OSM XML parse error: "@,
    }
}

/// The reason for which an element was given up, where the error tells of one.
pub open spec fn reason_of(kind: ErrorKind) -> Option<ReasonKind> {
    match kind {
        ErrorKind::BoundsMissing(reason) => Some(reason),
        ErrorKind::MalformedTag(reason) => Some(reason),
        ErrorKind::MalformedNode(reason) => Some(reason),
        ErrorKind::MalformedWay(reason) => Some(reason),
        ErrorKind::MalformedRelation(reason) => Some(reason),
        ErrorKind::UnknownElement => None,
        ErrorKind::XmlParseError => None,
    }
}

/// Whether `text` begins with `start`.
pub open spec fn begins_with(text: Seq<char>, start: Seq<char>) -> bool {
    start.len() <= text.len() && text.subrange(0, start.len() as int) == start
}

/// The text that the standard library gives for a failure to read an
/// integer, with `{:?}`. Nothing is claimed of it.
#[verifier::external_body]
fn integer_fault_text(fault: &std::num::ParseIntError) -> (text: String) {
    format!("{:?}", fault)
}

/// The text that `xml::reader::Error` gives for itself, with `{}`. Nothing
/// is claimed of it.
#[verifier::external_body]
fn xml_fault_text(fault: &XmlError) -> (text: String) {
    format!("{}", fault)
}

impl ErrorReason {
    /// The reason in words: its name, and for an integer that could not be
    /// read what the standard library says of it, in brackets.
    pub fn describe(&self) -> (text: String)
        ensures
            match reason_name(self@) {
                Some(name) => text@ == name,
                None => begins_with(text@, "ParseInt("@),
            },
    {
        match self {
            ErrorReason::ParseFloat => String::from_str("ParseFloat"),
            ErrorReason::IllegalNesting => String::from_str("IllegalNesting"),
            ErrorReason::Missing => String::from_str("Missing"),
            ErrorReason::ParseInt(fault) => {
                let mut text = String::from_str("ParseInt(");
                let detail = integer_fault_text(fault);
                text.append(detail.as_str());
                text.append(")");
                assert(text@.subrange(0, "ParseInt("@.len() as int) =~= "ParseInt("@);
                text
            },
        }
    }
}

impl Error {
    /// The sentence that tells of this error: a headline, and after it the
    /// reason for which the element was given up, or what the reader of XML
    /// says went wrong.
    pub fn message(&self) -> (text: String)
        ensures
            begins_with(text@, headline(self@)),
            self@ == ErrorKind::UnknownElement ==> text@ == headline(self@),
            match reason_of(self@) {
                Some(reason) => match reason_name(reason) {
                    Some(name) => text@ == headline(self@) + name,
                    None => true,
                },
                None => true,
            },
    {
        let ghost start = headline(self@);
        let (mut text, detail) = match self {
            Error::BoundsMissing(reason) => (
                String::from_str("OSM XML error: Missing bounds: "),
                reason.describe(),
            ),
            Error::MalformedTag(reason) => (
                String::from_str("OSM XML error: Malformed tag: "),
                reason.describe(),
            ),
            Error::MalformedNode(reason) => (
                String::from_str("OSM XML error: Malformed node: "),
                reason.describe(),
            ),
            Error::MalformedWay(reason) => (
                String::from_str("OSM XML error: Malformed way: "),
                reason.describe(),
            ),
            Error::MalformedRelation(reason) => (
                String::from_str("OSM XML error: Malformed relation: "),
                reason.describe(),
            ),
            Error::UnknownElement => (
                String::from_str("OSM XML error: Unknown XML element"),
                String::new(),
            ),
            Error::XmlParseError(fault) => (
                String::from_str("OSM XML parse error: "),
                xml_fault_text(fault),
            ),
        };
        text.append(detail.as_str());
        proof {
            assert(text@.subrange(0, start.len() as int) =~= start);
        }
        text
    }
}

impl From<std::num::ParseIntError> for ErrorReason {
    fn from(err: std::num::ParseIntError) -> (reason: ErrorReason) {
        ErrorReason::ParseInt(err)
    }
}

impl vstd::std_specs::convert::FromSpecImpl<std::num::ParseIntError> for ErrorReason {
    open spec fn obeys_from_spec() -> bool {
        true
    }

    open spec fn from_spec(err: std::num::ParseIntError) -> ErrorReason {
        ErrorReason::ParseInt(err)
    }
}

impl From<XmlError> for Error {
    fn from(err: XmlError) -> (error: Error) {
        Error::XmlParseError(err)
    }
}

impl vstd::std_specs::convert::FromSpecImpl<XmlError> for Error {
    open spec fn obeys_from_spec() -> bool {
        true
    }

    open spec fn from_spec(err: XmlError) -> Error {
        Error::XmlParseError(err)
    }
}

} // verus!
