use osm::attribute::find_attribute;
use osm::event::Attribute;
use osm::{Error, ErrorReason, OSM};

fn unreadable_integer() -> ErrorReason {
    let attrs = vec![Attribute { name: String::from("id"), value: String::from("x") }];
    find_attribute::<i64>("id", &attrs).unwrap_err()
}

#[test]
fn reasons_in_words() {
    assert_eq!(ErrorReason::Missing.describe(), "Missing");
    assert_eq!(ErrorReason::IllegalNesting.describe(), "IllegalNesting");
    assert_eq!(ErrorReason::ParseFloat.describe(), "ParseFloat");
    assert_eq!(unreadable_integer().describe(), "ParseInt(ParseIntError { kind: InvalidDigit })");
    assert_eq!(unreadable_integer().describe(), format!("{:?}", unreadable_integer()));
    assert_eq!(ErrorReason::Missing.describe(), format!("{:?}", ErrorReason::Missing));
}

#[test]
fn errors_in_words() {
    assert_eq!(
        Error::BoundsMissing(ErrorReason::Missing).message(),
        "OSM XML error: Missing bounds: Missing"
    );
    assert_eq!(
        Error::MalformedTag(ErrorReason::Missing).message(),
        "OSM XML error: Malformed tag: Missing"
    );
    assert_eq!(
        Error::MalformedNode(ErrorReason::ParseFloat).message(),
        "OSM XML error: Malformed node: ParseFloat"
    );
    assert_eq!(
        Error::MalformedWay(ErrorReason::IllegalNesting).message(),
        "OSM XML error: Malformed way: IllegalNesting"
    );
    assert_eq!(
        Error::MalformedRelation(unreadable_integer()).message(),
        "OSM XML error: Malformed relation: ParseInt(ParseIntError { kind: InvalidDigit })"
    );
    assert_eq!(Error::UnknownElement.message(), "OSM XML error: Unknown XML element");
}

#[test]
fn reader_faults_in_words() {
    let fault = OSM::parse(b"<osm>").unwrap_err();
    let text = fault.message();
    assert!(text.starts_with("OSM XML parse error: "));
    match fault {
        Error::XmlParseError(inner) => {
            assert_eq!(text, format!("OSM XML parse error: {}", inner));
        }
        other => panic!("{:?}", other),
    }
}

#[test]
fn errors_from_their_causes() {
    let cause = "x".parse::<i64>().unwrap_err();
    assert!(matches!(ErrorReason::from(cause.clone()), ErrorReason::ParseInt(inner) if inner == cause));
    let cause = match OSM::parse(b"<osm>").unwrap_err() {
        Error::XmlParseError(inner) => inner,
        other => panic!("{:?}", other),
    };
    assert!(matches!(Error::from(cause.clone()), Error::XmlParseError(inner) if inner == cause));
}
