use osm::attribute::{find_attribute, find_attribute_uncasted};
use osm::event::Attribute;
use osm::parser::{
    member_from_lowercase, parse_bounds, parse_member, parse_tag, ElementData, ElementType,
};
use osm::text::same_text;
use osm::{Error, ErrorReason, Member, Tag, UnresolvedReference};

fn attributes(pairs: &[(&str, &str)]) -> Vec<Attribute> {
    pairs
        .iter()
        .map(|(name, value)| Attribute { name: String::from(*name), value: String::from(*value) })
        .collect()
}

#[test]
fn same_text_compares_characters() {
    assert!(same_text("", ""));
    assert!(same_text("node", "node"));
    assert!(!same_text("node", "nodes"));
    assert!(!same_text("node", "Node"));
    assert!(!same_text("node", "nod\u{435}"));
    assert!(same_text("stra\u{df}e", "stra\u{df}e"));
    assert!(!same_text("a\u{308}", "\u{e4}"));
    assert!(!same_text("", " "));
}

#[test]
fn first_attribute_of_a_name_wins() {
    let attrs = attributes(&[("k", "first"), ("v", "x"), ("k", "second")]);
    assert_eq!(find_attribute_uncasted("k", &attrs).unwrap(), "first");
    assert_eq!(find_attribute_uncasted("v", &attrs).unwrap(), "x");
}

#[test]
fn attribute_names_are_case_sensitive() {
    let attrs = attributes(&[("ID", "1"), ("Id", "2"), ("id", "3")]);
    assert_eq!(find_attribute_uncasted("id", &attrs).unwrap(), "3");
    assert_eq!(find_attribute::<i64>("id", &attrs).unwrap(), 3);
    assert_eq!(find_attribute::<i64>("ID", &attrs).unwrap(), 1);
    assert!(matches!(find_attribute_uncasted("iD", &attrs), Err(ErrorReason::Missing)));
}

#[test]
fn missing_attribute() {
    assert!(matches!(find_attribute_uncasted("id", &Vec::new()), Err(ErrorReason::Missing)));
    let attrs = attributes(&[("lat", "1")]);
    assert!(matches!(find_attribute_uncasted("", &attrs), Err(ErrorReason::Missing)));
    assert!(matches!(find_attribute_uncasted("la", &attrs), Err(ErrorReason::Missing)));
}

#[test]
fn attribute_value_is_passed_through() {
    let attrs = attributes(&[("v", ""), ("w", "  padded \u{e4} ")]);
    assert_eq!(find_attribute_uncasted("v", &attrs).unwrap(), "");
    assert_eq!(find_attribute_uncasted("w", &attrs).unwrap(), "  padded \u{e4} ");
}

#[test]
fn element_names_in_any_case() {
    let names = [
        ("bounds", ElementType::Bounds),
        ("node", ElementType::Node),
        ("way", ElementType::Way),
        ("relation", ElementType::Relation),
        ("tag", ElementType::Tag),
        ("nd", ElementType::NodeRef),
        ("member", ElementType::Member),
    ];
    for (name, kind) in names {
        assert_eq!(ElementType::from_str(name).unwrap(), kind);
        assert_eq!(ElementType::from_lowercase(name).unwrap(), kind);
        assert_eq!(ElementType::from_str(&name.to_uppercase()).unwrap(), kind);
        assert!(matches!(
            ElementType::from_lowercase(&name.to_uppercase()),
            Err(Error::UnknownElement)
        ));
        let mut mixed = name[..1].to_uppercase();
        mixed.push_str(&name[1..]);
        assert_eq!(ElementType::from_str(&mixed).unwrap(), kind);
    }
}

#[test]
fn unknown_element_names() {
    for name in ["", "osm", "nodes", " node", "node ", "noderef", "members", "n\u{f8}de"] {
        assert!(matches!(ElementType::from_str(name), Err(Error::UnknownElement)), "{:?}", name);
        assert!(matches!(ElementType::from_lowercase(name), Err(Error::UnknownElement)));
    }
}

#[test]
fn tag_needs_key_and_value() {
    let tag = parse_tag(&attributes(&[("k", "highway"), ("v", "residential")])).unwrap();
    assert_eq!(tag, Tag { key: String::from("highway"), val: String::from("residential") });
    let tag = parse_tag(&attributes(&[("v", ""), ("k", "")])).unwrap();
    assert_eq!(tag, Tag { key: String::new(), val: String::new() });
    assert!(matches!(
        parse_tag(&attributes(&[("k", "highway")])),
        Err(Error::MalformedTag(ErrorReason::Missing))
    ));
    assert!(matches!(
        parse_tag(&attributes(&[("v", "residential")])),
        Err(Error::MalformedTag(ErrorReason::Missing))
    ));
    assert!(matches!(
        parse_tag(&attributes(&[("K", "highway"), ("V", "residential")])),
        Err(Error::MalformedTag(ErrorReason::Missing))
    ));
}

#[test]
fn bounds_need_four_coordinates() {
    let all = [("minlat", "54.08895"), ("minlon", "12.24875"), ("maxlat", "54.09139"), ("maxlon", "12.25248")];
    match parse_bounds(&attributes(&all)).unwrap() {
        ElementData::Bounds(minlat, minlon, maxlat, maxlon) => {
            assert_eq!(minlat.as_str(), "54.08895");
            assert_eq!(minlon.as_str(), "12.24875");
            assert_eq!(maxlat.as_str(), "54.09139");
            assert_eq!(maxlon.as_str(), "12.25248");
        }
        other => panic!("{:?}", other),
    }
    for lacking in 0..4 {
        let mut some = all.to_vec();
        some.remove(lacking);
        assert!(matches!(
            parse_bounds(&attributes(&some)),
            Err(Error::BoundsMissing(ErrorReason::Missing))
        ));
        let mut spoiled = all.to_vec();
        spoiled[lacking].1 = "north";
        assert!(matches!(
            parse_bounds(&attributes(&spoiled)),
            Err(Error::BoundsMissing(ErrorReason::ParseFloat))
        ));
    }
}

#[test]
fn bounds_report_the_first_fault() {
    let attrs = attributes(&[("minlat", "x"), ("maxlat", "1"), ("maxlon", "1")]);
    assert!(matches!(parse_bounds(&attrs), Err(Error::BoundsMissing(ErrorReason::ParseFloat))));
    let attrs = attributes(&[("minlat", "1"), ("maxlat", "x"), ("maxlon", "1")]);
    assert!(matches!(parse_bounds(&attrs), Err(Error::BoundsMissing(ErrorReason::Missing))));
}

#[test]
fn members_of_each_kind() {
    let member = parse_member(&attributes(&[("type", "node"), ("ref", "5"), ("role", "stop")]));
    assert_eq!(member.unwrap(), Member::Node(UnresolvedReference::Node(5), String::from("stop")));
    let member = parse_member(&attributes(&[("type", "WAY"), ("ref", "-6"), ("role", "")]));
    assert_eq!(member.unwrap(), Member::Way(UnresolvedReference::Way(-6), String::new()));
    let member = parse_member(&attributes(&[("role", "r"), ("ref", "7"), ("type", "Relation")]));
    assert_eq!(
        member.unwrap(),
        Member::Relation(UnresolvedReference::Relation(7), String::from("r"))
    );
    assert_eq!(
        member_from_lowercase("way", 3, String::from("outer")).unwrap(),
        Member::Way(UnresolvedReference::Way(3), String::from("outer"))
    );
    assert!(member_from_lowercase("WAY", 3, String::from("outer")).is_none());
    assert!(member_from_lowercase("nd", 3, String::from("outer")).is_none());
}

#[test]
fn malformed_members() {
    let cases: [(&[(&str, &str)], bool); 6] = [
        (&[("ref", "5"), ("role", "stop")], false),
        (&[("type", "node"), ("role", "stop")], false),
        (&[("type", "node"), ("ref", "5")], false),
        (&[("type", "area"), ("ref", "5"), ("role", "stop")], false),
        (&[("type", ""), ("ref", "5"), ("role", "stop")], false),
        (&[("type", "node"), ("ref", "five"), ("role", "stop")], true),
    ];
    for (pairs, unreadable) in cases {
        match parse_member(&attributes(pairs)) {
            Err(Error::MalformedRelation(ErrorReason::Missing)) => assert!(!unreadable),
            Err(Error::MalformedRelation(ErrorReason::ParseInt(_))) => assert!(unreadable),
            other => panic!("{:?}", other),
        }
    }
    // The identifier is read before the kind is looked at.
    assert!(matches!(
        parse_member(&attributes(&[("type", "area"), ("ref", "x"), ("role", "")])),
        Err(Error::MalformedRelation(ErrorReason::ParseInt(_)))
    ));
}
