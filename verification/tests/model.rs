use osm::{Error, Reference, UnresolvedReference, OSM};

fn degrees(coordinate: &osm::Coordinate) -> f64 {
    coordinate.as_str().parse::<f64>().unwrap()
}

#[test]
fn bounds_alone() {
    let document = r#"<osm><bounds minlat="54.08895" minlon="12.24875" maxlat="54.09139" maxlon="12.25248"/></osm>"#;
    let model = OSM::parse(document.as_bytes()).unwrap();
    assert!(model.nodes.is_empty());
    assert!(model.ways.is_empty());
    assert!(model.relations.is_empty());
    let bounds = model.bounds.unwrap();
    assert_eq!(degrees(&bounds.minlat), 54.08895);
    assert_eq!(degrees(&bounds.minlon), 12.24875);
    assert_eq!(degrees(&bounds.maxlat), 54.09139);
    assert_eq!(degrees(&bounds.maxlon), 12.25248);
}

#[test]
fn empty_map() {
    let model = OSM::empty();
    assert!(model.bounds.is_none());
    assert!(model.nodes.is_empty());
    assert!(model.ways.is_empty());
    assert!(model.relations.is_empty());
    let model = OSM::parse(b"<osm/>").unwrap();
    assert!(model.bounds.is_none());
    assert_eq!(model.nodes.len() + model.ways.len() + model.relations.len(), 0);
}

#[test]
fn counts_are_those_of_the_well_formed_elements() {
    let document = "<osm>
        <node id='1' lat='1' lon='1'/>
        <node id='2' lat='1' lon='one'/>
        <node id='3' lat='1' lon='1'><tag k='a'/></node>
        <node id='4' lat='1' lon='1'><nd ref='1'/></node>
        <node lat='1' lon='1'/>
        <way id='1'><nd ref='1'/></way>
        <way id='2'><nd ref='x'/></way>
        <way id='3'><member type='node' ref='1' role=''/></way>
        <way id='4'/>
        <way id='5'><tag/></way>
        <relation id='1'><member type='node' ref='1' role=''/></relation>
        <relation id='2'><member type='nd' ref='1' role=''/></relation>
        <relation id='3'><nd ref='1'/></relation>
        <relation/>
      </osm>";
    let model = OSM::parse(document.as_bytes()).unwrap();
    let mut nodes: Vec<i64> = model.nodes.keys().copied().collect();
    nodes.sort();
    assert_eq!(nodes, vec![1, 3]);
    let mut ways: Vec<i64> = model.ways.keys().copied().collect();
    ways.sort();
    assert_eq!(ways, vec![1, 4, 5]);
    let relations: Vec<i64> = model.relations.keys().copied().collect();
    assert_eq!(relations, vec![1]);
    assert!(model.nodes[&3].tags.is_empty());
    assert!(model.ways[&5].tags.is_empty());
}

#[test]
fn each_kind_has_its_own_identifiers() {
    let document = "<osm>
        <node id='7' lat='1' lon='2'/>
        <way id='7'><nd ref='7'/></way>
        <relation id='7'><member type='relation' ref='7' role='self'/></relation>
      </osm>";
    let model = OSM::parse(document.as_bytes()).unwrap();
    assert_eq!((model.nodes.len(), model.ways.len(), model.relations.len()), (1, 1, 1));
    assert!(matches!(
        model.resolve_reference(&UnresolvedReference::Node(7)),
        Reference::Node(node) if node.id == 7
    ));
    assert!(matches!(
        model.resolve_reference(&UnresolvedReference::Way(7)),
        Reference::Way(way) if way.nodes == vec![UnresolvedReference::Node(7)]
    ));
    assert!(matches!(
        model.resolve_reference(&UnresolvedReference::Relation(7)),
        Reference::Relation(relation) if relation.members.len() == 1
    ));
    assert_eq!(model.resolve_reference(&UnresolvedReference::Node(8)), Reference::Unresolved);
    assert_eq!(model.resolve_reference(&UnresolvedReference::Way(-7)), Reference::Unresolved);
    assert_eq!(model.resolve_reference(&UnresolvedReference::Relation(0)), Reference::Unresolved);
}

#[test]
fn the_last_record_of_an_identifier_stays() {
    let document = "<osm>
        <node id='1' lat='1' lon='1'><tag k='name' v='first'/></node>
        <node id='1' lat='2' lon='2'><tag k='name' v='second'/></node>
        <node id='1' lat='3' lon='3'><way id='9'/></node>
        <way id='5'><nd ref='1'/></way>
        <way id='5'><nd ref='2'/><nd ref='3'/></way>
      </osm>";
    let model = OSM::parse(document.as_bytes()).unwrap();
    assert_eq!(model.nodes.len(), 1);
    assert_eq!(model.nodes[&1].tags[0].val, "second");
    assert_eq!(model.nodes[&1].lat.as_str(), "2");
    assert_eq!(model.ways.len(), 1);
    assert_eq!(model.ways[&5].nodes.len(), 2);
}

#[test]
fn resolving_hands_out_the_stored_record() {
    let model = OSM::parse(b"<osm><node id='1' lat='1' lon='2'><tag k='a' v='b'/></node></osm>").unwrap();
    match model.resolve_reference(&UnresolvedReference::Node(1)) {
        Reference::Node(node) => {
            assert!(std::ptr::eq(node, &model.nodes[&1]));
            assert_eq!(node.tags.len(), 1);
        }
        other => panic!("{:?}", other),
    }
    // Resolving again changes nothing.
    assert_eq!(
        model.resolve_reference(&UnresolvedReference::Node(1)),
        model.resolve_reference(&UnresolvedReference::Node(1))
    );
    assert_eq!(model.nodes.len(), 1);
}

#[test]
fn way_nodes_resolve_where_the_map_holds_them() {
    let document = "<osm>
        <node id='10' lat='1' lon='1'/>
        <node id='11' lat='1' lon='1'/>
        <node id='12' lat='1' lon='1'/>
        <way id='1'><nd ref='10'/><nd ref='11'/><nd ref='12'/><nd ref='10'/></way>
        <way id='2'><nd ref='10'/><nd ref='13'/></way>
      </osm>";
    let model = OSM::parse(document.as_bytes()).unwrap();
    let unresolved = |id: i64| {
        model.ways[&id]
            .nodes
            .iter()
            .filter(|reference| model.resolve_reference(reference) == Reference::Unresolved)
            .count()
    };
    assert_eq!(unresolved(1), 0);
    assert_eq!(unresolved(2), 1);
    for reference in &model.ways[&1].nodes {
        assert!(matches!(model.resolve_reference(reference), Reference::Node(_)));
    }
    assert!(model.ways[&1].is_polygon());
    assert!(!model.ways[&2].is_polygon());
}

#[test]
fn incomplete_bounds_leave_none() {
    let all = [("minlat", "1"), ("minlon", "2"), ("maxlat", "3"), ("maxlon", "4")];
    for lacking in 0..4 {
        let mut document = String::from("<osm><bounds minlat='0' minlon='0' maxlat='0' maxlon='0'/><bounds");
        for (at, (name, value)) in all.iter().enumerate() {
            if at != lacking {
                document.push_str(&format!(" {}='{}'", name, value));
            }
        }
        document.push_str("/><node id='1' lat='1' lon='1'/></osm>");
        let model = OSM::parse(document.as_bytes()).unwrap();
        assert_eq!(model.bounds, None);
        assert_eq!(model.nodes.len(), 1);
    }
}

#[test]
fn later_bounds_replace_earlier_ones() {
    let document = "<osm><bounds minlat='x'/><bounds minlat='1' minlon='2' maxlat='3' maxlon='4'/><bounds minlat='5' minlon='6' maxlat='7' maxlon='8'/></osm>";
    let model = OSM::parse(document.as_bytes()).unwrap();
    assert_eq!(model.bounds.unwrap().minlat.as_str(), "5");
}

#[test]
fn node_with_nested_element_is_left_out() {
    for nested in [
        "<way id='9'/>",
        "<relation id='9'/>",
        "<nd ref='9'/>",
        "<member type='node' ref='9' role=''/>",
        "<node id='9' lat='1' lon='1'/>",
    ] {
        let document = format!(
            "<osm><node id='1' lat='1' lon='1'/><node id='2' lat='1' lon='1'><tag k='a' v='b'/>{}</node><node id='3' lat='1' lon='1'/></osm>",
            nested
        );
        let model = OSM::parse(document.as_bytes()).unwrap();
        let mut nodes: Vec<i64> = model.nodes.keys().copied().collect();
        nodes.sort();
        assert_eq!(nodes, vec![1, 3], "{}", nested);
        assert!(model.ways.is_empty());
        assert!(model.relations.is_empty());
    }
}

#[test]
fn what_an_element_given_up_holds_leaves_no_record() {
    let empty = [
        "<osm><node id='1' lat='0' lon='0'><relation id='5'><way id='6'/></relation></node></osm>",
        "<osm><node id='1' lat='0' lon='0'><way id='5'/><way id='6'/></node></osm>",
        "<osm><node id='1' lat='0' lon='0'><way id='5'><nd ref='1'/></way><way id='6'><nd ref='1'/></way></node></osm>",
        "<osm><node id='x' lat='0' lon='0'><node id='2' lat='0' lon='0'/></node></osm>",
        "<osm><node id='1' lat='0'><node id='2' lat='0' lon='0'><tag k='a' v='b'/></node></node></osm>",
        "<osm><relation id='x'><way id='5'><nd ref='1'/></way></relation></osm>",
        "<osm><way id='1'><nd/><node id='2' lat='0' lon='0'/></way></osm>",
        "<osm><way id='1'><note><node id='2' lat='0' lon='0'/></note></way></osm>",
        "<osm><relation id='1'><member type='area' ref='1' role=''/><relation id='2'/></relation></osm>",
        "<osm><way id='1'><way id='2'><way id='3'><way id='4'/></way></way><way id='5'/></way></osm>",
    ];
    for document in empty {
        let model = OSM::parse(document.as_bytes()).unwrap();
        assert!(model.nodes.is_empty(), "{}", document);
        assert!(model.ways.is_empty(), "{}", document);
        assert!(model.relations.is_empty(), "{}", document);
    }
}

#[test]
fn elements_beside_one_given_up_are_read() {
    let document = "<osm>
        <node id='1' lat='0' lon='0'/>
        <way id='1'><nd ref='1'/></way>
        <node id='2' lat='0' lon='0'><tag k='a' v='b'/><way id='9'><nd ref='1'/></way><way id='8'/></node>
        <relation id='x'><member type='node' ref='1' role=''/><node id='7' lat='0' lon='0'/></relation>
        <way id='2'><nd ref='2'/></way>
        <node id='3' lat='0' lon='0'/>
        <relation id='3'><member type='way' ref='2' role=''/></relation>
      </osm>";
    let model = OSM::parse(document.as_bytes()).unwrap();
    let mut nodes: Vec<i64> = model.nodes.keys().copied().collect();
    nodes.sort();
    assert_eq!(nodes, vec![1, 3]);
    let mut ways: Vec<i64> = model.ways.keys().copied().collect();
    ways.sort();
    assert_eq!(ways, vec![1, 2]);
    let relations: Vec<i64> = model.relations.keys().copied().collect();
    assert_eq!(relations, vec![3]);
}

#[test]
fn what_an_unknown_element_at_the_top_holds_is_read() {
    let model = OSM::parse(b"<osm><note><node id='1' lat='0' lon='0'/></note><osm><way id='2'/></osm></osm>").unwrap();
    assert_eq!(model.nodes.len(), 1);
    assert_eq!(model.ways.len(), 1);
}

#[test]
fn a_broken_document_is_fatal_also_inside_an_element_given_up() {
    for document in [
        "<osm><node id='x'><way id='1'>",
        "<osm><node id='1' lat='0' lon='0'><way id='1'/></way></node></osm>",
        "<osm><relation id='1'><node/><tag k=></relation></osm>",
    ] {
        assert!(matches!(OSM::parse(document.as_bytes()), Err(Error::XmlParseError(_))));
    }
}

#[test]
fn element_names_are_read_in_any_case() {
    let document = "<OSM><Bounds minlat='1' minlon='2' maxlat='3' maxlon='4'/><NODE id='1' lat='1' lon='1'><Tag k='a' v='b'/></NODE><Way id='2'><ND ref='1'/></Way><RELATION id='3'><MEMBER type='NODE' ref='1' role=''/></RELATION></OSM>";
    let model = OSM::parse(document.as_bytes()).unwrap();
    assert!(model.bounds.is_some());
    assert_eq!(model.nodes[&1].tags.len(), 1);
    assert_eq!(model.ways[&2].nodes, vec![UnresolvedReference::Node(1)]);
    assert_eq!(model.relations[&3].members.len(), 1);
    // Attribute names are not.
    let model = OSM::parse(b"<osm><node ID='1' lat='1' lon='1'/></osm>").unwrap();
    assert!(model.nodes.is_empty());
}

#[test]
fn broken_xml_is_fatal() {
    for document in [
        "",
        "<osm>",
        "<osm><node id='1' lat='1' lon='1'/>",
        "<osm><node id='1' lat='1' lon='1'></osm>",
        "<osm><node id='1' lat='1' lon='1'/></osm>trailing",
        "<osm><node id='1' lat='1' lon=1/></osm>",
        "not xml",
    ] {
        assert!(
            matches!(OSM::parse(document.as_bytes()), Err(Error::XmlParseError(_))),
            "{:?}",
            document
        );
    }
}

#[test]
fn text_and_comments_are_passed_over() {
    let document = "<?xml version='1.0'?><!-- c --><osm>text<node id='1' lat='1' lon='1'>more<!-- c --><tag k='a' v='b'/><![CDATA[<way/>]]></node><?pi data?></osm><!-- end -->";
    let model = OSM::parse(document.as_bytes()).unwrap();
    assert_eq!(model.nodes[&1].tags.len(), 1);
}

#[test]
fn escapes_in_attribute_values_are_resolved() {
    let document = "<osm><node id='1' lat='1' lon='1'><tag k='name' v='A &amp; B &lt;&#228;&gt;'/></node></osm>";
    let model = OSM::parse(document.as_bytes()).unwrap();
    assert_eq!(model.nodes[&1].tags[0].val, "A & B <\u{e4}>");
}
