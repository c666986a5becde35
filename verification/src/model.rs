//! The map that a document describes, and how it is put together.

use vstd::prelude::*;
use fnv::FnvHashMap;
use crate::attribute::attribute_value;
use crate::elements::{
    Bounds, BoundsView, Node, NodeView, Reference, Relation, RelationView, UnresolvedReference,
    Way, WayView,
};
use crate::error::{Error, ErrorKind};
use crate::event::{document_events, open_document, pending_events, AttributeView, EventView};
use crate::number::Id;
use crate::parser::{
    closes_element, element, element_type, intrudes, is_record_kind,
    lemma_element_ends_at_closing, lemma_element_given_up_with_subtree, lemma_element_rest,
    lemma_incomplete_bounds, lemma_node_with_nested_element, lemma_skip_rest,
    lemma_skip_to_closing, lemma_way_refers_to_nodes, parse_element_data, skip, spans,
    way_element, whole_element, Children, ElementData, ElementDataView, ElementType,
};
use crate::store::{new_table, table_get, table_insert};

verus! {

/// A map: its bounds, if the document gave sound ones, and its nodes, ways
/// and relations, each kind under its own identifiers. Of two records of
/// one kind with the same identifier the map keeps the one that the
/// document gave last.
#[derive(Debug)]
pub struct OSM {
    pub bounds: Option<Bounds>,
    pub nodes: FnvHashMap<Id, Node>,
    pub ways: FnvHashMap<Id, Way>,
    pub relations: FnvHashMap<Id, Relation>,
}

/// A map, by the views of its records.
pub struct OsmView {
    pub bounds: Option<BoundsView>,
    pub nodes: Map<Id, NodeView>,
    pub ways: Map<Id, WayView>,
    pub relations: Map<Id, RelationView>,
}

impl OsmView {
    /// The map that holds nothing.
    pub open spec fn empty() -> OsmView {
        OsmView {
            bounds: None,
            nodes: Map::empty(),
            ways: Map::empty(),
            relations: Map::empty(),
        }
    }

    /// The map holds finitely many records, each under its own identifier.
    pub open spec fn well_formed(self) -> bool {
        &&& self.nodes.dom().finite()
        &&& self.ways.dom().finite()
        &&& self.relations.dom().finite()
        &&& forall|id: Id| self.nodes.contains_key(id) ==> (#[trigger] self.nodes[id]).id == id
        &&& forall|id: Id| self.ways.contains_key(id) ==> (#[trigger] self.ways[id]).id == id
        &&& forall|id: Id|
            self.relations.contains_key(id) ==> (#[trigger] self.relations[id]).id == id
    }
}

impl View for OSM {
    type V = OsmView;

    open spec fn view(&self) -> OsmView {
        OsmView {
            bounds: match self.bounds {
                Some(bounds) => Some(bounds@),
                None => None,
            },
            nodes: self.nodes@.map_values(|node: Node| node@),
            ways: self.ways@.map_values(|way: Way| way@),
            relations: self.relations@.map_values(|relation: Relation| relation@),
        }
    }
}

/// The map that `model` becomes when an element at the top of the document
/// has been read with `outcome`.
///
/// A record goes in under its identifier, in place of an earlier one with
/// the same. Sound bounds replace what bounds there were; a bounds element
/// that is not sound leaves the map without bounds. An element that failed
/// for another reason changes nothing.
pub open spec fn absorb(model: OsmView, outcome: Result<ElementDataView, ErrorKind>) -> OsmView {
    match outcome {
        Ok(ElementDataView::Bounds(bounds)) => OsmView { bounds: Some(bounds), ..model },
        Ok(ElementDataView::Node(node)) => OsmView {
            nodes: model.nodes.insert(node.id, node),
            ..model
        },
        Ok(ElementDataView::Way(way)) => OsmView { ways: model.ways.insert(way.id, way), ..model },
        Ok(ElementDataView::Relation(relation)) => OsmView {
            relations: model.relations.insert(relation.id, relation),
            ..model
        },
        Err(ErrorKind::BoundsMissing(_)) => OsmView { bounds: None, ..model },
        _ => model,
    }
}

/// Reading an element keeps a map well formed.
pub proof fn lemma_absorb_well_formed(
    model: OsmView,
    outcome: Result<ElementDataView, ErrorKind>,
)
    requires
        model.well_formed(),
    ensures
        absorb(model, outcome).well_formed(),
{
}

/// The map that reading `events` to the end of the document makes of
/// `model`, or nothing where the reader fails before the end.
pub open spec fn document(events: Seq<EventView>, model: OsmView) -> Option<OsmView>
    decreases events.len(),
    via document_decreases
{
    let step = element(events);
    match step.outcome {
        Err(ErrorKind::XmlParseError) => None,
        Ok(ElementDataView::EndOfDocument) => Some(model),
        outcome => document(step.rest, absorb(model, outcome)),
    }
}

#[via_fn]
proof fn document_decreases(events: Seq<EventView>, model: OsmView) {
    lemma_element_rest(events);
}

/// Reading a document keeps a map well formed.
pub proof fn lemma_document_well_formed(events: Seq<EventView>, model: OsmView)
    requires
        model.well_formed(),
        document(events, model) is Some,
    ensures
        document(events, model).unwrap().well_formed(),
    decreases events.len(),
{
    let step = element(events);
    match step.outcome {
        Err(ErrorKind::XmlParseError) => {},
        Ok(ElementDataView::EndOfDocument) => {},
        outcome => {
            lemma_element_rest(events);
            lemma_absorb_well_formed(model, outcome);
            lemma_document_well_formed(step.rest, absorb(model, outcome));
        },
    }
}

impl OSM {
    /// The map that holds nothing.
    pub fn empty() -> (osm: OSM)
        ensures
            osm@ == OsmView::empty(),
            osm@.well_formed(),
    {
        let osm = OSM {
            bounds: None,
            nodes: new_table(),
            ways: new_table(),
            relations: new_table(),
        };
        proof {
            assert(osm@.nodes =~= Map::empty());
            assert(osm@.ways =~= Map::empty());
            assert(osm@.relations =~= Map::empty());
        }
        osm
    }

    /// Reads the map that the XML document `source` describes.
    ///
    /// Fails only where the document is not sound XML. A node, a way or a
    /// relation that cannot be read is left out with all that it holds, and
    /// the reading goes on behind its closing.
    pub fn parse(source: &[u8]) -> (model: Result<OSM, Error>)
        ensures
            match document(document_events(source@), OsmView::empty()) {
                Some(expected) => model matches Ok(osm) && osm@ == expected,
                None => model matches Err(why) && why@ == ErrorKind::XmlParseError,
            },
            model matches Ok(osm) ==> osm@.well_formed() && osm@.holds_elements_of(
                document_events(source@),
            ),
            well_nested(document_events(source@)) ==> (model matches Ok(osm)
                ==> osm@.holds_top_level_of(document_events(source@))),
    {
        let mut osm = OSM::empty();

        let mut parser = open_document(source);
        let ghost whole = document(pending_events(parser), osm@);
        proof {
            if whole is Some {
                lemma_read_ids(document_events(source@));
                if well_nested(document_events(source@)) {
                    lemma_holds_top_level(document_events(source@));
                }
            }
        }

        loop
            invariant
                whole == document(document_events(source@), OsmView::empty()),
                whole == document(pending_events(parser), osm@),
                whole is Some ==> whole.unwrap().holds_elements_of(document_events(source@)),
                whole is Some && well_nested(document_events(source@))
                    ==> whole.unwrap().holds_top_level_of(document_events(source@)),
                osm@.well_formed(),
            decreases pending_events(parser).len(),
        {
            let ghost events = pending_events(parser);
            let ghost before = osm@;
            proof {
                lemma_element_rest(events);
                lemma_absorb_well_formed(before, element(events).outcome);
            }
            match parse_element_data(&mut parser) {
                Err(Error::XmlParseError(err)) => return Err(Error::XmlParseError(err)),
                Err(Error::BoundsMissing(_)) => osm.bounds = None,
                Err(Error::MalformedTag(_))
                | Err(Error::MalformedNode(_))
                | Err(Error::MalformedWay(_))
                | Err(Error::MalformedRelation(_))
                | Err(Error::UnknownElement) => {},
                Ok(data) => match data {
                    ElementData::EndOfDocument => return Ok(osm),
                    ElementData::Ignored => {},
                    ElementData::Bounds(minlat, minlon, maxlat, maxlon) => {
                        osm.bounds = Some(
                            Bounds {
                                minlat: minlat,
                                minlon: minlon,
                                maxlat: maxlat,
                                maxlon: maxlon,
                            },
                        );
                    },
                    ElementData::Node(id, lat, lon, tags) => {
                        table_insert(
                            &mut osm.nodes,
                            id,
                            Node { id: id, lat: lat, lon: lon, tags: tags },
                        );
                        proof {
                            assert(osm@.nodes =~= before.nodes.insert(id, osm.nodes@[id]@));
                        }
                    },
                    ElementData::Way(id, node_refs, tags) => {
                        table_insert(
                            &mut osm.ways,
                            id,
                            Way { id: id, nodes: node_refs, tags: tags },
                        );
                        proof {
                            assert(osm@.ways =~= before.ways.insert(id, osm.ways@[id]@));
                        }
                    },
                    ElementData::Relation(relation) => {
                        let id = relation.id;
                        table_insert(&mut osm.relations, id, relation);
                        proof {
                            assert(osm@.relations =~= before.relations.insert(
                                id,
                                osm.relations@[id]@,
                            ));
                        }
                    },
                },
            }
        }
    }

    /// The record that `reference` leads to in this map, or nothing.
    pub open spec fn resolved(&self, reference: UnresolvedReference) -> Reference {
        match reference {
            UnresolvedReference::Node(id) => if self.nodes@.contains_key(id) {
                Reference::Node(&self.nodes@[id])
            } else {
                Reference::Unresolved
            },
            UnresolvedReference::Way(id) => if self.ways@.contains_key(id) {
                Reference::Way(&self.ways@[id])
            } else {
                Reference::Unresolved
            },
            UnresolvedReference::Relation(id) => if self.relations@.contains_key(id) {
                Reference::Relation(&self.relations@[id])
            } else {
                Reference::Unresolved
            },
        }
    }

    /// Looks `reference` up among the records of its kind: the record that
    /// the map holds under that identifier, or `Unresolved` where it holds
    /// none. The map stays as it is.
    pub fn resolve_reference<'a>(&'a self, reference: &UnresolvedReference) -> (found: Reference<
        'a,
    >)
        ensures
            found == self.resolved(*reference),
    {
        match *reference {
            UnresolvedReference::Node(id) => match table_get(&self.nodes, id) {
                Some(node) => Reference::Node(node),
                None => Reference::Unresolved,
            },
            UnresolvedReference::Way(id) => match table_get(&self.ways, id) {
                Some(way) => Reference::Way(way),
                None => Reference::Unresolved,
            },
            UnresolvedReference::Relation(id) => match table_get(&self.relations, id) {
                Some(relation) => Reference::Relation(relation),
                None => Reference::Unresolved,
            },
        }
    }
}

/// The identifier under which `record` goes into the table of the records
/// of kind `kind`, if it goes there.
pub open spec fn record_id(record: ElementDataView, kind: ElementType) -> Option<Id> {
    match record {
        ElementDataView::Node(node) => if kind == ElementType::Node {
            Some(node.id)
        } else {
            None
        },
        ElementDataView::Way(way) => if kind == ElementType::Way {
            Some(way.id)
        } else {
            None
        },
        ElementDataView::Relation(relation) => if kind == ElementType::Relation {
            Some(relation.id)
        } else {
            None
        },
        _ => None,
    }
}

/// The identifiers of the elements of kind `kind` that the reading of
/// `events` meets at the top of the document and reads well, up to the end
/// of the document, in the order of the document. What a node, a way or a
/// relation holds is not met at the top, whether the element is read well
/// or given up.
pub open spec fn element_ids(events: Seq<EventView>, kind: ElementType) -> Seq<Id>
    decreases events.len(),
    via element_ids_decreases
{
    let step = element(events);
    match step.outcome {
        Err(ErrorKind::XmlParseError) => Seq::empty(),
        Ok(ElementDataView::EndOfDocument) => Seq::empty(),
        Ok(record) => match record_id(record, kind) {
            Some(id) => seq![id] + element_ids(step.rest, kind),
            None => element_ids(step.rest, kind),
        },
        Err(_) => element_ids(step.rest, kind),
    }
}

#[via_fn]
proof fn element_ids_decreases(events: Seq<EventView>, kind: ElementType) {
    lemma_element_rest(events);
}

impl OsmView {
    /// The identifiers under which the map holds a record of kind `kind`.
    pub open spec fn ids(self, kind: ElementType) -> Set<Id> {
        match kind {
            ElementType::Node => self.nodes.dom(),
            ElementType::Way => self.ways.dom(),
            ElementType::Relation => self.relations.dom(),
            _ => Set::empty(),
        }
    }

    /// The map holds a node, a way or a relation under an identifier
    /// exactly where an element of that kind with that identifier is read
    /// well from `events`.
    pub open spec fn holds_elements_of(self, events: Seq<EventView>) -> bool {
        &&& self.nodes.dom() == element_ids(events, ElementType::Node).to_set()
        &&& self.ways.dom() == element_ids(events, ElementType::Way).to_set()
        &&& self.relations.dom() == element_ids(events, ElementType::Relation).to_set()
    }
}

/// Reading a document adds to a map the identifiers of the elements that
/// are read well, and no others.
pub proof fn lemma_document_ids(events: Seq<EventView>, model: OsmView, kind: ElementType)
    requires
        document(events, model) is Some,
    ensures
        document(events, model).unwrap().ids(kind) == model.ids(kind) + element_ids(
            events,
            kind,
        ).to_set(),
    decreases events.len(),
{
    let step = element(events);
    let ids = element_ids(events, kind);
    match step.outcome {
        Err(ErrorKind::XmlParseError) => {},
        Ok(ElementDataView::EndOfDocument) => {},
        outcome => {
            lemma_element_rest(events);
            let later = element_ids(step.rest, kind);
            lemma_document_ids(step.rest, absorb(model, outcome), kind);
            match outcome {
                Ok(record) => match record_id(record, kind) {
                    Some(id) => {
                        assert(ids[0] == id);
                        assert forall|other: Id| #[trigger]
                            ids.to_set().contains(other) == (other == id || later.to_set().contains(
                                other,
                            )) by {
                            if later.to_set().contains(other) {
                                let i = choose|i: int| 0 <= i < later.len() && later[i] == other;
                                assert(ids[i + 1] == other);
                            }
                        }
                    },
                    None => {},
                },
                Err(_) => {},
            }
        },
    }
}

/// A map that was read from a document holds a record under an identifier
/// exactly where an element with that identifier is read well from the
/// document.
pub proof fn lemma_read_ids(events: Seq<EventView>)
    requires
        document(events, OsmView::empty()) is Some,
    ensures
        document(events, OsmView::empty()).unwrap().holds_elements_of(events),
{
    let read = document(events, OsmView::empty()).unwrap();
    lemma_document_ids(events, OsmView::empty(), ElementType::Node);
    lemma_document_ids(events, OsmView::empty(), ElementType::Way);
    lemma_document_ids(events, OsmView::empty(), ElementType::Relation);
    assert(read.nodes.dom() =~= element_ids(events, ElementType::Node).to_set());
    assert(read.ways.dom() =~= element_ids(events, ElementType::Way).to_set());
    assert(read.relations.dom() =~= element_ids(events, ElementType::Relation).to_set());
}

/// Whether every node, way and relation at the top of the document is
/// whole, as it is in every document of XML: it closes where the count of
/// openings and closings says, and nowhere before.
pub open spec fn well_nested(events: Seq<EventView>) -> bool
    decreases events.len(),
{
    if events.len() == 0 {
        true
    } else {
        match events[0] {
            EventView::EndDocument => true,
            EventView::StartElement { name, .. } => match element_type(name) {
                Some(kind) => if is_record_kind(kind) {
                    exists|close: int|
                        #[trigger] whole_element(events, kind, close) && well_nested(
                            events.skip(close + 1),
                        )
                } else {
                    well_nested(events.drop_first())
                },
                None => well_nested(events.drop_first()),
            },
            _ => well_nested(events.drop_first()),
        }
    }
}

/// The identifiers of the well-formed elements of kind `kind` at the top
/// of the document, in the order of the document.
///
/// The elements at the top are told apart by counting openings and
/// closings alone: behind the opening of a node, a way or a relation the
/// next element of the top is looked for behind its closing, so that what
/// an element holds is never an element of the top. Such an element is
/// well formed where reading it gives a record.
pub open spec fn top_level_ids(events: Seq<EventView>, kind: ElementType) -> Seq<Id>
    decreases events.len(),
    via top_level_ids_decreases
{
    if events.len() == 0 {
        Seq::empty()
    } else {
        match events[0] {
            EventView::EndDocument => Seq::empty(),
            EventView::StartElement { name, .. } => if element_type(name) matches Some(opening)
                && is_record_kind(opening) {
                let here = match element(events).outcome {
                    Ok(record) => match record_id(record, kind) {
                        Some(id) => seq![id],
                        None => Seq::empty(),
                    },
                    Err(_) => Seq::empty(),
                };
                here + top_level_ids(skip(events.drop_first(), 1).rest, kind)
            } else {
                top_level_ids(events.drop_first(), kind)
            },
            _ => top_level_ids(events.drop_first(), kind),
        }
    }
}

#[via_fn]
proof fn top_level_ids_decreases(events: Seq<EventView>, kind: ElementType) {
    if events.len() > 0 {
        lemma_skip_rest(events.drop_first(), 1);
    }
}

/// In a document of XML the elements that are read well are the
/// well-formed elements at the top of the document.
pub proof fn lemma_reads_top_level(events: Seq<EventView>, kind: ElementType)
    requires
        well_nested(events),
    ensures
        element_ids(events, kind) == top_level_ids(events, kind),
    decreases events.len(),
{
    if events.len() > 0 {
        let rest = events.drop_first();
        match events[0] {
            EventView::EndDocument => {},
            EventView::StartElement { name, .. } => {
                if element_type(name) matches Some(opening) && is_record_kind(opening) {
                    let opening = element_type(name).unwrap();
                    let close = choose|close: int|
                        #[trigger] whole_element(events, opening, close) && well_nested(
                            events.skip(close + 1),
                        );
                    let behind = events.skip(close + 1);
                    lemma_element_ends_at_closing(events, opening, close);
                    lemma_skip_to_closing(rest, 1, close - 1);
                    assert(rest.skip(close) =~= behind);
                    lemma_reads_top_level(behind, kind);
                    assert(Seq::<Id>::empty() + top_level_ids(behind, kind) =~= top_level_ids(
                        behind,
                        kind,
                    ));
                } else {
                    lemma_reads_top_level(rest, kind);
                }
            },
            _ => {
                lemma_reads_top_level(rest, kind);
            },
        }
    }
}

impl OsmView {
    /// The map holds a node, a way or a relation under an identifier
    /// exactly where the document has a well-formed element of that kind
    /// with that identifier at its top.
    pub open spec fn holds_top_level_of(self, events: Seq<EventView>) -> bool {
        &&& self.nodes.dom() == top_level_ids(events, ElementType::Node).to_set()
        &&& self.ways.dom() == top_level_ids(events, ElementType::Way).to_set()
        &&& self.relations.dom() == top_level_ids(events, ElementType::Relation).to_set()
    }
}

/// A map that was read from a document of XML holds a record under an
/// identifier exactly where the document has a well-formed element with
/// that identifier at its top.
pub proof fn lemma_holds_top_level(events: Seq<EventView>)
    requires
        well_nested(events),
        document(events, OsmView::empty()) is Some,
    ensures
        document(events, OsmView::empty()).unwrap().holds_top_level_of(events),
{
    lemma_read_ids(events);
    lemma_reads_top_level(events, ElementType::Node);
    lemma_reads_top_level(events, ElementType::Way);
    lemma_reads_top_level(events, ElementType::Relation);
}

/// A map that was read from a document of XML holds as many nodes as the
/// document has well-formed nodes at its top, provided that no two of
/// them have the same identifier; and so for ways and for relations.
pub proof fn lemma_record_count(events: Seq<EventView>, kind: ElementType)
    requires
        well_nested(events),
        document(events, OsmView::empty()) is Some,
        top_level_ids(events, kind).no_duplicates(),
    ensures
        document(events, OsmView::empty()).unwrap().ids(kind).finite(),
        document(events, OsmView::empty()).unwrap().ids(kind).len() == top_level_ids(
            events,
            kind,
        ).len(),
{
    let ids = element_ids(events, kind);
    lemma_reads_top_level(events, kind);
    lemma_document_ids(events, OsmView::empty(), kind);
    assert(Set::<Id>::empty() + ids.to_set() =~= ids.to_set());
    ids.unique_seq_to_set();
    vstd::seq_lib::seq_to_set_is_finite(ids);
}

impl OSM {
    /// Where a map holds a node under each identifier that a way, as it was
    /// read, refers to, every reference of the way leads to a node: none is
    /// left unresolved.
    pub proof fn lemma_way_nodes_resolve(
        &self,
        attributes: Seq<AttributeView>,
        events: Seq<EventView>,
        way: WayView,
    )
        requires
            way_element(attributes, events).outcome == Ok::<ElementDataView, ErrorKind>(
                ElementDataView::Way(way),
            ),
            forall|i: int|
                0 <= i < way.nodes.len() ==> self.nodes@.contains_key(
                    (#[trigger] way.nodes[i]).id(),
                ),
        ensures
            forall|i: int|
                0 <= i < way.nodes.len() ==> #[trigger] self.resolved(way.nodes[i]) is Node,
    {
        lemma_way_refers_to_nodes(events, Children::none(), 1);
    }
}

/// A node that holds, before it closes, a node, a way, a relation, a
/// reference to a node, a member or bounds does not reach the map, and
/// neither does anything that it holds: the map stays as it was, and the
/// reading of the document goes on behind the closing of the node.
pub proof fn lemma_nested_element_discards_node(
    events: Seq<EventView>,
    model: OsmView,
    at: int,
    close: int,
)
    requires
        spans(events, close),
        events[0] matches EventView::StartElement { name, .. } && element_type(name) == Some(
            ElementType::Node,
        ),
        0 < at < close,
        intrudes(ElementType::Node, events[at]),
        forall|i: int| 0 < i < at ==> !closes_element(ElementType::Node, #[trigger] events[i]),
    ensures
        absorb(model, element(events).outcome) == model,
        document(events, model) == document(events.skip(close + 1), model),
{
    lemma_node_with_nested_element(events, at, close);
}

/// A node, a way or a relation that is given up does not reach the map,
/// and neither does anything that it holds: the map stays as it was, and
/// the reading of the document goes on behind the closing of the element.
pub proof fn lemma_given_up_element_leaves_no_record(
    events: Seq<EventView>,
    model: OsmView,
    close: int,
)
    requires
        spans(events, close),
        events[0] matches EventView::StartElement { name, .. } && element_type(name) matches Some(
            kind,
        ) && (kind == ElementType::Node || kind == ElementType::Way || kind
            == ElementType::Relation) && closes_element(kind, events[close]),
        element(events).outcome matches Err(why) && why != ErrorKind::XmlParseError,
    ensures
        absorb(model, element(events).outcome) == model,
        document(events, model) == document(events.skip(close + 1), model),
{
    lemma_element_given_up_with_subtree(events, close);
}

/// A bounds element that lacks one of its four attributes leaves the map
/// without bounds, whatever bounds it had.
pub proof fn lemma_incomplete_bounds_leave_none(
    events: Seq<EventView>,
    model: OsmView,
    lacking: Seq<char>,
)
    requires
        events.len() > 0,
        events[0] matches EventView::StartElement { name, attributes } && element_type(name)
            == Some(ElementType::Bounds) && attribute_value(attributes, lacking) is None,
        lacking == "minlat"@ || lacking == "minlon"@ || lacking == "maxlat"@ || lacking
            == "maxlon"@,
    ensures
        absorb(model, element(events).outcome).bounds is None,
{
    match events[0] {
        EventView::StartElement { name, attributes } => {
            lemma_incomplete_bounds(attributes, lacking);
        },
        _ => {},
    }
}

} // verus!
