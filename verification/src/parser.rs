//! Reading the elements of a document from its events.
//!
//! The top of a document holds bounds, nodes, ways and relations. A node
//! holds tags; a way holds tags and references to nodes; a relation holds
//! tags and members. Reading an element starts at the event that opens it
//! and goes on until the event that closes an element of its kind.
//!
//! A node, a way or a relation that cannot be read is given up with all
//! that it holds: the events up to its closing are pulled and dropped,
//! openings and closings being counted to find it, and the reading goes on
//! behind it.

use vstd::prelude::*;
use crate::attribute::{
    attribute_value, coordinate_attribute, find_attribute, find_attribute_uncasted,
    id_attribute, text_attribute,
};
use crate::elements::{
    member_views, tag_views, BoundsView, Member, MemberView, NodeView, Relation, RelationView,
    Role, Tag, TagView, UnresolvedReference, WayView,
};
use crate::error::{Error, ErrorKind, ErrorReason, ReasonKind};
use crate::event::{
    attribute_views, next_event, pending_events, Attribute, AttributeView, Event, EventView,
    XmlEvents,
};
use crate::number::{Coordinate, Id};
use crate::text::{lowercase_of, same_text, to_lowercase};

verus! {

/// The kinds of element that a document of a map is made of.
#[derive(Debug, PartialEq, Eq, Copy, Clone, Structural)]
pub enum ElementType {
    Bounds,
    Node,
    Way,
    Relation,
    Tag,
    NodeRef,
    Member,
}

/// What an element at the top of a document was read as.
#[derive(Debug, PartialEq, Clone)]
pub enum ElementData {
    Bounds(Coordinate, Coordinate, Coordinate, Coordinate),
    Node(Id, Coordinate, Coordinate, Vec<Tag>),
    Way(Id, Vec<UnresolvedReference>, Vec<Tag>),
    Relation(Relation),
    /// The document is over.
    EndOfDocument,
    /// Nothing that a map is made of.
    Ignored,
}

/// What an element at the top of a document was read as, by the views of
/// its parts.
pub enum ElementDataView {
    Bounds(BoundsView),
    Node(NodeView),
    Way(WayView),
    Relation(RelationView),
    EndOfDocument,
    Ignored,
}

impl View for ElementData {
    type V = ElementDataView;

    open spec fn view(&self) -> ElementDataView {
        match *self {
            ElementData::Bounds(minlat, minlon, maxlat, maxlon) => ElementDataView::Bounds(
                BoundsView { minlat: minlat@, minlon: minlon@, maxlat: maxlat@, maxlon: maxlon@ },
            ),
            ElementData::Node(id, lat, lon, tags) => ElementDataView::Node(
                NodeView { id, lat: lat@, lon: lon@, tags: tag_views(tags@) },
            ),
            ElementData::Way(id, nodes, tags) => ElementDataView::Way(
                WayView { id, tags: tag_views(tags@), nodes: nodes@ },
            ),
            ElementData::Relation(relation) => ElementDataView::Relation(relation@),
            ElementData::EndOfDocument => ElementDataView::EndOfDocument,
            ElementData::Ignored => ElementDataView::Ignored,
        }
    }
}

/// The kind of element that a name in lower case stands for.
pub open spec fn classify(lowered: Seq<char>) -> Option<ElementType> {
    if lowered == "bounds"@ {
        Some(ElementType::Bounds)
    } else if lowered == "node"@ {
        Some(ElementType::Node)
    } else if lowered == "way"@ {
        Some(ElementType::Way)
    } else if lowered == "relation"@ {
        Some(ElementType::Relation)
    } else if lowered == "tag"@ {
        Some(ElementType::Tag)
    } else if lowered == "nd"@ {
        Some(ElementType::NodeRef)
    } else if lowered == "member"@ {
        Some(ElementType::Member)
    } else {
        None
    }
}

/// The kind of element that `name` stands for, in whatever case it is written.
pub open spec fn element_type(name: Seq<char>) -> Option<ElementType> {
    classify(lowercase_of(name))
}

impl ElementType {
    /// The kind of element that a name in lower case stands for.
    pub fn from_lowercase(lowered: &str) -> (kind: Result<ElementType, Error>)
        ensures
            match classify(lowered@) {
                Some(found) => kind matches Ok(got) && got == found,
                None => kind matches Err(Error::UnknownElement),
            },
    {
        if same_text(lowered, "bounds") {
            Ok(ElementType::Bounds)
        } else if same_text(lowered, "node") {
            Ok(ElementType::Node)
        } else if same_text(lowered, "way") {
            Ok(ElementType::Way)
        } else if same_text(lowered, "relation") {
            Ok(ElementType::Relation)
        } else if same_text(lowered, "tag") {
            Ok(ElementType::Tag)
        } else if same_text(lowered, "nd") {
            Ok(ElementType::NodeRef)
        } else if same_text(lowered, "member") {
            Ok(ElementType::Member)
        } else {
            Err(Error::UnknownElement)
        }
    }

    /// The kind of element that `name` stands for, in whatever case it is written.
    pub fn from_str(name: &str) -> (kind: Result<ElementType, Error>)
        ensures
            match element_type(name@) {
                Some(found) => kind matches Ok(got) && got == found,
                None => kind matches Err(Error::UnknownElement),
            },
    {
        let lowered = to_lowercase(name);
        ElementType::from_lowercase(lowered.as_str())
    }
}

/// Whether `read` is what `expected` asks for: the value with that view, or
/// an error of that kind.
pub open spec fn yields<T: View>(read: Result<T, Error>, expected: Result<T::V, ErrorKind>) -> bool {
    match expected {
        Ok(value) => read matches Ok(got) && got@ == value,
        Err(kind) => read matches Err(why) && why@ == kind,
    }
}

/// The tag that the attributes `k` and `v` make.
pub open spec fn tag_of(attributes: Seq<AttributeView>) -> Result<TagView, ReasonKind> {
    match text_attribute(attributes, "k"@) {
        Err(reason) => Err(reason),
        Ok(key) => match text_attribute(attributes, "v"@) {
            Err(reason) => Err(reason),
            Ok(val) => Ok(TagView { key, val }),
        },
    }
}

/// The bounds that the four attributes of a bounds element make. Where one
/// of them is missing or spells no coordinate there are no bounds at all.
pub open spec fn bounds_of(attributes: Seq<AttributeView>) -> Result<BoundsView, ReasonKind> {
    match coordinate_attribute(attributes, "minlat"@) {
        Err(reason) => Err(reason),
        Ok(minlat) => match coordinate_attribute(attributes, "minlon"@) {
            Err(reason) => Err(reason),
            Ok(minlon) => match coordinate_attribute(attributes, "maxlat"@) {
                Err(reason) => Err(reason),
                Ok(maxlat) => match coordinate_attribute(attributes, "maxlon"@) {
                    Err(reason) => Err(reason),
                    Ok(maxlon) => Ok(BoundsView { minlat, minlon, maxlat, maxlon }),
                },
            },
        },
    }
}

/// The member that a record of the kind named `lowered`, in lower case,
/// makes with the identifier `id` and the role `role`.
pub open spec fn member_for(lowered: Seq<char>, id: Id, role: Seq<char>) -> Option<MemberView> {
    if lowered == "node"@ {
        Some(MemberView::Node(UnresolvedReference::Node(id), role))
    } else if lowered == "way"@ {
        Some(MemberView::Way(UnresolvedReference::Way(id), role))
    } else if lowered == "relation"@ {
        Some(MemberView::Relation(UnresolvedReference::Relation(id), role))
    } else {
        None
    }
}

/// The member that the attributes `type`, `ref` and `role` make. The type
/// may be written in whatever case; one that names no kind of record gives
/// no member.
pub open spec fn member_of(attributes: Seq<AttributeView>) -> Result<MemberView, ReasonKind> {
    match text_attribute(attributes, "type"@) {
        Err(reason) => Err(reason),
        Ok(kind) => match id_attribute(attributes, "ref"@) {
            Err(reason) => Err(reason),
            Ok(id) => match text_attribute(attributes, "role"@) {
                Err(reason) => Err(reason),
                Ok(role) => match member_for(lowercase_of(kind), id, role) {
                    Some(member) => Ok(member),
                    None => Err(ReasonKind::Missing),
                },
            },
        },
    }
}

/// The tag that the attributes of a tag element make.
pub fn parse_tag(attributes: &Vec<Attribute>) -> (tag: Result<Tag, Error>)
    ensures
        yields(
            tag,
            match tag_of(attribute_views(attributes@)) {
                Ok(tag) => Ok(tag),
                Err(reason) => Err(ErrorKind::MalformedTag(reason)),
            },
        ),
{
    let key = match find_attribute_uncasted("k", attributes) {
        Ok(key) => key,
        Err(reason) => return Err(Error::MalformedTag(reason)),
    };
    let val = match find_attribute_uncasted("v", attributes) {
        Ok(val) => val,
        Err(reason) => return Err(Error::MalformedTag(reason)),
    };
    Ok(Tag { key: key, val: val })
}

/// The bounds that the attributes of a bounds element make.
pub fn parse_bounds(attrs: &Vec<Attribute>) -> (bounds: Result<ElementData, Error>)
    ensures
        yields(
            bounds,
            match bounds_of(attribute_views(attrs@)) {
                Ok(bounds) => Ok(ElementDataView::Bounds(bounds)),
                Err(reason) => Err(ErrorKind::BoundsMissing(reason)),
            },
        ),
{
    let minlat = match find_attribute::<Coordinate>("minlat", attrs) {
        Ok(minlat) => minlat,
        Err(reason) => return Err(Error::BoundsMissing(reason)),
    };
    let minlon = match find_attribute::<Coordinate>("minlon", attrs) {
        Ok(minlon) => minlon,
        Err(reason) => return Err(Error::BoundsMissing(reason)),
    };
    let maxlat = match find_attribute::<Coordinate>("maxlat", attrs) {
        Ok(maxlat) => maxlat,
        Err(reason) => return Err(Error::BoundsMissing(reason)),
    };
    let maxlon = match find_attribute::<Coordinate>("maxlon", attrs) {
        Ok(maxlon) => maxlon,
        Err(reason) => return Err(Error::BoundsMissing(reason)),
    };
    Ok(ElementData::Bounds(minlat, minlon, maxlat, maxlon))
}

/// The member that a record of the kind named `lowered`, in lower case,
/// makes with the identifier `id` and the role `role`.
pub fn member_from_lowercase(lowered: &str, id: Id, role: Role) -> (member: Option<Member>)
    ensures
        match member_for(lowered@, id, role@) {
            Some(expected) => member matches Some(got) && got@ == expected,
            None => member is None,
        },
{
    if same_text(lowered, "node") {
        Some(Member::Node(UnresolvedReference::Node(id), role))
    } else if same_text(lowered, "way") {
        Some(Member::Way(UnresolvedReference::Way(id), role))
    } else if same_text(lowered, "relation") {
        Some(Member::Relation(UnresolvedReference::Relation(id), role))
    } else {
        None
    }
}

/// The member that the attributes of a member element make.
pub fn parse_member(attributes: &Vec<Attribute>) -> (member: Result<Member, Error>)
    ensures
        yields(
            member,
            match member_of(attribute_views(attributes@)) {
                Ok(member) => Ok(member),
                Err(reason) => Err(ErrorKind::MalformedRelation(reason)),
            },
        ),
{
    let el_type = match find_attribute_uncasted("type", attributes) {
        Ok(el_type) => el_type,
        Err(reason) => return Err(Error::MalformedRelation(reason)),
    };
    let el_ref = match find_attribute::<Id>("ref", attributes) {
        Ok(el_ref) => el_ref,
        Err(reason) => return Err(Error::MalformedRelation(reason)),
    };
    let el_role = match find_attribute_uncasted("role", attributes) {
        Ok(el_role) => el_role,
        Err(reason) => return Err(Error::MalformedRelation(reason)),
    };
    let lowered = to_lowercase(el_type.as_str());
    match member_from_lowercase(lowered.as_str(), el_ref, el_role) {
        Some(member) => Ok(member),
        None => Err(Error::MalformedRelation(ErrorReason::Missing)),
    }
}

/// What reading a stretch of a document comes to: the result, and the
/// events that are left for what is read next.
pub struct Walk<T> {
    pub outcome: Result<T, ErrorKind>,
    pub rest: Seq<EventView>,
}

/// What an element has been found to hold so far.
pub struct Children {
    pub tags: Seq<TagView>,
    pub nodes: Seq<UnresolvedReference>,
    pub members: Seq<MemberView>,
}

impl Children {
    /// Nothing found yet.
    pub open spec fn none() -> Children {
        Children { tags: Seq::empty(), nodes: Seq::empty(), members: Seq::empty() }
    }
}

/// The error for an element of kind `owner` that was given up for `reason`.
/// A reference to a node and a member have no error of their own.
pub open spec fn malformed(owner: ElementType, reason: ReasonKind) -> ErrorKind {
    match owner {
        ElementType::Node => ErrorKind::MalformedNode(reason),
        ElementType::Way => ErrorKind::MalformedWay(reason),
        ElementType::Relation => ErrorKind::MalformedRelation(reason),
        ElementType::Tag => ErrorKind::MalformedTag(reason),
        ElementType::Bounds => ErrorKind::BoundsMissing(reason),
        _ => ErrorKind::UnknownElement,
    }
}

/// `tags`, and after them the tag that `attributes` make, if they make one.
/// A tag that lacks its key or its value is passed over.
pub open spec fn with_tag(tags: Seq<TagView>, attributes: Seq<AttributeView>) -> Seq<TagView> {
    match tag_of(attributes) {
        Ok(tag) => tags.push(tag),
        Err(_) => tags,
    }
}

/// What an element of kind `owner` that holds `got` holds once an element
/// of kind `kind` with `attributes` has opened inside it. Every element
/// takes tags, a way takes references to nodes, a relation takes members,
/// and anything else is nested where it may not be.
pub open spec fn with_child(
    owner: ElementType,
    kind: ElementType,
    attributes: Seq<AttributeView>,
    got: Children,
) -> Result<Children, ErrorKind> {
    if kind == ElementType::Tag {
        Ok(Children { tags: with_tag(got.tags, attributes), ..got })
    } else if kind == ElementType::NodeRef && owner == ElementType::Way {
        match id_attribute(attributes, "ref"@) {
            Ok(id) => Ok(Children { nodes: got.nodes.push(UnresolvedReference::Node(id)), ..got }),
            Err(reason) => Err(malformed(owner, reason)),
        }
    } else if kind == ElementType::Member && owner == ElementType::Relation {
        match member_of(attributes) {
            Ok(member) => Ok(Children { members: got.members.push(member), ..got }),
            Err(reason) => Err(malformed(owner, reason)),
        }
    } else {
        Err(malformed(owner, ReasonKind::IllegalNesting))
    }
}

/// The number of open elements once one more has opened. The count stops
/// at the largest number that the machine holds.
pub open spec fn deeper(level: usize) -> usize {
    if level < usize::MAX {
        (level + 1) as usize
    } else {
        level
    }
}

/// The number of open elements once an element inside the one that is read
/// has closed. The element that is read stays open until it is closed by
/// its own name, so the count does not fall below one.
pub open spec fn shallower(level: usize) -> usize {
    if level > 1 {
        (level - 1) as usize
    } else {
        1
    }
}

/// Passing over `events` until `level` open elements have closed: every
/// opening adds one to close, every closing takes one away. It fails where
/// the reader fails first, and stops at the end of the document.
pub open spec fn skip(events: Seq<EventView>, level: usize) -> Walk<()>
    decreases events.len(),
{
    if level == 0 {
        Walk { outcome: Ok(()), rest: events }
    } else if events.len() == 0 {
        Walk { outcome: Err(ErrorKind::XmlParseError), rest: events }
    } else {
        let rest = events.drop_first();
        match events[0] {
            EventView::EndDocument => Walk { outcome: Ok(()), rest: events },
            EventView::StartElement { .. } => skip(rest, deeper(level)),
            EventView::EndElement { .. } => skip(rest, (level - 1) as usize),
            EventView::Other => skip(rest, level),
        }
    }
}

/// Giving an element up for `why` with `level` elements open, the element
/// itself counted: what is left of the element is passed over, so that the
/// reading goes on behind its closing. Where the reader fails on the way,
/// that failure comes in place of `why`.
pub open spec fn given_up<T>(why: ErrorKind, events: Seq<EventView>, level: usize) -> Walk<T> {
    let skipped = skip(events, level);
    Walk {
        outcome: match skipped.outcome {
            Ok(_) => Err(why),
            Err(fault) => Err(fault),
        },
        rest: skipped.rest,
    }
}

/// Reading what an element of kind `owner` holds, from the events that
/// follow the one that opened it, with `got` already found and `level`
/// elements open, the element itself counted.
///
/// The reading ends well at the first event that closes an element of kind
/// `owner`. Events that close other elements, and events that are neither
/// an opening nor a closing, are passed over. The element is given up, with
/// all that it holds, at a name that stands for no kind of element and at a
/// child that the element cannot take. The reading ends badly also where
/// the reader fails, and where the document ends first.
pub open spec fn children(
    owner: ElementType,
    events: Seq<EventView>,
    got: Children,
    level: usize,
) -> Walk<Children>
    decreases events.len(),
{
    if events.len() == 0 {
        Walk { outcome: Err(ErrorKind::XmlParseError), rest: events }
    } else {
        let rest = events.drop_first();
        match events[0] {
            EventView::EndDocument => Walk {
                outcome: Err(malformed(owner, ReasonKind::IllegalNesting)),
                rest: events,
            },
            EventView::Other => children(owner, rest, got, level),
            EventView::EndElement { name } => match element_type(name) {
                None => given_up(ErrorKind::UnknownElement, rest, shallower(level)),
                Some(kind) => if kind == owner {
                    Walk { outcome: Ok(got), rest }
                } else {
                    children(owner, rest, got, shallower(level))
                },
            },
            EventView::StartElement { name, attributes } => match element_type(name) {
                None => given_up(ErrorKind::UnknownElement, rest, deeper(level)),
                Some(kind) => match with_child(owner, kind, attributes, got) {
                    Ok(more) => children(owner, rest, more, deeper(level)),
                    Err(why) => given_up(why, rest, deeper(level)),
                },
            },
        }
    }
}

/// Passing over events never brings events back.
pub proof fn lemma_skip_rest(events: Seq<EventView>, level: usize)
    ensures
        skip(events, level).rest.len() <= events.len(),
    decreases events.len(),
{
    if level > 0 && events.len() > 0 {
        let rest = events.drop_first();
        match events[0] {
            EventView::EndDocument => {},
            EventView::StartElement { .. } => {
                lemma_skip_rest(rest, deeper(level));
            },
            EventView::EndElement { .. } => {
                lemma_skip_rest(rest, (level - 1) as usize);
            },
            EventView::Other => {
                lemma_skip_rest(rest, level);
            },
        }
    }
}

/// Reading never brings events back.
pub proof fn lemma_children_rest(
    owner: ElementType,
    events: Seq<EventView>,
    got: Children,
    level: usize,
)
    ensures
        children(owner, events, got, level).rest.len() <= events.len(),
    decreases events.len(),
{
    if events.len() > 0 {
        let rest = events.drop_first();
        lemma_skip_rest(rest, shallower(level));
        lemma_skip_rest(rest, deeper(level));
        match events[0] {
            EventView::EndDocument => {},
            EventView::Other => {
                lemma_children_rest(owner, rest, got, level);
            },
            EventView::EndElement { name } => {
                lemma_children_rest(owner, rest, got, shallower(level));
            },
            EventView::StartElement { name, attributes } => {
                match element_type(name) {
                    None => {},
                    Some(kind) => match with_child(owner, kind, attributes, got) {
                        Ok(more) => {
                            lemma_children_rest(owner, rest, more, deeper(level));
                        },
                        Err(_) => {},
                    },
                }
            },
        }
    }
}

/// Whether a call that read from `source` did what `walk` says: it gave
/// the result of `walk` and left its events pending.
pub open spec fn walked<T: View>(
    read: Result<T, Error>,
    left: Seq<EventView>,
    walk: Walk<T::V>,
) -> bool {
    yields(read, walk.outcome) && left == walk.rest
}

/// One more element open.
fn one_deeper(level: usize) -> (more: usize)
    ensures
        more == deeper(level),
{
    if level < usize::MAX {
        level + 1
    } else {
        level
    }
}

/// One element fewer open.
fn one_shallower(level: usize) -> (fewer: usize)
    ensures
        fewer == shallower(level),
{
    if level > 1 {
        level - 1
    } else {
        1
    }
}

/// Pulls events from `source` and drops them until `level` open elements
/// have closed.
pub fn skip_elements(source: &mut XmlEvents, level: usize) -> (skipped: Result<(), Error>)
    ensures
        match skip(pending_events(*old(source)), level).outcome {
            Ok(_) => skipped is Ok,
            Err(kind) => skipped matches Err(why) && why@ == kind,
        },
        pending_events(*final(source)) == skip(pending_events(*old(source)), level).rest,
{
    let mut open = level;
    loop
        invariant
            skip(pending_events(*old(source)), level) == skip(pending_events(*source), open),
        decreases pending_events(*source).len(),
    {
        if open == 0 {
            return Ok(());
        }
        match next_event(source) {
            Err(fault) => return Err(Error::XmlParseError(fault)),
            Ok(Event::EndDocument) => return Ok(()),
            Ok(Event::StartElement { .. }) => {
                open = one_deeper(open);
            },
            Ok(Event::EndElement { .. }) => {
                open = open - 1;
            },
            Ok(Event::Other) => {},
        }
    }
}

/// Gives an element up for `why` with `level` elements open, the element
/// itself counted: pulls what is left of the element from `source` and
/// drops it.
pub fn give_up(source: &mut XmlEvents, level: usize, why: Error) -> (given: Result<
    ElementData,
    Error,
>)
    ensures
        walked(
            given,
            pending_events(*final(source)),
            given_up::<ElementDataView>(why@, pending_events(*old(source)), level),
        ),
{
    match skip_elements(source, level) {
        Ok(()) => Err(why),
        Err(fault) => Err(fault),
    }
}

/// The relation that an element with `attributes` makes, read from the
/// events that follow the one that opened it. A relation whose own attributes
/// are not sound is given up at once, with all that it holds.
pub open spec fn relation_element(attributes: Seq<AttributeView>, events: Seq<EventView>) -> Walk<
    ElementDataView,
> {
    match id_attribute(attributes, "id"@) {
        Err(reason) => given_up(ErrorKind::MalformedRelation(reason), events, 1),
        Ok(id) => {
            let walk = children(ElementType::Relation, events, Children::none(), 1);
            Walk {
                outcome: match walk.outcome {
                    Ok(got) => Ok(
                        ElementDataView::Relation(
                            RelationView { id, members: got.members, tags: got.tags },
                        ),
                    ),
                    Err(why) => Err(why),
                },
                rest: walk.rest,
            }
        },
    }
}

/// Reads a relation whose opening event, with `attrs`, has just been pulled
/// from `source`. Where the relation is given up, what is left of it is pulled
/// and dropped.
pub fn parse_relation(source: &mut XmlEvents, attrs: &Vec<Attribute>) -> (relation: Result<
    ElementData,
    Error,
>)
    ensures
        walked(
            relation,
            pending_events(*final(source)),
            relation_element(attribute_views(attrs@), pending_events(*old(source))),
        ),
{
    let id = match find_attribute::<Id>("id", attrs) {
        Ok(id) => id,
        Err(reason) => return give_up(source, 1, Error::MalformedRelation(reason)),
    };

    let mut members: Vec<Member> = Vec::new();
    let mut tags: Vec<Tag> = Vec::new();
    assert(member_views(members@) =~= Seq::empty());
    let mut level: usize = 1;
    let ghost owner = ElementType::Relation;
    let ghost whole = children(owner, pending_events(*source), Children::none(), 1);
    assert(tag_views(tags@) =~= Seq::empty());

    loop
        invariant
            owner == ElementType::Relation,
            id_attribute(attribute_views(attrs@), "id"@) == Ok::<Id, ReasonKind>(id),
            whole == children(owner, pending_events(*old(source)), Children::none(), 1),
            whole == children(
                owner,
                pending_events(*source),
                Children {
                    tags: tag_views(tags@),
                    nodes: Seq::empty(),
                    members: member_views(members@),
                },
                level,
            ),
        decreases pending_events(*source).len(),
    {
        let ghost got = Children {
                    tags: tag_views(tags@),
                    nodes: Seq::empty(),
                    members: member_views(members@),
                };
        match next_event(source) {
            Err(fault) => return Err(Error::XmlParseError(fault)),
            Ok(Event::EndDocument) => {
                return Err(Error::MalformedRelation(ErrorReason::IllegalNesting));
            },
            Ok(Event::EndElement { name }) => {
                let outside = one_shallower(level);
                let element_type = match ElementType::from_str(name.as_str()) {
                    Ok(element_type) => element_type,
                    Err(why) => return give_up(source, outside, why),
                };

                match element_type {
                    ElementType::Relation => return Ok(
                            ElementData::Relation(
                                Relation { id: id, members: members, tags: tags },
                            ),
                        ),
                    _ => {
                        level = outside;
                    },
                }
            },
            Ok(Event::StartElement { name, attributes }) => {
                let inside = one_deeper(level);
                let element_type = match ElementType::from_str(name.as_str()) {
                    Ok(element_type) => element_type,
                    Err(why) => return give_up(source, inside, why),
                };

                match element_type {
                    ElementType::Tag => {
                        if let Ok(tag) = parse_tag(&attributes) {
                            tags.push(tag);
                            proof {
                                assert(tag_views(tags@) =~= got.tags.push(tag@));
                            }
                        }
                        level = inside;
                    },
                    ElementType::Member => {
                        let member = match parse_member(&attributes) {
                            Ok(member) => member,
                            Err(why) => return give_up(source, inside, why),
                        };
                        members.push(member);
                        proof {
                            assert(member_views(members@) =~= got.members.push(member@));
                        }
                        level = inside;
                    },
                    ElementType::Bounds
                    | ElementType::Node
                    | ElementType::Relation
                    | ElementType::Way
                    | ElementType::NodeRef => {
                        return give_up(
                            source,
                            inside,
                            Error::MalformedRelation(ErrorReason::IllegalNesting),
                        );
                    },
                }
            },
            Ok(Event::Other) => {},
        }
    }
}

/// The way that an element with `attributes` makes, read from the
/// events that follow the one that opened it. A way whose own attributes
/// are not sound is given up at once, with all that it holds.
pub open spec fn way_element(attributes: Seq<AttributeView>, events: Seq<EventView>) -> Walk<
    ElementDataView,
> {
    match id_attribute(attributes, "id"@) {
        Err(reason) => given_up(ErrorKind::MalformedWay(reason), events, 1),
        Ok(id) => {
            let walk = children(ElementType::Way, events, Children::none(), 1);
            Walk {
                outcome: match walk.outcome {
                    Ok(got) => Ok(
                        ElementDataView::Way(WayView { id, tags: got.tags, nodes: got.nodes }),
                    ),
                    Err(why) => Err(why),
                },
                rest: walk.rest,
            }
        },
    }
}

/// Reads a way whose opening event, with `attrs`, has just been pulled
/// from `source`. Where the way is given up, what is left of it is pulled
/// and dropped.
pub fn parse_way(source: &mut XmlEvents, attrs: &Vec<Attribute>) -> (way: Result<
    ElementData,
    Error,
>)
    ensures
        walked(
            way,
            pending_events(*final(source)),
            way_element(attribute_views(attrs@), pending_events(*old(source))),
        ),
{
    let id = match find_attribute::<Id>("id", attrs) {
        Ok(id) => id,
        Err(reason) => return give_up(source, 1, Error::MalformedWay(reason)),
    };

    let mut node_refs: Vec<UnresolvedReference> = Vec::new();
    let mut tags: Vec<Tag> = Vec::new();
    let mut level: usize = 1;
    let ghost owner = ElementType::Way;
    let ghost whole = children(owner, pending_events(*source), Children::none(), 1);
    assert(tag_views(tags@) =~= Seq::empty());

    loop
        invariant
            owner == ElementType::Way,
            id_attribute(attribute_views(attrs@), "id"@) == Ok::<Id, ReasonKind>(id),
            whole == children(owner, pending_events(*old(source)), Children::none(), 1),
            whole == children(
                owner,
                pending_events(*source),
                Children {
                    tags: tag_views(tags@),
                    nodes: node_refs@,
                    members: Seq::empty(),
                },
                level,
            ),
        decreases pending_events(*source).len(),
    {
        let ghost got = Children {
            tags: tag_views(tags@),
            nodes: node_refs@,
            members: Seq::empty(),
        };
        match next_event(source) {
            Err(fault) => return Err(Error::XmlParseError(fault)),
            Ok(Event::EndDocument) => {
                return Err(Error::MalformedWay(ErrorReason::IllegalNesting));
            },
            Ok(Event::EndElement { name }) => {
                let outside = one_shallower(level);
                let element_type = match ElementType::from_str(name.as_str()) {
                    Ok(element_type) => element_type,
                    Err(why) => return give_up(source, outside, why),
                };

                match element_type {
                    ElementType::Way => return Ok(ElementData::Way(id, node_refs, tags)),
                    _ => {
                        level = outside;
                    },
                }
            },
            Ok(Event::StartElement { name, attributes }) => {
                let inside = one_deeper(level);
                let element_type = match ElementType::from_str(name.as_str()) {
                    Ok(element_type) => element_type,
                    Err(why) => return give_up(source, inside, why),
                };

                match element_type {
                    ElementType::Tag => {
                        if let Ok(tag) = parse_tag(&attributes) {
                            tags.push(tag);
                            proof {
                                assert(tag_views(tags@) =~= got.tags.push(tag@));
                            }
                        }
                        level = inside;
                    },
                    ElementType::NodeRef => {
                        let node_ref = match find_attribute::<Id>("ref", &attributes) {
                            Ok(node_ref) => node_ref,
                            Err(reason) => {
                                return give_up(source, inside, Error::MalformedWay(reason));
                            },
                        };
                        node_refs.push(UnresolvedReference::Node(node_ref));
                        level = inside;
                    },
                    ElementType::Bounds
                    | ElementType::Node
                    | ElementType::Relation
                    | ElementType::Way
                    | ElementType::Member => {
                        return give_up(
                            source,
                            inside,
                            Error::MalformedWay(ErrorReason::IllegalNesting),
                        );
                    },
                }
            },
            Ok(Event::Other) => {},
        }
    }
}

/// The identifier and the place of a node with `attributes`.
pub open spec fn node_head(attributes: Seq<AttributeView>) -> Result<
    (Id, Seq<char>, Seq<char>),
    ReasonKind,
> {
    match id_attribute(attributes, "id"@) {
        Err(reason) => Err(reason),
        Ok(id) => match coordinate_attribute(attributes, "lat"@) {
            Err(reason) => Err(reason),
            Ok(lat) => match coordinate_attribute(attributes, "lon"@) {
                Err(reason) => Err(reason),
                Ok(lon) => Ok((id, lat, lon)),
            },
        },
    }
}

/// The node that an element with `attributes` makes, read from the
/// events that follow the one that opened it. A node whose own attributes
/// are not sound is given up at once, with all that it holds.
pub open spec fn node_element(attributes: Seq<AttributeView>, events: Seq<EventView>) -> Walk<
    ElementDataView,
> {
    match node_head(attributes) {
        Err(reason) => given_up(ErrorKind::MalformedNode(reason), events, 1),
        Ok((id, lat, lon)) => {
            let walk = children(ElementType::Node, events, Children::none(), 1);
            Walk {
                outcome: match walk.outcome {
                    Ok(got) => Ok(ElementDataView::Node(NodeView { id, lat, lon, tags: got.tags })),
                    Err(why) => Err(why),
                },
                rest: walk.rest,
            }
        },
    }
}

/// Reads a node whose opening event, with `attrs`, has just been pulled
/// from `source`. Where the node is given up, what is left of it is pulled
/// and dropped.
pub fn parse_node(source: &mut XmlEvents, attrs: &Vec<Attribute>) -> (node: Result<
    ElementData,
    Error,
>)
    ensures
        walked(
            node,
            pending_events(*final(source)),
            node_element(attribute_views(attrs@), pending_events(*old(source))),
        ),
{
    let id = match find_attribute::<Id>("id", attrs) {
        Ok(id) => id,
        Err(reason) => return give_up(source, 1, Error::MalformedNode(reason)),
    };
    let lat = match find_attribute::<Coordinate>("lat", attrs) {
        Ok(lat) => lat,
        Err(reason) => return give_up(source, 1, Error::MalformedNode(reason)),
    };
    let lon = match find_attribute::<Coordinate>("lon", attrs) {
        Ok(lon) => lon,
        Err(reason) => return give_up(source, 1, Error::MalformedNode(reason)),
    };

    let mut tags: Vec<Tag> = Vec::new();
    let mut level: usize = 1;
    let ghost owner = ElementType::Node;
    let ghost whole = children(owner, pending_events(*source), Children::none(), 1);
    assert(tag_views(tags@) =~= Seq::empty());

    loop
        invariant
            owner == ElementType::Node,
            node_head(attribute_views(attrs@)) == Ok::<(Id, Seq<char>, Seq<char>), ReasonKind>(
                (id, lat@, lon@),
            ),
            whole == children(owner, pending_events(*old(source)), Children::none(), 1),
            whole == children(
                owner,
                pending_events(*source),
                Children {
                    tags: tag_views(tags@),
                    nodes: Seq::empty(),
                    members: Seq::empty(),
                },
                level,
            ),
        decreases pending_events(*source).len(),
    {
        let ghost got = Children {
            tags: tag_views(tags@),
            nodes: Seq::empty(),
            members: Seq::empty(),
        };
        match next_event(source) {
            Err(fault) => return Err(Error::XmlParseError(fault)),
            Ok(Event::EndDocument) => {
                return Err(Error::MalformedNode(ErrorReason::IllegalNesting));
            },
            Ok(Event::EndElement { name }) => {
                let outside = one_shallower(level);
                let element_type = match ElementType::from_str(name.as_str()) {
                    Ok(element_type) => element_type,
                    Err(why) => return give_up(source, outside, why),
                };

                match element_type {
                    ElementType::Node => return Ok(ElementData::Node(id, lat, lon, tags)),
                    _ => {
                        level = outside;
                    },
                }
            },
            Ok(Event::StartElement { name, attributes }) => {
                let inside = one_deeper(level);
                let element_type = match ElementType::from_str(name.as_str()) {
                    Ok(element_type) => element_type,
                    Err(why) => return give_up(source, inside, why),
                };

                match element_type {
                    ElementType::Tag => {
                        if let Ok(tag) = parse_tag(&attributes) {
                            tags.push(tag);
                            proof {
                                assert(tag_views(tags@) =~= got.tags.push(tag@));
                            }
                        }
                        level = inside;
                    },
                    ElementType::Bounds
                    | ElementType::Node
                    | ElementType::Relation
                    | ElementType::Way
                    | ElementType::NodeRef
                    | ElementType::Member => {
                        return give_up(
                            source,
                            inside,
                            Error::MalformedNode(ErrorReason::IllegalNesting),
                        );
                    },
                }
            },
            Ok(Event::Other) => {},
        }
    }
}

/// What the next element at the top of a document is read as.
///
/// A bounds element is read from its own attributes. A node, a way or a
/// relation is read together with what it holds, or given up together with
/// what it holds. The end of the document is told, and is left pending. An
/// element of another kind, or of none, is an error, and what it holds is
/// read at the top in its turn; any other event is passed over.
pub open spec fn element(events: Seq<EventView>) -> Walk<ElementDataView> {
    if events.len() == 0 {
        Walk { outcome: Err(ErrorKind::XmlParseError), rest: events }
    } else {
        let rest = events.drop_first();
        match events[0] {
            EventView::EndDocument => Walk {
                outcome: Ok(ElementDataView::EndOfDocument),
                rest: events,
            },
            EventView::StartElement { name, attributes } => match element_type(name) {
                Some(ElementType::Bounds) => Walk {
                    outcome: match bounds_of(attributes) {
                        Ok(bounds) => Ok(ElementDataView::Bounds(bounds)),
                        Err(reason) => Err(ErrorKind::BoundsMissing(reason)),
                    },
                    rest,
                },
                Some(ElementType::Node) => node_element(attributes, rest),
                Some(ElementType::Way) => way_element(attributes, rest),
                Some(ElementType::Relation) => relation_element(attributes, rest),
                _ => Walk { outcome: Err(ErrorKind::UnknownElement), rest },
            },
            _ => Walk { outcome: Ok(ElementDataView::Ignored), rest },
        }
    }
}

/// Whatever is read at the top of a document, short of its end, uses up
/// at least one event.
pub proof fn lemma_element_rest(events: Seq<EventView>)
    ensures
        element(events).rest.len() <= events.len(),
        events.len() > 0 && !(events[0] is EndDocument) ==> element(events).rest.len()
            < events.len(),
{
    if events.len() > 0 {
        let rest = events.drop_first();
        lemma_skip_rest(rest, 1);
        lemma_children_rest(ElementType::Node, rest, Children::none(), 1);
        lemma_children_rest(ElementType::Way, rest, Children::none(), 1);
        lemma_children_rest(ElementType::Relation, rest, Children::none(), 1);
    }
}

/// Reads the next element at the top of a document from `source`.
pub fn parse_element_data(source: &mut XmlEvents) -> (data: Result<ElementData, Error>)
    ensures
        walked(data, pending_events(*final(source)), element(pending_events(*old(source)))),
{
    let element = match next_event(source) {
        Ok(element) => element,
        Err(fault) => return Err(Error::XmlParseError(fault)),
    };
    match element {
        Event::EndDocument => Ok(ElementData::EndOfDocument),
        Event::StartElement { name, attributes } => {
            let element_type = ElementType::from_str(name.as_str())?;

            match element_type {
                ElementType::Bounds => parse_bounds(&attributes),
                ElementType::Node => parse_node(source, &attributes),
                ElementType::Way => parse_way(source, &attributes),
                ElementType::Relation => parse_relation(source, &attributes),
                _ => Err(Error::UnknownElement),
            }
        },
        _ => Ok(ElementData::Ignored),
    }
}

/// A bounds element that lacks one of its four attributes gives no bounds.
pub proof fn lemma_incomplete_bounds(attributes: Seq<AttributeView>, name: Seq<char>)
    requires
        name == "minlat"@ || name == "minlon"@ || name == "maxlat"@ || name == "maxlon"@,
        attribute_value(attributes, name) is None,
    ensures
        bounds_of(attributes) is Err,
{
}

/// A way that was read refers to nodes only.
pub proof fn lemma_way_refers_to_nodes(events: Seq<EventView>, got: Children, level: usize)
    requires
        forall|i: int| 0 <= i < got.nodes.len() ==> #[trigger] got.nodes[i] is Node,
    ensures
        children(ElementType::Way, events, got, level).outcome matches Ok(all) ==> forall|i: int|
            0 <= i < all.nodes.len() ==> #[trigger] all.nodes[i] is Node,
    decreases events.len(),
{
    if events.len() > 0 {
        let rest = events.drop_first();
        match events[0] {
            EventView::EndDocument => {},
            EventView::Other => {
                lemma_way_refers_to_nodes(rest, got, level);
            },
            EventView::EndElement { name } => {
                lemma_way_refers_to_nodes(rest, got, shallower(level));
            },
            EventView::StartElement { name, attributes } => {
                match element_type(name) {
                    None => {},
                    Some(kind) => match with_child(ElementType::Way, kind, attributes, got) {
                        Ok(more) => {
                            lemma_way_refers_to_nodes(rest, more, deeper(level));
                        },
                        Err(_) => {},
                    },
                }
            },
        }
    }
}

/// Whether `why` is an error that the reading of what an element of kind
/// `owner` holds can end with: the element is malformed, a name stands for
/// no kind of element, or the reader fails.
pub open spec fn ends_reading(owner: ElementType, why: ErrorKind) -> bool {
    match why {
        ErrorKind::XmlParseError => true,
        ErrorKind::UnknownElement => true,
        ErrorKind::MalformedNode(_) => owner == ElementType::Node,
        ErrorKind::MalformedWay(_) => owner == ElementType::Way,
        ErrorKind::MalformedRelation(_) => owner == ElementType::Relation,
        _ => false,
    }
}

/// Passing over events fails only where the reader fails.
pub proof fn lemma_skip_fault(events: Seq<EventView>, level: usize)
    ensures
        skip(events, level).outcome matches Err(why) ==> why == ErrorKind::XmlParseError,
    decreases events.len(),
{
    if level > 0 && events.len() > 0 {
        let rest = events.drop_first();
        match events[0] {
            EventView::EndDocument => {},
            EventView::StartElement { .. } => {
                lemma_skip_fault(rest, deeper(level));
            },
            EventView::EndElement { .. } => {
                lemma_skip_fault(rest, (level - 1) as usize);
            },
            EventView::Other => {
                lemma_skip_fault(rest, level);
            },
        }
    }
}

/// The errors that the reading of what a node, a way or a relation holds
/// can end with.
pub proof fn lemma_children_fault(
    owner: ElementType,
    events: Seq<EventView>,
    got: Children,
    level: usize,
)
    requires
        owner == ElementType::Node || owner == ElementType::Way || owner == ElementType::Relation,
    ensures
        children(owner, events, got, level).outcome matches Err(why) ==> ends_reading(owner, why),
    decreases events.len(),
{
    if events.len() > 0 {
        let rest = events.drop_first();
        lemma_skip_fault(rest, shallower(level));
        lemma_skip_fault(rest, deeper(level));
        match events[0] {
            EventView::EndDocument => {},
            EventView::Other => {
                lemma_children_fault(owner, rest, got, level);
            },
            EventView::EndElement { name } => {
                lemma_children_fault(owner, rest, got, shallower(level));
            },
            EventView::StartElement { name, attributes } => {
                match element_type(name) {
                    None => {},
                    Some(kind) => match with_child(owner, kind, attributes, got) {
                        Ok(more) => {
                            lemma_children_fault(owner, rest, more, deeper(level));
                        },
                        Err(_) => {},
                    },
                }
            },
        }
    }
}

/// Whether an element of kind `owner` takes a child of kind `kind`.
pub open spec fn takes(owner: ElementType, kind: ElementType) -> bool {
    ||| kind == ElementType::Tag
    ||| kind == ElementType::NodeRef && owner == ElementType::Way
    ||| kind == ElementType::Member && owner == ElementType::Relation
}

/// Whether `event` opens an element that an element of kind `owner` does
/// not take.
pub open spec fn intrudes(owner: ElementType, event: EventView) -> bool {
    event matches EventView::StartElement { name, .. } && element_type(name) matches Some(kind)
        && !takes(owner, kind)
}

/// Whether `event` closes an element of kind `owner`.
pub open spec fn closes_element(owner: ElementType, event: EventView) -> bool {
    event matches EventView::EndElement { name } && element_type(name) == Some(owner)
}

/// By how many `event` changes the number of open elements.
pub open spec fn change(event: EventView) -> int {
    match event {
        EventView::StartElement { .. } => 1,
        EventView::EndElement { .. } => -1,
        _ => 0,
    }
}

/// How many more elements are open behind the first `n` of `events` than
/// before them.
pub open spec fn opened(events: Seq<EventView>, n: int) -> int
    decreases n,
{
    if n <= 0 {
        0
    } else {
        opened(events, n - 1) + change(events[n - 1])
    }
}

/// With `level` elements open before `events`, the event at `close` is the
/// one at which the outermost of them closes: the count of open elements
/// reaches nothing there and not before. The document does not end before
/// it, and the machine can hold the count.
pub open spec fn closes_at(events: Seq<EventView>, level: int, close: int) -> bool {
    &&& 0 <= close < events.len()
    &&& level + opened(events, close + 1) == 0
    &&& forall|i: int| 0 <= i <= close ==> 1 <= level + #[trigger] opened(events, i) < usize::MAX
    &&& forall|i: int| 0 <= i < close ==> !(#[trigger] events[i] is EndDocument)
}

proof fn lemma_opened_shift(events: Seq<EventView>, n: int)
    requires
        0 <= n < events.len(),
    ensures
        opened(events.drop_first(), n) + change(events[0]) == opened(events, n + 1),
    decreases n,
{
    if n > 0 {
        lemma_opened_shift(events, n - 1);
    } else {
        assert(opened(events, 1) == opened(events, 0) + change(events[0]));
    }
}

/// Behind the first event, the closing is one event nearer.
proof fn lemma_closes_at_rest(events: Seq<EventView>, level: int, close: int)
    requires
        closes_at(events, level, close),
    ensures
        1 <= level < usize::MAX,
        close == 0 ==> level == 1 && events[0] is EndElement,
        close > 0 ==> closes_at(events.drop_first(), level + change(events[0]), close - 1) && 1
            <= level + change(events[0]) < usize::MAX && !(events[0] is EndDocument),
{
    assert(opened(events, 1) == opened(events, 0) + change(events[0]));
    if close > 0 {
        let rest = events.drop_first();
        let next = level + change(events[0]);
        lemma_opened_shift(events, close);
        assert forall|i: int| 0 <= i <= close - 1 implies 1 <= next + #[trigger] opened(rest, i)
            < usize::MAX by {
            lemma_opened_shift(events, i);
        }
        assert(forall|i: int| 0 <= i < close - 1 ==> !(#[trigger] rest[i] is EndDocument));
    }
}

/// Passing over events with `level` elements open ends behind the event at
/// which the outermost of them closes.
pub proof fn lemma_skip_to_closing(events: Seq<EventView>, level: usize, close: int)
    requires
        closes_at(events, level as int, close),
    ensures
        skip(events, level) == (Walk::<()> { outcome: Ok(()), rest: events.skip(close + 1) }),
    decreases close,
{
    lemma_closes_at_rest(events, level as int, close);
    let rest = events.drop_first();
    if close == 0 {
        assert(skip(rest, 0) == (Walk::<()> { outcome: Ok(()), rest }));
    } else {
        assert(rest.skip(close) =~= events.skip(close + 1));
        match events[0] {
            EventView::StartElement { .. } => {
                lemma_skip_to_closing(rest, deeper(level), close - 1);
            },
            EventView::EndElement { .. } => {
                lemma_skip_to_closing(rest, (level - 1) as usize, close - 1);
            },
            _ => {
                lemma_skip_to_closing(rest, level, close - 1);
            },
        }
    }
}

/// An element that is given up is given up with all that it holds: where
/// the reading of what it holds ends badly, and not for a failure of the
/// reader, it goes on behind the event that closes the element.
pub proof fn lemma_given_up_with_subtree(
    owner: ElementType,
    events: Seq<EventView>,
    got: Children,
    level: usize,
    close: int,
)
    requires
        closes_at(events, level as int, close),
        closes_element(owner, events[close]),
    ensures
        children(owner, events, got, level).outcome matches Err(why) ==> why
            != ErrorKind::XmlParseError && children(owner, events, got, level).rest == events.skip(
            close + 1,
        ),
    decreases close,
{
    lemma_closes_at_rest(events, level as int, close);
    let rest = events.drop_first();
    if close > 0 {
        match events[0] {
            EventView::StartElement { name, attributes } => {
                lemma_skip_to_closing(rest, deeper(level), close - 1);
                match element_type(name) {
                    None => {},
                    Some(kind) => match with_child(owner, kind, attributes, got) {
                        Ok(more) => {
                            lemma_given_up_with_subtree(owner, rest, more, deeper(level), close - 1);
                        },
                        Err(_) => {},
                    },
                }
            },
            EventView::EndElement { name } => {
                lemma_skip_to_closing(rest, shallower(level), close - 1);
                lemma_given_up_with_subtree(owner, rest, got, shallower(level), close - 1);
            },
            _ => {
                lemma_given_up_with_subtree(owner, rest, got, level, close - 1);
            },
        }
    }
}

/// An element that holds, before it closes, an element which it does not
/// take is given up with all that it holds, whatever else it holds, and
/// not for a failure of the reader.
pub proof fn lemma_intruder_gives_up(
    owner: ElementType,
    events: Seq<EventView>,
    got: Children,
    level: usize,
    at: int,
    close: int,
)
    requires
        closes_at(events, level as int, close),
        0 <= at < close,
        intrudes(owner, events[at]),
        forall|i: int| 0 <= i < at ==> !closes_element(owner, #[trigger] events[i]),
    ensures
        children(owner, events, got, level).outcome matches Err(why) && why
            != ErrorKind::XmlParseError,
        children(owner, events, got, level).rest == events.skip(close + 1),
    decreases at,
{
    lemma_closes_at_rest(events, level as int, close);
    let rest = events.drop_first();
    match events[0] {
        EventView::StartElement { name, attributes } => {
            lemma_skip_to_closing(rest, deeper(level), close - 1);
            match element_type(name) {
                None => {},
                Some(kind) => match with_child(owner, kind, attributes, got) {
                    Ok(more) => {
                        lemma_intruder_gives_up(owner, rest, more, deeper(level), at - 1, close - 1);
                    },
                    Err(_) => {},
                },
            }
        },
        EventView::EndElement { name } => {
            lemma_skip_to_closing(rest, shallower(level), close - 1);
            lemma_intruder_gives_up(owner, rest, got, shallower(level), at - 1, close - 1);
        },
        _ => {
            lemma_intruder_gives_up(owner, rest, got, level, at - 1, close - 1);
        },
    }
}

/// Whether the element that opens with the first of `events` closes at
/// `close`, counting openings and closings.
pub open spec fn spans(events: Seq<EventView>, close: int) -> bool {
    events.len() > 0 && events[0] is StartElement && closes_at(events.drop_first(), 1, close - 1)
}

/// A node that holds, before it closes, a node, a way, a relation, a
/// reference to a node, a member or bounds is given up with all that it
/// holds: reading it gives an error, and not one that ends the reading of
/// the document, and the reading goes on behind the closing of the node.
pub proof fn lemma_node_with_nested_element(events: Seq<EventView>, at: int, close: int)
    requires
        spans(events, close),
        events[0] matches EventView::StartElement { name, .. } && element_type(name) == Some(
            ElementType::Node,
        ),
        0 < at < close,
        intrudes(ElementType::Node, events[at]),
        forall|i: int| 0 < i < at ==> !closes_element(ElementType::Node, #[trigger] events[i]),
    ensures
        element(events).outcome matches Err(ErrorKind::MalformedNode(_))
            || element(events).outcome matches Err(ErrorKind::UnknownElement),
        element(events).rest == events.skip(close + 1),
{
    let rest = events.drop_first();
    assert(forall|i: int|
        0 <= i < at - 1 ==> !closes_element(ElementType::Node, #[trigger] rest[i]));
    lemma_skip_to_closing(rest, 1, close - 1);
    lemma_intruder_gives_up(ElementType::Node, rest, Children::none(), 1, at - 1, close - 1);
    lemma_children_fault(ElementType::Node, rest, Children::none(), 1);
}

/// A node, a way or a relation that is given up is given up with all that
/// it holds: where reading it gives an error, and not one that ends the
/// reading of the document, the reading goes on behind its closing.
pub proof fn lemma_element_given_up_with_subtree(events: Seq<EventView>, close: int)
    requires
        spans(events, close),
        events[0] matches EventView::StartElement { name, .. } && element_type(name) matches Some(
            kind,
        ) && (kind == ElementType::Node || kind == ElementType::Way || kind
            == ElementType::Relation) && closes_element(kind, events[close]),
        element(events).outcome matches Err(why) && why != ErrorKind::XmlParseError,
    ensures
        element(events).outcome matches Err(why) && !(why matches ErrorKind::BoundsMissing(_)),
        element(events).rest == events.skip(close + 1),
{
    let rest = events.drop_first();
    lemma_skip_to_closing(rest, 1, close - 1);
    match events[0] {
        EventView::StartElement { name, attributes } => {
            let kind = element_type(name).unwrap();
            lemma_given_up_with_subtree(kind, rest, Children::none(), 1, close - 1);
            lemma_children_fault(kind, rest, Children::none(), 1);
        },
        _ => {},
    }
}

/// Whether a record is made of elements of kind `kind`.
pub open spec fn is_record_kind(kind: ElementType) -> bool {
    kind == ElementType::Node || kind == ElementType::Way || kind == ElementType::Relation
}

/// Whether the first of `events` opens an element of kind `kind` that is
/// whole: counting openings and closings it closes at `close`, and that is
/// the first event to close an element of its kind. So it is in every
/// document of XML.
pub open spec fn whole_element(events: Seq<EventView>, kind: ElementType, close: int) -> bool {
    &&& spans(events, close)
    &&& events[0] matches EventView::StartElement { name, .. } && element_type(name) == Some(kind)
    &&& closes_element(kind, events[close])
    &&& forall|i: int| 0 < i < close ==> !closes_element(kind, #[trigger] events[i])
}

/// The reading of what a whole element holds ends behind the closing of
/// the element, whether the element is read well or given up, and the
/// reader does not fail on the way.
pub proof fn lemma_children_end_at_closing(
    owner: ElementType,
    events: Seq<EventView>,
    got: Children,
    level: usize,
    close: int,
)
    requires
        closes_at(events, level as int, close),
        closes_element(owner, events[close]),
        forall|i: int| 0 <= i < close ==> !closes_element(owner, #[trigger] events[i]),
    ensures
        children(owner, events, got, level).outcome != Err::<Children, ErrorKind>(
            ErrorKind::XmlParseError,
        ),
        children(owner, events, got, level).rest == events.skip(close + 1),
    decreases close,
{
    lemma_closes_at_rest(events, level as int, close);
    let rest = events.drop_first();
    if close > 0 {
        match events[0] {
            EventView::StartElement { name, attributes } => {
                lemma_skip_to_closing(rest, deeper(level), close - 1);
                match element_type(name) {
                    None => {},
                    Some(kind) => match with_child(owner, kind, attributes, got) {
                        Ok(more) => {
                            lemma_children_end_at_closing(
                                owner,
                                rest,
                                more,
                                deeper(level),
                                close - 1,
                            );
                        },
                        Err(_) => {},
                    },
                }
            },
            EventView::EndElement { name } => {
                lemma_skip_to_closing(rest, shallower(level), close - 1);
                lemma_children_end_at_closing(owner, rest, got, shallower(level), close - 1);
            },
            _ => {
                lemma_children_end_at_closing(owner, rest, got, level, close - 1);
            },
        }
    }
}

/// The reading of a whole node, way or relation ends behind its closing,
/// whether the element is read well or given up, and the reader does not
/// fail on the way: the element gives a record, or an error that costs it
/// alone.
pub proof fn lemma_element_ends_at_closing(events: Seq<EventView>, kind: ElementType, close: int)
    requires
        is_record_kind(kind),
        whole_element(events, kind, close),
    ensures
        element(events).rest == events.skip(close + 1),
        match element(events).outcome {
            Ok(record) => record is Node || record is Way || record is Relation,
            Err(why) => why != ErrorKind::XmlParseError && !(why matches ErrorKind::BoundsMissing(
                _,
            )),
        },
{
    let rest = events.drop_first();
    lemma_skip_to_closing(rest, 1, close - 1);
    lemma_children_end_at_closing(kind, rest, Children::none(), 1, close - 1);
    lemma_children_fault(kind, rest, Children::none(), 1);
}

} // verus!
