//! The records of a map: tags, bounds, nodes, ways, relations, and the
//! references by which ways and relations name other records.

use vstd::prelude::*;
use crate::number::{Coordinate, Id};
use crate::polygon;

verus! {

/// The part that a member plays in a relation. May be empty.
pub type Role = String;

/// A key and a value attached to a node, a way or a relation.
#[derive(Debug, PartialEq, Clone)]
pub struct Tag {
    pub key: String,
    pub val: String,
}

/// A tag, by the characters of its key and of its value.
pub struct TagView {
    pub key: Seq<char>,
    pub val: Seq<char>,
}

impl View for Tag {
    type V = TagView;

    open spec fn view(&self) -> TagView {
        TagView { key: self.key@, val: self.val@ }
    }
}

/// The tags of `tags`, each by its view.
pub open spec fn tag_views(tags: Seq<Tag>) -> Seq<TagView> {
    tags.map_values(|tag: Tag| tag@)
}

/// The rectangle that a document declares for itself.
#[derive(Debug, PartialEq, Clone)]
pub struct Bounds {
    pub minlat: Coordinate,
    pub minlon: Coordinate,
    pub maxlat: Coordinate,
    pub maxlon: Coordinate,
}

/// Bounds, by the texts of their coordinates.
pub struct BoundsView {
    pub minlat: Seq<char>,
    pub minlon: Seq<char>,
    pub maxlat: Seq<char>,
    pub maxlon: Seq<char>,
}

impl View for Bounds {
    type V = BoundsView;

    open spec fn view(&self) -> BoundsView {
        BoundsView {
            minlat: self.minlat@,
            minlon: self.minlon@,
            maxlat: self.maxlat@,
            maxlon: self.maxlon@,
        }
    }
}

/// A point of the map.
#[derive(Debug, PartialEq, Clone)]
pub struct Node {
    pub id: Id,
    pub lat: Coordinate,
    pub lon: Coordinate,
    pub tags: Vec<Tag>,
}

/// A node, by the texts of its coordinates and the views of its tags.
pub struct NodeView {
    pub id: Id,
    pub lat: Seq<char>,
    pub lon: Seq<char>,
    pub tags: Seq<TagView>,
}

impl View for Node {
    type V = NodeView;

    open spec fn view(&self) -> NodeView {
        NodeView { id: self.id, lat: self.lat@, lon: self.lon@, tags: tag_views(self.tags@) }
    }
}

/// An identifier together with the kind of record that it names. Nothing
/// says that the map holds such a record.
#[derive(Debug, PartialEq, Eq, Copy, Clone, Structural)]
pub enum UnresolvedReference {
    Node(Id),
    Way(Id),
    Relation(Id),
}

impl UnresolvedReference {
    /// The identifier that the reference carries.
    pub open spec fn id(self) -> Id {
        match self {
            UnresolvedReference::Node(id) => id,
            UnresolvedReference::Way(id) => id,
            UnresolvedReference::Relation(id) => id,
        }
    }
}

/// A line or a ring through nodes, in the order of `nodes`.
#[derive(Debug, PartialEq, Clone)]
pub struct Way {
    pub id: Id,
    pub tags: Vec<Tag>,
    pub nodes: Vec<UnresolvedReference>,
}

/// A way, by the views of its tags.
pub struct WayView {
    pub id: Id,
    pub tags: Seq<TagView>,
    pub nodes: Seq<UnresolvedReference>,
}

impl View for Way {
    type V = WayView;

    open spec fn view(&self) -> WayView {
        WayView { id: self.id, tags: tag_views(self.tags@), nodes: self.nodes@ }
    }
}

impl Way {
    /// Whether the way bounds an area.
    pub fn is_polygon(&self) -> (area: bool)
        ensures
            area == polygon::way_is_polygon(self@),
    {
        polygon::is_polygon(self)
    }
}

/// A record that belongs to a relation, and the part it plays there.
#[derive(Debug, PartialEq, Clone)]
pub enum Member {
    Node(UnresolvedReference, Role),
    Way(UnresolvedReference, Role),
    Relation(UnresolvedReference, Role),
}

/// A member, by the characters of its role.
pub enum MemberView {
    Node(UnresolvedReference, Seq<char>),
    Way(UnresolvedReference, Seq<char>),
    Relation(UnresolvedReference, Seq<char>),
}

impl View for Member {
    type V = MemberView;

    open spec fn view(&self) -> MemberView {
        match *self {
            Member::Node(reference, role) => MemberView::Node(reference, role@),
            Member::Way(reference, role) => MemberView::Way(reference, role@),
            Member::Relation(reference, role) => MemberView::Relation(reference, role@),
        }
    }
}

/// The members of `members`, each by its view.
pub open spec fn member_views(members: Seq<Member>) -> Seq<MemberView> {
    members.map_values(|member: Member| member@)
}

/// A group of records.
#[derive(Debug, PartialEq, Clone)]
pub struct Relation {
    pub id: Id,
    pub members: Vec<Member>,
    pub tags: Vec<Tag>,
}

/// A relation, by the views of its members and of its tags.
pub struct RelationView {
    pub id: Id,
    pub members: Seq<MemberView>,
    pub tags: Seq<TagView>,
}

impl View for Relation {
    type V = RelationView;

    open spec fn view(&self) -> RelationView {
        RelationView {
            id: self.id,
            members: member_views(self.members@),
            tags: tag_views(self.tags@),
        }
    }
}

/// What a reference leads to: a record that the map holds, borrowed from
/// the map, or nothing.
#[derive(Debug, PartialEq, Clone)]
pub enum Reference<'a> {
    Node(&'a Node),
    Way(&'a Way),
    Relation(&'a Relation),
    Unresolved,
}

} // verus!
