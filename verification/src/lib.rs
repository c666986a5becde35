//! An in-memory model of OpenStreetMap XML documents.
//!
//! A document is read event by event into an [`OSM`] value that owns its
//! bounds, nodes, ways and relations. Ways and relations refer to other
//! records by identifier; [`OSM::resolve_reference`] looks such a reference
//! up. [`Way::is_polygon`] tells the ways that bound an area from those
//! that draw a line.

pub mod attribute;
pub mod elements;
pub mod error;
pub mod event;
pub mod model;
pub mod number;
pub mod parser;
pub mod polygon;
pub mod store;
pub mod text;

pub use elements::{
    Bounds, Member, Node, Reference, Relation, Role, Tag, UnresolvedReference, Way,
};
pub use error::{Error, ErrorReason};
pub use model::OSM;
pub use number::{Coordinate, Id};
