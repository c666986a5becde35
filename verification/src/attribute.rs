//! Looking an attribute up by name and reading its value.

use vstd::prelude::*;
use crate::error::{ErrorReason, ReasonKind};
use crate::event::{attribute_views, Attribute, AttributeView};
use crate::number::{id_of, is_float_text, parse_id, Coordinate, Id};
use crate::text::same_text;

verus! {

/// The value of the first attribute named `name`. Names match exactly,
/// letter case included.
pub open spec fn attribute_value(attributes: Seq<AttributeView>, name: Seq<char>) -> Option<
    Seq<char>,
>
    decreases attributes.len(),
{
    if attributes.len() == 0 {
        None
    } else if attributes[0].name == name {
        Some(attributes[0].value)
    } else {
        attribute_value(attributes.drop_first(), name)
    }
}

/// The text of the attribute `name`.
pub open spec fn text_attribute(attributes: Seq<AttributeView>, name: Seq<char>) -> Result<
    Seq<char>,
    ReasonKind,
> {
    match attribute_value(attributes, name) {
        Some(text) => Ok(text),
        None => Err(ReasonKind::Missing),
    }
}

/// The identifier that the attribute `name` spells.
pub open spec fn id_attribute(attributes: Seq<AttributeView>, name: Seq<char>) -> Result<
    Id,
    ReasonKind,
> {
    match attribute_value(attributes, name) {
        Some(text) => match id_of(text) {
            Some(id) => Ok(id),
            None => Err(ReasonKind::ParseInt),
        },
        None => Err(ReasonKind::Missing),
    }
}

/// The coordinate that the attribute `name` spells.
pub open spec fn coordinate_attribute(
    attributes: Seq<AttributeView>,
    name: Seq<char>,
) -> Result<Seq<char>, ReasonKind> {
    match attribute_value(attributes, name) {
        Some(text) => if is_float_text(text) {
            Ok(text)
        } else {
            Err(ReasonKind::ParseFloat)
        },
        None => Err(ReasonKind::Missing),
    }
}

/// The value of the first attribute named `name`, as it stands.
pub fn find_attribute_uncasted(name: &str, attrs: &Vec<Attribute>) -> (found: Result<
    String,
    ErrorReason,
>)
    ensures
        match attribute_value(attribute_views(attrs@), name@) {
            Some(text) => found matches Ok(got) && got@ == text,
            None => found matches Err(why) && why@ == ReasonKind::Missing,
        },
{
    let ghost all = attribute_views(attrs@);
    assert(all.skip(0) =~= all);
    let mut i: usize = 0;
    while i < attrs.len()
        invariant
            i <= attrs.len(),
            all == attribute_views(attrs@),
            attribute_value(all, name@) == attribute_value(all.skip(i as int), name@),
        decreases attrs.len() - i,
    {
        proof {
            assert(all.skip(i as int).drop_first() =~= all.skip(i + 1));
        }
        if same_text(attrs[i].name.as_str(), name) {
            return Ok(attrs[i].value.clone());
        }
        i += 1;
    }
    Err(ErrorReason::Missing)
}

/// A value that the text of an attribute can spell.
pub trait Scalar: Sized {
    /// Whether `read` is what reading `text` comes to: the value that the
    /// text spells, or the reason for which it spells none.
    spec fn reads(text: Seq<char>, read: Result<Self, ErrorReason>) -> bool;

    /// Reads the value that `text` spells.
    fn from_text(text: &str) -> (read: Result<Self, ErrorReason>)
        ensures
            Self::reads(text@, read),
    ;
}

impl Scalar for Id {
    open spec fn reads(text: Seq<char>, read: Result<Id, ErrorReason>) -> bool {
        match id_of(text) {
            Some(id) => read matches Ok(got) && got == id,
            None => read matches Err(why) && why@ == ReasonKind::ParseInt,
        }
    }

    fn from_text(text: &str) -> (read: Result<Id, ErrorReason>) {
        match parse_id(text) {
            Ok(id) => Ok(id),
            Err(fault) => Err(ErrorReason::ParseInt(fault)),
        }
    }
}

impl Scalar for Coordinate {
    open spec fn reads(text: Seq<char>, read: Result<Coordinate, ErrorReason>) -> bool {
        if is_float_text(text) {
            read matches Ok(got) && got@ == text
        } else {
            read matches Err(why) && why@ == ReasonKind::ParseFloat
        }
    }

    fn from_text(text: &str) -> (read: Result<Coordinate, ErrorReason>) {
        match Coordinate::parse(text) {
            Some(coordinate) => Ok(coordinate),
            None => Err(ErrorReason::ParseFloat),
        }
    }
}

/// The value that the first attribute named `name` spells.
pub fn find_attribute<T: Scalar>(name: &str, attrs: &Vec<Attribute>) -> (found: Result<
    T,
    ErrorReason,
>)
    ensures
        match attribute_value(attribute_views(attrs@), name@) {
            Some(text) => T::reads(text, found),
            None => found matches Err(why) && why@ == ReasonKind::Missing,
        },
{
    let val_raw = find_attribute_uncasted(name, attrs)?;
    T::from_text(val_raw.as_str())
}

} // verus!
