//! The tables in which a map keeps its records, each under its identifier.
//! They are hash maps with the FNV hasher.

use vstd::prelude::*;
use fnv::FnvHashMap;
use crate::number::Id;

verus! {

/// `fnv::FnvHasher`, the hasher of the tables. Nothing is known of it.
#[verifier::external_type_specification]
#[verifier::external_body]
pub struct ExFnvHasher(fnv::FnvHasher);

/// `std::hash::BuildHasherDefault`, which makes the hashers of a table.
/// Nothing is known of it.
#[verifier::external_type_specification]
#[verifier::external_body]
#[verifier::reject_recursive_types(H)]
pub struct ExBuildHasherDefault<H>(std::hash::BuildHasherDefault<H>);

/// `FnvHashMap::default`: a table that holds nothing.
#[verifier::external_body]
pub(crate) fn new_table<V>() -> (table: FnvHashMap<Id, V>)
    ensures
        forall|id: Id| !table@.contains_key(id),
{
    FnvHashMap::default()
}

/// `HashMap::insert` on a table with the FNV hasher: `value` stands under
/// `id` afterwards, whatever stood there before is handed back, and every
/// other record stays.
#[verifier::external_body]
pub(crate) fn table_insert<V>(table: &mut FnvHashMap<Id, V>, id: Id, value: V) -> (replaced:
    Option<V>)
    ensures
        final(table)@ == old(table)@.insert(id, value),
        replaced == if old(table)@.contains_key(id) {
            Some(old(table)@[id])
        } else {
            None
        },
{
    table.insert(id, value)
}

/// `HashMap::get` on a table with the FNV hasher: the record that stands
/// under `id`, if one does.
#[verifier::external_body]
pub(crate) fn table_get<V>(table: &FnvHashMap<Id, V>, id: Id) -> (found: Option<&V>)
    ensures
        found == if table@.contains_key(id) {
            Some(&table@[id])
        } else {
            None
        },
{
    table.get(&id)
}

} // verus!
