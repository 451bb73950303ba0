//! The table of listed instruments, a hash map filed by instrument number.

use crate::record::StockRecord;
use vstd::prelude::*;

verus! {

/// The records of the listed instruments in a `hashbrown::HashMap`, each
/// under the number of its instrument.
#[verifier::external_body]
pub struct Registry {
    map: hashbrown::HashMap<u64, StockRecord>,
}

/// The records that a registry holds, by instrument number.
pub uninterp spec fn registry_contents(registry: Registry) -> Map<u64, StockRecord>;

/// `HashMap::new`: an empty map.
#[verifier::external_body]
pub(crate) fn registry_new() -> (registry: Registry)
    ensures
        (registry_contents(registry) == Map::<u64, StockRecord>::empty()),
{
    Registry { map: hashbrown::HashMap::new() }
}

/// `HashMap::insert`: files the record under the number, in place of the
/// record that was filed there, if any; the other entries stay.
#[verifier::external_body]
pub(crate) fn registry_insert(registry: &mut Registry, code: u64, record: StockRecord)
    ensures
        registry_contents(*final(registry)) == registry_contents(*old(registry)).insert(code, record),
{
    registry.map.insert(code, record);
}

/// `HashMap::get`: the record filed under the number, or `None` where none
/// is.
#[verifier::external_body]
pub(crate) fn registry_get(registry: &Registry, code: u64) -> (record: Option<&StockRecord>)
    ensures
        record.is_some() == registry_contents(*registry).contains_key(code),
        record.is_some() ==> *record.unwrap() == registry_contents(*registry)[code],
{
    registry.map.get(&code)
}

/// `HashMap::get_mut`: the record filed under the number, to be changed in
/// place, or `None` where none is. What the caller leaves in the record is
/// what the map holds under the number afterwards; the other entries stay.
#[verifier::external_body]
pub(crate) fn registry_get_mut(registry: &mut Registry, code: u64) -> (record: Option<
    &mut StockRecord,
>)
    ensures
        match record {
            Some(slot) => registry_contents(*old(registry)).contains_key(code) && *slot
                == registry_contents(*old(registry))[code] && registry_contents(*final(registry))
                == registry_contents(*old(registry)).insert(code, *final(slot)),
            None => !registry_contents(*old(registry)).contains_key(code) && registry_contents(
                *final(registry),
            ) == registry_contents(*old(registry)),
        },
{
    registry.map.get_mut(&code)
}

} // verus!
