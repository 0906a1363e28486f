//! The hash map behind the stemming cache: an `ahash::AHashMap` and what is believed of it.

use ahash::{AHashMap, RandomState};
use vstd::prelude::*;

use crate::analyze::stemming_cache::{StemOutcome, MAX_KEY_LEN};

verus! {

/// `ahash::AHashMap`, a `std::collections::HashMap` with a randomly seeded hasher.
#[verifier::external_type_specification]
#[verifier::external_body]
#[verifier::reject_recursive_types(K)]
#[verifier::reject_recursive_types(V)]
#[verifier::reject_recursive_types(S)]
pub struct ExAHashMap<K, V, S>(AHashMap<K, V, S>);

/// `ahash::RandomState`, the hasher seed of an `AHashMap`.
#[verifier::external_type_specification]
#[verifier::external_body]
pub struct ExRandomState(RandomState);

/// A cache key as plain values: its length and its zero-padded bytes.
pub type PackedKey = (u8, [u8; MAX_KEY_LEN]);

/// A map from cache keys to stemming outcomes.
pub type EntryMap = AHashMap<PackedKey, StemOutcome>;

/// No map is made for more entries than this. A large table takes fewer than 64 bytes for each
/// entry that it has room for, so the table for this many can still be addressed.
pub const MAX_ENTRIES: usize = (isize::MAX as usize) / 64;

/// What a map holds.
pub uninterp spec fn entries(map: EntryMap) -> Map<PackedKey, StemOutcome>;

/// How many entries a map was made for.
pub uninterp spec fn made_for(map: EntryMap) -> nat;

/// `AHashMap::with_capacity` makes an empty map for `capacity` entries. Where the table would
/// exceed the address space the call panics; [`MAX_ENTRIES`] leaves such capacities out.
#[verifier::external_body]
pub(crate) fn with_capacity(capacity: usize) -> (map: EntryMap)
    requires
        capacity <= MAX_ENTRIES,
    ensures
        entries(map).dom() == Set::<PackedKey>::empty(),
        made_for(map) == capacity,
{
    AHashMap::with_capacity(capacity)
}

/// `HashMap::clear`, reached through the map's `DerefMut`, removes every entry and keeps the
/// allocated memory.
#[verifier::external_body]
pub(crate) fn clear(map: &mut EntryMap)
    ensures
        entries(*final(map)).dom() == Set::<PackedKey>::empty(),
        made_for(*final(map)) == made_for(*old(map)),
{
    map.clear();
}

/// `AHashMap::get` returns the value stored under `key`, if there is one.
#[verifier::external_body]
pub(crate) fn get(map: &EntryMap, key: &PackedKey) -> (outcome: Option<StemOutcome>)
    ensures
        outcome == (if entries(*map).contains_key(*key) {
            Some(entries(*map)[*key])
        } else {
            None
        }),
{
    map.get(key).copied()
}

/// `AHashMap::insert` stores `outcome` under `key`, in place of what was stored there, and
/// leaves the other entries alone. A map that holds fewer entries than its capacity does not
/// reallocate; where the table would have to grow, and might exceed the address space, the call
/// is not made.
#[verifier::external_body]
pub(crate) fn insert(map: &mut EntryMap, key: PackedKey, outcome: StemOutcome)
    requires
        exists|n: usize| #[trigger]
            has_capacity(*old(map), n) && entries(*old(map)).len() < n,
    ensures
        entries(*final(map)) == entries(*old(map)).insert(key, outcome),
        made_for(*final(map)) == made_for(*old(map)),
{
    map.insert(key, outcome);
}

/// `HashMap::len`, reached through the map's `Deref`, is the number of entries.
#[verifier::external_body]
pub(crate) fn len(map: &EntryMap) -> (n: usize)
    ensures
        n == entries(*map).len(),
{
    map.len()
}

/// `HashMap::capacity`, reached through the map's `Deref`, is how many entries the map can hold
/// before it reallocates: at least as many as it was made for. How many more is up to the
/// allocator and is left open.
#[verifier::external_body]
pub(crate) fn capacity(map: &EntryMap) -> (n: usize)
    ensures
        n >= made_for(*map),
{
    map.capacity()
}

/// Whether `n` is what [`capacity`] returns of `map`.
pub(crate) open spec fn has_capacity(map: EntryMap, n: usize) -> bool {
    call_ensures(capacity, (&map,), n)
}

/// `RandomState::hash_one` with the seed of `map`, which differs from map to map and from
/// process to process: nothing is claimed of the hash.
#[verifier::external_body]
pub(crate) fn hash_one(map: &EntryMap, key: &PackedKey) -> u64 {
    map.hasher().hash_one(key)
}

/// `AHashMap::clone` copies the entries. How many more the copy has room for is left open: it
/// counts as made for none.
#[verifier::external_body]
pub(crate) fn duplicate(map: &EntryMap) -> (copy: EntryMap)
    ensures
        entries(copy) == entries(*map),
        made_for(copy) == 0,
{
    map.clone()
}

} // verus!
