//! The table inside one shard, and the digest that places keys.
//!
//! The table is the hash table of the `dashmap_shard` crate, keyed and
//! valued by `u64` and hashing with the 64-bit Fx hasher of the `fxhash`
//! crate. Neither is verified here. This module declares their types,
//! names what a table holds and what a key hashes to, and states what
//! each table operation used by the map does to the table's entries.
//! Nothing else in the crate calls into either crate.

use vstd::prelude::*;

verus! {

/// The 64-bit Fx hasher of `fxhash`; only ever named as a type argument.
#[verifier::external_type_specification]
#[verifier::external_body]
pub struct ExFxHasher64(fxhash::FxHasher64);

/// `std::hash::BuildHasherDefault`; only ever named as a type argument.
#[verifier::external_type_specification]
#[verifier::external_body]
#[verifier::reject_recursive_types(H)]
pub struct ExBuildHasherDefault<H>(std::hash::BuildHasherDefault<H>);

/// The hash table of `dashmap_shard`, opaque to the verifier.
#[verifier::external_type_specification]
#[verifier::external_body]
#[verifier::reject_recursive_types(K)]
#[verifier::reject_recursive_types(V)]
#[verifier::reject_recursive_types(S)]
pub struct ExShardTable<K, V, S>(dashmap_shard::HashMap<K, V, S>);

/// The table of one shard.
pub type Table = dashmap_shard::HashMap<
    u64,
    u64,
    std::hash::BuildHasherDefault<fxhash::FxHasher64>,
>;

/// The digest of a key: what `fxhash::hash64` returns for it. The Fx hash
/// has no seed and no state, so the digest depends on the key alone.
pub uninterp spec fn fx_digest(key: u64) -> u64;

/// The entries that a table holds, as a map from key to value.
pub uninterp spec fn table_entries(table: Table) -> Map<u64, u64>;

/// The map without entries.
pub open spec fn no_entries() -> Map<u64, u64> {
    Map::empty()
}

/// The value stored under `key`, if there is one.
pub open spec fn lookup(entries: Map<u64, u64>, key: u64) -> Option<u64> {
    if entries.contains_key(key) {
        Some(entries[key])
    } else {
        None
    }
}

/// The entry stored under `key`, if there is one.
pub open spec fn lookup_entry(entries: Map<u64, u64>, key: u64) -> Option<(u64, u64)> {
    if entries.contains_key(key) {
        Some((key, entries[key]))
    } else {
        None
    }
}

/// `pairs` lists the entries of `entries`: every entry occurs in it, each
/// exactly once, and nothing else does. The order is left open.
pub open spec fn lists_entries(pairs: Seq<(u64, u64)>, entries: Map<u64, u64>) -> bool {
    &&& forall|i: int, j: int|
        0 <= i < j < pairs.len() ==> (#[trigger] pairs[i]).0 != (#[trigger] pairs[j]).0
    &&& forall|i: int|
        0 <= i < pairs.len() ==> entries.contains_key((#[trigger] pairs[i]).0)
            && entries[pairs[i].0] == pairs[i].1
    &&& forall|key: u64| #[trigger]
        entries.contains_key(key) ==> exists|i: int|
            0 <= i < pairs.len() && (#[trigger] pairs[i]).0 == key
}

/// A listing is as long as the map that it lists is large, and only a
/// finite map has one.
pub proof fn lemma_listing_counts(pairs: Seq<(u64, u64)>, entries: Map<u64, u64>)
    requires
        lists_entries(pairs, entries),
    ensures
        entries.dom().finite(),
        entries.len() == pairs.len(),
    decreases pairs.len(),
{
    if pairs.len() == 0 {
        assert(entries.dom() =~= Set::<u64>::empty());
    } else {
        let last = pairs.last();
        let front = pairs.drop_last();
        let rest = entries.remove(last.0);
        assert(pairs[pairs.len() - 1] == last);
        assert forall|i: int| 0 <= i < front.len() implies rest.contains_key(
            (#[trigger] front[i]).0,
        ) && rest[front[i].0] == front[i].1 by {
            assert(front[i] == pairs[i]);
            assert(pairs[i].0 != pairs[pairs.len() - 1].0);
        }
        assert forall|key: u64| #[trigger] rest.contains_key(key) implies exists|i: int|
            0 <= i < front.len() && (#[trigger] front[i]).0 == key by {
            assert(entries.contains_key(key));
            let i = choose|i: int| 0 <= i < pairs.len() && (#[trigger] pairs[i]).0 == key;
            assert(front[i] == pairs[i]);
        }
        assert forall|i: int, j: int| 0 <= i < j < front.len() implies (#[trigger] front[i]).0
            != (#[trigger] front[j]).0 by {
            assert(front[i] == pairs[i]);
            assert(front[j] == pairs[j]);
        }
        lemma_listing_counts(front, rest);
        assert(entries.contains_key(last.0));
        assert(entries.dom() =~= rest.dom().insert(last.0));
        assert(!rest.dom().contains(last.0));
    }
}

/// Calls `fxhash::hash64` on the key. Trusted: the result is the key's
/// digest, by which `fx_digest` is defined.
#[verifier::external_body]
pub(crate) fn digest_of(key: u64) -> (digest: u64)
    ensures
        digest == fx_digest(key),
{
    fxhash::hash64(&key)
}

/// Calls `dashmap_shard::HashMap::default`. Trusted: the new table holds
/// no entries.
#[verifier::external_body]
pub(crate) fn table_new() -> (table: Table)
    ensures
        table_entries(table) == no_entries(),
{
    dashmap_shard::HashMap::default()
}

/// Calls `dashmap_shard::HashMap::insert_with_hash_nocheck`. Trusted:
/// the key is stored with the value, replacing what was stored under it,
/// and the value replaced is returned. The table looks the key up by
/// the digest it is given and later by the digest it computes itself
/// with its own Fx hasher, so the two must agree: the caller hands in
/// the key's digest and nothing else.
#[verifier::external_body]
pub(crate) fn table_insert(table: &mut Table, key: u64, value: u64, digest: u64) -> (previous:
    Option<u64>)
    requires
        digest == fx_digest(key),
    ensures
        table_entries(*final(table)) == table_entries(*old(table)).insert(key, value),
        previous == lookup(table_entries(*old(table)), key),
{
    table.insert_with_hash_nocheck(key, value, digest)
}

/// Calls `dashmap_shard::HashMap::remove_entry`. Trusted: the entry under
/// the key leaves the table and is returned; without such an entry the
/// table stays as it is and nothing is returned.
#[verifier::external_body]
pub(crate) fn table_remove_entry(table: &mut Table, key: u64) -> (removed: Option<(u64, u64)>)
    ensures
        table_entries(*final(table)) == table_entries(*old(table)).remove(key),
        removed == lookup_entry(table_entries(*old(table)), key),
{
    table.remove_entry(&key)
}

/// Calls `dashmap_shard::HashMap::get`. Trusted: the value stored under
/// the key is returned, if there is one.
#[verifier::external_body]
pub(crate) fn table_get(table: &Table, key: u64) -> (found: Option<u64>)
    ensures
        found == lookup(table_entries(*table), key),
{
    table.get(&key).copied()
}

/// Calls `dashmap_shard::HashMap::iter` and copies out what it yields.
/// Trusted: the iterator visits every entry once. Its order depends on
/// the table's layout and is not stated.
#[verifier::external_body]
pub(crate) fn table_pairs(table: &Table) -> (pairs: Vec<(u64, u64)>)
    ensures
        lists_entries(pairs@, table_entries(*table)),
{
    table.iter().map(|(key, value)| (*key, *value)).collect()
}

} // verus!
