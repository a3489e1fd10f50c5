//! The map as a whole, when nobody else touches it.
//!
//! The operations of the map work on one shard each, and say what they do
//! to that shard. This module puts the shards side by side, as a sequence
//! of maps in shard order, and states what the operations add up to:
//! that the shards together behave as one map, that a key has its entry
//! in one shard only, and that a pass over the shards lists every entry
//! once. These are the facts that hold of a map between two operations of
//! a single thread while no other thread works on it.
//!
//! The steps are those of the executable code. `DashMap::insert` says
//! that guards of the key's shard tell its insert (`DashMap::stored`);
//! where `shards` has, in the key's place, what the first of these guards
//! holds, the insert is the step `inserted`, and the value returned is
//! what `found` gives. Likewise `DashMap::remove` is the step `removed`,
//! and `DashMap::get` and `DashMap::get_mut` return what `found` gives.
//! The lemmas at the end of this module prove it. That the guards are
//! those of the call, and that `shards` is the map as the call found it,
//! is the premise "no other thread", which no contract can state.

use crate::lock::{lock_made_with, ShardReadGuard, ShardWriteGuard};
use crate::mapref::{Ref, RefMut};
use crate::table::{fx_digest, lists_entries, lookup, lookup_entry, no_entries};
use crate::util::{lemma_shard_index_in_range, shard_index, DIGEST_BITS};
use crate::DashMap;
use vstd::arithmetic::power2::pow2;
use vstd::prelude::*;

verus! {

/// The shard that `key` belongs to when `bits` digest bits select a shard.
pub open spec fn shard_of(key: u64, bits: nat) -> int {
    shard_index(fx_digest(key), bits) as int
}

/// There are as many shards as `bits` routing bits can name.
pub open spec fn well_sized(shards: Seq<Map<u64, u64>>, bits: nat) -> bool {
    &&& bits <= DIGEST_BITS
    &&& shards.len() == pow2(bits)
}

/// Every entry sits in the shard that its key belongs to.
pub open spec fn well_routed(shards: Seq<Map<u64, u64>>, bits: nat) -> bool {
    &&& well_sized(shards, bits)
    &&& forall|i: int, key: u64|
        0 <= i < shards.len() && #[trigger] shards[i].contains_key(key) ==> shard_of(key, bits)
            == i
}

/// The one map that the shards make up: a key has the value that its own
/// shard stores under it.
pub open spec fn contents(shards: Seq<Map<u64, u64>>, bits: nat) -> Map<u64, u64> {
    Map::new(
        |key: u64| shards[shard_of(key, bits)].contains_key(key),
        |key: u64| shards[shard_of(key, bits)][key],
    )
}

/// The shards after `value` was stored under `key`.
pub open spec fn inserted(shards: Seq<Map<u64, u64>>, bits: nat, key: u64, value: u64) -> Seq<
    Map<u64, u64>,
> {
    shards.update(shard_of(key, bits), shards[shard_of(key, bits)].insert(key, value))
}

/// The shards after the entry under `key` was taken out.
pub open spec fn removed(shards: Seq<Map<u64, u64>>, bits: nat, key: u64) -> Seq<Map<u64, u64>> {
    shards.update(shard_of(key, bits), shards[shard_of(key, bits)].remove(key))
}

/// What a lookup of `key` finds: the value in the key's shard, if any.
pub open spec fn found(shards: Seq<Map<u64, u64>>, bits: nat, key: u64) -> Option<u64> {
    lookup(shards[shard_of(key, bits)], key)
}

/// What a pass over the shards hands out, given what it lists of each
/// shard: the listings one after the other, in shard order.
pub open spec fn pass(listings: Seq<Seq<(u64, u64)>>) -> Seq<(u64, u64)>
    decreases listings.len(),
{
    if listings.len() == 0 {
        Seq::empty()
    } else {
        pass(listings.drop_last()) + listings.last()
    }
}

/// `handed` is what a pass over `shards` hands out: a listing of the first
/// shard, then one of the second, and so on, each shard's entries exactly
/// once and in some order.
pub open spec fn lists_shards(handed: Seq<(u64, u64)>, shards: Seq<Map<u64, u64>>) -> bool {
    exists|listings: Seq<Seq<(u64, u64)>>| #[trigger] is_pass_over(listings, handed, shards)
}

/// `listings` lists the shards one by one, and `handed` is the listings
/// one after the other.
pub open spec fn is_pass_over(
    listings: Seq<Seq<(u64, u64)>>,
    handed: Seq<(u64, u64)>,
    shards: Seq<Map<u64, u64>>,
) -> bool {
    &&& listings.len() == shards.len()
    &&& forall|i: int| 0 <= i < shards.len() ==> lists_entries(#[trigger] listings[i], shards[i])
    &&& handed == pass(listings)
}

/// Every key belongs to one of the shards.
pub proof fn lemma_shard_of_in_range(shards: Seq<Map<u64, u64>>, bits: nat, key: u64)
    requires
        well_sized(shards, bits),
    ensures
        0 <= shard_of(key, bits) < shards.len(),
{
    lemma_shard_index_in_range(fx_digest(key), bits);
}

/// A lookup finds what the map as a whole holds.
pub proof fn lemma_found_is_lookup(shards: Seq<Map<u64, u64>>, bits: nat, key: u64)
    requires
        well_sized(shards, bits),
    ensures
        found(shards, bits, key) == lookup(contents(shards, bits), key),
{
}

/// A key that was inserted is found, with the value inserted.
pub proof fn lemma_insert_then_lookup(
    shards: Seq<Map<u64, u64>>,
    bits: nat,
    key: u64,
    value: u64,
)
    requires
        well_sized(shards, bits),
    ensures
        found(inserted(shards, bits, key, value), bits, key) == Some(value),
{
    lemma_shard_of_in_range(shards, bits, key);
}

/// Inserting keeps every entry in its key's shard, and changes the map as
/// a whole as inserting into one map would.
pub proof fn lemma_insert_refines(shards: Seq<Map<u64, u64>>, bits: nat, key: u64, value: u64)
    requires
        well_routed(shards, bits),
    ensures
        well_routed(inserted(shards, bits, key, value), bits),
        contents(inserted(shards, bits, key, value), bits) == contents(shards, bits).insert(
            key,
            value,
        ),
{
    lemma_shard_of_in_range(shards, bits, key);
    let after = inserted(shards, bits, key, value);
    assert forall|other: u64| #[trigger]
        contents(after, bits).contains_key(other) <==> contents(shards, bits).insert(
            key,
            value,
        ).contains_key(other) by {
        lemma_shard_of_in_range(shards, bits, other);
    }
    assert forall|other: u64| #[trigger]
        contents(after, bits).contains_key(other) implies contents(after, bits)[other]
        == contents(shards, bits).insert(key, value)[other] by {
        lemma_shard_of_in_range(shards, bits, other);
    }
    assert(contents(after, bits) =~= contents(shards, bits).insert(key, value));
}

/// Removing keeps every entry in its key's shard, and changes the map as
/// a whole as removing from one map would.
pub proof fn lemma_remove_refines(shards: Seq<Map<u64, u64>>, bits: nat, key: u64)
    requires
        well_routed(shards, bits),
    ensures
        well_routed(removed(shards, bits, key), bits),
        contents(removed(shards, bits, key), bits) == contents(shards, bits).remove(key),
{
    lemma_shard_of_in_range(shards, bits, key);
    let after = removed(shards, bits, key);
    assert forall|other: u64| #[trigger]
        contents(after, bits).contains_key(other) <==> contents(shards, bits).remove(
            key,
        ).contains_key(other) by {
        lemma_shard_of_in_range(shards, bits, other);
    }
    assert forall|other: u64| #[trigger]
        contents(after, bits).contains_key(other) implies contents(after, bits)[other]
        == contents(shards, bits).remove(key)[other] by {
        lemma_shard_of_in_range(shards, bits, other);
    }
    assert(contents(after, bits) =~= contents(shards, bits).remove(key));
}

/// Inserting the same key twice: the second insert is handed the value of
/// the first as the one it replaces, and afterwards the key has exactly
/// one entry, in its own shard, holding the second value. No other key is
/// gained or lost.
pub proof fn lemma_insert_twice(
    shards: Seq<Map<u64, u64>>,
    bits: nat,
    key: u64,
    first: u64,
    second: u64,
)
    requires
        well_routed(shards, bits),
    ensures
        found(inserted(shards, bits, key, first), bits, key) == Some(first),
        forall|i: int|
            0 <= i < shards.len() ==> (#[trigger] inserted(
                inserted(shards, bits, key, first),
                bits,
                key,
                second,
            )[i].contains_key(key) <==> i == shard_of(key, bits)),
        contents(inserted(inserted(shards, bits, key, first), bits, key, second), bits)
            == contents(shards, bits).insert(key, second),
        contents(inserted(inserted(shards, bits, key, first), bits, key, second), bits).dom()
            == contents(inserted(shards, bits, key, first), bits).dom(),
        contents(inserted(inserted(shards, bits, key, first), bits, key, second), bits).len()
            == contents(inserted(shards, bits, key, first), bits).len(),
{
    lemma_shard_of_in_range(shards, bits, key);
    let once = inserted(shards, bits, key, first);
    let twice = inserted(once, bits, key, second);
    lemma_insert_refines(shards, bits, key, first);
    lemma_insert_refines(once, bits, key, second);
    assert(contents(shards, bits).insert(key, first).insert(key, second) =~= contents(
        shards,
        bits,
    ).insert(key, second));
    assert(contents(twice, bits).dom() =~= contents(once, bits).dom());
    assert forall|i: int| 0 <= i < shards.len() implies (#[trigger] twice[i].contains_key(key)
        <==> i == shard_of(key, bits)) by {
        if twice[i].contains_key(key) {
            assert(shard_of(key, bits) == i);
        }
    }
}

/// Removing a key that has no entry finds nothing to return and leaves
/// every shard, and so the size of the map, as it was.
pub proof fn lemma_remove_absent(shards: Seq<Map<u64, u64>>, bits: nat, key: u64)
    requires
        well_sized(shards, bits),
        found(shards, bits, key) is None,
    ensures
        lookup_entry(shards[shard_of(key, bits)], key) is None,
        removed(shards, bits, key) == shards,
        contents(removed(shards, bits, key), bits) == contents(shards, bits),
        contents(removed(shards, bits, key), bits).len() == contents(shards, bits).len(),
{
    lemma_shard_of_in_range(shards, bits, key);
    let at = shard_of(key, bits);
    assert(shards[at].remove(key) =~= shards[at]);
    assert(removed(shards, bits, key) =~= shards);
}

/// A pass over the first `upto` shards hands out every listed entry of
/// those shards, and only those.
proof fn lemma_pass_upto(
    shards: Seq<Map<u64, u64>>,
    bits: nat,
    listings: Seq<Seq<(u64, u64)>>,
    upto: int,
)
    requires
        well_routed(shards, bits),
        listings.len() == shards.len(),
        forall|i: int| 0 <= i < shards.len() ==> lists_entries(#[trigger] listings[i], shards[i]),
        0 <= upto <= shards.len(),
    ensures
        forall|at: int|
            0 <= at < pass(listings.take(upto)).len() ==> {
                let entry = #[trigger] pass(listings.take(upto))[at];
                &&& 0 <= shard_of(entry.0, bits) < upto
                &&& shards[shard_of(entry.0, bits)].contains_key(entry.0)
                &&& shards[shard_of(entry.0, bits)][entry.0] == entry.1
            },
        forall|a: int, b: int|
            0 <= a < b < pass(listings.take(upto)).len() ==> pass(listings.take(upto))[a].0
                != pass(listings.take(upto))[b].0,
        forall|key: u64|
            0 <= shard_of(key, bits) < upto && #[trigger] shards[shard_of(key, bits)].contains_key(
                key,
            ) ==> exists|at: int|
                0 <= at < pass(listings.take(upto)).len() && pass(listings.take(upto))[at].0
                    == key,
    decreases upto,
{
    let taken = listings.take(upto);
    if upto == 0 {
        assert(pass(taken).len() == 0);
    } else {
        let last = upto - 1;
        lemma_pass_upto(shards, bits, listings, last);
        assert(taken.drop_last() =~= listings.take(last));
        assert(taken.last() == listings[last]);
        let head = pass(listings.take(last));
        let tail = listings[last];
        assert(pass(taken) == head + tail);
        assert(lists_entries(tail, shards[last]));
        assert forall|at: int| 0 <= at < pass(taken).len() implies {
            let entry = #[trigger] pass(taken)[at];
            &&& 0 <= shard_of(entry.0, bits) < upto
            &&& shards[shard_of(entry.0, bits)].contains_key(entry.0)
            &&& shards[shard_of(entry.0, bits)][entry.0] == entry.1
        } by {
            if at < head.len() {
                assert(pass(taken)[at] == head[at]);
            } else {
                let j = at - head.len();
                assert(pass(taken)[at] == tail[j]);
                assert(shards[last].contains_key(tail[j].0));
                assert(shard_of(tail[j].0, bits) == last);
            }
        }
        assert forall|a: int, b: int| 0 <= a < b < pass(taken).len() implies pass(taken)[a].0
            != pass(taken)[b].0 by {
            if b < head.len() {
                assert(pass(taken)[a] == head[a]);
                assert(pass(taken)[b] == head[b]);
            } else if a < head.len() {
                let j = b - head.len();
                assert(pass(taken)[a] == head[a]);
                assert(pass(taken)[b] == tail[j]);
                assert(shards[last].contains_key(tail[j].0));
                assert(shard_of(tail[j].0, bits) == last);
                assert(shard_of(head[a].0, bits) < last);
            } else {
                let i = a - head.len();
                let j = b - head.len();
                assert(pass(taken)[a] == tail[i]);
                assert(pass(taken)[b] == tail[j]);
            }
        }
        assert forall|key: u64|
            0 <= shard_of(key, bits) < upto && #[trigger] shards[shard_of(key, bits)].contains_key(
                key,
            ) implies exists|at: int| 0 <= at < pass(taken).len() && pass(taken)[at].0 == key by {
            if shard_of(key, bits) < last {
                let at = choose|at: int| 0 <= at < head.len() && head[at].0 == key;
                assert(pass(taken)[at] == head[at]);
            } else {
                assert(shards[last].contains_key(key));
                let j = choose|j: int| 0 <= j < tail.len() && tail[j].0 == key;
                assert(pass(taken)[head.len() + j] == tail[j]);
            }
        }
    }
}

/// A pass over all shards hands out the entries of the map as a whole,
/// each exactly once: no entry is skipped and none comes twice, whatever
/// the order in which each shard lists its own.
pub proof fn lemma_pass_lists_contents(
    shards: Seq<Map<u64, u64>>,
    bits: nat,
    listings: Seq<Seq<(u64, u64)>>,
)
    requires
        well_routed(shards, bits),
        listings.len() == shards.len(),
        forall|i: int| 0 <= i < shards.len() ==> lists_entries(#[trigger] listings[i], shards[i]),
    ensures
        lists_entries(pass(listings), contents(shards, bits)),
{
    lemma_pass_upto(shards, bits, listings, shards.len() as int);
    assert(listings.take(shards.len() as int) =~= listings);
    let all = pass(listings);
    let whole = contents(shards, bits);
    assert forall|i: int| 0 <= i < all.len() implies #[trigger] whole.contains_key(all[i].0)
        && whole[all[i].0] == all[i].1 by {
        let entry = all[i];
        assert(shards[shard_of(entry.0, bits)].contains_key(entry.0));
    }
    assert forall|key: u64| #[trigger] whole.contains_key(key) implies exists|i: int|
        0 <= i < all.len() && all[i].0 == key by {
        lemma_shard_of_in_range(shards, bits, key);
        assert(shards[shard_of(key, bits)].contains_key(key));
    }
}

/// What a pass over the shards hands out is the map as a whole, each
/// entry exactly once, where every entry sits in its key's shard.
pub proof fn lemma_pass_over_lists_contents(
    shards: Seq<Map<u64, u64>>,
    bits: nat,
    handed: Seq<(u64, u64)>,
)
    requires
        well_routed(shards, bits),
        lists_shards(handed, shards),
    ensures
        lists_entries(handed, contents(shards, bits)),
{
    let listings = choose|listings: Seq<Seq<(u64, u64)>>| #[trigger]
        is_pass_over(listings, handed, shards);
    lemma_pass_lists_contents(shards, bits, listings);
}

/// The shards of a map as they were made: what each lock was made with.
pub open spec fn made(map: DashMap) -> Seq<Map<u64, u64>> {
    Seq::new(map.shard_count(), |i: int| lock_made_with(map.shard_locks()[i]))
}

/// A new map is empty. Its shards as made hold no entry, so every entry
/// sits where it belongs, the map as a whole has no entry, no key is
/// found, and a pass over the shards hands out nothing.
pub proof fn lemma_new_map_is_empty(map: DashMap, listings: Seq<Seq<(u64, u64)>>)
    requires
        map.made_empty(),
        pow2(map.shard_bits()) == map.shard_count(),
        map.shard_bits() < DIGEST_BITS,
        listings.len() == map.shard_count(),
        forall|i: int|
            0 <= i < listings.len() ==> lists_entries(#[trigger] listings[i], made(map)[i]),
    ensures
        well_routed(made(map), map.shard_bits()),
        contents(made(map), map.shard_bits()) == no_entries(),
        forall|key: u64| #[trigger] found(made(map), map.shard_bits(), key) is None,
        pass(listings).len() == 0,
{
    let bits = map.shard_bits();
    let shards = made(map);
    assert forall|key: u64| #[trigger] found(shards, bits, key) is None by {
        lemma_shard_of_in_range(shards, bits, key);
    }
    assert forall|key: u64| !(#[trigger] contents(shards, bits).contains_key(key)) by {
        lemma_shard_of_in_range(shards, bits, key);
    }
    assert(contents(shards, bits) =~= no_entries());
    lemma_pass_lists_contents(shards, bits, listings);
    if pass(listings).len() > 0 {
        assert(contents(shards, bits).contains_key(pass(listings)[0].0));
    }
}

/// An insert is the step `inserted`. Let `before` and `after` tell an
/// insert (`DashMap::stored`), and let `shards` have, in the key's place,
/// what `before` holds. Then `shards` with what `after` holds in the
/// key's place is `inserted`: the key's shard has the entry and every
/// other shard is as it was. The value returned is what a lookup finds in
/// `shards`, a lookup afterwards finds the new value, and every other key
/// is found as before. If every entry sat in its key's shard, every entry
/// still does, and the map as a whole has gained the entry and nothing
/// else.
pub proof fn lemma_stored_is_inserted(
    map: DashMap,
    shards: Seq<Map<u64, u64>>,
    before: ShardWriteGuard,
    after: ShardWriteGuard,
    key: u64,
    value: u64,
    previous: Option<u64>,
)
    requires
        map.stored(before, after, key, value, previous),
        well_sized(shards, map.shard_bits()),
        shards[shard_of(key, map.shard_bits())] == before@,
    ensures
        map.shard_of(key) == shard_of(key, map.shard_bits()),
        shards.update(shard_of(key, map.shard_bits()), after@) == inserted(
            shards,
            map.shard_bits(),
            key,
            value,
        ),
        previous == found(shards, map.shard_bits(), key),
        found(inserted(shards, map.shard_bits(), key, value), map.shard_bits(), key) == Some(
            value,
        ),
        forall|other: u64|
            other != key ==> #[trigger] found(
                inserted(shards, map.shard_bits(), key, value),
                map.shard_bits(),
                other,
            ) == found(shards, map.shard_bits(), other),
        forall|i: int|
            0 <= i < shards.len() && i != shard_of(key, map.shard_bits()) ==> #[trigger] inserted(
                shards,
                map.shard_bits(),
                key,
                value,
            )[i] == shards[i],
        well_routed(shards, map.shard_bits()) ==> {
            &&& well_routed(inserted(shards, map.shard_bits(), key, value), map.shard_bits())
            &&& contents(inserted(shards, map.shard_bits(), key, value), map.shard_bits())
                == contents(shards, map.shard_bits()).insert(key, value)
        },
{
    let bits = map.shard_bits();
    lemma_shard_of_in_range(shards, bits, key);
    assert forall|other: u64| other != key implies #[trigger] found(
        inserted(shards, bits, key, value),
        bits,
        other,
    ) == found(shards, bits, other) by {
        lemma_shard_of_in_range(shards, bits, other);
    }
    if well_routed(shards, bits) {
        lemma_insert_refines(shards, bits, key, value);
    }
}

/// A removal is the step `removed`. Let `before` and `after` tell a
/// removal (`DashMap::taken`), and let `shards` have, in the key's place,
/// what `before` holds. Then `shards` with what `after` holds in the
/// key's place is `removed`: the key's shard has lost the entry under the
/// key and every other shard is as it was. The entry returned is what a
/// lookup finds in `shards`, a lookup afterwards finds nothing, and every
/// other key is found as before. If every entry sat in its key's shard,
/// every entry still does, and the map as a whole has lost the key and
/// nothing else.
pub proof fn lemma_taken_is_removed(
    map: DashMap,
    shards: Seq<Map<u64, u64>>,
    before: ShardWriteGuard,
    after: ShardWriteGuard,
    key: u64,
    taken: Option<(u64, u64)>,
)
    requires
        map.taken(before, after, key, taken),
        well_sized(shards, map.shard_bits()),
        shards[shard_of(key, map.shard_bits())] == before@,
    ensures
        map.shard_of(key) == shard_of(key, map.shard_bits()),
        shards.update(shard_of(key, map.shard_bits()), after@) == removed(
            shards,
            map.shard_bits(),
            key,
        ),
        taken is Some <==> found(shards, map.shard_bits(), key) is Some,
        taken matches Some(entry) ==> entry.0 == key && Some(entry.1) == found(
            shards,
            map.shard_bits(),
            key,
        ),
        found(removed(shards, map.shard_bits(), key), map.shard_bits(), key) is None,
        forall|other: u64|
            other != key ==> #[trigger] found(
                removed(shards, map.shard_bits(), key),
                map.shard_bits(),
                other,
            ) == found(shards, map.shard_bits(), other),
        forall|i: int|
            0 <= i < shards.len() && i != shard_of(key, map.shard_bits()) ==> #[trigger] removed(
                shards,
                map.shard_bits(),
                key,
            )[i] == shards[i],
        well_routed(shards, map.shard_bits()) ==> {
            &&& well_routed(removed(shards, map.shard_bits(), key), map.shard_bits())
            &&& contents(removed(shards, map.shard_bits(), key), map.shard_bits()) == contents(
                shards,
                map.shard_bits(),
            ).remove(key)
        },
{
    let bits = map.shard_bits();
    lemma_shard_of_in_range(shards, bits, key);
    assert forall|other: u64| other != key implies #[trigger] found(
        removed(shards, bits, key),
        bits,
        other,
    ) == found(shards, bits, other) by {
        lemma_shard_of_in_range(shards, bits, other);
    }
    if well_routed(shards, bits) {
        lemma_remove_refines(shards, bits, key);
    }
}

/// A lookup returns what `found` gives. Let `guard` tell a lookup
/// (`DashMap::looked_up`), and let `shards` have, in the key's place,
/// what `guard` holds. Then a reference is returned exactly if a lookup
/// in `shards` finds the key, and its value is the value found.
pub proof fn lemma_looked_up_is_found(
    map: DashMap,
    shards: Seq<Map<u64, u64>>,
    guard: ShardReadGuard,
    key: u64,
    entry: Option<Ref>,
)
    requires
        map.looked_up(guard, key, entry),
        well_sized(shards, map.shard_bits()),
        shards[shard_of(key, map.shard_bits())] == guard@,
    ensures
        entry is Some <==> found(shards, map.shard_bits(), key) is Some,
        entry matches Some(reference) ==> Some(reference.value()) == found(
            shards,
            map.shard_bits(),
            key,
        ),
{
}

/// A lookup for writing returns what `found` gives. Let `guard` tell a
/// lookup for writing (`DashMap::looked_up_mut`), and let `shards` have,
/// in the key's place, what `guard` holds. Then a reference is returned
/// exactly if a lookup in `shards` finds the key, and its value is the
/// value found.
pub proof fn lemma_looked_up_mut_is_found(
    map: DashMap,
    shards: Seq<Map<u64, u64>>,
    guard: ShardWriteGuard,
    key: u64,
    entry: Option<RefMut>,
)
    requires
        map.looked_up_mut(guard, key, entry),
        well_sized(shards, map.shard_bits()),
        shards[shard_of(key, map.shard_bits())] == guard@,
    ensures
        entry is Some <==> found(shards, map.shard_bits(), key) is Some,
        entry matches Some(reference) ==> Some(reference.value()) == found(
            shards,
            map.shard_bits(),
            key,
        ),
{
}

} // verus!
