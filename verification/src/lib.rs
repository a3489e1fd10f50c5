//! A concurrent map from `u64` keys to `u64` values, split into shards.
//!
//! The map owns a fixed array of shards. Each shard is a hash table behind
//! its own reader-writer lock. A key's digest selects its shard by its
//! high-order bits, so a key belongs to one shard for as long as the map
//! lives, and operations on keys of different shards never wait for each
//! other. Every operation on a key hashes the key, routes the digest to
//! one shard, takes that shard's lock and works on that shard alone.
//!
//! What a shard holds at the moment its lock is taken depends on the
//! other threads. So an operation of [`DashMap`] says which lock it takes
//! and, for whatever the shard held under that lock, what it did to the
//! shard and what it returns. The same is stated step by step on the
//! guard that holds the lock: see [`shard`], [`mapref`] and [`iter`].
//! [`model`] states what the operations add up to on a map that no other
//! thread touches.

pub mod iter;
pub mod lock;
pub mod mapref;
pub mod model;
pub mod shard;
pub mod table;
pub mod util;

use crate::iter::{Iter, IterMut};
use crate::lock::{
    lock_made_with, lock_new, lock_read, lock_write, ShardLock, ShardReadGuard, ShardWriteGuard,
};
use crate::mapref::{Ref, RefMut};
use crate::table::{digest_of, fx_digest, lookup, lookup_entry, no_entries, table_new};
use crate::util::{
    is_shard_amount, lemma_floor_log2_of_pow2, lemma_pow2_monotonic, max_concurrency_hint, route, shard_amount,
    shard_bits, shard_index, DIGEST_BITS, SHARD_FACTOR,
};
use vstd::arithmetic::power2::{lemma2_to64_rest, pow2};
use vstd::prelude::*;

verus! {

/// Calls `num_cpus::get`: the number of CPUs available to this process.
/// The count depends on the machine, and nothing is assumed of it.
#[verifier::external_body]
fn available_cpus() -> (cpus: usize) {
    num_cpus::get()
}

/// A concurrent map made of independently locked shards.
pub struct DashMap {
    /// The number of high-order digest bits that select a shard.
    ncb: usize,
    /// The shards, fixed at construction.
    shards: Vec<ShardLock>,
}

impl DashMap {
    /// The shard count is two to the power of the routing bits.
    #[verifier::type_invariant]
    spec fn well_formed(self) -> bool {
        pow2(self.ncb as nat) == self.shards.len()
    }

    /// The number of high-order digest bits that select a shard.
    pub closed spec fn shard_bits(&self) -> nat {
        self.ncb as nat
    }

    /// The number of shards.
    pub closed spec fn shard_count(&self) -> nat {
        self.shards@.len()
    }

    /// The locks of the shards, in shard order.
    pub closed spec fn shard_locks(&self) -> Seq<ShardLock> {
        self.shards@
    }

    /// The shard that `key` belongs to: the one that the top
    /// `shard_bits()` bits of the key's digest name.
    pub open spec fn shard_of(&self, key: u64) -> nat {
        shard_index(fx_digest(key), self.shard_bits())
    }

    /// `route` is where `key` goes: its shard, paired with its digest.
    pub open spec fn routes(&self, key: u64, route: (usize, u64)) -> bool {
        &&& route.0 == self.shard_of(key)
        &&& route.1 == fx_digest(key)
    }

    /// Every shard of the map was made with an empty table.
    pub open spec fn made_empty(&self) -> bool {
        forall|i: int|
            0 <= i < self.shard_count() ==> lock_made_with(#[trigger] self.shard_locks()[i])
                == no_entries()
    }

    /// An insert of `value` under `key`, told by two write guards:
    /// `before` and `after` are both guards of the lock of the key's
    /// shard; what `after` holds is what `before` holds with the entry put
    /// in and nothing else changed; `previous` is what `before` holds
    /// under the key. This holds of any two such guards, and says nothing
    /// of when they were held.
    pub open spec fn stored(
        &self,
        before: ShardWriteGuard,
        after: ShardWriteGuard,
        key: u64,
        value: u64,
        previous: Option<u64>,
    ) -> bool {
        &&& before.lock() == self.shard_locks()[self.shard_of(key) as int]
        &&& after.lock() == before.lock()
        &&& after@ == before@.insert(key, value)
        &&& previous == lookup(before@, key)
    }

    /// A removal of `key`, told by two write guards: `before` and `after`
    /// are both guards of the lock of the key's shard; what `after` holds
    /// is what `before` holds without the entry under the key and with
    /// nothing else changed; `removed` is the entry that `before` holds
    /// under the key, if any. This holds of any two such guards, and says
    /// nothing of when they were held.
    pub open spec fn taken(
        &self,
        before: ShardWriteGuard,
        after: ShardWriteGuard,
        key: u64,
        removed: Option<(u64, u64)>,
    ) -> bool {
        &&& before.lock() == self.shard_locks()[self.shard_of(key) as int]
        &&& after.lock() == before.lock()
        &&& after@ == before@.remove(key)
        &&& removed == lookup_entry(before@, key)
    }

    /// A lookup of `key`, told by a read guard: `guard` is a guard of the
    /// lock of the key's shard; `entry` is a reference exactly if `guard`
    /// holds the key, and then it refers to that entry, with the lock and
    /// the entries of `guard`. This holds of any such guard, and says
    /// nothing of when it was held.
    pub open spec fn looked_up(&self, guard: ShardReadGuard, key: u64, entry: Option<Ref>) -> bool {
        &&& guard.lock() == self.shard_locks()[self.shard_of(key) as int]
        &&& entry is Some <==> guard@.contains_key(key)
        &&& entry matches Some(found) ==> {
            &&& found.key() == key
            &&& found.value() == guard@[key]
            &&& found.shard_entries() == guard@
            &&& found.lock() == guard.lock()
        }
    }

    /// A lookup of `key` for writing, told by a write guard: `guard` is a
    /// guard of the lock of the key's shard; `entry` is a reference
    /// exactly if `guard` holds the key, and then it refers to that entry,
    /// with the lock and the entries of `guard`. This holds of any such
    /// guard, and says nothing of when it was held.
    pub open spec fn looked_up_mut(
        &self,
        guard: ShardWriteGuard,
        key: u64,
        entry: Option<RefMut>,
    ) -> bool {
        &&& guard.lock() == self.shard_locks()[self.shard_of(key) as int]
        &&& entry is Some <==> guard@.contains_key(key)
        &&& entry matches Some(found) ==> {
            &&& found.wf()
            &&& found.key() == key
            &&& found.value() == guard@[key]
            &&& found.shard_entries() == guard@
            &&& found.lock() == guard.lock()
        }
    }

    /// Routing is stable: whatever is a route of `key` on this map is the
    /// same route, so every call of [`DashMap::determine_map`] with the key
    /// returns what the first one did.
    pub proof fn lemma_routing_stable(&self, key: u64, first: (usize, u64), second: (usize, u64))
        requires
            self.routes(key, first),
            self.routes(key, second),
        ensures
            first == second,
    {
    }

    /// Creates an empty map for the number of CPUs of this machine, as
    /// [`DashMap::with_concurrency_hint`] does for a hint. A count above
    /// the largest hint that fits counts as that hint.
    pub fn new() -> (map: DashMap)
        ensures
            pow2(map.shard_bits()) == map.shard_count(),
            map.shard_bits() < DIGEST_BITS,
            exists|hint: nat|
                hint <= max_concurrency_hint() && #[trigger] is_shard_amount(
                    hint,
                    map.shard_count(),
                ),
            map.made_empty(),
    {
        let cpus = available_cpus();
        let limit: usize = usize::MAX / (2 * SHARD_FACTOR);
        let hint: usize = if cpus <= limit {
            cpus
        } else {
            limit
        };
        let map = DashMap::with_concurrency_hint(hint);
        assert(is_shard_amount(hint as nat, map.shard_count()));
        map
    }

    /// Creates an empty map for an expected number of concurrent users.
    /// The map gets the least power of two of shards that is at least
    /// `SHARD_FACTOR` times the hint, each with a lock and an empty table
    /// of its own. The shard count never changes afterwards.
    pub fn with_concurrency_hint(hint: usize) -> (map: DashMap)
        requires
            hint <= max_concurrency_hint(),
        ensures
            is_shard_amount(hint as nat, map.shard_count()),
            pow2(map.shard_bits()) == map.shard_count(),
            map.shard_bits() < DIGEST_BITS,
            map.made_empty(),
    {
        let amount = shard_amount(hint);
        let ncb = shard_bits(amount);
        proof {
            let e = choose|e: nat| pow2(e) == amount as nat;
            lemma_floor_log2_of_pow2(e, ncb as nat);
        }
        let mut shards: Vec<ShardLock> = Vec::new();
        let mut made: usize = 0;
        while made < amount
            invariant
                made <= amount,
                shards@.len() == made,
                forall|i: int|
                    0 <= i < made ==> lock_made_with(#[trigger] shards@[i]) == no_entries(),
            decreases amount - made,
        {
            shards.push(lock_new(table_new()));
            made = made + 1;
        }
        DashMap { ncb, shards }
    }

    /// The locks of the shards, in shard order, for callers that work on
    /// whole shards.
    pub fn shards(&self) -> (locks: &[ShardLock])
        ensures
            locks@ == self.shard_locks(),
            locks@.len() == self.shard_count(),
            pow2(self.shard_bits()) == self.shard_count(),
            self.shard_bits() < DIGEST_BITS,
    {
        proof {
            use_type_invariant(self);
            lemma2_to64_rest();
            if self.ncb >= 64 {
                lemma_pow2_monotonic(64, self.ncb as nat);
            }
        }
        self.shards.as_slice()
    }

    /// Hashes `key` and routes it: returns the index of the key's shard
    /// and the key's digest. Both depend on the key and on the shard
    /// count alone, so the same key is routed to the same shard by every
    /// call on the same map.
    pub fn determine_map(&self, key: &u64) -> (route: (usize, u64))
        ensures
            self.routes(*key, route),
            route.0 < self.shard_count(),
    {
        proof {
            use_type_invariant(self);
        }
        let digest = digest_of(*key);
        let index = route(digest, self.ncb);
        (index, digest)
    }

    /// Takes the lock of shard `index` in read mode and returns the
    /// guard, which holds that lock and no other. Blocks while a writer
    /// holds that shard. What the guard finds in the shard is up to the
    /// other threads.
    pub fn read_shard(&self, index: usize) -> (guard: ShardReadGuard<'_>)
        requires
            index < self.shard_count(),
        ensures
            guard.lock() == self.shard_locks()[index as int],
    {
        lock_read(&self.shards[index])
    }

    /// Takes the lock of shard `index` in write mode and returns the
    /// guard, which holds that lock and no other. Blocks while anybody
    /// else holds that shard. What the guard finds in the shard is up to
    /// the other threads.
    pub fn write_shard(&self, index: usize) -> (guard: ShardWriteGuard<'_>)
        requires
            index < self.shard_count(),
        ensures
            guard.lock() == self.shard_locks()[index as int],
    {
        lock_write(&self.shards[index])
    }

    /// Stores `value` under `key` and returns the value it replaces, if
    /// any. Locks the key's shard, and only that one, for the duration of
    /// the call. What the shard holds when its lock is taken is up to the
    /// other threads; whatever it is, the entry is put into it and the
    /// value that it held under the key is returned. The contract says
    /// that there are guards of the key's shard that tell this insert; it
    /// cannot say that they are the guard of this call.
    pub fn insert(&self, key: u64, value: u64) -> (previous: Option<u64>)
        ensures
            exists|before: ShardWriteGuard, after: ShardWriteGuard| #[trigger]
                self.stored(before, after, key, value, previous),
    {
        let (index, digest) = self.determine_map(&key);
        let mut shard = self.write_shard(index);
        let ghost before = shard;
        let previous = shard.insert_hashed(key, value, digest);
        assert(self.stored(before, shard, key, value, previous));
        previous
    }

    /// Takes the entry under `key` out of the map and returns it, or
    /// returns nothing if there is none. Locks the key's shard, and only
    /// that one, for the duration of the call. What the shard holds when
    /// its lock is taken is up to the other threads; whatever it is, the
    /// entry under the key is taken out of it and returned. The contract
    /// says that there are guards of the key's shard that tell this
    /// removal; it cannot say that they are the guard of this call.
    pub fn remove(&self, key: &u64) -> (removed: Option<(u64, u64)>)
        ensures
            removed matches Some(entry) ==> entry.0 == *key,
            exists|before: ShardWriteGuard, after: ShardWriteGuard| #[trigger]
                self.taken(before, after, *key, removed),
    {
        let (index, _) = self.determine_map(key);
        let mut shard = self.write_shard(index);
        let ghost before = shard;
        let removed = shard.remove(*key);
        assert(self.taken(before, shard, *key, removed));
        removed
    }

    /// Looks `key` up and returns a reference to its entry, which holds
    /// the key's shard in read mode until dropped; or nothing, if the
    /// shard has no such entry once its lock is taken. The lock taken is
    /// that of the key's shard and no other; whether the shard has the
    /// entry is up to the other threads, and [`Ref::new`] says what is
    /// returned for what the shard holds.
    pub fn get(&self, key: &u64) -> (entry: Option<Ref<'_>>)
        ensures
            entry matches Some(found) ==> {
                &&& found.key() == *key
                &&& found.lock() == self.shard_locks()[self.shard_of(*key) as int]
                &&& found.shard_entries().contains_key(*key)
            },
            exists|guard: ShardReadGuard| #[trigger] self.looked_up(guard, *key, entry),
    {
        let (index, _) = self.determine_map(key);
        let guard = self.read_shard(index);
        let ghost held = guard;
        let entry = Ref::new(guard, *key);
        assert(self.looked_up(held, *key, entry));
        entry
    }

    /// Looks `key` up and returns a mutable reference to its entry, which
    /// holds the key's shard in write mode until dropped; or nothing, if
    /// the shard has no such entry once its lock is taken. The lock taken
    /// is that of the key's shard and no other; whether the shard has the
    /// entry is up to the other threads, and [`RefMut::new`] says what is
    /// returned for what the shard holds.
    pub fn get_mut(&self, key: &u64) -> (entry: Option<RefMut<'_>>)
        ensures
            entry matches Some(found) ==> {
                &&& found.wf()
                &&& found.key() == *key
                &&& found.lock() == self.shard_locks()[self.shard_of(*key) as int]
                &&& found.shard_entries().contains_key(*key)
            },
            exists|guard: ShardWriteGuard| #[trigger] self.looked_up_mut(guard, *key, entry),
    {
        let (index, _) = self.determine_map(key);
        let guard = self.write_shard(index);
        let ghost held = guard;
        let entry = RefMut::new(guard, *key);
        assert(self.looked_up_mut(held, *key, entry));
        entry
    }

    /// Starts a pass over all entries, shard by shard, reading.
    pub fn iter(&self) -> (iter: Iter<'_>)
        ensures
            iter.wf(),
            iter.cursor().wf(),
            iter.cursor().map() == self,
            !iter.cursor().exclusive(),
            iter.cursor().shard() == 0,
            !iter.cursor().finished(),
            iter.cursor().handed_out().len() == 0,
    {
        Iter::new(self)
    }

    /// Starts a pass over all entries, shard by shard, with the right to
    /// change values.
    pub fn iter_mut(&self) -> (iter: IterMut<'_>)
        ensures
            iter.wf(),
            iter.cursor().wf(),
            iter.cursor().map() == self,
            iter.cursor().exclusive(),
            iter.cursor().shard() == 0,
            !iter.cursor().finished(),
            iter.cursor().handed_out().len() == 0,
    {
        IterMut::new(self)
    }
}

impl Default for DashMap {
    /// The same as [`DashMap::new`].
    fn default() -> (map: DashMap)
        ensures
            pow2(map.shard_bits()) == map.shard_count(),
            map.shard_bits() < DIGEST_BITS,
            exists|hint: nat|
                hint <= max_concurrency_hint() && #[trigger] is_shard_amount(
                    hint,
                    map.shard_count(),
                ),
            map.made_empty(),
    {
        DashMap::new()
    }
}

} // verus!
