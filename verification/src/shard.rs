//! Operations on one locked shard.
//!
//! A guard is the handle to a shard whose lock is held. What the guard
//! finds when the lock is acquired is up to the other threads; from then
//! on the shard behaves as the map that is the guard's view, and every
//! operation here says exactly what it does to that map.

use crate::lock::{
    read_guard_entries, read_guard_lock, read_guard_table, write_guard_entries,
    write_guard_lock, write_guard_table, write_guard_table_mut, ShardLock, ShardReadGuard,
    ShardWriteGuard,
};
use crate::table::{
    digest_of, fx_digest, lists_entries, lookup, lookup_entry, table_get, table_insert,
    table_pairs, table_remove_entry,
};
use vstd::prelude::*;

verus! {

impl<'a> View for ShardReadGuard<'a> {
    type V = Map<u64, u64>;

    /// The entries of the shard.
    open spec fn view(&self) -> Map<u64, u64> {
        read_guard_entries(*self)
    }
}

impl<'a> View for ShardWriteGuard<'a> {
    type V = Map<u64, u64>;

    /// The entries of the shard.
    open spec fn view(&self) -> Map<u64, u64> {
        write_guard_entries(*self)
    }
}

/// `guard` is a read guard of `lock` and finds `entries` in the shard.
pub open spec fn read_guard_holds(
    guard: ShardReadGuard,
    lock: ShardLock,
    entries: Map<u64, u64>,
) -> bool {
    guard.lock() == lock && guard@ == entries
}

/// `guard` is a write guard of `lock` and finds `entries` in the shard.
pub open spec fn write_guard_holds(
    guard: ShardWriteGuard,
    lock: ShardLock,
    entries: Map<u64, u64>,
) -> bool {
    guard.lock() == lock && guard@ == entries
}

/// `entries` is what the shard behind `lock` held under a guard: under a
/// write guard if `exclusive`, else under a read guard. Guards come from
/// taking the lock and from nowhere else, so this says that the lock was
/// taken and that the shard was seen to hold `entries` under it.
pub open spec fn was_held(lock: ShardLock, entries: Map<u64, u64>, exclusive: bool) -> bool {
    if exclusive {
        exists|guard: ShardWriteGuard| #[trigger] write_guard_holds(guard, lock, entries)
    } else {
        exists|guard: ShardReadGuard| #[trigger] read_guard_holds(guard, lock, entries)
    }
}

impl<'a> ShardReadGuard<'a> {
    /// The lock that this guard holds.
    pub open spec fn lock(&self) -> ShardLock {
        read_guard_lock(*self)
    }

    /// The value stored under `key` in this shard, if there is one.
    pub fn get(&self, key: u64) -> (found: Option<u64>)
        ensures
            found == lookup(self@, key),
    {
        table_get(read_guard_table(self), key)
    }

    /// The entries of this shard, each once, in no particular order.
    pub fn entries(&self) -> (pairs: Vec<(u64, u64)>)
        ensures
            lists_entries(pairs@, self@),
    {
        table_pairs(read_guard_table(self))
    }
}

impl<'a> ShardWriteGuard<'a> {
    /// The lock that this guard holds.
    pub open spec fn lock(&self) -> ShardLock {
        write_guard_lock(*self)
    }

    /// The value stored under `key` in this shard, if there is one.
    pub fn get(&self, key: u64) -> (found: Option<u64>)
        ensures
            found == lookup(self@, key),
    {
        table_get(write_guard_table(self), key)
    }

    /// The entries of this shard, each once, in no particular order.
    pub fn entries(&self) -> (pairs: Vec<(u64, u64)>)
        ensures
            lists_entries(pairs@, self@),
    {
        table_pairs(write_guard_table(self))
    }

    /// Stores `value` under `key` in this shard and returns the value it
    /// replaces, if any.
    pub fn insert(&mut self, key: u64, value: u64) -> (previous: Option<u64>)
        ensures
            final(self)@ == old(self)@.insert(key, value),
            final(self).lock() == old(self).lock(),
            previous == lookup(old(self)@, key),
    {
        let digest = digest_of(key);
        self.insert_hashed(key, value, digest)
    }

    /// Stores `value` under `key` in this shard and returns the value it
    /// replaces, if any, as [`ShardWriteGuard::insert`] does. `digest` is
    /// the key's digest, handed in by a caller that has computed it
    /// already, so that the key is not hashed twice.
    pub fn insert_hashed(&mut self, key: u64, value: u64, digest: u64) -> (previous: Option<u64>)
        requires
            digest == fx_digest(key),
        ensures
            final(self)@ == old(self)@.insert(key, value),
            final(self).lock() == old(self).lock(),
            previous == lookup(old(self)@, key),
    {
        table_insert(write_guard_table_mut(self), key, value, digest)
    }

    /// Takes the entry under `key` out of this shard and returns it. A
    /// key without an entry leaves the shard as it is.
    pub fn remove(&mut self, key: u64) -> (removed: Option<(u64, u64)>)
        ensures
            final(self)@ == old(self)@.remove(key),
            final(self).lock() == old(self).lock(),
            removed == lookup_entry(old(self)@, key),
            removed is None ==> final(self)@ == old(self)@,
    {
        let removed = table_remove_entry(write_guard_table_mut(self), key);
        proof {
            if !old(self)@.contains_key(key) {
                assert(old(self)@.remove(key) =~= old(self)@);
            }
        }
        removed
    }
}

} // verus!
