//! Entry references: one entry of the map, with its shard's lock held.
//!
//! A reference owns the guard of the shard that its entry lives in, so
//! the entry stays put for as long as the reference lives, and other
//! threads that need the same shard wait. The holder must drop the
//! reference before it works on the same shard again.
//!
//! Nobody else can change the entry meanwhile, so a reference reads the
//! value once, when it is made, and keeps it beside the key.

use crate::lock::{ShardLock, ShardReadGuard, ShardWriteGuard};
use vstd::prelude::*;

verus! {

/// A read-only reference to one entry. Holds the entry's shard in read
/// mode until dropped.
pub struct Ref<'a> {
    guard: ShardReadGuard<'a>,
    key: u64,
    value: u64,
}

impl<'a> Ref<'a> {
    /// The shard has an entry under the key, with the value kept here.
    #[verifier::type_invariant]
    spec fn well_formed(self) -> bool {
        &&& self.guard@.contains_key(self.key)
        &&& self.guard@[self.key] == self.value
    }

    /// The entries of the shard that this reference holds.
    pub closed spec fn shard_entries(&self) -> Map<u64, u64> {
        self.guard@
    }

    /// The lock of the shard that this reference holds.
    pub closed spec fn lock(&self) -> ShardLock {
        self.guard.lock()
    }

    /// The key of the entry.
    pub closed spec fn spec_key(&self) -> u64 {
        self.key
    }

    /// The value of the entry.
    pub open spec fn spec_value(&self) -> u64 {
        self.shard_entries()[self.spec_key()]
    }

    /// Makes a reference to the entry under `key` in the shard that
    /// `guard` holds. Without such an entry there is nothing to refer to:
    /// the guard is dropped, which releases the shard, and nothing is
    /// returned.
    pub fn new(guard: ShardReadGuard<'a>, key: u64) -> (entry: Option<Ref<'a>>)
        ensures
            entry is Some <==> guard@.contains_key(key),
            entry matches Some(found) ==> {
                &&& found.key() == key
                &&& found.shard_entries() == guard@
                &&& found.lock() == guard.lock()
            },
    {
        match guard.get(key) {
            Some(value) => Some(Ref { guard, key, value }),
            None => None,
        }
    }

    /// The key of the entry.
    #[verifier::when_used_as_spec(spec_key)]
    pub fn key(&self) -> (key: u64)
        ensures
            key == self.spec_key(),
            self.shard_entries().contains_key(key),
    {
        proof {
            use_type_invariant(self);
        }
        self.key
    }

    /// The value of the entry.
    #[verifier::when_used_as_spec(spec_value)]
    pub fn value(&self) -> (value: u64)
        ensures
            value == self.spec_value(),
    {
        proof {
            use_type_invariant(self);
        }
        self.value
    }

    /// The entry, as a pair of key and value.
    pub fn pair(&self) -> (entry: (u64, u64))
        ensures
            entry == (self.key(), self.value()),
    {
        (self.key(), self.value())
    }
}

/// A mutable reference to one entry. Holds the entry's shard in write
/// mode until dropped.
pub struct RefMut<'a> {
    guard: ShardWriteGuard<'a>,
    key: u64,
    value: u64,
}

impl<'a> RefMut<'a> {
    /// The reference is valid: its shard has an entry under its key, with
    /// the value kept here. Every reference that this crate hands out is
    /// valid, and stays so.
    pub closed spec fn wf(&self) -> bool {
        &&& self.guard@.contains_key(self.key)
        &&& self.guard@[self.key] == self.value
    }

    /// The entries of the shard that this reference holds.
    pub closed spec fn shard_entries(&self) -> Map<u64, u64> {
        self.guard@
    }

    /// The lock of the shard that this reference holds.
    pub closed spec fn lock(&self) -> ShardLock {
        self.guard.lock()
    }

    /// The key of the entry.
    pub closed spec fn spec_key(&self) -> u64 {
        self.key
    }

    /// The value of the entry.
    pub open spec fn spec_value(&self) -> u64 {
        self.shard_entries()[self.spec_key()]
    }

    /// Makes a mutable reference to the entry under `key` in the shard
    /// that `guard` holds. Without such an entry there is nothing to refer
    /// to: the guard is dropped, which releases the shard, and nothing is
    /// returned.
    pub fn new(guard: ShardWriteGuard<'a>, key: u64) -> (entry: Option<RefMut<'a>>)
        ensures
            entry is Some <==> guard@.contains_key(key),
            entry matches Some(found) ==> {
                &&& found.wf()
                &&& found.key() == key
                &&& found.shard_entries() == guard@
                &&& found.lock() == guard.lock()
            },
    {
        match guard.get(key) {
            Some(value) => Some(RefMut { guard, key, value }),
            None => None,
        }
    }

    /// The key of the entry.
    #[verifier::when_used_as_spec(spec_key)]
    pub fn key(&self) -> (key: u64)
        ensures
            key == self.spec_key(),
    {
        self.key
    }

    /// The value of the entry.
    #[verifier::when_used_as_spec(spec_value)]
    pub fn value(&self) -> (value: u64)
        requires
            self.wf(),
        ensures
            value == self.spec_value(),
    {
        self.value
    }

    /// The entry, as a pair of key and value.
    pub fn pair(&self) -> (entry: (u64, u64))
        requires
            self.wf(),
        ensures
            entry == (self.key(), self.value()),
    {
        (self.key(), self.value())
    }

    /// Replaces the value of the entry, in place, and returns the value
    /// replaced. The key and all other entries of the shard stay.
    pub fn set_value(&mut self, value: u64) -> (previous: u64)
        requires
            old(self).wf(),
        ensures
            final(self).wf(),
            previous == old(self).value(),
            final(self).key() == old(self).key(),
            final(self).value() == value,
            final(self).lock() == old(self).lock(),
            final(self).shard_entries() == old(self).shard_entries().insert(old(self).key(), value),
    {
        let previous = self.value;
        self.guard.insert(self.key, value);
        self.value = value;
        previous
    }
}

} // verus!
