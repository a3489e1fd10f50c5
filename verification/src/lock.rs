//! The lock around one shard.
//!
//! Each shard's table sits behind a reader-writer lock of the
//! `parking_lot` crate. The lock is not verified here. This module
//! declares its types, wraps its guards, names what a held guard gives
//! access to, and states what acquiring and dereferencing do.
//!
//! What a lock holds is not a function of the lock: other threads change
//! it between any two acquisitions. So nothing is said of what a fresh
//! guard finds. Once a guard is held, the table behind it changes only
//! through that guard, and its entries are a function of the guard. So
//! is the lock that the guard holds.
//!
//! Acquiring a lock blocks until the lock is free. A thread that
//! acquires a lock it already holds in a conflicting mode does not come
//! back from the call, and the lock may panic when it runs out of room to
//! count its readers. No contract here can rule either out: callers must
//! let go of a shard before they lock it again.

use crate::table::{table_entries, Table};
use vstd::prelude::*;

verus! {

/// The raw reader-writer lock of `parking_lot`; only ever named as a type
/// argument.
#[verifier::external_type_specification]
#[verifier::external_body]
pub struct ExRawRwLock<const RECURSIVE: bool>(parking_lot::RawRwLock<RECURSIVE>);

/// The reader-writer lock of `parking_lot` (defined in `lock_api`), opaque
/// to the verifier.
#[verifier::external_type_specification]
#[verifier::external_body]
#[verifier::reject_recursive_types(R)]
#[verifier::reject_recursive_types(T)]
pub struct ExRwLock<R, T: ?Sized>(parking_lot::lock_api::RwLock<R, T>);

/// The lock of one shard, with the shard's table inside.
pub type ShardLock = parking_lot::RwLock<Table>;

/// Shared access to one shard: holds the shard's lock in read mode until
/// dropped. Wraps `parking_lot::RwLockReadGuard`, whose declaration the
/// verifier does not take, so the whole struct is opaque to it.
#[verifier::external_body]
pub struct ShardReadGuard<'a> {
    guard: parking_lot::RwLockReadGuard<'a, Table>,
}

/// Exclusive access to one shard: holds the shard's lock in write mode
/// until dropped. Wraps `parking_lot::RwLockWriteGuard`, whose declaration
/// the verifier does not take, so the whole struct is opaque to it.
#[verifier::external_body]
pub struct ShardWriteGuard<'a> {
    guard: parking_lot::RwLockWriteGuard<'a, Table>,
}

/// The entries of the table that a read guard gives access to. While the
/// guard is held no writer can get at the table, so they do not change.
pub uninterp spec fn read_guard_entries(guard: ShardReadGuard) -> Map<u64, u64>;

/// The entries of the table that a write guard gives access to. While the
/// guard is held they change through the guard only.
pub uninterp spec fn write_guard_entries(guard: ShardWriteGuard) -> Map<u64, u64>;

/// The lock that a read guard was taken from and holds: what
/// `RwLockReadGuard::rwlock` returns for it. A guard keeps its lock for as
/// long as it lives.
pub uninterp spec fn read_guard_lock(guard: ShardReadGuard) -> ShardLock;

/// The lock that a write guard was taken from and holds: what
/// `RwLockWriteGuard::rwlock` returns for it. A guard keeps its lock for
/// as long as it lives.
pub uninterp spec fn write_guard_lock(guard: ShardWriteGuard) -> ShardLock;

/// The entries of the table that a lock was made with: what the lock held
/// when `RwLock::new` returned it. A lock is made once, so this is a
/// function of the lock. It says nothing of what the lock holds later.
pub uninterp spec fn lock_made_with(lock: ShardLock) -> Map<u64, u64>;

/// Calls `parking_lot::RwLock::new`. Trusted: the lock is made with the
/// table handed in. What it holds later is not a function of the lock,
/// and nothing is stated of it.
#[verifier::external_body]
pub(crate) fn lock_new(table: Table) -> (lock: ShardLock)
    ensures
        lock_made_with(lock) == table_entries(table),
{
    parking_lot::RwLock::new(table)
}

/// Calls `parking_lot::RwLock::read`: blocks until no writer holds the
/// lock. Trusted: the guard returned is a guard of this lock. Nothing is
/// stated of what the guard finds.
#[verifier::external_body]
pub(crate) fn lock_read<'a>(lock: &'a ShardLock) -> (guard: ShardReadGuard<'a>)
    ensures
        read_guard_lock(guard) == *lock,
{
    ShardReadGuard { guard: lock.read() }
}

/// Calls `parking_lot::RwLock::write`: blocks until nobody else holds the
/// lock. Trusted: the guard returned is a guard of this lock. Nothing is
/// stated of what the guard finds.
#[verifier::external_body]
pub(crate) fn lock_write<'a>(lock: &'a ShardLock) -> (guard: ShardWriteGuard<'a>)
    ensures
        write_guard_lock(guard) == *lock,
{
    ShardWriteGuard { guard: lock.write() }
}

/// Dereferences a read guard (`Deref::deref`). Trusted: the table reached
/// is the one whose entries the guard is said to give access to.
#[verifier::external_body]
pub(crate) fn read_guard_table<'g, 'a>(guard: &'g ShardReadGuard<'a>) -> (table: &'g Table)
    ensures
        table_entries(*table) == read_guard_entries(*guard),
{
    &*guard.guard
}

/// Dereferences a write guard for reading (`Deref::deref`). Trusted: the
/// table reached is the one whose entries the guard is said to give
/// access to.
#[verifier::external_body]
pub(crate) fn write_guard_table<'g, 'a>(guard: &'g ShardWriteGuard<'a>) -> (table: &'g Table)
    ensures
        table_entries(*table) == write_guard_entries(*guard),
{
    &*guard.guard
}

/// Dereferences a write guard for writing (`DerefMut::deref_mut`).
/// Trusted: the table reached is the one behind the guard, and what is
/// done to it through the reference is what the guard gives access to
/// afterwards. The guard stays a guard of the same lock.
#[verifier::external_body]
pub(crate) fn write_guard_table_mut<'g, 'a>(guard: &'g mut ShardWriteGuard<'a>) -> (table:
    &'g mut Table)
    ensures
        table_entries(*table) == write_guard_entries(*old(guard)),
        write_guard_entries(*final(guard)) == table_entries(*final(table)),
        write_guard_lock(*final(guard)) == write_guard_lock(*old(guard)),
{
    &mut *guard.guard
}

} // verus!
