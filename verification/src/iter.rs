//! Passes over all entries of a map, one shard at a time.
//!
//! A pass visits the shards in index order. It takes the lock of the
//! shard it visits, lists that shard's entries, hands them out one by one,
//! lets the lock go, and only then turns to the next shard. So it never
//! holds more than one lock, and what it hands out of one shard is that
//! shard as it was at one moment. The shards are not visited at the same
//! moment: a pass is no snapshot of the map as a whole.
//!
//! [`Cursor`] is the state machine that both kinds of pass run. [`Iter`]
//! runs it with shared locks, [`IterMut`] with exclusive locks and the
//! right to change the value of the entry handed out last.
//!
//! From its start to its last item a pass holds a lock. Its holder must
//! not work on the shard being visited in any other way meanwhile.

use crate::lock::{ShardLock, ShardReadGuard, ShardWriteGuard};
use crate::model::{
    contents, is_pass_over, lemma_pass_lists_contents, lists_shards, pass, well_routed,
};
use crate::shard::{read_guard_holds, was_held, write_guard_holds};
use crate::table::{lists_entries, no_entries};
use crate::DashMap;
use vstd::arithmetic::power2::lemma_pow2_pos;
use vstd::prelude::*;

verus! {

/// The lock that a pass holds on the shard it visits.
enum Held<'a> {
    /// Held in read mode.
    Shared(ShardReadGuard<'a>),
    /// Held in write mode.
    Exclusive(ShardWriteGuard<'a>),
}

impl<'a> Held<'a> {
    /// The entries of the shard that is held.
    spec fn entries(self) -> Map<u64, u64> {
        match self {
            Held::Shared(guard) => guard@,
            Held::Exclusive(guard) => guard@,
        }
    }

    /// The lock that is held.
    spec fn lock(self) -> ShardLock {
        match self {
            Held::Shared(guard) => guard.lock(),
            Held::Exclusive(guard) => guard.lock(),
        }
    }

    /// What is held is what a guard of the lock held, of the kind of this
    /// guard.
    proof fn lemma_was_held(self)
        ensures
            was_held(self.lock(), self.entries(), self is Exclusive),
    {
        match self {
            Held::Shared(guard) => {
                assert(read_guard_holds(guard, self.lock(), self.entries()));
            },
            Held::Exclusive(guard) => {
                assert(write_guard_holds(guard, self.lock(), self.entries()));
            },
        }
    }

    /// Takes the lock of shard `index` of `map`, in write mode if
    /// `exclusive`, else in read mode.
    fn acquire(map: &'a DashMap, index: usize, exclusive: bool) -> (held: Held<'a>)
        requires
            index < map.shard_count(),
        ensures
            exclusive <==> held is Exclusive,
            held.lock() == map.shard_locks()[index as int],
    {
        if exclusive {
            Held::Exclusive(map.write_shard(index))
        } else {
            Held::Shared(map.read_shard(index))
        }
    }

    /// The entries of the shard that is held, each once, in the order in
    /// which its table yields them.
    fn listing(&self) -> (pairs: Vec<(u64, u64)>)
        ensures
            lists_entries(pairs@, self.entries()),
    {
        match self {
            Held::Shared(guard) => guard.entries(),
            Held::Exclusive(guard) => guard.entries(),
        }
    }
}

/// The state of a pass: which shard is being visited, the lock held on it,
/// and how far its entries have been handed out. Along with it the cursor
/// keeps, for the proofs only, a record of the shards already visited.
pub struct Cursor<'a> {
    /// The map that is passed over.
    map: &'a DashMap,
    /// Whether shards are locked in write mode.
    exclusive: bool,
    /// The index of the shard being visited; the shard count at the end.
    shard: usize,
    /// The lock of the shard being visited; nothing at the end.
    guard: Option<Held<'a>>,
    /// The entries of the shard being visited, as listed under its lock.
    pending: Vec<(u64, u64)>,
    /// How many of them have been handed out.
    cursor: usize,
    /// What was handed out of each shard whose visit is over.
    done: Ghost<Seq<Seq<(u64, u64)>>>,
    /// What each shard whose visit is over held when its lock was let go.
    seen: Ghost<Seq<Map<u64, u64>>>,
}

impl<'a> Cursor<'a> {
    /// The cursor is in one of its two states: visiting a shard, whose
    /// lock it holds and whose entries it has listed; or finished, past the
    /// last shard and holding nothing. Every shard before the current one
    /// it has held under that shard's lock, and it has handed out each
    /// entry that it found there once.
    pub closed spec fn wf(&self) -> bool {
        &&& self.cursor <= self.pending@.len()
        &&& self.done@.len() == self.shard
        &&& self.seen@.len() == self.shard
        &&& self.shard <= self.map.shard_count()
        &&& forall|i: int|
            0 <= i < self.shard ==> lists_entries(#[trigger] self.done@[i], self.seen@[i])
        &&& forall|i: int|
            0 <= i < self.shard ==> was_held(
                self.map.shard_locks()[i],
                #[trigger] self.seen@[i],
                self.exclusive,
            )
        &&& match self.guard {
            Some(held) => {
                &&& self.shard < self.map.shard_count()
                &&& held.lock() == self.map.shard_locks()[self.shard as int]
                &&& lists_entries(self.pending@, held.entries())
                &&& self.exclusive <==> held is Exclusive
            },
            None => self.shard == self.map.shard_count() && self.pending@.len() == 0,
        }
    }

    /// The map that is passed over.
    pub closed spec fn map(&self) -> &'a DashMap {
        self.map
    }

    /// Whether the pass locks shards in write mode.
    pub closed spec fn exclusive(&self) -> bool {
        self.exclusive
    }

    /// The index of the shard being visited; the shard count at the end.
    pub closed spec fn shard(&self) -> nat {
        self.shard as nat
    }

    /// All shards have been visited, and no lock is held.
    pub closed spec fn finished(&self) -> bool {
        self.guard is None
    }

    /// The entries of the shard being visited, whose lock is held.
    pub closed spec fn locked(&self) -> Option<Map<u64, u64>> {
        match self.guard {
            Some(held) => Some(held.entries()),
            None => None,
        }
    }

    /// The lock that the pass holds: that of the shard being visited.
    pub closed spec fn held_lock(&self) -> Option<ShardLock> {
        match self.guard {
            Some(held) => Some(held.lock()),
            None => None,
        }
    }

    /// The entries of the shard being visited that were handed out, in the
    /// order in which they were.
    pub closed spec fn yielded(&self) -> Seq<(u64, u64)> {
        self.pending@.take(self.cursor as int)
    }

    /// The entries of the shard being visited that are still to be handed
    /// out, in the order in which they will be.
    pub closed spec fn remaining(&self) -> Seq<(u64, u64)> {
        self.pending@.skip(self.cursor as int)
    }

    /// The shards whose visit is over, in shard order: what each held
    /// under the guard of the pass at the moment that guard was let go.
    pub closed spec fn visited(&self) -> Seq<Map<u64, u64>> {
        self.seen@
    }

    /// Everything that the pass has handed out so far, in order.
    pub closed spec fn handed_out(&self) -> Seq<(u64, u64)> {
        pass(self.done@) + self.yielded()
    }

    /// One step of the pass: `after` and `item` are what `next` makes of
    /// `before`.
    ///
    /// While the shard being visited has entries left, the first of them
    /// is handed out and nothing else changes. Once it has none, the shard
    /// joins the visited ones as it is, and the following shards are
    /// locked in turn; those found without entries under their lock join
    /// the visited ones at once, and the first entry of the first shard
    /// that has any is handed out. If no shard is left, nothing is handed
    /// out and the pass is finished. No shard joins the visited ones
    /// without having been held under its own lock.
    pub open spec fn stepped(
        before: Cursor<'a>,
        after: Cursor<'a>,
        item: Option<(u64, u64)>,
    ) -> bool {
        &&& after.map() == before.map()
        &&& after.exclusive() == before.exclusive()
        &&& item is None <==> after.finished()
        &&& item is None ==> after.handed_out() == before.handed_out()
        &&& item matches Some(entry) ==> {
            &&& after.handed_out() == before.handed_out().push(entry)
            &&& after.yielded().len() > 0
            &&& after.yielded().last() == entry
        }
        &&& before.remaining().len() > 0 ==> {
            &&& item == Some(before.remaining()[0])
            &&& after.shard() == before.shard()
            &&& after.locked() == before.locked()
            &&& after.visited() == before.visited()
            &&& after.yielded() == before.yielded().push(before.remaining()[0])
            &&& after.remaining() == before.remaining().skip(1)
        }
        &&& before.remaining().len() == 0 && !before.finished() ==> {
            &&& after.shard() > before.shard()
            &&& after.visited().len() == after.shard()
            &&& after.visited().take(before.shard() as int) == before.visited()
            &&& after.visited()[before.shard() as int] == before.locked().unwrap()
            &&& forall|i: int|
                before.shard() < i < after.shard() ==> #[trigger] after.visited()[i]
                    == no_entries()
            &&& forall|i: int|
                before.shard() <= i < after.shard() ==> was_held(
                    after.map().shard_locks()[i],
                    #[trigger] after.visited()[i],
                    after.exclusive(),
                )
            &&& item is Some ==> after.yielded().len() == 1
        }
        &&& before.finished() ==> {
            &&& after.shard() == before.shard()
            &&& after.visited() == before.visited()
        }
    }

    /// Where a pass stands. The visited shards are those before the
    /// current one, and each was held under its own lock. The pass is
    /// finished exactly when it is past the last shard, and then holds no
    /// lock and has nothing left. Otherwise it holds one lock, that of the
    /// shard being visited. What was handed out of that shard and what is
    /// still to come are, together, that shard's entries, each exactly
    /// once.
    pub proof fn lemma_standing(&self)
        requires
            self.wf(),
        ensures
            self.shard() <= self.map().shard_count(),
            self.visited().len() == self.shard(),
            forall|i: int|
                0 <= i < self.shard() ==> was_held(
                    self.map().shard_locks()[i],
                    #[trigger] self.visited()[i],
                    self.exclusive(),
                ),
            self.finished() <==> self.shard() == self.map().shard_count(),
            self.finished() <==> self.locked() is None,
            self.finished() <==> self.held_lock() is None,
            self.held_lock() matches Some(lock) ==> lock == self.map().shard_locks()[self.shard() as int],
            self.finished() ==> self.yielded().len() == 0 && self.remaining().len() == 0,
            self.locked() matches Some(entries) ==> lists_entries(
                self.yielded() + self.remaining(),
                entries,
            ),
    {
        assert(self.pending@.take(self.cursor as int) + self.pending@.skip(self.cursor as int)
            =~= self.pending@);
    }

    /// A finished pass has held every shard of the map under that shard's
    /// lock, and has handed out, shard by shard, every entry that the
    /// shard held when the pass let it go, exactly once. This holds of
    /// every pass, whatever the shards held.
    pub proof fn lemma_finished_pass_lists_shards(&self)
        requires
            self.wf(),
            self.finished(),
        ensures
            self.visited().len() == self.map().shard_count(),
            forall|i: int|
                0 <= i < self.map().shard_count() ==> was_held(
                    self.map().shard_locks()[i],
                    #[trigger] self.visited()[i],
                    self.exclusive(),
                ),
            lists_shards(self.handed_out(), self.visited()),
    {
        assert(pass(self.done@) + self.pending@.take(self.cursor as int) =~= pass(self.done@));
        assert(is_pass_over(self.done@, self.handed_out(), self.seen@));
    }

    /// A finished pass has handed out every entry exactly once: provided
    /// that each shard, when the pass let it go, held only keys that
    /// belong to it, what was handed out lists the map that the shards
    /// make up, each as the pass held it under its lock, with no entry
    /// skipped and none repeated.
    pub proof fn lemma_finished_pass_lists_map(&self)
        requires
            self.wf(),
            self.finished(),
            well_routed(self.visited(), self.map().shard_bits()),
        ensures
            forall|i: int|
                0 <= i < self.map().shard_count() ==> was_held(
                    self.map().shard_locks()[i],
                    #[trigger] self.visited()[i],
                    self.exclusive(),
                ),
            lists_entries(self.handed_out(), contents(self.visited(), self.map().shard_bits())),
    {
        lemma_pass_lists_contents(self.seen@, self.map.shard_bits(), self.done@);
        assert(pass(self.done@) + self.pending@.take(self.cursor as int) =~= pass(self.done@));
    }

    /// Starts a pass: takes the lock of the first shard, in write mode if
    /// `exclusive` and in read mode otherwise, and lists its entries.
    pub(crate) fn new(map: &'a DashMap, exclusive: bool) -> (cursor: Cursor<'a>)
        ensures
            cursor.wf(),
            cursor.map() == map,
            cursor.exclusive() == exclusive,
            cursor.shard() == 0,
            !cursor.finished(),
            cursor.yielded().len() == 0,
            cursor.handed_out().len() == 0,
    {
        proof {
            use_type_invariant(map);
            lemma_pow2_pos(map.shard_bits());
        }
        let held = Held::acquire(map, 0, exclusive);
        let pending = held.listing();
        let cursor = Cursor {
            map,
            exclusive,
            shard: 0,
            guard: Some(held),
            pending,
            cursor: 0,
            done: Ghost(Seq::empty()),
            seen: Ghost(Seq::empty()),
        };
        assert(pass(cursor.done@).len() == 0);
        cursor
    }

    /// Hands out the next entry, or nothing once all shards are visited.
    /// A finished pass stays finished.
    pub(crate) fn next(&mut self) -> (item: Option<(u64, u64)>)
        requires
            old(self).wf(),
        ensures
            final(self).wf(),
            Cursor::stepped(*old(self), *final(self), item),
    {
        let map: &'a DashMap = self.map;
        let count = map.shards().len();
        let ghost mut advanced = false;
        loop
            invariant
                self.wf(),
                self.map == old(self).map,
                self.exclusive == old(self).exclusive,
                map == self.map,
                count == map.shard_count(),
                !advanced ==> {
                    &&& self.shard == old(self).shard
                    &&& self.cursor == old(self).cursor
                    &&& self.pending@ == old(self).pending@
                    &&& self.guard == old(self).guard
                    &&& self.done@ == old(self).done@
                    &&& self.seen@ == old(self).seen@
                },
                advanced ==> {
                    &&& self.shard > old(self).shard
                    &&& self.cursor == 0
                    &&& old(self).cursor == old(self).pending@.len()
                    &&& old(self).guard is Some
                    &&& self.seen@.take(old(self).shard as int) == old(self).seen@
                    &&& self.seen@[old(self).shard as int] == old(self).guard.unwrap().entries()
                    &&& forall|i: int|
                        old(self).shard < i < self.shard ==> #[trigger] self.seen@[i]
                            == no_entries()
                    &&& pass(self.done@) == pass(old(self).done@) + old(self).pending@
                },
            decreases count - self.shard,
        {
            if self.cursor < self.pending.len() {
                let entry: (u64, u64) = self.pending[self.cursor];
                self.cursor = self.cursor + 1;
                proof {
                    let before = (self.cursor - 1) as int;
                    let listing = self.pending@;
                    assert(listing.take(before + 1) =~= listing.take(before).push(entry));
                    assert(listing.skip(before + 1) =~= listing.skip(before).skip(1));
                    assert(pass(self.done@) + listing.take(before + 1) =~= (pass(self.done@)
                        + listing.take(before)).push(entry));
                    if advanced {
                        assert(listing.take(0) =~= Seq::<(u64, u64)>::empty());
                        assert(old(self).pending@.take(old(self).cursor as int) =~= old(
                            self,
                        ).pending@);
                    }
                }
                return Some(entry);
            }
            if self.guard.is_none() {
                proof {
                    if advanced {
                        assert(old(self).pending@.take(old(self).cursor as int) =~= old(
                            self,
                        ).pending@);
                        assert(self.pending@.take(0) =~= Seq::<(u64, u64)>::empty());
                        assert(pass(self.done@) + self.pending@.take(0) =~= pass(self.done@));
                    }
                }
                return None;
            }
            // The shard is exhausted. Its lock goes before the next is taken.
            let ghost listing = self.pending@;
            let ghost entries = self.guard.unwrap().entries();
            let ghost done = self.done@;
            let ghost seen = self.seen@;
            proof {
                self.guard.unwrap().lemma_was_held();
                assert(done.push(listing).drop_last() =~= done);
                assert(pass(done.push(listing)) == pass(done) + listing);
                if advanced {
                    assert(listing =~= Seq::<(u64, u64)>::empty());
                    assert(entries =~= no_entries());
                    assert(pass(done) + listing =~= pass(done));
                    assert(seen.push(entries).take(old(self).shard as int) =~= seen.take(
                        old(self).shard as int,
                    ));
                } else {
                    assert(listing.take(listing.len() as int) =~= listing);
                    assert(seen.push(entries).take(old(self).shard as int) =~= seen);
                }
            }
            self.done = Ghost(done.push(listing));
            self.seen = Ghost(seen.push(entries));
            self.guard = None;
            self.pending = Vec::new();
            self.cursor = 0;
            self.shard = self.shard + 1;
            proof {
                advanced = true;
            }
            if self.shard < count {
                let held = Held::acquire(map, self.shard, self.exclusive);
                self.pending = held.listing();
                self.guard = Some(held);
            }
        }
    }

    /// Whether an entry of the shard being visited has been handed out.
    pub(crate) fn has_current(&self) -> (has: bool)
        requires
            self.wf(),
        ensures
            has == (self.yielded().len() > 0),
    {
        self.cursor > 0
    }

    /// Replaces, in place, the value of the entry that was handed out last
    /// and returns the value replaced. The entry keeps its key and its
    /// place in the pass; nothing else in the shard changes. This takes a
    /// pass that holds its shard in write mode.
    pub(crate) fn set_value(&mut self, value: u64) -> (previous: u64)
        requires
            old(self).wf(),
            old(self).exclusive(),
            old(self).yielded().len() > 0,
        ensures
            final(self).wf(),
            final(self).map() == old(self).map(),
            final(self).exclusive(),
            final(self).shard() == old(self).shard(),
            final(self).visited() == old(self).visited(),
            final(self).remaining() == old(self).remaining(),
            previous == old(self).yielded().last().1,
            final(self).yielded() == old(self).yielded().update(
                old(self).yielded().len() - 1,
                (old(self).yielded().last().0, value),
            ),
            final(self).handed_out() == old(self).handed_out().update(
                old(self).handed_out().len() - 1,
                (old(self).yielded().last().0, value),
            ),
            final(self).locked() == Some(
                old(self).locked().unwrap().insert(old(self).yielded().last().0, value),
            ),
    {
        let at: usize = self.cursor - 1;
        let entry: (u64, u64) = self.pending[at];
        let ghost before = self.pending@;
        let ghost entries = old(self).locked().unwrap();
        match &mut self.guard {
            Some(Held::Exclusive(guard)) => {
                guard.insert(entry.0, value);
            },
            _ => {},
        }
        self.pending.set(at, (entry.0, value));
        proof {
            let after = self.pending@;
            let changed = entries.insert(entry.0, value);
            let upto = self.cursor as int;
            assert(after == before.update(at as int, (entry.0, value)));
            assert(after.take(upto) =~= before.take(upto).update(at as int, (entry.0, value)));
            assert(after.skip(upto) =~= before.skip(upto));
            assert(pass(self.done@) + after.take(upto) =~= (pass(self.done@) + before.take(
                upto,
            )).update(pass(self.done@).len() + at, (entry.0, value)));
            assert forall|i: int| 0 <= i < after.len() implies #[trigger] changed.contains_key(
                after[i].0,
            ) && changed[after[i].0] == after[i].1 by {
                assert(entries.contains_key(before[i].0));
                if i < at {
                    assert(before[i].0 != before[at as int].0);
                } else if i > at {
                    assert(before[at as int].0 != before[i].0);
                }
            }
            assert forall|key: u64| #[trigger] changed.contains_key(key) implies exists|i: int|
                0 <= i < after.len() && after[i].0 == key by {
                if key == entry.0 {
                    assert(after[at as int].0 == key);
                } else {
                    assert(entries.contains_key(key));
                    let i = choose|i: int| 0 <= i < before.len() && before[i].0 == key;
                    assert(after[i].0 == key);
                }
            }
        }
        entry.1
    }
}

/// A read-only pass over a map. The shard being visited is held in read
/// mode, so others may read it meanwhile but not write it.
pub struct Iter<'a> {
    cursor: Cursor<'a>,
}

impl<'a> Iter<'a> {
    /// The pass is in a valid state and takes its locks in read mode.
    pub closed spec fn wf(&self) -> bool {
        self.cursor.wf() && !self.cursor.exclusive()
    }

    /// The state of the pass.
    pub closed spec fn cursor(&self) -> Cursor<'a> {
        self.cursor
    }

    /// Starts a pass: takes the lock of the first shard and lists its
    /// entries.
    pub fn new(map: &'a DashMap) -> (iter: Iter<'a>)
        ensures
            iter.wf(),
            iter.cursor().wf(),
            iter.cursor().map() == map,
            !iter.cursor().exclusive(),
            iter.cursor().shard() == 0,
            !iter.cursor().finished(),
            iter.cursor().handed_out().len() == 0,
    {
        Iter { cursor: Cursor::new(map, false) }
    }

    /// Hands out the next entry, or nothing once all shards are visited.
    pub fn next(&mut self) -> (item: Option<(u64, u64)>)
        requires
            old(self).wf(),
        ensures
            final(self).wf(),
            final(self).cursor().wf(),
            Cursor::stepped(old(self).cursor(), final(self).cursor(), item),
    {
        self.cursor.next()
    }
}

/// A pass over a map that may change values. The shard being visited is
/// held in write mode, so nobody else reads or writes it meanwhile.
pub struct IterMut<'a> {
    cursor: Cursor<'a>,
}

impl<'a> IterMut<'a> {
    /// The pass is in a valid state and takes its locks in write mode.
    pub closed spec fn wf(&self) -> bool {
        self.cursor.wf() && self.cursor.exclusive()
    }

    /// The state of the pass.
    pub closed spec fn cursor(&self) -> Cursor<'a> {
        self.cursor
    }

    /// Starts a pass: takes the lock of the first shard and lists its
    /// entries.
    pub fn new(map: &'a DashMap) -> (iter: IterMut<'a>)
        ensures
            iter.wf(),
            iter.cursor().wf(),
            iter.cursor().map() == map,
            iter.cursor().exclusive(),
            iter.cursor().shard() == 0,
            !iter.cursor().finished(),
            iter.cursor().handed_out().len() == 0,
    {
        IterMut { cursor: Cursor::new(map, true) }
    }

    /// Hands out the next entry, or nothing once all shards are visited.
    pub fn next(&mut self) -> (item: Option<(u64, u64)>)
        requires
            old(self).wf(),
        ensures
            final(self).wf(),
            final(self).cursor().wf(),
            Cursor::stepped(old(self).cursor(), final(self).cursor(), item),
    {
        self.cursor.next()
    }

    /// Replaces, in place, the value of the entry that was handed out last
    /// and returns the value replaced, as [`Cursor::set_value`] does.
    /// Without an entry handed out from the shard being visited there is
    /// nothing to change, and nothing is returned.
    pub fn set_value(&mut self, value: u64) -> (previous: Option<u64>)
        requires
            old(self).wf(),
        ensures
            final(self).wf(),
            final(self).cursor().wf(),
            previous is Some <==> old(self).cursor().yielded().len() > 0,
            previous is None ==> final(self).cursor() == old(self).cursor(),
            previous matches Some(replaced) ==> {
                let before = old(self).cursor();
                let after = final(self).cursor();
                &&& replaced == before.yielded().last().1
                &&& after.map() == before.map()
                &&& after.shard() == before.shard()
                &&& after.visited() == before.visited()
                &&& after.remaining() == before.remaining()
                &&& after.yielded() == before.yielded().update(
                    before.yielded().len() - 1,
                    (before.yielded().last().0, value),
                )
                &&& after.handed_out() == before.handed_out().update(
                    before.handed_out().len() - 1,
                    (before.yielded().last().0, value),
                )
                &&& after.locked() == Some(
                    before.locked().unwrap().insert(before.yielded().last().0, value),
                )
            },
    {
        if self.cursor.has_current() {
            Some(self.cursor.set_value(value))
        } else {
            None
        }
    }
}

} // verus!
