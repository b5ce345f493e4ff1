//! The key table of a namespace and its pool of recycled slots.

use crate::small_map::{lawful_key, SlotEntry, SmallMap};
use std::hash::Hash;
use vstd::prelude::*;

verus! {

/// Upper bound on the recycled slots that a namespace retains.
pub const SLOT_POOL_CAP: usize = 128;

/// A namespace's bookkeeping.
#[verifier::ext_equal]
#[verifier::reject_recursive_types(K)]
pub struct EntriesView<K, S> {
    /// The retained generation at each key.
    pub table: Map<K, SlotEntry<S>>,
    /// The recycled slots, the one that is reused next last.
    pub pool: Seq<S>,
    /// The next generation to hand out.
    pub next_generation: usize,
}

impl<K, S> EntriesView<K, S> {
    /// A namespace without subjects.
    pub open spec fn empty() -> Self {
        EntriesView { table: Map::empty(), pool: Seq::empty(), next_generation: 1 }
    }

    /// What every namespace keeps: retained generations have been handed out,
    /// no two keys share one, and the pool is bounded.
    pub open spec fn inv(self) -> bool {
        &&& self.next_generation >= 1
        &&& self.pool.len() <= SLOT_POOL_CAP
        &&& forall|k: K| #[trigger]
            self.table.contains_key(k) ==> 1 <= self.table[k].generation < self.next_generation
        &&& forall|a: K, b: K|
            #![trigger self.table[a], self.table[b]]
            self.table.contains_key(a) && self.table.contains_key(b) && self.table[a].generation
                == self.table[b].generation ==> a == b
    }

    /// The namespace after the next generation has been handed out; a recycled
    /// slot, if there is one, goes with it.
    pub open spec fn reserved(self) -> Self {
        EntriesView {
            table: self.table,
            pool: if self.pool.len() > 0 {
                self.pool.drop_last()
            } else {
                self.pool
            },
            next_generation: (self.next_generation + 1) as usize,
        }
    }

    /// `generation` has been handed out, and is retained at no key.
    pub open spec fn unused(self, generation: usize) -> bool {
        &&& 1 <= generation < self.next_generation
        &&& forall|k: K| #[trigger]
            self.table.contains_key(k) ==> self.table[k].generation != generation
    }

    /// The namespace with a generation retained at `key`.
    pub open spec fn installed(self, key: K, generation: usize, slot: S) -> Self {
        EntriesView { table: self.table.insert(key, SlotEntry { generation, slot }), ..self }
    }

    /// The namespace after a new generation has been registered at `key` with
    /// `slot`.
    pub open spec fn registered(self, key: K, slot: S) -> Self {
        self.reserved().installed(key, self.next_generation, slot)
    }

    /// `generation` is the one retained at `key`.
    pub open spec fn retains(self, key: K, generation: usize) -> bool {
        self.table.contains_key(key) && self.table[key].generation == generation
    }

    /// The namespace after `generation` has been retired from `key`: nothing
    /// changes unless exactly that generation is retained there.
    pub open spec fn retired(self, key: K, generation: usize) -> Self {
        if self.retains(key, generation) {
            EntriesView { table: self.table.remove(key), ..self }
        } else {
            self
        }
    }

    /// A retired slot is kept for reuse: nobody shares it, and there is room.
    pub open spec fn recycles(self, unshared: bool) -> bool {
        unshared && self.pool.len() < SLOT_POOL_CAP
    }

    /// The namespace after a retired slot was offered to the pool.
    pub open spec fn recycled(self, slot: S, unshared: bool) -> Self {
        if self.recycles(unshared) {
            EntriesView { pool: self.pool.push(slot), ..self }
        } else {
            self
        }
    }
}

/// What became of a request for a key.
pub enum Reservation<S> {
    /// A generation is retained at the key.
    Occupied,
    /// All generations have been handed out.
    Exhausted,
    /// The key is free: here is the new generation, and a slot to reuse for it.
    Vacant { generation: usize, recycled: Option<S> },
}

/// A slot that came out of the pool. Nothing but the pool makes one.
pub struct Recycled<S> {
    slot: S,
}

impl<S> Recycled<S> {
    /// The slot.
    pub closed spec fn slot(&self) -> S {
        self.slot
    }

    /// The slot itself.
    pub(crate) fn into_slot(self) -> (slot: S)
        ensures
            slot == self.slot(),
        opens_invariants none
    {
        self.slot
    }
}

/// The key table plus the recycled-slot pool.
pub struct Entries<K, S> {
    map: SmallMap<K, SlotEntry<S>>,
    pool: Vec<S>,
    next_generation: usize,
}

impl<K, S> View for Entries<K, S> {
    type V = EntriesView<K, S>;

    closed spec fn view(&self) -> EntriesView<K, S> {
        EntriesView {
            table: self.map@,
            pool: self.pool@,
            next_generation: self.next_generation,
        }
    }
}

impl<K, S> Entries<K, S> {
    /// The bookkeeping invariant, and the table is in shape.
    pub closed spec fn inv(&self) -> bool {
        self@.inv() && self.map.wf()
    }

    /// The table has promoted to a hash map.
    pub closed spec fn promoted(&self) -> bool {
        self.map.promoted()
    }

    /// A namespace that is in shape keeps the bookkeeping invariant.
    pub proof fn lemma_inv(&self)
        ensures
            self.inv() ==> self@.inv(),
    {
    }

    /// A namespace without subjects.
    pub fn new() -> (entries: Self)
        ensures
            entries@ == EntriesView::<K, S>::empty(),
            entries.inv(),
    {
        Entries { map: SmallMap::default(), pool: Vec::new(), next_generation: 1 }
    }

    /// Offers a retired slot to the pool; a slot that does not stay comes back.
    pub fn recycle(&mut self, slot: S, unshared: bool) -> (rejected: Option<S>)
        ensures
            final(self)@ == old(self)@.recycled(slot, unshared),
            rejected == if old(self)@.recycles(unshared) {
                None
            } else {
                Some(slot)
            },
            old(self).inv() ==> final(self).inv(),
    {
        if unshared && self.pool.len() < SLOT_POOL_CAP {
            self.pool.push(slot);
            None
        } else {
            Some(slot)
        }
    }
}

impl<K: Eq + Hash + Clone, S> Entries<K, S> {
    /// Hands out the next generation if `key` is free, with a recycled slot if
    /// the pool has one.
    pub fn reserve(&mut self, key: &K) -> (reservation: Reservation<S>)
        ensures
            match reservation {
                Reservation::Occupied => final(self)@ == old(self)@,
                Reservation::Exhausted => {
                    &&& old(self)@.next_generation == usize::MAX
                    &&& final(self)@ == old(self)@
                },
                Reservation::Vacant { generation, recycled } => {
                    &&& old(self)@.next_generation < usize::MAX
                    &&& generation == old(self)@.next_generation
                    &&& recycled == if old(self)@.pool.len() > 0 {
                        Some(old(self)@.pool.last())
                    } else {
                        None
                    }
                    &&& final(self)@ == old(self)@.reserved()
                },
            },
            lawful_key::<K>() ==> (reservation is Occupied <==> old(self)@.table.contains_key(
                *key,
            )),
            old(self).inv() ==> final(self).inv(),
    {
        if !self.map.is_vacant(key) {
            return Reservation::Occupied;
        }
        if self.next_generation == usize::MAX {
            return Reservation::Exhausted;
        }
        let generation: usize = self.next_generation;
        self.next_generation = generation + 1;
        let recycled: Option<S> = self.pool.pop();
        assert(self@.table == old(self)@.table);
        Reservation::Vacant { generation, recycled }
    }

    /// Hands out the next generation like [`Entries::reserve`], with the slot
    /// known to come out of the pool.
    pub(crate) fn claim(&mut self, key: &K) -> (reservation: Reservation<Recycled<S>>)
        ensures
            match reservation {
                Reservation::Occupied => final(self)@ == old(self)@,
                Reservation::Exhausted => {
                    &&& old(self)@.next_generation == usize::MAX
                    &&& final(self)@ == old(self)@
                },
                Reservation::Vacant { generation, recycled } => {
                    &&& old(self)@.next_generation < usize::MAX
                    &&& generation == old(self)@.next_generation
                    &&& match recycled {
                        Some(taken) => old(self)@.pool.len() > 0 && taken.slot()
                            == old(self)@.pool.last(),
                        None => old(self)@.pool.len() == 0,
                    }
                    &&& final(self)@ == old(self)@.reserved()
                },
            },
            lawful_key::<K>() ==> (reservation is Occupied <==> old(self)@.table.contains_key(
                *key,
            )),
            old(self).inv() ==> final(self).inv(),
    {
        match self.reserve(key) {
            Reservation::Occupied => Reservation::Occupied,
            Reservation::Exhausted => Reservation::Exhausted,
            Reservation::Vacant { generation, recycled } => {
                let recycled: Option<Recycled<S>> = match recycled {
                    Some(slot) => Some(Recycled { slot }),
                    None => None,
                };
                Reservation::Vacant { generation, recycled }
            },
        }
    }

    /// Retains a generation at a free key.
    pub fn install(&mut self, key: K, generation: usize, slot: S)
        requires
            lawful_key::<K>() ==> !old(self)@.table.contains_key(key),
        ensures
            lawful_key::<K>() ==> final(self)@ == old(self)@.installed(key, generation, slot),
            lawful_key::<K>() && old(self).inv() && old(self)@.unused(generation)
                ==> final(self).inv(),
    {
        self.map.insert_vacant(key, SlotEntry { generation, slot });
    }

    /// The generation retained at `key`.
    pub fn lookup(&self, key: &K) -> (found: Option<&SlotEntry<S>>)
        ensures
            lawful_key::<K>() ==> match found {
                Some(entry) => self@.table.contains_key(*key) && *entry == self@.table[*key],
                None => !self@.table.contains_key(*key),
            },
    {
        self.map.get(key)
    }

    /// Retires `generation` from `key`, and says whether it was the one
    /// retained there.
    pub fn retire(&mut self, key: &K, generation: usize) -> (retired: bool)
        ensures
            lawful_key::<K>() ==> {
                &&& retired == old(self)@.retains(*key, generation)
                &&& final(self)@ == old(self)@.retired(*key, generation)
                &&& old(self).inv() ==> final(self).inv()
            },
            final(self)@.pool == old(self)@.pool,
            final(self)@.next_generation == old(self)@.next_generation,
    {
        self.map.remove_if(key, generation)
    }
}

} // verus!
