//! The shared completion namespace: registration, observation and retirement
//! of generations by key.

use crate::entries::{Entries, EntriesView, Reservation, SLOT_POOL_CAP};
use crate::observation::{
    newly_made, pristine_slot, published_through, reset_through, Observation, SharedSlot,
};
use crate::slot::Slot;
use crate::small_map::{copy_key, lawful_key};
use crate::sync::cells::reset_slot;
use crate::sync::namespaces::{enroll, find, granted, retire, Grant};
use crate::sync::{read_locked, shelve, shelves, write_locked, Guarded, ReadWrite};
use crate::turn::{turns, Purpose, Turn};
use std::hash::Hash;
use std::task::Waker;
use triomphe::Arc;
use vstd::prelude::*;

verus! {

/// A live subject already exists at this key.
#[derive(Debug, Clone, PartialEq, Eq)]
pub struct SubjectExists<K>(pub K);

/// No retained subject exists at this key.
#[derive(Debug, Clone, PartialEq, Eq)]
pub struct UnknownSubject<K>(pub K);

/// Why a subject could not be registered.
#[derive(Debug, Clone, PartialEq, Eq)]
pub enum SubjectError<K> {
    /// The current generation at the key remains retained.
    Exists(SubjectExists<K>),
    /// All generations have been handed out.
    Exhausted,
}

/// Why a key could not be registered.
#[derive(Debug, Clone, Copy, PartialEq, Eq)]
pub enum Refused {
    /// The current generation at the key remains retained.
    Exists,
    /// All generations have been handed out.
    Exhausted,
}

/// A namespace's bookkeeping over shared slots.
pub type SharedEntries<K, O> = Entries<K, SharedSlot<O>>;

/// What registering `key` does to the bookkeeping, and what comes of it: the
/// new generation with its slot, or the reason there is none.
pub open spec fn registers<K, S>(
    before: EntriesView<K, S>,
    after: EntriesView<K, S>,
    key: K,
    result: Result<(usize, S), Refused>,
) -> bool {
    match result {
        Ok((generation, slot)) => {
            &&& !before.table.contains_key(key)
            &&& before.next_generation < usize::MAX
            &&& generation == before.next_generation
            &&& before.pool.len() > 0 ==> slot == before.pool.last()
            &&& after == before.registered(key, slot)
        },
        Err(Refused::Exists) => {
            &&& before.table.contains_key(key)
            &&& after == before
        },
        Err(Refused::Exhausted) => {
            &&& !before.table.contains_key(key)
            &&& before.next_generation == usize::MAX
            &&& after == before
        },
    }
}

/// What observing `key` gives: the slot of the generation retained there.
pub open spec fn observes<K, S>(
    entries: EntriesView<K, S>,
    key: K,
    result: Result<S, UnknownSubject<K>>,
) -> bool {
    match result {
        Ok(slot) => entries.table.contains_key(key) && slot == entries.table[key].slot,
        Err(unknown) => !entries.table.contains_key(key) && unknown.0 == key,
    }
}

/// What retiring a generation does to the bookkeeping, given whether its slot
/// is shared no more; `retired` says whether the generation was there.
pub open spec fn retires<K, S>(
    before: EntriesView<K, S>,
    after: EntriesView<K, S>,
    key: K,
    generation: usize,
    slot: S,
    unshared: bool,
    retired: bool,
) -> bool {
    &&& retired == before.retains(key, generation)
    &&& after == if retired {
        before.retired(key, generation).recycled(slot, unshared)
    } else {
        before
    }
}

/// `slot` starts pending: it is new, or was reset.
pub open spec fn starts_over<O>(slot: SharedSlot<O>, recycled: bool) -> bool {
    if recycled {
        reset_through(slot)
    } else {
        newly_made(slot)
    }
}

/// `unshared` says whether `Arc::strong_count` counts one pointer to `slot`.
pub open spec fn counted<O>(slot: SharedSlot<O>, unshared: bool) -> bool {
    exists|count: usize|
        {
            &&& #[trigger] call_ensures(
                Arc::<Guarded<Slot<Arc<O>, Waker>>>::strong_count,
                (&slot,),
                count,
            )
            &&& unshared == (count == 1)
        }
}

/// What retiring a subject does to the bookkeeping, where `unshared` is what the
/// pointer count said of its slot, and the answer to it: whether the generation
/// was there, and the slot unless it was recycled.
pub open spec fn retires_counted<K: Eq + Hash + Clone, O>(
    before: EntriesView<K, SharedSlot<O>>,
    after: EntriesView<K, SharedSlot<O>>,
    subject: (K, usize, SharedSlot<O>),
    unshared: bool,
    answer: (bool, Option<SharedSlot<O>>),
) -> bool {
    &&& answer.0 ==> counted(subject.2, unshared)
    &&& answer.1 == if answer.0 && before.recycles(unshared) {
        None
    } else {
        Some(subject.2)
    }
    &&& lawful_key::<K>() ==> retires(
        before,
        after,
        subject.0,
        subject.1,
        subject.2,
        unshared,
        answer.0,
    )
}

/// Registers a new generation at `key`, on a recycled slot, reset, if there is
/// one, and otherwise on a new one.
pub fn register<K: Eq + Hash + Clone, O>(entries: &mut SharedEntries<K, O>, key: &K) -> (result:
    Result<(usize, SharedSlot<O>), Refused>)
    ensures
        lawful_key::<K>() ==> {
            &&& registers(old(entries)@, final(entries)@, *key, result)
            &&& old(entries).inv() ==> final(entries).inv()
        },
        result matches Ok(granted) ==> starts_over(granted.1, old(entries)@.pool.len() > 0),
{
    proof {
        entries.lemma_inv();
    }
    match entries.claim(key) {
        Reservation::Occupied => Err(Refused::Exists),
        Reservation::Exhausted => Err(Refused::Exhausted),
        Reservation::Vacant { generation, recycled } => {
            let slot: SharedSlot<O> = match recycled {
                Some(taken) => reset_slot(Turn::new(Ghost(Purpose::Renew)), taken),
                None => pristine_slot(),
            };
            entries.install(copy_key(key), generation, slot.clone());
            Ok((generation, slot))
        },
    }
}

/// The slot of the generation retained at `key`.
pub fn find_slot<K: Eq + Hash + Clone, O>(
    entries: &SharedEntries<K, O>,
    key: &K,
) -> (result: Result<SharedSlot<O>, UnknownSubject<K>>)
    ensures
        lawful_key::<K>() ==> observes(entries@, *key, result),
{
    match entries.lookup(key) {
        Some(entry) => Ok(entry.slot.clone()),
        None => Err(UnknownSubject(copy_key(key))),
    }
}

/// Retires a generation and recycles its slot if no observation holds it. A
/// slot that is not recycled comes back with the answer, so that it is let go
/// outside the critical section.
///
/// With the entry gone and the table locked, no new observation can capture the
/// slot, so a single remaining pointer is this one.
pub fn retire_generation<K: Eq + Hash + Clone, O>(
    entries: &mut SharedEntries<K, O>,
    subject: (&K, usize, SharedSlot<O>),
) -> (answer: (bool, Option<SharedSlot<O>>))
    ensures
        exists|unshared: bool| #[trigger]
            retires_counted(
                old(entries)@,
                final(entries)@,
                (*subject.0, subject.1, subject.2),
                unshared,
                answer,
            ),
        lawful_key::<K>() && old(entries).inv() ==> final(entries).inv(),
{
    let (key, generation, slot) = subject;
    let ghost named = (*key, generation, slot);
    if entries.retire(key, generation) {
        let count: usize = Arc::strong_count(&slot);
        let unshared: bool = count == 1;
        assert(counted(named.2, unshared));
        let answer: (bool, Option<SharedSlot<O>>) = (true, entries.recycle(slot, unshared));
        assert(retires_counted(old(entries)@, entries@, named, unshared, answer));
        answer
    } else {
        let answer: (bool, Option<SharedSlot<O>>) = (false, Some(slot));
        assert(retires_counted(old(entries)@, entries@, named, false, answer));
        answer
    }
}

/// `namespace` is what `Arc::new` makes of what `RwLock::new` makes of a
/// bookkeeping without subjects.
pub closed spec fn new_namespace<K, O>(namespace: Arc<ReadWrite<SharedEntries<K, O>>>) -> bool {
    exists|entries: SharedEntries<K, O>|
        {
            &&& entries@ == EntriesView::<K, SharedSlot<O>>::empty()
            &&& entries.inv()
            &&& #[trigger] shelves(namespace, entries)
        }
}

/// Shared completion namespace. Clones share one namespace.
#[verifier::reject_recursive_types(K)]
#[verifier::reject_recursive_types(O)]
pub struct ObservationSpace<K, O> {
    entries: Arc<ReadWrite<SharedEntries<K, O>>>,
}

impl<K, O> ObservationSpace<K, O> {
    /// The namespace behind this handle.
    pub closed spec fn namespace(&self) -> Arc<ReadWrite<SharedEntries<K, O>>> {
        self.entries
    }

    /// An empty namespace.
    pub fn new() -> (space: Self)
        ensures
            new_namespace(space.namespace()),
    {
        ObservationSpace { entries: shelve(Entries::new()) }
    }
}

impl<K, O> Clone for ObservationSpace<K, O> {
    fn clone(&self) -> (space: Self)
        ensures
            space.namespace() == self.namespace(),
    {
        ObservationSpace { entries: self.entries.clone() }
    }
}

impl<K, O> Default for ObservationSpace<K, O> {
    fn default() -> (space: Self)
        ensures
            new_namespace(space.namespace()),
    {
        ObservationSpace::new()
    }
}

impl<K: Eq + Hash + Clone, O> ObservationSpace<K, O> {
    /// Registers one new subject generation at `key`.
    ///
    /// Fails while the current generation at the key remains retained, or when
    /// all generations have been handed out; which of these holds, the subjects
    /// that other threads hold decide.
    pub fn subject(&self, key: K) -> (result: Result<Subject<K, O>, SubjectError<K>>)
        ensures
            exists|answer: Result<(usize, SharedSlot<O>), Refused>|
                {
                    &&& #[trigger] write_locked(
                        self.namespace(),
                        &key,
                        register::<K, O>,
                        answer,
                    )
                    &&& grants(self.namespace(), key, answer, result)
                },
            result matches Ok(subject) ==> reset_through(subject.slot()) || newly_made(
                subject.slot(),
            ),
    {
        let ghost asked = key;
        let enrolled: Result<Grant<K, O>, (Refused, K)> = enroll(
            Turn::new(Ghost(Purpose::Enroll)),
            &self.entries,
            key,
        );
        let ghost answer = choose|answer: Result<(usize, SharedSlot<O>), Refused>|
            {
                &&& #[trigger] write_locked(self.namespace(), &asked, register::<K, O>, answer)
                &&& granted(asked, answer, enrolled)
            };
        let result: Result<Subject<K, O>, SubjectError<K>> = match enrolled {
            Ok(grant) => Ok(
                Subject { entries: self.entries.clone(), grant, completed: false },
            ),
            Err((Refused::Exists, key)) => Err(SubjectError::Exists(SubjectExists(key))),
            Err((Refused::Exhausted, _)) => Err(SubjectError::Exhausted),
        };
        assert(grants(self.namespace(), asked, answer, result));
        result
    }

    /// Observes the current generation at `key`, including one that has
    /// completed already. Fails when none is retained there.
    pub fn observe(&self, key: &K) -> (result: Result<Observation<O>, UnknownSubject<K>>)
        ensures
            read_locked(self.namespace(), key, find_slot::<K, O>, observed_slot(result)),
        opens_invariants turns(Purpose::Find)
    {
        let found: Result<SharedSlot<O>, UnknownSubject<K>> = find(
            Turn::new(Ghost(Purpose::Find)),
            &self.entries,
            key,
        );
        let ghost captured = found;
        let result: Result<Observation<O>, UnknownSubject<K>> = match found {
            Ok(slot) => Ok(Observation::of(slot)),
            Err(error) => Err(error),
        };
        assert(observed_slot(result) == captured);
        result
    }
}

/// What comes of a registration at `key`: a subject with the generation and the
/// slot that were granted, or the refusal, which gives the key back.
pub open spec fn grants<K, O>(
    namespace: Arc<ReadWrite<SharedEntries<K, O>>>,
    key: K,
    answer: Result<(usize, SharedSlot<O>), Refused>,
    result: Result<Subject<K, O>, SubjectError<K>>,
) -> bool {
    match answer {
        Ok((generation, slot)) => match result {
            Ok(subject) => {
                &&& subject.namespace() == namespace
                &&& subject.key() == key
                &&& subject.generation() == generation
                &&& subject.slot() == slot
                &&& !subject.is_completed()
            },
            Err(_) => false,
        },
        Err(Refused::Exists) => result == Err::<Subject<K, O>, SubjectError<K>>(
            SubjectError::Exists(SubjectExists(key)),
        ),
        Err(Refused::Exhausted) => result == Err::<Subject<K, O>, SubjectError<K>>(
            SubjectError::Exhausted,
        ),
    }
}

/// What an observation captured: the slot.
pub open spec fn observed_slot<K, O>(
    result: Result<Observation<O>, UnknownSubject<K>>,
) -> Result<SharedSlot<O>, UnknownSubject<K>> {
    match result {
        Ok(observation) => Ok(observation.slot()),
        Err(error) => Err(error),
    }
}

/// Publisher and retention owner for one exact generation. The generation stays
/// retained at its key until [`Subject::retire`]; a subject that is merely dropped
/// leaves it retained.
#[verifier::reject_recursive_types(K)]
#[verifier::reject_recursive_types(O)]
pub struct Subject<K, O> {
    entries: Arc<ReadWrite<SharedEntries<K, O>>>,
    grant: Grant<K, O>,
    completed: bool,
}

impl<K, O> Subject<K, O> {
    /// The namespace that retains the generation.
    pub closed spec fn namespace(&self) -> Arc<ReadWrite<SharedEntries<K, O>>> {
        self.entries
    }

    /// The key that the generation is retained at.
    pub closed spec fn key(&self) -> K {
        self.grant.key()
    }

    /// The generation.
    pub closed spec fn generation(&self) -> usize {
        self.grant.generation()
    }

    /// The slot that the generation publishes through.
    pub closed spec fn slot(&self) -> SharedSlot<O> {
        self.grant.slot()
    }

    /// The outcome has been published.
    pub closed spec fn is_completed(&self) -> bool {
        self.completed
    }

    /// Publishes the terminal outcome, once. The wakers that were registered
    /// come back, in registration order, for the caller to wake; the outcome is
    /// there for every reader before the first of them is.
    #[must_use]
    pub fn complete(&mut self, outcome: O) -> (wakers: Vec<Waker>)
        requires
            !old(self).is_completed(),
        ensures
            final(self).is_completed(),
            final(self).namespace() == old(self).namespace(),
            final(self).key() == old(self).key(),
            final(self).generation() == old(self).generation(),
            final(self).slot() == old(self).slot(),
            published_through(old(self).slot(), outcome, wakers),
        opens_invariants turns(Purpose::Publish)
    {
        self.completed = true;
        self.grant.publish(Turn::new(Ghost(Purpose::Publish)), Arc::new(outcome))
    }
}

impl<K: Eq + Hash + Clone, O> Subject<K, O> {
    /// Retires the generation from its key. Says whether it was the one
    /// retained there; a newer generation at the key stays.
    pub fn retire(self) -> (retired: bool)
        ensures
            exists|rest: Option<SharedSlot<O>>| #[trigger]
                write_locked(
                    self.namespace(),
                    (&self.key(), self.generation(), self.slot()),
                    retire_generation::<K, O>,
                    (retired, rest),
                ),
        opens_invariants turns(Purpose::Retire)
    {
        let retired: bool = retire(
            Turn::new(Ghost(Purpose::Retire)),
            &self.entries,
            self.grant,
        );
        let ghost rest = choose|rest: Option<SharedSlot<O>>| #[trigger]
            write_locked(
                self.entries,
                (&self.grant.key(), self.grant.generation(), self.grant.slot()),
                retire_generation::<K, O>,
                (retired, rest),
            );
        assert(write_locked(
            self.namespace(),
            (&self.key(), self.generation(), self.slot()),
            retire_generation::<K, O>,
            (retired, rest),
        ));
        retired
    }
}

/// A late retirement of an older generation cannot remove its replacement: it
/// reports that it retired nothing, and changes nothing.
pub proof fn law_a_stale_retirement_leaves_the_replacement<K, S>(
    states: Seq<EntriesView<K, S>>,
    key: K,
    first: (usize, S),
    second: (usize, S),
    unshared: (bool, bool),
    retired: (bool, bool),
)
    requires
        states.len() == 5,
        registers(states[0], states[1], key, Ok::<(usize, S), Refused>(first)),
        retires(states[1], states[2], key, first.0, first.1, unshared.0, retired.0),
        registers(states[2], states[3], key, Ok::<(usize, S), Refused>(second)),
        retires(states[3], states[4], key, first.0, first.1, unshared.1, retired.1),
    ensures
        retired.0,
        first.0 < second.0,
        !retired.1,
        states[4] == states[3],
        states[4].retains(key, second.0),
{
}

/// While a generation is retained its key cannot be registered again, and once
/// it has been retired it can, as long as generations are left.
pub proof fn law_a_key_is_free_exactly_while_nothing_is_retained<K, S>(
    before: EntriesView<K, S>,
    after: EntriesView<K, S>,
    key: K,
    result: Result<(usize, S), Refused>,
)
    requires
        registers(before, after, key, result),
    ensures
        result is Ok <==> !before.table.contains_key(key) && before.next_generation < usize::MAX,
        result is Ok ==> after.table.contains_key(key) && after.table[key].generation
            == result->Ok_0.0 && after.table[key].slot == result->Ok_0.1,
        result is Err ==> after == before,
{
}

/// Once the retained generation has been retired its key is vacant: it cannot be
/// observed, and it can be registered again, with a newer generation, as long as
/// generations are left.
pub proof fn law_a_retired_key_is_vacant_again<K, S>(
    before: EntriesView<K, S>,
    between: EntriesView<K, S>,
    after: EntriesView<K, S>,
    key: K,
    generation: usize,
    slot: S,
    unshared: bool,
    found: Result<S, UnknownSubject<K>>,
    result: Result<(usize, S), Refused>,
)
    requires
        before.inv(),
        before.retains(key, generation),
        retires(before, between, key, generation, slot, unshared, true),
        observes(between, key, found),
        registers(between, after, key, result),
    ensures
        found is Err && found->Err_0.0 == key,
        result is Ok <==> before.next_generation < usize::MAX,
        result is Ok ==> result->Ok_0.0 > generation,
{
}

/// Keys are independent: registering or retiring at one key changes nothing at
/// any other.
pub proof fn law_keys_are_independent<K, S>(
    before: EntriesView<K, S>,
    after: EntriesView<K, S>,
    key: K,
    result: Result<(usize, S), Refused>,
    generation: usize,
    slot: S,
    unshared: bool,
    retired: bool,
    other: K,
)
    requires
        registers(before, after, key, result) || retires(
            before,
            after,
            key,
            generation,
            slot,
            unshared,
            retired,
        ),
        other != key,
    ensures
        after.table.contains_key(other) == before.table.contains_key(other),
        after.table[other] == before.table[other],
{
}

/// Registering and retiring keep the bookkeeping invariant; in particular the
/// pool never holds more than [`SLOT_POOL_CAP`] slots.
pub proof fn law_bookkeeping_invariant_is_kept<K, S>(
    before: EntriesView<K, S>,
    after: EntriesView<K, S>,
    key: K,
    result: Result<(usize, S), Refused>,
    generation: usize,
    slot: S,
    unshared: bool,
    retired: bool,
)
    requires
        before.inv(),
        registers(before, after, key, result) || retires(
            before,
            after,
            key,
            generation,
            slot,
            unshared,
            retired,
        ),
    ensures
        after.inv(),
{
}

/// A slot that was recycled last is reused first.
pub proof fn law_recycled_slots_are_reused<K, S>(
    before: EntriesView<K, S>,
    between: EntriesView<K, S>,
    after: EntriesView<K, S>,
    key: K,
    generation: usize,
    slot: S,
    next: (usize, S),
)
    requires
        retires(before, between, key, generation, slot, true, true),
        before.pool.len() < SLOT_POOL_CAP,
        registers(between, after, key, Ok::<(usize, S), Refused>(next)),
    ensures
        next.1 == slot,
        after.pool == before.pool,
{
    assert(after.pool =~= before.pool);
}

} // verus!
