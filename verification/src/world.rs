//! What holds of a whole namespace, with all its handles, whatever its users do:
//! generations that share a key, or a recycled slot, stay apart.
//!
//! A [`World`] is a namespace as nobody sees it at once: the bookkeeping, the
//! contents of every slot, and every live handle. Slots and observations go by
//! numbers, and waiters by the tasks that they wake. Each [`Action`] is one
//! critical section of one operation, and does to the parts of the world what the
//! contract of that section says, with three things added that no contract can
//! say: a section finds in a lock what the section before it left there; a
//! pointer count of one means that no observation holds the slot; and wakers of
//! the same task are always told to be. No registration has as many claims as a
//! machine word can count.

use crate::entries::{EntriesView, SLOT_POOL_CAP};
use crate::observation::{
    cancels, claim_chosen, claims, direct_aim, first_held_told, publishes, registers_waiter,
};
use crate::slot::{is_reading, waiters_of, Claim, SlotView, Target};
use crate::space::{observes, registers, retires, Refused, UnknownSubject};
use crate::waiting::{
    counts_held, distinct_waiters, held_by, held_directly,
    law_a_cancelled_future_waits_no_more, law_a_polled_future_waits_as_the_polling_task,
    law_a_registered_waker_waits, law_completion_wakes_every_waiter,
    law_cancelling_keeps_the_cell_invariant, law_completion_wakes_no_cancelled_waiter,
    law_polling_keeps_the_cell_invariant, law_registering_keeps_the_cell_invariant,
    room_for_claims, tasks,
};
use vstd::prelude::*;

verus! {

/// A live subject.
pub struct SubjectView<K> {
    pub key: K,
    pub slot: int,
    pub completed: bool,
}

/// A live observation or future: the generation that it captured, that
/// generation's slot, and the task that it waits as, if it waits.
pub struct ObserverView<W> {
    pub generation: usize,
    pub slot: int,
    pub held: Option<W>,
}

/// A namespace with everything that its users hold of it.
#[verifier::ext_equal]
#[verifier::reject_recursive_types(K)]
#[verifier::reject_recursive_types(W)]
pub struct World<K, O, W> {
    /// The bookkeeping.
    pub entries: EntriesView<K, int>,
    /// The contents of every slot.
    pub cells: Map<int, SlotView<O, W>>,
    /// The live subjects, by generation.
    pub subjects: Map<usize, SubjectView<K>>,
    /// The live observations.
    pub observers: Map<int, ObserverView<W>>,
    /// The tasks that have been registered directly since the slot's generation
    /// began, by slot.
    pub directs: Map<int, Set<W>>,
    /// What each generation has published, live or retired.
    pub published: Map<usize, O>,
    /// No future has been dropped without having been cancelled.
    pub tidy: bool,
}

/// One operation, with what came of it.
#[verifier::reject_recursive_types(K)]
pub enum Action<K, O, W> {
    /// A subject is asked for at a key.
    Register { key: K, result: Result<(usize, int), Refused> },
    /// An observation is asked for at a key.
    Observe { key: K, observer: int, result: Result<int, UnknownSubject<K>> },
    /// An observation is cloned.
    CloneObservation { of: int, observer: int },
    /// An observation is dropped, or consumed.
    DropObservation { observer: int },
    /// A subject publishes its outcome.
    Complete { generation: usize, outcome: O, woken: Seq<W> },
    /// A subject is retired; `unshared` is what the pointer count said of its
    /// slot.
    Retire { generation: usize, unshared: bool, retired: bool },
    /// An observation registers a task directly, which leaves `cell`.
    RegisterWaker {
        observer: int,
        waker: W,
        target: Target<W>,
        completed: bool,
        cell: SlotView<O, W>,
    },
    /// A future is polled as a task and stays pending, which leaves `cell`.
    Poll { observer: int, waker: W, claim: Claim<W>, cell: SlotView<O, W> },
    /// A future is polled and resolves.
    Resolve { observer: int },
    /// A future that waits is cancelled, which leaves `cell`.
    Cancel { observer: int, left: Option<usize>, cell: SlotView<O, W> },
}

/// The observations that wait in `slot` as `waiter`.
pub open spec fn holding<W>(
    observers: Map<int, ObserverView<W>>,
    slot: int,
    waiter: W,
) -> Set<int> {
    observers.dom().filter(|o: int| waits_in(observers[o], slot, waiter))
}

/// The observation waits in `slot` as `waiter`.
pub open spec fn waits_in<W>(observer: ObserverView<W>, slot: int, waiter: W) -> bool {
    observer.slot == slot && observer.held == Some(waiter)
}

impl<K, O, W> World<K, O, W> {
    /// A new namespace.
    pub open spec fn initial() -> Self {
        World {
            entries: EntriesView::empty(),
            cells: Map::empty(),
            subjects: Map::empty(),
            observers: Map::empty(),
            directs: Map::empty(),
            published: Map::empty(),
            tidy: true,
        }
    }

    /// What `generation` has published.
    pub open spec fn published_at(self, generation: usize) -> Option<O> {
        if self.published.contains_key(generation) {
            Some(self.published[generation])
        } else {
            None
        }
    }

    /// Every live subject's generation is the one retained at its key, under
    /// its slot, and the slot holds what the generation has published.
    pub open spec fn subjects_retained(self) -> bool {
        forall|g: usize| #[trigger]
            self.subjects.contains_key(g) ==> {
                let subject = self.subjects[g];
                &&& self.entries.retains(subject.key, g)
                &&& self.entries.table[subject.key].slot == subject.slot
                &&& self.cells.contains_key(subject.slot)
                &&& self.cells[subject.slot].outcome == self.published_at(g)
                &&& subject.completed == self.published.contains_key(g)
            }
    }

    /// Every retained generation has a live subject.
    pub open spec fn entries_owned(self) -> bool {
        forall|k: K| #[trigger]
            self.entries.table.contains_key(k) ==> {
                &&& self.subjects.contains_key(self.entries.table[k].generation)
                &&& self.subjects[self.entries.table[k].generation].key == k
            }
    }

    /// No two live subjects share a slot.
    pub open spec fn subjects_apart(self) -> bool {
        forall|a: usize, b: usize|
            #![trigger self.subjects[a], self.subjects[b]]
            self.subjects.contains_key(a) && self.subjects.contains_key(b)
                && self.subjects[a].slot == self.subjects[b].slot ==> a == b
    }

    /// Every live observation's slot holds what the captured generation has
    /// published.
    pub open spec fn observers_served(self) -> bool {
        forall|o: int| #[trigger]
            self.observers.contains_key(o) ==> {
                let observer = self.observers[o];
                &&& observer.generation < self.entries.next_generation
                &&& self.cells.contains_key(observer.slot)
                &&& self.cells[observer.slot].outcome == self.published_at(observer.generation)
            }
    }

    /// Observations that share a slot captured the same generation.
    pub open spec fn observers_agree(self) -> bool {
        forall|a: int, b: int|
            #![trigger self.observers[a], self.observers[b]]
            self.observers.contains_key(a) && self.observers.contains_key(b)
                && self.observers[a].slot == self.observers[b].slot ==> self.observers[a].generation
                == self.observers[b].generation
    }

    /// An observation shares a slot with a live subject exactly when it
    /// captured that subject's generation.
    pub open spec fn observers_follow_subjects(self) -> bool {
        forall|o: int, g: usize|
            #![trigger self.observers[o], self.subjects[g]]
            self.observers.contains_key(o) && self.subjects.contains_key(g) ==> (
            self.observers[o].slot == self.subjects[g].slot <==> self.observers[o].generation
                == g)
    }

    /// Recycled slots are nobody's.
    pub open spec fn pool_free(self) -> bool {
        &&& self.entries.pool.no_duplicates()
        &&& forall|i: int|
            #![trigger self.entries.pool[i]]
            0 <= i < self.entries.pool.len() ==> {
                &&& self.cells.contains_key(self.entries.pool[i])
                &&& forall|g: usize| #[trigger]
                    self.subjects.contains_key(g) ==> self.subjects[g].slot
                        != self.entries.pool[i]
                &&& forall|o: int| #[trigger]
                    self.observers.contains_key(o) ==> self.observers[o].slot
                        != self.entries.pool[i]
            }
    }

    /// The registrations in a slot, while it is pending, are those of the
    /// observations that wait there and of the tasks registered directly: every
    /// waiting observation has a claim, no claim is anybody else's unless a future
    /// was dropped without having been cancelled, and no task is there twice.
    pub open spec fn honest_at(self, slot: int) -> bool {
        let cell = self.cells[slot];
        &&& cell.inv()
        &&& !cell.completed() ==> {
            &&& distinct_waiters(cell.waiters)
            &&& self.directs.contains_key(slot)
            &&& forall|w: W| #[trigger]
                held_by(cell.waiters, w) >= holding(self.observers, slot, w).len()
            &&& self.tidy ==> forall|w: W| #[trigger]
                held_by(cell.waiters, w) == holding(self.observers, slot, w).len()
            &&& forall|w: W| #[trigger]
                held_directly(cell.waiters, w) == self.directs[slot].contains(w)
        }
    }

    /// Somebody waits in `slot` as `waiter`.
    pub open spec fn awaited(self, slot: int, waiter: W) -> bool {
        ||| self.directs[slot].contains(waiter)
        ||| exists|o: int| #[trigger]
            self.observers.contains_key(o) && waits_in(self.observers[o], slot, waiter)
    }

    /// Every slot's registrations are honest.
    pub open spec fn cells_honest(self) -> bool {
        &&& self.observers.dom().finite()
        &&& forall|s: int| #[trigger] self.cells.contains_key(s) ==> self.honest_at(s)
    }

    /// What every world keeps.
    pub open spec fn inv(self) -> bool {
        &&& self.entries.inv()
        &&& self.subjects_retained()
        &&& self.entries_owned()
        &&& self.subjects_apart()
        &&& self.observers_served()
        &&& self.observers_agree()
        &&& self.observers_follow_subjects()
        &&& self.pool_free()
        &&& self.cells_honest()
        &&& forall|g: usize| #[trigger]
            self.published.contains_key(g) ==> g < self.entries.next_generation
    }

    /// One action takes this world to `after`.
    pub open spec fn steps(self, action: Action<K, O, W>, after: Self) -> bool {
        match action {
            Action::Register { key, result } => self.registers_step(key, result, after),
            Action::Observe { key, observer, result } => self.observes_step(
                key,
                observer,
                result,
                after,
            ),
            Action::CloneObservation { of, observer } => {
                &&& self.observers.contains_key(of)
                &&& !self.observers.contains_key(observer)
                &&& after == World {
                    observers: self.observers.insert(
                        observer,
                        ObserverView { held: None, ..self.observers[of] },
                    ),
                    ..self
                }
            },
            Action::DropObservation { observer } => {
                &&& self.observers.contains_key(observer)
                &&& after == World {
                    observers: self.observers.remove(observer),
                    tidy: self.tidy && self.observers[observer].held is None,
                    ..self
                }
            },
            Action::Complete { generation, outcome, woken } => self.completes_step(
                generation,
                outcome,
                woken,
                after,
            ),
            Action::Retire { generation, unshared, retired } => self.retires_step(
                generation,
                unshared,
                retired,
                after,
            ),
            Action::RegisterWaker { observer, waker, target, completed, cell } => {
                &&& self.observers.contains_key(observer)
                &&& self.registers_waker_step(observer, waker, target, completed, cell, after)
            },
            Action::Poll { observer, waker, claim, cell } => {
                &&& self.observers.contains_key(observer)
                &&& self.polls_step(observer, waker, claim, cell, after)
            },
            Action::Resolve { observer } => {
                &&& self.observers.contains_key(observer)
                &&& self.cells[self.observers[observer].slot].completed()
                &&& after == World { observers: self.waiting_as(observer, None), ..self }
            },
            Action::Cancel { observer, left, cell } => {
                &&& self.observers.contains_key(observer)
                &&& self.cancels_step(observer, left, cell, after)
            },
        }
    }

    /// The observations, with one of them waiting as `held`.
    pub open spec fn waiting_as(self, observer: int, held: Option<W>) -> Map<
        int,
        ObserverView<W>,
    > {
        self.observers.insert(observer, ObserverView { held, ..self.observers[observer] })
    }

    /// Direct registration.
    pub open spec fn registers_waker_step(
        self,
        observer: int,
        waker: W,
        target: Target<W>,
        completed: bool,
        cell: SlotView<O, W>,
        after: Self,
    ) -> bool {
        let slot = self.observers[observer].slot;
        &&& registers_waiter(self.cells[slot], cell, target, completed)
        &&& !completed ==> direct_aim(tasks(), self.cells[slot].waiters, waker, target)
        &&& after == World {
            cells: self.cells.insert(slot, cell),
            directs: if completed {
                self.directs
            } else {
                self.directs.insert(slot, self.directs[slot].insert(waker))
            },
            ..self
        }
    }

    /// A poll that stays pending.
    pub open spec fn polls_step(
        self,
        observer: int,
        waker: W,
        claim: Claim<W>,
        cell: SlotView<O, W>,
        after: Self,
    ) -> bool {
        let slot = self.observers[observer].slot;
        let held = self.observers[observer].held;
        &&& room_for_claims(self.cells[slot].waiters)
        &&& claims(self.cells[slot], cell, claim)
        &&& claim_chosen(tasks(), self.cells[slot].waiters, held, waker, claim)
        &&& after == World {
            cells: self.cells.insert(slot, cell),
            observers: self.waiting_as(observer, Some(waker)),
            ..self
        }
    }

    /// Cancelling a future that waits.
    pub open spec fn cancels_step(
        self,
        observer: int,
        left: Option<usize>,
        cell: SlotView<O, W>,
        after: Self,
    ) -> bool {
        let slot = self.observers[observer].slot;
        &&& self.observers[observer].held matches Some(held) && first_held_told(
            tasks(),
            self.cells[slot].waiters,
            held,
            left,
        )
        &&& cancels(self.cells[slot], cell, left)
        &&& after == World {
            cells: self.cells.insert(slot, cell),
            observers: self.waiting_as(observer, None),
            ..self
        }
    }

    /// Registration: a recycled slot starts over, and a slot that is not
    /// recycled is new.
    pub open spec fn registers_step(
        self,
        key: K,
        result: Result<(usize, int), Refused>,
        after: Self,
    ) -> bool {
        &&& registers(self.entries, after.entries, key, result)
        &&& match result {
            Ok((generation, slot)) => {
                &&& self.entries.pool.len() == 0 ==> !self.cells.contains_key(slot)
                &&& after == World {
                    entries: after.entries,
                    cells: self.cells.insert(slot, SlotView::pristine()),
                    subjects: self.subjects.insert(
                        generation,
                        SubjectView { key, slot, completed: false },
                    ),
                    directs: self.directs.insert(slot, Set::empty()),
                    ..self
                }
            },
            Err(_) => after == self,
        }
    }

    /// Observation captures the retained generation.
    pub open spec fn observes_step(
        self,
        key: K,
        observer: int,
        result: Result<int, UnknownSubject<K>>,
        after: Self,
    ) -> bool {
        &&& observes(self.entries, key, result)
        &&& match result {
            Ok(slot) => {
                &&& !self.observers.contains_key(observer)
                &&& after == World {
                    observers: self.observers.insert(
                        observer,
                        ObserverView {
                            generation: self.entries.table[key].generation,
                            slot,
                            held: None,
                        },
                    ),
                    ..self
                }
            },
            Err(_) => after == self,
        }
    }

    /// Completion, which a subject does once.
    pub open spec fn completes_step(
        self,
        generation: usize,
        outcome: O,
        woken: Seq<W>,
        after: Self,
    ) -> bool {
        let subject = self.subjects[generation];
        &&& self.subjects.contains_key(generation)
        &&& !subject.completed
        &&& publishes(self.cells[subject.slot], after.cells[subject.slot], outcome, woken)
        &&& after == World {
            cells: self.cells.insert(subject.slot, after.cells[subject.slot]),
            subjects: self.subjects.insert(generation, SubjectView { completed: true, ..subject }),
            published: self.published.insert(generation, outcome),
            ..self
        }
    }

    /// Retirement. A slot that the pointer count calls unshared is held by no
    /// observation.
    pub open spec fn retires_step(
        self,
        generation: usize,
        unshared: bool,
        retired: bool,
        after: Self,
    ) -> bool {
        let subject = self.subjects[generation];
        &&& self.subjects.contains_key(generation)
        &&& unshared ==> forall|o: int| #[trigger]
            self.observers.contains_key(o) ==> self.observers[o].slot != subject.slot
        &&& retires(
            self.entries,
            after.entries,
            subject.key,
            generation,
            subject.slot,
            unshared,
            retired,
        )
        &&& after == World {
            entries: after.entries,
            subjects: self.subjects.remove(generation),
            ..self
        }
    }
}

/// How many observations wait in a slot as a task, after one of them changed.
proof fn lemma_holding_changes<W>(
    observers: Map<int, ObserverView<W>>,
    observer: int,
    changed: ObserverView<W>,
    slot: int,
    waiter: W,
)
    requires
        observers.dom().finite(),
    ensures
        holding(observers.insert(observer, changed), slot, waiter).len() == holding(
            observers,
            slot,
            waiter,
        ).len() + (if waits_in(changed, slot, waiter) {
            1int
        } else {
            0
        }) - (if observers.contains_key(observer) && waits_in(observers[observer], slot, waiter) {
            1int
        } else {
            0
        }),
{
    let before = holding(observers, slot, waiter);
    let after = holding(observers.insert(observer, changed), slot, waiter);
    if waits_in(changed, slot, waiter) {
        assert(after =~= before.insert(observer));
    } else {
        assert(after =~= before.remove(observer));
    }
}

/// How many observations wait in a slot as a task, after one of them went.
proof fn lemma_holding_without<W>(
    observers: Map<int, ObserverView<W>>,
    observer: int,
    slot: int,
    waiter: W,
)
    requires
        observers.dom().finite(),
        observers.contains_key(observer),
    ensures
        holding(observers.remove(observer), slot, waiter).len() == holding(
            observers,
            slot,
            waiter,
        ).len() - (if waits_in(observers[observer], slot, waiter) {
            1int
        } else {
            0
        }),
{
    assert(holding(observers.remove(observer), slot, waiter) =~= holding(
        observers,
        slot,
        waiter,
    ).remove(observer));
}

/// Nobody waits in a slot that no observation holds.
proof fn lemma_nobody_holding<W>(observers: Map<int, ObserverView<W>>, slot: int, waiter: W)
    requires
        forall|o: int| #[trigger] observers.contains_key(o) ==> observers[o].slot != slot,
    ensures
        holding(observers, slot, waiter).len() == 0,
{
    assert(holding(observers, slot, waiter) =~= Set::empty());
}

/// An observation that waits in a pending slot has a claim there.
proof fn lemma_waiting_is_claimed<K, O, W>(world: World<K, O, W>, observer: int, waiter: W)
    requires
        world.inv(),
        world.observers.contains_key(observer),
        world.observers[observer].held == Some(waiter),
        !world.cells[world.observers[observer].slot].completed(),
    ensures
        held_by(world.cells[world.observers[observer].slot].waiters, waiter) > 0,
{
    let slot = world.observers[observer].slot;
    assert(world.honest_at(slot));
    let waiting = holding(world.observers, slot, waiter);
    assert(waiting.contains(observer));
    assert(waiting.len() > 0);
    assert(held_by(world.cells[slot].waiters, waiter) >= waiting.len());
}

proof fn lemma_register_keeps_inv<K, O, W>(
    before: World<K, O, W>,
    key: K,
    result: Result<(usize, int), Refused>,
    after: World<K, O, W>,
)
    requires
        before.inv(),
        before.registers_step(key, result, after),
    ensures
        after.inv(),
{
    if let Ok((generation, slot)) = result {
        let pool = before.entries.pool;
        if pool.len() > 0 {
            assert(slot == pool[pool.len() - 1]);
        }
        assert(!before.subjects.contains_key(generation));
        assert(!before.published.contains_key(generation));
        assert forall|i: int| 0 <= i < after.entries.pool.len() implies after.entries.pool[i]
            == pool[i] && pool[i] != slot by {}
        assert(after.entries.inv());
        assert(after.subjects_retained());
        assert(after.entries_owned());
        assert(after.subjects_apart());
        assert(after.observers_served());
        assert(after.observers_agree());
        assert(after.observers_follow_subjects());
        assert(after.pool_free());
        assert forall|s: int| #[trigger] after.cells.contains_key(s) implies after.honest_at(
            s,
        ) by {
            if s == slot {
                assert forall|w: W| holding(after.observers, slot, w).len() == 0 by {
                    lemma_nobody_holding(after.observers, slot, w);
                }
            } else {
                assert(before.honest_at(s));
            }
        }
    }
}

proof fn lemma_observer_added<K, O, W>(
    before: World<K, O, W>,
    observer: int,
    added: ObserverView<W>,
    after: World<K, O, W>,
)
    requires
        before.cells_honest(),
        !before.observers.contains_key(observer),
        added.held is None,
        after == (World { observers: before.observers.insert(observer, added), ..before }),
    ensures
        after.cells_honest(),
{
    assert forall|s: int| #[trigger] after.cells.contains_key(s) implies after.honest_at(s) by {
        assert(before.honest_at(s));
        assert forall|w: W|
            holding(after.observers, s, w).len() == holding(before.observers, s, w).len() by {
            lemma_holding_changes(before.observers, observer, added, s, w);
        }
    }
}

proof fn lemma_observe_keeps_inv<K, O, W>(
    before: World<K, O, W>,
    key: K,
    observer: int,
    result: Result<int, UnknownSubject<K>>,
    after: World<K, O, W>,
)
    requires
        before.inv(),
        before.observes_step(key, observer, result, after),
    ensures
        after.inv(),
{
    if let Ok(slot) = result {
        let generation = before.entries.table[key].generation;
        assert(before.subjects.contains_key(generation));
        assert(before.subjects[generation].slot == slot);
        assert(after.observers_served());
        assert(after.observers_agree());
        assert(after.observers_follow_subjects());
        assert(after.pool_free());
        lemma_observer_added(before, observer, after.observers[observer], after);
    }
}

proof fn lemma_clone_keeps_inv<K, O, W>(
    before: World<K, O, W>,
    of: int,
    observer: int,
    after: World<K, O, W>,
)
    requires
        before.inv(),
        before.steps(Action::CloneObservation { of, observer }, after),
    ensures
        after.inv(),
{
    assert(after.observers_served());
    assert(after.observers_agree());
    assert(after.observers_follow_subjects());
    assert(after.pool_free());
    lemma_observer_added(before, observer, after.observers[observer], after);
}

proof fn lemma_drop_keeps_inv<K, O, W>(
    before: World<K, O, W>,
    observer: int,
    after: World<K, O, W>,
)
    requires
        before.inv(),
        before.steps(Action::DropObservation { observer }, after),
    ensures
        after.inv(),
{
    assert forall|s: int| #[trigger] after.cells.contains_key(s) implies after.honest_at(s) by {
        assert(before.honest_at(s));
        assert forall|w: W|
            {
                &&& holding(after.observers, s, w).len() <= holding(before.observers, s, w).len()
                &&& after.tidy ==> holding(after.observers, s, w).len() == holding(
                    before.observers,
                    s,
                    w,
                ).len()
            } by {
            lemma_holding_without(before.observers, observer, s, w);
        }
        if !before.cells[s].completed() {
            assert forall|w: W| #[trigger]
                held_by(after.cells[s].waiters, w) >= holding(after.observers, s, w).len() by {
                assert(held_by(before.cells[s].waiters, w) >= holding(
                    before.observers,
                    s,
                    w,
                ).len());
            }
        }
    }
}

proof fn lemma_complete_keeps_inv<K, O, W>(
    before: World<K, O, W>,
    generation: usize,
    outcome: O,
    woken: Seq<W>,
    after: World<K, O, W>,
)
    requires
        before.inv(),
        before.completes_step(generation, outcome, woken, after),
    ensures
        after.inv(),
{
    let subject = before.subjects[generation];
    assert(!before.cells[subject.slot].completed());
    assert(after.cells[subject.slot].outcome == Some(outcome));
    assert(after.subjects_retained());
    assert(after.observers_served());
    assert(after.observers_follow_subjects());
    assert(after.pool_free());
    assert forall|s: int| #[trigger] after.cells.contains_key(s) implies after.honest_at(s) by {
        assert(before.honest_at(s));
    }
}

proof fn lemma_retire_keeps_inv<K, O, W>(
    before: World<K, O, W>,
    generation: usize,
    unshared: bool,
    retired: bool,
    after: World<K, O, W>,
)
    requires
        before.inv(),
        before.retires_step(generation, unshared, retired, after),
    ensures
        after.inv(),
        retired,
{
    let subject = before.subjects[generation];
    let pool = before.entries.pool;
    assert(after.entries.inv());
    assert(after.subjects_retained());
    assert(after.entries_owned());
    assert(after.observers_served());
    assert forall|i: int| 0 <= i < after.entries.pool.len() implies after.entries.pool[i]
        == if i < pool.len() {
        pool[i]
    } else {
        subject.slot
    } by {}
    assert(after.pool_free());
    assert forall|s: int| #[trigger] after.cells.contains_key(s) implies after.honest_at(s) by {
        assert(before.honest_at(s));
    }
}

/// Changing the contents of one slot without its outcome, and what one
/// observation in it waits as, keeps everything but what is to be shown of that
/// slot.
proof fn lemma_use_keeps_the_rest<K, O, W>(
    before: World<K, O, W>,
    observer: int,
    held: Option<W>,
    cell: SlotView<O, W>,
    after: World<K, O, W>,
)
    requires
        before.inv(),
        before.observers.contains_key(observer),
        cell.outcome == before.cells[before.observers[observer].slot].outcome,
        after.entries == before.entries,
        after.subjects == before.subjects,
        after.published == before.published,
        after.tidy == before.tidy,
        after.cells == before.cells.insert(before.observers[observer].slot, cell),
        after.observers == before.waiting_as(observer, held),
        forall|s: int|
            s != before.observers[observer].slot && #[trigger] before.directs.contains_key(s)
                ==> after.directs.contains_key(s) && after.directs[s] == before.directs[s],
        after.honest_at(before.observers[observer].slot),
    ensures
        after.inv(),
{
    let slot = before.observers[observer].slot;
    assert(after.subjects_retained());
    assert(after.observers_served());
    assert(after.observers_agree());
    assert(after.observers_follow_subjects());
    assert(after.pool_free());
    assert forall|s: int| #[trigger] after.cells.contains_key(s) implies after.honest_at(s) by {
        if s != slot {
            assert(before.honest_at(s));
            assert forall|w: W|
                holding(after.observers, s, w).len() == holding(before.observers, s, w).len() by {
                lemma_holding_changes(
                    before.observers,
                    observer,
                    after.observers[observer],
                    s,
                    w,
                );
            }
        }
    }
}

proof fn lemma_register_waker_keeps_inv<K, O, W>(
    before: World<K, O, W>,
    observer: int,
    waker: W,
    target: Target<W>,
    completed: bool,
    cell: SlotView<O, W>,
    after: World<K, O, W>,
)
    requires
        before.inv(),
        before.observers.contains_key(observer),
        before.registers_waker_step(observer, waker, target, completed, cell, after),
    ensures
        after.inv(),
{
    let slot = before.observers[observer].slot;
    let held = before.observers[observer].held;
    assert(before.honest_at(slot));
    assert(after.observers =~= before.waiting_as(observer, held));
    assert(cell.inv()) by {
        if !completed {
            law_registering_keeps_the_cell_invariant(before.cells[slot], cell, target);
        }
    }
    if !completed {
        assert forall|w: W|
            {
                &&& #[trigger] held_by(cell.waiters, w) == held_by(before.cells[slot].waiters, w)
                &&& held_directly(cell.waiters, w) == (held_directly(
                    before.cells[slot].waiters,
                    w,
                ) || w == waker)
                &&& distinct_waiters(cell.waiters)
            } by {
            law_a_registered_waker_waits(before.cells[slot], cell, waker, target, w);
        }
        assert(distinct_waiters(cell.waiters)) by {
            law_a_registered_waker_waits(before.cells[slot], cell, waker, target, waker);
        }
        assert forall|w: W| #[trigger]
            held_by(cell.waiters, w) >= holding(after.observers, slot, w).len() by {
            assert(held_by(before.cells[slot].waiters, w) >= holding(
                before.observers,
                slot,
                w,
            ).len());
        }
        assert forall|w: W| #[trigger]
            held_directly(cell.waiters, w) == after.directs[slot].contains(w) by {
            assert(held_by(cell.waiters, w) == held_by(before.cells[slot].waiters, w));
            assert(held_directly(before.cells[slot].waiters, w) == before.directs[slot].contains(
                w,
            ));
        }
    }
    assert(after.honest_at(slot));
    lemma_use_keeps_the_rest(before, observer, held, cell, after);
}

/// What a cell loses of the claims on a task by one observation's waiting
/// otherwise, that task loses of those who wait as it.
proof fn lemma_claims_follow<K, O, W>(
    before: World<K, O, W>,
    observer: int,
    held: Option<W>,
    cell: SlotView<O, W>,
    after: World<K, O, W>,
)
    requires
        before.inv(),
        before.observers.contains_key(observer),
        !before.cells[before.observers[observer].slot].completed(),
        !cell.completed(),
        cell.inv(),
        distinct_waiters(cell.waiters),
        forall|w: W| #[trigger]
            held_by(cell.waiters, w) == held_by(
                before.cells[before.observers[observer].slot].waiters,
                w,
            ) + counts_held(held, w) - counts_held(before.observers[observer].held, w),
        forall|w: W| #[trigger]
            held_directly(cell.waiters, w) == held_directly(
                before.cells[before.observers[observer].slot].waiters,
                w,
            ),
        after == (World {
            cells: before.cells.insert(before.observers[observer].slot, cell),
            observers: before.waiting_as(observer, held),
            ..before
        }),
    ensures
        after.inv(),
{
    let slot = before.observers[observer].slot;
    assert(before.honest_at(slot));
    assert forall|w: W|
        {
            &&& #[trigger] held_by(cell.waiters, w) >= holding(after.observers, slot, w).len()
            &&& after.tidy ==> held_by(cell.waiters, w) == holding(
                after.observers,
                slot,
                w,
            ).len()
        } by {
        lemma_holding_changes(before.observers, observer, after.observers[observer], slot, w);
        assert(held_by(before.cells[slot].waiters, w) >= holding(before.observers, slot, w).len());
    }
    assert forall|w: W| #[trigger]
        held_directly(cell.waiters, w) == after.directs[slot].contains(w) by {
        assert(held_directly(before.cells[slot].waiters, w) == before.directs[slot].contains(w));
    }
    assert(after.honest_at(slot));
    lemma_use_keeps_the_rest(before, observer, held, cell, after);
}

proof fn lemma_poll_keeps_inv<K, O, W>(
    before: World<K, O, W>,
    observer: int,
    waker: W,
    claim: Claim<W>,
    cell: SlotView<O, W>,
    after: World<K, O, W>,
)
    requires
        before.inv(),
        before.observers.contains_key(observer),
        before.polls_step(observer, waker, claim, cell, after),
    ensures
        after.inv(),
{
    let slot = before.observers[observer].slot;
    let held = before.observers[observer].held;
    assert(before.honest_at(slot));
    if let Some(waiter) = held {
        lemma_waiting_is_claimed(before, observer, waiter);
    }
    law_polling_keeps_the_cell_invariant(before.cells[slot], cell, claim);
    assert forall|w: W|
        {
            &&& #[trigger] held_by(cell.waiters, w) == held_by(before.cells[slot].waiters, w)
                + counts_held(Some(waker), w) - counts_held(held, w)
            &&& held_directly(cell.waiters, w) == held_directly(before.cells[slot].waiters, w)
        } by {
        law_a_polled_future_waits_as_the_polling_task(
            before.cells[slot],
            cell,
            held,
            waker,
            claim,
            w,
        );
    }
    law_a_polled_future_waits_as_the_polling_task(
        before.cells[slot],
        cell,
        held,
        waker,
        claim,
        waker,
    );
    assert forall|w: W| #[trigger]
        held_directly(cell.waiters, w) == held_directly(before.cells[slot].waiters, w) by {
        assert(held_by(cell.waiters, w) == held_by(before.cells[slot].waiters, w) + counts_held(
            Some(waker),
            w,
        ) - counts_held(held, w));
    }
    lemma_claims_follow(before, observer, Some(waker), cell, after);
}

proof fn lemma_cancel_keeps_inv<K, O, W>(
    before: World<K, O, W>,
    observer: int,
    left: Option<usize>,
    cell: SlotView<O, W>,
    after: World<K, O, W>,
)
    requires
        before.inv(),
        before.observers.contains_key(observer),
        before.cancels_step(observer, left, cell, after),
    ensures
        after.inv(),
{
    let slot = before.observers[observer].slot;
    let held = before.observers[observer].held->Some_0;
    assert(before.honest_at(slot));
    law_cancelling_keeps_the_cell_invariant(before.cells[slot], cell, left);
    if before.cells[slot].completed() {
        assert(after.honest_at(slot));
        lemma_use_keeps_the_rest(before, observer, None, cell, after);
    } else {
        lemma_waiting_is_claimed(before, observer, held);
        assert forall|w: W|
            {
                &&& #[trigger] held_by(cell.waiters, w) == held_by(before.cells[slot].waiters, w)
                    + counts_held(None::<W>, w) - counts_held(Some(held), w)
                &&& held_directly(cell.waiters, w) == held_directly(
                    before.cells[slot].waiters,
                    w,
                )
            } by {
            law_a_cancelled_future_waits_no_more(before.cells[slot], cell, held, left, w);
        }
        law_a_cancelled_future_waits_no_more(before.cells[slot], cell, held, left, held);
        assert forall|w: W| #[trigger]
            held_directly(cell.waiters, w) == held_directly(before.cells[slot].waiters, w) by {
            assert(held_by(cell.waiters, w) == held_by(before.cells[slot].waiters, w)
                + counts_held(None::<W>, w) - counts_held(Some(held), w));
        }
        lemma_claims_follow(before, observer, None, cell, after);
    }
}

/// Whatever is done, the world's invariant is kept.
pub proof fn law_every_action_keeps_the_world<K, O, W>(
    before: World<K, O, W>,
    action: Action<K, O, W>,
    after: World<K, O, W>,
)
    requires
        before.inv(),
        before.steps(action, after),
    ensures
        after.inv(),
{
    match action {
        Action::Register { key, result } => lemma_register_keeps_inv(before, key, result, after),
        Action::Observe { key, observer, result } => lemma_observe_keeps_inv(
            before,
            key,
            observer,
            result,
            after,
        ),
        Action::CloneObservation { of, observer } => lemma_clone_keeps_inv(
            before,
            of,
            observer,
            after,
        ),
        Action::DropObservation { observer } => lemma_drop_keeps_inv(before, observer, after),
        Action::Complete { generation, outcome, woken } => lemma_complete_keeps_inv(
            before,
            generation,
            outcome,
            woken,
            after,
        ),
        Action::Retire { generation, unshared, retired } => lemma_retire_keeps_inv(
            before,
            generation,
            unshared,
            retired,
            after,
        ),
        Action::RegisterWaker { observer, waker, target, completed, cell } =>
            lemma_register_waker_keeps_inv(
            before,
            observer,
            waker,
            target,
            completed,
            cell,
            after,
        ),
        Action::Poll { observer, waker, claim, cell } => lemma_poll_keeps_inv(
            before,
            observer,
            waker,
            claim,
            cell,
            after,
        ),
        Action::Resolve { observer } => {
            let slot = before.observers[observer].slot;
            assert(before.honest_at(slot));
            assert(after.cells =~= before.cells.insert(slot, before.cells[slot]));
            assert(after.honest_at(slot));
            lemma_use_keeps_the_rest(before, observer, None, before.cells[slot], after);
        },
        Action::Cancel { observer, left, cell } => lemma_cancel_keeps_inv(
            before,
            observer,
            left,
            cell,
            after,
        ),
    }
}

/// A run: worlds from a new namespace on, each one action after the one before.
pub open spec fn is_run<K, O, W>(
    worlds: Seq<World<K, O, W>>,
    actions: Seq<Action<K, O, W>>,
) -> bool {
    &&& worlds.len() == actions.len() + 1
    &&& worlds[0] == World::<K, O, W>::initial()
    &&& forall|i: int|
        #![trigger actions[i]]
        0 <= i < actions.len() ==> worlds[i].steps(actions[i], worlds[i + 1])
}

/// In every run the invariant holds all the time.
pub proof fn law_every_run_keeps_the_world<K, O, W>(
    worlds: Seq<World<K, O, W>>,
    actions: Seq<Action<K, O, W>>,
    at: int,
)
    requires
        is_run(worlds, actions),
        0 <= at < worlds.len(),
    ensures
        worlds[at].inv(),
    decreases at,
{
    if at > 0 {
        law_every_run_keeps_the_world(worlds, actions, at - 1);
        law_every_action_keeps_the_world(worlds[at - 1], actions[at - 1], worlds[at]);
    }
}

/// Generations stay apart: in every run an observation reads what the generation
/// that it captured has published, and nothing else, whether it was made before
/// or after completion, and whatever became of the key and of the subject since.
pub proof fn law_an_observation_reads_its_own_generation<K, O: Clone, W>(
    worlds: Seq<World<K, O, W>>,
    actions: Seq<Action<K, O, W>>,
    at: int,
    observer: int,
    read: Option<O>,
)
    requires
        is_run(worlds, actions),
        0 <= at < worlds.len(),
        worlds[at].observers.contains_key(observer),
        is_reading(worlds[at].cells[worlds[at].observers[observer].slot].outcome, read),
    ensures
        is_reading(worlds[at].published_at(worlds[at].observers[observer].generation), read),
{
    law_every_run_keeps_the_world(worlds, actions, at);
}

/// In every run the slot of an observation holds what the generation that it
/// captured has published, whether outcomes can be cloned or not: what moves out
/// of it is that generation's outcome, or nothing.
pub proof fn law_an_observed_slot_holds_its_own_generation<K, O, W>(
    worlds: Seq<World<K, O, W>>,
    actions: Seq<Action<K, O, W>>,
    at: int,
    observer: int,
)
    requires
        is_run(worlds, actions),
        0 <= at < worlds.len(),
        worlds[at].observers.contains_key(observer),
    ensures
        worlds[at].cells[worlds[at].observers[observer].slot].outcome == worlds[at].published_at(
            worlds[at].observers[observer].generation,
        ),
{
    law_every_run_keeps_the_world(worlds, actions, at);
}

/// A retired generation publishes no more: one that completed keeps its outcome,
/// and one that did not stays pending for good.
pub proof fn law_a_retired_generation_publishes_no_more<K, O, W>(
    worlds: Seq<World<K, O, W>>,
    actions: Seq<Action<K, O, W>>,
    from: int,
    to: int,
    generation: usize,
)
    requires
        is_run(worlds, actions),
        0 <= from <= to < worlds.len(),
        !worlds[from].subjects.contains_key(generation),
        generation < worlds[from].entries.next_generation,
    ensures
        !worlds[to].subjects.contains_key(generation),
        generation < worlds[to].entries.next_generation,
        worlds[to].published_at(generation) == worlds[from].published_at(generation),
    decreases to - from,
{
    if from < to {
        law_a_retired_generation_publishes_no_more(worlds, actions, from, to - 1, generation);
        law_every_run_keeps_the_world(worlds, actions, to - 1);
        assert(worlds[to - 1].steps(actions[to - 1], worlds[to]));
    }
}

/// Retiring a subject changes nothing for an observation of it: what the
/// observation found before, an outcome or none, it finds for as long as it lives,
/// whatever is registered at the key and completed afterwards.
pub proof fn law_retiring_changes_no_reading<K, O, W>(
    worlds: Seq<World<K, O, W>>,
    actions: Seq<Action<K, O, W>>,
    at: int,
    generation: usize,
    unshared: bool,
    retired: bool,
    later: int,
    observer: int,
)
    requires
        is_run(worlds, actions),
        0 <= at < actions.len(),
        actions[at] == (Action::<K, O, W>::Retire { generation, unshared, retired }),
        at < later < worlds.len(),
        worlds[later].observers.contains_key(observer),
        worlds[later].observers[observer].generation == generation,
    ensures
        worlds[later].cells[worlds[later].observers[observer].slot].outcome
            == worlds[at].published_at(generation),
{
    law_every_run_keeps_the_world(worlds, actions, at);
    assert(worlds[at].steps(actions[at], worlds[at + 1]));
    assert(worlds[at].subjects_retained());
    law_every_run_keeps_the_world(worlds, actions, at + 1);
    law_a_retired_generation_publishes_no_more(worlds, actions, at + 1, later, generation);
    law_an_observed_slot_holds_its_own_generation(worlds, actions, later, observer);
}

/// What has been published stays published.
pub proof fn law_published_outcomes_are_permanent<K, O, W>(
    worlds: Seq<World<K, O, W>>,
    actions: Seq<Action<K, O, W>>,
    from: int,
    to: int,
    generation: usize,
)
    requires
        is_run(worlds, actions),
        0 <= from <= to < worlds.len(),
        worlds[from].published.contains_key(generation),
    ensures
        worlds[to].published_at(generation) == worlds[from].published_at(generation),
    decreases to - from,
{
    if from < to {
        law_published_outcomes_are_permanent(worlds, actions, from, to - 1, generation);
        law_every_run_keeps_the_world(worlds, actions, to - 1);
        assert(worlds[to - 1].steps(actions[to - 1], worlds[to]));
    }
}

/// The outcome cannot be lost: once a generation has completed, every later read
/// of every observation of it, early or late, finds that outcome.
pub proof fn law_completion_cannot_be_missed<K, O, W>(
    worlds: Seq<World<K, O, W>>,
    actions: Seq<Action<K, O, W>>,
    at: int,
    generation: usize,
    outcome: O,
    woken: Seq<W>,
    later: int,
    observer: int,
)
    requires
        is_run(worlds, actions),
        0 <= at < actions.len(),
        actions[at] == (Action::<K, O, W>::Complete { generation, outcome, woken }),
        at < later < worlds.len(),
        worlds[later].observers.contains_key(observer),
        worlds[later].observers[observer].generation == generation,
    ensures
        worlds[later].cells[worlds[later].observers[observer].slot].outcome == Some(outcome),
{
    assert(worlds[at].steps(actions[at], worlds[at + 1]));
    law_published_outcomes_are_permanent(worlds, actions, at + 1, later, generation);
    law_every_run_keeps_the_world(worlds, actions, later);
}

/// An observation keeps the generation and the slot that it captured for as long
/// as it lives.
pub proof fn law_an_observation_keeps_its_generation<K, O, W>(
    before: World<K, O, W>,
    action: Action<K, O, W>,
    after: World<K, O, W>,
    observer: int,
)
    requires
        before.steps(action, after),
        before.observers.contains_key(observer),
        action != (Action::<K, O, W>::DropObservation { observer }),
    ensures
        after.observers.contains_key(observer),
        after.observers[observer].generation == before.observers[observer].generation,
        after.observers[observer].slot == before.observers[observer].slot,
{
}

/// A subject stays retained at its key until it is retired itself: no other
/// action touches it, and the key can be observed and not be taken.
pub proof fn law_a_subject_is_retained_until_it_retires<K, O, W>(
    before: World<K, O, W>,
    action: Action<K, O, W>,
    after: World<K, O, W>,
    generation: usize,
)
    requires
        before.inv(),
        before.steps(action, after),
        before.subjects.contains_key(generation),
        !(action matches Action::Retire { generation: g, .. } && g == generation),
    ensures
        after.subjects.contains_key(generation),
        after.subjects[generation].key == before.subjects[generation].key,
        after.subjects[generation].slot == before.subjects[generation].slot,
        after.entries.retains(before.subjects[generation].key, generation),
        match action {
            Action::Register { key, result } => key == before.subjects[generation].key
                ==> result == Err::<(usize, int), Refused>(Refused::Exists),
            Action::Observe { key, observer, result } => key == before.subjects[generation].key
                ==> result is Ok && result->Ok_0 == before.subjects[generation].slot,
            _ => true,
        },
{
    law_every_action_keeps_the_world(before, action, after);
    assert(before.entries.retains(before.subjects[generation].key, generation));
}

/// Two live subjects have two keys: registration at a key has one winner.
pub proof fn law_one_live_subject_per_key<K, O, W>(world: World<K, O, W>, a: usize, b: usize)
    requires
        world.inv(),
        world.subjects.contains_key(a),
        world.subjects.contains_key(b),
        world.subjects[a].key == world.subjects[b].key,
    ensures
        a == b,
{
}

/// Retiring a live subject always finds its own generation, and leaves every
/// other key's generation, and every observation, as it was.
pub proof fn law_retiring_touches_only_its_own_generation<K, O, W>(
    before: World<K, O, W>,
    after: World<K, O, W>,
    generation: usize,
    unshared: bool,
    retired: bool,
    key: K,
)
    requires
        before.inv(),
        before.steps(Action::Retire { generation, unshared, retired }, after),
    ensures
        retired,
        !after.entries.table.contains_key(before.subjects[generation].key),
        key != before.subjects[generation].key ==> {
            &&& after.entries.table.contains_key(key) == before.entries.table.contains_key(key)
            &&& after.entries.table[key] == before.entries.table[key]
        },
        after.observers == before.observers,
        after.cells == before.cells,
        after.published == before.published,
{
    lemma_retire_keeps_inv(before, generation, unshared, retired, after);
}

/// A subject that has not completed finds its slot pending: its completion takes
/// effect, and everyone who waits there is to be woken.
pub proof fn law_completion_takes_effect<K, O, W>(
    before: World<K, O, W>,
    after: World<K, O, W>,
    generation: usize,
    outcome: O,
    woken: Seq<W>,
)
    requires
        before.inv(),
        before.steps(Action::Complete { generation, outcome, woken }, after),
    ensures
        !before.cells[before.subjects[generation].slot].completed(),
        after.cells[before.subjects[generation].slot].outcome == Some(outcome),
        woken == waiters_of(before.cells[before.subjects[generation].slot].waiters),
{
}

/// A new generation is one that never was, and starts on a pristine slot, also
/// where the slot is recycled: it has nothing of the generation before it.
pub proof fn law_a_new_generation_starts_over<K, O, W>(
    before: World<K, O, W>,
    after: World<K, O, W>,
    key: K,
    generation: usize,
    slot: int,
)
    requires
        before.inv(),
        before.steps(Action::Register { key, result: Ok((generation, slot)) }, after),
    ensures
        !before.subjects.contains_key(generation),
        !before.published.contains_key(generation),
        forall|o: int| #[trigger]
            before.observers.contains_key(o) ==> before.observers[o].generation != generation
                && before.observers[o].slot != slot,
        after.cells[slot].is_pristine(),
        after.entries.next_generation == generation + 1,
{
    let pool = before.entries.pool;
    if pool.len() > 0 {
        assert(slot == pool[pool.len() - 1]);
    }
}

/// What is retained is owned: an entry for every live subject and no other, and
/// at most as many recycled slots as the pool has room for.
pub proof fn law_retention_is_bounded_by_ownership<K, O, W>(
    worlds: Seq<World<K, O, W>>,
    actions: Seq<Action<K, O, W>>,
    at: int,
    key: K,
)
    requires
        is_run(worlds, actions),
        0 <= at < worlds.len(),
    ensures
        worlds[at].entries.pool.len() <= SLOT_POOL_CAP,
        worlds[at].entries.table.contains_key(key) <==> exists|g: usize|
            #![trigger worlds[at].subjects[g]]
            worlds[at].subjects.contains_key(g) && worlds[at].subjects[g].key == key,
{
    law_every_run_keeps_the_world(worlds, actions, at);
    let world = worlds[at];
    if world.entries.table.contains_key(key) {
        let g = world.entries.table[key].generation;
        assert(world.subjects.contains_key(g) && world.subjects[g].key == key);
    }
}

/// Completion wakes exactly who waits: in every run, every observation that waits
/// in the slot and every task registered there directly is to be woken, no task
/// twice, and, if no future was dropped without having been cancelled, nobody
/// else.
pub proof fn law_completion_wakes_exactly_who_waits<K, O, W>(
    worlds: Seq<World<K, O, W>>,
    actions: Seq<Action<K, O, W>>,
    at: int,
    generation: usize,
    outcome: O,
    woken: Seq<W>,
    waiter: W,
)
    requires
        is_run(worlds, actions),
        0 <= at < actions.len(),
        actions[at] == (Action::<K, O, W>::Complete { generation, outcome, woken }),
    ensures
        worlds[at].awaited(worlds[at].subjects[generation].slot, waiter) ==> woken.contains(waiter),
        worlds[at].tidy && woken.contains(waiter) ==> worlds[at].awaited(
            worlds[at].subjects[generation].slot,
            waiter,
        ),
        woken.no_duplicates(),
{
    law_every_run_keeps_the_world(worlds, actions, at);
    let world = worlds[at];
    let slot = world.subjects[generation].slot;
    let cell = world.cells[slot];
    let after = worlds[at + 1].cells[slot];
    assert(world.steps(actions[at], worlds[at + 1]));
    assert(world.honest_at(slot));
    let waiting = holding(world.observers, slot, waiter);
    assert(held_by(cell.waiters, waiter) >= waiting.len());
    assert(held_directly(cell.waiters, waiter) == world.directs[slot].contains(waiter));
    if world.awaited(slot, waiter) {
        if !world.directs[slot].contains(waiter) {
            let o = choose|o: int| #[trigger]
                world.observers.contains_key(o) && waits_in(world.observers[o], slot, waiter);
            assert(waiting.contains(o));
            assert(waiting.len() > 0);
        }
        law_completion_wakes_every_waiter(cell, after, outcome, woken, waiter);
    } else {
        assert(waiting =~= Set::empty());
        if world.tidy {
            assert(held_by(cell.waiters, waiter) == waiting.len());
            law_completion_wakes_no_cancelled_waiter(cell, after, outcome, woken, waiter);
        }
    }
    assert(woken == waiters_of(cell.waiters));
}

/// Cancelling an observer disarms no other: whoever else waits in a pending slot
/// still has a claim there, and every task registered directly stays registered.
pub proof fn law_cancelling_disarms_no_other<K, O, W>(
    before: World<K, O, W>,
    after: World<K, O, W>,
    observer: int,
    left: Option<usize>,
    cell: SlotView<O, W>,
    other: int,
    waiter: W,
)
    requires
        before.inv(),
        before.steps(Action::Cancel { observer, left, cell }, after),
        other != observer,
        before.observers.contains_key(other),
    ensures
        after.observers[other] == before.observers[other],
        after.observers[observer].held is None,
        !cell.completed() && waits_in(
            before.observers[other],
            before.observers[observer].slot,
            waiter,
        ) ==> held_by(cell.waiters, waiter) > 0,
        !cell.completed() ==> held_directly(cell.waiters, waiter) == held_directly(
            before.cells[before.observers[observer].slot].waiters,
            waiter,
        ),
{
    lemma_cancel_keeps_inv(before, observer, left, cell, after);
    let slot = before.observers[observer].slot;
    if !cell.completed() {
        assert(after.cells.contains_key(slot) && after.cells[slot] == cell);
        assert(before.cells.contains_key(slot));
        assert(before.honest_at(slot) && after.honest_at(slot));
        assert(held_directly(cell.waiters, waiter) == after.directs[slot].contains(waiter));
        assert(held_directly(before.cells[slot].waiters, waiter)
            == before.directs[slot].contains(waiter));
        if waits_in(before.observers[other], slot, waiter) {
            lemma_waiting_is_claimed(after, other, waiter);
        }
    }
}

/// The action, taken in `world`, makes `waiter` wait in `slot`.
pub open spec fn arms<K, O, W>(
    world: World<K, O, W>,
    action: Action<K, O, W>,
    slot: int,
    waiter: W,
) -> bool {
    match action {
        Action::RegisterWaker { observer, waker, .. } => world.observers[observer].slot == slot
            && waker == waiter,
        Action::Poll { observer, waker, .. } => world.observers[observer].slot == slot && waker
            == waiter,
        _ => false,
    }
}

/// Nobody comes to wait in a slot as a task but by polling or registering as it
/// there.
pub proof fn law_only_polling_or_registering_waits<K, O, W>(
    worlds: Seq<World<K, O, W>>,
    actions: Seq<Action<K, O, W>>,
    from: int,
    to: int,
    slot: int,
    waiter: W,
)
    requires
        is_run(worlds, actions),
        0 <= from <= to < worlds.len(),
        !worlds[from].awaited(slot, waiter),
        forall|i: int|
            #![trigger actions[i]]
            from <= i < to ==> !arms(worlds[i], actions[i], slot, waiter),
    ensures
        !worlds[to].awaited(slot, waiter),
    decreases to - from,
{
    if from < to {
        law_only_polling_or_registering_waits(worlds, actions, from, to - 1, slot, waiter);
        let before = worlds[to - 1];
        let after = worlds[to];
        assert(before.steps(actions[to - 1], after));
        assert(!arms(before, actions[to - 1], slot, waiter));
        assert forall|o: int| #[trigger] after.observers.contains_key(o) implies !waits_in(
            after.observers[o],
            slot,
            waiter,
        ) by {
            if before.observers.contains_key(o) {
                assert(!waits_in(before.observers[o], slot, waiter));
            }
        }
    }
}

/// A cancelled future leaves nothing behind: a task that it was polled as, at any
/// time, and that nobody else waits as in its slot, is woken neither by the
/// completion of its generation nor by that of one that reuses the slot, unless it
/// comes to wait there again, or some future was dropped without having been
/// cancelled.
pub proof fn law_a_cancelled_future_is_woken_no_more<K, O, W>(
    worlds: Seq<World<K, O, W>>,
    actions: Seq<Action<K, O, W>>,
    at: int,
    observer: int,
    left: Option<usize>,
    cell: SlotView<O, W>,
    waiter: W,
    later: int,
    generation: usize,
    outcome: O,
    woken: Seq<W>,
)
    requires
        is_run(worlds, actions),
        0 <= at < later < actions.len(),
        actions[at] == (Action::<K, O, W>::Cancel { observer, left, cell }),
        actions[later] == (Action::<K, O, W>::Complete { generation, outcome, woken }),
        worlds[later].tidy,
        worlds[later].subjects[generation].slot == worlds[at].observers[observer].slot,
        !worlds[at].directs[worlds[at].observers[observer].slot].contains(waiter),
        forall|o: int| #[trigger]
            worlds[at].observers.contains_key(o) && o != observer ==> !waits_in(
                worlds[at].observers[o],
                worlds[at].observers[observer].slot,
                waiter,
            ),
        forall|i: int|
            #![trigger actions[i]]
            at < i < later ==> !arms(
                worlds[i],
                actions[i],
                worlds[at].observers[observer].slot,
                waiter,
            ),
    ensures
        !woken.contains(waiter),
{
    let slot = worlds[at].observers[observer].slot;
    assert(worlds[at].steps(actions[at], worlds[at + 1]));
    assert forall|o: int| #[trigger] worlds[at + 1].observers.contains_key(o) implies !waits_in(
        worlds[at + 1].observers[o],
        slot,
        waiter,
    ) by {
        assert(worlds[at].observers.contains_key(o));
    }
    law_only_polling_or_registering_waits(worlds, actions, at + 1, later, slot, waiter);
    law_completion_wakes_exactly_who_waits(
        worlds,
        actions,
        later,
        generation,
        outcome,
        woken,
        waiter,
    );
}

/// A migrated future waits as one task only: the one of its latest poll.
pub proof fn law_a_future_waits_as_its_latest_task<K, O, W>(
    before: World<K, O, W>,
    after: World<K, O, W>,
    observer: int,
    waker: W,
    claim: Claim<W>,
    cell: SlotView<O, W>,
)
    requires
        before.inv(),
        before.steps(Action::Poll { observer, waker, claim, cell }, after),
    ensures
        after.observers[observer].held == Some(waker),
        held_by(cell.waiters, waker) > 0,
        forall|w: W| w != waker ==> #[trigger] held_by(cell.waiters, w) == held_by(
            before.cells[before.observers[observer].slot].waiters,
            w,
        ) - counts_held(before.observers[observer].held, w),
{
    lemma_poll_keeps_inv(before, observer, waker, claim, cell, after);
    let slot = before.observers[observer].slot;
    let held = before.observers[observer].held;
    lemma_waiting_is_claimed(after, observer, waker);
    assert(before.honest_at(slot));
    if let Some(waiter) = held {
        lemma_waiting_is_claimed(before, observer, waiter);
    }
    assert forall|w: W| w != waker implies #[trigger] held_by(cell.waiters, w) == held_by(
        before.cells[slot].waiters,
        w,
    ) - counts_held(held, w) by {
        law_a_polled_future_waits_as_the_polling_task(
            before.cells[slot],
            cell,
            held,
            waker,
            claim,
            w,
        );
    }
}

} // verus!
