//! The critical sections of a namespace, one function for each.
//!
//! A function here takes a turn and may open no other, so it runs at most one
//! section, and its postcondition says which one that is.

use super::cells::publish_on;
use super::{locked, read_locked, run_read_locked, run_write_locked, write_locked, ReadWrite};
use crate::observation::{newly_made, publish_in, reset_through, SharedSlot};
use crate::space::{
    find_slot, register, retire_generation, Refused, SharedEntries, UnknownSubject,
};
use crate::turn::{Purpose, Turn};
use std::hash::Hash;
use std::task::Waker;
use triomphe::Arc;
use vstd::prelude::*;

verus! {

/// The generation that a registration granted, and the key that it is retained
/// at. It is never copied, and retirement uses it up.
#[verifier::reject_recursive_types(O)]
pub struct Grant<K, O> {
    key: K,
    generation: usize,
    slot: SharedSlot<O>,
}

impl<K, O> Grant<K, O> {
    /// The key.
    pub closed spec fn key(&self) -> K {
        self.key
    }

    /// The generation.
    pub closed spec fn generation(&self) -> usize {
        self.generation
    }

    /// The generation's slot.
    pub closed spec fn slot(&self) -> SharedSlot<O> {
        self.slot
    }

    /// Publishes an outcome through the slot.
    pub(crate) fn publish(&self, turn: Turn, outcome: Arc<O>) -> (wakers: Vec<Waker>)
        requires
            turn.purpose() == Purpose::Publish,
        ensures
            locked(self.slot(), outcome, publish_in::<Arc<O>>, wakers),
        opens_invariants [turn.name()]
    {
        publish_on(turn, &self.slot, outcome)
    }
}

/// `result` is what the answer to a registration at `key` comes to: the grant,
/// or the refusal and the key.
pub open spec fn granted<K, O>(
    key: K,
    answer: Result<(usize, SharedSlot<O>), Refused>,
    result: Result<Grant<K, O>, (Refused, K)>,
) -> bool {
    match answer {
        Ok((generation, slot)) => match result {
            Ok(grant) => {
                &&& grant.key() == key
                &&& grant.generation() == generation
                &&& grant.slot() == slot
            },
            Err(_) => false,
        },
        Err(refused) => result == Err::<Grant<K, O>, (Refused, K)>((refused, key)),
    }
}

/// Registers a generation at `key`. The key stays with the generation, or comes
/// back with the refusal.
pub(crate) fn enroll<K: Eq + Hash + Clone, O>(
    turn: Turn,
    shared: &Arc<ReadWrite<SharedEntries<K, O>>>,
    key: K,
) -> (result: Result<Grant<K, O>, (Refused, K)>)
    requires
        turn.purpose() == Purpose::Enroll,
    ensures
        exists|answer: Result<(usize, SharedSlot<O>), Refused>|
            {
                &&& #[trigger] write_locked(*shared, &key, register::<K, O>, answer)
                &&& granted(key, answer, result)
            },
        result matches Ok(grant) ==> reset_through(grant.slot()) || newly_made(grant.slot()),
    opens_invariants [turn.name()]
{
    let answer: Result<(usize, SharedSlot<O>), Refused> = run_write_locked(
        turn,
        shared,
        &key,
        register::<K, O>,
    );
    assert(write_locked(*shared, &key, register::<K, O>, answer));
    assert(answer matches Ok(slot) ==> reset_through(slot.1) || newly_made(slot.1));
    match answer {
        Ok((generation, slot)) => Ok(Grant { key, generation, slot }),
        Err(refused) => Err((refused, key)),
    }
}

/// Finds the slot of the generation retained at `key`.
pub(crate) fn find<K: Eq + Hash + Clone, O>(
    turn: Turn,
    shared: &Arc<ReadWrite<SharedEntries<K, O>>>,
    key: &K,
) -> (result: Result<SharedSlot<O>, UnknownSubject<K>>)
    requires
        turn.purpose() == Purpose::Find,
    ensures
        read_locked(*shared, key, find_slot::<K, O>, result),
    opens_invariants [turn.name()]
{
    run_read_locked(turn, shared, key, find_slot::<K, O>)
}

/// Retires a granted generation. Says whether it was the one retained at its key.
pub(crate) fn retire<K: Eq + Hash + Clone, O>(
    turn: Turn,
    shared: &Arc<ReadWrite<SharedEntries<K, O>>>,
    grant: Grant<K, O>,
) -> (retired: bool)
    requires
        turn.purpose() == Purpose::Retire,
    ensures
        exists|rest: Option<SharedSlot<O>>| #[trigger]
            write_locked(
                *shared,
                (&grant.key(), grant.generation(), grant.slot()),
                retire_generation::<K, O>,
                (retired, rest),
            ),
    opens_invariants [turn.name()]
{
    let answer: (bool, Option<SharedSlot<O>>) = run_write_locked(
        turn,
        shared,
        (&grant.key, grant.generation, grant.slot),
        retire_generation::<K, O>,
    );
    assert(write_locked(
        *shared,
        (&grant.key(), grant.generation(), grant.slot()),
        retire_generation::<K, O>,
        (answer.0, answer.1),
    ));
    answer.0
}

} // verus!
