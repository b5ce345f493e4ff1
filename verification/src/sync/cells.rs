//! The critical sections of a completion cell, one function for each.
//!
//! A function here takes a turn and may open no other, so it runs at most one
//! section, and its postcondition says which one that is.

use super::{locked, run_locked};
use crate::entries::Recycled;
use crate::history::{may_hold, Step};
use crate::observation::{
    cancel_in, newly_made, poll_in, publish_in, read_in, register_in, reset_in, reset_through,
    SharedCell,
};
use crate::pair::take_in;
use crate::slot::Polled;
use crate::turn::{Purpose, Turn};
use std::task::Waker;
use vstd::prelude::*;

verus! {

/// Returns a recycled slot to the pristine pending state. Only a slot that came
/// out of a namespace's pool can be.
pub(crate) fn reset_slot<P>(turn: Turn, recycled: Recycled<SharedCell<P>>) -> (slot: SharedCell<P>)
    requires
        turn.purpose() == Purpose::Renew,
    ensures
        slot == recycled.slot(),
        reset_through(slot),
    opens_invariants [turn.name()]
{
    let slot: SharedCell<P> = recycled.into_slot();
    run_locked(turn, &slot, (), reset_in::<P>);
    slot
}

/// Reads a slot.
pub(crate) fn read_slot<P: Clone>(turn: Turn, slot: &SharedCell<P>) -> (read: Option<P>)
    requires
        turn.purpose() == Purpose::Read,
    ensures
        locked(*slot, (), read_in::<P>, read),
    opens_invariants [turn.name()]
{
    run_locked(turn, slot, (), read_in::<P>)
}

/// Registers a waker directly.
pub(crate) fn register_on<P>(turn: Turn, slot: &SharedCell<P>, waker: &Waker) -> (completed: bool)
    requires
        turn.purpose() == Purpose::Register,
    ensures
        locked(*slot, waker, register_in::<P>, completed),
    opens_invariants [turn.name()]
{
    run_locked(turn, slot, waker, register_in::<P>)
}

/// Publishes an outcome.
pub(crate) fn publish_on<P>(turn: Turn, slot: &SharedCell<P>, outcome: P) -> (wakers: Vec<Waker>)
    requires
        turn.purpose() == Purpose::Publish,
    ensures
        locked(*slot, outcome, publish_in::<P>, wakers),
    opens_invariants [turn.name()]
{
    run_locked(turn, slot, outcome, publish_in::<P>)
}

/// A future's place at a slot: the waker that it waits with, if it waits, and
/// every section that it has run there. Nobody runs a section through it without
/// having it to themselves, and it is never copied.
#[verifier::reject_recursive_types(P)]
pub struct Seat<P> {
    cell: SharedCell<P>,
    waker: Option<Waker>,
    steps: Ghost<Seq<Step<Waker>>>,
}

impl<P> Seat<P> {
    /// The slot.
    pub closed spec fn cell(&self) -> SharedCell<P> {
        self.cell
    }

    /// The waker that the future waits with, if it waits.
    pub closed spec fn held(&self) -> Option<Waker> {
        self.waker
    }

    /// The sections that were run from this seat, in order.
    pub closed spec fn steps(&self) -> Seq<Step<Waker>> {
        self.steps@
    }

    /// A seat at `cell`, of a future that does not wait yet.
    pub(crate) fn at(cell: SharedCell<P>) -> (seat: Self)
        ensures
            seat.cell() == cell,
            seat.held() is None,
            seat.steps() == Seq::<Step<Waker>>::empty(),
        opens_invariants none
    {
        Seat { cell, waker: None, steps: Ghost(Seq::empty()) }
    }

    /// Whether the future waits.
    pub(crate) fn waits(&self) -> (waits: bool)
        ensures
            waits == self.held() is Some,
        opens_invariants none
    {
        match &self.waker {
            Some(_) => true,
            None => false,
        }
    }

    /// Notes the waker that the future waits with after a poll.
    pub(crate) fn hold(&mut self, waker: Option<Waker>)
        requires
            may_hold(old(self).steps(), waker),
        ensures
            final(self).cell() == old(self).cell(),
            final(self).held() == waker,
            final(self).steps() == old(self).steps(),
        opens_invariants none
    {
        self.waker = waker;
    }

    /// Gives up the claim of a future that waits.
    pub(crate) fn give_up(&mut self, turn: Turn)
        requires
            turn.purpose() == Purpose::GiveUp,
            old(self).held() is Some,
        ensures
            final(self).cell() == old(self).cell(),
            final(self).held() is None,
            final(self).steps() == old(self).steps().push(
                Step::GaveUp { held: old(self).held()->Some_0 },
            ),
            locked(old(self).cell(), &old(self).held()->Some_0, cancel_in::<P>, ()),
        opens_invariants [turn.name()]
    {
        let mut waker: Option<Waker> = None;
        std::mem::swap(&mut waker, &mut self.waker);
        if let Some(held) = waker {
            run_locked(turn, &self.cell, &held, cancel_in::<P>);
            self.steps = Ghost(self.steps@.push(Step::GaveUp { held }));
        }
    }
}

impl<P: Clone> Seat<P> {
    /// Polls the slot; says also whether the future keeps the claim it has.
    pub(crate) fn poll(&mut self, turn: Turn, waker: &Waker) -> (answer: (Polled<P>, bool))
        requires
            turn.purpose() == Purpose::Poll,
        ensures
            final(self).cell() == old(self).cell(),
            final(self).held() == old(self).held(),
            final(self).steps() == old(self).steps().push(
                Step::Polled {
                    held: old(self).held(),
                    waker: *waker,
                    pending: answer.0 is Pending,
                },
            ),
            locked(old(self).cell(), (&old(self).held(), waker), poll_in::<P>, answer),
            answer.1 ==> old(self).held() is Some,
        opens_invariants [turn.name()]
    {
        let answer: (Polled<P>, bool) = run_locked(
            turn,
            &self.cell,
            (&self.waker, waker),
            poll_in::<P>,
        );
        self.steps = Ghost(
            self.steps@.push(
                Step::Polled { held: self.waker, waker: *waker, pending: answer.0 is Pending },
            ),
        );
        answer
    }
}

/// The seat of the one future that the outcome moves to.
#[verifier::reject_recursive_types(P)]
pub struct Intake<P> {
    seat: Seat<P>,
}

impl<P> Intake<P> {
    /// The seat.
    pub closed spec fn seat(&self) -> Seat<P> {
        self.seat
    }

    /// The intake of a slot that is new.
    pub(crate) fn at(cell: SharedCell<P>) -> (intake: Self)
        requires
            newly_made(cell),
        ensures
            intake.seat().cell() == cell,
            intake.seat().held() is None,
            intake.seat().steps() == Seq::<Step<Waker>>::empty(),
        opens_invariants none
    {
        Intake { seat: Seat::at(cell) }
    }

    /// Whether the future waits.
    pub(crate) fn waits(&self) -> (waits: bool)
        ensures
            waits == self.seat().held() is Some,
        opens_invariants none
    {
        self.seat.waits()
    }

    /// Notes the waker that the future waits with after a poll.
    pub(crate) fn hold(&mut self, waker: Option<Waker>)
        requires
            may_hold(old(self).seat().steps(), waker),
        ensures
            final(self).seat().cell() == old(self).seat().cell(),
            final(self).seat().held() == waker,
            final(self).seat().steps() == old(self).seat().steps(),
        opens_invariants none
    {
        self.seat.hold(waker);
    }

    /// Gives up the claim of a future that waits.
    pub(crate) fn give_up(&mut self, turn: Turn)
        requires
            turn.purpose() == Purpose::GiveUp,
            old(self).seat().held() is Some,
        ensures
            final(self).seat().cell() == old(self).seat().cell(),
            final(self).seat().held() is None,
            final(self).seat().steps() == old(self).seat().steps().push(
                Step::GaveUp { held: old(self).seat().held()->Some_0 },
            ),
            locked(old(self).seat().cell(), &old(self).seat().held()->Some_0, cancel_in::<P>, ()),
        opens_invariants [turn.name()]
    {
        self.seat.give_up(turn);
    }

    /// Polls the slot for the outcome itself; says also whether the future keeps
    /// the claim it has.
    pub(crate) fn take(&mut self, turn: Turn, waker: &Waker) -> (answer: (Polled<P>, bool))
        requires
            turn.purpose() == Purpose::Take,
        ensures
            final(self).seat().cell() == old(self).seat().cell(),
            final(self).seat().held() == old(self).seat().held(),
            final(self).seat().steps() == old(self).seat().steps().push(
                Step::Took {
                    held: old(self).seat().held(),
                    waker: *waker,
                    pending: answer.0 is Pending,
                },
            ),
            locked(
                old(self).seat().cell(),
                (&old(self).seat().held(), waker),
                take_in::<P>,
                answer,
            ),
            answer.1 ==> old(self).seat().held() is Some,
        opens_invariants [turn.name()]
    {
        let answer: (Polled<P>, bool) = run_locked(
            turn,
            &self.seat.cell,
            (&self.seat.waker, waker),
            take_in::<P>,
        );
        self.seat.steps = Ghost(
            self.seat.steps@.push(
                Step::Took { held: self.seat.waker, waker: *waker, pending: answer.0 is Pending },
            ),
        );
        answer
    }
}

} // verus!
