//! Publication without a key: one publisher, and either observations that share
//! the outcome or a single one that it moves to.

use crate::history::Step;
use crate::observation::{
    cancel_in, claim_chosen, claims, newly_made, pristine_slot, publish_in, publish_shared,
    published_through, settle_in, task_wakers, waits_with, Observation, SharedCell, SharedSlot,
};
use crate::slot::{Claim, Polled, Slot, SlotView};
use crate::sync::cells::{publish_on, Intake};
use crate::sync::locked;
use crate::turn::{turns, Purpose, Turn};
use std::task::Waker;
use vstd::prelude::*;

verus! {

/// What polling for the outcome itself does to a slot, and the answer to it: an
/// outcome that is there moves out.
pub open spec fn takes<O, W>(
    before: SlotView<O, W>,
    after: SlotView<O, W>,
    claim: Claim<W>,
    polled: Polled<O>,
) -> bool {
    match polled {
        Polled::Ready(outcome) => {
            &&& before.outcome == Some(outcome)
            &&& after.outcome is None
            &&& after.waiters == before.waiters
        },
        Polled::Pending => claims(before, after, claim),
    }
}

/// Polls a cell for the outcome itself, for a future that waits with the first
/// waker, if it waits already, and is polled with the second; says also whether
/// the future keeps the claim it has.
pub fn take_in<P>(cell: &mut Slot<P, Waker>, asked: (&Option<Waker>, &Waker)) -> (answer: (
    Polled<P>,
    bool,
))
    ensures
        exists|claim: Claim<Waker>|
            {
                &&& #[trigger] takes(old(cell)@, final(cell)@, claim, answer.0)
                &&& answer.0 is Pending ==> claim_chosen(
                    task_wakers(),
                    old(cell)@.waiters,
                    *asked.0,
                    *asked.1,
                    claim,
                )
                &&& answer.1 == (answer.0 is Pending && claim is Kept)
            },
{
    if let Some(outcome) = cell.take_outcome() {
        let answer: (Polled<P>, bool) = (Polled::Ready(outcome), false);
        assert(takes(old(cell)@, cell@, Claim::Kept(0), answer.0));
        return answer;
    }
    assert(cell@ == old(cell)@);
    let kept: bool = settle_in(cell, asked.0, asked.1);
    let answer: (Polled<P>, bool) = (Polled::Pending, kept);
    proof {
        let claim = choose|claim: Claim<Waker>|
            {
                &&& #[trigger] claims(old(cell)@, cell@, claim)
                &&& claim_chosen(
                    task_wakers(),
                    old(cell)@.waiters,
                    *asked.0,
                    *asked.1,
                    claim,
                )
                &&& kept == claim is Kept
            };
        assert(takes(old(cell)@, cell@, claim, answer.0));
    }
    answer
}

/// Where a publisher publishes.
#[verifier::reject_recursive_types(O)]
pub enum Destination<O> {
    /// Through a slot whose readers clone the outcome.
    Shared(SharedSlot<O>),
    /// Through a cell that the outcome moves out of.
    Affine(SharedCell<O>),
}

/// The publishing half of a pair. A publisher that is dropped without
/// completing leaves the observations pending.
#[verifier::reject_recursive_types(O)]
pub struct Publisher<O> {
    destination: Destination<O>,
}

/// The receiving half of an affine pair: it waits for the outcome and moves it
/// out. The outcome need not be `Clone`. [`AffineObservation::cancel`] gives the
/// registration up; an observation that is merely dropped leaves it behind.
#[verifier::reject_recursive_types(O)]
pub struct AffineObservation<O> {
    intake: Intake<O>,
    finished: bool,
}

/// A publisher and an observation of what it publishes; the observation can be
/// cloned.
#[must_use]
pub fn pair<O>() -> (halves: (Publisher<O>, Observation<O>))
    ensures
        halves.0.destination() == Destination::Shared(halves.1.slot()),
        newly_made(halves.1.slot()),
{
    let slot: SharedSlot<O> = pristine_slot();
    (Publisher { destination: Destination::Shared(slot.clone()) }, Observation::of(slot))
}

/// A publisher and the single observation that its outcome moves to.
#[must_use]
pub fn affine_pair<O>() -> (halves: (Publisher<O>, AffineObservation<O>))
    ensures
        halves.0.destination() == Destination::Affine(halves.1.slot()),
        newly_made(halves.1.slot()),
        halves.1.held() is None,
        !halves.1.is_finished(),
        halves.1.steps() == Seq::<Step<Waker>>::empty(),
{
    let slot: SharedCell<O> = pristine_slot();
    (
        Publisher { destination: Destination::Affine(slot.clone()) },
        AffineObservation { intake: Intake::at(slot), finished: false },
    )
}

impl<O> Publisher<O> {
    /// Where the publisher publishes.
    pub closed spec fn destination(&self) -> Destination<O> {
        self.destination
    }

    /// Publishes the terminal outcome. The wakers that were registered come
    /// back, in registration order, for the caller to wake.
    #[must_use]
    pub fn complete(self, outcome: O) -> (wakers: Vec<Waker>)
        ensures
            match self.destination() {
                Destination::Shared(slot) => published_through(slot, outcome, wakers),
                Destination::Affine(slot) => locked(slot, outcome, publish_in::<O>, wakers),
            },
        opens_invariants turns(Purpose::Publish)
    {
        match &self.destination {
            Destination::Shared(slot) => publish_shared(slot, outcome),
            Destination::Affine(slot) => publish_on(
                Turn::new(Ghost(Purpose::Publish)),
                slot,
                outcome,
            ),
        }
    }
}

impl<O> AffineObservation<O> {
    /// The cell that the pair shares.
    pub closed spec fn slot(&self) -> SharedCell<O> {
        self.intake.seat().cell()
    }

    /// The waker that the observation waits with, if it waits.
    pub closed spec fn held(&self) -> Option<Waker> {
        self.intake.seat().held()
    }

    /// The critical sections that the observation has run at its cell, in order.
    pub closed spec fn steps(&self) -> Seq<Step<Waker>> {
        self.intake.seat().steps()
    }

    /// The outcome has moved out.
    pub closed spec fn is_finished(&self) -> bool {
        self.finished
    }

    /// The observation is this one after it has been polled with `waker`, and
    /// the answer was `polled`.
    pub open spec fn polled(self, waker: Waker, polled: Polled<O>, after: Self) -> bool {
        exists|kept: bool|
            {
                &&& #[trigger] locked(
                    self.slot(),
                    (&self.held(), &waker),
                    take_in::<O>,
                    (polled, kept),
                )
                &&& after.slot() == self.slot()
                &&& after.steps() == self.steps().push(
                    Step::Took { held: self.held(), waker, pending: polled is Pending },
                )
                &&& after.is_finished() == polled is Ready
                &&& match polled {
                    Polled::Ready(_) => after.held() is None,
                    Polled::Pending => waits_with(self.held(), waker, kept, after.held()),
                }
            }
    }

    /// The observation is this one after it has given up its claim: one section of
    /// its own if it had one, and none if not.
    pub open spec fn cancelled(self, after: Self) -> bool {
        &&& after.slot() == self.slot()
        &&& after.is_finished() == self.is_finished()
        &&& after.held() is None
        &&& match self.held() {
            Some(waker) => {
                &&& locked(self.slot(), &waker, cancel_in::<O>, ())
                &&& after.steps() == self.steps().push(Step::GaveUp { held: waker })
            },
            None => after.steps() == self.steps(),
        }
    }

    /// The outcome, moved out, if it has been published; otherwise `waker` will
    /// be woken when it is.
    pub fn poll(&mut self, waker: &Waker) -> (polled: Polled<O>)
        requires
            !old(self).is_finished(),
        ensures
            old(self).polled(*waker, polled, *final(self)),
            final(self).held() is Some <==> polled is Pending,
    {
        let (polled, kept) = self.intake.take(Turn::new(Ghost(Purpose::Take)), waker);
        assert(locked(
            old(self).slot(),
            (&old(self).held(), waker),
            take_in::<O>,
            (polled, kept),
        ));
        match polled {
            Polled::Ready(_) => {
                self.intake.hold(None);
                self.finished = true;
            },
            Polled::Pending => {
                if !kept {
                    self.intake.hold(Some(waker.clone()));
                }
            },
        }
        polled
    }

    /// Gives up the registration, if there is one.
    pub fn cancel(&mut self)
        ensures
            old(self).cancelled(*final(self)),
        opens_invariants turns(Purpose::GiveUp)
    {
        if self.intake.waits() {
            self.intake.give_up(Turn::new(Ghost(Purpose::GiveUp)));
        }
    }
}

} // verus!
