//! The completion cell of one generation: the published outcome and the
//! waiters that its publication has to wake.

use vstd::prelude::*;

verus! {

/// One waiter that completion wakes, with the claims that keep it registered.
///
/// A waiter is registered once however many claims stand on it. It stays until
/// completion if it was registered directly, and otherwise for as long as an
/// unresolved future holds it.
pub struct Registration<W> {
    pub waiter: W,
    pub direct: bool,
    pub holders: usize,
}

impl<W> Registration<W> {
    /// Some claim keeps the waiter registered.
    pub open spec fn claimed(self) -> bool {
        self.direct || self.holders > 0
    }
}

/// Where a claim goes: to a waiter that is registered already, found by its
/// index, or to a waiter that is new.
pub enum Target<W> {
    Known(usize),
    New(W),
}

/// What a polled future does about its claim.
pub enum Claim<W> {
    /// The waiter it holds, at this index, wakes the polling task: it stays.
    Kept(usize),
    /// It takes a claim on `target`, and then gives up the one at `left`.
    Moved { left: Option<usize>, target: Target<W> },
}

/// The answer to a poll.
#[derive(Debug, Clone, PartialEq, Eq)]
pub enum Polled<O> {
    /// The outcome has been published.
    Ready(O),
    /// It has not; the polling task will be woken when it is.
    Pending,
}

/// A cell's contents.
#[verifier::ext_equal]
pub struct SlotView<O, W> {
    pub outcome: Option<O>,
    pub waiters: Seq<Registration<W>>,
}

/// The waiters of a list of registrations, in registration order.
pub open spec fn waiters_of<W>(registered: Seq<Registration<W>>) -> Seq<W> {
    registered.map_values(|r: Registration<W>| r.waiter)
}

/// Every registration stands on a claim.
pub open spec fn all_claimed<W>(registered: Seq<Registration<W>>) -> bool {
    forall|i: int| 0 <= i < registered.len() ==> (#[trigger] registered[i]).claimed()
}

/// `target` can take a direct claim.
pub open spec fn valid_target<W>(registered: Seq<Registration<W>>, target: Target<W>) -> bool {
    target matches Target::Known(at) ==> at < registered.len()
}

/// `target` can take one more future's claim.
pub open spec fn holdable_target<W>(
    registered: Seq<Registration<W>>,
    target: Target<W>,
) -> bool {
    target matches Target::Known(at) ==> at < registered.len() && registered[at as int].holders
        < usize::MAX
}

/// The registrations after a direct claim.
pub open spec fn with_direct<W>(
    registered: Seq<Registration<W>>,
    target: Target<W>,
) -> Seq<Registration<W>> {
    match target {
        Target::Known(at) => registered.update(
            at as int,
            Registration { direct: true, ..registered[at as int] },
        ),
        Target::New(waiter) => registered.push(
            Registration { waiter, direct: true, holders: 0 },
        ),
    }
}

/// The registrations after one more future's claim.
pub open spec fn with_holder<W>(
    registered: Seq<Registration<W>>,
    target: Target<W>,
) -> Seq<Registration<W>> {
    match target {
        Target::Known(at) => registered.update(
            at as int,
            Registration {
                holders: (registered[at as int].holders + 1) as usize,
                ..registered[at as int]
            },
        ),
        Target::New(waiter) => registered.push(
            Registration { waiter, direct: false, holders: 1 },
        ),
    }
}

/// The registrations after a future gave up its claim at `at`: the waiter goes
/// once no claim is left on it.
pub open spec fn without_holder<W>(registered: Seq<Registration<W>>, at: int) -> Seq<
    Registration<W>,
> {
    let left = Registration {
        holders: (registered[at].holders - 1) as usize,
        ..registered[at]
    };
    if left.claimed() {
        registered.update(at, left)
    } else {
        registered.remove(at)
    }
}

/// `claim` fits the registrations.
pub open spec fn valid_claim<W>(registered: Seq<Registration<W>>, claim: Claim<W>) -> bool {
    match claim {
        Claim::Kept(at) => at < registered.len() && registered[at as int].holders > 0,
        Claim::Moved { left, target } => {
            &&& holdable_target(registered, target)
            &&& left matches Some(at) ==> at < registered.len() && registered[at as int].holders
                > 0
        },
    }
}

/// The registrations after a future settled its claim.
pub open spec fn with_claim<W>(registered: Seq<Registration<W>>, claim: Claim<W>) -> Seq<
    Registration<W>,
> {
    match claim {
        Claim::Kept(_) => registered,
        Claim::Moved { left: None, target } => with_holder(registered, target),
        Claim::Moved { left: Some(at), target } => without_holder(
            with_holder(registered, target),
            at as int,
        ),
    }
}

impl<O, W> SlotView<O, W> {
    /// Nothing published, nobody waiting.
    pub open spec fn pristine() -> Self {
        SlotView { outcome: None, waiters: Seq::empty() }
    }

    /// The cell is in its first state.
    pub open spec fn is_pristine(self) -> bool {
        self == Self::pristine()
    }

    /// The outcome has been published.
    pub open spec fn completed(self) -> bool {
        self.outcome is Some
    }

    /// What every cell keeps: nobody waits for an outcome that is there, and
    /// every registration stands on a claim.
    pub open spec fn inv(self) -> bool {
        &&& self.completed() ==> self.waiters.len() == 0
        &&& all_claimed(self.waiters)
    }

    /// The cell after `outcome` has been published.
    pub open spec fn published(self, outcome: O) -> Self {
        SlotView { outcome: Some(outcome), waiters: Seq::empty() }
    }
}

/// What a reader gets: nothing while pending, a clone of the outcome after.
pub open spec fn is_reading<O: Clone>(outcome: Option<O>, read: Option<O>) -> bool {
    match outcome {
        Some(o) => read is Some && cloned(o, read->Some_0),
        None => read is None,
    }
}

/// Per-generation completion cell.
pub struct Slot<O, W> {
    outcome: Option<O>,
    waiters: Vec<Registration<W>>,
}

impl<O, W> View for Slot<O, W> {
    type V = SlotView<O, W>;

    closed spec fn view(&self) -> SlotView<O, W> {
        SlotView { outcome: self.outcome, waiters: self.waiters@ }
    }
}

impl<O, W> Slot<O, W> {
    /// A pending cell.
    pub fn new() -> (slot: Self)
        ensures
            slot@ == SlotView::<O, W>::pristine(),
            slot@.inv(),
    {
        Slot { outcome: None, waiters: Vec::new() }
    }

    /// Whether the outcome has been published.
    pub fn is_completed(&self) -> (completed: bool)
        ensures
            completed == self@.completed(),
    {
        self.outcome.is_some()
    }

    /// The published outcome, without taking or cloning it.
    pub fn outcome_ref(&self) -> (outcome: Option<&O>)
        ensures
            match self@.outcome {
                Some(o) => outcome == Some(&o),
                None => outcome is None,
            },
    {
        match &self.outcome {
            Some(outcome) => Some(outcome),
            None => None,
        }
    }

    /// The registrations, in registration order.
    pub fn registrations(&self) -> (registered: &Vec<Registration<W>>)
        ensures
            registered@ == self@.waiters,
    {
        &self.waiters
    }

    /// Publishes the outcome and hands over every registered waiter, in
    /// registration order, for the caller to wake. A cell that has its outcome
    /// keeps it, and the second one comes back.
    pub fn publish(&mut self, outcome: O) -> (done: Result<Vec<W>, O>)
        ensures
            match done {
                Ok(waiters) => {
                    &&& !old(self)@.completed()
                    &&& waiters@ == waiters_of(old(self)@.waiters)
                    &&& final(self)@ == old(self)@.published(outcome)
                },
                Err(rejected) => {
                    &&& old(self)@.completed()
                    &&& rejected == outcome
                    &&& final(self)@ == old(self)@
                },
            },
            old(self)@.inv() ==> final(self)@.inv(),
    {
        if self.outcome.is_some() {
            return Err(outcome);
        }
        self.outcome = Some(outcome);
        let mut drained: Vec<Registration<W>> = Vec::new();
        std::mem::swap(&mut drained, &mut self.waiters);
        Ok(into_waiters(drained))
    }

    /// Returns the cell to the pristine pending state for a new generation.
    pub fn reset(&mut self)
        ensures
            final(self)@ == SlotView::<O, W>::pristine(),
            final(self)@.inv(),
    {
        self.outcome = None;
        self.waiters.clear();
    }

    /// Moves the outcome out of a cell that nobody shares.
    pub fn into_outcome(self) -> (outcome: Option<O>)
        ensures
            outcome == self@.outcome,
        opens_invariants none
    {
        self.outcome
    }

    /// Moves the outcome out of the cell and leaves it empty.
    pub fn take_outcome(&mut self) -> (outcome: Option<O>)
        ensures
            outcome == old(self)@.outcome,
            final(self)@.outcome is None,
            final(self)@.waiters == old(self)@.waiters,
            old(self)@.inv() ==> final(self)@.inv(),
    {
        self.outcome.take()
    }

    /// Registers a waiter directly, unless the outcome is there already;
    /// says whether it is. Registering a known waiter again changes nothing.
    pub fn register(&mut self, target: Target<W>) -> (completed: bool)
        requires
            valid_target(old(self)@.waiters, target),
        ensures
            completed == old(self)@.completed(),
            final(self)@.outcome == old(self)@.outcome,
            final(self)@.waiters == if completed {
                old(self)@.waiters
            } else {
                with_direct(old(self)@.waiters, target)
            },
            old(self)@.inv() ==> final(self)@.inv(),
    {
        if self.outcome.is_some() {
            return true;
        }
        match target {
            Target::Known(at) => {
                self.waiters[at].direct = true;
            },
            Target::New(waiter) => {
                self.waiters.push(Registration { waiter, direct: true, holders: 0 });
            },
        }
        false
    }

    /// Registers a waiter for one future, unless the outcome is there already;
    /// says whether it is.
    pub fn hold(&mut self, target: Target<W>) -> (completed: bool)
        requires
            holdable_target(old(self)@.waiters, target),
        ensures
            completed == old(self)@.completed(),
            final(self)@.outcome == old(self)@.outcome,
            final(self)@.waiters == if completed {
                old(self)@.waiters
            } else {
                with_holder(old(self)@.waiters, target)
            },
            old(self)@.inv() ==> final(self)@.inv(),
    {
        if self.outcome.is_some() {
            return true;
        }
        match target {
            Target::Known(at) => {
                self.waiters[at].holders = self.waiters[at].holders + 1;
            },
            Target::New(waiter) => {
                self.waiters.push(Registration { waiter, direct: false, holders: 1 });
            },
        }
        false
    }

    /// Gives up one future's claim on the waiter at `at`.
    pub fn unhold(&mut self, at: usize)
        requires
            at < old(self)@.waiters.len(),
            old(self)@.waiters[at as int].holders > 0,
        ensures
            final(self)@.outcome == old(self)@.outcome,
            final(self)@.waiters == without_holder(old(self)@.waiters, at as int),
            old(self)@.inv() ==> final(self)@.inv(),
    {
        if self.waiters[at].holders > 1 || self.waiters[at].direct {
            self.waiters[at].holders = self.waiters[at].holders - 1;
        } else {
            self.waiters.remove(at);
        }
    }

    /// Settles a polled future's claim on a pending cell.
    pub fn settle(&mut self, claim: Claim<W>)
        requires
            !old(self)@.completed(),
            valid_claim(old(self)@.waiters, claim),
        ensures
            !final(self)@.completed(),
            final(self)@.waiters == with_claim(old(self)@.waiters, claim),
            old(self)@.inv() ==> final(self)@.inv(),
    {
        match claim {
            Claim::Kept(_) => {},
            Claim::Moved { left, target } => {
                self.hold(target);
                if let Some(at) = left {
                    self.unhold(at);
                }
            },
        }
    }
}

impl<O: Clone, W> Slot<O, W> {
    /// The outcome, cloned, when it has been published.
    pub fn read(&self) -> (read: Option<O>)
        ensures
            is_reading(self@.outcome, read),
    {
        match &self.outcome {
            Some(outcome) => Some(outcome.clone()),
            None => None,
        }
    }
}

/// The waiters of a list of registrations.
fn into_waiters<W>(registered: Vec<Registration<W>>) -> (waiters: Vec<W>)
    ensures
        waiters@ == waiters_of(registered@),
{
    let mut waiters: Vec<W> = Vec::new();
    let ghost all = registered@;
    for registration in it: registered
        invariant
            it.seq() == all,
            waiters@ == waiters_of(all.take(it.index() as int)),
    {
        proof {
            let at = it.index() as int;
            assert(all.take(at + 1) == all.take(at).push(all[at]));
            assert(waiters_of(all.take(at + 1)) == waiters_of(all.take(at)).push(all[at].waiter));
        }
        waiters.push(registration.waiter);
    }
    proof {
        assert(all.take(all.len() as int) == all);
    }
    waiters
}

} // verus!
