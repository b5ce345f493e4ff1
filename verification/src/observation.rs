//! Observations of one captured generation, and futures that wait for it.

use crate::history::Step;
use crate::slot::{
    is_reading, valid_claim, valid_target, waiters_of, with_claim, with_direct, without_holder,
    Claim, Polled, Registration, Slot, SlotView, Target,
};
use crate::sync::cells::{publish_on, read_slot, register_on, Seat};
use crate::sync::{guard, guards, locked, pointee, unguard, unguards, Guarded};
use crate::turn::{turns, Purpose, Turn};
use std::marker::PhantomData;
use std::task::Waker;
use triomphe::Arc;
use vstd::prelude::*;

verus! {

/// A completion cell that several handles share.
pub type SharedCell<P> = Arc<Guarded<Slot<P, Waker>>>;

/// The slot that the subject and the observations of a generation share. The
/// outcome lies behind a pointer of its own, so that it is cloned without the
/// slot's lock.
pub type SharedSlot<O> = SharedCell<Arc<O>>;

/// What registering a waiter directly does to a slot, and the answer to it.
pub open spec fn registers_waiter<O, W>(
    before: SlotView<O, W>,
    after: SlotView<O, W>,
    target: Target<W>,
    completed: bool,
) -> bool {
    &&& completed == before.completed()
    &&& completed ==> after == before
    &&& !completed ==> {
        &&& valid_target(before.waiters, target)
        &&& !after.completed()
        &&& after.waiters == with_direct(before.waiters, target)
    }
}

/// What polling does to a slot that is pending: the future settles its claim.
pub open spec fn claims<O, W>(
    before: SlotView<O, W>,
    after: SlotView<O, W>,
    claim: Claim<W>,
) -> bool {
    &&& !before.completed()
    &&& !after.completed()
    &&& valid_claim(before.waiters, claim)
    &&& after.waiters == with_claim(before.waiters, claim)
}

/// What polling does to a slot, and the answer to it.
pub open spec fn polls<O: Clone, W>(
    before: SlotView<O, W>,
    after: SlotView<O, W>,
    claim: Claim<W>,
    polled: Polled<O>,
) -> bool {
    match polled {
        Polled::Ready(outcome) => {
            &&& before.completed()
            &&& cloned(before.outcome->Some_0, outcome)
            &&& after == before
        },
        Polled::Pending => claims(before, after, claim),
    }
}

/// What cancelling a future does to a slot: the claim it held, if the slot
/// still has it, is gone.
pub open spec fn cancels<O, W>(
    before: SlotView<O, W>,
    after: SlotView<O, W>,
    left: Option<usize>,
) -> bool {
    &&& after.outcome == before.outcome
    &&& match left {
        Some(at) => {
            &&& at < before.waiters.len()
            &&& before.waiters[at as int].holders > 0
            &&& after.waiters == without_holder(before.waiters, at as int)
        },
        None => after.waiters == before.waiters,
    }
}

/// What publishing does to a slot, and which waiters have to be woken for it.
pub open spec fn publishes<O, W>(
    before: SlotView<O, W>,
    after: SlotView<O, W>,
    outcome: O,
    woken: Seq<W>,
) -> bool {
    if before.completed() {
        after == before && woken.len() == 0
    } else {
        after == before.published(outcome) && woken == waiters_of(before.waiters)
    }
}

/// How waiters are told apart and copied.
#[verifier::reject_recursive_types(W)]
pub struct Wakes<W> {
    /// Asked whether two waiters wake the same task, the answer is this.
    pub told: spec_fn(W, W, bool) -> bool,
    /// The second waiter is a copy of the first.
    pub copied: spec_fn(W, W) -> bool,
}

/// Task wakers: `Waker::will_wake` answers, and `Waker::clone` copies.
pub open spec fn task_wakers() -> Wakes<Waker> {
    Wakes {
        told: |waiter: Waker, waker: Waker, same: bool|
            call_ensures(Waker::will_wake, (&waiter, &waker), same),
        copied: |waker: Waker, copy: Waker| cloned(waker, copy),
    }
}

/// `found` is the first registration that is told to wake the same task as
/// `waker`.
pub open spec fn first_told<W>(
    wakes: Wakes<W>,
    registered: Seq<Registration<W>>,
    waker: W,
    found: Option<usize>,
) -> bool {
    match found {
        Some(at) => {
            &&& at < registered.len()
            &&& (wakes.told)(registered[at as int].waiter, waker, true)
            &&& forall|i: int|
                0 <= i < at ==> (wakes.told)((#[trigger] registered[i]).waiter, waker, false)
        },
        None => forall|i: int|
            0 <= i < registered.len() ==> (wakes.told)(
                (#[trigger] registered[i]).waiter,
                waker,
                false,
            ),
    }
}

/// `found` is the first registration that a future holds and that is told to
/// wake the same task as `waker`.
pub open spec fn first_held_told<W>(
    wakes: Wakes<W>,
    registered: Seq<Registration<W>>,
    waker: W,
    found: Option<usize>,
) -> bool {
    match found {
        Some(at) => {
            &&& at < registered.len()
            &&& registered[at as int].holders > 0
            &&& (wakes.told)(registered[at as int].waiter, waker, true)
            &&& forall|i: int|
                0 <= i < at && (#[trigger] registered[i]).holders > 0 ==> (wakes.told)(
                    registered[i].waiter,
                    waker,
                    false,
                )
        },
        None => forall|i: int|
            0 <= i < registered.len() && (#[trigger] registered[i]).holders > 0 ==> (wakes.told)(
                registered[i].waiter,
                waker,
                false,
            ),
    }
}

/// `target` is where a direct registration of `waker` goes: the first
/// registration that is told to wake the same task, or else a copy of it.
pub open spec fn direct_aim<W>(
    wakes: Wakes<W>,
    registered: Seq<Registration<W>>,
    waker: W,
    target: Target<W>,
) -> bool {
    match target {
        Target::Known(at) => first_told(wakes, registered, waker, Some(at)),
        Target::New(added) => {
            &&& first_told(wakes, registered, waker, None)
            &&& (wakes.copied)(waker, added)
        },
    }
}

/// What a polled future does about its claim, once it is known which
/// registrations wake which tasks.
#[derive(Debug, Clone, Copy, PartialEq, Eq)]
pub enum Plan {
    /// Keep the claim at this index.
    Keep(usize),
    /// Claim the registration at `at`, and give up the claim at `left`.
    Join { left: Option<usize>, at: usize },
    /// Add a registration, and give up the claim at `left`.
    Add { left: Option<usize> },
}

/// The plan of a future that holds the claim at `held`: it keeps that claim if
/// its waiter wakes the polling task (`same`), and otherwise moves to a
/// registration that does (`known`, unless it can take no more claims), or to
/// one of its own.
pub open spec fn planned(
    held: Option<usize>,
    same: bool,
    known: Option<usize>,
    full: bool,
) -> Plan {
    match (held, known) {
        (Some(at), _) if same => Plan::Keep(at),
        (_, Some(at)) if !full => Plan::Join { left: held, at },
        (_, _) => Plan::Add { left: held },
    }
}

/// `claim` carries out `plan`, with a copy of `waker` where it adds one.
pub open spec fn carries_out<W>(
    wakes: Wakes<W>,
    waker: W,
    plan: Plan,
    claim: Claim<W>,
) -> bool {
    match plan {
        Plan::Keep(at) => claim == Claim::<W>::Kept(at),
        Plan::Join { left, at } => claim == (Claim::<W>::Moved { left, target: Target::Known(at) }),
        Plan::Add { left } => match claim {
            Claim::Moved { left: given, target: Target::New(added) } => {
                &&& given == left
                &&& (wakes.copied)(waker, added)
            },
            _ => false,
        },
    }
}

/// The claim of a future that waits with `held` is at `at`.
pub open spec fn holds_at<W>(
    wakes: Wakes<W>,
    registered: Seq<Registration<W>>,
    held: Option<W>,
    at: Option<usize>,
) -> bool {
    match held {
        Some(waiter) => first_held_told(wakes, registered, waiter, at),
        None => at is None,
    }
}

/// `claim` is what a future that waits with `held`, and is polled with `waker`,
/// does about its claim, given what was found out on the way.
pub open spec fn chosen_by<W>(
    wakes: Wakes<W>,
    registered: Seq<Registration<W>>,
    held: Option<W>,
    waker: W,
    found: (Option<usize>, bool, Option<usize>, bool),
    claim: Claim<W>,
) -> bool {
    let (at, same, known, full) = found;
    &&& holds_at(wakes, registered, held, at)
    &&& match at {
        Some(i) => (wakes.told)(registered[i as int].waiter, waker, same),
        None => !same,
    }
    &&& if same {
        known is None
    } else {
        first_told(wakes, registered, waker, known)
    }
    &&& full == match known {
        Some(i) => registered[i as int].holders == usize::MAX,
        None => false,
    }
    &&& carries_out(wakes, waker, planned(at, same, known, full), claim)
}

/// `claim` is what a future that waits with `held`, and is polled with `waker`,
/// does about its claim.
pub open spec fn claim_chosen<W>(
    wakes: Wakes<W>,
    registered: Seq<Registration<W>>,
    held: Option<W>,
    waker: W,
    claim: Claim<W>,
) -> bool {
    exists|found: (Option<usize>, bool, Option<usize>, bool)| #[trigger]
        chosen_by(wakes, registered, held, waker, found, claim)
}

/// `slot` is what `Arc::new` makes of what `Mutex::new` makes of a pristine
/// cell.
pub closed spec fn newly_made<P>(slot: SharedCell<P>) -> bool {
    exists|cell: Slot<P, Waker>| cell@.is_pristine() && #[trigger] guards(slot, cell)
}

/// `slot` was returned to the pristine pending state.
pub open spec fn reset_through<P>(slot: SharedCell<P>) -> bool {
    locked(slot, (), reset_in::<P>, ())
}

/// `shared` is what `Arc::new` makes of `outcome`.
pub open spec fn shares<O>(outcome: O, shared: Arc<O>) -> bool {
    call_ensures(Arc::<O>::new, (outcome,), shared)
}

/// `outcome` was published through `slot`, and `wakers` are to be woken for it.
pub open spec fn published_through<O>(
    slot: SharedSlot<O>,
    outcome: O,
    wakers: Vec<Waker>,
) -> bool {
    exists|shared: Arc<O>|
        {
            &&& #[trigger] locked(slot, shared, publish_in::<Arc<O>>, wakers)
            &&& shares(outcome, shared)
        }
}

/// `read` is a clone of what `shared` points to, which is what it was made of.
pub closed spec fn reads<O: Clone>(shared: Arc<O>, read: O) -> bool {
    exists|outcome: &O|
        {
            &&& #[trigger] call_ensures(pointee::<O>, (&shared,), outcome)
            &&& forall|made_of: O| #[trigger] shares(made_of, shared) ==> *outcome == made_of
            &&& cloned(*outcome, read)
        }
}

/// `outcome` is what the pointer `shared` gives up: what it points to, which is
/// what it was made of, if `Arc::try_unwrap` finds it to be the last one, and
/// nothing if not.
pub open spec fn gives_up<O>(shared: Arc<O>, outcome: Option<O>) -> bool {
    exists|unwrapped: Result<O, Arc<O>>|
        {
            &&& #[trigger] call_ensures(Arc::<O>::try_unwrap, (shared,), unwrapped)
            &&& outcome == match unwrapped {
                Ok(data) => Some(data),
                Err(_) => None,
            }
            &&& outcome matches Some(data) ==> forall|made_of: O| #[trigger]
                shares(made_of, shared) ==> data == made_of
        }
}

/// `outcome` is what the pointer `slot` gives up: what its cell has published,
/// if `Arc::try_unwrap` finds it to be the last one, and nothing if not.
pub closed spec fn moves_out<O>(slot: SharedSlot<O>, outcome: Option<O>) -> bool {
    exists|guarded: Option<Slot<Arc<O>, Waker>>|
        {
            &&& #[trigger] unguards(slot, guarded)
            &&& match guarded {
                Some(cell) => match cell@.outcome {
                    Some(shared) => gives_up(shared, outcome),
                    None => outcome is None,
                },
                None => outcome is None,
            }
        }
}

/// What a slot gives up is what the pointer to its outcome gives up.
pub proof fn lemma_moves_out<O>(slot: SharedSlot<O>, outcome: Option<O>)
    requires
        moves_out(slot, outcome),
    ensures
        outcome is Some ==> exists|shared: Arc<O>| #[trigger] gives_up(shared, outcome),
{
}

/// A reader gets back what was published: a clone of it.
pub proof fn law_a_read_gives_back_what_was_published<O: Clone>(
    outcome: O,
    shared: Arc<O>,
    read: O,
)
    requires
        shares(outcome, shared),
        reads(shared, read),
    ensures
        cloned(outcome, read),
{
}

/// The last holder gets back what was published: the outcome itself.
pub proof fn law_the_last_holder_gets_what_was_published<O>(
    outcome: O,
    shared: Arc<O>,
    moved: Option<O>,
)
    requires
        shares(outcome, shared),
        gives_up(shared, moved),
    ensures
        moved matches Some(data) ==> data == outcome,
{
}

/// A fresh pending slot.
pub(crate) fn pristine_slot<P>() -> (slot: SharedCell<P>)
    ensures
        newly_made(slot),
{
    guard(Slot::new())
}

/// Returns a cell to the pristine pending state.
pub fn reset_in<P>(cell: &mut Slot<P, Waker>, nothing: ())
    ensures
        final(cell)@.is_pristine(),
{
    cell.reset();
}

/// The index of a registration whose waiter wakes the same task as `waker`.
fn find_waker(registered: &Vec<Registration<Waker>>, waker: &Waker) -> (found: Option<usize>)
    ensures
        first_told(task_wakers(), registered@, *waker, found),
{
    let ghost wakes = task_wakers();
    let mut at: usize = 0;
    while at < registered.len()
        invariant
            wakes == task_wakers(),
            at <= registered@.len(),
            forall|i: int|
                0 <= i < at ==> (wakes.told)((#[trigger] registered@[i]).waiter, *waker, false),
        decreases registered@.len() - at,
    {
        if registered[at].waiter.will_wake(waker) {
            return Some(at);
        }
        at = at + 1;
    }
    None
}

/// The index of a registration that a future holds and whose waiter wakes the
/// same task as `waker`.
fn find_held(registered: &Vec<Registration<Waker>>, waker: &Waker) -> (found: Option<usize>)
    ensures
        first_held_told(task_wakers(), registered@, *waker, found),
{
    let ghost wakes = task_wakers();
    let mut at: usize = 0;
    while at < registered.len()
        invariant
            wakes == task_wakers(),
            at <= registered@.len(),
            forall|i: int|
                0 <= i < at && (#[trigger] registered@[i]).holders > 0 ==> (wakes.told)(
                    registered@[i].waiter,
                    *waker,
                    false,
                ),
        decreases registered@.len() - at,
    {
        if registered[at].holders > 0 && registered[at].waiter.will_wake(waker) {
            return Some(at);
        }
        at = at + 1;
    }
    None
}

/// Where a direct registration of `waker` goes.
fn direct_target(registered: &Vec<Registration<Waker>>, waker: &Waker) -> (target: Target<Waker>)
    ensures
        valid_target(registered@, target),
        direct_aim(task_wakers(), registered@, *waker, target),
{
    match find_waker(registered, waker) {
        Some(at) => Target::Known(at),
        None => Target::New(waker.clone()),
    }
}

/// Plans what a polled future does about its claim.
pub fn plan_claim(held: Option<usize>, same: bool, known: Option<usize>, full: bool) -> (plan: Plan)
    ensures
        plan == planned(held, same, known, full),
{
    if let Some(at) = held {
        if same {
            return Plan::Keep(at);
        }
    }
    match known {
        Some(at) => if full {
            Plan::Add { left: held }
        } else {
            Plan::Join { left: held, at }
        },
        None => Plan::Add { left: held },
    }
}

/// What a future that waits with `current`, and is polled with `waker`, does
/// about its claim.
fn choose_claim(
    registered: &Vec<Registration<Waker>>,
    current: &Option<Waker>,
    waker: &Waker,
) -> (claim: Claim<Waker>)
    ensures
        valid_claim(registered@, claim),
        claim_chosen(task_wakers(), registered@, *current, *waker, claim),
{
    let held: Option<usize> = match current {
        Some(held) => find_held(registered, held),
        None => None,
    };
    let same: bool = match held {
        Some(at) => registered[at].waiter.will_wake(waker),
        None => false,
    };
    let known: Option<usize> = if same {
        None
    } else {
        find_waker(registered, waker)
    };
    let full: bool = match known {
        Some(at) => registered[at].holders == usize::MAX,
        None => false,
    };
    let claim: Claim<Waker> = match plan_claim(held, same, known, full) {
        Plan::Keep(at) => Claim::Kept(at),
        Plan::Join { left, at } => Claim::Moved { left, target: Target::Known(at) },
        Plan::Add { left } => Claim::Moved { left, target: Target::New(waker.clone()) },
    };
    assert(chosen_by(
        task_wakers(),
        registered@,
        *current,
        *waker,
        (held, same, known, full),
        claim,
    ));
    claim
}

/// Publishes an outcome in a cell, and hands over the wakers to wake.
pub fn publish_in<P>(cell: &mut Slot<P, Waker>, outcome: P) -> (wakers: Vec<Waker>)
    ensures
        publishes(old(cell)@, final(cell)@, outcome, wakers@),
{
    match cell.publish(outcome) {
        Ok(wakers) => wakers,
        Err(_) => Vec::new(),
    }
}

/// Reads a cell.
pub fn read_in<P: Clone>(cell: &mut Slot<P, Waker>, nothing: ()) -> (read: Option<P>)
    ensures
        is_reading(old(cell)@.outcome, read),
        final(cell)@ == old(cell)@,
{
    cell.read()
}

/// Registers `waker` directly on a pending cell; says whether the outcome is
/// there already.
pub fn register_in<P>(cell: &mut Slot<P, Waker>, waker: &Waker) -> (completed: bool)
    ensures
        exists|target: Target<Waker>|
            {
                &&& #[trigger] registers_waiter(old(cell)@, final(cell)@, target, completed)
                &&& !completed ==> direct_aim(
                    task_wakers(),
                    old(cell)@.waiters,
                    *waker,
                    target,
                )
            },
{
    if cell.is_completed() {
        assert(registers_waiter(old(cell)@, cell@, Target::Known(0), true));
        return true;
    }
    let target: Target<Waker> = direct_target(cell.registrations(), waker);
    let ghost chosen = target;
    let completed: bool = cell.register(target);
    assert(registers_waiter(old(cell)@, cell@, chosen, completed));
    completed
}

/// Settles the claim of a future that waits with `current` and is polled with
/// `waker` while the cell is pending; says whether it keeps the claim it has.
pub(crate) fn settle_in<P>(
    cell: &mut Slot<P, Waker>,
    current: &Option<Waker>,
    waker: &Waker,
) -> (kept: bool)
    requires
        !old(cell)@.completed(),
    ensures
        exists|claim: Claim<Waker>|
            {
                &&& #[trigger] claims(old(cell)@, final(cell)@, claim)
                &&& claim_chosen(task_wakers(), old(cell)@.waiters, *current, *waker, claim)
                &&& kept == claim is Kept
            },
{
    let claim: Claim<Waker> = choose_claim(cell.registrations(), current, waker);
    let kept: bool = match claim {
        Claim::Kept(_) => true,
        Claim::Moved { .. } => false,
    };
    let ghost chosen = claim;
    cell.settle(claim);
    assert(claims(old(cell)@, cell@, chosen));
    kept
}

/// Polls a cell for a future that waits with the first waker, if it waits
/// already, and is polled with the second; says also whether the future keeps
/// the claim it has.
pub fn poll_in<P: Clone>(cell: &mut Slot<P, Waker>, asked: (&Option<Waker>, &Waker)) -> (answer: (
    Polled<P>,
    bool,
))
    ensures
        exists|claim: Claim<Waker>|
            {
                &&& #[trigger] polls(old(cell)@, final(cell)@, claim, answer.0)
                &&& answer.0 is Pending ==> claim_chosen(
                    task_wakers(),
                    old(cell)@.waiters,
                    *asked.0,
                    *asked.1,
                    claim,
                )
                &&& answer.1 == (answer.0 is Pending && claim is Kept)
            },
{
    if let Some(outcome) = cell.read() {
        let answer: (Polled<P>, bool) = (Polled::Ready(outcome), false);
        assert(polls(old(cell)@, cell@, Claim::Kept(0), answer.0));
        return answer;
    }
    let kept: bool = settle_in(cell, asked.0, asked.1);
    let answer: (Polled<P>, bool) = (Polled::Pending, kept);
    proof {
        let claim = choose|claim: Claim<Waker>|
            {
                &&& #[trigger] claims(old(cell)@, cell@, claim)
                &&& claim_chosen(
                    task_wakers(),
                    old(cell)@.waiters,
                    *asked.0,
                    *asked.1,
                    claim,
                )
                &&& kept == claim is Kept
            };
        assert(polls(old(cell)@, cell@, claim, answer.0));
    }
    answer
}

/// Gives up the claim of a future that waits with `held`.
pub fn cancel_in<P>(cell: &mut Slot<P, Waker>, held: &Waker)
    ensures
        exists|left: Option<usize>|
            {
                &&& #[trigger] cancels(old(cell)@, final(cell)@, left)
                &&& first_held_told(task_wakers(), old(cell)@.waiters, *held, left)
            },
{
    let left: Option<usize> = find_held(cell.registrations(), held);
    if let Some(at) = left {
        cell.unhold(at);
    }
    assert(cancels(old(cell)@, cell@, left));
}

/// Publishes an outcome through a shared slot.
pub(crate) fn publish_shared<O>(slot: &SharedSlot<O>, outcome: O) -> (wakers: Vec<Waker>)
    ensures
        published_through(*slot, outcome, wakers),
    opens_invariants turns(Purpose::Publish)
{
    let shared: Arc<O> = Arc::new(outcome);
    publish_on(Turn::new(Ghost(Purpose::Publish)), slot, shared)
}

/// A clone of what a pointer points to.
fn copy_out<O: Clone>(shared: &Arc<O>) -> (read: O)
    ensures
        reads(*shared, read),
{
    pointee(shared).clone()
}

/// A cancellable observation of one captured generation. Clones observe the
/// same generation.
///
/// Wakers are cloned, compared and dropped under the slot's lock: what they run
/// then must not use an observation of the same generation. Outcomes are cloned
/// without it.
///
/// `S` is what lies behind the lock of the slot: the completion cell.
#[verifier::reject_recursive_types(O)]
#[verifier::reject_recursive_types(S)]
pub struct Observation<O, S = Slot<Arc<O>, Waker>> {
    slot: Arc<Guarded<S>>,
    outcome: PhantomData<O>,
}

impl<O, S> Observation<O, S> {
    /// The slot of the captured generation.
    pub closed spec fn slot(&self) -> Arc<Guarded<S>> {
        self.slot
    }
}

impl<O> Observation<O> {
    /// An observation of the generation behind `slot`.
    pub(crate) fn of(slot: SharedSlot<O>) -> (observation: Self)
        ensures
            observation.slot() == slot,
        opens_invariants none
    {
        Observation { slot, outcome: PhantomData }
    }

    /// Consumes this observation and moves the outcome out, if it has been
    /// published and this handle is the last reference to the slot. Outcomes
    /// need not be `Clone` for this.
    ///
    /// Who else holds the slot at the moment, other threads decide.
    pub fn into_outcome(self) -> (outcome: Option<O>)
        ensures
            moves_out(self.slot(), outcome),
        opens_invariants none
    {
        let guarded: Option<Slot<Arc<O>, Waker>> = unguard(self.slot);
        assert(unguards(self.slot(), guarded));
        match guarded {
            Some(cell) => match cell.into_outcome() {
                Some(shared) => match Arc::try_unwrap(shared) {
                    Ok(outcome) => Some(outcome),
                    Err(_) => None,
                },
                None => None,
            },
            None => None,
        }
    }

    /// Registers a waker to be woken when the outcome is published. Returns
    /// `true` when it has been published already, in which case nothing is
    /// registered. Registering a waker of a task that is registered already is
    /// idempotent.
    pub fn register_waker(&self, waker: &Waker) -> (completed: bool)
        ensures
            locked(self.slot(), waker, register_in::<Arc<O>>, completed),
        opens_invariants turns(Purpose::Register)
    {
        register_on(Turn::new(Ghost(Purpose::Register)), &self.slot, waker)
    }

    /// A future that resolves to the outcome.
    pub fn into_future(self) -> (future: ObservationFuture<O>)
        ensures
            future.slot() == self.slot(),
            future.held() is None,
            future.steps() == Seq::<Step<Waker>>::empty(),
        opens_invariants none
    {
        ObservationFuture { seat: Seat::at(self.slot) }
    }
}

impl<O, S> Clone for Observation<O, S> {
    /// Another observation of the same generation. Whatever lies behind the lock,
    /// it is left alone: nothing is known here of what it is, and no section can be
    /// run on it.
    fn clone(&self) -> (observation: Self)
        ensures
            observation.slot() == self.slot(),
    {
        Observation { slot: self.slot.clone(), outcome: PhantomData }
    }
}

impl<O: Clone> Observation<O> {
    /// The outcome, when it has been published. The call waits for the slot's
    /// lock, but not for the outcome.
    pub fn try_get(&self) -> (read: Option<O>)
        ensures
            exists|shared: Option<Arc<O>>|
                {
                    &&& #[trigger] locked(self.slot(), (), read_in::<Arc<O>>, shared)
                    &&& match shared {
                        Some(outcome) => read is Some && reads(outcome, read->Some_0),
                        None => read is None,
                    }
                },
    {
        let shared: Option<Arc<O>> = read_slot(Turn::new(Ghost(Purpose::Read)), &self.slot);
        assert(locked(self.slot(), (), read_in::<Arc<O>>, shared));
        match &shared {
            Some(outcome) => Some(copy_out(outcome)),
            None => None,
        }
    }
}

/// A future that resolves to the outcome when the subject completes.
///
/// Polling registers the task's waker once: polling again with a waker of the
/// same task changes nothing, and polling with a waker of another task moves
/// the registration to it. [`ObservationFuture::cancel`] gives the registration
/// up, and leaves those of other futures and direct registrations alone. A future
/// that is merely dropped leaves its registration behind.
#[verifier::reject_recursive_types(O)]
pub struct ObservationFuture<O> {
    seat: Seat<Arc<O>>,
}

/// What a blocking waiter does next.
#[derive(Debug, Clone, PartialEq, Eq)]
pub enum WaitStep<O> {
    /// Return the outcome.
    Ready(O),
    /// Block until woken, or until the deadline, and step again.
    Park,
    /// Return empty-handed: the deadline has passed.
    TimedOut,
}

impl<O> WaitStep<O> {
    /// The answer to the poll that the step makes.
    pub open spec fn polled(self) -> Polled<O> {
        match self {
            WaitStep::Ready(outcome) => Polled::Ready(outcome),
            WaitStep::Park => Polled::Pending,
            WaitStep::TimedOut => Polled::Pending,
        }
    }
}

/// What a future waits with after a poll that stayed pending: what it waited
/// with before, if it kept its claim, and otherwise a clone of the waker that it
/// was polled with.
pub open spec fn waits_with(
    before: Option<Waker>,
    waker: Waker,
    kept: bool,
    after: Option<Waker>,
) -> bool {
    if kept {
        after == before
    } else {
        after is Some && cloned(waker, after->Some_0)
    }
}

impl<O> ObservationFuture<O> {
    /// The slot of the captured generation.
    pub closed spec fn slot(&self) -> SharedSlot<O> {
        self.seat.cell()
    }

    /// The waker that the future waits with, if it waits.
    pub closed spec fn held(&self) -> Option<Waker> {
        self.seat.held()
    }

    /// The critical sections that the future has run at its slot, in order.
    pub closed spec fn steps(&self) -> Seq<Step<Waker>> {
        self.seat.steps()
    }

    /// The future is this one after it has given up its claim: one section of its
    /// own if it had one, and none if not.
    pub open spec fn cancelled(self, after: Self) -> bool {
        &&& after.slot() == self.slot()
        &&& after.held() is None
        &&& match self.held() {
            Some(waker) => {
                &&& locked(self.slot(), &waker, cancel_in::<Arc<O>>, ())
                &&& after.steps() == self.steps().push(Step::GaveUp { held: waker })
            },
            None => after.steps() == self.steps(),
        }
    }

    /// Gives up the registration, if there is one.
    pub fn cancel(&mut self)
        ensures
            old(self).cancelled(*final(self)),
        opens_invariants turns(Purpose::GiveUp)
    {
        if self.seat.waits() {
            self.seat.give_up(Turn::new(Ghost(Purpose::GiveUp)));
        }
    }
}

impl<O: Clone> ObservationFuture<O> {
    /// The future is this one after it has been polled with `waker`, and the
    /// answer was `polled`.
    pub open spec fn polled(self, waker: Waker, polled: Polled<O>, after: Self) -> bool {
        exists|answer: (Polled<Arc<O>>, bool)|
            {
                &&& #[trigger] locked(
                    self.slot(),
                    (&self.held(), &waker),
                    poll_in::<Arc<O>>,
                    answer,
                )
                &&& after.slot() == self.slot()
                &&& after.steps() == self.steps().push(
                    Step::Polled { held: self.held(), waker, pending: polled is Pending },
                )
                &&& match answer.0 {
                    Polled::Ready(shared) => {
                        &&& polled is Ready
                        &&& reads(shared, polled->Ready_0)
                        &&& after.held() is None
                    },
                    Polled::Pending => {
                        &&& polled is Pending
                        &&& waits_with(self.held(), waker, answer.1, after.held())
                    },
                }
            }
    }

    /// The outcome, if it has been published; otherwise `waker` will be woken
    /// when it is.
    pub fn poll(&mut self, waker: &Waker) -> (polled: Polled<O>)
        ensures
            old(self).polled(*waker, polled, *final(self)),
            final(self).held() is Some <==> polled is Pending,
    {
        let answer: (Polled<Arc<O>>, bool) = self.seat.poll(
            Turn::new(Ghost(Purpose::Poll)),
            waker,
        );
        assert(locked(
            old(self).slot(),
            (&old(self).held(), waker),
            poll_in::<Arc<O>>,
            answer,
        ));
        match &answer.0 {
            Polled::Ready(shared) => {
                self.seat.hold(None);
                Polled::Ready(copy_out(shared))
            },
            Polled::Pending => {
                if !answer.1 {
                    self.seat.hold(Some(waker.clone()));
                }
                Polled::Pending
            },
        }
    }

    /// One step of a blocking wait by a thread that `waker` unblocks, where
    /// `expired` says whether its deadline has passed. An outcome that is there
    /// wins over the deadline; a waiter that times out is registered no more.
    pub fn wait_step(&mut self, waker: &Waker, expired: bool) -> (step: WaitStep<O>)
        ensures
            exists|between: Self|
                {
                    &&& #[trigger] old(self).polled(*waker, step.polled(), between)
                    &&& between.held() is Some <==> step.polled() is Pending
                    &&& if step is TimedOut {
                        between.cancelled(*final(self))
                    } else {
                        *final(self) == between
                    }
                },
            final(self).held() is Some <==> step is Park,
            step is Park ==> !expired,
            step is TimedOut ==> expired,
    {
        match self.poll(waker) {
            Polled::Ready(outcome) => WaitStep::Ready(outcome),
            Polled::Pending => if expired {
                self.cancel();
                WaitStep::TimedOut
            } else {
                WaitStep::Park
            },
        }
    }
}

} // verus!
