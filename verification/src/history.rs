//! What the critical sections that a handle runs come to.
//!
//! A future keeps a record of the sections that it has run at its slot, and its
//! operations say by which steps the record grows. The laws here say what the
//! operations do to a slot, over all steps that they record: to the other waiters,
//! and to the outcome.

use crate::observation::{
    cancel_in, cancels, chosen_by, claim_chosen, claims, first_held_told,
    law_a_read_gives_back_what_was_published, poll_in, publish_in, published_through, publishes,
    reads, registers_waiter, shares, task_wakers, Observation, ObservationFuture, SharedCell,
    SharedSlot, WaitStep, Wakes,
};
use crate::pair::{take_in, AffineObservation, Destination, Publisher};
use crate::slot::{waiters_of, Claim, Polled, Slot, SlotView, Target};
use crate::space::Subject;
use crate::sync::{lemma_locked, locked};
use crate::waiting::{
    claim_waiter, distinct_waiters, held_by, held_directly,
    law_a_cancelled_future_waits_no_more, law_a_pending_poll_holds_a_claim,
    law_a_poll_moves_one_claim, law_a_polled_future_waits_as_the_polling_task,
    law_cancelling_leaves_the_others, law_completion_wakes_every_waiter,
    law_direct_registration_adds_only_itself, room_for_claims, tasks,
};
use std::task::Waker;
use triomphe::Arc;
use vstd::prelude::*;

verus! {

/// One critical section that a future ran at its slot.
pub enum Step<W> {
    /// It was polled with `waker` while it waited with `held`, and stayed pending
    /// or not.
    Polled { held: Option<W>, waker: W, pending: bool },
    /// It was polled for the outcome itself.
    Took { held: Option<W>, waker: W, pending: bool },
    /// It gave up the claim that it waited with.
    GaveUp { held: W },
}

/// After the last of its steps a future may wait with `waker`: that step was a poll
/// which stayed pending, and `waker` is a clone of the waker of it; or the poll
/// resolved, and the future waits no more.
pub open spec fn may_hold(steps: Seq<Step<Waker>>, waker: Option<Waker>) -> bool {
    &&& steps.len() > 0
    &&& match steps.last() {
        Step::Polled { waker: asked, pending, .. } => pending == waker is Some && (pending
            ==> cloned(asked, waker->Some_0)),
        Step::Took { waker: asked, pending, .. } => pending == waker is Some && (pending
            ==> cloned(asked, waker->Some_0)),
        Step::GaveUp { .. } => false,
    }
}

/// What a poll that stays pending does to a slot.
pub open spec fn settles<O, W>(
    wakes: Wakes<W>,
    held: Option<W>,
    waker: W,
    before: SlotView<O, W>,
    after: SlotView<O, W>,
) -> bool {
    exists|claim: Claim<W>|
        {
            &&& #[trigger] claims(before, after, claim)
            &&& claim_chosen(wakes, before.waiters, held, waker, claim)
        }
}

/// What a step does to a slot.
pub open spec fn does<O, W>(
    wakes: Wakes<W>,
    step: Step<W>,
    before: SlotView<O, W>,
    after: SlotView<O, W>,
) -> bool {
    match step {
        Step::Polled { held, waker, pending } => if pending {
            settles(wakes, held, waker, before, after)
        } else {
            before.completed() && after == before
        },
        Step::Took { held, waker, pending } => if pending {
            settles(wakes, held, waker, before, after)
        } else {
            before.completed() && after.outcome is None && after.waiters == before.waiters
        },
        Step::GaveUp { held } => exists|left: Option<usize>|
            {
                &&& #[trigger] cancels(before, after, left)
                &&& first_held_told(wakes, before.waiters, held, left)
            },
    }
}

/// `cells` are the contents that a slot goes through when `steps` are taken one
/// after the other.
pub open spec fn goes_through<O, W>(
    wakes: Wakes<W>,
    steps: Seq<Step<W>>,
    cells: Seq<SlotView<O, W>>,
) -> bool {
    &&& cells.len() == steps.len() + 1
    &&& forall|i: int|
        #![trigger steps[i]]
        0 <= i < steps.len() ==> does(wakes, steps[i], cells[i], cells[i + 1])
}

/// The waiter is never told to wake the task of `waker`.
pub open spec fn apart<W>(wakes: Wakes<W>, waiter: W, waker: W) -> bool {
    !(wakes.told)(waiter, waker, true)
}

/// The waiter is none that the step gives up a claim on.
pub open spec fn spared<W>(wakes: Wakes<W>, step: Step<W>, waiter: W) -> bool {
    match step {
        Step::Polled { held: Some(held), .. } => apart(wakes, waiter, held),
        Step::Took { held: Some(held), .. } => apart(wakes, waiter, held),
        Step::GaveUp { held } => apart(wakes, waiter, held),
        _ => true,
    }
}

/// The waiter is none that the steps of a future that waits with `held`, and is
/// polled with `waker`, give up a claim on.
pub open spec fn stranger(held: Option<Waker>, waker: Waker, waiter: Waker) -> bool {
    forall|own: Waker|
        held == Some(own) || cloned(waker, own) ==> #[trigger] apart(task_wakers(), waiter, own)
}

/// Nobody waits any less with `waiter` after than before.
pub open spec fn keeps_waiting<O, W>(
    before: SlotView<O, W>,
    after: SlotView<O, W>,
    waiter: W,
) -> bool {
    &&& held_by(after.waiters, waiter) >= held_by(before.waiters, waiter)
    &&& held_directly(after.waiters, waiter) == held_directly(before.waiters, waiter)
}

/// Some registration that a future holds wakes the task of `waker`: it is told to,
/// or it is a copy of it.
pub open spec fn armed<O, W>(wakes: Wakes<W>, cell: SlotView<O, W>, waker: W) -> bool {
    exists|waiter: W| #[trigger] held_by(cell.waiters, waiter) > 0 && wakes_as(wakes, waiter, waker)
}

/// `waiter` wakes the task of `waker`: it is told to, or it is a copy of it.
pub open spec fn wakes_as<W>(wakes: Wakes<W>, waiter: W, waker: W) -> bool {
    (wakes.told)(waiter, waker, true) || (wakes.copied)(waker, waiter)
}

/// A step takes no claim but the future's own: whoever waits with a waiter that
/// is not told to wake the future's own task waits on.
pub proof fn law_a_step_takes_no_claim_of_another<O, W>(
    wakes: Wakes<W>,
    step: Step<W>,
    before: SlotView<O, W>,
    after: SlotView<O, W>,
    waiter: W,
)
    requires
        does(wakes, step, before, after),
        spared(wakes, step, waiter),
    ensures
        keeps_waiting(before, after, waiter),
{
    match step {
        Step::Polled { held, waker, pending } | Step::Took { held, waker, pending } => {
            if pending {
                let claim = choose|claim: Claim<W>|
                    {
                        &&& #[trigger] claims(before, after, claim)
                        &&& claim_chosen(wakes, before.waiters, held, waker, claim)
                    };
                let found = choose|found: (Option<usize>, bool, Option<usize>, bool)| #[trigger]
                    chosen_by(wakes, before.waiters, held, waker, found, claim);
                law_a_poll_moves_one_claim(before, after, claim, waiter);
                if let Claim::Moved { left: Some(at), .. } = claim {
                    assert(found.0 == Some(at));
                    assert((wakes.told)(before.waiters[at as int].waiter, held->Some_0, true));
                }
            }
        },
        Step::GaveUp { held } => {
            let left = choose|left: Option<usize>|
                {
                    &&& #[trigger] cancels(before, after, left)
                    &&& first_held_told(wakes, before.waiters, held, left)
                };
            law_cancelling_leaves_the_others(before, after, left, waiter);
        },
    }
}

/// A step leaves the outcome as it is, unless it takes it.
pub proof fn law_a_step_keeps_the_outcome<O, W>(
    wakes: Wakes<W>,
    step: Step<W>,
    before: SlotView<O, W>,
    after: SlotView<O, W>,
)
    requires
        does(wakes, step, before, after),
    ensures
        !(step matches Step::Took { pending, .. } && !pending) ==> after.outcome
            == before.outcome,
{
}

/// A poll that stays pending leaves a registration that a future holds and that
/// wakes the polling task.
pub proof fn law_a_pending_step_arms_the_task<O, W>(
    wakes: Wakes<W>,
    held: Option<W>,
    waker: W,
    before: SlotView<O, W>,
    after: SlotView<O, W>,
)
    requires
        settles(wakes, held, waker, before, after),
    ensures
        armed(wakes, after, waker),
{
    let claim = choose|claim: Claim<W>|
        {
            &&& #[trigger] claims(before, after, claim)
            &&& claim_chosen(wakes, before.waiters, held, waker, claim)
        };
    let found = choose|found: (Option<usize>, bool, Option<usize>, bool)| #[trigger]
        chosen_by(wakes, before.waiters, held, waker, found, claim);
    law_a_pending_poll_holds_a_claim(before, after, claim);
    let waiter = claim_waiter(before.waiters, claim);
    assert(held_by(after.waiters, waiter) > 0 && wakes_as(wakes, waiter, waker));
}

/// Completing a slot where a task is armed hands over a waker of that task.
pub proof fn law_an_armed_task_is_woken<O, W>(
    wakes: Wakes<W>,
    waker: W,
    before: SlotView<O, W>,
    after: SlotView<O, W>,
    outcome: O,
    woken: Seq<W>,
)
    requires
        armed(wakes, before, waker),
        !before.completed(),
        publishes(before, after, outcome, woken),
    ensures
        exists|i: int| 0 <= i < woken.len() && wakes_as(wakes, #[trigger] woken[i], waker),
{
    let waiter = choose|waiter: W| #[trigger]
        held_by(before.waiters, waiter) > 0 && wakes_as(wakes, waiter, waker);
    law_completion_wakes_every_waiter(before, after, outcome, woken, waiter);
}

proof fn lemma_other_waits_on<O, W>(
    wakes: Wakes<W>,
    step: Step<W>,
    before: SlotView<O, W>,
    after: SlotView<O, W>,
    waiter: W,
)
    requires
        does(wakes, step, before, after),
        spared(wakes, step, waiter),
        !(step is Took),
    ensures
        keeps_waiting(before, after, waiter),
        after.outcome == before.outcome,
{
    law_a_step_takes_no_claim_of_another(wakes, step, before, after, waiter);
    law_a_step_keeps_the_outcome(wakes, step, before, after);
}

/// The steps by which a record grew.
pub open spec fn grown<W>(before: Seq<Step<W>>, after: Seq<Step<W>>) -> Seq<Step<W>> {
    after.skip(before.len() as int)
}

/// Every poll that a future records is a section that ran at its slot.
pub proof fn lemma_a_recorded_poll_ran<P: Clone>(
    slot: SharedCell<P>,
    held: Option<Waker>,
    waker: Waker,
    answer: (Polled<P>, bool),
)
    requires
        locked(slot, (&held, &waker), poll_in::<P>, answer),
    ensures
        exists|before: SlotView<P, Waker>, after: SlotView<P, Waker>| #[trigger]
            does(
                task_wakers(),
                Step::Polled { held, waker, pending: answer.0 is Pending },
                before,
                after,
            ),
{
    lemma_locked(slot, (&held, &waker), poll_in::<P>, answer);
    let cell = choose|cell: &mut Slot<P, Waker>|
        call_ensures(poll_in::<P>, (cell, (&held, &waker)), answer);
    assert(does(
        task_wakers(),
        Step::Polled { held, waker, pending: answer.0 is Pending },
        (*cell)@,
        (*final(cell))@,
    ));
}

/// Every poll for the outcome itself that is recorded is a section that ran.
pub proof fn lemma_a_recorded_take_ran<P>(
    slot: SharedCell<P>,
    held: Option<Waker>,
    waker: Waker,
    answer: (Polled<P>, bool),
)
    requires
        locked(slot, (&held, &waker), take_in::<P>, answer),
    ensures
        exists|before: SlotView<P, Waker>, after: SlotView<P, Waker>| #[trigger]
            does(
                task_wakers(),
                Step::Took { held, waker, pending: answer.0 is Pending },
                before,
                after,
            ),
{
    lemma_locked(slot, (&held, &waker), take_in::<P>, answer);
    let cell = choose|cell: &mut Slot<P, Waker>|
        call_ensures(take_in::<P>, (cell, (&held, &waker)), answer);
    assert(does(
        task_wakers(),
        Step::Took { held, waker, pending: answer.0 is Pending },
        (*cell)@,
        (*final(cell))@,
    ));
}

/// Every claim that a future records to have given up was given up.
pub proof fn lemma_a_recorded_cancellation_ran<P>(slot: SharedCell<P>, held: Waker)
    requires
        locked(slot, &held, cancel_in::<P>, ()),
    ensures
        exists|before: SlotView<P, Waker>, after: SlotView<P, Waker>| #[trigger]
            does(task_wakers(), Step::GaveUp { held }, before, after),
{
    lemma_locked(slot, &held, cancel_in::<P>, ());
    let cell = choose|cell: &mut Slot<P, Waker>|
        call_ensures(cancel_in::<P>, (cell, &held), ());
    assert(does(task_wakers(), Step::GaveUp { held }, (*cell)@, (*final(cell))@));
}

/// A wait step polls once and, if it times out, gives up the claim that it then
/// has. So it takes no claim of another: over the whole step, whoever waits with a
/// waiter that is not told to wake the waiting thread waits on, and a published
/// outcome stays.
pub proof fn law_a_wait_step_disarms_no_other<O: Clone>(
    before: ObservationFuture<O>,
    waker: Waker,
    expired: bool,
    step: WaitStep<O>,
    after: ObservationFuture<O>,
    cells: Seq<SlotView<Arc<O>, Waker>>,
    waiter: Waker,
)
    requires
        exists|future: &mut ObservationFuture<O>|
            {
                &&& *future == before
                &&& *final(future) == after
                &&& #[trigger] call_ensures(
                    ObservationFuture::<O>::wait_step,
                    (future, &waker, expired),
                    step,
                )
            },
        goes_through(task_wakers(), grown(before.steps(), after.steps()), cells),
        stranger(before.held(), waker, waiter),
    ensures
        before.steps().is_prefix_of(after.steps()),
        grown(before.steps(), after.steps()).len() == if step is TimedOut {
            2int
        } else {
            1
        },
        after.held() is Some <==> step is Park,
        keeps_waiting(cells.first(), cells.last(), waiter),
        cells.last().outcome == cells.first().outcome,
{
    let future = choose|future: &mut ObservationFuture<O>|
        {
            &&& *future == before
            &&& *final(future) == after
            &&& #[trigger] call_ensures(
                ObservationFuture::<O>::wait_step,
                (future, &waker, expired),
                step,
            )
        };
    let between = choose|between: ObservationFuture<O>|
        {
            &&& #[trigger] before.polled(waker, step.polled(), between)
            &&& between.held() is Some <==> step.polled() is Pending
            &&& if step is TimedOut {
                between.cancelled(after)
            } else {
                after == between
            }
        };
    let steps = grown(before.steps(), after.steps());
    let polled = Step::Polled {
        held: before.held(),
        waker,
        pending: step.polled() is Pending,
    };
    if step is TimedOut {
        let given = Step::GaveUp { held: between.held()->Some_0 };
        assert(after.steps() == before.steps().push(polled).push(given));
        assert(steps =~= seq![polled, given]);
        lemma_other_waits_on(task_wakers(), steps[0], cells[0], cells[1], waiter);
        lemma_other_waits_on(task_wakers(), steps[1], cells[1], cells[2], waiter);
    } else {
        assert(after.steps() == before.steps().push(polled));
        assert(steps =~= seq![polled]);
        lemma_other_waits_on(task_wakers(), steps[0], cells[0], cells[1], waiter);
    }
}

/// Cancelling a future gives up the claim that it has, and runs no section if it
/// has none. So whoever waits with a waiter that is not told to wake the future's
/// task waits on, and a published outcome stays; and cancelling a future that does
/// not wait leaves the slot as it was.
pub proof fn law_cancelling_a_future_disarms_no_other<O>(
    before: ObservationFuture<O>,
    after: ObservationFuture<O>,
    cells: Seq<SlotView<Arc<O>, Waker>>,
    waiter: Waker,
)
    requires
        exists|future: &mut ObservationFuture<O>|
            {
                &&& *future == before
                &&& *final(future) == after
                &&& #[trigger] call_ensures(ObservationFuture::<O>::cancel, (future,), ())
            },
        goes_through(task_wakers(), grown(before.steps(), after.steps()), cells),
        before.held() matches Some(held) ==> apart(task_wakers(), waiter, held),
    ensures
        before.steps().is_prefix_of(after.steps()),
        after.held() is None,
        keeps_waiting(cells.first(), cells.last(), waiter),
        cells.last().outcome == cells.first().outcome,
        before.held() is None ==> after.steps() == before.steps() && cells.last()
            == cells.first(),
{
    let future = choose|future: &mut ObservationFuture<O>|
        {
            &&& *future == before
            &&& *final(future) == after
            &&& #[trigger] call_ensures(ObservationFuture::<O>::cancel, (future,), ())
        };
    assert(before.cancelled(after));
    let steps = grown(before.steps(), after.steps());
    if let Some(held) = before.held() {
        assert(steps =~= seq![Step::GaveUp { held }]);
        lemma_other_waits_on(task_wakers(), steps[0], cells[0], cells[1], waiter);
    } else {
        assert(steps =~= Seq::empty());
    }
}

/// Cancelling an affine observation gives up the claim that it has, and runs no
/// section if it has none.
pub proof fn law_cancelling_an_affine_observation_disarms_no_other<O>(
    before: AffineObservation<O>,
    after: AffineObservation<O>,
    cells: Seq<SlotView<O, Waker>>,
    waiter: Waker,
)
    requires
        exists|observation: &mut AffineObservation<O>|
            {
                &&& *observation == before
                &&& *final(observation) == after
                &&& #[trigger] call_ensures(AffineObservation::<O>::cancel, (observation,), ())
            },
        goes_through(task_wakers(), grown(before.steps(), after.steps()), cells),
        before.held() matches Some(held) ==> apart(task_wakers(), waiter, held),
    ensures
        before.steps().is_prefix_of(after.steps()),
        after.held() is None,
        keeps_waiting(cells.first(), cells.last(), waiter),
        cells.last().outcome == cells.first().outcome,
        before.held() is None ==> after.steps() == before.steps() && cells.last()
            == cells.first(),
{
    let observation = choose|observation: &mut AffineObservation<O>|
        {
            &&& *observation == before
            &&& *final(observation) == after
            &&& #[trigger] call_ensures(AffineObservation::<O>::cancel, (observation,), ())
        };
    assert(before.cancelled(after));
    let steps = grown(before.steps(), after.steps());
    if let Some(held) = before.held() {
        assert(steps =~= seq![Step::GaveUp { held }]);
        lemma_other_waits_on(task_wakers(), steps[0], cells[0], cells[1], waiter);
    } else {
        assert(steps =~= Seq::empty());
    }
}

/// A poll of a future is one section. One that stays pending leaves, in the slot
/// as the whole call leaves it, a registration that wakes the polling task, so
/// that completing next hands over a waker of that task; and whoever waits with a
/// waiter that is not told to wake the future's own task waits on.
pub proof fn law_a_pending_poll_is_woken<O: Clone>(
    before: ObservationFuture<O>,
    waker: Waker,
    polled: Polled<O>,
    after: ObservationFuture<O>,
    cells: Seq<SlotView<Arc<O>, Waker>>,
    waiter: Waker,
    completed: SlotView<Arc<O>, Waker>,
    outcome: Arc<O>,
    woken: Seq<Waker>,
)
    requires
        exists|future: &mut ObservationFuture<O>|
            {
                &&& *future == before
                &&& *final(future) == after
                &&& #[trigger] call_ensures(
                    ObservationFuture::<O>::poll,
                    (future, &waker),
                    polled,
                )
            },
        goes_through(task_wakers(), grown(before.steps(), after.steps()), cells),
        before.held() matches Some(held) ==> apart(task_wakers(), waiter, held),
        publishes(cells.last(), completed, outcome, woken),
    ensures
        before.steps().is_prefix_of(after.steps()),
        grown(before.steps(), after.steps()).len() == 1,
        after.held() is Some <==> polled is Pending,
        keeps_waiting(cells.first(), cells.last(), waiter),
        cells.last().outcome == cells.first().outcome,
        polled is Pending ==> {
            &&& armed(task_wakers(), cells.last(), waker)
            &&& completed.outcome == Some(outcome)
            &&& exists|i: int|
                0 <= i < woken.len() && wakes_as(task_wakers(), #[trigger] woken[i], waker)
        },
        polled is Ready ==> cells.last() == cells.first(),
{
    let future = choose|future: &mut ObservationFuture<O>|
        {
            &&& *future == before
            &&& *final(future) == after
            &&& #[trigger] call_ensures(ObservationFuture::<O>::poll, (future, &waker), polled)
        };
    assert(before.polled(waker, polled, after));
    let steps = grown(before.steps(), after.steps());
    let step = Step::Polled { held: before.held(), waker, pending: polled is Pending };
    assert(after.steps() == before.steps().push(step));
    assert(steps =~= seq![step]);
    lemma_other_waits_on(task_wakers(), steps[0], cells[0], cells[1], waiter);
    if polled is Pending {
        law_a_pending_step_arms_the_task(
            task_wakers(),
            before.held(),
            waker,
            cells[0],
            cells[1],
        );
        law_an_armed_task_is_woken(task_wakers(), waker, cells[1], completed, outcome, woken);
    }
}

/// A poll of an affine observation is one section. One that stays pending leaves,
/// in the slot as the whole call leaves it, a registration that wakes the polling
/// task, whether it kept its claim or took a new one, so that completing next
/// hands over a waker of that task. One that resolves moves out the outcome that
/// was there.
pub proof fn law_a_pending_affine_poll_is_woken<O>(
    before: AffineObservation<O>,
    waker: Waker,
    polled: Polled<O>,
    after: AffineObservation<O>,
    cells: Seq<SlotView<O, Waker>>,
    waiter: Waker,
    completed: SlotView<O, Waker>,
    outcome: O,
    woken: Seq<Waker>,
)
    requires
        exists|observation: &mut AffineObservation<O>|
            {
                &&& *observation == before
                &&& *final(observation) == after
                &&& #[trigger] call_ensures(
                    AffineObservation::<O>::poll,
                    (observation, &waker),
                    polled,
                )
            },
        goes_through(task_wakers(), grown(before.steps(), after.steps()), cells),
        before.held() matches Some(held) ==> apart(task_wakers(), waiter, held),
        publishes(cells.last(), completed, outcome, woken),
    ensures
        before.steps().is_prefix_of(after.steps()),
        grown(before.steps(), after.steps()).len() == 1,
        after.held() is Some <==> polled is Pending,
        keeps_waiting(cells.first(), cells.last(), waiter),
        polled is Pending ==> {
            &&& !cells.first().completed()
            &&& armed(task_wakers(), cells.last(), waker)
            &&& completed.outcome == Some(outcome)
            &&& exists|i: int|
                0 <= i < woken.len() && wakes_as(task_wakers(), #[trigger] woken[i], waker)
        },
        polled is Ready ==> cells.first().completed() && cells.last().outcome is None,
{
    let observation = choose|observation: &mut AffineObservation<O>|
        {
            &&& *observation == before
            &&& *final(observation) == after
            &&& #[trigger] call_ensures(
                AffineObservation::<O>::poll,
                (observation, &waker),
                polled,
            )
        };
    assert(before.polled(waker, polled, after));
    let steps = grown(before.steps(), after.steps());
    let step = Step::Took { held: before.held(), waker, pending: polled is Pending };
    assert(after.steps() == before.steps().push(step));
    assert(steps =~= seq![step]);
    assert(does(task_wakers(), steps[0], cells[0], cells[1]));
    law_a_step_takes_no_claim_of_another(
        task_wakers(),
        steps[0],
        cells[0],
        cells[1],
        waiter,
    );
    if polled is Pending {
        law_a_pending_step_arms_the_task(
            task_wakers(),
            before.held(),
            waker,
            cells[0],
            cells[1],
        );
        law_an_armed_task_is_woken(task_wakers(), waker, cells[1], completed, outcome, woken);
    }
}

/// Whatever a future does, as often as it likes, it disarms no other: over all its
/// steps, whoever waits with a waiter that is told to wake none of the tasks that
/// the future waited as waits on, and a published outcome stays.
pub proof fn law_a_whole_record_disarms_no_other<O, W>(
    wakes: Wakes<W>,
    steps: Seq<Step<W>>,
    cells: Seq<SlotView<O, W>>,
    waiter: W,
)
    requires
        goes_through(wakes, steps, cells),
        forall|i: int|
            0 <= i < steps.len() ==> spared(wakes, #[trigger] steps[i], waiter) && !(
            steps[i] is Took),
    ensures
        keeps_waiting(cells.first(), cells.last(), waiter),
        cells.last().outcome == cells.first().outcome,
    decreases steps.len(),
{
    if steps.len() > 0 {
        let rest = steps.drop_last();
        let passed = cells.drop_last();
        assert forall|i: int| #![trigger rest[i]] 0 <= i < rest.len() implies does(
            wakes,
            rest[i],
            passed[i],
            passed[i + 1],
        ) && spared(wakes, rest[i], waiter) && !(rest[i] is Took) by {
            assert(rest[i] == steps[i]);
        }
        law_a_whole_record_disarms_no_other(wakes, rest, passed, waiter);
        let last = steps.len() - 1;
        assert(does(wakes, steps[last], cells[last], cells[last + 1]));
        lemma_other_waits_on(wakes, steps[last], cells[last], cells[last + 1], waiter);
    }
}

/// A waiter that times out is registered no more: among tasks, polling and giving
/// up the claim leaves every claim and every direct registration as they were
/// before it came to wait.
pub proof fn law_a_timed_out_waiter_is_deregistered<O, W>(
    waker: W,
    cells: Seq<SlotView<O, W>>,
    waiter: W,
)
    requires
        goes_through(
            tasks(),
            seq![
                Step::Polled { held: None, waker, pending: true },
                Step::GaveUp { held: waker },
            ],
            cells,
        ),
        room_for_claims(cells.first().waiters),
        distinct_waiters(cells.first().waiters),
    ensures
        held_by(cells.last().waiters, waiter) == held_by(cells.first().waiters, waiter),
        held_directly(cells.last().waiters, waiter) == held_directly(
            cells.first().waiters,
            waiter,
        ),
        cells.last().outcome == cells.first().outcome,
{
    let steps = seq![
        Step::Polled { held: None, waker, pending: true },
        Step::GaveUp { held: waker },
    ];
    assert(does(tasks(), steps[0], cells[0], cells[1]));
    assert(does(tasks(), steps[1], cells[1], cells[2]));
    let claim = choose|claim: Claim<W>|
        {
            &&& #[trigger] claims(cells[0], cells[1], claim)
            &&& claim_chosen(tasks(), cells[0].waiters, None::<W>, waker, claim)
        };
    let left = choose|left: Option<usize>|
        {
            &&& #[trigger] cancels(cells[1], cells[2], left)
            &&& first_held_told(tasks(), cells[1].waiters, waker, left)
        };
    law_a_polled_future_waits_as_the_polling_task(
        cells[0],
        cells[1],
        None,
        waker,
        claim,
        waker,
    );
    law_a_polled_future_waits_as_the_polling_task(
        cells[0],
        cells[1],
        None,
        waker,
        claim,
        waiter,
    );
    law_a_cancelled_future_waits_no_more(cells[1], cells[2], waker, left, waiter);
}

/// What a publication through `slot` comes to: a slot that was pending holds the
/// outcome then, every waiter that was registered is handed over, and every reader
/// of what the slot holds gets a clone of the outcome, however many waiters there
/// were.
pub open spec fn read_by_all<O: Clone>(outcome: O, wakers: Seq<Waker>) -> bool {
    exists|shared: Arc<O>, before: SlotView<Arc<O>, Waker>, after: SlotView<Arc<O>, Waker>|
        {
            &&& #[trigger] publishes(before, after, shared, wakers)
            &&& after.completed()
            &&& !before.completed() ==> after.outcome == Some(shared) && wakers == waiters_of(
                before.waiters,
            )
            &&& forall|read: O| #[trigger] reads(shared, read) ==> cloned(outcome, read)
        }
}

proof fn lemma_published<O: Clone>(slot: SharedSlot<O>, outcome: O, wakers: Vec<Waker>)
    requires
        published_through(slot, outcome, wakers),
    ensures
        read_by_all(outcome, wakers@),
{
    let shared = choose|shared: Arc<O>|
        {
            &&& #[trigger] locked(slot, shared, publish_in::<Arc<O>>, wakers)
            &&& shares(outcome, shared)
        };
    lemma_locked(slot, shared, publish_in::<Arc<O>>, wakers);
    let cell = choose|cell: &mut Slot<Arc<O>, Waker>|
        call_ensures(publish_in::<Arc<O>>, (cell, shared), wakers);
    assert(publishes((*cell)@, (*final(cell))@, shared, wakers@));
    assert forall|read: O| #[trigger] reads(shared, read) implies cloned(outcome, read) by {
        law_a_read_gives_back_what_was_published(outcome, shared, read);
    }
}

/// Completing a pair publishes the outcome that was given, for every reader.
pub proof fn law_a_completed_pair_is_read_by_all<O: Clone>(
    publisher: Publisher<O>,
    slot: SharedSlot<O>,
    outcome: O,
    wakers: Vec<Waker>,
)
    requires
        call_ensures(Publisher::<O>::complete, (publisher, outcome), wakers),
        publisher.destination() == Destination::Shared(slot),
    ensures
        published_through(slot, outcome, wakers),
        read_by_all(outcome, wakers@),
{
    lemma_published(slot, outcome, wakers);
}

/// Completing a subject publishes the outcome that was given, for every reader.
pub proof fn law_a_completed_subject_is_read_by_all<K, O: Clone>(
    before: Subject<K, O>,
    after: Subject<K, O>,
    outcome: O,
    wakers: Vec<Waker>,
)
    requires
        exists|subject: &mut Subject<K, O>|
            {
                &&& *subject == before
                &&& *final(subject) == after
                &&& #[trigger] call_ensures(Subject::<K, O>::complete, (subject, outcome), wakers)
            },
    ensures
        after.is_completed(),
        after.slot() == before.slot(),
        published_through(before.slot(), outcome, wakers),
        read_by_all(outcome, wakers@),
{
    let subject = choose|subject: &mut Subject<K, O>|
        {
            &&& *subject == before
            &&& *final(subject) == after
            &&& #[trigger] call_ensures(Subject::<K, O>::complete, (subject, outcome), wakers)
        };
    assert(published_through(before.slot(), outcome, wakers));
    lemma_published(before.slot(), outcome, wakers);
}

/// Completing an affine pair publishes the outcome that was given: a cell that was
/// pending holds it then, and every waiter that was registered is handed over.
pub proof fn law_a_completed_affine_pair_holds_the_outcome<O>(
    publisher: Publisher<O>,
    slot: SharedCell<O>,
    outcome: O,
    wakers: Vec<Waker>,
)
    requires
        call_ensures(Publisher::<O>::complete, (publisher, outcome), wakers),
        publisher.destination() == Destination::Affine(slot),
    ensures
        exists|before: SlotView<O, Waker>, after: SlotView<O, Waker>|
            {
                &&& #[trigger] publishes(before, after, outcome, wakers@)
                &&& after.completed()
                &&& !before.completed() ==> after.outcome == Some(outcome) && wakers@
                    == waiters_of(before.waiters)
            },
{
    lemma_locked(slot, outcome, publish_in::<O>, wakers);
    let cell = choose|cell: &mut Slot<O, Waker>|
        call_ensures(publish_in::<O>, (cell, outcome), wakers);
    assert(publishes((*cell)@, (*final(cell))@, outcome, wakers@));
}

/// A clone of an observation is an observation of the same slot, whatever that slot
/// holds: there is nothing that cloning could find out about it, or do to it.
pub proof fn law_a_clone_observes_the_same_slot<O, S>(
    observation: Observation<O, S>,
    copy: Observation<O, S>,
)
    requires
        cloned(observation, copy),
    ensures
        copy.slot() == observation.slot(),
{
}

/// Registering a waker takes nobody's claim: whoever waits, with whatever waiter,
/// waits on, and the outcome stays.
pub proof fn law_registering_disarms_nobody<O, W>(
    before: SlotView<O, W>,
    after: SlotView<O, W>,
    target: Target<W>,
    completed: bool,
    waiter: W,
)
    requires
        registers_waiter(before, after, target, completed),
    ensures
        held_by(after.waiters, waiter) == held_by(before.waiters, waiter),
        held_directly(before.waiters, waiter) ==> held_directly(after.waiters, waiter),
        after.outcome == before.outcome,
{
    if !completed {
        law_direct_registration_adds_only_itself(before.waiters, target, waiter);
    }
}

} // verus!
