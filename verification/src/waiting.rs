//! What holds of a completion cell whatever its users do, in whatever order:
//! published outcomes stay, and no waiter is lost.

use crate::observation::{
    cancels, chosen_by, claim_chosen, claims, direct_aim, first_held_told, holds_at, polls,
    publishes, registers_waiter, Wakes,
};
use crate::pair::takes;
use crate::slot::{
    all_claimed, holdable_target, valid_claim, valid_target, waiters_of, with_claim, with_direct,
    with_holder, without_holder, Claim, Polled, Registration, SlotView, Target,
};
use vstd::prelude::*;

verus! {

/// How many futures hold a claim on `waiter`.
pub open spec fn held_by<W>(registered: Seq<Registration<W>>, waiter: W) -> nat
    decreases registered.len(),
{
    if registered.len() == 0 {
        0
    } else {
        held_by(registered.drop_last(), waiter) + if registered.last().waiter == waiter {
            registered.last().holders as nat
        } else {
            0
        }
    }
}

/// `waiter` has been registered directly.
pub open spec fn held_directly<W>(registered: Seq<Registration<W>>, waiter: W) -> bool {
    exists|i: int|
        0 <= i < registered.len() && #[trigger] registered[i].direct && registered[i].waiter
            == waiter
}

/// The waiter that a claim on `target` is for.
pub open spec fn target_waiter<W>(registered: Seq<Registration<W>>, target: Target<W>) -> W {
    match target {
        Target::Known(at) => registered[at as int].waiter,
        Target::New(waiter) => waiter,
    }
}

/// One, if a claim on `claimed` is a claim on `waiter`.
pub open spec fn counts<W>(claimed: W, waiter: W) -> int {
    if claimed == waiter {
        1
    } else {
        0
    }
}

proof fn lemma_held_push<W>(registered: Seq<Registration<W>>, added: Registration<W>, waiter: W)
    ensures
        held_by(registered.push(added), waiter) == held_by(registered, waiter) + if added.waiter
            == waiter {
            added.holders as int
        } else {
            0
        },
{
    assert(registered.push(added).drop_last() == registered);
}

proof fn lemma_held_update<W>(
    registered: Seq<Registration<W>>,
    at: int,
    changed: Registration<W>,
    waiter: W,
)
    requires
        0 <= at < registered.len(),
        changed.waiter == registered[at].waiter,
    ensures
        held_by(registered.update(at, changed), waiter) == held_by(registered, waiter)
            + if changed.waiter == waiter {
            changed.holders - registered[at].holders
        } else {
            0
        },
    decreases registered.len(),
{
    if at == registered.len() - 1 {
        assert(registered.update(at, changed).drop_last() == registered.drop_last());
    } else {
        lemma_held_update(registered.drop_last(), at, changed, waiter);
        assert(registered.update(at, changed).drop_last() == registered.drop_last().update(
            at,
            changed,
        ));
    }
}

proof fn lemma_held_remove<W>(registered: Seq<Registration<W>>, at: int, waiter: W)
    requires
        0 <= at < registered.len(),
    ensures
        held_by(registered.remove(at), waiter) == held_by(registered, waiter)
            - if registered[at].waiter == waiter {
            registered[at].holders as int
        } else {
            0
        },
    decreases registered.len(),
{
    if at == registered.len() - 1 {
        assert(registered.remove(at) == registered.drop_last());
    } else {
        lemma_held_remove(registered.drop_last(), at, waiter);
        assert(registered.remove(at).drop_last() == registered.drop_last().remove(at));
    }
}

/// Some future holds a claim exactly where the count is not zero.
proof fn lemma_held_somewhere<W>(registered: Seq<Registration<W>>, waiter: W)
    requires
        held_by(registered, waiter) > 0,
    ensures
        waiters_of(registered).contains(waiter),
    decreases registered.len(),
{
    let last = registered.last();
    if last.waiter == waiter && last.holders > 0 {
        assert(waiters_of(registered)[registered.len() - 1] == waiter);
    } else {
        lemma_held_somewhere(registered.drop_last(), waiter);
        let i = choose|i: int|
            0 <= i < registered.len() - 1 && waiters_of(registered.drop_last())[i] == waiter;
        assert(waiters_of(registered)[i] == waiter);
    }
}

/// One more future's claim counts for its waiter, and for no other.
pub proof fn law_a_claim_counts_once<W>(
    registered: Seq<Registration<W>>,
    target: Target<W>,
    waiter: W,
)
    requires
        holdable_target(registered, target),
    ensures
        held_by(with_holder(registered, target), waiter) == held_by(registered, waiter) + counts(
            target_waiter(registered, target),
            waiter,
        ),
        held_directly(with_holder(registered, target), waiter) == held_directly(
            registered,
            waiter,
        ),
{
    let after = with_holder(registered, target);
    match target {
        Target::Known(at) => {
            lemma_held_update(registered, at as int, after[at as int], waiter);
        },
        Target::New(new) => {
            lemma_held_push(registered, after.last(), waiter);
        },
    }
    if held_directly(registered, waiter) {
        let i = choose|i: int|
            0 <= i < registered.len() && #[trigger] registered[i].direct && registered[i].waiter
                == waiter;
        assert(after[i].direct && after[i].waiter == waiter);
    }
    if held_directly(after, waiter) {
        let i = choose|i: int|
            0 <= i < after.len() && #[trigger] after[i].direct && after[i].waiter == waiter;
        assert(registered[i].direct && registered[i].waiter == waiter);
    }
}

/// Giving a claim up takes one from its waiter's count, and nothing from any
/// other; direct registrations stay.
pub proof fn law_giving_up_takes_one_claim<W>(
    registered: Seq<Registration<W>>,
    at: int,
    waiter: W,
)
    requires
        0 <= at < registered.len(),
        registered[at].holders > 0,
    ensures
        held_by(without_holder(registered, at), waiter) == held_by(registered, waiter) - counts(
            registered[at].waiter,
            waiter,
        ),
        held_directly(without_holder(registered, at), waiter) == held_directly(
            registered,
            waiter,
        ),
{
    let left = Registration {
        holders: (registered[at].holders - 1) as usize,
        ..registered[at]
    };
    let after = without_holder(registered, at);
    if left.claimed() {
        lemma_held_update(registered, at, left, waiter);
    } else {
        lemma_held_remove(registered, at, waiter);
    }
    if held_directly(registered, waiter) {
        let i = choose|i: int|
            0 <= i < registered.len() && #[trigger] registered[i].direct && registered[i].waiter
                == waiter;
        if left.claimed() || i < at {
            assert(after[i].direct && after[i].waiter == waiter);
        } else {
            assert(after[i - 1].direct && after[i - 1].waiter == waiter);
        }
    }
    if held_directly(after, waiter) {
        let i = choose|i: int|
            0 <= i < after.len() && #[trigger] after[i].direct && after[i].waiter == waiter;
        if left.claimed() || i < at {
            assert(registered[i].direct && registered[i].waiter == waiter);
        } else {
            assert(registered[i + 1].direct && registered[i + 1].waiter == waiter);
        }
    }
}

/// A direct registration is there afterwards, takes none from anybody, and
/// leaves the futures' claims as they are.
pub proof fn law_direct_registration_adds_only_itself<W>(
    registered: Seq<Registration<W>>,
    target: Target<W>,
    waiter: W,
)
    requires
        valid_target(registered, target),
    ensures
        held_by(with_direct(registered, target), waiter) == held_by(registered, waiter),
        held_directly(with_direct(registered, target), waiter) <==> held_directly(
            registered,
            waiter,
        ) || waiter == target_waiter(registered, target),
{
    let after = with_direct(registered, target);
    match target {
        Target::Known(at) => {
            lemma_held_update(registered, at as int, after[at as int], waiter);
            assert(after[at as int].direct);
        },
        Target::New(new) => {
            lemma_held_push(registered, after.last(), waiter);
            assert(after[registered.len() as int].direct);
        },
    }
    if held_directly(registered, waiter) {
        let i = choose|i: int|
            0 <= i < registered.len() && #[trigger] registered[i].direct && registered[i].waiter
                == waiter;
        assert(after[i].direct && after[i].waiter == waiter);
    }
    if held_directly(after, waiter) && waiter != target_waiter(registered, target) {
        let i = choose|i: int|
            0 <= i < after.len() && #[trigger] after[i].direct && after[i].waiter == waiter;
        assert(registered[i].direct && registered[i].waiter == waiter);
    }
}

/// Registering a waiter directly a second time changes nothing.
pub proof fn law_direct_registration_is_idempotent<W>(
    registered: Seq<Registration<W>>,
    target: Target<W>,
    at: usize,
)
    requires
        valid_target(registered, target),
        match target {
            Target::Known(known) => at == known,
            Target::New(_) => at == registered.len(),
        },
    ensures
        with_direct(with_direct(registered, target), Target::Known(at)) == with_direct(
            registered,
            target,
        ),
{
    let once = with_direct(registered, target);
    assert(with_direct(once, Target::Known(at)) =~= once);
}

/// A future that claims and gives up leaves the registrations as it found them.
pub proof fn law_cancelling_undoes_a_claim<W>(
    registered: Seq<Registration<W>>,
    target: Target<W>,
    at: usize,
)
    requires
        all_claimed(registered),
        holdable_target(registered, target),
        match target {
            Target::Known(known) => at == known,
            Target::New(_) => at == registered.len(),
        },
    ensures
        without_holder(with_holder(registered, target), at as int) == registered,
{
    assert(without_holder(with_holder(registered, target), at as int) =~= registered);
}

/// Completion wakes every waiter that somebody still waits with: each one that
/// a future holds, and each one that was registered directly.
pub proof fn law_completion_wakes_every_waiter<O, W>(
    before: SlotView<O, W>,
    after: SlotView<O, W>,
    outcome: O,
    woken: Seq<W>,
    waiter: W,
)
    requires
        publishes(before, after, outcome, woken),
        !before.completed(),
        held_by(before.waiters, waiter) > 0 || held_directly(before.waiters, waiter),
    ensures
        woken.contains(waiter),
{
    if held_by(before.waiters, waiter) > 0 {
        lemma_held_somewhere(before.waiters, waiter);
    } else {
        let i = choose|i: int|
            0 <= i < before.waiters.len() && #[trigger] before.waiters[i].direct
                && before.waiters[i].waiter == waiter;
        assert(waiters_of(before.waiters)[i] == waiter);
    }
}

/// Completion wakes nobody whose claims have all been given up.
pub proof fn law_completion_wakes_no_cancelled_waiter<O, W>(
    before: SlotView<O, W>,
    after: SlotView<O, W>,
    outcome: O,
    woken: Seq<W>,
    waiter: W,
)
    requires
        before.inv(),
        publishes(before, after, outcome, woken),
        held_by(before.waiters, waiter) == 0,
        !held_directly(before.waiters, waiter),
    ensures
        !woken.contains(waiter),
{
    if woken.contains(waiter) {
        let i = choose|i: int| 0 <= i < woken.len() && woken[i] == waiter;
        let registration = before.waiters[i];
        assert(registration.claimed());
        assert(registration.waiter == waiter);
        if registration.direct {
            assert(held_directly(before.waiters, waiter));
        } else {
            lemma_held_remove(before.waiters, i, waiter);
            assert(held_by(before.waiters, waiter) >= registration.holders);
        }
    }
}

/// The waiter that a polled future waits with from now on.
pub open spec fn claim_waiter<W>(registered: Seq<Registration<W>>, claim: Claim<W>) -> W {
    match claim {
        Claim::Kept(at) => registered[at as int].waiter,
        Claim::Moved { target, .. } => target_waiter(registered, target),
    }
}

/// What settling a claim adds to the number of claims on `waiter`.
pub open spec fn claim_change<W>(
    registered: Seq<Registration<W>>,
    claim: Claim<W>,
    waiter: W,
) -> int {
    match claim {
        Claim::Kept(_) => 0,
        Claim::Moved { left: None, target } => counts(target_waiter(registered, target), waiter),
        Claim::Moved { left: Some(at), target } => counts(
            target_waiter(registered, target),
            waiter,
        ) - counts(registered[at as int].waiter, waiter),
    }
}

/// A poll that stays pending moves at most the polling future's own claim: it
/// comes to the new waiter and leaves the old one, and every other claim stays
/// as it is.
pub proof fn law_a_poll_moves_one_claim<O, W>(
    before: SlotView<O, W>,
    after: SlotView<O, W>,
    claim: Claim<W>,
    waiter: W,
)
    requires
        claims(before, after, claim),
    ensures
        held_by(after.waiters, waiter) == held_by(before.waiters, waiter) + claim_change(
            before.waiters,
            claim,
            waiter,
        ),
        held_directly(after.waiters, waiter) == held_directly(before.waiters, waiter),
{
    match claim {
        Claim::Kept(_) => {},
        Claim::Moved { left, target } => {
            law_a_claim_counts_once(before.waiters, target, waiter);
            if let Some(at) = left {
                let held = with_holder(before.waiters, target);
                assert(held[at as int].waiter == before.waiters[at as int].waiter);
                law_giving_up_takes_one_claim(held, at as int, waiter);
            }
        },
    }
}

/// A poll that stays pending leaves the polling future with a claim on the
/// waiter that it was polled with.
pub proof fn law_a_pending_poll_holds_a_claim<O, W>(
    before: SlotView<O, W>,
    after: SlotView<O, W>,
    claim: Claim<W>,
)
    requires
        claims(before, after, claim),
    ensures
        held_by(after.waiters, claim_waiter(before.waiters, claim)) > 0,
{
    let waiter = claim_waiter(before.waiters, claim);
    law_a_poll_moves_one_claim(before, after, claim, waiter);
    match claim {
        Claim::Kept(at) => {
            lemma_held_remove(before.waiters, at as int, waiter);
        },
        Claim::Moved { left: Some(at), .. } => {
            lemma_held_remove(before.waiters, at as int, waiter);
        },
        Claim::Moved { left: None, .. } => {},
    }
}

/// Cancelling a future takes its own claim and no other: siblings that wait
/// with the same waiter, and direct registrations, stay.
pub proof fn law_cancelling_leaves_the_others<O, W>(
    before: SlotView<O, W>,
    after: SlotView<O, W>,
    left: Option<usize>,
    waiter: W,
)
    requires
        cancels(before, after, left),
    ensures
        held_by(after.waiters, waiter) == held_by(before.waiters, waiter) - match left {
            Some(at) => counts(before.waiters[at as int].waiter, waiter),
            None => 0,
        },
        held_directly(after.waiters, waiter) == held_directly(before.waiters, waiter),
        after.outcome == before.outcome,
{
    if let Some(at) = left {
        law_giving_up_takes_one_claim(before.waiters, at as int, waiter);
    }
}

/// A registration that races completion is never lost: either it is told that
/// the outcome is there, or completion wakes it.
pub proof fn law_registration_never_misses_completion<O, W>(
    before: SlotView<O, W>,
    between: SlotView<O, W>,
    after: SlotView<O, W>,
    target: Target<W>,
    completed: bool,
    outcome: O,
    woken: Seq<W>,
)
    requires
        registers_waiter(before, between, target, completed),
        publishes(between, after, outcome, woken),
    ensures
        completed <==> between.completed(),
        !completed ==> woken.contains(target_waiter(before.waiters, target)),
        after.completed(),
{
    if !completed {
        let waiter = target_waiter(before.waiters, target);
        law_direct_registration_adds_only_itself(before.waiters, target, waiter);
        law_completion_wakes_every_waiter(between, after, outcome, woken, waiter);
    }
}

/// A poll that races completion is never lost: either it gets the outcome, or
/// completion wakes the task and the outcome is there.
pub proof fn law_a_poll_never_misses_completion<O: Clone, W>(
    before: SlotView<O, W>,
    between: SlotView<O, W>,
    after: SlotView<O, W>,
    claim: Claim<W>,
    polled: Polled<O>,
    outcome: O,
    woken: Seq<W>,
)
    requires
        polls(before, between, claim, polled),
        publishes(between, after, outcome, woken),
    ensures
        match polled {
            Polled::Ready(read) => before.completed() && cloned(before.outcome->Some_0, read),
            Polled::Pending => {
                &&& woken.contains(claim_waiter(before.waiters, claim))
                &&& after.outcome == Some(outcome)
            },
        },
{
    if polled is Pending {
        let waiter = claim_waiter(before.waiters, claim);
        law_a_pending_poll_holds_a_claim(before, between, claim);
        law_completion_wakes_every_waiter(between, after, outcome, woken, waiter);
    }
}

/// A published outcome is permanent: registering, polling, cancelling and a
/// second completion leave it as it is.
pub proof fn law_a_published_outcome_stays<O: Clone, W>(
    before: SlotView<O, W>,
    after: SlotView<O, W>,
    target: Target<W>,
    completed: bool,
    claim: Claim<W>,
    polled: Polled<O>,
    left: Option<usize>,
    outcome: O,
    woken: Seq<W>,
)
    requires
        before.completed(),
        registers_waiter(before, after, target, completed) || polls(before, after, claim, polled)
            || cancels(before, after, left) || publishes(before, after, outcome, woken),
    ensures
        after.outcome == before.outcome,
{
}

/// Nothing but completion publishes: registering, polling and cancelling leave
/// a pending cell pending.
pub proof fn law_only_completion_publishes<O: Clone, W>(
    before: SlotView<O, W>,
    after: SlotView<O, W>,
    target: Target<W>,
    completed: bool,
    claim: Claim<W>,
    polled: Polled<O>,
    left: Option<usize>,
)
    requires
        !before.completed(),
        registers_waiter(before, after, target, completed) || polls(before, after, claim, polled)
            || cancels(before, after, left),
    ensures
        !after.completed(),
{
}

proof fn lemma_direct_keeps_claims<W>(registered: Seq<Registration<W>>, target: Target<W>)
    requires
        all_claimed(registered),
        valid_target(registered, target),
    ensures
        all_claimed(with_direct(registered, target)),
{
}

proof fn lemma_holder_keeps_claims<W>(registered: Seq<Registration<W>>, target: Target<W>)
    requires
        all_claimed(registered),
        holdable_target(registered, target),
    ensures
        all_claimed(with_holder(registered, target)),
{
}

proof fn lemma_giving_up_keeps_claims<W>(registered: Seq<Registration<W>>, at: int)
    requires
        all_claimed(registered),
        0 <= at < registered.len(),
        registered[at].holders > 0,
    ensures
        all_claimed(without_holder(registered, at)),
{
}

proof fn lemma_settling_keeps_claims<W>(registered: Seq<Registration<W>>, claim: Claim<W>)
    requires
        all_claimed(registered),
        valid_claim(registered, claim),
    ensures
        all_claimed(with_claim(registered, claim)),
{
    if let Claim::Moved { left, target } = claim {
        lemma_holder_keeps_claims(registered, target);
        if let Some(at) = left {
            lemma_giving_up_keeps_claims(with_holder(registered, target), at as int);
        }
    }
}

/// Registering keeps the cell invariant.
pub proof fn law_registering_keeps_the_cell_invariant<O, W>(
    before: SlotView<O, W>,
    after: SlotView<O, W>,
    target: Target<W>,
)
    requires
        before.inv(),
        registers_waiter(before, after, target, false),
    ensures
        after.inv(),
{
    lemma_direct_keeps_claims(before.waiters, target);
}

/// A poll that stays pending keeps the cell invariant.
pub proof fn law_polling_keeps_the_cell_invariant<O, W>(
    before: SlotView<O, W>,
    after: SlotView<O, W>,
    claim: Claim<W>,
)
    requires
        before.inv(),
        claims(before, after, claim),
    ensures
        after.inv(),
{
    lemma_settling_keeps_claims(before.waiters, claim);
}

/// Cancelling keeps the cell invariant.
pub proof fn law_cancelling_keeps_the_cell_invariant<O, W>(
    before: SlotView<O, W>,
    after: SlotView<O, W>,
    left: Option<usize>,
)
    requires
        before.inv(),
        cancels(before, after, left),
    ensures
        after.inv(),
{
    if let Some(at) = left {
        lemma_giving_up_keeps_claims(before.waiters, at as int);
    }
}

/// Whatever is done to a cell, nobody waits in it for an outcome that is there,
/// and every registration in it stands on a claim.
pub proof fn law_every_use_keeps_the_cell_invariant<O: Clone, W>(
    before: SlotView<O, W>,
    after: SlotView<O, W>,
    target: Target<W>,
    completed: bool,
    claim: Claim<W>,
    polled: Polled<O>,
    left: Option<usize>,
    outcome: O,
    woken: Seq<W>,
)
    requires
        before.inv(),
        registers_waiter(before, after, target, completed) || polls(before, after, claim, polled)
            || takes(before, after, claim, polled) || cancels(before, after, left) || publishes(
            before,
            after,
            outcome,
            woken,
        ),
    ensures
        after.inv(),
{
    if registers_waiter(before, after, target, completed) {
        if !completed {
            law_registering_keeps_the_cell_invariant(before, after, target);
        }
    } else if polls(before, after, claim, polled) || takes(before, after, claim, polled) {
        if polled is Pending {
            law_polling_keeps_the_cell_invariant(before, after, claim);
        }
    } else if cancels(before, after, left) {
        law_cancelling_keeps_the_cell_invariant(before, after, left);
    }
}

/// An outcome that is taken moves exactly once: the cell is empty afterwards,
/// and the next poll finds nothing.
pub proof fn law_an_outcome_is_taken_once<O, W>(
    before: SlotView<O, W>,
    between: SlotView<O, W>,
    after: SlotView<O, W>,
    first: Claim<W>,
    second: Claim<W>,
    outcome: O,
    polled: Polled<O>,
)
    requires
        takes(before, between, first, Polled::Ready(outcome)),
        takes(between, after, second, polled),
    ensures
        before.outcome == Some(outcome),
        polled is Pending,
{
}

/// Waiters that stand for tasks: they are told apart without fail.
pub open spec fn tasks<W>() -> Wakes<W> {
    Wakes {
        told: |waiter: W, waker: W, same: bool| same == (waiter == waker),
        copied: |waker: W, copy: W| waker == copy,
    }
}

/// No task is registered twice.
pub open spec fn distinct_waiters<W>(registered: Seq<Registration<W>>) -> bool {
    forall|i: int, j: int|
        0 <= i < j < registered.len() ==> registered[i].waiter != registered[j].waiter
}

/// No registration has so many claims that it cannot take another.
pub open spec fn room_for_claims<W>(registered: Seq<Registration<W>>) -> bool {
    forall|i: int| 0 <= i < registered.len() ==> (#[trigger] registered[i]).holders < usize::MAX
}

/// What `held` counts for `waiter`.
pub open spec fn counts_held<W>(held: Option<W>, waiter: W) -> int {
    match held {
        Some(claimed) => counts(claimed, waiter),
        None => 0,
    }
}

/// A claim is somewhere if it is counted.
proof fn lemma_held_at<W>(registered: Seq<Registration<W>>, waiter: W) -> (at: int)
    requires
        held_by(registered, waiter) > 0,
    ensures
        0 <= at < registered.len(),
        registered[at].waiter == waiter,
        registered[at].holders > 0,
    decreases registered.len(),
{
    let last = registered.last();
    if last.waiter == waiter && last.holders > 0 {
        registered.len() - 1
    } else {
        lemma_held_at(registered.drop_last(), waiter)
    }
}

/// The claim of a future that waits as `held` is found where it is counted.
proof fn lemma_claim_found<W>(registered: Seq<Registration<W>>, held: Option<W>, at: Option<usize>)
    requires
        holds_at(tasks(), registered, held, at),
        held matches Some(waiter) ==> held_by(registered, waiter) > 0,
    ensures
        match held {
            Some(waiter) => {
                &&& at is Some
                &&& at->Some_0 < registered.len()
                &&& registered[at->Some_0 as int].waiter == waiter
                &&& registered[at->Some_0 as int].holders > 0
            },
            None => at is None,
        },
{
    if let Some(waiter) = held {
        let somewhere = lemma_held_at(registered, waiter);
        if at is None {
            assert((tasks::<W>().told)(registered[somewhere].waiter, waiter, false));
        }
    }
}

proof fn lemma_holder_keeps_distinct<W>(
    registered: Seq<Registration<W>>,
    waker: W,
    target: Target<W>,
)
    requires
        distinct_waiters(registered),
        holdable_target(registered, target),
        direct_aim(tasks(), registered, waker, target),
    ensures
        distinct_waiters(with_holder(registered, target)),
        distinct_waiters(with_direct(registered, target)),
        target_waiter(registered, target) == waker,
{
    if target is New {
        assert forall|i: int| 0 <= i < registered.len() implies (#[trigger] registered[i]).waiter
            != waker by {
            assert((tasks::<W>().told)(registered[i].waiter, waker, false));
        }
    }
}

proof fn lemma_giving_up_keeps_distinct<W>(registered: Seq<Registration<W>>, at: int)
    requires
        distinct_waiters(registered),
        0 <= at < registered.len(),
    ensures
        distinct_waiters(without_holder(registered, at)),
{
}

/// Among tasks, a poll that stays pending moves the polling future's claim from
/// the task that it waited as to the task that it was polled as, registers no
/// task twice, and touches nothing else: a migrating future leaves its old task.
pub proof fn law_a_polled_future_waits_as_the_polling_task<O, W>(
    before: SlotView<O, W>,
    after: SlotView<O, W>,
    held: Option<W>,
    waker: W,
    claim: Claim<W>,
    waiter: W,
)
    requires
        claims(before, after, claim),
        claim_chosen(tasks(), before.waiters, held, waker, claim),
        held matches Some(claimed) ==> held_by(before.waiters, claimed) > 0,
        room_for_claims(before.waiters),
        distinct_waiters(before.waiters),
    ensures
        held_by(after.waiters, waiter) == held_by(before.waiters, waiter) + counts(waker, waiter)
            - counts_held(held, waiter),
        held_directly(after.waiters, waiter) == held_directly(before.waiters, waiter),
        distinct_waiters(after.waiters),
{
    let found = choose|found: (Option<usize>, bool, Option<usize>, bool)| #[trigger]
        chosen_by(tasks(), before.waiters, held, waker, found, claim);
    let (at, same, known, full) = found;
    lemma_claim_found(before.waiters, held, at);
    law_a_poll_moves_one_claim(before, after, claim, waiter);
    if !same {
        if let Some(i) = known {
            assert(before.waiters[i as int].holders < usize::MAX);
        }
        assert(claim is Moved);
        let left = claim->left;
        let target = claim->target;
        assert(direct_aim(tasks(), before.waiters, waker, target));
        lemma_holder_keeps_distinct(before.waiters, waker, target);
        if let Some(i) = left {
            lemma_giving_up_keeps_distinct(with_holder(before.waiters, target), i as int);
        }
    }
}

/// Among tasks, cancelling a future takes its own claim and nothing else.
pub proof fn law_a_cancelled_future_waits_no_more<O, W>(
    before: SlotView<O, W>,
    after: SlotView<O, W>,
    held: W,
    left: Option<usize>,
    waiter: W,
)
    requires
        cancels(before, after, left),
        first_held_told(tasks(), before.waiters, held, left),
        held_by(before.waiters, held) > 0,
        distinct_waiters(before.waiters),
    ensures
        held_by(after.waiters, waiter) == held_by(before.waiters, waiter) - counts(held, waiter),
        held_directly(after.waiters, waiter) == held_directly(before.waiters, waiter),
        distinct_waiters(after.waiters),
{
    lemma_claim_found(before.waiters, Some(held), left);
    law_cancelling_leaves_the_others(before, after, left, waiter);
    if let Some(at) = left {
        lemma_giving_up_keeps_distinct(before.waiters, at as int);
    }
}

/// Among tasks, a direct registration registers the given task, once, and
/// touches nothing else.
pub proof fn law_a_registered_waker_waits<O, W>(
    before: SlotView<O, W>,
    after: SlotView<O, W>,
    waker: W,
    target: Target<W>,
    waiter: W,
)
    requires
        registers_waiter(before, after, target, false),
        direct_aim(tasks(), before.waiters, waker, target),
        distinct_waiters(before.waiters),
    ensures
        held_by(after.waiters, waiter) == held_by(before.waiters, waiter),
        held_directly(after.waiters, waiter) <==> held_directly(before.waiters, waiter) || waiter
            == waker,
        distinct_waiters(after.waiters),
{
    law_direct_registration_adds_only_itself(before.waiters, target, waiter);
    if target is New {
        assert forall|i: int| 0 <= i < before.waiters.len() implies (
        #[trigger] before.waiters[i]).waiter != waker by {
            assert((tasks::<W>().told)(before.waiters[i].waiter, waker, false));
        }
    }
}

} // verus!
