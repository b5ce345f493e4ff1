//! Direct pairs: publication, retained fan-out, cancellation, destruction and
//! isolation without a keyed namespace.

use observe::observation::{Observation, WaitStep};
use observe::pair::pair;
use observe::probe::{poll_once, CountWake, DropProbe};
use observe::slot::Polled;
use std::sync::atomic::Ordering;
use std::task::Waker;

fn wake_all(wakers: Vec<Waker>) {
    for waker in wakers {
        waker.wake();
    }
}

/// One step of a blocking wait whose deadline has passed.
fn wait_expired(observation: &Observation<u64>) -> Option<u64> {
    let (waker, _) = CountWake::waker();
    match observation.clone().into_future().wait_step(&waker, true) {
        WaitStep::Ready(outcome) => Some(outcome),
        WaitStep::TimedOut => None,
        WaitStep::Park => panic!("an expired wait parked"),
    }
}

#[test]
fn pair_starts_pending_and_completion_is_retained() {
    let (publisher, observation) = pair::<u64>();
    assert_eq!(observation.try_get(), None);
    wake_all(publisher.complete(41));
    assert_eq!(observation.try_get(), Some(41));
    assert_eq!(observation.try_get(), Some(41));
}

#[test]
fn observations_cloned_before_and_after_completion_share_one_fact() {
    let (publisher, first) = pair::<String>();
    let second = first.clone();
    wake_all(publisher.complete("terminal".to_owned()));
    let third = first.clone();
    for observation in [&first, &second, &third] {
        assert_eq!(observation.try_get().as_deref(), Some("terminal"));
    }
}

#[test]
fn timeout_cancellation_does_not_change_other_observers() {
    let (publisher, timed) = pair::<u64>();
    let survivor = timed.clone();
    assert_eq!(wait_expired(&timed), None);
    wake_all(publisher.complete(12));
    let (waker, _) = CountWake::waker();
    assert_eq!(
        survivor.into_future().wait_step(&waker, false),
        WaitStep::Ready(12)
    );
}

#[test]
fn dropping_incomplete_publisher_leaves_observations_pending() {
    let (publisher, observation) = pair::<u64>();
    drop(publisher);
    assert_eq!(observation.try_get(), None);
    assert_eq!(wait_expired(&observation), None);
}

#[test]
fn dropping_one_observation_cannot_cancel_siblings() {
    let (publisher, cancelled) = pair::<u64>();
    let survivor = cancelled.clone();
    drop(cancelled);
    wake_all(publisher.complete(88));
    assert_eq!(survivor.try_get(), Some(88));
}

#[test]
fn pair_cancelled_future_waker_never_fires() {
    let (publisher, observation) = pair::<u64>();
    let (waker, probe) = CountWake::waker();
    let mut future = observation.into_future();
    assert_eq!(poll_once(&mut future, &waker), Polled::Pending);
    future.cancel();
    drop(future);
    wake_all(publisher.complete(1));
    assert_eq!(probe.count(), 0);
}

#[test]
fn cancelling_shared_waker_sibling_keeps_survivor_registered() {
    let (publisher, first) = pair::<u64>();
    let second = first.clone();
    let (waker, probe) = CountWake::waker();
    let mut first = first.into_future();
    let mut second = second.into_future();
    assert_eq!(poll_once(&mut first, &waker), Polled::Pending);
    assert_eq!(poll_once(&mut second, &waker), Polled::Pending);
    first.cancel();
    wake_all(publisher.complete(55));
    assert!(probe.count() >= 1);
    assert_eq!(poll_once(&mut second, &waker), Polled::Ready(55));
}

#[test]
fn direct_and_future_waker_ownership_survive_sibling_cancellation() {
    let (publisher, direct) = pair::<u64>();
    let future_observation = direct.clone();
    let (waker, probe) = CountWake::waker();
    assert!(!direct.register_waker(&waker));
    let mut future = future_observation.into_future();
    assert_eq!(poll_once(&mut future, &waker), Polled::Pending);
    future.cancel();
    wake_all(publisher.complete(21));
    assert_eq!(probe.count(), 1);
    assert_eq!(direct.try_get(), Some(21));
}

#[test]
fn independent_pairs_cannot_leak_outcomes() {
    let (first_publisher, first) = pair::<u64>();
    let (second_publisher, second) = pair::<u64>();
    wake_all(first_publisher.complete(1));
    assert_eq!(first.try_get(), Some(1));
    assert_eq!(second.try_get(), None);
    wake_all(second_publisher.complete(2));
    assert_eq!(first.try_get(), Some(1));
    assert_eq!(second.try_get(), Some(2));
}

#[test]
fn completed_pair_outcome_is_destroyed_exactly_once() {
    let (probe, drops) = DropProbe::new(7);
    let (publisher, observation) = pair();
    let clone = observation.clone();
    wake_all(publisher.complete(probe));
    drop(observation);
    assert_eq!(drops.load(Ordering::SeqCst), 0);
    drop(clone);
    assert_eq!(drops.load(Ordering::SeqCst), 1);
}

#[test]
fn pending_pair_has_no_outcome_to_destroy() {
    let (publisher, observation) = pair::<DropProbe>();
    drop(publisher);
    drop(observation);
}

#[derive(Debug, PartialEq, Eq)]
struct MoveOnly(String);

#[test]
fn move_only_outcome_can_be_taken_by_last_observation() {
    let (publisher, observation) = pair();
    wake_all(publisher.complete(MoveOnly("owned".to_owned())));
    assert_eq!(
        observation.into_outcome(),
        Some(MoveOnly("owned".to_owned()))
    );
}

struct MoveOnlyUnit;

#[test]
fn shared_move_only_outcome_cannot_be_taken() {
    let (publisher, observation) = pair();
    let survivor = observation.clone();
    wake_all(publisher.complete(MoveOnlyUnit));
    assert!(observation.into_outcome().is_none());
    assert!(survivor.into_outcome().is_some());
}

#[test]
fn completion_hands_over_wakers_in_registration_order() {
    let (publisher, observation) = pair::<u64>();
    let (first, first_probe) = CountWake::waker();
    let (second, second_probe) = CountWake::waker();
    assert!(!observation.register_waker(&first));
    assert!(!observation.register_waker(&second));
    let mut woken = publisher.complete(5).into_iter();
    woken.next().unwrap().wake();
    assert_eq!((first_probe.count(), second_probe.count()), (1, 0));
    woken.next().unwrap().wake();
    assert_eq!((first_probe.count(), second_probe.count()), (1, 1));
    assert!(woken.next().is_none());
}
