//! Races, one schedule at a time: every operation is one critical section, so a
//! race is some order of operations, and every order is tried.

use observe::observation::{Observation, WaitStep};
use observe::probe::{poll_once, CountWake};
use observe::slot::Polled;
use observe::space::{ObservationSpace, Subject};
use std::task::Waker;

fn wake_all(wakers: Vec<Waker>) {
    for waker in wakers {
        waker.wake();
    }
}

fn wait_now(observation: &Observation<u64>) -> Option<u64> {
    let (waker, _) = CountWake::waker();
    match observation.clone().into_future().wait_step(&waker, false) {
        WaitStep::Ready(outcome) => Some(outcome),
        _ => None,
    }
}

#[test]
fn observe_racing_complete_never_loses_outcome() {
    for reads_before in 0..3 {
        let space: ObservationSpace<u64, u64> = ObservationSpace::new();
        let mut subject = space.subject(7_u64).unwrap();
        let observation = space.observe(&7_u64).unwrap();
        for _ in 0..reads_before {
            assert_eq!(observation.try_get(), None);
        }
        wake_all(subject.complete(42_u64));
        assert_eq!(observation.try_get(), Some(42_u64));
    }
}

#[test]
fn stale_retire_cannot_remove_replacement() {
    for attempts_before in 0..3 {
        let space: ObservationSpace<u64, u64> = ObservationSpace::new();
        let subject_one = space.subject(7_u64).unwrap();
        for _ in 0..attempts_before {
            assert!(space.subject(7_u64).is_err());
        }
        assert!(subject_one.retire());
        let _replacement = space.subject(7_u64).unwrap();
        assert!(space.observe(&7_u64).is_ok());
        assert!(space.subject(7_u64).is_err());
    }
}

#[test]
fn concurrent_subject_one_winner() {
    let space: ObservationSpace<u64, u64> = ObservationSpace::new();
    let other = space.clone();
    for first_wins in [false, true] {
        let (first_result, second_result) = if first_wins {
            let first = space.subject(7_u64);
            (first, other.subject(7_u64))
        } else {
            let second = other.subject(7_u64);
            (space.subject(7_u64), second)
        };
        assert_eq!(
            u8::from(first_result.is_ok()) + u8::from(second_result.is_ok()),
            1
        );
        for winner in [first_result, second_result].into_iter().flatten() {
            assert!(winner.retire());
        }
    }
}

#[test]
fn waiter_wakes_with_outcome() {
    for registers_first in [false, true] {
        let space: ObservationSpace<u64, u64> = ObservationSpace::new();
        let mut subject = space.subject(7_u64).unwrap();
        let mut waiting = space.observe(&7_u64).unwrap().into_future();
        let (waker, probe) = CountWake::waker();
        if registers_first {
            assert_eq!(waiting.wait_step(&waker, false), WaitStep::Park);
        }
        wake_all(subject.complete(9_u64));
        assert_eq!(probe.count(), usize::from(registers_first));
        assert_eq!(waiting.wait_step(&waker, false), WaitStep::Ready(9_u64));
    }
}

#[test]
fn late_observer_reads_retained_outcome() {
    let space: ObservationSpace<u64, u64> = ObservationSpace::new();
    let mut subject = space.subject(7_u64).unwrap();
    wake_all(subject.complete(5_u64));
    let observation = space.observe(&7_u64).unwrap();
    assert_eq!(observation.try_get(), Some(5_u64));
}

#[test]
fn pooled_slot_reuse_isolates_generations() {
    let space: ObservationSpace<u64, u64> = ObservationSpace::new();
    {
        let mut subject = space.subject(7_u64).unwrap();
        wake_all(subject.complete(1_u64));
        assert!(subject.retire());
    }
    let mut subject = space.subject(7_u64).unwrap();
    let observation = space.observe(&7_u64).unwrap();
    assert_eq!(observation.try_get(), None);
    wake_all(subject.complete(2_u64));
    assert_eq!(observation.try_get(), Some(2_u64));
}

#[test]
fn small_map_promotion_preserves_semantics() {
    let space: ObservationSpace<u64, u64> = ObservationSpace::new();
    let mut subjects = Vec::new();
    for key in 0..5_u64 {
        subjects.push(space.subject(key).expect("fresh key"));
    }
    for key in 0..5_u64 {
        assert!(space.observe(&key).is_ok());
    }
    for subject in subjects {
        assert!(subject.retire());
    }
    assert!(space.subject(0_u64).is_ok());
}

#[test]
fn multiple_waiters_all_wake() {
    let space: ObservationSpace<u64, u64> = ObservationSpace::new();
    let mut subject = space.subject(7_u64).unwrap();
    let mut first = space.observe(&7_u64).unwrap().into_future();
    let mut second = space.observe(&7_u64).unwrap().into_future();
    let (first_waker, first_probe) = CountWake::waker();
    let (second_waker, second_probe) = CountWake::waker();
    assert_eq!(first.wait_step(&first_waker, false), WaitStep::Park);
    assert_eq!(second.wait_step(&second_waker, false), WaitStep::Park);
    wake_all(subject.complete(9_u64));
    assert_eq!((first_probe.count(), second_probe.count()), (1, 1));
    assert_eq!(first.wait_step(&first_waker, false), WaitStep::Ready(9_u64));
    assert_eq!(second.wait_step(&second_waker, false), WaitStep::Ready(9_u64));
}

#[test]
fn waiter_after_completion_returns_immediately() {
    let space: ObservationSpace<u64, u64> = ObservationSpace::new();
    let mut subject = space.subject(7_u64).unwrap();
    wake_all(subject.complete(4_u64));
    let observation = space.observe(&7_u64).unwrap();
    assert_eq!(wait_now(&observation), Some(4_u64));
}

#[derive(Debug, PartialEq, Eq)]
struct Handle(u64);

#[test]
fn into_outcome_racing_complete() {
    for taken_after in 0..3 {
        let space: ObservationSpace<u64, Handle> = ObservationSpace::new();
        let mut subject = space.subject(7_u64).unwrap();
        let mut observation = Some(space.observe(&7_u64).unwrap());
        let mut result = None;
        if taken_after == 0 {
            result = observation.take().unwrap().into_outcome();
        }
        wake_all(subject.complete(Handle(9)));
        if taken_after == 1 {
            result = observation.take().unwrap().into_outcome();
        }
        subject.retire();
        if taken_after == 2 {
            result = observation.take().unwrap().into_outcome();
            assert_eq!(result, Some(Handle(9)));
        }
        assert!(result.is_none() || result == Some(Handle(9)));
    }
}

#[test]
fn wait_timeout_wakes_with_outcome() {
    let space: ObservationSpace<u64, u64> = ObservationSpace::new();
    let mut subject = space.subject(7_u64).unwrap();
    let mut waiting = space.observe(&7_u64).unwrap().into_future();
    let (waker, probe) = CountWake::waker();
    assert_eq!(waiting.wait_step(&waker, false), WaitStep::Park);
    wake_all(subject.complete(9_u64));
    assert_eq!(probe.count(), 1);
    assert_eq!(waiting.wait_step(&waker, true), WaitStep::Ready(9_u64));
}

#[test]
fn future_resolves_in_every_order_of_poll_and_completion() {
    for polls_before in 0..3 {
        let space: ObservationSpace<u64, u64> = ObservationSpace::new();
        let mut subject: Subject<u64, u64> = space.subject(7_u64).unwrap();
        let mut future = space.observe(&7_u64).unwrap().into_future();
        let (waker, probe) = CountWake::waker();
        for _ in 0..polls_before {
            assert_eq!(poll_once(&mut future, &waker), Polled::Pending);
        }
        wake_all(subject.complete(9_u64));
        assert_eq!(probe.count(), usize::from(polls_before > 0));
        assert_eq!(poll_once(&mut future, &waker), Polled::Ready(9_u64));
    }
}
