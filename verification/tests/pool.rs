//! Recycled slots: no generation leaks into the next through one, and every
//! outcome is destroyed exactly once, well beyond the pool's capacity.

use observe::observation::WaitStep;
use observe::probe::{CountWake, DropProbe};
use observe::space::{ObservationSpace, Subject, SubjectError};
use std::hash::Hash;
use std::sync::atomic::Ordering;

/// A subject that retires when it is dropped.
struct Live<K: Eq + Hash + Clone, O> {
    subject: Option<Subject<K, O>>,
}

impl<K: Eq + Hash + Clone, O> Live<K, O> {
    fn at(space: &ObservationSpace<K, O>, key: K) -> Result<Self, SubjectError<K>> {
        space.subject(key).map(|subject| Live { subject: Some(subject) })
    }

    fn complete(&mut self, outcome: O) {
        for waker in self.subject.as_mut().expect("live subject").complete(outcome) {
            waker.wake();
        }
    }
}

impl<K: Eq + Hash + Clone, O> Drop for Live<K, O> {
    fn drop(&mut self) {
        if let Some(subject) = self.subject.take() {
            assert!(subject.retire(), "a live subject was not retained");
        }
    }
}

#[test]
fn pool_churn_drops_each_outcome_exactly_once() {
    const GENERATIONS: u64 = 300;
    let space = ObservationSpace::<u64, DropProbe>::new();
    let mut counters = Vec::new();
    for generation in 0..GENERATIONS {
        let (probe, counter) = DropProbe::new(generation);
        counters.push(counter);
        let mut subject = Live::at(&space, generation).expect("fresh key");
        subject.complete(probe);
    }

    drop(space);
    for (generation, counter) in counters.iter().enumerate() {
        assert_eq!(
            counter.load(Ordering::SeqCst),
            1,
            "generation {generation} outcome dropped != 1 times"
        );
    }
}

#[test]
fn recycled_slot_never_leaks_previous_generation() {
    let space = ObservationSpace::<u32, u64>::new();
    let mut first = Live::at(&space, 7).expect("first registration succeeds");
    first.complete(111);
    drop(first);

    let mut second = Live::at(&space, 7).expect("retired key is registrable");
    let obs = space.observe(&7).expect("replacement retained");
    assert_eq!(
        obs.try_get(),
        None,
        "replacement generation must start pending"
    );
    second.complete(222);
    assert_eq!(obs.try_get(), Some(222));
}

#[test]
fn pinned_observation_isolates_generations() {
    let space = ObservationSpace::<u32, u64>::new();
    let mut first = Live::at(&space, 9).expect("first registration succeeds");
    first.complete(111);
    let old = space.observe(&9).expect("completed generation observable");

    drop(first);
    let mut second = Live::at(&space, 9).expect("retired key is registrable");
    let new = space.observe(&9).expect("replacement retained");
    assert_eq!(new.try_get(), None, "replacement starts pending");
    second.complete(222);

    assert_eq!(old.try_get(), Some(111), "old generation keeps its outcome");
    assert_eq!(new.try_get(), Some(222), "new generation sees only its own");
}

#[test]
fn stale_waiter_slot_reuse_is_clean() {
    let space = ObservationSpace::<u32, u64>::new();
    let subject = Live::at(&space, 5).expect("first registration succeeds");
    let obs = space.observe(&5).expect("subject retained");
    let (timed_waker, timed_probe) = CountWake::waker();
    assert_eq!(
        obs.clone().into_future().wait_step(&timed_waker, true),
        WaitStep::TimedOut
    );
    let (stale_waker, stale_probe) = CountWake::waker();
    assert!(!obs.register_waker(&stale_waker));
    drop(obs);
    drop(subject);

    let mut second = Live::at(&space, 5).expect("retired key is registrable");
    let (waker, probe) = CountWake::waker();
    let obs2 = space.observe(&5).expect("replacement retained");
    assert!(!obs2.register_waker(&waker));
    second.complete(77);

    assert_eq!(timed_probe.count(), 0);
    assert_eq!(
        stale_probe.count(),
        0,
        "a stale waiter must not fire across generations"
    );
    assert_eq!(probe.count(), 1, "the live waiter fires exactly once");
    assert_eq!(obs2.try_get(), Some(77));
}

#[test]
fn cross_key_pool_reuse_is_clean() {
    let space = ObservationSpace::<u32, u64>::new();
    let mut a = Live::at(&space, 1).expect("key A registrable");
    a.complete(10);
    drop(a);

    let mut b = Live::at(&space, 2).expect("key B registrable");
    let obs_b = space.observe(&2).expect("key B observable");
    assert_eq!(obs_b.try_get(), None, "no outcome leaks across keys");
    b.complete(20);
    assert_eq!(obs_b.try_get(), Some(20));

    let mut a2 = Live::at(&space, 1).expect("key A registrable again");
    a2.complete(30);
    assert_eq!(space.observe(&1).expect("key A observable").try_get(), Some(30));
}

#[test]
fn orphaned_observation_keeps_and_moves_outcome_exactly_once() {
    let space = ObservationSpace::<u32, DropProbe>::new();
    let (probe, counter) = DropProbe::new(1);
    let mut subject = Live::at(&space, 3).expect("first registration succeeds");
    subject.complete(probe);
    let obs = space.observe(&3).expect("completed generation observable");
    drop(subject);

    drop(space);
    assert_eq!(
        counter.load(Ordering::SeqCst),
        0,
        "orphan keeps the outcome alive inside the pinned slot"
    );
    let outcome = obs.into_outcome().expect("last handle moves the outcome");
    assert_eq!(outcome.tag, 1);
    drop(outcome);
    assert_eq!(
        counter.load(Ordering::SeqCst),
        1,
        "outcome dropped exactly once"
    );
}

#[test]
fn uncompleted_generation_recycles_without_fabricating() {
    let space = ObservationSpace::<u32, u64>::new();
    let subject = Live::at(&space, 8).expect("first registration succeeds");
    let orphan = space.observe(&8).expect("subject retained");
    drop(subject);

    let mut second = Live::at(&space, 8).expect("retired key is registrable");
    let obs = space.observe(&8).expect("replacement retained");
    assert_eq!(obs.try_get(), None);
    second.complete(55);
    assert_eq!(obs.try_get(), Some(55));
    assert_eq!(
        orphan.try_get(),
        None,
        "orphan of an uncompleted generation must stay pending"
    );
}

#[test]
fn into_outcome_then_full_teardown_drops_exactly_once() {
    let (probe, counter) = DropProbe::new(2);
    let outcome = {
        let space = ObservationSpace::<u32, DropProbe>::new();
        let mut subject = Live::at(&space, 4).expect("first registration succeeds");
        subject.complete(probe);
        let obs = space.observe(&4).expect("completed generation observable");
        drop(subject);
        obs.into_outcome().expect("last handle moves the outcome")
    };
    assert_eq!(outcome.tag, 2);
    assert_eq!(counter.load(Ordering::SeqCst), 0, "moved outcome still live");
    drop(outcome);
    assert_eq!(counter.load(Ordering::SeqCst), 1, "dropped exactly once");
}

#[test]
fn pool_overflow_with_live_observers_drops_exactly_once() {
    const GENERATIONS: u32 = 200;
    let space = ObservationSpace::<u32, DropProbe>::new();
    let mut counters = Vec::new();
    let mut observations = Vec::new();
    for key in 0..GENERATIONS {
        let (probe, counter) = DropProbe::new(u64::from(key));
        counters.push(counter);
        let mut subject = Live::at(&space, key).expect("fresh key");
        subject.complete(probe);
        observations.push(space.observe(&key).expect("observable"));
    }

    drop(space);
    drop(observations);
    for (key, counter) in counters.iter().enumerate() {
        assert_eq!(
            counter.load(Ordering::SeqCst),
            1,
            "key {key} outcome dropped != 1 times"
        );
    }
}

#[test]
fn recycled_after_into_outcome_never_redrops() {
    let space = ObservationSpace::<u32, DropProbe>::new();
    let (probe, counter) = DropProbe::new(3);
    let mut subject = Live::at(&space, 6).expect("first registration succeeds");
    subject.complete(probe);
    let obs = space.observe(&6).expect("completed generation observable");
    drop(subject);
    let outcome = obs.into_outcome().expect("last handle moves the outcome");
    drop(outcome);
    assert_eq!(counter.load(Ordering::SeqCst), 1);
    drop(space);
    assert_eq!(
        counter.load(Ordering::SeqCst),
        1,
        "a moved outcome is not dropped again at teardown"
    );
}

#[test]
fn pending_into_outcome_consumes_registered_waker_silently() {
    for round in 0..50_u64 {
        let space = ObservationSpace::<u8, u64>::new();
        let subject = Live::at(&space, 1).expect("first registration succeeds");
        let obs = space.observe(&1).expect("subject retained");
        let (waker, probe) = CountWake::waker();
        assert!(!obs.register_waker(&waker), "pending: registration stored");
        drop(subject);

        assert_eq!(
            obs.into_outcome(),
            None,
            "a pending generation has no outcome (round {round})"
        );
        assert_eq!(
            probe.count(),
            0,
            "a consumed pending slot must never fire its wakers (round {round})"
        );
    }
}

#[test]
fn completed_into_outcome_fires_waker_then_moves_outcome() {
    for round in 0..50_u64 {
        let space = ObservationSpace::<u8, u64>::new();
        let mut subject = Live::at(&space, 1).expect("first registration succeeds");
        let obs = space.observe(&1).expect("subject retained");
        let (waker, probe) = CountWake::waker();
        assert!(!obs.register_waker(&waker), "pending: registration stored");

        subject.complete(round);
        assert_eq!(
            probe.count(),
            1,
            "the drain must fire the registered waker exactly once (round {round})"
        );
        drop(subject);

        assert_eq!(
            obs.into_outcome(),
            Some(round),
            "into_outcome must move the completed outcome (round {round})"
        );
        assert_eq!(
            probe.count(),
            1,
            "the take must not fire the waker again (round {round})"
        );
    }
}

#[test]
fn recycled_slot_waiter_traffic_stays_exactly_once() {
    let space = ObservationSpace::<u32, u64>::new();
    for round in 0..8_u32 {
        let mut subject = Live::at(&space, round).expect("fresh key each round");
        let probes: Vec<_> = (0..4).map(|_| CountWake::waker()).collect();
        for (waker, _) in &probes {
            let obs = space.observe(&round).expect("subject retained");
            assert!(!obs.register_waker(waker));
        }
        subject.complete(u64::from(round));
        for (i, (_, probe)) in probes.iter().enumerate() {
            assert_eq!(
                probe.count(),
                1,
                "round {round} waiter {i} woken != 1 times"
            );
        }
    }
}

#[test]
fn retired_key_is_vacant_and_can_be_taken_again() {
    let space = ObservationSpace::<u32, u64>::new();
    let first = space.subject(4).expect("first registration succeeds");
    let other = space.subject(9).expect("fresh key");
    assert!(first.retire());
    assert!(space.observe(&4).is_err(), "a retired key cannot be observed");
    assert!(space.observe(&9).is_ok(), "other keys stay retained");

    let second = space.subject(4).expect("retired key is registrable");
    assert_eq!(space.observe(&4).expect("replacement retained").try_get(), None);
    assert!(second.retire());
    assert!(other.retire());
}

#[test]
fn readings_outlive_retirement_and_replacement() {
    let space = ObservationSpace::<u32, u64>::new();
    let mut first = Live::at(&space, 2).expect("first registration succeeds");
    let observation = space.observe(&2).expect("subject retained");
    first.complete(11);
    assert_eq!(observation.try_get(), Some(11));
    drop(first);

    let mut second = Live::at(&space, 2).expect("retired key is registrable");
    second.complete(12);
    assert_eq!(observation.try_get(), Some(11));
    drop(second);
    assert_eq!(observation.into_outcome(), Some(11));
}
