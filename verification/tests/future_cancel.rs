//! Cancellation: futures observing the same generation with shared or migrated
//! wakers. Cancelling one future must never disarm another live one, and a
//! cancelled future's waker must never fire.

use observe::probe::{poll_once, CountWake};
use observe::slot::Polled;
use observe::space::ObservationSpace;
use std::task::Waker;

fn wake_all(wakers: Vec<Waker>) {
    for waker in wakers {
        waker.wake();
    }
}

#[test]
fn cancelled_sibling_future_keeps_survivor_wakeable() {
    let space = ObservationSpace::<u32, u64>::new();
    let mut subject = space.subject(7).expect("first registration succeeds");
    let obs1 = space.observe(&7).expect("subject retained");
    let obs2 = space.observe(&7).expect("subject retained");
    let (waker, probe) = CountWake::waker();

    let mut f1 = obs1.into_future();
    let mut f2 = obs2.into_future();
    assert_eq!(poll_once(&mut f1, &waker), Polled::Pending);
    assert_eq!(poll_once(&mut f2, &waker), Polled::Pending);

    f1.cancel();
    drop(f1);
    wake_all(subject.complete(42));

    assert!(
        probe.count() >= 1,
        "completion must wake the surviving future's waker; got {} wakes",
        probe.count()
    );
    assert_eq!(poll_once(&mut f2, &waker), Polled::Ready(42));
}

#[test]
fn cancelled_siblings_leave_last_survivor_wakeable() {
    let space = ObservationSpace::<u32, u64>::new();
    let mut subject = space.subject(3).expect("first registration succeeds");
    let (waker, probe) = CountWake::waker();

    let mut futures: Vec<_> = (0..3)
        .map(|_| space.observe(&3).expect("subject retained").into_future())
        .collect();
    for f in &mut futures {
        assert_eq!(poll_once(f, &waker), Polled::Pending);
    }
    futures.remove(0).cancel();
    futures.remove(0).cancel();

    wake_all(subject.complete(9));
    assert!(
        probe.count() >= 1,
        "completion must wake the surviving future's waker; got {} wakes",
        probe.count()
    );
    assert_eq!(poll_once(&mut futures[0], &waker), Polled::Ready(9));
}

#[test]
fn future_cancel_cancelled_future_waker_never_fires() {
    let space = ObservationSpace::<u32, u64>::new();
    let mut subject = space.subject(11).expect("first registration succeeds");
    let (waker, probe) = CountWake::waker();

    {
        let obs = space.observe(&11).expect("subject retained");
        let mut f = obs.into_future();
        assert_eq!(poll_once(&mut f, &waker), Polled::Pending);
        f.cancel();
    }

    wake_all(subject.complete(1));
    assert_eq!(
        probe.count(),
        0,
        "a cancelled future's waker must never fire"
    );
}

#[test]
fn cancelled_migrated_future_fires_neither_waker() {
    let space = ObservationSpace::<u32, u64>::new();
    let mut subject = space.subject(13).expect("first registration succeeds");
    let (waker_a, probe_a) = CountWake::waker();
    let (waker_b, probe_b) = CountWake::waker();

    {
        let obs = space.observe(&13).expect("subject retained");
        let mut f = obs.into_future();
        assert_eq!(poll_once(&mut f, &waker_a), Polled::Pending);
        assert_eq!(poll_once(&mut f, &waker_b), Polled::Pending);
        f.cancel();
    }

    wake_all(subject.complete(5));
    assert_eq!(probe_a.count(), 0, "pre-migration waker must not fire");
    assert_eq!(probe_b.count(), 0, "post-migration waker must not fire");
}

#[test]
fn cancel_one_of_two_independent_futures_wakes_only_survivor() {
    let space = ObservationSpace::<u32, u64>::new();
    let mut subject = space.subject(17).expect("first registration succeeds");
    let (waker_a, probe_a) = CountWake::waker();
    let (waker_b, probe_b) = CountWake::waker();

    let obs_a = space.observe(&17).expect("subject retained");
    let obs_b = space.observe(&17).expect("subject retained");
    let mut fa = obs_a.into_future();
    let mut fb = obs_b.into_future();
    assert_eq!(poll_once(&mut fa, &waker_a), Polled::Pending);
    assert_eq!(poll_once(&mut fb, &waker_b), Polled::Pending);

    fa.cancel();
    wake_all(subject.complete(77));

    assert_eq!(probe_a.count(), 0, "cancelled future's waker must not fire");
    assert!(
        probe_b.count() >= 1,
        "surviving future's waker must fire at completion"
    );
    assert_eq!(poll_once(&mut fb, &waker_b), Polled::Ready(77));
}

#[test]
fn cancel_after_completion_is_unobservable() {
    let space = ObservationSpace::<u32, u64>::new();
    let mut subject = space.subject(19).expect("first registration succeeds");
    let (waker, _probe) = CountWake::waker();

    let obs = space.observe(&19).expect("subject retained");
    let mut f = obs.into_future();
    assert_eq!(poll_once(&mut f, &waker), Polled::Pending);
    wake_all(subject.complete(23));
    assert_eq!(poll_once(&mut f, &waker), Polled::Ready(23));
    f.cancel();
}

#[test]
fn same_waker_registered_twice_fires_once() {
    for round in 0..50_u64 {
        let space = ObservationSpace::<u32, u64>::new();
        let mut subject = space.subject(37).expect("first registration succeeds");
        let obs_a = space.observe(&37).expect("subject retained");
        let obs_b = space.observe(&37).expect("subject retained");
        let (waker, probe) = CountWake::waker();

        assert!(
            !obs_a.register_waker(&waker),
            "pending: registration stored"
        );
        assert!(
            !obs_b.register_waker(&waker),
            "deduped re-registration still reports pending (round {round})"
        );
        wake_all(subject.complete(round));

        assert_eq!(
            probe.count(),
            1,
            "a will_wake-deduped registration must fire exactly once (round {round})"
        );
        assert_eq!(obs_a.try_get(), Some(round));
        assert_eq!(obs_b.try_get(), Some(round));
    }
}

#[test]
fn many_distinct_wakers_leave_only_latest_registered() {
    const POLLS: usize = 50;
    let space = ObservationSpace::<u32, u64>::new();
    let mut subject = space.subject(31).expect("first registration succeeds");

    let obs = space.observe(&31).expect("subject retained");
    let mut f = obs.into_future();
    let mut probes = Vec::new();
    for _ in 0..POLLS {
        let (waker, probe) = CountWake::waker();
        assert_eq!(poll_once(&mut f, &waker), Polled::Pending);
        probes.push(probe);
    }
    wake_all(subject.complete(99));
    for (i, probe) in probes[..POLLS - 1].iter().enumerate() {
        assert_eq!(probe.count(), 0, "migrated-away waker {i} fired");
    }
    assert_eq!(
        probes[POLLS - 1].count(),
        1,
        "latest waker did not fire once"
    );
    assert_eq!(
        poll_once(&mut f, &CountWake::waker().0),
        Polled::Ready(99)
    );
    f.cancel();
}

#[test]
fn cancelled_future_steals_direct_waker_registration() {
    let space = ObservationSpace::<u32, u64>::new();
    let mut subject = space.subject(41).expect("first registration succeeds");
    let obs1 = space.observe(&41).expect("subject retained");
    let obs2 = space.observe(&41).expect("subject retained");
    let (waker, probe) = CountWake::waker();

    assert!(!obs1.register_waker(&waker), "pending: registration stored");
    let mut f2 = obs2.into_future();
    assert_eq!(poll_once(&mut f2, &waker), Polled::Pending);
    f2.cancel();

    wake_all(subject.complete(43));
    assert!(
        probe.count() >= 1,
        "the direct registration must fire at completion; got {} wakes",
        probe.count()
    );
}

#[test]
fn repolled_survivor_heals_registration() {
    let space = ObservationSpace::<u32, u64>::new();
    let mut subject = space.subject(29).expect("first registration succeeds");
    let (waker, probe) = CountWake::waker();

    let obs1 = space.observe(&29).expect("subject retained");
    let obs2 = space.observe(&29).expect("subject retained");
    let mut f1 = obs1.into_future();
    let mut f2 = obs2.into_future();
    assert_eq!(poll_once(&mut f1, &waker), Polled::Pending);
    assert_eq!(poll_once(&mut f2, &waker), Polled::Pending);
    f1.cancel();

    assert_eq!(poll_once(&mut f2, &waker), Polled::Pending);
    wake_all(subject.complete(31));
    assert!(
        probe.count() >= 1,
        "re-polled survivor must be woken at completion"
    );
}

#[test]
fn same_waker_across_two_generations_survivor_resolves() {
    for round in 0..50_u64 {
        let space = ObservationSpace::<u32, u64>::new();
        let mut subject_a = space.subject(23).expect("first registration succeeds");
        let mut subject_b = space.subject(29).expect("second registration succeeds");
        let obs_a = space.observe(&23).expect("subject retained");
        let obs_b = space.observe(&29).expect("subject retained");
        let (waker, probe) = CountWake::waker();

        let mut fa = obs_a.into_future();
        let mut fb = obs_b.into_future();
        assert_eq!(poll_once(&mut fa, &waker), Polled::Pending);
        assert_eq!(poll_once(&mut fb, &waker), Polled::Pending);

        fa.cancel();
        wake_all(subject_b.complete(round));

        assert_eq!(
            probe.count(),
            1,
            "shared waker fired != once (round {round}): per-generation entries must drain exactly once"
        );
        assert_eq!(poll_once(&mut fb, &waker), Polled::Ready(round));

        wake_all(subject_a.complete(round));
        assert_eq!(probe.count(), 1);
    }
}

#[test]
fn cancelled_tasks_stay_silent_when_the_slot_is_reused() {
    let space = ObservationSpace::<u32, u64>::new();
    let first = space.subject(5).expect("first registration succeeds");
    let (early_waker, early) = CountWake::waker();
    let (late_waker, late) = CountWake::waker();
    let mut future = space.observe(&5).expect("subject retained").into_future();
    assert_eq!(poll_once(&mut future, &early_waker), Polled::Pending);
    assert_eq!(poll_once(&mut future, &late_waker), Polled::Pending);
    future.cancel();
    drop(future);
    assert!(first.retire());

    let mut second = space.subject(5).expect("retired key is registrable");
    let (waker, probe) = CountWake::waker();
    let mut other = space.observe(&5).expect("replacement retained").into_future();
    assert_eq!(poll_once(&mut other, &waker), Polled::Pending);
    wake_all(second.complete(8));
    assert_eq!((early.count(), late.count(), probe.count()), (0, 0, 1));
}

#[test]
fn cancelled_tasks_stay_silent_in_their_own_generation() {
    let space = ObservationSpace::<u32, u64>::new();
    let mut subject = space.subject(5).expect("first registration succeeds");
    let (early_waker, early) = CountWake::waker();
    let (late_waker, late) = CountWake::waker();
    let mut future = space.observe(&5).expect("subject retained").into_future();
    assert_eq!(poll_once(&mut future, &early_waker), Polled::Pending);
    assert_eq!(poll_once(&mut future, &late_waker), Polled::Pending);
    future.cancel();
    assert!(subject.complete(3).is_empty());
    assert_eq!((early.count(), late.count()), (0, 0));
}
