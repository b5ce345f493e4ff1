//! Races between several handles, over every order in which their operations can
//! take effect.

use observe::observation::{Observation, ObservationFuture, WaitStep};
use observe::probe::{poll_once, CountWake};
use observe::slot::Polled;
use observe::space::{ObservationSpace, Subject};
use std::sync::Arc;
use std::task::Waker;

fn wake_all(wakers: Vec<Waker>) {
    for waker in wakers {
        waker.wake();
    }
}

fn walk(left: &mut Vec<usize>, order: &mut Vec<usize>, run: &mut impl FnMut(&[usize])) {
    if left.iter().all(|&steps| steps == 0) {
        run(order);
        return;
    }
    for party in 0..left.len() {
        if left[party] > 0 {
            left[party] -= 1;
            order.push(party);
            walk(left, order, run);
            order.pop();
            left[party] += 1;
        }
    }
}

/// Every order of the parties' steps; `steps` says how many each party takes.
fn every_order(steps: &[usize], mut run: impl FnMut(&[usize])) {
    walk(&mut steps.to_vec(), &mut Vec::new(), &mut run);
}

/// A thread that blocks until the outcome is there: it steps once, and again
/// whenever it has been woken.
struct Waiter {
    future: ObservationFuture<u64>,
    waker: Waker,
    probe: Arc<CountWake>,
    seen: usize,
    outcome: Option<u64>,
    started: bool,
}

impl Waiter {
    fn on(observation: Observation<u64>) -> Self {
        let (waker, probe) = CountWake::waker();
        Waiter {
            future: observation.into_future(),
            waker,
            probe,
            seen: 0,
            outcome: None,
            started: false,
        }
    }

    /// Runs the thread, unless it is parked.
    fn step(&mut self) {
        if self.outcome.is_some() || (self.started && self.probe.count() == self.seen) {
            return;
        }
        self.started = true;
        self.seen = self.probe.count();
        if let WaitStep::Ready(outcome) = self.future.wait_step(&self.waker, false) {
            self.outcome = Some(outcome);
        }
    }

    /// Lets the thread run to its end.
    fn finish(&mut self) -> Option<u64> {
        self.step();
        self.step();
        self.outcome
    }
}

#[test]
fn loom_observe_across_retire_reregister_never_loses() {
    // Party 0 completes, retires, registers again and completes again; party 1
    // observes when it can, and waits.
    every_order(&[4, 3], |order| {
        let space = ObservationSpace::<u8, u64>::new();
        let mut subject: Option<Subject<u8, u64>> =
            Some(space.subject(1).expect("first registration succeeds"));
        let mut at = 0;
        let mut observer: Option<Waiter> = None;
        for &party in order {
            if party == 0 {
                match at {
                    0 => wake_all(subject.as_mut().expect("live").complete(100)),
                    1 => assert!(subject.take().expect("live").retire()),
                    2 => subject = Some(space.subject(1).expect("vacant")),
                    _ => wake_all(subject.as_mut().expect("live").complete(200)),
                }
                at += 1;
            } else if let Some(waiter) = observer.as_mut() {
                waiter.step();
            } else if let Ok(observation) = space.observe(&1) {
                observer = Some(Waiter::on(observation));
            }
        }
        let mut waiter =
            observer.unwrap_or_else(|| Waiter::on(space.observe(&1).expect("retained")));
        let outcome = waiter.finish().expect("observer resolves");
        assert!(
            outcome == 100 || outcome == 200,
            "observation resolved to an alien outcome: {outcome}"
        );
    });
}

#[test]
fn loom_pooled_slot_reuse_with_waiters() {
    every_order(&[1, 2], |order| {
        let space = ObservationSpace::<u8, u64>::new();
        for outcome in [100, 200] {
            let mut subject = space.subject(1).expect("key registrable");
            let mut waiter = Waiter::on(space.observe(&1).expect("generation live"));
            for &party in order {
                if party == 0 {
                    wake_all(subject.complete(outcome));
                } else {
                    waiter.step();
                }
            }
            assert_eq!(waiter.finish(), Some(outcome));
            drop(waiter);
            assert!(subject.retire());
        }
    });
}

#[test]
fn loom_future_resolves_racing_completion() {
    every_order(&[1, 2], |order| {
        let space = ObservationSpace::<u8, u64>::new();
        let mut subject = space.subject(1).expect("first registration succeeds");
        let mut future = space.observe(&1).expect("generation live").into_future();
        let (waker, probe) = CountWake::waker();
        let mut pending = false;
        let mut resolved = None;
        for &party in order {
            if party == 0 {
                wake_all(subject.complete(42));
            } else if resolved.is_none() {
                match poll_once(&mut future, &waker) {
                    Polled::Ready(outcome) => resolved = Some(outcome),
                    Polled::Pending => pending = true,
                }
            }
        }
        if resolved.is_none() {
            assert!(pending && probe.count() == 1, "a pending poll is woken once");
            if let Polled::Ready(outcome) = poll_once(&mut future, &waker) {
                resolved = Some(outcome);
            }
        }
        assert_eq!(resolved, Some(42));
    });
}

#[test]
fn loom_concurrent_subject_one_winner_observable() {
    every_order(&[2, 2], |order| {
        let space = ObservationSpace::<u8, u64>::new();
        let mut contenders: [Option<Subject<u8, u64>>; 2] = [None, None];
        let mut at = [0, 0];
        for &party in order {
            if at[party] == 0 {
                contenders[party] = space.subject(1).ok();
            } else if let Some(subject) = contenders[party].as_mut() {
                wake_all(subject.complete(party as u64 + 1));
            }
            at[party] += 1;
        }
        let winners = contenders.iter().flatten().count();
        assert_eq!(winners, 1, "exactly one subject must win the key");

        let mut waiter = Waiter::on(space.observe(&1).expect("winner retained"));
        let outcome = waiter.finish().expect("completed");
        assert!(outcome == 1 || outcome == 2, "alien outcome {outcome}");
    });
}

#[test]
fn loom_two_waiters_both_woken() {
    every_order(&[1, 2, 2], |order| {
        let space = ObservationSpace::<u8, u64>::new();
        let mut subject = space.subject(1).expect("first registration succeeds");
        let mut waiters = [
            Waiter::on(space.observe(&1).expect("generation live")),
            Waiter::on(space.observe(&1).expect("generation live")),
        ];
        for &party in order {
            if party == 0 {
                wake_all(subject.complete(7));
            } else {
                waiters[party - 1].step();
            }
        }
        for waiter in &mut waiters {
            assert_eq!(waiter.finish(), Some(7));
        }
    });
}

#[test]
fn loom_wait_timeout_completed_path() {
    every_order(&[1, 2], |order| {
        let space = ObservationSpace::<u8, u64>::new();
        let mut subject = space.subject(1).expect("first registration succeeds");
        let mut waiter = Waiter::on(space.observe(&1).expect("generation live"));
        for &party in order {
            if party == 0 {
                wake_all(subject.complete(11));
            } else {
                waiter.step();
            }
        }
        assert_eq!(waiter.finish(), Some(11));
    });
}

#[test]
fn loom_into_outcome_racing_retire() {
    // Party 0 completes and retires, party 1 takes, party 2 observes and waits.
    every_order(&[2, 1, 2], |order| {
        let space = ObservationSpace::<u8, u64>::new();
        let mut subject = Some(space.subject(1).expect("first registration succeeds"));
        let mut taker = Some(space.observe(&1).expect("generation live"));
        let mut taken = None;
        let mut completed = false;
        let mut captured: Option<Waiter> = None;
        for &party in order {
            match party {
                0 if !completed => {
                    wake_all(subject.as_mut().expect("live").complete(9));
                    completed = true;
                }
                0 => assert!(subject.take().expect("live").retire()),
                1 => taken = taker.take().expect("taken once").into_outcome(),
                _ => match captured.as_mut() {
                    Some(waiter) => waiter.step(),
                    None => captured = space.observe(&1).ok().map(Waiter::on),
                },
            }
        }
        let observed = captured.map(|mut waiter| waiter.finish());
        if let Some(value) = taken {
            assert_eq!(value, 9, "the take must move the exact outcome");
        }
        if let Some(seen) = observed {
            assert_eq!(seen, Some(9), "an observer must resolve to the exact outcome");
        }
    });
}

#[test]
fn loom_promotion_boundary_generation_isolation() {
    // The publisher registers, completes and retires each of five keys; the
    // observer observes each key, at some point of the publisher's run.
    for lead in 0..16_usize {
        let space = ObservationSpace::<u8, u64>::new();
        let mut subject: Option<Subject<u8, u64>> = None;
        let mut waiters: Vec<(u8, Waiter)> = Vec::new();
        for moment in 0..15 + 5 * 3 {
            if moment < 15 {
                let key = (moment / 3) as u8;
                match moment % 3 {
                    0 => subject = Some(space.subject(key).expect("vacant key registers")),
                    1 => wake_all(subject.as_mut().expect("live").complete(u64::from(key) << 8)),
                    _ => assert!(subject.take().expect("live").retire()),
                }
            }
            if moment >= lead && (moment - lead) % 3 == 0 && (moment - lead) / 3 < 5 {
                let key = ((moment - lead) / 3) as u8;
                if let Ok(observation) = space.observe(&key) {
                    waiters.push((key, Waiter::on(observation)));
                }
            }
            for (_, waiter) in &mut waiters {
                waiter.step();
            }
        }
        for (key, waiter) in &mut waiters {
            let value = waiter.finish().expect("captured generations complete");
            assert_eq!(
                value >> 8,
                u64::from(*key),
                "observation of key {key} resolved to a foreign generation's value {value}"
            );
        }
    }
}

#[test]
fn registration_racing_completion_cannot_lose_a_published_outcome() {
    every_order(&[1, 1], |order| {
        let (publisher, observation) = observe::pair::pair();
        let mut publisher = Some(publisher);
        for &party in order {
            if party == 0 {
                wake_all(publisher.take().expect("published once").complete(9));
            } else {
                let _snapshot = observation.try_get();
            }
        }
        assert_eq!(observation.try_get(), Some(9));
    });
}
