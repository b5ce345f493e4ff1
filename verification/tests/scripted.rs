//! Long scripted histories, read out of generated bytes and checked step by step
//! against a map-based model: values carry their key and epoch, so that a value
//! of another generation is noticed, and drops and wakes are counted.

use observe::observation::{Observation, ObservationFuture};
use observe::probe::{encode, poll_once, script, CountWake, DropProbe};
use observe::slot::Polled;
use observe::space::{ObservationSpace, Subject, SubjectError};
use std::collections::HashMap;
use std::hash::Hash;
use std::sync::atomic::{AtomicUsize, Ordering};
use std::sync::Arc;

/// A subject that retires when it is dropped.
struct Live<K: Eq + Hash + Clone, O> {
    subject: Option<Subject<K, O>>,
}

impl<K: Eq + Hash + Clone, O> Live<K, O> {
    fn at(space: &ObservationSpace<K, O>, key: K) -> Result<Self, SubjectError<K>> {
        space.subject(key).map(|subject| Live { subject: Some(subject) })
    }

    fn complete(&mut self, outcome: O) {
        for waker in self.subject.as_mut().expect("live subject").complete(outcome) {
            waker.wake();
        }
    }
}

impl<K: Eq + Hash + Clone, O> Drop for Live<K, O> {
    fn drop(&mut self) {
        if let Some(subject) = self.subject.take() {
            assert!(subject.retire(), "a live subject was not retained");
        }
    }
}

/// Bytes of a linear congruential generator.
fn bytes(seed: u64, len: usize) -> Vec<u8> {
    let mut state = seed.wrapping_mul(0x9e37_79b9_7f4a_7c15).wrapping_add(1);
    (0..len)
        .map(|_| {
            state = state
                .wrapping_mul(6_364_136_223_846_793_005)
                .wrapping_add(1_442_695_040_888_963_407);
            (state >> 33) as u8
        })
        .collect()
}

/// 0 register, 1 complete, 2 observe, 3 try_get, 4 retire, 5 into_outcome,
/// 6 register_waker, 7 drop an observation; four keys.
fn run_ops(data: &[u8]) {
    let space = ObservationSpace::<u8, u64>::new();
    let mut subjects: HashMap<u8, Live<u8, u64>> = HashMap::new();
    let mut completed: HashMap<u8, u64> = HashMap::new();
    let mut epochs: HashMap<u8, u64> = HashMap::new();
    let mut observations: Vec<(u8, u64, Observation<u64>)> = Vec::new();
    let mut retired: HashMap<(u8, u64), Option<u64>> = HashMap::new();

    for (op, key) in script(data, 8, 4, 256) {
        match op {
            0 => {
                if let Ok(subject) = Live::at(&space, key) {
                    let epoch = epochs.get(&key).map_or(0, |e| e + 1);
                    epochs.insert(key, epoch);
                    subjects.insert(key, subject);
                    completed.remove(&key);
                }
            }
            1 => {
                if let Some(subject) = subjects.get_mut(&key) {
                    if !completed.contains_key(&key) {
                        let value = encode(epochs[&key], key);
                        subject.complete(value);
                        completed.insert(key, value);
                    }
                }
            }
            2 => {
                if let Ok(obs) = space.observe(&key) {
                    observations.push((key, epochs[&key], obs));
                }
            }
            3 => {
                if let Some((k, e, obs)) = observations.last() {
                    let expected = if subjects.contains_key(k) && epochs[k] == *e {
                        completed.get(k).copied()
                    } else {
                        retired.get(&(*k, *e)).copied().flatten()
                    };
                    assert_eq!(
                        obs.try_get(),
                        expected,
                        "try_get diverged for key {k} epoch {e}"
                    );
                }
            }
            4 => {
                if let Some(subject) = subjects.remove(&key) {
                    retired.insert((key, epochs[&key]), completed.get(&key).copied());
                    drop(subject);
                }
            }
            5 => {
                if let Some((k, e, obs)) = observations.pop() {
                    let subject_gone = !subjects.contains_key(&k) || epochs[&k] != e;
                    let done = if subject_gone {
                        retired.get(&(k, e)).copied().flatten()
                    } else {
                        completed.get(&k).copied()
                    };
                    let refs = observations
                        .iter()
                        .filter(|(k2, e2, _)| k2 == &k && e2 == &e)
                        .count();
                    let result = obs.into_outcome();
                    if subject_gone && done.is_some() && refs == 0 {
                        assert_eq!(result, done, "into_outcome must move the last outcome");
                    } else {
                        assert_eq!(result, None, "into_outcome must refuse while shared/pending");
                    }
                }
            }
            6 => {
                if let Some((_, _, obs)) = observations.last() {
                    let (waker, _) = CountWake::waker();
                    let _ = obs.register_waker(&waker);
                }
            }
            _ => {
                observations.pop();
            }
        }
    }
}

#[test]
fn scripted_operations_agree_with_the_model() {
    for seed in 0..400 {
        run_ops(&bytes(seed, 512));
    }
}

/// The steps of `run_ops` with six keys and counted outcomes, so that the key
/// table promotes: 0 register, 1 complete, 2 observe, 3 try_get, 4 retire,
/// 5 into_outcome, 6 drop an observation.
fn run_promotion(data: &[u8]) {
    let space = ObservationSpace::<u8, DropProbe>::new();
    let counter = Arc::new(AtomicUsize::new(0));
    let mut created = 0_usize;
    let mut subjects: HashMap<u8, Live<u8, DropProbe>> = HashMap::new();
    let mut epochs: HashMap<u8, u64> = HashMap::new();
    let mut completed: HashMap<(u8, u64), bool> = HashMap::new();
    let mut observations: Vec<(u8, u64, Observation<DropProbe>)> = Vec::new();

    for (op, key) in script(data, 7, 6, 256) {
        match op {
            0 => {
                if let Ok(subject) = Live::at(&space, key) {
                    let epoch = epochs.get(&key).map_or(0, |e| e + 1);
                    epochs.insert(key, epoch);
                    subjects.insert(key, subject);
                }
            }
            1 => {
                if let Some(subject) = subjects.get_mut(&key) {
                    let epoch = epochs[&key];
                    if completed.insert((key, epoch), true).is_none() {
                        subject.complete(DropProbe::with_counter(encode(epoch, key), &counter));
                        created += 1;
                    }
                }
            }
            2 => {
                if let Ok(obs) = space.observe(&key) {
                    observations.push((key, epochs[&key], obs));
                }
            }
            3 => {
                if let Some((k, e, obs)) = observations.last() {
                    let done = completed.get(&(*k, *e)).copied().unwrap_or(false);
                    let expected = done.then_some(encode(*e, *k));
                    match obs.try_get() {
                        Some(value) => {
                            assert_eq!(
                                Some(value.tag),
                                expected,
                                "try_get diverged for key {k} epoch {e}"
                            );
                            created += 1;
                        }
                        None => assert_eq!(None, expected, "try_get lost a completed outcome"),
                    }
                }
            }
            4 => {
                subjects.remove(&key);
            }
            5 => {
                if let Some((k, e, obs)) = observations.pop() {
                    let subject_gone = !subjects.contains_key(&k) || epochs[&k] != e;
                    let done = completed.get(&(k, e)).copied().unwrap_or(false);
                    let refs = observations
                        .iter()
                        .filter(|(k2, e2, _)| k2 == &k && e2 == &e)
                        .count();
                    let result = obs.into_outcome();
                    if subject_gone && done && refs == 0 {
                        let value = result.expect("into_outcome must move the last outcome");
                        assert_eq!(
                            value.tag,
                            encode(e, k),
                            "into_outcome moved a wrong-generation value"
                        );
                    } else {
                        assert!(
                            result.is_none(),
                            "into_outcome must refuse while shared/pending"
                        );
                    }
                }
            }
            _ => {
                observations.pop();
            }
        }
    }

    drop(observations);
    drop(subjects);
    drop(space);
    assert_eq!(
        counter.load(Ordering::SeqCst),
        created,
        "created {created} values but observed other drops"
    );
}

#[test]
fn scripted_promotion_drops_every_value_once() {
    for seed in 0..400 {
        run_promotion(&bytes(seed, 512));
    }
}

/// Direct registrations over churned slots, three keys: 0 register, 1 complete,
/// 2 observe, 3 try_get, 4 retire, 5 register_waker, 6 into_outcome, 7 drop an
/// observation.
fn run_wakers(data: &[u8]) {
    let space = ObservationSpace::<u8, DropProbe>::new();
    let counter = Arc::new(AtomicUsize::new(0));
    let mut created = 0_usize;
    let mut subjects: HashMap<u8, Live<u8, DropProbe>> = HashMap::new();
    let mut epochs: HashMap<u8, u64> = HashMap::new();
    let mut completed: HashMap<(u8, u64), bool> = HashMap::new();
    let mut observations: Vec<(u8, u64, Observation<DropProbe>)> = Vec::new();
    let mut wakers: Vec<(u8, u64, Arc<CountWake>)> = Vec::new();

    for (op, key) in script(data, 8, 3, 256) {
        match op {
            0 => {
                if let Ok(subject) = Live::at(&space, key) {
                    let epoch = epochs.get(&key).map_or(0, |e| e + 1);
                    epochs.insert(key, epoch);
                    subjects.insert(key, subject);
                }
            }
            1 => {
                if let Some(subject) = subjects.get_mut(&key) {
                    let epoch = epochs[&key];
                    if completed.insert((key, epoch), true).is_none() {
                        subject.complete(DropProbe::with_counter(encode(epoch, key), &counter));
                        created += 1;
                    }
                }
            }
            2 => {
                if let Ok(obs) = space.observe(&key) {
                    observations.push((key, epochs[&key], obs));
                }
            }
            3 => {
                if let Some((k, e, obs)) = observations.last() {
                    let expected = completed.get(&(*k, *e)).copied().unwrap_or(false);
                    match obs.try_get() {
                        Some(value) => {
                            assert!(expected, "try_get resolved a never-completed generation");
                            assert_eq!(value.tag, encode(*e, *k), "try_get cross-generation leak");
                            created += 1;
                        }
                        None => assert!(!expected, "try_get lost a completed outcome"),
                    }
                }
            }
            4 => {
                subjects.remove(&key);
            }
            5 => {
                if let Some((k, e, obs)) = observations.last() {
                    let is_pending = !completed.get(&(*k, *e)).copied().unwrap_or(false);
                    let (waker, probe) = CountWake::waker();
                    assert_eq!(
                        !obs.register_waker(&waker),
                        is_pending,
                        "register_waker completion flag diverged for key {k} epoch {e}"
                    );
                    if is_pending {
                        wakers.push((*k, *e, probe));
                    }
                }
            }
            6 => {
                if let Some((k, e, obs)) = observations.pop() {
                    let subject_gone = !subjects.contains_key(&k) || epochs[&k] != e;
                    let done = completed.get(&(k, e)).copied().unwrap_or(false);
                    let refs = observations
                        .iter()
                        .filter(|(k2, e2, _)| k2 == &k && e2 == &e)
                        .count();
                    let result = obs.into_outcome();
                    if subject_gone && done && refs == 0 {
                        let value = result.expect("into_outcome must move the last outcome");
                        assert_eq!(value.tag, encode(e, k), "into_outcome wrong generation");
                    } else {
                        assert!(result.is_none(), "into_outcome must refuse while shared/pending");
                    }
                }
            }
            _ => {
                observations.pop();
            }
        }
    }

    for (k, e, probe) in &wakers {
        let expected = usize::from(completed.get(&(*k, *e)).copied().unwrap_or(false));
        assert_eq!(
            probe.count(),
            expected,
            "waker of key {k} epoch {e} fired a wrong number of times"
        );
    }

    drop(observations);
    drop(subjects);
    drop(space);
    assert_eq!(counter.load(Ordering::SeqCst), created);
}

#[test]
fn scripted_registrations_fire_exactly_once() {
    for seed in 0..400 {
        run_wakers(&bytes(seed, 512));
    }
}

struct Fut {
    future: ObservationFuture<u64>,
    key: u8,
    epoch: u64,
    current: Option<Arc<CountWake>>,
    left: Vec<Arc<CountWake>>,
}

/// Futures, each polled with wakers of its own, two keys: 0 register,
/// 1 complete, 2 observe, 3 poll, 4 retire, 5 cancel. The waker of a live
/// future's latest poll fires once at completion, and no other does.
fn run_futures(data: &[u8]) {
    let space = ObservationSpace::<u8, u64>::new();
    let mut subjects: HashMap<u8, Live<u8, u64>> = HashMap::new();
    let mut completed: HashMap<(u8, u64), bool> = HashMap::new();
    let mut epochs: HashMap<u8, u64> = HashMap::new();
    let mut futures: Vec<Fut> = Vec::new();
    let mut silent: Vec<(Arc<CountWake>, usize)> = Vec::new();

    for (op, key) in script(data, 6, 2, 128) {
        match op {
            0 => {
                if let Ok(subject) = Live::at(&space, key) {
                    *epochs.entry(key).or_insert(0) += 1;
                    subjects.insert(key, subject);
                }
            }
            1 => {
                if let Some(subject) = subjects.get_mut(&key) {
                    let epoch = epochs[&key];
                    if completed.insert((key, epoch), true).is_none() {
                        subject.complete(encode(epoch, key));
                        for f in &futures {
                            if f.key == key && f.epoch == epoch {
                                if let Some(probe) = &f.current {
                                    assert_eq!(probe.count(), 1, "waker fired != once");
                                }
                                for probe in &f.left {
                                    assert_eq!(probe.count(), 0, "migrated-away waker fired");
                                }
                            }
                        }
                    }
                }
            }
            2 => {
                if let Ok(obs) = space.observe(&key) {
                    futures.push(Fut {
                        future: obs.into_future(),
                        key,
                        epoch: epochs[&key],
                        current: None,
                        left: Vec::new(),
                    });
                }
            }
            3 => {
                if let Some(f) = futures.last_mut() {
                    let (waker, probe) = CountWake::waker();
                    let expected = completed.get(&(f.key, f.epoch)).copied().unwrap_or(false);
                    match poll_once(&mut f.future, &waker) {
                        Polled::Ready(value) => {
                            assert!(expected, "ready while pending: {value}");
                            assert_eq!(value, encode(f.epoch, f.key));
                        }
                        Polled::Pending => {
                            assert!(!expected, "pending while completed");
                            if let Some(old) = f.current.replace(probe) {
                                f.left.push(old);
                            }
                        }
                    }
                }
            }
            4 => {
                subjects.remove(&key);
            }
            _ => {
                if let Some(mut f) = futures.pop() {
                    f.future.cancel();
                    for probe in f.current.iter().chain(&f.left) {
                        silent.push((Arc::clone(probe), probe.count()));
                    }
                }
            }
        }
    }
    for (probe, at_cancel) in &silent {
        assert_eq!(
            probe.count(),
            *at_cancel,
            "a cancelled future's waker fired after cancellation"
        );
    }
}

#[test]
fn scripted_futures_fire_their_latest_waker_once() {
    for seed in 0..600 {
        run_futures(&bytes(seed, 256));
    }
}

#[test]
fn scripts_are_pairs_of_bytes() {
    assert_eq!(script(&[9, 5, 3, 4, 7], 8, 4, 256), vec![(1, 1), (3, 0)]);
    assert_eq!(script(&[9, 5, 3, 4, 7, 8], 8, 4, 2), vec![(1, 1), (3, 0)]);
    assert_eq!(script(&[1], 8, 4, 256), vec![]);
    assert_eq!(script(&[], 1, 1, 0), vec![]);
}

#[test]
fn encoded_values_tell_epoch_and_key() {
    assert_eq!(encode(0, 0), 0);
    assert_eq!(encode(1, 2), 0x102);
    assert_eq!(encode(0x1234, 0xff), 0x12_34ff);
    assert_ne!(encode(1, 0), encode(0, 1));
}
