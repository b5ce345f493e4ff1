//! The namespace's documented behaviour: observation before and after
//! completion, retirement, moving outcomes out, waking, timing out, and what
//! errors carry.

use observe::observation::{Observation, WaitStep};
use observe::probe::CountWake;
use observe::space::{ObservationSpace, SubjectError, SubjectExists, UnknownSubject};
use std::sync::atomic::{AtomicBool, Ordering};
use std::sync::Arc;
use std::task::{Wake, Waker};

fn wake_all(wakers: Vec<Waker>) {
    for waker in wakers {
        waker.wake();
    }
}

/// One step of a blocking wait.
fn wait_step<O: Clone>(observation: &Observation<O>, expired: bool) -> WaitStep<O> {
    let (waker, _) = CountWake::waker();
    observation.clone().into_future().wait_step(&waker, expired)
}

#[test]
fn observe_before_and_after_completion_receive_the_same_outcome() {
    let space = ObservationSpace::new();
    let mut subject = space.subject(7_u64).unwrap();
    let early = space.observe(&7).unwrap();
    wake_all(subject.complete("stopped"));
    let late = space.observe(&7).unwrap();
    assert_eq!(early.try_get(), Some("stopped"));
    assert_eq!(late.try_get(), Some("stopped"));
}

#[test]
fn dropping_subject_retires_only_its_generation() {
    let space = ObservationSpace::<u64, ()>::new();
    let subject = space.subject(7_u64).unwrap();
    assert!(subject.retire());
    let replacement = space.subject(7_u64).unwrap();
    assert!(space.observe(&7).is_ok());
    assert!(replacement.retire());
    assert!(space.observe(&7).is_err());
}

#[test]
fn completion_before_wait_returns_immediately() {
    let space = ObservationSpace::new();
    let mut subject = space.subject(7_u64).unwrap();
    wake_all(subject.complete(3_u64));
    let observation = space.observe(&7_u64).unwrap();
    assert_eq!(wait_step(&observation, false), WaitStep::Ready(3_u64));
}

#[test]
fn cancelled_observer_does_not_block_completion() {
    let space = ObservationSpace::new();
    let mut subject = space.subject(7_u64).unwrap();
    let cancelled = space.observe(&7_u64).unwrap();
    drop(cancelled);
    let observer = space.observe(&7_u64).unwrap();
    wake_all(subject.complete(5_u64));
    assert_eq!(observer.try_get(), Some(5_u64));
}

#[derive(Debug, PartialEq, Eq)]
struct Handle(u64);

#[test]
fn into_outcome_moves_non_clone_outcome() {
    let space = ObservationSpace::new();
    let mut subject = space.subject(7_u64).unwrap();
    let observation = space.observe(&7_u64).unwrap();
    wake_all(subject.complete(Handle(5)));
    subject.retire();
    assert_eq!(observation.into_outcome(), Some(Handle(5)));
}

#[test]
fn into_outcome_none_while_shared_or_pending() {
    let space = ObservationSpace::new();
    let mut subject = space.subject(7_u64).unwrap();
    let pending = space.observe(&7_u64).unwrap();
    assert_eq!(pending.into_outcome(), None);
    wake_all(subject.complete(9_u64));
    let shared = space.observe(&7_u64).unwrap();
    assert_eq!(shared.into_outcome(), None);
    let last = space.observe(&7_u64).unwrap();
    subject.retire();
    assert_eq!(last.into_outcome(), Some(9_u64));
}

struct FlagWake(AtomicBool);

impl Wake for FlagWake {
    fn wake(self: Arc<Self>) {
        self.0.store(true, Ordering::Relaxed);
    }

    fn wake_by_ref(self: &Arc<Self>) {
        self.0.store(true, Ordering::Relaxed);
    }
}

#[test]
fn register_waker_wakes_on_completion() {
    let space = ObservationSpace::new();
    let mut subject = space.subject(7_u64).unwrap();
    let observation = space.observe(&7_u64).unwrap();
    let flag = Arc::new(FlagWake(AtomicBool::new(false)));
    let waker = Waker::from(Arc::clone(&flag));
    assert!(!observation.register_waker(&waker));
    wake_all(subject.complete(9_u64));
    assert!(flag.0.load(Ordering::Relaxed));
    assert_eq!(observation.try_get(), Some(9_u64));
}

#[test]
fn register_waker_after_completion_returns_true() {
    let space = ObservationSpace::new();
    let mut subject = space.subject(7_u64).unwrap();
    wake_all(subject.complete(3_u64));
    let observation = space.observe(&7_u64).unwrap();
    assert!(observation.register_waker(Waker::noop()));
}

#[test]
fn wait_timeout_returns_none_when_pending() {
    let space = ObservationSpace::new();
    let mut subject = space.subject(7_u64).unwrap();
    let observation = space.observe(&7_u64).unwrap();
    let (waker, probe) = CountWake::waker();
    let mut waiting = observation.clone().into_future();
    assert_eq!(waiting.wait_step(&waker, false), WaitStep::Park);
    assert_eq!(waiting.wait_step(&waker, true), WaitStep::TimedOut);
    wake_all(subject.complete(9_u64));
    assert_eq!(probe.count(), 0, "a timed-out waiter is registered no more");
    assert_eq!(observation.try_get(), Some(9_u64));
}

#[test]
fn wait_timeout_completion_wins_over_the_deadline() {
    let space = ObservationSpace::new();
    let mut subject = space.subject(7_u64).unwrap();
    let observation = space.observe(&7_u64).unwrap();
    let (waker, probe) = CountWake::waker();
    let mut waiting = observation.into_future();
    assert_eq!(waiting.wait_step(&waker, false), WaitStep::Park);
    wake_all(subject.complete(9_u64));
    assert_eq!(probe.count(), 1);
    assert_eq!(waiting.wait_step(&waker, true), WaitStep::Ready(9_u64));
}

#[test]
fn subject_exists_error_carries_key() {
    let space = ObservationSpace::<u8, u8>::new();
    let _subject = space.subject(7).expect("first registration succeeds");
    let error = match space.subject(7) {
        Ok(_) => panic!("second registration must conflict"),
        Err(error) => error,
    };
    assert_eq!(error, SubjectError::Exists(SubjectExists(7)));
}

/// A key that remembers how often it has been cloned.
#[derive(Debug)]
struct Counted {
    id: u8,
    clones: u32,
}

impl Clone for Counted {
    fn clone(&self) -> Self {
        Counted { id: self.id, clones: self.clones + 1 }
    }
}

impl PartialEq for Counted {
    fn eq(&self, other: &Self) -> bool {
        self.id == other.id
    }
}

impl Eq for Counted {}

impl std::hash::Hash for Counted {
    fn hash<H: std::hash::Hasher>(&self, state: &mut H) {
        self.id.hash(state);
    }
}

#[test]
fn refused_registration_gives_the_key_itself_back() {
    let space = ObservationSpace::<Counted, u8>::new();
    let _subject = space.subject(Counted { id: 7, clones: 0 }).expect("vacant");
    match space.subject(Counted { id: 7, clones: 0 }) {
        Err(SubjectError::Exists(SubjectExists(key))) => {
            assert_eq!((key.id, key.clones), (7, 0));
        }
        _ => panic!("second registration must conflict"),
    }
}

#[test]
fn unknown_subject_error_carries_key() {
    let space = ObservationSpace::<u8, u8>::new();
    let error = match space.observe(&9) {
        Ok(_) => panic!("vacant key must be unobservable"),
        Err(error) => error,
    };
    assert_eq!(error, UnknownSubject(9));
}

#[test]
fn wait_timeout_huge_on_completed_returns_outcome() {
    let space = ObservationSpace::<u8, u8>::new();
    let mut subject = space.subject(4).expect("first registration succeeds");
    wake_all(subject.complete(44));
    let observation = space.observe(&4).expect("subject retained");
    assert_eq!(wait_step(&observation, false), WaitStep::Ready(44));
}

struct MoveOnly(String);

#[test]
fn move_only_outcome_flows_through_into_outcome() {
    let space = ObservationSpace::<u8, MoveOnly>::new();
    let mut subject = space.subject(5).expect("first registration succeeds");
    wake_all(subject.complete(MoveOnly("payload".to_string())));
    let observation = space.observe(&5).expect("subject retained");
    subject.retire();
    let outcome = observation.into_outcome().expect("last handle moves it");
    assert_eq!(outcome.0, "payload");
}

#[test]
fn into_outcome_pending_yields_nothing() {
    let space = ObservationSpace::<u8, u8>::new();
    let mut subject = space.subject(6).expect("first registration succeeds");
    let first = space.observe(&6).expect("subject retained");
    let second = space.observe(&6).expect("subject retained");
    wake_all(subject.complete(66));
    assert_eq!(first.into_outcome(), None, "shared slot must refuse the move");
    assert_eq!(second.try_get(), Some(66));
}

#[test]
fn cloned_space_shares_namespace() {
    let space = ObservationSpace::<u8, u8>::new();
    let clone = space.clone();
    let mut subject = clone.subject(8).expect("first registration succeeds");
    assert!(space.subject(8).is_err(), "conflict visible across clones");
    drop(space);
    wake_all(subject.complete(88));
    assert_eq!(
        clone.observe(&8).expect("retained").try_get(),
        Some(88),
        "completion visible after the other clone dropped"
    );
}

#[test]
fn default_space_is_empty() {
    let space = ObservationSpace::<u8, u8>::default();
    assert_eq!(space.observe(&0).err(), Some(UnknownSubject(0)));
    assert!(space.subject(0).is_ok());
}
