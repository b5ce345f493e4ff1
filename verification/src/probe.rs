//! Probes for programs that exercise the library: outcomes that count their
//! drops, wakers that count their wakes, and scripted histories.

use crate::observation::ObservationFuture;
use crate::slot::Polled;
use std::sync::atomic::{AtomicUsize, Ordering};
use std::sync::Arc;
use std::task::{Wake, Waker};
use vstd::prelude::*;

verus! {

/// An outcome whose destruction is observable. Clones share one drop counter;
/// every clone's drop increments it exactly once.
#[derive(Debug)]
pub struct DropProbe {
    counter: Arc<AtomicUsize>,
    /// Distinct payload, to tell values apart.
    pub tag: u64,
}

/// `AtomicUsize::fetch_add` with one: it wraps around on overflow, and never
/// panics.
#[verifier::external_body]
fn count_one(counter: &AtomicUsize)
    opens_invariants none
    no_unwind
{
    counter.fetch_add(1, Ordering::SeqCst);
}

impl DropProbe {
    /// The counter that the probe's drop increments.
    pub closed spec fn counter(&self) -> Arc<AtomicUsize> {
        self.counter
    }

    /// The probe's counter was raised by one.
    pub closed spec fn counts(&self) -> bool {
        call_ensures(count_one, (&*self.counter,), ())
    }

    /// The payload.
    pub closed spec fn payload(&self) -> u64 {
        self.tag
    }

    /// A probe with a counter of its own.
    pub fn new(tag: u64) -> (probe: (Self, Arc<AtomicUsize>))
        ensures
            probe.0.payload() == tag,
            probe.0.counter() == probe.1,
            call_ensures(AtomicUsize::new, (0usize,), *probe.1),
    {
        let counter: Arc<AtomicUsize> = Arc::new(AtomicUsize::new(0));
        (DropProbe { counter: counter.clone(), tag }, counter)
    }

    /// A probe that shares an existing counter, so that the values of a whole
    /// campaign can be checked against one total.
    pub fn with_counter(tag: u64, counter: &Arc<AtomicUsize>) -> (probe: Self)
        ensures
            probe.payload() == tag,
            probe.counter() == *counter,
    {
        DropProbe { counter: counter.clone(), tag }
    }
}

impl Clone for DropProbe {
    fn clone(&self) -> (probe: Self)
        ensures
            probe.payload() == self.payload(),
            probe.counter() == self.counter(),
    {
        DropProbe { counter: self.counter.clone(), tag: self.tag }
    }
}

impl Drop for DropProbe {
    /// Counts the drop.
    fn drop(&mut self)
        ensures
            old(self).counts(),
        opens_invariants none
        no_unwind
    {
        count_one(&self.counter);
    }
}

/// A task that counts how often it is woken.
#[derive(Debug)]
pub struct CountWake {
    wakes: AtomicUsize,
}

/// `Waker::from` on a shared task: a waker that wakes it. Nothing is claimed of
/// the waker.
#[verifier::external_body]
fn waker_of(task: Arc<CountWake>) -> (waker: Waker) {
    Waker::from(task)
}

impl Default for CountWake {
    /// A task that has not been woken.
    fn default() -> (task: Self)
        ensures
            task.starts_at_zero(),
    {
        CountWake { wakes: AtomicUsize::new(0) }
    }
}

impl CountWake {
    /// The task's counter is what `AtomicUsize::new` makes of zero.
    pub closed spec fn starts_at_zero(&self) -> bool {
        call_ensures(AtomicUsize::new, (0usize,), self.wakes)
    }

    /// The task's counter was raised by one, whatever it stood at.
    pub closed spec fn counted(&self) -> bool {
        exists|before: usize| #[trigger]
            call_ensures(AtomicUsize::fetch_add, (&self.wakes, 1usize, Ordering::SeqCst), before)
    }

    /// `waker` is what `Waker::from` makes of `task`.
    pub closed spec fn is_waker_of(waker: Waker, task: Arc<Self>) -> bool {
        call_ensures(waker_of, (task,), waker)
    }

    /// Read at some moment, the task's counter gives `wakes`.
    pub closed spec fn reads(&self, wakes: usize) -> bool {
        call_ensures(AtomicUsize::load, (&self.wakes, Ordering::SeqCst), wakes)
    }

    /// A waker, and the task that it wakes.
    pub fn waker() -> (woken: (Waker, Arc<Self>))
        ensures
            CountWake::is_waker_of(woken.0, woken.1),
            woken.1.starts_at_zero(),
    {
        let task: Arc<Self> = Arc::new(CountWake::default());
        (waker_of(task.clone()), task)
    }

    /// How often the task has been woken so far.
    pub fn count(&self) -> (wakes: usize)
        ensures
            self.reads(wakes),
    {
        self.wakes.load(Ordering::SeqCst)
    }
}

impl Wake for CountWake {
    /// Counts the wake.
    fn wake(self: Arc<Self>)
        ensures
            self.counted(),
    {
        self.wakes.fetch_add(1, Ordering::SeqCst);
    }

    /// Counts the wake.
    fn wake_by_ref(self: &Arc<Self>)
        ensures
            self.counted(),
    {
        self.wakes.fetch_add(1, Ordering::SeqCst);
    }
}

/// Polls a future once with the given waker.
pub fn poll_once<O: Clone>(future: &mut ObservationFuture<O>, waker: &Waker) -> (polled: Polled<O>)
    ensures
        old(future).polled(*waker, polled, *final(future)),
        final(future).held() is Some <==> polled is Pending,
{
    future.poll(waker)
}

/// The value that the generation of `key` numbered `epoch` publishes: the epoch
/// in the high bits, the key in the low eight.
pub fn encode(epoch: u64, key: u8) -> (value: u64)
    ensures
        value == (epoch << 8u64) | key as u64,
{
    (epoch << 8) | key as u64
}

/// Values of different keys, or of different epochs that fit above the key,
/// differ.
pub proof fn law_encoding_is_injective(epoch: u64, key: u8, other_epoch: u64, other_key: u8)
    requires
        epoch < 0x100_0000_0000_0000,
        other_epoch < 0x100_0000_0000_0000,
        (epoch << 8u64) | key as u64 == (other_epoch << 8u64) | other_key as u64,
    ensures
        epoch == other_epoch,
        key == other_key,
{
    assert(epoch == other_epoch && key == other_key) by (bit_vector)
        requires
            epoch < 0x100_0000_0000_0000,
            other_epoch < 0x100_0000_0000_0000,
            (epoch << 8u64) | key as u64 == (other_epoch << 8u64) | other_key as u64,
    ;
}

/// The step at `at` of the script that `data` holds: two bytes, of which the
/// first picks one of `ops` operations and the second one of `keys` keys.
pub open spec fn script_step(data: Seq<u8>, ops: u8, keys: u8, at: int) -> (u8, u8) {
    (data[2 * at] % ops, data[2 * at + 1] % keys)
}

/// How many steps the script in `data` has: whole pairs of bytes only, and no
/// more than `limit`.
pub open spec fn script_len(data: Seq<u8>, limit: int) -> int {
    if data.len() / 2 < limit {
        data.len() as int / 2
    } else {
        limit
    }
}

/// Reads a script of operations on keys out of arbitrary bytes.
pub fn script(data: &[u8], ops: u8, keys: u8, limit: usize) -> (steps: Vec<(u8, u8)>)
    requires
        ops > 0,
        keys > 0,
    ensures
        steps@ == Seq::new(
            script_len(data@, limit as int) as nat,
            |at: int| script_step(data@, ops, keys, at),
        ),
{
    let mut steps: Vec<(u8, u8)> = Vec::new();
    while steps.len() < limit && steps.len() < data.len() / 2
        invariant
            ops > 0,
            keys > 0,
            steps@.len() <= script_len(data@, limit as int),
            steps@ == Seq::new(
                steps@.len(),
                |at: int| script_step(data@, ops, keys, at),
            ),
        decreases limit - steps@.len(),
    {
        let at: usize = steps.len();
        let ghost before = steps@;
        steps.push((data[2 * at] % ops, data[2 * at + 1] % keys));
        assert(steps@ =~= Seq::new(steps@.len(), |at: int| script_step(data@, ops, keys, at)));
    }
    steps
}

} // verus!
