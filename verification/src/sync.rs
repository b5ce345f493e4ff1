//! Sharing and waking primitives: what the locks, the shared pointer and the
//! task wakers of other crates are taken to do.
//!
//! Everything behind a lock may be changed by other threads between two
//! acquisitions, so nothing here says what a lock guards. A result that comes
//! out of a critical section is described by which lock was taken, which section
//! ran under it and on which argument ([`locked`], [`read_locked`],
//! [`write_locked`]): it is what that section gives for whatever it finds.
//!
//! That a function runs no other section is said by the turns that it may open:
//! every section uses up a [`Turn`]. The locks are out of reach but for [`cells`]
//! and [`namespaces`], whose functions each take one turn and run one section.

use crate::turn::Turn;
use parking_lot::{lock_api, Mutex, RwLock};
use std::task::Waker;
use triomphe::Arc;
use vstd::prelude::*;

pub mod cells;
pub mod namespaces;

verus! {

/// `lock_api::Mutex`, of which `parking_lot::Mutex` is an instance.
#[verifier::external_type_specification]
#[verifier::external_body]
#[verifier::reject_recursive_types(R)]
#[verifier::reject_recursive_types(T)]
pub struct ExMutex<R, T: ?Sized>(lock_api::Mutex<R, T>);

/// The raw lock inside `parking_lot::Mutex`.
#[verifier::external_type_specification]
#[verifier::external_body]
pub struct ExRawMutex(parking_lot::RawMutex);

/// `lock_api::RwLock`, of which `parking_lot::RwLock` is an instance.
#[verifier::external_type_specification]
#[verifier::external_body]
#[verifier::reject_recursive_types(R)]
#[verifier::reject_recursive_types(T)]
pub struct ExRwLock<R, T: ?Sized>(lock_api::RwLock<R, T>);

/// The raw lock inside `parking_lot::RwLock`.
#[verifier::external_type_specification]
#[verifier::external_body]
pub struct ExRawRwLock(parking_lot::RawRwLock);

/// `triomphe::Arc`. Two of its values are equal when they point to the same
/// allocation.
#[verifier::external_type_specification]
#[verifier::external_body]
#[verifier::reject_recursive_types(T)]
pub struct ExArc<T: ?Sized>(triomphe::Arc<T>);

/// `std::task::Waker`.
#[verifier::external_type_specification]
#[verifier::external_body]
pub struct ExWaker(Waker);

/// `parking_lot::Mutex::new`: an unlocked mutex around `value`. Nothing is
/// claimed of the mutex: what it guards can change whenever it is shared.
#[verifier::external_body]
fn new_mutex<T>(value: T) -> (mutex: Mutex<T>)
    opens_invariants none
{
    Mutex::new(value)
}

/// `parking_lot::Mutex::lock`: waits for the lock, runs `section` on what it
/// guards and on `arg`, and releases it. The result is one that `section` gives
/// for some contents; which contents, other threads decide. `section` must not
/// acquire the same lock. The call uses up the turn and is named by it; what
/// `section` opens itself is not counted.
#[allow(unused_variables)]
#[verifier::external_body]
fn with_lock_on<T, A, R, F: FnOnce(&mut T, A) -> R>(
    turn: Turn,
    mutex: &Mutex<T>,
    arg: A,
    section: F,
) -> (result: R)
    requires
        forall|guarded: &mut T| section.requires((guarded, arg)),
    ensures
        exists|guarded: &mut T| section.ensures((guarded, arg), result),
    opens_invariants [turn.name()]
{
    section(&mut *mutex.lock(), arg)
}

/// `parking_lot::Mutex::into_inner`: what a mutex guarded when it was given up.
/// Which value that is, other threads decided, so nothing is claimed of it.
#[verifier::external_body]
fn into_guarded<T>(mutex: Mutex<T>) -> (value: T)
    opens_invariants none
{
    mutex.into_inner()
}

/// `parking_lot::RwLock::new`: an unlocked lock around `value`. Nothing is
/// claimed of the lock: what it guards can change whenever it is shared.
#[verifier::external_body]
fn new_rw_lock<T>(value: T) -> (lock: RwLock<T>)
    opens_invariants none
{
    RwLock::new(value)
}

/// `parking_lot::RwLock::read`: waits for shared access, runs `section` on what
/// the lock guards and on `arg`, and releases it. The result is one that
/// `section` gives for some contents; which contents, other threads decide.
/// `section` must not acquire the same lock. The call uses up the turn and is
/// named by it; what `section` opens itself is not counted.
#[allow(unused_variables)]
#[verifier::external_body]
fn with_read_on<T, A, R, F: FnOnce(&T, A) -> R>(
    turn: Turn,
    lock: &RwLock<T>,
    arg: A,
    section: F,
) -> (result: R)
    requires
        forall|guarded: &T| section.requires((guarded, arg)),
    ensures
        exists|guarded: &T| section.ensures((guarded, arg), result),
    opens_invariants [turn.name()]
{
    section(&*lock.read(), arg)
}

/// `parking_lot::RwLock::write`: waits for exclusive access, runs `section` on
/// what the lock guards and on `arg`, and releases it. The result is one that
/// `section` gives for some contents; which contents, other threads decide.
/// `section` must not acquire the same lock. The call uses up the turn and is
/// named by it; what `section` opens itself is not counted.
#[allow(unused_variables)]
#[verifier::external_body]
fn with_write_on<T, A, R, F: FnOnce(&mut T, A) -> R>(
    turn: Turn,
    lock: &RwLock<T>,
    arg: A,
    section: F,
) -> (result: R)
    requires
        forall|guarded: &mut T| section.requires((guarded, arg)),
    ensures
        exists|guarded: &mut T| section.ensures((guarded, arg), result),
    opens_invariants [turn.name()]
{
    section(&mut *lock.write(), arg)
}

/// `triomphe::Arc::new`: a new allocation around `data`. Nothing is claimed of
/// the pointer.
pub assume_specification<T>[ triomphe::Arc::<T>::new ](data: T) -> (shared: Arc<T>)
    opens_invariants none
;

/// `triomphe::Arc::clone`: one more pointer to the same allocation.
pub assume_specification<T: ?Sized>[ <triomphe::Arc<T> as Clone>::clone ](this: &Arc<T>) -> (other:
    Arc<T>)
    ensures
        other == *this,
;

/// `triomphe::Arc::deref`: what the pointer points to, which is what
/// `Arc::new` was given when it made the allocation.
#[verifier::external_body]
pub(crate) fn pointee<T>(this: &Arc<T>) -> (data: &T)
    ensures
        forall|made_of: T| #[trigger]
            call_ensures(Arc::<T>::new, (made_of,), *this) ==> *data == made_of,
    opens_invariants none
{
    &**this
}

/// `triomphe::Arc::strong_count`: how many pointers to the allocation there are
/// at the moment, this one among them.
pub assume_specification<T: ?Sized>[ triomphe::Arc::<T>::strong_count ](this: &Arc<T>) -> (count:
    usize)
    ensures
        count >= 1,
;

/// `triomphe::Arc::try_unwrap`: the contents, which are what `Arc::new` was
/// given, if this is the last pointer to the allocation at the moment, and
/// otherwise the pointer itself.
pub assume_specification<T>[ triomphe::Arc::<T>::try_unwrap ](this: Arc<T>) -> (unwrapped: Result<
    T,
    Arc<T>,
>)
    ensures
        unwrapped matches Err(shared) ==> shared == this,
        unwrapped matches Ok(data) ==> forall|made_of: T| #[trigger]
            call_ensures(Arc::<T>::new, (made_of,), this) ==> data == made_of,
    opens_invariants none
;

/// `std::task::Waker::will_wake`: whether two wakers are known to wake the same
/// task. A `false` may be wrong, so nothing is claimed of the answer.
pub assume_specification[ std::task::Waker::will_wake ](this: &Waker, other: &Waker) -> (same:
    bool);

/// `std::task::Waker::clone`: another waker of the same task. Nothing is
/// claimed of it.
pub assume_specification[ <std::task::Waker as Clone>::clone ](this: &Waker) -> (other: Waker);

/// A value behind a mutex that only critical sections reach.
#[verifier::reject_recursive_types(T)]
pub struct Guarded<T> {
    lock: Mutex<T>,
}

/// A value behind a reader-writer lock that only critical sections reach.
#[verifier::reject_recursive_types(T)]
pub struct ReadWrite<T> {
    lock: RwLock<T>,
}

/// `shared` is what `Arc::new` makes of what `Mutex::new` makes of `value`.
pub closed spec fn guards<T>(shared: Arc<Guarded<T>>, value: T) -> bool {
    exists|mutex: Mutex<T>|
        {
            &&& #[trigger] call_ensures(new_mutex::<T>, (value,), mutex)
            &&& call_ensures(Arc::<Guarded<T>>::new, (Guarded { lock: mutex },), shared)
        }
}

/// Shares a value behind a mutex.
pub(crate) fn guard<T>(value: T) -> (shared: Arc<Guarded<T>>)
    ensures
        guards(shared, value),
    opens_invariants none
{
    Arc::new(Guarded { lock: new_mutex(value) })
}

/// `value` is what `shared` guarded when it was given up, if `Arc::try_unwrap`
/// finds it to be the last pointer, and nothing if not.
pub closed spec fn unguards<T>(shared: Arc<Guarded<T>>, value: Option<T>) -> bool {
    exists|unwrapped: Result<Guarded<T>, Arc<Guarded<T>>>|
        {
            &&& #[trigger] call_ensures(Arc::<Guarded<T>>::try_unwrap, (shared,), unwrapped)
            &&& match unwrapped {
                Ok(guarded) => value is Some && call_ensures(
                    into_guarded::<T>,
                    (guarded.lock,),
                    value->Some_0,
                ),
                Err(_) => value is None,
            }
        }
}

/// What a pointer guarded, if it is the last one.
pub(crate) fn unguard<T>(shared: Arc<Guarded<T>>) -> (value: Option<T>)
    ensures
        unguards(shared, value),
    opens_invariants none
{
    match Arc::try_unwrap(shared) {
        Ok(guarded) => Some(into_guarded(guarded.lock)),
        Err(_) => None,
    }
}

/// `shared` is what `Arc::new` makes of what `RwLock::new` makes of `value`.
pub closed spec fn shelves<T>(shared: Arc<ReadWrite<T>>, value: T) -> bool {
    exists|lock: RwLock<T>|
        {
            &&& #[trigger] call_ensures(new_rw_lock::<T>, (value,), lock)
            &&& call_ensures(Arc::<ReadWrite<T>>::new, (ReadWrite { lock },), shared)
        }
}

/// Shares a value behind a reader-writer lock.
pub(crate) fn shelve<T>(value: T) -> (shared: Arc<ReadWrite<T>>)
    ensures
        shelves(shared, value),
    opens_invariants none
{
    Arc::new(ReadWrite { lock: new_rw_lock(value) })
}

/// `result` came out of running `section` with `arg` under the mutex that
/// `shared` points to.
pub closed spec fn locked<T, A, R, F: FnOnce(&mut T, A) -> R>(
    shared: Arc<Guarded<T>>,
    arg: A,
    section: F,
    result: R,
) -> bool {
    exists|turn: Turn, guarded: &Guarded<T>|
        {
            &&& #[trigger] call_ensures(pointee::<Guarded<T>>, (&shared,), guarded)
            &&& #[trigger] call_ensures(
                with_lock_on::<T, A, R, F>,
                (turn, &guarded.lock, arg, section),
                result,
            )
        }
}

/// Runs `section` with `arg` under the mutex that `shared` points to.
fn run_locked<T, A, R, F: FnOnce(&mut T, A) -> R>(
    turn: Turn,
    shared: &Arc<Guarded<T>>,
    arg: A,
    section: F,
) -> (result: R)
    requires
        forall|guarded: &mut T| section.requires((guarded, arg)),
    ensures
        locked(*shared, arg, section, result),
        exists|guarded: &mut T| section.ensures((guarded, arg), result),
    opens_invariants [turn.name()]
{
    with_lock_on(turn, &pointee(shared).lock, arg, section)
}

/// What came out of a critical section is what the section gives for some
/// contents.
pub proof fn lemma_locked<T, A, R, F: FnOnce(&mut T, A) -> R>(
    shared: Arc<Guarded<T>>,
    arg: A,
    section: F,
    result: R,
)
    requires
        locked(shared, arg, section, result),
    ensures
        exists|guarded: &mut T| section.ensures((guarded, arg), result),
{
}

/// `result` came out of running `section` with `arg` under shared access to the
/// lock that `shared` points to.
pub closed spec fn read_locked<T, A, R, F: FnOnce(&T, A) -> R>(
    shared: Arc<ReadWrite<T>>,
    arg: A,
    section: F,
    result: R,
) -> bool {
    exists|turn: Turn, guarded: &ReadWrite<T>|
        {
            &&& #[trigger] call_ensures(pointee::<ReadWrite<T>>, (&shared,), guarded)
            &&& #[trigger] call_ensures(
                with_read_on::<T, A, R, F>,
                (turn, &guarded.lock, arg, section),
                result,
            )
        }
}

/// Runs `section` with `arg` under shared access to the lock that `shared`
/// points to.
fn run_read_locked<T, A, R, F: FnOnce(&T, A) -> R>(
    turn: Turn,
    shared: &Arc<ReadWrite<T>>,
    arg: A,
    section: F,
) -> (result: R)
    requires
        forall|guarded: &T| section.requires((guarded, arg)),
    ensures
        read_locked(*shared, arg, section, result),
        exists|guarded: &T| section.ensures((guarded, arg), result),
    opens_invariants [turn.name()]
{
    with_read_on(turn, &pointee(shared).lock, arg, section)
}

/// What came out of a critical section is what the section gives for some
/// contents.
pub proof fn lemma_read_locked<T, A, R, F: FnOnce(&T, A) -> R>(
    shared: Arc<ReadWrite<T>>,
    arg: A,
    section: F,
    result: R,
)
    requires
        read_locked(shared, arg, section, result),
    ensures
        exists|guarded: &T| section.ensures((guarded, arg), result),
{
}

/// `result` came out of running `section` with `arg` under exclusive access to the
/// lock that `shared` points to.
pub closed spec fn write_locked<T, A, R, F: FnOnce(&mut T, A) -> R>(
    shared: Arc<ReadWrite<T>>,
    arg: A,
    section: F,
    result: R,
) -> bool {
    exists|turn: Turn, guarded: &ReadWrite<T>|
        {
            &&& #[trigger] call_ensures(pointee::<ReadWrite<T>>, (&shared,), guarded)
            &&& #[trigger] call_ensures(
                with_write_on::<T, A, R, F>,
                (turn, &guarded.lock, arg, section),
                result,
            )
        }
}

/// Runs `section` with `arg` under exclusive access to the lock that `shared`
/// points to.
fn run_write_locked<T, A, R, F: FnOnce(&mut T, A) -> R>(
    turn: Turn,
    shared: &Arc<ReadWrite<T>>,
    arg: A,
    section: F,
) -> (result: R)
    requires
        forall|guarded: &mut T| section.requires((guarded, arg)),
    ensures
        write_locked(*shared, arg, section, result),
        exists|guarded: &mut T| section.ensures((guarded, arg), result),
    opens_invariants [turn.name()]
{
    with_write_on(turn, &pointee(shared).lock, arg, section)
}

/// What came out of a critical section is what the section gives for some
/// contents.
pub proof fn lemma_write_locked<T, A, R, F: FnOnce(&mut T, A) -> R>(
    shared: Arc<ReadWrite<T>>,
    arg: A,
    section: F,
    result: R,
)
    requires
        write_locked(shared, arg, section, result),
    ensures
        exists|guarded: &mut T| section.ensures((guarded, arg), result),
{
}

} // verus!
