//! Turns: the right to run one critical section, for one purpose.
//!
//! A critical section changes what every handle on the same slot or namespace
//! sees, and no value that its caller holds. What a function runs is therefore
//! kept down by what it is given: a section takes a [`Turn`], which is used up by
//! it, and is named by that turn among what the function may open. A function
//! that takes one turn, and may open no other, runs at most one section; a
//! function that may open [`turns`] of one purpose runs no section of another.

use vstd::prelude::*;

verus! {

/// What a critical section is run for.
pub enum Purpose {
    /// Reading a slot.
    Read,
    /// Registering a waker directly.
    Register,
    /// Polling a slot whose readers clone the outcome.
    Poll,
    /// Polling a slot that the outcome moves out of.
    Take,
    /// Giving up a future's claim.
    GiveUp,
    /// Publishing the outcome.
    Publish,
    /// Returning a recycled slot to the pristine state.
    Renew,
    /// Registering a generation at a key.
    Enroll,
    /// Finding the generation at a key.
    Find,
    /// Retiring a generation from its key.
    Retire,
}

impl Purpose {
    /// The purposes, counted.
    pub open spec fn index(self) -> int {
        match self {
            Purpose::Read => 0,
            Purpose::Register => 1,
            Purpose::Poll => 2,
            Purpose::Take => 3,
            Purpose::GiveUp => 4,
            Purpose::Publish => 5,
            Purpose::Renew => 6,
            Purpose::Enroll => 7,
            Purpose::Find => 8,
            Purpose::Retire => 9,
        }
    }
}

/// The right to run one critical section. Nothing tells two turns to be the
/// same one.
pub struct Turn {
    purpose: Ghost<Purpose>,
    number: Ghost<int>,
}

impl Turn {
    /// What the turn is for.
    pub closed spec fn purpose(&self) -> Purpose {
        self.purpose@
    }

    /// The name of the turn.
    pub closed spec fn name(&self) -> int {
        10 * self.number@ + self.purpose@.index()
    }

    /// A turn for `purpose`.
    pub(crate) fn new(purpose: Ghost<Purpose>) -> (turn: Self)
        ensures
            turn.purpose() == purpose@,
            turns(purpose@).contains(turn.name()),
        opens_invariants none
    {
        Turn { purpose, number: Ghost(0) }
    }
}

/// The name is that of a turn for `purpose`.
pub closed spec fn serves(name: int, purpose: Purpose) -> bool {
    name % 10 == purpose.index()
}

/// The names of all turns for `purpose`.
pub open spec fn turns(purpose: Purpose) -> Set<int> {
    Set::new(|name: int| serves(name, purpose))
}

} // verus!
