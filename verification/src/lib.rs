//! Generation-safe completion publication and observation.
//!
//! A subject publishes one terminal outcome, and any number of observers
//! retrieve it, whether they arrive before, during or after completion.
//!
//! - [`space`]: the shared namespace, where subjects are registered and observed
//!   by key; [`pair`]: publication without a key.
//! - [`observation`]: what observers hold, and how they wait.
//! - [`slot`], [`entries`], [`small_map`], [`fx_hash`]: the completion cell, the
//!   bookkeeping of a namespace, its key table, and deterministic hashing.
//! - [`sync`]: what is taken on trust about locks, shared pointers and wakers, and
//!   what it means that something came out of a critical section; [`turn`]: which
//!   sections a function may run.
//! - [`waiting`], [`history`], [`world`]: what holds of a cell, of what one handle
//!   does to it, and of a whole namespace with all its handles, whatever is done to
//!   them.
//! - [`probe`], [`metrics`]: what programs that exercise and measure the library
//!   need.

pub mod fx_hash;
pub mod small_map;
pub mod slot;
pub mod entries;
pub mod turn;
pub mod sync;
pub mod observation;
pub mod space;
pub mod pair;
pub mod waiting;
pub mod history;
pub mod world;
pub mod probe;
pub mod metrics;
