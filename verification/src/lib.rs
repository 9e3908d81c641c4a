//! Single-lock, waker-driven channels, modelled as explicit state machines.
//!
//! Three channel shapes share one pattern: a shared `Inner` state that is
//! mutated only under a lock, jointly driven by `Sender` and `Receiver`
//! handles. Here the `Inner` state and every transition on it are ordinary
//! verified functions; the lock, the task scheduler and the real
//! `std::task::Waker` plumbing live outside the library, which only ever
//! sees a resumption handle as an opaque value of type `W`. Every
//! transition hands back the handles that must be invoked once the lock is
//! released, so the caller never wakes a task while holding the lock.
//!
//! * [`oneshot`] delivers exactly one value from one producer to one
//!   consumer.
//! * [`mpsc`] delivers an unbounded first-in-first-out stream from many
//!   producers to one consumer.
//! * [`broadcast`] delivers an unbounded stream from many producers to
//!   many consumers, each with an independent read cursor over a shared,
//!   physically trimmed buffer.
//!
//! The remaining modules are smaller self-contained pieces: a stack/heap
//! hybrid vector, a checksum-validated identification number, a fizz-buzz
//! classifier, a type-state printer model, and a chat message router.

use vstd::prelude::*;

pub mod broadcast;
pub mod bsn;
pub mod chat;
pub mod fizzbuzz;
pub mod local_storage_vec;
pub mod mpsc;
pub mod oneshot;
pub mod printer;

verus! {

/// Outcome of one non-blocking attempt at a suspension-capable operation:
/// either a finished result, or a promise that the resumption handle left
/// behind will be invoked once the state changes.
#[derive(Debug)]
pub enum Poll<R> {
    Ready(R),
    Pending,
}

} // verus!
