//! A two-way route for messages; no transport is implemented in this crate.
use vstd::prelude::*;

verus! {

/// A point-to-point message channel an implementation may route over.
pub trait Router<M, E> {
    /// Sends a message over the route.
    fn tx(&self, m: &M) -> Result<(), E>;

    /// Receives the next message from the route.
    fn rx(&self) -> Result<M, E>;
}

} // verus!
