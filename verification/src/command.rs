//! Command handling.

use vstd::prelude::*;

use crate::aggregate::Envelope;

verus! {

/// A component that evaluates commands of one message type, mutating state
/// behind it or failing; commands return nothing but the outcome.
pub trait Handler<T> {
    /// The error type reported when handling fails.
    type Error;

    /// Handles one command.
    fn handle(&mut self, command: Envelope<T>) -> Result<(), Self::Error>;
}

} // verus!
