//! The outcomes that an operation of the overlay can report besides success.

use vstd::prelude::*;

verus! {

/// What went wrong, by kind.
#[derive(Clone, Copy, Debug, PartialEq, Eq, Structural)]
pub enum DhtError {
    /// The directory or the store could not be read or written.
    PersistenceFailure,
    /// A message to another node could not be delivered.
    PeerUnreachable,
    /// No owner or no value was found; an expected outcome.
    NotFound,
    /// A node's state contradicts the ring's rules, such as a node that is
    /// its own predecessor while other members exist.
    InvariantViolation,
}

} // verus!
