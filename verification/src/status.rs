use vstd::prelude::*;

verus! {

/// What an operation on a ring buffer reports.
#[derive(Clone, Copy, Debug, PartialEq, Eq, Structural)]
pub enum RingError {
    /// The operation did what was asked.
    NoError,
    /// A read found no unread entry.
    RingEmptyError,
    /// A buffer was asked for with a capacity it cannot have.
    InvalidConfiguration,
}

} // verus!
