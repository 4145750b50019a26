//! The poll protocol of scheduled items.
//!
//! Every scheduled unit answers a poll with either `Pending` (more work
//! remains, yield to the caller) or `Ready` (the unit completed with its
//! output). This mirrors the suspension protocol of a cooperative scheduler
//! on plain values.

use vstd::prelude::*;

verus! {

/// The outcome of polling a scheduled item once.
pub enum Poll<T> {
    /// The item has not completed; poll it again later.
    Pending,
    /// The item completed with this output.
    Ready(T),
}

impl<T> Poll<T> {
    /// Whether this outcome is `Ready`.
    pub open spec fn is_ready(self) -> bool {
        self is Ready
    }

    /// Whether this outcome is `Pending`.
    pub open spec fn is_pending(self) -> bool {
        self is Pending
    }

    /// Tells `Ready` from `Pending` in executable code.
    pub fn ready(&self) -> (r: bool)
        ensures
            r == self.is_ready(),
    {
        match self {
            Poll::Ready(_) => true,
            Poll::Pending => false,
        }
    }
}

} // verus!
