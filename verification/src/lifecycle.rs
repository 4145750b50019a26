//! The lifecycle state machine of an actor.
//!
//! An actor advances through `Started -> Running -> Stopping -> Stopped`.
//! A stop request moves any live state to `Stopping`; the stopping hook may
//! cancel the stop and return the actor to `Running`. `Stopped` is terminal.

use vstd::prelude::*;

verus! {

/// The four lifecycle states of an actor.
#[derive(Clone, Copy, Debug, PartialEq, Eq, Structural)]
pub enum ActorState {
    /// Construction is done; the started hook has not returned yet.
    Started,
    /// Normal operation: messages are dispatched, items are polled.
    Running,
    /// A stop was requested; the stopping hook decides what happens next.
    Stopping,
    /// Terminal: no further item is polled.
    Stopped,
}

/// The verdict of the stopping hook: keep running or stop for good.
#[derive(Clone, Copy, Debug, PartialEq, Eq, Structural)]
pub enum Running {
    /// Cancel the stop request and return to `Running`.
    Continue,
    /// Confirm the stop; the actor becomes `Stopped`.
    Stop,
}

impl ActorState {
    /// A state is alive unless it is terminal.
    pub open spec fn is_alive(self) -> bool {
        self != ActorState::Stopped
    }

    /// `Started`, `Running` and `Stopping` are alive; `Stopped` is not.
    pub fn alive(&self) -> (r: bool)
        ensures
            r == self.is_alive(),
    {
        match self {
            ActorState::Stopped => false,
            _ => true,
        }
    }
}

} // verus!
