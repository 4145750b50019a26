//! A cooperative, single-threaded actor engine.
//!
//! Actors own private state and communicate through asynchronous messages.
//! The engine interleaves three classes of work against a single-owner
//! mutable actor: free-running spawned items, exclusive wait-items, and
//! message streams, while advancing a lifecycle state machine and keeping
//! every requester's one-shot reply slot accounted for.
//!
//! Timers and externally driven futures are modeled by plain values (a
//! logical clock, a completion flag): the reactor that supplies real time
//! and wakeups lives outside the library and drives [`context::Context`]
//! through its public methods.

pub mod context;
pub mod contextitems;
pub mod io;
pub mod lifecycle;
pub mod mailbox;
pub mod poll;
pub mod registry;
pub mod replies;
