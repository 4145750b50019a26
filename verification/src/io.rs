//! Write handling for actors that own an outgoing byte or item sink.
//!
//! The sink itself — a socket, a framed encoder, an async writer — lives
//! outside the library with the reactor; what belongs to the actor is the
//! policy: what to do when the writer fails, and what to do when it
//! finishes. `WriteHandler` states that policy against the verified
//! scheduling surface.

use vstd::prelude::*;

use crate::context::{handler_frame, lemma_handler_frame_refl, Actor, Context};
use crate::lifecycle::Running;

verus! {

/// A helper trait for actors that drive a writer.
///
/// The outside write loop reports a failure of type `E` through `error`
/// and the end of writing through `finished`; both run with exclusive
/// access to the actor and its context, like any other hook, and must
/// respect the handler frame.
#[allow(unused_variables)]
pub trait WriteHandler<M, R, E>: Actor<M, R> {
    /// Called when the writer emits an error. Returning
    /// `Running::Continue` keeps the writer going; `Running::Stop` — the
    /// default — ends write processing.
    fn error(&mut self, err: E, ctx: &mut Context<M, R>) -> (r: Running)
        requires
            old(ctx).wf(),
        ensures
            handler_frame(*old(ctx), *final(ctx)),
    {
        proof {
            lemma_handler_frame_refl(*old(ctx));
        }
        Running::Stop
    }

    /// Called when the writer finishes. By default this requests a stop of
    /// the actor's context.
    fn finished(&mut self, ctx: &mut Context<M, R>)
        requires
            old(ctx).wf(),
        ensures
            handler_frame(*old(ctx), *final(ctx)),
    {
        ctx.stop()
    }
}

} // verus!
