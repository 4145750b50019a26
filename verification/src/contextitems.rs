//! The concrete scheduled-item kinds a context drives.
//!
//! Four kinds exist: an immediate message, a delayed message, a message
//! stream, and an exclusive wait-item. Each is polled with exclusive access
//! to the actor and its context and answers `Pending` or `Ready`. Timers
//! and externally driven futures appear here as plain values — a deadline
//! against the context's logical clock, or a completion flag the outside
//! reactor sets — so every scheduling decision is verified.

use vstd::prelude::*;

use crate::context::{dispatch_run, Context, Handler};
use crate::poll::Poll;

verus! {

/// A lazy source of messages: the items already available, and whether the
/// source has ended. An outside stream feeds it through `push` and
/// `finish`; the engine drains it through `poll_next`.
pub struct MessageStream<M> {
    items: Vec<M>,
    ended: bool,
}

impl<M> MessageStream<M> {
    /// The items available and not yet drained, oldest first.
    pub closed spec fn items_view(self) -> Seq<M> {
        self.items@
    }

    /// Whether the source will never yield another item.
    pub closed spec fn is_ended(self) -> bool {
        self.ended
    }

    /// A stream holding `items`; `ended` says whether more may arrive.
    pub fn new(items: Vec<M>, ended: bool) -> (r: Self)
        ensures
            r.items_view() == items@,
            r.is_ended() == ended,
    {
        MessageStream { items, ended }
    }

    /// Feeds one more item; only an unfinished stream accepts it.
    pub fn push(&mut self, m: M)
        requires
            !old(self).is_ended(),
        ensures
            final(self).items_view() == old(self).items_view().push(m),
            final(self).is_ended() == old(self).is_ended(),
    {
        self.items.push(m);
    }

    /// Marks the stream ended: after the remaining items it yields `None`.
    pub fn finish(&mut self)
        ensures
            final(self).items_view() == old(self).items_view(),
            final(self).is_ended(),
    {
        self.ended = true;
    }

    /// One advance of the stream: the next item if one is available,
    /// `Ready(None)` when the ended stream is drained, `Pending` when an
    /// unfinished stream is out of items for now.
    pub fn poll_next(&mut self) -> (r: Poll<Option<M>>)
        ensures
            final(self).is_ended() == old(self).is_ended(),
            old(self).items_view().len() > 0 ==> {
                &&& r == Poll::Ready(Some(old(self).items_view()[0]))
                &&& final(self).items_view() == old(self).items_view().skip(1)
            },
            old(self).items_view().len() == 0 ==> {
                &&& final(self).items_view() == old(self).items_view()
                &&& r == (if old(self).is_ended() {
                    Poll::Ready(None::<M>)
                } else {
                    Poll::<Option<M>>::Pending
                })
            },
    {
        if self.items.len() > 0 {
            let m = self.items.remove(0);
            Poll::Ready(Some(m))
        } else if self.ended {
            Poll::Ready(None)
        } else {
            Poll::Pending
        }
    }
}

/// The inner future of a wait-item, as the engine sees it: either the
/// reactor's timer with its deadline on the logical clock, or an external
/// future whose completion the reactor reports through `complete`.
pub enum WaitFuture {
    /// Resolves once the logical clock reaches `fire_at`.
    Timer {
        /// The instant the timer fires.
        fire_at: u64,
    },
    /// Resolves when the outside reactor marks it done.
    External {
        /// Whether the outside future has resolved.
        done: bool,
    },
}

impl WaitFuture {
    /// Whether the inner future has resolved at instant `now`.
    pub open spec fn ready_at(self, now: u64) -> bool {
        match self {
            WaitFuture::Timer { fire_at } => now >= fire_at,
            WaitFuture::External { done } => done,
        }
    }
}

/// An exclusive actor-future: while it is queued, no envelope is
/// dispatched. Wait-items run head-first in arrival order.
pub struct ActorWaitItem {
    fut: WaitFuture,
}

impl ActorWaitItem {
    /// The inner future.
    pub closed spec fn fut_spec(self) -> WaitFuture {
        self.fut
    }

    /// Whether one poll of this item at instant `now`, with the given
    /// liveness of the actor, completes it: its inner future resolved, or
    /// the actor is no longer alive — a dead actor's wait-item is forced
    /// `Ready` so the context can terminate.
    pub open spec fn completes(self, now: u64, alive: bool) -> bool {
        self.fut_spec().ready_at(now) || !alive
    }

    /// Wraps the inner future as a wait-item.
    pub fn new(fut: WaitFuture) -> (r: Self)
        ensures
            r.fut_spec() == fut,
    {
        ActorWaitItem { fut }
    }

    /// Marks an external inner future resolved; a timer is left to the
    /// clock.
    pub fn complete(&mut self)
        ensures
            final(self).fut_spec() == (match old(self).fut_spec() {
                WaitFuture::External { done: _ } => WaitFuture::External { done: true },
                f => f,
            }),
    {
        match self.fut {
            WaitFuture::External { done: _ } => {
                self.fut = WaitFuture::External { done: true };
            },
            _ => {},
        }
    }

    /// One poll of the wait-item: `Ready` exactly when the inner future
    /// resolved at the context's clock, or the actor is no longer alive;
    /// otherwise the whole context suspends on it.
    pub fn poll<M, R>(&self, ctx: &Context<M, R>) -> (r: Poll<()>)
        ensures
            r.is_ready() == self.completes(ctx.now_spec(), ctx.state_spec().is_alive()),
    {
        let inner_ready = match &self.fut {
            WaitFuture::Timer { fire_at } => ctx.now() >= *fire_at,
            WaitFuture::External { done } => *done,
        };
        if inner_ready {
            Poll::Ready(())
        } else {
            if ctx.state().alive() {
                Poll::Pending
            } else {
                Poll::Ready(())
            }
        }
    }
}

/// An immediate message to self: delivers once and completes on its first
/// poll. Its reply is discarded (fire-and-forget), so it carries no token.
pub struct ActorMessageItem<M> {
    msg: Option<M>,
}

impl<M> ActorMessageItem<M> {
    /// The message still owed to the handler.
    pub closed spec fn msg_spec(self) -> Option<M> {
        self.msg
    }

    /// Wraps `msg` for one delivery.
    pub fn new(msg: M) -> (r: Self)
        ensures
            r.msg_spec() == Some(msg),
    {
        ActorMessageItem { msg: Some(msg) }
    }

    /// Delivers the message to the handler and completes. It never
    /// suspends; polling again after `Ready` is excluded by contract.
    pub fn poll<A: Handler<M, R>, R>(&mut self, act: &mut A, ctx: &mut Context<M, R>) -> (r: Poll<
        (),
    >)
        requires
            old(self).msg_spec() is Some,
            old(ctx).wf(),
        ensures
            r.is_ready(),
            final(self).msg_spec() is None,
            dispatch_run(*old(ctx), *final(ctx), seq![old(self).msg_spec()->0]),
    {
        let msg = self.msg.take();
        match msg {
            Some(m) => {
                let _ = ctx.deliver(act, m, None);
            },
            None => {},
        }
        Poll::Ready(())
    }
}

/// A message to self armed behind a timer: sleeps until its deadline on
/// the logical clock, then delivers once. Its reply is discarded.
pub struct ActorDelayedMessageItem<M> {
    msg: Option<M>,
    fire_at: u64,
}

impl<M> ActorDelayedMessageItem<M> {
    /// The message still owed to the handler.
    pub closed spec fn msg_spec(self) -> Option<M> {
        self.msg
    }

    /// The instant the timer fires.
    pub closed spec fn fire_at_spec(self) -> u64 {
        self.fire_at
    }

    /// Wraps `msg` and arms the timer for the instant `fire_at`.
    pub fn new(msg: M, fire_at: u64) -> (r: Self)
        ensures
            r.msg_spec() == Some(msg),
            r.fire_at_spec() == fire_at,
    {
        ActorDelayedMessageItem { msg: Some(msg), fire_at }
    }

    /// Polls the timer first: before the deadline nothing happens and the
    /// item stays armed. Once the clock reaches the deadline the message
    /// is delivered exactly once and the item completes.
    pub fn poll<A: Handler<M, R>, R>(&mut self, act: &mut A, ctx: &mut Context<M, R>) -> (r: Poll<
        (),
    >)
        requires
            old(self).msg_spec() is Some,
            old(ctx).wf(),
        ensures
            old(ctx).now_spec() < old(self).fire_at_spec() ==> {
                &&& r.is_pending()
                &&& *final(self) == *old(self)
                &&& *final(ctx) == *old(ctx)
            },
            old(ctx).now_spec() >= old(self).fire_at_spec() ==> {
                &&& r.is_ready()
                &&& final(self).msg_spec() is None
                &&& dispatch_run(*old(ctx), *final(ctx), seq![old(self).msg_spec()->0])
            },
    {
        if ctx.now() < self.fire_at {
            return Poll::Pending;
        }
        let msg = self.msg.take();
        match msg {
            Some(m) => {
                let _ = ctx.deliver(act, m, None);
            },
            None => {},
        }
        Poll::Ready(())
    }
}

/// A stream of messages to self: each available item is delivered in
/// order; the item completes when the stream ends. Replies are discarded.
pub struct ActorMessageStreamItem<M> {
    stream: MessageStream<M>,
}

impl<M> ActorMessageStreamItem<M> {
    /// The underlying stream.
    pub closed spec fn stream_spec(self) -> MessageStream<M> {
        self.stream
    }

    /// Wraps the stream `st` for draining.
    pub fn new(st: MessageStream<M>) -> (r: Self)
        ensures
            r.stream_spec() == st,
    {
        ActorMessageStreamItem { stream: st }
    }

    /// Drains readily available items in order, delivering each to the
    /// handler, and suspends when the stream runs dry. If a delivery
    /// pushed a wait-item, the drain yields at once — the fairness policy
    /// that preserves wait exclusion; so it completes (`Ready`, the stream
    /// exhausted for good) only with the context not waiting, and on a
    /// non-waiting context with items ready it always delivers at least
    /// the first one.
    pub fn poll<A: Handler<M, R>, R>(&mut self, act: &mut A, ctx: &mut Context<M, R>) -> (r: Poll<
        (),
    >)
        requires
            old(ctx).wf(),
        ensures
            final(ctx).wf(),
            crate::context::poll_frame(*old(ctx), *final(ctx)),
            final(self).stream_spec().is_ended() == old(self).stream_spec().is_ended(),
            exists|k: int|
                {
                    &&& 0 <= k <= old(self).stream_spec().items_view().len()
                    &&& dispatch_run(
                        *old(ctx),
                        *final(ctx),
                        old(self).stream_spec().items_view().take(k),
                    )
                    &&& final(self).stream_spec().items_view() == old(self).stream_spec().items_view().skip(k)
                },
            r.is_ready() ==> final(self).stream_spec().items_view().len() == 0 && final(self).stream_spec().is_ended(),
            r.is_pending() ==> final(ctx).wait_view().len() > 0 || (final(self).stream_spec().items_view().len() == 0 && !final(self).stream_spec().is_ended()),
            (!old(ctx).waiting_spec() && old(self).stream_spec().items_view().len() > 0) ==> final(ctx).dispatched().len() > old(ctx).dispatched().len(),
            (r.is_ready() && !old(ctx).waiting_spec()) ==> !final(ctx).waiting_spec(),
    {
        let ghost pre_ctx = *old(ctx);
        let ghost pre_items = old(self).stream_spec().items_view();
        let ghost mut k: int = 0;
        proof {
            crate::context::lemma_dispatch_run_refl(*ctx);
            assert(pre_items.take(0) =~= Seq::<M>::empty());
            assert(pre_items.skip(0) =~= pre_items);
        }
        loop
            invariant
                ctx.wf(),
                pre_ctx == *old(ctx),
                pre_items == old(self).stream_spec().items_view(),
                0 <= k <= pre_items.len(),
                dispatch_run(pre_ctx, *ctx, pre_items.take(k)),
                self.stream.items_view() == pre_items.skip(k),
                self.stream.is_ended() == old(self).stream_spec().is_ended(),
                !pre_ctx.waiting_spec() ==> !ctx.waiting_spec(),
            decreases pre_items.len() - k,
        {
            match self.stream.poll_next() {
                Poll::Ready(Some(m)) => {
                    let ghost mid = *ctx;
                    let _ = ctx.deliver(act, m, None);
                    proof {
                        assert(pre_items.take(k) + seq![m] =~= pre_items.take(k).push(m));
                        assert(pre_items.take(k).push(m) =~= pre_items.take(k + 1));
                        crate::context::lemma_dispatch_run_trans(
                            pre_ctx,
                            mid,
                            *ctx,
                            pre_items.take(k),
                            seq![m],
                        );
                        k = k + 1;
                        assert(pre_items.skip(k - 1).skip(1) =~= pre_items.skip(k));
                    }
                    if ctx.waiting() {
                        proof {
                        assert(ctx.dispatched().len() == pre_ctx.dispatched().len() + k);
                        if !pre_ctx.waiting_spec() && pre_items.len() > 0 {
                            assert(k >= 1);
                        }
                            assert(dispatch_run(
                                *old(ctx),
                                *ctx,
                                old(self).stream_spec().items_view().take(k),
                            ));
                            assert(self.stream.items_view() == old(self).stream_spec().items_view().skip(k));
                        }
                        return Poll::Pending;
                    }
                },
                Poll::Ready(None) => {
                    proof {
                        assert(ctx.dispatched().len() == pre_ctx.dispatched().len() + k);
                        if !pre_ctx.waiting_spec() && pre_items.len() > 0 {
                            assert(k >= 1);
                        }
                        assert(dispatch_run(
                            *old(ctx),
                            *ctx,
                            old(self).stream_spec().items_view().take(k),
                        ));
                        assert(self.stream.items_view() == old(self).stream_spec().items_view().skip(k));
                    }
                    return Poll::Ready(());
                },
                Poll::Pending => {
                    proof {
                        assert(ctx.dispatched().len() == pre_ctx.dispatched().len() + k);
                        if !pre_ctx.waiting_spec() && pre_items.len() > 0 {
                            assert(k >= 1);
                        }
                        assert(dispatch_run(
                            *old(ctx),
                            *ctx,
                            old(self).stream_spec().items_view().take(k),
                        ));
                        assert(self.stream.items_view() == old(self).stream_spec().items_view().skip(k));
                    }
                    return Poll::Pending;
                },
            }
        }
    }
}

/// A scheduled item still owes its work: a message item still holds its
/// message. Consumed items leave the registry at once, so every registered
/// item satisfies this.
pub open spec fn item_wf<M>(it: SpawnedItem<M>) -> bool {
    match it {
        SpawnedItem::Message(mi) => mi.msg_spec() is Some,
        SpawnedItem::Delayed(di) => di.msg_spec() is Some,
        _ => true,
    }
}

/// Whether `it` is a timed callback whose deadline has passed at `now`.
pub open spec fn is_due_later<M>(it: SpawnedItem<M>, now: u64) -> bool {
    match it {
        SpawnedItem::Later { fire_at } => fire_at <= now,
        _ => false,
    }
}

/// One scheduled unit in the spawn registry. The set of kinds is closed,
/// so the driver dispatches over a tagged variant.
pub enum SpawnedItem<M> {
    /// An immediate message to self.
    Message(ActorMessageItem<M>),
    /// A message to self behind a timer.
    Delayed(ActorDelayedMessageItem<M>),
    /// A stream of messages to self.
    Stream(ActorMessageStreamItem<M>),
    /// A timed callback: when the clock reaches `fire_at`, the handle is
    /// reported fired and the outside closure keyed by it runs.
    Later {
        /// The instant the callback is due.
        fire_at: u64,
    },
    /// The adapter of a deferred handler response: it completes when the
    /// outside response future does, resolving the reply token; dropping
    /// it unresolved signals cancellation to the requester.
    Respond {
        /// The reply token to resolve, if the request wants a reply.
        token: Option<u64>,
    },
}

} // verus!
