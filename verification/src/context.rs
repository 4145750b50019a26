//! The per-actor scheduling surface and its driver.
//!
//! A [`Context`] is bound to exactly one actor. It owns the lifecycle
//! state, the mailbox, the spawn registry, the wait-item queue, and the
//! reply ledger. Handlers run with exclusive access to the actor and the
//! context; the driver polls every scheduled item under that exclusivity,
//! so no two items ever observe the actor at once.
//!
//! The outside reactor drives the context through `poll_once` with its
//! logical clock, and reports external completions through the dedicated
//! methods. Handlers are user code: the `Actor` and `Handler` traits state
//! the frame every hook and handler must respect — they may use the
//! scheduling surface (spawn, wait, notify, stop, cancel) and nothing
//! else.

use vstd::prelude::*;

use crate::contextitems::{
    ActorDelayedMessageItem, ActorMessageItem, ActorMessageStreamItem, ActorWaitItem, WaitFuture,
    MessageStream, SpawnedItem,
};
use crate::lifecycle::{ActorState, Running};
use crate::mailbox::{Envelope, Mailbox, SendError};
use crate::poll::Poll;
use crate::registry::{contains_handle, SpawnHandle, SpawnRegistry};
use crate::replies::{ReplyLedger, ReplyState};

verus! {

/// What a handler hands back for one message: the tagged response kinds.
pub enum MessageResponse<R> {
    /// An immediate result: written to the reply slot at once.
    Value(R),
    /// The result will come from a plain future running outside; the
    /// engine schedules a response adapter that resolves the reply slot
    /// when the outside reactor reports completion.
    Future,
    /// The result will come from an actor-future polled with the driver
    /// contract; the engine tracks it through the same response adapter.
    ActorFuture,
}

/// The scheduling surface and state of one actor.
pub struct Context<M, R> {
    state: ActorState,
    mailbox: Mailbox<M>,
    ledger: ReplyLedger<R>,
    registry: SpawnRegistry<SpawnedItem<M>>,
    wait: Vec<ActorWaitItem>,
    cancelled: Vec<u64>,
    fired: Vec<u64>,
    now: u64,
    started_fired: bool,
    stopped_fired: bool,
    stopping_count: Ghost<nat>,
    continue_count: Ghost<nat>,
    dispatched: Ghost<Seq<M>>,
}

impl<M, R> Context<M, R> {
    /// The lifecycle state.
    pub closed spec fn state_spec(self) -> ActorState {
        self.state
    }

    /// The mailbox.
    pub closed spec fn mailbox_spec(self) -> Mailbox<M> {
        self.mailbox
    }

    /// The reply ledger.
    pub closed spec fn ledger_spec(self) -> ReplyLedger<R> {
        self.ledger
    }

    /// The spawn registry.
    pub closed spec fn registry_spec(self) -> SpawnRegistry<SpawnedItem<M>> {
        self.registry
    }

    /// The wait-item queue, head first.
    pub closed spec fn wait_view(self) -> Seq<ActorWaitItem> {
        self.wait@
    }

    /// Handles whose cancellation was requested and not yet applied.
    pub closed spec fn cancelled_view(self) -> Seq<u64> {
        self.cancelled@
    }

    /// Handles of timed callbacks that came due, in firing order; the
    /// outside loop runs the closure keyed by each.
    pub closed spec fn fired_view(self) -> Seq<u64> {
        self.fired@
    }

    /// The logical clock, as the driver last set it.
    pub closed spec fn now_spec(self) -> u64 {
        self.now
    }

    /// Whether the started hook has run.
    pub closed spec fn started_fired_spec(self) -> bool {
        self.started_fired
    }

    /// Whether the stopped hook has run.
    pub closed spec fn stopped_fired_spec(self) -> bool {
        self.stopped_fired
    }

    /// How many times the stopping hook has run.
    pub closed spec fn stopping_count(self) -> nat {
        self.stopping_count@
    }

    /// How many times the stopping hook returned `Continue`.
    pub closed spec fn continue_count(self) -> nat {
        self.continue_count@
    }

    /// Every message handed to a handler, in invocation order.
    pub closed spec fn dispatched(self) -> Seq<M> {
        self.dispatched@
    }

    /// Message dispatch is suspended while a wait-item is queued.
    pub open spec fn waiting_spec(self) -> bool {
        self.wait_view().len() > 0
    }

    /// The context's invariant: its parts are well-formed, the lifecycle
    /// hooks are in step with the state — the started hook has run before
    /// the state reached `Running`, the stopped hook has run exactly when
    /// the state is `Stopped`, and the stopping hook has run at most once
    /// more than it returned `Continue`, with the extra run only on the
    /// way to `Stopped`.
    pub open spec fn wf(self) -> bool {
        &&& self.mailbox_spec().wf()
        &&& self.registry_spec().wf()
        &&& (forall|i: int|
            0 <= i < self.registry_spec().slots_view().len() ==> crate::contextitems::item_wf(
                (#[trigger] self.registry_spec().slots_view()[i]).1,
            ))
        &&& (self.state_spec() == ActorState::Running ==> self.started_fired_spec())
        &&& (self.stopped_fired_spec() <==> self.state_spec() == ActorState::Stopped)
        &&& self.continue_count() <= self.stopping_count() <= self.continue_count() + 1
        &&& (self.stopping_count() == self.continue_count() + 1 ==> self.state_spec()
            == ActorState::Stopped)
    }
}

/// Resolved reply slots survive: `b` has the same tokens as `a` plus
/// possibly new ones, and every slot already resolved in `a` is unchanged
/// in `b`. This is how the one-shot discipline of replies threads through
/// handler runs.
pub open spec fn ledger_mono<R>(a: ReplyLedger<R>, b: ReplyLedger<R>) -> bool {
    &&& a.slots_view().len() <= b.slots_view().len()
    &&& forall|k: int|
        0 <= k < a.slots_view().len() && (#[trigger] a.slots_view()[k]).is_resolved()
            ==> b.slots_view()[k] == a.slots_view()[k]
}

/// The frame every step of work inside the context respects: the context
/// stays well-formed; the clock, the hook bookkeeping and the fired list
/// are untouched; wait-items, cancellation requests and spawned items are
/// only appended (new spawns under fresh handles); and the lifecycle moves
/// at most from a live state to `Stopping`.
pub open spec fn engine_frame<M, R>(pre: Context<M, R>, post: Context<M, R>) -> bool {
    &&& post.wf()
    &&& post.now_spec() == pre.now_spec()
    &&& post.started_fired_spec() == pre.started_fired_spec()
    &&& post.stopped_fired_spec() == pre.stopped_fired_spec()
    &&& post.stopping_count() == pre.stopping_count()
    &&& post.continue_count() == pre.continue_count()
    &&& post.fired_view() == pre.fired_view()
    &&& pre.wait_view().is_prefix_of(post.wait_view())
    &&& pre.cancelled_view().is_prefix_of(post.cancelled_view())
    &&& pre.registry_spec().slots_view().is_prefix_of(post.registry_spec().slots_view())
    &&& pre.registry_spec().next_spec() <= post.registry_spec().next_spec()
    &&& (forall|k: int|
        pre.registry_spec().slots_view().len() <= k < post.registry_spec().slots_view().len()
            ==> (#[trigger] post.registry_spec().slots_view()[k]).0
            >= pre.registry_spec().next_spec())
    &&& (post.state_spec() == pre.state_spec() || (pre.state_spec().is_alive()
        && post.state_spec() == ActorState::Stopping))
}

/// What a lifecycle hook or a handler may do to its context: respect the
/// engine frame, and leave the mailbox, the reply ledger and the dispatch
/// trace alone. Handlers schedule work and steer the lifecycle; admission
/// and reply resolution belong to senders and to the driver.
pub open spec fn handler_frame<M, R>(pre: Context<M, R>, post: Context<M, R>) -> bool {
    &&& engine_frame(pre, post)
    &&& post.mailbox_spec() == pre.mailbox_spec()
    &&& post.ledger_spec() == pre.ledger_spec()
    &&& post.dispatched() == pre.dispatched()
}

/// The frame of one item poll: the engine frame with the mailbox untouched
/// and resolved replies preserved.
pub open spec fn poll_frame<M, R>(pre: Context<M, R>, post: Context<M, R>) -> bool {
    &&& engine_frame(pre, post)
    &&& post.mailbox_spec() == pre.mailbox_spec()
    &&& ledger_mono(pre.ledger_spec(), post.ledger_spec())
}

/// The reply token carried by the response adapter under `id`: `None`
/// when no response adapter lives under `id`; `Some(token)` otherwise,
/// where `token` is the adapter's optional reply token.
pub open spec fn adapter_token<M>(s: Seq<(u64, SpawnedItem<M>)>, id: u64) -> Option<Option<u64>> {
    match crate::registry::slot_item(s, id) {
        Some(SpawnedItem::Respond { token }) => Some(token),
        _ => None,
    }
}

/// The immediate value of a handler response, if it has one; deferred
/// responses have none.
pub open spec fn response_value<R>(resp: MessageResponse<R>) -> Option<R> {
    match resp {
        MessageResponse::Value(v) => Some(v),
        _ => None,
    }
}

/// The head of a work list whose slots all come from `slots` carries a
/// handle that `slots` contains.
pub proof fn lemma_kept_handle<M>(work0: Seq<(u64, SpawnedItem<M>)>, slots: Seq<(u64, SpawnedItem<M>)>)
    requires
        work0.len() > 0,
        crate::registry::slot_in(work0[0], slots),
    ensures
        contains_handle(slots, work0[0].0),
{
    let k2 = choose|k2: int| 0 <= k2 < slots.len() && slots[k2] == work0[0];
    assert(slots[k2].0 == work0[0].0);
}

/// Whether `s` holds, under handle `h`, a timed callback due at `now`.
pub open spec fn later_due_in<M>(s: Seq<(u64, SpawnedItem<M>)>, h: u64, now: u64) -> bool {
    exists|i: int|
        0 <= i < s.len() && (#[trigger] s[i]).0 == h && crate::contextitems::is_due_later(
            s[i].1,
            now,
        )
}

/// Whether `s` holds a response adapter carrying exactly this reply token.
pub open spec fn has_respond_for<M>(s: Seq<(u64, SpawnedItem<M>)>, token: Option<u64>) -> bool {
    exists|i: int| 0 <= i < s.len() && s[i].1 == (SpawnedItem::Respond::<M> { token })
}

/// One or more handler invocations with the messages `msgs`, in order:
/// the engine frame holds, the mailbox is untouched, resolved replies
/// survive, and the dispatch trace is extended by exactly `msgs`.
pub open spec fn dispatch_run<M, R>(pre: Context<M, R>, post: Context<M, R>, msgs: Seq<M>) -> bool {
    &&& engine_frame(pre, post)
    &&& post.mailbox_spec() == pre.mailbox_spec()
    &&& ledger_mono(pre.ledger_spec(), post.ledger_spec())
    &&& post.dispatched() == pre.dispatched() + msgs
}

/// Every sequence is a prefix of itself.
pub proof fn lemma_prefix_refl<T>(s: Seq<T>)
    ensures
        s.is_prefix_of(s),
{
    assert(s =~= s.subrange(0, s.len() as int));
}

/// A sequence is a prefix of itself extended by one element.
pub proof fn lemma_prefix_push<T>(s: Seq<T>, x: T)
    ensures
        s.is_prefix_of(s.push(x)),
{
    assert(s =~= s.push(x).subrange(0, s.len() as int));
}

/// Prefix order is transitive.
pub proof fn lemma_prefix_trans<T>(a: Seq<T>, b: Seq<T>, c: Seq<T>)
    requires
        a.is_prefix_of(b),
        b.is_prefix_of(c),
    ensures
        a.is_prefix_of(c),
{
    assert forall|i: int| 0 <= i < a.len() implies a[i] == c.subrange(0, a.len() as int)[i] by {
        assert(a[i] == b.subrange(0, a.len() as int)[i]);
        assert(b[i] == c.subrange(0, b.len() as int)[i]);
    }
    assert(a =~= c.subrange(0, a.len() as int));
}

/// The engine frame relates every context to itself.
pub proof fn lemma_engine_frame_refl<M, R>(c: Context<M, R>)
    requires
        c.wf(),
    ensures
        engine_frame(c, c),
{
    lemma_prefix_refl(c.wait_view());
    lemma_prefix_refl(c.cancelled_view());
    lemma_prefix_refl(c.registry_spec().slots_view());
}

/// The engine frame composes.
pub proof fn lemma_engine_frame_trans<M, R>(a: Context<M, R>, b: Context<M, R>, c: Context<M, R>)
    requires
        engine_frame(a, b),
        engine_frame(b, c),
    ensures
        engine_frame(a, c),
{
    lemma_prefix_trans(a.wait_view(), b.wait_view(), c.wait_view());
    lemma_prefix_trans(a.cancelled_view(), b.cancelled_view(), c.cancelled_view());
    lemma_prefix_trans(
        a.registry_spec().slots_view(),
        b.registry_spec().slots_view(),
        c.registry_spec().slots_view(),
    );
    let sa = a.registry_spec().slots_view();
    let sb = b.registry_spec().slots_view();
    let sc = c.registry_spec().slots_view();
    assert forall|k: int| sa.len() <= k < sc.len() implies (#[trigger] sc[k]).0
        >= a.registry_spec().next_spec() by {
        if k < sb.len() {
            assert(sb[k] == sc.subrange(0, sb.len() as int)[k]);
            assert(sb[k].0 >= a.registry_spec().next_spec());
        } else {
            assert(sc[k].0 >= b.registry_spec().next_spec());
        }
    }
}

/// The handler frame relates every well-formed context to itself, so a
/// hook that does nothing respects it.
pub proof fn lemma_handler_frame_refl<M, R>(c: Context<M, R>)
    requires
        c.wf(),
    ensures
        handler_frame(c, c),
{
    lemma_engine_frame_refl(c);
}

/// A dispatch run of no messages relates every well-formed context to
/// itself.
pub proof fn lemma_dispatch_run_refl<M, R>(c: Context<M, R>)
    requires
        c.wf(),
    ensures
        dispatch_run(c, c, Seq::<M>::empty()),
{
    lemma_engine_frame_refl(c);
    assert(c.dispatched() + Seq::<M>::empty() =~= c.dispatched());
}

/// Dispatch runs compose: running `m1` and then `m2` is a run of
/// `m1 + m2`.
pub proof fn lemma_dispatch_run_trans<M, R>(
    a: Context<M, R>,
    b: Context<M, R>,
    c: Context<M, R>,
    m1: Seq<M>,
    m2: Seq<M>,
)
    requires
        dispatch_run(a, b, m1),
        dispatch_run(b, c, m2),
    ensures
        dispatch_run(a, c, m1 + m2),
{
    lemma_engine_frame_trans(a, b, c);
    assert(c.dispatched() =~= a.dispatched() + (m1 + m2));
}

/// Work already registered stays named by handles at least `limit` when a
/// step respects the engine frame and started from such a registry.
pub proof fn lemma_ids_bound<M, R>(a: Context<M, R>, b: Context<M, R>, limit: u64)
    requires
        engine_frame(a, b),
        a.registry_spec().next_spec() >= limit,
        forall|i: int|
            0 <= i < a.registry_spec().slots_view().len() ==> (
            #[trigger] a.registry_spec().slots_view()[i]).0 >= limit,
    ensures
        forall|i: int|
            0 <= i < b.registry_spec().slots_view().len() ==> (
            #[trigger] b.registry_spec().slots_view()[i]).0 >= limit,
{
    let sa = a.registry_spec().slots_view();
    let sb = b.registry_spec().slots_view();
    assert forall|i: int| 0 <= i < sb.len() implies (#[trigger] sb[i]).0 >= limit by {
        if i < sa.len() {
            assert(sa[i] == sb.subrange(0, sa.len() as int)[i]);
        }
    }
}

/// Resolved reply slots compose monotonically.
pub proof fn lemma_ledger_mono_trans<R>(a: ReplyLedger<R>, b: ReplyLedger<R>, c: ReplyLedger<R>)
    requires
        ledger_mono(a, b),
        ledger_mono(b, c),
    ensures
        ledger_mono(a, c),
{
    assert forall|k: int|
        0 <= k < a.slots_view().len() && (#[trigger] a.slots_view()[k]).is_resolved() implies c.slots_view()[k]
        == a.slots_view()[k] by {
        assert(b.slots_view()[k] == a.slots_view()[k]);
        assert(b.slots_view()[k].is_resolved());
    }
}

/// Serial access. Every poll of a scheduled item takes the actor and its
/// context by exclusive borrow, so no two polls ever overlap; the dispatch
/// trace of a context therefore grows by disjoint, ordered segments. If
/// one polling pass extends the trace from `a` to `b` and a later pass
/// extends it from `b` to `c`, every message of the first pass keeps its
/// place unchanged and stands strictly before every message of the second.
pub proof fn lemma_serial_access<M>(a: Seq<M>, b: Seq<M>, c: Seq<M>)
    requires
        a.is_prefix_of(b),
        b.is_prefix_of(c),
    ensures
        a.is_prefix_of(c),
        forall|i: int| a.len() <= i < b.len() ==> c[i] == b[i],
        a.len() <= b.len() <= c.len(),
{
    lemma_prefix_trans(a, b, c);
    assert forall|i: int| a.len() <= i < b.len() implies c[i] == b[i] by {
        assert(b[i] == c.subrange(0, b.len() as int)[i]);
    }
}

/// Wait exclusion, stated over the model: the `waiting` predicate holds
/// exactly when the wait queue is non-empty, and a context that is waiting
/// dispatches nothing — `dispatch_one` promises to change nothing at all
/// on a waiting context, and `poll_once` reaches the mailbox only through
/// it.
pub proof fn lemma_wait_exclusion<M, R>(c: Context<M, R>)
    ensures
        c.waiting_spec() <==> c.wait_view().len() > 0,
        !c.waiting_spec() <==> c.wait_view() == Seq::<ActorWaitItem>::empty(),
{
    if c.wait_view().len() == 0 {
        assert(c.wait_view() =~= Seq::<ActorWaitItem>::empty());
    }
}

/// Lifecycle hooks, as the context invariant pins them: the started hook
/// has run before the lifecycle reached `Running`; the stopped hook has
/// run exactly when the lifecycle is `Stopped`; and the stopping hook can
/// only have run twice or more if it returned `Continue` at least once —
/// every extra run needs a cancelled stop before it.
pub proof fn lemma_lifecycle_hooks<M, R>(c: Context<M, R>)
    requires
        c.wf(),
    ensures
        c.state_spec() == ActorState::Running ==> c.started_fired_spec(),
        c.stopped_fired_spec() <==> c.state_spec() == ActorState::Stopped,
        c.stopping_count() >= 2 ==> c.continue_count() >= 1,
{
}

/// The lifecycle hooks of an actor. The runtime owns the call sites: the
/// started hook runs exactly once before the first dispatch, the stopping
/// hook decides every stop request, and the stopped hook runs exactly once
/// after the state reached `Stopped`. Implementations get the scheduling
/// surface and must respect the handler frame.
pub trait Actor<M, R>: Sized {
    /// Runs once, after construction and before the first message.
    fn started(&mut self, ctx: &mut Context<M, R>)
        requires
            old(ctx).wf(),
        ensures
            handler_frame(*old(ctx), *final(ctx)),
    {
        proof {
            lemma_handler_frame_refl(*old(ctx));
        }
    }

    /// Decides a stop request: `Continue` cancels the stop, `Stop`
    /// confirms it. The default confirms.
    fn stopping(&mut self, ctx: &mut Context<M, R>) -> (r: Running)
        requires
            old(ctx).wf(),
        ensures
            handler_frame(*old(ctx), *final(ctx)),
    {
        proof {
            lemma_handler_frame_refl(*old(ctx));
        }
        Running::Stop
    }

    /// Runs once, after the lifecycle reached `Stopped`.
    fn stopped(&mut self, ctx: &mut Context<M, R>)
        requires
            old(ctx).wf(),
        ensures
            handler_frame(*old(ctx), *final(ctx)),
    {
        proof {
            lemma_handler_frame_refl(*old(ctx));
        }
    }
}

/// The message handler of an actor: turns the actor's state and one
/// message into a response, under exclusive access to both the actor and
/// the context. Handlers must respect the handler frame: they schedule
/// work and steer the lifecycle, and leave mailbox, replies and the
/// dispatch trace to the driver.
pub trait Handler<M, R>: Actor<M, R> {
    /// Handles one message.
    fn handle(&mut self, msg: M, ctx: &mut Context<M, R>) -> (r: MessageResponse<R>)
        requires
            old(ctx).wf(),
        ensures
            handler_frame(*old(ctx), *final(ctx)),
    ;
}

/// `a + b`, stuck at the top of the clock instead of wrapping.
pub open spec fn sat_add_spec(a: u64, b: u64) -> u64 {
    if a + b > u64::MAX {
        u64::MAX
    } else {
        (a + b) as u64
    }
}

/// Saturating addition on clock instants.
fn sat_add(a: u64, b: u64) -> (r: u64)
    ensures
        r == sat_add_spec(a, b),
{
    if a > u64::MAX - b {
        u64::MAX
    } else {
        a + b
    }
}

impl<M, R> Context<M, R> {
    /// A fresh context in `Started`, with an empty mailbox of the given
    /// capacity (`None` for unbounded), an empty registry, no wait-items,
    /// no replies, and the clock at zero.
    pub fn new(capacity: Option<usize>) -> (r: Self)
        ensures
            r.wf(),
            r.state_spec() == ActorState::Started,
            r.mailbox_spec().queue_view() == Seq::<Envelope<M>>::empty(),
            r.mailbox_spec().history() == Seq::<Envelope<M>>::empty(),
            r.mailbox_spec().capacity_spec() == capacity,
            !r.mailbox_spec().is_closed(),
            r.ledger_spec().slots_view() == Seq::<ReplyState<R>>::empty(),
            r.registry_spec().slots_view() == Seq::<(u64, SpawnedItem<M>)>::empty(),
            r.registry_spec().next_spec() == 0,
            r.wait_view() == Seq::<ActorWaitItem>::empty(),
            r.cancelled_view() == Seq::<u64>::empty(),
            r.fired_view() == Seq::<u64>::empty(),
            r.now_spec() == 0,
            !r.started_fired_spec(),
            !r.stopped_fired_spec(),
            r.stopping_count() == 0,
            r.continue_count() == 0,
            r.dispatched() == Seq::<M>::empty(),
    {
        let mailbox = match capacity {
            Some(c) => Mailbox::bounded(c),
            None => Mailbox::unbounded(),
        };
        Context {
            state: ActorState::Started,
            mailbox,
            ledger: ReplyLedger::new(),
            registry: SpawnRegistry::new(),
            wait: Vec::new(),
            cancelled: Vec::new(),
            fired: Vec::new(),
            now: 0,
            started_fired: false,
            stopped_fired: false,
            stopping_count: Ghost(0),
            continue_count: Ghost(0),
            dispatched: Ghost(Seq::empty()),
        }
    }

    /// The lifecycle state.
    pub fn state(&self) -> (r: ActorState)
        ensures
            r == self.state_spec(),
    {
        self.state
    }

    /// The logical clock, as the driver last set it.
    pub fn now(&self) -> (r: u64)
        ensures
            r == self.now_spec(),
    {
        self.now
    }

    /// Whether a wait-item currently blocks message dispatch: true
    /// exactly when the wait queue is non-empty.
    pub fn waiting(&self) -> (r: bool)
        ensures
            r == self.waiting_spec(),
    {
        self.wait.len() > 0
    }

    /// How many envelopes are queued.
    pub fn mailbox_len(&self) -> (r: usize)
        ensures
            r == self.mailbox_spec().queue_view().len(),
    {
        self.mailbox.len()
    }

    /// How many reply tokens were issued so far.
    pub fn ledger_len(&self) -> (r: usize)
        ensures
            r == self.ledger_spec().slots_view().len(),
    {
        self.ledger.len()
    }

    /// The handles of timed callbacks that came due, in firing order. The
    /// outside loop runs the closure it keyed by each handle.
    pub fn fired(&self) -> (r: &Vec<u64>)
        ensures
            r@ == self.fired_view(),
    {
        &self.fired
    }

    /// Schedules `item` under a fresh handle. `None` only when the handle
    /// space is exhausted, in which case nothing changes. The item must
    /// still owe its work — a message item still holds its message.
    pub fn spawn(&mut self, item: SpawnedItem<M>) -> (r: Option<SpawnHandle>)
        requires
            old(self).wf(),
            crate::contextitems::item_wf(item),
        ensures
            handler_frame(*old(self), *final(self)),
            final(self).wait_view() == old(self).wait_view(),
            final(self).cancelled_view() == old(self).cancelled_view(),
            final(self).state_spec() == old(self).state_spec(),
            old(self).registry_spec().next_spec() < u64::MAX ==> {
                &&& r == Some((SpawnHandle { id: old(self).registry_spec().next_spec() }))
                &&& final(self).registry_spec().slots_view() == old(self).registry_spec().slots_view().push(
                    (old(self).registry_spec().next_spec(), item),
                )
                &&& final(self).registry_spec().next_spec() == old(self).registry_spec().next_spec() + 1
            },
            old(self).registry_spec().next_spec() == u64::MAX ==> r is None && *final(self) == *old(self),
    {
        let r = self.registry.spawn(item);
        proof {
            if old(self).registry_spec().next_spec() < u64::MAX {
                lemma_prefix_push(
                    old(self).registry_spec().slots_view(),
                    (old(self).registry_spec().next_spec(), item),
                );
            } else {
                lemma_prefix_refl(old(self).registry_spec().slots_view());
            }
            lemma_prefix_refl(old(self).wait_view());
            lemma_prefix_refl(old(self).cancelled_view());
        }
        r
    }

    /// Requests cancellation of the item under `h`. The request is
    /// recorded at once and applied at the start of the next polling pass,
    /// which drops the item synchronously — deferral is what keeps a
    /// handler's cancellation of the very item being polled sound, since
    /// that item is temporarily outside the registry. A handle that is
    /// absent by then — completed, cancelled already, or never assigned —
    /// is ignored, so cancelling twice is a no-op; `poll_once` promises
    /// that a recorded cancellation neither fires nor survives the pass.
    pub fn cancel(&mut self, h: SpawnHandle)
        requires
            old(self).wf(),
        ensures
            handler_frame(*old(self), *final(self)),
            final(self).cancelled_view() == old(self).cancelled_view().push(h.id),
            final(self).registry_spec() == old(self).registry_spec(),
            final(self).wait_view() == old(self).wait_view(),
            final(self).state_spec() == old(self).state_spec(),
    {
        self.cancelled.push(h.id);
        proof {
            lemma_prefix_refl(old(self).wait_view());
            lemma_prefix_push(old(self).cancelled_view(), h.id);
            lemma_prefix_refl(old(self).registry_spec().slots_view());
        }
    }

    /// Queues `item` at the tail of the wait queue: message dispatch stays
    /// suspended until every queued wait-item has resolved. A wait-item
    /// queued from inside another one's run does not preempt it.
    pub fn wait(&mut self, item: ActorWaitItem)
        requires
            old(self).wf(),
        ensures
            handler_frame(*old(self), *final(self)),
            final(self).wait_view() == old(self).wait_view().push(item),
            final(self).waiting_spec(),
            final(self).registry_spec() == old(self).registry_spec(),
            final(self).cancelled_view() == old(self).cancelled_view(),
            final(self).state_spec() == old(self).state_spec(),
    {
        self.wait.push(item);
        proof {
            lemma_prefix_push(old(self).wait_view(), item);
            lemma_prefix_refl(old(self).cancelled_view());
            lemma_prefix_refl(old(self).registry_spec().slots_view());
        }
    }

    /// Requests a stop: any live state moves to `Stopping`; the stopping
    /// hook decides at the next polling pass. On a stopped context this
    /// does nothing.
    pub fn stop(&mut self)
        requires
            old(self).wf(),
        ensures
            handler_frame(*old(self), *final(self)),
            old(self).state_spec().is_alive() ==> final(self).state_spec() == ActorState::Stopping,
            !old(self).state_spec().is_alive() ==> *final(self) == *old(self),
            final(self).registry_spec() == old(self).registry_spec(),
            final(self).wait_view() == old(self).wait_view(),
            final(self).cancelled_view() == old(self).cancelled_view(),
    {
        if self.state.alive() {
            self.state = ActorState::Stopping;
        }
        proof {
            lemma_prefix_refl(old(self).wait_view());
            lemma_prefix_refl(old(self).cancelled_view());
            lemma_prefix_refl(old(self).registry_spec().slots_view());
        }
    }

    /// Sends `msg` to self, ahead of any queued envelope: it is scheduled
    /// as an immediate message item in the registry, not through the
    /// mailbox, and its reply is discarded. Dropped silently only when the
    /// handle space is exhausted.
    pub fn notify(&mut self, msg: M)
        requires
            old(self).wf(),
        ensures
            handler_frame(*old(self), *final(self)),
            final(self).wait_view() == old(self).wait_view(),
            final(self).cancelled_view() == old(self).cancelled_view(),
            old(self).registry_spec().next_spec() < u64::MAX ==> {
                &&& final(self).registry_spec().slots_view().len() == old(self).registry_spec().slots_view().len() + 1
                &&& (final(self).registry_spec().slots_view().last().1 matches SpawnedItem::Message(
                    mi,
                ) && mi.msg_spec() == Some(msg))
                &&& final(self).registry_spec().slots_view().last().0 == old(self).registry_spec().next_spec()
            },
            old(self).registry_spec().next_spec() == u64::MAX ==> *final(self) == *old(self),
    {
        let item = SpawnedItem::Message(ActorMessageItem::new(msg));
        let _ = self.spawn(item);
    }

    /// Sends `msg` to self after `delay` ticks of the logical clock: a
    /// delayed message item armed for `now + delay` (saturating). Its
    /// reply is discarded. `None` only when the handle space is exhausted.
    pub fn notify_later(&mut self, msg: M, delay: u64) -> (r: Option<SpawnHandle>)
        requires
            old(self).wf(),
        ensures
            handler_frame(*old(self), *final(self)),
            final(self).wait_view() == old(self).wait_view(),
            final(self).cancelled_view() == old(self).cancelled_view(),
            old(self).registry_spec().next_spec() < u64::MAX ==> {
                &&& r == Some((SpawnHandle { id: old(self).registry_spec().next_spec() }))
                &&& final(self).registry_spec().slots_view().len() == old(self).registry_spec().slots_view().len() + 1
                &&& (final(self).registry_spec().slots_view().last().1 matches SpawnedItem::Delayed(
                    di,
                ) && di.msg_spec() == Some(msg) && di.fire_at_spec() == sat_add_spec(
                    old(self).now_spec(),
                    delay,
                ))
                &&& final(self).registry_spec().slots_view().last().0 == old(self).registry_spec().next_spec()
            },
            old(self).registry_spec().next_spec() == u64::MAX ==> r is None && *final(self) == *old(self),
    {
        let fire_at = sat_add(self.now, delay);
        let item = SpawnedItem::Delayed(ActorDelayedMessageItem::new(msg, fire_at));
        self.spawn(item)
    }

    /// Schedules a timed callback for `now + delay` (saturating): when the
    /// clock reaches it, the handle is reported through `fired` and the
    /// outside closure keyed by it runs. `None` only when the handle space
    /// is exhausted.
    pub fn run_later(&mut self, delay: u64) -> (r: Option<SpawnHandle>)
        requires
            old(self).wf(),
        ensures
            handler_frame(*old(self), *final(self)),
            final(self).wait_view() == old(self).wait_view(),
            final(self).cancelled_view() == old(self).cancelled_view(),
            old(self).registry_spec().next_spec() < u64::MAX ==> {
                &&& r == Some((SpawnHandle { id: old(self).registry_spec().next_spec() }))
                &&& final(self).registry_spec().slots_view() == old(self).registry_spec().slots_view().push(
                    (
                        old(self).registry_spec().next_spec(),
                        (SpawnedItem::Later { fire_at: sat_add_spec(old(self).now_spec(), delay) }),
                    ),
                )
            },
            old(self).registry_spec().next_spec() == u64::MAX ==> r is None && *final(self) == *old(self),
    {
        let fire_at = sat_add(self.now, delay);
        self.spawn(SpawnedItem::Later { fire_at })
    }

    /// Attaches a message stream: each of its items is delivered to the
    /// handler in order, and the item completes when the stream ends.
    /// Returns the handle for cancellation; `None` only when the handle
    /// space is exhausted.
    pub fn add_stream(&mut self, st: MessageStream<M>) -> (r: Option<SpawnHandle>)
        requires
            old(self).wf(),
        ensures
            handler_frame(*old(self), *final(self)),
            final(self).wait_view() == old(self).wait_view(),
            final(self).cancelled_view() == old(self).cancelled_view(),
            old(self).registry_spec().next_spec() < u64::MAX ==> {
                &&& r == Some((SpawnHandle { id: old(self).registry_spec().next_spec() }))
                &&& final(self).registry_spec().slots_view().len() == old(self).registry_spec().slots_view().len() + 1
                &&& (final(self).registry_spec().slots_view().last().1 matches SpawnedItem::Stream(
                    si,
                ) && si.stream_spec() == st)
                &&& final(self).registry_spec().slots_view().last().0 == old(self).registry_spec().next_spec()
            },
            old(self).registry_spec().next_spec() == u64::MAX ==> r is None && *final(self) == *old(self),
    {
        let item = SpawnedItem::Stream(ActorMessageStreamItem::new(st));
        self.spawn(item)
    }

    /// Attaches a message stream without keeping its handle.
    pub fn add_message_stream(&mut self, st: MessageStream<M>)
        requires
            old(self).wf(),
        ensures
            handler_frame(*old(self), *final(self)),
            final(self).wait_view() == old(self).wait_view(),
            final(self).cancelled_view() == old(self).cancelled_view(),
            old(self).registry_spec().next_spec() < u64::MAX ==> {
                &&& final(self).registry_spec().slots_view().len() == old(self).registry_spec().slots_view().len() + 1
                &&& (final(self).registry_spec().slots_view().last().1 matches SpawnedItem::Stream(
                    si,
                ) && si.stream_spec() == st)
                &&& final(self).registry_spec().slots_view().last().0 == old(self).registry_spec().next_spec()
            },
            old(self).registry_spec().next_spec() == u64::MAX ==> *final(self) == *old(self),
    {
        let _ = self.add_stream(st);
    }

    /// Admits an envelope without a reply slot, with unbounded admission:
    /// fails only on a closed mailbox.
    pub fn do_send(&mut self, msg: M) -> (r: Result<(), SendError>)
        requires
            old(self).wf(),
        ensures
            final(self).wf(),
            final(self).dispatched() == old(self).dispatched(),
            final(self).ledger_spec() == old(self).ledger_spec(),
            old(self).mailbox_spec().is_closed() ==> r == Err::<(), SendError>(SendError::Closed)
                && final(self).mailbox_spec().queue_view() == old(self).mailbox_spec().queue_view(),
            !old(self).mailbox_spec().is_closed() ==> r == Ok::<(), SendError>(()) && final(self).mailbox_spec().queue_view() == old(self).mailbox_spec().queue_view().push(
                (Envelope { msg, reply: None }),
            ),
    {
        self.mailbox.do_send(Envelope { msg, reply: None })
    }

    /// Admits an envelope without a reply slot, with bounded, non-blocking
    /// admission: `Full` at capacity, `Closed` once the actor stopped.
    pub fn try_send(&mut self, msg: M) -> (r: Result<(), SendError>)
        requires
            old(self).wf(),
        ensures
            final(self).wf(),
            final(self).dispatched() == old(self).dispatched(),
            final(self).ledger_spec() == old(self).ledger_spec(),
            old(self).mailbox_spec().is_closed() ==> r == Err::<(), SendError>(SendError::Closed)
                && *final(self) == *old(self),
            (!old(self).mailbox_spec().is_closed() && (match old(self).mailbox_spec().capacity_spec() {
                Some(cap) => old(self).mailbox_spec().queue_view().len() >= cap,
                None => false,
            })) ==> r == Err::<(), SendError>(SendError::Full) && *final(self) == *old(self),
            (!old(self).mailbox_spec().is_closed() && (match old(self).mailbox_spec().capacity_spec() {
                Some(cap) => old(self).mailbox_spec().queue_view().len() < cap,
                None => true,
            })) ==> r == Ok::<(), SendError>(()) && final(self).mailbox_spec().queue_view() == old(self).mailbox_spec().queue_view().push((Envelope { msg, reply: None })),
    {
        self.mailbox.try_send(Envelope { msg, reply: None })
    }

    /// Admits a request: issues a fresh reply token, and enqueues the
    /// envelope with bounded, non-blocking admission. On success the token
    /// is returned for the requester to watch; on failure the token is not
    /// kept and the error says why — `Full` at capacity, `Closed` once the
    /// actor stopped.
    pub fn send(&mut self, msg: M) -> (r: Result<u64, SendError>)
        requires
            old(self).wf(),
            old(self).ledger_spec().slots_view().len() < u64::MAX,
        ensures
            final(self).wf(),
            final(self).dispatched() == old(self).dispatched(),
            old(self).mailbox_spec().is_closed() ==> r == Err::<u64, SendError>(SendError::Closed)
                && *final(self) == *old(self),
            (!old(self).mailbox_spec().is_closed() && (match old(self).mailbox_spec().capacity_spec() {
                Some(cap) => old(self).mailbox_spec().queue_view().len() >= cap,
                None => false,
            })) ==> r == Err::<u64, SendError>(SendError::Full) && *final(self) == *old(self),
            (!old(self).mailbox_spec().is_closed() && (match old(self).mailbox_spec().capacity_spec() {
                Some(cap) => old(self).mailbox_spec().queue_view().len() < cap,
                None => true,
            })) ==> {
                &&& r == Ok::<u64, SendError>(old(self).ledger_spec().slots_view().len() as u64)
                &&& final(self).ledger_spec().slots_view() == old(self).ledger_spec().slots_view().push(
                    ReplyState::<R>::Pending,
                )
                &&& final(self).mailbox_spec().queue_view() == old(self).mailbox_spec().queue_view().push(
                    (Envelope {
                        msg,
                        reply: Some(old(self).ledger_spec().slots_view().len() as u64),
                    }),
                )
            },
    {
        if self.mailbox.closed() {
            return Err(SendError::Closed);
        }
        if self.mailbox.at_capacity() {
            return Err(SendError::Full);
        }
        let t = self.ledger.issue();
        let sent = self.mailbox.try_send(Envelope { msg, reply: Some(t) });
        match sent {
            Ok(()) => Ok(t),
            Err(e) => Err(e),
        }
    }

    /// Reads the reply slot of token `t`.
    pub fn reply_status(&self, t: u64) -> (r: &ReplyState<R>)
        requires
            t < self.ledger_spec().slots_view().len(),
        ensures
            *r == self.ledger_spec().slots_view()[t as int],
    {
        self.ledger.status(t)
    }

    /// The requester of token `t` gives up waiting: a still-pending slot
    /// moves to `TimedOut` and a late reply will find it resolved; a
    /// resolved slot is untouched.
    pub fn time_out_reply(&mut self, t: u64)
        requires
            old(self).wf(),
        ensures
            final(self).wf(),
            final(self).dispatched() == old(self).dispatched(),
            final(self).mailbox_spec() == old(self).mailbox_spec(),
            ledger_mono(old(self).ledger_spec(), final(self).ledger_spec()),
            t < old(self).ledger_spec().slots_view().len() ==> final(self).ledger_spec().slots_view()[t as int] == crate::replies::step_slot(
                old(self).ledger_spec().slots_view()[t as int],
                ReplyState::<R>::TimedOut,
            ),
    {
        let _ = self.ledger.time_out(t);
    }

    /// The outside reactor reports that the response future behind handle
    /// `h` completed with `value`: the adapter is removed and the reply
    /// slot it carries, if any and still pending, receives the value. A
    /// handle that names no response adapter is ignored.
    pub fn complete_response(&mut self, h: SpawnHandle, value: R) -> (r: bool)
        requires
            old(self).wf(),
        ensures
            final(self).wf(),
            final(self).dispatched() == old(self).dispatched(),
            final(self).mailbox_spec() == old(self).mailbox_spec(),
            final(self).wait_view() == old(self).wait_view(),
            final(self).cancelled_view() == old(self).cancelled_view(),
            final(self).fired_view() == old(self).fired_view(),
            final(self).state_spec() == old(self).state_spec(),
            final(self).now_spec() == old(self).now_spec(),
            final(self).started_fired_spec() == old(self).started_fired_spec(),
            final(self).stopped_fired_spec() == old(self).stopped_fired_spec(),
            final(self).stopping_count() == old(self).stopping_count(),
            final(self).continue_count() == old(self).continue_count(),
            ledger_mono(old(self).ledger_spec(), final(self).ledger_spec()),
            r ==> !contains_handle(final(self).registry_spec().slots_view(), h.id),
            !r ==> *final(self) == *old(self),
            r == (crate::registry::slot_item(old(self).registry_spec().slots_view(), h.id) matches
                Some(SpawnedItem::Respond { token: _ })),
            r ==> final(self).registry_spec().slots_view() == crate::registry::remove_handle(
                old(self).registry_spec().slots_view(),
                h.id,
            ) && final(self).registry_spec().next_spec() == old(self).registry_spec().next_spec(),
            (adapter_token(old(self).registry_spec().slots_view(), h.id) is Some && adapter_token(
                old(self).registry_spec().slots_view(),
                h.id,
            )->0 is Some && adapter_token(old(self).registry_spec().slots_view(), h.id)->0->0
                < old(self).ledger_spec().slots_view().len()) ==> final(self).ledger_spec().slots_view() == old(self).ledger_spec().slots_view().update(
                adapter_token(old(self).registry_spec().slots_view(), h.id)->0->0 as int,
                crate::replies::step_slot(
                    old(self).ledger_spec().slots_view()[adapter_token(
                        old(self).registry_spec().slots_view(),
                        h.id,
                    )->0->0 as int],
                    ReplyState::Replied(value),
                ),
            ),
            (adapter_token(old(self).registry_spec().slots_view(), h.id) is Some && adapter_token(
                old(self).registry_spec().slots_view(),
                h.id,
            )->0 is Some && adapter_token(old(self).registry_spec().slots_view(), h.id)->0->0
                >= old(self).ledger_spec().slots_view().len()) ==> final(self).ledger_spec() == old(self).ledger_spec(),
            (adapter_token(old(self).registry_spec().slots_view(), h.id) is Some && adapter_token(
                old(self).registry_spec().slots_view(),
                h.id,
            )->0 is None) ==> final(self).ledger_spec() == old(self).ledger_spec(),
    {
        let token: Option<Option<u64>> = match self.registry.get(h.id) {
            Some(SpawnedItem::Respond { token }) => Some(*token),
            _ => None,
        };
        match token {
            Some(tok) => {
                let _ = self.registry.remove(h.id);
                match tok {
                    Some(t) => {
                        let _ = self.ledger.resolve(t, value);
                    },
                    None => {},
                }
                true
            },
            None => false,
        }
    }

    /// The outside reactor reports that the inner future of the head
    /// wait-item resolved; a timer-backed head is left to the clock.
    pub fn complete_wait_head(&mut self)
        requires
            old(self).wf(),
        ensures
            final(self).wf(),
            final(self).state_spec() == old(self).state_spec(),
            final(self).mailbox_spec() == old(self).mailbox_spec(),
            final(self).ledger_spec() == old(self).ledger_spec(),
            final(self).registry_spec() == old(self).registry_spec(),
            final(self).cancelled_view() == old(self).cancelled_view(),
            final(self).fired_view() == old(self).fired_view(),
            final(self).now_spec() == old(self).now_spec(),
            final(self).started_fired_spec() == old(self).started_fired_spec(),
            final(self).stopped_fired_spec() == old(self).stopped_fired_spec(),
            final(self).stopping_count() == old(self).stopping_count(),
            final(self).continue_count() == old(self).continue_count(),
            final(self).dispatched() == old(self).dispatched(),
            old(self).wait_view().len() == 0 ==> *final(self) == *old(self),
            old(self).wait_view().len() > 0 ==> {
                &&& final(self).wait_view().len() == old(self).wait_view().len()
                &&& final(self).wait_view()[0].fut_spec() == (match old(self).wait_view()[0].fut_spec() {
                    WaitFuture::External { done: _ } => WaitFuture::External { done: true },
                    f => f,
                })
                &&& (forall|i: int|
                    1 <= i < old(self).wait_view().len() ==> final(self).wait_view()[i] == old(self).wait_view()[i])
            },
    {
        if self.wait.len() > 0 {
            let mut head = self.wait.remove(0);
            head.complete();
            self.wait.insert(0, head);
            proof {
                assert forall|i: int| 1 <= i < old(self).wait_view().len() implies self.wait@[i]
                    == old(self).wait_view()[i] by {
                    assert(self.wait@[i] == old(self).wait_view().skip(1)[i - 1]);
                }
            }
        }
    }

    /// Invokes the handler for `msg` under exclusive access to actor and
    /// context, then resolves the response into the reply slot `reply`:
    /// an immediate value is written to a pending slot at once; a deferred
    /// response is scheduled as an adapter carrying the slot's token, and
    /// only when no adapter can be tracked any more does the requester
    /// observe cancellation instead. The dispatch trace is extended by
    /// exactly this message. The returned ghost names the handler's
    /// response, so callers can reason about what reached the slot.
    pub fn deliver<A: Handler<M, R>>(&mut self, act: &mut A, msg: M, reply: Option<u64>) -> (resp:
        Ghost<MessageResponse<R>>)
        requires
            old(self).wf(),
        ensures
            dispatch_run(*old(self), *final(self), seq![msg]),
            (response_value(resp@) is Some && reply is Some && reply->0 < old(self).ledger_spec().slots_view().len() && old(self).ledger_spec().slots_view()[
                reply->0 as int
            ] is Pending) ==> final(self).ledger_spec().slots_view()[reply->0 as int]
                == ReplyState::Replied(response_value(resp@)->0),
            (response_value(resp@) is None && reply is Some && reply->0 < old(self).ledger_spec().slots_view().len() && old(self).ledger_spec().slots_view()[
                reply->0 as int
            ] is Pending) ==> has_respond_for(final(self).registry_spec().slots_view(), reply)
                || final(self).ledger_spec().slots_view()[reply->0 as int] is Cancelled,
    {
        let ghost m = msg;
        proof {
            self.dispatched@ = self.dispatched@.push(m);
        }
        let ghost mid0 = *self;
        let resp = act.handle(msg, self);
        let ghost resp_g = resp;
        let ghost mid1 = *self;
        self.route_response(resp, reply);
        proof {
            lemma_engine_frame_refl(*old(self));
            assert(engine_frame(*old(self), mid0));
            lemma_engine_frame_trans(*old(self), mid0, mid1);
            lemma_engine_frame_trans(*old(self), mid1, *final(self));
            assert(final(self).dispatched() =~= old(self).dispatched() + seq![m]);
            if response_value(resp_g) is None && reply is Some && reply->0 < old(self).ledger_spec().slots_view().len() {
                if mid1.registry_spec().next_spec() < u64::MAX {
                    let n = mid1.registry_spec().slots_view().len() as int;
                    assert(final(self).registry_spec().slots_view()[n].1 == (
                    SpawnedItem::Respond::<M> { token: reply }));
                }
            }
        }
        Ghost(resp_g)
    }

    /// Resolves one handler response into the reply slot `reply`: an
    /// immediate value settles the slot at once; a deferred response
    /// schedules a response adapter carrying the slot's token, or — only
    /// when no adapter can be tracked any more — drops the response, which
    /// the requester observes as cancellation.
    fn route_response(&mut self, resp: MessageResponse<R>, reply: Option<u64>)
        requires
            old(self).wf(),
        ensures
            engine_frame(*old(self), *final(self)),
            final(self).mailbox_spec() == old(self).mailbox_spec(),
            final(self).dispatched() == old(self).dispatched(),
            final(self).state_spec() == old(self).state_spec(),
            final(self).wait_view() == old(self).wait_view(),
            final(self).cancelled_view() == old(self).cancelled_view(),
            ledger_mono(old(self).ledger_spec(), final(self).ledger_spec()),
            response_value(resp) is Some ==> final(self).registry_spec() == old(self).registry_spec(),
            (response_value(resp) is Some && reply is Some && reply->0 < old(self).ledger_spec().slots_view().len()) ==> final(self).ledger_spec().slots_view() == old(self).ledger_spec().slots_view().update(
                reply->0 as int,
                crate::replies::step_slot(
                    old(self).ledger_spec().slots_view()[reply->0 as int],
                    ReplyState::Replied(response_value(resp)->0),
                ),
            ),
            (response_value(resp) is Some && !(reply is Some && reply->0 < old(self).ledger_spec().slots_view().len())) ==> final(self).ledger_spec() == old(self).ledger_spec(),
            (response_value(resp) is None && old(self).registry_spec().next_spec() < u64::MAX)
                ==> final(self).registry_spec().slots_view() == old(self).registry_spec().slots_view().push(
                (old(self).registry_spec().next_spec(), (SpawnedItem::Respond { token: reply })),
            ) && final(self).ledger_spec() == old(self).ledger_spec(),
            (response_value(resp) is None && old(self).registry_spec().next_spec() == u64::MAX)
                ==> final(self).registry_spec() == old(self).registry_spec(),
            (response_value(resp) is None && old(self).registry_spec().next_spec() == u64::MAX
                && reply is Some && reply->0 < old(self).ledger_spec().slots_view().len()) ==> final(self).ledger_spec().slots_view() == old(self).ledger_spec().slots_view().update(
                reply->0 as int,
                crate::replies::step_slot(
                    old(self).ledger_spec().slots_view()[reply->0 as int],
                    ReplyState::Cancelled,
                ),
            ),
            (response_value(resp) is None && old(self).registry_spec().next_spec() == u64::MAX && !(
            reply is Some && reply->0 < old(self).ledger_spec().slots_view().len())) ==> final(self).ledger_spec() == old(self).ledger_spec(),
    {
        proof {
            lemma_prefix_refl(old(self).wait_view());
            lemma_prefix_refl(old(self).cancelled_view());
            lemma_prefix_refl(old(self).registry_spec().slots_view());
        }
        match resp {
            MessageResponse::Value(v) => {
                match reply {
                    Some(t) => {
                        let _ = self.ledger.resolve(t, v);
                    },
                    None => {},
                }
            },
            MessageResponse::Future | MessageResponse::ActorFuture => {
                let spawned = self.registry.spawn(SpawnedItem::Respond { token: reply });
                proof {
                    if old(self).registry_spec().next_spec() < u64::MAX {
                        lemma_prefix_push(
                            old(self).registry_spec().slots_view(),
                            (
                                old(self).registry_spec().next_spec(),
                                (SpawnedItem::Respond { token: reply }),
                            ),
                        );
                    }
                }
                match spawned {
                    Some(_) => {},
                    None => {
                        // No adapter can be tracked: the response is
                        // dropped unfulfilled, which the requester
                        // observes as cancellation.
                        match reply {
                            Some(t) => {
                                let _ = self.ledger.cancel(t);
                            },
                            None => {},
                        }
                    },
                }
            },
        }
    }
}

/// How many envelopes one polling pass dispatches at most before it
/// yields: the fairness cap of the driver.
pub const DISPATCH_BUDGET: usize = 16;

impl<M, R> Context<M, R> {
    /// Fires the started hook, once: on the first pass over a live
    /// context. After the hook returns, a still-`Started` lifecycle
    /// advances to `Running`.
    fn fire_started<A: Actor<M, R>>(&mut self, act: &mut A)
        requires
            old(self).wf(),
        ensures
            final(self).wf(),
            final(self).mailbox_spec() == old(self).mailbox_spec(),
            final(self).ledger_spec() == old(self).ledger_spec(),
            final(self).dispatched() == old(self).dispatched(),
            final(self).now_spec() == old(self).now_spec(),
            final(self).fired_view() == old(self).fired_view(),
            final(self).stopped_fired_spec() == old(self).stopped_fired_spec(),
            final(self).stopping_count() == old(self).stopping_count(),
            final(self).continue_count() == old(self).continue_count(),
            old(self).wait_view().is_prefix_of(final(self).wait_view()),
            old(self).cancelled_view().is_prefix_of(final(self).cancelled_view()),
            old(self).registry_spec().slots_view().is_prefix_of(
                final(self).registry_spec().slots_view(),
            ),
            old(self).registry_spec().next_spec() <= final(self).registry_spec().next_spec(),
            forall|k: int|
                old(self).registry_spec().slots_view().len() <= k < final(self).registry_spec().slots_view().len() ==> (#[trigger] final(self).registry_spec().slots_view()[k]).0 >= old(self).registry_spec().next_spec(),
            (old(self).started_fired_spec() || !old(self).state_spec().is_alive()) ==> *final(self)
                == *old(self),
            final(self).started_fired_spec() == (old(self).started_fired_spec() || old(self).state_spec().is_alive()),
            (final(self).state_spec() == old(self).state_spec() || final(self).state_spec()
                == ActorState::Running || (old(self).state_spec().is_alive() && final(self).state_spec() == ActorState::Stopping)),
            final(self).state_spec() != ActorState::Started ==> final(self).state_spec() != (
            ActorState::Started),
            old(self).state_spec() == ActorState::Started && !old(self).started_fired_spec()
                ==> final(self).state_spec() != ActorState::Started,
    {
        proof {
            lemma_prefix_refl(old(self).wait_view());
            lemma_prefix_refl(old(self).cancelled_view());
            lemma_prefix_refl(old(self).registry_spec().slots_view());
        }
        if self.started_fired || !self.state.alive() {
            return ;
        }
        self.started_fired = true;
        act.started(self);
        match self.state {
            ActorState::Started => {
                self.state = ActorState::Running;
            },
            _ => {},
        }
    }

    /// Drains the wait queue head-first: completed wait-items leave in
    /// arrival order; the pass blocks on the first one still pending.
    /// While it blocks, nothing else in the context runs.
    fn drain_wait(&mut self) -> (blocked: bool)
        requires
            old(self).wf(),
        ensures
            final(self).wf(),
            final(self).state_spec() == old(self).state_spec(),
            final(self).mailbox_spec() == old(self).mailbox_spec(),
            final(self).ledger_spec() == old(self).ledger_spec(),
            final(self).registry_spec() == old(self).registry_spec(),
            final(self).cancelled_view() == old(self).cancelled_view(),
            final(self).fired_view() == old(self).fired_view(),
            final(self).now_spec() == old(self).now_spec(),
            final(self).started_fired_spec() == old(self).started_fired_spec(),
            final(self).stopped_fired_spec() == old(self).stopped_fired_spec(),
            final(self).stopping_count() == old(self).stopping_count(),
            final(self).continue_count() == old(self).continue_count(),
            final(self).dispatched() == old(self).dispatched(),
            exists|j: int|
                0 <= j <= old(self).wait_view().len() && final(self).wait_view() == old(self).wait_view().skip(j),
            blocked == final(self).waiting_spec(),
            blocked ==> !final(self).wait_view()[0].completes(
                old(self).now_spec(),
                old(self).state_spec().is_alive(),
            ),
    {
        let ghost pre = *old(self);
        let ghost mut j: int = 0;
        proof {
            assert(self.wait@ =~= pre.wait_view().skip(0));
        }
        loop
            invariant
                self.wf(),
                pre == *old(self),
                0 <= j <= pre.wait_view().len(),
                self.wait@ == pre.wait_view().skip(j),
                self.state == pre.state_spec(),
                self.mailbox == pre.mailbox_spec(),
                self.ledger == pre.ledger_spec(),
                self.registry == pre.registry_spec(),
                self.cancelled@ == pre.cancelled_view(),
                self.fired@ == pre.fired_view(),
                self.now == pre.now_spec(),
                self.started_fired == pre.started_fired_spec(),
                self.stopped_fired == pre.stopped_fired_spec(),
                self.stopping_count@ == pre.stopping_count(),
                self.continue_count@ == pre.continue_count(),
                self.dispatched@ == pre.dispatched(),
            decreases pre.wait_view().len() - j,
        {
            if self.wait.len() == 0 {
                return false;
            }
            let head = self.wait.remove(0);
            let p = head.poll(self);
            match p {
                Poll::Ready(()) => {
                    proof {
                        j = j + 1;
                        assert(pre.wait_view().skip(j - 1).skip(1) =~= pre.wait_view().skip(j));
                    }
                },
                Poll::Pending => {
                    self.wait.insert(0, head);
                    proof {
                        assert(self.wait@ =~= pre.wait_view().skip(j));
                    }
                    return true;
                },
            }
        }
    }

    /// Applies every recorded cancellation request: each named item is
    /// removed from the registry and dropped; a dropped response adapter
    /// signals its requester by moving the reply slot to `Cancelled`.
    /// Requests whose handle is absent are ignored.
    fn apply_cancels(&mut self)
        requires
            old(self).wf(),
        ensures
            final(self).wf(),
            final(self).state_spec() == old(self).state_spec(),
            final(self).mailbox_spec() == old(self).mailbox_spec(),
            final(self).wait_view() == old(self).wait_view(),
            final(self).fired_view() == old(self).fired_view(),
            final(self).now_spec() == old(self).now_spec(),
            final(self).started_fired_spec() == old(self).started_fired_spec(),
            final(self).stopped_fired_spec() == old(self).stopped_fired_spec(),
            final(self).stopping_count() == old(self).stopping_count(),
            final(self).continue_count() == old(self).continue_count(),
            final(self).dispatched() == old(self).dispatched(),
            final(self).cancelled_view() == Seq::<u64>::empty(),
            final(self).registry_spec().next_spec() == old(self).registry_spec().next_spec(),
            final(self).registry_spec().slots_view().len() <= old(self).registry_spec().slots_view().len(),
            ledger_mono(old(self).ledger_spec(), final(self).ledger_spec()),
            old(self).cancelled_view().len() == 0 ==> final(self).registry_spec() == old(self).registry_spec() && final(self).ledger_spec() == old(self).ledger_spec(),
            crate::registry::slots_subset(
                final(self).registry_spec().slots_view(),
                old(self).registry_spec().slots_view(),
            ),
            forall|j: int|
                0 <= j < old(self).cancelled_view().len() ==> !contains_handle(
                    final(self).registry_spec().slots_view(),
                    #[trigger] old(self).cancelled_view()[j],
                ),
    {
        proof {
            crate::registry::lemma_slots_subset_refl(old(self).registry_spec().slots_view());
            assert(old(self).cancelled_view() =~= old(self).cancelled_view().take(
                old(self).cancelled_view().len() as int,
            ));
        }
        loop
            invariant
                self.cancelled@.len() <= old(self).cancelled_view().len(),
                self.cancelled@ == old(self).cancelled_view().take(self.cancelled@.len() as int),
                crate::registry::slots_subset(
                    self.registry.slots_view(),
                    old(self).registry_spec().slots_view(),
                ),
                forall|j: int|
                    self.cancelled@.len() <= j < old(self).cancelled_view().len()
                        ==> !contains_handle(
                        self.registry.slots_view(),
                        #[trigger] old(self).cancelled_view()[j],
                    ),
                self.registry.slots_view().len() <= old(self).registry_spec().slots_view().len(),
                old(self).cancelled_view().len() == 0 ==> self.registry == old(self).registry_spec()
                    && self.ledger == old(self).ledger_spec(),
                self.wf(),
                self.state == old(self).state_spec(),
                self.mailbox == old(self).mailbox_spec(),
                self.wait@ == old(self).wait_view(),
                self.fired@ == old(self).fired_view(),
                self.now == old(self).now_spec(),
                self.started_fired == old(self).started_fired_spec(),
                self.stopped_fired == old(self).stopped_fired_spec(),
                self.stopping_count@ == old(self).stopping_count(),
                self.continue_count@ == old(self).continue_count(),
                self.dispatched@ == old(self).dispatched(),
                self.registry.next_spec() == old(self).registry_spec().next_spec(),
                ledger_mono(old(self).ledger_spec(), self.ledger),
            decreases self.cancelled@.len(),
        {
            let next = self.cancelled.pop();
            match next {
                None => {
                    proof {
                        assert(self.cancelled@ =~= Seq::<u64>::empty());
                    }
                    return ;
                },
                Some(id) => {
                    let ghost mid_ledger = self.ledger;
                    let ghost mid_slots = self.registry.slots_view();
                    let ghost m0 = self.cancelled@.len() as int + 1;
                    let removed = self.registry.remove(id);
                    proof {
                        crate::registry::lemma_slots_subset_trans(
                            self.registry.slots_view(),
                            mid_slots,
                            old(self).registry_spec().slots_view(),
                        );
                        assert(id == old(self).cancelled_view()[m0 - 1]);
                        assert forall|j: int|
                            self.cancelled@.len() <= j < old(self).cancelled_view().len()
                                implies !contains_handle(
                            self.registry.slots_view(),
                            #[trigger] old(self).cancelled_view()[j],
                        ) by {
                            let idj = old(self).cancelled_view()[j];
                            if j == m0 - 1 {
                                assert(!contains_handle(self.registry.slots_view(), id));
                            } else {
                                if contains_handle(self.registry.slots_view(), idj) {
                                    let k = choose|k: int|
                                        0 <= k < self.registry.slots_view().len()
                                            && self.registry.slots_view()[k].0 == idj;
                                    assert(crate::registry::slot_in(
                                        self.registry.slots_view()[k],
                                        mid_slots,
                                    ));
                                    let k2 = choose|k2: int|
                                        0 <= k2 < mid_slots.len() && mid_slots[k2]
                                            == self.registry.slots_view()[k];
                                    assert(mid_slots[k2].0 == idj);
                                    assert(contains_handle(mid_slots, idj));
                                    assert(false);
                                }
                            }
                        }
                    }
                    match removed {
                        Some(SpawnedItem::Respond { token: Some(t) }) => {
                            let _ = self.ledger.cancel(t);
                            proof {
                                lemma_ledger_mono_trans(
                                    old(self).ledger_spec(),
                                    mid_ledger,
                                    self.ledger,
                                );
                            }
                        },
                        _ => {},
                    }
                },
            }
        }
    }

    /// Dispatches one envelope, if dispatch is permitted: the lifecycle is
    /// not `Stopped`, the started hook has run, and no wait-item is
    /// queued. The envelope handed to the handler is exactly the oldest
    /// one admitted and not yet served — FIFO dispatch — and its pending
    /// reply slot ends written with the handler's immediate value, backed
    /// by a scheduled response adapter holding its token, or cancelled.
    /// When dispatch is not permitted — in particular while a wait-item is
    /// queued — or the mailbox is empty, nothing at all changes. Returns
    /// whether an envelope was dispatched, and the ghost of the handler's
    /// response when one was.
    pub fn dispatch_one<A: Handler<M, R>>(&mut self, act: &mut A) -> (res: (
        bool,
        Ghost<Option<MessageResponse<R>>>,
    ))
        requires
            old(self).wf(),
        ensures
            final(self).wf(),
            !res.0 ==> *final(self) == *old(self),
            res.0 == (!old(self).waiting_spec() && old(self).state_spec() != ActorState::Stopped && old(self).started_fired_spec() && old(self).mailbox_spec().queue_view().len() > 0),
            res.0 == (res.1@ is Some),
            res.0 ==> {
                &&& engine_frame(*old(self), *final(self))
                &&& ledger_mono(old(self).ledger_spec(), final(self).ledger_spec())
                &&& final(self).mailbox_spec().history() == old(self).mailbox_spec().history()
                &&& final(self).mailbox_spec().capacity_spec() == old(self).mailbox_spec().capacity_spec()
                &&& final(self).mailbox_spec().is_closed() == old(self).mailbox_spec().is_closed()
                &&& final(self).mailbox_spec().queue_view() == old(self).mailbox_spec().queue_view().skip(1)
                &&& final(self).mailbox_spec().popped() == old(self).mailbox_spec().popped() + 1
                &&& final(self).dispatched() == old(self).dispatched().push(
                    old(self).mailbox_spec().queue_view()[0].msg,
                )
                &&& old(self).mailbox_spec().queue_view()[0] == old(self).mailbox_spec().history()[
                    old(self).mailbox_spec().popped() as int
                ]
            },
            (res.0 && old(self).mailbox_spec().queue_view()[0].reply is Some && old(self).mailbox_spec().queue_view()[0].reply->0 < old(self).ledger_spec().slots_view().len()
                && old(self).ledger_spec().slots_view()[
                old(self).mailbox_spec().queue_view()[0].reply->0 as int
            ] is Pending) ==> {
                ||| final(self).ledger_spec().slots_view()[
                    old(self).mailbox_spec().queue_view()[0].reply->0 as int
                ] is Replied
                ||| has_respond_for(
                    final(self).registry_spec().slots_view(),
                    old(self).mailbox_spec().queue_view()[0].reply,
                )
                ||| final(self).ledger_spec().slots_view()[
                    old(self).mailbox_spec().queue_view()[0].reply->0 as int
                ] is Cancelled
            },
            (res.0 && old(self).mailbox_spec().queue_view()[0].reply is Some && old(self).mailbox_spec().queue_view()[0].reply->0 < old(self).ledger_spec().slots_view().len()
                && old(self).ledger_spec().slots_view()[
                old(self).mailbox_spec().queue_view()[0].reply->0 as int
            ] is Pending && response_value(res.1@->0) is Some) ==> final(self).ledger_spec().slots_view()[
                old(self).mailbox_spec().queue_view()[0].reply->0 as int
            ] == ReplyState::Replied(response_value(res.1@->0)->0),
    {
        if !self.started_fired {
            return (false, Ghost(None));
        }
        match self.state {
            ActorState::Stopped => {
                return (false, Ghost(None));
            },
            _ => {},
        }
        if self.wait.len() > 0 {
            return (false, Ghost(None));
        }
        let popped = self.mailbox.pop();
        match popped {
            None => (false, Ghost(None)),
            Some(env) => {
                let ghost mid = *self;
                let resp = self.deliver(act, env.msg, env.reply);
                proof {
                    lemma_engine_frame_refl(*old(self));
                    assert(engine_frame(*old(self), mid));
                    lemma_engine_frame_trans(*old(self), mid, *final(self));
                    assert(final(self).dispatched() =~= old(self).dispatched().push(
                        old(self).mailbox_spec().queue_view()[0].msg,
                    ));
                }
                (true, Ghost(Some(resp@)))
            },
        }
    }

    /// Dispatches queued envelopes in admission order, up to the fairness
    /// cap, stopping early when dispatch is no longer permitted — in
    /// particular the moment a handler queues a wait-item — or the mailbox
    /// runs dry. While a wait-item is queued, nothing at all changes.
    fn dispatch_pending<A: Handler<M, R>>(&mut self, act: &mut A)
        requires
            old(self).wf(),
        ensures
            final(self).wf(),
            engine_frame(*old(self), *final(self)),
            ledger_mono(old(self).ledger_spec(), final(self).ledger_spec()),
            final(self).mailbox_spec().history() == old(self).mailbox_spec().history(),
            final(self).mailbox_spec().capacity_spec() == old(self).mailbox_spec().capacity_spec(),
            final(self).mailbox_spec().is_closed() == old(self).mailbox_spec().is_closed(),
            exists|n: int|
                {
                    &&& 0 <= n <= old(self).mailbox_spec().queue_view().len()
                    &&& final(self).mailbox_spec().queue_view() == old(self).mailbox_spec().queue_view().skip(n)
                    &&& final(self).mailbox_spec().popped() == old(self).mailbox_spec().popped() + n
                    &&& final(self).dispatched() == old(self).dispatched() + old(self).mailbox_spec().queue_view().take(n).map_values(|e: Envelope<M>| e.msg)
                },
            old(self).waiting_spec() ==> *final(self) == *old(self),
            old(self).state_spec() == ActorState::Stopped ==> *final(self) == *old(self),
            (!old(self).waiting_spec() && old(self).state_spec() != ActorState::Stopped && old(self).started_fired_spec() && old(self).mailbox_spec().queue_view().len() > 0) ==> final(self).dispatched().len() > old(self).dispatched().len(),
    {
        let ghost pre = *old(self);
        let ghost mut n: int = 0;
        let mut budget: usize = DISPATCH_BUDGET;
        proof {
            lemma_engine_frame_refl(pre);
            assert(pre.mailbox_spec().queue_view().skip(0) =~= pre.mailbox_spec().queue_view());
            assert(pre.dispatched() + pre.mailbox_spec().queue_view().take(0).map_values(
                |e: Envelope<M>| e.msg,
            ) =~= pre.dispatched());
        }
        loop
            invariant
                self.wf(),
                pre == *old(self),
                0 <= n <= pre.mailbox_spec().queue_view().len(),
                engine_frame(pre, *self),
                ledger_mono(pre.ledger_spec(), self.ledger_spec()),
                self.mailbox_spec().history() == pre.mailbox_spec().history(),
                self.mailbox_spec().capacity_spec() == pre.mailbox_spec().capacity_spec(),
                self.mailbox_spec().is_closed() == pre.mailbox_spec().is_closed(),
                self.mailbox_spec().queue_view() == pre.mailbox_spec().queue_view().skip(n),
                self.mailbox_spec().popped() == pre.mailbox_spec().popped() + n,
                self.dispatched() == pre.dispatched() + pre.mailbox_spec().queue_view().take(
                    n,
                ).map_values(|e: Envelope<M>| e.msg),
                n == 0 ==> *self == pre,
                n == 0 || !pre.waiting_spec(),
                n == 0 || pre.state_spec() != ActorState::Stopped,
                n + budget == DISPATCH_BUDGET,
            decreases budget,
        {
            if budget == 0 {
                proof {
                    assert(pre.mailbox_spec().queue_view().take(n).map_values(
                        |e: Envelope<M>| e.msg,
                    ).len() == n);
                }
                return ;
            }
            let ghost mid = *self;
            let did = self.dispatch_one(act).0;
            if !did {
                proof {
                    assert(pre.mailbox_spec().queue_view().take(n).map_values(
                        |e: Envelope<M>| e.msg,
                    ).len() == n);
                    if !pre.waiting_spec() && pre.state_spec() != ActorState::Stopped
                        && pre.started_fired_spec() && pre.mailbox_spec().queue_view().len() > 0 {
                        assert(n >= 1);
                    }
                }
                return ;
            }
            proof {
                lemma_engine_frame_trans(pre, mid, *self);
                lemma_ledger_mono_trans(pre.ledger_spec(), mid.ledger_spec(), self.ledger_spec());
                let q = pre.mailbox_spec().queue_view();
                assert(mid.mailbox_spec().queue_view()[0] == q.skip(n)[0]);
                assert(q.skip(n)[0] == q[n]);
                assert(mid.mailbox_spec().queue_view().skip(1) =~= q.skip(n + 1));
                assert(q.take(n + 1).map_values(|e: Envelope<M>| e.msg) =~= q.take(n).map_values(
                    |e: Envelope<M>| e.msg,
                ).push(q[n].msg));
                n = n + 1;
            }
            budget = budget - 1;
        }
    }

    /// Polls every spawned item of this pass once, in registry order.
    /// Immediate messages deliver and leave; delayed messages deliver and
    /// leave once their deadline passed; streams drain what is ready;
    /// timed callbacks that came due are reported through `fired`;
    /// response adapters stay until the outside future completes. Items
    /// spawned by handlers during the pass keep their fresh handles and
    /// are polled from the next pass on.
    fn poll_spawned<A: Handler<M, R>>(&mut self, act: &mut A)
        requires
            old(self).wf(),
        ensures
            final(self).wf(),
            final(self).mailbox_spec() == old(self).mailbox_spec(),
            ledger_mono(old(self).ledger_spec(), final(self).ledger_spec()),
            final(self).now_spec() == old(self).now_spec(),
            final(self).started_fired_spec() == old(self).started_fired_spec(),
            final(self).stopped_fired_spec() == old(self).stopped_fired_spec(),
            final(self).stopping_count() == old(self).stopping_count(),
            final(self).continue_count() == old(self).continue_count(),
            old(self).dispatched().is_prefix_of(final(self).dispatched()),
            old(self).fired_view().is_prefix_of(final(self).fired_view()),
            old(self).wait_view().is_prefix_of(final(self).wait_view()),
            old(self).cancelled_view().is_prefix_of(final(self).cancelled_view()),
            final(self).registry_spec().next_spec() >= old(self).registry_spec().next_spec(),
            (final(self).state_spec() == old(self).state_spec() || (old(self).state_spec().is_alive() && final(self).state_spec() == ActorState::Stopping)),
            old(self).registry_spec().slots_view().len() == 0 ==> {
                &&& final(self).wait_view() == old(self).wait_view()
                &&& final(self).dispatched() == old(self).dispatched()
                &&& final(self).state_spec() == old(self).state_spec()
                &&& final(self).fired_view() == old(self).fired_view()
                &&& final(self).ledger_spec() == old(self).ledger_spec()
                &&& final(self).registry_spec().slots_view().len() == 0
            },
            forall|j: int|
                old(self).fired_view().len() <= j < final(self).fired_view().len()
                    ==> later_due_in(
                    old(self).registry_spec().slots_view(),
                    #[trigger] final(self).fired_view()[j],
                    old(self).now_spec(),
                ),
            forall|id: u64|
                !contains_handle(old(self).registry_spec().slots_view(), id) && id < old(self).registry_spec().next_spec() ==> !(#[trigger] contains_handle(
                    final(self).registry_spec().slots_view(),
                    id,
                )),
    {
        let ghost pre = *old(self);
        let limit = self.registry.next_val();
        let mut work = self.registry.take_all();
        let mut kept: Vec<(u64, SpawnedItem<M>)> = Vec::new();
        proof {
            lemma_prefix_refl(pre.dispatched());
            lemma_prefix_refl(pre.fired_view());
            lemma_prefix_refl(pre.wait_view());
            lemma_prefix_refl(pre.cancelled_view());
            assert forall|k: int| 0 <= k < work@.len() implies crate::registry::slot_in(
                #[trigger] work@[k],
                pre.registry_spec().slots_view(),
            ) by {
                assert(work@[k] == pre.registry_spec().slots_view()[k]);
            }
        }
        while work.len() > 0
            invariant
                pre.registry_spec().slots_view().len() == 0 ==> {
                    &&& work@.len() == 0
                    &&& kept@.len() == 0
                    &&& self.wait@ == pre.wait_view()
                    &&& self.dispatched@ == pre.dispatched()
                    &&& self.state == pre.state_spec()
                    &&& self.fired@ == pre.fired_view()
                    &&& self.ledger == pre.ledger_spec()
                    &&& self.registry.slots_view().len() == 0
                },
                self.wf(),
                pre == *old(self),
                limit == pre.registry_spec().next_spec(),
                self.mailbox_spec() == pre.mailbox_spec(),
                ledger_mono(pre.ledger_spec(), self.ledger_spec()),
                self.now_spec() == pre.now_spec(),
                self.started_fired_spec() == pre.started_fired_spec(),
                self.stopped_fired_spec() == pre.stopped_fired_spec(),
                self.stopping_count() == pre.stopping_count(),
                self.continue_count() == pre.continue_count(),
                pre.dispatched().is_prefix_of(self.dispatched()),
                pre.fired_view().is_prefix_of(self.fired_view()),
                pre.wait_view().is_prefix_of(self.wait_view()),
                pre.cancelled_view().is_prefix_of(self.cancelled_view()),
                self.registry_spec().next_spec() >= limit,
                (self.state_spec() == pre.state_spec() || (pre.state_spec().is_alive()
                    && self.state_spec() == ActorState::Stopping)),
                crate::registry::slots_sorted(work@),
                crate::registry::slots_sorted(kept@),
                forall|i: int| 0 <= i < work@.len() ==> (#[trigger] work@[i]).0 < limit,
                forall|i: int| 0 <= i < kept@.len() ==> (#[trigger] kept@[i]).0 < limit,
                forall|i: int, j: int|
                    0 <= i < kept@.len() && 0 <= j < work@.len() ==> (#[trigger] kept@[i]).0 < (
                    #[trigger] work@[j]).0,
                forall|i: int|
                    0 <= i < self.registry_spec().slots_view().len() ==> (#[trigger] self.registry_spec().slots_view()[i]).0
                        >= limit,
                forall|i: int|
                    0 <= i < work@.len() ==> crate::contextitems::item_wf(
                        (#[trigger] work@[i]).1,
                    ),
                forall|i: int|
                    0 <= i < kept@.len() ==> crate::contextitems::item_wf(
                        (#[trigger] kept@[i]).1,
                    ),
                forall|k: int|
                    0 <= k < work@.len() ==> crate::registry::slot_in(
                        #[trigger] work@[k],
                        pre.registry_spec().slots_view(),
                    ),
                forall|j: int|
                    pre.fired_view().len() <= j < self.fired@.len() ==> later_due_in(
                        pre.registry_spec().slots_view(),
                        #[trigger] self.fired@[j],
                        pre.now_spec(),
                    ),
                forall|k: int|
                    0 <= k < kept@.len() ==> contains_handle(
                        pre.registry_spec().slots_view(),
                        (#[trigger] kept@[k]).0,
                    ),
            decreases work@.len(),
        {
            let ghost work0 = work@;
            let (h, item) = work.remove(0);
            proof {
                assert forall|k: int| 0 <= k < work@.len() implies crate::registry::slot_in(
                    #[trigger] work@[k],
                    pre.registry_spec().slots_view(),
                ) by {
                    assert(work@[k] == work0[k + 1]);
                }
            }
            let ghost mid = *self;
            match item {
                SpawnedItem::Message(mut mi) => {
                    let _ = mi.poll(act, self);
                    proof {
                        lemma_ids_bound(mid, *self, limit);
                        lemma_prefix_trans(pre.dispatched(), mid.dispatched(), self.dispatched());
                        lemma_prefix_trans(pre.wait_view(), mid.wait_view(), self.wait_view());
                        lemma_prefix_trans(
                            pre.cancelled_view(),
                            mid.cancelled_view(),
                            self.cancelled_view(),
                        );
                        lemma_ledger_mono_trans(
                            pre.ledger_spec(),
                            mid.ledger_spec(),
                            self.ledger_spec(),
                        );
                    }
                },
                SpawnedItem::Delayed(mut di) => {
                    let p = di.poll(act, self);
                    match p {
                        Poll::Pending => {
                            proof {
                                lemma_kept_handle(work0, pre.registry_spec().slots_view());
                            }
                            kept.push((h, SpawnedItem::Delayed(di)));
                        },
                        Poll::Ready(()) => {
                            proof {
                                lemma_ids_bound(mid, *self, limit);
                            }
                        },
                    }
                    proof {
                        lemma_prefix_trans(pre.dispatched(), mid.dispatched(), self.dispatched());
                        lemma_prefix_trans(pre.wait_view(), mid.wait_view(), self.wait_view());
                        lemma_prefix_trans(
                            pre.cancelled_view(),
                            mid.cancelled_view(),
                            self.cancelled_view(),
                        );
                        lemma_ledger_mono_trans(
                            pre.ledger_spec(),
                            mid.ledger_spec(),
                            self.ledger_spec(),
                        );
                    }
                },
                SpawnedItem::Stream(mut si) => {
                    let p = si.poll(act, self);
                    proof {
                        lemma_ids_bound(mid, *self, limit);
                    }
                    match p {
                        Poll::Pending => {
                            proof {
                                lemma_kept_handle(work0, pre.registry_spec().slots_view());
                            }
                            kept.push((h, SpawnedItem::Stream(si)));
                        },
                        Poll::Ready(()) => {},
                    }
                    proof {
                        lemma_prefix_trans(pre.dispatched(), mid.dispatched(), self.dispatched());
                        lemma_prefix_trans(pre.wait_view(), mid.wait_view(), self.wait_view());
                        lemma_prefix_trans(
                            pre.cancelled_view(),
                            mid.cancelled_view(),
                            self.cancelled_view(),
                        );
                        lemma_ledger_mono_trans(
                            pre.ledger_spec(),
                            mid.ledger_spec(),
                            self.ledger_spec(),
                        );
                    }
                },
                SpawnedItem::Later { fire_at } => {
                    if self.now >= fire_at {
                        self.fired.push(h);
                        proof {
                            lemma_prefix_push(mid.fired_view(), h);
                            lemma_prefix_trans(pre.fired_view(), mid.fired_view(), self.fired_view());
                            assert(crate::registry::slot_in(
                                work0[0],
                                pre.registry_spec().slots_view(),
                            ));
                            let k2 = choose|k2: int|
                                0 <= k2 < pre.registry_spec().slots_view().len()
                                    && pre.registry_spec().slots_view()[k2] == work0[0];
                            assert((pre.registry_spec().slots_view()[k2]).0 == h);
                            assert(crate::contextitems::is_due_later(
                                pre.registry_spec().slots_view()[k2].1,
                                pre.now_spec(),
                            ));
                            assert(later_due_in(
                                pre.registry_spec().slots_view(),
                                h,
                                pre.now_spec(),
                            ));
                            assert forall|j: int|
                                pre.fired_view().len() <= j < self.fired@.len() implies later_due_in(
                                pre.registry_spec().slots_view(),
                                #[trigger] self.fired@[j],
                                pre.now_spec(),
                            ) by {
                                if j < self.fired@.len() - 1 {
                                    assert(self.fired@[j] == mid.fired_view()[j]);
                                } else {
                                    assert(self.fired@[j] == h);
                                }
                            }
                        }
                    } else {
                        proof {
                            lemma_kept_handle(work0, pre.registry_spec().slots_view());
                        }
                        kept.push((h, SpawnedItem::Later { fire_at }));
                    }
                },
                SpawnedItem::Respond { token } => {
                    proof {
                        lemma_kept_handle(work0, pre.registry_spec().slots_view());
                    }
                    kept.push((h, SpawnedItem::Respond { token }));
                },
            }
        }
        let ghost kept_view = kept@;
        let ghost before = self.registry_spec().slots_view();
        self.registry.prepend(kept);
        proof {
            assert forall|i: int|
                0 <= i < self.registry_spec().slots_view().len() implies crate::contextitems::item_wf(
                (#[trigger] self.registry_spec().slots_view()[i]).1,
            ) by {
                if i < kept_view.len() {
                    assert(self.registry_spec().slots_view()[i] == kept_view[i]);
                } else {
                    assert(self.registry_spec().slots_view()[i] == before[i - kept_view.len()]);
                }
            }
            assert forall|id: u64|
                !contains_handle(pre.registry_spec().slots_view(), id) && id
                    < pre.registry_spec().next_spec() implies !(#[trigger] contains_handle(
                self.registry_spec().slots_view(),
                id,
            )) by {
                if contains_handle(self.registry_spec().slots_view(), id) {
                    let k = choose|k: int|
                        0 <= k < self.registry_spec().slots_view().len()
                            && self.registry_spec().slots_view()[k].0 == id;
                    if k < kept_view.len() {
                        assert(self.registry_spec().slots_view()[k] == kept_view[k]);
                        assert(contains_handle(pre.registry_spec().slots_view(), kept_view[k].0));
                        assert(false);
                    } else {
                        assert(self.registry_spec().slots_view()[k] == before[k - kept_view.len()]);
                        assert((before[k - kept_view.len()]).0 >= limit);
                        assert(false);
                    }
                }
            }
        }
    }

    /// Resolves a pending stop request. On `Stopping` the stopping hook
    /// runs once more; `Continue` cancels the stop and the lifecycle goes
    /// back to where it was, `Stop` confirms it: the lifecycle reaches
    /// `Stopped`, the stopped hook fires, and the context is torn down —
    /// scheduled items are dropped in reverse insertion order (a dropped
    /// response adapter signals `Cancelled`), queued envelopes are dropped
    /// with their reply slots `Closed`, the mailbox closes, and every
    /// reply slot still pending observes `Closed`.
    fn check_stopping<A: Actor<M, R>>(&mut self, act: &mut A) -> (done: bool)
        requires
            old(self).wf(),
        ensures
            final(self).wf(),
            final(self).dispatched() == old(self).dispatched(),
            final(self).mailbox_spec().history() == old(self).mailbox_spec().history(),
            final(self).now_spec() == old(self).now_spec(),
            final(self).started_fired_spec() == old(self).started_fired_spec(),
            final(self).fired_view() == old(self).fired_view(),
            ledger_mono(old(self).ledger_spec(), final(self).ledger_spec()),
            old(self).state_spec() != ActorState::Stopping ==> *final(self) == *old(self) && done
                == (old(self).state_spec() == ActorState::Stopped),
            !done ==> final(self).mailbox_spec() == old(self).mailbox_spec(),
            done == (final(self).state_spec() == ActorState::Stopped),
            old(self).state_spec() == ActorState::Stopping ==> final(self).stopping_count() == old(self).stopping_count() + 1,
            old(self).state_spec() == ActorState::Stopping && !done ==> final(self).continue_count() == old(self).continue_count() + 1 && final(self).state_spec().is_alive(),
            old(self).state_spec() == ActorState::Stopping && !done ==> old(self).registry_spec().slots_view().is_prefix_of(final(self).registry_spec().slots_view())
                && final(self).registry_spec().next_spec() >= old(self).registry_spec().next_spec()
                && (forall|k: int|
                old(self).registry_spec().slots_view().len() <= k < final(self).registry_spec().slots_view().len() ==> (#[trigger] final(self).registry_spec().slots_view()[k]).0 >= old(self).registry_spec().next_spec()),
            done ==> final(self).stopped_fired_spec(),
            done && old(self).state_spec() == ActorState::Stopping ==> {
                &&& final(self).stopped_fired_spec()
                &&& final(self).mailbox_spec().is_closed()
                &&& final(self).mailbox_spec().queue_view().len() == 0
                &&& final(self).registry_spec().slots_view().len() == 0
                &&& final(self).wait_view().len() == 0
                &&& (forall|k: int|
                    0 <= k < final(self).ledger_spec().slots_view().len() ==> (#[trigger] final(self).ledger_spec().slots_view()[k]).is_resolved())
            },
    {
        match self.state {
            ActorState::Stopping => {},
            ActorState::Stopped => {
                return true;
            },
            _ => {
                return false;
            },
        }
        let verdict = act.stopping(self);
        proof {
            self.stopping_count@ = self.stopping_count@ + 1;
        }
        match verdict {
            Running::Continue => {
                proof {
                    self.continue_count@ = self.continue_count@ + 1;
                }
                if self.started_fired {
                    self.state = ActorState::Running;
                } else {
                    self.state = ActorState::Started;
                }
                false
            },
            Running::Stop => {
                self.state = ActorState::Stopped;
                self.stopped_fired = true;
                act.stopped(self);
                // Teardown: drop every scheduled item, newest first.
                while self.registry.len() > 0
                    invariant
                        self.wf(),
                        self.state == ActorState::Stopped,
                        self.dispatched@ == old(self).dispatched(),
                        self.mailbox.history() == old(self).mailbox_spec().history(),
                        self.now == old(self).now_spec(),
                        self.started_fired == old(self).started_fired_spec(),
                        self.fired@ == old(self).fired_view(),
                        ledger_mono(old(self).ledger_spec(), self.ledger),
                        self.stopping_count@ == old(self).stopping_count() + 1,
                    decreases self.registry.slots_view().len(),
                {
                    let ghost mid_ledger = self.ledger;
                    let slot = self.registry.pop_back().unwrap();
                    match slot {
                        (_, SpawnedItem::Respond { token: Some(t) }) => {
                            let _ = self.ledger.cancel(t);
                            proof {
                                lemma_ledger_mono_trans(
                                    old(self).ledger_spec(),
                                    mid_ledger,
                                    self.ledger,
                                );
                            }
                        },
                        _ => {},
                    }
                }
                // Drop queued envelopes; their requesters observe Closed.
                while self.mailbox.len() > 0
                    invariant
                        self.wf(),
                        self.state == ActorState::Stopped,
                        self.dispatched@ == old(self).dispatched(),
                        self.mailbox.history() == old(self).mailbox_spec().history(),
                        self.now == old(self).now_spec(),
                        self.started_fired == old(self).started_fired_spec(),
                        self.fired@ == old(self).fired_view(),
                        ledger_mono(old(self).ledger_spec(), self.ledger),
                        self.stopping_count@ == old(self).stopping_count() + 1,
                        self.registry.slots_view().len() == 0,
                    decreases self.mailbox.queue_view().len(),
                {
                    let ghost mid_ledger = self.ledger;
                    let env = self.mailbox.pop().unwrap();
                    match env {
                        Envelope { msg: _, reply: Some(t) } => {
                            let _ = self.ledger.close(t);
                            proof {
                                lemma_ledger_mono_trans(
                                    old(self).ledger_spec(),
                                    mid_ledger,
                                    self.ledger,
                                );
                            }
                        },
                        _ => {},
                    }
                }
                self.mailbox.close();
                self.wait.clear();
                let ghost mid_ledger = self.ledger;
                self.ledger.close_all();
                proof {
                    assert forall|k: int|
                        0 <= k < old(self).ledger_spec().slots_view().len() && (#[trigger] old(self).ledger_spec().slots_view()[k]).is_resolved() implies self.ledger.slots_view()[k]
                        == old(self).ledger_spec().slots_view()[k] by {
                        assert(mid_ledger.slots_view()[k] == old(self).ledger_spec().slots_view()[
                            k
                        ]);
                        assert(mid_ledger.slots_view()[k].is_resolved());
                    }
                    assert forall|k: int|
                        0 <= k < self.ledger.slots_view().len() implies (
                    #[trigger] self.ledger.slots_view()[k]).is_resolved() by {
                        assert(self.ledger.slots_view()[k] == crate::replies::step_slot(
                            mid_ledger.slots_view()[k],
                            ReplyState::Closed,
                        ));
                    }
                }
                true
            },
        }
    }

    /// One pass of the driver, at instant `now`: applies pending
    /// cancellations, fires the started hook if it is due, drains ready
    /// wait-items (and suspends the whole pass on one still pending),
    /// polls every spawned item, dispatches queued envelopes up to the
    /// fairness cap, and resolves a pending stop request. `Ready` exactly
    /// when the lifecycle reached `Stopped`: the context is then torn down
    /// and every reply slot is resolved; a stopped context is never polled
    /// again and answers `Ready` unchanged.
    pub fn poll_once<A: Handler<M, R>>(&mut self, act: &mut A, now: u64) -> (r: Poll<()>)
        requires
            old(self).wf(),
        ensures
            final(self).wf(),
            r.is_ready() == (final(self).state_spec() == ActorState::Stopped),
            old(self).state_spec() == ActorState::Stopped ==> *final(self) == *old(self)
                && r.is_ready(),
            old(self).dispatched().is_prefix_of(final(self).dispatched()),
            final(self).mailbox_spec().history() == old(self).mailbox_spec().history(),
            ledger_mono(old(self).ledger_spec(), final(self).ledger_spec()),
            old(self).started_fired_spec() ==> final(self).started_fired_spec(),
            old(self).state_spec().is_alive() && old(self).state_spec() != ActorState::Stopped
                ==> final(self).started_fired_spec(),
            old(self).stopped_fired_spec() ==> final(self).stopped_fired_spec(),
            r.is_ready() ==> final(self).stopped_fired_spec(),
            r.is_ready() && old(self).state_spec() != ActorState::Stopped ==> {
                &&& final(self).mailbox_spec().is_closed()
                &&& final(self).mailbox_spec().queue_view().len() == 0
                &&& (forall|k: int|
                    0 <= k < final(self).ledger_spec().slots_view().len() ==> (#[trigger] final(self).ledger_spec().slots_view()[k]).is_resolved())
            },
            (old(self).state_spec() == ActorState::Running && !old(self).waiting_spec() && old(self).registry_spec().slots_view().len() == 0 && old(self).cancelled_view().len() == 0
                && old(self).mailbox_spec().queue_view().len() > 0) ==> final(self).dispatched().len() > old(self).dispatched().len(),
            (old(self).mailbox_spec().queue_view().len() == 0 && old(self).registry_spec().slots_view().len() == 0 && old(self).started_fired_spec()) ==> final(self).dispatched() == old(self).dispatched(),
            forall|j: int|
                old(self).fired_view().len() <= j < final(self).fired_view().len() ==> {
                    ||| (#[trigger] final(self).fired_view()[j]) >= old(self).registry_spec().next_spec()
                    ||| (later_due_in(
                        old(self).registry_spec().slots_view(),
                        final(self).fired_view()[j],
                        now,
                    ) && (forall|j2: int|
                        0 <= j2 < old(self).cancelled_view().len() ==> (#[trigger] old(self).cancelled_view()[j2]) != final(self).fired_view()[j]))
                },
            old(self).state_spec() != ActorState::Stopped ==> (forall|j: int|
                0 <= j < old(self).cancelled_view().len() && (#[trigger] old(self).cancelled_view()[j]) < old(self).registry_spec().next_spec()
                    ==> !contains_handle(
                    final(self).registry_spec().slots_view(),
                    old(self).cancelled_view()[j],
                )),
            r.is_pending() ==> exists|n: int|
                {
                    &&& 0 <= n <= old(self).mailbox_spec().queue_view().len()
                    &&& final(self).mailbox_spec().queue_view() == old(self).mailbox_spec().queue_view().skip(n)
                    &&& final(self).mailbox_spec().popped() == old(self).mailbox_spec().popped() + n
                    &&& final(self).dispatched().len() >= n
                    &&& final(self).dispatched().skip(final(self).dispatched().len() - n) == old(self).mailbox_spec().queue_view().take(n).map_values(|e: Envelope<M>| e.msg)
                },
    {
        match self.state {
            ActorState::Stopped => {
                return Poll::Ready(());
            },
            _ => {},
        }
        self.now = now;
        let ghost c0 = *self;
        self.apply_cancels();
        let ghost c1 = *self;
        self.fire_started(act);
        let ghost c2 = *self;
        proof {
            lemma_prefix_refl(c0.dispatched());
        }
        let blocked = self.drain_wait();
        proof {
            assert forall|j: int|
                0 <= j < old(self).cancelled_view().len() && (#[trigger] old(self).cancelled_view()[j]) < old(self).registry_spec().next_spec()
                    implies !contains_handle(
                self.registry_spec().slots_view(),
                old(self).cancelled_view()[j],
            ) by {
                let id = old(self).cancelled_view()[j];
                assert(!contains_handle(c1.registry_spec().slots_view(), c0.cancelled_view()[j]));
                if contains_handle(c2.registry_spec().slots_view(), id) {
                    let k = choose|k: int|
                        0 <= k < c2.registry_spec().slots_view().len()
                            && c2.registry_spec().slots_view()[k].0 == id;
                    if k < c1.registry_spec().slots_view().len() {
                        assert(c1.registry_spec().slots_view()[k]
                            == c2.registry_spec().slots_view().subrange(
                            0,
                            c1.registry_spec().slots_view().len() as int,
                        )[k]);
                        assert(contains_handle(c1.registry_spec().slots_view(), id));
                        assert(false);
                    } else {
                        assert((c2.registry_spec().slots_view()[k]).0
                            >= c1.registry_spec().next_spec());
                        assert(false);
                    }
                }
            }
        }
        if blocked {
            proof {
                assert(self.mailbox_spec().queue_view() =~= old(self).mailbox_spec().queue_view().skip(0));
                assert(self.dispatched().skip(self.dispatched().len() - 0) =~= old(self).mailbox_spec().queue_view().take(0).map_values(|e: Envelope<M>| e.msg));
            }
            return Poll::Pending;
        }
        let ghost c3 = *self;
        self.poll_spawned(act);
        let ghost c4 = *self;
        self.dispatch_pending(act);
        let ghost c5 = *self;
        proof {
            lemma_ledger_mono_trans(c0.ledger_spec(), c1.ledger_spec(), c4.ledger_spec());
            lemma_prefix_trans(c0.dispatched(), c3.dispatched(), c4.dispatched());
            let q = c4.mailbox_spec().queue_view();
            let n = choose|n: int|
                {
                    &&& 0 <= n <= q.len()
                    &&& c5.mailbox_spec().queue_view() == q.skip(n)
                    &&& c5.mailbox_spec().popped() == c4.mailbox_spec().popped() + n
                    &&& c5.dispatched() == c4.dispatched() + q.take(n).map_values(
                        |e: Envelope<M>| e.msg,
                    )
                };
            assert(c4.dispatched().is_prefix_of(c5.dispatched())) by {
                assert(c4.dispatched() =~= c5.dispatched().subrange(
                    0,
                    c4.dispatched().len() as int,
                ));
            }
            if c4.mailbox_spec().queue_view().len() == 0 {
                assert(c5.dispatched() =~= c4.dispatched());
            }
            lemma_prefix_trans(c0.dispatched(), c4.dispatched(), c5.dispatched());
            lemma_ledger_mono_trans(c0.ledger_spec(), c4.ledger_spec(), c5.ledger_spec());
            assert(c4.mailbox_spec() == c0.mailbox_spec());
            assert(q.take(n).map_values(|e: Envelope<M>| e.msg).len() == n);
            assert(c5.dispatched().skip(c5.dispatched().len() - n) =~= q.take(n).map_values(
                |e: Envelope<M>| e.msg,
            ));
        }
        let done = self.check_stopping(act);
        proof {
            lemma_ledger_mono_trans(c0.ledger_spec(), c5.ledger_spec(), self.ledger_spec());
            assert forall|j: int|
                old(self).fired_view().len() <= j < self.fired_view().len() implies {
                ||| (#[trigger] self.fired_view()[j]) >= old(self).registry_spec().next_spec()
                ||| (later_due_in(
                    old(self).registry_spec().slots_view(),
                    self.fired_view()[j],
                    now,
                ) && (forall|j2: int|
                    0 <= j2 < old(self).cancelled_view().len() ==> (#[trigger] old(self).cancelled_view()[j2]) != self.fired_view()[j]))
            } by {
                let h = self.fired_view()[j];
                assert(self.fired_view()[j] == c4.fired_view()[j]);
                assert(later_due_in(c3.registry_spec().slots_view(), h, c3.now_spec()));
                let i = choose|i: int|
                    0 <= i < c3.registry_spec().slots_view().len() && (
                    #[trigger] c3.registry_spec().slots_view()[i]).0 == h
                        && crate::contextitems::is_due_later(
                        c3.registry_spec().slots_view()[i].1,
                        c3.now_spec(),
                    );
                assert(c3.registry_spec().slots_view() == c2.registry_spec().slots_view());
                if i < c1.registry_spec().slots_view().len() {
                    assert(c1.registry_spec().slots_view()[i] == c2.registry_spec().slots_view().subrange(
                        0,
                        c1.registry_spec().slots_view().len() as int,
                    )[i]);
                    assert(crate::registry::slot_in(
                        c1.registry_spec().slots_view()[i],
                        c0.registry_spec().slots_view(),
                    ));
                    let k2 = choose|k2: int|
                        0 <= k2 < c0.registry_spec().slots_view().len()
                            && c0.registry_spec().slots_view()[k2] == c1.registry_spec().slots_view()[i];
                    assert((old(self).registry_spec().slots_view()[k2]).0 == h);
                    assert(later_due_in(old(self).registry_spec().slots_view(), h, now));
                    assert forall|j2: int|
                        0 <= j2 < old(self).cancelled_view().len() implies (#[trigger] old(self).cancelled_view()[j2]) != h by {
                        if old(self).cancelled_view()[j2] == h {
                            assert(!contains_handle(
                                c1.registry_spec().slots_view(),
                                c0.cancelled_view()[j2],
                            ));
                            assert((c1.registry_spec().slots_view()[i]).0 == h);
                            assert(contains_handle(c1.registry_spec().slots_view(), h));
                            assert(false);
                        }
                    }
                } else {
                    assert((c2.registry_spec().slots_view()[i]).0
                        >= c1.registry_spec().next_spec());
                }
            }
            if !done {
                let q2 = c4.mailbox_spec().queue_view();
                let n2 = choose|n: int|
                    {
                        &&& 0 <= n <= q2.len()
                        &&& c5.mailbox_spec().queue_view() == q2.skip(n)
                        &&& c5.mailbox_spec().popped() == c4.mailbox_spec().popped() + n
                        &&& c5.dispatched() == c4.dispatched() + q2.take(n).map_values(
                            |e: Envelope<M>| e.msg,
                        )
                    };
                assert(self.mailbox_spec() == c5.mailbox_spec());
                assert(self.dispatched() == c5.dispatched());
                assert(old(self).mailbox_spec().queue_view() == q2);
                assert(q2.take(n2).map_values(|e: Envelope<M>| e.msg).len() == n2);
                assert(self.dispatched().skip(self.dispatched().len() - n2) =~= old(self).mailbox_spec().queue_view().take(n2).map_values(|e: Envelope<M>| e.msg));
                assert(self.mailbox_spec().queue_view() =~= old(self).mailbox_spec().queue_view().skip(n2));
            }
            if old(self).state_spec() != ActorState::Stopped {
                assert forall|j: int|
                    0 <= j < old(self).cancelled_view().len() && (#[trigger] old(self).cancelled_view()[j]) < old(self).registry_spec().next_spec()
                        implies !contains_handle(
                    self.registry_spec().slots_view(),
                    old(self).cancelled_view()[j],
                ) by {
                    let id = old(self).cancelled_view()[j];
                    assert(!contains_handle(c3.registry_spec().slots_view(), id));
                    assert(id < c3.registry_spec().next_spec());
                    assert(!contains_handle(c4.registry_spec().slots_view(), id));
                    if contains_handle(c5.registry_spec().slots_view(), id) {
                        let k = choose|k: int|
                            0 <= k < c5.registry_spec().slots_view().len()
                                && c5.registry_spec().slots_view()[k].0 == id;
                        if k < c4.registry_spec().slots_view().len() {
                            assert(c4.registry_spec().slots_view()[k]
                                == c5.registry_spec().slots_view().subrange(
                                0,
                                c4.registry_spec().slots_view().len() as int,
                            )[k]);
                            assert(contains_handle(c4.registry_spec().slots_view(), id));
                            assert(false);
                        } else {
                            assert((c5.registry_spec().slots_view()[k]).0
                                >= c4.registry_spec().next_spec());
                            assert(false);
                        }
                    }
                    if c5.state_spec() == ActorState::Stopping && !done {
                        if contains_handle(self.registry_spec().slots_view(), id) {
                            let k = choose|k: int|
                                0 <= k < self.registry_spec().slots_view().len()
                                    && self.registry_spec().slots_view()[k].0 == id;
                            if k < c5.registry_spec().slots_view().len() {
                                assert(c5.registry_spec().slots_view()[k]
                                    == self.registry_spec().slots_view().subrange(
                                    0,
                                    c5.registry_spec().slots_view().len() as int,
                                )[k]);
                                assert(contains_handle(c5.registry_spec().slots_view(), id));
                                assert(false);
                            } else {
                                assert((self.registry_spec().slots_view()[k]).0
                                    >= c5.registry_spec().next_spec());
                                assert(false);
                            }
                        }
                    }
                }
            }
            if old(self).state_spec() == ActorState::Running && !old(self).waiting_spec() && old(self).registry_spec().slots_view().len() == 0 && old(self).cancelled_view().len() == 0 {
                assert(c0.started_fired_spec());
                assert(c2 == c1);
                assert(!c3.waiting_spec());
                assert(c4.dispatched() == c0.dispatched());
                if old(self).mailbox_spec().queue_view().len() > 0 {
                    assert(c5.dispatched().len() > c4.dispatched().len());
                }
            }
            if old(self).mailbox_spec().queue_view().len() == 0 && old(self).registry_spec().slots_view().len() == 0 && old(self).started_fired_spec() {
                assert(c2 == c1);
                assert(c4.dispatched() == c0.dispatched());
                assert(c4.mailbox_spec().queue_view().len() == 0);
                assert(self.dispatched() == c5.dispatched());
            }
        }
        if done {
            Poll::Ready(())
        } else {
            Poll::Pending
        }
    }
}

} // verus!
