//! The mailbox: an ordered queue of envelopes awaiting handler invocation.
//!
//! Admission is either unbounded (`do_send` always succeeds while the
//! mailbox is open) or bounded (`try_send` fails with [`SendError::Full`]
//! at capacity). Delivery is strictly first-in, first-out: a ghost history
//! of every accepted envelope, together with a count of envelopes handed
//! out, pins each `pop` to the exact envelope that was accepted in turn.

use vstd::prelude::*;

verus! {

/// Why an envelope was not admitted.
#[derive(Clone, Copy, Debug, PartialEq, Eq, Structural)]
pub enum SendError {
    /// The bounded mailbox is at capacity (non-blocking admission only).
    Full,
    /// The mailbox is closed: the actor stopped; the envelope is dropped.
    Closed,
}

/// Why a requester saw no reply value.
#[derive(Clone, Copy, Debug, PartialEq, Eq, Structural)]
pub enum MailboxError {
    /// The reply is awaited from a now-stopped actor.
    Closed,
    /// The reply was not produced within the caller's bound.
    Timeout,
}

/// A message paired with its optional one-shot reply slot.
///
/// `reply` names a token in the context's reply ledger; `None` means
/// fire-and-forget.
pub struct Envelope<M> {
    /// The message carried to the handler.
    pub msg: M,
    /// The reply-ledger token the handler's response resolves, if any.
    pub reply: Option<u64>,
}

/// The inbound envelope queue of one actor.
pub struct Mailbox<M> {
    queue: Vec<Envelope<M>>,
    capacity: Option<usize>,
    closed: bool,
    history: Ghost<Seq<Envelope<M>>>,
    popped: Ghost<nat>,
}

impl<M> Mailbox<M> {
    /// The envelopes still queued, oldest first.
    pub closed spec fn queue_view(self) -> Seq<Envelope<M>> {
        self.queue@
    }

    /// Every envelope ever admitted, in admission order.
    pub closed spec fn history(self) -> Seq<Envelope<M>> {
        self.history@
    }

    /// How many envelopes have been handed out so far.
    pub closed spec fn popped(self) -> nat {
        self.popped@
    }

    /// The admission bound, or `None` for an unbounded mailbox.
    pub closed spec fn capacity_spec(self) -> Option<usize> {
        self.capacity
    }

    /// Whether the mailbox refuses all further envelopes.
    pub closed spec fn is_closed(self) -> bool {
        self.closed
    }

    /// The queue holds exactly the admitted envelopes not yet handed out.
    pub open spec fn wf(self) -> bool {
        &&& self.popped() <= self.history().len()
        &&& self.queue_view() == self.history().skip(self.popped() as int)
    }

    /// A mailbox that admits any number of envelopes.
    pub fn unbounded() -> (r: Self)
        ensures
            r.wf(),
            r.queue_view() == Seq::<Envelope<M>>::empty(),
            r.history() == Seq::<Envelope<M>>::empty(),
            r.popped() == 0,
            r.capacity_spec() is None,
            !r.is_closed(),
    {
        let r = Mailbox {
            queue: Vec::new(),
            capacity: None,
            closed: false,
            history: Ghost(Seq::empty()),
            popped: Ghost(0),
        };
        proof {
            assert(r.queue_view() =~= r.history().skip(0));
        }
        r
    }

    /// A mailbox that admits at most `cap` queued envelopes at a time
    /// through `try_send`.
    pub fn bounded(cap: usize) -> (r: Self)
        ensures
            r.wf(),
            r.queue_view() == Seq::<Envelope<M>>::empty(),
            r.history() == Seq::<Envelope<M>>::empty(),
            r.popped() == 0,
            r.capacity_spec() == Some(cap),
            !r.is_closed(),
    {
        let r = Mailbox {
            queue: Vec::new(),
            capacity: Some(cap),
            closed: false,
            history: Ghost(Seq::empty()),
            popped: Ghost(0),
        };
        proof {
            assert(r.queue_view() =~= r.history().skip(0));
        }
        r
    }

    /// How many envelopes are queued now.
    pub fn len(&self) -> (r: usize)
        ensures
            r == self.queue_view().len(),
    {
        self.queue.len()
    }

    /// Whether the mailbox refuses all further envelopes.
    pub fn closed(&self) -> (r: bool)
        ensures
            r == self.is_closed(),
    {
        self.closed
    }

    /// Whether a bounded mailbox has no room for another envelope.
    pub fn at_capacity(&self) -> (r: bool)
        ensures
            r == (match self.capacity_spec() {
                Some(cap) => self.queue_view().len() >= cap,
                None => false,
            }),
    {
        match self.capacity {
            Some(cap) => self.queue.len() >= cap,
            None => false,
        }
    }

    /// Unbounded admission: enqueue unless the mailbox is closed.
    pub fn do_send(&mut self, env: Envelope<M>) -> (r: Result<(), SendError>)
        requires
            old(self).wf(),
        ensures
            final(self).wf(),
            final(self).capacity_spec() == old(self).capacity_spec(),
            final(self).is_closed() == old(self).is_closed(),
            final(self).popped() == old(self).popped(),
            old(self).is_closed() ==> {
                &&& r == Err::<(), SendError>(SendError::Closed)
                &&& final(self).queue_view() == old(self).queue_view()
                &&& final(self).history() == old(self).history()
            },
            !old(self).is_closed() ==> {
                &&& r == Ok::<(), SendError>(())
                &&& final(self).queue_view() == old(self).queue_view().push(env)
                &&& final(self).history() == old(self).history().push(env)
            },
    {
        if self.closed {
            return Err(SendError::Closed);
        }
        let ghost env_spec = env;
        self.queue.push(env);
        proof {
            self.history@ = self.history@.push(env_spec);
            assert(self.queue@ =~= self.history@.skip(self.popped@ as int));
        }
        Ok(())
    }

    /// Bounded, non-blocking admission: fails with `Full` at capacity and
    /// with `Closed` once the mailbox is closed.
    pub fn try_send(&mut self, env: Envelope<M>) -> (r: Result<(), SendError>)
        requires
            old(self).wf(),
        ensures
            final(self).wf(),
            final(self).capacity_spec() == old(self).capacity_spec(),
            final(self).is_closed() == old(self).is_closed(),
            final(self).popped() == old(self).popped(),
            old(self).is_closed() ==> {
                &&& r == Err::<(), SendError>(SendError::Closed)
                &&& *final(self) == *old(self)
            },
            (!old(self).is_closed() && (match old(self).capacity_spec() {
                Some(cap) => old(self).queue_view().len() >= cap,
                None => false,
            })) ==> {
                &&& r == Err::<(), SendError>(SendError::Full)
                &&& *final(self) == *old(self)
            },
            (!old(self).is_closed() && (match old(self).capacity_spec() {
                Some(cap) => old(self).queue_view().len() < cap,
                None => true,
            })) ==> {
                &&& r == Ok::<(), SendError>(())
                &&& final(self).queue_view() == old(self).queue_view().push(env)
                &&& final(self).history() == old(self).history().push(env)
            },
    {
        if self.closed {
            return Err(SendError::Closed);
        }
        let full = match self.capacity {
            Some(cap) => self.queue.len() >= cap,
            None => false,
        };
        if full {
            return Err(SendError::Full);
        }
        let ghost env_spec = env;
        self.queue.push(env);
        proof {
            self.history@ = self.history@.push(env_spec);
            assert(self.queue@ =~= self.history@.skip(self.popped@ as int));
        }
        Ok(())
    }

    /// Hands out the oldest queued envelope: the `popped()`-th envelope
    /// ever admitted. This equality is the FIFO dispatch guarantee.
    pub fn pop(&mut self) -> (r: Option<Envelope<M>>)
        requires
            old(self).wf(),
        ensures
            final(self).wf(),
            final(self).capacity_spec() == old(self).capacity_spec(),
            final(self).is_closed() == old(self).is_closed(),
            final(self).history() == old(self).history(),
            old(self).queue_view().len() == 0 ==> {
                &&& r is None
                &&& *final(self) == *old(self)
            },
            old(self).queue_view().len() > 0 ==> {
                &&& r == Some(old(self).history()[old(self).popped() as int])
                &&& r == Some(old(self).queue_view()[0])
                &&& final(self).queue_view() == old(self).queue_view().skip(1)
                &&& final(self).popped() == old(self).popped() + 1
            },
    {
        if self.queue.len() == 0 {
            return None;
        }
        let env = self.queue.remove(0);
        proof {
            self.popped@ = self.popped@ + 1;
            assert(self.queue@ =~= self.history@.skip(self.popped@ as int));
        }
        Some(env)
    }

    /// Closes the mailbox: all later admissions fail with `Closed`. The
    /// envelopes already queued stay and are drained by context teardown.
    pub fn close(&mut self)
        requires
            old(self).wf(),
        ensures
            final(self).wf(),
            final(self).is_closed(),
            final(self).queue_view() == old(self).queue_view(),
            final(self).history() == old(self).history(),
            final(self).popped() == old(self).popped(),
            final(self).capacity_spec() == old(self).capacity_spec(),
    {
        self.closed = true;
    }
}

/// FIFO dispatch: in a well-formed mailbox, the envelope that `pop` will
/// hand out `k` pops from now is exactly the `popped() + k`-th envelope
/// ever admitted. Envelopes from one sender are therefore delivered in
/// admission order: an envelope admitted earlier is handed out strictly
/// before one admitted later.
pub proof fn lemma_fifo_dispatch<M>(m: Mailbox<M>)
    requires
        m.wf(),
    ensures
        forall|k: int|
            0 <= k < m.queue_view().len() ==> m.queue_view()[k] == m.history()[m.popped() + k],
{
}

} // verus!
