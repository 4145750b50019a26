//! The reply ledger: one-shot reply slots for requests.
//!
//! A request that expects a reply is issued a token; the handler's response
//! eventually resolves the token to exactly one terminal outcome. A token
//! that is already resolved never changes again, so a requester observes
//! either exactly one reply value or exactly one failure signal.

use vstd::prelude::*;

use crate::mailbox::MailboxError;

verus! {

/// The state of one reply slot, as its requester observes it.
pub enum ReplyState<R> {
    /// No outcome yet: the handler or its response item is still at work.
    Pending,
    /// The handler's response produced this value.
    Replied(R),
    /// The response item was dropped before completion.
    Cancelled,
    /// The actor stopped before a reply was produced.
    Closed,
    /// The requester gave up waiting within its own bound.
    TimedOut,
}

impl<R> ReplyState<R> {
    /// A slot is resolved once it left `Pending`; it then never changes.
    pub open spec fn is_resolved(self) -> bool {
        !(self is Pending)
    }

    /// The failure a requester maps this outcome to, if it is a failure.
    /// A dropped response item surfaces as a closed reply channel.
    pub fn mailbox_error(&self) -> (r: Option<MailboxError>)
        ensures
            r == (match *self {
                ReplyState::Pending => None::<MailboxError>,
                ReplyState::Replied(_) => None::<MailboxError>,
                ReplyState::Cancelled => Some(MailboxError::Closed),
                ReplyState::Closed => Some(MailboxError::Closed),
                ReplyState::TimedOut => Some(MailboxError::Timeout),
            }),
    {
        match self {
            ReplyState::Pending => None,
            ReplyState::Replied(_) => None,
            ReplyState::Cancelled => Some(MailboxError::Closed),
            ReplyState::Closed => Some(MailboxError::Closed),
            ReplyState::TimedOut => Some(MailboxError::Timeout),
        }
    }
}

/// All reply slots a context ever issued, indexed by token.
pub struct ReplyLedger<R> {
    slots: Vec<ReplyState<R>>,
}

/// How one slot changes when token `t` is asked to move to `outcome`:
/// only a pending slot moves; a resolved slot stays what it is.
pub open spec fn step_slot<R>(s: ReplyState<R>, outcome: ReplyState<R>) -> ReplyState<R> {
    if s is Pending {
        outcome
    } else {
        s
    }
}

impl<R> ReplyLedger<R> {
    /// The slots by token.
    pub closed spec fn slots_view(self) -> Seq<ReplyState<R>> {
        self.slots@
    }

    /// An empty ledger.
    pub fn new() -> (r: Self)
        ensures
            r.slots_view() == Seq::<ReplyState<R>>::empty(),
    {
        ReplyLedger { slots: Vec::new() }
    }

    /// How many tokens were issued.
    pub fn len(&self) -> (r: usize)
        ensures
            r == self.slots_view().len(),
    {
        self.slots.len()
    }

    /// Issues a fresh pending token: the index of the new slot.
    pub fn issue(&mut self) -> (t: u64)
        requires
            old(self).slots_view().len() < u64::MAX,
        ensures
            t == old(self).slots_view().len(),
            final(self).slots_view() == old(self).slots_view().push(
                ReplyState::<R>::Pending,
            ),
    {
        let t = self.slots.len() as u64;
        self.slots.push(ReplyState::Pending);
        t
    }

    /// Reads the state of token `t`.
    pub fn status(&self, t: u64) -> (r: &ReplyState<R>)
        requires
            t < self.slots_view().len(),
        ensures
            *r == self.slots_view()[t as int],
    {
        let n = self.slots.len();
        let i = t as usize;
        &self.slots[i]
    }

    /// Moves token `t` to `outcome` if it is still pending; a resolved or
    /// unknown token is left untouched. Resolution is one-shot: no slot
    /// ever changes after it left `Pending`.
    fn settle(&mut self, t: u64, outcome: ReplyState<R>) -> (moved: bool)
        ensures
            t < old(self).slots_view().len() ==> {
                &&& final(self).slots_view() == old(self).slots_view().update(
                    t as int,
                    step_slot(old(self).slots_view()[t as int], outcome),
                )
                &&& moved == (old(self).slots_view()[t as int] is Pending)
            },
            t >= old(self).slots_view().len() ==> {
                &&& *final(self) == *old(self)
                &&& !moved
            },
            forall|k: int|
                0 <= k < old(self).slots_view().len() && old(self).slots_view()[k].is_resolved()
                    ==> final(self).slots_view()[k] == old(self).slots_view()[k],
            final(self).slots_view().len() == old(self).slots_view().len(),
    {
        if t >= self.slots.len() as u64 {
            return false;
        }
        let i = t as usize;
        let pending = match &self.slots[i] {
            ReplyState::Pending => true,
            _ => false,
        };
        if pending {
            self.slots.set(i, outcome);
            proof {
                assert(self.slots@ =~= old(self).slots_view().update(
                    t as int,
                    step_slot(old(self).slots_view()[t as int], outcome),
                ));
            }
            true
        } else {
            proof {
                assert(self.slots@ =~= old(self).slots_view().update(
                    t as int,
                    step_slot(old(self).slots_view()[t as int], outcome),
                ));
            }
            false
        }
    }

    /// Writes the reply value for token `t`, if `t` is still pending.
    pub fn resolve(&mut self, t: u64, value: R) -> (moved: bool)
        ensures
            t < old(self).slots_view().len() ==> {
                &&& final(self).slots_view() == old(self).slots_view().update(
                    t as int,
                    step_slot(old(self).slots_view()[t as int], ReplyState::Replied(value)),
                )
                &&& moved == (old(self).slots_view()[t as int] is Pending)
            },
            t >= old(self).slots_view().len() ==> *final(self) == *old(self) && !moved,
            forall|k: int|
                0 <= k < old(self).slots_view().len() && old(self).slots_view()[k].is_resolved()
                    ==> final(self).slots_view()[k] == old(self).slots_view()[k],
            final(self).slots_view().len() == old(self).slots_view().len(),
    {
        self.settle(t, ReplyState::Replied(value))
    }

    /// Marks token `t` cancelled: its response item was dropped before
    /// completion. A resolved token is left untouched.
    pub fn cancel(&mut self, t: u64) -> (moved: bool)
        ensures
            t < old(self).slots_view().len() ==> {
                &&& final(self).slots_view() == old(self).slots_view().update(
                    t as int,
                    step_slot(old(self).slots_view()[t as int], ReplyState::Cancelled),
                )
                &&& moved == (old(self).slots_view()[t as int] is Pending)
            },
            t >= old(self).slots_view().len() ==> *final(self) == *old(self) && !moved,
            forall|k: int|
                0 <= k < old(self).slots_view().len() && old(self).slots_view()[k].is_resolved()
                    ==> final(self).slots_view()[k] == old(self).slots_view()[k],
            final(self).slots_view().len() == old(self).slots_view().len(),
    {
        self.settle(t, ReplyState::Cancelled)
    }

    /// Marks token `t` closed: the actor stopped before replying.
    pub fn close(&mut self, t: u64) -> (moved: bool)
        ensures
            t < old(self).slots_view().len() ==> {
                &&& final(self).slots_view() == old(self).slots_view().update(
                    t as int,
                    step_slot(old(self).slots_view()[t as int], ReplyState::Closed),
                )
                &&& moved == (old(self).slots_view()[t as int] is Pending)
            },
            t >= old(self).slots_view().len() ==> *final(self) == *old(self) && !moved,
            forall|k: int|
                0 <= k < old(self).slots_view().len() && old(self).slots_view()[k].is_resolved()
                    ==> final(self).slots_view()[k] == old(self).slots_view()[k],
            final(self).slots_view().len() == old(self).slots_view().len(),
    {
        self.settle(t, ReplyState::Closed)
    }

    /// Closes every still-pending slot: at context teardown, any reply not
    /// produced by then observes a closed channel. Resolved slots are
    /// untouched, so nobody loses a reply they already got.
    pub fn close_all(&mut self)
        ensures
            final(self).slots_view().len() == old(self).slots_view().len(),
            forall|k: int|
                0 <= k < old(self).slots_view().len() ==> final(self).slots_view()[k] == step_slot(
                    old(self).slots_view()[k],
                    ReplyState::Closed,
                ),
    {
        let n = self.slots.len();
        let mut i: usize = 0;
        while i < n
            invariant
                n == self.slots@.len(),
                n == old(self).slots_view().len(),
                0 <= i <= n,
                forall|k: int|
                    0 <= k < i ==> self.slots@[k] == step_slot(
                        old(self).slots_view()[k],
                        ReplyState::Closed,
                    ),
                forall|k: int| i <= k < n ==> self.slots@[k] == old(self).slots_view()[k],
            decreases n - i,
        {
            let pending = match &self.slots[i] {
                ReplyState::Pending => true,
                _ => false,
            };
            if pending {
                self.slots.set(i, ReplyState::Closed);
            }
            i = i + 1;
        }
    }

    /// Marks token `t` timed out: the requester stopped waiting. The reply
    /// then never arrives for the requester, even if the handler later
    /// produces one — a late `resolve` finds the slot resolved and yields.
    pub fn time_out(&mut self, t: u64) -> (moved: bool)
        ensures
            t < old(self).slots_view().len() ==> {
                &&& final(self).slots_view() == old(self).slots_view().update(
                    t as int,
                    step_slot(old(self).slots_view()[t as int], ReplyState::TimedOut),
                )
                &&& moved == (old(self).slots_view()[t as int] is Pending)
            },
            t >= old(self).slots_view().len() ==> *final(self) == *old(self) && !moved,
            forall|k: int|
                0 <= k < old(self).slots_view().len() && old(self).slots_view()[k].is_resolved()
                    ==> final(self).slots_view()[k] == old(self).slots_view()[k],
            final(self).slots_view().len() == old(self).slots_view().len(),
    {
        self.settle(t, ReplyState::TimedOut)
    }
}

/// Reply completeness, one-shot half: every settling operation leaves
/// already-resolved slots exactly as they were, so a requester that saw a
/// reply can never see a second one, and a requester that saw a failure
/// signal never sees a reply afterwards. The step function moves a slot
/// only out of `Pending`.
pub proof fn lemma_reply_one_shot<R>(s: ReplyState<R>, a: ReplyState<R>, b: ReplyState<R>)
    ensures
        s.is_resolved() ==> step_slot(s, a) == s,
        a.is_resolved() ==> step_slot(step_slot(s, a), b) == step_slot(s, a),
{
}

} // verus!
