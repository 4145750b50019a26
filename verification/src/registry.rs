//! The spawn registry: the keyed collection of in-flight scheduled items.
//!
//! Every spawned item gets a fresh, monotonically assigned handle; the
//! registry keeps items in insertion order (so their polling order is
//! stable across polls) and removes them on completion or cancellation.
//! Cancellation of an absent handle changes nothing, which makes
//! double-cancel a no-op.

use vstd::prelude::*;

verus! {

/// An opaque identifier naming one currently scheduled item.
#[derive(Clone, Copy, Debug, PartialEq, Eq, Structural)]
pub struct SpawnHandle {
    /// The numeric identity; unique for the life of the owning context.
    pub id: u64,
}

/// Whether some slot of `s` carries the handle `id`.
pub open spec fn contains_handle<T>(s: Seq<(u64, T)>, id: u64) -> bool {
    exists|i: int| 0 <= i < s.len() && s[i].0 == id
}

/// No two slots of `s` carry the same handle.
pub open spec fn handles_unique<T>(s: Seq<(u64, T)>) -> bool {
    forall|i: int, j: int| 0 <= i < j < s.len() ==> (#[trigger] s[i]).0 != (#[trigger] s[j]).0
}

/// The item stored under handle `id`, if any.
pub open spec fn slot_item<T>(s: Seq<(u64, T)>, id: u64) -> Option<T> {
    if contains_handle(s, id) {
        Some(s[choose|i: int| 0 <= i < s.len() && s[i].0 == id].1)
    } else {
        None
    }
}

/// Whether `x` is one of the slots of `b`.
pub open spec fn slot_in<T>(x: (u64, T), b: Seq<(u64, T)>) -> bool {
    exists|k2: int| 0 <= k2 < b.len() && b[k2] == x
}

/// Every slot of `a` is a slot of `b`: nothing new appears, though slots
/// may have been dropped.
pub open spec fn slots_subset<T>(a: Seq<(u64, T)>, b: Seq<(u64, T)>) -> bool {
    forall|k: int| 0 <= k < a.len() ==> #[trigger] slot_in(a[k], b)
}

/// Every sequence of slots is a subset of itself.
pub proof fn lemma_slots_subset_refl<T>(s: Seq<(u64, T)>)
    ensures
        slots_subset(s, s),
{
    assert forall|k: int| 0 <= k < s.len() implies slot_in(s[k], s) by {
        assert(s[k] == s[k]);
    }
}

/// Slot subset composes.
pub proof fn lemma_slots_subset_trans<T>(a: Seq<(u64, T)>, b: Seq<(u64, T)>, c: Seq<(u64, T)>)
    requires
        slots_subset(a, b),
        slots_subset(b, c),
    ensures
        slots_subset(a, c),
{
    assert forall|k: int| 0 <= k < a.len() implies slot_in(a[k], c) by {
        assert(slot_in(a[k], b));
        let k2 = choose|k2: int| 0 <= k2 < b.len() && b[k2] == a[k];
        assert(slot_in(b[k2], c));
    }
}

/// Handle ids strictly increase along the slots.
pub open spec fn slots_sorted<T>(s: Seq<(u64, T)>) -> bool {
    forall|i: int, j: int| 0 <= i < j < s.len() ==> (#[trigger] s[i]).0 < (#[trigger] s[j]).0
}

/// What cancelling `id` does to the slots: removes the slot that carries
/// `id`, if there is one, and changes nothing otherwise.
pub open spec fn remove_handle<T>(s: Seq<(u64, T)>, id: u64) -> Seq<(u64, T)> {
    if contains_handle(s, id) {
        s.remove(choose|i: int| 0 <= i < s.len() && s[i].0 == id)
    } else {
        s
    }
}

/// A keyed collection of scheduled items with stable, never-reused handles.
pub struct SpawnRegistry<T> {
    slots: Vec<(u64, T)>,
    next: u64,
}

impl<T> SpawnRegistry<T> {
    /// The live slots: handle ids paired with their items, oldest first.
    pub closed spec fn slots_view(self) -> Seq<(u64, T)> {
        self.slots@
    }

    /// The next handle id to assign; all live ids are below it.
    pub closed spec fn next_spec(self) -> u64 {
        self.next
    }

    /// Handle ids are strictly increasing along the slots (hence unique)
    /// and all below the allocation counter (hence never reused).
    pub open spec fn wf(self) -> bool {
        &&& slots_sorted(self.slots_view())
        &&& forall|i: int|
            0 <= i < self.slots_view().len() ==> (#[trigger] self.slots_view()[i]).0
                < self.next_spec()
    }

    /// An empty registry.
    pub fn new() -> (r: Self)
        ensures
            r.wf(),
            r.slots_view() == Seq::<(u64, T)>::empty(),
            r.next_spec() == 0,
    {
        SpawnRegistry { slots: Vec::new(), next: 0 }
    }

    /// How many items are live.
    pub fn len(&self) -> (r: usize)
        ensures
            r == self.slots_view().len(),
    {
        self.slots.len()
    }

    /// Places `item` under a fresh handle and marks the registry for
    /// another poll. Fails only when the handle space is exhausted, in
    /// which case nothing changes.
    pub fn spawn(&mut self, item: T) -> (r: Option<SpawnHandle>)
        requires
            old(self).wf(),
        ensures
            final(self).wf(),
            old(self).next_spec() == u64::MAX ==> {
                &&& r is None
                &&& *final(self) == *old(self)
            },
            old(self).next_spec() < u64::MAX ==> {
                &&& r == Some(SpawnHandle { id: old(self).next_spec() })
                &&& final(self).slots_view() == old(self).slots_view().push(
                    (old(self).next_spec(), item),
                )
                &&& final(self).next_spec() == old(self).next_spec() + 1
                &&& !contains_handle(old(self).slots_view(), old(self).next_spec())
            },
    {
        if self.next == u64::MAX {
            return None;
        }
        let id = self.next;
        self.slots.push((id, item));
        self.next = self.next + 1;
        proof {
            let pre = old(self).slots_view();
            let post = self.slots@;
            assert forall|a: int, b: int| 0 <= a < b < post.len() implies (post[a]).0
                < (post[b]).0 by {
                if b == post.len() - 1 {
                    assert(post[a] == pre[a]);
                    assert((old(self).slots_view()[a]).0 < old(self).next_spec());
                } else {
                    assert(post[a] == pre[a]);
                    assert(post[b] == pre[b]);
                }
            }
            assert forall|a: int| 0 <= a < post.len() implies (post[a]).0 < self.next_spec() by {
                if a < post.len() - 1 {
                    assert(post[a] == pre[a]);
                    assert((old(self).slots_view()[a]).0 < old(self).next_spec());
                }
            }
        }
        Some(SpawnHandle { id })
    }

    /// Removes the item under handle `id`, if it is present; the relative
    /// order of the remaining slots is unchanged. On an absent handle —
    /// already complete, already cancelled, or never assigned — nothing
    /// changes, so cancellation is idempotent.
    pub fn remove(&mut self, id: u64) -> (r: Option<T>)
        requires
            old(self).wf(),
        ensures
            final(self).wf(),
            final(self).next_spec() == old(self).next_spec(),
            !contains_handle(old(self).slots_view(), id) ==> {
                &&& r is None
                &&& *final(self) == *old(self)
            },
            contains_handle(old(self).slots_view(), id) ==> {
                &&& exists|i: int|
                    {
                        &&& 0 <= i < old(self).slots_view().len()
                        &&& old(self).slots_view()[i].0 == id
                        &&& r == Some(old(self).slots_view()[i].1)
                        &&& final(self).slots_view() == old(self).slots_view().remove(i)
                    }
                &&& !contains_handle(final(self).slots_view(), id)
            },
            final(self).slots_view() == remove_handle(old(self).slots_view(), id),
            slots_subset(final(self).slots_view(), old(self).slots_view()),
    {
        let n = self.slots.len();
        let mut i: usize = 0;
        while i < n
            invariant
                *self == *old(self),
                old(self).wf(),
                n == self.slots@.len(),
                0 <= i <= n,
                forall|k: int| 0 <= k < i ==> (#[trigger] self.slots@[k]).0 != id,
            decreases n - i,
        {
            if self.slots[i].0 == id {
                let (_, item) = self.slots.remove(i);
                proof {
                    let pre = old(self).slots_view();
                    let post = self.slots@;
                    assert(pre[i as int].0 == id);
                    assert(contains_handle(pre, id));
                    let j = choose|k: int| 0 <= k < pre.len() && pre[k].0 == id;
                    assert(0 <= j < pre.len() && pre[j].0 == id);
                    let ii = i as int;
                    if j < ii {
                        assert((old(self).slots_view()[j]).0 < (old(self).slots_view()[ii]).0);
                        assert(false);
                    }
                    if ii < j {
                        assert((old(self).slots_view()[ii]).0 < (old(self).slots_view()[j]).0);
                        assert(false);
                    }
                    assert(j == i as int);
                    assert(post == remove_handle(pre, id));
                    assert forall|a: int, b: int| 0 <= a < b < post.len() implies post[a].0
                        < post[b].0 by {
                        if b < i {
                        } else if a < i {
                            assert(post[b] == pre[b + 1]);
                        } else {
                            assert(post[a] == pre[a + 1]);
                            assert(post[b] == pre[b + 1]);
                        }
                    }
                    assert forall|k: int| 0 <= k < post.len() implies post[k].0 != id by {
                        if k < i {
                        } else {
                            assert(post[k] == pre[k + 1]);
                            assert(pre[i as int].0 == id);
                        }
                    }
                    assert forall|k: int| 0 <= k < post.len() implies slot_in(post[k], pre) by {
                        if k < i {
                            assert(post[k] == pre[k]);
                        } else {
                            assert(post[k] == pre[k + 1]);
                        }
                    }
                    assert(slots_subset(post, pre));
                }
                return Some(item);
            }
            i = i + 1;
        }
        proof {
            assert(!contains_handle(self.slots@, id));
            lemma_slots_subset_refl(old(self).slots_view());
        }
        None
    }

    /// Cancels the item under `h`: drops it synchronously if present.
    /// Returns whether an item was actually removed.
    pub fn cancel(&mut self, h: SpawnHandle) -> (r: bool)
        requires
            old(self).wf(),
        ensures
            final(self).wf(),
            final(self).next_spec() == old(self).next_spec(),
            r == contains_handle(old(self).slots_view(), h.id),
            !r ==> *final(self) == *old(self),
            !contains_handle(final(self).slots_view(), h.id),
            final(self).slots_view() == remove_handle(old(self).slots_view(), h.id),
    {
        let removed = self.remove(h.id);
        match removed {
            Some(_) => true,
            None => false,
        }
    }

    /// The next handle id that `spawn` would assign.
    pub fn next_val(&self) -> (r: u64)
        ensures
            r == self.next_spec(),
    {
        self.next
    }

    /// Reads the item under handle `id` without removing it.
    pub fn get(&self, id: u64) -> (r: Option<&T>)
        requires
            self.wf(),
        ensures
            (match r {
                Some(item) => slot_item(self.slots_view(), id) == Some(*item),
                None => slot_item(self.slots_view(), id) is None,
            }),
    {
        let n = self.slots.len();
        let mut i: usize = 0;
        while i < n
            invariant
                self.wf(),
                n == self.slots@.len(),
                0 <= i <= n,
                forall|k: int| 0 <= k < i ==> (#[trigger] self.slots@[k]).0 != id,
            decreases n - i,
        {
            if self.slots[i].0 == id {
                proof {
                    let s = self.slots_view();
                    assert(contains_handle(s, id));
                    let j = choose|k: int| 0 <= k < s.len() && s[k].0 == id;
                    let ii = i as int;
                    if j < ii {
                        assert((self.slots_view()[j]).0 < (self.slots_view()[ii]).0);
                        assert(false);
                    }
                    if ii < j {
                        assert((self.slots_view()[ii]).0 < (self.slots_view()[j]).0);
                        assert(false);
                    }
                }
                return Some(&self.slots[i].1);
            }
            i = i + 1;
        }
        None
    }

    /// Takes every slot out, oldest first, leaving the registry empty; the
    /// allocation counter is kept, so handles stay unique.
    pub fn take_all(&mut self) -> (r: Vec<(u64, T)>)
        requires
            old(self).wf(),
        ensures
            final(self).wf(),
            final(self).next_spec() == old(self).next_spec(),
            final(self).slots_view() == Seq::<(u64, T)>::empty(),
            r@ == old(self).slots_view(),
    {
        let mut r: Vec<(u64, T)> = Vec::new();
        r.append(&mut self.slots);
        proof {
            assert(r@ =~= old(self).slots_view());
        }
        r
    }

    /// Puts the kept slots back in front of the current ones. The kept
    /// slots must be sorted and their ids older than every current id and
    /// below the allocation counter, so the registry stays well-formed.
    pub fn prepend(&mut self, kept: Vec<(u64, T)>)
        requires
            old(self).wf(),
            slots_sorted(kept@),
            forall|i: int| 0 <= i < kept@.len() ==> (#[trigger] kept@[i]).0 < old(self).next_spec(),
            forall|i: int, j: int|
                0 <= i < kept@.len() && 0 <= j < old(self).slots_view().len() ==> (
                #[trigger] kept@[i]).0 < (#[trigger] old(self).slots_view()[j]).0,
        ensures
            final(self).wf(),
            final(self).next_spec() == old(self).next_spec(),
            final(self).slots_view() == kept@ + old(self).slots_view(),
    {
        let ghost kept_seq = kept@;
        let ghost pre = old(self).slots_view();
        let mut kept = kept;
        proof {
            assert(kept@ =~= kept_seq.take(kept@.len() as int));
            assert(self.slots@ =~= kept_seq.skip(kept@.len() as int) + pre);
        }
        while kept.len() > 0
            invariant
                self.next == old(self).next_spec(),
                old(self).wf(),
                slots_sorted(kept_seq),
                forall|i: int| 0 <= i < kept_seq.len() ==> (#[trigger] kept_seq[i]).0 < self.next,
                forall|i: int, j: int|
                    0 <= i < kept_seq.len() && 0 <= j < pre.len() ==> (#[trigger] kept_seq[i]).0 < (
                    #[trigger] pre[j]).0,
                kept@.len() <= kept_seq.len(),
                kept@ == kept_seq.take(kept@.len() as int),
                self.slots@ == kept_seq.skip(kept@.len() as int) + pre,
            decreases kept@.len(),
        {
            let ghost n0 = kept@.len() as int;
            let ghost kept_entry = kept@;
            let x = kept.pop().unwrap();
            self.slots.insert(0, x);
            proof {
                let rem = n0 - 1;
                assert(kept_entry == kept_seq.take(n0));
                assert(x == kept_entry[n0 - 1]);
                assert(kept_seq.take(n0)[n0 - 1] == kept_seq[n0 - 1]);
                assert(kept@ =~= kept_seq.take(rem));
                assert(x == kept_seq[rem]);
                assert(self.slots@ =~= kept_seq.skip(rem) + pre);
            }
        }
        proof {
            assert(kept@.len() == 0);
            assert(self.slots@ =~= kept_seq + pre);
            assert forall|i: int, j: int| 0 <= i < j < self.slots@.len() implies (
            #[trigger] self.slots@[i]).0 < (#[trigger] self.slots@[j]).0 by {
                let n = kept_seq.len() as int;
                if j < n {
                    assert(self.slots@[i] == kept_seq[i]);
                    assert(self.slots@[j] == kept_seq[j]);
                } else if i < n {
                    assert(self.slots@[i] == kept_seq[i]);
                    assert(self.slots@[j] == pre[j - n]);
                } else {
                    assert(self.slots@[i] == pre[i - n]);
                    assert(self.slots@[j] == pre[j - n]);
                    assert((old(self).slots_view()[i - n]).0 < (old(self).slots_view()[j - n]).0);
                }
            }
            assert forall|i: int| 0 <= i < self.slots@.len() implies (#[trigger] self.slots@[i]).0
                < self.next by {
                let n = kept_seq.len() as int;
                if i >= n {
                    assert(self.slots@[i] == pre[i - n]);
                    assert((old(self).slots_view()[i - n]).0 < old(self).next_spec());
                }
            }
        }
    }

    /// Removes and returns the newest slot, for teardown in reverse
    /// insertion order.
    pub fn pop_back(&mut self) -> (r: Option<(u64, T)>)
        requires
            old(self).wf(),
        ensures
            final(self).wf(),
            final(self).next_spec() == old(self).next_spec(),
            old(self).slots_view().len() == 0 ==> {
                &&& r is None
                &&& final(self).slots_view() == old(self).slots_view()
            },
            old(self).slots_view().len() > 0 ==> {
                &&& r == Some(old(self).slots_view().last())
                &&& final(self).slots_view() == old(self).slots_view().drop_last()
            },
    {
        let slot = self.slots.pop();
        slot
    }
}

/// Handle uniqueness: in a well-formed registry no two live slots carry
/// the same handle, and no live handle will ever be assigned again.
pub proof fn lemma_handles_unique<T>(r: SpawnRegistry<T>)
    requires
        r.wf(),
    ensures
        forall|i: int, j: int|
            0 <= i < r.slots_view().len() && 0 <= j < r.slots_view().len() && i != j
                ==> r.slots_view()[i].0 != r.slots_view()[j].0,
        forall|i: int| 0 <= i < r.slots_view().len() ==> r.slots_view()[i].0 < r.next_spec(),
{
}

/// Cancel idempotence: cancelling any handle is safe on any slots, and a
/// second cancel of the same handle finds nothing and changes nothing —
/// cancelling twice leaves exactly what cancelling once leaves. `cancel`
/// ensures its result is `remove_handle` of its input, so this covers two
/// successive `cancel` calls with the same handle.
pub proof fn lemma_cancel_idempotent<T>(s: Seq<(u64, T)>, id: u64)
    requires
        handles_unique(s),
    ensures
        !contains_handle(remove_handle(s, id), id),
        remove_handle(remove_handle(s, id), id) == remove_handle(s, id),
{
    if contains_handle(s, id) {
        let i = choose|k: int| 0 <= k < s.len() && s[k].0 == id;
        let post = s.remove(i);
        assert forall|k: int| 0 <= k < post.len() implies post[k].0 != id by {
            if k < i {
                assert(post[k] == s[k]);
                assert(s[k].0 != s[i].0);
            } else {
                assert(post[k] == s[k + 1]);
                assert(s[i].0 != s[k + 1].0);
            }
        }
        assert(!contains_handle(post, id));
    }
}

} // verus!
