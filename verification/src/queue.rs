//! The fuse queue: pending behaviour transitions, ordered by due time.
//!
//! A total order over `(time, id)` pairs, ties broken by id ascending, kept
//! as a strictly sorted vector without duplicates, the order a set of pairs
//! would have. `drain_due(now)` removes and returns, in ascending order,
//! exactly the entries with time at most `now`.

use vstd::prelude::*;

verus! {

/// Strict lexicographic order on `(time, id)` entries.
pub open spec fn entry_lt(a: (u64, u32), b: (u64, u32)) -> bool {
    a.0 < b.0 || (a.0 == b.0 && a.1 < b.1)
}

/// A strictly ascending sequence of entries: sorted, and free of duplicates.
pub open spec fn entries_sorted(s: Seq<(u64, u32)>) -> bool {
    forall|i: int, j: int| 0 <= i < j < s.len() ==> entry_lt(#[trigger] s[i], #[trigger] s[j])
}

/// The time-ordered queue of pending `(due time, entity id)` fuses.
pub struct FuseQueue {
    entries: Vec<(u64, u32)>,
}

impl FuseQueue {
    /// The pending entries, in ascending `(time, id)` order.
    pub closed spec fn view(self) -> Seq<(u64, u32)> {
        self.entries@
    }

    /// The queue's invariant: entries strictly ascending.
    pub open spec fn wf(self) -> bool {
        entries_sorted(self@)
    }

    /// Whether an entry is pending.
    pub open spec fn contains(self, e: (u64, u32)) -> bool {
        self@.contains(e)
    }

    /// An empty queue.
    pub fn new() -> (q: FuseQueue)
        ensures
            q.wf(),
            q@ == Seq::<(u64, u32)>::empty(),
    {
        FuseQueue { entries: Vec::new() }
    }

    /// Number of pending entries.
    pub fn len(&self) -> (n: usize)
        ensures
            n == self@.len(),
    {
        self.entries.len()
    }

    /// The entry at a position, in ascending order.
    pub fn get(&self, i: usize) -> (e: (u64, u32))
        requires
            i < self@.len(),
        ensures
            e == self@[i as int],
    {
        self.entries[i]
    }

    /// Schedules a fuse. A pair already pending is left alone; otherwise it
    /// is placed at its position in the order.
    pub fn schedule(&mut self, time: u64, id: u32)
        requires
            old(self).wf(),
        ensures
            final(self).wf(),
            final(self)@.to_set() == old(self)@.to_set().insert((time, id)),
            old(self)@.contains((time, id)) ==> final(self)@ == old(self)@,
            !old(self)@.contains((time, id)) ==> final(self)@.len() == old(self)@.len() + 1,
    {
        let e = (time, id);
        let ghost pre = self.entries@;
        let mut k: usize = 0;
        while k < self.entries.len() && entry_lt_exec(self.entries[k], e)
            invariant
                self.entries@ == pre,
                k <= pre.len(),
                forall|i: int| 0 <= i < k ==> entry_lt(#[trigger] pre[i], e),
            decreases pre.len() - k,
        {
            k = k + 1;
        }
        if k < self.entries.len() && self.entries[k].0 == e.0 && self.entries[k].1 == e.1 {
            proof {
                assert(pre.to_set().insert(e) =~= pre.to_set());
            }
            return;
        }
        assert(forall|i: int| k <= i < pre.len() ==> entry_lt(e, #[trigger] pre[i])) by {
            assert forall|i: int| k <= i < pre.len() implies entry_lt(e, #[trigger] pre[i]) by {
                if i > k {
                    assert(entry_lt(pre[k as int], pre[i]));
                }
            }
        }
        self.entries.insert(k, e);
        proof {
            let post = self.entries@;
            assert(entries_sorted(post)) by {
                assert forall|i: int, j: int| 0 <= i < j < post.len() implies entry_lt(
                    #[trigger] post[i],
                    #[trigger] post[j],
                ) by {
                    if j < k {
                        assert(post[i] == pre[i] && post[j] == pre[j]);
                    } else if i > k {
                        assert(post[i] == pre[i - 1] && post[j] == pre[j - 1]);
                    } else if i < k && j == k {
                        assert(post[i] == pre[i]);
                    } else if i == k && j > k {
                        assert(post[j] == pre[j - 1]);
                    } else {
                        assert(i < k && j > k);
                        assert(post[i] == pre[i] && post[j] == pre[j - 1]);
                        assert(entry_lt(pre[i], e));
                    }
                }
            }
            assert(post.to_set() =~= pre.to_set().insert(e)) by {
                assert forall|x: (u64, u32)| post.to_set().contains(x) implies pre.to_set().insert(
                    e,
                ).contains(x) by {
                    let i = choose|i: int| 0 <= i < post.len() && post[i] == x;
                    if i < k {
                        assert(pre[i] == x);
                    } else if i > k {
                        assert(pre[i - 1] == x);
                    }
                }
                assert forall|x: (u64, u32)|
                    pre.to_set().insert(e).contains(x) implies post.to_set().contains(x) by {
                    if x == e {
                        assert(post[k as int] == x);
                    } else {
                        let i = choose|i: int| 0 <= i < pre.len() && pre[i] == x;
                        if i < k {
                            assert(post[i] == x);
                        } else {
                            assert(post[i + 1] == x);
                        }
                    }
                }
            }
        }
    }

    /// Removes and returns, in ascending `(time, id)` order, exactly the
    /// pending entries with time at most `now`; strictly later entries stay.
    pub fn drain_due(&mut self, now: u64) -> (due: Vec<(u64, u32)>)
        requires
            old(self).wf(),
        ensures
            final(self).wf(),
            entries_sorted(due@),
            old(self)@ == due@ + final(self)@,
            forall|i: int| 0 <= i < due@.len() ==> (#[trigger] due@[i]).0 <= now,
            forall|i: int| 0 <= i < final(self)@.len() ==> (#[trigger] final(self)@[i]).0 > now,
    {
        let ghost pre = self.entries@;
        let mut k: usize = 0;
        while k < self.entries.len() && self.entries[k].0 <= now
            invariant
                self.entries@ == pre,
                k <= pre.len(),
                forall|i: int| 0 <= i < k ==> (#[trigger] pre[i]).0 <= now,
            decreases pre.len() - k,
        {
            k = k + 1;
        }
        assert(forall|i: int| k <= i < pre.len() ==> (#[trigger] pre[i]).0 > now) by {
            assert forall|i: int| k <= i < pre.len() implies (#[trigger] pre[i]).0 > now by {
                if k < pre.len() {
                    if i > k {
                        assert(entry_lt(pre[k as int], pre[i]));
                    }
                }
            }
        }
        let mut rest = self.entries.split_off(k);
        core::mem::swap(&mut self.entries, &mut rest);
        proof {
            assert(pre =~= rest@ + self.entries@);
        }
        rest
    }

    /// Clears the queue.
    pub fn clear(&mut self)
        ensures
            final(self).wf(),
            final(self)@ == Seq::<(u64, u32)>::empty(),
    {
        self.entries.clear();
    }
}

/// Executable strict order test on entries.
fn entry_lt_exec(a: (u64, u32), b: (u64, u32)) -> (r: bool)
    ensures
        r == entry_lt(a, b),
{
    a.0 < b.0 || (a.0 == b.0 && a.1 < b.1)
}

/// A drain is exact: what it returns is precisely the set of previously
/// pending entries due at `now`, and what stays pending is precisely the
/// rest.
pub proof fn lemma_drain_exact(
    pre: Seq<(u64, u32)>,
    due: Seq<(u64, u32)>,
    rest: Seq<(u64, u32)>,
    now: u64,
)
    requires
        pre == due + rest,
        forall|i: int| 0 <= i < due.len() ==> (#[trigger] due[i]).0 <= now,
        forall|i: int| 0 <= i < rest.len() ==> (#[trigger] rest[i]).0 > now,
    ensures
        due.to_set() =~= pre.to_set().filter(|e: (u64, u32)| e.0 <= now),
        rest.to_set() =~= pre.to_set().filter(|e: (u64, u32)| e.0 > now),
{
    assert forall|e: (u64, u32)| due.to_set().contains(e) implies pre.to_set().contains(e)
        && e.0 <= now by {
        let i = choose|i: int| 0 <= i < due.len() && due[i] == e;
        assert(pre[i] == e);
    }
    assert forall|e: (u64, u32)| rest.to_set().contains(e) implies pre.to_set().contains(e)
        && e.0 > now by {
        let i = choose|i: int| 0 <= i < rest.len() && rest[i] == e;
        assert(pre[due.len() + i] == e);
    }
    assert forall|e: (u64, u32)| pre.to_set().contains(e) && e.0 <= now implies due
        .to_set().contains(e) by {
        let i = choose|i: int| 0 <= i < pre.len() && pre[i] == e;
        if i < due.len() {
            assert(due[i] == e);
        } else {
            assert(rest[i - due.len()] == e);
        }
    }
    assert forall|e: (u64, u32)| pre.to_set().contains(e) && e.0 > now implies rest
        .to_set().contains(e) by {
        let i = choose|i: int| 0 <= i < pre.len() && pre[i] == e;
        if i < due.len() {
            assert(due[i] == e);
        } else {
            assert(rest[i - due.len()] == e);
        }
    }
}

/// Entries drained at `now` never come back: a drain returns only entries at
/// or before `now`, and after it every pending or newly scheduled fuse lies
/// strictly after `now`, so a later drain returns a disjoint set.
pub proof fn lemma_no_refire(due_now: Seq<(u64, u32)>, later: Seq<(u64, u32)>, now: u64)
    requires
        forall|i: int| 0 <= i < due_now.len() ==> (#[trigger] due_now[i]).0 <= now,
        forall|i: int| 0 <= i < later.len() ==> (#[trigger] later[i]).0 > now,
    ensures
        due_now.to_set().disjoint(later.to_set()),
{
    assert forall|x: (u64, u32)| due_now.to_set().contains(x) implies !later.to_set().contains(
        x,
    ) by {
        let i = choose|i: int| 0 <= i < due_now.len() && due_now[i] == x;
        assert(due_now[i].0 <= now);
        if later.to_set().contains(x) {
            let j = choose|j: int| 0 <= j < later.len() && later[j] == x;
            assert(later[j].0 > now);
        }
    }
}

} // verus!
