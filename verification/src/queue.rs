//! The at-least-once delivery queue: entries wait in `pending`, a sender
//! moves one entry at a time into its own in-flight slot (`claim`), and
//! either consumes it (`ack`) or puts it back at the tail of `pending`
//! (`fail`). The two lists are hidden behind this one type so that no
//! entry is ever lost or duplicated by the moves themselves.
//!
//! The live store realizes the same moves with one atomic move-and-claim
//! command per transition; each sender must use its own worker number.

use vstd::prelude::*;
use vstd::multiset::Multiset;
use vstd::seq_lib::group_to_multiset_ensures;

verus! {

broadcast use group_to_multiset_ensures;

/// The delivery queue's two lists. Entries are payload texts; each
/// in-flight entry remembers which sender holds it.
pub struct DeliveryQueue {
    pending: Vec<String>,
    inflight: Vec<(u64, String)>,
}

/// What a `DeliveryQueue` holds.
#[verifier::ext_equal]
pub ghost struct QueueView {
    pub pending: Seq<Seq<char>>,
    pub inflight: Seq<(u64, Seq<char>)>,
}

impl View for DeliveryQueue {
    type V = QueueView;

    closed spec fn view(&self) -> QueueView {
        QueueView {
            pending: Seq::new(self.pending@.len(), |i: int| self.pending@[i]@),
            inflight: Seq::new(
                self.inflight@.len(),
                |i: int| (self.inflight@[i].0, self.inflight@[i].1@),
            ),
        }
    }
}

/// No two in-flight entries belong to the same sender.
pub open spec fn unique_workers(s: Seq<(u64, Seq<char>)>) -> bool {
    forall|a: int, b: int| 0 <= a < b < s.len() ==> s[a].0 != s[b].0
}

/// Whether the sender `w` holds an in-flight entry.
pub open spec fn inflight_has(q: QueueView, w: u64) -> bool {
    exists|i: int| 0 <= i < q.inflight.len() && q.inflight[i].0 == w
}

/// The position of sender `w`'s in-flight entry.
pub open spec fn inflight_idx(q: QueueView, w: u64) -> int {
    choose|i: int| 0 <= i < q.inflight.len() && q.inflight[i].0 == w
}

/// The payload sender `w` holds in flight.
pub open spec fn inflight_payload(q: QueueView, w: u64) -> Seq<char> {
    q.inflight[inflight_idx(q, w)].1
}

/// Enqueueing appends at the pending tail.
pub open spec fn push_spec(q: QueueView, p: Seq<char>) -> QueueView {
    QueueView { pending: q.pending.push(p), inflight: q.inflight }
}

/// Claiming moves the oldest pending entry into the sender's slot.
pub open spec fn claim_spec(q: QueueView, w: u64) -> QueueView {
    QueueView { pending: q.pending.drop_first(), inflight: q.inflight.push((w, q.pending[0])) }
}

/// Acknowledging consumes the sender's in-flight entry.
pub open spec fn ack_spec(q: QueueView, w: u64) -> QueueView {
    QueueView { pending: q.pending, inflight: q.inflight.remove(inflight_idx(q, w)) }
}

/// A failed delivery puts the sender's entry back at the pending tail.
pub open spec fn fail_spec(q: QueueView, w: u64) -> QueueView {
    QueueView {
        pending: q.pending.push(inflight_payload(q, w)),
        inflight: q.inflight.remove(inflight_idx(q, w)),
    }
}

/// The payloads of the in-flight entries.
pub open spec fn inflight_payloads(s: Seq<(u64, Seq<char>)>) -> Seq<Seq<char>> {
    s.map_values(|e: (u64, Seq<char>)| e.1)
}

/// Every entry the queue holds, wherever it stands.
pub open spec fn entries(q: QueueView) -> Multiset<Seq<char>> {
    q.pending.to_multiset().add(inflight_payloads(q.inflight).to_multiset())
}

impl DeliveryQueue {
    /// Senders' in-flight slots are distinct.
    pub open spec fn wf(&self) -> bool {
        unique_workers(self@.inflight)
    }

    /// An empty queue.
    pub fn new() -> (r: Self)
        ensures
            r@.pending == Seq::<Seq<char>>::empty(),
            r@.inflight == Seq::<(u64, Seq<char>)>::empty(),
            r.wf(),
    {
        let r = DeliveryQueue { pending: Vec::new(), inflight: Vec::new() };
        proof {
            assert(r@.pending =~= Seq::<Seq<char>>::empty());
            assert(r@.inflight =~= Seq::<(u64, Seq<char>)>::empty());
        }
        r
    }

    /// How many payloads wait in pending.
    pub fn pending_count(&self) -> (r: usize)
        ensures
            r == self@.pending.len(),
    {
        self.pending.len()
    }

    /// How many payloads are in flight across all senders.
    pub fn inflight_count(&self) -> (r: usize)
        ensures
            r == self@.inflight.len(),
    {
        self.inflight.len()
    }

    /// Appends a payload at the pending tail.
    pub fn push(&mut self, payload: String)
        ensures
            final(self)@ == push_spec(old(self)@, payload@),
            old(self).wf() ==> final(self).wf(),
    {
        self.pending.push(payload);
        proof {
            assert(final(self)@ =~= push_spec(old(self)@, payload@));
        }
    }

    /// Takes the oldest pending entry, if any, into this sender's
    /// in-flight slot, and hands it out.
    pub fn claim(&mut self, worker: u64) -> (r: Option<String>)
        requires
            old(self).wf(),
            !inflight_has(old(self)@, worker),
        ensures
            final(self).wf(),
            match r {
                Some(p) => {
                    &&& old(self)@.pending.len() > 0
                    &&& p@ == old(self)@.pending[0]
                    &&& final(self)@ == claim_spec(old(self)@, worker)
                },
                None => old(self)@.pending.len() == 0 && final(self)@ == old(self)@,
            },
    {
        if self.pending.len() == 0 {
            proof {
                assert(final(self)@ =~= old(self)@);
            }
            return None;
        }
        let p = self.pending.remove(0);
        let copy = p.clone();
        self.inflight.push((worker, copy));
        proof {
            assert(final(self)@.pending =~= claim_spec(old(self)@, worker).pending);
            assert(final(self)@.inflight =~= claim_spec(old(self)@, worker).inflight);
            assert forall|a: int, b: int|
                0 <= a < b < final(self)@.inflight.len() implies final(self)@.inflight[a].0
                != final(self)@.inflight[b].0 by {
                if b + 1 == final(self)@.inflight.len() {
                    assert(final(self)@.inflight[a] == old(self)@.inflight[a]);
                }
            }
        }
        Some(p)
    }

    /// Finds this sender's in-flight entry.
    fn find_inflight(&self, worker: u64) -> (r: usize)
        requires
            self.wf(),
            inflight_has(self@, worker),
        ensures
            r as int == inflight_idx(self@, worker),
            r < self@.inflight.len(),
            self@.inflight[r as int].0 == worker,
    {
        let mut i: usize = 0;
        #[verifier::loop_isolation(false)]
        while i < self.inflight.len() && self.inflight[i].0 != worker
            invariant
                0 <= i <= self.inflight.len(),
                forall|k: int| 0 <= k < i ==> self@.inflight[k].0 != worker,
            decreases self.inflight.len() - i,
        {
            i = i + 1;
        }
        proof {
            let c = inflight_idx(self@, worker);
            assert(0 <= c < self@.inflight.len() && self@.inflight[c].0 == worker);
            assert(i < self.inflight.len());
            assert(self@.inflight[i as int].0 == worker);
            if (i as int) < c {
                assert(self@.inflight[i as int].0 != self@.inflight[c].0);
            } else if c < i as int {
                assert(self@.inflight[c].0 != self@.inflight[i as int].0);
            }
        }
        i
    }

    /// Consumes this sender's in-flight entry after a delivered send.
    pub fn ack(&mut self, worker: u64)
        requires
            old(self).wf(),
            inflight_has(old(self)@, worker),
        ensures
            final(self).wf(),
            final(self)@ == ack_spec(old(self)@, worker),
    {
        let i = self.find_inflight(worker);
        self.inflight.remove(i);
        proof {
            assert(final(self)@.pending =~= ack_spec(old(self)@, worker).pending);
            assert(final(self)@.inflight =~= ack_spec(old(self)@, worker).inflight);
        }
    }

    /// Puts this sender's in-flight entry back at the pending tail after
    /// a failed send.
    pub fn fail(&mut self, worker: u64)
        requires
            old(self).wf(),
            inflight_has(old(self)@, worker),
        ensures
            final(self).wf(),
            final(self)@ == fail_spec(old(self)@, worker),
    {
        let i = self.find_inflight(worker);
        let e = self.inflight.remove(i);
        self.pending.push(e.1);
        proof {
            assert(final(self)@.pending =~= fail_spec(old(self)@, worker).pending);
            assert(final(self)@.inflight =~= fail_spec(old(self)@, worker).inflight);
        }
    }
}

/// Law: a claim moves one entry from pending into the sender's slot;
/// every entry the queue held is still held exactly once across the two
/// lists — never both, never neither.
pub proof fn lemma_claim_conserves_entries(q: QueueView, w: u64)
    requires
        q.pending.len() > 0,
    ensures
        entries(claim_spec(q, w)) == entries(q),
        claim_spec(q, w).pending.to_multiset().count(q.pending[0]) + 1 == q.pending.to_multiset()
            .count(q.pending[0]),
        inflight_payloads(claim_spec(q, w).inflight).to_multiset().count(q.pending[0])
            == inflight_payloads(q.inflight).to_multiset().count(q.pending[0]) + 1,
{
    let p = q.pending[0];
    assert(q.pending.drop_first() =~= q.pending.remove(0));
    assert(q.pending.remove(0).to_multiset() =~= q.pending.to_multiset().remove(p));
    assert(inflight_payloads(q.inflight.push((w, p))) =~= inflight_payloads(q.inflight).push(p));
    assert(q.pending.to_multiset().count(p) > 0);
    assert(entries(claim_spec(q, w)) =~= entries(q));
}

/// Law: a failed delivery conserves every entry: the claimed entry leaves
/// the sender's slot and reappears at the pending tail.
pub proof fn lemma_fail_conserves_entries(q: QueueView, w: u64)
    requires
        inflight_has(q, w),
    ensures
        entries(fail_spec(q, w)) == entries(q),
        fail_spec(q, w).pending.last() == inflight_payload(q, w),
        fail_spec(q, w).pending.contains(inflight_payload(q, w)),
{
    let i = inflight_idx(q, w);
    let p = inflight_payload(q, w);
    assert(inflight_payloads(q.inflight.remove(i)) =~= inflight_payloads(q.inflight).remove(i));
    assert(inflight_payloads(q.inflight)[i] == p);
    assert(inflight_payloads(q.inflight).remove(i).to_multiset() =~= inflight_payloads(
        q.inflight,
    ).to_multiset().remove(p));
    assert(inflight_payloads(q.inflight).to_multiset().count(p) > 0);
    assert(entries(fail_spec(q, w)) =~= entries(q));
}

/// Law: an acknowledgement removes exactly the sender's entry from the
/// queue and touches nothing else.
pub proof fn lemma_ack_removes_entry(q: QueueView, w: u64)
    requires
        inflight_has(q, w),
    ensures
        entries(ack_spec(q, w)) == entries(q).remove(inflight_payload(q, w)),
        entries(q).count(inflight_payload(q, w)) > 0,
{
    let i = inflight_idx(q, w);
    let p = inflight_payload(q, w);
    assert(inflight_payloads(q.inflight.remove(i)) =~= inflight_payloads(q.inflight).remove(i));
    assert(inflight_payloads(q.inflight)[i] == p);
    assert(inflight_payloads(q.inflight).remove(i).to_multiset() =~= inflight_payloads(
        q.inflight,
    ).to_multiset().remove(p));
    assert(inflight_payloads(q.inflight).to_multiset().count(p) > 0);
    assert(entries(ack_spec(q, w)) =~= entries(q).remove(p));
}

/// Law: a claim followed by a failed delivery leaves the queue's pending
/// list with the claimed entry moved from its head to its tail: nothing
/// is dropped, and the entry is retried after those already pending.
pub proof fn lemma_failed_delivery_retried(q: QueueView, w: u64)
    requires
        unique_workers(q.inflight),
        !inflight_has(q, w),
        q.pending.len() > 0,
    ensures
        fail_spec(claim_spec(q, w), w).pending == q.pending.drop_first().push(q.pending[0]),
        fail_spec(claim_spec(q, w), w).inflight == q.inflight,
        entries(fail_spec(claim_spec(q, w), w)) == entries(q),
{
    let held = claim_spec(q, w);
    assert(inflight_has(held, w)) by {
        assert(held.inflight[held.inflight.len() - 1].0 == w);
    }
    let i = inflight_idx(held, w);
    assert(0 <= i < held.inflight.len() && held.inflight[i].0 == w);
    assert(i == held.inflight.len() - 1) by {
        if i < held.inflight.len() - 1 {
            assert(held.inflight[i] == q.inflight[i]);
            assert(inflight_has(q, w));
        }
    }
    assert(inflight_payload(held, w) == q.pending[0]);
    assert(fail_spec(held, w).inflight =~= q.inflight);
    lemma_claim_conserves_entries(q, w);
    lemma_fail_conserves_entries(held, w);
}

} // verus!
