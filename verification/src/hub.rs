//! The broadcast fan-out buffer: one producer, many independent consumers,
//! each observing every record pushed after it registered, in push order,
//! with a fixed per-consumer capacity bounding memory.
//!
//! This is the distribution core in its single-threaded form: `push` hands
//! the record back instead of blocking while some consumer's buffer is
//! full, and the caller decides how to wait — the thread-per-sink runner
//! outside the library waits on an OS-blocking ring with the same contract.
use vstd::prelude::*;

verus! {

use crate::record::{Record, RecordV};

struct ConsumerState {
    pending: Vec<Record>,
    observed: Ghost<Seq<RecordV>>,
    registered_at: Ghost<int>,
}

/// A bounded, multi-consumer distribution buffer.  Every record pushed is
/// delivered to every currently-registered consumer; a consumer registered
/// later observes nothing retroactively.
pub struct BroadcastHub {
    /// How many records one consumer may have pending at once.
    pub capacity: usize,
    queues: Vec<ConsumerState>,
    pushed: Ghost<Seq<RecordV>>,
}

impl BroadcastHub {
    /// Every record ever pushed, in push order.
    pub closed spec fn pushed(&self) -> Seq<RecordV> {
        self.pushed@
    }

    /// How many records one consumer may have pending at once.
    pub closed spec fn spec_capacity(&self) -> int {
        self.capacity as int
    }

    /// How many consumers are registered.
    pub closed spec fn consumer_count(&self) -> nat {
        self.queues@.len()
    }

    /// What consumer `c` has taken out so far, in order.
    pub closed spec fn observed(&self, c: int) -> Seq<RecordV> {
        self.queues@[c].observed@
    }

    /// What is delivered to consumer `c` but not yet taken out.
    pub closed spec fn pending(&self, c: int) -> Seq<RecordV> {
        self.queues@[c].pending@.map_values(|r: Record| r@)
    }

    /// How many records had been pushed when consumer `c` registered.
    pub closed spec fn registered_at(&self, c: int) -> int {
        self.queues@[c].registered_at@
    }

    /// Every consumer's history lines up with the push log: what it has
    /// observed followed by what it has pending is exactly what was pushed
    /// since it registered, and no consumer holds more than the capacity.
    pub open spec fn wf(self) -> bool {
        forall|c: int|
            0 <= c < self.consumer_count() ==> {
                &&& 0 <= #[trigger] self.registered_at(c) <= self.pushed().len()
                &&& self.observed(c) + self.pending(c) == self.pushed().skip(self.registered_at(c))
                &&& self.pending(c).len() <= self.spec_capacity()
            }
    }

    /// An empty hub with the given per-consumer capacity.
    pub fn new(capacity: usize) -> (h: BroadcastHub)
        ensures
            h.wf(),
            h.spec_capacity() == capacity as int,
            h.consumer_count() == 0,
            h.pushed() == Seq::<RecordV>::empty(),
    {
        BroadcastHub { capacity, queues: Vec::new(), pushed: Ghost(Seq::empty()) }
    }

    /// Register a consumer; it observes every record pushed from now on and
    /// nothing retroactively.
    pub fn register(&mut self) -> (c: usize)
        requires
            old(self).wf(),
        ensures
            final(self).wf(),
            c as int == old(self).consumer_count(),
            final(self).consumer_count() == old(self).consumer_count() + 1,
            final(self).spec_capacity() == old(self).spec_capacity(),
            final(self).pushed() == old(self).pushed(),
            final(self).registered_at(c as int) == old(self).pushed().len(),
            final(self).observed(c as int) == Seq::<RecordV>::empty(),
            final(self).pending(c as int) == Seq::<RecordV>::empty(),
            forall|q: int|
                0 <= q < old(self).consumer_count() ==> {
                    &&& #[trigger] final(self).observed(q) == old(self).observed(q)
                    &&& final(self).pending(q) == old(self).pending(q)
                    &&& final(self).registered_at(q) == old(self).registered_at(q)
                },
    {
        let c = self.queues.len();
        let state = ConsumerState {
            pending: Vec::new(),
            observed: Ghost(Seq::empty()),
            registered_at: Ghost(self.pushed@.len() as int),
        };
        self.queues.push(state);
        proof {
            assert(self.pending(c as int) =~= Seq::<RecordV>::empty());
            assert(self.pushed().skip(self.pushed().len() as int) =~= Seq::<RecordV>::empty());
            assert forall|q: int| 0 <= q < old(self).consumer_count() implies {
                &&& #[trigger] final(self).observed(q) == old(self).observed(q)
                &&& final(self).pending(q) == old(self).pending(q)
                &&& final(self).registered_at(q) == old(self).registered_at(q)
            } by {
                assert(self.queues@[q] == old(self).queues@[q]);
            };
            assert forall|q: int| 0 <= q < self.consumer_count() implies {
                &&& 0 <= #[trigger] self.registered_at(q) <= self.pushed().len()
                &&& self.observed(q) + self.pending(q) == self.pushed().skip(self.registered_at(q))
                &&& self.pending(q).len() <= self.spec_capacity()
            } by {
                if q < old(self).consumer_count() {
                    assert(self.queues@[q] == old(self).queues@[q]);
                    assert(0 <= old(self).registered_at(q) <= old(self).pushed().len());
                    assert(old(self).observed(q) + old(self).pending(q) == old(self).pushed().skip(
                        old(self).registered_at(q),
                    ));
                    assert(old(self).pending(q).len() <= old(self).spec_capacity());
                    assert(self.pending(q) =~= old(self).pending(q));
                    assert(self.observed(q) == old(self).observed(q));
                } else {
                    assert(self.observed(q) + self.pending(q) =~= Seq::<RecordV>::empty());
                }
            };
        }
        c
    }

    /// Deliver one record to every registered consumer, in push order.  The
    /// push is refused — the record handed back untouched — while some
    /// consumer's buffer is at capacity: that refusal is the backpressure
    /// that bounds memory, and the caller waits and retries.
    pub fn push(&mut self, rec: Record) -> (r: Result<(), Record>)
        requires
            old(self).wf(),
        ensures
            final(self).wf(),
            final(self).spec_capacity() == old(self).spec_capacity(),
            r is Ok <==> (forall|c: int|
                0 <= c < old(self).consumer_count() ==> (#[trigger] old(self).pending(c)).len()
                    < old(self).spec_capacity()),
            r matches Err(back) ==> back@ == rec@ && *final(self) == *old(self),
            r is Ok ==> final(self).pushed() == old(self).pushed().push(rec@),
            r is Ok ==> final(self).consumer_count() == old(self).consumer_count(),
            r is Ok ==> forall|c: int|
                0 <= c < old(self).consumer_count() ==> {
                    &&& #[trigger] final(self).pending(c) == old(self).pending(c).push(rec@)
                    &&& final(self).observed(c) == old(self).observed(c)
                    &&& final(self).registered_at(c) == old(self).registered_at(c)
                },
    {
        let n = self.queues.len();
        let mut i: usize = 0;
        while i < n
            invariant
                *self == *old(self),
                self.wf(),
                n == self.consumer_count(),
                i <= n,
                forall|q: int|
                    0 <= q < i ==> (#[trigger] self.pending(q)).len() < self.spec_capacity(),
            decreases n - i,
        {
            if self.queues[i].pending.len() >= self.capacity {
                proof {
                    assert(old(self).pending(i as int).len() >= old(self).spec_capacity());
                    assert(self.wf());
                }
                return Err(rec);
            }
            i += 1;
        }
        let ghost recv = rec@;
        let mut i: usize = 0;
        while i < n
            invariant
                old(self).wf(),
                n == self.consumer_count(),
                n == old(self).consumer_count(),
                i <= n,
                self.spec_capacity() == old(self).spec_capacity(),
                self.pushed() == old(self).pushed(),
                rec@ == recv,
                forall|q: int|
                    0 <= q < old(self).consumer_count() ==> (#[trigger] old(self).pending(
                        q,
                    )).len() < old(self).spec_capacity(),
                forall|q: int|
                    0 <= q < i ==> {
                        &&& #[trigger] self.pending(q) == old(self).pending(q).push(recv)
                        &&& self.observed(q) == old(self).observed(q)
                        &&& self.registered_at(q) == old(self).registered_at(q)
                    },
                forall|q: int|
                    i <= q < n ==> #[trigger] self.queues@[q] == old(self).queues@[q],
            decreases n - i,
        {
            let ghost pre_self = *self;
            let ghost pre = self.queues@;
            let mut state = self.queues.remove(i);
            let cloned = rec.clone();
            let ghost clv = cloned;
            state.pending.push(cloned);
            let ghost new_state = state;
            self.queues.insert(i, state);
            proof {
                assert(pre[i as int] == old(self).queues@[i as int]);
                assert(new_state.pending@ =~= pre[i as int].pending@.push(clv));
                assert(new_state.observed@ == pre[i as int].observed@);
                assert(new_state.registered_at@ == pre[i as int].registered_at@);
                assert(self.queues@ =~= pre.update(i as int, new_state));
                assert(new_state.pending@.map_values(|r: Record| r@) =~= pre[i as int].pending@
                    .map_values(|r: Record| r@).push(recv));
                assert forall|q: int| 0 <= q <= i implies {
                    &&& #[trigger] self.pending(q) == old(self).pending(q).push(recv)
                    &&& self.observed(q) == old(self).observed(q)
                    &&& self.registered_at(q) == old(self).registered_at(q)
                } by {
                    if q < i {
                        assert(pre_self.pending(q) == old(self).pending(q).push(recv));
                        assert(self.queues@[q] == pre[q]);
                        assert(self.pending(q) =~= pre_self.pending(q));
                        assert(self.observed(q) == pre_self.observed(q));
                        assert(self.registered_at(q) == pre_self.registered_at(q));
                    } else {
                        assert(self.pending(q) =~= old(self).pending(q).push(recv));
                    }
                };
                assert forall|q: int| i + 1 <= q < n implies #[trigger] self.queues@[q] == old(
                    self,
                ).queues@[q] by {
                    assert(self.queues@[q] == pre[q]);
                };
            }
            i += 1;
        }
        let ghost mid = *self;
        proof {
            self.pushed@ = self.pushed@.push(recv);
            assert(self.queues@ == mid.queues@);
            assert(self.pushed() == old(self).pushed().push(recv));
            assert forall|c: int| 0 <= c < old(self).consumer_count() implies {
                &&& #[trigger] self.pending(c) == old(self).pending(c).push(recv)
                &&& self.observed(c) == old(self).observed(c)
                &&& self.registered_at(c) == old(self).registered_at(c)
            } by {
                assert(mid.pending(c) == old(self).pending(c).push(recv));
                assert(self.queues@[c] == mid.queues@[c]);
                assert(self.pending(c) =~= mid.pending(c));
            };
            assert forall|c: int| 0 <= c < self.consumer_count() implies {
                &&& 0 <= #[trigger] self.registered_at(c) <= self.pushed().len()
                &&& self.observed(c) + self.pending(c) == self.pushed().skip(self.registered_at(c))
                &&& self.pending(c).len() <= self.spec_capacity()
            } by {
                assert(self.pending(c) == old(self).pending(c).push(recv));
                assert(self.observed(c) == old(self).observed(c));
                assert(self.registered_at(c) == old(self).registered_at(c));
                assert(0 <= old(self).registered_at(c) <= old(self).pushed().len());
                assert(old(self).observed(c) + old(self).pending(c) == old(self).pushed().skip(
                    old(self).registered_at(c),
                ));
                assert(old(self).pending(c).len() < old(self).spec_capacity());
                assert(old(self).pushed().push(recv).skip(old(self).registered_at(c)) =~= old(
                    self,
                ).pushed().skip(old(self).registered_at(c)).push(recv));
                assert(old(self).observed(c) + old(self).pending(c).push(recv) =~= (old(
                    self,
                ).observed(c) + old(self).pending(c)).push(recv));
            };
        }
        Ok(())
    }

    /// Take out consumer `c`'s next record, in the order records were
    /// pushed; nothing while its buffer is empty.
    pub fn recv(&mut self, c: usize) -> (r: Option<Record>)
        requires
            old(self).wf(),
            c < old(self).consumer_count(),
        ensures
            final(self).wf(),
            final(self).spec_capacity() == old(self).spec_capacity(),
            final(self).pushed() == old(self).pushed(),
            final(self).consumer_count() == old(self).consumer_count(),
            r is None <==> old(self).pending(c as int).len() == 0,
            r is None ==> *final(self) == *old(self),
            r matches Some(rec) ==> {
                &&& rec@ == old(self).pending(c as int)[0]
                &&& final(self).pending(c as int) == old(self).pending(c as int).skip(1)
                &&& final(self).observed(c as int) == old(self).observed(c as int).push(rec@)
                &&& final(self).registered_at(c as int) == old(self).registered_at(c as int)
            },
            forall|q: int|
                0 <= q < old(self).consumer_count() && q != c as int ==> {
                    &&& #[trigger] final(self).observed(q) == old(self).observed(q)
                    &&& final(self).pending(q) == old(self).pending(q)
                    &&& final(self).registered_at(q) == old(self).registered_at(q)
                },
    {
        if self.queues[c].pending.is_empty() {
            proof {
                assert(self.pending(c as int) =~= Seq::<RecordV>::empty());
            }
            return None;
        }
        let mut state = self.queues.remove(c);
        let rec = state.pending.remove(0);
        proof {
            state.observed@ = state.observed@.push(rec@);
        }
        let ghost new_state = state;
        self.queues.insert(c, state);
        proof {
            let old_pending = old(self).queues@[c as int].pending@;
            old_pending.remove_ensures(0);
            assert(new_state.pending@ =~= old_pending.subrange(1, old_pending.len() as int));
            assert(self.queues@ =~= old(self).queues@.update(c as int, new_state));
            assert(new_state.pending@.map_values(|r: Record| r@) =~= old_pending.map_values(
                |r: Record| r@,
            ).skip(1));
            assert(self.pending(c as int) =~= old(self).pending(c as int).skip(1));
            assert(rec@ == old(self).pending(c as int)[0]);
            assert(self.observed(c as int) == old(self).observed(c as int).push(rec@));
            assert forall|q: int| 0 <= q < self.consumer_count() implies {
                &&& 0 <= #[trigger] self.registered_at(q) <= self.pushed().len()
                &&& self.observed(q) + self.pending(q) == self.pushed().skip(self.registered_at(q))
                &&& self.pending(q).len() <= self.spec_capacity()
            } by {
                assert(0 <= old(self).registered_at(q) <= old(self).pushed().len());
                assert(old(self).observed(q) + old(self).pending(q) == old(self).pushed().skip(
                    old(self).registered_at(q),
                ));
                assert(old(self).pending(q).len() <= old(self).spec_capacity());
                if q == c as int {
                    assert(old(self).observed(q).push(rec@) + old(self).pending(q).skip(1) =~= old(
                        self,
                    ).observed(q) + old(self).pending(q));
                } else {
                    assert(self.queues@[q] == old(self).queues@[q]);
                    assert(self.pending(q) =~= old(self).pending(q));
                }
            };
        }
        Some(rec)
    }
}

/// Law: consumers registered before the first push observe, once their
/// buffers are drained, exactly the pushed records — the identical count
/// and the identical sequence, whichever consumers they are.
pub proof fn lemma_drained_consumers_observe_identically(h: BroadcastHub, c1: int, c2: int)
    requires
        h.wf(),
        0 <= c1 < h.consumer_count(),
        0 <= c2 < h.consumer_count(),
        h.registered_at(c1) == 0,
        h.registered_at(c2) == 0,
        h.pending(c1).len() == 0,
        h.pending(c2).len() == 0,
    ensures
        h.observed(c1) == h.pushed(),
        h.observed(c2) == h.pushed(),
        h.observed(c1) == h.observed(c2),
{
    assert(h.pushed().skip(0) =~= h.pushed());
    assert(h.observed(c1) + h.pending(c1) =~= h.observed(c1));
    assert(h.observed(c2) + h.pending(c2) =~= h.observed(c2));
}

} // verus!
