//! The scan queue: an ordered list of address ranges, enumerated lazily into
//! single targets by a cursor into the head range.

use vstd::prelude::*;

use crate::range::{AddressRange, Port, RangeV};

verus! {

/// The name a range or target points at.
pub type Host = String;

/// A single unit of work: probe one port of one host.
pub type Address = (Host, Port);

/// The mathematical image of an [`Address`].
pub struct TargetV {
    pub host: Seq<char>,
    pub port: Port,
}

/// The view of a concrete target.
pub open spec fn address_view(a: Address) -> TargetV {
    TargetV { host: a.0@, port: a.1 }
}

/// The view of an optional target, as [`ScanQueue::pop`] returns it.
pub open spec fn popped_view(a: Option<Address>) -> Option<TargetV> {
    match a {
        Some(a) => Some(address_view(a)),
        None => None,
    }
}

/// The targets an individual range still holds once its first `start` ports
/// are spent.
pub open spec fn range_targets(r: RangeV, start: nat) -> Seq<TargetV> {
    Seq::new(
        (r.spec_len() - start) as nat,
        |i: int| TargetV { host: r.host, port: Port { protocol: r.protocol, number: r.spec_nth(start + i) } },
    )
}

/// The mathematical image of a [`ScanQueue`]: the remaining ranges and the
/// cursor into the head range.
#[verifier::ext_equal]
pub struct QueueV {
    pub ranges: Seq<RangeV>,
    pub cursor: nat,
}

impl QueueV {
    /// Every held range is well formed and the cursor stays inside (or just
    /// past) the head range.
    pub open spec fn wf(self) -> bool {
        &&& forall|i: int| 0 <= i < self.ranges.len() ==> self.ranges[i].wf()
        &&& self.ranges.len() == 0 ==> self.cursor == 0
        &&& self.ranges.len() > 0 ==> self.cursor <= self.ranges[0].spec_len()
    }

    /// The queue holding nothing at all.
    pub open spec fn cleared() -> QueueV {
        QueueV { ranges: Seq::empty(), cursor: 0 }
    }

    /// Appending a range leaves the cursor alone.
    pub open spec fn spec_push(self, r: RangeV) -> QueueV {
        QueueV { ranges: self.ranges.push(r), cursor: self.cursor }
    }

    /// What `pop` yields and leaves behind: the next target of the head
    /// range, with spent head ranges dropped along the way.
    pub open spec fn spec_pop(self) -> (Option<TargetV>, QueueV)
        decreases self.ranges.len(),
    {
        if self.ranges.len() == 0 {
            (None::<TargetV>, self)
        } else if self.cursor < self.ranges[0].spec_len() {
            (
                Some(
                    TargetV {
                        host: self.ranges[0].host,
                        port: Port {
                            protocol: self.ranges[0].protocol,
                            number: self.ranges[0].spec_nth(self.cursor as int),
                        },
                    },
                ),
                QueueV { ranges: self.ranges, cursor: self.cursor + 1 },
            )
        } else {
            QueueV { ranges: self.ranges.drop_first(), cursor: 0 }.spec_pop()
        }
    }

    /// Every target the queue still holds, in the order `pop` yields them.
    pub open spec fn targets(self) -> Seq<TargetV>
        decreases self.ranges.len(),
    {
        if self.ranges.len() == 0 {
            Seq::empty()
        } else {
            range_targets(self.ranges[0], self.cursor) + QueueV {
                ranges: self.ranges.drop_first(),
                cursor: 0,
            }.targets()
        }
    }
}

/// `pop` yields exactly the head of `targets()` and drops it, and it returns
/// nothing exactly when no target remains; in that case it also leaves the
/// range list physically empty.
pub proof fn lemma_pop_targets(q: QueueV)
    requires
        q.wf(),
    ensures
        ({
            let (t, q2) = q.spec_pop();
            &&& q2.wf()
            &&& q.targets().len() == 0 ==> t is None && q2.ranges.len() == 0 && q2.cursor == 0
            &&& q.targets().len() > 0 ==> t == Some(q.targets()[0]) && q2.targets() =~= q.targets().drop_first()
        }),
    decreases q.ranges.len(),
{
    if q.ranges.len() == 0 {
    } else if q.cursor < q.ranges[0].spec_len() {
        let (t, q2) = q.spec_pop();
        assert(q.targets().len() > 0);
        assert(q.targets()[0] == range_targets(q.ranges[0], q.cursor)[0]);
        assert(q2.targets() =~= q.targets().drop_first()) by {
            assert(range_targets(q.ranges[0], q.cursor + 1) =~= range_targets(
                q.ranges[0],
                q.cursor,
            ).drop_first());
        }
    } else {
        let qr = QueueV { ranges: q.ranges.drop_first(), cursor: 0 };
        assert(range_targets(q.ranges[0], q.cursor).len() == 0);
        assert(q.targets() =~= qr.targets());
        lemma_pop_targets(qr);
    }
}

/// An ordered list of address ranges plus a cursor into the head range.
pub struct ScanQueue {
    address_index: usize,
    ranges: Vec<AddressRange>,
}

impl View for ScanQueue {
    type V = QueueV;

    closed spec fn view(&self) -> QueueV {
        QueueV {
            ranges: self.ranges@.map_values(|r: AddressRange| r@),
            cursor: self.address_index as nat,
        }
    }
}

impl ScanQueue {
    /// An empty queue.
    pub fn new() -> (r: ScanQueue)
        ensures
            r@ == QueueV::cleared(),
    {
        let r = ScanQueue { address_index: 0, ranges: Vec::new() };
        proof {
            assert(r@ =~= QueueV::cleared());
        }
        r
    }

    /// Yields the next target and advances the cursor; spent head ranges are
    /// removed on the way.  Yields nothing exactly when the queue is drained.
    pub fn pop(&mut self) -> (r: Option<Address>)
        requires
            old(self)@.wf(),
        ensures
            final(self)@.wf(),
            (popped_view(r), final(self)@) == old(self)@.spec_pop(),
    {
        loop
            invariant
                self@.wf(),
                self@.spec_pop() == old(self)@.spec_pop(),
            decreases self.ranges.len(),
        {
            if self.ranges.len() == 0 {
                proof {
                    lemma_pop_targets(self@);
                }
                return None;
            }
            let head_len = self.ranges[0].len();
            if self.address_index < head_len {
                let number = self.ranges[0].nth(self.address_index);
                let host = self.ranges[0].host.clone();
                let protocol = self.ranges[0].protocol;
                self.address_index = self.address_index + 1;
                return Some((host, Port { protocol, number }));
            } else {
                let ghost before = self@;
                self.ranges.remove(0);
                self.address_index = 0;
                proof {
                    assert(self@.ranges =~= before.ranges.drop_first());
                }
            }
        }
    }

    /// Appends a range at the back.
    pub fn push(&mut self, address_range: AddressRange)
        ensures
            final(self)@ == old(self)@.spec_push(address_range@),
    {
        self.ranges.push(address_range);
        proof {
            assert(self@.ranges =~= old(self)@.ranges.push(address_range@));
        }
    }

    /// The number of ranges still held, used only to detect drainage.
    pub fn len(&self) -> (r: usize)
        ensures
            r == self@.ranges.len(),
    {
        self.ranges.len()
    }

    /// Empties the queue and resets the cursor, so nothing can be popped
    /// until a new push.
    pub fn clear(&mut self)
        ensures
            final(self)@ == QueueV::cleared(),
    {
        self.ranges.clear();
        self.address_index = 0;
        proof {
            assert(self@ =~= QueueV::cleared());
        }
    }
}

/// Appending a range appends exactly its targets, one per port.
pub proof fn lemma_push_targets(q: QueueV, r: RangeV)
    requires
        q.wf(),
        r.wf(),
    ensures
        q.spec_push(r).targets() =~= q.targets() + range_targets(r, 0),
        range_targets(r, 0).len() == r.to - r.from + 1,
    decreases q.ranges.len(),
{
    if q.ranges.len() == 0 {
        assert(q.spec_push(r).ranges[0] == r);
        assert(q.spec_push(r).ranges.drop_first() =~= Seq::<RangeV>::empty());
        assert(QueueV { ranges: q.spec_push(r).ranges.drop_first(), cursor: 0 }.targets()
            =~= Seq::<TargetV>::empty());
        assert(q.targets() =~= Seq::<TargetV>::empty());
    } else {
        let qt = QueueV { ranges: q.ranges.drop_first(), cursor: 0 };
        lemma_push_targets(qt, r);
        assert(q.spec_push(r).ranges[0] == q.ranges[0]);
        assert(q.spec_push(r).ranges.drop_first() =~= qt.spec_push(r).ranges);
    }
}

} // verus!
