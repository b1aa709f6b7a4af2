use vstd::prelude::*;
use crate::idmap::IdMap;
use crate::packet::NodeIdx;

verus! {

/// A `(time, source, prev)` triple attached to a committed batch.
#[derive(Clone, Copy, PartialEq, Eq, Structural, Debug)]
pub struct Assignment {
    /// The transaction timestamp of this batch.
    pub time: u64,
    /// The identity of the assigning authority.
    pub source: u64,
    /// The timestamp of the previous batch committed to the same base.
    pub prev: u64,
}

/// The transaction-time authority of one domain. It hands out a strictly
/// increasing timestamp per call and remembers, per base node, the timestamp
/// of the last batch committed there, so that every assignment is monotonic
/// per base and carries the predecessor it supersedes.
pub struct DomainState {
    source: u64,
    clock: u64,
    last_assigned: IdMap<u64>,
}

impl DomainState {
    pub closed spec fn spec_source(self) -> u64 {
        self.source
    }

    pub closed spec fn spec_clock(self) -> u64 {
        self.clock
    }

    pub closed spec fn last_map(self) -> Map<NodeIdx, u64> {
        self.last_assigned.as_map()
    }

    /// The timestamp of the last batch committed to `base`, zero if none.
    pub open spec fn spec_last(self, base: NodeIdx) -> u64 {
        if self.last_map().dom().contains(base) {
            self.last_map()[base]
        } else {
            0
        }
    }

    /// Every remembered per-base timestamp is bounded by the clock.
    pub closed spec fn wf(self) -> bool {
        &&& self.last_assigned.wf()
        &&& forall|b: NodeIdx| self.last_map().dom().contains(b) ==> #[trigger] self.last_map()[b]
            <= self.spec_clock()
    }

    pub fn new(source: u64) -> (r: DomainState)
        ensures
            r.wf(),
            r.spec_source() == source,
            r.spec_clock() == 0,
            r.last_map() == Map::<NodeIdx, u64>::empty(),
    {
        DomainState { source, clock: 0, last_assigned: IdMap::new() }
    }

    /// Assign a transaction time to a batch committed to `base`.
    ///
    /// The returned timestamp is fresh (above every earlier assignment of this
    /// authority) and `prev` names the assignment it supersedes at `base`, so
    /// successive assignments to one base are strictly monotonic and chained.
    pub fn assign_time(&mut self, base: NodeIdx) -> (r: Assignment)
        requires
            old(self).wf(),
            old(self).spec_clock() < u64::MAX,
        ensures
            final(self).wf(),
            r.source == old(self).spec_source(),
            r.prev == old(self).spec_last(base),
            r.time == old(self).spec_clock() + 1,
            r.time > r.prev,
            final(self).spec_source() == old(self).spec_source(),
            final(self).spec_clock() == r.time,
            final(self).last_map() == old(self).last_map().insert(base, r.time),
            final(self).spec_last(base) == r.time,
    {
        let prev = match self.last_assigned.get(base) {
            Some(t) => *t,
            None => 0,
        };
        let time = self.clock + 1;
        self.clock = time;
        self.last_assigned.insert(base, time);
        proof {
            assert forall|b: NodeIdx| self.last_map().dom().contains(b)
                implies #[trigger] self.last_map()[b] <= self.spec_clock() by {
                if b != base {
                    assert(old(self).last_map().dom().contains(b));
                }
            }
        }
        Assignment { time, source: self.source, prev }
    }
}

} // verus!
