use vstd::prelude::*;
use crate::idmap::IdMap;
use crate::logenc::{batches_view, dec_chars, log_line_of, make_log_line, push_decimal};
use crate::node::DomainNodes;
use crate::packet::{
    append_records,
    clone_records,
    DomainError,
    LocalIdx,
    NodeIdx,
    Packet,
    PacketV,
    Records,
    Tracer,
    TransactionState,
};
use crate::txtime::DomainState;

verus! {

/// To what degree updates are persisted.
#[derive(Clone, Copy, PartialEq, Eq, Structural, Debug)]
pub enum DurabilityMode {
    /// No durability at all.
    MemoryOnly,
    /// Log files are written, and deleted when the queue set is dropped.
    DeleteOnExit,
    /// Log files are written and kept.
    Permanent,
}

/// Parameters that control group commit.
pub struct Parameters {
    /// Number of packets to buffer per destination before flushing.
    pub queue_capacity: usize,
    /// How long a pending packet may wait before a flush is due, in
    /// milliseconds of the caller's clock.
    pub flush_timeout: u64,
    /// Whether and how long log files persist.
    pub mode: DurabilityMode,
    /// Filename prefix of the log files.
    pub log_prefix: String,
}

/// A copy of a string, equal in value.
fn copy_string(s: &String) -> (r: String)
    ensures
        r@ == s@,
{
    s.as_str().to_owned()
}

impl Default for Parameters {
    /// Defaults: 256 packets per queue, a one-millisecond flush timeout, no
    /// durability, prefix `soup`.
    fn default() -> (r: Parameters)
        ensures
            r.queue_capacity == 256,
            r.flush_timeout == 1,
            r.mode == DurabilityMode::MemoryOnly,
            r.log_prefix@ == "soup"@,
    {
        Parameters {
            queue_capacity: 256,
            flush_timeout: 1,
            mode: DurabilityMode::MemoryOnly,
            log_prefix: String::from_str("soup"),
        }
    }
}

/// The characters of the log file name for one destination:
/// `{prefix}-log-{domain}_{shard}-{node}.json`.
pub open spec fn log_path_chars(
    prefix: Seq<char>,
    domain_index: u64,
    domain_shard: u64,
    node: LocalIdx,
) -> Seq<char> {
    prefix + "-log-"@ + dec_chars(domain_index) + "_"@ + dec_chars(domain_shard) + "-"@ + dec_chars(
        node,
    ) + ".json"@
}

impl Parameters {
    pub fn new(
        mode: DurabilityMode,
        queue_capacity: usize,
        flush_timeout: u64,
        log_prefix: Option<String>,
    ) -> (r: Parameters)
        ensures
            r.queue_capacity == queue_capacity,
            r.flush_timeout == flush_timeout,
            r.mode == mode,
            match log_prefix {
                Some(p) => r.log_prefix@ == p@,
                None => r.log_prefix@ == "soup"@,
            },
    {
        let prefix = match log_prefix {
            Some(p) => p,
            None => String::from_str("soup"),
        };
        Parameters { queue_capacity, flush_timeout, mode, log_prefix: prefix }
    }

    /// The file that the given destination's log lines go to.
    pub fn log_path(&self, node: LocalIdx, domain_index: u64, domain_shard: u64) -> (r: String)
        ensures
            r@ == log_path_chars(self.log_prefix@, domain_index, domain_shard, node),
    {
        let mut out = copy_string(&self.log_prefix);
        out.append("-log-");
        push_decimal(&mut out, domain_index);
        out.append("_");
        push_decimal(&mut out, domain_shard);
        out.append("-");
        push_decimal(&mut out, node);
        out.append(".json");
        proof {
            assert(out@ =~= log_path_chars(self.log_prefix@, domain_index, domain_shard, node));
        }
        out
    }

    /// A copy of these parameters, equal in value.
    pub fn duplicate(&self) -> (r: Parameters)
        ensures
            r.queue_capacity == self.queue_capacity,
            r.flush_timeout == self.flush_timeout,
            r.mode == self.mode,
            r.log_prefix@ == self.log_prefix@,
    {
        Parameters {
            queue_capacity: self.queue_capacity,
            flush_timeout: self.flush_timeout,
            mode: self.mode,
            log_prefix: copy_string(&self.log_prefix),
        }
    }
}

/// A debug event owed to the outside world after a merge: the tracer that
/// survived absorbing the one that did not. The transport delivers it through
/// the surviving tracer's sender.
#[derive(Clone, Copy, PartialEq, Eq, Structural, Debug)]
pub struct MergeNote {
    pub surviving: u64,
    pub absorbed: u64,
}

/// The packet views underneath a vector of packets.
pub open spec fn views_of(ps: Seq<Packet>) -> Seq<PacketV> {
    ps.map_values(|p: Packet| p@)
}

/// The record batches of a run of packets, in order.
pub open spec fn datas_of(ps: Seq<PacketV>) -> Seq<Seq<i64>> {
    ps.map_values(|p: PacketV| p.spec_data())
}

/// The tracers of a run of packets, in order.
pub open spec fn tracers_of(ps: Seq<PacketV>) -> Seq<Option<Tracer>> {
    ps.map_values(|p: PacketV| p.spec_tracer())
}

/// The records of a run of packets, concatenated in packet order.
pub open spec fn concat_datas(ps: Seq<PacketV>) -> Seq<i64>
    decreases ps.len(),
{
    if ps.len() == 0 {
        Seq::<i64>::empty()
    } else {
        concat_datas(ps.drop_last()) + ps.last().spec_data()
    }
}

/// One step of tracer merging: a tracer that holds a sender survives against
/// a later one; otherwise the later tracer takes over.
pub open spec fn merge_step(acc: Option<Tracer>, t: Option<Tracer>) -> Option<Tracer> {
    match (acc, t) {
        (Some(a), Some(b)) => if a.has_sender {
            Some(a)
        } else {
            Some(b)
        },
        (None, Some(b)) => Some(b),
        (a, None) => a,
    }
}

/// The debug event one step owes: when both sides carry a sender, the
/// survivor absorbs the newcomer.
pub open spec fn step_note(acc: Option<Tracer>, t: Option<Tracer>) -> Seq<MergeNote> {
    match (acc, t) {
        (Some(a), Some(b)) => if a.has_sender && b.has_sender {
            seq![MergeNote { surviving: a.tag, absorbed: b.tag }]
        } else {
            Seq::<MergeNote>::empty()
        },
        _ => Seq::<MergeNote>::empty(),
    }
}

/// The tracer that survives merging a run of tracers, in order.
pub open spec fn merge_tracer_fold(ts: Seq<Option<Tracer>>) -> Option<Tracer>
    decreases ts.len(),
{
    if ts.len() == 0 {
        None
    } else {
        merge_step(merge_tracer_fold(ts.drop_last()), ts.last())
    }
}

/// The debug events owed by merging a run of tracers, in order.
pub open spec fn merge_notes(ts: Seq<Option<Tracer>>) -> Seq<MergeNote>
    decreases ts.len(),
{
    if ts.len() == 0 {
        Seq::<MergeNote>::empty()
    } else {
        merge_notes(ts.drop_last()) + step_note(merge_tracer_fold(ts.drop_last()), ts.last())
    }
}

/// What the merged packet of a nonempty batch must be: the shared link, the
/// records concatenated in batch order, the surviving tracer, and a committed
/// transaction state carrying the assignment.
pub open spec fn merged_packet_of(
    ps: Seq<PacketV>,
    at_time: u64,
    at_source: u64,
    prev: u64,
    base: NodeIdx,
) -> PacketV {
    PacketV::VtMessage {
        link: ps[0].spec_link(),
        data: concat_datas(ps),
        tracer: merge_tracer_fold(tracers_of(ps)),
        state: TransactionState::Committed { at_time, at_source, prev, base },
    }
}

/// Merge a batch of base-node writes into one committed packet. The batch
/// must be uniform: every packet a `VtMessage` on the same link. An empty
/// batch merges to nothing and asks the time authority for nothing; a
/// nonempty one obtains exactly one assignment for the destination base node,
/// after which the merged packet carries the records in FIFO batch order.
pub fn merge_packets(packets: Vec<Packet>, nodes: &DomainNodes, transaction_state: &mut DomainState) -> (r:
    (Option<Packet>, Vec<MergeNote>))
    requires
        old(transaction_state).wf(),
        old(transaction_state).spec_clock() < u64::MAX,
        forall|i: int| 0 <= i < packets@.len() ==> (#[trigger] packets@[i]@) is VtMessage,
        forall|i: int|
            0 <= i < packets@.len() ==> (#[trigger] packets@[i]@).spec_link()
                == packets@[0]@.spec_link(),
        packets@.len() > 0 ==> packets@[0]@.spec_link().dst < nodes.node_seq().len()
            && nodes.node_seq()[packets@[0]@.spec_link().dst as int].spec_index() is Some,
    ensures
        final(transaction_state).wf(),
        packets@.len() == 0 ==> r.0 is None && r.1@ == Seq::<MergeNote>::empty()
            && *final(transaction_state) == *old(transaction_state),
        packets@.len() > 0 ==> {
            let base = nodes.node_seq()[packets@[0]@.spec_link().dst as int].spec_global_addr();
            &&& (r.0 matches Some(p) && p@ == merged_packet_of(
                views_of(packets@),
                (old(transaction_state).spec_clock() + 1) as u64,
                old(transaction_state).spec_source(),
                old(transaction_state).spec_last(base),
                base,
            ))
            &&& r.1@ == merge_notes(tracers_of(views_of(packets@)))
            &&& final(transaction_state).spec_clock() == old(transaction_state).spec_clock() + 1
            &&& final(transaction_state).spec_source() == old(transaction_state).spec_source()
            &&& final(transaction_state).last_map() == old(transaction_state).last_map().insert(
                base,
                (old(transaction_state).spec_clock() + 1) as u64,
            )
        },
{
    if packets.len() == 0 {
        return (None, Vec::new());
    }
    let ghost pvs = views_of(packets@);
    let merged_link = packets[0].link();
    let base = nodes.node(merged_link.dst).global_addr();
    let assignment = transaction_state.assign_time(base);

    let mut merged_data: Records = Vec::new();
    let mut merged_tracer: Option<Tracer> = None;
    let mut notes: Vec<MergeNote> = Vec::new();
    let mut i: usize = 0;
    while i < packets.len()
        invariant
            pvs == views_of(packets@),
            pvs.len() == packets@.len(),
            0 <= i <= packets@.len(),
            forall|j: int| 0 <= j < packets@.len() ==> (#[trigger] packets@[j]@) is VtMessage,
            merged_data@ == concat_datas(pvs.subrange(0, i as int)),
            merged_tracer == merge_tracer_fold(tracers_of(pvs.subrange(0, i as int))),
            notes@ == merge_notes(tracers_of(pvs.subrange(0, i as int))),
        decreases packets@.len() - i,
    {
        proof {
            assert(pvs.subrange(0, i + 1).drop_last() =~= pvs.subrange(0, i as int));
            assert(tracers_of(pvs.subrange(0, i + 1)).drop_last() =~= tracers_of(
                pvs.subrange(0, i as int),
            ));
            assert(tracers_of(pvs.subrange(0, i + 1)).last() == pvs[i as int].spec_tracer());
        }
        let p = &packets[i];
        append_records(&mut merged_data, p.data());
        match (merged_tracer, p.tracer()) {
            (Some(a), Some(b)) => {
                if a.has_sender && b.has_sender {
                    notes.push(MergeNote { surviving: a.tag, absorbed: b.tag });
                } else if b.has_sender {
                    merged_tracer = Some(b);
                } else if !a.has_sender {
                    merged_tracer = Some(b);
                }
            },
            (None, Some(b)) => {
                merged_tracer = Some(b);
            },
            (_, None) => {},
        }
        proof {
            assert(merged_data@ =~= concat_datas(pvs.subrange(0, i + 1)));
            assert(notes@ =~= merge_notes(tracers_of(pvs.subrange(0, i + 1))));
        }
        i = i + 1;
    }
    proof {
        assert(pvs.subrange(0, packets@.len() as int) =~= pvs);
    }
    let merged = Packet::VtMessage {
        link: merged_link,
        data: merged_data,
        tracer: merged_tracer,
        state: TransactionState::Committed {
            at_time: assignment.time,
            at_source: assignment.source,
            prev: assignment.prev,
            base,
        },
    };
    (Some(merged), notes)
}

/// What one flush hands back: the destination it drained, the log line that
/// must be on disk before the merged packet is released (absent under
/// `MemoryOnly`), the merged packet itself, and the debug events owed by
/// tracer merging.
pub struct FlushOutput {
    pub node: LocalIdx,
    pub line: Option<Vec<u8>>,
    pub merged: Packet,
    pub notes: Vec<MergeNote>,
}

/// Whether a pending packet that started waiting at `ws` is due for a flush
/// at time `now` under `timeout` (times in the caller's clock; a clock that
/// runs backwards counts as no time passed).
pub open spec fn is_due(ws: u64, timeout: u64, now: u64) -> bool {
    (if now >= ws {
        now - ws
    } else {
        0
    }) >= timeout
}

/// How long until the packet that started waiting at `ws` is due, zero if it
/// already is.
pub open spec fn remaining(ws: u64, timeout: u64, now: u64) -> u64 {
    let elapsed = if now >= ws {
        now - ws
    } else {
        0
    };
    if elapsed >= timeout {
        0
    } else {
        (timeout - elapsed) as u64
    }
}

/// A correct flush output for draining queue `q` of destination `n`: the
/// merged packet carries the records of `q` in order and one fresh
/// assignment, and unless the mode is memory-only, the log line holds exactly
/// the record batches of `q`.
pub open spec fn flush_output_ok(
    fo: FlushOutput,
    q: Seq<PacketV>,
    n: LocalIdx,
    nodes: DomainNodes,
    pre_ts: DomainState,
    mode: DurabilityMode,
) -> bool {
    let base = nodes.node_seq()[n as int].spec_global_addr();
    &&& fo.node == n
    &&& fo.merged@ == merged_packet_of(
        q,
        (pre_ts.spec_clock() + 1) as u64,
        pre_ts.spec_source(),
        pre_ts.spec_last(base),
        base,
    )
    &&& fo.notes@ == merge_notes(tracers_of(q))
    &&& (mode is MemoryOnly ==> fo.line is None)
    &&& (!(mode is MemoryOnly) ==> (fo.line matches Some(l) && l@ == log_line_of(datas_of(q))))
}

/// The time authority advanced by exactly the one assignment for `base`.
pub open spec fn ts_advanced(pre: DomainState, post: DomainState, base: NodeIdx) -> bool {
    &&& post.spec_clock() == pre.spec_clock() + 1
    &&& post.spec_source() == pre.spec_source()
    &&& post.last_map() == pre.last_map().insert(base, (pre.spec_clock() + 1) as u64)
}

/// The per-destination group-commit queues of one domain shard. Packets bound
/// for base nodes are buffered here per destination; a queue is flushed when
/// it reaches capacity or when its oldest packet has waited out the flush
/// timeout, and the drained batch leaves as one merged, committed packet.
pub struct GroupCommitQueueSet {
    /// Packets queued to be persisted, per destination.
    pending_packets: IdMap<Vec<Packet>>,
    /// When the first packet now pending for each destination arrived;
    /// absent while nothing is pending there.
    wait_start: IdMap<u64>,
    domain_index: u64,
    domain_shard: u64,
    params: Parameters,
}

impl GroupCommitQueueSet {
    pub closed spec fn pend_tab(self) -> IdMap<Vec<Packet>> {
        self.pending_packets
    }

    pub closed spec fn wait_tab(self) -> IdMap<u64> {
        self.wait_start
    }

    pub closed spec fn spec_capacity(self) -> usize {
        self.params.queue_capacity
    }

    pub closed spec fn spec_timeout(self) -> u64 {
        self.params.flush_timeout
    }

    pub closed spec fn spec_mode(self) -> DurabilityMode {
        self.params.mode
    }

    pub closed spec fn spec_prefix(self) -> Seq<char> {
        self.params.log_prefix@
    }

    pub closed spec fn spec_domain_index(self) -> u64 {
        self.domain_index
    }

    pub closed spec fn spec_domain_shard(self) -> u64 {
        self.domain_shard
    }

    /// The pending queues, destination by destination, as packet values.
    pub open spec fn pending(self) -> Map<LocalIdx, Seq<PacketV>> {
        Map::new(
            |k: LocalIdx| self.pend_tab().contains_spec(k),
            |k: LocalIdx| views_of(self.pend_tab().as_map()[k]@),
        )
    }

    /// The queue pending for destination `n`, empty if none.
    pub open spec fn queue(self, n: LocalIdx) -> Seq<PacketV> {
        if self.pending().dom().contains(n) {
            self.pending()[n]
        } else {
            Seq::<PacketV>::empty()
        }
    }

    /// When each destination's oldest pending packet arrived.
    pub open spec fn waits(self) -> Map<LocalIdx, u64> {
        self.wait_tab().as_map()
    }

    /// The destinations with a wait running, oldest first entry first.
    pub open spec fn wait_keys(self) -> Seq<LocalIdx> {
        self.wait_tab().key_seq()
    }

    pub open spec fn same_config(a: GroupCommitQueueSet, b: GroupCommitQueueSet) -> bool {
        &&& a.spec_capacity() == b.spec_capacity()
        &&& a.spec_timeout() == b.spec_timeout()
        &&& a.spec_mode() == b.spec_mode()
        &&& a.spec_prefix() == b.spec_prefix()
        &&& a.spec_domain_index() == b.spec_domain_index()
        &&& a.spec_domain_shard() == b.spec_domain_shard()
    }

    /// Every packet queued for `k` is a `VtMessage` bound for `k`, and one
    /// batch shares one link.
    pub open spec fn queues_uniform(self) -> bool {
        forall|k: LocalIdx, i: int|
            self.pending().dom().contains(k) && 0 <= i < self.queue(k).len() ==> ((
            #[trigger] self.queue(k)[i]) is VtMessage && self.queue(k)[i].spec_link().dst == k
                && self.queue(k)[i].spec_link() == self.queue(k)[0].spec_link())
    }

    /// Well-formed: positive capacity; queues strictly under capacity (a
    /// queue that reaches it is flushed at once); a wait runs for exactly the
    /// destinations with something pending; uniform queues.
    pub open spec fn wf(self) -> bool {
        &&& self.pend_tab().wf()
        &&& self.wait_tab().wf()
        &&& self.spec_capacity() > 0
        &&& forall|k: LocalIdx|
            self.pending().dom().contains(k) ==> #[trigger] self.queue(k).len()
                < self.spec_capacity()
        &&& forall|k: LocalIdx| #[trigger]
            self.waits().dom().contains(k) <==> (self.pending().dom().contains(k) && self.queue(
                k,
            ).len() > 0)
        &&& self.queues_uniform()
    }

    /// Well-formedness at the moment destination `n` is about to be flushed:
    /// `n`'s queue may have just reached capacity and its wait may not have
    /// been started, but everything else is as `wf` asks.
    pub open spec fn wf_at_flush(self, n: LocalIdx) -> bool {
        &&& self.pend_tab().wf()
        &&& self.wait_tab().wf()
        &&& self.spec_capacity() > 0
        &&& forall|k: LocalIdx|
            self.pending().dom().contains(k) && k != n ==> #[trigger] self.queue(k).len()
                < self.spec_capacity()
        &&& forall|k: LocalIdx|
            k != n ==> ((#[trigger] self.waits().dom().contains(k)) <==> (
            self.pending().dom().contains(k) && self.queue(k).len() > 0))
        &&& self.queues_uniform()
    }

    /// Create an empty queue set for one domain shard.
    pub fn new(domain_index: u64, domain_shard: u64, params: &Parameters) -> (r:
        GroupCommitQueueSet)
        requires
            params.queue_capacity > 0,
        ensures
            r.wf(),
            r.pending() == Map::<LocalIdx, Seq<PacketV>>::empty(),
            r.waits() == Map::<LocalIdx, u64>::empty(),
            r.wait_keys() == Seq::<LocalIdx>::empty(),
            r.spec_capacity() == params.queue_capacity,
            r.spec_timeout() == params.flush_timeout,
            r.spec_mode() == params.mode,
            r.spec_prefix() == params.log_prefix@,
            r.spec_domain_index() == domain_index,
            r.spec_domain_shard() == domain_shard,
    {
        let r = GroupCommitQueueSet {
            pending_packets: IdMap::new(),
            wait_start: IdMap::new(),
            domain_index,
            domain_shard,
            params: params.duplicate(),
        };
        proof {
            assert(r.pending() =~= Map::<LocalIdx, Seq<PacketV>>::empty());
        }
        r
    }

    /// The destination of a packet that group commit cares about: the local
    /// target of a `VtMessage`, nothing for any other variant.
    fn packet_destination(p: &Packet) -> (r: Option<LocalIdx>)
        ensures
            match r {
                Some(n) => p@ is VtMessage && n == p@.spec_link().dst,
                None => !(p@ is VtMessage),
            },
    {
        match p {
            Packet::VtMessage { link, .. } => Some(link.dst),
            _ => None,
        }
    }

    /// Whether `append` should take this packet: a `VtMessage` whose
    /// destination is an internal base node.
    pub open spec fn spec_should_append(p: PacketV, nodes: DomainNodes) -> bool {
        &&& p is VtMessage
        &&& p.spec_link().dst < nodes.node_seq().len()
        &&& nodes.node_seq()[p.spec_link().dst as int].spec_is_base()
    }

    /// Whether the given packet should be persisted before processing.
    pub fn should_append(&self, p: &Packet, nodes: &DomainNodes) -> (r: bool)
        requires
            p@ is VtMessage ==> p@.spec_link().dst < nodes.node_seq().len(),
        ensures
            r == Self::spec_should_append(p@, *nodes),
    {
        match Self::packet_destination(p) {
            Some(n) => {
                let node = nodes.node(n);
                node.is_internal() && node.get_base().is_some()
            },
            None => false,
        }
    }

    /// Drain destination `n`: encode its queue as one log line (unless
    /// memory-only), clear the queue and its wait, and merge the drained
    /// packets into one committed packet. The caller writes and syncs the
    /// line before letting the merged packet out.
    fn flush_internal(
        &mut self,
        node: LocalIdx,
        nodes: &DomainNodes,
        transaction_state: &mut DomainState,
    ) -> (fo: FlushOutput)
        requires
            old(self).wf_at_flush(node),
            old(self).pending().dom().contains(node),
            old(self).queue(node).len() > 0,
            node < nodes.node_seq().len(),
            nodes.node_seq()[node as int].spec_index() is Some,
            old(transaction_state).wf(),
            old(transaction_state).spec_clock() < u64::MAX,
        ensures
            final(self).wf(),
            final(transaction_state).wf(),
            GroupCommitQueueSet::same_config(*final(self), *old(self)),
            flush_output_ok(
                fo,
                old(self).queue(node),
                node,
                *nodes,
                *old(transaction_state),
                old(self).spec_mode(),
            ),
            forall|k: LocalIdx|
                final(self).pending().dom().contains(k) == old(self).pending().dom().contains(k),
            final(self).queue(node).len() == 0,
            forall|k: LocalIdx| k != node ==> final(self).queue(k) == old(self).queue(k),
            final(self).waits() == old(self).waits().remove(node),
            old(self).waits().dom().contains(node) ==> final(self).wait_keys() == old(
                self,
            ).wait_keys().remove(old(self).wait_tab().index_of(node)),
            !old(self).waits().dom().contains(node) ==> final(self).wait_keys() == old(
                self,
            ).wait_keys(),
            ts_advanced(
                *old(transaction_state),
                *final(transaction_state),
                nodes.node_seq()[node as int].spec_global_addr(),
            ),
    {
        let ghost q = old(self).queue(node);
        let line: Option<Vec<u8>> = match self.params.mode {
            DurabilityMode::MemoryOnly => None,
            _ => {
                let pending: &Vec<Packet> = match self.pending_packets.get(node) {
                    Some(v) => v,
                    None => unreached(),
                };
                let mut batches: Vec<Records> = Vec::new();
                let mut i: usize = 0;
                while i < pending.len()
                    invariant
                        0 <= i <= pending@.len(),
                        batches@.len() == i,
                        forall|j: int| 0 <= j < i ==> #[trigger] batches@[j]@ == pending@[j]@.spec_data(),
                    decreases pending@.len() - i,
                {
                    batches.push(clone_records(pending[i].data()));
                    i = i + 1;
                }
                proof {
                    assert(batches_view(batches@) =~= datas_of(q));
                }
                Some(make_log_line(&batches))
            },
        };
        self.wait_start.remove(node);
        let drained: Vec<Packet> = match self.pending_packets.remove(node) {
            Some(v) => v,
            None => unreached(),
        };
        let empty_vec: Vec<Packet> = Vec::new();
        proof {
            assert(empty_vec@ =~= Seq::<Packet>::empty());
        }
        self.pending_packets.insert(node, empty_vec);
        proof {
            assert(views_of(drained@) =~= q);
            assert forall|i: int| 0 <= i < drained@.len() implies (#[trigger] drained@[i]@)
                is VtMessage by {
                assert(q[i] == drained@[i]@);
            }
            assert forall|i: int| 0 <= i < drained@.len() implies (#[trigger] drained@[i]@)
                .spec_link() == drained@[0]@.spec_link() by {
                assert(q[i] == drained@[i]@);
            }
            assert(q[0] == drained@[0]@);
            assert((old(self).queue(node)[0]) is VtMessage && old(self).queue(
                node,
            )[0].spec_link().dst == node);
        }
        let (merged_opt, notes) = merge_packets(drained, nodes, transaction_state);
        let merged = match merged_opt {
            Some(p) => p,
            None => unreached(),
        };
        proof {
            assert(views_of(self.pend_tab().as_map()[node]@) =~= Seq::<PacketV>::empty());
            assert(self.queue(node) =~= Seq::<PacketV>::empty());
            assert forall|k: LocalIdx|
                self.pending().dom().contains(k) == old(self).pending().dom().contains(k) by {
                assert(self.pending().dom().contains(k) == self.pend_tab().as_map().dom().contains(
                    k,
                ));
                assert(old(self).pending().dom().contains(k) == old(
                    self,
                ).pend_tab().as_map().dom().contains(k));
            }
            assert forall|k: LocalIdx| k != node implies self.queue(k) == old(self).queue(k) by {
                if self.pending().dom().contains(k) {
                    assert(self.pend_tab().as_map()[k] == old(self).pend_tab().as_map()[k]);
                }
            }
            assert forall|k: LocalIdx| #[trigger]
                self.waits().dom().contains(k) implies (self.pending().dom().contains(k)
                && self.queue(k).len() > 0) by {
                assert(k != node);
                assert(old(self).waits().dom().contains(k));
                assert(self.queue(k) == old(self).queue(k));
            }
            assert forall|k: LocalIdx|
                self.pending().dom().contains(k) && self.queue(k).len() > 0 implies #[trigger] self
                .waits().dom().contains(k) by {
                assert(self.pending().dom().contains(k) == old(self).pending().dom().contains(k));
                assert(k != node);
                assert(self.queue(k) == old(self).queue(k));
                assert(old(self).waits().dom().contains(k));
            }
            assert forall|k: LocalIdx| self.pending().dom().contains(k) implies #[trigger] self
                .queue(k).len() < self.spec_capacity() by {
                if k != node {
                    assert(self.queue(k) == old(self).queue(k));
                }
            }
            assert forall|k: LocalIdx, i: int|
                self.pending().dom().contains(k) && 0 <= i < self.queue(k).len() implies ((
            #[trigger] self.queue(k)[i]) is VtMessage && self.queue(k)[i].spec_link().dst == k
                && self.queue(k)[i].spec_link() == self.queue(k)[0].spec_link()) by {
                assert(k != node);
                assert(self.queue(k) == old(self).queue(k));
            }
        }
        FlushOutput { node, line, merged, notes }
    }

    /// What `append` leaves behind: the packet joins its destination's queue;
    /// a queue that reaches capacity is flushed at once and returned merged,
    /// otherwise the destination's wait clock starts if it was not running.
    pub open spec fn append_post(
        pre: GroupCommitQueueSet,
        post: GroupCommitQueueSet,
        pre_ts: DomainState,
        post_ts: DomainState,
        nodes: DomainNodes,
        p: PacketV,
        now: u64,
        r: Option<FlushOutput>,
    ) -> bool {
        let n = p.spec_link().dst;
        let newq = pre.queue(n).push(p);
        &&& (forall|k: LocalIdx| #[trigger]
            post.pending().dom().contains(k) == (pre.pending().dom().contains(k) || k == n))
        &&& (forall|k: LocalIdx| k != n ==> #[trigger] post.queue(k) == pre.queue(k))
        &&& if newq.len() >= pre.spec_capacity() {
            &&& r matches Some(fo)
            &&& flush_output_ok(fo, newq, n, nodes, pre_ts, pre.spec_mode())
            &&& post.queue(n).len() == 0
            &&& post.waits() == pre.waits().remove(n)
            &&& ts_advanced(pre_ts, post_ts, nodes.node_seq()[n as int].spec_global_addr())
        } else {
            &&& r is None
            &&& post.queue(n) == newq
            &&& post_ts == pre_ts
            &&& (pre.waits().dom().contains(n) ==> post.waits() == pre.waits()
                && post.wait_keys() == pre.wait_keys())
            &&& (!pre.waits().dom().contains(n) ==> post.waits() == pre.waits().insert(n, now)
                && post.wait_keys() == pre.wait_keys().push(n))
        }
    }

    /// Queue a base-node write for group commit at time `now`. The caller has
    /// checked `should_append`; packets queued for one destination must keep
    /// one link. Returns the merged packet when this append filled the queue
    /// to capacity and so flushed it.
    pub fn append(
        &mut self,
        p: Packet,
        nodes: &DomainNodes,
        transaction_state: &mut DomainState,
        now: u64,
    ) -> (r: Option<FlushOutput>)
        requires
            old(self).wf(),
            Self::spec_should_append(p@, *nodes),
            nodes.node_seq()[p@.spec_link().dst as int].spec_index() is Some,
            old(self).queue(p@.spec_link().dst).len() > 0 ==> p@.spec_link() == old(self).queue(
                p@.spec_link().dst,
            )[0].spec_link(),
            old(transaction_state).wf(),
            old(transaction_state).spec_clock() < u64::MAX,
        ensures
            final(self).wf(),
            final(transaction_state).wf(),
            GroupCommitQueueSet::same_config(*final(self), *old(self)),
            Self::append_post(
                *old(self),
                *final(self),
                *old(transaction_state),
                *final(transaction_state),
                *nodes,
                p@,
                now,
                r,
            ),
    {
        let link = p.link();
        let n = link.dst;
        let ghost oldq = old(self).queue(n);
        let ghost pv = p@;
        let mut q: Vec<Packet> = match self.pending_packets.remove(n) {
            Some(v) => v,
            None => Vec::new(),
        };
        q.push(p);
        let qlen = q.len();
        proof {
            assert(views_of(q@) =~= oldq.push(pv));
        }
        self.pending_packets.insert(n, q);
        proof {
            assert(self.queue(n) =~= oldq.push(pv));
            assert forall|k: LocalIdx| #[trigger]
                self.pending().dom().contains(k) == (old(self).pending().dom().contains(k) || k
                == n) by {
                assert(self.pending().dom().contains(k) == self.pend_tab().as_map().dom().contains(
                    k,
                ));
                assert(old(self).pending().dom().contains(k) == old(
                    self,
                ).pend_tab().as_map().dom().contains(k));
            }
            assert forall|k: LocalIdx| k != n implies #[trigger] self.queue(k) == old(self).queue(
                k,
            ) by {
                if self.pending().dom().contains(k) {
                    assert(self.pend_tab().as_map()[k] == old(self).pend_tab().as_map()[k]);
                }
            }
            assert forall|k: LocalIdx, i: int|
                self.pending().dom().contains(k) && 0 <= i < self.queue(k).len() implies ((
            #[trigger] self.queue(k)[i]) is VtMessage && self.queue(k)[i].spec_link().dst == k
                && self.queue(k)[i].spec_link() == self.queue(k)[0].spec_link()) by {
                if k != n {
                    assert(self.queue(k) == old(self).queue(k));
                } else {
                    if i < oldq.len() {
                        assert(self.queue(n)[i] == oldq[i]);
                    }
                    assert(self.queue(n)[0] == if oldq.len() > 0 {
                        oldq[0]
                    } else {
                        pv
                    });
                }
            }
            assert forall|k: LocalIdx|
                self.pending().dom().contains(k) && k != n implies #[trigger] self.queue(k).len()
                    < self.spec_capacity() by {
                assert(self.queue(k) == old(self).queue(k));
            }
            assert(self.waits() == old(self).waits());
            assert forall|k: LocalIdx|
                k != n implies ((#[trigger] self.waits().dom().contains(k)) <==> (
            self.pending().dom().contains(k) && self.queue(k).len() > 0)) by {
                assert(self.queue(k) == old(self).queue(k));
                assert(self.pending().dom().contains(k) == old(self).pending().dom().contains(k));
                assert(old(self).waits().dom().contains(k) == (old(
                    self,
                ).pending().dom().contains(k) && old(self).queue(k).len() > 0));
            }
            assert(self.wf_at_flush(n));
        }
        if qlen >= self.params.queue_capacity {
            let fo = self.flush_internal(n, nodes, transaction_state);
            proof {
                assert forall|k: LocalIdx| k != n implies #[trigger] self.queue(k) == old(
                    self,
                ).queue(k) by {}
            }
            Some(fo)
        } else {
            if !self.wait_start.contains_key(n) {
                self.wait_start.insert(n, now);
            }
            proof {
                assert(old(self).waits().dom().contains(n) ==> self.waits() == old(self).waits());
                assert forall|k: LocalIdx| #[trigger]
                    self.waits().dom().contains(k) <==> (self.pending().dom().contains(k)
                    && self.queue(k).len() > 0) by {
                    if k != n {
                        assert(self.queue(k) == old(self).queue(k));
                        assert(self.pending().dom().contains(k) == old(
                            self,
                        ).pending().dom().contains(k));
                        assert(old(self).waits().dom().contains(k) == self.waits().dom().contains(
                            k,
                        ));
                    } else {
                        assert(self.queue(n).len() > 0);
                        assert(self.waits().dom().contains(n));
                    }
                }
                assert forall|k: LocalIdx| self.pending().dom().contains(k) implies #[trigger] self
                    .queue(k).len() < self.spec_capacity() by {
                    if k != n {
                        assert(self.queue(k) == old(self).queue(k));
                    } else {
                        assert(self.queue(n) =~= oldq.push(pv));
                    }
                }
                assert(self.queue(n) =~= oldq.push(pv));
                assert forall|k: LocalIdx, i: int|
                    self.pending().dom().contains(k) && 0 <= i < self.queue(k).len() implies ((
                #[trigger] self.queue(k)[i]) is VtMessage && self.queue(k)[i].spec_link().dst == k
                    && self.queue(k)[i].spec_link() == self.queue(k)[0].spec_link()) by {
                    if k != n {
                        assert(self.queue(k) == old(self).queue(k));
                    } else {
                        if i < oldq.len() {
                            assert(self.queue(n)[i] == oldq[i]);
                        }
                        assert(self.queue(n)[0] == if oldq.len() > 0 {
                            oldq[0]
                        } else {
                            pv
                        });
                    }
                }
            }
            None
        }
    }

    /// Flush the first destination, in wait order, whose oldest pending
    /// packet has waited out the flush timeout. At most one destination is
    /// flushed per call; the caller loops while packets keep being returned.
    pub fn flush_if_necessary(
        &mut self,
        nodes: &DomainNodes,
        transaction_state: &mut DomainState,
        now: u64,
    ) -> (r: Option<FlushOutput>)
        requires
            old(self).wf(),
            forall|i: int|
                0 <= i < old(self).wait_keys().len() ==> ((#[trigger] old(self).wait_keys()[i])
                    < nodes.node_seq().len() && nodes.node_seq()[old(self).wait_keys()[i] as int]
                    .spec_index() is Some),
            old(transaction_state).wf(),
            old(transaction_state).spec_clock() < u64::MAX,
        ensures
            final(self).wf(),
            final(transaction_state).wf(),
            GroupCommitQueueSet::same_config(*final(self), *old(self)),
            (exists|i: int|
                0 <= i < old(self).wait_keys().len() && is_due(
                    old(self).waits()[old(self).wait_keys()[i]],
                    old(self).spec_timeout(),
                    now,
                )) <==> r is Some,
            r is None ==> *final(self) == *old(self) && *final(transaction_state) == *old(
                transaction_state,
            ),
            r matches Some(fo) ==> exists|i: int|
                {
                    &&& 0 <= i < old(self).wait_keys().len()
                    &&& fo.node == old(self).wait_keys()[i]
                    &&& is_due(
                        old(self).waits()[old(self).wait_keys()[i]],
                        old(self).spec_timeout(),
                        now,
                    )
                    &&& forall|j: int|
                        0 <= j < i ==> !is_due(
                            old(self).waits()[#[trigger] old(self).wait_keys()[j]],
                            old(self).spec_timeout(),
                            now,
                        )
                },
            r matches Some(fo) ==> {
                &&& flush_output_ok(
                    fo,
                    old(self).queue(fo.node),
                    fo.node,
                    *nodes,
                    *old(transaction_state),
                    old(self).spec_mode(),
                )
                &&& (forall|k: LocalIdx|
                    final(self).pending().dom().contains(k) == old(
                        self,
                    ).pending().dom().contains(k))
                &&& final(self).queue(fo.node).len() == 0
                &&& (forall|k: LocalIdx|
                    k != fo.node ==> #[trigger] final(self).queue(k) == old(self).queue(k))
                &&& final(self).waits() == old(self).waits().remove(fo.node)
                &&& ts_advanced(
                    *old(transaction_state),
                    *final(transaction_state),
                    nodes.node_seq()[fo.node as int].spec_global_addr(),
                )
            },
    {
        let mut found: Option<LocalIdx> = None;
        let mut i: usize = 0;
        while i < self.wait_start.len() && found.is_none()
            invariant
                *self == *old(self),
                self.wf(),
                0 <= i <= self.wait_keys().len(),
                match found {
                    Some(n) => i < self.wait_keys().len() && n == self.wait_keys()[i as int]
                        && is_due(self.waits()[n], self.spec_timeout(), now) && forall|j: int|
                        0 <= j < i ==> !is_due(
                            self.waits()[#[trigger] self.wait_keys()[j]],
                            self.spec_timeout(),
                            now,
                        ),
                    None => forall|j: int|
                        0 <= j < i ==> !is_due(
                            self.waits()[#[trigger] self.wait_keys()[j]],
                            self.spec_timeout(),
                            now,
                        ),
                },
            decreases
                    self.wait_keys().len() - i,
                    (if found is None {
                        1int
                    } else {
                        0int
                    }),
        {
            let k = self.wait_start.key_at(i);
            let ws = *self.wait_start.val_at(i);
            let elapsed: u64 = if now >= ws {
                now - ws
            } else {
                0
            };
            if elapsed >= self.params.flush_timeout {
                found = Some(k);
            } else {
                i = i + 1;
            }
        }
        match found {
            Some(n) => {
                proof {
                    assert(self.waits().dom().contains(n));
                    assert(self.pending().dom().contains(n) && self.queue(n).len() > 0);
                }
                Some(self.flush_internal(n, nodes, transaction_state))
            },
            None => {
                proof {
                    assert forall|j: int| 0 <= j < old(self).wait_keys().len() implies !is_due(
                        old(self).waits()[#[trigger] old(self).wait_keys()[j]],
                        old(self).spec_timeout(),
                        now,
                    ) by {}
                }
                None
            },
        }
    }

    /// How long until some destination is due for a flush: the smallest
    /// remaining wait, zero if one is already due, nothing while no queue has
    /// anything pending.
    pub fn duration_until_flush(&self, now: u64) -> (r: Option<u64>)
        requires
            self.wf(),
        ensures
            r is Some <==> self.wait_keys().len() > 0,
            r matches Some(v) ==> {
                &&& exists|i: int|
                    0 <= i < self.wait_keys().len() && v == remaining(
                        self.waits()[#[trigger] self.wait_keys()[i]],
                        self.spec_timeout(),
                        now,
                    )
                &&& forall|i: int|
                    0 <= i < self.wait_keys().len() ==> v <= remaining(
                        self.waits()[#[trigger] self.wait_keys()[i]],
                        self.spec_timeout(),
                        now,
                    )
            },
    {
        let mut best: Option<u64> = None;
        let mut i: usize = 0;
        while i < self.wait_start.len()
            invariant
                self.wf(),
                0 <= i <= self.wait_keys().len(),
                match best {
                    Some(v) => {
                        &&& exists|j: int|
                            0 <= j < i && v == remaining(
                                self.waits()[#[trigger] self.wait_keys()[j]],
                                self.spec_timeout(),
                                now,
                            )
                        &&& forall|j: int|
                            0 <= j < i ==> v <= remaining(
                                self.waits()[#[trigger] self.wait_keys()[j]],
                                self.spec_timeout(),
                                now,
                            )
                    },
                    None => i == 0,
                },
            decreases self.wait_keys().len() - i,
        {
            let ws = *self.wait_start.val_at(i);
            let elapsed: u64 = if now >= ws {
                now - ws
            } else {
                0
            };
            let rem: u64 = if elapsed >= self.params.flush_timeout {
                0
            } else {
                self.params.flush_timeout - elapsed
            };
            best = match best {
                Some(v) => if rem < v {
                    Some(rem)
                } else {
                    Some(v)
                },
                None => Some(rem),
            };
            i = i + 1;
        }
        best
    }

    /// Whether `append` can take this packet as the queues stand: it must be
    /// a write to a known internal base node and keep its queue's link.
    pub open spec fn append_ready(self, p: PacketV, nodes: DomainNodes) -> bool {
        &&& Self::spec_should_append(p, nodes)
        &&& nodes.node_seq()[p.spec_link().dst as int].spec_index() is Some
        &&& (self.queue(p.spec_link().dst).len() > 0 ==> p.spec_link() == self.queue(
            p.spec_link().dst,
        )[0].spec_link())
    }

    /// `append`, with its preconditions checked at run time: a packet that is
    /// not a base-node write, or whose destination is unknown, or that mixes
    /// links within one queue, is reported as an invariant violation and
    /// nothing changes.
    pub fn try_append(
        &mut self,
        p: Packet,
        nodes: &DomainNodes,
        transaction_state: &mut DomainState,
        now: u64,
    ) -> (r: Result<Option<FlushOutput>, DomainError>)
        requires
            old(self).wf(),
            old(transaction_state).wf(),
            old(transaction_state).spec_clock() < u64::MAX,
        ensures
            final(self).wf(),
            final(transaction_state).wf(),
            GroupCommitQueueSet::same_config(*final(self), *old(self)),
            match r {
                Ok(out) => old(self).append_ready(p@, *nodes) && Self::append_post(
                    *old(self),
                    *final(self),
                    *old(transaction_state),
                    *final(transaction_state),
                    *nodes,
                    p@,
                    now,
                    out,
                ),
                Err(DomainError::InvariantViolation) => !old(self).append_ready(p@, *nodes)
                    && *final(self) == *old(self) && *final(transaction_state) == *old(
                    transaction_state,
                ),
                Err(_) => false,
            },
    {
        let n = match Self::packet_destination(&p) {
            Some(n) => n,
            None => {
                return Err(DomainError::InvariantViolation);
            },
        };
        let nlen = nodes.len();
        if !(n < nlen as u64) {
            return Err(DomainError::InvariantViolation);
        }
        let dst = nodes.node(n);
        if !(dst.is_internal() && dst.get_base().is_some()) {
            return Err(DomainError::InvariantViolation);
        }
        if !dst.has_index() {
            return Err(DomainError::InvariantViolation);
        }
        let link_ok = match self.pending_packets.get(n) {
            Some(q) => if q.len() > 0 {
                let l0 = q[0].link();
                let lp = p.link();
                proof {
                    assert(old(self).queue(n)[0] == q@[0]@);
                }
                l0.src == lp.src && l0.dst == lp.dst
            } else {
                true
            },
            None => true,
        };
        if !link_ok {
            return Err(DomainError::InvariantViolation);
        }
        Ok(self.append(p, nodes, transaction_state, now))
    }

    /// Timeout bound: when no wait is due at `now` — exactly the states in
    /// which `flush_if_necessary` returns nothing — every destination with
    /// packets pending started waiting less than the flush timeout before
    /// `now`. A driver that keeps calling `flush_if_necessary` every `e` time
    /// units therefore never lets a record sit longer than the timeout plus
    /// `e`.
    pub proof fn lemma_timeout_bound(q: GroupCommitQueueSet, now: u64)
        requires
            q.wf(),
            forall|i: int|
                0 <= i < q.wait_keys().len() ==> !is_due(
                    q.waits()[#[trigger] q.wait_keys()[i]],
                    q.spec_timeout(),
                    now,
                ),
        ensures
            forall|k: LocalIdx|
                q.pending().dom().contains(k) && #[trigger] q.queue(k).len() > 0 ==> (
                q.waits().dom().contains(k) && (if now >= q.waits()[k] {
                    now - q.waits()[k]
                } else {
                    0
                }) < q.spec_timeout()),
    {
        assert forall|k: LocalIdx|
            q.pending().dom().contains(k) && #[trigger] q.queue(k).len() > 0 implies (
        q.waits().dom().contains(k) && (if now >= q.waits()[k] {
            now - q.waits()[k]
        } else {
            0
        }) < q.spec_timeout()) by {
            assert(q.waits().dom().contains(k));
            assert(q.wait_tab().key_seq().contains(k));
            let i = choose|i: int|
                0 <= i < q.wait_keys().len() && q.wait_keys()[i] == k;
            assert(!is_due(q.waits()[q.wait_keys()[i]], q.spec_timeout(), now));
        }
    }

    /// Capacity bound: in a well-formed queue set no destination's pending
    /// queue ever holds as many packets as the configured capacity — reaching
    /// it triggers an immediate flush inside `append`.
    pub proof fn lemma_capacity_bound(q: GroupCommitQueueSet)
        requires
            q.wf(),
        ensures
            forall|k: LocalIdx|
                q.pending().dom().contains(k) ==> #[trigger] q.queue(k).len() < q.spec_capacity(),
    {
    }
}

} // verus!
