use vstd::prelude::*;
use crate::idmap::{IdMap, IndexSet};
use crate::packet::{DomainError, LocalIdx, NodeIdx, Packet, PacketId, PacketV};

verus! {

/// A stateful source operator; writes to it must be made durable.
#[derive(Clone, Copy, PartialEq, Eq, Structural, Debug)]
pub struct Base {}

/// A union operator; the only internal operator the routing core ever asks
/// a question of (whether it merges shards).
#[derive(Clone, Copy, PartialEq, Eq, Structural, Debug)]
pub struct Union {
    pub shard_merger: bool,
}

/// An operator that partitions its input across shards.
#[derive(Clone, Copy, PartialEq, Eq, Structural, Debug)]
pub struct Sharder {}

/// A node whose state is readable from outside the dataflow.
#[derive(Clone, Copy, PartialEq, Eq, Structural, Debug)]
pub struct Reader {}

/// The processor of an egress node, which forwards packets to other domains.
#[derive(Clone, Copy, PartialEq, Eq, Structural, Debug)]
pub struct Egress {}

/// The operator carried by an internal node. Operator algebra is outside the
/// packet plane; the routing core only distinguishes the kinds it must tell apart.
#[derive(Clone, Copy, PartialEq, Eq, Structural, Debug)]
pub enum NodeOperator {
    Base(Base),
    Union(Union),
    Other,
}

/// What a node is.
#[derive(Clone, Copy, PartialEq, Eq, Structural, Debug)]
pub enum NodeType {
    /// The root of the graph.
    Source,
    /// Receives packets from other domains.
    Ingress,
    /// Runs an operator.
    Internal(NodeOperator),
    /// Forwards packets to other domains; the processor is present once the
    /// node is materialized into its domain.
    Egress(Option<Egress>),
    Sharder(Sharder),
    Reader(Reader),
    /// Removed from the graph.
    Dropped,
}

/// How a node's input is partitioned.
#[derive(Clone, Copy, PartialEq, Eq, Structural, Debug)]
pub enum Sharding {
    Unsharded,
    ForcedNone,
    Random(u64),
    ByColumn(u64, u64),
}

/// Which half of a replicated operator pair a node is.
#[derive(Clone, Copy, PartialEq, Eq, Structural, Debug)]
pub enum ReplicaType {
    Top,
    Bottom,
}

/// A node's graph-global index paired with its domain-local index, the latter
/// assigned when the node is placed into a domain.
#[derive(Clone, Copy, PartialEq, Eq, Structural, Debug)]
pub struct IndexPair {
    pub global: NodeIdx,
    pub local: Option<LocalIdx>,
}

impl IndexPair {
    pub open spec fn spec_has_local(self) -> bool {
        self.local is Some
    }

    pub fn global_only(global: NodeIdx) -> (r: IndexPair)
        ensures
            r.global == global,
            r.local is None,
    {
        IndexPair { global, local: None }
    }

    pub fn with_local(global: NodeIdx, local: LocalIdx) -> (r: IndexPair)
        ensures
            r.global == global,
            r.local == Some(local),
    {
        IndexPair { global, local: Some(local) }
    }

    pub fn as_global(&self) -> (r: NodeIdx)
        ensures
            r == self.global,
    {
        self.global
    }

    pub fn has_local(&self) -> (r: bool)
        ensures
            r == self.spec_has_local(),
    {
        self.local.is_some()
    }
}

/// One record of the egress processor's output: a packet handed to the
/// transport, the shard it was processed on, and the nodes it was addressed
/// to.
pub struct Emission {
    pub shard: u64,
    pub to: IndexSet,
    pub packet: Packet,
}

/// The mathematical value of an emission.
#[verifier::ext_equal]
pub struct EmissionV {
    pub shard: u64,
    pub to: Set<NodeIdx>,
    pub packet: PacketV,
}

impl View for Emission {
    type V = EmissionV;

    open spec fn view(&self) -> EmissionV {
        EmissionV { shard: self.shard, to: self.to.as_set(), packet: self.packet@ }
    }
}

/// The sink an egress processor writes to. It journals every processed packet
/// in order; the transport outside this library drains it.
pub struct EgressOutput {
    journal: Vec<Emission>,
}

impl EgressOutput {
    /// Everything processed so far, oldest first.
    pub closed spec fn log(self) -> Seq<EmissionV> {
        self.journal@.map_values(|e: Emission| e@)
    }

    pub fn new() -> (r: EgressOutput)
        ensures
            r.log() == Seq::<EmissionV>::empty(),
    {
        let r = EgressOutput { journal: Vec::new() };
        proof {
            assert(r.log() =~= Seq::<EmissionV>::empty());
        }
        r
    }

    pub fn len(&self) -> (r: usize)
        ensures
            r == self.log().len(),
    {
        self.journal.len()
    }

    pub fn emission_at(&self, i: usize) -> (r: &Emission)
        requires
            i < self.log().len(),
        ensures
            r@ == self.log()[i as int],
    {
        &self.journal[i]
    }
}

impl Egress {
    /// Process one packet: record it on the output sink for the transport,
    /// addressed to `to`, on shard `on_shard`.
    pub fn process(&self, m: Packet, on_shard: u64, output: &mut EgressOutput, to: &IndexSet)
        ensures
            final(output).log() == old(output).log().push(
                EmissionV { shard: on_shard, to: to.as_set(), packet: m@ },
            ),
    {
        let e = Emission { shard: on_shard, to: to.duplicate(), packet: m };
        output.journal.push(e);
        proof {
            assert(output.log() =~= old(output).log().push(
                EmissionV { shard: on_shard, to: to.as_set(), packet: m@ },
            ));
        }
    }
}

/// A node of the dataflow graph, carrying its identity, its place in the
/// graph, and the per-node packet-routing state: the highest label received
/// from each parent, the next label to send to each child (absent while the
/// child awaits a resume), and the ordered buffer of outgoing packets.
pub struct Node {
    name: String,
    index: Option<IndexPair>,
    domain: Option<u64>,

    fields: Vec<String>,
    children: Vec<LocalIdx>,
    inner: NodeType,
    taken: bool,

    sharded_by: Sharding,
    replica: Option<ReplicaType>,

    last_packet_received: IdMap<u64>,
    next_packet_to_send: IdMap<u64>,
    buf_packets: Vec<Packet>,
    buf_to: Vec<IndexSet>,
}

/// The mathematical value of one outgoing-buffer entry: the packet recorded
/// under its label, and the destinations registered for it so far.
#[verifier::ext_equal]
pub struct BufEntryV {
    pub packet: PacketV,
    pub to: Set<NodeIdx>,
}

impl Node {
    pub closed spec fn spec_name(self) -> Seq<char> {
        self.name@
    }

    pub closed spec fn spec_index(self) -> Option<IndexPair> {
        self.index
    }

    pub closed spec fn spec_domain(self) -> Option<u64> {
        self.domain
    }

    pub closed spec fn spec_fields(self) -> Seq<Seq<char>> {
        self.fields@.map_values(|s: String| s@)
    }

    pub closed spec fn spec_children(self) -> Seq<LocalIdx> {
        self.children@
    }

    pub closed spec fn spec_inner(self) -> NodeType {
        self.inner
    }

    pub closed spec fn spec_taken(self) -> bool {
        self.taken
    }

    pub closed spec fn spec_sharding(self) -> Sharding {
        self.sharded_by
    }

    pub closed spec fn spec_replica(self) -> Option<ReplicaType> {
        self.replica
    }

    /// The highest label received from each parent.
    pub closed spec fn received(self) -> Map<NodeIdx, u64> {
        self.last_packet_received.as_map()
    }

    /// The next label to send to each child; a child absent from this map is
    /// paused, awaiting a resume.
    pub closed spec fn to_send(self) -> Map<NodeIdx, u64> {
        self.next_packet_to_send.as_map()
    }

    /// The outgoing buffer, entry `i` holding the packet with label `i + 1`.
    pub closed spec fn buf(self) -> Seq<BufEntryV> {
        Seq::new(
            self.buf_packets@.len(),
            |i: int| BufEntryV { packet: self.buf_packets@[i]@, to: self.buf_to@[i].as_set() },
        )
    }

    /// The highest label received from `s`, zero if none yet.
    pub open spec fn last_received(self, s: NodeIdx) -> u64 {
        if self.received().dom().contains(s) {
            self.received()[s]
        } else {
            0
        }
    }

    pub open spec fn spec_global_addr(self) -> NodeIdx {
        self.spec_index()->Some_0.global
    }

    pub open spec fn spec_local_addr(self) -> LocalIdx {
        self.spec_index()->Some_0.local->Some_0
    }

    pub open spec fn spec_is_base(self) -> bool {
        self.spec_inner() matches NodeType::Internal(NodeOperator::Base(_))
    }

    /// Well-formed routing state:
    /// - buffer labels are exactly 1, 2, 3, … and every buffered packet names
    ///   this node as its sender;
    /// - every active child's next label lies in `[1, |buffer| + 1]`;
    /// - no buffer entry at or past an active child's next label lists that
    ///   child (those labels were skipped for it).
    pub open spec fn wf(self) -> bool {
        &&& self.last_packet_received_wf()
        &&& self.next_packet_to_send_wf()
        &&& self.buf_wf()
    }

    pub closed spec fn last_packet_received_wf(self) -> bool {
        self.last_packet_received.wf()
    }

    pub closed spec fn next_packet_to_send_wf(self) -> bool {
        &&& self.next_packet_to_send.wf()
        &&& forall|d: NodeIdx| self.to_send().dom().contains(d) ==> 1 <= #[trigger] self.to_send()[d]
            <= self.buf().len() + 1
        &&& forall|d: NodeIdx, j: int|
            self.to_send().dom().contains(d) && 0 <= j < self.buf().len() && self.to_send()[d] <= j
                + 1 ==> !(#[trigger] self.buf()[j].to.contains(d))
    }

    pub closed spec fn buf_wf(self) -> bool {
        &&& self.buf_packets@.len() == self.buf_to@.len()
        &&& self.buf().len() > 0 ==> self.spec_index() is Some
        &&& forall|i: int| 0 <= i < self.buf().len() ==> (#[trigger] self.buf()[i].packet.has_id()
            && self.buf()[i].packet.spec_id().label == i + 1
            && self.buf()[i].packet.spec_id().from == self.spec_global_addr())
        &&& forall|i: int| 0 <= i < self.buf().len() ==> (#[trigger] self.buf_to@[i]).wf()
    }

    /// Everything except the routing state and the children list.
    pub open spec fn same_shell(a: Node, b: Node) -> bool {
        &&& a.spec_name() == b.spec_name()
        &&& a.spec_index() == b.spec_index()
        &&& a.spec_domain() == b.spec_domain()
        &&& a.spec_fields() == b.spec_fields()
        &&& a.spec_inner() == b.spec_inner()
        &&& a.spec_taken() == b.spec_taken()
        &&& a.spec_sharding() == b.spec_sharding()
        &&& a.spec_replica() == b.spec_replica()
    }

    /// The routing state and the children list.
    pub open spec fn same_routing(a: Node, b: Node) -> bool {
        &&& a.spec_children() == b.spec_children()
        &&& a.received() == b.received()
        &&& a.to_send() == b.to_send()
        &&& a.buf() == b.buf()
    }
}

// constructors
impl Node {
    pub fn new(name: String, fields: Vec<String>, inner: NodeType) -> (r: Node)
        ensures
            r.wf(),
            r.spec_name() == name@,
            r.spec_index() is None,
            r.spec_domain() is None,
            r.spec_fields() == fields@.map_values(|s: String| s@),
            r.spec_children() == Seq::<LocalIdx>::empty(),
            r.spec_inner() == inner,
            !r.spec_taken(),
            r.spec_sharding() == Sharding::Unsharded,
            r.spec_replica() is None,
            r.received() == Map::<NodeIdx, u64>::empty(),
            r.to_send() == Map::<NodeIdx, u64>::empty(),
            r.buf() == Seq::<BufEntryV>::empty(),
    {
        let r = Node {
            name,
            index: None,
            domain: None,
            fields,
            children: Vec::new(),
            inner,
            taken: false,
            sharded_by: Sharding::Unsharded,
            replica: None,
            last_packet_received: IdMap::new(),
            next_packet_to_send: IdMap::new(),
            buf_packets: Vec::new(),
            buf_to: Vec::new(),
        };
        proof {
            assert(r.buf() =~= Seq::<BufEntryV>::empty());
        }
        r
    }

    fn new_with_replica(
        name: String,
        fields: Vec<String>,
        inner: NodeType,
        replica: &Option<ReplicaType>,
    ) -> (r: Node)
        ensures
            r.wf(),
            r.spec_name() == name@,
            r.spec_index() is None,
            r.spec_domain() is None,
            r.spec_fields() == fields@.map_values(|s: String| s@),
            r.spec_children() == Seq::<LocalIdx>::empty(),
            r.spec_inner() == inner,
            !r.spec_taken(),
            r.spec_sharding() == Sharding::Unsharded,
            r.spec_replica() == *replica,
            r.received() == Map::<NodeIdx, u64>::empty(),
            r.to_send() == Map::<NodeIdx, u64>::empty(),
            r.buf() == Seq::<BufEntryV>::empty(),
    {
        let mut n = Self::new(name, fields, inner);
        n.replica = *replica;
        n
    }

    /// A fresh node with this node's name, columns and replica kind, running
    /// `inner`, with empty routing state.
    pub fn mirror(&self, inner: NodeType) -> (r: Node)
        ensures
            r.wf(),
            r.spec_name() == self.spec_name(),
            r.spec_fields() == self.spec_fields(),
            r.spec_replica() == self.spec_replica(),
            r.spec_inner() == inner,
            r.spec_index() is None,
            r.spec_domain() is None,
            r.spec_children() == Seq::<LocalIdx>::empty(),
            !r.spec_taken(),
            r.spec_sharding() == Sharding::Unsharded,
            r.received() == Map::<NodeIdx, u64>::empty(),
            r.to_send() == Map::<NodeIdx, u64>::empty(),
            r.buf() == Seq::<BufEntryV>::empty(),
    {
        Self::new_with_replica(
            clone_string(&self.name),
            clone_string_vec(&self.fields),
            inner,
            &self.replica,
        )
    }

    /// Like `mirror`, with a name of its own.
    pub fn named_mirror(&self, inner: NodeType, name: String) -> (r: Node)
        ensures
            r.wf(),
            r.spec_name() == name@,
            r.spec_fields() == self.spec_fields(),
            r.spec_replica() == self.spec_replica(),
            r.spec_inner() == inner,
            r.spec_index() is None,
            r.spec_domain() is None,
            r.spec_children() == Seq::<LocalIdx>::empty(),
            !r.spec_taken(),
            r.spec_sharding() == Sharding::Unsharded,
            r.received() == Map::<NodeIdx, u64>::empty(),
            r.to_send() == Map::<NodeIdx, u64>::empty(),
            r.buf() == Seq::<BufEntryV>::empty(),
    {
        Self::new_with_replica(name, clone_string_vec(&self.fields), inner, &self.replica)
    }
}

/// A node taken out of the construction-time graph, not yet wired into its
/// domain; `finalize` resolves its children against the graph.
pub struct DanglingDomainNode(Node);

impl DanglingDomainNode {
    pub closed spec fn node(self) -> Node {
        self.0
    }
}

// events
impl Node {
    /// Move this node into its domain: hand out a fresh copy that keeps the
    /// identity, place and operator, with empty routing state, and mark this
    /// one taken.
    pub fn take(&mut self) -> (r: DanglingDomainNode)
        requires
            !old(self).spec_taken(),
            (!(old(self).spec_inner() is Internal)) || old(self).spec_domain() is Some,
        ensures
            final(self).spec_taken(),
            final(self).spec_name() == old(self).spec_name(),
            final(self).spec_index() == old(self).spec_index(),
            final(self).spec_domain() == old(self).spec_domain(),
            final(self).spec_fields() == old(self).spec_fields(),
            final(self).spec_inner() == old(self).spec_inner(),
            final(self).spec_sharding() == old(self).spec_sharding(),
            final(self).spec_replica() == old(self).spec_replica(),
            Node::same_routing(*final(self), *old(self)),
            r.node().wf(),
            r.node().spec_name() == old(self).spec_name(),
            r.node().spec_fields() == old(self).spec_fields(),
            r.node().spec_replica() == old(self).spec_replica(),
            r.node().spec_inner() == old(self).spec_inner(),
            r.node().spec_index() == old(self).spec_index(),
            r.node().spec_domain() == old(self).spec_domain(),
            r.node().spec_children() == Seq::<LocalIdx>::empty(),
            !r.node().spec_taken(),
            r.node().received() == Map::<NodeIdx, u64>::empty(),
            r.node().to_send() == Map::<NodeIdx, u64>::empty(),
            r.node().buf() == Seq::<BufEntryV>::empty(),
    {
        let inner = self.inner;
        let mut n = self.mirror(inner);
        n.index = self.index;
        n.domain = self.domain;
        self.taken = true;
        DanglingDomainNode(n)
    }

    /// Drop this node from the graph.
    pub fn remove(&mut self)
        ensures
            final(self).spec_inner() == NodeType::Dropped,
            final(self).spec_name() == old(self).spec_name(),
            final(self).spec_index() == old(self).spec_index(),
            final(self).spec_domain() == old(self).spec_domain(),
            final(self).spec_fields() == old(self).spec_fields(),
            final(self).spec_taken() == old(self).spec_taken(),
            final(self).spec_sharding() == old(self).spec_sharding(),
            final(self).spec_replica() == old(self).spec_replica(),
            Node::same_routing(*final(self), *old(self)),
    {
        self.inner = NodeType::Dropped;
    }

    /// Set this node's sharding property.
    pub fn shard_by(&mut self, s: Sharding)
        ensures
            final(self).spec_sharding() == s,
            final(self).spec_name() == old(self).spec_name(),
            final(self).spec_index() == old(self).spec_index(),
            final(self).spec_domain() == old(self).spec_domain(),
            final(self).spec_fields() == old(self).spec_fields(),
            final(self).spec_inner() == old(self).spec_inner(),
            final(self).spec_taken() == old(self).spec_taken(),
            final(self).spec_replica() == old(self).spec_replica(),
            Node::same_routing(*final(self), *old(self)),
    {
        self.sharded_by = s;
    }
}

// operator access
impl Node {
    /// Hand the sharder of this node to `f`, if it is a sharder.
    pub fn with_sharder<'a, F, R>(&'a self, f: F) -> (r: Option<R>) where
        F: FnOnce(&'a Sharder) -> R,

        requires
            forall|s: &Sharder| #[trigger] call_requires(f, (s,)),
        ensures
            r is Some <==> self.spec_inner() is Sharder,
            r matches Some(y) ==> (self.spec_inner() matches NodeType::Sharder(s)
                && call_ensures(f, (&s,), y)),
    {
        match &self.inner {
            NodeType::Sharder(s) => {
                let y = f(s);
                proof {
                    assert(self.spec_inner() == NodeType::Sharder(*s) && call_ensures(
                        f,
                        (s,),
                        y,
                    ));
                }
                Some(y)
            },
            _ => None,
        }
    }

    /// Hand the reader of this node to `f`, if it is a reader.
    pub fn with_reader<'a, F, R>(&'a self, f: F) -> (r: Result<R, ()>) where
        F: FnOnce(&'a Reader) -> R,

        requires
            forall|s: &Reader| #[trigger] call_requires(f, (s,)),
        ensures
            r is Ok <==> self.spec_inner() is Reader,
            r matches Ok(y) ==> (self.spec_inner() matches NodeType::Reader(s)
                && call_ensures(f, (&s,), y)),
    {
        match &self.inner {
            NodeType::Reader(s) => {
                let y = f(s);
                proof {
                    assert(self.spec_inner() == NodeType::Reader(*s) && call_ensures(f, (s,), y));
                }
                Ok(y)
            },
            _ => Err(()),
        }
    }
}

// graph commitment
impl Node {
    /// Re-point the operator's node references after the graph is committed
    /// under `remap`. The operators of this model carry no node references,
    /// so there is nothing to rewrite; a node already taken must not be
    /// committed again.
    #[allow(unused_variables)]
    pub fn on_commit(&mut self, remap: &IdMap<IndexPair>)
        requires
            !old(self).spec_taken(),
            old(self).spec_inner() is Internal ==> old(self).spec_index() is Some,
        ensures
            *final(self) == *old(self),
    {
    }
}

// children
impl Node {
    pub fn children(&self) -> (r: &Vec<LocalIdx>)
        ensures
            r@ == self.spec_children(),
    {
        &self.children
    }

    pub fn child(&self, i: usize) -> (r: LocalIdx)
        requires
            i < self.spec_children().len(),
        ensures
            r == self.spec_children()[i as int],
    {
        self.children[i]
    }

    pub fn has_children(&self) -> (r: bool)
        ensures
            r == (self.spec_children().len() > 0),
    {
        self.children.len() > 0
    }

    pub fn nchildren(&self) -> (r: usize)
        ensures
            r == self.spec_children().len(),
    {
        self.children.len()
    }
}

// attributes
impl Node {
    pub fn sharded_by(&self) -> (r: Sharding)
        ensures
            r == self.spec_sharding(),
    {
        self.sharded_by
    }

    pub fn add_child(&mut self, child: LocalIdx)
        ensures
            final(self).spec_children() == old(self).spec_children().push(child),
            Node::same_shell(*final(self), *old(self)),
            final(self).received() == old(self).received(),
            final(self).to_send() == old(self).to_send(),
            final(self).buf() == old(self).buf(),
    {
        self.children.push(child);
        proof {
            assert(self.buf() =~= old(self).buf());
        }
    }

    /// Remove one occurrence of `child`, swapping the last entry into its
    /// place; the order of the children list carries no meaning.
    pub fn try_remove_child(&mut self, child: LocalIdx) -> (r: bool)
        ensures
            r == old(self).spec_children().contains(child),
            r ==> exists|i: int|
                0 <= i < old(self).spec_children().len() && old(self).spec_children()[i] == child
                    && final(self).spec_children() == old(self).spec_children().update(
                    i,
                    old(self).spec_children().last(),
                ).drop_last(),
            !r ==> final(self).spec_children() == old(self).spec_children(),
            Node::same_shell(*final(self), *old(self)),
            final(self).received() == old(self).received(),
            final(self).to_send() == old(self).to_send(),
            final(self).buf() == old(self).buf(),
    {
        let mut i: usize = 0;
        while i < self.children.len()
            invariant
                0 <= i <= self.spec_children().len(),
                forall|j: int| 0 <= j < i ==> self.spec_children()[j] != child,
                *self == *old(self),
            decreases self.spec_children().len() - i,
        {
            if self.children[i] == child {
                self.children.swap_remove(i);
                proof {
                    assert(self.buf() =~= old(self).buf());
                }
                return true;
            }
            i = i + 1;
        }
        false
    }

    /// Add a column, returning its position.
    pub fn add_column(&mut self, field: &str) -> (r: usize)
        ensures
            final(self).spec_fields() == old(self).spec_fields().push(field@),
            r == old(self).spec_fields().len(),
            final(self).spec_name() == old(self).spec_name(),
            final(self).spec_index() == old(self).spec_index(),
            final(self).spec_domain() == old(self).spec_domain(),
            final(self).spec_inner() == old(self).spec_inner(),
            final(self).spec_taken() == old(self).spec_taken(),
            final(self).spec_sharding() == old(self).spec_sharding(),
            final(self).spec_replica() == old(self).spec_replica(),
            Node::same_routing(*final(self), *old(self)),
    {
        let r = self.fields.len();
        self.fields.push(field.to_owned());
        proof {
            assert(self.spec_fields() =~= old(self).spec_fields().push(field@));
            assert(self.buf() =~= old(self).buf());
        }
        r
    }

    pub fn name(&self) -> (r: &str)
        ensures
            r@ == self.spec_name(),
    {
        self.name.as_str()
    }

    pub fn fields(&self) -> (r: &Vec<String>)
        ensures
            r@.map_values(|s: String| s@) == self.spec_fields(),
    {
        &self.fields
    }

    pub fn has_domain(&self) -> (r: bool)
        ensures
            r == (self.spec_domain() is Some),
    {
        self.domain.is_some()
    }

    /// The domain this node was assigned to.
    pub fn domain(&self) -> (r: u64)
        requires
            self.spec_domain() is Some,
        ensures
            Some(r) == self.spec_domain(),
    {
        match self.domain {
            Some(d) => d,
            None => unreached(),
        }
    }

    /// This node's index within its domain.
    pub fn local_addr(&self) -> (r: LocalIdx)
        requires
            self.spec_index() matches Some(ix) && ix.spec_has_local(),
        ensures
            r == self.spec_local_addr(),
    {
        match &self.index {
            Some(ix) => match ix.local {
                Some(l) => l,
                None => unreached(),
            },
            None => unreached(),
        }
    }

    /// This node's graph-global index.
    pub fn global_addr(&self) -> (r: NodeIdx)
        requires
            self.spec_index() is Some,
        ensures
            r == self.spec_global_addr(),
    {
        match &self.index {
            Some(ix) => ix.global,
            None => unreached(),
        }
    }

    pub fn has_index(&self) -> (r: bool)
        ensures
            r == (self.spec_index() is Some),
    {
        self.index.is_some()
    }

    pub fn get_index(&self) -> (r: &IndexPair)
        requires
            self.spec_index() is Some,
        ensures
            Some(*r) == self.spec_index(),
    {
        match &self.index {
            Some(ix) => ix,
            None => unreached(),
        }
    }

    pub fn get_base(&self) -> (r: Option<&Base>)
        ensures
            r is Some <==> self.spec_is_base(),
    {
        match &self.inner {
            NodeType::Internal(NodeOperator::Base(b)) => Some(b),
            _ => None,
        }
    }

    pub fn is_base(&self) -> (r: bool)
        ensures
            r == self.spec_is_base(),
    {
        match &self.inner {
            NodeType::Internal(NodeOperator::Base(_)) => true,
            _ => false,
        }
    }

    pub fn is_localized(&self) -> (r: bool)
        ensures
            r == ((self.spec_index() matches Some(ix) && ix.spec_has_local())
                && self.spec_domain() is Some),
    {
        let has_local = match &self.index {
            Some(ix) => ix.has_local(),
            None => false,
        };
        has_local && self.domain.is_some()
    }

    /// Assign this node to a domain.
    pub fn add_to(&mut self, domain: u64)
        requires
            old(self).spec_domain() is None,
            !(old(self).spec_inner() is Dropped),
        ensures
            final(self).spec_domain() == Some(domain),
            final(self).spec_name() == old(self).spec_name(),
            final(self).spec_index() == old(self).spec_index(),
            final(self).spec_fields() == old(self).spec_fields(),
            final(self).spec_inner() == old(self).spec_inner(),
            final(self).spec_taken() == old(self).spec_taken(),
            final(self).spec_sharding() == old(self).spec_sharding(),
            final(self).spec_replica() == old(self).spec_replica(),
            Node::same_routing(*final(self), *old(self)),
    {
        self.domain = Some(domain);
    }

    pub fn set_finalized_addr(&mut self, addr: IndexPair)
        ensures
            final(self).spec_index() == Some(addr),
            final(self).spec_name() == old(self).spec_name(),
            final(self).spec_domain() == old(self).spec_domain(),
            final(self).spec_fields() == old(self).spec_fields(),
            final(self).spec_inner() == old(self).spec_inner(),
            final(self).spec_taken() == old(self).spec_taken(),
            final(self).spec_sharding() == old(self).spec_sharding(),
            final(self).spec_replica() == old(self).spec_replica(),
            Node::same_routing(*final(self), *old(self)),
    {
        self.index = Some(addr);
    }
}

// replication
impl Node {
    pub fn replica_type(&self) -> (r: Option<ReplicaType>)
        ensures
            r == self.spec_replica(),
    {
        self.replica
    }

    pub fn set_replica_type(&mut self, rt: ReplicaType)
        ensures
            final(self).spec_replica() == Some(rt),
            final(self).spec_name() == old(self).spec_name(),
            final(self).spec_index() == old(self).spec_index(),
            final(self).spec_domain() == old(self).spec_domain(),
            final(self).spec_fields() == old(self).spec_fields(),
            final(self).spec_inner() == old(self).spec_inner(),
            final(self).spec_taken() == old(self).spec_taken(),
            final(self).spec_sharding() == old(self).spec_sharding(),
            Node::same_routing(*final(self), *old(self)),
    {
        self.replica = Some(rt);
    }
}

// node kind predicates
impl Node {
    pub fn is_source(&self) -> (r: bool)
        ensures
            r == (self.spec_inner() is Source),
    {
        matches!(self.inner, NodeType::Source)
    }

    pub fn is_dropped(&self) -> (r: bool)
        ensures
            r == (self.spec_inner() is Dropped),
    {
        matches!(self.inner, NodeType::Dropped)
    }

    pub fn is_egress(&self) -> (r: bool)
        ensures
            r == (self.spec_inner() is Egress),
    {
        matches!(self.inner, NodeType::Egress(_))
    }

    pub fn is_sharder(&self) -> (r: bool)
        ensures
            r == (self.spec_inner() is Sharder),
    {
        matches!(self.inner, NodeType::Sharder(_))
    }

    pub fn is_reader(&self) -> (r: bool)
        ensures
            r == (self.spec_inner() is Reader),
    {
        matches!(self.inner, NodeType::Reader(_))
    }

    pub fn is_ingress(&self) -> (r: bool)
        ensures
            r == (self.spec_inner() is Ingress),
    {
        matches!(self.inner, NodeType::Ingress)
    }

    pub fn is_internal(&self) -> (r: bool)
        ensures
            r == (self.spec_inner() is Internal),
    {
        matches!(self.inner, NodeType::Internal(_))
    }

    pub fn is_sender(&self) -> (r: bool)
        ensures
            r == (self.spec_inner() is Egress || self.spec_inner() is Sharder),
    {
        matches!(self.inner, NodeType::Egress(_) | NodeType::Sharder(_))
    }

    pub fn is_shard_merger(&self) -> (r: bool)
        ensures
            r == (self.spec_inner() matches NodeType::Internal(NodeOperator::Union(u))
                && u.shard_merger),
    {
        match &self.inner {
            NodeType::Internal(NodeOperator::Union(u)) => u.shard_merger,
            _ => false,
        }
    }

    /// Whether changes to this node's state are visible outside its domain.
    pub fn is_output(&self) -> (r: bool)
        ensures
            r == (self.spec_inner() is Egress || self.spec_inner() is Reader || self.spec_inner()
                is Sharder),
    {
        matches!(self.inner, NodeType::Egress(_) | NodeType::Reader(_) | NodeType::Sharder(_))
    }
}

// packet routing
impl Node {
    /// Record a packet received from a parent, checking the label discipline:
    /// client `Input` packets are ignored; a data packet's label must be above
    /// the last one recorded from the same parent (gaps are allowed). On a
    /// stale label nothing changes and the ordering violation is reported; a
    /// variant that carries no id is rejected outright.
    pub fn try_receive_packet(&mut self, m: &Packet) -> (r: Result<(), DomainError>)
        requires
            old(self).wf(),
        ensures
            final(self).wf(),
            Node::same_shell(*final(self), *old(self)),
            final(self).spec_children() == old(self).spec_children(),
            final(self).to_send() == old(self).to_send(),
            final(self).buf() == old(self).buf(),
            match r {
                Ok(()) => {
                    ||| (m@ is Input && final(self).received() == old(self).received())
                    ||| (m@.has_id() && m@.spec_id().label > old(self).last_received(
                        m@.spec_id().from,
                    ) && final(self).received() == old(self).received().insert(
                        m@.spec_id().from,
                        m@.spec_id().label,
                    ))
                },
                Err(DomainError::OrderingViolation) => {
                    &&& m@.has_id()
                    &&& m@.spec_id().label <= old(self).last_received(m@.spec_id().from)
                    &&& final(self).received() == old(self).received()
                },
                Err(DomainError::InvariantViolation) => {
                    &&& !(m@ is Input)
                    &&& !m@.has_id()
                    &&& final(self).received() == old(self).received()
                },
                Err(_) => false,
            },
    {
        let id = match m {
            Packet::Input { .. } => {
                return Ok(());
            },
            Packet::Message { id, .. } => *id,
            Packet::ReplayPiece { id, .. } => *id,
            Packet::VtMessage { .. } => {
                return Err(DomainError::InvariantViolation);
            },
        };
        let old_label: u64 = match self.last_packet_received.get(id.from) {
            Some(l) => *l,
            None => 0,
        };
        if id.label <= old_label {
            return Err(DomainError::OrderingViolation);
        }
        self.last_packet_received.insert(id.from, id.label);
        proof {
            assert(self.to_send() == old(self).to_send());
            assert(self.buf() =~= old(self).buf());
            assert(self.next_packet_to_send_wf());
            assert(self.buf_wf());
        }
        Ok(())
    }

    /// Record a packet received from a parent. Labels from one parent must be
    /// strictly increasing; `Input` packets are ignored.
    pub fn receive_packet(&mut self, m: &Packet)
        requires
            old(self).wf(),
            m@ is Input || m@.has_id(),
            m@.has_id() ==> m@.spec_id().label > old(self).last_received(m@.spec_id().from),
        ensures
            final(self).wf(),
            Node::same_shell(*final(self), *old(self)),
            final(self).spec_children() == old(self).spec_children(),
            final(self).to_send() == old(self).to_send(),
            final(self).buf() == old(self).buf(),
            m@ is Input ==> final(self).received() == old(self).received(),
            m@.has_id() ==> final(self).received() == old(self).received().insert(
                m@.spec_id().from,
                m@.spec_id().label,
            ),
    {
        match self.try_receive_packet(m) {
            Ok(()) => (),
            Err(_) => unreached(),
        }
    }

    /// Replace the incoming connection from `old_peer` with one from
    /// `new_peer`, carrying the recorded label over; the result is the label
    /// the caller should ask the new peer to begin at.
    pub fn new_incoming(&mut self, old_peer: NodeIdx, new_peer: NodeIdx) -> (r: u64)
        requires
            old(self).wf(),
            old(self).last_received(old_peer) < u64::MAX,
        ensures
            final(self).wf(),
            r == old(self).last_received(old_peer) + 1,
            final(self).received() == old(self).received().remove(old_peer).insert(
                new_peer,
                old(self).last_received(old_peer),
            ),
            Node::same_shell(*final(self), *old(self)),
            final(self).spec_children() == old(self).spec_children(),
            final(self).to_send() == old(self).to_send(),
            final(self).buf() == old(self).buf(),
    {
        let label: u64 = match self.last_packet_received.remove(old_peer) {
            Some(l) => l,
            None => 0,
        };
        self.last_packet_received.insert(new_peer, label);
        proof {
            assert(self.to_send() == old(self).to_send());
            assert(self.buf() =~= old(self).buf());
            assert(self.next_packet_to_send_wf());
            assert(self.buf_wf());
        }
        label + 1
    }

    /// The buffer entry that `send_external_packet` leaves at the packet's
    /// label: a fresh entry addressed to `to` alone when the label is new, the
    /// existing entry with `to` added otherwise.
    pub open spec fn sent_entry(self, m: PacketV, to: NodeIdx) -> BufEntryV {
        if m.spec_id().label > self.buf().len() {
            BufEntryV { packet: m, to: Set::<NodeIdx>::empty().insert(to) }
        } else {
            let e = self.buf()[m.spec_id().label - 1];
            BufEntryV { packet: e.packet, to: e.to.insert(to) }
        }
    }

    /// The buffer after `send_external_packet` records `m` for `to`.
    pub open spec fn sent_buf(self, m: PacketV, to: NodeIdx) -> Seq<BufEntryV> {
        if m.spec_id().label > self.buf().len() {
            self.buf().push(self.sent_entry(m, to))
        } else {
            self.buf().update(m.spec_id().label - 1, self.sent_entry(m, to))
        }
    }

    /// Record an outgoing packet in the buffer and admit it by the
    /// destination's presence in `next_packet_to_send`: a first-time label is
    /// appended (labels are strictly sequential), a repeated label adds `to`
    /// to the existing entry's destinations. The result says whether the
    /// packet should actually go out; `false` means `to` is paused and a
    /// later resume will replay the buffer to it.
    pub fn send_external_packet(&mut self, m: &Packet, to: NodeIdx) -> (r: bool)
        requires
            old(self).wf(),
            m@.has_id(),
            old(self).spec_index() is Some,
            m@.spec_id().from == old(self).spec_global_addr(),
            1 <= m@.spec_id().label <= old(self).buf().len() + 1,
            m@.spec_id().label < u64::MAX,
            old(self).to_send().dom().contains(to) ==> old(self).to_send()[to] <= m@.spec_id().label
                + 1,
        ensures
            final(self).wf(),
            Node::same_shell(*final(self), *old(self)),
            final(self).spec_children() == old(self).spec_children(),
            final(self).received() == old(self).received(),
            final(self).buf() == old(self).sent_buf(m@, to),
            r == old(self).to_send().dom().contains(to),
            r ==> final(self).to_send() == old(self).to_send().insert(
                to,
                (m@.spec_id().label + 1) as u64,
            ),
            !r ==> final(self).to_send() == old(self).to_send(),
    {
        let id = m.get_id();
        let label = id.label();
        let blen = self.buf_packets.len();
        if label > blen as u64 {
            // outgoing labels increase sequentially: this one opens a fresh
            // entry right past the buffer
            self.buf_packets.push(m.clone_data());
            self.buf_to.push(IndexSet::singleton(to));
            proof {
                assert(self.buf() =~= old(self).sent_buf(m@, to));
                assert forall|j: int| 0 <= j < self.buf_to@.len()
                    implies (#[trigger] self.buf_to@[j]).wf() by {
                    if j < old(self).buf_to@.len() {
                        assert(old(self).buf_to@[j].wf());
                    }
                }
            }
        } else {
            let i = (label - 1) as usize;
            proof {
                assert(old(self).buf_to@[i as int].wf());
            }
            let widened = self.buf_to[i].with_inserted(to);
            self.buf_to.set(i, widened);
            proof {
                assert(self.buf() =~= old(self).sent_buf(m@, to));
                assert forall|j: int| 0 <= j < self.buf_to@.len()
                    implies (#[trigger] self.buf_to@[j]).wf() by {
                    if j != i {
                        assert(old(self).buf_to@[j].wf());
                    }
                }
            }
        }
        let admitted: Option<u64> = match self.next_packet_to_send.get(to) {
            Some(l) => Some(*l),
            None => None,
        };
        match admitted {
            Some(old_label) => {
                proof {
                    // every label in [old_label, label) was skipped for `to`:
                    // well-formedness says no entry at or past `old_label`
                    // listed it
                    assert forall|j: int|
                        old_label <= j + 1 < label && 0 <= j < old(self).buf().len()
                        implies !old(self).buf()[j].to.contains(to) by {}
                }
                self.next_packet_to_send.insert(to, label + 1);
                proof {
                    Node::lemma_send_wf(*self, *old(self), m@, to);
                }
                true
            },
            None => {
                proof {
                    Node::lemma_send_wf(*self, *old(self), m@, to);
                }
                false
            },
        }
    }

    /// `send_external_packet` preserves well-formedness; `post` is the state
    /// after the buffer write and, when `to` was active, the advance of its next label.
    proof fn lemma_send_wf(post: Node, pre: Node, m: PacketV, to: NodeIdx)
        requires
            pre.wf(),
            m.has_id(),
            pre.spec_index() is Some,
            m.spec_id().from == pre.spec_global_addr(),
            1 <= m.spec_id().label <= pre.buf().len() + 1,
            m.spec_id().label < u64::MAX,
            pre.to_send().dom().contains(to) ==> pre.to_send()[to] <= m.spec_id().label + 1,
            post.spec_index() == pre.spec_index(),
            post.last_packet_received == pre.last_packet_received,
            post.buf() == pre.sent_buf(m, to),
            post.buf_packets@.len() == post.buf_to@.len(),
            forall|i: int| 0 <= i < post.buf_to@.len() ==> (#[trigger] post.buf_to@[i]).wf(),
            post.next_packet_to_send.wf(),
            post.to_send() == if pre.to_send().dom().contains(to) {
                pre.to_send().insert(to, (m.spec_id().label + 1) as u64)
            } else {
                pre.to_send()
            },
        ensures
            post.wf(),
    {
        let label = m.spec_id().label as int;
        let pbuf = pre.buf();
        let nbuf = post.buf();
        assert(nbuf.len() == if label > pbuf.len() {
            pbuf.len() + 1
        } else {
            pbuf.len()
        });
        assert forall|i: int| 0 <= i < nbuf.len() implies (#[trigger] nbuf[i].packet.has_id()
            && nbuf[i].packet.spec_id().label == i + 1 && nbuf[i].packet.spec_id().from
            == post.spec_global_addr()) by {
            if i != label - 1 {
                assert(nbuf[i] == pbuf[i]);
            }
        }
        assert forall|d: NodeIdx| post.to_send().dom().contains(d) implies 1 <= #[trigger] post
            .to_send()[d] <= nbuf.len() + 1 by {
            if d != to || !pre.to_send().dom().contains(to) {
                assert(pre.to_send().dom().contains(d) && post.to_send()[d] == pre.to_send()[d]);
            }
        }
        assert forall|d: NodeIdx, j: int|
            post.to_send().dom().contains(d) && 0 <= j < nbuf.len() && post.to_send()[d] <= j + 1
            implies !(#[trigger] nbuf[j].to.contains(d)) by {
            if pre.to_send().dom().contains(to) && d == to {
                // `to` was advanced past this label, so only entries
                // above it matter, and they never listed `to`
                assert(post.to_send()[d] == label + 1);
                assert(j + 1 > label);
                assert(nbuf[j] == pbuf[j]);
                assert(pre.to_send()[to] <= j + 1);
            } else {
                assert(pre.to_send().dom().contains(d) && post.to_send()[d] == pre.to_send()[d]);
                assert(d != to);
                if j == label - 1 && label <= pbuf.len() {
                    assert(nbuf[j].to == pbuf[j].to.insert(to));
                    assert(!pbuf[j].to.contains(d));
                } else if j == label - 1 {
                    assert(nbuf[j].to == Set::<NodeIdx>::empty().insert(to));
                } else {
                    assert(nbuf[j] == pbuf[j]);
                }
            }
        }
        assert(post.buf_to@.len() == post.buf_packets@.len());
        assert forall|i: int| 0 <= i < nbuf.len() implies (#[trigger] post.buf_to@[i]).wf() by {}
    }

    /// The emissions `resume_at(node, label, …)` adds to the output sink:
    /// clones of the buffer entries from `label` up, in order, each addressed
    /// to `node` alone.
    pub open spec fn replay_log(self, node: NodeIdx, label: u64, shard: u64) -> Seq<EmissionV> {
        Seq::new(
            (self.buf().len() + 1 - label) as nat,
            |k: int|
                EmissionV {
                    shard,
                    to: Set::<NodeIdx>::empty().insert(node),
                    packet: self.buf()[label - 1 + k].packet,
                },
        )
    }

    /// Bring a paused child up to date: replay every buffered packet with a
    /// label in `[label, |buffer| + 1)` through the egress processor, each
    /// addressed to `node` alone, then mark `node` active at the label one
    /// past the buffer. The destination sets recorded with the entries are
    /// deliberately ignored during replay.
    pub fn resume_at(
        &mut self,
        node: NodeIdx,
        label: u64,
        on_shard: Option<u64>,
        output: &mut EgressOutput,
    )
        requires
            old(self).wf(),
            old(self).spec_inner() matches NodeType::Egress(Some(_)),
            1 <= label <= old(self).buf().len() + 1,
            old(self).buf().len() < u64::MAX,
        ensures
            final(self).wf(),
            Node::same_shell(*final(self), *old(self)),
            final(self).spec_children() == old(self).spec_children(),
            final(self).received() == old(self).received(),
            final(self).buf() == old(self).buf(),
            final(self).to_send() == old(self).to_send().insert(
                node,
                (old(self).buf().len() + 1) as u64,
            ),
            final(output).log() == old(output).log() + old(self).replay_log(
                node,
                label,
                if on_shard is Some {
                    on_shard->Some_0
                } else {
                    0
                },
            ),
    {
        let e: Egress = match self.inner {
            NodeType::Egress(Some(eg)) => eg,
            _ => unreached(),
        };
        let shard: u64 = match on_shard {
            Some(s) => s,
            None => 0,
        };
        let max_label: u64 = self.buf_packets.len() as u64 + 1;
        let to_nodes = IndexSet::singleton(node);
        let start: usize = (label - 1) as usize;
        let mut pos: usize = start;
        while pos < self.buf_packets.len()
            invariant
                start == label - 1,
                start <= pos <= self.buf().len(),
                *self == *old(self),
                self.wf(),
                to_nodes.as_set() == Set::<NodeIdx>::empty().insert(node),
                output.log() == old(output).log() + Seq::new(
                    (pos - start) as nat,
                    |k: int|
                        EmissionV {
                            shard,
                            to: Set::<NodeIdx>::empty().insert(node),
                            packet: self.buf()[start + k].packet,
                        },
                ),
            decreases self.buf().len() - pos,
        {
            let m = self.buf_packets[pos].clone_data();
            e.process(m, shard, output, &to_nodes);
            proof {
                assert(output.log() =~~= old(output).log() + Seq::new(
                    (pos + 1 - start) as nat,
                    |k: int|
                        EmissionV {
                            shard,
                            to: Set::<NodeIdx>::empty().insert(node),
                            packet: self.buf()[start + k].packet,
                        },
                ));
            }
            pos = pos + 1;
        }
        proof {
            assert(output.log() =~~= old(output).log() + old(self).replay_log(
                node,
                label,
                shard,
            ));
        }
        self.next_packet_to_send.insert(node, max_label);
        proof {
            assert(self.buf() =~= old(self).buf());
            assert forall|d: NodeIdx, j: int|
                self.to_send().dom().contains(d) && 0 <= j < self.buf().len() && self.to_send()[d]
                    <= j + 1 implies !(#[trigger] self.buf()[j].to.contains(d)) by {
                if d != node {
                    assert(old(self).to_send().dom().contains(d) && self.to_send()[d] == old(
                        self,
                    ).to_send()[d]);
                }
            }
            assert(self.buf_packets == old(self).buf_packets);
            assert(self.buf_to == old(self).buf_to);
            assert forall|i2: int| 0 <= i2 < self.buf().len() implies (
                (#[trigger] self.buf()[i2]).packet.has_id() && self.buf()[i2].packet.spec_id().label
                    == i2 + 1 && self.buf()[i2].packet.spec_id().from == self.spec_global_addr()
            ) by {
                assert(self.buf()[i2] == old(self).buf()[i2]);
            }
            assert forall|i2: int| 0 <= i2 < self.buf().len() implies (
                #[trigger] self.buf_to@[i2]).wf() by {
                assert(old(self).buf_to@[i2].wf());
            }
            assert(self.buf_wf());
            assert(self.last_packet_received == old(self).last_packet_received);
            assert forall|d: NodeIdx| self.to_send().dom().contains(d) implies 1 <= #[trigger] self
                .to_send()[d] <= self.buf().len() + 1 by {
                if d != node {
                    assert(old(self).to_send().dom().contains(d) && self.to_send()[d] == old(
                        self,
                    ).to_send()[d]);
                }
            }
        }
    }

    /// `resume_at`, reporting a node-type mismatch instead of requiring one:
    /// on a node that is not an egress with a present processor, nothing
    /// changes and the fault is returned.
    pub fn try_resume_at(
        &mut self,
        node: NodeIdx,
        label: u64,
        on_shard: Option<u64>,
        output: &mut EgressOutput,
    ) -> (r: Result<(), DomainError>)
        requires
            old(self).wf(),
            1 <= label <= old(self).buf().len() + 1,
            old(self).buf().len() < u64::MAX,
        ensures
            final(self).wf(),
            Node::same_shell(*final(self), *old(self)),
            final(self).spec_children() == old(self).spec_children(),
            final(self).received() == old(self).received(),
            final(self).buf() == old(self).buf(),
            match r {
                Ok(()) => {
                    &&& old(self).spec_inner() matches NodeType::Egress(Some(_))
                    &&& final(self).to_send() == old(self).to_send().insert(
                        node,
                        (old(self).buf().len() + 1) as u64,
                    )
                    &&& final(output).log() == old(output).log() + old(self).replay_log(
                        node,
                        label,
                        if on_shard is Some {
                            on_shard->Some_0
                        } else {
                            0
                        },
                    )
                },
                Err(DomainError::NodeTypeMismatch) => {
                    &&& !(old(self).spec_inner() matches NodeType::Egress(Some(_)))
                    &&& final(self).to_send() == old(self).to_send()
                    &&& final(output).log() == old(output).log()
                },
                Err(_) => false,
            },
    {
        let is_live_egress = match self.inner {
            NodeType::Egress(Some(_)) => true,
            _ => false,
        };
        if !is_live_egress {
            return Err(DomainError::NodeTypeMismatch);
        }
        self.resume_at(node, label, on_shard, output);
        Ok(())
    }

    /// `send_external_packet` with its label discipline checked at run time:
    /// a packet without an id, or from another sender, is an invariant
    /// violation; a label outside `[1, |buffer| + 1]`, or one the destination has
    /// already been advanced past, is an ordering violation. On an error nothing
    /// changes.
    pub fn try_send_external_packet(&mut self, m: &Packet, to: NodeIdx) -> (r: Result<
        bool,
        DomainError,
    >)
        requires
            old(self).wf(),
            old(self).buf().len() < u64::MAX - 1,
        ensures
            final(self).wf(),
            Node::same_shell(*final(self), *old(self)),
            final(self).spec_children() == old(self).spec_children(),
            final(self).received() == old(self).received(),
            match r {
                Ok(sent) => {
                    &&& m@.has_id()
                    &&& old(self).spec_index() is Some
                    &&& m@.spec_id().from == old(self).spec_global_addr()
                    &&& 1 <= m@.spec_id().label <= old(self).buf().len() + 1
                    &&& final(self).buf() == old(self).sent_buf(m@, to)
                    &&& sent == old(self).to_send().dom().contains(to)
                    &&& sent ==> final(self).to_send() == old(self).to_send().insert(
                        to,
                        (m@.spec_id().label + 1) as u64,
                    )
                    &&& !sent ==> final(self).to_send() == old(self).to_send()
                },
                Err(e) => {
                    &&& final(self).buf() == old(self).buf()
                    &&& final(self).to_send() == old(self).to_send()
                    &&& match e {
                        DomainError::InvariantViolation => !m@.has_id() || !(old(
                            self,
                        ).spec_index() is Some) || m@.spec_id().from != old(
                            self,
                        ).spec_global_addr(),
                        DomainError::OrderingViolation => {
                            &&& m@.has_id()
                            &&& old(self).spec_index() is Some
                            &&& m@.spec_id().from == old(self).spec_global_addr()
                            &&& (m@.spec_id().label < 1 || m@.spec_id().label > old(
                                self,
                            ).buf().len() + 1 || (old(self).to_send().dom().contains(to) && old(
                                self,
                            ).to_send()[to] > m@.spec_id().label + 1))
                        },
                        _ => false,
                    }
                },
            },
    {
        let has_id = match m {
            Packet::Message { .. } => true,
            Packet::ReplayPiece { .. } => true,
            _ => false,
        };
        if !has_id || self.index.is_none() {
            return Err(DomainError::InvariantViolation);
        }
        let id = m.get_id();
        if id.from() != self.global_addr() {
            return Err(DomainError::InvariantViolation);
        }
        let label = id.label();
        let blen = self.buf_packets.len();
        if label < 1 || label > blen as u64 + 1 {
            return Err(DomainError::OrderingViolation);
        }
        let stale = match self.next_packet_to_send.get(to) {
            Some(l) => *l > label + 1,
            None => false,
        };
        if stale {
            return Err(DomainError::OrderingViolation);
        }
        Ok(self.send_external_packet(m, to))
    }

    /// Send to a node of the same domain, which is never paused: record the
    /// packet for `to_local`'s global address; such a send always goes out.
    pub fn send_internal_packet(&mut self, m: &Packet, to_local: LocalIdx, nodes: &DomainNodes)
        requires
            old(self).wf(),
            m@.has_id(),
            old(self).spec_index() is Some,
            m@.spec_id().from == old(self).spec_global_addr(),
            1 <= m@.spec_id().label <= old(self).buf().len() + 1,
            m@.spec_id().label < u64::MAX,
            to_local < nodes.node_seq().len(),
            nodes.node_seq()[to_local as int].spec_index() is Some,
            old(self).to_send().dom().contains(
                nodes.node_seq()[to_local as int].spec_global_addr(),
            ),
            old(self).to_send()[nodes.node_seq()[to_local as int].spec_global_addr()]
                <= m@.spec_id().label + 1,
        ensures
            final(self).wf(),
            Node::same_shell(*final(self), *old(self)),
            final(self).spec_children() == old(self).spec_children(),
            final(self).received() == old(self).received(),
            final(self).buf() == old(self).sent_buf(
                m@,
                nodes.node_seq()[to_local as int].spec_global_addr(),
            ),
            final(self).to_send() == old(self).to_send().insert(
                nodes.node_seq()[to_local as int].spec_global_addr(),
                (m@.spec_id().label + 1) as u64,
            ),
    {
        let to = nodes.node(to_local).global_addr();
        let sent = self.send_external_packet(m, to);
        proof {
            assert(sent);
        }
    }

    /// The number of outgoing packets recorded in the buffer.
    pub fn buffer_len(&self) -> (r: usize)
        requires
            self.wf(),
        ensures
            r == self.buf().len(),
    {
        self.buf_packets.len()
    }

    /// The packet recorded at position `i` of the buffer (label `i + 1`).
    pub fn buffered_packet_at(&self, i: usize) -> (r: &Packet)
        requires
            self.wf(),
            i < self.buf().len(),
        ensures
            r@ == self.buf()[i as int].packet,
    {
        &self.buf_packets[i]
    }

    /// The destinations registered so far for the buffer entry at `i`.
    pub fn buffered_to_at(&self, i: usize) -> (r: &IndexSet)
        requires
            self.wf(),
            i < self.buf().len(),
        ensures
            r.as_set() == self.buf()[i as int].to,
    {
        &self.buf_to[i]
    }

    /// The next label to send to `d`, absent while `d` is paused.
    pub fn next_label_for(&self, d: NodeIdx) -> (r: Option<u64>)
        requires
            self.wf(),
        ensures
            match r {
                Some(l) => self.to_send().dom().contains(d) && l == self.to_send()[d],
                None => !self.to_send().dom().contains(d),
            },
    {
        match self.next_packet_to_send.get(d) {
            Some(l) => Some(*l),
            None => None,
        }
    }

    /// The highest label received from `s`, absent before the first packet.
    pub fn last_label_from(&self, s: NodeIdx) -> (r: Option<u64>)
        requires
            self.wf(),
        ensures
            match r {
                Some(l) => self.received().dom().contains(s) && l == self.received()[s],
                None => !self.received().dom().contains(s),
            },
    {
        match self.last_packet_received.get(s) {
            Some(l) => Some(*l),
            None => None,
        }
    }

    /// The id to put on the next outgoing packet: the label one past the
    /// buffer, from this node.
    pub fn next_packet_id(&self) -> (r: PacketId)
        requires
            self.spec_index() is Some,
            self.buf().len() < u64::MAX,
        ensures
            r.label == self.buf().len() + 1,
            r.from == self.spec_global_addr(),
    {
        let me = self.global_addr();
        let label = self.buf_packets.len() as u64 + 1;
        PacketId::new(label, me)
    }
}

/// The nodes of one domain, looked up by their domain-local index: the node
/// with local index `i` sits at position `i`.
pub struct DomainNodes {
    nodes: Vec<Node>,
}

impl DomainNodes {
    pub closed spec fn node_seq(self) -> Seq<Node> {
        self.nodes@
    }

    pub fn new() -> (r: DomainNodes)
        ensures
            r.node_seq() == Seq::<Node>::empty(),
    {
        DomainNodes { nodes: Vec::new() }
    }

    /// Place a node; it receives the next local index.
    pub fn push(&mut self, n: Node)
        ensures
            final(self).node_seq() == old(self).node_seq().push(n),
    {
        self.nodes.push(n);
    }

    pub fn len(&self) -> (r: usize)
        ensures
            r == self.node_seq().len(),
    {
        self.nodes.len()
    }

    pub fn node(&self, i: LocalIdx) -> (r: &Node)
        requires
            i < self.node_seq().len(),
        ensures
            *r == self.node_seq()[i as int],
    {
        let _bound: usize = self.nodes.len();
        &self.nodes[i as usize]
    }
}

/// The dataflow graph as an arena: nodes held by value at their graph-global
/// index, edges as pairs of indices.
pub struct FlowGraph {
    nodes: Vec<Node>,
    edges: Vec<(NodeIdx, NodeIdx)>,
}

impl FlowGraph {
    pub closed spec fn node_seq(self) -> Seq<Node> {
        self.nodes@
    }

    pub closed spec fn edge_seq(self) -> Seq<(NodeIdx, NodeIdx)> {
        self.edges@
    }

    /// Every edge connects nodes of the arena.
    pub open spec fn wf(self) -> bool {
        forall|j: int| 0 <= j < self.edge_seq().len() ==> ((#[trigger] self.edge_seq()[j]).0
            < self.node_seq().len() && self.edge_seq()[j].1 < self.node_seq().len())
    }

    pub open spec fn edge_exists(self, a: NodeIdx, b: NodeIdx) -> bool {
        self.edge_seq().contains((a, b))
    }

    pub fn new() -> (r: FlowGraph)
        ensures
            r.wf(),
            r.node_seq() == Seq::<Node>::empty(),
            r.edge_seq() == Seq::<(NodeIdx, NodeIdx)>::empty(),
    {
        FlowGraph { nodes: Vec::new(), edges: Vec::new() }
    }

    /// Add a node, returning its graph-global index.
    pub fn add_node(&mut self, n: Node) -> (r: NodeIdx)
        requires
            old(self).node_seq().len() < u64::MAX,
        ensures
            final(self).node_seq() == old(self).node_seq().push(n),
            final(self).edge_seq() == old(self).edge_seq(),
            r == old(self).node_seq().len(),
            old(self).wf() ==> final(self).wf(),
    {
        let r = self.nodes.len() as u64;
        self.nodes.push(n);
        r
    }

    pub fn add_edge(&mut self, from: NodeIdx, to: NodeIdx)
        requires
            from < old(self).node_seq().len(),
            to < old(self).node_seq().len(),
        ensures
            final(self).node_seq() == old(self).node_seq(),
            final(self).edge_seq() == old(self).edge_seq().push((from, to)),
            old(self).wf() ==> final(self).wf(),
    {
        self.edges.push((from, to));
    }

    pub fn node_at(&self, i: NodeIdx) -> (r: &Node)
        requires
            i < self.node_seq().len(),
        ensures
            *r == self.node_seq()[i as int],
    {
        let _bound: usize = self.nodes.len();
        &self.nodes[i as usize]
    }
}

/// `c` is the target of one of the first `k` edges out of `ni`.
pub open spec fn edge_in_prefix(g: FlowGraph, ni: NodeIdx, k: int, c: NodeIdx) -> bool {
    exists|j: int| 0 <= j < k && #[trigger] g.edge_seq()[j] == (ni, c)
}

/// The local indices of the same-domain targets of the first `k` edges out of
/// `ni`, in edge order.
pub open spec fn child_locals(g: FlowGraph, ni: NodeIdx, dm: u64, k: int) -> Seq<LocalIdx>
    decreases k,
{
    if k <= 0 {
        Seq::<LocalIdx>::empty()
    } else {
        let pre = child_locals(g, ni, dm, k - 1);
        let e = g.edge_seq()[k - 1];
        if e.0 == ni && g.node_seq()[e.1 as int].spec_domain() == Some(dm) {
            pre.push(g.node_seq()[e.1 as int].spec_local_addr())
        } else {
            pre
        }
    }
}

impl DanglingDomainNode {
    /// Wire the node into its domain: its children become the local indices
    /// of its same-domain successors in the graph, and every successor starts
    /// active, expecting label 1.
    pub fn finalize(self, graph: &FlowGraph) -> (r: Node)
        requires
            graph.wf(),
            self.node().wf(),
            self.node().spec_index() is Some,
            self.node().spec_domain() is Some,
            self.node().to_send() == Map::<NodeIdx, u64>::empty(),
            self.node().buf().len() == 0,
            self.node().spec_children() == Seq::<LocalIdx>::empty(),
            forall|j: int|
                0 <= j < graph.edge_seq().len() && (#[trigger] graph.edge_seq()[j]).0
                    == self.node().spec_global_addr() ==> {
                    let c = graph.edge_seq()[j].1;
                    &&& graph.node_seq()[c as int].spec_domain() is Some
                    &&& graph.node_seq()[c as int].spec_index() is Some
                    &&& graph.node_seq()[c as int].spec_global_addr() == c
                    &&& (graph.node_seq()[c as int].spec_domain() == self.node().spec_domain()
                        ==> graph.node_seq()[c as int].spec_index()->Some_0.spec_has_local())
                },
        ensures
            r.wf(),
            Node::same_shell(r, self.node()),
            r.received() == self.node().received(),
            r.buf() == self.node().buf(),
            r.spec_children() == child_locals(
                *graph,
                self.node().spec_global_addr(),
                self.node().spec_domain()->Some_0,
                graph.edge_seq().len() as int,
            ),
            r.to_send() == Map::new(
                |c: NodeIdx| graph.edge_exists(self.node().spec_global_addr(), c),
                |c: NodeIdx| 1u64,
            ),
    {
        let mut n = self.0;
        let ni = n.global_addr();
        let dm = n.domain();
        let ghost g = *graph;
        let mut j: usize = 0;
        while j < graph.edges.len()
            invariant
                g == *graph,
                g.wf(),
                n.last_packet_received == self.node().last_packet_received,
                n.buf_packets == self.node().buf_packets,
                n.buf_to == self.node().buf_to,
                Node::same_shell(n, self.node()),
                n.last_packet_received_wf(),
                n.next_packet_to_send.wf(),
                ni == self.node().spec_global_addr(),
                Some(dm) == self.node().spec_domain(),
                self.node().buf().len() == 0,
                0 <= j <= g.edge_seq().len(),
                forall|j2: int|
                    0 <= j2 < g.edge_seq().len() && (#[trigger] g.edge_seq()[j2]).0 == ni ==> {
                        let c = g.edge_seq()[j2].1;
                        &&& g.node_seq()[c as int].spec_domain() is Some
                        &&& g.node_seq()[c as int].spec_index() is Some
                        &&& g.node_seq()[c as int].spec_global_addr() == c
                        &&& (g.node_seq()[c as int].spec_domain() == Some(dm)
                            ==> g.node_seq()[c as int].spec_index()->Some_0.spec_has_local())
                    },
                n.spec_children() == child_locals(g, ni, dm, j as int),
                n.to_send() =~= Map::new(
                    |c: NodeIdx| edge_in_prefix(g, ni, j as int, c),
                    |c: NodeIdx| 1u64,
                ),
            decreases g.edge_seq().len() - j,
        {
            let (from, to) = graph.edges[j];
            if from == ni {
                proof {
                    assert(g.edge_seq()[j as int].0 == ni);
                }
                let cnode = graph.node_at(to);
                n.next_packet_to_send.insert(to, 1);
                proof {
                    assert forall|c: NodeIdx| edge_in_prefix(g, ni, j + 1, c) implies n
                        .to_send().dom().contains(c) by {
                        let j2 = choose|j2: int| 0 <= j2 < j + 1 && #[trigger] g.edge_seq()[j2]
                            == (ni, c);
                        if j2 < j {
                            assert(edge_in_prefix(g, ni, j as int, c));
                        }
                    }
                    assert forall|c: NodeIdx| n.to_send().dom().contains(c) implies edge_in_prefix(
                        g,
                        ni,
                        j + 1,
                        c,
                    ) by {
                        if c != to {
                            let j2 = choose|j2: int| 0 <= j2 < j && #[trigger] g.edge_seq()[j2]
                                == (ni, c);
                            assert(g.edge_seq()[j2] == (ni, c));
                        } else {
                            assert(g.edge_seq()[j as int] == (ni, c));
                        }
                    }
                    assert(n.to_send() =~= Map::new(
                        |c: NodeIdx| edge_in_prefix(g, ni, j + 1, c),
                        |c: NodeIdx| 1u64,
                    ));
                }
                if cnode.has_domain() && cnode.domain() == dm {
                    let l = cnode.local_addr();
                    n.children.push(l);
                }
            } else {
                proof {
                    assert forall|c: NodeIdx| edge_in_prefix(g, ni, j + 1, c) implies
                        edge_in_prefix(g, ni, j as int, c) by {
                        let j2 = choose|j2: int| 0 <= j2 < j + 1 && #[trigger] g.edge_seq()[j2]
                            == (ni, c);
                        assert(g.edge_seq()[j2] == (ni, c));
                        assert(j2 != j);
                    }
                    assert(n.to_send() =~= Map::new(
                        |c: NodeIdx| edge_in_prefix(g, ni, j + 1, c),
                        |c: NodeIdx| 1u64,
                    ));
                }
            }
            j = j + 1;
        }
        proof {
            assert forall|c: NodeIdx| edge_in_prefix(g, ni, g.edge_seq().len() as int, c)
                <==> g.edge_exists(ni, c) by {
                if edge_in_prefix(g, ni, g.edge_seq().len() as int, c) {
                    let j2 = choose|j2: int|
                        0 <= j2 < g.edge_seq().len() && #[trigger] g.edge_seq()[j2] == (ni, c);
                    assert(g.edge_seq().contains((ni, c)));
                }
                if g.edge_exists(ni, c) {
                    let j2 = choose|j2: int|
                        0 <= j2 < g.edge_seq().len() && g.edge_seq()[j2] == (ni, c);
                    assert(g.edge_seq()[j2] == (ni, c));
                }
            }
            assert(n.to_send() =~= Map::new(
                |c: NodeIdx| g.edge_exists(ni, c),
                |c: NodeIdx| 1u64,
            ));
            assert(n.buf() =~= self.node().buf());
            assert forall|d: NodeIdx| n.to_send().dom().contains(d) implies 1 <= #[trigger] n
                .to_send()[d] <= n.buf().len() + 1 by {}
            assert(n.wf());
        }
        n
    }
}

/// The highest label recorded from `s` in `m`, zero if none: the footing the
/// next received label must clear.
pub open spec fn last_of(m: Map<NodeIdx, u64>, s: NodeIdx) -> u64 {
    if m.dom().contains(s) {
        m[s]
    } else {
        0
    }
}

/// A stream of labels is accepted from parent `s`, starting at state `m`,
/// when each one in turn is above the stored label it finds, which it then
/// replaces — exactly the step `receive_packet` takes.
pub open spec fn receive_stream_ok(m: Map<NodeIdx, u64>, s: NodeIdx, ls: Seq<u64>) -> bool
    decreases ls.len(),
{
    ls.len() == 0 || (ls[0] > last_of(m, s) && receive_stream_ok(
        m.insert(s, ls[0]),
        s,
        ls.drop_first(),
    ))
}

/// Inbound label monotonicity: every stream of labels that `receive_packet`
/// accepts from one parent is strictly increasing, and stays above the label
/// stored when the stream began.
pub proof fn lemma_inbound_labels_increase(m: Map<NodeIdx, u64>, s: NodeIdx, ls: Seq<u64>)
    requires
        receive_stream_ok(m, s, ls),
    ensures
        forall|i: int, j: int| 0 <= i < j < ls.len() ==> ls[i] < ls[j],
        forall|i: int| 0 <= i < ls.len() ==> ls[i] > last_of(m, s),
    decreases ls.len(),
{
    if ls.len() > 0 {
        let m1 = m.insert(s, ls[0]);
        let rest = ls.drop_first();
        lemma_inbound_labels_increase(m1, s, rest);
        assert(last_of(m1, s) == ls[0]);
        assert forall|i: int| 0 <= i < ls.len() implies ls[i] > last_of(m, s) by {
            if i > 0 {
                assert(rest[i - 1] == ls[i]);
                assert(ls[i] > ls[0]);
            }
        }
        assert forall|i: int, j: int| 0 <= i < j < ls.len() implies ls[i] < ls[j] by {
            assert(rest[j - 1] == ls[j]);
            if i > 0 {
                assert(rest[i - 1] == ls[i]);
            } else {
                assert(ls[j] > ls[0]);
            }
        }
    }
}

/// Outbound label sequentiality: in a well-formed node the recorded outgoing
/// packets carry exactly the labels 1, 2, 3, …, in order, all from this node.
pub proof fn lemma_outbound_labels_sequential(n: Node)
    requires
        n.wf(),
    ensures
        forall|i: int| 0 <= i < n.buf().len() ==> ((#[trigger] n.buf()[i]).packet.has_id()
            && n.buf()[i].packet.spec_id().label == i + 1 && n.buf()[i].packet.spec_id().from
            == n.spec_global_addr()),
{
}

/// Skip consistency: in a well-formed node, no buffer entry at or past an
/// active destination's next label lists that destination — every label a
/// send skips when it advances a destination was recorded without it.
pub proof fn lemma_skip_consistency(n: Node, d: NodeIdx)
    requires
        n.wf(),
        n.to_send().dom().contains(d),
    ensures
        forall|j: int|
            0 <= j < n.buf().len() && n.to_send()[d] <= j + 1 ==> !(#[trigger] n.buf()[j]).to
                .contains(d),
{
}

/// A copy of a string, equal in value.
fn clone_string(s: &String) -> (r: String)
    ensures
        r@ == s@,
{
    s.as_str().to_owned()
}

/// A copy of a vector of strings, equal in the values of its elements.
fn clone_string_vec(v: &Vec<String>) -> (r: Vec<String>)
    ensures
        r@.map_values(|s: String| s@) == v@.map_values(|s: String| s@),
{
    let mut out: Vec<String> = Vec::new();
    let mut i: usize = 0;
    while i < v.len()
        invariant
            0 <= i <= v@.len(),
            out@.len() == i,
            forall|j: int| 0 <= j < i ==> #[trigger] out@[j]@ == v@[j]@,
        decreases v@.len() - i,
    {
        out.push(v[i].as_str().to_owned());
        i = i + 1;
    }
    proof {
        assert(out@.map_values(|s: String| s@) =~= v@.map_values(|s: String| s@));
    }
    out
}

} // verus!
