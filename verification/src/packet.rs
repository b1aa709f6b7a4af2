use vstd::prelude::*;

verus! {

/// A graph-global node index.
pub type NodeIdx = u64;

/// A node index local to one domain.
pub type LocalIdx = u64;

/// The (source, destination) pair of local node ids a packet travels along.
#[derive(Clone, Copy, PartialEq, Eq, Structural, Debug)]
pub struct Link {
    pub src: LocalIdx,
    pub dst: LocalIdx,
}

/// The id carried by every data packet: a 1-based label that is strictly
/// sequential per sender, and the sender's graph-global index.
#[derive(Clone, Copy, PartialEq, Eq, Structural, Debug)]
pub struct PacketId {
    pub label: u64,
    pub from: NodeIdx,
}

impl PacketId {
    pub open spec fn spec_label(self) -> u64 {
        self.label
    }

    pub open spec fn spec_from(self) -> NodeIdx {
        self.from
    }

    pub fn new(label: u64, from: NodeIdx) -> (r: PacketId)
        ensures
            r.spec_label() == label,
            r.spec_from() == from,
    {
        PacketId { label, from }
    }

    pub fn label(&self) -> (r: u64)
        ensures
            r == self.spec_label(),
    {
        self.label
    }

    pub fn from(&self) -> (r: NodeIdx)
        ensures
            r == self.spec_from(),
    {
        self.from
    }
}

/// A debug tracer: the tag that identifies the trace, and whether an event
/// sender is attached. The sender itself is a transport handle that lives
/// outside this library; the merge logic only needs to know it is there.
#[derive(Clone, Copy, PartialEq, Eq, Structural, Debug)]
pub struct Tracer {
    pub tag: u64,
    pub has_sender: bool,
}

/// The transaction state carried by a batched base-node write.
#[derive(Clone, Copy, PartialEq, Eq, Structural, Debug)]
pub enum TransactionState {
    Uncommitted,
    Committed { at_time: u64, at_source: u64, prev: u64, base: NodeIdx },
}

/// An ordered batch of records. Records themselves are opaque to the packet
/// plane; they are carried, concatenated and persisted, never inspected.
pub type Records = Vec<i64>;

/// A fatal fault of the domain. Each one names a broken precondition that the
/// checked entry points report instead of proceeding; the domain is expected
/// to abort on any of them.
#[derive(Clone, Copy, PartialEq, Eq, Structural, Debug)]
pub enum DomainError {
    /// A received label was not above the last one recorded from that parent,
    /// or an outbound label broke the strictly sequential discipline.
    OrderingViolation,
    /// A packet of an unexpected variant reached a place that cannot take it,
    /// or a batch mixed links.
    InvariantViolation,
    /// An operation that only an egress node supports was asked of another
    /// node kind.
    NodeTypeMismatch,
}

/// A packet of the domain's data plane.
pub enum Packet {
    /// From an external client; excluded from label tracking.
    Input { link: Link, data: Records },
    /// A normal data packet.
    Message { id: PacketId, link: Link, data: Records, tracer: Option<Tracer> },
    /// A replay packet; same id and label discipline as `Message`.
    ReplayPiece { id: PacketId, link: Link, data: Records },
    /// A batched base-node write, before or after group commit.
    VtMessage { link: Link, data: Records, tracer: Option<Tracer>, state: TransactionState },
}

/// The mathematical value of a packet: the same shape, with the record batch
/// as a sequence.
#[verifier::ext_equal]
pub enum PacketV {
    Input { link: Link, data: Seq<i64> },
    Message { id: PacketId, link: Link, data: Seq<i64>, tracer: Option<Tracer> },
    ReplayPiece { id: PacketId, link: Link, data: Seq<i64> },
    VtMessage { link: Link, data: Seq<i64>, tracer: Option<Tracer>, state: TransactionState },
}

impl View for Packet {
    type V = PacketV;

    open spec fn view(&self) -> PacketV {
        match self {
            Packet::Input { link, data } => PacketV::Input { link: *link, data: data@ },
            Packet::Message { id, link, data, tracer } => PacketV::Message {
                id: *id,
                link: *link,
                data: data@,
                tracer: *tracer,
            },
            Packet::ReplayPiece { id, link, data } => PacketV::ReplayPiece {
                id: *id,
                link: *link,
                data: data@,
            },
            Packet::VtMessage { link, data, tracer, state } => PacketV::VtMessage {
                link: *link,
                data: data@,
                tracer: *tracer,
                state: *state,
            },
        }
    }
}

impl PacketV {
    /// Whether the packet carries a `(label, from)` id, that is, takes part in
    /// label tracking.
    pub open spec fn has_id(self) -> bool {
        self is Message || self is ReplayPiece
    }

    pub open spec fn spec_id(self) -> PacketId {
        match self {
            PacketV::Message { id, .. } => id,
            PacketV::ReplayPiece { id, .. } => id,
            _ => arbitrary(),
        }
    }

    pub open spec fn spec_link(self) -> Link {
        match self {
            PacketV::Input { link, .. } => link,
            PacketV::Message { link, .. } => link,
            PacketV::ReplayPiece { link, .. } => link,
            PacketV::VtMessage { link, .. } => link,
        }
    }

    pub open spec fn spec_data(self) -> Seq<i64> {
        match self {
            PacketV::Input { data, .. } => data,
            PacketV::Message { data, .. } => data,
            PacketV::ReplayPiece { data, .. } => data,
            PacketV::VtMessage { data, .. } => data,
        }
    }

    pub open spec fn spec_tracer(self) -> Option<Tracer> {
        match self {
            PacketV::Message { tracer, .. } => tracer,
            PacketV::VtMessage { tracer, .. } => tracer,
            _ => None,
        }
    }
}

/// Copy the contents of a record batch.
pub fn clone_records(data: &Records) -> (r: Records)
    ensures
        r@ == data@,
{
    let mut out: Records = Vec::new();
    let mut i: usize = 0;
    while i < data.len()
        invariant
            0 <= i <= data@.len(),
            out@ == data@.subrange(0, i as int),
        decreases data@.len() - i,
    {
        out.push(data[i]);
        proof {
            assert(out@ =~= data@.subrange(0, i + 1 as int));
        }
        i = i + 1;
    }
    proof {
        assert(out@ =~= data@);
    }
    out
}

/// Append the contents of one record batch to another: the concatenation the
/// group-commit merge is built from.
pub fn append_records(acc: &mut Records, other: &Records)
    ensures
        final(acc)@ == old(acc)@ + other@,
{
    let mut i: usize = 0;
    while i < other.len()
        invariant
            0 <= i <= other@.len(),
            acc@ == old(acc)@ + other@.subrange(0, i as int),
        decreases other@.len() - i,
    {
        acc.push(other[i]);
        proof {
            assert(acc@ =~= old(acc)@ + other@.subrange(0, i + 1 as int));
        }
        i = i + 1;
    }
    proof {
        assert(acc@ =~= old(acc)@ + other@);
    }
}

impl Packet {
    /// The id of a data packet. Only `Message` and `ReplayPiece` carry one.
    pub fn get_id(&self) -> (r: PacketId)
        requires
            self@.has_id(),
        ensures
            r == self@.spec_id(),
    {
        match self {
            Packet::Message { id, .. } => *id,
            Packet::ReplayPiece { id, .. } => *id,
            Packet::Input { .. } => unreached(),
            Packet::VtMessage { .. } => unreached(),
        }
    }

    pub fn link(&self) -> (r: Link)
        ensures
            r == self@.spec_link(),
    {
        match self {
            Packet::Input { link, .. } => *link,
            Packet::Message { link, .. } => *link,
            Packet::ReplayPiece { link, .. } => *link,
            Packet::VtMessage { link, .. } => *link,
        }
    }

    pub fn data(&self) -> (r: &Records)
        ensures
            r@ == self@.spec_data(),
    {
        match self {
            Packet::Input { data, .. } => data,
            Packet::Message { data, .. } => data,
            Packet::ReplayPiece { data, .. } => data,
            Packet::VtMessage { data, .. } => data,
        }
    }

    pub fn tracer(&self) -> (r: Option<Tracer>)
        ensures
            r == self@.spec_tracer(),
    {
        match self {
            Packet::Message { tracer, .. } => *tracer,
            Packet::VtMessage { tracer, .. } => *tracer,
            _ => None,
        }
    }

    pub fn transaction_state(&self) -> (r: Option<TransactionState>)
        ensures
            match r {
                Some(s) => (self@ matches PacketV::VtMessage { state, .. } && s == state),
                None => !(self@ is VtMessage),
            },
    {
        match self {
            Packet::VtMessage { state, .. } => Some(*state),
            _ => None,
        }
    }

    pub fn is_vt_message(&self) -> (r: bool)
        ensures
            r == (self@ is VtMessage),
    {
        match self {
            Packet::VtMessage { .. } => true,
            _ => false,
        }
    }

    /// A copy of the packet's payload, equal to the packet in value.
    pub fn clone_data(&self) -> (r: Packet)
        ensures
            r@ == self@,
    {
        match self {
            Packet::Input { link, data } => Packet::Input {
                link: *link,
                data: clone_records(data),
            },
            Packet::Message { id, link, data, tracer } => Packet::Message {
                id: *id,
                link: *link,
                data: clone_records(data),
                tracer: *tracer,
            },
            Packet::ReplayPiece { id, link, data } => Packet::ReplayPiece {
                id: *id,
                link: *link,
                data: clone_records(data),
            },
            Packet::VtMessage { link, data, tracer, state } => Packet::VtMessage {
                link: *link,
                data: clone_records(data),
                tracer: *tracer,
                state: *state,
            },
        }
    }
}

} // verus!
