use packet_plane::node::{Base, DomainNodes, IndexPair, Node, NodeOperator, NodeType};
use packet_plane::packet::{DomainError, Link, Packet, Records, Tracer, TransactionState};
use packet_plane::persistence::{DurabilityMode, GroupCommitQueueSet, Parameters};
use packet_plane::txtime::DomainState;

fn base_node(global: u64, local: u64) -> Node {
    let mut n = Node::new(
        "b".to_string(),
        vec!["x".to_string()],
        NodeType::Internal(NodeOperator::Base(Base {})),
    );
    n.set_finalized_addr(IndexPair::with_local(global, local));
    n
}

fn vt(src: u64, dst: u64, data: Records) -> Packet {
    Packet::VtMessage {
        link: Link { src, dst },
        data,
        tracer: None,
        state: TransactionState::Uncommitted,
    }
}

fn one_base_domain() -> DomainNodes {
    let mut nodes = DomainNodes::new();
    nodes.push(base_node(0, 0));
    nodes
}

#[test]
fn capacity_flush_returns_merged_packet() {
    let nodes = one_base_domain();
    let mut ts = DomainState::new(42);
    let params = Parameters::new(DurabilityMode::MemoryOnly, 3, 1, None);
    let mut q = GroupCommitQueueSet::new(0, 0, &params);

    assert!(q.append(vt(0, 0, vec![1]), &nodes, &mut ts, 0).is_none());
    assert!(q.append(vt(0, 0, vec![2]), &nodes, &mut ts, 0).is_none());
    let fo = q.append(vt(0, 0, vec![3]), &nodes, &mut ts, 0).expect("third append flushes");
    assert_eq!(fo.node, 0);
    assert!(fo.line.is_none());
    assert_eq!(fo.merged.data(), &vec![1, 2, 3]);
    match fo.merged.transaction_state() {
        Some(TransactionState::Committed { at_time, at_source, prev, base }) => {
            assert_eq!(at_time, 1);
            assert_eq!(at_source, 42);
            assert_eq!(prev, 0);
            assert_eq!(base, 0);
        }
        other => panic!("expected a committed state, got {:?}", other),
    }
}

#[test]
fn should_append_only_base_vt_messages() {
    let mut nodes = DomainNodes::new();
    nodes.push(base_node(0, 0));
    let mut ingress = Node::new("i".to_string(), vec!["x".to_string()], NodeType::Ingress);
    ingress.set_finalized_addr(IndexPair::with_local(1, 1));
    nodes.push(ingress);
    let params = Parameters::new(DurabilityMode::MemoryOnly, 2, 1, None);
    let q = GroupCommitQueueSet::new(0, 0, &params);

    assert!(q.should_append(&vt(0, 0, vec![1]), &nodes));
    assert!(!q.should_append(&vt(0, 1, vec![1]), &nodes));
    let msg = Packet::Input { link: Link { src: 0, dst: 0 }, data: vec![1] };
    assert!(!q.should_append(&msg, &nodes));
}

#[test]
fn timeout_flush_produces_log_line() {
    let mut nodes = DomainNodes::new();
    for i in 0..4u64 {
        let mut n = Node::new("o".to_string(), vec!["x".to_string()], NodeType::Ingress);
        n.set_finalized_addr(IndexPair::with_local(i, i));
        nodes.push(n);
    }
    nodes.push(base_node(4, 4));
    let mut ts = DomainState::new(1);
    let params = Parameters::new(DurabilityMode::Permanent, 1000, 10, Some("t".to_string()));
    let mut q = GroupCommitQueueSet::new(7, 0, &params);

    assert!(q.append(vt(1, 4, vec![9]), &nodes, &mut ts, 0).is_none());
    assert!(q.flush_if_necessary(&nodes, &mut ts, 5).is_none());
    let fo = q.flush_if_necessary(&nodes, &mut ts, 12).expect("overdue queue flushes");
    assert_eq!(fo.node, 4);
    assert_eq!(fo.merged.data(), &vec![9]);
    let line = fo.line.expect("a persistent flush carries its log line");
    assert_eq!(line, b"[[9]]\n".to_vec());
    assert_eq!(params.log_path(4, 7, 0), "t-log-7_0-4.json");
}

#[test]
fn flush_merges_records_in_fifo_order() {
    let nodes = one_base_domain();
    let mut ts = DomainState::new(0);
    let params = Parameters::new(DurabilityMode::MemoryOnly, 4, 1, None);
    let mut q = GroupCommitQueueSet::new(0, 0, &params);

    assert!(q.append(vt(0, 0, vec![1, 2]), &nodes, &mut ts, 0).is_none());
    assert!(q.append(vt(0, 0, vec![3]), &nodes, &mut ts, 0).is_none());
    assert!(q.append(vt(0, 0, vec![4, 5]), &nodes, &mut ts, 0).is_none());
    let fo = q.append(vt(0, 0, vec![6]), &nodes, &mut ts, 0).expect("capacity reached");
    assert_eq!(fo.merged.data(), &vec![1, 2, 3, 4, 5, 6]);
}

#[test]
fn appends_below_capacity_do_not_flush() {
    let nodes = one_base_domain();
    let mut ts = DomainState::new(0);
    let params = Parameters::new(DurabilityMode::MemoryOnly, 2, 1, None);
    let mut q = GroupCommitQueueSet::new(0, 0, &params);

    assert!(q.append(vt(0, 0, vec![1]), &nodes, &mut ts, 0).is_none());
    assert!(q.append(vt(0, 0, vec![2]), &nodes, &mut ts, 0).is_some());
    assert!(q.append(vt(0, 0, vec![3]), &nodes, &mut ts, 0).is_none());
    assert!(q.append(vt(0, 0, vec![4]), &nodes, &mut ts, 0).is_some());
}

#[test]
fn duration_until_flush_tracks_oldest_wait() {
    let nodes = one_base_domain();
    let mut ts = DomainState::new(0);
    let params = Parameters::new(DurabilityMode::MemoryOnly, 100, 10, None);
    let mut q = GroupCommitQueueSet::new(0, 0, &params);

    assert_eq!(q.duration_until_flush(0), None);
    assert!(q.append(vt(0, 0, vec![1]), &nodes, &mut ts, 0).is_none());
    assert_eq!(q.duration_until_flush(3), Some(7));
    assert_eq!(q.duration_until_flush(10), Some(0));
    assert_eq!(q.duration_until_flush(15), Some(0));
}

#[test]
fn flush_if_necessary_respects_timeout_boundary() {
    let nodes = one_base_domain();
    let mut ts = DomainState::new(0);
    let params = Parameters::new(DurabilityMode::MemoryOnly, 100, 10, None);
    let mut q = GroupCommitQueueSet::new(0, 0, &params);

    assert!(q.append(vt(0, 0, vec![1]), &nodes, &mut ts, 0).is_none());
    assert!(q.flush_if_necessary(&nodes, &mut ts, 9).is_none());
    let fo = q.flush_if_necessary(&nodes, &mut ts, 10).expect("due exactly at the timeout");
    assert_eq!(fo.node, 0);
    assert!(q.flush_if_necessary(&nodes, &mut ts, 100).is_none());
}

#[test]
fn assignments_chain_per_base() {
    let nodes = one_base_domain();
    let mut ts = DomainState::new(9);
    let params = Parameters::new(DurabilityMode::MemoryOnly, 1, 1, None);
    let mut q = GroupCommitQueueSet::new(0, 0, &params);

    let first = q.append(vt(0, 0, vec![1]), &nodes, &mut ts, 0).expect("capacity one");
    let second = q.append(vt(0, 0, vec![2]), &nodes, &mut ts, 0).expect("capacity one");
    match (first.merged.transaction_state(), second.merged.transaction_state()) {
        (
            Some(TransactionState::Committed { at_time: t1, prev: p1, .. }),
            Some(TransactionState::Committed { at_time: t2, prev: p2, .. }),
        ) => {
            assert_eq!(t1, 1);
            assert_eq!(p1, 0);
            assert_eq!(t2, 2);
            assert_eq!(p2, 1);
        }
        other => panic!("expected two committed states, got {:?}", other),
    }
}

#[test]
fn tracer_with_sender_survives_and_notes_merge() {
    let nodes = one_base_domain();
    let mut ts = DomainState::new(0);
    let params = Parameters::new(DurabilityMode::MemoryOnly, 2, 1, None);
    let mut q = GroupCommitQueueSet::new(0, 0, &params);

    let p1 = Packet::VtMessage {
        link: Link { src: 0, dst: 0 },
        data: vec![1],
        tracer: Some(Tracer { tag: 1, has_sender: true }),
        state: TransactionState::Uncommitted,
    };
    let p2 = Packet::VtMessage {
        link: Link { src: 0, dst: 0 },
        data: vec![2],
        tracer: Some(Tracer { tag: 2, has_sender: true }),
        state: TransactionState::Uncommitted,
    };
    assert!(q.append(p1, &nodes, &mut ts, 0).is_none());
    let fo = q.append(p2, &nodes, &mut ts, 0).expect("flush at capacity");
    assert_eq!(fo.notes.len(), 1);
    assert_eq!(fo.notes[0].surviving, 1);
    assert_eq!(fo.notes[0].absorbed, 2);
    assert_eq!(fo.merged.tracer(), Some(Tracer { tag: 1, has_sender: true }));
}

#[test]
fn lone_sender_tracer_survives() {
    let nodes = one_base_domain();
    let mut ts = DomainState::new(0);
    let params = Parameters::new(DurabilityMode::MemoryOnly, 2, 1, None);
    let mut q = GroupCommitQueueSet::new(0, 0, &params);

    let p1 = Packet::VtMessage {
        link: Link { src: 0, dst: 0 },
        data: vec![1],
        tracer: Some(Tracer { tag: 1, has_sender: false }),
        state: TransactionState::Uncommitted,
    };
    let p2 = Packet::VtMessage {
        link: Link { src: 0, dst: 0 },
        data: vec![2],
        tracer: Some(Tracer { tag: 2, has_sender: true }),
        state: TransactionState::Uncommitted,
    };
    assert!(q.append(p1, &nodes, &mut ts, 0).is_none());
    let fo = q.append(p2, &nodes, &mut ts, 0).expect("flush at capacity");
    assert!(fo.notes.is_empty());
    assert_eq!(fo.merged.tracer(), Some(Tracer { tag: 2, has_sender: true }));
}

#[test]
fn try_append_rejects_non_base_writes() {
    let nodes = one_base_domain();
    let mut ts = DomainState::new(0);
    let params = Parameters::new(DurabilityMode::MemoryOnly, 4, 1, None);
    let mut q = GroupCommitQueueSet::new(0, 0, &params);

    let msg = Packet::Input { link: Link { src: 0, dst: 0 }, data: vec![1] };
    assert!(matches!(q.try_append(msg, &nodes, &mut ts, 0), Err(DomainError::InvariantViolation)));
    let stray = vt(0, 7, vec![1]);
    assert!(matches!(
        q.try_append(stray, &nodes, &mut ts, 0),
        Err(DomainError::InvariantViolation)
    ));
}

#[test]
fn try_append_rejects_mixed_links() {
    let mut nodes = one_base_domain();
    let mut other = Node::new("i".to_string(), vec!["x".to_string()], NodeType::Ingress);
    other.set_finalized_addr(IndexPair::with_local(1, 1));
    nodes.push(other);
    let mut ts = DomainState::new(0);
    let params = Parameters::new(DurabilityMode::MemoryOnly, 4, 1, None);
    let mut q = GroupCommitQueueSet::new(0, 0, &params);

    assert!(matches!(q.try_append(vt(0, 0, vec![1]), &nodes, &mut ts, 0), Ok(None)));
    assert!(matches!(
        q.try_append(vt(1, 0, vec![2]), &nodes, &mut ts, 0),
        Err(DomainError::InvariantViolation)
    ));
    assert!(matches!(q.try_append(vt(0, 0, vec![3]), &nodes, &mut ts, 0), Ok(None)));
}

#[test]
fn default_parameters_match_documented_values() {
    let params = Parameters::default();
    assert_eq!(params.queue_capacity, 256);
    assert_eq!(params.flush_timeout, 1);
    assert!(matches!(params.mode, DurabilityMode::MemoryOnly));
    assert_eq!(params.log_prefix, "soup");
    assert_eq!(params.log_path(3, 1, 2), "soup-log-1_2-3.json");
    assert_eq!(params.log_path(12, 345, 6), "soup-log-345_6-12.json");
}
