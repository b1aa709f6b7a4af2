use packet_plane::node::{
    DomainNodes, Egress, EgressOutput, FlowGraph, IndexPair, Node, NodeType,
};
use packet_plane::packet::{DomainError, Link, Packet, PacketId, TransactionState};

fn msg(label: u64, from: u64, src: u64, dst: u64, payload: i64) -> Packet {
    Packet::Message {
        id: PacketId::new(label, from),
        link: Link { src, dst },
        data: vec![payload],
        tracer: None,
    }
}

/// An egress node `S` (global index 0) finalized against a graph where its
/// only registered successor is `C` (global index 1); `D` (global index 2)
/// exists but is not wired in, so it starts paused.
fn egress_with_active_child() -> Node {
    let mut graph = FlowGraph::new();
    let mut s = Node::new(
        "s".to_string(),
        vec!["x".to_string()],
        NodeType::Egress(Some(Egress {})),
    );
    s.set_finalized_addr(IndexPair::with_local(0, 0));
    s.add_to(0);
    let mut c = Node::new("c".to_string(), vec!["x".to_string()], NodeType::Ingress);
    c.set_finalized_addr(IndexPair::with_local(1, 0));
    c.add_to(1);
    let mut d = Node::new("d".to_string(), vec!["x".to_string()], NodeType::Ingress);
    d.set_finalized_addr(IndexPair::with_local(2, 0));
    d.add_to(2);
    let s_at = graph.add_node(s);
    let c_at = graph.add_node(c);
    graph.add_node(d);
    graph.add_edge(s_at, c_at);

    let mut blueprint = Node::new(
        "s".to_string(),
        vec!["x".to_string()],
        NodeType::Egress(Some(Egress {})),
    );
    blueprint.set_finalized_addr(IndexPair::with_local(0, 0));
    blueprint.add_to(0);
    blueprint.take().finalize(&graph)
}

#[test]
fn finalize_activates_graph_successors() {
    let n = egress_with_active_child();
    assert_eq!(n.next_label_for(1), Some(1));
    assert_eq!(n.next_label_for(2), None);
}

#[test]
fn finalize_collects_same_domain_children() {
    let mut graph = FlowGraph::new();
    let mut s = Node::new("s".to_string(), vec!["x".to_string()], NodeType::Ingress);
    s.set_finalized_addr(IndexPair::with_local(0, 0));
    s.add_to(0);
    let mut near = Node::new("n".to_string(), vec!["x".to_string()], NodeType::Ingress);
    near.set_finalized_addr(IndexPair::with_local(1, 5));
    near.add_to(0);
    let mut far = Node::new("f".to_string(), vec!["x".to_string()], NodeType::Ingress);
    far.set_finalized_addr(IndexPair::with_local(2, 0));
    far.add_to(3);
    let s_at = graph.add_node(s);
    let near_at = graph.add_node(near);
    let far_at = graph.add_node(far);
    graph.add_edge(s_at, near_at);
    graph.add_edge(s_at, far_at);

    let mut blueprint = Node::new("s".to_string(), vec!["x".to_string()], NodeType::Ingress);
    blueprint.set_finalized_addr(IndexPair::with_local(0, 0));
    blueprint.add_to(0);
    let n = blueprint.take().finalize(&graph);
    assert_eq!(n.children(), &vec![5]);
    assert_eq!(n.next_label_for(1), Some(1));
    assert_eq!(n.next_label_for(2), Some(1));
}

#[test]
fn sequential_sends_go_out() {
    let mut n = egress_with_active_child();
    for label in 1..=3u64 {
        let p = msg(label, 0, 0, 0, label as i64);
        assert!(n.send_external_packet(&p, 1));
    }
    assert_eq!(n.next_label_for(1), Some(4));
    assert_eq!(n.buffer_len(), 3);
}

#[test]
fn broadcast_to_paused_destination_is_held() {
    let mut n = egress_with_active_child();
    for label in 1..=3u64 {
        let p = msg(label, 0, 0, 0, label as i64);
        assert!(n.send_external_packet(&p, 1));
    }
    let p4 = msg(4, 0, 0, 0, 4);
    assert!(!n.send_external_packet(&p4, 2));
    assert!(n.send_external_packet(&p4, 1));
    assert_eq!(n.next_label_for(1), Some(5));
    assert_eq!(n.next_label_for(2), None);
    let to4 = n.buffered_to_at(3);
    assert_eq!(to4.len(), 2);
    assert!(to4.contains(1));
    assert!(to4.contains(2));
}

#[test]
fn resume_replays_buffer_in_order_to_one_node() {
    let mut n = egress_with_active_child();
    for label in 1..=3u64 {
        let p = msg(label, 0, 0, 0, label as i64);
        assert!(n.send_external_packet(&p, 1));
    }
    let p4 = msg(4, 0, 0, 0, 4);
    assert!(!n.send_external_packet(&p4, 2));
    assert!(n.send_external_packet(&p4, 1));

    let mut out = EgressOutput::new();
    n.resume_at(2, 1, Some(0), &mut out);
    assert_eq!(out.len(), 4);
    for i in 0..4usize {
        let e = out.emission_at(i);
        assert_eq!(e.shard, 0);
        assert_eq!(e.to.len(), 1);
        assert!(e.to.contains(2));
        match &e.packet {
            Packet::Message { id, .. } => assert_eq!(id.label(), i as u64 + 1),
            other => panic!("expected a data packet, got a {:?} payload", other.link()),
        }
    }
    assert_eq!(n.next_label_for(2), Some(5));
}

#[test]
fn resume_from_middle_replays_the_tail() {
    let mut n = egress_with_active_child();
    for label in 1..=3u64 {
        let p = msg(label, 0, 0, 0, label as i64);
        assert!(n.send_external_packet(&p, 1));
    }
    let mut out = EgressOutput::new();
    n.resume_at(2, 3, None, &mut out);
    assert_eq!(out.len(), 1);
    match &out.emission_at(0).packet {
        Packet::Message { id, .. } => assert_eq!(id.label(), 3),
        _ => panic!("expected a data packet"),
    }
    assert_eq!(n.next_label_for(2), Some(4));
}

#[test]
fn try_resume_rejects_non_egress_nodes() {
    let mut n = Node::new("r".to_string(), vec!["x".to_string()], NodeType::Ingress);
    n.set_finalized_addr(IndexPair::with_local(0, 0));
    let mut out = EgressOutput::new();
    assert!(matches!(
        n.try_resume_at(2, 1, None, &mut out),
        Err(DomainError::NodeTypeMismatch)
    ));
    assert_eq!(out.len(), 0);
}

#[test]
fn receive_accepts_increasing_labels_with_gaps() {
    let mut n = egress_with_active_child();
    for label in [1u64, 3, 7] {
        let p = msg(label, 5, 0, 0, 0);
        n.receive_packet(&p);
    }
    assert_eq!(n.last_label_from(5), Some(7));
}

#[test]
fn receive_rejects_stale_labels() {
    let mut n = egress_with_active_child();
    n.receive_packet(&msg(7, 5, 0, 0, 0));
    assert!(matches!(
        n.try_receive_packet(&msg(7, 5, 0, 0, 0)),
        Err(DomainError::OrderingViolation)
    ));
    assert!(matches!(
        n.try_receive_packet(&msg(2, 5, 0, 0, 0)),
        Err(DomainError::OrderingViolation)
    ));
    assert_eq!(n.last_label_from(5), Some(7));
}

#[test]
fn receive_ignores_client_inputs_and_rejects_writes() {
    let mut n = egress_with_active_child();
    let input = Packet::Input { link: Link { src: 0, dst: 0 }, data: vec![1] };
    assert!(matches!(n.try_receive_packet(&input), Ok(())));
    assert_eq!(n.last_label_from(0), None);
    let write = Packet::VtMessage {
        link: Link { src: 0, dst: 0 },
        data: vec![1],
        tracer: None,
        state: TransactionState::Uncommitted,
    };
    assert!(matches!(
        n.try_receive_packet(&write),
        Err(DomainError::InvariantViolation)
    ));
}

#[test]
fn rekey_carries_label_and_removes_old_peer() {
    let mut n = egress_with_active_child();
    n.receive_packet(&msg(3, 5, 0, 0, 0));
    let resume_label = n.new_incoming(5, 6);
    assert_eq!(resume_label, 4);
    assert_eq!(n.last_label_from(5), None);
    assert_eq!(n.last_label_from(6), Some(3));
}

#[test]
fn rekey_of_unknown_peer_starts_at_one() {
    let mut n = egress_with_active_child();
    let resume_label = n.new_incoming(5, 6);
    assert_eq!(resume_label, 1);
}

#[test]
fn next_packet_id_is_one_past_the_buffer() {
    let mut n = egress_with_active_child();
    let id = n.next_packet_id();
    assert_eq!(id.label(), 1);
    assert_eq!(id.from(), 0);
    assert!(n.send_external_packet(&msg(1, 0, 0, 0, 1), 1));
    let id = n.next_packet_id();
    assert_eq!(id.label(), 2);
}

#[test]
fn try_send_rejects_label_gaps_and_stale_labels() {
    let mut n = egress_with_active_child();
    assert!(matches!(n.try_send_external_packet(&msg(2, 0, 0, 0, 1), 1), Err(
        DomainError::OrderingViolation
    )));
    assert!(matches!(n.try_send_external_packet(&msg(1, 0, 0, 0, 1), 1), Ok(true)));
    assert!(matches!(n.try_send_external_packet(&msg(2, 0, 0, 0, 2), 1), Ok(true)));
    assert!(matches!(n.try_send_external_packet(&msg(1, 0, 0, 0, 1), 1), Err(
        DomainError::OrderingViolation
    )));
    assert!(matches!(n.try_send_external_packet(&msg(1, 7, 0, 0, 1), 1), Err(
        DomainError::InvariantViolation
    )));
}

fn addressed_ingress(name: &str, global: u64, local: u64, domain: u64) -> Node {
    let mut n = Node::new(name.to_string(), vec!["x".to_string()], NodeType::Ingress);
    n.set_finalized_addr(IndexPair::with_local(global, local));
    n.add_to(domain);
    n
}

#[test]
fn send_internal_always_goes_out() {
    let mut graph = FlowGraph::new();
    let s_at = graph.add_node(addressed_ingress("s", 0, 0, 0));
    let c_at = graph.add_node(addressed_ingress("c", 1, 1, 0));
    graph.add_edge(s_at, c_at);

    let mut blueprint = addressed_ingress("s", 0, 0, 0);
    let mut sender = blueprint.take().finalize(&graph);

    let mut nodes = DomainNodes::new();
    nodes.push(addressed_ingress("s", 0, 0, 0));
    nodes.push(addressed_ingress("c", 1, 1, 0));

    sender.send_internal_packet(&msg(1, 0, 0, 1, 1), 1, &nodes);
    assert_eq!(sender.next_label_for(1), Some(2));
}

#[test]
fn mirror_keeps_identity_and_resets_routing() {
    let mut n = Node::new(
        "orig".to_string(),
        vec!["a".to_string(), "b".to_string()],
        NodeType::Ingress,
    );
    n.set_finalized_addr(IndexPair::with_local(4, 2));
    n.receive_packet(&msg(1, 5, 0, 0, 0));

    let m = n.mirror(NodeType::Sharder(packet_plane::node::Sharder {}));
    assert_eq!(m.name(), "orig");
    assert_eq!(m.fields().len(), 2);
    assert!(m.is_sharder());
    assert!(!m.has_domain());
    assert_eq!(m.last_label_from(5), None);
    assert_eq!(m.buffer_len(), 0);

    let named = n.named_mirror(NodeType::Reader(packet_plane::node::Reader {}), "copy".to_string());
    assert_eq!(named.name(), "copy");
    assert!(named.is_reader());
}

#[test]
fn node_kind_predicates_follow_the_operator() {
    let base = Node::new(
        "b".to_string(),
        vec!["x".to_string()],
        NodeType::Internal(packet_plane::node::NodeOperator::Base(packet_plane::node::Base {})),
    );
    assert!(base.is_internal());
    assert!(base.is_base());
    assert!(base.get_base().is_some());
    assert!(!base.is_egress());
    assert!(!base.is_sender());
    assert!(!base.is_output());

    let egress = Node::new(
        "e".to_string(),
        vec!["x".to_string()],
        NodeType::Egress(Some(Egress {})),
    );
    assert!(egress.is_egress());
    assert!(egress.is_sender());
    assert!(egress.is_output());
    assert!(!egress.is_internal());

    let union = Node::new(
        "u".to_string(),
        vec!["x".to_string()],
        NodeType::Internal(packet_plane::node::NodeOperator::Union(
            packet_plane::node::Union { shard_merger: true },
        )),
    );
    assert!(union.is_shard_merger());
    assert!(union.is_internal());

    let mut dropped = Node::new("d".to_string(), vec!["x".to_string()], NodeType::Source);
    assert!(dropped.is_source());
    dropped.remove();
    assert!(dropped.is_dropped());
}

#[test]
fn skipped_labels_for_active_destination() {
    let mut graph = FlowGraph::new();
    let s_at = graph.add_node(addressed_ingress("s", 0, 0, 0));
    let c_at = graph.add_node(addressed_ingress("c", 1, 1, 1));
    let d_at = graph.add_node(addressed_ingress("d", 2, 2, 2));
    graph.add_edge(s_at, c_at);
    graph.add_edge(s_at, d_at);
    let mut blueprint = addressed_ingress("s", 0, 0, 0);
    let mut n = blueprint.take().finalize(&graph);

    // labels 1..=3 go to C alone; D stays active but is skipped
    for label in 1..=3u64 {
        assert!(n.send_external_packet(&msg(label, 0, 0, 0, 0), 1));
    }
    // label 4 reaches D: the skipped labels never listed D, and D's next
    // label jumps past everything it was not sent
    assert!(n.send_external_packet(&msg(4, 0, 0, 0, 0), 2));
    assert_eq!(n.next_label_for(2), Some(5));
    for i in 0..3usize {
        assert!(!n.buffered_to_at(i).contains(2));
    }
}

#[test]
fn operator_access_follows_node_kind() {
    let sharder = Node::new(
        "sh".to_string(),
        vec!["x".to_string()],
        NodeType::Sharder(packet_plane::node::Sharder {}),
    );
    assert_eq!(sharder.with_sharder(|_s| 7u32), Some(7));
    assert_eq!(sharder.with_reader(|_r| 7u32), Err(()));
    let reader = Node::new(
        "rd".to_string(),
        vec!["x".to_string()],
        NodeType::Reader(packet_plane::node::Reader {}),
    );
    assert_eq!(reader.with_reader(|_r| 5u32), Ok(5));
    assert_eq!(reader.with_sharder(|_s| 5u32), None);
}
