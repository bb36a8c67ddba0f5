use gas_network::election::heartbeat::{exceeds_secs, HeartbeatMonitor, HeartbeatSender};
use gas_network::election::messages::{ElectionMessage, NodeInfoMsg, StateUpdateData};
use gas_network::election::ring_election::{
    sort_by_id, MonitorStep, NodeInfo, RingAction, RingElectionNode, SendPlan,
};
use std::time::Duration;

fn info(id: u8, addr: &str, client: &str) -> NodeInfo {
    NodeInfo { id, addr: addr.to_string(), client_addr: client.to_string() }
}

fn msg(id: u8, addr: &str, client: &str) -> NodeInfoMsg {
    NodeInfoMsg { id, addr: addr.to_string(), client_addr: client.to_string() }
}

fn cluster() -> Vec<NodeInfo> {
    vec![
        info(1, "127.0.0.1:8081", "127.0.0.1:6789"),
        info(2, "127.0.0.1:8082", "127.0.0.1:6790"),
        info(3, "127.0.0.1:8083", "127.0.0.1:6791"),
        info(4, "127.0.0.1:8084", "127.0.0.1:6792"),
    ]
}

fn follower(id: u8, port: u16, successor: &str, leader: u8) -> RingElectionNode {
    RingElectionNode::new(id, port, successor.to_string(), leader, true, cluster(), format!("127.0.0.1:{}", 6787 + id as u16))
}

#[test]
fn ring_new_sets_leadership_from_initial_leader() {
    let leader = follower(4, 8084, "127.0.0.1:8081", 4);
    assert!(leader.is_leader);
    assert_eq!(leader.current_leader_id, 4);
    let other = follower(2, 8082, "127.0.0.1:8083", 4);
    assert!(!other.is_leader);
    let discovering = follower(2, 8082, "127.0.0.1:8083", 0);
    assert!(!discovering.is_leader);
    assert!(matches!(discovering.startup_actions()[0], RingAction::StartDiscovery));
    assert!(matches!(leader.startup_actions()[0], RingAction::StartHeartbeats));
    assert!(matches!(other.startup_actions()[0], RingAction::StartLeaderMonitor));
    assert_eq!(leader.heartbeat_interval_secs(), 2);
}

#[test]
fn ring_single_node_elects_itself_on_its_own_election() {
    let mut node = RingElectionNode::new(5, 8085, "127.0.0.1:8085".to_string(), 0, false, vec![], "127.0.0.1:6793".to_string());
    let actions = node.start_election();
    assert_eq!(actions.len(), 2);
    let sent = match &actions[0] {
        RingAction::Send(m) => m.clone(),
        other => panic!("unexpected action {:?}", other),
    };
    match node.plan_send(&sent) {
        SendPlan::Handled(acts) => {
            assert_eq!(acts.len(), 2);
            assert!(matches!(acts[1], RingAction::StartHeartbeats));
        }
        other => panic!("unexpected plan {:?}", other),
    }
    assert!(node.is_leader);
    assert_eq!(node.current_leader_id, 5);
}

#[test]
fn ring_successor_on_another_port_is_not_single_node() {
    let mut node = RingElectionNode::new(5, 8085, "localhost:8086".to_string(), 0, false, vec![], String::new());
    let plan = node.plan_send(&ElectionMessage::Heartbeat { leader_id: 5, sequence: 1 });
    match plan {
        SendPlan::Attempt(targets) => assert_eq!(targets, vec!["localhost:8086".to_string()]),
        other => panic!("unexpected plan {:?}", other),
    }
}

#[test]
fn ring_election_forwards_the_larger_id() {
    let mut node = follower(3, 8083, "127.0.0.1:8084", 0);
    let actions = node.handle_election(1, vec![msg(1, "127.0.0.1:8081", "c1")]);
    match &actions[0] {
        RingAction::Send(ElectionMessage::Election { candidate_id, visited_nodes }) => {
            assert_eq!(*candidate_id, 3);
            assert_eq!(visited_nodes.len(), 2);
            assert_eq!(visited_nodes[1].id, 3);
            assert_eq!(visited_nodes[1].addr, "127.0.0.1:8083");
            assert_eq!(visited_nodes[1].client_addr, "127.0.0.1:6790");
        }
        other => panic!("unexpected action {:?}", other),
    }
    let actions = node.handle_election(9, vec![msg(9, "a", "b")]);
    match &actions[0] {
        RingAction::Send(ElectionMessage::Election { candidate_id, .. }) => assert_eq!(*candidate_id, 9),
        other => panic!("unexpected action {:?}", other),
    }
}

#[test]
fn ring_own_election_returning_makes_the_node_leader() {
    let mut node = follower(4, 8084, "127.0.0.1:8081", 0);
    let visited = vec![msg(4, "127.0.0.1:8084", "x"), msg(1, "127.0.0.1:8081", "y")];
    let actions = node.handle_election(4, visited);
    assert!(node.is_leader);
    assert_eq!(node.current_leader_id, 4);
    assert_eq!(actions.len(), 2);
    match &actions[0] {
        RingAction::Send(ElectionMessage::Elected { leader_id, cluster_nodes }) => {
            assert_eq!(*leader_id, 4);
            assert_eq!(cluster_nodes.len(), 2);
        }
        other => panic!("unexpected action {:?}", other),
    }
    assert_eq!(node.get_cluster_client_addrs(), vec!["x".to_string(), "y".to_string()]);
}

#[test]
fn ring_completed_discovery_passes_the_election_on() {
    let mut node = follower(2, 8082, "127.0.0.1:8083", 0);
    let visited = vec![msg(4, "a4", "c4"), msg(2, "a2", "c2")];
    let actions = node.handle_election(4, visited);
    assert!(!node.is_leader);
    assert_eq!(node.get_cluster_client_addrs(), vec!["c4".to_string(), "c2".to_string()]);
    match &actions[0] {
        RingAction::Send(ElectionMessage::Election { candidate_id, visited_nodes }) => {
            assert_eq!(*candidate_id, 4);
            assert_eq!(visited_nodes.len(), 2);
        }
        other => panic!("unexpected action {:?}", other),
    }
}

#[test]
fn ring_elected_updates_the_leader_and_forwards() {
    let mut node = follower(2, 8082, "127.0.0.1:8083", 0);
    let actions = node.handle_elected(4, vec![msg(4, "a4", "c4")]);
    assert_eq!(node.current_leader_id, 4);
    assert!(!node.is_leader);
    assert_eq!(node.get_leader_addr(), Some("c4".to_string()));
    assert_eq!(actions.len(), 1);
    assert!(matches!(&actions[0], RingAction::Send(ElectionMessage::Elected { leader_id: 4, .. })));
    let mut leader = follower(4, 8084, "127.0.0.1:8081", 4);
    assert_eq!(leader.handle_elected(4, vec![]).len(), 0);
}

#[test]
fn ring_heartbeat_is_forwarded_once() {
    let mut node = follower(2, 8082, "127.0.0.1:8083", 4);
    let first = node.handle_heartbeat(4, 7);
    assert_eq!(first.len(), 1);
    assert!(matches!(first[0], RingAction::Send(ElectionMessage::Heartbeat { leader_id: 4, sequence: 7 })));
    assert_eq!(node.handle_heartbeat(4, 7).len(), 0);
    assert_eq!(node.handle_heartbeat(4, 6).len(), 0);
    assert_eq!(node.handle_heartbeat(4, 8).len(), 1);
}

#[test]
fn ring_leader_ignores_lower_heartbeats_and_yields_to_higher() {
    let mut leader = follower(3, 8083, "127.0.0.1:8084", 3);
    assert_eq!(leader.handle_heartbeat(2, 10).len(), 0);
    assert!(leader.is_leader);
    let actions = leader.handle_heartbeat(4, 10);
    assert!(!leader.is_leader);
    assert_eq!(leader.current_leader_id, 4);
    assert_eq!(actions.len(), 1);
}

#[test]
fn ring_follower_adopts_a_new_leader_from_heartbeats() {
    let mut node = follower(2, 8082, "127.0.0.1:8083", 0);
    node.handle_heartbeat(3, 1);
    assert_eq!(node.current_leader_id, 3);
}

#[test]
fn ring_cluster_sync_sorts_and_adds_the_node() {
    let mut node = RingElectionNode::new(2, 8082, "127.0.0.1:8083".to_string(), 0, false, vec![], "127.0.0.1:6790".to_string());
    let actions = node.handle_cluster_sync(vec![msg(4, "a4", "c4"), msg(1, "a1", "c1")], 4, 4);
    assert_eq!(node.current_leader_id, 4);
    assert_eq!(
        node.get_cluster_client_addrs(),
        vec!["c1".to_string(), "127.0.0.1:6790".to_string(), "c4".to_string()]
    );
    match &actions[0] {
        RingAction::Send(ElectionMessage::ClusterSync { cluster_nodes, leader_id, origin_id, client_addr }) => {
            assert_eq!(cluster_nodes.iter().map(|n| n.id).collect::<Vec<_>>(), vec![1, 2, 4]);
            assert_eq!(cluster_nodes[1].addr, "127.0.0.1:8082");
            assert_eq!((*leader_id, *origin_id), (4, 4));
            assert_eq!(client_addr, "127.0.0.1:6790");
        }
        other => panic!("unexpected action {:?}", other),
    }
    assert_eq!(node.handle_cluster_sync(vec![], 4, 2).len(), 0);
}

#[test]
fn ring_sort_by_id_is_stable() {
    let sorted = sort_by_id(vec![info(3, "x", ""), info(1, "a", ""), info(3, "y", ""), info(2, "b", "")]);
    let got: Vec<(u8, String)> = sorted.iter().map(|n| (n.id, n.addr.clone())).collect();
    assert_eq!(got, vec![(1, "a".to_string()), (2, "b".to_string()), (3, "x".to_string()), (3, "y".to_string())]);
}

#[test]
fn ring_candidates_follow_the_ring_after_the_node() {
    let node = follower(2, 8082, "127.0.0.1:8083", 4);
    let all = node.get_candidate_nodes(false);
    assert_eq!(
        all,
        vec![
            ("127.0.0.1:8083".to_string(), 3),
            ("127.0.0.1:8084".to_string(), 4),
            ("127.0.0.1:8081".to_string(), 1),
        ]
    );
    let skipping = node.get_candidate_nodes(true);
    assert_eq!(skipping, vec![("127.0.0.1:8084".to_string(), 4), ("127.0.0.1:8081".to_string(), 1)]);
    let highest = follower(4, 8084, "127.0.0.1:8081", 4);
    assert_eq!(highest.get_candidate_nodes(false)[0].1, 1);
}

#[test]
fn ring_node_client_address_falls_back_to_the_ring_port() {
    let nodes = vec![
        info(1, "127.0.0.1:8081", ""),
        info(2, "10.0.0.2:8082", "10.0.0.2:7000"),
        info(3, "hostonly", ""),
        info(4, "127.0.0.1:port", ""),
        info(5, "h:1000", ""),
    ];
    let node = RingElectionNode::new(9, 8089, "127.0.0.1:8081".to_string(), 0, false, nodes, String::new());
    assert_eq!(node.get_node_client_address(1), Some("127.0.0.1:6789".to_string()));
    assert_eq!(node.get_node_client_address(2), Some("10.0.0.2:7000".to_string()));
    assert_eq!(node.get_node_client_address(3), Some("127.0.0.1:6789".to_string()));
    assert_eq!(node.get_node_client_address(4), Some("127.0.0.1:6789".to_string()));
    assert_eq!(node.get_node_client_address(5), Some("h:0".to_string()));
    assert_eq!(node.get_node_client_address(7), None);
}

#[test]
fn ring_send_failover_counts_failures_and_self_elects() {
    let mut node = follower(2, 8082, "127.0.0.1:8083", 4);
    let election = ElectionMessage::Election { candidate_id: 2, visited_nodes: vec![] };
    match node.plan_send(&election) {
        SendPlan::Attempt(targets) => assert_eq!(
            targets,
            vec!["127.0.0.1:8083".to_string(), "127.0.0.1:8084".to_string(), "127.0.0.1:8081".to_string()]
        ),
        other => panic!("unexpected plan {:?}", other),
    }
    let (result, actions) = node.finish_send(&election, None);
    assert!(result.is_ok());
    assert!(node.is_leader);
    assert_eq!(actions.len(), 2);

    let mut other = follower(1, 8081, "127.0.0.1:8082", 4);
    let hb = ElectionMessage::Heartbeat { leader_id: 4, sequence: 12 };
    let (result, _) = other.finish_send(&hb, None);
    assert_eq!(result, Err("No hay nodos vivos en el cluster para enviar Heartbeat(4, seq:12)".to_string()));
    let (result, actions) = other.finish_send(&hb, Some(1));
    assert!(result.is_ok());
    assert!(actions.is_empty());
}

#[test]
fn ring_state_updates_never_travel_on_the_ring() {
    let mut node = follower(1, 8081, "127.0.0.1:8082", 4);
    let update = ElectionMessage::StateUpdate { operation_type: 0, account_id: 1, data: vec![], timestamp: 0 };
    match node.plan_send(&update) {
        SendPlan::Refused(e) => assert_eq!(e, "StateUpdate debe manejarse por el Thread 3 de replicación"),
        other => panic!("unexpected plan {:?}", other),
    }
}

#[test]
fn ring_followers_deliver_updates_and_snapshots() {
    let mut node = follower(1, 8081, "127.0.0.1:8082", 4);
    let acts = node.handle_ring_message(ElectionMessage::StateSyncResponse { accounts: vec![1, 2] });
    match &acts[0] {
        RingAction::Deliver(u) => {
            assert_eq!(u.operation_type, 255);
            assert_eq!(u.data, vec![1, 2]);
        }
        other => panic!("unexpected action {:?}", other),
    }
    assert_eq!(node.handle_state_update(3, 9, vec![7], 5).len(), 1);
    let leader = follower(4, 8084, "127.0.0.1:8081", 4);
    assert_eq!(leader.handle_state_update(3, 9, vec![7], 5).len(), 0);
    let update = StateUpdateData { operation_type: 0, account_id: 1, data: vec![], timestamp: 2 };
    assert_eq!(leader.replicate_state_async(update.clone()).len(), 1);
    assert_eq!(node.replicate_state_async(update).len(), 0);
}

#[test]
fn ring_heartbeat_loop_numbers_heartbeats_and_broadcasts_topology() {
    let mut leader = follower(4, 8084, "127.0.0.1:8081", 4);
    for expected in 0..4u64 {
        match leader.heartbeat_tick() {
            Some(ElectionMessage::Heartbeat { leader_id, sequence }) => {
                assert_eq!(leader_id, 4);
                assert_eq!(sequence, expected);
            }
            other => panic!("unexpected tick {:?}", other),
        }
    }
    assert_eq!(leader.heartbeat_sent(3, true).len(), 1);
    assert_eq!(leader.heartbeat_sent(4, false).len(), 0);
    let mut follower_node = follower(1, 8081, "127.0.0.1:8082", 4);
    assert!(follower_node.heartbeat_tick().is_none());
}

#[test]
fn ring_monitor_backs_off_by_id() {
    let node = follower(5, 8085, "127.0.0.1:8081", 4);
    assert!(matches!(node.monitor_step(true), MonitorStep::Elect { backoff_ms: 12500 }));
    assert!(matches!(node.monitor_step(false), MonitorStep::Wait));
    let leader = follower(4, 8084, "127.0.0.1:8081", 4);
    assert!(matches!(leader.monitor_step(true), MonitorStep::Stop));
    assert_eq!(node.discovery_timeout_secs(), 8);
}

#[test]
fn heartbeat_sender_counts_from_zero() {
    let mut sender = HeartbeatSender::new(2);
    assert_eq!(sender.next_sequence(), 0);
    assert_eq!(sender.next_sequence(), 1);
    assert_eq!(sender.interval(), Duration::from_secs(2));
}

#[test]
fn heartbeat_monitor_starts_fresh() {
    let mut monitor = HeartbeatMonitor::new(8);
    assert!(monitor.is_running());
    assert!(!monitor.is_timeout());
    monitor.update();
    assert!(monitor.elapsed_since_last_heartbeat() < Duration::from_secs(8));
    let zero = HeartbeatMonitor::new(0);
    let start = std::time::Instant::now();
    while start.elapsed() < Duration::from_millis(5) {}
    assert!(zero.is_timeout());
}

#[test]
fn heartbeat_exceeds_secs_compares_durations() {
    assert!(!exceeds_secs(8, 0, 8));
    assert!(exceeds_secs(8, 1, 8));
    assert!(exceeds_secs(9, 0, 8));
    assert!(!exceeds_secs(7, 999_999_999, 8));
}
