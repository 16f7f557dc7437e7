use hexboltmq::cluster::{Cluster, Node, HEARTBEAT_TIMEOUT};

const SECOND: u64 = 1_000_000_000;

fn node(id: u128, address: &str, last_heartbeat: u64) -> Node {
    Node {
        id,
        is_leader: false,
        address: address.to_string(),
        last_heartbeat,
    }
}

#[test]
fn founder_is_the_only_member() {
    let cluster = Cluster::new_at("127.0.0.1:7000".to_string(), 42, 5);
    assert_eq!(cluster.node_count(), 1);
    assert!(cluster.contains_node(42));
    assert!(!cluster.contains_node(43));
    assert_eq!(cluster.leader(), None);
    assert!(cluster.send_heartbeat().is_empty());
}

#[test]
fn fresh_cluster_has_one_random_member() {
    let mut cluster = Cluster::new("127.0.0.1:7000".to_string());
    assert_eq!(cluster.node_count(), 1);
    cluster.elect_leader();
    let leader = cluster.leader().unwrap();
    assert!(cluster.contains_node(leader));
    assert_eq!(
        leader & 0x0000_0000_0000_f000_c000_0000_0000_0000,
        0x0000_0000_0000_4000_8000_0000_0000_0000
    );
    // The founder was heard of at reading zero and stays for thirty seconds.
    assert!(cluster.perform_health_check().is_empty());
    assert_eq!(cluster.node_count(), 1);
}

#[test]
fn nodes_come_and_go_by_identifier() {
    let mut cluster = Cluster::new_at("a:1".to_string(), 1, 0);
    cluster.add_node(node(2, "b:1", 0));
    cluster.add_node(node(3, "c:1", 0));
    assert_eq!(cluster.node_count(), 3);

    cluster.add_node(node(2, "b:2", 7));
    assert_eq!(cluster.node_count(), 3);

    cluster.remove_node(3);
    cluster.remove_node(99);
    assert_eq!(cluster.node_count(), 2);
    assert!(cluster.contains_node(1) && cluster.contains_node(2));
    assert!(!cluster.contains_node(3));

    let targets = cluster.send_heartbeat();
    assert_eq!(targets, vec!["b:2".to_string()]);
}

#[test]
fn heartbeat_goes_to_every_peer_once() {
    let mut cluster = Cluster::new_at("self:1".to_string(), 10, 0);
    for k in 0..20u128 {
        cluster.add_node(node(100 + k, &format!("peer-{}:1", k), 0));
    }
    let mut targets = cluster.send_heartbeat();
    targets.sort();
    let mut expected: Vec<String> = (0..20).map(|k| format!("peer-{}:1", k)).collect();
    expected.sort();
    assert_eq!(targets, expected);
}

#[test]
fn election_picks_a_member_or_leaves_the_leader() {
    let mut cluster = Cluster::new_at("a:1".to_string(), 1, 0);
    cluster.add_node(node(2, "b:1", 0));
    cluster.elect_leader();
    let leader = cluster.leader().unwrap();
    assert!(leader == 1 || leader == 2);

    cluster.remove_node(1);
    cluster.remove_node(2);
    cluster.elect_leader();
    assert_eq!(cluster.leader(), Some(leader));
    assert_eq!(cluster.node_count(), 0);

    cluster.add_node(node(3, "c:1", 0));
    cluster.elect_leader();
    assert_eq!(cluster.leader(), Some(3));
}

#[test]
fn health_check_removes_the_silent() {
    assert_eq!(HEARTBEAT_TIMEOUT, 30 * SECOND);

    let mut cluster = Cluster::new_at("a:1".to_string(), 1, 100 * SECOND);
    cluster.add_node(node(2, "b:1", 70 * SECOND));
    cluster.add_node(node(3, "c:1", 70 * SECOND + 1));
    cluster.add_node(node(4, "d:1", 200 * SECOND));
    cluster.add_node(node(5, "e:1", 0));

    let removed = cluster.perform_health_check_at(100 * SECOND);
    assert!(cluster.contains_node(1));
    assert!(!cluster.contains_node(2));
    assert!(cluster.contains_node(3));
    assert!(cluster.contains_node(4));
    assert!(!cluster.contains_node(5));
    assert_eq!(cluster.node_count(), 3);
    let mut gone: Vec<(u128, String)> = removed
        .into_iter()
        .map(|n| (n.id, n.address))
        .collect();
    gone.sort();
    assert_eq!(gone, vec![(2, "b:1".to_string()), (5, "e:1".to_string())]);

    assert!(cluster.perform_health_check_at(100 * SECOND).is_empty());
    assert_eq!(cluster.node_count(), 3);

    assert_eq!(cluster.perform_health_check_at(u64::MAX).len(), 3);
    assert_eq!(cluster.node_count(), 0);
}

#[test]
fn liveness_ends_thirty_seconds_after_the_last_heartbeat() {
    let n = node(1, "a:1", 10);
    assert!(n.is_alive(0));
    assert!(n.is_alive(10));
    assert!(n.is_alive(10 + 30 * SECOND - 1));
    assert!(!n.is_alive(10 + 30 * SECOND));
    assert!(!n.is_alive(u64::MAX));

    let copy = n.clone_node();
    assert_eq!(copy.id, 1);
    assert_eq!(copy.address, "a:1");
    assert_eq!(copy.last_heartbeat, 10);
    assert!(!copy.is_leader);
}
