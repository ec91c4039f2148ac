use raft_rs::intercommunication::{DefaultIntercommunication, Intercommunication};
use raft_rs::node::{Node, State};
use raft_rs::replication::{
    DefaultCommand, DefaultCommandContainer, DefaultQuery, DefaultReceivable,
    DefaultReplicationLog, ReplicationLog,
};

type Fabric = DefaultIntercommunication<DefaultCommandContainer>;
type TestNode = Node<DefaultCommandContainer, DefaultQuery, DefaultReceivable, DefaultReplicationLog>;

fn new_node() -> TestNode {
    Node::new()
}

fn new_comm() -> Fabric {
    Intercommunication::new()
}

fn node_start(node: &mut TestNode, host: &str, comm: &mut Fabric, election_timeout_ms: u64) {
    let log: DefaultReplicationLog = ReplicationLog::new();
    node.start(host, comm, log, election_timeout_ms, 0);
}

/// Advances simulated time in 2 ms ticks, pumping every node and then the
/// fabric router, and returns the clock reading reached.
fn run(comm: &mut Fabric, nodes: &mut [&mut TestNode], start_ms: u64, duration_ms: u64) -> u64 {
    let mut t = start_ms;
    let end = start_ms + duration_ms;
    while t < end {
        t += 2;
        for n in nodes.iter_mut() {
            n.tick(comm, t);
        }
        comm.route_pending();
    }
    end
}

#[test]
fn follower_state_by_default() {
    let mut node = new_node();
    let mut comm = new_comm();

    node_start(&mut node, "john-follower", &mut comm, 150);

    assert_eq!(State::Follower, node.state());

    node.stop();
}

#[test]
fn candidate_state() {
    let mut node = new_node();
    let mut comm = new_comm();

    node_start(&mut node, "john-candidate", &mut comm, 150);

    node.forced_state(State::Candidate);

    assert_eq!(State::Candidate, node.state());

    node.stop();
}

#[test]
fn ledaer_state() {
    let mut node = new_node();
    let mut comm = new_comm();

    node_start(&mut node, "john-leader", &mut comm, 150);

    node.forced_state(State::Leader);

    assert_eq!(State::Leader, node.state());

    node.stop();
}

#[test]
fn nothing_if_no_leader() {
    let mut node = new_node();
    let mut other = new_node();
    let mut comm = new_comm();

    node_start(&mut node, "john", &mut comm, 150);
    node_start(&mut other, "sarah", &mut comm, 200);

    assert_eq!(None, other.fetch_leader());

    node.stop();
    other.stop();
}

#[test]
fn leader_host_if_there_is_a_leader() {
    let mut leader = new_node();
    let mut node = new_node();
    let mut comm = new_comm();

    node_start(&mut leader, "leader", &mut comm, 150);
    node_start(&mut node, "john", &mut comm, 200);

    node.force_follow("leader");

    assert_eq!("leader", node.fetch_leader().unwrap().host);

    leader.stop();
    node.stop();
}

#[test]
fn leader_knows_all_nodes() {
    let mut leader = new_node();
    let mut follower_1 = new_node();
    let mut follower_2 = new_node();
    let mut follower_3 = new_node();
    let mut comm = new_comm();

    node_start(&mut leader, "leader", &mut comm, 150);
    node_start(&mut follower_1, "john", &mut comm, 200);
    node_start(&mut follower_2, "sarah", &mut comm, 250);
    node_start(&mut follower_3, "james", &mut comm, 300);

    follower_1.force_follow("leader");
    follower_2.force_follow("leader");
    follower_3.force_follow("leader");

    run(
        &mut comm,
        &mut [&mut leader, &mut follower_1, &mut follower_2, &mut follower_3],
        0,
        100,
    );

    let nodes = leader.fetch_nodes();
    let node_hosts: Vec<&str> = nodes.iter().map(|x| x.host.as_str()).collect();
    assert!(node_hosts.contains(&"leader"));
    assert!(node_hosts.contains(&"john"));
    assert!(node_hosts.contains(&"sarah"));
    assert!(node_hosts.contains(&"james"));

    leader.stop();
    follower_1.stop();
    follower_2.stop();
    follower_3.stop();
}

#[test]
fn new_node_introduces_itself_to_leader() {
    let mut leader = new_node();
    let mut follower_1 = new_node();
    let mut node = new_node();
    let mut comm = new_comm();

    node_start(&mut leader, "leader", &mut comm, 150);
    node_start(&mut follower_1, "john", &mut comm, 200);
    node_start(&mut node, "sarah", &mut comm, 250);

    follower_1.force_follow("leader");
    node.introduce("john");

    run(&mut comm, &mut [&mut leader, &mut follower_1, &mut node], 0, 100);

    let nodes = leader.fetch_nodes();
    let node_hosts: Vec<&str> = nodes.iter().map(|x| x.host.as_str()).collect();
    assert!(node_hosts.contains(&"leader"));
    assert!(node_hosts.contains(&"john"));
    assert!(node_hosts.contains(&"sarah"));

    leader.stop();
    follower_1.stop();
    node.stop();
}

#[test]
fn leader_propagates_node_list_changes_to_its_followers() {
    let mut leader = new_node();
    let mut follower_1 = new_node();
    let mut node = new_node();
    let mut comm = new_comm();

    node_start(&mut leader, "leader", &mut comm, 150);
    node_start(&mut follower_1, "john", &mut comm, 250);
    node_start(&mut node, "sarah", &mut comm, 300);

    leader.forced_state(State::Leader);
    follower_1.force_follow("leader");
    node.introduce("john");

    run(&mut comm, &mut [&mut leader, &mut follower_1, &mut node], 0, 200);

    let nodes = follower_1.fetch_nodes();
    let node_hosts: Vec<&str> = nodes.iter().map(|x| x.host.as_str()).collect();
    assert!(node_hosts.contains(&"leader"));
    assert!(node_hosts.contains(&"john"));
    assert!(node_hosts.contains(&"sarah"));

    leader.stop();
    follower_1.stop();
    node.stop();
}

#[test]
fn follower_not_getting_append_logs_becomes_candidate() {
    let mut node = new_node();
    let mut comm = new_comm();

    node_start(&mut node, "john", &mut comm, 150);

    run(&mut comm, &mut [&mut node], 0, 350);

    let state = node.state();
    assert!(State::Candidate == state || State::Leader == state);

    node.stop();
}

#[test]
fn follower_getting_append_logs_stays_being_follower() {
    let mut leader = new_node();
    let mut node = new_node();
    let mut comm = new_comm();

    node_start(&mut leader, "leader", &mut comm, 150);
    node_start(&mut node, "john", &mut comm, 200);

    leader.forced_state(State::Leader);
    node.introduce("leader");
    node.force_follow("leader");

    run(&mut comm, &mut [&mut leader, &mut node], 0, 350);

    let state = node.state();
    assert_eq!(State::Follower, state);

    leader.stop();
    node.stop();
}

#[test]
fn candidate_votes_for_himself_and_asks_other_nodes_for_votes() {
    let mut node_1 = new_node();
    let mut node_2 = new_node();
    let mut node_3 = new_node();
    let mut comm = new_comm();

    node_start(&mut node_1, "john", &mut comm, 150);
    node_start(&mut node_2, "duck", &mut comm, 200);
    node_start(&mut node_3, "sarah", &mut comm, 250);

    node_1.introduce("duck");
    node_3.introduce("duck");

    let t = run(&mut comm, &mut [&mut node_1, &mut node_2, &mut node_3], 0, 100);

    node_1.forced_state(State::Follower);
    node_2.forced_state(State::Candidate);
    node_3.forced_state(State::Follower);

    run(&mut comm, &mut [&mut node_1, &mut node_2, &mut node_3], t, 250);

    let state = node_2.state();
    assert_eq!(State::Leader, state);

    let leader = node_1.fetch_leader();
    assert_eq!("duck".to_string(), leader.unwrap().host);

    node_1.stop();
    node_2.stop();
    node_3.stop();
}

#[test]
fn concurrent_candidates_decide_who_leader_is() {
    let mut node_1 = new_node();
    let mut node_2 = new_node();
    let mut node_3 = new_node();
    let mut comm = new_comm();

    node_start(&mut node_1, "john", &mut comm, 150);
    node_start(&mut node_2, "duck", &mut comm, 200);
    node_start(&mut node_3, "sarah", &mut comm, 250);

    node_1.introduce("duck");
    node_3.introduce("duck");

    node_1.introduce("sarah");
    node_2.introduce("sarah");

    node_2.introduce("john");
    node_3.introduce("john");

    let t = run(&mut comm, &mut [&mut node_1, &mut node_2, &mut node_3], 0, 100);

    node_1.forced_state(State::Follower);
    node_2.forced_state(State::Candidate);
    node_3.forced_state(State::Candidate);

    run(&mut comm, &mut [&mut node_1, &mut node_2, &mut node_3], t, 700);

    let states = vec![node_1.state(), node_2.state(), node_3.state()];
    assert!(states.contains(&State::Leader));

    node_1.stop();
    node_2.stop();
    node_3.stop();
}

#[test]
fn all_nodes_become_candidates_at_once() {
    let mut node_1 = new_node();
    let mut node_2 = new_node();
    let mut node_3 = new_node();
    let mut comm = new_comm();

    node_start(&mut node_1, "john", &mut comm, 150);
    node_start(&mut node_2, "duck", &mut comm, 200);
    node_start(&mut node_3, "sarah", &mut comm, 250);

    node_1.introduce("duck");
    node_3.introduce("duck");

    node_1.introduce("sarah");
    node_2.introduce("sarah");

    node_2.introduce("john");
    node_3.introduce("john");

    let t = run(&mut comm, &mut [&mut node_1, &mut node_2, &mut node_3], 0, 100);

    node_1.forced_state(State::Candidate);
    node_2.forced_state(State::Candidate);
    node_3.forced_state(State::Candidate);

    run(&mut comm, &mut [&mut node_1, &mut node_2, &mut node_3], t, 1150);

    let states = vec![node_1.state(), node_2.state(), node_3.state()];
    assert!(states.contains(&State::Leader));

    node_1.stop();
    node_2.stop();
    node_3.stop();
}

#[test]
fn one_node_in_a_cluster_becomes_leader() {
    let mut node = new_node();
    let mut comm = new_comm();

    node_start(&mut node, "john", &mut comm, 150);

    run(&mut comm, &mut [&mut node], 0, 350);

    let state = node.state();
    assert_eq!(State::Leader, state);

    node.stop();
}

#[test]
fn majority_is_enough_to_decide_on_election() {
    let mut node_1 = new_node();
    let mut node_2 = new_node();
    let mut node_3 = new_node();
    let mut comm = new_comm();

    node_start(&mut node_1, "john", &mut comm, 150);
    node_start(&mut node_2, "sarah", &mut comm, 170);
    node_start(&mut node_3, "james", &mut comm, 190);

    node_1.forced_state(State::Leader);

    node_2.introduce("john");
    node_3.introduce("john");

    let t = run(&mut comm, &mut [&mut node_1, &mut node_2, &mut node_3], 0, 350);

    let state = node_1.state();
    assert_eq!(State::Leader, state);

    node_1.stop();

    run(&mut comm, &mut [&mut node_1, &mut node_2, &mut node_3], t, 500);

    let states = vec![node_2.state(), node_3.state()];
    assert!(states.contains(&State::Leader));

    node_2.stop();
    node_3.stop();
}

#[test]
fn without_majority_no_election_could_succeed() {
    let mut node_1 = new_node();
    let mut node_2 = new_node();
    let mut node_3 = new_node();
    let mut comm = new_comm();

    node_start(&mut node_1, "john", &mut comm, 150);
    node_start(&mut node_2, "sarah", &mut comm, 170);
    node_start(&mut node_3, "james", &mut comm, 190);

    node_1.forced_state(State::Leader);

    node_2.introduce("john");
    node_3.introduce("john");

    let t = run(&mut comm, &mut [&mut node_1, &mut node_2, &mut node_3], 0, 350);

    let state = node_1.state();
    assert_eq!(State::Leader, state);

    node_1.stop();
    node_2.stop();

    let t = run(&mut comm, &mut [&mut node_1, &mut node_2, &mut node_3], t, 700);

    let state = node_3.state();
    assert!(vec![State::Candidate, State::Follower].contains(&state));

    run(&mut comm, &mut [&mut node_1, &mut node_2, &mut node_3], t, 1350);

    let state = node_3.state();
    assert!(vec![State::Candidate, State::Follower].contains(&state));

    node_3.stop();
}

#[test]
fn three_nodes_in_a_cluster_come_to_consensus_about_one_command() {
    let mut node = new_node();
    let mut follower_1 = new_node();
    let mut follower_2 = new_node();
    let mut comm = new_comm();

    node_start(&mut node, "leader", &mut comm, 150);
    node_start(&mut follower_1, "sarah", &mut comm, 200);
    node_start(&mut follower_2, "john", &mut comm, 250);

    node.forced_state(State::Leader);

    follower_1.introduce("leader");
    follower_2.introduce("leader");

    let t = run(&mut comm, &mut [&mut node, &mut follower_1, &mut follower_2], 0, 350);

    let states = vec![node.state(), follower_1.state(), follower_2.state()];
    assert_eq!(vec![State::Leader, State::Follower, State::Follower], states);

    node.enqueue(DefaultCommandContainer { command: DefaultCommand::TestSet(2) });
    node.enqueue(DefaultCommandContainer { command: DefaultCommand::TestAdd(3) });
    node.enqueue(DefaultCommandContainer { command: DefaultCommand::TestSet(9) });

    let t = run(&mut comm, &mut [&mut node, &mut follower_1, &mut follower_2], t, 40);
    run(&mut comm, &mut [&mut node, &mut follower_1, &mut follower_2], t, 30);

    assert_eq!(DefaultReceivable::ReceivableInt(2), node.query(DefaultQuery).unwrap());
    assert_eq!(DefaultReceivable::ReceivableInt(5), node.query(DefaultQuery).unwrap());
    assert_eq!(DefaultReceivable::ReceivableInt(9), node.query(DefaultQuery).unwrap());

    assert_eq!(DefaultReceivable::ReceivableInt(2), follower_1.query(DefaultQuery).unwrap());
    assert_eq!(DefaultReceivable::ReceivableInt(5), follower_1.query(DefaultQuery).unwrap());
    assert_eq!(DefaultReceivable::ReceivableInt(9), follower_1.query(DefaultQuery).unwrap());

    assert_eq!(DefaultReceivable::ReceivableInt(2), follower_2.query(DefaultQuery).unwrap());
    assert_eq!(DefaultReceivable::ReceivableInt(5), follower_2.query(DefaultQuery).unwrap());
    assert_eq!(DefaultReceivable::ReceivableInt(9), follower_2.query(DefaultQuery).unwrap());

    node.stop();
    follower_1.stop();
    follower_2.stop();
}

#[test]
fn two_of_three_nodes_in_a_cluster_come_to_consensus_about_one_command() {
    let mut node = new_node();
    let mut follower_1 = new_node();
    let mut follower_2 = new_node();
    let mut comm = new_comm();

    node_start(&mut node, "leader", &mut comm, 150);
    node_start(&mut follower_1, "sarah", &mut comm, 200);
    node_start(&mut follower_2, "john", &mut comm, 250);

    node.forced_state(State::Leader);

    follower_1.introduce("leader");
    follower_2.introduce("leader");

    let t = run(&mut comm, &mut [&mut node, &mut follower_1, &mut follower_2], 0, 350);

    let state = node.state();
    assert_eq!(State::Leader, state);

    follower_1.stop();

    let t = run(&mut comm, &mut [&mut node, &mut follower_1, &mut follower_2], t, 30);

    node.enqueue(DefaultCommandContainer { command: DefaultCommand::TestSet(2) });
    node.enqueue(DefaultCommandContainer { command: DefaultCommand::TestAdd(3) });
    node.enqueue(DefaultCommandContainer { command: DefaultCommand::TestSet(9) });

    let t = run(&mut comm, &mut [&mut node, &mut follower_1, &mut follower_2], t, 40);
    run(&mut comm, &mut [&mut node, &mut follower_1, &mut follower_2], t, 30);

    assert_eq!(DefaultReceivable::ReceivableInt(2), node.query(DefaultQuery).unwrap());
    assert_eq!(DefaultReceivable::ReceivableInt(5), node.query(DefaultQuery).unwrap());
    assert_eq!(DefaultReceivable::ReceivableInt(9), node.query(DefaultQuery).unwrap());

    assert_eq!(DefaultReceivable::ReceivableInt(2), follower_2.query(DefaultQuery).unwrap());
    assert_eq!(DefaultReceivable::ReceivableInt(5), follower_2.query(DefaultQuery).unwrap());
    assert_eq!(DefaultReceivable::ReceivableInt(9), follower_2.query(DefaultQuery).unwrap());

    node.stop();
    follower_2.stop();
}

#[test]
fn one_of_three_nodes_in_a_cluster_doesnt_come_to_consensus_about_one_command() {
    let mut node = new_node();
    let mut follower_1 = new_node();
    let mut follower_2 = new_node();
    let mut comm = new_comm();

    node_start(&mut node, "leader", &mut comm, 150);
    node_start(&mut follower_1, "sarah", &mut comm, 200);
    node_start(&mut follower_2, "john", &mut comm, 250);

    node.forced_state(State::Leader);

    follower_1.introduce("leader");
    follower_2.introduce("leader");

    let t = run(&mut comm, &mut [&mut node, &mut follower_1, &mut follower_2], 0, 350);

    let state = node.state();
    assert_eq!(State::Leader, state);

    follower_1.stop();
    follower_2.stop();

    let t = run(&mut comm, &mut [&mut node, &mut follower_1, &mut follower_2], t, 30);

    node.enqueue(DefaultCommandContainer { command: DefaultCommand::TestSet(2) });
    node.enqueue(DefaultCommandContainer { command: DefaultCommand::TestAdd(3) });
    node.enqueue(DefaultCommandContainer { command: DefaultCommand::TestSet(9) });

    run(&mut comm, &mut [&mut node, &mut follower_1, &mut follower_2], t, 40);

    match node.query(DefaultQuery) {
        Some(_) => panic!("Should have not been committed"),
        None => {}
    }

    node.stop();
}

#[test]
fn a_leader_never_advertises_a_leader() {
    let mut node = new_node();
    let mut comm = new_comm();

    node_start(&mut node, "john", &mut comm, 150);

    node.force_follow("sarah");
    assert_eq!("sarah", node.fetch_leader().unwrap().host);

    node.forced_state(State::Leader);
    assert!(node.fetch_leader().is_none());

    node.stop();
}

#[test]
fn term_rises_with_an_election() {
    let mut node = new_node();
    let mut comm = new_comm();

    node_start(&mut node, "john", &mut comm, 150);
    assert_eq!(0, node.contact().term());

    run(&mut comm, &mut [&mut node], 0, 350);

    assert_eq!(State::Leader, node.state());
    assert_eq!(1, node.contact().term());

    node.stop();
}

#[test]
fn peer_set_does_not_grow_on_repeated_acks() {
    let mut leader = new_node();
    let mut follower_1 = new_node();
    let mut comm = new_comm();

    node_start(&mut leader, "leader", &mut comm, 150);
    node_start(&mut follower_1, "john", &mut comm, 200);

    follower_1.force_follow("leader");
    let t = run(&mut comm, &mut [&mut leader, &mut follower_1], 0, 20);
    follower_1.force_follow("leader");
    let t = run(&mut comm, &mut [&mut leader, &mut follower_1], t, 20);
    follower_1.force_follow("leader");
    run(&mut comm, &mut [&mut leader, &mut follower_1], t, 20);

    assert_eq!(2, leader.fetch_nodes().len());

    leader.stop();
    follower_1.stop();
}

#[test]
fn leader_discovery_propagates_to_five_nodes() {
    let mut leader = new_node();
    let mut follower_1 = new_node();
    let mut follower_2 = new_node();
    let mut follower_3 = new_node();
    let mut follower_4 = new_node();
    let mut comm = new_comm();

    node_start(&mut leader, "leader", &mut comm, 150);
    node_start(&mut follower_1, "john", &mut comm, 200);
    node_start(&mut follower_2, "sarah", &mut comm, 250);
    node_start(&mut follower_3, "james", &mut comm, 300);
    node_start(&mut follower_4, "duck", &mut comm, 350);

    leader.forced_state(State::Leader);
    follower_1.force_follow("leader");
    follower_2.force_follow("leader");
    follower_3.force_follow("leader");
    follower_4.force_follow("leader");

    run(
        &mut comm,
        &mut [
            &mut leader,
            &mut follower_1,
            &mut follower_2,
            &mut follower_3,
            &mut follower_4,
        ],
        0,
        100,
    );

    let expected = ["leader", "john", "sarah", "james", "duck"];

    let nodes = leader.fetch_nodes();
    let hosts: Vec<&str> = nodes.iter().map(|x| x.host.as_str()).collect();
    for name in expected.iter() {
        assert!(hosts.contains(name));
    }

    let nodes = follower_1.fetch_nodes();
    let hosts: Vec<&str> = nodes.iter().map(|x| x.host.as_str()).collect();
    for name in expected.iter() {
        assert!(hosts.contains(name));
    }

    leader.stop();
    follower_1.stop();
    follower_2.stop();
    follower_3.stop();
    follower_4.stop();
}
