use raft_rs::intercommunication::{
    AppendLog, AppendLogEntry, DefaultIntercommunication, Endpoint, Intercommunication, Package,
    PackageDetails,
};
use raft_rs::replication::{DefaultCommand, DefaultCommandContainer};

type Fabric = DefaultIntercommunication<DefaultCommandContainer>;
type TestEndpoint = Endpoint<DefaultCommandContainer>;

/// Hands an endpoint's buffered envelopes to the fabric, routes everything
/// pending, and fetches what was routed to each endpoint — the work the
/// node loop and the router perform on every turn.
fn exchange(comm: &mut Fabric, endpoints: &mut [&mut TestEndpoint]) {
    for ep in endpoints.iter_mut() {
        while !ep.outbox.is_empty() {
            let package = ep.outbox.remove(0);
            comm.submit(package);
        }
    }
    comm.route_pending();
    for ep in endpoints.iter_mut() {
        while let Some(package) = comm.fetch(&ep.host) {
            ep.inbox.push(package);
        }
    }
}

#[test]
fn sending_simple_ack() {
    let mut comm: Fabric = Intercommunication::new();

    let mut comm_1 = comm.register("host_1".to_string());
    let mut comm_2 = comm.register("host_2".to_string());

    comm_1.send("host_2".to_string(), PackageDetails::Ack);

    exchange(&mut comm, &mut [&mut comm_1, &mut comm_2]);

    match comm_2.listen() {
        Some(Package::Pack(from, to, PackageDetails::Ack)) => {
            assert_eq!(from, "host_1".to_string());
            assert_eq!(to, "host_2".to_string());
        }
        _ => panic!("No ack"),
    }
}

#[test]
fn sending_append_query_with_command() {
    let mut comm: Fabric = Intercommunication::new();

    let mut comm_1 = comm.register("host_1".to_string());
    let mut comm_2 = comm.register("host_2".to_string());

    comm_1.send(
        "host_2".to_string(),
        PackageDetails::AppendQuery(AppendLog {
            committed_offset: 0,
            node_list: vec![],
            enqueue: Some(AppendLogEntry {
                offset: 1,
                entry: DefaultCommandContainer { command: DefaultCommand::TestSet(2) },
            }),
        }),
    );

    exchange(&mut comm, &mut [&mut comm_1, &mut comm_2]);

    match comm_2.listen() {
        Some(Package::Pack(
            from,
            to,
            PackageDetails::AppendQuery(AppendLog { committed_offset, node_list, enqueue }),
        )) => {
            assert_eq!(from, "host_1".to_string());
            assert_eq!(to, "host_2".to_string());
            assert_eq!(node_list, Vec::<String>::new());
            assert_eq!(committed_offset, 0);
            match enqueue {
                Some(AppendLogEntry { offset, entry }) => {
                    assert_eq!(offset, 1);
                    assert_eq!(
                        entry,
                        DefaultCommandContainer { command: DefaultCommand::TestSet(2) }
                    );
                }
                _ => panic!("No enqueue"),
            }
        }
        _ => panic!("No append query"),
    }
}

#[test]
fn unknown_destination_is_dropped() {
    let mut comm: Fabric = Intercommunication::new();

    let mut comm_1 = comm.register("host_1".to_string());
    let mut comm_2 = comm.register("host_2".to_string());

    comm_1.send("nobody".to_string(), PackageDetails::Ack);
    comm_1.send("host_2".to_string(), PackageDetails::LeaderQuery);

    exchange(&mut comm, &mut [&mut comm_1, &mut comm_2]);

    match comm_2.listen() {
        Some(Package::Pack(_, _, PackageDetails::LeaderQuery)) => {}
        _ => panic!("No leader query"),
    }
    assert!(comm_2.listen().is_none());
    assert!(comm_1.listen().is_none());
}

#[test]
fn delivery_keeps_the_order_per_pair() {
    let mut comm: Fabric = Intercommunication::new();

    let mut comm_1 = comm.register("host_1".to_string());
    let mut comm_2 = comm.register("host_2".to_string());

    comm_1.send("host_2".to_string(), PackageDetails::Persisted(0));
    comm_1.send("host_2".to_string(), PackageDetails::Persisted(1));
    comm_1.send("host_2".to_string(), PackageDetails::Persisted(2));

    exchange(&mut comm, &mut [&mut comm_1, &mut comm_2]);

    let mut offsets: Vec<usize> = Vec::new();
    while let Some(Package::Pack(_, _, PackageDetails::Persisted(offset))) = comm_2.listen() {
        offsets.push(offset);
    }
    assert_eq!(offsets, vec![0, 1, 2]);
}

#[test]
fn re_registration_replaces_the_mailbox() {
    let mut comm: Fabric = Intercommunication::new();

    let mut comm_1 = comm.register("host_1".to_string());
    let _first = comm.register("host_2".to_string());

    comm_1.send("host_2".to_string(), PackageDetails::Ack);
    while !comm_1.outbox.is_empty() {
        let package = comm_1.outbox.remove(0);
        comm.submit(package);
    }
    comm.route_pending();

    let mut comm_2 = comm.register("host_2".to_string());

    assert!(comm.fetch(&comm_2.host).is_none());
    assert!(comm_2.listen().is_none());
}
