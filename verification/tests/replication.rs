use raft_rs::replication::{
    DefaultCommand, DefaultCommandContainer, DefaultPersistence, DefaultQuery, DefaultReceivable,
    DefaultReplicationLog, LogPersistence, ReplicationLog,
};

fn set_cmd(x: i64) -> DefaultCommandContainer {
    DefaultCommandContainer { command: DefaultCommand::TestSet(x) }
}

fn add_cmd(x: i64) -> DefaultCommandContainer {
    DefaultCommandContainer { command: DefaultCommand::TestAdd(x) }
}

#[test]
fn default_persistance_implements_commit() {
    let mut persistence = DefaultPersistence::start();

    persistence.commit(set_cmd(3)).unwrap();
    assert_eq!(3, persistence.recv().unwrap());

    persistence.commit(add_cmd(5)).unwrap();
    assert_eq!(8, persistence.recv().unwrap());

    persistence.commit(set_cmd(13)).unwrap();
    assert_eq!(13, persistence.recv().unwrap());
}

#[test]
fn enqueue_and_commit_command() {
    let mut log: DefaultReplicationLog = ReplicationLog::new();

    log.enqueue(set_cmd(3)).unwrap();
    log.enqueue(add_cmd(5)).unwrap();
    log.enqueue(set_cmd(21)).unwrap();

    assert_eq!(3, log.len());
    assert_eq!(0, log.committed_offset());

    log.commit_upto(2).unwrap();

    assert_eq!(2, log.committed_offset());
    assert_eq!(3, log.persistence.recv().unwrap());
    assert_eq!(8, log.persistence.recv().unwrap());
}

#[test]
fn enqueue_and_discard_commands() {
    let mut log: DefaultReplicationLog = ReplicationLog::new();

    log.enqueue(set_cmd(3)).unwrap();
    log.enqueue(add_cmd(5)).unwrap();
    log.enqueue(set_cmd(21)).unwrap();

    assert_eq!(3, log.len());
    assert_eq!(0, log.committed_offset());

    log.discard_downto(1).unwrap();

    assert_eq!(1, log.len());
    assert_eq!(0, log.committed_offset());

    log.commit_upto(1).unwrap();

    assert_eq!(1, log.committed_offset());
    assert_eq!(3, log.persistence.recv().unwrap());
}

#[test]
fn committed_offset_never_decreases() {
    let mut log: DefaultReplicationLog = ReplicationLog::new();

    log.enqueue(set_cmd(1)).unwrap();
    log.enqueue(add_cmd(2)).unwrap();
    log.commit_upto(2).unwrap();
    assert_eq!(2, log.committed_offset());

    log.commit_upto(0).unwrap();
    assert_eq!(2, log.committed_offset());

    log.commit_upto(1).unwrap();
    assert_eq!(2, log.committed_offset());
}

#[test]
fn commit_upto_stops_at_the_end_of_the_log() {
    let mut log: DefaultReplicationLog = ReplicationLog::new();

    log.enqueue(set_cmd(7)).unwrap();
    log.commit_upto(10).unwrap();

    assert_eq!(1, log.committed_offset());
    assert_eq!(7, log.persistence.recv().unwrap());
    assert_eq!(None, log.persistence.recv());
}

#[test]
fn autocommit_advances_by_at_most_one() {
    let mut log: DefaultReplicationLog = ReplicationLog::new();

    log.enqueue(set_cmd(1)).unwrap();
    log.enqueue(add_cmd(1)).unwrap();
    log.enqueue(add_cmd(1)).unwrap();
    log.persisted(0, "a".to_string()).unwrap();
    log.persisted(0, "b".to_string()).unwrap();
    log.persisted(1, "a".to_string()).unwrap();
    log.persisted(1, "b".to_string()).unwrap();

    log.autocommit_if_safe(2);
    assert_eq!(1, log.committed_offset());

    log.autocommit_if_safe(2);
    assert_eq!(2, log.committed_offset());

    log.autocommit_if_safe(2);
    assert_eq!(2, log.committed_offset());
}

#[test]
fn autocommit_needs_a_majority_of_witnesses() {
    let mut log: DefaultReplicationLog = ReplicationLog::new();

    log.enqueue(set_cmd(4)).unwrap();

    log.autocommit_if_safe(2);
    assert_eq!(0, log.committed_offset());

    log.persisted(0, "a".to_string()).unwrap();
    log.autocommit_if_safe(2);
    assert_eq!(0, log.committed_offset());

    log.persisted(0, "b".to_string()).unwrap();
    log.autocommit_if_safe(2);
    assert_eq!(1, log.committed_offset());
    assert_eq!(4, log.persistence.recv().unwrap());
}

#[test]
fn duplicate_persistence_witness_counts_once() {
    let mut log: DefaultReplicationLog = ReplicationLog::new();

    log.enqueue(set_cmd(4)).unwrap();
    log.persisted(0, "a".to_string()).unwrap();
    log.persisted(0, "a".to_string()).unwrap();
    log.persisted(0, "a".to_string()).unwrap();

    log.autocommit_if_safe(2);
    assert_eq!(0, log.committed_offset());
}

#[test]
fn discard_keeps_committed_entries() {
    let mut log: DefaultReplicationLog = ReplicationLog::new();

    log.enqueue(set_cmd(1)).unwrap();
    log.enqueue(add_cmd(2)).unwrap();
    log.enqueue(add_cmd(3)).unwrap();
    log.commit_upto(2).unwrap();

    log.discard_downto(0).unwrap();

    assert_eq!(2, log.len());
    assert_eq!(2, log.committed_offset());
}

#[test]
fn autocommit_on_an_empty_log_does_nothing() {
    let mut log: DefaultReplicationLog = ReplicationLog::new();

    log.autocommit_if_safe(0);
    assert_eq!(0, log.committed_offset());
    assert_eq!(0, log.len());
}

#[test]
fn wrapping_addition_in_the_accumulator() {
    let mut persistence = DefaultPersistence::start();

    persistence.commit(set_cmd(i64::MAX)).unwrap();
    assert_eq!(i64::MAX, persistence.recv().unwrap());

    persistence.commit(add_cmd(1)).unwrap();
    assert_eq!(i64::MIN, persistence.recv().unwrap());
}

#[test]
fn query_hands_out_one_pending_value() {
    let mut log: DefaultReplicationLog = ReplicationLog::new();

    assert_eq!(None, log.query_persistance(DefaultQuery));

    log.enqueue(set_cmd(6)).unwrap();
    log.commit_upto(1).unwrap();

    assert_eq!(
        Some(DefaultReceivable::ReceivableInt(6)),
        log.query_persistance(DefaultQuery)
    );
    assert_eq!(None, log.query_persistance(DefaultQuery));
}
