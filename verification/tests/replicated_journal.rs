use eidolon::replicated_journal::{commit_confirmed, merge_quorum_logs, ReplicationMode};
use eidolon::wal::WalRecord;

fn create_test_record(lsn: u64, amount: u64) -> WalRecord {
    let payload = amount.to_be_bytes();
    WalRecord::new(lsn, 10, 5001, 0, 0x04, &payload).expect("Create test record")
}

#[test]
fn quorum_commit_decisions() {
    let quorum = ReplicationMode::SynchronousQuorum { total_nodes: 3, required_acks: 2 };
    assert!(commit_confirmed(quorum, 2));
    assert!(commit_confirmed(quorum, 3));
    assert!(!commit_confirmed(quorum, 1));
    assert!(commit_confirmed(ReplicationMode::LocalOnly, 1));
    assert!(commit_confirmed(ReplicationMode::AsynchronousMirror, 1));
    assert!(!commit_confirmed(
        ReplicationMode::SynchronousQuorum { total_nodes: 3, required_acks: 3 },
        1
    ));
    assert_eq!(ReplicationMode::default(), ReplicationMode::LocalOnly);
}

#[test]
fn quorum_merge_keeps_majority_prefix() {
    let r1 = create_test_record(1, 250);
    let r2 = create_test_record(2, 500);
    let r3 = create_test_record(3, 750);
    let primary = vec![r1, r2, r3];
    let replica_a = vec![r1, r2];
    let replica_b = vec![r1];
    let committed = merge_quorum_logs(&[primary.clone(), replica_a.clone(), replica_b.clone()], 2);
    assert_eq!(committed.len(), 2);
    assert_eq!(committed[0].lsn, 1);
    assert_eq!(committed[1].lsn, 2);
    let all_three = merge_quorum_logs(&[primary.clone(), replica_a, replica_b], 3);
    assert_eq!(all_three.len(), 1);
    assert!(merge_quorum_logs(&[primary.clone()], 0).is_empty());
    let none: Vec<Vec<WalRecord>> = Vec::new();
    assert!(merge_quorum_logs(&none, 1).is_empty());
}

#[test]
fn quorum_merge_stops_at_gap_and_keeps_first_copy() {
    let r1 = create_test_record(1, 1);
    let r1_other = create_test_record(1, 99);
    let r3 = create_test_record(3, 3);
    let committed = merge_quorum_logs(&[vec![r1, r3], vec![r1_other, r3]], 2);
    assert_eq!(committed.len(), 1);
    assert_eq!(committed[0], r1);
    // A record with sequence number 0 is never part of the committed run.
    let r0 = create_test_record(0, 0);
    let committed = merge_quorum_logs(&[vec![r0, r1], vec![r0, r1]], 2);
    assert_eq!(committed, vec![r1]);
}
