use eidolon::sqpoll_journal::{DoubleBufferedJournalQueue, StampedWalRecord};
use eidolon::wal::{WalRecord, OP_CURRENCY_DELTA, OP_ENTITY_SPAWN, OP_ENTITY_TRANSFORM};

#[test]
fn test_double_buffered_journal_queue_push_and_drain() {
    let mut queue = DoubleBufferedJournalQueue::new();

    let r1 = WalRecord::new(1, 10, 1, 100, OP_ENTITY_SPAWN, &[1, 2, 3]).unwrap();
    let r2 = WalRecord::new(2, 10, 1, 101, OP_ENTITY_TRANSFORM, &[4, 5, 6]).unwrap();

    let seq1 = queue.push(r1).expect("Push r1 should succeed");
    let seq2 = queue.push(r2).expect("Push r2 should succeed");
    assert_eq!(seq1, 1);
    assert_eq!(seq2, 2);
    assert_eq!(queue.latest_sequence(), 2);
    assert_eq!(queue.committed_sequence(), 0);

    let mut drained = Vec::new();
    let count = queue.swap_and_drain(&mut drained);
    assert_eq!(count, 2);

    let mut output_bytes = Vec::new();
    let bytes_written = queue
        .flush_records(&drained, &mut output_bytes)
        .expect("Flush records should succeed");
    assert!(bytes_written > 0);
    // Framing alone makes nothing durable; the fence moves once the bytes are synced.
    assert_eq!(queue.committed_sequence(), 0);
    queue.mark_committed(&drained);
    assert_eq!(queue.committed_sequence(), 2);
    assert!(queue.is_durable(1));
    assert!(queue.is_durable(2));
    assert!(!queue.is_durable(3));
}

#[test]
fn journal_queue_frames_and_alternates_partitions() {
    let mut queue = DoubleBufferedJournalQueue::default();
    let rec = WalRecord::new(9, 1, 2, 3, OP_CURRENCY_DELTA, &[7, 8]).unwrap();
    assert_eq!(queue.push(rec), Some(1));
    let mut out = Vec::new();
    assert_eq!(queue.swap_and_drain(&mut out), 1);
    // Pushes now land in the other partition; draining again yields only them.
    assert_eq!(queue.push(rec), Some(2));
    assert_eq!(queue.push(rec), Some(3));
    assert_eq!(queue.swap_and_drain(&mut out), 2);
    assert_eq!(out[0].sequence, 2);
    assert_eq!(out[1].sequence, 3);
    assert_eq!(queue.swap_and_drain(&mut out), 0);

    let batch = vec![StampedWalRecord { sequence: 4, record: rec }];
    let mut bytes = Vec::new();
    let n = queue.flush_records(&batch, &mut bytes).unwrap();
    // 8 bytes of framing plus a 36-byte record frame.
    assert_eq!(n, 44);
    assert_eq!(bytes.len(), 44);
    assert_eq!(&bytes[0..4], &0xE1D0_4A52u32.to_be_bytes());
    assert_eq!(&bytes[4..8], &36u32.to_be_bytes());
    let (decoded, len) = WalRecord::decode(&bytes[8..]).unwrap();
    assert_eq!(len, 36);
    assert_eq!(decoded.lsn, 9);
    queue.mark_committed(&batch);
    assert_eq!(queue.committed_sequence(), 4);

    let empty: Vec<StampedWalRecord> = Vec::new();
    assert_eq!(queue.flush_records(&empty, &mut bytes), Ok(0));
    queue.mark_committed(&empty);
    assert_eq!(queue.committed_sequence(), 4);
}

#[test]
fn journal_queue_refuses_when_partition_full() {
    let mut queue = DoubleBufferedJournalQueue::new();
    let rec = WalRecord::new(1, 1, 1, 1, OP_ENTITY_SPAWN, &[]).unwrap();
    for i in 0..2048u64 {
        assert_eq!(queue.push(rec), Some(i + 1));
    }
    assert_eq!(queue.push(rec), None);
    assert_eq!(queue.latest_sequence(), 2048);
}
