use eidolon::error::WorldError;
use eidolon::wal::{
    MockDurableStorage, WalRecord, WalRingBuffer, WriteAheadJournal, OP_CURRENCY_DELTA,
    OP_ENTITY_SPAWN, WAL_HEADER_LEN,
};

#[test]
fn test_wal_record_encode_decode_roundtrip() {
    let payload = [0xAA, 0xBB, 0xCC, 0xDD, 0xEE];
    let record = WalRecord::new(101, 55, 9999, 42, OP_CURRENCY_DELTA, &payload)
        .expect("Record creation must succeed");

    let mut buf = [0u8; 256];
    let written = record.encode(&mut buf).expect("Encode must succeed");
    assert_eq!(written, WAL_HEADER_LEN + payload.len() + 4);

    let (decoded, read_len) = WalRecord::decode(&buf[..written]).expect("Decode must succeed");
    assert_eq!(read_len, written);
    assert_eq!(decoded.lsn, 101);
    assert_eq!(decoded.tick, 55);
    assert_eq!(decoded.account_id, 9999);
    assert_eq!(decoded.entity_id, 42);
    assert_eq!(decoded.opcode, OP_CURRENCY_DELTA);
    assert_eq!(decoded.payload_len, 5);
    assert_eq!(&decoded.payload[..5], &payload);
    assert_eq!(decoded.checksum, record.checksum);
}

#[test]
fn test_wal_record_detects_corrupted_checksum() {
    let payload = [1, 2, 3, 4];
    let record = WalRecord::new(1, 10, 100, 5, OP_ENTITY_SPAWN, &payload).unwrap();

    let mut buf = [0u8; 128];
    let written = record.encode(&mut buf).unwrap();

    buf[WAL_HEADER_LEN] ^= 0xFF;

    let err = WalRecord::decode(&buf[..written]).expect_err("Must reject corrupted record");
    match err {
        WorldError::WalChecksumMismatch { .. } => {}
        other => panic!("Expected WalChecksumMismatch, got {other:?}"),
    }
}

#[test]
fn test_write_ahead_journal_flow_and_flush_ack() {
    let mock_storage = MockDurableStorage::new();
    let mut journal = WriteAheadJournal::<64, MockDurableStorage>::new(mock_storage);

    assert_eq!(journal.current_lsn(), 0);
    assert_eq!(journal.durable_lsn(), 0);

    let lsn1 = journal
        .append(1, 1001, 10, OP_CURRENCY_DELTA, &[10, 20])
        .unwrap();
    let lsn2 = journal
        .append(1, 1001, 10, OP_CURRENCY_DELTA, &[30, 40])
        .unwrap();
    assert_eq!(lsn1, 1);
    assert_eq!(lsn2, 2);

    assert!(!journal.is_flushed(lsn1));
    assert!(!journal.is_flushed(lsn2));
    assert_eq!(journal.pending_count(), 2);

    let flushed = journal.flush_pending().unwrap();
    assert_eq!(flushed, 2);
    assert_eq!(journal.durable_lsn(), 2);
    assert!(journal.is_flushed(lsn1));
    assert!(journal.is_flushed(lsn2));
    assert_eq!(journal.pending_count(), 0);
}

#[test]
fn test_wal_ring_buffer_backpressure_and_overflow() {
    let mut ring = WalRingBuffer::<4>::new();
    let rec = WalRecord::new(1, 1, 1, 1, OP_ENTITY_SPAWN, &[0]).unwrap();

    assert!(ring.try_push(rec).is_ok());
    assert!(ring.try_push(rec).is_ok());
    assert!(ring.try_push(rec).is_ok());
    assert!(ring.try_push(rec).is_ok());
    assert_eq!(ring.len(), 4);

    let err = ring.try_push(rec).expect_err("Overflow must return error");
    assert_eq!(err, WorldError::WalBufferFull);
}

#[test]
fn wal_ring_buffer_wraps_in_fifo_order() {
    let mut ring = WalRingBuffer::<3>::new();
    let mk = |lsn: u64| WalRecord::new(lsn, 0, 0, 0, OP_ENTITY_SPAWN, &[]).unwrap();
    ring.try_push(mk(1)).unwrap();
    ring.try_push(mk(2)).unwrap();
    ring.advance_head(1);
    ring.try_push(mk(3)).unwrap();
    ring.try_push(mk(4)).unwrap();
    let mut dest = [WalRecord::default(); 5];
    let n = ring.peek_batch(&mut dest);
    assert_eq!(n, 3);
    assert_eq!(
        [dest[0].lsn, dest[1].lsn, dest[2].lsn, dest[3].lsn],
        [2, 3, 4, 0]
    );
    let mut two = [WalRecord::default(); 2];
    assert_eq!(ring.drain_batch(&mut two), 2);
    assert_eq!([two[0].lsn, two[1].lsn], [2, 3]);
    assert_eq!(ring.len(), 1);
    assert!(!ring.is_empty());
    ring.advance_head(10);
    assert!(ring.is_empty());
}

#[test]
fn wal_record_rejects_oversized_payload_and_bad_frames() {
    let big = [0u8; 129];
    assert!(matches!(
        WalRecord::new(1, 1, 1, 1, OP_ENTITY_SPAWN, &big),
        Err(WorldError::WalCorruptedRecord(_))
    ));
    let rec = WalRecord::new(7, 1, 1, 1, OP_ENTITY_SPAWN, &[9, 9, 9]).unwrap();
    let mut small = [0u8; 10];
    assert!(matches!(rec.encode(&mut small), Err(WorldError::WalCorruptedRecord(_))));
    let mut buf = [0u8; 64];
    let n = rec.encode(&mut buf).unwrap();
    assert_eq!(n, 37);
    assert!(matches!(
        WalRecord::decode(&buf[..20]),
        Err(WorldError::WalCorruptedRecord(_))
    ));
    assert!(matches!(
        WalRecord::decode(&buf[..n - 1]),
        Err(WorldError::WalCorruptedRecord(_))
    ));
    let mut bad_len = buf;
    bad_len[29] = 200;
    assert!(matches!(
        WalRecord::decode(&bad_len[..n]),
        Err(WorldError::WalCorruptedRecord(_))
    ));
    // Big-endian sequence number at the front of the frame.
    assert_eq!(&buf[0..8], &[0, 0, 0, 0, 0, 0, 0, 7]);
}

#[test]
fn journal_keeps_records_when_storage_is_down() {
    let mut storage = MockDurableStorage::new();
    storage.set_available(false);
    let mut journal = WriteAheadJournal::<8, MockDurableStorage>::new(storage);
    journal.append(1, 1, 1, OP_CURRENCY_DELTA, &[1]).unwrap();
    assert_eq!(journal.flush_pending(), Err(WorldError::WalStorageUnavailable));
    assert_eq!(journal.pending_count(), 1);
    assert_eq!(journal.durable_lsn(), 0);
    assert!(matches!(
        journal.append(1, 1, 1, OP_CURRENCY_DELTA, &[0u8; 200]),
        Err(WorldError::WalCorruptedRecord(_))
    ));
    assert_eq!(journal.current_lsn(), 1);
}

#[test]
fn journal_reports_full_buffer() {
    let mut journal = WriteAheadJournal::<2, MockDurableStorage>::new(MockDurableStorage::default());
    journal.append(1, 1, 1, OP_CURRENCY_DELTA, &[]).unwrap();
    journal.append(1, 1, 1, OP_CURRENCY_DELTA, &[]).unwrap();
    assert_eq!(
        journal.append(1, 1, 1, OP_CURRENCY_DELTA, &[]),
        Err(WorldError::WalBufferFull)
    );
    assert_eq!(journal.flush_pending(), Ok(2));
    assert_eq!(journal.durable_lsn(), 2);
}

#[test]
fn flush_with_nothing_pending_succeeds_without_storage() {
    let mut storage = MockDurableStorage::new();
    storage.set_available(false);
    let mut journal = WriteAheadJournal::<8, MockDurableStorage>::new(storage);
    assert_eq!(journal.flush_pending(), Ok(0));
    assert_eq!(journal.durable_lsn(), 0);
    journal.append(1, 1, 1, OP_CURRENCY_DELTA, &[1]).unwrap();
    assert!(journal.flush_pending().is_err());
    assert_eq!(journal.pending_count(), 1);
}

struct FlushFailsSink {
    written: Vec<WalRecord>,
}

impl eidolon::wal::DurableWalSink for FlushFailsSink {
    fn write_batch(&mut self, records: &[WalRecord]) -> Result<(), WorldError> {
        self.written.extend_from_slice(records);
        Ok(())
    }

    fn flush(&mut self) -> Result<(), WorldError> {
        Err(WorldError::WalStorageUnavailable)
    }
}

#[test]
fn failed_sync_keeps_records_pending_and_unacknowledged() {
    let mut journal =
        WriteAheadJournal::<8, FlushFailsSink>::new(FlushFailsSink { written: Vec::new() });
    journal.append(1, 1, 1, OP_CURRENCY_DELTA, &[1]).unwrap();
    journal.append(2, 1, 1, OP_CURRENCY_DELTA, &[2]).unwrap();
    assert_eq!(journal.flush_pending(), Err(WorldError::WalStorageUnavailable));
    assert_eq!(journal.durable_lsn(), 0);
    assert_eq!(journal.pending_count(), 2);
}
