use eidolon::durable_journal::{append_journal_entry, recover_records, CommitDurability, JOURNAL_MAGIC};
use eidolon::wal::{WalRecord, OP_CURRENCY_DELTA};

fn rec(lsn: u64) -> WalRecord {
    WalRecord::new(lsn, 100, lsn * 10, lsn as u32, OP_CURRENCY_DELTA, &[0xAA, 0xBB]).unwrap()
}

#[test]
fn journal_entries_recover_in_order() {
    let mut bytes = Vec::new();
    for lsn in 1..=5 {
        let n = append_journal_entry(&rec(lsn), &mut bytes);
        assert_eq!(n, 8 + 36);
    }
    assert_eq!(&bytes[0..4], &JOURNAL_MAGIC.to_be_bytes());
    let recovered = recover_records(&bytes);
    assert_eq!(recovered.len(), 5);
    for (i, r) in recovered.iter().enumerate() {
        assert_eq!(r.lsn, i as u64 + 1);
        assert_eq!(*r, rec(i as u64 + 1));
    }
}

#[test]
fn journal_recovery_drops_truncated_trailing_record() {
    let mut bytes = Vec::new();
    append_journal_entry(&rec(1), &mut bytes);
    append_journal_entry(&rec(2), &mut bytes);
    let full = bytes.len();
    append_journal_entry(&rec(3), &mut bytes);
    for cut in [full + 3, full + 8, full + 20, bytes.len() - 1] {
        let recovered = recover_records(&bytes[..cut]);
        assert_eq!(recovered.len(), 2);
        assert_eq!(recovered[1].lsn, 2);
    }
    assert!(recover_records(&[]).is_empty());
}

#[test]
fn journal_recovery_stops_at_corruption() {
    let mut bytes = Vec::new();
    append_journal_entry(&rec(1), &mut bytes);
    let second = bytes.len();
    append_journal_entry(&rec(2), &mut bytes);
    append_journal_entry(&rec(3), &mut bytes);
    let mut corrupted = bytes.clone();
    corrupted[second + 8 + 31] ^= 0x55;
    assert_eq!(recover_records(&corrupted).len(), 1);
    let mut bad_magic = bytes.clone();
    bad_magic[second] = 0;
    assert_eq!(recover_records(&bad_magic).len(), 1);
}

#[test]
fn commit_durability_defaults_to_memory() {
    assert_eq!(CommitDurability::default(), CommitDurability::InMemoryBuffered);
}
