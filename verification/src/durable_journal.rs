//! Durable journal format: each record is framed by the journal magic and its encoded length;
//! recovery replays frames and stops cleanly at the first truncated or corrupted one.
use vstd::prelude::*;

use crate::byte_order::{be_u32, lemma_u32_be_roundtrip, push_u32_be, read_u32_be, u32_of_be};
use crate::wal::{
    decoded_record, lemma_decoded_record_unique, lemma_wal_frame_roundtrip, wal_checksum,
    wal_frame, wal_frame_complete, WalRecord,
};

verus! {

/// Magic number prefixed to every journal frame.
pub const JOURNAL_MAGIC: u32 = 0xE1D0_4A52;

/// Durability requested before a transaction is acknowledged to the client.
#[derive(Debug, Clone, Copy, PartialEq, Eq, Structural)]
pub enum CommitDurability {
    /// Acknowledged once queued in the in-memory journal buffer.
    InMemoryBuffered,
    /// Acknowledged once flushed and synced to local disk.
    LocalDiskFsync,
    /// Acknowledged once a replication quorum confirmed the write.
    DistributedQuorum,
}

impl Default for CommitDurability {
    /// In-memory buffering.
    fn default() -> (d: Self)
        ensures
            d == CommitDurability::InMemoryBuffered,
    {
        CommitDurability::InMemoryBuffered
    }
}

/// The bytes of one journal entry: magic, encoded length, then the record's frame.
pub open spec fn journal_entry(r: WalRecord) -> Seq<u8> {
    be_u32(JOURNAL_MAGIC) + be_u32(wal_frame(r).len() as u32) + wal_frame(r)
}

/// The bytes of consecutive journal entries.
pub open spec fn journal_bytes(rs: Seq<WalRecord>) -> Seq<u8>
    decreases rs.len(),
{
    if rs.len() == 0 {
        Seq::empty()
    } else {
        journal_entry(rs[0]) + journal_bytes(rs.drop_first())
    }
}

/// The record a complete frame describes.
pub open spec fn frame_record(body: Seq<u8>) -> WalRecord {
    choose|r: WalRecord| decoded_record(r, body)
}

/// Records recovered from `s` starting at byte `c`: frames are replayed while the magic,
/// the length, the frame itself and its checksum are all valid.
pub open spec fn recover_from(s: Seq<u8>, c: int) -> Seq<WalRecord>
    decreases s.len() - c,
{
    if c < 0 || c + 8 > s.len() {
        Seq::empty()
    } else if u32_of_be(s.subrange(c, c + 4)) != JOURNAL_MAGIC {
        Seq::empty()
    } else {
        let len = u32_of_be(s.subrange(c + 4, c + 8)) as int;
        if c + 8 + len > s.len() {
            Seq::empty()
        } else {
            let body = s.subrange(c + 8, c + 8 + len);
            if !wal_frame_complete(body) {
                Seq::empty()
            } else {
                let r = frame_record(body);
                if wal_checksum(r) != r.checksum {
                    Seq::empty()
                } else {
                    seq![r] + recover_from(s, c + 8 + 34 + body[29])
                }
            }
        }
    }
}

/// Appends the journal entry of `record` to `out`, returning the number of bytes appended.
pub fn append_journal_entry(record: &WalRecord, out: &mut Vec<u8>) -> (n: usize)
    ensures
        final(out)@ == old(out)@ + journal_entry(*record),
        n == journal_entry(*record).len(),
{
    let mut record_buf = [0u8; 162];
    let encoded_len = match record.encode(&mut record_buf) {
        Ok(len) => len,
        Err(_) => 0,
    };
    let ghost before = out@;
    push_u32_be(out, JOURNAL_MAGIC);
    push_u32_be(out, encoded_len as u32);
    let mut j: usize = 0;
    while j < encoded_len
        invariant
            j <= encoded_len,
            encoded_len <= record_buf@.len(),
            out@ == before + be_u32(JOURNAL_MAGIC) + be_u32(encoded_len as u32) + record_buf@.take(
                j as int,
            ),
        decreases encoded_len - j,
    {
        out.push(record_buf[j]);
        assert(out@ =~= before + be_u32(JOURNAL_MAGIC) + be_u32(encoded_len as u32)
            + record_buf@.take(j + 1));
        j = j + 1;
    }
    assert(record_buf@.take(encoded_len as int) =~= wal_frame(*record));
    assert(out@ =~= before + journal_entry(*record));
    8 + encoded_len
}

/// Replays the journal in `buffer`, stopping at the end, at a bad magic number, at a
/// truncated entry or at a frame that fails to decode.
pub fn recover_records(buffer: &[u8]) -> (records: Vec<WalRecord>)
    ensures
        records@ == recover_from(buffer@, 0),
{
    let ghost s = buffer@;
    let n = buffer.len();
    let mut records: Vec<WalRecord> = Vec::new();
    let mut cursor: usize = 0;
    while n - cursor >= 8
        invariant
            s == buffer@,
            n == s.len(),
            cursor <= n,
            records@ + recover_from(s, cursor as int) == recover_from(s, 0),
        decreases n - cursor,
    {
        let magic = read_u32_be(buffer, cursor);
        if magic != JOURNAL_MAGIC {
            assert(recover_from(s, cursor as int) =~= Seq::<WalRecord>::empty());
            assert(records@ =~= records@ + Seq::<WalRecord>::empty());
            return records;
        }
        let record_len = read_u32_be(buffer, cursor + 4) as usize;
        let start = cursor + 8;
        if record_len > n - start {
            assert(records@ =~= records@ + Seq::<WalRecord>::empty());
            return records;
        }
        let body = vstd::slice::slice_subrange(buffer, start, start + record_len);
        match WalRecord::decode(body) {
            Ok((rec, consumed)) => {
                proof {
                    lemma_decoded_record_unique(rec, frame_record(body@), body@);
                    assert(seq![rec] + recover_from(s, start + consumed) == recover_from(
                        s,
                        cursor as int,
                    ));
                    assert(records@.push(rec) + recover_from(s, start + consumed) =~= records@ + (
                    seq![rec] + recover_from(s, start + consumed)));
                }
                records.push(rec);
                cursor = start + consumed;
            },
            Err(_) => {
                proof {
                    if wal_frame_complete(body@) {
                        let r = choose|r: WalRecord|
                            decoded_record(r, body@) && wal_checksum(r) != r.checksum;
                        lemma_decoded_record_unique(r, frame_record(body@), body@);
                    }
                    assert(recover_from(s, cursor as int) =~= Seq::<WalRecord>::empty());
                    assert(records@ =~= records@ + Seq::<WalRecord>::empty());
                }
                return records;
            },
        }
    }
    assert(records@ =~= records@ + Seq::<WalRecord>::empty());
    records
}

/// Reading at an offset into `a + b` past `a` is reading `b`.
proof fn lemma_recover_shift(a: Seq<u8>, b: Seq<u8>, c: int)
    requires
        c >= 0,
    ensures
        recover_from(a + b, a.len() + c) == recover_from(b, c),
    decreases b.len() - c,
{
    let s = a + b;
    let o = a.len() as int;
    if c + 8 <= b.len() {
        assert(s.subrange(o + c, o + c + 4) =~= b.subrange(c, c + 4));
        assert(s.subrange(o + c + 4, o + c + 8) =~= b.subrange(c + 4, c + 8));
        let len = u32_of_be(b.subrange(c + 4, c + 8)) as int;
        if c + 8 + len <= b.len() {
            assert(s.subrange(o + c + 8, o + c + 8 + len) =~= b.subrange(c + 8, c + 8 + len));
            let body = b.subrange(c + 8, c + 8 + len);
            if wal_frame_complete(body) {
                lemma_recover_shift(a, b, c + 8 + 34 + body[29]);
            }
        }
    }
}

/// A well-formed record's entry, followed by anything, replays as that record and then
/// whatever follows.
#[verifier::rlimit(30)]
proof fn lemma_recover_entry(r: WalRecord, rest: Seq<u8>)
    requires
        r.wf(),
    ensures
        recover_from(journal_entry(r) + rest, 0) == seq![r] + recover_from(rest, 0),
{
    let e = journal_entry(r);
    let f = wal_frame(r);
    let s = e + rest;
    let flen = f.len() as int;
    assert(wal_frame_complete(f) && f[29] + 34 == flen && decoded_record(r, f)) by {
        lemma_wal_frame_roundtrip(r, Seq::empty());
        assert(f + Seq::<u8>::empty() =~= f);
    }
    assert(u32_of_be(s.subrange(0, 4)) == JOURNAL_MAGIC) by {
        assert(s.subrange(0, 4) =~= be_u32(JOURNAL_MAGIC));
        lemma_u32_be_roundtrip(JOURNAL_MAGIC);
    }
    assert(u32_of_be(s.subrange(4, 8)) as int == flen) by {
        assert(s.subrange(4, 8) =~= be_u32(flen as u32));
        lemma_u32_be_roundtrip(flen as u32);
    }
    let body = s.subrange(8, 8 + flen);
    assert(body =~= f);
    assert(frame_record(body) == r) by {
        lemma_decoded_record_unique(r, frame_record(body), body);
    }
    assert(e.len() == 8 + flen);
    assert(recover_from(s, 0) == seq![r] + recover_from(s, 8 + flen));
    lemma_recover_shift(e, rest, 0);
}

/// Replaying the journal written for well-formed records, followed by `tail`, gives back
/// those records, in order, and then whatever `tail` replays as.
#[verifier::rlimit(50)]
#[verifier::spinoff_prover]
pub proof fn lemma_recover_journal(rs: Seq<WalRecord>, tail: Seq<u8>)
    requires
        forall|i: int| 0 <= i < rs.len() ==> (#[trigger] rs[i]).wf(),
    ensures
        recover_from(journal_bytes(rs) + tail, 0) == rs + recover_from(tail, 0),
    decreases rs.len(),
{
    if rs.len() == 0 {
        assert(journal_bytes(rs) + tail =~= tail);
        assert(rs + recover_from(tail, 0) =~= recover_from(tail, 0));
    } else {
        let r = rs[0];
        let more = rs.drop_first();
        assert forall|i: int| 0 <= i < more.len() implies (#[trigger] more[i]).wf() by {
            assert(more[i] == rs[i + 1]);
        }
        lemma_recover_journal(more, tail);
        assert(journal_bytes(rs) + tail =~= journal_entry(r) + (journal_bytes(more) + tail));
        lemma_recover_entry(r, journal_bytes(more) + tail);
        assert(rs =~= seq![r] + more);
        assert(seq![r] + (more + recover_from(tail, 0)) =~= rs + recover_from(tail, 0));
    }
}

/// Recovery gives back exactly what was journaled, even when the last entry was cut short:
/// a strict prefix of one more entry after the complete ones is discarded.
pub proof fn lemma_recover_drops_torn_tail(rs: Seq<WalRecord>, last: WalRecord, cut: int)
    requires
        forall|i: int| 0 <= i < rs.len() ==> (#[trigger] rs[i]).wf(),
        last.wf(),
        0 <= cut < journal_entry(last).len(),
    ensures
        recover_from(journal_bytes(rs) + journal_entry(last).take(cut), 0) == rs,
{
    let t = journal_entry(last).take(cut);
    lemma_recover_journal(rs, t);
    let f = wal_frame(last);
    if cut >= 8 {
        assert(t.subrange(0, 4) =~= be_u32(JOURNAL_MAGIC));
        assert(t.subrange(4, 8) =~= be_u32(f.len() as u32));
        lemma_u32_be_roundtrip(f.len() as u32);
    }
    assert(recover_from(t, 0) =~= Seq::<WalRecord>::empty());
    assert(rs + Seq::<WalRecord>::empty() =~= rs);
}

} // verus!
