//! Double-buffered journal queue: the simulation pushes stamped records into the active buffer
//! while a background flusher swaps buffers, frames the drained records and advances the
//! durability fence.
use vstd::prelude::*;

use crate::durable_journal::{
    append_journal_entry, journal_bytes, journal_entry, lemma_recover_journal, recover_from,
};
use crate::wal::WalRecord;

verus! {

/// Records each buffer partition can hold.
pub const JOURNAL_BUFFER_CAPACITY: usize = 2048;

/// A journal record stamped with its transaction sequence number.
#[derive(Debug, Clone, PartialEq, Eq)]
pub struct StampedWalRecord {
    /// Transaction sequence number.
    pub sequence: u64,
    /// The journaled record.
    pub record: WalRecord,
}

/// The bytes written for a batch, in order.
pub open spec fn journal_batch_bytes(rs: Seq<StampedWalRecord>) -> Seq<u8>
    decreases rs.len(),
{
    if rs.len() == 0 {
        Seq::empty()
    } else {
        journal_batch_bytes(rs.drop_last()) + journal_entry(rs.last().record)
    }
}

/// Highest sequence number in a batch (0 for an empty batch).
pub open spec fn highest_sequence(rs: Seq<StampedWalRecord>) -> u64
    decreases rs.len(),
{
    if rs.len() == 0 {
        0
    } else {
        let h = highest_sequence(rs.drop_last());
        if rs.last().sequence > h {
            rs.last().sequence
        } else {
            h
        }
    }
}

/// Two-partition submission queue with a monotonic sequence counter and a durability fence.
pub struct DoubleBufferedJournalQueue {
    active_buf_idx: usize,
    buffer_a: Vec<StampedWalRecord>,
    buffer_b: Vec<StampedWalRecord>,
    latest_sequence: u64,
    committed_sequence: u64,
}

impl DoubleBufferedJournalQueue {
    /// Index (0 or 1) of the partition receiving pushes.
    pub closed spec fn active_partition(&self) -> int {
        self.active_buf_idx as int
    }

    /// Contents of partition `i`.
    pub closed spec fn partition(&self, i: int) -> Seq<StampedWalRecord> {
        if i == 0 {
            self.buffer_a@
        } else {
            self.buffer_b@
        }
    }

    /// Last sequence number handed out.
    pub closed spec fn spec_latest(&self) -> u64 {
        self.latest_sequence
    }

    /// Durability fence: highest sequence number of the last flushed batch.
    pub closed spec fn spec_committed(&self) -> u64 {
        self.committed_sequence
    }

    /// The active partition index is 0 or 1.
    pub closed spec fn wf(&self) -> bool {
        self.active_buf_idx < 2
    }

    /// Empty partitions, partition 0 active, no sequence numbers handed out.
    pub fn new() -> (q: Self)
        ensures
            q.wf(),
            q.active_partition() == 0,
            q.partition(0) == Seq::<StampedWalRecord>::empty(),
            q.partition(1) == Seq::<StampedWalRecord>::empty(),
            q.spec_latest() == 0,
            q.spec_committed() == 0,
    {
        DoubleBufferedJournalQueue {
            active_buf_idx: 0,
            buffer_a: Vec::with_capacity(JOURNAL_BUFFER_CAPACITY),
            buffer_b: Vec::with_capacity(JOURNAL_BUFFER_CAPACITY),
            latest_sequence: 0,
            committed_sequence: 0,
        }
    }

    /// Stamps `record` with the next sequence number (wrapping to 0 after `u64::MAX`) and
    /// appends it to the active partition; a full partition refuses it with `None`.
    pub fn push(&mut self, record: WalRecord) -> (r: Option<u64>)
        requires
            old(self).wf(),
        ensures
            final(self).wf(),
            final(self).active_partition() == old(self).active_partition(),
            final(self).spec_committed() == old(self).spec_committed(),
            final(self).partition(1 - old(self).active_partition()) == old(self).partition(
                1 - old(self).active_partition(),
            ),
            ({
                let a = old(self).active_partition();
                if old(self).partition(a).len() < 2048 {
                    &&& r == Some(next_sequence(old(self).spec_latest()))
                    &&& final(self).spec_latest() == next_sequence(old(self).spec_latest())
                    &&& final(self).partition(a) == old(self).partition(a).push(
                        StampedWalRecord { sequence: next_sequence(old(self).spec_latest()), record },
                    )
                } else {
                    &&& r is None
                    &&& final(self).spec_latest() == old(self).spec_latest()
                    &&& final(self).partition(a) == old(self).partition(a)
                }
            }),
    {
        if self.active_buf_idx == 0 {
            if self.buffer_a.len() < JOURNAL_BUFFER_CAPACITY {
                let seq = self.latest_sequence.wrapping_add(1);
                self.latest_sequence = seq;
                self.buffer_a.push(StampedWalRecord { sequence: seq, record });
                Some(seq)
            } else {
                None
            }
        } else {
            if self.buffer_b.len() < JOURNAL_BUFFER_CAPACITY {
                let seq = self.latest_sequence.wrapping_add(1);
                self.latest_sequence = seq;
                self.buffer_b.push(StampedWalRecord { sequence: seq, record });
                Some(seq)
            } else {
                None
            }
        }
    }

    /// The durability fence.
    pub fn committed_sequence(&self) -> (n: u64)
        ensures
            n == self.spec_committed(),
    {
        self.committed_sequence
    }

    /// Last sequence number handed out.
    pub fn latest_sequence(&self) -> (n: u64)
        ensures
            n == self.spec_latest(),
    {
        self.latest_sequence
    }

    /// Whether `sequence` is covered by the durability fence.
    pub fn is_durable(&self, sequence: u64) -> (b: bool)
        ensures
            b == (self.spec_committed() >= sequence),
    {
        self.committed_sequence >= sequence
    }

    /// Makes the other partition active and moves everything pushed into the previously active
    /// one into `out` (whose old contents are discarded), returning how many records moved.
    pub fn swap_and_drain(&mut self, out: &mut Vec<StampedWalRecord>) -> (n: usize)
        requires
            old(self).wf(),
        ensures
            final(self).wf(),
            final(self).active_partition() == 1 - old(self).active_partition(),
            final(out)@ == old(self).partition(old(self).active_partition()),
            final(self).partition(old(self).active_partition()) == Seq::<StampedWalRecord>::empty(),
            final(self).partition(1 - old(self).active_partition()) == old(self).partition(
                1 - old(self).active_partition(),
            ),
            n == final(out)@.len(),
            final(self).spec_latest() == old(self).spec_latest(),
            final(self).spec_committed() == old(self).spec_committed(),
    {
        let old_idx = self.active_buf_idx;
        self.active_buf_idx = 1 - old_idx;
        out.clear();
        if old_idx == 0 {
            std::mem::swap(&mut self.buffer_a, out);
        } else {
            std::mem::swap(&mut self.buffer_b, out);
        }
        out.len()
    }

    /// Appends the framed batch to `out` (per record: its journal entry) and returns the number
    /// of bytes framed. The durability fence does not move: the caller writes and syncs the
    /// bytes, then calls `mark_committed`.
    pub fn flush_records(&self, records: &[StampedWalRecord], out: &mut Vec<u8>) -> (r: Result<
        usize,
        crate::error::WorldError,
    >)
        ensures
            final(out)@ == old(out)@ + journal_batch_bytes(records@),
            r == Ok::<usize, crate::error::WorldError>(journal_batch_bytes(records@).len() as usize),
    {
        let n = records.len();
        let mut total_bytes: usize = 0;
        let mut i: usize = 0;
        while i < n
            invariant
                i <= n,
                n == records@.len(),
                out@ == old(out)@ + journal_batch_bytes(records@.take(i as int)),
                total_bytes == journal_batch_bytes(records@.take(i as int)).len(),
            decreases n - i,
        {
            let stamped = &records[i];
            assert(records@.take(i + 1).drop_last() =~= records@.take(i as int));
            let written = append_journal_entry(&stamped.record, out);
            assert(out@ =~= old(out)@ + journal_batch_bytes(records@.take(i + 1)));
            let cur_len = out.len();
            assert(total_bytes + written <= cur_len);
            total_bytes = total_bytes + written;
            i = i + 1;
        }
        assert(records@.take(n as int) =~= records@);
        Ok(total_bytes)
    }

    /// Moves the durability fence to the highest sequence number of a batch whose framed bytes
    /// were written and synced; an empty batch leaves it.
    pub fn mark_committed(&mut self, records: &[StampedWalRecord])
        ensures
            final(self).wf() == old(self).wf(),
            final(self).active_partition() == old(self).active_partition(),
            final(self).partition(0) == old(self).partition(0),
            final(self).partition(1) == old(self).partition(1),
            final(self).spec_latest() == old(self).spec_latest(),
            final(self).spec_committed() == if highest_sequence(records@) > 0 {
                highest_sequence(records@)
            } else {
                old(self).spec_committed()
            },
    {
        let n = records.len();
        let mut highest_seq: u64 = 0;
        let mut i: usize = 0;
        while i < n
            invariant
                i <= n,
                n == records@.len(),
                highest_seq == highest_sequence(records@.take(i as int)),
            decreases n - i,
        {
            assert(records@.take(i + 1).drop_last() =~= records@.take(i as int));
            if records[i].sequence > highest_seq {
                highest_seq = records[i].sequence;
            }
            i = i + 1;
        }
        assert(records@.take(n as int) =~= records@);
        if highest_seq > 0 {
            self.committed_sequence = highest_seq;
        }
    }
}

impl Default for DoubleBufferedJournalQueue {
    /// Same as `new`.
    fn default() -> (q: Self)
        ensures
            q.wf(),
            q.active_partition() == 0,
            q.partition(0) == Seq::<StampedWalRecord>::empty(),
            q.partition(1) == Seq::<StampedWalRecord>::empty(),
            q.spec_latest() == 0,
            q.spec_committed() == 0,
    {
        DoubleBufferedJournalQueue::new()
    }
}

proof fn lemma_journal_bytes_push(xs: Seq<WalRecord>, x: WalRecord)
    ensures
        journal_bytes(xs.push(x)) == journal_bytes(xs) + journal_entry(x),
    decreases xs.len(),
{
    if xs.len() == 0 {
        assert(xs.push(x).drop_first() =~= Seq::<WalRecord>::empty());
        assert(xs.push(x)[0] == x);
        assert(journal_bytes(xs.push(x).drop_first()) =~= Seq::<u8>::empty());
        assert(journal_bytes(xs.push(x)) =~= journal_entry(x) + Seq::<u8>::empty());
        assert(journal_bytes(xs) + journal_entry(x) =~= journal_entry(x));
    } else {
        lemma_journal_bytes_push(xs.drop_first(), x);
        assert(xs.push(x).drop_first() =~= xs.drop_first().push(x));
        assert(journal_bytes(xs.push(x)) =~= journal_entry(xs[0]) + (journal_bytes(xs.drop_first())
            + journal_entry(x)));
    }
}

/// The sequence number after `n`, wrapping to 0.
pub open spec fn next_sequence(n: u64) -> u64 {
    if n == u64::MAX {
        0
    } else {
        (n + 1) as u64
    }
}

/// The records of a batch, without their sequence stamps.
pub open spec fn batch_records(rs: Seq<StampedWalRecord>) -> Seq<WalRecord> {
    rs.map_values(|s: StampedWalRecord| s.record)
}

/// The bytes a flush writes for a batch are the journal of its records.
proof fn lemma_batch_bytes_are_journal(rs: Seq<StampedWalRecord>)
    ensures
        journal_batch_bytes(rs) == journal_bytes(batch_records(rs)),
    decreases rs.len(),
{
    if rs.len() == 0 {
        assert(batch_records(rs) =~= Seq::<WalRecord>::empty());
    } else {
        lemma_batch_bytes_are_journal(rs.drop_last());
        assert(batch_records(rs) =~= batch_records(rs.drop_last()).push(rs.last().record));
        lemma_journal_bytes_push(batch_records(rs.drop_last()), rs.last().record);
    }
}

/// A flushed batch of well-formed records is recovered intact: replaying the bytes that
/// `flush_records` wrote gives back the batch's records in order.
pub proof fn lemma_flushed_batch_recovers(rs: Seq<StampedWalRecord>)
    requires
        forall|i: int| 0 <= i < rs.len() ==> (#[trigger] rs[i]).record.wf(),
    ensures
        recover_from(journal_batch_bytes(rs), 0) == batch_records(rs),
{
    lemma_batch_bytes_are_journal(rs);
    let recs = batch_records(rs);
    assert forall|i: int| 0 <= i < recs.len() implies (#[trigger] recs[i]).wf() by {
        assert(recs[i] == rs[i].record);
    }
    lemma_recover_journal(recs, Seq::empty());
    assert(journal_bytes(recs) + Seq::<u8>::empty() =~= journal_bytes(recs));
    assert(recover_from(Seq::<u8>::empty(), 0) =~= Seq::<WalRecord>::empty());
    assert(recs + Seq::<WalRecord>::empty() =~= recs);
}

} // verus!
