//! Write-ahead journal: checksummed binary mutation records, a bounded in-memory ring buffer and
//! the flush pipeline that makes records durable through a storage sink.
use vstd::prelude::*;

use crate::byte_order::{
    be_u32, be_u64, copy_into, lemma_u32_be_roundtrip, lemma_u64_be_roundtrip, push_u32_be,
    push_u64_be, read_u32_be, read_u64_be, u32_of_be, u64_of_be,
};
use crate::error::WorldError;
use crate::hibernation::{adler32, compute_adler32};

verus! {

/// Default capacity of a journal's in-memory ring buffer.
pub const DEFAULT_WAL_BUFFER_CAP: usize = 2048;

/// Maximum payload size of one record.
pub const MAX_WAL_PAYLOAD_LEN: usize = 128;

/// Length of the encoded record header.
pub const WAL_HEADER_LEN: usize = 30;

/// Opcode: entity spawned.
pub const OP_ENTITY_SPAWN: u8 = 0x01;

/// Opcode: entity despawned.
pub const OP_ENTITY_DESPAWN: u8 = 0x02;

/// Opcode: entity transform update.
pub const OP_ENTITY_TRANSFORM: u8 = 0x03;

/// Opcode: currency balance delta.
pub const OP_CURRENCY_DELTA: u8 = 0x04;

/// Opcode: inventory mutation.
pub const OP_INVENTORY_MUTATION: u8 = 0x05;

/// Opcode: checkpoint marker.
pub const OP_CHECKPOINT_MARKER: u8 = 0x06;

/// One journaled mutation with an inline payload and an Adler-based checksum.
#[derive(Debug, Clone, Copy, PartialEq, Eq)]
pub struct WalRecord {
    /// Log sequence number.
    pub lsn: u64,
    /// Simulation tick of the mutation.
    pub tick: u64,
    /// Account concerned.
    pub account_id: u64,
    /// Entity concerned.
    pub entity_id: u32,
    /// Mutation opcode.
    pub opcode: u8,
    /// Number of valid payload bytes.
    pub payload_len: u8,
    /// Payload buffer.
    pub payload: [u8; 128],
    /// Checksum over header fields and valid payload bytes.
    pub checksum: u32,
}

/// Number of payload bytes that take part in checksums and encodings.
pub open spec fn valid_payload_len(r: WalRecord) -> int {
    if r.payload_len > 128 {
        128
    } else {
        r.payload_len as int
    }
}

/// The 30 header bytes of a record.
pub open spec fn wal_header_bytes(r: WalRecord) -> Seq<u8> {
    be_u64(r.lsn) + be_u64(r.tick) + be_u64(r.account_id) + be_u32(r.entity_id) + seq![
        r.opcode,
        r.payload_len,
    ]
}

/// The checksum a record should carry: the header's Adler-32 xor the valid payload's.
pub open spec fn wal_checksum(r: WalRecord) -> u32 {
    adler32(wal_header_bytes(r)) ^ adler32(r.payload@.take(valid_payload_len(r)))
}

/// The encoded frame of a record: header, valid payload bytes, big-endian checksum.
pub open spec fn wal_frame(r: WalRecord) -> Seq<u8> {
    wal_header_bytes(r) + r.payload@.take(valid_payload_len(r)) + be_u32(r.checksum)
}

/// The buffer holds a complete frame whose declared payload length is valid.
pub open spec fn wal_frame_complete(s: Seq<u8>) -> bool {
    s.len() >= 34 && s[29] <= 128 && s.len() >= 34 + s[29]
}

/// `r` is the record whose frame starts `s`.
pub open spec fn decoded_record(r: WalRecord, s: Seq<u8>) -> bool {
    let p = s[29] as int;
    &&& r.lsn == u64_of_be(s.subrange(0, 8))
    &&& r.tick == u64_of_be(s.subrange(8, 16))
    &&& r.account_id == u64_of_be(s.subrange(16, 24))
    &&& r.entity_id == u32_of_be(s.subrange(24, 28))
    &&& r.opcode == s[28]
    &&& r.payload_len == s[29]
    &&& r.payload@ == s.subrange(30, 30 + p) + Seq::new((128 - p) as nat, |i: int| 0u8)
    &&& r.checksum == u32_of_be(s.subrange(30 + p, 34 + p))
}

impl Default for WalRecord {
    /// An all-zero record.
    fn default() -> (r: Self)
        ensures
            r.lsn == 0 && r.tick == 0 && r.account_id == 0 && r.entity_id == 0,
            r.opcode == 0 && r.payload_len == 0 && r.checksum == 0,
            r.payload@ == Seq::new(128, |i: int| 0u8),
    {
        let r = WalRecord {
            lsn: 0,
            tick: 0,
            account_id: 0,
            entity_id: 0,
            opcode: 0,
            payload_len: 0,
            payload: [0u8; 128],
            checksum: 0,
        };
        assert(r.payload@ =~= Seq::new(128, |i: int| 0u8));
        r
    }
}

fn push_wal_header(out: &mut Vec<u8>, r: &WalRecord)
    ensures
        final(out)@ == old(out)@ + wal_header_bytes(*r),
{
    push_u64_be(out, r.lsn);
    push_u64_be(out, r.tick);
    push_u64_be(out, r.account_id);
    push_u32_be(out, r.entity_id);
    out.push(r.opcode);
    out.push(r.payload_len);
    assert(final(out)@ =~= old(out)@ + wal_header_bytes(*r));
}

impl WalRecord {
    /// Well formed: the payload length is valid, unused payload bytes are zero and the checksum
    /// matches.
    pub open spec fn wf(&self) -> bool {
        &&& self.payload_len <= 128
        &&& forall|i: int| self.payload_len <= i < 128 ==> #[trigger] self.payload@[i] == 0
        &&& self.checksum == wal_checksum(*self)
    }

    /// Builds a checksummed record; a payload over 128 bytes is refused.
    pub fn new(
        lsn: u64,
        tick: u64,
        account_id: u64,
        entity_id: u32,
        opcode: u8,
        payload_data: &[u8],
    ) -> (res: Result<Self, WorldError>)
        ensures
            payload_data@.len() > 128 ==> res matches Err(WorldError::WalCorruptedRecord(_)),
            payload_data@.len() <= 128 ==> (res matches Ok(r) && {
                &&& r.wf()
                &&& r.lsn == lsn && r.tick == tick && r.account_id == account_id
                &&& r.entity_id == entity_id && r.opcode == opcode
                &&& r.payload_len == payload_data@.len()
                &&& r.payload@.take(payload_data@.len() as int) == payload_data@
            }),
    {
        let n = payload_data.len();
        if n > MAX_WAL_PAYLOAD_LEN {
            return Err(WorldError::WalCorruptedRecord("Payload exceeds maximum 128 bytes limit"));
        }
        let mut payload = [0u8; 128];
        let mut i: usize = 0;
        while i < n
            invariant
                i <= n,
                n <= 128,
                n == payload_data@.len(),
                payload@.len() == 128,
                forall|j: int| 0 <= j < i ==> #[trigger] payload@[j] == payload_data@[j],
                forall|j: int| i <= j < 128 ==> #[trigger] payload@[j] == 0,
            decreases n - i,
        {
            payload[i] = payload_data[i];
            i = i + 1;
        }
        let mut record = WalRecord {
            lsn,
            tick,
            account_id,
            entity_id,
            opcode,
            payload_len: n as u8,
            payload,
            checksum: 0,
        };
        record.checksum = record.compute_checksum();
        assert(record.payload@.take(n as int) =~= payload_data@);
        assert(record.payload@.take(valid_payload_len(record)) == payload@.take(valid_payload_len(
            record,
        )));
        Ok(record)
    }

    /// The checksum this record should carry.
    pub fn compute_checksum(&self) -> (c: u32)
        ensures
            c == wal_checksum(*self),
    {
        let mut header: Vec<u8> = Vec::new();
        push_wal_header(&mut header, self);
        let c1 = compute_adler32(header.as_slice());
        let len: usize = if self.payload_len as usize > MAX_WAL_PAYLOAD_LEN {
            MAX_WAL_PAYLOAD_LEN
        } else {
            self.payload_len as usize
        };
        let valid = vstd::slice::slice_subrange(self.payload.as_slice(), 0, len);
        let c2 = compute_adler32(valid);
        assert(valid@ =~= self.payload@.take(valid_payload_len(*self)));
        c1 ^ c2
    }

    /// Writes the frame of this record at the start of `out`, returning its length; a buffer
    /// too short for it is refused and left untouched.
    pub fn encode(&self, out: &mut [u8]) -> (res: Result<usize, WorldError>)
        ensures
            old(out)@.len() < wal_frame(*self).len() ==> (res matches Err(
                WorldError::WalCorruptedRecord(_),
            ) && final(out)@ == old(out)@),
            old(out)@.len() >= wal_frame(*self).len() ==> ({
                let f = wal_frame(*self);
                &&& res == Ok::<usize, WorldError>(f.len() as usize)
                &&& final(out)@ == f + old(out)@.subrange(f.len() as int, old(out)@.len() as int)
            }),
    {
        let p_len: usize = if self.payload_len as usize > MAX_WAL_PAYLOAD_LEN {
            MAX_WAL_PAYLOAD_LEN
        } else {
            self.payload_len as usize
        };
        let total_len = WAL_HEADER_LEN + p_len + 4;
        if out.len() < total_len {
            return Err(WorldError::WalCorruptedRecord("Destination buffer too small"));
        }
        let mut frame: Vec<u8> = Vec::new();
        push_wal_header(&mut frame, self);
        let ghost h = frame@;
        let mut i: usize = 0;
        while i < p_len
            invariant
                i <= p_len,
                p_len == valid_payload_len(*self),
                h == wal_header_bytes(*self),
                frame@ == h + self.payload@.take(i as int),
            decreases p_len - i,
        {
            frame.push(self.payload[i]);
            assert(frame@ =~= h + self.payload@.take(i + 1));
            i = i + 1;
        }
        push_u32_be(&mut frame, self.checksum);
        assert(frame@ =~= wal_frame(*self));
        copy_into(out, 0, frame.as_slice());
        Ok(total_len)
    }

    /// Reads the frame at the start of `buf`. A short buffer or an invalid payload length is
    /// `WalCorruptedRecord`; a checksum that does not match the contents is
    /// `WalChecksumMismatch` with the stored value as `expected` and the computed one as `actual`.
    pub fn decode(buf: &[u8]) -> (res: Result<(Self, usize), WorldError>)
        ensures
            !wal_frame_complete(buf@) ==> res matches Err(WorldError::WalCorruptedRecord(_)),
            wal_frame_complete(buf@) ==> match res {
                Ok((r, n)) => {
                    &&& decoded_record(r, buf@)
                    &&& wal_checksum(r) == r.checksum
                    &&& n == 34 + buf@[29]
                },
                Err(e) => exists|r: WalRecord| #[trigger]
                    decoded_record(r, buf@) && wal_checksum(r) != r.checksum && e
                        == (WorldError::WalChecksumMismatch {
                        expected: r.checksum,
                        actual: wal_checksum(r),
                    }),
            },
    {
        if buf.len() < WAL_HEADER_LEN + 4 {
            return Err(WorldError::WalCorruptedRecord("Buffer truncated before header"));
        }
        let lsn = read_u64_be(buf, 0);
        let tick = read_u64_be(buf, 8);
        let account_id = read_u64_be(buf, 16);
        let entity_id = read_u32_be(buf, 24);
        let opcode = buf[28];
        let payload_len = buf[29];
        if payload_len as usize > MAX_WAL_PAYLOAD_LEN {
            return Err(WorldError::WalCorruptedRecord("Payload length header invalid"));
        }
        let p_len = payload_len as usize;
        let total_len = WAL_HEADER_LEN + p_len + 4;
        if buf.len() < total_len {
            return Err(WorldError::WalCorruptedRecord("Buffer truncated before trailer"));
        }
        let mut payload = [0u8; 128];
        let mut i: usize = 0;
        while i < p_len
            invariant
                i <= p_len,
                p_len <= 128,
                30 + p_len <= buf@.len(),
                payload@.len() == 128,
                forall|j: int| 0 <= j < i ==> #[trigger] payload@[j] == buf@[30 + j],
                forall|j: int| i <= j < 128 ==> #[trigger] payload@[j] == 0,
            decreases p_len - i,
        {
            payload[i] = buf[WAL_HEADER_LEN + i];
            i = i + 1;
        }
        let checksum = read_u32_be(buf, WAL_HEADER_LEN + p_len);
        let record = WalRecord {
            lsn,
            tick,
            account_id,
            entity_id,
            opcode,
            payload_len,
            payload,
            checksum,
        };
        assert(record.payload@ =~= buf@.subrange(30, 30 + p_len) + Seq::new(
            (128 - p_len) as nat,
            |i: int| 0u8,
        ));
        assert(decoded_record(record, buf@));
        let calculated = record.compute_checksum();
        if calculated != checksum {
            return Err(WorldError::WalChecksumMismatch { expected: checksum, actual: calculated });
        }
        Ok((record, total_len))
    }
}

/// A frame describes at most one record.
pub proof fn lemma_decoded_record_unique(r1: WalRecord, r2: WalRecord, s: Seq<u8>)
    requires
        decoded_record(r1, s),
        decoded_record(r2, s),
    ensures
        r1 == r2,
{
    assert(r1.payload =~= r2.payload);
}

/// Encode/decode round trip: the frame of a well-formed record, followed by anything, decodes
/// back into exactly that record and consumes exactly the frame.
pub proof fn lemma_wal_frame_roundtrip(r: WalRecord, rest: Seq<u8>)
    requires
        r.wf(),
    ensures
        wal_frame_complete(wal_frame(r) + rest),
        (wal_frame(r) + rest)[29] + 34 == wal_frame(r).len(),
        decoded_record(r, wal_frame(r) + rest),
        forall|q: WalRecord| #[trigger] decoded_record(q, wal_frame(r) + rest) ==> q == r,
{
    let s = wal_frame(r) + rest;
    let p = r.payload_len as int;
    let h = wal_header_bytes(r);
    assert(h.len() == 30);
    assert(s[29] == r.payload_len);
    assert(s.subrange(0, 8) =~= be_u64(r.lsn));
    assert(s.subrange(8, 16) =~= be_u64(r.tick));
    assert(s.subrange(16, 24) =~= be_u64(r.account_id));
    assert(s.subrange(24, 28) =~= be_u32(r.entity_id));
    assert(s.subrange(30 + p, 34 + p) =~= be_u32(r.checksum));
    lemma_u64_be_roundtrip(r.lsn);
    lemma_u64_be_roundtrip(r.tick);
    lemma_u64_be_roundtrip(r.account_id);
    lemma_u32_be_roundtrip(r.entity_id);
    lemma_u32_be_roundtrip(r.checksum);
    assert(r.payload@ =~= s.subrange(30, 30 + p) + Seq::new((128 - p) as nat, |i: int| 0u8));
    assert forall|q: WalRecord| #[trigger] decoded_record(q, s) implies q == r by {
        assert(q.payload@ == r.payload@);
        assert(q.payload =~= r.payload);
    }
}

// ---------------------------------------------------------------------------------------------
// Ring buffer
// ---------------------------------------------------------------------------------------------

/// Position `x` of a ring of `c` slots, for `0 <= x < 2 * c`.
pub open spec fn wrap(x: int, c: int) -> int {
    if x >= c {
        x - c
    } else {
        x
    }
}

/// Bounded FIFO of records awaiting a durable flush, backed by `CAP` preallocated slots.
#[derive(Debug)]
pub struct WalRingBuffer<const CAP: usize> {
    slots: Vec<WalRecord>,
    head: usize,
    tail: usize,
    len: usize,
}

impl<const CAP: usize> View for WalRingBuffer<CAP> {
    type V = Seq<WalRecord>;

    /// The queued records, oldest first.
    closed spec fn view(&self) -> Seq<WalRecord> {
        Seq::new(self.len as nat, |i: int| self.slots@[wrap(self.head + i, CAP as int)])
    }
}

impl<const CAP: usize> WalRingBuffer<CAP> {
    /// Slot bookkeeping is consistent.
    pub closed spec fn wf(&self) -> bool {
        &&& self.slots@.len() == CAP
        &&& self.len <= CAP
        &&& CAP == 0 ==> self.head == 0 && self.tail == 0
        &&& CAP > 0 ==> self.head < CAP && self.tail == wrap(self.head + self.len, CAP as int)
    }

    /// An empty ring buffer with all `CAP` slots allocated.
    pub fn new() -> (b: Self)
        ensures
            b.wf(),
            b@ == Seq::<WalRecord>::empty(),
    {
        let mut slots: Vec<WalRecord> = Vec::new();
        let mut i: usize = 0;
        while i < CAP
            invariant
                i <= CAP,
                slots@.len() == i,
            decreases CAP - i,
        {
            slots.push(WalRecord::default());
            i = i + 1;
        }
        let b = WalRingBuffer { slots, head: 0, tail: 0, len: 0 };
        assert(b@ =~= Seq::<WalRecord>::empty());
        b
    }

    /// Queues a record at the back; a full buffer refuses it with `WalBufferFull`.
    pub fn try_push(&mut self, record: WalRecord) -> (r: Result<(), WorldError>)
        requires
            old(self).wf(),
        ensures
            final(self).wf(),
            old(self)@.len() >= CAP ==> r == Err::<(), WorldError>(WorldError::WalBufferFull)
                && final(self)@ == old(self)@,
            old(self)@.len() < CAP ==> r is Ok && final(self)@ == old(self)@.push(record),
    {
        if self.len >= CAP {
            return Err(WorldError::WalBufferFull);
        }
        let tail = self.tail;
        let ghost old_view = self@;
        self.slots.set(tail, record);
        self.tail = if tail + 1 == CAP { 0 } else { tail + 1 };
        self.len = self.len + 1;
        assert forall|i: int| 0 <= i < self.len implies #[trigger] self@[i] == old_view.push(
            record,
        )[i] by {
            if i < self.len - 1 {
                assert(wrap(self.head + i, CAP as int) != tail as int);
            }
        }
        assert(self@ =~= old_view.push(record));
        Ok(())
    }

    /// Slot holding the `i`-th oldest record.
    fn slot_of(&self, i: usize) -> (idx: usize)
        requires
            self.wf(),
            i < self.len,
        ensures
            idx < CAP,
            idx == wrap(self.head + i, CAP as int),
            self.slots@[idx as int] == self@[i as int],
    {
        if i >= CAP - self.head {
            i - (CAP - self.head)
        } else {
            self.head + i
        }
    }

    /// Copies up to `dest.len()` of the oldest records into `dest` without dequeuing them,
    /// returning how many were copied.
    pub fn peek_batch(&self, dest: &mut [WalRecord]) -> (count: usize)
        requires
            self.wf(),
        ensures
            count == (if old(dest)@.len() < self@.len() { old(dest)@.len() } else { self@.len() }),
            final(dest)@ == self@.take(count as int) + old(dest)@.skip(count as int),
    {
        let count = if dest.len() < self.len { dest.len() } else { self.len };
        let mut i: usize = 0;
        while i < count
            invariant
                self.wf(),
                i <= count,
                count <= self@.len(),
                count <= old(dest)@.len(),
                dest@.len() == old(dest)@.len(),
                forall|j: int| 0 <= j < i ==> #[trigger] dest@[j] == self@[j],
                forall|j: int| i <= j < dest@.len() ==> #[trigger] dest@[j] == old(dest)@[j],
            decreases count - i,
        {
            let idx = self.slot_of(i);
            dest[i] = self.slots[idx];
            i = i + 1;
        }
        assert(dest@ =~= self@.take(count as int) + old(dest)@.skip(count as int));
        count
    }

    /// Copies up to `dest.len()` queued records, starting with the `offset`-th oldest, into
    /// `dest` without dequeuing them, returning how many were copied.
    fn peek_batch_from(&self, offset: usize, dest: &mut [WalRecord]) -> (count: usize)
        requires
            self.wf(),
            offset <= self@.len(),
        ensures
            count == (if old(dest)@.len() < self@.len() - offset {
                old(dest)@.len() as int
            } else {
                self@.len() - offset
            }),
            final(dest)@.len() == old(dest)@.len(),
            final(dest)@.take(count as int) == self@.subrange(offset as int, offset + count),
    {
        let rest = self.len - offset;
        let count = if dest.len() < rest { dest.len() } else { rest };
        let mut i: usize = 0;
        while i < count
            invariant
                self.wf(),
                offset <= self@.len(),
                i <= count,
                offset + count <= self@.len(),
                count <= old(dest)@.len(),
                dest@.len() == old(dest)@.len(),
                forall|j: int| 0 <= j < i ==> #[trigger] dest@[j] == self@[offset + j],
            decreases count - i,
        {
            let idx = self.slot_of(offset + i);
            dest[i] = self.slots[idx];
            i = i + 1;
        }
        assert(dest@.take(count as int) =~= self@.subrange(offset as int, offset + count));
        count
    }

    /// Dequeues up to `count` of the oldest records.
    pub fn advance_head(&mut self, count: usize)
        requires
            old(self).wf(),
            CAP > 0,
        ensures
            final(self).wf(),
            final(self)@ == old(self)@.skip(
                if count < old(self)@.len() { count as int } else { old(self)@.len() as int },
            ),
    {
        let actual = if count < self.len { count } else { self.len };
        let ghost old_view = self@;
        self.head = if actual >= CAP - self.head {
            actual - (CAP - self.head)
        } else {
            self.head + actual
        };
        self.len = self.len - actual;
        assert(self@ =~= old_view.skip(actual as int));
    }

    /// Moves up to `dest.len()` of the oldest records into `dest`, returning how many moved.
    pub fn drain_batch(&mut self, dest: &mut [WalRecord]) -> (count: usize)
        requires
            old(self).wf(),
        ensures
            final(self).wf(),
            count == (if old(dest)@.len() < old(self)@.len() {
                old(dest)@.len()
            } else {
                old(self)@.len()
            }),
            final(dest)@ == old(self)@.take(count as int) + old(dest)@.skip(count as int),
            final(self)@ == old(self)@.skip(count as int),
    {
        let count = self.peek_batch(dest);
        if count > 0 {
            self.advance_head(count);
        }
        count
    }

    /// Number of queued records.
    pub fn len(&self) -> (n: usize)
        requires
            self.wf(),
        ensures
            n == self@.len(),
    {
        self.len
    }

    /// Whether nothing is queued.
    pub fn is_empty(&self) -> (b: bool)
        requires
            self.wf(),
        ensures
            b == (self@.len() == 0),
    {
        self.len == 0
    }
}

// ---------------------------------------------------------------------------------------------
// Durable sink and journal
// ---------------------------------------------------------------------------------------------

/// Destination that makes journal records durable.
///
/// A sink may describe itself through the spec functions below: the records it has accepted,
/// how many of them it has synced to physical storage, and the errors it has reported. Only a
/// sink that says so (`models_storage`) promises the clauses about them; sinks verified here do.
pub trait DurableWalSink: Send {
    /// Whether `stored`, `synced` and `faults` describe this sink.
    open spec fn models_storage(&self) -> bool {
        false
    }

    /// Records the sink has accepted, in the order written.
    open spec fn stored(&self) -> Seq<WalRecord> {
        Seq::empty()
    }

    /// How many of the accepted records have been synced to physical storage.
    open spec fn synced(&self) -> nat {
        0
    }

    /// Errors the sink has reported, in order.
    open spec fn faults(&self) -> Seq<WorldError> {
        Seq::empty()
    }

    /// Writes a batch of consecutive records to storage; once accepted, they follow what was
    /// stored before. Writing syncs nothing.
    fn write_batch(&mut self, records: &[WalRecord]) -> (r: Result<(), WorldError>)
        ensures
            final(self).models_storage() == old(self).models_storage(),
            old(self).models_storage() ==> final(self).synced() == old(self).synced(),
            old(self).models_storage() ==> match r {
                Ok(()) => final(self).stored() == old(self).stored() + records@ && final(self).faults()
                    == old(self).faults(),
                Err(e) => final(self).faults() == old(self).faults().push(e),
            },
    ;

    /// Forces buffered writes to physical storage, leaving the accepted records as they are:
    /// on success every accepted record is synced.
    fn flush(&mut self) -> (r: Result<(), WorldError>)
        ensures
            final(self).models_storage() == old(self).models_storage(),
            old(self).models_storage() ==> final(self).stored() == old(self).stored(),
            old(self).models_storage() ==> match r {
                Ok(()) => final(self).synced() == final(self).stored().len() && final(self).faults()
                    == old(self).faults(),
                Err(e) => final(self).synced() == old(self).synced() && final(self).faults()
                    == old(self).faults().push(e),
            },
    ;
}

/// In-memory storage that can be switched offline to simulate outages.
#[derive(Clone)]
pub struct MockDurableStorage {
    /// Records written so far.
    pub records: Vec<WalRecord>,
    /// Whether storage is currently reachable.
    pub is_available: bool,
    /// How many of the records have been synced.
    pub synced_count: Ghost<nat>,
    /// Errors reported so far.
    pub reported: Ghost<Seq<WorldError>>,
}

impl MockDurableStorage {
    /// Reachable storage holding no records.
    pub fn new() -> (m: Self)
        ensures
            m.records@ == Seq::<WalRecord>::empty(),
            m.is_available,
            m.synced() == 0,
            m.faults() == Seq::<WorldError>::empty(),
    {
        MockDurableStorage {
            records: Vec::new(),
            is_available: true,
            synced_count: Ghost(0),
            reported: Ghost(Seq::empty()),
        }
    }

    /// Switches the simulated connection on or off.
    pub fn set_available(&mut self, available: bool)
        ensures
            final(self).is_available == available,
            final(self).records@ == old(self).records@,
            final(self).synced() == old(self).synced(),
            final(self).faults() == old(self).faults(),
    {
        self.is_available = available;
    }
}

impl Default for MockDurableStorage {
    /// Same as `new`.
    fn default() -> (m: Self)
        ensures
            m.records@ == Seq::<WalRecord>::empty(),
            m.is_available,
    {
        MockDurableStorage::new()
    }
}

impl DurableWalSink for MockDurableStorage {
    open spec fn models_storage(&self) -> bool {
        true
    }

    open spec fn stored(&self) -> Seq<WalRecord> {
        self.records@
    }

    open spec fn synced(&self) -> nat {
        self.synced_count@
    }

    open spec fn faults(&self) -> Seq<WorldError> {
        self.reported@
    }

    /// Appends the batch while storage is reachable; otherwise `WalStorageUnavailable`.
    fn write_batch(&mut self, records: &[WalRecord]) -> (r: Result<(), WorldError>)
        ensures
            old(self).is_available ==> r is Ok && final(self).records@ == old(self).records@
                + records@,
            !old(self).is_available ==> r == Err::<(), WorldError>(
                WorldError::WalStorageUnavailable,
            ) && final(self).records@ == old(self).records@,
            final(self).is_available == old(self).is_available,
    {
        if !self.is_available {
            proof {
                self.reported@ = self.reported@.push(WorldError::WalStorageUnavailable);
            }
            return Err(WorldError::WalStorageUnavailable);
        }
        let n = records.len();
        let mut i: usize = 0;
        while i < n
            invariant
                i <= n,
                n == records@.len(),
                self.is_available == old(self).is_available,
                self.synced_count == old(self).synced_count,
                self.reported == old(self).reported,
                self.records@ == old(self).records@ + records@.take(i as int),
            decreases n - i,
        {
            self.records.push(records[i]);
            assert(self.records@ =~= old(self).records@ + records@.take(i + 1));
            i = i + 1;
        }
        assert(records@.take(n as int) =~= records@);
        Ok(())
    }

    /// Syncs everything written while storage is reachable; otherwise `WalStorageUnavailable`.
    fn flush(&mut self) -> (r: Result<(), WorldError>)
        ensures
            old(self).is_available ==> r is Ok,
            !old(self).is_available ==> r == Err::<(), WorldError>(WorldError::WalStorageUnavailable),
            final(self).records@ == old(self).records@,
            final(self).is_available == old(self).is_available,
    {
        if !self.is_available {
            proof {
                self.reported@ = self.reported@.push(WorldError::WalStorageUnavailable);
            }
            return Err(WorldError::WalStorageUnavailable);
        }
        proof {
            self.synced_count@ = self.records@.len();
        }
        Ok(())
    }
}

/// Records are ordered by sequence number.
pub open spec fn lsn_sorted(s: Seq<WalRecord>) -> bool {
    forall|i: int, j: int| 0 <= i <= j < s.len() ==> #[trigger] s[i].lsn <= #[trigger] s[j].lsn
}

/// Journal coordinating the pipeline: append into the ring buffer on the hot path, flush batches
/// to the durable sink, and acknowledge them only once storage accepted them.
pub struct WriteAheadJournal<const CAP: usize, S: DurableWalSink> {
    current_lsn: u64,
    durable_lsn: u64,
    ring_buffer: WalRingBuffer<CAP>,
    sink: S,
    drain_scratch: [WalRecord; 128],
}

impl<const CAP: usize, S: DurableWalSink> WriteAheadJournal<CAP, S> {
    /// Highest sequence number handed out.
    pub closed spec fn spec_current_lsn(&self) -> u64 {
        self.current_lsn
    }

    /// Highest sequence number confirmed durable.
    pub closed spec fn spec_durable_lsn(&self) -> u64 {
        self.durable_lsn
    }

    /// Records appended and not yet acknowledged by storage, oldest first.
    pub closed spec fn pending(&self) -> Seq<WalRecord> {
        self.ring_buffer@
    }

    /// The durable sink.
    pub closed spec fn spec_sink(&self) -> S {
        self.sink
    }

    /// Pending records are ordered, the newest carries the current sequence number, and with
    /// nothing pending everything handed out is durable.
    pub closed spec fn wf(&self) -> bool {
        &&& self.ring_buffer.wf()
        &&& self.durable_lsn <= self.current_lsn
        &&& lsn_sorted(self.ring_buffer@)
        &&& self.ring_buffer@.len() > 0 ==> self.ring_buffer@.last().lsn == self.current_lsn
        &&& self.ring_buffer@.len() == 0 ==> self.durable_lsn == self.current_lsn
    }

    /// A journal with nothing appended, writing to `sink`.
    pub fn new(sink: S) -> (j: Self)
        ensures
            j.wf(),
            j.spec_current_lsn() == 0,
            j.spec_durable_lsn() == 0,
            j.pending() == Seq::<WalRecord>::empty(),
            j.spec_sink() == sink,
    {
        let blank = WalRecord::default();
        WriteAheadJournal {
            current_lsn: 0,
            durable_lsn: 0,
            ring_buffer: WalRingBuffer::new(),
            sink,
            drain_scratch: [blank; 128],
        }
    }

    /// Highest sequence number handed out.
    pub fn current_lsn(&self) -> (n: u64)
        ensures
            n == self.spec_current_lsn(),
    {
        self.current_lsn
    }

    /// Highest sequence number confirmed durable.
    pub fn durable_lsn(&self) -> (n: u64)
        ensures
            n == self.spec_durable_lsn(),
    {
        self.durable_lsn
    }

    /// Whether `lsn` has been confirmed durable.
    pub fn is_flushed(&self, lsn: u64) -> (b: bool)
        ensures
            b == (lsn <= self.spec_durable_lsn()),
    {
        lsn <= self.durable_lsn
    }

    /// Number of records awaiting a flush.
    pub fn pending_count(&self) -> (n: usize)
        requires
            self.wf(),
        ensures
            n == self.pending().len(),
    {
        self.ring_buffer.len()
    }

    /// Journals a mutation under the next sequence number (saturating) and returns that number.
    /// An oversized payload is `WalCorruptedRecord` and a full buffer is `WalBufferFull`; in both
    /// cases nothing changes.
    pub fn append(
        &mut self,
        tick: u64,
        account_id: u64,
        entity_id: u32,
        opcode: u8,
        payload_data: &[u8],
    ) -> (r: Result<u64, WorldError>)
        requires
            old(self).wf(),
        ensures
            final(self).wf(),
            final(self).spec_durable_lsn() == old(self).spec_durable_lsn(),
            final(self).spec_sink() == old(self).spec_sink(),
            payload_data@.len() > 128 ==> (r matches Err(WorldError::WalCorruptedRecord(_))
                && final(self).pending() == old(self).pending() && final(self).spec_current_lsn()
                == old(self).spec_current_lsn()),
            payload_data@.len() <= 128 && old(self).pending().len() >= CAP ==> (r == Err::<
                u64,
                WorldError,
            >(WorldError::WalBufferFull) && final(self).pending() == old(self).pending()
                && final(self).spec_current_lsn() == old(self).spec_current_lsn()),
            payload_data@.len() <= 128 && old(self).pending().len() < CAP ==> ({
                let next = if old(self).spec_current_lsn() == u64::MAX {
                    u64::MAX
                } else {
                    (old(self).spec_current_lsn() + 1) as u64
                };
                &&& r == Ok::<u64, WorldError>(next)
                &&& final(self).spec_current_lsn() == next
                &&& final(self).pending().len() == old(self).pending().len() + 1
                &&& final(self).pending().drop_last() == old(self).pending()
                &&& ({
                    let rec = final(self).pending().last();
                    &&& rec.wf()
                    &&& rec.lsn == next && rec.tick == tick && rec.account_id == account_id
                    &&& rec.entity_id == entity_id && rec.opcode == opcode
                    &&& rec.payload_len == payload_data@.len()
                    &&& rec.payload@.take(payload_data@.len() as int) == payload_data@
                })
            }),
    {
        let next_lsn = self.current_lsn.saturating_add(1);
        let record = match WalRecord::new(next_lsn, tick, account_id, entity_id, opcode, payload_data) {
            Ok(rec) => rec,
            Err(e) => {
                return Err(e);
            },
        };
        match self.ring_buffer.try_push(record) {
            Ok(()) => {},
            Err(e) => {
                return Err(e);
            },
        }
        self.current_lsn = next_lsn;
        assert(self.ring_buffer@.drop_last() =~= old(self).ring_buffer@);
        Ok(next_lsn)
    }

    /// Writes every pending record to the sink in batches, then forces the sink to storage.
    /// Only once the sink has synced are the records acknowledged: then everything handed out
    /// is durable and nothing stays pending. If the sink fails at any step, that error is
    /// returned as the sink reported it, and the records all stay pending and unacknowledged, in
    /// order, for a retry. With nothing pending the sink is not called and the flush succeeds with 0.
    pub fn flush_pending(&mut self) -> (r: Result<usize, WorldError>)
        requires
            old(self).wf(),
        ensures
            final(self).wf(),
            final(self).spec_current_lsn() == old(self).spec_current_lsn(),
            r is Ok ==> {
                &&& r == Ok::<usize, WorldError>(old(self).pending().len() as usize)
                &&& final(self).pending() == Seq::<WalRecord>::empty()
                &&& final(self).spec_durable_lsn() == old(self).spec_current_lsn()
            },
            old(self).spec_sink().models_storage() ==> {
                let before = old(self).spec_sink();
                let after = final(self).spec_sink();
                &&& after.models_storage()
                &&& r is Ok ==> after.stored() == before.stored() + old(self).pending()
                    && after.faults() == before.faults()
                &&& r is Ok && old(self).pending().len() > 0 ==> after.synced() == after.stored().len()
                &&& r matches Err(e) ==> after.faults() == before.faults().push(e)
                &&& after.faults() == before.faults() ==> r is Ok
            },
            r is Err ==> final(self).pending() == old(self).pending()
                && final(self).spec_durable_lsn() == old(self).spec_durable_lsn(),
            old(self).pending().len() == 0 ==> r == Ok::<usize, WorldError>(0)
                && final(self).spec_durable_lsn() == old(self).spec_durable_lsn()
                && final(self).spec_sink() == old(self).spec_sink(),
    {
        let ghost start = self.ring_buffer@;
        let ghost stored0 = self.sink.stored();
        let ghost faults0 = self.sink.faults();
        let ghost models = self.sink.models_storage();
        let n = self.ring_buffer.len();
        if n == 0 {
            return Ok(0);
        }
        let mut done: usize = 0;
        while done < n
            invariant
                self.wf(),
                *self == (WriteAheadJournal { sink: self.sink, drain_scratch: self.drain_scratch, ..*old(self) }),
                self.ring_buffer@ == start,
                n == start.len(),
                done <= n,
                self.sink.models_storage() == models,
                models == old(self).sink.models_storage(),
                faults0 == old(self).sink.faults(),
                stored0 == old(self).sink.stored(),
                models ==> self.sink.stored() == stored0 + start.take(done as int),
                models ==> self.sink.faults() == faults0,
                self.drain_scratch@.len() == 128,
            decreases n - done,
        {
            let count = self.ring_buffer.peek_batch_from(done, &mut self.drain_scratch);
            let batch = vstd::slice::slice_subrange(self.drain_scratch.as_slice(), 0, count);
            assert(batch@ == start.subrange(done as int, done + count));
            match self.sink.write_batch(batch) {
                Ok(()) => {},
                Err(e) => {
                    proof {
                        if models {
                            assert(self.sink.faults().len() == faults0.len() + 1);
                        }
                    }
                    return Err(e);
                },
            }
            assert(start.take(done + count) =~= start.take(done as int) + start.subrange(
                done as int,
                done + count,
            ));
            done = done + count;
        }
        match self.sink.flush() {
            Ok(()) => {},
            Err(e) => {
                proof {
                    if models {
                        assert(self.sink.faults().len() == faults0.len() + 1);
                    }
                }
                return Err(e);
            },
        }
        assert(start.take(n as int) =~= start);
        self.ring_buffer.advance_head(n);
        self.durable_lsn = self.current_lsn;
        assert(self.ring_buffer@ =~= Seq::<WalRecord>::empty());
        Ok(n)
    }
}


} // verus!
