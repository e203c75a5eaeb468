//! Zone crash reconstruction: a replacement zone server rebuilds the positions of a zone's
//! entities from a periodic checkpoint and the write-ahead log records that follow it, and the
//! position payloads carried by spawn and transform records.
use vstd::prelude::*;

use crate::byte_order::{be_u64, lemma_u64_be_roundtrip, read_u64_be, u64_of_be};
use crate::error::{WorldError, ZoneId};
use crate::slots::count_some;
use crate::wal::{WalRecord, OP_ENTITY_DESPAWN, OP_ENTITY_SPAWN, OP_ENTITY_TRANSFORM};
use crate::zone::FixedVec3;

verus! {

/// Size of an encoded position.
pub const POSITION_PAYLOAD_BYTES: usize = 24;

/// The 24 bytes of a position: the raw x, y and z components, each big-endian.
pub open spec fn position_bytes(p: FixedVec3) -> Seq<u8> {
    be_u64(p.x as u64) + be_u64(p.y as u64) + be_u64(p.z as u64)
}

/// The position stored in the first 24 bytes of `s`.
pub open spec fn position_of_bytes(s: Seq<u8>) -> FixedVec3 {
    FixedVec3 {
        x: u64_of_be(s.subrange(0, 8)) as i64,
        y: u64_of_be(s.subrange(8, 16)) as i64,
        z: u64_of_be(s.subrange(16, 24)) as i64,
    }
}

fn write_i64_be_at(out: &mut [u8], at: usize, x: i64)
    requires
        at + 8 <= old(out)@.len(),
    ensures
        final(out)@.len() == old(out)@.len(),
        final(out)@.subrange(at as int, at + 8) == be_u64(x as u64),
        forall|i: int|
            0 <= i < old(out)@.len() && !(at <= i < at + 8) ==> #[trigger] final(out)@[i]
                == old(out)@[i],
{
    let u = x as u64;
    out[at] = (u >> 56u64) as u8;
    out[at + 1] = (u >> 48u64) as u8;
    out[at + 2] = (u >> 40u64) as u8;
    out[at + 3] = (u >> 32u64) as u8;
    out[at + 4] = (u >> 24u64) as u8;
    out[at + 5] = (u >> 16u64) as u8;
    out[at + 6] = (u >> 8u64) as u8;
    out[at + 7] = u as u8;
    assert(out@.subrange(at as int, at + 8) =~= be_u64(u));
}

/// Encodes a position into the 24-byte payload of a spawn or transform record.
pub fn encode_position_payload(pos: FixedVec3) -> (buf: [u8; 24])
    ensures
        buf@ == position_bytes(pos),
{
    let mut buf = [0u8; 24];
    write_i64_be_at(&mut buf, 0, pos.x);
    let ghost a = buf@;
    write_i64_be_at(&mut buf, 8, pos.y);
    let ghost b = buf@;
    write_i64_be_at(&mut buf, 16, pos.z);
    assert(buf@ =~= position_bytes(pos)) by {
        assert(buf@.subrange(0, 8) =~= a.subrange(0, 8));
        assert(buf@.subrange(8, 16) =~= b.subrange(8, 16));
    }
    buf
}

/// Decodes a position from the first 24 bytes of `buf`; a shorter buffer is refused as a
/// corrupted record.
pub fn decode_position_payload(buf: &[u8]) -> (r: Result<FixedVec3, WorldError>)
    ensures
        buf@.len() < 24 ==> r == Err::<FixedVec3, WorldError>(
            WorldError::WalCorruptedRecord("Position payload buffer too short"),
        ),
        buf@.len() >= 24 ==> r == Ok::<FixedVec3, WorldError>(position_of_bytes(buf@)),
{
    if buf.len() < 24 {
        return Err(WorldError::WalCorruptedRecord("Position payload buffer too short"));
    }
    let x = read_u64_be(buf, 0) as i64;
    let y = read_u64_be(buf, 8) as i64;
    let z = read_u64_be(buf, 16) as i64;
    Ok(FixedVec3 { x, y, z })
}

proof fn lemma_i64_be_roundtrip(x: i64)
    ensures
        u64_of_be(be_u64(x as u64)) as i64 == x,
{
    lemma_u64_be_roundtrip(x as u64);
    assert(((x as u64) as i64) == x) by (bit_vector);
}

/// Position round trip: decoding the payload encoded for a position, followed by anything,
/// gives back the position.
pub proof fn lemma_position_payload_roundtrip(p: FixedVec3, rest: Seq<u8>)
    ensures
        position_bytes(p).len() == 24,
        position_of_bytes(position_bytes(p) + rest) == p,
{
    let s = position_bytes(p) + rest;
    assert(s.subrange(0, 8) =~= be_u64(p.x as u64));
    assert(s.subrange(8, 16) =~= be_u64(p.y as u64));
    assert(s.subrange(16, 24) =~= be_u64(p.z as u64));
    lemma_i64_be_roundtrip(p.x);
    lemma_i64_be_roundtrip(p.y);
    lemma_i64_be_roundtrip(p.z);
}

/// Entity active in a zone checkpoint.
#[derive(Debug, Clone, Copy, PartialEq, Eq, Structural)]
pub struct CheckpointEntity {
    /// Entity identifier.
    pub entity_id: u32,
    /// Authoritative position.
    pub position: FixedVec3,
}

/// Periodic snapshot of a zone's authoritative state.
#[derive(Debug, Clone, PartialEq, Eq)]
pub struct ZoneCheckpoint {
    /// Zone identifier.
    pub zone_id: ZoneId,
    /// Simulation tick at which the checkpoint was captured.
    pub checkpoint_tick: u64,
    /// Highest log sequence number included in the checkpoint.
    pub last_lsn: u64,
    /// Entities active when the checkpoint was taken.
    pub entities: Vec<CheckpointEntity>,
}

/// Entity positions of a zone: slot `i` holds the position of entity `i`, if it is present.
/// Entities are tracked only below the zone's capacity.
pub struct ZoneState {
    /// Zone identifier.
    pub zone_id: ZoneId,
    /// Position of each entity slot.
    pub positions: Vec<Option<FixedVec3>>,
}

/// Spawns `id` at `pos`: an identifier beyond capacity or already present is `ZoneFull`.
pub open spec fn spawn_in(zone: ZoneId, z: Seq<Option<FixedVec3>>, id: u32, pos: FixedVec3) -> Result<
    Seq<Option<FixedVec3>>,
    WorldError,
> {
    if id >= z.len() || z[id as int] is Some {
        Err(WorldError::ZoneFull(zone))
    } else {
        Ok(z.update(id as int, Some(pos)))
    }
}

/// Despawns `id` (`pos` is `None`) or moves it to `pos`: an entity not present is `EntityNotFound`.
pub open spec fn set_present(z: Seq<Option<FixedVec3>>, id: u32, pos: Option<FixedVec3>) -> Result<
    Seq<Option<FixedVec3>>,
    WorldError,
> {
    if id >= z.len() || z[id as int] is None {
        Err(WorldError::EntityNotFound(id))
    } else {
        Ok(z.update(id as int, pos))
    }
}

/// Positions after spawning the checkpoint's entities, in order, into `z`.
pub open spec fn spawn_all(zone: ZoneId, z: Seq<Option<FixedVec3>>, es: Seq<CheckpointEntity>) -> Result<
    Seq<Option<FixedVec3>>,
    WorldError,
>
    decreases es.len(),
{
    if es.len() == 0 {
        Ok(z)
    } else {
        match spawn_all(zone, z, es.drop_last()) {
            Err(e) => Err(e),
            Ok(z1) => spawn_in(zone, z1, es.last().entity_id, es.last().position),
        }
    }
}

/// Valid payload bytes of a record.
pub open spec fn record_payload(r: WalRecord) -> Seq<u8> {
    r.payload@.take(r.payload_len as int)
}

/// The position a record carries, or the decode error.
pub open spec fn record_position(r: WalRecord) -> Result<FixedVec3, WorldError> {
    if r.payload_len < 24 {
        Err(WorldError::WalCorruptedRecord("Position payload buffer too short"))
    } else {
        Ok(position_of_bytes(record_payload(r)))
    }
}

/// Replaying one record on positions `z`, the last replayed sequence number being `expected`:
/// records up to the checkpoint are skipped; the next must carry `expected + 1` (saturating),
/// else `WalLsnRegression`; spawn, despawn and transform records change the positions; any other
/// record leaves them.
pub open spec fn replay_step(
    zone: ZoneId,
    checkpoint_lsn: u64,
    z: Seq<Option<FixedVec3>>,
    expected: u64,
    r: WalRecord,
) -> Result<(Seq<Option<FixedVec3>>, u64), WorldError> {
    if r.lsn <= checkpoint_lsn {
        Ok((z, expected))
    } else {
        let next: u64 = if expected == u64::MAX { u64::MAX } else { (expected + 1) as u64 };
        if r.lsn != next {
            Err(WorldError::WalLsnRegression { current: next, incoming: r.lsn })
        } else if r.opcode == OP_ENTITY_SPAWN {
            match record_position(r) {
                Err(e) => Err(e),
                Ok(p) => match spawn_in(zone, z, r.entity_id, p) {
                    Err(e) => Err(e),
                    Ok(z2) => Ok((z2, r.lsn)),
                },
            }
        } else if r.opcode == OP_ENTITY_DESPAWN {
            match set_present(z, r.entity_id, None) {
                Err(e) => Err(e),
                Ok(z2) => Ok((z2, r.lsn)),
            }
        } else if r.opcode == OP_ENTITY_TRANSFORM {
            match record_position(r) {
                Err(e) => Err(e),
                Ok(p) => match set_present(z, r.entity_id, Some(p)) {
                    Err(e) => Err(e),
                    Ok(z2) => Ok((z2, r.lsn)),
                },
            }
        } else {
            Ok((z, r.lsn))
        }
    }
}

/// Replaying the records `rs` in order.
pub open spec fn replay_records(
    zone: ZoneId,
    checkpoint_lsn: u64,
    z: Seq<Option<FixedVec3>>,
    expected: u64,
    rs: Seq<WalRecord>,
) -> Result<(Seq<Option<FixedVec3>>, u64), WorldError>
    decreases rs.len(),
{
    if rs.len() == 0 {
        Ok((z, expected))
    } else {
        match replay_records(zone, checkpoint_lsn, z, expected, rs.drop_last()) {
            Err(e) => Err(e),
            Ok((z1, e1)) => replay_step(zone, checkpoint_lsn, z1, e1, rs.last()),
        }
    }
}

/// Zone positions rebuilt from `checkpoint` and `records` for a zone of `max_entities` slots.
pub open spec fn spec_replay(checkpoint: ZoneCheckpoint, max_entities: nat, records: Seq<WalRecord>) -> Result<
    Seq<Option<FixedVec3>>,
    WorldError,
> {
    let empty = Seq::new(max_entities, |i: int| None::<FixedVec3>);
    match spawn_all(checkpoint.zone_id, empty, checkpoint.entities@) {
        Err(e) => Err(e),
        Ok(z) => match replay_records(checkpoint.zone_id, checkpoint.last_lsn, z, checkpoint.last_lsn, records) {
            Err(e) => Err(e),
            Ok((z2, _)) => Ok(z2),
        },
    }
}

impl ZoneState {
    /// Position of entity `entity_id`, if present.
    pub fn get_position(&self, entity_id: u32) -> (r: Option<FixedVec3>)
        ensures
            r == (if (entity_id as int) < self.positions@.len() {
                self.positions@[entity_id as int]
            } else {
                None
            }),
    {
        if (entity_id as usize) < self.positions.len() {
            self.positions[entity_id as usize]
        } else {
            None
        }
    }

    /// Number of entities present.
    pub fn active_count(&self) -> (n: usize)
        ensures
            n == count_some(self.positions@),
    {
        let mut n: usize = 0;
        let mut i: usize = 0;
        while i < self.positions.len()
            invariant
                i <= self.positions@.len(),
                n == count_some(self.positions@.take(i as int)),
                n <= i,
            decreases self.positions@.len() - i,
        {
            assert(self.positions@.take(i + 1).drop_last() =~= self.positions@.take(i as int));
            if self.positions[i].is_some() {
                n = n + 1;
            }
            i = i + 1;
        }
        assert(self.positions@.take(i as int) =~= self.positions@);
        n
    }

    fn spawn(&mut self, id: u32, pos: FixedVec3) -> (r: Result<(), WorldError>)
        ensures
            final(self).zone_id == old(self).zone_id,
            match spawn_in(old(self).zone_id, old(self).positions@, id, pos) {
                Ok(z) => r is Ok && final(self).positions@ == z,
                Err(e) => r == Err::<(), WorldError>(e) && final(self).positions@ == old(self).positions@,
            },
    {
        if id as usize >= self.positions.len() || self.positions[id as usize].is_some() {
            return Err(WorldError::ZoneFull(self.zone_id));
        }
        self.positions.set(id as usize, Some(pos));
        Ok(())
    }

    fn set(&mut self, id: u32, pos: Option<FixedVec3>) -> (r: Result<(), WorldError>)
        ensures
            final(self).zone_id == old(self).zone_id,
            match set_present(old(self).positions@, id, pos) {
                Ok(z) => r is Ok && final(self).positions@ == z,
                Err(e) => r == Err::<(), WorldError>(e) && final(self).positions@ == old(self).positions@,
            },
    {
        if id as usize >= self.positions.len() || self.positions[id as usize].is_none() {
            return Err(WorldError::EntityNotFound(id));
        }
        self.positions.set(id as usize, pos);
        Ok(())
    }
}

/// Rebuilds a zone after a crash: the checkpoint's entities are spawned, then the log records
/// after the checkpoint are replayed in strict sequence order. Records at or below the
/// checkpoint's sequence number are skipped as already included; a gap or regression is
/// `WalLsnRegression`; an entity that cannot be spawned is `ZoneFull`, one that is missing when
/// despawned or moved is `EntityNotFound`, and a position payload under 24 bytes is
/// `WalCorruptedRecord`.
pub fn reconstruct_zone_from_wal(checkpoint: &ZoneCheckpoint, max_entities: usize, wal_records: &[WalRecord]) -> (r:
    Result<ZoneState, WorldError>)
    requires
        forall|i: int| 0 <= i < wal_records@.len() ==> (#[trigger] wal_records@[i]).payload_len <= 128,
    ensures
        match spec_replay(*checkpoint, max_entities as nat, wal_records@) {
            Ok(z) => r matches Ok(st) && st.zone_id == checkpoint.zone_id && st.positions@ == z,
            Err(e) => r matches Err(e2) && e2 == e,
        },
{
    let mut positions: Vec<Option<FixedVec3>> = Vec::new();
    let mut k: usize = 0;
    while k < max_entities
        invariant
            k <= max_entities,
            positions@ == Seq::new(k as nat, |i: int| None::<FixedVec3>),
        decreases max_entities - k,
    {
        positions.push(None);
        k = k + 1;
        assert(positions@ =~= Seq::new(k as nat, |i: int| None::<FixedVec3>));
    }
    let mut zone = ZoneState { zone_id: checkpoint.zone_id, positions };
    let ghost empty = zone.positions@;
    assert(empty =~= Seq::new(max_entities as nat, |i: int| None::<FixedVec3>));
    let mut i: usize = 0;
    while i < checkpoint.entities.len()
        invariant
            i <= checkpoint.entities@.len(),
            zone.zone_id == checkpoint.zone_id,
            empty == Seq::new(max_entities as nat, |i: int| None::<FixedVec3>),
            spawn_all(checkpoint.zone_id, empty, checkpoint.entities@.take(i as int)) == Ok::<
                Seq<Option<FixedVec3>>,
                WorldError,
            >(zone.positions@),
        decreases checkpoint.entities@.len() - i,
    {
        let e = checkpoint.entities[i];
        assert(checkpoint.entities@.take(i + 1).drop_last() =~= checkpoint.entities@.take(i as int));
        match zone.spawn(e.entity_id, e.position) {
            Ok(()) => {},
            Err(err) => {
                proof {
                    lemma_spawn_all_err_sticks(checkpoint.zone_id, empty, checkpoint.entities@, i + 1);
                }
                return Err(err);
            },
        }
        i = i + 1;
    }
    assert(checkpoint.entities@.take(i as int) =~= checkpoint.entities@);
    let ghost base = zone.positions@;
    let last = checkpoint.last_lsn;
    let mut expected = last;
    let mut j: usize = 0;
    while j < wal_records.len()
        invariant
            j <= wal_records@.len(),
            zone.zone_id == checkpoint.zone_id,
            empty == Seq::new(max_entities as nat, |i: int| None::<FixedVec3>),
            spawn_all(checkpoint.zone_id, empty, checkpoint.entities@) == Ok::<
                Seq<Option<FixedVec3>>,
                WorldError,
            >(base),
            last == checkpoint.last_lsn,
            forall|t: int| 0 <= t < wal_records@.len() ==> (#[trigger] wal_records@[t]).payload_len <= 128,
            replay_records(checkpoint.zone_id, last, base, last, wal_records@.take(j as int)) == Ok::<
                (Seq<Option<FixedVec3>>, u64),
                WorldError,
            >((zone.positions@, expected)),
        decreases wal_records@.len() - j,
    {
        let rec = &wal_records[j];
        assert(wal_records@.take(j + 1).drop_last() =~= wal_records@.take(j as int));
        assert(wal_records@.take(j + 1).last() == *rec);
        if rec.lsn > last {
            let next = expected.saturating_add(1);
            if rec.lsn != next {
                proof {
                    lemma_replay_err_sticks(checkpoint.zone_id, last, base, last, wal_records@, j + 1);
                }
                return Err(WorldError::WalLsnRegression { current: next, incoming: rec.lsn });
            }
            let step: Result<(), WorldError> = if rec.opcode == OP_ENTITY_SPAWN {
                match record_position_of(rec) {
                    Ok(p) => zone.spawn(rec.entity_id, p),
                    Err(e) => Err(e),
                }
            } else if rec.opcode == OP_ENTITY_DESPAWN {
                zone.set(rec.entity_id, None)
            } else if rec.opcode == OP_ENTITY_TRANSFORM {
                match record_position_of(rec) {
                    Ok(p) => zone.set(rec.entity_id, Some(p)),
                    Err(e) => Err(e),
                }
            } else {
                Ok(())
            };
            match step {
                Ok(()) => {},
                Err(e) => {
                    proof {
                        lemma_replay_err_sticks(checkpoint.zone_id, last, base, last, wal_records@, j + 1);
                    }
                    return Err(e);
                },
            }
            expected = rec.lsn;
        }
        j = j + 1;
    }
    assert(wal_records@.take(j as int) =~= wal_records@);
    Ok(zone)
}

/// The position a record carries, or the decode error.
fn record_position_of(rec: &WalRecord) -> (r: Result<FixedVec3, WorldError>)
    requires
        rec.payload_len <= 128,
    ensures
        r == record_position(*rec),
{
    let n = rec.payload_len as usize;
    let bytes = vstd::slice::slice_subrange(rec.payload.as_slice(), 0, n);
    assert(bytes@ =~= record_payload(*rec));
    let r = decode_position_payload(bytes);
    proof {
        if rec.payload_len >= 24 {
            assert(position_of_bytes(bytes@) == position_of_bytes(record_payload(*rec)));
        }
    }
    r
}

proof fn lemma_spawn_all_err_sticks(zone: ZoneId, z: Seq<Option<FixedVec3>>, es: Seq<CheckpointEntity>, n: int)
    requires
        0 < n <= es.len(),
        spawn_all(zone, z, es.take(n)) is Err,
    ensures
        spawn_all(zone, z, es) == spawn_all(zone, z, es.take(n)),
    decreases es.len() - n,
{
    if n < es.len() {
        assert(es.take(n + 1).drop_last() =~= es.take(n));
        lemma_spawn_all_err_sticks(zone, z, es, n + 1);
    } else {
        assert(es.take(n) =~= es);
    }
}

proof fn lemma_replay_err_sticks(
    zone: ZoneId,
    last: u64,
    z: Seq<Option<FixedVec3>>,
    expected: u64,
    rs: Seq<WalRecord>,
    n: int,
)
    requires
        0 < n <= rs.len(),
        replay_records(zone, last, z, expected, rs.take(n)) is Err,
    ensures
        replay_records(zone, last, z, expected, rs) == replay_records(zone, last, z, expected, rs.take(n)),
    decreases rs.len() - n,
{
    if n < rs.len() {
        assert(rs.take(n + 1).drop_last() =~= rs.take(n));
        lemma_replay_err_sticks(zone, last, z, expected, rs, n + 1);
    } else {
        assert(rs.take(n) =~= rs);
    }
}

} // verus!
