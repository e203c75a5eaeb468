//! Structure chunk manifests: 20-byte structure mutation packets, per-chunk manifest hashes that
//! let clients skip streaming when their cache matches, and the chunk registry.
use vstd::prelude::*;

use crate::byte_order::{be_u16, be_u32, lemma_u16_be_roundtrip, lemma_u32_be_roundtrip, push_u32_be, read_u16_be, read_u32_be, u16_of_be, u32_of_be};
use crate::error::WorldError;
use crate::hibernation::{adler32, compute_adler32};
use crate::slots::{first_index, lemma_first_index_is, lemma_first_index_none};
use std::collections::HashMap;
use vstd::relations::{sorted_by, total_ordering};

verus! {

broadcast use vstd::multiset::group_multiset_axioms;

/// Coordinate of a 256 m x 256 m structure chunk.
#[derive(Debug, Clone, Copy, PartialEq, Eq, Hash, PartialOrd, Ord, Default, Structural)]
pub struct ChunkCoord {
    /// Chunk X.
    pub x: i16,
    /// Chunk Z.
    pub z: i16,
}

/// A structure mutation in 20 bytes.
#[derive(Debug, Clone, Copy, PartialEq, Eq, Default, Structural)]
pub struct StructureDeltaPacket {
    /// Mutation type: placed, modified or destroyed.
    pub op_type: u8,
    /// Structure concerned.
    pub structure_id: u32,
    /// Piece concerned.
    pub piece_id: u32,
    /// Piece classification.
    pub piece_type: u8,
    /// Material and flags.
    pub material_and_flags: u8,
    /// Snapped socket.
    pub snapped_socket: u8,
    /// Local X in millimetres.
    pub local_x_mm: i16,
    /// Local Y (elevation) in millimetres.
    pub local_y_mm: i16,
    /// Local Z in millimetres.
    pub local_z_mm: i16,
    /// Discrete heading.
    pub local_yaw: u8,
    /// Alignment padding.
    pub _padding: u8,
}

/// The 20 bytes of a packet.
pub open spec fn delta_bytes(p: StructureDeltaPacket) -> Seq<u8> {
    seq![p.op_type] + be_u32(p.structure_id) + be_u32(p.piece_id) + seq![
        p.piece_type,
        p.material_and_flags,
        p.snapped_socket,
    ] + be_u16(p.local_x_mm as u16) + be_u16(p.local_y_mm as u16) + be_u16(p.local_z_mm as u16)
        + seq![p.local_yaw, p._padding]
}

/// The packet stored in the first 20 bytes of `s`.
pub open spec fn delta_of_bytes(s: Seq<u8>) -> StructureDeltaPacket {
    StructureDeltaPacket {
        op_type: s[0],
        structure_id: u32_of_be(s.subrange(1, 5)),
        piece_id: u32_of_be(s.subrange(5, 9)),
        piece_type: s[9],
        material_and_flags: s[10],
        snapped_socket: s[11],
        local_x_mm: u16_of_be(s.subrange(12, 14)) as i16,
        local_y_mm: u16_of_be(s.subrange(14, 16)) as i16,
        local_z_mm: u16_of_be(s.subrange(16, 18)) as i16,
        local_yaw: s[18],
        _padding: s[19],
    }
}

pub(crate) fn write_i16_be(out: &mut [u8], at: usize, x: i16)
    requires
        at + 2 <= old(out)@.len(),
    ensures
        final(out)@ == old(out)@.update(at as int, be_u16(x as u16)[0]).update(
            at + 1,
            be_u16(x as u16)[1],
        ),
{
    let u = x as u16;
    out[at] = (u >> 8u16) as u8;
    out[at + 1] = u as u8;
}

pub(crate) fn write_u32_be_at(out: &mut [u8], at: usize, x: u32)
    requires
        at + 4 <= old(out)@.len(),
    ensures
        final(out)@.len() == old(out)@.len(),
        final(out)@.subrange(at as int, at + 4) == be_u32(x),
        forall|i: int|
            0 <= i < old(out)@.len() && !(at <= i < at + 4) ==> #[trigger] final(out)@[i]
                == old(out)@[i],
{
    out[at] = (x >> 24u32) as u8;
    out[at + 1] = (x >> 16u32) as u8;
    out[at + 2] = (x >> 8u32) as u8;
    out[at + 3] = x as u8;
    assert(out@.subrange(at as int, at + 4) =~= be_u32(x));
}

impl StructureDeltaPacket {
    /// Mutation type: piece placed.
    pub const OP_PLACED: u8 = 0;

    /// Mutation type: piece modified or repaired.
    pub const OP_MODIFIED: u8 = 1;

    /// Mutation type: piece destroyed.
    pub const OP_DESTROYED: u8 = 2;

    /// Writes the packet into the first 20 bytes of `out`; a shorter buffer is refused and
    /// left untouched.
    pub fn write_to(&self, out: &mut [u8]) -> (r: Result<(), &'static str>)
        ensures
            old(out)@.len() < 20 ==> r is Err && final(out)@ == old(out)@,
            old(out)@.len() >= 20 ==> r is Ok && final(out)@ == delta_bytes(*self) + old(
                out,
            )@.subrange(20, old(out)@.len() as int),
    {
        if out.len() < 20 {
            return Err("Buffer too short for StructureDeltaPacket");
        }
        out[0] = self.op_type;
        write_u32_be_at(out, 1, self.structure_id);
        write_u32_be_at(out, 5, self.piece_id);
        out[9] = self.piece_type;
        out[10] = self.material_and_flags;
        out[11] = self.snapped_socket;
        write_i16_be(out, 12, self.local_x_mm);
        write_i16_be(out, 14, self.local_y_mm);
        write_i16_be(out, 16, self.local_z_mm);
        out[18] = self.local_yaw;
        out[19] = self._padding;
        assert(out@ =~= delta_bytes(*self) + old(out)@.subrange(20, old(out)@.len() as int)) by {
            assert(out@.subrange(1, 5) == be_u32(self.structure_id));
            assert(out@.subrange(5, 9) == be_u32(self.piece_id));
        }
        Ok(())
    }

    /// Reads a packet from the first 20 bytes of `slice`; a shorter slice is refused.
    pub fn read_from(slice: &[u8]) -> (r: Result<Self, &'static str>)
        ensures
            slice@.len() < 20 ==> r is Err,
            slice@.len() >= 20 ==> r == Ok::<Self, &'static str>(delta_of_bytes(slice@)),
    {
        if slice.len() < 20 {
            return Err("Slice too short for StructureDeltaPacket");
        }
        let op_type = slice[0];
        let structure_id = read_u32_be(slice, 1);
        let piece_id = read_u32_be(slice, 5);
        let piece_type = slice[9];
        let material_and_flags = slice[10];
        let snapped_socket = slice[11];
        let local_x_mm = read_u16_be(slice, 12) as i16;
        let local_y_mm = read_u16_be(slice, 14) as i16;
        let local_z_mm = read_u16_be(slice, 16) as i16;
        let local_yaw = slice[18];
        let _padding = slice[19];
        Ok(
            StructureDeltaPacket {
                op_type,
                structure_id,
                piece_id,
                piece_type,
                material_and_flags,
                snapped_socket,
                local_x_mm,
                local_y_mm,
                local_z_mm,
                local_yaw,
                _padding,
            },
        )
    }
}

pub(crate) proof fn lemma_i16_bits_roundtrip(x: i16)
    ensures
        u16_of_be(be_u16(x as u16)) as i16 == x,
{
    lemma_u16_be_roundtrip(x as u16);
    assert(((x as u16) as i16) == x) by (bit_vector);
}

/// Packet round trip: reading back the bytes written for a packet, followed by anything,
/// gives the packet.
pub proof fn lemma_delta_packet_roundtrip(p: StructureDeltaPacket, rest: Seq<u8>)
    ensures
        delta_of_bytes(delta_bytes(p) + rest) == p,
        delta_bytes(p).len() == 20,
{
    let s = delta_bytes(p) + rest;
    assert(s.subrange(1, 5) =~= be_u32(p.structure_id));
    assert(s.subrange(5, 9) =~= be_u32(p.piece_id));
    assert(s.subrange(12, 14) =~= be_u16(p.local_x_mm as u16));
    assert(s.subrange(14, 16) =~= be_u16(p.local_y_mm as u16));
    assert(s.subrange(16, 18) =~= be_u16(p.local_z_mm as u16));
    lemma_u32_be_roundtrip(p.structure_id);
    lemma_u32_be_roundtrip(p.piece_id);
    lemma_i16_bits_roundtrip(p.local_x_mm);
    lemma_i16_bits_roundtrip(p.local_y_mm);
    lemma_i16_bits_roundtrip(p.local_z_mm);
}

// ---------------------------------------------------------------------------------------------
// Chunk manifests
// ---------------------------------------------------------------------------------------------

/// Ascending order on structure identifiers.
pub open spec fn id_order() -> spec_fn(u32, u32) -> bool {
    |a: u32, b: u32| a <= b
}

/// The bytes hashed for a chunk: its revision, then each structure id, big-endian.
pub open spec fn manifest_payload(revision: u32, ids: Seq<u32>) -> Seq<u8>
    decreases ids.len(),
{
    if ids.len() == 0 {
        be_u32(revision)
    } else {
        manifest_payload(revision, ids.drop_last()) + be_u32(ids.last())
    }
}

/// Manifest hash of a chunk holding `ids` (in the order given) at `revision`; 0 when empty.
pub open spec fn manifest_hash_of(revision: u32, ids: Seq<u32>) -> u32 {
    if ids.len() == 0 {
        0
    } else {
        adler32(manifest_payload(revision, ids))
    }
}

proof fn lemma_id_order_total()
    ensures
        total_ordering(id_order()),
{
}

/// Sorts structure identifiers ascending.
fn sort_ids(v: &mut Vec<u32>)
    ensures
        final(v)@ == old(v)@.sort_by(id_order()),
{
    let n = v.len();
    let mut i: usize = 0;
    while i < n
        invariant
            n == v@.len(),
            i <= n,
            v@.to_multiset() == old(v)@.to_multiset(),
            forall|a: int, b: int| 0 <= a < b < i ==> v@[a] <= v@[b],
            forall|a: int, b: int| 0 <= a < i <= b < n ==> v@[a] <= v@[b],
        decreases n - i,
    {
        let mut m = i;
        let mut j = i + 1;
        while j < n
            invariant
                n == v@.len(),
                i <= m < n,
                i < j <= n,
                forall|k: int| i <= k < j ==> v@[m as int] <= v@[k],
            decreases n - j,
        {
            if v[j] < v[m] {
                m = j;
            }
            j = j + 1;
        }
        let ghost s = v@;
        let a = v[i];
        let b = v[m];
        v.set(i, b);
        v.set(m, a);
        proof {
            vstd::seq_lib::to_multiset_contains(s, a);
            vstd::seq_lib::to_multiset_contains(s, b);
            assert(s[i as int] == a && s[m as int] == b);
            assert(s.contains(a) && s.contains(b));
            vstd::seq_lib::to_multiset_update(s, i as int, b);
            vstd::seq_lib::to_multiset_update(s.update(i as int, b), m as int, a);
            assert(v@ == s.update(i as int, b).update(m as int, a));
            assert(s.update(i as int, b)[m as int] == b);
            assert(v@.to_multiset() =~= s.to_multiset());
        }
        i = i + 1;
    }
    proof {
        let leq = id_order();
        lemma_id_order_total();
        old(v)@.lemma_sort_by_ensures(leq);
        assert(sorted_by(v@, leq));
        vstd::seq_lib::lemma_sorted_unique(v@, old(v)@.sort_by(leq), leq);
    }
}

/// Structures resident in one chunk, with the chunk's manifest hash and revision.
#[derive(Debug, Clone, PartialEq, Eq)]
pub struct StructureChunk {
    /// Chunk coordinate.
    pub coord: ChunkCoord,
    /// Resident structures.
    pub structure_ids: Vec<u32>,
    /// Manifest hash of the chunk contents.
    pub manifest_hash: u32,
    /// Revision counter.
    pub revision: u32,
}

impl StructureChunk {
    /// An empty chunk at `coord`, revision 0, hash 0.
    pub fn new(coord: ChunkCoord) -> (c: Self)
        ensures
            c.coord == coord,
            c.structure_ids@ == Seq::<u32>::empty(),
            c.manifest_hash == 0,
            c.revision == 0,
    {
        StructureChunk { coord, structure_ids: Vec::new(), manifest_hash: 0, revision: 0 }
    }

    /// Sorts the structure ids ascending and recomputes the manifest hash: the Adler-32 of
    /// the revision followed by the sorted ids, big-endian, or 0 for an empty chunk.
    pub fn recompute_hash(&mut self)
        ensures
            final(self).coord == old(self).coord,
            final(self).revision == old(self).revision,
            final(self).structure_ids@ == old(self).structure_ids@.sort_by(id_order()),
            final(self).manifest_hash == manifest_hash_of(
                final(self).revision,
                final(self).structure_ids@,
            ),
    {
        if self.structure_ids.len() == 0 {
            proof {
                lemma_id_order_total();
                self.structure_ids@.lemma_sort_by_ensures(id_order());
                vstd::seq_lib::to_multiset_len(self.structure_ids@);
                vstd::seq_lib::to_multiset_len(self.structure_ids@.sort_by(id_order()));
                assert(self.structure_ids@ =~= self.structure_ids@.sort_by(id_order()));
            }
            self.manifest_hash = 0;
            return;
        }
        sort_ids(&mut self.structure_ids);
        proof {
            old(self).structure_ids@.lemma_sort_by_ensures(id_order());
            lemma_id_order_total();
            assert(self.structure_ids@.to_multiset().len() == old(self).structure_ids@.to_multiset().len());
            vstd::seq_lib::to_multiset_len(self.structure_ids@);
            vstd::seq_lib::to_multiset_len(old(self).structure_ids@);
        }
        let mut payload: Vec<u8> = Vec::new();
        push_u32_be(&mut payload, self.revision);
        assert(payload@ =~= manifest_payload(self.revision, self.structure_ids@.take(0)));
        let n = self.structure_ids.len();
        let mut i: usize = 0;
        while i < n
            invariant
                i <= n,
                n == self.structure_ids@.len(),
                payload@ == manifest_payload(self.revision, self.structure_ids@.take(i as int)),
            decreases n - i,
        {
            assert(self.structure_ids@.take(i + 1).drop_last() =~= self.structure_ids@.take(i as int));
            push_u32_be(&mut payload, self.structure_ids[i]);
            i = i + 1;
        }
        assert(self.structure_ids@.take(n as int) =~= self.structure_ids@);
        self.manifest_hash = compute_adler32(payload.as_slice());
    }
}

/// Registry key of chunk `c`: its two coordinates, each shifted to be non-negative, side by side.
pub open spec fn chunk_key(c: ChunkCoord) -> u32 {
    ((c.x as int + 32768) * 65536 + (c.z as int + 32768)) as u32
}

/// Distinct chunks have distinct registry keys.
pub proof fn lemma_chunk_key_injective(a: ChunkCoord, b: ChunkCoord)
    ensures
        chunk_key(a) == chunk_key(b) <==> a == b,
{
    let ax = a.x as int + 32768;
    let az = a.z as int + 32768;
    let bx = b.x as int + 32768;
    let bz = b.z as int + 32768;
    assert(0 <= ax * 65536 + az <= u32::MAX) by (nonlinear_arith)
        requires
            0 <= ax < 65536,
            0 <= az < 65536,
    ;
    assert(0 <= bx * 65536 + bz <= u32::MAX) by (nonlinear_arith)
        requires
            0 <= bx < 65536,
            0 <= bz < 65536,
    ;
    if ax * 65536 + az == bx * 65536 + bz {
        assert(ax == bx && az == bz) by (nonlinear_arith)
            requires
                ax * 65536 + az == bx * 65536 + bz,
                0 <= az < 65536,
                0 <= bz < 65536,
        ;
    }
}

fn chunk_key_of(c: ChunkCoord) -> (k: u32)
    ensures
        k == chunk_key(c),
{
    let x: u32 = (c.x as i32 + 32768) as u32;
    let z: u32 = (c.z as i32 + 32768) as u32;
    assert(x * 65536 + z <= u32::MAX) by (nonlinear_arith)
        requires
            x < 65536,
            z < 65536,
    ;
    x * 65536 + z
}

/// Registry of structure chunks, keyed by `chunk_key` of each chunk's coordinate.
#[derive(Debug)]
pub struct ChunkManifestManager {
    chunks: HashMap<u32, StructureChunk>,
}

impl ChunkManifestManager {
    /// Known chunks by registry key.
    pub closed spec fn spec_chunks(&self) -> Map<u32, StructureChunk> {
        self.chunks@
    }

    /// The chunk at `c`, if known.
    pub open spec fn spec_chunk(&self, c: ChunkCoord) -> Option<StructureChunk> {
        if self.spec_chunks().contains_key(chunk_key(c)) {
            Some(self.spec_chunks()[chunk_key(c)])
        } else {
            None
        }
    }

    /// Every chunk's hash is the manifest hash of its revision and structures.
    pub open spec fn hashes_current(&self) -> bool {
        forall|k: u32|
            #[trigger] self.spec_chunks().contains_key(k) ==> self.spec_chunks()[k].manifest_hash
                == manifest_hash_of(self.spec_chunks()[k].revision, self.spec_chunks()[k].structure_ids@)
    }

    /// Manifest hash served for `c`: the chunk's hash, or 0 for an unknown chunk.
    pub open spec fn spec_manifest_hash(&self, c: ChunkCoord) -> u32 {
        match self.spec_chunk(c) {
            Some(ch) => ch.manifest_hash,
            None => 0,
        }
    }

    /// No chunks.
    pub fn new() -> (m: Self)
        ensures
            m.spec_chunks() == Map::<u32, StructureChunk>::empty(),
            m.hashes_current(),
    {
        ChunkManifestManager { chunks: HashMap::new() }
    }

    /// Whether a client whose cache holds `client_hash` for `coord` is up to date: the chunk's
    /// hash must match, and an unknown chunk matches only 0.
    pub fn validate_client_cache(&self, coord: ChunkCoord, client_hash: u32) -> (b: bool)
        ensures
            b == (self.spec_manifest_hash(coord) == client_hash),
    {
        let key = chunk_key_of(coord);
        match self.chunks.get(&key) {
            Some(ch) => ch.manifest_hash == client_hash,
            None => client_hash == 0,
        }
    }

    /// Manifest hash of `coord` (0 for an unknown chunk).
    pub fn get_manifest_hash(&self, coord: ChunkCoord) -> (h: u32)
        ensures
            h == self.spec_manifest_hash(coord),
    {
        let key = chunk_key_of(coord);
        match self.chunks.get(&key) {
            Some(ch) => ch.manifest_hash,
            None => 0,
        }
    }

    /// Structures of `coord` (none for an unknown chunk).
    pub fn get_structures_in_chunk(&self, coord: ChunkCoord) -> (ids: &[u32])
        ensures
            ids@ == match self.spec_chunk(coord) {
                Some(ch) => ch.structure_ids@,
                None => Seq::<u32>::empty(),
            },
    {
        let key = chunk_key_of(coord);
        match self.chunks.get(&key) {
            Some(ch) => ch.structure_ids.as_slice(),
            None => {
                let empty: &[u32] = &[];
                assert(empty@ =~= Seq::<u32>::empty());
                empty
            },
        }
    }

    /// Adds `structure_id` to the chunk at `coord`, creating the chunk if needed; a structure
    /// not yet present bumps the revision (wrapping) and recomputes the hash. Returns `coord`.
    pub fn register_structure(&mut self, structure_id: u32, coord: ChunkCoord) -> (c: ChunkCoord)
        ensures
            old(self).hashes_current() ==> final(self).hashes_current(),
            c == coord,
            ({
                let key = chunk_key(coord);
                let ch = final(self).spec_chunks()[key];
                match old(self).spec_chunk(coord) {
                    Some(b) => if b.structure_ids@.contains(structure_id) {
                        final(self).spec_chunks() == old(self).spec_chunks()
                    } else {
                        &&& final(self).spec_chunks() == old(self).spec_chunks().insert(key, ch)
                        &&& ch.coord == coord
                        &&& ch.revision == next_revision(b.revision)
                        &&& ch.structure_ids@ == b.structure_ids@.push(structure_id).sort_by(
                            id_order(),
                        )
                        &&& ch.manifest_hash == manifest_hash_of(ch.revision, ch.structure_ids@)
                    },
                    None => {
                        &&& final(self).spec_chunks() == old(self).spec_chunks().insert(key, ch)
                        &&& ch.coord == coord
                        &&& ch.revision == 1
                        &&& ch.structure_ids@ == seq![structure_id]
                        &&& ch.manifest_hash == manifest_hash_of(1, seq![structure_id])
                    },
                }
            }),
    {
        let key = chunk_key_of(coord);
        let mut updated: Option<StructureChunk> = None;
        match self.chunks.get(&key) {
            Some(b) => {
                if !contains_id(&b.structure_ids, structure_id) {
                    let mut ids = b.structure_ids.clone();
                    assert(ids@ =~= b.structure_ids@);
                    ids.push(structure_id);
                    let mut ch = StructureChunk {
                        coord,
                        structure_ids: ids,
                        manifest_hash: b.manifest_hash,
                        revision: next_revision_exec(b.revision),
                    };
                    ch.recompute_hash();
                    updated = Some(ch);
                }
            },
            None => {
                let mut ch = StructureChunk::new(coord);
                ch.structure_ids.push(structure_id);
                ch.revision = 1;
                ch.recompute_hash();
                proof {
                    lemma_sort_singleton(structure_id);
                }
                updated = Some(ch);
            },
        }
        if let Some(ch) = updated {
            self.chunks.insert(key, ch);
            assert(self.spec_chunks() =~= old(self).spec_chunks().insert(key, ch));
        }
        coord
    }

    /// Removes `structure_id` from the chunk at `coord` (the last id takes its place), bumps
    /// the revision (wrapping) and recomputes the hash. An unknown chunk or a structure not in
    /// it is `StructureNotFound`.
    pub fn unregister_structure(&mut self, structure_id: u32, coord: ChunkCoord) -> (r: Result<
        (),
        WorldError,
    >)
        ensures
            old(self).hashes_current() ==> final(self).hashes_current(),
            ({
                let key = chunk_key(coord);
                match old(self).spec_chunk(coord) {
                    Some(b) if first_index(b.structure_ids@, is_id(structure_id)) >= 0 => {
                        let ids = b.structure_ids@;
                        let pos = first_index(ids, is_id(structure_id));
                        let ch = final(self).spec_chunks()[key];
                        &&& r is Ok
                        &&& final(self).spec_chunks() == old(self).spec_chunks().insert(key, ch)
                        &&& ch.coord == coord
                        &&& ch.revision == next_revision(b.revision)
                        &&& ch.structure_ids@ == ids.update(pos, ids.last()).drop_last().sort_by(
                            id_order(),
                        )
                        &&& ch.manifest_hash == manifest_hash_of(ch.revision, ch.structure_ids@)
                    },
                    _ => {
                        &&& r == Err::<(), WorldError>(WorldError::StructureNotFound(structure_id))
                        &&& final(self).spec_chunks() == old(self).spec_chunks()
                    },
                }
            }),
    {
        let key = chunk_key_of(coord);
        let b = match self.chunks.get(&key) {
            Some(b) => b,
            None => {
                return Err(WorldError::StructureNotFound(structure_id));
            },
        };
        let ghost ids0 = b.structure_ids@;
        let ghost p = is_id(structure_id);
        let n = b.structure_ids.len();
        let mut i: usize = 0;
        while i < n && b.structure_ids[i] != structure_id
            invariant
                i <= n,
                n == ids0.len(),
                ids0 == b.structure_ids@,
                p == is_id(structure_id),
                forall|j: int| 0 <= j < i ==> !p(#[trigger] ids0[j]),
            decreases n - i,
        {
            i = i + 1;
        }
        if i == n {
            proof {
                lemma_first_index_none(ids0, p);
            }
            return Err(WorldError::StructureNotFound(structure_id));
        }
        proof {
            lemma_first_index_is(ids0, p, i as int);
        }
        let mut ids = b.structure_ids.clone();
        assert(ids@ =~= ids0);
        ids.swap_remove(i);
        let mut ch = StructureChunk {
            coord,
            structure_ids: ids,
            manifest_hash: b.manifest_hash,
            revision: next_revision_exec(b.revision),
        };
        ch.recompute_hash();
        self.chunks.insert(key, ch);
        assert(self.spec_chunks() =~= old(self).spec_chunks().insert(key, ch));
        Ok(())
    }

    /// Bumps the revision (wrapping) of the chunk at `coord` and recomputes its hash; an
    /// unknown chunk is left alone.
    pub fn mark_chunk_modified(&mut self, coord: ChunkCoord)
        ensures
            old(self).hashes_current() ==> final(self).hashes_current(),
            ({
                let key = chunk_key(coord);
                let ch = final(self).spec_chunks()[key];
                match old(self).spec_chunk(coord) {
                    None => final(self).spec_chunks() == old(self).spec_chunks(),
                    Some(b) => {
                        &&& final(self).spec_chunks() == old(self).spec_chunks().insert(key, ch)
                        &&& ch.coord == coord
                        &&& ch.revision == next_revision(b.revision)
                        &&& ch.structure_ids@ == b.structure_ids@.sort_by(id_order())
                        &&& ch.manifest_hash == manifest_hash_of(ch.revision, ch.structure_ids@)
                    },
                }
            }),
    {
        let key = chunk_key_of(coord);
        let mut updated: Option<StructureChunk> = None;
        if let Some(b) = self.chunks.get(&key) {
            let ids = b.structure_ids.clone();
            assert(ids@ =~= b.structure_ids@);
            let mut ch = StructureChunk {
                coord,
                structure_ids: ids,
                manifest_hash: b.manifest_hash,
                revision: next_revision_exec(b.revision),
            };
            ch.recompute_hash();
            updated = Some(ch);
        }
        if let Some(ch) = updated {
            self.chunks.insert(key, ch);
            assert(self.spec_chunks() =~= old(self).spec_chunks().insert(key, ch));
        }
    }
}

/// Predicate: the identifier is `id`.
pub open spec fn is_id(id: u32) -> spec_fn(u32) -> bool {
    |x: u32| x == id
}

/// The revision after `r`, wrapping to 0.
pub open spec fn next_revision(r: u32) -> u32 {
    if r == u32::MAX {
        0
    } else {
        (r + 1) as u32
    }
}

fn next_revision_exec(r: u32) -> (n: u32)
    ensures
        n == next_revision(r),
{
    if r == u32::MAX {
        0
    } else {
        r + 1
    }
}

fn contains_id(ids: &Vec<u32>, id: u32) -> (b: bool)
    ensures
        b == ids@.contains(id),
{
    let mut i: usize = 0;
    while i < ids.len()
        invariant
            i <= ids@.len(),
            forall|j: int| 0 <= j < i ==> ids@[j] != id,
        decreases ids@.len() - i,
    {
        if ids[i] == id {
            assert(ids@[i as int] == id);
            return true;
        }
        i = i + 1;
    }
    proof {
        if ids@.contains(id) {
            let j = choose|j: int| 0 <= j < ids@.len() && ids@[j] == id;
            assert(ids@[j] != id);
        }
    }
    false
}

proof fn lemma_sort_singleton(x: u32)
    ensures
        seq![x].sort_by(id_order()) == seq![x],
{
    let leq = id_order();
    lemma_id_order_total();
    seq![x].lemma_sort_by_ensures(leq);
    vstd::seq_lib::to_multiset_len(seq![x].sort_by(leq));
    vstd::seq_lib::to_multiset_len(seq![x]);
    vstd::seq_lib::lemma_sorted_unique(seq![x], seq![x].sort_by(leq), leq);
}

/// The manifest hash does not depend on the order in which structures were registered: two
/// chunks at the same revision holding the same structures hash alike after recomputation.
pub proof fn lemma_manifest_hash_order_independent(revision: u32, ids1: Seq<u32>, ids2: Seq<u32>)
    requires
        ids1.to_multiset() == ids2.to_multiset(),
    ensures
        ids1.sort_by(id_order()) == ids2.sort_by(id_order()),
        manifest_hash_of(revision, ids1.sort_by(id_order())) == manifest_hash_of(
            revision,
            ids2.sort_by(id_order()),
        ),
{
    let leq = id_order();
    lemma_id_order_total();
    ids1.lemma_sort_by_ensures(leq);
    ids2.lemma_sort_by_ensures(leq);
    vstd::seq_lib::lemma_sorted_unique(ids1.sort_by(leq), ids2.sort_by(leq), leq);
}

/// An empty or unknown chunk validates only the cached hash 0: with every chunk's hash current,
/// a chunk holding no structures serves hash 0.
pub proof fn lemma_empty_chunk_validates_only_zero(m: ChunkManifestManager, c: ChunkCoord)
    requires
        m.hashes_current(),
        match m.spec_chunk(c) {
            Some(ch) => ch.structure_ids@.len() == 0,
            None => true,
        },
    ensures
        m.spec_manifest_hash(c) == 0,
{
    if m.spec_chunk(c) is Some {
        assert(m.spec_chunks().contains_key(chunk_key(c)));
    }
}

} // verus!
