//! Spatial sector partitioning for parallel simulation: 64-bit packed work descriptors and the
//! registry of entities per sector.
use vstd::prelude::*;

use crate::slots::{first_index, lemma_first_index, lemma_first_index_is, lemma_first_index_none};
use crate::zone::FixedVec3;

verus! {

/// Errors of sector operations.
#[derive(Debug, Clone, Copy, PartialEq, Eq, Structural)]
pub enum SectorParallelError {
    /// The sector index is out of bounds.
    InvalidSectorIndex,
    /// A sector's entity buffer is full.
    CapacityExceeded,
    /// The entity is not registered in any sector.
    EntityNotFound(u32),
}

/// Coordinate of a 64 m x 64 m sector.
#[derive(Debug, Clone, Copy, PartialEq, Eq, Hash, Default, Structural)]
pub struct SectorCoord {
    /// Index along the X axis.
    pub x: i16,
    /// Index along the Z axis.
    pub z: i16,
}

impl SectorCoord {
    /// The sector `(x, z)`.
    pub fn new(x: i16, z: i16) -> (c: Self)
        ensures
            c == (SectorCoord { x, z }),
    {
        SectorCoord { x, z }
    }
}

/// Work item for a worker: a run of entities within one sector.
///
/// Packed layout, low bits first: sector X (16 bits, two's complement), sector Z (16 bits),
/// start index (16 bits), count (16 bits).
#[derive(Debug, Clone, Copy, PartialEq, Eq, Default, Structural)]
pub struct SectorJob {
    /// Sector to process.
    pub sector: SectorCoord,
    /// First entity index within the sector buffer.
    pub start_idx: u16,
    /// Number of entities to process.
    pub count: u16,
}

/// The 64-bit word encoding `j`.
pub open spec fn packed_job(j: SectorJob) -> u64 {
    ((j.sector.x as u16) as u64) | (((j.sector.z as u16) as u64) << 16u64) | ((j.start_idx as u64)
        << 32u64) | ((j.count as u64) << 48u64)
}

/// The job encoded by `p`.
pub open spec fn unpacked_job(p: u64) -> SectorJob {
    SectorJob {
        sector: SectorCoord {
            x: ((p & 0xFFFFu64) as u16) as i16,
            z: (((p >> 16u64) & 0xFFFFu64) as u16) as i16,
        },
        start_idx: ((p >> 32u64) & 0xFFFFu64) as u16,
        count: ((p >> 48u64) & 0xFFFFu64) as u16,
    }
}

impl SectorJob {
    /// A job over `count` entities of `sector` starting at `start_idx`.
    pub fn new(sector: SectorCoord, start_idx: u16, count: u16) -> (j: Self)
        ensures
            j == (SectorJob { sector, start_idx, count }),
    {
        SectorJob { sector, start_idx, count }
    }

    /// Packs the job into one 64-bit word for lock-free queues.
    pub fn pack(self) -> (p: u64)
        ensures
            p == packed_job(self),
    {
        let x_bits = (self.sector.x as u16) as u64;
        let z_bits = (self.sector.z as u16) as u64;
        let start_bits = self.start_idx as u64;
        let count_bits = self.count as u64;
        x_bits | (z_bits << 16u64) | (start_bits << 32u64) | (count_bits << 48u64)
    }

    /// Unpacks a job from its 64-bit word.
    pub fn unpack(packed: u64) -> (j: Self)
        ensures
            j == unpacked_job(packed),
    {
        let x = ((packed & 0xFFFF) as u16) as i16;
        let z = (((packed >> 16u64) & 0xFFFF) as u16) as i16;
        let start_idx = ((packed >> 32u64) & 0xFFFF) as u16;
        let count = ((packed >> 48u64) & 0xFFFF) as u16;
        SectorJob { sector: SectorCoord { x, z }, start_idx, count }
    }
}

/// Unpacking a packed job gives the job back, and packing an unpacked word gives the word back:
/// the encoding is a bijection between jobs and 64-bit words.
pub proof fn lemma_job_packing_roundtrip(j: SectorJob, p: u64)
    ensures
        unpacked_job(packed_job(j)) == j,
        packed_job(unpacked_job(p)) == p,
{
    let x = j.sector.x;
    let z = j.sector.z;
    let s = j.start_idx;
    let c = j.count;
    let w = packed_job(j);
    assert(((w & 0xFFFFu64) as u16) as i16 == x && (((w >> 16u64) & 0xFFFFu64) as u16) as i16 == z
        && ((w >> 32u64) & 0xFFFFu64) as u16 == s && ((w >> 48u64) & 0xFFFFu64) as u16 == c)
        by (bit_vector)
        requires
            w == ((x as u16) as u64) | (((z as u16) as u64) << 16u64) | ((s as u64) << 32u64) | ((
                c as u64) << 48u64),
    ;
    let ux = ((p & 0xFFFFu64) as u16) as i16;
    let uz = (((p >> 16u64) & 0xFFFFu64) as u16) as i16;
    let us = ((p >> 32u64) & 0xFFFFu64) as u16;
    let uc = ((p >> 48u64) & 0xFFFFu64) as u16;
    assert(((ux as u16) as u64) | (((uz as u16) as u64) << 16u64) | ((us as u64) << 32u64) | ((
        uc as u64) << 48u64) == p) by (bit_vector)
        requires
            ux == ((p & 0xFFFFu64) as u16) as i16,
            uz == (((p >> 16u64) & 0xFFFFu64) as u16) as i16,
            us == ((p >> 32u64) & 0xFFFFu64) as u16,
            uc == ((p >> 48u64) & 0xFFFFu64) as u16,
    ;
}

/// Entities assigned to one sector.
#[derive(Debug, Clone)]
pub struct SectorBucket {
    /// The sector.
    pub coord: SectorCoord,
    /// Entities in the sector.
    pub entity_ids: Vec<u32>,
}

impl SectorBucket {
    /// An empty bucket for `coord` with room reserved for `capacity` entities.
    pub fn with_capacity(coord: SectorCoord, capacity: usize) -> (b: Self)
        ensures
            b.coord == coord,
            b.entity_ids@ == Seq::<u32>::empty(),
    {
        SectorBucket { coord, entity_ids: Vec::with_capacity(capacity) }
    }
}

/// Bucket predicate: the bucket is for sector `c`.
pub open spec fn bucket_for(c: SectorCoord) -> spec_fn(SectorBucket) -> bool {
    |b: SectorBucket| b.coord == c
}

/// Number of entities registered in sector `c`.
pub open spec fn entities_in(sectors: Seq<SectorBucket>, c: SectorCoord) -> nat {
    let k = first_index(sectors, bucket_for(c));
    if k >= 0 {
        sectors[k].entity_ids@.len()
    } else {
        0
    }
}

/// An entity that crossed from one sector into another during a simulation step.
#[derive(Debug, Clone, Copy, PartialEq, Eq, Structural)]
pub struct SectorMigration {
    /// Entity identifier.
    pub entity_id: u32,
    /// Sector it left.
    pub old_sector: SectorCoord,
    /// Sector it entered.
    pub new_sector: SectorCoord,
    /// Its position after the step.
    pub new_position: FixedVec3,
}

/// The buckets as `(sector, entities)` pairs.
pub open spec fn bucket_view(sectors: Seq<SectorBucket>) -> Seq<(SectorCoord, Seq<u32>)> {
    sectors.map_values(|b: SectorBucket| (b.coord, b.entity_ids@))
}

/// Pair predicate: the pair is for sector `c`.
pub open spec fn pair_for(c: SectorCoord) -> spec_fn((SectorCoord, Seq<u32>)) -> bool {
    |e: (SectorCoord, Seq<u32>)| e.0 == c
}

/// Element predicate: the element is `x`.
pub open spec fn is_entity(x: u32) -> spec_fn(u32) -> bool {
    |y: u32| y == x
}

/// `ids` with the element at `pos` replaced by the last one and the last one dropped.
pub open spec fn swap_removed(ids: Seq<u32>, pos: int) -> Seq<u32> {
    ids.update(pos, ids.last()).drop_last()
}

/// The buckets after migration `m`: the entity leaves its old sector (its first occurrence is
/// swap-removed) and is appended to its new sector, whose bucket is created if needed.
pub open spec fn apply_migration(v: Seq<(SectorCoord, Seq<u32>)>, m: SectorMigration) -> Seq<
    (SectorCoord, Seq<u32>),
> {
    let k = first_index(v, pair_for(m.old_sector));
    let v1 = if k >= 0 && first_index(v[k].1, is_entity(m.entity_id)) >= 0 {
        v.update(k, (v[k].0, swap_removed(v[k].1, first_index(v[k].1, is_entity(m.entity_id)))))
    } else {
        v
    };
    let j = first_index(v1, pair_for(m.new_sector));
    if j >= 0 {
        v1.update(j, (v1[j].0, v1[j].1.push(m.entity_id)))
    } else {
        v1.push((m.new_sector, seq![m.entity_id]))
    }
}

/// The buckets after the migrations `ms`, in order.
pub open spec fn apply_migrations(v: Seq<(SectorCoord, Seq<u32>)>, ms: Seq<SectorMigration>) -> Seq<
    (SectorCoord, Seq<u32>),
>
    decreases ms.len(),
{
    if ms.len() == 0 {
        v
    } else {
        apply_migration(apply_migrations(v, ms.drop_last()), ms.last())
    }
}

/// Position at which `m` goes into `s` to stay ordered by entity, after every migration of an
/// entity not above it.
pub open spec fn insertion_point(s: Seq<SectorMigration>, m: SectorMigration) -> int {
    let i = first_index(s, |x: SectorMigration| x.entity_id > m.entity_id);
    if i >= 0 {
        i
    } else {
        s.len() as int
    }
}

/// `ms` stably sorted by entity identifier: equal entities keep their order.
pub open spec fn sorted_by_entity(ms: Seq<SectorMigration>) -> Seq<SectorMigration>
    decreases ms.len(),
{
    if ms.len() == 0 {
        Seq::empty()
    } else {
        let s = sorted_by_entity(ms.drop_last());
        s.insert(insertion_point(s, ms.last()), ms.last())
    }
}

/// Finding a sector among the buckets or among their pairs gives the same index.
proof fn lemma_bucket_view_find(sectors: Seq<SectorBucket>, c: SectorCoord)
    ensures
        first_index(bucket_view(sectors), pair_for(c)) == first_index(sectors, bucket_for(c)),
{
    let v = bucket_view(sectors);
    lemma_first_index(sectors, bucket_for(c));
    let k = first_index(sectors, bucket_for(c));
    if k >= 0 {
        assert forall|j: int| 0 <= j < k implies !pair_for(c)(#[trigger] v[j]) by {
            assert(!bucket_for(c)(sectors[j]));
        }
        lemma_first_index_is(v, pair_for(c), k);
    } else {
        assert forall|j: int| 0 <= j < v.len() implies !pair_for(c)(#[trigger] v[j]) by {
            assert(!bucket_for(c)(sectors[j]));
        }
        lemma_first_index_none(v, pair_for(c));
    }
}

/// Registry of sector buckets used to split simulation work across workers.
pub struct SectorParallelCoordinator {
    max_entities: usize,
    sectors: Vec<SectorBucket>,
    migrations: Vec<SectorMigration>,
}

impl SectorParallelCoordinator {
    /// The sector buckets, in registration order.
    pub closed spec fn buckets(&self) -> Seq<SectorBucket> {
        self.sectors@
    }

    /// Migrations resolved by the last barrier, in the order applied.
    pub closed spec fn spec_migrations(&self) -> Seq<SectorMigration> {
        self.migrations@
    }

    /// Configured entity capacity.
    pub closed spec fn spec_max_entities(&self) -> usize {
        self.max_entities
    }

    /// A coordinator with no sectors.
    pub fn new(max_entities: usize) -> (c: Self)
        ensures
            c.spec_max_entities() == max_entities,
            c.buckets() == Seq::<SectorBucket>::empty(),
            c.spec_migrations() == Seq::<SectorMigration>::empty(),
    {
        SectorParallelCoordinator { max_entities, sectors: Vec::new(), migrations: Vec::new() }
    }

    /// Configured entity capacity.
    pub fn max_entities(&self) -> (n: usize)
        ensures
            n == self.spec_max_entities(),
    {
        self.max_entities
    }

    fn find_sector(&self, coord: SectorCoord) -> (k: Option<usize>)
        ensures
            match k {
                Some(i) => i == first_index(self.buckets(), bucket_for(coord)) && i
                    < self.buckets().len(),
                None => first_index(self.buckets(), bucket_for(coord)) == -1,
            },
    {
        let ghost s = self.sectors@;
        let ghost p = bucket_for(coord);
        let mut i: usize = 0;
        while i < self.sectors.len()
            invariant
                i <= s.len(),
                s == self.sectors@,
                p == bucket_for(coord),
                forall|j: int| 0 <= j < i ==> !p(#[trigger] s[j]),
            decreases s.len() - i,
        {
            if self.sectors[i].coord == coord {
                proof {
                    lemma_first_index_is(s, p, i as int);
                }
                return Some(i);
            }
            i = i + 1;
        }
        proof {
            lemma_first_index_none(s, p);
        }
        None
    }

    /// Registers an empty bucket for `coord` unless the sector is already known.
    pub fn add_sector(&mut self, coord: SectorCoord, capacity: usize)
        ensures
            final(self).spec_max_entities() == old(self).spec_max_entities(),
            first_index(old(self).buckets(), bucket_for(coord)) >= 0 ==> final(self).buckets()
                == old(self).buckets(),
            first_index(old(self).buckets(), bucket_for(coord)) < 0 ==> final(self).buckets().len()
                == old(self).buckets().len() + 1 && final(self).buckets().drop_last()
                == old(self).buckets() && final(self).buckets().last().coord == coord
                && final(self).buckets().last().entity_ids@ == Seq::<u32>::empty(),
    {
        if self.find_sector(coord).is_none() {
            self.sectors.push(SectorBucket::with_capacity(coord, capacity));
            assert(self.sectors@.drop_last() =~= old(self).sectors@);
        }
    }

    /// Records `entity_id` in the bucket of `coord`, creating the bucket if needed; an entity
    /// already there is not added twice. Returns the sector.
    pub fn assign_entity(&mut self, entity_id: u32, coord: SectorCoord) -> (r: Result<
        SectorCoord,
        SectorParallelError,
    >)
        ensures
            r == Ok::<SectorCoord, SectorParallelError>(coord),
            final(self).spec_max_entities() == old(self).spec_max_entities(),
            ({
                let k = first_index(old(self).buckets(), bucket_for(coord));
                if k >= 0 {
                    let ids = old(self).buckets()[k].entity_ids@;
                    &&& final(self).buckets().len() == old(self).buckets().len()
                    &&& forall|i: int|
                        0 <= i < old(self).buckets().len() && i != k ==> #[trigger] final(self).buckets()[i]
                            == old(self).buckets()[i]
                    &&& final(self).buckets()[k].coord == coord
                    &&& final(self).buckets()[k].entity_ids@ == if ids.contains(entity_id) {
                        ids
                    } else {
                        ids.push(entity_id)
                    }
                } else {
                    &&& final(self).buckets().len() == old(self).buckets().len() + 1
                    &&& final(self).buckets().drop_last() == old(self).buckets()
                    &&& final(self).buckets().last().coord == coord
                    &&& final(self).buckets().last().entity_ids@ == seq![entity_id]
                }
            }),
    {
        match self.find_sector(coord) {
            Some(k) => {
                let ghost ids = self.sectors@[k as int].entity_ids@;
                let mut entity_ids = self.sectors[k].entity_ids.clone();
                assert(entity_ids@ =~= ids);
                let mut found = false;
                let mut i: usize = 0;
                while i < entity_ids.len()
                    invariant
                        i <= ids.len(),
                        ids == entity_ids@,
                        found ==> ids.contains(entity_id),
                        !found ==> forall|j: int| 0 <= j < i ==> ids[j] != entity_id,
                    decreases ids.len() - i,
                {
                    if entity_ids[i] == entity_id {
                        found = true;
                    }
                    i = i + 1;
                }
                if !found {
                    entity_ids.push(entity_id);
                }
                self.sectors.set(k, SectorBucket { coord, entity_ids });
            },
            None => {
                let mut bucket = SectorBucket::with_capacity(coord, 64);
                bucket.entity_ids.push(entity_id);
                self.sectors.push(bucket);
                assert(self.sectors@.drop_last() =~= old(self).sectors@);
                assert(self.sectors@.last().entity_ids@ =~= seq![entity_id]);
            },
        }
        Ok(coord)
    }

    /// Number of registered sectors.
    pub fn sector_count(&self) -> (n: usize)
        ensures
            n == self.buckets().len(),
    {
        self.sectors.len()
    }

    /// Number of entities registered in sector `coord` (0 for an unknown sector).
    pub fn sector_entity_count(&self, coord: SectorCoord) -> (n: usize)
        ensures
            n == entities_in(self.buckets(), coord),
    {
        match self.find_sector(coord) {
            Some(k) => self.sectors[k].entity_ids.len(),
            None => 0,
        }
    }

    /// Migrations resolved by the last barrier, in the order applied.
    pub fn migrations(&self) -> (m: &[SectorMigration])
        ensures
            m@ == self.spec_migrations(),
    {
        self.migrations.as_slice()
    }

    /// Barrier phase of a simulation step: sorts the step's migrations by entity (stably),
    /// then moves each entity from its old sector's bucket to its new sector's, creating
    /// buckets as needed. The sorted migrations are kept for `migrations`.
    pub fn resolve_migrations(&mut self, migrations: Vec<SectorMigration>)
        ensures
            final(self).spec_migrations() == sorted_by_entity(migrations@),
            bucket_view(final(self).buckets()) == apply_migrations(
                bucket_view(old(self).buckets()),
                sorted_by_entity(migrations@),
            ),
            final(self).spec_max_entities() == old(self).spec_max_entities(),
    {
        let mut sorted: Vec<SectorMigration> = Vec::new();
        let mut i: usize = 0;
        while i < migrations.len()
            invariant
                i <= migrations@.len(),
                sorted@ == sorted_by_entity(migrations@.take(i as int)),
            decreases migrations@.len() - i,
        {
            let m = migrations[i];
            let ghost s = sorted@;
            let ghost p = |x: SectorMigration| x.entity_id > m.entity_id;
            let mut pos: usize = 0;
            while pos < sorted.len() && sorted[pos].entity_id <= m.entity_id
                invariant
                    pos <= s.len(),
                    s == sorted@,
                    p == (|x: SectorMigration| x.entity_id > m.entity_id),
                    forall|j: int| 0 <= j < pos ==> !p(#[trigger] s[j]),
                decreases s.len() - pos,
            {
                pos = pos + 1;
            }
            proof {
                if pos < s.len() {
                    lemma_first_index_is(s, p, pos as int);
                } else {
                    lemma_first_index_none(s, p);
                }
                assert(migrations@.take(i + 1).drop_last() =~= migrations@.take(i as int));
            }
            sorted.insert(pos, m);
            i = i + 1;
        }
        assert(migrations@.take(migrations@.len() as int) =~= migrations@);
        let ghost start = bucket_view(self.sectors@);
        let mut k: usize = 0;
        while k < sorted.len()
            invariant
                k <= sorted@.len(),
                bucket_view(self.sectors@) == apply_migrations(start, sorted@.take(k as int)),
                self.max_entities == old(self).max_entities,
            decreases sorted@.len() - k,
        {
            let m = sorted[k];
            self.apply_one(m);
            assert(sorted@.take(k + 1).drop_last() =~= sorted@.take(k as int));
            k = k + 1;
        }
        assert(sorted@.take(sorted@.len() as int) =~= sorted@);
        self.migrations = sorted;
    }

    /// Applies one migration to the buckets.
    fn apply_one(&mut self, m: SectorMigration)
        ensures
            bucket_view(final(self).sectors@) == apply_migration(bucket_view(old(self).sectors@), m),
            final(self).max_entities == old(self).max_entities,
            final(self).migrations == old(self).migrations,
    {
        let ghost v = bucket_view(self.sectors@);
        proof {
            lemma_bucket_view_find(self.sectors@, m.old_sector);
        }
        if let Some(k) = self.find_sector(m.old_sector) {
            let ghost ids0 = self.sectors@[k as int].entity_ids@;
            let mut ids = self.sectors[k].entity_ids.clone();
            assert(ids@ =~= ids0);
            let mut p: usize = 0;
            let ghost q = is_entity(m.entity_id);
            while p < ids.len() && ids[p] != m.entity_id
                invariant
                    p <= ids0.len(),
                    ids@ == ids0,
                    q == is_entity(m.entity_id),
                    forall|j: int| 0 <= j < p ==> !q(#[trigger] ids0[j]),
                decreases ids0.len() - p,
            {
                p = p + 1;
            }
            if p < ids.len() {
                proof {
                    lemma_first_index_is(ids0, q, p as int);
                }
                ids.swap_remove(p);
                let c = self.sectors[k].coord;
                self.sectors.set(k, SectorBucket { coord: c, entity_ids: ids });
                assert(bucket_view(self.sectors@) =~= v.update(
                    k as int,
                    (v[k as int].0, swap_removed(ids0, p as int)),
                ));
            } else {
                proof {
                    lemma_first_index_none(ids0, q);
                }
            }
        }
        let ghost v1 = bucket_view(self.sectors@);
        proof {
            lemma_bucket_view_find(self.sectors@, m.new_sector);
        }
        match self.find_sector(m.new_sector) {
            Some(j) => {
                let ghost ids1 = self.sectors@[j as int].entity_ids@;
                let mut ids = self.sectors[j].entity_ids.clone();
                assert(ids@ =~= ids1);
                ids.push(m.entity_id);
                let c = self.sectors[j].coord;
                self.sectors.set(j, SectorBucket { coord: c, entity_ids: ids });
                assert(bucket_view(self.sectors@) =~= v1.update(
                    j as int,
                    (v1[j as int].0, v1[j as int].1.push(m.entity_id)),
                ));
            },
            None => {
                let mut bucket = SectorBucket::with_capacity(m.new_sector, 64);
                bucket.entity_ids.push(m.entity_id);
                self.sectors.push(bucket);
                assert(bucket_view(self.sectors@) =~= v1.push((m.new_sector, seq![m.entity_id])));
            },
        }
    }
}

} // verus!
