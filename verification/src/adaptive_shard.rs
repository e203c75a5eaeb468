//! Adaptive shard manager: assigns 256m sectors to worker shards, contracting hotspots to
//! dedicated workers and merging sparse wilderness into a background shard.
use vstd::prelude::*;

use crate::error::WorldError;
use crate::slots::{first_index, lemma_first_index, lemma_first_index_is, lemma_first_index_none};

verus! {

/// Maximum number of worker shards in a continental cluster.
pub const MAX_WORKER_SHARDS: usize = 64;

/// Default entity threshold to declare a sector a high-density hotspot.
pub const DEFAULT_HOTSPOT_ENTITY_THRESHOLD: u32 = 500;

/// Default entity threshold below which a sector is considered sparse wilderness.
pub const DEFAULT_WILDERNESS_ENTITY_THRESHOLD: u32 = 10;

/// Default tick duration (microseconds) above which a worker counts as overloaded.
pub const DEFAULT_CPU_OVERLOAD_MICROS: u64 = 35_000;

/// `a + b`, clamped at `u32::MAX`.
pub open spec fn sat_add32(a: u32, b: u32) -> u32 {
    if a + b > u32::MAX { u32::MAX } else { (a + b) as u32 }
}

/// `a - b`, clamped at zero.
pub open spec fn sat_sub32(a: u32, b: u32) -> u32 {
    if a >= b { (a - b) as u32 } else { 0 }
}

/// Reason triggering an adaptive shard rebalance action.
#[derive(Debug, Clone, Copy, PartialEq, Eq, Structural)]
pub enum RebalanceReason {
    /// Sector density exceeded the hotspot threshold: contracted to a dedicated worker.
    HotspotContraction,
    /// Sector density dropped below the wilderness threshold: merged into the background shard.
    WildernessMerge,
    /// Worker tick duration exceeded the overload threshold.
    WorkerOverload,
    /// Manual administrator or topology migration.
    Manual,
}

/// Description of a sector migration between worker shards.
#[derive(Debug, Clone, Copy, PartialEq, Eq, Structural)]
pub struct ShardRebalanceAction {
    /// Horizontal sector X coordinate.
    pub sector_x: i32,
    /// Horizontal sector Z coordinate.
    pub sector_z: i32,
    /// Origin worker shard identifier.
    pub from_shard: u32,
    /// Destination worker shard identifier.
    pub to_shard: u32,
    /// Justification for the rebalance.
    pub reason: RebalanceReason,
}

/// Live performance metrics for a single worker shard.
#[derive(Debug, Clone, Copy, PartialEq, Eq, Structural)]
pub struct ShardMetrics {
    /// Worker shard identifier.
    pub shard_id: u32,
    /// Number of active sectors assigned to this shard.
    pub active_sectors: u32,
    /// Total number of entities simulated by this shard.
    pub total_entities: u32,
    /// Duration of the most recent tick in microseconds.
    pub last_tick_duration_micros: u64,
}

impl ShardMetrics {
    /// Creates an empty metric descriptor for the given shard.
    pub fn new(shard_id: u32) -> (m: Self)
        ensures
            m == (ShardMetrics {
                shard_id,
                active_sectors: 0,
                total_entities: 0,
                last_tick_duration_micros: 0,
            }),
    {
        ShardMetrics { shard_id, active_sectors: 0, total_entities: 0, last_tick_duration_micros: 0 }
    }
}

/// Metadata tracked for an individual sector.
#[derive(Debug, Clone, Copy, PartialEq, Eq, Structural)]
pub struct SectorMetadata {
    /// Worker shard currently managing this sector.
    pub shard_id: u32,
    /// Number of live entities inside this sector.
    pub entity_count: u32,
    /// Tick when this sector was last rebalanced.
    pub last_rebalanced_tick: u64,
}

/// Abstract state of an adaptive shard manager.
pub struct ShardManagerView {
    /// Metrics of all 64 shard slots.
    pub shards: Seq<ShardMetrics>,
    /// Number of active shards.
    pub shard_count: nat,
    /// Registered sectors `(x, z, metadata)` in registration order.
    pub sectors: Seq<(i32, i32, SectorMetadata)>,
    /// Hotspot entity threshold.
    pub hotspot_threshold: u32,
    /// Wilderness entity threshold.
    pub wilderness_threshold: u32,
    /// CPU overload threshold in microseconds.
    pub cpu_overload_threshold_micros: u64,
    /// Background shard receiving wilderness sectors.
    pub background_shard_id: u32,
}

/// Entry is sector `(x, z)`.
pub open spec fn is_sector(x: i32, z: i32) -> spec_fn((i32, i32, SectorMetadata)) -> bool {
    |e: (i32, i32, SectorMetadata)| e.0 == x && e.1 == z
}

/// Shard `i` loses one sector holding `n` entities (saturating; out-of-range shards are ignored).
pub open spec fn detach(shards: Seq<ShardMetrics>, i: int, n: u32) -> Seq<ShardMetrics> {
    if 0 <= i < shards.len() {
        shards.update(
            i,
            ShardMetrics {
                active_sectors: sat_sub32(shards[i].active_sectors, 1),
                total_entities: sat_sub32(shards[i].total_entities, n),
                ..shards[i]
            },
        )
    } else {
        shards
    }
}

/// Shard `i` gains one sector holding `n` entities (saturating; out-of-range shards are ignored).
pub open spec fn attach(shards: Seq<ShardMetrics>, i: int, n: u32) -> Seq<ShardMetrics> {
    if 0 <= i < shards.len() {
        shards.update(
            i,
            ShardMetrics {
                active_sectors: sat_add32(shards[i].active_sectors, 1),
                total_entities: sat_add32(shards[i].total_entities, n),
                ..shards[i]
            },
        )
    } else {
        shards
    }
}

/// Moves registered sector `k` to shard `to`, optionally stamping the rebalance tick.
pub open spec fn reassign(v: ShardManagerView, k: int, to: u32, tick: Option<u64>) -> ShardManagerView {
    let (x, z, m) = v.sectors[k];
    ShardManagerView {
        shards: attach(detach(v.shards, m.shard_id as int, m.entity_count), to as int, m.entity_count),
        sectors: v.sectors.update(
            k,
            (
                x,
                z,
                SectorMetadata {
                    shard_id: to,
                    last_rebalanced_tick: match tick {
                        Some(t) => t,
                        None => m.last_rebalanced_tick,
                    },
                    ..m
                },
            ),
        ),
        ..v
    }
}

/// Outcome of moving sector `(x, z)` to shard `to` for `reason` at `tick` (no-op when already there).
pub open spec fn spec_move_sector(
    v: ShardManagerView,
    x: i32,
    z: i32,
    to: u32,
    reason: RebalanceReason,
    tick: u64,
) -> (ShardManagerView, Result<ShardRebalanceAction, WorldError>) {
    let k = first_index(v.sectors, is_sector(x, z));
    if k < 0 {
        (v, Err(WorldError::ShardNotFound(0)))
    } else {
        let from = v.sectors[k].2.shard_id;
        let action = ShardRebalanceAction { sector_x: x, sector_z: z, from_shard: from, to_shard: to, reason };
        if from == to {
            (v, Ok(action))
        } else {
            (reassign(v, k, to, Some(tick)), Ok(action))
        }
    }
}

/// Outcome of contracting hotspot `(x, z)` onto `target` at `tick`.
pub open spec fn spec_contract(v: ShardManagerView, x: i32, z: i32, target: u32, tick: u64) -> (
    ShardManagerView,
    Result<ShardRebalanceAction, WorldError>,
) {
    if target as nat >= v.shard_count {
        (v, Err(WorldError::ShardNotFound(target)))
    } else {
        spec_move_sector(v, x, z, target, RebalanceReason::HotspotContraction, tick)
    }
}

/// Outcome of merging wilderness sector `(x, z)` into the background shard at `tick`.
pub open spec fn spec_merge(v: ShardManagerView, x: i32, z: i32, tick: u64) -> (
    ShardManagerView,
    Result<ShardRebalanceAction, WorldError>,
) {
    spec_move_sector(v, x, z, v.background_shard_id, RebalanceReason::WildernessMerge, tick)
}

/// Sector is a hotspot still on the background shard.
pub open spec fn is_hotspot(v: ShardManagerView, m: SectorMetadata) -> bool {
    m.entity_count >= v.hotspot_threshold && m.shard_id == v.background_shard_id
}

/// Sector is sparse wilderness off the background shard (and not a hotspot).
pub open spec fn is_wilderness(v: ShardManagerView, m: SectorMetadata) -> bool {
    !is_hotspot(v, m) && m.entity_count <= v.wilderness_threshold && m.shard_id != v.background_shard_id
}

/// Coordinates of the sectors in `s` (in order) that are hotspots (`hot`) or wilderness (`!hot`).
pub open spec fn candidate_keys(v: ShardManagerView, s: Seq<(i32, i32, SectorMetadata)>, hot: bool) -> Seq<
    (i32, i32),
>
    decreases s.len(),
{
    if s.len() == 0 {
        Seq::empty()
    } else {
        let prev = candidate_keys(v, s.drop_last(), hot);
        let e = s.last();
        if (hot && is_hotspot(v, e.2)) || (!hot && is_wilderness(v, e.2)) {
            prev.push((e.0, e.1))
        } else {
            prev
        }
    }
}

/// First active non-background shard with the least total entities strictly below `u32::MAX`,
/// together with that load, among shard slots `0..n`.
pub open spec fn best_shard_upto(shards: Seq<ShardMetrics>, n: nat, bg: u32) -> (Option<u32>, u32)
    decreases n,
{
    if n == 0 {
        (None, u32::MAX)
    } else {
        let (b, lo) = best_shard_upto(shards, (n - 1) as nat, bg);
        let s = shards[n - 1];
        if s.shard_id != bg && s.total_entities < lo {
            (Some(s.shard_id), s.total_entities)
        } else {
            (b, lo)
        }
    }
}

/// Merges each listed wilderness sector into the background shard, in order, collecting the
/// actions that actually moved a sector.
pub open spec fn merge_all(v: ShardManagerView, keys: Seq<(i32, i32)>, tick: u64) -> (
    ShardManagerView,
    Seq<ShardRebalanceAction>,
)
    decreases keys.len(),
{
    if keys.len() == 0 {
        (v, Seq::empty())
    } else {
        let (v1, acts) = merge_all(v, keys.drop_last(), tick);
        let (v2, r) = spec_merge(v1, keys.last().0, keys.last().1, tick);
        match r {
            Ok(a) => if a.from_shard != a.to_shard {
                (v2, acts.push(a))
            } else {
                (v2, acts)
            },
            Err(_) => (v2, acts),
        }
    }
}

/// Contracts each listed hotspot, in order, onto the least-loaded non-background shard of the
/// moment, collecting the actions that actually moved a sector.
pub open spec fn contract_all(v: ShardManagerView, keys: Seq<(i32, i32)>, tick: u64) -> (
    ShardManagerView,
    Seq<ShardRebalanceAction>,
)
    decreases keys.len(),
{
    if keys.len() == 0 {
        (v, Seq::empty())
    } else {
        let (v1, acts) = contract_all(v, keys.drop_last(), tick);
        match best_shard_upto(v1.shards, v1.shard_count, v1.background_shard_id).0 {
            None => (v1, acts),
            Some(t) => {
                let (v2, r) = spec_contract(v1, keys.last().0, keys.last().1, t, tick);
                match r {
                    Ok(a) => if a.from_shard != a.to_shard {
                        (v2, acts.push(a))
                    } else {
                        (v2, acts)
                    },
                    Err(_) => (v2, acts),
                }
            },
        }
    }
}

/// Dynamic adaptive shard manager distributing sectors across worker threads.
#[derive(Debug)]
pub struct AdaptiveShardManager {
    shards: [ShardMetrics; 64],
    shard_count: usize,
    sectors: Vec<(i32, i32, SectorMetadata)>,
    hotspot_threshold: u32,
    wilderness_threshold: u32,
    cpu_overload_threshold_micros: u64,
    background_shard_id: u32,
}

impl View for AdaptiveShardManager {
    type V = ShardManagerView;

    closed spec fn view(&self) -> ShardManagerView {
        ShardManagerView {
            shards: self.shards@,
            shard_count: self.shard_count as nat,
            sectors: self.sectors@,
            hotspot_threshold: self.hotspot_threshold,
            wilderness_threshold: self.wilderness_threshold,
            cpu_overload_threshold_micros: self.cpu_overload_threshold_micros,
            background_shard_id: self.background_shard_id,
        }
    }
}

/// Well-formed manager state: 1..=64 active shards whose slots carry their own index as
/// identifier, a background shard among them, each sector registered once on an active shard,
/// and (while fewer than `u32::MAX` sectors are registered, so that no counter saturates) each
/// shard's sector counter equal to the number of sectors registered on it.
pub open spec fn shard_view_wf(v: ShardManagerView) -> bool {
    &&& v.shards.len() == MAX_WORKER_SHARDS
    &&& 1 <= v.shard_count <= MAX_WORKER_SHARDS
    &&& forall|i: int| 0 <= i < v.shard_count ==> (#[trigger] v.shards[i]).shard_id == i
    &&& (v.background_shard_id as nat) < v.shard_count
    &&& forall|i: int, j: int|
        0 <= i < j < v.sectors.len() ==> ((#[trigger] v.sectors[i]).0, v.sectors[i].1) != ((
        #[trigger] v.sectors[j]).0, v.sectors[j].1)
    &&& forall|i: int| 0 <= i < v.sectors.len() ==> ((#[trigger] v.sectors[i]).2.shard_id as nat)
        < v.shard_count
    &&& v.sectors.len() < u32::MAX ==> sector_counts_exact(v)
}

proof fn lemma_reassign_wf(v: ShardManagerView, k: int, to: u32, tick: Option<u64>)
    requires
        shard_view_wf(v),
        0 <= k < v.sectors.len(),
        (to as nat) < v.shard_count,
    ensures
        shard_view_wf(reassign(v, k, to, tick)),
{
    let w = reassign(v, k, to, tick);
    assert forall|i: int| 0 <= i < w.shard_count implies (#[trigger] w.shards[i]).shard_id == i by {
        assert(v.shards[i].shard_id == i);
    }
    assert forall|i: int, j: int| 0 <= i < j < w.sectors.len() implies ((#[trigger] w.sectors[i]).0,
    w.sectors[i].1) != ((#[trigger] w.sectors[j]).0, w.sectors[j].1) by {
        assert((w.sectors[i].0, w.sectors[i].1) == (v.sectors[i].0, v.sectors[i].1));
        assert((w.sectors[j].0, w.sectors[j].1) == (v.sectors[j].0, v.sectors[j].1));
    }
    assert forall|i: int| 0 <= i < w.sectors.len() implies ((#[trigger] w.sectors[i]).2.shard_id
        as nat) < w.shard_count by {
        if i != k {
            assert(w.sectors[i] == v.sectors[i]);
        }
    }
    if w.sectors.len() < u32::MAX {
        reveal(sector_counts_exact);
        lemma_sectors_on_bound(v.sectors, to as int);
        assert(v.shards[to as int].active_sectors == sectors_on(v.sectors, to as int));
        lemma_reassign_keeps_counts(v, k, to, tick);
    }
}

proof fn lemma_best_shard(shards: Seq<ShardMetrics>, n: nat, bg: u32)
    requires
        n <= shards.len(),
        forall|i: int| 0 <= i < n ==> (#[trigger] shards[i]).shard_id == i,
    ensures
        best_shard_upto(shards, n, bg).0 matches Some(t) ==> (t as nat) < n && t != bg,
    decreases n,
{
    if n > 0 {
        lemma_best_shard(shards, (n - 1) as nat, bg);
        assert(shards[n - 1].shard_id == n - 1);
    }
}

impl AdaptiveShardManager {
    /// Manager invariant.
    pub open spec fn wf(&self) -> bool {
        shard_view_wf(self@)
    }

    /// Creates a manager with `min(num_shards, 64)` active shards; zero shards is refused.
    pub fn new(num_shards: usize) -> (r: Result<Self, WorldError>)
        ensures
            num_shards == 0 ==> r == Err::<Self, WorldError>(WorldError::ShardNotFound(0)),
            num_shards > 0 ==> (r matches Ok(m) && m.wf() && ({
                let count = if num_shards > MAX_WORKER_SHARDS { MAX_WORKER_SHARDS } else { num_shards };
                &&& m@.shard_count == count
                &&& forall|i: int|
                    0 <= i < MAX_WORKER_SHARDS ==> #[trigger] m@.shards[i] == (ShardMetrics {
                        shard_id: if i < count { i as u32 } else { 0 },
                        active_sectors: 0,
                        total_entities: 0,
                        last_tick_duration_micros: 0,
                    })
                &&& m@.sectors == Seq::<(i32, i32, SectorMetadata)>::empty()
                &&& m@.hotspot_threshold == DEFAULT_HOTSPOT_ENTITY_THRESHOLD
                &&& m@.wilderness_threshold == DEFAULT_WILDERNESS_ENTITY_THRESHOLD
                &&& m@.cpu_overload_threshold_micros == DEFAULT_CPU_OVERLOAD_MICROS
                &&& m@.background_shard_id == 0
            })),
    {
        let count = if num_shards > MAX_WORKER_SHARDS { MAX_WORKER_SHARDS } else { num_shards };
        if count == 0 {
            return Err(WorldError::ShardNotFound(0));
        }
        let mut shards = [ShardMetrics::new(0); 64];
        let mut i: usize = 0;
        while i < count
            invariant
                i <= count <= 64,
                forall|j: int|
                    0 <= j < 64 ==> #[trigger] shards@[j] == (ShardMetrics {
                        shard_id: if j < i { j as u32 } else { 0 },
                        active_sectors: 0,
                        total_entities: 0,
                        last_tick_duration_micros: 0,
                    }),
            decreases count - i,
        {
            shards[i] = ShardMetrics::new(i as u32);
            i = i + 1;
        }
        let m = AdaptiveShardManager {
            shards,
            shard_count: count,
            sectors: Vec::new(),
            hotspot_threshold: DEFAULT_HOTSPOT_ENTITY_THRESHOLD,
            wilderness_threshold: DEFAULT_WILDERNESS_ENTITY_THRESHOLD,
            cpu_overload_threshold_micros: DEFAULT_CPU_OVERLOAD_MICROS,
            background_shard_id: 0,
        };
        assert(m@.shards.len() == 64);
        proof {
            lemma_fresh_counts_exact(m@);
        }
        Ok(m)
    }

    /// Configures rebalance thresholds; the background shard changes only to an active shard.
    pub fn configure_thresholds(
        &mut self,
        hotspot: u32,
        wilderness: u32,
        cpu_overload_micros: u64,
        background_shard: u32,
    )
        requires
            old(self).wf(),
        ensures
            final(self).wf(),
            final(self)@ == (ShardManagerView {
                hotspot_threshold: hotspot,
                wilderness_threshold: wilderness,
                cpu_overload_threshold_micros: cpu_overload_micros,
                background_shard_id: if (background_shard as nat) < old(self)@.shard_count {
                    background_shard
                } else {
                    old(self)@.background_shard_id
                },
                ..old(self)@
            }),
    {
        self.hotspot_threshold = hotspot;
        self.wilderness_threshold = wilderness;
        self.cpu_overload_threshold_micros = cpu_overload_micros;
        if (background_shard as usize) < self.shard_count {
            self.background_shard_id = background_shard;
        }
        proof {
            let v = self@;
            let o = old(self)@;
            if v.sectors.len() < u32::MAX {
                assert forall|j: int| 0 <= j < o.sectors.len() implies (#[trigger] v.sectors[j]).2.shard_id
                    == o.sectors[j].2.shard_id by {}
                assert forall|i: int| 0 <= i < o.shard_count implies (#[trigger] v.shards[i]).active_sectors
                    == o.shards[i].active_sectors by {}
                lemma_counts_kept(o, v);
            }
        }
    }

    fn find_sector(&self, sector_x: i32, sector_z: i32) -> (r: Option<usize>)
        ensures
            ({
                let k = first_index(self@.sectors, is_sector(sector_x, sector_z));
                &&& (r is Some <==> k >= 0)
                &&& r matches Some(i) ==> i as int == k && i < self@.sectors.len()
            }),
    {
        let ghost s = self.sectors@;
        let ghost p = is_sector(sector_x, sector_z);
        let mut i: usize = 0;
        while i < self.sectors.len()
            invariant
                i <= s.len(),
                s == self.sectors@,
                s == self@.sectors,
                p == is_sector(sector_x, sector_z),
                forall|j: int| 0 <= j < i ==> !p(#[trigger] s[j]),
            decreases s.len() - i,
        {
            let (x, z, _) = self.sectors[i];
            if x == sector_x && z == sector_z {
                proof {
                    lemma_first_index_is(s, p, i as int);
                }
                return Some(i);
            }
            i = i + 1;
        }
        proof {
            lemma_first_index_none(s, p);
        }
        None
    }

    fn move_sector_at(&mut self, k: usize, to: u32, tick: Option<u64>)
        requires
            old(self).wf(),
            k < old(self)@.sectors.len(),
            (to as nat) < old(self)@.shard_count,
            old(self)@.sectors[k as int].2.shard_id != to,
        ensures
            final(self).wf(),
            final(self)@ == reassign(old(self)@, k as int, to, tick),
    {
        let (x, z, m) = self.sectors[k];
        let old_shard = m.shard_id as usize;
        if old_shard < 64 {
            let o = self.shards[old_shard];
            self.shards[old_shard] = ShardMetrics {
                active_sectors: o.active_sectors.saturating_sub(1),
                total_entities: o.total_entities.saturating_sub(m.entity_count),
                ..o
            };
        }
        let new_shard = to as usize;
        if new_shard < 64 {
            let n = self.shards[new_shard];
            self.shards[new_shard] = ShardMetrics {
                active_sectors: n.active_sectors.saturating_add(1),
                total_entities: n.total_entities.saturating_add(m.entity_count),
                ..n
            };
        }
        let stamp = match tick {
            Some(t) => t,
            None => m.last_rebalanced_tick,
        };
        self.sectors.set(
            k,
            (x, z, SectorMetadata { shard_id: to, last_rebalanced_tick: stamp, ..m }),
        );
        proof {
            assert(self@.shards =~= reassign(old(self)@, k as int, to, tick).shards);
            assert(self@.sectors =~= reassign(old(self)@, k as int, to, tick).sectors);
            lemma_reassign_wf(old(self)@, k as int, to, tick);
        }
    }

    /// Assigns a sector to an active shard: a new sector is registered with no entities; an
    /// existing one moves (with its entities) if it was on another shard.
    pub fn assign_sector(&mut self, sector_x: i32, sector_z: i32, shard_id: u32) -> (r: Result<
        (),
        WorldError,
    >)
        requires
            old(self).wf(),
        ensures
            final(self).wf(),
            (shard_id as nat) >= old(self)@.shard_count ==> r == Err::<(), WorldError>(
                WorldError::ShardNotFound(shard_id),
            ) && final(self)@ == old(self)@,
            (shard_id as nat) < old(self)@.shard_count ==> r is Ok && ({
                let k = first_index(old(self)@.sectors, is_sector(sector_x, sector_z));
                if k >= 0 {
                    final(self)@ == if old(self)@.sectors[k].2.shard_id == shard_id {
                        old(self)@
                    } else {
                        reassign(old(self)@, k, shard_id, None)
                    }
                } else {
                    final(self)@ == ShardManagerView {
                        shards: attach(old(self)@.shards, shard_id as int, 0),
                        sectors: old(self)@.sectors.push(
                            (
                                sector_x,
                                sector_z,
                                SectorMetadata { shard_id, entity_count: 0, last_rebalanced_tick: 0 },
                            ),
                        ),
                        ..old(self)@
                    }
                }
            }),
    {
        if shard_id as usize >= self.shard_count {
            return Err(WorldError::ShardNotFound(shard_id));
        }
        match self.find_sector(sector_x, sector_z) {
            Some(k) => {
                if self.sectors[k].2.shard_id != shard_id {
                    self.move_sector_at(k, shard_id, None);
                }
            },
            None => {
                proof {
                    lemma_first_index(self@.sectors, is_sector(sector_x, sector_z));
                }
                self.sectors.push(
                    (
                        sector_x,
                        sector_z,
                        SectorMetadata { shard_id, entity_count: 0, last_rebalanced_tick: 0 },
                    ),
                );
                let idx = shard_id as usize;
                let m = self.shards[idx];
                self.shards[idx] = ShardMetrics {
                    active_sectors: m.active_sectors.saturating_add(1),
                    total_entities: m.total_entities.saturating_add(0),
                    ..m
                };
                proof {
                    let v = self@;
                    let o = old(self)@;
                    assert(v.shards =~= attach(o.shards, shard_id as int, 0));
                    assert forall|i: int| 0 <= i < v.shard_count implies (#[trigger] v.shards[i]).shard_id
                        == i by {
                        assert(o.shards[i].shard_id == i);
                    }
                    assert forall|i: int, j: int| 0 <= i < j < v.sectors.len() implies ((
                    #[trigger] v.sectors[i]).0, v.sectors[i].1) != ((#[trigger] v.sectors[j]).0,
                    v.sectors[j].1) by {
                        assert(v.sectors[i] == o.sectors[i]);
                        if j < o.sectors.len() {
                            assert(v.sectors[j] == o.sectors[j]);
                        } else {
                            assert(!is_sector(sector_x, sector_z)(o.sectors[i]));
                        }
                    }
                    assert forall|i: int| 0 <= i < v.sectors.len() implies ((
                    #[trigger] v.sectors[i]).2.shard_id as nat) < v.shard_count by {
                        if i < o.sectors.len() {
                            assert(v.sectors[i] == o.sectors[i]);
                        }
                    }
                    if v.sectors.len() < u32::MAX {
                        reveal(sector_counts_exact);
                        lemma_sectors_on_bound(o.sectors, shard_id as int);
                        assert(o.shards[shard_id as int].active_sectors == sectors_on(o.sectors, shard_id as int));
                        lemma_register_keeps_counts(o, sector_x, sector_z, shard_id);
                        assert(v == ShardManagerView {
                            shards: attach(o.shards, shard_id as int, 0),
                            sectors: o.sectors.push(
                                (sector_x, sector_z, SectorMetadata { shard_id, entity_count: 0, last_rebalanced_tick: 0 }),
                            ),
                            ..o
                        });
                    }
                }
            },
        }
        Ok(())
    }

    /// Queries the shard currently assigned to a sector.
    pub fn get_shard_for_sector(&self, sector_x: i32, sector_z: i32) -> (r: Option<u32>)
        ensures
            ({
                let k = first_index(self@.sectors, is_sector(sector_x, sector_z));
                r == if k >= 0 {
                    Some(self@.sectors[k].2.shard_id)
                } else {
                    None::<u32>
                }
            }),
    {
        match self.find_sector(sector_x, sector_z) {
            Some(k) => Some(self.sectors[k].2.shard_id),
            None => None,
        }
    }

    /// Sets a sector's entity count and adjusts its shard's total (saturating).
    pub fn update_sector_entity_count(&mut self, sector_x: i32, sector_z: i32, new_count: u32) -> (r:
        Result<(), WorldError>)
        requires
            old(self).wf(),
        ensures
            final(self).wf(),
            ({
                let k = first_index(old(self)@.sectors, is_sector(sector_x, sector_z));
                if k < 0 {
                    r == Err::<(), WorldError>(WorldError::EntityNotFound(0)) && final(self)@ == old(self)@
                } else {
                    let (x, z, m) = old(self)@.sectors[k];
                    let s = m.shard_id as int;
                    &&& r is Ok
                    &&& final(self)@ == ShardManagerView {
                        sectors: old(self)@.sectors.update(k, (x, z, SectorMetadata { entity_count: new_count, ..m })),
                        shards: old(self)@.shards.update(
                            s,
                            ShardMetrics {
                                total_entities: sat_add32(
                                    sat_sub32(old(self)@.shards[s].total_entities, m.entity_count),
                                    new_count,
                                ),
                                ..old(self)@.shards[s]
                            },
                        ),
                        ..old(self)@
                    }
                }
            }),
    {
        let k = match self.find_sector(sector_x, sector_z) {
            Some(k) => k,
            None => {
                return Err(WorldError::EntityNotFound(0));
            },
        };
        let (x, z, m) = self.sectors[k];
        self.sectors.set(k, (x, z, SectorMetadata { entity_count: new_count, ..m }));
        let s = m.shard_id as usize;
        let sh = self.shards[s];
        self.shards[s] = ShardMetrics {
            total_entities: sh.total_entities.saturating_sub(m.entity_count).saturating_add(new_count),
            ..sh
        };
        proof {
            let v = self@;
            let o = old(self)@;
            assert forall|i: int| 0 <= i < v.shard_count implies (#[trigger] v.shards[i]).shard_id == i by {
                assert(o.shards[i].shard_id == i);
            }
            assert forall|i: int, j: int| 0 <= i < j < v.sectors.len() implies ((#[trigger] v.sectors[i]).0,
            v.sectors[i].1) != ((#[trigger] v.sectors[j]).0, v.sectors[j].1) by {
                assert((v.sectors[i].0, v.sectors[i].1) == (o.sectors[i].0, o.sectors[i].1));
                assert((v.sectors[j].0, v.sectors[j].1) == (o.sectors[j].0, o.sectors[j].1));
            }
            assert forall|i: int| 0 <= i < v.sectors.len() implies ((#[trigger] v.sectors[i]).2.shard_id
                as nat) < v.shard_count by {
                assert(v.sectors[i].2.shard_id == o.sectors[i].2.shard_id);
            }
            if v.sectors.len() < u32::MAX {
                assert forall|j: int| 0 <= j < o.sectors.len() implies (#[trigger] v.sectors[j]).2.shard_id
                    == o.sectors[j].2.shard_id by {}
                assert forall|i: int| 0 <= i < o.shard_count implies (#[trigger] v.shards[i]).active_sectors
                    == o.shards[i].active_sectors by {}
                lemma_counts_kept(o, v);
            }
        }
        Ok(())
    }

    /// Records the latest tick duration of shard slot `shard_id` (any of the 64 slots).
    pub fn update_shard_cpu(&mut self, shard_id: u32, tick_duration_micros: u64) -> (r: Result<
        (),
        WorldError,
    >)
        requires
            old(self).wf(),
        ensures
            final(self).wf(),
            shard_id >= 64 ==> r == Err::<(), WorldError>(WorldError::ShardNotFound(shard_id))
                && final(self)@ == old(self)@,
            shard_id < 64 ==> r is Ok && final(self)@ == (ShardManagerView {
                shards: old(self)@.shards.update(
                    shard_id as int,
                    ShardMetrics {
                        last_tick_duration_micros: tick_duration_micros,
                        ..old(self)@.shards[shard_id as int]
                    },
                ),
                ..old(self)@
            }),
    {
        if shard_id as usize >= 64 {
            return Err(WorldError::ShardNotFound(shard_id));
        }
        let s = self.shards[shard_id as usize];
        self.shards[shard_id as usize] = ShardMetrics { last_tick_duration_micros: tick_duration_micros, ..s };
        proof {
            let v = self@;
            let o = old(self)@;
            assert forall|i: int| 0 <= i < v.shard_count implies (#[trigger] v.shards[i]).shard_id == i by {
                assert(o.shards[i].shard_id == i);
            }
            if v.sectors.len() < u32::MAX {
                assert forall|j: int| 0 <= j < o.sectors.len() implies (#[trigger] v.sectors[j]).2.shard_id
                    == o.sectors[j].2.shard_id by {}
                assert forall|i: int| 0 <= i < o.shard_count implies (#[trigger] v.shards[i]).active_sectors
                    == o.shards[i].active_sectors by {}
                lemma_counts_kept(o, v);
            }
        }
        Ok(())
    }

    /// Returns the metrics of an active shard.
    pub fn shard_metrics(&self, shard_id: u32) -> (r: Option<&ShardMetrics>)
        requires
            self.wf(),
        ensures
            (shard_id as nat) < self@.shard_count ==> (r matches Some(m) && *m == self@.shards[shard_id as int]),
            (shard_id as nat) >= self@.shard_count ==> r is None,
    {
        if (shard_id as usize) < self.shard_count {
            Some(&self.shards[shard_id as usize])
        } else {
            None
        }
    }

    /// Returns the number of active worker shards.
    pub fn shard_count(&self) -> (n: usize)
        ensures
            n == self@.shard_count,
    {
        self.shard_count
    }

    /// Returns the number of registered sectors.
    pub fn total_registered_sectors(&self) -> (n: usize)
        ensures
            n == self@.sectors.len(),
    {
        self.sectors.len()
    }

    /// Contracts a hotspot sector onto `target_shard`, stamping `current_tick`.
    pub fn contract_hotspot_to_shard(
        &mut self,
        sector_x: i32,
        sector_z: i32,
        target_shard: u32,
        current_tick: u64,
    ) -> (r: Result<ShardRebalanceAction, WorldError>)
        requires
            old(self).wf(),
        ensures
            final(self).wf(),
            (final(self)@, r) == spec_contract(old(self)@, sector_x, sector_z, target_shard, current_tick),
    {
        if target_shard as usize >= self.shard_count {
            return Err(WorldError::ShardNotFound(target_shard));
        }
        self.move_sector_to(sector_x, sector_z, target_shard, RebalanceReason::HotspotContraction, current_tick)
    }

    /// Merges a wilderness sector into the background shard, stamping `current_tick`.
    pub fn merge_wilderness_to_background(&mut self, sector_x: i32, sector_z: i32, current_tick: u64) -> (r:
        Result<ShardRebalanceAction, WorldError>)
        requires
            old(self).wf(),
        ensures
            final(self).wf(),
            (final(self)@, r) == spec_merge(old(self)@, sector_x, sector_z, current_tick),
    {
        let bg = self.background_shard_id;
        self.move_sector_to(sector_x, sector_z, bg, RebalanceReason::WildernessMerge, current_tick)
    }

    fn move_sector_to(
        &mut self,
        sector_x: i32,
        sector_z: i32,
        to: u32,
        reason: RebalanceReason,
        current_tick: u64,
    ) -> (r: Result<ShardRebalanceAction, WorldError>)
        requires
            old(self).wf(),
            (to as nat) < old(self)@.shard_count,
        ensures
            final(self).wf(),
            (final(self)@, r) == spec_move_sector(old(self)@, sector_x, sector_z, to, reason, current_tick),
    {
        let k = match self.find_sector(sector_x, sector_z) {
            Some(k) => k,
            None => {
                return Err(WorldError::ShardNotFound(0));
            },
        };
        let from_shard = self.sectors[k].2.shard_id;
        let action = ShardRebalanceAction { sector_x, sector_z, from_shard, to_shard: to, reason };
        if from_shard != to {
            self.move_sector_at(k, to, Some(current_tick));
        }
        Ok(action)
    }

    /// Evaluates all sectors: wilderness sectors (in registration order) merge into the
    /// background shard, then hotspot sectors contract onto the least-loaded non-background
    /// shard; every action that moved a sector is appended to `out_actions`.
    #[verifier::loop_isolation(false)]
    #[verifier::rlimit(40)]
    pub fn evaluate_rebalance(&mut self, current_tick: u64, out_actions: &mut Vec<ShardRebalanceAction>)
        requires
            old(self).wf(),
        ensures
            final(self).wf(),
            ({
                let v0 = old(self)@;
                let wild = candidate_keys(v0, v0.sectors, false);
                let hot = candidate_keys(v0, v0.sectors, true);
                let (v1, a1) = merge_all(v0, wild, current_tick);
                let (v2, a2) = contract_all(v1, hot, current_tick);
                &&& final(self)@ == v2
                &&& final(out_actions)@ == old(out_actions)@ + a1 + a2
            }),
    {
        let ghost v0 = self@;
        let mut hot: Vec<(i32, i32)> = Vec::new();
        let mut wild: Vec<(i32, i32)> = Vec::new();
        let mut i: usize = 0;
        while i < self.sectors.len()
            invariant
                i <= v0.sectors.len(),
                self@ == v0,
                hot@ == candidate_keys(v0, v0.sectors.take(i as int), true),
                wild@ == candidate_keys(v0, v0.sectors.take(i as int), false),
            decreases v0.sectors.len() - i,
        {
            assert(v0.sectors.take(i + 1).drop_last() =~= v0.sectors.take(i as int));
            let (sx, sz, meta) = self.sectors[i];
            if meta.entity_count >= self.hotspot_threshold && meta.shard_id == self.background_shard_id {
                hot.push((sx, sz));
            } else if meta.entity_count <= self.wilderness_threshold && meta.shard_id
                != self.background_shard_id {
                wild.push((sx, sz));
            }
            i = i + 1;
        }
        assert(v0.sectors.take(v0.sectors.len() as int) =~= v0.sectors);
        let ghost a0 = out_actions@;
        let mut j: usize = 0;
        while j < wild.len()
            invariant
                j <= wild@.len(),
                self.wf(),
                wild@ == candidate_keys(v0, v0.sectors, false),
                self@ == merge_all(v0, wild@.take(j as int), current_tick).0,
                out_actions@ == a0 + merge_all(v0, wild@.take(j as int), current_tick).1,
            decreases wild@.len() - j,
        {
            assert(wild@.take(j + 1).drop_last() =~= wild@.take(j as int));
            let (sx, sz) = wild[j];
            let r = self.merge_wilderness_to_background(sx, sz, current_tick);
            if let Ok(action) = r {
                if action.from_shard != action.to_shard {
                    out_actions.push(action);
                }
            }
            proof {
                let (v, a) = merge_all(v0, wild@.take(j as int), current_tick);
                assert(a0 + a.push(r->Ok_0) =~= (a0 + a).push(r->Ok_0));
            }
            j = j + 1;
        }
        assert(wild@.take(wild@.len() as int) =~= wild@);
        let ghost v1 = self@;
        let ghost a1 = out_actions@;
        let mut j: usize = 0;
        while j < hot.len()
            invariant
                j <= hot@.len(),
                self.wf(),
                hot@ == candidate_keys(v0, v0.sectors, true),
                self@ == contract_all(v1, hot@.take(j as int), current_tick).0,
                out_actions@ == a1 + contract_all(v1, hot@.take(j as int), current_tick).1,
            decreases hot@.len() - j,
        {
            assert(hot@.take(j + 1).drop_last() =~= hot@.take(j as int));
            let (sx, sz) = hot[j];
            let mut best: Option<u32> = None;
            let mut min_load: u32 = u32::MAX;
            let mut s: usize = 0;
            while s < self.shard_count
                invariant
                    s <= self@.shard_count,
                    self.wf(),
                    (best, min_load) == best_shard_upto(self@.shards, s as nat, self@.background_shard_id),
                decreases self@.shard_count - s,
            {
                let m = self.shards[s];
                if m.shard_id != self.background_shard_id && m.total_entities < min_load {
                    min_load = m.total_entities;
                    best = Some(m.shard_id);
                }
                s = s + 1;
            }
            proof {
                lemma_best_shard(self@.shards, self@.shard_count, self@.background_shard_id);
            }
            if let Some(target) = best {
                let r = self.contract_hotspot_to_shard(sx, sz, target, current_tick);
                if let Ok(action) = r {
                    if action.from_shard != action.to_shard {
                        out_actions.push(action);
                    }
                }
                proof {
                    let (v, a) = contract_all(v1, hot@.take(j as int), current_tick);
                    assert(a1 + a.push(r->Ok_0) =~= (a1 + a).push(r->Ok_0));
                }
            }
            j = j + 1;
        }
        assert(hot@.take(hot@.len() as int) =~= hot@);
        proof {
            let (v, a) = merge_all(v0, wild@, current_tick);
            let (w, b) = contract_all(v1, hot@, current_tick);
            assert(final_is(a0, a, b, out_actions@));
        }
    }
}

/// Same registered sector coordinates, in the same order.
pub open spec fn same_sector_keys(a: ShardManagerView, b: ShardManagerView) -> bool {
    &&& a.sectors.len() == b.sectors.len()
    &&& forall|i: int|
        0 <= i < a.sectors.len() ==> (#[trigger] a.sectors[i]).0 == b.sectors[i].0 && a.sectors[i].1
            == b.sectors[i].1
    &&& a.shard_count == b.shard_count
    &&& a.background_shard_id == b.background_shard_id
}

proof fn lemma_move_keeps_keys(v: ShardManagerView, x: i32, z: i32, to: u32, reason: RebalanceReason, tick: u64)
    ensures
        same_sector_keys(v, spec_move_sector(v, x, z, to, reason, tick).0),
        spec_move_sector(v, x, z, to, reason, tick).1 matches Ok(a) ==> a.to_shard == to && a.reason
            == reason && a.sector_x == x && a.sector_z == z,
{
    lemma_first_index(v.sectors, is_sector(x, z));
}

/// Wilderness merging registers or drops no sector, and every action it reports moves a
/// sector into the background shard.
pub proof fn lemma_merge_all_moves_to_background(v: ShardManagerView, keys: Seq<(i32, i32)>, tick: u64)
    ensures
        same_sector_keys(v, merge_all(v, keys, tick).0),
        forall|i: int|
            0 <= i < merge_all(v, keys, tick).1.len() ==> (#[trigger] merge_all(v, keys, tick).1[i]).to_shard
                == v.background_shard_id && merge_all(v, keys, tick).1[i].reason
                == RebalanceReason::WildernessMerge && merge_all(v, keys, tick).1[i].from_shard
                != v.background_shard_id,
    decreases keys.len(),
{
    if keys.len() > 0 {
        lemma_merge_all_moves_to_background(v, keys.drop_last(), tick);
        let (v1, acts) = merge_all(v, keys.drop_last(), tick);
        lemma_move_keeps_keys(v1, keys.last().0, keys.last().1, v1.background_shard_id, RebalanceReason::WildernessMerge, tick);
    }
}

/// Hotspot contraction registers or drops no sector, and every action it reports moves a
/// sector onto an active shard other than the background shard.
pub proof fn lemma_contract_all_moves_off_background(v: ShardManagerView, keys: Seq<(i32, i32)>, tick: u64)
    requires
        v.shard_count <= v.shards.len(),
        forall|i: int| 0 <= i < v.shard_count ==> (#[trigger] v.shards[i]).shard_id == i,
    ensures
        same_sector_keys(v, contract_all(v, keys, tick).0),
        contract_all(v, keys, tick).0.shards.len() == v.shards.len(),
        forall|i: int| 0 <= i < v.shard_count ==> (#[trigger] contract_all(v, keys, tick).0.shards[i]).shard_id == i,
        forall|i: int|
            0 <= i < contract_all(v, keys, tick).1.len() ==> (#[trigger] contract_all(v, keys, tick).1[i]).to_shard
                != v.background_shard_id && (contract_all(v, keys, tick).1[i].to_shard as nat) < v.shard_count
                && contract_all(v, keys, tick).1[i].reason == RebalanceReason::HotspotContraction,
    decreases keys.len(),
{
    if keys.len() > 0 {
        lemma_contract_all_moves_off_background(v, keys.drop_last(), tick);
        let (v1, acts) = contract_all(v, keys.drop_last(), tick);
        lemma_best_shard(v1.shards, v1.shard_count, v1.background_shard_id);
        match best_shard_upto(v1.shards, v1.shard_count, v1.background_shard_id).0 {
            None => {},
            Some(t) => {
                lemma_move_keeps_keys(v1, keys.last().0, keys.last().1, t, RebalanceReason::HotspotContraction, tick);
                lemma_first_index(v1.sectors, is_sector(keys.last().0, keys.last().1));
                let v2 = spec_contract(v1, keys.last().0, keys.last().1, t, tick).0;
                assert forall|i: int| 0 <= i < v.shard_count implies (#[trigger] v2.shards[i]).shard_id == i by {
                    assert(v1.shards[i].shard_id == i);
                }
            },
        }
    }
}

/// Number of registered sectors on shard `s`.
pub open spec fn sectors_on(sectors: Seq<(i32, i32, SectorMetadata)>, s: int) -> nat
    decreases sectors.len(),
{
    if sectors.len() == 0 {
        0
    } else {
        sectors_on(sectors.drop_last(), s) + (if sectors.last().2.shard_id == s {
            1nat
        } else {
            0nat
        })
    }
}

/// Every active shard's sector counter equals the number of sectors registered on it.
#[verifier::opaque]
pub open spec fn sector_counts_exact(v: ShardManagerView) -> bool {
    forall|i: int|
        0 <= i < v.shard_count ==> (#[trigger] v.shards[i]).active_sectors == sectors_on(v.sectors, i)
}

/// Sum of the sector counters of the first `n` shards.
pub open spec fn active_sector_total(shards: Seq<ShardMetrics>, n: nat) -> nat
    decreases n,
{
    if n == 0 {
        0
    } else {
        active_sector_total(shards, (n - 1) as nat) + shards[n - 1].active_sectors as nat
    }
}

/// Sum over the first `n` shards of the sectors registered on each.
spec fn sectors_on_total(sectors: Seq<(i32, i32, SectorMetadata)>, n: nat) -> nat
    decreases n,
{
    if n == 0 {
        0
    } else {
        sectors_on_total(sectors, (n - 1) as nat) + sectors_on(sectors, n - 1)
    }
}

proof fn lemma_sectors_on_update(
    sectors: Seq<(i32, i32, SectorMetadata)>,
    k: int,
    e: (i32, i32, SectorMetadata),
    s: int,
)
    requires
        0 <= k < sectors.len(),
    ensures
        sectors_on(sectors.update(k, e), s) == sectors_on(sectors, s) - (if sectors[k].2.shard_id == s {
            1int
        } else {
            0int
        }) + (if e.2.shard_id == s {
            1int
        } else {
            0int
        }),
    decreases sectors.len(),
{
    let u = sectors.update(k, e);
    if k == sectors.len() - 1 {
        assert(u.drop_last() =~= sectors.drop_last());
    } else {
        assert(u.drop_last() =~= sectors.drop_last().update(k, e));
        lemma_sectors_on_update(sectors.drop_last(), k, e, s);
    }
}

proof fn lemma_sectors_on_positive(sectors: Seq<(i32, i32, SectorMetadata)>, k: int)
    requires
        0 <= k < sectors.len(),
    ensures
        sectors_on(sectors, sectors[k].2.shard_id as int) >= 1,
    decreases sectors.len(),
{
    if k < sectors.len() - 1 {
        lemma_sectors_on_positive(sectors.drop_last(), k);
        assert(sectors.drop_last()[k] == sectors[k]);
    }
}

proof fn lemma_sectors_on_push(sectors: Seq<(i32, i32, SectorMetadata)>, e: (i32, i32, SectorMetadata), s: int)
    ensures
        sectors_on(sectors.push(e), s) == sectors_on(sectors, s) + (if e.2.shard_id == s {
            1nat
        } else {
            0nat
        }),
{
    assert(sectors.push(e).drop_last() =~= sectors);
}

proof fn lemma_total_push(sectors: Seq<(i32, i32, SectorMetadata)>, e: (i32, i32, SectorMetadata), n: nat)
    ensures
        sectors_on_total(sectors.push(e), n) == sectors_on_total(sectors, n) + (if (e.2.shard_id as nat)
            < n {
            1nat
        } else {
            0nat
        }),
    decreases n,
{
    if n > 0 {
        lemma_total_push(sectors, e, (n - 1) as nat);
        lemma_sectors_on_push(sectors, e, n - 1);
    }
}

proof fn lemma_total_counts_all(sectors: Seq<(i32, i32, SectorMetadata)>, n: nat)
    requires
        forall|i: int| 0 <= i < sectors.len() ==> ((#[trigger] sectors[i]).2.shard_id as nat) < n,
    ensures
        sectors_on_total(sectors, n) == sectors.len(),
    decreases sectors.len(),
{
    if sectors.len() == 0 {
        assert(sectors_on_total(sectors, n) == 0) by {
            lemma_total_empty(sectors, n);
        }
    } else {
        let init = sectors.drop_last();
        assert forall|i: int| 0 <= i < init.len() implies ((#[trigger] init[i]).2.shard_id as nat) < n by {
            assert(init[i] == sectors[i]);
        }
        lemma_total_counts_all(init, n);
        assert(init.push(sectors.last()) =~= sectors);
        lemma_total_push(init, sectors.last(), n);
    }
}

proof fn lemma_total_empty(sectors: Seq<(i32, i32, SectorMetadata)>, n: nat)
    requires
        sectors.len() == 0,
    ensures
        sectors_on_total(sectors, n) == 0,
    decreases n,
{
    if n > 0 {
        lemma_total_empty(sectors, (n - 1) as nat);
    }
}

proof fn lemma_active_total_matches(v: ShardManagerView, n: nat)
    requires
        sector_counts_exact(v),
        n <= v.shard_count,
    ensures
        active_sector_total(v.shards, n) == sectors_on_total(v.sectors, n),
    decreases n,
{
    reveal(sector_counts_exact);
    if n > 0 {
        lemma_active_total_matches(v, (n - 1) as nat);
        assert(v.shards[n - 1].active_sectors == sectors_on(v.sectors, n - 1));
    }
}

/// In every well-formed manager state (so after any sequence of operations from `new`) with
/// fewer than `u32::MAX` registered sectors, the registered sectors number exactly the sum of the
/// active shards' sector counters, and each counter counts the sectors on its shard.
pub proof fn lemma_registered_sectors_total(v: ShardManagerView)
    requires
        shard_view_wf(v),
        v.sectors.len() < u32::MAX,
    ensures
        active_sector_total(v.shards, v.shard_count) == v.sectors.len(),
        forall|i: int| 0 <= i < v.shard_count ==> (#[trigger] v.shards[i]).active_sectors == sectors_on(v.sectors, i),
{
    reveal(sector_counts_exact);
    lemma_active_total_matches(v, v.shard_count);
    lemma_total_counts_all(v.sectors, v.shard_count);
}

/// A manager with no sector and zeroed counters has exact counters (the state `new` gives).
pub proof fn lemma_fresh_counts_exact(v: ShardManagerView)
    requires
        v.sectors.len() == 0,
        forall|i: int| 0 <= i < v.shard_count ==> (#[trigger] v.shards[i]).active_sectors == 0,
    ensures
        sector_counts_exact(v),
{
    reveal(sector_counts_exact);
}

proof fn lemma_sectors_on_same_ids(a: Seq<(i32, i32, SectorMetadata)>, b: Seq<(i32, i32, SectorMetadata)>, s: int)
    requires
        a.len() == b.len(),
        forall|j: int| 0 <= j < a.len() ==> (#[trigger] a[j]).2.shard_id == b[j].2.shard_id,
    ensures
        sectors_on(a, s) == sectors_on(b, s),
    decreases a.len(),
{
    if a.len() > 0 {
        assert forall|j: int| 0 <= j < a.drop_last().len() implies (#[trigger] a.drop_last()[j]).2.shard_id
            == b.drop_last()[j].2.shard_id by {
            assert(a.drop_last()[j] == a[j]);
            assert(b.drop_last()[j] == b[j]);
        }
        lemma_sectors_on_same_ids(a.drop_last(), b.drop_last(), s);
    }
}

/// Counters stay exact when no sector changes shard and no counter changes.
proof fn lemma_counts_kept(o: ShardManagerView, v: ShardManagerView)
    requires
        sector_counts_exact(o),
        v.shard_count == o.shard_count,
        v.sectors.len() == o.sectors.len(),
        forall|j: int| 0 <= j < o.sectors.len() ==> (#[trigger] v.sectors[j]).2.shard_id == o.sectors[j].2.shard_id,
        forall|i: int| 0 <= i < o.shard_count ==> (#[trigger] v.shards[i]).active_sectors == o.shards[i].active_sectors,
    ensures
        sector_counts_exact(v),
{
    reveal(sector_counts_exact);
    assert forall|i: int| 0 <= i < v.shard_count implies (#[trigger] v.shards[i]).active_sectors == sectors_on(v.sectors, i) by {
        lemma_sectors_on_same_ids(v.sectors, o.sectors, i);
        assert(o.shards[i].active_sectors == sectors_on(o.sectors, i));
    }
}

proof fn lemma_sectors_on_bound(sectors: Seq<(i32, i32, SectorMetadata)>, s: int)
    ensures
        sectors_on(sectors, s) <= sectors.len(),
    decreases sectors.len(),
{
    if sectors.len() > 0 {
        lemma_sectors_on_bound(sectors.drop_last(), s);
    }
}

/// Moving a registered sector to an active shard keeps the counters exact, unless the
/// receiving shard's counter is already saturated.
pub proof fn lemma_reassign_keeps_counts(v: ShardManagerView, k: int, to: u32, tick: Option<u64>)
    requires
        shard_view_wf(v),
        sector_counts_exact(v),
        0 <= k < v.sectors.len(),
        (to as nat) < v.shard_count,
        v.sectors[k].2.shard_id == to || v.shards[to as int].active_sectors < u32::MAX,
    ensures
        sector_counts_exact(reassign(v, k, to, tick)),
{
    reveal(sector_counts_exact);
    let w = reassign(v, k, to, tick);
    let from = v.sectors[k].2.shard_id as int;
    assert forall|i: int| 0 <= i < w.shard_count implies (#[trigger] w.shards[i]).active_sectors
        == sectors_on(w.sectors, i) by {
        lemma_sectors_on_update(v.sectors, k, w.sectors[k], i);
        assert(w.sectors == v.sectors.update(k, w.sectors[k]));
        lemma_sectors_on_update(v.sectors, k, w.sectors[k], from);
        assert(v.shards[i].active_sectors == sectors_on(v.sectors, i));
        assert(v.shards[from].active_sectors == sectors_on(v.sectors, from));
        lemma_sectors_on_positive(v.sectors, k);
        let d = detach(v.shards, from, v.sectors[k].2.entity_count);
        if i == from {
            assert(d[i].active_sectors == v.shards[i].active_sectors - 1);
        } else {
            assert(d[i] == v.shards[i]);
        }
        if i == to as int {
            assert(w.shards[i].active_sectors == d[i].active_sectors + 1);
        } else {
            assert(w.shards[i] == d[i]);
        }
    }
}

/// Registering a new sector on an active shard keeps the counters exact, unless that
/// shard's counter is already saturated.
pub proof fn lemma_register_keeps_counts(v: ShardManagerView, x: i32, z: i32, shard_id: u32)
    requires
        shard_view_wf(v),
        sector_counts_exact(v),
        (shard_id as nat) < v.shard_count,
        v.shards[shard_id as int].active_sectors < u32::MAX,
    ensures
        sector_counts_exact(
            ShardManagerView {
                shards: attach(v.shards, shard_id as int, 0),
                sectors: v.sectors.push(
                    (x, z, SectorMetadata { shard_id, entity_count: 0, last_rebalanced_tick: 0 }),
                ),
                ..v
            },
        ),
{
    reveal(sector_counts_exact);
    let e = (x, z, SectorMetadata { shard_id, entity_count: 0, last_rebalanced_tick: 0 });
    assert forall|i: int| 0 <= i < v.shard_count implies (#[trigger] attach(
        v.shards,
        shard_id as int,
        0,
    )[i]).active_sectors == sectors_on(v.sectors.push(e), i) by {
        lemma_sectors_on_push(v.sectors, e, i);
        assert(v.shards[i].active_sectors == sectors_on(v.sectors, i));
        if i == shard_id as int {
            assert(attach(v.shards, shard_id as int, 0)[i].active_sectors == v.shards[i].active_sectors + 1);
        } else {
            assert(attach(v.shards, shard_id as int, 0)[i] == v.shards[i]);
        }
    }
}

spec fn final_is(
    a0: Seq<ShardRebalanceAction>,
    a: Seq<ShardRebalanceAction>,
    b: Seq<ShardRebalanceAction>,
    out: Seq<ShardRebalanceAction>,
) -> bool {
    out == a0 + a + b
}

} // verus!
