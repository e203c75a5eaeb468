//! Observer interest relations and adaptive load shedding of replication.
use vstd::prelude::*;

use crate::slots::{first_index, lemma_first_index, lemma_first_index_is, lemma_first_index_none};
use crate::tier::{FIXED_ONE, FrequencyTier};

verus! {

/// Configurable weights for continuous priority relevance scoring.
#[derive(Debug, Clone, Copy, PartialEq, Eq, Structural)]
pub struct RelevanceWeights {
    /// Bonus points for being in the same party.
    pub party_bonus: u32,
    /// Bonus points for being the observer's active combat target.
    pub target_bonus: u32,
    /// Bonus points for being an aggressive or attacking threat.
    pub threat_bonus: u32,
    /// Bonus points for sharing guild or faction affiliation.
    pub guild_bonus: u32,
}

impl RelevanceWeights {
    /// The standard weights: target 2,000,000, party 1,000,000, threat 500,000, guild 100,000.
    pub fn default_weights() -> (w: Self)
        ensures
            w == (RelevanceWeights {
                party_bonus: 1_000_000,
                target_bonus: 2_000_000,
                threat_bonus: 500_000,
                guild_bonus: 100_000,
            }),
    {
        RelevanceWeights {
            party_bonus: 1_000_000,
            target_bonus: 2_000_000,
            threat_bonus: 500_000,
            guild_bonus: 100_000,
        }
    }
}

/// Context relation flags for an entity relative to an observer.
#[derive(Debug, Clone, Copy, PartialEq, Eq, Default, Structural)]
pub struct EntityRelation {
    /// True if the entity is in the observer's party.
    pub is_party: bool,
    /// True if the entity is the observer's targeted focus.
    pub is_target: bool,
    /// True if the entity is attacking or hostile to the observer.
    pub is_threat: bool,
    /// True if the entity belongs to the observer's guild or faction.
    pub is_guild: bool,
}

/// Relevance score of an entity at `dist_sq_m2` whole square metres from the observer:
/// the inverse-square falloff `100_000_000 / (1 + d)` (negative distances count as 0) plus the
/// bonus of each relation that holds.
pub open spec fn spec_relevance_score(dist_sq_m2: i32, relation: EntityRelation, weights: RelevanceWeights) -> int {
    let d: int = if dist_sq_m2 < 0 {
        0
    } else {
        dist_sq_m2 as int
    };
    100_000_000int / (1 + d) + (if relation.is_target {
        weights.target_bonus as int
    } else {
        0
    }) + (if relation.is_party {
        weights.party_bonus as int
    } else {
        0
    }) + (if relation.is_threat {
        weights.threat_bonus as int
    } else {
        0
    }) + (if relation.is_guild {
        weights.guild_bonus as int
    } else {
        0
    })
}

/// Continuous priority score of an entity for an observer, from its squared distance in whole
/// square metres and its relation to the observer. Higher scores mean higher priority.
pub fn calculate_relevance_score(
    dist_sq_m2: i32,
    relation: EntityRelation,
    weights: &RelevanceWeights,
) -> (score: u64)
    ensures
        score == spec_relevance_score(dist_sq_m2, relation, *weights),
{
    let d: u64 = if dist_sq_m2 < 0 {
        0
    } else {
        dist_sq_m2 as u64
    };
    let dist_score: u64 = 100_000_000 / (1 + d);
    assert(dist_score <= 100_000_000) by (nonlinear_arith)
        requires
            dist_score == 100_000_000int / (1 + d),
            d >= 0,
    ;
    let mut score = dist_score;
    if relation.is_target {
        score = score + weights.target_bonus as u64;
    }
    if relation.is_party {
        score = score + weights.party_bonus as u64;
    }
    if relation.is_threat {
        score = score + weights.threat_bonus as u64;
    }
    if relation.is_guild {
        score = score + weights.guild_bonus as u64;
    }
    score
}

/// A closer entity never scores lower than a farther one with the same relation.
pub proof fn lemma_closer_scores_higher(
    near: i32,
    far: i32,
    relation: EntityRelation,
    weights: RelevanceWeights,
)
    requires
        near <= far,
    ensures
        spec_relevance_score(near, relation, weights) >= spec_relevance_score(far, relation, weights),
{
    let dn: int = if near < 0 { 0 } else { near as int };
    let df: int = if far < 0 { 0 } else { far as int };
    assert(100_000_000int / (1 + dn) >= 100_000_000int / (1 + df)) by (nonlinear_arith)
        requires
            0 <= dn <= df,
    {
        vstd::arithmetic::div_mod::lemma_div_is_ordered_by_denominator(100_000_000, 1 + dn, 1 + df);
    }
}

/// Dynamic degradation levels triggered during CPU tick overrun shedding.
#[derive(Debug, Clone, Copy, PartialEq, Eq, PartialOrd, Ord, Structural)]
pub enum LoadSheddingLevel {
    /// Normal operation: full replication rates across all tiers.
    Nominal,
    /// Level 1: throttles the mid tier and suppresses horizon updates.
    Level1,
    /// Level 2: protects only the immediate combat tier.
    Level2,
}

/// Replication decision for `tier` at `tick_index` under load shedding `level`.
pub open spec fn spec_should_replicate(
    level: LoadSheddingLevel,
    tier: FrequencyTier,
    tick_index: u64,
    is_state_changed: bool,
) -> bool {
    match level {
        LoadSheddingLevel::Nominal => tier.spec_should_dispatch(tick_index, is_state_changed),
        LoadSheddingLevel::Level1 => match tier {
            FrequencyTier::Immediate => tick_index % 2 == 0,
            FrequencyTier::Mid => tick_index % 20 == 0,
            FrequencyTier::Horizon => false,
        },
        LoadSheddingLevel::Level2 => match tier {
            FrequencyTier::Immediate => tick_index % 2 == 0,
            _ => false,
        },
    }
}

/// Dynamic Area of Interest update scheduler and load-shedding regulator.
#[derive(Debug, Clone, Copy)]
pub struct AoIScheduler {
    load_shedding: LoadSheddingLevel,
}

impl AoIScheduler {
    /// The active load shedding level.
    pub closed spec fn spec_level(self) -> LoadSheddingLevel {
        self.load_shedding
    }

    /// Constructs a scheduler operating under normal load.
    pub fn new() -> (s: Self)
        ensures
            s.spec_level() == LoadSheddingLevel::Nominal,
    {
        AoIScheduler { load_shedding: LoadSheddingLevel::Nominal }
    }

    /// Sets the active load shedding degradation level.
    pub fn set_load_shedding(&mut self, level: LoadSheddingLevel)
        ensures
            final(self).spec_level() == level,
    {
        self.load_shedding = level;
    }

    /// Returns the active load shedding level.
    pub fn load_shedding(self) -> (l: LoadSheddingLevel)
        ensures
            l == self.spec_level(),
    {
        self.load_shedding
    }

    /// Whether an entity in `tier` is dispatched at `tick_index` under the active shedding level.
    pub fn should_replicate(self, tier: FrequencyTier, tick_index: u64, is_state_changed: bool) -> (r:
        bool)
        ensures
            r == spec_should_replicate(self.spec_level(), tier, tick_index, is_state_changed),
    {
        match self.load_shedding {
            LoadSheddingLevel::Nominal => tier.should_dispatch(tick_index, is_state_changed),
            LoadSheddingLevel::Level1 => match tier {
                FrequencyTier::Immediate => tick_index % 2 == 0,
                FrequencyTier::Mid => tick_index % 20 == 0,
                FrequencyTier::Horizon => false,
            },
            LoadSheddingLevel::Level2 => match tier {
                FrequencyTier::Immediate => tick_index % 2 == 0,
                _ => false,
            },
        }
    }
}

/// Shedding only removes work: whatever a higher shedding level replicates (without a state
/// change), every lower level replicates too, and the immediate tier keeps its 10 Hz cadence at every level.
pub proof fn lemma_shedding_is_monotone(tier: FrequencyTier, tick_index: u64)
    ensures
        spec_should_replicate(LoadSheddingLevel::Level2, tier, tick_index, false)
            ==> spec_should_replicate(LoadSheddingLevel::Level1, tier, tick_index, false),
        spec_should_replicate(LoadSheddingLevel::Level1, tier, tick_index, false)
            ==> spec_should_replicate(LoadSheddingLevel::Nominal, tier, tick_index, false),
        spec_should_replicate(LoadSheddingLevel::Level2, FrequencyTier::Immediate, tick_index, false)
            == spec_should_replicate(LoadSheddingLevel::Nominal, FrequencyTier::Immediate, tick_index, false),
{
    if tier is Mid && tick_index % 20 == 0 {
        assert(tick_index % 10 == 0) by (nonlinear_arith)
            requires tick_index % 20 == 0;
    }
}

/// Represents an entity visibility transition event relative to an observer.
#[derive(Debug, Clone, Copy, PartialEq, Eq, Structural)]
pub enum VisibilityEvent {
    /// Entity newly entered the observer's visible horizon.
    Enter {
        /// Entity identifier.
        entity_id: u32,
        /// Initial assigned frequency tier.
        tier: FrequencyTier,
    },
    /// Entity frequency tier changed due to relative movement.
    TierChange {
        /// Entity identifier.
        entity_id: u32,
        /// Newly assigned frequency tier.
        tier: FrequencyTier,
    },
    /// Entity exited the observer's visible horizon.
    Exit {
        /// Entity identifier.
        entity_id: u32,
    },
}


/// Maximum observable squared radius of the standard Area of Interest (50 m squared).
pub const MAX_AOI_RADIUS_SQ: i64 = 2500 * FIXED_ONE;

/// Number of leading entries of `ids` below `id`: where `id` stands, or would be inserted,
/// in an ascending list.
pub open spec fn lower_bound(ids: Seq<u32>, id: u32) -> nat
    decreases ids.len(),
{
    if ids.len() == 0 || ids[0] >= id {
        0
    } else {
        1 + lower_bound(ids.drop_first(), id)
    }
}

/// Strictly ascending: every entity is listed once, in id order.
pub open spec fn strictly_ascending(ids: Seq<u32>) -> bool {
    forall|i: int, j: int| 0 <= i < j < ids.len() ==> ids[i] < ids[j]
}

/// The tier that `id` has in the listing `ids`/`tiers`, if it is listed.
pub open spec fn listed_tier(ids: Seq<u32>, tiers: Seq<FrequencyTier>, id: u32) -> Option<
    FrequencyTier,
> {
    let p = lower_bound(ids, id) as int;
    if p < ids.len() && ids[p] == id {
        Some(tiers[p])
    } else {
        None
    }
}

/// The listing after `id` is seen at tier `tier`: an entity already listed takes the new
/// tier; a new one is inserted in id order while fewer than `cap` are listed, and otherwise dropped.
pub open spec fn upsert_visible(
    ids: Seq<u32>,
    tiers: Seq<FrequencyTier>,
    id: u32,
    tier: FrequencyTier,
    cap: nat,
) -> (Seq<u32>, Seq<FrequencyTier>) {
    let p = lower_bound(ids, id) as int;
    if p < ids.len() && ids[p] == id {
        (ids, tiers.update(p, tier))
    } else if ids.len() < cap {
        (ids.insert(p, id), tiers.insert(p, tier))
    } else {
        (ids, tiers)
    }
}

/// The tier a candidate at squared distance `dist_sq` gets: hysteresis from its previous tier
/// where it was visible before, the initial classification otherwise.
pub open spec fn candidate_tier(previous: Option<FrequencyTier>, dist_sq: i64) -> FrequencyTier {
    match previous {
        Some(t) => t.spec_update_with_hysteresis(dist_sq),
        None => FrequencyTier::spec_classify_initial(dist_sq),
    }
}

/// The event a candidate within range produces, if any: it enters when it was not visible
/// before, and changes tier when its tier moved.
pub open spec fn candidate_events(previous: Option<FrequencyTier>, id: u32, tier: FrequencyTier) -> Seq<
    VisibilityEvent,
> {
    match previous {
        None => seq![VisibilityEvent::Enter { entity_id: id, tier }],
        Some(t) => if t != tier {
            seq![VisibilityEvent::TierChange { entity_id: id, tier }]
        } else {
            Seq::empty()
        },
    }
}

/// Listing and events after the candidates `cands` (entity, squared distance) are taken in
/// order against the previous listing `prev_ids`/`prev_tiers`; candidates beyond `max_r` are skipped.
pub open spec fn visible_after(
    prev_ids: Seq<u32>,
    prev_tiers: Seq<FrequencyTier>,
    cap: nat,
    max_r: i64,
    cands: Seq<(u32, i64)>,
) -> (Seq<u32>, Seq<FrequencyTier>, Seq<VisibilityEvent>)
    decreases cands.len(),
{
    if cands.len() == 0 {
        (Seq::empty(), Seq::empty(), Seq::empty())
    } else {
        let (ids, tiers, events) = visible_after(prev_ids, prev_tiers, cap, max_r, cands.drop_last());
        let (id, d) = cands.last();
        if d > max_r {
            (ids, tiers, events)
        } else {
            let previous = listed_tier(prev_ids, prev_tiers, id);
            let tier = candidate_tier(previous, d);
            let (ids2, tiers2) = upsert_visible(ids, tiers, id, tier, cap);
            (ids2, tiers2, events + candidate_events(previous, id, tier))
        }
    }
}

/// Exit events, in the order of `prev`, for the entities of `prev` missing from `curr`.
pub open spec fn exit_events(prev: Seq<u32>, curr: Seq<u32>) -> Seq<VisibilityEvent>
    decreases prev.len(),
{
    if prev.len() == 0 {
        Seq::empty()
    } else {
        let rest = exit_events(prev.drop_last(), curr);
        if curr.contains(prev.last()) {
            rest
        } else {
            rest.push(VisibilityEvent::Exit { entity_id: prev.last() })
        }
    }
}

/// What a bounded output buffer `out` holds after the events `all` are written from its start:
/// as many as fit, the rest of the buffer untouched.
pub open spec fn written_events(all: Seq<VisibilityEvent>, out: Seq<VisibilityEvent>) -> Seq<
    VisibilityEvent,
> {
    let n = if all.len() < out.len() {
        all.len()
    } else {
        out.len()
    };
    all.take(n as int) + out.skip(n as int)
}

/// `lower_bound` is the first position whose entry is not below `id`.
pub proof fn lemma_lower_bound_at(ids: Seq<u32>, id: u32, i: int)
    requires
        0 <= i <= ids.len(),
        forall|j: int| 0 <= j < i ==> ids[j] < id,
        i < ids.len() ==> ids[i] >= id,
    ensures
        lower_bound(ids, id) == i,
    decreases i,
{
    if i > 0 {
        lemma_lower_bound_at(ids.drop_first(), id, i - 1);
    }
}

/// The entries before `lower_bound` are below `id`, and the one at it (if any) is not.
proof fn lemma_lower_bound_props(ids: Seq<u32>, id: u32)
    ensures
        lower_bound(ids, id) <= ids.len(),
        forall|j: int| 0 <= j < lower_bound(ids, id) ==> ids[j] < id,
        lower_bound(ids, id) < ids.len() ==> ids[lower_bound(ids, id) as int] >= id,
    decreases ids.len(),
{
    if ids.len() > 0 && ids[0] < id {
        lemma_lower_bound_props(ids.drop_first(), id);
        assert forall|j: int| 0 <= j < lower_bound(ids, id) implies ids[j] < id by {
            if j > 0 {
                assert(ids[j] == ids.drop_first()[j - 1]);
            }
        }
    }
}

/// In a strictly ascending listing, `id` is listed exactly where `lower_bound` points.
proof fn lemma_listed_iff(ids: Seq<u32>, id: u32)
    requires
        strictly_ascending(ids),
    ensures
        ids.contains(id) <==> (lower_bound(ids, id) < ids.len() && ids[lower_bound(ids, id) as int]
            == id),
{
    lemma_lower_bound_props(ids, id);
    let p = lower_bound(ids, id) as int;
    if ids.contains(id) {
        let j = choose|j: int| 0 <= j < ids.len() && ids[j] == id;
        if j != p {
            assert(j >= p);
            assert(ids[p] < ids[j]);
        }
    }
    if p < ids.len() && ids[p] == id {
        assert(ids[p] == id);
    }
}

/// Seeing an entity keeps the listing strictly ascending, parallel to its tiers, and within `cap`.
proof fn lemma_upsert_keeps_order(
    ids: Seq<u32>,
    tiers: Seq<FrequencyTier>,
    id: u32,
    tier: FrequencyTier,
    cap: nat,
)
    requires
        strictly_ascending(ids),
        ids.len() == tiers.len(),
        ids.len() <= cap,
    ensures
        strictly_ascending(upsert_visible(ids, tiers, id, tier, cap).0),
        upsert_visible(ids, tiers, id, tier, cap).0.len() == upsert_visible(
            ids,
            tiers,
            id,
            tier,
            cap,
        ).1.len(),
        upsert_visible(ids, tiers, id, tier, cap).0.len() <= cap,
{
    lemma_lower_bound_props(ids, id);
    let p = lower_bound(ids, id) as int;
    if !(p < ids.len() && ids[p] == id) && ids.len() < cap {
        let n = ids.insert(p, id);
        assert forall|i: int, j: int| 0 <= i < j < n.len() implies n[i] < n[j] by {
            if j < p {
            } else if j == p {
                assert(ids[i] < id);
            } else if i < p {
                assert(ids[i] < id);
                assert(ids[p] >= id);
                assert(ids[p] <= ids[j - 1]);
            } else if i == p {
                assert(ids[p] > id);
                assert(ids[p] <= ids[j - 1]);
            } else {
            }
        }
    }
}

/// The entities visible to one observer, with their replication tiers, kept in ascending id
/// order so that visibility diffs (enters, exits, tier changes) are found by one sweep.
pub struct ObserverInterestSet {
    max_tracked: usize,
    max_radius_sq: i64,
    relevance_weights: RelevanceWeights,
    entity_ids: Vec<u32>,
    tiers: Vec<FrequencyTier>,
}

impl ObserverInterestSet {
    /// Visible entity ids, ascending.
    pub closed spec fn spec_ids(&self) -> Seq<u32> {
        self.entity_ids@
    }

    /// Tier of each visible entity, parallel to `spec_ids`.
    pub closed spec fn spec_tiers(&self) -> Seq<FrequencyTier> {
        self.tiers@
    }

    /// Most entities tracked at once.
    pub closed spec fn spec_cap(&self) -> nat {
        self.max_tracked as nat
    }

    /// Largest squared distance (raw fixed point) at which an entity is visible.
    pub closed spec fn spec_max_radius_sq(&self) -> i64 {
        self.max_radius_sq
    }

    /// Weights of relevance scoring.
    pub closed spec fn spec_weights(&self) -> RelevanceWeights {
        self.relevance_weights
    }

    /// The listing is strictly ascending, parallel to its tiers, and within capacity.
    pub closed spec fn wf(&self) -> bool {
        &&& strictly_ascending(self.entity_ids@)
        &&& self.entity_ids@.len() == self.tiers@.len()
        &&& self.entity_ids@.len() <= self.max_tracked
        &&& self.max_tracked <= usize::MAX / 8
    }

    /// An empty interest set tracking at most `max_tracked` entities within the standard
    /// 50 m radius, with the default relevance weights. (Buffers for more entities than the
    /// bound below could not be allocated.)
    pub fn with_capacity(max_tracked: usize) -> (s: Self)
        requires
            max_tracked <= usize::MAX / 8,
        ensures
            s.wf(),
            s.spec_ids() == Seq::<u32>::empty(),
            s.spec_tiers() == Seq::<FrequencyTier>::empty(),
            s.spec_cap() == max_tracked,
            s.spec_max_radius_sq() == MAX_AOI_RADIUS_SQ,
            s.spec_weights() == (RelevanceWeights {
                party_bonus: 1_000_000,
                target_bonus: 2_000_000,
                threat_bonus: 500_000,
                guild_bonus: 100_000,
            }),
    {
        ObserverInterestSet {
            max_tracked,
            max_radius_sq: MAX_AOI_RADIUS_SQ,
            relevance_weights: RelevanceWeights::default_weights(),
            entity_ids: Vec::new(),
            tiers: Vec::new(),
        }
    }

    /// Sets the largest visible squared distance (raw fixed point).
    pub fn set_max_radius_sq(&mut self, max_radius_sq: i64)
        ensures
            final(self).spec_max_radius_sq() == max_radius_sq,
            final(self).spec_ids() == old(self).spec_ids(),
            final(self).spec_tiers() == old(self).spec_tiers(),
            final(self).spec_cap() == old(self).spec_cap(),
            final(self).spec_weights() == old(self).spec_weights(),
            final(self).wf() == old(self).wf(),
    {
        self.max_radius_sq = max_radius_sq;
    }

    /// The largest visible squared distance (raw fixed point).
    pub fn max_radius_sq(&self) -> (r: i64)
        ensures
            r == self.spec_max_radius_sq(),
    {
        self.max_radius_sq
    }

    /// Sets the relevance scoring weights.
    pub fn set_relevance_weights(&mut self, weights: RelevanceWeights)
        ensures
            final(self).spec_weights() == weights,
            final(self).spec_max_radius_sq() == old(self).spec_max_radius_sq(),
            final(self).spec_ids() == old(self).spec_ids(),
            final(self).spec_tiers() == old(self).spec_tiers(),
            final(self).spec_cap() == old(self).spec_cap(),
            final(self).wf() == old(self).wf(),
    {
        self.relevance_weights = weights;
    }

    /// The relevance scoring weights.
    pub fn relevance_weights(&self) -> (w: &RelevanceWeights)
        ensures
            *w == self.spec_weights(),
    {
        &self.relevance_weights
    }

    /// Number of visible entities.
    pub fn len(&self) -> (n: usize)
        ensures
            n == self.spec_ids().len(),
    {
        self.entity_ids.len()
    }

    /// Whether no entity is visible.
    pub fn is_empty(&self) -> (b: bool)
        ensures
            b <==> self.spec_ids().len() == 0,
    {
        self.entity_ids.len() == 0
    }

    /// The visible entity ids, ascending.
    pub fn visible_entities(&self) -> (ids: &[u32])
        ensures
            ids@ == self.spec_ids(),
    {
        self.entity_ids.as_slice()
    }

    /// The tiers of the visible entities, parallel to `visible_entities`.
    pub fn visible_tiers(&self) -> (tiers: &[FrequencyTier])
        ensures
            tiers@ == self.spec_tiers(),
    {
        self.tiers.as_slice()
    }

    /// Whether `entity_id` is visible.
    pub fn contains(&self, entity_id: u32) -> (b: bool)
        requires
            self.wf(),
        ensures
            b <==> self.spec_ids().contains(entity_id),
    {
        let p = lower_bound_of(&self.entity_ids, entity_id);
        proof {
            lemma_listed_iff(self.entity_ids@, entity_id);
        }
        p < self.entity_ids.len() && self.entity_ids[p] == entity_id
    }

    /// Updates the visible set by priority ranking: candidates within the radius (at most
    /// `scratch_limit` of them) are scored by `calculate_relevance_score` from their distance and
    /// `relations` (one per candidate); when more than the capacity remain, only the best ranked
    /// are kept. The kept candidates are then taken in id order as by `update_visibility`.
    pub fn update_visibility_ranked(
        &mut self,
        candidates: &[(u32, i64)],
        relations: &[EntityRelation],
        event_output: &mut [VisibilityEvent],
    ) -> (r: usize)
        requires
            old(self).wf(),
            relations@.len() == candidates@.len(),
        ensures
            final(self).wf(),
            final(self).spec_cap() == old(self).spec_cap(),
            final(self).spec_max_radius_sq() == old(self).spec_max_radius_sq(),
            final(self).spec_weights() == old(self).spec_weights(),
            ({
                let selected = ranked_selection(
                    candidates@,
                    relations@,
                    old(self).spec_weights(),
                    old(self).spec_max_radius_sq(),
                    old(self).spec_cap(),
                    scratch_limit(old(self).spec_cap()),
                );
                let after = visible_after(
                    old(self).spec_ids(),
                    old(self).spec_tiers(),
                    old(self).spec_cap(),
                    old(self).spec_max_radius_sq(),
                    selected,
                );
                let all = after.2 + exit_events(old(self).spec_ids(), after.0);
                &&& final(self).spec_ids() == after.0
                &&& final(self).spec_tiers() == after.1
                &&& r == (if all.len() < old(event_output)@.len() {
                    all.len()
                } else {
                    old(event_output)@.len()
                })
                &&& final(event_output)@ == written_events(all, old(event_output)@)
            }),
    {
        let cap = self.max_tracked;
        let limit: usize = if cap < 64 {
            256
        } else {
            cap * 4
        };
        let max_r = self.max_radius_sq;
        let ghost w = self.relevance_weights;
        let mut scored: Vec<ScoredCandidate> = Vec::new();
        let mut i: usize = 0;
        while i < candidates.len()
            invariant
                i <= candidates@.len(),
                relations@.len() == candidates@.len(),
                w == self.relevance_weights,
                limit == scratch_limit(cap as nat),
                scored@ == scored_candidates(candidates@.take(i as int), relations@, w, max_r, limit as nat),
            decreases candidates@.len() - i,
        {
            let (id, d) = candidates[i];
            proof {
                assert(candidates@.take(i + 1).drop_last() =~= candidates@.take(i as int));
            }
            if d <= max_r && scored.len() < limit {
                let sc = calculate_relevance_score(whole_sq_metres_of(d), relations[i], &self.relevance_weights);
                scored.push((sc, id, d));
            }
            i = i + 1;
        }
        assert(candidates@.take(i as int) =~= candidates@);
        let kept: Vec<ScoredCandidate> = if scored.len() > cap {
            let mut ranked: Vec<ScoredCandidate> = Vec::new();
            let mut j: usize = 0;
            while j < scored.len()
                invariant
                    j <= scored@.len(),
                    ranked@ == by_rank(scored@.take(j as int)),
                decreases scored@.len() - j,
            {
                proof {
                    assert(scored@.take(j + 1).drop_last() =~= scored@.take(j as int));
                }
                insert_by_rank(&mut ranked, scored[j]);
                j = j + 1;
            }
            assert(scored@.take(j as int) =~= scored@);
            proof {
                lemma_by_rank_len(scored@);
            }
            ranked.truncate(cap);
            proof {
                assert(ranked@ =~= by_rank(scored@).take(cap as int));
            }
            ranked
        } else {
            scored
        };
        let mut ordered: Vec<ScoredCandidate> = Vec::new();
        let mut j: usize = 0;
        while j < kept.len()
            invariant
                j <= kept@.len(),
                ordered@ == by_entity_id(kept@.take(j as int)),
            decreases kept@.len() - j,
        {
            proof {
                assert(kept@.take(j + 1).drop_last() =~= kept@.take(j as int));
            }
            insert_by_entity_id(&mut ordered, kept[j]);
            j = j + 1;
        }
        assert(kept@.take(j as int) =~= kept@);
        let mut selected: Vec<(u32, i64)> = Vec::new();
        let mut k: usize = 0;
        while k < ordered.len()
            invariant
                k <= ordered@.len(),
                selected@ == ordered@.take(k as int).map_values(|e: ScoredCandidate| (e.1, e.2)),
            decreases ordered@.len() - k,
        {
            let e = ordered[k];
            selected.push((e.1, e.2));
            proof {
                assert(selected@ =~= ordered@.take(k + 1).map_values(|e: ScoredCandidate| (e.1, e.2)));
            }
            k = k + 1;
        }
        assert(ordered@.take(k as int) =~= ordered@);
        self.update_visibility(selected.as_slice(), event_output)
    }

    /// Sees `id` at tier `tier` in the current listing.
    fn upsert(&mut self, id: u32, tier: FrequencyTier)
        requires
            old(self).wf(),
        ensures
            final(self).wf(),
            (final(self).entity_ids@, final(self).tiers@) == upsert_visible(
                old(self).entity_ids@,
                old(self).tiers@,
                id,
                tier,
                old(self).max_tracked as nat,
            ),
            final(self).max_tracked == old(self).max_tracked,
            final(self).max_radius_sq == old(self).max_radius_sq,
            final(self).relevance_weights == old(self).relevance_weights,
    {
        proof {
            lemma_upsert_keeps_order(self.entity_ids@, self.tiers@, id, tier, self.max_tracked as nat);
        }
        let p = lower_bound_of(&self.entity_ids, id);
        if p < self.entity_ids.len() && self.entity_ids[p] == id {
            self.tiers.set(p, tier);
        } else if self.entity_ids.len() < self.max_tracked {
            self.entity_ids.insert(p, id);
            self.tiers.insert(p, tier);
        }
    }

    /// Updates the visible set from the candidates a spatial query found, each an entity id
    /// with its squared distance to the observer (raw fixed point), and writes the resulting
    /// events into `event_output`; returns how many were written.
    ///
    /// Candidates within the radius are taken in order: one seen before keeps a tier by
    /// hysteresis and reports a `TierChange` when it moved; a new one is classified and reports
    /// `Enter`, and is tracked while there is room. Then every previously visible entity no
    /// longer tracked reports `Exit`, in id order. Events past the buffer's end are dropped.
    pub fn update_visibility(
        &mut self,
        candidates: &[(u32, i64)],
        event_output: &mut [VisibilityEvent],
    ) -> (r: usize)
        requires
            old(self).wf(),
        ensures
            final(self).wf(),
            final(self).spec_cap() == old(self).spec_cap(),
            final(self).spec_max_radius_sq() == old(self).spec_max_radius_sq(),
            final(self).spec_weights() == old(self).spec_weights(),
            ({
                let after = visible_after(
                    old(self).spec_ids(),
                    old(self).spec_tiers(),
                    old(self).spec_cap(),
                    old(self).spec_max_radius_sq(),
                    candidates@,
                );
                let all = after.2 + exit_events(old(self).spec_ids(), after.0);
                &&& final(self).spec_ids() == after.0
                &&& final(self).spec_tiers() == after.1
                &&& r == (if all.len() < old(event_output)@.len() {
                    all.len()
                } else {
                    old(event_output)@.len()
                })
                &&& final(event_output)@ == written_events(all, old(event_output)@)
            }),
    {
        let ghost base = event_output@;
        let mut prev_ids: Vec<u32> = Vec::new();
        let mut prev_tiers: Vec<FrequencyTier> = Vec::new();
        std::mem::swap(&mut prev_ids, &mut self.entity_ids);
        std::mem::swap(&mut prev_tiers, &mut self.tiers);
        let ghost cap = self.max_tracked as nat;
        let max_r = self.max_radius_sq;
        let ghost mut events: Seq<VisibilityEvent> = Seq::empty();
        let mut count: usize = 0;
        proof {
            assert(written_events(events, base) =~= base);
            assert(strictly_ascending(self.entity_ids@));
        }
        let mut i: usize = 0;
        while i < candidates.len()
            invariant
                0 <= i <= candidates@.len(),
                self.wf(),
                self.max_tracked as nat == cap,
                self.max_radius_sq == max_r,
                self.relevance_weights == old(self).relevance_weights,
                prev_ids@ == old(self).entity_ids@,
                prev_tiers@ == old(self).tiers@,
                prev_ids@.len() == prev_tiers@.len(),
                (self.entity_ids@, self.tiers@, events) == visible_after(
                    prev_ids@,
                    prev_tiers@,
                    cap,
                    max_r,
                    candidates@.take(i as int),
                ),
                event_output@.len() == base.len(),
                count == (if events.len() < base.len() {
                    events.len()
                } else {
                    base.len()
                }),
                event_output@ == written_events(events, base),
            decreases candidates@.len() - i,
        {
            let (id, d) = candidates[i];
            proof {
                assert(candidates@.take(i + 1).drop_last() =~= candidates@.take(i as int));
            }
            if d <= max_r {
                let previous = listed_in(&prev_ids, &prev_tiers, id);
                let tier = match previous {
                    Some(t) => t.update_with_hysteresis(d),
                    None => FrequencyTier::classify_initial(d),
                };
                match previous {
                    None => {
                        let e = VisibilityEvent::Enter { entity_id: id, tier };
                        count = emit(event_output, count, e, Ghost(events), Ghost(base));
                        proof {
                            events = events.push(e);
                        }
                    },
                    Some(t) => {
                        if t != tier {
                            let e = VisibilityEvent::TierChange { entity_id: id, tier };
                            count = emit(event_output, count, e, Ghost(events), Ghost(base));
                            proof {
                                events = events.push(e);
                            }
                        }
                    },
                }
                proof {
                    assert(events =~= visible_after(
                        prev_ids@,
                        prev_tiers@,
                        cap,
                        max_r,
                        candidates@.take(i as int),
                    ).2 + candidate_events(previous, id, tier));
                }
                self.upsert(id, tier);
            }
            i = i + 1;
        }
        proof {
            assert(candidates@.take(i as int) =~= candidates@);
        }
        let ghost after_events = events;
        let mut k: usize = 0;
        while k < prev_ids.len()
            invariant
                0 <= k <= prev_ids@.len(),
                self.wf(),
                prev_ids@ == old(self).entity_ids@,
                events == after_events + exit_events(prev_ids@.take(k as int), self.entity_ids@),
                event_output@.len() == base.len(),
                count == (if events.len() < base.len() {
                    events.len()
                } else {
                    base.len()
                }),
                event_output@ == written_events(events, base),
            decreases prev_ids@.len() - k,
        {
            let id = prev_ids[k];
            proof {
                assert(prev_ids@.take(k + 1).drop_last() =~= prev_ids@.take(k as int));
                assert(prev_ids@.take(k + 1).last() == id);
            }
            if !self.contains(id) {
                let e = VisibilityEvent::Exit { entity_id: id };
                count = emit(event_output, count, e, Ghost(events), Ghost(base));
                proof {
                    events = events.push(e);
                }
            }
            proof {
                assert(events =~= after_events + exit_events(prev_ids@.take(k + 1), self.entity_ids@));
            }
            k = k + 1;
        }
        proof {
            assert(prev_ids@.take(k as int) =~= prev_ids@);
            assert(events =~= after_events + exit_events(prev_ids@, self.entity_ids@));
        }
        count
    }
}

/// The visible set is always an ascending listing of distinct entities, one tier each, never
/// more than the set's capacity.
pub proof fn lemma_visible_set_ordered(s: &ObserverInterestSet)
    requires
        s.wf(),
    ensures
        strictly_ascending(s.spec_ids()),
        s.spec_ids().len() == s.spec_tiers().len(),
        s.spec_ids().len() <= s.spec_cap(),
{
}

/// A scored candidate: relevance score, entity id, squared distance (raw fixed point).
pub type ScoredCandidate = (u64, u32, i64);

/// Whole square metres of a squared distance (raw fixed point); a negative one counts as 0.
pub open spec fn whole_sq_metres(dist_sq: i64) -> i32 {
    if dist_sq < 0 {
        0
    } else {
        (dist_sq / FIXED_ONE) as i32
    }
}

/// `a` outranks `b`: a higher score, or an equal score and a lower id.
pub open spec fn ranks_before(a: ScoredCandidate, b: ScoredCandidate) -> bool {
    a.0 > b.0 || (a.0 == b.0 && a.1 < b.1)
}

/// `s` ordered by rank, best first (insertion order among equals).
pub open spec fn by_rank(s: Seq<ScoredCandidate>) -> Seq<ScoredCandidate>
    decreases s.len(),
{
    if s.len() == 0 {
        Seq::empty()
    } else {
        let r = by_rank(s.drop_last());
        let e = s.last();
        let i = first_index(r, |x: ScoredCandidate| ranks_before(e, x));
        r.insert(if i >= 0 { i } else { r.len() as int }, e)
    }
}

proof fn lemma_by_rank_len(s: Seq<ScoredCandidate>)
    ensures
        by_rank(s).len() == s.len(),
    decreases s.len(),
{
    if s.len() > 0 {
        lemma_by_rank_len(s.drop_last());
        let r = by_rank(s.drop_last());
        lemma_first_index(r, |x: ScoredCandidate| ranks_before(s.last(), x));
    }
}

/// `s` ordered by entity id, ascending (insertion order among equals).
pub open spec fn by_entity_id(s: Seq<ScoredCandidate>) -> Seq<ScoredCandidate>
    decreases s.len(),
{
    if s.len() == 0 {
        Seq::empty()
    } else {
        let r = by_entity_id(s.drop_last());
        let e = s.last();
        let i = first_index(r, |x: ScoredCandidate| x.1 > e.1);
        r.insert(if i >= 0 { i } else { r.len() as int }, e)
    }
}

/// The candidates within `max_r`, in order, scored against their relations, at most `limit` of them.
pub open spec fn scored_candidates(
    cands: Seq<(u32, i64)>,
    relations: Seq<EntityRelation>,
    weights: RelevanceWeights,
    max_r: i64,
    limit: nat,
) -> Seq<ScoredCandidate>
    decreases cands.len(),
{
    if cands.len() == 0 {
        Seq::empty()
    } else {
        let s = scored_candidates(cands.drop_last(), relations, weights, max_r, limit);
        let (id, d) = cands.last();
        if d <= max_r && s.len() < limit {
            s.push(
                (
                    spec_relevance_score(whole_sq_metres(d), relations[cands.len() - 1], weights) as u64,
                    id,
                    d,
                ),
            )
        } else {
            s
        }
    }
}

/// The candidates a ranked update keeps, in id order: all scored ones when they fit in `cap`,
/// else the `cap` best ranked.
pub open spec fn ranked_selection(
    cands: Seq<(u32, i64)>,
    relations: Seq<EntityRelation>,
    weights: RelevanceWeights,
    max_r: i64,
    cap: nat,
    limit: nat,
) -> Seq<(u32, i64)> {
    let sc = scored_candidates(cands, relations, weights, max_r, limit);
    let kept = if sc.len() > cap {
        by_rank(sc).take(cap as int)
    } else {
        sc
    };
    by_entity_id(kept).map_values(|e: ScoredCandidate| (e.1, e.2))
}

/// Scratch room of a ranked update for a set tracking `cap` entities: four per tracked
/// entity, and at least 256.
pub open spec fn scratch_limit(cap: nat) -> nat {
    if cap < 64 {
        256
    } else {
        cap * 4
    }
}

/// Inserts `e` into `v` where `by_rank` puts it.
fn insert_by_rank(v: &mut Vec<ScoredCandidate>, e: ScoredCandidate)
    ensures
        ({
            let i = first_index(old(v)@, |x: ScoredCandidate| ranks_before(e, x));
            final(v)@ == old(v)@.insert(if i >= 0 { i } else { old(v)@.len() as int }, e)
        }),
{
    let ghost s = v@;
    let ghost p = |x: ScoredCandidate| ranks_before(e, x);
    let mut pos: usize = 0;
    while pos < v.len() && !(e.0 > v[pos].0 || (e.0 == v[pos].0 && e.1 < v[pos].1))
        invariant
            pos <= s.len(),
            s == v@,
            p == (|x: ScoredCandidate| ranks_before(e, x)),
            forall|j: int| 0 <= j < pos ==> !p(#[trigger] s[j]),
        decreases s.len() - pos,
    {
        pos = pos + 1;
    }
    proof {
        if pos < s.len() {
            lemma_first_index_is(s, p, pos as int);
        } else {
            lemma_first_index_none(s, p);
        }
    }
    v.insert(pos, e);
}

/// Inserts `e` into `v` where `by_entity_id` puts it.
fn insert_by_entity_id(v: &mut Vec<ScoredCandidate>, e: ScoredCandidate)
    ensures
        ({
            let i = first_index(old(v)@, |x: ScoredCandidate| x.1 > e.1);
            final(v)@ == old(v)@.insert(if i >= 0 { i } else { old(v)@.len() as int }, e)
        }),
{
    let ghost s = v@;
    let ghost p = |x: ScoredCandidate| x.1 > e.1;
    let mut pos: usize = 0;
    while pos < v.len() && v[pos].1 <= e.1
        invariant
            pos <= s.len(),
            s == v@,
            p == (|x: ScoredCandidate| x.1 > e.1),
            forall|j: int| 0 <= j < pos ==> !p(#[trigger] s[j]),
        decreases s.len() - pos,
    {
        pos = pos + 1;
    }
    proof {
        if pos < s.len() {
            lemma_first_index_is(s, p, pos as int);
        } else {
            lemma_first_index_none(s, p);
        }
    }
    v.insert(pos, e);
}

/// Whole square metres of a squared distance (raw fixed point), negative counting as 0.
fn whole_sq_metres_of(dist_sq: i64) -> (w: i32)
    ensures
        w == whole_sq_metres(dist_sq),
{
    if dist_sq < 0 {
        0
    } else {
        (dist_sq / FIXED_ONE) as i32
    }
}

/// Position of the first entry of `ids` not below `id`.
fn lower_bound_of(ids: &Vec<u32>, id: u32) -> (p: usize)
    ensures
        p == lower_bound(ids@, id),
        p <= ids@.len(),
{
    let mut i: usize = 0;
    while i < ids.len() && ids[i] < id
        invariant
            0 <= i <= ids@.len(),
            forall|j: int| 0 <= j < i ==> ids@[j] < id,
        decreases ids@.len() - i,
    {
        i = i + 1;
    }
    proof {
        lemma_lower_bound_at(ids@, id, i as int);
    }
    i
}

/// The tier `id` has in the listing `ids`/`tiers`, if it is listed.
fn listed_in(ids: &Vec<u32>, tiers: &Vec<FrequencyTier>, id: u32) -> (t: Option<FrequencyTier>)
    requires
        ids@.len() == tiers@.len(),
    ensures
        t == listed_tier(ids@, tiers@, id),
{
    let p = lower_bound_of(ids, id);
    if p < ids.len() && ids[p] == id {
        Some(tiers[p])
    } else {
        None
    }
}

/// Writes `e` after the `count` events already written, if the buffer has room.
fn emit(
    out: &mut [VisibilityEvent],
    count: usize,
    e: VisibilityEvent,
    Ghost(all): Ghost<Seq<VisibilityEvent>>,
    Ghost(base): Ghost<Seq<VisibilityEvent>>,
) -> (c: usize)
    requires
        old(out)@.len() == base.len(),
        count == (if all.len() < base.len() {
            all.len()
        } else {
            base.len()
        }),
        old(out)@ == written_events(all, base),
    ensures
        final(out)@.len() == base.len(),
        c == (if all.len() + 1 < base.len() {
            all.len() + 1
        } else {
            base.len()
        }),
        final(out)@ == written_events(all.push(e), base),
{
    if count < out.len() {
        out[count] = e;
        proof {
            assert(out@ =~= written_events(all.push(e), base));
        }
        count + 1
    } else {
        proof {
            assert(out@ =~= written_events(all.push(e), base));
        }
        count
    }
}


/// Each relation adds exactly its own bonus: at the same distance and with the other flags
/// alike, being the target adds `target_bonus`, a party member `party_bonus`, a threat
/// `threat_bonus`, and a guild member `guild_bonus`; with no relation the score is the
/// inverse-square falloff `100_000_000 / (1 + d)` of the (non-negative) squared distance.
pub proof fn lemma_relation_bonuses(d: i32, r: EntityRelation, w: RelevanceWeights)
    ensures
        spec_relevance_score(d, EntityRelation { is_target: true, ..r }, w) == spec_relevance_score(
            d,
            EntityRelation { is_target: false, ..r },
            w,
        ) + w.target_bonus,
        spec_relevance_score(d, EntityRelation { is_party: true, ..r }, w) == spec_relevance_score(
            d,
            EntityRelation { is_party: false, ..r },
            w,
        ) + w.party_bonus,
        spec_relevance_score(d, EntityRelation { is_threat: true, ..r }, w) == spec_relevance_score(
            d,
            EntityRelation { is_threat: false, ..r },
            w,
        ) + w.threat_bonus,
        spec_relevance_score(d, EntityRelation { is_guild: true, ..r }, w) == spec_relevance_score(
            d,
            EntityRelation { is_guild: false, ..r },
            w,
        ) + w.guild_bonus,
        spec_relevance_score(
            d,
            EntityRelation { is_party: false, is_target: false, is_threat: false, is_guild: false },
            w,
        ) == 100_000_000int / (1 + (if d < 0 { 0int } else { d as int })),
{
}

} // verus!
