//! Area of Interest replication frequency tiers, and the spatial hysteresis that keeps an entity
//! loitering near a tier boundary from flickering between tiers.
//!
//! Squared distances are 32.32 fixed-point values, held here as their raw `i64` representation:
//! one square metre is `FIXED_ONE`.
use vstd::prelude::*;

verus! {

/// One unit (one metre, or one square metre) in raw 32.32 fixed-point representation.
pub const FIXED_ONE: i64 = 4294967296;

/// Squared distance below which an entity is promoted to the Immediate tier (9 m squared).
pub const IMMEDIATE_PROMOTION_DIST_SQ: i64 = 81 * FIXED_ONE;

/// Squared distance above which an entity is demoted from the Immediate tier (11 m squared).
pub const IMMEDIATE_DEMOTION_DIST_SQ: i64 = 121 * FIXED_ONE;

/// Squared distance below which an entity is promoted to the Mid tier (48 m squared).
pub const MID_PROMOTION_DIST_SQ: i64 = 2304 * FIXED_ONE;

/// Squared distance above which an entity is demoted from the Mid tier (52 m squared).
pub const MID_DEMOTION_DIST_SQ: i64 = 2704 * FIXED_ONE;

/// Squared distance up to which a newly seen entity starts in the Immediate tier (10 m squared).
pub const TEN_METERS_SQ: i64 = 100 * FIXED_ONE;

/// Squared distance up to which a newly seen entity starts in the Mid tier (50 m squared).
pub const FIFTY_METERS_SQ: i64 = 2500 * FIXED_ONE;

/// Update frequency tiers assigned to entities based on observer distance.
#[derive(Debug, Clone, Copy, PartialEq, Eq, PartialOrd, Ord, Hash, Structural)]
pub enum FrequencyTier {
    /// Immediate tier (< 10 meters): 10 Hz updates.
    Immediate,
    /// Mid tier (10m to 50 meters): 2 Hz updates.
    Mid,
    /// Horizon tier (> 50 meters): state-change event updates only.
    Horizon,
}

impl FrequencyTier {
    /// Update interval in ticks (0 for event-driven only).
    pub open spec fn spec_tick_interval(self) -> u32 {
        match self {
            FrequencyTier::Immediate => 2,
            FrequencyTier::Mid => 10,
            FrequencyTier::Horizon => 0,
        }
    }

    /// Whether an entity of this tier is dispatched at `tick_index`.
    pub open spec fn spec_should_dispatch(self, tick_index: u64, is_state_changed: bool) -> bool {
        is_state_changed || match self {
            FrequencyTier::Immediate => tick_index % 2 == 0,
            FrequencyTier::Mid => tick_index % 10 == 0,
            FrequencyTier::Horizon => false,
        }
    }

    /// Tier of a newly seen entity at squared distance `dist_sq`.
    pub open spec fn spec_classify_initial(dist_sq: i64) -> FrequencyTier {
        if dist_sq <= TEN_METERS_SQ {
            FrequencyTier::Immediate
        } else if dist_sq <= FIFTY_METERS_SQ {
            FrequencyTier::Mid
        } else {
            FrequencyTier::Horizon
        }
    }

    /// Tier after an entity of this tier is seen at squared distance `dist_sq`: each tier is
    /// left only past a threshold beyond the one that enters it.
    pub open spec fn spec_update_with_hysteresis(self, dist_sq: i64) -> FrequencyTier {
        match self {
            FrequencyTier::Immediate => if dist_sq > MID_DEMOTION_DIST_SQ {
                FrequencyTier::Horizon
            } else if dist_sq > IMMEDIATE_DEMOTION_DIST_SQ {
                FrequencyTier::Mid
            } else {
                FrequencyTier::Immediate
            },
            FrequencyTier::Mid => if dist_sq < IMMEDIATE_PROMOTION_DIST_SQ {
                FrequencyTier::Immediate
            } else if dist_sq > MID_DEMOTION_DIST_SQ {
                FrequencyTier::Horizon
            } else {
                FrequencyTier::Mid
            },
            FrequencyTier::Horizon => if dist_sq < IMMEDIATE_PROMOTION_DIST_SQ {
                FrequencyTier::Immediate
            } else if dist_sq < MID_PROMOTION_DIST_SQ {
                FrequencyTier::Mid
            } else {
                FrequencyTier::Horizon
            },
        }
    }

    /// Classifies a newly seen entity by its squared distance.
    pub fn classify_initial(dist_sq: i64) -> (t: Self)
        ensures
            t == Self::spec_classify_initial(dist_sq),
    {
        if dist_sq <= TEN_METERS_SQ {
            FrequencyTier::Immediate
        } else if dist_sq <= FIFTY_METERS_SQ {
            FrequencyTier::Mid
        } else {
            FrequencyTier::Horizon
        }
    }

    /// Updates the tier from a new squared distance, with spatial hysteresis.
    pub fn update_with_hysteresis(self, dist_sq: i64) -> (t: Self)
        ensures
            t == self.spec_update_with_hysteresis(dist_sq),
    {
        match self {
            FrequencyTier::Immediate => {
                if dist_sq > MID_DEMOTION_DIST_SQ {
                    FrequencyTier::Horizon
                } else if dist_sq > IMMEDIATE_DEMOTION_DIST_SQ {
                    FrequencyTier::Mid
                } else {
                    FrequencyTier::Immediate
                }
            },
            FrequencyTier::Mid => {
                if dist_sq < IMMEDIATE_PROMOTION_DIST_SQ {
                    FrequencyTier::Immediate
                } else if dist_sq > MID_DEMOTION_DIST_SQ {
                    FrequencyTier::Horizon
                } else {
                    FrequencyTier::Mid
                }
            },
            FrequencyTier::Horizon => {
                if dist_sq < IMMEDIATE_PROMOTION_DIST_SQ {
                    FrequencyTier::Immediate
                } else if dist_sq < MID_PROMOTION_DIST_SQ {
                    FrequencyTier::Mid
                } else {
                    FrequencyTier::Horizon
                }
            },
        }
    }

    /// Target update interval in simulation ticks (20 Hz server ticks).
    pub fn tick_interval(self) -> (t: u32)
        ensures
            t == self.spec_tick_interval(),
    {
        match self {
            FrequencyTier::Immediate => 2,
            FrequencyTier::Mid => 10,
            FrequencyTier::Horizon => 0,
        }
    }

    /// Whether an entity in this tier should be dispatched in the given tick.
    pub fn should_dispatch(self, tick_index: u64, is_state_changed: bool) -> (d: bool)
        ensures
            d == self.spec_should_dispatch(tick_index, is_state_changed),
    {
        if is_state_changed {
            return true;
        }
        match self {
            FrequencyTier::Immediate => tick_index % 2 == 0,
            FrequencyTier::Mid => tick_index % 10 == 0,
            FrequencyTier::Horizon => false,
        }
    }
}

/// A tier with a non-zero interval dispatches exactly on the multiples of that interval
/// (when nothing changed), and never otherwise.
pub proof fn lemma_dispatch_follows_interval(tier: FrequencyTier, tick_index: u64)
    ensures
        tier.spec_tick_interval() > 0 ==> (tier.spec_should_dispatch(tick_index, false) <==> tick_index
            % (tier.spec_tick_interval() as u64) == 0),
        tier.spec_tick_interval() == 0 ==> !tier.spec_should_dispatch(tick_index, false),
        tier.spec_should_dispatch(tick_index, true),
{
}

/// Hysteresis settles at once: seen again at the same distance, an entity keeps the tier it
/// was just given.
pub proof fn lemma_hysteresis_settles(tier: FrequencyTier, dist_sq: i64)
    ensures
        tier.spec_update_with_hysteresis(dist_sq).spec_update_with_hysteresis(dist_sq)
            == tier.spec_update_with_hysteresis(dist_sq),
{
}

/// Deadbands: an entity keeps its tier while its squared distance stays within that tier's
/// band, which overlaps the neighbouring tiers' bands, so loitering at a boundary causes no
/// flicker.
pub proof fn lemma_hysteresis_deadband(tier: FrequencyTier, dist_sq: i64)
    ensures
        tier == FrequencyTier::Immediate && dist_sq <= IMMEDIATE_DEMOTION_DIST_SQ
            ==> tier.spec_update_with_hysteresis(dist_sq) == tier,
        tier == FrequencyTier::Mid && IMMEDIATE_PROMOTION_DIST_SQ <= dist_sq
            <= MID_DEMOTION_DIST_SQ ==> tier.spec_update_with_hysteresis(dist_sq) == tier,
        tier == FrequencyTier::Horizon && dist_sq >= MID_PROMOTION_DIST_SQ
            ==> tier.spec_update_with_hysteresis(dist_sq) == tier,
{
}

/// Outside the deadbands every tier agrees: closer than the Immediate promotion threshold is
/// Immediate, and farther than the Mid demotion threshold is Horizon, whatever the tier was.
pub proof fn lemma_hysteresis_outside_deadbands(tier: FrequencyTier, dist_sq: i64)
    ensures
        dist_sq < IMMEDIATE_PROMOTION_DIST_SQ ==> tier.spec_update_with_hysteresis(dist_sq)
            == FrequencyTier::Immediate,
        dist_sq > MID_DEMOTION_DIST_SQ ==> tier.spec_update_with_hysteresis(dist_sq)
            == FrequencyTier::Horizon,
{
}

impl Default for FrequencyTier {
    /// The Immediate tier.
    fn default() -> (t: Self)
        ensures
            t == FrequencyTier::Immediate,
    {
        FrequencyTier::Immediate
    }
}

} // verus!
