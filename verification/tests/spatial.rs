use eidolon::aoi::{AoIScheduler, LoadSheddingLevel};
use eidolon::grid::CellCoord;
use eidolon::tier::{
    FrequencyTier, FIFTY_METERS_SQ, FIXED_ONE, IMMEDIATE_PROMOTION_DIST_SQ, MID_DEMOTION_DIST_SQ,
    TEN_METERS_SQ,
};

#[test]
fn test_load_shedding_dispatch() {
    let mut scheduler = AoIScheduler::new();

    assert!(scheduler.should_replicate(FrequencyTier::Immediate, 2, false));
    assert!(!scheduler.should_replicate(FrequencyTier::Immediate, 3, false));
    assert!(scheduler.should_replicate(FrequencyTier::Mid, 10, false));
    assert!(!scheduler.should_replicate(FrequencyTier::Mid, 2, false));

    scheduler.set_load_shedding(LoadSheddingLevel::Level1);
    assert!(scheduler.should_replicate(FrequencyTier::Immediate, 2, false));
    assert!(!scheduler.should_replicate(FrequencyTier::Mid, 10, false));
    assert!(scheduler.should_replicate(FrequencyTier::Mid, 20, false));

    scheduler.set_load_shedding(LoadSheddingLevel::Level2);
    assert!(scheduler.should_replicate(FrequencyTier::Immediate, 2, false));
    assert!(!scheduler.should_replicate(FrequencyTier::Mid, 20, false));
}

#[test]
fn test_load_shedding_degradation_levels() {
    let mut scheduler = AoIScheduler::new();

    assert_eq!(scheduler.load_shedding(), LoadSheddingLevel::Nominal);
    let mut immediate_dispatches = 0;
    let mut mid_dispatches = 0;

    for tick in 1..=20 {
        if scheduler.should_replicate(FrequencyTier::Immediate, tick, false) {
            immediate_dispatches += 1;
        }
        if scheduler.should_replicate(FrequencyTier::Mid, tick, false) {
            mid_dispatches += 1;
        }
    }

    assert_eq!(immediate_dispatches, 10);
    assert_eq!(mid_dispatches, 2);

    scheduler.set_load_shedding(LoadSheddingLevel::Level1);
    let mut mid_level1_dispatches = 0;
    for tick in 1..=20 {
        if scheduler.should_replicate(FrequencyTier::Mid, tick, false) {
            mid_level1_dispatches += 1;
        }
    }
    assert_eq!(
        mid_level1_dispatches, 1,
        "Level 1 shedding must throttle Mid to 1 Hz (1 dispatch per 20 ticks)"
    );

    scheduler.set_load_shedding(LoadSheddingLevel::Level2);
    let mut immediate_level2_dispatches = 0;
    let mut mid_level2_dispatches = 0;
    for tick in 1..=20 {
        if scheduler.should_replicate(FrequencyTier::Immediate, tick, false) {
            immediate_level2_dispatches += 1;
        }
        if scheduler.should_replicate(FrequencyTier::Mid, tick, false) {
            mid_level2_dispatches += 1;
        }
    }
    assert_eq!(
        immediate_level2_dispatches, 10,
        "Immediate combat tier must be protected under Level 2"
    );
    assert_eq!(
        mid_level2_dispatches, 0,
        "Mid tier must be shed completely under Level 2"
    );
}

#[test]
fn tier_intervals_and_state_changes() {
    assert_eq!(FrequencyTier::Immediate.tick_interval(), 2);
    assert_eq!(FrequencyTier::Mid.tick_interval(), 10);
    assert_eq!(FrequencyTier::Horizon.tick_interval(), 0);
    assert!(FrequencyTier::Horizon.should_dispatch(7, true));
    assert!(!FrequencyTier::Horizon.should_dispatch(10, false));
    let sched = AoIScheduler::new();
    assert!(sched.should_replicate(FrequencyTier::Horizon, 3, true));
}

#[test]
fn spatial_key_packing() {
    let c = CellCoord::new(2, 1, -1);
    assert_eq!(c.spatial_key(), (2u64 << 40) | (0x00FF_FFFFu64 << 16) | 1);
    assert_ne!(CellCoord::new(1, 0, 0).spatial_key(), CellCoord::new(0, 0, 1).spatial_key());
    assert_eq!(CellCoord::new(0, 0, 0).spatial_key(), 0);
}

#[test]
fn test_frequency_tier_hysteresis() {
    let initial = FrequencyTier::Immediate;

    // At 10m (100 m^2): within deadband [81, 121], remains Immediate
    let dist_10m = 100 * FIXED_ONE;
    assert_eq!(
        initial.update_with_hysteresis(dist_10m),
        FrequencyTier::Immediate
    );

    // Moves to 12m (144 m^2): exceeds 121 m^2 demotion threshold, demotes to Mid
    let dist_12m = 144 * FIXED_ONE;
    let mid_tier = initial.update_with_hysteresis(dist_12m);
    assert_eq!(mid_tier, FrequencyTier::Mid);

    // Moves back to 10m (100 m^2): within deadband [81, 121], remains Mid
    assert_eq!(
        mid_tier.update_with_hysteresis(dist_10m),
        FrequencyTier::Mid
    );

    // Moves to 8m (64 m^2): drops below 81 m^2 promotion threshold, promotes to Immediate
    let dist_8m = 64 * FIXED_ONE;
    assert_eq!(
        mid_tier.update_with_hysteresis(dist_8m),
        FrequencyTier::Immediate
    );
}

#[test]
fn initial_classification_and_horizon_hysteresis() {
    assert_eq!(FrequencyTier::classify_initial(TEN_METERS_SQ), FrequencyTier::Immediate);
    assert_eq!(FrequencyTier::classify_initial(TEN_METERS_SQ + 1), FrequencyTier::Mid);
    assert_eq!(FrequencyTier::classify_initial(FIFTY_METERS_SQ), FrequencyTier::Mid);
    assert_eq!(FrequencyTier::classify_initial(FIFTY_METERS_SQ + 1), FrequencyTier::Horizon);
    let h = FrequencyTier::Horizon;
    assert_eq!(h.update_with_hysteresis(2400 * FIXED_ONE), FrequencyTier::Horizon);
    assert_eq!(h.update_with_hysteresis(2000 * FIXED_ONE), FrequencyTier::Mid);
    assert_eq!(h.update_with_hysteresis(80 * FIXED_ONE), FrequencyTier::Immediate);
    assert_eq!(
        FrequencyTier::Immediate.update_with_hysteresis(MID_DEMOTION_DIST_SQ + 1),
        FrequencyTier::Horizon
    );
    assert_eq!(
        FrequencyTier::Mid.update_with_hysteresis(MID_DEMOTION_DIST_SQ),
        FrequencyTier::Mid
    );
    assert_eq!(FrequencyTier::default(), FrequencyTier::Immediate);
    assert_eq!(IMMEDIATE_PROMOTION_DIST_SQ, 81i64 << 32);
}
