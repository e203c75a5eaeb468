use eidolon::adaptive_shard::{AdaptiveShardManager, RebalanceReason};
use eidolon::error::WorldError;

#[test]
fn test_adaptive_shard_initialization() {
    let manager = AdaptiveShardManager::new(4);
    assert!(manager.is_ok());
    let mgr = manager.unwrap();
    assert_eq!(mgr.shard_count(), 4);

    let m0 = mgr.shard_metrics(0);
    assert!(m0.is_some());
    assert_eq!(m0.unwrap().active_sectors, 0);

    let m_invalid = mgr.shard_metrics(99);
    assert!(m_invalid.is_none());
}

#[test]
fn test_sector_assignment_and_query() {
    let mut mgr = AdaptiveShardManager::new(4).unwrap();
    let assign_res = mgr.assign_sector(10, -5, 2);
    assert!(assign_res.is_ok());

    assert_eq!(mgr.get_shard_for_sector(10, -5), Some(2));
    assert_eq!(mgr.get_shard_for_sector(0, 0), None);

    let m2 = mgr.shard_metrics(2).unwrap();
    assert_eq!(m2.active_sectors, 1);
}

#[test]
fn test_hotspot_contraction_and_wilderness_merge() {
    let mut mgr = AdaptiveShardManager::new(4).unwrap();
    mgr.configure_thresholds(500, 10, 35_000, 0);

    mgr.assign_sector(0, 0, 0).unwrap();
    mgr.update_sector_entity_count(0, 0, 2000).unwrap();

    mgr.assign_sector(10, 10, 1).unwrap();
    mgr.update_sector_entity_count(10, 10, 2).unwrap();

    let mut actions = Vec::new();
    mgr.evaluate_rebalance(100, &mut actions);

    assert_eq!(actions.len(), 2);

    let wilderness_action = actions
        .iter()
        .find(|a| a.sector_x == 10 && a.sector_z == 10);
    assert!(wilderness_action.is_some());
    let w = wilderness_action.unwrap();
    assert_eq!(w.from_shard, 1);
    assert_eq!(w.to_shard, 0);
    assert_eq!(w.reason, RebalanceReason::WildernessMerge);

    let hotspot_action = actions.iter().find(|a| a.sector_x == 0 && a.sector_z == 0);
    assert!(hotspot_action.is_some());
    let h = hotspot_action.unwrap();
    assert_eq!(h.from_shard, 0);
    assert_ne!(h.to_shard, 0);
    assert_eq!(h.reason, RebalanceReason::HotspotContraction);
}

#[test]
fn test_invalid_shard_rejection() {
    let mut mgr = AdaptiveShardManager::new(4).unwrap();
    let res = mgr.assign_sector(0, 0, 10);
    assert!(matches!(res, Err(WorldError::ShardNotFound(10))));
}

#[test]
fn zero_shards_refused_and_count_capped() {
    assert!(matches!(AdaptiveShardManager::new(0), Err(WorldError::ShardNotFound(0))));
    let mgr = AdaptiveShardManager::new(500).unwrap();
    assert_eq!(mgr.shard_count(), 64);
    assert_eq!(mgr.shard_metrics(63).unwrap().shard_id, 63);
}

#[test]
fn entity_counts_follow_sector_moves() {
    let mut mgr = AdaptiveShardManager::new(3).unwrap();
    mgr.assign_sector(1, 1, 1).unwrap();
    mgr.update_sector_entity_count(1, 1, 40).unwrap();
    assert_eq!(mgr.shard_metrics(1).unwrap().total_entities, 40);
    mgr.assign_sector(1, 1, 2).unwrap();
    assert_eq!(mgr.shard_metrics(1).unwrap().total_entities, 0);
    assert_eq!(mgr.shard_metrics(1).unwrap().active_sectors, 0);
    assert_eq!(mgr.shard_metrics(2).unwrap().total_entities, 40);
    assert_eq!(mgr.total_registered_sectors(), 1);
    assert_eq!(mgr.update_sector_entity_count(9, 9, 1), Err(WorldError::EntityNotFound(0)));
    let a = mgr.contract_hotspot_to_shard(1, 1, 1, 7).unwrap();
    assert_eq!((a.from_shard, a.to_shard), (2, 1));
    assert_eq!(mgr.contract_hotspot_to_shard(1, 1, 3, 7), Err(WorldError::ShardNotFound(3)));
    assert_eq!(mgr.merge_wilderness_to_background(5, 5, 7), Err(WorldError::ShardNotFound(0)));
    assert!(mgr.update_shard_cpu(40, 1000).is_ok());
    assert_eq!(mgr.update_shard_cpu(64, 1000), Err(WorldError::ShardNotFound(64)));
    assert_eq!(mgr.shard_metrics(2).unwrap().last_tick_duration_micros, 0);
}

#[test]
fn hotspots_go_to_least_loaded_worker() {
    let mut mgr = AdaptiveShardManager::new(3).unwrap();
    mgr.assign_sector(5, 5, 1).unwrap();
    mgr.update_sector_entity_count(5, 5, 300).unwrap();
    mgr.assign_sector(0, 0, 0).unwrap();
    mgr.update_sector_entity_count(0, 0, 900).unwrap();
    let mut actions = Vec::new();
    mgr.evaluate_rebalance(3, &mut actions);
    assert_eq!(actions.len(), 1);
    assert_eq!(actions[0].to_shard, 2);
    assert_eq!(mgr.get_shard_for_sector(0, 0), Some(2));
}

#[test]
fn registered_sectors_match_shard_counters() {
    let mut mgr = AdaptiveShardManager::new(3).unwrap();
    assert!(mgr.assign_sector(0, 0, 1).is_ok());
    assert!(mgr.assign_sector(1, 0, 1).is_ok());
    assert!(mgr.assign_sector(2, 0, 2).is_ok());
    assert!(mgr.assign_sector(1, 0, 2).is_ok());
    assert!(mgr.contract_hotspot_to_shard(0, 0, 2, 10).is_ok());
    assert!(mgr.merge_wilderness_to_background(2, 0, 11).is_ok());
    let total: u32 = (0..3).map(|i| mgr.shard_metrics(i).unwrap().active_sectors).sum();
    assert_eq!(total as usize, mgr.total_registered_sectors());
    assert_eq!(mgr.total_registered_sectors(), 3);
    assert_eq!(mgr.shard_metrics(0).unwrap().active_sectors, 1);
    assert_eq!(mgr.shard_metrics(1).unwrap().active_sectors, 0);
    assert_eq!(mgr.shard_metrics(2).unwrap().active_sectors, 2);
}
