use eidolon::error::{WorldError, ZoneId};
use eidolon::partition::{
    BoundaryLease, EntityPartitionState, ZonePartitionDetector, ZonePartitionManager,
};

#[test]
fn test_boundary_lease_lifecycle() {
    let mut lease = BoundaryLease::new(101, ZoneId(1), ZoneId(2), 10, 20);
    assert!(lease.is_valid(10));
    assert!(lease.is_valid(30));
    assert!(!lease.is_valid(31));

    lease.renew(30, 20);
    assert!(lease.is_valid(40));
    assert!(lease.is_valid(50));
    assert!(!lease.is_valid(51));
}

#[test]
fn test_zone_partition_detector() {
    let mut detector = ZonePartitionDetector::new(ZoneId(1), ZoneId(2), 100);
    assert!(!detector.is_partitioned(100));
    assert!(!detector.is_partitioned(103));
    assert!(detector.is_partitioned(104));

    detector.record_heartbeat(105);
    assert!(!detector.is_partitioned(105));
}

#[test]
fn test_partition_manager_validates_and_rolls_back() {
    let mut manager = ZonePartitionManager::new(ZoneId(1), ZoneId(2), 1);
    assert!(manager.validate_migration(2).is_ok());

    assert_eq!(
        manager.validate_migration(6),
        Err(WorldError::PartitionSevered {
            local_zone: ZoneId(1),
            remote_zone: ZoneId(2)
        })
    );

    let state = manager.resolve_partition_rollback(42, 6);
    assert_eq!(state, EntityPartitionState::FrozenReadOnly);

    manager.handle_heartbeat(7);
    let healed_state = manager.resolve_partition_rollback(42, 7);
    assert_eq!(healed_state, EntityPartitionState::ActiveAuthoritative);
}

#[test]
fn lease_saturates_at_max_tick() {
    let lease = BoundaryLease::new(1, ZoneId(1), ZoneId(2), u64::MAX - 5, 20);
    assert_eq!(lease.expires_tick, u64::MAX);
    assert!(lease.is_valid(u64::MAX));
}

#[test]
fn expired_lease_is_reported_when_link_is_healthy() {
    let mut manager = ZonePartitionManager::new(ZoneId(3), ZoneId(4), 0);
    // keep the link alive but let the lease run out: heartbeats renew the lease, so
    // detector and lease move together; check the lease accessor directly instead.
    manager.handle_heartbeat(2);
    assert_eq!(manager.lease().expires_tick, 22);
    assert_eq!(manager.lease().granted_tick, 2);
    assert!(!manager.is_partitioned(5));
}
