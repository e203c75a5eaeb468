use eidolon::error::{InstanceId, WorldError};
use eidolon::instance::{DungeonInstance, DungeonPool, InstanceLifecycle};

#[test]
fn test_dungeon_instance_lifecycle_flow() {
    let mut room = DungeonInstance::new(InstanceId(1), 100);
    assert_eq!(room.state, InstanceLifecycle::Allocated);

    assert!(room.join_party(10).is_ok());
    assert_eq!(room.state, InstanceLifecycle::ActiveCombat);
    assert_eq!(room.party_count, 1);

    assert!(room.join_party(20).is_ok());
    assert_eq!(room.party_count, 2);

    assert!(!room.apply_boss_damage(60));
    assert_eq!(room.boss_health, 40);

    assert!(room.apply_boss_damage(40));
    assert_eq!(room.boss_health, 0);
    assert_eq!(room.state, InstanceLifecycle::VictoryReward);

    assert!(room.leave_party(10).is_ok());
    assert!(room.leave_party(20).is_ok());
    assert_eq!(room.state, InstanceLifecycle::PendingCleanup);

    assert!(!room.tick());
}

#[test]
fn test_dungeon_pool_zero_leak_lifecycle() {
    let mut pool = DungeonPool::<4>::new();
    assert_eq!(pool.active_room_count(), 0);

    let r1 = pool.allocate_instance(100).expect("allocate r1");
    let r2 = pool.allocate_instance(200).expect("allocate r2");
    assert_eq!(pool.active_room_count(), 2);

    assert!(pool.deallocate_instance(r1).is_ok());
    assert_eq!(pool.active_room_count(), 1);

    assert!(pool.deallocate_instance(r2).is_ok());
    assert_eq!(pool.active_room_count(), 0);
}

#[test]
fn party_full_and_duplicate_join() {
    let mut room = DungeonInstance::new(InstanceId(7), 10);
    for p in 1..=4 {
        assert!(room.join_party(p).is_ok());
    }
    assert!(room.join_party(3).is_ok());
    assert_eq!(room.party_count, 4);
    assert_eq!(room.join_party(5), Err(WorldError::PartyFull));
    assert_eq!(room.leave_party(9), Err(WorldError::EntityNotFound(9)));
}

#[test]
fn pool_exhaustion_and_tick_cleanup() {
    let mut pool = DungeonPool::<2>::new();
    let a = pool.allocate_instance(5).unwrap();
    let _b = pool.allocate_instance(5).unwrap();
    assert_eq!(pool.allocate_instance(5), Err(WorldError::InstancePoolExhausted));
    {
        let room = pool.get_instance_mut(a).unwrap();
        room.join_party(1).unwrap();
        room.leave_party(1).unwrap();
    }
    assert_eq!(pool.get_instance(a).unwrap().state, InstanceLifecycle::PendingCleanup);
    pool.tick_all();
    assert_eq!(pool.active_room_count(), 1);
    assert!(pool.get_instance(a).is_none());
    assert_eq!(pool.deallocate_instance(a), Err(WorldError::InstanceNotFound(a)));
}

#[test]
fn victory_grace_period_expires() {
    let mut room = DungeonInstance::new(InstanceId(2), 1);
    room.join_party(1).unwrap();
    assert!(room.apply_boss_damage(5));
    for _ in 0..1200 {
        assert!(room.tick());
    }
    assert_eq!(room.state, InstanceLifecycle::VictoryReward);
    assert!(room.tick());
    assert_eq!(room.state, InstanceLifecycle::PendingCleanup);
    assert!(!room.tick());
}

#[test]
fn loot_grace_counts_from_victory() {
    let mut room = DungeonInstance::new(InstanceId(9), 10);
    room.join_party(1).unwrap();
    for _ in 0..1500 {
        assert!(room.tick());
    }
    assert_eq!(room.state, InstanceLifecycle::ActiveCombat);
    assert!(room.apply_boss_damage(10));
    assert_eq!(room.victory_tick, 1500);
    for _ in 0..1200 {
        assert!(room.tick());
        assert_eq!(room.state, InstanceLifecycle::VictoryReward);
    }
    assert!(room.tick());
    assert_eq!(room.state, InstanceLifecycle::PendingCleanup);
    assert!(!room.tick());
}
