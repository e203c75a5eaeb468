use eidolon::sector_parallel::{
    SectorBucket, SectorCoord, SectorJob, SectorMigration, SectorParallelCoordinator,
};
use eidolon::zone::FixedVec3;

#[test]
fn test_sector_job_packing_and_unpacking() {
    let job = SectorJob::new(SectorCoord::new(-42, 108), 256, 16);
    let packed = job.pack();
    let unpacked = SectorJob::unpack(packed);

    assert_eq!(unpacked.sector.x, -42);
    assert_eq!(unpacked.sector.z, 108);
    assert_eq!(unpacked.start_idx, 256);
    assert_eq!(unpacked.count, 16);
}

#[test]
fn sector_job_packed_layout() {
    let job = SectorJob::new(SectorCoord::new(-1, 2), 3, 4);
    assert_eq!(job.pack(), 0x0004_0003_0002_FFFF);
    assert_eq!(SectorJob::unpack(u64::MAX), SectorJob::new(SectorCoord::new(-1, -1), u16::MAX, u16::MAX));
    assert_eq!(SectorJob::unpack(0x0004_0003_0002_FFFF).pack(), 0x0004_0003_0002_FFFF);
}

#[test]
fn sector_registry_assigns_without_duplicates() {
    let mut coordinator = SectorParallelCoordinator::new(100);
    assert_eq!(coordinator.max_entities(), 100);
    let a = SectorCoord::new(0, 0);
    let b = SectorCoord::new(1, 0);
    coordinator.add_sector(a, 8);
    coordinator.add_sector(a, 8);
    assert_eq!(coordinator.sector_count(), 1);
    assert_eq!(coordinator.assign_entity(7, a), Ok(a));
    assert_eq!(coordinator.assign_entity(7, a), Ok(a));
    assert_eq!(coordinator.assign_entity(8, a), Ok(a));
    assert_eq!(coordinator.sector_entity_count(a), 2);
    assert_eq!(coordinator.assign_entity(9, b), Ok(b));
    assert_eq!(coordinator.sector_count(), 2);
    assert_eq!(coordinator.sector_entity_count(b), 1);
    assert_eq!(coordinator.sector_entity_count(SectorCoord::new(5, 5)), 0);
    let bucket = SectorBucket::with_capacity(b, 4);
    assert!(bucket.entity_ids.is_empty());
    assert_eq!(bucket.coord, b);
}

#[test]
fn barrier_resolves_migrations_in_entity_order() {
    let a = SectorCoord::new(0, 0);
    let b = SectorCoord::new(1, 0);
    let c = SectorCoord::new(2, 0);
    let mut coord = SectorParallelCoordinator::new(100);
    coord.assign_entity(7, a).unwrap();
    coord.assign_entity(3, a).unwrap();
    coord.assign_entity(9, b).unwrap();
    let mig = |entity_id: u32, old_sector: SectorCoord, new_sector: SectorCoord| SectorMigration {
        entity_id,
        old_sector,
        new_sector,
        new_position: FixedVec3::default(),
    };
    coord.resolve_migrations(vec![mig(9, b, a), mig(3, a, c), mig(7, a, b)]);
    let order: Vec<u32> = coord.migrations().iter().map(|m| m.entity_id).collect();
    assert_eq!(order, vec![3, 7, 9]);
    assert_eq!(coord.sector_entity_count(a), 1);
    assert_eq!(coord.sector_entity_count(b), 1);
    assert_eq!(coord.sector_entity_count(c), 1);
    assert_eq!(coord.sector_count(), 3);
}
