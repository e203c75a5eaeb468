use eidolon::error::{WorldError, ZoneId};
use eidolon::reconstruction::{
    decode_position_payload, encode_position_payload, reconstruct_zone_from_wal, CheckpointEntity,
    ZoneCheckpoint,
};
use eidolon::tier::FIXED_ONE;
use eidolon::wal::{WalRecord, OP_ENTITY_DESPAWN, OP_ENTITY_SPAWN, OP_ENTITY_TRANSFORM};
use eidolon::zone::FixedVec3;

fn pos(x: i64, y: i64, z: i64) -> FixedVec3 {
    FixedVec3 { x: x * FIXED_ONE, y: y * FIXED_ONE, z: z * FIXED_ONE }
}

#[test]
fn position_payload_layout_is_big_endian_raw_components() {
    let p = FixedVec3 { x: 1, y: -1, z: 0x0102_0304_0506_0708 };
    let buf = encode_position_payload(p);
    assert_eq!(&buf[0..8], &[0, 0, 0, 0, 0, 0, 0, 1]);
    assert_eq!(&buf[8..16], &[0xFF; 8]);
    assert_eq!(&buf[16..24], &[1, 2, 3, 4, 5, 6, 7, 8]);
    assert_eq!(decode_position_payload(&buf), Ok(p));
}

#[test]
fn position_payload_travels_in_a_wal_record() {
    let pos3 = pos(150, 0, 150);
    let rec = WalRecord::new(11, 51, 1003, 103, OP_ENTITY_SPAWN, &encode_position_payload(pos3))
        .unwrap();
    let decoded =
        decode_position_payload(&rec.payload[..rec.payload_len as usize]).unwrap();
    assert_eq!(decoded, pos3);
    let negative = pos(-75, -3, 75);
    assert_eq!(
        decode_position_payload(&encode_position_payload(negative)),
        Ok(negative)
    );
}

#[test]
fn short_position_payload_is_corrupt() {
    assert_eq!(
        decode_position_payload(&[0u8; 23]),
        Err(WorldError::WalCorruptedRecord("Position payload buffer too short"))
    );
    let mut longer = encode_position_payload(pos(1, 2, 3)).to_vec();
    longer.extend_from_slice(&[9, 9, 9]);
    assert_eq!(decode_position_payload(&longer), Ok(pos(1, 2, 3)));
}

fn checkpoint(zone: u32, last_lsn: u64, entities: Vec<CheckpointEntity>) -> ZoneCheckpoint {
    ZoneCheckpoint { zone_id: ZoneId(zone), checkpoint_tick: 50, last_lsn, entities }
}

#[test]
fn test_zone_crash_reconstruction_parity() {
    let pos1 = pos(50, 0, 50);
    let pos2 = pos(100, 0, 100);
    let cp = checkpoint(
        1,
        10,
        vec![
            CheckpointEntity { entity_id: 101, position: pos1 },
            CheckpointEntity { entity_id: 102, position: pos2 },
        ],
    );
    assert_eq!(cp.entities.len(), 2);
    let pos3 = pos(150, 0, 150);
    let rec11 = WalRecord::new(11, 51, 1003, 103, OP_ENTITY_SPAWN, &encode_position_payload(pos3)).unwrap();
    let pos1_new = pos(75, 0, 75);
    let rec12 =
        WalRecord::new(12, 52, 1001, 101, OP_ENTITY_TRANSFORM, &encode_position_payload(pos1_new)).unwrap();
    let rec13 = WalRecord::new(13, 53, 1002, 102, OP_ENTITY_DESPAWN, &[]).unwrap();
    let wal_stream = vec![rec11, rec12, rec13];
    let reconstructed = reconstruct_zone_from_wal(&cp, 256, &wal_stream)
        .expect("Zone reconstruction must succeed");
    assert_eq!(reconstructed.get_position(101), Some(pos1_new));
    assert_eq!(reconstructed.get_position(102), None);
    assert_eq!(reconstructed.get_position(103), Some(pos3));
    assert_eq!(reconstructed.active_count(), 2);
}

#[test]
fn test_milestone_9_4_disposable_zone_crash_reconstruction_sigkill() {
    let mut entities = Vec::new();
    for id in 1u32..=50u32 {
        entities.push(CheckpointEntity { entity_id: id, position: pos(id as i64 * 10, 0, id as i64 * 10) });
    }
    let cp = checkpoint(10, 500, entities);
    assert_eq!(cp.entities.len(), 50);
    let mut wal_log = Vec::new();
    for id in 1u32..=5u32 {
        wal_log.push(WalRecord::new(500 + id as u64, 1001, 1000 + id as u64, id, OP_ENTITY_DESPAWN, &[]).unwrap());
    }
    for id in 6u32..=10u32 {
        let p = pos(id as i64 * 20, 5, id as i64 * 20);
        wal_log.push(
            WalRecord::new(505 + (id - 5) as u64, 1005, 1000 + id as u64, id, OP_ENTITY_TRANSFORM, &encode_position_payload(p))
                .unwrap(),
        );
    }
    for id in 51u32..=55u32 {
        let p = pos(id as i64 * 10, 0, id as i64 * 10);
        wal_log.push(
            WalRecord::new(510 + (id - 50) as u64, 1010, 2000 + id as u64, id, OP_ENTITY_SPAWN, &encode_position_payload(p))
                .unwrap(),
        );
    }
    let z = reconstruct_zone_from_wal(&cp, 1024, &wal_log)
        .expect("Reconstruction from checkpoint + WAL must succeed");
    for id in 1u32..=5u32 {
        assert!(z.get_position(id).is_none(), "Entity {id} should have been despawned");
    }
    for id in 6u32..=10u32 {
        assert_eq!(z.get_position(id), Some(pos(id as i64 * 20, 5, id as i64 * 20)));
    }
    for id in 11u32..=55u32 {
        assert_eq!(z.get_position(id), Some(pos(id as i64 * 10, 0, id as i64 * 10)));
    }
    assert_eq!(z.active_count(), 50);
}

#[test]
fn reconstruction_refusals() {
    let cp = checkpoint(3, 10, vec![CheckpointEntity { entity_id: 1, position: pos(1, 0, 1) }]);
    // Records at or below the checkpoint are skipped.
    let old = WalRecord::new(9, 1, 1, 1, OP_ENTITY_DESPAWN, &[]).unwrap();
    let z = reconstruct_zone_from_wal(&cp, 8, &[old]).unwrap();
    assert_eq!(z.active_count(), 1);
    // A gap in the sequence.
    let gap = WalRecord::new(12, 1, 1, 1, OP_ENTITY_DESPAWN, &[]).unwrap();
    assert_eq!(
        reconstruct_zone_from_wal(&cp, 8, &[gap]).err(),
        Some(WorldError::WalLsnRegression { current: 11, incoming: 12 })
    );
    // Spawning beyond capacity or twice.
    let far = WalRecord::new(11, 1, 1, 9, OP_ENTITY_SPAWN, &encode_position_payload(pos(0, 0, 0))).unwrap();
    assert_eq!(reconstruct_zone_from_wal(&cp, 8, &[far]).err(), Some(WorldError::ZoneFull(ZoneId(3))));
    // Moving an absent entity.
    let mv = WalRecord::new(11, 1, 1, 2, OP_ENTITY_TRANSFORM, &encode_position_payload(pos(0, 0, 0))).unwrap();
    assert_eq!(reconstruct_zone_from_wal(&cp, 8, &[mv]).err(), Some(WorldError::EntityNotFound(2)));
    // A truncated position payload.
    let short = WalRecord::new(11, 1, 1, 2, OP_ENTITY_SPAWN, &[0u8; 10]).unwrap();
    assert_eq!(
        reconstruct_zone_from_wal(&cp, 8, &[short]).err(),
        Some(WorldError::WalCorruptedRecord("Position payload buffer too short"))
    );
}
