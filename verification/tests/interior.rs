use eidolon::error::WorldError;
use eidolon::interior::{
    InteriorCell, InteriorCellManager, InteriorItemRecord, MAX_INTERIOR_ITEMS_PER_BUILDING,
};

#[test]
fn test_interior_cell_lifecycle_and_pocket_dimension_isolation() {
    let mut mgr = InteriorCellManager::new();
    let cell_id = mgr.create_cell(101, 5555);

    // Outside player (entity 1) is not inside
    assert!(!mgr.is_inside_interior(1));
    assert_eq!(mgr.get_entity_cell(1), None);

    // Add 3 decorative items into interior cell
    for i in 1..=3 {
        let item = InteriorItemRecord {
            item_instance_id: i,
            item_type_id: 100 + i,
            local_x_mm: (i as i16) * 500,
            local_y_mm: 0,
            local_z_mm: (i as i16) * 1000,
            local_yaw: 0,
            flags: 0,
        };
        mgr.place_item(cell_id, item).expect("Place item");
    }

    assert_eq!(mgr.item_count(cell_id), 3);

    // Outside players walking by receive 0 items (isolation)
    // Only when player enters the cell do they get access to interior state
    mgr.enter_cell(1, cell_id).expect("Enter cell");
    assert!(mgr.is_inside_interior(1));
    assert_eq!(mgr.get_entity_cell(1), Some(cell_id));

    // Serialize scene manifest for entering player (3 items * 16 bytes = 48 bytes)
    let mut manifest_buf = [0u8; 128];
    let bytes_written = mgr
        .build_scene_manifest(cell_id, &mut manifest_buf)
        .expect("Build manifest");
    assert_eq!(bytes_written, 48);

    // Verify decoded item records
    let item1 = InteriorItemRecord::read_from(&manifest_buf[0..16]).expect("Decode item 1");
    assert_eq!(item1.item_instance_id, 1);
    assert_eq!(item1.item_type_id, 101);

    // Player exits cell
    let exited = mgr.exit_cell(1).expect("Exit cell");
    assert_eq!(exited, cell_id);
    assert!(!mgr.is_inside_interior(1));
}

#[test]
fn test_interior_cell_capacity_limit() {
    let mut cell = InteriorCell::new(1, 10, 100);

    // Test boundary capacity (mock filling to max items)
    for i in 0..MAX_INTERIOR_ITEMS_PER_BUILDING {
        let item = InteriorItemRecord {
            item_instance_id: i as u32,
            item_type_id: 1,
            local_x_mm: 0,
            local_y_mm: 0,
            local_z_mm: 0,
            local_yaw: 0,
            flags: 0,
        };
        assert!(cell.place_item(item).is_ok());
    }

    assert_eq!(cell.item_count(), MAX_INTERIOR_ITEMS_PER_BUILDING);

    // 3001st item should be rejected with InteriorCellFull
    let overflow_item = InteriorItemRecord {
        item_instance_id: 999999,
        item_type_id: 1,
        local_x_mm: 0,
        local_y_mm: 0,
        local_z_mm: 0,
        local_yaw: 0,
        flags: 0,
    };
    assert_eq!(
        cell.place_item(overflow_item),
        Err(WorldError::InteriorCellFull)
    );
}

fn record(id: u32, x: i16) -> InteriorItemRecord {
    InteriorItemRecord {
        item_instance_id: id,
        item_type_id: 7,
        local_x_mm: x,
        local_y_mm: -2,
        local_z_mm: 300,
        local_yaw: 9,
        flags: 1,
    }
}

#[test]
fn interior_item_bytes_are_big_endian_and_round_trip() {
    let r = InteriorItemRecord {
        item_instance_id: 0x0102_0304,
        item_type_id: 0x0A0B_0C0D,
        local_x_mm: -1,
        local_y_mm: 0x0102,
        local_z_mm: -300,
        local_yaw: 200,
        flags: 3,
    };
    let mut buf = [0xEEu8; 18];
    r.write_to(&mut buf).unwrap();
    assert_eq!(
        buf,
        [1, 2, 3, 4, 10, 11, 12, 13, 0xFF, 0xFF, 1, 2, 0xFE, 0xD4, 200, 3, 0xEE, 0xEE]
    );
    assert_eq!(InteriorItemRecord::read_from(&buf), Ok(r));
    let mut short = [0u8; 15];
    assert!(r.write_to(&mut short).is_err());
    assert_eq!(short, [0u8; 15]);
    assert!(InteriorItemRecord::read_from(&buf[..15]).is_err());
}

#[test]
fn full_room_still_replaces_existing_item() {
    let mut cell = InteriorCell::new(1, 10, 100);
    for i in 0..MAX_INTERIOR_ITEMS_PER_BUILDING as u32 {
        cell.place_item(record(i, 0)).unwrap();
    }
    assert!(cell.place_item(record(5, 77)).is_ok());
    assert_eq!(cell.items.get(&5).unwrap().local_x_mm, 77);
    assert_eq!(cell.item_count(), MAX_INTERIOR_ITEMS_PER_BUILDING);
}

#[test]
fn manifest_is_written_in_ascending_item_order() {
    let mut cell = InteriorCell::new(3, 4, 5);
    cell.place_item(record(30, 3)).unwrap();
    cell.place_item(record(10, 1)).unwrap();
    cell.place_item(record(20, 2)).unwrap();
    let mut buf = [0xAAu8; 50];
    assert_eq!(cell.serialize_manifest(&mut buf), Ok(48));
    for (k, id) in [10u32, 20, 30].iter().enumerate() {
        let r = InteriorItemRecord::read_from(&buf[16 * k..16 * k + 16]).unwrap();
        assert_eq!(r, record(*id, (k + 1) as i16));
    }
    assert_eq!(&buf[48..], &[0xAA, 0xAA]);
    let mut small = [0u8; 47];
    assert!(cell.serialize_manifest(&mut small).is_err());
    assert_eq!(small, [0u8; 47]);
}

#[test]
fn removing_items_and_unknown_rooms() {
    let mut mgr = InteriorCellManager::new();
    let c = mgr.create_cell(1, 2);
    assert_eq!(c, 1);
    assert_eq!(mgr.create_cell(1, 2), 2);
    mgr.place_item(c, record(4, 0)).unwrap();
    assert_eq!(mgr.remove_item(c, 4), Ok(record(4, 0)));
    assert_eq!(mgr.remove_item(c, 4), Err(WorldError::ItemNotFound(4)));
    assert_eq!(mgr.remove_item(99, 4), Err(WorldError::InteriorCellNotFound(99)));
    assert_eq!(
        mgr.place_item(99, record(4, 0)),
        Err(WorldError::InteriorCellNotFound(99))
    );
    assert_eq!(mgr.item_count(99), 0);
    let mut buf = [0u8; 4];
    assert_eq!(
        mgr.build_scene_manifest(99, &mut buf),
        Err(WorldError::InteriorCellNotFound(99))
    );
    mgr.place_item(c, record(5, 0)).unwrap();
    assert_eq!(
        mgr.build_scene_manifest(c, &mut buf),
        Err(WorldError::SnapshotCorrupted)
    );
    assert!(mgr.get_cell(c).is_some());
    assert!(mgr.get_cell(99).is_none());
}

#[test]
fn entering_another_room_leaves_the_first_and_destroy_evicts() {
    let mut mgr = InteriorCellManager::new();
    let a = mgr.create_cell(1, 1);
    let b = mgr.create_cell(2, 2);
    assert_eq!(mgr.enter_cell(7, 42), Err(WorldError::InteriorCellNotFound(42)));
    mgr.enter_cell(7, a).unwrap();
    mgr.enter_cell(8, a).unwrap();
    mgr.enter_cell(7, b).unwrap();
    assert!(!mgr.get_cell(a).unwrap().occupants.contains(&7));
    assert!(mgr.get_cell(b).unwrap().occupants.contains(&7));
    assert_eq!(mgr.get_entity_cell(7), Some(b));
    assert_eq!(mgr.destroy_cell(a), Ok(()));
    assert!(!mgr.is_inside_interior(8));
    assert!(mgr.is_inside_interior(7));
    assert_eq!(mgr.destroy_cell(a), Err(WorldError::InteriorCellNotFound(a)));
    assert_eq!(mgr.exit_cell(8), Err(WorldError::EntityNotFound(8)));
    assert_eq!(mgr.exit_cell(7), Ok(b));
    assert!(mgr.get_cell(b).unwrap().occupants.is_empty());
}

#[test]
fn default_manager_numbers_rooms_from_zero() {
    let mut mgr = InteriorCellManager::default();
    assert_eq!(mgr.create_cell(1, 1), 0);
    assert_eq!(mgr.create_cell(1, 1), 1);
}
