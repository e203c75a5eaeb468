use eidolon::threat::ThreatTable;

#[test]
fn test_threat_table_insertion_and_top_threat() {
    let mut table = ThreatTable::new();
    table.add_threat(101, 500, true, 1);
    table.add_threat(102, 800, true, 1);
    table.add_threat(103, 300, true, 1);

    assert_eq!(table.len(), 3);
    let (top_id, top_threat) = table.get_top_threat().unwrap();
    assert_eq!(top_id, 102);
    assert_eq!(top_threat, 800);
}

#[test]
fn test_target_switching_hysteresis_melee() {
    let mut table = ThreatTable::new();
    table.add_threat(101, 1000, true, 1);
    table.add_threat(102, 1050, true, 1);

    let target = table.select_target(Some(101), true, 1);
    assert_eq!(target, Some(101));

    table.add_threat(102, 70, true, 2);
    let target_switched = table.select_target(Some(101), true, 2);
    assert_eq!(target_switched, Some(102));
}

#[test]
fn test_taunt_lock_overrides_threat() {
    let mut table = ThreatTable::new();
    table.add_threat(101, 5000, true, 1);
    table.add_threat(102, 1000, true, 1);

    table.apply_taunt(102, 5, 1);

    assert_eq!(table.select_target(Some(101), true, 3), Some(102));
    assert_eq!(table.select_target(Some(102), true, 7), Some(101));
}

#[test]
fn test_clear_resets_threat() {
    let mut table = ThreatTable::new();
    table.add_threat(101, 1000, true, 1);
    table.clear();
    assert!(table.is_empty());
    assert_eq!(table.get_top_threat(), None);
}

#[test]
fn ranged_hysteresis_requires_130_percent() {
    let mut table = ThreatTable::new();
    table.add_threat(1, 1000, true, 1);
    table.add_threat(2, 1250, true, 1);
    assert_eq!(table.select_target(Some(1), false, 1), Some(1));
    table.add_threat(2, 50, true, 1);
    assert_eq!(table.select_target(Some(1), false, 1), Some(2));
}

#[test]
fn full_table_replaces_lowest_only_with_higher_threat() {
    let mut table = ThreatTable::new();
    for id in 0..16u64 {
        table.add_threat(id, 100 + id as u32, true, 1);
    }
    assert_eq!(table.len(), 16);
    // lower than the minimum (100): ignored
    table.add_threat(99, 50, true, 1);
    assert_eq!(table.select_target(Some(99), true, 1), Some(15));
    // higher than the minimum: replaces attacker 0
    table.add_threat(77, 5000, false, 1);
    assert_eq!(table.get_top_threat(), Some((77, 5000)));
    assert_eq!(table.len(), 16);
}

#[test]
fn decay_and_stale_purge() {
    let mut table = ThreatTable::new();
    table.add_threat(1, 1000, true, 10);
    table.add_threat(2, 400, false, 50);
    table.decay_threat(25);
    assert_eq!(table.get_top_threat(), Some((1, 750)));
    table.decay_threat(250);
    assert_eq!(table.get_top_threat(), Some((1, 0)));
    table.decay_stale_threat(20, 40);
    assert_eq!(table.len(), 1);
    assert_eq!(table.get_top_threat(), Some((2, 0)));
}

#[test]
fn removing_taunter_clears_taunt() {
    let mut table = ThreatTable::new();
    table.add_threat(1, 10, true, 1);
    table.apply_taunt(2, 100, 1);
    assert_eq!(table.len(), 2);
    table.remove_entity(2);
    assert_eq!(table.len(), 1);
    assert_eq!(table.select_target(None, true, 5), Some(1));
}
