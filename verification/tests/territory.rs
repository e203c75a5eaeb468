use eidolon::territory::{
    TerritoryError, TerritoryManager, TerritoryPlot, TERRITORY_PERM_ACCESS_CONTAINERS,
    TERRITORY_PERM_BUILD, TERRITORY_PERM_ENTER, TERRITORY_PERM_USE_PORTALS,
};

// The claim-and-permission scenario; plots carry no float bounds here.
#[test]
fn test_territory_claim_and_acl_permissions() {
    let mut manager = TerritoryManager::new();
    let plot = TerritoryPlot::new(100, 0, 0);
    manager.register_plot(plot);

    manager.claim_plot(100, 42, 1000, 10).unwrap();

    let plot = manager.get_plot(100).unwrap();
    assert!(plot.is_claim_active(10));

    assert!(plot.has_permission(Some(42), false, TERRITORY_PERM_BUILD, 10));
    assert!(plot.has_permission(Some(42), false, TERRITORY_PERM_ACCESS_CONTAINERS, 10));

    assert!(plot.has_permission(Some(99), true, TERRITORY_PERM_ENTER, 10));
    assert!(!plot.has_permission(Some(99), true, TERRITORY_PERM_BUILD, 10));
    assert!(!plot.has_permission(Some(99), true, TERRITORY_PERM_ACCESS_CONTAINERS, 10));

    assert!(plot.has_permission(None, false, TERRITORY_PERM_ENTER, 10));
    assert!(!plot.has_permission(None, false, TERRITORY_PERM_BUILD, 10));

    assert!(plot.has_permission(None, false, TERRITORY_PERM_BUILD, 1011));
}

#[test]
fn territory_claim_conflicts_refresh_and_relinquish() {
    let mut manager = TerritoryManager::new();
    manager.register_plot(TerritoryPlot::new(1, 3, 4));
    assert_eq!(manager.claim_plot(1, 7, 0, 0), Err(TerritoryError::InvalidUpkeepDuration));
    assert_eq!(manager.claim_plot(2, 7, 10, 0), Err(TerritoryError::PlotNotFound));
    manager.claim_plot(1, 7, 100, 0).unwrap();
    assert_eq!(manager.claim_plot(1, 8, 100, 50), Err(TerritoryError::PlotAlreadyClaimed));
    // The owner may re-claim, and another guild may claim once the upkeep lapsed.
    manager.claim_plot(1, 7, 10, 50).unwrap();
    assert_eq!(manager.get_plot(1).unwrap().upkeep_expires_tick, 60);
    assert_eq!(manager.refresh_upkeep(1, 8, 10, 55), Err(TerritoryError::PermissionDenied));
    assert_eq!(manager.refresh_upkeep(1, 7, 10, 55), Ok(70));
    assert_eq!(manager.refresh_upkeep(1, 7, 10, 100), Ok(110));
    assert_eq!(manager.refresh_upkeep(9, 7, 10, 100), Err(TerritoryError::PlotNotFound));
    manager.claim_plot(1, 8, u64::MAX, 200).unwrap();
    assert_eq!(manager.get_plot(1).unwrap().upkeep_expires_tick, u64::MAX);
    manager.relinquish_claim(1).unwrap();
    let plot = manager.get_plot(1).unwrap();
    assert_eq!(plot.owning_guild_id, None);
    assert!(!plot.is_claim_active(0));
    assert_eq!(manager.relinquish_claim(5), Err(TerritoryError::PlotNotFound));
    if let Some(p) = manager.get_plot_mut(1) {
        p.public_permissions |= TERRITORY_PERM_USE_PORTALS;
    }
    assert_eq!(
        manager.get_plot(1).unwrap().public_permissions,
        TERRITORY_PERM_ENTER | TERRITORY_PERM_USE_PORTALS
    );
    manager.register_plot(TerritoryPlot::new(1, 9, 9));
    assert_eq!(manager.get_plot(1).unwrap().sector_x, 9);
}
