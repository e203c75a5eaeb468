use eidolon::item_transaction::{
    validate_transfer, ContainerView, ItemTransactionCoordinator, MAX_TX_DEDUP_CAPACITY, ItemTransactionError, ItemTransferIntent, SlotItemView,
    SlotView,
};

fn intent(target_slot: Option<u16>, quantity: u32) -> ItemTransferIntent {
    ItemTransferIntent {
        transaction_id: 1,
        source_container_id: 10,
        source_slot: 0,
        item_instance_id: 500,
        target_container_id: 20,
        target_slot,
        quantity,
        item_weight_grams: 100,
    }
}

fn bag(owner_id: u64, free: usize) -> ContainerView {
    ContainerView { owner_id, current_weight_grams: 0, max_weight_grams: 1000, free_slot_count: free }
}

fn holding(soulbound: bool) -> SlotView {
    SlotView {
        is_locked: false,
        item: Some(SlotItemView {
            instance_id: 500,
            quantity: 5,
            is_soulbound: soulbound,
            nested_container_id: None,
        }),
    }
}

#[test]
fn transfer_validation_accepts_a_plain_move() {
    let i = intent(None, 5);
    assert_eq!(
        validate_transfer(&i, false, Some(bag(1, 4)), Some(bag(2, 4)), Some(holding(false)), None),
        Ok(())
    );
}

#[test]
fn transfer_validation_refusals_in_order() {
    let i = intent(None, 5);
    assert_eq!(
        validate_transfer(&i, true, Some(bag(1, 4)), Some(bag(2, 4)), Some(holding(false)), None),
        Err(ItemTransactionError::DuplicateTransactionId)
    );
    assert_eq!(
        validate_transfer(&i, false, None, Some(bag(2, 4)), Some(holding(false)), None),
        Err(ItemTransactionError::SourceContainerNotFound)
    );
    assert_eq!(
        validate_transfer(&i, false, Some(bag(1, 4)), None, Some(holding(false)), None),
        Err(ItemTransactionError::TargetContainerNotFound)
    );
    assert_eq!(
        validate_transfer(&intent(None, 6), false, Some(bag(1, 4)), Some(bag(2, 4)), Some(holding(false)), None),
        Err(ItemTransactionError::InsufficientQuantity)
    );
    assert_eq!(
        validate_transfer(&i, false, Some(bag(1, 4)), Some(bag(2, 4)), Some(holding(true)), None),
        Err(ItemTransactionError::SoulboundItemUntransferable)
    );
    assert_eq!(
        validate_transfer(&i, false, Some(bag(2, 4)), Some(bag(2, 4)), Some(holding(true)), None),
        Ok(())
    );
    let heavy = ContainerView { current_weight_grams: 950, ..bag(2, 4) };
    assert_eq!(
        validate_transfer(&i, false, Some(bag(1, 4)), Some(heavy), Some(holding(false)), None),
        Err(ItemTransactionError::TargetWeightLimitExceeded)
    );
    assert_eq!(
        validate_transfer(&i, false, Some(bag(1, 4)), Some(bag(2, 0)), Some(holding(false)), None),
        Err(ItemTransactionError::TargetContainerFull)
    );
    let occupied = holding(false);
    assert_eq!(
        validate_transfer(&intent(Some(3), 5), false, Some(bag(1, 4)), Some(bag(2, 4)), Some(holding(false)), Some(occupied)),
        Err(ItemTransactionError::TargetSlotNotEmpty)
    );
    let locked = SlotView { is_locked: true, item: None };
    assert_eq!(
        validate_transfer(&i, false, Some(bag(1, 4)), Some(bag(2, 4)), Some(locked), None),
        Err(ItemTransactionError::SlotLocked)
    );
}

#[test]
fn dedup_ring_remembers_recent_transactions() {
    let mut c = ItemTransactionCoordinator::new();
    // The ring starts zeroed, so transaction 0 counts as processed.
    assert!(c.is_transaction_processed(0));
    assert!(!c.is_transaction_processed(77));
    c.record_transaction(77);
    assert!(c.is_transaction_processed(77));
    for id in 1000..(1000 + MAX_TX_DEDUP_CAPACITY as u64 - 1) {
        c.record_transaction(id);
    }
    assert!(c.is_transaction_processed(77));
    c.record_transaction(5);
    assert!(!c.is_transaction_processed(77));
    assert_eq!(c.allocate_instance_id(), 100_000);
    assert_eq!(c.allocate_instance_id(), 100_001);
}

#[test]
fn prepare_transfer_refuses_a_committed_transaction() {
    let mut c = ItemTransactionCoordinator::new();
    let i = intent(None, 5);
    assert_eq!(
        c.prepare_transfer(&i, Some(bag(1, 4)), Some(bag(2, 4)), Some(holding(false)), None),
        Ok(())
    );
    c.record_transaction(i.transaction_id);
    assert_eq!(
        c.prepare_transfer(&i, Some(bag(1, 4)), Some(bag(2, 4)), Some(holding(false)), None),
        Err(ItemTransactionError::DuplicateTransactionId)
    );
}
