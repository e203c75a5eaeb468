use eidolon::durable_journal::CommitDurability;
use eidolon::error::WorldError;
use eidolon::transaction::{
    AccountState, InventoryItem, LockToken, TransactionManager, TransactionOp, TransactionStatus,
    LOCK_INVENTORY, LOCK_WALLET,
};
use eidolon::wal::{MockDurableStorage, WriteAheadJournal};

#[test]
fn account_currency_debit_and_credit() {
    let mut acc = AccountState::new(5);
    assert_eq!(acc.state_version, 1);
    acc.credit_currency(100, true);
    acc.credit_currency(40, false);
    assert_eq!(acc.premium_currency, 100);
    assert_eq!(acc.free_currency, 40);
    assert_eq!(acc.state_version, 3);
    assert_eq!(
        acc.debit_currency(150, true),
        Err(WorldError::InsufficientBalance { required: 150, actual: 100 })
    );
    assert_eq!(acc.state_version, 3);
    assert_eq!(acc.debit_currency(60, true), Ok(()));
    assert_eq!(acc.premium_currency, 40);
    assert_eq!(acc.state_version, 4);
    acc.credit_currency(u64::MAX, false);
    assert_eq!(acc.free_currency, u64::MAX);
}

#[test]
fn account_inventory_stacks_and_removes() {
    let mut acc = AccountState::new(1);
    acc.add_item(10, 5).unwrap();
    acc.add_item(11, 1).unwrap();
    acc.add_item(10, 3).unwrap();
    assert_eq!(acc.inventory[0], Some(InventoryItem { item_id: 10, quantity: 8 }));
    assert_eq!(acc.inventory[1], Some(InventoryItem { item_id: 11, quantity: 1 }));
    assert_eq!(
        acc.remove_item(10, 9),
        Err(WorldError::InsufficientBalance { required: 9, actual: 8 })
    );
    assert_eq!(acc.remove_item(12, 1), Err(WorldError::ItemNotFound(12)));
    acc.remove_item(10, 8).unwrap();
    assert_eq!(acc.inventory[0], None);
    // The freed slot is reused first.
    acc.add_item(13, 2).unwrap();
    assert_eq!(acc.inventory[0], Some(InventoryItem { item_id: 13, quantity: 2 }));
    for id in 100..162 {
        acc.add_item(id, 1).unwrap();
    }
    assert!(matches!(acc.add_item(999, 1), Err(WorldError::TransactionAborted(_))));
}

#[test]
fn transaction_enums_compare() {
    let op = TransactionOp::CurrencySpend { account_id: 1, amount: 2, is_premium: true };
    assert_eq!(op, TransactionOp::CurrencySpend { account_id: 1, amount: 2, is_premium: true });
    assert_ne!(TransactionStatus::Committed { lsn: 1 }, TransactionStatus::Aborted);
}

fn wallet(account_id: u64) -> LockToken {
    LockToken { account_id, lock_id: LOCK_WALLET }
}

fn new_journal() -> WriteAheadJournal<64, MockDurableStorage> {
    WriteAheadJournal::<64, MockDurableStorage>::new(MockDurableStorage::new())
}

#[test]
fn test_currency_spend_double_spend_prevention() {
    let mut manager = TransactionManager::new();
    let mut account = AccountState::new(1001);
    account.premium_currency = 1000;
    manager.register_account(account);
    let mut journal = new_journal();
    let token = wallet(1001);
    let spend = TransactionOp::CurrencySpend { account_id: 1001, amount: 700, is_premium: true };

    // First spend 700: succeeds (leaves 300)
    let lsn1 = manager
        .execute_transaction(1, spend, Ok(()), &token, 12, &mut journal)
        .expect("Spend 700 must succeed");
    assert_eq!(lsn1, 1);
    assert_eq!(manager.get_account(1001).unwrap().premium_currency, 300);

    // A second spend of 700 with the same balance must be rejected with InsufficientBalance
    let err = manager
        .execute_transaction(2, spend, Ok(()), &token, 12, &mut journal)
        .expect_err("Double spend must be rejected");
    match err {
        WorldError::InsufficientBalance { required, actual } => {
            assert_eq!(required, 700);
            assert_eq!(actual, 300);
        }
        other => panic!("Expected InsufficientBalance, got {other:?}"),
    }
    assert_eq!(manager.get_account(1001).unwrap().premium_currency, 300);
}

#[test]
fn test_stale_session_write_fencing() {
    let mut manager = TransactionManager::new();
    let mut account = AccountState::new(2001);
    account.free_currency = 500;
    manager.register_account(account);
    let mut journal = new_journal();

    // The registry refused the old session 100's token: session 200 holds the lock now.
    let err = manager
        .execute_transaction(
            1,
            TransactionOp::CurrencySpend { account_id: 2001, amount: 100, is_premium: false },
            Err((200, 100)),
            &wallet(2001),
            16,
            &mut journal,
        )
        .expect_err("Stale session mutation must be rejected");
    match err {
        WorldError::StaleSessionMutation { expected, actual } => {
            assert_eq!(expected, 200);
            assert_eq!(actual, 100);
        }
        other => panic!("Expected StaleSessionMutation, got {other:?}"),
    }
    assert_eq!(manager.get_account(2001).unwrap().free_currency, 500);
}

#[test]
fn test_duplicate_transaction_deduplication() {
    let mut manager = TransactionManager::new();
    let mut account = AccountState::new(3001);
    account.free_currency = 1000;
    manager.register_account(account);
    let mut journal = new_journal();
    let token = wallet(3001);
    let spend = TransactionOp::CurrencySpend { account_id: 3001, amount: 100, is_premium: false };

    manager.execute_transaction(9999, spend, Ok(()), &token, 2, &mut journal).unwrap();
    let err = manager
        .execute_transaction(9999, spend, Ok(()), &token, 3, &mut journal)
        .expect_err("Duplicate tx must be rejected");
    assert_eq!(err, WorldError::DuplicateTransaction(9999));
    assert_eq!(manager.get_account(3001).unwrap().free_currency, 900);
}

#[test]
fn transfers_move_currency_and_items_and_journal_them() {
    let mut manager = TransactionManager::default();
    let mut a = AccountState::new(1);
    a.free_currency = 50;
    a.add_item(77, 5).unwrap();
    manager.register_account(a);
    manager.register_account(AccountState::new(2));
    let mut journal = new_journal();

    let lsn = manager
        .execute_transaction(
            10,
            TransactionOp::CurrencyTransfer { from_account: 1, to_account: 2, amount: 20, is_premium: false },
            Ok(()),
            &wallet(1),
            5,
            &mut journal,
        )
        .unwrap();
    assert_eq!(lsn, 1);
    assert_eq!(manager.get_account(1).unwrap().free_currency, 30);
    assert_eq!(manager.get_account(2).unwrap().free_currency, 20);

    let inv_token = LockToken { account_id: 1, lock_id: LOCK_INVENTORY };
    let lsn = manager
        .execute_transaction(
            11,
            TransactionOp::ItemTransfer { from_account: 1, to_account: 2, item_id: 77, quantity: 3 },
            Ok(()),
            &inv_token,
            6,
            &mut journal,
        )
        .unwrap();
    assert_eq!(lsn, 2);
    assert_eq!(manager.get_account(1).unwrap().inventory[0], Some(InventoryItem { item_id: 77, quantity: 2 }));
    assert_eq!(manager.get_account(2).unwrap().inventory[0], Some(InventoryItem { item_id: 77, quantity: 3 }));
    assert!(!manager.is_transaction_durable(11, &journal));
    journal.flush_pending().unwrap();
    assert!(manager.is_transaction_durable(11, &journal));

    // Wrong lock kind, self transfer, unknown target.
    assert_eq!(
        manager.execute_transaction(
            12,
            TransactionOp::ItemTransfer { from_account: 1, to_account: 2, item_id: 77, quantity: 1 },
            Ok(()),
            &wallet(1),
            7,
            &mut journal,
        ),
        Err(WorldError::TransactionAborted("Invalid inventory lock token"))
    );
    assert_eq!(
        manager.execute_transaction(
            13,
            TransactionOp::CurrencyTransfer { from_account: 1, to_account: 1, amount: 1, is_premium: false },
            Ok(()),
            &wallet(1),
            7,
            &mut journal,
        ),
        Err(WorldError::TransactionAborted("Cannot transfer to self"))
    );
    assert_eq!(
        manager.execute_transaction(
            14,
            TransactionOp::CurrencyTransfer { from_account: 1, to_account: 9, amount: 1, is_premium: false },
            Ok(()),
            &wallet(1),
            7,
            &mut journal,
        ),
        Err(WorldError::TransactionAborted("Target account not registered"))
    );
    // Durable variant flushes before acknowledging.
    let lsn = manager
        .execute_transaction_with_durability(
            15,
            TransactionOp::CurrencySpend { account_id: 1, amount: 1, is_premium: false },
            Ok(()),
            &wallet(1),
            8,
            &mut journal,
            CommitDurability::LocalDiskFsync,
        )
        .unwrap();
    assert!(journal.is_flushed(lsn));
    assert!(manager.is_transaction_durable(15, &journal));
}

#[test]
fn full_journal_rolls_back_the_operation() {
    let mut mgr = TransactionManager::new();
    let mut acc = AccountState::new(7);
    acc.credit_currency(100, false);
    let version = acc.state_version;
    mgr.register_account(acc);
    let mut journal = WriteAheadJournal::<1, MockDurableStorage>::new(MockDurableStorage::new());
    assert!(journal.append(1, 99, 0, 1, &[1, 2]).is_ok());
    let op = TransactionOp::CurrencySpend { account_id: 7, amount: 30, is_premium: false };
    assert_eq!(
        mgr.execute_transaction(1, op, Ok(()), &wallet(7), 5, &mut journal),
        Err(WorldError::WalBufferFull)
    );
    let a = mgr.get_account(7).unwrap();
    assert_eq!(a.free_currency, 100);
    assert_eq!(a.state_version, version);
    // The refused transaction is not recorded, so a retry is not a duplicate.
    assert_eq!(
        mgr.execute_transaction(1, op, Ok(()), &wallet(7), 5, &mut journal),
        Err(WorldError::WalBufferFull)
    );
}
