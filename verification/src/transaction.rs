//! Account state for atomic transactions: currency balances with debit checks and stacked
//! inventory slots.
use vstd::prelude::*;

use crate::byte_order::{be_u32, be_u64, push_u32_be, push_u64_be};
use crate::durable_journal::CommitDurability;
use crate::error::WorldError;
use crate::slots::{first_index, lemma_first_index, lemma_first_index_is, lemma_first_index_none};
use crate::wal::{DurableWalSink, WalRecord, WriteAheadJournal, OP_CURRENCY_DELTA, OP_INVENTORY_MUTATION};
use std::collections::HashMap;

verus! {

/// Inventory slots per account.
pub const MAX_INVENTORY_SLOTS: usize = 64;

/// Recent transaction identifiers kept for deduplication.
pub const MAX_DEDUP_HISTORY: usize = 1024;

/// Lock identifier of wallet operations.
pub const LOCK_WALLET: u32 = 0;

/// Lock identifier of inventory operations.
pub const LOCK_INVENTORY: u32 = 1;

/// An item stack.
#[derive(Debug, Clone, Copy, PartialEq, Eq, Default, Structural)]
pub struct InventoryItem {
    /// Item blueprint identifier.
    pub item_id: u32,
    /// Stack count.
    pub quantity: u32,
}

/// In-memory account state.
#[derive(Debug, Clone, Copy, PartialEq, Eq)]
pub struct AccountState {
    /// Account identifier.
    pub account_id: u64,
    /// Premium currency balance.
    pub premium_currency: u64,
    /// Standard currency balance.
    pub free_currency: u64,
    /// Item slots.
    pub inventory: [Option<InventoryItem>; 64],
    /// Version, raised by every mutation.
    pub state_version: u64,
}

/// Slot predicate: the slot holds a stack of `item_id`.
pub open spec fn holds_item(item_id: u32) -> spec_fn(Option<InventoryItem>) -> bool {
    |s: Option<InventoryItem>| s matches Some(it) && it.item_id == item_id
}

/// Slot predicate: the slot is free.
pub open spec fn empty_slot() -> spec_fn(Option<InventoryItem>) -> bool {
    |s: Option<InventoryItem>| s is None
}

/// Balance of one of the two currencies.
pub open spec fn balance(a: AccountState, is_premium: bool) -> u64 {
    if is_premium {
        a.premium_currency
    } else {
        a.free_currency
    }
}

/// `a` with the balance of the chosen currency set to `v`.
pub open spec fn with_balance(a: AccountState, is_premium: bool, v: u64) -> AccountState {
    if is_premium {
        AccountState { premium_currency: v, ..a }
    } else {
        AccountState { free_currency: v, ..a }
    }
}

impl AccountState {
    /// A new account with no currency, an empty inventory and version 1.
    pub fn new(account_id: u64) -> (a: Self)
        ensures
            a.account_id == account_id,
            a.premium_currency == 0,
            a.free_currency == 0,
            a.inventory@ == Seq::new(64, |i: int| None::<InventoryItem>),
            a.state_version == 1,
    {
        let a = AccountState {
            account_id,
            premium_currency: 0,
            free_currency: 0,
            inventory: [None; 64],
            state_version: 1,
        };
        assert(a.inventory@ =~= Seq::new(64, |i: int| None::<InventoryItem>));
        a
    }

    /// Credits `amount` of the chosen currency (saturating) and raises the version.
    pub fn credit_currency(&mut self, amount: u64, is_premium: bool)
        requires
            old(self).state_version < u64::MAX,
        ensures
            ({
                let b = balance(*old(self), is_premium);
                let nb = if b + amount > u64::MAX { u64::MAX } else { (b + amount) as u64 };
                *final(self) == AccountState {
                    state_version: (old(self).state_version + 1) as u64,
                    ..with_balance(*old(self), is_premium, nb)
                }
            }),
    {
        if is_premium {
            self.premium_currency = self.premium_currency.saturating_add(amount);
        } else {
            self.free_currency = self.free_currency.saturating_add(amount);
        }
        self.state_version = self.state_version + 1;
    }

    /// Debits `amount` of the chosen currency and raises the version; a balance below the
    /// amount is `InsufficientBalance` and leaves the account unchanged.
    pub fn debit_currency(&mut self, amount: u64, is_premium: bool) -> (r: Result<(), WorldError>)
        requires
            balance(*old(self), is_premium) >= amount ==> old(self).state_version < u64::MAX,
        ensures
            ({
                let b = balance(*old(self), is_premium);
                if b < amount {
                    &&& r == Err::<(), WorldError>(
                        WorldError::InsufficientBalance { required: amount, actual: b },
                    )
                    &&& *final(self) == *old(self)
                } else {
                    &&& r is Ok
                    &&& *final(self) == AccountState {
                        state_version: (old(self).state_version + 1) as u64,
                        ..with_balance(*old(self), is_premium, (b - amount) as u64)
                    }
                }
            }),
    {
        if is_premium {
            if self.premium_currency < amount {
                return Err(
                    WorldError::InsufficientBalance { required: amount, actual: self.premium_currency },
                );
            }
            self.premium_currency = self.premium_currency - amount;
        } else {
            if self.free_currency < amount {
                return Err(
                    WorldError::InsufficientBalance { required: amount, actual: self.free_currency },
                );
            }
            self.free_currency = self.free_currency - amount;
        }
        self.state_version = self.state_version + 1;
        Ok(())
    }

    /// Adds `quantity` of `item_id`: onto the first stack of that item (saturating), else into
    /// the first free slot; a full inventory is `TransactionAborted`.
    #[verifier::loop_isolation(false)]
    pub fn add_item(&mut self, item_id: u32, quantity: u32) -> (r: Result<(), WorldError>)
        requires
            first_index(old(self).inventory@, holds_item(item_id)) >= 0 || first_index(
                old(self).inventory@,
                empty_slot(),
            ) >= 0 ==> old(self).state_version < u64::MAX,
        ensures
            final(self).account_id == old(self).account_id,
            final(self).premium_currency == old(self).premium_currency,
            final(self).free_currency == old(self).free_currency,
            ({
                let inv = old(self).inventory@;
                let k = first_index(inv, holds_item(item_id));
                let f = first_index(inv, empty_slot());
                if k >= 0 {
                    let q = inv[k]->0.quantity;
                    let nq = if q + quantity > u32::MAX { u32::MAX } else { (q + quantity) as u32 };
                    &&& r is Ok
                    &&& final(self).inventory@ == inv.update(
                        k,
                        Some(InventoryItem { item_id, quantity: nq }),
                    )
                    &&& final(self).state_version == old(self).state_version + 1
                } else if f >= 0 {
                    &&& r is Ok
                    &&& final(self).inventory@ == inv.update(f, Some(InventoryItem { item_id, quantity }))
                    &&& final(self).state_version == old(self).state_version + 1
                } else {
                    &&& r == Err::<(), WorldError>(WorldError::TransactionAborted("Inventory is full"))
                    &&& final(self).inventory@ == inv
                    &&& final(self).state_version == old(self).state_version
                }
            }),
    {
        let ghost s = self.inventory@;
        let ghost p = holds_item(item_id);
        let ghost q = empty_slot();
        proof {
            lemma_first_index(s, p);
            lemma_first_index(s, q);
        }
        let mut i: usize = 0;
        while i < 64
            invariant
                i <= 64,
                s == self.inventory@,
                *self == *old(self),
                p == holds_item(item_id),
                forall|j: int| 0 <= j < i ==> !p(#[trigger] s[j]),
            decreases 64 - i,
        {
            if let Some(slot) = self.inventory[i] {
                if slot.item_id == item_id {
                    proof {
                        lemma_first_index_is(s, p, i as int);
                    }
                    self.inventory[i] = Some(
                        InventoryItem { item_id, quantity: slot.quantity.saturating_add(quantity) },
                    );
                    self.state_version = self.state_version + 1;
                    return Ok(());
                }
            }
            i = i + 1;
        }
        proof {
            lemma_first_index_none(s, p);
        }
        let mut i: usize = 0;
        while i < 64
            invariant
                i <= 64,
                s == self.inventory@,
                *self == *old(self),
                q == empty_slot(),
                first_index(s, p) == -1,
                forall|j: int| 0 <= j < i ==> !q(#[trigger] s[j]),
            decreases 64 - i,
        {
            if self.inventory[i].is_none() {
                proof {
                    lemma_first_index_is(s, q, i as int);
                }
                self.inventory[i] = Some(InventoryItem { item_id, quantity });
                self.state_version = self.state_version + 1;
                return Ok(());
            }
            i = i + 1;
        }
        proof {
            lemma_first_index_none(s, q);
        }
        Err(WorldError::TransactionAborted("Inventory is full"))
    }

    /// Removes `quantity` from the first stack of `item_id`, freeing the slot when it empties.
    /// A smaller stack is `InsufficientBalance` and a missing item `ItemNotFound`; both leave
    /// the account unchanged.
    #[verifier::loop_isolation(false)]
    pub fn remove_item(&mut self, item_id: u32, quantity: u32) -> (r: Result<(), WorldError>)
        requires
            ({
                let k = first_index(old(self).inventory@, holds_item(item_id));
                k >= 0 && old(self).inventory@[k]->0.quantity >= quantity
            }) ==> old(self).state_version < u64::MAX,
        ensures
            final(self).account_id == old(self).account_id,
            final(self).premium_currency == old(self).premium_currency,
            final(self).free_currency == old(self).free_currency,
            ({
                let inv = old(self).inventory@;
                let k = first_index(inv, holds_item(item_id));
                if k < 0 {
                    &&& r == Err::<(), WorldError>(WorldError::ItemNotFound(item_id))
                    &&& *final(self) == *old(self)
                } else if inv[k]->0.quantity < quantity {
                    &&& r == Err::<(), WorldError>(
                        WorldError::InsufficientBalance {
                            required: quantity as u64,
                            actual: inv[k]->0.quantity as u64,
                        },
                    )
                    &&& *final(self) == *old(self)
                } else {
                    let left = (inv[k]->0.quantity - quantity) as u32;
                    &&& r is Ok
                    &&& final(self).inventory@ == inv.update(
                        k,
                        if left == 0 {
                            None
                        } else {
                            Some(InventoryItem { item_id, quantity: left })
                        },
                    )
                    &&& final(self).state_version == old(self).state_version + 1
                }
            }),
    {
        let ghost s = self.inventory@;
        let ghost p = holds_item(item_id);
        let mut i: usize = 0;
        while i < 64
            invariant
                i <= 64,
                s == self.inventory@,
                *self == *old(self),
                p == holds_item(item_id),
                forall|j: int| 0 <= j < i ==> !p(#[trigger] s[j]),
            decreases 64 - i,
        {
            if let Some(item) = self.inventory[i] {
                if item.item_id == item_id {
                    proof {
                        lemma_first_index_is(s, p, i as int);
                    }
                    if item.quantity < quantity {
                        return Err(
                            WorldError::InsufficientBalance {
                                required: quantity as u64,
                                actual: item.quantity as u64,
                            },
                        );
                    }
                    let left = item.quantity - quantity;
                    if left == 0 {
                        self.inventory[i] = None;
                    } else {
                        self.inventory[i] = Some(InventoryItem { item_id, quantity: left });
                    }
                    self.state_version = self.state_version + 1;
                    return Ok(());
                }
            }
            i = i + 1;
        }
        proof {
            lemma_first_index_none(s, p);
        }
        Err(WorldError::ItemNotFound(item_id))
    }
}

/// Transaction operations.
#[derive(Debug, Clone, Copy, PartialEq, Eq, Structural)]
pub enum TransactionOp {
    /// Currency moved from one account to another.
    CurrencyTransfer {
        /// Account debited.
        from_account: u64,
        /// Account credited.
        to_account: u64,
        /// Amount moved.
        amount: u64,
        /// Whether the currency is premium.
        is_premium: bool,
    },
    /// Currency spent by one account.
    CurrencySpend {
        /// Account debited.
        account_id: u64,
        /// Amount spent.
        amount: u64,
        /// Whether the currency is premium.
        is_premium: bool,
    },
    /// Items moved from one account to another.
    ItemTransfer {
        /// Account losing the items.
        from_account: u64,
        /// Account receiving the items.
        to_account: u64,
        /// Item blueprint identifier.
        item_id: u32,
        /// Quantity moved.
        quantity: u32,
    },
}

/// Outcome of a transaction.
#[derive(Debug, Clone, Copy, PartialEq, Eq, Structural)]
pub enum TransactionStatus {
    /// Applied and journaled under this sequence number.
    Committed {
        /// Journal sequence number.
        lsn: u64,
    },
    /// Rejected or rolled back.
    Aborted,
}

/// A debit that succeeds followed by a credit of the same amount restores the balance: the
/// two operations are inverse on the balance.
pub proof fn lemma_debit_then_credit_restores(a: AccountState, amount: u64, is_premium: bool)
    requires
        balance(a, is_premium) >= amount,
    ensures
        ({
            let debited = with_balance(a, is_premium, (balance(a, is_premium) - amount) as u64);
            let b = balance(debited, is_premium);
            (if b + amount > u64::MAX { u64::MAX } else { (b + amount) as u64 }) == balance(
                a,
                is_premium,
            )
        }),
{
}

/// Adding a new item and then removing the same quantity gives the inventory back: the add
/// lands in the first free slot, the remove finds it there and frees the slot again.
pub proof fn lemma_add_then_remove_restores(inv: Seq<Option<InventoryItem>>, item_id: u32, quantity: u32)
    requires
        first_index(inv, holds_item(item_id)) < 0,
        first_index(inv, empty_slot()) >= 0,
        quantity > 0,
    ensures
        ({
            let f = first_index(inv, empty_slot());
            let added = inv.update(f, Some(InventoryItem { item_id, quantity }));
            &&& first_index(added, holds_item(item_id)) == f
            &&& added[f]->0.quantity == quantity
            &&& added.update(f, None) == inv
        }),
{
    let f = first_index(inv, empty_slot());
    let p = holds_item(item_id);
    lemma_first_index(inv, p);
    lemma_first_index(inv, empty_slot());
    let added = inv.update(f, Some(InventoryItem { item_id, quantity }));
    assert forall|j: int| 0 <= j < f implies !p(#[trigger] added[j]) by {
        assert(added[j] == inv[j]);
    }
    lemma_first_index_is(added, p, f);
    assert(added.update(f, None) =~= inv);
}

// ---------------------------------------------------------------------------------------------
// Transaction manager
// ---------------------------------------------------------------------------------------------

/// An account as mathematical values.
pub struct AccountView {
    /// Account identifier.
    pub account_id: u64,
    /// Premium currency balance.
    pub premium_currency: u64,
    /// Standard currency balance.
    pub free_currency: u64,
    /// Item slots.
    pub inventory: Seq<Option<InventoryItem>>,
    /// Version.
    pub state_version: u64,
}

impl View for AccountState {
    type V = AccountView;

    open spec fn view(&self) -> AccountView {
        AccountView {
            account_id: self.account_id,
            premium_currency: self.premium_currency,
            free_currency: self.free_currency,
            inventory: self.inventory@,
            state_version: self.state_version,
        }
    }
}

/// Balance of one of the two currencies of an account view.
pub open spec fn view_balance(v: AccountView, is_premium: bool) -> u64 {
    if is_premium {
        v.premium_currency
    } else {
        v.free_currency
    }
}

/// `v` with the chosen balance set to `b` and its version raised.
pub open spec fn view_rebalanced(v: AccountView, is_premium: bool, b: u64) -> AccountView {
    if is_premium {
        AccountView { premium_currency: b, state_version: (v.state_version + 1) as u64, ..v }
    } else {
        AccountView { free_currency: b, state_version: (v.state_version + 1) as u64, ..v }
    }
}

/// `v` after crediting `amount` (saturating).
pub open spec fn credited(v: AccountView, amount: u64, is_premium: bool) -> AccountView {
    let b = view_balance(v, is_premium);
    view_rebalanced(v, is_premium, if b + amount > u64::MAX { u64::MAX } else { (b + amount) as u64 })
}

/// `v` after debiting `amount`, which its balance covers.
pub open spec fn debited(v: AccountView, amount: u64, is_premium: bool) -> AccountView {
    view_rebalanced(v, is_premium, (view_balance(v, is_premium) - amount) as u64)
}

/// `v` after adding `quantity` of `item_id` (see `AccountState::add_item`); `None` when the
/// inventory is full.
pub open spec fn item_added(v: AccountView, item_id: u32, quantity: u32) -> Option<AccountView> {
    let inv = v.inventory;
    let k = first_index(inv, holds_item(item_id));
    let f = first_index(inv, empty_slot());
    if k >= 0 {
        let q = inv[k]->0.quantity;
        let nq = if q + quantity > u32::MAX { u32::MAX } else { (q + quantity) as u32 };
        Some(
            AccountView {
                inventory: inv.update(k, Some(InventoryItem { item_id, quantity: nq })),
                state_version: (v.state_version + 1) as u64,
                ..v
            },
        )
    } else if f >= 0 {
        Some(
            AccountView {
                inventory: inv.update(f, Some(InventoryItem { item_id, quantity })),
                state_version: (v.state_version + 1) as u64,
                ..v
            },
        )
    } else {
        None
    }
}

/// `v` after removing `quantity` of `item_id` (see `AccountState::remove_item`).
pub open spec fn item_removed(v: AccountView, item_id: u32, quantity: u32) -> Result<
    AccountView,
    WorldError,
> {
    let inv = v.inventory;
    let k = first_index(inv, holds_item(item_id));
    if k < 0 {
        Err(WorldError::ItemNotFound(item_id))
    } else if inv[k]->0.quantity < quantity {
        Err(
            WorldError::InsufficientBalance {
                required: quantity as u64,
                actual: inv[k]->0.quantity as u64,
            },
        )
    } else {
        let left = (inv[k]->0.quantity - quantity) as u32;
        Ok(
            AccountView {
                inventory: inv.update(
                    k,
                    if left == 0 {
                        None
                    } else {
                        Some(InventoryItem { item_id, quantity: left })
                    },
                ),
                state_version: (v.state_version + 1) as u64,
                ..v
            },
        )
    }
}

/// The slot holds at least `quantity` of `item_id`.
pub open spec fn stack_covers(s: Option<InventoryItem>, item_id: u32, quantity: u32) -> bool {
    match s {
        Some(it) => it.item_id == item_id && it.quantity >= quantity,
        None => false,
    }
}

/// Some slot holds at least `quantity` of `item_id`.
pub open spec fn has_stack_of(inv: Seq<Option<InventoryItem>>, item_id: u32, quantity: u32) -> bool {
    exists|i: int| 0 <= i < inv.len() && stack_covers(#[trigger] inv[i], item_id, quantity)
}

/// Resource a generation lock protects.
pub open spec fn lock_of(op: TransactionOp) -> u32 {
    match op {
        TransactionOp::ItemTransfer { .. } => LOCK_INVENTORY,
        _ => LOCK_WALLET,
    }
}

/// The account an operation takes from, whose lock the caller must hold.
pub open spec fn source_of(op: TransactionOp) -> u64 {
    match op {
        TransactionOp::CurrencyTransfer { from_account, .. } => from_account,
        TransactionOp::CurrencySpend { account_id, .. } => account_id,
        TransactionOp::ItemTransfer { from_account, .. } => from_account,
    }
}

/// The journal record of an operation: opcode and payload.
pub open spec fn op_record(op: TransactionOp) -> (u8, Seq<u8>) {
    match op {
        TransactionOp::CurrencySpend { amount, is_premium, .. } => (
            OP_CURRENCY_DELTA,
            be_u64(amount) + seq![if is_premium { 1u8 } else { 0u8 }, 0u8],
        ),
        TransactionOp::CurrencyTransfer { to_account, amount, is_premium, .. } => (
            OP_CURRENCY_DELTA,
            be_u64(to_account) + be_u64(amount) + seq![if is_premium { 1u8 } else { 0u8 }],
        ),
        TransactionOp::ItemTransfer { to_account, item_id, quantity, .. } => (
            OP_INVENTORY_MUTATION,
            be_u64(to_account) + be_u32(item_id) + be_u32(quantity),
        ),
    }
}

/// Effect of applying `op`, under a validated lock `token`, to `accs`: the new accounts, or
/// the error together with the accounts as the failed attempt leaves them.
pub open spec fn apply_op(accs: Map<u64, AccountView>, op: TransactionOp, token: LockToken) -> Result<
    Map<u64, AccountView>,
    (WorldError, Map<u64, AccountView>),
> {
    match op {
        TransactionOp::CurrencySpend { account_id, amount, is_premium } => {
            if token.account_id != account_id || token.lock_id != LOCK_WALLET {
                Err((WorldError::TransactionAborted("Invalid wallet lock token"), accs))
            } else if !accs.contains_key(account_id) {
                Err((WorldError::TransactionAborted("Account not found"), accs))
            } else if view_balance(accs[account_id], is_premium) < amount {
                Err(
                    (
                        WorldError::InsufficientBalance {
                            required: amount,
                            actual: view_balance(accs[account_id], is_premium),
                        },
                        accs,
                    ),
                )
            } else {
                Ok(accs.insert(account_id, debited(accs[account_id], amount, is_premium)))
            }
        },
        TransactionOp::CurrencyTransfer { from_account, to_account, amount, is_premium } => {
            if token.account_id != from_account || token.lock_id != LOCK_WALLET {
                Err((WorldError::TransactionAborted("Invalid wallet lock token"), accs))
            } else if from_account == to_account {
                Err((WorldError::TransactionAborted("Cannot transfer to self"), accs))
            } else if !accs.contains_key(from_account) {
                Err((WorldError::TransactionAborted("Source account not found"), accs))
            } else if view_balance(accs[from_account], is_premium) < amount {
                Err(
                    (
                        WorldError::InsufficientBalance {
                            required: amount,
                            actual: view_balance(accs[from_account], is_premium),
                        },
                        accs,
                    ),
                )
            } else if !accs.contains_key(to_account) {
                Err((WorldError::TransactionAborted("Target account not registered"), accs))
            } else {
                let a1 = accs.insert(from_account, debited(accs[from_account], amount, is_premium));
                Ok(a1.insert(to_account, credited(a1[to_account], amount, is_premium)))
            }
        },
        TransactionOp::ItemTransfer { from_account, to_account, item_id, quantity } => {
            if token.account_id != from_account || token.lock_id != LOCK_INVENTORY {
                Err((WorldError::TransactionAborted("Invalid inventory lock token"), accs))
            } else if from_account == to_account {
                Err((WorldError::TransactionAborted("Cannot transfer to self"), accs))
            } else if !accs.contains_key(from_account) {
                Err((WorldError::TransactionAborted("Source account not found"), accs))
            } else if !has_stack_of(accs[from_account].inventory, item_id, quantity) {
                Err((WorldError::ItemNotFound(item_id), accs))
            } else if !accs.contains_key(to_account) {
                Err((WorldError::TransactionAborted("Target account not registered"), accs))
            } else {
                match item_removed(accs[from_account], item_id, quantity) {
                    Err(e) => Err((e, accs)),
                    Ok(from2) => {
                        let a1 = accs.insert(from_account, from2);
                        match item_added(a1[to_account], item_id, quantity) {
                            Some(to2) => Ok(a1.insert(to_account, to2)),
                            None => {
                                let back = match item_added(from2, item_id, quantity) {
                                    Some(f3) => f3,
                                    None => from2,
                                };
                                Err(
                                    (
                                        WorldError::TransactionAborted("Inventory is full"),
                                        a1.insert(from_account, back),
                                    ),
                                )
                            },
                        }
                    },
                }
            }
        },
    }
}

/// The accounts an operation would change have room for the version raises it makes: one per
/// changed account, and a second on the source of an item transfer that has to be put back.
pub open spec fn op_versions_ok(accs: Map<u64, AccountView>, op: TransactionOp) -> bool {
    match op {
        TransactionOp::CurrencySpend { account_id, amount, is_premium } => accs.contains_key(account_id)
            && view_balance(accs[account_id], is_premium) >= amount ==> accs[account_id].state_version
            < u64::MAX,
        TransactionOp::CurrencyTransfer { from_account, to_account, amount, is_premium } => accs.contains_key(
            from_account,
        ) && accs.contains_key(to_account) && view_balance(accs[from_account], is_premium) >= amount
            ==> accs[from_account].state_version < u64::MAX && accs[to_account].state_version < u64::MAX,
        TransactionOp::ItemTransfer { from_account, to_account, item_id, quantity } => accs.contains_key(
            from_account,
        ) && accs.contains_key(to_account) && has_stack_of(accs[from_account].inventory, item_id, quantity)
            ==> accs[from_account].state_version < u64::MAX - 1 && accs[to_account].state_version < u64::MAX,
    }
}

/// Sequence number the journal gives its next record (saturating).
pub open spec fn next_lsn(current: u64) -> u64 {
    if current == u64::MAX {
        u64::MAX
    } else {
        (current + 1) as u64
    }
}

/// `after` is `before` with one record appended: sequence `lsn`, the given tick, account,
/// entity 0, opcode and payload.
pub open spec fn appended_record(
    before: Seq<WalRecord>,
    after: Seq<WalRecord>,
    lsn: u64,
    tick: u64,
    account_id: u64,
    opcode: u8,
    payload: Seq<u8>,
) -> bool {
    &&& after.len() == before.len() + 1
    &&& after.drop_last() == before
    &&& after.last().wf()
    &&& after.last().lsn == lsn && after.last().tick == tick
    &&& after.last().account_id == account_id && after.last().entity_id == 0
    &&& after.last().opcode == opcode
    &&& after.last().payload_len == payload.len()
    &&& after.last().payload@.take(payload.len() as int) == payload
}

/// What executing transaction `tx_id` does to the accounts and the executed transactions, and
/// what it returns, when the journal holds `pending` records of `cap` and last handed out
/// `current_lsn`.
pub open spec fn tx_result(
    accs: Map<u64, AccountView>,
    ex: Map<u64, TransactionStatus>,
    tx_id: u64,
    op: TransactionOp,
    lock_verdict: Result<(), (u64, u64)>,
    token: LockToken,
    pending: nat,
    cap: nat,
    current_lsn: u64,
) -> (Result<u64, WorldError>, Map<u64, AccountView>, Map<u64, TransactionStatus>) {
    if ex.contains_key(tx_id) {
        (Err(WorldError::DuplicateTransaction(tx_id)), accs, ex)
    } else if lock_verdict is Err {
        (
            Err(
                WorldError::StaleSessionMutation {
                    expected: lock_verdict->Err_0.0,
                    actual: lock_verdict->Err_0.1,
                },
            ),
            accs,
            ex,
        )
    } else {
        match apply_op(accs, op, token) {
            Err((e, a2)) => (Err(e), a2, ex),
            Ok(a2) => if pending >= cap {
                (Err(WorldError::WalBufferFull), accs, ex)
            } else {
                let lsn = next_lsn(current_lsn);
                (Ok(lsn), a2, ex.insert(tx_id, TransactionStatus::Committed { lsn }))
            },
        }
    }
}

/// The status is a commit whose sequence number is at most `durable_lsn`.
pub open spec fn durable_commit(st: TransactionStatus, durable_lsn: u64) -> bool {
    match st {
        TransactionStatus::Committed { lsn } => lsn <= durable_lsn,
        TransactionStatus::Aborted => false,
    }
}

/// Fields of a generation lock token that the transaction checks.
#[derive(Debug, Clone, Copy, PartialEq, Eq, Structural)]
pub struct LockToken {
    /// Account whose resource is locked.
    pub account_id: u64,
    /// Locked resource (`LOCK_WALLET` or `LOCK_INVENTORY`).
    pub lock_id: u32,
}

/// Whether some slot of `inv` holds at least `quantity` of `item_id`.
fn inventory_has_stack(inv: &[Option<InventoryItem>; 64], item_id: u32, quantity: u32) -> (b: bool)
    ensures
        b == has_stack_of(inv@, item_id, quantity),
{
    let mut i: usize = 0;
    while i < 64
        invariant
            i <= 64,
            inv@.len() == 64,
            forall|j: int| 0 <= j < i ==> !stack_covers(#[trigger] inv@[j], item_id, quantity),
        decreases 64 - i,
    {
        if let Some(it) = inv[i] {
            if it.item_id == item_id && it.quantity >= quantity {
                assert(stack_covers(inv@[i as int], item_id, quantity));
                return true;
            }
        }
        i = i + 1;
    }
    false
}

/// Authoritative transaction manager: atomic currency and item operations on registered
/// accounts, deduplicated by transaction identifier and journaled to the write-ahead log.
#[derive(Debug)]
pub struct TransactionManager {
    accounts: HashMap<u64, AccountState>,
    executed_txs: HashMap<u64, TransactionStatus>,
}

impl TransactionManager {
    /// Registered accounts by identifier.
    pub closed spec fn accounts(&self) -> Map<u64, AccountView> {
        self.accounts@.map_values(|a: AccountState| a@)
    }

    /// Executed transactions by identifier.
    pub closed spec fn executed(&self) -> Map<u64, TransactionStatus> {
        self.executed_txs@
    }

    /// No accounts, no transactions.
    pub fn new() -> (m: Self)
        ensures
            m.accounts() == Map::<u64, AccountView>::empty(),
            m.executed() == Map::<u64, TransactionStatus>::empty(),
    {
        let m = TransactionManager { accounts: HashMap::new(), executed_txs: HashMap::new() };
        assert(m.accounts() =~= Map::<u64, AccountView>::empty());
        m
    }

    /// Registers or replaces the account `state`.
    pub fn register_account(&mut self, state: AccountState)
        ensures
            final(self).accounts() == old(self).accounts().insert(state.account_id, state@),
            final(self).executed() == old(self).executed(),
    {
        let ghost v = state@;
        let id = state.account_id;
        self.accounts.insert(id, state);
        assert(self.accounts() =~= old(self).accounts().insert(id, v));
    }

    /// Account `account_id`.
    pub fn get_account(&self, account_id: u64) -> (r: Option<&AccountState>)
        ensures
            match r {
                Some(a) => self.accounts().contains_key(account_id) && a@ == self.accounts()[account_id],
                None => !self.accounts().contains_key(account_id),
            },
    {
        self.accounts.get(&account_id)
    }

    /// Takes account `id` out for a change.
    fn take(&mut self, id: u64) -> (a: Option<AccountState>)
        ensures
            match a {
                Some(acc) => old(self).accounts().contains_key(id) && acc@ == old(self).accounts()[id]
                    && final(self).accounts() == old(self).accounts().remove(id),
                None => !old(self).accounts().contains_key(id) && final(self).accounts() == old(
                    self).accounts(),
            },
            final(self).executed() == old(self).executed(),
    {
        let a = self.accounts.remove(&id);
        assert(self.accounts() =~= old(self).accounts().remove(id));
        a
    }

    /// Puts account `acc` back under `id`.
    fn put(&mut self, id: u64, acc: AccountState)
        ensures
            final(self).accounts() == old(self).accounts().insert(id, acc@),
            final(self).executed() == old(self).executed(),
    {
        let ghost v = acc@;
        self.accounts.insert(id, acc);
        assert(self.accounts() =~= old(self).accounts().insert(id, v));
    }

    /// Executes transaction `tx_id`. A transaction already executed is
    /// `DuplicateTransaction`; a lock that the registry refused (`lock_verdict`, with the
    /// expected and actual sessions) is `StaleSessionMutation`. Otherwise the operation is
    /// checked and applied as `apply_op` describes, then journaled; its sequence number is
    /// returned and remembered. A journal that refuses the record (`WalBufferFull`) rolls the
    /// operation back: the accounts are restored and the transaction stays unrecorded.
    #[verifier::rlimit(50)]
    pub fn execute_transaction<const CAP: usize, S: DurableWalSink>(
        &mut self,
        tx_id: u64,
        op: TransactionOp,
        lock_verdict: Result<(), (u64, u64)>,
        source_token: &LockToken,
        current_tick: u64,
        journal: &mut WriteAheadJournal<CAP, S>,
    ) -> (r: Result<u64, WorldError>)
        requires
            old(journal).wf(),
            op_versions_ok(old(self).accounts(), op),
        ensures
            final(journal).wf(),
            final(journal).spec_sink() == old(journal).spec_sink(),
            final(journal).spec_durable_lsn() == old(journal).spec_durable_lsn(),
            ({
                let t = tx_result(
                    old(self).accounts(),
                    old(self).executed(),
                    tx_id,
                    op,
                    lock_verdict,
                    *source_token,
                    old(journal).pending().len(),
                    CAP as nat,
                    old(journal).spec_current_lsn(),
                );
                &&& r == t.0
                &&& final(self).accounts() == t.1
                &&& final(self).executed() == t.2
                &&& r is Err ==> final(journal).pending() == old(journal).pending()
                    && final(journal).spec_current_lsn() == old(journal).spec_current_lsn()
                &&& r matches Ok(lsn) ==> final(journal).spec_current_lsn() == lsn
                    && appended_record(
                    old(journal).pending(),
                    final(journal).pending(),
                    lsn,
                    current_tick,
                    source_of(op),
                    op_record(op).0,
                    op_record(op).1,
                )
            }),
    {
        if self.executed_txs.contains_key(&tx_id) {
            return Err(WorldError::DuplicateTransaction(tx_id));
        }
        if let Err((expected, actual)) = lock_verdict {
            return Err(WorldError::StaleSessionMutation { expected, actual });
        }
        let ghost accs = self.accounts();
        let mut payload: Vec<u8> = Vec::new();
        let (account, opcode, undo) = match op {
            TransactionOp::CurrencySpend { account_id, amount, is_premium } => {
                if source_token.account_id != account_id || source_token.lock_id != LOCK_WALLET {
                    return Err(WorldError::TransactionAborted("Invalid wallet lock token"));
                }
                let mut acct = match self.take(account_id) {
                    Some(a) => a,
                    None => {
                        return Err(WorldError::TransactionAborted("Account not found"));
                    },
                };
                let saved = acct;
                let d = acct.debit_currency(amount, is_premium);
                self.put(account_id, acct);
                match d {
                    Ok(()) => {},
                    Err(e) => {
                        assert(self.accounts() =~= accs);
                        return Err(e);
                    },
                }
                assert(self.accounts() =~= accs.insert(
                    account_id,
                    debited(accs[account_id], amount, is_premium),
                ));
                push_u64_be(&mut payload, amount);
                payload.push(if is_premium { 1u8 } else { 0u8 });
                payload.push(0u8);
                (account_id, OP_CURRENCY_DELTA, (account_id, saved, account_id, saved))
            },
            TransactionOp::CurrencyTransfer { from_account, to_account, amount, is_premium } => {
                if source_token.account_id != from_account || source_token.lock_id != LOCK_WALLET {
                    return Err(WorldError::TransactionAborted("Invalid wallet lock token"));
                }
                if from_account == to_account {
                    return Err(WorldError::TransactionAborted("Cannot transfer to self"));
                }
                let from_balance = match self.accounts.get(&from_account) {
                    Some(a) => if is_premium {
                        a.premium_currency
                    } else {
                        a.free_currency
                    },
                    None => {
                        return Err(WorldError::TransactionAborted("Source account not found"));
                    },
                };
                assert(from_balance == view_balance(accs[from_account], is_premium));
                if from_balance < amount {
                    return Err(
                        WorldError::InsufficientBalance { required: amount, actual: from_balance },
                    );
                }
                if !self.accounts.contains_key(&to_account) {
                    return Err(WorldError::TransactionAborted("Target account not registered"));
                }
                let mut from = match self.take(from_account) {
                    Some(a) => a,
                    None => {
                        return Err(WorldError::TransactionAborted("Source account not found"));
                    },
                };
                let saved_from = from;
                let _ = from.debit_currency(amount, is_premium);
                self.put(from_account, from);
                let ghost a1 = self.accounts();
                assert(a1 =~= accs.insert(from_account, debited(accs[from_account], amount, is_premium)));
                let mut to = match self.take(to_account) {
                    Some(a) => a,
                    None => {
                        return Err(WorldError::TransactionAborted("Target account not registered"));
                    },
                };
                let saved_to = to;
                to.credit_currency(amount, is_premium);
                self.put(to_account, to);
                assert(self.accounts() =~= a1.insert(
                    to_account,
                    credited(a1[to_account], amount, is_premium),
                ));
                push_u64_be(&mut payload, to_account);
                push_u64_be(&mut payload, amount);
                payload.push(if is_premium { 1u8 } else { 0u8 });
                (from_account, OP_CURRENCY_DELTA, (to_account, saved_to, from_account, saved_from))
            },
            TransactionOp::ItemTransfer { from_account, to_account, item_id, quantity } => {
                if source_token.account_id != from_account || source_token.lock_id != LOCK_INVENTORY {
                    return Err(WorldError::TransactionAborted("Invalid inventory lock token"));
                }
                if from_account == to_account {
                    return Err(WorldError::TransactionAborted("Cannot transfer to self"));
                }
                let has_item = match self.accounts.get(&from_account) {
                    Some(a) => inventory_has_stack(&a.inventory, item_id, quantity),
                    None => {
                        return Err(WorldError::TransactionAborted("Source account not found"));
                    },
                };
                if !has_item {
                    return Err(WorldError::ItemNotFound(item_id));
                }
                if !self.accounts.contains_key(&to_account) {
                    return Err(WorldError::TransactionAborted("Target account not registered"));
                }
                let mut from = match self.take(from_account) {
                    Some(a) => a,
                    None => {
                        return Err(WorldError::TransactionAborted("Source account not found"));
                    },
                };
                let saved_from = from;
                let removed = from.remove_item(item_id, quantity);
                let ghost from2 = from@;
                self.put(from_account, from);
                match removed {
                    Ok(()) => {},
                    Err(e) => {
                        assert(self.accounts() =~= accs);
                        return Err(e);
                    },
                }
                let ghost a1 = self.accounts();
                assert(a1 =~= accs.insert(from_account, from2));
                let mut to = match self.take(to_account) {
                    Some(a) => a,
                    None => {
                        return Err(WorldError::TransactionAborted("Target account not registered"));
                    },
                };
                let saved_to = to;
                let added = to.add_item(item_id, quantity);
                self.put(to_account, to);
                match added {
                    Ok(()) => {},
                    Err(e) => {
                        assert(self.accounts() =~= a1);
                        let mut back = match self.take(from_account) {
                            Some(a) => a,
                            None => {
                                return Err(e);
                            },
                        };
                        let _ = back.add_item(item_id, quantity);
                        self.put(from_account, back);
                        assert(self.accounts() =~= a1.insert(
                            from_account,
                            match item_added(from2, item_id, quantity) {
                                Some(f3) => f3,
                                None => from2,
                            },
                        ));
                        return Err(e);
                    },
                }
                push_u64_be(&mut payload, to_account);
                push_u32_be(&mut payload, item_id);
                push_u32_be(&mut payload, quantity);
                (from_account, OP_INVENTORY_MUTATION, (to_account, saved_to, from_account, saved_from))
            },
        };
        assert(payload@ =~= op_record(op).1);
        let lsn = match journal.append(current_tick, account, 0, opcode, payload.as_slice()) {
            Ok(l) => l,
            Err(e) => {
                let (id1, acc1, id2, acc2) = undo;
                self.put(id1, acc1);
                self.put(id2, acc2);
                assert(self.accounts() =~= accs);
                return Err(e);
            },
        };
        self.executed_txs.insert(tx_id, TransactionStatus::Committed { lsn });
        Ok(lsn)
    }

    /// Whether transaction `tx_id` was committed under a sequence number that `journal` has
    /// made durable.
    pub fn is_transaction_durable<const CAP: usize, S: DurableWalSink>(
        &self,
        tx_id: u64,
        journal: &WriteAheadJournal<CAP, S>,
    ) -> (b: bool)
        ensures
            b == (self.executed().contains_key(tx_id) && durable_commit(
                self.executed()[tx_id],
                journal.spec_durable_lsn(),
            )),
    {
        match self.executed_txs.get(&tx_id) {
            Some(TransactionStatus::Committed { lsn }) => journal.is_flushed(*lsn),
            _ => false,
        }
    }

    /// Executes transaction `tx_id` as `execute_transaction` does and, unless `durability` is
    /// in-memory buffering, then flushes the journal so that the commit is durable before it is
    /// acknowledged. A flush failure is returned in place of the sequence number; the
    /// transaction then stays applied and recorded, its record still pending.
    pub fn execute_transaction_with_durability<const CAP: usize, S: DurableWalSink>(
        &mut self,
        tx_id: u64,
        op: TransactionOp,
        lock_verdict: Result<(), (u64, u64)>,
        source_token: &LockToken,
        current_tick: u64,
        journal: &mut WriteAheadJournal<CAP, S>,
        durability: CommitDurability,
    ) -> (r: Result<u64, WorldError>)
        requires
            old(journal).wf(),
            op_versions_ok(old(self).accounts(), op),
        ensures
            final(journal).wf(),
            ({
                let t = tx_result(
                    old(self).accounts(),
                    old(self).executed(),
                    tx_id,
                    op,
                    lock_verdict,
                    *source_token,
                    old(journal).pending().len(),
                    CAP as nat,
                    old(journal).spec_current_lsn(),
                );
                &&& final(self).accounts() == t.1
                &&& final(self).executed() == t.2
                &&& t.0 is Err ==> r == t.0 && final(journal).pending() == old(journal).pending()
                    && final(journal).spec_sink() == old(journal).spec_sink()
                &&& t.0 is Ok && durability is InMemoryBuffered ==> r == t.0
                    && final(journal).spec_sink() == old(journal).spec_sink()
                &&& t.0 is Ok && !(durability is InMemoryBuffered) && r is Ok ==> r == t.0
                    && final(journal).pending() == Seq::<WalRecord>::empty()
                    && final(journal).spec_durable_lsn() == final(journal).spec_current_lsn()
                &&& t.0 matches Ok(lsn) ==> final(journal).spec_current_lsn() == lsn
            }),
    {
        let lsn = match self.execute_transaction(
            tx_id,
            op,
            lock_verdict,
            source_token,
            current_tick,
            journal,
        ) {
            Ok(l) => l,
            Err(e) => {
                return Err(e);
            },
        };
        match durability {
            CommitDurability::InMemoryBuffered => {},
            _ => {
                match journal.flush_pending() {
                    Ok(_) => {},
                    Err(e) => {
                        return Err(e);
                    },
                }
            },
        }
        Ok(lsn)
    }
}

impl Default for TransactionManager {
    /// Same as `new`.
    fn default() -> (m: Self)
        ensures
            m.accounts() == Map::<u64, AccountView>::empty(),
            m.executed() == Map::<u64, TransactionStatus>::empty(),
    {
        TransactionManager::new()
    }
}


/// A successful currency transfer moves the chosen currency only: the source's balance in that
/// currency drops by `amount` and the target's rises by `amount` (saturating at `u64::MAX`),
/// while both accounts keep their balance in the other currency.
pub proof fn lemma_transfer_conserves_each_currency(
    accs: Map<u64, AccountView>,
    ex: Map<u64, TransactionStatus>,
    tx_id: u64,
    from_account: u64,
    to_account: u64,
    amount: u64,
    is_premium: bool,
    lock_verdict: Result<(), (u64, u64)>,
    token: LockToken,
    pending: nat,
    cap: nat,
    current_lsn: u64,
)
    requires
        tx_result(
            accs,
            ex,
            tx_id,
            TransactionOp::CurrencyTransfer { from_account, to_account, amount, is_premium },
            lock_verdict,
            token,
            pending,
            cap,
            current_lsn,
        ).0 is Ok,
    ensures
        ({
            let after = tx_result(
                accs,
                ex,
                tx_id,
                TransactionOp::CurrencyTransfer { from_account, to_account, amount, is_premium },
                lock_verdict,
                token,
                pending,
                cap,
                current_lsn,
            ).1;
            let f0 = accs[from_account];
            let t0 = accs[to_account];
            let f1 = after[from_account];
            let t1 = after[to_account];
            &&& from_account != to_account
            &&& accs.contains_key(from_account) && accs.contains_key(to_account)
            &&& after.contains_key(from_account) && after.contains_key(to_account)
            &&& is_premium ==> {
                &&& f1.premium_currency == f0.premium_currency - amount
                &&& t1.premium_currency == (if t0.premium_currency + amount > u64::MAX {
                    u64::MAX as int
                } else {
                    t0.premium_currency + amount
                })
                &&& f1.free_currency == f0.free_currency
                &&& t1.free_currency == t0.free_currency
            }
            &&& !is_premium ==> {
                &&& f1.free_currency == f0.free_currency - amount
                &&& t1.free_currency == (if t0.free_currency + amount > u64::MAX {
                    u64::MAX as int
                } else {
                    t0.free_currency + amount
                })
                &&& f1.premium_currency == f0.premium_currency
                &&& t1.premium_currency == t0.premium_currency
            }
        }),
{
}


/// A successful spend debits the chosen currency only: that balance drops by `amount`, the other
/// currency is unchanged, and no other account changes.
pub proof fn lemma_spend_debits_chosen_currency(
    accs: Map<u64, AccountView>,
    ex: Map<u64, TransactionStatus>,
    tx_id: u64,
    account_id: u64,
    amount: u64,
    is_premium: bool,
    lock_verdict: Result<(), (u64, u64)>,
    token: LockToken,
    pending: nat,
    cap: nat,
    current_lsn: u64,
)
    requires
        tx_result(
            accs,
            ex,
            tx_id,
            TransactionOp::CurrencySpend { account_id, amount, is_premium },
            lock_verdict,
            token,
            pending,
            cap,
            current_lsn,
        ).0 is Ok,
    ensures
        ({
            let after = tx_result(
                accs,
                ex,
                tx_id,
                TransactionOp::CurrencySpend { account_id, amount, is_premium },
                lock_verdict,
                token,
                pending,
                cap,
                current_lsn,
            ).1;
            let a0 = accs[account_id];
            let a1 = after[account_id];
            &&& accs.contains_key(account_id) && after.contains_key(account_id)
            &&& is_premium ==> a1.premium_currency == a0.premium_currency - amount
                && a1.free_currency == a0.free_currency
            &&& !is_premium ==> a1.free_currency == a0.free_currency - amount
                && a1.premium_currency == a0.premium_currency
            &&& forall|k: u64| k != account_id ==> (after.contains_key(k) == accs.contains_key(k)
                && (accs.contains_key(k) ==> after[k] == accs[k]))
        }),
{
}

} // verus!
