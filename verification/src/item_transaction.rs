//! Two-phase item transfer descriptors and errors.
use vstd::prelude::*;

verus! {

/// Errors raised by two-phase item transfers between containers.
#[derive(Debug, Clone, Copy, PartialEq, Eq, Structural)]
pub enum ItemTransactionError {
    /// Source container is unknown.
    SourceContainerNotFound,
    /// Target container is unknown.
    TargetContainerNotFound,
    /// Item instance is not in the source slot.
    ItemNotFound,
    /// Slot is locked by another in-flight transaction.
    SlotLocked,
    /// Source stack holds fewer units than requested.
    InsufficientQuantity,
    /// Target container has no free slot.
    TargetContainerFull,
    /// Target container weight limit would be exceeded.
    TargetWeightLimitExceeded,
    /// Soulbound items cannot change owner.
    SoulboundItemUntransferable,
    /// A container cannot be nested inside itself.
    RecursiveNestingNotAllowed,
    /// Transaction identifier was already used.
    DuplicateTransactionId,
    /// Requested target slot is occupied.
    TargetSlotNotEmpty,
    /// Item types do not match for stacking.
    ItemTypeMismatch,
}

/// Requested transfer of an item between two containers.
#[derive(Debug, Clone, Copy, PartialEq, Eq, Structural)]
pub struct ItemTransferIntent {
    /// Unique transaction identifier.
    pub transaction_id: u64,
    /// Source container identifier.
    pub source_container_id: u64,
    /// Source slot index.
    pub source_slot: u16,
    /// Item instance identifier.
    pub item_instance_id: u64,
    /// Target container identifier.
    pub target_container_id: u64,
    /// Requested target slot, or any free slot.
    pub target_slot: Option<u16>,
    /// Quantity transferred.
    pub quantity: u32,
    /// Weight of one unit in grams.
    pub item_weight_grams: u32,
}

/// Outcome of a committed item transfer.
#[derive(Debug, Clone, Copy, PartialEq, Eq, Structural)]
pub struct ItemTransferResult {
    /// Transaction identifier.
    pub transaction_id: u64,
    /// Source container identifier.
    pub source_container_id: u64,
    /// Target container identifier.
    pub target_container_id: u64,
    /// Slot that received the item.
    pub target_slot: u16,
    /// Item instance identifier.
    pub item_instance_id: u64,
    /// Quantity transferred.
    pub quantity: u32,
}

/// The fields of an item in a container slot that a transfer checks.
#[derive(Debug, Clone, Copy, PartialEq, Eq, Structural)]
pub struct SlotItemView {
    /// Item instance identifier.
    pub instance_id: u64,
    /// Stack quantity.
    pub quantity: u32,
    /// Whether the item is soulbound to its owner.
    pub is_soulbound: bool,
    /// Container the item itself is, if it is one.
    pub nested_container_id: Option<u64>,
}

/// A container slot as a transfer sees it.
#[derive(Debug, Clone, Copy, PartialEq, Eq, Structural)]
pub struct SlotView {
    /// Locked by an in-flight transaction.
    pub is_locked: bool,
    /// Item held, if any.
    pub item: Option<SlotItemView>,
}

/// A container as a transfer sees it.
#[derive(Debug, Clone, Copy, PartialEq, Eq, Structural)]
pub struct ContainerView {
    /// Owning account.
    pub owner_id: u64,
    /// Weight carried, in grams.
    pub current_weight_grams: u32,
    /// Weight limit in grams (0 for none).
    pub max_weight_grams: u32,
    /// Number of free slots.
    pub free_slot_count: usize,
}

/// Outcome of the prepare phase of a transfer: `source` and `target` are the containers (if
/// registered), `source_slot` the slot `intent.source_slot` of the source (if it exists) and
/// `target_slot` the slot `intent.target_slot` of the target (if requested and existing).
pub open spec fn spec_validate_transfer(
    intent: ItemTransferIntent,
    already_processed: bool,
    source: Option<ContainerView>,
    target: Option<ContainerView>,
    source_slot: Option<SlotView>,
    target_slot: Option<SlotView>,
) -> Result<(), ItemTransactionError> {
    if already_processed {
        Err(ItemTransactionError::DuplicateTransactionId)
    } else if source is None {
        Err(ItemTransactionError::SourceContainerNotFound)
    } else if target is None {
        Err(ItemTransactionError::TargetContainerNotFound)
    } else if source_slot is None {
        Err(ItemTransactionError::ItemNotFound)
    } else if source_slot->0.is_locked {
        Err(ItemTransactionError::SlotLocked)
    } else if source_slot->0.item is None || source_slot->0.item->0.instance_id
        != intent.item_instance_id {
        Err(ItemTransactionError::ItemNotFound)
    } else {
        let item = source_slot->0.item->0;
        let src = source->0;
        let dst = target->0;
        if intent.quantity == 0 || intent.quantity > item.quantity {
            Err(ItemTransactionError::InsufficientQuantity)
        } else if item.is_soulbound && src.owner_id != dst.owner_id {
            Err(ItemTransactionError::SoulboundItemUntransferable)
        } else if item.nested_container_id == Some(intent.target_container_id) {
            Err(ItemTransactionError::RecursiveNestingNotAllowed)
        } else if dst.max_weight_grams > 0 && (if dst.current_weight_grams + intent.item_weight_grams
            > u32::MAX {
            u32::MAX as int
        } else {
            dst.current_weight_grams + intent.item_weight_grams
        }) > dst.max_weight_grams {
            Err(ItemTransactionError::TargetWeightLimitExceeded)
        } else if intent.target_slot is Some {
            if target_slot is None {
                Err(ItemTransactionError::TargetSlotNotEmpty)
            } else if target_slot->0.is_locked {
                Err(ItemTransactionError::SlotLocked)
            } else if target_slot->0.item is Some {
                Err(ItemTransactionError::TargetSlotNotEmpty)
            } else {
                Ok(())
            }
        } else if dst.free_slot_count == 0 && intent.source_container_id
            != intent.target_container_id {
            Err(ItemTransactionError::TargetContainerFull)
        } else {
            Ok(())
        }
    }
}

/// Prepare phase of a two-phase item transfer: every check made before the source slot is
/// locked and the move committed, in the order they are made.
pub fn validate_transfer(
    intent: &ItemTransferIntent,
    already_processed: bool,
    source: Option<ContainerView>,
    target: Option<ContainerView>,
    source_slot: Option<SlotView>,
    target_slot: Option<SlotView>,
) -> (r: Result<(), ItemTransactionError>)
    ensures
        r == spec_validate_transfer(*intent, already_processed, source, target, source_slot, target_slot),
{
    if already_processed {
        return Err(ItemTransactionError::DuplicateTransactionId);
    }
    let src = match source {
        Some(c) => c,
        None => {
            return Err(ItemTransactionError::SourceContainerNotFound);
        },
    };
    let dst = match target {
        Some(c) => c,
        None => {
            return Err(ItemTransactionError::TargetContainerNotFound);
        },
    };
    let slot = match source_slot {
        Some(s) => s,
        None => {
            return Err(ItemTransactionError::ItemNotFound);
        },
    };
    if slot.is_locked {
        return Err(ItemTransactionError::SlotLocked);
    }
    let item = match slot.item {
        Some(it) => it,
        None => {
            return Err(ItemTransactionError::ItemNotFound);
        },
    };
    if item.instance_id != intent.item_instance_id {
        return Err(ItemTransactionError::ItemNotFound);
    }
    if intent.quantity == 0 || intent.quantity > item.quantity {
        return Err(ItemTransactionError::InsufficientQuantity);
    }
    if item.is_soulbound && src.owner_id != dst.owner_id {
        return Err(ItemTransactionError::SoulboundItemUntransferable);
    }
    if let Some(nested_id) = item.nested_container_id {
        if nested_id == intent.target_container_id {
            return Err(ItemTransactionError::RecursiveNestingNotAllowed);
        }
    }
    if dst.max_weight_grams > 0 {
        let projected = dst.current_weight_grams.saturating_add(intent.item_weight_grams);
        if projected > dst.max_weight_grams {
            return Err(ItemTransactionError::TargetWeightLimitExceeded);
        }
    }
    if intent.target_slot.is_some() {
        let t = match target_slot {
            Some(t) => t,
            None => {
                return Err(ItemTransactionError::TargetSlotNotEmpty);
            },
        };
        if t.is_locked {
            return Err(ItemTransactionError::SlotLocked);
        }
        if t.item.is_some() {
            return Err(ItemTransactionError::TargetSlotNotEmpty);
        }
    } else if dst.free_slot_count == 0 {
        if intent.source_container_id != intent.target_container_id {
            return Err(ItemTransactionError::TargetContainerFull);
        }
    }
    Ok(())
}

/// Maximum transaction history entries retained for idempotency deduplication.
pub const MAX_TX_DEDUP_CAPACITY: usize = 2048;

/// Item instance identifier handed out first.
pub const FIRST_ITEM_INSTANCE_ID: u64 = 100_000;

/// Transaction bookkeeping of the item transfer coordinator: the idempotency ring of the last
/// `MAX_TX_DEDUP_CAPACITY` committed transfers and the item instance identifier allocator. The
/// containers themselves are kept by the caller, who hands their state to `prepare_transfer`.
pub struct ItemTransactionCoordinator {
    processed_transactions: [u64; 2048],
    dedup_cursor: usize,
    next_instance_id: u64,
}

impl ItemTransactionCoordinator {
    /// The ring of recorded transaction identifiers (unused entries hold 0).
    pub closed spec fn spec_processed(&self) -> Seq<u64> {
        self.processed_transactions@
    }

    /// Ring position the next recorded transaction overwrites.
    pub closed spec fn spec_cursor(&self) -> nat {
        self.dedup_cursor as nat
    }

    /// Next item instance identifier.
    pub closed spec fn spec_next_instance_id(&self) -> u64 {
        self.next_instance_id
    }

    /// The cursor points into the ring.
    pub closed spec fn wf(&self) -> bool {
        self.dedup_cursor < MAX_TX_DEDUP_CAPACITY
    }

    /// A coordinator with an empty ring (all zeros, so identifier 0 counts as processed) and
    /// instance identifiers starting at `FIRST_ITEM_INSTANCE_ID`.
    pub fn new() -> (c: Self)
        ensures
            c.wf(),
            c.spec_processed() == Seq::new(2048, |i: int| 0u64),
            c.spec_cursor() == 0,
            c.spec_next_instance_id() == FIRST_ITEM_INSTANCE_ID,
    {
        let c = ItemTransactionCoordinator {
            processed_transactions: [0u64; 2048],
            dedup_cursor: 0,
            next_instance_id: FIRST_ITEM_INSTANCE_ID,
        };
        assert(c.processed_transactions@ =~= Seq::new(2048, |i: int| 0u64));
        c
    }

    /// Hands out the next item instance identifier (the counter saturates at `u64::MAX`).
    pub fn allocate_instance_id(&mut self) -> (id: u64)
        ensures
            id == old(self).spec_next_instance_id(),
            final(self).spec_next_instance_id() == (if id == u64::MAX {
                u64::MAX
            } else {
                (id + 1) as u64
            }),
            final(self).spec_processed() == old(self).spec_processed(),
            final(self).spec_cursor() == old(self).spec_cursor(),
            final(self).wf() == old(self).wf(),
    {
        let id = self.next_instance_id;
        self.next_instance_id = self.next_instance_id.saturating_add(1);
        id
    }

    /// Whether `tx_id` is among the recorded transactions.
    pub fn is_transaction_processed(&self, tx_id: u64) -> (b: bool)
        ensures
            b == self.spec_processed().contains(tx_id),
    {
        let mut i: usize = 0;
        while i < 2048
            invariant
                i <= 2048,
                self.processed_transactions@.len() == 2048,
                forall|j: int| 0 <= j < i ==> self.processed_transactions@[j] != tx_id,
            decreases 2048 - i,
        {
            if self.processed_transactions[i] == tx_id {
                assert(self.processed_transactions@[i as int] == tx_id);
                return true;
            }
            i = i + 1;
        }
        false
    }

    /// Records `tx_id` at the cursor, overwriting the oldest entry, and moves the cursor on.
    pub fn record_transaction(&mut self, tx_id: u64)
        requires
            old(self).wf(),
        ensures
            final(self).wf(),
            final(self).spec_processed() == old(self).spec_processed().update(old(self).spec_cursor() as int, tx_id),
            final(self).spec_cursor() == (old(self).spec_cursor() + 1) % (MAX_TX_DEDUP_CAPACITY as nat),
            final(self).spec_next_instance_id() == old(self).spec_next_instance_id(),
    {
        self.processed_transactions[self.dedup_cursor] = tx_id;
        self.dedup_cursor = (self.dedup_cursor + 1) % MAX_TX_DEDUP_CAPACITY;
    }

    /// Prepare phase of a transfer against this coordinator's history: `validate_transfer`
    /// with the duplicate check made against the recorded transactions.
    pub fn prepare_transfer(
        &self,
        intent: &ItemTransferIntent,
        source: Option<ContainerView>,
        target: Option<ContainerView>,
        source_slot: Option<SlotView>,
        target_slot: Option<SlotView>,
    ) -> (r: Result<(), ItemTransactionError>)
        ensures
            r == spec_validate_transfer(
                *intent,
                self.spec_processed().contains(intent.transaction_id),
                source,
                target,
                source_slot,
                target_slot,
            ),
    {
        let dup = self.is_transaction_processed(intent.transaction_id);
        validate_transfer(intent, dup, source, target, source_slot, target_slot)
    }
}

/// A committed transfer is refused as a duplicate until `MAX_TX_DEDUP_CAPACITY` later commits
/// have overwritten its ring entry: right after recording, and after any fewer recordings.
pub proof fn lemma_recorded_transaction_is_duplicate(ring: Seq<u64>, cursor: nat, tx_id: u64, later: Seq<u64>)
    requires
        ring.len() == MAX_TX_DEDUP_CAPACITY,
        cursor < MAX_TX_DEDUP_CAPACITY,
        later.len() < MAX_TX_DEDUP_CAPACITY,
    ensures
        record_all(ring.update(cursor as int, tx_id), (cursor + 1) % (MAX_TX_DEDUP_CAPACITY as nat), later).contains(tx_id),
{
    lemma_record_all_keeps(ring.update(cursor as int, tx_id), (cursor + 1) % (MAX_TX_DEDUP_CAPACITY as nat), later, cursor as int);
}

/// The ring after recording `ids` in turn from `cursor`.
pub open spec fn record_all(ring: Seq<u64>, cursor: nat, ids: Seq<u64>) -> Seq<u64>
    decreases ids.len(),
{
    if ids.len() == 0 {
        ring
    } else {
        record_all(ring.update(cursor as int, ids[0]), (cursor + 1) % (MAX_TX_DEDUP_CAPACITY as nat), ids.drop_first())
    }
}

/// Recording fewer ids than the ring's free distance to position `p` leaves `p` alone.
proof fn lemma_record_all_keeps(ring: Seq<u64>, cursor: nat, ids: Seq<u64>, p: int)
    requires
        ring.len() == MAX_TX_DEDUP_CAPACITY,
        cursor < MAX_TX_DEDUP_CAPACITY,
        0 <= p < MAX_TX_DEDUP_CAPACITY,
        ids.len() < MAX_TX_DEDUP_CAPACITY,
        ids.len() <= (p - cursor + MAX_TX_DEDUP_CAPACITY) % (MAX_TX_DEDUP_CAPACITY as int),
    ensures
        record_all(ring, cursor, ids).len() == MAX_TX_DEDUP_CAPACITY,
        record_all(ring, cursor, ids)[p] == ring[p],
    decreases ids.len(),
{
    if ids.len() > 0 {
        let next = (cursor + 1) % (MAX_TX_DEDUP_CAPACITY as nat);
        assert(cursor != p);
        lemma_record_all_keeps(ring.update(cursor as int, ids[0]), next, ids.drop_first(), p);
    }
}

} // verus!
