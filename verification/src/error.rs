//! Error and identifier types shared by zone management, instancing and persistence.
use vstd::prelude::*;

verus! {

/// Unique identifier for an open-world persistent zone.
#[derive(Debug, Clone, Copy, PartialEq, Eq, Hash, PartialOrd, Ord, Structural)]
pub struct ZoneId(pub u32);

/// Unique instance identifier for an ephemeral dungeon room.
#[derive(Debug, Clone, Copy, PartialEq, Eq, Hash, PartialOrd, Ord, Structural)]
pub struct InstanceId(pub u64);

/// High-level world, zone, and instance management errors.
#[derive(Debug, Clone, Copy, PartialEq, Eq)]
pub enum WorldError {
    /// Requested zone identifier does not exist in the world manager.
    ZoneNotFound(ZoneId),
    /// Requested entity identifier was not found in the zone or instance.
    EntityNotFound(u32),
    /// Entity identifier already exists in the target zone.
    EntityAlreadyExists(u32),
    /// Spatial grid or entity pool in the zone is full.
    ZoneFull(ZoneId),
    /// Requested ephemeral instance identifier was not found in the pool.
    InstanceNotFound(InstanceId),
    /// Ephemeral dungeon instance pool is exhausted.
    InstancePoolExhausted,
    /// Operation is invalid for the current lifecycle state of the instance.
    InvalidInstanceState {
        /// Expected instance state name.
        expected: &'static str,
        /// Actual instance state name.
        actual: &'static str,
    },
    /// Hibernation snapshot buffer is corrupted or has an invalid checksum.
    SnapshotCorrupted,
    /// Hibernation snapshot header or layout is invalid.
    InvalidSnapshot(&'static str),
    /// Party slot is full (maximum 4 co-op players per instance).
    PartyFull,
    /// Inter-zone communication link is severed (network partition declared).
    PartitionSevered {
        /// Local zone identifier.
        local_zone: ZoneId,
        /// Remote partitioned zone identifier.
        remote_zone: ZoneId,
    },
    /// Entity is frozen in read-only state due to active network partition.
    BoundaryEntityFrozen(u32),
    /// Boundary cell lease has expired without renewal.
    LeaseExpired {
        /// Expired lease identifier.
        lease_id: u64,
        /// Zone holding expired lease.
        zone_id: ZoneId,
    },
    /// In-memory WAL ring buffer is at full capacity (storage backpressure).
    WalBufferFull,
    /// Durable WAL storage backend is unavailable (outage declared).
    WalStorageUnavailable,
    /// Encoded WAL record byte sequence is corrupted or truncated.
    WalCorruptedRecord(&'static str),
    /// WAL record checksum validation failed.
    WalChecksumMismatch {
        /// Expected checksum from record header.
        expected: u32,
        /// Calculated Adler-32 checksum from payload.
        actual: u32,
    },
    /// Inbound WAL record LSN does not monotonically follow current LSN.
    WalLsnRegression {
        /// Current expected LSN.
        current: u64,
        /// Inbound record LSN.
        incoming: u64,
    },
    /// Atomic transaction failed or rolled back.
    TransactionAborted(&'static str),
    /// Account balance is insufficient for transaction debit.
    InsufficientBalance {
        /// Required balance amount.
        required: u64,
        /// Available account balance.
        actual: u64,
    },
    /// Item identifier not found in character inventory.
    ItemNotFound(u32),
    /// Transaction with this identifier has already been executed.
    DuplicateTransaction(u64),
    /// Stale session attempted to execute inventory mutation without active lock.
    StaleSessionMutation {
        /// Active session holding generation lock.
        expected: u64,
        /// Stale session attempting mutation.
        actual: u64,
    },
    /// Disposable zone crash reconstruction failed.
    ReconstructionFailed(&'static str),
    /// Worker shard identifier is not registered with the shard manager.
    ShardNotFound(u32),
    /// Structure identifier is not registered in the chunk manifest.
    StructureNotFound(u32),
    /// Predictive migration pre-authorization token is unknown, mismatched or already consumed.
    PreAuthInvalid,
    /// Predictive migration pre-authorization token has expired.
    PreAuthExpired,
    /// Interior cell already holds the maximum number of decorative items.
    InteriorCellFull,
    /// Interior cell identifier is not registered.
    InteriorCellNotFound(u32),
}

} // verus!
