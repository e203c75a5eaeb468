//! Multi-node zone partition semantics, boundary leases, and split-brain mitigation.
use vstd::prelude::*;

use crate::error::{WorldError, ZoneId};

verus! {

/// Default heartbeat timeout ticks before declaring a network partition.
pub const DEFAULT_PARTITION_TIMEOUT_TICKS: u64 = 3;

/// Default lease renewal duration in ticks.
pub const DEFAULT_LEASE_DURATION_TICKS: u64 = 20;

/// `a + b`, clamped at `u64::MAX`.
pub open spec fn sat_add_u64(a: u64, b: u64) -> u64 {
    if a + b > u64::MAX { u64::MAX } else { (a + b) as u64 }
}

/// `a - b`, clamped at zero.
pub open spec fn sat_sub_u64(a: u64, b: u64) -> u64 {
    if a >= b { (a - b) as u64 } else { 0 }
}

/// Lifecycle partition state of an entity near or crossing a zone boundary.
#[derive(Debug, Clone, Copy, PartialEq, Eq, Structural)]
pub enum EntityPartitionState {
    /// Entity is actively simulated and authoritative in its home zone.
    ActiveAuthoritative,
    /// Entity migration to target zone is in progress.
    MigratingInFlight {
        /// Destination zone identifier.
        target_zone: ZoneId,
        /// Tick when migration was initiated.
        initiated_tick: u64,
    },
    /// Entity is frozen in read-only state due to active partition between zones.
    FrozenReadOnly,
}

/// Renewable lease governing authoritative ownership of spatial boundary cells.
#[derive(Debug, Clone, Copy, PartialEq, Eq, Structural)]
pub struct BoundaryLease {
    /// Unique lease identifier.
    pub lease_id: u64,
    /// Zone holding authoritative ownership.
    pub owner_zone: ZoneId,
    /// Neighboring zone across the boundary.
    pub partner_zone: ZoneId,
    /// Simulation tick when lease was granted.
    pub granted_tick: u64,
    /// Simulation tick when lease expires unless renewed.
    pub expires_tick: u64,
}

impl BoundaryLease {
    /// Whether the lease is unexpired at `current_tick`.
    pub open spec fn spec_is_valid(self, current_tick: u64) -> bool {
        current_tick <= self.expires_tick
    }

    /// Creates a new boundary lease expiring `duration_ticks` after `current_tick` (saturating).
    pub fn new(
        lease_id: u64,
        owner_zone: ZoneId,
        partner_zone: ZoneId,
        current_tick: u64,
        duration_ticks: u64,
    ) -> (lease: Self)
        ensures
            lease == (BoundaryLease {
                lease_id,
                owner_zone,
                partner_zone,
                granted_tick: current_tick,
                expires_tick: sat_add_u64(current_tick, duration_ticks),
            }),
    {
        BoundaryLease {
            lease_id,
            owner_zone,
            partner_zone,
            granted_tick: current_tick,
            expires_tick: current_tick.saturating_add(duration_ticks),
        }
    }

    /// Checks if the lease is currently active and unexpired.
    pub fn is_valid(&self, current_tick: u64) -> (valid: bool)
        ensures
            valid == self.spec_is_valid(current_tick),
    {
        current_tick <= self.expires_tick
    }

    /// Renews the lease for an additional duration starting at `current_tick`.
    pub fn renew(&mut self, current_tick: u64, duration_ticks: u64)
        ensures
            *final(self) == (BoundaryLease {
                granted_tick: current_tick,
                expires_tick: sat_add_u64(current_tick, duration_ticks),
                ..*old(self)
            }),
    {
        self.granted_tick = current_tick;
        self.expires_tick = current_tick.saturating_add(duration_ticks);
    }
}

/// Heartbeat detector monitoring connectivity between adjacent zone server nodes.
#[derive(Debug, Clone, Copy, PartialEq, Eq, Structural)]
pub struct ZonePartitionDetector {
    /// Local zone identifier.
    pub local_zone: ZoneId,
    /// Remote zone identifier being monitored.
    pub remote_zone: ZoneId,
    /// Last simulation tick when a valid heartbeat was received.
    pub last_heartbeat_tick: u64,
    /// Timeout threshold in ticks before declaring partition.
    pub timeout_ticks: u64,
}

impl ZonePartitionDetector {
    /// The link is declared severed once more than `timeout_ticks` passed since the last heartbeat.
    pub open spec fn spec_is_partitioned(self, current_tick: u64) -> bool {
        sat_sub_u64(current_tick, self.last_heartbeat_tick) > self.timeout_ticks
    }

    /// Creates a new partition detector with the default timeout.
    pub fn new(local_zone: ZoneId, remote_zone: ZoneId, current_tick: u64) -> (d: Self)
        ensures
            d == (ZonePartitionDetector {
                local_zone,
                remote_zone,
                last_heartbeat_tick: current_tick,
                timeout_ticks: DEFAULT_PARTITION_TIMEOUT_TICKS,
            }),
    {
        ZonePartitionDetector {
            local_zone,
            remote_zone,
            last_heartbeat_tick: current_tick,
            timeout_ticks: DEFAULT_PARTITION_TIMEOUT_TICKS,
        }
    }

    /// Records receipt of a heartbeat; the last heartbeat tick never moves backwards.
    pub fn record_heartbeat(&mut self, current_tick: u64)
        ensures
            *final(self) == (ZonePartitionDetector {
                last_heartbeat_tick: if current_tick > old(self).last_heartbeat_tick {
                    current_tick
                } else {
                    old(self).last_heartbeat_tick
                },
                ..*old(self)
            }),
    {
        if current_tick > self.last_heartbeat_tick {
            self.last_heartbeat_tick = current_tick;
        }
    }

    /// Checks if the communication link to the remote zone is severed.
    pub fn is_partitioned(&self, current_tick: u64) -> (severed: bool)
        ensures
            severed == self.spec_is_partitioned(current_tick),
    {
        current_tick.saturating_sub(self.last_heartbeat_tick) > self.timeout_ticks
    }
}

/// Coordinates distributed boundary leases, partition detection, and split-brain resolution.
#[derive(Debug, Clone, PartialEq, Eq)]
pub struct ZonePartitionManager {
    local_zone: ZoneId,
    remote_zone: ZoneId,
    detector: ZonePartitionDetector,
    lease: BoundaryLease,
}

impl ZonePartitionManager {
    /// Local zone of this boundary.
    pub closed spec fn spec_local_zone(&self) -> ZoneId {
        self.local_zone
    }

    /// Remote zone of this boundary.
    pub closed spec fn spec_remote_zone(&self) -> ZoneId {
        self.remote_zone
    }

    /// Heartbeat detector of this boundary.
    pub closed spec fn spec_detector(&self) -> ZonePartitionDetector {
        self.detector
    }

    /// Boundary lease of this boundary.
    pub closed spec fn spec_lease(&self) -> BoundaryLease {
        self.lease
    }

    /// Outcome of a migration attempt at `current_tick`.
    pub open spec fn spec_validate_migration(&self, current_tick: u64) -> Result<(), WorldError> {
        if self.spec_detector().spec_is_partitioned(current_tick) {
            Err(WorldError::PartitionSevered {
                local_zone: self.spec_local_zone(),
                remote_zone: self.spec_remote_zone(),
            })
        } else if !self.spec_lease().spec_is_valid(current_tick) {
            Err(WorldError::LeaseExpired {
                lease_id: self.spec_lease().lease_id,
                zone_id: self.spec_local_zone(),
            })
        } else {
            Ok(())
        }
    }

    /// Creates a new partition manager for an inter-zone boundary.
    pub fn new(local_zone: ZoneId, remote_zone: ZoneId, current_tick: u64) -> (m: Self)
        ensures
            m.spec_local_zone() == local_zone,
            m.spec_remote_zone() == remote_zone,
            m.spec_detector() == (ZonePartitionDetector {
                local_zone,
                remote_zone,
                last_heartbeat_tick: current_tick,
                timeout_ticks: DEFAULT_PARTITION_TIMEOUT_TICKS,
            }),
            m.spec_lease() == (BoundaryLease {
                lease_id: 1,
                owner_zone: local_zone,
                partner_zone: remote_zone,
                granted_tick: current_tick,
                expires_tick: sat_add_u64(current_tick, DEFAULT_LEASE_DURATION_TICKS),
            }),
    {
        let detector = ZonePartitionDetector::new(local_zone, remote_zone, current_tick);
        let lease = BoundaryLease::new(
            1,
            local_zone,
            remote_zone,
            current_tick,
            DEFAULT_LEASE_DURATION_TICKS,
        );
        ZonePartitionManager { local_zone, remote_zone, detector, lease }
    }

    /// Records a heartbeat from the partner node and renews the boundary lease.
    pub fn handle_heartbeat(&mut self, current_tick: u64)
        ensures
            final(self).spec_local_zone() == old(self).spec_local_zone(),
            final(self).spec_remote_zone() == old(self).spec_remote_zone(),
            final(self).spec_detector() == (ZonePartitionDetector {
                last_heartbeat_tick: if current_tick > old(self).spec_detector().last_heartbeat_tick {
                    current_tick
                } else {
                    old(self).spec_detector().last_heartbeat_tick
                },
                ..old(self).spec_detector()
            }),
            final(self).spec_lease() == (BoundaryLease {
                granted_tick: current_tick,
                expires_tick: sat_add_u64(current_tick, DEFAULT_LEASE_DURATION_TICKS),
                ..old(self).spec_lease()
            }),
    {
        self.detector.record_heartbeat(current_tick);
        self.lease.renew(current_tick, DEFAULT_LEASE_DURATION_TICKS);
    }

    /// Evaluates a migration attempt across the boundary: severed links and expired leases refuse it.
    pub fn validate_migration(&self, current_tick: u64) -> (r: Result<(), WorldError>)
        ensures
            r == self.spec_validate_migration(current_tick),
    {
        if self.detector.is_partitioned(current_tick) {
            return Err(WorldError::PartitionSevered {
                local_zone: self.local_zone,
                remote_zone: self.remote_zone,
            });
        }
        if !self.lease.is_valid(current_tick) {
            return Err(WorldError::LeaseExpired {
                lease_id: self.lease.lease_id,
                zone_id: self.local_zone,
            });
        }
        Ok(())
    }

    /// Resolves an in-flight migration: frozen while partitioned, authoritative once healed.
    pub fn resolve_partition_rollback(&self, entity_id: u32, current_tick: u64) -> (s:
        EntityPartitionState)
        ensures
            s == (if self.spec_detector().spec_is_partitioned(current_tick) {
                EntityPartitionState::FrozenReadOnly
            } else {
                EntityPartitionState::ActiveAuthoritative
            }),
    {
        if self.detector.is_partitioned(current_tick) {
            EntityPartitionState::FrozenReadOnly
        } else {
            EntityPartitionState::ActiveAuthoritative
        }
    }

    /// Returns whether the partition detector currently reports an active network split.
    pub fn is_partitioned(&self, current_tick: u64) -> (severed: bool)
        ensures
            severed == self.spec_detector().spec_is_partitioned(current_tick),
    {
        self.detector.is_partitioned(current_tick)
    }

    /// Returns the current boundary lease.
    pub fn lease(&self) -> (l: &BoundaryLease)
        ensures
            *l == self.spec_lease(),
    {
        &self.lease
    }
}

/// A heartbeat received at `t` heals the boundary at `t`: the link is no longer severed,
/// the lease is valid, and an entity rolled back at `t` is authoritative again.
pub proof fn lemma_heartbeat_heals_boundary(
    before: ZonePartitionManager,
    after: ZonePartitionManager,
    t: u64,
)
    requires
        after.spec_local_zone() == before.spec_local_zone(),
        after.spec_remote_zone() == before.spec_remote_zone(),
        after.spec_detector() == (ZonePartitionDetector {
            last_heartbeat_tick: if t > before.spec_detector().last_heartbeat_tick {
                t
            } else {
                before.spec_detector().last_heartbeat_tick
            },
            ..before.spec_detector()
        }),
        after.spec_lease() == (BoundaryLease {
            granted_tick: t,
            expires_tick: sat_add_u64(t, DEFAULT_LEASE_DURATION_TICKS),
            ..before.spec_lease()
        }),
    ensures
        !after.spec_detector().spec_is_partitioned(t),
        after.spec_validate_migration(t) == Ok::<(), WorldError>(()),
{
}

/// A lease renewed at `t` for `d` ticks stays valid exactly through tick `t + d` (when that does not overflow).
pub proof fn lemma_renewed_lease_window(lease: BoundaryLease, t: u64, d: u64, q: u64)
    requires
        t + d <= u64::MAX,
    ensures
        (BoundaryLease { granted_tick: t, expires_tick: sat_add_u64(t, d), ..lease }).spec_is_valid(q)
            <==> q <= t + d,
{
}

} // verus!
