//! Multi-zone cluster tick accounting.
use vstd::prelude::*;

verus! {

/// Per-tick aggregate metrics of a multi-zone cluster.
#[derive(Debug, Clone, Copy, PartialEq, Eq, Default, Structural)]
pub struct ClusterTickMetrics {
    /// Cluster tick index.
    pub tick_id: u64,
    /// Total live entities across all zones.
    pub total_entities: usize,
    /// Cross-zone migrations completed during the tick.
    pub migrations_completed: usize,
    /// Cross-zone migrations dropped during the tick.
    pub migrations_dropped: usize,
}

} // verus!
