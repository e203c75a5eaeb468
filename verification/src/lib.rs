//! Verified world-simulation services: zone partitions, shards, instances, journals and social systems.
use vstd::prelude::*;

pub mod ability;
pub mod adaptive_shard;
pub mod aoi;
pub mod byte_order;
pub mod chat;
pub mod chunk_manifest;
pub mod cluster;
pub mod companion;
pub mod durable_journal;
pub mod error;
pub mod flight_recorder;
pub mod grid;
pub mod hibernation;
pub mod hlod;
pub mod instance;
pub mod interior;
pub mod market_coordinator;
pub mod item_transaction;
pub mod npc_ecosystem;
pub mod partition;
pub mod party;
pub mod predictive_migration;
pub mod quadtree;
pub mod reconstruction;
pub mod replicated_journal;
pub mod script_engine;
pub mod sector_parallel;
pub mod slots;
pub mod sqpoll_journal;
pub mod social;
pub mod territory;
pub mod threat;
pub mod tier;
pub mod transaction;
pub mod voice_router;
pub mod wal;
pub mod zone;

verus! {
}
