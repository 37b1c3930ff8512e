//! Verified core of the Milky Way Idle combat simulator: simulation time,
//! deterministic random sources, the stable event queue, request contracts,
//! game-data snapshot validation and capability classification.
use vstd::prelude::*;

pub mod ability_data;
pub mod auto_attack_capabilities;
pub mod basic_data;
pub mod combat_data;
pub mod combat_result;
pub mod combat_scope;
pub mod contracts;
pub mod error;
pub mod event_queue;
pub mod float_bits;
pub mod json;
pub mod player;
pub mod rng;
pub mod sorting;
pub mod text;
pub mod time;
pub mod whole;

pub use contracts::{
    LabyrinthCrates, RandomConfigV1, SimulationOptionsV1, SimulationRequestV1, SimulationTargetV1,
    StatisticsMode, TraceConfigV1, TraceDetailLevel,
};
pub use error::SimError;
pub use event_queue::{EventHandle, EventKey, ScheduledEvent, StableEventQueue};
pub use rng::{SeededRandom, SequenceRandom};
pub use time::SimTime;

verus! {

/// Identifier of the foundation engine.
pub const ENGINE_ID: &'static str = "rust-core-foundation";

/// The version of this library, reported by the engines.
pub const ENGINE_VERSION: &'static str = "0.1.0";

/// Version of the simulation request contract accepted by this library.
pub const CONTRACT_VERSION: u32 = 1;

} // verus!
