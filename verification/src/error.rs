//! Errors reported by the simulation core.
use vstd::prelude::*;

verus! {

/// Every error the simulation core reports.
///
/// Floating-point payloads are carried as their IEEE-754 binary64 bit
/// patterns, so that the error stays a plain value.
#[derive(Clone, Debug, PartialEq, Eq)]
pub enum SimError {
    UnsupportedContractVersion { received: u32, expected: u32 },
    MissingPlayers,
    EmptyRequestId,
    EmptyDataVersion,
    InvalidTime(u64),
    NonPositiveSimulationLimit,
    InvalidRandomValue(u64),
    EmptyRandomSequence,
    RandomSequenceExhausted { draws: u64 },
    StaleEventHandle,
    NonStringSeed,
    InvalidTarget(String),
    InvalidTraceConfig(String),
    InvalidGameData(String),
    UnsupportedBasicCombat(String),
    UnsupportedDirectDamageCombat(String),
    SimulationQueueExhausted,
    DirectDamageQueueExhausted,
}

} // verus!
