//! The simulation request contract (version 1) and its validation.
use vstd::prelude::*;

use std::collections::BTreeMap;

use crate::error::SimError;
use crate::float_bits;
use crate::json::JsonValue;
use crate::rng::{all_unit_values, first_invalid_value, validate_unit_value};
use crate::text::{is_blank, spec_is_blank};
use crate::time::SimTime;
use crate::CONTRACT_VERSION;

verus! {

/// How much statistical detail a run collects.
#[derive(Clone, Copy, Debug, PartialEq, Eq)]
pub enum StatisticsMode {
    Full,
    Fast,
}

impl Default for StatisticsMode {
    fn default() -> (r: Self)
        ensures
            r == StatisticsMode::Full,
    {
        StatisticsMode::Full
    }
}

/// How much an event trace records.
#[derive(Clone, Copy, Debug, PartialEq, Eq)]
pub enum TraceDetailLevel {
    Basic,
    Combat,
}

impl Default for TraceDetailLevel {
    fn default() -> (r: Self)
        ensures
            r == TraceDetailLevel::Basic,
    {
        TraceDetailLevel::Basic
    }
}

/// Whether the detail level is the default `Basic` one (which is left out
/// when a request is written back).
pub fn is_basic_trace_detail(value: &TraceDetailLevel) -> (r: bool)
    ensures
        r == (*value == TraceDetailLevel::Basic),
{
    match value {
        TraceDetailLevel::Basic => true,
        TraceDetailLevel::Combat => false,
    }
}

/// The default limit on trace entries.
pub fn default_trace_max_entries() -> (r: u64)
    ensures
        r == 100_000,
{
    100_000
}

/// Event trace settings.
#[derive(Clone, Debug, PartialEq, Eq)]
pub struct TraceConfigV1 {
    pub enabled: bool,
    pub max_entries: u64,
    pub detail_level: TraceDetailLevel,
}

impl Default for TraceConfigV1 {
    fn default() -> (r: Self)
        ensures
            !r.enabled,
            r.max_entries == 100_000,
            r.detail_level == TraceDetailLevel::Basic,
    {
        TraceConfigV1 {
            enabled: false,
            max_entries: default_trace_max_entries(),
            detail_level: TraceDetailLevel::Basic,
        }
    }
}

/// Run options. `extra` and unknown fields are kept as JSON.
#[derive(Clone, Debug)]
pub struct SimulationOptionsV1 {
    pub statistics_mode: StatisticsMode,
    pub enable_hp_mp_visualization: bool,
    pub trace: TraceConfigV1,
    pub extra: JsonValue,
    pub extensions: BTreeMap<String, JsonValue>,
}

impl Default for SimulationOptionsV1 {
    fn default() -> (r: Self)
        ensures
            r.statistics_mode == StatisticsMode::Full,
            !r.enable_hp_mp_visualization,
            !r.trace.enabled,
            r.trace.max_entries == 100_000,
            r.trace.detail_level == TraceDetailLevel::Basic,
            r.extra matches JsonValue::Object(m) && m@.len() == 0,
            r.extensions@.is_empty(),
    {
        SimulationOptionsV1 {
            statistics_mode: StatisticsMode::Full,
            enable_hp_mp_visualization: false,
            trace: TraceConfigV1::default(),
            extra: JsonValue::empty_object(),
            extensions: BTreeMap::new(),
        }
    }
}

/// The crates of a labyrinth target: a count or a list of crate ids.
#[derive(Clone, Debug, PartialEq, Eq)]
pub enum LabyrinthCrates {
    Count(u32),
    Hrids(Vec<String>),
}

impl Default for LabyrinthCrates {
    fn default() -> (r: Self)
        ensures
            r matches LabyrinthCrates::Hrids(v) && v@.len() == 0,
    {
        LabyrinthCrates::Hrids(Vec::new())
    }
}

/// What is simulated: a combat zone or a labyrinth room.
#[derive(Clone, Debug)]
pub enum SimulationTargetV1 {
    Zone {
        zone_hrid: String,
        difficulty_tier: u32,
        extensions: BTreeMap<String, JsonValue>,
    },
    Labyrinth {
        labyrinth_hrid: String,
        room_level: u32,
        crates: LabyrinthCrates,
        extensions: BTreeMap<String, JsonValue>,
    },
}

/// The target is acceptable.
pub open spec fn target_valid(t: SimulationTargetV1) -> bool {
    match t {
        SimulationTargetV1::Zone { zone_hrid, .. } => !spec_is_blank(zone_hrid@),
        SimulationTargetV1::Labyrinth { labyrinth_hrid, room_level, .. } => !spec_is_blank(
            labyrinth_hrid@,
        ) && room_level != 0,
    }
}

/// The error a refused target is reported with.
pub open spec fn target_error(t: SimulationTargetV1, e: SimError) -> bool {
    match t {
        SimulationTargetV1::Zone { .. } => e matches SimError::InvalidTarget(m) && m@
            == "zoneHrid must not be empty"@,
        SimulationTargetV1::Labyrinth { labyrinth_hrid, .. } => if spec_is_blank(labyrinth_hrid@) {
            e matches SimError::InvalidTarget(m) && m@ == "labyrinthHrid must not be empty"@
        } else {
            e matches SimError::InvalidTarget(m) && m@ == "roomLevel must be greater than zero"@
        },
    }
}

impl SimulationTargetV1 {
    /// A zone needs a non-blank zone id; a labyrinth needs a non-blank
    /// labyrinth id and a positive room level (the id is checked first).
    pub fn validate(&self) -> (r: Result<(), SimError>)
        ensures
            r is Ok <==> target_valid(*self),
            r matches Err(e) ==> target_error(*self, e),
    {
        match self {
            SimulationTargetV1::Zone { zone_hrid, .. } => {
                if is_blank(zone_hrid.as_str()) {
                    return Err(SimError::InvalidTarget("zoneHrid must not be empty".to_owned()));
                }
                Ok(())
            },
            SimulationTargetV1::Labyrinth { labyrinth_hrid, room_level, .. } => {
                if is_blank(labyrinth_hrid.as_str()) {
                    return Err(
                        SimError::InvalidTarget("labyrinthHrid must not be empty".to_owned()),
                    );
                }
                if *room_level == 0 {
                    return Err(
                        SimError::InvalidTarget("roomLevel must be greater than zero".to_owned()),
                    );
                }
                Ok(())
            },
        }
    }
}

/// Where the random values of a run come from. Sequence values are unit
/// values held as binary64 bit patterns.
#[derive(Clone, Debug)]
pub enum RandomConfigV1 {
    Native,
    Seeded { seed: JsonValue },
    Sequence { values: Vec<u64>, loop_values: bool },
}

/// The random configuration is acceptable.
pub open spec fn random_valid(c: RandomConfigV1) -> bool {
    match c {
        RandomConfigV1::Sequence { values, .. } => values@.len() > 0 && all_unit_values(values@),
        _ => true,
    }
}

/// The error a refused random configuration is reported with.
pub open spec fn random_error(c: RandomConfigV1, e: SimError) -> bool {
    match c {
        RandomConfigV1::Sequence { values, .. } => if values@.len() == 0 {
            e == SimError::EmptyRandomSequence
        } else {
            exists|k: int| first_invalid_value(values@, k) && e == SimError::InvalidRandomValue(values@[k])
        },
        _ => false,
    }
}

impl RandomConfigV1 {
    /// A sequence must be non-empty and hold only finite values in `[0, 1)`;
    /// the first offending value is reported.
    #[verifier::loop_isolation(false)]
    pub fn validate(&self) -> (r: Result<(), SimError>)
        ensures
            r is Ok <==> random_valid(*self),
            r matches Err(e) ==> random_error(*self, e),
    {
        if let RandomConfigV1::Sequence { values, .. } = self {
            if values.len() == 0 {
                return Err(SimError::EmptyRandomSequence);
            }
            let mut i: usize = 0;
            while i < values.len()
                invariant
                    0 <= i <= values@.len(),
                    forall|j: int|
                        0 <= j < i ==> float_bits::spec_in_unit_interval(#[trigger] values@[j]),
                decreases values@.len() - i,
            {
                let checked = validate_unit_value(values[i]);
                if checked.is_err() {
                    assert(first_invalid_value(values@, i as int));
                    return checked;
                }
                i = i + 1;
            }
        }
        Ok(())
    }
}

/// A simulation request. Players and unknown fields are kept as JSON.
#[derive(Clone, Debug)]
pub struct SimulationRequestV1 {
    pub contract_version: u32,
    pub request_id: String,
    pub data_version: String,
    pub players: Vec<JsonValue>,
    pub target: SimulationTargetV1,
    pub simulation_time_limit: SimTime,
    pub random: Option<RandomConfigV1>,
    pub options: SimulationOptionsV1,
    pub extensions: BTreeMap<String, JsonValue>,
}

/// The checks before the target and random checks all pass.
pub open spec fn request_header_valid(r: SimulationRequestV1) -> bool {
    &&& r.contract_version == CONTRACT_VERSION
    &&& !spec_is_blank(r.request_id@)
    &&& !spec_is_blank(r.data_version@)
    &&& r.players@.len() > 0
    &&& r.simulation_time_limit@ != 0
    &&& r.options.trace.max_entries != 0
}

/// The request is acceptable.
pub open spec fn request_valid(r: SimulationRequestV1) -> bool {
    &&& request_header_valid(r)
    &&& target_valid(r.target)
    &&& match r.random {
        Some(c) => random_valid(c),
        None => true,
    }
}

/// The error a refused request is reported with: that of the first check
/// that fails, in the order of `SimulationRequestV1::validate`.
pub open spec fn request_error(r: SimulationRequestV1, e: SimError) -> bool {
    if r.contract_version != CONTRACT_VERSION {
        e == SimError::UnsupportedContractVersion {
            received: r.contract_version,
            expected: CONTRACT_VERSION,
        }
    } else if spec_is_blank(r.request_id@) {
        e == SimError::EmptyRequestId
    } else if spec_is_blank(r.data_version@) {
        e == SimError::EmptyDataVersion
    } else if r.players@.len() == 0 {
        e == SimError::MissingPlayers
    } else if r.simulation_time_limit@ == 0 {
        e == SimError::NonPositiveSimulationLimit
    } else if r.options.trace.max_entries == 0 {
        e matches SimError::InvalidTraceConfig(m) && m@
            == "trace.maxEntries must be greater than zero"@
    } else if !target_valid(r.target) {
        target_error(r.target, e)
    } else {
        match r.random {
            Some(c) => random_error(c, e),
            None => false,
        }
    }
}

impl SimulationRequestV1 {
    /// Checks, in this order: the contract version, a non-blank request id,
    /// a non-blank data version, at least one player, a non-zero time
    /// limit, a positive trace limit, the target and the random
    /// configuration. The first failing check decides the error.
    pub fn validate(&self) -> (r: Result<(), SimError>)
        ensures
            r is Ok <==> request_valid(*self),
            r matches Err(e) ==> request_error(*self, e),
    {
        if self.contract_version != CONTRACT_VERSION {
            return Err(
                SimError::UnsupportedContractVersion {
                    received: self.contract_version,
                    expected: CONTRACT_VERSION,
                },
            );
        }
        if is_blank(self.request_id.as_str()) {
            return Err(SimError::EmptyRequestId);
        }
        if is_blank(self.data_version.as_str()) {
            return Err(SimError::EmptyDataVersion);
        }
        if self.players.len() == 0 {
            return Err(SimError::MissingPlayers);
        }
        if self.simulation_time_limit.is_zero() {
            return Err(SimError::NonPositiveSimulationLimit);
        }
        if self.options.trace.max_entries == 0 {
            return Err(
                SimError::InvalidTraceConfig("trace.maxEntries must be greater than zero".to_owned()),
            );
        }
        let target = self.target.validate();
        if target.is_err() {
            return target;
        }
        match &self.random {
            Some(random) => random.validate(),
            None => Ok(()),
        }
    }
}

} // verus!
