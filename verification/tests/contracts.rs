use std::collections::BTreeMap;

use mwi_sim_core::contracts::{default_trace_max_entries, is_basic_trace_detail};
use mwi_sim_core::json::JsonValue;
use mwi_sim_core::{
    LabyrinthCrates, RandomConfigV1, SimError, SimTime, SimulationOptionsV1, SimulationRequestV1,
    SimulationTargetV1, StatisticsMode, TraceConfigV1, TraceDetailLevel, CONTRACT_VERSION,
};

fn zone_request() -> SimulationRequestV1 {
    SimulationRequestV1 {
        contract_version: 1,
        request_id: "parity-zone-solo-basic-v1".into(),
        data_version: "repository-v1.0.28".into(),
        players: vec![JsonValue::Object(vec![(
            "hrid".into(),
            JsonValue::String("player1".into()),
        )])],
        target: SimulationTargetV1::Zone {
            zone_hrid: "/actions/combat/fly".into(),
            difficulty_tier: 0,
            extensions: BTreeMap::new(),
        },
        simulation_time_limit: SimTime::new(3_600_000_000_000.0f64.to_bits()).unwrap(),
        random: Some(RandomConfigV1::Seeded { seed: JsonValue::String("zone".into()) }),
        options: SimulationOptionsV1::default(),
        extensions: BTreeMap::new(),
    }
}

#[test]
fn rejects_invalid_contracts_before_any_engine_exists() {
    let mut request = zone_request();
    request.contract_version = 2;
    assert!(matches!(
        request.validate(),
        Err(SimError::UnsupportedContractVersion { received: 2, .. })
    ));

    request.contract_version = CONTRACT_VERSION;
    request.players.clear();
    assert!(matches!(request.validate(), Err(SimError::MissingPlayers)));
}

#[test]
fn a_complete_zone_request_is_valid() {
    assert_eq!(zone_request().validate(), Ok(()));
}

#[test]
fn checks_run_in_order_and_the_first_failure_is_reported() {
    let mut request = zone_request();
    request.request_id = " \t".into();
    request.data_version = String::new();
    assert_eq!(request.validate(), Err(SimError::EmptyRequestId));
    request.request_id = "id".into();
    assert_eq!(request.validate(), Err(SimError::EmptyDataVersion));
    request.data_version = "v".into();
    request.simulation_time_limit = SimTime::zero();
    assert_eq!(request.validate(), Err(SimError::NonPositiveSimulationLimit));
    request.simulation_time_limit = SimTime::new(1.0f64.to_bits()).unwrap();
    request.options.trace.max_entries = 0;
    assert_eq!(
        request.validate(),
        Err(SimError::InvalidTraceConfig("trace.maxEntries must be greater than zero".into()))
    );
}

#[test]
fn targets_need_ids_and_labyrinths_a_room_level() {
    let mut request = zone_request();
    request.target = SimulationTargetV1::Zone {
        zone_hrid: "  ".into(),
        difficulty_tier: 0,
        extensions: BTreeMap::new(),
    };
    assert_eq!(request.validate(), Err(SimError::InvalidTarget("zoneHrid must not be empty".into())));
    request.target = SimulationTargetV1::Labyrinth {
        labyrinth_hrid: "".into(),
        room_level: 0,
        crates: LabyrinthCrates::Count(2),
        extensions: BTreeMap::new(),
    };
    assert_eq!(
        request.validate(),
        Err(SimError::InvalidTarget("labyrinthHrid must not be empty".into()))
    );
    request.target = SimulationTargetV1::Labyrinth {
        labyrinth_hrid: "/labyrinths/x".into(),
        room_level: 0,
        crates: LabyrinthCrates::default(),
        extensions: BTreeMap::new(),
    };
    assert_eq!(
        request.validate(),
        Err(SimError::InvalidTarget("roomLevel must be greater than zero".into()))
    );
    request.target = SimulationTargetV1::Labyrinth {
        labyrinth_hrid: "/labyrinths/x".into(),
        room_level: 3,
        crates: LabyrinthCrates::Hrids(vec!["/crates/a".into()]),
        extensions: BTreeMap::new(),
    };
    assert_eq!(request.validate(), Ok(()));
}

#[test]
fn random_sequences_are_checked_value_by_value() {
    let mut request = zone_request();
    request.random = Some(RandomConfigV1::Sequence { values: Vec::new(), loop_values: true });
    assert_eq!(request.validate(), Err(SimError::EmptyRandomSequence));
    request.random = Some(RandomConfigV1::Sequence {
        values: vec![0.5f64.to_bits(), 1.5f64.to_bits(), 2.0f64.to_bits()],
        loop_values: false,
    });
    assert_eq!(request.validate(), Err(SimError::InvalidRandomValue(1.5f64.to_bits())));
    request.random = Some(RandomConfigV1::Native);
    assert_eq!(request.validate(), Ok(()));
    request.random = None;
    assert_eq!(request.validate(), Ok(()));
}

#[test]
fn option_defaults_match_the_contract() {
    let options = SimulationOptionsV1::default();
    assert_eq!(options.statistics_mode, StatisticsMode::Full);
    assert!(!options.enable_hp_mp_visualization);
    assert_eq!(options.trace, TraceConfigV1::default());
    assert_eq!(options.trace.max_entries, 100_000);
    assert_eq!(default_trace_max_entries(), 100_000);
    assert!(matches!(options.extra, JsonValue::Object(ref m) if m.is_empty()));
    assert!(options.extensions.is_empty());
    assert_eq!(TraceDetailLevel::default(), TraceDetailLevel::Basic);
    assert!(is_basic_trace_detail(&TraceDetailLevel::Basic));
    assert!(!is_basic_trace_detail(&TraceDetailLevel::Combat));
    assert_eq!(StatisticsMode::default(), StatisticsMode::Full);
    assert!(matches!(LabyrinthCrates::default(), LabyrinthCrates::Hrids(v) if v.is_empty()));
}
