use std::collections::BTreeMap;

use mwi_sim_core::basic_data::{
    BasicGameData, BasicMonsterData, BasicZoneData, BASIC_DATA_VERSION,
};
use mwi_sim_core::combat_scope::{validate_request_scope, CombatScope};
use mwi_sim_core::float_bits::Number;
use mwi_sim_core::json::JsonValue;
use mwi_sim_core::player::{BasicPlayerDto, DirectAbilityDto, DirectPlayerDto, PlayerLevels};
use mwi_sim_core::{
    RandomConfigV1, SimError, SimTime, SimulationOptionsV1, SimulationRequestV1,
    SimulationTargetV1, StatisticsMode,
};

fn num(v: f64) -> Number {
    Number { bits: v.to_bits(), text: v.to_string() }
}

fn time(v: f64) -> SimTime {
    SimTime::new(v.to_bits()).unwrap()
}

fn fly_data() -> BasicGameData {
    BasicGameData {
        schema_version: 1,
        data_version: BASIC_DATA_VERSION.into(),
        sources: JsonValue::Array(Vec::new()),
        zone: BasicZoneData {
            hrid: "/actions/combat/fly".into(),
            monster_hrid: "/monsters/fly".into(),
            difficulty_tier: 0,
            spawn_count: 1,
            respawn_interval: time(3_000_000_000.0),
        },
        monster: BasicMonsterData {
            hrid: "/monsters/fly".into(),
            max_hitpoints: num(100.0),
            max_manapoints: num(100.0),
            attack_level: num(0.0),
            base_attack_interval: time(3_000_000_000.0),
            smash_accuracy_rating: num(10.0),
            smash_max_damage: num(10.0),
            smash_evasion_rating: num(10.0),
            total_armor: num(0.0),
            auto_attack_damage: num(0.0),
            experience: num(5.0),
            enrage_time: time(0.0),
        },
    }
}

fn fly_request() -> SimulationRequestV1 {
    SimulationRequestV1 {
        contract_version: 1,
        request_id: "parity-zone-solo-basic-v1".into(),
        data_version: BASIC_DATA_VERSION.into(),
        players: vec![JsonValue::Object(vec![(
            "hrid".into(),
            JsonValue::String("player1".into()),
        )])],
        target: SimulationTargetV1::Zone {
            zone_hrid: "/actions/combat/fly".into(),
            difficulty_tier: 0,
            extensions: BTreeMap::new(),
        },
        simulation_time_limit: time(3_600_000_000_000.0),
        random: Some(RandomConfigV1::Seeded { seed: JsonValue::String("zone".into()) }),
        options: SimulationOptionsV1::default(),
        extensions: BTreeMap::new(),
    }
}

fn levels(stamina: f64) -> PlayerLevels {
    PlayerLevels {
        stamina_level: num(stamina),
        intelligence_level: num(1.0),
        attack_level: num(1.0),
        melee_level: num(1.0),
        defense_level: num(1.0),
        ranged_level: num(1.0),
        magic_level: num(1.0),
    }
}

fn basic_player() -> BasicPlayerDto {
    BasicPlayerDto {
        hrid: "player1".into(),
        levels: levels(1.0),
        equipment: JsonValue::Null,
        food: Vec::new(),
        drinks: Vec::new(),
        abilities: Vec::new(),
        house_rooms: JsonValue::Object(Vec::new()),
        guild_buffs: JsonValue::Array(Vec::new()),
        achievements: JsonValue::Null,
        debuff_on_level_gap: num(0.0),
        extensions: Vec::new(),
    }
}

fn direct_player() -> DirectPlayerDto {
    DirectPlayerDto {
        hrid: "player1".into(),
        levels: levels(1.0),
        equipment: JsonValue::Null,
        food: Vec::new(),
        drinks: Vec::new(),
        abilities: vec![DirectAbilityDto {
            hrid: "/abilities/aqua_arrow".into(),
            level: 1,
            triggers: Vec::new(),
            extensions: Vec::new(),
        }],
        house_rooms: JsonValue::Null,
        guild_buffs: JsonValue::Null,
        achievements: JsonValue::Null,
        debuff_on_level_gap: num(-0.0),
        extensions: Vec::new(),
    }
}

fn basic_refusal(message: &str) -> Result<(), SimError> {
    Err(SimError::UnsupportedBasicCombat(message.into()))
}

fn direct_refusal(message: &str) -> Result<(), SimError> {
    Err(SimError::UnsupportedDirectDamageCombat(message.into()))
}

#[test]
fn rejects_requests_outside_the_basic_capability() {
    let data = fly_data();
    let mut request = fly_request();
    request.players.push(request.players[0].clone());
    assert!(matches!(
        validate_request_scope(CombatScope::Basic, &request, &data),
        Err(SimError::UnsupportedBasicCombat(_))
    ));

    let mut player = basic_player();
    player.abilities.push(JsonValue::Object(vec![(
        "hrid".into(),
        JsonValue::String("/abilities/smack".into()),
    )]));
    assert!(matches!(player.validate(), Err(SimError::UnsupportedBasicCombat(_))));
}

#[test]
fn rejects_unpromoted_abilities() {
    let mut player = direct_player();
    player.abilities[0].hrid = "/abilities/fireball".into();
    assert!(matches!(player.validate(), Err(SimError::UnsupportedDirectDamageCombat(_))));
}

#[test]
fn the_fly_request_is_within_both_engines() {
    let data = fly_data();
    let request = fly_request();
    assert_eq!(validate_request_scope(CombatScope::Basic, &request, &data), Ok(()));
    assert_eq!(validate_request_scope(CombatScope::DirectDamage, &request, &data), Ok(()));
    assert_eq!(basic_player().validate(), Ok(()));
    assert_eq!(direct_player().validate(), Ok(()));
}

#[test]
fn scope_refusals_name_the_first_failing_check() {
    let data = fly_data();
    let mut request = fly_request();
    request.data_version = "other".into();
    assert_eq!(
        validate_request_scope(CombatScope::Basic, &request, &data),
        basic_refusal("dataVersion must be repository-v1.0.28")
    );
    let mut request = fly_request();
    request.target = SimulationTargetV1::Zone {
        zone_hrid: "/actions/combat/fly".into(),
        difficulty_tier: 1,
        extensions: BTreeMap::new(),
    };
    assert_eq!(
        validate_request_scope(CombatScope::DirectDamage, &request, &data),
        direct_refusal("M3D supports only the tier-0 /actions/combat/fly Zone")
    );
    let mut request = fly_request();
    request.options.statistics_mode = StatisticsMode::Fast;
    request.options.trace.enabled = true;
    assert_eq!(
        validate_request_scope(CombatScope::Basic, &request, &data),
        basic_refusal("statisticsMode must be full")
    );
    let mut request = fly_request();
    request.options.enable_hp_mp_visualization = true;
    assert_eq!(
        validate_request_scope(CombatScope::DirectDamage, &request, &data),
        direct_refusal("HP/MP visualization is not supported in M3D")
    );
    let mut request = fly_request();
    request.options.trace.enabled = true;
    assert_eq!(
        validate_request_scope(CombatScope::DirectDamage, &request, &data),
        direct_refusal("event trace is not supported in the Rust M3D runtime")
    );
    let mut request = fly_request();
    request.options.extra = JsonValue::Object(vec![("x".into(), JsonValue::Null)]);
    assert_eq!(
        validate_request_scope(CombatScope::Basic, &request, &data),
        basic_refusal("M2 does not accept extra or unknown request options")
    );
    let mut request = fly_request();
    request.extensions.insert("futureTopLevel".into(), JsonValue::Null);
    assert_eq!(
        validate_request_scope(CombatScope::Basic, &request, &data),
        basic_refusal("M2 does not accept extra or unknown request options")
    );
}

#[test]
fn contract_errors_come_before_scope_errors() {
    let data = fly_data();
    let mut request = fly_request();
    request.contract_version = 7;
    request.players.clear();
    assert_eq!(
        validate_request_scope(CombatScope::Basic, &request, &data),
        Err(SimError::UnsupportedContractVersion { received: 7, expected: 1 })
    );
}

#[test]
fn player_levels_must_be_finite_and_give_positive_pools() {
    let mut player = basic_player();
    player.levels.attack_level = num(f64::INFINITY);
    player.levels.magic_level = num(f64::NAN);
    assert_eq!(player.validate(), basic_refusal("player.attackLevel must be finite"));
    let mut player = basic_player();
    player.levels = levels(-10.0);
    assert_eq!(
        player.validate(),
        basic_refusal("player stamina/intelligence levels must produce positive HP and MP")
    );
    player.levels = levels(-9.5);
    assert_eq!(player.validate(), Ok(()));
    player.hrid = "   ".into();
    assert_eq!(player.validate(), basic_refusal("player.hrid must not be empty"));
}

#[test]
fn players_with_extras_are_refused() {
    let mut player = basic_player();
    player.food.push(JsonValue::Null);
    assert_eq!(
        player.validate(),
        basic_refusal("M2 only supports players without equipment, abilities, consumables, rooms, guild buffs, or achievements")
    );
    let mut player = basic_player();
    player.debuff_on_level_gap = num(0.5);
    assert_eq!(player.validate(), basic_refusal("debuffOnLevelGap must be zero in M2"));
    let mut player = basic_player();
    player.extensions = vec![
        ("futureA".into(), JsonValue::Null),
        ("futureB".into(), JsonValue::Bool(true)),
    ];
    assert_eq!(player.validate(), basic_refusal("unsupported player fields: futureA, futureB"));

    let mut player = direct_player();
    player.abilities.clear();
    assert_eq!(player.validate(), direct_refusal("M3D requires exactly one ability"));
    let mut player = direct_player();
    player.abilities[0].level = 2;
    assert_eq!(
        player.validate(),
        direct_refusal("M3D formally supports only level-1 /abilities/aqua_arrow")
    );
    let mut player = direct_player();
    player.abilities[0].triggers.push(JsonValue::Null);
    assert_eq!(
        player.validate(),
        direct_refusal(
            "M3D Aqua Arrow requires an empty custom Trigger list and no unknown ability fields"
        )
    );
    let mut player = direct_player();
    player.equipment = JsonValue::Object(vec![("slot".into(), JsonValue::Null)]);
    assert_eq!(
        player.validate(),
        direct_refusal("M3D does not support equipment, consumables, rooms, guild buffs, or achievements")
    );
    let mut player = direct_player();
    player.extensions = vec![("x".into(), JsonValue::Null)];
    assert_eq!(player.validate(), direct_refusal("unsupported player fields: x"));
}

#[test]
fn the_slice_validates_and_reports_the_attack_interval_outcome() {
    let data = fly_data();
    assert_eq!(data.validate(Ok(time(3_000_000_000.0))), Ok(()));
    assert_eq!(
        data.validate(Err(SimError::InvalidTime(f64::NAN.to_bits()))),
        Err(SimError::InvalidTime(f64::NAN.to_bits()))
    );
    let mut bad = fly_data();
    bad.monster.max_hitpoints = num(0.0);
    assert!(matches!(bad.validate(Ok(time(1.0))), Err(SimError::InvalidGameData(_))));
    let mut bad = fly_data();
    bad.zone.spawn_count = 2;
    assert!(matches!(bad.validate(Ok(time(1.0))), Err(SimError::InvalidGameData(_))));
}
