use std::collections::BTreeMap;

use mwi_sim_core::basic_data::{BasicGameData, BasicMonsterData, BasicZoneData};
use mwi_sim_core::combat_result::{
    label_of, AttackOutcome, BasicCombatResultV1, DirectDamageCombatResultV1, TallyV1,
};
use mwi_sim_core::float_bits::Number;
use mwi_sim_core::json::JsonValue;
use mwi_sim_core::whole::whole_value;
use mwi_sim_core::{
    RandomConfigV1, SimError, SimTime, SimulationOptionsV1, SimulationRequestV1,
    SimulationTargetV1,
};

fn num(v: f64) -> Number {
    Number { bits: v.to_bits(), text: v.to_string() }
}

fn time(v: f64) -> SimTime {
    SimTime::new(v.to_bits()).unwrap()
}

fn path(names: &[&str]) -> Vec<String> {
    names.iter().map(|s| s.to_string()).collect()
}

fn request() -> SimulationRequestV1 {
    SimulationRequestV1 {
        contract_version: 1,
        request_id: "run-1".into(),
        data_version: "repository-v1.0.28".into(),
        players: vec![JsonValue::Null],
        target: SimulationTargetV1::Zone {
            zone_hrid: "/actions/combat/fly".into(),
            difficulty_tier: 0,
            extensions: BTreeMap::new(),
        },
        simulation_time_limit: time(1.0),
        random: Some(RandomConfigV1::Native),
        options: SimulationOptionsV1::default(),
        extensions: BTreeMap::new(),
    }
}

fn data() -> BasicGameData {
    BasicGameData {
        schema_version: 1,
        data_version: "repository-v1.0.28".into(),
        sources: JsonValue::Null,
        zone: BasicZoneData {
            hrid: "/actions/combat/fly".into(),
            monster_hrid: "/monsters/fly".into(),
            difficulty_tier: 0,
            spawn_count: 1,
            respawn_interval: time(3_000_000_000.0),
        },
        monster: BasicMonsterData {
            hrid: "/monsters/fly".into(),
            max_hitpoints: num(100.0),
            max_manapoints: num(100.0),
            attack_level: num(0.0),
            base_attack_interval: time(3_000_000_000.0),
            smash_accuracy_rating: num(10.0),
            smash_max_damage: num(10.0),
            smash_evasion_rating: num(10.0),
            total_armor: num(0.0),
            auto_attack_damage: num(0.0),
            experience: num(5.0),
            enrage_time: time(0.0),
        },
    }
}

#[test]
fn tallies_count_each_path_once() {
    let mut t = TallyV1::new();
    t.add(path(&["a", "b"]), 1);
    t.add(path(&["a"]), 5);
    t.add(path(&["a", "b"]), 2);
    assert_eq!(t.count(&path(&["a", "b"])), 3);
    assert_eq!(t.count(&path(&["a"])), 5);
    assert_eq!(t.count(&path(&["b"])), 0);
    assert_eq!(
        t.entries(),
        &vec![(path(&["a"]), 5), (path(&["a", "b"]), 3)]
    );
}

#[test]
fn tallies_list_paths_in_nested_map_order() {
    let mut t = TallyV1::new();
    t.add(path(&["player", "fly", "auto", "miss"]), 1);
    t.add(path(&["fly", "player", "auto", "12"]), 1);
    t.add(path(&["player", "fly", "auto", "10"]), 2);
    t.add(path(&["fly", "player", "auto", "12"]), 1);
    assert_eq!(
        t.entries(),
        &vec![
            (path(&["fly", "player", "auto", "12"]), 2),
            (path(&["player", "fly", "auto", "10"]), 2),
            (path(&["player", "fly", "auto", "miss"]), 1),
        ]
    );
}

#[test]
fn outcomes_are_labelled_by_damage_or_miss() {
    assert_eq!(label_of(AttackOutcome { did_hit: true, damage_done: 42 }), "42");
    assert_eq!(label_of(AttackOutcome { did_hit: true, damage_done: 0 }), "0");
    assert_eq!(label_of(AttackOutcome { did_hit: false, damage_done: 0 }), "miss");
}

#[test]
fn basic_results_start_empty_and_count_attacks_and_deaths() {
    let mut r = BasicCombatResultV1::new(&request(), &data());
    assert_eq!(r.result_type, "basic_combat_result");
    assert_eq!(r.engine, "rust-basic-combat");
    assert_eq!(r.compatibility_level, "basic-auto-attack-v1");
    assert_eq!(r.request_id, "run-1");
    assert_eq!(r.zone_name, "/actions/combat/fly");
    assert_eq!(r.simulated_time, SimTime::zero());
    r.record_attack("/players/p", "/monsters/fly", AttackOutcome { did_hit: true, damage_done: 7 });
    r.record_attack("/players/p", "/monsters/fly", AttackOutcome { did_hit: true, damage_done: 7 });
    r.record_attack("/players/p", "/monsters/fly", AttackOutcome { did_hit: false, damage_done: 0 });
    r.record_death("/monsters/fly");
    assert_eq!(r.attacks.count(&path(&["/players/p", "/monsters/fly", "autoAttack", "7"])), 2);
    assert_eq!(r.attacks.count(&path(&["/players/p", "/monsters/fly", "autoAttack", "miss"])), 1);
    assert_eq!(r.deaths.count(&path(&["/monsters/fly"])), 1);
    assert_eq!(r.encounters, 0);
}

#[test]
fn direct_results_count_mana_by_source_and_ability() {
    let mut r = DirectDamageCombatResultV1::new(&request());
    assert_eq!(r.result_type, "direct_damage_combat_result");
    assert_eq!(r.engine, "rust-direct-damage");
    assert_eq!(r.data_version, "repository-v1.0.28");
    r.record_attack("p", "m", "/abilities/aqua_arrow", AttackOutcome { did_hit: true, damage_done: 20 });
    assert_eq!(r.attacks.count(&path(&["p", "m", "/abilities/aqua_arrow", "20"])), 1);
    assert_eq!(r.record_mana_used("p", "/abilities/aqua_arrow", &num(10.0)), Ok(()));
    assert_eq!(r.record_mana_used("p", "/abilities/aqua_arrow", &num(10.0)), Ok(()));
    assert_eq!(r.mana_used.count(&path(&["p", "/abilities/aqua_arrow"])), 20);
    assert_eq!(
        r.record_mana_used("p", "/abilities/aqua_arrow", &num(2.5)),
        Err(SimError::UnsupportedDirectDamageCombat(
            "mana cost for /abilities/aqua_arrow must be a non-negative integer".into()
        ))
    );
    assert!(r.record_mana_used("p", "x", &num(-1.0)).is_err());
    assert!(r.record_mana_used("p", "x", &num(f64::NAN)).is_err());
    assert_eq!(r.mana_used.count(&path(&["p", "x"])), 0);
    r.record_death("p");
    assert_eq!(r.deaths.count(&path(&["p"])), 1);
}

#[test]
fn whole_values_convert_like_a_saturating_cast() {
    for v in [0.0, -0.0, 1.0, 10.0, 4096.0, 9_007_199_254_740_993.0, 1e19, 1.5e19] {
        assert_eq!(whole_value(f64::to_bits(v)), Some(v as u64), "{v}");
    }
    assert_eq!(whole_value(1e30f64.to_bits()), Some(u64::MAX));
    assert_eq!(whole_value(2.5f64.to_bits()), None);
    assert_eq!(whole_value(0.5f64.to_bits()), None);
    assert_eq!(whole_value(f64::from_bits(1).to_bits()), None);
    assert_eq!(whole_value((-2.0f64).to_bits()), None);
    assert_eq!(whole_value(f64::INFINITY.to_bits()), None);
    assert_eq!(whole_value(f64::NAN.to_bits()), None);
}
