use mwi_sim_core::auto_attack_capabilities::{classify_auto_attack_zones, count_codes};
use mwi_sim_core::combat_scope::direct_monster_style;
use mwi_sim_core::combat_data::{
    CombatBossSpawnV1, CombatDataCountsV1, CombatDataSourceV1, CombatDataSourcesV1,
    CombatMonsterDataV1, CombatMonsterLevelsV1, CombatRandomSpawnInfoV1, CombatSpawnRuleV1,
    CombatZoneDataSnapshotV1, CombatZoneDataV1, MonsterAbilityV1, MonsterCombatStatsV1,
    NamedNumber,
};
use mwi_sim_core::float_bits::Number;
use mwi_sim_core::json::JsonValue;
use mwi_sim_core::{SimError, SimTime};

const FLY_ZONE: &str = "/actions/combat/fly";
const FLY: &str = "/monsters/fly";

fn num(v: f64) -> Number {
    Number { bits: v.to_bits(), text: v.to_string() }
}

fn time(v: f64) -> SimTime {
    SimTime::new(v.to_bits()).unwrap()
}

fn monster(hrid: &str, style: &str) -> CombatMonsterDataV1 {
    CombatMonsterDataV1 {
        hrid: hrid.into(),
        name: "Monster".into(),
        levels: CombatMonsterLevelsV1 {
            stamina_level: num(1.0),
            intelligence_level: num(1.0),
            attack_level: num(1.0),
            melee_level: num(1.0),
            defense_level: num(1.0),
            ranged_level: num(1.0),
            magic_level: num(1.0),
        },
        base_attack_interval: time(3_000_000_000.0),
        combat_stats: MonsterCombatStatsV1 {
            is_object: true,
            combat_style_hrids: vec![style.into()],
            leading_style: Some(style.into()),
            damage_type: Some("/damage_types/physical".into()),
            numbers: vec![NamedNumber { name: "smashAccuracy".into(), value: num(0.0) }],
        },
        abilities: Vec::new(),
        experience: num(5.0),
        enrage_time: time(0.0),
    }
}

fn zone(hrid: &str, spawn: &str, max_spawn_count: u32) -> CombatZoneDataV1 {
    CombatZoneDataV1 {
        hrid: hrid.into(),
        name: "Zone".into(),
        base_time_cost: num(0.0),
        max_difficulty: 0,
        max_party_size: 1,
        buffs: Vec::new(),
        random_spawn_info: CombatRandomSpawnInfoV1 {
            max_spawn_count,
            max_total_strength: num(1.0),
            spawns: vec![CombatSpawnRuleV1 {
                combat_monster_hrid: spawn.into(),
                difficulty_tier: 0,
                rate: num(1.0),
                strength: num(1.0),
            }],
        },
        boss_spawns: Vec::new(),
    }
}

/// A small Combat Zone snapshot written out here, standing in for the game-data file:
/// the Fly zone and a multi-enemy zone with
/// their monsters, listed in key order.
fn snapshot() -> CombatZoneDataSnapshotV1 {
    let zones = vec![
        (FLY_ZONE.to_string(), zone(FLY_ZONE, FLY, 1)),
        ("/actions/combat/swarm".to_string(), zone("/actions/combat/swarm", "/monsters/gnat", 3)),
    ];
    let monsters = vec![
        (FLY.to_string(), monster(FLY, "/combat_styles/smash")),
        ("/monsters/gnat".to_string(), monster("/monsters/gnat", "/combat_styles/stab")),
    ];
    let source = |p: &str| CombatDataSourceV1 { path: p.into(), sha256: "0f".repeat(32) };
    CombatZoneDataSnapshotV1 {
        schema_version: 1,
        data_version: "repository-v1.0.28".into(),
        sources: CombatDataSourcesV1 {
            actions: source("actionDetailMap.json"),
            monsters: source("combatMonsterDetailMap.json"),
        },
        counts: CombatDataCountsV1 { zones: zones.len(), monsters: monsters.len() },
        zones,
        monsters,
    }
}

fn fly_zone_mut(s: &mut CombatZoneDataSnapshotV1) -> &mut CombatZoneDataV1 {
    &mut s.zones.iter_mut().find(|(k, _)| k == FLY_ZONE).unwrap().1
}

fn fly_mut(s: &mut CombatZoneDataSnapshotV1) -> &mut CombatMonsterDataV1 {
    &mut s.monsters.iter_mut().find(|(k, _)| k == FLY).unwrap().1
}

#[test]
fn embedded_snapshot_classification_is_complete_and_keeps_fly_as_a_candidate() {
    let snapshot = snapshot();
    let report = classify_auto_attack_zones(&snapshot).unwrap();

    assert_eq!(report.counts.total_zones, snapshot.zones.len());
    assert_eq!(report.counts.candidates + report.counts.rejected, report.counts.total_zones);
    assert!(report.candidates.iter().any(|c| c.zone_hrid == FLY_ZONE));
    assert!(report.rejected.iter().all(|zone| !zone.issues.is_empty()));
}

#[test]
fn zone_buffs_and_tier_zero_abilities_are_structured_rejection_reasons() {
    let mut snapshot = snapshot();
    fly_zone_mut(&mut snapshot)
        .buffs
        .push(JsonValue::Object(vec![(
            "typeHrid".into(),
            JsonValue::String("/buff_types/test".into()),
        )]));
    fly_mut(&mut snapshot).abilities.push(MonsterAbilityV1 { min_difficulty_tier: 0 });

    let report = classify_auto_attack_zones(&snapshot).unwrap();
    let rejection = report.rejected.iter().find(|r| r.zone_hrid == FLY_ZONE).unwrap();
    assert!(rejection.issues.iter().any(|issue| issue.code == "zone_buffs"));
    assert!(rejection.issues.iter().any(|issue| issue.code == "monster_active_abilities"));
}

#[test]
fn higher_tier_monster_abilities_do_not_reject_a_tier_zero_candidate() {
    let mut snapshot = snapshot();
    fly_mut(&mut snapshot).abilities.push(MonsterAbilityV1 { min_difficulty_tier: 1 });

    let report = classify_auto_attack_zones(&snapshot).unwrap();
    assert!(report.candidates.iter().any(|c| c.zone_hrid == FLY_ZONE));
}

#[test]
fn multi_enemy_zones_are_rejected_with_a_zone_wide_reason() {
    let report = classify_auto_attack_zones(&snapshot()).unwrap();
    let swarm = report.rejected.iter().find(|r| r.zone_hrid == "/actions/combat/swarm").unwrap();
    assert_eq!(swarm.issues.len(), 1);
    assert_eq!(swarm.issues[0].code, "multi_enemy_spawn");
    assert_eq!(swarm.issues[0].subject, None);
    assert_eq!(
        swarm.issues[0].detail,
        "maxSpawnCount is 3; the current engine supports exactly one enemy"
    );
    let fly = report.candidates.iter().find(|c| c.zone_hrid == FLY_ZONE).unwrap();
    assert_eq!(fly.monster_hrids, vec![FLY.to_string()]);
    assert!(!fly.has_boss_spawn);
    assert_eq!(report.reason_counts, vec![("multi_enemy_spawn".to_string(), 1)]);
}

#[test]
fn passive_stats_and_boss_tiers_are_reported() {
    let mut snapshot = snapshot();
    fly_mut(&mut snapshot)
        .combat_stats
        .numbers
        .push(NamedNumber { name: "lifeSteal".into(), value: num(0.05) });
    fly_zone_mut(&mut snapshot)
        .boss_spawns
        .push(CombatBossSpawnV1 { combat_monster_hrid: FLY.into(), difficulty_tier: 2 });
    let report = classify_auto_attack_zones(&snapshot).unwrap();
    let rejection = report.rejected.iter().find(|r| r.zone_hrid == FLY_ZONE).unwrap();
    let details: Vec<&str> = rejection.issues.iter().map(|i| i.detail.as_str()).collect();
    assert!(details.contains(&"lifeSteal is non-zero (0.05)"));
    assert!(details.contains(&"Boss spawn 0 has difficultyTier 2"));
}

#[test]
fn snapshots_with_dangling_references_are_invalid() {
    let mut snapshot = snapshot();
    fly_zone_mut(&mut snapshot).random_spawn_info.spawns[0].combat_monster_hrid =
        "/monsters/ghost".into();
    assert!(matches!(classify_auto_attack_zones(&snapshot), Err(SimError::InvalidGameData(_))));
    assert!(snapshot.validate().is_err());
    assert_eq!(self::snapshot().validate(), Ok(()));
    assert!(self::snapshot().monster(FLY).is_some());
    assert!(self::snapshot().zone("/actions/combat/none").is_none());
}

#[test]
fn reason_codes_are_counted_once_each() {
    let codes = vec!["b".to_string(), "a".to_string(), "b".to_string()];
    let counted = count_codes(&codes);
    assert_eq!(counted.len(), 2);
    assert!(counted.contains(&("a".to_string(), 1)));
    assert!(counted.contains(&("b".to_string(), 2)));
}

#[test]
fn reason_counts_come_in_ascending_code_order() {
    let codes: Vec<String> = ["zone_buffs", "multi_enemy_spawn", "zone_buffs", "boss_spawn"]
        .iter()
        .map(|c| c.to_string())
        .collect();
    assert_eq!(
        count_codes(&codes),
        vec![
            ("boss_spawn".to_string(), 1),
            ("multi_enemy_spawn".to_string(), 1),
            ("zone_buffs".to_string(), 2),
        ]
    );
}

#[test]
fn keyed_lists_out_of_key_order_are_refused() {
    let mut s = snapshot();
    s.zones.reverse();
    assert_eq!(
        s.validate(),
        Err(SimError::InvalidGameData(
            "Combat Zone zones must be listed once each, in ascending key order".into()
        ))
    );
    let mut s = snapshot();
    let again = s.monsters[0].clone();
    s.monsters.push(again);
    assert_eq!(
        s.validate(),
        Err(SimError::InvalidGameData(
            "Combat Zone monsters must be listed once each, in ascending key order".into()
        ))
    );
}

#[test]
fn direct_damage_monsters_need_an_object_a_leading_style_and_a_damage_type() {
    let fly = monster(FLY, "/combat_styles/smash");
    assert_eq!(
        direct_monster_style(&fly),
        Ok(("/combat_styles/smash".to_string(), "/damage_types/physical".to_string()))
    );
    let mut m = fly.clone();
    m.combat_stats.is_object = false;
    assert_eq!(
        direct_monster_style(&m),
        Err(SimError::UnsupportedDirectDamageCombat("/monsters/fly combatStats must be an object".into()))
    );
    let mut m = fly.clone();
    m.combat_stats.leading_style = None;
    assert_eq!(
        direct_monster_style(&m),
        Err(SimError::UnsupportedDirectDamageCombat("/monsters/fly requires one combat style".into()))
    );
    let mut m = fly.clone();
    m.combat_stats.damage_type = None;
    assert_eq!(
        direct_monster_style(&m),
        Err(SimError::UnsupportedDirectDamageCombat("/monsters/fly requires a damage type".into()))
    );
}

#[test]
fn snapshot_refusals_name_the_first_failing_check() {
    let mut s = snapshot();
    s.schema_version = 3;
    assert_eq!(
        s.validate(),
        Err(SimError::InvalidGameData("unsupported Combat Zone data schema 3; expected 1".into()))
    );
    let mut s = snapshot();
    s.counts.monsters = 5;
    assert_eq!(
        s.validate(),
        Err(SimError::InvalidGameData(
            "snapshot counts do not match maps: declared 2/5 but found 2/2".into()
        ))
    );
    let mut s = snapshot();
    s.sources.monsters.path = " ".into();
    assert_eq!(
        s.validate(),
        Err(SimError::InvalidGameData("sources.monsters.path must not be empty".into()))
    );
    let mut s = snapshot();
    fly_zone_mut(&mut s).random_spawn_info.spawns[0].rate = num(0.0);
    assert_eq!(
        s.validate(),
        Err(SimError::InvalidGameData(
            "/actions/combat/fly.randomSpawnInfo.spawns[0].rate must be finite and positive".into()
        ))
    );
    let mut s = snapshot();
    fly_mut(&mut s).levels.melee_level = num(f64::INFINITY);
    assert_eq!(
        s.validate(),
        Err(SimError::InvalidGameData("/monsters/fly.levels.meleeLevel must be finite".into()))
    );
}

#[test]
fn the_least_absent_monster_and_every_unreferenced_one_are_named() {
    let mut s = snapshot();
    fly_zone_mut(&mut s).random_spawn_info.spawns[0].combat_monster_hrid = "/monsters/zzz".into();
    fly_zone_mut(&mut s)
        .boss_spawns
        .push(CombatBossSpawnV1 { combat_monster_hrid: "/monsters/aaa".into(), difficulty_tier: 0 });
    assert_eq!(
        s.validate(),
        Err(SimError::InvalidGameData(
            "Combat Zone spawn references absent monster /monsters/aaa".into()
        ))
    );
    let mut s = snapshot();
    s.monsters.push(("/monsters/x".into(), monster("/monsters/x", "/combat_styles/stab")));
    s.monsters.push(("/monsters/y".into(), monster("/monsters/y", "/combat_styles/stab")));
    s.counts.monsters = 4;
    assert_eq!(
        s.validate(),
        Err(SimError::InvalidGameData(
            "snapshot contains unreferenced monsters: /monsters/x, /monsters/y".into()
        ))
    );
}

#[test]
fn embedded_snapshot_has_valid_cross_references() {
    let snapshot = snapshot();
    assert_eq!(snapshot.validate(), Ok(()));
    assert_eq!(snapshot.counts.zones, snapshot.zones.len());
    assert_eq!(snapshot.counts.monsters, snapshot.monsters.len());
    assert!(snapshot.zone(FLY_ZONE).is_some());
    assert!(snapshot.monster(FLY).is_some());
}
