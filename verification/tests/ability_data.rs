use mwi_sim_core::ability_data::{
    classify_direct_damage_abilities, direct_damage_issues, AbilityDataSnapshotV1,
    AbilityDataSourceV1, AbilityDataV1, AbilityEffectDataV1, ExtensionFieldV1, AQUA_ARROW_HRID,
};
use mwi_sim_core::float_bits::Number;
use mwi_sim_core::json::JsonShape;
use mwi_sim_core::{SimError, SimTime};

fn num(v: f64) -> Number {
    Number { bits: v.to_bits(), text: v.to_string() }
}

fn time(v: f64) -> SimTime {
    SimTime::new(v.to_bits()).unwrap()
}

fn damage_effect() -> AbilityEffectDataV1 {
    AbilityEffectDataV1 {
        target_type: "enemy".into(),
        effect_type: "/ability_effect_types/damage".into(),
        combat_style_hrid: "/combat_styles/magic".into(),
        damage_type: "/damage_types/water".into(),
        base_damage_flat: num(20.0),
        base_damage_flat_level_bonus: num(0.2),
        base_damage_ratio: num(0.6),
        base_damage_ratio_level_bonus: num(0.006),
        bonus_accuracy_ratio: num(0.0),
        bonus_accuracy_ratio_level_bonus: num(0.0),
        damage_over_time_ratio: num(0.0),
        damage_over_time_duration: SimTime::zero(),
        armor_damage_ratio: num(0.0),
        armor_damage_ratio_level_bonus: num(0.0),
        hp_drain_ratio: num(0.0),
        pierce_chance: num(0.0),
        blind_chance: num(0.0),
        blind_duration: SimTime::zero(),
        silence_chance: num(0.0),
        silence_duration: SimTime::zero(),
        stun_chance: num(0.0),
        stun_duration: SimTime::zero(),
        spend_hp_ratio: num(0.0),
        buffs: None,
        extensions: Vec::new(),
    }
}

fn ability(hrid: &str, effects: Vec<AbilityEffectDataV1>) -> AbilityDataV1 {
    AbilityDataV1 {
        hrid: hrid.into(),
        name: "Ability".into(),
        description: String::new(),
        is_special_ability: false,
        mana_cost: num(10.0),
        cooldown_duration: time(10_000_000_000.0),
        cast_duration: time(0.0),
        ability_effects: effects,
        default_combat_triggers: vec![JsonShape::Object(2)],
        sort_index: num(1.0),
        extensions: Vec::new(),
    }
}

/// A small ability snapshot written out here, standing in for the game-data file:
/// Aqua Arrow, a buff ability and an ability
/// with two effects, listed in key order.
fn snapshot() -> AbilityDataSnapshotV1 {
    let mut buffed = damage_effect();
    buffed.effect_type = "/ability_effect_types/buff".into();
    buffed.target_type = "self".into();
    let abilities = vec![
        (AQUA_ARROW_HRID.to_string(), ability(AQUA_ARROW_HRID, vec![damage_effect()])),
        ("/abilities/berserk".to_string(), ability("/abilities/berserk", vec![buffed])),
        (
            "/abilities/twin".to_string(),
            ability("/abilities/twin", vec![damage_effect(), damage_effect()]),
        ),
    ];
    AbilityDataSnapshotV1 {
        schema_version: 1,
        data_version: "repository-v1.0.28".into(),
        source: AbilityDataSourceV1 { path: "abilityDetailMap.json".into(), sha256: "a".repeat(64) },
        count: abilities.len(),
        abilities,
    }
}

#[test]
fn embedded_snapshot_is_valid_and_aqua_arrow_is_a_candidate() {
    let snapshot = snapshot();
    let report = classify_direct_damage_abilities(&snapshot).unwrap();

    assert_eq!(snapshot.count, snapshot.abilities.len());
    assert_eq!(report.counts.total_abilities, snapshot.abilities.len());
    assert_eq!(report.counts.candidates + report.counts.rejected, report.counts.total_abilities);
    assert!(report.candidates.iter().any(|c| c.ability_hrid == AQUA_ARROW_HRID));
    assert!(report.rejected.iter().all(|entry| !entry.issues.is_empty()));
}

#[test]
fn buff_and_control_effects_are_structured_rejections() {
    let snapshot = snapshot();
    let mut ability = snapshot.ability(AQUA_ARROW_HRID).unwrap().clone();
    let effect = &mut ability.ability_effects[0];
    effect.buffs = Some(vec![JsonShape::Object(1)]);
    effect.stun_chance = num(0.5);
    effect.stun_duration = time(1_000_000_000.0);

    let issues = direct_damage_issues(&ability);
    assert!(issues.iter().any(|issue| issue.code == "buffs"));
    assert!(issues.iter().any(|issue| issue.code == "stun"));
}

#[test]
fn unknown_zero_extensions_do_not_reject_but_non_zero_extensions_do() {
    let snapshot = snapshot();
    let mut ability = snapshot.ability(AQUA_ARROW_HRID).unwrap().clone();
    let effect = &mut ability.ability_effects[0];
    effect.extensions.push(ExtensionFieldV1 {
        name: "futureZero".into(),
        value: JsonShape::Number(num(0.0)),
    });
    assert!(direct_damage_issues(&ability).is_empty());

    let effect = &mut ability.ability_effects[0];
    effect.extensions.push(ExtensionFieldV1 {
        name: "futureFeature".into(),
        value: JsonShape::Number(num(1.0)),
    });
    assert!(direct_damage_issues(&ability)
        .iter()
        .any(|issue| issue.code == "unknown_effect_extension"));
}

#[test]
fn rejections_carry_their_reasons_and_totals() {
    let report = classify_direct_damage_abilities(&snapshot()).unwrap();
    assert_eq!(report.counts.candidates, 1);
    assert_eq!(report.counts.rejected, 2);
    let candidate = &report.candidates[0];
    assert_eq!(candidate.combat_style_hrid, "/combat_styles/magic");
    assert_eq!(candidate.damage_type, "/damage_types/water");
    assert_eq!(candidate.default_trigger_count, 1);
    let twin = report.rejected.iter().find(|r| r.ability_hrid == "/abilities/twin").unwrap();
    assert_eq!(twin.issues.len(), 1);
    assert_eq!(twin.issues[0].code, "effect_count");
    assert_eq!(twin.issues[0].detail, "Ability has 2 effects; exactly one is required");
    let berserk = report.rejected.iter().find(|r| r.ability_hrid == "/abilities/berserk").unwrap();
    let codes: Vec<&str> = berserk.issues.iter().map(|i| i.code.as_str()).collect();
    assert_eq!(codes, vec!["effect_type", "target_type"]);
    let total: usize = report.reason_counts.iter().map(|(_, n)| *n).sum();
    assert_eq!(total, 3);
}

#[test]
fn non_zero_numbers_are_quoted_in_details() {
    let mut ability = ability(AQUA_ARROW_HRID, vec![damage_effect()]);
    ability.ability_effects[0].pierce_chance = num(0.25);
    let issues = direct_damage_issues(&ability);
    assert_eq!(issues.len(), 1);
    assert_eq!(issues[0].code, "pierce");
    assert_eq!(issues[0].detail, "pierceChance is non-zero (0.25)");
}

#[test]
fn invalid_snapshots_are_refused_before_classification() {
    let mut s = snapshot();
    s.count = 7;
    assert!(matches!(classify_direct_damage_abilities(&s), Err(SimError::InvalidGameData(_))));
    let mut s = snapshot();
    s.source.sha256 = "XYZ".into();
    assert!(matches!(s.validate(), Err(SimError::InvalidGameData(_))));
    let mut s = snapshot();
    s.abilities[0].1.ability_effects[0].pierce_chance = num(1.5);
    assert!(matches!(s.validate(), Err(SimError::InvalidGameData(_))));
    assert_eq!(snapshot().validate(), Ok(()));
}

#[test]
fn ability_refusals_name_the_first_failing_check() {
    let mut s = snapshot();
    s.abilities[1].1.ability_effects[0].blind_chance = num(-0.5);
    assert_eq!(
        s.validate(),
        Err(SimError::InvalidGameData(
            "/abilities/berserk.abilityEffects[0].blindChance must be finite and in [0, 1]".into()
        ))
    );
    let mut s = snapshot();
    s.abilities[0].1.default_combat_triggers.push(JsonShape::Array(0));
    assert_eq!(
        s.validate(),
        Err(SimError::InvalidGameData(
            "/abilities/aqua_arrow.defaultCombatTriggers[1] must be an object".into()
        ))
    );
    let mut s = snapshot();
    s.abilities[2].0 = "/abilities/other".into();
    assert_eq!(
        s.validate(),
        Err(SimError::InvalidGameData(
            "ability map key /abilities/other does not match row hrid /abilities/twin".into()
        ))
    );
    let mut s = snapshot();
    s.count = 9;
    assert_eq!(
        s.validate(),
        Err(SimError::InvalidGameData("ability count mismatch: declared 9 but found 3".into()))
    );
}
