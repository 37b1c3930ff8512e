//! The versioned ability snapshot, its validation, and the classification
//! of abilities into single-target direct-damage candidates and rejections.
use vstd::prelude::*;
use vstd::string::StringSliceAdditionalSpecFns;

use crate::auto_attack_capabilities::{
    count_codes, counts_codes, is_supported_damage_type, is_supported_style, supported_damage_type,
    supported_style,
};
use crate::combat_data::{data_error, invalid, is_sha256_digest, is_sha256_text};
use crate::error::SimError;
use crate::float_bits::{self, Number};
use crate::json::{is_object, spec_zero_like, zero_like, JsonShape};
use crate::sorting::{
    check_keys_ascending, keys_ascending, lemma_text_lt_order, sort_dedup, strictly_sorted, text_lt,
    view_set, Ranked,
};
use crate::text::{compare_text, concat, decimal, decimal_text, is_blank, spec_is_blank, text_eq};
use crate::time::SimTime;

verus! {

/// The schema version this library reads.
pub const ABILITY_DATA_SCHEMA_VERSION: u32 = 1;

/// The game data version the snapshot must come from.
pub const ABILITY_DATA_VERSION: &'static str = "repository-v1.0.28";

/// The version of the report layout.
pub const DIRECT_DAMAGE_REPORT_VERSION: u32 = 1;

/// Aqua Arrow, the first ability the runtime supports.
pub const AQUA_ARROW_HRID: &'static str = "/abilities/aqua_arrow";

/// The source file of the snapshot and its SHA-256.
#[derive(Clone, Debug, PartialEq, Eq)]
pub struct AbilityDataSourceV1 {
    pub path: String,
    pub sha256: String,
}

/// An unknown effect field, by name, with its value's shape.
#[derive(Clone, Debug, PartialEq, Eq)]
pub struct ExtensionFieldV1 {
    pub name: String,
    pub value: JsonShape,
}

/// One effect of an ability. Unknown fields are listed in
/// `extensions`; buffs by their shapes.
#[derive(Clone, Debug, PartialEq, Eq)]
pub struct AbilityEffectDataV1 {
    pub target_type: String,
    pub effect_type: String,
    pub combat_style_hrid: String,
    pub damage_type: String,
    pub base_damage_flat: Number,
    pub base_damage_flat_level_bonus: Number,
    pub base_damage_ratio: Number,
    pub base_damage_ratio_level_bonus: Number,
    pub bonus_accuracy_ratio: Number,
    pub bonus_accuracy_ratio_level_bonus: Number,
    pub damage_over_time_ratio: Number,
    pub damage_over_time_duration: SimTime,
    pub armor_damage_ratio: Number,
    pub armor_damage_ratio_level_bonus: Number,
    pub hp_drain_ratio: Number,
    pub pierce_chance: Number,
    pub blind_chance: Number,
    pub blind_duration: SimTime,
    pub silence_chance: Number,
    pub silence_duration: SimTime,
    pub stun_chance: Number,
    pub stun_duration: SimTime,
    pub spend_hp_ratio: Number,
    pub buffs: Option<Vec<JsonShape>>,
    pub extensions: Vec<ExtensionFieldV1>,
}

/// An ability. Default triggers are listed by their shapes; unknown
/// fields are kept in `extensions`, which no check reads.
#[derive(Clone, Debug, PartialEq, Eq)]
pub struct AbilityDataV1 {
    pub hrid: String,
    pub name: String,
    pub description: String,
    pub is_special_ability: bool,
    pub mana_cost: Number,
    pub cooldown_duration: SimTime,
    pub cast_duration: SimTime,
    pub ability_effects: Vec<AbilityEffectDataV1>,
    pub default_combat_triggers: Vec<JsonShape>,
    pub sort_index: Number,
    pub extensions: Vec<ExtensionFieldV1>,
}

/// The snapshot; abilities are listed under their map keys, in key order.
#[derive(Clone, Debug, PartialEq, Eq)]
pub struct AbilityDataSnapshotV1 {
    pub schema_version: u32,
    pub data_version: String,
    pub source: AbilityDataSourceV1,
    pub count: usize,
    pub abilities: Vec<(String, AbilityDataV1)>,
}

/// A reason why an ability is rejected.
#[derive(Clone, Debug, PartialEq, Eq)]
pub struct DirectDamageAbilityIssueV1 {
    pub code: String,
    pub detail: String,
}

impl View for DirectDamageAbilityIssueV1 {
    type V = (Seq<char>, Seq<char>);

    open spec fn view(&self) -> (Seq<char>, Seq<char>) {
        (self.code@, self.detail@)
    }
}

impl Ranked for DirectDamageAbilityIssueV1 {
    open spec fn before(a: (Seq<char>, Seq<char>), b: (Seq<char>, Seq<char>)) -> bool {
        text_lt(a.0, b.0) || (a.0 == b.0 && text_lt(a.1, b.1))
    }

    proof fn lemma_order(a: (Seq<char>, Seq<char>), b: (Seq<char>, Seq<char>), c: (Seq<char>, Seq<char>)) {
        lemma_text_lt_order(a.0, b.0, c.0);
        lemma_text_lt_order(a.1, b.1, c.1);
        lemma_text_lt_order(a.0, c.0, b.0);
        lemma_text_lt_order(b.0, a.0, c.0);
        lemma_text_lt_order(a.1, c.1, b.1);
        lemma_text_lt_order(b.1, a.1, c.1);
    }

    fn rank(&self, other: &Self) -> (r: i8) {
        proof {
            lemma_text_lt_order(self.code@, other.code@, other.code@);
            lemma_text_lt_order(other.code@, self.code@, self.code@);
            lemma_text_lt_order(self.detail@, other.detail@, other.detail@);
            lemma_text_lt_order(other.detail@, self.detail@, self.detail@);
        }
        let c = compare_text(self.code.as_str(), other.code.as_str());
        if c != 0 {
            return c;
        }
        compare_text(self.detail.as_str(), other.detail.as_str())
    }
}

/// An ability the direct-damage runtime could cast.
#[derive(Clone, Debug, PartialEq, Eq)]
pub struct DirectDamageAbilityCandidateV1 {
    pub ability_hrid: String,
    pub combat_style_hrid: String,
    pub damage_type: String,
    pub default_trigger_count: usize,
}

/// A rejected ability with its reasons in order, each once.
#[derive(Clone, Debug, PartialEq, Eq)]
pub struct DirectDamageAbilityRejectionV1 {
    pub ability_hrid: String,
    pub issues: Vec<DirectDamageAbilityIssueV1>,
}

/// Totals of a report.
#[derive(Clone, Debug, PartialEq, Eq)]
pub struct DirectDamageAbilityCountsV1 {
    pub total_abilities: usize,
    pub candidates: usize,
    pub rejected: usize,
}

/// The classification of every ability, in snapshot order, with reason
/// code totals (each code once).
#[derive(Clone, Debug, PartialEq, Eq)]
pub struct DirectDamageAbilityReportV1 {
    pub report_version: u32,
    pub data_version: String,
    pub counts: DirectDamageAbilityCountsV1,
    pub reason_counts: Vec<(String, usize)>,
    pub candidates: Vec<DirectDamageAbilityCandidateV1>,
    pub rejected: Vec<DirectDamageAbilityRejectionV1>,
}

/// A source entry with a non-blank path and a well-formed digest.
pub open spec fn source_valid(s: AbilityDataSourceV1) -> bool {
    !spec_is_blank(s.path@) && is_sha256_text(vstd::utf8::encode_utf8(s.sha256@))
}

/// Checks the snapshot's source entry: a non-blank path, then the digest.
pub fn validate_source(source: &AbilityDataSourceV1) -> (r: Result<(), SimError>)
    ensures
        r is Ok <==> source_valid(*source),
        spec_is_blank(source.path@) ==> (r matches Err(e) && data_error(
            e,
            "ability source path must not be empty"@,
        )),
        !spec_is_blank(source.path@) && !source_valid(*source) ==> (r matches Err(e) && data_error(
            e,
            "ability source sha256 must be 64 lowercase hexadecimal characters"@,
        )),
{
    if is_blank(source.path.as_str()) {
        return Err(invalid("ability source path must not be empty".to_owned()));
    }
    if !is_sha256_digest(source.sha256.as_str()) {
        return Err(
            invalid("ability source sha256 must be 64 lowercase hexadecimal characters".to_owned()),
        );
    }
    Ok(())
}

/// An effect's own checks.
pub open spec fn effect_valid(e: AbilityEffectDataV1) -> bool {
    &&& !spec_is_blank(e.target_type@)
    &&& !spec_is_blank(e.effect_type@)
    &&& float_bits::spec_is_finite(e.base_damage_flat.bits)
    &&& float_bits::spec_is_finite(e.base_damage_flat_level_bonus.bits)
    &&& float_bits::spec_is_finite(e.base_damage_ratio.bits)
    &&& float_bits::spec_is_finite(e.base_damage_ratio_level_bonus.bits)
    &&& float_bits::spec_is_finite(e.bonus_accuracy_ratio.bits)
    &&& float_bits::spec_is_finite(e.bonus_accuracy_ratio_level_bonus.bits)
    &&& float_bits::spec_is_finite(e.damage_over_time_ratio.bits)
    &&& float_bits::spec_is_finite(e.armor_damage_ratio.bits)
    &&& float_bits::spec_is_finite(e.armor_damage_ratio_level_bonus.bits)
    &&& float_bits::spec_is_finite(e.hp_drain_ratio.bits)
    &&& float_bits::spec_is_finite(e.spend_hp_ratio.bits)
    &&& float_bits::spec_in_closed_unit_interval(e.pierce_chance.bits)
    &&& float_bits::spec_in_closed_unit_interval(e.blind_chance.bits)
    &&& float_bits::spec_in_closed_unit_interval(e.silence_chance.bits)
    &&& float_bits::spec_in_closed_unit_interval(e.stun_chance.bits)
    &&& match e.buffs {
        Some(b) => forall|i: int| 0 <= i < b@.len() ==> (#[trigger] b@[i]) is Object,
        None => true,
    }
}

/// An ability's own checks.
pub open spec fn ability_valid(a: AbilityDataV1) -> bool {
    &&& !spec_is_blank(a.hrid@)
    &&& float_bits::spec_finite_non_negative(a.mana_cost.bits)
    &&& float_bits::spec_is_finite(a.sort_index.bits)
    &&& a.ability_effects@.len() > 0
    &&& forall|i: int| 0 <= i < a.ability_effects@.len() ==> effect_valid(#[trigger] a.ability_effects@[i])
    &&& forall|i: int|
        0 <= i < a.default_combat_triggers@.len() ==> (#[trigger] a.default_combat_triggers@[i]) is Object
}

/// The whole snapshot is valid.
pub open spec fn snapshot_valid(s: AbilityDataSnapshotV1) -> bool {
    &&& keys_ascending(s.abilities@)
    &&& s.schema_version == ABILITY_DATA_SCHEMA_VERSION
    &&& s.data_version@ == ABILITY_DATA_VERSION@
    &&& source_valid(s.source)
    &&& s.abilities@.len() > 0
    &&& s.count == s.abilities@.len()
    &&& forall|i: int|
        0 <= i < s.abilities@.len() ==> (#[trigger] s.abilities@[i]).0@ == s.abilities@[i].1.hrid@
            && ability_valid(s.abilities@[i].1)
}

/// Why effect `e` at `location` is refused: the message of its first
/// failing check, or `None`.
pub open spec fn effect_failure(location: Seq<char>, e: AbilityEffectDataV1) -> Option<Seq<char>> {
    let finite = |name: Seq<char>| location + "."@ + name + " must be finite"@;
    let chance = |name: Seq<char>| location + "."@ + name + " must be finite and in [0, 1]"@;
    if spec_is_blank(e.target_type@) || spec_is_blank(e.effect_type@) {
        Some(location + " targetType and effectType are required"@)
    } else if !float_bits::spec_is_finite(e.base_damage_flat.bits) {
        Some(finite("baseDamageFlat"@))
    } else if !float_bits::spec_is_finite(e.base_damage_flat_level_bonus.bits) {
        Some(finite("baseDamageFlatLevelBonus"@))
    } else if !float_bits::spec_is_finite(e.base_damage_ratio.bits) {
        Some(finite("baseDamageRatio"@))
    } else if !float_bits::spec_is_finite(e.base_damage_ratio_level_bonus.bits) {
        Some(finite("baseDamageRatioLevelBonus"@))
    } else if !float_bits::spec_is_finite(e.bonus_accuracy_ratio.bits) {
        Some(finite("bonusAccuracyRatio"@))
    } else if !float_bits::spec_is_finite(e.bonus_accuracy_ratio_level_bonus.bits) {
        Some(finite("bonusAccuracyRatioLevelBonus"@))
    } else if !float_bits::spec_is_finite(e.damage_over_time_ratio.bits) {
        Some(finite("damageOverTimeRatio"@))
    } else if !float_bits::spec_is_finite(e.armor_damage_ratio.bits) {
        Some(finite("armorDamageRatio"@))
    } else if !float_bits::spec_is_finite(e.armor_damage_ratio_level_bonus.bits) {
        Some(finite("armorDamageRatioLevelBonus"@))
    } else if !float_bits::spec_is_finite(e.hp_drain_ratio.bits) {
        Some(finite("hpDrainRatio"@))
    } else if !float_bits::spec_is_finite(e.spend_hp_ratio.bits) {
        Some(finite("spendHpRatio"@))
    } else if !float_bits::spec_in_closed_unit_interval(e.pierce_chance.bits) {
        Some(chance("pierceChance"@))
    } else if !float_bits::spec_in_closed_unit_interval(e.blind_chance.bits) {
        Some(chance("blindChance"@))
    } else if !float_bits::spec_in_closed_unit_interval(e.silence_chance.bits) {
        Some(chance("silenceChance"@))
    } else if !float_bits::spec_in_closed_unit_interval(e.stun_chance.bits) {
        Some(chance("stunChance"@))
    } else if e.buffs matches Some(b) && exists|i: int| 0 <= i < b@.len() && !(#[trigger] b@[i] is Object) {
        Some(location + ".buffs must contain objects"@)
    } else {
        None
    }
}

/// Where effect `index` of ability `hrid` is.
pub open spec fn effect_location(hrid: Seq<char>, index: nat) -> Seq<char> {
    hrid + ".abilityEffects["@ + decimal(index) + "]"@
}

/// The failure of the first refused effect of `a` from position `k` on.
pub open spec fn first_effect_failure(a: AbilityDataV1, k: int) -> Option<Seq<char>>
    decreases a.ability_effects@.len() - k,
{
    if k < 0 || k >= a.ability_effects@.len() {
        None
    } else if effect_failure(effect_location(a.hrid@, k as nat), a.ability_effects@[k]) is Some {
        effect_failure(effect_location(a.hrid@, k as nat), a.ability_effects@[k])
    } else {
        first_effect_failure(a, k + 1)
    }
}

/// The failure of the first default trigger of `a` that is not an object,
/// from position `k` on.
pub open spec fn first_trigger_failure(a: AbilityDataV1, k: int) -> Option<Seq<char>>
    decreases a.default_combat_triggers@.len() - k,
{
    if k < 0 || k >= a.default_combat_triggers@.len() {
        None
    } else if !(a.default_combat_triggers@[k] is Object) {
        Some(a.hrid@ + ".defaultCombatTriggers["@ + decimal(k as nat) + "] must be an object"@)
    } else {
        first_trigger_failure(a, k + 1)
    }
}

/// Why an ability is refused: the message of its first failing check, or
/// `None`.
pub open spec fn ability_failure(a: AbilityDataV1) -> Option<Seq<char>> {
    if spec_is_blank(a.hrid@) {
        Some("ability hrid must not be empty"@)
    } else if !float_bits::spec_finite_non_negative(a.mana_cost.bits) {
        Some(a.hrid@ + ".manaCost must be finite and non-negative"@)
    } else if !float_bits::spec_is_finite(a.sort_index.bits) {
        Some(a.hrid@ + ".sortIndex must be finite"@)
    } else if a.ability_effects@.len() == 0 {
        Some(a.hrid@ + ".abilityEffects must not be empty"@)
    } else if first_effect_failure(a, 0) is Some {
        first_effect_failure(a, 0)
    } else {
        first_trigger_failure(a, 0)
    }
}

fn finite_field(location: &String, name: &str, value: &Number) -> (r: Result<(), SimError>)
    ensures
        r is Ok <==> float_bits::spec_is_finite(value.bits),
        r matches Err(e) ==> data_error(e, location@ + "."@ + name@ + " must be finite"@),
{
    if !float_bits::is_finite(value.bits) {
        let a = concat(location.as_str(), ".");
        let b = concat(a.as_str(), name);
        return Err(invalid(concat(b.as_str(), " must be finite")));
    }
    Ok(())
}

fn chance_field(location: &String, name: &str, value: &Number) -> (r: Result<(), SimError>)
    ensures
        r is Ok <==> float_bits::spec_in_closed_unit_interval(value.bits),
        r matches Err(e) ==> data_error(e, location@ + "."@ + name@ + " must be finite and in [0, 1]"@),
{
    if !float_bits::in_closed_unit_interval(value.bits) {
        let a = concat(location.as_str(), ".");
        let b = concat(a.as_str(), name);
        return Err(invalid(concat(b.as_str(), " must be finite and in [0, 1]")));
    }
    Ok(())
}

/// Checks effect `index` of ability `hrid`.
#[verifier::loop_isolation(false)]
pub fn validate_effect(hrid: &str, index: usize, effect: &AbilityEffectDataV1) -> (r: Result<(), SimError>)
    ensures
        r is Ok <==> effect_valid(*effect),
        match effect_failure(effect_location(hrid@, index as nat), *effect) {
            Some(m) => r matches Err(e) && data_error(e, m),
            None => r is Ok,
        },
{
    let a = concat(hrid, ".abilityEffects[");
    let b = concat(a.as_str(), decimal_text(index as u64).as_str());
    let location = concat(b.as_str(), "]");
    if is_blank(effect.target_type.as_str()) || is_blank(effect.effect_type.as_str()) {
        return Err(invalid(concat(location.as_str(), " targetType and effectType are required")));
    }
    let c = finite_field(&location, "baseDamageFlat", &effect.base_damage_flat);
    if c.is_err() { return c; }
    let c = finite_field(&location, "baseDamageFlatLevelBonus", &effect.base_damage_flat_level_bonus);
    if c.is_err() { return c; }
    let c = finite_field(&location, "baseDamageRatio", &effect.base_damage_ratio);
    if c.is_err() { return c; }
    let c = finite_field(&location, "baseDamageRatioLevelBonus", &effect.base_damage_ratio_level_bonus);
    if c.is_err() { return c; }
    let c = finite_field(&location, "bonusAccuracyRatio", &effect.bonus_accuracy_ratio);
    if c.is_err() { return c; }
    let c = finite_field(&location, "bonusAccuracyRatioLevelBonus", &effect.bonus_accuracy_ratio_level_bonus);
    if c.is_err() { return c; }
    let c = finite_field(&location, "damageOverTimeRatio", &effect.damage_over_time_ratio);
    if c.is_err() { return c; }
    let c = finite_field(&location, "armorDamageRatio", &effect.armor_damage_ratio);
    if c.is_err() { return c; }
    let c = finite_field(&location, "armorDamageRatioLevelBonus", &effect.armor_damage_ratio_level_bonus);
    if c.is_err() { return c; }
    let c = finite_field(&location, "hpDrainRatio", &effect.hp_drain_ratio);
    if c.is_err() { return c; }
    let c = finite_field(&location, "spendHpRatio", &effect.spend_hp_ratio);
    if c.is_err() { return c; }
    let c = chance_field(&location, "pierceChance", &effect.pierce_chance);
    if c.is_err() { return c; }
    let c = chance_field(&location, "blindChance", &effect.blind_chance);
    if c.is_err() { return c; }
    let c = chance_field(&location, "silenceChance", &effect.silence_chance);
    if c.is_err() { return c; }
    let c = chance_field(&location, "stunChance", &effect.stun_chance);
    if c.is_err() { return c; }
    if let Some(buffs) = &effect.buffs {
        let mut i: usize = 0;
        while i < buffs.len()
            invariant
                0 <= i <= buffs@.len(),
                forall|j: int| 0 <= j < i ==> (#[trigger] buffs@[j]) is Object,
            decreases buffs@.len() - i,
        {
            if !is_object(&buffs[i]) {
                return Err(invalid(concat(location.as_str(), ".buffs must contain objects")));
            }
            i = i + 1;
        }
    }
    Ok(())
}

/// Checks one ability.
#[verifier::loop_isolation(false)]
pub fn validate_ability(ability: &AbilityDataV1) -> (r: Result<(), SimError>)
    ensures
        r is Ok <==> ability_valid(*ability),
        match ability_failure(*ability) {
            Some(m) => r matches Err(e) && data_error(e, m),
            None => r is Ok,
        },
{
    if is_blank(ability.hrid.as_str()) {
        return Err(invalid("ability hrid must not be empty".to_owned()));
    }
    if !float_bits::finite_non_negative(ability.mana_cost.bits) {
        return Err(invalid(concat(ability.hrid.as_str(), ".manaCost must be finite and non-negative")));
    }
    if !float_bits::is_finite(ability.sort_index.bits) {
        return Err(invalid(concat(ability.hrid.as_str(), ".sortIndex must be finite")));
    }
    if ability.ability_effects.len() == 0 {
        return Err(invalid(concat(ability.hrid.as_str(), ".abilityEffects must not be empty")));
    }
    let mut i: usize = 0;
    while i < ability.ability_effects.len()
        invariant
            0 <= i <= ability.ability_effects@.len(),
            forall|j: int| 0 <= j < i ==> effect_valid(#[trigger] ability.ability_effects@[j]),
            first_effect_failure(*ability, 0) == first_effect_failure(*ability, i as int),
        decreases ability.ability_effects@.len() - i,
    {
        proof {
            reveal_with_fuel(first_effect_failure, 2);
        }
        let c = validate_effect(ability.hrid.as_str(), i, &ability.ability_effects[i]);
        if c.is_err() {
            return c;
        }
        i = i + 1;
    }
    proof {
        assert(first_effect_failure(*ability, ability.ability_effects@.len() as int) is None);
    }
    let mut i: usize = 0;
    while i < ability.default_combat_triggers.len()
        invariant
            0 <= i <= ability.default_combat_triggers@.len(),
            forall|j: int| 0 <= j < i ==> (#[trigger] ability.default_combat_triggers@[j]) is Object,
            first_trigger_failure(*ability, 0) == first_trigger_failure(*ability, i as int),
        decreases ability.default_combat_triggers@.len() - i,
    {
        proof {
            reveal_with_fuel(first_trigger_failure, 2);
        }
        if !is_object(&ability.default_combat_triggers[i]) {
            let a = concat(ability.hrid.as_str(), ".defaultCombatTriggers[");
            let b = concat(a.as_str(), decimal_text(i as u64).as_str());
            return Err(invalid(concat(b.as_str(), "] must be an object")));
        }
        i = i + 1;
    }
    proof {
        assert(first_trigger_failure(*ability, ability.default_combat_triggers@.len() as int) is None);
    }
    Ok(())
}

/// Why entry `k` of the snapshot is refused, or `None`.
pub open spec fn entry_failure(s: AbilityDataSnapshotV1, k: int) -> Option<Seq<char>> {
    let key = s.abilities@[k].0@;
    let a = s.abilities@[k].1;
    if key != a.hrid@ {
        Some("ability map key "@ + key + " does not match row hrid "@ + a.hrid@)
    } else {
        ability_failure(a)
    }
}

/// The failure of the first refused entry from position `k` on.
pub open spec fn first_entry_failure(s: AbilityDataSnapshotV1, k: int) -> Option<Seq<char>>
    decreases s.abilities@.len() - k,
{
    if k < 0 || k >= s.abilities@.len() {
        None
    } else if entry_failure(s, k) is Some {
        entry_failure(s, k)
    } else {
        first_entry_failure(s, k + 1)
    }
}

/// Why the snapshot is refused: the message of its first failing check, or
/// `None`.
pub open spec fn snapshot_failure(s: AbilityDataSnapshotV1) -> Option<Seq<char>> {
    if !keys_ascending(s.abilities@) {
        Some("abilities must be listed once each, in ascending key order"@)
    } else if s.schema_version != ABILITY_DATA_SCHEMA_VERSION {
        Some("unsupported ability schema "@ + decimal(s.schema_version as nat) + "; expected 1"@)
    } else if s.data_version@ != ABILITY_DATA_VERSION@ {
        Some("unexpected ability data version "@ + s.data_version@ + "; expected "@ + ABILITY_DATA_VERSION@)
    } else if spec_is_blank(s.source.path@) {
        Some("ability source path must not be empty"@)
    } else if !source_valid(s.source) {
        Some("ability source sha256 must be 64 lowercase hexadecimal characters"@)
    } else if s.abilities@.len() == 0 || s.count != s.abilities@.len() {
        Some("ability count mismatch: declared "@ + decimal(s.count as nat) + " but found "@ + decimal(s.abilities@.len()))
    } else {
        first_entry_failure(s, 0)
    }
}

impl AbilityDataSnapshotV1 {
    /// Validates the snapshot: that the abilities are listed once each, in
    /// ascending key order (as a map keyed by id holds them), schema and
    /// data version, the source, that the declared count matches a non-empty list, and that each entry's
    /// key is its row's id and the row passes its own checks. The first
    /// failing check decides the message.
    #[verifier::loop_isolation(false)]
    pub fn validate(&self) -> (r: Result<(), SimError>)
        ensures
            r is Ok <==> snapshot_valid(*self),
            match snapshot_failure(*self) {
                Some(m) => r matches Err(e) && data_error(e, m),
                None => r is Ok,
            },
    {
        if !check_keys_ascending(&self.abilities) {
            return Err(invalid("abilities must be listed once each, in ascending key order".to_owned()));
        }
        if self.schema_version != ABILITY_DATA_SCHEMA_VERSION {
            let a = concat("unsupported ability schema ", decimal_text(self.schema_version as u64).as_str());
            return Err(invalid(concat(a.as_str(), "; expected 1")));
        }
        if !text_eq(self.data_version.as_str(), ABILITY_DATA_VERSION) {
            let a = concat("unexpected ability data version ", self.data_version.as_str());
            let b = concat(a.as_str(), "; expected ");
            return Err(invalid(concat(b.as_str(), ABILITY_DATA_VERSION)));
        }
        let c = validate_source(&self.source);
        if c.is_err() {
            return c;
        }
        if self.abilities.len() == 0 || self.count != self.abilities.len() {
            let a = concat("ability count mismatch: declared ", decimal_text(self.count as u64).as_str());
            let b = concat(a.as_str(), " but found ");
            return Err(invalid(concat(b.as_str(), decimal_text(self.abilities.len() as u64).as_str())));
        }
        let mut i: usize = 0;
        while i < self.abilities.len()
            invariant
                0 <= i <= self.abilities@.len(),
                forall|j: int|
                    0 <= j < i ==> (#[trigger] self.abilities@[j]).0@ == self.abilities@[j].1.hrid@
                        && ability_valid(self.abilities@[j].1),
                first_entry_failure(*self, 0) == first_entry_failure(*self, i as int),
            decreases self.abilities@.len() - i,
        {
            proof {
                reveal_with_fuel(first_entry_failure, 2);
            }
            let key = &self.abilities[i].0;
            let ability = &self.abilities[i].1;
            if !text_eq(key.as_str(), ability.hrid.as_str()) {
                let a = concat("ability map key ", key.as_str());
                let b = concat(a.as_str(), " does not match row hrid ");
                return Err(invalid(concat(b.as_str(), ability.hrid.as_str())));
            }
            let c = validate_ability(ability);
            if c.is_err() {
                return c;
            }
            i = i + 1;
        }
        proof {
            assert(first_entry_failure(*self, self.abilities@.len() as int) is None);
        }
        Ok(())
    }

    /// The ability listed under `hrid`.
    pub fn ability(&self, hrid: &str) -> (r: Option<&AbilityDataV1>)
        ensures
            match crate::combat_data::find_keyed(self.abilities@, hrid@) {
                Some(a) => r == Some(&a),
                None => r is None,
            },
    {
        crate::combat_data::find_entry(&self.abilities, hrid)
    }
}


/// A direct-damage issue view.
pub type IssueView = (Seq<char>, Seq<char>);

/// `v` reports that `n` (field `field`) is non-zero.
pub open spec fn non_zero_issue(code: Seq<char>, n: Number, field: Seq<char>, v: IssueView) -> bool {
    !float_bits::spec_is_zero(n.bits) && v == (code, field + " is non-zero ("@ + n.text@ + ")"@)
}

/// `v` reports that a duration is non-zero.
pub open spec fn duration_issue(code: Seq<char>, t: SimTime, detail: Seq<char>, v: IssueView) -> bool {
    t@ != 0 && v == (code, detail)
}

/// `v` is one of the reasons effect `e` is not plain direct damage.
pub open spec fn effect_issue(e: AbilityEffectDataV1, v: IssueView) -> bool {
    ||| e.effect_type@ != "/ability_effect_types/damage"@ && v == ("effect_type"@, "effectType is "@ + e.effect_type@)
    ||| e.target_type@ != "enemy"@ && v == ("target_type"@, "targetType is "@ + e.target_type@)
    ||| !supported_style(e.combat_style_hrid@) && v == ("combat_style"@, "unsupported combat style "@ + e.combat_style_hrid@)
    ||| !supported_damage_type(e.damage_type@) && v == ("damage_type"@, "unsupported damage type "@ + e.damage_type@)
    ||| (e.buffs matches Some(b) && b@.len() > 0) && v == ("buffs"@, "effect applies Buffs"@)
    ||| non_zero_issue("damage_over_time"@, e.damage_over_time_ratio, "damageOverTimeRatio"@, v)
    ||| duration_issue("damage_over_time"@, e.damage_over_time_duration, "damageOverTimeDuration is non-zero"@, v)
    ||| non_zero_issue("armor_damage"@, e.armor_damage_ratio, "armorDamageRatio"@, v)
    ||| non_zero_issue("armor_damage"@, e.armor_damage_ratio_level_bonus, "armorDamageRatioLevelBonus"@, v)
    ||| non_zero_issue("hp_drain"@, e.hp_drain_ratio, "hpDrainRatio"@, v)
    ||| non_zero_issue("pierce"@, e.pierce_chance, "pierceChance"@, v)
    ||| non_zero_issue("blind"@, e.blind_chance, "blindChance"@, v)
    ||| duration_issue("blind"@, e.blind_duration, "blindDuration is non-zero"@, v)
    ||| non_zero_issue("silence"@, e.silence_chance, "silenceChance"@, v)
    ||| duration_issue("silence"@, e.silence_duration, "silenceDuration is non-zero"@, v)
    ||| non_zero_issue("stun"@, e.stun_chance, "stunChance"@, v)
    ||| duration_issue("stun"@, e.stun_duration, "stunDuration is non-zero"@, v)
    ||| non_zero_issue("spend_hp"@, e.spend_hp_ratio, "spendHpRatio"@, v)
    ||| exists|k: int|
        0 <= k < e.extensions@.len() && !spec_zero_like((#[trigger] e.extensions@[k]).value) && v == (
            "unknown_effect_extension"@,
            "unknown non-zero effect field "@ + e.extensions@[k].name@,
        )
}

/// `v` is one of the reasons ability `a` is not a direct-damage candidate:
/// a wrong number of effects alone, or else the issues of its effect.
pub open spec fn ability_issue(a: AbilityDataV1, v: IssueView) -> bool {
    if a.ability_effects@.len() != 1 {
        v == ("effect_count"@, "Ability has "@ + decimal(a.ability_effects@.len()) + " effects; exactly one is required"@)
    } else {
        effect_issue(a.ability_effects@[0], v)
    }
}

fn push_dd_issue(issues: &mut Vec<DirectDamageAbilityIssueV1>, code: &str, detail: String)
    ensures
        final(issues)@.len() == old(issues)@.len() + 1,
        view_set(final(issues)@) == view_set(old(issues)@).insert((code@, detail@)),
{
    let ghost before = issues@;
    let ghost d = detail@;
    issues.push(DirectDamageAbilityIssueV1 { code: code.to_owned(), detail });
    proof {
        let t = issues@;
        assert forall|v: IssueView| view_set(t).contains(v) <==> view_set(before).insert((code@, d)).contains(v) by {
            if view_set(t).contains(v) {
                let i = choose|i: int| 0 <= i < t.len() && #[trigger] t[i]@ == v;
                if i < before.len() {
                    assert(before[i]@ == v);
                }
            }
            if view_set(before).contains(v) {
                let i = choose|i: int| 0 <= i < before.len() && #[trigger] before[i]@ == v;
                assert(t[i]@ == v);
            }
            if v == (code@, d) {
                assert(t[before.len() as int]@ == v);
            }
        }
        assert(view_set(t) =~= view_set(before).insert((code@, d)));
    }
}

fn reject_non_zero(issues: &mut Vec<DirectDamageAbilityIssueV1>, code: &str, value: &Number, field: &str)
    ensures
        view_set(final(issues)@) == view_set(old(issues)@).union(
            Set::new(|v: IssueView| non_zero_issue(code@, *value, field@, v)),
        ),
{
    if float_bits::is_non_zero(value.bits) {
        let a = concat(field, " is non-zero (");
        let b = concat(a.as_str(), value.text.as_str());
        push_dd_issue(issues, code, concat(b.as_str(), ")"));
        proof {
            assert(view_set(issues@) =~= view_set(old(issues)@).union(
                Set::new(|v: IssueView| non_zero_issue(code@, *value, field@, v)),
            ));
        }
    } else {
        proof {
            assert(view_set(issues@) =~= view_set(old(issues)@).union(
                Set::new(|v: IssueView| non_zero_issue(code@, *value, field@, v)),
            ));
        }
    }
}

fn reject_duration(issues: &mut Vec<DirectDamageAbilityIssueV1>, code: &str, t: SimTime, detail: &str)
    ensures
        view_set(final(issues)@) == view_set(old(issues)@).union(
            Set::new(|v: IssueView| duration_issue(code@, t, detail@, v)),
        ),
{
    if !t.is_zero() {
        push_dd_issue(issues, code, detail.to_owned());
        proof {
            assert(view_set(issues@) =~= view_set(old(issues)@).union(
                Set::new(|v: IssueView| duration_issue(code@, t, detail@, v)),
            ));
        }
    } else {
        proof {
            assert(view_set(issues@) =~= view_set(old(issues)@).union(
                Set::new(|v: IssueView| duration_issue(code@, t, detail@, v)),
            ));
        }
    }
}

/// The reasons `ability` is not a single-target direct-damage ability, in
/// order, each once; empty exactly when it is a candidate.
pub fn direct_damage_issues(ability: &AbilityDataV1) -> (r: Vec<DirectDamageAbilityIssueV1>)
    ensures
        strictly_sorted(r@),
        view_set(r@) == Set::new(|v: IssueView| ability_issue(*ability, v)),
{
    let mut issues: Vec<DirectDamageAbilityIssueV1> = Vec::new();
    proof {
        assert(view_set(issues@) =~= Set::<IssueView>::empty());
    }
    if ability.ability_effects.len() != 1 {
        let n = decimal_text(ability.ability_effects.len() as u64);
        assert(n@ == decimal(ability.ability_effects@.len()));
        let a = concat("Ability has ", n.as_str());
        let detail = concat(a.as_str(), " effects; exactly one is required");
        assert(detail@ == "Ability has "@ + decimal(ability.ability_effects@.len()) + " effects; exactly one is required"@);
        push_dd_issue(&mut issues, "effect_count", detail);
        proof {
            assert(view_set(issues@) =~= Set::<IssueView>::empty().insert(("effect_count"@, detail@)));
            assert(view_set(issues@) =~= Set::new(|v: IssueView| ability_issue(*ability, v)));
            assert(strictly_sorted(issues@));
        }
        return issues;
    }
    let effect = &ability.ability_effects[0];
    let ghost e = *effect;
    let ghost mut added: Set<IssueView> = Set::empty();
    if !text_eq(effect.effect_type.as_str(), "/ability_effect_types/damage") {
        push_dd_issue(&mut issues, "effect_type", concat("effectType is ", effect.effect_type.as_str()));
        proof { added = added.insert(("effect_type"@, "effectType is "@ + e.effect_type@)); }
    }
    if !text_eq(effect.target_type.as_str(), "enemy") {
        push_dd_issue(&mut issues, "target_type", concat("targetType is ", effect.target_type.as_str()));
        proof { added = added.insert(("target_type"@, "targetType is "@ + e.target_type@)); }
    }
    if !is_supported_style(effect.combat_style_hrid.as_str()) {
        push_dd_issue(&mut issues, "combat_style", concat("unsupported combat style ", effect.combat_style_hrid.as_str()));
        proof { added = added.insert(("combat_style"@, "unsupported combat style "@ + e.combat_style_hrid@)); }
    }
    if !is_supported_damage_type(effect.damage_type.as_str()) {
        push_dd_issue(&mut issues, "damage_type", concat("unsupported damage type ", effect.damage_type.as_str()));
        proof { added = added.insert(("damage_type"@, "unsupported damage type "@ + e.damage_type@)); }
    }
    let has_buffs = match &effect.buffs {
        Some(b) => b.len() > 0,
        None => false,
    };
    if has_buffs {
        push_dd_issue(&mut issues, "buffs", "effect applies Buffs".to_owned());
        proof { added = added.insert(("buffs"@, "effect applies Buffs"@)); }
    }
    proof {
        assert(view_set(issues@) =~= added);
    }
    let ghost first = added;
reject_non_zero(&mut issues, "damage_over_time", &effect.damage_over_time_ratio, "damageOverTimeRatio");
    let ghost s0 = view_set(issues@);
    reject_duration(&mut issues, "damage_over_time", effect.damage_over_time_duration, "damageOverTimeDuration is non-zero");
    let ghost s1 = view_set(issues@);
    reject_non_zero(&mut issues, "armor_damage", &effect.armor_damage_ratio, "armorDamageRatio");
    let ghost s2 = view_set(issues@);
    reject_non_zero(&mut issues, "armor_damage", &effect.armor_damage_ratio_level_bonus, "armorDamageRatioLevelBonus");
    let ghost s3 = view_set(issues@);
    reject_non_zero(&mut issues, "hp_drain", &effect.hp_drain_ratio, "hpDrainRatio");
    let ghost s4 = view_set(issues@);
    reject_non_zero(&mut issues, "pierce", &effect.pierce_chance, "pierceChance");
    let ghost s5 = view_set(issues@);
    reject_non_zero(&mut issues, "blind", &effect.blind_chance, "blindChance");
    let ghost s6 = view_set(issues@);
    reject_duration(&mut issues, "blind", effect.blind_duration, "blindDuration is non-zero");
    let ghost s7 = view_set(issues@);
    reject_non_zero(&mut issues, "silence", &effect.silence_chance, "silenceChance");
    let ghost s8 = view_set(issues@);
    reject_duration(&mut issues, "silence", effect.silence_duration, "silenceDuration is non-zero");
    let ghost s9 = view_set(issues@);
    reject_non_zero(&mut issues, "stun", &effect.stun_chance, "stunChance");
    let ghost s10 = view_set(issues@);
    reject_duration(&mut issues, "stun", effect.stun_duration, "stunDuration is non-zero");
    let ghost s11 = view_set(issues@);
    reject_non_zero(&mut issues, "spend_hp", &effect.spend_hp_ratio, "spendHpRatio");
    let ghost s12 = view_set(issues@);
    let ghost middle = view_set(issues@);
    let mut k: usize = 0;
    while k < effect.extensions.len()
        invariant
            0 <= k <= effect.extensions@.len(),
            view_set(issues@) == middle.union(Set::new(|v: IssueView| exists|j: int|
                0 <= j < k && !spec_zero_like((#[trigger] effect.extensions@[j]).value) && v == (
                    "unknown_effect_extension"@,
                    "unknown non-zero effect field "@ + effect.extensions@[j].name@,
                ))),
        decreases effect.extensions@.len() - k,
    {
        let ghost before = view_set(issues@);
        let field = &effect.extensions[k];
        if !zero_like(&field.value) {
            push_dd_issue(&mut issues, "unknown_effect_extension", concat("unknown non-zero effect field ", field.name.as_str()));
        }
        proof {
            assert(view_set(issues@) =~= middle.union(Set::new(|v: IssueView| exists|j: int|
                0 <= j < k + 1 && !spec_zero_like((#[trigger] effect.extensions@[j]).value) && v == (
                    "unknown_effect_extension"@,
                    "unknown non-zero effect field "@ + effect.extensions@[j].name@,
                ))));
        }
        k = k + 1;
    }
    let sorted = sort_dedup(issues);
    proof {
        assert(e == ability.ability_effects@[0]);
        assert forall|v: IssueView| middle.contains(v) <==> (first.contains(v)
                || non_zero_issue("damage_over_time"@, e.damage_over_time_ratio, "damageOverTimeRatio"@, v)
                || duration_issue("damage_over_time"@, e.damage_over_time_duration, "damageOverTimeDuration is non-zero"@, v)
                || non_zero_issue("armor_damage"@, e.armor_damage_ratio, "armorDamageRatio"@, v)
                || non_zero_issue("armor_damage"@, e.armor_damage_ratio_level_bonus, "armorDamageRatioLevelBonus"@, v)
                || non_zero_issue("hp_drain"@, e.hp_drain_ratio, "hpDrainRatio"@, v)
                || non_zero_issue("pierce"@, e.pierce_chance, "pierceChance"@, v)
                || non_zero_issue("blind"@, e.blind_chance, "blindChance"@, v)
                || duration_issue("blind"@, e.blind_duration, "blindDuration is non-zero"@, v)
                || non_zero_issue("silence"@, e.silence_chance, "silenceChance"@, v)
                || duration_issue("silence"@, e.silence_duration, "silenceDuration is non-zero"@, v)
                || non_zero_issue("stun"@, e.stun_chance, "stunChance"@, v)
                || duration_issue("stun"@, e.stun_duration, "stunDuration is non-zero"@, v)
                || non_zero_issue("spend_hp"@, e.spend_hp_ratio, "spendHpRatio"@, v)) by {
        }
        assert forall|v: IssueView| first.contains(v) <==> (
            (e.effect_type@ != "/ability_effect_types/damage"@ && v == ("effect_type"@, "effectType is "@ + e.effect_type@))
            || (e.target_type@ != "enemy"@ && v == ("target_type"@, "targetType is "@ + e.target_type@))
            || (!supported_style(e.combat_style_hrid@) && v == ("combat_style"@, "unsupported combat style "@ + e.combat_style_hrid@))
            || (!supported_damage_type(e.damage_type@) && v == ("damage_type"@, "unsupported damage type "@ + e.damage_type@))
            || ((e.buffs matches Some(b) && b@.len() > 0) && v == ("buffs"@, "effect applies Buffs"@))) by {
        }
        assert(view_set(sorted@) =~= Set::new(|v: IssueView| ability_issue(*ability, v)));
    }
    sorted
}


/// `c` describes ability `i` of `s` as a candidate: it has no issue.
pub open spec fn candidate_describes(s: AbilityDataSnapshotV1, i: int, c: DirectDamageAbilityCandidateV1) -> bool {
    let a = s.abilities@[i].1;
    &&& c.ability_hrid@ == s.abilities@[i].0@
    &&& Set::new(|v: IssueView| ability_issue(a, v)).is_empty()
    &&& c.combat_style_hrid@ == a.ability_effects@[0].combat_style_hrid@
    &&& c.damage_type@ == a.ability_effects@[0].damage_type@
    &&& c.default_trigger_count == a.default_combat_triggers@.len()
}

/// Plain single-target direct damage: exactly one effect, a damage effect
/// on an enemy in a supported combat style and damage type, applying no
/// buffs, with every special mechanic off (damage over time, armor damage,
/// HP drain, pierce, blind, silence, stun, HP spending: each ratio or
/// chance zero and each duration zero) and every unknown field zero-like.
pub open spec fn plain_direct_damage(a: AbilityDataV1) -> bool {
    &&& a.ability_effects@.len() == 1
    &&& {
        let e = a.ability_effects@[0];
        &&& e.effect_type@ == "/ability_effect_types/damage"@
        &&& e.target_type@ == "enemy"@
        &&& supported_style(e.combat_style_hrid@)
        &&& supported_damage_type(e.damage_type@)
        &&& (e.buffs matches Some(b) ==> b@.len() == 0)
        &&& float_bits::spec_is_zero(e.damage_over_time_ratio.bits)
        &&& e.damage_over_time_duration@ == 0
        &&& float_bits::spec_is_zero(e.armor_damage_ratio.bits)
        &&& float_bits::spec_is_zero(e.armor_damage_ratio_level_bonus.bits)
        &&& float_bits::spec_is_zero(e.hp_drain_ratio.bits)
        &&& float_bits::spec_is_zero(e.pierce_chance.bits)
        &&& float_bits::spec_is_zero(e.blind_chance.bits)
        &&& e.blind_duration@ == 0
        &&& float_bits::spec_is_zero(e.silence_chance.bits)
        &&& e.silence_duration@ == 0
        &&& float_bits::spec_is_zero(e.stun_chance.bits)
        &&& e.stun_duration@ == 0
        &&& float_bits::spec_is_zero(e.spend_hp_ratio.bits)
        &&& forall|k: int| 0 <= k < e.extensions@.len() ==> spec_zero_like(#[trigger] e.extensions@[k].value)
    }
}

/// An ability is a direct-damage candidate (it has no issue) exactly when
/// it is plain single-target direct damage; so a candidate's effect has
/// every special mechanic off, and an ability with any of them on is
/// rejected.
pub proof fn law_candidates_are_plain_direct_damage(a: AbilityDataV1)
    ensures
        Set::new(|v: IssueView| ability_issue(a, v)).is_empty() <==> plain_direct_damage(a),
{
    let issues = Set::new(|v: IssueView| ability_issue(a, v));
    if plain_direct_damage(a) {
        assert(issues =~= Set::empty());
    } else if a.ability_effects@.len() != 1 {
        let w = ("effect_count"@, "Ability has "@ + decimal(a.ability_effects@.len()) + " effects; exactly one is required"@);
        assert(issues.contains(w));
    } else {
        let e = a.ability_effects@[0];
        if e.effect_type@ != "/ability_effect_types/damage"@ {
            assert(issues.contains(("effect_type"@, "effectType is "@ + e.effect_type@)));
        } else if e.target_type@ != "enemy"@ {
            assert(issues.contains(("target_type"@, "targetType is "@ + e.target_type@)));
        } else if !supported_style(e.combat_style_hrid@) {
            assert(issues.contains(("combat_style"@, "unsupported combat style "@ + e.combat_style_hrid@)));
        } else if !supported_damage_type(e.damage_type@) {
            assert(issues.contains(("damage_type"@, "unsupported damage type "@ + e.damage_type@)));
        } else if e.buffs matches Some(b) && b@.len() > 0 {
            assert(issues.contains(("buffs"@, "effect applies Buffs"@)));
        } else if !float_bits::spec_is_zero(e.damage_over_time_ratio.bits) {
            assert(issues.contains(("damage_over_time"@, "damageOverTimeRatio"@ + " is non-zero ("@ + e.damage_over_time_ratio.text@ + ")"@)));
        } else if e.damage_over_time_duration@ != 0 {
            assert(issues.contains(("damage_over_time"@, "damageOverTimeDuration is non-zero"@)));
        } else if !float_bits::spec_is_zero(e.armor_damage_ratio.bits) {
            assert(issues.contains(("armor_damage"@, "armorDamageRatio"@ + " is non-zero ("@ + e.armor_damage_ratio.text@ + ")"@)));
        } else if !float_bits::spec_is_zero(e.armor_damage_ratio_level_bonus.bits) {
            assert(issues.contains(("armor_damage"@, "armorDamageRatioLevelBonus"@ + " is non-zero ("@ + e.armor_damage_ratio_level_bonus.text@ + ")"@)));
        } else if !float_bits::spec_is_zero(e.hp_drain_ratio.bits) {
            assert(issues.contains(("hp_drain"@, "hpDrainRatio"@ + " is non-zero ("@ + e.hp_drain_ratio.text@ + ")"@)));
        } else if !float_bits::spec_is_zero(e.pierce_chance.bits) {
            assert(issues.contains(("pierce"@, "pierceChance"@ + " is non-zero ("@ + e.pierce_chance.text@ + ")"@)));
        } else if !float_bits::spec_is_zero(e.blind_chance.bits) {
            assert(issues.contains(("blind"@, "blindChance"@ + " is non-zero ("@ + e.blind_chance.text@ + ")"@)));
        } else if e.blind_duration@ != 0 {
            assert(issues.contains(("blind"@, "blindDuration is non-zero"@)));
        } else if !float_bits::spec_is_zero(e.silence_chance.bits) {
            assert(issues.contains(("silence"@, "silenceChance"@ + " is non-zero ("@ + e.silence_chance.text@ + ")"@)));
        } else if e.silence_duration@ != 0 {
            assert(issues.contains(("silence"@, "silenceDuration is non-zero"@)));
        } else if !float_bits::spec_is_zero(e.stun_chance.bits) {
            assert(issues.contains(("stun"@, "stunChance"@ + " is non-zero ("@ + e.stun_chance.text@ + ")"@)));
        } else if e.stun_duration@ != 0 {
            assert(issues.contains(("stun"@, "stunDuration is non-zero"@)));
        } else if !float_bits::spec_is_zero(e.spend_hp_ratio.bits) {
            assert(issues.contains(("spend_hp"@, "spendHpRatio"@ + " is non-zero ("@ + e.spend_hp_ratio.text@ + ")"@)));
        } else {
            let k = choose|k: int| 0 <= k < e.extensions@.len() && !spec_zero_like(#[trigger] e.extensions@[k].value);
            assert(issues.contains(("unknown_effect_extension"@, "unknown non-zero effect field "@ + e.extensions@[k].name@)));
        }
    }
}

/// `r` describes ability `i` of `s` as rejected, with all of its issues.
pub open spec fn rejection_describes(s: AbilityDataSnapshotV1, i: int, r: DirectDamageAbilityRejectionV1) -> bool {
    let a = s.abilities@[i].1;
    &&& r.ability_hrid@ == s.abilities@[i].0@
    &&& !Set::new(|v: IssueView| ability_issue(a, v)).is_empty()
    &&& strictly_sorted(r.issues@)
    &&& view_set(r.issues@) == Set::new(|v: IssueView| ability_issue(a, v))
}

/// The first `n` abilities of `s` are classified, in order, into `cands`
/// and `rejs`.
pub open spec fn classified(
    s: AbilityDataSnapshotV1,
    n: int,
    cands: Seq<DirectDamageAbilityCandidateV1>,
    rejs: Seq<DirectDamageAbilityRejectionV1>,
) -> bool
    decreases n,
{
    if n <= 0 {
        cands.len() == 0 && rejs.len() == 0
    } else if Set::new(|v: IssueView| ability_issue(s.abilities@[n - 1].1, v)).is_empty() {
        cands.len() > 0 && candidate_describes(s, n - 1, cands.last()) && classified(
            s,
            n - 1,
            cands.drop_last(),
            rejs,
        )
    } else {
        rejs.len() > 0 && rejection_describes(s, n - 1, rejs.last()) && classified(
            s,
            n - 1,
            cands,
            rejs.drop_last(),
        )
    }
}

/// Classification is complete and every rejection has a reason: of the
/// first `n` abilities, the candidates and the rejections together number
/// `n`, and each rejection lists at least one issue.
pub proof fn law_classification_is_complete(
    s: AbilityDataSnapshotV1,
    n: int,
    cands: Seq<DirectDamageAbilityCandidateV1>,
    rejs: Seq<DirectDamageAbilityRejectionV1>,
)
    requires
        n >= 0,
        classified(s, n, cands, rejs),
    ensures
        cands.len() + rejs.len() == n,
        forall|i: int| 0 <= i < rejs.len() ==> (#[trigger] rejs[i]).issues@.len() > 0,
    decreases n,
{
    if n > 0 {
        if Set::new(|v: IssueView| ability_issue(s.abilities@[n - 1].1, v)).is_empty() {
            law_classification_is_complete(s, n - 1, cands.drop_last(), rejs);
        } else {
            law_classification_is_complete(s, n - 1, cands, rejs.drop_last());
            let last = rejs.last();
            if last.issues@.len() == 0 {
                let target = Set::new(|v: IssueView| ability_issue(s.abilities@[n - 1].1, v));
                assert(view_set(last.issues@) =~= Set::<IssueView>::empty());
                assert(target =~= Set::<IssueView>::empty());
            }
            assert forall|i: int| 0 <= i < rejs.len() implies (#[trigger] rejs[i]).issues@.len()
                > 0 by {
                if i < rejs.len() - 1 {
                    assert(rejs[i] == rejs.drop_last()[i]);
                }
            }
        }
    }
}

/// The reason codes of all issues of `rejs`, in order.
pub open spec fn reason_codes(rejs: Seq<DirectDamageAbilityRejectionV1>) -> Seq<Seq<char>>
    decreases rejs.len(),
{
    if rejs.len() == 0 {
        Seq::empty()
    } else {
        reason_codes(rejs.drop_last()) + rejs.last().issues@.map_values(
            |i: DirectDamageAbilityIssueV1| i.code@,
        )
    }
}

/// Classifies every ability of a valid snapshot: an ability without
/// issues is a candidate, described by its single effect's combat style
/// and damage type and its number of default triggers; every other ability
/// is rejected with all of its issues. An invalid snapshot is refused with
/// its validation error.
pub fn classify_direct_damage_abilities(snapshot: &AbilityDataSnapshotV1) -> (r: Result<
    DirectDamageAbilityReportV1,
    SimError,
>)
    ensures
        r is Ok <==> snapshot_valid(*snapshot),
        snapshot_failure(*snapshot) matches Some(m) ==> (r matches Err(e) && data_error(e, m)),
        r matches Ok(rep) ==> {
            &&& rep.report_version == DIRECT_DAMAGE_REPORT_VERSION
            &&& rep.data_version@ == snapshot.data_version@
            &&& classified(*snapshot, snapshot.abilities@.len() as int, rep.candidates@, rep.rejected@)
            &&& rep.counts.total_abilities == snapshot.abilities@.len()
            &&& rep.counts.candidates == rep.candidates@.len()
            &&& rep.counts.rejected == rep.rejected@.len()
            &&& counts_codes(rep.reason_counts@, reason_codes(rep.rejected@))
            &&& forall|a: int, b: int|
                0 <= a < b < rep.candidates@.len() ==> text_lt(
                    (#[trigger] rep.candidates@[a]).ability_hrid@,
                    (#[trigger] rep.candidates@[b]).ability_hrid@,
                )
            &&& forall|a: int, b: int|
                0 <= a < b < rep.rejected@.len() ==> text_lt(
                    (#[trigger] rep.rejected@[a]).ability_hrid@,
                    (#[trigger] rep.rejected@[b]).ability_hrid@,
                )
        },
{
    let checked = snapshot.validate();
    if let Err(e) = checked {
        return Err(e);
    }
    let mut candidates: Vec<DirectDamageAbilityCandidateV1> = Vec::new();
    let mut rejected: Vec<DirectDamageAbilityRejectionV1> = Vec::new();
    let mut codes: Vec<String> = Vec::new();
    let mut i: usize = 0;
    while i < snapshot.abilities.len()
        invariant
            0 <= i <= snapshot.abilities@.len(),
            classified(*snapshot, i as int, candidates@, rejected@),
            codes@.map_values(|c: String| c@) == reason_codes(rejected@),
            keys_ascending(snapshot.abilities@),
            forall|a: int, b: int|
                0 <= a < b < candidates@.len() ==> text_lt(
                    (#[trigger] candidates@[a]).ability_hrid@,
                    (#[trigger] candidates@[b]).ability_hrid@,
                ),
            forall|a: int, b: int|
                0 <= a < b < rejected@.len() ==> text_lt(
                    (#[trigger] rejected@[a]).ability_hrid@,
                    (#[trigger] rejected@[b]).ability_hrid@,
                ),
            forall|a: int, k: int|
                0 <= a < candidates@.len() && i <= k < snapshot.abilities@.len() ==> text_lt(
                    (#[trigger] candidates@[a]).ability_hrid@,
                    (#[trigger] snapshot.abilities@[k]).0@,
                ),
            forall|a: int, k: int|
                0 <= a < rejected@.len() && i <= k < snapshot.abilities@.len() ==> text_lt(
                    (#[trigger] rejected@[a]).ability_hrid@,
                    (#[trigger] snapshot.abilities@[k]).0@,
                ),
        decreases snapshot.abilities@.len() - i,
    {
        let key = &snapshot.abilities[i].0;
        let ability = &snapshot.abilities[i].1;
        let issues = direct_damage_issues(ability);
        proof {
            assert(issues@.len() == 0 <==> view_set(issues@).is_empty()) by {
                if issues@.len() > 0 {
                    assert(view_set(issues@).contains(issues@[0]@));
                }
            }
        }
        let ghost old_c = candidates@;
        let ghost old_r = rejected@;
        if issues.len() == 0 {
            proof {
                if ability.ability_effects@.len() != 1 {
                    let v = ("effect_count"@, "Ability has "@ + decimal(ability.ability_effects@.len()) + " effects; exactly one is required"@);
                    assert(Set::new(|v: IssueView| ability_issue(*ability, v)).contains(v));
                }
            }
            let effect = &ability.ability_effects[0];
            candidates.push(DirectDamageAbilityCandidateV1 {
                ability_hrid: key.clone(),
                combat_style_hrid: effect.combat_style_hrid.clone(),
                damage_type: effect.damage_type.clone(),
                default_trigger_count: ability.default_combat_triggers.len(),
            });
            proof {
                assert(candidates@.drop_last() =~= old_c);
            }
        } else {
            let mut j: usize = 0;
            let ghost base = codes@;
            while j < issues.len()
                invariant
                    0 <= j <= issues@.len(),
                    codes@ == base + issues@.subrange(0, j as int).map_values(|x: DirectDamageAbilityIssueV1| x.code),
                decreases issues@.len() - j,
            {
                codes.push(issues[j].code.clone());
                proof {
                    assert(issues@.subrange(0, j as int + 1).map_values(|x: DirectDamageAbilityIssueV1| x.code) =~= issues@.subrange(0, j as int).map_values(|x: DirectDamageAbilityIssueV1| x.code).push(issues@[j as int].code));
                }
                j = j + 1;
            }
            let rejection = DirectDamageAbilityRejectionV1 { ability_hrid: key.clone(), issues };
            let ghost rej = rejection;
            rejected.push(rejection);
            proof {
                assert(rejected@.drop_last() =~= old_r);
                assert(rejected@.drop_last().push(rej) =~= rejected@);
                assert(reason_codes(rejected@) == reason_codes(old_r) + rej.issues@.map_values(|x: DirectDamageAbilityIssueV1| x.code@));
                assert(rej.issues@.subrange(0, rej.issues@.len() as int) =~= rej.issues@);
                assert(codes@.map_values(|c: String| c@) =~= reason_codes(rejected@));
            }
        }
        proof {
            let key_i = snapshot.abilities@[i as int].0@;
            assert forall|a: int, k: int|
                0 <= a < candidates@.len() && i + 1 <= k < snapshot.abilities@.len() implies text_lt(
                (#[trigger] candidates@[a]).ability_hrid@,
                (#[trigger] snapshot.abilities@[k]).0@,
            ) by {
                if a < old_c.len() {
                    assert(candidates@[a] == old_c[a]);
                } else {
                    assert(text_lt(snapshot.abilities@[i as int].0@, snapshot.abilities@[k].0@));
                }
            }
            assert forall|a: int, k: int|
                0 <= a < rejected@.len() && i + 1 <= k < snapshot.abilities@.len() implies text_lt(
                (#[trigger] rejected@[a]).ability_hrid@,
                (#[trigger] snapshot.abilities@[k]).0@,
            ) by {
                if a < old_r.len() {
                    assert(rejected@[a] == old_r[a]);
                } else {
                    assert(text_lt(snapshot.abilities@[i as int].0@, snapshot.abilities@[k].0@));
                }
            }
            assert forall|a: int, b: int|
                0 <= a < b < candidates@.len() implies text_lt(
                (#[trigger] candidates@[a]).ability_hrid@,
                (#[trigger] candidates@[b]).ability_hrid@,
            ) by {
                assert(candidates@[a] == old_c[a]);
                if b < old_c.len() {
                    assert(candidates@[b] == old_c[b]);
                } else {
                    assert(text_lt(old_c[a].ability_hrid@, snapshot.abilities@[i as int].0@));
                }
            }
            assert forall|a: int, b: int|
                0 <= a < b < rejected@.len() implies text_lt(
                (#[trigger] rejected@[a]).ability_hrid@,
                (#[trigger] rejected@[b]).ability_hrid@,
            ) by {
                assert(rejected@[a] == old_r[a]);
                if b < old_r.len() {
                    assert(rejected@[b] == old_r[b]);
                } else {
                    assert(text_lt(old_r[a].ability_hrid@, snapshot.abilities@[i as int].0@));
                }
            }
        }
        i = i + 1;
    }
    let reason_counts = count_codes(&codes);
    let total_abilities = snapshot.abilities.len();
    let n_candidates = candidates.len();
    let n_rejected = rejected.len();
    Ok(DirectDamageAbilityReportV1 {
        report_version: DIRECT_DAMAGE_REPORT_VERSION,
        data_version: snapshot.data_version.clone(),
        counts: DirectDamageAbilityCountsV1 { total_abilities, candidates: n_candidates, rejected: n_rejected },
        reason_counts,
        candidates,
        rejected,
    })
}

} // verus!
