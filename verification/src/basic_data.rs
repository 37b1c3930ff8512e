//! The minimal data slice for the basic auto-attack engine: the tier-0 Fly
//! zone and its monster.
use vstd::prelude::*;

use crate::combat_data::{data_error, invalid};
use crate::error::SimError;
use crate::float_bits::{self, Number};
use crate::json::JsonValue;
use crate::text::{concat, decimal, decimal_text, text_eq};
use crate::time::SimTime;

verus! {

/// The schema version this library reads.
pub const BASIC_DATA_SCHEMA_VERSION: u32 = 1;

/// The game data version the slice must come from.
pub const BASIC_DATA_VERSION: &'static str = "repository-v1.0.28";

/// The Fly zone.
pub const BASIC_FLY_ZONE_HRID: &'static str = "/actions/combat/fly";

/// The Fly monster.
pub const BASIC_FLY_MONSTER_HRID: &'static str = "/monsters/fly";

/// The zone of the slice.
#[derive(Clone, Debug, PartialEq, Eq)]
pub struct BasicZoneData {
    pub hrid: String,
    pub monster_hrid: String,
    pub difficulty_tier: u32,
    pub spawn_count: u32,
    pub respawn_interval: SimTime,
}

/// The monster of the slice, with its derived combat values.
#[derive(Clone, Debug, PartialEq, Eq)]
pub struct BasicMonsterData {
    pub hrid: String,
    pub max_hitpoints: Number,
    pub max_manapoints: Number,
    pub attack_level: Number,
    pub base_attack_interval: SimTime,
    pub smash_accuracy_rating: Number,
    pub smash_max_damage: Number,
    pub smash_evasion_rating: Number,
    pub total_armor: Number,
    pub auto_attack_damage: Number,
    pub experience: Number,
    pub enrage_time: SimTime,
}

/// The slice. Its source list is kept as JSON.
#[derive(Clone, Debug)]
pub struct BasicGameData {
    pub schema_version: u32,
    pub data_version: String,
    pub sources: JsonValue,
    pub zone: BasicZoneData,
    pub monster: BasicMonsterData,
}

/// The slice's own fields are valid: the expected versions, exactly one
/// tier-0 Fly spawn, the Fly monster, positive finite hit points, mana,
/// ratings and experience, finite level, armor and bonus, and a non-zero
/// base attack interval.
pub open spec fn fields_valid(d: BasicGameData) -> bool {
    let m = d.monster;
    &&& d.schema_version == BASIC_DATA_SCHEMA_VERSION
    &&& d.data_version@ == BASIC_DATA_VERSION@
    &&& d.zone.hrid@ == BASIC_FLY_ZONE_HRID@
    &&& d.zone.monster_hrid@ == BASIC_FLY_MONSTER_HRID@
    &&& d.zone.difficulty_tier == 0
    &&& d.zone.spawn_count == 1
    &&& m.hrid@ == BASIC_FLY_MONSTER_HRID@
    &&& float_bits::spec_finite_positive(m.max_hitpoints.bits)
    &&& float_bits::spec_finite_positive(m.max_manapoints.bits)
    &&& float_bits::spec_finite_positive(m.smash_accuracy_rating.bits)
    &&& float_bits::spec_finite_positive(m.smash_max_damage.bits)
    &&& float_bits::spec_finite_positive(m.smash_evasion_rating.bits)
    &&& float_bits::spec_finite_positive(m.experience.bits)
    &&& float_bits::spec_is_finite(m.attack_level.bits)
    &&& float_bits::spec_is_finite(m.total_armor.bits)
    &&& float_bits::spec_is_finite(m.auto_attack_damage.bits)
    &&& m.base_attack_interval@ != 0
}

/// Why the slice's own fields are refused: the message of the first failing
/// check, or `None` when `fields_valid` holds.
pub open spec fn fields_failure(d: BasicGameData) -> Option<Seq<char>> {
    let m = d.monster;
    if d.schema_version != BASIC_DATA_SCHEMA_VERSION {
        Some("unsupported schema version "@ + decimal(d.schema_version as nat) + "; expected 1"@)
    } else if d.data_version@ != BASIC_DATA_VERSION@ {
        Some("unexpected data version "@ + d.data_version@ + "; expected "@ + BASIC_DATA_VERSION@)
    } else if d.zone.hrid@ != BASIC_FLY_ZONE_HRID@ || d.zone.monster_hrid@ != BASIC_FLY_MONSTER_HRID@
        || d.zone.difficulty_tier != 0 || d.zone.spawn_count != 1 {
        Some("the M2 data slice must describe exactly one tier-0 Fly spawn"@)
    } else if m.hrid@ != BASIC_FLY_MONSTER_HRID@ {
        Some("the embedded monster does not match the Fly zone"@)
    } else if !float_bits::spec_finite_positive(m.max_hitpoints.bits) {
        Some("monster.maxHitpoints"@ + " must be finite and positive"@)
    } else if !float_bits::spec_finite_positive(m.max_manapoints.bits) {
        Some("monster.maxManapoints"@ + " must be finite and positive"@)
    } else if !float_bits::spec_finite_positive(m.smash_accuracy_rating.bits) {
        Some("monster.smashAccuracyRating"@ + " must be finite and positive"@)
    } else if !float_bits::spec_finite_positive(m.smash_max_damage.bits) {
        Some("monster.smashMaxDamage"@ + " must be finite and positive"@)
    } else if !float_bits::spec_finite_positive(m.smash_evasion_rating.bits) {
        Some("monster.smashEvasionRating"@ + " must be finite and positive"@)
    } else if !float_bits::spec_finite_positive(m.experience.bits) {
        Some("monster.experience"@ + " must be finite and positive"@)
    } else if !float_bits::spec_is_finite(m.attack_level.bits) {
        Some("monster.attackLevel"@ + " must be finite"@)
    } else if !float_bits::spec_is_finite(m.total_armor.bits) {
        Some("monster.totalArmor"@ + " must be finite"@)
    } else if !float_bits::spec_is_finite(m.auto_attack_damage.bits) {
        Some("monster.autoAttackDamage"@ + " must be finite"@)
    } else if m.base_attack_interval@ == 0 {
        Some("monster.baseAttackInterval must be positive"@)
    } else {
        None
    }
}

/// The two descriptions of the slice's own checks agree.
pub proof fn lemma_fields_failure(d: BasicGameData)
    ensures
        fields_failure(d) is None <==> fields_valid(d),
{
}

fn positive_field(name: &str, value: &Number) -> (r: Result<(), SimError>)
    ensures
        r is Ok <==> float_bits::spec_finite_positive(value.bits),
        r matches Err(e) ==> data_error(e, name@ + " must be finite and positive"@),
{
    if !float_bits::finite_positive(value.bits) {
        return Err(invalid(concat(name, " must be finite and positive")));
    }
    Ok(())
}

fn finite_field(name: &str, value: &Number) -> (r: Result<(), SimError>)
    ensures
        r is Ok <==> float_bits::spec_is_finite(value.bits),
        r matches Err(e) ==> data_error(e, name@ + " must be finite"@),
{
    if !float_bits::is_finite(value.bits) {
        return Err(invalid(concat(name, " must be finite")));
    }
    Ok(())
}

impl BasicGameData {
    /// Validates the slice: its version, the single tier-0 Fly spawn, the
    /// Fly monster and its values, in that order; the first failing check
    /// decides the message. The derived attack interval
    /// (`base_attack_interval / (1 + attack_level / 2000)`) is
    /// floating-point arithmetic that the caller evaluates; its outcome is
    /// checked last and its error reported as it is.
    pub fn validate(&self, attack_interval: Result<SimTime, SimError>) -> (r: Result<(), SimError>)
        ensures
            r is Ok <==> fields_valid(*self) && attack_interval is Ok,
            match fields_failure(*self) {
                Some(m) => r matches Err(e) && data_error(e, m),
                None => match attack_interval {
                    Ok(_) => r is Ok,
                    Err(e) => r == Err::<(), SimError>(e),
                },
            },
    {
        proof {
            lemma_fields_failure(*self);
        }
        if self.schema_version != BASIC_DATA_SCHEMA_VERSION {
            let a = concat("unsupported schema version ", decimal_text(self.schema_version as u64).as_str());
            return Err(invalid(concat(a.as_str(), "; expected 1")));
        }
        if !text_eq(self.data_version.as_str(), BASIC_DATA_VERSION) {
            let a = concat("unexpected data version ", self.data_version.as_str());
            let b = concat(a.as_str(), "; expected ");
            return Err(invalid(concat(b.as_str(), BASIC_DATA_VERSION)));
        }
        if !text_eq(self.zone.hrid.as_str(), BASIC_FLY_ZONE_HRID) || !text_eq(
            self.zone.monster_hrid.as_str(),
            BASIC_FLY_MONSTER_HRID,
        ) || self.zone.difficulty_tier != 0 || self.zone.spawn_count != 1 {
            return Err(invalid("the M2 data slice must describe exactly one tier-0 Fly spawn".to_owned()));
        }
        if !text_eq(self.monster.hrid.as_str(), BASIC_FLY_MONSTER_HRID) {
            return Err(invalid("the embedded monster does not match the Fly zone".to_owned()));
        }
        let m = &self.monster;
        let c = positive_field("monster.maxHitpoints", &m.max_hitpoints);
        if c.is_err() { return c; }
        let c = positive_field("monster.maxManapoints", &m.max_manapoints);
        if c.is_err() { return c; }
        let c = positive_field("monster.smashAccuracyRating", &m.smash_accuracy_rating);
        if c.is_err() { return c; }
        let c = positive_field("monster.smashMaxDamage", &m.smash_max_damage);
        if c.is_err() { return c; }
        let c = positive_field("monster.smashEvasionRating", &m.smash_evasion_rating);
        if c.is_err() { return c; }
        let c = positive_field("monster.experience", &m.experience);
        if c.is_err() { return c; }
        let c = finite_field("monster.attackLevel", &m.attack_level);
        if c.is_err() { return c; }
        let c = finite_field("monster.totalArmor", &m.total_armor);
        if c.is_err() { return c; }
        let c = finite_field("monster.autoAttackDamage", &m.auto_attack_damage);
        if c.is_err() { return c; }
        if m.base_attack_interval.is_zero() {
            return Err(invalid("monster.baseAttackInterval must be positive".to_owned()));
        }
        match attack_interval {
            Ok(_) => Ok(()),
            Err(e) => Err(e),
        }
    }
}

} // verus!
