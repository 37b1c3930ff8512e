//! The player of a combat request, as the engines read it, and the checks
//! that keep it within what they simulate: finite levels that give positive
//! hit points and mana, and no equipment, consumables, rooms, buffs,
//! achievements, level-gap debuff or unknown fields. The basic engine takes
//! no abilities; the direct-damage engine takes exactly level-1 Aqua Arrow.
use vstd::prelude::*;

use crate::ability_data::AQUA_ARROW_HRID;
use crate::combat_scope::{refuse, refusal, unsupported, worded, CombatScope};
use crate::error::SimError;
use crate::float_bits::{self, Number, MINUS_TEN_BITS};
use crate::json::{is_empty_json_collection, spec_empty_collection, spec_shape, JsonValue};
use crate::text::{concat, is_blank, spec_is_blank, text_eq};

verus! {

/// The seven skill levels of a player.
#[derive(Clone, Debug, PartialEq, Eq)]
pub struct PlayerLevels {
    pub stamina_level: Number,
    pub intelligence_level: Number,
    pub attack_level: Number,
    pub melee_level: Number,
    pub defense_level: Number,
    pub ranged_level: Number,
    pub magic_level: Number,
}

/// The name of the first level that is not finite, in the order stamina,
/// intelligence, attack, melee, defense, ranged, magic.
pub open spec fn first_non_finite_level(l: PlayerLevels) -> Option<Seq<char>> {
    if !float_bits::spec_is_finite(l.stamina_level.bits) {
        Some("staminaLevel"@)
    } else if !float_bits::spec_is_finite(l.intelligence_level.bits) {
        Some("intelligenceLevel"@)
    } else if !float_bits::spec_is_finite(l.attack_level.bits) {
        Some("attackLevel"@)
    } else if !float_bits::spec_is_finite(l.melee_level.bits) {
        Some("meleeLevel"@)
    } else if !float_bits::spec_is_finite(l.defense_level.bits) {
        Some("defenseLevel"@)
    } else if !float_bits::spec_is_finite(l.ranged_level.bits) {
        Some("rangedLevel"@)
    } else if !float_bits::spec_is_finite(l.magic_level.bits) {
        Some("magicLevel"@)
    } else {
        None
    }
}

/// Hit points and mana are `10 * (10 + level)` for stamina and
/// intelligence; both are positive when both levels exceed `-10`. (For a
/// finite level `x`, the rounded sum `10.0 + x` is at most `0.0` exactly
/// when `x <= -10.0`.)
pub open spec fn pools_positive(l: PlayerLevels) -> bool {
    float_bits::spec_gt(l.stamina_level.bits, MINUS_TEN_BITS) && float_bits::spec_gt(
        l.intelligence_level.bits,
        MINUS_TEN_BITS,
    )
}

/// The names of members, separated by `", "`.
pub open spec fn joined_names(members: Seq<(String, JsonValue)>) -> Seq<char>
    decreases members.len(),
{
    if members.len() == 0 {
        Seq::empty()
    } else if members.len() == 1 {
        members[0].0@
    } else {
        joined_names(members.drop_last()) + ", "@ + members.last().0@
    }
}

/// Why the hrid or levels are refused: the message, or `None`.
pub open spec fn identity_failure(hrid: String, l: PlayerLevels) -> Option<Seq<char>> {
    if spec_is_blank(hrid@) {
        Some("player.hrid must not be empty"@)
    } else if first_non_finite_level(l) is Some {
        Some("player."@ + first_non_finite_level(l)->0 + " must be finite"@)
    } else if !pools_positive(l) {
        Some("player stamina/intelligence levels must produce positive HP and MP"@)
    } else {
        None
    }
}

/// Checks the hrid and the levels.
fn check_identity(scope: CombatScope, hrid: &String, l: &PlayerLevels) -> (r: Result<(), SimError>)
    ensures
        match identity_failure(*hrid, *l) {
            Some(m) => r matches Err(e) && refusal(scope, e, m),
            None => r is Ok,
        },
{
    if is_blank(hrid.as_str()) {
        return Err(unsupported(scope, "player.hrid must not be empty".to_owned()));
    }
    let names = [
        "staminaLevel",
        "intelligenceLevel",
        "attackLevel",
        "meleeLevel",
        "defenseLevel",
        "rangedLevel",
        "magicLevel",
    ];
    let levels = [
        l.stamina_level.bits,
        l.intelligence_level.bits,
        l.attack_level.bits,
        l.melee_level.bits,
        l.defense_level.bits,
        l.ranged_level.bits,
        l.magic_level.bits,
    ];
    let mut i: usize = 0;
    while i < 7
        invariant
            names@ == seq![
                "staminaLevel",
                "intelligenceLevel",
                "attackLevel",
                "meleeLevel",
                "defenseLevel",
                "rangedLevel",
                "magicLevel",
            ],
            levels@ == seq![
                l.stamina_level.bits,
                l.intelligence_level.bits,
                l.attack_level.bits,
                l.melee_level.bits,
                l.defense_level.bits,
                l.ranged_level.bits,
                l.magic_level.bits,
            ],
            0 <= i <= 7,
            !spec_is_blank(hrid@),
            forall|j: int| 0 <= j < i ==> float_bits::spec_is_finite(#[trigger] levels@[j]),
        decreases 7 - i,
    {
        if !float_bits::is_finite(levels[i]) {
            proof {
                let k = i as int;
                assert(k > 0 ==> float_bits::spec_is_finite(levels@[0]));
                assert(k > 1 ==> float_bits::spec_is_finite(levels@[1]));
                assert(k > 2 ==> float_bits::spec_is_finite(levels@[2]));
                assert(k > 3 ==> float_bits::spec_is_finite(levels@[3]));
                assert(k > 4 ==> float_bits::spec_is_finite(levels@[4]));
                assert(k > 5 ==> float_bits::spec_is_finite(levels@[5]));
                assert(first_non_finite_level(*l) == Some(names@[k]@));
            }
            let a = concat("player.", names[i]);
            return Err(unsupported(scope, concat(a.as_str(), " must be finite")));
        }
        i = i + 1;
    }
    if !float_bits::gt(l.stamina_level.bits, MINUS_TEN_BITS) || !float_bits::gt(
        l.intelligence_level.bits,
        MINUS_TEN_BITS,
    ) {
        return Err(
            unsupported(
                scope,
                "player stamina/intelligence levels must produce positive HP and MP".to_owned(),
            ),
        );
    }
    Ok(())
}

/// The names of `members`, separated by `", "`.
fn join_names(members: &Vec<(String, JsonValue)>) -> (r: String)
    ensures
        r@ == joined_names(members@),
{
    let mut out = String::new();
    let mut i: usize = 0;
    while i < members.len()
        invariant
            i <= members@.len(),
            out@ == joined_names(members@.subrange(0, i as int)),
        decreases members@.len() - i,
    {
        proof {
            let next = members@.subrange(0, i + 1);
            assert(next.drop_last() =~= members@.subrange(0, i as int));
        }
        if i == 0 {
            out = members[i].0.clone();
        } else {
            let a = concat(out.as_str(), ", ");
            out = concat(a.as_str(), members[i].0.as_str());
        }
        i = i + 1;
    }
    proof {
        assert(members@.subrange(0, members@.len() as int) =~= members@);
    }
    out
}

/// The refusal of unknown player fields, naming them.
fn unknown_fields(scope: CombatScope, members: &Vec<(String, JsonValue)>) -> (e: SimError)
    ensures
        refusal(scope, e, "unsupported player fields: "@ + joined_names(members@)),
{
    let names = join_names(members);
    unsupported(scope, concat("unsupported player fields: ", names.as_str()))
}

/// A player as the basic engine reads it.
#[derive(Clone, Debug)]
pub struct BasicPlayerDto {
    pub hrid: String,
    pub levels: PlayerLevels,
    pub equipment: JsonValue,
    pub food: Vec<JsonValue>,
    pub drinks: Vec<JsonValue>,
    pub abilities: Vec<JsonValue>,
    pub house_rooms: JsonValue,
    pub guild_buffs: JsonValue,
    pub achievements: JsonValue,
    pub debuff_on_level_gap: Number,
    /// Unknown fields, in key order.
    pub extensions: Vec<(String, JsonValue)>,
}

/// Why the basic engine refuses the player: the message of the first
/// failing check, or `None`.
pub open spec fn basic_player_failure(p: BasicPlayerDto) -> Option<Seq<char>> {
    if identity_failure(p.hrid, p.levels) is Some {
        identity_failure(p.hrid, p.levels)
    } else if !spec_empty_collection(spec_shape(p.equipment)) || p.food@.len() > 0
        || p.drinks@.len() > 0 || p.abilities@.len() > 0 || !spec_empty_collection(
        spec_shape(p.house_rooms),
    ) || !spec_empty_collection(spec_shape(p.guild_buffs)) || !spec_empty_collection(
        spec_shape(p.achievements),
    ) {
        Some(
            "M2 only supports players without equipment, abilities, consumables, rooms, guild buffs, or achievements"@,
        )
    } else if !float_bits::spec_is_zero(p.debuff_on_level_gap.bits) {
        Some("debuffOnLevelGap must be zero in M2"@)
    } else if p.extensions@.len() > 0 {
        Some("unsupported player fields: "@ + joined_names(p.extensions@))
    } else {
        None
    }
}

impl BasicPlayerDto {
    /// Accepts a player with a non-blank hrid, finite levels giving positive
    /// hit points and mana, and nothing else: no equipment, food, drinks,
    /// abilities, rooms, guild buffs, achievements, level-gap debuff or
    /// unknown fields. The first failing check decides the message.
    pub fn validate(&self) -> (r: Result<(), SimError>)
        ensures
            match basic_player_failure(*self) {
                Some(m) => r matches Err(e) && refusal(CombatScope::Basic, e, m),
                None => r is Ok,
            },
    {
        let scope = CombatScope::Basic;
        let c = check_identity(scope, &self.hrid, &self.levels);
        if c.is_err() {
            return c;
        }
        if !is_empty_json_collection(&self.equipment.shape()) || self.food.len() != 0
            || self.drinks.len() != 0 || self.abilities.len() != 0 || !is_empty_json_collection(
            &self.house_rooms.shape(),
        ) || !is_empty_json_collection(&self.guild_buffs.shape()) || !is_empty_json_collection(
            &self.achievements.shape(),
        ) {
            return Err(
                unsupported(
                    scope,
                    "M2 only supports players without equipment, abilities, consumables, rooms, guild buffs, or achievements".to_owned(),
                ),
            );
        }
        if float_bits::is_non_zero(self.debuff_on_level_gap.bits) {
            return Err(unsupported(scope, "debuffOnLevelGap must be zero in M2".to_owned()));
        }
        if self.extensions.len() != 0 {
            return Err(unknown_fields(scope, &self.extensions));
        }
        Ok(())
    }
}

/// An ability slot of a direct-damage player.
#[derive(Clone, Debug)]
pub struct DirectAbilityDto {
    pub hrid: String,
    pub level: u32,
    pub triggers: Vec<JsonValue>,
    /// Unknown fields, in key order.
    pub extensions: Vec<(String, JsonValue)>,
}

/// A player as the direct-damage engine reads it.
#[derive(Clone, Debug)]
pub struct DirectPlayerDto {
    pub hrid: String,
    pub levels: PlayerLevels,
    pub equipment: JsonValue,
    pub food: Vec<JsonValue>,
    pub drinks: Vec<JsonValue>,
    pub abilities: Vec<DirectAbilityDto>,
    pub house_rooms: JsonValue,
    pub guild_buffs: JsonValue,
    pub achievements: JsonValue,
    pub debuff_on_level_gap: Number,
    /// Unknown fields, in key order.
    pub extensions: Vec<(String, JsonValue)>,
}

/// Why the direct-damage engine refuses the player: the message of the
/// first failing check, or `None`.
pub open spec fn direct_player_failure(p: DirectPlayerDto) -> Option<Seq<char>> {
    if identity_failure(p.hrid, p.levels) is Some {
        identity_failure(p.hrid, p.levels)
    } else if !spec_empty_collection(spec_shape(p.equipment)) || p.food@.len() > 0
        || p.drinks@.len() > 0 || !spec_empty_collection(spec_shape(p.house_rooms))
        || !spec_empty_collection(spec_shape(p.guild_buffs)) || !spec_empty_collection(
        spec_shape(p.achievements),
    ) {
        Some(
            "M3D does not support equipment, consumables, rooms, guild buffs, or achievements"@,
        )
    } else if p.abilities@.len() != 1 {
        Some("M3D requires exactly one ability"@)
    } else if p.abilities@[0].hrid@ != AQUA_ARROW_HRID@ || p.abilities@[0].level != 1 {
        Some("M3D formally supports only level-1 /abilities/aqua_arrow"@)
    } else if p.abilities@[0].triggers@.len() > 0 || p.abilities@[0].extensions@.len() > 0 {
        Some(
            "M3D Aqua Arrow requires an empty custom Trigger list and no unknown ability fields"@,
        )
    } else if !float_bits::spec_is_zero(p.debuff_on_level_gap.bits) {
        Some("debuffOnLevelGap must be zero in M3D"@)
    } else if p.extensions@.len() > 0 {
        Some("unsupported player fields: "@ + joined_names(p.extensions@))
    } else {
        None
    }
}

impl DirectPlayerDto {
    /// Accepts a player with a non-blank hrid, finite levels giving positive
    /// hit points and mana, exactly one ability that is level-1 Aqua Arrow
    /// with no triggers or unknown fields, and nothing else. The first
    /// failing check decides the message.
    pub fn validate(&self) -> (r: Result<(), SimError>)
        ensures
            match direct_player_failure(*self) {
                Some(m) => r matches Err(e) && refusal(CombatScope::DirectDamage, e, m),
                None => r is Ok,
            },
    {
        let scope = CombatScope::DirectDamage;
        let c = check_identity(scope, &self.hrid, &self.levels);
        if c.is_err() {
            return c;
        }
        if !is_empty_json_collection(&self.equipment.shape()) || self.food.len() != 0
            || self.drinks.len() != 0 || !is_empty_json_collection(&self.house_rooms.shape())
            || !is_empty_json_collection(&self.guild_buffs.shape()) || !is_empty_json_collection(
            &self.achievements.shape(),
        ) {
            return Err(
                unsupported(
                    scope,
                    "M3D does not support equipment, consumables, rooms, guild buffs, or achievements".to_owned(),
                ),
            );
        }
        if self.abilities.len() != 1 {
            return Err(unsupported(scope, "M3D requires exactly one ability".to_owned()));
        }
        let ability = &self.abilities[0];
        if !text_eq(ability.hrid.as_str(), AQUA_ARROW_HRID) || ability.level != 1 {
            return Err(
                unsupported(
                    scope,
                    "M3D formally supports only level-1 /abilities/aqua_arrow".to_owned(),
                ),
            );
        }
        if ability.triggers.len() != 0 || ability.extensions.len() != 0 {
            return Err(
                unsupported(
                    scope,
                    "M3D Aqua Arrow requires an empty custom Trigger list and no unknown ability fields".to_owned(),
                ),
            );
        }
        if float_bits::is_non_zero(self.debuff_on_level_gap.bits) {
            return Err(unsupported(scope, "debuffOnLevelGap must be zero in M3D".to_owned()));
        }
        if self.extensions.len() != 0 {
            return Err(unknown_fields(scope, &self.extensions));
        }
        Ok(())
    }
}

} // verus!
