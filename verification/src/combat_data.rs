//! The versioned snapshot of ordinary combat zones and the monsters they
//! spawn, and its validation.
//!
//! Numbers are held as [`Number`]s (bit pattern and display text), and of a
//! monster's raw `combatStats` JSON the snapshot keeps what the simulator
//! reads: whether it is an object, its combat styles, its damage type and
//! its numeric fields.
use vstd::prelude::*;
use vstd::string::StringSliceAdditionalSpecFns;

use crate::error::SimError;
use crate::float_bits::{self, Number};
use crate::json::JsonValue;
use crate::sorting::{check_keys_ascending, keys_ascending, text_lt};
use crate::text::{compare_text, concat, decimal, decimal_text, is_blank, spec_is_blank, text_eq};
use crate::time::SimTime;

verus! {

/// The schema version this library reads.
pub const COMBAT_ZONE_DATA_SCHEMA_VERSION: u32 = 1;

/// The game data version the snapshot must come from.
pub const COMBAT_ZONE_DATA_VERSION: &'static str = "repository-v1.0.28";

/// A source file of the snapshot and its SHA-256.
#[derive(Clone, Debug, PartialEq, Eq)]
pub struct CombatDataSourceV1 {
    pub path: String,
    pub sha256: String,
}

/// The two source files the snapshot was built from.
#[derive(Clone, Debug, PartialEq, Eq)]
pub struct CombatDataSourcesV1 {
    pub actions: CombatDataSourceV1,
    pub monsters: CombatDataSourceV1,
}

/// The declared number of zones and monsters.
#[derive(Clone, Debug, PartialEq, Eq)]
pub struct CombatDataCountsV1 {
    pub zones: usize,
    pub monsters: usize,
}

/// A random spawn rule of a zone.
#[derive(Clone, Debug, PartialEq, Eq)]
pub struct CombatSpawnRuleV1 {
    pub combat_monster_hrid: String,
    pub difficulty_tier: u32,
    pub rate: Number,
    pub strength: Number,
}

/// A boss spawn of a zone.
#[derive(Clone, Debug, PartialEq, Eq)]
pub struct CombatBossSpawnV1 {
    pub combat_monster_hrid: String,
    pub difficulty_tier: u32,
}

/// How a zone spawns its ordinary monsters.
#[derive(Clone, Debug, PartialEq, Eq)]
pub struct CombatRandomSpawnInfoV1 {
    pub max_spawn_count: u32,
    pub max_total_strength: Number,
    pub spawns: Vec<CombatSpawnRuleV1>,
}

/// A combat zone. Buff definitions are kept as JSON.
#[derive(Clone, Debug)]
pub struct CombatZoneDataV1 {
    pub hrid: String,
    pub name: String,
    pub base_time_cost: Number,
    pub max_difficulty: u32,
    pub max_party_size: u32,
    pub buffs: Vec<JsonValue>,
    pub random_spawn_info: CombatRandomSpawnInfoV1,
    pub boss_spawns: Vec<CombatBossSpawnV1>,
}

/// A monster's base levels.
#[derive(Clone, Debug, PartialEq, Eq)]
pub struct CombatMonsterLevelsV1 {
    pub stamina_level: Number,
    pub intelligence_level: Number,
    pub attack_level: Number,
    pub melee_level: Number,
    pub defense_level: Number,
    pub ranged_level: Number,
    pub magic_level: Number,
}

/// A numeric field of a monster's combat stats.
#[derive(Clone, Debug, PartialEq, Eq)]
pub struct NamedNumber {
    pub name: String,
    pub value: Number,
}

/// What the simulator reads of a monster's `combatStats` JSON: whether it
/// is an object, the string entries of `combatStyleHrids`, its first entry
/// when that entry is a string, `damageType` when it is a string, and every
/// numeric field.
#[derive(Clone, Debug, PartialEq, Eq)]
pub struct MonsterCombatStatsV1 {
    pub is_object: bool,
    pub combat_style_hrids: Vec<String>,
    pub leading_style: Option<String>,
    pub damage_type: Option<String>,
    pub numbers: Vec<NamedNumber>,
}

/// A monster's active ability, by the lowest difficulty tier it is used
/// at (0 when the data gives none).
#[derive(Clone, Debug, PartialEq, Eq)]
pub struct MonsterAbilityV1 {
    pub min_difficulty_tier: u64,
}

/// A monster referenced by an ordinary zone.
#[derive(Clone, Debug, PartialEq, Eq)]
pub struct CombatMonsterDataV1 {
    pub hrid: String,
    pub name: String,
    pub levels: CombatMonsterLevelsV1,
    pub base_attack_interval: SimTime,
    pub combat_stats: MonsterCombatStatsV1,
    pub abilities: Vec<MonsterAbilityV1>,
    pub experience: Number,
    pub enrage_time: SimTime,
}

/// The snapshot. Zones and monsters are listed under their map keys, in key
/// order, each key once.
#[derive(Clone, Debug)]
pub struct CombatZoneDataSnapshotV1 {
    pub schema_version: u32,
    pub data_version: String,
    pub sources: CombatDataSourcesV1,
    pub counts: CombatDataCountsV1,
    pub zones: Vec<(String, CombatZoneDataV1)>,
    pub monsters: Vec<(String, CombatMonsterDataV1)>,
}

/// A lowercase hexadecimal digit.
pub open spec fn is_lower_hex_byte(b: u8) -> bool {
    (48 <= b <= 57) || (97 <= b <= 102)
}

/// Exactly 64 lowercase hexadecimal digits.
pub open spec fn is_sha256_text(bytes: Seq<u8>) -> bool {
    bytes.len() == 64 && forall|i: int| 0 <= i < bytes.len() ==> is_lower_hex_byte(#[trigger] bytes[i])
}

/// A hexadecimal digit as written in a lowercase digest: one of
/// `0123456789abcdef`.
pub open spec fn is_lower_hex_char(c: char) -> bool {
    ||| c == '0' || c == '1' || c == '2' || c == '3' || c == '4' || c == '5' || c == '6' || c == '7'
    ||| c == '8' || c == '9' || c == 'a' || c == 'b' || c == 'c' || c == 'd' || c == 'e' || c == 'f'
}

proof fn lemma_hex_char_code(c: char)
    ensures
        is_lower_hex_char(c) <==> ((48 <= c as u32 <= 57) || (97 <= c as u32 <= 102)),
{
    let u = c as u32;
    vstd::utf8::char_u32_cast(c, u);
}

proof fn lemma_hex_encoding(t: Seq<char>)
    ensures
        (forall|i: int| 0 <= i < t.len() ==> is_lower_hex_char(#[trigger] t[i])) ==> (
        vstd::utf8::encode_utf8(t).len() == t.len() && forall|j: int|
            0 <= j < t.len() ==> is_lower_hex_byte(#[trigger] vstd::utf8::encode_utf8(t)[j])),
        (forall|j: int|
            0 <= j < vstd::utf8::encode_utf8(t).len() ==> is_lower_hex_byte(
                #[trigger] vstd::utf8::encode_utf8(t)[j],
            )) ==> (vstd::utf8::encode_utf8(t).len() == t.len() && forall|i: int|
            0 <= i < t.len() ==> is_lower_hex_char(#[trigger] t[i])),
    decreases t.len(),
{
    if t.len() > 0 {
        let rest = t.drop_first();
        lemma_hex_encoding(rest);
        let v = t[0] as u32;
        vstd::utf8::char_is_scalar(t[0]);
        lemma_hex_char_code(t[0]);
        let first = vstd::utf8::encode_scalar(v);
        let enc = vstd::utf8::encode_utf8(t);
        assert(enc == first + vstd::utf8::encode_utf8(rest));
        if vstd::utf8::has_width_1_encoding(v) {
            assert(first.len() == 1);
            assert((v & 0x7F) as u8 == v) by (bit_vector)
                requires
                    v <= 0x7F,
            ;
            assert(enc[0] == v as u8);
            if forall|i: int| 0 <= i < t.len() ==> is_lower_hex_char(#[trigger] t[i]) {
                assert(is_lower_hex_char(t[0]));
                assert forall|i: int| 0 <= i < rest.len() implies is_lower_hex_char(#[trigger] rest[i]) by {
                    assert(rest[i] == t[i + 1]);
                }
                assert forall|j: int| 0 <= j < t.len() implies is_lower_hex_byte(#[trigger] enc[j]) by {
                    if j > 0 {
                        assert(enc[j] == vstd::utf8::encode_utf8(rest)[j - 1]);
                    }
                }
            }
            if forall|j: int| 0 <= j < enc.len() ==> is_lower_hex_byte(#[trigger] enc[j]) {
                assert(is_lower_hex_byte(enc[0]));
                assert forall|j: int|
                    0 <= j < vstd::utf8::encode_utf8(rest).len() implies is_lower_hex_byte(
                    #[trigger] vstd::utf8::encode_utf8(rest)[j],
                ) by {
                    assert(enc[j + 1] == vstd::utf8::encode_utf8(rest)[j]);
                }
                assert forall|i: int| 0 <= i < t.len() implies is_lower_hex_char(#[trigger] t[i]) by {
                    if i > 0 {
                        assert(t[i] == rest[i - 1]);
                    }
                }
            }
        } else {
            assert(first[0] >= 0xC0) by {
                if vstd::utf8::has_width_2_encoding(v) {
                    assert((0xC0u8 | ((v >> 6u32) & 0x1F) as u8) >= 0xC0) by (bit_vector);
                } else if vstd::utf8::has_width_3_encoding(v) {
                    assert((0xE0u8 | ((v >> 12u32) & 0x0F) as u8) >= 0xC0) by (bit_vector);
                } else {
                    assert((0xF0u8 | ((v >> 18u32) & 0x7) as u8) >= 0xC0) by (bit_vector);
                }
            }
            assert(enc[0] == first[0]);
            assert(!is_lower_hex_byte(enc[0]));
            assert(!is_lower_hex_char(t[0]));
        }
    }
}

/// A digest is accepted exactly when it is 64 characters long and each
/// character is a lowercase hexadecimal digit, one of `0123456789abcdef`.
pub proof fn law_sha256_digest_is_64_lowercase_hex_digits(t: Seq<char>)
    ensures
        is_sha256_text(vstd::utf8::encode_utf8(t)) <==> (t.len() == 64 && forall|i: int|
            0 <= i < t.len() ==> is_lower_hex_char(#[trigger] t[i])),
{
    lemma_hex_encoding(t);
}

/// A source entry with a non-blank path and a well-formed digest.
pub open spec fn source_valid(s: CombatDataSourceV1) -> bool {
    !spec_is_blank(s.path@) && is_sha256_text(vstd::utf8::encode_utf8(s.sha256@))
}

/// A spawn rule's own checks.
pub open spec fn spawn_valid(s: CombatSpawnRuleV1) -> bool {
    &&& !spec_is_blank(s.combat_monster_hrid@)
    &&& float_bits::spec_finite_positive(s.rate.bits)
    &&& float_bits::spec_finite_positive(s.strength.bits)
}

/// A zone's own checks.
pub open spec fn zone_valid(z: CombatZoneDataV1) -> bool {
    &&& !spec_is_blank(z.hrid@)
    &&& float_bits::spec_finite_non_negative(z.base_time_cost.bits)
    &&& z.max_party_size != 0
    &&& z.random_spawn_info.max_spawn_count != 0
    &&& float_bits::spec_finite_positive(z.random_spawn_info.max_total_strength.bits)
    &&& z.random_spawn_info.spawns@.len() > 0
    &&& forall|i: int|
        0 <= i < z.random_spawn_info.spawns@.len() ==> spawn_valid(
            #[trigger] z.random_spawn_info.spawns@[i],
        )
    &&& forall|i: int|
        0 <= i < z.boss_spawns@.len() ==> !spec_is_blank(
            (#[trigger] z.boss_spawns@[i]).combat_monster_hrid@,
        )
}

/// A monster's own checks.
pub open spec fn monster_valid(m: CombatMonsterDataV1) -> bool {
    &&& !spec_is_blank(m.hrid@)
    &&& float_bits::spec_is_finite(m.levels.stamina_level.bits)
    &&& float_bits::spec_is_finite(m.levels.intelligence_level.bits)
    &&& float_bits::spec_is_finite(m.levels.attack_level.bits)
    &&& float_bits::spec_is_finite(m.levels.melee_level.bits)
    &&& float_bits::spec_is_finite(m.levels.defense_level.bits)
    &&& float_bits::spec_is_finite(m.levels.ranged_level.bits)
    &&& float_bits::spec_is_finite(m.levels.magic_level.bits)
    &&& float_bits::spec_finite_non_negative(m.experience.bits)
    &&& m.combat_stats.is_object
}

/// `hrid` is spawned by zone `z`, at random or as a boss.
pub open spec fn zone_references(z: CombatZoneDataV1, hrid: Seq<char>) -> bool {
    ||| exists|i: int|
        0 <= i < z.random_spawn_info.spawns@.len()
            && (#[trigger] z.random_spawn_info.spawns@[i]).combat_monster_hrid@ == hrid
    ||| exists|i: int|
        0 <= i < z.boss_spawns@.len() && (#[trigger] z.boss_spawns@[i]).combat_monster_hrid@ == hrid
}

/// Some zone of the snapshot spawns `hrid`.
pub open spec fn snapshot_references(s: CombatZoneDataSnapshotV1, hrid: Seq<char>) -> bool {
    exists|i: int| 0 <= i < s.zones@.len() && zone_references((#[trigger] s.zones@[i]).1, hrid)
}

/// The snapshot lists a monster under key `hrid`.
pub open spec fn has_monster(s: CombatZoneDataSnapshotV1, hrid: Seq<char>) -> bool {
    exists|i: int| 0 <= i < s.monsters@.len() && (#[trigger] s.monsters@[i]).0@ == hrid
}

/// One of the first `n` zones spawns `hrid`.
pub open spec fn prefix_references(s: CombatZoneDataSnapshotV1, n: int, hrid: Seq<char>) -> bool {
    exists|j: int| 0 <= j < n && zone_references((#[trigger] s.zones@[j]).1, hrid)
}

/// `hrid` is one of `list`.
pub open spec fn text_listed(list: Seq<String>, hrid: Seq<char>) -> bool {
    exists|k: int| 0 <= k < list.len() && (#[trigger] list[k])@ == hrid
}

/// The value of the first entry listed under `key`.
pub open spec fn find_keyed<V>(entries: Seq<(String, V)>, key: Seq<char>) -> Option<V>
    decreases entries.len(),
{
    if entries.len() == 0 {
        None
    } else if entries[0].0@ == key {
        Some(entries[0].1)
    } else {
        find_keyed(entries.drop_first(), key)
    }
}

/// An entry is found exactly when some entry has the key.
pub proof fn lemma_find_keyed<V>(entries: Seq<(String, V)>, key: Seq<char>)
    ensures
        find_keyed(entries, key) is Some <==> exists|i: int|
            0 <= i < entries.len() && (#[trigger] entries[i]).0@ == key,
    decreases entries.len(),
{
    if entries.len() > 0 {
        lemma_find_keyed(entries.drop_first(), key);
        if entries[0].0@ != key {
            if exists|i: int| 0 <= i < entries.len() && (#[trigger] entries[i]).0@ == key {
                let i = choose|i: int| 0 <= i < entries.len() && (#[trigger] entries[i]).0@ == key;
                assert(entries.drop_first()[i - 1].0@ == key);
            }
            if exists|i: int| 0 <= i < entries.len() - 1 && (#[trigger] entries.drop_first()[i]).0@ == key {
                let i = choose|i: int| 0 <= i < entries.len() - 1 && (#[trigger] entries.drop_first()[i]).0@ == key;
                assert(entries[i + 1].0@ == key);
            }
        }
    }
}

/// Looks up the first entry listed under `key`.
pub fn find_entry<'a, V>(entries: &'a Vec<(String, V)>, key: &str) -> (r: Option<&'a V>)
    ensures
        match find_keyed(entries@, key@) {
            Some(v) => r == Some(&v),
            None => r is None,
        },
{
    let mut i: usize = 0;
    proof {
        assert(entries@.skip(0) =~= entries@);
    }
    while i < entries.len()
        invariant
            0 <= i <= entries@.len(),
            find_keyed(entries@, key@) == find_keyed(entries@.skip(i as int), key@),
        decreases entries@.len() - i,
    {
        proof {
            assert(entries@.skip(i as int).drop_first() =~= entries@.skip(i as int + 1));
        }
        if text_eq(entries[i].0.as_str(), key) {
            return Some(&entries[i].1);
        }
        i = i + 1;
    }
    proof {
        assert(entries@.skip(i as int) =~= Seq::<(String, V)>::empty());
    }
    None
}

/// The whole snapshot is valid.
pub open spec fn snapshot_valid(s: CombatZoneDataSnapshotV1) -> bool {
    &&& keys_ascending(s.zones@)
    &&& keys_ascending(s.monsters@)
    &&& s.schema_version == COMBAT_ZONE_DATA_SCHEMA_VERSION
    &&& s.data_version@ == COMBAT_ZONE_DATA_VERSION@
    &&& source_valid(s.sources.actions)
    &&& source_valid(s.sources.monsters)
    &&& s.zones@.len() > 0
    &&& s.monsters@.len() > 0
    &&& s.counts.zones == s.zones@.len()
    &&& s.counts.monsters == s.monsters@.len()
    &&& forall|i: int|
        0 <= i < s.zones@.len() ==> (#[trigger] s.zones@[i]).0@ == s.zones@[i].1.hrid@
            && zone_valid(s.zones@[i].1)
    &&& forall|i: int|
        0 <= i < s.monsters@.len() ==> (#[trigger] s.monsters@[i]).0@ == s.monsters@[i].1.hrid@
            && monster_valid(s.monsters@[i].1)
    &&& forall|h: Seq<char>| snapshot_references(s, h) ==> has_monster(s, h)
    &&& forall|i: int|
        0 <= i < s.monsters@.len() ==> snapshot_references(s, (#[trigger] s.monsters@[i]).0@)
}

/// The game-data error with message `message`.
pub fn invalid(message: String) -> (e: SimError)
    ensures
        e == SimError::InvalidGameData(message),
{
    SimError::InvalidGameData(message)
}

/// `e` is the game-data error with message `m`.
pub open spec fn data_error(e: SimError, m: Seq<char>) -> bool {
    e matches SimError::InvalidGameData(t) && t@ == m
}

/// Checks a source entry; messages name `location`.
pub fn validate_source(location: &str, source: &CombatDataSourceV1) -> (r: Result<(), SimError>)
    ensures
        r is Ok <==> source_valid(*source),
        spec_is_blank(source.path@) ==> (r matches Err(e) && data_error(
            e,
            location@ + ".path must not be empty"@,
        )),
        !spec_is_blank(source.path@) && !source_valid(*source) ==> (r matches Err(e) && data_error(
            e,
            location@ + ".sha256 must be 64 lowercase hexadecimal characters"@,
        )),
{
    if is_blank(source.path.as_str()) {
        return Err(invalid(concat(location, ".path must not be empty")));
    }
    if !is_sha256_digest(source.sha256.as_str()) {
        return Err(invalid(concat(location, ".sha256 must be 64 lowercase hexadecimal characters")));
    }
    Ok(())
}

/// Whether `text` is 64 lowercase hexadecimal digits.
pub fn is_sha256_digest(text: &str) -> (r: bool)
    ensures
        r == is_sha256_text(text.spec_bytes()),
{
    let bytes = text.as_bytes();
    if bytes.len() != 64 {
        return false;
    }
    let mut i: usize = 0;
    while i < bytes.len()
        invariant
            bytes@ == text.spec_bytes(),
            0 <= i <= bytes@.len(),
            forall|j: int| 0 <= j < i ==> is_lower_hex_byte(#[trigger] bytes@[j]),
        decreases bytes@.len() - i,
    {
        let b = bytes[i];
        if !((48 <= b && b <= 57) || (97 <= b && b <= 102)) {
            return false;
        }
        i = i + 1;
    }
    true
}

fn finite_non_negative(location: String, value: &Number) -> (r: Result<(), SimError>)
    ensures
        r is Ok <==> float_bits::spec_finite_non_negative(value.bits),
        r matches Err(e) ==> data_error(e, location@ + " must be finite and non-negative"@),
{
    if !float_bits::finite_non_negative(value.bits) {
        return Err(invalid(concat(location.as_str(), " must be finite and non-negative")));
    }
    Ok(())
}

fn finite_positive(location: String, value: &Number) -> (r: Result<(), SimError>)
    ensures
        r is Ok <==> float_bits::spec_finite_positive(value.bits),
        r matches Err(e) ==> data_error(e, location@ + " must be finite and positive"@),
{
    if !float_bits::finite_positive(value.bits) {
        return Err(invalid(concat(location.as_str(), " must be finite and positive")));
    }
    Ok(())
}

/// `"{zone}{what}[{index}].{field}"`: where in a zone a list entry's field
/// is.
pub open spec fn spec_indexed_location(zone: Seq<char>, what: Seq<char>, index: nat, field: Seq<char>) -> Seq<char> {
    zone + what + "["@ + decimal(index) + "]."@ + field
}

/// Why random spawn `i` of `z` is refused, or `None`.
pub open spec fn spawn_failure(z: CombatZoneDataV1, i: int) -> Option<Seq<char>> {
    let sp = z.random_spawn_info.spawns@[i];
    let at = |field: Seq<char>| spec_indexed_location(z.hrid@, ".randomSpawnInfo.spawns"@, i as nat, field);
    if spec_is_blank(sp.combat_monster_hrid@) {
        Some(at("combatMonsterHrid"@) + " is required"@)
    } else if !float_bits::spec_finite_positive(sp.rate.bits) {
        Some(at("rate"@) + " must be finite and positive"@)
    } else if !float_bits::spec_finite_positive(sp.strength.bits) {
        Some(at("strength"@) + " must be finite and positive"@)
    } else {
        None
    }
}

/// The failure of the first refused random spawn from position `k` on.
pub open spec fn first_spawn_failure(z: CombatZoneDataV1, k: int) -> Option<Seq<char>>
    decreases z.random_spawn_info.spawns@.len() - k,
{
    if k < 0 || k >= z.random_spawn_info.spawns@.len() {
        None
    } else if spawn_failure(z, k) is Some {
        spawn_failure(z, k)
    } else {
        first_spawn_failure(z, k + 1)
    }
}

/// The failure of the first boss spawn without a monster, from position
/// `k` on.
pub open spec fn first_boss_failure(z: CombatZoneDataV1, k: int) -> Option<Seq<char>>
    decreases z.boss_spawns@.len() - k,
{
    if k < 0 || k >= z.boss_spawns@.len() {
        None
    } else if spec_is_blank(z.boss_spawns@[k].combat_monster_hrid@) {
        Some(
            spec_indexed_location(z.hrid@, ".bossSpawns"@, k as nat, "combatMonsterHrid"@)
                + " is required"@,
        )
    } else {
        first_boss_failure(z, k + 1)
    }
}

/// Why a zone is refused: the message of its first failing check, or
/// `None`.
pub open spec fn zone_failure(z: CombatZoneDataV1) -> Option<Seq<char>> {
    let h = z.hrid@;
    let info = z.random_spawn_info;
    if spec_is_blank(h) {
        Some("Zone hrid must not be empty"@)
    } else if !float_bits::spec_finite_non_negative(z.base_time_cost.bits) {
        Some("zone.baseTimeCost"@ + " must be finite and non-negative"@)
    } else if z.max_party_size == 0 {
        Some(h + ".maxPartySize must be positive"@)
    } else if info.max_spawn_count == 0 {
        Some(h + ".randomSpawnInfo.maxSpawnCount must be positive"@)
    } else if !float_bits::spec_finite_positive(info.max_total_strength.bits) {
        Some(h + ".randomSpawnInfo.maxTotalStrength"@ + " must be finite and positive"@)
    } else if info.spawns@.len() == 0 {
        Some(h + ".randomSpawnInfo.spawns must not be empty"@)
    } else if first_spawn_failure(z, 0) is Some {
        first_spawn_failure(z, 0)
    } else {
        first_boss_failure(z, 0)
    }
}

/// `"{zone}{what}[{index}].{field}"`.
fn indexed_location(zone: &String, what: &str, index: usize, field: &str) -> (r: String)
    ensures
        r@ == spec_indexed_location(zone@, what@, index as nat, field@),
{
    let a = concat(zone.as_str(), what);
    let b = concat(a.as_str(), "[");
    let c = concat(b.as_str(), decimal_text(index as u64).as_str());
    let d = concat(c.as_str(), "].");
    concat(d.as_str(), field)
}

/// Checks one zone: a non-blank hrid, its numbers, its random spawns in
/// order and its boss spawns in order; the first failing check decides the
/// message.
#[verifier::loop_isolation(false)]
pub fn validate_zone(zone: &CombatZoneDataV1) -> (r: Result<(), SimError>)
    ensures
        r is Ok <==> zone_valid(*zone),
        match zone_failure(*zone) {
            Some(m) => r matches Err(e) && data_error(e, m),
            None => r is Ok,
        },
{
    if is_blank(zone.hrid.as_str()) {
        return Err(invalid("Zone hrid must not be empty".to_owned()));
    }
    let checked = finite_non_negative("zone.baseTimeCost".to_owned(), &zone.base_time_cost);
    if checked.is_err() {
        return checked;
    }
    if zone.max_party_size == 0 {
        return Err(invalid(concat(zone.hrid.as_str(), ".maxPartySize must be positive")));
    }
    let info = &zone.random_spawn_info;
    if info.max_spawn_count == 0 {
        return Err(
            invalid(concat(zone.hrid.as_str(), ".randomSpawnInfo.maxSpawnCount must be positive")),
        );
    }
    let checked = finite_positive(
        concat(zone.hrid.as_str(), ".randomSpawnInfo.maxTotalStrength"),
        &info.max_total_strength,
    );
    if checked.is_err() {
        return checked;
    }
    if info.spawns.len() == 0 {
        return Err(
            invalid(concat(zone.hrid.as_str(), ".randomSpawnInfo.spawns must not be empty")),
        );
    }
    let mut i: usize = 0;
    while i < info.spawns.len()
        invariant
            0 <= i <= info.spawns@.len(),
            forall|j: int| 0 <= j < i ==> spawn_valid(#[trigger] info.spawns@[j]),
            first_spawn_failure(*zone, 0) == first_spawn_failure(*zone, i as int),
        decreases info.spawns@.len() - i,
    {
        proof {
            reveal_with_fuel(first_spawn_failure, 2);
        }
        let spawn = &info.spawns[i];
        if is_blank(spawn.combat_monster_hrid.as_str()) {
            let at = indexed_location(&zone.hrid, ".randomSpawnInfo.spawns", i, "combatMonsterHrid");
            return Err(invalid(concat(at.as_str(), " is required")));
        }
        let checked = finite_positive(
            indexed_location(&zone.hrid, ".randomSpawnInfo.spawns", i, "rate"),
            &spawn.rate,
        );
        if checked.is_err() {
            return checked;
        }
        let checked = finite_positive(
            indexed_location(&zone.hrid, ".randomSpawnInfo.spawns", i, "strength"),
            &spawn.strength,
        );
        if checked.is_err() {
            return checked;
        }
        i = i + 1;
    }
    proof {
        assert(first_spawn_failure(*zone, info.spawns@.len() as int) is None);
    }
    let mut i: usize = 0;
    while i < zone.boss_spawns.len()
        invariant
            0 <= i <= zone.boss_spawns@.len(),
            forall|j: int|
                0 <= j < i ==> !spec_is_blank((#[trigger] zone.boss_spawns@[j]).combat_monster_hrid@),
            first_boss_failure(*zone, 0) == first_boss_failure(*zone, i as int),
        decreases zone.boss_spawns@.len() - i,
    {
        proof {
            reveal_with_fuel(first_boss_failure, 2);
        }
        if is_blank(zone.boss_spawns[i].combat_monster_hrid.as_str()) {
            let at = indexed_location(&zone.hrid, ".bossSpawns", i, "combatMonsterHrid");
            return Err(invalid(concat(at.as_str(), " is required")));
        }
        i = i + 1;
    }
    proof {
        assert(first_boss_failure(*zone, zone.boss_spawns@.len() as int) is None);
    }
    Ok(())
}

fn level_finite(hrid: &String, name: &str, value: &Number) -> (r: Result<(), SimError>)
    ensures
        r is Ok <==> float_bits::spec_is_finite(value.bits),
        r matches Err(e) ==> data_error(e, hrid@ + ".levels."@ + name@ + " must be finite"@),
{
    if !float_bits::is_finite(value.bits) {
        let a = concat(hrid.as_str(), ".levels.");
        let b = concat(a.as_str(), name);
        return Err(invalid(concat(b.as_str(), " must be finite")));
    }
    Ok(())
}

/// Why a monster is refused: the message of its first failing check, or
/// `None`.
pub open spec fn monster_failure(m: CombatMonsterDataV1) -> Option<Seq<char>> {
    let h = m.hrid@;
    let l = m.levels;
    if spec_is_blank(h) {
        Some("Monster hrid must not be empty"@)
    } else if !float_bits::spec_is_finite(l.stamina_level.bits) {
        Some(h + ".levels."@ + "staminaLevel"@ + " must be finite"@)
    } else if !float_bits::spec_is_finite(l.intelligence_level.bits) {
        Some(h + ".levels."@ + "intelligenceLevel"@ + " must be finite"@)
    } else if !float_bits::spec_is_finite(l.attack_level.bits) {
        Some(h + ".levels."@ + "attackLevel"@ + " must be finite"@)
    } else if !float_bits::spec_is_finite(l.melee_level.bits) {
        Some(h + ".levels."@ + "meleeLevel"@ + " must be finite"@)
    } else if !float_bits::spec_is_finite(l.defense_level.bits) {
        Some(h + ".levels."@ + "defenseLevel"@ + " must be finite"@)
    } else if !float_bits::spec_is_finite(l.ranged_level.bits) {
        Some(h + ".levels."@ + "rangedLevel"@ + " must be finite"@)
    } else if !float_bits::spec_is_finite(l.magic_level.bits) {
        Some(h + ".levels."@ + "magicLevel"@ + " must be finite"@)
    } else if !float_bits::spec_finite_non_negative(m.experience.bits) {
        Some(h + ".experience"@ + " must be finite and non-negative"@)
    } else if !m.combat_stats.is_object {
        Some(h + ".combatStats must be an object"@)
    } else {
        None
    }
}

/// Checks one monster: a non-blank hrid, finite levels, a finite
/// non-negative experience and object combat stats, in that order.
pub fn validate_monster(monster: &CombatMonsterDataV1) -> (r: Result<(), SimError>)
    ensures
        r is Ok <==> monster_valid(*monster),
        match monster_failure(*monster) {
            Some(m) => r matches Err(e) && data_error(e, m),
            None => r is Ok,
        },
{
    if is_blank(monster.hrid.as_str()) {
        return Err(invalid("Monster hrid must not be empty".to_owned()));
    }
    let l = &monster.levels;
    let c = level_finite(&monster.hrid, "staminaLevel", &l.stamina_level);
    if c.is_err() {
        return c;
    }
    let c = level_finite(&monster.hrid, "intelligenceLevel", &l.intelligence_level);
    if c.is_err() {
        return c;
    }
    let c = level_finite(&monster.hrid, "attackLevel", &l.attack_level);
    if c.is_err() {
        return c;
    }
    let c = level_finite(&monster.hrid, "meleeLevel", &l.melee_level);
    if c.is_err() {
        return c;
    }
    let c = level_finite(&monster.hrid, "defenseLevel", &l.defense_level);
    if c.is_err() {
        return c;
    }
    let c = level_finite(&monster.hrid, "rangedLevel", &l.ranged_level);
    if c.is_err() {
        return c;
    }
    let c = level_finite(&monster.hrid, "magicLevel", &l.magic_level);
    if c.is_err() {
        return c;
    }
    let c = finite_non_negative(concat(monster.hrid.as_str(), ".experience"), &monster.experience);
    if c.is_err() {
        return c;
    }
    if !monster.combat_stats.is_object {
        return Err(invalid(concat(monster.hrid.as_str(), ".combatStats must be an object")));
    }
    Ok(())
}

/// Whether `hrid` is one of `list`.
pub fn contains_text(list: &Vec<String>, hrid: &str) -> (r: bool)
    ensures
        r == exists|i: int| 0 <= i < list@.len() && (#[trigger] list@[i])@ == hrid@,
{
    let mut i: usize = 0;
    while i < list.len()
        invariant
            0 <= i <= list@.len(),
            forall|j: int| 0 <= j < i ==> (#[trigger] list@[j])@ != hrid@,
        decreases list@.len() - i,
    {
        if text_eq(list[i].as_str(), hrid) {
            return true;
        }
        i = i + 1;
    }
    false
}

/// The characters of each string.
pub open spec fn texts(v: Seq<String>) -> Seq<Seq<char>> {
    v.map_values(|x: String| x@)
}

/// The monsters `z` spawns: its random spawns, then its bosses, in data
/// order.
pub open spec fn zone_spawn_seq(z: CombatZoneDataV1) -> Seq<Seq<char>> {
    z.random_spawn_info.spawns@.map_values(|sp: CombatSpawnRuleV1| sp.combat_monster_hrid@)
        + z.boss_spawns@.map_values(|b: CombatBossSpawnV1| b.combat_monster_hrid@)
}

/// The monsters `zone` spawns, at random then as bosses, in data order.
pub fn zone_spawn_hrids(zone: &CombatZoneDataV1) -> (r: Vec<String>)
    ensures
        forall|h: Seq<char>|
            zone_references(*zone, h) <==> exists|i: int| 0 <= i < r@.len() && (#[trigger] r@[i])@ == h,
        texts(r@) == zone_spawn_seq(*zone),
{
    let mut out: Vec<String> = Vec::new();
    let spawns = &zone.random_spawn_info.spawns;
    let mut i: usize = 0;
    while i < spawns.len()
        invariant
            0 <= i <= spawns@.len(),
            out@.len() == i,
            forall|j: int| 0 <= j < i ==> (#[trigger] out@[j])@ == spawns@[j].combat_monster_hrid@,
        decreases spawns@.len() - i,
    {
        out.push(spawns[i].combat_monster_hrid.clone());
        i = i + 1;
    }
    let n = spawns.len();
    let mut i: usize = 0;
    while i < zone.boss_spawns.len()
        invariant
            0 <= i <= zone.boss_spawns@.len(),
            n == spawns@.len(),
            out@.len() == n + i,
            forall|j: int| 0 <= j < n ==> (#[trigger] out@[j])@ == spawns@[j].combat_monster_hrid@,
            forall|j: int|
                0 <= j < i ==> (#[trigger] out@[n + j])@ == zone.boss_spawns@[j].combat_monster_hrid@,
        decreases zone.boss_spawns@.len() - i,
    {
        out.push(zone.boss_spawns[i].combat_monster_hrid.clone());
        i = i + 1;
    }
    proof {
        let zs = zone_spawn_seq(*zone);
        assert(zs.len() == out@.len());
        assert forall|j: int| 0 <= j < out@.len() implies texts(out@)[j] == zs[j] by {
            if j < n {
                assert(zs[j] == spawns@[j].combat_monster_hrid@);
            } else {
                assert(out@[j] == out@[n + (j - n)]);
                assert(zs[j] == zone.boss_spawns@[j - n].combat_monster_hrid@);
            }
        }
        assert(texts(out@) =~= zs);
        assert forall|h: Seq<char>|
            zone_references(*zone, h) <==> exists|i: int|
                0 <= i < out@.len() && (#[trigger] out@[i])@ == h by {
            if zone_references(*zone, h) {
                if exists|i: int|
                    0 <= i < spawns@.len() && (#[trigger] spawns@[i]).combat_monster_hrid@ == h {
                    let i = choose|i: int|
                        0 <= i < spawns@.len() && (#[trigger] spawns@[i]).combat_monster_hrid@ == h;
                    assert(out@[i]@ == h);
                } else {
                    let i = choose|i: int|
                        0 <= i < zone.boss_spawns@.len()
                            && (#[trigger] zone.boss_spawns@[i]).combat_monster_hrid@ == h;
                    assert(out@[n + i]@ == h);
                }
            }
            if exists|i: int| 0 <= i < out@.len() && (#[trigger] out@[i])@ == h {
                let i = choose|i: int| 0 <= i < out@.len() && (#[trigger] out@[i])@ == h;
                if i < n {
                    assert(spawns@[i].combat_monster_hrid@ == h);
                } else {
                    assert(out@[i] == out@[n + (i - n)]);
                    assert(zone.boss_spawns@[i - n].combat_monster_hrid@ == h);
                }
            }
        }
    }
    out
}

/// Why a source entry at `location` is refused, or `None`.
pub open spec fn source_failure(location: Seq<char>, src: CombatDataSourceV1) -> Option<Seq<char>> {
    if spec_is_blank(src.path@) {
        Some(location + ".path must not be empty"@)
    } else if !source_valid(src) {
        Some(location + ".sha256 must be 64 lowercase hexadecimal characters"@)
    } else {
        None
    }
}

/// Why zone entry `k` is refused, or `None`.
pub open spec fn zone_entry_failure(s: CombatZoneDataSnapshotV1, k: int) -> Option<Seq<char>> {
    let key = s.zones@[k].0@;
    let z = s.zones@[k].1;
    if key != z.hrid@ {
        Some("Zone map key "@ + key + " does not match row hrid "@ + z.hrid@)
    } else {
        zone_failure(z)
    }
}

/// The failure of the first refused zone entry from position `k` on.
pub open spec fn first_zone_entry_failure(s: CombatZoneDataSnapshotV1, k: int) -> Option<Seq<char>>
    decreases s.zones@.len() - k,
{
    if k < 0 || k >= s.zones@.len() {
        None
    } else if zone_entry_failure(s, k) is Some {
        zone_entry_failure(s, k)
    } else {
        first_zone_entry_failure(s, k + 1)
    }
}

/// Why monster entry `k` is refused, or `None`.
pub open spec fn monster_entry_failure(s: CombatZoneDataSnapshotV1, k: int) -> Option<Seq<char>> {
    let key = s.monsters@[k].0@;
    let m = s.monsters@[k].1;
    if key != m.hrid@ {
        Some("Monster map key "@ + key + " does not match row hrid "@ + m.hrid@)
    } else {
        monster_failure(m)
    }
}

/// The failure of the first refused monster entry from position `k` on.
pub open spec fn first_monster_entry_failure(s: CombatZoneDataSnapshotV1, k: int) -> Option<Seq<char>>
    decreases s.monsters@.len() - k,
{
    if k < 0 || k >= s.monsters@.len() {
        None
    } else if monster_entry_failure(s, k) is Some {
        monster_entry_failure(s, k)
    } else {
        first_monster_entry_failure(s, k + 1)
    }
}

/// The monsters the first `n` zones spawn, zone by zone, in data order.
pub open spec fn spawn_sequence(s: CombatZoneDataSnapshotV1, n: int) -> Seq<Seq<char>>
    decreases n,
{
    if n <= 0 {
        Seq::empty()
    } else {
        spawn_sequence(s, n - 1) + zone_spawn_seq(s.zones@[n - 1].1)
    }
}

/// The least, in `String` order, of the first `k` entries of `seq` that
/// the snapshot lacks, or `None` when it has them all.
pub open spec fn least_absent(s: CombatZoneDataSnapshotV1, seq: Seq<Seq<char>>, k: int) -> Option<Seq<char>>
    decreases k,
{
    if k <= 0 || k > seq.len() {
        None
    } else {
        let prev = least_absent(s, seq, k - 1);
        let h = seq[k - 1];
        if has_monster(s, h) {
            prev
        } else {
            match prev {
                None => Some(h),
                Some(p) => if text_lt(h, p) {
                    Some(h)
                } else {
                    Some(p)
                },
            }
        }
    }
}

/// The keys, among the first `n` monsters, that no zone spawns.
pub open spec fn unreferenced(s: CombatZoneDataSnapshotV1, n: int) -> Seq<Seq<char>>
    decreases n,
{
    if n <= 0 {
        Seq::empty()
    } else if snapshot_references(s, s.monsters@[n - 1].0@) {
        unreferenced(s, n - 1)
    } else {
        unreferenced(s, n - 1).push(s.monsters@[n - 1].0@)
    }
}

/// `names` separated by `", "`.
pub open spec fn joined(names: Seq<Seq<char>>) -> Seq<char>
    decreases names.len(),
{
    if names.len() == 0 {
        Seq::empty()
    } else if names.len() == 1 {
        names[0]
    } else {
        joined(names.drop_last()) + ", "@ + names.last()
    }
}

/// Why the snapshot is refused: the message of its first failing check, or
/// `None`.
pub open spec fn snapshot_failure(s: CombatZoneDataSnapshotV1) -> Option<Seq<char>> {
    let nz = s.zones@.len();
    let nm = s.monsters@.len();
    if !keys_ascending(s.zones@) {
        Some("Combat Zone zones must be listed once each, in ascending key order"@)
    } else if !keys_ascending(s.monsters@) {
        Some("Combat Zone monsters must be listed once each, in ascending key order"@)
    } else if s.schema_version != COMBAT_ZONE_DATA_SCHEMA_VERSION {
        Some("unsupported Combat Zone data schema "@ + decimal(s.schema_version as nat) + "; expected 1"@)
    } else if s.data_version@ != COMBAT_ZONE_DATA_VERSION@ {
        Some(
            "unexpected Combat Zone data version "@ + s.data_version@ + "; expected "@
                + COMBAT_ZONE_DATA_VERSION@,
        )
    } else if source_failure("sources.actions"@, s.sources.actions) is Some {
        source_failure("sources.actions"@, s.sources.actions)
    } else if source_failure("sources.monsters"@, s.sources.monsters) is Some {
        source_failure("sources.monsters"@, s.sources.monsters)
    } else if nz == 0 || nm == 0 {
        Some("Combat Zone snapshot must contain zones and monsters"@)
    } else if s.counts.zones != nz || s.counts.monsters != nm {
        Some(
            "snapshot counts do not match maps: declared "@ + decimal(s.counts.zones as nat) + "/"@
                + decimal(s.counts.monsters as nat) + " but found "@ + decimal(nz) + "/"@ + decimal(nm),
        )
    } else if first_zone_entry_failure(s, 0) is Some {
        first_zone_entry_failure(s, 0)
    } else if first_monster_entry_failure(s, 0) is Some {
        first_monster_entry_failure(s, 0)
    } else if least_absent(s, spawn_sequence(s, nz as int), spawn_sequence(s, nz as int).len() as int) is Some {
        Some(
            "Combat Zone spawn references absent monster "@ + least_absent(
                s,
                spawn_sequence(s, nz as int),
                spawn_sequence(s, nz as int).len() as int,
            )->0,
        )
    } else if unreferenced(s, nm as int).len() > 0 {
        Some("snapshot contains unreferenced monsters: "@ + joined(unreferenced(s, nm as int)))
    } else {
        None
    }
}

impl CombatZoneDataSnapshotV1 {
    /// The zone listed under `hrid`.
    pub fn zone(&self, hrid: &str) -> (r: Option<&CombatZoneDataV1>)
        ensures
            match find_keyed(self.zones@, hrid@) {
                Some(z) => r == Some(&z),
                None => r is None,
            },
    {
        find_entry(&self.zones, hrid)
    }

    /// The monster listed under `hrid`.
    pub fn monster(&self, hrid: &str) -> (r: Option<&CombatMonsterDataV1>)
        ensures
            match find_keyed(self.monsters@, hrid@) {
                Some(m) => r == Some(&m),
                None => r is None,
            },
            r is Some <==> has_monster(*self, hrid@),
    {
        proof {
            lemma_find_keyed(self.monsters@, hrid@);
        }
        find_entry(&self.monsters, hrid)
    }

    /// The position in `referenced` of the least (in `String` order) name
    /// the snapshot has no monster for, if any.
    fn least_absent_entry(&self, referenced: &Vec<String>) -> (r: Option<usize>)
        ensures
            match r {
                Some(j) => j < referenced@.len() && least_absent(
                    *self,
                    texts(referenced@),
                    referenced@.len() as int,
                ) == Some(referenced@[j as int]@) && !has_monster(*self, referenced@[j as int]@),
                None => least_absent(*self, texts(referenced@), referenced@.len() as int) is None
                    && forall|j: int|
                    0 <= j < referenced@.len() ==> has_monster(*self, (#[trigger] referenced@[j])@),
            },
    {
        let ghost seq = texts(referenced@);
        let mut least: Option<usize> = None;
        let mut k: usize = 0;
        while k < referenced.len()
            invariant
                0 <= k <= referenced@.len(),
                seq == texts(referenced@),
                match least {
                    Some(j) => j < referenced@.len() && least_absent(*self, seq, k as int) == Some(
                        referenced@[j as int]@,
                    ) && !has_monster(*self, referenced@[j as int]@),
                    None => least_absent(*self, seq, k as int) is None && forall|j: int|
                        0 <= j < k ==> has_monster(*self, (#[trigger] referenced@[j])@),
                },
            decreases referenced@.len() - k,
        {
            proof {
                assert(seq[k as int] == referenced@[k as int]@);
            }
            if self.monster(referenced[k].as_str()).is_none() {
                least = match least {
                    None => Some(k),
                    Some(j) => if compare_text(referenced[k].as_str(), referenced[j].as_str()) < 0 {
                        Some(k)
                    } else {
                        Some(j)
                    },
                };
            }
            k = k + 1;
        }
        least
    }

    /// Validates the snapshot: that zones and monsters are each listed once,
    /// in ascending key order (as a map keyed by id holds them), schema
    /// and data version, both sources, that
    /// there are zones and monsters and the declared counts match, that
    /// each entry's key is its row's id and the row passes its own checks,
    /// that every spawned monster is present, and that every monster is
    /// spawned by some zone.
    /// The first failing check decides the message.
    #[verifier::loop_isolation(false)]
    #[verifier::spinoff_prover]
    #[verifier::rlimit(40)]
    pub fn validate(&self) -> (r: Result<(), SimError>)
        ensures
            r is Ok <==> snapshot_valid(*self),
            match snapshot_failure(*self) {
                Some(m) => r matches Err(e) && data_error(e, m),
                None => r is Ok,
            },
    {
        if !check_keys_ascending(&self.zones) {
            return Err(invalid("Combat Zone zones must be listed once each, in ascending key order".to_owned()));
        }
        if !check_keys_ascending(&self.monsters) {
            return Err(invalid("Combat Zone monsters must be listed once each, in ascending key order".to_owned()));
        }
        if self.schema_version != COMBAT_ZONE_DATA_SCHEMA_VERSION {
            let a = concat("unsupported Combat Zone data schema ", decimal_text(self.schema_version as u64).as_str());
            return Err(invalid(concat(a.as_str(), "; expected 1")));
        }
        if !text_eq(self.data_version.as_str(), COMBAT_ZONE_DATA_VERSION) {
            let a = concat("unexpected Combat Zone data version ", self.data_version.as_str());
            let b = concat(a.as_str(), "; expected ");
            return Err(invalid(concat(b.as_str(), COMBAT_ZONE_DATA_VERSION)));
        }
        let c = validate_source("sources.actions", &self.sources.actions);
        if c.is_err() {
            return c;
        }
        let c = validate_source("sources.monsters", &self.sources.monsters);
        if c.is_err() {
            return c;
        }
        if self.zones.len() == 0 || self.monsters.len() == 0 {
            return Err(invalid("Combat Zone snapshot must contain zones and monsters".to_owned()));
        }
        if self.counts.zones != self.zones.len() || self.counts.monsters != self.monsters.len() {
            let a = concat("snapshot counts do not match maps: declared ", decimal_text(self.counts.zones as u64).as_str());
            let b = concat(a.as_str(), "/");
            let c = concat(b.as_str(), decimal_text(self.counts.monsters as u64).as_str());
            let d = concat(c.as_str(), " but found ");
            let e = concat(d.as_str(), decimal_text(self.zones.len() as u64).as_str());
            let f = concat(e.as_str(), "/");
            return Err(invalid(concat(f.as_str(), decimal_text(self.monsters.len() as u64).as_str())));
        }
        let mut referenced: Vec<String> = Vec::new();
        let mut i: usize = 0;
        while i < self.zones.len()
            invariant
                0 <= i <= self.zones@.len(),
                forall|j: int|
                    0 <= j < i ==> (#[trigger] self.zones@[j]).0@ == self.zones@[j].1.hrid@
                        && zone_valid(self.zones@[j].1),
                forall|h: Seq<char>|
                    #[trigger] prefix_references(*self, i as int, h) <==> #[trigger] text_listed(referenced@, h),
                first_zone_entry_failure(*self, 0) == first_zone_entry_failure(*self, i as int),
                texts(referenced@) == spawn_sequence(*self, i as int),
            decreases self.zones@.len() - i,
        {
            proof {
                reveal_with_fuel(first_zone_entry_failure, 2);
            }
            let key = &self.zones[i].0;
            let zone = &self.zones[i].1;
            if !text_eq(key.as_str(), zone.hrid.as_str()) {
                let a = concat("Zone map key ", key.as_str());
                let b = concat(a.as_str(), " does not match row hrid ");
                return Err(invalid(concat(b.as_str(), zone.hrid.as_str())));
            }
            let c = validate_zone(zone);
            if c.is_err() {
                return c;
            }
            let ghost before = referenced@;
            let mut spawned = zone_spawn_hrids(zone);
            let ghost spawned_view = spawned@;
            referenced.append(&mut spawned);
            proof {
                assert(texts(referenced@) =~= texts(before) + texts(spawned_view));
                assert(spawn_sequence(*self, i + 1) == spawn_sequence(*self, i as int) + zone_spawn_seq(
                    self.zones@[i as int].1,
                ));
                assert forall|h: Seq<char>|
                    #[trigger] prefix_references(*self, i + 1, h) <==> #[trigger] text_listed(referenced@, h) by {
                    if prefix_references(*self, i + 1, h) {
                        let j = choose|j: int| 0 <= j < i + 1 && zone_references((#[trigger] self.zones@[j]).1, h);
                        if j < i {
                            assert(prefix_references(*self, i as int, h));
                            assert(text_listed(before, h));
                            let k = choose|k: int| 0 <= k < before.len() && (#[trigger] before[k])@ == h;
                            assert(referenced@[k]@ == h);
                        } else {
                            assert(zone_references(*zone, h));
                            let k = choose|k: int| 0 <= k < spawned_view.len() && (#[trigger] spawned_view[k])@ == h;
                            assert(referenced@[before.len() + k]@ == h);
                        }
                    }
                    if text_listed(referenced@, h) {
                        let k = choose|k: int| 0 <= k < referenced@.len() && (#[trigger] referenced@[k])@ == h;
                        if k < before.len() {
                            assert(before[k]@ == h);
                            assert(text_listed(before, h));
                            assert(prefix_references(*self, i as int, h));
                            let j = choose|j: int| 0 <= j < i && zone_references((#[trigger] self.zones@[j]).1, h);
                            assert(zone_references(self.zones@[j].1, h));
                        } else {
                            assert(spawned_view[k - before.len()]@ == h);
                            assert(zone_references(self.zones@[i as int].1, h));
                        }
                    }
                }
            }
            i = i + 1;
        }
        assert(forall|h: Seq<char>|
            #[trigger] prefix_references(*self, self.zones@.len() as int, h) <==> #[trigger] text_listed(referenced@, h));
        let mut i: usize = 0;
        while i < self.monsters.len()
            invariant
                0 <= i <= self.monsters@.len(),
                forall|j: int|
                    0 <= j < i ==> (#[trigger] self.monsters@[j]).0@ == self.monsters@[j].1.hrid@
                        && monster_valid(self.monsters@[j].1),
                first_monster_entry_failure(*self, 0) == first_monster_entry_failure(*self, i as int),
                first_zone_entry_failure(*self, 0) is None,
            decreases self.monsters@.len() - i,
        {
            proof {
                reveal_with_fuel(first_monster_entry_failure, 2);
            }
            let key = &self.monsters[i].0;
            let monster = &self.monsters[i].1;
            if !text_eq(key.as_str(), monster.hrid.as_str()) {
                let a = concat("Monster map key ", key.as_str());
                let b = concat(a.as_str(), " does not match row hrid ");
                return Err(invalid(concat(b.as_str(), monster.hrid.as_str())));
            }
            let c = validate_monster(monster);
            if c.is_err() {
                return c;
            }
            i = i + 1;
        }
        proof {
            assert(first_zone_entry_failure(*self, self.zones@.len() as int) is None);
            assert(first_monster_entry_failure(*self, self.monsters@.len() as int) is None);
        }
        let ghost seq = spawn_sequence(*self, self.zones@.len() as int);
        let least = self.least_absent_entry(&referenced);
        if let Some(j) = least {
            proof {
                let h = referenced@[j as int]@;
                assert(text_listed(referenced@, h));
                assert(prefix_references(*self, self.zones@.len() as int, h));
                let z = choose|z: int|
                    0 <= z < self.zones@.len() && zone_references((#[trigger] self.zones@[z]).1, h);
                assert(snapshot_references(*self, h));
            }
            let a = concat("Combat Zone spawn references absent monster ", referenced[j].as_str());
            return Err(invalid(a));
        }
        let mut unreferenced_text: String = String::new();
        let mut any_unreferenced = false;
        let mut i: usize = 0;
        while i < self.monsters.len()
            invariant
                0 <= i <= self.monsters@.len(),
                !any_unreferenced ==> forall|j: int|
                    0 <= j < i ==> snapshot_references(*self, (#[trigger] self.monsters@[j]).0@),
                any_unreferenced ==> exists|j: int|
                    0 <= j < self.monsters@.len() && !snapshot_references(*self, (#[trigger] self.monsters@[j]).0@),
                any_unreferenced == (unreferenced(*self, i as int).len() > 0),
                unreferenced_text@ == joined(unreferenced(*self, i as int)),
            decreases self.monsters@.len() - i,
        {
            let key = &self.monsters[i].0;
            let listed = contains_text(&referenced, key.as_str());
            proof {
                assert(listed == text_listed(referenced@, key@));
                assert(prefix_references(*self, self.zones@.len() as int, key@) == snapshot_references(*self, key@));
            }
            let ghost prev = unreferenced(*self, i as int);
            if !listed {
                if any_unreferenced {
                    unreferenced_text = concat(unreferenced_text.as_str(), ", ");
                }
                unreferenced_text = concat(unreferenced_text.as_str(), key.as_str());
                any_unreferenced = true;
                proof {
                    let next = unreferenced(*self, i + 1);
                    assert(next == prev.push(key@));
                    assert(next.drop_last() =~= prev);
                    if prev.len() == 0 {
                        assert(next =~= seq![key@]);
                    }
                }
            }
            i = i + 1;
        }
        if any_unreferenced {
            return Err(invalid(concat("snapshot contains unreferenced monsters: ", unreferenced_text.as_str())));
        }
        proof {
            assert forall|h: Seq<char>| snapshot_references(*self, h) implies has_monster(*self, h) by {
                assert(prefix_references(*self, self.zones@.len() as int, h));
                assert(text_listed(referenced@, h));
                let k = choose|k: int| 0 <= k < referenced@.len() && (#[trigger] referenced@[k])@ == h;
                assert(has_monster(*self, referenced@[k]@));
            }
        }
        Ok(())
    }
}

} // verus!
