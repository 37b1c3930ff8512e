//! Classification of combat zones into candidates for the single-enemy
//! auto-attack engine and rejections with structured reasons.
use vstd::prelude::*;

use crate::combat_data::{
    find_keyed, snapshot_valid, text_listed, zone_references, zone_spawn_hrids,
    CombatMonsterDataV1, CombatZoneDataSnapshotV1, CombatZoneDataV1, NamedNumber,
};
use crate::error::SimError;
use crate::float_bits::{self, Number};
use crate::sorting::{
    keys_ascending, lemma_opt_text_lt_order, lemma_text_lt_order, opt_text_lt, sort_dedup, strictly_sorted, text_lt,
    view_set, Ranked,
};
use crate::text::{compare_text, concat, decimal, decimal_text, text_eq};

verus! {

/// The version of the report layout.
pub const AUTO_ATTACK_CAPABILITY_REPORT_VERSION: u32 = 1;

/// A reason why a zone is rejected: a reason code, the monster it concerns
/// (if any) and a readable detail.
#[derive(Clone, Debug, PartialEq, Eq)]
pub struct AutoAttackCapabilityIssueV1 {
    pub code: String,
    pub subject: Option<String>,
    pub detail: String,
}

/// The view of an optional string.
pub open spec fn opt_view(s: Option<String>) -> Option<Seq<char>> {
    match s {
        Some(x) => Some(x@),
        None => None,
    }
}

impl View for AutoAttackCapabilityIssueV1 {
    type V = (Seq<char>, Option<Seq<char>>, Seq<char>);

    open spec fn view(&self) -> (Seq<char>, Option<Seq<char>>, Seq<char>) {
        (self.code@, opt_view(self.subject), self.detail@)
    }
}

/// Issue order: by code, then subject (none first), then detail.
pub open spec fn issue_before(
    a: (Seq<char>, Option<Seq<char>>, Seq<char>),
    b: (Seq<char>, Option<Seq<char>>, Seq<char>),
) -> bool {
    text_lt(a.0, b.0) || (a.0 == b.0 && (opt_text_lt(a.1, b.1) || (a.1 == b.1 && text_lt(
        a.2,
        b.2,
    ))))
}

impl Ranked for AutoAttackCapabilityIssueV1 {
    open spec fn before(
        a: (Seq<char>, Option<Seq<char>>, Seq<char>),
        b: (Seq<char>, Option<Seq<char>>, Seq<char>),
    ) -> bool {
        issue_before(a, b)
    }

    proof fn lemma_order(
        a: (Seq<char>, Option<Seq<char>>, Seq<char>),
        b: (Seq<char>, Option<Seq<char>>, Seq<char>),
        c: (Seq<char>, Option<Seq<char>>, Seq<char>),
    ) {
        lemma_text_lt_order(a.0, b.0, c.0);
        lemma_opt_text_lt_order(a.1, b.1, c.1);
        lemma_text_lt_order(a.2, b.2, c.2);
        lemma_text_lt_order(a.0, c.0, b.0);
        lemma_text_lt_order(b.0, a.0, c.0);
        lemma_opt_text_lt_order(a.1, c.1, b.1);
        lemma_opt_text_lt_order(b.1, a.1, c.1);
        lemma_text_lt_order(a.2, c.2, b.2);
        lemma_text_lt_order(b.2, a.2, c.2);
    }

    fn rank(&self, other: &Self) -> (r: i8) {
        let c = compare_text(self.code.as_str(), other.code.as_str());
        proof {
            lemma_text_lt_order(self.code@, other.code@, other.code@);
            lemma_text_lt_order(other.code@, self.code@, self.code@);
        }
        if c != 0 {
            return c;
        }
        let s = match (&self.subject, &other.subject) {
            (None, None) => 0i8,
            (None, Some(_)) => -1i8,
            (Some(_), None) => 1i8,
            (Some(x), Some(y)) => {
                proof {
                    lemma_text_lt_order(x@, y@, y@);
                    lemma_text_lt_order(y@, x@, x@);
                }
                compare_text(x.as_str(), y.as_str())
            },
        };
        if s != 0 {
            return s;
        }
        proof {
            lemma_text_lt_order(self.detail@, other.detail@, other.detail@);
            lemma_text_lt_order(other.detail@, self.detail@, self.detail@);
        }
        compare_text(self.detail.as_str(), other.detail.as_str())
    }
}

/// A zone the auto-attack engine could simulate.
#[derive(Clone, Debug, PartialEq, Eq)]
pub struct AutoAttackZoneCandidateV1 {
    pub zone_hrid: String,
    pub monster_hrids: Vec<String>,
    pub has_boss_spawn: bool,
}

/// A zone that is rejected, with its reasons in order, each once.
#[derive(Clone, Debug, PartialEq, Eq)]
pub struct AutoAttackZoneRejectionV1 {
    pub zone_hrid: String,
    pub issues: Vec<AutoAttackCapabilityIssueV1>,
}

/// Totals of a report.
#[derive(Clone, Debug, PartialEq, Eq)]
pub struct AutoAttackCapabilityCountsV1 {
    pub total_zones: usize,
    pub candidates: usize,
    pub rejected: usize,
}

/// The classification of every zone of a snapshot. Candidates and
/// rejections are listed in zone order; `reason_counts` gives, for each
/// reason code, how many issues of all rejections carry it, each code once.
#[derive(Clone, Debug, PartialEq, Eq)]
pub struct AutoAttackCapabilityReportV1 {
    pub report_version: u32,
    pub data_version: String,
    pub counts: AutoAttackCapabilityCountsV1,
    pub reason_counts: Vec<(String, usize)>,
    pub candidates: Vec<AutoAttackZoneCandidateV1>,
    pub rejected: Vec<AutoAttackZoneRejectionV1>,
}

impl Ranked for String {
    open spec fn before(a: Seq<char>, b: Seq<char>) -> bool {
        text_lt(a, b)
    }

    proof fn lemma_order(a: Seq<char>, b: Seq<char>, c: Seq<char>) {
        lemma_text_lt_order(a, b, c);
    }

    fn rank(&self, other: &Self) -> (r: i8) {
        proof {
            lemma_text_lt_order(self@, other@, other@);
            lemma_text_lt_order(other@, self@, self@);
        }
        compare_text(self.as_str(), other.as_str())
    }
}

/// A combat style the engine's damage formula supports.
pub open spec fn supported_style(s: Seq<char>) -> bool {
    s == "/combat_styles/stab"@ || s == "/combat_styles/slash"@ || s == "/combat_styles/smash"@
        || s == "/combat_styles/ranged"@ || s == "/combat_styles/magic"@
}

/// A damage type the engine's damage formula supports.
pub open spec fn supported_damage_type(s: Seq<char>) -> bool {
    s == "/damage_types/physical"@ || s == "/damage_types/water"@ || s == "/damage_types/nature"@
        || s == "/damage_types/fire"@
}

/// Whether `s` is a supported combat style.
pub fn is_supported_style(s: &str) -> (r: bool)
    ensures
        r == supported_style(s@),
{
    text_eq(s, "/combat_styles/stab") || text_eq(s, "/combat_styles/slash") || text_eq(
        s,
        "/combat_styles/smash",
    ) || text_eq(s, "/combat_styles/ranged") || text_eq(s, "/combat_styles/magic")
}

/// Whether `s` is a supported damage type.
pub fn is_supported_damage_type(s: &str) -> (r: bool)
    ensures
        r == supported_damage_type(s@),
{
    text_eq(s, "/damage_types/physical") || text_eq(s, "/damage_types/water") || text_eq(
        s,
        "/damage_types/nature",
    ) || text_eq(s, "/damage_types/fire")
}

/// The number of passive stats the engine does not implement.
pub const PASSIVE_STAT_COUNT: usize = 14;

/// The passive stat names the engine does not implement, by position.
pub open spec fn passive_stat(k: int) -> Seq<char> {
    if k == 0 {
        "physicalThorns"@
    } else if k == 1 {
        "elementalThorns"@
    } else if k == 2 {
        "lifeSteal"@
    } else if k == 3 {
        "manaLeech"@
    } else if k == 4 {
        "parry"@
    } else if k == 5 {
        "mayhem"@
    } else if k == 6 {
        "pierce"@
    } else if k == 7 {
        "curse"@
    } else if k == 8 {
        "fury"@
    } else if k == 9 {
        "weaken"@
    } else if k == 10 {
        "ripple"@
    } else if k == 11 {
        "bloom"@
    } else if k == 12 {
        "blaze"@
    } else {
        "retaliation"@
    }
}

fn passive_stat_name(k: usize) -> (r: &'static str)
    requires
        k < PASSIVE_STAT_COUNT,
    ensures
        r@ == passive_stat(k as int),
{
    if k == 0 {
        "physicalThorns"
    } else if k == 1 {
        "elementalThorns"
    } else if k == 2 {
        "lifeSteal"
    } else if k == 3 {
        "manaLeech"
    } else if k == 4 {
        "parry"
    } else if k == 5 {
        "mayhem"
    } else if k == 6 {
        "pierce"
    } else if k == 7 {
        "curse"
    } else if k == 8 {
        "fury"
    } else if k == 9 {
        "weaken"
    } else if k == 10 {
        "ripple"
    } else if k == 11 {
        "bloom"
    } else if k == 12 {
        "blaze"
    } else {
        "retaliation"
    }
}

/// The first numeric combat stat named `name`.
pub open spec fn find_stat(numbers: Seq<NamedNumber>, name: Seq<char>) -> Option<Number>
    decreases numbers.len(),
{
    if numbers.len() == 0 {
        None
    } else if numbers[0].name@ == name {
        Some(numbers[0].value)
    } else {
        find_stat(numbers.drop_first(), name)
    }
}

/// The bit pattern of a combat stat, `0.0` when absent.
pub open spec fn stat_bits(m: CombatMonsterDataV1, name: Seq<char>) -> u64 {
    match find_stat(m.combat_stats.numbers@, name) {
        Some(n) => n.bits,
        None => 0,
    }
}

/// The display text of a combat stat, `"0"` when absent.
pub open spec fn stat_text(m: CombatMonsterDataV1, name: Seq<char>) -> Seq<char> {
    match find_stat(m.combat_stats.numbers@, name) {
        Some(n) => n.text@,
        None => "0"@,
    }
}

/// Looks up a numeric combat stat.
pub fn lookup_stat<'a>(numbers: &'a Vec<NamedNumber>, name: &str) -> (r: Option<&'a Number>)
    ensures
        match find_stat(numbers@, name@) {
            Some(n) => r == Some(&n),
            None => r is None,
        },
{
    let mut i: usize = 0;
    proof {
        assert(numbers@.skip(0) =~= numbers@);
    }
    while i < numbers.len()
        invariant
            0 <= i <= numbers@.len(),
            find_stat(numbers@, name@) == find_stat(numbers@.skip(i as int), name@),
        decreases numbers@.len() - i,
    {
        proof {
            assert(numbers@.skip(i as int).drop_first() =~= numbers@.skip(i as int + 1));
        }
        if text_eq(numbers[i].name.as_str(), name) {
            return Some(&numbers[i].value);
        }
        i = i + 1;
    }
    proof {
        assert(numbers@.skip(i as int) =~= Seq::<NamedNumber>::empty());
    }
    None
}

/// The number of abilities used from difficulty tier 0.
pub open spec fn tier_zero_count(abilities: Seq<crate::combat_data::MonsterAbilityV1>) -> nat
    decreases abilities.len(),
{
    if abilities.len() == 0 {
        0
    } else {
        tier_zero_count(abilities.drop_last()) + if abilities.last().min_difficulty_tier == 0 {
            1nat
        } else {
            0nat
        }
    }
}

/// An issue view with a subject.
pub open spec fn issue(code: Seq<char>, subject: Seq<char>, detail: Seq<char>) -> (
    Seq<char>,
    Option<Seq<char>>,
    Seq<char>,
) {
    (code, Some(subject), detail)
}

/// The damage type a monster's stats name, or the empty string.
pub open spec fn damage_type_of(m: CombatMonsterDataV1) -> Seq<char> {
    match m.combat_stats.damage_type {
        Some(d) => d@,
        None => Seq::empty(),
    }
}

/// `v` is one of the issues a monster raises.
pub open spec fn monster_issue(
    m: CombatMonsterDataV1,
    v: (Seq<char>, Option<Seq<char>>, Seq<char>),
) -> bool {
    let h = m.hrid@;
    let styles = m.combat_stats.combat_style_hrids@;
    let n = tier_zero_count(m.abilities@);
    ||| n > 0 && v == issue(
        "monster_active_abilities"@,
        h,
        "Monster has "@ + decimal(n) + " tier-0 active abilities"@,
    )
    ||| styles.len() != 1 && v == issue(
        "combat_style_count"@,
        h,
        "Monster has "@ + decimal(styles.len()) + " combat styles; exactly one is required"@,
    )
    ||| styles.len() == 1 && !supported_style(styles[0]@) && v == issue(
        "unsupported_combat_style"@,
        h,
        "Unsupported combat style "@ + styles[0]@,
    )
    ||| !supported_damage_type(damage_type_of(m)) && v == issue(
        "unsupported_damage_type"@,
        h,
        "Unsupported damage type "@ + damage_type_of(m),
    )
    ||| float_bits::spec_le_zero(stat_bits(m, "attackInterval"@)) && m.base_attack_interval@ == 0
        && v == issue(
        "invalid_attack_interval"@,
        h,
        "Neither combatStats.attackInterval nor baseAttackInterval is positive"@,
    )
    ||| exists|k: int|
        0 <= k < PASSIVE_STAT_COUNT && !float_bits::spec_is_zero(
            stat_bits(m, #[trigger] passive_stat(k)),
        ) && v == issue(
            "unsupported_passive"@,
            h,
            passive_stat(k) + " is non-zero ("@ + stat_text(m, passive_stat(k)) + ")"@,
        )
}

/// `issues` plus `issue(code, subject, detail)` pushed at the end.
fn push_issue(
    issues: &mut Vec<AutoAttackCapabilityIssueV1>,
    code: &str,
    subject: Option<String>,
    detail: String,
)
    ensures
        final(issues)@ == old(issues)@.push(
            AutoAttackCapabilityIssueV1 { code: final(issues)@.last().code, subject, detail },
        ),
        final(issues)@.last().code@ == code@,
{
    issues.push(AutoAttackCapabilityIssueV1 { code: code.to_owned(), subject, detail });
}

proof fn lemma_view_set_push<T: View>(s: Seq<T>, x: T)
    ensures
        view_set(s.push(x)) == view_set(s).insert(x@),
{
    let t = s.push(x);
    assert forall|v: T::V| view_set(t).contains(v) <==> view_set(s).insert(x@).contains(v) by {
        if view_set(t).contains(v) {
            let i = choose|i: int| 0 <= i < t.len() && #[trigger] t[i]@ == v;
            if i < s.len() {
                assert(s[i]@ == v);
            }
        }
        if view_set(s).contains(v) {
            let i = choose|i: int| 0 <= i < s.len() && #[trigger] s[i]@ == v;
            assert(t[i]@ == v);
        }
        if v == x@ {
            assert(t[s.len() as int]@ == v);
        }
    }
    assert(view_set(t) =~= view_set(s).insert(x@));
}

/// Adds the issues of `monster` to `issues`.
pub fn classify_monster(monster: &CombatMonsterDataV1, issues: &mut Vec<AutoAttackCapabilityIssueV1>)
    ensures
        view_set(final(issues)@) == view_set(old(issues)@).union(
            Set::new(|v: (Seq<char>, Option<Seq<char>>, Seq<char>)| monster_issue(*monster, v)),
        ),
{
    let ghost start = view_set(issues@);
    let ghost h = monster.hrid@;
    let mut count: u64 = 0;
    let mut i: usize = 0;
    while i < monster.abilities.len()
        invariant
            0 <= i <= monster.abilities@.len(),
            count == tier_zero_count(monster.abilities@.subrange(0, i as int)),
            count <= i,
        decreases monster.abilities@.len() - i,
    {
        proof {
            assert(monster.abilities@.subrange(0, i as int + 1).drop_last() =~= monster.abilities@.subrange(
                0,
                i as int,
            ));
        }
        if monster.abilities[i].min_difficulty_tier == 0 {
            count = count + 1;
        }
        i = i + 1;
    }
    proof {
        assert(monster.abilities@.subrange(0, i as int) =~= monster.abilities@);
    }
    let ghost mut added: Set<(Seq<char>, Option<Seq<char>>, Seq<char>)> = Set::empty();
    if count > 0 {
        let a = concat("Monster has ", decimal_text(count).as_str());
        let detail = concat(a.as_str(), " tier-0 active abilities");
        push_issue(issues, "monster_active_abilities", Some(monster.hrid.clone()), detail);
        proof {
            lemma_view_set_push(old(issues)@, issues@.last());
            added = added.insert(issues@.last()@);
        }
    }
    let styles = &monster.combat_stats.combat_style_hrids;
    let ghost before = issues@;
    if styles.len() != 1 {
        let a = concat("Monster has ", decimal_text(styles.len() as u64).as_str());
        let detail = concat(a.as_str(), " combat styles; exactly one is required");
        push_issue(issues, "combat_style_count", Some(monster.hrid.clone()), detail);
        proof {
            lemma_view_set_push(before, issues@.last());
            added = added.insert(issues@.last()@);
        }
    } else if !is_supported_style(styles[0].as_str()) {
        let detail = concat("Unsupported combat style ", styles[0].as_str());
        push_issue(issues, "unsupported_combat_style", Some(monster.hrid.clone()), detail);
        proof {
            lemma_view_set_push(before, issues@.last());
            added = added.insert(issues@.last()@);
        }
    }
    let damage_type: &str = match &monster.combat_stats.damage_type {
        Some(d) => d.as_str(),
        None => "",
    };
    proof {
        reveal_strlit("");
        assert(damage_type@ == damage_type_of(*monster));
    }
    let ghost before = issues@;
    if !is_supported_damage_type(damage_type) {
        let detail = concat("Unsupported damage type ", damage_type);
        push_issue(issues, "unsupported_damage_type", Some(monster.hrid.clone()), detail);
        proof {
            lemma_view_set_push(before, issues@.last());
            added = added.insert(issues@.last()@);
        }
    }
    let attack_interval_bits: u64 = match lookup_stat(&monster.combat_stats.numbers, "attackInterval") {
        Some(n) => n.bits,
        None => 0,
    };
    let ghost before = issues@;
    if float_bits::le_zero(attack_interval_bits) && monster.base_attack_interval.is_zero() {
        push_issue(
            issues,
            "invalid_attack_interval",
            Some(monster.hrid.clone()),
            "Neither combatStats.attackInterval nor baseAttackInterval is positive".to_owned(),
        );
        proof {
            lemma_view_set_push(before, issues@.last());
            added = added.insert(issues@.last()@);
        }
    }
    let mut k: usize = 0;
    while k < PASSIVE_STAT_COUNT
        invariant
            0 <= k <= PASSIVE_STAT_COUNT,
            view_set(issues@) == start.union(added),
            forall|v: (Seq<char>, Option<Seq<char>>, Seq<char>)|
                added.contains(v) ==> monster_issue(*monster, v),
            forall|v: (Seq<char>, Option<Seq<char>>, Seq<char>)|
                #[trigger] monster_issue(*monster, v) ==> added.contains(v) || exists|j: int|
                    k <= j < PASSIVE_STAT_COUNT && !float_bits::spec_is_zero(
                        stat_bits(*monster, #[trigger] passive_stat(j)),
                    ) && v == issue(
                        "unsupported_passive"@,
                        monster.hrid@,
                        passive_stat(j) + " is non-zero ("@ + stat_text(*monster, passive_stat(j))
                            + ")"@,
                    ),
        decreases PASSIVE_STAT_COUNT - k,
    {
        let name = passive_stat_name(k);
        let found = lookup_stat(&monster.combat_stats.numbers, name);
        let (bits, text): (u64, &str) = match found {
            Some(n) => (n.bits, n.text.as_str()),
            None => (0u64, "0"),
        };
        let ghost before = issues@;
        if float_bits::is_non_zero(bits) {
            let a = concat(name, " is non-zero (");
            let b = concat(a.as_str(), text);
            let detail = concat(b.as_str(), ")");
            push_issue(issues, "unsupported_passive", Some(monster.hrid.clone()), detail);
            proof {
                lemma_view_set_push(before, issues@.last());
                added = added.insert(issues@.last()@);
            }
        }
        k = k + 1;
    }
    proof {
        let target = Set::new(|v: (Seq<char>, Option<Seq<char>>, Seq<char>)| monster_issue(*monster, v));
        assert(added =~= target);
    }
}


/// An issue view without a subject.
pub open spec fn zone_wide(code: Seq<char>, detail: Seq<char>) -> (
    Seq<char>,
    Option<Seq<char>>,
    Seq<char>,
) {
    (code, None, detail)
}

/// `v` is one of the zone-wide issues of `z`.
pub open spec fn zone_level_issue(z: CombatZoneDataV1, v: (Seq<char>, Option<Seq<char>>, Seq<char>)) -> bool {
    ||| z.buffs@.len() > 0 && v == zone_wide(
        "zone_buffs"@,
        "Zone has "@ + decimal(z.buffs@.len()) + " active Buff definitions"@,
    )
    ||| z.random_spawn_info.max_spawn_count != 1 && v == zone_wide(
        "multi_enemy_spawn"@,
        "maxSpawnCount is "@ + decimal(z.random_spawn_info.max_spawn_count as nat)
            + "; the current engine supports exactly one enemy"@,
    )
    ||| z.boss_spawns@.len() > 1 && v == zone_wide(
        "multi_boss_spawn"@,
        "Zone has "@ + decimal(z.boss_spawns@.len()) + " Boss spawns; the current engine supports at most one"@,
    )
}

/// `v` is an issue of random spawn `i` of `z`.
pub open spec fn spawn_issue(z: CombatZoneDataV1, i: int, v: (Seq<char>, Option<Seq<char>>, Seq<char>)) -> bool {
    let sp = z.random_spawn_info.spawns@[i];
    let cap = z.random_spawn_info.max_total_strength;
    &&& 0 <= i < z.random_spawn_info.spawns@.len()
    &&& {
        ||| sp.difficulty_tier != 0 && v == issue(
            "spawn_difficulty"@,
            sp.combat_monster_hrid@,
            "random spawn "@ + decimal(i as nat) + " has difficultyTier "@ + decimal(
                sp.difficulty_tier as nat,
            ),
        )
        ||| float_bits::spec_gt(sp.strength.bits, cap.bits) && v == issue(
            "spawn_strength_exceeds_cap"@,
            sp.combat_monster_hrid@,
            "spawn strength "@ + sp.strength.text@ + " exceeds maxTotalStrength "@ + cap.text@,
        )
    }
}

/// `v` is the issue of boss spawn `i` of `z`.
pub open spec fn boss_issue(z: CombatZoneDataV1, i: int, v: (Seq<char>, Option<Seq<char>>, Seq<char>)) -> bool {
    let b = z.boss_spawns@[i];
    &&& 0 <= i < z.boss_spawns@.len()
    &&& b.difficulty_tier != 0
    &&& v == issue(
        "boss_difficulty"@,
        b.combat_monster_hrid@,
        "Boss spawn "@ + decimal(i as nat) + " has difficultyTier "@ + decimal(b.difficulty_tier as nat),
    )
}

/// `v` is an issue of the monster listed as `h`, or its absence.
pub open spec fn referenced_monster_issue(
    s: CombatZoneDataSnapshotV1,
    h: Seq<char>,
    v: (Seq<char>, Option<Seq<char>>, Seq<char>),
) -> bool {
    match find_keyed(s.monsters@, h) {
        None => v == issue("missing_monster"@, h, "Referenced monster is absent from the snapshot"@),
        Some(m) => monster_issue(m, v),
    }
}

/// `v` is an issue of zone `z` whose referenced monsters are `hrids`.
pub open spec fn zone_issue(
    s: CombatZoneDataSnapshotV1,
    z: CombatZoneDataV1,
    hrids: Seq<String>,
    v: (Seq<char>, Option<Seq<char>>, Seq<char>),
) -> bool {
    ||| zone_level_issue(z, v)
    ||| exists|i: int| #[trigger] spawn_issue(z, i, v)
    ||| exists|i: int| #[trigger] boss_issue(z, i, v)
    ||| exists|k: int| 0 <= k < hrids.len() && referenced_monster_issue(s, (#[trigger] hrids[k])@, v)
}

/// The issues of zone `z` whose referenced monsters are `hrids`, in order,
/// each once.
pub fn classify_zone(
    snapshot: &CombatZoneDataSnapshotV1,
    zone: &CombatZoneDataV1,
    monster_hrids: &Vec<String>,
) -> (r: Vec<AutoAttackCapabilityIssueV1>)
    ensures
        strictly_sorted(r@),
        view_set(r@) == Set::new(|v: (Seq<char>, Option<Seq<char>>, Seq<char>)| zone_issue(*snapshot, *zone, monster_hrids@, v)),
{
    let mut issues: Vec<AutoAttackCapabilityIssueV1> = Vec::new();
    let ghost mut added: Set<(Seq<char>, Option<Seq<char>>, Seq<char>)> = Set::empty();
    proof {
        assert(view_set(issues@) =~= added);
    }
    let ghost before = issues@;
    if zone.buffs.len() > 0 {
        let a = concat("Zone has ", decimal_text(zone.buffs.len() as u64).as_str());
        push_issue(&mut issues, "zone_buffs", None, concat(a.as_str(), " active Buff definitions"));
        proof {
            lemma_view_set_push(before, issues@.last());
            added = added.insert(issues@.last()@);
        }
    }
    let info = &zone.random_spawn_info;
    let ghost before = issues@;
    if info.max_spawn_count != 1 {
        let a = concat("maxSpawnCount is ", decimal_text(info.max_spawn_count as u64).as_str());
        push_issue(
            &mut issues,
            "multi_enemy_spawn",
            None,
            concat(a.as_str(), "; the current engine supports exactly one enemy"),
        );
        proof {
            lemma_view_set_push(before, issues@.last());
            added = added.insert(issues@.last()@);
        }
    }
    let ghost before = issues@;
    if zone.boss_spawns.len() > 1 {
        let a = concat("Zone has ", decimal_text(zone.boss_spawns.len() as u64).as_str());
        push_issue(
            &mut issues,
            "multi_boss_spawn",
            None,
            concat(a.as_str(), " Boss spawns; the current engine supports at most one"),
        );
        proof {
            lemma_view_set_push(before, issues@.last());
            added = added.insert(issues@.last()@);
        }
    }
    proof {
        assert forall|v| added.contains(v) <==> zone_level_issue(*zone, v) by {}
    }
    let ghost level = added;
    let mut i: usize = 0;
    while i < info.spawns.len()
        invariant
            info == &zone.random_spawn_info,
            0 <= i <= info.spawns@.len(),
            view_set(issues@) == added,
            forall|v| #[trigger] added.contains(v) <==> (level.contains(v) || exists|j: int| 0 <= j < i && #[trigger] spawn_issue(*zone, j, v)),
            forall|v| level.contains(v) <==> zone_level_issue(*zone, v),
        decreases info.spawns@.len() - i,
    {
        let spawn = &info.spawns[i];
        let ghost before = issues@;
        let ghost before_added = added;
        if spawn.difficulty_tier != 0 {
            let a = concat("random spawn ", decimal_text(i as u64).as_str());
            let b = concat(a.as_str(), " has difficultyTier ");
            let detail = concat(b.as_str(), decimal_text(spawn.difficulty_tier as u64).as_str());
            push_issue(&mut issues, "spawn_difficulty", Some(spawn.combat_monster_hrid.clone()), detail);
            proof {
                lemma_view_set_push(before, issues@.last());
                added = added.insert(issues@.last()@);
            }
        }
        let ghost before = issues@;
        if float_bits::gt(spawn.strength.bits, info.max_total_strength.bits) {
            let a = concat("spawn strength ", spawn.strength.text.as_str());
            let b = concat(a.as_str(), " exceeds maxTotalStrength ");
            let detail = concat(b.as_str(), info.max_total_strength.text.as_str());
            push_issue(&mut issues, "spawn_strength_exceeds_cap", Some(spawn.combat_monster_hrid.clone()), detail);
            proof {
                lemma_view_set_push(before, issues@.last());
                added = added.insert(issues@.last()@);
            }
        }
        proof {
            assert forall|v| #[trigger] added.contains(v) <==> (level.contains(v) || exists|j: int| 0 <= j < i + 1 && #[trigger] spawn_issue(*zone, j, v)) by {
                if spawn_issue(*zone, i as int, v) {
                    assert(added.contains(v));
                }
                if added.contains(v) && !before_added.contains(v) {
                    assert(spawn_issue(*zone, i as int, v));
                }
            }
        }
        i = i + 1;
    }
    let ghost with_spawns = added;
    let mut i: usize = 0;
    while i < zone.boss_spawns.len()
        invariant
            0 <= i <= zone.boss_spawns@.len(),
            view_set(issues@) == added,
            forall|v| #[trigger] added.contains(v) <==> (with_spawns.contains(v) || exists|j: int| 0 <= j < i && #[trigger] boss_issue(*zone, j, v)),
        decreases zone.boss_spawns@.len() - i,
    {
        let boss = &zone.boss_spawns[i];
        let ghost before = issues@;
        let ghost before_added = added;
        if boss.difficulty_tier != 0 {
            let a = concat("Boss spawn ", decimal_text(i as u64).as_str());
            let b = concat(a.as_str(), " has difficultyTier ");
            let detail = concat(b.as_str(), decimal_text(boss.difficulty_tier as u64).as_str());
            push_issue(&mut issues, "boss_difficulty", Some(boss.combat_monster_hrid.clone()), detail);
            proof {
                lemma_view_set_push(before, issues@.last());
                added = added.insert(issues@.last()@);
            }
        }
        proof {
            assert forall|v| #[trigger] added.contains(v) <==> (with_spawns.contains(v) || exists|j: int| 0 <= j < i + 1 && #[trigger] boss_issue(*zone, j, v)) by {
                if boss_issue(*zone, i as int, v) {
                    assert(added.contains(v));
                }
                if added.contains(v) && !before_added.contains(v) {
                    assert(boss_issue(*zone, i as int, v));
                }
            }
        }
        i = i + 1;
    }
    let ghost with_bosses = added;
    let mut k: usize = 0;
    while k < monster_hrids.len()
        invariant
            0 <= k <= monster_hrids@.len(),
            view_set(issues@) == added,
            forall|v| #[trigger] added.contains(v) <==> (with_bosses.contains(v) || exists|j: int| 0 <= j < k && referenced_monster_issue(*snapshot, (#[trigger] monster_hrids@[j])@, v)),
        decreases monster_hrids@.len() - k,
    {
        let hrid = &monster_hrids[k];
        let ghost before = issues@;
        let ghost before_added = added;
        match snapshot.monster(hrid.as_str()) {
            None => {
                push_issue(
                    &mut issues,
                    "missing_monster",
                    Some(hrid.clone()),
                    "Referenced monster is absent from the snapshot".to_owned(),
                );
                proof {
                    lemma_view_set_push(before, issues@.last());
                    added = added.insert(issues@.last()@);
                    assert forall|v| added.contains(v) && !before_added.contains(v) implies referenced_monster_issue(*snapshot, hrid@, v) by {}
                }
            },
            Some(monster) => {
                classify_monster(monster, &mut issues);
                proof {
                    added = added.union(Set::new(|v: (Seq<char>, Option<Seq<char>>, Seq<char>)| monster_issue(*monster, v)));
                }
            },
        }
        proof {
            assert forall|v| #[trigger] added.contains(v) <==> (with_bosses.contains(v) || exists|j: int| 0 <= j < k + 1 && referenced_monster_issue(*snapshot, (#[trigger] monster_hrids@[j])@, v)) by {
                if referenced_monster_issue(*snapshot, hrid@, v) {
                    assert(added.contains(v));
                }
                if added.contains(v) && !before_added.contains(v) {
                    assert(referenced_monster_issue(*snapshot, monster_hrids@[k as int]@, v));
                }
            }
        }
        k = k + 1;
    }
    let sorted = sort_dedup(issues);
    proof {
        assert forall|v| added.contains(v) <==> zone_issue(*snapshot, *zone, monster_hrids@, v) by {
            if exists|j: int| #[trigger] spawn_issue(*zone, j, v) {
                let j = choose|j: int| #[trigger] spawn_issue(*zone, j, v);
                assert(0 <= j < zone.random_spawn_info.spawns@.len());
            }
            if exists|j: int| #[trigger] boss_issue(*zone, j, v) {
                let j = choose|j: int| #[trigger] boss_issue(*zone, j, v);
                assert(0 <= j < zone.boss_spawns@.len());
            }
        }
        assert(view_set(sorted@) =~= Set::new(|v: (Seq<char>, Option<Seq<char>>, Seq<char>)| zone_issue(*snapshot, *zone, monster_hrids@, v)));
    }
    sorted
}


/// The issues of zone `z` of snapshot `s`.
pub open spec fn zone_issue_set(s: CombatZoneDataSnapshotV1, z: CombatZoneDataV1) -> Set<(Seq<char>, Option<Seq<char>>, Seq<char>)> {
    Set::new(|v: (Seq<char>, Option<Seq<char>>, Seq<char>)| {
        ||| zone_level_issue(z, v)
        ||| exists|i: int| #[trigger] spawn_issue(z, i, v)
        ||| exists|i: int| #[trigger] boss_issue(z, i, v)
        ||| exists|h: Seq<char>| zone_references(z, h) && #[trigger] referenced_monster_issue(s, h, v)
    })
}

/// A zone is refused for its boss spawns only when it has more than one:
/// any issue of the zone coded `multi_boss_spawn` comes with more than one
/// boss spawn, so a single boss spawn is no reason to refuse a zone.
pub proof fn law_boss_spawns_refused_only_beyond_one(
    s: CombatZoneDataSnapshotV1,
    z: CombatZoneDataV1,
    v: (Seq<char>, Option<Seq<char>>, Seq<char>),
)
    requires
        zone_issue_set(s, z).contains(v),
        v.0 == "multi_boss_spawn"@,
    ensures
        z.boss_spawns@.len() > 1,
{
    reveal_strlit("multi_boss_spawn");
    reveal_strlit("zone_buffs");
    reveal_strlit("multi_enemy_spawn");
    reveal_strlit("spawn_difficulty");
    reveal_strlit("spawn_strength_exceeds_cap");
    reveal_strlit("boss_difficulty");
    reveal_strlit("missing_monster");
    reveal_strlit("monster_active_abilities");
    reveal_strlit("combat_style_count");
    reveal_strlit("unsupported_combat_style");
    reveal_strlit("unsupported_damage_type");
    reveal_strlit("invalid_attack_interval");
    reveal_strlit("unsupported_passive");
    assert("multi_boss_spawn"@[0] == 'm' && "multi_boss_spawn"@[6] == 'b');
    assert("multi_enemy_spawn"@[6] == 'e');
    if exists|i: int| #[trigger] spawn_issue(z, i, v) {
        let i = choose|i: int| #[trigger] spawn_issue(z, i, v);
        assert("spawn_difficulty"@[0] == 's');
        assert("spawn_strength_exceeds_cap"@.len() != 16);
    }
    if exists|i: int| #[trigger] boss_issue(z, i, v) {
        assert("boss_difficulty"@.len() != 16);
    }
    if exists|h: Seq<char>| zone_references(z, h) && #[trigger] referenced_monster_issue(s, h, v) {
        let h = choose|h: Seq<char>| zone_references(z, h) && #[trigger] referenced_monster_issue(s, h, v);
        assert("missing_monster"@.len() != 16);
        assert("combat_style_count"@.len() != 16);
        assert("unsupported_combat_style"@.len() != 16);
        assert("unsupported_damage_type"@.len() != 16);
        assert("invalid_attack_interval"@.len() != 16);
        assert("unsupported_passive"@.len() != 16);
        assert("monster_active_abilities"@.len() != 16);
    }
}

/// A plain zone is a candidate: a zone without buffs, with a single enemy
/// at a time (`maxSpawnCount` 1), whose random spawns are of tier 0 within
/// its strength cap, which has at most one boss spawn, of tier 0, and all
/// of whose spawned monsters are present and raise no issue of their own,
/// has no issue at all.
pub proof fn law_plain_zone_is_candidate(s: CombatZoneDataSnapshotV1, z: CombatZoneDataV1)
    requires
        z.buffs@.len() == 0,
        z.random_spawn_info.max_spawn_count == 1,
        z.boss_spawns@.len() <= 1,
        forall|i: int|
            0 <= i < z.random_spawn_info.spawns@.len() ==> (#[trigger] z.random_spawn_info.spawns@[i]).difficulty_tier
                == 0 && !float_bits::spec_gt(
                z.random_spawn_info.spawns@[i].strength.bits,
                z.random_spawn_info.max_total_strength.bits,
            ),
        forall|i: int| 0 <= i < z.boss_spawns@.len() ==> (#[trigger] z.boss_spawns@[i]).difficulty_tier == 0,
        forall|h: Seq<char>|
            #[trigger] zone_references(z, h) ==> (find_keyed(s.monsters@, h) matches Some(m) && forall|
                v: (Seq<char>, Option<Seq<char>>, Seq<char>),
            | !monster_issue(m, v)),
    ensures
        zone_issue_set(s, z).is_empty(),
{
    assert forall|v: (Seq<char>, Option<Seq<char>>, Seq<char>)| !zone_issue_set(s, z).contains(v) by {
        if exists|i: int| #[trigger] spawn_issue(z, i, v) {
            let i = choose|i: int| #[trigger] spawn_issue(z, i, v);
            assert(z.random_spawn_info.spawns@[i].difficulty_tier == 0);
        }
        if exists|i: int| #[trigger] boss_issue(z, i, v) {
            let i = choose|i: int| #[trigger] boss_issue(z, i, v);
            assert(z.boss_spawns@[i].difficulty_tier == 0);
        }
        if exists|h: Seq<char>| zone_references(z, h) && #[trigger] referenced_monster_issue(s, h, v) {
            let h = choose|h: Seq<char>| zone_references(z, h) && #[trigger] referenced_monster_issue(s, h, v);
            assert(zone_references(z, h));
        }
    }
    assert(zone_issue_set(s, z) =~= Set::empty());
}

/// `c` describes zone `i` of `s` as a candidate: it has no issue.
pub open spec fn candidate_describes(s: CombatZoneDataSnapshotV1, i: int, c: AutoAttackZoneCandidateV1) -> bool {
    let z = s.zones@[i].1;
    &&& c.zone_hrid@ == s.zones@[i].0@
    &&& zone_issue_set(s, z).is_empty()
    &&& strictly_sorted(c.monster_hrids@)
    &&& view_set(c.monster_hrids@) == Set::new(|h: Seq<char>| zone_references(z, h))
    &&& c.has_boss_spawn == (z.boss_spawns@.len() > 0)
}

/// `r` describes zone `i` of `s` as rejected, with all of its issues.
pub open spec fn rejection_describes(s: CombatZoneDataSnapshotV1, i: int, r: AutoAttackZoneRejectionV1) -> bool {
    let z = s.zones@[i].1;
    &&& r.zone_hrid@ == s.zones@[i].0@
    &&& !zone_issue_set(s, z).is_empty()
    &&& strictly_sorted(r.issues@)
    &&& view_set(r.issues@) == zone_issue_set(s, z)
}

/// The first `n` zones of `s` are classified, in order, into `cands` and
/// `rejs`.
pub open spec fn classified(
    s: CombatZoneDataSnapshotV1,
    n: int,
    cands: Seq<AutoAttackZoneCandidateV1>,
    rejs: Seq<AutoAttackZoneRejectionV1>,
) -> bool
    decreases n,
{
    if n <= 0 {
        cands.len() == 0 && rejs.len() == 0
    } else if zone_issue_set(s, s.zones@[n - 1].1).is_empty() {
        cands.len() > 0 && candidate_describes(s, n - 1, cands.last()) && classified(
            s,
            n - 1,
            cands.drop_last(),
            rejs,
        )
    } else {
        rejs.len() > 0 && rejection_describes(s, n - 1, rejs.last()) && classified(
            s,
            n - 1,
            cands,
            rejs.drop_last(),
        )
    }
}

/// Classification is complete and every rejection has a reason: of the
/// first `n` zones, the candidates and the rejections together number `n`,
/// and each rejection lists at least one issue.
pub proof fn law_classification_is_complete(
    s: CombatZoneDataSnapshotV1,
    n: int,
    cands: Seq<AutoAttackZoneCandidateV1>,
    rejs: Seq<AutoAttackZoneRejectionV1>,
)
    requires
        n >= 0,
        classified(s, n, cands, rejs),
    ensures
        cands.len() + rejs.len() == n,
        forall|i: int| 0 <= i < rejs.len() ==> (#[trigger] rejs[i]).issues@.len() > 0,
    decreases n,
{
    if n > 0 {
        if zone_issue_set(s, s.zones@[n - 1].1).is_empty() {
            law_classification_is_complete(s, n - 1, cands.drop_last(), rejs);
        } else {
            law_classification_is_complete(s, n - 1, cands, rejs.drop_last());
            let last = rejs.last();
            if last.issues@.len() == 0 {
                assert(view_set(last.issues@) =~= Set::<(Seq<char>, Option<Seq<char>>, Seq<char>)>::empty());
            }
            assert forall|i: int| 0 <= i < rejs.len() implies (#[trigger] rejs[i]).issues@.len()
                > 0 by {
                if i < rejs.len() - 1 {
                    assert(rejs[i] == rejs.drop_last()[i]);
                }
            }
        }
    }
}

/// The reason codes of all issues of `rejs`, in order.
pub open spec fn reason_codes(rejs: Seq<AutoAttackZoneRejectionV1>) -> Seq<Seq<char>>
    decreases rejs.len(),
{
    if rejs.len() == 0 {
        Seq::empty()
    } else {
        reason_codes(rejs.drop_last()) + rejs.last().issues@.map_values(
            |i: AutoAttackCapabilityIssueV1| i.code@,
        )
    }
}

/// How often `code` occurs in `codes`.
pub open spec fn occurrences(codes: Seq<Seq<char>>, code: Seq<char>) -> nat
    decreases codes.len(),
{
    if codes.len() == 0 {
        0
    } else {
        occurrences(codes.drop_last(), code) + if codes.last() == code {
            1nat
        } else {
            0nat
        }
    }
}

/// `counts` lists each code of `codes` once, in ascending `String` order,
/// with how often it occurs (saturating at `usize::MAX`).
pub open spec fn counts_codes(counts: Seq<(String, usize)>, codes: Seq<Seq<char>>) -> bool {
    &&& forall|i: int, j: int|
        0 <= i < j < counts.len() ==> text_lt((#[trigger] counts[i]).0@, (#[trigger] counts[j]).0@)
    &&& forall|i: int, j: int|
        0 <= i < j < counts.len() ==> (#[trigger] counts[i]).0@ != (#[trigger] counts[j]).0@
    &&& forall|i: int|
        0 <= i < counts.len() ==> (#[trigger] counts[i]).1 as nat == vstd::math::min(
            occurrences(codes, counts[i].0@) as int,
            usize::MAX as int,
        ) && occurrences(codes, counts[i].0@) > 0
    &&& forall|c: Seq<char>|
        #[trigger] occurrences(codes, c) > 0 ==> exists|i: int|
            0 <= i < counts.len() && (#[trigger] counts[i]).0@ == c
}

proof fn lemma_occurrences_push(codes: Seq<Seq<char>>, x: Seq<char>, c: Seq<char>)
    ensures
        occurrences(codes.push(x), c) == occurrences(codes, c) + if x == c { 1nat } else { 0nat },
{
    assert(codes.push(x).drop_last() =~= codes);
}

/// Counts how often each reason code occurs in `codes`, keeping the codes
/// in ascending order.
pub fn count_codes(codes: &Vec<String>) -> (r: Vec<(String, usize)>)
    ensures
        counts_codes(r@, codes@.map_values(|c: String| c@)),
{
    let ghost all = codes@.map_values(|c: String| c@);
    let mut counts: Vec<(String, usize)> = Vec::new();
    let mut i: usize = 0;
    while i < codes.len()
        invariant
            0 <= i <= codes@.len(),
            all == codes@.map_values(|c: String| c@),
            counts_codes(counts@, all.subrange(0, i as int)),
        decreases codes@.len() - i,
    {
        let ghost prefix = all.subrange(0, i as int);
        let ghost next = all.subrange(0, i as int + 1);
        proof {
            assert(next =~= prefix.push(codes@[i as int]@));
            assert forall|c: Seq<char>| occurrences(next, c) == occurrences(prefix, c) + if codes@[i as int]@ == c { 1nat } else { 0nat } by {
                lemma_occurrences_push(prefix, codes@[i as int]@, c);
            }
        }
        let code = &codes[i];
        let mut j: usize = 0;
        while j < counts.len()
            invariant
                0 <= j <= counts@.len(),
                forall|k: int| 0 <= k < j ==> text_lt((#[trigger] counts@[k]).0@, code@),
            ensures
                j < counts@.len() ==> !text_lt(counts@[j as int].0@, code@),
            decreases counts@.len() - j,
        {
            if counts[j].0.rank(code) >= 0 {
                break;
            }
            j = j + 1;
        }
        let ghost old_counts = counts@;
        let found = j < counts.len() && text_eq(counts[j].0.as_str(), code.as_str());
        proof {
            assert forall|k: int| 0 <= k < j implies (#[trigger] old_counts[k]).0@ != code@ by {
                lemma_text_lt_order(old_counts[k].0@, code@, code@);
            }
            if j < old_counts.len() && !found {
                lemma_text_lt_order(code@, old_counts[j as int].0@, code@);
                assert forall|k: int| j <= k < old_counts.len() implies text_lt(code@, (#[trigger] old_counts[k]).0@) by {
                    if k > j {
                        assert(text_lt(old_counts[j as int].0@, old_counts[k].0@));
                        lemma_text_lt_order(code@, old_counts[j as int].0@, old_counts[k].0@);
                    }
                }
            }
        }
        if found {
            let name = counts[j].0.clone();
            let n = counts[j].1;
            let bumped = if n < usize::MAX { n + 1 } else { n };
            counts.set(j, (name, bumped));
            proof {
                assert forall|a: int, b: int| 0 <= a < b < counts@.len() implies text_lt((#[trigger] counts@[a]).0@, (#[trigger] counts@[b]).0@) by {
                    assert(counts@[a].0@ == old_counts[a].0@);
                    assert(counts@[b].0@ == old_counts[b].0@);
                    assert(text_lt(old_counts[a].0@, old_counts[b].0@));
                }
                assert forall|a: int, b: int| 0 <= a < b < counts@.len() implies (#[trigger] counts@[a]).0@ != (#[trigger] counts@[b]).0@ by {
                    assert(counts@[a].0@ == old_counts[a].0@);
                    assert(counts@[b].0@ == old_counts[b].0@);
                }
                assert forall|c: Seq<char>| #[trigger] occurrences(next, c) > 0 implies exists|k: int|
                    0 <= k < counts@.len() && (#[trigger] counts@[k]).0@ == c by {
                    if c == code@ {
                        assert(counts@[j as int].0@ == c);
                    } else {
                        let k = choose|k: int| 0 <= k < old_counts.len() && (#[trigger] old_counts[k]).0@ == c;
                        assert(counts@[k].0@ == c);
                    }
                }
                assert forall|k: int| 0 <= k < counts@.len() implies (#[trigger] counts@[k]).1 as nat == vstd::math::min(
                    occurrences(next, counts@[k].0@) as int,
                    usize::MAX as int,
                ) && occurrences(next, counts@[k].0@) > 0 by {
                    assert(counts@[k].0@ == old_counts[k].0@);
                }
            }
        } else {
            counts.insert(j, (code.clone(), 1));
            proof {
                let ghost nc = counts@;
                assert forall|k: int| 0 <= k < nc.len() implies #[trigger] nc[k] == if k < j {
                    old_counts[k]
                } else if k == j {
                    nc[k]
                } else {
                    old_counts[k - 1]
                } by {}
                assert(nc[j as int].0@ == code@);
                assert forall|a: int, b: int| 0 <= a < b < nc.len() implies text_lt((#[trigger] nc[a]).0@, (#[trigger] nc[b]).0@) by {
                    if b < j {
                        assert(text_lt(old_counts[a].0@, old_counts[b].0@));
                    } else if b == j {
                        assert(text_lt(old_counts[a].0@, code@));
                    } else if a < j {
                        assert(text_lt(old_counts[a].0@, code@));
                        assert(text_lt(code@, old_counts[b - 1].0@));
                        lemma_text_lt_order(old_counts[a].0@, code@, old_counts[b - 1].0@);
                    } else if a == j {
                        assert(text_lt(code@, old_counts[b - 1].0@));
                    } else {
                        assert(text_lt(old_counts[a - 1].0@, old_counts[b - 1].0@));
                    }
                }
                assert forall|a: int, b: int| 0 <= a < b < nc.len() implies (#[trigger] nc[a]).0@ != (#[trigger] nc[b]).0@ by {
                    assert(text_lt(nc[a].0@, nc[b].0@));
                    lemma_text_lt_order(nc[a].0@, nc[b].0@, nc[b].0@);
                }
                assert forall|c: Seq<char>| #[trigger] occurrences(next, c) > 0 implies exists|k: int|
                    0 <= k < nc.len() && (#[trigger] nc[k]).0@ == c by {
                    if c == code@ {
                        assert(nc[j as int].0@ == c);
                    } else {
                        let k = choose|k: int| 0 <= k < old_counts.len() && (#[trigger] old_counts[k]).0@ == c;
                        if k < j {
                            assert(nc[k].0@ == c);
                        } else {
                            assert(nc[k + 1].0@ == c);
                        }
                    }
                }
                assert forall|k: int| 0 <= k < nc.len() implies (#[trigger] nc[k]).1 as nat == vstd::math::min(
                    occurrences(next, nc[k].0@) as int,
                    usize::MAX as int,
                ) && occurrences(next, nc[k].0@) > 0 by {
                    if k == j {
                        if occurrences(prefix, code@) > 0 {
                            let q = choose|q: int| 0 <= q < old_counts.len() && (#[trigger] old_counts[q]).0@ == code@;
                            if q < j {
                            } else if q == j {
                            } else {
                                assert(text_lt(code@, old_counts[q].0@));
                                lemma_text_lt_order(code@, code@, code@);
                            }
                        }
                    } else if k < j {
                        assert(old_counts[k].0@ != code@);
                    } else {
                        assert(text_lt(code@, old_counts[k - 1].0@));
                        lemma_text_lt_order(code@, old_counts[k - 1].0@, code@);
                    }
                }
            }
        }
        i = i + 1;
    }
    proof {
        assert(all.subrange(0, codes@.len() as int) =~= all);
    }
    counts
}

proof fn lemma_reason_codes_push(rejs: Seq<AutoAttackZoneRejectionV1>, r: AutoAttackZoneRejectionV1)
    ensures
        reason_codes(rejs.push(r)) == reason_codes(rejs) + r.issues@.map_values(
            |i: AutoAttackCapabilityIssueV1| i.code@,
        ),
{
    assert(rejs.push(r).drop_last() =~= rejs);
}

proof fn lemma_zone_issue_set(s: CombatZoneDataSnapshotV1, z: CombatZoneDataV1, hrids: Seq<String>)
    requires
        forall|h: Seq<char>| zone_references(z, h) <==> text_listed(hrids, h),
    ensures
        zone_issue_set(s, z) == Set::new(|v: (Seq<char>, Option<Seq<char>>, Seq<char>)| zone_issue(s, z, hrids, v)),
{
    assert forall|v| zone_issue_set(s, z).contains(v) <==> zone_issue(s, z, hrids, v) by {
        if exists|h: Seq<char>| zone_references(z, h) && #[trigger] referenced_monster_issue(s, h, v) {
            let h = choose|h: Seq<char>| zone_references(z, h) && #[trigger] referenced_monster_issue(s, h, v);
            assert(text_listed(hrids, h));
            let k = choose|k: int| 0 <= k < hrids.len() && (#[trigger] hrids[k])@ == h;
        }
        if exists|k: int| 0 <= k < hrids.len() && referenced_monster_issue(s, (#[trigger] hrids[k])@, v) {
            let k = choose|k: int| 0 <= k < hrids.len() && referenced_monster_issue(s, (#[trigger] hrids[k])@, v);
            assert(text_listed(hrids, hrids[k]@));
            assert(zone_references(z, hrids[k]@));
        }
    }
    assert(zone_issue_set(s, z) =~= Set::new(|v: (Seq<char>, Option<Seq<char>>, Seq<char>)| zone_issue(s, z, hrids, v)));
}

/// Classifies every zone of a valid snapshot: a zone without issues is a
/// candidate (with its referenced monsters in order, each once), every
/// other zone is rejected with all of its issues. An invalid snapshot is
/// refused with its validation error.
pub fn classify_auto_attack_zones(snapshot: &CombatZoneDataSnapshotV1) -> (r: Result<
    AutoAttackCapabilityReportV1,
    SimError,
>)
    ensures
        r is Ok <==> snapshot_valid(*snapshot),
        crate::combat_data::snapshot_failure(*snapshot) matches Some(m) ==> (r matches Err(e)
            && crate::combat_data::data_error(e, m)),
        r matches Ok(rep) ==> {
            &&& rep.report_version == AUTO_ATTACK_CAPABILITY_REPORT_VERSION
            &&& rep.data_version@ == snapshot.data_version@
            &&& classified(*snapshot, snapshot.zones@.len() as int, rep.candidates@, rep.rejected@)
            &&& rep.counts.total_zones == snapshot.zones@.len()
            &&& rep.counts.candidates == rep.candidates@.len()
            &&& rep.counts.rejected == rep.rejected@.len()
            &&& counts_codes(rep.reason_counts@, reason_codes(rep.rejected@))
            &&& forall|a: int, b: int|
                0 <= a < b < rep.candidates@.len() ==> text_lt(
                    (#[trigger] rep.candidates@[a]).zone_hrid@,
                    (#[trigger] rep.candidates@[b]).zone_hrid@,
                )
            &&& forall|a: int, b: int|
                0 <= a < b < rep.rejected@.len() ==> text_lt(
                    (#[trigger] rep.rejected@[a]).zone_hrid@,
                    (#[trigger] rep.rejected@[b]).zone_hrid@,
                )
        },
{
    let checked = snapshot.validate();
    if let Err(e) = checked {
        return Err(e);
    }
    let mut candidates: Vec<AutoAttackZoneCandidateV1> = Vec::new();
    let mut rejected: Vec<AutoAttackZoneRejectionV1> = Vec::new();
    let mut codes: Vec<String> = Vec::new();
    let mut i: usize = 0;
    while i < snapshot.zones.len()
        invariant
            0 <= i <= snapshot.zones@.len(),
            classified(*snapshot, i as int, candidates@, rejected@),
            codes@.map_values(|c: String| c@) == reason_codes(rejected@),
            keys_ascending(snapshot.zones@),
            forall|a: int, b: int|
                0 <= a < b < candidates@.len() ==> text_lt(
                    (#[trigger] candidates@[a]).zone_hrid@,
                    (#[trigger] candidates@[b]).zone_hrid@,
                ),
            forall|a: int, b: int|
                0 <= a < b < rejected@.len() ==> text_lt(
                    (#[trigger] rejected@[a]).zone_hrid@,
                    (#[trigger] rejected@[b]).zone_hrid@,
                ),
            forall|a: int, k: int|
                0 <= a < candidates@.len() && i <= k < snapshot.zones@.len() ==> text_lt(
                    (#[trigger] candidates@[a]).zone_hrid@,
                    (#[trigger] snapshot.zones@[k]).0@,
                ),
            forall|a: int, k: int|
                0 <= a < rejected@.len() && i <= k < snapshot.zones@.len() ==> text_lt(
                    (#[trigger] rejected@[a]).zone_hrid@,
                    (#[trigger] snapshot.zones@[k]).0@,
                ),
        decreases snapshot.zones@.len() - i,
    {
        let key = &snapshot.zones[i].0;
        let zone = &snapshot.zones[i].1;
        let spawned = zone_spawn_hrids(zone);
        let hrids = sort_dedup(spawned);
        let issues = classify_zone(snapshot, zone, &hrids);
        proof {
            assert forall|h: Seq<char>| zone_references(*zone, h) <==> text_listed(hrids@, h) by {
                assert(view_set(hrids@).contains(h) == text_listed(hrids@, h));
            }
            lemma_zone_issue_set(*snapshot, *zone, hrids@);
            assert(issues@.len() == 0 <==> view_set(issues@).is_empty()) by {
                if issues@.len() > 0 {
                    assert(view_set(issues@).contains(issues@[0]@));
                }
            }
        }
        let ghost old_c = candidates@;
        let ghost old_r = rejected@;
        if issues.len() == 0 {
            let has_boss_spawn = zone.boss_spawns.len() > 0;
            candidates.push(AutoAttackZoneCandidateV1 { zone_hrid: key.clone(), monster_hrids: hrids, has_boss_spawn });
            proof {
                assert(view_set(spawned@) =~= Set::new(|h: Seq<char>| zone_references(*zone, h)));
                assert(candidates@.drop_last() =~= old_c);
            }
        } else {
            let mut j: usize = 0;
            let ghost base = codes@;
            while j < issues.len()
                invariant
                    0 <= j <= issues@.len(),
                    codes@ == base + issues@.subrange(0, j as int).map_values(|x: AutoAttackCapabilityIssueV1| x.code),
                decreases issues@.len() - j,
            {
                codes.push(issues[j].code.clone());
                proof {
                    assert(issues@.subrange(0, j as int + 1).map_values(|x: AutoAttackCapabilityIssueV1| x.code) =~= issues@.subrange(0, j as int).map_values(|x: AutoAttackCapabilityIssueV1| x.code).push(issues@[j as int].code));
                }
                j = j + 1;
            }
            let rejection = AutoAttackZoneRejectionV1 { zone_hrid: key.clone(), issues };
            let ghost rej = rejection;
            rejected.push(rejection);
            proof {
                assert(rejected@.drop_last() =~= old_r);
                lemma_reason_codes_push(old_r, rej);
                assert(rej.issues@.subrange(0, rej.issues@.len() as int) =~= rej.issues@);
                assert(codes@.map_values(|c: String| c@) =~= reason_codes(rejected@));
            }
        }
        proof {
            let key_i = snapshot.zones@[i as int].0@;
            assert forall|a: int, k: int|
                0 <= a < candidates@.len() && i + 1 <= k < snapshot.zones@.len() implies text_lt(
                (#[trigger] candidates@[a]).zone_hrid@,
                (#[trigger] snapshot.zones@[k]).0@,
            ) by {
                if a < old_c.len() {
                    assert(candidates@[a] == old_c[a]);
                } else {
                    assert(text_lt(snapshot.zones@[i as int].0@, snapshot.zones@[k].0@));
                }
            }
            assert forall|a: int, k: int|
                0 <= a < rejected@.len() && i + 1 <= k < snapshot.zones@.len() implies text_lt(
                (#[trigger] rejected@[a]).zone_hrid@,
                (#[trigger] snapshot.zones@[k]).0@,
            ) by {
                if a < old_r.len() {
                    assert(rejected@[a] == old_r[a]);
                } else {
                    assert(text_lt(snapshot.zones@[i as int].0@, snapshot.zones@[k].0@));
                }
            }
            assert forall|a: int, b: int|
                0 <= a < b < candidates@.len() implies text_lt(
                (#[trigger] candidates@[a]).zone_hrid@,
                (#[trigger] candidates@[b]).zone_hrid@,
            ) by {
                assert(candidates@[a] == old_c[a]);
                if b < old_c.len() {
                    assert(candidates@[b] == old_c[b]);
                } else {
                    assert(text_lt(old_c[a].zone_hrid@, snapshot.zones@[i as int].0@));
                }
            }
            assert forall|a: int, b: int|
                0 <= a < b < rejected@.len() implies text_lt(
                (#[trigger] rejected@[a]).zone_hrid@,
                (#[trigger] rejected@[b]).zone_hrid@,
            ) by {
                assert(rejected@[a] == old_r[a]);
                if b < old_r.len() {
                    assert(rejected@[b] == old_r[b]);
                } else {
                    assert(text_lt(old_r[a].zone_hrid@, snapshot.zones@[i as int].0@));
                }
            }
        }
        i = i + 1;
    }
    let reason_counts = count_codes(&codes);
    let total_zones = snapshot.zones.len();
    let n_candidates = candidates.len();
    let n_rejected = rejected.len();
    Ok(AutoAttackCapabilityReportV1 {
        report_version: AUTO_ATTACK_CAPABILITY_REPORT_VERSION,
        data_version: snapshot.data_version.clone(),
        counts: AutoAttackCapabilityCountsV1 { total_zones, candidates: n_candidates, rejected: n_rejected },
        reason_counts,
        candidates,
        rejected,
    })
}

} // verus!
