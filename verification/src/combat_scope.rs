//! What the combat engines accept: the request, the player and the random
//! source. The basic auto-attack engine and the direct-damage engine accept
//! the same narrow slice of the request contract and differ in the player's
//! abilities and in the wording of their refusals.
use vstd::prelude::*;

use crate::basic_data::{BasicGameData, BASIC_DATA_VERSION, BASIC_FLY_ZONE_HRID};
use crate::combat_data::CombatMonsterDataV1;
use crate::contracts::{
    request_error, request_valid, RandomConfigV1, SimulationRequestV1, SimulationTargetV1,
    StatisticsMode,
};
use crate::error::SimError;
use crate::contracts::random_error;
use crate::json::{is_empty_json_collection, spec_empty_collection, spec_shape, JsonValue};
use crate::rng::{
    add32, all_unit_values, mulberry32_output, sequence_draw, spec_hash_seed, unit_pattern,
    SeededRandom, SequenceRandom, MULBERRY_INCREMENT,
};
use crate::text::concat;

verus! {

/// The engine a request is checked for.
#[derive(Clone, Copy, Debug, PartialEq, Eq)]
pub enum CombatScope {
    Basic,
    DirectDamage,
}

/// The wording an engine uses: `basic` for the basic engine, `direct` for
/// the direct-damage engine.
pub open spec fn worded(scope: CombatScope, basic: Seq<char>, direct: Seq<char>) -> Seq<char> {
    match scope {
        CombatScope::Basic => basic,
        CombatScope::DirectDamage => direct,
    }
}

/// `e` is the engine's refusal with message `m`.
pub open spec fn refusal(scope: CombatScope, e: SimError, m: Seq<char>) -> bool {
    match scope {
        CombatScope::Basic => e matches SimError::UnsupportedBasicCombat(t) && t@ == m,
        CombatScope::DirectDamage => e matches SimError::UnsupportedDirectDamageCombat(t) && t@
            == m,
    }
}

/// The engine's refusal with `message`.
pub fn unsupported(scope: CombatScope, message: String) -> (e: SimError)
    ensures
        refusal(scope, e, message@),
{
    match scope {
        CombatScope::Basic => SimError::UnsupportedBasicCombat(message),
        CombatScope::DirectDamage => SimError::UnsupportedDirectDamageCombat(message),
    }
}

/// The engine's refusal, worded `basic` or `direct`.
pub fn refuse(scope: CombatScope, basic: &str, direct: &str) -> (e: SimError)
    ensures
        refusal(scope, e, worded(scope, basic@, direct@)),
{
    match scope {
        CombatScope::Basic => SimError::UnsupportedBasicCombat(basic.to_owned()),
        CombatScope::DirectDamage => SimError::UnsupportedDirectDamageCombat(direct.to_owned()),
    }
}

/// The target is the tier-0 Fly zone with no unknown fields.
pub open spec fn fly_zone_target(t: SimulationTargetV1) -> bool {
    t matches SimulationTargetV1::Zone { zone_hrid, difficulty_tier, extensions } && zone_hrid@
        == BASIC_FLY_ZONE_HRID@ && difficulty_tier == 0 && extensions@.is_empty()
}

/// Why an engine refuses a request that the contract accepts: the message
/// of the first of its own checks that fails, or `None`.
pub open spec fn scope_failure(
    scope: CombatScope,
    r: SimulationRequestV1,
    d: BasicGameData,
) -> Option<Seq<char>> {
    if r.data_version@ != BASIC_DATA_VERSION@ || r.data_version@ != d.data_version@ {
        Some("dataVersion must be "@ + BASIC_DATA_VERSION@)
    } else if r.players@.len() != 1 {
        Some(worded(scope, "M2 supports exactly one player"@, "M3D supports exactly one player"@))
    } else if !fly_zone_target(r.target) {
        Some(
            worded(
                scope,
                "M2 supports only the tier-0 /actions/combat/fly Zone"@,
                "M3D supports only the tier-0 /actions/combat/fly Zone"@,
            ),
        )
    } else if r.options.statistics_mode != StatisticsMode::Full {
        Some("statisticsMode must be full"@)
    } else if r.options.enable_hp_mp_visualization {
        Some(
            worded(
                scope,
                "HP/MP visualization is not supported in M2"@,
                "HP/MP visualization is not supported in M3D"@,
            ),
        )
    } else if r.options.trace.enabled {
        Some(
            worded(
                scope,
                "event trace is not supported in M2"@,
                "event trace is not supported in the Rust M3D runtime"@,
            ),
        )
    } else if !spec_empty_collection(spec_shape(r.options.extra))
        || !r.options.extensions@.is_empty() || !r.extensions@.is_empty() {
        Some(
            worded(
                scope,
                "M2 does not accept extra or unknown request options"@,
                "M3D does not accept extra or unknown request options"@,
            ),
        )
    } else {
        None
    }
}

/// Checks that `request` is valid and within what the engine runs: the
/// data slice's version, one player, the tier-0 Fly zone, full statistics,
/// no HP/MP visualization, no trace and no extra or unknown options. A
/// request the contract refuses keeps the contract's error.
pub fn validate_request_scope(
    scope: CombatScope,
    request: &SimulationRequestV1,
    data: &BasicGameData,
) -> (r: Result<(), SimError>)
    ensures
        r is Ok <==> request_valid(*request) && scope_failure(scope, *request, *data) is None,
        !request_valid(*request) ==> (r matches Err(e) && request_error(*request, e)),
        request_valid(*request) ==> match scope_failure(scope, *request, *data) {
            Some(m) => r matches Err(e) && refusal(scope, e, m),
            None => r is Ok,
        },
{
    let checked = request.validate();
    if checked.is_err() {
        return checked;
    }
    if !crate::text::text_eq(request.data_version.as_str(), BASIC_DATA_VERSION)
        || !crate::text::text_eq(request.data_version.as_str(), data.data_version.as_str()) {
        return Err(unsupported(scope, concat("dataVersion must be ", BASIC_DATA_VERSION)));
    }
    if request.players.len() != 1 {
        return Err(refuse(scope, "M2 supports exactly one player", "M3D supports exactly one player"));
    }
    let on_fly_zone = match &request.target {
        SimulationTargetV1::Zone { zone_hrid, difficulty_tier, extensions } => crate::text::text_eq(
            zone_hrid.as_str(),
            BASIC_FLY_ZONE_HRID,
        ) && *difficulty_tier == 0 && extensions.is_empty(),
        SimulationTargetV1::Labyrinth { .. } => false,
    };
    if !on_fly_zone {
        return Err(
            refuse(
                scope,
                "M2 supports only the tier-0 /actions/combat/fly Zone",
                "M3D supports only the tier-0 /actions/combat/fly Zone",
            ),
        );
    }
    let full = match request.options.statistics_mode {
        StatisticsMode::Full => true,
        StatisticsMode::Fast => false,
    };
    if !full {
        return Err(unsupported(scope, "statisticsMode must be full".to_owned()));
    }
    if request.options.enable_hp_mp_visualization {
        return Err(
            refuse(
                scope,
                "HP/MP visualization is not supported in M2",
                "HP/MP visualization is not supported in M3D",
            ),
        );
    }
    if request.options.trace.enabled {
        return Err(
            refuse(
                scope,
                "event trace is not supported in M2",
                "event trace is not supported in the Rust M3D runtime",
            ),
        );
    }
    if !is_empty_json_collection(&request.options.extra.shape())
        || !request.options.extensions.is_empty() || !request.extensions.is_empty() {
        return Err(
            refuse(
                scope,
                "M2 does not accept extra or unknown request options",
                "M3D does not accept extra or unknown request options",
            ),
        );
    }
    Ok(())
}

/// The deterministic random source of a combat run.
#[derive(Clone, Debug)]
pub enum CombatRandom {
    Seeded(SeededRandom),
    Sequence(SequenceRandom),
}

impl CombatRandom {
    /// The source's invariant.
    pub open spec fn wf(self) -> bool {
        match self {
            CombatRandom::Seeded(_) => true,
            CombatRandom::Sequence(q) => q.wf(),
        }
    }

    /// How many values have been drawn.
    pub open spec fn draws(self) -> u64 {
        match self {
            CombatRandom::Seeded(g) => g.draws(),
            CombatRandom::Sequence(q) => q.draws(),
        }
    }

    /// The source a request asks for. A seeded source needs a string seed
    /// (hashed over its UTF-16 code units); a sequence source keeps the
    /// contract's checks of its values; the native source, and none, are
    /// refused because a run must be reproducible.
    pub fn from_request(scope: CombatScope, request: &SimulationRequestV1) -> (r: Result<
        CombatRandom,
        SimError,
    >)
        ensures
            match request.random {
                Some(RandomConfigV1::Seeded { seed }) => match seed {
                    JsonValue::String(s) => r matches Ok(CombatRandom::Seeded(g)) && g.state()
                        == spec_hash_seed(s@) && g.draws() == 0,
                    _ => r matches Err(e) && refusal(
                        scope,
                        e,
                        worded(
                            scope,
                            "M2 seeded RNG requires a string seed for JavaScript parity"@,
                            "M3D seeded RNG requires a string seed for JavaScript parity"@,
                        ),
                    ),
                },
                Some(RandomConfigV1::Sequence { values, loop_values }) => {
                    &&& (r is Ok <==> values@.len() > 0 && all_unit_values(values@))
                    &&& r matches Ok(c) ==> c matches CombatRandom::Sequence(q) && q.wf()
                        && q.values() == values@ && q.looping() == loop_values && q.draws() == 0
                    &&& r matches Err(e) ==> random_error(
                        RandomConfigV1::Sequence { values, loop_values },
                        e,
                    )
                },
                _ => r matches Err(e) && refusal(
                    scope,
                    e,
                    worded(
                        scope,
                        "M2 requires a deterministic seeded or sequence random source"@,
                        "M3D requires a deterministic seeded or sequence random source"@,
                    ),
                ),
            },
    {
        match &request.random {
            Some(RandomConfigV1::Seeded { seed }) => match seed {
                JsonValue::String(s) => Ok(CombatRandom::Seeded(SeededRandom::from_seed_text(s.as_str()))),
                _ => Err(
                    refuse(
                        scope,
                        "M2 seeded RNG requires a string seed for JavaScript parity",
                        "M3D seeded RNG requires a string seed for JavaScript parity",
                    ),
                ),
            },
            Some(RandomConfigV1::Sequence { values, loop_values }) => {
                let copy = values.clone();
                assert(copy@ =~= values@);
                match SequenceRandom::new(copy, *loop_values) {
                    Ok(q) => Ok(CombatRandom::Sequence(q)),
                    Err(e) => Err(e),
                }
            },
            _ => Err(
                refuse(
                    scope,
                    "M2 requires a deterministic seeded or sequence random source",
                    "M3D requires a deterministic seeded or sequence random source",
                ),
            ),
        }
    }

    /// Draws the next unit value, as its binary64 pattern. A seeded source
    /// always yields one; a sequence source yields its next value or, once
    /// a non-looping sequence is exhausted, `RandomSequenceExhausted`
    /// without counting a draw.
    pub fn next_unit_f64(&mut self) -> (r: Result<u64, SimError>)
        requires
            old(self).wf(),
            old(self).draws() < u64::MAX,
        ensures
            final(self).wf(),
            match *old(self) {
                CombatRandom::Seeded(g) => *final(self) matches CombatRandom::Seeded(h) && h.state()
                    == add32(g.state(), MULBERRY_INCREMENT) && h.draws() == g.draws() + 1
                    && (r matches Ok(b) && unit_pattern(mulberry32_output(h.state()), b)),
                CombatRandom::Sequence(q) => *final(self) matches CombatRandom::Sequence(p)
                    && p.values() == q.values() && p.looping() == q.looping() && match sequence_draw(
                    q.values(),
                    q.looping(),
                    q.draws() as nat,
                ) {
                    Some(v) => r == Ok::<u64, SimError>(v) && p.draws() == q.draws() + 1,
                    None => r == Err::<u64, SimError>(
                        SimError::RandomSequenceExhausted { draws: q.draws() },
                    ) && p.draws() == q.draws(),
                },
            },
    {
        match self {
            CombatRandom::Seeded(g) => Ok(g.next_unit_f64()),
            CombatRandom::Sequence(q) => q.next_unit_f64(),
        }
    }

    /// How many values have been drawn.
    pub fn draw_count(&self) -> (r: u64)
        ensures
            r == self.draws(),
    {
        match self {
            CombatRandom::Seeded(g) => g.draw_count(),
            CombatRandom::Sequence(q) => q.draw_count(),
        }
    }
}

/// The combat style and damage type a monster fights with in the
/// direct-damage engine: the first entry of `combatStyleHrids`, which must
/// be a string, and `damageType`. A monster whose stats are not an object,
/// or that lacks either, is refused, in that order.
pub fn direct_monster_style(data: &CombatMonsterDataV1) -> (r: Result<(String, String), SimError>)
    ensures
        !data.combat_stats.is_object ==> (r matches Err(e) && refusal(
            CombatScope::DirectDamage,
            e,
            data.hrid@ + " combatStats must be an object"@,
        )),
        data.combat_stats.is_object && data.combat_stats.leading_style is None ==> (r matches Err(e)
            && refusal(CombatScope::DirectDamage, e, data.hrid@ + " requires one combat style"@)),
        data.combat_stats.is_object && data.combat_stats.leading_style is Some
            && data.combat_stats.damage_type is None ==> (r matches Err(e) && refusal(
            CombatScope::DirectDamage,
            e,
            data.hrid@ + " requires a damage type"@,
        )),
        data.combat_stats.is_object ==> match (data.combat_stats.leading_style, data.combat_stats.damage_type) {
            (Some(style), Some(damage)) => r matches Ok(pair) && pair.0@ == style@ && pair.1@ == damage@,
            _ => r is Err,
        },
{
    let stats = &data.combat_stats;
    if !stats.is_object {
        return Err(unsupported(CombatScope::DirectDamage, concat(data.hrid.as_str(), " combatStats must be an object")));
    }
    match &stats.leading_style {
        None => Err(unsupported(CombatScope::DirectDamage, concat(data.hrid.as_str(), " requires one combat style"))),
        Some(style) => match &stats.damage_type {
            None => Err(unsupported(CombatScope::DirectDamage, concat(data.hrid.as_str(), " requires a damage type"))),
            Some(damage) => Ok((style.clone(), damage.clone())),
        },
    }
}

} // verus!
