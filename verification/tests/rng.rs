use std::collections::BTreeMap;

use mwi_sim_core::combat_scope::{CombatRandom, CombatScope};
use mwi_sim_core::rng::unit_bits;
use mwi_sim_core::json::JsonValue;
use mwi_sim_core::rng::hash_seed;
use mwi_sim_core::{
    RandomConfigV1, SeededRandom, SequenceRandom, SimError, SimTime, SimulationOptionsV1,
    SimulationRequestV1, SimulationTargetV1,
};

fn seeded_request(seed: JsonValue) -> SimulationRequestV1 {
    SimulationRequestV1 {
        contract_version: 1,
        request_id: "seeded".into(),
        data_version: "repository-v1.0.28".into(),
        players: vec![JsonValue::empty_object()],
        target: SimulationTargetV1::Zone {
            zone_hrid: "/actions/combat/fly".into(),
            difficulty_tier: 0,
            extensions: BTreeMap::new(),
        },
        simulation_time_limit: SimTime::new(1.0f64.to_bits()).unwrap(),
        random: Some(RandomConfigV1::Seeded { seed }),
        options: SimulationOptionsV1::default(),
        extensions: BTreeMap::new(),
    }
}

fn unit(output: u32) -> f64 {
    f64::from(output) / 4_294_967_296.0
}

fn next(rng: &mut SeededRandom) -> f64 {
    f64::from_bits(rng.next_unit_f64())
}

fn bits(values: &[f64]) -> Vec<u64> {
    values.iter().map(|v| v.to_bits()).collect()
}

#[test]
fn seeded_rng_matches_reference_javascript_values() {
    let mut rng = SeededRandom::from_seed_text("fixture-a");
    let actual = (0..5).map(|_| next(&mut rng)).collect::<Vec<_>>();
    let expected = vec![
        0.931_052_014_464_512_5,
        0.429_355_571_279_302_24,
        0.412_502_722_349_017_86,
        0.971_877_912_990_748_9,
        0.858_559_500_426_054,
    ];

    assert_eq!(actual, expected);
    assert_eq!(rng.draw_count(), 5);
}

#[test]
fn seed_hash_uses_javascript_utf16_code_units() {
    let mut left = SeededRandom::from_seed_text("fixture-😀");
    let request = seeded_request(JsonValue::String("fixture-😀".into()));
    let mut right = match CombatRandom::from_request(CombatScope::Basic, &request).unwrap() {
        CombatRandom::Seeded(g) => g,
        CombatRandom::Sequence(_) => unreachable!(),
    };
    assert_eq!(left.next_unit_f64(), right.next_unit_f64());

    let mut hash: u32 = 2_166_136_261;
    for unit in "fixture-😀".encode_utf16() {
        hash ^= u32::from(unit);
        hash = hash.wrapping_mul(16_777_619);
    }
    assert_eq!(hash_seed("fixture-😀"), hash);
}

#[test]
fn finite_sequence_exhausts_without_incrementing_the_draw_count() {
    let mut rng = SequenceRandom::new(bits(&[0.1, 0.2]), false).unwrap();
    assert_eq!(f64::from_bits(rng.next_unit_f64().unwrap()), 0.1);
    assert_eq!(f64::from_bits(rng.next_unit_f64().unwrap()), 0.2);
    assert!(matches!(
        rng.next_unit_f64(),
        Err(SimError::RandomSequenceExhausted { draws: 2 })
    ));
    assert_eq!(rng.draw_count(), 2);
}

#[test]
fn looping_sequence_restarts_in_the_same_order() {
    let mut rng = SequenceRandom::new(bits(&[0.3, 0.4]), true).unwrap();
    assert_eq!(f64::from_bits(rng.next_unit_f64().unwrap()), 0.3);
    assert_eq!(f64::from_bits(rng.next_unit_f64().unwrap()), 0.4);
    assert_eq!(f64::from_bits(rng.next_unit_f64().unwrap()), 0.3);
    assert_eq!(rng.draw_count(), 3);
}

#[test]
fn sequences_refuse_empty_and_out_of_range_values() {
    assert!(matches!(SequenceRandom::new(Vec::new(), true), Err(SimError::EmptyRandomSequence)));
    assert_eq!(
        SequenceRandom::new(bits(&[0.5, 1.0, f64::NAN]), false).err(),
        Some(SimError::InvalidRandomValue(1.0f64.to_bits()))
    );
    assert_eq!(
        SequenceRandom::new(bits(&[-0.25]), false).err(),
        Some(SimError::InvalidRandomValue((-0.25f64).to_bits()))
    );
    assert!(SequenceRandom::new(bits(&[-0.0, 0.999]), false).is_ok());
}

#[test]
fn empty_seed_hashes_to_the_fnv_offset_basis() {
    assert_eq!(hash_seed(""), 2_166_136_261);
    assert_eq!(hash_seed("a"), (2_166_136_261u32 ^ 97).wrapping_mul(16_777_619));
}

#[test]
fn seeded_state_advances_by_the_weyl_increment() {
    let mut a = SeededRandom::from_seed_text("replay");
    let mut b = SeededRandom::from_seed_text("replay");
    let first: Vec<u64> = (0..8).map(|_| a.next_unit_f64()).collect();
    let second: Vec<u64> = (0..8).map(|_| b.next_unit_f64()).collect();
    assert_eq!(first, second);
    assert_eq!(a.draw_count(), 8);
}

#[test]
fn combat_random_draws_from_its_source() {
    let mut seq = CombatRandom::Sequence(SequenceRandom::new(bits(&[0.75]), false).unwrap());
    assert_eq!(seq.next_unit_f64(), Ok(0.75f64.to_bits()));
    assert_eq!(seq.draw_count(), 1);
    assert_eq!(seq.next_unit_f64(), Err(SimError::RandomSequenceExhausted { draws: 1 }));
    let mut seeded = CombatRandom::Seeded(SeededRandom::from_seed_text("fixture-a"));
    assert_eq!(
        seeded.next_unit_f64().map(f64::from_bits),
        Ok(0.931_052_014_464_512_5)
    );
}

#[test]
fn non_string_seeds_are_refused_by_the_engines() {
    let request = seeded_request(JsonValue::Bool(true));
    assert!(matches!(
        CombatRandom::from_request(CombatScope::Basic, &request),
        Err(SimError::UnsupportedBasicCombat(m)) if m == "M2 seeded RNG requires a string seed for JavaScript parity"
    ));
    let mut native = seeded_request(JsonValue::Null);
    native.random = Some(RandomConfigV1::Native);
    assert!(matches!(
        CombatRandom::from_request(CombatScope::DirectDamage, &native),
        Err(SimError::UnsupportedDirectDamageCombat(m)) if m == "M3D requires a deterministic seeded or sequence random source"
    ));
    native.random = None;
    assert!(CombatRandom::from_request(CombatScope::Basic, &native).is_err());
}

fn mulberry32(state: u32) -> u32 {
    let a = (state ^ (state >> 15)).wrapping_mul(state | 1);
    let b = a ^ a.wrapping_add((a ^ (a >> 7)).wrapping_mul(a | 61));
    b ^ (b >> 14)
}

#[test]
fn draw_k_is_mulberry32_of_the_seed_state_advanced_k_plus_one_times() {
    let seed = "fixture-a";
    let start = hash_seed(seed);
    let mut rng = SeededRandom::from_seed_text(seed);
    for k in 0u32..6 {
        let state = start.wrapping_add(0x6d2b_79f5u32.wrapping_mul(k + 1));
        assert_eq!(next(&mut rng), unit(mulberry32(state)));
    }
}

#[test]
fn unit_bits_are_the_exact_quotient() {
    for output in [0u32, 1, 2, 3, 0x8000_0000, 0xFFFF_FFFF, 123_456_789, 0x0001_0000] {
        assert_eq!(unit_bits(output), unit(output).to_bits(), "{output}");
    }
    assert_eq!(f64::from_bits(unit_bits(0x8000_0000)), 0.5);
    assert_eq!(f64::from_bits(unit_bits(1)), 2f64.powi(-32));
}

#[test]
fn from_seed_takes_string_seeds_and_refuses_others() {
    let mut from_json = SeededRandom::from_seed(&JsonValue::String("fly-replay".into())).unwrap();
    let mut from_text = SeededRandom::from_seed_text("fly-replay");
    assert_eq!(from_json.draw_count(), 0);
    for _ in 0..5 {
        assert_eq!(from_json.next_unit_f64(), from_text.next_unit_f64());
    }
    assert!(matches!(SeededRandom::from_seed(&JsonValue::Null), Err(SimError::NonStringSeed)));
    assert!(matches!(SeededRandom::from_seed(&JsonValue::Bool(true)), Err(SimError::NonStringSeed)));
    assert!(matches!(
        SeededRandom::from_seed(&JsonValue::Array(vec![JsonValue::String("a".into())])),
        Err(SimError::NonStringSeed)
    ));
}

#[test]
fn equal_seeds_draw_equal_sequences() {
    let mut a = SeededRandom::from_seed_text("same");
    let mut b = SeededRandom::from_seed_text("same");
    let mut c = SeededRandom::from_seed_text("other");
    let first: Vec<u64> = (0..8).map(|_| a.next_unit_f64()).collect();
    let second: Vec<u64> = (0..8).map(|_| b.next_unit_f64()).collect();
    let third: Vec<u64> = (0..8).map(|_| c.next_unit_f64()).collect();
    assert_eq!(first, second);
    assert_ne!(first, third);
}
