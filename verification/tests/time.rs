use mwi_sim_core::{SimError, SimTime};

#[test]
fn rejects_invalid_times_and_normalizes_negative_zero() {
    assert!(matches!(SimTime::new(f64::NAN.to_bits()), Err(SimError::InvalidTime(_))));
    assert!(matches!(
        SimTime::new((-1.0f64).to_bits()),
        Err(SimError::InvalidTime(bits)) if f64::from_bits(bits) == -1.0
    ));
    assert_eq!(SimTime::new((-0.0f64).to_bits()).unwrap(), SimTime::zero());
}

#[test]
fn preserves_fractional_nanoseconds_and_total_ordering() {
    let earlier = SimTime::new(3_000_000_000.25f64.to_bits()).unwrap();
    let later = SimTime::new(3_000_000_000.5f64.to_bits()).unwrap();
    assert!(earlier < later);
    assert!(earlier.is_before(later));

    let encoded = earlier.get();
    assert_eq!(SimTime::new(encoded).unwrap(), earlier);
    assert_eq!(f64::from_bits(encoded), 3_000_000_000.25);
}

#[test]
fn infinities_are_refused() {
    assert_eq!(
        SimTime::new(f64::INFINITY.to_bits()),
        Err(SimError::InvalidTime(f64::INFINITY.to_bits()))
    );
    assert!(SimTime::new(f64::NEG_INFINITY.to_bits()).is_err());
    assert!(SimTime::new(f64::MAX.to_bits()).is_ok());
}

#[test]
fn zero_is_zero_and_before_everything_positive() {
    let zero = SimTime::zero();
    assert!(zero.is_zero());
    assert_eq!(zero.get(), 0);
    let tiny = SimTime::new(f64::from_bits(1).to_bits()).unwrap();
    assert!(zero.is_before(tiny));
    assert!(!tiny.is_before(zero));
    assert!(!zero.is_before(zero));
}
