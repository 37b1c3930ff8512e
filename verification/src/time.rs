//! Simulation time: a finite, non-negative number of nanoseconds.
use vstd::prelude::*;

use crate::error::SimError;
use crate::float_bits::{self, NEGATIVE_ZERO_BITS, POSITIVE_INFINITY_BITS};

verus! {

/// A bit pattern that a `SimTime` may hold: finite, non-negative, and not
/// negative zero (which is normalised to `+0.0`).
pub open spec fn valid_time_bits(bits: u64) -> bool {
    bits < POSITIVE_INFINITY_BITS
}

/// Simulation time in nanoseconds, kept as the binary64 bit pattern of the
/// value. Fractional nanoseconds are preserved. Because a time is never
/// negative, times are ordered exactly as their bit patterns are.
#[derive(Clone, Copy, Debug, PartialEq, Eq, PartialOrd, Ord, Hash)]
pub struct SimTime {
    bits: u64,
}

impl View for SimTime {
    type V = u64;

    closed spec fn view(&self) -> u64 {
        self.bits
    }
}

impl SimTime {
    #[verifier::type_invariant]
    spec fn inv(self) -> bool {
        valid_time_bits(self.bits)
    }

    /// The time `0.0`.
    pub fn zero() -> (t: SimTime)
        ensures
            t@ == 0,
    {
        SimTime { bits: 0 }
    }

    /// Accepts the binary64 value whose pattern is `bits` as a time.
    ///
    /// NaN, infinities and negative values are refused with
    /// `InvalidTime(bits)`; `-0.0` becomes `0.0`; every other value is kept
    /// exactly.
    pub fn new(bits: u64) -> (r: Result<SimTime, SimError>)
        ensures
            float_bits::spec_finite_non_negative(bits) <==> r is Ok,
            r matches Ok(t) ==> t@ == (if bits == NEGATIVE_ZERO_BITS { 0 } else { bits }),
            r matches Err(e) ==> e == SimError::InvalidTime(bits),
    {
        if !float_bits::finite_non_negative(bits) {
            return Err(SimError::InvalidTime(bits));
        }
        if bits == NEGATIVE_ZERO_BITS {
            Ok(SimTime { bits: 0 })
        } else {
            Ok(SimTime { bits })
        }
    }

    /// This time, as its binary64 bit pattern.
    pub fn get(self) -> (b: u64)
        ensures
            b == self@,
            valid_time_bits(b),
    {
        proof {
            use_type_invariant(&self);
        }
        self.bits
    }

    /// Whether this time is `0.0`.
    pub fn is_zero(self) -> (r: bool)
        ensures
            r == (self@ == 0),
    {
        self.bits == 0
    }

    /// Whether this time is strictly earlier than `other`.
    pub fn is_before(self, other: SimTime) -> (r: bool)
        ensures
            r == (self@ < other@),
    {
        self.bits < other.bits
    }
}

/// A time built from the pattern of a valid time gives that pattern back,
/// and a valid pattern is accepted: reading a time's bits and building a
/// time from them is the identity.
pub proof fn law_new_round_trip(bits: u64)
    requires
        valid_time_bits(bits),
    ensures
        float_bits::spec_finite_non_negative(bits),
        bits != NEGATIVE_ZERO_BITS,
{
}

/// Times are ordered as the numbers they hold: for two valid patterns,
/// `a < b` as integers exactly when `a < b` as binary64 values, so
/// `is_before` and the derived order compare times numerically.
pub proof fn law_time_order_is_numeric(a: u64, b: u64)
    requires
        valid_time_bits(a),
        valid_time_bits(b),
    ensures
        (a < b) == float_bits::spec_gt(b, a),
        (a == b) == (!float_bits::spec_gt(a, b) && !float_bits::spec_gt(b, a)),
{
}

/// `-0.0` and `+0.0` denote the same time.
pub proof fn law_negative_zero_normalises()
    ensures
        float_bits::spec_finite_non_negative(NEGATIVE_ZERO_BITS),
        float_bits::spec_finite_non_negative(0),
{
}

} // verus!
