//! Whole numbers held as binary64 patterns.
use vstd::prelude::*;

use vstd::arithmetic::power2::pow2;

use crate::float_bits::{finite_non_negative, magnitude, magnitude_of, spec_finite_non_negative};

verus! {

/// 2^52: the scale of the fraction field.
pub const FRACTION_SCALE: u64 = 0x10_0000_0000_0000;

/// The number a binary64 pattern denotes when it is finite, not negative
/// and whole (`-0.0` is `0`), or `None`.
///
/// A finite magnitude has biased exponent `e = m / 2^52` and fraction
/// `f = m % 2^52`. With `e == 0` it is `f * 2^-1074`, whole only when zero;
/// otherwise it is `(2^52 + f) * 2^(e - 1075)`.
pub open spec fn spec_whole_value(bits: u64) -> Option<nat> {
    if !spec_finite_non_negative(bits) {
        None
    } else {
        let m = magnitude(bits);
        let e = (m / FRACTION_SCALE) as nat;
        let f = (m % FRACTION_SCALE) as nat;
        if e == 0 {
            if f == 0 {
                Some(0)
            } else {
                None
            }
        } else {
            let s: nat = FRACTION_SCALE as nat + f;
            if e >= 1075 {
                Some(s * pow2((e - 1075) as nat))
            } else if s % pow2((1075 - e) as nat) == 0 {
                Some(s / pow2((1075 - e) as nat))
            } else {
                None
            }
        }
    }
}

/// The whole number `bits` denotes, as `value as u64` converts it (values
/// of 2^64 and more become `u64::MAX`), or `None` when it is not a finite,
/// non-negative whole number.
pub fn whole_value(bits: u64) -> (r: Option<u64>)
    ensures
        r == match spec_whole_value(bits) {
            Some(v) => Some(if v > u64::MAX { u64::MAX } else { v as u64 }),
            None => None::<u64>,
        },
{
    if !finite_non_negative(bits) {
        return None;
    }
    let m = magnitude_of(bits);
    let e = m >> 52u64;
    let f = m & 0xF_FFFF_FFFF_FFFFu64;
    assert(m >> 52u64 == m / 0x10_0000_0000_0000u64) by (bit_vector);
    assert(m & 0xF_FFFF_FFFF_FFFFu64 == m % 0x10_0000_0000_0000u64) by (bit_vector);
    if e == 0 {
        if f == 0 {
            return Some(0);
        }
        return None;
    }
    let s = f + FRACTION_SCALE;
    assert(e < 2047) by (bit_vector)
        requires
            m < 0x7FF0_0000_0000_0000u64,
            e == m / 0x10_0000_0000_0000u64,
    ;
    if e >= 1075 {
        let shift = e - 1075;
        if shift >= 12 {
            proof {
                vstd::arithmetic::power2::lemma2_to64();
                if shift > 12 {
                    vstd::arithmetic::power2::lemma_pow2_strictly_increases(12, shift as nat);
                }
                assert(s * pow2(shift as nat) >= FRACTION_SCALE * pow2(12)) by (nonlinear_arith)
                    requires
                        s >= FRACTION_SCALE,
                        pow2(shift as nat) >= pow2(12),
                ;
            }
            return Some(u64::MAX);
        }
        proof {
            vstd::arithmetic::power2::lemma2_to64();
            if shift < 11 {
                vstd::arithmetic::power2::lemma_pow2_strictly_increases(shift as nat, 11);
            }
            assert(s * pow2(shift as nat) <= u64::MAX) by (nonlinear_arith)
                requires
                    s < 2 * FRACTION_SCALE,
                    pow2(shift as nat) <= pow2(11),
                    pow2(11) == 0x800,
            ;
            vstd::bits::lemma_u64_shl_is_mul(s, shift);
        }
        return Some(s << shift);
    }
    let k = 1075 - e;
    if k >= 53 {
        proof {
            vstd::arithmetic::power2::lemma2_to64();
            vstd::arithmetic::power2::lemma_pow2_adds(32, 21);
            assert(pow2(53) == 0x20_0000_0000_0000nat);
            if k > 53 {
                vstd::arithmetic::power2::lemma_pow2_strictly_increases(53, k as nat);
            }
            vstd::arithmetic::div_mod::lemma_small_mod(s as nat, pow2(k as nat));
        }
        return None;
    }
    proof {
        vstd::bits::lemma_u64_pow2_no_overflow(k as nat);
        vstd::bits::lemma_u64_shl_is_mul(1, k);
        vstd::bits::lemma_u64_low_bits_mask_is_mod(s, k as nat);
        vstd::bits::lemma_u64_shr_is_div(s, k);
    }
    let mask = (1u64 << k) - 1;
    assert(mask == vstd::bits::low_bits_mask(k as nat) as u64);
    if s & mask != 0 {
        return None;
    }
    Some(s >> k)
}

} // verus!
