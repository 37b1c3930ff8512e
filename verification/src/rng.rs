//! Deterministic random sources: a Mulberry32 generator seeded from a
//! string's UTF-16 code units, and an explicit sequence of values.
use vstd::prelude::*;

use crate::error::SimError;
use crate::float_bits;
use crate::json::JsonValue;
use crate::whole::FRACTION_SCALE;
use vstd::arithmetic::power2::pow2;

verus! {

/// The FNV-1a offset basis.
pub const FNV_OFFSET_BASIS: u32 = 2_166_136_261;

/// The FNV-1a prime.
pub const FNV_PRIME: u32 = 16_777_619;

/// The Mulberry32 increment, also the seed used in place of a zero hash.
pub const MULBERRY_INCREMENT: u32 = 0x6d2b_79f5;

/// `x + y` modulo 2^32.
pub open spec fn add32(x: u32, y: u32) -> u32 {
    ((x as nat + y as nat) % 0x1_0000_0000) as u32
}

/// `x * y` modulo 2^32.
pub open spec fn mul32(x: u32, y: u32) -> u32 {
    ((x as nat * y as nat) % 0x1_0000_0000) as u32
}

/// The UTF-16 code units of one character.
pub open spec fn utf16_of_char(c: char) -> Seq<u16> {
    let v = c as u32;
    if v < 0x1_0000 {
        seq![v as u16]
    } else {
        seq![
            (0xD800 + (v - 0x1_0000) / 0x400) as u16,
            (0xDC00 + (v - 0x1_0000) % 0x400) as u16,
        ]
    }
}

/// The UTF-16 encoding of a string: its code units.
pub open spec fn utf16_of(s: Seq<char>) -> Seq<u16>
    decreases s.len(),
{
    if s.len() == 0 {
        Seq::empty()
    } else {
        utf16_of(s.drop_last()) + utf16_of_char(s.last())
    }
}

/// One FNV-1a step over a UTF-16 code unit.
pub open spec fn fnv_step(hash: u32, unit: u16) -> u32 {
    mul32(hash ^ (unit as u32), FNV_PRIME)
}

/// FNV-1a over a sequence of code units.
pub open spec fn fnv1a(units: Seq<u16>) -> u32
    decreases units.len(),
{
    if units.len() == 0 {
        FNV_OFFSET_BASIS
    } else {
        fnv_step(fnv1a(units.drop_last()), units.last())
    }
}

/// The generator state a seed string gives: FNV-1a over its UTF-16 code
/// units, with a zero hash replaced by the Mulberry32 increment.
pub open spec fn spec_hash_seed(seed: Seq<char>) -> u32 {
    let h = fnv1a(utf16_of(seed));
    if h == 0 {
        MULBERRY_INCREMENT
    } else {
        h
    }
}

/// The Mulberry32 output for an (already advanced) state.
pub open spec fn mulberry32_output(state: u32) -> u32 {
    let a = mul32(state ^ (state >> 15u32), state | 1u32);
    let b = a ^ add32(a, mul32(a ^ (a >> 7u32), a | 61u32));
    b ^ (b >> 14u32)
}

/// The state after `k` draws from `state`.
pub open spec fn state_after(state: u32, k: nat) -> u32
    decreases k,
{
    if k == 0 {
        state
    } else {
        add32(state_after(state, (k - 1) as nat), MULBERRY_INCREMENT)
    }
}

/// Appends the UTF-16 code units of `c` to the running hash.
fn hash_char(hash: u32, c: char) -> (r: u32)
    ensures
        r == fnv1a_from(hash, utf16_of_char(c)),
{
    let v = c as u32;
    if v < 0x1_0000 {
        let unit = v as u16;
        let r = (hash ^ (unit as u32)).wrapping_mul(FNV_PRIME);
        proof {
            let units = utf16_of_char(c);
            assert(units =~= seq![unit]);
            assert(units.drop_last() =~= Seq::<u16>::empty());
            assert(fnv1a_from(hash, units.drop_last()) == hash);
            assert(fnv1a_from(hash, units) == fnv_step(hash, unit));
        }
        r
    } else {
        let high = (0xD800 + (v - 0x1_0000) / 0x400) as u16;
        let low = (0xDC00 + (v - 0x1_0000) % 0x400) as u16;
        let h1 = (hash ^ (high as u32)).wrapping_mul(FNV_PRIME);
        let r = (h1 ^ (low as u32)).wrapping_mul(FNV_PRIME);
        proof {
            let units = utf16_of_char(c);
            assert(units =~= seq![high, low]);
            assert(units.drop_last() =~= seq![high]);
            assert(units.drop_last().drop_last() =~= Seq::<u16>::empty());
            assert(fnv1a_from(hash, units.drop_last().drop_last()) == hash);
            assert(fnv1a_from(hash, units.drop_last()) == fnv_step(hash, high));
            assert(fnv1a_from(hash, units) == fnv_step(fnv_step(hash, high), low));
        }
        r
    }
}

/// FNV-1a over `units`, starting from `start` instead of the offset basis.
pub open spec fn fnv1a_from(start: u32, units: Seq<u16>) -> u32
    decreases units.len(),
{
    if units.len() == 0 {
        start
    } else {
        fnv_step(fnv1a_from(start, units.drop_last()), units.last())
    }
}

proof fn lemma_fnv1a_from_concat(start: u32, a: Seq<u16>, b: Seq<u16>)
    ensures
        fnv1a_from(start, a + b) == fnv1a_from(fnv1a_from(start, a), b),
    decreases b.len(),
{
    if b.len() == 0 {
        assert(a + b =~= a);
    } else {
        lemma_fnv1a_from_concat(start, a, b.drop_last());
        assert((a + b).drop_last() =~= a + b.drop_last());
        assert((a + b).last() == b.last());
    }
}

proof fn lemma_fnv1a_is_from_basis(units: Seq<u16>)
    ensures
        fnv1a(units) == fnv1a_from(FNV_OFFSET_BASIS, units),
    decreases units.len(),
{
    if units.len() > 0 {
        lemma_fnv1a_is_from_basis(units.drop_last());
    }
}

/// The seed hash: FNV-1a over the UTF-16 code units of `seed`, never zero.
pub fn hash_seed(seed: &str) -> (r: u32)
    ensures
        r == spec_hash_seed(seed@),
        r != 0,
{
    let mut hash: u32 = FNV_OFFSET_BASIS;
    for c in it: seed.chars()
        invariant
            it.seq() == seed@,
            hash == fnv1a_from(FNV_OFFSET_BASIS, utf16_of(seed@.take(it.index() as int))),
    {
        proof {
            lemma_utf16_of_take(seed@, it.index() as int);
            lemma_fnv1a_from_concat(
                FNV_OFFSET_BASIS,
                utf16_of(seed@.take(it.index() as int)),
                utf16_of_char(c),
            );
        }
        hash = hash_char(hash, c);
    }
    proof {
        assert(seed@.take(seed@.len() as int) =~= seed@);
        lemma_fnv1a_is_from_basis(utf16_of(seed@));
    }
    if hash == 0 {
        MULBERRY_INCREMENT
    } else {
        hash
    }
}

proof fn lemma_utf16_of_take(s: Seq<char>, i: int)
    requires
        0 <= i < s.len(),
    ensures
        utf16_of(s.take(i + 1)) == utf16_of(s.take(i)) + utf16_of_char(s[i]),
{
    assert(s.take(i + 1).drop_last() =~= s.take(i));
}

/// `bits` is the binary64 pattern of the unit value `output / 2^32`: zero
/// for a zero output, and otherwise the positive normal number whose
/// significand `2^52 + f` (with `f` the fraction field) equals
/// `output * 2^(1043 - e)` (with `e` the biased exponent), so that its
/// value `(2^52 + f) * 2^(e - 1075)` is exactly `output / 2^32`.
pub open spec fn unit_pattern(output: u32, bits: u64) -> bool {
    if output == 0 {
        bits == 0
    } else {
        let e = bits / FRACTION_SCALE;
        let f = bits % FRACTION_SCALE;
        &&& bits < 0x8000_0000_0000_0000
        &&& 0 < e <= 1043
        &&& FRACTION_SCALE + f == output * pow2((1043 - e) as nat)
    }
}

/// The binary64 pattern of `output / 2^32`: the one pattern that meets
/// `unit_pattern` (see `law_unit_pattern_is_unique`).
pub open spec fn unit_value_bits(output: u32) -> u64 {
    choose|bits: u64| unit_pattern(output, bits)
}

/// A unit value has one binary64 pattern: two patterns that both meet
/// `unit_pattern` for the same output are equal.
pub proof fn law_unit_pattern_is_unique(output: u32, a: u64, b: u64)
    requires
        unit_pattern(output, a),
        unit_pattern(output, b),
    ensures
        a == b,
{
    if output != 0 {
        let ea = a / FRACTION_SCALE;
        let fa = a % FRACTION_SCALE;
        let eb = b / FRACTION_SCALE;
        let fb = b % FRACTION_SCALE;
        assert(pow2(52) == FRACTION_SCALE as nat) by {
            vstd::arithmetic::power2::lemma2_to64();
            vstd::arithmetic::power2::lemma_pow2_adds(32, 20);
        }
        assert(ea == eb) by {
            if ea != eb {
                lemma_exponents_agree(output, ea, fa, eb, fb);
                lemma_exponents_agree(output, eb, fb, ea, fa);
            }
        }
        assert(fa == fb);
        assert(a == ea * FRACTION_SCALE + fa) by (nonlinear_arith)
            requires
                ea == a / FRACTION_SCALE,
                fa == a % FRACTION_SCALE,
        ;
        assert(b == eb * FRACTION_SCALE + fb) by (nonlinear_arith)
            requires
                eb == b / FRACTION_SCALE,
                fb == b % FRACTION_SCALE,
        ;
    }
}

/// Of two exponents that both scale `output` into `[2^52, 2^53)`, the
/// first is not smaller than the second.
proof fn lemma_exponents_agree(output: u32, e1: u64, f1: u64, e2: u64, f2: u64)
    requires
        pow2(52) == FRACTION_SCALE as nat,
        f1 < FRACTION_SCALE,
        f2 < FRACTION_SCALE,
        e1 <= 1043,
        e2 <= 1043,
        FRACTION_SCALE + f1 == output * pow2((1043 - e1) as nat),
        FRACTION_SCALE + f2 == output * pow2((1043 - e2) as nat),
    ensures
        e1 >= e2,
{
    if e1 < e2 {
        let small = (1043 - e2) as nat;
        let d = (e2 - e1) as nat;
        vstd::arithmetic::power2::lemma_pow2_adds(small, d);
        assert((1043 - e1) as nat == small + d);
        vstd::arithmetic::power2::lemma_pow2_pos(small);
        assert(pow2(d) >= 2) by {
            vstd::arithmetic::power2::lemma_pow2_unfold(d);
            vstd::arithmetic::power2::lemma_pow2_pos((d - 1) as nat);
        }
        let x = output * pow2(small);
        assert(output * pow2(small + d) == x * pow2(d)) by (nonlinear_arith)
            requires
                pow2(small + d) == pow2(small) * pow2(d),
                x == output * pow2(small),
        ;
        assert(x * pow2(d) >= 2 * x) by (nonlinear_arith)
            requires
                pow2(d) >= 2,
                x >= 0,
        ;
    }
}

/// The binary64 pattern of `output / 2^32`, which is exact: an output has
/// at most 32 significant bits.
pub fn unit_bits(output: u32) -> (bits: u64)
    ensures
        unit_pattern(output, bits),
        bits == unit_value_bits(output),
        float_bits::spec_in_unit_interval(bits),
{
    if output == 0 {
        proof {
            assert(unit_pattern(output, 0));
            law_unit_pattern_is_unique(output, 0, unit_value_bits(output));
        }
        return 0;
    }
    let o = output as u64;
    proof {
        vstd::arithmetic::power2::lemma2_to64();
    }
    let mut p: u64 = 31;
    while p > 0 && (o >> p) == 0
        invariant
            0 < o < 0x1_0000_0000,
            p <= 31,
            o < pow2((p + 1) as nat),
        decreases p,
    {
        proof {
            vstd::bits::lemma_u64_shr_is_div(o, p);
            vstd::arithmetic::power2::lemma_pow2_pos(p as nat);
            assert(o < pow2(p as nat)) by {
                if o >= pow2(p as nat) {
                    vstd::arithmetic::div_mod::lemma_div_is_ordered(pow2(p as nat) as int, o as int, pow2(p as nat) as int);
                    vstd::arithmetic::div_mod::lemma_div_by_self(pow2(p as nat) as int);
                }
            }
        }
        p = p - 1;
    }
    proof {
        vstd::arithmetic::power2::lemma2_to64();
        if p == 31 {
            assert(o < pow2(32));
        }
        if p > 0 {
            vstd::bits::lemma_u64_shr_is_div(o, p);
            vstd::arithmetic::power2::lemma_pow2_pos(p as nat);
            assert(o >= pow2(p as nat)) by {
                if o < pow2(p as nat) {
                    vstd::arithmetic::div_mod::lemma_basic_div(o as int, pow2(p as nat) as int);
                }
            }
        }
    }
    let shift = 52 - p;
    proof {
        vstd::arithmetic::power2::lemma_pow2_adds(p as nat, shift as nat);
        vstd::arithmetic::power2::lemma_pow2_adds((p + 1) as nat, shift as nat);
        vstd::arithmetic::power2::lemma_pow2_unfold(53);
        vstd::arithmetic::power2::lemma_pow2_adds(32, 20);
        assert(pow2(52) == FRACTION_SCALE as nat);
        assert(pow2(53) == 2 * FRACTION_SCALE as nat);
        assert(o * pow2(shift as nat) >= pow2(p as nat) * pow2(shift as nat)) by (nonlinear_arith)
            requires
                o >= pow2(p as nat),
        ;
        assert(o * pow2(shift as nat) < pow2((p + 1) as nat) * pow2(shift as nat)) by (nonlinear_arith)
            requires
                o < pow2((p + 1) as nat),
                pow2(shift as nat) > 0,
        ;
        vstd::arithmetic::power2::lemma_pow2_pos(shift as nat);
        vstd::bits::lemma_u64_shl_is_mul(o, shift);
    }
    let m = o << shift;
    let f = m - FRACTION_SCALE;
    let e = 991 + p;
    let bits = (e << 52u64) | f;
    assert(bits / 0x10_0000_0000_0000u64 == e && bits % 0x10_0000_0000_0000u64 == f
        && bits < 0x3FF0_0000_0000_0000u64) by (bit_vector)
        requires
            bits == (e << 52u64) | f,
            f < 0x10_0000_0000_0000u64,
            991 <= e < 1023,
    ;
    proof {
        assert(unit_pattern(output, bits));
        law_unit_pattern_is_unique(output, bits, unit_value_bits(output));
    }
    bits
}

/// Mulberry32 seeded with the FNV-1a hash of a seed string's UTF-16 code
/// units.
#[derive(Clone, Debug)]
pub struct SeededRandom {
    state: u32,
    draw_count: u64,
}

impl SeededRandom {
    /// The current generator state.
    pub closed spec fn state(self) -> u32 {
        self.state
    }

    /// How many values have been drawn.
    pub closed spec fn draws(self) -> u64 {
        self.draw_count
    }

    /// A generator seeded from a JSON seed. A string seeds with its text;
    /// any other value is refused, since only string seeds reproduce the
    /// reference generator exactly.
    pub fn from_seed(seed: &JsonValue) -> (r: Result<SeededRandom, SimError>)
        ensures
            seed matches JsonValue::String(s) ==> (r matches Ok(g) && g.state() == spec_hash_seed(
                s@,
            ) && g.draws() == 0),
            !(seed is String) ==> r == Err::<SeededRandom, SimError>(SimError::NonStringSeed),
    {
        match seed {
            JsonValue::String(s) => Ok(SeededRandom::from_seed_text(s.as_str())),
            _ => Err(SimError::NonStringSeed),
        }
    }

    /// A generator whose state is the hash of `seed`.
    pub fn from_seed_text(seed: &str) -> (r: SeededRandom)
        ensures
            r.state() == spec_hash_seed(seed@),
            r.draws() == 0,
    {
        SeededRandom { state: hash_seed(seed), draw_count: 0 }
    }

    /// Advances the generator and returns the 32-bit Mulberry32 output.
    fn next_output(&mut self) -> (r: u32)
        requires
            old(self).draws() < u64::MAX,
        ensures
            final(self).state() == add32(old(self).state(), MULBERRY_INCREMENT),
            final(self).draws() == old(self).draws() + 1,
            r == mulberry32_output(final(self).state()),
    {
        self.draw_count = self.draw_count + 1;
        self.state = self.state.wrapping_add(MULBERRY_INCREMENT);
        let state = self.state;
        let a = (state ^ (state >> 15u32)).wrapping_mul(state | 1u32);
        let b = a ^ a.wrapping_add((a ^ (a >> 7u32)).wrapping_mul(a | 61u32));
        b ^ (b >> 14u32)
    }

    /// Draws the next unit value: the Mulberry32 output of the advanced
    /// state divided by 2^32, as its binary64 pattern.
    pub fn next_unit_f64(&mut self) -> (r: u64)
        requires
            old(self).draws() < u64::MAX,
        ensures
            final(self).state() == add32(old(self).state(), MULBERRY_INCREMENT),
            final(self).draws() == old(self).draws() + 1,
            r == unit_value_bits(mulberry32_output(final(self).state())),
            unit_pattern(mulberry32_output(final(self).state()), r),
            float_bits::spec_in_unit_interval(r),
    {
        let output = self.next_output();
        unit_bits(output)
    }

    /// How many values have been drawn.
    pub fn draw_count(&self) -> (r: u64)
        ensures
            r == self.draws(),
    {
        self.draw_count
    }
}

/// The value of draw number `k` (counting from zero) from a sequence:
/// `None` when a non-looping sequence is exhausted.
pub open spec fn sequence_draw(values: Seq<u64>, looping: bool, k: nat) -> Option<u64> {
    if k < values.len() {
        Some(values[k as int])
    } else if looping && values.len() > 0 {
        Some(values[(k % values.len()) as int])
    } else {
        None
    }
}

/// Whether every value is a finite number in `[0, 1)`.
pub open spec fn all_unit_values(values: Seq<u64>) -> bool {
    forall|i: int| 0 <= i < values.len() ==> float_bits::spec_in_unit_interval(#[trigger] values[i])
}

/// The first value outside `[0, 1)`, by position.
pub open spec fn first_invalid_value(values: Seq<u64>, k: int) -> bool {
    &&& 0 <= k < values.len()
    &&& !float_bits::spec_in_unit_interval(values[k])
    &&& forall|i: int| 0 <= i < k ==> float_bits::spec_in_unit_interval(#[trigger] values[i])
}

/// Checks that `value` is a finite number in `[0, 1)`.
pub fn validate_unit_value(value: u64) -> (r: Result<(), SimError>)
    ensures
        r is Ok <==> float_bits::spec_in_unit_interval(value),
        r matches Err(e) ==> e == SimError::InvalidRandomValue(value),
{
    if !float_bits::in_unit_interval(value) {
        return Err(SimError::InvalidRandomValue(value));
    }
    Ok(())
}

/// An explicit sequence of unit values (held as binary64 bit patterns),
/// drawn in order, either once or looping.
#[derive(Clone, Debug)]
pub struct SequenceRandom {
    values: Vec<u64>,
    index: usize,
    draw_count: u64,
    loop_values: bool,
}

impl SequenceRandom {
    /// The values, in draw order.
    pub closed spec fn values(self) -> Seq<u64> {
        self.values@
    }

    /// Whether the sequence restarts once exhausted.
    pub closed spec fn looping(self) -> bool {
        self.loop_values
    }

    /// How many values have been drawn.
    pub closed spec fn draws(self) -> u64 {
        self.draw_count
    }

    /// The internal invariant.
    pub closed spec fn wf(self) -> bool {
        let n = self.values@.len();
        &&& n > 0
        &&& all_unit_values(self.values@)
        &&& self.index <= n
        &&& if self.loop_values {
            if self.draw_count == 0 {
                self.index == 0
            } else {
                self.index == (self.draw_count - 1) as nat % n + 1
            }
        } else {
            self.index == self.draw_count
        }
    }

    /// A sequence source. Refuses an empty sequence and any value that is
    /// not a finite number in `[0, 1)` (the first such value is reported).
    pub fn new(values: Vec<u64>, loop_values: bool) -> (r: Result<SequenceRandom, SimError>)
        ensures
            r is Ok <==> values@.len() > 0 && all_unit_values(values@),
            r matches Ok(s) ==> s.wf() && s.values() == values@ && s.looping() == loop_values
                && s.draws() == 0,
            r matches Err(e) ==> (e == SimError::EmptyRandomSequence <==> values@.len() == 0),
            r matches Err(e) ==> values@.len() == 0 || exists|k: int|
                first_invalid_value(values@, k) && e == SimError::InvalidRandomValue(
                    values@[k],
                ),
    {
        if values.len() == 0 {
            return Err(SimError::EmptyRandomSequence);
        }
        let mut i: usize = 0;
        while i < values.len()
            invariant
                0 <= i <= values@.len(),
                forall|j: int| 0 <= j < i ==> float_bits::spec_in_unit_interval(#[trigger] values@[j]),
            decreases values@.len() - i,
        {
            let value = values[i];
            match validate_unit_value(value) {
                Ok(()) => {},
                Err(e) => {
                    assert(first_invalid_value(values@, i as int));
                    return Err(e);
                },
            }
            i = i + 1;
        }
        Ok(SequenceRandom { values, index: 0, draw_count: 0, loop_values })
    }

    /// Draws the next unit value, as its binary64 pattern. A non-looping
    /// sequence that is exhausted reports `RandomSequenceExhausted` with the
    /// number of draws made, and the draw count does not change.
    pub fn next_unit_f64(&mut self) -> (r: Result<u64, SimError>)
        requires
            old(self).wf(),
            old(self).draws() < u64::MAX,
        ensures
            final(self).wf(),
            final(self).values() == old(self).values(),
            final(self).looping() == old(self).looping(),
            match sequence_draw(old(self).values(), old(self).looping(), old(self).draws() as nat) {
                Some(v) => r == Ok::<u64, SimError>(v) && final(self).draws() == old(self).draws()
                    + 1,
                None => r == Err::<u64, SimError>(
                    SimError::RandomSequenceExhausted { draws: old(self).draws() },
                ) && final(self).draws() == old(self).draws(),
            },
    {
        let ghost n = self.values@.len() as int;
        let ghost d = self.draw_count as int;
        if self.index >= self.values.len() {
            if !self.loop_values {
                return Err(SimError::RandomSequenceExhausted { draws: self.draw_count });
            }
            self.index = 0;
        }
        let value = self.values[self.index];
        proof {
            if self.loop_values {
                if d > 0 && old(self).index < n {
                    assert((d - 1) % n + 1 < n);
                    assert(d % n == (d - 1) % n + 1) by (nonlinear_arith)
                        requires
                            n > 0,
                            d > 0,
                            (d - 1) % n + 1 < n,
                    ;
                } else if d > 0 {
                    assert(d % n == 0) by (nonlinear_arith)
                        requires
                            n > 0,
                            d > 0,
                            (d - 1) % n + 1 == n,
                    ;
                }
                if d < n {
                    assert(d % n == d) by (nonlinear_arith)
                        requires
                            0 <= d < n,
                    ;
                }
            }
        }
        self.index = self.index + 1;
        self.draw_count = self.draw_count + 1;
        proof {
            if self.loop_values {
                assert(self.draw_count - 1 == d);
                assert(d % n < n) by (nonlinear_arith)
                    requires
                        n > 0,
                ;
            }
        }
        Ok(value)
    }

    /// How many values have been drawn.
    pub fn draw_count(&self) -> (r: u64)
        ensures
            r == self.draws(),
    {
        self.draw_count
    }
}

/// A looping sequence restarts in the same order: draw `k + n` equals draw
/// `k`, where `n` is the sequence's length.
pub proof fn law_looping_sequence_repeats(values: Seq<u64>, k: nat)
    requires
        values.len() > 0,
    ensures
        sequence_draw(values, true, k + values.len()) == sequence_draw(values, true, k),
{
    let n = values.len();
    assert((k + n) % n == k % n) by (nonlinear_arith)
        requires
            n > 0,
    ;
    if k < n {
        assert(k % n == k) by (nonlinear_arith)
            requires
                k < n,
        ;
    }
}

/// A non-looping sequence of length `n` yields its values in order and then
/// nothing: draws `0..n` are the values and every later draw is exhausted.
pub proof fn law_finite_sequence_exhausts(values: Seq<u64>, k: nat)
    ensures
        k < values.len() ==> sequence_draw(values, false, k) == Some(values[k as int]),
        k >= values.len() ==> sequence_draw(values, false, k) is None,
{
}

/// The seeded generator walks a Weyl sequence: after `k` draws its state
/// is the starting state plus `k` times the Mulberry32 increment, modulo
/// 2^32. (Each draw's output is `mulberry32_output` of that state, so a seed
/// fixes every value a run draws.)
pub proof fn law_seeded_state_after_draws(state: u32, k: nat)
    ensures
        state_after(state, k) as int == (state as int + k * MULBERRY_INCREMENT as int)
            % 0x1_0000_0000,
    decreases k,
{
    if k == 0 {
        assert((state as int) % 0x1_0000_0000 == state as int);
    } else {
        law_seeded_state_after_draws(state, (k - 1) as nat);
        let c = MULBERRY_INCREMENT as int;
        let prev = state as int + (k - 1) * c;
        let m = 0x1_0000_0000int;
        assert(state as int + k * c == prev + c) by (nonlinear_arith)
            requires
                prev == state as int + (k - 1) * c,
        ;
        vstd::arithmetic::div_mod::lemma_add_mod_noop(prev, c, m);
        vstd::arithmetic::div_mod::lemma_small_mod(c as nat, m as nat);
    }
}

/// The value of the `k`th draw (counting from zero) of a generator that
/// starts in `state`.
pub open spec fn seeded_draw(state: u32, k: nat) -> u64 {
    unit_value_bits(mulberry32_output(state_after(state, k + 1)))
}

/// One draw as `next_unit_f64` states it: the state advances by the
/// increment and the value is the unit pattern of the new state's output.
pub open spec fn draw_step(before: u32, after: u32, value: u64) -> bool {
    after == add32(before, MULBERRY_INCREMENT) && value == unit_value_bits(mulberry32_output(after))
}

/// A seeded generator's draws depend on its starting state alone: along any
/// run of draws (each step as `next_unit_f64` states it), the `i`th value is
/// `seeded_draw` of the starting state, so two generators made from equal
/// seeds draw equal sequences.
pub proof fn law_seeded_draws_follow_the_seed(states: Seq<u32>, draws: Seq<u64>)
    requires
        states.len() == draws.len() + 1,
        forall|i: int|
            0 <= i < draws.len() ==> #[trigger] draw_step(states[i], states[i + 1], draws[i]),
    ensures
        forall|i: int|
            0 <= i < draws.len() ==> #[trigger] draws[i] == seeded_draw(states[0], i as nat),
        forall|i: int| 0 <= i < states.len() ==> #[trigger] states[i] == state_after(states[0], i as nat),
{
    assert forall|i: int| 0 <= i < states.len() implies #[trigger] states[i] == state_after(
        states[0],
        i as nat,
    ) by {
        lemma_states_follow(states, draws, i);
    }
    assert forall|i: int| 0 <= i < draws.len() implies #[trigger] draws[i] == seeded_draw(
        states[0],
        i as nat,
    ) by {
        lemma_states_follow(states, draws, i + 1);
        assert(draw_step(states[i], states[i + 1], draws[i]));
    }
}

proof fn lemma_states_follow(states: Seq<u32>, draws: Seq<u64>, i: int)
    requires
        states.len() == draws.len() + 1,
        forall|j: int|
            0 <= j < draws.len() ==> #[trigger] draw_step(states[j], states[j + 1], draws[j]),
        0 <= i < states.len(),
    ensures
        states[i] == state_after(states[0], i as nat),
    decreases i,
{
    if i > 0 {
        lemma_states_follow(states, draws, i - 1);
        let j = i - 1;
        assert(draw_step(states[j], states[j + 1], draws[j]));
        assert(j + 1 == i);
    }
}

} // verus!
