//! The decimal exponent `floor(log10(|x|))` of a binary floating-point value:
//! what it is, and how it is found from the bit pattern.
use crate::bignum::{compare, from_u64, mul_pow10, mul_pow2, pow10, val};
use crate::format::Format;
use vstd::arithmetic::div_mod::lemma_hoist_over_denominator;
use vstd::arithmetic::power2::{lemma2_to64, pow2};
use vstd::prelude::*;

verus! {

/// The raw exponent field.
pub open spec fn exponent_field(f: Format, bits: u64) -> u64 {
    (bits >> f.mantissa_bits) & f.exponent_mask
}

/// The stored significand bits.
pub open spec fn fraction(f: Format, bits: u64) -> u64 {
    bits & f.fraction_mask
}

/// Plus or minus zero.
pub open spec fn is_zero(f: Format, bits: u64) -> bool {
    bits & f.magnitude_mask == 0
}

/// An infinity or a NaN.
pub open spec fn is_nonfinite(f: Format, bits: u64) -> bool {
    exponent_field(f, bits) == f.exponent_mask
}

/// The whole significand: |x| == significand · 2^binary_scale.
pub open spec fn significand(f: Format, bits: u64) -> nat {
    if exponent_field(f, bits) == 0 {
        fraction(f, bits) as nat
    } else {
        (fraction(f, bits) + f.hidden_bit) as nat
    }
}

/// The power of two that scales the significand.
pub open spec fn binary_scale(f: Format, bits: u64) -> int {
    if exponent_field(f, bits) == 0 {
        f.subnormal_offset()
    } else {
        exponent_field(f, bits) - f.bias - f.mantissa_bits
    }
}

pub open spec fn nonneg(i: int) -> nat {
    if i >= 0 {
        i as nat
    } else {
        0
    }
}

/// n · 2^s, brought to a natural by multiplying both sides of n · 2^s vs 10^e
/// by 2^-s and 10^-e where those are whole.
pub open spec fn scaled_value(n: nat, s: int, e: int) -> nat {
    n * pow2(nonneg(s)) * pow10(nonneg(-e))
}

/// 10^e, brought to a natural in the same way as `scaled_value`.
pub open spec fn scaled_pow10(s: int, e: int) -> nat {
    pow10(nonneg(e)) * pow2(nonneg(-s))
}

/// Whether the value sig · 2^scale lies below 10^e once 10^e is rounded to
/// the nearest value of the format, ties to an even significand. That is so
/// when the midpoint (2·sig + 1) · 2^(scale - 1) between the value and its
/// successor lies below 10^e, or on it while sig is odd.
pub open spec fn below_rounded_pow10(sig: nat, scale: int, e: int) -> bool {
    let n = 2 * sig + 1;
    let s = scale - 1;
    scaled_value(n, s, e) < scaled_pow10(s, e) || (scaled_value(n, s, e) == scaled_pow10(s, e)
        && sig % 2 == 1)
}

/// Whether sig · 2^scale < 10^e, exactly.
pub open spec fn value_below_pow10(sig: nat, scale: int, e: int) -> bool {
    scaled_value(sig, scale, e) < scaled_pow10(scale, e)
}

/// A value below a rounded power of ten lies below the power itself.
pub proof fn lemma_rounded_below_is_below(sig: nat, scale: int, e: int)
    requires
        below_rounded_pow10(sig, scale, e),
    ensures
        value_below_pow10(sig, scale, e),
{
    let n = 2 * sig + 1;
    let s = scale - 1;
    let a = pow10(nonneg(-e));
    let b = pow10(nonneg(e));
    crate::bignum::lemma_pow10_pos(nonneg(-e));
    crate::bignum::lemma_pow10_pos(nonneg(e));
    if scale >= 1 {
        lemma2_to64();
        let p = pow2(nonneg(s));
        vstd::arithmetic::power2::lemma_pow2_pos(nonneg(s));
        vstd::arithmetic::power2::lemma_pow2_unfold(nonneg(scale));
        assert(nonneg(scale) == nonneg(s) + 1);
        assert(nonneg(-s) == 0 && nonneg(-scale) == 0);
        assert(pow2(nonneg(scale)) == 2 * p);
        assert(sig * (2 * p) * a < b * pow2(0)) by (nonlinear_arith)
            requires
                n * p * a <= b * pow2(0),
                n == 2 * sig + 1,
                p >= 1,
                a >= 1,
        ;
    } else {
        let q = pow2(nonneg(-scale));
        lemma2_to64();
        vstd::arithmetic::power2::lemma_pow2_unfold(nonneg(-s));
        assert(nonneg(-s) == nonneg(-scale) + 1);
        assert(nonneg(s) == 0 && nonneg(scale) == 0);
        assert(pow2(nonneg(-s)) == 2 * q);
        assert(sig * pow2(0) * a < b * q) by (nonlinear_arith)
            requires
                n * pow2(0) * a <= b * (2 * q),
                n == 2 * sig + 1,
                pow2(0) == 1,
                a >= 1,
        ;
    }
}

/// The least decimal exponent d in [e, max] whose next power of ten lies
/// above the value, or max where there is none.
pub open spec fn exponent_from(sig: nat, scale: int, e: int, max: int) -> int
    decreases max - e,
{
    if e >= max || below_rounded_pow10(sig, scale, e + 1) {
        e
    } else {
        exponent_from(sig, scale, e + 1, max)
    }
}

/// floor(log10(|x|)), against powers of ten rounded to the format; 0 for
/// zero, the infinities and NaN.
pub open spec fn decimal_exponent(f: Format, bits: u64) -> int {
    if is_zero(f, bits) || is_nonfinite(f, bits) {
        0
    } else {
        exponent_from(
            significand(f, bits),
            binary_scale(f, bits),
            f.min_e10 as int,
            f.max_e10 as int,
        )
    }
}

/// round(e2 · log10 2), from the fixed-point approximation
/// 1292913986 / 2^32 of log10 2, which rounds alike for |e2| <= 2000.
pub open spec fn decimal_estimate(e2: int) -> int {
    (e2 * 1292913986 + 2147483648) / 4294967296
}

/// floor(log2(x)) for x >= 1.
pub open spec fn floor_log2(x: nat) -> nat
    decreases x,
{
    if x <= 1 {
        0
    } else {
        1 + floor_log2(x / 2)
    }
}

proof fn lemma_floor_log2_bound(x: nat, k: nat)
    requires
        1 <= x < pow2(k),
    ensures
        floor_log2(x) < k,
    decreases x,
{
    vstd::arithmetic::power2::lemma2_to64();
    if k == 0 {
        assert(pow2(0) == 1);
    } else {
        vstd::arithmetic::power2::lemma_pow2_unfold(k);
        if x > 1 {
            lemma_floor_log2_bound(x / 2, (k - 1) as nat);
        }
    }
}

pub proof fn lemma_below_step(sig: nat, scale: int, e: int)
    requires
        below_rounded_pow10(sig, scale, e),
    ensures
        below_rounded_pow10(sig, scale, e + 1),
{
    let n = 2 * sig + 1;
    let s = scale - 1;
    let a = n * pow2(nonneg(s));
    let p = pow2(nonneg(-s));
    vstd::arithmetic::power2::lemma_pow2_pos(nonneg(s));
    vstd::arithmetic::power2::lemma_pow2_pos(nonneg(-s));
    assert(a >= 1) by (nonlinear_arith)
        requires
            n >= 1,
            pow2(nonneg(s)) >= 1,
            a == n * pow2(nonneg(s)),
    ;
    if e >= 0 {
        let t = pow10(nonneg(e));
        crate::bignum::lemma_pow10_pos(nonneg(e));
        assert(nonneg(e + 1) == nonneg(e) + 1);
        assert(pow10(nonneg(e + 1)) == 10 * t);
        assert(scaled_value(n, s, e) == scaled_value(n, s, e + 1));
        assert(scaled_pow10(s, e + 1) == 10 * t * p);
        assert(a * pow10(0) <= t * p ==> a * pow10(0) < 10 * t * p) by (nonlinear_arith)
            requires
                t >= 1,
                p >= 1,
        ;
    } else {
        let k = nonneg(-e);
        assert(k >= 1);
        assert(nonneg(-(e + 1)) == (k - 1) as nat);
        let q = pow10((k - 1) as nat);
        crate::bignum::lemma_pow10_pos((k - 1) as nat);
        assert(pow10(k) == 10 * q);
        assert(nonneg(e) == 0 && nonneg(e + 1) == 0);
        assert(scaled_pow10(s, e) == scaled_pow10(s, e + 1));
        assert(a * (10 * q) <= pow10(0) * p ==> a * q < pow10(0) * p) by (nonlinear_arith)
            requires
                a >= 1,
                q >= 1,
        ;
    }
}

pub proof fn lemma_below_monotone(sig: nat, scale: int, e1: int, e2: int)
    requires
        below_rounded_pow10(sig, scale, e1),
        e1 <= e2,
    ensures
        below_rounded_pow10(sig, scale, e2),
    decreases e2 - e1,
{
    if e1 < e2 {
        lemma_below_step(sig, scale, e1);
        lemma_below_monotone(sig, scale, e1 + 1, e2);
    }
}

/// A bracketed exponent is the one that `exponent_from` finds.
proof fn lemma_exponent_from_bracket(sig: nat, scale: int, e: int, r: int, min: int, max: int)
    requires
        min <= e <= r <= max,
        r == min || !below_rounded_pow10(sig, scale, r),
        r == max || below_rounded_pow10(sig, scale, r + 1),
    ensures
        exponent_from(sig, scale, e, max) == r,
    decreases r - e,
{
    if e < r {
        if below_rounded_pow10(sig, scale, e + 1) {
            lemma_below_monotone(sig, scale, e + 1, r);
        }
        lemma_exponent_from_bracket(sig, scale, e + 1, r, min, max);
    }
}

pub proof fn lemma_exponent_from_range(sig: nat, scale: int, e: int, max: int)
    requires
        e <= max,
    ensures
        e <= exponent_from(sig, scale, e, max) <= max,
    decreases max - e,
{
    if e < max && !below_rounded_pow10(sig, scale, e + 1) {
        lemma_exponent_from_range(sig, scale, e + 1, max);
    }
}

/// What `exponent_from` finds is bracketed: not below its own power of ten,
/// unless it is e, and below the next, unless it is max.
pub proof fn lemma_exponent_from_spans(sig: nat, scale: int, e: int, max: int)
    requires
        e <= max,
    ensures
        ({
            let r = exponent_from(sig, scale, e, max);
            &&& r == e || !below_rounded_pow10(sig, scale, r)
            &&& r == max || below_rounded_pow10(sig, scale, r + 1)
        }),
    decreases max - e,
{
    if e < max && !below_rounded_pow10(sig, scale, e + 1) {
        lemma_exponent_from_spans(sig, scale, e + 1, max);
        let r = exponent_from(sig, scale, e + 1, max);
        lemma_exponent_from_range(sig, scale, e + 1, max);
    }
}

/// Whether sig · 2^scale lies below 10^e rounded to the format, decided by an
/// exact comparison of naturals.
pub fn rounds_below_pow10(sig: u64, scale: i32, e: i32) -> (r: bool)
    requires
        sig < 0x4000_0000_0000_0000,
        -2000 <= scale <= 2000,
        -2000 <= e <= 2000,
    ensures
        r == below_rounded_pow10(sig as nat, scale as int, e as int),
{
    let n: u64 = 2 * sig + 1;
    let s: i32 = scale - 1;
    let s_up: u32 = if s >= 0 {
        s as u32
    } else {
        0
    };
    let s_down: u32 = if s >= 0 {
        0
    } else {
        (-s) as u32
    };
    let e_up: u32 = if e >= 0 {
        e as u32
    } else {
        0
    };
    let e_down: u32 = if e >= 0 {
        0
    } else {
        (-e) as u32
    };
    let lhs = mul_pow10(&mul_pow2(&from_u64(n), s_up), e_down);
    let rhs = mul_pow2(&mul_pow10(&from_u64(1), e_up), s_down);
    let c = compare(&lhs, &rhs);
    proof {
        assert(s_up as nat == nonneg(s as int) && s_down as nat == nonneg(-s));
        assert(e_up as nat == nonneg(e as int) && e_down as nat == nonneg(-e));
        assert(val(lhs@) == scaled_value(n as nat, s as int, e as int));
        assert(val(rhs@) == scaled_pow10(s as int, e as int));
    }
    c == -1 || (c == 0 && sig % 2 == 1)
}

/// round(e2 · log10 2), a first guess at the decimal exponent of a value
/// whose binary exponent is e2.
pub fn exp2_to_exp10(e2: i32) -> (r: i32)
    requires
        -2000 <= e2 <= 2000,
    ensures
        r == decimal_estimate(e2 as int),
{
    let t: i64 = (e2 as i64) * 1292913986 + 2147483648 + 4294967296 * 1000;
    let q: i64 = t / 4294967296;
    proof {
        lemma_hoist_over_denominator(e2 * 1292913986 + 2147483648, 1000, 4294967296);
    }
    (q - 1000) as i32
}

/// floor(log2(x)): the position of the highest set bit.
pub fn ilog2(x: u64) -> (r: u32)
    requires
        x >= 1,
    ensures
        r == floor_log2(x as nat),
{
    let mut v: u64 = x;
    let mut r: u32 = 0;
    proof {
        vstd::arithmetic::power2::lemma2_to64();
        lemma_floor_log2_bound(x as nat, 64);
    }
    while v > 1
        invariant
            v >= 1,
            r + floor_log2(v as nat) == floor_log2(x as nat),
            floor_log2(x as nat) < 64,
        decreases v,
    {
        v = v / 2;
        r = r + 1;
    }
    r
}

/// The guess at the decimal exponent of a subnormal value (exponent field
/// zero), from the position of its highest significand bit.
pub fn subnormal_exponent(f: &Format, bits: u64) -> (r: i32)
    requires
        f.wf(),
        fraction(*f, bits) != 0,
    ensures
        r == decimal_estimate(f.subnormal_offset() + floor_log2(fraction(*f, bits) as nat)),
{
    let mantissa = bits & f.fraction_mask;
    let high = ilog2(mantissa);
    proof {
        let m = f.fraction_mask;
        assert(bits & m <= m) by (bit_vector);
        vstd::arithmetic::power2::lemma2_to64();
        vstd::arithmetic::power2::lemma2_to64_rest();
        if *f == Format::spec_binary64() {
            assert(pow2(52) == 0x10_0000_0000_0000);
        } else {
            assert(pow2(23) == 0x80_0000);
        }
        assert(f.fraction_mask < pow2(f.mantissa_bits as nat));
        lemma_floor_log2_bound(mantissa as nat, f.mantissa_bits as nat);
    }
    let offset: i32 = 1 - f.bias - (f.mantissa_bits as i32);
    exp2_to_exp10(offset + high as i32)
}

/// The decimal exponent of the value with bit pattern `bits` in format `f`:
/// the binary exponent gives a first guess, round(e2 · log10 2), and one
/// comparison with that power of ten corrects it. The result is then
/// confirmed against the neighbouring powers of ten. The guess is within one
/// of the answer, so that step finds the bracket already in place; the proof
/// does not rely on the guess, only on the exact comparisons.
pub fn exp10_of_bits(f: &Format, bits: u64) -> (r: i32)
    requires
        f.wf(),
    ensures
        r == decimal_exponent(*f, bits),
        f.min_e10 <= r <= f.max_e10,
{
    if bits & f.magnitude_mask == 0 {
        return 0;
    }
    let field = (bits >> f.mantissa_bits) & f.exponent_mask;
    if field == f.exponent_mask {
        return 0;
    }
    let frac = bits & f.fraction_mask;
    proof {
        let m = f.fraction_mask;
        let em = f.exponent_mask;
        let sh = f.mantissa_bits;
        assert(bits & m <= m) by (bit_vector);
        assert((bits >> sh) & em <= em) by (bit_vector);
    }
    let mbits = f.mantissa_bits as i32;
    let sig: u64;
    let scale: i32;
    let estimate: i32;
    if field == 0 {
        proof {
            if *f == Format::spec_binary64() {
                assert(bits & 0x7fff_ffff_ffff_ffff != 0 && (bits >> 52) & 0x7ff == 0 ==> bits
                    & 0xf_ffff_ffff_ffff != 0) by (bit_vector);
            } else {
                assert(bits & 0x7fff_ffff != 0 && (bits >> 23) & 0xff == 0 ==> bits & 0x7f_ffff
                    != 0) by (bit_vector);
            }
        }
        sig = frac;
        scale = 1 - f.bias - mbits;
        estimate = subnormal_exponent(f, bits);
    } else {
        sig = frac + f.hidden_bit;
        scale = field as i32 - f.bias - mbits;
        estimate = exp2_to_exp10(field as i32 - f.bias);
    }
    let ghost gsig = significand(*f, bits);
    let ghost gscale = binary_scale(*f, bits);
    assert(sig == gsig && scale == gscale);
    let mut e10 = estimate;
    if f.min_e10 <= e10 && e10 <= f.max_e10 && rounds_below_pow10(sig, scale, e10) {
        e10 = e10 - 1;
    }
    if e10 < f.min_e10 {
        e10 = f.min_e10;
    }
    if e10 > f.max_e10 {
        e10 = f.max_e10;
    }
    while e10 > f.min_e10 && rounds_below_pow10(sig, scale, e10)
        invariant
            f.wf(),
            sig == gsig,
            scale == gscale,
            sig < 0x4000_0000_0000_0000,
            -2000 <= scale <= 2000,
            f.min_e10 <= e10 <= f.max_e10,
        decreases e10 - f.min_e10,
    {
        e10 = e10 - 1;
    }
    while e10 < f.max_e10 && !rounds_below_pow10(sig, scale, e10 + 1)
        invariant
            f.wf(),
            sig == gsig,
            scale == gscale,
            sig < 0x4000_0000_0000_0000,
            -2000 <= scale <= 2000,
            f.min_e10 <= e10 <= f.max_e10,
            e10 == f.min_e10 || !below_rounded_pow10(gsig, gscale, e10 as int),
        decreases f.max_e10 - e10,
    {
        e10 = e10 + 1;
    }
    proof {
        lemma_exponent_from_bracket(
            gsig,
            gscale,
            f.min_e10 as int,
            e10 as int,
            f.min_e10 as int,
            f.max_e10 as int,
        );
    }
    e10
}

} // verus!
