//! What holds of the decimal exponent for every bit pattern.
use crate::exponent::{
    below_rounded_pow10, binary_scale, decimal_exponent, exponent_field, fraction, is_nonfinite,
    is_zero, lemma_exponent_from_range, lemma_exponent_from_spans, nonneg, scaled_pow10,
    scaled_value, significand, value_below_pow10, lemma_rounded_below_is_below,
};
use crate::bignum::{lemma_pow10_adds, lemma_pow10_pos, pow10};
use crate::format::Format;
use crate::{abs, digit_count, exponent_digits};
use vstd::arithmetic::power2::{
    lemma2_to64, lemma2_to64_rest, lemma_pow2_adds, lemma_pow2_pos, lemma_pow2_strictly_increases,
    pow2,
};
use vstd::prelude::*;

verus! {

/// Where the powers of two that bound each format's values stand among the
/// powers of ten.
proof fn lemma_power_bounds()
    ensures
        pow2(1075) < 3 * pow10(324),
        pow2(1024) < pow10(309),
        pow2(150) < 3 * pow10(45),
        pow2(128) < pow10(39),
{
    lemma2_to64();
    lemma2_to64_rest();
    reveal_with_fuel(pow10, 3);
    assert(pow10(1) == 10);
    lemma_pow10_adds(1, 1);
    assert(pow10(2) == 100);
    lemma_pow10_adds(2, 2);
    assert(pow10(4) == 10000);
    lemma_pow10_adds(4, 4);
    assert(pow10(8) == 100000000);
    lemma_pow10_adds(8, 8);
    assert(pow10(16) == 10000000000000000);
    lemma_pow10_adds(16, 16);
    assert(pow10(32) == 100000000000000000000000000000000);
    lemma_pow10_adds(32, 32);
    assert(pow10(64) == 10000000000000000000000000000000000000000000000000000000000000000);
    lemma_pow10_adds(64, 64);
    assert(pow10(128) == 100000000000000000000000000000000000000000000000000000000000000000000000000000000000000000000000000000000000000000000000000000000);
    lemma_pow10_adds(128, 128);
    assert(pow10(256) == 10000000000000000000000000000000000000000000000000000000000000000000000000000000000000000000000000000000000000000000000000000000000000000000000000000000000000000000000000000000000000000000000000000000000000000000000000000000000000000000000000000000000000000);
    lemma_pow10_adds(256, 64);
    assert(pow10(320) == 100000000000000000000000000000000000000000000000000000000000000000000000000000000000000000000000000000000000000000000000000000000000000000000000000000000000000000000000000000000000000000000000000000000000000000000000000000000000000000000000000000000000000000000000000000000000000000000000000000000000000000000000000000000);
    lemma_pow10_adds(320, 4);
    assert(pow10(324) == 1000000000000000000000000000000000000000000000000000000000000000000000000000000000000000000000000000000000000000000000000000000000000000000000000000000000000000000000000000000000000000000000000000000000000000000000000000000000000000000000000000000000000000000000000000000000000000000000000000000000000000000000000000000000000);
    lemma_pow10_adds(256, 32);
    assert(pow10(288) == 1000000000000000000000000000000000000000000000000000000000000000000000000000000000000000000000000000000000000000000000000000000000000000000000000000000000000000000000000000000000000000000000000000000000000000000000000000000000000000000000000000000000000000000000000000000000000000000000000);
    lemma_pow10_adds(288, 16);
    assert(pow10(304) == 10000000000000000000000000000000000000000000000000000000000000000000000000000000000000000000000000000000000000000000000000000000000000000000000000000000000000000000000000000000000000000000000000000000000000000000000000000000000000000000000000000000000000000000000000000000000000000000000000000000000000000);
    lemma_pow10_adds(304, 4);
    assert(pow10(308) == 100000000000000000000000000000000000000000000000000000000000000000000000000000000000000000000000000000000000000000000000000000000000000000000000000000000000000000000000000000000000000000000000000000000000000000000000000000000000000000000000000000000000000000000000000000000000000000000000000000000000000000000);
    lemma_pow10_adds(308, 1);
    assert(pow10(309) == 1000000000000000000000000000000000000000000000000000000000000000000000000000000000000000000000000000000000000000000000000000000000000000000000000000000000000000000000000000000000000000000000000000000000000000000000000000000000000000000000000000000000000000000000000000000000000000000000000000000000000000000000);
    lemma_pow10_adds(32, 8);
    assert(pow10(40) == 10000000000000000000000000000000000000000);
    lemma_pow10_adds(40, 4);
    assert(pow10(44) == 100000000000000000000000000000000000000000000);
    lemma_pow10_adds(44, 1);
    assert(pow10(45) == 1000000000000000000000000000000000000000000000);
    lemma_pow10_adds(32, 4);
    assert(pow10(36) == 1000000000000000000000000000000000000);
    lemma_pow10_adds(36, 2);
    assert(pow10(38) == 100000000000000000000000000000000000000);
    lemma_pow10_adds(38, 1);
    assert(pow10(39) == 1000000000000000000000000000000000000000);
    lemma_pow2_adds(64, 64);
    assert(pow2(128) == 340282366920938463463374607431768211456);
    lemma_pow2_adds(128, 128);
    assert(pow2(256) == 115792089237316195423570985008687907853269984665640564039457584007913129639936);
    lemma_pow2_adds(256, 256);
    assert(pow2(512) == 13407807929942597099574024998205846127479365820592393377723561443721764030073546976801874298166903427690031858186486050853753882811946569946433649006084096);
    lemma_pow2_adds(512, 512);
    assert(pow2(1024) == 179769313486231590772930519078902473361797697894230657273430081157732675805500963132708477322407536021120113879871393357658789768814416622492847430639474124377767893424865485276302219601246094119453082952085005768838150682342462881473913110540827237163350510684586298239947245938479716304835356329624224137216);
    lemma_pow2_adds(1024, 51);
    assert(pow2(1075) == 404804506614621236704990693437834614099113299528284236713802716054860679135990693783920767402874248990374155728633623822779617474771586953734026799881477019843034848553132722728933815484186432682479535356945490137124014966849385397236206711298319112681620113024717539104666829230461005064372655017292012526615415482186989568);
    lemma_pow2_adds(128, 22);
    assert(pow2(150) == 1427247692705959881058285969449495136382746624);
}

proof fn lemma_pow2_le(a: nat, b: nat)
    requires
        a <= b,
    ensures
        pow2(a) <= pow2(b),
{
    if a < b {
        lemma_pow2_strictly_increases(a, b);
    }
}

/// A midpoint n · 2^s with n >= 3 and s >= -lo lies above 10^-k.
proof fn lemma_above_least_power(n: nat, s: int, k: nat, lo: nat)
    requires
        n >= 3,
        s >= -lo,
        pow2(lo) < 3 * pow10(k),
    ensures
        scaled_value(n, s, -k) > scaled_pow10(s, -k),
{
    lemma_pow10_pos(k);
    assert(nonneg(-(-k)) == k);
    assert(nonneg(-k) == 0);
    assert(pow10(0) == 1);
    if s >= 0 {
        lemma_pow2_pos(s as nat);
        assert(nonneg(-s) == 0);
        assert(pow2(0) == 1) by {
            lemma2_to64();
        }
        assert(n * pow2(s as nat) * pow10(k) >= 3) by (nonlinear_arith)
            requires
                n >= 3,
                pow2(s as nat) >= 1,
                pow10(k) >= 1,
        ;
        assert(scaled_value(n, s, -k) == n * pow2(s as nat) * pow10(k));
        assert(scaled_pow10(s, -k) == 1);
    } else {
        assert(nonneg(s) == 0);
        assert(pow2(0) == 1) by {
            lemma2_to64();
        }
        lemma_pow2_le((-s) as nat, lo);
        assert(n * pow10(k) >= 3 * pow10(k)) by (nonlinear_arith)
            requires
                n >= 3,
        ;
        assert(scaled_value(n, s, -k) == n * 1 * pow10(k));
        assert(scaled_pow10(s, -k) == 1 * pow2((-s) as nat));
    }
}

/// A midpoint n · 2^s with n < 2^nb and s <= smax lies below 10^k.
proof fn lemma_below_greatest_power(n: nat, s: int, k: nat, nb: nat, smax: nat)
    requires
        n < pow2(nb),
        s <= smax,
        pow2(nb + smax) < pow10(k),
    ensures
        scaled_value(n, s, k as int) < scaled_pow10(s, k as int),
{
    assert(nonneg(k as int) == k);
    assert(nonneg(-k) == 0);
    assert(pow10(0) == 1);
    assert(pow2(0) == 1) by {
        lemma2_to64();
    }
    if s >= 0 {
        assert(nonneg(-s) == 0);
        lemma_pow2_adds(nb, s as nat);
        lemma_pow2_le(nb + s as nat, nb + smax);
        lemma_pow2_pos(s as nat);
        assert(n * pow2(s as nat) < pow2(nb) * pow2(s as nat)) by (nonlinear_arith)
            requires
                n < pow2(nb),
                pow2(s as nat) >= 1,
        ;
        assert(scaled_value(n, s, k as int) == n * pow2(s as nat) * 1);
        assert(scaled_pow10(s, k as int) == pow10(k) * 1);
    } else {
        assert(nonneg(s) == 0);
        lemma_pow2_le(nb, nb + smax);
        lemma_pow2_pos((-s) as nat);
        assert(pow10(k) * pow2((-s) as nat) >= pow10(k)) by (nonlinear_arith)
            requires
                pow2((-s) as nat) >= 1,
        ;
        assert(scaled_value(n, s, k as int) == n * 1 * 1);
        assert(scaled_pow10(s, k as int) == pow10(k) * pow2((-s) as nat));
    }
}

/// Every finite nonzero value lies at or above 10^min_e10 and below
/// 10^(max_e10 + 1), both rounded to its format.
pub proof fn lemma_exp10_within_format(f: Format, bits: u64)
    requires
        f.wf(),
        !is_zero(f, bits),
        !is_nonfinite(f, bits),
    ensures
        !below_rounded_pow10(significand(f, bits), binary_scale(f, bits), f.min_e10 as int),
        below_rounded_pow10(significand(f, bits), binary_scale(f, bits), f.max_e10 + 1),
{
    let sig = significand(f, bits);
    let scale = binary_scale(f, bits);
    let n = 2 * sig + 1;
    let s = scale - 1;
    let field = exponent_field(f, bits);
    let frac = fraction(f, bits);
    lemma_power_bounds();
    lemma2_to64();
    lemma2_to64_rest();
    if f == Format::spec_binary64() {
        assert((bits >> 52) & 0x7ff <= 0x7ff) by (bit_vector);
        assert(bits & 0xf_ffff_ffff_ffff <= 0xf_ffff_ffff_ffff) by (bit_vector);
        assert(bits & 0x7fff_ffff_ffff_ffff != 0 && (bits >> 52) & 0x7ff == 0 ==> bits
            & 0xf_ffff_ffff_ffff != 0) by (bit_vector);
        assert(n < pow2(54));
        assert(s <= 970);
        lemma_above_least_power(n, s, 324, 1075);
        lemma_below_greatest_power(n, s, 309, 54, 970);
    } else {
        assert((bits >> 23) & 0xff <= 0xff) by (bit_vector);
        assert(bits & 0x7f_ffff <= 0x7f_ffff) by (bit_vector);
        assert(bits & 0x7fff_ffff != 0 && (bits >> 23) & 0xff == 0 ==> bits & 0x7f_ffff != 0)
            by (bit_vector);
        assert(n < pow2(25));
        assert(s <= 103);
        lemma_above_least_power(n, s, 45, 150);
        lemma_below_greatest_power(n, s, 39, 25, 103);
    }
}

/// For finite nonzero x, e = exp10(x) is floor(log10(|x|)) against powers of
/// ten rounded to x's format: 10^e so rounded is at most |x|, and 10^(e + 1)
/// so rounded lies above |x|. The result always lies within the format's
/// range of decimal exponents.
pub proof fn lemma_exp10_brackets(f: Format, bits: u64)
    requires
        f.wf(),
        !is_zero(f, bits),
        !is_nonfinite(f, bits),
    ensures
        ({
            let e = decimal_exponent(f, bits);
            let sig = significand(f, bits);
            let scale = binary_scale(f, bits);
            &&& f.min_e10 <= e <= f.max_e10
            &&& !below_rounded_pow10(sig, scale, e)
            &&& below_rounded_pow10(sig, scale, e + 1)
        }),
{
    let sig = significand(f, bits);
    let scale = binary_scale(f, bits);
    lemma_exponent_from_range(sig, scale, f.min_e10 as int, f.max_e10 as int);
    lemma_exponent_from_spans(sig, scale, f.min_e10 as int, f.max_e10 as int);
    lemma_exp10_within_format(f, bits);
}

/// For finite nonzero x, |x| < 10^(exp10(x) + 1) exactly, with the power of
/// ten not rounded.
pub proof fn lemma_exp10_below_next_power(f: Format, bits: u64)
    requires
        f.wf(),
        !is_zero(f, bits),
        !is_nonfinite(f, bits),
    ensures
        value_below_pow10(significand(f, bits), binary_scale(f, bits), decimal_exponent(f, bits) + 1),
{
    lemma_exp10_brackets(f, bits);
    lemma_rounded_below_is_below(
        significand(f, bits),
        binary_scale(f, bits),
        decimal_exponent(f, bits) + 1,
    );
}

/// exp10(x) == exp10(-x), and the same of the digit count: the sign bit
/// takes no part.
pub proof fn lemma_exp10_sign_independent(f: Format, bits: u64)
    requires
        f.wf(),
    ensures
        decimal_exponent(f, bits ^ f.sign_bit) == decimal_exponent(f, bits),
        exponent_digits(f, bits ^ f.sign_bit) == exponent_digits(f, bits),
{
    let nb = bits ^ f.sign_bit;
    if f == Format::spec_binary64() {
        assert((nb >> 52) & 0x7ff == (bits >> 52) & 0x7ff) by (bit_vector)
            requires
                nb == bits ^ 0x8000_0000_0000_0000u64,
        ;
        assert(nb & 0xf_ffff_ffff_ffff == bits & 0xf_ffff_ffff_ffff) by (bit_vector)
            requires
                nb == bits ^ 0x8000_0000_0000_0000u64,
        ;
        assert(nb & 0x7fff_ffff_ffff_ffff == bits & 0x7fff_ffff_ffff_ffff) by (bit_vector)
            requires
                nb == bits ^ 0x8000_0000_0000_0000u64,
        ;
    } else {
        assert((nb >> 23) & 0xff == (bits >> 23) & 0xff) by (bit_vector)
            requires
                nb == bits ^ 0x8000_0000u64,
        ;
        assert(nb & 0x7f_ffff == bits & 0x7f_ffff) by (bit_vector)
            requires
                nb == bits ^ 0x8000_0000u64,
        ;
        assert(nb & 0x7fff_ffff == bits & 0x7fff_ffff) by (bit_vector)
            requires
                nb == bits ^ 0x8000_0000u64,
        ;
    }
    assert(exponent_field(f, nb) == exponent_field(f, bits));
    assert(fraction(f, nb) == fraction(f, bits));
    assert(is_zero(f, nb) == is_zero(f, bits));
}

/// Zero of either sign, the infinities and NaN all give the sentinel 0, for
/// the exponent and for its digit count.
pub proof fn lemma_exp10_sentinel(f: Format, bits: u64)
    requires
        f.wf(),
        is_zero(f, bits) || is_nonfinite(f, bits),
    ensures
        decimal_exponent(f, bits) == 0,
        exponent_digits(f, bits) == 0,
{
}

/// For finite nonzero x the digit count is that of |exp10(x)|, where an
/// exponent of 0 counts one digit.
pub proof fn lemma_exp10_digit_count(f: Format, bits: u64)
    requires
        f.wf(),
        !is_zero(f, bits),
        !is_nonfinite(f, bits),
    ensures
        exponent_digits(f, bits) == digit_count(abs(decimal_exponent(f, bits))),
        digit_count(0) == 1,
{
}

} // verus!
