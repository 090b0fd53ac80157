//! The decimal exponent of a binary floating-point value, computed from its
//! bit pattern with exact integer arithmetic.
//!
//! A value is handed over as its bit pattern, in a `Binary64` or a
//! `Binary32`. Its decimal exponent is `floor(log10(|x|))`, where the powers
//! of ten are taken as rounded to the value's own format; zero, the
//! infinities and NaN give the sentinel 0.
use vstd::prelude::*;

pub mod bignum;
pub mod exponent;
pub mod format;
pub mod laws;

pub use exponent::exp10_of_bits;
pub use format::{Binary32, Binary64, FloatOps, Format};

use exponent::{decimal_exponent, is_nonfinite, is_zero};

verus! {

/// The number of decimal digits needed to write n; 0 takes one.
pub open spec fn digit_count(n: nat) -> nat
    decreases n,
{
    if n < 10 {
        1
    } else {
        1 + digit_count(n / 10)
    }
}

pub open spec fn abs(i: int) -> nat {
    if i >= 0 {
        i as nat
    } else {
        (-i) as nat
    }
}

/// The digit count of the decimal exponent; 0 for zero, the infinities and
/// NaN.
pub open spec fn exponent_digits(f: Format, bits: u64) -> nat {
    if is_zero(f, bits) || is_nonfinite(f, bits) {
        0
    } else {
        digit_count(abs(decimal_exponent(f, bits)))
    }
}

proof fn lemma_digit_count_bound(n: nat)
    ensures
        1 <= digit_count(n) <= n + 1,
    decreases n,
{
    if n >= 10 {
        lemma_digit_count_bound(n / 10);
    }
}

/// The number of decimal digits of |e10|.
pub fn exponent_digit_count(e10: i32) -> (r: u32)
    requires
        e10 > i32::MIN,
    ensures
        r == digit_count(abs(e10 as int)),
{
    let mut v: u32 = if e10 >= 0 {
        e10 as u32
    } else {
        (-e10) as u32
    };
    let ghost a: nat = v as nat;
    let mut c: u32 = 1;
    proof {
        lemma_digit_count_bound(a);
    }
    while v >= 10
        invariant
            c >= 1,
            c + digit_count(v as nat) == digit_count(a) + 1,
            digit_count(a) <= a + 1,
            a < 0x8000_0001,
        decreases v,
    {
        proof {
            lemma_digit_count_bound((v / 10) as nat);
        }
        v = v / 10;
        c = c + 1;
    }
    c
}

/// The digit count of every exponent magnitude that the width `F` reaches:
/// entry i is the number of decimal digits of i.
pub fn exp10_digit_table<F: FloatOps>() -> (r: Vec<u32>)
    ensures
        r@.len() == abs(F::spec_format().min_e10 as int) + 1,
        forall|i: int| 0 <= i < r@.len() ==> #[trigger] r@[i] == digit_count(i as nat),
{
    let f = F::format();
    let top: i32 = -f.min_e10;
    let mut table: Vec<u32> = Vec::new();
    let mut i: i32 = 0;
    while i <= top
        invariant
            f == F::spec_format(),
            f.wf(),
            top == -f.min_e10,
            0 <= i <= top + 1,
            table@.len() == i,
            forall|j: int| 0 <= j < i ==> #[trigger] table@[j] == digit_count(j as nat),
        decreases top + 1 - i,
    {
        let d = exponent_digit_count(i);
        table.push(d);
        i = i + 1;
    }
    table
}

/// floor(log10(|x|)), against powers of ten rounded to x's format; 0 when x
/// is zero, infinite or NaN.
pub fn exp10<F: FloatOps>(x: F) -> (r: i32)
    ensures
        r == decimal_exponent(F::spec_format(), x.spec_to_bits()),
        F::spec_format().min_e10 <= r <= F::spec_format().max_e10,
{
    let f = F::format();
    exp10_of_bits(&f, x.to_bits())
}

/// The number of decimal digits of |exp10(x)|; 0 when x is zero, infinite or
/// NaN.
pub fn exp10_digits<F: FloatOps>(x: F) -> (r: u32)
    ensures
        r == exponent_digits(F::spec_format(), x.spec_to_bits()),
{
    let f = F::format();
    let bits = x.to_bits();
    if bits & f.magnitude_mask == 0 || (bits >> f.mantissa_bits) & f.exponent_mask
        == f.exponent_mask {
        return 0;
    }
    let e10 = exp10_of_bits(&f, bits);
    exponent_digit_count(e10)
}

/// (exp10(x), exp10_digits(x)) from one extraction; (0, 0) when x is zero,
/// infinite or NaN.
pub fn exp10_with_digits<F: FloatOps>(x: F) -> (r: (i32, u32))
    ensures
        r.0 == decimal_exponent(F::spec_format(), x.spec_to_bits()),
        r.1 == exponent_digits(F::spec_format(), x.spec_to_bits()),
{
    let f = F::format();
    let bits = x.to_bits();
    if bits & f.magnitude_mask == 0 || (bits >> f.mantissa_bits) & f.exponent_mask
        == f.exponent_mask {
        return (0, 0);
    }
    let e10 = exp10_of_bits(&f, bits);
    let digits = exponent_digit_count(e10);
    (e10, digits)
}

} // verus!
