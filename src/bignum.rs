//! Little-endian arbitrary-precision naturals held in `u32` limbs, with just
//! the operations that exact comparisons against powers of ten need.
use vstd::arithmetic::power2::{lemma2_to64, lemma_pow2_adds, pow2};
use vstd::prelude::*;

verus! {

/// 2^32, the radix of one limb.
pub open spec fn radix() -> nat {
    4294967296
}

/// radix()^i.
pub open spec fn radix_pow(i: nat) -> nat
    decreases i,
{
    if i == 0 {
        1
    } else {
        radix() * radix_pow((i - 1) as nat)
    }
}

/// 10^k.
pub open spec fn pow10(k: nat) -> nat
    decreases k,
{
    if k == 0 {
        1
    } else {
        10 * pow10((k - 1) as nat)
    }
}

/// The limb at position i, where limbs past the end are zero.
pub open spec fn limb(s: Seq<u32>, i: nat) -> nat {
    if i < s.len() {
        s[i as int] as nat
    } else {
        0
    }
}

/// The value of the lowest i limbs of s.
pub open spec fn prefix_val(s: Seq<u32>, i: nat) -> nat
    decreases i,
{
    if i == 0 {
        0
    } else {
        prefix_val(s, (i - 1) as nat) + limb(s, (i - 1) as nat) * radix_pow((i - 1) as nat)
    }
}

/// The natural number that the limbs s stand for.
pub open spec fn val(s: Seq<u32>) -> nat {
    prefix_val(s, s.len())
}

proof fn lemma_radix_pow_pos(i: nat)
    ensures
        radix_pow(i) > 0,
    decreases i,
{
    if i > 0 {
        lemma_radix_pow_pos((i - 1) as nat);
        assert(radix() * radix_pow((i - 1) as nat) > 0) by (nonlinear_arith)
            requires
                radix_pow((i - 1) as nat) > 0,
        ;
    }
}

/// Limbs past the end add nothing.
proof fn lemma_prefix_past_end(s: Seq<u32>, i: nat)
    requires
        i >= s.len(),
    ensures
        prefix_val(s, i) == val(s),
    decreases i,
{
    if i > s.len() {
        lemma_prefix_past_end(s, (i - 1) as nat);
        assert(limb(s, (i - 1) as nat) == 0);
    }
}

/// Pushing a limb leaves the lower prefixes as they were.
proof fn lemma_prefix_push(s: Seq<u32>, d: u32, i: nat)
    requires
        i <= s.len(),
    ensures
        prefix_val(s.push(d), i) == prefix_val(s, i),
    decreases i,
{
    if i > 0 {
        lemma_prefix_push(s, d, (i - 1) as nat);
    }
}

proof fn lemma_val_push(s: Seq<u32>, d: u32)
    ensures
        val(s.push(d)) == val(s) + d * radix_pow(s.len()),
{
    lemma_prefix_push(s, d, s.len());
}

pub proof fn lemma_pow10_adds(a: nat, b: nat)
    ensures
        pow10(a + b) == pow10(a) * pow10(b),
    decreases a,
{
    if a == 0 {
        assert(pow10(0) == 1);
    } else {
        lemma_pow10_adds((a - 1) as nat, b);
        assert(pow10(a) == 10 * pow10((a - 1) as nat));
        assert((a - 1 + b) as nat == (a - 1) as nat + b);
        assert(pow10(a + b) == 10 * pow10((a - 1 + b) as nat));
        assert(10 * (pow10((a - 1) as nat) * pow10(b)) == (10 * pow10((a - 1) as nat)) * pow10(
            b,
        )) by (nonlinear_arith);
    }
}

pub proof fn lemma_pow10_pos(a: nat)
    ensures
        pow10(a) > 0,
    decreases a,
{
    if a > 0 {
        lemma_pow10_pos((a - 1) as nat);
    }
}

/// The limbs of x.
pub fn from_u64(x: u64) -> (r: Vec<u32>)
    ensures
        val(r@) == x,
{
    let lo = (x % 4294967296) as u32;
    let hi = (x / 4294967296) as u32;
    let mut r: Vec<u32> = Vec::new();
    r.push(lo);
    r.push(hi);
    proof {
        assert(r@[0] == lo && r@[1] == hi);
        assert(radix_pow(0) == 1);
        assert(radix_pow(1) == radix() * radix_pow(0));
        assert(limb(r@, 0) == lo && limb(r@, 1) == hi);
        assert(prefix_val(r@, 0) == 0);
        assert(prefix_val(r@, 1) == prefix_val(r@, 0) + limb(r@, 0) * radix_pow(0));
        assert(prefix_val(r@, 1) == lo);
        assert(prefix_val(r@, 2) == lo + hi * 4294967296);
        assert(x == lo + hi * 4294967296);
    }
    r
}

/// a · k.
pub fn mul_small(a: &Vec<u32>, k: u32) -> (r: Vec<u32>)
    ensures
        val(r@) == val(a@) * k,
{
    let mut r: Vec<u32> = Vec::new();
    let mut carry: u64 = 0;
    let mut i: usize = 0;
    assert(val(r@) == 0 && prefix_val(a@, 0) == 0 && radix_pow(0) == 1);
    while i < a.len()
        invariant
            i <= a.len(),
            r@.len() == i,
            carry < radix(),
            val(r@) + carry * radix_pow(i as nat) == prefix_val(a@, i as nat) * k,
        decreases a.len() - i,
    {
        let ai = a[i];
        assert((ai as u64) * (k as u64) + carry <= 0xffff_ffff_ffff_ffffu64) by (nonlinear_arith)
            requires
                ai < 4294967296,
                k < 4294967296,
                carry < 4294967296,
        ;
        let t: u64 = (ai as u64) * (k as u64) + carry;
        let d = (t % 4294967296) as u32;
        let c2: u64 = t / 4294967296;
        proof {
            let ip = i as nat;
            let p = radix_pow(ip);
            lemma_val_push(r@, d);
            assert(limb(a@, ip) == ai);
            assert(prefix_val(a@, ip + 1) == prefix_val(a@, ip) + ai * p);
            assert(radix_pow(ip + 1) == radix() * p);
            assert(t == d + c2 * radix());
            assert(c2 < radix()) by (nonlinear_arith)
                requires
                    t == d + c2 * radix(),
                    t < radix() * radix(),
                    d >= 0,
            ;
            assert(val(r@) + d * p + c2 * (radix() * p) == (prefix_val(a@, ip) + ai * p) * k)
                by (nonlinear_arith)
                requires
                    val(r@) + carry * p == prefix_val(a@, ip) * k,
                    t == ai * k + carry,
                    t == d + c2 * radix(),
            ;
        }
        r.push(d);
        carry = c2;
        i = i + 1;
    }
    let last = carry as u32;
    proof {
        lemma_val_push(r@, last);
    }
    r.push(last);
    r
}

/// a · 2^k.
pub fn mul_pow2(a: &Vec<u32>, k: u32) -> (r: Vec<u32>)
    ensures
        val(r@) == val(a@) * pow2(k as nat),
{
    let mut r = mul_small(a, 1);
    let mut left: u32 = k;
    proof {
        lemma2_to64();
    }
    while left >= 16
        invariant
            left <= k,
            val(r@) * pow2(left as nat) == val(a@) * pow2(k as nat),
        decreases left,
    {
        let next = mul_small(&r, 65536);
        proof {
            lemma2_to64();
            lemma_pow2_adds(16, (left - 16) as nat);
            assert(val(next@) * pow2((left - 16) as nat) == val(r@) * pow2(left as nat))
                by (nonlinear_arith)
                requires
                    val(next@) == val(r@) * 65536,
                    pow2(left as nat) == 65536 * pow2((left - 16) as nat),
            ;
        }
        r = next;
        left = left - 16;
    }
    proof {
        lemma2_to64();
    }
    let scale: u32 = 1u32 << left;
    assert(scale == pow2(left as nat)) by {
        lemma2_to64();
        assert(left < 16);
        assert(1u32 << 0u32 == 1u32 && 1u32 << 1u32 == 2u32 && 1u32 << 2u32 == 4u32 && 1u32
            << 3u32 == 8u32 && 1u32 << 4u32 == 16u32 && 1u32 << 5u32 == 32u32 && 1u32 << 6u32
            == 64u32 && 1u32 << 7u32 == 128u32 && 1u32 << 8u32 == 256u32 && 1u32 << 9u32 == 512u32
            && 1u32 << 10u32 == 1024u32 && 1u32 << 11u32 == 2048u32 && 1u32 << 12u32 == 4096u32
            && 1u32 << 13u32 == 8192u32 && 1u32 << 14u32 == 16384u32 && 1u32 << 15u32 == 32768u32)
            by (bit_vector);
    }
    mul_small(&r, scale)
}

/// a · 10^k.
pub fn mul_pow10(a: &Vec<u32>, k: u32) -> (r: Vec<u32>)
    ensures
        val(r@) == val(a@) * pow10(k as nat),
{
    let mut r = mul_small(a, 1);
    let mut left: u32 = k;
    while left >= 9
        invariant
            left <= k,
            val(r@) * pow10(left as nat) == val(a@) * pow10(k as nat),
        decreases left,
    {
        let next = mul_small(&r, 1_000_000_000);
        proof {
            reveal_with_fuel(pow10, 10);
            lemma_pow10_adds(9, (left - 9) as nat);
            assert(val(next@) * pow10((left - 9) as nat) == val(r@) * pow10(left as nat))
                by (nonlinear_arith)
                requires
                    val(next@) == val(r@) * 1_000_000_000,
                    pow10(left as nat) == 1_000_000_000 * pow10((left - 9) as nat),
            ;
        }
        r = next;
        left = left - 9;
    }
    while left > 0
        invariant
            left <= k,
            val(r@) * pow10(left as nat) == val(a@) * pow10(k as nat),
        decreases left,
    {
        let next = mul_small(&r, 10);
        proof {
            assert(val(next@) * pow10((left - 1) as nat) == val(r@) * pow10(left as nat))
                by (nonlinear_arith)
                requires
                    val(next@) == val(r@) * 10,
                    pow10(left as nat) == 10 * pow10((left - 1) as nat),
            ;
        }
        r = next;
        left = left - 1;
    }
    assert(left == 0);
    assert(pow10(0) == 1);
    assert(val(r@) * pow10(0) == val(r@));
    r
}

/// The sign of val(a) - val(b): -1, 0 or 1.
pub fn compare(a: &Vec<u32>, b: &Vec<u32>) -> (r: i8)
    ensures
        r == -1 <==> val(a@) < val(b@),
        r == 0 <==> val(a@) == val(b@),
        r == 1 <==> val(a@) > val(b@),
{
    let n: usize = if a.len() > b.len() {
        a.len()
    } else {
        b.len()
    };
    let mut i: usize = 0;
    let mut borrow: u64 = 0;
    let mut all_zero = true;
    let ghost mut diff: nat = 0;
    while i < n
        invariant
            i <= n,
            n >= a.len(),
            n >= b.len(),
            borrow <= 1,
            diff < radix_pow(i as nat),
            all_zero <==> diff == 0,
            prefix_val(a@, i as nat) + borrow * radix_pow(i as nat) == prefix_val(b@, i as nat)
                + diff,
        decreases n - i,
    {
        let x: u64 = if i < a.len() {
            a[i] as u64
        } else {
            0
        };
        let y: u64 = if i < b.len() {
            b[i] as u64
        } else {
            0
        };
        let need = y + borrow;
        let (d, nb): (u64, u64) = if x >= need {
            (x - need, 0)
        } else {
            (x + 4294967296 - need, 1)
        };
        proof {
            let ip = i as nat;
            let p = radix_pow(ip);
            lemma_radix_pow_pos(ip);
            assert(limb(a@, ip) == x);
            assert(limb(b@, ip) == y);
            assert(radix_pow(ip + 1) == radix() * p);
            assert(x + nb * radix() == y + borrow + d);
            assert(d < radix());
            assert(diff + d * p < radix() * p) by (nonlinear_arith)
                requires
                    diff < p,
                    d < radix(),
            ;
            assert(prefix_val(a@, ip) + x * p + nb * (radix() * p) == prefix_val(b@, ip) + y * p
                + (diff + d * p)) by (nonlinear_arith)
                requires
                    prefix_val(a@, ip) + borrow * p == prefix_val(b@, ip) + diff,
                    x + nb * radix() == y + borrow + d,
            ;
            assert((diff + d * p == 0) <==> (diff == 0 && d == 0)) by (nonlinear_arith)
                requires
                    p > 0,
                    d >= 0,
                    diff >= 0,
            ;
            diff = (diff + d * p) as nat;
        }
        all_zero = all_zero && d == 0;
        borrow = nb;
        i = i + 1;
    }
    proof {
        lemma_prefix_past_end(a@, n as nat);
        lemma_prefix_past_end(b@, n as nat);
    }
    if borrow == 1 {
        -1
    } else if all_zero {
        0
    } else {
        1
    }
}

} // verus!
