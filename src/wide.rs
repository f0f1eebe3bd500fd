//! Exact comparison of products that do not fit in 128 bits.
use vstd::prelude::*;

verus! {

/// 2 to the power 64.
pub const LIMB: u128 = 0x1_0000_0000_0000_0000;

/// The product `a * b` split as `hi * 2^64 + lo`.
fn mul_wide(a: u128, b: u64) -> (r: (u128, u64))
    requires
        a < 0x8000_0000_0000_0000_0000_0000_0000_0000,
    ensures
        r.0 * LIMB + r.1 == a * b,
{
    let a_hi: u128 = a / LIMB;
    let a_lo: u128 = a % LIMB;
    let bw: u128 = b as u128;
    assert(a_lo * bw < 0x1_0000_0000_0000_0000_0000_0000_0000_0000) by (nonlinear_arith)
        requires
            a_lo < 0x1_0000_0000_0000_0000,
            bw < 0x1_0000_0000_0000_0000,
    ;
    assert(a_hi * bw < 0x8000_0000_0000_0000_0000_0000_0000_0000) by (nonlinear_arith)
        requires
            a_hi < 0x8000_0000_0000_0000,
            bw < 0x1_0000_0000_0000_0000,
    ;
    let low: u128 = a_lo * bw;
    let high: u128 = a_hi * bw;
    let hi: u128 = high + low / LIMB;
    let lo: u64 = (low % LIMB) as u64;
    assert(hi * LIMB + lo == a * b) by (nonlinear_arith)
        requires
            a == a_hi * LIMB + a_lo,
            low == a_lo * bw,
            high == a_hi * bw,
            low == (low / LIMB) * LIMB + low % LIMB,
            hi == high + low / LIMB,
            lo == low % LIMB,
            bw == b,
    ;
    (hi, lo)
}

/// Whether `a * b > c * d`, exactly.
pub fn product_gt(a: u128, b: u64, c: u128, d: u64) -> (r: bool)
    requires
        a < 0x8000_0000_0000_0000_0000_0000_0000_0000,
        c < 0x8000_0000_0000_0000_0000_0000_0000_0000,
    ensures
        r == (a * b > c * d),
{
    let (h1, l1) = mul_wide(a, b);
    let (h2, l2) = mul_wide(c, d);
    assert((h1 * LIMB + l1 > h2 * LIMB + l2) == (h1 > h2 || (h1 == h2 && l1 > l2)))
        by (nonlinear_arith)
        requires
            0 <= l1 < LIMB,
            0 <= l2 < LIMB,
            h1 >= 0,
            h2 >= 0,
    ;
    h1 > h2 || (h1 == h2 && l1 > l2)
}

} // verus!
