//! Exact comparisons of products that do not fit the machine's integers.

use vstd::prelude::*;

verus! {

/// The product of two 128-bit numbers, as its high and low halves.
fn wide_mul(a: u128, b: u128) -> (r: (u128, u128))
    ensures
        a * b == r.0 * 0x1_0000_0000_0000_0000_0000_0000_0000_0000int + r.1,
{
    let base: u128 = 0x1_0000_0000_0000_0000;
    let a1: u128 = a / base;
    let a0: u128 = a % base;
    let b1: u128 = b / base;
    let b0: u128 = b % base;
    proof {
        limb_bound(a0 as int, b0 as int);
        limb_bound(a0 as int, b1 as int);
        limb_bound(a1 as int, b0 as int);
        limb_bound(a1 as int, b1 as int);
    }
    let p00: u128 = a0 * b0;
    let p01: u128 = a0 * b1;
    let p10: u128 = a1 * b0;
    let p11: u128 = a1 * b1;
    let mid: u128 = p00 / base + p01 % base + p10 % base;
    let low: u128 = p00 % base + (mid % base) * base;
    let high: u128 = p11 + p01 / base + p10 / base + mid / base;
    proof {
        assert(a == a1 * base + a0);
        assert(b == b1 * base + b0);
        assert(a * b == p11 * (base * base) + (p01 + p10) * base + p00) by (nonlinear_arith)
            requires
                a == a1 * base + a0,
                b == b1 * base + b0,
                p00 == a0 * b0,
                p01 == a0 * b1,
                p10 == a1 * b0,
                p11 == a1 * b1,
        ;
        assert(base * base == 0x1_0000_0000_0000_0000_0000_0000_0000_0000int);
    }
    (high, low)
}

/// The product of two 64-bit limbs fits 128 bits with room for two carries.
proof fn limb_bound(x: int, y: int)
    by (nonlinear_arith)
    requires
        0 <= x < 0x1_0000_0000_0000_0000,
        0 <= y < 0x1_0000_0000_0000_0000,
    ensures
        0 <= x * y <= 0xffff_ffff_ffff_ffff * 0xffff_ffff_ffff_ffff,
{
}

/// Whether `a * b` exceeds `c * d`.
pub fn product_exceeds(a: u128, b: u128, c: u128, d: u128) -> (r: bool)
    ensures
        r == (a * b > c * d),
{
    let left: (u128, u128) = wide_mul(a, b);
    let right: (u128, u128) = wide_mul(c, d);
    left.0 > right.0 || (left.0 == right.0 && left.1 > right.1)
}

} // verus!
