//! Points in time, in files.
//!
//! Time is counted in ticks of 1/4194304 second since the epoch. Files hold seconds as
//! double-precision numbers, which are read rounded down to a tick; a negative one is read as the
//! epoch. In the years 2004 to 2038 the two hold the same points in time: a double of that range
//! is a whole number of ticks. Later doubles are whole numbers of ticks too, but not every number
//! of ticks is one of them.

use vstd::arithmetic::power2::{lemma_pow2_adds, lemma_pow2_pos, lemma_pow2_unfold, pow2};
use vstd::prelude::*;

verus! {

/// Ticks in a second.
pub const TICKS_PER_SECOND: u64 = 4194304;

/// Two to the power of 52: the span of the fraction of a double.
pub const FRACTION_SPAN: u64 = 4503599627370496;

/// The exponent field of a double.
pub open spec fn exponent_of(bits: u64) -> nat {
    (bits / FRACTION_SPAN % 2048) as nat
}

/// The whole number that a double scales by a power of two.
pub open spec fn mantissa_of(bits: u64) -> nat {
    if exponent_of(bits) == 0 {
        (bits % FRACTION_SPAN) as nat
    } else {
        (FRACTION_SPAN + bits % FRACTION_SPAN) as nat
    }
}

/// The ticks in a number of seconds that is given by the bits of a double: rounded down, none
/// for a negative number, and as many as fit for one that is too large.
pub open spec fn ticks_of(bits: u64) -> u64 {
    let exponent: nat = if exponent_of(bits) == 0 {
        1
    } else {
        exponent_of(bits)
    };
    if bits >= 0x8000_0000_0000_0000 {
        0
    } else if exponent >= 1053 {
        let ticks = mantissa_of(bits) * pow2((exponent - 1053) as nat);
        if ticks > u64::MAX {
            u64::MAX
        } else {
            ticks as u64
        }
    } else {
        (mantissa_of(bits) as int / pow2((1053 - exponent) as nat) as int) as u64
    }
}

/// The position of the highest bit of a number.
pub open spec fn highest_bit(v: nat) -> nat
    decreases v,
{
    if v < 2 {
        0
    } else {
        1 + highest_bit(v / 2)
    }
}

/// The bits of the double that gives a number of ticks in seconds, rounded down.
pub open spec fn double_of(ticks: u64) -> u64 {
    let top = highest_bit(ticks as nat);
    let rest = ticks - pow2(top);
    if ticks == 0 {
        0
    } else if top <= 52 {
        ((1001 + top) * FRACTION_SPAN + rest * pow2((52 - top) as nat)) as u64
    } else {
        ((1001 + top) * FRACTION_SPAN + rest / pow2((top - 52) as nat) as int) as u64
    }
}

/// The highest bit bounds a number from both sides.
proof fn highest_bit_bounds(v: nat)
    requires
        v > 0,
    ensures
        pow2(highest_bit(v)) <= v < pow2(highest_bit(v) + 1),
    decreases v,
{
    if v < 2 {
        lemma_pow2_unfold(1);
        assert(pow2(0) == 1) by {
            lemma_pow2_pos(0);
            vstd::arithmetic::power2::lemma2_to64();
        }
    } else {
        highest_bit_bounds(v / 2);
        let h = highest_bit(v / 2);
        lemma_pow2_unfold(h + 1);
        lemma_pow2_unfold(h + 2);
    }
}

/// A number between two powers of two has its highest bit at the lower one.
proof fn highest_bit_unique(v: nat, k: nat)
    requires
        pow2(k) <= v < pow2(k + 1),
    ensures
        highest_bit(v) == k,
    decreases k,
{
    vstd::arithmetic::power2::lemma2_to64();
    if k == 0 {
    } else {
        lemma_pow2_unfold(k);
        lemma_pow2_unfold(k + 1);
        lemma_pow2_pos((k - 1) as nat);
        highest_bit_unique(v / 2, (k - 1) as nat);
    }
}

/// A power of two.
fn power(k: usize) -> (r: u64)
    requires
        k < 64,
    ensures
        r == pow2(k as nat),
        r > 0,
{
    let mut r: u64 = 1;
    let mut i: usize = 0;
    proof {
        vstd::arithmetic::power2::lemma2_to64();
    }
    while i < k
        invariant
            i <= k < 64,
            r == pow2(i as nat),
        decreases k - i,
    {
        proof {
            vstd::arithmetic::power2::lemma2_to64();
            vstd::arithmetic::power2::lemma2_to64_rest();
            lemma_pow2_unfold((i + 1) as nat);
            pow2_grows((i + 1) as nat, 63);
        }
        r = r * 2;
        i += 1;
    }
    proof {
        lemma_pow2_pos(k as nat);
    }
    r
}

/// Powers of two grow.
proof fn pow2_grows(a: nat, b: nat)
    requires
        a <= b,
    ensures
        pow2(a) <= pow2(b),
    decreases b,
{
    if a < b {
        pow2_grows(a, (b - 1) as nat);
        lemma_pow2_unfold(b);
    }
}

/// The ticks in a number of seconds that is given by the bits of a double.
pub fn to_ticks(bits: u64) -> (r: u64)
    ensures
        r == ticks_of(bits),
{
    if bits >= 0x8000_0000_0000_0000 {
        return 0;
    }
    let field: u64 = bits / FRACTION_SPAN % 2048;
    let fraction: u64 = bits % FRACTION_SPAN;
    let (exponent, mantissa): (u64, u64) = if field == 0 {
        (1, fraction)
    } else {
        (field, FRACTION_SPAN + fraction)
    };
    proof {
        vstd::arithmetic::power2::lemma2_to64();
        vstd::arithmetic::power2::lemma2_to64_rest();
    }
    if exponent >= 1053 {
        let shift: u64 = exponent - 1053;
        proof {
            lemma_pow2_pos(shift as nat);
        }
        if shift >= 12 {
            proof {
                pow2_grows(12, shift as nat);
                let p = pow2(shift as nat) as int;
                let m = mantissa as int;
                assert(m * p >= FRACTION_SPAN * 4096) by (nonlinear_arith)
                    requires
                        p >= 4096,
                        m >= FRACTION_SPAN,
                ;
            }
            return u64::MAX;
        }
        let scale: u64 = power(shift as usize);
        proof {
            pow2_grows(shift as nat, 11);
            let p = scale as int;
            let m = mantissa as int;
            assert(m * p <= (2 * FRACTION_SPAN - 1) * 2048) by (nonlinear_arith)
                requires
                    0 <= p <= 2048,
                    0 <= m <= 2 * FRACTION_SPAN - 1,
            ;
        }
        mantissa * scale
    } else {
        let shift: u64 = 1053 - exponent;
        if shift >= 53 {
            proof {
                pow2_grows(53, shift as nat);
                let p = pow2(shift as nat) as int;
                let m = mantissa as int;
                assert(m / p == 0) by (nonlinear_arith)
                    requires
                        0 <= m < p,
                ;
            }
            return 0;
        }
        mantissa / power(shift as usize)
    }
}

/// The bits of the double that gives a number of ticks in seconds.
pub fn from_ticks(ticks: u64) -> (r: u64)
    ensures
        r == double_of(ticks),
{
    if ticks == 0 {
        return 0;
    }
    let mut top: usize = 0;
    let mut p: u64 = 1;
    proof {
        vstd::arithmetic::power2::lemma2_to64();
        vstd::arithmetic::power2::lemma2_to64_rest();
    }
    while top < 63 && p <= ticks / 2
        invariant
            top <= 63,
            p == pow2(top as nat),
            p <= ticks,
        decreases 63 - top,
    {
        proof {
            lemma_pow2_unfold((top + 1) as nat);
        }
        p = p * 2;
        top += 1;
    }
    proof {
        lemma_pow2_unfold((top + 1) as nat);
        vstd::arithmetic::power2::lemma2_to64();
        vstd::arithmetic::power2::lemma2_to64_rest();
        highest_bit_unique(ticks as nat, top as nat);
    }
    let rest: u64 = ticks - p;
    let field: u64 = (1001 + top as u64) * FRACTION_SPAN;
    if top <= 52 {
        let scale: u64 = power(52 - top);
        proof {
            fraction_bound(rest as nat, top as nat);
        }
        field + rest * scale
    } else {
        let scale: u64 = power(top - 52);
        proof {
            lemma_pow2_adds((top - 52) as nat, 52);
            let s = scale as int;
            let x = rest as int;
            assert(x / s < FRACTION_SPAN) by (nonlinear_arith)
                requires
                    0 <= x < s * FRACTION_SPAN,
                    s > 0,
            ;
        }
        field + rest / scale
    }
}

/// The fraction of a double is below its span.
proof fn fraction_bound(rest: nat, top: nat)
    requires
        top <= 52,
        rest < pow2(top),
    ensures
        rest * pow2((52 - top) as nat) < FRACTION_SPAN,
{
    vstd::arithmetic::power2::lemma2_to64_rest();
    lemma_pow2_adds(top, (52 - top) as nat);
    lemma_pow2_pos((52 - top) as nat);
    let a = pow2(top) as int;
    let b = pow2((52 - top) as nat) as int;
    let x = rest as int;
    assert(x * b < a * b) by (nonlinear_arith)
        requires
            0 <= x < a,
            b > 0,
    ;
}

/// Whether a number of ticks, written as a double and read again, is the same.
pub open spec fn is_kept(ticks: u64) -> bool {
    ticks_of(double_of(ticks)) == ticks
}

/// The fields of the double of a number of ticks with more than 53 bits.
proof fn long_fields(ticks: u64)
    requires
        ticks >= 2 * FRACTION_SPAN,
    ensures
        ({
            let top = highest_bit(ticks as nat);
            let rest = ticks - pow2(top);
            let bits = double_of(ticks);
            &&& 53 <= top <= 63
            &&& 0 <= rest / (pow2((top - 52) as nat) as int)
            &&& rest / (pow2((top - 52) as nat) as int) < FRACTION_SPAN
            &&& exponent_of(bits) == 1001 + top
            &&& bits % FRACTION_SPAN == rest / (pow2((top - 52) as nat) as int)
            &&& bits < 0x8000_0000_0000_0000
        }),
{
    vstd::arithmetic::power2::lemma2_to64();
    vstd::arithmetic::power2::lemma2_to64_rest();
    let top = highest_bit(ticks as nat);
    highest_bit_bounds(ticks as nat);
    if top < 53 {
        pow2_grows(top + 1, 53);
    }
    if top > 63 {
        pow2_grows(64, top);
    }
    lemma_pow2_unfold(top + 1);
    lemma_pow2_adds((top - 52) as nat, 52);
    lemma_pow2_pos((top - 52) as nat);
    let s = pow2((top - 52) as nat) as int;
    let x = ticks - pow2(top);
    assert(0 <= x / s < FRACTION_SPAN) by (nonlinear_arith)
        requires
            0 <= x < s * FRACTION_SPAN,
            s > 0,
    ;
}

/// The double of a number of ticks is finite and not negative, and zero only for none.
pub proof fn double_is_finite(ticks: u64)
    ensures
        exponent_of(double_of(ticks)) < 2047,
        double_of(ticks) < 0x8000_0000_0000_0000,
        ticks > 0 ==> double_of(ticks) > 0,
{
    if ticks < 2 * FRACTION_SPAN {
        ticks_round_trip(ticks);
        ticks_round_trip(0);
    } else {
        long_fields(ticks);
    }
}

/// A time that was read is kept: written and read again it is the same, unless it was too large to
/// be counted.
pub proof fn read_times_are_kept(bits: u64)
    requires
        ticks_of(bits) < u64::MAX,
    ensures
        is_kept(ticks_of(bits)),
{
    vstd::arithmetic::power2::lemma2_to64();
    vstd::arithmetic::power2::lemma2_to64_rest();
    let ticks = ticks_of(bits);
    let exponent = exponent_of(bits);
    if ticks < 2 * FRACTION_SPAN {
        ticks_round_trip(ticks);
    } else if exponent < 1053 {
        let shift: nat = if exponent == 0 {
            1052
        } else {
            (1053 - exponent) as nat
        };
        lemma_pow2_pos(shift);
        let m = mantissa_of(bits) as int;
        let p = pow2(shift) as int;
        assert(0 <= m / p <= m) by (nonlinear_arith)
            requires
                m >= 0,
                p >= 1,
        ;
    } else {
        let k = (exponent - 1053) as nat;
        let m = mantissa_of(bits) as int;
        let p = pow2(k) as int;
        lemma_pow2_pos(k);
        assert(ticks == m * p);
        lemma_pow2_adds(52, k);
        lemma_pow2_adds(53, k);
        lemma_pow2_unfold(k + 53);
        assert(pow2(52 + k) <= ticks && ticks < pow2(53 + k)) by (nonlinear_arith)
            requires
                ticks == m * p,
                FRACTION_SPAN <= m < 2 * FRACTION_SPAN,
                p > 0,
                pow2(52 + k) == FRACTION_SPAN * p,
                pow2(53 + k) == 2 * FRACTION_SPAN * p,
        ;
        assert(52 + k + 1 == 53 + k);
        highest_bit_unique(ticks as nat, 52 + k);
        long_fields(ticks);
        let rest = ticks - pow2(52 + k);
        assert(rest / p == m - FRACTION_SPAN) by (nonlinear_arith)
            requires
                rest == m * p - FRACTION_SPAN * p,
                p > 0,
        ;
    }
}

/// A number of ticks that takes no more than 53 bits, written as a double and read again, is the
/// same.
pub proof fn ticks_round_trip(ticks: u64)
    requires
        ticks < 2 * FRACTION_SPAN,
    ensures
        ticks_of(double_of(ticks)) == ticks,
        exponent_of(double_of(ticks)) < 2047,
{
    vstd::arithmetic::power2::lemma2_to64();
    vstd::arithmetic::power2::lemma2_to64_rest();
    if ticks > 0 {
        let top = highest_bit(ticks as nat);
        highest_bit_bounds(ticks as nat);
        if top > 52 {
            pow2_grows(53, top);
        }
        let rest = (ticks - pow2(top)) as nat;
        lemma_pow2_unfold(top + 1);
        fraction_bound(rest, top);
        let scale = pow2((52 - top) as nat);
        lemma_pow2_pos((52 - top) as nat);
        lemma_pow2_adds(top, (52 - top) as nat);
        let fraction = rest * scale;
        let bits = double_of(ticks);
        assert(bits == (1001 + top) * FRACTION_SPAN + fraction);
        assert(exponent_of(bits) == 1001 + top);
        assert(bits % FRACTION_SPAN == fraction);
        assert(mantissa_of(bits) == ticks * scale) by (nonlinear_arith)
            requires
                mantissa_of(bits) == pow2(top) * scale + rest * scale,
                ticks == pow2(top) + rest,
        ;
        let m = mantissa_of(bits) as int;
        let t = ticks as int;
        let s = scale as int;
        assert(m / s == t) by (nonlinear_arith)
            requires
                m == t * s,
                s > 0,
        ;
        if top == 52 {
            assert(m == t) by (nonlinear_arith)
                requires
                    m == t * s,
                    s == 1,
            ;
        } else {
            assert((1053 - exponent_of(bits)) as nat == (52 - top) as nat);
        }
    } else {
        lemma_pow2_pos(1052);
        let p = pow2(1052) as int;
        assert(0int / p == 0) by (nonlinear_arith)
            requires
                p > 0,
        ;
    }
}

} // verus!
