//! Fixed-point circle functions for twiddle generation.
//!
//! [`trig_pair`] evaluates `cos` and `sin` of `2 pi k / n` in Q16.16. The
//! angle is reduced by symmetry to the first octant; a truncated power
//! series is summed in Q2.30, computed in double precision relative to the
//! stored format to keep accumulated rounding at a fraction of a Q16.16 unit.
//! Angles that fall on an axis (`4 * k` a multiple of `n`) are returned
//! exactly, so the values `1`, `-1`, `i` and `-i` carry no rounding at all.

use vstd::prelude::*;
use crate::plan::{axis_cos, axis_sin, MAX_LEN};

verus! {

/// `pi / 4` in Q2.30.
const PI_OVER_4_Q30: u64 = 843314857;

/// One in Q2.30.
const ONE_Q30: u64 = 1073741824;

/// Q2.30 product: `(a * b) / 2^30`, truncated.
fn mul_q30(a: u64, b: u64) -> (r: u64)
    requires
        a <= 0x8000_0000,
        b <= 0x4000_0000,
    ensures
        r == (a * b) / 0x4000_0000,
        r <= a,
{
    proof {
        vstd::arithmetic::mul::lemma_mul_upper_bound(a as int, 0x8000_0000, b as int, 0x4000_0000);
        vstd::arithmetic::mul::lemma_mul_inequality(b as int, 0x4000_0000, a as int);
        vstd::arithmetic::mul::lemma_mul_is_commutative(a as int, b as int);
        vstd::arithmetic::div_mod::lemma_div_is_ordered(
            (a * b) as int,
            a as int * 0x4000_0000,
            0x4000_0000,
        );
        vstd::arithmetic::div_mod::lemma_div_multiples_vanish(a as int, 0x4000_0000);
        vstd::arithmetic::mul::lemma_mul_is_commutative(a as int, 0x4000_0000);
    }
    (a * b) / 0x4000_0000
}

/// Cosine and sine on the first octant, argument and results in Q2.30.
///
/// The argument is an angle in `[0, pi/4]`; both results lie in `[0, 1]`.
/// Each series is summed in Horner form, so every intermediate value stays
/// within `[0, 1]` in Q2.30 and the arithmetic cannot overflow.
fn cos_sin_octant(x: u64) -> (cs: (u64, u64))
    requires
        x <= 843314858,
    ensures
        cs.0 <= 1073741824,
        cs.1 <= 1073741824,
{
    let x2 = mul_q30(x, x);
    let t90 = ONE_Q30 - x2 / 90;
    let t56 = ONE_Q30 - mul_q30(x2 / 56, t90);
    let t30 = ONE_Q30 - mul_q30(x2 / 30, t56);
    let t12 = ONE_Q30 - mul_q30(x2 / 12, t30);
    let c = ONE_Q30 - mul_q30(x2 / 2, t12);
    let u72 = ONE_Q30 - x2 / 72;
    let u42 = ONE_Q30 - mul_q30(x2 / 42, u72);
    let u20 = ONE_Q30 - mul_q30(x2 / 20, u42);
    let u6 = ONE_Q30 - mul_q30(x2 / 6, u20);
    let s = mul_q30(x, u6);
    (c, s)
}

/// Round a Q2.30 value in `[-1, 1]` to Q16.16, half away from zero.
fn q30_to_q16(v: i64) -> (r: i64)
    requires
        -1073741824 <= v <= 1073741824,
    ensures
        -65536 <= r <= 65536,
{
    if v >= 0 {
        let q: u64 = ((v as u64) + 8192) / 16384;
        proof {
            vstd::arithmetic::div_mod::lemma_div_is_ordered(
                v + 8192,
                1073750016,
                16384,
            );
        }
        q as i64
    } else {
        let q: u64 = (((-v) as u64) + 8192) / 16384;
        proof {
            vstd::arithmetic::div_mod::lemma_div_is_ordered(
                -v + 8192,
                1073750016,
                16384,
            );
        }
        -(q as i64)
    }
}

/// Cosine and sine of `2 pi k / n` in Q16.16.
///
/// Both results lie in `[-1, 1]`; when the angle falls on an axis (`4 * k`
/// a multiple of `n`), the exact values [`axis_cos`] and [`axis_sin`] of the
/// quarter-turn count `4 * k / n` are returned.
pub(crate) fn trig_pair(k: usize, n: usize) -> (cs: (i64, i64))
    requires
        1 <= n <= MAX_LEN,
        k < n,
    ensures
        -65536 <= cs.0 <= 65536,
        -65536 <= cs.1 <= 65536,
        (4 * (k as int)) % (n as int) == 0 ==> cs.0 == axis_cos(4 * (k as int) / (n as int))
            && cs.1 == axis_sin(4 * (k as int) / (n as int)),
{
    if (4 * k) % n == 0 {
        let q = (4 * k) / n;
        proof {
            vstd::arithmetic::div_mod::lemma_fundamental_div_mod(4 * (k as int), n as int);
            assert((4 * (k as int)) / (n as int) < 4) by (nonlinear_arith)
                requires
                    ((4 * (k as int)) / (n as int)) * (n as int) + ((4 * (k as int)) % (n as int))
                        == 4 * (k as int),
                    0 <= (4 * (k as int)) % (n as int),
                    k < n,
                    1 <= n,
                    0 <= (4 * (k as int)) / (n as int),
            ;
            vstd::arithmetic::div_mod::lemma_div_pos_is_pos(4 * (k as int), n as int);
        }
        if q == 0 {
            (65536, 0)
        } else if q == 1 {
            (0, 65536)
        } else if q == 2 {
            (-65536, 0)
        } else {
            (0, -65536)
        }
    } else {
        // Fraction of a turn in Q32, then octant and offset within it.
        let phase: u64 = ((k as u64) * 4294967296) / (n as u64);
        proof {
            vstd::arithmetic::mul::lemma_mul_inequality(k as int, (n as int) - 1, 4294967296);
            vstd::arithmetic::div_mod::lemma_div_is_ordered(
                (k as int) * 4294967296,
                ((n as int) - 1) * 4294967296,
                n as int,
            );
            vstd::arithmetic::div_mod::lemma_div_is_ordered(
                ((n as int) - 1) * 4294967296,
                (n as int) * 4294967296,
                n as int,
            );
            vstd::arithmetic::div_mod::lemma_div_multiples_vanish(4294967296, n as int);
            vstd::arithmetic::mul::lemma_mul_is_commutative(n as int, 4294967296);
        }
        let oct: u64 = phase / 536870912;
        let frac: u64 = phase % 536870912;
        proof {
            vstd::arithmetic::div_mod::lemma_div_is_ordered(phase as int, 4294967296, 536870912);
            vstd::arithmetic::div_mod::lemma_mod_bound(phase as int, 536870912);
        }
        let xq: u64 = if oct % 2 == 0 {
            frac
        } else {
            536870912 - frac
        };
        // Octant offset to radians in Q2.30: xq * (pi/4) / 2^29.
        let xr: u64 = (xq * PI_OVER_4_Q30) / 536870912;
        proof {
            vstd::arithmetic::mul::lemma_mul_upper_bound(
                xq as int,
                536870912,
                PI_OVER_4_Q30 as int,
                843314857,
            );
            vstd::arithmetic::div_mod::lemma_div_is_ordered(
                (xq * PI_OVER_4_Q30) as int,
                536870912int * 843314857,
                536870912,
            );
            vstd::arithmetic::div_mod::lemma_div_multiples_vanish(843314857, 536870912);
        }
        let (c0u, s0u) = cos_sin_octant(xr);
        let c0: i64 = c0u as i64;
        let s0: i64 = s0u as i64;
        let (cq, sq): (i64, i64) = if oct == 0 {
            (c0, s0)
        } else if oct == 1 {
            (s0, c0)
        } else if oct == 2 {
            (-s0, c0)
        } else if oct == 3 {
            (-c0, s0)
        } else if oct == 4 {
            (-c0, -s0)
        } else if oct == 5 {
            (-s0, -c0)
        } else if oct == 6 {
            (s0, -c0)
        } else {
            (c0, -s0)
        };
        (q30_to_q16(cq), q30_to_q16(sq))
    }
}

} // verus!
