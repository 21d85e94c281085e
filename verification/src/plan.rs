//! Factorization and twiddle-table engine.
//!
//! Given a transform length `n`, [`factor`] splits it into an ordered
//! sequence of small radices — `4` first, then `2`, then odd primes in
//! ascending order; a residue with no divisor up to its square root becomes a
//! radix of its own and is handled by the generic butterfly. [`build_twiddles`]
//! precomputes the table of complex unit roots `exp(sign * i * 2 pi k / n)`
//! for the chosen direction, with the four on-axis roots stored exactly.

use vstd::prelude::*;
use crate::Direction;
use crate::sample::{ComplexSample, SpecCpx, seq_bounded, dv};
use crate::trig::trig_pair;

verus! {

/// Largest transform length a planner accepts; it keeps every intermediate
/// value of a transform within an `i64` (see [`crate::sample::MAX_SAMPLE`]).
pub const MAX_LEN: usize = 8192;

/// The smallest odd divisor of `n` that is at least `d`, searched up to the
/// square root of `n`; `n` itself when there is none (then `n` is prime,
/// provided `n` is odd and has no divisor below `d`).
pub open spec fn small_odd_divisor(n: int, d: int) -> int
    decreases (if d <= n { n - d } else { 0 }) via small_odd_divisor_decreases
{
    if d < 3 || n < d * d {
        n
    } else if n % d == 0 {
        d
    } else {
        small_odd_divisor(n, d + 2)
    }
}

#[via_fn]
proof fn small_odd_divisor_decreases(n: int, d: int) {
    if !(d < 3 || n < d * d) && n % d != 0 {
        assert(d + 2 <= n) by (nonlinear_arith)
            requires
                3 <= d,
                d * d <= n,
        ;
    }
}

/// The radix extracted first from a working length `n`: `4` when it divides
/// `n`, else `2` when `n` is even, else the smallest odd prime divisor
/// (or `n` itself when `n` is prime).
pub open spec fn preferred_radix(n: int) -> int {
    if n % 4 == 0 {
        4
    } else if n % 2 == 0 {
        2
    } else {
        small_odd_divisor(n, 3)
    }
}

/// The ordered radix sequence of a working length `n`: radices are extracted
/// by [`preferred_radix`] until the length is fully factored.
pub open spec fn factor_seq(n: int) -> Seq<int>
    decreases n via factor_seq_decreases
{
    if n <= 1 {
        Seq::empty()
    } else {
        let p = preferred_radix(n);
        if 2 <= p && p <= n && n % p == 0 {
            seq![p] + factor_seq(n / p)
        } else {
            seq![n]
        }
    }
}

#[via_fn]
proof fn factor_seq_decreases(n: int) {
    if n > 1 {
        let p = preferred_radix(n);
        if 2 <= p && p <= n && n % p == 0 {
            vstd::arithmetic::div_mod::lemma_div_is_strictly_smaller(n, p);
            vstd::arithmetic::div_mod::lemma_div_pos_is_pos(n, p);
        }
    }
}

/// Product of a sequence of integers.
pub open spec fn seq_product(s: Seq<int>) -> int
    decreases s.len(),
{
    if s.len() == 0 {
        1
    } else {
        s[0] * seq_product(s.drop_first())
    }
}

/// [`small_odd_divisor`] returns a divisor of `n` between 2 and `n`.
proof fn lemma_small_odd_divisor(n: int, d: int)
    requires
        3 <= d,
        3 <= n,
        d % 2 == 1,
    ensures
        2 <= small_odd_divisor(n, d),
        small_odd_divisor(n, d) <= n,
        n % small_odd_divisor(n, d) == 0,
    decreases (if d <= n { n - d } else { 0 }),
{
    if d < 3 || n < d * d {
        vstd::arithmetic::div_mod::lemma_mod_self_0(n);
    } else if n % d == 0 {
        assert(d <= n) by (nonlinear_arith)
            requires
                3 <= d,
                d * d <= n,
        ;
    } else {
        assert(d + 2 <= n) by (nonlinear_arith)
            requires
                3 <= d,
                d * d <= n,
        ;
        lemma_small_odd_divisor(n, d + 2);
    }
}

/// [`preferred_radix`] of any `n >= 2` is a divisor of `n` between 2 and `n`.
pub proof fn lemma_preferred_radix(n: int)
    requires
        2 <= n,
    ensures
        2 <= preferred_radix(n),
        preferred_radix(n) <= n,
        n % preferred_radix(n) == 0,
{
    if n % 4 == 0 {
        assert(4 <= n);
    } else if n % 2 == 0 {
    } else {
        lemma_small_odd_divisor(n, 3);
    }
}

/// The factor sequence of `n >= 1` multiplies back to `n`, and each radix
/// lies between 2 and `n`.
pub proof fn lemma_factor_seq_props(n: int)
    requires
        1 <= n,
    ensures
        seq_product(factor_seq(n)) == n,
        forall|i: int|
            0 <= i < factor_seq(n).len() ==> 2 <= #[trigger] factor_seq(n)[i] <= n,
    decreases n,
{
    if n == 1 {
        assert(factor_seq(1) =~= Seq::<int>::empty());
    } else {
        let p = preferred_radix(n);
        lemma_preferred_radix(n);
        let rest = factor_seq(n / p);
        assert(factor_seq(n) == seq![p] + rest);
        vstd::arithmetic::div_mod::lemma_div_pos_is_pos(n, p);
        vstd::arithmetic::div_mod::lemma_div_is_strictly_smaller(n, p);
        if n / p == 0 {
            vstd::arithmetic::div_mod::lemma_fundamental_div_mod(n, p);
        }
        lemma_factor_seq_props(n / p);
        assert((seq![p] + rest).drop_first() =~= rest);
        vstd::arithmetic::div_mod::lemma_fundamental_div_mod(n, p);
        assert(p * (n / p) == n);
        assert(seq_product(factor_seq(n)) == p * seq_product(rest));
        assert(forall|i: int|
            0 <= i < factor_seq(n).len() ==> 2 <= #[trigger] factor_seq(n)[i] <= n) by {
            assert(forall|i: int|
                1 <= i < factor_seq(n).len() ==> factor_seq(n)[i] == rest[i - 1]);
            assert(n / p <= n);
        }
    }
}

/// Smallest odd divisor of an odd `n`, found by trial division; `n` itself
/// when `n` is prime.
fn small_odd_divisor_exec(n: usize) -> (p: usize)
    requires
        3 <= n <= MAX_LEN,
        n % 2 == 1,
    ensures
        p as int == small_odd_divisor(n as int, 3),
{
    let mut d: usize = 3;
    loop
        invariant
            3 <= d,
            d % 2 == 1,
            d <= n + 2,
            3 <= n <= MAX_LEN,
            small_odd_divisor(n as int, 3) == small_odd_divisor(n as int, d as int),
        decreases n + 2 - d,
    {
        proof {
            assert(d * d <= 67141636) by (nonlinear_arith)
                requires
                    d <= 8194,
            ;
        }
        if n < d * d {
            return n;
        }
        if n % d == 0 {
            return d;
        }
        proof {
            assert(d + 2 <= n) by (nonlinear_arith)
                requires
                    3 <= d,
                    d * d <= n,
            ;
        }
        d = d + 2;
    }
}

/// The first radix extracted from `n`: `4`, `2`, or the smallest odd prime
/// divisor of `n` (see [`preferred_radix`]).
pub fn pick_factor(n: usize) -> (p: usize)
    requires
        2 <= n <= MAX_LEN,
    ensures
        p as int == preferred_radix(n as int),
        2 <= p <= n,
        n % p == 0,
{
    proof {
        lemma_preferred_radix(n as int);
    }
    if n % 4 == 0 {
        4
    } else if n % 2 == 0 {
        2
    } else {
        small_odd_divisor_exec(n)
    }
}

/// Factor a working length into its ordered radix sequence.
///
/// The result is exactly [`factor_seq`]`(n)`: radices multiply back to `n`
/// and are drawn preferring `4`, then `2`, then ascending odd primes.
pub fn factor(n: usize) -> (fs: Vec<usize>)
    requires
        1 <= n <= MAX_LEN,
    ensures
        fs@.map_values(|f: usize| f as int) == factor_seq(n as int),
        seq_product(fs@.map_values(|f: usize| f as int)) == n,
        forall|i: int| 0 <= i < fs@.len() ==> 2 <= #[trigger] fs@[i] <= n,
{
    let mut fs: Vec<usize> = Vec::new();
    let mut cur: usize = n;
    proof {
        assert(fs@.map_values(|f: usize| f as int) =~= Seq::<int>::empty());
    }
    while cur > 1
        invariant
            1 <= cur <= n <= MAX_LEN,
            factor_seq(n as int) == fs@.map_values(|f: usize| f as int) + factor_seq(cur as int),
            forall|i: int| 0 <= i < fs@.len() ==> 2 <= #[trigger] fs@[i] <= n,
        decreases cur,
    {
        let p = pick_factor(cur);
        let ghost pre = fs@.map_values(|f: usize| f as int);
        fs.push(p);
        proof {
            assert(fs@.map_values(|f: usize| f as int) =~= pre.push(p as int));
            assert(factor_seq(cur as int) == seq![p as int] + factor_seq(cur as int / p as int));
            assert(pre + (seq![p as int] + factor_seq(cur as int / p as int)) =~= pre.push(
                p as int,
            ) + factor_seq(cur as int / p as int));
            vstd::arithmetic::div_mod::lemma_div_non_zero(cur as int, p as int);
            vstd::arithmetic::div_mod::lemma_fundamental_div_mod(cur as int, p as int);
            vstd::arithmetic::div_mod::lemma_div_is_strictly_smaller(cur as int, p as int);
        }
        cur = cur / p;
    }
    proof {
        assert(factor_seq(cur as int) =~= Seq::<int>::empty());
        assert(fs@.map_values(|f: usize| f as int) + Seq::<int>::empty() =~= fs@.map_values(
            |f: usize| f as int,
        ));
        lemma_factor_seq_props(n as int);
    }
    fs
}

/// Exact cosine of the on-axis angle `q * pi / 2` (`q` in `0..4`), in Q16.16.
pub open spec fn axis_cos(q: int) -> int {
    if q == 0 {
        65536
    } else if q == 1 {
        0
    } else if q == 2 {
        -65536
    } else {
        0
    }
}

/// Exact sine of the on-axis angle `q * pi / 2` (`q` in `0..4`), in Q16.16.
pub open spec fn axis_sin(q: int) -> int {
    if q == 0 {
        0
    } else if q == 1 {
        65536
    } else if q == 2 {
        0
    } else {
        -65536
    }
}

/// A well-formed twiddle table of length `n` for direction `dir`: every root
/// is bounded by one, and the on-axis roots (angles that are multiples of
/// `pi / 2`, where `4 * k` is a multiple of `n`) are stored exactly.
pub open spec fn twiddle_wf(tw: Seq<SpecCpx>, n: int, dir: Direction) -> bool {
    &&& tw.len() == n
    &&& seq_bounded(tw, 65536)
    &&& forall|k: int|
        0 <= k < n && (4 * k) % n == 0 ==> (#[trigger] tw[k]).re == axis_cos(4 * k / n)
            && tw[k].im == (if dir == Direction::Forward {
            -axis_sin(4 * k / n)
        } else {
            axis_sin(4 * k / n)
        })
}

/// Build the twiddle table for root length `n` and direction `direction`:
/// entry `k` approximates `exp(sign * i * 2 pi k / n)` in Q16.16, the sign
/// negative for `Forward` and positive for `Inverse`; on-axis entries are
/// exact (see [`twiddle_wf`]).
pub fn build_twiddles(n: usize, direction: Direction) -> (tw: Vec<ComplexSample>)
    requires
        1 <= n <= MAX_LEN,
    ensures
        twiddle_wf(dv(tw@), n as int, direction),
{
    let mut tw: Vec<ComplexSample> = Vec::new();
    let mut k: usize = 0;
    while k < n
        invariant
            k <= n <= MAX_LEN,
            1 <= n,
            tw@.len() == k,
            seq_bounded(dv(tw@), 65536),
            forall|j: int|
                0 <= j < k && (4 * j) % (n as int) == 0 ==> (#[trigger] dv(tw@)[j]).re == axis_cos(
                    4 * j / (n as int),
                ) && dv(tw@)[j].im == (if direction == Direction::Forward {
                    -axis_sin(4 * j / (n as int))
                } else {
                    axis_sin(4 * j / (n as int))
                }),
        decreases n - k,
    {
        let (c, s) = trig_pair(k, n);
        let im: i64 = match direction {
            Direction::Forward => -s,
            Direction::Inverse => s,
        };
        let ghost pre = dv(tw@);
        tw.push(ComplexSample::new(c, im));
        proof {
            assert(dv(tw@) =~= pre.push(SpecCpx { re: c as int, im: im as int }));
        }
        k = k + 1;
    }
    tw
}

} // verus!
