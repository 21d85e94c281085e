//! Complex samples in binary fixed point, and the exact arithmetic model
//! every transform contract is stated over.
//!
//! A [`ComplexSample`] holds a real and an imaginary component, each a Q16.16
//! fixed-point number in an `i64`: the represented value is `component /
//! 65536`. The binary contract is explicit so callers can convert to and from
//! other numeric formats: `new(re, im)` stores the two components verbatim,
//! and the default sample is `(0, 0)`.
//!
//! The spec-level model is [`SpecCpx`], a pair of unbounded integers. Sums
//! and differences of samples are exact; a product of two samples scales by
//! `65536` and is brought back by [`fx_div`], division rounding toward zero.

use vstd::prelude::*;

verus! {

/// Number of fractional bits of the fixed-point format.
pub const FX_SHIFT: u64 = 16;

/// The fixed-point representation of one: `2^16`.
pub const FX_ONE: i64 = 65536;

/// Largest magnitude a planner accepts in an input component.
///
/// Keeping inputs within `2^33` (a represented magnitude of `2^17`)
/// guarantees that every intermediate value of a transform of length at most
/// [`crate::plan::MAX_LEN`] fits an `i64` without overflow.
pub const MAX_SAMPLE: i64 = 0x2_0000_0000;

/// Spec-level model of a complex sample: unbounded integer components, still
/// in Q16.16 scale.
pub ghost struct SpecCpx {
    pub re: int,
    pub im: int,
}

/// One complex sample: real and imaginary components in Q16.16 fixed point.
#[derive(Debug, Clone, Copy, PartialEq, Eq, Structural)]
pub struct ComplexSample {
    pub re: i64,
    pub im: i64,
}

impl View for ComplexSample {
    type V = SpecCpx;

    open spec fn view(&self) -> SpecCpx {
        SpecCpx { re: self.re as int, im: self.im as int }
    }
}

/// Spec view of a sequence of samples as a sequence of integer pairs.
pub open spec fn dv(s: Seq<ComplexSample>) -> Seq<SpecCpx> {
    s.map_values(|c: ComplexSample| c@)
}

impl ComplexSample {
    /// Build a sample from its raw Q16.16 components.
    pub fn new(re: i64, im: i64) -> (s: ComplexSample)
        ensures
            s.re == re,
            s.im == im,
    {
        ComplexSample { re, im }
    }
}

impl Default for ComplexSample {
    /// The default sample is zero: `(0, 0)`.
    fn default() -> (s: ComplexSample)
        ensures
            s.re == 0,
            s.im == 0,
    {
        ComplexSample { re: 0, im: 0 }
    }
}

/// Integer division rounding toward zero, the rounding rule of every
/// fixed-point product and of the halving step of the real-FFT recombination.
pub open spec fn fx_div(x: int, d: int) -> int {
    if x >= 0 {
        x / d
    } else {
        -((-x) / d)
    }
}

/// Zero in the spec model.
pub open spec fn spx_zero() -> SpecCpx {
    SpecCpx { re: 0, im: 0 }
}

/// Exact complex addition in the spec model.
pub open spec fn spx_add(a: SpecCpx, b: SpecCpx) -> SpecCpx {
    SpecCpx { re: a.re + b.re, im: a.im + b.im }
}

/// Complex product in the spec model: the exact integer product is scaled
/// back by `2^16`, each component rounding toward zero.
pub open spec fn spx_mul(a: SpecCpx, b: SpecCpx) -> SpecCpx {
    SpecCpx {
        re: fx_div(a.re * b.re - a.im * b.im, 65536),
        im: fx_div(a.re * b.im + a.im * b.re, 65536),
    }
}

/// Both components of `c` lie within `[-b, b]`.
pub open spec fn spx_bounded(c: SpecCpx, b: int) -> bool {
    -b <= c.re <= b && -b <= c.im <= b
}

/// Every sample of `s` is bounded by `b` (see [`spx_bounded`]).
pub open spec fn seq_bounded(s: Seq<SpecCpx>, b: int) -> bool {
    forall|i: int| 0 <= i < s.len() ==> spx_bounded(#[trigger] s[i], b)
}

/// Division of an `i128` by a positive divisor, rounding toward zero.
pub(crate) fn div_toward_zero(x: i128, d: u64) -> (r: i128)
    requires
        1 <= d,
        i128::MIN < x,
    ensures
        r == fx_div(x as int, d as int),
        x >= 0 ==> 0 <= r <= x,
        x < 0 ==> x <= r <= 0,
{
    if x >= 0 {
        let q: u128 = (x as u128) / (d as u128);
        proof {
            vstd::arithmetic::div_mod::lemma_div_basics_5(x as int, d as int);
        }
        q as i128
    } else {
        let m: u128 = ((-x) as u128) / (d as u128);
        proof {
            vstd::arithmetic::div_mod::lemma_div_basics_5((-x) as int, d as int);
        }
        -(m as i128)
    }
}

/// Halve a fixed-point component, rounding toward zero: the halving step of
/// the real-FFT recombination.
pub(crate) fn fx_half(v: i64) -> (r: i64)
    ensures
        r == fx_div(v as int, 2),
        v >= 0 ==> 0 <= r <= v,
        v < 0 ==> v <= r <= 0,
{
    let w = div_toward_zero(v as i128, 2);
    w as i64
}

/// Exact sum of two samples. The bound hypotheses rule out overflow.
pub(crate) fn cadd(a: ComplexSample, b: ComplexSample) -> (r: ComplexSample)
    requires
        spx_bounded(a@, 0x2000_0000_0000_0000),
        spx_bounded(b@, 0x2000_0000_0000_0000),
    ensures
        r@ == spx_add(a@, b@),
{
    ComplexSample { re: a.re + b.re, im: a.im + b.im }
}

/// Fixed-point complex product of a sample by a twiddle factor.
///
/// The twiddle `w` is bounded by one (`2^16` in Q16.16), so each result
/// component is bounded by `|a.re| + |a.im|`; the contract states the result
/// exactly as [`spx_mul`].
pub(crate) fn cmul(a: ComplexSample, w: ComplexSample, ab: Ghost<int>) -> (r: ComplexSample)
    requires
        0 <= ab@ <= 0x1000_0000_0000_0000,
        spx_bounded(a@, ab@),
        spx_bounded(w@, 65536),
    ensures
        r@ == spx_mul(a@, w@),
        spx_bounded(r@, 2 * ab@),
{
    proof {
        lemma_mul_bound(a.re as int, w.re as int, ab@, 65536);
        lemma_mul_bound(a.im as int, w.im as int, ab@, 65536);
        lemma_mul_bound(a.re as int, w.im as int, ab@, 65536);
        lemma_mul_bound(a.im as int, w.re as int, ab@, 65536);
    }
    let pr: i128 = (a.re as i128) * (w.re as i128) - (a.im as i128) * (w.im as i128);
    let pi: i128 = (a.re as i128) * (w.im as i128) + (a.im as i128) * (w.re as i128);
    let rr: i128 = div_toward_zero(pr, 65536);
    let ri: i128 = div_toward_zero(pi, 65536);
    proof {
        lemma_fx_div_bound(pr as int, 2 * ab@ * 65536);
        lemma_fx_div_bound(pi as int, 2 * ab@ * 65536);
        assert((2 * ab@ * 65536) / 65536 == 2 * ab@) by {
            vstd::arithmetic::div_mod::lemma_div_multiples_vanish(2 * ab@, 65536);
        }
    }
    ComplexSample { re: rr as i64, im: ri as i64 }
}

/// `|x| <= a` and `|y| <= b` give `|x * y| <= a * b`.
pub proof fn lemma_mul_bound(x: int, y: int, a: int, b: int)
    requires
        -a <= x <= a,
        -b <= y <= b,
        0 <= a,
        0 <= b,
    ensures
        -(a * b) <= x * y <= a * b,
{
    assert(-(a * b) <= x * y <= a * b) by (nonlinear_arith)
        requires
            -a <= x <= a,
            -b <= y <= b,
            0 <= a,
            0 <= b,
    ;
}

/// Scaling by one in fixed point is exact: `fx_div(65536 * v, 65536) == v`.
pub proof fn lemma_fx_div_scale(v: int)
    ensures
        fx_div(65536 * v, 65536) == v,
{
    if v >= 0 {
        vstd::arithmetic::div_mod::lemma_div_multiples_vanish(v, 65536);
    } else {
        vstd::arithmetic::div_mod::lemma_div_multiples_vanish(-v, 65536);
        assert(-(65536 * v) == 65536 * (-v));
    }
}

/// Multiplication by an on-axis unit (1, -i, -1, i) is an exact rotation:
/// no rounding is involved, because the products are multiples of `65536`.
pub proof fn lemma_axis_mul(a: SpecCpx)
    ensures
        spx_mul(a, SpecCpx { re: 65536, im: 0 }) == a,
        spx_mul(a, SpecCpx { re: 0, im: -65536 }) == (SpecCpx { re: a.im, im: -a.re }),
        spx_mul(a, SpecCpx { re: -65536, im: 0 }) == (SpecCpx { re: -a.re, im: -a.im }),
        spx_mul(a, SpecCpx { re: 0, im: 65536 }) == (SpecCpx { re: -a.im, im: a.re }),
{
    lemma_fx_div_scale(a.re);
    lemma_fx_div_scale(a.im);
    lemma_fx_div_scale(-a.re);
    lemma_fx_div_scale(-a.im);
    assert(a.re * 65536 - a.im * 0 == 65536 * a.re);
    assert(a.re * 0 + a.im * 65536 == 65536 * a.im);
    assert(a.re * 0 - a.im * (-65536) == 65536 * a.im);
    assert(a.re * (-65536) + a.im * 0 == 65536 * (-a.re));
    assert(a.re * (-65536) - a.im * 0 == 65536 * (-a.re));
    assert(a.re * 0 + a.im * (-65536) == 65536 * (-a.im));
    assert(a.re * 0 - a.im * 65536 == 65536 * (-a.im));
    assert(a.re * 65536 + a.im * 0 == 65536 * a.re);
}

/// Division toward zero by `65536` maps `[-m, m]` into `[-m/65536, m/65536]`.
pub proof fn lemma_fx_div_bound(x: int, m: int)
    requires
        0 <= m,
        -m <= x <= m,
    ensures
        -(m / 65536) <= fx_div(x, 65536) <= m / 65536,
{
    if x >= 0 {
        vstd::arithmetic::div_mod::lemma_div_is_ordered(x, m, 65536);
        vstd::arithmetic::div_mod::lemma_div_pos_is_pos(x, 65536);
    } else {
        vstd::arithmetic::div_mod::lemma_div_is_ordered(-x, m, 65536);
        vstd::arithmetic::div_mod::lemma_div_pos_is_pos(-x, 65536);
    }
}

} // verus!
