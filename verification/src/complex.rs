//! Mixed-radix complex FFT planner.
//!
//! [`FftPlanner::new`] factors the transform length into small radices and
//! precomputes the twiddle table once; [`FftPlanner::transform`] then applies
//! a mixed-radix Cooley-Tukey decimation-in-time schedule: the input is split
//! into `p` interleaved sub-transforms, each is transformed recursively, and
//! a radix-`p` butterfly recombines them with twiddle multiplications, so the
//! output comes out in natural order. The planner is immutable: transforms
//! take `&self` and the output is a pure function of the plan and the input,
//! stated exactly by [`fft_spec`].

use vstd::prelude::*;
use crate::Direction;
use crate::sample::{
    ComplexSample, SpecCpx, dv, seq_bounded, spx_bounded, spx_add, spx_mul, spx_zero, cadd, cmul,
    MAX_SAMPLE,
};
use crate::plan::{
    MAX_LEN, factor, factor_seq, build_twiddles, twiddle_wf, seq_product, lemma_factor_seq_props,
    preferred_radix,
};
use crate::sample::lemma_axis_mul;

verus! {

/// The radices of `fs` from position `fi` on, as unbounded integers.
pub open spec fn tail_factors(fs: Seq<usize>, fi: int) -> Seq<int> {
    fs.subrange(fi, fs.len() as int).map_values(|f: usize| f as int)
}

/// The first `q` terms of output bin `k` of a butterfly stage: the stage
/// splits a length `p * m` into `p` sub-transforms of length `m` (`subs`),
/// and bin `k` is `sum over q of subs[q][k mod m] * w^(stride * q * k)`,
/// where `w` is the primitive root the table `tw` of length `nroot` holds.
pub open spec fn bin_sum(
    subs: Seq<Seq<SpecCpx>>,
    tw: Seq<SpecCpx>,
    nroot: int,
    stride: int,
    m: int,
    k: int,
    q: int,
) -> SpecCpx
    decreases q,
{
    if q <= 0 {
        spx_zero()
    } else {
        spx_add(
            bin_sum(subs, tw, nroot, stride, m, k, q - 1),
            spx_mul(subs[q - 1][k % m], tw[(stride * (q - 1) * k) % nroot]),
        )
    }
}

/// The mixed-radix FFT of the samples `x[off], x[off + stride], ...`, whose
/// length is the product of `factors`, stated over the twiddle table `tw` of
/// the root length `nroot`. An empty factor sequence is a length-1 transform:
/// the sample itself. Otherwise the first radix `p` splits the samples into
/// `p` interleaved sub-sequences, each is transformed recursively at stride
/// `stride * p`, and [`bin_sum`] recombines them.
pub open spec fn fft_spec(
    x: Seq<SpecCpx>,
    off: int,
    stride: int,
    factors: Seq<int>,
    tw: Seq<SpecCpx>,
    nroot: int,
) -> Seq<SpecCpx>
    decreases factors.len(), 1int,
{
    if factors.len() == 0 {
        seq![x[off]]
    } else {
        let p = factors[0];
        let m = seq_product(factors.drop_first());
        let subs = fft_subs(x, off, stride, factors.drop_first(), tw, nroot, p);
        Seq::new((p * m) as nat, |k: int| bin_sum(subs, tw, nroot, stride, m, k, p))
    }
}

/// The `p` sub-transforms a butterfly stage recombines: entry `q` is the FFT
/// of the samples starting at `off + q * stride`, taken at stride
/// `stride * p`, with the remaining radices `rest`.
pub open spec fn fft_subs(
    x: Seq<SpecCpx>,
    off: int,
    stride: int,
    rest: Seq<int>,
    tw: Seq<SpecCpx>,
    nroot: int,
    p: int,
) -> Seq<Seq<SpecCpx>>
    decreases rest.len(), 2int,
{
    Seq::new(p as nat, |q: int| fft_spec(x, off + q * stride, stride * p, rest, tw, nroot))
}

/// Bound on every output component of a transform of length `n` whose input
/// components are bounded by [`MAX_SAMPLE`].
pub open spec fn out_bound(n: int) -> int {
    2 * n * n * (MAX_SAMPLE as int)
}

/// A product of radices that are all at least 2 is at least 1.
pub proof fn lemma_seq_product_pos(s: Seq<int>)
    requires
        forall|i: int| 0 <= i < s.len() ==> 2 <= #[trigger] s[i],
    ensures
        seq_product(s) >= 1,
    decreases s.len(),
{
    if s.len() > 0 {
        assert(forall|i: int|
            0 <= i < s.drop_first().len() ==> 2 <= #[trigger] s.drop_first()[i]);
        lemma_seq_product_pos(s.drop_first());
        assert(s[0] * seq_product(s.drop_first()) >= 1) by (nonlinear_arith)
            requires
                2 <= s[0],
                1 <= seq_product(s.drop_first()),
        ;
    }
}

/// The recursive mixed-radix engine: transform the `n_sub` samples
/// `x[off], x[off + stride], ...` with the radices of `factors` from `fi` on.
#[verifier::loop_isolation(false)]
fn fft_rec(
    x: &Vec<ComplexSample>,
    off: usize,
    stride: usize,
    factors: &Vec<usize>,
    fi: usize,
    tw: &Vec<ComplexSample>,
    nroot: usize,
    n_sub: usize,
) -> (out: Vec<ComplexSample>)
    requires
        fi <= factors@.len(),
        n_sub as int == seq_product(tail_factors(factors@, fi as int)),
        forall|j: int| fi <= j < factors@.len() ==> 2 <= #[trigger] factors@[j] <= nroot,
        1 <= n_sub,
        1 <= stride,
        stride * n_sub == nroot,
        nroot <= MAX_LEN,
        x@.len() == nroot,
        off < stride,
        seq_bounded(dv(x@), MAX_SAMPLE as int),
        tw@.len() == nroot,
        seq_bounded(dv(tw@), 65536),
    ensures
        out@.len() == n_sub,
        dv(out@) == fft_spec(
            dv(x@),
            off as int,
            stride as int,
            tail_factors(factors@, fi as int),
            dv(tw@),
            nroot as int,
        ),
        seq_bounded(dv(out@), out_bound(n_sub as int)),
    decreases factors@.len() - fi,
{
    let ghost rem = tail_factors(factors@, fi as int);
    if fi == factors.len() {
        proof {
            assert(rem =~= Seq::<int>::empty());
            assert(stride == nroot) by (nonlinear_arith)
                requires
                    stride * n_sub == nroot,
                    n_sub == 1,
            ;
        }
        let mut out: Vec<ComplexSample> = Vec::new();
        out.push(x[off]);
        proof {
            assert(dv(out@) =~= fft_spec(
                dv(x@),
                off as int,
                stride as int,
                rem,
                dv(tw@),
                nroot as int,
            ));
            assert(out_bound(1) == 2 * (MAX_SAMPLE as int));
        }
        return out;
    }
    let p = factors[fi];
    let ghost rest = tail_factors(factors@, fi as int + 1);
    proof {
        assert(rem.drop_first() =~= rest);
        assert(rem[0] == p as int);
        assert(n_sub as int == (p as int) * seq_product(rest));
        assert(forall|j: int| 0 <= j < rest.len() ==> 2 <= #[trigger] rest[j]) by {
            assert(forall|j: int|
                0 <= j < rest.len() ==> rest[j] == factors@[fi + 1 + j] as int);
        }
        lemma_seq_product_pos(rest);
    }
    let m = n_sub / p;
    proof {
        vstd::arithmetic::div_mod::lemma_div_multiples_vanish(seq_product(rest), p as int);
        assert(m as int == seq_product(rest));
        assert(p * m == n_sub) by (nonlinear_arith)
            requires
                n_sub as int == (p as int) * (m as int),
        ;
        assert(p <= n_sub && m <= n_sub) by (nonlinear_arith)
            requires
                n_sub as int == (p as int) * (m as int),
                1 <= m,
                2 <= p,
        ;
        assert(stride * p <= nroot && (stride * p) * m == nroot) by (nonlinear_arith)
            requires
                stride * n_sub == nroot,
                n_sub as int == (p as int) * (m as int),
                1 <= m,
                2 <= p,
                1 <= stride,
        ;
        assert(n_sub <= nroot) by (nonlinear_arith)
            requires
                stride * n_sub == nroot,
                1 <= stride,
                1 <= n_sub,
        ;
    }
    let ghost cb = out_bound(m as int);
    proof {
        assert(cb <= 0x1000_0000_0000_0000) by (nonlinear_arith)
            requires
                cb == 2 * (m as int) * (m as int) * (MAX_SAMPLE as int),
                1 <= m,
                m <= 8192,
                MAX_SAMPLE == 0x2_0000_0000,
        ;
        assert(0 <= cb) by (nonlinear_arith)
            requires
                cb == 2 * (m as int) * (m as int) * (MAX_SAMPLE as int),
                1 <= m,
                MAX_SAMPLE == 0x2_0000_0000,
        ;
    }
    // Transform the p interleaved sub-sequences recursively.
    let mut subs: Vec<Vec<ComplexSample>> = Vec::new();
    let mut q: usize = 0;
    while q < p
        invariant
            q <= p,
            subs@.len() == q,
            forall|j: int| 0 <= j < q ==> (#[trigger] subs@[j])@.len() == m,
            forall|j: int|
                0 <= j < q ==> dv((#[trigger] subs@[j])@) == fft_spec(
                    dv(x@),
                    off + j * stride,
                    (stride * p) as int,
                    rest,
                    dv(tw@),
                    nroot as int,
                ),
            forall|j: int| 0 <= j < q ==> seq_bounded(dv((#[trigger] subs@[j])@), cb),
        decreases p - q,
    {
        proof {
            assert(off + q * stride < stride * p) by (nonlinear_arith)
                requires
                    off < stride,
                    q < p,
                    1 <= stride,
            ;
        }
        let sub = fft_rec(x, off + q * stride, stride * p, factors, fi + 1, tw, nroot, m);
        subs.push(sub);
        q = q + 1;
    }
    let ghost twdv = dv(tw@);
    let ghost xdv = dv(x@);
    let ghost spec_subs = fft_subs(
        xdv,
        off as int,
        stride as int,
        rest,
        twdv,
        nroot as int,
        p as int,
    );
    let ghost result_full = fft_spec(xdv, off as int, stride as int, rem, twdv, nroot as int);
    proof {
        assert(spec_subs == fft_subs(
            xdv,
            off as int,
            stride as int,
            rem.drop_first(),
            twdv,
            nroot as int,
            rem[0],
        ));
        assert(spec_subs.len() == p);
        assert forall|j: int| 0 <= j < p implies #[trigger] spec_subs[j] == fft_spec(
            xdv,
            off + j * (stride as int),
            (stride * p) as int,
            rest,
            twdv,
            nroot as int,
        ) by {}
        assert(result_full.len() == n_sub);
        assert forall|kk: int| 0 <= kk < n_sub implies #[trigger] result_full[kk] == bin_sum(
            spec_subs,
            twdv,
            nroot as int,
            stride as int,
            m as int,
            kk,
            p as int,
        ) by {}
    }
    // Butterfly recombination: output bin k sums one term from each
    // sub-transform, rotated by the twiddle of index stride * q * k.
    let mut out: Vec<ComplexSample> = Vec::new();
    let mut k: usize = 0;
    while k < n_sub
        invariant
            k <= n_sub,
            out@.len() == k,
            forall|i: int| 0 <= i < k ==> dv(out@)[i] == result_full[i],
            seq_bounded(dv(out@), out_bound(n_sub as int)),
        decreases n_sub - k,
    {
        let mut acc = ComplexSample::new(0, 0);
        let mut q: usize = 0;
        while q < p
            invariant
                q <= p,
                acc@ == bin_sum(
                    spec_subs,
                    twdv,
                    nroot as int,
                    stride as int,
                    m as int,
                    k as int,
                    q as int,
                ),
                spx_bounded(acc@, (q as int) * (2 * cb)),
            decreases p - q,
        {
            let km = k % m;
            proof {
                assert(stride * q < nroot) by (nonlinear_arith)
                    requires
                        q < p,
                        1 <= stride,
                        stride * p <= nroot,
                ;
                assert(stride * q * k <= nroot * nroot) by (nonlinear_arith)
                    requires
                        stride * q < nroot,
                        k < n_sub,
                        n_sub <= nroot,
                        0 <= stride * q,
                        1 <= nroot,
                ;
                assert(nroot * nroot <= 67108864) by (nonlinear_arith)
                    requires
                        nroot <= 8192,
                ;
                assert(spx_bounded(dv(subs@[q as int]@)[km as int], cb));
                assert(dv(subs@[q as int]@)[km as int] == subs@[q as int]@[km as int]@);
            }
            let idx = (stride * q * k) % nroot;
            proof {
                assert(spx_bounded(dv(tw@)[idx as int], 65536));
                assert(dv(tw@)[idx as int] == tw@[idx as int]@);
            }
            let t = cmul(subs[q][km], tw[idx], Ghost(cb));
            proof {
                assert((q as int) * (2 * cb) <= (p as int) * (2 * cb)) by (nonlinear_arith)
                    requires
                        0 <= q <= p,
                        0 <= cb,
                ;
                assert((p as int) * (2 * cb) == 4 * ((p as int) * (m as int)) * (m as int) * (
                MAX_SAMPLE as int)) by (nonlinear_arith)
                    requires
                        cb == 2 * (m as int) * (m as int) * (MAX_SAMPLE as int),
                ;
                assert(4 * (n_sub as int) * (m as int) * (MAX_SAMPLE as int)
                    <= 0x2000_0000_0000_0000) by (nonlinear_arith)
                    requires
                        1 <= m,
                        m <= n_sub,
                        n_sub <= 8192,
                        MAX_SAMPLE == 0x2_0000_0000,
                ;
                assert(spx_bounded(acc@, 0x2000_0000_0000_0000));
                assert(spx_bounded(t@, 0x2000_0000_0000_0000));
            }
            let acc2 = cadd(acc, t);
            proof {
                assert(acc2@ == bin_sum(
                    spec_subs,
                    twdv,
                    nroot as int,
                    stride as int,
                    m as int,
                    k as int,
                    q as int + 1,
                ));
                assert(spx_bounded(acc2@, (q as int + 1) * (2 * cb))) by (nonlinear_arith)
                    requires
                        spx_bounded(acc@, (q as int) * (2 * cb)),
                        spx_bounded(t@, 2 * cb),
                        acc2@ == spx_add(acc@, t@),
                        0 <= cb,
                        0 <= q,
                ;
            }
            acc = acc2;
            q = q + 1;
        }
        proof {
            assert((p as int) * (2 * cb) <= out_bound(n_sub as int)) by (nonlinear_arith)
                requires
                    cb == 2 * (m as int) * (m as int) * (MAX_SAMPLE as int),
                    p * m == n_sub,
                    2 <= p,
                    1 <= m,
                    0 <= MAX_SAMPLE,
                    out_bound(n_sub as int) == 2 * (n_sub as int) * (n_sub as int) * (
                    MAX_SAMPLE as int),
            ;
            assert(spx_bounded(acc@, out_bound(n_sub as int)));
        }
        let ghost pre = dv(out@);
        out.push(acc);
        proof {
            assert(dv(out@) =~= pre.push(acc@));
        }
        k = k + 1;
    }
    proof {
        assert(dv(out@) =~= result_full);
    }
    out
}

/// A reusable plan for complex transforms of one fixed length and direction:
/// the radix factorization and the twiddle table, both immutable after
/// construction. Two independent planners never share mutable state, and a
/// transform call reads the plan only.
pub struct FftPlanner {
    nfft: usize,
    direction: Direction,
    factors: Vec<usize>,
    twiddles: Vec<ComplexSample>,
}

impl FftPlanner {
    /// The transform length this planner was built for.
    pub closed spec fn spec_len(&self) -> int {
        self.nfft as int
    }

    /// The direction this planner was built for.
    pub closed spec fn spec_direction(&self) -> Direction {
        self.direction
    }

    /// The radix sequence of the plan.
    pub closed spec fn spec_factors(&self) -> Seq<int> {
        self.factors@.map_values(|f: usize| f as int)
    }

    /// The twiddle table of the plan.
    pub closed spec fn spec_twiddles(&self) -> Seq<SpecCpx> {
        dv(self.twiddles@)
    }

    /// Well-formedness: the stored length is within range, the radix sequence
    /// is exactly the preferred factorization of the length (so it multiplies
    /// back to it), and the twiddle table is the table of that length and
    /// direction.
    pub closed spec fn wf(&self) -> bool {
        &&& 1 <= self.nfft <= MAX_LEN
        &&& self.spec_factors() == factor_seq(self.nfft as int)
        &&& seq_product(self.spec_factors()) == self.nfft as int
        &&& forall|i: int|
            0 <= i < self.spec_factors().len() ==> 2 <= #[trigger] self.spec_factors()[i]
                <= self.nfft as int
        &&& twiddle_wf(self.spec_twiddles(), self.nfft as int, self.direction)
    }

    /// What a transform by this planner returns: the mixed-radix FFT of the
    /// whole input at stride 1, over this plan's radices and twiddles.
    pub open spec fn spec_transform(&self, x: Seq<SpecCpx>) -> Seq<SpecCpx> {
        fft_spec(x, 0, 1, self.spec_factors(), self.spec_twiddles(), self.spec_len())
    }

    /// Build the plan for one fixed transform length and direction.
    ///
    /// The length must be even: odd lengths are outside this planner's
    /// contract and construction for them is refused (see [`Self::try_new`]).
    /// The working length is factored once and the twiddle table computed
    /// once; both are immutable afterwards.
    pub fn new(nfft: usize, direction: Direction) -> (planner: Self)
        requires
            2 <= nfft <= MAX_LEN,
            nfft % 2 == 0,
        ensures
            planner.wf(),
            planner.spec_len() == nfft,
            planner.spec_direction() == direction,
    {
        Self::new_any_length(nfft, direction)
    }

    /// Build the plan for any supported working length, even or odd: the
    /// engine itself is mixed-radix and does not need evenness. The public
    /// constructors keep the even-only contract; the real-input planner uses
    /// this one for its half-length sub-transform.
    pub(crate) fn new_any_length(nfft: usize, direction: Direction) -> (planner: Self)
        requires
            1 <= nfft <= MAX_LEN,
        ensures
            planner.wf(),
            planner.spec_len() == nfft,
            planner.spec_direction() == direction,
    {
        let factors = factor(nfft);
        let twiddles = build_twiddles(nfft, direction);
        proof {
            lemma_factor_seq_props(nfft as int);
        }
        FftPlanner { nfft, direction, factors, twiddles }
    }

    /// Checked construction: `Some` exactly when the length is even and
    /// within range, `None` otherwise (an odd or out-of-range length is an
    /// `InvalidLength` request, surfaced as `None`).
    pub fn try_new(nfft: usize, direction: Direction) -> (r: Option<Self>)
        ensures
            r is Some <==> (2 <= nfft <= MAX_LEN && nfft % 2 == 0),
            r matches Some(planner) ==> planner.wf() && planner.spec_len() == nfft
                && planner.spec_direction() == direction,
    {
        if 2 <= nfft && nfft <= MAX_LEN && nfft % 2 == 0 {
            Some(Self::new(nfft, direction))
        } else {
            None
        }
    }

    /// Transform a complex sequence of the planned length, allocating a new
    /// output buffer. The output is exactly [`Self::spec_transform`] of the
    /// input: a pure function of the immutable plan and of this call's input,
    /// so repeated calls on one planner never influence each other.
    pub fn transform(&self, input: &Vec<ComplexSample>) -> (out: Vec<ComplexSample>)
        requires
            self.wf(),
            input@.len() == self.spec_len(),
            seq_bounded(dv(input@), MAX_SAMPLE as int),
        ensures
            out@.len() == self.spec_len(),
            dv(out@) == self.spec_transform(dv(input@)),
            seq_bounded(dv(out@), out_bound(self.spec_len())),
    {
        proof {
            assert(tail_factors(self.factors@, 0) =~= self.spec_factors());
            assert forall|j: int| 0 <= j < self.factors@.len() implies 2 <= #[trigger] self.factors@[j]
                <= self.nfft by {
                assert(self.spec_factors()[j] == self.factors@[j] as int);
            }
        }
        fft_rec(input, 0, 1, &self.factors, 0, &self.twiddles, self.nfft, self.nfft)
    }

    /// Transform into a caller-supplied buffer of the planned length; the
    /// buffer's previous contents are fully overwritten with the same result
    /// [`Self::transform`] returns.
    pub fn transform_with_buffer(
        &self,
        input: &Vec<ComplexSample>,
        output: &mut Vec<ComplexSample>,
    )
        requires
            self.wf(),
            input@.len() == self.spec_len(),
            old(output)@.len() == self.spec_len(),
            seq_bounded(dv(input@), MAX_SAMPLE as int),
        ensures
            final(output)@.len() == self.spec_len(),
            dv(final(output)@) == self.spec_transform(dv(input@)),
    {
        let result = self.transform(input);
        *output = result;
    }

    /// Checked transform: `Some` exactly when the input length matches the
    /// plan (a mismatch is a `BufferSizeMismatch` request, surfaced as
    /// `None`), and then the value [`Self::transform`] returns.
    pub fn try_transform(&self, input: &Vec<ComplexSample>) -> (r: Option<Vec<ComplexSample>>)
        requires
            self.wf(),
            seq_bounded(dv(input@), MAX_SAMPLE as int),
        ensures
            r is Some <==> input@.len() == self.spec_len(),
            r matches Some(out) ==> out@.len() == self.spec_len() && dv(out@)
                == self.spec_transform(dv(input@)),
    {
        if input.len() == self.nfft {
            Some(self.transform(input))
        } else {
            None
        }
    }
}

/// The preferred factorization of length 4 is the single radix 4.
proof fn lemma_factor_seq_4()
    ensures
        factor_seq(4) == seq![4int],
{
    assert(preferred_radix(4) == 4);
    assert(factor_seq(1) =~= Seq::<int>::empty());
    assert(factor_seq(4) =~= seq![4int] + factor_seq(1));
    assert(seq![4int] + Seq::<int>::empty() =~= seq![4int]);
}

/// A length-4 transform written out: with the single radix 4, every output
/// bin is the four-term sum over the inputs, each rotated by the twiddle of
/// index `q * k mod 4`.
proof fn lemma_fft4_bins(tw: Seq<SpecCpx>, x: Seq<SpecCpx>)
    requires
        x.len() == 4,
        tw.len() == 4,
    ensures
        fft_spec(x, 0, 1, seq![4int], tw, 4).len() == 4,
        forall|k: int|
            0 <= k < 4 ==> #[trigger] fft_spec(x, 0, 1, seq![4int], tw, 4)[k] == spx_add(
                spx_add(
                    spx_add(
                        spx_add(spx_zero(), spx_mul(x[0], tw[0])),
                        spx_mul(x[1], tw[k % 4]),
                    ),
                    spx_mul(x[2], tw[(2 * k) % 4]),
                ),
                spx_mul(x[3], tw[(3 * k) % 4]),
            ),
{
    let fs = seq![4int];
    assert(fs.drop_first() =~= Seq::<int>::empty());
    assert(seq_product(fs.drop_first()) == 1);
    let subs = fft_subs(x, 0, 1, fs.drop_first(), tw, 4, 4);
    assert forall|q: int| 0 <= q < 4 implies #[trigger] subs[q] == seq![x[q]] by {
        assert(subs[q] == fft_spec(x, 0 + q * 1, 1int * 4, fs.drop_first(), tw, 4));
        assert(fft_spec(x, q, 4, fs.drop_first(), tw, 4) =~= seq![x[q]]);
        assert(0 + q * 1 == q && 1int * 4 == 4);
    }
    let r = fft_spec(x, 0, 1, fs, tw, 4);
    assert(r.len() == 4);
    assert forall|k: int| 0 <= k < 4 implies #[trigger] r[k] == spx_add(
        spx_add(
            spx_add(spx_add(spx_zero(), spx_mul(x[0], tw[0])), spx_mul(x[1], tw[k % 4])),
            spx_mul(x[2], tw[(2 * k) % 4]),
        ),
        spx_mul(x[3], tw[(3 * k) % 4]),
    ) by {
        reveal_with_fuel(bin_sum, 6);
        assert(r[k] == bin_sum(subs, tw, 4, 1, 1, k, 4));
        assert(subs[0][k % 1] == x[0]);
        assert(subs[1][k % 1] == x[1]);
        assert(subs[2][k % 1] == x[2]);
        assert(subs[3][k % 1] == x[3]);
        assert((1 * 0 * k) % 4 == 0);
        assert((1 * 1 * k) % 4 == k % 4);
        assert((1 * 2 * k) % 4 == (2 * k) % 4);
        assert((1 * 3 * k) % 4 == (3 * k) % 4);
    }
}

/// Round trip at the exact-twiddle length 4: the unnormalized inverse
/// transform applied to the forward transform returns exactly `4 * x`, for
/// every complex input `x`. At this length every twiddle factor lies on an
/// axis and is stored exactly, so no rounding enters any butterfly and the
/// algebraic identity `inverse(forward(x)) == N * x` holds with equality.
/// (At other lengths the same identity holds up to the rounding of the
/// fixed-point twiddles, which is a numerical, not algebraic, statement.)
pub proof fn lemma_round_trip_length_4(fwd: &FftPlanner, inv: &FftPlanner, x: Seq<SpecCpx>)
    requires
        fwd.wf(),
        inv.wf(),
        fwd.spec_len() == 4,
        inv.spec_len() == 4,
        fwd.spec_direction() == Direction::Forward,
        inv.spec_direction() == Direction::Inverse,
        x.len() == 4,
    ensures
        inv.spec_transform(fwd.spec_transform(x)).len() == 4,
        forall|i: int|
            0 <= i < 4 ==> #[trigger] inv.spec_transform(fwd.spec_transform(x))[i] == (SpecCpx {
                re: 4 * x[i].re,
                im: 4 * x[i].im,
            }),
{
    lemma_factor_seq_4();
    let ftw = fwd.spec_twiddles();
    let itw = inv.spec_twiddles();
    assert(ftw.len() == 4 && itw.len() == 4);
    assert((4 * 0int) % 4 == 0 && (4 * 1int) % 4 == 0 && (4 * 2int) % 4 == 0 && (4 * 3int) % 4
        == 0);
    assert(ftw[0] == SpecCpx { re: 65536, im: 0 });
    assert(ftw[1] == SpecCpx { re: 0, im: -65536 });
    assert(ftw[2] == SpecCpx { re: -65536, im: 0 });
    assert(ftw[3] == SpecCpx { re: 0, im: 65536 });
    assert(itw[0] == SpecCpx { re: 65536, im: 0 });
    assert(itw[1] == SpecCpx { re: 0, im: 65536 });
    assert(itw[2] == SpecCpx { re: -65536, im: 0 });
    assert(itw[3] == SpecCpx { re: 0, im: -65536 });
    let y = fwd.spec_transform(x);
    assert(y == fft_spec(x, 0, 1, seq![4int], ftw, 4));
    lemma_fft4_bins(ftw, x);
    assert(y.len() == 4);
    lemma_axis_mul(x[0]);
    lemma_axis_mul(x[1]);
    lemma_axis_mul(x[2]);
    lemma_axis_mul(x[3]);
    let z = inv.spec_transform(y);
    assert(z == fft_spec(y, 0, 1, seq![4int], itw, 4));
    lemma_fft4_bins(itw, y);
    lemma_axis_mul(y[0]);
    lemma_axis_mul(y[1]);
    lemma_axis_mul(y[2]);
    lemma_axis_mul(y[3]);
    assert(z[0] == SpecCpx { re: 4 * x[0].re, im: 4 * x[0].im });
    assert(z[1] == SpecCpx { re: 4 * x[1].re, im: 4 * x[1].im });
    assert(z[2] == SpecCpx { re: 4 * x[2].re, im: 4 * x[2].im });
    assert(z[3] == SpecCpx { re: 4 * x[3].re, im: 4 * x[3].im });
}

/// Distribution of a two-scalar combination over a four-term sum.
proof fn lemma_lin_sum4(
    al: int,
    be: int,
    u0: int,
    u1: int,
    u2: int,
    u3: int,
    v0: int,
    v1: int,
    v2: int,
    v3: int,
)
    ensures
        (al * u0 + be * v0) + (al * u1 + be * v1) + (al * u2 + be * v2) + (al * u3 + be * v3)
            == al * (u0 + u1 + u2 + u3) + be * (v0 + v1 + v2 + v3),
{
    assert((al * u0 + be * v0) + (al * u1 + be * v1) + (al * u2 + be * v2) + (al * u3 + be * v3)
        == al * (u0 + u1 + u2 + u3) + be * (v0 + v1 + v2 + v3)) by (nonlinear_arith);
}

/// Negation of a two-scalar combination.
proof fn lemma_lin_neg(al: int, be: int, u: int, v: int)
    ensures
        -(al * u + be * v) == al * (-u) + be * (-v),
{
    assert(-(al * u + be * v) == al * (-u) + be * (-v)) by (nonlinear_arith);
}

/// Linearity at the exact-twiddle length 4: for integer scalars `al`, `be`
/// and complex sequences `x`, `y`, transforming `al * x + be * y` gives
/// exactly `al * forward(x) + be * forward(y)`, bin by bin. At this length
/// every butterfly is an exact rotation, so the transform is a linear map
/// with no rounding. (At other lengths the identity holds up to the rounding
/// of the fixed-point products, a numerical statement.)
pub proof fn lemma_linearity_length_4(
    p: &FftPlanner,
    x: Seq<SpecCpx>,
    y: Seq<SpecCpx>,
    w: Seq<SpecCpx>,
    al: int,
    be: int,
)
    requires
        p.wf(),
        p.spec_len() == 4,
        p.spec_direction() == Direction::Forward,
        x.len() == 4,
        y.len() == 4,
        w.len() == 4,
        forall|i: int|
            0 <= i < 4 ==> #[trigger] w[i] == (SpecCpx {
                re: al * x[i].re + be * y[i].re,
                im: al * x[i].im + be * y[i].im,
            }),
    ensures
        forall|i: int|
            0 <= i < 4 ==> #[trigger] p.spec_transform(w)[i] == (SpecCpx {
                re: al * p.spec_transform(x)[i].re + be * p.spec_transform(y)[i].re,
                im: al * p.spec_transform(x)[i].im + be * p.spec_transform(y)[i].im,
            }),
{
    lemma_factor_seq_4();
    let tw = p.spec_twiddles();
    assert((4 * 0int) % 4 == 0 && (4 * 1int) % 4 == 0 && (4 * 2int) % 4 == 0 && (4 * 3int) % 4
        == 0);
    assert(tw[0] == SpecCpx { re: 65536, im: 0 });
    assert(tw[1] == SpecCpx { re: 0, im: -65536 });
    assert(tw[2] == SpecCpx { re: -65536, im: 0 });
    assert(tw[3] == SpecCpx { re: 0, im: 65536 });
    assert(p.spec_transform(w) == fft_spec(w, 0, 1, seq![4int], tw, 4));
    assert(p.spec_transform(x) == fft_spec(x, 0, 1, seq![4int], tw, 4));
    assert(p.spec_transform(y) == fft_spec(y, 0, 1, seq![4int], tw, 4));
    lemma_fft4_bins(tw, w);
    lemma_fft4_bins(tw, x);
    lemma_fft4_bins(tw, y);
    assert forall|i: int| 0 <= i < 4 implies #[trigger] p.spec_transform(w)[i] == (SpecCpx {
        re: al * p.spec_transform(x)[i].re + be * p.spec_transform(y)[i].re,
        im: al * p.spec_transform(x)[i].im + be * p.spec_transform(y)[i].im,
    }) by {
        assert(i % 4 == i);
        assert((2 * i) % 4 == (if i == 0 || i == 2 { 0int } else { 2int }));
        assert((3 * i) % 4 == (if i == 0 { 0int } else if i == 1 { 3int } else if i == 2 {
            2int
        } else {
            1int
        }));
        lemma_axis_mul(w[0]);
        lemma_axis_mul(w[1]);
        lemma_axis_mul(w[2]);
        lemma_axis_mul(w[3]);
        lemma_axis_mul(x[0]);
        lemma_axis_mul(x[1]);
        lemma_axis_mul(x[2]);
        lemma_axis_mul(x[3]);
        lemma_axis_mul(y[0]);
        lemma_axis_mul(y[1]);
        lemma_axis_mul(y[2]);
        lemma_axis_mul(y[3]);
        if i == 0 {
            lemma_lin_sum4(
                al, be, x[0].re, x[1].re, x[2].re, x[3].re, y[0].re, y[1].re, y[2].re, y[3].re,
            );
            lemma_lin_sum4(
                al, be, x[0].im, x[1].im, x[2].im, x[3].im, y[0].im, y[1].im, y[2].im, y[3].im,
            );
        } else if i == 1 {
            lemma_lin_neg(al, be, x[2].re, y[2].re);
            lemma_lin_neg(al, be, x[3].im, y[3].im);
            lemma_lin_neg(al, be, x[1].re, y[1].re);
            lemma_lin_neg(al, be, x[2].im, y[2].im);
            lemma_lin_sum4(
                al, be, x[0].re, x[1].im, -x[2].re, -x[3].im, y[0].re, y[1].im, -y[2].re,
                -y[3].im,
            );
            lemma_lin_sum4(
                al, be, x[0].im, -x[1].re, -x[2].im, x[3].re, y[0].im, -y[1].re, -y[2].im,
                y[3].re,
            );
        } else if i == 2 {
            lemma_lin_neg(al, be, x[1].re, y[1].re);
            lemma_lin_neg(al, be, x[3].re, y[3].re);
            lemma_lin_neg(al, be, x[1].im, y[1].im);
            lemma_lin_neg(al, be, x[3].im, y[3].im);
            lemma_lin_sum4(
                al, be, x[0].re, -x[1].re, x[2].re, -x[3].re, y[0].re, -y[1].re, y[2].re,
                -y[3].re,
            );
            lemma_lin_sum4(
                al, be, x[0].im, -x[1].im, x[2].im, -x[3].im, y[0].im, -y[1].im, y[2].im,
                -y[3].im,
            );
        } else {
            lemma_lin_neg(al, be, x[1].im, y[1].im);
            lemma_lin_neg(al, be, x[2].re, y[2].re);
            lemma_lin_neg(al, be, x[2].im, y[2].im);
            lemma_lin_neg(al, be, x[3].re, y[3].re);
            lemma_lin_sum4(
                al, be, x[0].re, -x[1].im, -x[2].re, x[3].im, y[0].re, -y[1].im, -y[2].re,
                y[3].im,
            );
            lemma_lin_sum4(
                al, be, x[0].im, x[1].re, -x[2].im, -x[3].re, y[0].im, y[1].re, -y[2].im,
                -y[3].re,
            );
        }
    }
}

/// Reuse of one planner is stateless: the transform's result is a function of
/// the plan and of the input alone, so two planners with equal plans (in
/// particular, one planner used twice) map equal inputs to equal outputs.
pub proof fn lemma_transform_reuse(a: &FftPlanner, b: &FftPlanner, x: Seq<SpecCpx>)
    requires
        a.spec_len() == b.spec_len(),
        a.spec_factors() == b.spec_factors(),
        a.spec_twiddles() == b.spec_twiddles(),
    ensures
        a.spec_transform(x) == b.spec_transform(x),
{
}

} // verus!
