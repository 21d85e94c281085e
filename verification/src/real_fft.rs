//! Real-input FFT planner: the positive half-spectrum at half the cost.
//!
//! A real sequence of even length `n` is packed pairwise into a complex
//! sequence of length `n / 2` (`x[2t] + i * x[2t + 1]`), a single half-length
//! complex FFT transforms it, and a recombination butterfly with the roots
//! `exp(sign * i * 2 pi k / n)` separates the spectra of the even- and
//! odd-indexed samples and merges them into the `n / 2 + 1` bins from DC to
//! Nyquist. Bins `0` and `n / 2` are formed without any twiddle
//! multiplication, so their imaginary part is exactly zero, as it must be
//! for a real input.

use vstd::prelude::*;
use crate::Direction;
use crate::sample::{
    ComplexSample, SpecCpx, dv, fx_div, fx_half, spx_bounded, spx_add, spx_mul, cadd,
    cmul, MAX_SAMPLE,
};
use crate::plan::{MAX_LEN, build_twiddles, twiddle_wf};
use crate::complex;
use crate::complex::out_bound;

verus! {

/// The pairwise packing of a real sequence: entry `t` is the complex sample
/// `x[2t] + i * x[2t + 1]`.
pub open spec fn pack_spec(x: Seq<i64>, m: int) -> Seq<SpecCpx> {
    Seq::new(m as nat, |t: int| SpecCpx { re: x[2 * t] as int, im: x[2 * t + 1] as int })
}

/// One interior bin of the recombination: the even-indexed spectrum
/// `(f[k] + conj(f[m - k])) / 2` plus the odd-indexed spectrum
/// `(f[k] - conj(f[m - k])) / (2i)` rotated by the root `stw[k]`; the
/// halvings round toward zero.
pub open spec fn unpack_bin(f: Seq<SpecCpx>, stw: Seq<SpecCpx>, m: int, k: int) -> SpecCpx {
    let fe = SpecCpx {
        re: fx_div(f[k].re + f[m - k].re, 2),
        im: fx_div(f[k].im - f[m - k].im, 2),
    };
    let fo = SpecCpx {
        re: fx_div(f[k].im + f[m - k].im, 2),
        im: fx_div(f[m - k].re - f[k].re, 2),
    };
    spx_add(fe, spx_mul(fo, stw[k]))
}

/// The full recombination of the half-length spectrum `f` into the `m + 1`
/// bins from DC to Nyquist. Bin `0` is `f[0].re + f[0].im` and bin `m` is
/// `f[0].re - f[0].im`, both with an imaginary part of exactly zero.
pub open spec fn unpack_spec(f: Seq<SpecCpx>, stw: Seq<SpecCpx>, m: int) -> Seq<SpecCpx> {
    Seq::new(
        (m + 1) as nat,
        |k: int|
            if k == 0 {
                SpecCpx { re: f[0].re + f[0].im, im: 0 }
            } else if k == m {
                SpecCpx { re: f[0].re - f[0].im, im: 0 }
            } else {
                unpack_bin(f, stw, m, k)
            },
    )
}

/// Every component of the real input is bounded by `b`.
pub open spec fn real_seq_bounded(x: Seq<i64>, b: int) -> bool {
    forall|i: int| 0 <= i < x.len() ==> -b <= #[trigger] x[i] <= b
}

/// A reusable plan for real-input transforms of one fixed even length and
/// direction: a half-length complex planner plus the recombination twiddle
/// table, both immutable after construction.
pub struct FftPlanner {
    nfft: usize,
    inner: complex::FftPlanner,
    super_tw: Vec<ComplexSample>,
}

impl FftPlanner {
    /// The real transform length this planner was built for.
    pub closed spec fn spec_len(&self) -> int {
        self.nfft as int
    }

    /// Half the transform length: the length of the packed complex
    /// sub-transform, and the index of the Nyquist bin.
    pub open spec fn spec_half(&self) -> int {
        self.spec_len() / 2
    }

    /// The direction this planner was built for.
    pub closed spec fn spec_direction(&self) -> Direction {
        self.inner.spec_direction()
    }

    /// The recombination twiddle table.
    pub closed spec fn spec_super_twiddles(&self) -> Seq<SpecCpx> {
        dv(self.super_tw@)
    }

    /// The half-length complex planner this plan is built on.
    pub closed spec fn spec_inner(&self) -> complex::FftPlanner {
        self.inner
    }

    /// Well-formedness: the length is even and within range, the inner
    /// complex planner is the well-formed plan of half that length, and the
    /// recombination table is the twiddle table of the full length.
    pub closed spec fn wf(&self) -> bool {
        &&& 2 <= self.nfft <= MAX_LEN
        &&& self.nfft % 2 == 0
        &&& self.inner.wf()
        &&& self.inner.spec_len() == self.spec_half()
        &&& twiddle_wf(self.spec_super_twiddles(), self.nfft as int, self.spec_direction())
    }

    /// What a transform by this planner returns: pack the real input
    /// pairwise, run the half-length complex FFT, recombine into the
    /// positive half-spectrum.
    pub open spec fn spec_transform(&self, x: Seq<i64>) -> Seq<SpecCpx> {
        unpack_spec(
            self.spec_inner().spec_transform(pack_spec(x, self.spec_half())),
            self.spec_super_twiddles(),
            self.spec_half(),
        )
    }

    /// Build the plan for one fixed even real length and direction: the
    /// half-length complex plan and the recombination twiddle table, both
    /// computed once. Odd lengths are refused (see [`Self::try_new`]).
    pub fn new(nfft: usize, direction: Direction) -> (planner: Self)
        requires
            2 <= nfft <= MAX_LEN,
            nfft % 2 == 0,
        ensures
            planner.wf(),
            planner.spec_len() == nfft,
            planner.spec_direction() == direction,
    {
        let inner = complex::FftPlanner::new_any_length(nfft / 2, direction);
        let super_tw = build_twiddles(nfft, direction);
        FftPlanner { nfft, inner, super_tw }
    }

    /// Checked construction: `Some` exactly when the length is even and
    /// within range, `None` otherwise (an odd or out-of-range length is an
    /// `InvalidLength` request, surfaced as `None`).
    pub fn try_new(nfft: usize, direction: Direction) -> (r: Option<Self>)
        ensures
            r is Some <==> (2 <= nfft <= MAX_LEN && nfft % 2 == 0),
            r matches Some(planner) ==> planner.wf() && planner.spec_len() == nfft
                && planner.spec_direction() == direction,
    {
        if 2 <= nfft && nfft <= MAX_LEN && nfft % 2 == 0 {
            Some(Self::new(nfft, direction))
        } else {
            None
        }
    }

    /// Transform a real sequence of the planned length into its positive
    /// half-spectrum: `n / 2 + 1` complex bins from DC to Nyquist, exactly
    /// [`Self::spec_transform`] of the input. The DC and Nyquist bins have an
    /// imaginary part of exactly zero. The output is a pure function of the
    /// immutable plan and of this call's input.
    #[verifier::loop_isolation(false)]
    pub fn transform(&self, input: &Vec<i64>) -> (out: Vec<ComplexSample>)
        requires
            self.wf(),
            input@.len() == self.spec_len(),
            real_seq_bounded(input@, MAX_SAMPLE as int),
        ensures
            out@.len() == self.spec_half() + 1,
            dv(out@) == self.spec_transform(input@),
            dv(out@)[0].im == 0,
            dv(out@)[self.spec_half()].im == 0,
    {
        let m = self.nfft / 2;
        proof {
            assert(2 * (m as int) == self.spec_len());
            assert(out_bound(m as int) <= 0x400_0000_0000_0000) by (nonlinear_arith)
                requires
                    out_bound(m as int) == 2 * (m as int) * (m as int) * (MAX_SAMPLE as int),
                    1 <= m,
                    m <= 4096,
                    MAX_SAMPLE == 0x2_0000_0000,
            ;
        }
        // Pack consecutive pairs of real samples into complex samples.
        let mut packed: Vec<ComplexSample> = Vec::new();
        let mut t: usize = 0;
        while t < m
            invariant
                t <= m,
                packed@.len() == t,
                forall|j: int|
                    0 <= j < t ==> #[trigger] dv(packed@)[j] == pack_spec(input@, m as int)[j],
                forall|j: int| 0 <= j < t ==> spx_bounded(#[trigger] dv(packed@)[j], MAX_SAMPLE as int),
            decreases m - t,
        {
            let s = ComplexSample::new(input[2 * t], input[2 * t + 1]);
            let ghost pre = dv(packed@);
            packed.push(s);
            proof {
                assert(dv(packed@) =~= pre.push(s@));
            }
            t = t + 1;
        }
        proof {
            assert(dv(packed@) =~= pack_spec(input@, m as int));
        }
        // Half-length complex FFT of the packed sequence.
        let f = self.inner.transform(&packed);
        let ghost fdv = dv(f@);
        let ghost stw = self.spec_super_twiddles();
        let ghost full = unpack_spec(fdv, stw, m as int);
        let ghost fb = out_bound(m as int);
        // Recombine: DC bin, interior bins with the recombination butterfly,
        // Nyquist bin.
        let f0 = f[0];
        let mut out: Vec<ComplexSample> = Vec::new();
        out.push(ComplexSample::new(f0.re + f0.im, 0));
        proof {
            assert(dv(out@) =~= Seq::<SpecCpx>::empty().push(
                SpecCpx { re: f0.re as int + f0.im as int, im: 0 },
            ));
        }
        let mut k: usize = 1;
        while k < m
            invariant
                1 <= k <= m,
                out@.len() == k,
                forall|j: int| 0 <= j < k ==> #[trigger] dv(out@)[j] == full[j],
            decreases m - k,
        {
            let fk = f[k];
            let fmk = f[m - k];
            proof {
                assert(spx_bounded(dv(f@)[k as int], fb));
                assert(spx_bounded(dv(f@)[m - k], fb));
                assert(dv(f@)[k as int] == f@[k as int]@);
                assert(dv(f@)[m - k] == f@[m - k]@);
                assert(spx_bounded(dv(self.super_tw@)[k as int], 65536));
                assert(dv(self.super_tw@)[k as int] == self.super_tw@[k as int]@);
            }
            let fe = ComplexSample::new(fx_half(fk.re + fmk.re), fx_half(fk.im - fmk.im));
            let fo = ComplexSample::new(fx_half(fk.im + fmk.im), fx_half(fmk.re - fk.re));
            let rot = cmul(fo, self.super_tw[k], Ghost(2 * fb));
            let bin = cadd(fe, rot);
            proof {
                assert(bin@ == unpack_bin(fdv, stw, m as int, k as int));
                assert(bin@ == full[k as int]);
            }
            let ghost pre = dv(out@);
            out.push(bin);
            proof {
                assert(dv(out@) =~= pre.push(bin@));
            }
            k = k + 1;
        }
        let ghost pre = dv(out@);
        out.push(ComplexSample::new(f0.re - f0.im, 0));
        proof {
            assert(dv(out@) =~= pre.push(SpecCpx { re: f0.re as int - f0.im as int, im: 0 }));
            assert(dv(out@) =~= full);
        }
        out
    }

    /// Transform into a caller-supplied buffer of length `n / 2 + 1`; the
    /// buffer's previous contents are fully overwritten with the same result
    /// [`Self::transform`] returns.
    pub fn transform_with_buffer(&self, input: &Vec<i64>, output: &mut Vec<ComplexSample>)
        requires
            self.wf(),
            input@.len() == self.spec_len(),
            old(output)@.len() == self.spec_half() + 1,
            real_seq_bounded(input@, MAX_SAMPLE as int),
        ensures
            final(output)@.len() == self.spec_half() + 1,
            dv(final(output)@) == self.spec_transform(input@),
    {
        let result = self.transform(input);
        *output = result;
    }

    /// Checked transform: `Some` exactly when the input length matches the
    /// plan (a mismatch is a `BufferSizeMismatch` request, surfaced as
    /// `None`), and then the value [`Self::transform`] returns.
    pub fn try_transform(&self, input: &Vec<i64>) -> (r: Option<Vec<ComplexSample>>)
        requires
            self.wf(),
            real_seq_bounded(input@, MAX_SAMPLE as int),
        ensures
            r is Some <==> input@.len() == self.spec_len(),
            r matches Some(out) ==> out@.len() == self.spec_half() + 1 && dv(out@)
                == self.spec_transform(input@),
    {
        if input.len() == self.nfft {
            Some(self.transform(input))
        } else {
            None
        }
    }
}

/// The DC and Nyquist bins of a real transform are purely real: for every
/// well-formed plan and every admissible real input, the recombined spectrum
/// has a zero imaginary part at bin `0` and at bin `n / 2`, because both are
/// formed from `f[0]` alone, without any twiddle multiplication.
pub proof fn lemma_dc_nyquist_real(planner: &FftPlanner, x: Seq<i64>)
    requires
        planner.wf(),
        x.len() == planner.spec_len(),
    ensures
        planner.spec_transform(x)[0].im == 0,
        planner.spec_transform(x)[planner.spec_half()].im == 0,
{
}

} // verus!
