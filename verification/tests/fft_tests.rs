use fft4r::complex;
use fft4r::plan;
use fft4r::real_fft;
use fft4r::ComplexSample;
use fft4r::Direction;

/// Convert a float to the library's Q16.16 fixed point.
fn fx(v: f32) -> i64 {
    (v * 65536.0).round() as i64
}

fn cpx(re: f32, im: f32) -> ComplexSample {
    ComplexSample::new(fx(re), fx(im))
}

fn assert_close(got: &ComplexSample, want: &ComplexSample, tol: i64) {
    assert!(
        (got.re - want.re).abs() <= tol && (got.im - want.im).abs() <= tol,
        "got ({}, {}), want ({}, {}), tol {}",
        got.re,
        got.im,
        want.re,
        want.im,
        tol
    );
}

#[test]
fn test_basic() {
    let src = vec![cpx(0.0, 0.0), cpx(1.0, 0.0), cpx(2.0, 0.0), cpx(3.0, 0.0)];
    let expected = [
        cpx(6.0, 0.0),
        cpx(-2.0, 2.0),
        cpx(-2.0, 0.0),
        cpx(-2.0, -2.0),
    ];
    let fft = complex::FftPlanner::new(4, Direction::default());
    let output = fft.transform(&src);
    assert_eq!(expected.as_ref(), output.as_slice());
}

#[test]
fn basic_test() {
    let src = vec![fx(0.0), fx(1.0), fx(2.0), fx(3.0)];
    let expected = [cpx(6.0, 0.0), cpx(-2.0, 2.0), cpx(-2.0, 0.0)];
    let fft = real_fft::FftPlanner::new(4, Direction::default());
    let output = fft.transform(&src);
    assert_eq!(expected.as_ref(), output.as_slice());
}

#[test]
fn transform_with_buffer_matches_transform() {
    let src = vec![cpx(1.0, -2.0), cpx(0.5, 3.0), cpx(-4.0, 0.0), cpx(2.5, 1.5)];
    let fft = complex::FftPlanner::new(4, Direction::Forward);
    let fresh = fft.transform(&src);
    let mut buffer = vec![ComplexSample::default(); 4];
    fft.transform_with_buffer(&src, &mut buffer);
    assert_eq!(fresh, buffer);
}

#[test]
fn real_transform_with_buffer_matches_transform() {
    let src = vec![fx(1.0), fx(-2.0), fx(3.5), fx(0.25)];
    let fft = real_fft::FftPlanner::new(4, Direction::Forward);
    let fresh = fft.transform(&src);
    let mut buffer = vec![ComplexSample::default(); 3];
    fft.transform_with_buffer(&src, &mut buffer);
    assert_eq!(fresh, buffer);
}

// Round trip for a length whose twiddles are all exact: the unnormalized
// inverse of the forward transform is exactly N times the input.
#[test]
fn round_trip_exact_length_4() {
    let src = vec![cpx(3.0, -1.0), cpx(2.0, 5.0), cpx(0.0, 7.0), cpx(-4.0, 2.0)];
    let forward = complex::FftPlanner::new(4, Direction::Forward);
    let inverse = complex::FftPlanner::new(4, Direction::Inverse);
    let spectrum = forward.transform(&src);
    let back = inverse.transform(&spectrum);
    for i in 0..4 {
        assert_eq!(back[i].re, 4 * src[i].re);
        assert_eq!(back[i].im, 4 * src[i].im);
    }
}

// Round trip through a mixed-radix length: equal to N times the input within
// the rounding of the fixed-point twiddles.
#[test]
fn round_trip_length_8() {
    let src = vec![
        cpx(1.0, 0.0),
        cpx(2.0, 1.0),
        cpx(0.0, -3.0),
        cpx(5.0, 2.0),
        cpx(-1.0, 4.0),
        cpx(3.0, 3.0),
        cpx(2.0, -2.0),
        cpx(0.0, 1.0),
    ];
    let forward = complex::FftPlanner::new(8, Direction::Forward);
    let inverse = complex::FftPlanner::new(8, Direction::Inverse);
    let spectrum = forward.transform(&src);
    let back = inverse.transform(&spectrum);
    for i in 0..8 {
        let want = ComplexSample::new(8 * src[i].re, 8 * src[i].im);
        assert_close(&back[i], &want, 2048);
    }
}

#[test]
fn round_trip_length_6() {
    let src = vec![
        cpx(0.5, 0.5),
        cpx(-1.0, 2.0),
        cpx(3.0, 0.0),
        cpx(0.0, -2.5),
        cpx(1.5, 1.0),
        cpx(-2.0, 0.0),
    ];
    let forward = complex::FftPlanner::new(6, Direction::Forward);
    let inverse = complex::FftPlanner::new(6, Direction::Inverse);
    let back = inverse.transform(&forward.transform(&src));
    for i in 0..6 {
        let want = ComplexSample::new(6 * src[i].re, 6 * src[i].im);
        assert_close(&back[i], &want, 2048);
    }
}

// Linearity: forward(a*x + b*y) == a*forward(x) + b*forward(y) within the
// rounding of the fixed-point butterflies.
#[test]
fn linearity_length_6() {
    let xs = vec![
        cpx(1.0, 0.0),
        cpx(0.0, 2.0),
        cpx(-3.0, 1.0),
        cpx(2.0, -1.0),
        cpx(0.5, 0.5),
        cpx(4.0, 0.0),
    ];
    let ys = vec![
        cpx(0.0, 1.0),
        cpx(2.0, 2.0),
        cpx(1.0, -4.0),
        cpx(-2.0, 0.0),
        cpx(3.0, 1.5),
        cpx(0.0, -1.0),
    ];
    let a: i64 = 2;
    let b: i64 = -3;
    let mixed: Vec<ComplexSample> = (0..6)
        .map(|i| ComplexSample::new(a * xs[i].re + b * ys[i].re, a * xs[i].im + b * ys[i].im))
        .collect();
    let fft = complex::FftPlanner::new(6, Direction::Forward);
    let fx_mixed = fft.transform(&mixed);
    let fxs = fft.transform(&xs);
    let fys = fft.transform(&ys);
    for i in 0..6 {
        let want = ComplexSample::new(a * fxs[i].re + b * fys[i].re, a * fxs[i].im + b * fys[i].im);
        assert_close(&fx_mixed[i], &want, 256);
    }
}

// DC and Nyquist bins of a real transform are purely real, exactly.
#[test]
fn dc_and_nyquist_bins_are_real() {
    let src = vec![fx(5.0), fx(-3.0), fx(2.0), fx(7.0), fx(-1.0), fx(4.0)];
    let fft = real_fft::FftPlanner::new(6, Direction::Forward);
    let out = fft.transform(&src);
    assert_eq!(out.len(), 4);
    assert_eq!(out[0].im, 0);
    assert_eq!(out[3].im, 0);
    // The DC bin is the sum of the samples.
    assert_eq!(out[0].re, fx(5.0 - 3.0 + 2.0 + 7.0 - 1.0 + 4.0));
}

// Construction fails for odd or out-of-range lengths, for both planners.
#[test]
fn odd_length_construction_fails() {
    assert!(complex::FftPlanner::try_new(5, Direction::Forward).is_none());
    assert!(complex::FftPlanner::try_new(1, Direction::Forward).is_none());
    assert!(complex::FftPlanner::try_new(0, Direction::Forward).is_none());
    assert!(complex::FftPlanner::try_new(9000, Direction::Forward).is_none());
    assert!(complex::FftPlanner::try_new(6, Direction::Forward).is_some());
    assert!(real_fft::FftPlanner::try_new(7, Direction::Inverse).is_none());
    assert!(real_fft::FftPlanner::try_new(0, Direction::Inverse).is_none());
    assert!(real_fft::FftPlanner::try_new(8, Direction::Inverse).is_some());
}

// A buffer whose length does not match the plan is refused.
#[test]
fn mismatched_buffer_length_fails() {
    let fft = complex::FftPlanner::new(4, Direction::Forward);
    let short = vec![cpx(1.0, 0.0); 3];
    let long = vec![cpx(1.0, 0.0); 5];
    let exact = vec![cpx(1.0, 0.0); 4];
    assert!(fft.try_transform(&short).is_none());
    assert!(fft.try_transform(&long).is_none());
    assert!(fft.try_transform(&exact).is_some());
    let rfft = real_fft::FftPlanner::new(4, Direction::Forward);
    assert!(rfft.try_transform(&vec![fx(1.0); 3]).is_none());
    assert!(rfft.try_transform(&vec![fx(1.0); 4]).is_some());
}

// Repeated transforms on one planner depend only on each call's input.
#[test]
fn planner_reuse_is_stateless() {
    let fft = complex::FftPlanner::new(4, Direction::Forward);
    let a = vec![cpx(0.0, 0.0), cpx(1.0, 0.0), cpx(2.0, 0.0), cpx(3.0, 0.0)];
    let ones = vec![cpx(1.0, 0.0); 4];
    let first = fft.transform(&a);
    let middle = fft.transform(&ones);
    let second = fft.transform(&a);
    assert_eq!(first, second);
    assert_eq!(
        middle.as_slice(),
        [cpx(4.0, 0.0), cpx(0.0, 0.0), cpx(0.0, 0.0), cpx(0.0, 0.0)].as_ref()
    );
}

// The factorization engine prefers 4, then 2, then ascending odd primes, and
// its radices multiply back to the length.
#[test]
fn factorization_prefers_small_radices() {
    assert_eq!(plan::factor(2), vec![2]);
    assert_eq!(plan::factor(4), vec![4]);
    assert_eq!(plan::factor(6), vec![2, 3]);
    assert_eq!(plan::factor(8), vec![4, 2]);
    assert_eq!(plan::factor(10), vec![2, 5]);
    assert_eq!(plan::factor(12), vec![4, 3]);
    assert_eq!(plan::factor(14), vec![2, 7]);
    assert_eq!(plan::factor(100), vec![4, 5, 5]);
    assert_eq!(plan::factor(26), vec![2, 13]);
    for n in 1..200usize {
        let fs = plan::factor(n);
        assert_eq!(fs.iter().product::<usize>(), n.max(1));
    }
}

// The twiddle table stores the on-axis roots exactly, with the direction
// controlling the sign of the imaginary part.
#[test]
fn twiddle_axis_values_are_exact() {
    let fwd = plan::build_twiddles(4, Direction::Forward);
    assert_eq!(fwd[0], ComplexSample::new(65536, 0));
    assert_eq!(fwd[1], ComplexSample::new(0, -65536));
    assert_eq!(fwd[2], ComplexSample::new(-65536, 0));
    assert_eq!(fwd[3], ComplexSample::new(0, 65536));
    let inv = plan::build_twiddles(4, Direction::Inverse);
    assert_eq!(inv[1], ComplexSample::new(0, 65536));
    assert_eq!(inv[3], ComplexSample::new(0, -65536));
}

// An off-axis twiddle approximates the true root closely: for length 8 the
// first root is (cos 45, -sin 45).
#[test]
fn twiddle_off_axis_values_are_close() {
    let tw = plan::build_twiddles(8, Direction::Forward);
    let c45 = fx(0.70710678);
    assert!((tw[1].re - c45).abs() <= 2, "re {}", tw[1].re);
    assert!((tw[1].im + c45).abs() <= 2, "im {}", tw[1].im);
    assert_eq!(tw[1].re, -tw[1].im);
}

// A length with a large prime residue degrades to a generic stage but stays
// correct: round trip through length 26 = 2 * 13.
#[test]
fn round_trip_large_prime_radix() {
    let src: Vec<ComplexSample> = (0..26).map(|i| cpx((i % 5) as f32, -((i % 3) as f32))).collect();
    let forward = complex::FftPlanner::new(26, Direction::Forward);
    let inverse = complex::FftPlanner::new(26, Direction::Inverse);
    let back = inverse.transform(&forward.transform(&src));
    for i in 0..26 {
        let want = ComplexSample::new(26 * src[i].re, 26 * src[i].im);
        assert_close(&back[i], &want, 26 * 1024);
    }
}

// The real planner agrees with the complex planner on the shared bins.
#[test]
fn real_transform_matches_complex_half_spectrum() {
    let reals = [1.5f32, -2.0, 0.25, 3.0, -1.0, 0.5, 2.0, -0.75];
    let real_src: Vec<i64> = reals.iter().map(|&v| fx(v)).collect();
    let complex_src: Vec<ComplexSample> = reals.iter().map(|&v| cpx(v, 0.0)).collect();
    let rfft = real_fft::FftPlanner::new(8, Direction::Forward);
    let cfft = complex::FftPlanner::new(8, Direction::Forward);
    let half = rfft.transform(&real_src);
    let full = cfft.transform(&complex_src);
    assert_eq!(half.len(), 5);
    for k in 0..5 {
        assert_close(&half[k], &full[k], 512);
    }
}

#[test]
fn default_sample_and_direction() {
    let d: Direction = Default::default();
    assert_eq!(d, Direction::Forward);
    let s: ComplexSample = Default::default();
    assert_eq!(s, ComplexSample::new(0, 0));
}

// At length 4 every twiddle is exact, so linearity holds with equality.
#[test]
fn linearity_exact_length_4() {
    let xs = vec![cpx(1.0, -2.0), cpx(0.0, 3.0), cpx(-1.5, 0.5), cpx(2.0, 2.0)];
    let ys = vec![cpx(0.5, 0.0), cpx(-2.0, 1.0), cpx(3.0, -3.0), cpx(0.0, 1.0)];
    let a: i64 = 3;
    let b: i64 = -2;
    let mixed: Vec<ComplexSample> = (0..4)
        .map(|i| ComplexSample::new(a * xs[i].re + b * ys[i].re, a * xs[i].im + b * ys[i].im))
        .collect();
    let fft = complex::FftPlanner::new(4, Direction::Forward);
    let fm = fft.transform(&mixed);
    let fxs = fft.transform(&xs);
    let fys = fft.transform(&ys);
    for i in 0..4 {
        assert_eq!(fm[i].re, a * fxs[i].re + b * fys[i].re);
        assert_eq!(fm[i].im, a * fxs[i].im + b * fys[i].im);
    }
}
