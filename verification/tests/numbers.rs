use stratum_dsp::float::clamp_unit;
use stratum_dsp::float::one;
use stratum_dsp::float::ratio;
use stratum_dsp::float::zero;
use stratum_dsp::float::F32;
use stratum_dsp::number_text::fixed1;
use stratum_dsp::number_text::fixed2;
use stratum_dsp::number_text::shortest;
use stratum_dsp::sorting;
use stratum_dsp::statistics;

fn f(x: f32) -> F32 {
    F32 { bits: x.to_bits() }
}

fn g(x: F32) -> f32 {
    f32::from_bits(x.bits)
}

fn row(v: &[f32]) -> Vec<F32> {
    v.iter().map(|&x| f(x)).collect()
}

/// Numbers of all kinds: zeros, subnormal and normal ones, infinities, NaN.
fn samples() -> Vec<f32> {
    let mut v = vec![
        0.0, -0.0, 1.0, -1.0, 0.5, 2.0, 3.0, 0.1, -0.1, 1.0e-10, 1.0e10, 16777216.0, 16777217.0,
        f32::MIN_POSITIVE, f32::MAX, f32::MIN, f32::INFINITY, f32::NEG_INFINITY, f32::NAN,
        f32::from_bits(1), f32::from_bits(0x007f_ffff), f32::from_bits(0x8000_0001), 2.5, -2.5, 3.5,
        0.49999997, 8388607.5, 8388608.5, 1234567.9, 120.0, 43.5,
    ];
    let mut x: u32 = 12345;
    for _ in 0..400 {
        x = x.wrapping_mul(1664525).wrapping_add(1013904223);
        v.push(f32::from_bits(x));
    }
    for k in 0..200u32 {
        v.push((k as f32 - 100.0) * 0.37);
    }
    v
}

fn same(a: F32, b: f32) -> bool {
    (g(a).is_nan() && b.is_nan()) || a.bits == b.to_bits()
}

#[test]
fn arithmetic_is_that_of_the_machine() {
    let v = samples();
    for &a in &v {
        for &b in &v {
            assert!(same(f(a) + f(b), a + b), "{:e} + {:e}", a, b);
            assert!(same(f(a) - f(b), a - b), "{:e} - {:e}", a, b);
            assert!(same(f(a) * f(b), a * b), "{:e} * {:e}", a, b);
            assert!(same(f(a) / f(b), a / b), "{:e} / {:e}", a, b);
            assert!(same(f(a).rem(f(b)), a % b), "{:e} % {:e}", a, b);
            assert_eq!(f(a) < f(b), a < b);
            assert_eq!(f(a) <= f(b), a <= b);
            assert_eq!(f(a) == f(b), a == b);
        }
    }
}

#[test]
fn roots_and_roundings_are_those_of_the_machine() {
    for a in samples() {
        assert!(same(f(a).sqrt(), a.sqrt()), "sqrt {:e}", a);
        assert!(same(f(a).floor(), a.floor()), "floor {:e}", a);
        assert!(same(f(a).ceil(), a.ceil()), "ceil {:e}", a);
        assert!(same(f(a).round(), a.round()), "round {:e}", a);
        assert!(same(f(a).abs(), a.abs()));
        assert!(same(f(a).neg(), -a));
        assert!(same(f(a).rem_euclid(f(12.0)), a.rem_euclid(12.0)), "rem_euclid {:e}", a);
        assert_eq!(f(a).to_usize(), a as usize);
        assert_eq!(f(a).to_i32(), a as i32);
        assert_eq!(f(a).is_nan(), a.is_nan());
        assert_eq!(f(a).is_finite(), a.is_finite());
        if !a.is_nan() {
            assert!(same(clamp_unit(f(a)), a.clamp(0.0, 1.0)));
        }
    }
}

#[test]
fn extremes_of_two_numbers() {
    for a in samples() {
        for b in [0.0f32, 1.0, -3.5, f32::NAN, f32::INFINITY] {
            assert_eq!(f(a).max(f(b)) == f(a.max(b)), !a.max(b).is_nan());
            assert_eq!(f(a).min(f(b)) == f(a.min(b)), !a.min(b).is_nan());
        }
    }
}

#[test]
fn integers_become_the_nearest_numbers() {
    for n in [0usize, 1, 7, 255, 44100, 16777215, 16777217, 16777219, 123456789, usize::MAX] {
        assert_eq!(F32::from_usize(n).bits, (n as f32).to_bits());
    }
    for n in [0u32, 1, 44100, 16777217, u32::MAX] {
        assert_eq!(F32::from_u32(n).bits, (n as f32).to_bits());
    }
    for n in [0i32, -1, 12, i32::MIN, i32::MAX, -16777217] {
        assert_eq!(F32::from_i32(n).bits, (n as f32).to_bits());
    }
}

#[test]
fn ratios_are_decimal_literals() {
    assert_eq!(zero().bits, 0.0f32.to_bits());
    assert_eq!(one().bits, 1.0f32.to_bits());
    assert_eq!(ratio(1, 10).bits, 0.1f32.to_bits());
    assert_eq!(ratio(75, 100).bits, 0.75f32.to_bits());
    assert_eq!(ratio(1, 10_000_000_000).bits, 1e-10f32.to_bits());
    assert_eq!(ratio(1, 1_000_000_000_000).bits, 1e-12f32.to_bits());
    assert_eq!(ratio(5000, 1).bits, 5000.0f32.to_bits());
    assert_eq!(ratio(4, 3).bits, (4.0f32 / 3.0).to_bits());
}

#[test]
fn numbers_in_messages() {
    for x in [0.0f32, 1.0, -1.0, 0.005, 0.015, 0.125, 2.675, 119.996, 1234.5, -0.004, 99.95, 0.25] {
        assert_eq!(fixed1(f(x)), format!("{:.1}", x));
        assert_eq!(fixed2(f(x)), format!("{:.2}", x));
        assert_eq!(shortest(f(x)), format!("{}", x));
    }
}

#[test]
fn sorting_is_stable() {
    let keys = row(&[2.0, 1.0, 2.0, 0.5, 1.0]);
    assert_eq!(sorting::sort_order(&keys, true), vec![0, 2, 1, 4, 3]);
    assert_eq!(sorting::sort_order(&keys, false), vec![3, 1, 4, 0, 2]);
    assert_eq!(sorting::sort_dedup(&[5, 1, 5, 3, 1]), vec![1, 3, 5]);
}

#[test]
fn medians_of_odd_and_even_lists() {
    assert_eq!(g(statistics::median(&row(&[3.0, 1.0, 2.0]))), 2.0);
    assert_eq!(g(statistics::median(&row(&[4.0, 1.0, 2.0, 3.0]))), 2.5);
}


#[test]
fn numbers_are_written_with_the_fewest_digits_that_read_back() {
    let mut bits: u32 = 1;
    let mut xs = vec![
        5e9f32,
        -1e-12,
        f32::MAX,
        f32::MIN,
        f32::MIN_POSITIVE,
        f32::EPSILON,
        -0.0,
        1e-45,
        0.1,
        1.0 / 3.0,
        2.0 / 3.0,
        16777216.0,
        123456789.0,
        9.999999e-5,
        8388608.5,
        1e10,
        3e-39,
        33554432.0,
        9007199254740992.0,
        2e-45,
        f32::NAN,
        f32::INFINITY,
        f32::NEG_INFINITY,
    ];
    while bits < 0x7f80_0000 {
        xs.push(f32::from_bits(bits));
        bits = bits / 2 * 3 + 7;
    }
    for k in 0..254u32 {
        xs.push(f32::from_bits((k + 1) << 23));
    }
    for x in xs {
        let text = shortest(f(x));
        assert_eq!(text, format!("{}", x));
        if x.is_finite() {
            assert_eq!(text.parse::<f32>().unwrap().to_bits(), x.to_bits());
        }
    }
}
