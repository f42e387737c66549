use scalar_kalman::{Fixed, ScalarKalman};

const ONE: i64 = 1_000_000_000_000;

fn fx(units: i64) -> Fixed {
    Fixed::from_raw(units)
}

fn to_fixed(v: f64) -> Fixed {
    Fixed::from_raw((v * 1e12).round() as i64)
}

fn to_float(v: Fixed) -> f64 {
    v.raw() as f64 / 1e12
}

/// The steady-state variance of a filter with `A = 1` and `H = 1`: the
/// positive root of `P^2 + Q P - Q R = 0`.
fn steady_state(q: f64, r: f64) -> f64 {
    (-q + (q * q + 4.0 * q * r).sqrt()) / 2.0
}

/// Reproducible noise of the given standard deviation: twelve uniform draws
/// of a linear congruential generator, summed and centred.
fn noise(seed: u64, n: usize, std: f64) -> Vec<f64> {
    let mut state = seed;
    let mut out = Vec::with_capacity(n);
    for _ in 0..n {
        let mut acc = 0.0;
        for _ in 0..12 {
            state = state.wrapping_mul(6364136223846793005).wrapping_add(1442695040888963407);
            acc += (state >> 11) as f64 / 9007199254740992.0;
        }
        out.push((acc - 6.0) * std);
    }
    out
}

fn sinusoid(n: usize) -> Vec<f64> {
    (0..n)
        .map(|i| 0.2 * (2.0 * std::f64::consts::PI * 0.1 * (0.1 * i as f64)).sin() + 0.2294)
        .collect()
}

fn mean_abs_error(a: &[f64], b: &[f64]) -> f64 {
    a.iter().zip(b.iter()).map(|(x, y)| (x - y).abs()).sum::<f64>() / a.len() as f64
}

#[test]
fn variance_falls_to_the_steady_state_from_above() {
    let mut k = ScalarKalman::new(
        fx(ONE),
        fx(ONE),
        fx(100_000_000),
        fx(5_625_000_000),
        Some(fx(229_400_000_000)),
        Some(fx(ONE)),
    );
    let truth = 0.2294;
    let wobble = noise(7, 400, 0.075);
    assert!(k.advance(to_fixed(truth + wobble[0])).is_ok());
    let mut last = k.variance().raw();
    assert_eq!(last, 5_593_539_487);
    for e in wobble[1..].iter() {
        assert!(k.advance(to_fixed(truth + e)).is_ok());
        let now = k.variance().raw();
        assert!(now <= last);
        last = now;
    }
    assert_eq!(last, 701_664_818);
    assert!((to_float(k.variance()) - steady_state(1e-4, 0.005625)).abs() < 1e-11);
}

#[test]
fn variance_rises_to_the_steady_state_from_zero() {
    let mut k = ScalarKalman::new(
        fx(ONE),
        fx(ONE),
        fx(100_000_000),
        fx(5_625_000_000),
        Some(fx(229_400_000_000)),
        None,
    );
    let mut last = 0;
    for _ in 0..400 {
        assert!(k.advance(fx(229_400_000_000)).is_ok());
        let now = k.variance().raw();
        assert!(now >= last);
        last = now;
    }
    assert_eq!(last, 701_664_815);
    assert!((to_float(k.variance()) - steady_state(1e-4, 0.005625)).abs() < 1e-11);
}

#[test]
fn filter_beats_the_raw_measurements_on_a_noisy_sinusoid() {
    let n = 100;
    let truth = sinusoid(n);
    let wobble = noise(42, n, 0.075);
    let observed: Vec<f64> = truth.iter().zip(wobble.iter()).map(|(x, e)| x + e).collect();
    let zs: Vec<Fixed> = observed.iter().map(|z| to_fixed(*z)).collect();

    let mut k = ScalarKalman::new(
        fx(ONE),
        fx(ONE),
        to_fixed(1e-4),
        to_fixed(0.075 * 0.075),
        Some(to_fixed(truth[0])),
        None,
    );
    assert_eq!(k.process_noise().raw(), 100_000_000);
    assert_eq!(k.measurement_noise().raw(), 5_625_000_000);
    let estimates: Vec<f64> = match k.filter(&zs) {
        Ok(v) => v.iter().map(|e| to_float(*e)).collect(),
        Err(_) => panic!("no step is singular here"),
    };
    assert_eq!(estimates.len(), n);
    let filtered = mean_abs_error(&estimates, &truth);
    let raw = mean_abs_error(&observed, &truth);
    assert!(filtered < raw);
}

#[test]
fn estimates_follow_the_recursion_in_double_precision() {
    let n = 100;
    let truth = sinusoid(n);
    let wobble = noise(2024, n, 0.075);
    let (a, h, q, r) = (1.0, 1.0, 1e-4, 0.075 * 0.075);
    let mut k = ScalarKalman::new(
        to_fixed(a),
        to_fixed(h),
        to_fixed(q),
        to_fixed(r),
        Some(to_fixed(truth[0])),
        None,
    );
    let mut x = truth[0];
    let mut p = 0.0;
    for i in 0..n {
        let z = truth[i] + wobble[i];
        x = a * x;
        p = a * p * a + q;
        let y = z - h * x;
        let s = h * p * h + r;
        let gain = p * h / s;
        x += gain * y;
        p *= 1.0 - gain * h;
        let got = match k.advance(to_fixed(z)) {
            Ok(v) => to_float(v),
            Err(_) => panic!("no step is singular here"),
        };
        assert!((got - x).abs() < 1e-9);
        assert!((to_float(k.variance()) - p).abs() < 1e-9);
    }
}
