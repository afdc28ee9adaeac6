//! Drives the library the way the estimation pipeline does: the harness
//! below supplies the floating-point arithmetic (gamma polynomial, residual,
//! bracket midpoints) and the library supplies the sort, the median
//! selection and every decision of the bracketing search.

use weibull::median::median;
use weibull::search::{bracket_admits_root, classify_step, Sign, StepDecision};

/// Order-preserving key of a non-negative finite double: for such values the
/// raw IEEE bit pattern already orders like the number.
fn key_of(x: f64) -> u64 {
    x.to_bits()
}

fn value_of(k: u64) -> f64 {
    f64::from_bits(k)
}

fn sign_of(x: f64) -> Sign {
    if x > 0.0 {
        Sign::Positive
    } else if x < 0.0 {
        Sign::Negative
    } else {
        Sign::Zero
    }
}

const TAYLOR_COEFFICIENTS: [f64; 29] = [
    -0.00000000000000000023,
    0.00000000000000000141,
    0.00000000000000000119,
    -0.00000000000000011813,
    0.00000000000000122678,
    -0.00000000000000534812,
    -0.00000000000002058326,
    0.00000000000051003703,
    -0.00000000000369680562,
    0.00000000000778226344,
    0.00000000010434267117,
    -0.00000000118127457049,
    0.00000000500200764447,
    0.00000000611609510448,
    -0.00000020563384169776,
    0.00000113302723198170,
    -0.00000125049348214267,
    -0.00002013485478078824,
    0.00012805028238811619,
    -0.00021524167411495097,
    -0.00116516759185906511,
    0.00721894324666309954,
    -0.00962197152787697356,
    -0.04219773455554433675,
    0.16653861138229148950,
    -0.04200263503409523553,
    -0.65587807152025388108,
    0.57721566490153286061,
    1.00000000000000000000,
];

const INITIAL_SUM: f64 = 0.00000000000000000002;

fn gamma(x: f64) -> f64 {
    TAYLOR_COEFFICIENTS
        .iter()
        .fold(INITIAL_SUM, |sum, coefficient| {
            sum * (x - 1.0) + coefficient
        })
        .recip()
}

fn k_estimator(x: &Vec<f64>, kin: f64) -> f64 {
    let n = x.len() as f64;
    let sum1: f64 = x.iter().map(|v| v.powf(3.0)).sum::<f64>() / n;
    let sum2: f64 = x.iter().sum::<f64>() / n;
    let sum2 = sum2 * sum2 * sum2;
    let gamma1 = gamma(1.0 + 1.0 / kin);
    let gamma1 = gamma1 * gamma1 * gamma1;
    let gamma2 = gamma(1.0 + 3.0 / kin);
    (sum1 / sum2) * gamma1 - gamma2
}

fn bisection<F: Fn(f64) -> f64>(
    f: F,
    mut kmin: f64,
    mut kmax: f64,
    eps: f64,
    iterations: u32,
) -> Result<f64, &'static str> {
    let mut fkmin = f(kmin);
    let mut fkmax = f(kmax);
    if !bracket_admits_root(sign_of(fkmin), sign_of(fkmax)) {
        return Err("no sign change");
    }
    for _ in 0..iterations {
        let k = (kmin + kmax) / 2.0;
        let fk = f(k);
        let slope = (fkmax - fkmin) / (kmax - kmin);
        let step = fk / slope;
        match classify_step(step == 0.0, sign_of(fk * fkmin), step.abs() > eps) {
            StepDecision::ExactRoot | StepDecision::Converged => return Ok(k),
            StepDecision::NarrowLower => {
                kmax = k;
                fkmax = fk;
            }
            StepDecision::NarrowUpper => {
                kmin = k;
                fkmin = fk;
            }
        }
    }
    Err("not converged")
}

fn median_value(ws: &Vec<f64>) -> f64 {
    let keys: Vec<u64> = ws.iter().map(|x| key_of(*x)).collect();
    let (a, b) = median(&keys).expect("sample is not empty");
    (value_of(a) + value_of(b)) / 2.0
}

fn estimate(ws: &Vec<f64>) -> Result<(f64, f64, f64, f64), &'static str> {
    if ws.is_empty() {
        return Err("empty sample");
    }
    let n = ws.len() as f64;
    let mean: f64 = ws.iter().sum::<f64>() / n;
    let med = median_value(ws);
    let k = bisection(|kk| k_estimator(ws, kk), 1.0, 8.0, 1e-6, 50)?;
    let c = mean * (0.586 + 0.433 / k).powf(-1.0 / k);
    Ok((k, c, mean, med))
}

/// Quantile grid of a Weibull distribution with the given shape and scale:
/// a synthetic sample whose moments match the distribution closely.
fn weibull_sample(shape: f64, scale: f64, n: usize) -> Vec<f64> {
    (0..n)
        .map(|i| {
            let u = (i as f64 + 0.5) / n as f64;
            scale * (-(1.0 - u).ln()).powf(1.0 / shape)
        })
        .collect()
}

#[test]
fn linear_residual_root_is_found() {
    let k = bisection(|k| k - 3.0, 1.0, 8.0, 1e-6, 50).expect("root in bracket");
    assert!((k - 3.0).abs() <= 1e-5);
}

#[test]
fn constant_positive_residual_reports_no_sign_change() {
    let r = bisection(|_| 1.0, 1.0, 8.0, 1e-6, 50);
    assert_eq!(r, Err("no sign change"));
}

#[test]
fn constant_negative_residual_reports_no_sign_change() {
    let r = bisection(|_| -1.0, 1.0, 8.0, 1e-6, 50);
    assert_eq!(r, Err("no sign change"));
}

#[test]
fn recovers_weibull_parameters_from_synthetic_sample() {
    let ws = weibull_sample(2.0, 8.0, 2000);
    let (k, c, mean, med) = estimate(&ws).expect("estimation succeeds");
    assert!((k - 2.0).abs() <= 0.3, "shape estimate {k} too far from 2.0");
    assert!((c - 8.0).abs() <= 1.0, "scale estimate {c} too far from 8.0");
    // The mean of a Weibull(2, 8) distribution is 8 * gamma(1.5) ~ 7.09.
    assert!((mean - 7.09).abs() <= 0.1);
    // Its median is 8 * ln(2)^0.5 ~ 6.66.
    assert!((med - 6.66).abs() <= 0.1);
}

#[test]
fn estimation_is_idempotent() {
    let ws = weibull_sample(2.0, 8.0, 1200);
    let first = estimate(&ws).expect("estimation succeeds");
    let second = estimate(&ws).expect("estimation succeeds");
    assert_eq!(first, second);
}

#[test]
fn empty_sample_is_rejected() {
    let ws: Vec<f64> = Vec::new();
    assert_eq!(estimate(&ws), Err("empty sample"));
}
