//! Tests of the scalar mapping family: domain behaviour, exact step
//! values, and agreement with the closed-form formulas.

use lenia::fixed::SCALE;
use lenia::mapping::{Mapping, MappingType};
use lenia::LeniaError;

fn q(x: f64) -> u64 {
    (x * 4294967296.0).round() as u64
}

fn to_f(v: u64) -> f64 {
    v as f64 / 4294967296.0
}

fn sample_mappings() -> Vec<Mapping> {
    vec![
        Mapping::from_type(MappingType::GaussianCore { alpha: q(4.0) }).unwrap(),
        Mapping::from_type(MappingType::PolynomialCore { alpha: q(4.0) }).unwrap(),
        Mapping::from_type(MappingType::StepCore).unwrap(),
        Mapping::from_type(MappingType::GaussianGrowth {
            mu: q(0.35),
            sigma: q(0.07),
        })
        .unwrap(),
        Mapping::from_type(MappingType::PolynomialGrowth {
            mu: q(0.35),
            sigma: q(0.07),
            alpha: q(4.0),
        })
        .unwrap(),
        Mapping::from_type(MappingType::StepGrowth {
            mu: q(0.35),
            sigma: q(0.07),
        })
        .unwrap(),
    ]
}

#[test]
fn eval_defined_and_bounded_on_domain() {
    for m in sample_mappings() {
        for i in 0..=200u64 {
            let x = i * SCALE / 200;
            let v = m.eval(x).expect("in-domain evaluation must succeed");
            assert!(v <= SCALE);
        }
    }
}

#[test]
fn eval_outside_domain_fails() {
    for m in sample_mappings() {
        assert_eq!(m.eval(SCALE + 1), Err(LeniaError::OutOfDomain));
        assert_eq!(m.eval(u64::MAX), Err(LeniaError::OutOfDomain));
    }
}

#[test]
fn step_core_exact_values() {
    let m = Mapping::from_type(MappingType::StepCore).unwrap();
    assert_eq!(m.eval(0), Ok(0));
    assert_eq!(m.eval(q(0.1)), Ok(0));
    assert_eq!(m.eval(SCALE / 4), Ok(SCALE));
    assert_eq!(m.eval(q(0.5)), Ok(SCALE));
    assert_eq!(m.eval(3 * (SCALE / 4)), Ok(SCALE));
    assert_eq!(m.eval(q(0.8)), Ok(0));
    assert_eq!(m.eval(SCALE), Ok(0));
}

#[test]
fn step_growth_exact_values() {
    let m = Mapping::from_type(MappingType::StepGrowth {
        mu: q(0.35),
        sigma: q(0.07),
    })
    .unwrap();
    assert_eq!(m.eval(q(0.35)), Ok(SCALE));
    assert_eq!(m.eval(q(0.30)), Ok(SCALE));
    assert_eq!(m.eval(q(0.41)), Ok(SCALE));
    assert_eq!(m.eval(q(0.27)), Ok(0));
    assert_eq!(m.eval(q(0.43)), Ok(0));
    assert_eq!(m.eval(0), Ok(0));
    assert_eq!(m.eval(SCALE), Ok(0));
}

#[test]
fn gaussian_growth_matches_closed_form() {
    let mu = q(0.35);
    let sigma = q(0.07);
    let m = Mapping::from_type(MappingType::GaussianGrowth { mu, sigma }).unwrap();
    let muf = to_f(mu);
    let sf = to_f(sigma);
    for i in 0..=100u64 {
        let x = i * SCALE / 100;
        let xf = to_f(x);
        let expected = (-(xf - muf) * (xf - muf) / (2.0 * sf * sf)).exp();
        let got = to_f(m.eval(x).unwrap());
        assert!(
            (got - expected).abs() < 1e-6,
            "x={xf}: got {got}, expected {expected}"
        );
    }
}

#[test]
fn gaussian_core_matches_closed_form() {
    let alpha = q(4.0);
    let m = Mapping::from_type(MappingType::GaussianCore { alpha }).unwrap();
    let af = to_f(alpha);
    // The bump vanishes at the edges; the limit value there is zero.
    assert_eq!(m.eval(0), Ok(0));
    assert_eq!(m.eval(SCALE), Ok(0));
    for i in 1..100u64 {
        let x = i * SCALE / 100;
        let xf = to_f(x);
        let bump = 4.0 * xf * (1.0 - xf);
        let expected = (af - af / bump).exp();
        let got = to_f(m.eval(x).unwrap());
        assert!(
            (got - expected).abs() < 1e-6,
            "x={xf}: got {got}, expected {expected}"
        );
    }
    // Peak value 1 at the middle of the domain.
    assert_eq!(m.eval(SCALE / 2), Ok(SCALE));
}

#[test]
fn polynomial_core_matches_closed_form() {
    let alpha = q(4.0);
    let m = Mapping::from_type(MappingType::PolynomialCore { alpha }).unwrap();
    for i in 0..=100u64 {
        let x = i * SCALE / 100;
        let xf = to_f(x);
        let expected = (4.0 * xf * (1.0 - xf)).powf(4.0);
        let got = to_f(m.eval(x).unwrap());
        assert!(
            (got - expected).abs() < 1e-6,
            "x={xf}: got {got}, expected {expected}"
        );
    }
}

#[test]
fn polynomial_growth_matches_closed_form() {
    let mu = q(0.35);
    let sigma = q(0.07);
    let alpha = q(4.0);
    let m = Mapping::from_type(MappingType::PolynomialGrowth { mu, sigma, alpha }).unwrap();
    let muf = to_f(mu);
    let sf = to_f(sigma);
    for i in 0..=100u64 {
        let x = i * SCALE / 100;
        let xf = to_f(x);
        let expected = if (xf - muf).abs() <= 3.0 * sf {
            (1.0 - (xf - muf) * (xf - muf) / (9.0 * sf * sf)).powf(4.0)
        } else {
            0.0
        };
        let got = to_f(m.eval(x).unwrap());
        assert!(
            (got - expected).abs() < 1e-5,
            "x={xf}: got {got}, expected {expected}"
        );
    }
}

#[test]
fn from_type_rejects_unrepresentable_parameters() {
    assert_eq!(
        Mapping::from_type(MappingType::GaussianGrowth { mu: 0, sigma: 0 }),
        Err(LeniaError::InvalidMappingParameters)
    );
    assert_eq!(
        Mapping::from_type(MappingType::PolynomialGrowth {
            mu: 2 * SCALE,
            sigma: q(0.07),
            alpha: q(4.0),
        }),
        Err(LeniaError::InvalidMappingParameters)
    );
    assert_eq!(
        Mapping::from_type(MappingType::GaussianCore { alpha: u64::MAX }),
        Err(LeniaError::InvalidMappingParameters)
    );
    assert!(Mapping::from_type(MappingType::StepGrowth { mu: q(0.5), sigma: 0 }).is_ok());
}
