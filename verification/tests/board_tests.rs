//! Tests of the simulation board: geometric validation, the growth table,
//! and the derived parameter record.

use lenia::board::{LeniaBoard, LeniaRule};
use lenia::fixed::SCALE;
use lenia::kernel::KernelShell;
use lenia::mapping::{Mapping, MappingType};
use lenia::LeniaError;

fn q(x: f64) -> u64 {
    (x * 4294967296.0).round() as u64
}

fn to_f(v: u64) -> f64 {
    v as f64 / 4294967296.0
}

fn gaussian_rule() -> LeniaRule {
    let core = Mapping::from_type(MappingType::StepCore).unwrap();
    let shell = KernelShell::new(vec![SCALE], core).unwrap();
    let growth = Mapping::from_type(MappingType::GaussianGrowth {
        mu: q(0.35),
        sigma: q(0.07),
    })
    .unwrap();
    LeniaRule::new(shell, growth)
}

#[test]
fn board_rejects_oversized_kernel() {
    // dx * 2 + 1 = 21 exceeds a 20-wide or 20-tall grid.
    assert!(matches!(
        LeniaBoard::new(gaussian_rule(), (20, 64), 10, q(1.0), 100),
        Err(LeniaError::KernelLargerThanBoard)
    ));
    assert!(matches!(
        LeniaBoard::new(gaussian_rule(), (64, 20), 10, q(1.0), 100),
        Err(LeniaError::KernelLargerThanBoard)
    ));
}

#[test]
fn board_succeeds_at_exact_boundary() {
    // dx * 2 + 1 == width is the tightest feasible geometry.
    let board = LeniaBoard::new(gaussian_rule(), (21, 21), 10, q(1.0), 100);
    assert!(board.is_ok());
    let board = LeniaBoard::new(gaussian_rule(), (21, 64), 10, q(1.0), 100);
    assert!(board.is_ok());
}

#[test]
fn board_rejects_tiny_growth_resolution() {
    assert!(matches!(
        LeniaBoard::new(gaussian_rule(), (64, 64), 1, q(1.0), 0),
        Err(LeniaError::GrowthResolutionTooSmall)
    ));
    assert!(matches!(
        LeniaBoard::new(gaussian_rule(), (64, 64), 1, q(1.0), 1),
        Err(LeniaError::GrowthResolutionTooSmall)
    ));
    assert!(LeniaBoard::new(gaussian_rule(), (64, 64), 1, q(1.0), 2).is_ok());
}

#[test]
fn growth_table_length_matches_resolution() {
    for n in [2u32, 3, 64, 100] {
        let board = LeniaBoard::new(gaussian_rule(), (64, 64), 1, q(1.0), n).unwrap();
        assert_eq!(board.get_growth_vector().len(), n as usize);
    }
}

#[test]
fn growth_table_round_trip() {
    // Entry i equals the growth mapping evaluated at i / (n - 1), exactly.
    let growth = Mapping::from_type(MappingType::GaussianGrowth {
        mu: q(0.35),
        sigma: q(0.07),
    })
    .unwrap();
    let n: u64 = 100;
    let board = LeniaBoard::new(gaussian_rule(), (64, 64), 1, q(1.0), n as u32).unwrap();
    let table = board.get_growth_vector();
    for i in 0..n {
        let x = i * SCALE / (n - 1);
        assert_eq!(table[i as usize], growth.eval(x).unwrap());
    }
}

#[test]
fn growth_table_matches_gaussian_peak_formula() {
    // Sample 49 of a 100-entry table lies at x = 49/99; the entry must
    // match the closed-form Gaussian there.
    let mu = q(0.35);
    let sigma = q(0.07);
    let n: u64 = 100;
    let board = LeniaBoard::new(gaussian_rule(), (64, 64), 1, q(1.0), n as u32).unwrap();
    let table = board.get_growth_vector();
    let x = to_f(49 * SCALE / (n - 1));
    let muf = to_f(mu);
    let sf = to_f(sigma);
    let expected = (-(x - muf) * (x - muf) / (2.0 * sf * sf)).exp();
    let got = to_f(table[49]);
    assert!(
        (got - expected).abs() < 1e-5,
        "got {got}, expected {expected}"
    );
}

#[test]
fn generated_params_carry_board_configuration() {
    let board = LeniaBoard::new(gaussian_rule(), (64, 48), 1, q(0.05), 100).unwrap();
    let params = board.generate_params();
    assert!(params.random_float < SCALE);
    assert_eq!(params.kernel_resolution, 3);
    assert_eq!(params.delta_time, 0);
    assert_eq!(params.dt, q(0.05));
    assert_eq!(params.growth_resolution, 100);
    // The normalization scalar is the raster's total intensity; for the
    // Game-of-Life kernel that is exactly 8.
    assert_eq!(params.kernel_area, 8 * (SCALE as u128));
    let later = params.with_delta_time(q(2.5));
    assert_eq!(later.delta_time, q(2.5));
    assert_eq!(later.random_float, params.random_float);
    assert_eq!(later.kernel_area, params.kernel_area);
    assert_eq!(later.dt, params.dt);
}

#[test]
fn kernel_image_access_matches_raster() {
    let board = LeniaBoard::new(gaussian_rule(), (64, 64), 1, q(1.0), 100).unwrap();
    let img = board.get_kernel_image();
    assert_eq!(img.resolution, 3);
    assert_eq!(img.pixels.len(), 9);
    assert_eq!(img.area, 8 * (SCALE as u128));
    assert_eq!(img.pixels[4], 0);
    assert_eq!(img.pixels[0], SCALE);
}

#[test]
fn random_seed_stays_in_unit_interval() {
    let board = LeniaBoard::new(gaussian_rule(), (64, 64), 1, q(1.0), 100).unwrap();
    for _ in 0..16 {
        assert!(board.generate_params().random_float < SCALE);
    }
}
