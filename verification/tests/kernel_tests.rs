//! Tests of kernel shells and rasters: the classic Game-of-Life
//! neighborhood, radial symmetry, the exact ring boundary, and the
//! monotonicity of the total intensity in the ring weights.

use lenia::fixed::SCALE;
use lenia::kernel::{KernelImage, KernelShell};
use lenia::mapping::{Mapping, MappingType};
use lenia::LeniaError;

fn q(x: f64) -> u64 {
    (x * 4294967296.0).round() as u64
}

fn step_shell(beta: Vec<u64>) -> KernelShell {
    let core = Mapping::from_type(MappingType::StepCore).unwrap();
    KernelShell::new(beta, core).unwrap()
}

#[test]
fn empty_beta_fails() {
    let core = Mapping::from_type(MappingType::StepCore).unwrap();
    assert!(matches!(
        KernelShell::new(vec![], core),
        Err(LeniaError::EmptyBeta)
    ));
}

#[test]
fn gol_neighborhood() {
    // A step core with a single unit ring at side 3 reproduces the classic
    // 3x3 Game-of-Life neighborhood: all 8 neighbors 1.0, center 0.
    let shell = step_shell(vec![SCALE]);
    let img = KernelImage::new(&shell, 3, SCALE);
    assert_eq!(img.resolution, 3);
    assert_eq!(img.pixels.len(), 9);
    for y in 0..3usize {
        for x in 0..3usize {
            let v = img.pixels[y * 3 + x];
            if x == 1 && y == 1 {
                assert_eq!(v, 0, "center must be excluded");
            } else {
                assert_eq!(v, SCALE, "neighbor ({x},{y}) must be 1.0");
            }
        }
    }
    assert_eq!(img.area, 8 * (SCALE as u128));
}

#[test]
fn raster_is_binary_and_radially_symmetric() {
    // Step core, single unit ring, radius 20: every pixel is exactly 0 or
    // 1, and the image has the full symmetry of the square.
    let shell = step_shell(vec![SCALE]);
    let side: usize = 41;
    let img = KernelImage::new(&shell, side as u32, SCALE);
    assert_eq!(img.pixels.len(), side * side);
    let mut ones: usize = 0;
    for y in 0..side {
        for x in 0..side {
            let v = img.pixels[y * side + x];
            assert!(v == 0 || v == SCALE, "pixel ({x},{y}) is not binary");
            if v == SCALE {
                ones += 1;
            }
            assert_eq!(v, img.pixels[x * side + y], "transpose symmetry");
            assert_eq!(v, img.pixels[y * side + (side - 1 - x)], "mirror symmetry");
            assert_eq!(v, img.pixels[(side - 1 - y) * side + x], "flip symmetry");
        }
    }
    assert!(ones > 0, "the step ring must be visible");
    assert_eq!(img.area, (ones as u128) * (SCALE as u128));
}

#[test]
fn ring_selection_in_three_ring_kernel() {
    // The classic three-ring kernel: the pixel at the top middle of a side-7
    // raster sits at normalized distance 3/7, which falls in ring 1 at a
    // ring fraction of 2/7, inside the step band, so the value is beta[1].
    let beta = vec![q(0.5), q(2.0 / 3.0), q(1.0)];
    let shell = step_shell(beta.clone());
    let img = KernelImage::new(&shell, 7, SCALE);
    let v = img.pixels[0 * 7 + 3];
    assert_eq!(v, beta[1]);
    // The center is in ring 0 at fraction 0, outside the step band.
    assert_eq!(img.pixels[3 * 7 + 3], 0);
}

#[test]
fn exact_unit_distance_is_zero_substituted() {
    // With side 7 and this zoom, the pixel at (1, 3) lands at normalized
    // distance exactly 1.0; the ring index then reaches the weight count
    // and the value is taken as zero instead of indexing out of bounds.
    let shell = step_shell(vec![SCALE]);
    let img = KernelImage::new(&shell, 7, 1227133513);
    assert_eq!(img.pixels[3 * 7 + 1], 0);
}

#[test]
fn total_intensity_monotone_in_beta() {
    // Raising a ring weight, all else fixed, never lowers the total.
    let core = Mapping::from_type(MappingType::StepCore).unwrap();
    let lo = KernelShell::new(vec![q(0.5), q(0.25)], core).unwrap();
    let hi = KernelShell::new(vec![q(0.5), q(0.75)], core).unwrap();
    let img_lo = KernelImage::new(&lo, 9, SCALE);
    let img_hi = KernelImage::new(&hi, 9, SCALE);
    assert!(img_lo.area <= img_hi.area);
    let gauss = Mapping::from_type(MappingType::GaussianCore { alpha: q(4.0) }).unwrap();
    let g_lo = KernelImage::new(
        &KernelShell::new(vec![q(0.3)], gauss).unwrap(),
        21,
        SCALE,
    );
    let g_hi = KernelImage::new(
        &KernelShell::new(vec![q(0.9)], gauss).unwrap(),
        21,
        SCALE,
    );
    assert!(g_lo.area <= g_hi.area);
}
