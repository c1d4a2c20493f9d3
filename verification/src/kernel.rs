//! Radial kernel shells and their rasterization.
//!
//! A kernel shell is a non-empty sequence of ring weights together with a
//! core mapping; its radial profile at normalized distance `r` is
//! `beta[floor(r * len)] * core(fract(r * len))`.  The raster samples that
//! profile on a square grid and accumulates the total intensity, the
//! normalization divisor of the downstream convolution step.

use crate::fixed::{fx_mul, fx_mul_spec, isqrt, lemma_sqrt_unique, sqrt_floor, SCALE};
use crate::mapping::{eval_spec, lemma_eval_bounded, Mapping, MappingType};
use crate::LeniaError;
use vstd::prelude::*;

verus! {

/// Largest accepted raster side length; keeps the pixel buffer size and all
/// squared distances representable.
pub const MAX_RESOLUTION: u32 = 0x2000_0000;

/// A radial kernel: ring peak weights and a core mapping.
pub struct KernelShell {
    beta: Vec<u64>,
    core: Mapping,
}

impl KernelShell {
    /// The ring weights, as Q32 scalars.
    pub closed spec fn beta_spec(&self) -> Seq<u64> {
        self.beta@
    }

    /// The core mapping.
    pub closed spec fn core_spec(&self) -> Mapping {
        self.core
    }

    /// At least one ring, and a representable core.
    pub open spec fn wf(&self) -> bool {
        self.beta_spec().len() > 0 && self.core_spec().wf()
    }

    /// Builds a shell from ring weights and a core mapping, rejecting an
    /// empty weight sequence.
    pub fn new(beta: Vec<u64>, core: Mapping) -> (r: Result<KernelShell, LeniaError>)
        requires
            core.wf(),
        ensures
            match r {
                Ok(s) => beta@.len() > 0 && s.beta_spec() == beta@ && s.core_spec() == core,
                Err(e) => beta@.len() == 0 && e == LeniaError::EmptyBeta,
            },
    {
        if beta.len() == 0 {
            Err(LeniaError::EmptyBeta)
        } else {
            Ok(KernelShell { beta, core })
        }
    }

    /// Number of rings.
    pub fn beta_len(&self) -> (n: usize)
        ensures
            n == self.beta_spec().len(),
    {
        self.beta.len()
    }
}

/// Twice the offset of coordinate `a` from the grid center `(res - 1) / 2`.
pub open spec fn centered_2x(res: int, a: int) -> int {
    2 * a - (res - 1)
}

/// Four times the squared euclidean distance of pixel `(x, y)` from the
/// grid center.
pub open spec fn dist_sq4(res: int, x: int, y: int) -> int {
    centered_2x(res, x) * centered_2x(res, x) + centered_2x(res, y) * centered_2x(res, y)
}

/// The normalized distance of pixel `(x, y)` from the center, in Q32:
/// euclidean distance, divided by the zoom factor and the side length.
pub open spec fn norm_dist_spec(res: int, zoom: int, x: int, y: int) -> int {
    let d = sqrt_floor(dist_sq4(res, x, y) * 0x1_0000_0000_0000_0000);
    (d * (SCALE as int) / zoom) / (2 * res)
}

/// The raster value at pixel `(x, y)`: zero outside the unit disc and
/// beyond the last ring, else the ring weight times the core value at the
/// position within the ring.
pub open spec fn pixel_spec(
    beta: Seq<u64>,
    core: MappingType,
    res: int,
    zoom: int,
    x: int,
    y: int,
) -> int {
    let nd = norm_dist_spec(res, zoom, x, y);
    if nd > SCALE {
        0
    } else {
        let kr = nd * beta.len();
        let ring = kr / (SCALE as int);
        if !(0 <= ring < beta.len()) {
            0
        } else {
            fx_mul_spec(beta[ring] as int, eval_spec(core, kr % (SCALE as int)))
        }
    }
}

/// The sum of the first `n` raster values in row-major order.
pub open spec fn intensity_sum(
    beta: Seq<u64>,
    core: MappingType,
    res: int,
    zoom: int,
    n: nat,
) -> int
    decreases n,
{
    if n == 0 {
        0
    } else {
        intensity_sum(beta, core, res, zoom, (n - 1) as nat) + pixel_spec(
            beta,
            core,
            res,
            zoom,
            (n - 1) as int % res,
            (n - 1) as int / res,
        )
    }
}

/// A rasterized kernel: a square grid of Q32 intensities in row-major
/// order, with the accumulated total intensity.
pub struct KernelImage {
    /// Row-major Q32 intensity of each pixel.
    pub pixels: Vec<u64>,
    /// Side length of the square grid.
    pub resolution: u32,
    /// Sum of all pixel intensities, the kernel normalization scalar.
    pub area: u128,
}

impl KernelImage {
    /// Rasterizes a shell on a square grid of the given side length, at the
    /// given Q32 zoom factor.
    pub fn new(shell: &KernelShell, resolution: u32, zoom: u64) -> (r: KernelImage)
        requires
            shell.wf(),
            1 <= resolution <= MAX_RESOLUTION,
            (resolution as int) * (resolution as int) <= usize::MAX as int,
            1 <= zoom,
        ensures
            r.resolution == resolution,
            r.pixels@.len() == (resolution as int) * (resolution as int),
            forall|j: int|
                0 <= j < (resolution as int) * (resolution as int) ==> r.pixels@[j]
                    == pixel_spec(
                    shell.beta_spec(),
                    shell.core_spec().ty,
                    resolution as int,
                    zoom as int,
                    j % (resolution as int),
                    j / (resolution as int),
                ),
            r.area == intensity_sum(
                shell.beta_spec(),
                shell.core_spec().ty,
                resolution as int,
                zoom as int,
                ((resolution as int) * (resolution as int)) as nat,
            ),
    {
        let res_us: usize = resolution as usize;
        let n: usize = res_us * res_us;
        proof {
            assert(n <= 0x400_0000_0000_0000) by (nonlinear_arith)
                requires
                    n == (resolution as int) * (resolution as int),
                    resolution <= 0x2000_0000,
            ;
        }
        let mut pixels: Vec<u64> = Vec::new();
        let mut area: u128 = 0;
        let mut idx: usize = 0;
        while idx < n
            invariant
                shell.wf(),
                1 <= resolution <= MAX_RESOLUTION,
                1 <= zoom,
                n == (resolution as int) * (resolution as int),
                n <= 0x400_0000_0000_0000,
                res_us == resolution,
                idx <= n,
                pixels@.len() == idx,
                forall|j: int|
                    0 <= j < idx ==> pixels@[j] == pixel_spec(
                        shell.beta_spec(),
                        shell.core_spec().ty,
                        resolution as int,
                        zoom as int,
                        j % (resolution as int),
                        j / (resolution as int),
                    ),
                area == intensity_sum(
                    shell.beta_spec(),
                    shell.core_spec().ty,
                    resolution as int,
                    zoom as int,
                    idx as nat,
                ),
                area <= (idx as int) * (u64::MAX as int),
            decreases n - idx,
        {
            let x: u32 = (idx % res_us) as u32;
            proof {
                assert((idx as int) / (res_us as int) < res_us as int) by (nonlinear_arith)
                    requires
                        0 <= idx as int,
                        (idx as int) < (res_us as int) * (res_us as int),
                        res_us as int >= 1,
                ;
            }
            let y: u32 = (idx / res_us) as u32;
            let v: u64 = pixel_value(shell, resolution, zoom, x, y);
            pixels.push(v);
            area = area + (v as u128);
            idx = idx + 1;
        }
        KernelImage { pixels, resolution, area }
    }
}

/// Computes one raster value.
fn pixel_value(shell: &KernelShell, res: u32, zoom: u64, x: u32, y: u32) -> (v: u64)
    requires
        shell.wf(),
        1 <= res <= MAX_RESOLUTION,
        1 <= zoom,
        x < res,
        y < res,
    ensures
        v == pixel_spec(
            shell.beta_spec(),
            shell.core_spec().ty,
            res as int,
            zoom as int,
            x as int,
            y as int,
        ),
{
    let rm1: u64 = (res - 1) as u64;
    let ax: u64 = abs_centered_2x(rm1, x as u64);
    let ay: u64 = abs_centered_2x(rm1, y as u64);
    proof {
        lemma_abs_square(res as int, x as int, ax as int);
        lemma_abs_square(res as int, y as int, ay as int);
        assert(ax * ax + ay * ay < 0x2000_0000_0000_0000) by (nonlinear_arith)
            requires
                0 <= ax < 0x4000_0000,
                0 <= ay < 0x4000_0000,
        ;
    }
    let n4: u64 = ax * ax + ay * ay;
    let d: u128 = isqrt((n4 as u128) * 0x1_0000_0000_0000_0000);
    proof {
        assert((d as int) * (SCALE as int) <= u128::MAX) by (nonlinear_arith)
            requires
                0 <= (d as int) < 0x8000_0000_0000_0000,
        ;
    }
    let q: u128 = (d * (SCALE as u128)) / (zoom as u128);
    let nd128: u128 = q / (2 * (res as u128));
    let ghost beta = shell.beta_spec();
    let ghost core = shell.core_spec().ty;
    proof {
        lemma_sqrt_unique(
            (n4 as int) * 0x1_0000_0000_0000_0000,
            d as int,
            sqrt_floor((n4 as int) * 0x1_0000_0000_0000_0000),
        );
        assert(nd128 == norm_dist_spec(res as int, zoom as int, x as int, y as int));
    }
    if nd128 > SCALE as u128 {
        0
    } else {
        let nd: u64 = nd128 as u64;
        let len: usize = shell.beta_len();
        proof {
            assert((nd as int) * (len as int) <= u128::MAX) by (nonlinear_arith)
                requires
                    0 <= nd as int <= SCALE as int,
                    0 <= len as int <= u64::MAX as int,
            ;
        }
        let kr: u128 = (nd as u128) * (len as u128);
        let ring: u128 = kr / (SCALE as u128);
        if ring >= len as u128 {
            0
        } else {
            let frac: u64 = (kr % (SCALE as u128)) as u64;
            let cv: u64 = match shell.core.eval(frac) {
                Ok(c) => c,
                Err(_) => {
                    proof {
                        assert(false);
                    }
                    0
                },
            };
            let bv: u64 = shell.beta[ring as usize];
            proof {
                assert((bv as int) * (cv as int) <= (u64::MAX as int) * (SCALE as int))
                    by (nonlinear_arith)
                    requires
                        0 <= bv as int <= u64::MAX as int,
                        0 <= cv as int <= SCALE as int,
                ;
            }
            fx_mul(bv, cv)
        }
    }
}

/// `|2 a - (res - 1)|` on raw coordinates.
fn abs_centered_2x(rm1: u64, a: u64) -> (r: u64)
    requires
        a <= rm1 || 2 * a <= u64::MAX,
        rm1 < 0x2000_0000,
        a < 0x2000_0000,
    ensures
        r == centered_2x((rm1 + 1) as int, a as int) || r == -centered_2x(
            (rm1 + 1) as int,
            a as int,
        ),
        r < 0x4000_0000,
{
    let two_a: u64 = 2 * a;
    if two_a >= rm1 {
        two_a - rm1
    } else {
        rm1 - two_a
    }
}

/// The square of the absolute offset equals the square of the offset.
proof fn lemma_abs_square(res: int, a: int, abs2x: int)
    requires
        abs2x == centered_2x(res, a) || abs2x == -centered_2x(res, a),
    ensures
        abs2x * abs2x == centered_2x(res, a) * centered_2x(res, a),
{
    let c = centered_2x(res, a);
    assert(abs2x * abs2x == c * c) by (nonlinear_arith)
        requires
            abs2x == c || abs2x == -c,
    ;
}

/// The raster value of a pixel depends only on its squared distance from
/// the center, so the raster has the full symmetry of the square: it is
/// unchanged by transposition and by mirroring either coordinate.
pub proof fn lemma_pixel_symmetric(
    beta: Seq<u64>,
    core: MappingType,
    res: int,
    zoom: int,
    x: int,
    y: int,
)
    ensures
        pixel_spec(beta, core, res, zoom, x, y) == pixel_spec(beta, core, res, zoom, y, x),
        pixel_spec(beta, core, res, zoom, x, y) == pixel_spec(
            beta,
            core,
            res,
            zoom,
            res - 1 - x,
            y,
        ),
        pixel_spec(beta, core, res, zoom, x, y) == pixel_spec(
            beta,
            core,
            res,
            zoom,
            x,
            res - 1 - y,
        ),
{
    let cx = centered_2x(res, x);
    let mx = centered_2x(res, res - 1 - x);
    assert(mx == -cx);
    assert(mx * mx == cx * cx) by (nonlinear_arith)
        requires
            mx == -cx,
    ;
    let cy = centered_2x(res, y);
    let my = centered_2x(res, res - 1 - y);
    assert(my == -cy);
    assert(my * my == cy * cy) by (nonlinear_arith)
        requires
            my == -cy,
    ;
    assert(dist_sq4(res, x, y) == dist_sq4(res, y, x));
    assert(dist_sq4(res, x, y) == dist_sq4(res, res - 1 - x, y));
    assert(dist_sq4(res, x, y) == dist_sq4(res, x, res - 1 - y));
}

/// Raising any ring weight, all else fixed, never lowers a raster value.
proof fn lemma_pixel_monotone(
    beta1: Seq<u64>,
    beta2: Seq<u64>,
    core: MappingType,
    res: int,
    zoom: int,
    x: int,
    y: int,
)
    requires
        beta1.len() == beta2.len(),
        forall|i: int| 0 <= i < beta1.len() ==> beta1[i] <= beta2[i],
    ensures
        pixel_spec(beta1, core, res, zoom, x, y) <= pixel_spec(beta2, core, res, zoom, x, y),
{
    let nd = norm_dist_spec(res, zoom, x, y);
    if nd <= SCALE {
        let kr = nd * beta1.len();
        let ring = kr / (SCALE as int);
        if 0 <= ring < beta1.len() {
            let frac = kr % (SCALE as int);
            assert(0 <= frac < SCALE as int);
            lemma_eval_bounded(core, frac);
            let ev = eval_spec(core, frac);
            assert(beta1[ring] <= beta2[ring]);
            assert(fx_mul_spec(beta1[ring] as int, ev) <= fx_mul_spec(beta2[ring] as int, ev))
                by (nonlinear_arith)
                requires
                    0 <= beta1[ring] as int <= beta2[ring] as int,
                    0 <= ev,
                    fx_mul_spec(beta1[ring] as int, ev) == ((beta1[ring] as int) * ev) / (
                    SCALE as int),
                    fx_mul_spec(beta2[ring] as int, ev) == ((beta2[ring] as int) * ev) / (
                    SCALE as int),
                    SCALE >= 1,
            ;
        }
    }
}

/// Raising any ring weight, all else fixed, never lowers the accumulated
/// total intensity of the raster.
pub proof fn lemma_total_intensity_monotone(
    beta1: Seq<u64>,
    beta2: Seq<u64>,
    core: MappingType,
    res: int,
    zoom: int,
    n: nat,
)
    requires
        beta1.len() == beta2.len(),
        forall|i: int| 0 <= i < beta1.len() ==> beta1[i] <= beta2[i],
    ensures
        intensity_sum(beta1, core, res, zoom, n) <= intensity_sum(beta2, core, res, zoom, n),
    decreases n,
{
    if n > 0 {
        lemma_total_intensity_monotone(beta1, beta2, core, res, zoom, (n - 1) as nat);
        lemma_pixel_monotone(
            beta1,
            beta2,
            core,
            res,
            zoom,
            (n - 1) as int % res,
            (n - 1) as int / res,
        );
    }
}

} // verus!
