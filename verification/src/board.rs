//! The top-level simulation configuration.
//!
//! A board owns a rule (kernel shell plus growth mapping), grid dimensions,
//! the neighborhood radius and timestep, and the growth-table resolution.
//! It validates geometric feasibility at construction, eagerly rasterizes
//! the kernel, and derives the compact parameter record and the growth
//! lookup table that the external per-cell update loop consumes.

use crate::fixed::SCALE;
use crate::kernel::{intensity_sum, pixel_spec, KernelImage, KernelShell};
use crate::mapping::{eval_spec, Mapping};
use crate::LeniaError;
use vstd::prelude::*;

verus! {

/// Largest accepted neighborhood radius; keeps the raster side `2 dx + 1`
/// within the raster's own limit.
pub const MAX_RADIUS: u32 = 0x0FFF_FFFF;

/// An update rule: a kernel shell and a growth mapping.
pub struct LeniaRule {
    kernel_shell: KernelShell,
    growth_mapping: Mapping,
}

impl LeniaRule {
    /// The kernel shell.
    pub closed spec fn shell_spec(&self) -> KernelShell {
        self.kernel_shell
    }

    /// The growth mapping.
    pub closed spec fn growth_spec(&self) -> Mapping {
        self.growth_mapping
    }

    /// Both halves of the rule are representable.
    pub open spec fn wf(&self) -> bool {
        self.shell_spec().wf() && self.growth_spec().wf()
    }

    /// Pairs a kernel shell with a growth mapping.
    pub fn new(kernel_shell: KernelShell, growth_mapping: Mapping) -> (r: LeniaRule)
        ensures
            r.shell_spec() == kernel_shell,
            r.growth_spec() == growth_mapping,
    {
        LeniaRule { kernel_shell, growth_mapping }
    }
}

/// The compact per-frame parameter record consumed by the external update
/// loop.  All scalars are Q32; only `random_float` and `delta_time` change
/// between frames, refreshed by the external scheduler.
#[derive(Clone, Copy, Debug, PartialEq, Eq, Structural)]
pub struct LeniaGPUParams {
    /// Fresh random scalar in `[0, 1)`.
    pub random_float: u64,
    /// Kernel normalization scalar: the raster's total intensity.
    pub kernel_area: u128,
    /// Side length of the kernel raster, `2 dx + 1`.
    pub kernel_resolution: u32,
    /// Elapsed time, written by the external loop each frame.
    pub delta_time: u64,
    /// Integration timestep.
    pub dt: u64,
    /// Number of samples in the growth table.
    pub growth_resolution: u32,
}

impl LeniaGPUParams {
    /// Builds a record with elapsed time zero.
    pub fn new(
        random_float: u64,
        kernel_area: u128,
        kernel_resolution: u32,
        dt: u64,
        growth_resolution: u32,
    ) -> (r: Self)
        ensures
            r == (LeniaGPUParams {
                random_float,
                kernel_area,
                kernel_resolution,
                delta_time: 0u64,
                dt,
                growth_resolution,
            }),
    {
        Self { random_float, kernel_area, kernel_resolution, delta_time: 0, dt, growth_resolution }
    }

    /// The same record with the elapsed time replaced.
    pub fn with_delta_time(&self, delta_time: u64) -> (r: Self)
        ensures
            r == (LeniaGPUParams { delta_time, ..*self }),
    {
        Self { delta_time, ..*self }
    }
}

/// Relies on `rand::random::<u32>`: a fresh value from the thread-local
/// generator.  Nothing is assumed of the draw beyond its width: any 32-bit
/// value is a Q32 scalar in `[0, 1)`.
#[verifier::external_body]
fn random_unit_scalar() -> (r: u64)
    ensures
        r < SCALE,
{
    rand::random::<u32>() as u64
}

/// The sample point of growth-table entry `i` out of `n`: `i / (n - 1)` in
/// Q32, so the samples run evenly from `0.0` to `1.0` inclusive.
pub open spec fn growth_node(i: int, n: int) -> int {
    (i * (SCALE as int)) / (n - 1)
}

/// The top-level simulation configuration.
pub struct LeniaBoard {
    lenia_rule: LeniaRule,
    space_resolution: (u32, u32),
    dx: u32,
    dt: u64,
    growth_resolution: u32,
    kernel_image: KernelImage,
}

impl LeniaBoard {
    /// The update rule.
    pub closed spec fn rule_spec(&self) -> LeniaRule {
        self.lenia_rule
    }

    /// Grid width and height.
    pub closed spec fn space_resolution_spec(&self) -> (u32, u32) {
        self.space_resolution
    }

    /// The neighborhood radius.
    pub closed spec fn dx_spec(&self) -> u32 {
        self.dx
    }

    /// The timestep.
    pub closed spec fn dt_spec(&self) -> u64 {
        self.dt
    }

    /// The number of growth-table samples.
    pub closed spec fn growth_resolution_spec(&self) -> u32 {
        self.growth_resolution
    }

    /// The eagerly computed kernel raster.
    pub closed spec fn kernel_image_spec(&self) -> KernelImage {
        self.kernel_image
    }

    /// The raster side derived from the radius.
    pub open spec fn side_spec(&self) -> int {
        2 * self.dx_spec() + 1
    }

    /// A validated board: representable rule, feasible geometry, at least
    /// two growth samples, and a raster that matches the rule.
    pub open spec fn wf(&self) -> bool {
        &&& self.rule_spec().wf()
        &&& self.dx_spec() <= MAX_RADIUS
        &&& self.side_spec() <= self.space_resolution_spec().0
        &&& self.side_spec() <= self.space_resolution_spec().1
        &&& self.growth_resolution_spec() >= 2
        &&& self.kernel_image_spec().resolution == self.side_spec()
        &&& self.kernel_image_spec().pixels@.len() == self.side_spec() * self.side_spec()
        &&& self.kernel_image_spec().area == intensity_sum(
            self.rule_spec().shell_spec().beta_spec(),
            self.rule_spec().shell_spec().core_spec().ty,
            self.side_spec(),
            SCALE as int,
            (self.side_spec() * self.side_spec()) as nat,
        )
        &&& forall|j: int|
            0 <= j < self.side_spec() * self.side_spec()
                ==> self.kernel_image_spec().pixels@[j] == pixel_spec(
                self.rule_spec().shell_spec().beta_spec(),
                self.rule_spec().shell_spec().core_spec().ty,
                self.side_spec(),
                SCALE as int,
                j % self.side_spec(),
                j / self.side_spec(),
            )
    }

    /// Builds a board, validating that the kernel neighborhood fits on the
    /// grid and that the growth table will hold at least two samples; on
    /// success the kernel raster is computed at side `2 dx + 1`, zoom `1.0`.
    pub fn new(
        lenia_rule: LeniaRule,
        space_resolution: (u32, u32),
        dx: u32,
        dt: u64,
        growth_resolution: u32,
    ) -> (r: Result<LeniaBoard, LeniaError>)
        requires
            lenia_rule.wf(),
            dx <= MAX_RADIUS,
            (2 * dx + 1) * (2 * dx + 1) <= usize::MAX,
        ensures
            match r {
                Ok(b) => {
                    &&& 2 * dx + 1 <= space_resolution.0
                    &&& 2 * dx + 1 <= space_resolution.1
                    &&& growth_resolution >= 2
                    &&& b.wf()
                    &&& b.rule_spec() == lenia_rule
                    &&& b.space_resolution_spec() == space_resolution
                    &&& b.dx_spec() == dx
                    &&& b.dt_spec() == dt
                    &&& b.growth_resolution_spec() == growth_resolution
                },
                Err(e) => {
                    &&& (2 * dx + 1 > space_resolution.0 || 2 * dx + 1 > space_resolution.1
                        || growth_resolution < 2)
                    &&& e == if 2 * dx + 1 > space_resolution.0 || 2 * dx + 1
                        > space_resolution.1 {
                        LeniaError::KernelLargerThanBoard
                    } else {
                        LeniaError::GrowthResolutionTooSmall
                    }
                },
            },
    {
        let side: u32 = 2 * dx + 1;
        if side > space_resolution.0 || side > space_resolution.1 {
            return Err(LeniaError::KernelLargerThanBoard);
        }
        if growth_resolution < 2 {
            return Err(LeniaError::GrowthResolutionTooSmall);
        }
        let kernel_image = KernelImage::new(&lenia_rule.kernel_shell, side, SCALE);
        Ok(
            LeniaBoard {
                lenia_rule,
                space_resolution,
                dx,
                dt,
                growth_resolution,
                kernel_image,
            },
        )
    }

    /// Derives a fresh parameter record: a new random seed, the kernel
    /// normalization scalar and diameter, the timestep, and the growth
    /// resolution; elapsed time starts at zero.
    pub fn generate_params(&self) -> (r: LeniaGPUParams)
        requires
            self.wf(),
        ensures
            r.random_float < SCALE,
            r.kernel_area == self.kernel_image_spec().area,
            r.kernel_resolution == self.side_spec(),
            r.delta_time == 0,
            r.dt == self.dt_spec(),
            r.growth_resolution == self.growth_resolution_spec(),
    {
        LeniaGPUParams::new(
            random_unit_scalar(),
            self.kernel_image.area,
            2 * self.dx + 1,
            self.dt,
            self.growth_resolution,
        )
    }

    /// A copy of the kernel raster, for export or upload.
    pub fn get_kernel_image(&self) -> (r: KernelImage)
        ensures
            r.pixels@ == self.kernel_image_spec().pixels@,
            r.resolution == self.kernel_image_spec().resolution,
            r.area == self.kernel_image_spec().area,
    {
        let src = &self.kernel_image.pixels;
        let mut pixels: Vec<u64> = Vec::new();
        let mut i: usize = 0;
        while i < src.len()
            invariant
                i <= src@.len(),
                pixels@.len() == i,
                forall|j: int| 0 <= j < i ==> pixels@[j] == src@[j],
            decreases src@.len() - i,
        {
            pixels.push(src[i]);
            i = i + 1;
        }
        proof {
            assert(pixels@ =~= self.kernel_image_spec().pixels@);
        }
        KernelImage {
            pixels,
            resolution: self.kernel_image.resolution,
            area: self.kernel_image.area,
        }
    }

    /// The growth table: `growth_resolution` samples of the growth mapping,
    /// entry `i` holding the value at `i / (growth_resolution - 1)`.
    pub fn get_growth_vector(&self) -> (r: Vec<u64>)
        requires
            self.wf(),
        ensures
            r@.len() == self.growth_resolution_spec(),
            forall|i: int|
                0 <= i < r@.len() ==> r@[i] == eval_spec(
                    self.rule_spec().growth_spec().ty,
                    growth_node(i, self.growth_resolution_spec() as int),
                ),
    {
        let n: u32 = self.growth_resolution;
        let mut table: Vec<u64> = Vec::new();
        let mut i: u32 = 0;
        while i < n
            invariant
                self.wf(),
                n == self.growth_resolution_spec(),
                n >= 2,
                i <= n,
                table@.len() == i,
                forall|j: int|
                    0 <= j < i ==> table@[j] == eval_spec(
                        self.rule_spec().growth_spec().ty,
                        growth_node(j, n as int),
                    ),
            decreases n - i,
        {
            let wide: u128 = ((i as u128) * (SCALE as u128)) / ((n - 1) as u128);
            proof {
                assert((i as int) * (SCALE as int) / ((n - 1) as int) <= SCALE as int)
                    by (nonlinear_arith)
                    requires
                        0 <= (i as int) <= (n - 1) as int,
                        1 <= (n - 1) as int,
                        SCALE >= 1,
                ;
            }
            let x: u64 = wide as u64;
            let v: u64 = match self.lenia_rule.growth_mapping.eval(x) {
                Ok(c) => c,
                Err(_) => {
                    proof {
                        assert(false);
                    }
                    0
                },
            };
            table.push(v);
            i = i + 1;
        }
        table
    }
}

} // verus!
