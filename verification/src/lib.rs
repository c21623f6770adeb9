//! A Monte-Carlo path tracer over analytic spheres.
//!
//! The renderer works in fixed-point arithmetic (see [`fixed`]): every scalar
//! is an `i64` scaled by [`fixed::SCALE`]. Camera rays are jittered per
//! sample, traced recursively through the scene up to a depth bound, and the
//! averaged, gamma-corrected result is quantized into a row-major RGB8
//! buffer, row zero at the top of the image. Rows render in parallel, each
//! from its own seeded random stream.

use vstd::prelude::*;
use rayon::iter::IntoParallelIterator;
use rayon::iter::ParallelIterator;

pub mod camera;
pub mod color;
pub mod fixed;
pub mod hittable;
pub mod hittable_list;
pub mod material;
pub mod ray;
pub mod rng;
pub mod sphere;
pub mod vec3;

use crate::camera::{Camera, camera_wf};
use crate::color::{ray_color, clamp, clamp_spec};
use crate::fixed::{sqrt_fix_spec, sqrt_fix};
use crate::hittable_list::{HittableList, list_wf};
use crate::rng::new_rng;

verus! {

pub struct ImageConfig {
    pub aspect_ratio: i64,
    pub width: u32,
    pub height: u32,
    pub samples_per_pixel: u32,
    pub max_depth: u32,
}

/// A configuration the render loop accepts: at least two pixels along each
/// axis (the jitter denominators are `width - 1` and `height - 1`), bounded
/// so that pixel sums and buffer sizes stay well inside their types.
pub open spec fn config_wf(c: ImageConfig) -> bool {
    &&& 2 <= c.width <= 4096
    &&& 2 <= c.height <= 4096
    &&& 1 <= c.samples_per_pixel <= 65536
}

impl ImageConfig {
    /// The default configuration: a 400 by 225 image at 16:9, 100 samples
    /// per pixel, 50 bounces.
    pub fn new() -> (c: ImageConfig)
        ensures
            c == (ImageConfig {
                aspect_ratio: 116508,
                width: 400,
                height: 225,
                samples_per_pixel: 100,
                max_depth: 50,
            }),
            config_wf(c),
    {
        ImageConfig {
            aspect_ratio: 116508,
            width: 400,
            height: 225,
            samples_per_pixel: 100,
            max_depth: 50,
        }
    }
}

/// The gamma-2 quantization of an accumulated channel: average the samples,
/// take the square root, clamp to just below one, and scale to a byte.
pub open spec fn quantize_spec(sum: int, samples: int) -> int {
    let avg = sum / samples;
    let g = clamp_spec(sqrt_fix_spec(avg), 0, 65470);
    (g * 256) / 65536
}

/// Quantize one color channel accumulated over `samples` draws.
pub fn quantize_channel(sum: u64, samples: u32) -> (b: u8)
    requires
        1 <= samples,
        sum <= samples * 65536,
    ensures
        b == quantize_spec(sum as int, samples as int),
{
    let avg = sum / (samples as u64);
    proof {
        assert(avg <= 65536) by (nonlinear_arith)
            requires
                avg == sum / (samples as u64),
                sum <= samples * 65536,
                samples >= 1;
    }
    let g = sqrt_fix(avg as i64);
    proof {
        assert(g <= 65536) by (nonlinear_arith)
            requires
                0 <= g,
                g * g <= avg * 65536,
                avg <= 65536;
    }
    let cl = clamp(g, 0, 65470);
    ((cl * 256) / 65536) as u8
}

/// Render one scanline. Row `y` of the image samples viewport coordinate
/// `t = (height - 1 - y + jitter)/(height - 1)`, so scanline zero is the top
/// of the image and `(s, t)` stays within the unit square up to jitter. Each
/// row draws from its own generator, derived from the render seed and the
/// row index, so parallel workers share no random state.
pub fn render_row(
    world: &HittableList,
    camera: &Camera,
    config: &ImageConfig,
    y: u32,
    seed: u64,
) -> (row: Vec<u8>)
    requires
        list_wf(*world),
        camera_wf(*camera),
        config_wf(*config),
        y < config.height,
    ensures
        row@.len() == 3 * config.width,
{
    let mut rng = new_rng(seed.wrapping_add((y as u64).wrapping_mul(0x9e3779b97f4a7c15)));
    let w = config.width;
    let h = config.height;
    let samples = config.samples_per_pixel;
    let mut row: Vec<u8> = Vec::new();
    let mut x: u32 = 0;
    while x < w
        invariant
            list_wf(*world),
            camera_wf(*camera),
            config_wf(*config),
            w == config.width,
            h == config.height,
            samples == config.samples_per_pixel,
            y < h,
            x <= w,
            row@.len() == 3 * x,
        decreases w - x,
    {
        let mut sum_r: u64 = 0;
        let mut sum_g: u64 = 0;
        let mut sum_b: u64 = 0;
        let mut s: u32 = 0;
        while s < samples
            invariant
                list_wf(*world),
                camera_wf(*camera),
                config_wf(*config),
                w == config.width,
                h == config.height,
                samples == config.samples_per_pixel,
                y < h,
                x < w,
                s <= samples,
                sum_r <= s * 65536,
                sum_g <= s * 65536,
                sum_b <= s * 65536,
            decreases samples - s,
        {
            let jx = crate::rng::next_fraction(&mut rng);
            let jy = crate::rng::next_fraction(&mut rng);
            let un: u64 = (x as u64) * 65536 + (jx as u64);
            let vn: u64 = ((h - 1 - y) as u64) * 65536 + (jy as u64);
            let ud: u64 = (w - 1) as u64;
            let vd: u64 = (h - 1) as u64;
            let uq: u64 = un / ud;
            let vq: u64 = vn / vd;
            proof {
                assert(uq <= 131071) by (nonlinear_arith)
                    requires
                        uq == un / ud,
                        un <= ud * 65536 + 65535,
                        ud >= 1;
                assert(vq <= 131071) by (nonlinear_arith)
                    requires
                        vq == vn / vd,
                        vn <= vd * 65536 + 65535,
                        vd >= 1;
            }
            let r = camera.get_ray(uq as i64, vq as i64, &mut rng);
            let c = ray_color(&r, world, config.max_depth, &mut rng);
            sum_r = sum_r + (c.x as u64);
            sum_g = sum_g + (c.y as u64);
            sum_b = sum_b + (c.z as u64);
            s = s + 1;
        }
        row.push(quantize_channel(sum_r, samples));
        row.push(quantize_channel(sum_g, samples));
        row.push(quantize_channel(sum_b, samples));
        x = x + 1;
    }
    row
}

/// Relies on rayon's IndexedParallelIterator: `into_par_iter` over a range
/// yields every index, `map` applies the closure to each, and `collect`
/// returns the results in index order. Each row is computed by the verified
/// `render_row`; the scene and camera are only read.
#[verifier::external_body]
fn par_render_rows(
    world: &HittableList,
    camera: &Camera,
    config: &ImageConfig,
    seed: u64,
) -> (rows: Vec<Vec<u8>>)
    requires
        list_wf(*world),
        camera_wf(*camera),
        config_wf(*config),
    ensures
        rows@.len() == config.height,
        forall|i: int| 0 <= i < rows@.len() ==> (#[trigger] rows@[i])@.len() == 3 * config.width,
{
    (0..config.height).into_par_iter().map(|y| render_row(world, camera, config, y, seed)).collect()
}

/// Render the scene into a row-major RGB8 buffer of `width * height` pixels,
/// row zero at the top. Rows are rendered by parallel workers, each with an
/// independent random stream derived from `seed`; equal seeds give equal
/// buffers.
pub fn render(world: &HittableList, camera: &Camera, config: &ImageConfig, seed: u64) -> (buf: Vec<
    u8,
>)
    requires
        list_wf(*world),
        camera_wf(*camera),
        config_wf(*config),
    ensures
        buf@.len() == 3 * config.width * config.height,
{
    let rows = par_render_rows(world, camera, config, seed);
    let mut buf: Vec<u8> = Vec::new();
    let mut y: usize = 0;
    while y < rows.len()
        invariant
            rows@.len() == config.height,
            forall|i: int| 0 <= i < rows@.len() ==> (#[trigger] rows@[i])@.len() == 3
                * config.width,
            y <= rows@.len(),
            buf@.len() == 3 * config.width * y,
        decreases rows@.len() - y,
    {
        let row = &rows[y];
        let mut j: usize = 0;
        while j < row.len()
            invariant
                row@.len() == 3 * config.width,
                j <= row@.len(),
                buf@.len() == 3 * config.width * y + j,
                y < rows@.len(),
                rows@.len() == config.height,
            decreases row@.len() - j,
        {
            buf.push(row[j]);
            j = j + 1;
        }
        proof {
            assert(3 * config.width * (y + 1) == 3 * config.width * y + 3 * config.width)
                by (nonlinear_arith);
        }
        y = y + 1;
    }
    proof {
        assert(3 * config.width * config.height == 3 * config.width * (rows@.len() as int))
            by (nonlinear_arith)
            requires
                rows@.len() == config.height;
    }
    buf
}

} // verus!
