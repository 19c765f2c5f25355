//! The sampling loop: jittered samples per pixel, averaged into a buffer.
use vstd::prelude::*;
use crate::camera::{ray_dir_spec, Camera};
use crate::color::{pixel_channel, write_color, PixelColor};
use crate::hitable::Hitable;
use crate::hitable_list::HitableList;
use crate::random::{fraction_of, lcg_next, Rng};
use crate::ray::{triple_vec, Ray};
use crate::sphere::Sphere;
use crate::tracer::{ray_color, trace_spec};
use crate::vec3::{div_floor, Vec3, ONE};

verus! {

/// The ray through viewport point `(u, v)`.
pub open spec fn camera_ray(cam: Camera, u: int, v: int) -> Ray {
    Ray { origin: cam.origin, direction: triple_vec(ray_dir_spec(cam, u, v)) }
}

/// The sum of the first `k` sample colors of pixel `(i, j)` from random
/// state `s`, and the state after them. Each sample draws two fractions to
/// jitter the pixel, then traces the camera ray at depth zero.
pub open spec fn samples_spec(
    cam: Camera,
    objs: Seq<Sphere>,
    i: int,
    j: int,
    width: int,
    height: int,
    k: nat,
    max_depth: int,
    s: u64,
) -> (Vec3, u64)
    decreases k,
{
    if k == 0 {
        (Vec3 { x: 0, y: 0, z: 0 }, s)
    } else {
        let (sum, s0) = samples_spec(cam, objs, i, j, width, height, (k - 1) as nat, max_depth, s);
        let s1 = lcg_next(s0);
        let s2 = lcg_next(s1);
        let u = (i * ONE + fraction_of(s1)) / (width - 1);
        let v = (j * ONE + fraction_of(s2)) / (height - 1);
        let (c, s3) = trace_spec(camera_ray(cam, u, v), objs, 0, max_depth, s2);
        (Vec3 { x: (sum.x + c.x) as i64, y: (sum.y + c.y) as i64, z: (sum.z + c.z) as i64 }, s3)
    }
}

/// The displayed average of `n` samples summing to `sum`.
pub open spec fn pixel_of(sum: Vec3, n: int) -> PixelColor {
    PixelColor {
        r: pixel_channel(sum.x as int, n) as u8,
        g: pixel_channel(sum.y as int, n) as u8,
        b: pixel_channel(sum.z as int, n) as u8,
    }
}

/// The random state before pixel `n` of a row-major render seeded by `seed`.
pub open spec fn state_before(
    cam: Camera,
    objs: Seq<Sphere>,
    width: int,
    height: int,
    samples: nat,
    max_depth: int,
    seed: u64,
    n: nat,
) -> u64
    decreases n,
{
    if n == 0 {
        seed
    } else {
        let m = (n - 1) as nat;
        samples_spec(
            cam,
            objs,
            (m as int) % width,
            (m as int) / width,
            width,
            height,
            samples,
            max_depth,
            state_before(cam, objs, width, height, samples, max_depth, seed, m),
        ).1
    }
}

/// Pixel `n` of a row-major render: column `n % width`, row `n / width`.
pub open spec fn render_pixel(
    cam: Camera,
    objs: Seq<Sphere>,
    width: int,
    height: int,
    samples: nat,
    max_depth: int,
    seed: u64,
    n: nat,
) -> PixelColor {
    pixel_of(
        samples_spec(
            cam,
            objs,
            (n as int) % width,
            (n as int) / width,
            width,
            height,
            samples,
            max_depth,
            state_before(cam, objs, width, height, samples, max_depth, seed, n),
        ).0,
        samples as int,
    )
}

/// Viewport coordinate of pixel index `i` jittered by `frac`: `(i + frac) / (dim - 1)`.
pub fn viewport_coord(i: u32, frac: i64, dim: u32) -> (r: i64)
    requires
        dim >= 2,
        i < dim,
        0 <= frac < ONE,
    ensures
        r == (i as int * ONE + frac) / (dim as int - 1),
        0 <= r <= 2 * ONE,
{
    let n = i as i128 * 10000 + frac as i128;
    let d = dim as i128 - 1;
    proof {
        assert(0 <= n / d <= 20000) by (nonlinear_arith)
            requires
                n == i * 10000 + frac,
                d == dim - 1,
                d >= 1,
                i <= d,
                0 <= frac < 10000,
        ;
    }
    div_floor(n, d) as i64
}

/// The displayed color of pixel `(i, j)`: the average of `samples` jittered rays.
pub fn sample_pixel(
    cam: &Camera,
    world: &HitableList,
    i: u32,
    j: u32,
    width: u32,
    height: u32,
    samples: u32,
    max_depth: u32,
    rng: &mut Rng,
) -> (r: PixelColor)
    requires
        cam.wf(),
        world.wf(),
        width >= 2,
        height >= 2,
        i < width,
        j < height,
        samples > 0,
    ensures
        ({
            let (sum, s) = samples_spec(
                *cam,
                world.list@,
                i as int,
                j as int,
                width as int,
                height as int,
                samples as nat,
                max_depth as int,
                old(rng).state,
            );
            r == pixel_of(sum, samples as int) && final(rng).state == s
        }),
{
    let mut sum = Vec3::new(0, 0, 0);
    let mut k: u32 = 0;
    while k < samples
        invariant
            cam.wf(),
            world.wf(),
            width >= 2,
            height >= 2,
            i < width,
            j < height,
            k <= samples,
            0 <= sum.x <= k * ONE,
            0 <= sum.y <= k * ONE,
            0 <= sum.z <= k * ONE,
            (sum, rng.state) == samples_spec(
                *cam,
                world.list@,
                i as int,
                j as int,
                width as int,
                height as int,
                k as nat,
                max_depth as int,
                old(rng).state,
            ),
        decreases samples - k,
    {
        let fu = rng.next_fraction();
        let fv = rng.next_fraction();
        let u = viewport_coord(i, fu, width);
        let v = viewport_coord(j, fv, height);
        let ray = cam.get_ray(u, v);
        assert(ray == camera_ray(*cam, u as int, v as int));
        let c = ray_color(ray, world, 0, max_depth, rng);
        sum = Vec3 { x: sum.x + c.x, y: sum.y + c.y, z: sum.z + c.z };
        k = k + 1;
    }
    let r = write_color(sum, samples);
    assert(r == pixel_of(sum, samples as int));
    r
}

/// Renders a `width` by `height` image, row-major from the top-left pixel,
/// each pixel from `samples` jittered rays, with the random stream seeded by `seed`.
pub fn render(
    cam: &Camera,
    world: &HitableList,
    width: u32,
    height: u32,
    samples: u32,
    max_depth: u32,
    seed: u64,
) -> (r: Vec<PixelColor>)
    requires
        cam.wf(),
        world.wf(),
        width >= 2,
        height >= 2,
        samples > 0,
        width * height <= usize::MAX,
    ensures
        r@.len() == width * height,
        forall|n: int|
            0 <= n < width * height ==> r@[n] == render_pixel(
                *cam,
                world.list@,
                width as int,
                height as int,
                samples as nat,
                max_depth as int,
                seed,
                n as nat,
            ),
{
    let mut rng = Rng::new(seed);
    let mut out: Vec<PixelColor> = Vec::new();
    let total: usize = width as usize * height as usize;
    let mut n: usize = 0;
    while n < total
        invariant
            cam.wf(),
            world.wf(),
            width >= 2,
            height >= 2,
            samples > 0,
            total == width * height,
            n <= total,
            out@.len() == n,
            rng.state == state_before(
                *cam,
                world.list@,
                width as int,
                height as int,
                samples as nat,
                max_depth as int,
                seed,
                n as nat,
            ),
            forall|m: int|
                0 <= m < n ==> out@[m] == render_pixel(
                    *cam,
                    world.list@,
                    width as int,
                    height as int,
                    samples as nat,
                    max_depth as int,
                    seed,
                    m as nat,
                ),
        decreases total - n,
    {
        let i = (n % width as usize) as u32;
        let j = (n / width as usize) as u32;
        proof {
            let nn = n as int;
            let w = width as int;
            assert(nn / w < height as int) by (nonlinear_arith)
                requires
                    0 <= nn < w * height,
                    w >= 2,
            ;
        }
        let px = sample_pixel(cam, world, i, j, width, height, samples, max_depth, &mut rng);
        out.push(px);
        n = n + 1;
    }
    out
}

} // verus!
