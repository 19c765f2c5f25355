//! The camera: maps viewport coordinates to rays from the eye.
use vstd::prelude::*;
use crate::material::{lemma_fmul_unit, unit_spec, unit_vector};
use crate::ray::{triple_vec, Ray};
use crate::sphere::{as_triple, dot3};
use crate::vec3::{div_floor, fdiv, fixed_mul_wide, fmul, lemma_fmul_scale, Vec3, ONE};

verus! {

/// Bound on eye and target coordinates.
pub const SCENE_BOUND: i64 = 134217728;

/// Bound on the viewport's half extents.
pub const VIEW_BOUND: i64 = 10000000;

/// Fixed-point cross product of two unit vectors.
pub open spec fn cross_fixed(a: (int, int, int), b: (int, int, int)) -> (int, int, int) {
    (
        fdiv(a.1 * b.2 - a.2 * b.1, ONE as int),
        fdiv(a.2 * b.0 - a.0 * b.2, ONE as int),
        fdiv(a.0 * b.1 - a.1 * b.0, ONE as int),
    )
}

/// `a - b`, for vectors whose difference is representable.
pub open spec fn diff(a: Vec3, b: Vec3) -> Vec3 {
    Vec3 { x: (a.x - b.x) as i64, y: (a.y - b.y) as i64, z: (a.z - b.z) as i64 }
}

pub open spec fn scaled(k: int, v: (int, int, int)) -> (int, int, int) {
    (fmul(k, v.0), fmul(k, v.1), fmul(k, v.2))
}

/// A camera: the eye, the lower-left corner of the viewport and its two edges.
#[derive(Copy, Clone, Debug)]
pub struct Camera {
    pub origin: Vec3,
    pub lower_left_corner: Vec3,
    pub horizontal: Vec3,
    pub vertical: Vec3,
}

/// The direction from the eye through viewport point `(s, t)`.
pub open spec fn ray_dir_spec(c: Camera, s: int, t: int) -> (int, int, int) {
    (
        c.lower_left_corner.x + fmul(s, c.horizontal.x as int) + fmul(t, c.vertical.x as int)
            - c.origin.x,
        c.lower_left_corner.y + fmul(s, c.horizontal.y as int) + fmul(t, c.vertical.y as int)
            - c.origin.y,
        c.lower_left_corner.z + fmul(s, c.horizontal.z as int) + fmul(t, c.vertical.z as int)
            - c.origin.z,
    )
}

fn cross_unit(a: Vec3, b: Vec3) -> (r: (i128, i128, i128))
    requires
        a.within(ONE as int),
        b.within(ONE as int),
    ensures
        (r.0 as int, r.1 as int, r.2 as int) == cross_fixed(as_triple(a), as_triple(b)),
        -2 * ONE <= r.0 <= 2 * ONE && -2 * ONE <= r.1 <= 2 * ONE && -2 * ONE <= r.2 <= 2 * ONE,
{
    proof {
        lemma_fmul_unit(a.y as int, b.z as int);
        assert(forall|p: int, q: int|
            -10000 <= p <= 10000 && -10000 <= q <= 10000 ==> -100000000 <= #[trigger] (p * q)
                <= 100000000) by {
            assert forall|p: int, q: int|
                -10000 <= p <= 10000 && -10000 <= q <= 10000 implies -100000000 <= #[trigger] (p
                * q) <= 100000000 by {
                assert(-100000000 <= p * q <= 100000000) by (nonlinear_arith)
                    requires
                        -10000 <= p <= 10000,
                        -10000 <= q <= 10000,
                ;
            }
        }
        assert(forall|p: int| -200000000 <= p <= 200000000 ==> -20000 <= #[trigger] (p / 10000)
            <= 20000) by {
            assert forall|p: int| -200000000 <= p <= 200000000 implies -20000 <= #[trigger] (p
                / 10000) <= 20000 by {
                assert(-20000 <= p / 10000 <= 20000) by (nonlinear_arith)
                    requires
                        -200000000 <= p <= 200000000,
                ;
            }
        }
    }
    let (ax, ay, az) = (a.x as i128, a.y as i128, a.z as i128);
    let (bx, by, bz) = (b.x as i128, b.y as i128, b.z as i128);
    (
        div_floor(ay * bz - az * by, 10000),
        div_floor(az * bx - ax * bz, 10000),
        div_floor(ax * by - ay * bx, 10000),
    )
}

impl Camera {
    /// The eye is within `SCENE_BOUND`, and the corner's offset from the eye
    /// and both edges within `5 VIEW_BOUND`.
    pub open spec fn wf(self) -> bool {
        &&& self.origin.within(SCENE_BOUND as int)
        &&& -5 * VIEW_BOUND <= self.lower_left_corner.x - self.origin.x <= 5 * VIEW_BOUND
        &&& -5 * VIEW_BOUND <= self.lower_left_corner.y - self.origin.y <= 5 * VIEW_BOUND
        &&& -5 * VIEW_BOUND <= self.lower_left_corner.z - self.origin.z <= 5 * VIEW_BOUND
        &&& self.horizontal.within(5 * VIEW_BOUND)
        &&& self.vertical.within(5 * VIEW_BOUND)
    }

    /// A camera at `lookfrom` facing `lookat`, with `vup` pointing up and a
    /// viewport of the given half extents at unit distance (the half height is
    /// `tan(fov / 2)`, the half width that times the aspect ratio). `None`
    /// where the view direction or the up vector is zero or they are parallel.
    pub fn new(lookfrom: Vec3, lookat: Vec3, vup: Vec3, half_height: i64, half_width: i64) -> (r:
        Option<Camera>)
        requires
            lookfrom.within(SCENE_BOUND as int),
            lookat.within(SCENE_BOUND as int),
            vup.in_range(),
            0 <= half_height <= VIEW_BOUND,
            0 <= half_width <= VIEW_BOUND,
        ensures
            r.is_some() ==> r.unwrap().wf(),
            r.is_some() ==> r.unwrap().origin == lookfrom,
            r.is_some() ==> {
                let c = r.unwrap();
                let w = unit_spec(diff(lookfrom, lookat));
                let u = unit_spec(triple_vec(cross_fixed(unit_spec(vup), w)));
                let v = cross_fixed(w, u);
                let hu = scaled(half_width as int, u);
                let hv = scaled(half_height as int, v);
                &&& as_triple(c.horizontal) == (2 * hu.0, 2 * hu.1, 2 * hu.2)
                &&& as_triple(c.vertical) == (2 * hv.0, 2 * hv.1, 2 * hv.2)
                &&& as_triple(c.lower_left_corner) == (
                    lookfrom.x - hu.0 - hv.0 - w.0,
                    lookfrom.y - hu.1 - hv.1 - w.1,
                    lookfrom.z - hu.2 - hv.2 - w.2,
                )
            },
            r.is_some() <==> {
                let w = unit_spec(diff(lookfrom, lookat));
                let side = cross_fixed(unit_spec(vup), w);
                &&& dot3(as_triple(diff(lookfrom, lookat)), as_triple(diff(lookfrom, lookat))) != 0
                &&& dot3(as_triple(vup), as_triple(vup)) != 0
                &&& dot3(side, side) != 0
            },
    {
        let back = lookfrom.sub(lookat);
        let w = match unit_vector(back) {
            Some(w) => w,
            None => {
                return None;
            },
        };
        let up = match unit_vector(vup) {
            Some(up) => up,
            None => {
                return None;
            },
        };
        let c = cross_unit(up, w);
        let side = Vec3 { x: c.0 as i64, y: c.1 as i64, z: c.2 as i64 };
        assert(as_triple(side) == cross_fixed(unit_spec(vup), unit_spec(diff(lookfrom, lookat))));
        let u = match unit_vector(side) {
            Some(u) => u,
            None => {
                return None;
            },
        };
        let cv = cross_unit(w, u);
        let v = Vec3 { x: cv.0 as i64, y: cv.1 as i64, z: cv.2 as i64 };
        proof {
            assert(as_triple(up) == unit_spec(vup));
            assert(back == diff(lookfrom, lookat));
            assert(as_triple(w) == unit_spec(diff(lookfrom, lookat)));
            assert(side == triple_vec(cross_fixed(unit_spec(vup), as_triple(w))));
            assert(as_triple(u) == unit_spec(side));
            lemma_fmul_scale(half_width as int, u.x as int, VIEW_BOUND as int, 1);
            lemma_fmul_scale(half_width as int, u.y as int, VIEW_BOUND as int, 1);
            lemma_fmul_scale(half_width as int, u.z as int, VIEW_BOUND as int, 1);
            lemma_fmul_scale(half_height as int, v.x as int, VIEW_BOUND as int, 2);
            lemma_fmul_scale(half_height as int, v.y as int, VIEW_BOUND as int, 2);
            lemma_fmul_scale(half_height as int, v.z as int, VIEW_BOUND as int, 2);
        }
        let hx = fixed_mul_wide(half_width as i128, u.x as i128) as i64;
        let hy = fixed_mul_wide(half_width as i128, u.y as i128) as i64;
        let hz = fixed_mul_wide(half_width as i128, u.z as i128) as i64;
        let vx = fixed_mul_wide(half_height as i128, v.x as i128) as i64;
        let vy = fixed_mul_wide(half_height as i128, v.y as i128) as i64;
        let vz = fixed_mul_wide(half_height as i128, v.z as i128) as i64;
        Some(
            Camera {
                origin: lookfrom,
                lower_left_corner: Vec3 {
                    x: lookfrom.x - hx - vx - w.x,
                    y: lookfrom.y - hy - vy - w.y,
                    z: lookfrom.z - hz - vz - w.z,
                },
                horizontal: Vec3 { x: 2 * hx, y: 2 * hy, z: 2 * hz },
                vertical: Vec3 { x: 2 * vx, y: 2 * vy, z: 2 * vz },
            },
        )
    }

    /// The ray from the eye through viewport point `(s, t)`, both fixed-point
    /// in `[0, 2]` (pixel jitter may reach past the far edge).
    pub fn get_ray(&self, s: i64, t: i64) -> (r: Ray)
        requires
            self.wf(),
            0 <= s <= 2 * ONE,
            0 <= t <= 2 * ONE,
        ensures
            r.wf(),
            r.origin == self.origin,
            as_triple(r.direction) == ray_dir_spec(*self, s as int, t as int),
    {
        proof {
            lemma_fmul_scale(s as int, self.horizontal.x as int, 2 * ONE as int, 5000);
            lemma_fmul_scale(s as int, self.horizontal.y as int, 2 * ONE as int, 5000);
            lemma_fmul_scale(s as int, self.horizontal.z as int, 2 * ONE as int, 5000);
            lemma_fmul_scale(t as int, self.vertical.x as int, 2 * ONE as int, 5000);
            lemma_fmul_scale(t as int, self.vertical.y as int, 2 * ONE as int, 5000);
            lemma_fmul_scale(t as int, self.vertical.z as int, 2 * ONE as int, 5000);
        }
        let c = self.lower_left_corner;
        let o = self.origin;
        let dx = (c.x as i128 - o.x as i128) + fixed_mul_wide(s as i128, self.horizontal.x as i128)
            + fixed_mul_wide(t as i128, self.vertical.x as i128);
        let dy = (c.y as i128 - o.y as i128) + fixed_mul_wide(s as i128, self.horizontal.y as i128)
            + fixed_mul_wide(t as i128, self.vertical.y as i128);
        let dz = (c.z as i128 - o.z as i128) + fixed_mul_wide(s as i128, self.horizontal.z as i128)
            + fixed_mul_wide(t as i128, self.vertical.z as i128);
        Ray::new(o, Vec3 { x: dx as i64, y: dy as i64, z: dz as i64 })
    }
}


} // verus!
