//! Spheres, hit by solving a quadratic in the ray parameter.
use vstd::prelude::*;
use crate::hitable::{HitRecord, Hitable};
use crate::material::Material;
use crate::ray::{point_at_spec, triple_in_range, triple_vec, triple_within, Ray};
use crate::vec3::{
    div_floor, fdiv, floor_sqrt, is_floor_sqrt, isqrt, lemma_floor_sqrt_exists, Vec3, LIMIT, ONE,
};

verus! {

/// A sphere with its own material.
#[derive(Copy, Clone, Debug)]
pub struct Sphere {
    pub center: Vec3,
    pub radius: i64,
    pub material: Material,
}

pub open spec fn dot3(a: (int, int, int), b: (int, int, int)) -> int {
    a.0 * b.0 + a.1 * b.1 + a.2 * b.2
}

pub open spec fn as_triple(v: Vec3) -> (int, int, int) {
    (v.x as int, v.y as int, v.z as int)
}

/// `origin - center`.
pub open spec fn offset(s: Sphere, r: Ray) -> (int, int, int) {
    (
        r.origin.x - s.center.x,
        r.origin.y - s.center.y,
        r.origin.z - s.center.z,
    )
}

/// Coefficient of `t^2`: the squared length of the direction.
pub open spec fn quad_a(s: Sphere, r: Ray) -> int {
    dot3(as_triple(r.direction), as_triple(r.direction))
}

/// Half the coefficient of `t`.
pub open spec fn quad_half_b(s: Sphere, r: Ray) -> int {
    dot3(offset(s, r), as_triple(r.direction))
}

/// The constant coefficient.
pub open spec fn quad_c(s: Sphere, r: Ray) -> int {
    dot3(offset(s, r), offset(s, r)) - s.radius * s.radius
}

/// A quarter of the discriminant `b^2 - 4ac`.
pub open spec fn discriminant(s: Sphere, r: Ray) -> int {
    quad_half_b(s, r) * quad_half_b(s, r) - quad_a(s, r) * quad_c(s, r)
}

/// The smaller root, as a fixed-point parameter rounded down.
pub open spec fn near_root(s: Sphere, r: Ray) -> int {
    fdiv((-quad_half_b(s, r) - floor_sqrt(discriminant(s, r))) * ONE, quad_a(s, r))
}

/// The larger root, as a fixed-point parameter rounded down.
pub open spec fn far_root(s: Sphere, r: Ray) -> int {
    fdiv((-quad_half_b(s, r) + floor_sqrt(discriminant(s, r))) * ONE, quad_a(s, r))
}

/// The outward unit normal at `p`: `(p - center) / radius`.
pub open spec fn normal_at(s: Sphere, p: (int, int, int)) -> (int, int, int) {
    (
        fdiv((p.0 - s.center.x) * ONE, s.radius as int),
        fdiv((p.1 - s.center.y) * ONE, s.radius as int),
        fdiv((p.2 - s.center.z) * ONE, s.radius as int),
    )
}

/// A root is taken when it lies strictly inside the interval, its point is in
/// range and its normal, a unit vector up to rounding, has no component beyond 2.
pub open spec fn accepts(s: Sphere, r: Ray, t: int, t_min: int, t_max: int) -> bool {
    t_min < t < t_max && triple_in_range(point_at_spec(r, t)) && triple_within(
        normal_at(s, point_at_spec(r, t)),
        2 * ONE,
    )
}

/// The parameter of the nearest accepted root, if any.
pub open spec fn sphere_hit_t(s: Sphere, r: Ray, t_min: int, t_max: int) -> Option<int> {
    if quad_a(s, r) <= 0 || discriminant(s, r) < 0 {
        None
    } else if accepts(s, r, near_root(s, r), t_min, t_max) {
        Some(near_root(s, r))
    } else if accepts(s, r, far_root(s, r), t_min, t_max) {
        Some(far_root(s, r))
    } else {
        None
    }
}

/// The record of a hit at parameter `t`.
pub open spec fn record_at(s: Sphere, r: Ray, t: int) -> HitRecord {
    HitRecord {
        t: t as i64,
        p: triple_vec(point_at_spec(r, t)),
        normal: triple_vec(normal_at(s, point_at_spec(r, t))),
        material: s.material,
    }
}

pub proof fn lemma_mul_bound(a: int, b: int, m: int, n: int)
    requires
        -m <= a <= m,
        -n <= b <= n,
    ensures
        -(m * n) <= a * b <= m * n,
{
    assert(-(m * n) <= a * b <= m * n) by (nonlinear_arith)
        requires
            -m <= a <= m,
            -n <= b <= n,
    ;
}

/// Exact dot product of two wide triples with components within `2^29`.
fn dot_wide(a: (i128, i128, i128), b: (i128, i128, i128)) -> (r: i128)
    requires
        -0x20000000 <= a.0 <= 0x20000000,
        -0x20000000 <= a.1 <= 0x20000000,
        -0x20000000 <= a.2 <= 0x20000000,
        -0x20000000 <= b.0 <= 0x20000000,
        -0x20000000 <= b.1 <= 0x20000000,
        -0x20000000 <= b.2 <= 0x20000000,
    ensures
        r == dot3((a.0 as int, a.1 as int, a.2 as int), (b.0 as int, b.1 as int, b.2 as int)),
        -0x1000000000000000 <= r <= 0x1000000000000000,
{
    proof {
        lemma_mul_bound(a.0 as int, b.0 as int, 0x20000000, 0x20000000);
        lemma_mul_bound(a.1 as int, b.1 as int, 0x20000000, 0x20000000);
        lemma_mul_bound(a.2 as int, b.2 as int, 0x20000000, 0x20000000);
    }
    a.0 * b.0 + a.1 * b.1 + a.2 * b.2
}

/// A sphere that does not hold the ray's origin (`c > 0`) and whose center
/// does not lie ahead along the ray (`b >= 0`) has both roots at negative
/// parameters, so it is never hit on an interval that starts at zero or later.
pub proof fn lemma_sphere_behind_misses(s: Sphere, r: Ray, t_min: int, t_max: int)
    requires
        s.wf(),
        r.wf(),
        quad_c(s, r) > 0,
        quad_half_b(s, r) >= 0,
        t_min >= 0,
    ensures
        sphere_hit_t(s, r, t_min, t_max).is_none(),
{
    let a = quad_a(s, r);
    let hb = quad_half_b(s, r);
    let c = quad_c(s, r);
    let disc = discriminant(s, r);
    if a > 0 && disc >= 0 {
        lemma_floor_sqrt_exists(disc);
        let sq = floor_sqrt(disc);
        assert(is_floor_sqrt(disc, sq));
        assert(a * c > 0) by (nonlinear_arith)
            requires
                a > 0,
                c > 0,
        ;
        assert(sq < hb) by (nonlinear_arith)
            requires
                0 <= sq,
                sq * sq <= disc,
                disc == hb * hb - a * c,
                a * c > 0,
                hb >= 0,
        ;
        let n1 = (-hb - sq) * ONE;
        let n2 = (-hb + sq) * ONE;
        assert(n1 < 0 && n2 < 0);
        assert(n1 / a < 0) by (nonlinear_arith)
            requires
                n1 < 0,
                a > 0,
        ;
        assert(n2 / a < 0) by (nonlinear_arith)
            requires
                n2 < 0,
                a > 0,
        ;
    }
}

/// Shrinking the upper end of the interval keeps a hit that still lies inside it.
pub proof fn lemma_sphere_hit_shrink(s: Sphere, r: Ray, t_min: int, t_max: int, t_max2: int)
    requires
        sphere_hit_t(s, r, t_min, t_max).is_some(),
        sphere_hit_t(s, r, t_min, t_max).unwrap() < t_max2 <= t_max,
    ensures
        sphere_hit_t(s, r, t_min, t_max2) == sphere_hit_t(s, r, t_min, t_max),
{
}

/// A hit lies strictly inside the interval.
pub proof fn lemma_sphere_hit_inside(s: Sphere, r: Ray, t_min: int, t_max: int)
    requires
        sphere_hit_t(s, r, t_min, t_max).is_some(),
    ensures
        t_min < sphere_hit_t(s, r, t_min, t_max).unwrap() < t_max,
{
}

impl Sphere {
    /// The center is in range, the radius positive and in range, the material well formed.
    pub open spec fn wf(self) -> bool {
        self.center.in_range() && 0 < self.radius <= LIMIT && self.material.wf()
    }

    pub fn new(center: Vec3, radius: i64, material: Material) -> (s: Sphere)
        ensures
            s.center == center,
            s.radius == radius,
            s.material == material,
    {
        Sphere { center, radius, material }
    }

    /// Takes the root `t` when `accepts` holds of it, filling `rec`.
    fn try_root(&self, r: Ray, t: i128, t_min: i64, t_max: i64, rec: &mut HitRecord) -> (res:
        bool)
        requires
            self.wf(),
            r.wf(),
        ensures
            res == accepts(*self, r, t as int, t_min as int, t_max as int),
            res ==> *final(rec) == record_at(*self, r, t as int),
            !res ==> *final(rec) == *old(rec),
    {
        if !((t_min as i128) < t && t < (t_max as i128)) {
            return false;
        }
        let t64 = t as i64;
        match r.point_at_parameter(t64) {
            None => false,
            Some(p) => {
                assert(p.in_range());
                let rad = self.radius as i128;
                proof {
                    lemma_mul_bound(p.x - self.center.x, ONE as int, 0x20000000, 10000);
                    lemma_mul_bound(p.y - self.center.y, ONE as int, 0x20000000, 10000);
                    lemma_mul_bound(p.z - self.center.z, ONE as int, 0x20000000, 10000);
                }
                let nx = div_floor((p.x as i128 - self.center.x as i128) * (ONE as i128), rad);
                let ny = div_floor((p.y as i128 - self.center.y as i128) * (ONE as i128), rad);
                let nz = div_floor((p.z as i128 - self.center.z as i128) * (ONE as i128), rad);
                let lim = 2 * ONE as i128;
                if -lim <= nx && nx <= lim && -lim <= ny && ny <= lim && -lim <= nz && nz <= lim {
                    let n = Vec3 { x: nx as i64, y: ny as i64, z: nz as i64 };
                    *rec = HitRecord { t: t64, p, normal: n, material: self.material };
                    true
                } else {
                    false
                }
            },
        }
    }
}

impl Hitable for Sphere {
    open spec fn wf(&self) -> bool {
        Sphere::wf(*self)
    }

    open spec fn hit_spec(&self, r: Ray, t_min: i64, t_max: i64) -> Option<HitRecord> {
        match sphere_hit_t(*self, r, t_min as int, t_max as int) {
            Some(t) => Some(record_at(*self, r, t)),
            None => None,
        }
    }

    fn hit(&self, r: Ray, t_min: i64, t_max: i64, rec: &mut HitRecord) -> (res: bool) {
        let d = (r.direction.x as i128, r.direction.y as i128, r.direction.z as i128);
        let oc = (
            r.origin.x as i128 - self.center.x as i128,
            r.origin.y as i128 - self.center.y as i128,
            r.origin.z as i128 - self.center.z as i128,
        );
        let a = dot_wide(d, d);
        let hb = dot_wide(oc, d);
        let rad = self.radius as i128;
        proof {
            assert(dot3(as_triple(r.direction), as_triple(r.direction)) >= 0) by (nonlinear_arith);
            let o = offset(*self, r);
            assert(dot3(o, o) >= 0) by (nonlinear_arith);
            lemma_mul_bound(rad as int, rad as int, 0x10000000, 0x10000000);
        }
        let c = dot_wide(oc, oc) - rad * rad;
        if a <= 0 {
            return false;
        }
        proof {
            lemma_mul_bound(hb as int, hb as int, 0x1000000000000000, 0x1000000000000000);
            lemma_mul_bound(a as int, c as int, 0x1000000000000000, 0x1000000000000000);
        }
        let disc = hb * hb - a * c;
        if disc < 0 {
            return false;
        }
        let sq = isqrt(disc);
        proof {
            lemma_mul_bound(-hb - sq, ONE as int, 0x4000000000000000, 10000);
            lemma_mul_bound(-hb + sq, ONE as int, 0x4000000000000000, 10000);
        }
        let t1 = div_floor((-hb - sq) * (ONE as i128), a);
        if self.try_root(r, t1, t_min, t_max, rec) {
            return true;
        }
        let t2 = div_floor((-hb + sq) * (ONE as i128), a);
        self.try_root(r, t2, t_min, t_max, rec)
    }
}

} // verus!
