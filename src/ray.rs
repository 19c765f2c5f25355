//! Rays: an origin and a direction, evaluated along a parameter.
use vstd::prelude::*;
use crate::vec3::{fmul, in_bound, fixed_mul, Vec3};

verus! {

/// A half-line `origin + t * direction`; the direction need not have unit length.
#[derive(Copy, Clone, Debug)]
pub struct Ray {
    pub origin: Vec3,
    pub direction: Vec3,
}

/// The exact point at parameter `t` (a fixed-point scalar) along `r`.
pub open spec fn point_at_spec(r: Ray, t: int) -> (int, int, int) {
    (
        r.origin.x + fmul(t, r.direction.x as int),
        r.origin.y + fmul(t, r.direction.y as int),
        r.origin.z + fmul(t, r.direction.z as int),
    )
}

pub open spec fn triple_in_range(p: (int, int, int)) -> bool {
    in_bound(p.0) && in_bound(p.1) && in_bound(p.2)
}

/// Every component lies within `k` in magnitude.
pub open spec fn triple_within(p: (int, int, int), k: int) -> bool {
    -k <= p.0 <= k && -k <= p.1 <= k && -k <= p.2 <= k
}

pub open spec fn triple_vec(p: (int, int, int)) -> Vec3 {
    Vec3 { x: p.0 as i64, y: p.1 as i64, z: p.2 as i64 }
}

impl Ray {
    /// Origin and direction are both in range.
    pub open spec fn wf(self) -> bool {
        self.origin.in_range() && self.direction.in_range()
    }

    pub fn new(origin: Vec3, direction: Vec3) -> (r: Ray)
        ensures
            r.origin == origin,
            r.direction == direction,
    {
        Ray { origin, direction }
    }

    pub fn origin(&self) -> (r: Vec3)
        ensures
            r == self.origin,
    {
        self.origin
    }

    pub fn direction(&self) -> (r: Vec3)
        ensures
            r == self.direction,
    {
        self.direction
    }

    /// The point `origin + t * direction`, or `None` where it leaves the range.
    pub fn point_at_parameter(&self, t: i64) -> (r: Option<Vec3>)
        requires
            self.wf(),
        ensures
            r.is_some() <==> triple_in_range(point_at_spec(*self, t as int)),
            r.is_some() ==> r.unwrap() == triple_vec(point_at_spec(*self, t as int)),
    {
        let dx = fixed_mul(t, self.direction.x);
        let dy = fixed_mul(t, self.direction.y);
        let dz = fixed_mul(t, self.direction.z);
        proof {
            let tt = t as int;
            assert(-0x8000000000000000000000000 <= tt * (self.direction.x as int)
                <= 0x8000000000000000000000000) by (nonlinear_arith)
                requires
                    -0x8000000000000000 <= tt <= 0x8000000000000000,
                    in_bound(self.direction.x as int),
            ;
            assert(-0x8000000000000000000000000 <= tt * (self.direction.y as int)
                <= 0x8000000000000000000000000) by (nonlinear_arith)
                requires
                    -0x8000000000000000 <= tt <= 0x8000000000000000,
                    in_bound(self.direction.y as int),
            ;
            assert(-0x8000000000000000000000000 <= tt * (self.direction.z as int)
                <= 0x8000000000000000000000000) by (nonlinear_arith)
                requires
                    -0x8000000000000000 <= tt <= 0x8000000000000000,
                    in_bound(self.direction.z as int),
            ;
        }
        Vec3::from_wide(
            self.origin.x as i128 + dx,
            self.origin.y as i128 + dy,
            self.origin.z as i128 + dz,
        )
    }
}

} // verus!
