//! The record of a ray hitting a surface, and the capability to be hit.
use vstd::prelude::*;
use crate::material::Material;
use crate::ray::Ray;
use crate::vec3::Vec3;

verus! {

/// Where a ray met a surface: the parameter, the point, the outward normal and
/// the material there.
#[derive(Copy, Clone, Debug)]
pub struct HitRecord {
    pub t: i64,
    pub p: Vec3,
    pub normal: Vec3,
    pub material: Material,
}

impl HitRecord {
    /// An empty record, to be filled by a successful hit.
    pub fn new() -> (r: HitRecord)
        ensures
            r.t == 0,
            r.p == (Vec3 { x: 0, y: 0, z: 0 }),
            r.normal == (Vec3 { x: 0, y: 0, z: 0 }),
            r.material == (Material::Lambertian { albedo: Vec3 { x: 0, y: 0, z: 0 } }),
    {
        let zero = Vec3::new(0, 0, 0);
        HitRecord { t: 0, p: zero, normal: zero, material: Material::Lambertian { albedo: zero } }
    }
}

/// Something a ray can hit.
pub trait Hitable {
    /// The object is well formed.
    spec fn wf(&self) -> bool;

    /// The nearest hit of `r` with a parameter strictly between `t_min` and `t_max`.
    spec fn hit_spec(&self, r: Ray, t_min: i64, t_max: i64) -> Option<HitRecord>;

    /// Fills `rec` with the nearest hit strictly inside `(t_min, t_max)` and
    /// returns whether there was one; `rec` is left alone otherwise.
    fn hit(&self, r: Ray, t_min: i64, t_max: i64, rec: &mut HitRecord) -> (res: bool)
        requires
            self.wf(),
            r.wf(),
        ensures
            res == self.hit_spec(r, t_min, t_max).is_some(),
            res ==> *final(rec) == self.hit_spec(r, t_min, t_max).unwrap(),
            !res ==> *final(rec) == *old(rec),
            res ==> t_min < final(rec).t < t_max,
    ;
}

} // verus!
