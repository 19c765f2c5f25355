//! Materials: how a surface scatters an incoming ray.
use vstd::prelude::*;
use crate::hitable::HitRecord;
use crate::ray::{triple_in_range, triple_vec, Ray};
use crate::sphere::{as_triple, dot3, lemma_mul_bound};
use crate::vec3::{
    div_floor, fdiv, fixed_mul_wide, floor_sqrt, fmul, is_floor_sqrt, isqrt, lemma_floor_sqrt_exists,
    lemma_fmul_bound, Vec3, ONE,
};

verus! {

/// The three surface models; colors are fixed-point with `ONE` as full intensity.
#[derive(Copy, Clone, Debug, PartialEq, Eq, Structural)]
pub enum Material {
    /// Diffuse surface with the given albedo.
    Lambertian { albedo: Vec3 },
    /// Mirror with the given albedo and fuzziness.
    Metal { albedo: Vec3, fuzz: i64 },
    /// Glass with a refractive index, a tint and a fuzziness.
    Dielectric { ref_idx: i64, tint: Vec3, fuzz: i64 },
}

/// A color with every channel in `[0, ONE]`.
pub open spec fn is_color(c: Vec3) -> bool {
    0 <= c.x <= ONE && 0 <= c.y <= ONE && 0 <= c.z <= ONE
}

/// The unit vector along `v`, each component rounded down.
pub open spec fn unit_spec(v: Vec3) -> (int, int, int) {
    let l = floor_sqrt(dot3(as_triple(v), as_triple(v)));
    (fdiv(v.x * ONE, l), fdiv(v.y * ONE, l), fdiv(v.z * ONE, l))
}

/// `v - 2 (v . n) n`.
pub open spec fn reflect_spec(v: (int, int, int), n: (int, int, int)) -> (int, int, int) {
    let d = fdiv(dot3(v, n), ONE as int);
    (v.0 - 2 * fmul(d, n.0), v.1 - 2 * fmul(d, n.1), v.2 - 2 * fmul(d, n.2))
}

/// `v + fuzz * rnd`.
pub open spec fn jitter_spec(v: (int, int, int), fuzz: int, rnd: Vec3) -> (int, int, int) {
    (v.0 + fmul(fuzz, rnd.x as int), v.1 + fmul(fuzz, rnd.y as int), v.2 + fmul(fuzz, rnd.z as int))
}

/// `1 - ratio^2 (1 - (u . n)^2)`: positive exactly when Snell's law has a solution.
pub open spec fn refract_k(u: (int, int, int), n: (int, int, int), ratio: int) -> int {
    let dt = fdiv(dot3(u, n), ONE as int);
    ONE - fmul(fmul(ratio, ratio), ONE - fmul(dt, dt))
}

/// `ratio (u - (u . n) n) - n sqrt(k)`.
pub open spec fn refract_spec(u: (int, int, int), n: (int, int, int), ratio: int, k: int) -> (
    int,
    int,
    int,
) {
    let dt = fdiv(dot3(u, n), ONE as int);
    let s = floor_sqrt(k * ONE);
    (
        fmul(ratio, u.0 - fmul(dt, n.0)) - fmul(n.0, s),
        fmul(ratio, u.1 - fmul(dt, n.1)) - fmul(n.1, s),
        fmul(ratio, u.2 - fmul(dt, n.2)) - fmul(n.2, s),
    )
}

/// Schlick's reflectance `r0 + (1 - r0) x^5` with `x = 1 - cosine` kept in `[0, 1]`.
pub open spec fn schlick(cosine: int, ref_idx: int) -> int {
    let r = fdiv((ONE - ref_idx) * ONE, ONE + ref_idx);
    let r0 = fmul(r, r);
    let x = if cosine >= ONE {
        0
    } else if cosine <= 0 {
        ONE as int
    } else {
        ONE - cosine
    };
    r0 + fmul(ONE - r0, fmul(x, fmul(x, fmul(x, fmul(x, x)))))
}

pub open spec fn neg_triple(v: (int, int, int)) -> (int, int, int) {
    (-v.0, -v.1, -v.2)
}

/// A scattered ray from `origin` along `dir`, when `dir` is representable.
pub open spec fn scattered(att: Vec3, origin: Vec3, dir: (int, int, int)) -> Option<(Vec3, Ray)> {
    if triple_in_range(dir) {
        Some((att, Ray { origin, direction: triple_vec(dir) }))
    } else {
        None
    }
}

/// What `scatter` returns, given the random unit vector `rnd` and the uniform
/// fraction `p` drawn for it.
pub open spec fn scatter_spec(m: Material, r_in: Ray, rec: HitRecord, rnd: Vec3, p: int) -> Option<
    (Vec3, Ray),
> {
    let n = as_triple(rec.normal);
    let d = r_in.direction;
    match m {
        Material::Lambertian { albedo } => scattered(
            albedo,
            rec.p,
            (n.0 + rnd.x, n.1 + rnd.y, n.2 + rnd.z),
        ),
        Material::Metal { albedo, fuzz } => {
            if dot3(as_triple(d), as_triple(d)) == 0 {
                None
            } else {
                let dir = jitter_spec(reflect_spec(unit_spec(d), n), fuzz as int, rnd);
                if dot3(dir, n) > 0 {
                    scattered(albedo, rec.p, dir)
                } else {
                    None
                }
            }
        },
        Material::Dielectric { ref_idx, tint, fuzz } => {
            if dot3(as_triple(d), as_triple(d)) == 0 {
                None
            } else {
                let u = unit_spec(d);
                let dn = fdiv(dot3(u, n), ONE as int);
                let exiting = dot3(as_triple(d), n) > 0;
                let out_n = if exiting {
                    neg_triple(n)
                } else {
                    n
                };
                let ratio = if exiting {
                    ref_idx as int
                } else {
                    fdiv(ONE * ONE, ref_idx as int)
                };
                let cosine = if exiting {
                    fmul(ref_idx as int, dn)
                } else {
                    -dn
                };
                let k = refract_k(u, out_n, ratio);
                if k > 0 && p >= schlick(cosine, ref_idx as int) {
                    scattered(tint, rec.p, refract_spec(u, out_n, ratio, k))
                } else {
                    scattered(tint, rec.p, jitter_spec(reflect_spec(u, n), fuzz as int, rnd))
                }
            }
        },
    }
}

proof fn lemma_component_le_root(c: int, d: int, l: int)
    requires
        c * c <= d,
        is_floor_sqrt(d, l),
    ensures
        -l <= c <= l,
{
    assert(-l <= c <= l) by (nonlinear_arith)
        requires
            c * c <= d,
            d < (l + 1) * (l + 1),
            l >= 0,
    ;
}

proof fn lemma_unit_component(c: int, l: int)
    requires
        -l <= c <= l,
        l >= 1,
    ensures
        -ONE <= fdiv(c * ONE, l) <= ONE,
{
    assert(-10000 <= (c * 10000) / l <= 10000) by (nonlinear_arith)
        requires
            -l <= c <= l,
            l >= 1,
    ;
}

/// Fixed-point products of unit scalars stay unit scalars, and keep their sign.
pub proof fn lemma_fmul_unit(a: int, b: int)
    requires
        -ONE <= a <= ONE,
        -ONE <= b <= ONE,
    ensures
        -ONE <= fmul(a, b) <= ONE,
        a >= 0 && b >= 0 ==> fmul(a, b) >= 0,
        a == b ==> fmul(a, b) >= 0,
{
    assert(-10000 * 10000 <= a * b <= 10000 * 10000) by (nonlinear_arith)
        requires
            -10000 <= a <= 10000,
            -10000 <= b <= 10000,
    ;
    assert(a >= 0 && b >= 0 ==> a * b >= 0) by (nonlinear_arith);
    assert(a == b ==> a * b >= 0) by (nonlinear_arith);
    let p = a * b;
    assert(-10000 <= p / 10000 <= 10000 && (p >= 0 ==> p / 10000 >= 0)) by (nonlinear_arith)
        requires
            -10000 * 10000 <= p <= 10000 * 10000,
    ;
}

proof fn lemma_unit_component_square(c: int, l: int)
    requires
        l >= 1,
        -l <= c <= l,
    ensures
        ({
            let p = l * fdiv(c * ONE, l);
            &&& 100000000 * (c * c) - 20000 * (l * l) <= p * p
            &&& p * p <= 100000000 * (c * c) + 20000 * (l * l) + l * l
        }),
{
    let a = c * 10000;
    let q = a / l;
    let e = a % l;
    assert(l * q + e == a && 0 <= e < l) by (nonlinear_arith)
        requires
            l >= 1,
            q == a / l,
            e == a % l,
    ;
    assert((l * q) * (l * q) == a * a - 2 * a * e + e * e) by (nonlinear_arith)
        requires
            l * q + e == a,
    ;
    assert(-(l * l) <= c * e <= l * l) by (nonlinear_arith)
        requires
            -l <= c <= l,
            0 <= e < l,
    ;
    assert(e * e <= l * l) by (nonlinear_arith)
        requires
            0 <= e < l,
    ;
    let p = l * q;
    assert(100000000 * (c * c) - 20000 * (l * l) <= p * p <= 100000000 * (c * c) + 20000 * (l
        * l) + l * l) by (nonlinear_arith)
        requires
            p * p == a * a - 2 * a * e + e * e,
            a == c * 10000,
            -(l * l) <= c * e <= l * l,
            0 <= e * e <= l * l,
    ;
}

/// Normalizing a vector no shorter than 0.1 gives a squared length within
/// 3% below and 1% above `ONE * ONE`.
pub proof fn lemma_unit_length(v: Vec3)
    requires
        v.in_range(),
        1000000 <= dot3(as_triple(v), as_triple(v)),
    ensures
        97 * ONE * ONE <= 100 * dot3(unit_spec(v), unit_spec(v)) <= 101 * ONE * ONE,
{
    let (x, y, z) = (v.x as int, v.y as int, v.z as int);
    let d = dot3(as_triple(v), as_triple(v));
    assert(x * x >= 0 && y * y >= 0 && z * z >= 0) by (nonlinear_arith);
    lemma_floor_sqrt_exists(d);
    let l = floor_sqrt(d);
    assert(is_floor_sqrt(d, l));
    lemma_component_le_root(x, d, l);
    lemma_component_le_root(y, d, l);
    lemma_component_le_root(z, d, l);
    assert(l >= 1000) by (nonlinear_arith)
        requires
            1000000 <= d,
            d < (l + 1) * (l + 1),
            l >= 0,
    ;
    lemma_unit_component_square(x, l);
    lemma_unit_component_square(y, l);
    lemma_unit_component_square(z, l);
    let u = unit_spec(v);
    let n2 = dot3(u, u);
    let ll = l * l;
    let (p0, p1, p2) = (l * u.0, l * u.1, l * u.2);
    let (a0, a1, a2) = (u.0, u.1, u.2);
    assert(p0 * p0 == ll * (a0 * a0)) by (nonlinear_arith)
        requires
            p0 == l * a0,
            ll == l * l,
    ;
    assert(p1 * p1 == ll * (a1 * a1)) by (nonlinear_arith)
        requires
            p1 == l * a1,
            ll == l * l,
    ;
    assert(p2 * p2 == ll * (a2 * a2)) by (nonlinear_arith)
        requires
            p2 == l * a2,
            ll == l * l,
    ;
    let (b0, b1, b2) = (a0 * a0, a1 * a1, a2 * a2);
    assert(n2 == b0 + b1 + b2);
    assert(ll * (b0 + b1 + b2) == ll * b0 + ll * b1 + ll * b2) by (nonlinear_arith);
    assert(ll * n2 == p0 * p0 + p1 * p1 + p2 * p2);
    assert(100000000 * d - 60000 * ll <= ll * n2 <= 100000000 * d + 60000 * ll + 3 * ll);
    assert(97 * 10000 * 10000 <= 100 * n2) by (nonlinear_arith)
        requires
            100000000 * d - 60000 * ll <= ll * n2,
            ll <= d,
            ll == l * l,
            l >= 1000,
    ;
    assert(100 * n2 <= 101 * 10000 * 10000) by (nonlinear_arith)
        requires
            ll * n2 <= 100000000 * d + 60000 * ll + 3 * ll,
            d < (l + 1) * (l + 1),
            ll == l * l,
            l >= 1000,
    ;
}

/// The unit vector along `v`, or `None` for the zero vector.
pub fn unit_vector(v: Vec3) -> (r: Option<Vec3>)
    requires
        v.in_range(),
    ensures
        r.is_some() <==> dot3(as_triple(v), as_triple(v)) != 0,
        r.is_some() ==> r.unwrap() == triple_vec(unit_spec(v)),
        r.is_some() ==> r.unwrap().within(ONE as int),
        r.is_some() ==> -ONE <= unit_spec(v).0 <= ONE && -ONE <= unit_spec(v).1 <= ONE && -ONE
            <= unit_spec(v).2 <= ONE,
{
    let d = v.squared_length();
    if d == 0 {
        return None;
    }
    let l = isqrt(d);
    proof {
        let (x, y, z) = (v.x as int, v.y as int, v.z as int);
        assert(x * x >= 0 && y * y >= 0 && z * z >= 0) by (nonlinear_arith);
        lemma_floor_sqrt_exists(d as int);
        assert(is_floor_sqrt(d as int, l as int));
        lemma_component_le_root(x, d as int, l as int);
        lemma_component_le_root(y, d as int, l as int);
        lemma_component_le_root(z, d as int, l as int);
        assert(l >= 1) by (nonlinear_arith)
            requires
                d >= 1,
                d < (l + 1) * (l + 1),
                l >= 0,
        ;
        lemma_unit_component(x, l as int);
        lemma_unit_component(y, l as int);
        lemma_unit_component(z, l as int);
    }
    let x = div_floor(v.x as i128 * 10000, l);
    let y = div_floor(v.y as i128 * 10000, l);
    let z = div_floor(v.z as i128 * 10000, l);
    Some(Vec3 { x: x as i64, y: y as i64, z: z as i64 })
}

pub open spec fn tri_within(a: (i128, i128, i128), k: int) -> bool {
    -k <= a.0 <= k && -k <= a.1 <= k && -k <= a.2 <= k
}

pub open spec fn tri_int(a: (i128, i128, i128)) -> (int, int, int) {
    (a.0 as int, a.1 as int, a.2 as int)
}

fn wide(v: Vec3) -> (r: (i128, i128, i128))
    ensures
        tri_int(r) == as_triple(v),
{
    (v.x as i128, v.y as i128, v.z as i128)
}

/// Exact dot product of two wide triples with components within `2^50`.
fn dot_tri(a: (i128, i128, i128), b: (i128, i128, i128)) -> (r: i128)
    requires
        tri_within(a, 0x4000000000000),
        tri_within(b, 0x4000000000000),
    ensures
        r == dot3(tri_int(a), tri_int(b)),
{
    proof {
        lemma_mul_bound(a.0 as int, b.0 as int, 0x4000000000000, 0x4000000000000);
        lemma_mul_bound(a.1 as int, b.1 as int, 0x4000000000000, 0x4000000000000);
        lemma_mul_bound(a.2 as int, b.2 as int, 0x4000000000000, 0x4000000000000);
    }
    a.0 * b.0 + a.1 * b.1 + a.2 * b.2
}

/// Mirror reflection of the unit vector `v` about the normal `n`.
fn reflect(v: Vec3, n: Vec3) -> (r: (i128, i128, i128))
    requires
        v.within(ONE as int),
        n.within(2 * ONE),
    ensures
        tri_int(r) == reflect_spec(as_triple(v), as_triple(n)),
        tri_within(r, 0x10000000000),
{
    let wv = wide(v);
    let wn = wide(n);
    let dt = dot_tri(wv, wn);
    proof {
        assert(dt == dot3(as_triple(v), as_triple(n)));
        lemma_mul_bound(v.x as int, n.x as int, 10000, 20000);
        lemma_mul_bound(v.y as int, n.y as int, 10000, 20000);
        lemma_mul_bound(v.z as int, n.z as int, 10000, 20000);
        let dd = dt as int;
        assert(-70000 <= dd / 10000 <= 70000) by (nonlinear_arith)
            requires
                -600000000 <= dd <= 600000000,
        ;
    }
    let d = div_floor(dt, 10000);
    proof {
        lemma_fmul_bound(d as int, n.x as int, 70000, 20000);
        lemma_fmul_bound(d as int, n.y as int, 70000, 20000);
        lemma_fmul_bound(d as int, n.z as int, 70000, 20000);
    }
    (
        v.x as i128 - 2 * fixed_mul_wide(d, n.x as i128),
        v.y as i128 - 2 * fixed_mul_wide(d, n.y as i128),
        v.z as i128 - 2 * fixed_mul_wide(d, n.z as i128),
    )
}

/// Adds `fuzz * rnd` to `v`.
fn jitter(v: (i128, i128, i128), fuzz: i64, rnd: Vec3) -> (r: (i128, i128, i128))
    requires
        tri_within(v, 0x10000000000),
        0 <= fuzz <= ONE,
        rnd.within(ONE as int),
    ensures
        tri_int(r) == jitter_spec(tri_int(v), fuzz as int, rnd),
        tri_within(r, 0x20000000000),
{
    proof {
        lemma_fmul_unit(fuzz as int, rnd.x as int);
        lemma_fmul_unit(fuzz as int, rnd.y as int);
        lemma_fmul_unit(fuzz as int, rnd.z as int);
    }
    (
        v.0 + fixed_mul_wide(fuzz as i128, rnd.x as i128),
        v.1 + fixed_mul_wide(fuzz as i128, rnd.y as i128),
        v.2 + fixed_mul_wide(fuzz as i128, rnd.z as i128),
    )
}

/// A scattered ray, or `None` where the direction is not representable.
fn make_scattered(att: Vec3, origin: Vec3, dir: (i128, i128, i128)) -> (r: Option<(Vec3, Ray)>)
    ensures
        r == scattered(att, origin, tri_int(dir)),
{
    match Vec3::from_wide(dir.0, dir.1, dir.2) {
        Some(d) => Some((att, Ray::new(origin, d))),
        None => None,
    }
}

/// `fdiv(u . n, ONE)` for a unit `u` and a normal `n`.
fn cos_fixed(u: Vec3, n: Vec3) -> (r: i128)
    requires
        u.within(ONE as int),
        n.within(2 * ONE),
    ensures
        r == fdiv(dot3(as_triple(u), as_triple(n)), ONE as int),
        -70000 <= r <= 70000,
{
    let dt = dot_tri(wide(u), wide(n));
    proof {
        lemma_mul_bound(u.x as int, n.x as int, 10000, 20000);
        lemma_mul_bound(u.y as int, n.y as int, 10000, 20000);
        lemma_mul_bound(u.z as int, n.z as int, 10000, 20000);
        let dd = dt as int;
        assert(-70000 <= dd / 10000 <= 70000) by (nonlinear_arith)
            requires
                -600000000 <= dd <= 600000000,
        ;
    }
    div_floor(dt, 10000)
}

/// Computes `refract_k`.
fn refract_k_exec(u: Vec3, n: Vec3, ratio: i128) -> (r: i128)
    requires
        u.within(ONE as int),
        n.within(2 * ONE),
        0 <= ratio <= 16 * ONE,
    ensures
        r == refract_k(as_triple(u), as_triple(n), ratio as int),
        r <= 0x100000000000000000000,
{
    let dt = cos_fixed(u, n);
    proof {
        lemma_fmul_bound(ratio as int, ratio as int, 160000, 160000);
        lemma_fmul_bound(dt as int, dt as int, 70000, 70000);
    }
    let rr = fixed_mul_wide(ratio, ratio);
    let e = ONE as i128 - fixed_mul_wide(dt, dt);
    proof {
        lemma_fmul_bound(rr as int, e as int, 25600000001int, 4900010001int);
    }
    ONE as i128 - fixed_mul_wide(rr, e)
}

/// Computes `refract_spec` for a positive `k`.
fn refract(u: Vec3, n: Vec3, ratio: i128, k: i128) -> (r: (i128, i128, i128))
    requires
        u.within(ONE as int),
        n.within(2 * ONE),
        0 <= ratio <= 16 * ONE,
        0 < k <= 0x100000000000000000000,
    ensures
        tri_int(r) == refract_spec(as_triple(u), as_triple(n), ratio as int, k as int),
{
    let dt = cos_fixed(u, n);
    proof {
        lemma_mul_bound(k as int, 10000, 0x100000000000000000000, 10000);
    }
    let s = isqrt(k * 10000);
    proof {
        lemma_fmul_bound(dt as int, n.x as int, 70000, 20000);
        lemma_fmul_bound(dt as int, n.y as int, 70000, 20000);
        lemma_fmul_bound(dt as int, n.z as int, 70000, 20000);
        lemma_fmul_bound(n.x as int, s as int, 20000, 0x2000000000000000);
        lemma_fmul_bound(n.y as int, s as int, 20000, 0x2000000000000000);
        lemma_fmul_bound(n.z as int, s as int, 20000, 0x2000000000000000);
    }
    let px = u.x as i128 - fixed_mul_wide(dt, n.x as i128);
    let py = u.y as i128 - fixed_mul_wide(dt, n.y as i128);
    let pz = u.z as i128 - fixed_mul_wide(dt, n.z as i128);
    proof {
        lemma_fmul_bound(ratio as int, px as int, 160000, 1500000000);
        lemma_fmul_bound(ratio as int, py as int, 160000, 1500000000);
        lemma_fmul_bound(ratio as int, pz as int, 160000, 1500000000);
    }
    (
        fixed_mul_wide(ratio, px) - fixed_mul_wide(n.x as i128, s),
        fixed_mul_wide(ratio, py) - fixed_mul_wide(n.y as i128, s),
        fixed_mul_wide(ratio, pz) - fixed_mul_wide(n.z as i128, s),
    )
}

/// Computes `schlick`.
fn schlick_exec(cosine: i128, ref_idx: i64) -> (r: i128)
    requires
        ONE / 16 <= ref_idx <= 16 * ONE,
    ensures
        r == schlick(cosine as int, ref_idx as int),
{
    let ri = ref_idx as i128;
    proof {
        let a = ONE - ref_idx;
        let b = ONE + ref_idx;
        assert(-10000 <= (a * 10000) / b <= 10000) by (nonlinear_arith)
            requires
                a == 10000 - ref_idx,
                b == 10000 + ref_idx,
                625 <= ref_idx <= 160000,
        ;
    }
    let r = div_floor((10000 - ri) * 10000, 10000 + ri);
    proof {
        lemma_fmul_unit(r as int, r as int);
    }
    let r0 = fixed_mul_wide(r, r);
    let x: i128 = if cosine >= 10000 {
        0
    } else if cosine <= 0 {
        10000
    } else {
        10000 - cosine
    };
    proof {
        lemma_fmul_unit(x as int, x as int);
    }
    let x2 = fixed_mul_wide(x, x);
    proof {
        lemma_fmul_unit(x as int, x2 as int);
    }
    let x3 = fixed_mul_wide(x, x2);
    proof {
        lemma_fmul_unit(x as int, x3 as int);
    }
    let x4 = fixed_mul_wide(x, x3);
    proof {
        lemma_fmul_unit(x as int, x4 as int);
    }
    let x5 = fixed_mul_wide(x, x4);
    proof {
        lemma_fmul_unit(10000 - r0, x5 as int);
    }
    r0 + fixed_mul_wide(10000 - r0, x5)
}

/// The color a material multiplies scattered light by.
pub open spec fn attenuation_of(m: Material) -> Vec3 {
    match m {
        Material::Lambertian { albedo } => albedo,
        Material::Metal { albedo, .. } => albedo,
        Material::Dielectric { tint, .. } => tint,
    }
}

impl Material {
    /// Colors in `[0, ONE]`, fuzziness in `[0, ONE]`, refractive index in `[ONE / 16, 16 ONE]` (ratios of the two sides stay within the fixed-point range).
    pub open spec fn wf(self) -> bool {
        match self {
            Material::Lambertian { albedo } => is_color(albedo),
            Material::Metal { albedo, fuzz } => is_color(albedo) && 0 <= fuzz <= ONE,
            Material::Dielectric { ref_idx, tint, fuzz } => is_color(tint) && 0 <= fuzz <= ONE
                && ONE / 16 <= ref_idx <= 16 * ONE,
        }
    }

    /// Scatters `r_in` at `rec`, with `rnd` a random vector of length at most
    /// one and `p` a uniform fraction in `[0, ONE)`: the attenuation and the
    /// scattered ray, or `None` where the ray is absorbed.
    pub fn scatter(&self, r_in: &Ray, rec: &HitRecord, rnd: Vec3, p: i64) -> (res: Option<
        (Vec3, Ray),
    >)
        requires
            self.wf(),
            r_in.wf(),
            rec.p.in_range(),
            rec.normal.within(2 * ONE),
            rnd.within(ONE as int),
        ensures
            res == scatter_spec(*self, *r_in, *rec, rnd, p as int),
            res.is_some() ==> res.unwrap().1.wf() && is_color(res.unwrap().0),
            res.is_some() ==> res.unwrap().0 == attenuation_of(*self),
            res.is_some() ==> res.unwrap().1.origin == rec.p,
    {
        let n = rec.normal;
        match *self {
            Material::Lambertian { albedo } => {
                let dir = (
                    n.x as i128 + rnd.x as i128,
                    n.y as i128 + rnd.y as i128,
                    n.z as i128 + rnd.z as i128,
                );
                assert(tri_int(dir) == (n.x + rnd.x, n.y + rnd.y, n.z + rnd.z));
                make_scattered(albedo, rec.p, dir)
            },
            Material::Metal { albedo, fuzz } => {
                match unit_vector(r_in.direction) {
                    None => None,
                    Some(u) => {
                        assert(as_triple(u) == unit_spec(r_in.direction));
                        let dir = jitter(reflect(u, n), fuzz, rnd);
                        if dot_tri(dir, wide(n)) > 0 {
                            make_scattered(albedo, rec.p, dir)
                        } else {
                            None
                        }
                    },
                }
            },
            Material::Dielectric { ref_idx, tint, fuzz } => {
                match unit_vector(r_in.direction) {
                    None => None,
                    Some(u) => {
                        assert(as_triple(u) == unit_spec(r_in.direction));
                        let dn = cos_fixed(u, n);
                        let exiting = dot_tri(wide(r_in.direction), wide(n)) > 0;
                        let out_n = if exiting {
                            Vec3 { x: -n.x, y: -n.y, z: -n.z }
                        } else {
                            n
                        };
                        let ratio: i128 = if exiting {
                            ref_idx as i128
                        } else {
                            div_floor(10000 * 10000, ref_idx as i128)
                        };
                        proof {
                            assert(0 <= (100000000int) / (ref_idx as int) <= 160000) by (
                            nonlinear_arith)
                                requires
                                    625 <= ref_idx,
                            ;
                            lemma_fmul_bound(ref_idx as int, dn as int, 160000, 70000);
                        }
                        let cosine: i128 = if exiting {
                            fixed_mul_wide(ref_idx as i128, dn)
                        } else {
                            -dn
                        };
                        let k = refract_k_exec(u, out_n, ratio);
                        if k > 0 && p as i128 >= schlick_exec(cosine, ref_idx) {
                            make_scattered(tint, rec.p, refract(u, out_n, ratio, k))
                        } else {
                            make_scattered(tint, rec.p, jitter(reflect(u, n), fuzz, rnd))
                        }
                    },
                }
            },
        }
    }
}

} // verus!
