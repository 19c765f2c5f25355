//! The recursive color of a ray, and the background it escapes to.
use vstd::prelude::*;
use crate::hitable::{HitRecord, Hitable};
use crate::hitable_list::{lemma_scan_inside, scan_hit, HitableList};
use crate::material::{
    attenuation_of, is_color, lemma_fmul_unit, scatter_spec, unit_spec, unit_vector,
};
use crate::random::{fraction_of, lcg_next, unit_draw, Rng};
use crate::sphere::Sphere;
use crate::ray::{triple_vec, Ray};
use crate::sphere::{as_triple, dot3};
use crate::vec3::{
    div_floor, fdiv, fixed_mul_wide, fmul, is_floor_sqrt, lemma_floor_sqrt, Vec3, ONE,
};

verus! {

/// The smallest accepted hit parameter (0.001): it keeps a scattered ray from
/// hitting the surface it leaves.
pub const T_MIN: i64 = 10;

/// The open upper end of the hit interval.
pub const T_INF: i64 = 0x7fffffffffffffff;

/// The sky color at the top of the gradient is `(0.5, 0.7, 1.0)`.
pub const SKY_R: i64 = 5000;

pub const SKY_G: i64 = 7000;

pub const SKY_B: i64 = 10000;

/// The background: white below blending into sky blue above, by the height
/// of the unit direction.
pub open spec fn sky_spec(dir: Vec3) -> (int, int, int) {
    let y = if dot3(as_triple(dir), as_triple(dir)) == 0 {
        0
    } else {
        unit_spec(dir).1
    };
    let t = fdiv(y + ONE, 2);
    (
        (ONE - t) + fmul(t, SKY_R as int),
        (ONE - t) + fmul(t, SKY_G as int),
        (ONE - t) + fmul(t, SKY_B as int),
    )
}

proof fn lemma_blend(t: int, c: int)
    requires
        0 <= t <= ONE,
        0 <= c <= ONE,
    ensures
        0 <= fmul(t, c) <= t,
{
    assert(0 <= (t * c) / 10000 <= t) by (nonlinear_arith)
        requires
            0 <= t <= 10000,
            0 <= c <= 10000,
    ;
}

/// The background color seen along `dir`.
pub fn sky_color(dir: Vec3) -> (c: Vec3)
    requires
        dir.in_range(),
    ensures
        as_triple(c) == sky_spec(dir),
        is_color(c),
{
    let y: i64 = match unit_vector(dir) {
        Some(u) => u.y,
        None => 0,
    };
    let t = div_floor(y as i128 + ONE as i128, 2);
    proof {
        lemma_blend(t as int, SKY_R as int);
        lemma_blend(t as int, SKY_G as int);
        lemma_blend(t as int, SKY_B as int);
    }
    let r = (ONE as i128 - t) + fixed_mul_wide(t, SKY_R as i128);
    let g = (ONE as i128 - t) + fixed_mul_wide(t, SKY_G as i128);
    let b = (ONE as i128 - t) + fixed_mul_wide(t, SKY_B as i128);
    Vec3 { x: r as i64, y: g as i64, z: b as i64 }
}

/// A ray straight up sees the top color, a ray straight down pure white.
pub proof fn lemma_sky_vertical(k: i64)
    requires
        0 < k <= crate::vec3::LIMIT,
    ensures
        sky_spec(Vec3 { x: 0, y: k, z: 0 }) == (SKY_R as int, SKY_G as int, SKY_B as int),
        sky_spec(Vec3 { x: 0, y: (-k) as i64, z: 0 }) == (ONE as int, ONE as int, ONE as int),
{
    let kk = k as int;
    assert(is_floor_sqrt(kk * kk, kk)) by (nonlinear_arith)
        requires
            kk > 0,
    ;
    assert(kk * kk > 0) by (nonlinear_arith)
        requires
            kk > 0,
    ;
    lemma_floor_sqrt(kk * kk, kk);
    let up = Vec3 { x: 0, y: k, z: 0 };
    let down = Vec3 { x: 0, y: (-k) as i64, z: 0 };
    assert(dot3(as_triple(up), as_triple(up)) == kk * kk);
    assert(dot3(as_triple(down), as_triple(down)) == kk * kk) by (nonlinear_arith)
        requires
            down.y == -kk,
            down.x == 0,
            down.z == 0,
    ;
    assert((kk * 10000) / kk == 10000) by (nonlinear_arith)
        requires
            kk > 0,
    ;
    assert(((-kk) * 10000) / kk == -10000) by (nonlinear_arith)
        requires
            kk > 0,
    ;
    assert(unit_spec(up).1 == ONE);
    assert(unit_spec(down).1 == -ONE);
}

/// Component-wise product of an attenuation and an incoming color.
pub fn shade(att: Vec3, c: Vec3) -> (r: Vec3)
    requires
        is_color(att),
        is_color(c),
    ensures
        r.x == fmul(att.x as int, c.x as int),
        r.y == fmul(att.y as int, c.y as int),
        r.z == fmul(att.z as int, c.z as int),
        is_color(r),
{
    proof {
        lemma_fmul_unit(att.x as int, c.x as int);
        lemma_fmul_unit(att.y as int, c.y as int);
        lemma_fmul_unit(att.z as int, c.z as int);
    }
    Vec3 {
        x: fixed_mul_wide(att.x as i128, c.x as i128) as i64,
        y: fixed_mul_wide(att.y as i128, c.y as i128) as i64,
        z: fixed_mul_wide(att.z as i128, c.z as i128) as i64,
    }
}

/// Component-wise fixed-point product of two colors.
pub open spec fn shade_spec(att: Vec3, c: Vec3) -> Vec3 {
    Vec3 {
        x: fmul(att.x as int, c.x as int) as i64,
        y: fmul(att.y as int, c.y as int) as i64,
        z: fmul(att.z as int, c.z as int) as i64,
    }
}

/// The color traced along `r` through the scene `objs`, starting from random
/// state `s`, with the state left afterwards. On a miss: the sky. On a hit
/// below the depth limit: a random unit vector and a fraction are drawn, the
/// hit material scatters, and the result is the attenuation times the color
/// of the scattered ray one level deeper, or black where the ray is absorbed.
/// On a hit at the depth limit: black.
pub open spec fn trace_spec(r: Ray, objs: Seq<Sphere>, depth: int, max_depth: int, s: u64) -> (
    Vec3,
    u64,
)
    decreases max_depth - depth,
{
    let black = Vec3 { x: 0, y: 0, z: 0 };
    match scan_hit(objs, r, T_MIN as int, T_INF as int) {
        None => (triple_vec(sky_spec(r.direction)), s),
        Some(h) => {
            if depth < max_depth {
                let (rnd, s1) = unit_draw(s, 0);
                let s2 = lcg_next(s1);
                match scatter_spec(h.material, r, h, rnd, fraction_of(s2)) {
                    Some((att, sc)) => {
                        let (inc, s3) = trace_spec(sc, objs, depth + 1, max_depth, s2);
                        (shade_spec(att, inc), s3)
                    },
                    None => (black, s2),
                }
            } else {
                (black, s)
            }
        },
    }
}

/// The color carried back along `r`: the sky where it escapes; black where it
/// is absorbed or `depth` has reached `max_depth`; otherwise the attenuation
/// times the color of the scattered ray, traced one level deeper.
pub fn ray_color(r: Ray, world: &HitableList, depth: u32, max_depth: u32, rng: &mut Rng) -> (c:
    Vec3)
    requires
        r.wf(),
        world.wf(),
    ensures
        is_color(c),
        (c, final(rng).state) == trace_spec(
            r,
            world.list@,
            depth as int,
            max_depth as int,
            old(rng).state,
        ),
        world.hit_spec(r, T_MIN, T_INF).is_none() ==> as_triple(c) == sky_spec(r.direction),
        world.hit_spec(r, T_MIN, T_INF).is_some() && depth >= max_depth ==> c == (Vec3 {
            x: 0,
            y: 0,
            z: 0,
        }),
        world.hit_spec(r, T_MIN, T_INF).is_some() && depth < max_depth ==> {
            let att = attenuation_of(world.hit_spec(r, T_MIN, T_INF).unwrap().material);
            ||| c == (Vec3 { x: 0, y: 0, z: 0 })
            ||| exists|inc: Vec3|
                is_color(inc) && c.x == fmul(att.x as int, inc.x as int) && c.y == fmul(
                    att.y as int,
                    inc.y as int,
                ) && c.z == fmul(att.z as int, inc.z as int)
        },
    decreases max_depth - depth,
{
    let black = Vec3::new(0, 0, 0);
    let mut rec = HitRecord::new();
    if world.hit(r, T_MIN, T_INF, &mut rec) {
        proof {
            lemma_scan_inside(world.list@, r, T_MIN as int, T_INF as int);
        }
        if depth < max_depth {
            let rnd = rng.random_unit_vector();
            let p = rng.next_fraction();
            match rec.material.scatter(&r, &rec, rnd, p) {
                Some((att, scattered)) => {
                    let incoming = ray_color(scattered, world, depth + 1, max_depth, rng);
                    let c = shade(att, incoming);
                    assert(is_color(incoming) && c.x == fmul(att.x as int, incoming.x as int)
                        && c.y == fmul(att.y as int, incoming.y as int) && c.z == fmul(
                        att.z as int,
                        incoming.z as int,
                    ));
                    c
                },
                None => black,
            }
        } else {
            black
        }
    } else {
        sky_color(r.direction)
    }
}

} // verus!
