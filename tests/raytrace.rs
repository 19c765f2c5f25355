use raytrace::camera::Camera;
use raytrace::color::{to_byte, write_color, PixelColor};
use raytrace::hitable::{HitRecord, Hitable};
use raytrace::hitable_list::HitableList;
use raytrace::material::{unit_vector, Material};
use raytrace::random::Rng;
use raytrace::ray::Ray;
use raytrace::render::{render, sample_pixel, viewport_coord};
use raytrace::sphere::Sphere;
use raytrace::tracer::{ray_color, sky_color, T_INF, T_MIN};
use raytrace::vec3::{div_floor, isqrt, Vec3, ONE};

fn v(x: i64, y: i64, z: i64) -> Vec3 {
    Vec3::new(x, y, z)
}

fn gray() -> Material {
    Material::Lambertian { albedo: v(5000, 5000, 5000) }
}

fn unit_sphere_ahead() -> Sphere {
    Sphere::new(v(0, 0, -ONE), 5000, gray())
}

#[test]
fn vector_arithmetic_is_exact() {
    let a = v(1, 2, 3);
    let b = v(4, -5, 6);
    assert_eq!(a.add(b), v(5, -3, 9));
    assert_eq!(a.sub(b), v(-3, 7, -3));
    assert_eq!(a.dot(b), 4 - 10 + 18);
    assert_eq!(a.squared_length(), 14);
    assert_eq!(a.cross(b), (2 * 6 - 3 * -5, 3 * 4 - 1 * 6, 1 * -5 - 2 * 4));
    assert_eq!(v(ONE, 5000, -5000).mul(v(5000, 5000, 5000)), (5000, 2500, -2500));
    assert_eq!(v(ONE, 2 * ONE, -ONE).scale(5000), (5000, ONE as i128, -5000));
    assert_eq!((a.x(), a.y(), a.z()), (1, 2, 3));
}

#[test]
fn integer_square_root_rounds_down() {
    assert_eq!(isqrt(0), 0);
    assert_eq!(isqrt(15), 3);
    assert_eq!(isqrt(16), 4);
    assert_eq!(isqrt(100_000_000), 10_000);
    assert_eq!(div_floor(-7, 2), -4);
    assert_eq!(div_floor(7, 2), 3);
}

#[test]
fn unit_vector_normalizes_and_rejects_zero() {
    assert_eq!(unit_vector(v(0, 3, 0)), Some(v(0, ONE, 0)));
    assert_eq!(unit_vector(v(3, 4, 0)), Some(v(6000, 8000, 0)));
    assert_eq!(unit_vector(v(0, 0, 0)), None);
}

#[test]
fn ray_accessors_and_point_at_parameter() {
    let r = Ray::new(v(1, 2, 3), v(ONE, 0, -2 * ONE));
    assert_eq!(r.origin(), v(1, 2, 3));
    assert_eq!(r.direction(), v(ONE, 0, -2 * ONE));
    assert_eq!(r.point_at_parameter(5000), Some(v(5001, 2, 3 - ONE)));
    assert_eq!(r.point_at_parameter(i64::MAX), None);
}

#[test]
fn sphere_hit_reports_nearest_root_point_and_normal() {
    let s = unit_sphere_ahead();
    let r = Ray::new(v(0, 0, 0), v(0, 0, -ONE));
    let mut rec = HitRecord::new();
    assert!(s.hit(r, T_MIN, T_INF, &mut rec));
    assert_eq!(rec.t, 5000);
    assert_eq!(rec.p, v(0, 0, -5000));
    assert_eq!(rec.normal, v(0, 0, ONE));
    assert_eq!(rec.material, gray());
    // With the near root excluded the far one is taken.
    let mut rec2 = HitRecord::new();
    assert!(s.hit(r, 5000, T_INF, &mut rec2));
    assert_eq!(rec2.t, 15000);
}

#[test]
fn sphere_behind_origin_is_not_hit() {
    let s = Sphere::new(v(0, 0, 2 * ONE), 5000, gray());
    let r = Ray::new(v(0, 0, 0), v(0, 0, -ONE));
    let mut rec = HitRecord::new();
    assert!(!s.hit(r, 0, T_INF, &mut rec));
    assert_eq!(rec.t, HitRecord::new().t);
    assert!(!s.hit(r, T_MIN, T_INF, &mut rec));
}

#[test]
fn normal_through_center_is_unit_and_outward() {
    let c = v(2 * ONE, 2 * ONE, -2 * ONE);
    let s = Sphere::new(c, ONE, gray());
    let r = Ray::new(v(0, 0, 0), v(ONE, ONE, -ONE));
    let mut rec = HitRecord::new();
    assert!(s.hit(r, T_MIN, T_INF, &mut rec));
    let expect = |p: i64, q: i64| div_floor((p as i128 - q as i128) * ONE as i128, ONE as i128) as i64;
    assert_eq!(rec.normal.x, expect(rec.p.x, c.x));
    assert_eq!(rec.normal.y, expect(rec.p.y, c.y));
    assert_eq!(rec.normal.z, expect(rec.p.z, c.z));
    let len2 = rec.normal.squared_length();
    let one2 = (ONE as i128) * (ONE as i128);
    assert!((len2 - one2).abs() * 100 <= one2);
    // Outward: the normal points back toward the ray origin.
    assert!(rec.normal.dot(r.direction()) < 0);
}

#[test]
fn scene_reports_the_nearest_hit() {
    let near = Sphere::new(v(0, 0, -ONE), 5000, gray());
    let far = Sphere::new(v(0, 0, -3 * ONE), 5000, Material::Metal { albedo: v(ONE, ONE, ONE), fuzz: 0 });
    let r = Ray::new(v(0, 0, 0), v(0, 0, -ONE));
    let mut world = HitableList::new(2);
    world.add(far);
    world.add(near);
    let mut rec = HitRecord::new();
    assert!(world.hit(r, T_MIN, T_INF, &mut rec));
    assert_eq!(rec.t, 5000);
    for s in [near, far] {
        let mut own = HitRecord::new();
        assert!(s.hit(r, T_MIN, T_INF, &mut own));
        assert!(rec.t <= own.t);
    }
    let empty = HitableList::new(0);
    assert!(!empty.hit(r, T_MIN, T_INF, &mut rec));
}

#[test]
fn refraction_through_parallel_faces_restores_direction() {
    let glass = Material::Dielectric { ref_idx: 15000, tint: v(ONE, ONE, ONE), fuzz: 0 };
    let d = v(5000, -8660, 0);
    let top = HitRecord { t: 0, p: v(0, 0, 0), normal: v(0, ONE, 0), material: glass };
    let (att, inside) = glass.scatter(&Ray::new(v(0, ONE, 0), d), &top, v(ONE, 0, 0), ONE - 1).unwrap();
    assert_eq!(att, v(ONE, ONE, ONE));
    assert!(inside.direction().y < 0);
    assert!(inside.direction().x < 5000);
    let bottom = HitRecord { t: 0, p: v(0, -ONE, 0), normal: v(0, -ONE, 0), material: glass };
    let (_, out) = glass.scatter(&inside, &bottom, v(ONE, 0, 0), ONE - 1).unwrap();
    let u = unit_vector(d).unwrap();
    let o = unit_vector(out.direction()).unwrap();
    assert!((o.x - u.x).abs() <= 20, "{:?} vs {:?}", o, u);
    assert!((o.y - u.y).abs() <= 20, "{:?} vs {:?}", o, u);
    assert_eq!(o.z, 0);
}

#[test]
fn metal_reflects_and_absorbs_grazing_rays() {
    let m = Material::Metal { albedo: v(ONE, 5000, 0), fuzz: 0 };
    let rec = HitRecord { t: 0, p: v(0, 0, 0), normal: v(0, ONE, 0), material: m };
    let (att, out) = m.scatter(&Ray::new(v(0, ONE, 0), v(6000, -8000, 0)), &rec, v(0, 0, ONE), 0).unwrap();
    assert_eq!(att, v(ONE, 5000, 0));
    assert_eq!(out.direction(), v(6000, 8000, 0));
    assert_eq!(out.origin(), v(0, 0, 0));
    // A ray leaving the surface reflects into it and is absorbed.
    assert!(m.scatter(&Ray::new(v(0, 0, 0), v(6000, 8000, 0)), &rec, v(0, 0, ONE), 0).is_none());
}

#[test]
fn lambertian_scatters_along_normal_plus_random() {
    let m = gray();
    let rec = HitRecord { t: 0, p: v(1, 2, 3), normal: v(0, ONE, 0), material: m };
    let (att, out) = m.scatter(&Ray::new(v(0, ONE, 0), v(0, -ONE, 0)), &rec, v(ONE, 0, 0), 0).unwrap();
    assert_eq!(att, v(5000, 5000, 5000));
    assert_eq!(out.origin(), v(1, 2, 3));
    assert_eq!(out.direction(), v(ONE, ONE, 0));
}

#[test]
fn depth_limit_zero_returns_black() {
    let mut world = HitableList::new(1);
    world.add(unit_sphere_ahead());
    let mut rng = Rng::new(7);
    let c = ray_color(Ray::new(v(0, 0, 0), v(0, 0, -ONE)), &world, 0, 0, &mut rng);
    assert_eq!(c, v(0, 0, 0));
}

#[test]
fn sky_gradient_top_and_bottom() {
    assert_eq!(sky_color(v(0, ONE, 0)), v(5000, 7000, ONE));
    assert_eq!(sky_color(v(0, -ONE, 0)), v(ONE, ONE, ONE));
    assert_eq!(sky_color(v(0, 3, 0)), v(5000, 7000, ONE));
    let world = HitableList::new(0);
    let mut rng = Rng::new(1);
    assert_eq!(ray_color(Ray::new(v(0, 0, 0), v(0, ONE, 0)), &world, 0, 5, &mut rng), v(5000, 7000, ONE));
}

fn small_camera() -> Camera {
    Camera::new(v(0, 0, 0), v(0, 0, -ONE), v(0, ONE, 0), ONE, 2 * ONE).unwrap()
}

#[test]
fn camera_maps_viewport_corners() {
    let cam = small_camera();
    let r = cam.get_ray(0, 0);
    assert_eq!(r.origin(), v(0, 0, 0));
    assert_eq!(r.direction(), v(-2 * ONE, -ONE, -ONE));
    assert_eq!(cam.get_ray(ONE, ONE).direction(), v(2 * ONE, ONE, -ONE));
    assert_eq!(cam.get_ray(5000, 5000).direction(), v(0, 0, -ONE));
    assert!(Camera::new(v(0, 0, 0), v(0, 0, 0), v(0, ONE, 0), ONE, ONE).is_none());
    assert!(Camera::new(v(0, 0, 0), v(0, 0, -ONE), v(0, 0, ONE), ONE, ONE).is_none());
}

#[test]
fn seeded_two_by_two_render_is_reproducible() {
    let mut world = HitableList::new(1);
    world.add(unit_sphere_ahead());
    let cam = small_camera();
    let a = render(&cam, &world, 2, 2, 1, 1, 42);
    let b = render(&cam, &world, 2, 2, 1, 1, 42);
    assert_eq!(a.len(), 4);
    assert_eq!(a, b);
    let px = |r, g, b| PixelColor { r, g, b };
    assert_eq!(a, vec![px(151, 192, 255), px(175, 207, 255), px(134, 182, 255), px(153, 193, 255)]);
    for p in &a {
        assert!(p.b >= p.r, "{:?}", p);
        assert!(p.b <= 255);
    }
}

#[test]
fn averaging_equal_samples_is_exact() {
    for n in [1u32, 3, 7, 20] {
        let c = v(1234, 5678, 9999);
        let sum = v(c.x * n as i64, c.y * n as i64, c.z * n as i64);
        assert_eq!(write_color(sum, n), write_color(c, 1));
    }
    assert_eq!(write_color(v(3 * ONE, 0, 3 * 5000), 3), PixelColor { r: 255, g: 0, b: 127 });
}

#[test]
fn display_mapping_clamps_and_scales() {
    assert_eq!(to_byte(-5), 0);
    assert_eq!(to_byte(0), 0);
    assert_eq!(to_byte(5000), 127);
    assert_eq!(to_byte(ONE), 255);
    assert_eq!(to_byte(3 * ONE), 255);
}

#[test]
fn random_stream_is_seeded_and_bounded() {
    let mut a = Rng::new(99);
    let mut b = Rng::new(99);
    for _ in 0..100 {
        let f = a.next_fraction();
        assert_eq!(f, b.next_fraction());
        assert!((0..ONE).contains(&f));
        let u = a.random_unit_vector();
        assert_eq!(u, b.random_unit_vector());
        let len2 = u.squared_length();
        assert!(len2 * 100 <= 101 * (ONE as i128) * (ONE as i128));
        assert!(len2 * 100 >= 97 * (ONE as i128) * (ONE as i128));
    }
    let mut c = Rng::new(0);
    assert_eq!(c.next_u64(), 1442695040888963407);
}

#[test]
fn viewport_coordinates_of_jittered_pixels() {
    assert_eq!(viewport_coord(0, 0, 2), 0);
    assert_eq!(viewport_coord(1, 0, 2), ONE);
    assert_eq!(viewport_coord(1, 5000, 3), 7500);
    let mut world = HitableList::new(1);
    world.add(unit_sphere_ahead());
    let mut rng = Rng::new(3);
    let p = sample_pixel(&small_camera(), &world, 0, 1, 2, 2, 4, 3, &mut rng);
    assert!(p.b >= p.r);
}

#[test]
fn sky_only_render_stays_in_sky_range() {
    let world = HitableList::new(0);
    let cam = small_camera();
    let px = render(&cam, &world, 3, 2, 4, 2, 11);
    assert_eq!(px.len(), 6);
    for p in &px {
        assert_eq!(p.b, 255);
        assert!(p.r <= p.g);
        assert!(p.r >= 127 && p.g >= 178, "{:?}", p);
    }
}

#[test]
fn quarter_intensity_maps_linearly() {
    assert_eq!(write_color(v(2500, 2500, 2500), 1), PixelColor { r: 63, g: 63, b: 63 });
    assert_eq!(write_color(v(4 * 2500, 4 * 2500, 4 * 2500), 4), PixelColor { r: 63, g: 63, b: 63 });
}
