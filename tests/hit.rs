use ray_sphere::surd::le_scaled_sqrt_exec;
use ray_sphere::{HitRecord, Hittable, Ratio, Ray, Sphere, Surd, SurdVec3, Vec3};

fn value(s: &Surd, d: i128) -> f64 {
    (s.rational as f64 + s.radical as f64 * (d as f64).sqrt()) / s.denom as f64
}

fn coords(v: &SurdVec3, d: i128) -> (f64, f64, f64) {
    (value(&v.x, d), value(&v.y, d), value(&v.z, d))
}

fn close(a: f64, b: f64) -> bool {
    (a - b).abs() < 1e-9
}

fn ray(o: (i16, i16, i16), d: (i16, i16, i16)) -> Ray {
    Ray::new(Vec3::new(o.0, o.1, o.2), Vec3::new(d.0, d.1, d.2))
}

fn open_window() -> (Ratio, Ratio) {
    (Ratio::whole(0), Ratio::whole(i32::MAX))
}

// Lengths are in half units: the sphere at (0, 0, -1) with radius 0.5 is
// centred at (0, 0, -2) with radius 1, and the direction (0, 0, -1) is (0, 0, -2),
// which leaves the ray parameters unchanged.
fn unit_scene() -> Sphere<&'static str> {
    Sphere::new((0, 0, -2), 1, "matte")
}

fn check_record(rec: &HitRecord, r: &Ray) {
    assert_eq!(rec.ray, *r);
    assert_eq!(rec.point, r.at(&rec.t));
    let (nx, ny, nz) = coords(&rec.normal, rec.discriminant);
    assert!(close(nx * nx + ny * ny + nz * nz, 1.0));
}

#[test]
fn straight_on_hit_reports_near_surface() {
    let s = unit_scene();
    let r = ray((0, 0, 0), (0, 0, -2));
    let (lo, hi) = open_window();
    let (rec, m) = s.hit(&r, lo, hi).expect("hit");
    assert_eq!(*m, "matte");
    assert_eq!(rec.discriminant, 4);
    assert_eq!(rec.t, Surd { rational: 4, radical: -1, denom: 4 });
    assert!(close(value(&rec.t, rec.discriminant), 0.5));
    let (px, py, pz) = coords(&rec.point, rec.discriminant);
    assert!(close(px, 0.0) && close(py, 0.0) && close(pz / 2.0, -0.5));
    let (nx, ny, nz) = coords(&rec.normal, rec.discriminant);
    assert!(close(nx, 0.0) && close(ny, 0.0) && close(nz, 1.0));
    check_record(&rec, &r);
}

#[test]
fn parallel_offset_ray_misses() {
    let s = unit_scene();
    let r = ray((0, 0, 0), (0, 2, 0));
    let (lo, hi) = open_window();
    assert!(s.hit(&r, lo, hi).is_none());
}

#[test]
fn window_past_near_root_takes_far_root() {
    let s = unit_scene();
    let r = ray((0, 0, 0), (0, 0, -2));
    let (rec, _) = s.hit(&r, Ratio::new(3, 5), Ratio::whole(10)).expect("far root");
    assert_eq!(rec.t, Surd { rational: 4, radical: 1, denom: 4 });
    assert!(close(value(&rec.t, rec.discriminant), 1.5));
    let (nx, ny, nz) = coords(&rec.normal, rec.discriminant);
    assert!(close(nx, 0.0) && close(ny, 0.0) && close(nz, -1.0));
    check_record(&rec, &r);
}

#[test]
fn window_excluding_both_roots_misses() {
    let s = unit_scene();
    let r = ray((0, 0, 0), (0, 0, -2));
    assert!(s.hit(&r, Ratio::new(8, 5), Ratio::whole(10)).is_none());
    assert!(s.hit(&r, Ratio::whole(0), Ratio::new(2, 5)).is_none());
}

#[test]
fn window_bounds_are_inclusive() {
    let s = unit_scene();
    let r = ray((0, 0, 0), (0, 0, -2));
    let (rec, _) = s.hit(&r, Ratio::new(1, 2), Ratio::whole(10)).expect("at lower bound");
    assert_eq!(rec.t.radical, -1);
    let (rec, _) = s.hit(&r, Ratio::whole(0), Ratio::new(1, 2)).expect("at upper bound");
    assert_eq!(rec.t.radical, -1);
    let (rec, _) = s.hit(&r, Ratio::new(3, 2), Ratio::new(3, 2)).expect("far root alone");
    assert_eq!(rec.t.radical, 1);
}

#[test]
fn line_far_from_center_misses() {
    let s = unit_scene();
    let r = ray((2, 0, 0), (0, 0, -2));
    let (lo, hi) = open_window();
    assert!(s.hit(&r, lo, hi).is_none());
}

#[test]
fn tangent_ray_has_single_root() {
    let s = unit_scene();
    let r = ray((1, 0, 0), (0, 0, -1));
    let (lo, hi) = open_window();
    let (rec, _) = s.hit(&r, lo, hi).expect("tangent hit");
    assert_eq!(rec.discriminant, 0);
    assert!(close(value(&rec.t, 0), 2.0));
    let far = Surd { rational: rec.t.rational, radical: 1, denom: rec.t.denom };
    assert!(close(value(&far, 0), value(&rec.t, 0)));
    let (nx, ny, nz) = coords(&rec.normal, 0);
    assert!(close(nx, 1.0) && close(ny, 0.0) && close(nz, 0.0));
    check_record(&rec, &r);
}

#[test]
fn origin_inside_takes_exit_point() {
    let s = Sphere::new((0, 0, 0), 2, 7u8);
    let r = ray((0, 0, 0), (1, 0, 0));
    let (lo, hi) = open_window();
    let (rec, m) = s.hit(&r, lo, hi).expect("exit");
    assert_eq!(*m, 7);
    assert_eq!(rec.t.radical, 1);
    assert!(close(value(&rec.t, rec.discriminant), 2.0));
    let (nx, _, _) = coords(&rec.normal, rec.discriminant);
    assert!(close(nx, 1.0));
    check_record(&rec, &r);
}

#[test]
fn irrational_root_is_exact() {
    let s = Sphere::new((0, 0, -3), 2, ());
    let r = ray((1, 0, 0), (0, 0, -1));
    let (lo, hi) = open_window();
    let (rec, _) = s.hit(&r, lo, hi).expect("hit");
    assert_eq!(rec.discriminant, 3);
    assert_eq!(rec.t, Surd { rational: 3, radical: -1, denom: 1 });
    assert!(close(value(&rec.t, 3), 3.0 - 3f64.sqrt()));
    let (px, py, pz) = coords(&rec.point, 3);
    let dist = (px * px + py * py + (pz + 3.0) * (pz + 3.0)).sqrt();
    assert!(close(dist, 2.0));
    check_record(&rec, &r);
}

#[test]
fn large_coordinates_do_not_overflow() {
    let s = Sphere::new((i16::MAX, i16::MAX, i16::MAX), u16::MAX, 0u32);
    let r = ray((i16::MIN, i16::MIN, i16::MIN), (i16::MAX, i16::MAX, i16::MAX));
    let (rec, _) = s.hit(&r, Ratio::new(i32::MIN, 1), Ratio::whole(i32::MAX)).expect("hit");
    check_record(&rec, &r);
    let r = ray((i16::MIN, i16::MAX, i16::MIN), (i16::MIN, i16::MIN, i16::MAX));
    let _ = s.hit(&r, Ratio::new(i32::MIN, u16::MAX), Ratio::new(i32::MAX, u16::MAX));
}

#[test]
fn ray_at_moves_along_direction() {
    let r = ray((1, 2, 3), (4, -5, 6));
    let p = r.at(&Surd { rational: 1, radical: 2, denom: 3 });
    assert_eq!(p.x, Surd { rational: 7, radical: 8, denom: 3 });
    assert_eq!(p.y, Surd { rational: 1, radical: -10, denom: 3 });
    assert_eq!(p.z, Surd { rational: 15, radical: 12, denom: 3 });
}

#[test]
fn scaled_sqrt_comparison() {
    assert!(le_scaled_sqrt_exec(3, 1, 9));
    assert!(!le_scaled_sqrt_exec(4, 1, 9));
    assert!(le_scaled_sqrt_exec(-100, 1, 9));
    assert!(le_scaled_sqrt_exec(-4, -1, 9));
    assert!(le_scaled_sqrt_exec(-3, -1, 9));
    assert!(!le_scaled_sqrt_exec(-2, -1, 9));
    assert!(!le_scaled_sqrt_exec(1, -1, 0));
    assert!(le_scaled_sqrt_exec(0, -1, 0));
}

#[test]
fn ratio_constructors() {
    let q = Ratio::new(-3, 5);
    assert_eq!((q.num, q.den), (-3, 5));
    let w = Ratio::whole(4);
    assert_eq!((w.num, w.den), (4, 1));
}

#[test]
fn sphere_new_keeps_fields() {
    let s = Sphere::new((1, -2, 3), 4, "glass");
    assert_eq!(s.center, Vec3::new(1, -2, 3));
    assert_eq!(s.radius, 4);
    assert_eq!(s.material, "glass");
}
