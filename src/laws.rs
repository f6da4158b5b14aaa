use vstd::prelude::*;

use crate::geometry::{Coords, Ray};
use crate::hittable::Hittable;
use crate::sphere::Sphere;
use crate::surd::Ratio;
use vstd::arithmetic::mul::{
    lemma_mul_is_distributive_add, lemma_mul_is_distributive_add_other_way,
    lemma_mul_is_distributive_sub,
};

verus! {

proof fn lemma_square_of_difference(x: int, y: int)
    ensures
        (x - y) * (x - y) == x * x - 2 * (x * y) + y * y,
{
    lemma_mul_is_distributive_sub(x - y, x, y);
    lemma_mul_is_distributive_sub(x, x, y);
    lemma_mul_is_distributive_sub(y, x, y);
    assert(x * y == y * x) by (nonlinear_arith);
    assert((x - y) * x == x * x - y * x) by (nonlinear_arith);
    assert((x - y) * y == x * y - y * y) by (nonlinear_arith);
}

proof fn lemma_product_of_sums(a1: int, a2: int, a3: int, b1: int, b2: int, b3: int)
    ensures
        (a1 + a2 + a3) * (b1 + b2 + b3) == a1 * b1 + a1 * b2 + a1 * b3 + a2 * b1 + a2 * b2 + a2
            * b3 + a3 * b1 + a3 * b2 + a3 * b3,
{
    let b = b1 + b2 + b3;
    lemma_mul_is_distributive_add_other_way(b, a1 + a2, a3);
    lemma_mul_is_distributive_add_other_way(b, a1, a2);
    lemma_mul_is_distributive_add(a1, b1 + b2, b3);
    lemma_mul_is_distributive_add(a1, b1, b2);
    lemma_mul_is_distributive_add(a2, b1 + b2, b3);
    lemma_mul_is_distributive_add(a2, b1, b2);
    lemma_mul_is_distributive_add(a3, b1 + b2, b3);
    lemma_mul_is_distributive_add(a3, b1, b2);
}

/// `|p x d|^2 == |p|^2 |d|^2 - (p . d)^2`.
pub proof fn lemma_lagrange_identity(p: Coords, d: Coords)
    ensures
        p.cross(d).norm_sq() == p.norm_sq() * d.norm_sq() - d.dot(p) * d.dot(p),
{
    lemma_square_of_difference(p.y * d.z, p.z * d.y);
    lemma_square_of_difference(p.z * d.x, p.x * d.z);
    lemma_square_of_difference(p.x * d.y, p.y * d.x);
    lemma_product_of_sums(p.x * p.x, p.y * p.y, p.z * p.z, d.x * d.x, d.y * d.y, d.z * d.z);
    lemma_product_of_sums(d.x * p.x, d.y * p.y, d.z * p.z, d.x * p.x, d.y * p.y, d.z * p.z);
    assert((p.y * d.z) * (p.y * d.z) == (p.y * p.y) * (d.z * d.z)) by (nonlinear_arith);
    assert((p.z * d.y) * (p.z * d.y) == (p.z * p.z) * (d.y * d.y)) by (nonlinear_arith);
    assert((p.z * d.x) * (p.z * d.x) == (p.z * p.z) * (d.x * d.x)) by (nonlinear_arith);
    assert((p.x * d.z) * (p.x * d.z) == (p.x * p.x) * (d.z * d.z)) by (nonlinear_arith);
    assert((p.x * d.y) * (p.x * d.y) == (p.x * p.x) * (d.y * d.y)) by (nonlinear_arith);
    assert((p.y * d.x) * (p.y * d.x) == (p.y * p.y) * (d.x * d.x)) by (nonlinear_arith);
    assert((p.y * d.z) * (p.z * d.y) == (d.y * p.y) * (d.z * p.z)) by (nonlinear_arith);
    assert((p.z * d.x) * (p.x * d.z) == (d.x * p.x) * (d.z * p.z)) by (nonlinear_arith);
    assert((p.x * d.y) * (p.y * d.x) == (d.x * p.x) * (d.y * p.y)) by (nonlinear_arith);
    assert((d.y * p.y) * (d.x * p.x) == (d.x * p.x) * (d.y * p.y)) by (nonlinear_arith);
    assert((d.z * p.z) * (d.x * p.x) == (d.x * p.x) * (d.z * p.z)) by (nonlinear_arith);
    assert((d.z * p.z) * (d.y * p.y) == (d.y * p.y) * (d.z * p.z)) by (nonlinear_arith);
    assert((d.x * p.x) * (d.x * p.x) == (p.x * p.x) * (d.x * d.x)) by (nonlinear_arith);
    assert((d.y * p.y) * (d.y * p.y) == (p.y * p.y) * (d.y * d.y)) by (nonlinear_arith);
    assert((d.z * p.z) * (d.z * p.z) == (p.z * p.z) * (d.z * d.z)) by (nonlinear_arith);
}

} // verus!

verus! {

/// The discriminant is how far the line passes inside the sphere:
/// `|d|^2 r^2 - |oc x d|^2`.
pub proof fn lemma_discriminant_measures_line_distance<M>(sphere: &Sphere<M>, ray: Ray)
    ensures
        sphere.discriminant(ray) == sphere.scaled_radius_sq(ray) - sphere.scaled_line_distance_sq(
            ray,
        ),
{
    let p = sphere.offset(ray);
    let d = ray.direction@;
    let r = sphere.radius as int;
    lemma_lagrange_identity(p, d);
    lemma_mul_is_distributive_sub(d.norm_sq(), p.norm_sq(), r * r);
    assert(p.norm_sq() * d.norm_sq() == d.norm_sq() * p.norm_sq()) by (nonlinear_arith);
}

/// With the radicand zero, `l <= r * sqrt(0)` is just `l <= 0`.
proof fn lemma_zero_radicand(l: int, r: int)
    ensures
        crate::surd::le_scaled_sqrt(l, r, 0) == (l <= 0),
{
    assert(r * r * 0 == 0) by (nonlinear_arith);
    assert(l * l >= 0) by (nonlinear_arith);
    assert(l * l <= 0 ==> l == 0) by (nonlinear_arith);
}

/// A ray that starts outside the sphere and crosses it has two distinct
/// roots; the near one is the smaller, and whenever it lies in the window it
/// is the parameter reported.
pub proof fn lemma_nearest_root_reported<M>(sphere: &Sphere<M>, ray: Ray, t_min: Ratio, t_max: Ratio)
    requires
        sphere.valid(),
        ray.valid(),
        sphere.offset(ray).norm_sq() > sphere.radius * sphere.radius,
        sphere.scaled_line_distance_sq(ray) < sphere.scaled_radius_sq(ray),
    ensures
        sphere.discriminant(ray) > 0,
        sphere.root(ray, true).le(sphere.root(ray, false), sphere.discriminant(ray)),
        !sphere.root(ray, false).le(sphere.root(ray, true), sphere.discriminant(ray)),
        sphere.root(ray, true).within(t_min@, t_max@, sphere.discriminant(ray)) ==> sphere.hit_spec(
            ray,
            t_min,
            t_max,
        ) == Some((sphere.root(ray, true), sphere.discriminant(ray))),
{
    lemma_discriminant_measures_line_distance(sphere, ray);
    let disc = sphere.discriminant(ray);
    let a = sphere.quad_a(ray);
    let h = sphere.quad_half_b(ray);
    assert((-h) * a - (-h) * a == 0);
    assert((-2 * a) * (-2 * a) * disc > 0) by (nonlinear_arith)
        requires
            a > 0,
            disc > 0,
    ;
}

/// A ray whose line passes farther from the center than the radius has a
/// negative discriminant and never hits.
pub proof fn lemma_far_line_misses<M>(sphere: &Sphere<M>, ray: Ray, t_min: Ratio, t_max: Ratio)
    requires
        sphere.valid(),
        ray.valid(),
        sphere.scaled_line_distance_sq(ray) > sphere.scaled_radius_sq(ray),
    ensures
        sphere.discriminant(ray) < 0,
        sphere.hit_spec(ray, t_min, t_max) is None,
{
    lemma_discriminant_measures_line_distance(sphere, ray);
}

/// A ray whose line touches the sphere has a zero discriminant and a single
/// root: both roots are the same number, and the ray hits exactly when that
/// number lies in the window.
pub proof fn lemma_tangent_single_root<M>(sphere: &Sphere<M>, ray: Ray, t_min: Ratio, t_max: Ratio)
    requires
        sphere.valid(),
        ray.valid(),
        t_min.valid(),
        t_max.valid(),
        sphere.scaled_line_distance_sq(ray) == sphere.scaled_radius_sq(ray),
    ensures
        sphere.discriminant(ray) == 0,
        sphere.root(ray, true).same_value(sphere.root(ray, false), 0),
        sphere.hit_spec(ray, t_min, t_max) is Some <==> sphere.root(ray, true).within(
            t_min@,
            t_max@,
            0,
        ),
        sphere.hit_spec(ray, t_min, t_max) is Some ==> {
            &&& sphere.hit_spec(ray, t_min, t_max).unwrap().1 == 0
            &&& sphere.hit_spec(ray, t_min, t_max).unwrap().0.same_value(sphere.root(ray, true), 0)
        },
{
    lemma_discriminant_measures_line_distance(sphere, ray);
    let near = sphere.root(ray, true);
    let far = sphere.root(ray, false);
    let lo = t_min@;
    let hi = t_max@;
    let a = near.denom;
    let h = near.rational;
    lemma_zero_radicand(h * a - h * a, far.radical * a - near.radical * a);
    lemma_zero_radicand(h * a - h * a, near.radical * a - far.radical * a);
    lemma_zero_radicand(h * a - h * a, 0);
    lemma_zero_radicand(lo.rational * a - h * lo.denom, near.radical * lo.denom - 0 * a);
    lemma_zero_radicand(lo.rational * a - h * lo.denom, far.radical * lo.denom - 0 * a);
    lemma_zero_radicand(h * hi.denom - hi.rational * a, 0 * a - near.radical * hi.denom);
    lemma_zero_radicand(h * hi.denom - hi.rational * a, 0 * a - far.radical * hi.denom);
}

} // verus!
