use vstd::prelude::*;

use crate::arith::lemma_mul_within;
use vstd::arithmetic::mul::{lemma_mul_is_distributive_sub, lemma_mul_is_distributive_sub_other_way};
use crate::geometry::{Coords, Ray, Vec3};
use crate::hittable::{HitRecord, Hittable};
use crate::surd::{le_scaled_sqrt_exec, Ratio, Surd, SurdValue, SurdVec3, SurdVec3Value};

verus! {

/// A sphere on the integer grid that owns its shading behaviour.
pub struct Sphere<M> {
    pub center: Vec3,
    pub radius: u16,
    pub material: M,
}

impl<M> Sphere<M> {
    /// Ray origin relative to the center.
    pub open spec fn offset(self, ray: Ray) -> Coords {
        ray.origin@.minus(self.center@)
    }

    /// `a` of the ray's quadratic `a t^2 + 2 half_b t + c`.
    pub open spec fn quad_a(self, ray: Ray) -> int {
        ray.direction@.norm_sq()
    }

    pub open spec fn quad_half_b(self, ray: Ray) -> int {
        ray.direction@.dot(self.offset(ray))
    }

    pub open spec fn quad_c(self, ray: Ray) -> int {
        self.offset(ray).norm_sq() - self.radius * self.radius
    }

    pub open spec fn discriminant(self, ray: Ray) -> int {
        self.quad_half_b(ray) * self.quad_half_b(ray) - self.quad_a(ray) * self.quad_c(ray)
    }

    /// `|direction|^2` times the squared distance from the center to the
    /// ray's line: `|(origin - center) x direction|^2`.
    pub open spec fn scaled_line_distance_sq(self, ray: Ray) -> int {
        self.offset(ray).cross(ray.direction@).norm_sq()
    }

    /// `|direction|^2` times the squared radius, on the scale of
    /// `scaled_line_distance_sq`.
    pub open spec fn scaled_radius_sq(self, ray: Ray) -> int {
        self.quad_a(ray) * (self.radius * self.radius)
    }

    /// The root `(-half_b - sqrt(disc)) / a` when `near`, else
    /// `(-half_b + sqrt(disc)) / a`.
    pub open spec fn root(self, ray: Ray, near: bool) -> SurdValue {
        SurdValue {
            rational: -self.quad_half_b(ray),
            radical: if near { -1 } else { 1 },
            denom: self.quad_a(ray),
        }
    }

    /// The coordinate of `(point - center) / radius` along one axis.
    pub open spec fn normal_part(self, p: SurdValue, c: int) -> SurdValue {
        SurdValue { rational: p.rational - c * p.denom, radical: p.radical, denom: p.denom * self.radius }
    }

    pub fn new(center: (i16, i16, i16), radius: u16, material: M) -> (r: Sphere<M>)
        requires
            radius > 0,
        ensures
            r.center@ == (Coords { x: center.0 as int, y: center.1 as int, z: center.2 as int }),
            r.radius == radius,
            r.material == material,
            r.valid(),
    {
        Sphere { center: Vec3::new(center.0, center.1, center.2), radius, material }
    }

    fn normal_part_exec(&self, p: &Surd, c: i16) -> (r: Surd)
        requires
            p@.parts_within(0x1_0000_0000_0000_0000),
        ensures
            r@ == self.normal_part(p@, c as int),
    {
        proof {
            lemma_mul_within(c as int, p.denom as int, 0x8000, 0x1_0000_0000_0000_0000);
            lemma_mul_within(p.denom as int, self.radius as int, 0x1_0000_0000_0000_0000, 0x1_0000);
        }
        Surd {
            rational: p.rational - c as i128 * p.denom,
            radical: p.radical,
            denom: p.denom * self.radius as i128,
        }
    }

    /// `(point - center) / radius`.
    fn normal_at(&self, p: &SurdVec3) -> (r: SurdVec3)
        requires
            p.x@.parts_within(0x1_0000_0000_0000_0000),
            p.y@.parts_within(0x1_0000_0000_0000_0000),
            p.z@.parts_within(0x1_0000_0000_0000_0000),
        ensures
            r@ == self.normal_spec(p@),
    {
        SurdVec3 {
            x: self.normal_part_exec(&p.x, self.center.x),
            y: self.normal_part_exec(&p.y, self.center.y),
            z: self.normal_part_exec(&p.z, self.center.z),
        }
    }
}

/// Whether the root `t` lies in `[t_min, t_max]` over the radicand `d`.
fn root_in_window(t: &Surd, d: i128, t_min: Ratio, t_max: Ratio) -> (b: bool)
    requires
        -0x1_8000_0000 <= t.rational <= 0x1_8000_0000,
        -1 <= t.radical <= 1,
        0 < t.denom <= 0xC000_0000,
        0 <= d <= 0x10_0000_0000_0000_0000,
        t_min.valid(),
        t_max.valid(),
    ensures
        b == t@.within(t_min@, t_max@, d as int),
{
    proof {
        lemma_mul_within(t_min.num as int, t.denom as int, 0x8000_0000, 0xC000_0000);
        lemma_mul_within(t.rational as int, t_min.den as int, 0x1_8000_0000, 0x1_0000);
        lemma_mul_within(t_max.num as int, t.denom as int, 0x8000_0000, 0xC000_0000);
        lemma_mul_within(t.rational as int, t_max.den as int, 0x1_8000_0000, 0x1_0000);
        lemma_mul_within(t.radical as int, t_min.den as int, 1, 0x1_0000);
        lemma_mul_within(t.radical as int, t_max.den as int, 1, 0x1_0000);
    }
    let above = le_scaled_sqrt_exec(
        t_min.num as i128 * t.denom - t.rational * t_min.den as i128,
        t.radical * t_min.den as i128,
        d,
    );
    let below = le_scaled_sqrt_exec(
        t.rational * t_max.den as i128 - t_max.num as i128 * t.denom,
        -(t.radical * t_max.den as i128),
        d,
    );
    above && below
}

impl<M> Hittable for Sphere<M> {
    type Material = M;

    open spec fn valid(&self) -> bool {
        self.radius > 0
    }

    open spec fn hit_spec(&self, ray: Ray, t_min: Ratio, t_max: Ratio) -> Option<(SurdValue, int)> {
        let d = self.discriminant(ray);
        if d < 0 {
            None
        } else if self.root(ray, true).within(t_min@, t_max@, d) {
            Some((self.root(ray, true), d))
        } else if self.root(ray, false).within(t_min@, t_max@, d) {
            Some((self.root(ray, false), d))
        } else {
            None
        }
    }

    open spec fn normal_spec(&self, p: SurdVec3Value) -> SurdVec3Value {
        SurdVec3Value {
            x: self.normal_part(p.x, self.center.x as int),
            y: self.normal_part(p.y, self.center.y as int),
            z: self.normal_part(p.z, self.center.z as int),
        }
    }

    open spec fn material_spec(&self) -> M {
        self.material
    }

    fn hit(&self, ray: &Ray, t_min: Ratio, t_max: Ratio) -> (r: Option<(HitRecord, &M)>) {
        let ocx = ray.origin.x as i128 - self.center.x as i128;
        let ocy = ray.origin.y as i128 - self.center.y as i128;
        let ocz = ray.origin.z as i128 - self.center.z as i128;
        let dx = ray.direction.x as i128;
        let dy = ray.direction.y as i128;
        let dz = ray.direction.z as i128;
        let rad = self.radius as i128;
        proof {
            lemma_mul_within(dx as int, dx as int, 0x8000, 0x8000);
            lemma_mul_within(dy as int, dy as int, 0x8000, 0x8000);
            lemma_mul_within(dz as int, dz as int, 0x8000, 0x8000);
            lemma_mul_within(dx as int, ocx as int, 0x8000, 0x1_0000);
            lemma_mul_within(dy as int, ocy as int, 0x8000, 0x1_0000);
            lemma_mul_within(dz as int, ocz as int, 0x8000, 0x1_0000);
            lemma_mul_within(ocx as int, ocx as int, 0x1_0000, 0x1_0000);
            lemma_mul_within(ocy as int, ocy as int, 0x1_0000, 0x1_0000);
            lemma_mul_within(ocz as int, ocz as int, 0x1_0000, 0x1_0000);
            lemma_mul_within(rad as int, rad as int, 0x1_0000, 0x1_0000);
        }
        let a = dx * dx + dy * dy + dz * dz;
        let half_b = dx * ocx + dy * ocy + dz * ocz;
        let c = ocx * ocx + ocy * ocy + ocz * ocz - rad * rad;
        proof {
            lemma_mul_within(half_b as int, half_b as int, 0x1_8000_0000, 0x1_8000_0000);
            lemma_mul_within(a as int, c as int, 0xC000_0000, 0x4_0000_0000);
        }
        let discriminant = half_b * half_b - a * c;
        if discriminant < 0 {
            return None;
        }
        let near = Surd { rational: -half_b, radical: -1, denom: a };
        let t = if root_in_window(&near, discriminant, t_min, t_max) {
            near
        } else {
            let far = Surd { rational: -half_b, radical: 1, denom: a };
            if root_in_window(&far, discriminant, t_min, t_max) {
                far
            } else {
                return None;
            }
        };
        proof {
            assert(t@ == self.root(*ray, t.radical == -1));
            lemma_hit_point_parts(ray.origin@, ray.direction@, half_b as int, a as int, t.radical as int);
        }
        let point = ray.at(&t);
        let normal = self.normal_at(&point);
        proof {
            lemma_normal_is_unit(self, *ray, t.radical == -1);
        }
        Some((HitRecord::new(t, &point, &normal, discriminant, ray), &self.material))
    }
}

/// The parts of a hit point are small enough to derive the normal from.
proof fn lemma_hit_point_parts(o: Coords, d: Coords, h: int, a: int, s: int)
    requires
        -0x8000 <= o.x < 0x8000,
        -0x8000 <= o.y < 0x8000,
        -0x8000 <= o.z < 0x8000,
        -0x8000 <= d.x < 0x8000,
        -0x8000 <= d.y < 0x8000,
        -0x8000 <= d.z < 0x8000,
        -0x1_8000_0000 <= h <= 0x1_8000_0000,
        0 < a <= 0xC000_0000,
        -1 <= s <= 1,
    ensures
        crate::geometry::along(o.x, d.x, SurdValue { rational: -h, radical: s, denom: a }).parts_within(
            0x1_0000_0000_0000_0000,
        ),
        crate::geometry::along(o.y, d.y, SurdValue { rational: -h, radical: s, denom: a }).parts_within(
            0x1_0000_0000_0000_0000,
        ),
        crate::geometry::along(o.z, d.z, SurdValue { rational: -h, radical: s, denom: a }).parts_within(
            0x1_0000_0000_0000_0000,
        ),
{
    lemma_mul_within(o.x, a, 0x8000, 0xC000_0000);
    lemma_mul_within(o.y, a, 0x8000, 0xC000_0000);
    lemma_mul_within(o.z, a, 0x8000, 0xC000_0000);
    lemma_mul_within(-h, d.x, 0x1_8000_0000, 0x8000);
    lemma_mul_within(-h, d.y, 0x1_8000_0000, 0x8000);
    lemma_mul_within(-h, d.z, 0x1_8000_0000, 0x8000);
    lemma_mul_within(s, d.x, 1, 0x8000);
    lemma_mul_within(s, d.y, 1, 0x8000);
    lemma_mul_within(s, d.z, 1, 0x8000);
}

/// The two identities behind a unit normal, for the offset `p` of the ray
/// origin from the center, the direction `d`, the radius `r` and a sign `s`.
proof fn lemma_unit_identities(p: Coords, d: Coords, r: int, s: int)
    requires
        s * s == 1,
    ensures
        ({
            let a = d.norm_sq();
            let h = d.dot(p);
            let u = Coords { x: p.x * a - h * d.x, y: p.y * a - h * d.y, z: p.z * a - h * d.z };
            u.x * (s * d.x) + u.y * (s * d.y) + u.z * (s * d.z) == 0
        }),
        ({
            let a = d.norm_sq();
            let h = d.dot(p);
            let disc = h * h - a * (p.norm_sq() - r * r);
            let u = Coords { x: p.x * a - h * d.x, y: p.y * a - h * d.y, z: p.z * a - h * d.z };
            (a * r) * (a * r) - u.norm_sq() - disc * ((s * d.x) * (s * d.x) + (s * d.y) * (s
                * d.y) + (s * d.z) * (s * d.z)) == 0
        }),
{
    let a = d.norm_sq();
    let h = d.dot(p);
    let n = p.norm_sq();
    let disc = h * h - a * (n - r * r);
    lemma_cross_part(p.x, d.x, a, h, s);
    lemma_cross_part(p.y, d.y, a, h, s);
    lemma_cross_part(p.z, d.z, a, h, s);
    lemma_sum_of_multiples(s * a, d.x * p.x, d.y * p.y, d.z * p.z);
    lemma_sum_of_multiples(s * h, d.x * d.x, d.y * d.y, d.z * d.z);
    assert((s * a) * h == (s * h) * a) by (nonlinear_arith);
    lemma_square_part(p.x, d.x, a, h);
    lemma_square_part(p.y, d.y, a, h);
    lemma_square_part(p.z, d.z, a, h);
    lemma_sum_of_multiples(a * a, p.x * p.x, p.y * p.y, p.z * p.z);
    lemma_sum_of_multiples(2 * a * h, d.x * p.x, d.y * p.y, d.z * p.z);
    lemma_sum_of_multiples(h * h, d.x * d.x, d.y * d.y, d.z * d.z);
    assert((s * d.x) * (s * d.x) + (s * d.y) * (s * d.y) + (s * d.z) * (s * d.z) == a)
        by (nonlinear_arith)
        requires
            s * s == 1,
            a == d.x * d.x + d.y * d.y + d.z * d.z,
    ;
    assert((a * r) * (a * r) - ((a * a) * n - (2 * a * h) * h + (h * h) * a) - disc * a == 0)
        by (nonlinear_arith)
        requires
            disc == h * h - a * (n - r * r),
    ;
}

proof fn lemma_sum_of_multiples(k: int, x: int, y: int, z: int) by (nonlinear_arith)
    ensures
        k * x + k * y + k * z == k * (x + y + z),
{
}

proof fn lemma_cross_part(p: int, d: int, a: int, h: int, s: int)
    ensures
        (p * a - h * d) * (s * d) == (s * a) * (d * p) - (s * h) * (d * d),
{
    lemma_mul_is_distributive_sub_other_way(s * d, p * a, h * d);
    assert((p * a) * (s * d) == (s * a) * (d * p)) by (nonlinear_arith);
    assert((h * d) * (s * d) == (s * h) * (d * d)) by (nonlinear_arith);
}

proof fn lemma_square_part(p: int, d: int, a: int, h: int)
    ensures
        (p * a - h * d) * (p * a - h * d) == (a * a) * (p * p) - (2 * a * h) * (d * p) + (h * h)
            * (d * d),
{
    let x = p * a;
    let y = h * d;
    lemma_mul_is_distributive_sub_other_way(x - y, x, y);
    lemma_mul_is_distributive_sub(x, x, y);
    lemma_mul_is_distributive_sub(y, x, y);
    assert(x * x == (a * a) * (p * p)) by (nonlinear_arith)
        requires
            x == p * a,
    ;
    assert(y * y == (h * h) * (d * d)) by (nonlinear_arith)
        requires
            y == h * d,
    ;
    assert(x * y == y * x) by (nonlinear_arith);
    assert(2 * (x * y) == (2 * a * h) * (d * p)) by (nonlinear_arith)
        requires
            x == p * a,
            y == h * d,
    ;
}

/// At either root of a ray that meets the sphere, `(point - center) / radius`
/// has length one.
pub proof fn lemma_normal_is_unit<M>(sphere: &Sphere<M>, ray: Ray, near: bool)
    requires
        sphere.valid(),
        ray.valid(),
        sphere.discriminant(ray) >= 0,
    ensures
        sphere.normal_spec(ray.at_spec(sphere.root(ray, near))).has_unit_length(
            sphere.discriminant(ray),
        ),
{
    let p = sphere.offset(ray);
    let d = ray.direction@;
    let o = ray.origin@;
    let cen = sphere.center@;
    let a = d.norm_sq();
    let h = d.dot(p);
    let r = sphere.radius as int;
    let s: int = if near { -1 } else { 1 };
    let t = sphere.root(ray, near);
    let nv = sphere.normal_spec(ray.at_spec(t));
    lemma_unit_identities(p, d, r, s);
    assert(o.x * a + (-h) * d.x - cen.x * a == p.x * a - h * d.x) by (nonlinear_arith)
        requires
            p.x == o.x - cen.x,
    ;
    assert(o.y * a + (-h) * d.y - cen.y * a == p.y * a - h * d.y) by (nonlinear_arith)
        requires
            p.y == o.y - cen.y,
    ;
    assert(o.z * a + (-h) * d.z - cen.z * a == p.z * a - h * d.z) by (nonlinear_arith)
        requires
            p.z == o.z - cen.z,
    ;
    assert(a * r > 0) by (nonlinear_arith)
        requires
            a > 0,
            r > 0,
    ;
    assert(nv.x.rational == p.x * a - h * d.x);
    assert(nv.y.rational == p.y * a - h * d.y);
    assert(nv.z.rational == p.z * a - h * d.z);
    assert(nv.x.radical == s * d.x);
}

} // verus!
