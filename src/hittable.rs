use vstd::prelude::*;

use crate::geometry::Ray;
use crate::surd::{Ratio, Surd, SurdValue, SurdVec3, SurdVec3Value};

verus! {

/// What a successful intersection reports. `t`, `point` and `normal` are
/// exact numbers over the radicand `discriminant`.
#[derive(Clone, Copy, Debug, PartialEq, Eq)]
pub struct HitRecord {
    pub t: Surd,
    pub point: SurdVec3,
    pub normal: SurdVec3,
    pub discriminant: i128,
    pub ray: Ray,
}

impl HitRecord {
    /// The record describes a hit on `ray` inside `[t_min, t_max]`: `t` lies in
    /// the window, `point` is `ray.at(t)` and `normal` has length one.
    pub open spec fn consistent(self, t_min: SurdValue, t_max: SurdValue) -> bool {
        &&& self.discriminant >= 0
        &&& self.t@.valid()
        &&& self.t@.within(t_min, t_max, self.discriminant as int)
        &&& self.point@ == self.ray.at_spec(self.t@)
        &&& self.normal@.has_unit_length(self.discriminant as int)
    }

    pub fn new(t: Surd, point: &SurdVec3, normal: &SurdVec3, discriminant: i128, ray: &Ray) -> (r:
        HitRecord)
        ensures
            r.t == t,
            r.point == *point,
            r.normal == *normal,
            r.discriminant == discriminant,
            r.ray == *ray,
    {
        HitRecord { t, point: *point, normal: *normal, discriminant, ray: *ray }
    }
}

/// A shape that can be tested for intersection with a ray inside a window of
/// ray parameters.
pub trait Hittable {
    /// The shading behaviour handed back with a hit.
    type Material;

    /// The shape is well formed.
    spec fn valid(&self) -> bool;

    /// The accepted ray parameter and the radicand it is expressed over, or
    /// `None` when the ray does not meet the shape inside the window.
    spec fn hit_spec(&self, ray: Ray, t_min: Ratio, t_max: Ratio) -> Option<(SurdValue, int)>;

    /// The outward unit normal at a point of the surface.
    spec fn normal_spec(&self, point: SurdVec3Value) -> SurdVec3Value;

    /// The shading behaviour that the shape owns.
    spec fn material_spec(&self) -> Self::Material;

    /// Tests `ray` against the shape for parameters in `[t_min, t_max]`.
    fn hit(&self, ray: &Ray, t_min: Ratio, t_max: Ratio) -> (r: Option<(HitRecord, &Self::Material)>)
        requires
            self.valid(),
            ray.valid(),
            t_min.valid(),
            t_max.valid(),
        ensures
            r is None <==> self.hit_spec(*ray, t_min, t_max) is None,
            r is Some ==> self.hit_spec(*ray, t_min, t_max) == Some(
                (r.unwrap().0.t@, r.unwrap().0.discriminant as int),
            ),
            r is Some ==> r.unwrap().0.ray == *ray,
            r is Some ==> r.unwrap().0.consistent(t_min@, t_max@),
            r is Some ==> r.unwrap().0.normal@ == self.normal_spec(r.unwrap().0.point@),
            r is Some ==> *r.unwrap().1 == self.material_spec(),
    ;
}

} // verus!
