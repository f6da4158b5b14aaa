use vstd::prelude::*;

use crate::arith::lemma_mul_within;
use crate::surd::{Surd, SurdValue, SurdVec3, SurdVec3Value};

verus! {

/// A vector of three mathematical integers.
pub struct Coords {
    pub x: int,
    pub y: int,
    pub z: int,
}

impl Coords {
    pub open spec fn minus(self, o: Coords) -> Coords {
        Coords { x: self.x - o.x, y: self.y - o.y, z: self.z - o.z }
    }

    pub open spec fn dot(self, o: Coords) -> int {
        self.x * o.x + self.y * o.y + self.z * o.z
    }

    pub open spec fn cross(self, o: Coords) -> Coords {
        Coords {
            x: self.y * o.z - self.z * o.y,
            y: self.z * o.x - self.x * o.z,
            z: self.x * o.y - self.y * o.x,
        }
    }

    pub open spec fn norm_sq(self) -> int {
        self.dot(self)
    }
}

/// A point or direction on the integer grid.
#[derive(Clone, Copy, Debug, PartialEq, Eq)]
pub struct Vec3 {
    pub x: i16,
    pub y: i16,
    pub z: i16,
}

impl View for Vec3 {
    type V = Coords;

    open spec fn view(&self) -> Coords {
        Coords { x: self.x as int, y: self.y as int, z: self.z as int }
    }
}

impl Vec3 {
    pub fn new(x: i16, y: i16, z: i16) -> (r: Vec3)
        ensures
            r.x == x,
            r.y == y,
            r.z == z,
    {
        Vec3 { x, y, z }
    }
}

/// The coordinate `o + t * d` of a point on a ray, as an exact number over the
/// radicand of `t`.
pub open spec fn along(o: int, d: int, t: SurdValue) -> SurdValue {
    SurdValue { rational: o * t.denom + t.rational * d, radical: t.radical * d, denom: t.denom }
}

/// The parts bound that `Ray::at` accepts for a parameter.
pub const PARAM_PART_LIMIT: i128 = 0x10_0000_0000_0000_0000_0000_0000;

/// A half-line `origin + t * direction`.
#[derive(Clone, Copy, Debug, PartialEq, Eq)]
pub struct Ray {
    pub origin: Vec3,
    pub direction: Vec3,
}

impl Ray {
    /// The direction is not the zero vector.
    pub open spec fn valid(self) -> bool {
        self.direction@.norm_sq() > 0
    }

    /// The point at parameter `t`.
    pub open spec fn at_spec(self, t: SurdValue) -> SurdVec3Value {
        SurdVec3Value {
            x: along(self.origin.x as int, self.direction.x as int, t),
            y: along(self.origin.y as int, self.direction.y as int, t),
            z: along(self.origin.z as int, self.direction.z as int, t),
        }
    }

    pub fn new(origin: Vec3, direction: Vec3) -> (r: Ray)
        ensures
            r.origin == origin,
            r.direction == direction,
    {
        Ray { origin, direction }
    }

    /// The point `origin + t * direction`.
    pub fn at(&self, t: &Surd) -> (r: SurdVec3)
        requires
            t@.parts_within(PARAM_PART_LIMIT as int),
        ensures
            r@ == self.at_spec(t@),
    {
        SurdVec3 {
            x: along_exec(self.origin.x, self.direction.x, t),
            y: along_exec(self.origin.y, self.direction.y, t),
            z: along_exec(self.origin.z, self.direction.z, t),
        }
    }
}

fn along_exec(o: i16, d: i16, t: &Surd) -> (r: Surd)
    requires
        t@.parts_within(PARAM_PART_LIMIT as int),
    ensures
        r@ == along(o as int, d as int, t@),
{
    proof {
        let lim = PARAM_PART_LIMIT as int;
        lemma_mul_within(o as int, t.denom as int, 0x8000, lim);
        lemma_mul_within(t.rational as int, d as int, lim, 0x8000);
        lemma_mul_within(t.radical as int, d as int, lim, 0x8000);
    }
    Surd {
        rational: o as i128 * t.denom + t.rational * d as i128,
        radical: t.radical * d as i128,
        denom: t.denom,
    }
}

} // verus!
