use vstd::prelude::*;

use crate::arith::lemma_mul_within;

verus! {

/// `l <= r * sqrt(d)` for `d >= 0`, decided over the integers: when the right
/// side is not negative it suffices that `l` is not positive or that the
/// squares compare; when it is negative, `l` must be at most it in magnitude
/// on the negative side.
pub open spec fn le_scaled_sqrt(l: int, r: int, d: int) -> bool {
    if r >= 0 {
        l <= 0 || l * l <= r * r * d
    } else {
        l <= 0 && r * r * d <= l * l
    }
}

/// `l == r * sqrt(d)` for `d >= 0`.
pub open spec fn eq_scaled_sqrt(l: int, r: int, d: int) -> bool {
    le_scaled_sqrt(l, r, d) && le_scaled_sqrt(-l, -r, d)
}

/// The mathematical value `(rational + radical * sqrt(d)) / denom`, where the
/// radicand `d >= 0` is supplied by the context and `denom > 0`.
pub struct SurdValue {
    pub rational: int,
    pub radical: int,
    pub denom: int,
}

impl SurdValue {
    /// The value is well defined: its denominator is positive.
    pub open spec fn valid(self) -> bool {
        self.denom > 0
    }

    /// `self <= other` as real numbers, both over the radicand `d`.
    pub open spec fn le(self, other: SurdValue, d: int) -> bool {
        le_scaled_sqrt(
            self.rational * other.denom - other.rational * self.denom,
            other.radical * self.denom - self.radical * other.denom,
            d,
        )
    }

    /// `self` and `other` denote the same real number over the radicand `d`.
    pub open spec fn same_value(self, other: SurdValue, d: int) -> bool {
        self.le(other, d) && other.le(self, d)
    }

    /// `lo <= self <= hi` over the radicand `d`.
    pub open spec fn within(self, lo: SurdValue, hi: SurdValue, d: int) -> bool {
        lo.le(self, d) && self.le(hi, d)
    }

    /// Every part lies in `[-limit, limit]`.
    pub open spec fn parts_within(self, limit: int) -> bool {
        -limit <= self.rational <= limit && -limit <= self.radical <= limit && -limit
            <= self.denom <= limit
    }
}

/// A vector of three exact values over a common radicand.
pub struct SurdVec3Value {
    pub x: SurdValue,
    pub y: SurdValue,
    pub z: SurdValue,
}

impl SurdVec3Value {
    /// The vector has length one over the radicand `d`. With the common
    /// denominator `w` and parts `u + v * sqrt(d)`, the squared length is one
    /// exactly when `w^2 - sum(u^2) - d * sum(v^2) == 2 * sum(u * v) * sqrt(d)`.
    pub open spec fn has_unit_length(self, d: int) -> bool {
        let w = self.x.denom;
        let su = self.x.rational * self.x.rational + self.y.rational * self.y.rational
            + self.z.rational * self.z.rational;
        let sv = self.x.radical * self.x.radical + self.y.radical * self.y.radical
            + self.z.radical * self.z.radical;
        let suv = self.x.rational * self.x.radical + self.y.rational * self.y.radical
            + self.z.rational * self.z.radical;
        &&& w != 0
        &&& self.y.denom == w
        &&& self.z.denom == w
        &&& eq_scaled_sqrt(w * w - su - d * sv, 2 * suv, d)
    }
}

/// An exact number `(rational + radical * sqrt(d)) / denom`; the radicand `d`
/// is kept by whoever holds the number (see `HitRecord`).
#[derive(Clone, Copy, Debug, PartialEq, Eq)]
pub struct Surd {
    pub rational: i128,
    pub radical: i128,
    pub denom: i128,
}

impl View for Surd {
    type V = SurdValue;

    open spec fn view(&self) -> SurdValue {
        SurdValue {
            rational: self.rational as int,
            radical: self.radical as int,
            denom: self.denom as int,
        }
    }
}

/// Three exact numbers over a common radicand.
#[derive(Clone, Copy, Debug, PartialEq, Eq)]
pub struct SurdVec3 {
    pub x: Surd,
    pub y: Surd,
    pub z: Surd,
}

impl View for SurdVec3 {
    type V = SurdVec3Value;

    open spec fn view(&self) -> SurdVec3Value {
        SurdVec3Value { x: self.x@, y: self.y@, z: self.z@ }
    }
}

/// A rational ray parameter `num / den`, used for the bounds of a window.
#[derive(Clone, Copy, Debug, PartialEq, Eq)]
pub struct Ratio {
    pub num: i32,
    pub den: u16,
}

impl View for Ratio {
    type V = SurdValue;

    open spec fn view(&self) -> SurdValue {
        SurdValue { rational: self.num as int, radical: 0, denom: self.den as int }
    }
}

impl Ratio {
    /// The denominator is positive.
    pub open spec fn valid(self) -> bool {
        self.den > 0
    }

    /// The number `num / den`.
    pub fn new(num: i32, den: u16) -> (r: Ratio)
        requires
            den > 0,
        ensures
            r.num == num,
            r.den == den,
            r.valid(),
    {
        Ratio { num, den }
    }

    /// The whole number `n`.
    pub fn whole(n: i32) -> (r: Ratio)
        ensures
            r.num == n,
            r.den == 1,
            r.valid(),
    {
        Ratio { num: n, den: 1 }
    }
}

/// Decides `l <= r * sqrt(d)` without overflow for the magnitudes that ray
/// parameters against window bounds produce.
pub fn le_scaled_sqrt_exec(l: i128, r: i128, d: i128) -> (b: bool)
    requires
        -0x8000_0000_0000_0000 <= l <= 0x8000_0000_0000_0000,
        -0x1_0000 <= r <= 0x1_0000,
        0 <= d <= 0x10_0000_0000_0000_0000,
    ensures
        b == le_scaled_sqrt(l as int, r as int, d as int),
{
    proof {
        lemma_mul_within(l as int, l as int, 0x8000_0000_0000_0000, 0x8000_0000_0000_0000);
        lemma_mul_within(r as int, r as int, 0x1_0000, 0x1_0000);
        lemma_mul_within((r * r) as int, d as int, 0x1_0000_0000, 0x10_0000_0000_0000_0000);
    }
    let l2 = l * l;
    let r2d = r * r * d;
    if r >= 0 {
        l <= 0 || l2 <= r2d
    } else {
        l <= 0 && r2d <= l2
    }
}

} // verus!
