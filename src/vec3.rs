//! Three-component vectors of fixed-point scalars.
use vstd::prelude::*;
use crate::fixed::{self, add_spec, sub_spec, mul_spec, div_spec, sqrt_spec, min_spec, max_spec, sat};

verus! {

/// A point, direction or color with fixed-point components.
#[derive(Clone, Copy, PartialEq, Eq, Structural, Debug)]
pub struct Vec3 {
    pub x: i64,
    pub y: i64,
    pub z: i64,
}

/// The vector whose components are the three given values.
pub open spec fn v3(x: int, y: int, z: int) -> Vec3 {
    Vec3 { x: x as i64, y: y as i64, z: z as i64 }
}

impl Vec3 {
    /// Component `axis` (0, 1 or 2).
    pub open spec fn at_axis(self, axis: int) -> i64 {
        if axis == 0 {
            self.x
        } else if axis == 1 {
            self.y
        } else {
            self.z
        }
    }

    pub open spec fn spec_add(self, o: Vec3) -> Vec3 {
        v3(add_spec(self.x as int, o.x as int), add_spec(self.y as int, o.y as int), add_spec(self.z as int, o.z as int))
    }

    pub open spec fn spec_sub(self, o: Vec3) -> Vec3 {
        v3(sub_spec(self.x as int, o.x as int), sub_spec(self.y as int, o.y as int), sub_spec(self.z as int, o.z as int))
    }

    pub open spec fn spec_neg(self) -> Vec3 {
        v3(sat(-(self.x as int)), sat(-(self.y as int)), sat(-(self.z as int)))
    }

    pub open spec fn spec_scale(self, t: int) -> Vec3 {
        v3(mul_spec(self.x as int, t), mul_spec(self.y as int, t), mul_spec(self.z as int, t))
    }

    pub open spec fn spec_mul(self, o: Vec3) -> Vec3 {
        v3(mul_spec(self.x as int, o.x as int), mul_spec(self.y as int, o.y as int), mul_spec(self.z as int, o.z as int))
    }

    pub open spec fn spec_div(self, t: int) -> Vec3 {
        v3(div_spec(self.x as int, t), div_spec(self.y as int, t), div_spec(self.z as int, t))
    }

    pub open spec fn spec_offset(self, t: int) -> Vec3 {
        v3(add_spec(self.x as int, t), add_spec(self.y as int, t), add_spec(self.z as int, t))
    }

    pub open spec fn spec_dot(self, o: Vec3) -> int {
        add_spec(
            add_spec(mul_spec(self.x as int, o.x as int), mul_spec(self.y as int, o.y as int)),
            mul_spec(self.z as int, o.z as int),
        )
    }

    pub open spec fn spec_cross(self, o: Vec3) -> Vec3 {
        v3(
            sub_spec(mul_spec(self.y as int, o.z as int), mul_spec(self.z as int, o.y as int)),
            sub_spec(mul_spec(self.z as int, o.x as int), mul_spec(self.x as int, o.z as int)),
            sub_spec(mul_spec(self.x as int, o.y as int), mul_spec(self.y as int, o.x as int)),
        )
    }

    pub open spec fn spec_min(self, o: Vec3) -> Vec3 {
        v3(min_spec(self.x as int, o.x as int), min_spec(self.y as int, o.y as int), min_spec(self.z as int, o.z as int))
    }

    pub open spec fn spec_max(self, o: Vec3) -> Vec3 {
        v3(max_spec(self.x as int, o.x as int), max_spec(self.y as int, o.y as int), max_spec(self.z as int, o.z as int))
    }

    pub open spec fn from_v_spec(v: int) -> Vec3 {
        v3(v, v, v)
    }

    /// The length: the square root of the squared length.
    pub open spec fn spec_length(self) -> int {
        sqrt_spec(self.spec_dot(self))
    }

    /// The vector divided by its length.
    pub open spec fn spec_normalize(self) -> Vec3 {
        self.spec_div(self.spec_length())
    }

    pub fn new(x: i64, y: i64, z: i64) -> (r: Vec3)
        ensures
            r == (Vec3 { x, y, z }),
    {
        Vec3 { x, y, z }
    }

    /// The vector with all three components equal to `v`.
    pub fn from_v(v: i64) -> (r: Vec3)
        ensures
            r == (Vec3 { x: v, y: v, z: v }),
    {
        Vec3 { x: v, y: v, z: v }
    }

    pub fn zeros() -> (r: Vec3)
        ensures
            r == (Vec3 { x: 0, y: 0, z: 0 }),
    {
        Vec3 { x: 0, y: 0, z: 0 }
    }

    pub fn ones() -> (r: Vec3)
        ensures
            r == (Vec3 { x: fixed::ONE, y: fixed::ONE, z: fixed::ONE }),
    {
        Vec3 { x: fixed::ONE, y: fixed::ONE, z: fixed::ONE }
    }

    /// Component `axis`, which is 0, 1 or 2.
    pub fn axis(&self, axis: usize) -> (r: i64)
        requires
            axis < 3,
        ensures
            r == self.at_axis(axis as int),
    {
        if axis == 0 {
            self.x
        } else if axis == 1 {
            self.y
        } else {
            self.z
        }
    }

    pub fn add(&self, o: &Vec3) -> (r: Vec3)
        ensures
            r == self.spec_add(*o),
    {
        Vec3 { x: fixed::add(self.x, o.x), y: fixed::add(self.y, o.y), z: fixed::add(self.z, o.z) }
    }

    pub fn sub(&self, o: &Vec3) -> (r: Vec3)
        ensures
            r == self.spec_sub(*o),
    {
        Vec3 { x: fixed::sub(self.x, o.x), y: fixed::sub(self.y, o.y), z: fixed::sub(self.z, o.z) }
    }

    pub fn neg(&self) -> (r: Vec3)
        ensures
            r == self.spec_neg(),
    {
        Vec3 { x: fixed::neg(self.x), y: fixed::neg(self.y), z: fixed::neg(self.z) }
    }

    /// Each component multiplied by the scalar `t`.
    pub fn scale(&self, t: i64) -> (r: Vec3)
        ensures
            r == self.spec_scale(t as int),
    {
        Vec3 { x: fixed::mul(self.x, t), y: fixed::mul(self.y, t), z: fixed::mul(self.z, t) }
    }

    /// The componentwise product.
    pub fn mul(&self, o: &Vec3) -> (r: Vec3)
        ensures
            r == self.spec_mul(*o),
    {
        Vec3 { x: fixed::mul(self.x, o.x), y: fixed::mul(self.y, o.y), z: fixed::mul(self.z, o.z) }
    }

    /// Each component divided by the scalar `t`.
    pub fn div(&self, t: i64) -> (r: Vec3)
        ensures
            r == self.spec_div(t as int),
    {
        Vec3 { x: fixed::div(self.x, t), y: fixed::div(self.y, t), z: fixed::div(self.z, t) }
    }

    /// The scalar `t` added to each component.
    pub fn offset(&self, t: i64) -> (r: Vec3)
        ensures
            r == self.spec_offset(t as int),
    {
        Vec3 { x: fixed::add(self.x, t), y: fixed::add(self.y, t), z: fixed::add(self.z, t) }
    }

    pub fn dot(&self, o: &Vec3) -> (r: i64)
        ensures
            r == self.spec_dot(*o),
    {
        fixed::add(fixed::add(fixed::mul(self.x, o.x), fixed::mul(self.y, o.y)), fixed::mul(self.z, o.z))
    }

    pub fn cross(&self, o: &Vec3) -> (r: Vec3)
        ensures
            r == self.spec_cross(*o),
    {
        Vec3 {
            x: fixed::sub(fixed::mul(self.y, o.z), fixed::mul(self.z, o.y)),
            y: fixed::sub(fixed::mul(self.z, o.x), fixed::mul(self.x, o.z)),
            z: fixed::sub(fixed::mul(self.x, o.y), fixed::mul(self.y, o.x)),
        }
    }

    pub fn length_squared(&self) -> (r: i64)
        ensures
            r == self.spec_dot(*self),
    {
        self.dot(self)
    }

    pub fn length(&self) -> (r: i64)
        ensures
            r == self.spec_length(),
    {
        fixed::sqrt(self.length_squared())
    }

    /// The vector divided by its length.
    pub fn normalize(&self) -> (r: Vec3)
        ensures
            r == self.spec_normalize(),
    {
        let len = self.length();
        self.div(len)
    }

    /// The componentwise minimum.
    pub fn min(&self, o: &Vec3) -> (r: Vec3)
        ensures
            r == self.spec_min(*o),
    {
        Vec3 { x: fixed::min(self.x, o.x), y: fixed::min(self.y, o.y), z: fixed::min(self.z, o.z) }
    }

    /// The componentwise maximum.
    pub fn max(&self, o: &Vec3) -> (r: Vec3)
        ensures
            r == self.spec_max(*o),
    {
        Vec3 { x: fixed::max(self.x, o.x), y: fixed::max(self.y, o.y), z: fixed::max(self.z, o.z) }
    }
}

} // verus!
