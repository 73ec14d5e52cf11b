//! Axis-aligned bounding boxes and the slab test.
use vstd::prelude::*;
use crate::fixed::{self, LIMIT, sub_spec, div_spec, min_spec, max_spec, lemma_div_monotone, lemma_div_antitone};
use crate::ray::Ray;
use crate::vec3::Vec3;

verus! {

/// The box from corner `min` to corner `max`.
#[derive(Clone, Copy, PartialEq, Eq, Structural, Debug)]
pub struct Aabb {
    pub min: Vec3,
    pub max: Vec3,
}

/// The parameter interval after clipping `(lo, hi)` against the slab of one
/// axis, or `None` when it becomes empty.
#[verifier::opaque]
pub open spec fn slab_step(b: Aabb, ray: Ray, axis: int, lo: int, hi: int) -> Option<(int, int)> {
    let d = ray.direction.at_axis(axis) as int;
    let o = ray.origin.at_axis(axis) as int;
    let bmin = b.min.at_axis(axis) as int;
    let bmax = b.max.at_axis(axis) as int;
    if d == 0 {
        if o < bmin || o > bmax || hi <= lo {
            None
        } else {
            Some((lo, hi))
        }
    } else {
        let t0 = div_spec(sub_spec(bmin, o), d);
        let t1 = div_spec(sub_spec(bmax, o), d);
        let near = if d < 0 { t1 } else { t0 };
        let far = if d < 0 { t0 } else { t1 };
        let lo2 = max_spec(near, lo);
        let hi2 = min_spec(far, hi);
        if hi2 <= lo2 {
            None
        } else {
            Some((lo2, hi2))
        }
    }
}

/// The slab test from `axis` on: the ray meets the box for some parameter
/// strictly between `lo` and `hi`, per the clipping of every remaining axis.
pub open spec fn slabs_from(b: Aabb, ray: Ray, axis: int, lo: int, hi: int) -> bool
    decreases 3 - axis,
{
    if axis >= 3 {
        true
    } else {
        match slab_step(b, ray, axis, lo, hi) {
            None => false,
            Some((l, h)) => slabs_from(b, ray, axis + 1, l, h),
        }
    }
}

impl Aabb {
    /// `inner` lies within this box on every axis.
    pub open spec fn contains_box(self, inner: Aabb) -> bool {
        &&& self.min.x <= inner.min.x && inner.max.x <= self.max.x
        &&& self.min.y <= inner.min.y && inner.max.y <= self.max.y
        &&& self.min.z <= inner.min.z && inner.max.z <= self.max.z
    }

    /// The smallest box that holds both.
    pub open spec fn spec_join(self, o: Aabb) -> Aabb {
        Aabb { min: self.min.spec_min(o.min), max: self.max.spec_max(o.max) }
    }

    /// The box's size along `axis`.
    pub open spec fn extent(self, axis: int) -> int {
        sub_spec(self.max.at_axis(axis) as int, self.min.at_axis(axis) as int)
    }

    /// The box is empty or its corners lie within the saturation range.
    pub open spec fn in_range(self) -> bool {
        &&& -LIMIT <= self.min.x <= LIMIT && -LIMIT <= self.min.y <= LIMIT && -LIMIT <= self.min.z <= LIMIT
        &&& -LIMIT <= self.max.x <= LIMIT && -LIMIT <= self.max.y <= LIMIT && -LIMIT <= self.max.z <= LIMIT
    }

    pub fn new(min: Vec3, max: Vec3) -> (r: Aabb)
        ensures
            r == (Aabb { min, max }),
    {
        Aabb { min, max }
    }

    /// The empty box: its `min` is `LIMIT` and its `max` is `-LIMIT` on
    /// every axis, so that it is the identity of `join`.
    pub fn empty() -> (r: Aabb)
        ensures
            r.min == Vec3::from_v_spec(LIMIT as int),
            r.max == Vec3::from_v_spec(-LIMIT),
    {
        Aabb { min: Vec3::from_v(LIMIT), max: Vec3::from_v(-LIMIT) }
    }

    /// The smallest box that holds both boxes.
    pub fn join(&self, other: &Aabb) -> (r: Aabb)
        ensures
            r == self.spec_join(*other),
            r.contains_box(*self),
            r.contains_box(*other),
    {
        Aabb { min: self.min.min(&other.min), max: self.max.max(&other.max) }
    }

    /// The axis along which the box is longest; of equal extents the last wins.
    pub fn longest_axis(&self) -> (r: usize)
        ensures
            r < 3,
            forall|j: int| 0 <= j < 3 ==> self.extent(j) <= self.extent(r as int),
            forall|j: int| r < j < 3 ==> self.extent(j) < self.extent(r as int),
    {
        let mut best: usize = 0;
        let mut best_extent = fixed::sub(self.max.x, self.min.x);
        let mut axis: usize = 1;
        while axis < 3
            invariant
                1 <= axis <= 3,
                best < axis,
                best_extent == self.extent(best as int),
                forall|j: int| 0 <= j < axis ==> self.extent(j) <= self.extent(best as int),
                forall|j: int| best < j < axis ==> self.extent(j) < self.extent(best as int),
            decreases 3 - axis,
        {
            let e = fixed::sub(self.max.axis(axis), self.min.axis(axis));
            if e >= best_extent {
                best = axis;
                best_extent = e;
            }
            axis += 1;
        }
        best
    }

    /// The slab test: the ray meets the box for a parameter strictly between
    /// `ray_tmin` and `ray_tmax`. A direction component of zero is handled
    /// on its own: the ray then meets the slab only if its origin lies in it.
    pub fn hit(&self, ray: &Ray, ray_tmin: i64, ray_tmax: i64) -> (r: bool)
        ensures
            r == slabs_from(*self, *ray, 0, ray_tmin as int, ray_tmax as int),
    {
        let mut lo = ray_tmin;
        let mut hi = ray_tmax;
        let mut axis: usize = 0;
        while axis < 3
            invariant
                axis <= 3,
                slabs_from(*self, *ray, 0, ray_tmin as int, ray_tmax as int) == slabs_from(
                    *self,
                    *ray,
                    axis as int,
                    lo as int,
                    hi as int,
                ),
            decreases 3 - axis,
        {
            proof {
                reveal(slab_step);
            }
            let d = ray.direction.axis(axis);
            let o = ray.origin.axis(axis);
            let bmin = self.min.axis(axis);
            let bmax = self.max.axis(axis);
            if d == 0 {
                if o < bmin || o > bmax || hi <= lo {
                    return false;
                }
            } else {
                let t0 = fixed::div(fixed::sub(bmin, o), d);
                let t1 = fixed::div(fixed::sub(bmax, o), d);
                let near = if d < 0 { t1 } else { t0 };
                let far = if d < 0 { t0 } else { t1 };
                lo = fixed::max(near, lo);
                hi = fixed::min(far, hi);
                if hi <= lo {
                    return false;
                }
            }
            axis += 1;
        }
        true
    }
}

/// Joining with the empty box leaves a box within the saturation range unchanged.
pub proof fn lemma_join_empty(b: Aabb)
    requires
        b.in_range(),
    ensures
        (Aabb { min: Vec3::from_v_spec(LIMIT as int), max: Vec3::from_v_spec(-LIMIT) }).spec_join(b)
            == b,
{
}

/// Containment of boxes is transitive.
pub proof fn lemma_contains_trans(a: Aabb, b: Aabb, c: Aabb)
    requires
        a.contains_box(b),
        b.contains_box(c),
    ensures
        a.contains_box(c),
{
}

/// The union of two boxes holds each of them.
pub proof fn lemma_join_contains(a: Aabb, b: Aabb)
    ensures
        a.spec_join(b).contains_box(a),
        a.spec_join(b).contains_box(b),
{
}

/// The slab test accepts for a box that holds `b`, and for a wider
/// interval, whatever it accepts for `b`.
pub proof fn lemma_slabs_widen(
    b: Aabb,
    big: Aabb,
    ray: Ray,
    axis: int,
    lo: int,
    hi: int,
    big_lo: int,
    big_hi: int,
)
    requires
        big.contains_box(b),
        big_lo <= lo,
        hi <= big_hi,
        0 <= axis,
        slabs_from(b, ray, axis, lo, hi),
    ensures
        slabs_from(big, ray, axis, big_lo, big_hi),
    decreases 3 - axis,
{
    reveal(slab_step);
    if axis < 3 {
        let d = ray.direction.at_axis(axis) as int;
        let o = ray.origin.at_axis(axis) as int;
        let bmin = b.min.at_axis(axis) as int;
        let bmax = b.max.at_axis(axis) as int;
        let cmin = big.min.at_axis(axis) as int;
        let cmax = big.max.at_axis(axis) as int;
        assert(cmin <= bmin && bmax <= cmax);
        if d > 0 {
            lemma_div_monotone(sub_spec(cmin, o), sub_spec(bmin, o), d);
            lemma_div_monotone(sub_spec(bmax, o), sub_spec(cmax, o), d);
        } else if d < 0 {
            lemma_div_antitone(sub_spec(bmax, o), sub_spec(cmax, o), d);
            lemma_div_antitone(sub_spec(cmin, o), sub_spec(bmin, o), d);
        }
        let (l, h) = slab_step(b, ray, axis, lo, hi).unwrap();
        let (bl, bh) = slab_step(big, ray, axis, big_lo, big_hi).unwrap();
        lemma_slabs_widen(b, big, ray, axis + 1, l, h, bl, bh);
    }
}

} // verus!
