//! Geometric primitives.
use vstd::prelude::*;
use crate::aabb::Aabb;
use crate::fixed::{self, ONE, add_spec, sub_spec, mul_spec, div_spec, sqrt_spec, sat, lemma_sqrt_spec, lemma_div_monotone, lemma_mul_self_nonneg};
use crate::hittable::HitRecord;
use crate::material::Material;
use crate::ray::Ray;
use crate::vec3::Vec3;

verus! {

/// A sphere whose center moves along `center` from time zero to time `ONE`.
#[derive(Debug)]
pub struct Sphere {
    pub center: Ray,
    pub radius: i64,
    pub material: Material,
}

impl Sphere {
    /// The center at `time`.
    pub open spec fn center_at(self, time: int) -> Vec3 {
        self.center.spec_at(time)
    }

    /// The two candidate parameters, smaller first, at which `ray` meets the
    /// sphere, from the quadratic with `h = d . (c - o)`; `None` where the
    /// discriminant `h^2 - a c` is negative.
    #[verifier::opaque]
    pub open spec fn roots(self, ray: Ray) -> Option<(int, int)> {
        let oc = self.center_at(ray.time as int).spec_sub(ray.origin);
        let a = ray.direction.spec_dot(ray.direction);
        let h = ray.direction.spec_dot(oc);
        let c = sub_spec(oc.spec_dot(oc), mul_spec(self.radius as int, self.radius as int));
        let discriminant = sub_spec(mul_spec(h, h), mul_spec(a, c));
        if discriminant < 0 {
            None
        } else {
            let sqrtd = sqrt_spec(discriminant);
            Some((div_spec(sub_spec(h, sqrtd), a), div_spec(add_spec(h, sqrtd), a)))
        }
    }

    /// The parameter of the hit: the first root that lies strictly between
    /// `tmin` and `tmax`, if any.
    pub open spec fn hit_t(self, ray: Ray, tmin: int, tmax: int) -> Option<int> {
        match self.roots(ray) {
            None => None,
            Some((r1, r2)) => if tmin < r1 < tmax {
                Some(r1)
            } else if tmin < r2 < tmax {
                Some(r2)
            } else {
                None
            },
        }
    }

    /// The normal pointing out of the sphere at `point`, for a ray cast at `time`.
    pub open spec fn outward_normal(self, point: Vec3, time: int) -> Vec3 {
        point.spec_sub(self.center_at(time)).spec_div(self.radius as int)
    }

    /// `rec` records the hit of `ray` on this sphere at parameter `t`.
    pub open spec fn records(self, rec: HitRecord, ray: Ray, t: int) -> bool {
        let point = ray.spec_at(t);
        rec.built_from(point, self.outward_normal(point, ray.time as int), ray, t, self.material)
    }

    /// The box of the sphere at `time`.
    pub open spec fn box_at(self, time: int) -> Aabb {
        let c = self.center_at(time);
        Aabb {
            min: c.spec_offset(sat(-(self.radius as int))),
            max: c.spec_offset(self.radius as int),
        }
    }

    /// The box that holds the sphere over its whole motion.
    pub open spec fn spec_aabb(self) -> Aabb {
        self.box_at(0).spec_join(self.box_at(ONE as int))
    }

    /// A sphere that stays at `center`.
    pub fn new(center: Vec3, radius: i64, material: Material) -> (r: Sphere)
        ensures
            r.center == (Ray { origin: center, direction: Vec3 { x: 0, y: 0, z: 0 }, time: 0 }),
            r.radius == radius,
            r.material == material,
    {
        Sphere { center: Ray::new(center, Vec3::zeros(), 0), radius, material }
    }

    /// A sphere that moves from `center1` at time zero to `center2` at time `ONE`.
    pub fn moving(center1: Vec3, center2: Vec3, radius: i64, material: Material) -> (r: Sphere)
        ensures
            r.center == (Ray { origin: center1, direction: center2.spec_sub(center1), time: 0 }),
            r.radius == radius,
            r.material == material,
    {
        Sphere { center: Ray::new(center1, center2.sub(&center1), 0), radius, material }
    }

    /// The nearest intersection of `ray` with the sphere strictly between
    /// `ray_tmin` and `ray_tmax`.
    pub fn hit<'a>(&'a self, ray: &Ray, ray_tmin: i64, ray_tmax: i64) -> (r: Option<HitRecord<'a>>)
        ensures
            match self.hit_t(*ray, ray_tmin as int, ray_tmax as int) {
                None => r.is_none(),
                Some(t) => r.is_some() && self.records(r.unwrap(), *ray, t),
            },
    {
        proof {
            reveal(Sphere::roots);
        }
        let current_center = self.center.at(ray.time);
        let oc = current_center.sub(&ray.origin);
        let a = ray.direction.length_squared();
        let h = ray.direction.dot(&oc);
        let c = fixed::sub(oc.length_squared(), fixed::mul(self.radius, self.radius));
        let discriminant = fixed::sub(fixed::mul(h, h), fixed::mul(a, c));
        if discriminant < 0 {
            return None;
        }
        let sqrtd = fixed::sqrt(discriminant);
        let mut root = fixed::div(fixed::sub(h, sqrtd), a);
        if root <= ray_tmin || ray_tmax <= root {
            root = fixed::div(fixed::add(h, sqrtd), a);
            if root <= ray_tmin || ray_tmax <= root {
                return None;
            }
        }
        let point = ray.at(root);
        let outward_normal = point.sub(&current_center).div(self.radius);
        Some(HitRecord::new(point, outward_normal, ray, root, &self.material))
    }

    /// The box that holds the sphere at time zero and at time `ONE`.
    pub fn aabb(&self) -> (r: Aabb)
        ensures
            r == self.spec_aabb(),
    {
        let c0 = self.center.at(0);
        let c1 = self.center.at(ONE);
        let neg_radius = fixed::neg(self.radius);
        let box1 = Aabb::new(c0.offset(neg_radius), c0.offset(self.radius));
        let box2 = Aabb::new(c1.offset(neg_radius), c1.offset(self.radius));
        box1.join(&box2)
    }
}

/// The smaller root comes first.
pub proof fn lemma_roots_ordered(s: Sphere, ray: Ray)
    ensures
        match s.roots(ray) {
            Some((r1, r2)) => r1 <= r2,
            None => true,
        },
{
    reveal(Sphere::roots);
    let d = ray.direction;
    let oc = s.center_at(ray.time as int).spec_sub(ray.origin);
    let a = d.spec_dot(d);
    let h = d.spec_dot(oc);
    let c = sub_spec(oc.spec_dot(oc), mul_spec(s.radius as int, s.radius as int));
    let discriminant = sub_spec(mul_spec(h, h), mul_spec(a, c));
    lemma_mul_self_nonneg(d.x as int);
    lemma_mul_self_nonneg(d.y as int);
    lemma_mul_self_nonneg(d.z as int);
    assert(a >= 0);
    let sqrtd = sqrt_spec(discriminant);
    lemma_sqrt_spec(discriminant);
    lemma_div_monotone(sub_spec(h, sqrtd), add_spec(h, sqrtd), a);
}

impl Sphere {
    /// The first root beyond `tmin`, if any.
    pub open spec fn first_root(self, ray: Ray, tmin: int) -> Option<int> {
        match self.roots(ray) {
            None => None,
            Some((r1, r2)) => if tmin < r1 {
                Some(r1)
            } else if tmin < r2 {
                Some(r2)
            } else {
                None
            },
        }
    }
}

/// The hit within `(tmin, x)` is the first root beyond `tmin`, where that
/// root comes before `x`.
pub proof fn lemma_hit_is_first_root(s: Sphere, ray: Ray, tmin: int, x: int)
    ensures
        s.hit_t(ray, tmin, x) == match s.first_root(ray, tmin) {
            Some(f) => if f < x {
                Some(f)
            } else {
                None
            },
            None => None,
        },
{
    lemma_roots_ordered(s, ray);
}

} // verus!
