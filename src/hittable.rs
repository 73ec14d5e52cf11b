//! The intersection protocol: hit records, and the scene as a closed set of variants.
use vstd::prelude::*;
use crate::aabb::Aabb;
use crate::bvh::BVHNode;
use crate::fixed::LIMIT;
use crate::material::Material;
use crate::objects::{Sphere, lemma_hit_is_first_root};
use crate::ray::Ray;
use crate::vec3::Vec3;

verus! {

/// A ray's intersection with a surface.
pub struct HitRecord<'a> {
    pub point: Vec3,
    /// The surface normal, turned to face against the incoming ray.
    pub normal: Vec3,
    pub t: i64,
    pub uv: (i64, i64),
    /// The ray struck the outward-facing side.
    pub front_face: bool,
    pub material: &'a Material,
}

/// The ray strikes the side that `outward_normal` points out of.
pub open spec fn faces_front(ray: Ray, outward_normal: Vec3) -> bool {
    ray.direction.spec_dot(outward_normal) < 0
}

impl<'a> HitRecord<'a> {
    /// The record holds the given values, with the normal turned against the
    /// ray and `uv` at the origin.
    pub open spec fn built_from(
        self,
        point: Vec3,
        outward_normal: Vec3,
        ray: Ray,
        t: int,
        material: Material,
    ) -> bool {
        let front = faces_front(ray, outward_normal);
        &&& self.point == point
        &&& self.t == t
        &&& self.uv == (0i64, 0i64)
        &&& self.front_face == front
        &&& self.normal == if front {
            outward_normal
        } else {
            outward_normal.spec_neg()
        }
        &&& *self.material == material
    }

    pub fn new(
        point: Vec3,
        outward_normal: Vec3,
        ray: &Ray,
        t: i64,
        material: &'a Material,
    ) -> (r: HitRecord<'a>)
        ensures
            r.built_from(point, outward_normal, *ray, t as int, *material),
    {
        let front_face = ray.direction.dot(&outward_normal) < 0;
        let normal = if front_face {
            outward_normal
        } else {
            outward_normal.neg()
        };
        HitRecord { point, normal, t, uv: (0, 0), front_face, material }
    }
}

/// The linear scan over `s`: each sphere in turn is searched up to the
/// nearest hit found so far, and a later hit replaces an earlier one. The
/// sphere hit and the parameter, or `None`.
pub open spec fn scan(s: Seq<Sphere>, ray: Ray, tmin: int, tmax: int) -> Option<(Sphere, int)>
    decreases s.len(),
{
    if s.len() == 0 {
        None
    } else {
        let prev = scan(s.drop_last(), ray, tmin, tmax);
        let limit = match prev {
            Some((_, t)) => t,
            None => tmax,
        };
        match s.last().hit_t(ray, tmin, limit) {
            Some(t) => Some((s.last(), t)),
            None => prev,
        }
    }
}

/// The first root of `x` beyond `tmin` comes before `limit`.
pub open spec fn first_below(x: Sphere, ray: Ray, tmin: int, limit: int) -> bool {
    match x.first_root(ray, tmin) {
        Some(f) => f < limit,
        None => false,
    }
}

/// What the linear scan finds: nothing, where no sphere has a root beyond
/// `tmin` and before `tmax`; otherwise a sphere of the sequence whose first
/// root beyond `tmin` is the hit, before `tmax`, and before which no sphere
/// has such a root.
pub proof fn lemma_scan_finds_nearest(s: Seq<Sphere>, ray: Ray, tmin: int, tmax: int)
    ensures
        match scan(s, ray, tmin, tmax) {
            None => forall|i: int| 0 <= i < s.len() ==> !first_below(#[trigger] s[i], ray, tmin, tmax),
            Some((x, t)) => {
                &&& s.contains(x)
                &&& x.first_root(ray, tmin) == Some(t)
                &&& t < tmax
                &&& forall|i: int| 0 <= i < s.len() ==> !first_below(#[trigger] s[i], ray, tmin, t)
            },
        },
    decreases s.len(),
{
    if s.len() > 0 {
        let init = s.drop_last();
        let x = s.last();
        lemma_scan_finds_nearest(init, ray, tmin, tmax);
        let prev = scan(init, ray, tmin, tmax);
        let limit = match prev {
            Some((_, t)) => t,
            None => tmax,
        };
        lemma_hit_is_first_root(x, ray, tmin, limit);
        assert(s[s.len() - 1] == x);
        assert(limit <= tmax);
        match x.hit_t(ray, tmin, limit) {
            Some(f) => {
                assert(scan(s, ray, tmin, tmax) == Some((x, f)));
                assert forall|i: int| 0 <= i < s.len() implies !first_below(#[trigger] s[i], ray, tmin, f) by {
                    if i < s.len() - 1 {
                        assert(s[i] == init[i]);
                        assert(!first_below(init[i], ray, tmin, limit));
                    }
                }
            },
            None => {
                assert(scan(s, ray, tmin, tmax) == prev);
                assert(!first_below(x, ray, tmin, limit));
                match prev {
                    Some((y, t)) => {
                        let k = choose|k: int| 0 <= k < init.len() && init[k] == y;
                        assert(s[k] == y);
                        assert forall|i: int| 0 <= i < s.len() implies !first_below(#[trigger] s[i], ray, tmin, t) by {
                            if i < s.len() - 1 {
                                assert(s[i] == init[i]);
                            }
                        }
                    },
                    None => {
                        assert forall|i: int| 0 <= i < s.len() implies !first_below(#[trigger] s[i], ray, tmin, tmax) by {
                            if i < s.len() - 1 {
                                assert(s[i] == init[i]);
                            }
                        }
                    },
                }
            },
        }
    }
}

/// The scans of two orderings of the same spheres find a hit alike, and at
/// the same parameter.
pub proof fn lemma_scan_order_free(s: Seq<Sphere>, p: Seq<Sphere>, ray: Ray, tmin: int, tmax: int)
    requires
        s.to_multiset() == p.to_multiset(),
    ensures
        scan(s, ray, tmin, tmax).is_some() == scan(p, ray, tmin, tmax).is_some(),
        match (scan(s, ray, tmin, tmax), scan(p, ray, tmin, tmax)) {
            (Some((_, t1)), Some((_, t2))) => t1 == t2,
            _ => true,
        },
{
    broadcast use vstd::seq_lib::group_to_multiset_ensures;

    lemma_scan_finds_nearest(s, ray, tmin, tmax);
    lemma_scan_finds_nearest(p, ray, tmin, tmax);
    lemma_scan_order_half(s, p, ray, tmin, tmax);
    lemma_scan_order_half(p, s, ray, tmin, tmax);
}

/// A hit that the scan of `s` finds bounds what the scan of `p` finds.
proof fn lemma_scan_order_half(s: Seq<Sphere>, p: Seq<Sphere>, ray: Ray, tmin: int, tmax: int)
    requires
        s.to_multiset() == p.to_multiset(),
    ensures
        match scan(s, ray, tmin, tmax) {
            Some((_, t1)) => match scan(p, ray, tmin, tmax) {
                Some((_, t2)) => t2 <= t1,
                None => false,
            },
            None => true,
        },
{
    broadcast use vstd::seq_lib::group_to_multiset_ensures;

    lemma_scan_finds_nearest(s, ray, tmin, tmax);
    lemma_scan_finds_nearest(p, ray, tmin, tmax);
    if let Some((x, t1)) = scan(s, ray, tmin, tmax) {
        assert(s.to_multiset().count(x) > 0);
        assert(p.contains(x));
        let k = choose|k: int| 0 <= k < p.len() && p[k] == x;
        assert(first_below(p[k], ray, tmin, tmax));
        if let Some((y, t2)) = scan(p, ray, tmin, tmax) {
            assert(!first_below(p[k], ray, tmin, t2));
        }
    }
}

/// The empty box, the identity of `join` on boxes within the saturation range.
pub open spec fn empty_box() -> Aabb {
    Aabb { min: Vec3::from_v_spec(LIMIT as int), max: Vec3::from_v_spec(-LIMIT) }
}

/// The union of the boxes of the spheres, starting from the empty box.
pub open spec fn boxes_union(s: Seq<Sphere>) -> Aabb
    decreases s.len(),
{
    if s.len() == 0 {
        empty_box()
    } else {
        boxes_union(s.drop_last()).spec_join(s.last().spec_aabb())
    }
}

/// A flat collection of spheres with the union of their boxes.
#[derive(Debug)]
pub struct HittableList {
    pub hittables: Vec<Sphere>,
    pub aabb: Aabb,
}

impl HittableList {
    /// The cached box is the union of the spheres' boxes.
    pub open spec fn wf(self) -> bool {
        self.aabb == boxes_union(self.hittables@)
    }

    pub open spec fn spec_aabb(self) -> Aabb {
        self.aabb
    }

    pub fn new(hittables: Vec<Sphere>) -> (r: HittableList)
        ensures
            r.hittables@ == hittables@,
            r.wf(),
    {
        let mut aabb = Aabb::empty();
        let mut i: usize = 0;
        while i < hittables.len()
            invariant
                i <= hittables@.len(),
                aabb == boxes_union(hittables@.subrange(0, i as int)),
            decreases hittables@.len() - i,
        {
            let ghost prefix = hittables@.subrange(0, i as int);
            aabb = aabb.join(&hittables[i].aabb());
            assert(hittables@.subrange(0, i + 1).drop_last() == prefix);
            i += 1;
        }
        assert(hittables@.subrange(0, i as int) == hittables@);
        HittableList { hittables, aabb }
    }

    /// Adds a sphere and grows the box to hold it.
    pub fn add(&mut self, hittable: Sphere)
        requires
            old(self).wf(),
        ensures
            final(self).hittables@ == old(self).hittables@.push(hittable),
            final(self).wf(),
    {
        let b = hittable.aabb();
        self.aabb = self.aabb.join(&b);
        self.hittables.push(hittable);
        assert(self.hittables@.drop_last() == old(self).hittables@);
    }

    /// The nearest hit by the linear scan.
    pub fn hit<'a>(&'a self, ray: &Ray, ray_tmin: i64, ray_tmax: i64) -> (r: Option<HitRecord<'a>>)
        ensures
            match scan(self.hittables@, *ray, ray_tmin as int, ray_tmax as int) {
                None => r.is_none(),
                Some((s, t)) => r.is_some() && s.records(r.unwrap(), *ray, t),
            },
    {
        let mut temp_rec: Option<HitRecord<'a>> = None;
        let mut closest_so_far = ray_tmax;
        let mut i: usize = 0;
        while i < self.hittables.len()
            invariant
                i <= self.hittables@.len(),
                match scan(self.hittables@.subrange(0, i as int), *ray, ray_tmin as int, ray_tmax as int) {
                    None => temp_rec.is_none() && closest_so_far == ray_tmax,
                    Some((s, t)) => temp_rec.is_some() && closest_so_far == t && s.records(
                        temp_rec.unwrap(),
                        *ray,
                        t,
                    ),
                },
            decreases self.hittables@.len() - i,
        {
            let ghost prefix = self.hittables@.subrange(0, i as int);
            assert(self.hittables@.subrange(0, i + 1).drop_last() == prefix);
            assert(self.hittables@.subrange(0, i + 1).last() == self.hittables@[i as int]);
            if let Some(rec) = self.hittables[i].hit(ray, ray_tmin, closest_so_far) {
                closest_so_far = rec.t;
                temp_rec = Some(rec);
            }
            i += 1;
        }
        assert(self.hittables@.subrange(0, i as int) == self.hittables@);
        temp_rec
    }

    /// The union of the spheres' boxes.
    pub fn aabb(&self) -> (r: Aabb)
        ensures
            r == self.spec_aabb(),
    {
        self.aabb
    }
}

/// Anything a ray can be intersected with: one sphere, a flat list, or a tree.
#[derive(Debug)]
pub enum Hittable {
    Sphere(Sphere),
    List(HittableList),
    Bvh(BVHNode),
}

impl Hittable {
    /// The sphere hit and the parameter of the hit, or `None`.
    pub open spec fn spec_hit(self, ray: Ray, tmin: int, tmax: int) -> Option<(Sphere, int)> {
        match self {
            Hittable::Sphere(s) => match s.hit_t(ray, tmin, tmax) {
                Some(t) => Some((s, t)),
                None => None,
            },
            Hittable::List(l) => scan(l.hittables@, ray, tmin, tmax),
            Hittable::Bvh(b) => b.spec_hit(ray, tmin, tmax),
        }
    }

    pub open spec fn spec_aabb(self) -> Aabb {
        match self {
            Hittable::Sphere(s) => s.spec_aabb(),
            Hittable::List(l) => l.spec_aabb(),
            Hittable::Bvh(b) => b.spec_aabb(),
        }
    }

    /// The nearest hit strictly between `ray_tmin` and `ray_tmax`.
    pub fn hit<'a>(&'a self, ray: &Ray, ray_tmin: i64, ray_tmax: i64) -> (r: Option<HitRecord<'a>>)
        ensures
            match self.spec_hit(*ray, ray_tmin as int, ray_tmax as int) {
                None => r.is_none(),
                Some((s, t)) => r.is_some() && s.records(r.unwrap(), *ray, t),
            },
    {
        match self {
            Hittable::Sphere(s) => s.hit(ray, ray_tmin, ray_tmax),
            Hittable::List(l) => l.hit(ray, ray_tmin, ray_tmax),
            Hittable::Bvh(b) => b.hit(ray, ray_tmin, ray_tmax),
        }
    }

    pub fn aabb(&self) -> (r: Aabb)
        ensures
            r == self.spec_aabb(),
    {
        match self {
            Hittable::Sphere(s) => s.aabb(),
            Hittable::List(l) => l.aabb(),
            Hittable::Bvh(b) => b.aabb(),
        }
    }
}

} // verus!
