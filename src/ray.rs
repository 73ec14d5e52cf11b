//! Rays with a time stamp for moving geometry.
use vstd::prelude::*;
use crate::fixed::{ONE, LIMIT};
use crate::hittable::{HittableList, scan};
use crate::random::{self, unit_sample};
use crate::render::{T_MIN, sky, sky_color, black};
use crate::vec3::Vec3;

verus! {

/// A half-line from `origin` along `direction`, cast at `time` (fixed-point, in `[0, ONE]`).
#[derive(Clone, Copy, PartialEq, Eq, Structural, Debug)]
pub struct Ray {
    pub origin: Vec3,
    pub direction: Vec3,
    pub time: i64,
}

impl Ray {
    /// The point at parameter `t`: `origin + direction * t`.
    pub open spec fn spec_at(self, t: int) -> Vec3 {
        self.origin.spec_add(self.direction.spec_scale(t))
    }

    pub fn new(origin: Vec3, direction: Vec3, time: i64) -> (r: Ray)
        ensures
            r == (Ray { origin, direction, time }),
    {
        Ray { origin, direction, time }
    }

    pub fn at(&self, t: i64) -> (r: Vec3)
        ensures
            r == self.spec_at(t as int),
    {
        self.origin.add(&self.direction.scale(t))
    }

    /// A plain diffuse estimate along the ray: every surface reflects half
    /// of the light, toward the normal plus a random unit vector. Black when
    /// no bounce is left, the sky where the ray hits nothing.
    pub fn color(&self, depth: u32, world: &HittableList) -> (r: Vec3)
        ensures
            depth == 0 ==> r == black(),
            depth > 0 && scan(world.hittables@, *self, T_MIN as int, LIMIT as int).is_none() ==> r == sky(
                self.direction,
            ),
            depth > 0 && scan(world.hittables@, *self, T_MIN as int, LIMIT as int).is_some() ==> exists|c: Vec3|
                (depth == 1 ==> c == black()) && r == #[trigger] c.spec_scale(ONE / 2),
        decreases depth,
    {
        if depth == 0 {
            return Vec3::zeros();
        }
        match world.hit(self, T_MIN, LIMIT) {
            Some(rec) => {
                let direction = rec.normal.add(&random::random_unit_vector());
                let c = Ray::new(rec.point, direction, self.time).color(depth - 1, world);
                c.scale(ONE / 2)
            },
            None => sky_color(&self.direction),
        }
    }
}

} // verus!
