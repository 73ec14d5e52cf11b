//! Random draws: uniform scalars from the thread's generator, and the
//! rejection samplers built on them.
use vstd::prelude::*;
use rand::Rng;
use crate::fixed::{self, ONE};
use crate::vec3::Vec3;

verus! {

/// How many draws a rejection sampler makes before it gives up. Each draw is
/// accepted with probability above one half, so giving up has probability
/// below 2^-100.
pub const MAX_TRIES: u32 = 100;

/// Relies on rand's `Rng::gen_range` on `thread_rng()`: a value of the
/// half-open range `lo..hi`, which must not be empty (it panics on one).
#[verifier::external_body]
fn gen_range(lo: i64, hi: i64) -> (r: i64)
    requires
        lo < hi,
    ensures
        lo <= r < hi,
{
    rand::thread_rng().gen_range(lo..hi)
}

/// `p` is a point of the cube `[-ONE, ONE)^3`.
pub open spec fn in_cube(p: Vec3) -> bool {
    -ONE <= p.x < ONE && -ONE <= p.y < ONE && -ONE <= p.z < ONE
}

/// The least squared length (1/256) of a point that the unit-vector sampler
/// accepts: shorter points, whose direction rounding would skew, are drawn again.
pub const MIN_SAMPLE_LEN2: i64 = 256;

/// `p` is a point of the closed unit ball, not too near its center.
pub open spec fn in_ball(p: Vec3) -> bool {
    MIN_SAMPLE_LEN2 < p.spec_dot(p) <= ONE
}

/// `r` is what the unit-vector sampler may return: a point of the ball,
/// scaled to unit length, or the x axis where every draw was rejected.
pub open spec fn unit_sample(r: Vec3) -> bool {
    (exists|p: Vec3| in_cube(p) && in_ball(p) && r == p.spec_normalize()) || r == (Vec3 {
        x: ONE,
        y: 0,
        z: 0,
    })
}

/// `p` is what the disk sampler may return: a point of the open unit disk
/// in the plane `z = 0`, or its center where every draw was rejected.
pub open spec fn disk_sample(p: Vec3) -> bool {
    &&& -ONE <= p.x < ONE && -ONE <= p.y < ONE && p.z == 0
    &&& p.spec_dot(p) < ONE
}

/// A uniform draw from `[min, max)`.
pub fn random_rng(min: i64, max: i64) -> (r: i64)
    requires
        min < max,
    ensures
        min <= r < max,
{
    gen_range(min, max)
}

/// A uniform draw from `[0, ONE)`.
pub fn random() -> (r: i64)
    ensures
        0 <= r < ONE,
{
    gen_range(0, ONE)
}

/// A vector of three independent draws from `[min, max)`.
pub fn random_vec3(min: i64, max: i64) -> (r: Vec3)
    requires
        min < max,
    ensures
        min <= r.x < max && min <= r.y < max && min <= r.z < max,
{
    Vec3 { x: gen_range(min, max), y: gen_range(min, max), z: gen_range(min, max) }
}

/// A random direction: a point drawn from the unit ball by rejection from
/// the cube around it (points very near the center are rejected too), scaled
/// to unit length.
pub fn random_unit_vector() -> (r: Vec3)
    ensures
        unit_sample(r),
{
    let mut tries: u32 = 0;
    while tries < MAX_TRIES
        decreases MAX_TRIES - tries,
    {
        let p = random_vec3(-ONE, ONE);
        let len2 = p.length_squared();
        if MIN_SAMPLE_LEN2 < len2 && len2 <= ONE {
            let r = p.normalize();
            assert(in_cube(p) && in_ball(p) && r == p.spec_normalize());
            return r;
        }
        tries += 1;
    }
    Vec3 { x: ONE, y: 0, z: 0 }
}

/// A random direction on the side of the surface that `normal` points to.
pub fn random_on_hemisphere(normal: &Vec3) -> (r: Vec3)
    ensures
        exists|u: Vec3|
            unit_sample(u) && r == if u.spec_dot(*normal) > 0 {
                u
            } else {
                u.spec_neg()
            },
{
    let on_unit_sphere = random_unit_vector();
    if on_unit_sphere.dot(normal) > 0 {
        on_unit_sphere
    } else {
        on_unit_sphere.neg()
    }
}

/// A random offset in the unit square `[-ONE/2, ONE/2)^2` of the plane `z = 0`.
pub fn sample_square() -> (r: Vec3)
    ensures
        -ONE / 2 <= r.x < ONE / 2 && -ONE / 2 <= r.y < ONE / 2 && r.z == 0,
{
    Vec3 { x: fixed::sub(random(), ONE / 2), y: fixed::sub(random(), ONE / 2), z: 0 }
}

/// A random point of the open unit disk in the plane `z = 0`, by rejection
/// from the square around it.
pub fn random_in_unit_disk() -> (r: Vec3)
    ensures
        disk_sample(r),
{
    let mut tries: u32 = 0;
    while tries < MAX_TRIES
        decreases MAX_TRIES - tries,
    {
        let p = Vec3 { x: random_rng(-ONE, ONE), y: random_rng(-ONE, ONE), z: 0 };
        if p.length_squared() < ONE {
            return p;
        }
        tries += 1;
    }
    let c = Vec3 { x: 0, y: 0, z: 0 };
    assert(c.spec_dot(c) == 0);
    c
}

} // verus!
