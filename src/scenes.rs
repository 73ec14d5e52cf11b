//! Two ready-made scenes, each with its camera.
use vstd::prelude::*;
use crate::bvh::BVHNode;
use crate::camera::Camera;
use crate::fixed::{self, ONE};
use crate::hittable::{Hittable, HittableList};
use crate::material::{Dielectric, Lambertian, Material, Metal};
use crate::objects::Sphere;
use crate::random;
use crate::ray::Ray;
use crate::texture::{Checkered, Solid, Texture};
use crate::vec3::{Vec3, v3};

verus! {

/// The tangent of ten degrees: half the vertical field of view of both scenes.
pub const TAN_10_DEGREES: i64 = 11556;

/// The tangent of 0.3 degrees: half the defocus angle of the bouncing spheres.
pub const TAN_0_3_DEGREES: i64 = 343;

/// The radius of the small spheres (0.2).
pub const SMALL_RADIUS: i64 = 13107;

/// The ground of both scenes: a checker pattern of dark green and light gray
/// cells 0.32 wide.
pub open spec fn checker_ground() -> Material {
    Material::Lambertian(
        Lambertian {
            texture: Texture::Checkered(
                Checkered {
                    scale: 20972,
                    even: Box::new(Texture::Solid(Solid { albedo: v3(13107, 19661, 6554) })),
                    odd: Box::new(Texture::Solid(Solid { albedo: v3(58982, 58982, 58982) })),
                },
            ),
        },
    )
}

/// A sphere that does not move.
pub open spec fn still_sphere(center: Vec3, radius: int, material: Material) -> Sphere {
    Sphere { center: Ray { origin: center, direction: v3(0, 0, 0), time: 0 }, radius: radius as i64, material }
}

/// The camera of both scenes, at `(13, 2, 3)` looking at the origin.
pub open spec fn scene_camera(tan_half_defocus: int, focus_dist: int, width: int, height: int) -> Camera {
    Camera::spec_new(
        v3(13 * ONE, 2 * ONE, 3 * ONE),
        v3(0, 0, 0),
        v3(0, ONE as int, 0),
        TAN_10_DEGREES as int,
        tan_half_defocus,
        focus_dist,
        width,
        height,
    )
}

fn ground() -> (r: Material)
    ensures
        r == checker_ground(),
{
    Material::Lambertian(
        Lambertian::checkered(20972, Vec3::new(13107, 19661, 6554), Vec3::new(58982, 58982, 58982)),
    )
}

fn camera(tan_half_defocus: i64, focus_dist: i64, image_width: u32, image_height: u32) -> (r: Camera)
    ensures
        r == scene_camera(tan_half_defocus as int, focus_dist as int, image_width as int, image_height as int),
{
    Camera::new(
        Vec3::new(13 * ONE, 2 * ONE, 3 * ONE),
        Vec3::zeros(),
        Vec3::new(0, ONE, 0),
        TAN_10_DEGREES,
        tan_half_defocus,
        focus_dist,
        (image_width, image_height),
    )
}

/// Two large checkered spheres, one above the other, seen through a pinhole.
pub fn checkered_spheres(image_width: u32, image_height: u32) -> (r: (Hittable, Camera))
    ensures
        match r.0 {
            Hittable::List(l) => l.wf() && l.hittables@ == seq![
                still_sphere(v3(0, -10 * ONE, 0), 10 * ONE, checker_ground()),
                still_sphere(v3(0, 10 * ONE, 0), 10 * ONE, checker_ground()),
            ],
            _ => false,
        },
        r.1 == scene_camera(0, ONE as int, image_width as int, image_height as int),
{
    let mut world = HittableList::new(Vec::new());
    world.add(Sphere::new(Vec3::new(0, -10 * ONE, 0), 10 * ONE, ground()));
    world.add(Sphere::new(Vec3::new(0, 10 * ONE, 0), 10 * ONE, ground()));
    assert(world.hittables@ =~= seq![
        still_sphere(v3(0, -10 * ONE, 0), 10 * ONE, checker_ground()),
        still_sphere(v3(0, 10 * ONE, 0), 10 * ONE, checker_ground()),
    ]);
    (Hittable::List(world), camera(0, ONE, image_width, image_height))
}

/// The sphere is the ground, one of the three large spheres, or a small one.
pub open spec fn scene_radius(s: Sphere) -> bool {
    s.radius == 1000 * ONE || s.radius == ONE || s.radius == SMALL_RADIUS
}

/// A random small sphere of a random material near grid point `(a, b)`, or
/// `None` where it would come too near the large metal sphere.
fn small_sphere(a: i64, b: i64) -> (r: Option<Sphere>)
    requires
        -11 <= a < 11,
        -11 <= b < 11,
    ensures
        match r {
            Some(s) => s.radius == SMALL_RADIUS,
            None => true,
        },
{
    let choose_mat = random::random();
    let center = Vec3::new(
        fixed::add(fixed::from_int(a), fixed::mul(58982, random::random())),
        SMALL_RADIUS,
        fixed::add(fixed::from_int(b), fixed::mul(58982, random::random())),
    );
    if center.sub(&Vec3::new(4 * ONE, SMALL_RADIUS, 0)).length() <= 58982 {
        return None;
    }
    if choose_mat < 52429 {
        let albedo = random::random_vec3(0, ONE).mul(&random::random_vec3(0, ONE));
        let material = Material::Lambertian(Lambertian::solid(albedo));
        let center2 = center.add(&Vec3::new(0, random::random_rng(0, ONE / 2), 0));
        Some(Sphere::moving(center, center2, SMALL_RADIUS, material))
    } else if choose_mat < 62259 {
        let albedo = random::random_vec3(ONE / 2, ONE);
        let fuzz = random::random_rng(0, ONE / 2);
        Some(Sphere::new(center, SMALL_RADIUS, Material::Metal(Metal::new(albedo, fuzz))))
    } else {
        Some(Sphere::new(center, SMALL_RADIUS, Material::Dielectric(Dielectric::new(98304))))
    }
}

/// A checkered ground, three large spheres (glass, diffuse brown, polished
/// metal) and a grid of small random spheres, diffuse ones moving upward,
/// in a tree; seen through a thin lens focused ten units away.
pub fn bouncing_spheres(image_width: u32, image_height: u32) -> (r: (Hittable, Camera))
    ensures
        match r.0 {
            Hittable::Bvh(b) => {
                &&& b.wf()
                &&& 4 <= b.leaves().len() <= 488
                &&& forall|i: int| 0 <= i < b.leaves().len() ==> scene_radius(#[trigger] b.leaves()[i])
            },
            _ => false,
        },
        r.1 == scene_camera(TAN_0_3_DEGREES as int, 10 * ONE, image_width as int, image_height as int),
{
    let mut world: Vec<Sphere> = Vec::new();
    world.push(Sphere::new(Vec3::new(0, -1000 * ONE, 0), 1000 * ONE, ground()));
    let mut a: i64 = -11;
    while a < 11
        invariant
            -11 <= a <= 11,
            1 <= world@.len() <= 1 + 22 * (a + 11),
            forall|i: int| 0 <= i < world@.len() ==> scene_radius(#[trigger] world@[i]),
        decreases 11 - a,
    {
        let mut b: i64 = -11;
        while b < 11
            invariant
                -11 <= a < 11,
                -11 <= b <= 11,
                1 <= world@.len() <= 1 + 22 * (a + 11) + (b + 11),
                forall|i: int| 0 <= i < world@.len() ==> scene_radius(#[trigger] world@[i]),
            decreases 11 - b,
        {
            if let Some(s) = small_sphere(a, b) {
                world.push(s);
            }
            b += 1;
        }
        a += 1;
    }
    world.push(Sphere::new(Vec3::new(0, ONE, 0), ONE, Material::Dielectric(Dielectric::new(98304))));
    world.push(
        Sphere::new(
            Vec3::new(-4 * ONE, ONE, 0),
            ONE,
            Material::Lambertian(Lambertian::solid(Vec3::new(26214, 13107, 6554))),
        ),
    );
    world.push(
        Sphere::new(Vec3::new(4 * ONE, ONE, 0), ONE, Material::Metal(Metal::new(Vec3::new(45875, 39322, 32768), 0))),
    );
    let ghost all = world@;
    let tree = BVHNode::new(&mut world);
    proof {
        broadcast use vstd::seq_lib::group_to_multiset_ensures;

        assert(tree.leaves().len() == tree.leaves().to_multiset().len());
        assert(all.len() == all.to_multiset().len());
        assert forall|i: int| 0 <= i < tree.leaves().len() implies scene_radius(#[trigger] tree.leaves()[i]) by {
            assert(tree.leaves().to_multiset().count(tree.leaves()[i]) > 0);
            assert(all.contains(tree.leaves()[i]));
        }
    }
    (Hittable::Bvh(tree), camera(TAN_0_3_DEGREES, 10 * ONE, image_width, image_height))
}

} // verus!
