use raytracer::bvh::{sort_by_axis, BVHNode};
use raytracer::camera::Camera;
use raytracer::fixed::{LIMIT, ONE};
use raytracer::hittable::{HitRecord, Hittable, HittableList};
use raytracer::material::{reflect, reflectance, refract, Dielectric, Lambertian, Material, Metal};
use raytracer::objects::Sphere;
use raytracer::random::{
    random, random_in_unit_disk, random_on_hemisphere, random_rng, random_unit_vector, random_vec3,
    sample_square,
};
use raytracer::ray::Ray;
use raytracer::render::{linear_to_gamma, pixel_to_bytes, ray_color, render, render_row, sky_color, T_MIN};
use raytracer::texture::{Checkered, Solid, Texture};
use raytracer::vec3::Vec3;

fn v(x: i64, y: i64, z: i64) -> Vec3 {
    Vec3::new(x * ONE, y * ONE, z * ONE)
}

fn gray() -> Material {
    Material::Lambertian(Lambertian::solid(Vec3::from_v(ONE / 2)))
}

fn sphere(x: i64, y: i64, z: i64, radius: i64) -> Sphere {
    Sphere::new(v(x, y, z), radius, gray())
}

fn spheres() -> Vec<Sphere> {
    vec![
        sphere(0, 0, -5, ONE),
        sphere(3, 0, -5, ONE),
        sphere(-3, 1, -8, 2 * ONE),
        sphere(0, 4, -6, ONE / 2),
        sphere(1, -2, -3, ONE),
        sphere(-1, 0, -12, 3 * ONE),
        sphere(2, 2, -9, ONE),
    ]
}

fn rays() -> Vec<Ray> {
    let mut out = Vec::new();
    for dx in -4..5 {
        for dy in -4..5 {
            out.push(Ray::new(Vec3::zeros(), Vec3::new(dx * ONE / 4, dy * ONE / 4, -ONE), 0));
        }
    }
    out
}

#[test]
fn sphere_hit_from_outside_lies_on_the_surface() {
    let s = Sphere::new(Vec3::new(0, 0, -ONE), ONE / 2, gray());
    let ray = Ray::new(Vec3::zeros(), Vec3::new(0, 0, -ONE), 0);
    let rec = s.hit(&ray, T_MIN, LIMIT).unwrap();
    assert_eq!(rec.t, ONE / 2);
    assert_eq!(rec.point, Vec3::new(0, 0, -ONE / 2));
    assert_eq!(rec.point.sub(&Vec3::new(0, 0, -ONE)).length(), ONE / 2);
    assert_eq!(rec.normal, Vec3::new(0, 0, ONE));
    assert!(rec.front_face);
    assert_eq!(rec.uv, (0, 0));
}

#[test]
fn sphere_hit_from_inside_faces_the_ray() {
    let s = Sphere::new(Vec3::new(0, 0, -ONE), ONE / 2, gray());
    let ray = Ray::new(Vec3::new(0, 0, -ONE), Vec3::new(0, 0, -ONE), 0);
    let rec = s.hit(&ray, T_MIN, LIMIT).unwrap();
    assert_eq!(rec.t, ONE / 2);
    assert_eq!(rec.point, Vec3::new(0, 0, -3 * ONE / 2));
    assert_eq!(rec.normal, Vec3::new(0, 0, ONE));
    assert!(!rec.front_face);
}

#[test]
fn sphere_misses() {
    let s = Sphere::new(Vec3::new(0, 0, -ONE), ONE / 2, gray());
    let away = Ray::new(Vec3::zeros(), Vec3::new(0, 0, ONE), 0);
    assert!(s.hit(&away, T_MIN, LIMIT).is_none());
    let beside = Ray::new(Vec3::new(ONE, 0, 0), Vec3::new(0, 0, -ONE), 0);
    assert!(s.hit(&beside, T_MIN, LIMIT).is_none());
    let toward = Ray::new(Vec3::zeros(), Vec3::new(0, 0, -ONE), 0);
    assert!(s.hit(&toward, T_MIN, ONE / 4).is_none());
}

#[test]
fn moving_sphere_follows_the_ray_time() {
    let s = Sphere::moving(v(0, 0, -2), v(0, 2, -2), ONE / 2, gray());
    let early = Ray::new(Vec3::zeros(), v(0, 0, -1), 0);
    let late = Ray::new(Vec3::zeros(), v(0, 0, -1), ONE);
    assert_eq!(s.hit(&early, T_MIN, LIMIT).unwrap().t, 3 * ONE / 2);
    assert!(s.hit(&late, T_MIN, LIMIT).is_none());
    let b = s.aabb();
    assert_eq!(b.min, Vec3::new(-ONE / 2, -ONE / 2, -5 * ONE / 2));
    assert_eq!(b.max, Vec3::new(ONE / 2, 5 * ONE / 2, -3 * ONE / 2));
}

#[test]
fn hit_record_turns_the_normal_against_the_ray() {
    let m = gray();
    let ray = Ray::new(Vec3::zeros(), v(0, 0, -1), 0);
    let front = HitRecord::new(v(0, 0, -1), v(0, 0, 1), &ray, ONE, &m);
    assert!(front.front_face);
    assert_eq!(front.normal, v(0, 0, 1));
    let back = HitRecord::new(v(0, 0, -1), v(0, 0, -1), &ray, ONE, &m);
    assert!(!back.front_face);
    assert_eq!(back.normal, v(0, 0, 1));
}

#[test]
fn checkered_cells_alternate_along_x() {
    let c = Checkered::new(
        ONE,
        Box::new(Texture::Solid(Solid::new(v(1, 1, 1)))),
        Box::new(Texture::Solid(Solid::new(v(0, 0, 0)))),
    );
    let t = Texture::Checkered(c);
    let half = ONE / 2;
    let p = Vec3::new(half, half, half);
    assert_eq!(t.value((0, 0), &p), v(1, 1, 1));
    assert_eq!(t.value((0, 0), &Vec3::new(half + ONE, half, half)), v(0, 0, 0));
    assert_eq!(t.value((0, 0), &Vec3::new(half + 2 * ONE, half, half)), v(1, 1, 1));
    assert_eq!(t.value((0, 0), &Vec3::new(-half, half, half)), v(0, 0, 0));
    assert_eq!(t.value((0, 0), &Vec3::new(-half, -half, half)), v(1, 1, 1));
}

#[test]
fn checkered_parity_for_a_fractional_scale() {
    let s = ONE / 3;
    if let Texture::Checkered(c) = Texture::Checkered(Checkered::new(
        s,
        Box::new(Texture::Solid(Solid::new(v(1, 0, 0)))),
        Box::new(Texture::Solid(Solid::new(v(0, 1, 0)))),
    )) {
        for px in [-5 * ONE, -ONE, 0, 7, ONE / 2, 11 * ONE] {
            let p = Vec3::new(px, ONE / 5, -2 * ONE);
            let q = Vec3::new(px + s, ONE / 5, -2 * ONE);
            assert_ne!(c.is_even(&p), c.is_even(&q));
        }
    }
}

#[test]
fn solid_texture_ignores_position() {
    let s = Solid::new(v(1, 2, 3));
    assert_eq!(s.value((0, 0), &v(9, 9, 9)), v(1, 2, 3));
    assert_eq!(Texture::Solid(s).value((0, 0), &v(-4, 0, 1)), v(1, 2, 3));
}

#[test]
fn hittable_list_keeps_the_nearest_hit() {
    let list = HittableList::new(vec![sphere(0, 0, -10, ONE), sphere(0, 0, -4, ONE)]);
    let ray = Ray::new(Vec3::zeros(), v(0, 0, -1), 0);
    let rec = list.hit(&ray, T_MIN, LIMIT).unwrap();
    assert_eq!(rec.t, 3 * ONE);
    let b = list.aabb();
    assert_eq!(b.min, v(-1, -1, -11));
    assert_eq!(b.max, v(1, 1, -3));
}

#[test]
fn hittable_list_add_grows_the_box() {
    let mut list = HittableList::new(Vec::new());
    list.add(sphere(0, 0, 0, ONE));
    list.add(sphere(5, 0, 0, ONE));
    assert_eq!(list.hittables.len(), 2);
    assert_eq!(list.aabb().min, v(-1, -1, -1));
    assert_eq!(list.aabb().max, v(6, 1, 1));
}

fn check_nested(node: &BVHNode) -> Vec<raytracer::aabb::Aabb> {
    match node {
        BVHNode::Leaf(s) => vec![s.aabb()],
        BVHNode::Node { left, right, aabb } => {
            let mut boxes = check_nested(left);
            boxes.extend(check_nested(right));
            for b in &boxes {
                assert!(aabb.min.x <= b.min.x && aabb.min.y <= b.min.y && aabb.min.z <= b.min.z);
                assert!(b.max.x <= aabb.max.x && b.max.y <= aabb.max.y && b.max.z <= aabb.max.z);
            }
            boxes
        }
    }
}

#[test]
fn bvh_boxes_hold_their_leaves() {
    for _ in 0..10 {
        let mut prims = spheres();
        let tree = BVHNode::new(&mut prims);
        assert!(prims.is_empty());
        assert_eq!(check_nested(&tree).len(), 7);
    }
}

#[test]
fn bvh_matches_the_linear_scan() {
    for _ in 0..10 {
        let list = HittableList::new(spheres());
        let mut prims = spheres();
        let tree = BVHNode::new(&mut prims);
        for ray in rays() {
            let a = tree.hit(&ray, T_MIN, LIMIT).map(|r| (r.t, r.point));
            let b = list.hit(&ray, T_MIN, LIMIT).map(|r| (r.t, r.point));
            assert_eq!(a, b);
        }
    }
}

#[test]
fn bvh_of_one_and_two_spheres() {
    let mut one = vec![sphere(0, 0, -3, ONE)];
    assert!(matches!(BVHNode::new(&mut one), BVHNode::Leaf(_)));
    let mut two = vec![sphere(0, 0, -3, ONE), sphere(4, 0, -3, ONE)];
    let tree = BVHNode::new(&mut two);
    assert_eq!(tree.aabb().min, v(-1, -1, -4));
    assert_eq!(tree.aabb().max, v(5, 1, -2));
    let world = Hittable::Bvh(tree);
    let ray = Ray::new(Vec3::zeros(), v(0, 0, -1), 0);
    assert_eq!(world.hit(&ray, T_MIN, LIMIT).unwrap().t, 2 * ONE);
}

#[test]
fn sort_by_axis_orders_stably() {
    let mut s = vec![sphere(3, 0, 0, ONE), sphere(1, 5, 0, ONE), sphere(3, 1, 0, ONE), sphere(-2, 0, 0, ONE)];
    sort_by_axis(&mut s, 0);
    let keys: Vec<(i64, i64)> = s.iter().map(|x| (x.center.origin.x, x.center.origin.y)).collect();
    assert_eq!(keys, vec![(-2 * ONE, 0), (ONE, 5 * ONE), (3 * ONE, 0), (3 * ONE, ONE)]);
}

fn record_on<'a>(m: &'a Material, ray: &Ray) -> HitRecord<'a> {
    HitRecord::new(Vec3::zeros(), v(0, 1, 0), ray, ONE, m)
}

#[test]
fn lambertian_scatters_toward_normal_plus_unit() {
    let m = Material::Lambertian(Lambertian::solid(v(1, 0, 0)));
    let ray = Ray::new(v(0, 1, 0), v(0, -1, 0), 7);
    let rec = record_on(&m, &ray);
    let (att, out) = m.scatter_with(&ray, &rec, &v(1, 0, 0), 0).unwrap();
    assert_eq!(att, v(1, 0, 0));
    assert_eq!(out, Ray::new(Vec3::zeros(), v(1, 1, 0), 7));
    // a degenerate sum falls back to the normal
    let (_, out) = m.scatter_with(&ray, &rec, &v(0, -1, 0), 0).unwrap();
    assert_eq!(out.direction, v(0, 1, 0));
}

#[test]
fn lambertian_checkered_attenuation_follows_the_point() {
    let m = Material::Lambertian(Lambertian::checkered(ONE, v(1, 1, 1), v(0, 0, 0)));
    let ray = Ray::new(v(0, 1, 0), v(0, -1, 0), 0);
    let rec = HitRecord::new(Vec3::new(ONE / 2, 0, ONE / 2), v(0, 1, 0), &ray, ONE, &m);
    assert_eq!(m.scatter_with(&ray, &rec, &v(0, 1, 0), 0).unwrap().0, v(1, 1, 1));
    let rec = HitRecord::new(Vec3::new(3 * ONE / 2, 0, ONE / 2), v(0, 1, 0), &ray, ONE, &m);
    assert_eq!(m.scatter_with(&ray, &rec, &v(0, 1, 0), 0).unwrap().0, v(0, 0, 0));
}

#[test]
fn metal_reflects_and_absorbs() {
    let m = Material::Metal(Metal::new(v(1, 1, 0), 0));
    let ray = Ray::new(v(-1, 1, 0), v(1, -1, 0), 3);
    let rec = record_on(&m, &ray);
    let (att, out) = m.scatter_with(&ray, &rec, &v(1, 0, 0), 0).unwrap();
    assert_eq!(att, v(1, 1, 0));
    assert_eq!(out.direction, v(1, 1, 0).normalize());
    assert_eq!(out.time, 3);
    let rough = Material::Metal(Metal::new(v(1, 1, 0), ONE));
    assert!(rough.scatter_with(&ray, &record_on(&rough, &ray), &v(0, -1, 0), 0).is_none());
}

#[test]
fn metal_fuzz_is_clamped() {
    assert_eq!(Metal::new(v(1, 1, 1), 3 * ONE).fuzz, ONE);
    assert_eq!(Metal::new(v(1, 1, 1), -ONE).fuzz, 0);
    assert_eq!(Metal::new(v(1, 1, 1), ONE / 3).fuzz, ONE / 3);
}

#[test]
fn dielectric_of_index_one_passes_straight_through() {
    let m = Material::Dielectric(Dielectric::new(ONE));
    let ray = Ray::new(v(0, 1, 0), v(0, -1, 0), 5);
    let rec = record_on(&m, &ray);
    for draw in [0, ONE / 2, ONE - 1] {
        let (att, out) = m.scatter_with(&ray, &rec, &v(1, 0, 0), draw).unwrap();
        assert_eq!(att, v(1, 1, 1));
        assert_eq!(out.direction, v(0, -1, 0));
        assert_eq!(out.time, 5);
    }
}

#[test]
fn glass_reflects_when_the_draw_is_below_the_reflectance() {
    let m = Material::Dielectric(Dielectric::new(3 * ONE / 2));
    let ray = Ray::new(v(0, 1, 0), v(0, -1, 0), 0);
    let rec = record_on(&m, &ray);
    let (_, reflected) = m.scatter_with(&ray, &rec, &v(1, 0, 0), 0).unwrap();
    assert_eq!(reflected.direction, v(0, 1, 0));
    let (_, refracted) = m.scatter_with(&ray, &rec, &v(1, 0, 0), ONE / 2).unwrap();
    assert_eq!(refracted.direction, v(0, -1, 0));
}

#[test]
fn glass_reflects_totally_at_a_grazing_exit() {
    let m = Material::Dielectric(Dielectric::new(3 * ONE / 2));
    // leaving the glass through the back face, nearly parallel to it
    let ray = Ray::new(v(-1, 0, 0), Vec3::new(ONE, ONE / 8, 0), 0);
    let rec = HitRecord::new(Vec3::zeros(), v(0, 1, 0), &ray, ONE, &m);
    assert!(!rec.front_face);
    let (_, out) = m.scatter_with(&ray, &rec, &v(1, 0, 0), ONE - 1).unwrap();
    assert!(out.direction.y < 0);
}

#[test]
fn reflect_refract_and_reflectance() {
    assert_eq!(reflect(&v(1, -1, 0), &v(0, 1, 0)), v(1, 1, 0));
    assert_eq!(refract(&v(0, -1, 0), &v(0, 1, 0), ONE), v(0, -1, 0));
    assert_eq!(reflectance(ONE, ONE), 0);
    assert_eq!(reflectance(0, ONE), ONE);
    // ((1 - 1.5) / (1 + 1.5))^2 = 0.04 at normal incidence
    let r = reflectance(ONE, 3 * ONE / 2);
    assert!(2600 < r && r < 2630);
}

#[test]
fn camera_frame_and_pixel_rays() {
    let c = Camera::new(Vec3::zeros(), v(0, 0, -1), v(0, 1, 0), ONE, 0, ONE, (4, 2));
    assert_eq!(c.pixel_delta_u, v(1, 0, 0));
    assert_eq!(c.pixel_delta_v, v(0, -1, 0));
    assert_eq!(c.pixel00_loc, Vec3::new(-3 * ONE / 2, ONE / 2, -ONE));
    let r = c.get_ray_with(2, 1, &Vec3::zeros(), &Vec3::zeros(), 9);
    assert_eq!(r, Ray::new(Vec3::zeros(), Vec3::new(ONE / 2, -ONE / 2, -ONE), 9));
}

#[test]
fn thin_lens_rays_start_on_the_lens() {
    let c = Camera::new(Vec3::zeros(), v(0, 0, -1), v(0, 1, 0), ONE, ONE / 2, 2 * ONE, (4, 2));
    assert_eq!(c.defocus_disk_u, v(1, 0, 0));
    assert_eq!(c.defocus_disk_v, v(0, 1, 0));
    let r = c.get_ray_with(1, 1, &Vec3::new(ONE / 4, -ONE / 4, 0), &Vec3::new(ONE / 2, 0, 0), 0);
    assert_eq!(r.origin, Vec3::new(ONE / 2, 0, 0));
    assert_eq!(r.direction, Vec3::new(-ONE, -ONE / 2, -2 * ONE));
}

#[test]
fn pinhole_rays_start_at_the_center() {
    let center = v(1, 2, 3);
    let c = Camera::new(center, v(0, 0, -1), v(0, 1, 0), ONE, 0, ONE, (8, 6));
    for i in 0..8 {
        for j in 0..6 {
            let r = c.get_ray(i, j);
            assert_eq!(r.origin, center);
            assert!(0 <= r.time && r.time < ONE);
        }
    }
    let negative = Camera::new(center, v(0, 0, -1), v(0, 1, 0), ONE, -ONE, ONE, (8, 6));
    assert_eq!(negative.get_ray(3, 3).origin, center);
}

#[test]
fn sky_blends_white_and_blue() {
    assert_eq!(sky_color(&v(0, 1, 0)), Vec3::new(ONE / 2, 45875, ONE));
    assert_eq!(sky_color(&v(0, -1, 0)), v(1, 1, 1));
    assert_eq!(sky_color(&v(0, 5, 0)), Vec3::new(ONE / 2, 45875, ONE));
}

#[test]
fn ray_color_on_a_miss_is_the_sky() {
    let world = Hittable::Sphere(Sphere::new(Vec3::new(0, 0, -ONE), ONE / 2, gray()));
    let up = Ray::new(Vec3::zeros(), Vec3::new(ONE / 3, ONE, 0), 0);
    for depth in [1, 2, 50] {
        assert_eq!(ray_color(&up, &world, depth), sky_color(&up.direction));
    }
}

#[test]
fn ray_color_with_one_bounce_left_after_a_hit_is_black() {
    let world = Hittable::Sphere(Sphere::new(
        Vec3::new(0, 0, -ONE),
        ONE / 2,
        Material::Lambertian(Lambertian::solid(Vec3::new(ONE / 2, ONE / 4, ONE))),
    ));
    let at_center = Ray::new(Vec3::zeros(), Vec3::new(0, 0, -ONE), 0);
    assert_eq!(ray_color(&at_center, &world, 1), Vec3::zeros());
    assert_eq!(ray_color(&at_center, &world, 0), Vec3::zeros());
}

#[test]
fn ray_color_of_a_diffuse_bounce_is_attenuated_sky() {
    // the floor faces straight up: every diffuse bounce leaves upward and
    // sees the sky, so the estimate is at most half of the brightest sky
    let floor = Sphere::new(Vec3::new(0, -1000 * ONE, 0), 1000 * ONE, gray());
    let world = Hittable::Sphere(floor);
    let down = Ray::new(v(0, 1, 0), v(0, -1, 0), 0);
    for _ in 0..20 {
        let c = ray_color(&down, &world, 2);
        assert!(c.x <= ONE / 2 && c.y <= ONE / 2 && c.z <= ONE / 2);
        assert!(c.x >= ONE / 4 && c.z == ONE / 2);
    }
}

#[test]
fn diffuse_ray_color_halves_each_bounce() {
    let list = HittableList::new(vec![Sphere::new(Vec3::new(0, 0, -ONE), ONE / 2, gray())]);
    let up = Ray::new(Vec3::zeros(), v(0, 1, 0), 0);
    assert_eq!(up.color(3, &list), sky_color(&up.direction));
    let at_center = Ray::new(Vec3::zeros(), Vec3::new(0, 0, -ONE), 0);
    assert_eq!(at_center.color(1, &list), Vec3::zeros());
    assert_eq!(at_center.color(0, &list), Vec3::zeros());
}

#[test]
fn pixel_bytes_are_gamma_corrected() {
    assert_eq!(pixel_to_bytes(&Vec3::new(ONE / 4, ONE, 0), 1), (127, 255, 0));
    assert_eq!(pixel_to_bytes(&Vec3::new(ONE, 4 * ONE, -ONE), 4), (127, 255, 0));
    assert_eq!(pixel_to_bytes(&v(9, 9, 9), 1), (255, 255, 255));
    assert_eq!(linear_to_gamma(4 * ONE), 2 * ONE);
    assert_eq!(linear_to_gamma(-ONE), 0);
}

#[test]
fn render_fills_rows_top_first() {
    let world = Hittable::List(HittableList::new(Vec::new()));
    let camera = Camera::new(Vec3::zeros(), v(0, 0, -1), v(0, 1, 0), ONE, 0, ONE, (3, 2));
    let image = render(&camera, &world, (3, 2), 2, 5);
    assert_eq!(image.len(), 18);
    let top = render_row(&camera, &world, 0, 3, 1, 5);
    assert_eq!(top.len(), 9);
    // the sky is bluer upward: every pixel's blue is full, and red is below it
    for px in image.chunks(3) {
        assert_eq!(px[2], 255);
        assert!(px[0] < px[2]);
    }
}

#[test]
fn random_draws_stay_in_range_and_vary() {
    let draws: Vec<i64> = (0..200).map(|_| random_rng(-5, 1000)).collect();
    assert!(draws.iter().all(|d| -5 <= *d && *d < 1000));
    assert!(draws.iter().any(|d| *d != draws[0]));
    let unit: Vec<i64> = (0..200).map(|_| random()).collect();
    assert!(unit.iter().all(|d| 0 <= *d && *d < ONE));
    assert!(unit.iter().any(|d| *d != unit[0]));
    for _ in 0..100 {
        let p = random_vec3(-ONE, ONE);
        assert!(-ONE <= p.x && p.x < ONE && -ONE <= p.y && p.y < ONE && -ONE <= p.z && p.z < ONE);
        let s = sample_square();
        assert!(-ONE / 2 <= s.x && s.x < ONE / 2 && -ONE / 2 <= s.y && s.y < ONE / 2 && s.z == 0);
        let d = random_in_unit_disk();
        assert!(d.length_squared() < ONE && d.z == 0);
    }
}

#[test]
fn random_unit_vectors_have_unit_length() {
    for _ in 0..100 {
        let u = random_unit_vector();
        let len2 = u.length_squared();
        assert!((ONE - 512..=ONE + 512).contains(&len2));
        let n = v(0, 1, 0);
        let h = random_on_hemisphere(&n);
        assert!(h.dot(&n) >= 0);
    }
}

#[test]
fn checkered_scene_has_two_spheres_and_a_pinhole() {
    let (world, camera) = raytracer::scenes::checkered_spheres(40, 20);
    match world {
        Hittable::List(l) => {
            assert_eq!(l.hittables.len(), 2);
            assert_eq!(l.hittables[0].center.origin, v(0, -10, 0));
            assert_eq!(l.hittables[1].radius, 10 * ONE);
            assert_eq!(l.aabb().min, v(-10, -20, -10));
            assert_eq!(l.aabb().max, v(10, 20, 10));
        }
        _ => panic!("expected a list"),
    }
    assert_eq!(camera.center, v(13, 2, 3));
    assert_eq!(camera.get_ray(5, 5).origin, v(13, 2, 3));
}

#[test]
fn bouncing_scene_is_a_tree_over_the_spheres() {
    let (world, camera) = raytracer::scenes::bouncing_spheres(40, 20);
    match &world {
        Hittable::Bvh(tree) => {
            let n = check_nested(tree).len();
            assert!((4..=488).contains(&n));
        }
        _ => panic!("expected a tree"),
    }
    assert!(camera.defocus_angle > 0);
    // looking at the origin, the middle of the image sees the large glass sphere
    let ray = camera.get_ray_with(20, 10, &Vec3::zeros(), &Vec3::zeros(), 0);
    assert!(world.hit(&ray, T_MIN, LIMIT).is_some());
}
