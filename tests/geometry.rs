use raytracer::aabb::Aabb;
use raytracer::fixed::{self, LIMIT, ONE};
use raytracer::interval::Interval;
use raytracer::ray::Ray;
use raytracer::vec3::Vec3;

fn v(x: i64, y: i64, z: i64) -> Vec3 {
    Vec3::new(x * ONE, y * ONE, z * ONE)
}

#[test]
fn fixed_mul_and_div_are_exact_on_whole_numbers() {
    assert_eq!(fixed::mul(2 * ONE, 3 * ONE), 6 * ONE);
    assert_eq!(fixed::div(6 * ONE, 3 * ONE), 2 * ONE);
    assert_eq!(fixed::mul(-ONE / 2, ONE / 2), -ONE / 4);
}

#[test]
fn fixed_rounds_toward_negative_infinity() {
    assert_eq!(fixed::mul(1, 1), 0);
    assert_eq!(fixed::mul(-1, 1), -1);
    assert_eq!(fixed::div(ONE, 3 * ONE), 21845);
    assert_eq!(fixed::div(-ONE, 3 * ONE), -21846);
}

#[test]
fn fixed_saturates() {
    assert_eq!(fixed::add(LIMIT, LIMIT), LIMIT);
    assert_eq!(fixed::sub(-LIMIT, LIMIT), -LIMIT);
    assert_eq!(fixed::mul(i64::MAX, i64::MAX), LIMIT);
    assert_eq!(fixed::div(ONE, 0), LIMIT);
    assert_eq!(fixed::div(-ONE, 0), -LIMIT);
    assert_eq!(fixed::div(0, 0), 0);
    assert_eq!(fixed::neg(i64::MIN), LIMIT);
}

#[test]
fn fixed_sqrt() {
    assert_eq!(fixed::sqrt(4 * ONE), 2 * ONE);
    assert_eq!(fixed::sqrt(ONE / 4), ONE / 2);
    assert_eq!(fixed::sqrt(2 * ONE), 92681);
    assert_eq!(fixed::sqrt(0), 0);
    assert_eq!(fixed::sqrt(-ONE), 0);
    assert_eq!(fixed::isqrt(15), 3);
    assert_eq!(fixed::isqrt(16), 4);
}

#[test]
fn degrees_to_radians_of_a_half_turn() {
    assert_eq!(fixed::degrees_to_radians(180 * ONE), fixed::PI);
    assert_eq!(fixed::degrees_to_radians(0), 0);
}

#[test]
fn vec3_operations() {
    let a = v(1, 2, 3);
    let b = v(4, 5, 6);
    assert_eq!(a.add(&b), v(5, 7, 9));
    assert_eq!(b.sub(&a), v(3, 3, 3));
    assert_eq!(a.neg(), v(-1, -2, -3));
    assert_eq!(a.dot(&b), 32 * ONE);
    assert_eq!(a.cross(&b), v(-3, 6, -3));
    assert_eq!(a.scale(2 * ONE), v(2, 4, 6));
    assert_eq!(a.mul(&b), v(4, 10, 18));
    assert_eq!(b.div(2 * ONE), Vec3::new(2 * ONE, 5 * ONE / 2, 3 * ONE));
    assert_eq!(v(3, 4, 0).length(), 5 * ONE);
    assert_eq!(v(0, 0, -7).normalize(), v(0, 0, -1));
    assert_eq!(a.min(&v(0, 5, 1)), v(0, 2, 1));
    assert_eq!(a.max(&v(0, 5, 1)), v(1, 5, 3));
    assert_eq!(a.axis(2), 3 * ONE);
}

#[test]
fn ray_at() {
    let r = Ray::new(v(1, 0, 0), v(0, 2, 0), 0);
    assert_eq!(r.at(3 * ONE), v(1, 6, 0));
    assert_eq!(r.at(0), v(1, 0, 0));
}

#[test]
fn interval_membership_and_clamp() {
    let i = Interval::new(0, ONE);
    assert!(i.contains(0));
    assert!(!i.surrounds(0));
    assert!(i.surrounds(ONE / 2));
    assert!(!i.contains(ONE + 1));
    assert_eq!(i.clamp(2 * ONE), ONE);
    assert_eq!(i.clamp(-5), 0);
    assert_eq!(i.clamp(7), 7);
    assert!(!Interval::empty().contains(0));
    assert!(Interval::universe().contains(0));
}

#[test]
fn aabb_join_is_the_smallest_box_holding_both() {
    let a = Aabb::new(v(0, 0, 0), v(1, 1, 1));
    let b = Aabb::new(v(-1, 2, 0), v(0, 3, 5));
    let j = a.join(&b);
    assert_eq!(j.min, v(-1, 0, 0));
    assert_eq!(j.max, v(1, 3, 5));
}

#[test]
fn aabb_empty_is_the_identity_of_join() {
    let a = Aabb::new(v(-2, 0, 1), v(1, 4, 3));
    assert_eq!(Aabb::empty().join(&a), a);
    assert_eq!(a.join(&Aabb::empty()), a);
}

#[test]
fn aabb_longest_axis() {
    assert_eq!(Aabb::new(v(0, 0, 0), v(1, 5, 2)).longest_axis(), 1);
    assert_eq!(Aabb::new(v(0, 0, 0), v(9, 5, 2)).longest_axis(), 0);
    assert_eq!(Aabb::new(v(0, 0, 0), v(1, 1, 3)).longest_axis(), 2);
    // of equal extents the last wins
    assert_eq!(Aabb::new(v(0, 0, 0), v(2, 2, 1)).longest_axis(), 1);
    assert_eq!(Aabb::new(v(0, 0, 0), v(1, 1, 1)).longest_axis(), 2);
}

#[test]
fn aabb_slab_test() {
    let b = Aabb::new(v(-1, -1, -3), v(1, 1, -1));
    let toward = Ray::new(v(0, 0, 0), v(0, 0, -1), 0);
    assert!(b.hit(&toward, 0, LIMIT));
    // the interval ends before the box
    assert!(!b.hit(&toward, 0, ONE / 2));
    let away = Ray::new(v(0, 0, 0), v(0, 0, 1), 0);
    assert!(!b.hit(&away, 0, LIMIT));
    let beside = Ray::new(v(5, 0, 0), v(0, 0, -1), 0);
    assert!(!b.hit(&beside, 0, LIMIT));
    let oblique = Ray::new(v(0, 0, 0), v(1, 0, -2), 0);
    assert!(b.hit(&oblique, 0, LIMIT));
}
