//! The integrator: recursive radiance estimates, averaging and gamma correction.
use vstd::prelude::*;
use crate::camera::Camera;
use crate::fixed::{self, ONE, LIMIT, add_spec, sub_spec, mul_spec, div_spec, sqrt_spec, floor_div, of_int};
use crate::hittable::{Hittable, faces_front};
use crate::objects::Sphere;
use crate::ray::Ray;
use crate::vec3::{Vec3, v3};
use crate::random::unit_sample;

verus! {

/// The least parameter at which a scattered ray may hit again (about 0.001),
/// so that a ray does not hit the surface it leaves.
pub const T_MIN: i64 = 66;

/// The green component of the sky's blue (about 0.7).
pub const SKY_GREEN: i64 = 45875;

/// 255.999, the factor from a gamma-corrected component to a byte.
pub const BYTE_SCALE: i64 = 16777150;

/// The sky seen along `direction`: white looking straight down, light blue
/// `(0.5, 0.7, 1.0)` straight up, blended linearly by `(y + 1) / 2` of the
/// unit direction.
pub open spec fn sky(direction: Vec3) -> Vec3 {
    let unit = direction.spec_normalize();
    let a = mul_spec(add_spec(unit.y as int, ONE as int), ONE / 2);
    Vec3::from_v_spec(ONE as int).spec_scale(sub_spec(ONE as int, a)).spec_add(
        v3(ONE / 2, SKY_GREEN as int, ONE as int).spec_scale(a),
    )
}

/// The black color.
pub open spec fn black() -> Vec3 {
    v3(0, 0, 0)
}

/// The gamma-2 correction: the square root of a positive component, zero otherwise.
pub open spec fn gamma(x: int) -> int {
    if x > 0 {
        sqrt_spec(x)
    } else {
        0
    }
}

/// The byte of a linear component: `255.999` times its gamma-corrected
/// value, rounded down and capped at 255.
pub open spec fn byte_of(x: int) -> u8 {
    let b = floor_div(mul_spec(BYTE_SCALE as int, gamma(x)), ONE as int);
    if b > 255 {
        255u8
    } else {
        b as u8
    }
}

/// The three bytes of a pixel whose samples sum to `sum`.
pub open spec fn pixel_bytes(sum: Vec3, samples: int) -> Seq<u8> {
    let c = sum.spec_div(of_int(samples));
    seq![byte_of(c.x as int), byte_of(c.y as int), byte_of(c.z as int)]
}

/// The estimate after `ray` hits `s` at parameter `t`, given the random
/// inputs of the scatter step and the estimate `c` along the scattered ray:
/// black where the surface absorbs the ray, `c` times the attenuation otherwise.
pub open spec fn shade(s: Sphere, ray: Ray, t: int, unit: Vec3, draw: int, c: Vec3) -> Vec3 {
    match scatter_at(s, ray, t, unit, draw) {
        None => black(),
        Some((attenuation, _)) => c.spec_mul(attenuation),
    }
}

/// The scatter step where `ray` hits `s` at parameter `t`, given its random inputs.
pub open spec fn scatter_at(s: Sphere, ray: Ray, t: int, unit: Vec3, draw: int) -> Option<(Vec3, Ray)> {
    let point = ray.spec_at(t);
    let outward = s.outward_normal(point, ray.time as int);
    let front = faces_front(ray, outward);
    let normal = if front {
        outward
    } else {
        outward.spec_neg()
    };
    s.material.spec_scatter(ray, point, normal, front, unit, draw)
}

/// `color` is an estimate that `ray_color` may return along `ray` with
/// `depth` bounces left: black when none is left, the sky on a miss, and on
/// a hit the shading for some random inputs of the scatter step and some
/// estimate along the scattered ray with one bounce less.
#[verifier::opaque]
pub open spec fn estimate(world: Hittable, ray: Ray, depth: nat, color: Vec3) -> bool
    decreases depth,
{
    if depth == 0 {
        color == black()
    } else {
        match world.spec_hit(ray, T_MIN as int, LIMIT as int) {
            None => color == sky(ray.direction),
            Some((s, t)) => exists|unit: Vec3, draw: int, c: Vec3|
                unit_sample(unit) && 0 <= draw < ONE && #[trigger] shade(s, ray, t, unit, draw, c) == color
                    && match scatter_at(s, ray, t, unit, draw) {
                    None => true,
                    Some((_, out)) => estimate(world, out, (depth - 1) as nat, c),
                },
        }
    }
}

/// The sky color along `direction`.
pub fn sky_color(direction: &Vec3) -> (r: Vec3)
    ensures
        r == sky(*direction),
{
    let unit_direction = direction.normalize();
    let a = fixed::mul(fixed::add(unit_direction.y, ONE), ONE / 2);
    Vec3::ones().scale(fixed::sub(ONE, a)).add(&Vec3::new(ONE / 2, SKY_GREEN, ONE).scale(a))
}

/// One radiance estimate along `ray` with `depth` bounces left: black when
/// no bounce is left, the sky where the ray hits nothing, black where the
/// surface absorbs it, and otherwise the estimate along the scattered ray
/// times the attenuation.
pub fn ray_color(ray: &Ray, world: &Hittable, depth: u32) -> (r: Vec3)
    ensures
        depth == 0 ==> r == black(),
        depth > 0 && world.spec_hit(*ray, T_MIN as int, LIMIT as int).is_none() ==> r == sky(ray.direction),
        depth == 1 && world.spec_hit(*ray, T_MIN as int, LIMIT as int).is_some() ==> r == black(),
        estimate(*world, *ray, depth as nat, r),
    decreases depth,
{
    proof {
        reveal(estimate);
    }
    if depth == 0 {
        return Vec3::zeros();
    }
    match world.hit(ray, T_MIN, LIMIT) {
        Some(rec) => {
            let ghost (s, t) = world.spec_hit(*ray, T_MIN as int, LIMIT as int).unwrap();
            let scattered = rec.material.scatter(ray, &rec);
            let ghost (unit, draw) = choose|unit: Vec3, draw: int|
                unit_sample(unit) && 0 <= draw < ONE && scattered == rec.material.spec_scatter(
                    *ray,
                    rec.point,
                    rec.normal,
                    rec.front_face,
                    unit,
                    draw,
                );
            match scattered {
                Some((attenuation, out)) => {
                    let c = ray_color(&out, world, depth - 1);
                    let r = c.mul(&attenuation);
                    assert(r == shade(s, *ray, t, unit, draw, c));
                    assert(scatter_at(s, *ray, t, unit, draw) == Some((attenuation, out)));
                    if depth == 1 {
                        assert(c == black());
                        assert(floor_div(0, ONE as int) == 0);
                        assert(0 * attenuation.x == 0 && 0 * attenuation.y == 0 && 0 * attenuation.z == 0);
                        assert(r == black());
                    }
                    r
                },
                None => {
                    let r = Vec3::zeros();
                    assert(r == shade(s, *ray, t, unit, draw, r));
                    assert(scatter_at(s, *ray, t, unit, draw).is_none());
                    r
                },
            }
        },
        None => sky_color(&ray.direction),
    }
}

/// The gamma-2 correction of one component.
pub fn linear_to_gamma(linear_component: i64) -> (r: i64)
    ensures
        r == gamma(linear_component as int),
        r >= 0,
{
    if linear_component > 0 {
        fixed::sqrt(linear_component)
    } else {
        0
    }
}

fn to_byte(x: i64) -> (r: u8)
    ensures
        r == byte_of(x as int),
{
    let g = linear_to_gamma(x);
    let b = fixed::floor_div_int(fixed::mul(BYTE_SCALE, g), ONE);
    assert(b >= 0) by {
        assert(g >= 0);
        assert(BYTE_SCALE as int * g >= 0) by (nonlinear_arith)
            requires
                g >= 0,
        ;
        vstd::arithmetic::div_mod::lemma_div_pos_is_pos(BYTE_SCALE as int * g, ONE as int);
    }
    if b > 255 {
        255
    } else {
        b as u8
    }
}

/// The bytes of a pixel: the average of its samples, gamma-corrected and
/// quantized.
pub fn pixel_to_bytes(sum: &Vec3, samples_per_pixel: u32) -> (r: (u8, u8, u8))
    ensures
        seq![r.0, r.1, r.2] == pixel_bytes(*sum, samples_per_pixel as int),
{
    let c = sum.div(fixed::from_int(samples_per_pixel as i64));
    (to_byte(c.x), to_byte(c.y), to_byte(c.z))
}

/// The three bytes of pixel `p`.
pub open spec fn pixel_at(bytes: Seq<u8>, p: int) -> Seq<u8> {
    bytes.subrange(3 * p, 3 * p + 3)
}

/// `ray` and `color` are one sample of pixel `(i, j)`: a ray that the camera
/// may cast through the pixel, and an estimate along it.
pub open spec fn sample(camera: Camera, world: Hittable, i: int, j: int, depth: nat, ray: Ray, color: Vec3) -> bool {
    camera.possible_ray(i, j, ray) && estimate(world, ray, depth, color)
}

/// The sum of the colors, in order.
pub open spec fn sum_of(colors: Seq<Vec3>) -> Vec3
    decreases colors.len(),
{
    if colors.len() == 0 {
        black()
    } else {
        sum_of(colors.drop_last()).spec_add(colors.last())
    }
}

/// `rays` and `colors` are `n` samples of pixel `(i, j)`.
pub open spec fn samples_of(
    camera: Camera,
    world: Hittable,
    i: int,
    j: int,
    depth: nat,
    n: nat,
    rays: Seq<Ray>,
    colors: Seq<Vec3>,
) -> bool {
    &&& rays.len() == n
    &&& colors.len() == n
    &&& forall|k: int| 0 <= k < n ==> #[trigger] sample(camera, world, i, j, depth, rays[k], colors[k])
}

/// `sum` is the sum, in order, of `n` samples of pixel `(i, j)`.
pub open spec fn sample_sum(camera: Camera, world: Hittable, i: int, j: int, depth: nat, n: nat, sum: Vec3) -> bool {
    exists|rays: Seq<Ray>, colors: Seq<Vec3>|
        #[trigger] samples_of(camera, world, i, j, depth, n, rays, colors) && sum == sum_of(colors)
}

/// `px` are the bytes of pixel `(i, j)` for some sum of `samples` samples.
#[verifier::opaque]
pub open spec fn pixel_ok(camera: Camera, world: Hittable, i: int, j: int, depth: nat, samples: nat, px: Seq<u8>) -> bool {
    exists|sum: Vec3| #[trigger] sample_sum(camera, world, i, j, depth, samples, sum) && px == pixel_bytes(sum, samples as int)
}

/// `bytes` holds, three to a pixel, the first `n` pixels of row `j`.
pub open spec fn row_ok(
    camera: Camera,
    world: Hittable,
    j: int,
    depth: nat,
    samples: nat,
    bytes: Seq<u8>,
    n: int,
) -> bool {
    &&& bytes.len() == 3 * n
    &&& forall|p: int| 0 <= p < n ==> pixel_ok(camera, world, p, j, depth, samples, #[trigger] pixel_at(bytes, p))
}

/// `bytes` holds, three to a pixel, the first `n` pixels of an image `width`
/// pixels wide, row by row from the top.
pub open spec fn image_ok(
    camera: Camera,
    world: Hittable,
    width: int,
    depth: nat,
    samples: nat,
    bytes: Seq<u8>,
    n: int,
) -> bool {
    &&& bytes.len() == 3 * n
    &&& forall|p: int|
        0 <= p < n ==> pixel_ok(camera, world, p % width, p / width, depth, samples, #[trigger] pixel_at(bytes, p))
}

/// The sum of `samples_per_pixel` samples of pixel `(i, j)`.
fn sample_pixel(camera: &Camera, world: &Hittable, i: u32, j: u32, samples_per_pixel: u32, max_depth: u32) -> (r: Vec3)
    ensures
        sample_sum(*camera, *world, i as int, j as int, max_depth as nat, samples_per_pixel as nat, r),
{
    let mut color = Vec3::zeros();
    let mut s: u32 = 0;
    let ghost mut rays: Seq<Ray> = Seq::empty();
    let ghost mut colors: Seq<Vec3> = Seq::empty();
    while s < samples_per_pixel
        invariant
            s <= samples_per_pixel,
            samples_of(*camera, *world, i as int, j as int, max_depth as nat, s as nat, rays, colors),
            color == sum_of(colors),
        decreases samples_per_pixel - s,
    {
        let ray = camera.get_ray(i, j);
        let c = ray_color(&ray, world, max_depth);
        color = color.add(&c);
        proof {
            let old_colors = colors;
            rays = rays.push(ray);
            colors = colors.push(c);
            assert(colors.drop_last() =~= old_colors);
            assert(sample(*camera, *world, i as int, j as int, max_depth as nat, rays[s as int], colors[s as int]));
        }
        s += 1;
    }
    assert(samples_of(*camera, *world, i as int, j as int, max_depth as nat, samples_per_pixel as nat, rays, colors));
    color
}

/// Renders row `j` of an image `width` pixels wide: for each pixel, left to
/// right, the sum of `samples_per_pixel` samples turned into three bytes.
pub fn render_row(
    camera: &Camera,
    world: &Hittable,
    j: u32,
    width: u32,
    samples_per_pixel: u32,
    max_depth: u32,
) -> (r: Vec<u8>)
    ensures
        row_ok(*camera, *world, j as int, max_depth as nat, samples_per_pixel as nat, r@, width as int),
{
    let mut row: Vec<u8> = Vec::new();
    let mut i: u32 = 0;
    while i < width
        invariant
            i <= width,
            row_ok(*camera, *world, j as int, max_depth as nat, samples_per_pixel as nat, row@, i as int),
        decreases width - i,
    {
        let color = sample_pixel(camera, world, i, j, samples_per_pixel, max_depth);
        let (rb, gb, bb) = pixel_to_bytes(&color, samples_per_pixel);
        let ghost before = row@;
        row.push(rb);
        row.push(gb);
        row.push(bb);
        assert forall|p: int| 0 <= p < i + 1 implies pixel_ok(
            *camera,
            *world,
            p,
            j as int,
            max_depth as nat,
            samples_per_pixel as nat,
            #[trigger] pixel_at(row@, p),
        ) by {
            if p < i {
                assert(pixel_at(row@, p) =~= pixel_at(before, p));
            } else {
                reveal(pixel_ok);
                assert(pixel_at(row@, p) =~= seq![rb, gb, bb]);
                assert(sample_sum(
                    *camera,
                    *world,
                    i as int,
                    j as int,
                    max_depth as nat,
                    samples_per_pixel as nat,
                    color,
                ));
            }
        }
        i += 1;
    }
    row
}

/// Renders an image of `size` pixels: rows top to bottom, pixels left to
/// right, three bytes each.
pub fn render(
    camera: &Camera,
    world: &Hittable,
    size: (u32, u32),
    samples_per_pixel: u32,
    max_depth: u32,
) -> (r: Vec<u8>)
    ensures
        image_ok(
            *camera,
            *world,
            size.0 as int,
            max_depth as nat,
            samples_per_pixel as nat,
            r@,
            size.0 as int * size.1 as int,
        ),
{
    let mut buffer: Vec<u8> = Vec::new();
    let mut j: u32 = 0;
    let ghost w = size.0 as int;
    let ghost depth = max_depth as nat;
    let ghost samples = samples_per_pixel as nat;
    while j < size.1
        invariant
            j <= size.1,
            w == size.0 as int,
            depth == max_depth as nat,
            samples == samples_per_pixel as nat,
            image_ok(*camera, *world, w, depth, samples, buffer@, w * j as int),
        decreases size.1 - j,
    {
        let row = render_row(camera, world, j, size.0, samples_per_pixel, max_depth);
        let ghost before = buffer@;
        let ghost n = w * j as int;
        let mut k: usize = 0;
        while k < row.len()
            invariant
                k <= row@.len(),
                buffer@ == before + row@.subrange(0, k as int),
            decreases row@.len() - k,
        {
            buffer.push(row[k]);
            k += 1;
        }
        assert(buffer@ =~= before + row@);
        assert(w * (j + 1) as int == n + w) by (nonlinear_arith)
            requires
                n == w * j as int,
        ;
        assert forall|p: int| 0 <= p < n + w implies pixel_ok(
            *camera,
            *world,
            p % w,
            p / w,
            depth,
            samples,
            #[trigger] pixel_at(buffer@, p),
        ) by {
            if p < n {
                assert(pixel_at(buffer@, p) =~= pixel_at(before, p));
            } else {
                let q = p - n;
                assert(pixel_at(buffer@, p) =~= pixel_at(row@, q));
                assert(p == (j as int) * w + q) by (nonlinear_arith)
                    requires
                        q == p - n,
                        n == w * j as int,
                ;
                vstd::arithmetic::div_mod::lemma_fundamental_div_mod_converse(p, w, j as int, q);
            }
        }
        j += 1;
    }
    buffer
}

} // verus!
