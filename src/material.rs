//! Materials: how a ray continues after it strikes a surface.
use vstd::prelude::*;
use crate::fixed::{self, ONE, LIMIT, add_spec, sub_spec, mul_spec, div_spec, sqrt_spec, min_spec, sat};
use crate::hittable::HitRecord;
use crate::random::{self, unit_sample};
use crate::ray::Ray;
use crate::texture::{Checkered, Solid, Texture};
use crate::vec3::Vec3;

verus! {

/// The smallest positive scalar. A Lambertian scatter direction whose
/// components all lie below it is replaced by the normal.
pub const NEAR_ZERO: i64 = 1;

/// Diffuse reflection, colored by a texture.
#[derive(Debug)]
pub struct Lambertian {
    pub texture: Texture,
}

/// Glossy reflection with a fixed color, blurred by `fuzz` (in `[0, ONE]`).
#[derive(Clone, Copy, PartialEq, Eq, Structural, Debug)]
pub struct Metal {
    pub albedo: Vec3,
    pub fuzz: i64,
}

/// Refraction, as through glass with the given index.
#[derive(Clone, Copy, PartialEq, Eq, Structural, Debug)]
pub struct Dielectric {
    pub refraction_index: i64,
}

/// A surface's response to light.
#[derive(Debug)]
pub enum Material {
    Lambertian(Lambertian),
    Metal(Metal),
    Dielectric(Dielectric),
}

/// `v` mirrored about the plane with normal `n`: `v - 2 (v . n) n`.
pub open spec fn spec_reflect(v: Vec3, n: Vec3) -> Vec3 {
    v.spec_sub(n.spec_scale(v.spec_dot(n)).spec_scale(2 * ONE))
}

/// The cosine of the angle between `-uv` and `n`, clamped to at most one.
pub open spec fn cos_incidence(uv: Vec3, n: Vec3) -> int {
    min_spec(sat(-uv.spec_dot(n)), ONE as int)
}

/// The direction of `uv` refracted through the surface with normal `n`, for
/// the ratio `eta` of refraction indices: the sum of its part perpendicular
/// to the normal and its part along it.
pub open spec fn spec_refract(uv: Vec3, n: Vec3, eta: int) -> Vec3 {
    let perp = uv.spec_add(n.spec_scale(cos_incidence(uv, n))).spec_scale(eta);
    let along = sqrt_spec(abs(sub_spec(ONE as int, perp.spec_dot(perp))));
    perp.spec_add(n.spec_scale(sat(-along)))
}

/// `x` to the power `k`.
pub open spec fn pow_fx(x: int, k: nat) -> int
    decreases k,
{
    if k == 0 {
        ONE as int
    } else {
        mul_spec(pow_fx(x, (k - 1) as nat), x)
    }
}

/// Schlick's approximation of the reflectance: `r0 + (1 - r0)(1 - cos)^5`
/// with `r0 = ((1 - ri) / (1 + ri))^2`.
pub open spec fn spec_reflectance(cosine: int, ri: int) -> int {
    let r = div_spec(sub_spec(ONE as int, ri), add_spec(ONE as int, ri));
    let r0 = mul_spec(r, r);
    add_spec(r0, mul_spec(sub_spec(ONE as int, r0), pow_fx(sub_spec(ONE as int, cosine), 5)))
}

pub open spec fn abs(x: int) -> int {
    if x < 0 {
        -x
    } else {
        x
    }
}

/// All components of `v` lie below `NEAR_ZERO`.
pub open spec fn below_near_zero(v: Vec3) -> bool {
    v.x < NEAR_ZERO && v.y < NEAR_ZERO && v.z < NEAR_ZERO
}

impl Lambertian {
    /// The diffuse direction: the normal plus the random unit vector `unit`,
    /// or the normal alone where that sum is degenerate.
    pub open spec fn scatter_direction(normal: Vec3, unit: Vec3) -> Vec3 {
        let d = normal.spec_add(unit);
        if below_near_zero(d) {
            normal
        } else {
            d
        }
    }
}

impl Metal {
    /// The reflected direction, made unit length and perturbed by `fuzz * unit`.
    pub open spec fn fuzzed(self, dir: Vec3, normal: Vec3, unit: Vec3) -> Vec3 {
        spec_reflect(dir, normal).spec_normalize().spec_add(unit.spec_scale(self.fuzz as int))
    }
}

impl Dielectric {
    /// The ratio of refraction indices at the surface: entering through the
    /// front face divides by the index, leaving through the back multiplies.
    pub open spec fn ratio(self, front_face: bool) -> int {
        if front_face {
            div_spec(ONE as int, self.refraction_index as int)
        } else {
            self.refraction_index as int
        }
    }

    /// Refraction is impossible at this incidence: total internal reflection.
    pub open spec fn must_reflect(self, dir: Vec3, normal: Vec3, front_face: bool) -> bool {
        let unit = dir.spec_normalize();
        let cos = cos_incidence(unit, normal);
        let sin = sqrt_spec(sub_spec(ONE as int, mul_spec(cos, cos)));
        mul_spec(self.ratio(front_face), sin) > ONE
    }

    /// The outgoing direction for the uniform draw `draw` from `[0, ONE)`:
    /// a reflection under total internal reflection or where the draw falls
    /// below the reflectance, a refraction otherwise.
    pub open spec fn direction(self, dir: Vec3, normal: Vec3, front_face: bool, draw: int) -> Vec3 {
        let ri = self.ratio(front_face);
        let unit = dir.spec_normalize();
        let cos = cos_incidence(unit, normal);
        if self.must_reflect(dir, normal, front_face) || spec_reflectance(cos, ri) > draw {
            spec_reflect(unit, normal)
        } else {
            spec_refract(unit, normal, ri)
        }
    }
}

impl Material {
    /// The scatter step for a ray `r_in` that struck `point` with facing
    /// `normal` on side `front_face`, given the random unit vector `unit`
    /// and the uniform draw `draw` that the step uses: the attenuation and
    /// the outgoing ray, or `None` where the ray is absorbed.
    pub open spec fn spec_scatter(
        self,
        r_in: Ray,
        point: Vec3,
        normal: Vec3,
        front_face: bool,
        unit: Vec3,
        draw: int,
    ) -> Option<(Vec3, Ray)> {
        match self {
            Material::Lambertian(l) => Some(
                (
                    l.texture.spec_value(point),
                    Ray {
                        origin: point,
                        direction: Lambertian::scatter_direction(normal, unit),
                        time: r_in.time,
                    },
                ),
            ),
            Material::Metal(m) => {
                let reflected = m.fuzzed(r_in.direction, normal, unit);
                if reflected.spec_dot(normal) > 0 {
                    Some((m.albedo, Ray { origin: point, direction: reflected, time: r_in.time }))
                } else {
                    None
                }
            },
            Material::Dielectric(d) => Some(
                (
                    Vec3::from_v_spec(ONE as int),
                    Ray {
                        origin: point,
                        direction: d.direction(r_in.direction, normal, front_face, draw),
                        time: r_in.time,
                    },
                ),
            ),
        }
    }
}

impl Lambertian {
    pub fn new(texture: Texture) -> (r: Lambertian)
        ensures
            r.texture == texture,
    {
        Lambertian { texture }
    }

    /// A diffuse material of one color.
    pub fn solid(albedo: Vec3) -> (r: Lambertian)
        ensures
            r.texture == Texture::Solid(Solid { albedo }),
    {
        Lambertian::new(Texture::Solid(Solid::new(albedo)))
    }

    /// A diffuse material with a checker pattern of two colors.
    pub fn checkered(scale: i64, even_albedo: Vec3, odd_albedo: Vec3) -> (r: Lambertian)
        ensures
            r.texture == Texture::Checkered(
                Checkered {
                    scale,
                    even: Box::new(Texture::Solid(Solid { albedo: even_albedo })),
                    odd: Box::new(Texture::Solid(Solid { albedo: odd_albedo })),
                },
            ),
    {
        Lambertian::new(
            Texture::Checkered(
                Checkered::new(
                    scale,
                    Box::new(Texture::Solid(Solid::new(even_albedo))),
                    Box::new(Texture::Solid(Solid::new(odd_albedo))),
                ),
            ),
        )
    }
}

impl Metal {
    /// A metal; the fuzz is clamped to `[0, ONE]`.
    pub fn new(albedo: Vec3, fuzz: i64) -> (r: Metal)
        ensures
            r.albedo == albedo,
            r.fuzz == if fuzz < 0 {
                0
            } else if fuzz > ONE {
                ONE
            } else {
                fuzz
            },
    {
        Metal { albedo, fuzz: fixed::min(fixed::max(fuzz, 0), ONE) }
    }
}

impl Dielectric {
    pub fn new(refraction_index: i64) -> (r: Dielectric)
        ensures
            r.refraction_index == refraction_index,
    {
        Dielectric { refraction_index }
    }
}

/// `vector` mirrored about the plane with normal `normal`.
pub fn reflect(vector: &Vec3, normal: &Vec3) -> (r: Vec3)
    ensures
        r == spec_reflect(*vector, *normal),
{
    vector.sub(&normal.scale(vector.dot(normal)).scale(2 * ONE))
}

fn cos_of(uv: &Vec3, normal: &Vec3) -> (r: i64)
    ensures
        r == cos_incidence(*uv, *normal),
{
    fixed::min(fixed::neg(uv.dot(normal)), ONE)
}

/// `uv` refracted through the surface with normal `normal` for the ratio
/// `etai_over_etat` of refraction indices.
pub fn refract(uv: &Vec3, normal: &Vec3, etai_over_etat: i64) -> (r: Vec3)
    ensures
        r == spec_refract(*uv, *normal, etai_over_etat as int),
{
    let cos_theta = cos_of(uv, normal);
    let r_out_perp = uv.add(&normal.scale(cos_theta)).scale(etai_over_etat);
    let d = fixed::sub(ONE, r_out_perp.length_squared());
    let d_abs = if d < 0 {
        -d
    } else {
        d
    };
    let r_out_parallel = normal.scale(fixed::neg(fixed::sqrt(d_abs)));
    r_out_perp.add(&r_out_parallel)
}

/// Schlick's approximation of the reflectance at incidence `cosine`.
pub fn reflectance(cosine: i64, refraction_index: i64) -> (r: i64)
    ensures
        r == spec_reflectance(cosine as int, refraction_index as int),
{
    let r = fixed::div(fixed::sub(ONE, refraction_index), fixed::add(ONE, refraction_index));
    let r0 = fixed::mul(r, r);
    let x = fixed::sub(ONE, cosine);
    let mut p = ONE;
    let mut k: u32 = 0;
    while k < 5
        invariant
            k <= 5,
            p == pow_fx(x as int, k as nat),
        decreases 5 - k,
    {
        p = fixed::mul(p, x);
        k += 1;
    }
    fixed::add(r0, fixed::mul(fixed::sub(ONE, r0), p))
}

impl Material {
    /// The scatter step with its random inputs given: `unit`, a random unit
    /// vector (used by diffuse and metal surfaces), and `draw`, a uniform
    /// draw from `[0, ONE)` (used by dielectrics).
    pub fn scatter_with(&self, r_in: &Ray, rec: &HitRecord, unit: &Vec3, draw: i64) -> (r: Option<(Vec3, Ray)>)
        ensures
            r == self.spec_scatter(*r_in, rec.point, rec.normal, rec.front_face, *unit, draw as int),
    {
        match self {
            Material::Lambertian(l) => {
                let mut scatter_direction = rec.normal.add(unit);
                if scatter_direction.x < NEAR_ZERO && scatter_direction.y < NEAR_ZERO
                    && scatter_direction.z < NEAR_ZERO {
                    scatter_direction = rec.normal;
                }
                Some((l.texture.value(rec.uv, &rec.point), Ray::new(rec.point, scatter_direction, r_in.time)))
            },
            Material::Metal(m) => {
                let reflected = reflect(&r_in.direction, &rec.normal).normalize().add(&unit.scale(m.fuzz));
                if reflected.dot(&rec.normal) > 0 {
                    Some((m.albedo, Ray::new(rec.point, reflected, r_in.time)))
                } else {
                    None
                }
            },
            Material::Dielectric(d) => {
                let ri = if rec.front_face {
                    fixed::div(ONE, d.refraction_index)
                } else {
                    d.refraction_index
                };
                let unit_direction = r_in.direction.normalize();
                let cos_theta = cos_of(&unit_direction, &rec.normal);
                let sin_theta = fixed::sqrt(fixed::sub(ONE, fixed::mul(cos_theta, cos_theta)));
                let direction = if fixed::mul(ri, sin_theta) > ONE || reflectance(cos_theta, ri) > draw {
                    reflect(&unit_direction, &rec.normal)
                } else {
                    refract(&unit_direction, &rec.normal, ri)
                };
                Some((Vec3::ones(), Ray::new(rec.point, direction, r_in.time)))
            },
        }
    }

    /// One scatter step with fresh random inputs: the result is that of
    /// `scatter_with` for some random unit vector and some draw from `[0, ONE)`.
    pub fn scatter(&self, r_in: &Ray, rec: &HitRecord) -> (r: Option<(Vec3, Ray)>)
        ensures
            exists|unit: Vec3, draw: int|
                unit_sample(unit) && 0 <= draw < ONE && r == self.spec_scatter(
                    *r_in,
                    rec.point,
                    rec.normal,
                    rec.front_face,
                    unit,
                    draw,
                ),
    {
        let unit = random::random_unit_vector();
        let draw = random::random();
        self.scatter_with(r_in, rec, &unit, draw)
    }
}

/// A dielectric of index one bends nothing: on either face the ratio of
/// indices is one, and Schlick's `r0` vanishes, leaving the reflectance
/// `(1 - cos)^5`.
pub proof fn lemma_dielectric_index_one(d: Dielectric, front_face: bool, cosine: int)
    requires
        d.refraction_index == ONE,
    ensures
        d.ratio(front_face) == ONE,
        spec_reflectance(cosine, ONE as int) == pow_fx(sub_spec(ONE as int, cosine), 5),
{
    let x = sub_spec(ONE as int, cosine);
    assert(div_spec(ONE as int, ONE as int) == ONE) by {
        assert(ONE as int * ONE == ONE * ONE);
        vstd::arithmetic::div_mod::lemma_div_by_multiple(ONE as int, ONE as int);
    }
    assert(div_spec(0, 2 * ONE) == 0);
    assert(mul_spec(0, 0) == 0);
    lemma_pow_fx_range(x, 5);
    assert(mul_spec(ONE as int, pow_fx(x, 5)) == pow_fx(x, 5)) by {
        vstd::arithmetic::div_mod::lemma_div_multiples_vanish(pow_fx(x, 5), ONE as int);
    }
}

/// Powers stay within the saturation range.
proof fn lemma_pow_fx_range(x: int, k: nat)
    ensures
        -LIMIT <= pow_fx(x, k) <= LIMIT,
    decreases k,
{
    if k > 0 {
        lemma_pow_fx_range(x, (k - 1) as nat);
    }
}

} // verus!
