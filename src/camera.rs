//! The camera: from a pixel and random jitter to a ray, with an optional thin lens.
use vstd::prelude::*;
use crate::fixed::{self, ONE, mul_spec, div_spec, add_spec, of_int};
use crate::random::{self, disk_sample};
use crate::ray::Ray;
use crate::vec3::Vec3;

verus! {

/// A camera with a fixed frame, computed once.
#[derive(Clone, Copy, PartialEq, Eq, Structural, Debug)]
pub struct Camera {
    pub center: Vec3,
    pub pixel_delta_u: Vec3,
    pub pixel_delta_v: Vec3,
    pub pixel00_loc: Vec3,
    /// The tangent of half the defocus angle; a value that is not positive
    /// makes a pinhole camera.
    pub defocus_angle: i64,
    pub defocus_disk_u: Vec3,
    pub defocus_disk_v: Vec3,
}

impl Camera {
    /// The camera that `new` builds. `w` points back from the view, `u` to
    /// the right and `v` up; the viewport is `2 * focus_dist * tan_half_vfov`
    /// high, as wide as the image's aspect ratio makes it, and lies
    /// `focus_dist` in front of the camera.
    pub open spec fn spec_new(
        look_from: Vec3,
        look_at: Vec3,
        vup: Vec3,
        tan_half_vfov: int,
        tan_half_defocus: int,
        focus_dist: int,
        width: int,
        height: int,
    ) -> Camera {
        let viewport_height = mul_spec(mul_spec(2 * ONE, focus_dist), tan_half_vfov);
        let viewport_width = mul_spec(viewport_height, div_spec(of_int(width), of_int(height)));
        let w = look_from.spec_sub(look_at).spec_normalize();
        let u = vup.spec_cross(w).spec_normalize();
        let v = w.spec_cross(u);
        let viewport_u = u.spec_scale(viewport_width);
        let viewport_v = v.spec_neg().spec_scale(viewport_height);
        let pixel_delta_u = viewport_u.spec_div(of_int(width));
        let pixel_delta_v = viewport_v.spec_div(of_int(height));
        let upper_left = look_from.spec_sub(w.spec_scale(focus_dist)).spec_sub(viewport_u.spec_div(2 * ONE)).spec_sub(
            viewport_v.spec_div(2 * ONE),
        );
        let pixel00_loc = upper_left.spec_add(pixel_delta_u.spec_add(pixel_delta_v).spec_scale(ONE / 2));
        let defocus_radius = mul_spec(focus_dist, tan_half_defocus);
        Camera {
            center: look_from,
            pixel_delta_u,
            pixel_delta_v,
            pixel00_loc,
            defocus_angle: tan_half_defocus as i64,
            defocus_disk_u: u.spec_scale(defocus_radius),
            defocus_disk_v: v.spec_scale(defocus_radius),
        }
    }

    /// The point of the lens for the disk sample `p`.
    pub open spec fn lens_point(self, p: Vec3) -> Vec3 {
        self.center.spec_add(self.defocus_disk_u.spec_scale(p.x as int)).spec_add(
            self.defocus_disk_v.spec_scale(p.y as int),
        )
    }

    /// The ray through pixel `(i, j)` jittered by `offset`, from the camera
    /// center for a pinhole camera and from the lens point of `disk` otherwise.
    pub open spec fn spec_ray(self, i: int, j: int, offset: Vec3, disk: Vec3, time: int) -> Ray {
        let pixel_sample = self.pixel00_loc.spec_add(
            self.pixel_delta_u.spec_scale(add_spec(offset.x as int, of_int(i))),
        ).spec_add(self.pixel_delta_v.spec_scale(add_spec(offset.y as int, of_int(j))));
        let origin = if self.defocus_angle <= 0 {
            self.center
        } else {
            self.lens_point(disk)
        };
        Ray { origin, direction: pixel_sample.spec_sub(origin), time: time as i64 }
    }

    /// `r` is a ray that `get_ray` may return for pixel `(i, j)`: one for
    /// some jitter in `[-ONE/2, ONE/2)^2`, some disk sample and some time in `[0, ONE)`.
    #[verifier::opaque]
    pub open spec fn possible_ray(self, i: int, j: int, r: Ray) -> bool {
        exists|offset: Vec3, disk: Vec3, time: int|
            -ONE / 2 <= offset.x < ONE / 2 && -ONE / 2 <= offset.y < ONE / 2 && offset.z == 0
                && disk_sample(disk) && 0 <= time < ONE && #[trigger] self.spec_ray(i, j, offset, disk, time) == r
    }

    /// Builds the camera at `look_from` looking at `look_at`, with `vup` the
    /// up direction, for an image of `image_size` pixels. The angles come as
    /// the tangents of their halves: `tan_half_vfov` of the vertical field of
    /// view and `tan_half_defocus` of the defocus angle.
    pub fn new(
        look_from: Vec3,
        look_at: Vec3,
        vup: Vec3,
        tan_half_vfov: i64,
        tan_half_defocus: i64,
        focus_dist: i64,
        image_size: (u32, u32),
    ) -> (r: Camera)
        ensures
            r == Camera::spec_new(
                look_from,
                look_at,
                vup,
                tan_half_vfov as int,
                tan_half_defocus as int,
                focus_dist as int,
                image_size.0 as int,
                image_size.1 as int,
            ),
    {
        let width = fixed::from_int(image_size.0 as i64);
        let height = fixed::from_int(image_size.1 as i64);
        let viewport_height = fixed::mul(fixed::mul(2 * ONE, focus_dist), tan_half_vfov);
        let viewport_width = fixed::mul(viewport_height, fixed::div(width, height));
        let w = look_from.sub(&look_at).normalize();
        let u = vup.cross(&w).normalize();
        let v = w.cross(&u);
        let viewport_u = u.scale(viewport_width);
        let viewport_v = v.neg().scale(viewport_height);
        let pixel_delta_u = viewport_u.div(width);
        let pixel_delta_v = viewport_v.div(height);
        let viewport_upper_left = look_from.sub(&w.scale(focus_dist)).sub(&viewport_u.div(2 * ONE)).sub(
            &viewport_v.div(2 * ONE),
        );
        let pixel00_loc = viewport_upper_left.add(&pixel_delta_u.add(&pixel_delta_v).scale(ONE / 2));
        let defocus_radius = fixed::mul(focus_dist, tan_half_defocus);
        Camera {
            center: look_from,
            pixel_delta_u,
            pixel_delta_v,
            pixel00_loc,
            defocus_angle: tan_half_defocus,
            defocus_disk_u: u.scale(defocus_radius),
            defocus_disk_v: v.scale(defocus_radius),
        }
    }

    /// The ray for pixel `(i, j)` with its random inputs given: the jitter
    /// `offset`, the disk sample `disk` (used only with a lens) and the time.
    pub fn get_ray_with(&self, i: u32, j: u32, offset: &Vec3, disk: &Vec3, time: i64) -> (r: Ray)
        ensures
            r == self.spec_ray(i as int, j as int, *offset, *disk, time as int),
    {
        let pixel_sample = self.pixel00_loc.add(
            &self.pixel_delta_u.scale(fixed::add(offset.x, fixed::from_int(i as i64))),
        ).add(&self.pixel_delta_v.scale(fixed::add(offset.y, fixed::from_int(j as i64))));
        let origin = if self.defocus_angle <= 0 {
            self.center
        } else {
            self.center.add(&self.defocus_disk_u.scale(disk.x)).add(&self.defocus_disk_v.scale(disk.y))
        };
        Ray::new(origin, pixel_sample.sub(&origin), time)
    }

    /// A random ray through pixel `(i, j)`: jittered within the pixel, from a
    /// random point of the lens unless the camera is a pinhole, at a random
    /// time in `[0, ONE)`. A pinhole camera's rays all start at its center.
    pub fn get_ray(&self, i: u32, j: u32) -> (r: Ray)
        ensures
            self.possible_ray(i as int, j as int, r),
            self.defocus_angle <= 0 ==> r.origin == self.center,
    {
        proof {
            reveal(Camera::possible_ray);
        }
        let offset = random::sample_square();
        let time = random::random();
        if self.defocus_angle <= 0 {
            let center = Vec3::zeros();
            assert(disk_sample(center));
            self.get_ray_with(i, j, &offset, &center, time)
        } else {
            let disk = random::random_in_unit_disk();
            self.get_ray_with(i, j, &offset, &disk, time)
        }
    }
}

} // verus!
