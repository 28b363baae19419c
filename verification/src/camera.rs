//! The camera: an orthonormal viewing basis with a focus-plane viewport,
//! producing one world-space ray per normalized image coordinate, with
//! depth-of-field lens sampling.

use vstd::prelude::*;

use crate::fx::{fmul, fx_div, fx_mul, SCALE};
use crate::point3::Point3;
use crate::ray::Ray;
use crate::vec3::{lemma_smul_in_range, lemma_unitv_in_range, Vec3, V3};

verus! {

/// Limit on the components of the camera's viewport vectors.
pub const CAM_VEC_LIMIT: i128 = 0x140000000;

#[derive(Debug, Clone, Copy, PartialEq, Eq, Structural)]
pub struct Camera {
    pub origin: Point3,
    pub lower_left_corner: Point3,
    pub horizontal: Vec3,
    pub vertical: Vec3,
    pub w: Vec3,
    pub u: Vec3,
    pub v: Vec3,
    pub lens_radius: i128,
}

impl Camera {
    pub open spec fn wf(self) -> bool {
        &&& self.origin@.in_range(0x8000000)
        &&& self.lower_left_corner@.in_range(CAM_VEC_LIMIT as int)
        &&& self.horizontal@.in_range(CAM_VEC_LIMIT as int)
        &&& self.vertical@.in_range(CAM_VEC_LIMIT as int)
        &&& self.u@.in_range(0xA0000)
        &&& self.v@.in_range(0xA0000)
        &&& self.w@.in_range(0xA0000)
        &&& 0 <= self.lens_radius <= 0x100000
    }

    /// Build the viewing configuration. `tan_half_fov` is the tangent of
    /// half the vertical field-of-view angle, supplied by the caller since
    /// the tangent itself is transcendental; every other parameter matches
    /// the classical construction: an orthonormal basis aimed from
    /// `look_from` to `look_at`, viewport extents scaled by the field of
    /// view, the aspect ratio and the focus distance, and a lens radius of
    /// half the aperture.
    pub fn new(
        look_from: Point3,
        look_at: Point3,
        vup: Vec3,
        tan_half_fov: i128,
        aspect_ratio: i128,
        aperture: i128,
        focus_distance: i128,
    ) -> (cam: Camera)
        requires
            look_from@.in_range(0x8000000),
            look_at@.in_range(0x8000000),
            vup@.in_range(0x1000000),
            0 <= tan_half_fov <= 0x100000,
            0 < aspect_ratio <= 0x40000,
            0 <= aperture <= 0x200000,
            0 < focus_distance <= 0x1000000,
        ensures
            cam.wf(),
            cam.origin == look_from,
            cam.w@ == look_from@.minus(look_at@).unitv(),
            cam.u@ == vup@.crossv(cam.w@).unitv(),
            cam.v@ == cam.w@.crossv(cam.u@),
            cam.horizontal@ == cam.u@.smul(
                fmul(focus_distance as int, fmul(aspect_ratio as int, 2 * tan_half_fov as int)),
            ),
            cam.vertical@ == cam.v@.smul(fmul(focus_distance as int, 2 * tan_half_fov as int)),
            cam.lower_left_corner@ == look_from@.minus(
                cam.horizontal@.sdiv(2 * (SCALE as int)),
            ).minus(cam.vertical@.sdiv(2 * (SCALE as int))).minus(
                cam.w@.smul(focus_distance as int),
            ),
            cam.lens_radius == crate::fx::fquot(aperture as int, 2 * (SCALE as int)),
    {
        let viewport_height = 2 * tan_half_fov;
        let viewport_width = fx_mul(aspect_ratio, viewport_height);
        proof {
            crate::fx::lemma_fmul_abs_bound(
                aspect_ratio as int,
                viewport_height as int,
                0x40000,
                0x200000,
            );
        }

        let w = look_from.sub(look_at).unit_vector();
        proof {
            lemma_unitv_in_range(look_from@.minus(look_at@));
        }
        proof {
            crate::vec3::lemma_crossv_in_range(vup@, w@, 0x1000000, 0x20000);
        }
        let u = vup.cross(w).unit_vector();
        proof {
            lemma_unitv_in_range(vup@.crossv(w@));
            crate::vec3::lemma_crossv_in_range(w@, u@, 0x20000, 0x20000);
        }
        let v = w.cross(u);

        let origin = look_from;
        let k_h = fx_mul(focus_distance, viewport_width);
        proof {
            crate::fx::lemma_fmul_abs_bound(
                focus_distance as int,
                viewport_width as int,
                0x1000000,
                0x800001,
            );
            lemma_smul_in_range(u@, k_h as int, 0x20000, 0x80000101);
        }
        let horizontal = u.mul_scalar(k_h);
        let k_v = fx_mul(focus_distance, viewport_height);
        proof {
            crate::fx::lemma_fmul_abs_bound(
                focus_distance as int,
                viewport_height as int,
                0x1000000,
                0x200000,
            );
            lemma_smul_in_range(v@, k_v as int, 0x80002, 0x20000001);
        }
        let vertical = v.mul_scalar(k_v);
        proof {
            crate::vec3::lemma_sdiv_in_range(horizontal@, 2 * (SCALE as int), 0x100000203);
            crate::vec3::lemma_sdiv_in_range(vertical@, 2 * (SCALE as int), 0x100004009);
            lemma_smul_in_range(w@, focus_distance as int, 0x20000, 0x1000000);
        }
        let lower_left_corner = origin.sub(horizontal.div_scalar(2 * SCALE)).sub(
            vertical.div_scalar(2 * SCALE),
        ).sub(w.mul_scalar(focus_distance));

        proof {
            crate::fx::lemma_div_floor_bound(
                (aperture as int) * (SCALE as int),
                0x200000 * (SCALE as int),
                2 * (SCALE as int),
            );
            vstd::arithmetic::div_mod::lemma_div_pos_is_pos(
                (aperture as int) * (SCALE as int),
                2 * (SCALE as int),
            );
        }
        let lens_radius = fx_div(aperture, 2 * SCALE);

        Self { origin, horizontal, vertical, lower_left_corner, w, u, v, lens_radius }
    }

    /// The lens offset a given disk sample produces.
    pub open spec fn offset_spec(self, rd: V3) -> V3 {
        self.u@.smul(rd.x).plus(self.v@.smul(rd.y))
    }

    /// The ray through normalized image coordinates (u, v) for a given lens
    /// offset: from the shifted origin toward the unshifted point on the
    /// focus plane.
    pub open spec fn ray_toward_spec(self, u: int, v: int, offset: V3) -> Ray {
        Ray {
            origin: Vec3 {
                x: (self.origin@.x + offset.x) as i128,
                y: (self.origin@.y + offset.y) as i128,
                z: (self.origin@.z + offset.z) as i128,
            },
            direction: Vec3 {
                x: (self.lower_left_corner@.x + fmul(u, self.horizontal@.x) + fmul(
                    v,
                    self.vertical@.x,
                ) - self.origin@.x - offset.x) as i128,
                y: (self.lower_left_corner@.y + fmul(u, self.horizontal@.y) + fmul(
                    v,
                    self.vertical@.y,
                ) - self.origin@.y - offset.y) as i128,
                z: (self.lower_left_corner@.z + fmul(u, self.horizontal@.z) + fmul(
                    v,
                    self.vertical@.z,
                ) - self.origin@.z - offset.z) as i128,
            },
        }
    }

    /// A ray `get_ray` may produce for coordinates (u, v): the aiming
    /// formula for some lens-disk offset.
    pub open spec fn ray_from_spec(self, u: int, v: int, r: Ray) -> bool {
        exists|rd: V3|
            rd.in_range(0x100001) && r == self.ray_toward_spec(u, v, (#[trigger] self.offset_spec(
                rd,
            )))
    }

    /// A ray for image coordinates (u, v), with its origin jittered across
    /// the lens disk; with a closed aperture the ray is deterministic.
    pub fn get_ray(&self, u: i128, v: i128) -> (r: Ray)
        requires
            self.wf(),
            0 <= u <= 2 * SCALE,
            0 <= v <= 2 * SCALE,
        ensures
            r.wf(),
            self.ray_from_spec(u as int, v as int, r),
            self.lens_radius == 0 ==> r == self.ray_toward_spec(u as int, v as int, V3::zero()),
    {
        let disk = Vec3::random_in_unit_disk();
        proof {
            lemma_smul_in_range(disk@, self.lens_radius as int, SCALE as int, 0x100000);
        }
        let rd = disk.mul_scalar(self.lens_radius);
        proof {
            lemma_smul_in_range(self.u@, rd@.x, 0xA0000, 0x100001);
            lemma_smul_in_range(self.v@, rd@.y, 0xA0000, 0x100001);
        }
        let offset = self.u.mul_scalar(rd.x).add(self.v.mul_scalar(rd.y));
        proof {
            lemma_smul_in_range(self.horizontal@, u as int, CAM_VEC_LIMIT as int, 2 * (
            SCALE as int));
            lemma_smul_in_range(self.vertical@, v as int, CAM_VEC_LIMIT as int, 2 * (
            SCALE as int));
        }
        let direction = self.lower_left_corner.add(self.horizontal.mul_scalar(u)).add(
            self.vertical.mul_scalar(v),
        ).sub(self.origin).sub(offset);
        let r = Ray::new(self.origin.add(offset), direction);
        proof {
            assert(rd@.in_range(0x100001) && r == self.ray_toward_spec(
                u as int,
                v as int,
                self.offset_spec(rd@),
            ));
            if self.lens_radius == 0 {
                assert(0 * disk@.x == 0 && 0 * disk@.y == 0 && 0 * disk@.z == 0)
                    by (nonlinear_arith);
                assert(0 * self.u@.x == 0 && 0 * self.u@.y == 0 && 0 * self.u@.z == 0 && 0
                    * self.v@.x == 0 && 0 * self.v@.y == 0 && 0 * self.v@.z == 0)
                    by (nonlinear_arith);
            }
        }
        r
    }
}

} // verus!
