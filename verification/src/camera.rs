use crate::math::{abs_i, lemma_tdiv_bound, tdiv, tdiv_i128, SCALE};
use crate::ray::{ray_wf, Ray};
use crate::vec3::{
    add_v, bounded, cross_v, div_v, lemma_scale_bounded, near_zero_v, raw_dot, raw_norm, scale_v,
    sub_v, unit_v, v3, Point3, Vec3, V3,
};
use vstd::prelude::*;

verus! {

/// Mathematical view of a camera.
pub ghost struct CameraV {
    pub origin: V3,
    pub horizontal: V3,
    pub vertical: V3,
    pub lower_left_corner: V3,
    pub u: V3,
    pub v: V3,
    pub w: V3,
    pub lens_radius: int,
}

/// Maps normalized image-plane coordinates to primary rays, through an
/// orthonormal basis derived once at construction, with a thin-lens
/// depth-of-field model.
pub struct Camera {
    origin: Point3,
    horizontal: Vec3,
    vertical: Vec3,
    lower_left_corner: Point3,
    u: Vec3,
    v: Vec3,
    w: Vec3,
    lens_radius: i64,
}

impl View for Camera {
    type V = CameraV;

    closed spec fn view(&self) -> CameraV {
        CameraV {
            origin: self.origin@,
            horizontal: self.horizontal@,
            vertical: self.vertical@,
            lower_left_corner: self.lower_left_corner@,
            u: self.u@,
            v: self.v@,
            w: self.w@,
            lens_radius: self.lens_radius as int,
        }
    }
}

/// The derived quantities stay small enough that every primary ray is
/// well-formed.
pub open spec fn camera_wf(c: CameraV) -> bool {
    &&& bounded(c.origin, 50_000_000)
    &&& bounded(c.horizontal, 17_000_000)
    &&& bounded(c.vertical, 33_000_000)
    &&& bounded(c.lower_left_corner, 130_000_000)
    &&& bounded(c.u, 1_000_000)
    &&& bounded(c.v, 2_000_000)
    &&& bounded(c.w, 1_000_000)
    &&& abs_i(raw_norm(c.u) - 1_000_000_000_000) <= 11_000_000
    &&& abs_i(raw_norm(c.w) - 1_000_000_000_000) <= 11_000_000
    &&& abs_i(raw_dot(c.u, c.v)) <= 3_000_000
    &&& 0 <= c.lens_radius <= 2_000_000
}

/// A point that may come back from the lens-disk sampler.
pub open spec fn disk_sample(d: V3) -> bool {
    &&& bounded(d, 1_000_000)
    &&& d.z == 0
    &&& raw_norm(d) < 1_000_000_000_000
}

/// With a closed lens the offset vanishes for every disk sample.
pub proof fn lemma_cam_offset_zero(c: CameraV, d: V3)
    requires
        c.lens_radius == 0,
    ensures
        cam_offset(c, d) == v3(0, 0, 0),
{
    assert(0 * d.x == 0) by (nonlinear_arith);
    assert(0 * d.y == 0) by (nonlinear_arith);
    assert(0 * d.z == 0) by (nonlinear_arith);
    crate::math::lemma_tdiv_bound(0, SCALE as int, 0);
    let rd = scale_v(0, d);
    assert(rd == v3(0, 0, 0));
    assert(0 * c.u.x == 0) by (nonlinear_arith);
    assert(0 * c.u.y == 0) by (nonlinear_arith);
    assert(0 * c.u.z == 0) by (nonlinear_arith);
    assert(0 * c.v.x == 0) by (nonlinear_arith);
    assert(0 * c.v.y == 0) by (nonlinear_arith);
    assert(0 * c.v.z == 0) by (nonlinear_arith);
}

/// The lens offset for a unit-disk sample: the sample scaled to the lens
/// radius, spread over the camera's horizontal and vertical basis.
pub open spec fn cam_offset(c: CameraV, disk: V3) -> V3 {
    let rd = scale_v(c.lens_radius, disk);
    add_v(scale_v(rd.x, c.u), scale_v(rd.y, c.v))
}

/// The unguarded primary-ray direction for image-plane coordinates
/// `(s, t)` and the given lens offset.
pub open spec fn cam_dir(c: CameraV, s: int, t: int, disk: V3) -> V3 {
    sub_v(
        sub_v(
            add_v(add_v(c.lower_left_corner, scale_v(s, c.horizontal)), scale_v(t, c.vertical)),
            c.origin,
        ),
        cam_offset(c, disk),
    )
}

impl Camera {
    /// Builds the camera basis and viewport. The vertical field of view
    /// enters through the tangent of its half-angle, `tan_half_fov`, as a
    /// fixed-point scalar; the viewport is scaled to the focus plane.
    pub fn new(
        look_from: Point3,
        look_at: Point3,
        view_up: Vec3,
        tan_half_fov: i64,
        aspect_ratio: i64,
        aperture: i64,
        focus_distance: i64,
    ) -> (c: Camera)
        requires
            bounded(look_from@, 50_000_000),
            bounded(look_at@, 50_000_000),
            bounded(view_up@, 50_000_000),
            raw_norm(sub_v(look_from@, look_at@)) >= 250_000_000_000,
            raw_norm(cross_v(view_up@, unit_v(sub_v(look_from@, look_at@)))) >= 250_000_000_000,
            1 <= tan_half_fov <= 4_000_000,
            1 <= aspect_ratio <= 8_000_000,
            0 <= aperture <= 4_000_000,
            1 <= focus_distance <= 50_000_000,
            abs_i(
                tdiv(
                    (focus_distance as int) * tdiv(
                        (aspect_ratio as int) * (2 * tan_half_fov as int),
                        SCALE as int,
                    ),
                    SCALE as int,
                ),
            ) <= 16_000_000,
            abs_i(tdiv((focus_distance as int) * (2 * tan_half_fov as int), SCALE as int))
                <= 16_000_000,
        ensures
            ({
                let wv = unit_v(sub_v(look_from@, look_at@));
                let uv = unit_v(cross_v(view_up@, wv));
                let vv = cross_v(wv, uv);
                let vh = 2 * tan_half_fov as int;
                let vw = tdiv((aspect_ratio as int) * vh, SCALE as int);
                let kh = tdiv((focus_distance as int) * vw, SCALE as int);
                let kv = tdiv((focus_distance as int) * vh, SCALE as int);
                &&& c@.w == wv
                &&& c@.u == uv
                &&& c@.v == vv
                &&& c@.origin == look_from@
                &&& c@.horizontal == scale_v(kh, uv)
                &&& c@.vertical == scale_v(kv, vv)
                &&& c@.lower_left_corner == sub_v(
                    sub_v(
                        sub_v(look_from@, div_v(scale_v(kh, uv), 2_000_000)),
                        div_v(scale_v(kv, vv), 2_000_000),
                    ),
                    scale_v(focus_distance as int, wv),
                )
                &&& c@.lens_radius == tdiv(aperture as int, 2)
                &&& camera_wf(c@)
            }),
    {
        let viewport_height: i64 = 2 * tan_half_fov;
        proof {
            crate::vec3::lemma_mul_abs_bound(
                aspect_ratio as int,
                2 * tan_half_fov as int,
                8_000_000,
                8_000_000,
            );
            lemma_tdiv_bound(
                (aspect_ratio as int) * (2 * tan_half_fov as int),
                1_000_000,
                64_000_000,
            );
        }
        let viewport_width: i64 = crate::math::fxmul(aspect_ratio, viewport_height);
        let w = look_from.sub(look_at).unit_vector();
        proof {
            let wv = unit_v(sub_v(look_from@, look_at@));
            crate::vec3::lemma_mul_abs_bound(view_up@.y, wv.z, 50_000_000, 1_000_000);
            crate::vec3::lemma_mul_abs_bound(view_up@.z, wv.y, 50_000_000, 1_000_000);
            crate::vec3::lemma_mul_abs_bound(view_up@.z, wv.x, 50_000_000, 1_000_000);
            crate::vec3::lemma_mul_abs_bound(view_up@.x, wv.z, 50_000_000, 1_000_000);
            crate::vec3::lemma_mul_abs_bound(view_up@.x, wv.y, 50_000_000, 1_000_000);
            crate::vec3::lemma_mul_abs_bound(view_up@.y, wv.x, 50_000_000, 1_000_000);
            lemma_tdiv_bound(view_up@.y * wv.z - view_up@.z * wv.y, 1_000_000, 100_000_000);
            lemma_tdiv_bound(view_up@.z * wv.x - view_up@.x * wv.z, 1_000_000, 100_000_000);
            lemma_tdiv_bound(view_up@.x * wv.y - view_up@.y * wv.x, 1_000_000, 100_000_000);
        }
        let u = Vec3::cross(view_up, w).unit_vector();
        proof {
            crate::vec3::lemma_normalize_near_unit(sub_v(look_from@, look_at@));
            crate::vec3::lemma_normalize_near_unit(
                cross_v(view_up@, unit_v(sub_v(look_from@, look_at@))),
            );
            crate::vec3::lemma_cross_orthogonal(
                unit_v(sub_v(look_from@, look_at@)),
                unit_v(cross_v(view_up@, unit_v(sub_v(look_from@, look_at@)))),
            );
        }
        let v = Vec3::cross(w, u);
        proof {
            let wv = unit_v(sub_v(look_from@, look_at@));
            let uv = unit_v(cross_v(view_up@, wv));
            // The third basis vector is a rescaled cross product of unit
            // vectors, so it stays within two units per component.
            crate::vec3::lemma_mul_abs_bound(wv.y, uv.z, 1_000_000, 1_000_000);
            crate::vec3::lemma_mul_abs_bound(wv.z, uv.y, 1_000_000, 1_000_000);
            crate::vec3::lemma_mul_abs_bound(wv.z, uv.x, 1_000_000, 1_000_000);
            crate::vec3::lemma_mul_abs_bound(wv.x, uv.z, 1_000_000, 1_000_000);
            crate::vec3::lemma_mul_abs_bound(wv.x, uv.y, 1_000_000, 1_000_000);
            crate::vec3::lemma_mul_abs_bound(wv.y, uv.x, 1_000_000, 1_000_000);
            lemma_tdiv_bound(wv.y * uv.z - wv.z * uv.y, 1_000_000, 2_000_000);
            lemma_tdiv_bound(wv.z * uv.x - wv.x * uv.z, 1_000_000, 2_000_000);
            lemma_tdiv_bound(wv.x * uv.y - wv.y * uv.x, 1_000_000, 2_000_000);
        }
        let origin = look_from;
        let kh = crate::math::fxmul(focus_distance, viewport_width);
        let kv = crate::math::fxmul(focus_distance, viewport_height);
        proof {
            lemma_scale_bounded(
                tdiv(
                    (focus_distance as int) * tdiv(
                        (aspect_ratio as int) * (2 * tan_half_fov as int),
                        1_000_000,
                    ),
                    1_000_000,
                ),
                unit_v(cross_v(view_up@, unit_v(sub_v(look_from@, look_at@)))),
                16_000_000,
                1_000_000,
            );
            lemma_scale_bounded(
                tdiv((focus_distance as int) * (2 * tan_half_fov as int), 1_000_000),
                cross_v(
                    unit_v(sub_v(look_from@, look_at@)),
                    unit_v(cross_v(view_up@, unit_v(sub_v(look_from@, look_at@)))),
                ),
                16_000_000,
                2_000_000,
            );
        }
        let horizontal = u.scale(kh);
        let vertical = v.scale(kv);
        proof {
            lemma_scale_bounded(
                focus_distance as int,
                unit_v(sub_v(look_from@, look_at@)),
                50_000_000,
                1_000_000,
            );
        }
        let fw = w.scale(focus_distance);
        let half_h = horizontal.div(2 * SCALE);
        let half_v = vertical.div(2 * SCALE);
        proof {
            let hh = scale_v(
                tdiv(
                    (focus_distance as int) * tdiv(
                        (aspect_ratio as int) * (2 * tan_half_fov as int),
                        1_000_000,
                    ),
                    1_000_000,
                ),
                unit_v(cross_v(view_up@, unit_v(sub_v(look_from@, look_at@)))),
            );
            lemma_tdiv_bound(hh.x * 1_000_000, 2_000_000, 9_000_000);
            lemma_tdiv_bound(hh.y * 1_000_000, 2_000_000, 9_000_000);
            lemma_tdiv_bound(hh.z * 1_000_000, 2_000_000, 9_000_000);
            let vv2 = scale_v(
                tdiv((focus_distance as int) * (2 * tan_half_fov as int), 1_000_000),
                cross_v(
                    unit_v(sub_v(look_from@, look_at@)),
                    unit_v(cross_v(view_up@, unit_v(sub_v(look_from@, look_at@)))),
                ),
            );
            lemma_tdiv_bound(vv2.x * 1_000_000, 2_000_000, 17_000_000);
            lemma_tdiv_bound(vv2.y * 1_000_000, 2_000_000, 17_000_000);
            lemma_tdiv_bound(vv2.z * 1_000_000, 2_000_000, 17_000_000);
        }
        let lower_left_corner = origin.sub(half_h).sub(half_v).sub(fw);
        let lens_radius = tdiv_i128(aperture as i128, 2) as i64;
        proof {
            lemma_tdiv_bound(aperture as int, 2, 2_000_000);
        }
        Camera { origin, horizontal, vertical, lower_left_corner, u, v, w, lens_radius }
    }

    /// The deterministic core of ray generation, taking the unit-disk lens
    /// sample as an argument. A degenerate zero direction is replaced by a
    /// fixed unit axis, which a well-proportioned camera never produces.
    #[verifier::rlimit(30)]
    pub fn get_ray_with(&self, s: i64, t: i64, disk: Vec3) -> (r: Ray)
        requires
            camera_wf(self@),
            0 <= s <= 2_000_000,
            0 <= t <= 2_000_000,
            bounded(disk@, 1_000_000),
        ensures
            r@.orig == add_v(self@.origin, cam_offset(self@, disk@)),
            r@.dir == if near_zero_v(cam_dir(self@, s as int, t as int, disk@)) {
                v3(0, 0, 1_000_000)
            } else {
                cam_dir(self@, s as int, t as int, disk@)
            },
            ray_wf(r@),
    {
        proof {
            lemma_scale_bounded(self@.lens_radius, disk@, 2_000_000, 1_000_000);
        }
        let rd = disk.scale(self.lens_radius);
        proof {
            let rdg = scale_v(self@.lens_radius, disk@);
            lemma_scale_bounded(rdg.x, self@.u, 2_000_001, 1_000_000);
            lemma_scale_bounded(rdg.y, self@.v, 2_000_001, 2_000_000);
        }
        let offset = self.u.scale(rd.x).add(self.v.scale(rd.y));
        let orig = self.origin.add(offset);
        proof {
            lemma_scale_bounded(s as int, self@.horizontal, 2_000_000, 17_000_000);
            lemma_scale_bounded(t as int, self@.vertical, 2_000_000, 33_000_000);
        }
        let mut dir = self
            .lower_left_corner
            .add(self.horizontal.scale(s))
            .add(self.vertical.scale(t))
            .sub(self.origin)
            .sub(offset);
        if dir.near_zero() {
            dir = Vec3::z(SCALE);
            proof {
                assert((SCALE as int) * (SCALE as int) == 1_000_000_000_000) by (nonlinear_arith)
                    requires
                        SCALE as int == 1_000_000,
                ;
                assert(raw_norm(dir@) >= 1);
                assert(bounded(dir@, 400_000_000));
            }
        } else {
            proof {
                crate::vec3::lemma_nonzero_norm(dir@);
                assert(bounded(dir@, 400_000_000));
            }
        }
        Ray::new(orig, dir)
    }

    /// A primary ray for image-plane coordinates `(s, t)`: draws the lens
    /// sample and defers to the deterministic core. The ray is the one the
    /// core builds for some disk sample, and a closed lens pins the origin.
    pub fn get_ray(&self, s: i64, t: i64) -> (r: Ray)
        requires
            camera_wf(self@),
            0 <= s <= 2_000_000,
            0 <= t <= 2_000_000,
        ensures
            ray_wf(r@),
            exists|d: V3|
                disk_sample(d) && r@.orig == add_v(self@.origin, cam_offset(self@, d))
                    && r@.dir == if near_zero_v(cam_dir(self@, s as int, t as int, d)) {
                    v3(0, 0, 1_000_000)
                } else {
                    cam_dir(self@, s as int, t as int, d)
                },
            self@.lens_radius == 0 ==> r@.orig == self@.origin,
    {
        let disk = Vec3::random_in_unit_disk();
        let r = self.get_ray_with(s, t, disk);
        proof {
            assert(disk_sample(disk@) && r@.orig == add_v(
                self@.origin,
                cam_offset(self@, disk@),
            ) && r@.dir == if near_zero_v(cam_dir(self@, s as int, t as int, disk@)) {
                v3(0, 0, 1_000_000)
            } else {
                cam_dir(self@, s as int, t as int, disk@)
            });
            if self@.lens_radius == 0 {
                lemma_cam_offset_zero(self@, disk@);
            }
        }
        r
    }
}

} // verus!
