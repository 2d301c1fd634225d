use crate::hittable::{rec_wf, HitRecG, HitRecord};
use crate::material::{mat_wf, Material};
use crate::math::{
    abs_i, is_isqrt, isqrt, isqrt_u128, lemma_isqrt_bound, tdiv, tdiv_i128, POS_MAX, SCALE, T_MAX,
};
use crate::ray::{at_v, ray_wf, Ray, RayV};
use crate::vec3::{
    v3,
    bounded, bounded_check, div_v, lemma_mul_abs_bound, lemma_neg_dot, lemma_raw_dot_bound2,
    neg_v, raw_dot, raw_dot_wide, raw_norm, raw_norm_wide, sub_v, Point3, V3,
};
use vstd::prelude::*;

verus! {

/// A sphere with an attached material; the one geometric primitive.
pub struct Sphere {
    pub center: Point3,
    pub radius: i64,
    pub material: Material,
}

/// A sphere the intersection arithmetic accepts: center within scene
/// bounds, a positive radius within them too, and a material in range.
pub open spec fn sphere_wf(s: Sphere) -> bool {
    &&& bounded(s.center@, POS_MAX as int)
    &&& 1 <= s.radius <= POS_MAX
    &&& mat_wf(s.material)
}

/// The discriminant of the ray-sphere quadratic, over raw (twice-scaled)
/// dot products, using the half-b form.
pub open spec fn sph_disc(r: RayV, c: V3, rad: int) -> int {
    let oc = sub_v(r.orig, c);
    let a = raw_norm(r.dir);
    let hb = raw_dot(oc, r.dir);
    let cc = raw_norm(oc) - rad * rad;
    hb * hb - a * cc
}

/// The smaller quadratic root as a fixed-point ray parameter.
pub open spec fn sph_root_near(r: RayV, c: V3, rad: int) -> int {
    let oc = sub_v(r.orig, c);
    tdiv((-raw_dot(oc, r.dir) - isqrt(sph_disc(r, c, rad))) * (SCALE as int), raw_norm(r.dir))
}

/// The larger quadratic root as a fixed-point ray parameter.
pub open spec fn sph_root_far(r: RayV, c: V3, rad: int) -> int {
    let oc = sub_v(r.orig, c);
    tdiv((-raw_dot(oc, r.dir) + isqrt(sph_disc(r, c, rad))) * (SCALE as int), raw_norm(r.dir))
}

/// The ray parameter the intersection reports: the smaller root when it
/// lies strictly inside `(t_min, t_max)`, else the larger root when it
/// does, else nothing.
pub open spec fn sphere_root(r: RayV, c: V3, rad: int, t_min: int, t_max: int) -> Option<int> {
    if sph_disc(r, c, rad) < 0 {
        None
    } else {
        let rn = sph_root_near(r, c, rad);
        if t_min < rn < t_max {
            Some(rn)
        } else {
            let rf = sph_root_far(r, c, rad);
            if t_min < rf < t_max {
                Some(rf)
            } else {
                None
            }
        }
    }
}

/// The geometric outward normal at parameter `t`: the hit point minus the
/// center, divided by the radius.
pub open spec fn sph_outward(r: RayV, c: V3, rad: int, t: int) -> V3 {
    div_v(sub_v(at_v(r, t), c), rad)
}

/// The fixed-point guard on a reported hit: the point stays within scene
/// bounds and the outward normal is bounded and of near-unit length (its
/// raw squared length within two percent of one). A root that fails it is
/// numerically degenerate — the hit point drifted off the surface at this
/// resolution — and is discarded as no intersection.
pub open spec fn sph_guard(r: RayV, c: V3, rad: int, t: int) -> bool {
    &&& bounded(at_v(r, t), POS_MAX as int)
    &&& bounded(sph_outward(r, c, rad, t), 2_000_000)
    &&& abs_i(raw_norm(sph_outward(r, c, rad, t)) - 1_000_000_000_000) <= 20_000_000_000
}

/// The full intersection outcome: the chosen root, if any survives the
/// guard, together with the record built at it — the hit point, the normal
/// oriented against the ray, and the sphere's material.
pub open spec fn sphere_hit_g(s: Sphere, r: RayV, t_min: int, t_max: int) -> Option<HitRecG> {
    match sphere_root(r, s.center@, s.radius as int, t_min, t_max) {
        Some(t) => {
            if sph_guard(r, s.center@, s.radius as int, t) {
                let out = sph_outward(r, s.center@, s.radius as int, t);
                let front = raw_dot(r.dir, out) < 0;
                Some(
                    HitRecG {
                        p: at_v(r, t),
                        normal: if front {
                            out
                        } else {
                            neg_v(out)
                        },
                        material: s.material,
                        t: t,
                        front_face: front,
                    },
                )
            } else {
                None
            }
        },
        None => None,
    }
}

/// A reported hit lies exactly on the ray: the record's point equals the
/// ray evaluated at the record's parameter, with no residue at all in the
/// fixed-point model.
pub proof fn lemma_hit_point_on_ray(s: Sphere, r: RayV, t_min: int, t_max: int)
    ensures
        (match sphere_hit_g(s, r, t_min, t_max) {
            Some(rec) => rec.p == at_v(r, rec.t),
            None => true,
        }),
{
}

/// A ray at height `z0` on the third axis, aimed straight down it.
pub open spec fn axis_ray(z0: int) -> RayV {
    RayV { orig: v3(0, 0, z0), dir: v3(0, 0, -1_000_000) }
}

/// A ray fired from outside along the third axis toward a sphere at the
/// origin strikes its near surface head on: the chosen parameter is the
/// distance to the surface, the hit point sits on the axis at the radius,
/// the normal is the outward axis unit vector, and the hit is a front
/// face.
pub proof fn lemma_axis_sphere_front_face(s: Sphere, z0: int, t_min: int, t_max: int)
    requires
        s.center@ == v3(0, 0, 0),
        1 <= s.radius,
        (s.radius as int) < z0 <= POS_MAX as int,
        0 <= t_min,
        t_min < z0 - (s.radius as int),
        z0 - (s.radius as int) < t_max,
    ensures
        (match sphere_hit_g(s, axis_ray(z0), t_min, t_max) {
            Some(rec) => rec.t == z0 - (s.radius as int) && rec.p == v3(0, 0, s.radius as int)
                && rec.normal == v3(0, 0, 1_000_000) && rec.front_face == true,
            None => false,
        }),
{
    let rad = s.radius as int;
    let r = axis_ray(z0);
    let oc = sub_v(r.orig, s.center@);
    assert(raw_norm(r.dir) == 1_000_000_000_000);
    assert(raw_dot(oc, r.dir) == -1_000_000 * z0);
    let hb = -1_000_000 * z0;
    let cc = z0 * z0 - rad * rad;
    assert(raw_norm(oc) == z0 * z0) by (nonlinear_arith)
        requires
            oc == v3(0, 0, z0),
            raw_norm(oc) == oc.x * oc.x + oc.y * oc.y + oc.z * oc.z,
    ;
    let disc = sph_disc(r, s.center@, rad);
    assert(disc == 1_000_000_000_000 * (rad * rad)) by (nonlinear_arith)
        requires
            disc == (-1_000_000 * z0) * (-1_000_000 * z0) - 1_000_000_000_000 * (z0 * z0 - rad
                * rad),
    ;
    assert(is_isqrt(disc, 1_000_000 * rad)) by (nonlinear_arith)
        requires
            disc == 1_000_000_000_000 * (rad * rad),
            rad >= 1,
    ;
    crate::math::lemma_isqrt_is(disc, 1_000_000 * rad);
    assert((-hb - 1_000_000 * rad) * 1_000_000 == (z0 - rad) * 1_000_000_000_000);
    crate::math::lemma_tdiv_exact(z0 - rad, 1_000_000_000_000);
    assert(tdiv((z0 - rad) * 1_000_000_000_000, 1_000_000_000_000) == z0 - rad);
    let rn = sph_root_near(r, s.center@, rad);
    assert(rn == tdiv((-raw_dot(oc, r.dir) - isqrt(disc)) * (SCALE as int), raw_norm(r.dir)));
    assert((-raw_dot(oc, r.dir) - isqrt(disc)) * (SCALE as int) == (z0 - rad)
        * 1_000_000_000_000) by (nonlinear_arith)
        requires
            raw_dot(oc, r.dir) == -1_000_000 * z0,
            isqrt(disc) == 1_000_000 * rad,
            SCALE as int == 1_000_000,
    ;
    assert(rn == z0 - rad);
    assert(sphere_root(r, s.center@, rad, t_min, t_max) == Some(z0 - rad));
    // The hit point: the origin advanced by the root along the axis.
    let t = z0 - rad;
    crate::math::lemma_tdiv_exact(-t, 1_000_000);
    assert(t * -1_000_000 == (-t) * 1_000_000) by (nonlinear_arith);
    assert(t * 0 == 0) by (nonlinear_arith);
    crate::math::lemma_tdiv_bound(0, SCALE as int, 0);
    assert(tdiv(t * 0, SCALE as int) == 0);
    assert(tdiv(t * -1_000_000, SCALE as int) == -t);
    assert(at_v(r, t) == v3(0, 0, rad));
    // The outward normal: the radius vector over the radius.
    let out = sph_outward(r, s.center@, rad, t);
    crate::math::lemma_tdiv_exact(1_000_000, rad);
    assert(rad * 1_000_000 == 1_000_000 * rad) by (nonlinear_arith);
    crate::math::lemma_tdiv_bound(0, rad, 0);
    assert(tdiv(0 * (SCALE as int), rad) == 0) by (nonlinear_arith)
        requires
            tdiv(0, rad) == 0,
    ;
    assert(sub_v(at_v(r, t), s.center@) == v3(0, 0, rad));
    assert(rad * (SCALE as int) == 1_000_000 * rad) by (nonlinear_arith)
        requires
            SCALE as int == 1_000_000,
    ;
    assert(tdiv(rad * (SCALE as int), rad) == 1_000_000);
    assert(out == v3(0, 0, 1_000_000));
    assert(raw_dot(r.dir, out) == -1_000_000 * 1_000_000);
    assert(raw_norm(out) == 1_000_000 * 1_000_000);
    assert(1_000_000 * 1_000_000 == 1_000_000_000_000);
    assert(sph_guard(r, s.center@, rad, t));
}

impl Sphere {
    pub fn new(center: Point3, radius: i64, material: Material) -> (s: Sphere)
        requires
            bounded(center@, POS_MAX as int),
            1 <= radius <= POS_MAX,
            mat_wf(material),
        ensures
            s.center == center,
            s.radius == radius,
            s.material == material,
            sphere_wf(s),
    {
        Sphere { center, radius, material }
    }

    /// The nearest intersection of `ray` with this sphere at a parameter in
    /// `(t_min, t_max)`, or nothing. Solves the quadratic through its
    /// discriminant, preferring the smaller root, and orients the normal
    /// against the ray. Nothing is also reported when the chosen root fails
    /// the fixed-point guard `sph_guard` — a numerically degenerate hit —
    /// and the second `None` clause states that case apart.
    pub fn hit(&self, ray: &Ray, t_min: i64, t_max: i64) -> (res: Option<HitRecord>)
        requires
            sphere_wf(*self),
            ray_wf(ray@),
            0 <= t_min,
            abs_i(t_max as int) <= T_MAX as int,
        ensures
            match res {
                Some(rec) => {
                    &&& sphere_hit_g(*self, ray@, t_min as int, t_max as int) == Some(rec@)
                    &&& rec_wf(rec@)
                    &&& t_min < rec.t < t_max
                    &&& rec.material == self.material
                    &&& rec@.p == at_v(ray@, rec@.t)
                },
                None => {
                    &&& sphere_hit_g(*self, ray@, t_min as int, t_max as int) is None
                    &&& (match sphere_root(ray@, self.center@, self.radius as int, t_min as int,
                        t_max as int) {
                        Some(t) => !sph_guard(ray@, self.center@, self.radius as int, t),
                        None => true,
                    })
                },
            },
    {
        let ghost rv = self.center@;
        let oc = ray.origin().sub(self.center);
        proof {
            assert(bounded(oc@, 4_000_000_000));
        }
        let dir = ray.direction();
        let a_w = raw_norm_wide(&dir);
        let hb = raw_dot_wide(&oc, &dir);
        let oc_n = raw_norm_wide(&oc);
        proof {
            lemma_raw_dot_bound2(oc@, ray@.dir, 4_000_000_000, 400_000_000);
            lemma_raw_dot_bound2(ray@.dir, ray@.dir, 400_000_000, 400_000_000);
            lemma_raw_dot_bound2(oc@, oc@, 4_000_000_000, 4_000_000_000);
            lemma_mul_abs_bound(self.radius as int, self.radius as int, 2_000_000_000,
                2_000_000_000);
        }
        let rad2 = (self.radius as i128) * (self.radius as i128);
        let cc = oc_n - rad2;
        proof {
            lemma_mul_abs_bound(
                raw_dot(oc@, ray@.dir),
                raw_dot(oc@, ray@.dir),
                4_800_000_000_000_000_000,
                4_800_000_000_000_000_000,
            );
            lemma_mul_abs_bound(
                raw_norm(ray@.dir),
                raw_norm(oc@) - (self.radius as int) * (self.radius as int),
                480_000_000_000_000_000,
                52_000_000_000_000_000_000,
            );
        }
        let disc = hb * hb - a_w * cc;
        if disc < 0 {
            return None;
        }
        let sq_u = isqrt_u128(disc as u128);
        proof {
            lemma_isqrt_bound(disc as int, 7_000_000_000_000_000_000);
        }
        let sq = sq_u as i128;
        proof {
            lemma_mul_abs_bound(
                -raw_dot(oc@, ray@.dir) - isqrt(sph_disc(ray@, rv, self.radius as int)),
                SCALE as int,
                12_000_000_000_000_000_000,
                1_000_000,
            );
            lemma_mul_abs_bound(
                -raw_dot(oc@, ray@.dir) + isqrt(sph_disc(ray@, rv, self.radius as int)),
                SCALE as int,
                12_000_000_000_000_000_000,
                1_000_000,
            );
        }
        let num1 = (-hb - sq) * (SCALE as i128);
        let r1 = tdiv_i128(num1, a_w);
        let root: i64;
        if (t_min as i128) < r1 && r1 < (t_max as i128) {
            root = r1 as i64;
        } else {
            let num2 = (-hb + sq) * (SCALE as i128);
            let r2 = tdiv_i128(num2, a_w);
            if (t_min as i128) < r2 && r2 < (t_max as i128) {
                root = r2 as i64;
            } else {
                return None;
            }
        }
        let p = ray.at(root);
        if !bounded_check(&p, POS_MAX) {
            return None;
        }
        let op = p.sub(self.center);
        let outward = op.div(self.radius);
        if !bounded_check(&outward, 2 * SCALE) {
            return None;
        }
        let ow_n = raw_norm_wide(&outward);
        if ow_n < 980_000_000_000 || ow_n > 1_020_000_000_000 {
            return None;
        }
        let mut rec = HitRecord::empty();
        rec.t = root;
        rec.p = p;
        rec.material = self.material;
        rec.set_face_normal(ray, &outward);
        proof {
            lemma_neg_dot(outward@, outward@);
        }
        Some(rec)
    }
}

} // verus!
