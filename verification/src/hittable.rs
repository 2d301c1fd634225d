use crate::material::{mat_wf, EmptyMaterial, Material};
use crate::math::POS_MAX;
use crate::ray::Ray;
use crate::math::abs_i;
use crate::vec3::{bounded, neg_v, raw_dot, raw_dot_wide, raw_norm, Point3, Vec3, V3};
use vstd::prelude::*;

verus! {

/// Mathematical view of an intersection record.
pub ghost struct HitRecG {
    pub p: V3,
    pub normal: V3,
    pub material: Material,
    pub t: int,
    pub front_face: bool,
}

/// The nearest valid intersection of a ray with a surface: the point, the
/// unit-length normal oriented against the ray, the ray parameter, the
/// governing material, and whether the outward normal was kept as is.
#[derive(Clone, Copy)]
pub struct HitRecord {
    pub p: Point3,
    pub normal: Vec3,
    pub material: Material,
    pub t: i64,
    pub front_face: bool,
}

impl View for HitRecord {
    type V = HitRecG;

    open spec fn view(&self) -> HitRecG {
        HitRecG {
            p: self.p@,
            normal: self.normal@,
            material: self.material,
            t: self.t as int,
            front_face: self.front_face,
        }
    }
}

/// A record the scattering functions accept: the point within scene bounds,
/// a bounded normal of near-unit length (its raw squared length within two
/// percent of one), a positive parameter, and a material whose fields are
/// in range.
pub open spec fn rec_wf(r: HitRecG) -> bool {
    &&& bounded(r.p, POS_MAX as int)
    &&& bounded(r.normal, 2_000_000)
    &&& abs_i(raw_norm(r.normal) - 1_000_000_000_000) <= 20_000_000_000
    &&& r.t > 0
    &&& mat_wf(r.material)
}

impl HitRecord {
    /// A blank record carrying the placeholder material.
    pub fn empty() -> (r: HitRecord)
        ensures
            r@.p == crate::vec3::v3(0, 0, 0),
            r@.normal == crate::vec3::v3(0, 0, 0),
            r@.t == 0,
            r@.front_face == false,
            r@.material == Material::Empty(EmptyMaterial {}),
    {
        HitRecord {
            p: Vec3::zero(),
            normal: Vec3::zero(),
            material: Material::Empty(EmptyMaterial {}),
            t: 0,
            front_face: false,
        }
    }

    /// Orients the stored normal against the incoming ray: the geometric
    /// outward normal is kept on a front-face hit and negated otherwise,
    /// with the flag recording which case held.
    pub fn set_face_normal(&mut self, r: &Ray, outward_normal: &Vec3)
        requires
            bounded(old(self)@.normal, 100_000_000_000),
            bounded(r@.dir, 100_000_000_000),
            bounded(outward_normal@, 100_000_000_000),
        ensures
            final(self)@.front_face == (raw_dot(r@.dir, outward_normal@) < 0),
            final(self)@.normal == if raw_dot(r@.dir, outward_normal@) < 0 {
                outward_normal@
            } else {
                neg_v(outward_normal@)
            },
            final(self)@.p == old(self)@.p,
            final(self)@.t == old(self)@.t,
            final(self)@.material == old(self)@.material,
    {
        let d = raw_dot_wide(&r.dir, outward_normal);
        self.front_face = d < 0;
        if self.front_face {
            self.normal = *outward_normal;
        } else {
            self.normal = outward_normal.neg();
        }
    }
}

} // verus!
