use crate::math::{abs_i, DIR_MAX, POS_MAX, T_MAX};
use crate::vec3::{
    add_v, bounded, bounded_check, lemma_nonzero_norm, lemma_scale_bounded, near_zero_v, raw_norm,
    scale_v, Point3, Vec3, V3,
};
use vstd::prelude::*;

verus! {

/// Mathematical view of a ray.
pub ghost struct RayV {
    pub orig: V3,
    pub dir: V3,
}

/// An origin plus a direction; the direction need not be unit length.
#[derive(Clone, Copy)]
pub struct Ray {
    pub orig: Point3,
    pub dir: Vec3,
}

impl View for Ray {
    type V = RayV;

    open spec fn view(&self) -> RayV {
        RayV { orig: self.orig@, dir: self.dir@ }
    }
}

/// The point reached after travelling the fixed-point parameter `t` along
/// the ray.
pub open spec fn at_v(r: RayV, t: int) -> V3 {
    add_v(r.orig, scale_v(t, r.dir))
}

/// A ray the integrator accepts: origin within the scene bounds, direction
/// bounded and nonzero.
pub open spec fn ray_wf(r: RayV) -> bool {
    &&& bounded(r.orig, POS_MAX as int)
    &&& bounded(r.dir, DIR_MAX as int)
    &&& raw_norm(r.dir) >= 1
}

/// Runtime test of ray well-formedness, used to discard numerically
/// degenerate scattered rays.
pub fn ray_wf_check(r: &Ray) -> (b: bool)
    ensures
        b == ray_wf(r@),
{
    let ob = bounded_check(&r.orig, POS_MAX);
    let db = bounded_check(&r.dir, DIR_MAX);
    let nz = !r.dir.near_zero();
    proof {
        if near_zero_v(r@.dir) {
            assert(raw_norm(r@.dir) == 0) by (nonlinear_arith)
                requires
                    r@.dir.x == 0,
                    r@.dir.y == 0,
                    r@.dir.z == 0,
            ;
        } else {
            lemma_nonzero_norm(r@.dir);
        }
    }
    ob && db && nz
}

impl Ray {
    pub fn new(orig: Point3, dir: Vec3) -> (r: Ray)
        ensures
            r@.orig == orig@,
            r@.dir == dir@,
    {
        Ray { orig, dir }
    }

    pub fn origin(&self) -> (r: Vec3)
        ensures
            r@ == self@.orig,
    {
        self.orig
    }

    pub fn direction(&self) -> (r: Vec3)
        ensures
            r@ == self@.dir,
    {
        self.dir
    }

    /// The point at parameter `t` along the ray.
    pub fn at(&self, t: i64) -> (r: Vec3)
        requires
            bounded(self@.orig, POS_MAX as int),
            bounded(self@.dir, DIR_MAX as int),
            abs_i(t as int) <= T_MAX as int,
        ensures
            r@ == at_v(self@, t as int),
            bounded(r@, 400_002_000_000_001),
    {
        proof {
            lemma_scale_bounded(t as int, self@.dir, 1_000_000_000_000, 400_000_000);
        }
        let step = self.dir.scale(t);
        self.orig.add(step)
    }
}

} // verus!
