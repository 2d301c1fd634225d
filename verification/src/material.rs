use crate::hittable::{rec_wf, HitRecord};
use crate::math::{abs_i, is_isqrt, isqrt, isqrt_u128, lemma_isqrt_bound, lemma_tdiv_bound, min_i64, tdiv,
    tdiv_i128, SCALE};
use crate::ray::{ray_wf, Ray};
use crate::rng::random_double;
use crate::math::lemma_mul_nonneg;
use crate::vec3::{
    add_v, bounded, lemma_mul_abs_bound,
    lemma_nonzero_norm, lemma_raw_dot_bound2, lemma_scale_bounded, min_i, near_zero_v, neg_v,
    raw_dot, raw_dot_wide, raw_norm, reflect_v, refract_v, scale_v, sphere_sample, sub_v,
    unit_sample,
    unit_v, v3, Color, Vec3, V3,
};
use vstd::prelude::*;

verus! {

/// A color whose channels lie in the unit interval; the attenuation range
/// the integrator's arithmetic supports.
pub open spec fn color_wf(c: V3) -> bool {
    &&& 0 <= c.x <= SCALE as int
    &&& 0 <= c.y <= SCALE as int
    &&& 0 <= c.z <= SCALE as int
}

/// A diffuse surface; `albedo` is its reflectance color.
#[derive(Clone, Copy)]
pub struct Lambertian {
    pub albedo: Color,
}

/// A reflective surface; `fuzziness` in `[0, SCALE]` perturbs the mirror
/// direction.
#[derive(Clone, Copy)]
pub struct Metal {
    pub albedo: Color,
    pub fuzziness: i64,
}

/// A clear surface described by its index of refraction.
#[derive(Clone, Copy)]
pub struct Dielectric {
    pub index_of_refraction: i64,
}

/// A surface that scatters nothing; the placeholder material.
#[derive(Clone, Copy)]
pub struct EmptyMaterial {}

/// The closed set of surface materials, dispatched by pattern match.
#[derive(Clone, Copy)]
pub enum Material {
    Lambertian(Lambertian),
    Metal(Metal),
    Dielectric(Dielectric),
    Empty(EmptyMaterial),
}

/// The parameter ranges under which scattering arithmetic stays in bounds:
/// reflectance channels within the unit interval, fuzz in `[0, 1]`, and an
/// index of refraction between one half and four.
pub open spec fn mat_wf(m: Material) -> bool {
    match m {
        Material::Lambertian(l) => color_wf(l.albedo@),
        Material::Metal(me) => color_wf(me.albedo@) && 0 <= me.fuzziness <= SCALE as int,
        Material::Dielectric(d) => 500_000 <= d.index_of_refraction <= 4_000_000,
        Material::Empty(_) => true,
    }
}

/// The diffuse scatter direction: the surface normal plus a random unit
/// vector, with the normal alone as fallback when the sum degenerates to
/// zero.
pub open spec fn lambertian_dir(normal: V3, rand_unit: V3) -> V3 {
    let d = add_v(normal, rand_unit);
    if near_zero_v(d) {
        normal
    } else {
        d
    }
}

impl Lambertian {
    pub fn new(color: &Color) -> (r: Lambertian)
        requires
            color_wf(color@),
        ensures
            r.albedo == *color,
            mat_wf(Material::Lambertian(r)),
    {
        Lambertian { albedo: *color }
    }

    /// The deterministic core of diffuse scattering, taking the random
    /// unit vector as an argument: always scatters, from the hit point,
    /// attenuated by the albedo.
    pub fn scatter_with(&self, rec: &HitRecord, rand_unit: Vec3) -> (r: (Ray, Color))
        requires
            rec_wf(rec@),
            color_wf(self.albedo@),
            bounded(rand_unit@, SCALE as int),
        ensures
            r.0@.orig == rec@.p,
            r.0@.dir == lambertian_dir(rec@.normal, rand_unit@),
            r.1 == self.albedo,
            bounded(r.0@.dir, 3_000_000),
            raw_norm(r.0@.dir) >= 1,
    {
        let mut scatter_direction = rec.normal.add(rand_unit);
        if scatter_direction.near_zero() {
            scatter_direction = rec.normal;
        } else {
            proof {
                lemma_nonzero_norm(add_v(rec@.normal, rand_unit@));
            }
        }
        (Ray::new(rec.p, scatter_direction), self.albedo)
    }

    /// Diffuse scattering: draws the random unit vector and defers to the
    /// deterministic core. Never absorbs, and the scattered direction is
    /// the diffuse direction for some near-unit draw.
    pub fn scatter(&self, _ray_in: &Ray, rec: &HitRecord) -> (r: Option<(Ray, Color)>)
        requires
            rec_wf(rec@),
            color_wf(self.albedo@),
        ensures
            match r {
                Some(sc) => {
                    &&& sc.0@.orig == rec@.p
                    &&& sc.1 == self.albedo
                    &&& bounded(sc.0@.dir, 3_000_000)
                    &&& raw_norm(sc.0@.dir) >= 1
                    &&& (exists|u: V3|
                        unit_sample(u) && sc.0@.dir == lambertian_dir(rec@.normal, u))
                    &&& raw_norm(sub_v(sc.0@.dir, rec@.normal)) <= 1_000_011_000_000
                },
                None => false,
            },
    {
        let rand_unit = Vec3::random_unit_vector();
        let sc = self.scatter_with(rec, rand_unit);
        proof {
            assert(unit_sample(rand_unit@) && sc.0@.dir == lambertian_dir(
                rec@.normal,
                rand_unit@,
            ));
            // The scattered direction strays from the normal by at most the
            // near-unit draw; the zero fallback strays not at all.
            if near_zero_v(add_v(rec@.normal, rand_unit@)) {
                assert(sub_v(sc.0@.dir, rec@.normal) == v3(0, 0, 0));
                assert(raw_norm(v3(0, 0, 0)) == 0) by (nonlinear_arith);
            } else {
                assert(sub_v(sc.0@.dir, rec@.normal) == rand_unit@);
            }
        }
        Some(sc)
    }
}

/// The metallic scatter direction: the mirror reflection of the unit
/// incoming direction, perturbed by `fuzz` times a unit-sphere sample.
pub open spec fn metal_dir(in_dir: V3, normal: V3, fuzz: int, rand_sphere: V3) -> V3 {
    add_v(reflect_v(unit_v(in_dir), normal), scale_v(fuzz, rand_sphere))
}

/// What a metallic scatter returns for the given unit-sphere draw: a ray
/// along the perturbed mirror direction when it points away from the
/// surface, absorption when it points in.
pub open spec fn metal_outcome(
    m: Metal,
    in_dir: V3,
    rec: crate::hittable::HitRecG,
    p: V3,
    r: Option<(Ray, Color)>,
) -> bool {
    let d = metal_dir(in_dir, rec.normal, m.fuzziness as int, p);
    match r {
        Some(sc) => {
            &&& raw_dot(d, rec.normal) > 0
            &&& sc.0@.dir == d
            &&& sc.0@.orig == rec.p
            &&& sc.1 == m.albedo
        },
        None => raw_dot(d, rec.normal) <= 0,
    }
}

impl Metal {
    /// Fuzz is clamped into `[0, 1]` at construction.
    pub fn new(albedo: Color, fuzziness: i64) -> (r: Metal)
        requires
            color_wf(albedo@),
        ensures
            r.albedo == albedo,
            r.fuzziness == if fuzziness < 0 {
                0int
            } else if fuzziness > SCALE {
                SCALE as int
            } else {
                fuzziness as int
            },
            mat_wf(Material::Metal(r)),
    {
        let fuzziness = crate::math::clamp(fuzziness, 0, SCALE);
        Metal { albedo, fuzziness }
    }

    /// The deterministic core of metallic scattering, taking the random
    /// sphere sample as an argument. Absorbs exactly when the perturbed
    /// direction points into the surface.
    pub fn scatter_with(&self, ray_in: &Ray, rec: &HitRecord, rand_sphere: Vec3) -> (r: Option<
        (Ray, Color),
    >)
        requires
            rec_wf(rec@),
            ray_wf(ray_in@),
            mat_wf(Material::Metal(*self)),
            bounded(rand_sphere@, SCALE as int),
        ensures
            ({
                let d = metal_dir(ray_in@.dir, rec@.normal, self.fuzziness as int, rand_sphere@);
                match r {
                    Some(sc) => {
                        &&& raw_dot(d, rec@.normal) > 0
                        &&& sc.0@.dir == d
                        &&& sc.0@.orig == rec@.p
                        &&& sc.1 == self.albedo
                        &&& bounded(sc.0@.dir, 30_000_000)
                        &&& raw_norm(sc.0@.dir) >= 1
                    },
                    None => raw_dot(d, rec@.normal) <= 0,
                }
            }),
    {
        let ud = ray_in.direction().unit_vector();
        let reflected = Vec3::reflect(&ud, &rec.normal);
        proof {
            lemma_raw_dot_bound2(unit_v(ray_in@.dir), rec@.normal, 1_000_000, 2_000_000);
            let d2 = 2 * raw_dot(unit_v(ray_in@.dir), rec@.normal);
            lemma_mul_abs_bound(d2, rec@.normal.x, 12_000_000_000_000, 2_000_000);
            lemma_mul_abs_bound(d2, rec@.normal.y, 12_000_000_000_000, 2_000_000);
            lemma_mul_abs_bound(d2, rec@.normal.z, 12_000_000_000_000, 2_000_000);
            lemma_tdiv_bound(d2 * rec@.normal.x, 1_000_000_000_000, 24_000_000);
            lemma_tdiv_bound(d2 * rec@.normal.y, 1_000_000_000_000, 24_000_000);
            lemma_tdiv_bound(d2 * rec@.normal.z, 1_000_000_000_000, 24_000_000);
            assert(bounded(reflected@, 25_000_000));
            lemma_scale_bounded(self.fuzziness as int, rand_sphere@, 1_000_000, 1_000_000);
        }
        let perturb = rand_sphere.scale(self.fuzziness);
        let dir = reflected.add(perturb);
        let scattered = Ray::new(rec.p, dir);
        let d = raw_dot_wide(&dir, &rec.normal);
        if d > 0 {
            proof {
                if near_zero_v(dir@) {
                    assert(raw_dot(dir@, rec@.normal) == 0) by (nonlinear_arith)
                        requires
                            dir@.x == 0,
                            dir@.y == 0,
                            dir@.z == 0,
                    ;
                }
                lemma_nonzero_norm(dir@);
            }
            Some((scattered, self.albedo))
        } else {
            None
        }
    }

    /// Metallic scattering: draws the sphere sample and defers to the
    /// deterministic core.
    pub fn scatter(&self, ray_in: &Ray, rec: &HitRecord) -> (r: Option<(Ray, Color)>)
        requires
            rec_wf(rec@),
            ray_wf(ray_in@),
            mat_wf(Material::Metal(*self)),
        ensures
            match r {
                Some(sc) => {
                    &&& sc.0@.orig == rec@.p
                    &&& sc.1 == self.albedo
                    &&& bounded(sc.0@.dir, 30_000_000)
                    &&& raw_norm(sc.0@.dir) >= 1
                    &&& raw_dot(sc.0@.dir, rec@.normal) > 0
                },
                None => true,
            },
            exists|p: V3| sphere_sample(p) && metal_outcome(*self, ray_in@.dir, rec@, p, r),
            self.fuzziness == 0 && raw_dot(
                reflect_v(unit_v(ray_in@.dir), rec@.normal),
                rec@.normal,
            ) > 0 ==> r is Some,
    {
        let rand_sphere = Vec3::random_in_unit_sphere();
        let r = self.scatter_with(ray_in, rec, rand_sphere);
        proof {
            assert(sphere_sample(rand_sphere@) && metal_outcome(
                *self,
                ray_in@.dir,
                rec@,
                rand_sphere@,
                r,
            ));
            if self.fuzziness == 0 {
                lemma_metal_mirror(ray_in@.dir, rec@.normal, rand_sphere@);
            }
        }
        r
    }
}

/// With no fuzz, the metallic direction is exactly the mirror reflection:
/// no randomness reaches the scattered ray.
pub proof fn lemma_metal_mirror(in_dir: V3, normal: V3, rand_sphere: V3)
    ensures
        metal_dir(in_dir, normal, 0, rand_sphere) == reflect_v(unit_v(in_dir), normal),
{
    assert(0 * rand_sphere.x == 0) by (nonlinear_arith);
    assert(0 * rand_sphere.y == 0) by (nonlinear_arith);
    assert(0 * rand_sphere.z == 0) by (nonlinear_arith);
    assert(tdiv(0, SCALE as int) == 0);
}

/// Schlick's closed-form reflectance estimate
/// `r0 + (1 - r0) * (1 - cos)^5` with `r0 = ((1 - ratio) / (1 + ratio))^2`,
/// in fixed point.
pub open spec fn schlick(cos: int, ratio: int) -> int {
    let r0 = tdiv((SCALE - ratio) * (SCALE as int), (SCALE as int) + ratio);
    let r0s = tdiv(r0 * r0, SCALE as int);
    let d = SCALE - cos;
    let p2 = tdiv(d * d, SCALE as int);
    let p4 = tdiv(p2 * p2, SCALE as int);
    let p5 = tdiv(p4 * d, SCALE as int);
    r0s + tdiv((SCALE - r0s) * p5, SCALE as int)
}

/// The refraction-index quotient the scatter uses: the reciprocal on a
/// front-face hit (entering the medium), the index itself on leaving.
pub open spec fn dielectric_ratio(front_face: bool, ior: int) -> int {
    if front_face {
        tdiv((SCALE as int) * (SCALE as int), ior)
    } else {
        ior
    }
}

/// The cosine of the incidence angle that the dielectric arithmetic uses.
pub open spec fn dielectric_cos(in_dir: V3, normal: V3) -> int {
    min_i(SCALE as int, tdiv(raw_dot(neg_v(unit_v(in_dir)), normal), SCALE as int))
}

/// Total internal reflection: the refraction quotient times the sine of the
/// incidence angle exceeds one, so no refracted direction exists and the
/// ray must reflect whatever the uniform draw is.
pub open spec fn dielectric_tir(in_dir: V3, normal: V3, front_face: bool, ior: int) -> bool {
    let ratio = dielectric_ratio(front_face, ior);
    let cos = dielectric_cos(in_dir, normal);
    let cc = tdiv(cos * cos, SCALE as int);
    let sin = isqrt((if cc <= SCALE {
        SCALE - cc
    } else {
        0
    }) * (SCALE as int));
    ratio * sin > (SCALE as int) * (SCALE as int)
}

/// The dielectric scatter direction: reflect on total internal reflection
/// or when Schlick's reflectance exceeds the uniform draw `u`; refract
/// otherwise.
pub open spec fn dielectric_dir(in_dir: V3, normal: V3, front_face: bool, ior: int, u: int) -> V3 {
    let ratio = dielectric_ratio(front_face, ior);
    let ud = unit_v(in_dir);
    let cos = dielectric_cos(in_dir, normal);
    if dielectric_tir(in_dir, normal, front_face, ior) || schlick(cos, ratio) > u {
        reflect_v(ud, normal)
    } else {
        refract_v(ud, normal, ratio)
    }
}

impl Dielectric {
    pub fn new(index_of_refraction: i64) -> (r: Dielectric)
        requires
            500_000 <= index_of_refraction <= 4_000_000,
        ensures
            r.index_of_refraction == index_of_refraction,
            mat_wf(Material::Dielectric(r)),
    {
        Dielectric { index_of_refraction }
    }

    /// Schlick's approximation for reflectance.
    fn reflectance(cosine: i64, ref_idx: i64) -> (r: i64)
        requires
            -7_000_000 <= cosine <= SCALE,
            0 <= ref_idx <= 4_000_000,
        ensures
            r == schlick(cosine as int, ref_idx as int),
            r >= 0,
    {
        proof {
            assert(abs_i((1_000_000 - ref_idx as int) * 1_000_000) <= 1_000_000 * (1_000_000
                + ref_idx as int));
            lemma_tdiv_bound(
                (1_000_000 - ref_idx as int) * 1_000_000,
                1_000_000 + ref_idx as int,
                1_000_000,
            );
        }
        let r0 = tdiv_i128(
            ((SCALE - ref_idx) as i128) * (SCALE as i128),
            (SCALE + ref_idx) as i128,
        );
        proof {
            let r0g = tdiv((1_000_000 - ref_idx as int) * 1_000_000, 1_000_000 + ref_idx as int);
            lemma_mul_abs_bound(r0g, r0g, 1_000_000, 1_000_000);
            crate::vec3::lemma_square_nonneg(r0g);
            lemma_tdiv_bound(r0g * r0g, 1_000_000, 1_000_000);
        }
        let r0s = tdiv_i128(r0 * r0, SCALE as i128);
        let d = SCALE - cosine;
        proof {
            lemma_mul_abs_bound(d as int, d as int, 8_000_000, 8_000_000);
            crate::vec3::lemma_square_nonneg(d as int);
            lemma_tdiv_bound((d as int) * (d as int), 1_000_000, 64_000_000);
        }
        let p2 = tdiv_i128((d as i128) * (d as i128), SCALE as i128);
        proof {
            let p2g = tdiv((d as int) * (d as int), 1_000_000);
            lemma_mul_abs_bound(p2g, p2g, 64_000_000, 64_000_000);
            crate::vec3::lemma_square_nonneg(p2g);
            lemma_tdiv_bound(p2g * p2g, 1_000_000, 4_096_000_000);
        }
        let p4 = tdiv_i128(p2 * p2, SCALE as i128);
        proof {
            let p2g = tdiv((d as int) * (d as int), 1_000_000);
            let p4g = tdiv(p2g * p2g, 1_000_000);
            lemma_mul_abs_bound(p4g, d as int, 4_096_000_000, 8_000_000);
            lemma_mul_nonneg(p4g, d as int);
            lemma_tdiv_bound(p4g * (d as int), 1_000_000, 32_768_000_000);
        }
        let p5 = tdiv_i128(p4 * (d as i128), SCALE as i128);
        proof {
            let r0g = tdiv((1_000_000 - ref_idx as int) * 1_000_000, 1_000_000 + ref_idx as int);
            let r0sg = tdiv(r0g * r0g, 1_000_000);
            let p2g = tdiv((d as int) * (d as int), 1_000_000);
            let p4g = tdiv(p2g * p2g, 1_000_000);
            let p5g = tdiv(p4g * (d as int), 1_000_000);
            lemma_mul_abs_bound(1_000_000 - r0sg, p5g, 1_000_000, 32_768_000_000);
            lemma_mul_nonneg(1_000_000 - r0sg, p5g);
            lemma_tdiv_bound((1_000_000 - r0sg) * p5g, 1_000_000, 32_768_000_000);
        }
        let tail = tdiv_i128((SCALE as i128 - r0s) * p5, SCALE as i128);
        (r0s + tail) as i64
    }

    /// The deterministic core of dielectric scattering, taking the uniform
    /// draw `u` as an argument. Always scatters; the attenuation is the
    /// identity color, since this model's dielectrics absorb nothing.
    pub fn scatter_with(&self, ray_in: &Ray, rec: &HitRecord, u: i64) -> (r: (Ray, Color))
        requires
            rec_wf(rec@),
            ray_wf(ray_in@),
            mat_wf(Material::Dielectric(*self)),
            u >= 0,
        ensures
            r.0@.orig == rec@.p,
            r.0@.dir == dielectric_dir(
                ray_in@.dir,
                rec@.normal,
                rec@.front_face,
                self.index_of_refraction as int,
                u as int,
            ),
            r.1@ == v3(SCALE as int, SCALE as int, SCALE as int),
            bounded(r.0@.dir, 1_000_000_000),
    {
        let attenuation = Vec3::one();
        let refraction_ratio: i64 = if rec.front_face {
            proof {
                lemma_tdiv_bound(1_000_000_000_000, self.index_of_refraction as int, 2_000_000);
                crate::math::lemma_tdiv_lower(1_000_000_000_000, self.index_of_refraction as int,
                    1);
            }
            tdiv_i128((SCALE as i128) * (SCALE as i128), self.index_of_refraction as i128) as i64
        } else {
            self.index_of_refraction
        };
        let unit_direction = ray_in.direction().unit_vector();
        proof {
            lemma_raw_dot_bound2(neg_v(unit_v(ray_in@.dir)), rec@.normal, 1_000_000, 2_000_000);
            lemma_tdiv_bound(raw_dot(neg_v(unit_v(ray_in@.dir)), rec@.normal), 1_000_000,
                6_000_000);
        }
        let neg_ud = unit_direction.neg();
        let dw = raw_dot_wide(&neg_ud, &rec.normal);
        let dfx = tdiv_i128(dw, SCALE as i128) as i64;
        let cos_theta = min_i64(SCALE, dfx);
        proof {
            lemma_mul_abs_bound(cos_theta as int, cos_theta as int, 6_000_000, 6_000_000);
            crate::vec3::lemma_square_nonneg(cos_theta as int);
            lemma_tdiv_bound((cos_theta as int) * (cos_theta as int), 1_000_000, 36_000_000);
        }
        let cc = tdiv_i128((cos_theta as i128) * (cos_theta as i128), SCALE as i128) as i64;
        let under: i64 = if cc <= SCALE {
            SCALE - cc
        } else {
            0
        };
        proof {
            lemma_mul_nonneg(under as int, 1_000_000);
            lemma_mul_abs_bound(under as int, 1_000_000, 1_000_000, 1_000_000);
        }
        let sin_wide = isqrt_u128(((under as i128) * (SCALE as i128)) as u128);
        proof {
            lemma_isqrt_bound((under as int) * (1_000_000 as int), 1_000_000);
        }
        let sin_theta = sin_wide as i64;
        proof {
            lemma_mul_abs_bound(refraction_ratio as int, sin_theta as int, 4_000_000, 1_000_000);
        }
        let cannot_refract = (refraction_ratio as i128) * (sin_theta as i128) > (SCALE as i128)
            * (SCALE as i128);
        let direction: Vec3;
        if cannot_refract || Dielectric::reflectance(cos_theta, refraction_ratio) > u {
            direction = Vec3::reflect(&unit_direction, &rec.normal);
            proof {
                lemma_raw_dot_bound2(unit_v(ray_in@.dir), rec@.normal, 1_000_000, 2_000_000);
                let d2 = 2 * raw_dot(unit_v(ray_in@.dir), rec@.normal);
                lemma_mul_abs_bound(d2, rec@.normal.x, 12_000_000_000_000, 2_000_000);
                lemma_mul_abs_bound(d2, rec@.normal.y, 12_000_000_000_000, 2_000_000);
                lemma_mul_abs_bound(d2, rec@.normal.z, 12_000_000_000_000, 2_000_000);
                lemma_tdiv_bound(d2 * rec@.normal.x, 1_000_000_000_000, 24_000_000);
                lemma_tdiv_bound(d2 * rec@.normal.y, 1_000_000_000_000, 24_000_000);
                lemma_tdiv_bound(d2 * rec@.normal.z, 1_000_000_000_000, 24_000_000);
            }
        } else {
            direction = Vec3::refract(&unit_direction, &rec.normal, refraction_ratio);
        }
        (Ray::new(rec.p, direction), attenuation)
    }

    /// Dielectric scattering: draws the reflectance comparison value and
    /// defers to the deterministic core. Never absorbs; the direction is
    /// the dielectric direction for some uniform draw, and under total
    /// internal reflection it is the mirror reflection whatever the draw.
    pub fn scatter(&self, ray_in: &Ray, rec: &HitRecord) -> (r: Option<(Ray, Color)>)
        requires
            rec_wf(rec@),
            ray_wf(ray_in@),
            mat_wf(Material::Dielectric(*self)),
        ensures
            match r {
                Some(sc) => {
                    &&& sc.0@.orig == rec@.p
                    &&& sc.1@ == v3(SCALE as int, SCALE as int, SCALE as int)
                    &&& bounded(sc.0@.dir, 1_000_000_000)
                    &&& (exists|u: int|
                        0 <= u < SCALE as int && sc.0@.dir == dielectric_dir(
                            ray_in@.dir,
                            rec@.normal,
                            rec@.front_face,
                            self.index_of_refraction as int,
                            u,
                        ))
                    &&& (dielectric_tir(
                        ray_in@.dir,
                        rec@.normal,
                        rec@.front_face,
                        self.index_of_refraction as int,
                    ) ==> sc.0@.dir == reflect_v(unit_v(ray_in@.dir), rec@.normal))
                },
                None => false,
            },
    {
        let u = random_double();
        let sc = self.scatter_with(ray_in, rec, u);
        proof {
            assert(0 <= u as int && (u as int) < SCALE as int && sc.0@.dir == dielectric_dir(
                ray_in@.dir,
                rec@.normal,
                rec@.front_face,
                self.index_of_refraction as int,
                u as int,
            ));
        }
        Some(sc)
    }
}

/// A dielectric with an index of refraction of one bends nothing: when the
/// unit incoming direction `ud` strikes the front face of a surface whose
/// normal is the third axis unit vector, and the uniform draw `u` does not
/// select the Schlick reflection, the scattered direction is exactly `ud`.
/// The incoming direction is a unit vector whose axis component squares to
/// a multiple of `SCALE`, so every rounding step is exact.
pub proof fn lemma_dielectric_straight_through(ud: V3, u: int)
    requires
        raw_norm(ud) == 1_000_000_000_000,
        ud.z <= 0,
        (ud.z * ud.z) % 1_000_000 == 0,
        schlick(-ud.z, 1_000_000) <= u,
    ensures
        dielectric_dir(ud, v3(0, 0, 1_000_000), true, 1_000_000, u) == ud,
{
    let n = v3(0, 0, 1_000_000);
    let c = -ud.z;
    // The refraction quotient of an index of one is one.
    assert((SCALE as int) * (SCALE as int) == 1_000_000_000_000) by (nonlinear_arith)
        requires
            SCALE as int == 1_000_000,
    ;
    assert(1_000_000 * 1_000_000 == 1_000_000_000_000);
    crate::math::lemma_tdiv_exact(1_000_000, 1_000_000);
    let ratio = dielectric_ratio(true, 1_000_000);
    assert(ratio == 1_000_000);
    // The unit incoming direction normalizes to itself.
    crate::vec3::lemma_normalize_unit(ud);
    // The cosine against the axis normal is exact.
    assert(raw_dot(neg_v(ud), n) == c * 1_000_000) by (nonlinear_arith)
        requires
            n == v3(0, 0, 1_000_000),
            c == -ud.z,
            raw_dot(neg_v(ud), n) == (-ud.x) * n.x + (-ud.y) * n.y + (-ud.z) * n.z,
    ;
    crate::math::lemma_tdiv_exact(c, SCALE as int);
    assert(c * (SCALE as int) == c * 1_000_000) by (nonlinear_arith)
        requires
            SCALE as int == 1_000_000,
    ;
    assert(tdiv(raw_dot(neg_v(ud), n), SCALE as int) == c);
    crate::vec3::lemma_square_nonneg(ud.x);
    crate::vec3::lemma_square_nonneg(ud.y);
    crate::vec3::lemma_square_nonneg(ud.z);
    assert(0 <= c <= 1_000_000) by (nonlinear_arith)
        requires
            ud.x * ud.x + ud.y * ud.y + ud.z * ud.z == 1_000_000_000_000,
            ud.x * ud.x >= 0,
            ud.y * ud.y >= 0,
            ud.z * ud.z >= 0,
            ud.z <= 0,
            c == -ud.z,
    ;
    let cos = min_i(SCALE as int, tdiv(raw_dot(neg_v(ud), n), SCALE as int));
    assert(cos == c);
    // The squared cosine divides out exactly.
    assert(c * c == ud.z * ud.z) by (nonlinear_arith)
        requires
            c == -ud.z,
    ;
    vstd::arithmetic::div_mod::lemma_fundamental_div_mod(c * c, 1_000_000);
    assert(c * c == 1_000_000 * ((c * c) / 1_000_000));
    crate::math::lemma_tdiv_exact((c * c) / 1_000_000, 1_000_000);
    assert(((c * c) / 1_000_000) * 1_000_000 == 1_000_000 * ((c * c) / 1_000_000))
        by (nonlinear_arith);
    let cc = tdiv(cos * cos, SCALE as int);
    assert(cos * cos == c * c) by (nonlinear_arith)
        requires
            cos == c,
    ;
    assert(c * c == ((c * c) / 1_000_000) * (SCALE as int)) by (nonlinear_arith)
        requires
            c * c == 1_000_000 * ((c * c) / 1_000_000),
            SCALE as int == 1_000_000,
    ;
    crate::math::lemma_tdiv_exact((c * c) / 1_000_000, SCALE as int);
    assert(cc == (c * c) / 1_000_000);
    assert(0 <= cc <= 1_000_000) by {
        crate::math::lemma_tdiv_bound(c * c, 1_000_000, 1_000_000);
        assert(abs_i(c * c) <= 1_000_000 * 1_000_000) by (nonlinear_arith)
            requires
                0 <= c <= 1_000_000,
        ;
        crate::math::lemma_tdiv_bound(c * c, 1_000_000, 1_000_000);
        assert(tdiv(c * c, 1_000_000) == (c * c) / 1_000_000);
    }
    // No total internal reflection: the sine stays at most one.
    let under = if cc <= SCALE {
        SCALE - cc
    } else {
        0
    };
    assert(under == 1_000_000 - cc);
    assert(0 <= under * (SCALE as int) <= 1_000_000_000_000) by (nonlinear_arith)
        requires
            0 <= under <= 1_000_000,
            SCALE as int == 1_000_000,
    ;
    crate::math::lemma_isqrt_exists(under * (SCALE as int));
    crate::math::lemma_isqrt_bound(under * (SCALE as int), 1_000_000);
    let sin = isqrt(under * (SCALE as int));
    assert(!(ratio * sin > (SCALE as int) * (SCALE as int))) by (nonlinear_arith)
        requires
            ratio == 1_000_000,
            0 <= sin <= 1_000_000,
            (SCALE as int) * (SCALE as int) == 1_000_000_000_000,
    ;
    // The draw selects refraction.
    assert(schlick(cos, ratio) <= u);
    // Refraction at quotient one reproduces the direction exactly.
    assert(c * n.x == 0 && c * n.y == 0) by (nonlinear_arith)
        requires
            n == v3(0, 0, 1_000_000),
    ;
    crate::math::lemma_tdiv_bound(0, SCALE as int, 0);
    assert(c * n.z == c * 1_000_000) by (nonlinear_arith)
        requires
            n == v3(0, 0, 1_000_000),
    ;
    let cn = scale_v(c, n);
    assert(cn == v3(0, 0, c));
    let sum = add_v(ud, cn);
    assert(sum == v3(ud.x, ud.y, 0));
    assert(ratio * sum.x == ud.x * (SCALE as int) && ratio * sum.y == ud.y * (SCALE as int)
        && ratio * sum.z == 0) by (nonlinear_arith)
        requires
            ratio == 1_000_000,
            SCALE as int == 1_000_000,
            sum == v3(ud.x, ud.y, 0),
    ;
    crate::math::lemma_tdiv_exact(ud.x, SCALE as int);
    crate::math::lemma_tdiv_exact(ud.y, SCALE as int);
    let r_perp = scale_v(ratio, sum);
    assert(r_perp == v3(ud.x, ud.y, 0));
    // The perpendicular part's squared length divides out exactly too.
    assert(raw_norm(r_perp) == 1_000_000_000_000 - c * c) by (nonlinear_arith)
        requires
            r_perp == v3(ud.x, ud.y, 0),
            raw_norm(r_perp) == r_perp.x * r_perp.x + r_perp.y * r_perp.y + r_perp.z * r_perp.z,
            ud.x * ud.x + ud.y * ud.y + ud.z * ud.z == 1_000_000_000_000,
            c * c == ud.z * ud.z,
    ;
    assert(raw_norm(r_perp) == (1_000_000 - cc) * (SCALE as int)) by (nonlinear_arith)
        requires
            raw_norm(r_perp) == 1_000_000_000_000 - c * c,
            c * c == 1_000_000 * cc,
            SCALE as int == 1_000_000,
    ;
    crate::math::lemma_tdiv_exact(1_000_000 - cc, SCALE as int);
    let ls = tdiv(raw_norm(r_perp), SCALE as int);
    assert(ls == 1_000_000 - cc);
    assert(abs_i(SCALE - ls) == cc);
    assert(cc * (SCALE as int) == c * c) by (nonlinear_arith)
        requires
            c * c == 1_000_000 * cc,
            SCALE as int == 1_000_000,
    ;
    assert(is_isqrt(c * c, c)) by (nonlinear_arith)
        requires
            0 <= c,
    ;
    crate::math::lemma_isqrt_is(c * c, c);
    let st = isqrt(abs_i(SCALE - ls) * (SCALE as int));
    assert(st == c);
    let r_par = neg_v(scale_v(st, n));
    assert(r_par == v3(0, 0, -c));
    assert(add_v(r_perp, r_par) == ud);
}

impl Material {
    /// Scattering, dispatched over the material kinds: a scattered ray and
    /// an attenuation color, or absorption. The placeholder material
    /// absorbs everything; diffuse and clear surfaces never absorb.
    pub fn scatter(&self, ray_in: &Ray, rec: &HitRecord) -> (r: Option<(Ray, Color)>)
        requires
            rec_wf(rec@),
            ray_wf(ray_in@),
            mat_wf(*self),
        ensures
            match r {
                Some(sc) => {
                    &&& sc.0@.orig == rec@.p
                    &&& color_wf(sc.1@)
                    &&& bounded(sc.0@.dir, 1_000_000_000)
                },
                None => true,
            },
            self is Empty ==> r is None,
            self matches Material::Lambertian(l) ==> (r matches Some(sc) && sc.1 == l.albedo),
            self matches Material::Metal(m) ==> (r matches Some(sc) ==> sc.1 == m.albedo),
            self matches Material::Metal(m) && m.fuzziness == 0 && raw_dot(
                reflect_v(unit_v(ray_in@.dir), rec@.normal),
                rec@.normal,
            ) > 0 ==> r is Some,
            self is Dielectric ==> (r matches Some(sc) && sc.1@ == v3(
                1_000_000,
                1_000_000,
                1_000_000,
            )),
    {
        match self {
            Material::Lambertian(l) => l.scatter(ray_in, rec),
            Material::Metal(m) => m.scatter(ray_in, rec),
            Material::Dielectric(d) => d.scatter(ray_in, rec),
            Material::Empty(_) => None,
        }
    }
}

} // verus!
