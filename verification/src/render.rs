use crate::camera::{camera_wf, Camera};
use crate::hittable_list::{list_hit, list_wf, HittableList};
use crate::material::{color_wf, Material};
use crate::math::{
    isqrt, isqrt_u128, lemma_isqrt_bound, lemma_mul_nonneg, lemma_tdiv_bound,
    lemma_tdiv_error, lemma_tdiv_exact, tdiv, tdiv_i128, SCALE, T_MAX,
};
use crate::ray::{ray_wf, ray_wf_check, Ray};
use crate::vec3::{
    add_v, lemma_mul_abs_bound, mul_v, raw_norm, scale_v, unit_v, v3, Color, Vec3, V3,
};
use rayon::iter::{IntoParallelIterator, ParallelIterator};
use vstd::prelude::*;

verus! {

/// The background illumination for a missed ray: a vertical gradient from
/// white at the horizon to sky blue at the zenith, keyed by the unit
/// direction's second component.
pub open spec fn sky_v(dir: V3) -> V3 {
    let t = tdiv(unit_v(dir).y + SCALE, 2);
    add_v(
        scale_v(SCALE - t, v3(SCALE as int, SCALE as int, SCALE as int)),
        scale_v(t, v3(500_000, 700_000, 1_000_000)),
    )
}

/// The product of two unit-interval colors stays in the unit interval.
pub proof fn lemma_attenuate_wf(a: V3, b: V3)
    ensures
        color_wf(a) && color_wf(b) ==> color_wf(mul_v(a, b)),
{
    if color_wf(a) && color_wf(b) {
        assert(0 <= a.x * b.x <= 1_000_000 * (SCALE as int) && 0 <= a.y * b.y <= 1_000_000 * (
        SCALE as int) && 0 <= a.z * b.z <= 1_000_000 * (SCALE as int)) by (nonlinear_arith)
            requires
                0 <= a.x <= SCALE as int,
                0 <= a.y <= SCALE as int,
                0 <= a.z <= SCALE as int,
                0 <= b.x <= SCALE as int,
                0 <= b.y <= SCALE as int,
                0 <= b.z <= SCALE as int,
                SCALE as int == 1_000_000,
        ;
        lemma_tdiv_bound(a.x * b.x, SCALE as int, 1_000_000);
        lemma_tdiv_bound(a.y * b.y, SCALE as int, 1_000_000);
        lemma_tdiv_bound(a.z * b.z, SCALE as int, 1_000_000);
    }
}

/// The sky gradient is a convex blend of two unit-interval colors, so it
/// stays in the unit interval.
pub proof fn lemma_sky_wf(dir: V3)
    requires
        -1_000_000 <= unit_v(dir).y <= 1_000_000,
    ensures
        color_wf(sky_v(dir)),
{
    let t = tdiv(unit_v(dir).y + SCALE, 2);
    lemma_tdiv_bound(unit_v(dir).y + SCALE, 2, 1_000_000);
    lemma_tdiv_exact(1_000_000 - t, SCALE as int);
    assert((1_000_000 - t) * (SCALE as int) == (SCALE as int - t) * (SCALE as int))
        by (nonlinear_arith)
        requires
            SCALE as int == 1_000_000,
    ;
    assert(0 <= t * 500_000 <= t * (SCALE as int) && 0 <= t * 700_000 <= t * (SCALE as int) && 0
        <= t * 1_000_000 <= t * (SCALE as int)) by (nonlinear_arith)
        requires
            0 <= t,
            SCALE as int == 1_000_000,
    ;
    lemma_tdiv_bound(t * 500_000, SCALE as int, t);
    lemma_tdiv_bound(t * 700_000, SCALE as int, t);
    lemma_tdiv_bound(t * 1_000_000, SCALE as int, t);
}

/// Straight up, the gradient is exactly the sky-blue color: for the unit
/// direction along the second axis the blend parameter is one.
pub proof fn lemma_sky_at_zenith()
    ensures
        sky_v(v3(0, 1_000_000, 0)) == v3(500_000, 700_000, 1_000_000),
{
    let d = v3(0, 1_000_000, 0);
    assert(1_000_000 * 1_000_000 == 1_000_000_000_000);
    assert(raw_norm(d) == 1_000_000_000_000);
    crate::vec3::lemma_normalize_unit(d);
    lemma_tdiv_exact(1_000_000, 2);
    assert(1_000_000 * 2 == 2_000_000);
    let t = tdiv(unit_v(d).y + SCALE, 2);
    assert(t == 1_000_000);
    lemma_tdiv_bound(0, SCALE as int, 0);
    assert(0 * (SCALE as int) == 0) by (nonlinear_arith);
    assert(500_000 * (SCALE as int) == 500_000_000_000);
    assert(700_000 * (SCALE as int) == 700_000_000_000);
    assert(1_000_000 * (SCALE as int) == 1_000_000_000_000);
    lemma_tdiv_exact(500_000, SCALE as int);
    lemma_tdiv_exact(700_000, SCALE as int);
    lemma_tdiv_exact(1_000_000, SCALE as int);
    assert(t * 500_000 == 500_000 * (SCALE as int)) by (nonlinear_arith)
        requires
            t == 1_000_000,
            SCALE as int == 1_000_000,
    ;
    assert(t * 700_000 == 700_000 * (SCALE as int)) by (nonlinear_arith)
        requires
            t == 1_000_000,
            SCALE as int == 1_000_000,
    ;
    assert(t * 1_000_000 == 1_000_000 * (SCALE as int)) by (nonlinear_arith)
        requires
            t == 1_000_000,
            SCALE as int == 1_000_000,
    ;
}

/// Every channel of the sky gradient is bright: at least one half in the
/// first channel, seven tenths in the second, and exactly one in the third.
pub proof fn lemma_sky_floor(dir: V3)
    requires
        raw_norm(dir) >= 1,
    ensures
        sky_v(dir).x >= 499_999,
        sky_v(dir).y >= 699_999,
        sky_v(dir).z == 1_000_000,
{
    crate::vec3::lemma_unit_bounded(dir);
    let t = tdiv(unit_v(dir).y + SCALE, 2);
    lemma_tdiv_bound(unit_v(dir).y + SCALE, 2, 1_000_000);
    lemma_tdiv_exact(1_000_000 - t, SCALE as int);
    assert((1_000_000 - t) * (SCALE as int) == (SCALE as int - t) * (SCALE as int))
        by (nonlinear_arith)
        requires
            SCALE as int == 1_000_000,
    ;
    crate::math::lemma_mul_nonneg(t, 500_000);
    crate::math::lemma_mul_nonneg(t, 700_000);
    lemma_tdiv_error(t * 500_000, SCALE as int);
    lemma_tdiv_error(t * 700_000, SCALE as int);
    assert(t * 500_000 >= 500_000 * t && t * 700_000 >= 700_000 * t && tdiv(
        t * 500_000,
        SCALE as int,
    ) * (SCALE as int) == tdiv(t * 500_000, SCALE as int) * 1_000_000 && tdiv(
        t * 700_000,
        SCALE as int,
    ) * (SCALE as int) == tdiv(t * 700_000, SCALE as int) * 1_000_000) by (nonlinear_arith)
        requires
            SCALE as int == 1_000_000,
    ;
    assert(t * 1_000_000 == t * (SCALE as int)) by (nonlinear_arith)
        requires
            SCALE as int == 1_000_000,
    ;
    lemma_tdiv_exact(t, SCALE as int);
}

/// The recursive Monte Carlo color estimator. A zero or negative depth
/// yields black; a miss yields the sky gradient, exactly; a hit asks the
/// material to scatter and recurses, attenuating the result, with black
/// for absorption or a degenerate scattered ray. Every returned channel
/// lies in the unit interval, and the hit clause ties the result to the
/// struck material: its attenuation times some unit-interval color, or
/// black.
pub fn ray_color(r: &Ray, world: &HittableList, depth: i32) -> (c: Color)
    requires
        ray_wf(r@),
        list_wf(world@),
    ensures
        color_wf(c@),
        depth <= 0 ==> c@ == v3(0, 0, 0),
        depth > 0 && list_hit(world@, r@, 1_000, T_MAX as int) is None ==> c@ == sky_v(r@.dir),
        depth > 0 ==> (match list_hit(world@, r@, 1_000, T_MAX as int) {
            Some(h) => (match h.material {
                Material::Empty(_) => c@ == v3(0, 0, 0),
                Material::Lambertian(l) => c@ == v3(0, 0, 0) || (exists|f: V3|
                    color_wf(f) && c@ == mul_v(l.albedo@, f)),
                Material::Metal(m) => c@ == v3(0, 0, 0) || (exists|f: V3|
                    color_wf(f) && c@ == mul_v(m.albedo@, f)),
                Material::Dielectric(_) => c@ == v3(0, 0, 0) || (exists|f: V3|
                    color_wf(f) && c@ == mul_v(v3(1_000_000, 1_000_000, 1_000_000), f)),
            }),
            None => true,
        }),
    decreases depth,
{
    if depth <= 0 {
        return Vec3::zero();
    }
    if let Some(rec) = world.hit(r, 1_000, T_MAX) {
        return if let Some((scattered, attenuation)) = rec.material.scatter(r, &rec) {
            // A numerically degenerate scattered ray contributes nothing.
            if ray_wf_check(&scattered) {
                let follow = ray_color(&scattered, world, depth - 1);
                proof {
                    lemma_attenuate_wf(attenuation@, follow@);
                }
                let out = attenuation.mul(follow);
                proof {
                    match rec.material {
                        Material::Lambertian(l) => {
                            assert(color_wf(follow@) && out@ == mul_v(l.albedo@, follow@));
                        },
                        Material::Metal(m) => {
                            assert(color_wf(follow@) && out@ == mul_v(m.albedo@, follow@));
                        },
                        Material::Dielectric(_) => {
                            assert(color_wf(follow@) && out@ == mul_v(
                                v3(1_000_000, 1_000_000, 1_000_000),
                                follow@,
                            ));
                        },
                        Material::Empty(_) => {},
                    }
                }
                out
            } else {
                Vec3::zero()
            }
        } else {
            Vec3::zero()
        };
    }
    let unit_direction = r.direction().unit_vector();
    let t = tdiv_i128((unit_direction.y + SCALE) as i128, 2) as i64;
    proof {
        lemma_tdiv_bound(unit_v(r@.dir).y + SCALE, 2, 1_000_000);
        lemma_sky_wf(r@.dir);
    }
    Vec3::one().scale(SCALE - t).add(Vec3::new(500_000, 700_000, 1_000_000).scale(t))
}

/// Channels of a per-pixel running sum of `n` unit-interval samples.
pub open spec fn sample_sum_wf(c: V3, n: int) -> bool {
    &&& 0 <= c.x <= n * 1_000_000
    &&& 0 <= c.y <= n * 1_000_000
    &&& 0 <= c.z <= n * 1_000_000
}

/// Channels of a sum of `n` sky samples: each sample carries at least the
/// gradient's floor, so a renderer that ignored the scene could not meet
/// this on a scene where something stands in the way.
pub open spec fn sky_sum_floor(c: V3, n: int) -> bool {
    &&& c.x >= n * 499_999
    &&& c.y >= n * 699_999
    &&& c.z == n * 1_000_000
}

/// One pixel's accumulated color: `samples_per_pixel` independent primary
/// rays, jittered uniformly within the pixel, summed. The caller averages.
pub fn render_pixel(
    world: &HittableList,
    camera: &Camera,
    i: u32,
    j: u32,
    image_width: u32,
    image_height: u32,
    samples_per_pixel: u32,
    max_depth: i32,
) -> (c: Color)
    requires
        list_wf(world@),
        camera_wf(camera@),
        2 <= image_width <= 10_000,
        2 <= image_height <= 10_000,
        i < image_width,
        j < image_height,
        1 <= samples_per_pixel <= 100_000,
    ensures
        sample_sum_wf(c@, samples_per_pixel as int),
        world@.len() == 0 && max_depth >= 1 ==> sky_sum_floor(c@, samples_per_pixel as int),
{
    let mut pixel = Vec3::zero();
    let mut s: u32 = 0;
    while s < samples_per_pixel
        invariant
            0 <= s <= samples_per_pixel,
            samples_per_pixel <= 100_000,
            sample_sum_wf(pixel@, s as int),
            world@.len() == 0 && max_depth >= 1 ==> sky_sum_floor(pixel@, s as int),
            list_wf(world@),
            camera_wf(camera@),
            2 <= image_width <= 10_000,
            2 <= image_height <= 10_000,
            i < image_width,
            j < image_height,
        decreases samples_per_pixel - s,
    {
        let ur = crate::rng::random_double();
        let vr = crate::rng::random_double();
        proof {
            lemma_mul_abs_bound(i as int, SCALE as int, 10_000, 1_000_000);
            lemma_mul_abs_bound(j as int, SCALE as int, 10_000, 1_000_000);
            lemma_tdiv_bound(
                (i as int) * (SCALE as int) + ur as int,
                image_width as int - 1,
                2_000_000,
            );
            lemma_tdiv_bound(
                (j as int) * (SCALE as int) + vr as int,
                image_height as int - 1,
                2_000_000,
            );
            assert((i as int) * (SCALE as int) + ur as int <= 2_000_000 * (image_width as int - 1)
                && (j as int) * (SCALE as int) + vr as int <= 2_000_000 * (image_height as int
                - 1)) by (nonlinear_arith)
                requires
                    0 <= i as int <= image_width as int - 1,
                    0 <= j as int <= image_height as int - 1,
                    2 <= image_width as int,
                    2 <= image_height as int,
                    0 <= ur as int && (ur as int) < 1_000_000,
                    0 <= vr as int && (vr as int) < 1_000_000,
                    SCALE as int == 1_000_000,
            ;
        }
        let u = tdiv_i128(
            ((i as i64) * SCALE + ur) as i128,
            (image_width - 1) as i128,
        ) as i64;
        let v = tdiv_i128(
            ((j as i64) * SCALE + vr) as i128,
            (image_height - 1) as i128,
        ) as i64;
        let ray = camera.get_ray(u, v);
        let sample = ray_color(&ray, world, max_depth);
        proof {
            if world@.len() == 0 && max_depth >= 1 {
                assert(world@ =~= Seq::<crate::sphere::Sphere>::empty());
                crate::hittable_list::lemma_empty_scene_misses(ray@, 1_000, T_MAX as int);
                lemma_sky_floor(ray@.dir);
            }
        }
        pixel = pixel.add(sample);
        s = s + 1;
    }
    pixel
}

/// Relies on rayon's `into_par_iter().map(..).collect::<Vec<_>>()` over the
/// pixel indices of one scanline: it yields exactly one element per index,
/// in index order, each produced by this crate's own `render_pixel`, whose
/// verified contract gives the per-channel bounds and the empty-scene sky
/// floor stated here.
#[verifier::external_body]
fn par_render_line(
    world: &HittableList,
    camera: &Camera,
    j: u32,
    image_width: u32,
    image_height: u32,
    samples_per_pixel: u32,
    max_depth: i32,
) -> (line: Vec<Color>)
    requires
        list_wf(world@),
        camera_wf(camera@),
        2 <= image_width <= 10_000,
        2 <= image_height <= 10_000,
        j < image_height,
        1 <= samples_per_pixel <= 100_000,
    ensures
        line@.len() == image_width as int,
        forall|k: int|
            0 <= k < line@.len() ==> sample_sum_wf(#[trigger] line@[k]@, samples_per_pixel as int),
        world@.len() == 0 && max_depth >= 1 ==> forall|k: int|
            0 <= k < line@.len() ==> sky_sum_floor(#[trigger] line@[k]@, samples_per_pixel as int),
{
    (0..image_width)
        .into_par_iter()
        .map(|i| render_pixel(world, camera, i, j, image_width, image_height, samples_per_pixel,
            max_depth))
        .collect()
}

/// Renders the whole image: one accumulated color per pixel, row-major
/// with the top row (largest `j`) first, scanlines computed in parallel.
pub fn render(
    world: &HittableList,
    camera: &Camera,
    image_width: u32,
    image_height: u32,
    samples_per_pixel: u32,
    max_depth: i32,
) -> (buffer: Vec<Color>)
    requires
        list_wf(world@),
        camera_wf(camera@),
        2 <= image_width <= 10_000,
        2 <= image_height <= 10_000,
        1 <= samples_per_pixel <= 100_000,
    ensures
        buffer@.len() == (image_width as int) * (image_height as int),
        forall|k: int|
            0 <= k < buffer@.len() ==> sample_sum_wf(
                #[trigger] buffer@[k]@,
                samples_per_pixel as int,
            ),
        world@.len() == 0 && max_depth >= 1 ==> forall|k: int|
            0 <= k < buffer@.len() ==> sky_sum_floor(
                #[trigger] buffer@[k]@,
                samples_per_pixel as int,
            ),
{
    let mut buffer: Vec<Color> = Vec::new();
    let mut row: u32 = 0;
    while row < image_height
        invariant
            0 <= row <= image_height,
            buffer@.len() == (row as int) * (image_width as int),
            forall|k: int|
                0 <= k < buffer@.len() ==> sample_sum_wf(
                    #[trigger] buffer@[k]@,
                    samples_per_pixel as int,
                ),
            world@.len() == 0 && max_depth >= 1 ==> forall|k: int|
                0 <= k < buffer@.len() ==> sky_sum_floor(
                    #[trigger] buffer@[k]@,
                    samples_per_pixel as int,
                ),
            list_wf(world@),
            camera_wf(camera@),
            2 <= image_width <= 10_000,
            2 <= image_height <= 10_000,
            1 <= samples_per_pixel <= 100_000,
        decreases image_height - row,
    {
        let j = image_height - 1 - row;
        let line = par_render_line(
            world,
            camera,
            j,
            image_width,
            image_height,
            samples_per_pixel,
            max_depth,
        );
        let mut k: usize = 0;
        while k < line.len()
            invariant
                0 <= k <= line@.len(),
                line@.len() == image_width as int,
                buffer@.len() == (row as int) * (image_width as int) + k as int,
                forall|m: int|
                    0 <= m < buffer@.len() ==> sample_sum_wf(
                        #[trigger] buffer@[m]@,
                        samples_per_pixel as int,
                    ),
                forall|m: int|
                    0 <= m < line@.len() ==> sample_sum_wf(
                        #[trigger] line@[m]@,
                        samples_per_pixel as int,
                    ),
                world@.len() == 0 && max_depth >= 1 ==> forall|m: int|
                    0 <= m < buffer@.len() ==> sky_sum_floor(
                        #[trigger] buffer@[m]@,
                        samples_per_pixel as int,
                    ),
                world@.len() == 0 && max_depth >= 1 ==> forall|m: int|
                    0 <= m < line@.len() ==> sky_sum_floor(
                        #[trigger] line@[m]@,
                        samples_per_pixel as int,
                    ),
                row < image_height <= 10_000,
                image_width <= 10_000,
            decreases line@.len() - k,
        {
            buffer.push(line[k]);
            k = k + 1;
        }
        proof {
            assert((row as int + 1) * (image_width as int) == (row as int) * (image_width as int)
                + image_width as int) by (nonlinear_arith);
        }
        row = row + 1;
    }
    proof {
        assert((image_height as int) * (image_width as int) == (image_width as int) * (
        image_height as int)) by (nonlinear_arith);
    }
    buffer
}

/// One channel of the output conversion: the accumulated value averaged
/// over the sample count, gamma-corrected by a square root, clamped to
/// just under one, and quantized to eight bits.
pub open spec fn gamma8(c: int, n: int) -> int {
    let m = tdiv(c, n);
    let g = isqrt((if m >= 0 {
        m
    } else {
        0
    }) * 1_000_000);
    let cl = if g > 999_000 {
        999_000
    } else {
        g
    };
    tdiv(cl * 256, 1_000_000)
}

/// Averaging identical samples is invariant to the sample count: the sum
/// of `n` copies of a channel, averaged over `n` samples, quantizes
/// exactly as the channel itself over one sample.
pub proof fn lemma_average_invariant(c: int, n: int)
    requires
        n >= 1,
    ensures
        gamma8(c * n, n) == gamma8(c, 1),
{
    lemma_tdiv_exact(c, n);
    lemma_tdiv_exact(c, 1);
    assert(c * 1 == c);
}

/// Converts one accumulated pixel to an eight-bit RGB triple: averages
/// over the sample count, applies the square-root gamma, clamps each
/// channel into `[0, 0.999]` and scales to `[0, 255]`.
pub fn color_to_rgb8(pixel: &Color, samples_per_pixel: u32) -> (rgb: (u8, u8, u8))
    requires
        1 <= samples_per_pixel,
    ensures
        rgb.0 == gamma8(pixel@.x, samples_per_pixel as int),
        rgb.1 == gamma8(pixel@.y, samples_per_pixel as int),
        rgb.2 == gamma8(pixel@.z, samples_per_pixel as int),
{
    let r = rgb8_channel(pixel.x, samples_per_pixel);
    let g = rgb8_channel(pixel.y, samples_per_pixel);
    let b = rgb8_channel(pixel.z, samples_per_pixel);
    (r, g, b)
}

/// One channel of `color_to_rgb8`.
fn rgb8_channel(c: i64, n: u32) -> (q: u8)
    requires
        1 <= n,
    ensures
        q == gamma8(c as int, n as int),
{
    let m = tdiv_i128(c as i128, n as i128);
    let mm: i128 = if m >= 0 {
        m
    } else {
        0
    };
    proof {
        lemma_mul_abs_bound(mm as int, 1_000_000, 9_300_000_000_000_000_000, 1_000_000);
        lemma_mul_nonneg(mm as int, 1_000_000);
    }
    let gw = isqrt_u128((mm * 1_000_000) as u128);
    proof {
        lemma_isqrt_bound((if tdiv(c as int, n as int) >= 0 {
            tdiv(c as int, n as int)
        } else {
            0
        }) * 1_000_000, 4_000_000_000_000);
    }
    let g = gw as i64;
    let cl: i64 = if g > 999_000 {
        999_000
    } else {
        g
    };
    proof {
        crate::math::lemma_tdiv_le(cl as int * 256, 1_000_000, 255);
        lemma_mul_nonneg(cl as int, 256);
    }
    tdiv_i128((cl as i128) * 256, 1_000_000) as u8
}

} // verus!
