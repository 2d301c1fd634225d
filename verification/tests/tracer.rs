use path_tracer::camera::Camera;
use path_tracer::hittable::HitRecord;
use path_tracer::hittable_list::HittableList;
use path_tracer::material::{Dielectric, Lambertian, Material, Metal};
use path_tracer::math::SCALE;
use path_tracer::ray::Ray;
use path_tracer::render::{color_to_rgb8, ray_color, render, render_pixel};
use path_tracer::sphere::Sphere;
use path_tracer::vec3::Vec3;

fn gray() -> Material {
    Material::Lambertian(Lambertian::new(&Vec3::new(500_000, 500_000, 500_000)))
}

fn unit_sphere_at_origin() -> Sphere {
    Sphere::new(Vec3::zero(), SCALE, gray())
}

#[test]
fn ray_evaluates_parametrically() {
    let r = Ray::new(Vec3::new(0, 0, 3_000_000), Vec3::new(0, 0, -SCALE));
    assert_eq!(r.origin(), Vec3::new(0, 0, 3_000_000));
    assert_eq!(r.direction(), Vec3::new(0, 0, -SCALE));
    assert_eq!(r.at(2_000_000), Vec3::new(0, 0, 1_000_000));
    assert_eq!(r.at(0), Vec3::new(0, 0, 3_000_000));
}

#[test]
fn axis_ray_hits_sphere_front_face() {
    // Fired from outside along the axis: front face, outward axis normal.
    let s = unit_sphere_at_origin();
    let r = Ray::new(Vec3::new(0, 0, 3_000_000), Vec3::new(0, 0, -SCALE));
    let rec = s.hit(&r, 1_000, 1_000_000_000_000).expect("must hit");
    assert_eq!(rec.t, 2_000_000);
    assert_eq!(rec.p, Vec3::new(0, 0, 1_000_000));
    assert_eq!(rec.normal, Vec3::new(0, 0, SCALE));
    assert!(rec.front_face);
}

#[test]
fn hit_point_lies_exactly_on_the_ray() {
    let s = Sphere::new(Vec3::new(500_000, -250_000, -4_000_000), 1_500_000, gray());
    let r = Ray::new(Vec3::new(0, 0, 3_000_000), Vec3::new(100_000, -50_000, -990_000));
    if let Some(rec) = s.hit(&r, 1_000, 1_000_000_000_000) {
        assert_eq!(rec.p, r.at(rec.t));
    } else {
        panic!("expected an intersection");
    }
}

#[test]
fn ray_from_inside_reports_back_face() {
    let s = unit_sphere_at_origin();
    let r = Ray::new(Vec3::zero(), Vec3::new(0, 0, -SCALE));
    let rec = s.hit(&r, 1_000, 1_000_000_000_000).expect("must hit");
    assert_eq!(rec.t, 1_000_000);
    assert_eq!(rec.p, Vec3::new(0, 0, -1_000_000));
    assert!(!rec.front_face);
    assert_eq!(rec.normal, Vec3::new(0, 0, SCALE));
}

#[test]
fn missing_ray_reports_nothing() {
    let s = unit_sphere_at_origin();
    let r = Ray::new(Vec3::new(0, 5_000_000, 3_000_000), Vec3::new(0, 0, -SCALE));
    assert!(s.hit(&r, 1_000, 1_000_000_000_000).is_none());
}

#[test]
fn interval_excludes_its_ends() {
    let s = unit_sphere_at_origin();
    let r = Ray::new(Vec3::new(0, 0, 3_000_000), Vec3::new(0, 0, -SCALE));
    // The near root is exactly 2, the far root exactly 4.
    assert!(s.hit(&r, 2_000_000, 4_000_000).is_none());
    let rec = s.hit(&r, 1_999_999, 4_000_000).expect("near root inside");
    assert_eq!(rec.t, 2_000_000);
}

#[test]
fn scene_reports_the_closest_member() {
    let near = unit_sphere_at_origin();
    let far = Sphere::new(Vec3::new(0, 0, -5_000_000), SCALE, gray());
    let r = Ray::new(Vec3::new(0, 0, 3_000_000), Vec3::new(0, 0, -SCALE));

    let mut world = HittableList::new();
    world.add(far);
    world.add(near);
    let rec = world.hit(&r, 1_000, 1_000_000_000_000).expect("must hit");
    assert_eq!(rec.t, 2_000_000);

    // Insertion order does not change the reported hit.
    let near = unit_sphere_at_origin();
    let far = Sphere::new(Vec3::new(0, 0, -5_000_000), SCALE, gray());
    let mut world2 = HittableList::new();
    world2.add(near);
    world2.add(far);
    let rec2 = world2.hit(&r, 1_000, 1_000_000_000_000).expect("must hit");
    assert_eq!(rec2.t, rec.t);
    assert_eq!(rec2.p, rec.p);
}

#[test]
fn empty_scene_never_hits() {
    let world = HittableList::new();
    let r = Ray::new(Vec3::zero(), Vec3::new(0, SCALE, 0));
    assert!(world.hit(&r, 1_000, 1_000_000_000_000).is_none());
}

fn front_face_record(material: Material) -> HitRecord {
    let s = Sphere::new(Vec3::zero(), SCALE, material);
    let r = Ray::new(Vec3::new(0, 0, 3_000_000), Vec3::new(0, 0, -SCALE));
    s.hit(&r, 1_000, 1_000_000_000_000).expect("must hit")
}

#[test]
fn lambertian_always_scatters_with_its_albedo() {
    let albedo = Vec3::new(100_000, 200_000, 300_000);
    let l = Lambertian::new(&albedo);
    let rec = front_face_record(Material::Lambertian(l));
    let r_in = Ray::new(Vec3::new(0, 0, 3_000_000), Vec3::new(0, 0, -SCALE));
    let (scattered, attenuation) = l.scatter(&r_in, &rec).expect("diffuse never absorbs");
    assert_eq!(attenuation, albedo);
    assert_eq!(scattered.origin(), rec.p);
    assert!(!scattered.direction().near_zero());
}

#[test]
fn metal_without_fuzz_is_an_exact_mirror() {
    let albedo = Vec3::new(700_000, 600_000, 500_000);
    let m = Metal::new(albedo, 0);
    let rec = front_face_record(Material::Metal(m));
    // A grazing incoming direction, reflected about the axis normal.
    let r_in = Ray::new(Vec3::new(0, 0, 3_000_000), Vec3::new(600_000, 0, -800_000));
    let sample = Vec3::new(123_456, -654_321, 999_999);
    let (scattered, attenuation) =
        m.scatter_with(&r_in, &rec, sample).expect("points away from the surface");
    let mirror = Vec3::reflect(&r_in.direction().unit_vector(), &rec.normal);
    assert_eq!(scattered.direction(), mirror);
    assert_eq!(attenuation, albedo);
}

#[test]
fn metal_clamps_fuzz_into_the_unit_interval() {
    let m = Metal::new(Vec3::new(500_000, 500_000, 500_000), 3_000_000);
    assert_eq!(m.fuzziness, SCALE);
    let m2 = Metal::new(Vec3::new(500_000, 500_000, 500_000), 250_000);
    assert_eq!(m2.fuzziness, 250_000);
    let m3 = Metal::new(Vec3::new(500_000, 500_000, 500_000), -5);
    assert_eq!(m3.fuzziness, 0);
}

#[test]
fn metal_absorbs_rays_into_the_surface() {
    let m = Metal::new(Vec3::new(500_000, 500_000, 500_000), SCALE);
    let rec = front_face_record(Material::Metal(m));
    // A sphere sample pointing far into the surface overwhelms the
    // reflection, so the scatter is absorbed.
    let r_in = Ray::new(Vec3::new(0, 0, 3_000_000), Vec3::new(600_000, 0, -800_000));
    let sample = Vec3::new(0, 0, -1_000_000);
    assert!(m.scatter_with(&r_in, &rec, sample).is_none());
}

#[test]
fn dielectric_with_index_one_passes_straight_through() {
    let d = Dielectric::new(SCALE);
    let rec = front_face_record(Material::Dielectric(d));
    let r_in = Ray::new(Vec3::new(0, 0, 3_000_000), Vec3::new(0, 0, -SCALE));
    // A draw of one keeps the Schlick test on the refraction branch.
    let (scattered, attenuation) = d.scatter_with(&r_in, &rec, SCALE - 1);
    assert_eq!(attenuation, Vec3::one());
    assert_eq!(scattered.direction(), Vec3::new(0, 0, -SCALE));
    assert_eq!(scattered.origin(), rec.p);
}

#[test]
fn dielectric_reflects_totally_beyond_the_critical_angle() {
    // Leaving the medium at a grazing angle: the sine scaled by the index
    // exceeds one, so the ray must reflect whatever the draw says.
    let d = Dielectric::new(1_500_000);
    let rec = HitRecord {
        p: Vec3::zero(),
        normal: Vec3::new(0, 0, SCALE),
        material: Material::Dielectric(d),
        t: 2_000,
        front_face: false,
    };
    let r_in = Ray::new(Vec3::new(0, 0, 3_000_000), Vec3::new(800_000, 0, -600_000));
    let (scattered, attenuation) = d.scatter_with(&r_in, &rec, 0);
    assert_eq!(scattered.direction(), Vec3::new(800_000, 0, 600_000));
    assert_eq!(attenuation, Vec3::one());
}

#[test]
fn empty_scene_renders_the_sky_everywhere() {
    let world = HittableList::new();
    let cam = simple_camera();
    let spp = 2u32;
    let buffer = render(&world, &cam, 3, 2, spp, 3);
    assert_eq!(buffer.len(), 6);
    for px in &buffer {
        assert!(px.x >= (spp as i64) * 499_999);
        assert!(px.y >= (spp as i64) * 699_999);
        assert_eq!(px.z, (spp as i64) * SCALE);
    }
}

#[test]
fn dielectric_never_absorbs() {
    let d = Dielectric::new(1_500_000);
    let rec = front_face_record(Material::Dielectric(d));
    let r_in = Ray::new(Vec3::new(0, 0, 3_000_000), Vec3::new(600_000, 0, -800_000));
    let out = d.scatter(&r_in, &rec);
    let (_, attenuation) = out.expect("clear surfaces always scatter");
    assert_eq!(attenuation, Vec3::one());
}

#[test]
fn zero_depth_is_black() {
    let world = HittableList::new();
    let r = Ray::new(Vec3::zero(), Vec3::new(0, SCALE, 0));
    assert_eq!(ray_color(&r, &world, 0), Vec3::zero());
    assert_eq!(ray_color(&r, &world, -3), Vec3::zero());
    let mut scene = HittableList::new();
    scene.add(unit_sphere_at_origin());
    assert_eq!(ray_color(&r, &scene, 0), Vec3::zero());
}

#[test]
fn sky_gradient_at_the_zenith() {
    let world = HittableList::new();
    let r = Ray::new(Vec3::zero(), Vec3::new(0, SCALE, 0));
    assert_eq!(ray_color(&r, &world, 5), Vec3::new(500_000, 700_000, 1_000_000));
}

#[test]
fn sky_gradient_at_the_nadir_is_white() {
    let world = HittableList::new();
    let r = Ray::new(Vec3::zero(), Vec3::new(0, -SCALE, 0));
    assert_eq!(ray_color(&r, &world, 5), Vec3::one());
}

fn simple_camera() -> Camera {
    Camera::new(
        Vec3::zero(),
        Vec3::new(0, 0, -SCALE),
        Vec3::new(0, SCALE, 0),
        SCALE,
        SCALE,
        0,
        SCALE,
    )
}

#[test]
fn camera_center_ray_points_at_the_target() {
    let cam = simple_camera();
    let r = cam.get_ray_with(500_000, 500_000, Vec3::zero());
    assert_eq!(r.origin(), Vec3::zero());
    assert_eq!(r.direction(), Vec3::new(0, 0, -SCALE));
}

#[test]
fn camera_corner_rays_span_the_viewport() {
    let cam = simple_camera();
    let ll = cam.get_ray_with(0, 0, Vec3::zero());
    assert_eq!(ll.direction(), Vec3::new(-SCALE, -SCALE, -SCALE));
    let ur = cam.get_ray_with(SCALE, SCALE, Vec3::zero());
    assert_eq!(ur.direction(), Vec3::new(SCALE, SCALE, -SCALE));
}

#[test]
fn render_covers_every_pixel_within_range() {
    let mut world = HittableList::new();
    world.add(unit_sphere_at_origin());
    let cam = Camera::new(
        Vec3::new(0, 0, 3_000_000),
        Vec3::zero(),
        Vec3::new(0, SCALE, 0),
        SCALE,
        SCALE,
        0,
        3_000_000,
    );
    let spp = 3u32;
    let buffer = render(&world, &cam, 4, 3, spp, 4);
    assert_eq!(buffer.len(), 12);
    for px in &buffer {
        assert!(0 <= px.x && px.x <= (spp as i64) * SCALE);
        assert!(0 <= px.y && px.y <= (spp as i64) * SCALE);
        assert!(0 <= px.z && px.z <= (spp as i64) * SCALE);
    }
    let single = render_pixel(&world, &cam, 0, 0, 4, 3, 1, 4);
    assert!(0 <= single.x && single.x <= SCALE);
}

#[test]
fn rgb8_conversion_averages_gammas_and_clamps() {
    let px = Vec3::new(4_000_000, 0, 1_000_000);
    let (r, g, b) = color_to_rgb8(&px, 4);
    // Mean one clamps at 0.999 and quantizes to 255; a quarter has square
    // root one half, giving 128.
    assert_eq!(r, 255);
    assert_eq!(g, 0);
    assert_eq!(b, 128);
}

#[test]
fn averaging_identical_samples_is_invariant_to_their_count() {
    let c = Vec3::new(123_456, 654_321, 999_999);
    let once = color_to_rgb8(&c, 1);
    for n in [2u32, 3, 7, 100] {
        let summed = Vec3::new(
            c.x * (n as i64),
            c.y * (n as i64),
            c.z * (n as i64),
        );
        assert_eq!(color_to_rgb8(&summed, n), once);
    }
}

#[test]
fn attenuation_shrinks_every_bounce() {
    // A closed diffuse scene: the color after several bounces stays in
    // the unit range.
    let mut world = HittableList::new();
    world.add(Sphere::new(Vec3::zero(), 2_000_000_000, gray()));
    let r = Ray::new(Vec3::zero(), Vec3::new(0, SCALE, 0));
    let c = ray_color(&r, &world, 8);
    assert!(0 <= c.x && c.x <= SCALE);
    assert!(0 <= c.y && c.y <= SCALE);
    assert!(0 <= c.z && c.z <= SCALE);
}
