use raytrace::camera::Camera;
use raytrace::color::Color;
use raytrace::dielectric::Dielectric;
use raytrace::hittable::{HitRecord, Hittable};
use raytrace::hittable_list::HittableList;
use raytrace::lambertian::Lambertian;
use raytrace::material::{Material, MaterialKind};
use raytrace::metal::Metal;
use raytrace::point3::Point3;
use raytrace::ray::Ray;
use raytrace::render::{
    average_samples, gamma_correct, ray_background_color, ray_color, T_ACNE, T_FAR,
};
use raytrace::sphere::Sphere;
use raytrace::vec3::Vec3;

/// Fixed-point value of `v`: the largest grid point not above it.
fn fx(v: f64) -> i128 {
    (v * 65536.0).floor() as i128
}

fn gray() -> MaterialKind {
    MaterialKind::Lambertian(Lambertian::new(Color::new(fx(0.5), fx(0.5), fx(0.5))))
}

/// A hit record for a head-on contact with the small demo sphere.
fn head_on_record() -> HitRecord {
    let mut record = HitRecord::new();
    record.point = Point3::new(0, 0, fx(-0.5));
    record.normal = Vec3::new(0, 0, fx(1.0));
    record.t = fx(0.5);
    record.is_front_face = true;
    record
}

#[test]
fn test_sphere_hit_distance_matches_radius() {
    // A ray from the origin straight into a sphere of radius 0.5 at
    // (0, 0, -1) meets it at t = 0.5, and the contact point lies at
    // exactly the radius from the center
    let sphere = Sphere::new(Point3::new(0, 0, fx(-1.)), fx(0.5), gray());
    let ray = Ray::new(Point3::new(0, 0, 0), Vec3::new(0, 0, fx(-1.)));
    let mut record = HitRecord::new();

    assert!(sphere.hit(ray, T_ACNE, T_FAR, &mut record));
    assert_eq!(record.t, fx(0.5));
    assert_eq!(record.point, Point3::new(0, 0, fx(-0.5)));
    let offset = record.point.sub(sphere.center);
    assert_eq!(offset.len(), fx(0.5));
}

#[test]
fn test_hit_normal_faces_incoming_ray_from_outside() {
    let sphere = Sphere::new(Point3::new(0, 0, fx(-1.)), fx(0.5), gray());
    let ray = Ray::new(Point3::new(0, 0, 0), Vec3::new(0, 0, fx(-1.)));
    let mut record = HitRecord::new();

    assert!(sphere.hit(ray, T_ACNE, T_FAR, &mut record));
    assert!(record.is_front_face);
    assert!(ray.direction.dot(record.normal) < 0);
    assert_eq!(record.normal, Vec3::new(0, 0, fx(1.)));
}

#[test]
fn test_hit_normal_faces_incoming_ray_from_inside() {
    // The ray starts at the sphere's center, so it meets the shell from
    // inside: a back-face hit whose stored normal still opposes the ray
    let sphere = Sphere::new(Point3::new(0, 0, fx(-1.)), fx(0.5), gray());
    let ray = Ray::new(Point3::new(0, 0, fx(-1.)), Vec3::new(0, 0, fx(-1.)));
    let mut record = HitRecord::new();

    assert!(sphere.hit(ray, T_ACNE, T_FAR, &mut record));
    assert!(!record.is_front_face);
    assert!(ray.direction.dot(record.normal) < 0);
    assert_eq!(record.normal, Vec3::new(0, 0, fx(1.)));
}

#[test]
fn test_nearest_hit_wins_regardless_of_order() {
    // Two spheres along one ray: whichever order the scene holds them in,
    // the traversal reports the nearer one
    let near_material = MaterialKind::Lambertian(Lambertian::new(Color::new(
        fx(0.1),
        fx(0.2),
        fx(0.5),
    )));
    let far_material = MaterialKind::Lambertian(Lambertian::new(Color::new(
        fx(0.8),
        fx(0.8),
        fx(0.0),
    )));
    let near = Sphere::new(Point3::new(0, 0, fx(-1.)), fx(0.5), near_material);
    let far = Sphere::new(Point3::new(0, 0, fx(-3.)), fx(0.5), far_material);
    let ray = Ray::new(Point3::new(0, 0, 0), Vec3::new(0, 0, fx(-1.)));

    let mut forward = HittableList::new();
    forward.add(near);
    forward.add(far);
    let mut reversed = HittableList::new();
    reversed.add(far);
    reversed.add(near);

    let mut record_forward = HitRecord::new();
    let mut record_reversed = HitRecord::new();
    assert!(forward.hit(ray, T_ACNE, T_FAR, &mut record_forward));
    assert!(reversed.hit(ray, T_ACNE, T_FAR, &mut record_reversed));

    assert_eq!(record_forward.t, fx(0.5));
    assert_eq!(record_reversed.t, fx(0.5));
    assert_eq!(record_forward.material, near_material);
    assert_eq!(record_reversed.material, near_material);
}

#[test]
fn test_scene_list_management() {
    let mut world = HittableList::new();
    assert_eq!(world.objects.len(), 0);
    world.add(Sphere::new(Point3::new(0, 0, fx(-1.)), fx(0.5), gray()));
    assert_eq!(world.objects.len(), 1);
    world.clear();
    assert_eq!(world.objects.len(), 0);
}

#[test]
fn test_lambertian_degenerate_scatter_substitutes_normal() {
    // The sampled unit vector is the exact negation of the normal: the
    // summed direction degenerates to zero and the normal is used instead
    let material = Lambertian::new(Color::new(fx(0.5), fx(0.5), fx(0.5)));
    let record = head_on_record();
    let sample = Vec3::new(0, 0, fx(-1.0));
    let mut attenuation = Color::new(0, 0, 0);
    let mut scattered = Ray::nowhere();

    assert!(material.scatter_sampled(&record, sample, &mut attenuation, &mut scattered));
    assert!(!scattered.direction.is_near_zero());
    assert_eq!(scattered.direction, record.normal);
    assert_eq!(scattered.origin, record.point);
    assert_eq!(attenuation, Color::new(fx(0.5), fx(0.5), fx(0.5)));
}

#[test]
fn test_metal_zero_fuzz_reflects_exactly() {
    // Fuzz 0 on a head-on hit: the outgoing direction is exactly the
    // mirror reflection of the incoming direction, whatever was sampled
    let material = Metal::new(Color::new(fx(0.8), fx(0.6), fx(0.2)), 0);
    let record = head_on_record();
    let ray_in = Ray::new(Point3::new(0, 0, 0), Vec3::new(0, 0, fx(-1.)));
    let sample = Vec3::new(fx(0.3), fx(-0.2), fx(0.1));
    let mut attenuation = Color::new(0, 0, 0);
    let mut scattered = Ray::nowhere();

    let did = material.scatter_sampled(ray_in, &record, sample, &mut attenuation, &mut scattered);
    assert!(did);
    assert_eq!(scattered.direction, Vec3::new(0, 0, fx(1.)));
}

#[test]
fn test_metal_absorbs_when_reflection_stays_inside() {
    // A fuzzed reflection driven back into the surface is reported as
    // absorbed
    let material = Metal::new(Color::new(fx(0.8), fx(0.6), fx(0.2)), fx(1.0));
    let mut record = head_on_record();
    record.normal = Vec3::new(0, 0, fx(-1.0));
    record.is_front_face = false;
    let ray_in = Ray::new(Point3::new(0, 0, 0), Vec3::new(0, 0, fx(-1.)));
    let sample = Vec3::new(0, 0, 0);
    let mut attenuation = Color::new(0, 0, 0);
    let mut scattered = Ray::nowhere();

    let did = material.scatter_sampled(ray_in, &record, sample, &mut attenuation, &mut scattered);
    assert!(!did);
}

#[test]
fn test_dielectric_unity_index_passes_straight_through() {
    // Index 1.0, head on: no total internal reflection, no Fresnel
    // reflection (the reflectance is exactly zero), and the refracted
    // direction equals the incoming one
    let material = Dielectric::new(fx(1.0));
    let record = head_on_record();
    let ray_in = Ray::new(Point3::new(0, 0, 0), Vec3::new(0, 0, fx(-1.)));
    let mut attenuation = Color::new(0, 0, 0);
    let mut scattered = Ray::nowhere();

    // whatever the reflectance draw, the ray passes unchanged
    for chance in [0, fx(0.5), 65535] {
        let did = material.scatter_sampled(
            ray_in,
            &record,
            chance,
            &mut attenuation,
            &mut scattered,
        );
        assert!(did);
        assert_eq!(scattered.direction, ray_in.direction);
        assert_eq!(attenuation, Color::new(fx(1.), fx(1.), fx(1.)));
    }
}

#[test]
fn test_ray_color_depth_zero_is_black() {
    let mut world = HittableList::new();
    world.add(Sphere::new(Point3::new(0, 0, fx(-1.)), fx(0.5), gray()));
    let ray = Ray::new(Point3::new(0, 0, 0), Vec3::new(0, 0, fx(-1.)));

    let color = ray_color(ray, &world, 0);
    assert_eq!(color, Color::new(0, 0, 0));

    let empty = HittableList::new();
    let color_empty = ray_color(ray, &empty, 0);
    assert_eq!(color_empty, Color::new(0, 0, 0));
}

#[test]
fn test_ray_color_miss_returns_background() {
    let mut world = HittableList::new();
    world.add(Sphere::new(Point3::new(0, 0, fx(-1.)), fx(0.5), gray()));
    // straight up +z: away from every primitive; the level background mix
    // of white and sky blue comes back
    let ray = Ray::new(Point3::new(0, 0, 0), Vec3::new(0, 0, fx(1.)));

    let color = ray_color(ray, &world, 10);
    assert_eq!(color, ray_background_color(ray));
    assert_eq!(color, Color::new(49152, 55705, 65536));
}

#[test]
fn test_center_ray_hits_demo_sphere() {
    // The two-sphere demo scene, a camera at the origin looking down -z
    // with a closed aperture: the ray through the image center reports a
    // front-face hit on the small sphere at t = 0.5
    let mut world = HittableList::new();
    world.add(Sphere::new(Point3::new(0, 0, fx(-1.)), fx(0.5), gray()));
    world.add(Sphere::new(Point3::new(0, fx(-100.5), fx(-1.)), fx(100.), gray()));

    let camera = Camera::new(
        Point3::new(0, 0, 0),
        Point3::new(0, 0, fx(-1.)),
        Vec3::new(0, fx(1.), 0),
        fx(1.0),
        fx(1.0),
        0,
        fx(1.0),
    );
    let ray = camera.get_ray(fx(0.5), fx(0.5));
    assert_eq!(ray.origin, Point3::new(0, 0, 0));
    assert_eq!(ray.direction, Vec3::new(0, 0, fx(-1.)));

    let mut record = HitRecord::new();
    assert!(world.hit(ray, T_ACNE, T_FAR, &mut record));
    assert!(record.is_front_face);
    assert_eq!(record.t, fx(0.5));
}

#[test]
fn test_lambertian_scatter_never_degenerates() {
    // Whatever unit vector the generator hands the diffuse material, the
    // scattered direction is never zero off a usable normal
    let record = head_on_record();
    let material = gray();
    let ray_in = Ray::new(Point3::new(0, 0, 0), Vec3::new(0, 0, fx(-1.)));
    for _ in 0..64 {
        let mut attenuation = Color::new(0, 0, 0);
        let mut scattered = Ray::nowhere();
        let did = material.scatter(ray_in, &record, &mut attenuation, &mut scattered);
        assert!(did);
        assert!(!scattered.direction.is_near_zero());
        assert_eq!(scattered.origin, record.point);
        assert_eq!(attenuation, Color::new(fx(0.5), fx(0.5), fx(0.5)));
    }
}

#[test]
fn test_scatter_through_material_trait() {
    let record = head_on_record();
    let material = Lambertian::new(Color::new(fx(0.7), fx(0.3), fx(0.3)));
    let ray_in = Ray::new(Point3::new(0, 0, 0), Vec3::new(0, 0, fx(-1.)));
    let mut attenuation = Color::new(0, 0, 0);
    let mut scattered = Ray::nowhere();

    let did = Material::scatter(&material, ray_in, &record, &mut attenuation, &mut scattered);
    assert!(did);
    assert_eq!(attenuation, Color::new(fx(0.7), fx(0.3), fx(0.3)));
}

#[test]
fn test_hit_through_hittable_trait() {
    let sphere = Sphere::new(Point3::new(0, 0, fx(-1.)), fx(0.5), gray());
    let ray = Ray::new(Point3::new(0, 0, 0), Vec3::new(0, 0, fx(-1.)));
    let mut record = HitRecord::new();

    assert!(Hittable::hit(&sphere, ray, T_ACNE, T_FAR, &mut record));
    assert_eq!(record.t, fx(0.5));
}

#[test]
fn test_random_samples_stay_in_their_domains() {
    // The sampling helpers draw from the thread generator; whatever comes
    // out must lie in the advertised region
    for _ in 0..64 {
        let p = Vec3::random_in_unit_sphere();
        assert!(p.len_squared() < fx(1.0));
        let d = Vec3::random_in_unit_disk();
        assert!(d.len_squared() < fx(1.0));
        assert_eq!(d.z, 0);
        let u = Vec3::random_unit_vector();
        assert!(u.x.abs() <= 2 * 65536 && u.y.abs() <= 2 * 65536 && u.z.abs() <= 2 * 65536);
    }
}

#[test]
fn test_render_produces_image_of_requested_shape() {
    let mut world = HittableList::new();
    world.add(Sphere::new(Point3::new(0, 0, fx(-1.)), fx(0.5), gray()));
    world.add(Sphere::new(Point3::new(0, fx(-100.5), fx(-1.)), fx(100.), gray()));
    let camera = Camera::new(
        Point3::new(0, 0, 0),
        Point3::new(0, 0, fx(-1.)),
        Vec3::new(0, fx(1.), 0),
        fx(1.0),
        fx(1.0),
        0,
        fx(1.0),
    );

    let image = raytrace::render::render(&world, &camera, 4, 3, 2, 4);

    assert_eq!(image.len(), 3);
    for row in &image {
        assert_eq!(row.len(), 4);
        for pixel in row {
            for i in 0..3u8 {
                let channel = pixel.index(i);
                assert!(0 <= channel && channel <= 65536);
            }
        }
    }
}

#[test]
fn test_gamma_of_identical_samples_is_gamma_of_one() {
    // Four identical quarter-gray samples: the mean is the sample and the
    // gamma-corrected pixel is its square root, one half
    let sample = Color::new(fx(0.25), fx(0.25), fx(0.25));
    let mut sum = Color::new(0, 0, 0);
    for _ in 0..4 {
        sum.add_assign(sample);
    }
    let mean = average_samples(sum, 4);
    assert_eq!(mean, sample);
    assert_eq!(gamma_correct(mean), gamma_correct(sample));
    assert_eq!(gamma_correct(mean), Color::new(fx(0.5), fx(0.5), fx(0.5)));
}
