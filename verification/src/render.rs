//! The light-transport estimator and the per-pixel sampling loop.

use vstd::prelude::*;

use crate::camera::Camera;
use crate::color::{is_colorv, Color};
use crate::fx::{fmul, fquot, fsqrt, fx_div, fx_sqrt, lemma_div_floor_bound, SCALE};
use crate::hittable::{HitRecord, T_LIMIT};
use crate::hittable_list::{is_nearest_hit_t, record_matches, some_hit, HittableList};
use crate::material::scatter_spec;
use crate::ray::{Ray, RAY_DIR_LIMIT};
use crate::sphere::Sphere;
use crate::vec3::{lemma_unitv_in_range, Vec3, V3};

verus! {

/// Lower end of the searched distance range: slightly above zero, so a
/// scattered ray cannot immediately re-intersect its own origin through
/// rounding (shadow acne). One part in a thousand, on the grid.
pub const T_ACNE: i128 = 66;

/// Upper end of the searched distance range; stands in for infinity, and
/// reaches far beyond the supported scene volume.
pub const T_FAR: i128 = T_LIMIT;

/// The vertical background gradient: a lerp from white at the bottom to sky
/// blue at the top, driven by the normalized direction's y component,
/// remapped from [-1, 1] to [0, 1]. The y component is clamped into [-1, 1]
/// first: normalization on the grid can overshoot a unit by a rounding step.
pub open spec fn background_spec(ray: Ray) -> V3 {
    let uy = ray.direction@.unitv().y;
    let yc = if uy < -(SCALE as int) {
        -(SCALE as int)
    } else if uy > SCALE as int {
        SCALE as int
    } else {
        uy
    };
    let t = fmul(32768, yc + SCALE as int);
    (V3 { x: SCALE as int, y: SCALE as int, z: SCALE as int }).smul((SCALE as int) - t).plus(
        (V3 { x: 32768, y: 45875, z: SCALE as int }).smul(t),
    )
}

/// One channel of a lerp between 1 and a channel value `c`, with weight `t`,
/// stays a channel value.
proof fn lemma_lerp_channel(t: int, c: int)
    requires
        0 <= t <= SCALE as int,
        0 <= c <= SCALE as int,
    ensures
        0 <= fmul((SCALE as int) - t, SCALE as int) + fmul(t, c) <= SCALE as int,
        fmul((SCALE as int) - t, SCALE as int) == (SCALE as int) - t,
{
    vstd::arithmetic::div_mod::lemma_div_multiples_vanish((SCALE as int) - t, SCALE as int);
    assert(0 <= t * c <= t * (SCALE as int)) by (nonlinear_arith)
        requires
            0 <= t,
            0 <= c <= SCALE as int;
    vstd::arithmetic::div_mod::lemma_div_pos_is_pos(t * c, SCALE as int);
    vstd::arithmetic::div_mod::lemma_div_is_ordered(t * c, t * (SCALE as int), SCALE as int);
    vstd::arithmetic::div_mod::lemma_div_multiples_vanish(t, SCALE as int);
}

/// The background gradient is a color.
pub proof fn lemma_background_is_color(ray: Ray)
    ensures
        is_colorv(background_spec(ray)),
{
    let uy = ray.direction@.unitv().y;
    let yc = if uy < -(SCALE as int) {
        -(SCALE as int)
    } else if uy > SCALE as int {
        SCALE as int
    } else {
        uy
    };
    let t = fmul(32768, yc + SCALE as int);
    assert(0 <= t <= SCALE as int) by {
        lemma_div_floor_bound(32768 * (yc + SCALE as int), 0x100000000, SCALE as int);
        vstd::arithmetic::div_mod::lemma_div_pos_is_pos(
            32768 * (yc + SCALE as int),
            SCALE as int,
        );
    }
    lemma_lerp_channel(t, 32768);
    lemma_lerp_channel(t, 45875);
    lemma_lerp_channel(t, SCALE as int);
}

/// The background gradient, executable form.
pub fn ray_background_color(ray: Ray) -> (c: Color)
    requires
        ray.direction@.in_range(RAY_DIR_LIMIT as int),
    ensures
        c@ == background_spec(ray),
        is_colorv(c@),
{
    proof {
        lemma_unitv_in_range(ray.direction@);
        lemma_background_is_color(ray);
    }
    let unit_direction = ray.direction.unit_vector();
    let uy = unit_direction.y;
    let yc = if uy < -SCALE {
        -SCALE
    } else if uy > SCALE {
        SCALE
    } else {
        uy
    };
    let t = crate::fx::fx_mul(32768, yc + SCALE);
    let white = Color::new(SCALE, SCALE, SCALE);
    let blue = Color::new(32768, 45875, SCALE);
    white.mul_scalar(SCALE - t).add(blue.mul_scalar(t))
}

/// A decorative alternative background: x and y of the normalized direction
/// rescaled from [-1, 1] to [0, 1] drive the red and green channels.
pub fn ray_background_color_rainbow(ray: Ray) -> (c: Color)
    requires
        ray.direction@.in_range(RAY_DIR_LIMIT as int),
    ensures
        c@ == (V3 {
            x: crate::fx::fquot(ray.direction@.unitv().y, 2 * (SCALE as int)) + 32768,
            y: 32768 - crate::fx::fquot(ray.direction@.unitv().x, 2 * (SCALE as int)),
            z: 16384,
        }),
{
    proof {
        lemma_unitv_in_range(ray.direction@);
        crate::fx::lemma_fdiv_abs_bound(
            ray.direction@.unitv().y * (SCALE as int),
            2 * (SCALE as int),
            0x200000000,
        );
        crate::fx::lemma_fdiv_abs_bound(
            ray.direction@.unitv().x * (SCALE as int),
            2 * (SCALE as int),
            0x200000000,
        );
    }
    let unit_direction = ray.direction.unit_vector();
    Color::new(
        fx_div(unit_direction.y, 2 * SCALE) + 32768,
        32768 - fx_div(unit_direction.x, 2 * SCALE),
        16384,
    )
}

/// The non-recursive frame of one bounce behind an estimate `c`: `rec` is a
/// record the traversal could have produced (a nearest accepted hit of some
/// primitive), `did`, `att` and `s` a scatter outcome of its material, and
/// on a scatter the estimate composes the attenuation with the color `b` of
/// the scattered ray; an absorbed ray is black.
pub open spec fn bounce_frame(
    objs: Seq<Sphere>,
    ray: Ray,
    c: V3,
    rec: HitRecord,
    did: bool,
    att: V3,
    s: Ray,
    b: V3,
) -> bool {
    &&& rec.wf()
    &&& is_nearest_hit_t(objs, ray, T_ACNE as int, T_FAR as int, rec.t as int)
    &&& exists|j: int|
        0 <= j < objs.len() && record_matches(#[trigger] objs[j], ray, rec.t as int, rec)
            && objs[j].hit_spec(ray, T_ACNE as int, T_FAR as int) == Some(rec.t as int)
    &&& s.origin@ == rec.point@
    &&& s.wf()
    &&& is_colorv(att)
    &&& scatter_spec(rec.material, ray, rec, did, att, s.direction@)
    &&& did ==> is_colorv(b) && c == att.cmul(b)
    &&& !did ==> c == V3::zero()
}

/// Some admissible bounce stands behind the estimate `c`, its bounced color
/// itself admissible one level deeper.
pub open spec fn bounce_admissible(objs: Seq<Sphere>, ray: Ray, depth: int, c: V3) -> bool
    decreases depth, 1int,
{
    exists|rec: HitRecord, did: bool, att: V3, s: Ray, b: V3|
        #[trigger] bounce_frame(objs, ray, c, rec, did, att, s, b) && (did && depth > 0
            ==> ray_color_rel(objs, s, depth - 1, b))
}

/// What the color estimator may return: black once the bounce budget is
/// spent; the background gradient on a miss; and otherwise the attenuation
/// of some scatter outcome of the nearest hit's material, composed with an
/// admissible color of the scattered ray (black when the scatter is
/// rejected). This is the integrator's state machine, with the random
/// draws existentially quantified.
pub open spec fn ray_color_rel(objs: Seq<Sphere>, ray: Ray, depth: int, c: V3) -> bool
    decreases depth, 2int,
{
    if depth <= 0 {
        c == V3::zero()
    } else if !some_hit(objs, ray, T_ACNE as int, T_FAR as int) {
        c == background_spec(ray)
    } else {
        bounce_admissible(objs, ray, depth, c)
    }
}

/// The recursive color estimator: black once the bounce budget is spent,
/// the background on a miss, and otherwise the scattering material's
/// attenuation composed with the color of the scattered ray; an absorbed
/// ray is black.
pub fn ray_color(ray: Ray, world: &HittableList, depth: i64) -> (c: Color)
    requires
        world.wf(),
        ray.wf(),
    ensures
        is_colorv(c@),
        depth <= 0 ==> c@ == V3::zero(),
        depth > 0 && !some_hit(world.objects@, ray, T_ACNE as int, T_FAR as int) ==> c@
            == background_spec(ray),
        ray_color_rel(world.objects@, ray, depth as int, c@),
    decreases depth,
{
    let mut record = HitRecord::new();

    if depth <= 0 {
        return Color::new(0, 0, 0);
    }

    if world.hit(ray, T_ACNE, T_FAR, &mut record) {
        let mut scattered = Ray::nowhere();
        let mut attenuation = Color::new(0, 0, 0);
        if record.material.scatter(ray, &record, &mut attenuation, &mut scattered) {
            let bounced = ray_color(scattered, world, depth - 1);
            proof {
                crate::color::lemma_cmul_is_color(attenuation@, bounced@);
            }
            let composed = attenuation.mul_vec(bounced);
            proof {
                assert(bounce_frame(
                    world.objects@,
                    ray,
                    composed@,
                    record,
                    true,
                    attenuation@,
                    scattered,
                    bounced@,
                ));
                assert(bounce_admissible(world.objects@, ray, depth as int, composed@));
            }
            composed
        } else {
            proof {
                assert(bounce_frame(
                    world.objects@,
                    ray,
                    V3::zero(),
                    record,
                    false,
                    attenuation@,
                    scattered,
                    V3::zero(),
                ));
                assert(bounce_admissible(world.objects@, ray, depth as int, V3::zero()));
            }
            Color::new(0, 0, 0)
        }
    } else {
        ray_background_color(ray)
    }
}

/// The Monte Carlo mean of accumulated samples: each channel of the sum
/// divided by the sample count.
pub open spec fn average_spec(sum: V3, n: int) -> V3 {
    V3 { x: sum.x / n, y: sum.y / n, z: sum.z / n }
}

/// Gamma-2 correction: the square root of each channel.
pub open spec fn gamma_spec(v: V3) -> V3 {
    V3 { x: fsqrt(v.x), y: fsqrt(v.y), z: fsqrt(v.z) }
}

/// Divide an accumulated color by the sample count.
pub fn average_samples(sum: Color, n: u32) -> (avg: Color)
    requires
        n >= 1,
        sum@.in_range(0x100000000000),
        sum@.x >= 0,
        sum@.y >= 0,
        sum@.z >= 0,
    ensures
        avg@ == average_spec(sum@, n as int),
{
    let d = n as i128;
    Vec3 { x: sum.x / d, y: sum.y / d, z: sum.z / d }
}

/// Gamma-correct an averaged color; channels enter in [0, 1] and leave in
/// [0, 1].
pub fn gamma_correct(c: Color) -> (g: Color)
    requires
        is_colorv(c@),
    ensures
        g@ == gamma_spec(c@),
        is_colorv(g@),
{
    proof {
        lemma_gamma_channel(c@.x);
        lemma_gamma_channel(c@.y);
        lemma_gamma_channel(c@.z);
    }
    Vec3 { x: fx_sqrt(c.x), y: fx_sqrt(c.y), z: fx_sqrt(c.z) }
}

/// The square root of a channel in [0, 1] is a channel in [0, 1].
proof fn lemma_gamma_channel(c: int)
    requires
        0 <= c <= SCALE as int,
    ensures
        0 <= fsqrt(c) <= SCALE as int,
{
    crate::fx::lemma_sqrt_floor_bounds(c * (SCALE as int));
    let s = fsqrt(c);
    assert(s <= SCALE as int) by (nonlinear_arith)
        requires
            s >= 0,
            s * s <= c * (SCALE as int),
            c * (SCALE as int) <= 0x100000000;
}

/// Averaging any number of identical samples returns the sample itself, so
/// the gamma-corrected pixel of a constant sample set equals the gamma of
/// the one sample.
pub proof fn lemma_average_of_identical_samples(c: V3, n: int)
    requires
        n >= 1,
    ensures
        average_spec(V3 { x: n * c.x, y: n * c.y, z: n * c.z }, n) == c,
        gamma_spec(average_spec(V3 { x: n * c.x, y: n * c.y, z: n * c.z }, n)) == gamma_spec(c),
{
    vstd::arithmetic::div_mod::lemma_div_multiples_vanish(c.x, n);
    vstd::arithmetic::div_mod::lemma_div_multiples_vanish(c.y, n);
    vstd::arithmetic::div_mod::lemma_div_multiples_vanish(c.z, n);
}

/// A camera ray for pixel (x, y) of a w-by-h image: both normalized
/// coordinates carry a jitter of less than one pixel before division by the
/// extents, and the ray is one the camera can produce for them.
pub open spec fn pixel_ray_spec(cam: Camera, x: int, y: int, w: int, h: int, r: Ray) -> bool {
    exists|fu: int, fv: int|
        0 <= fu < SCALE as int && 0 <= fv < SCALE as int && #[trigger] cam.ray_from_spec(
            fquot(x * (SCALE as int) + fu, (w - 1) * (SCALE as int)),
            fquot(y * (SCALE as int) + fv, (h - 1) * (SCALE as int)),
            r,
        )
}

/// An admissible estimate for one sample of pixel (x, y): the estimator's
/// relation, for some camera ray of that pixel.
pub open spec fn sample_admissible(
    objs: Seq<Sphere>,
    cam: Camera,
    x: int,
    y: int,
    w: int,
    h: int,
    depth: int,
    c: V3,
) -> bool {
    exists|r: Ray|
        (#[trigger] pixel_ray_spec(cam, x, y, w, h, r)) && ray_color_rel(objs, r, depth, c)
}

/// The componentwise sum of a set of sample colors.
pub open spec fn color_sum(samples: Seq<V3>) -> V3
    decreases samples.len(),
{
    if samples.len() == 0 {
        V3::zero()
    } else {
        color_sum(samples.drop_last()).plus(samples.last())
    }
}

/// A full set of admissible samples for pixel (x, y), whose gamma-corrected
/// Monte Carlo mean is the pixel `p`.
pub open spec fn sample_set_admissible(
    objs: Seq<Sphere>,
    cam: Camera,
    x: int,
    y: int,
    w: int,
    h: int,
    spp: int,
    depth: int,
    samples: Seq<V3>,
    p: V3,
) -> bool {
    &&& samples.len() == spp
    &&& forall|k: int|
        0 <= k < samples.len() ==> is_colorv(#[trigger] samples[k]) && sample_admissible(
            objs,
            cam,
            x,
            y,
            w,
            h,
            depth,
            samples[k],
        )
    &&& p == gamma_spec(average_spec(color_sum(samples), spp))
}

/// What a finished pixel may be: the gamma-corrected mean of some full set
/// of per-ray estimates for (x, y), each tied to a jittered camera ray of
/// that pixel and to the estimator's relation for that ray.
pub open spec fn pixel_spec(
    objs: Seq<Sphere>,
    cam: Camera,
    x: int,
    y: int,
    w: int,
    h: int,
    spp: int,
    depth: int,
    p: V3,
) -> bool {
    exists|samples: Seq<V3>|
        #[trigger] sample_set_admissible(objs, cam, x, y, w, h, spp, depth, samples, p)
}

/// Render the scene: for every pixel, rows top to bottom, draw jittered
/// camera rays, average their estimates, and gamma-correct the mean. Row 0
/// of the result is the top of the image.
pub fn render(
    world: &HittableList,
    camera: &Camera,
    image_width: u16,
    image_height: u16,
    samples_per_pixel: u32,
    max_depth: i64,
) -> (image: Vec<Vec<Color>>)
    requires
        world.wf(),
        camera.wf(),
        image_width >= 2,
        image_height >= 2,
        1 <= samples_per_pixel <= 0x10000,
    ensures
        image@.len() == image_height,
        forall|r: int|
            0 <= r < image@.len() ==> (#[trigger] image@[r])@.len() == image_width,
        forall|r: int, c: int|
            0 <= r < image@.len() && 0 <= c < image@[r]@.len() ==> is_colorv(
                (#[trigger] image@[r]@[c])@,
            ),
        forall|r: int, c: int|
            0 <= r < image@.len() && 0 <= c < image@[r]@.len() ==> pixel_spec(
                world.objects@,
                *camera,
                c,
                image_height - 1 - r,
                image_width as int,
                image_height as int,
                samples_per_pixel as int,
                max_depth as int,
                (#[trigger] image@[r]@[c])@,
            ),
{
    let mut image: Vec<Vec<Color>> = Vec::new();
    let mut row: u16 = 0;
    while row < image_height
        invariant
            world.wf(),
            camera.wf(),
            image_width >= 2,
            image_height >= 2,
            1 <= samples_per_pixel <= 0x10000,
            row <= image_height,
            image@.len() == row,
            forall|r: int|
                0 <= r < image@.len() ==> (#[trigger] image@[r])@.len() == image_width,
            forall|r: int, c: int|
                0 <= r < image@.len() && 0 <= c < image@[r]@.len() ==> is_colorv(
                    (#[trigger] image@[r]@[c])@,
                ),
            forall|r: int, c: int|
                0 <= r < image@.len() && 0 <= c < image@[r]@.len() ==> pixel_spec(
                    world.objects@,
                    *camera,
                    c,
                    image_height - 1 - r,
                    image_width as int,
                    image_height as int,
                    samples_per_pixel as int,
                    max_depth as int,
                    (#[trigger] image@[r]@[c])@,
                ),
        decreases image_height - row,
    {
        let y = image_height - 1 - row;
        let mut line: Vec<Color> = Vec::new();
        let mut x: u16 = 0;
        while x < image_width
            invariant
                world.wf(),
                camera.wf(),
                image_width >= 2,
                image_height >= 2,
                1 <= samples_per_pixel <= 0x10000,
                x <= image_width,
                y < image_height,
                row < image_height,
                y as int == image_height as int - 1 - row as int,
                image@.len() == row,
                line@.len() == x,
                forall|c: int| 0 <= c < line@.len() ==> is_colorv((#[trigger] line@[c])@),
                forall|c: int|
                    0 <= c < line@.len() ==> pixel_spec(
                        world.objects@,
                        *camera,
                        c,
                        y as int,
                        image_width as int,
                        image_height as int,
                        samples_per_pixel as int,
                        max_depth as int,
                        (#[trigger] line@[c])@,
                    ),
            decreases image_width - x,
        {
            let pixel = sample_pixel(
                world,
                camera,
                x,
                y,
                image_width,
                image_height,
                samples_per_pixel,
                max_depth,
            );
            line.push(pixel);
            x = x + 1;
        }
        image.push(line);
        row = row + 1;
    }
    image
}

/// Estimate one pixel: accumulate jittered samples, take their mean, and
/// gamma-correct it.
pub fn sample_pixel(
    world: &HittableList,
    camera: &Camera,
    x: u16,
    y: u16,
    image_width: u16,
    image_height: u16,
    samples_per_pixel: u32,
    max_depth: i64,
) -> (pixel: Color)
    requires
        world.wf(),
        camera.wf(),
        image_width >= 2,
        image_height >= 2,
        x < image_width,
        y < image_height,
        1 <= samples_per_pixel <= 0x10000,
    ensures
        is_colorv(pixel@),
        pixel_spec(
            world.objects@,
            *camera,
            x as int,
            y as int,
            image_width as int,
            image_height as int,
            samples_per_pixel as int,
            max_depth as int,
            pixel@,
        ),
{
    let mut sum = Color::new(0, 0, 0);
    let ghost mut samples: Seq<V3> = Seq::empty();
    let mut s: u32 = 0;
    while s < samples_per_pixel
        invariant
            world.wf(),
            camera.wf(),
            image_width >= 2,
            image_height >= 2,
            1 <= samples_per_pixel <= 0x10000,
            s <= samples_per_pixel,
            x < image_width,
            y < image_height,
            sum@.in_range(s as int * (SCALE as int)),
            sum@.x >= 0,
            sum@.y >= 0,
            sum@.z >= 0,
            samples.len() == s as int,
            sum@ == color_sum(samples),
            forall|k: int|
                0 <= k < samples.len() ==> is_colorv(#[trigger] samples[k]) && sample_admissible(
                    world.objects@,
                    *camera,
                    x as int,
                    y as int,
                    image_width as int,
                    image_height as int,
                    max_depth as int,
                    samples[k],
                ),
        decreases samples_per_pixel - s,
    {
        let fu = crate::rng::random_fraction();
        let fv = crate::rng::random_fraction();
        let u = fx_div((x as i128) * SCALE + fu, ((image_width - 1) as i128) * SCALE);
        let v = fx_div((y as i128) * SCALE + fv, ((image_height - 1) as i128) * SCALE);
        proof {
            lemma_jitter_coordinate(x as int, fu as int, image_width as int);
            lemma_jitter_coordinate(y as int, fv as int, image_height as int);
        }
        let ray = camera.get_ray(u, v);
        let sample = ray_color(ray, world, max_depth);
        proof {
            assert(pixel_ray_spec(
                *camera,
                x as int,
                y as int,
                image_width as int,
                image_height as int,
                ray,
            ));
            assert(sample_admissible(
                world.objects@,
                *camera,
                x as int,
                y as int,
                image_width as int,
                image_height as int,
                max_depth as int,
                sample@,
            ));
            assert(s as int * (SCALE as int) + SCALE as int == (s as int + 1) * (
            SCALE as int)) by (nonlinear_arith);
            assert(0x10000 * (SCALE as int) == 0x100000000);
            assert(samples.push(sample@).drop_last() =~= samples);
        }
        sum = sum.add(sample);
        proof {
            samples = samples.push(sample@);
        }
        s = s + 1;
    }
    proof {
        assert(samples_per_pixel as int * (SCALE as int) <= 0x100000000);
    }
    let avg = average_samples(sum, samples_per_pixel);
    proof {
        lemma_average_is_color(sum@, samples_per_pixel as int);
    }
    let pixel = gamma_correct(avg);
    proof {
        assert(sample_set_admissible(
            world.objects@,
            *camera,
            x as int,
            y as int,
            image_width as int,
            image_height as int,
            samples_per_pixel as int,
            max_depth as int,
            samples,
            pixel@,
        ));
    }
    pixel
}

/// A jittered normalized image coordinate stays within [0, 2].
proof fn lemma_jitter_coordinate(p: int, f: int, extent: int)
    requires
        0 <= p <= extent - 1,
        0 <= f < SCALE as int,
        extent >= 2,
    ensures
        0 <= crate::fx::fquot(p * (SCALE as int) + f, (extent - 1) * (SCALE as int)) <= 2 * (
        SCALE as int),
{
    let den = (extent - 1) * (SCALE as int);
    let num = p * (SCALE as int) + f;
    assert(den >= SCALE as int && num >= 0 && num * (SCALE as int) >= 0 && num * (SCALE as int)
        <= den * (2 * (SCALE as int))) by (nonlinear_arith)
        requires
            0 <= p <= extent - 1,
            0 <= f < SCALE as int,
            extent >= 2,
            den == (extent - 1) * (SCALE as int),
            num == p * (SCALE as int) + f;
    vstd::arithmetic::div_mod::lemma_div_pos_is_pos(num * (SCALE as int), den);
    vstd::arithmetic::div_mod::lemma_div_multiples_vanish(2 * (SCALE as int), den);
    vstd::arithmetic::div_mod::lemma_div_is_ordered(
        num * (SCALE as int),
        den * (2 * (SCALE as int)),
        den,
    );
}

/// The mean of nonnegative bounded samples is a color.
proof fn lemma_average_is_color(sum: V3, n: int)
    requires
        n >= 1,
        sum.in_range(n * (SCALE as int)),
        sum.x >= 0,
        sum.y >= 0,
        sum.z >= 0,
    ensures
        is_colorv(average_spec(sum, n)),
{
    vstd::arithmetic::div_mod::lemma_div_pos_is_pos(sum.x, n);
    vstd::arithmetic::div_mod::lemma_div_pos_is_pos(sum.y, n);
    vstd::arithmetic::div_mod::lemma_div_pos_is_pos(sum.z, n);
    vstd::arithmetic::div_mod::lemma_div_multiples_vanish(SCALE as int, n);
    vstd::arithmetic::div_mod::lemma_div_is_ordered(sum.x, n * (SCALE as int), n);
    vstd::arithmetic::div_mod::lemma_div_is_ordered(sum.y, n * (SCALE as int), n);
    vstd::arithmetic::div_mod::lemma_div_is_ordered(sum.z, n * (SCALE as int), n);
}

} // verus!
