use pathtracer::aabb::{Slab, AABB};
use pathtracer::estimator::ray_color;
use pathtracer::color::Color;
use pathtracer::material::{Dielectric, Incidence, Lambertian, Metal};
use pathtracer::object::{HitRecord, ObjectRef};
use pathtracer::object_list::ObjectList;
use pathtracer::ppm::{Rgb, PPM};
use pathtracer::ray::Ray;
use pathtracer::render::{collect, jobs, sample_pixel, PixelResult};
use pathtracer::scalar::{from_bits, to_bits};
use pathtracer::scene::Scene;
use pathtracer::sphere::{Crossing, Roots, Sphere};
use pathtracer::vec3::Vec3;

type V = [f64; 3];

const REFERENCE: [&str; 10] = [
    "218 233 255 218 233 255 218 233 255 217 233 255 217 233 255 217 233 255 217 233 255 217 233 255 217 233 255 217 233 255 217 233 255 217 233 255 217 233 255 217 233 255 217 233 255 217 233 255 217 233 255 218 233 255 218 233 255 218 233 255",
    "219 234 255 219 234 255 219 234 255 219 234 255 219 234 255 219 234 255 219 234 255 219 234 255 219 234 255 219 234 255 219 234 255 219 234 255 219 234 255 219 234 255 219 234 255 219 234 255 219 234 255 219 234 255 219 234 255 219 234 255",
    "221 235 255 221 235 255 221 235 255 221 235 255 221 235 255 221 235 255 221 235 255 221 235 255 119 97 81 196 221 255 196 221 255 161 170 180 168 174 180 221 235 255 221 235 255 221 235 255 221 235 255 221 235 255 221 235 255 221 235 255",
    "128 151 180 128 151 180 128 151 180 128 151 180 128 151 180 128 151 180 128 151 180 128 151 180 81 67 57 218 234 255 169 174 180 161 170 180 162 171 180 176 178 180 128 151 180 128 151 180 128 151 180 128 151 180 128 151 180 128 151 180",
    "128 151 180 128 151 180 128 151 180 128 151 180 128 151 180 128 151 180 128 151 180 128 151 180 57 48 40 128 151 180 107 117 128 107 117 128 107 117 128 107 117 128 128 151 180 128 151 180 128 151 180 128 151 180 128 151 180 128 151 180",
    "128 151 180 128 151 180 128 151 180 128 151 180 128 151 180 128 151 180 128 151 180 128 151 180 128 151 180 128 151 180 93 92 90 92 92 90 91 91 90 128 151 180 128 151 180 128 151 180 128 151 180 128 151 180 128 151 180 128 151 180",
    "128 151 180 128 151 180 128 151 180 128 151 180 128 151 180 128 151 180 128 151 180 128 151 180 128 151 180 128 151 180 128 151 180 111 119 128 111 119 128 128 151 180 128 151 180 128 151 180 128 151 180 128 151 180 128 151 180 128 151 180",
    "128 151 180 128 151 180 128 151 180 128 151 180 128 151 180 128 151 180 128 151 180 128 151 180 128 151 180 128 151 180 128 151 180 128 151 180 128 151 180 128 151 180 128 151 180 128 151 180 128 151 180 128 151 180 128 151 180 128 151 180",
    "128 151 180 128 151 180 128 151 180 128 151 180 128 151 180 128 151 180 128 151 180 128 151 180 128 151 180 128 151 180 128 151 180 128 151 180 128 151 180 128 151 180 128 151 180 128 151 180 128 151 180 128 151 180 128 151 180 128 151 180",
    "128 151 180 128 151 180 128 151 180 128 151 180 128 151 180 128 151 180 128 151 180 128 151 180 128 151 180 128 151 180 128 151 180 128 151 180 128 151 180 128 151 180 128 151 180 128 151 180 128 151 180 128 151 180 128 151 180 128 151 180",
];

fn key(value: f64) -> i64 {
    from_bits(value.to_bits())
}

fn number(key: i64) -> f64 {
    f64::from_bits(to_bits(key))
}

fn keys(v: V) -> Vec3 {
    Vec3::new(key(v[0]), key(v[1]), key(v[2]))
}

fn numbers(v: Vec3) -> V {
    [number(v.x), number(v.y), number(v.z)]
}

fn sub(a: V, b: V) -> V {
    [a[0] - b[0], a[1] - b[1], a[2] - b[2]]
}

fn add(a: V, b: V) -> V {
    [a[0] + b[0], a[1] + b[1], a[2] + b[2]]
}

fn scale(s: f64, a: V) -> V {
    [s * a[0], s * a[1], s * a[2]]
}

fn dot(a: V, b: V) -> f64 {
    a[0] * b[0] + a[1] * b[1] + a[2] * b[2]
}

fn cross(a: V, b: V) -> V {
    [a[1] * b[2] - a[2] * b[1], a[2] * b[0] - a[0] * b[2], a[0] * b[1] - a[1] * b[0]]
}

fn unit(a: V) -> V {
    scale(1.0 / dot(a, a).sqrt(), a)
}

fn reflect(v: V, n: V) -> V {
    sub(v, scale(2.0 * dot(v, n), n))
}

#[derive(Clone, Copy, PartialEq)]
enum Kind {
    Diffuse,
    Metal,
    Glass,
}

struct Ball {
    center: V,
    radius: f64,
    kind: Kind,
    albedo: V,
}

struct Beam {
    origin: V,
    direction: V,
}

fn beam(ray: &Ray) -> Beam {
    Beam { origin: numbers(ray.origin), direction: numbers(ray.direction) }
}

struct Camera {
    origin: V,
    lower_left_corner: V,
    horizontal: V,
    vertical: V,
}

fn balls() -> Vec<Ball> {
    vec![
        Ball { center: [0.0, -1000.0, 0.0], radius: 1000.0, kind: Kind::Diffuse, albedo: [0.5, 0.5, 0.5] },
        Ball { center: [-4.0, 1.0, 0.0], radius: 1.0, kind: Kind::Diffuse, albedo: [0.4, 0.2, 0.1] },
        Ball { center: [4.0, 1.0, 0.0], radius: 1.0, kind: Kind::Metal, albedo: [0.7, 0.6, 0.5] },
        Ball { center: [0.0, 1.0, 0.0], radius: 1.0, kind: Kind::Glass, albedo: [1.0, 1.0, 1.0] },
    ]
}

fn camera() -> Camera {
    let look_from = [13.0, 2.0, 3.0];
    let look_at = [0.0, 0.0, 0.0];
    let vup = [0.0, 1.0, 0.0];
    let focus = 10.0;
    let w = unit(sub(look_from, look_at));
    let u = unit(cross(vup, w));
    let v = cross(w, u);
    let horizontal = scale(focus * 1.0, u);
    let vertical = scale(focus * 0.5, v);
    let lower_left_corner = sub(
        sub(sub(look_from, scale(1.0 / 2.0, horizontal)), scale(1.0 / 2.0, vertical)),
        scale(focus, w),
    );
    Camera { origin: look_from, lower_left_corner, horizontal, vertical }
}

fn get_ray(camera: &Camera, s: f64, t: f64) -> Ray {
    Ray::new(
        keys(camera.origin),
        keys(sub(
            add(add(camera.lower_left_corner, scale(s, camera.horizontal)), scale(t, camera.vertical)),
            camera.origin,
        )),
    )
}

fn bounds(ball: &Ball) -> AABB {
    let r = [ball.radius, ball.radius, ball.radius];
    AABB::new(keys(sub(ball.center, r)), keys(add(ball.center, r)))
}

fn slab(ray: &Ray, axis: usize, low: i64, high: i64) -> Slab {
    let origin = number(ray.origin.get(axis));
    let inv_d = 1.0 / number(ray.direction.get(axis));
    Slab {
        near: key((number(low) - origin) * inv_d),
        far: key((number(high) - origin) * inv_d),
        reversed: inv_d < 0.0,
    }
}

fn crossing(ball: &Ball, ray: &Beam, t: f64) -> Crossing {
    let p = add(ray.origin, scale(t, ray.direction));
    let outward = scale(1.0 / ball.radius, sub(p, ball.center));
    Crossing { t: key(t), p: keys(p), outward_normal: keys(outward), facing: key(dot(ray.direction, outward)) }
}

fn hit_ball(balls: &[Ball], ray: &Ray, index: usize, t_min: i64, t_max: i64) -> Option<HitRecord> {
    let ray = &beam(ray);
    let ball = &balls[index];
    let oc = sub(ray.origin, ball.center);
    let a = dot(ray.direction, ray.direction);
    let half_b = dot(oc, ray.direction);
    let c = dot(oc, oc) - ball.radius * ball.radius;
    let discriminant = half_b * half_b - a * c;
    let sqrtd = discriminant.sqrt();
    let roots = Roots {
        discriminant: key(discriminant),
        near: crossing(ball, ray, (-half_b - sqrtd) / a),
        far: crossing(ball, ray, (-half_b + sqrtd) / a),
    };
    Sphere::new(keys(ball.center), key(ball.radius), index).hit(&roots, t_min, t_max)
}

fn colour(c: V) -> Color {
    Color::new(key(c[0]), key(c[1]), key(c[2]))
}

fn scatter(balls: &[Ball], ray: &Ray, hit: HitRecord) -> Option<(Color, Ray)> {
    let ray = &beam(ray);
    let ball = &balls[hit.material];
    let normal = numbers(hit.normal);
    match ball.kind {
        Kind::Diffuse => Lambertian::new(colour(ball.albedo)).scatter(&hit, hit.normal),
        Kind::Metal => {
            let reflected = reflect(unit(ray.direction), normal);
            let facing = dot(reflected, normal);
            Metal::new(colour(ball.albedo), key(0.0)).scatter(&hit, keys(reflected), key(facing))
        }
        Kind::Glass => {
            let glass = Dielectric::new(key(1.5));
            let ratio = number(glass.refraction_ratio(hit.front_face, key(1.0 / 1.5)));
            let unit_direction = unit(ray.direction);
            let cos_theta = dot(scale(-1.0, unit_direction), normal).min(1.0);
            let sin_theta = (1.0 - cos_theta * cos_theta).sqrt();
            let r0 = ((1.0 - ratio) / (1.0 + ratio)) * ((1.0 - ratio) / (1.0 + ratio));
            let x = 1.0 - cos_theta;
            let perp = scale(ratio, add(unit_direction, scale(cos_theta, normal)));
            let parallel = scale(-((1.0 - dot(perp, perp)).abs().sqrt()), normal);
            let incidence = Incidence {
                bend: key(ratio * sin_theta),
                reflectance: key(r0 + (1.0 - r0) * (x * x * x * x * x)),
                reflected: keys(reflect(unit_direction, normal)),
                refracted: keys(add(perp, parallel)),
            };
            glass.scatter(&hit, &incidence, key(1.0))
        }
    }
}

fn background(ray: &Ray) -> Color {
    let unit_direction = unit(numbers(ray.direction));
    let t = 0.5 * (unit_direction[1] + 1.0);
    colour(add(scale(1.0 - t, [1.0, 1.0, 1.0]), scale(t, [0.5, 0.7, 1.0])))
}

fn channels(c: Color) -> V {
    [number(c.red), number(c.green), number(c.blue)]
}

fn times(a: Color, b: Color) -> Color {
    let (a, b) = (channels(a), channels(b));
    colour([a[0] * b[0], a[1] * b[1], a[2] * b[2]])
}

fn written(color: V) -> Rgb {
    let cut = colour([color[0].sqrt(), color[1].sqrt(), color[2].sqrt()]).clamp();
    let hex = |channel: i64| (number(channel) * 255.0).round() as i32;
    Rgb::new(hex(cut.red), hex(cut.green), hex(cut.blue))
}

fn render(order: &dyn Fn(usize) -> usize) -> String {
    let (width, height) = (20u32, 10u32);
    let balls = balls();
    let camera = camera();
    let mut list = ObjectList::new(
        balls
            .iter()
            .enumerate()
            .map(|(index, ball)| ObjectRef { index, bounding_box: Some(bounds(ball)) })
            .collect(),
    );
    let scene = Scene::new(&mut list).unwrap();
    let hit = |ray: &Ray, index: usize, lo: i64, hi: i64| hit_ball(&balls, ray, index, lo, hi);
    let nearest = |ray: &Ray, lo: i64, hi: i64| scene.hit(ray, lo, hi, &slab, &hit);
    let scattered = |ray: &Ray, record: HitRecord| scatter(&balls, ray, record);
    let all = jobs(width, height).unwrap();
    let mut results = Vec::new();
    for i in 0..all.len() {
        let job = all[order(i)];
        let one = |x: u32, y: u32| {
            let s = x as f64 / (width as f64 - 1.0);
            let t = y as f64 / (height as f64 - 1.0);
            let ray = get_ray(&camera, s, t);
            channels(ray_color(&ray, 5, &nearest, &scattered, &background, &times))
        };
        let color = sample_pixel(job, 1, &one, &add, [0.0, 0.0, 0.0]);
        results.push(PixelResult { x: job.x, y: job.y, color });
    }
    let image = collect(width, height, &results).unwrap();
    let image_data = image
        .iter()
        .map(|row| {
            row.iter().map(|c| written(*c)).collect()
        })
        .collect();
    let ppm = PPM { image_width: width as i32, image_height: height as i32, image_data };
    String::from_utf8(ppm.render()).unwrap()
}

fn reference() -> String {
    let mut text = String::from("P3\n20 10\n255\n");
    for row in REFERENCE {
        text.push_str(row);
        text.push('\n');
    }
    text
}

#[test]
fn four_spheres_at_twenty_by_ten() {
    assert_eq!(render(&|i| i), reference());
}

#[test]
fn four_spheres_whatever_the_order_of_the_jobs() {
    assert_eq!(render(&|i| 199 - i), reference());
    assert_eq!(render(&|i| (i * 7) % 200), reference());
    assert_eq!(render(&|i| (i * 73 + 11) % 200), reference());
}
