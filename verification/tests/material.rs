use pathtracer::color::Color;
use pathtracer::material::{Dielectric, Incidence, Lambertian, Metal};
use pathtracer::object::HitRecord;
use pathtracer::ray::Ray;
use pathtracer::scalar::from_bits;
use pathtracer::vec3::Vec3;

fn key(value: f64) -> i64 {
    from_bits(value.to_bits())
}

fn vec3(x: f64, y: f64, z: f64) -> Vec3 {
    Vec3::new(key(x), key(y), key(z))
}

fn color(red: f64, green: f64, blue: f64) -> Color {
    Color::new(key(red), key(green), key(blue))
}

fn hit() -> HitRecord {
    HitRecord {
        p: vec3(1.0, 2.0, 3.0),
        normal: vec3(0.0, 1.0, 0.0),
        t: key(4.0),
        front_face: true,
        material: 0,
    }
}

fn incidence(bend: f64, reflectance: f64) -> Incidence {
    Incidence {
        bend: key(bend),
        reflectance: key(reflectance),
        reflected: vec3(0.0, 1.0, 0.0),
        refracted: vec3(0.0, -1.0, 0.0),
    }
}

#[test]
fn the_materials_keep_what_they_are_made_with() {
    assert_eq!(Lambertian::new(color(0.4, 0.2, 0.1)).albedo, color(0.4, 0.2, 0.1));
    let metal = Metal::new(color(0.7, 0.6, 0.5), key(0.3));
    assert_eq!((metal.albedo, metal.fuzz), (color(0.7, 0.6, 0.5), key(0.3)));
    assert_eq!(Dielectric::new(key(1.5)).refraction_index, key(1.5));
}

#[test]
fn a_diffuse_surface_scatters_along_the_sum() {
    let material = Lambertian::new(color(0.4, 0.2, 0.1));
    let sum = vec3(0.3, 1.2, -0.4);
    assert_eq!(
        material.scatter(&hit(), sum),
        Some((color(0.4, 0.2, 0.1), Ray::new(vec3(1.0, 2.0, 3.0), sum)))
    );
}

#[test]
fn a_degenerate_sum_falls_back_to_the_normal() {
    let material = Lambertian::new(color(0.4, 0.2, 0.1));
    let along_normal = Some((color(0.4, 0.2, 0.1), Ray::new(vec3(1.0, 2.0, 3.0), vec3(0.0, 1.0, 0.0))));
    assert_eq!(material.scatter(&hit(), vec3(1e-9, -1e-9, 0.0)), along_normal);
    assert_eq!(material.scatter(&hit(), vec3(0.0, 0.0, 0.0)), along_normal);
    let barely = vec3(1e-8, 0.0, 0.0);
    assert_eq!(
        material.scatter(&hit(), barely),
        Some((color(0.4, 0.2, 0.1), Ray::new(vec3(1.0, 2.0, 3.0), barely)))
    );
}

#[test]
fn a_metal_reflects_away_from_the_surface() {
    let material = Metal::new(color(0.7, 0.6, 0.5), key(0.0));
    let reflected = vec3(0.6, 0.8, 0.0);
    let leaves = Some((color(0.7, 0.6, 0.5), Ray::new(vec3(1.0, 2.0, 3.0), reflected)));
    assert_eq!(material.scatter(&hit(), reflected, key(0.8)), leaves);
    assert_eq!(material.scatter(&hit(), reflected, key(1e-300)), leaves);
}

#[test]
fn a_reflection_into_the_surface_is_absorbed() {
    let material = Metal::new(color(0.7, 0.6, 0.5), key(1.0));
    let reflected = vec3(0.6, -0.8, 0.0);
    assert_eq!(material.scatter(&hit(), reflected, key(0.0)), None);
    assert_eq!(material.scatter(&hit(), reflected, key(-0.8)), None);
    assert_eq!(material.scatter(&hit(), reflected, key(f64::NAN)), None);
}

#[test]
fn glass_meets_the_inverse_index_on_the_way_out() {
    let glass = Dielectric::new(key(1.5));
    assert_eq!(glass.refraction_ratio(false, key(1.0 / 1.5)), key(1.0 / 1.5));
    assert_eq!(glass.refraction_ratio(true, key(1.0 / 1.5)), key(1.5));
}

#[test]
fn glass_reflects_where_it_cannot_refract() {
    let glass = Dielectric::new(key(1.5));
    let white = color(1.0, 1.0, 1.0);
    let up = Some((white, Ray::new(vec3(1.0, 2.0, 3.0), vec3(0.0, 1.0, 0.0))));
    let down = Some((white, Ray::new(vec3(1.0, 2.0, 3.0), vec3(0.0, -1.0, 0.0))));
    assert_eq!(glass.scatter(&hit(), &incidence(1.2, 0.0), key(0.99)), up);
    assert_eq!(glass.scatter(&hit(), &incidence(1.0, 0.0), key(0.99)), down);
}

#[test]
fn glass_reflects_by_chance_otherwise() {
    let glass = Dielectric::new(key(1.5));
    let white = color(1.0, 1.0, 1.0);
    let up = Some((white, Ray::new(vec3(1.0, 2.0, 3.0), vec3(0.0, 1.0, 0.0))));
    let down = Some((white, Ray::new(vec3(1.0, 2.0, 3.0), vec3(0.0, -1.0, 0.0))));
    assert_eq!(glass.scatter(&hit(), &incidence(0.5, 0.3), key(0.2)), up);
    assert_eq!(glass.scatter(&hit(), &incidence(0.5, 0.3), key(0.3)), down);
    assert_eq!(glass.scatter(&hit(), &incidence(0.5, 0.3), key(0.8)), down);
    assert_eq!(glass.scatter(&hit(), &incidence(f64::NAN, f64::NAN), key(0.5)), down);
}

#[test]
fn glass_of_index_one_lets_a_ray_straight_through() {
    let glass = Dielectric::new(key(1.0));
    for front_face in [true, false] {
        let ratio = f64::from_bits(pathtracer::scalar::to_bits(
            glass.refraction_ratio(front_face, key(1.0 / 1.0)),
        ));
        assert_eq!(ratio, 1.0);
        let normal = [0.0, 1.0, 0.0];
        let d = [0.6, -0.8, 0.0];
        let cos_theta = 0.8f64;
        let sin_theta = (1.0 - cos_theta * cos_theta).sqrt();
        let perp = [
            ratio * (d[0] + cos_theta * normal[0]),
            ratio * (d[1] + cos_theta * normal[1]),
            ratio * (d[2] + cos_theta * normal[2]),
        ];
        let length = perp[0] * perp[0] + perp[1] * perp[1] + perp[2] * perp[2];
        let along = -((1.0 - length).abs().sqrt());
        let refracted = [
            perp[0] + along * normal[0],
            perp[1] + along * normal[1],
            perp[2] + along * normal[2],
        ];
        let met = Incidence {
            bend: key(ratio * sin_theta),
            reflectance: key(0.0),
            reflected: vec3(0.6, 0.8, 0.0),
            refracted: vec3(refracted[0], refracted[1], refracted[2]),
        };
        let (_, out) = glass.scatter(&hit(), &met, key(0.5)).unwrap();
        for (got, want) in [(out.direction.x, d[0]), (out.direction.y, d[1]), (out.direction.z, d[2])] {
            let got = f64::from_bits(pathtracer::scalar::to_bits(got));
            assert!((got - want).abs() < 1e-12);
        }
    }
}

#[test]
fn a_mirror_keeps_the_angle() {
    let normals = [[0.0, 1.0, 0.0], [0.6, 0.0, 0.8], [0.0, 0.0, -1.0]];
    let directions = [[0.6, -0.8, 0.0], [0.0, 0.6, -0.8], [1.0, 0.0, 0.0]];
    let dot = |a: [f64; 3], b: [f64; 3]| a[0] * b[0] + a[1] * b[1] + a[2] * b[2];
    for n in normals {
        for d in directions {
            let s = 2.0 * dot(d, n);
            let reflected = [d[0] - s * n[0], d[1] - s * n[1], d[2] - s * n[2]];
            let facing = dot(reflected, n);
            assert!((facing - dot([-d[0], -d[1], -d[2]], n)).abs() < 1e-12);
            let material = Metal::new(color(1.0, 1.0, 1.0), key(0.0));
            let out = material.scatter(&hit(), vec3(reflected[0], reflected[1], reflected[2]), key(facing));
            assert_eq!(out.is_some(), dot(d, n) < 0.0);
        }
    }
}
