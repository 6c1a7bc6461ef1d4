use pathtracer::object::{query, tighten, HitRecord};
use pathtracer::ray::Ray;
use pathtracer::scalar::from_bits;
use pathtracer::vec3::Vec3;

fn key(value: f64) -> i64 {
    from_bits(value.to_bits())
}

fn vec3(x: f64, y: f64, z: f64) -> Vec3 {
    Vec3::new(key(x), key(y), key(z))
}

fn some_ray() -> Ray {
    Ray::new(vec3(0.0, 0.0, 0.0), vec3(0.0, 0.0, 1.0))
}

fn record(t: f64) -> HitRecord {
    HitRecord {
        p: vec3(1.0, 2.0, 3.0),
        normal: vec3(0.0, 0.0, 0.0),
        t: key(t),
        front_face: false,
        material: 7,
    }
}

#[test]
fn a_ray_against_the_normal_hits_the_front_face() {
    let mut rec = record(2.0);
    let outward = vec3(0.0, 1.0, 0.0);
    rec.set_face_normal(key(-0.5), outward);
    assert!(rec.front_face);
    assert_eq!(rec.normal, outward);
    assert_eq!(rec.t, key(2.0));
    assert_eq!(rec.p, vec3(1.0, 2.0, 3.0));
    assert_eq!(rec.material, 7);
}

#[test]
fn a_ray_along_the_normal_gets_the_normal_turned() {
    let mut rec = record(2.0);
    let outward = vec3(0.0, 1.0, -0.5);
    rec.set_face_normal(key(0.5), outward);
    assert!(!rec.front_face);
    assert_eq!(rec.normal, vec3(0.0, -1.0, 0.5));
    rec.set_face_normal(key(0.0), outward);
    assert!(!rec.front_face);
    assert_eq!(rec.normal, vec3(0.0, -1.0, 0.5));
    rec.set_face_normal(key(f64::NAN), outward);
    assert!(!rec.front_face);
}

#[test]
fn a_query_keeps_a_hit_inside_the_interval() {
    let answer = |_: &Ray, object: usize, _: i64, _: i64| {
        if object == 3 {
            Some(record(5.0))
        } else {
            None
        }
    };
    assert_eq!(query(&some_ray(), 3, key(1.0), key(9.0), &answer), Some(record(5.0)));
    assert_eq!(query(&some_ray(), 2, key(1.0), key(9.0), &answer), None);
}

#[test]
fn a_query_drops_a_hit_on_or_beyond_a_bound() {
    let answer = |_: &Ray, _: usize, _: i64, _: i64| Some(record(5.0));
    assert_eq!(query(&some_ray(), 0, key(5.0), key(9.0), &answer), None);
    assert_eq!(query(&some_ray(), 0, key(1.0), key(5.0), &answer), None);
    assert_eq!(query(&some_ray(), 0, key(6.0), key(9.0), &answer), None);
    assert_eq!(query(&some_ray(), 0, key(1.0), key(4.0), &answer), None);
}

#[test]
fn a_query_hands_on_what_it_was_asked() {
    let echo = |ray: &Ray, object: usize, t_min: i64, t_max: i64| {
        assert_eq!((*ray, object, t_min, t_max), (some_ray(), 4, key(1.0), key(8.0)));
        None
    };
    assert_eq!(query(&some_ray(), 4, key(1.0), key(8.0), &echo), None);
}

#[test]
fn the_bound_tightens_to_the_hit() {
    assert_eq!(tighten(&Some(record(5.0)), key(9.0)), key(5.0));
    assert_eq!(tighten(&None, key(9.0)), key(9.0));
}
