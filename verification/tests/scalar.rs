use pathtracer::estimator::SHADOW_EPSILON;
use pathtracer::color::CHANNEL_CEILING;
use pathtracer::scalar::{
    from_bits, is_nan, less, negate, to_bits, INFINITY, NEG_INFINITY, ONE, SIGN_BIT, ZERO,
};
use pathtracer::vec3::NEAR_ZERO;

fn key(value: f64) -> i64 {
    from_bits(value.to_bits())
}

fn number(key: i64) -> f64 {
    f64::from_bits(to_bits(key))
}

fn samples() -> Vec<f64> {
    vec![
        f64::NEG_INFINITY,
        -1.7976931348623157e308,
        -1000.0,
        -1.0,
        -0.001,
        -5e-324,
        0.0,
        5e-324,
        1e-8,
        0.001,
        0.5,
        0.9999999,
        1.0,
        255.0,
        1.7976931348623157e308,
        f64::INFINITY,
    ]
}

#[test]
fn keys_of_plain_patterns() {
    assert_eq!(from_bits(0), 0);
    assert_eq!(from_bits(1), 1);
    assert_eq!(from_bits(SIGN_BIT), 0);
    assert_eq!(from_bits(SIGN_BIT + 1), -1);
    assert_eq!(from_bits(u64::MAX), -i64::MAX);
    assert_eq!(from_bits(SIGN_BIT - 1), i64::MAX);
}

#[test]
fn patterns_of_plain_keys() {
    assert_eq!(to_bits(0), 0);
    assert_eq!(to_bits(1), 1);
    assert_eq!(to_bits(-1), SIGN_BIT + 1);
    assert_eq!(to_bits(i64::MAX), SIGN_BIT - 1);
    assert_eq!(to_bits(-i64::MAX), u64::MAX);
}

#[test]
fn keys_go_back_to_the_numbers_they_came_from() {
    for value in samples() {
        assert_eq!(number(key(value)), value);
        assert_eq!(number(key(value)).to_bits(), (value + 0.0).to_bits());
    }
}

#[test]
fn negative_zero_comes_back_as_zero() {
    assert_eq!(key(-0.0), 0);
    assert_eq!(number(key(-0.0)).to_bits(), 0.0f64.to_bits());
}

#[test]
fn keys_are_ordered_as_the_numbers_are() {
    let values = samples();
    for a in &values {
        for b in &values {
            assert_eq!(key(*a) < key(*b), a < b);
            assert_eq!(key(*a) == key(*b), a == b);
            assert_eq!(less(key(*a), key(*b)), a < b);
        }
    }
}

#[test]
fn the_named_keys_are_those_of_their_numbers() {
    assert_eq!(ZERO, key(0.0));
    assert_eq!(ONE, key(1.0));
    assert_eq!(INFINITY, key(f64::INFINITY));
    assert_eq!(NEG_INFINITY, key(f64::NEG_INFINITY));
    assert_eq!(SHADOW_EPSILON, key(0.001));
    assert_eq!(NEAR_ZERO, key(1e-8));
    assert_eq!(CHANNEL_CEILING, key(0.9999999));
}

#[test]
fn what_is_no_number_is_told_apart() {
    assert!(is_nan(key(f64::NAN)));
    assert!(is_nan(key(-f64::NAN)));
    assert!(is_nan(key(0.0 / 0.0)));
    assert!(is_nan(INFINITY + 1));
    assert!(is_nan(NEG_INFINITY - 1));
    for value in samples() {
        assert!(!is_nan(key(value)));
    }
}

#[test]
fn nothing_is_less_than_what_is_no_number() {
    let nan = key(f64::NAN);
    assert!(!less(nan, key(1.0)));
    assert!(!less(key(1.0), nan));
    assert!(!less(key(-f64::NAN), key(0.0)));
    assert!(!less(nan, nan));
    assert!(less(key(-1.0), key(1.0)));
    assert!(!less(key(1.0), key(1.0)));
}

#[test]
fn negating_a_key_negates_the_number() {
    for value in samples() {
        assert_eq!(negate(key(value)), key(-value));
        assert_eq!(negate(negate(key(value))), key(value));
    }
    assert_eq!(negate(i64::MIN), i64::MIN);
    assert_eq!(negate(7), -7);
}
