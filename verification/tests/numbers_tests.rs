use rlox::numbers::{equal, less, less_equal, negate};

fn samples() -> Vec<f64> {
    vec![
        0.0,
        -0.0,
        1.0,
        -1.0,
        1.5,
        -2.25,
        f64::MIN_POSITIVE,
        -f64::MIN_POSITIVE,
        5e-324,
        f64::MAX,
        f64::MIN,
        f64::INFINITY,
        f64::NEG_INFINITY,
        f64::NAN,
        -f64::NAN,
        1e100,
        -1e-100,
    ]
}

#[test]
fn negate_matches_doubles() {
    for x in samples() {
        assert_eq!(negate(x.to_bits()), (-x).to_bits());
    }
}

#[test]
fn negate_twice_is_identity() {
    for x in samples() {
        assert_eq!(negate(negate(x.to_bits())), x.to_bits());
    }
}

#[test]
fn comparisons_match_doubles() {
    for x in samples() {
        for y in samples() {
            let (a, b) = (x.to_bits(), y.to_bits());
            assert_eq!(equal(a, b), x == y, "{} == {}", x, y);
            assert_eq!(less(a, b), x < y, "{} < {}", x, y);
            assert_eq!(less_equal(a, b), x <= y, "{} <= {}", x, y);
        }
    }
}

#[test]
fn zeros_are_equal() {
    assert!(equal(0.0f64.to_bits(), (-0.0f64).to_bits()));
    assert!(!less((-0.0f64).to_bits(), 0.0f64.to_bits()));
}

#[test]
fn nan_is_unordered() {
    let nan = f64::NAN.to_bits();
    let one = 1.0f64.to_bits();
    assert!(!equal(nan, nan));
    assert!(!less(nan, one) && !less(one, nan));
    assert!(!less_equal(nan, one) && !less_equal(one, nan));
}
