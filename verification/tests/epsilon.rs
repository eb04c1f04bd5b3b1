use raytracer::epsilon::EpsilonEqual;

const EPSILON: f64 = 0.0001;

/// Epsilon equality for float scalars; the scalar side of the renderer
/// keeps floats outside the verified library, so the float impl lives
/// with the caller and is mirrored here.
trait FloatEpsilonEqual {
    fn e_equals(self, other: Self) -> bool;
}

impl FloatEpsilonEqual for f64 {
    fn e_equals(self, other: Self) -> bool {
        (self - other).abs() < EPSILON
    }
}

#[test]
fn test_epsilon_equal() {
    assert!(1.0f64.e_equals(1.00000000001f64));
    assert!(!1.0f64.e_equals(1.1f64));
}

#[test]
fn test_epsilon_equal_nan() {
    assert!(!f64::NAN.e_equals(f64::NAN));
    assert!(!f64::NAN.e_equals(1.1f64));
}

#[test]
fn test_epsilon_equal_int() {
    assert!(1.e_equals(1));
    assert!(!1.e_equals(2));
}
