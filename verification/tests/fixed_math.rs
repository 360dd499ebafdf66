use seal_the_sub::fixed::{atan2_fp, clip64, cos_fp, fdiv64, fmod64, isqrt64, mul_div, sin_fp};

#[test]
fn sine_at_cardinal_angles() {
    assert_eq!(sin_fp(0), 0);
    assert_eq!(sin_fp(15708), 1000);
    assert_eq!(sin_fp(31416), 0);
    assert_eq!(sin_fp(47124), -1000);
    assert_eq!(sin_fp(62832), 0);
    assert_eq!(sin_fp(-15708), -1000);
}

#[test]
fn cosine_is_shifted_sine() {
    assert_eq!(cos_fp(0), 1000);
    assert_eq!(cos_fp(15708), sin_fp(31416));
    assert_eq!(cos_fp(31416), -1000);
}

#[test]
fn sine_stays_within_unit_scale() {
    let mut a: i64 = -100000;
    while a <= 100000 {
        let s = sin_fp(a);
        assert!(-1000 <= s && s <= 1000);
        a += 1234;
    }
}

#[test]
fn integer_square_roots() {
    assert_eq!(isqrt64(0), 0);
    assert_eq!(isqrt64(1), 1);
    assert_eq!(isqrt64(10), 3);
    assert_eq!(isqrt64(144), 12);
    assert_eq!(isqrt64(1000000000000000000), 1000000000);
    assert_eq!(isqrt64(999999999999999999), 999999999);
}

#[test]
fn arctangent_quadrants() {
    assert_eq!(atan2_fp(0, 5), 0);
    assert_eq!(atan2_fp(5, 0), 15708);
    assert_eq!(atan2_fp(0, -5), 31416);
    assert_eq!(atan2_fp(-5, 0), -15708);
    assert_eq!(atan2_fp(0, 0), 0);
    // the diagonal: pi / 4 under the approximation
    assert_eq!(atan2_fp(7, 7), 7854);
}

#[test]
fn division_rounding_conventions() {
    // mul_div truncates toward zero
    assert_eq!(mul_div(-7, 1, 2), -3);
    assert_eq!(mul_div(7, 1, 2), 3);
    // fdiv64 is floor division
    assert_eq!(fdiv64(-7, 2), -4);
    assert_eq!(fdiv64(7, 2), 3);
    // fmod64 is the Euclidean remainder
    assert_eq!(fmod64(-7, 2), 1);
    assert_eq!(fmod64(7, 2), 1);
}

#[test]
fn clipping() {
    assert_eq!(clip64(5, -3, 3), 3);
    assert_eq!(clip64(-5, -3, 3), -3);
    assert_eq!(clip64(2, -3, 3), 2);
}
