use pitch::resample::Scale;
use pitch::single::level_of_bits;

fn ratio(x: f32) -> Option<(i64, u64)> {
    Scale::from_single_bits(x.to_bits()).map(|s| (s.numerator(), s.denominator()))
}

#[test]
fn ratio_of_whole_numbers_and_halves() {
    assert_eq!(ratio(2.0), Some((2, 1)));
    assert_eq!(ratio(1.0), Some((1, 1)));
    assert_eq!(ratio(1.5), Some((3, 2)));
    assert_eq!(ratio(0.5), Some((1, 2)));
    assert_eq!(ratio(-0.75), Some((-3, 4)));
    assert_eq!(ratio(6.0), Some((6, 1)));
    assert_eq!(ratio(-12.0), Some((-12, 1)));
    assert_eq!(ratio(16777215.0), Some((16777215, 1)));
}

#[test]
fn ratio_of_a_number_that_is_no_short_fraction() {
    // the single-precision number next to four fifths
    assert_eq!(ratio(0.8), Some((13421773, 16777216)));
    assert_eq!(ratio(-0.1), Some((-13421773, 134217728)));
}

#[test]
fn ratio_of_zero() {
    assert_eq!(ratio(0.0), Some((0, 1)));
    assert_eq!(ratio(-0.0), Some((0, 1)));
}

#[test]
fn ratio_is_in_lowest_terms_and_exact() {
    let mut x = 1.0e-6f32;
    while x < 1.0e11 {
        for y in [x, -x, x * 1.37, x * 0.77] {
            let (num, den) = ratio(y).unwrap();
            assert!(num % 2 != 0 || den == 1);
            assert!(den.is_power_of_two());
            assert_eq!(num as f64 / den as f64, y as f64);
        }
        x *= 3.7;
    }
}

#[test]
fn no_ratio_for_what_is_no_finite_number() {
    assert_eq!(ratio(f32::NAN), None);
    assert_eq!(ratio(f32::INFINITY), None);
    assert_eq!(ratio(f32::NEG_INFINITY), None);
}

#[test]
fn no_ratio_where_it_does_not_fit() {
    assert_eq!(ratio(4611686018427387904.0), Some((1 << 62, 1)));
    assert_eq!(ratio(9223372036854775808.0), None);
    assert_eq!(ratio(-9223372036854775808.0), None);
    assert_eq!(ratio(f32::MAX), None);
    assert_eq!(ratio(1.0e30), None);
    let smallest_with_a_ratio = f32::from_bits((127 - 63) << 23);
    assert_eq!(ratio(smallest_with_a_ratio), Some((1, 1 << 63)));
    assert_eq!(ratio(smallest_with_a_ratio / 2.0), None);
    assert_eq!(ratio(smallest_with_a_ratio * 1.5), None);
    assert_eq!(ratio(f32::MIN_POSITIVE), None);
    assert_eq!(ratio(f32::from_bits(1)), None);
}

#[test]
fn level_orders_as_the_numbers_do() {
    let ascending = [
        f32::NEG_INFINITY,
        f32::MIN,
        -1.0e10,
        -2.5,
        -1.0,
        -f32::MIN_POSITIVE,
        -f32::from_bits(1),
        0.0,
        f32::from_bits(1),
        f32::MIN_POSITIVE,
        0.3,
        1.0,
        1.0000001,
        2.5,
        1.0e10,
        f32::MAX,
        f32::INFINITY,
    ];
    for i in 0..ascending.len() {
        for j in 0..ascending.len() {
            let (a, b) = (ascending[i], ascending[j]);
            assert_eq!(a < b, level_of_bits(a.to_bits()) < level_of_bits(b.to_bits()));
            assert_eq!(a == b, level_of_bits(a.to_bits()) == level_of_bits(b.to_bits()));
        }
    }
}

#[test]
fn level_of_the_two_zeros_is_the_same() {
    assert_eq!(level_of_bits(0.0f32.to_bits()), 0);
    assert_eq!(level_of_bits((-0.0f32).to_bits()), 0);
}

#[test]
fn level_of_what_is_no_number_is_the_lowest() {
    assert_eq!(level_of_bits(f32::NAN.to_bits()), i64::MIN);
    assert_eq!(level_of_bits((-f32::NAN).to_bits()), i64::MIN);
    assert!(level_of_bits(f32::NEG_INFINITY.to_bits()) > i64::MIN);
}

#[test]
fn level_of_given_patterns() {
    assert_eq!(level_of_bits(0x3f80_0000), 0x3f80_0000);
    assert_eq!(level_of_bits(0xbf80_0000), -0x3f80_0000);
    assert_eq!(level_of_bits(0x7f80_0000), 0x7f80_0000);
    assert_eq!(level_of_bits(0xff80_0000), -0x7f80_0000);
    assert_eq!(level_of_bits(0x7f80_0001), i64::MIN);
}
