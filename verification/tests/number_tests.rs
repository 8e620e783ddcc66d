use marina::number::{
    digits_to_integer, equal, from_integer, is_nan, is_negative, is_whole, is_zero, less,
    less_equal, literal_value, magnitude, negate, ratio_to_double, to_byte, to_index,
    whole_saturating, whole_to_string, ONE,
};

fn samples() -> Vec<f64> {
    let mut values = vec![
        0.0,
        -0.0,
        1.0,
        -1.0,
        0.5,
        -0.5,
        0.1,
        1.5,
        2.0,
        3.0,
        -3.0,
        10.0,
        255.0,
        255.5,
        256.0,
        1e9,
        4294967295.0,
        4294967296.0,
        9007199254740991.0,
        9007199254740992.0,
        9007199254740994.0,
        1e15,
        1e16,
        1e18,
        9223372036854775807.0,
        9223372036854775808.0,
        -9223372036854775808.0,
        1.8446744073709552e19,
        1e20,
        -1e20,
        1e300,
        f64::MAX,
        f64::MIN,
        f64::MIN_POSITIVE,
        5e-324,
        -5e-324,
        f64::INFINITY,
        f64::NEG_INFINITY,
        f64::NAN,
        -f64::NAN,
        123456.789,
        -0.999999,
        0.9999999999999999,
        1.0000000000000002,
        4503599627370496.5,
        4503599627370497.0,
        2251799813685248.5,
    ];
    let mut seed: u64 = 0x2545F4914F6CDD1D;
    for _ in 0..2000 {
        seed ^= seed << 13;
        seed ^= seed >> 7;
        seed ^= seed << 17;
        values.push(f64::from_bits(seed));
        values.push((seed % 100_000) as f64 / 8.0);
        values.push(-((seed % 1_000_003) as f64));
    }
    values
}

#[test]
fn sign_and_class_follow_the_double() {
    for v in samples() {
        let bits = v.to_bits();
        assert_eq!(is_nan(bits), v.is_nan(), "{}", v);
        assert_eq!(is_zero(bits), v == 0.0, "{}", v);
        assert_eq!(is_negative(bits), v.is_sign_negative(), "{}", v);
        assert_eq!(magnitude(bits), v.abs().to_bits(), "{}", v);
        assert_eq!(negate(bits), (-v).to_bits(), "{}", v);
        assert_eq!(is_whole(bits), v.fract() == 0.0, "{}", v);
    }
}

#[test]
fn order_follows_the_double() {
    let values = samples();
    for (i, a) in values.iter().enumerate() {
        for b in values.iter().skip(i % 7).step_by(13) {
            let (x, y) = (a.to_bits(), b.to_bits());
            assert_eq!(equal(x, y), a == b, "{} == {}", a, b);
            assert_eq!(less(x, y), a < b, "{} < {}", a, b);
            assert_eq!(less_equal(x, y), a <= b, "{} <= {}", a, b);
        }
    }
    assert!(equal(0f64.to_bits(), (-0f64).to_bits()));
    assert!(!equal(f64::NAN.to_bits(), f64::NAN.to_bits()));
    assert!(less(1f64.to_bits(), 2f64.to_bits()));
    assert!(!less(2f64.to_bits(), 1f64.to_bits()));
    assert!(less((-2f64).to_bits(), (-1f64).to_bits()));
    assert!(!less((-0f64).to_bits(), 0f64.to_bits()));
}

#[test]
fn whole_parts_follow_the_casts() {
    for v in samples() {
        let bits = v.to_bits();
        assert_eq!(to_index(bits), v as usize, "{}", v);
        assert_eq!(to_byte(bits), v as u8, "{}", v);
        if !v.is_nan() {
            assert_eq!(whole_saturating(bits), v.abs() as u64, "{}", v);
        }
        if v.fract() == 0.0 {
            assert_eq!(whole_to_string(bits), format!("{}", v as i64), "{}", v);
        }
    }
    assert_eq!(to_index(3.99f64.to_bits()), 3);
    assert_eq!(to_index((-1f64).to_bits()), 0);
    assert_eq!(to_index(f64::NAN.to_bits()), 0);
    assert_eq!(to_index(f64::INFINITY.to_bits()), usize::MAX);
    assert_eq!(to_byte(300f64.to_bits()), 255);
    assert_eq!(whole_to_string(30f64.to_bits()), "30");
    assert_eq!(whole_to_string((-7f64).to_bits()), "-7");
    assert_eq!(whole_to_string((-0f64).to_bits()), "0");
    assert_eq!(whole_to_string(1e300f64.to_bits()), "9223372036854775807");
    assert_eq!(whole_to_string((-1e300f64).to_bits()), "-9223372036854775808");
}

#[test]
fn whole_numbers_become_the_nearest_double() {
    let mut values: Vec<u64> = vec![
        0,
        1,
        2,
        3,
        255,
        65,
        1 << 52,
        (1 << 53) - 1,
        1 << 53,
        (1 << 53) + 1,
        (1 << 53) + 2,
        (1 << 53) + 3,
        (1 << 54) + 2,
        (1 << 54) + 6,
        (1 << 60) + 127,
        (1 << 60) + 128,
        (1 << 60) + 129,
        (1 << 60) + 384,
        u64::MAX,
        u64::MAX - 1023,
        u64::MAX - 1024,
        u64::MAX - 2047,
        u64::MAX - 2048,
        1 << 63,
        (1 << 63) + 1024,
        (1 << 63) + 1025,
        (1 << 63) + 3072,
    ];
    let mut seed: u64 = 88172645463325252;
    for _ in 0..5000 {
        seed ^= seed << 13;
        seed ^= seed >> 7;
        seed ^= seed << 17;
        values.push(seed);
        values.push(seed >> (seed % 64));
    }
    for n in values {
        assert_eq!(from_integer(n), (n as f64).to_bits(), "{}", n);
    }
    assert_eq!(from_integer(1), ONE);
    assert_eq!(f64::from_bits(ONE), 1.0);
}

fn expected(text: &str) -> Option<u64> {
    Some(text.parse::<f64>().expect("a number").to_bits())
}

#[test]
fn literals_are_read_as_the_nearest_double() {
    for text in [
        "0", "0.0", "000", "1", "10", "0042", "3.14", "0.5", "0.1", "0.2", "0.3", "2.5",
        "123456.789", "9007199254740991", "9007199254740992", "9007199254740993",
        "9007199254740995", "18014398509481985", "999999999999999999", "0.000000000000000001",
        "0.0000000000000000001", "1.0000000000000000", "4503599627370496.5",
        "4503599627370497.5", "0.30000000000000004", "179769313486231570", "1.7976931348623157",
        "2.2250738585072014", "4.9406564584124654", "0.100000000000000005", "8.5", "255.75",
        "72057594037927945", "0.00000000000000000", "1.5707963267948966", "99999999.99999999",
    ] {
        assert_eq!(literal_value(text), expected(text), "{}", text);
    }
    let mut seed: u64 = 0x9E3779B97F4A7C15;
    for _ in 0..20000 {
        seed ^= seed << 13;
        seed ^= seed >> 7;
        seed ^= seed << 17;
        let digits = format!("{}", seed % 1_000_000_000_000_000_000);
        let places = ((seed >> 40) % 20) as usize;
        let text = if places == 0 {
            digits
        } else if places >= digits.len() {
            format!("0.{}{}", "0".repeat(places - digits.len()), digits)
        } else {
            format!("{}.{}", &digits[..digits.len() - places], &digits[digits.len() - places..])
        };
        let behind = text.find('.').map(|at| text.len() - at - 1).unwrap_or(0);
        let significant = text.replace('.', "").trim_start_matches('0').len();
        if significant <= 18 && behind <= 19 {
            assert_eq!(literal_value(&text), expected(&text), "{}", text);
        } else {
            assert_eq!(literal_value(&text), None, "{}", text);
        }
    }
}

#[test]
fn other_texts_are_no_literals() {
    assert_eq!(literal_value(""), None);
    assert_eq!(literal_value("."), None);
    assert_eq!(literal_value("1."), None);
    assert_eq!(literal_value(".5"), None);
    assert_eq!(literal_value("1.2.3"), None);
    assert_eq!(literal_value("1e5"), None);
    assert_eq!(literal_value("-1"), None);
    assert_eq!(literal_value("1 "), None);
    assert_eq!(literal_value("1000000000000000000"), None);
    assert_eq!(literal_value("0.1000000000000000055"), None);
    assert_eq!(literal_value("1.00000000000000000000"), None);
    assert_eq!(literal_value("99999999999999999999999999"), None);
    let chars: Vec<char> = "ab123cd".chars().collect();
    assert_eq!(digits_to_integer(&chars, 2, 5, 1000), Some(123));
    assert_eq!(digits_to_integer(&chars, 2, 5, 122), None);
    assert_eq!(digits_to_integer(&chars, 1, 5, 1000), None);
    assert_eq!(digits_to_integer(&chars, 3, 3, 1000), Some(0));
}

#[test]
fn ratios_become_the_nearest_double() {
    let mut seed: u64 = 0xD1B54A32D192ED03;
    for _ in 0..20000 {
        seed ^= seed << 13;
        seed ^= seed >> 7;
        seed ^= seed << 17;
        let n = (seed >> (seed % 64)).max(1);
        let d = 10u64.pow((seed % 20) as u32);
        let text = format!("{}e-{}", n, seed % 20);
        assert_eq!(ratio_to_double(n, d), text.parse::<f64>().expect("a number").to_bits(), "{}", text);
    }
    assert_eq!(ratio_to_double(1, 1), ONE);
    assert_eq!(ratio_to_double(1, 3), (1.0f64 / 3.0).to_bits());
    assert_eq!(ratio_to_double(u64::MAX, 1), (u64::MAX as f64).to_bits());
    assert_eq!(ratio_to_double(1, u64::MAX), (1.0 / u64::MAX as f64).to_bits());
    assert_eq!(ratio_to_double(u64::MAX, u64::MAX), ONE);
}
