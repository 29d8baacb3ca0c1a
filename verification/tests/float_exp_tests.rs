use bot::float_exp::FloatExp;

/// Quantize a float at the given exponent, as the feed edge does.
fn from_f64(raw: f64, exp: i32) -> FloatExp {
    FloatExp::new((raw * 10f64.powi(-exp)).round() as i64, exp)
}

#[test]
fn test_float_exp() {
    let a = from_f64(1.234, -2);
    let b = from_f64(2.345, -2);
    let c = from_f64(3.579, -2);
    assert_eq!(a.add(b), c);
    assert_eq!(a.mul_i64(2), from_f64(2.46, -2));
    assert_eq!(a.div_round(FloatExp::new(2, 0), -2), from_f64(0.62, -2));
    assert_eq!(a.to_i64(), 1);
    assert_eq!(c.to_i64(), 4);
    let x = FloatExp::new(1, -2);
    assert_eq!(x.round(0).value, 0);
}

#[test]
fn test_normalization_equality() {
    // 0.01 is not 0.001
    assert_ne!(FloatExp::new(1, -2), FloatExp::new(1, -3));
    // 0.100 equals 0.10
    assert_eq!(FloatExp::new(100, -3), FloatExp::new(10, -2));
    // ordering normalizes too
    assert!(FloatExp::new(999, -3) < FloatExp::new(1, 0));
    assert!(FloatExp::new(11, -1) > FloatExp::new(1, 0));
}

#[test]
fn test_from_str_exact() {
    assert_eq!(FloatExp::from_str("1.234".to_string(), -2).unwrap(), FloatExp::new(123, -2));
    assert_eq!(FloatExp::from_str("-1.235".to_string(), -2).unwrap(), FloatExp::new(-124, -2));
    assert_eq!(FloatExp::from_str("+12".to_string(), 1).unwrap(), FloatExp::new(1, 1));
    assert_eq!(FloatExp::from_str(".5".to_string(), 0).unwrap(), FloatExp::new(1, 0));
    assert_eq!(FloatExp::from_str("4".to_string(), 0).unwrap(), FloatExp::new(4, 0));
    assert!(FloatExp::from_str("".to_string(), 0).is_err());
    assert!(FloatExp::from_str(".".to_string(), 0).is_err());
    assert!(FloatExp::from_str("1.2.3".to_string(), 0).is_err());
    assert!(FloatExp::from_str("12a".to_string(), 0).is_err());
}

#[test]
fn test_round_and_floor() {
    let a = FloatExp::new(1251, -3);
    assert_eq!(a.round(-2).value, 125);
    assert_eq!(a.round(-1).value, 13);
    assert_eq!(a.floor(-1).value, 12);
    let n = FloatExp::new(-1251, -3);
    assert_eq!(n.round(-2).value, -125);
    assert_eq!(n.round(-1).value, -13);
    assert_eq!(n.floor(-1).value, -13);
    // scaling to a finer exponent is exact
    assert_eq!(FloatExp::new(5, -1).round(-3).value, 500);
}

#[test]
fn test_min_exp_ops() {
    let a = FloatExp::new(15, -1);
    let b = FloatExp::new(25, -2);
    let s = a.min_exp_add(b);
    assert_eq!(s.exp, -2);
    assert_eq!(s.value, 175);
    let d = a.min_exp_sub(b);
    assert_eq!(d.value, 125);
}

#[test]
fn test_div_floor_exact() {
    // 1 / 3 floored at three decimal places
    let q = FloatExp::new(1, 0).div_floor(FloatExp::new(3, 0), -3);
    assert_eq!(q, FloatExp::new(333, -3));
    // and rounded
    let r = FloatExp::new(2, 0).div_round(FloatExp::new(3, 0), -3);
    assert_eq!(r, FloatExp::new(667, -3));
}

#[test]
fn test_abs_is_zero() {
    assert!(FloatExp::new(0, -5).is_zero());
    assert!(!FloatExp::new(3, -5).is_zero());
    assert_eq!(FloatExp::new(-7, -1).abs(), FloatExp::new(7, -1));
}

#[test]
fn test_float_exp_display() {
    assert_eq!(from_f64(1.234, -2).to_display_string(), "1.23");
    assert_eq!(from_f64(1.234, -3).to_display_string(), "1.234");
    assert_eq!(from_f64(1.234, -4).to_display_string(), "1.2340");
    assert_eq!(from_f64(1.234, 0).to_display_string(), "1");
    assert_eq!(FloatExp::new(5, 2).to_display_string(), "500");
    assert_eq!(FloatExp::new(-5, -1).to_display_string(), "-0.5");
    assert_eq!(FloatExp::new(0, -2).to_display_string(), "0.00");
}

#[test]
fn test_decimal_round_trip() {
    // parsing two-decimal text and rendering it back is the identity, and
    // the parsed mantissa agrees with quantizing the floating-point value
    for s in ["1.23", "0.05", "-3.99", "42.00"] {
        let v = FloatExp::from_str(s.to_string(), -2).unwrap();
        assert_eq!(v.to_display_string(), s);
        assert_eq!(v.value, (s.parse::<f64>().unwrap() * 100.0).round() as i64);
    }
}
