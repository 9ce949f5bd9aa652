use tempguess::rational::Rat;
use tempguess::temperature::{ParseError, TempUnit, Temperature};

fn approx(r: &Rat) -> f64 {
    r.num as f64 / r.den as f64
}

#[test]
fn test_parse_temperature() {
    assert_eq!(
        Temperature::from_str("100C").unwrap(),
        Temperature::new(Rat::from_int(100), TempUnit::Celsius)
    );
    assert_eq!(
        Temperature::from_str("32F").unwrap(),
        Temperature::new(Rat::from_int(32), TempUnit::Fahrenheit)
    );
    assert_eq!(
        Temperature::from_str("273.15K").unwrap(),
        Temperature::new(Rat::new(27315, 100), TempUnit::Kelvin)
    );
    assert_eq!(
        Temperature::from_str("0").unwrap(),
        Temperature::new(Rat::from_int(0), TempUnit::Celsius)
    );
}

#[test]
fn test_to_celsius() {
    let t = Temperature::new(Rat::from_int(32), TempUnit::Fahrenheit);
    assert!((approx(&t.to_celsius()) - 0.0).abs() < 1e-6);
    let t = Temperature::new(Rat::new(27315, 100), TempUnit::Kelvin);
    assert!((approx(&t.to_celsius()) - 0.0).abs() < 1e-6);
}

#[test]
fn test_to_fahrenheit() {
    let t = Temperature::new(Rat::from_int(0), TempUnit::Celsius);
    assert!((approx(&t.to_fahrenheit()) - 32.0).abs() < 1e-6);
    let t = Temperature::new(Rat::new(27315, 100), TempUnit::Kelvin);
    assert!((approx(&t.to_fahrenheit()) - 32.0).abs() < 1e-6);
}

#[test]
fn test_to_kelvin() {
    let t = Temperature::new(Rat::from_int(0), TempUnit::Celsius);
    assert!((approx(&t.to_kelvin()) - 273.15).abs() < 1e-6);
    let t = Temperature::new(Rat::from_int(32), TempUnit::Fahrenheit);
    assert!((approx(&t.to_kelvin()) - 273.15).abs() < 1e-6);
}

#[test]
fn test_invalid_input() {
    assert!(Temperature::from_str("abc").is_err());
    assert!(Temperature::from_str("100X").is_err());
}

#[test]
fn test_fixed_points_exact() {
    let c100 = Temperature::new(Rat::from_int(100), TempUnit::Celsius);
    assert!(c100.to_fahrenheit().eq_rat(&Rat::from_int(212)));
    let c0 = Temperature::new(Rat::from_int(0), TempUnit::Celsius);
    assert!(c0.to_kelvin().eq_rat(&Rat::new(27315, 100)));
    let f_32 = Temperature::new(Rat::from_int(32), TempUnit::Fahrenheit);
    assert!(f_32.to_celsius().eq_rat(&Rat::from_int(0)));
}

#[test]
fn test_round_trip_is_exact() {
    let v = Rat::new(255, 10);
    let f = Temperature::new(v, TempUnit::Celsius).to_fahrenheit();
    let back = Temperature::new(f, TempUnit::Fahrenheit).to_celsius();
    assert!(back.eq_rat(&v));
    assert!((approx(&back) - 25.5).abs() < 1e-6);
    let k = Temperature::new(v, TempUnit::Celsius).to_kelvin();
    let back = Temperature::new(k, TempUnit::Kelvin).to_celsius();
    assert!(back.eq_rat(&v));
    assert!((approx(&back) - 25.5).abs() < 1e-6);
}

#[test]
fn test_unit_tokens() {
    assert_eq!(TempUnit::from_str("c"), Ok(TempUnit::Celsius));
    assert_eq!(TempUnit::from_str("C"), Ok(TempUnit::Celsius));
    assert_eq!(TempUnit::from_str("\u{2103}"), Ok(TempUnit::Celsius));
    assert_eq!(TempUnit::from_str("f"), Ok(TempUnit::Fahrenheit));
    assert_eq!(TempUnit::from_str("F"), Ok(TempUnit::Fahrenheit));
    assert_eq!(TempUnit::from_str("\u{2109}"), Ok(TempUnit::Fahrenheit));
    assert_eq!(TempUnit::from_str("k"), Ok(TempUnit::Kelvin));
    assert_eq!(TempUnit::from_str("K"), Ok(TempUnit::Kelvin));
    assert_eq!(TempUnit::from_str("\u{212A}"), Ok(TempUnit::Kelvin));
    assert_eq!(TempUnit::from_str("x"), Err(()));
    assert_eq!(TempUnit::from_str(""), Err(()));
    assert_eq!(TempUnit::from_str("cc"), Err(()));
}

#[test]
fn test_parse_unit_suffixes() {
    let t = Temperature::from_str("100\u{2103}").unwrap();
    assert_eq!(t.unit, TempUnit::Celsius);
    let t = Temperature::from_str(" 100 F ").unwrap();
    assert_eq!(t.unit, TempUnit::Fahrenheit);
    assert!(t.value.eq_rat(&Rat::from_int(100)));
    let t = Temperature::from_str("\t0k\n").unwrap();
    assert_eq!(t.unit, TempUnit::Kelvin);
}

#[test]
fn test_parse_negative_value() {
    let t = Temperature::from_str("-40").unwrap();
    assert_eq!(t.unit, TempUnit::Celsius);
    assert!(t.value.eq_rat(&Rat::from_int(-40)));
    // -40 is the fixed point of the Celsius/Fahrenheit pair.
    assert!(t.to_fahrenheit().eq_rat(&Rat::from_int(-40)));
}

#[test]
fn test_parse_numeric_errors() {
    assert_eq!(Temperature::from_str("abc"), Err(ParseError::NumericFormat));
    assert_eq!(Temperature::from_str(""), Err(ParseError::NumericFormat));
    assert_eq!(Temperature::from_str("."), Err(ParseError::NumericFormat));
    assert_eq!(Temperature::from_str("-"), Err(ParseError::NumericFormat));
    assert_eq!(Temperature::from_str("--5"), Err(ParseError::NumericFormat));
    assert_eq!(Temperature::from_str("1.2.3"), Err(ParseError::NumericFormat));
    assert_eq!(Temperature::from_str("12-3F"), Err(ParseError::NumericFormat));
}

#[test]
fn test_parse_unknown_unit_error() {
    assert_eq!(Temperature::from_str("100X"), Err(ParseError::UnknownUnit));
    assert_eq!(Temperature::from_str("1e5"), Err(ParseError::UnknownUnit));
    assert_eq!(Temperature::from_str("20 degrees"), Err(ParseError::UnknownUnit));
}

#[test]
fn test_parse_digit_cap() {
    let t = Temperature::from_str("123456789012").unwrap();
    assert!(t.value.eq_rat(&Rat::from_int(123456789012)));
    assert_eq!(
        Temperature::from_str("1234567890123"),
        Err(ParseError::NumericFormat)
    );
}

#[test]
fn test_parse_fraction_forms() {
    let t = Temperature::from_str(".5").unwrap();
    assert!(t.value.eq_rat(&Rat::new(5, 10)));
    let t = Temperature::from_str("1.").unwrap();
    assert!(t.value.eq_rat(&Rat::from_int(1)));
    let t = Temperature::from_str("-.25f").unwrap();
    assert_eq!(t.unit, TempUnit::Fahrenheit);
    assert!(t.value.eq_rat(&Rat::new(-25, 100)));
}
