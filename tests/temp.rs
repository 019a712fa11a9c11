use tempconv::decimal::Decimal;
use tempconv::temp::{ParseError, Temp};
use tempconv::unit::{InvalidUnit, Scale, TempUnit};

fn dec(mantissa: i128, scale: u32) -> Decimal {
    Decimal::new(mantissa, scale).unwrap()
}

fn unit(scale: Scale) -> TempUnit {
    TempUnit::new(scale)
}

fn outside(d: Decimal) -> rust_decimal::Decimal {
    rust_decimal::Decimal::from_i128_with_scale(d.mantissa(), d.scale())
}

#[test]
fn test_valid_temp() -> Result<(), ParseError> {
    Temp::parse("15C")?;
    Temp::parse("122314234K")?;
    Temp::parse("-347.4f")?;
    Ok(())
}

#[test]
#[should_panic]
fn test_invalid_tempunit() {
    Temp::parse("15d").unwrap();
}

#[test]
#[should_panic]
fn test_missing_tempunit() {
    Temp::parse("1234.614").unwrap();
}

#[test]
#[should_panic]
fn test_invalid_scalar() {
    Temp::parse("123sdafsd23445.4F").unwrap();
}

#[test]
fn test_to_celsius() {
    assert_eq!(
        Temp::new(dec(32, 0), unit(Scale::Fahrenheit)).to_celsius(),
        Temp::new(dec(0, 0), unit(Scale::Celsius))
    );
    assert_eq!(
        Temp::new(dec(23463, 2), unit(Scale::Kelvin)).to_celsius(),
        Temp::new(dec(-3852, 2), unit(Scale::Celsius))
    );
    assert_eq!(
        Temp::new(dec(-23457, 1), unit(Scale::Celsius)).to_celsius(),
        Temp::new(dec(-23457, 1), unit(Scale::Celsius))
    );
}

#[test]
fn test_to_fahrenheit() {
    assert_eq!(
        Temp::new(dec(-18, 0), unit(Scale::Celsius)).to_fahrenheit(),
        Temp::new(dec(-4, 1), unit(Scale::Fahrenheit))
    );
    assert_eq!(
        Temp::new(dec(38653675, 0), unit(Scale::Kelvin)).to_fahrenheit(),
        Temp::new(dec(6957615533, 2), unit(Scale::Fahrenheit))
    );
    assert_eq!(
        Temp::new(dec(12, 0), unit(Scale::Fahrenheit)).to_fahrenheit(),
        Temp::new(dec(12, 0), unit(Scale::Fahrenheit))
    );
}

#[test]
fn test_to_lord_kelvin() {
    assert_eq!(
        Temp::new(dec(25, 0), unit(Scale::Celsius)).to_kelvin(),
        Temp::new(dec(29815, 2), unit(Scale::Kelvin))
    );
    let got = Temp::new(dec(-2002, 0), unit(Scale::Fahrenheit)).to_kelvin().scalar;
    let want = Temp::new(dec(-85685, 2), unit(Scale::Kelvin)).scalar;
    assert!((outside(got) - outside(want)).abs() < rust_decimal::Decimal::new(1, 4));
    assert_eq!(
        Temp::new(dec(1, 4), unit(Scale::Kelvin)).to_kelvin(),
        Temp::new(dec(1, 4), unit(Scale::Kelvin))
    );
}

#[test]
fn parse_reads_number_and_unit() {
    let t = Temp::parse("234.63K").unwrap();
    assert_eq!(t.scalar.mantissa(), 23463);
    assert_eq!(t.scalar.scale(), 2);
    assert_eq!(t.unit.scale, Scale::Kelvin);
    assert_eq!(t.unit.to_char(), 'K');
    let lower = Temp::parse("-347.4f").unwrap();
    assert_eq!(lower.unit.to_char(), 'f');
    assert_eq!(lower.scalar.mantissa(), -3474);
}

#[test]
fn parse_trims_white_space_around_the_number() {
    let t = Temp::parse(" 15 C").unwrap();
    assert_eq!(t.scalar.mantissa(), 15);
    assert_eq!(t.scalar.scale(), 0);
}

#[test]
fn parse_empty_text_is_empty_error() {
    assert!(matches!(Temp::parse(""), Err(ParseError::Empty)));
}

#[test]
fn parse_without_unit_reports_the_letter() {
    match Temp::parse("1234.614") {
        Err(ParseError::Invalid { text, scalar_error, unit_error }) => {
            assert_eq!(text, "1234.614");
            assert!(scalar_error.is_none());
            assert_eq!(unit_error, Some(InvalidUnit { unit: '4' }));
        }
        other => panic!("unexpected {:?}", other),
    }
}

#[test]
fn parse_bad_unit_reports_the_letter() {
    match Temp::parse("15d") {
        Err(ParseError::Invalid { text, scalar_error, unit_error }) => {
            assert_eq!(text, "15d");
            assert!(scalar_error.is_none());
            assert_eq!(unit_error, Some(InvalidUnit { unit: 'd' }));
        }
        other => panic!("unexpected {:?}", other),
    }
}

#[test]
fn parse_bad_number_reports_the_number_error() {
    match Temp::parse("123sdafsd23445.4F") {
        Err(ParseError::Invalid { text, scalar_error, unit_error }) => {
            assert_eq!(text, "123sdafsd23445.4F");
            assert!(scalar_error.unwrap().len() > 0);
            assert_eq!(unit_error, None);
        }
        other => panic!("unexpected {:?}", other),
    }
}

#[test]
fn parse_bad_number_and_unit_reports_both() {
    match Temp::parse("abcx") {
        Err(ParseError::Invalid { scalar_error, unit_error, .. }) => {
            assert!(scalar_error.is_some());
            assert_eq!(unit_error, Some(InvalidUnit { unit: 'x' }));
        }
        other => panic!("unexpected {:?}", other),
    }
}

#[test]
fn unit_letters_in_either_case() {
    for (c, scale) in [
        ('C', Scale::Celsius),
        ('c', Scale::Celsius),
        ('F', Scale::Fahrenheit),
        ('f', Scale::Fahrenheit),
        ('K', Scale::Kelvin),
        ('k', Scale::Kelvin),
    ] {
        let u = TempUnit::try_from(c).unwrap();
        assert_eq!(u.scale, scale);
        assert_eq!(u.to_char(), c);
        assert_eq!(u.display(), c.to_string());
    }
    assert_eq!(TempUnit::try_from('x'), Err(InvalidUnit { unit: 'x' }));
    assert_eq!(TempUnit::try_from('c').unwrap(), TempUnit::try_from('C').unwrap());
}

#[test]
fn scenario_fahrenheit_to_celsius() {
    let t = Temp::parse("32F").unwrap().convert_to(Scale::Celsius);
    assert_eq!(t, Temp::new(dec(0, 0), unit(Scale::Celsius)));
    assert_eq!(t.unit.to_char(), 'C');
}

#[test]
fn scenario_kelvin_to_celsius() {
    let t = Temp::parse("234.63K").unwrap().convert_to(Scale::Celsius);
    assert_eq!(t, Temp::new(dec(-3852, 2), unit(Scale::Celsius)));
}

#[test]
fn scenario_celsius_to_fahrenheit() {
    let t = Temp::parse("-18C").unwrap().convert_to(Scale::Fahrenheit);
    assert_eq!(t, Temp::new(dec(-4, 1), unit(Scale::Fahrenheit)));
    assert_eq!(t.display(), "-0.4 F");
}

#[test]
fn scenario_celsius_to_kelvin() {
    let t = Temp::parse("25C").unwrap().convert_to(Scale::Kelvin);
    assert_eq!(t, Temp::new(dec(29815, 2), unit(Scale::Kelvin)));
    assert_eq!(t.display(), "298.15 K");
}

#[test]
fn remaining_formulas() {
    let k = Temp::new(dec(0, 0), unit(Scale::Kelvin)).convert_to(Scale::Fahrenheit);
    assert_eq!(k, Temp::new(dec(-45967, 2), unit(Scale::Fahrenheit)));
    let f = Temp::new(dec(-40, 0), unit(Scale::Fahrenheit)).convert_to(Scale::Celsius);
    assert_eq!(f, Temp::new(dec(-40, 0), unit(Scale::Celsius)));
}

#[test]
fn display_strips_trailing_zeros() {
    let t = Temp::new(dec(3200, 2), unit(Scale::Fahrenheit));
    assert_eq!(t.display(), "32 F");
    let u = Temp::new(dec(3250, 2), TempUnit::try_from('c').unwrap());
    assert_eq!(u.display(), "32.5 c");
    assert_eq!(Temp::new(dec(0, 3), unit(Scale::Kelvin)).display(), "0 K");
}

#[test]
fn identity_conversion_keeps_the_temperature() {
    for text in ["15C", "122314234K", "-347.4f", "0.000k", "32.00F"] {
        let t = Temp::parse(text).unwrap();
        let same = t.convert_to(t.unit.scale);
        assert_eq!(same.scalar.mantissa(), t.scalar.mantissa());
        assert_eq!(same.scalar.scale(), t.scalar.scale());
        assert_eq!(same.unit.to_char(), t.unit.to_char());
        assert_eq!(t.checked_convert_to(t.unit.scale).unwrap(), t);
    }
}

#[test]
fn celsius_kelvin_round_trip_is_exact() {
    for text in ["15C", "-273.15C", "0.0001C", "-1234567.891C"] {
        let t = Temp::parse(text).unwrap();
        let back = t.convert_to(Scale::Kelvin).convert_to(Scale::Celsius);
        assert_eq!(back, t);
    }
    let k = Temp::parse("12.5K").unwrap();
    assert_eq!(k.convert_to(Scale::Celsius).convert_to(Scale::Kelvin), k);
}

#[test]
fn conversion_overflow_is_none() {
    let huge = Temp::new(dec(0xFFFF_FFFF_FFFF_FFFF_FFFF_FFFF, 0), unit(Scale::Celsius));
    assert!(huge.checked_convert_to(Scale::Fahrenheit).is_none());
    assert!(huge.checked_convert_to(Scale::Kelvin).is_none());
    assert_eq!(huge.checked_convert_to(Scale::Celsius), Some(huge));
}

#[test]
fn decimal_range() {
    assert!(Decimal::new(0xFFFF_FFFF_FFFF_FFFF_FFFF_FFFF, 28).is_some());
    assert!(Decimal::new(0x1_0000_0000_0000_0000_0000_0000, 0).is_none());
    assert!(Decimal::new(1, 29).is_none());
    assert_eq!(dec(150, 2), dec(15, 1));
    assert_ne!(dec(150, 2), dec(15, 2));
}

#[test]
fn fahrenheit_round_trips_are_exact() {
    for text in ["1C", "-18C", "36.6C", "0.0001C"] {
        let t = Temp::parse(text).unwrap();
        let back = t.convert_to(Scale::Fahrenheit).convert_to(Scale::Celsius);
        assert_eq!(back, t);
    }
    for text in ["1K", "234.63K", "0.0001K", "38653675K"] {
        let t = Temp::parse(text).unwrap();
        let back = t.convert_to(Scale::Fahrenheit).convert_to(Scale::Kelvin);
        assert_eq!(back, t);
    }
    let c = Temp::parse("15C").unwrap();
    let cycle = c
        .convert_to(Scale::Fahrenheit)
        .convert_to(Scale::Kelvin)
        .convert_to(Scale::Celsius);
    assert_eq!(cycle, c);
}

#[test]
fn fahrenheit_formulas_are_exact() {
    let c = Temp::parse("50F").unwrap().convert_to(Scale::Celsius);
    assert_eq!(c, Temp::new(dec(10, 0), unit(Scale::Celsius)));
    assert_eq!(c.display(), "10 C");
    let k = Temp::parse("-2002F").unwrap().convert_to(Scale::Kelvin);
    assert_eq!(k, Temp::new(dec(-85685, 2), unit(Scale::Kelvin)));
    let f = Temp::parse("32F").unwrap().convert_to(Scale::Kelvin);
    assert_eq!(f, Temp::new(dec(27315, 2), unit(Scale::Kelvin)));
}

#[test]
fn parse_error_carries_the_decimal_message() {
    let want = <rust_decimal::Decimal as std::str::FromStr>::from_str("123sdafsd23445.4")
        .unwrap_err()
        .to_string();
    match Temp::parse("123sdafsd23445.4F") {
        Err(ParseError::Invalid { scalar_error, .. }) => assert_eq!(scalar_error, Some(want)),
        other => panic!("unexpected {:?}", other),
    }
}
