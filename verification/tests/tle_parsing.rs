use trabant::tle::{ExponentialField, TleError, TleParser};

const HOTSAT1_TLE: &[&str] = &[
    "HOTSAT-1",
    "1 56954U 23084Y   25241.29664323  .00007163  00000+0  31780-3 0  9993",
    "2 56954  97.5868   7.4102 0005478 336.1866  23.9116 15.21880160122699",
];

fn as_f64(s: &str) -> f64 {
    s.parse().unwrap()
}

#[test]
fn test_parse_hotsat1_tle() {
    let elements = TleParser::parse(HOTSAT1_TLE).unwrap();

    assert_eq!(elements.name, "HOTSAT-1");
    assert_eq!(elements.norad_id, 56954);
    assert_eq!(elements.international_designator, "23084Y");
    assert!((as_f64(&elements.inclination) - 97.5868).abs() < 1e-6);
    assert!((as_f64(&elements.eccentricity) - 0.0005478).abs() < 1e-7);
    assert!((as_f64(&elements.mean_motion) - 15.21880160).abs() < 1e-8);
}

#[test]
fn test_checksum_validation() {
    // Valid checksum
    assert!(TleParser::validate_checksum(HOTSAT1_TLE[1], 1).is_ok());
    assert!(TleParser::validate_checksum(HOTSAT1_TLE[2], 2).is_ok());

    // Invalid checksum
    let bad_line = "1 56954U 23084Y   25241.29664323  .00007163  00000+0  31780-3 0  9990";
    assert!(TleParser::validate_checksum(bad_line, 1).is_err());
}

#[test]
fn test_invalid_tle_format() {
    let bad_tle = &["HOTSAT-1", "invalid line"];
    assert!(TleParser::parse(bad_tle).is_err());
}

#[test]
fn test_calculate_checksum() {
    let line1 = "1 56954U 23084Y   25241.29664323  .00007163  00000+0  31780-3 0  999";
    assert_eq!(TleParser::calculate_checksum(line1), 3);
}

#[test]
fn all_fields_of_hotsat1() {
    let r = TleParser::parse(HOTSAT1_TLE).unwrap();
    assert_eq!(r.classification, 'U');
    assert_eq!(r.epoch_year, 2025);
    assert_eq!(r.epoch_day, "241.29664323");
    assert_eq!(r.mean_motion_dot, ".00007163");
    match &r.mean_motion_ddot {
        ExponentialField::Scaled { negative, mantissa, exponent } => {
            assert!(!negative);
            assert_eq!(mantissa, "0.00000");
            assert_eq!(*exponent, 0);
        }
        ExponentialField::Zero => panic!("the field holds digits"),
    }
    match &r.bstar {
        ExponentialField::Scaled { negative, mantissa, exponent } => {
            assert!(!negative);
            assert_eq!(mantissa, "0.31780");
            assert_eq!(*exponent, -3);
        }
        ExponentialField::Zero => panic!("B* should not be zero"),
    }
    assert_eq!(r.ephemeris_type, 0);
    assert_eq!(r.element_set_number, 999);
    assert_eq!(r.inclination, "97.5868");
    assert_eq!(r.raan, "7.4102");
    assert_eq!(r.eccentricity, "0.0005478");
    assert_eq!(r.argument_of_perigee, "336.1866");
    assert_eq!(r.mean_anomaly, "23.9116");
    assert_eq!(r.mean_motion, "15.21880160");
    assert_eq!(r.revolution_number, 12269);
}

#[test]
fn wrong_line_count_and_length() {
    match TleParser::parse(&HOTSAT1_TLE[1..]) {
        Err(TleError::InvalidFormat(m)) => assert_eq!(m, "TLE must contain exactly 3 lines"),
        _ => panic!("expected a format error"),
    }
    let short = &["X", "1 56954U", HOTSAT1_TLE[2]];
    match TleParser::parse(short) {
        Err(TleError::InvalidFormat(m)) => {
            assert_eq!(m, "TLE lines must be exactly 69 characters")
        }
        _ => panic!("expected a format error"),
    }
}

#[test]
fn checksum_mismatch_reports_both_digits() {
    let bad = &[
        "HOTSAT-1",
        "1 56954U 23084Y   25241.29664323  .00007163  00000+0  31780-3 0  9990",
        HOTSAT1_TLE[2],
    ];
    match TleParser::parse(bad) {
        Err(TleError::ChecksumMismatch { expected, actual }) => {
            assert_eq!(expected, 0);
            assert_eq!(actual, 3);
        }
        _ => panic!("expected a checksum mismatch"),
    }
}

#[test]
fn bad_norad_id_is_a_parse_error() {
    // Checksum adjusted for the letter that replaces a digit.
    let line1 = "1 5695XU 23084Y   25241.29664323  .00007163  00000+0  31780-3 0  9999";
    let lines = &["X", line1, HOTSAT1_TLE[2]];
    match TleParser::parse(lines) {
        Err(TleError::ParseError(m)) => assert_eq!(m, "Invalid NORAD ID: '5695X'"),
        Err(TleError::ChecksumMismatch { expected, actual }) => {
            panic!("checksum {} {}", expected, actual)
        }
        _ => panic!("expected a parse error"),
    }
}

#[test]
fn bad_epoch_year_is_an_epoch_error() {
    let line1 = "1 56954U 23084Y   2X241.29664323  .00007163  00000+0  31780-3 0  9998";
    let lines = &["X", line1, HOTSAT1_TLE[2]];
    match TleParser::parse(lines) {
        Err(TleError::InvalidEpoch(m)) => assert_eq!(m, "Invalid year: '2X'"),
        Err(TleError::ChecksumMismatch { expected, actual }) => {
            panic!("checksum {} {}", expected, actual)
        }
        _ => panic!("expected an epoch error"),
    }
}

#[test]
fn parse_int_trims_and_reads_sign() {
    assert_eq!(TleParser::parse_int("  -42 ", "x").ok(), Some(-42));
    assert_eq!(TleParser::parse_int("+7", "x").ok(), Some(7));
    assert_eq!(TleParser::parse_int("2147483647", "x").ok(), Some(i32::MAX));
    assert_eq!(TleParser::parse_int("-2147483648", "x").ok(), Some(i32::MIN));
    match TleParser::parse_int("2147483648", "big") {
        Err(TleError::ParseError(m)) => assert_eq!(m, "Invalid big: '2147483648'"),
        _ => panic!("expected overflow error"),
    }
    assert!(TleParser::parse_int("-", "x").is_err());
    assert!(TleParser::parse_int("", "x").is_err());
    assert!(TleParser::parse_int("1 2", "x").is_err());
}

#[test]
fn parse_float_follows_the_literal_grammar() {
    assert_eq!(TleParser::parse_float(" 97.5868 ", "f").ok().as_deref(), Some("97.5868"));
    assert!(TleParser::parse_float("1e5", "f").is_ok());
    assert!(TleParser::parse_float("-.5E-3", "f").is_ok());
    assert!(TleParser::parse_float("inf", "f").is_ok());
    assert!(TleParser::parse_float("NaN", "f").is_ok());
    assert!(TleParser::parse_float("Infinity", "f").is_ok());
    assert!(TleParser::parse_float("1.", "f").is_ok());
    assert!(TleParser::parse_float(".", "f").is_err());
    assert!(TleParser::parse_float("1e", "f").is_err());
    assert!(TleParser::parse_float("1.2.3", "f").is_err());
    assert!(TleParser::parse_float("e5", "f").is_err());
    match TleParser::parse_float("abc", "inclination") {
        Err(TleError::ParseError(m)) => assert_eq!(m, "Invalid inclination: 'abc'"),
        _ => panic!("expected a parse error"),
    }
    for s in ["1e5", "-.5E-3", "inf", "NaN", "Infinity", "1.", "+0.0", "12"] {
        assert!(s.parse::<f64>().is_ok(), "{}", s);
    }
    for s in [".", "1e", "1.2.3", "e5", "abc", "+", "1e+"] {
        assert!(s.parse::<f64>().is_err(), "{}", s);
        assert!(TleParser::parse_float(s, "f").is_err(), "{}", s);
    }
}

#[test]
fn exponential_fields() {
    assert!(matches!(TleParser::parse_exponential("        ", "x"), Ok(ExponentialField::Zero)));
    assert!(matches!(TleParser::parse_exponential("   0    ", "x"), Ok(ExponentialField::Zero)));
    match TleParser::parse_exponential("-12345-5", "x") {
        Ok(ExponentialField::Scaled { negative, mantissa, exponent }) => {
            assert!(negative);
            assert_eq!(mantissa, "0.12345");
            assert_eq!(exponent, -5);
        }
        _ => panic!("expected a scaled value"),
    }
    match TleParser::parse_exponential(" 5", "B* drag term") {
        Err(TleError::ParseError(m)) => assert_eq!(m, "Invalid B* drag term format: '5'"),
        _ => panic!("expected a format error"),
    }
    match TleParser::parse_exponential("1x345-5", "x") {
        Err(TleError::ParseError(m)) => assert_eq!(m, "Invalid x mantissa: '1x345'"),
        _ => panic!("expected a mantissa error"),
    }
    match TleParser::parse_exponential("12345-x", "x") {
        Err(TleError::ParseError(m)) => assert_eq!(m, "Invalid x exponent: '-x'"),
        _ => panic!("expected an exponent error"),
    }
}

#[test]
fn epoch_years_wrap_at_57() {
    assert_eq!(TleParser::parse_epoch("56001.00000000").ok().map(|e| e.0), Some(2056));
    assert_eq!(TleParser::parse_epoch("57001.00000000").ok().map(|e| e.0), Some(1957));
    assert_eq!(TleParser::parse_epoch("00001.00000000").ok().map(|e| e.0), Some(2000));
    match TleParser::parse_epoch("25xyz.00000000") {
        Err(TleError::InvalidEpoch(m)) => assert_eq!(m, "Invalid day of year: 'xyz.00000000'"),
        _ => panic!("expected an epoch error"),
    }
}

#[test]
fn eccentricity_gets_implied_point() {
    assert_eq!(TleParser::parse_eccentricity(" 0005478").ok().as_deref(), Some("0.0005478"));
    match TleParser::parse_eccentricity("12-4567") {
        Err(TleError::ParseError(m)) => assert_eq!(m, "Invalid eccentricity: '12-4567'"),
        _ => panic!("expected a parse error"),
    }
}
