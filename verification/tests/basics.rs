use trabant::add;
use trabant::coordinates::CoordinateError;
use trabant::observer::ObserverError;
use trabant::omm::{OmmError, OmmParser, UtcInstant};

#[test]
fn it_works() {
    let result = add(2, 2);
    assert_eq!(result, 4);
}

#[test]
fn error_messages() {
    assert_eq!(
        CoordinateError::EopDataError("x".to_string()).message(),
        "EOP data error: x"
    );
    assert_eq!(
        ObserverError::ComputationError("zero range".to_string()).message(),
        "Computation error: zero range"
    );
}

#[test]
fn test_invalid_epoch() {
    match OmmParser::parse_epoch("invalid-date") {
        Err(OmmError::InvalidEpoch(m)) => assert_eq!(m, "invalid-date"),
        _ => panic!("expected an invalid epoch"),
    }
}

#[test]
fn omm_epoch_is_read_as_utc() {
    let t = OmmParser::parse_epoch("2025-08-29T07:07:10.490112Z").unwrap();
    assert_eq!(t, UtcInstant { seconds: 1756451230, nanos: 490112000 });
    let t = OmmParser::parse_epoch("1970-01-01T01:00:00+01:00").unwrap();
    assert_eq!(t, UtcInstant { seconds: 0, nanos: 0 });
}

#[test]
fn epoch_from_a_given_reading() {
    assert_eq!(
        OmmParser::epoch_from_reading("x", Some((12, 34))).unwrap(),
        UtcInstant { seconds: 12, nanos: 34 }
    );
    match OmmParser::epoch_from_reading("2025-13-01", None) {
        Err(OmmError::InvalidEpoch(m)) => assert_eq!(m, "2025-13-01"),
        _ => panic!("expected an invalid epoch"),
    }
}
