use am4::airport::{AirportError, Iata, Icao, Id, Name};

#[test]
fn test_airport_id_valid() {
    let id = Id::from_str("3500").unwrap();
    assert_eq!(id.get(), 3500);
    assert_eq!(Id::from_str("0").unwrap().get(), 0);
    assert_eq!(Id::from_str("65535").unwrap().get(), 65535);
}

#[test]
fn test_airport_id_invalid() {
    assert!(matches!(Id::from_str(""), Err(AirportError::InvalidID)));
    assert!(matches!(Id::from_str("12a"), Err(AirportError::InvalidID)));
    assert!(matches!(Id::from_str("65536"), Err(AirportError::InvalidID)));
    assert!(matches!(Id::from_str("-1"), Err(AirportError::InvalidID)));
}

#[test]
fn test_airport_name_valid() {
    let n = Name::from_str("Hong Kong International").unwrap();
    assert_eq!(n.as_str(), "Hong Kong International");
    assert_eq!(Name::from_str("X").unwrap().as_str(), "X");
    let forty = "a".repeat(40);
    assert_eq!(Name::from_str(&forty).unwrap().as_str(), forty);
}

#[test]
fn test_airport_name_invalid() {
    assert!(matches!(Name::from_str(""), Err(AirportError::InvalidName)));
    let too_long = "a".repeat(41);
    assert!(matches!(Name::from_str(&too_long), Err(AirportError::InvalidName)));
}

#[test]
fn test_airport_lengths_are_bytes() {
    // lengths are UTF-8 byte counts, not character counts
    let twenty_one_chars_42_bytes = "\u{e9}".repeat(21);
    assert!(matches!(
        Name::from_str(&twenty_one_chars_42_bytes),
        Err(AirportError::InvalidName)
    ));
    let twenty_chars_40_bytes = "\u{e9}".repeat(20);
    assert!(Name::from_str(&twenty_chars_40_bytes).is_ok());
    assert!(Iata::from_str("\u{e9}a").is_ok()); // 2 chars, 3 bytes
    assert!(matches!(Iata::from_str("\u{e9}\u{e9}"), Err(AirportError::InvalidIata))); // 4 bytes
    assert!(Icao::from_str("\u{e9}\u{e9}").is_ok()); // 2 chars, 4 bytes
    assert!(matches!(Icao::from_str("\u{e9}abc"), Err(AirportError::InvalidIcao))); // 4 chars, 5 bytes
}

#[test]
fn test_airport_iata() {
    assert_eq!(Iata::from_str("HKG").unwrap().as_str(), "HKG");
    assert!(matches!(Iata::from_str("HK"), Err(AirportError::InvalidIata)));
    assert!(matches!(Iata::from_str("HKGX"), Err(AirportError::InvalidIata)));
    assert!(matches!(Iata::from_str(""), Err(AirportError::InvalidIata)));
}

#[test]
fn test_airport_icao() {
    assert_eq!(Icao::from_str("VHHH").unwrap().as_str(), "VHHH");
    assert!(matches!(Icao::from_str("VHH"), Err(AirportError::InvalidIcao)));
    assert!(matches!(Icao::from_str("VHHHX"), Err(AirportError::InvalidIcao)));
}
