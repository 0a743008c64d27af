use ogn_parser::decimal::Decimal;
use ogn_parser::position_comment::{AdditionalPrecision, ID, PositionComment};

fn dec(negative: bool, mantissa: u32, scale: u8) -> Option<Decimal> {
    Some(Decimal { negative, mantissa, scale })
}

#[test]
fn test_flr() {
    let result = PositionComment::from_str(
        "255/045/A=003399 !W03! id06DDFAA3 -613fpm -3.9rot 22.5dB 7e -7.0kHz gps3x7 s7.07 h41 rD002F8".as_bytes(),
    );
    assert_eq!(
        result,
        PositionComment {
            course: Some(255),
            speed: Some(45),
            altitude: Some(3399),
            additional_precision: Some(AdditionalPrecision { lat: 0, lon: 3 }),
            id: Some(ID {
                address_type: 2,
                aircraft_type: 1,
                is_stealth: false,
                is_notrack: false,
                address: u32::from_str_radix("DDFAA3", 16).unwrap(),
                reserved: None,
            }),
            climb_rate: Some(-613),
            turn_rate: dec(true, 39, 1),
            signal_quality: dec(false, 225, 1),
            error: Some(7),
            frequency_offset: dec(true, 70, 1),
            gps_quality: Some(b"3x7".to_vec()),
            software_version: dec(false, 707, 2),
            hardware_version: Some(65),
            original_address: Some(u32::from_str_radix("D002F8", 16).unwrap()),
            ..Default::default()
        }
    );
}

#[test]
fn test_trk() {
    let result = PositionComment::from_str(
        "200/073/A=126433 !W05! id15B50BBB +4237fpm +2.2rot FL1267.81 10.0dB 19e +23.8kHz gps36x55"
            .as_bytes(),
    );
    assert_eq!(
        result,
        PositionComment {
            course: Some(200),
            speed: Some(73),
            altitude: Some(126433),
            additional_precision: Some(AdditionalPrecision { lat: 0, lon: 5 }),
            id: Some(ID {
                address_type: 1,
                aircraft_type: 5,
                is_stealth: false,
                is_notrack: false,
                address: u32::from_str_radix("B50BBB", 16).unwrap(),
                reserved: None,
            }),
            climb_rate: Some(4237),
            turn_rate: dec(false, 22, 1),
            signal_quality: dec(false, 100, 1),
            error: Some(19),
            frequency_offset: dec(false, 238, 1),
            gps_quality: Some(b"36x55".to_vec()),
            flight_level: dec(false, 126781, 2),
            signal_power: None,
            software_version: None,
            hardware_version: None,
            original_address: None,
            unparsed: None,
        }
    );
}

#[test]
fn test_trk2() {
    let result = PositionComment::from_str(
        "000/000/A=002280 !W59! id07395004 +000fpm +0.0rot FL021.72 40.2dB -15.1kHz gps9x13 +15.8dBm".as_bytes(),
    );
    assert_eq!(
        result,
        PositionComment {
            course: Some(0),
            speed: Some(0),
            altitude: Some(2280),
            additional_precision: Some(AdditionalPrecision { lat: 5, lon: 9 }),
            id: Some(ID {
                address_type: 3,
                aircraft_type: 1,
                is_stealth: false,
                is_notrack: false,
                address: u32::from_str_radix("395004", 16).unwrap(),
                reserved: None,
            }),
            climb_rate: Some(0),
            turn_rate: dec(false, 0, 1),
            signal_quality: dec(false, 402, 1),
            frequency_offset: dec(true, 151, 1),
            gps_quality: Some(b"9x13".to_vec()),
            flight_level: dec(false, 2172, 2),
            signal_power: dec(false, 158, 1),
            ..Default::default()
        }
    );
}

#[test]
fn test_trk2_different_order() {
    // the non-positional tokens permuted: the field set is identical
    let result = PositionComment::from_str(
        "000/000/A=002280 !W59! -15.1kHz id07395004 +15.8dBm +0.0rot +000fpm FL021.72 40.2dB gps9x13".as_bytes(),
    );
    assert_eq!(
        result,
        PositionComment {
            course: Some(0),
            speed: Some(0),
            altitude: Some(2280),
            additional_precision: Some(AdditionalPrecision { lat: 5, lon: 9 }),
            id: Some(ID {
                address_type: 3,
                aircraft_type: 1,
                is_stealth: false,
                is_notrack: false,
                address: u32::from_str_radix("395004", 16).unwrap(),
                reserved: None,
            }),
            climb_rate: Some(0),
            turn_rate: dec(false, 0, 1),
            signal_quality: dec(false, 402, 1),
            frequency_offset: dec(true, 151, 1),
            gps_quality: Some(b"9x13".to_vec()),
            flight_level: dec(false, 2172, 2),
            signal_power: dec(false, 158, 1),
            ..Default::default()
        }
    );
}

#[test]
fn test_bad_gps() {
    let result = PositionComment::from_str(
        "208/063/A=003222 !W97! id06D017DC -395fpm -2.4rot 8.2dB -6.1kHz gps2xFLRD0".as_bytes(),
    );
    assert_eq!(result.frequency_offset, dec(true, 61, 1));
    assert_eq!(result.gps_quality.is_some(), false);
    assert_eq!(result.unparsed, Some(b"gps2xFLRD0".to_vec()));
}

#[test]
fn duplicate_token_goes_to_unparsed() {
    // only the first climb-rate token is captured; the second is preserved
    let result = PositionComment::from_str("100/045/A=003399 !W01! -613fpm +100fpm".as_bytes());
    assert_eq!(result.climb_rate, Some(-613));
    assert_eq!(result.unparsed, Some(b"+100fpm".to_vec()));
}

#[test]
fn extended_station_id() {
    // the twelve-character form: two detail bytes, the low four bits reserved
    let result = PositionComment::from_str("id1C4F3EB50B".as_bytes());
    assert_eq!(
        result.id,
        Some(ID {
            address_type: 4,
            aircraft_type: 7,
            is_stealth: false,
            is_notrack: false,
            address: 0x3EB50B,
            reserved: Some(0xF),
        })
    );
}

#[test]
fn unknown_tokens_degrade_gracefully() {
    // tokens matching no rule never abort the parse
    let result = PositionComment::from_str("hello ??? id0 FL 42".as_bytes());
    assert_eq!(result.unparsed, Some(b"hello ??? id0 FL 42".to_vec()));
    assert_eq!(result.id, None);
    assert_eq!(result.flight_level, None);
}

#[test]
fn malformed_course_token_degrades() {
    // sixteen characters but a course above 360: the whole token is kept
    let result = PositionComment::from_str("999/045/A=003399".as_bytes());
    assert_eq!(result.course, None);
    assert_eq!(result.speed, None);
    assert_eq!(result.altitude, None);
    assert_eq!(result.unparsed, Some(b"999/045/A=003399".to_vec()));
}

#[test]
fn altitude_only_first_token() {
    let result = PositionComment::from_str("/A=001000".as_bytes());
    assert_eq!(result.course, None);
    assert_eq!(result.altitude, Some(1000));
    assert_eq!(result.unparsed, None);
}
