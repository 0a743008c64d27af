use ogn_parser::error::AprsError;
use ogn_parser::position::AprsPosition;
use ogn_parser::position_comment::PositionComment;
use ogn_parser::timestamp::Timestamp;

fn degrees(raw: i32) -> f64 {
    raw as f64 / 60000.0
}

#[test]
fn parse_without_timestamp_or_messaging() {
    let result = AprsPosition::from_str(r"!4903.50N/07201.75W-".as_bytes()).unwrap();
    assert_eq!(result.timestamp, None);
    assert_eq!(result.messaging_supported, false);
    assert!((degrees(result.latitude.raw) - 49.05833333333333).abs() < 1e-9);
    assert!((degrees(result.longitude.raw) - -72.02916666666667).abs() < 1e-9);
    assert_eq!(result.symbol_table, b'/');
    assert_eq!(result.symbol_code, b'-');
    assert_eq!(result.comment, PositionComment::default());
}

#[test]
fn parse_with_comment() {
    let result = AprsPosition::from_str(r"!4903.50N/07201.75W-Hello/A=001000".as_bytes()).unwrap();
    assert_eq!(result.timestamp, None);
    assert!((degrees(result.latitude.raw) - 49.05833333333333).abs() < 1e-9);
    assert!((degrees(result.longitude.raw) - -72.02916666666667).abs() < 1e-9);
    assert_eq!(result.symbol_table, b'/');
    assert_eq!(result.symbol_code, b'-');
    assert_eq!(result.comment.unparsed.unwrap(), b"Hello/A=001000".to_vec());
}

#[test]
fn parse_with_timestamp_without_messaging() {
    let result =
        AprsPosition::from_str(r"/074849h4821.61N\01224.49E^322/103/A=003054".as_bytes()).unwrap();
    assert_eq!(result.timestamp, Some(Timestamp::HHMMSS(7, 48, 49)));
    assert_eq!(result.messaging_supported, false);
    assert!((degrees(result.latitude.raw) - 48.36016666666667).abs() < 1e-9);
    assert!((degrees(result.longitude.raw) - 12.408166666666666).abs() < 1e-9);
    assert_eq!(result.symbol_table, b'\\');
    assert_eq!(result.symbol_code, b'^');
    assert_eq!(result.comment.altitude.unwrap(), 3054);
    assert_eq!(result.comment.course.unwrap(), 322);
    assert_eq!(result.comment.speed.unwrap(), 103);
}

#[test]
fn parse_without_timestamp_with_messaging() {
    let result = AprsPosition::from_str(r"=4903.50N/07201.75W-".as_bytes()).unwrap();
    assert_eq!(result.timestamp, None);
    assert_eq!(result.messaging_supported, true);
    assert!((degrees(result.latitude.raw) - 49.05833333333333).abs() < 1e-9);
    assert!((degrees(result.longitude.raw) - -72.02916666666667).abs() < 1e-9);
    assert_eq!(result.symbol_table, b'/');
    assert_eq!(result.symbol_code, b'-');
    assert_eq!(result.comment, PositionComment::default());
}

#[test]
fn parse_with_timestamp_and_messaging() {
    let result =
        AprsPosition::from_str(r"@074849h4821.61N\01224.49E^322/103/A=003054".as_bytes()).unwrap();
    assert_eq!(result.timestamp, Some(Timestamp::HHMMSS(7, 48, 49)));
    assert_eq!(result.messaging_supported, true);
    assert!((degrees(result.latitude.raw) - 48.36016666666667).abs() < 1e-9);
    assert!((degrees(result.longitude.raw) - 12.408166666666666).abs() < 1e-9);
    assert_eq!(result.symbol_table, b'\\');
    assert_eq!(result.symbol_code, b'^');
    assert_eq!(result.comment.altitude.unwrap(), 3054);
    assert_eq!(result.comment.course.unwrap(), 322);
    assert_eq!(result.comment.speed.unwrap(), 103);
}

#[test]
fn test_input_string_too_short() {
    let result = AprsPosition::from_str("/13244".as_bytes());
    assert!(result.is_err(), "Short input string should return an error");
}

#[test]
fn unknown_marker_is_rejected() {
    let result = AprsPosition::from_str(r"x4903.50N/07201.75W-".as_bytes());
    assert_eq!(
        result,
        Err(AprsError::InvalidPosition(b"x4903.50N/07201.75W-".to_vec()))
    );
}

#[test]
fn bad_timestamp_letter_is_rejected() {
    let result = AprsPosition::from_str(r"@074849x4821.61N\01224.49E^".as_bytes());
    assert_eq!(result, Err(AprsError::InvalidTimestamp(b"074849x".to_vec())));
}

#[test]
fn compressed_format_is_rejected() {
    let result = AprsPosition::from_str(r"!/ABCD1234EFGH5678-".as_bytes());
    assert_eq!(
        result,
        Err(AprsError::UnsupportedPositionFormat(
            b"/ABCD1234EFGH5678-".to_vec()
        ))
    );
}

#[test]
fn boundary_lengths_without_timestamp() {
    // one byte below the checked minimum of 19
    assert!(AprsPosition::from_str(r"!4903.50N/07201.75".as_bytes()).is_err());
    // at the checked minimum the symbol code byte is still missing
    assert!(AprsPosition::from_str(r"!4903.50N/07201.75W".as_bytes()).is_err());
    // the shortest complete envelope succeeds with every optional field empty
    let result = AprsPosition::from_str(r"!4903.50N/07201.75W-".as_bytes()).unwrap();
    assert_eq!(result.comment, PositionComment::default());
}

#[test]
fn boundary_lengths_with_timestamp() {
    assert!(AprsPosition::from_str(r"@074849h4821.61N\01224.49".as_bytes()).is_err());
    assert!(AprsPosition::from_str(r"@074849h4821.61N\01224.49E".as_bytes()).is_err());
    let result = AprsPosition::from_str(r"@074849h4821.61N\01224.49E^".as_bytes()).unwrap();
    assert_eq!(result.comment, PositionComment::default());
    assert_eq!(result.timestamp, Some(Timestamp::HHMMSS(7, 48, 49)));
}

#[test]
fn encode_round_trip() {
    let decoded =
        AprsPosition::from_str(r"@074849h4821.61N\01224.49E^322/103/A=003054".as_bytes()).unwrap();
    let encoded = decoded.encode();
    // comment fields are not re-encoded
    assert_eq!(encoded, br"@074849h4821.61N\01224.49E^".to_vec());
    let again = AprsPosition::from_str(&encoded).unwrap();
    assert_eq!(again.timestamp, decoded.timestamp);
    assert_eq!(again.messaging_supported, decoded.messaging_supported);
    assert_eq!(again.latitude, decoded.latitude);
    assert_eq!(again.longitude, decoded.longitude);
    assert_eq!(again.symbol_table, decoded.symbol_table);
    assert_eq!(again.symbol_code, decoded.symbol_code);
}

#[test]
fn encode_round_trip_with_precision() {
    // the !W03! token shifts longitude by 3/60000 degree; re-encoding
    // rounds back to the text's resolution
    let decoded = AprsPosition::from_str(r"!4903.50N/07201.75W-100/045/A=003399 !W03!".as_bytes())
        .unwrap();
    assert_eq!(decoded.longitude.raw, -(72 * 60000 + 1750) + 3);
    let encoded = decoded.encode();
    // the three-thousandths correction rounds away, back to 01.75 minutes
    assert_eq!(encoded, br"!4903.50N/07201.75W-".to_vec());
    let again = AprsPosition::from_str(&encoded).unwrap();
    assert!((again.longitude.raw - decoded.longitude.raw).abs() <= 5);
    assert_eq!(again.latitude, decoded.latitude);
}

#[test]
fn encode_rounds_half_up() {
    // a seven-thousandths correction rounds to the next hundredth of a minute
    let decoded = AprsPosition::from_str(r"!4903.50N/07201.75E-100/045/A=003399 !W07!".as_bytes())
        .unwrap();
    assert_eq!(decoded.longitude.raw, 72 * 60000 + 1750 + 7);
    let encoded = decoded.encode();
    assert_eq!(encoded, br"!4903.50N/07201.76E-".to_vec());
    let again = AprsPosition::from_str(&encoded).unwrap();
    assert!((again.longitude.raw - decoded.longitude.raw).abs() <= 5);
}
