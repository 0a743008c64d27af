use ogn_parser::decimal::{parse_decimal, Decimal};
use ogn_parser::lonlat::{Latitude, Longitude};
use ogn_parser::timestamp::Timestamp;

#[test]
fn decimal_literals_parse_exactly() {
    assert_eq!(
        parse_decimal(b"-3.9"),
        Some(Decimal { negative: true, mantissa: 39, scale: 1 })
    );
    assert_eq!(
        parse_decimal(b"+0.0"),
        Some(Decimal { negative: false, mantissa: 0, scale: 1 })
    );
    assert_eq!(
        parse_decimal(b"35.22"),
        Some(Decimal { negative: false, mantissa: 3522, scale: 2 })
    );
    assert_eq!(
        parse_decimal(b"7"),
        Some(Decimal { negative: false, mantissa: 7, scale: 0 })
    );
    assert_eq!(parse_decimal(b""), None);
    assert_eq!(parse_decimal(b"1.2.3"), None);
    assert_eq!(parse_decimal(b"12a"), None);
    assert_eq!(parse_decimal(b"+"), None);
    assert_eq!(parse_decimal(b"1234567890"), None);
}

#[test]
fn timestamp_codec_round_trips() {
    assert_eq!(Timestamp::parse(b"074849h"), Some(Timestamp::HHMMSS(7, 48, 49)));
    assert_eq!(Timestamp::parse(b"312359z"), Some(Timestamp::DDHHMM(31, 23, 59)));
    // the local-time letter normalizes to day-and-time as well
    assert_eq!(Timestamp::parse(b"312359/"), Some(Timestamp::DDHHMM(31, 23, 59)));
    assert_eq!(Timestamp::parse(b"312359x"), None);
    assert_eq!(Timestamp::parse(b"3123599"), None);
    assert_eq!(Timestamp::parse(b"31a359z"), None);
    assert_eq!(Timestamp::HHMMSS(7, 48, 49).encode(), b"074849h".to_vec());
    assert_eq!(Timestamp::DDHHMM(31, 23, 59).encode(), b"312359z".to_vec());
    let t = Timestamp::parse(b"312359/").unwrap();
    assert_eq!(Timestamp::parse(&t.encode()), Some(t));
}

#[test]
fn latitude_codec() {
    let lat = Latitude::parse(b"4903.50N").unwrap();
    assert_eq!(lat.raw, 49 * 60000 + 3500);
    assert_eq!(lat.encode(), b"4903.50N".to_vec());
    let south = Latitude::parse(b"4903.50S").unwrap();
    assert_eq!(south.raw, -(49 * 60000 + 3500));
    assert_eq!(south.encode(), b"4903.50S".to_vec());
    assert_eq!(Latitude::parse(b"9100.00N"), None);
    assert_eq!(Latitude::parse(b"4903.50E"), None);
    assert_eq!(Latitude::parse(b"49x3.50N"), None);
    assert_eq!(Latitude::parse(b"4903.50"), None);
}

#[test]
fn longitude_codec() {
    let lon = Longitude::parse(b"07201.75W").unwrap();
    assert_eq!(lon.raw, -(72 * 60000 + 1750));
    assert_eq!(lon.encode(), b"07201.75W".to_vec());
    let east = Longitude::parse(b"01224.49E").unwrap();
    assert_eq!(east.raw, 12 * 60000 + 24490);
    assert_eq!(Longitude::parse(b"18100.00E"), None);
    assert_eq!(Longitude::parse(b"0722.75W"), None);
}

#[test]
fn precision_correction_is_bounded() {
    let lat = Latitude::parse(b"4903.50N").unwrap();
    let corrected = lat.with_precision(9);
    assert_eq!(corrected.raw, lat.raw + 9);
    // re-encoding rounds the nine-thousandths correction up
    assert_eq!(corrected.encode(), b"4903.51N".to_vec());
    let small = lat.with_precision(4);
    // a correction below half a hundredth rounds away
    assert_eq!(small.encode(), b"4903.50N".to_vec());
}
