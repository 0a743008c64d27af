use ogn_parser::decimal::Decimal;
use ogn_parser::status_comment::StatusComment;

fn dec(negative: bool, mantissa: u32, scale: u8) -> Option<Decimal> {
    Some(Decimal { negative, mantissa, scale })
}

fn sdr_expected() -> StatusComment {
    StatusComment {
        version: Some(b"0.2.7".to_vec()),
        platform: Some(b"RPI-GPU".to_vec()),
        cpu_load: dec(false, 7, 1),
        ram_free: dec(false, 7702, 1),
        ram_total: dec(false, 9682, 1),
        ntp_offset: dec(false, 18, 1),
        ntp_correction: dec(true, 33, 1),
        voltage: None,
        amperage: None,
        cpu_temperature: dec(false, 557, 1),
        visible_senders: Some(7),
        senders: Some(8),
        rf_correction_manual: Some(54),
        rf_correction_automatic: dec(true, 11, 1),
        noise: dec(true, 16, 2),
        senders_signal_quality: dec(false, 71, 1),
        senders_messages: Some(19481),
        good_senders_signal_quality: dec(false, 168, 1),
        good_senders: Some(7),
        good_and_bad_senders: Some(13),
        ..Default::default()
    }
}

#[test]
fn status_comment_test_sdr() {
    let result = StatusComment::from_str(
        "v0.2.7.RPI-GPU CPU:0.7 RAM:770.2/968.2MB NTP:1.8ms/-3.3ppm +55.7C 7/8Acfts[1h] RF:+54-1.1ppm/-0.16dB/+7.1dB@10km[19481]/+16.8dB@10km[7/13]".as_bytes(),
    );
    assert_eq!(result, sdr_expected());
}

#[test]
fn test_sdr_different_order() {
    let result = StatusComment::from_str(
        "NTP:1.8ms/-3.3ppm +55.7C CPU:0.7 RAM:770.2/968.2MB 7/8Acfts[1h] RF:+54-1.1ppm/-0.16dB/+7.1dB@10km[19481]/+16.8dB@10km[7/13] v0.2.7.RPI-GPU".as_bytes(),
    );
    assert_eq!(result, sdr_expected());
}

#[test]
fn status_comment_test_rf_3() {
    let result = StatusComment::from_str("RF:+29+0.0ppm/+35.22dB".as_bytes());
    assert_eq!(
        result,
        StatusComment {
            rf_correction_manual: Some(29),
            rf_correction_automatic: dec(false, 0, 1),
            noise: dec(false, 3522, 2),
            ..Default::default()
        }
    );
}

#[test]
fn status_comment_test_rf_6() {
    let result = StatusComment::from_str("RF:+41+56.0ppm/-1.87dB/+0.1dB@10km[1928]".as_bytes());
    assert_eq!(
        result,
        StatusComment {
            rf_correction_manual: Some(41),
            rf_correction_automatic: dec(false, 560, 1),
            noise: dec(true, 187, 2),
            senders_signal_quality: dec(false, 1, 1),
            senders_messages: Some(1928),
            ..Default::default()
        }
    );
}

#[test]
fn status_comment_test_rf_10() {
    let result = StatusComment::from_str(
        "RF:+54-1.1ppm/-0.16dB/+7.1dB@10km[19481]/+16.8dB@10km[7/13]".as_bytes(),
    );
    assert_eq!(
        result,
        StatusComment {
            rf_correction_manual: Some(54),
            rf_correction_automatic: dec(true, 11, 1),
            noise: dec(true, 16, 2),
            senders_signal_quality: dec(false, 71, 1),
            senders_messages: Some(19481),
            good_senders_signal_quality: dec(false, 168, 1),
            good_senders: Some(7),
            good_and_bad_senders: Some(13),
            ..Default::default()
        }
    );
}

#[test]
fn duplicate_voltage_goes_to_unparsed() {
    let result = StatusComment::from_str("12.3V 4.5V".as_bytes());
    assert_eq!(result.voltage, dec(false, 123, 1));
    assert_eq!(result.unparsed, Some(b"4.5V".to_vec()));
}

#[test]
fn version_with_dotted_platform() {
    // the platform name may itself contain no further dots than the three
    // that split the version; a fourth dot breaks the shape
    let result = StatusComment::from_str("v1.2.3.linux".as_bytes());
    assert_eq!(result.version, Some(b"1.2.3".to_vec()));
    assert_eq!(result.platform, Some(b"linux".to_vec()));
    let four = StatusComment::from_str("v1.2.3.4.linux".as_bytes());
    assert_eq!(four.version, None);
    assert_eq!(four.unparsed, Some(b"v1.2.3.4.linux".to_vec()));
}

#[test]
fn malformed_ram_degrades() {
    let result = StatusComment::from_str("RAM:x/968.2MB CPU:0.5".as_bytes());
    assert_eq!(result.ram_free, None);
    assert_eq!(result.ram_total, None);
    assert_eq!(result.cpu_load, dec(false, 5, 1));
    assert_eq!(result.unparsed, Some(b"RAM:x/968.2MB".to_vec()));
}

#[test]
fn latency_token() {
    let result = StatusComment::from_str("Lat:2.5s".as_bytes());
    assert_eq!(result.latency, dec(false, 25, 1));
    assert_eq!(result.unparsed, None);
}

#[test]
fn ntp_without_slash_degrades() {
    let result = StatusComment::from_str("NTP:1.8ms/x".as_bytes());
    assert_eq!(result.ntp_offset, None);
    assert_eq!(result.unparsed, Some(b"NTP:1.8ms/x".to_vec()));
}
