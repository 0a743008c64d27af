use ogn_parser::decimal::Decimal;
use ogn_parser::status::AprsStatus;
use ogn_parser::timestamp::Timestamp;

fn dec(negative: bool, mantissa: u32, scale: u8) -> Option<Decimal> {
    Some(Decimal { negative, mantissa, scale })
}

#[test]
fn parse_with_timestamp_without_comment() {
    let result = AprsStatus::from_str("312359z".as_bytes()).unwrap();
    assert_eq!(result.timestamp, Timestamp::DDHHMM(31, 23, 59));
    assert_eq!(result.unparsed, None);
}

#[test]
fn parse_with_timestamp_and_comment() {
    let result = AprsStatus::from_str("235959hHi there!".as_bytes()).unwrap();
    assert_eq!(result.timestamp, Timestamp::HHMMSS(23, 59, 59));
    assert_eq!(result.unparsed.unwrap(), b"Hi there!".to_vec());
}

#[test]
fn status_too_short() {
    assert!(AprsStatus::from_str("000000".as_bytes()).is_err());
    // exactly the minimum length succeeds with every optional field empty
    let result = AprsStatus::from_str("000000h".as_bytes()).unwrap();
    assert_eq!(result.timestamp, Timestamp::HHMMSS(0, 0, 0));
    assert_eq!(result.version, None);
    assert_eq!(result.unparsed, None);
}

#[test]
fn status_test_sdr() {
    let result = AprsStatus::from_str(
        r"000000h v0.2.7.RPI-GPU CPU:0.7 RAM:770.2/968.2MB NTP:1.8ms/-3.3ppm +55.7C 7/8Acfts[1h] RF:+54-1.1ppm/-0.16dB/+7.1dB@10km[19481]/+16.8dB@10km[7/13]".as_bytes(),
    )
    .unwrap();
    assert_eq!(result.version, Some(b"0.2.7".to_vec()));
    assert_eq!(result.platform, Some(b"RPI-GPU".to_vec()));
    assert_eq!(result.cpu_load, dec(false, 7, 1));
    assert_eq!(result.ram_free, dec(false, 7702, 1));
    assert_eq!(result.ram_total, dec(false, 9682, 1));
    assert_eq!(result.ntp_offset, dec(false, 18, 1));
    assert_eq!(result.ntp_correction, dec(true, 33, 1));
    assert_eq!(result.voltage, None);
    assert_eq!(result.amperage, None);
    assert_eq!(result.cpu_temperature, dec(false, 557, 1));
    assert_eq!(result.visible_senders, Some(7));
    assert_eq!(result.senders, Some(8));
    assert_eq!(result.rf_correction_manual, Some(54));
    assert_eq!(result.rf_correction_automatic, dec(true, 11, 1));
    assert_eq!(result.noise, dec(true, 16, 2));
    assert_eq!(result.senders_signal_quality, dec(false, 71, 1));
    assert_eq!(result.senders_messages, Some(19481));
    assert_eq!(result.good_senders_signal_quality, dec(false, 168, 1));
    assert_eq!(result.good_senders, Some(7));
    assert_eq!(result.good_and_bad_senders, Some(13));
    assert_eq!(result.unparsed, None);
}

#[test]
fn status_test_rf_3() {
    let result = AprsStatus::from_str(r"000000h RF:+29+0.0ppm/+35.22dB".as_bytes()).unwrap();
    assert_eq!(result.rf_correction_manual, Some(29));
    assert_eq!(result.rf_correction_automatic, dec(false, 0, 1));
    assert_eq!(result.noise, dec(false, 3522, 2));
    assert_eq!(result.unparsed, None);
}

#[test]
fn status_test_rf_6() {
    let result =
        AprsStatus::from_str(r"000000h RF:+41+56.0ppm/-1.87dB/+0.1dB@10km[1928]".as_bytes())
            .unwrap();
    assert_eq!(result.rf_correction_manual, Some(41));
    assert_eq!(result.rf_correction_automatic, dec(false, 560, 1));
    assert_eq!(result.noise, dec(true, 187, 2));
    assert_eq!(result.senders_signal_quality, dec(false, 1, 1));
    assert_eq!(result.senders_messages, Some(1928));
    assert_eq!(result.unparsed, None);
}

#[test]
fn status_test_rf_10() {
    let result = AprsStatus::from_str(
        r"000000h RF:+54-1.1ppm/-0.16dB/+7.1dB@10km[19481]/+16.8dB@10km[7/13]".as_bytes(),
    )
    .unwrap();
    assert_eq!(result.rf_correction_manual, Some(54));
    assert_eq!(result.rf_correction_automatic, dec(true, 11, 1));
    assert_eq!(result.noise, dec(true, 16, 2));
    assert_eq!(result.senders_signal_quality, dec(false, 71, 1));
    assert_eq!(result.senders_messages, Some(19481));
    assert_eq!(result.good_senders_signal_quality, dec(false, 168, 1));
    assert_eq!(result.good_senders, Some(7));
    assert_eq!(result.good_and_bad_senders, Some(13));
    assert_eq!(result.unparsed, None);
}

#[test]
fn status_rf_wrong_value_count_degrades() {
    // four numeric runs match no radio-frequency form, so the token is kept
    let result = AprsStatus::from_str(r"000000h RF:+54-1.1ppm/2/3".as_bytes()).unwrap();
    assert_eq!(result.rf_correction_manual, None);
    assert_eq!(result.unparsed, Some(b"RF:+54-1.1ppm/2/3".to_vec()));
}
