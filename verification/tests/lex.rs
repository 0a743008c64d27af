use ogn_parser::lex::{extract_values, parse_i16, parse_uint, split_value_unit, tokenize};

#[test]
fn tokenize_splits_on_whitespace_runs() {
    let toks = tokenize(b"  one \t two\r\nthree  ");
    let toks: Vec<&[u8]> = toks.iter().map(|t| t.as_slice()).collect();
    assert_eq!(toks, vec![&b"one"[..], &b"two"[..], &b"three"[..]]);
    assert!(tokenize(b"   ").is_empty());
    assert!(tokenize(b"").is_empty());
}

#[test]
fn unsigned_parse_accepts_plus_and_rejects_junk() {
    assert_eq!(parse_uint(b"045", 65535), Some(45));
    assert_eq!(parse_uint(b"+45", 65535), Some(45));
    assert_eq!(parse_uint(b"65536", 65535), None);
    assert_eq!(parse_uint(b"", 65535), None);
    assert_eq!(parse_uint(b"+", 65535), None);
    assert_eq!(parse_uint(b"4x5", 65535), None);
    assert_eq!(parse_uint(b"00000000000000019481", u32::MAX), Some(19481));
}

#[test]
fn signed_parse_covers_the_i16_range() {
    assert_eq!(parse_i16(b"-613"), Some(-613));
    assert_eq!(parse_i16(b"+54"), Some(54));
    assert_eq!(parse_i16(b"-32768"), Some(i16::MIN));
    assert_eq!(parse_i16(b"32768"), None);
    assert_eq!(parse_i16(b"--1"), None);
}

#[test]
fn value_unit_split_points() {
    let t = b"-613fpm";
    assert_eq!(split_value_unit(t), Some(4));
    assert_eq!(split_value_unit(b"+15.8dBm"), Some(5));
    assert_eq!(split_value_unit(b"7e"), Some(1));
    // no digit, no unit, or a stray character in between
    assert_eq!(split_value_unit(b"fpm"), None);
    assert_eq!(split_value_unit(b"-613"), None);
    assert_eq!(split_value_unit(b"12a3dB"), None);
    assert_eq!(split_value_unit(b"7/8Acfts[1h]"), None);
}

#[test]
fn extract_values_finds_signed_numeric_runs() {
    let vals = extract_values(b"RF:+54-1.1ppm/-0.16dB/+7.1dB@10km[19481]/+16.8dB@10km[7/13]");
    let vals: Vec<&[u8]> = vals.iter().map(|v| v.as_slice()).collect();
    assert_eq!(
        vals,
        vec![
            &b"+54"[..],
            &b"-1.1"[..],
            &b"-0.16"[..],
            &b"+7.1"[..],
            &b"10"[..],
            &b"19481"[..],
            &b"+16.8"[..],
            &b"10"[..],
            &b"7"[..],
            &b"13"[..],
        ]
    );
    let three = extract_values(b"RF:+29+0.0ppm/+35.22dB");
    assert_eq!(three.len(), 3);
}
