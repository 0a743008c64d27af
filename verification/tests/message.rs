use ogn_parser::message::Message;

#[test]
fn full_packet_with_position_payload() {
    let line = r"ICA3D17F2>APRS,qAS,dl4mea:/074849h4821.61N\01224.49E^322/103/A=003054 id06DDFAA3 -613fpm";
    let msg = Message::from_str(line.as_bytes());
    assert_eq!(msg.raw_string, line.as_bytes().to_vec());
    assert!(msg.aprs_packet.is_ok());
    let pc = msg.position_comment.expect("position payload decodes comment fields");
    assert_eq!(pc.course, Some(322));
    assert_eq!(pc.speed, Some(103));
    assert_eq!(pc.altitude, Some(3054));
    assert_eq!(pc.climb_rate, Some(-613));
    assert_eq!(pc.id.unwrap().address, 0xDDFAA3);
    assert!(msg.status_comment.is_none());
}

#[test]
fn full_packet_with_status_payload() {
    let line = "LKHS>APRS,TCPIP*,qAC,GLIDERN2:>211635h v0.2.7.RPI-GPU CPU:0.7";
    let msg = Message::from_str(line.as_bytes());
    assert!(msg.aprs_packet.is_ok());
    assert!(msg.position_comment.is_none());
    let sc = msg.status_comment.expect("status payload decodes comment fields");
    assert_eq!(sc.version, Some(b"0.2.7".to_vec()));
    assert_eq!(sc.platform, Some(b"RPI-GPU".to_vec()));
}

#[test]
fn undecodable_packet_keeps_error() {
    let msg = Message::from_str(b"no header delimiter here");
    assert!(msg.aprs_packet.is_err());
    assert!(msg.position_comment.is_none());
    assert!(msg.status_comment.is_none());
}
