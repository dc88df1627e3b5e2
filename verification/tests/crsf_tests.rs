use flightcore::crsf::{
    build_telemetry_packet, calc_crc8, parse_channels, payload_attitude, payload_barometer,
    payload_battery, payload_flight_mode, payload_gps, payload_vario, CrsfParser,
    CRSF_FRAMETYPE_ATTITUDE, CRSF_FRAMETYPE_RC_CHANNELS_PACKED, CRSF_SYNC,
};

const CHANNELS: [u16; 16] = [
    172, 992, 1811, 992, 1500, 1501, 0, 2047, 1024, 512, 256, 128, 64, 32, 16, 8,
];

const PACKED: [u8; 22] = [
    172, 0, 223, 196, 193, 199, 221, 238, 2, 224, 255, 0, 4, 16, 64, 0, 1, 4, 16, 64, 0, 1,
];

#[test]
fn crc8_of_empty_is_zero() {
    assert_eq!(calc_crc8(&[]), 0);
}

#[test]
fn crc8_known_vector() {
    let mut data = vec![CRSF_FRAMETYPE_RC_CHANNELS_PACKED];
    data.extend_from_slice(&PACKED);
    assert_eq!(calc_crc8(&data), 251);
}

#[test]
fn parse_channels_unpacks_known_payload() {
    let rc = parse_channels(&PACKED);
    assert_eq!(rc.channels, CHANNELS);
}

#[test]
fn parse_channels_rejects_wrong_length() {
    let rc = parse_channels(&PACKED[..21]);
    assert_eq!(rc.channels, [0u16; 16]);
}

#[test]
fn parser_decodes_full_frame() {
    let mut frame = vec![CRSF_SYNC, 24, CRSF_FRAMETYPE_RC_CHANNELS_PACKED];
    frame.extend_from_slice(&PACKED);
    frame.push(251);

    let mut p = CrsfParser::new();
    for (i, &b) in frame.iter().enumerate() {
        let r = p.push_byte(b);
        if i + 1 == frame.len() {
            let rc = r.expect("final byte should complete the frame");
            assert_eq!(rc.channels, CHANNELS);
        } else {
            assert!(r.is_none());
        }
    }
}

#[test]
fn parser_rejects_bad_crc() {
    let mut frame = vec![CRSF_SYNC, 24, CRSF_FRAMETYPE_RC_CHANNELS_PACKED];
    frame.extend_from_slice(&PACKED);
    frame.push(250);

    let mut p = CrsfParser::new();
    assert!(p.push_bytes(&frame).is_none());
}

#[test]
fn parser_skips_noise_before_sync() {
    let mut data = vec![0x00, 0x55, 0xAA];
    data.push(CRSF_SYNC);
    data.push(24);
    data.push(CRSF_FRAMETYPE_RC_CHANNELS_PACKED);
    data.extend_from_slice(&PACKED);
    data.push(251);

    let mut p = CrsfParser::new();
    let rc = p.push_bytes(&data).expect("frame after noise should decode");
    assert_eq!(rc.channels, CHANNELS);
}

#[test]
fn parser_restarts_on_sync_in_length_slot() {
    // An out-of-range length byte that is itself the sync byte restarts
    // the frame, so a valid frame that begins there still decodes.
    let mut data = vec![CRSF_SYNC];
    data.push(CRSF_SYNC); // invalid as a length, valid as a new sync
    data.push(24);
    data.push(CRSF_FRAMETYPE_RC_CHANNELS_PACKED);
    data.extend_from_slice(&PACKED);
    data.push(251);

    let mut p = CrsfParser::new();
    let rc = p.push_bytes(&data).expect("restarted frame should decode");
    assert_eq!(rc.channels, CHANNELS);
}

#[test]
fn push_bytes_returns_last_frame() {
    let mut one = vec![CRSF_SYNC, 24, CRSF_FRAMETYPE_RC_CHANNELS_PACKED];
    one.extend_from_slice(&PACKED);
    one.push(251);
    let mut two = one.clone();
    two.extend_from_slice(&one);

    let mut p = CrsfParser::new();
    let rc = p.push_bytes(&two).expect("two frames should decode");
    assert_eq!(rc.channels, CHANNELS);
}

#[test]
fn telemetry_packet_layout() {
    let payload = payload_attitude(100, -200, 300);
    assert_eq!(payload, [0, 100, 255, 56, 1, 44]);

    let mut buf = [0u8; 64];
    let n = build_telemetry_packet(&mut buf, CRSF_FRAMETYPE_ATTITUDE, &payload);
    assert_eq!(n, 10);
    assert_eq!(&buf[..10], &[200, 8, 30, 0, 100, 255, 56, 1, 44, 245]);
}

#[test]
fn telemetry_packet_too_small_buffer() {
    let payload = payload_attitude(100, -200, 300);
    let mut buf = [7u8; 9];
    let n = build_telemetry_packet(&mut buf, CRSF_FRAMETYPE_ATTITUDE, &payload);
    assert_eq!(n, 0);
    assert_eq!(buf, [7u8; 9]);
}

#[test]
fn gps_payload_bytes() {
    let p = payload_gps(471234567, -85432109, 123, 4567, 1250, 12);
    assert_eq!(
        p,
        [28, 22, 120, 7, 250, 232, 104, 211, 0, 123, 17, 215, 4, 226, 12]
    );
}

#[test]
fn battery_payload_bytes() {
    let p = payload_battery(252, 10, 0x123456, 77);
    assert_eq!(p, [0, 252, 0, 10, 0x12, 0x34, 0x56, 77]);
}

#[test]
fn vario_payload_bytes() {
    let p = payload_vario(11000, -150);
    assert_eq!(p, [42, 248, 255, 106]);
}

#[test]
fn barometer_payload_bytes() {
    let p = payload_barometer(101325, -1250);
    assert_eq!(p, [0, 1, 139, 205, 255, 255, 251, 30]);
}

#[test]
fn flight_mode_payload_is_null_terminated() {
    let p = payload_flight_mode("ROCKET");
    assert_eq!(p, b"ROCKET\0");
}

#[test]
fn flight_mode_payload_truncates_long_text() {
    let long = "X".repeat(70);
    let p = payload_flight_mode(&long);
    assert_eq!(p.len(), 64);
    assert!(p.iter().all(|&b| b == b'X'));
}

#[test]
fn flight_mode_payload_keeps_null_at_the_limit() {
    let exact = "Y".repeat(63);
    let p = payload_flight_mode(&exact);
    assert_eq!(p.len(), 64);
    assert_eq!(p[63], 0);
}
