use flightcore::gps::{
    classify_sentence, gsv_talker, parse_u32_ascii, ubx_cfg_gnss_all, ubx_cfg_nav_sbas_rate,
    ubx_checksum, verify_checksum, GnssSystem, GpsMonitor, GpsState, GsvTable, NmeaFrame,
    NmeaFramer, GPS_SV_MAXSATS,
};

#[test]
fn ubx_checksum_of_empty() {
    assert_eq!(ubx_checksum(&[]), (0, 0));
}

#[test]
fn ubx_checksum_small_vector() {
    // a: 1, 3, 6; b: 1, 4, 10
    assert_eq!(ubx_checksum(&[1, 2, 3]), (6, 10));
}

#[test]
fn gnss_all_message_bytes() {
    let (buf, len) = ubx_cfg_gnss_all();
    assert_eq!(len, 72);
    let expected: [u8; 72] = [
        181, 98, 6, 138, 64, 0, 0, 1, 0, 0, 31, 0, 49, 16, 1, 1, 0, 49, 16, 1, 33, 0, 49, 16, 1,
        7, 0, 49, 16, 1, 34, 0, 49, 16, 1, 13, 0, 49, 16, 1, 37, 0, 49, 16, 1, 24, 0, 49, 16, 1,
        32, 0, 49, 16, 1, 5, 0, 49, 16, 1, 36, 0, 49, 16, 0, 18, 0, 49, 16, 0, 246, 108,
    ];
    assert_eq!(&buf[..72], &expected[..]);
}

#[test]
fn nav_sbas_rate_message_frame() {
    let (buf, len) = ubx_cfg_nav_sbas_rate();
    assert_eq!(len, 91);
    // header: sync, class CFG, id VALSET, payload length 83
    assert_eq!(&buf[..6], &[181, 98, 6, 138, 83, 0]);
    // the GSV rate entry and the checksum close the frame
    assert_eq!(&buf[85..91], &[0, 145, 32, 10, 218, 181]);
}

#[test]
fn nmea_checksum_accepts_valid_sentence() {
    assert!(verify_checksum(
        "$GPGGA,123519,4807.038,N,01131.000,E,1,08,0.9,545.4,M,46.9,M,,*47"
    ));
}

#[test]
fn nmea_checksum_accepts_trailing_line_ending() {
    assert!(verify_checksum(
        "$GPRMC,123519,A,4807.038,N,01131.000,E,022.4,084.4,230394,003.1,W*6A\r\n"
    ));
}

#[test]
fn nmea_checksum_accepts_lowercase_hex() {
    assert!(verify_checksum(
        "$GPRMC,123519,A,4807.038,N,01131.000,E,022.4,084.4,230394,003.1,W*6a"
    ));
}

#[test]
fn nmea_checksum_rejects_wrong_value() {
    assert!(!verify_checksum(
        "$GPGGA,123519,4807.038,N,01131.000,E,1,08,0.9,545.4,M,46.9,M,,*46"
    ));
}

#[test]
fn nmea_checksum_rejects_missing_star() {
    assert!(!verify_checksum("$GPGGA,123519,4807.038"));
}

#[test]
fn nmea_checksum_rejects_empty_hex() {
    assert!(!verify_checksum("AB*"));
}

#[test]
fn classify_recognises_sentence_kinds() {
    assert_eq!(classify_sentence(b"$GPGGA,1,2"), NmeaFrame::Gga);
    assert_eq!(classify_sentence(b"$GNRMC,1,2"), NmeaFrame::Rmc);
    assert_eq!(classify_sentence(b"$GPGSA,1,2"), NmeaFrame::Gsa);
    assert_eq!(classify_sentence(b"$GLGSV,1,2"), NmeaFrame::Gsv);
    assert_eq!(classify_sentence(b"$GPVTG,1,2"), NmeaFrame::Vtg);
    assert_eq!(classify_sentence(b"$GPGLL,1,2"), NmeaFrame::Gll);
    assert_eq!(classify_sentence(b"$GPXYZ,1,2"), NmeaFrame::Other);
    assert_eq!(classify_sentence(b"$GP"), NmeaFrame::Other);
}

#[test]
fn gsv_talker_constellations() {
    assert_eq!(gsv_talker(b"$GPGSV"), GnssSystem::Gps);
    assert_eq!(gsv_talker(b"$GLGSV"), GnssSystem::Glonass);
    assert_eq!(gsv_talker(b"$GAGSV"), GnssSystem::Galileo);
    assert_eq!(gsv_talker(b"$GBGSV"), GnssSystem::Beidou);
    assert_eq!(gsv_talker(b"$BDGSV"), GnssSystem::Beidou);
    assert_eq!(gsv_talker(b"$GQGSV"), GnssSystem::Qzss);
    assert_eq!(gsv_talker(b"$QZGSV"), GnssSystem::Qzss);
    assert_eq!(gsv_talker(b"$XXGSV"), GnssSystem::Unknown);
    assert_eq!(gsv_talker(b"$G"), GnssSystem::Unknown);
}

#[test]
fn gnss_prefixes() {
    assert_eq!(GnssSystem::Gps.prefix(), 'G');
    assert_eq!(GnssSystem::Glonass.prefix(), 'R');
    assert_eq!(GnssSystem::Galileo.prefix(), 'E');
    assert_eq!(GnssSystem::Beidou.prefix(), 'C');
    assert_eq!(GnssSystem::Sbas.prefix(), 'S');
    assert_eq!(GnssSystem::Qzss.prefix(), 'Q');
    assert_eq!(GnssSystem::Unknown.prefix(), '?');
}

#[test]
fn parse_u32_ascii_fields() {
    assert_eq!(parse_u32_ascii(b"123"), Some(123));
    assert_eq!(parse_u32_ascii(b"0"), Some(0));
    assert_eq!(parse_u32_ascii(b"+7"), Some(7));
    assert_eq!(parse_u32_ascii(b""), None);
    assert_eq!(parse_u32_ascii(b"+"), None);
    assert_eq!(parse_u32_ascii(b"12a"), None);
    assert_eq!(parse_u32_ascii(b"-5"), None);
    assert_eq!(parse_u32_ascii(b"4294967295"), Some(u32::MAX));
    assert_eq!(parse_u32_ascii(b"4294967296"), None);
    assert_eq!(parse_u32_ascii(b"99999999999999999999"), None);
}

#[test]
fn gps_monitor_walks_the_state_machine() {
    let mut m = GpsMonitor::new();
    assert_eq!(m.state, GpsState::Unknown);

    // bytes arrive: start baud detection
    m.update_timing(10, 5);
    assert_eq!(m.state, GpsState::DetectBaud);
    assert_eq!(m.last_byte_ms, 10);

    // a parsed sentence: initialised
    m.sentences_rx = 1;
    m.update_timing(20, 5);
    assert_eq!(m.state, GpsState::Initialised);

    // a GGA: receiving data
    m.gga_count = 1;
    m.update_timing(30, 5);
    assert_eq!(m.state, GpsState::ReceivingData);

    // quiet for just under the timeout: still receiving
    m.update_timing(30 + 2500, 0);
    assert_eq!(m.state, GpsState::ReceivingData);
    assert_eq!(m.timeouts, 0);

    // quiet past the timeout: lost
    m.update_timing(30 + 2501, 0);
    assert_eq!(m.state, GpsState::LostCommunication);
    assert_eq!(m.timeouts, 1);

    // bytes again: back to baud detection
    m.update_timing(6000, 3);
    assert_eq!(m.state, GpsState::DetectBaud);
}

#[test]
fn gps_monitor_timeout_counts_from_last_byte() {
    let mut m = GpsMonitor::new();
    m.state = GpsState::ReceivingData;
    m.last_byte_ms = 1000;
    // fresh bytes this tick move the clock before the timeout test
    m.update_timing(5000, 1);
    assert_eq!(m.state, GpsState::ReceivingData);
}

#[test]
fn framer_splits_lines() {
    let mut f = NmeaFramer::new();
    let out = f.push_data(b"$GPGGA,1,2*47\r\n$GP");
    assert_eq!(out.len(), 1);
    assert_eq!(out[0], b"$GPGGA,1,2*47\r\n");
    assert_eq!(f.frame_error_count(), 0);
}

#[test]
fn framer_restarts_on_dollar() {
    let mut f = NmeaFramer::new();
    let out = f.push_data(b"garbage$GPGLL,x*00\n");
    assert_eq!(out.len(), 1);
    assert_eq!(out[0], b"$GPGLL,x*00\n");
}

#[test]
fn framer_counts_overflow_as_frame_error() {
    let mut f = NmeaFramer::new();
    let long = vec![b'A'; 200];
    let out = f.push_data(&long);
    assert!(out.is_empty());
    assert_eq!(f.frame_error_count(), 1);
    // after the overflow the framer keeps working
    let out = f.push_data(b"$GPGGA,1*2B\n");
    assert_eq!(out.len(), 1);
}

#[test]
fn gsv_table_cycles_and_accumulates() {
    let mut t = GsvTable::new();

    // a GPS first sentence always opens a new cycle
    t.note_header(GnssSystem::Gps, 1, 8, 1000);
    assert_eq!(t.sats_in_view, 8);
    assert_eq!(t.sv_count, 0);
    assert_eq!(t.last_gsv_reset_ms, 1000);

    assert!(t.push_sv(5, 40, GnssSystem::Gps));
    assert_eq!(t.sv_count, 1);
    assert_eq!(t.svinfo[0].svid, 5);
    assert_eq!(t.svinfo[0].cno, 40);
    assert_eq!(t.svinfo[0].gnss, GnssSystem::Gps);

    // a zero satellite id is skipped
    assert!(!t.push_sv(0, 30, GnssSystem::Gps));
    assert_eq!(t.sv_count, 1);

    // another constellation within the window adds to the count
    t.note_header(GnssSystem::Glonass, 1, 4, 1200);
    assert_eq!(t.sats_in_view, 12);
    assert_eq!(t.sv_count, 1);

    // later sentences of a block change nothing
    t.note_header(GnssSystem::Glonass, 2, 4, 1300);
    assert_eq!(t.sats_in_view, 12);

    // past the window, a non-GPS first sentence opens a new cycle
    t.note_header(GnssSystem::Galileo, 1, 3, 1801);
    assert_eq!(t.sats_in_view, 3);
    assert_eq!(t.sv_count, 0);
    assert_eq!(t.last_gsv_reset_ms, 1801);
}

#[test]
fn gsv_table_drops_records_when_full() {
    let mut t = GsvTable::new();
    t.note_header(GnssSystem::Gps, 1, 60, 0);
    for i in 0..GPS_SV_MAXSATS {
        assert!(t.push_sv((i + 1) as u8, 30, GnssSystem::Gps));
    }
    assert_eq!(t.sv_count as usize, GPS_SV_MAXSATS);
    assert!(!t.push_sv(99, 30, GnssSystem::Gps));
    assert_eq!(t.sv_count as usize, GPS_SV_MAXSATS);
}
