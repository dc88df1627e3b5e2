use flightcore::calib::{ImuCalibration, CALIB_SAMPLES};
use flightcore::control::{rc_tick_command, GearRatio, RcData, ARM_THRESHOLD};
use flightcore::dshot::dshot_frame;
use flightcore::telemetry::{telemetry_slot, TelemetryKind};

#[test]
fn gear_ratio_boundary() {
    // the boundary value selects 10:1; one above selects 20:1
    assert_eq!(GearRatio::from_aux_channel(1500), GearRatio::R10);
    assert_eq!(GearRatio::from_aux_channel(1501), GearRatio::R20);
    assert_eq!(GearRatio::from_aux_channel(0), GearRatio::R10);
    assert_eq!(GearRatio::from_aux_channel(2047), GearRatio::R20);
}

#[test]
fn gear_ratio_as_integer() {
    assert_eq!(GearRatio::R10.as_u8(), 10);
    assert_eq!(GearRatio::R20.as_u8(), 20);
}

#[test]
fn arming_threshold() {
    let mut rc = RcData::default();
    rc.channels[4] = ARM_THRESHOLD;
    let c = rc_tick_command(&rc);
    assert!(!c.armed);

    rc.channels[4] = ARM_THRESHOLD + 1;
    let c = rc_tick_command(&rc);
    assert!(c.armed);
}

#[test]
fn tick_command_reads_gear_channel() {
    let mut rc = RcData::default();
    rc.channels[5] = 1600;
    let c = rc_tick_command(&rc);
    assert_eq!(c.gear, GearRatio::R20);
    rc.channels[5] = 900;
    let c = rc_tick_command(&rc);
    assert_eq!(c.gear, GearRatio::R10);
}

#[test]
fn rc_data_default_is_zero() {
    let rc = RcData::default();
    assert_eq!(rc.channels, [0u16; 16]);
}

#[test]
fn dshot_frame_known_values() {
    assert_eq!(dshot_frame(0, false), 0);
    assert_eq!(dshot_frame(1046, false), 0x82C6);
    assert_eq!(dshot_frame(2047, true), 0xFFFF);
}

#[test]
fn dshot_frame_telemetry_bit() {
    let without = dshot_frame(100, false);
    let with = dshot_frame(100, true);
    // the telemetry request sits in bit 4, above the checksum nibble
    assert_eq!((with >> 4) & 1, 1);
    assert_eq!((without >> 4) & 1, 0);
}

#[test]
fn dshot_frame_truncates_to_eleven_bits() {
    assert_eq!(dshot_frame(0x0846, false), dshot_frame(0x8846 & 0x07FF, false));
}

#[test]
fn calibration_accumulates_and_completes() {
    let mut cal = ImuCalibration::new();
    assert!(!cal.is_complete());
    for _ in 0..CALIB_SAMPLES {
        cal.add_sample([100, -50, 2100], [3, -2, 1]);
    }
    assert!(cal.is_complete());
    assert_eq!(cal.samples, CALIB_SAMPLES);
    assert_eq!(cal.accel_sum, [10000, -5000, 210000]);
    assert_eq!(cal.gyro_sum, [300, -200, 100]);
}

#[test]
fn calibration_skipped_reads_do_not_count() {
    // a failed bus read never reaches the accumulator; only two of the
    // attempted reads succeeded here
    let mut cal = ImuCalibration::new();
    cal.add_sample([1, 2, 3], [4, 5, 6]);
    cal.add_sample([1, 2, 3], [4, 5, 6]);
    assert_eq!(cal.samples, 2);
    assert_eq!(cal.accel_sum, [2, 4, 6]);
    assert!(!cal.is_complete());
}

#[test]
fn telemetry_schedule_slots() {
    assert_eq!(telemetry_slot(2), TelemetryKind::Battery);
    assert_eq!(telemetry_slot(22), TelemetryKind::Battery);
    assert_eq!(telemetry_slot(0), TelemetryKind::Gps);
    assert_eq!(telemetry_slot(4), TelemetryKind::Gps);
    assert_eq!(telemetry_slot(1), TelemetryKind::Attitude);
    assert_eq!(telemetry_slot(6), TelemetryKind::Vario);
    assert_eq!(telemetry_slot(10), TelemetryKind::Vario);
    assert_eq!(telemetry_slot(3), TelemetryKind::Idle);
    assert_eq!(telemetry_slot(7), TelemetryKind::Idle);
}
