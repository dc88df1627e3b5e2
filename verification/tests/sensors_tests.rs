use flightcore::sensors::{be_i16, i24_from_be_bytes, mag_from_be_bytes, spl06_coeffs_from_bytes};

#[test]
fn i24_sign_extension() {
    assert_eq!(i24_from_be_bytes([0x12, 0x34, 0x56]), 1193046);
    assert_eq!(i24_from_be_bytes([0xFF, 0xFE, 0x00]), -512);
    assert_eq!(i24_from_be_bytes([0x80, 0x00, 0x00]), -8388608);
    assert_eq!(i24_from_be_bytes([0x7F, 0xFF, 0xFF]), 8388607);
    assert_eq!(i24_from_be_bytes([0, 0, 0]), 0);
}

#[test]
fn be_i16_values() {
    assert_eq!(be_i16(0x12, 0x34), 0x1234);
    assert_eq!(be_i16(0xFF, 0xFF), -1);
    assert_eq!(be_i16(0x80, 0x00), i16::MIN);
}

#[test]
fn spl06_coefficients_unpack() {
    let buf: [u8; 18] = [
        0x12, 0x3A, 0xBC, 0x81, 0x23, 0x4F, 0xF0, 0x0D, 0x80, 0x01, 0x00, 0xFF, 0x7F, 0xFF,
        0xFF, 0xFE, 0x12, 0x34,
    ];
    let c = spl06_coeffs_from_bytes(&buf);
    assert_eq!(c.c0, 291);
    assert_eq!(c.c1, -1348);
    assert_eq!(c.c00, -519628);
    assert_eq!(c.c10, -4083);
    assert_eq!(c.c01, -32767);
    assert_eq!(c.c11, 255);
    assert_eq!(c.c20, 32767);
    assert_eq!(c.c21, -2);
    assert_eq!(c.c30, 4660);
}

#[test]
fn magnetometer_axes_are_reordered() {
    // registers report X, Z, Y; the result is [x, y, z]
    let r = mag_from_be_bytes([0x00, 0x10, 0x00, 0x20, 0xFF, 0xF0]);
    assert_eq!(r, [16, -16, 32]);
}
