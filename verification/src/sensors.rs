//! Sensor sample decoding: the byte-level unpacking that sits between
//! the raw bus transfers and the estimation chain.  The barometer's
//! calibration coefficients arrive packed as 12-, 16- and 20-bit
//! two's-complement fields, its samples as 24-bit ones, and the
//! magnetometer reports its axes big-endian in X, Z, Y order.

use vstd::prelude::*;

verus! {

/// Sign-extend a 12-bit two's-complement value held in a u16.
pub open spec fn sext12(raw: u16) -> i16 {
    if raw >= 0x800 {
        (raw | 0xF000) as i16
    } else {
        raw as i16
    }
}

/// Reinterpret a 16-bit value as two's complement.
pub open spec fn as_i16(raw: u16) -> i16 {
    raw as i16
}

/// Sign-extend a 20-bit two's-complement value held in a u32.
pub open spec fn sext20(raw: u32) -> i32 {
    if raw >= 0x8_0000 {
        (raw | 0xFFF0_0000) as i32
    } else {
        raw as i32
    }
}

/// Sign-extend a 24-bit two's-complement value held in a u32.
pub open spec fn sext24(raw: u32) -> i32 {
    if raw >= 0x80_0000 {
        (raw | 0xFF00_0000) as i32
    } else {
        raw as i32
    }
}

/// A 24-bit big-endian two's-complement sample, as the barometer's
/// pressure and temperature registers hold it.
pub fn i24_from_be_bytes(b: [u8; 3]) -> (r: i32)
    ensures
        r == sext24(((b[0] as u32) << 16) | ((b[1] as u32) << 8) | (b[2] as u32)),
{
    let val: i32 = ((b[0] as i32) << 16u32) | ((b[1] as i32) << 8u32) | (b[2] as i32);
    let r = if val & 0x80_0000 != 0 {
        val | !0xFF_FFFF
    } else {
        val
    };
    proof {
        let b0 = b[0];
        let b1 = b[1];
        let b2 = b[2];
        assert({
            let vi = ((b0 as i32) << 16) | ((b1 as i32) << 8) | (b2 as i32);
            let vu = ((b0 as u32) << 16) | ((b1 as u32) << 8) | (b2 as u32);
            (if vi & 0x80_0000 != 0 {
                vi | !0xFF_FFFF
            } else {
                vi
            }) == (if vu >= 0x80_0000 {
                (vu | 0xFF00_0000) as i32
            } else {
                vu as i32
            })
        }) by (bit_vector);
    }
    r
}

/// The barometer's pressure-compensation coefficients, unpacked from its
/// calibration registers.
#[derive(Debug, Default, Clone, Copy, PartialEq, Eq, Structural)]
pub struct Spl06Coeffs {
    pub c0: i16,
    pub c1: i16,
    pub c00: i32,
    pub c10: i32,
    pub c01: i16,
    pub c11: i16,
    pub c20: i16,
    pub c21: i16,
    pub c30: i16,
}

/// Unpack the 18 calibration bytes: c0 and c1 are 12-bit fields sharing a
/// byte, c00 and c10 are 20-bit fields sharing one, and the rest are
/// plain big-endian 16-bit values; every field is two's complement.
pub fn spl06_coeffs_from_bytes(buf: &[u8; 18]) -> (c: Spl06Coeffs)
    ensures
        c.c0 == sext12(((buf[0] as u16) << 4) | ((buf[1] as u16) >> 4)),
        c.c1 == sext12((((buf[1] as u16) & 0x0F) << 8) | (buf[2] as u16)),
        c.c00 == sext20(((buf[3] as u32) << 12) | ((buf[4] as u32) << 4) | ((buf[5] as u32)
            >> 4)),
        c.c10 == sext20((((buf[5] as u32) & 0x0F) << 16) | ((buf[6] as u32) << 8) | (
        buf[7] as u32)),
        c.c01 == as_i16(((buf[8] as u16) << 8) | (buf[9] as u16)),
        c.c11 == as_i16(((buf[10] as u16) << 8) | (buf[11] as u16)),
        c.c20 == as_i16(((buf[12] as u16) << 8) | (buf[13] as u16)),
        c.c21 == as_i16(((buf[14] as u16) << 8) | (buf[15] as u16)),
        c.c30 == as_i16(((buf[16] as u16) << 8) | (buf[17] as u16)),
{
    let mut c = Spl06Coeffs {
        c0: 0,
        c1: 0,
        c00: 0,
        c10: 0,
        c01: 0,
        c11: 0,
        c20: 0,
        c21: 0,
        c30: 0,
    };

    let c0_raw = ((buf[0] as i16) << 4u32) | ((buf[1] as i16) >> 4u32);
    c.c0 = if c0_raw & 0x800 != 0 {
        c0_raw | !0xFFF
    } else {
        c0_raw
    };
    proof {
        let b0 = buf[0];
        let b1 = buf[1];
        assert({
            let ri = ((b0 as i16) << 4) | ((b1 as i16) >> 4);
            let ru = ((b0 as u16) << 4) | ((b1 as u16) >> 4);
            (if ri & 0x800 != 0 {
                ri | !0xFFF
            } else {
                ri
            }) == (if ru >= 0x800 {
                (ru | 0xF000) as i16
            } else {
                ru as i16
            })
        }) by (bit_vector);
    }

    let c1_raw = (((buf[1] as i16) & 0x0F) << 8u32) | (buf[2] as i16);
    c.c1 = if c1_raw & 0x800 != 0 {
        c1_raw | !0xFFF
    } else {
        c1_raw
    };
    proof {
        let b1 = buf[1];
        let b2 = buf[2];
        assert({
            let ri = (((b1 as i16) & 0x0F) << 8) | (b2 as i16);
            let ru = (((b1 as u16) & 0x0F) << 8) | (b2 as u16);
            (if ri & 0x800 != 0 {
                ri | !0xFFF
            } else {
                ri
            }) == (if ru >= 0x800 {
                (ru | 0xF000) as i16
            } else {
                ru as i16
            })
        }) by (bit_vector);
    }

    let c00_raw = ((buf[3] as i32) << 12u32) | ((buf[4] as i32) << 4u32) | ((buf[5] as i32)
        >> 4u32);
    c.c00 = if c00_raw & 0x8_0000 != 0 {
        c00_raw | !0xF_FFFF
    } else {
        c00_raw
    };
    proof {
        let b3 = buf[3];
        let b4 = buf[4];
        let b5 = buf[5];
        assert({
            let ri = ((b3 as i32) << 12) | ((b4 as i32) << 4) | ((b5 as i32) >> 4);
            let ru = ((b3 as u32) << 12) | ((b4 as u32) << 4) | ((b5 as u32) >> 4);
            (if ri & 0x8_0000 != 0 {
                ri | !0xF_FFFF
            } else {
                ri
            }) == (if ru >= 0x8_0000 {
                (ru | 0xFFF0_0000) as i32
            } else {
                ru as i32
            })
        }) by (bit_vector);
    }

    let c10_raw = (((buf[5] as i32) & 0x0F) << 16u32) | ((buf[6] as i32) << 8u32) | (
    buf[7] as i32);
    c.c10 = if c10_raw & 0x8_0000 != 0 {
        c10_raw | !0xF_FFFF
    } else {
        c10_raw
    };
    proof {
        let b5 = buf[5];
        let b6 = buf[6];
        let b7 = buf[7];
        assert({
            let ri = (((b5 as i32) & 0x0F) << 16) | ((b6 as i32) << 8) | (b7 as i32);
            let ru = (((b5 as u32) & 0x0F) << 16) | ((b6 as u32) << 8) | (b7 as u32);
            (if ri & 0x8_0000 != 0 {
                ri | !0xF_FFFF
            } else {
                ri
            }) == (if ru >= 0x8_0000 {
                (ru | 0xFFF0_0000) as i32
            } else {
                ru as i32
            })
        }) by (bit_vector);
    }

    c.c01 = be_i16(buf[8], buf[9]);
    c.c11 = be_i16(buf[10], buf[11]);
    c.c20 = be_i16(buf[12], buf[13]);
    c.c21 = be_i16(buf[14], buf[15]);
    c.c30 = be_i16(buf[16], buf[17]);

    c
}

/// A big-endian two's-complement 16-bit value.
pub fn be_i16(hi: u8, lo: u8) -> (r: i16)
    ensures
        r == as_i16(((hi as u16) << 8) | (lo as u16)),
{
    let r = ((hi as i16) << 8u32) | (lo as i16);
    proof {
        assert({
            let ri = ((hi as i16) << 8) | (lo as i16);
            let ru = ((hi as u16) << 8) | (lo as u16);
            ri == ru as i16
        }) by (bit_vector);
    }
    r
}

/// Unpack a magnetometer burst read: the device reports big-endian axes
/// in X, Z, Y register order; the result is [x, y, z].
pub fn mag_from_be_bytes(data: [u8; 6]) -> (r: [i16; 3])
    ensures
        r@[0] == as_i16(((data[0] as u16) << 8) | (data[1] as u16)),
        r@[2] == as_i16(((data[2] as u16) << 8) | (data[3] as u16)),
        r@[1] == as_i16(((data[4] as u16) << 8) | (data[5] as u16)),
{
    let x = be_i16(data[0], data[1]);
    let z = be_i16(data[2], data[3]);
    let y = be_i16(data[4], data[5]);
    [x, y, z]
}

} // verus!
